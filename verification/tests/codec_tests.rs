use dns_server::codec::encode_message;
use dns_server::codec::message_is_encodable;
use dns_server::codec::name_is_valid;
use dns_server::parser::parse_message;
use dns_server::protocol::DnsHeader;
use dns_server::protocol::DnsMessage;
use dns_server::protocol::DnsQuestion;
use dns_server::protocol::QueryClass;
use dns_server::protocol::QueryType;
use dns_server::protocol::ResourceRecord;
use dns_server::protocol::ResponseCode;

fn plain_header() -> DnsHeader {
    DnsHeader {
        id: 0,
        qr: false,
        opcode: 0,
        authoritative_answer: false,
        truncation: false,
        recursion_desired: false,
        recursion_available: false,
        rcode: ResponseCode::NoError,
        question_count: 0,
        answer_count: 0,
        authority_count: 0,
        additional_count: 0,
    }
}

#[test]
fn encode_header_exact_bytes() {
    let message = DnsMessage {
        header: DnsHeader {
            id: 0x1234,
            qr: true,
            opcode: 0,
            recursion_desired: true,
            ..plain_header()
        },
        questions: vec![],
        answers: vec![],
    };
    let bytes = encode_message(&message);
    assert_eq!(
        bytes,
        vec![0x12, 0x34, 0x81, 0x00, 0x00, 0x00, 0x00, 0x00, 0x00, 0x00, 0x00, 0x00]
    );
}

#[test]
fn encode_question_exact_bytes() {
    let message = DnsMessage {
        header: DnsHeader { id: 1, ..plain_header() },
        questions: vec![DnsQuestion {
            name: b"ab.c".to_vec(),
            q_type: QueryType::CNAME,
            q_class: QueryClass::IN,
        }],
        answers: vec![],
    };
    let bytes = encode_message(&message);
    let mut expected = vec![0, 1, 0, 0, 0, 1, 0, 0, 0, 0, 0, 0];
    expected.extend_from_slice(&[2, b'a', b'b', 1, b'c', 0, 0, 5, 0, 1]);
    assert_eq!(bytes, expected);
}

#[test]
fn encode_root_name_single_zero_byte() {
    let message = DnsMessage {
        header: plain_header(),
        questions: vec![DnsQuestion {
            name: Vec::new(),
            q_type: QueryType::A,
            q_class: QueryClass::IN,
        }],
        answers: vec![],
    };
    let bytes = encode_message(&message);
    // 12 header bytes, one zero terminator byte, type, class
    assert_eq!(&bytes[12..], &[0, 0, 1, 0, 1]);
}

#[test]
fn encode_counts_recomputed_from_sections() {
    // stored counts say zero; the encoder must write the live lengths
    let message = DnsMessage {
        header: DnsHeader { question_count: 9, answer_count: 9, ..plain_header() },
        questions: vec![DnsQuestion {
            name: b"x".to_vec(),
            q_type: QueryType::A,
            q_class: QueryClass::IN,
        }],
        answers: vec![],
    };
    let bytes = encode_message(&message);
    assert_eq!(&bytes[4..8], &[0, 1, 0, 0]);
}

#[test]
fn header_flags_all_true_round_trip() {
    let header = DnsHeader {
        id: 0xbeef,
        qr: true,
        opcode: 0,
        authoritative_answer: true,
        truncation: true,
        recursion_desired: true,
        recursion_available: true,
        rcode: ResponseCode::NoError,
        question_count: 0,
        answer_count: 0,
        authority_count: 0,
        additional_count: 0,
    };
    let message = DnsMessage { header, questions: vec![], answers: vec![] };
    let bytes = encode_message(&message);
    let parsed = parse_message(&bytes).unwrap();
    assert_eq!(parsed.header, header);
}

#[test]
fn each_flag_bit_is_independent() {
    for bit in 0..5 {
        let header = DnsHeader {
            qr: bit == 0,
            authoritative_answer: bit == 1,
            truncation: bit == 2,
            recursion_desired: bit == 3,
            recursion_available: bit == 4,
            ..plain_header()
        };
        let message = DnsMessage { header, questions: vec![], answers: vec![] };
        let parsed = parse_message(&encode_message(&message)).unwrap();
        assert_eq!(parsed.header, header);
    }
}

#[test]
fn message_round_trip() {
    let message = DnsMessage {
        header: DnsHeader {
            id: 77,
            recursion_desired: true,
            rcode: ResponseCode::NameError,
            authority_count: 3,
            additional_count: 4,
            ..plain_header()
        },
        questions: vec![
            DnsQuestion {
                name: b"example.com".to_vec(),
                q_type: QueryType::A,
                q_class: QueryClass::IN,
            },
            DnsQuestion {
                name: b"www.example.org".to_vec(),
                q_type: QueryType::AAAA,
                q_class: QueryClass::IN,
            },
        ],
        answers: vec![ResourceRecord {
            name: b"example.com".to_vec(),
            q_type: QueryType::NS,
            q_class: QueryClass::IN,
            ttl: 3600,
            data: vec![1, 2, 3, 4, 5],
        }],
    };
    let parsed = parse_message(&encode_message(&message)).unwrap();
    let mut expected = message.clone();
    expected.header.question_count = 2;
    expected.header.answer_count = 1;
    assert_eq!(parsed, expected);
}

#[test]
fn round_trip_keeps_authority_and_additional_counts() {
    let message = DnsMessage {
        header: DnsHeader { authority_count: 17, additional_count: 255, ..plain_header() },
        questions: vec![],
        answers: vec![],
    };
    let parsed = parse_message(&encode_message(&message)).unwrap();
    assert_eq!(parsed.header.authority_count, 17);
    assert_eq!(parsed.header.additional_count, 255);
}

#[test]
fn name_validity_rules() {
    assert!(name_is_valid(b""));
    assert!(name_is_valid(b"example.com"));
    assert!(name_is_valid(b"a"));
    assert!(!name_is_valid(b".a"));
    assert!(!name_is_valid(b"a."));
    assert!(!name_is_valid(b"a..b"));
    assert!(name_is_valid(&[b'x'; 63]));
    assert!(!name_is_valid(&[b'x'; 64]));
}

#[test]
fn encodable_checks_sections() {
    let good = DnsMessage {
        header: plain_header(),
        questions: vec![DnsQuestion {
            name: b"ok".to_vec(),
            q_type: QueryType::A,
            q_class: QueryClass::IN,
        }],
        answers: vec![],
    };
    assert!(message_is_encodable(&good));
    let bad = DnsMessage {
        header: plain_header(),
        questions: vec![DnsQuestion {
            name: b"not..ok".to_vec(),
            q_type: QueryType::A,
            q_class: QueryClass::IN,
        }],
        answers: vec![],
    };
    assert!(!message_is_encodable(&bad));
}
