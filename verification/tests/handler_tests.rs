use dns_server::handlers::forwarder::append_answers;
use dns_server::handlers::forwarder::forward_base;
use dns_server::handlers::forwarder::not_implemented_response;
use dns_server::handlers::forwarder::sub_query;
use dns_server::handlers::StagedResponseHandler;
use dns_server::protocol::DnsHeader;
use dns_server::protocol::DnsMessage;
use dns_server::protocol::DnsQuestion;
use dns_server::protocol::QueryClass;
use dns_server::protocol::QueryType;
use dns_server::protocol::ResourceRecord;
use dns_server::protocol::ResponseCode;

fn query_header(id: u16, opcode: u8) -> DnsHeader {
    DnsHeader {
        id,
        qr: false,
        opcode,
        authoritative_answer: false,
        truncation: false,
        recursion_desired: true,
        recursion_available: false,
        rcode: ResponseCode::NoError,
        question_count: 1,
        answer_count: 0,
        authority_count: 0,
        additional_count: 0,
    }
}

fn question(name: &[u8]) -> DnsQuestion {
    DnsQuestion { name: name.to_vec(), q_type: QueryType::A, q_class: QueryClass::IN }
}

#[test]
fn staged_standard_query_synthesizes_answer() {
    let query = DnsMessage {
        header: query_header(42, 0),
        questions: vec![question(b"example.com")],
        answers: vec![],
    };
    let handler = StagedResponseHandler;
    let response = handler.handle_query(&query).unwrap();
    assert!(response.header.qr);
    assert!(!response.header.recursion_available);
    assert_eq!(response.header.rcode, ResponseCode::NoError);
    assert_eq!(response.header.id, 42);
    assert_eq!(response.questions, query.questions);
    assert_eq!(response.answers.len(), 1);
    let answer = &response.answers[0];
    assert_eq!(answer.name, b"example.com".to_vec());
    assert_eq!(answer.q_type, QueryType::A);
    assert_eq!(answer.q_class, QueryClass::IN);
    assert_eq!(answer.ttl, 60);
    assert_eq!(answer.data, vec![8, 8, 8, 8]);
}

#[test]
fn staged_synthesizes_one_answer_per_question() {
    let query = DnsMessage {
        header: query_header(1, 0),
        questions: vec![question(b"a.example"), question(b"b.example"), question(b"c.example")],
        answers: vec![],
    };
    let response = StagedResponseHandler.handle_query(&query).unwrap();
    assert_eq!(response.answers.len(), 3);
    assert_eq!(response.answers[0].name, b"a.example".to_vec());
    assert_eq!(response.answers[1].name, b"b.example".to_vec());
    assert_eq!(response.answers[2].name, b"c.example".to_vec());
}

#[test]
fn staged_non_standard_opcode_not_implemented() {
    let query = DnsMessage {
        header: query_header(7, 4),
        questions: vec![question(b"example.com")],
        answers: vec![],
    };
    let response = StagedResponseHandler.handle_query(&query).unwrap();
    assert!(response.header.qr);
    assert!(!response.header.recursion_available);
    assert_eq!(response.header.rcode, ResponseCode::NotImplemented);
    assert!(response.answers.is_empty());
    assert_eq!(response.questions, query.questions);
}

#[test]
fn forwarder_non_standard_opcode_not_implemented() {
    let query = DnsMessage {
        header: query_header(9, 2),
        questions: vec![question(b"example.com")],
        answers: vec![],
    };
    let response = not_implemented_response(&query);
    assert!(response.header.qr);
    assert!(!response.header.recursion_available);
    assert_eq!(response.header.rcode, ResponseCode::NotImplemented);
    assert!(response.answers.is_empty());
    assert_eq!(response.questions, query.questions);
}

fn reply_with(name: &[u8], data: Vec<u8>) -> DnsMessage {
    DnsMessage {
        header: query_header(5, 0),
        questions: vec![],
        answers: vec![ResourceRecord {
            name: name.to_vec(),
            q_type: QueryType::A,
            q_class: QueryClass::IN,
            ttl: 60,
            data,
        }],
    }
}

#[test]
fn forwarder_two_questions_two_sub_queries_concatenated_answers() {
    let query = DnsMessage {
        header: query_header(5, 0),
        questions: vec![question(b"one.example"), question(b"two.example")],
        answers: vec![],
    };
    // each sub-query carries one question and the original id and flags
    let first = sub_query(&query, 0);
    let second = sub_query(&query, 1);
    assert_eq!(first.header, query.header);
    assert_eq!(second.header, query.header);
    assert_eq!(first.questions, vec![question(b"one.example")]);
    assert_eq!(second.questions, vec![question(b"two.example")]);
    // the final response gathers both replies' answers in question order
    let mut response = forward_base(&query);
    assert!(response.header.qr);
    assert!(response.header.recursion_available);
    assert!(response.answers.is_empty());
    assert_eq!(response.questions, query.questions);
    append_answers(&mut response, reply_with(b"one.example", vec![1, 1, 1, 1]));
    append_answers(&mut response, reply_with(b"two.example", vec![2, 2, 2, 2]));
    assert_eq!(response.answers.len(), 2);
    assert_eq!(response.answers[0].name, b"one.example".to_vec());
    assert_eq!(response.answers[0].data, vec![1, 1, 1, 1]);
    assert_eq!(response.answers[1].name, b"two.example".to_vec());
    assert_eq!(response.answers[1].data, vec![2, 2, 2, 2]);
    assert_eq!(response.header.id, 5);
}

#[test]
fn sub_query_keeps_transaction_id() {
    let query = DnsMessage {
        header: query_header(0xabcd, 0),
        questions: vec![question(b"x.y"), question(b"z.w")],
        answers: vec![],
    };
    for i in 0..2 {
        let sub = sub_query(&query, i);
        assert_eq!(sub.header.id, 0xabcd);
        assert_eq!(sub.questions.len(), 1);
    }
}
