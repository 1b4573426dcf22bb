use dns_server::error::Error;
use dns_server::parser::name::parse_name;
use dns_server::parser::parse_message;
use dns_server::protocol::QueryClass;
use dns_server::protocol::QueryType;
use dns_server::protocol::ResponseCode;

/// A 12-byte header declaring `qd` questions and `an` answers.
fn header_bytes(qd: u16, an: u16) -> Vec<u8> {
    let mut buf = vec![0u8; 12];
    buf[4] = (qd >> 8) as u8;
    buf[5] = qd as u8;
    buf[6] = (an >> 8) as u8;
    buf[7] = an as u8;
    buf
}

#[test]
fn name_direct_and_via_pointer_agree() {
    // labels "example", null terminator, then a name that is only a
    // pointer back to offset 0
    let mut buf = vec![7u8];
    buf.extend_from_slice(b"example");
    buf.push(0);
    let pointer_at = buf.len();
    buf.push(0xc0);
    buf.push(0);
    let (direct, after_direct) = parse_name(&buf, 0).unwrap();
    let (via_pointer, after_pointer) = parse_name(&buf, pointer_at).unwrap();
    assert_eq!(direct, b"example".to_vec());
    assert_eq!(via_pointer, b"example".to_vec());
    assert_eq!(after_direct, 9);
    // the cursor advances only past the two pointer bytes
    assert_eq!(after_pointer, pointer_at + 2);
}

#[test]
fn name_pointer_to_suffix() {
    // "tail", terminator, then "head" + pointer to "tail"
    let mut buf = vec![4u8];
    buf.extend_from_slice(b"tail");
    buf.push(0);
    let second = buf.len();
    buf.push(4);
    buf.extend_from_slice(b"head");
    buf.push(0xc0);
    buf.push(0);
    let (name, after) = parse_name(&buf, second).unwrap();
    assert_eq!(name, b"head.tail".to_vec());
    assert_eq!(after, buf.len());
}

#[test]
fn name_self_pointer_fails() {
    let buf = vec![0xc0u8, 0, 0, 0];
    assert_eq!(parse_name(&buf, 0), Err(Error::ParseError));
}

#[test]
fn name_pointer_chain_over_ten_hops_fails() {
    // twelve chained pointers at offsets 0, 2, 4, ... ending in a real name
    let mut buf = Vec::new();
    for hop in 0..12u8 {
        buf.push(0xc0);
        buf.push(2 * (hop + 1));
    }
    buf.push(1);
    buf.push(b'x');
    buf.push(0);
    assert_eq!(parse_name(&buf, 0), Err(Error::ParseError));
    // a two-hop prefix of the same chain resolves fine
    let (name, _) = parse_name(&buf, 20).unwrap();
    assert_eq!(name, b"x".to_vec());
}

#[test]
fn name_pointer_out_of_range_fails() {
    let buf = vec![0xc0u8, 0x7f, 0, 0];
    assert_eq!(parse_name(&buf, 0), Err(Error::ParseError));
}

#[test]
fn name_truncated_label_fails() {
    let buf = vec![5u8, b'a', b'b'];
    assert_eq!(parse_name(&buf, 0), Err(Error::ParseError));
}

#[test]
fn truncated_record_data_fails() {
    // one answer whose declared RDATA length exceeds the remaining buffer
    let mut buf = header_bytes(0, 1);
    buf.push(1);
    buf.push(b'a');
    buf.push(0); // name "a"
    buf.extend_from_slice(&[0, 1, 0, 1]); // type A, class IN
    buf.extend_from_slice(&[0, 0, 0, 60]); // ttl
    buf.extend_from_slice(&[0, 4]); // declares 4 bytes of RDATA
    buf.extend_from_slice(&[1, 2]); // only 2 are present
    assert_eq!(parse_message(&buf), Err(Error::ParseError));
}

#[test]
fn declared_count_exceeding_data_fails() {
    let buf = header_bytes(2, 0);
    assert_eq!(parse_message(&buf), Err(Error::ParseError));
}

#[test]
fn short_header_fails() {
    assert_eq!(parse_message(&[0u8; 11]), Err(Error::ParseError));
    assert_eq!(parse_message(&[]), Err(Error::ParseError));
}

#[test]
fn unknown_codes_degrade_to_fallbacks() {
    let mut buf = header_bytes(1, 0);
    buf[3] = 0x0f; // rcode 15: unrecognized
    buf.push(1);
    buf.push(b'q');
    buf.push(0);
    buf.extend_from_slice(&[0x12, 0x34]); // unknown type
    buf.extend_from_slice(&[0x56, 0x78]); // unknown class
    let message = parse_message(&buf).unwrap();
    assert_eq!(message.header.rcode, ResponseCode::FormatError);
    assert_eq!(message.questions[0].q_type, QueryType::A);
    assert_eq!(message.questions[0].q_class, QueryClass::IN);
}

#[test]
fn parse_reads_exact_record() {
    let mut buf = header_bytes(0, 1);
    buf.push(3);
    buf.extend_from_slice(b"foo");
    buf.push(0);
    buf.extend_from_slice(&[0, 2, 0, 1]); // NS, IN
    buf.extend_from_slice(&[0, 0, 0x0e, 0x10]); // ttl 3600
    buf.extend_from_slice(&[0, 3, 9, 8, 7]); // 3 bytes of RDATA
    let message = parse_message(&buf).unwrap();
    assert_eq!(message.answers.len(), 1);
    let answer = &message.answers[0];
    assert_eq!(answer.name, b"foo".to_vec());
    assert_eq!(answer.q_type, QueryType::NS);
    assert_eq!(answer.ttl, 3600);
    assert_eq!(answer.data, vec![9, 8, 7]);
}

#[test]
fn trailing_bytes_are_ignored() {
    let mut buf = header_bytes(0, 0);
    buf.extend_from_slice(&[1, 2, 3]);
    assert!(parse_message(&buf).is_ok());
}

#[test]
fn question_name_via_compression_pointer() {
    // the question's name is a pointer into the header region would be
    // nonsense; instead embed a name after the question and point to it
    let mut buf = header_bytes(1, 0);
    // question at 12: pointer to offset 18, then type/class
    buf.push(0xc0);
    buf.push(18);
    buf.extend_from_slice(&[0, 1, 0, 1]);
    // offset 18: the name "hi"
    buf.push(2);
    buf.extend_from_slice(b"hi");
    buf.push(0);
    let message = parse_message(&buf).unwrap();
    assert_eq!(message.questions[0].name, b"hi".to_vec());
}
