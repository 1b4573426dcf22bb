//! The mathematical description of the DNS wire format: what a message
//! looks like as a byte sequence, and what a byte sequence means as a
//! message. The executable codec in `codec` and `parser` is proved against
//! these functions, and the round-trip law is proved here.

use vstd::prelude::*;

use crate::protocol::DnsHeader;
use crate::protocol::MessageModel;
use crate::protocol::QueryClass;
use crate::protocol::QueryType;
use crate::protocol::QuestionModel;
use crate::protocol::RecordModel;
use crate::protocol::ResponseCode;

verus! {

/// The label separator in the in-memory rendering of a name: `b'.'`.
pub open spec fn dot() -> u8 {
    46
}

/// A 16-bit value in network byte order.
pub open spec fn spec_be16(v: u16) -> Seq<u8> {
    seq![((v >> 8) & 0xff) as u8, (v & 0xff) as u8]
}

/// A 32-bit value in network byte order.
pub open spec fn spec_be32(v: u32) -> Seq<u8> {
    seq![
        ((v >> 24) & 0xff) as u8,
        ((v >> 16) & 0xff) as u8,
        ((v >> 8) & 0xff) as u8,
        (v & 0xff) as u8,
    ]
}

/// The 16-bit value stored in network byte order at `p`.
pub open spec fn spec_read_u16(buf: Seq<u8>, p: int) -> u16 {
    ((buf[p] as u16) << 8) | (buf[p + 1] as u16)
}

/// The 32-bit value stored in network byte order at `p`.
pub open spec fn spec_read_u32(buf: Seq<u8>, p: int) -> u32 {
    ((buf[p] as u32) << 24) | ((buf[p + 1] as u32) << 16) | ((buf[p + 2] as u32) << 8) | (buf[p
        + 3] as u32)
}

/// The index of the first `b'.'` in `s`, or `s.len()` if there is none.
pub open spec fn first_dot(s: Seq<u8>) -> nat
    decreases s.len(),
{
    if s.len() == 0 {
        0
    } else if s[0] == dot() {
        0
    } else {
        (1 + first_dot(s.skip(1))) as nat
    }
}

pub proof fn lemma_first_dot(s: Seq<u8>)
    ensures
        first_dot(s) <= s.len(),
        forall|i: int| 0 <= i < first_dot(s) ==> s[i] != dot(),
        first_dot(s) < s.len() ==> s[first_dot(s) as int] == dot(),
    decreases s.len(),
{
    if s.len() != 0 && s[0] != dot() {
        lemma_first_dot(s.skip(1));
        assert forall|i: int| 0 <= i < first_dot(s) implies s[i] != dot() by {
            if i > 0 {
                assert(s.skip(1)[i - 1] == s[i]);
            }
        }
        if first_dot(s) < s.len() {
            assert(s.skip(1)[first_dot(s) - 1] == s[first_dot(s) as int]);
        }
    }
}

/// `first_dot` is pinned by its characterization: no dot before `j`, and a
/// dot (or the end) at `j`.
pub proof fn lemma_first_dot_is(s: Seq<u8>, j: int)
    requires
        0 <= j <= s.len(),
        forall|i: int| 0 <= i < j ==> s[i] != dot(),
        j < s.len() ==> s[j] == dot(),
    ensures
        first_dot(s) == j,
    decreases s.len(),
{
    if s.len() != 0 && s[0] != dot() {
        assert(j >= 1);
        assert forall|i: int| 0 <= i < j - 1 implies s.skip(1)[i] != dot() by {
            assert(s.skip(1)[i] == s[i + 1]);
        }
        if j - 1 < s.skip(1).len() {
            assert(s.skip(1)[j - 1] == s[j]);
        }
        lemma_first_dot_is(s.skip(1), j - 1);
    }
}

/// Skipping twice is skipping once by the sum.
pub proof fn lemma_skip_skip<T>(s: Seq<T>, a: int, b: int)
    requires
        0 <= a,
        0 <= b,
        a + b <= s.len(),
    ensures
        s.skip(a).skip(b) == s.skip(a + b),
{
    assert(s.skip(a).skip(b) =~= s.skip(a + b));
}

/// A name whose labels all have wire-encodable lengths: each dot-separated
/// label holds between 1 and 63 bytes.
pub open spec fn valid_labels(s: Seq<u8>) -> bool
    decreases s.len(),
{
    let d = first_dot(s);
    &&& 1 <= d <= 63
    &&& (d < s.len() ==> valid_labels(s.skip(d as int + 1)))
}

/// A well-formed name: empty (the root), or a valid run of labels.
pub open spec fn valid_name(s: Seq<u8>) -> bool {
    s.len() == 0 || valid_labels(s)
}

/// The wire form of the labels of a non-empty name, without the
/// terminator: each label as a length byte followed by its bytes.
pub open spec fn spec_encode_labels(s: Seq<u8>) -> Seq<u8>
    decreases s.len(),
{
    let d = first_dot(s);
    if d < s.len() {
        seq![d as u8] + s.take(d as int) + spec_encode_labels(s.skip(d as int + 1))
    } else {
        seq![s.len() as u8] + s
    }
}

/// The wire form of a name: its labels followed by a zero terminator; the
/// root name is the terminator alone. Encoding never emits compression
/// pointers.
pub open spec fn spec_encode_name(s: Seq<u8>) -> Seq<u8> {
    if s.len() == 0 {
        seq![0u8]
    } else {
        spec_encode_labels(s) + seq![0u8]
    }
}

/// The 16-bit flag word of a header: bit 15 qr, bits 14-11 opcode, bit 10
/// authoritative answer, bit 9 truncation, bit 8 recursion desired, bit 7
/// recursion available, bits 6-4 zero, bits 3-0 response code.
pub open spec fn spec_flags_word(h: DnsHeader) -> u16 {
    (if h.qr {
        0x8000u16
    } else {
        0u16
    }) | ((h.opcode as u16) << 11) | (if h.authoritative_answer {
        0x400u16
    } else {
        0u16
    }) | (if h.truncation {
        0x200u16
    } else {
        0u16
    }) | (if h.recursion_desired {
        0x100u16
    } else {
        0u16
    }) | (if h.recursion_available {
        0x80u16
    } else {
        0u16
    }) | (h.rcode.spec_code() as u16)
}

/// The 12 header bytes; the question and answer counts are the given ones,
/// recomputed by the encoder from the live sections, never copied from the
/// stored fields.
pub open spec fn spec_encode_header(h: DnsHeader, qd: u16, an: u16) -> Seq<u8> {
    spec_be16(h.id) + spec_be16(spec_flags_word(h)) + spec_be16(qd) + spec_be16(an) + spec_be16(
        h.authority_count,
    ) + spec_be16(h.additional_count)
}

/// The wire form of one question: name, type, class.
pub open spec fn spec_encode_question(q: QuestionModel) -> Seq<u8> {
    spec_encode_name(q.name) + spec_be16(q.q_type.spec_code()) + spec_be16(q.q_class.spec_code())
}

/// The wire form of one answer record: name, type, class, time-to-live,
/// RDATA length, RDATA bytes verbatim.
pub open spec fn spec_encode_record(r: RecordModel) -> Seq<u8> {
    spec_encode_name(r.name) + spec_be16(r.q_type.spec_code()) + spec_be16(r.q_class.spec_code())
        + spec_be32(r.ttl) + spec_be16(r.data.len() as u16) + r.data
}

pub open spec fn spec_encode_questions(qs: Seq<QuestionModel>) -> Seq<u8>
    decreases qs.len(),
{
    if qs.len() == 0 {
        Seq::empty()
    } else {
        spec_encode_question(qs[0]) + spec_encode_questions(qs.skip(1))
    }
}

pub open spec fn spec_encode_records(rs: Seq<RecordModel>) -> Seq<u8>
    decreases rs.len(),
{
    if rs.len() == 0 {
        Seq::empty()
    } else {
        spec_encode_record(rs[0]) + spec_encode_records(rs.skip(1))
    }
}

/// The exact byte sequence of a message: header, then every question in
/// order, then every answer record in order, with no padding.
pub open spec fn spec_encode_message(m: MessageModel) -> Seq<u8> {
    spec_encode_header(m.header, m.questions.len() as u16, m.answers.len() as u16)
        + spec_encode_questions(m.questions) + spec_encode_records(m.answers)
}

/// A question the encoder can write faithfully.
pub open spec fn question_encodable(q: QuestionModel) -> bool {
    valid_name(q.name)
}

/// A record the encoder can write faithfully: its declared RDATA length
/// must fit the 16-bit length field.
pub open spec fn record_encodable(r: RecordModel) -> bool {
    valid_name(r.name) && r.data.len() <= 0xffff
}

/// A structurally valid message: section lengths fit their 16-bit header
/// counts and every name and record is encodable.
pub open spec fn message_encodable(m: MessageModel) -> bool {
    &&& m.questions.len() <= 0xffff
    &&& m.answers.len() <= 0xffff
    &&& forall|i: int| 0 <= i < m.questions.len() ==> question_encodable(#[trigger] m.questions[i])
    &&& forall|i: int| 0 <= i < m.answers.len() ==> record_encodable(#[trigger] m.answers[i])
}

/// An encodable message whose opcode also fits its 4-bit field, so that
/// decoding its encoding recovers it exactly.
pub open spec fn message_wf(m: MessageModel) -> bool {
    message_encodable(m) && m.header.opcode < 16
}

/// The maximum number of compression-pointer hops the parser follows
/// before it fails.
pub open spec fn max_pointer_depth() -> int {
    10
}

/// The meaning of a name starting at `pos` of the whole datagram `buf`,
/// with `depth` pointer hops already taken: the name's bytes (labels joined
/// by dots) and the position just past the name's in-line portion, or
/// `None` if the name is malformed, truncated, or chases pointers more
/// than `max_pointer_depth()` hops.
pub open spec fn spec_parse_name(buf: Seq<u8>, pos: int, depth: int) -> Option<(Seq<u8>, int)>
    decreases 11 - depth, buf.len() - pos,
{
    if depth > max_pointer_depth() {
        None
    } else if !(0 <= pos < buf.len()) {
        None
    } else {
        let b = buf[pos];
        if b & 0xc0 == 0xc0 {
            // a two-byte pointer: the low 14 bits give an absolute offset
            if pos + 2 > buf.len() {
                None
            } else {
                let off = ((b & 0x3f) as int) * 256 + (buf[pos + 1] as int);
                if off > buf.len() {
                    None
                } else {
                    match spec_parse_name(buf, off, depth + 1) {
                        None => None,
                        // the enclosing cursor advances only past the pointer
                        Some((name, _)) => Some((name, pos + 2)),
                    }
                }
            }
        } else if b == 0 {
            Some((Seq::empty(), pos + 1))
        } else {
            let l = b as int;
            if pos + 1 + l > buf.len() {
                None
            } else {
                let label = buf.subrange(pos + 1, pos + 1 + l);
                match spec_parse_name(buf, pos + 1 + l, depth) {
                    None => None,
                    Some((rest, end)) => Some(
                        (
                            if rest.len() == 0 {
                                label
                            } else {
                                label + seq![dot()] + rest
                            },
                            end,
                        ),
                    ),
                }
            }
        }
    }
}

/// A parsed name ends after where it began and within the buffer.
pub proof fn lemma_parse_name_bounds(buf: Seq<u8>, pos: int, depth: int)
    ensures
        match spec_parse_name(buf, pos, depth) {
            Some((_, end)) => pos < end <= buf.len(),
            None => true,
        },
    decreases 11 - depth, buf.len() - pos,
{
    if depth > max_pointer_depth() || !(0 <= pos < buf.len()) {
    } else {
        let b = buf[pos];
        if b & 0xc0 == 0xc0 {
        } else if b == 0 {
        } else {
            let l = b as int;
            if pos + 1 + l <= buf.len() {
                lemma_parse_name_bounds(buf, pos + 1 + l, depth);
            }
        }
    }
}

/// The meaning of the 12 header bytes, or `None` if the buffer is shorter
/// than a header. An unrecognized response code degrades to `FormatError`.
pub open spec fn spec_parse_header(buf: Seq<u8>) -> Option<DnsHeader> {
    if buf.len() < 12 {
        None
    } else {
        let w = spec_read_u16(buf, 2);
        Some(
            DnsHeader {
                id: spec_read_u16(buf, 0),
                qr: (w >> 15) & 1 == 1,
                opcode: ((w >> 11) & 0xf) as u8,
                authoritative_answer: (w >> 10) & 1 == 1,
                truncation: (w >> 9) & 1 == 1,
                recursion_desired: (w >> 8) & 1 == 1,
                recursion_available: (w >> 7) & 1 == 1,
                rcode: ResponseCode::spec_from_u8((w & 0xf) as u8),
                question_count: spec_read_u16(buf, 4),
                answer_count: spec_read_u16(buf, 6),
                authority_count: spec_read_u16(buf, 8),
                additional_count: spec_read_u16(buf, 10),
            },
        )
    }
}

/// The meaning of one question at `pos`: a name then two 16-bit fields.
/// Unrecognized type or class values degrade to `A` and `IN`.
pub open spec fn spec_parse_question(buf: Seq<u8>, pos: int) -> Option<(QuestionModel, int)> {
    match spec_parse_name(buf, pos, 0) {
        None => None,
        Some((name, p)) => if p + 4 <= buf.len() {
            Some(
                (
                    QuestionModel {
                        name,
                        q_type: QueryType::spec_from_u16(spec_read_u16(buf, p)),
                        q_class: QueryClass::spec_from_u16(spec_read_u16(buf, p + 2)),
                    },
                    p + 4,
                ),
            )
        } else {
            None
        },
    }
}

/// The meaning of one answer record at `pos`: a name, two 16-bit fields, a
/// 32-bit time-to-live, a 16-bit RDATA length, and exactly that many RDATA
/// bytes; fewer available bytes than the declared length is a parse
/// failure.
pub open spec fn spec_parse_record(buf: Seq<u8>, pos: int) -> Option<(RecordModel, int)> {
    match spec_parse_name(buf, pos, 0) {
        None => None,
        Some((name, p)) => if p + 10 <= buf.len() {
            let l = spec_read_u16(buf, p + 8) as int;
            if p + 10 + l <= buf.len() {
                Some(
                    (
                        RecordModel {
                            name,
                            q_type: QueryType::spec_from_u16(spec_read_u16(buf, p)),
                            q_class: QueryClass::spec_from_u16(spec_read_u16(buf, p + 2)),
                            ttl: spec_read_u32(buf, p + 4),
                            data: buf.subrange(p + 10, p + 10 + l),
                        },
                        p + 10 + l,
                    ),
                )
            } else {
                None
            }
        } else {
            None
        },
    }
}

/// `n` questions in sequence starting at `pos`.
pub open spec fn spec_parse_questions(buf: Seq<u8>, pos: int, n: int) -> Option<
    (Seq<QuestionModel>, int),
>
    decreases n,
{
    if n <= 0 {
        Some((Seq::empty(), pos))
    } else {
        match spec_parse_question(buf, pos) {
            None => None,
            Some((q, p)) => match spec_parse_questions(buf, p, n - 1) {
                None => None,
                Some((qs, end)) => Some((seq![q] + qs, end)),
            },
        }
    }
}

/// `n` answer records in sequence starting at `pos`.
pub open spec fn spec_parse_records(buf: Seq<u8>, pos: int, n: int) -> Option<
    (Seq<RecordModel>, int),
>
    decreases n,
{
    if n <= 0 {
        Some((Seq::empty(), pos))
    } else {
        match spec_parse_record(buf, pos) {
            None => None,
            Some((r, p)) => match spec_parse_records(buf, p, n - 1) {
                None => None,
                Some((rs, end)) => Some((seq![r] + rs, end)),
            },
        }
    }
}

/// The meaning of a whole datagram: a header, then exactly the declared
/// number of questions and answer records; a declared count that exceeds
/// the available data is a parse failure. Trailing bytes are ignored.
pub open spec fn spec_parse_message(buf: Seq<u8>) -> Option<MessageModel> {
    match spec_parse_header(buf) {
        None => None,
        Some(h) => match spec_parse_questions(buf, 12, h.question_count as int) {
            None => None,
            Some((qs, p)) => match spec_parse_records(buf, p, h.answer_count as int) {
                None => None,
                Some((rs, _)) => Some(MessageModel { header: h, questions: qs, answers: rs }),
            },
        },
    }
}

/// A region equality restated byte by byte: if `s` occupies
/// `[pos, pos + s.len())` of `buf`, each byte of the region is the
/// corresponding byte of `s`.
pub proof fn lemma_bytes_at(buf: Seq<u8>, pos: int, s: Seq<u8>)
    requires
        0 <= pos,
        pos + s.len() <= buf.len(),
        buf.subrange(pos, pos + s.len()) == s,
    ensures
        forall|i: int| pos <= i < pos + s.len() ==> #[trigger] buf[i] == s[i - pos],
{
    assert forall|i: int| pos <= i < pos + s.len() implies #[trigger] buf[i] == s[i - pos] by {
        assert(s[i - pos] == buf.subrange(pos, pos + s.len())[i - pos]);
    }
}

/// Reading back two bytes written in network byte order recovers the
/// value.
pub proof fn lemma_be16_read(buf: Seq<u8>, p: int, v: u16)
    requires
        0 <= p,
        p + 2 <= buf.len(),
        buf.subrange(p, p + 2) == spec_be16(v),
    ensures
        spec_read_u16(buf, p) == v,
{
    assert(buf[p] == spec_be16(v)[0]);
    assert(buf[p + 1] == spec_be16(v)[1]);
    let hi = ((v >> 8) & 0xff) as u8;
    let lo = (v & 0xff) as u8;
    assert(((hi as u16) << 8) | (lo as u16) == v) by (bit_vector)
        requires
            hi == ((v >> 8) & 0xff) as u8,
            lo == (v & 0xff) as u8,
    ;
}

/// Reading back four bytes written in network byte order recovers the
/// value.
pub proof fn lemma_be32_read(buf: Seq<u8>, p: int, v: u32)
    requires
        0 <= p,
        p + 4 <= buf.len(),
        buf.subrange(p, p + 4) == spec_be32(v),
    ensures
        spec_read_u32(buf, p) == v,
{
    assert(buf[p] == spec_be32(v)[0]);
    assert(buf[p + 1] == spec_be32(v)[1]);
    assert(buf[p + 2] == spec_be32(v)[2]);
    assert(buf[p + 3] == spec_be32(v)[3]);
    let b0 = ((v >> 24) & 0xff) as u8;
    let b1 = ((v >> 16) & 0xff) as u8;
    let b2 = ((v >> 8) & 0xff) as u8;
    let b3 = (v & 0xff) as u8;
    assert(((b0 as u32) << 24) | ((b1 as u32) << 16) | ((b2 as u32) << 8) | (b3 as u32) == v)
        by (bit_vector)
        requires
            b0 == ((v >> 24) & 0xff) as u8,
            b1 == ((v >> 16) & 0xff) as u8,
            b2 == ((v >> 8) & 0xff) as u8,
            b3 == (v & 0xff) as u8,
    ;
}

/// Each flag of a header occupies its own bit position in the packed flag
/// word, independent of all the others: unpacking the packed word yields
/// every field unchanged, whatever combination was set.
pub proof fn lemma_flags_word_unpack(h: DnsHeader)
    requires
        h.opcode < 16,
    ensures
        ((spec_flags_word(h) >> 15) & 1 == 1) == h.qr,
        ((spec_flags_word(h) >> 11) & 0xf) as u8 == h.opcode,
        ((spec_flags_word(h) >> 10) & 1 == 1) == h.authoritative_answer,
        ((spec_flags_word(h) >> 9) & 1 == 1) == h.truncation,
        ((spec_flags_word(h) >> 8) & 1 == 1) == h.recursion_desired,
        ((spec_flags_word(h) >> 7) & 1 == 1) == h.recursion_available,
        (spec_flags_word(h) & 0xf) as u8 == h.rcode.spec_code(),
{
    let q: u16 = if h.qr {
        0x8000
    } else {
        0
    };
    let o: u16 = h.opcode as u16;
    let a: u16 = if h.authoritative_answer {
        0x400
    } else {
        0
    };
    let t: u16 = if h.truncation {
        0x200
    } else {
        0
    };
    let rd: u16 = if h.recursion_desired {
        0x100
    } else {
        0
    };
    let ra: u16 = if h.recursion_available {
        0x80
    } else {
        0
    };
    let c: u16 = h.rcode.spec_code() as u16;
    let w: u16 = q | (o << 11) | a | t | rd | ra | c;
    assert(c < 16);
    assert(w == spec_flags_word(h));
    assert((((w >> 15) & 1 == 1) == (q == 0x8000)) && ((w >> 11) & 0xf) == o && (((w >> 10) & 1
        == 1) == (a == 0x400)) && (((w >> 9) & 1 == 1) == (t == 0x200)) && (((w >> 8) & 1 == 1) == (
    rd == 0x100)) && (((w >> 7) & 1 == 1) == (ra == 0x80)) && (w & 0xf) == c) by (bit_vector)
        requires
            w == q | (o << 11) | a | t | rd | ra | c,
            q == 0x8000 || q == 0,
            o < 16,
            a == 0x400 || a == 0,
            t == 0x200 || t == 0,
            rd == 0x100 || rd == 0,
            ra == 0x80 || ra == 0,
            c < 16,
    ;
}

/// Decoding maps each recognized response-code value back to its variant.
pub proof fn lemma_rcode_roundtrip(rc: ResponseCode)
    ensures
        ResponseCode::spec_from_u8(rc.spec_code()) == rc,
{
}

/// Decoding maps each recognized type value back to its variant.
pub proof fn lemma_qtype_roundtrip(t: QueryType)
    ensures
        QueryType::spec_from_u16(t.spec_code()) == t,
{
}

/// Decoding maps each recognized class value back to its variant.
pub proof fn lemma_qclass_roundtrip(c: QueryClass)
    ensures
        QueryClass::spec_from_u16(c.spec_code()) == c,
{
}

/// A header whose 12 encoded bytes open the buffer decodes to itself,
/// with the counts that the encoder wrote.
pub proof fn lemma_header_roundtrip(buf: Seq<u8>, h: DnsHeader, qd: u16, an: u16)
    requires
        h.opcode < 16,
        buf.len() >= 12,
        buf.subrange(0, 12) == spec_encode_header(h, qd, an),
    ensures
        spec_parse_header(buf) == Some(
            DnsHeader { question_count: qd, answer_count: an, ..h },
        ),
{
    let enc = spec_encode_header(h, qd, an);
    let w = spec_flags_word(h);
    assert(enc.len() == 12);
    lemma_bytes_at(buf, 0, enc);
    assert(buf.subrange(0, 2) =~= spec_be16(h.id));
    assert(buf.subrange(2, 4) =~= spec_be16(w));
    assert(buf.subrange(4, 6) =~= spec_be16(qd));
    assert(buf.subrange(6, 8) =~= spec_be16(an));
    assert(buf.subrange(8, 10) =~= spec_be16(h.authority_count));
    assert(buf.subrange(10, 12) =~= spec_be16(h.additional_count));
    lemma_be16_read(buf, 0, h.id);
    lemma_be16_read(buf, 2, w);
    lemma_be16_read(buf, 4, qd);
    lemma_be16_read(buf, 6, an);
    lemma_be16_read(buf, 8, h.authority_count);
    lemma_be16_read(buf, 10, h.additional_count);
    lemma_flags_word_unpack(h);
    lemma_rcode_roundtrip(h.rcode);
}

/// A name written without pointers reads back as itself wherever it
/// stands in a buffer, at any admissible hop budget.
#[verifier::rlimit(60)]
pub proof fn lemma_name_roundtrip(buf: Seq<u8>, pos: int, name: Seq<u8>, depth: int)
    requires
        valid_name(name),
        0 <= pos,
        0 <= depth <= max_pointer_depth(),
        pos + spec_encode_name(name).len() <= buf.len(),
        buf.subrange(pos, pos + spec_encode_name(name).len()) == spec_encode_name(name),
    ensures
        spec_parse_name(buf, pos, depth) == Some((name, pos + spec_encode_name(name).len())),
    decreases name.len(),
{
    let enc = spec_encode_name(name);
    assert(0u8 & 0xc0 != 0xc0) by (bit_vector);
    if name.len() == 0 {
        assert(buf[pos] == enc[0]);
        assert(name =~= Seq::<u8>::empty());
    } else {
        lemma_bytes_at(buf, pos, enc);
        lemma_first_dot(name);
        let d = first_dot(name) as int;
        let lb: u8 = d as u8;
        assert(lb & 0xc0 != 0xc0 && lb != 0) by (bit_vector)
            requires
                1 <= lb <= 63,
        ;
        if d < name.len() {
            let rest_name = name.skip(d + 1);
            let enc_rest = spec_encode_name(rest_name);
            // the remaining labels are valid and non-empty
            lemma_first_dot(rest_name);
            assert(valid_labels(rest_name));
            assert(rest_name.len() >= 1);
            assert(enc =~= seq![lb] + name.take(d) + enc_rest);
            assert(buf[pos] == enc[0]);
            assert(buf.subrange(pos + 1, pos + 1 + d) =~= name.take(d));
            assert(buf.subrange(pos + 1 + d, pos + 1 + d + enc_rest.len()) =~= enc_rest);
            lemma_name_roundtrip(buf, pos + 1 + d, rest_name, depth);
            assert(spec_parse_name(buf, pos + 1 + d, depth) == Some(
                (rest_name, pos + enc.len()),
            ));
            assert(name.take(d) + seq![dot()] + rest_name =~= name);
        } else {
            assert(enc =~= seq![lb] + name + seq![0u8]);
            assert(buf[pos] == enc[0]);
            assert(buf.subrange(pos + 1, pos + 1 + d) =~= name);
            assert(buf[pos + 1 + d] == enc[1 + d]);
            assert(buf[pos + 1 + d] == 0);
            assert(spec_parse_name(buf, pos + 1 + d, depth) == Some(
                (Seq::<u8>::empty(), pos + d + 2),
            ));
        }
    }
}

/// One encoded question reads back as itself.
pub proof fn lemma_question_roundtrip(buf: Seq<u8>, pos: int, q: QuestionModel)
    requires
        question_encodable(q),
        0 <= pos,
        pos + spec_encode_question(q).len() <= buf.len(),
        buf.subrange(pos, pos + spec_encode_question(q).len()) == spec_encode_question(q),
    ensures
        spec_parse_question(buf, pos) == Some((q, pos + spec_encode_question(q).len())),
{
    let en = spec_encode_name(q.name);
    let enc = spec_encode_question(q);
    lemma_bytes_at(buf, pos, enc);
    assert(buf.subrange(pos, pos + en.len()) =~= en);
    lemma_name_roundtrip(buf, pos, q.name, 0);
    let p = pos + en.len();
    assert(buf.subrange(p, p + 2) =~= spec_be16(q.q_type.spec_code()));
    assert(buf.subrange(p + 2, p + 4) =~= spec_be16(q.q_class.spec_code()));
    lemma_be16_read(buf, p, q.q_type.spec_code());
    lemma_be16_read(buf, p + 2, q.q_class.spec_code());
    lemma_qtype_roundtrip(q.q_type);
    lemma_qclass_roundtrip(q.q_class);
    assert(spec_parse_question(buf, pos) == Some((q, pos + enc.len())));
}

/// One encoded answer record reads back as itself.
#[verifier::rlimit(60)]
pub proof fn lemma_record_roundtrip(buf: Seq<u8>, pos: int, r: RecordModel)
    requires
        record_encodable(r),
        0 <= pos,
        pos + spec_encode_record(r).len() <= buf.len(),
        buf.subrange(pos, pos + spec_encode_record(r).len()) == spec_encode_record(r),
    ensures
        spec_parse_record(buf, pos) == Some((r, pos + spec_encode_record(r).len())),
{
    let en = spec_encode_name(r.name);
    let enc = spec_encode_record(r);
    lemma_bytes_at(buf, pos, enc);
    assert(buf.subrange(pos, pos + en.len()) =~= en);
    lemma_name_roundtrip(buf, pos, r.name, 0);
    let p = pos + en.len();
    assert(buf.subrange(p, p + 2) =~= spec_be16(r.q_type.spec_code()));
    assert(buf.subrange(p + 2, p + 4) =~= spec_be16(r.q_class.spec_code()));
    assert(buf.subrange(p + 4, p + 8) =~= spec_be32(r.ttl));
    assert(buf.subrange(p + 8, p + 10) =~= spec_be16(r.data.len() as u16));
    lemma_be16_read(buf, p, r.q_type.spec_code());
    lemma_be16_read(buf, p + 2, r.q_class.spec_code());
    lemma_be32_read(buf, p + 4, r.ttl);
    lemma_be16_read(buf, p + 8, r.data.len() as u16);
    lemma_qtype_roundtrip(r.q_type);
    lemma_qclass_roundtrip(r.q_class);
    assert(spec_read_u16(buf, p + 8) as int == r.data.len());
    assert(buf.subrange(p + 10, p + 10 + r.data.len() as int) =~= r.data);
    assert(spec_parse_record(buf, pos) == Some((r, pos + enc.len())));
}

/// Encoded questions in sequence read back as themselves.
pub proof fn lemma_questions_roundtrip(buf: Seq<u8>, pos: int, qs: Seq<QuestionModel>)
    requires
        forall|i: int| 0 <= i < qs.len() ==> question_encodable(#[trigger] qs[i]),
        0 <= pos,
        pos + spec_encode_questions(qs).len() <= buf.len(),
        buf.subrange(pos, pos + spec_encode_questions(qs).len()) == spec_encode_questions(qs),
    ensures
        spec_parse_questions(buf, pos, qs.len() as int) == Some(
            (qs, pos + spec_encode_questions(qs).len()),
        ),
    decreases qs.len(),
{
    if qs.len() == 0 {
        assert(qs =~= Seq::<QuestionModel>::empty());
    } else {
        let e0 = spec_encode_question(qs[0]);
        let rest = spec_encode_questions(qs.skip(1));
        assert(spec_encode_questions(qs) == e0 + rest);
        lemma_bytes_at(buf, pos, spec_encode_questions(qs));
        assert(buf.subrange(pos, pos + e0.len()) =~= e0);
        lemma_question_roundtrip(buf, pos, qs[0]);
        assert(buf.subrange(pos + e0.len(), pos + e0.len() + rest.len()) =~= rest);
        assert forall|i: int| 0 <= i < qs.skip(1).len() implies question_encodable(
            #[trigger] qs.skip(1)[i],
        ) by {
            assert(qs.skip(1)[i] == qs[i + 1]);
        }
        lemma_questions_roundtrip(buf, pos + e0.len(), qs.skip(1));
        assert(seq![qs[0]] + qs.skip(1) =~= qs);
    }
}

/// Encoded answer records in sequence read back as themselves.
#[verifier::rlimit(60)]
pub proof fn lemma_records_roundtrip(buf: Seq<u8>, pos: int, rs: Seq<RecordModel>)
    requires
        forall|i: int| 0 <= i < rs.len() ==> record_encodable(#[trigger] rs[i]),
        0 <= pos,
        pos + spec_encode_records(rs).len() <= buf.len(),
        buf.subrange(pos, pos + spec_encode_records(rs).len()) == spec_encode_records(rs),
    ensures
        spec_parse_records(buf, pos, rs.len() as int) == Some(
            (rs, pos + spec_encode_records(rs).len()),
        ),
    decreases rs.len(),
{
    if rs.len() == 0 {
        assert(rs =~= Seq::<RecordModel>::empty());
    } else {
        let e0 = spec_encode_record(rs[0]);
        let rest = spec_encode_records(rs.skip(1));
        assert(spec_encode_records(rs) == e0 + rest);
        lemma_bytes_at(buf, pos, spec_encode_records(rs));
        assert(buf.subrange(pos, pos + e0.len()) =~= e0);
        lemma_record_roundtrip(buf, pos, rs[0]);
        assert(buf.subrange(pos + e0.len(), pos + e0.len() + rest.len()) =~= rest);
        assert forall|i: int| 0 <= i < rs.skip(1).len() implies record_encodable(
            #[trigger] rs.skip(1)[i],
        ) by {
            assert(rs.skip(1)[i] == rs[i + 1]);
        }
        lemma_records_roundtrip(buf, pos + e0.len(), rs.skip(1));
        assert(seq![rs[0]] + rs.skip(1) =~= rs);
    }
}

/// The same message with its header's question and answer counts replaced
/// by the true section lengths.
pub open spec fn with_recomputed_counts(m: MessageModel) -> MessageModel {
    MessageModel {
        header: DnsHeader {
            question_count: m.questions.len() as u16,
            answer_count: m.answers.len() as u16,
            ..m.header
        },
        ..m
    }
}

/// The round-trip law: decoding the encoding of any structurally valid
/// message (whose names are well-formed and uncompressed, and whose
/// opcode fits its 4-bit field) yields the message itself, with the
/// header counts recomputed from the live sections.
pub proof fn lemma_round_trip(m: MessageModel)
    requires
        message_wf(m),
    ensures
        spec_parse_message(spec_encode_message(m)) == Some(with_recomputed_counts(m)),
{
    let qd = m.questions.len() as u16;
    let an = m.answers.len() as u16;
    let eh = spec_encode_header(m.header, qd, an);
    let eq = spec_encode_questions(m.questions);
    let er = spec_encode_records(m.answers);
    let buf = spec_encode_message(m);
    assert(buf == eh + eq + er);
    assert(eh.len() == 12);
    assert(buf.subrange(0, 12) =~= eh);
    lemma_header_roundtrip(buf, m.header, qd, an);
    let h = DnsHeader { question_count: qd, answer_count: an, ..m.header };
    assert(buf.subrange(12, 12 + eq.len() as int) =~= eq);
    lemma_questions_roundtrip(buf, 12, m.questions);
    assert(h.question_count as int == m.questions.len());
    assert(buf.subrange(12 + eq.len() as int, 12 + eq.len() as int + er.len() as int) =~= er);
    lemma_records_roundtrip(buf, 12 + eq.len() as int, m.answers);
    assert(h.answer_count as int == m.answers.len());
    assert(spec_parse_message(buf) == Some(with_recomputed_counts(m)));
}

/// The absolute offset that the two-byte pointer at `pos` refers to.
pub open spec fn pointer_target(buf: Seq<u8>, pos: int) -> int {
    ((buf[pos] & 0x3f) as int) * 256 + (buf[pos + 1] as int)
}

/// A name read through a compression pointer is the name read directly at
/// the pointer's target; only the two pointer bytes are consumed in
/// place.
pub proof fn lemma_pointer_reads_target(buf: Seq<u8>, pos: int, depth: int)
    requires
        0 <= depth <= max_pointer_depth(),
        0 <= pos,
        pos + 2 <= buf.len(),
        buf[pos] & 0xc0 == 0xc0,
        pointer_target(buf, pos) <= buf.len(),
    ensures
        spec_parse_name(buf, pos, depth) == match spec_parse_name(
            buf,
            pointer_target(buf, pos),
            depth + 1,
        ) {
            None => None::<(Seq<u8>, int)>,
            Some((name, _)) => Some((name, pos + 2)),
        },
{
}

/// A record whose declared RDATA length exceeds the bytes remaining
/// after its fixed fields cannot be parsed: the truncation is a parse
/// failure, never a read past the end.
pub proof fn lemma_truncated_record_fails(buf: Seq<u8>, pos: int)
    requires
        match spec_parse_name(buf, pos, 0) {
            Some((_, p)) => p + 10 <= buf.len() && p + 10 + spec_read_u16(buf, p + 8) as int
                > buf.len(),
            None => false,
        },
    ensures
        spec_parse_record(buf, pos) is None,
{
}

/// A pointer that refers to its own position can never be resolved: the
/// hop budget runs out and parsing the name fails, whatever the
/// remaining budget was.
pub proof fn lemma_pointer_cycle_fails(buf: Seq<u8>, pos: int, depth: int)
    requires
        0 <= pos,
        pos + 2 <= buf.len(),
        buf[pos] & 0xc0 == 0xc0,
        pointer_target(buf, pos) == pos,
        0 <= depth,
    ensures
        spec_parse_name(buf, pos, depth) is None,
    decreases 11 - depth,
{
    if depth <= max_pointer_depth() {
        lemma_pointer_cycle_fails(buf, pos, depth + 1);
    }
}

} // verus!
