//! The wire encoder: serializes a `DnsMessage` into the exact byte
//! sequence that `wire::spec_encode_message` describes. The header's
//! question and answer counts are recomputed from the live sections, and
//! every name is written fully expanded, never as a compression pointer.

use vstd::prelude::*;

use crate::protocol::DnsHeader;
use crate::protocol::DnsMessage;
use crate::protocol::DnsQuestion;
use crate::protocol::ResourceRecord;
use crate::wire::dot;
use crate::wire::first_dot;
use crate::wire::lemma_first_dot_is;
use crate::wire::lemma_skip_skip;
use crate::wire::message_encodable;
use crate::wire::question_encodable;
use crate::wire::record_encodable;
use crate::wire::spec_be16;
use crate::wire::spec_be32;
use crate::wire::spec_encode_header;
use crate::wire::spec_encode_labels;
use crate::wire::spec_encode_message;
use crate::wire::spec_encode_name;
use crate::wire::spec_encode_question;
use crate::wire::spec_encode_questions;
use crate::wire::spec_encode_record;
use crate::wire::spec_encode_records;
use crate::wire::spec_flags_word;
use crate::wire::valid_labels;
use crate::wire::valid_name;

verus! {

fn push_u16(out: &mut Vec<u8>, v: u16)
    ensures
        final(out)@ == old(out)@ + spec_be16(v),
{
    out.push(((v >> 8) & 0xff) as u8);
    out.push((v & 0xff) as u8);
    proof {
        assert(out@ =~= old(out)@ + spec_be16(v));
    }
}

fn push_u32(out: &mut Vec<u8>, v: u32)
    ensures
        final(out)@ == old(out)@ + spec_be32(v),
{
    out.push(((v >> 24) & 0xff) as u8);
    out.push(((v >> 16) & 0xff) as u8);
    out.push(((v >> 8) & 0xff) as u8);
    out.push((v & 0xff) as u8);
    proof {
        assert(out@ =~= old(out)@ + spec_be32(v));
    }
}

/// The index of the first dot at or after `start`, or the name's length if
/// there is none.
fn find_dot(name: &[u8], start: usize) -> (d: usize)
    requires
        start <= name@.len(),
    ensures
        start <= d <= name@.len(),
        d - start == first_dot(name@.skip(start as int)),
        d < name@.len() ==> name@[d as int] == dot(),
{
    let mut i: usize = start;
    while i < name.len() && *vstd::slice::slice_index_get(name, i) != 46
        invariant
            start <= i <= name@.len(),
            forall|k: int| start <= k < i ==> name@[k] != dot(),
        decreases name@.len() - i,
    {
        i = i + 1;
    }
    proof {
        let suffix = name@.skip(start as int);
        assert forall|k: int| 0 <= k < i - start implies suffix[k] != dot() by {
            assert(suffix[k] == name@[k + start]);
        }
        if i < name@.len() {
            assert(suffix[i - start] == name@[i as int]);
        }
        lemma_first_dot_is(suffix, i - start);
    }
    i
}

/// Writes a name as length-prefixed labels with a zero terminator; the
/// root name is the terminator alone.
fn encode_name(out: &mut Vec<u8>, name: &[u8])
    requires
        valid_name(name@),
    ensures
        final(out)@ == old(out)@ + spec_encode_name(name@),
{
    let ghost base = out@;
    let ghost full = name@;
    if name.len() == 0 {
        out.push(0);
        proof {
            assert(out@ =~= base + spec_encode_name(full));
        }
        return ;
    }
    proof {
        assert(full.skip(0) =~= full);
    }
    let mut start: usize = 0;
    let mut done: bool = false;
    while !done
        invariant
            name@ == full,
            full.len() > 0,
            start <= full.len(),
            !done ==> valid_labels(full.skip(start as int)),
            !done ==> start < full.len(),
            !done ==> out@ + spec_encode_labels(full.skip(start as int)) == base
                + spec_encode_labels(full),
            done ==> out@ == base + spec_encode_labels(full),
        decreases full.len() - start + (if done { 0int } else { 1int }),
    {
        let ghost suffix = full.skip(start as int);
        let d = find_dot(name, start);
        proof {
            // the label at hand is suffix.take(first_dot(suffix))
            assert(1 <= d - start <= 63);
        }
        let ghost before = out@;
        out.push((d - start) as u8);
        proof {
            assert(out@ =~= before + seq![(d - start) as u8] + full.subrange(
                start as int,
                start as int,
            ));
        }
        let mut j = start;
        while j < d
            invariant
                start <= j <= d,
                d <= name@.len(),
                name@ == full,
                out@ == before + seq![(d - start) as u8] + full.subrange(start as int, j as int),
            decreases d - j,
        {
            let b = *vstd::slice::slice_index_get(name, j);
            out.push(b);
            proof {
                assert(out@ =~= before + seq![(d - start) as u8] + full.subrange(
                    start as int,
                    j + 1,
                ));
            }
            j = j + 1;
        }
        proof {
            assert(suffix.take(d - start) =~= full.subrange(start as int, d as int));
        }
        if d < name.len() {
            proof {
                lemma_skip_skip(full, start as int, d - start + 1);
                assert(spec_encode_labels(suffix) == seq![(d - start) as u8] + suffix.take(
                    d - start,
                ) + spec_encode_labels(full.skip(d + 1)));
                assert(out@ + spec_encode_labels(full.skip(d + 1)) =~= before
                    + spec_encode_labels(suffix));
                assert(out@ + spec_encode_labels(full.skip(d + 1)) == base + spec_encode_labels(
                    full,
                ));
                // the remaining suffix is non-empty: its first label is
                crate::wire::lemma_first_dot(full.skip(d + 1));
                assert(valid_labels(full.skip(d + 1)));
                assert(d + 1 < full.len());
            }
            start = d + 1;
        } else {
            proof {
                assert(suffix.take(d - start) =~= suffix);
                assert(spec_encode_labels(suffix) == seq![(d - start) as u8] + suffix);
                assert(out@ =~= before + spec_encode_labels(suffix));
            }
            done = true;
        }
    }
    out.push(0);
    proof {
        assert(out@ =~= base + spec_encode_name(full));
    }
}

/// Decides whether a name can be written faithfully: empty, or labels of
/// 1 to 63 bytes separated by single dots.
pub fn name_is_valid(name: &[u8]) -> (b: bool)
    ensures
        b == valid_name(name@),
{
    let ghost full = name@;
    if name.len() == 0 {
        return true;
    }
    proof {
        assert(full.skip(0) =~= full);
    }
    let mut start: usize = 0;
    let mut result: bool = false;
    let mut done: bool = false;
    while !done
        invariant
            name@ == full,
            full.len() > 0,
            start <= full.len(),
            !done ==> valid_labels(full) == valid_labels(full.skip(start as int)),
            done ==> result == valid_name(full),
        decreases full.len() - start + (if done { 0int } else { 1int }),
    {
        let d = find_dot(name, start);
        let l = d - start;
        if l < 1 || l > 63 {
            proof {
                assert(!valid_labels(full.skip(start as int)));
            }
            result = false;
            done = true;
        } else if d == name.len() {
            proof {
                assert(valid_labels(full.skip(start as int)));
            }
            result = true;
            done = true;
        } else {
            proof {
                lemma_skip_skip(full, start as int, l + 1);
                assert(valid_labels(full.skip(start as int)) == valid_labels(full.skip(d + 1)));
            }
            start = d + 1;
        }
    }
    result
}

/// Decides whether a whole message is structurally valid for encoding:
/// section lengths that fit the 16-bit header counts, well-formed names,
/// and RDATA payloads that fit the 16-bit length field.
pub fn message_is_encodable(message: &DnsMessage) -> (b: bool)
    ensures
        b == message_encodable(message@),
{
    if message.questions.len() > 0xffff || message.answers.len() > 0xffff {
        return false;
    }
    let mut i: usize = 0;
    while i < message.questions.len()
        invariant
            i <= message.questions@.len(),
            forall|j: int|
                0 <= j < i ==> question_encodable(#[trigger] message@.questions[j]),
        decreases message.questions@.len() - i,
    {
        if !name_is_valid(message.questions[i].name.as_slice()) {
            proof {
                assert(!question_encodable(message@.questions[i as int]));
            }
            return false;
        }
        i = i + 1;
    }
    let mut k: usize = 0;
    while k < message.answers.len()
        invariant
            k <= message.answers@.len(),
            forall|j: int| 0 <= j < k ==> record_encodable(#[trigger] message@.answers[j]),
        decreases message.answers@.len() - k,
    {
        let ok_name = name_is_valid(message.answers[k].name.as_slice());
        if !ok_name || message.answers[k].data.len() > 0xffff {
            proof {
                assert(!record_encodable(message@.answers[k as int]));
            }
            return false;
        }
        k = k + 1;
    }
    true
}

fn encode_header(out: &mut Vec<u8>, header: &DnsHeader, qd_count: u16, an_count: u16)
    ensures
        final(out)@ == old(out)@ + spec_encode_header(*header, qd_count, an_count),
{
    let ghost base = out@;
    push_u16(out, header.id);
    let flags: u16 = (if header.qr {
        0x8000u16
    } else {
        0u16
    }) | ((header.opcode as u16) << 11) | (if header.authoritative_answer {
        0x400u16
    } else {
        0u16
    }) | (if header.truncation {
        0x200u16
    } else {
        0u16
    }) | (if header.recursion_desired {
        0x100u16
    } else {
        0u16
    }) | (if header.recursion_available {
        0x80u16
    } else {
        0u16
    }) | (header.rcode.code() as u16);
    proof {
        assert(flags == spec_flags_word(*header));
    }
    push_u16(out, flags);
    push_u16(out, qd_count);
    push_u16(out, an_count);
    push_u16(out, header.authority_count);
    push_u16(out, header.additional_count);
    proof {
        assert(out@ =~= base + spec_encode_header(*header, qd_count, an_count));
    }
}

fn encode_question(out: &mut Vec<u8>, question: &DnsQuestion)
    requires
        question_encodable(question@),
    ensures
        final(out)@ == old(out)@ + spec_encode_question(question@),
{
    let ghost base = out@;
    encode_name(out, question.name.as_slice());
    push_u16(out, question.q_type.code());
    push_u16(out, question.q_class.code());
    proof {
        assert(out@ =~= base + spec_encode_question(question@));
    }
}

fn encode_record(out: &mut Vec<u8>, record: &ResourceRecord)
    requires
        record_encodable(record@),
    ensures
        final(out)@ == old(out)@ + spec_encode_record(record@),
{
    let ghost base = out@;
    encode_name(out, record.name.as_slice());
    push_u16(out, record.q_type.code());
    push_u16(out, record.q_class.code());
    push_u32(out, record.ttl);
    push_u16(out, record.data.len() as u16);
    let ghost before = out@;
    let mut j: usize = 0;
    while j < record.data.len()
        invariant
            j <= record.data@.len(),
            out@ == before + record.data@.subrange(0, j as int),
        decreases record.data@.len() - j,
    {
        out.push(record.data[j]);
        proof {
            assert(out@ =~= before + record.data@.subrange(0, j + 1));
        }
        j = j + 1;
    }
    proof {
        assert(record.data@.subrange(0, record.data@.len() as int) =~= record.data@);
        assert(out@ =~= base + spec_encode_record(record@));
    }
}

/// Serializes a structurally valid message: the 12-byte header with counts
/// recomputed from the live sections, then each question, then each
/// answer record, in order, with no padding.
pub fn encode_message(message: &DnsMessage) -> (r: Vec<u8>)
    requires
        message_encodable(message@),
    ensures
        r@ == spec_encode_message(message@),
{
    let ghost qmodels = message@.questions;
    let ghost rmodels = message@.answers;
    let mut buffer: Vec<u8> = Vec::new();
    proof {
        assert(qmodels.len() == message.questions@.len());
        assert(rmodels.len() == message.answers@.len());
    }
    let qd = message.questions.len() as u16;
    let an = message.answers.len() as u16;
    encode_header(&mut buffer, &message.header, qd, an);
    let ghost base = buffer@;
    proof {
        assert(qmodels.skip(0) =~= qmodels);
    }
    let mut i: usize = 0;
    while i < message.questions.len()
        invariant
            i <= message.questions@.len(),
            qmodels == message@.questions,
            rmodels == message@.answers,
            message_encodable(message@),
            base == spec_encode_header(message@.header, qd, an),
            qd == message@.questions.len() as u16,
            an == message@.answers.len() as u16,
            buffer@ + spec_encode_questions(qmodels.skip(i as int)) == base
                + spec_encode_questions(qmodels),
        decreases message.questions@.len() - i,
    {
        let question = &message.questions[i];
        proof {
            assert(question@ == qmodels[i as int]);
            assert(question_encodable(qmodels[i as int]));
        }
        let ghost prev = buffer@;
        encode_question(&mut buffer, question);
        proof {
            let rest = qmodels.skip(i as int);
            assert(rest[0] == qmodels[i as int]);
            lemma_skip_skip(qmodels, i as int, 1);
            assert(spec_encode_questions(rest) == spec_encode_question(qmodels[i as int])
                + spec_encode_questions(qmodels.skip(i + 1)));
            assert(buffer@ + spec_encode_questions(qmodels.skip(i + 1)) =~= prev
                + spec_encode_questions(rest));
        }
        i = i + 1;
    }
    proof {
        assert(spec_encode_questions(qmodels.skip(qmodels.len() as int)) =~= Seq::<u8>::empty());
        assert(buffer@ + Seq::<u8>::empty() =~= buffer@);
    }
    let ghost mid = buffer@;
    proof {
        assert(rmodels.skip(0) =~= rmodels);
    }
    let mut k: usize = 0;
    while k < message.answers.len()
        invariant
            k <= message.answers@.len(),
            qmodels == message@.questions,
            rmodels == message@.answers,
            message_encodable(message@),
            mid == spec_encode_header(message@.header, qd, an) + spec_encode_questions(qmodels),
            qd == message@.questions.len() as u16,
            an == message@.answers.len() as u16,
            buffer@ + spec_encode_records(rmodels.skip(k as int)) == mid + spec_encode_records(
                rmodels,
            ),
        decreases message.answers@.len() - k,
    {
        let answer = &message.answers[k];
        proof {
            assert(answer@ == rmodels[k as int]);
            assert(record_encodable(rmodels[k as int]));
        }
        let ghost prev = buffer@;
        encode_record(&mut buffer, answer);
        proof {
            let rest = rmodels.skip(k as int);
            assert(rest[0] == rmodels[k as int]);
            lemma_skip_skip(rmodels, k as int, 1);
            assert(spec_encode_records(rest) == spec_encode_record(rmodels[k as int])
                + spec_encode_records(rmodels.skip(k + 1)));
            assert(buffer@ + spec_encode_records(rmodels.skip(k + 1)) =~= prev
                + spec_encode_records(rest));
        }
        k = k + 1;
    }
    proof {
        assert(spec_encode_records(rmodels.skip(rmodels.len() as int)) =~= Seq::<u8>::empty());
        assert(buffer@ + Seq::<u8>::empty() =~= buffer@);
        assert(buffer@ =~= spec_encode_message(message@));
    }
    buffer
}

} // verus!
