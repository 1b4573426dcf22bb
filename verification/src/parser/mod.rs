//! The wire parser: decodes one full datagram into a `DnsMessage`, or
//! fails with a parse error; it never panics and never reads out of
//! bounds, whatever the input bytes hold.

use vstd::prelude::*;

pub mod header;
pub mod name;
pub mod question;
pub mod record;

use crate::error::Error;
use crate::protocol::DnsMessage;
use crate::protocol::DnsQuestion;
use crate::protocol::MessageModel;
use crate::protocol::QuestionModel;
use crate::protocol::RecordModel;
use crate::protocol::ResourceRecord;
use crate::protocol::questions_view;
use crate::protocol::records_view;
use crate::wire::spec_parse_header;
use crate::wire::spec_parse_message;
use crate::wire::spec_parse_questions;
use crate::wire::spec_parse_records;

verus! {

/// Decodes one datagram: the header, then exactly the header's declared
/// number of questions and of answer records, in sequence. A declared
/// count that exceeds the available data is a parse failure; trailing
/// bytes are ignored. The result is exactly the message that
/// `wire::spec_parse_message` gives the buffer, and decoding fails exactly
/// when that meaning is undefined.
pub fn parse_message(input: &[u8]) -> (r: Result<DnsMessage, Error>)
    ensures
        match r {
            Ok(m) => spec_parse_message(input@) == Some(m@),
            Err(e) => spec_parse_message(input@) is None && e == Error::ParseError,
        },
{
    let (header, mut pos) = match header::parse_header(input) {
        Ok(v) => v,
        Err(e) => {
            return Err(e);
        },
    };
    let qd = header.question_count;
    let mut questions: Vec<DnsQuestion> = Vec::new();
    proof {
        assert(questions_view(questions@) + Seq::<QuestionModel>::empty() =~= questions_view(
            questions@,
        ));
    }
    let mut i: u16 = 0;
    while i < qd
        invariant
            i <= qd,
            pos <= input@.len(),
            spec_parse_header(input@) == Some(header),
            qd == header.question_count,
            ({
                let whole = spec_parse_questions(input@, 12, qd as int);
                let rest = spec_parse_questions(input@, pos as int, qd as int - i as int);
                whole == match rest {
                    None => None::<(Seq<QuestionModel>, int)>,
                    Some((qs, end)) => Some((questions_view(questions@) + qs, end)),
                }
            }),
        decreases qd - i,
    {
        let (q, p2) = match question::parse_question(input, pos) {
            Ok(v) => v,
            Err(_) => {
                return Err(Error::ParseError);
            },
        };
        let ghost prev = questions_view(questions@);
        questions.push(q);
        proof {
            assert(questions_view(questions@) =~= prev + seq![q@]);
            let tail = spec_parse_questions(input@, p2 as int, qd as int - (i + 1) as int);
            if tail is Some {
                let (qs, end) = tail->Some_0;
                assert((prev + (seq![q@] + qs)) =~= (prev + seq![q@]) + qs);
            }
        }
        pos = p2;
        i = i + 1;
    }
    proof {
        assert(questions_view(questions@) + Seq::<QuestionModel>::empty() =~= questions_view(
            questions@,
        ));
    }
    let an = header.answer_count;
    let mut answers: Vec<ResourceRecord> = Vec::new();
    let ghost qpos = pos as int;
    let mut k: u16 = 0;
    while k < an
        invariant
            k <= an,
            pos <= input@.len(),
            spec_parse_header(input@) == Some(header),
            qd == header.question_count,
            an == header.answer_count,
            spec_parse_questions(input@, 12, qd as int) == Some(
                (questions_view(questions@), qpos),
            ),
            ({
                let whole = spec_parse_records(input@, qpos, an as int);
                let rest = spec_parse_records(input@, pos as int, an as int - k as int);
                whole == match rest {
                    None => None::<(Seq<RecordModel>, int)>,
                    Some((rs, end)) => Some((records_view(answers@) + rs, end)),
                }
            }),
        decreases an - k,
    {
        let (rec, p2) = match record::parse_record(input, pos) {
            Ok(v) => v,
            Err(_) => {
                return Err(Error::ParseError);
            },
        };
        let ghost prev = records_view(answers@);
        answers.push(rec);
        proof {
            assert(records_view(answers@) =~= prev + seq![rec@]);
            let tail = spec_parse_records(input@, p2 as int, an as int - (k + 1) as int);
            if tail is Some {
                let (rs, end) = tail->Some_0;
                assert((prev + (seq![rec@] + rs)) =~= (prev + seq![rec@]) + rs);
            }
        }
        pos = p2;
        k = k + 1;
    }
    proof {
        assert(records_view(answers@) + Seq::<RecordModel>::empty() =~= records_view(answers@));
    }
    let message = DnsMessage { header, questions, answers };
    proof {
        assert(spec_parse_message(input@) == Some(message@));
    }
    Ok(message)
}

} // verus!
