//! Query-handling strategies. The staged strategy synthesizes a response
//! with no outside help and is fully implemented here; the forwarding
//! strategy's pure decision logic lives in `forwarder`, while its socket
//! work stays outside this crate.

use vstd::prelude::*;

pub mod forwarder;

use crate::error::Error;
use crate::protocol::DnsHeader;
use crate::protocol::DnsMessage;
use crate::protocol::MessageModel;
use crate::protocol::QueryClass;
use crate::protocol::QueryType;
use crate::protocol::RecordModel;
use crate::protocol::ResourceRecord;
use crate::protocol::ResponseCode;
use crate::protocol::records_view;

verus! {

/// The response either strategy gives a query whose opcode is not the
/// standard-query opcode: the response flag set, recursion-available
/// cleared, the question list kept, an empty answer list, and response
/// code NotImplemented.
pub open spec fn spec_not_implemented_response(q: MessageModel) -> MessageModel {
    MessageModel {
        header: DnsHeader {
            qr: true,
            recursion_available: false,
            rcode: ResponseCode::NotImplemented,
            ..q.header
        },
        questions: q.questions,
        answers: Seq::empty(),
    }
}

/// The fixed synthetic answer the staged strategy appends per question: an
/// A record with a 60-second time-to-live and a fixed IPv4 payload.
pub open spec fn spec_synthetic_answer(name: Seq<u8>) -> RecordModel {
    RecordModel {
        name,
        q_type: QueryType::A,
        q_class: QueryClass::IN,
        ttl: 60,
        data: seq![8u8, 8u8, 8u8, 8u8],
    }
}

/// The staged strategy's whole behavior: for a standard query, the header
/// with the response flag set and recursion-available cleared, the
/// question list kept, and one synthetic answer per question; for any
/// other opcode, the not-implemented response.
pub open spec fn spec_staged_response(q: MessageModel) -> MessageModel {
    if q.header.opcode != 0 {
        spec_not_implemented_response(q)
    } else {
        MessageModel {
            header: DnsHeader { qr: true, recursion_available: false, ..q.header },
            questions: q.questions,
            answers: Seq::new(
                q.questions.len(),
                |i: int| spec_synthetic_answer(q.questions[i].name),
            ),
        }
    }
}

/// The strategy that answers from nothing: it copies the header and
/// question list, sets the response flag, clears recursion-available, and
/// appends one fixed synthetic A record per question; a non-standard
/// opcode gets the not-implemented response instead. It never fails and
/// never blocks.
pub struct StagedResponseHandler;

impl StagedResponseHandler {
    pub fn handle_query(&self, query: &DnsMessage) -> (r: Result<DnsMessage, Error>)
        ensures
            r matches Ok(resp) && resp@ == spec_staged_response(query@),
    {
        let mut response = query.clone();
        response.header.qr = true;
        response.header.recursion_available = false;
        response.answers = Vec::new();
        if query.header.opcode != 0 {
            response.header.rcode = ResponseCode::NotImplemented;
            proof {
                assert(response@ =~= spec_staged_response(query@));
            }
            return Ok(response);
        }
        let ghost target = spec_staged_response(query@);
        let mut i: usize = 0;
        while i < query.questions.len()
            invariant
                i <= query.questions@.len(),
                query.header.opcode == 0,
                response.header == (DnsHeader {
                    qr: true,
                    recursion_available: false,
                    ..query@.header
                }),
                crate::protocol::questions_view(response.questions@) == query@.questions,
                response.answers@.len() == i as int,
                forall|j: int|
                    0 <= j < i ==> records_view(response.answers@)[j] == spec_synthetic_answer(
                        query@.questions[j].name,
                    ),
            decreases query.questions@.len() - i,
        {
            let name = vstd::slice::slice_to_vec(query.questions[i].name.as_slice());
            let mut data: Vec<u8> = Vec::new();
            data.push(8);
            data.push(8);
            data.push(8);
            data.push(8);
            let answer = ResourceRecord {
                name,
                q_type: QueryType::A,
                q_class: QueryClass::IN,
                ttl: 60,
                data,
            };
            proof {
                assert(answer@.data =~= seq![8u8, 8u8, 8u8, 8u8]);
                assert(answer@ == spec_synthetic_answer(query@.questions[i as int].name));
            }
            let ghost prev_answers = response.answers@;
            response.answers.push(answer);
            proof {
                assert forall|j: int|
                    0 <= j < i + 1 implies records_view(response.answers@)[j]
                    == spec_synthetic_answer(query@.questions[j].name) by {
                    assert(records_view(response.answers@)[j] == response.answers@[j]@);
                    if j < i as int {
                        assert(response.answers@[j] == prev_answers[j]);
                        assert(records_view(prev_answers)[j] == prev_answers[j]@);
                    } else {
                        assert(response.answers@[j] == answer);
                    }
                }
            }
            i = i + 1;
        }
        proof {
            assert(records_view(response.answers@) =~= target.answers);
            assert(response@ =~= target);
        }
        Ok(response)
    }
}

} // verus!
