//! The forwarding strategy's decision logic: how a multi-question query
//! is split into single-question sub-queries for the upstream resolver,
//! and how the replies' answers are gathered into the final response. The
//! sockets that carry the sub-queries live outside this crate; they hand
//! these functions plain messages and take plain messages back.

use vstd::prelude::*;

use crate::protocol::DnsHeader;
use crate::protocol::DnsMessage;
use crate::protocol::MessageModel;
use crate::protocol::questions_view;
use crate::protocol::records_view;

verus! {

/// The skeleton of the forwarding strategy's final response: the query
/// with the response flag set, recursion-available set, and the answer
/// list cleared, ready to collect the upstream answers.
pub open spec fn spec_forward_base(q: MessageModel) -> MessageModel {
    MessageModel {
        header: DnsHeader { qr: true, recursion_available: true, ..q.header },
        questions: q.questions,
        answers: Seq::empty(),
    }
}

/// The sub-query sent upstream for question `i`: the whole query — same
/// transaction id and flags — with the question list narrowed to that one
/// question.
pub open spec fn spec_sub_query(q: MessageModel, i: int) -> MessageModel {
    MessageModel { header: q.header, questions: seq![q.questions[i]], answers: q.answers }
}

/// The forwarding strategy's answer to a non-standard opcode: the same
/// not-implemented response the staged strategy gives.
pub fn not_implemented_response(query: &DnsMessage) -> (r: DnsMessage)
    ensures
        r@ == crate::handlers::spec_not_implemented_response(query@),
{
    let mut response = query.clone();
    response.header.qr = true;
    response.header.recursion_available = false;
    response.header.rcode = crate::protocol::ResponseCode::NotImplemented;
    response.answers = Vec::new();
    proof {
        assert(response@ =~= crate::handlers::spec_not_implemented_response(query@));
    }
    response
}

/// Builds the final response's skeleton for a standard query.
pub fn forward_base(query: &DnsMessage) -> (r: DnsMessage)
    ensures
        r@ == spec_forward_base(query@),
{
    let mut response = query.clone();
    response.header.qr = true;
    response.header.recursion_available = true;
    response.answers = Vec::new();
    proof {
        assert(response@ =~= spec_forward_base(query@));
    }
    response
}

/// Builds the sub-query for question `i`: one question, the original
/// transaction id and flags preserved.
pub fn sub_query(query: &DnsMessage, i: usize) -> (r: DnsMessage)
    requires
        i < query@.questions.len(),
    ensures
        r@ == spec_sub_query(query@, i as int),
{
    let mut single = query.clone();
    let mut questions: Vec<crate::protocol::DnsQuestion> = Vec::new();
    questions.push(query.questions[i].clone());
    single.questions = questions;
    proof {
        assert(questions_view(single.questions@) =~= seq![query@.questions[i as int]]);
        assert(single@ =~= spec_sub_query(query@, i as int));
    }
    single
}

/// Appends one upstream reply's answer records, in order, to the response
/// being assembled; the header and question list stay as they were.
pub fn append_answers(response: &mut DnsMessage, reply: DnsMessage)
    ensures
        final(response)@.header == old(response)@.header,
        final(response)@.questions == old(response)@.questions,
        final(response)@.answers == old(response)@.answers + reply@.answers,
{
    let mut reply_answers = reply.answers;
    let ghost added = records_view(reply_answers@);
    response.answers.append(&mut reply_answers);
    proof {
        assert(records_view(response.answers@) =~= records_view(old(response).answers@) + added);
    }
}

} // verus!
