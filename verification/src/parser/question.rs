//! Question decoding: a name followed by the 16-bit type and class.

use vstd::prelude::*;

use crate::error::Error;
use crate::parser::header::read_u16;
use crate::parser::name::parse_name;
use crate::protocol::DnsQuestion;
use crate::protocol::QueryClass;
use crate::protocol::QueryType;
use crate::wire::spec_parse_question;

verus! {

/// Decodes one question at `pos`. Unrecognized type or class values
/// degrade to `A` and `IN`; the message is never rejected for them. On
/// success also returns the position just past the question.
pub fn parse_question(buf: &[u8], pos: usize) -> (r: Result<(DnsQuestion, usize), Error>)
    ensures
        match r {
            Ok((q, end)) => spec_parse_question(buf@, pos as int) == Some((q@, end as int)) && pos
                < end <= buf@.len(),
            Err(e) => spec_parse_question(buf@, pos as int) is None && e == Error::ParseError,
        },
{
    let (name, p) = match parse_name(buf, pos) {
        Ok(v) => v,
        Err(e) => {
            return Err(e);
        },
    };
    if buf.len() - p < 4 {
        return Err(Error::ParseError);
    }
    let t = read_u16(buf, p);
    let c = read_u16(buf, p + 2);
    let question = DnsQuestion {
        name,
        q_type: QueryType::from_u16(t),
        q_class: QueryClass::from_u16(c),
    };
    Ok((question, p + 4))
}

} // verus!
