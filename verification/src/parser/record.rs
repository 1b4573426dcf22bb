//! Answer-record decoding: a name, type, class, time-to-live, and a
//! length-prefixed RDATA payload.

use vstd::prelude::*;

use crate::error::Error;
use crate::parser::header::read_u16;
use crate::parser::header::read_u32;
use crate::parser::name::parse_name;
use crate::protocol::QueryClass;
use crate::protocol::QueryType;
use crate::protocol::ResourceRecord;
use crate::wire::spec_parse_record;

verus! {

/// Decodes one answer record at `pos`. The RDATA bytes are taken verbatim
/// and their number must equal the declared length; fewer available bytes
/// is a parse failure, never a read out of bounds. On success also returns
/// the position just past the record.
pub fn parse_record(buf: &[u8], pos: usize) -> (r: Result<(ResourceRecord, usize), Error>)
    ensures
        match r {
            Ok((rec, end)) => spec_parse_record(buf@, pos as int) == Some((rec@, end as int)) && pos
                < end <= buf@.len(),
            Err(e) => spec_parse_record(buf@, pos as int) is None && e == Error::ParseError,
        },
{
    let (name, p) = match parse_name(buf, pos) {
        Ok(v) => v,
        Err(e) => {
            return Err(e);
        },
    };
    if buf.len() - p < 10 {
        return Err(Error::ParseError);
    }
    let t = read_u16(buf, p);
    let c = read_u16(buf, p + 2);
    let ttl = read_u32(buf, p + 4);
    let l = read_u16(buf, p + 8) as usize;
    if buf.len() - (p + 10) < l {
        return Err(Error::ParseError);
    }
    let data = vstd::slice::slice_to_vec(vstd::slice::slice_subrange(buf, p + 10, p + 10 + l));
    let record = ResourceRecord {
        name,
        q_type: QueryType::from_u16(t),
        q_class: QueryClass::from_u16(c),
        ttl,
        data,
    };
    Ok((record, p + 10 + l))
}

} // verus!
