//! Header decoding: the fixed 12 bytes at the start of every datagram.

use vstd::prelude::*;

use crate::error::Error;
use crate::protocol::DnsHeader;
use crate::protocol::ResponseCode;
use crate::wire::spec_parse_header;
use crate::wire::spec_read_u16;
use crate::wire::spec_read_u32;

verus! {

/// Reads the 16-bit value in network byte order at `p`.
pub fn read_u16(buf: &[u8], p: usize) -> (v: u16)
    requires
        p + 2 <= buf@.len(),
    ensures
        v == spec_read_u16(buf@, p as int),
{
    let n = buf.len();
    proof {
        assert(p + 2 <= n);
    }
    let hi = *vstd::slice::slice_index_get(buf, p);
    let lo = *vstd::slice::slice_index_get(buf, p + 1);
    ((hi as u16) << 8) | (lo as u16)
}

/// Reads the 32-bit value in network byte order at `p`.
pub fn read_u32(buf: &[u8], p: usize) -> (v: u32)
    requires
        p + 4 <= buf@.len(),
    ensures
        v == spec_read_u32(buf@, p as int),
{
    let n = buf.len();
    proof {
        assert(p + 4 <= n);
    }
    let b0 = *vstd::slice::slice_index_get(buf, p);
    let b1 = *vstd::slice::slice_index_get(buf, p + 1);
    let b2 = *vstd::slice::slice_index_get(buf, p + 2);
    let b3 = *vstd::slice::slice_index_get(buf, p + 3);
    ((b0 as u32) << 24) | ((b1 as u32) << 16) | ((b2 as u32) << 8) | (b3 as u32)
}

/// Unpacks the 16-bit flag word: qr, opcode, authoritative answer,
/// truncation, recursion desired, recursion available, response code. An
/// unrecognized response code degrades to `FormatError`.
fn parse_flags(w: u16) -> (r: (bool, u8, bool, bool, bool, bool, ResponseCode))
    ensures
        r.0 == ((w >> 15) & 1 == 1),
        r.1 == ((w >> 11) & 0xf) as u8,
        r.2 == ((w >> 10) & 1 == 1),
        r.3 == ((w >> 9) & 1 == 1),
        r.4 == ((w >> 8) & 1 == 1),
        r.5 == ((w >> 7) & 1 == 1),
        r.6 == ResponseCode::spec_from_u8((w & 0xf) as u8),
{
    let qr = (w >> 15) & 1 == 1;
    let opcode = ((w >> 11) & 0xf) as u8;
    let aa = (w >> 10) & 1 == 1;
    let tc = (w >> 9) & 1 == 1;
    let rd = (w >> 8) & 1 == 1;
    let ra = (w >> 7) & 1 == 1;
    let rcode = ResponseCode::from_u8((w & 0xf) as u8);
    (qr, opcode, aa, tc, rd, ra, rcode)
}

/// Decodes the header: id, flag word, and the four section counts; a
/// buffer shorter than 12 bytes is a parse failure. On success also
/// returns the position just past the header.
pub fn parse_header(input: &[u8]) -> (r: Result<(DnsHeader, usize), Error>)
    ensures
        match r {
            Ok((h, end)) => spec_parse_header(input@) == Some(h) && end == 12,
            Err(e) => spec_parse_header(input@) is None && e == Error::ParseError,
        },
{
    if input.len() < 12 {
        return Err(Error::ParseError);
    }
    let id = read_u16(input, 0);
    let w = read_u16(input, 2);
    let (qr, opcode, aa, tc, rd, ra, rcode) = parse_flags(w);
    let qd = read_u16(input, 4);
    let an = read_u16(input, 6);
    let ns = read_u16(input, 8);
    let ar = read_u16(input, 10);
    Ok(
        (
            DnsHeader {
                id,
                qr,
                opcode,
                authoritative_answer: aa,
                truncation: tc,
                recursion_desired: rd,
                recursion_available: ra,
                rcode,
                question_count: qd,
                answer_count: an,
                authority_count: ns,
                additional_count: ar,
            },
            12,
        ),
    )
}

} // verus!
