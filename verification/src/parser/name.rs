//! Name decompression: reads a domain name from the datagram, following
//! label-pointer compression through the whole buffer, with a bounded
//! number of pointer hops.

use vstd::prelude::*;

use crate::error::Error;
use crate::wire::lemma_parse_name_bounds;
use crate::wire::spec_parse_name;

verus! {

/// Reads the name starting at `pos`, with `depth` pointer hops already
/// taken. A label is a length byte `1..=63` (lengths up to 191 are read
/// the same way) followed by that many bytes; a zero byte ends the name;
/// a byte with both top bits set starts a two-byte pointer whose low 14
/// bits give an absolute offset into the buffer where the name continues.
/// The enclosing cursor advances only past the pointer's two bytes.
fn parse_name_at(buf: &[u8], pos: usize, depth: u8) -> (r: Option<(Vec<u8>, usize)>)
    ensures
        match r {
            Some((name, end)) => spec_parse_name(buf@, pos as int, depth as int) == Some(
                (name@, end as int),
            ) && pos < end <= buf@.len(),
            None => spec_parse_name(buf@, pos as int, depth as int) is None,
        },
    decreases 11 - depth as int, buf@.len() - pos as int,
{
    proof {
        lemma_parse_name_bounds(buf@, pos as int, depth as int);
    }
    if depth > 10 {
        return None;
    }
    if pos >= buf.len() {
        return None;
    }
    let b = *vstd::slice::slice_index_get(buf, pos);
    if b & 0xc0 == 0xc0 {
        if buf.len() - pos < 2 {
            return None;
        }
        let b2 = *vstd::slice::slice_index_get(buf, pos + 1);
        let off = ((b & 0x3f) as usize) * 256 + (b2 as usize);
        if off > buf.len() {
            return None;
        }
        match parse_name_at(buf, off, depth + 1) {
            None => None,
            Some((name, _)) => Some((name, pos + 2)),
        }
    } else if b == 0 {
        Some((Vec::new(), pos + 1))
    } else {
        let l = b as usize;
        if buf.len() - (pos + 1) < l {
            return None;
        }
        let n = buf.len();
        let mut label: Vec<u8> = Vec::new();
        let mut j: usize = 0;
        while j < l
            invariant
                j <= l,
                n == buf@.len(),
                pos + 1 + l <= buf@.len(),
                label@ == buf@.subrange(pos + 1, pos + 1 + j),
            decreases l - j,
        {
            label.push(*vstd::slice::slice_index_get(buf, pos + 1 + j));
            proof {
                assert(label@ =~= buf@.subrange(pos + 1, pos + 1 + (j + 1)));
            }
            j = j + 1;
        }
        match parse_name_at(buf, pos + 1 + l, depth) {
            None => None,
            Some((rest, end)) => {
                if rest.len() == 0 {
                    Some((label, end))
                } else {
                    let mut rest = rest;
                    let ghost rest0 = rest@;
                    label.push(46);
                    label.append(&mut rest);
                    proof {
                        let spec_label = buf@.subrange(pos + 1, pos + 1 + l as int);
                        assert(label@ =~= spec_label + seq![crate::wire::dot()] + rest0);
                    }
                    Some((label, end))
                }
            },
        }
    }
}

/// Reads the domain name starting at `pos` of the datagram `buf`. Fails on
/// a truncated name, an out-of-range pointer, or a pointer chain of more
/// than ten hops; on success also returns the position just past the
/// name's in-line portion.
pub fn parse_name(buf: &[u8], pos: usize) -> (r: Result<(Vec<u8>, usize), Error>)
    ensures
        match r {
            Ok((name, end)) => spec_parse_name(buf@, pos as int, 0) == Some((name@, end as int))
                && pos < end <= buf@.len(),
            Err(e) => spec_parse_name(buf@, pos as int, 0) is None && e == Error::ParseError,
        },
{
    match parse_name_at(buf, pos, 0) {
        Some(v) => Ok(v),
        None => Err(Error::ParseError),
    }
}

} // verus!
