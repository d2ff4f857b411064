//! Length-prefixed frames on a stream.
//!
//! Control and pairing messages are small and fixed-shape. The caller supplies
//! the ceiling, and anything above it is a peer that is confused or hostile,
//! never something to allocate for.

use vstd::prelude::*;
use vstd::string::StringExecFns;

use crate::bytes::{law_le_reads_back, le_bytes, le_value, lemma_capacities, push_le, read_le};
use crate::net::error::Error;
use crate::text::{decimal, join3, number_text};

verus! {

/// The bytes that announce a frame.
pub const FRAME_HEADER_LEN: usize = 4;

/// The bytes that announce a payload of a length.
pub fn frame_header(len: usize) -> (out: Result<Vec<u8>, Error>)
    ensures
        match out {
            Ok(header) => len <= u32::MAX && header@ == header_of(len as nat),
            Err(Error::Stream(said)) => len > u32::MAX && said@ == "frame exceeds 4 GiB"@,
            Err(_) => false,
        },
{
    if len > u32::MAX as usize {
        return Err(Error::Stream("frame exceeds 4 GiB".to_owned()));
    }
    let mut header: Vec<u8> = Vec::new();
    push_le(&mut header, len as u64, 4);
    assert(header@ =~= le_bytes(len as nat, 4));
    Ok(header)
}

/// What is said of a frame over the ceiling.
pub open spec fn oversized_shown(len: nat, max: nat) -> Seq<char> {
    "peer announced a "@ + decimal(len) + " byte frame, ceiling is "@ + decimal(max)
}

/// The length of the payload that four bytes announce, refused above `max`.
pub fn frame_len(header: &[u8], max: usize) -> (out: Result<usize, Error>)
    requires
        header@.len() == FRAME_HEADER_LEN,
    ensures
        match out {
            Ok(len) => len == announced(header@) && len <= max,
            Err(Error::Stream(said)) => {
                &&& announced(header@) > max
                &&& said@ == oversized_shown(announced(header@), max as nat)
            },
            Err(_) => false,
        },
{
    assert(header@.subrange(0, 4) =~= header@);
    proof {
        lemma_capacities();
    }
    let len: usize = read_le(header, 0, 4) as usize;
    if len > max {
        let mut said = join3(
            "peer announced a ",
            number_text(len as u128).as_str(),
            " byte frame, ceiling is ",
        );
        said.append(number_text(max as u128).as_str());
        return Err(Error::Stream(said));
    }
    Ok(len)
}

/// A frame as it travels: its length in four bytes, then the payload.
pub open spec fn framed(payload: Seq<u8>) -> Seq<u8> {
    header_of(payload.len()) + payload
}

/// A frame is read back as it was written: its first four bytes announce its
/// length, and that many bytes after them are the payload.
pub proof fn law_frame_reads_back(payload: Seq<u8>)
    requires
        payload.len() <= u32::MAX,
    ensures
        framed(payload).take(4).len() == FRAME_HEADER_LEN,
        le_value(framed(payload).take(4)) == payload.len(),
        framed(payload).subrange(4, 4 + le_value(framed(payload).take(4)) as int) == payload,
{
    lemma_capacities();
    law_le_reads_back(payload.len(), 4);
    assert(framed(payload).take(4) =~= le_bytes(payload.len(), 4));
    assert(framed(payload).subrange(4, 4 + payload.len() as int) =~= payload);
}

/// What announces a frame of some length.
pub open spec fn header_of(len: nat) -> Seq<u8> {
    le_bytes(len, 4)
}

/// The length that a header announces.
pub open spec fn announced(header: Seq<u8>) -> nat {
    le_value(header)
}

/// Every length of thirty-two bits is announced and heard as it is: four bytes, the least
/// first.
pub proof fn law_every_length_is_heard(len: u32, a: u8, b: u8, c: u8, d: u8)
    ensures
        header_of(len as nat).len() == 4,
        announced(header_of(len as nat)) == len,
        announced(seq![a, b, c, d]) == a as nat + 0x100 * b as nat + 0x1_0000 * c as nat
            + 0x100_0000 * d as nat,
{
    lemma_capacities();
    law_le_reads_back(len as nat, 4);
    let s = seq![a, b, c, d];
    assert(s.drop_first() =~= seq![b, c, d]);
    assert(seq![b, c, d].drop_first() =~= seq![c, d]);
    assert(seq![c, d].drop_first() =~= seq![d]);
    assert(seq![d].drop_first() =~= Seq::<u8>::empty());
    assert(le_value(Seq::<u8>::empty()) == 0);
    assert(le_value(seq![d]) == d);
    assert(le_value(seq![c, d]) == c as nat + 256 * d as nat);
    assert(le_value(seq![b, c, d]) == b as nat + 256 * le_value(seq![c, d]));
}

}
