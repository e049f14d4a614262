//! How numbers are written, and that reading gives them back.
use crate::input::{be_u16, be_u32};
use vstd::prelude::*;

verus! {

/// A number of two bytes as it is written: how often 256 goes into it, and what is left.
pub open spec fn written_u16(number: u16) -> Seq<u8> {
    seq![(number / 256) as u8, (number % 256) as u8]
}

/// A number of four bytes as it is written: its upper half, and its lower half.
pub open spec fn written_u32(number: u32) -> Seq<u8> {
    written_u16((number / 65536) as u16) + written_u16((number % 65536) as u16)
}

/// A number that was written is read again, whatever follows it.
pub proof fn law_u16_written(number: u16, rest: Seq<u8>)
    ensures
        written_u16(number).len() == 2,
        be_u16(written_u16(number) + rest) == number,
        (written_u16(number) + rest).skip(2) == rest,
{
    assert((written_u16(number) + rest).skip(2) =~= rest);
}

/// A number that was written is read again, whatever follows it.
pub proof fn law_u32_written(number: u32, rest: Seq<u8>)
    ensures
        written_u32(number).len() == 4,
        be_u32(written_u32(number) + rest) == number,
        (written_u32(number) + rest).skip(4) == rest,
{
    assert((written_u32(number) + rest).skip(4) =~= rest);
}

/// Any two bytes stand for the number that is written with them, and for no other.
pub proof fn law_u16_read(bytes: Seq<u8>)
    requires
        bytes.len() >= 2,
    ensures
        0 <= be_u16(bytes) <= u16::MAX,
        written_u16(be_u16(bytes) as u16) == bytes.take(2),
{
    assert(written_u16(be_u16(bytes) as u16) =~= bytes.take(2));
}

/// Any four bytes stand for the number that is written with them, and for no other.
pub proof fn law_u32_read(bytes: Seq<u8>)
    requires
        bytes.len() >= 4,
    ensures
        0 <= be_u32(bytes) <= u32::MAX,
        written_u32(be_u32(bytes) as u32) == bytes.take(4),
{
    assert(written_u32(be_u32(bytes) as u32) =~= bytes.take(4));
}

} // verus!
