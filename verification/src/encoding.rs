//! UTF-8 at the level of single bytes and single scalars.
use vstd::prelude::*;
use vstd::utf8::*;

verus! {

/// Whether `byte` can stand first in the encoding of a scalar: an ASCII byte
/// or a leading byte, anything but a continuation byte.
pub fn starts_well_formed_utf8_sequence(byte: u8) -> (starts: bool)
    ensures
        starts == !is_continuation_byte(byte),
{
    !(128 <= byte && byte < 192)
}

/// The number of bytes that `c` takes in UTF-8.
pub fn encoded_len(c: char) -> (n: usize)
    ensures
        n == encode_scalar(c as u32).len(),
        1 <= n <= 4,
{
    let code = c as u32;
    if code < 0x80 {
        1
    } else if code < 0x800 {
        2
    } else if code < 0x10000 {
        3
    } else {
        4
    }
}

/// Writes the UTF-8 encoding of `c` to the front of `dst` and returns its
/// length. The bytes of `dst` behind the encoding stay as they were.
pub fn encode_char(c: char, dst: &mut [u8]) -> (n: usize)
    requires
        encode_scalar(c as u32).len() <= old(dst)@.len(),
    ensures
        n == encode_scalar(c as u32).len(),
        final(dst)@ == encode_scalar(c as u32) + old(dst)@.subrange(n as int, old(dst)@.len() as int),
{
    let code = c as u32;
    if code < 0x80 {
        dst[0] = (code & 0x7F) as u8;
        assert(dst@ =~= encode_scalar(code) + old(dst)@.subrange(1, old(dst)@.len() as int));
        1
    } else if code < 0x800 {
        dst[0] = 0xC0 | ((code >> 6) & 0x1F) as u8;
        dst[1] = 0x80 | (code & 0x3F) as u8;
        assert(dst@ =~= encode_scalar(code) + old(dst)@.subrange(2, old(dst)@.len() as int));
        2
    } else if code < 0x10000 {
        dst[0] = 0xE0 | ((code >> 12) & 0x0F) as u8;
        dst[1] = 0x80 | ((code >> 6) & 0x3F) as u8;
        dst[2] = 0x80 | (code & 0x3F) as u8;
        assert(dst@ =~= encode_scalar(code) + old(dst)@.subrange(3, old(dst)@.len() as int));
        3
    } else {
        dst[0] = 0xF0 | ((code >> 18) & 0x7) as u8;
        dst[1] = 0x80 | ((code >> 12) & 0x3F) as u8;
        dst[2] = 0x80 | ((code >> 6) & 0x3F) as u8;
        dst[3] = 0x80 | (code & 0x3F) as u8;
        assert(dst@ =~= encode_scalar(code) + old(dst)@.subrange(4, old(dst)@.len() as int));
        4
    }
}

} // verus!
