//! Writing strings into a byte stream.

use vstd::prelude::*;
use crate::data::{be_u16, be_u32, push_u16, push_u32};
use crate::error::WriteError;

verus! {

/// Writes a string with four bytes at the start for the string length (its
/// UTF-8 length plus one), then the low 16 bits of each character, then a
/// zero 16-bit terminator.
pub fn write_string_with_length(string: &String, file_stream: &mut Vec<u8>) -> (r: Result<(), WriteError>)
    ensures
        match r {
            Ok(_) => utf8_len(string) + 1 <= u32::MAX && final(file_stream)@ == old(file_stream)@
                + be_u32(utf8_len(string) + 1) + low_units_bytes(string@) + seq![0u8, 0u8],
            Err(e) => utf8_len(string) + 1 > u32::MAX && e == WriteError::WriteFailure
                && final(file_stream)@ == old(file_stream)@,
        },
{
    let text = string.as_str();
    let length = text.as_bytes().len();
    if length >= 0xFFFF_FFFF {
        return Err(WriteError::WriteFailure);
    }
    let ghost start = file_stream@;
    assert(text@ == string@);
    assert(length == utf8_len(string));
    push_u32(file_stream, (length + 1) as u32);
    let ghost head = file_stream@;
    for c in it: text.chars()
        invariant
            it.seq() == string@,
            it.index() <= string@.len(),
            file_stream@ == head + low_units_bytes(string@.take(it.index())),
    {
        proof {
            assert(string@.take(it.index() + 1).drop_last() =~= string@.take(it.index()));
        }
        push_u16(file_stream, (c as u32 % 0x1_0000) as u16);
    }
    proof {
        assert(string@.take(string@.len() as int) =~= string@);
    }
    let ghost body = file_stream@;
    assert(body == start + be_u32(utf8_len(string) + 1) + low_units_bytes(string@));
    push_u16(file_stream, 0);
    assert(file_stream@ =~= start + be_u32(utf8_len(string) + 1) + low_units_bytes(string@) + seq![0u8, 0u8]);
    Ok(())
}

/// The UTF-8 length of a string.
pub open spec fn utf8_len(s: &String) -> int {
    vstd::utf8::encode_utf8(s@).len() as int
}

/// The low 16 bits of each character, each as two big-endian bytes.
pub open spec fn low_units_bytes(s: Seq<char>) -> Seq<u8>
    decreases s.len(),
{
    if s.len() == 0 {
        seq![]
    } else {
        low_units_bytes(s.drop_last()) + be_u16((s.last() as u32 % 0x1_0000) as int)
    }
}

} // verus!
