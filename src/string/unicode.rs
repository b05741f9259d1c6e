//! Unicode names: a `luni` block holding the name in UTF-16.

use vstd::prelude::*;
use crate::data::{be_u16, be_u32, push_bytes, push_u16, push_u32};
use crate::error::WriteError;
use crate::string::pascal::{name_view, owned_name};

verus! {

/// The UTF-16 code units of one character.
pub open spec fn utf16_units(c: char) -> Seq<u16> {
    let v = c as u32;
    if v < 0x1_0000 {
        seq![v as u16]
    } else {
        seq![(0xD800 + (v - 0x1_0000) / 0x400) as u16, (0xDC00 + (v - 0x1_0000) % 0x400) as u16]
    }
}

/// The UTF-16 code units of a string.
pub open spec fn utf16_of(s: Seq<char>) -> Seq<u16>
    decreases s.len(),
{
    if s.len() == 0 {
        seq![]
    } else {
        utf16_of(s.drop_last()) + utf16_units(s.last())
    }
}

/// Code units, each as two big-endian bytes.
pub open spec fn units_bytes(units: Seq<u16>) -> Seq<u8>
    decreases units.len(),
{
    if units.len() == 0 {
        seq![]
    } else {
        units_bytes(units.drop_last()) + be_u16(units.last() as int)
    }
}

/// The signature "8BIM".
pub open spec fn resource_signature() -> Seq<u8> {
    seq![0x38u8, 0x42u8, 0x49u8, 0x4du8]
}

/// The key "luni".
pub open spec fn unicode_name_key() -> Seq<u8> {
    seq![0x6cu8, 0x75u8, 0x6eu8, 0x69u8]
}

/// The name that a layer without one writes.
pub open spec fn name_chars(name: Option<Seq<char>>) -> Seq<char> {
    match name {
        Some(s) => s,
        None => seq![],
    }
}

/// The Unicode name block: "8BIM", "luni", the length of what follows, the
/// number of UTF-16 code units, then each unit as a big-endian 16-bit number.
pub open spec fn unicode_bytes(name: Option<Seq<char>>) -> Seq<u8> {
    let units = utf16_of(name_chars(name));
    resource_signature() + unicode_name_key() + be_u32(4 + 2 * units.len() as int) + be_u32(
        units.len() as int,
    ) + units_bytes(units)
}

/// The block's length field can hold the length of the name.
pub open spec fn unicode_fits(name: Option<Seq<char>>) -> bool {
    4 + 2 * utf16_of(name_chars(name)).len() <= u32::MAX
}

pub proof fn lemma_units_bytes_len(units: Seq<u16>)
    ensures
        units_bytes(units).len() == 2 * units.len(),
    decreases units.len(),
{
    if units.len() > 0 {
        lemma_units_bytes_len(units.drop_last());
    }
}

/// Appends the UTF-16 code units of a string, each as two big-endian bytes;
/// returns how many units there were.
fn push_utf16(out: &mut Vec<u8>, s: &str) -> (n: usize)
    ensures
        final(out)@ == old(out)@ + units_bytes(utf16_of(s@)),
        n == utf16_of(s@).len(),
{
    let start_len = out.len();
    let ghost start = out@;
    for c in it: s.chars()
        invariant
            it.seq() == s@,
            it.index() <= s@.len(),
            start.len() == start_len,
            out@ == start + units_bytes(utf16_of(s@.take(it.index()))),
    {
        let ghost prefix = s@.take(it.index());
        proof {
            assert(s@.take(it.index() + 1).drop_last() =~= prefix);
        }
        let v = c as u32;
        if v < 0x1_0000 {
            push_u16(out, v as u16);
            proof {
                assert(utf16_units(c) =~= seq![v as u16]);
                assert(utf16_of(s@.take(it.index() + 1)) =~= utf16_of(prefix).push(v as u16));
                assert(utf16_of(prefix).push(v as u16).drop_last() =~= utf16_of(prefix));
                assert(units_bytes(utf16_of(prefix).push(v as u16)) == units_bytes(utf16_of(prefix))
                    + be_u16(v as u16 as int));
                assert(out@ =~= start + units_bytes(utf16_of(prefix).push(v as u16)));
            }
        } else {
            let high = (0xD800 + (v - 0x1_0000) / 0x400) as u16;
            let low = (0xDC00 + (v - 0x1_0000) % 0x400) as u16;
            push_u16(out, high);
            push_u16(out, low);
            proof {
                let u0 = utf16_of(prefix);
                assert(utf16_of(s@.take(it.index() + 1)) =~= u0.push(high).push(low));
                assert(u0.push(high).push(low).drop_last() =~= u0.push(high));
                assert(u0.push(high).drop_last() =~= u0);
                assert(units_bytes(u0.push(high)) == units_bytes(u0) + be_u16(high as int));
                assert(units_bytes(u0.push(high).push(low)) == units_bytes(u0.push(high)) + be_u16(
                    low as int,
                ));
                assert(out@ =~= start + units_bytes(u0.push(high).push(low)));
            }
        }
    }
    proof {
        assert(s@.take(s@.len() as int) =~= s@);
        lemma_units_bytes_len(utf16_of(s@));
    }
    (out.len() - start_len) / 2
}

/// Returns the unicode string data from a string.
pub fn data_from_string(string: Option<&String>) -> (r: Result<Vec<u8>, WriteError>)
    ensures
        match r {
            Ok(v) => unicode_fits(name_view(owned_name(string))) && v@ == unicode_bytes(name_view(owned_name(string))),
            Err(e) => !unicode_fits(name_view(owned_name(string))) && e == WriteError::WriteFailure,
        },
{
    let text: &str = match string {
        Some(s) => s.as_str(),
        None => "",
    };
    proof {
        reveal_strlit("");
        assert(text@ == name_chars(name_view(owned_name(string))));
    }
    let mut units: Vec<u8> = Vec::new();
    let n = push_utf16(&mut units, text);
    if n > 0x7FFF_FFFD {
        return Err(WriteError::WriteFailure);
    }
    let mut out: Vec<u8> = vec![0x38u8, 0x42u8, 0x49u8, 0x4du8, 0x6cu8, 0x75u8, 0x6eu8, 0x69u8];
    push_u32(&mut out, (4 + 2 * n) as u32);
    push_u32(&mut out, n as u32);
    push_bytes(&mut out, units.as_slice());
    assert(out@ =~= unicode_bytes(name_view(owned_name(string))));
    Ok(out)
}

} // verus!
