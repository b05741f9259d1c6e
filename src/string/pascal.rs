//! Pascal strings: a length byte, then the bytes.

use vstd::prelude::*;
use crate::data::push_bytes;
use crate::error::WriteError;

verus! {

/// The characters of an optional name.
pub open spec fn name_view(name: Option<String>) -> Option<Seq<char>> {
    match name {
        Some(s) => Some(s@),
        None => None,
    }
}

/// The UTF-8 bytes of a string.
pub open spec fn utf8_of(s: Seq<char>) -> Seq<u8> {
    vstd::utf8::encode_utf8(s)
}

/// The name that an optional reference points to.
pub open spec fn owned_name(name: Option<&String>) -> Option<String> {
    match name {
        Some(s) => Some(*s),
        None => None,
    }
}

/// The Pascal string of an optional name: its UTF-8 length as one byte, then
/// its UTF-8 bytes; no name gives two zero bytes.
pub open spec fn pascal_bytes(name: Option<Seq<char>>) -> Seq<u8> {
    match name {
        None => seq![0u8, 0u8],
        Some(s) => seq![utf8_of(s).len() as u8] + utf8_of(s),
    }
}

/// A name fits a Pascal string when its UTF-8 bytes number at most 255.
pub open spec fn pascal_fits(name: Option<Seq<char>>) -> bool {
    name matches Some(s) ==> utf8_of(s).len() <= 255
}

/// Returns the Pascal UCSD string data from a string.
pub fn data_from_string(string: Option<&String>) -> (r: Result<Vec<u8>, WriteError>)
    ensures
        match r {
            Ok(v) => pascal_fits(name_view(owned_name(string))) && v@ == pascal_bytes(name_view(owned_name(string))),
            Err(e) => !pascal_fits(name_view(owned_name(string))) && e == WriteError::WriteFailure,
        },
{
    match string {
        None => Ok(vec![0u8, 0u8]),
        Some(s) => {
            let bytes = s.as_str().as_bytes();
            if bytes.len() > 255 {
                return Err(WriteError::WriteFailure);
            }
            let mut out: Vec<u8> = Vec::new();
            out.push(bytes.len() as u8);
            push_bytes(&mut out, bytes);
            Ok(out)
        },
    }
}

} // verus!
