//! Big-endian integers and byte runs, as the file format writes them.

use vstd::prelude::*;

verus! {

/// The two bytes of `x` (0 to 0xFFFF), most significant first.
pub open spec fn be_u16(x: int) -> Seq<u8> {
    seq![(x / 0x100) as u8, (x % 0x100) as u8]
}

/// The four bytes of `x` (0 to 0xFFFF_FFFF), most significant first.
pub open spec fn be_u32(x: int) -> Seq<u8> {
    seq![
        (x / 0x100_0000) as u8,
        ((x / 0x1_0000) % 0x100) as u8,
        ((x / 0x100) % 0x100) as u8,
        (x % 0x100) as u8,
    ]
}

/// The two bytes of `x` in two's complement, most significant first.
pub open spec fn be_i16(x: int) -> Seq<u8> {
    be_u16(
        if x < 0 {
            x + 0x1_0000
        } else {
            x
        },
    )
}

/// The four bytes of `x` in two's complement, most significant first.
pub open spec fn be_i32(x: int) -> Seq<u8> {
    be_u32(
        if x < 0 {
            x + 0x1_0000_0000
        } else {
            x
        },
    )
}

/// `n` zero bytes.
pub open spec fn zeros(n: nat) -> Seq<u8> {
    Seq::new(n, |_i: int| 0u8)
}

/// How many zero bytes bring a length of `len` to a multiple of `n`.
pub open spec fn padding(len: int, n: int) -> int {
    (n - len % n) % n
}

/// Appends `x` as two big-endian bytes.
pub fn push_u16(out: &mut Vec<u8>, x: u16)
    ensures
        final(out)@ == old(out)@ + be_u16(x as int),
{
    out.push((x / 0x100) as u8);
    out.push((x % 0x100) as u8);
    assert(final(out)@ =~= old(out)@ + be_u16(x as int));
}

/// Appends `x` as four big-endian bytes.
pub fn push_u32(out: &mut Vec<u8>, x: u32)
    ensures
        final(out)@ == old(out)@ + be_u32(x as int),
{
    out.push((x / 0x100_0000) as u8);
    out.push(((x / 0x1_0000) % 0x100) as u8);
    out.push(((x / 0x100) % 0x100) as u8);
    out.push((x % 0x100) as u8);
    assert(final(out)@ =~= old(out)@ + be_u32(x as int));
}

/// Appends `x` as two big-endian bytes in two's complement.
pub fn push_i16(out: &mut Vec<u8>, x: i16)
    ensures
        final(out)@ == old(out)@ + be_i16(x as int),
{
    let u: u16 = if x < 0 {
        (x as i32 + 0x1_0000) as u16
    } else {
        x as u16
    };
    push_u16(out, u);
}

/// Appends `x` as four big-endian bytes in two's complement.
pub fn push_i32(out: &mut Vec<u8>, x: i32)
    ensures
        final(out)@ == old(out)@ + be_i32(x as int),
{
    let u: u32 = if x < 0 {
        (x as i64 + 0x1_0000_0000) as u32
    } else {
        x as u32
    };
    push_u32(out, u);
}

/// Appends a run of bytes.
pub fn push_bytes(out: &mut Vec<u8>, bytes: &[u8])
    ensures
        final(out)@ == old(out)@ + bytes@,
{
    let ghost start = out@;
    let mut i: usize = 0;
    while i < bytes.len()
        invariant
            i <= bytes@.len(),
            out@ == start + bytes@.take(i as int),
        decreases bytes@.len() - i,
    {
        out.push(bytes[i]);
        i = i + 1;
        assert(out@ =~= start + bytes@.take(i as int));
    }
    assert(bytes@.take(i as int) =~= bytes@);
}

/// A copy of a run of bytes.
pub fn copy_bytes(bytes: &[u8]) -> (r: Vec<u8>)
    ensures
        r@ == bytes@,
{
    let mut r: Vec<u8> = Vec::new();
    push_bytes(&mut r, bytes);
    assert(r@ =~= bytes@);
    r
}

/// Pads the data to be a multiple of a number of bytes.
pub fn pad(data: &mut Vec<u8>, number_of_bytes: usize)
    requires
        number_of_bytes > 0,
    ensures
        final(data)@ == old(data)@ + zeros(
            padding(old(data)@.len() as int, number_of_bytes as int) as nat,
        ),
{
    let ghost start = data@;
    let missing = (number_of_bytes - data.len() % number_of_bytes) % number_of_bytes;
    let mut i: usize = 0;
    while i < missing
        invariant
            i <= missing,
            data@ == start + zeros(i as nat),
        decreases missing - i,
    {
        data.push(0);
        i = i + 1;
        assert(data@ =~= start + zeros(i as nat));
    }
}

} // verus!
