//! One colour plane of an image, and its compression.

use vstd::prelude::*;
use crate::channel_type::ColorChannelType;
use crate::data::{be_u16, push_bytes, push_u16, copy_bytes};
use crate::error::WriteError;
use crate::image_compression::ImageCompression;
use crate::rle::{encoded, rle_encode};

verus! {

/// A colour channel holds the data for one channel of colours for an image.
pub struct ColorChannel {
    /// The length of the data for this channel.
    pub data_length: usize,
    /// The type of channel.
    pub color_type: ColorChannelType,
    /// The data for the channel.
    pub data: Vec<u8>,
    /// The cached compressed data.
    pub compressed_data: Option<Vec<u8>>,
}

/// The result of calling `compressed_data`.
pub struct CompressedDataResult {
    /// The data.
    pub data: Vec<u8>,
    /// The compression used.
    pub compression: ImageCompression,
}

/// Represents the components of RLE encoded data.
pub struct RleComponents {
    /// The line lengths for the data.
    pub line_lengths: Vec<u8>,
    /// The data.
    pub data: Vec<u8>,
}

/// What a channel is, as a value: its type, its plane, and its cached
/// compressed data.
pub struct ChannelModel {
    pub color_type: ColorChannelType,
    pub data: Seq<u8>,
    pub cache: Option<Seq<u8>>,
}

impl View for ColorChannel {
    type V = ChannelModel;

    open spec fn view(&self) -> ChannelModel {
        ChannelModel {
            color_type: self.color_type,
            data: self.data@,
            cache: match self.compressed_data {
                Some(c) => Some(c@),
                None => None,
            },
        }
    }
}

/// Row `y` of a plane cut into `h` rows of equal length (the length rounded down).
pub open spec fn plane_row(data: Seq<u8>, h: nat, y: int) -> Seq<u8> {
    let w = data.len() / h;
    data.subrange(y * w, y * w + w)
}

/// The rows of a plane, each one PackBits-encoded.
pub open spec fn encoded_rows(data: Seq<u8>, h: nat) -> Seq<Seq<u8>> {
    Seq::new(h, |y: int| rle_encode(plane_row(data, h, y)))
}

/// Byte runs, one after the other.
pub open spec fn joined(runs: Seq<Seq<u8>>) -> Seq<u8>
    decreases runs.len(),
{
    if runs.len() == 0 {
        seq![]
    } else {
        joined(runs.drop_last()) + runs.last()
    }
}

/// The length of each run, as a big-endian 16-bit number.
pub open spec fn length_table(runs: Seq<Seq<u8>>) -> Seq<u8> {
    joined(runs.map_values(|r: Seq<u8>| be_u16(r.len() as int)))
}

/// Every encoded row's length fits in 16 bits.
pub open spec fn rows_fit(data: Seq<u8>, h: nat) -> bool {
    forall|y: int| 0 <= y < h ==> (#[trigger] encoded_rows(data, h)[y]).len() <= 0xFFFF
}

/// The line-length table of a plane of `h` rows.
pub open spec fn rle_line_lengths(data: Seq<u8>, h: nat) -> Seq<u8> {
    length_table(encoded_rows(data, h))
}

/// The encoded rows of a plane of `h` rows, one after the other.
pub open spec fn rle_rows_data(data: Seq<u8>, h: nat) -> Seq<u8> {
    joined(encoded_rows(data, h))
}

/// Encoding a plane of `h` rows can be done: there is a row, and every
/// encoded row's length fits its table entry.
pub open spec fn rle_possible(data: Seq<u8>, h: int) -> bool {
    0 < h <= u32::MAX && rows_fit(data, h as nat)
}

/// Why encoding a plane of `h` rows fails: no rows at all is an invalid
/// image; otherwise an encoded row's length does not fit its 16-bit entry.
pub open spec fn rle_failure(h: int) -> WriteError {
    if 0 < h <= u32::MAX {
        WriteError::WriteFailure
    } else {
        WriteError::InvalidImage
    }
}

/// A plane's whole RLE payload: the line-length table, then the encoded rows.
pub open spec fn rle_channel_data(data: Seq<u8>, h: nat) -> Seq<u8> {
    rle_line_lengths(data, h) + rle_rows_data(data, h)
}

/// What a channel hands out for an image of `h` rows: its compression and its
/// bytes. A plane of at most two bytes goes raw; otherwise the cached data, if
/// any, or else a fresh RLE payload.
pub open spec fn model_payload(m: ChannelModel, h: int) -> Result<(ImageCompression, Seq<u8>), WriteError> {
    if m.data.len() <= 2 {
        Ok((ImageCompression::RawData, m.data))
    } else if m.cache is Some {
        Ok((ImageCompression::Rle, m.cache->0))
    } else if !rle_possible(m.data, h) {
        Err(rle_failure(h))
    } else {
        Ok((ImageCompression::Rle, rle_channel_data(m.data, h as nat)))
    }
}

/// What a channel hands out for an image of `h` rows.
pub open spec fn channel_payload(ch: ColorChannel, h: int) -> Result<(ImageCompression, Seq<u8>), WriteError> {
    model_payload(ch@, h)
}

/// A result of `compressed_data` that is the payload `p`.
pub open spec fn is_payload(r: Result<CompressedDataResult, WriteError>, p: Result<(ImageCompression, Seq<u8>), WriteError>) -> bool {
    match r {
        Ok(c) => p matches Ok(q) && c.compression == q.0 && c.data@ == q.1,
        Err(e) => p == Err::<(ImageCompression, Seq<u8>), WriteError>(e),
    }
}

/// The channel after a payload was asked of it: a fresh RLE payload is cached,
/// nothing else changes.
pub open spec fn after_payload(old_ch: ColorChannel, new_ch: ColorChannel, h: int) -> bool {
    &&& new_ch.data_length == old_ch.data_length
    &&& new_ch.color_type == old_ch.color_type
    &&& new_ch.data@ == old_ch.data@
    &&& if old_ch.data@.len() > 2 && old_ch.compressed_data is None && rle_possible(old_ch.data@, h) {
        new_ch.compressed_data matches Some(c) && c@ == rle_channel_data(old_ch.data@, h as nat)
    } else {
        new_ch.compressed_data == old_ch.compressed_data
    }
}

/// Asking for a payload again gives the same payload: the cache holds what
/// the first request computed.
pub proof fn lemma_payload_stable(old_ch: ColorChannel, new_ch: ColorChannel, h: int)
    requires
        after_payload(old_ch, new_ch, h),
    ensures
        channel_payload(new_ch, h) == channel_payload(old_ch, h),
{
}

impl ColorChannel {
    /// Creates a new colour channel with empty data.
    pub fn new(color_type: ColorChannelType, data_length: usize) -> (r: Self)
        ensures
            r.color_type == color_type,
            r.data_length == data_length,
            r.data@ == Seq::new(data_length as nat, |_i: int| 0u8),
            r.compressed_data is None,
    {
        let mut data: Vec<u8> = Vec::new();
        let mut i: usize = 0;
        while i < data_length
            invariant
                i <= data_length,
                data@ == Seq::new(i as nat, |_i: int| 0u8),
            decreases data_length - i,
        {
            data.push(0);
            i = i + 1;
            assert(data@ =~= Seq::new(i as nat, |_i: int| 0u8));
        }
        ColorChannel { data_length, color_type, data, compressed_data: None }
    }

    /// A copy of the channel.
    pub fn duplicate(&self) -> (r: Self)
        ensures
            r@ == self@,
            r.data_length == self.data_length,
    {
        let compressed_data = match &self.compressed_data {
            Some(c) => Some(copy_bytes(c.as_slice())),
            None => None,
        };
        ColorChannel {
            data_length: self.data_length,
            color_type: self.color_type,
            data: copy_bytes(self.data.as_slice()),
            compressed_data,
        }
    }

    /// Returns the compressed data using whichever compression method is
    /// appropriate, and the compression method used. A fresh RLE result is cached.
    pub fn compressed_data(&mut self, image_height: u32) -> (r: Result<CompressedDataResult, WriteError>)
        ensures
            is_payload(r, channel_payload(*old(self), image_height as int)),
            after_payload(*old(self), *final(self), image_height as int),
    {
        let result = self.payload(image_height);
        if self.data.len() > 2 && self.compressed_data.is_none() {
            if let Ok(fresh) = &result {
                self.compressed_data = Some(copy_bytes(fresh.data.as_slice()));
            }
        }
        result
    }

    /// Returns what `compressed_data` returns, without filling the cache.
    pub fn payload(&self, image_height: u32) -> (r: Result<CompressedDataResult, WriteError>)
        ensures
            is_payload(r, channel_payload(*self, image_height as int)),
    {
        if self.data.len() <= 2 {
            return Ok(CompressedDataResult { data: copy_bytes(self.data.as_slice()), compression: ImageCompression::RawData });
        }
        match &self.compressed_data {
            Some(cached) => {
                return Ok(CompressedDataResult { data: copy_bytes(cached.as_slice()), compression: ImageCompression::Rle });
            },
            None => {},
        }
        let compressed = self.rle_encoded_data(image_height)?;
        Ok(CompressedDataResult { data: compressed, compression: ImageCompression::Rle })
    }

    /// Returns the channel data encoded with line lengths for the RLE compression.
    pub fn rle_encoded_data(&self, image_height: u32) -> (r: Result<Vec<u8>, WriteError>)
        ensures
            match r {
                Ok(v) => rle_possible(self.data@, image_height as int) && v@ == rle_channel_data(
                    self.data@,
                    image_height as nat,
                ),
                Err(e) => !rle_possible(self.data@, image_height as int) && e == rle_failure(
                    image_height as int,
                ),
            },
    {
        let result = self.rle_encoded_components(image_height)?;
        let mut output = result.line_lengths;
        push_bytes(&mut output, result.data.as_slice());
        Ok(output)
    }

    /// Returns the line lengths and image data for the RLE compression of the channel.
    pub fn rle_encoded_components(&self, image_height: u32) -> (r: Result<RleComponents, WriteError>)
        ensures
            match r {
                Ok(c) => {
                    &&& rle_possible(self.data@, image_height as int)
                    &&& c.line_lengths@ == rle_line_lengths(self.data@, image_height as nat)
                    &&& c.data@ == rle_rows_data(self.data@, image_height as nat)
                },
                Err(e) => !rle_possible(self.data@, image_height as int) && e == rle_failure(
                    image_height as int,
                ),
            },
    {
        if image_height == 0 {
            return Err(WriteError::InvalidImage);
        }
        let h = image_height as usize;
        let total = self.data.len();
        let bytes_per_row = total / h;
        let ghost d = self.data@;
        let ghost rows = encoded_rows(d, h as nat);
        proof {
            vstd::arithmetic::div_mod::lemma_fundamental_div_mod(d.len() as int, h as int);
            assert(h * bytes_per_row <= d.len()) by (nonlinear_arith)
                requires
                    d.len() == h * (d.len() as int / h as int) + d.len() as int % h as int,
                    0 <= d.len() as int % h as int,
                    bytes_per_row == d.len() as int / h as int;
        }
        let mut line_lengths: Vec<u8> = Vec::new();
        let mut encoded_data: Vec<u8> = Vec::new();
        let mut y: usize = 0;
        while y < h
            invariant
                0 < h <= u32::MAX,
                h == image_height,
                y <= h,
                d == self.data@,
                d.len() == total,
                rows == encoded_rows(d, h as nat),
                bytes_per_row == d.len() as int / h as int,
                h * bytes_per_row <= d.len(),
                line_lengths@ == length_table(rows.take(y as int)),
                encoded_data@ == joined(rows.take(y as int)),
                forall|k: int| 0 <= k < y ==> (#[trigger] rows[k]).len() <= 0xFFFF,
            decreases h - y,
        {
            assert((y + 1) * bytes_per_row <= h * bytes_per_row) by (nonlinear_arith)
                requires
                    y + 1 <= h,
                    bytes_per_row >= 0;
            assert(y * bytes_per_row + bytes_per_row == (y + 1) * bytes_per_row) by (nonlinear_arith);
            assert(y * bytes_per_row + bytes_per_row <= usize::MAX);
            let start = y * bytes_per_row;
            let end = start + bytes_per_row;
            let row = vstd::slice::slice_subrange(self.data.as_slice(), start, end);
            let row_encoded = encoded(row);
            assert(row_encoded@ == rows[y as int]);
            if row_encoded.len() > 0xFFFF {
                return Err(WriteError::WriteFailure);
            }
            push_u16(&mut line_lengths, row_encoded.len() as u16);
            push_bytes(&mut encoded_data, row_encoded.as_slice());
            proof {
                let t = rows.take(y + 1);
                assert(t.drop_last() =~= rows.take(y as int));
                assert(t.map_values(|r: Seq<u8>| be_u16(r.len() as int)).drop_last() =~= rows.take(
                    y as int,
                ).map_values(|r: Seq<u8>| be_u16(r.len() as int)));
            }
            y = y + 1;
        }
        proof {
            assert(rows.take(h as int) =~= rows);
        }
        Ok(RleComponents { line_lengths, data: encoded_data })
    }
}

/// The big-endian 16-bit numbers that a table of pairs of bytes holds.
pub open spec fn u16_values(bytes: Seq<u8>) -> Seq<int> {
    Seq::new(bytes.len() / 2, |k: int| bytes[2 * k] * 0x100 + bytes[2 * k + 1])
}

/// The sum of a sequence of numbers.
pub open spec fn sum(xs: Seq<int>) -> int
    decreases xs.len(),
{
    if xs.len() == 0 {
        0
    } else {
        sum(xs.drop_last()) + xs.last()
    }
}

proof fn lemma_length_table(runs: Seq<Seq<u8>>)
    requires
        forall|i: int| 0 <= i < runs.len() ==> (#[trigger] runs[i]).len() <= 0xFFFF,
    ensures
        length_table(runs).len() == 2 * runs.len(),
        u16_values(length_table(runs)) == runs.map_values(|r: Seq<u8>| r.len() as int),
        sum(u16_values(length_table(runs))) == joined(runs).len(),
    decreases runs.len(),
{
    let lens = runs.map_values(|r: Seq<u8>| r.len() as int);
    if runs.len() == 0 {
        assert(runs.map_values(|r: Seq<u8>| be_u16(r.len() as int)) =~= Seq::<Seq<u8>>::empty());
        assert(u16_values(length_table(runs)) =~= lens);
    } else {
        let front = runs.drop_last();
        assert forall|i: int| 0 <= i < front.len() implies (#[trigger] front[i]).len() <= 0xFFFF by {
            assert(front[i] == runs[i]);
        }
        lemma_length_table(front);
        let pairs = runs.map_values(|r: Seq<u8>| be_u16(r.len() as int));
        assert(pairs.drop_last() =~= front.map_values(|r: Seq<u8>| be_u16(r.len() as int)));
        let x = runs.last().len() as int;
        assert(runs.last() == runs[runs.len() - 1]);
        assert(x <= 0xFFFF);
        let t0 = length_table(front);
        let t = length_table(runs);
        assert(t == t0 + be_u16(x));
        assert(be_u16(x)[0] * 0x100 + be_u16(x)[1] == x);
        assert(u16_values(t) =~= u16_values(t0).push(x));
        assert(lens.drop_last() =~= front.map_values(|r: Seq<u8>| r.len() as int));
        assert(u16_values(t) =~= lens);
        assert(u16_values(t).drop_last() =~= u16_values(t0));
    }
}

/// For a channel of `h` rows, the line-length table has exactly `2 h` bytes,
/// and its 16-bit values add up to the length of the encoded rows.
pub proof fn lemma_line_lengths_consistent(data: Seq<u8>, h: nat)
    requires
        rle_possible(data, h as int),
    ensures
        rle_line_lengths(data, h).len() == 2 * h,
        sum(u16_values(rle_line_lengths(data, h))) == rle_rows_data(data, h).len(),
{
    let rows = encoded_rows(data, h);
    assert forall|i: int| 0 <= i < rows.len() implies (#[trigger] rows[i]).len() <= 0xFFFF by {
    }
    lemma_length_table(rows);
}

/// For a channel of `h` rows of at most 65,024 bytes each, every encoded row
/// fits its 16-bit entry: the line-length table has exactly `2 h` bytes, and
/// its values add up to the length of the encoded rows.
pub proof fn lemma_line_lengths_for_rows(data: Seq<u8>, h: nat)
    requires
        0 < h <= u32::MAX,
        data.len() as int / (h as int) <= 65024,
    ensures
        rle_possible(data, h as int),
        rle_line_lengths(data, h).len() == 2 * h,
        sum(u16_values(rle_line_lengths(data, h))) == rle_rows_data(data, h).len(),
{
    let w = data.len() as int / (h as int);
    vstd::arithmetic::div_mod::lemma_fundamental_div_mod(data.len() as int, h as int);
    assert(h * w <= data.len()) by (nonlinear_arith)
        requires
            data.len() == h * w + data.len() as int % (h as int),
            0 <= data.len() as int % (h as int);
    assert forall|y: int| 0 <= y < h implies (#[trigger] encoded_rows(data, h)[y]).len() <= 0xFFFF by {
        assert(y * w + w <= h * w) by (nonlinear_arith)
            requires
                0 <= y < h,
                w >= 0;
        assert(0 <= y * w) by (nonlinear_arith)
            requires
                0 <= y,
                w >= 0;
        let row = plane_row(data, h, y);
        assert(row.len() == w);
        crate::rle::lemma_rle_encode_len(row);
    }
    lemma_line_lengths_consistent(data, h);
}

} // verus!
