//! Raster images and the whole-image section of a file.

use vstd::prelude::*;
use crate::channel_type::ColorChannelType;
use crate::color_channel::{rle_failure, rle_line_lengths, rle_possible, rle_rows_data, ColorChannel};
use crate::data::{be_i16, push_bytes, push_i16};
use crate::error::WriteError;
use crate::image_compression::{compression_code, ImageCompression};

verus! {

/// A width and a height, in pixels.
#[derive(Debug, Clone, Copy, PartialEq, Eq, Structural)]
pub struct Size {
    pub width: u32,
    pub height: u32,
}

/// A raster image: interleaved RGBA bytes, `bytes_per_row` bytes from one row
/// to the next.
pub struct Image {
    /// The size of the image.
    pub size: Size,
    /// The number of bytes from the start of one row to the start of the next.
    pub bytes_per_row: u32,
    /// The pixels, four bytes each, in the order red, green, blue, alpha.
    pub data: Vec<u8>,
}

/// The image's rows hold four bytes for each pixel, and the data holds every row.
pub open spec fn image_consistent(img: Image) -> bool {
    let w = img.size.width as int;
    let h = img.size.height as int;
    &&& img.bytes_per_row >= 4 * w
    &&& (w == 0 || h == 0 || (h - 1) * img.bytes_per_row + 4 * w <= img.data@.len())
}

/// Component `c` (0 red, 1 green, 2 blue, 3 alpha) of the pixels of row `y`.
pub open spec fn component_row(img: Image, c: int, y: int) -> Seq<u8> {
    Seq::new(img.size.width as nat, |x: int| img.data@[y * img.bytes_per_row + 4 * x + c])
}

/// Component `c` of the first `n` rows, row after row.
pub open spec fn component_rows(img: Image, c: int, n: nat) -> Seq<u8>
    decreases n,
{
    if n == 0 {
        seq![]
    } else {
        component_rows(img, c, (n - 1) as nat) + component_row(img, c, n - 1)
    }
}

/// The plane of component `c`: `width * height` bytes in row-major order.
pub open spec fn plane(img: Image, c: int) -> Seq<u8> {
    component_rows(img, c, img.size.height as nat)
}

/// The whole-image section for an image: the compression code, then for raw
/// data the red, green, blue and alpha planes; for RLE the four line-length
/// tables (red, green, blue, alpha), then the four sets of encoded rows.
pub open spec fn image_section(img: Image, compression: ImageCompression) -> Result<Seq<u8>, WriteError> {
    let h = img.size.height as nat;
    if compression is ZipWithoutPrediction || compression is ZipWithPrediction {
        Err(WriteError::UnsupportedCompression)
    } else if !image_consistent(img) {
        Err(WriteError::InvalidImage)
    } else if compression is RawData {
        Ok(be_i16(compression_code(compression) as int) + plane(img, 0) + plane(img, 1) + plane(img, 2)
            + plane(img, 3))
    } else if !(rle_possible(plane(img, 0), h as int) && rle_possible(plane(img, 1), h as int)
        && rle_possible(plane(img, 2), h as int) && rle_possible(plane(img, 3), h as int)) {
        Err(rle_failure(h as int))
    } else {
        Ok(be_i16(compression_code(compression) as int) + rle_line_lengths(plane(img, 0), h)
            + rle_line_lengths(plane(img, 1), h) + rle_line_lengths(plane(img, 2), h)
            + rle_line_lengths(plane(img, 3), h) + rle_rows_data(plane(img, 0), h) + rle_rows_data(
            plane(img, 1),
            h,
        ) + rle_rows_data(plane(img, 2), h) + rle_rows_data(plane(img, 3), h))
    }
}

pub proof fn lemma_component_rows_len(img: Image, c: int, n: nat)
    ensures
        component_rows(img, c, n).len() == n * img.size.width,
    decreases n,
{
    let w = img.size.width as int;
    if n > 0 {
        let m = (n - 1) as nat;
        lemma_component_rows_len(img, c, m);
        assert(component_rows(img, c, n) == component_rows(img, c, m) + component_row(img, c, n - 1));
        assert(m * w + w == n * w) by (nonlinear_arith)
            requires
                m == n - 1;
    } else {
        assert(component_rows(img, c, n) == Seq::<u8>::empty());
        assert(n * w == 0) by (nonlinear_arith)
            requires
                n == 0;
    }
}

impl Image {
    /// A fully transparent image: every byte zero, four bytes per pixel.
    pub fn empty(size: Size) -> (r: Image)
        requires
            4 * size.width <= u32::MAX,
            4 * size.width * size.height <= usize::MAX,
        ensures
            r.size == size,
            r.bytes_per_row == 4 * size.width,
            r.data@ == Seq::new((4 * size.width * size.height) as nat, |_i: int| 0u8),
            image_consistent(r),
    {
        assert(4 * size.width <= 4 * size.width * size.height || size.height == 0) by (nonlinear_arith);
        assert(size.width == 0 || size.height == 0 || (size.height - 1) * (4 * size.width) + 4 * size.width
            == 4 * size.width * size.height) by (nonlinear_arith);
        let n = 4 * (size.width as usize) * (size.height as usize);
        let mut data: Vec<u8> = Vec::new();
        let mut i: usize = 0;
        while i < n
            invariant
                i <= n,
                data@ == Seq::new(i as nat, |_i: int| 0u8),
            decreases n - i,
        {
            data.push(0);
            i = i + 1;
            assert(data@ =~= Seq::new(i as nat, |_i: int| 0u8));
        }
        let bytes_per_row: u32 = 4 * size.width;
        Image { size, bytes_per_row, data }
    }
}

/// Splits an image into its red, green, blue and alpha planes.
pub fn deinterleave(image: &Image) -> (r: (Vec<u8>, Vec<u8>, Vec<u8>, Vec<u8>))
    requires
        image_consistent(*image),
    ensures
        r.0@ == plane(*image, 0),
        r.1@ == plane(*image, 1),
        r.2@ == plane(*image, 2),
        r.3@ == plane(*image, 3),
        r.0@.len() == image.size.width * image.size.height,
{
    let w = image.size.width as usize;
    let h = image.size.height as usize;
    let bpr = image.bytes_per_row as usize;
    let len = image.data.len();
    let mut red: Vec<u8> = Vec::new();
    let mut green: Vec<u8> = Vec::new();
    let mut blue: Vec<u8> = Vec::new();
    let mut alpha: Vec<u8> = Vec::new();
    let mut y: usize = 0;
    while y < h
        invariant
            y <= h,
            w == image.size.width,
            h == image.size.height,
            bpr == image.bytes_per_row,
            len == image.data@.len(),
            image_consistent(*image),
            red@ == component_rows(*image, 0, y as nat),
            green@ == component_rows(*image, 1, y as nat),
            blue@ == component_rows(*image, 2, y as nat),
            alpha@ == component_rows(*image, 3, y as nat),
        decreases h - y,
    {
        let ghost r0 = red@;
        let ghost g0 = green@;
        let ghost b0 = blue@;
        let ghost a0 = alpha@;
        if w > 0 {
            assert(y * bpr <= (h - 1) * bpr) by (nonlinear_arith)
                requires
                    y < h;
        }
        let mut x: usize = 0;
        while x < w
            invariant
                x <= w,
                y < h,
                w == image.size.width,
                h == image.size.height,
                bpr == image.bytes_per_row,
                len == image.data@.len(),
                image_consistent(*image),
                w > 0 ==> y * bpr <= (h - 1) * bpr,
                red@ == r0 + component_row(*image, 0, y as int).take(x as int),
                green@ == g0 + component_row(*image, 1, y as int).take(x as int),
                blue@ == b0 + component_row(*image, 2, y as int).take(x as int),
                alpha@ == a0 + component_row(*image, 3, y as int).take(x as int),
            decreases w - x,
        {
            let source = y * bpr + 4 * x;
            red.push(image.data[source]);
            green.push(image.data[source + 1]);
            blue.push(image.data[source + 2]);
            alpha.push(image.data[source + 3]);
            x = x + 1;
            assert(red@ =~= r0 + component_row(*image, 0, y as int).take(x as int));
            assert(green@ =~= g0 + component_row(*image, 1, y as int).take(x as int));
            assert(blue@ =~= b0 + component_row(*image, 2, y as int).take(x as int));
            assert(alpha@ =~= a0 + component_row(*image, 3, y as int).take(x as int));
        }
        assert(component_row(*image, 0, y as int).take(w as int) =~= component_row(*image, 0, y as int));
        assert(component_row(*image, 1, y as int).take(w as int) =~= component_row(*image, 1, y as int));
        assert(component_row(*image, 2, y as int).take(w as int) =~= component_row(*image, 2, y as int));
        assert(component_row(*image, 3, y as int).take(w as int) =~= component_row(*image, 3, y as int));
        y = y + 1;
    }
    proof {
        lemma_component_rows_len(*image, 0, image.size.height as nat);
        assert(image.size.height * image.size.width == image.size.width * image.size.height) by (nonlinear_arith);
    }
    (red, green, blue, alpha)
}

/// Returns the image data for use in Photoshop documents.
pub fn psd_data(image: &Image, compression: &ImageCompression) -> (r: Result<Vec<u8>, WriteError>)
    ensures
        match r {
            Ok(v) => image_section(*image, *compression) == Ok::<Seq<u8>, WriteError>(v@),
            Err(e) => image_section(*image, *compression) == Err::<Seq<u8>, WriteError>(e),
        },
{
    match compression {
        ImageCompression::ZipWithoutPrediction | ImageCompression::ZipWithPrediction => {
            return Err(WriteError::UnsupportedCompression);
        },
        _ => {},
    }
    if !is_consistent(image) {
        return Err(WriteError::InvalidImage);
    }
    let (red, green, blue, alpha) = deinterleave(image);
    let mut out: Vec<u8> = Vec::new();
    push_i16(&mut out, compression.raw_value());
    match compression {
        ImageCompression::RawData => {
            push_bytes(&mut out, red.as_slice());
            push_bytes(&mut out, green.as_slice());
            push_bytes(&mut out, blue.as_slice());
            push_bytes(&mut out, alpha.as_slice());
            Ok(out)
        },
        _ => {
            let height = image.size.height;
            let length = red.len();
            let red_channel = ColorChannel { data_length: length, color_type: ColorChannelType::Red, data: red, compressed_data: None };
            let green_channel = ColorChannel { data_length: length, color_type: ColorChannelType::Green, data: green, compressed_data: None };
            let blue_channel = ColorChannel { data_length: length, color_type: ColorChannelType::Blue, data: blue, compressed_data: None };
            let alpha_channel = ColorChannel { data_length: length, color_type: ColorChannelType::Alpha, data: alpha, compressed_data: None };
            let red_rle = red_channel.rle_encoded_components(height)?;
            let green_rle = green_channel.rle_encoded_components(height)?;
            let blue_rle = blue_channel.rle_encoded_components(height)?;
            let alpha_rle = alpha_channel.rle_encoded_components(height)?;
            // All the line lengths come first, then all the rows.
            push_bytes(&mut out, red_rle.line_lengths.as_slice());
            push_bytes(&mut out, green_rle.line_lengths.as_slice());
            push_bytes(&mut out, blue_rle.line_lengths.as_slice());
            push_bytes(&mut out, alpha_rle.line_lengths.as_slice());
            push_bytes(&mut out, red_rle.data.as_slice());
            push_bytes(&mut out, green_rle.data.as_slice());
            push_bytes(&mut out, blue_rle.data.as_slice());
            push_bytes(&mut out, alpha_rle.data.as_slice());
            Ok(out)
        },
    }
}

/// Tells whether an image's rows hold four bytes for each pixel and its data
/// holds every row.
pub fn is_consistent(image: &Image) -> (r: bool)
    ensures
        r == image_consistent(*image),
{
    let w = image.size.width as u128;
    let h = image.size.height as u128;
    let bpr = image.bytes_per_row as u128;
    if bpr < 4 * w {
        return false;
    }
    if w == 0 || h == 0 {
        return true;
    }
    assert((h - 1) * bpr <= 0xFFFF_FFFF * 0xFFFF_FFFFu128) by (nonlinear_arith)
        requires
            h - 1 <= 0xFFFF_FFFF,
            bpr <= 0xFFFF_FFFF,
            h >= 1;
    (h - 1) * bpr + 4 * w <= image.data.len() as u128
}

/// Every component plane of an image whose bytes are all zero is all zero.
pub proof fn lemma_plane_of_zeros(img: Image, c: int)
    requires
        image_consistent(img),
        0 <= c < 4,
        forall|i: int| 0 <= i < img.data@.len() ==> img.data@[i] == 0,
    ensures
        plane(img, c) == Seq::new((img.size.width * img.size.height) as nat, |_i: int| 0u8),
{
    lemma_component_rows_zero(img, c, img.size.height as nat);
}

proof fn lemma_component_rows_zero(img: Image, c: int, n: nat)
    requires
        image_consistent(img),
        0 <= c < 4,
        n <= img.size.height,
        forall|i: int| 0 <= i < img.data@.len() ==> img.data@[i] == 0,
    ensures
        component_rows(img, c, n) == Seq::new((n * img.size.width) as nat, |_i: int| 0u8),
    decreases n,
{
    let w = img.size.width as int;
    if n == 0 {
        assert(n * w == 0) by (nonlinear_arith)
            requires
                n == 0;
        assert(component_rows(img, c, n) =~= Seq::new((n * img.size.width) as nat, |_i: int| 0u8));
    } else {
        let m = (n - 1) as nat;
        lemma_component_rows_zero(img, c, m);
        assert(m * w + w == n * w) by (nonlinear_arith)
            requires
                m == n - 1;
        let row = component_row(img, c, n - 1);
        assert forall|x: int| 0 <= x < w implies row[x] == 0u8 by {
            assert(m * img.bytes_per_row + 4 * x + c < img.data@.len()) by (nonlinear_arith)
                requires
                    m <= img.size.height - 1,
                    0 <= x < w,
                    0 <= c < 4,
                    w > 0,
                    img.size.height > 0,
                    img.bytes_per_row >= 0,
                    (img.size.height - 1) * img.bytes_per_row + 4 * w <= img.data@.len();
            assert(m * img.bytes_per_row + 4 * x + c >= 0) by (nonlinear_arith)
                requires
                    m >= 0,
                    x >= 0,
                    c >= 0,
                    img.bytes_per_row >= 0;
        }
        assert(component_rows(img, c, n) =~= Seq::new((n * img.size.width) as nat, |_i: int| 0u8));
    }
}

} // verus!
