//! A whole document and its file.

use vstd::prelude::*;
use crate::color_mode::{color_mode_code, ColorMode};
use crate::data::{
    be_i16, be_u16, be_u32, pad, padding, push_bytes, push_i16, push_u16, push_u32, zeros,
};
use crate::error::WriteError;
use crate::image::{image_section, psd_data, Image, Size};
use crate::image_compression::ImageCompression;
use crate::data::be_i32;
use crate::layer::{
    bytes_result, join, layer_record, list_image_data, list_images, list_record_data, list_records,
    zero_rect, Layer,
};
use crate::layer_container::{
    capped, lemma_list_count, list_count, list_group_count, list_image_layer_count,
    number_of_layers_of, LayerContainer,
};
use crate::string::unicode::resource_signature;

verus! {

/// The largest width or height of a document.
pub const MAX_DIMENSION: u32 = 30000;

/// A Photoshop document.
pub struct Document {
    /// The number of channels in the image, including any alpha channels.
    pub number_of_channels: u16,
    /// The size of the image in pixels.
    pub size: Size,
    /// The number of bits per channel (the file always says 8).
    pub bits_per_channel: u16,
    /// The colour mode of the document (the file always says RGB).
    pub color_mode: ColorMode,
    /// The preview image for the whole document.
    pub preview_image: Option<Image>,
    /// The document's layers.
    pub layers: Vec<Layer>,
}

// The file.

/// The number of layers of a document's file.
pub open spec fn document_layer_count(d: Document) -> nat {
    list_count(d.layers@, d.layers@.len())
}


/// The document's size and layer count fit the format.
pub open spec fn document_wf(d: Document) -> bool {
    &&& d.size.width <= MAX_DIMENSION
    &&& d.size.height <= MAX_DIMENSION
    &&& document_layer_count(d) <= i16::MAX
}

/// The header: "8BPS", version 1, six zero bytes, the channel count, the
/// height, the width, depth 8, colour mode RGB, and no colour-mode data.
pub open spec fn header_bytes(d: Document) -> Seq<u8> {
    seq![0x38u8, 0x42u8, 0x50u8, 0x53u8] + be_i16(1) + zeros(6) + be_u16(d.number_of_channels as int)
        + be_u32(d.size.height as int) + be_u32(d.size.width as int) + be_i16(8) + be_i16(
        color_mode_code(ColorMode::Rgb) as int,
    ) + be_u32(0)
}

/// The resolution information, as Photoshop writes it.
pub open spec fn resolution_info() -> Seq<u8> {
    seq![
        0x00u8, 0x48u8, 0x00u8, 0x00u8, 0x00u8, 0x01u8, 0x00u8, 0x01u8,
        0x00u8, 0x48u8, 0x00u8, 0x00u8, 0x00u8, 0x01u8, 0x00u8, 0x01u8,
    ]
}

/// The image resources: the resolution, the selected layer (0), and a zero
/// group identifier for each of `count` layers.
pub open spec fn resources_bytes(count: nat) -> Seq<u8> {
    resource_signature() + be_i16(0x03ED) + be_i16(0) + be_u32(16) + resolution_info()
        + resource_signature() + be_i16(0x0400) + be_i16(0) + be_u32(2) + be_u16(0)
        + resource_signature() + be_i16(0x0402) + be_i16(0) + be_u32(2 * count as int) + zeros(2 * count)
}

/// The layer information: the negated layer count, the records of all
/// layers, then their channel data.
pub open spec fn layer_info_body(d: Document) -> Result<Seq<u8>, WriteError> {
    let n = d.layers@.len();
    join(
        join(
            Ok(be_i16(-(document_layer_count(d) as int))),
            list_records(d.layers@, n, Some(d.size)),
        ),
        list_images(d.layers@, n, Some(d.size)),
    )
}

/// The layer and mask section: its length, then the layer information
/// (padded to an even length, with its length before it), then an empty
/// global mask.
pub open spec fn layer_and_mask_bytes(d: Document) -> Result<Seq<u8>, WriteError> {
    match layer_info_body(d) {
        Err(e) => Err(e),
        Ok(body) => {
            let info = body + zeros(padding(body.len() as int, 2) as nat);
            if info.len() + 8 > u32::MAX {
                Err(WriteError::WriteFailure)
            } else {
                Ok(be_u32(info.len() as int + 8) + be_u32(info.len() as int) + info + be_u32(0))
            }
        },
    }
}

/// The image data section: the preview image with RLE, if there is one.
pub open spec fn preview_bytes(d: Document) -> Result<Seq<u8>, WriteError> {
    match d.preview_image {
        Some(img) => image_section(img, ImageCompression::Rle),
        None => Ok(seq![]),
    }
}

/// The bytes of a document's file.
pub open spec fn file_bytes(d: Document) -> Result<Seq<u8>, WriteError> {
    let resources = resources_bytes(document_layer_count(d));
    join(
        join(
            Ok(header_bytes(d) + be_u32(resources.len() as int) + resources),
            layer_and_mask_bytes(d),
        ),
        preview_bytes(d),
    )
}

impl Document {
    /// Creates an empty Photoshop document.
    pub fn new() -> (r: Self)
        ensures
            r.number_of_channels == 4,
            r.size == (Size { width: 0, height: 0 }),
            r.bits_per_channel == 1,
            r.color_mode == ColorMode::Bitmap,
            r.preview_image is None,
            r.layers@.len() == 0,
    {
        Document {
            number_of_channels: 4,
            size: Size { width: 0, height: 0 },
            bits_per_channel: 1,
            color_mode: ColorMode::Bitmap,
            preview_image: None,
            layers: Vec::new(),
        }
    }

    /// Returns the data for the file.
    pub fn file_data(&self) -> (r: Result<Vec<u8>, WriteError>)
        requires
            document_wf(*self),
        ensures
            bytes_result(r, file_bytes(*self)),
    {
        let count = self.number_of_layers();
        let mut out = self.header_data();
        let resources = resources_data(count);
        push_u32(&mut out, resources.len() as u32);
        push_bytes(&mut out, resources.as_slice());
        let layer_and_mask = self.layer_and_mask_data(count)?;
        push_bytes(&mut out, layer_and_mask.as_slice());
        match &self.preview_image {
            Some(preview) => {
                let data = psd_data(preview, &ImageCompression::Rle)?;
                push_bytes(&mut out, data.as_slice());
            },
            None => {},
        }
        proof {
            let res = resources_bytes(document_layer_count(*self));
            assert(out@ =~= header_bytes(*self) + be_u32(res.len() as int) + res + layer_and_mask@
                + preview_bytes(*self)->Ok_0);
        }
        Ok(out)
    }

    /// The header section.
    fn header_data(&self) -> (r: Vec<u8>)
        ensures
            r@ == header_bytes(*self),
    {
        let mut out: Vec<u8> = vec![0x38u8, 0x42u8, 0x50u8, 0x53u8];
        push_i16(&mut out, 1);
        // Six bytes of padding.
        push_u32(&mut out, 0);
        push_u16(&mut out, 0);
        push_u16(&mut out, self.number_of_channels);
        push_u32(&mut out, self.size.height);
        push_u32(&mut out, self.size.width);
        // The colour depth.
        push_i16(&mut out, 8);
        push_i16(&mut out, ColorMode::Rgb.raw_value());
        // No colour-mode data.
        push_u32(&mut out, 0);
        assert(zeros(6) =~= be_u32(0) + be_u16(0));
        assert(out@ =~= header_bytes(*self));
        out
    }

    /// The layer and mask section, for a document of `count` layers.
    fn layer_and_mask_data(&self, count: usize) -> (r: Result<Vec<u8>, WriteError>)
        requires
            document_wf(*self),
            count == document_layer_count(*self),
        ensures
            bytes_result(r, layer_and_mask_bytes(*self)),
    {
        let mut info: Vec<u8> = Vec::new();
        // The negated count says that the first alpha channel holds transparency.
        push_i16(&mut info, -(count as i16));
        let records = list_record_data(&self.layers, Some(self.size))?;
        push_bytes(&mut info, records.as_slice());
        let images = list_image_data(&self.layers, Some(self.size))?;
        push_bytes(&mut info, images.as_slice());
        proof {
            assert(info@ =~= layer_info_body(*self)->Ok_0);
        }
        pad(&mut info, 2);
        if info.len() > 0xFFFF_FFF7 {
            return Err(WriteError::WriteFailure);
        }
        let mut out: Vec<u8> = Vec::new();
        push_u32(&mut out, (info.len() + 8) as u32);
        push_u32(&mut out, info.len() as u32);
        push_bytes(&mut out, info.as_slice());
        // The global layer mask: none.
        push_u32(&mut out, 0);
        assert(out@ =~= layer_and_mask_bytes(*self)->Ok_0);
        Ok(out)
    }
}

/// The image resources section's content, for `count` layers.
fn resources_data(count: usize) -> (r: Vec<u8>)
    requires
        count <= 0x7FFF,
    ensures
        r@ == resources_bytes(count as nat),
{
    let signature: Vec<u8> = vec![0x38u8, 0x42u8, 0x49u8, 0x4du8];
    let mut resources: Vec<u8> = Vec::new();
    // The resolution information.
    push_bytes(&mut resources, signature.as_slice());
    push_i16(&mut resources, 0x03ED);
    push_i16(&mut resources, 0);
    let resolution: Vec<u8> = vec![
        0x00u8, 0x48u8, 0x00u8, 0x00u8, 0x00u8, 0x01u8, 0x00u8, 0x01u8,
        0x00u8, 0x48u8, 0x00u8, 0x00u8, 0x00u8, 0x01u8, 0x00u8, 0x01u8,
    ];
    push_u32(&mut resources, 16);
    push_bytes(&mut resources, resolution.as_slice());
    // The selected layer.
    push_bytes(&mut resources, signature.as_slice());
    push_i16(&mut resources, 0x0400);
    push_i16(&mut resources, 0);
    push_u32(&mut resources, 2);
    push_u16(&mut resources, 0);
    // A group identifier for each layer.
    push_bytes(&mut resources, signature.as_slice());
    push_i16(&mut resources, 0x0402);
    push_i16(&mut resources, 0);
    push_u32(&mut resources, (2 * count) as u32);
    let ghost before_ids = resources@;
    let mut i: usize = 0;
    while i < count
        invariant
            i <= count,
            count <= 0x7FFF,
            resources@ == before_ids + zeros(2 * i as nat),
        decreases count - i,
    {
        push_u16(&mut resources, 0);
        i = i + 1;
        assert(resources@ =~= before_ids + zeros(2 * i as nat));
    }
    assert(signature@ =~= resource_signature());
    assert(resolution@ =~= resolution_info());
    assert(resources@ =~= resources_bytes(count as nat));
    resources
}

/// Serializing the same document twice gives the same bytes.
pub proof fn lemma_file_data_deterministic(a: Document, b: Document)
    requires
        a == b,
    ensures
        file_bytes(a) == file_bytes(b),
{
}

/// The layer count that a file holds (negated, before the records) is the
/// number of image layers plus twice the number of groups.
pub proof fn lemma_serialized_layer_count(d: Document)
    ensures
        ({
            let n = d.layers@.len();
            let expected = list_image_layer_count(d.layers@, n) + 2 * list_group_count(d.layers@, n);
            &&& document_layer_count(d) == expected
            &&& layer_info_body(d) is Ok ==> layer_info_body(d)->Ok_0.take(2) == be_i16(-expected)
        }),
{
    lemma_list_count(d.layers@, d.layers@.len());
    if layer_info_body(d) is Ok {
        let body = layer_info_body(d)->Ok_0;
        assert(body.take(2) =~= be_i16(-(document_layer_count(d) as int)));
    }
}

/// An image layer with zero bounds is written with the document's full
/// extent as its bounds.
pub proof fn lemma_zero_bounds_promoted(l: Layer, size: Size)
    requires
        l.layer_type is Image,
        l.bounds == zero_rect(),
        size.width <= MAX_DIMENSION,
        size.height <= MAX_DIMENSION,
        layer_record(l, Some(size)) is Ok,
    ensures
        layer_record(l, Some(size))->Ok_0.take(16) == be_i32(0) + be_i32(0) + be_i32(size.height as int)
            + be_i32(size.width as int),
{
    let r = layer_record(l, Some(size))->Ok_0;
    assert(r.take(16) =~= be_i32(0) + be_i32(0) + be_i32(size.height as int) + be_i32(size.width as int));
}

impl LayerContainer for Document {
    open spec fn layer_list(&self) -> Seq<Layer> {
        self.layers@
    }

    fn layers(&self) -> (r: &Vec<Layer>) {
        &self.layers
    }

    fn number_of_layers(&self) -> (r: usize) {
        number_of_layers_of(&self.layers)
    }
}

/// In a document's file, the layers-group resource declares two bytes for
/// each of the `N` layers (image layers plus twice the groups), and the layer
/// information starts with `-N`: bytes 84 to 88 hold `2 N`, and bytes
/// `96 + 2 N` and `97 + 2 N` hold `-N`.
pub proof fn lemma_layer_count_in_file(d: Document)
    requires
        file_bytes(d) is Ok,
    ensures
        ({
            let n = d.layers@.len();
            let count = (list_image_layer_count(d.layers@, n) + 2 * list_group_count(d.layers@, n)) as int;
            let f = file_bytes(d)->Ok_0;
            &&& f.len() >= 98 + 2 * count
            &&& f.subrange(84, 88) == be_u32(2 * count)
            &&& f.subrange(96 + 2 * count, 98 + 2 * count) == be_i16(-count)
        }),
{
    lemma_serialized_layer_count(d);
    let count = document_layer_count(d) as int;
    let res = resources_bytes(count as nat);
    let head = header_bytes(d) + be_u32(res.len() as int) + res;
    let body = layer_info_body(d)->Ok_0;
    let info = body + zeros(padding(body.len() as int, 2) as nat);
    let lm = layer_and_mask_bytes(d)->Ok_0;
    let f = file_bytes(d)->Ok_0;
    assert(header_bytes(d).len() == 30);
    assert(res.len() == 54 + 2 * count);
    assert(head.len() == 88 + 2 * count);
    assert(lm == be_u32(info.len() as int + 8) + be_u32(info.len() as int) + info + be_u32(0));
    assert(f == head + lm + preview_bytes(d)->Ok_0);
    assert(body.len() >= 2);
    assert(f.subrange(84, 88) =~= res.subrange(50, 54));
    assert(res.subrange(50, 54) =~= be_u32(2 * count));
    assert(f.subrange(96 + 2 * count, 98 + 2 * count) =~= body.subrange(0, 2));
    assert(body.subrange(0, 2) =~= body.take(2));
}

} // verus!
