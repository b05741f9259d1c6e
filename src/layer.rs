//! Layers: image layers and groups, their records and their channel data.

use vstd::prelude::*;
use crate::blend_mode::{blend_tag, BlendMode};
use crate::channel_type::{channel_type_code, ColorChannelType};
use crate::color_channel::{channel_payload, model_payload, ChannelModel, ColorChannel};
use crate::data::{
    be_i16, be_i32, be_u32, pad, padding, push_bytes, push_i16, push_i32, push_u32, zeros,
};
use crate::error::WriteError;
use crate::image::{deinterleave, image_consistent, is_consistent, plane, Image, Size};
use crate::image_compression::compression_code;
use crate::string::pascal::{name_view, pascal_bytes, pascal_fits};
use crate::string::unicode::{resource_signature, unicode_bytes, unicode_fits};

verus! {

/// A rectangle in document coordinates, by its edges.
#[derive(Debug, Clone, Copy, PartialEq, Eq, Structural)]
pub struct Rect {
    pub top: i32,
    pub left: i32,
    pub bottom: i32,
    pub right: i32,
}

pub open spec fn zero_rect() -> Rect {
    Rect { top: 0, left: 0, bottom: 0, right: 0 }
}

pub open spec fn rect_width(b: Rect) -> int {
    b.right - b.left
}

pub open spec fn rect_height(b: Rect) -> int {
    b.bottom - b.top
}

impl Rect {
    /// The rectangle with every edge at zero.
    pub fn zero() -> (r: Rect)
        ensures
            r == zero_rect(),
    {
        Rect { top: 0, left: 0, bottom: 0, right: 0 }
    }

    /// The rectangle with its top left corner at (`x`, `y`) and the given size.
    pub fn new(x: i32, y: i32, width: i32, height: i32) -> (r: Rect)
        requires
            i32::MIN <= x + width <= i32::MAX,
            i32::MIN <= y + height <= i32::MAX,
        ensures
            r == (Rect { top: y, left: x, bottom: (y + height) as i32, right: (x + width) as i32 }),
    {
        Rect { top: y, left: x, bottom: y + height, right: x + width }
    }
}

/// The type of divider a layer stands for.
#[derive(Debug, Clone, Copy, PartialEq, Eq, Structural)]
pub enum DividerType {
    /// Any other layer.
    Other,
    /// An open folder.
    OpenFolder,
    /// A closed folder.
    ClosedFolder,
    /// A section divider, which marks the end of a group.
    SectionDivider,
}

pub open spec fn divider_code(d: DividerType) -> u32 {
    match d {
        DividerType::Other => 0,
        DividerType::OpenFolder => 1,
        DividerType::ClosedFolder => 2,
        DividerType::SectionDivider => 3,
    }
}

impl DividerType {
    /// Returns the number that stands for the divider type in a file.
    pub fn raw_value(&self) -> (r: u32)
        ensures
            r == divider_code(*self),
    {
        match self {
            DividerType::Other => 0,
            DividerType::OpenFolder => 1,
            DividerType::ClosedFolder => 2,
            DividerType::SectionDivider => 3,
        }
    }
}

/// Information for the group.
pub struct GroupInfo {
    /// The child layers.
    pub layers: Vec<Layer>,
}

impl GroupInfo {
    /// Creates a new group info structure.
    pub fn new(layers: Vec<Layer>) -> (r: Self)
        ensures
            r.layers@ == layers@,
    {
        GroupInfo { layers }
    }
}

/// The type of the layer.
pub enum LayerType {
    /// A standard layer that shows an image.
    Image,
    /// A group layer.
    Group(GroupInfo),
}

/// A layer in a Photoshop document.
pub struct Layer {
    /// The layer type.
    pub layer_type: LayerType,
    /// The bounds of the layer.
    pub bounds: Rect,
    /// The number of channels for the layer.
    pub number_of_channels: i16,
    /// The channels for the layer, filled from the image when first needed.
    pub channels: Vec<ColorChannel>,
    /// The blend mode for the layer.
    pub blend_mode: BlendMode,
    /// The opacity of the layer (from 0 to 255).
    pub opacity: u8,
    /// Whether or not the layer is hidden.
    pub is_hidden: bool,
    /// The layer's name.
    pub name: Option<String>,
    /// The layer image.
    pub image: Option<Image>,
    /// The data for the additional layer information.
    pub additional_layer_information: Option<Vec<u8>>,
    /// The type of divider this layer represents.
    pub divider_type: DividerType,
}

// What a layer writes.

/// The bounds a layer is written with: an image layer with zero bounds takes
/// the document's full extent, when there is a document.
pub open spec fn effective_bounds(l: Layer, document_size: Option<Size>) -> Rect {
    if l.layer_type is Image && l.bounds == zero_rect() && document_size is Some {
        Rect {
            top: 0,
            left: 0,
            bottom: document_size->0.height as i32,
            right: document_size->0.width as i32,
        }
    } else {
        l.bounds
    }
}

/// The number of rows that channels are split into: the bounds' height, or
/// none when the bounds are upside down.
pub open spec fn row_count(b: Rect) -> int {
    if rect_height(b) < 0 {
        0
    } else {
        rect_height(b)
    }
}

/// A transparent image of the bounds' size can stand in for a missing one.
pub open spec fn can_synthesize(b: Rect) -> bool {
    let w = rect_width(b);
    let h = rect_height(b);
    &&& b != zero_rect()
    &&& 0 <= w
    &&& 0 <= h
    &&& 4 * w <= u32::MAX
    &&& 4 * w * h <= usize::MAX
}

/// The red, green, blue and alpha planes of a layer's image, or of a
/// transparent image of the bounds' size when it has none.
pub open spec fn image_planes(l: Layer, b: Rect) -> Result<Seq<Seq<u8>>, WriteError> {
    match l.image {
        Some(img) => if image_consistent(img) {
            Ok(seq![plane(img, 0), plane(img, 1), plane(img, 2), plane(img, 3)])
        } else {
            Err(WriteError::InvalidImage)
        },
        None => if can_synthesize(b) {
            let z = zeros((rect_width(b) * rect_height(b)) as nat);
            Ok(seq![z, z, z, z])
        } else {
            Err(WriteError::InvalidImage)
        },
    }
}

pub open spec fn fresh_channel(t: ColorChannelType, d: Seq<u8>) -> ChannelModel {
    ChannelModel { color_type: t, data: d, cache: None }
}

/// Four empty channels: alpha, red, green, blue.
pub open spec fn empty_channels() -> Seq<ChannelModel> {
    seq![
        fresh_channel(ColorChannelType::Alpha, seq![]),
        fresh_channel(ColorChannelType::Red, seq![]),
        fresh_channel(ColorChannelType::Green, seq![]),
        fresh_channel(ColorChannelType::Blue, seq![]),
    ]
}

/// Channels made from planes, alpha first.
pub open spec fn planes_channels(p: Seq<Seq<u8>>) -> Seq<ChannelModel> {
    seq![
        fresh_channel(ColorChannelType::Alpha, p[3]),
        fresh_channel(ColorChannelType::Red, p[0]),
        fresh_channel(ColorChannelType::Green, p[1]),
        fresh_channel(ColorChannelType::Blue, p[2]),
    ]
}

pub open spec fn channel_models(chs: Seq<ColorChannel>) -> Seq<ChannelModel> {
    chs.map_values(|c: ColorChannel| c@)
}

/// The channels a layer is written with: its own when it has some; four empty
/// ones for a group; else those made from its image.
pub open spec fn layer_channels(l: Layer, b: Rect) -> Result<Seq<ChannelModel>, WriteError> {
    if l.channels@.len() > 0 {
        Ok(channel_models(l.channels@))
    } else if l.layer_type is Group {
        Ok(empty_channels())
    } else {
        match image_planes(l, b) {
            Ok(p) => Ok(planes_channels(p)),
            Err(e) => Err(e),
        }
    }
}

/// The channel entries of a layer record: for each channel its type code and
/// the size of its payload plus the two bytes of its compression code.
pub open spec fn channel_entries(chs: Seq<ChannelModel>, h: int) -> Result<Seq<u8>, WriteError>
    decreases chs.len(),
{
    if chs.len() == 0 {
        Ok(seq![])
    } else {
        match channel_entries(chs.drop_last(), h) {
            Err(e) => Err(e),
            Ok(front) => match model_payload(chs.last(), h) {
                Err(e) => Err(e),
                Ok(p) => if p.1.len() + 2 > u32::MAX {
                    Err(WriteError::WriteFailure)
                } else {
                    Ok(front + be_i16(channel_type_code(chs.last().color_type) as int) + be_u32(
                        p.1.len() as int + 2,
                    ))
                },
            },
        }
    }
}

/// The channel data of a layer: for each channel its compression code, then
/// its payload.
pub open spec fn channel_block(chs: Seq<ChannelModel>, h: int) -> Result<Seq<u8>, WriteError>
    decreases chs.len(),
{
    if chs.len() == 0 {
        Ok(seq![])
    } else {
        match channel_block(chs.drop_last(), h) {
            Err(e) => Err(e),
            Ok(front) => match model_payload(chs.last(), h) {
                Err(e) => Err(e),
                Ok(p) => Ok(front + be_i16(compression_code(p.0) as int) + p.1),
            },
        }
    }
}

pub open spec fn flags_byte(hidden: bool) -> u8 {
    if hidden {
        2
    } else {
        0
    }
}

pub open spec fn additional_bytes(l: Layer) -> Seq<u8> {
    match l.additional_layer_information {
        Some(v) => v@,
        None => seq![],
    }
}

/// The Pascal name, zero-padded to a multiple of four bytes.
pub open spec fn padded_pascal(name: Option<Seq<char>>) -> Seq<u8> {
    pascal_bytes(name) + zeros(padding(pascal_bytes(name).len() as int, 4) as nat)
}

/// The extra data of a layer record: no mask, no blending ranges, the names,
/// and the additional layer information.
pub open spec fn extra_bytes(name: Option<Seq<char>>, additional: Seq<u8>) -> Seq<u8> {
    zeros(8) + padded_pascal(name) + unicode_bytes(name) + additional
}

pub open spec fn extra_data(l: Layer) -> Seq<u8> {
    extra_bytes(name_view(l.name), additional_bytes(l))
}

/// A layer record from its parts: the bounds, the channel count, an entry for
/// each channel, "8BIM", the blend-mode tag, opacity, clipping, flags, filler,
/// then the extra data with its length before it.
pub open spec fn record_bytes(
    b: Rect,
    number_of_channels: i16,
    chs: Seq<ChannelModel>,
    name: Option<Seq<char>>,
    blend_mode: BlendMode,
    opacity: u8,
    is_hidden: bool,
    additional: Seq<u8>,
) -> Result<Seq<u8>, WriteError> {
    let extra = extra_bytes(name, additional);
    match channel_entries(chs, row_count(b)) {
        Err(e) => Err(e),
        Ok(entries) => if !pascal_fits(name) || !unicode_fits(name) || extra.len() > u32::MAX {
            Err(WriteError::WriteFailure)
        } else {
            Ok(be_i32(b.top as int) + be_i32(b.left as int) + be_i32(b.bottom as int) + be_i32(
                b.right as int,
            ) + be_i16(number_of_channels as int) + entries + resource_signature() + blend_tag(
                blend_mode,
            ) + seq![opacity, 0u8, flags_byte(is_hidden), 0u8] + be_u32(extra.len() as int)
                + extra)
        },
    }
}

/// The record of one layer.
pub open spec fn layer_record(l: Layer, document_size: Option<Size>) -> Result<Seq<u8>, WriteError> {
    let b = effective_bounds(l, document_size);
    match layer_channels(l, b) {
        Err(e) => Err(e),
        Ok(chs) => record_bytes(
            b,
            l.number_of_channels,
            chs,
            name_view(l.name),
            l.blend_mode,
            l.opacity,
            l.is_hidden,
            additional_bytes(l),
        ),
    }
}

/// The channel data of one layer.
pub open spec fn layer_image(l: Layer, document_size: Option<Size>) -> Result<Seq<u8>, WriteError> {
    let b = effective_bounds(l, document_size);
    match layer_channels(l, b) {
        Err(e) => Err(e),
        Ok(chs) => channel_block(chs, row_count(b)),
    }
}

/// A byte result that is the spec result `s`.
pub open spec fn bytes_result(r: Result<Vec<u8>, WriteError>, s: Result<Seq<u8>, WriteError>) -> bool {
    match r {
        Ok(v) => s == Ok::<Seq<u8>, WriteError>(v@),
        Err(e) => s == Err::<Seq<u8>, WriteError>(e),
    }
}

/// The channel entries of a layer record.
fn channel_entries_bytes(chs: &Vec<ColorChannel>, h: u32) -> (r: Result<Vec<u8>, WriteError>)
    ensures
        bytes_result(r, channel_entries(channel_models(chs@), h as int)),
{
    let ghost models = channel_models(chs@);
    let mut out: Vec<u8> = Vec::new();
    let mut i: usize = 0;
    proof {
        assert(models.take(0) =~= Seq::<ChannelModel>::empty());
    }
    while i < chs.len()
        invariant
            i <= chs@.len(),
            models == channel_models(chs@),
            channel_entries(models.take(i as int), h as int) == Ok::<Seq<u8>, WriteError>(out@),
        decreases chs@.len() - i,
    {
        proof {
            assert(models.take(i + 1).drop_last() =~= models.take(i as int));
            assert(models.take(i + 1).last() == chs@[i as int]@);
        }
        let payload = chs[i].payload(h);
        match payload {
            Err(e) => {
                proof {
                    lemma_entries_error_sticks(models, h as int, i as nat + 1);
                    assert(models.take(chs@.len() as int) =~= models);
                }
                return Err(e);
            },
            Ok(p) => {
                let size = p.data.len();
                if size > 0xFFFF_FFFD {
                    proof {
                        lemma_entries_error_sticks(models, h as int, i as nat + 1);
                        assert(models.take(chs@.len() as int) =~= models);
                    }
                    return Err(WriteError::WriteFailure);
                }
                push_i16(&mut out, chs[i].color_type.raw_value());
                push_u32(&mut out, (size + 2) as u32);
            },
        }
        i = i + 1;
    }
    proof {
        assert(models.take(chs@.len() as int) =~= models);
    }
    Ok(out)
}

/// Once the entries of the first `k` channels fail, the entries of every longer
/// prefix fail the same way.
proof fn lemma_entries_error_sticks(models: Seq<ChannelModel>, h: int, k: nat)
    requires
        k <= models.len(),
        channel_entries(models.take(k as int), h) is Err,
    ensures
        channel_entries(models, h) == channel_entries(models.take(k as int), h),
    decreases models.len() - k,
{
    if k < models.len() {
        assert(models.take(k as int + 1).drop_last() =~= models.take(k as int));
        lemma_entries_error_sticks(models, h, (k + 1) as nat);
    } else {
        assert(models.take(k as int) =~= models);
    }
}

/// Once the data of the first `k` channels fails, the data of every longer
/// prefix fails the same way.
proof fn lemma_block_error_sticks(models: Seq<ChannelModel>, h: int, k: nat)
    requires
        k <= models.len(),
        channel_block(models.take(k as int), h) is Err,
    ensures
        channel_block(models, h) == channel_block(models.take(k as int), h),
    decreases models.len() - k,
{
    if k < models.len() {
        assert(models.take(k as int + 1).drop_last() =~= models.take(k as int));
        lemma_block_error_sticks(models, h, (k + 1) as nat);
    } else {
        assert(models.take(k as int) =~= models);
    }
}

/// The channel data of a layer: for each channel its compression code and payload.
fn channel_block_bytes(chs: &Vec<ColorChannel>, h: u32) -> (r: Result<Vec<u8>, WriteError>)
    ensures
        bytes_result(r, channel_block(channel_models(chs@), h as int)),
{
    let ghost models = channel_models(chs@);
    let mut out: Vec<u8> = Vec::new();
    let mut i: usize = 0;
    proof {
        assert(models.take(0) =~= Seq::<ChannelModel>::empty());
    }
    while i < chs.len()
        invariant
            i <= chs@.len(),
            models == channel_models(chs@),
            channel_block(models.take(i as int), h as int) == Ok::<Seq<u8>, WriteError>(out@),
        decreases chs@.len() - i,
    {
        proof {
            assert(models.take(i + 1).drop_last() =~= models.take(i as int));
            assert(models.take(i + 1).last() == chs@[i as int]@);
        }
        let payload = chs[i].payload(h);
        match payload {
            Err(e) => {
                proof {
                    lemma_block_error_sticks(models, h as int, i as nat + 1);
                    assert(models.take(chs@.len() as int) =~= models);
                }
                return Err(e);
            },
            Ok(p) => {
                push_i16(&mut out, p.compression.raw_value());
                push_bytes(&mut out, p.data.as_slice());
            },
        }
        i = i + 1;
    }
    proof {
        assert(models.take(chs@.len() as int) =~= models);
    }
    Ok(out)
}

/// Four empty channels: alpha, red, green, blue.
fn empty_channel_list() -> (r: Vec<ColorChannel>)
    ensures
        channel_models(r@) == empty_channels(),
        forall|i: int| 0 <= i < r@.len() ==> (#[trigger] r@[i]).data_length == 0,
{
    let r = vec![
        ColorChannel::new(ColorChannelType::Alpha, 0),
        ColorChannel::new(ColorChannelType::Red, 0),
        ColorChannel::new(ColorChannelType::Green, 0),
        ColorChannel::new(ColorChannelType::Blue, 0),
    ];
    assert(channel_models(r@) =~= empty_channels()) by {
        assert(Seq::new(0, |_i: int| 0u8) =~= Seq::<u8>::empty());
    }
    r
}

/// Channels made from planes, alpha first.
fn channels_from_planes(red: Vec<u8>, green: Vec<u8>, blue: Vec<u8>, alpha: Vec<u8>) -> (r: Vec<ColorChannel>)
    ensures
        channel_models(r@) == planes_channels(seq![red@, green@, blue@, alpha@]),
{
    let ghost p = seq![red@, green@, blue@, alpha@];
    let r = vec![
        ColorChannel { data_length: alpha.len(), color_type: ColorChannelType::Alpha, data: alpha, compressed_data: None },
        ColorChannel { data_length: red.len(), color_type: ColorChannelType::Red, data: red, compressed_data: None },
        ColorChannel { data_length: green.len(), color_type: ColorChannelType::Green, data: green, compressed_data: None },
        ColorChannel { data_length: blue.len(), color_type: ColorChannelType::Blue, data: blue, compressed_data: None },
    ];
    assert(channel_models(r@) =~= planes_channels(p));
    r
}

impl Layer {
    /// The bounds the layer is written with.
    fn effective_bounds_in(&self, document_size: Option<Size>) -> (r: Rect)
        ensures
            r == effective_bounds(*self, document_size),
    {
        let is_image = match self.layer_type {
            LayerType::Image => true,
            LayerType::Group(_) => false,
        };
        match document_size {
            Some(size) => if is_image && self.bounds == Rect::zero() {
                Rect { top: 0, left: 0, bottom: size.height as i32, right: size.width as i32 }
            } else {
                self.bounds
            },
            None => self.bounds,
        }
    }

    /// The planes of the layer's image, or of a transparent image of the
    /// bounds' size when it has none, as channels, alpha first.
    fn channels_from_image(&self, b: Rect) -> (r: Result<Vec<ColorChannel>, WriteError>)
        ensures
            match r {
                Ok(v) => image_planes(*self, b) matches Ok(p) && channel_models(v@) == planes_channels(p),
                Err(e) => image_planes(*self, b) == Err::<Seq<Seq<u8>>, WriteError>(e),
            },
    {
        match &self.image {
            Some(image) => {
                if !is_consistent(image) {
                    return Err(WriteError::InvalidImage);
                }
                let (red, green, blue, alpha) = deinterleave(image);
                Ok(channels_from_planes(red, green, blue, alpha))
            },
            None => {
                let width = b.right as i64 - b.left as i64;
                let height = b.bottom as i64 - b.top as i64;
                if b == Rect::zero() || width < 0 || height < 0 || width > 0x3FFF_FFFF {
                    return Err(WriteError::InvalidImage);
                }
                let size = Size { width: width as u32, height: height as u32 };
                let w4: u128 = 4 * (width as u128);
                let h128: u128 = height as u128;
                assert(w4 * h128 <= 0x4_0000_0000u128 * 0x1_0000_0000u128) by (nonlinear_arith)
                    requires
                        w4 <= 0x4_0000_0000u128,
                        h128 <= 0x1_0000_0000u128;
                if w4 * h128 > usize::MAX as u128 {
                    return Err(WriteError::InvalidImage);
                }
                let image = Image::empty(size);
                let (red, green, blue, alpha) = deinterleave(&image);
                proof {
                    let zs = Seq::new((size.width * size.height) as nat, |_i: int| 0u8);
                    crate::image::lemma_plane_of_zeros(image, 0);
                    crate::image::lemma_plane_of_zeros(image, 1);
                    crate::image::lemma_plane_of_zeros(image, 2);
                    crate::image::lemma_plane_of_zeros(image, 3);
                    assert(zs =~= zeros((rect_width(b) * rect_height(b)) as nat));
                }
                Ok(channels_from_planes(red, green, blue, alpha))
            },
        }
    }

    /// The channels the layer is written with.
    fn written_channels(&self, b: Rect) -> (r: Result<Vec<ColorChannel>, WriteError>)
        ensures
            match r {
                Ok(v) => layer_channels(*self, b) == Ok::<Seq<ChannelModel>, WriteError>(
                    channel_models(v@),
                ),
                Err(e) => layer_channels(*self, b) == Err::<Seq<ChannelModel>, WriteError>(e),
            },
    {
        if self.channels.len() > 0 {
            let mut copy: Vec<ColorChannel> = Vec::new();
            let mut i: usize = 0;
            while i < self.channels.len()
                invariant
                    i <= self.channels@.len(),
                    copy@.len() == i,
                    forall|j: int| 0 <= j < i ==> (#[trigger] copy@[j])@ == self.channels@[j]@,
                decreases self.channels@.len() - i,
            {
                copy.push(self.channels[i].duplicate());
                i = i + 1;
            }
            assert(channel_models(copy@) =~= channel_models(self.channels@));
            return Ok(copy);
        }
        match self.layer_type {
            LayerType::Group(_) => Ok(empty_channel_list()),
            LayerType::Image => self.channels_from_image(b),
        }
    }

    /// The extra data of the layer's record.
    fn extra_data_in(&self) -> (r: Result<Vec<u8>, WriteError>)
        ensures
            match r {
                Ok(v) => pascal_fits(name_view(self.name)) && unicode_fits(name_view(self.name))
                    && v@ == extra_data(*self),
                Err(e) => !(pascal_fits(name_view(self.name)) && unicode_fits(name_view(self.name)))
                    && e == WriteError::WriteFailure,
            },
    {
        let name: Option<&String> = match &self.name {
            Some(s) => Some(s),
            None => None,
        };
        let mut pascal_name = crate::string::pascal::data_from_string(name)?;
        pad(&mut pascal_name, 4);
        let unicode_name = crate::string::unicode::data_from_string(name)?;
        // Layer mask data and blending ranges: neither is present.
        let mut extra: Vec<u8> = Vec::new();
        push_u32(&mut extra, 0);
        push_u32(&mut extra, 0);
        push_bytes(&mut extra, pascal_name.as_slice());
        push_bytes(&mut extra, unicode_name.as_slice());
        match &self.additional_layer_information {
            Some(info) => push_bytes(&mut extra, info.as_slice()),
            None => {},
        }
        proof {
            assert(zeros(8) =~= be_u32(0) + be_u32(0));
            assert(extra@ =~= extra_data(*self));
        }
        Ok(extra)
    }

    /// Returns the data for the layer record, the layer being written into a
    /// document of the given size, if any.
    pub fn layer_record_data_in(&self, document_size: Option<Size>) -> (r: Result<Vec<u8>, WriteError>)
        ensures
            bytes_result(r, layer_record(*self, document_size)),
    {
        let b = self.effective_bounds_in(document_size);
        let rows = row_count_of(b);
        let channels = self.written_channels(b)?;
        let entries = channel_entries_bytes(&channels, rows)?;
        let extra = self.extra_data_in()?;
        if extra.len() > 0xFFFF_FFFF {
            return Err(WriteError::WriteFailure);
        }
        let out = record_from_parts(
            b,
            self.number_of_channels,
            entries.as_slice(),
            self.blend_mode,
            self.opacity,
            self.is_hidden,
            extra.as_slice(),
        );
        Ok(out)
    }

    /// Returns the channel data of this layer alone, the layer being written
    /// into a document of the given size, if any.
    pub fn layer_encoded_image_in(&self, document_size: Option<Size>) -> (r: Result<Vec<u8>, WriteError>)
        ensures
            bytes_result(r, layer_image(*self, document_size)),
    {
        let b = self.effective_bounds_in(document_size);
        let rows = row_count_of(b);
        let channels = self.written_channels(b)?;
        channel_block_bytes(&channels, rows)
    }
}

/// A layer record from its parts.
fn record_from_parts(
    b: Rect,
    number_of_channels: i16,
    entries: &[u8],
    blend_mode: BlendMode,
    opacity: u8,
    is_hidden: bool,
    extra: &[u8],
) -> (r: Vec<u8>)
    requires
        extra@.len() <= u32::MAX,
    ensures
        r@ == be_i32(b.top as int) + be_i32(b.left as int) + be_i32(b.bottom as int) + be_i32(
            b.right as int,
        ) + be_i16(number_of_channels as int) + entries@ + resource_signature() + blend_tag(
            blend_mode,
        ) + seq![opacity, 0u8, flags_byte(is_hidden), 0u8] + be_u32(extra@.len() as int) + extra@,
{
    let mut out: Vec<u8> = Vec::new();
    push_i32(&mut out, b.top);
    push_i32(&mut out, b.left);
    push_i32(&mut out, b.bottom);
    push_i32(&mut out, b.right);
    push_i16(&mut out, number_of_channels);
    push_bytes(&mut out, entries);
    let signature: Vec<u8> = vec![0x38u8, 0x42u8, 0x49u8, 0x4du8];
    push_bytes(&mut out, signature.as_slice());
    let tag = blend_mode.tag_bytes();
    push_bytes(&mut out, tag.as_slice());
    out.push(opacity);
    // Clipping.
    out.push(0);
    // Flags: bit 1 marks a hidden layer.
    out.push(if is_hidden { 2u8 } else { 0u8 });
    // Filler.
    out.push(0);
    push_u32(&mut out, extra.len() as u32);
    push_bytes(&mut out, extra);
    assert(signature@ =~= resource_signature());
    assert(out@ =~= be_i32(b.top as int) + be_i32(b.left as int) + be_i32(b.bottom as int) + be_i32(
        b.right as int,
    ) + be_i16(number_of_channels as int) + entries@ + resource_signature() + blend_tag(blend_mode)
        + seq![opacity, 0u8, flags_byte(is_hidden), 0u8] + be_u32(extra@.len() as int) + extra@);
    out
}

/// The number of rows that channels are split into.
fn row_count_of(b: Rect) -> (r: u32)
    ensures
        r == row_count(b),
{
    let h = b.bottom as i64 - b.top as i64;
    if h < 0 {
        0
    } else {
        h as u32
    }
}


// Groups.

/// The name of the layer that closes a group.
pub open spec fn group_marker_name() -> Seq<char> {
    "</Layer group>"@
}

/// The additional layer information of a group marker: "8BIM", "lsct", the
/// length 4, and the section-divider type 3 (end of section).
pub open spec fn section_divider_bytes() -> Seq<u8> {
    resource_signature() + seq![0x6cu8, 0x73u8, 0x63u8, 0x74u8] + be_u32(4) + be_u32(
        divider_code(DividerType::SectionDivider) as int,
    )
}

/// `m` is a layer that closes a group: zero bounds, four empty channels
/// (alpha, red, green, blue) that declare a length of zero, the name "</Layer group>", and the
/// section-divider information.
pub open spec fn is_group_marker(m: Layer) -> bool {
    &&& m.layer_type is Image
    &&& m.bounds == zero_rect()
    &&& m.number_of_channels == 4
    &&& channel_models(m.channels@) == empty_channels()
    &&& forall|i: int| 0 <= i < m.channels@.len() ==> (#[trigger] m.channels@[i]).data_length == 0
    &&& m.blend_mode == BlendMode::Normal
    &&& m.opacity == 255
    &&& !m.is_hidden
    &&& m.name matches Some(s) && s@ == group_marker_name()
    &&& m.image is None
    &&& m.additional_layer_information matches Some(v) && v@ == section_divider_bytes()
}

/// The record of the layer that closes a group.
pub open spec fn marker_record() -> Result<Seq<u8>, WriteError> {
    record_bytes(
        zero_rect(),
        4,
        empty_channels(),
        Some(group_marker_name()),
        BlendMode::Normal,
        255,
        false,
        section_divider_bytes(),
    )
}

/// The channel data of the layer that closes a group.
pub open spec fn marker_image() -> Result<Seq<u8>, WriteError> {
    channel_block(empty_channels(), 0)
}

/// Every group marker writes the marker record and the marker's channel data.
pub proof fn lemma_group_marker_writes(m: Layer)
    requires
        is_group_marker(m),
    ensures
        layer_record(m, None) == marker_record(),
        layer_image(m, None) == marker_image(),
{
    assert(name_view(m.name) == Some(group_marker_name()));
    assert(additional_bytes(m) == section_divider_bytes());
}

/// Both results, one after the other; the first error if there is one.
pub open spec fn join(a: Result<Seq<u8>, WriteError>, b: Result<Seq<u8>, WriteError>) -> Result<Seq<u8>, WriteError> {
    match a {
        Err(e) => Err(e),
        Ok(x) => match b {
            Err(e) => Err(e),
            Ok(y) => Ok(x + y),
        },
    }
}

/// The records of a layer: for a group, the marker's record, the records of
/// its children, then the group's own record.
pub open spec fn layer_records(l: Layer, document_size: Option<Size>) -> Result<Seq<u8>, WriteError>
    decreases l, 0nat,
{
    match l.layer_type {
        LayerType::Image => layer_record(l, document_size),
        LayerType::Group(g) => join(
            join(marker_record(), list_records(g.layers@, g.layers@.len(), document_size)),
            layer_record(l, document_size),
        ),
    }
}

/// The records of the first `k` layers of a list, one after the other.
pub open spec fn list_records(ls: Seq<Layer>, k: nat, document_size: Option<Size>) -> Result<Seq<u8>, WriteError>
    decreases ls, k,
{
    if k == 0 || k > ls.len() {
        Ok(seq![])
    } else {
        join(list_records(ls, (k - 1) as nat, document_size), layer_records(ls[k - 1], document_size))
    }
}

/// The channel data of a layer: for a group, the marker's, its children's,
/// then the group's own.
pub open spec fn layer_images(l: Layer, document_size: Option<Size>) -> Result<Seq<u8>, WriteError>
    decreases l, 0nat,
{
    match l.layer_type {
        LayerType::Image => layer_image(l, document_size),
        LayerType::Group(g) => join(
            join(marker_image(), list_images(g.layers@, g.layers@.len(), document_size)),
            layer_image(l, document_size),
        ),
    }
}

/// The channel data of the first `k` layers of a list, one after the other.
pub open spec fn list_images(ls: Seq<Layer>, k: nat, document_size: Option<Size>) -> Result<Seq<u8>, WriteError>
    decreases ls, k,
{
    if k == 0 || k > ls.len() {
        Ok(seq![])
    } else {
        join(list_images(ls, (k - 1) as nat, document_size), layer_images(ls[k - 1], document_size))
    }
}

proof fn lemma_list_records_error_sticks(ls: Seq<Layer>, k: nat, n: nat, p: Option<Size>)
    requires
        k <= n <= ls.len(),
        list_records(ls, k, p) is Err,
    ensures
        list_records(ls, n, p) == list_records(ls, k, p),
    decreases n - k,
{
    if k < n {
        lemma_list_records_error_sticks(ls, k, (n - 1) as nat, p);
    }
}

proof fn lemma_list_images_error_sticks(ls: Seq<Layer>, k: nat, n: nat, p: Option<Size>)
    requires
        k <= n <= ls.len(),
        list_images(ls, k, p) is Err,
    ensures
        list_images(ls, n, p) == list_images(ls, k, p),
    decreases n - k,
{
    if k < n {
        lemma_list_images_error_sticks(ls, k, (n - 1) as nat, p);
    }
}

impl Layer {
    /// Creates a new Photoshop document layer.
    pub fn new(bounds: Rect) -> (r: Self)
        ensures
            r.layer_type is Image,
            r.bounds == bounds,
            r.number_of_channels == 4,
            r.channels@.len() == 0,
            r.blend_mode == BlendMode::Normal,
            r.opacity == 255,
            !r.is_hidden,
            r.name is None,
            r.image is None,
            r.additional_layer_information is None,
            r.divider_type == DividerType::Other,
    {
        Layer {
            layer_type: LayerType::Image,
            bounds,
            number_of_channels: 4,
            channels: Vec::new(),
            blend_mode: BlendMode::Normal,
            opacity: 255,
            is_hidden: false,
            name: None,
            image: None,
            additional_layer_information: None,
            divider_type: DividerType::Other,
        }
    }

    /// Creates a new Photoshop group layer.
    pub fn group(child_layers: Vec<Layer>, is_open: bool) -> (r: Self)
        ensures
            r.layer_type matches LayerType::Group(g) && g.layers@ == child_layers@,
            r.bounds == zero_rect(),
            r.number_of_channels == 4,
            r.channels@.len() == 0,
            r.blend_mode == BlendMode::Normal,
            r.opacity == 255,
            !r.is_hidden,
            r.name is None,
            r.image is None,
            r.additional_layer_information is None,
            r.divider_type == (if is_open {
                DividerType::OpenFolder
            } else {
                DividerType::ClosedFolder
            }),
    {
        let divider_type = if is_open {
            DividerType::OpenFolder
        } else {
            DividerType::ClosedFolder
        };
        Layer {
            layer_type: LayerType::Group(GroupInfo::new(child_layers)),
            bounds: Rect::zero(),
            number_of_channels: 4,
            channels: Vec::new(),
            blend_mode: BlendMode::Normal,
            opacity: 255,
            is_hidden: false,
            name: None,
            image: None,
            additional_layer_information: None,
            divider_type,
        }
    }

    /// Creates a group marker layer: the layer that closes a group.
    pub fn group_marker() -> (r: Result<Self, WriteError>)
        ensures
            r matches Ok(m) && is_group_marker(m),
    {
        let mut layer = Layer::new(Rect::zero());
        layer.channels = empty_channel_list();
        layer.name = Some("</Layer group>".to_owned());
        let mut info: Vec<u8> = vec![0x38u8, 0x42u8, 0x49u8, 0x4du8, 0x6cu8, 0x73u8, 0x63u8, 0x74u8];
        push_u32(&mut info, 4);
        push_u32(&mut info, DividerType::SectionDivider.raw_value());
        assert(info@ =~= section_divider_bytes());
        layer.additional_layer_information = Some(info);
        Ok(layer)
    }

    /// Returns the records of the layer (for a group, the marker's, the
    /// children's, then its own), the layer being written into a document of
    /// the given size, if any.
    pub fn record_data_in(&self, document_size: Option<Size>) -> (r: Result<Vec<u8>, WriteError>)
        ensures
            bytes_result(r, layer_records(*self, document_size)),
        decreases self, 1nat,
    {
        match &self.layer_type {
            LayerType::Image => self.layer_record_data_in(document_size),
            LayerType::Group(group) => {
                let marker = match Layer::group_marker() {
                    Ok(m) => m,
                    Err(e) => {
                        return Err(e);
                    },
                };
                proof {
                    lemma_group_marker_writes(marker);
                }
                let mut out = marker.layer_record_data_in(None)?;
                let children = list_record_data(&group.layers, document_size)?;
                push_bytes(&mut out, children.as_slice());
                let own = self.layer_record_data_in(document_size)?;
                push_bytes(&mut out, own.as_slice());
                Ok(out)
            },
        }
    }

    /// Returns the channel data of the layer (for a group, the marker's, the
    /// children's, then its own), the layer being written into a document of
    /// the given size, if any.
    pub fn encoded_image_in(&self, document_size: Option<Size>) -> (r: Result<Vec<u8>, WriteError>)
        ensures
            bytes_result(r, layer_images(*self, document_size)),
        decreases self, 1nat,
    {
        match &self.layer_type {
            LayerType::Image => self.layer_encoded_image_in(document_size),
            LayerType::Group(group) => {
                let marker = match Layer::group_marker() {
                    Ok(m) => m,
                    Err(e) => {
                        return Err(e);
                    },
                };
                proof {
                    lemma_group_marker_writes(marker);
                }
                let mut out = marker.layer_encoded_image_in(None)?;
                let children = list_image_data(&group.layers, document_size)?;
                push_bytes(&mut out, children.as_slice());
                let own = self.layer_encoded_image_in(document_size)?;
                push_bytes(&mut out, own.as_slice());
                Ok(out)
            },
        }
    }
}

/// The records of a list of layers, one after the other.
pub fn list_record_data(layers: &Vec<Layer>, document_size: Option<Size>) -> (r: Result<Vec<u8>, WriteError>)
    ensures
        bytes_result(r, list_records(layers@, layers@.len(), document_size)),
    decreases layers, 0nat,
{
    let ghost ls = layers@;
    let mut out: Vec<u8> = Vec::new();
    let mut i: usize = 0;
    while i < layers.len()
        invariant
            i <= ls.len(),
            ls == layers@,
            list_records(ls, i as nat, document_size) == Ok::<Seq<u8>, WriteError>(out@),
        decreases ls.len() - i,
    {
        proof {
            assert(decreases_to!(layers => layers[i as int]));
        }
        let child = layers[i].record_data_in(document_size);
        match child {
            Err(e) => {
                proof {
                    lemma_list_records_error_sticks(ls, (i + 1) as nat, ls.len(), document_size);
                }
                return Err(e);
            },
            Ok(bytes) => {
                push_bytes(&mut out, bytes.as_slice());
            },
        }
        i = i + 1;
    }
    Ok(out)
}

/// The channel data of a list of layers, one after the other.
pub fn list_image_data(layers: &Vec<Layer>, document_size: Option<Size>) -> (r: Result<Vec<u8>, WriteError>)
    ensures
        bytes_result(r, list_images(layers@, layers@.len(), document_size)),
    decreases layers, 0nat,
{
    let ghost ls = layers@;
    let mut out: Vec<u8> = Vec::new();
    let mut i: usize = 0;
    while i < layers.len()
        invariant
            i <= ls.len(),
            ls == layers@,
            list_images(ls, i as nat, document_size) == Ok::<Seq<u8>, WriteError>(out@),
        decreases ls.len() - i,
    {
        proof {
            assert(decreases_to!(layers => layers[i as int]));
        }
        let child = layers[i].encoded_image_in(document_size);
        match child {
            Err(e) => {
                proof {
                    lemma_list_images_error_sticks(ls, (i + 1) as nat, ls.len(), document_size);
                }
                return Err(e);
            },
            Ok(bytes) => {
                push_bytes(&mut out, bytes.as_slice());
            },
        }
        i = i + 1;
    }
    Ok(out)
}

/// Two layers that differ at most in their channels and their image.
pub open spec fn same_but_channels(a: Layer, b: Layer) -> bool {
    &&& a.layer_type == b.layer_type
    &&& a.bounds == b.bounds
    &&& a.number_of_channels == b.number_of_channels
    &&& a.blend_mode == b.blend_mode
    &&& a.opacity == b.opacity
    &&& a.is_hidden == b.is_hidden
    &&& a.name == b.name
    &&& a.additional_layer_information == b.additional_layer_information
    &&& a.divider_type == b.divider_type
}

/// An image layer without channels has them filled from its image, when that
/// can be done; other layers keep theirs.
pub open spec fn channels_filled(before: Layer, after: Layer) -> bool {
    &&& same_but_channels(before, after)
    &&& if before.layer_type is Image && before.channels@.len() == 0 && layer_channels(before, before.bounds) is Ok {
        layer_channels(before, before.bounds) == Ok::<Seq<ChannelModel>, WriteError>(channel_models(after.channels@))
    } else {
        after.channels == before.channels && after.image == before.image
    }
}

/// An image layer whose channels were filled from its image writes what it
/// wrote before.
proof fn lemma_filled_layer_writes(a: Layer, b: Layer)
    requires
        a.layer_type is Image,
        same_but_channels(a, b),
        layer_channels(a, a.bounds) == layer_channels(b, b.bounds),
    ensures
        layer_records(a, None) == layer_records(b, None),
        layer_images(a, None) == layer_images(b, None),
{
    assert(extra_data(a) == extra_data(b));
}

impl Layer {
    /// Fills the channels from the layer's image, alpha first; a layer
    /// without an image but with non-zero bounds first gets a transparent
    /// image of the bounds' size. Groups have no image and are left as they are.
    pub fn update_channel_data(&mut self) -> (r: Result<(), WriteError>)
        ensures
            old(self).layer_type is Group ==> r is Ok && *final(self) == *old(self),
            old(self).layer_type is Image ==> match r {
                Ok(_) => {
                    &&& image_planes(*old(self), old(self).bounds) matches Ok(p)
                        && channel_models(final(self).channels@) == planes_channels(p)
                    &&& same_but_channels(*old(self), *final(self))
                    &&& old(self).image is Some ==> final(self).image == old(self).image
                    &&& old(self).image is None ==> (final(self).image matches Some(img) && img.size
                        == (Size {
                        width: rect_width(old(self).bounds) as u32,
                        height: rect_height(old(self).bounds) as u32,
                    }) && img.bytes_per_row == 4 * rect_width(old(self).bounds) && img.data@ == zeros(
                        (4 * rect_width(old(self).bounds) * rect_height(old(self).bounds)) as nat,
                    ))
                },
                Err(e) => image_planes(*old(self), old(self).bounds) == Err::<Seq<Seq<u8>>, WriteError>(e)
                    && *final(self) == *old(self),
            },
    {
        match self.layer_type {
            LayerType::Group(_) => {
                return Ok(());
            },
            LayerType::Image => {},
        }
        let b = self.bounds;
        let channels = self.channels_from_image(b)?;
        if self.image.is_none() {
            // Some readers cannot open a layer without pixels: a transparent
            // image of the layer's size stands in for it.
            let width = b.right as i64 - b.left as i64;
            let height = b.bottom as i64 - b.top as i64;
            let image = Image::empty(Size { width: width as u32, height: height as u32 });
            proof {
                assert(image.data@ =~= zeros((4 * rect_width(b) * rect_height(b)) as nat));
            }
            self.image = Some(image);
        }
        self.channels = channels;
        Ok(())
    }

    /// Returns the image encoded per channel (for a group, the marker's, the
    /// children's, then its own). An image layer without channels fills them first.
    pub fn encoded_image(&mut self) -> (r: Result<Vec<u8>, WriteError>)
        ensures
            bytes_result(r, layer_images(*old(self), None)),
            channels_filled(*old(self), *final(self)),
            layer_images(*final(self), None) == layer_images(*old(self), None),
            layer_records(*final(self), None) == layer_records(*old(self), None),
    {
        self.fill_channels()?;
        self.encoded_image_in(None)
    }

    /// Returns the records of the layer (for a group, the marker's, the
    /// children's, then its own). An image layer without channels fills them first.
    pub fn record_data(&mut self) -> (r: Result<Vec<u8>, WriteError>)
        ensures
            bytes_result(r, layer_records(*old(self), None)),
            channels_filled(*old(self), *final(self)),
            layer_images(*final(self), None) == layer_images(*old(self), None),
            layer_records(*final(self), None) == layer_records(*old(self), None),
    {
        self.fill_channels()?;
        self.record_data_in(None)
    }

    /// Fills the channels of an image layer that has none.
    fn fill_channels(&mut self) -> (r: Result<(), WriteError>)
        ensures
            channels_filled(*old(self), *final(self)),
            layer_images(*final(self), None) == layer_images(*old(self), None),
            layer_records(*final(self), None) == layer_records(*old(self), None),
            match r {
                Ok(_) => true,
                Err(e) => layer_images(*old(self), None) == Err::<Seq<u8>, WriteError>(e)
                    && layer_records(*old(self), None) == Err::<Seq<u8>, WriteError>(e),
            },
    {
        let is_image = match self.layer_type {
            LayerType::Image => true,
            LayerType::Group(_) => false,
        };
        if is_image && self.channels.len() == 0 {
            let ghost before = *self;
            self.update_channel_data()?;
            proof {
                assert(self.channels@.len() == 4);
                lemma_filled_layer_writes(before, *self);
            }
        }
        Ok(())
    }
}

/// A group writes one marker record, which ends with the section divider
/// "8BIM lsct" 4 3, then its children's records, then one record of its own.
pub proof fn lemma_group_symmetry(g: Layer, document_size: Option<Size>)
    requires
        g.layer_type is Group,
        layer_records(g, document_size) is Ok,
    ensures
        ({
            let children = g.layer_type->Group_0.layers@;
            &&& marker_record() matches Ok(m) && m.len() >= 16 && m.subrange(m.len() - 16, m.len() as int)
                == section_divider_bytes()
            &&& list_records(children, children.len(), document_size) is Ok
            &&& layer_record(g, document_size) is Ok
            &&& layer_records(g, document_size)->Ok_0 == marker_record()->Ok_0 + list_records(
                children,
                children.len(),
                document_size,
            )->Ok_0 + layer_record(g, document_size)->Ok_0
        }),
{
    let m = marker_record()->Ok_0;
    let extra = extra_bytes(Some(group_marker_name()), section_divider_bytes());
    assert(m.len() >= 16);
    assert(m.subrange(m.len() - 16, m.len() as int) =~= section_divider_bytes()) by {
        assert(m == m.subrange(0, m.len() - extra.len()) + extra);
        assert(extra.subrange(extra.len() - 16, extra.len() as int) =~= section_divider_bytes());
    }
}

} // verus!
