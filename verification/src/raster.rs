//! Decoded page images: what the decoder makes of the bytes of an image, held
//! as plain values.

use printpdf::image_crate::{ColorType, DynamicImage};
use vstd::prelude::*;

verus! {

/// How the samples of a decoded image are laid out.
#[derive(Debug, Clone, Copy, PartialEq, Eq, Structural)]
pub enum ColorModel {
    /// 8-bit luminance.
    L8,
    /// 8-bit luminance with alpha.
    La8,
    /// 8-bit red, green, blue.
    Rgb8,
    /// 8-bit red, green, blue with alpha.
    Rgba8,
    /// 16-bit luminance.
    L16,
    /// 16-bit luminance with alpha.
    La16,
    /// 16-bit red, green, blue.
    Rgb16,
    /// 16-bit red, green, blue with alpha.
    Rgba16,
    /// 32-bit floating-point red, green, blue.
    Rgb32F,
    /// 32-bit floating-point red, green, blue with alpha.
    Rgba32F,
    /// A layout that this library does not know.
    Other,
}

/// Whether the samples of layout `model` are 8 bits wide.
pub open spec fn eight_bit(model: ColorModel) -> bool {
    model == ColorModel::L8 || model == ColorModel::La8 || model == ColorModel::Rgb8 || model
        == ColorModel::Rgba8
}

/// A decoded image.
#[derive(Debug)]
pub struct RasterImage {
    /// The samples, row by row. Samples wider than 8 bits lie in the byte
    /// order of the machine that decoded them.
    pub bytes: Vec<u8>,
    pub color: ColorModel,
    pub width_px: u32,
    pub height_px: u32,
}

/// What a decoded image is: its samples, their layout, and its size.
pub struct Raster {
    pub bytes: Seq<u8>,
    pub color: ColorModel,
    pub width_px: u32,
    pub height_px: u32,
}

impl View for RasterImage {
    type V = Raster;

    open spec fn view(&self) -> Raster {
        Raster {
            bytes: self.bytes@,
            color: self.color,
            width_px: self.width_px,
            height_px: self.height_px,
        }
    }
}

/// The decoder made no image of the bytes.
#[derive(Debug, PartialEq, Eq)]
pub struct DecodeError;

/// The decoder's image, `image::DynamicImage` as `printpdf` hands it on: a
/// buffer of samples with its layout and size. Nothing of its inside is
/// known here; the names below stand for what it holds.
#[verifier::external_type_specification]
#[verifier::external_body]
pub struct ExDynamicImage(DynamicImage);

/// The samples that a decoded image holds, as bytes, row by row. Only of an
/// image with 8-bit samples is anything said about them: wider samples lie
/// in memory in the byte order of the machine.
pub uninterp spec fn sample_bytes(image: DynamicImage) -> Seq<u8>;

/// The sample layout of a decoded image.
pub uninterp spec fn color_model(image: DynamicImage) -> ColorModel;

/// The width of a decoded image, in pixels.
pub uninterp spec fn pixel_width(image: DynamicImage) -> u32;

/// The height of a decoded image, in pixels.
pub uninterp spec fn pixel_height(image: DynamicImage) -> u32;

/// `image::load_from_memory`, reached as `printpdf::image_crate`: guesses
/// the format of `data` from its first bytes and decodes it. Nothing is
/// claimed of the outcome, which depends on more than the bytes: a decoder
/// may choose its arithmetic by the machine it runs on, so that the same
/// bytes give other samples elsewhere, and it may fail for want of a worker
/// thread where another run succeeds.
#[verifier::external_body]
fn load_image(data: &[u8]) -> (r: Option<DynamicImage>) {
    printpdf::image_crate::load_from_memory(data).ok()
}

/// `DynamicImage::to_bytes`: a copy of the samples of the image, in the
/// byte order of the machine. Not proved, but claimed: for an image with
/// 8-bit samples, where no byte order enters, they depend on the image
/// alone. Nothing is claimed of the bytes of any other image.
#[verifier::external_body]
#[allow(deprecated)]
fn image_bytes(image: &DynamicImage) -> (r: Vec<u8>)
    ensures
        eight_bit(color_model(*image)) ==> r@ == sample_bytes(*image),
{
    image.to_bytes()
}

/// `DynamicImage::color`: the sample layout of the image, each layout of
/// the decoder under its own name here. Not proved, but claimed: it depends
/// on the image alone.
#[verifier::external_body]
fn image_color(image: &DynamicImage) -> (r: ColorModel)
    ensures
        r == color_model(*image),
{
    match image.color() {
        ColorType::L8 => ColorModel::L8,
        ColorType::La8 => ColorModel::La8,
        ColorType::Rgb8 => ColorModel::Rgb8,
        ColorType::Rgba8 => ColorModel::Rgba8,
        ColorType::L16 => ColorModel::L16,
        ColorType::La16 => ColorModel::La16,
        ColorType::Rgb16 => ColorModel::Rgb16,
        ColorType::Rgba16 => ColorModel::Rgba16,
        ColorType::Rgb32F => ColorModel::Rgb32F,
        ColorType::Rgba32F => ColorModel::Rgba32F,
        _ => ColorModel::Other,
    }
}

/// `DynamicImage::width`. Not proved, but claimed: it depends on the image
/// alone.
#[verifier::external_body]
fn image_width(image: &DynamicImage) -> (r: u32)
    ensures
        r == pixel_width(*image),
{
    image.width()
}

/// `DynamicImage::height`. Not proved, but claimed: it depends on the image
/// alone.
#[verifier::external_body]
fn image_height(image: &DynamicImage) -> (r: u32)
    ensures
        r == pixel_height(*image),
{
    image.height()
}

/// Whether `raster` shows the decoded image `image` in plain values: its
/// layout and its size, and its samples where they are 8 bits wide.
pub open spec fn shows(raster: Raster, image: DynamicImage) -> bool {
    &&& raster.color == color_model(image)
    &&& raster.width_px == pixel_width(image)
    &&& raster.height_px == pixel_height(image)
    &&& eight_bit(raster.color) ==> raster.bytes == sample_bytes(image)
}

/// Decodes the bytes of an image, whatever its format. Which bytes decode,
/// and to which samples, is the decoder's matter and can differ from one
/// machine to the next; what comes back shows an image of the decoder in
/// plain values. What is made of a decoded image is settled where one is
/// taken as an argument.
pub fn decode_raster(data: &[u8]) -> (r: Result<RasterImage, DecodeError>)
    ensures
        r matches Ok(raster) ==> exists|image: DynamicImage| #[trigger] shows(raster@, image),
{
    match load_image(data) {
        Some(image) => {
            let raster = RasterImage {
                bytes: image_bytes(&image),
                color: image_color(&image),
                width_px: image_width(&image),
                height_px: image_height(&image),
            };
            assert(shows(raster@, image));
            Ok(raster)
        },
        None => Err(DecodeError),
    }
}

} // verus!
