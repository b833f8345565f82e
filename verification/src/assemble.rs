//! Page assembly: from decoded images to the sheets of a document, one sheet
//! per image, each sized by its own image.

use crate::catalog::texts;
use crate::raster::{decode_raster, ColorModel, Raster, RasterImage};
use vstd::prelude::*;

verus! {

/// The length units in one millimetre. Lengths are whole numbers of these
/// units, so that the conversion constant below is exact.
pub const UNITS_PER_MM: u64 = 10_000_000;

/// Length units per pixel: 0.2645833 mm, the width of a pixel at 96 to the
/// inch. A calibration value, tied to the rendering of the document format.
pub const PX_TO_MM_FACTOR: u32 = 2_645_833;

/// The scale at which an image is drawn, in thousandths: 3.125. Found by
/// trial against one rendering stack; without it images come out far smaller
/// than their sheets. To be calibrated again for any other stack.
pub const PAGE_SCALE_FACTOR: u32 = 3_125;

/// The resolution at which images are placed, in dots per inch.
pub const PLACEMENT_DPI: u32 = 300;

/// The two calibration values of page geometry.
#[derive(Debug, Clone, Copy, PartialEq, Eq, Structural)]
pub struct Calibration {
    /// Length units per pixel.
    pub units_per_px: u32,
    /// The drawing scale of images, in thousandths.
    pub scale_per_mille: u32,
}

impl Calibration {
    /// The calibration that this library was tuned with.
    pub fn standard() -> (c: Calibration)
        ensures
            c.units_per_px == PX_TO_MM_FACTOR,
            c.scale_per_mille == PAGE_SCALE_FACTOR,
    {
        Calibration { units_per_px: PX_TO_MM_FACTOR, scale_per_mille: PAGE_SCALE_FACTOR }
    }
}

/// The color spaces of the document format.
#[derive(Debug, Clone, Copy, PartialEq, Eq, Structural)]
pub enum ColorSpace {
    Rgb,
    Rgba,
    Palette,
    Cmyk,
    Greyscale,
    GreyscaleAlpha,
}

/// The sample widths of the document format.
#[derive(Debug, Clone, Copy, PartialEq, Eq, Structural)]
pub enum ColorBits {
    Bit1,
    Bit8,
    Bit16,
}

/// The document format has no color space for this sample layout.
#[derive(Debug, Clone, Copy, PartialEq, Eq, Structural)]
pub struct UnsupportedColorModelError {
    pub model: ColorModel,
}

/// The color space that holds samples of layout `model`, if there is one.
pub open spec fn color_space_of(model: ColorModel) -> Option<ColorSpace> {
    match model {
        ColorModel::L8 | ColorModel::L16 => Some(ColorSpace::Greyscale),
        ColorModel::La8 | ColorModel::La16 => Some(ColorSpace::GreyscaleAlpha),
        ColorModel::Rgb8 | ColorModel::Rgb16 => Some(ColorSpace::Rgb),
        ColorModel::Rgba8 | ColorModel::Rgba16 => Some(ColorSpace::Rgba),
        ColorModel::Rgb32F | ColorModel::Rgba32F | ColorModel::Other => None,
    }
}

/// The sample width of layout `model`, if the document format has it.
pub open spec fn color_bits_of(model: ColorModel) -> Option<ColorBits> {
    match model {
        ColorModel::L8 | ColorModel::La8 | ColorModel::Rgb8 | ColorModel::Rgba8 => Some(
            ColorBits::Bit8,
        ),
        ColorModel::L16 | ColorModel::La16 | ColorModel::Rgb16 | ColorModel::Rgba16 => Some(
            ColorBits::Bit16,
        ),
        ColorModel::Rgb32F | ColorModel::Rgba32F | ColorModel::Other => None,
    }
}

/// Maps a sample layout onto the color space of the document format. A
/// layout without one is an error, never approximated.
pub fn color_space(model: ColorModel) -> (r: Result<ColorSpace, UnsupportedColorModelError>)
    ensures
        match color_space_of(model) {
            Some(space) => r == Ok::<ColorSpace, UnsupportedColorModelError>(space),
            None => r == Err::<ColorSpace, UnsupportedColorModelError>(
                UnsupportedColorModelError { model },
            ),
        },
{
    match model {
        ColorModel::L8 | ColorModel::L16 => Ok(ColorSpace::Greyscale),
        ColorModel::La8 | ColorModel::La16 => Ok(ColorSpace::GreyscaleAlpha),
        ColorModel::Rgb8 | ColorModel::Rgb16 => Ok(ColorSpace::Rgb),
        ColorModel::Rgba8 | ColorModel::Rgba16 => Ok(ColorSpace::Rgba),
        ColorModel::Rgb32F | ColorModel::Rgba32F | ColorModel::Other => Err(
            UnsupportedColorModelError { model },
        ),
    }
}

/// Maps a sample layout onto the sample width of the document format. A
/// layout without one is an error, never approximated.
pub fn color_bits(model: ColorModel) -> (r: Result<ColorBits, UnsupportedColorModelError>)
    ensures
        match color_bits_of(model) {
            Some(bits) => r == Ok::<ColorBits, UnsupportedColorModelError>(bits),
            None => r == Err::<ColorBits, UnsupportedColorModelError>(
                UnsupportedColorModelError { model },
            ),
        },
{
    match model {
        ColorModel::L8 | ColorModel::La8 | ColorModel::Rgb8 | ColorModel::Rgba8 => Ok(
            ColorBits::Bit8,
        ),
        ColorModel::L16 | ColorModel::La16 | ColorModel::Rgb16 | ColorModel::Rgba16 => Ok(
            ColorBits::Bit16,
        ),
        ColorModel::Rgb32F | ColorModel::Rgba32F | ColorModel::Other => Err(
            UnsupportedColorModelError { model },
        ),
    }
}

/// One page image, ready to be set on a sheet: its samples and their
/// layout, its size in pixels, and the size of its sheet in length units.
#[derive(Debug)]
pub struct MangaImage {
    pub bytes: Vec<u8>,
    pub color: ColorModel,
    pub width_px: u32,
    pub height_px: u32,
    /// The width of the sheet, in length units.
    pub width_units: u64,
    /// The height of the sheet, in length units.
    pub height_units: u64,
}

/// Sizes the sheet of a decoded image: each side is as many pixels as the
/// image has, times the length of a pixel.
pub fn create_manga_image(raster: RasterImage, calibration: Calibration) -> (img: MangaImage)
    ensures
        img.bytes@ == raster.bytes@,
        img.color == raster.color,
        img.width_px == raster.width_px,
        img.height_px == raster.height_px,
        img.width_units == raster.width_px * calibration.units_per_px,
        img.height_units == raster.height_px * calibration.units_per_px,
{
    let per_px: u64 = calibration.units_per_px as u64;
    assert(raster.width_px * calibration.units_per_px <= 0xffff_ffff * 0xffff_ffff)
        by (nonlinear_arith)
        requires
            raster.width_px <= 0xffff_ffff,
            calibration.units_per_px <= 0xffff_ffff,
    ;
    assert(raster.height_px * calibration.units_per_px <= 0xffff_ffff * 0xffff_ffff)
        by (nonlinear_arith)
        requires
            raster.height_px <= 0xffff_ffff,
            calibration.units_per_px <= 0xffff_ffff,
    ;
    let width_units: u64 = raster.width_px as u64 * per_px;
    let height_units: u64 = raster.height_px as u64 * per_px;
    MangaImage {
        bytes: raster.bytes,
        color: raster.color,
        width_px: raster.width_px,
        height_px: raster.height_px,
        width_units,
        height_units,
    }
}

/// The raster object of a sheet: the image as the document format holds it,
/// its samples raw and unclipped.
#[derive(Debug)]
pub struct ImageObject {
    pub width_px: usize,
    pub height_px: usize,
    pub color_space: ColorSpace,
    pub bits_per_component: ColorBits,
    /// Whether the image is smoothed when scaled.
    pub interpolate: bool,
    pub image_data: Vec<u8>,
}

/// Where and how large an image is drawn on its sheet.
#[derive(Debug, Clone, Copy, PartialEq, Eq, Structural)]
pub struct Placement {
    /// The offset from the sheet's origin, in length units.
    pub translate_x: u64,
    pub translate_y: u64,
    /// The rotation, counter-clockwise in degrees, about the center below.
    pub angle_ccw_degrees: u32,
    pub rotation_center_x_px: usize,
    pub rotation_center_y_px: usize,
    /// The scale along each axis, in thousandths.
    pub scale_x_per_mille: u32,
    pub scale_y_per_mille: u32,
    pub dpi: u32,
}

/// A page of the document: the size of the sheet and the image on it.
#[derive(Debug)]
pub struct Sheet {
    /// The width of the sheet, in length units.
    pub width_units: u64,
    /// The height of the sheet, in length units.
    pub height_units: u64,
    pub image: ImageObject,
    pub placement: Placement,
    /// Whether this is the sheet that the document is opened with.
    pub opens_document: bool,
}

/// The placement of every page image: at the origin of its sheet, not
/// rotated, drawn at the calibrated scale along both axes.
pub open spec fn placement_of(calibration: Calibration) -> Placement {
    Placement {
        translate_x: 0,
        translate_y: 0,
        angle_ccw_degrees: 0,
        rotation_center_x_px: 0,
        rotation_center_y_px: 0,
        scale_x_per_mille: calibration.scale_per_mille,
        scale_y_per_mille: calibration.scale_per_mille,
        dpi: PLACEMENT_DPI,
    }
}

/// Whether `object` holds the image `img`: its samples as they are, in the
/// image's own size, color space and sample width, smoothed when scaled.
pub open spec fn object_holds(object: ImageObject, img: MangaImage) -> bool {
    &&& object.width_px == img.width_px
    &&& object.height_px == img.height_px
    &&& Some(object.color_space) == color_space_of(img.color)
    &&& Some(object.bits_per_component) == color_bits_of(img.color)
    &&& object.interpolate
    &&& object.image_data@ == img.bytes@
}

/// Whether `sheet` is the sheet of `raster`: sized by the image's pixels,
/// holding the image, placed as every image is.
pub open spec fn is_sheet_of(
    sheet: Sheet,
    raster: Raster,
    calibration: Calibration,
    first: bool,
) -> bool {
    &&& sheet.width_units == raster.width_px * calibration.units_per_px
    &&& sheet.height_units == raster.height_px * calibration.units_per_px
    &&& sheet.image.width_px == raster.width_px
    &&& sheet.image.height_px == raster.height_px
    &&& Some(sheet.image.color_space) == color_space_of(raster.color)
    &&& Some(sheet.image.bits_per_component) == color_bits_of(raster.color)
    &&& sheet.image.interpolate
    &&& sheet.image.image_data@ == raster.bytes
    &&& sheet.placement == placement_of(calibration)
    &&& sheet.opens_document == first
}

/// Makes the raster object of an image and says where it is drawn. An image
/// whose sample layout the document format cannot hold is an error.
pub fn embed_image(img: MangaImage, calibration: Calibration) -> (r: Result<
    (ImageObject, Placement),
    UnsupportedColorModelError,
>)
    ensures
        r is Ok <==> color_space_of(img.color) is Some,
        r matches Ok(embedded) ==> object_holds(embedded.0, img) && embedded.1 == placement_of(
            calibration,
        ),
        r matches Err(e) ==> e.model == img.color,
{
    let color_space = match color_space(img.color) {
        Ok(space) => space,
        Err(e) => {
            return Err(e);
        },
    };
    let bits_per_component = match color_bits(img.color) {
        Ok(bits) => bits,
        Err(e) => {
            return Err(e);
        },
    };
    let object = ImageObject {
        width_px: img.width_px as usize,
        height_px: img.height_px as usize,
        color_space,
        bits_per_component,
        interpolate: true,
        image_data: img.bytes,
    };
    let placement = Placement {
        translate_x: 0,
        translate_y: 0,
        angle_ccw_degrees: 0,
        rotation_center_x_px: 0,
        rotation_center_y_px: 0,
        scale_x_per_mille: calibration.scale_per_mille,
        scale_y_per_mille: calibration.scale_per_mille,
        dpi: PLACEMENT_DPI,
    };
    Ok((object, placement))
}

/// Lays a decoded image on a sheet of its own. `first` says whether the
/// sheet opens the document.
pub fn lay_sheet(raster: RasterImage, calibration: Calibration, first: bool) -> (r: Result<
    Sheet,
    UnsupportedColorModelError,
>)
    ensures
        r is Ok <==> color_space_of(raster.color) is Some,
        r matches Ok(sheet) ==> is_sheet_of(sheet, raster@, calibration, first),
        r matches Err(e) ==> e.model == raster.color,
{
    let img = create_manga_image(raster, calibration);
    let width_units = img.width_units;
    let height_units = img.height_units;
    match embed_image(img, calibration) {
        Ok((image, placement)) => Ok(
            Sheet { width_units, height_units, image, placement, opens_document: first },
        ),
        Err(e) => Err(e),
    }
}

/// Why a document could not be assembled. `page` counts from zero.
#[derive(Debug, Clone, Copy, PartialEq, Eq, Structural)]
pub enum BindError {
    /// There is not one page to bind.
    NoPages,
    /// The image of a page could not be fetched.
    PageUnavailable { page: usize },
    /// The decoder made no image of the bytes fetched for a page.
    Decode { page: usize },
    /// The image of a page has a sample layout that the document format
    /// cannot hold.
    UnsupportedColorModel { page: usize, model: ColorModel },
    /// No page was asked for: the assembly had ended.
    NoPagePending,
    /// Every page has its sheet, but the document could not be written out.
    Unwritten,
}

/// How far an assembly has come.
#[derive(Debug, Clone, Copy, PartialEq, Eq, Structural)]
pub enum AssemblyState {
    /// No sheet is laid yet.
    Empty,
    /// So many sheets are laid, and more are to come.
    BuildingPage(usize),
    /// Every page has its sheet: the document is complete.
    Finalized,
    /// A page failed: there is no document.
    Aborted,
}

/// What happened to the page that the assembly asked for.
pub enum PageEvent {
    /// Its image was fetched and decoded.
    Decoded(Raster),
    /// Its bytes were fetched, but the decoder made no image of them.
    Undecodable,
    /// Its bytes could not be fetched.
    Unavailable,
}

/// The state of an assembly.
pub struct AssemblerView {
    /// The addresses of the page images, in reading order.
    pub urls: Seq<Seq<char>>,
    pub calibration: Calibration,
    /// The sheets laid so far, in order.
    pub laid: Seq<Sheet>,
    /// Whether a page has failed.
    pub aborted: bool,
}

impl AssemblerView {
    /// Whether the state is one that an assembly can be in. An aborted
    /// assembly holds no sheet.
    pub open spec fn wf(self) -> bool {
        &&& self.urls.len() > 0
        &&& self.laid.len() <= self.urls.len()
        &&& self.aborted ==> self.laid.len() == 0
    }

    /// Whether the assembly waits for a page.
    pub open spec fn pending(self) -> bool {
        !self.aborted && self.laid.len() < self.urls.len()
    }

    /// How far the assembly has come.
    pub open spec fn state(self) -> AssemblyState {
        if self.aborted {
            AssemblyState::Aborted
        } else if self.laid.len() == self.urls.len() {
            AssemblyState::Finalized
        } else if self.laid.len() == 0 {
            AssemblyState::Empty
        } else {
            AssemblyState::BuildingPage(self.laid.len() as usize)
        }
    }

    /// The sheets of the finished document: all of them once the assembly is
    /// finalized, none before that and none after a failure.
    pub open spec fn committed(self) -> Seq<Sheet> {
        if self.state() == AssemblyState::Finalized {
            self.laid
        } else {
            Seq::empty()
        }
    }

    /// Whether `next` is the state after `event` in this state. A decoded
    /// image that the document format can hold adds its sheet, the first one
    /// opening the document; any other event aborts the assembly and drops
    /// every sheet. An assembly that waits for no page takes no event.
    pub open spec fn steps_to(self, event: PageEvent, next: AssemblerView) -> bool {
        &&& next.urls == self.urls
        &&& next.calibration == self.calibration
        &&& if !self.pending() {
            next == self
        } else {
            match event {
                PageEvent::Decoded(raster) => if color_space_of(raster.color) is Some {
                    &&& !next.aborted
                    &&& next.laid.len() == self.laid.len() + 1
                    &&& next.laid.drop_last() == self.laid
                    &&& is_sheet_of(
                        next.laid.last(),
                        raster,
                        self.calibration,
                        self.laid.len() == 0,
                    )
                } else {
                    next.aborted && next.laid.len() == 0
                },
                PageEvent::Undecodable | PageEvent::Unavailable => next.aborted && next.laid.len()
                    == 0,
            }
        }
    }
}

/// An assembly in progress. It names the page to fetch next
/// ([`Assembler::next_url`]) and takes what became of it, until every page
/// has its sheet or one has failed.
pub struct Assembler {
    urls: Vec<String>,
    calibration: Calibration,
    built: usize,
    aborted: bool,
    laid: Ghost<Seq<Sheet>>,
}

impl View for Assembler {
    type V = AssemblerView;

    closed spec fn view(&self) -> AssemblerView {
        AssemblerView {
            urls: texts(self.urls@),
            calibration: self.calibration,
            laid: self.laid@,
            aborted: self.aborted,
        }
    }
}

impl Assembler {
    /// Whether the count of sheets kept for running code is the count of
    /// the sheets laid.
    pub closed spec fn counted(&self) -> bool {
        self.built == self.laid@.len()
    }

    /// Whether the state is one that an assembly can be in.
    pub open spec fn wf(&self) -> bool {
        self@.wf() && self.counted()
    }

    /// The calibration of this assembly.
    pub fn calibration(&self) -> (c: Calibration)
        ensures
            c == self@.calibration,
    {
        self.calibration
    }

    /// How many pages the document is to have.
    pub fn page_count(&self) -> (n: usize)
        ensures
            n == self@.urls.len(),
    {
        self.urls.len()
    }

    /// How far the assembly has come.
    pub fn state(&self) -> (r: AssemblyState)
        requires
            self.wf(),
        ensures
            r == self@.state(),
    {
        if self.aborted {
            AssemblyState::Aborted
        } else if self.built == self.urls.len() {
            AssemblyState::Finalized
        } else if self.built == 0 {
            AssemblyState::Empty
        } else {
            AssemblyState::BuildingPage(self.built)
        }
    }

    /// How many sheets the finished document has: every page's once the
    /// assembly is finalized, none otherwise.
    pub fn committed_pages(&self) -> (n: usize)
        requires
            self.wf(),
        ensures
            n == self@.committed().len(),
    {
        if !self.aborted && self.built == self.urls.len() {
            self.built
        } else {
            0
        }
    }

    /// The address of the page image to fetch next; `None` once the assembly
    /// has ended.
    pub fn next_url(&self) -> (r: Option<&String>)
        requires
            self.wf(),
        ensures
            r is Some == self@.pending(),
            r matches Some(url) ==> url@ == self@.urls[self@.laid.len() as int],
    {
        if !self.aborted && self.built < self.urls.len() {
            Some(&self.urls[self.built])
        } else {
            None
        }
    }

    /// Ends the assembly without a document.
    fn abort(&mut self)
        requires
            old(self).wf(),
        ensures
            final(self).wf(),
            final(self)@.urls == old(self)@.urls,
            final(self)@.calibration == old(self)@.calibration,
            final(self)@.aborted,
            final(self)@.laid.len() == 0,
    {
        self.aborted = true;
        self.built = 0;
        proof {
            self.laid@ = Seq::empty();
        }
    }

    /// Takes the decoded image of the pending page and lays its sheet, which
    /// the caller appends to the document. An image that the document format
    /// cannot hold aborts the assembly.
    pub fn page_decoded(&mut self, raster: RasterImage) -> (r: Result<Sheet, BindError>)
        requires
            old(self).wf(),
        ensures
            final(self).wf(),
            old(self)@.steps_to(PageEvent::Decoded(raster@), final(self)@),
            match r {
                Ok(sheet) => old(self)@.pending() && color_space_of(raster.color) is Some
                    && final(self)@.laid.last() == sheet,
                Err(e) => if !old(self)@.pending() {
                    e == BindError::NoPagePending
                } else {
                    &&& color_space_of(raster.color) is None
                    &&& e == BindError::UnsupportedColorModel {
                        page: old(self)@.laid.len() as usize,
                        model: raster.color,
                    }
                },
            },
    {
        if self.aborted || self.built >= self.urls.len() {
            return Err(BindError::NoPagePending);
        }
        let page = self.built;
        match lay_sheet(raster, self.calibration, page == 0) {
            Ok(sheet) => {
                proof {
                    let before = self.laid@;
                    self.laid@ = before.push(sheet);
                    assert(self.laid@.drop_last() =~= before);
                }
                self.built = self.built + 1;
                Ok(sheet)
            },
            Err(e) => {
                self.abort();
                Err(BindError::UnsupportedColorModel { page, model: e.model })
            },
        }
    }

    /// Takes the bytes fetched for the pending page: decodes them and lays
    /// the sheet of the image. Bytes that do not decode abort the assembly,
    /// and so does an image that the document format cannot hold.
    ///
    /// Whether the bytes decode, and to what, is the decoder's matter. Of
    /// every outcome this holds: a sheet comes back exactly when one more
    /// sheet is laid, and it is then the sheet of a decoded image that the
    /// document format can hold; each error says what was found, the
    /// unsupported-color error only of a layout that the document format
    /// cannot hold. What is made of a decoded image is settled by
    /// [`Assembler::page_decoded`].
    pub fn page_fetched(&mut self, data: &[u8]) -> (r: Result<Sheet, BindError>)
        requires
            old(self).wf(),
        ensures
            final(self).wf(),
            r is Ok <==> final(self)@.laid.len() == old(self)@.laid.len() + 1,
            !old(self)@.pending() ==> r == Err::<Sheet, BindError>(BindError::NoPagePending),
            match r {
                Ok(sheet) => {
                    &&& old(self)@.pending()
                    &&& final(self)@.laid.last() == sheet
                    &&& exists|raster: Raster|
                        color_space_of(raster.color) is Some && #[trigger] old(self)@.steps_to(
                            PageEvent::Decoded(raster),
                            final(self)@,
                        )
                },
                Err(BindError::NoPagePending) => !old(self)@.pending() && final(self)@ == old(
                    self,
                )@,
                Err(BindError::Decode { page }) => {
                    &&& old(self)@.pending()
                    &&& page == old(self)@.laid.len()
                    &&& old(self)@.steps_to(PageEvent::Undecodable, final(self)@)
                },
                Err(BindError::UnsupportedColorModel { page, model }) => {
                    &&& old(self)@.pending()
                    &&& page == old(self)@.laid.len()
                    &&& color_space_of(model) is None
                    &&& exists|raster: Raster|
                        raster.color == model && #[trigger] old(self)@.steps_to(
                            PageEvent::Decoded(raster),
                            final(self)@,
                        )
                },
                Err(_) => false,
            },
    {
        if self.aborted || self.built >= self.urls.len() {
            return Err(BindError::NoPagePending);
        }
        match decode_raster(data) {
            Ok(raster) => {
                let ghost shown = raster@;
                let ghost before = self@;
                let r = self.page_decoded(raster);
                proof {
                    assert(before.steps_to(PageEvent::Decoded(shown), self@));
                }
                r
            },
            Err(_) => {
                let page = self.built;
                self.abort();
                Err(BindError::Decode { page })
            },
        }
    }

    /// Takes the news that the pending page could not be fetched, which
    /// aborts the assembly.
    pub fn page_unavailable(&mut self) -> (e: BindError)
        requires
            old(self).wf(),
        ensures
            final(self).wf(),
            old(self)@.steps_to(PageEvent::Unavailable, final(self)@),
            e == if old(self)@.pending() {
                BindError::PageUnavailable { page: old(self)@.laid.len() as usize }
            } else {
                BindError::NoPagePending
            },
    {
        if self.aborted || self.built >= self.urls.len() {
            return BindError::NoPagePending;
        }
        let page = self.built;
        self.abort();
        BindError::PageUnavailable { page }
    }
}

/// Begins the assembly of a document from the addresses of its page images,
/// in reading order. A document has at least one page.
pub fn bind_pages(pages: Vec<String>, calibration: Calibration) -> (r: Result<Assembler, BindError>)
    ensures
        r is Ok <==> pages@.len() > 0,
        r matches Ok(assembler) ==> {
            &&& assembler.wf()
            &&& assembler@.urls == texts(pages@)
            &&& assembler@.calibration == calibration
            &&& assembler@.laid.len() == 0
            &&& !assembler@.aborted
        },
        r matches Err(e) ==> e == BindError::NoPages,
{
    if pages.len() == 0 {
        return Err(BindError::NoPages);
    }
    Ok(Assembler { urls: pages, calibration, built: 0, aborted: false, laid: Ghost(Seq::empty()) })
}

/// Whether `event` brings a sheet: a decoded image that the document format
/// can hold.
pub open spec fn brings_sheet(event: PageEvent) -> bool {
    event matches PageEvent::Decoded(raster) && color_space_of(raster.color) is Some
}

/// Whether `states` is what an assembly goes through under `events`: one
/// state more than events, each event leading from its state to the next.
pub open spec fn is_run(states: Seq<AssemblerView>, events: Seq<PageEvent>) -> bool {
    &&& states.len() == events.len() + 1
    &&& forall|i: int|
        0 <= i < events.len() ==> (#[trigger] states[i]).steps_to(events[i], states[i + 1])
}

/// Where an assembly stands after its first `n` events, one event per page:
/// with a sheet from each, that many sheets are laid, each the sheet of its
/// event in order; after any other event there is none, and the assembly is
/// aborted.
pub proof fn lemma_run_prefix(states: Seq<AssemblerView>, events: Seq<PageEvent>, n: int)
    requires
        is_run(states, events),
        states[0].wf(),
        states[0].laid.len() == 0,
        !states[0].aborted,
        0 <= n <= events.len() <= states[0].urls.len(),
    ensures
        states[n].wf(),
        states[n].urls == states[0].urls,
        states[n].calibration == states[0].calibration,
        (forall|i: int| 0 <= i < n ==> brings_sheet(#[trigger] events[i])) ==> {
            &&& !states[n].aborted
            &&& states[n].laid.len() == n
            &&& forall|i: int|
                0 <= i < n ==> is_sheet_of(
                    #[trigger] states[n].laid[i],
                    events[i]->Decoded_0,
                    states[0].calibration,
                    i == 0,
                )
        },
        (exists|i: int| 0 <= i < n && !brings_sheet(#[trigger] events[i])) ==> states[n].aborted,
    decreases n,
{
    if n > 0 {
        lemma_run_prefix(states, events, n - 1);
        let after = states[n];
        if forall|i: int| 0 <= i < n ==> brings_sheet(#[trigger] events[i]) {
            assert forall|i: int| 0 <= i < n implies is_sheet_of(
                #[trigger] after.laid[i],
                events[i]->Decoded_0,
                states[0].calibration,
                i == 0,
            ) by {
                if i < n - 1 {
                    assert(after.laid[i] == after.laid.drop_last()[i]);
                }
            }
        }
    }
}

/// All or nothing. An assembly that is told of each of its pages, in order,
/// ends with a document of exactly one sheet per page, in the order of the
/// pages, each the sheet of its page's image; unless a page failed, and then
/// it ends aborted, with a document of no sheet at all.
pub proof fn law_all_or_nothing(states: Seq<AssemblerView>, events: Seq<PageEvent>)
    requires
        is_run(states, events),
        states[0].wf(),
        states[0].laid.len() == 0,
        !states[0].aborted,
        events.len() == states[0].urls.len(),
    ensures
        (forall|i: int| 0 <= i < events.len() ==> brings_sheet(#[trigger] events[i])) ==> {
            &&& states.last().state() == AssemblyState::Finalized
            &&& states.last().committed().len() == states[0].urls.len()
            &&& forall|i: int|
                0 <= i < events.len() ==> is_sheet_of(
                    #[trigger] states.last().committed()[i],
                    events[i]->Decoded_0,
                    states[0].calibration,
                    i == 0,
                )
        },
        (exists|i: int| 0 <= i < events.len() && !brings_sheet(#[trigger] events[i])) ==> {
            &&& states.last().state() == AssemblyState::Aborted
            &&& states.last().committed().len() == 0
        },
{
    lemma_run_prefix(states, events, events.len() as int);
}

} // verus!
