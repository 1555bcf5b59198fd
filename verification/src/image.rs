//! Region and size arithmetic of image requests.
use vstd::prelude::*;

verus! {

/// A length along one axis of an image, in pixels.
pub type Dimension = u32;

/// The size of a source image.
#[derive(Debug, Clone, Copy, PartialEq, Eq)]
pub struct Dimensions2 {
    pub width: Dimension,
    pub height: Dimension,
}

/// A rectangle given by its top-left corner and its extent.
#[derive(Debug, Clone, Copy, PartialEq, Eq)]
pub struct AbsoluteRegion {
    pub x: Dimension,
    pub y: Dimension,
    pub width: Dimension,
    pub height: Dimension,
}

/// A crop of a source image, scaled to an output size.
#[derive(Debug, Clone, Copy, PartialEq, Eq)]
pub struct Crop {
    /// The region of this crop within the high-resolution canvas of the source image.
    pub hires_region: AbsoluteRegion,
    /// The output dimensions of the cropped high-resolution region.
    pub scale: (Dimension, Dimension),
}

/// The region parameter of an image request.
#[derive(Debug, Clone, Copy, PartialEq, Eq)]
pub enum Region {
    /// The whole image.
    Full,
    /// The largest centred square of the image.
    Square,
    /// A rectangle in pixel coordinates of the full image.
    Absolute { x: Dimension, y: Dimension, width: Dimension, height: Dimension },
}

/// The size parameter of an image request, for the sizes given in whole pixels.
///
/// Every pixel count carried by a variant is non-zero.
#[derive(Debug, Clone, Copy, PartialEq, Eq)]
pub enum Scale {
    /// The largest size available.
    Max,
    /// An exact width and height.
    Fixed { width: Dimension, height: Dimension },
    /// An exact width; the height follows the aspect ratio of the image.
    FixedWidth(Dimension),
    /// An exact height; the width follows the aspect ratio of the image.
    FixedHeight(Dimension),
}

impl Scale {
    /// The pixel counts of the scale are all non-zero.
    pub open spec fn wf(self) -> bool {
        match self {
            Scale::Max => true,
            Scale::Fixed { width, height } => width > 0 && height > 0,
            Scale::FixedWidth(w) => w > 0,
            Scale::FixedHeight(h) => h > 0,
        }
    }
}

/// The rectangle that a region selects in an image of the given size.
pub open spec fn region_rect(width: Dimension, height: Dimension, region: Region) -> AbsoluteRegion
    recommends !(region is Square),
{
    match region {
        Region::Absolute { x, y, width: w, height: h } => AbsoluteRegion { x, y, width: w, height: h },
        _ => AbsoluteRegion { x: 0, y: 0, width, height },
    }
}

/// The output size that a scale gives a region of the given size: `max` is
/// the region itself, and a size given by one side keeps the aspect ratio of
/// the region, the other side rounded down.
pub open spec fn scaled_size(width: Dimension, height: Dimension, scale: Scale) -> (int, int) {
    match scale {
        Scale::Max => (width as int, height as int),
        Scale::Fixed { width: w, height: h } => (w as int, h as int),
        Scale::FixedWidth(w) => (w as int, (w * height) / (width as int)),
        Scale::FixedHeight(h) => ((h * width) / (height as int), h as int),
    }
}

/// A scale gives a region of the given size an output size: a size given
/// by one side needs the region's side it divides by to be non-zero, and
/// the other side of the output to be a `Dimension`.
pub open spec fn scale_defined(width: Dimension, height: Dimension, scale: Scale) -> bool {
    match scale {
        Scale::FixedWidth(w) => width > 0 && (w * height) / (width as int) <= u32::MAX,
        Scale::FixedHeight(h) => height > 0 && (h * width) / (height as int) <= u32::MAX,
        _ => true,
    }
}

/// A size given by its width keeps the aspect ratio of the region it scales,
/// the height rounded down; a size given by its height does so with the width.
pub proof fn lemma_scale_keeps_aspect(width: Dimension, height: Dimension, target: Dimension)
    requires
        width > 0,
        height > 0,
    ensures
        ({
            let h = scaled_size(width, height, Scale::FixedWidth(target)).1;
            h * width <= target * height < (h + 1) * width
        }),
        ({
            let w = scaled_size(width, height, Scale::FixedHeight(target)).0;
            w * height <= target * width < (w + 1) * height
        }),
{
    let x = target * height;
    let y = target * width;
    vstd::arithmetic::div_mod::lemma_fundamental_div_mod(x, width as int);
    vstd::arithmetic::div_mod::lemma_fundamental_div_mod(y, height as int);
    let h = x / (width as int);
    let w = y / (height as int);
    assert(h * width <= x < (h + 1) * width) by (nonlinear_arith)
        requires
            x == width * h + x % (width as int),
            0 <= x % (width as int) < width,
    ;
    assert(w * height <= y < (w + 1) * height) by (nonlinear_arith)
        requires
            y == height * w + y % (height as int),
            0 <= y % (height as int) < height,
    ;
}

impl Dimensions2 {
    /// The rectangle that a region selects in this image.
    pub fn region_rect(self, region: Region) -> (r: AbsoluteRegion)
        requires
            !(region is Square),
        ensures
            r == region_rect(self.width, self.height, region),
    {
        match region {
            Region::Absolute { x, y, width, height } => AbsoluteRegion { x, y, width, height },
            _ => AbsoluteRegion { x: 0, y: 0, width: self.width, height: self.height },
        }
    }

    /// Maps a request's region and size onto this image: the rectangle to read
    /// from the full-resolution canvas, and the size to scale that rectangle
    /// to; `None` when a size given by one side has no output size for the
    /// region (a side of zero to divide by, or a result past a `Dimension`).
    pub fn crop_and_scale(self, region: Region, scale: Scale) -> (r: Option<Crop>)
        requires
            !(region is Square),
            scale.wf(),
        ensures
            ({
                let rect = region_rect(self.width, self.height, region);
                &&& r is Some <==> scale_defined(rect.width, rect.height, scale)
                &&& r matches Some(crop) ==> crop.hires_region == rect
                    && crop.scale.0 as int == scaled_size(rect.width, rect.height, scale).0
                    && crop.scale.1 as int == scaled_size(rect.width, rect.height, scale).1
            }),
    {
        let rect = self.region_rect(region);
        let width = rect.width;
        let height = rect.height;
        let (target_width, target_height) = match scale {
            Scale::Max => (width, height),
            Scale::Fixed { width: scaled_width, height: scaled_height } => (scaled_width, scaled_height),
            Scale::FixedWidth(scaled_width) => {
                if width == 0 {
                    return None;
                }
                assert((scaled_width as u64) * (height as u64) <= u32::MAX * u32::MAX) by (nonlinear_arith)
                    requires
                        scaled_width <= u32::MAX,
                        height <= u32::MAX,
                ;
                let product = (scaled_width as u64) * (height as u64);
                let scaled = product / (width as u64);
                if scaled > u32::MAX as u64 {
                    return None;
                }
                (scaled_width, scaled as u32)
            },
            Scale::FixedHeight(scaled_height) => {
                if height == 0 {
                    return None;
                }
                assert((scaled_height as u64) * (width as u64) <= u32::MAX * u32::MAX) by (nonlinear_arith)
                    requires
                        scaled_height <= u32::MAX,
                        width <= u32::MAX,
                ;
                let product = (scaled_height as u64) * (width as u64);
                let scaled = product / (height as u64);
                if scaled > u32::MAX as u64 {
                    return None;
                }
                (scaled as u32, scaled_height)
            },
        };
        Some(Crop { hires_region: rect, scale: (target_width, target_height) })
    }
}

} // verus!
