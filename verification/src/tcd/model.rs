//! The data of the tile coder: what the codestream says of the image and its
//! coding, and the tile structure that the coder builds from it.
use vstd::prelude::*;

verus! {

/// A component of the image, as the codestream header gives it.
#[derive(Debug, Clone, Copy, PartialEq, Eq)]
pub struct ImageComponent {
    /// Horizontal separation of the component's samples on the reference grid.
    pub dx: u32,
    /// Vertical separation of the component's samples on the reference grid.
    pub dy: u32,
    /// Bits per sample.
    pub prec: u32,
    /// Whether the samples are signed.
    pub sgnd: bool,
    /// The highest resolution level that was decoded.
    pub resno_decoded: u32,
}

/// The image area on the reference grid and the image's components.
#[derive(Debug)]
pub struct ImageHeader {
    pub x0: u32,
    pub y0: u32,
    pub x1: u32,
    pub y1: u32,
    pub comps: Vec<ImageComponent>,
}

/// The quantization step size of a sub-band: an exponent and an 11-bit mantissa.
#[derive(Debug, Clone, Copy, PartialEq, Eq)]
pub struct StepSize {
    pub expn: i32,
    pub mant: i32,
}

/// The coding parameters of one component in one tile.
#[derive(Debug)]
pub struct ComponentCodingParams {
    /// Number of resolution levels.
    pub numresolutions: u32,
    /// Base-2 logarithm of the code-block width.
    pub cblkw: u32,
    /// Base-2 logarithm of the code-block height.
    pub cblkh: u32,
    /// Base-2 logarithm of the precinct width, per resolution level.
    pub prcw: Vec<u32>,
    /// Base-2 logarithm of the precinct height, per resolution level.
    pub prch: Vec<u32>,
    /// The wavelet filter: 1 for the reversible 5-3 filter, 0 for the irreversible 9-7 one.
    pub qmfbid: u32,
    /// Number of guard bits.
    pub numgbits: u32,
    /// Step sizes of the sub-bands, in the order of resolutions and bands.
    pub stepsizes: Vec<StepSize>,
    /// The DC level shift of the component's samples.
    pub dc_level_shift: i32,
    /// The code-block coding style flags.
    pub cblksty: u32,
}

/// The coding parameters of one tile.
#[derive(Debug)]
pub struct TileCodingParams {
    /// Per component.
    pub tccps: Vec<ComponentCodingParams>,
    /// The multiple component transform: 0 none, 1 the colour transform, 2 a custom matrix.
    pub mct: u32,
    /// Whether the custom matrix of a decode is present.
    pub has_mct_decoding_matrix: bool,
    /// Whether the custom matrix of an encode is present.
    pub has_mct_coding_matrix: bool,
    /// Number of quality layers.
    pub numlayers: u32,
    /// Number of quality layers that a decode reads.
    pub num_layers_to_decode: u32,
}

/// The tiling of the image on the reference grid.
#[derive(Debug)]
pub struct CodingParams {
    /// Origin of the tiling.
    pub tx0: u32,
    pub ty0: u32,
    /// Size of a tile.
    pub tdx: u32,
    pub tdy: u32,
    /// Number of tiles across.
    pub tw: u32,
    /// Number of resolution levels the decoder drops.
    pub reduce: u32,
    /// The coding parameters of each tile.
    pub tcps: Vec<TileCodingParams>,
}

/// A code-block: its rectangle on the sub-band grid.
#[derive(Debug, Clone, Copy, PartialEq, Eq)]
pub struct CodeBlock {
    pub x0: i32,
    pub y0: i32,
    pub x1: i32,
    pub y1: i32,
}

/// A precinct of a sub-band: its rectangle and its grid of code-blocks.
#[derive(Debug)]
pub struct Precinct {
    pub x0: i32,
    pub y0: i32,
    pub x1: i32,
    pub y1: i32,
    /// Number of code-blocks across.
    pub cw: u32,
    /// Number of code-blocks down.
    pub ch: u32,
    pub cblks: Vec<CodeBlock>,
}

/// A sub-band of a resolution level.
#[derive(Debug)]
pub struct Band {
    /// 0 for the low-pass band of the lowest resolution, 1 to 3 for the HL, LH and HH bands.
    pub bandno: u32,
    pub x0: i32,
    pub y0: i32,
    pub x1: i32,
    pub y1: i32,
    /// The quantization step is `(1 + stepsize_mant / 2048) * 2^stepsize_exp`.
    pub stepsize_mant: i32,
    pub stepsize_exp: i32,
    /// Number of magnitude bit-planes.
    pub numbps: i32,
    pub precincts: Vec<Precinct>,
}

/// A resolution level of a tile-component.
#[derive(Debug)]
pub struct Resolution {
    pub x0: i32,
    pub y0: i32,
    pub x1: i32,
    pub y1: i32,
    /// Number of precincts across.
    pub pw: u32,
    /// Number of precincts down.
    pub ph: u32,
    pub numbands: u32,
    pub bands: Vec<Band>,
    /// The window of interest at this resolution.
    pub win_x0: u32,
    pub win_y0: u32,
    pub win_x1: u32,
    pub win_y1: u32,
}

/// A component of a tile.
#[derive(Debug)]
pub struct TileComponent {
    pub compno: u32,
    pub x0: i32,
    pub y0: i32,
    pub x1: i32,
    pub y1: i32,
    pub numresolutions: u32,
    /// Number of resolution levels that are decoded.
    pub minimum_num_resolutions: u32,
    pub resolutions: Vec<Resolution>,
    /// The samples of the whole tile-component.
    pub data: Vec<i32>,
    /// The bytes that the samples of the whole tile-component take.
    pub data_size_needed: usize,
    /// The window of interest on the tile-component.
    pub win_x0: u32,
    pub win_y0: u32,
    pub win_x1: u32,
    pub win_y1: u32,
    /// The samples of the window of interest.
    pub data_win: Vec<i32>,
}

/// A tile: its rectangle on the reference grid and its components.
#[derive(Debug)]
pub struct Tile {
    pub x0: i32,
    pub y0: i32,
    pub x1: i32,
    pub y1: i32,
    pub comps: Vec<TileComponent>,
}

/// Why the tile coder stopped.
#[derive(Debug, Clone, Copy, PartialEq, Eq)]
pub enum TcdError {
    /// The tile's horizontal extent cannot be represented.
    TileXUnsupported,
    /// The tile's vertical extent cannot be represented.
    TileYUnsupported,
    /// The tile's components have no resolution level.
    NoResolution,
    /// The tile's data would exceed what the platform can address.
    DataTooLarge,
    /// A precinct boundary overflows.
    IntegerOverflow,
    /// The code-blocks of a precinct would exceed what the platform can address.
    CodeBlockDataTooLarge,
    /// The window of interest does not meet the tile.
    InvalidWindow,
    /// A buffer does not have the size that the tile needs.
    SizeMismatch,
    /// The components differ in size where a multiple component transform needs them equal.
    ComponentsDiffer,
}

/// The tile coder: the image and its coding parameters, the tile being coded,
/// and the window of interest of a decode.
#[derive(Debug)]
pub struct TileCoder {
    pub image: ImageHeader,
    pub cp: CodingParams,
    /// The index of the tile being coded.
    pub tcd_tileno: u32,
    pub tile: Tile,
    pub is_decoder: bool,
    /// The window of interest on the reference grid.
    pub win_x0: u32,
    pub win_y0: u32,
    pub win_x1: u32,
    pub win_y1: u32,
    /// Whether whole tile-components are decoded, rather than windows of them.
    pub whole_tile_decoding: bool,
    /// The components to decode; all of them when absent.
    pub used_component: Option<Vec<bool>>,
}

impl Band {
    /// The band has no area: no width or no height.
    pub open spec fn is_empty_spec(&self) -> bool {
        self.x1 == self.x0 || self.y1 == self.y0
    }

    /// Whether the band has no area.
    pub fn is_empty(&self) -> (r: bool)
        ensures
            r == self.is_empty_spec(),
    {
        self.x1 == self.x0 || self.y1 == self.y0
    }
}

/// A tile-component that holds nothing yet.
pub open spec fn empty_tile_component(compno: u32, c: TileComponent) -> bool {
    &&& c.compno == compno
    &&& c.x0 == 0 && c.y0 == 0 && c.x1 == 0 && c.y1 == 0
    &&& c.numresolutions == 0 && c.minimum_num_resolutions == 0
    &&& c.resolutions@.len() == 0 && c.data@.len() == 0 && c.data_win@.len() == 0
    &&& c.data_size_needed == 0
    &&& c.win_x0 == 0 && c.win_y0 == 0 && c.win_x1 == 0 && c.win_y1 == 0
}

impl TileCoder {
    /// A tile coder for an image and its coding parameters, as an encoder or
    /// a decoder, with one empty tile-component per image component.
    pub fn new(image: ImageHeader, cp: CodingParams, is_decoder: bool) -> (r: TileCoder)
        ensures
            r.image == image,
            r.cp == cp,
            r.is_decoder == is_decoder,
            r.tcd_tileno == 0,
            r.tile.x0 == 0 && r.tile.y0 == 0 && r.tile.x1 == 0 && r.tile.y1 == 0,
            r.tile.comps@.len() == image.comps@.len(),
            forall|c: int| 0 <= c < image.comps@.len() ==> empty_tile_component(c as u32, #[trigger] r.tile.comps@[c]),
            r.win_x0 == 0 && r.win_y0 == 0 && r.win_x1 == 0 && r.win_y1 == 0,
            !r.whole_tile_decoding,
            r.used_component is None,
    {
        let n = image.comps.len();
        let mut comps: Vec<TileComponent> = Vec::new();
        let mut c: usize = 0;
        while c < n
            invariant
                c <= n,
                n == image.comps@.len(),
                n <= usize::MAX,
                comps@.len() == c,
                forall|k: int| 0 <= k < c ==> empty_tile_component(k as u32, #[trigger] comps@[k]),
            decreases n - c,
        {
            #[verifier::truncate]
            let compno = c as u32;
            comps.push(TileComponent {
                compno,
                x0: 0,
                y0: 0,
                x1: 0,
                y1: 0,
                numresolutions: 0,
                minimum_num_resolutions: 0,
                resolutions: Vec::new(),
                data: Vec::new(),
                data_size_needed: 0,
                win_x0: 0,
                win_y0: 0,
                win_x1: 0,
                win_y1: 0,
                data_win: Vec::new(),
            });
            c = c + 1;
        }
        TileCoder {
            image,
            cp,
            tcd_tileno: 0,
            tile: Tile { x0: 0, y0: 0, x1: 0, y1: 0, comps },
            is_decoder,
            win_x0: 0,
            win_y0: 0,
            win_x1: 0,
            win_y1: 0,
            whole_tile_decoding: false,
            used_component: None,
        }
    }

    /// Whether component `compno` is decoded.
    pub open spec fn is_used(self, compno: int) -> bool {
        match self.used_component {
            Some(used) => used@[compno],
            None => true,
        }
    }
}

} // verus!
