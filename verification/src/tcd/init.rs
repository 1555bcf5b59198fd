//! Layout of a tile: the tile on the reference grid, its components, their
//! resolution levels, sub-bands, precincts and code-blocks.
//!
//! Positions on the code-block grids are computed as 32-bit signed integers
//! that wrap on overflow; the specifications below say so with `as i32`.
use crate::tcd::math::{ceil_div, ceil_div_pow2, floor_div_i64, floor_div_pow2, int64_ceildivpow2, int_ceildiv, int_ceildivpow2, int_floordivpow2, pow2_i64};
use crate::tcd::model::{Band, CodeBlock, ComponentCodingParams, Precinct, Resolution, StepSize, TcdError, TileCoder, TileComponent};
use crate::tcd::math::{lemma_ceil_div_pow2_range, lemma_ceil_div_pow2_twice, uint_adds};
use vstd::arithmetic::div_mod::{lemma_div_is_ordered, lemma_fundamental_div_mod};
use vstd::arithmetic::power2::lemma_pow2_pos;
use vstd::arithmetic::power2::pow2;
use vstd::prelude::*;

verus! {

/// The larger of two integers.
pub open spec fn imax(a: int, b: int) -> int {
    if a >= b { a } else { b }
}

/// The smaller of two integers.
pub open spec fn imin(a: int, b: int) -> int {
    if a <= b { a } else { b }
}

/// Position `index` of a grid of cells of side `2^expn` that starts at
/// `origin`, in 32-bit arithmetic.
pub open spec fn grid_pos(origin: int, index: u32, expn: nat) -> i32 {
    (origin + (index as i32) * pow2(expn)) as i32
}

/// `v` rounded down to a multiple of `2^e`.
pub open spec fn align_down(v: int, e: nat) -> i32 {
    (floor_div_pow2(v, e) * pow2(e)) as i32
}

/// `v` rounded up to a multiple of `2^e`, in 32-bit arithmetic.
pub open spec fn align_up(v: int, e: nat) -> i32 {
    (ceil_div_pow2(v, e) * pow2(e)) as i32
}

/// Number of cells of side `2^e` between the aligned bounds `lo` and `hi`.
pub open spec fn cell_count(lo: int, hi: int, e: nat) -> u32 {
    (((hi - lo) as i32 as int) / (pow2(e) as int)) as u32
}

/// The product of two counts, wrapping at 2^32.
pub open spec fn count_product(a: u32, b: u32) -> u32 {
    ((a as int * b as int) % 0x1_0000_0000) as u32
}

/// Code-block `k` of a precinct whose code-block grid starts at
/// `(tlx, tly)` and is `cw` cells wide, cut to the precinct.
pub open spec fn code_block_spec(
    prc_x0: i32,
    prc_y0: i32,
    prc_x1: i32,
    prc_y1: i32,
    tlx: i32,
    tly: i32,
    cw: u32,
    ew: nat,
    eh: nat,
    k: u32,
) -> CodeBlock {
    let xs = grid_pos(tlx as int, k % cw, ew);
    let ys = grid_pos(tly as int, k / cw, eh);
    let xe = (xs + pow2(ew)) as i32;
    let ye = (ys + pow2(eh)) as i32;
    CodeBlock {
        x0: imax(xs as int, prc_x0 as int) as i32,
        y0: imax(ys as int, prc_y0 as int) as i32,
        x1: imin(xe as int, prc_x1 as int) as i32,
        y1: imin(ye as int, prc_y1 as int) as i32,
    }
}

/// The rectangle of precinct `p` of a band: cell `p` of the code-block group
/// grid that starts at `(cbgx, cbgy)` and is `pw` cells wide, cut to the band.
pub open spec fn precinct_rect(
    band: (i32, i32, i32, i32),
    cbgx: i32,
    cbgy: i32,
    pw: u32,
    gw: nat,
    gh: nat,
    p: u32,
) -> (i32, i32, i32, i32) {
    let xs = grid_pos(cbgx as int, p % pw, gw);
    let ys = grid_pos(cbgy as int, p / pw, gh);
    let xe = (xs + pow2(gw)) as i32;
    let ye = (ys + pow2(gh)) as i32;
    (
        imax(xs as int, band.0 as int) as i32,
        imax(ys as int, band.1 as int) as i32,
        imin(xe as int, band.2 as int) as i32,
        imin(ye as int, band.3 as int) as i32,
    )
}

/// Number of code-blocks across and down a precinct, and in all.
pub open spec fn precinct_cells(rect: (i32, i32, i32, i32), ew: nat, eh: nat) -> (u32, u32, u32) {
    let cw = cell_count(align_down(rect.0 as int, ew) as int, align_up(rect.2 as int, ew) as int, ew);
    let ch = cell_count(align_down(rect.1 as int, eh) as int, align_up(rect.3 as int, eh) as int, eh);
    (cw, ch, count_product(cw, ch))
}

/// The precinct has the layout that its band gives it: its rectangle, its
/// code-block grid and each of its code-blocks.
pub open spec fn precinct_matches(
    prc: Precinct,
    band: (i32, i32, i32, i32),
    cbgx: i32,
    cbgy: i32,
    pw: u32,
    gw: nat,
    gh: nat,
    ew: nat,
    eh: nat,
    p: u32,
) -> bool {
    let rect = precinct_rect(band, cbgx, cbgy, pw, gw, gh, p);
    let (cw, ch, n) = precinct_cells(rect, ew, eh);
    let tlx = align_down(rect.0 as int, ew);
    let tly = align_down(rect.1 as int, eh);
    &&& prc.x0 == rect.0 && prc.y0 == rect.1 && prc.x1 == rect.2 && prc.y1 == rect.3
    &&& prc.cw == cw && prc.ch == ch
    &&& prc.cblks@.len() == n
    &&& forall|k: int| 0 <= k < n ==> #[trigger] prc.cblks@[k] == code_block_spec(
        rect.0, rect.1, rect.2, rect.3, tlx, tly, cw, ew, eh, k as u32)
}

/// Precinct `p` has more code-blocks than records of `block_size` bytes that
/// 32 bits can address.
pub open spec fn precinct_too_large(
    band: (i32, i32, i32, i32),
    cbgx: i32,
    cbgy: i32,
    pw: u32,
    gw: nat,
    gh: nat,
    ew: nat,
    eh: nat,
    p: u32,
    block_size: u32,
) -> bool {
    let rect = precinct_rect(band, cbgx, cbgy, pw, gw, gh, p);
    precinct_cells(rect, ew, eh).2 > u32::MAX / block_size
}

/// Position `index` of a grid of cells of side `2^expn` from `origin`.
fn grid_position(origin: i32, index: u32, expn: u32) -> (r: i32)
    requires
        expn <= 31,
    ensures
        r == grid_pos(origin as int, index, expn as nat),
{
    let step = pow2_i64(expn);
    #[verifier::truncate]
    let i = index as i32;
    proof {
        assert(-0x8000_0000 * 0x8000_0000 <= (i as int) * step <= 0x7fff_ffff * 0x8000_0000) by (nonlinear_arith)
            requires
                -0x8000_0000 <= i <= 0x7fff_ffff,
                1 <= step <= 0x8000_0000,
        ;
    }
    #[verifier::truncate]
    let r = (origin as i64 + (i as i64) * step) as i32;
    r
}

/// `v` rounded down to a multiple of `2^e`.
fn align_down_exec(v: i32, e: u32) -> (r: i32)
    requires
        e <= 31,
    ensures
        r == align_down(v as int, e as nat),
{
    let q = int_floordivpow2(v, e);
    let d = pow2_i64(e);
    proof {
        assert(-0x8000_0000 * 0x8000_0000 <= (q as int) * d <= 0x7fff_ffff * 0x8000_0000) by (nonlinear_arith)
            requires
                -0x8000_0000 <= q <= 0x7fff_ffff,
                1 <= d <= 0x8000_0000,
        ;
    }
    #[verifier::truncate]
    let r = ((q as i64) * d) as i32;
    r
}

/// `v` rounded up to a multiple of `2^e`, in 32-bit arithmetic.
fn align_up_exec(v: i32, e: u32) -> (r: i32)
    requires
        e <= 31,
    ensures
        r == align_up(v as int, e as nat),
{
    let q = int_ceildivpow2(v, e);
    let d = pow2_i64(e);
    proof {
        assert(-0x8000_0000 * 0x8000_0000 <= (q as int) * d <= 0x7fff_ffff * 0x8000_0000) by (nonlinear_arith)
            requires
                -0x8000_0000 <= q <= 0x7fff_ffff,
                1 <= d <= 0x8000_0000,
        ;
    }
    #[verifier::truncate]
    let r = ((q as i64) * d) as i32;
    r
}

/// Number of cells of side `2^e` between two aligned bounds.
fn cell_count_exec(lo: i32, hi: i32, e: u32) -> (r: u32)
    requires
        e <= 31,
    ensures
        r == cell_count(lo as int, hi as int, e as nat),
{
    #[verifier::truncate]
    let diff = (hi as i64 - lo as i64) as i32;
    let d = pow2_i64(e);
    let q = floor_div_i64(diff as i64, d);
    #[verifier::truncate]
    let r = q as u32;
    r
}

/// Lays out precinct `p` of a band and its code-blocks; fails when the
/// code-blocks would take more than 32 bits can address in records of
/// `block_size` bytes.
pub fn init_precinct(
    band: (i32, i32, i32, i32),
    cbgx: i32,
    cbgy: i32,
    pw: u32,
    gw: u32,
    gh: u32,
    ew: u32,
    eh: u32,
    p: u32,
    block_size: u32,
) -> (r: Result<Precinct, TcdError>)
    requires
        pw > 0,
        gw <= 31,
        gh <= 31,
        ew <= 31,
        eh <= 31,
        block_size > 0,
    ensures
        r is Err <==> precinct_too_large(band, cbgx, cbgy, pw, gw as nat, gh as nat, ew as nat, eh as nat, p, block_size),
        r matches Err(e) ==> e is CodeBlockDataTooLarge,
        r matches Ok(prc) ==> precinct_matches(prc, band, cbgx, cbgy, pw, gw as nat, gh as nat, ew as nat, eh as nat, p),
{
    let xs = grid_position(cbgx, p % pw, gw);
    let ys = grid_position(cbgy, p / pw, gh);
    let sw = pow2_i64(gw);
    let sh = pow2_i64(gh);
    #[verifier::truncate]
    let xe = (xs as i64 + sw) as i32;
    #[verifier::truncate]
    let ye = (ys as i64 + sh) as i32;
    let x0 = if xs >= band.0 { xs } else { band.0 };
    let y0 = if ys >= band.1 { ys } else { band.1 };
    let x1 = if xe <= band.2 { xe } else { band.2 };
    let y1 = if ye <= band.3 { ye } else { band.3 };
    let tlx = align_down_exec(x0, ew);
    let tly = align_down_exec(y0, eh);
    let brx = align_up_exec(x1, ew);
    let bry = align_up_exec(y1, eh);
    let cw = cell_count_exec(tlx, brx, ew);
    let ch = cell_count_exec(tly, bry, eh);
    let n = cw.wrapping_mul(ch);
    assert(n == count_product(cw, ch));
    if u32::MAX / block_size < n {
        return Err(TcdError::CodeBlockDataTooLarge);
    }
    let ghost rect = (x0, y0, x1, y1);
    assert(rect == precinct_rect(band, cbgx, cbgy, pw, gw as nat, gh as nat, p));
    let mut cblks: Vec<CodeBlock> = Vec::new();
    let bw = pow2_i64(ew);
    let bh = pow2_i64(eh);
    let mut k: u32 = 0;
    while k < n
        invariant
            k <= n,
            n == count_product(cw, ch),
            ew <= 31,
            eh <= 31,
            bw == pow2(ew as nat),
            bh == pow2(eh as nat),
            1 <= bw <= 0x8000_0000,
            1 <= bh <= 0x8000_0000,
            cblks@.len() == k,
            forall|j: int| 0 <= j < k ==> #[trigger] cblks@[j] == code_block_spec(
                x0, y0, x1, y1, tlx, tly, cw, ew as nat, eh as nat, j as u32),
        decreases n - k,
    {
        assert(cw > 0) by {
            if cw == 0 {
                assert(count_product(cw, ch) == 0);
            }
        }
        let bxs = grid_position(tlx, k % cw, ew);
        let bys = grid_position(tly, k / cw, eh);
        #[verifier::truncate]
        let bxe = (bxs as i64 + bw) as i32;
        #[verifier::truncate]
        let bye = (bys as i64 + bh) as i32;
        let cblk = CodeBlock {
            x0: if bxs >= x0 { bxs } else { x0 },
            y0: if bys >= y0 { bys } else { y0 },
            x1: if bxe <= x1 { bxe } else { x1 },
            y1: if bye <= y1 { bye } else { y1 },
        };
        cblks.push(cblk);
        k = k + 1;
    }
    Ok(Precinct { x0, y0, x1, y1, cw, ch, cblks })
}

/// The rectangle of band `b` of resolution `resno` of a tile-component, at
/// `level` decompositions below the full resolution; the lowest resolution
/// has its single band at the resolution's own rectangle.
pub open spec fn band_rect(tc: (i32, i32, i32, i32), level: nat, resno: int, b: int) -> (i32, i32, i32, i32) {
    if resno == 0 {
        (
            ceil_div_pow2(tc.0 as int, level) as i32,
            ceil_div_pow2(tc.1 as int, level) as i32,
            ceil_div_pow2(tc.2 as int, level) as i32,
            ceil_div_pow2(tc.3 as int, level) as i32,
        )
    } else {
        let bandno = b + 1;
        let x0b = bandno % 2;
        let y0b = bandno / 2;
        (
            ceil_div_pow2(tc.0 - x0b * pow2(level), level + 1) as i32,
            ceil_div_pow2(tc.1 - y0b * pow2(level), level + 1) as i32,
            ceil_div_pow2(tc.2 - x0b * pow2(level), level + 1) as i32,
            ceil_div_pow2(tc.3 - y0b * pow2(level), level + 1) as i32,
        )
    }
}

/// The number of the band: 0 for the band of the lowest resolution, 1 to 3
/// for the HL, LH and HH bands of the others.
pub open spec fn band_number(resno: int, b: int) -> int {
    if resno == 0 { 0 } else { b + 1 }
}

/// The base-2 logarithm of the band's gain; a decoder of the irreversible
/// filter counts no gain.
pub open spec fn log2_gain(is_encoder: bool, qmfbid: u32, bandno: int) -> int {
    if !is_encoder && qmfbid == 0 {
        0
    } else if bandno == 0 {
        0
    } else if bandno == 3 {
        2
    } else {
        1
    }
}

/// The band is not coded: an encoder skips bands without area.
pub open spec fn band_skipped(is_encoder: bool, rect: (i32, i32, i32, i32)) -> bool {
    is_encoder && (rect.2 == rect.0 || rect.3 == rect.1)
}

/// The band has the layout that its resolution gives it: its number and
/// rectangle, its quantization step and magnitude bit-planes, and its
/// precincts; a skipped band has none of these.
pub open spec fn band_matches(
    band: Band,
    tc: (i32, i32, i32, i32),
    level: nat,
    resno: int,
    b: int,
    is_encoder: bool,
    qmfbid: u32,
    prec: u32,
    step: StepSize,
    numgbits: u32,
    cbgx: i32,
    cbgy: i32,
    pw: u32,
    ph: u32,
    gw: nat,
    gh: nat,
    ew: nat,
    eh: nat,
) -> bool {
    let rect = band_rect(tc, level, resno, b);
    let bandno = band_number(resno, b);
    &&& band.bandno == bandno
    &&& band.x0 == rect.0 && band.y0 == rect.1 && band.x1 == rect.2 && band.y1 == rect.3
    &&& band_skipped(is_encoder, rect) ==> {
        &&& band.precincts@.len() == 0
        &&& band.stepsize_mant == 0 && band.stepsize_exp == 0 && band.numbps == 0
    }
    &&& !band_skipped(is_encoder, rect) ==> {
        let rb = ((prec as i32) + log2_gain(is_encoder, qmfbid, bandno)) as i32;
        &&& band.stepsize_mant == step.mant
        &&& band.stepsize_exp == (rb - step.expn) as i32
        &&& band.numbps == (step.expn + (numgbits as i32) - 1) as i32
        &&& band.precincts@.len() == pw * ph
        &&& forall|p: int| 0 <= p < pw * ph ==> #[trigger] precinct_matches(
            band.precincts@[p], rect, cbgx, cbgy, pw, gw, gh, ew, eh, p as u32)
    }
}

/// Some precinct of the band has too many code-blocks.
pub open spec fn band_too_large(
    tc: (i32, i32, i32, i32),
    level: nat,
    resno: int,
    b: int,
    is_encoder: bool,
    cbgx: i32,
    cbgy: i32,
    pw: u32,
    ph: u32,
    gw: nat,
    gh: nat,
    ew: nat,
    eh: nat,
    block_size: u32,
) -> bool {
    let rect = band_rect(tc, level, resno, b);
    &&& !band_skipped(is_encoder, rect)
    &&& exists|p: int| 0 <= p < pw * ph && #[trigger] precinct_too_large(
        rect, cbgx, cbgy, pw, gw, gh, ew, eh, p as u32, block_size)
}

/// Lays out band `b` of resolution `resno` of a tile-component and its
/// precincts; fails when a precinct has too many code-blocks.
#[verifier::rlimit(30)]
pub fn init_band(
    tc: (i32, i32, i32, i32),
    numres: u32,
    resno: u32,
    b: u32,
    is_encoder: bool,
    qmfbid: u32,
    prec: u32,
    step: StepSize,
    numgbits: u32,
    cbgx: i32,
    cbgy: i32,
    pw: u32,
    ph: u32,
    gw: u32,
    gh: u32,
    ew: u32,
    eh: u32,
    block_size: u32,
) -> (r: Result<Band, TcdError>)
    requires
        0 <= tc.0 <= tc.2,
        0 <= tc.1 <= tc.3,
        resno < numres <= 33,
        resno == 0 ==> b == 0,
        b < 3,
        pw * ph <= u32::MAX,
        gw <= 31,
        gh <= 31,
        ew <= 31,
        eh <= 31,
        block_size > 0,
    ensures
        ({
            let level = (numres - 1 - resno) as nat;
            &&& r is Err <==> band_too_large(tc, level, resno as int, b as int, is_encoder, cbgx, cbgy, pw, ph,
                gw as nat, gh as nat, ew as nat, eh as nat, block_size)
            &&& r matches Err(e) ==> e is CodeBlockDataTooLarge
            &&& r matches Ok(band) ==> band_matches(band, tc, level, resno as int, b as int, is_encoder, qmfbid, prec,
                step, numgbits, cbgx, cbgy, pw, ph, gw as nat, gh as nat, ew as nat, eh as nat)
        }),
{
    let level = numres - 1 - resno;
    let ghost rect = band_rect(tc, level as nat, resno as int, b as int);
    let bandno: u32;
    let x0: i32;
    let y0: i32;
    let x1: i32;
    let y1: i32;
    if resno == 0 {
        bandno = 0;
        x0 = int_ceildivpow2(tc.0, level);
        y0 = int_ceildivpow2(tc.1, level);
        x1 = int_ceildivpow2(tc.2, level);
        y1 = int_ceildivpow2(tc.3, level);
    } else {
        bandno = b + 1;
        let d = pow2_i64(level);
        let ox: i64;
        if bandno % 2 == 1 {
            ox = d;
        } else {
            ox = 0;
        }
        let oy: i64;
        if bandno / 2 == 1 {
            oy = d;
        } else {
            oy = 0;
        }
        proof {
            let xb: int = (b as int + 1) % 2;
            let yb: int = (b as int + 1) / 2;
            let pl: int = pow2(level as nat) as int;
            if xb == 1 {
                assert(ox == pl);
                assert(xb * pl == pl) by (nonlinear_arith)
                    requires
                        xb == 1,
                ;
            } else {
                assert(ox == 0);
                assert(xb == 0);
                assert(xb * pl == 0) by (nonlinear_arith)
                    requires
                        xb == 0,
                ;
            }
            if yb == 1 {
                assert(oy == pl);
                assert(yb * pl == pl) by (nonlinear_arith)
                    requires
                        yb == 1,
                ;
            } else {
                assert(oy == 0);
                assert(yb == 0);
                assert(yb * pl == 0) by (nonlinear_arith)
                    requires
                        yb == 0,
                ;
            }
        }
        x0 = int64_ceildivpow2(tc.0 as i64 - ox, level + 1);
        y0 = int64_ceildivpow2(tc.1 as i64 - oy, level + 1);
        x1 = int64_ceildivpow2(tc.2 as i64 - ox, level + 1);
        y1 = int64_ceildivpow2(tc.3 as i64 - oy, level + 1);
    }
    assert((x0, y0, x1, y1) == rect);
    if is_encoder && (x1 == x0 || y1 == y0) {
        return Ok(Band {
            bandno,
            x0,
            y0,
            x1,
            y1,
            stepsize_mant: 0,
            stepsize_exp: 0,
            numbps: 0,
            precincts: Vec::new(),
        });
    }
    let gain: i32 = if !is_encoder && qmfbid == 0 {
        0
    } else if bandno == 0 {
        0
    } else if bandno == 3 {
        2
    } else {
        1
    };
    #[verifier::truncate]
    let prec_i = prec as i32;
    #[verifier::truncate]
    let rb = (prec_i as i64 + gain as i64) as i32;
    #[verifier::truncate]
    let stepsize_exp = (rb as i64 - step.expn as i64) as i32;
    #[verifier::truncate]
    let gbits = numgbits as i32;
    #[verifier::truncate]
    let numbps = (step.expn as i64 + gbits as i64 - 1) as i32;
    let n = pw * ph;
    let mut precincts: Vec<Precinct> = Vec::new();
    let mut p: u32 = 0;
    while p < n
        invariant
            p <= n,
            n == pw * ph,
            gw <= 31,
            gh <= 31,
            ew <= 31,
            eh <= 31,
            block_size > 0,
            precincts@.len() == p,
            forall|j: int| 0 <= j < p ==> #[trigger] precinct_matches(
                precincts@[j], rect, cbgx, cbgy, pw, gw as nat, gh as nat, ew as nat, eh as nat, j as u32),
            forall|j: int| 0 <= j < p ==> !#[trigger] precinct_too_large(
                rect, cbgx, cbgy, pw, gw as nat, gh as nat, ew as nat, eh as nat, j as u32, block_size),
            rect == (x0, y0, x1, y1),
            !band_skipped(is_encoder, rect),
            rect == band_rect(tc, level as nat, resno as int, b as int),
            level == numres - 1 - resno,
        decreases n - p,
    {
        assert(pw > 0) by {
            if pw == 0 {
                assert(pw * ph == 0);
            }
        }
        let prc = init_precinct((x0, y0, x1, y1), cbgx, cbgy, pw, gw, gh, ew, eh, p, block_size);
        match prc {
            Ok(prc) => {
                precincts.push(prc);
            },
            Err(e) => {
                assert(precinct_too_large(rect, cbgx, cbgy, pw, gw as nat, gh as nat, ew as nat, eh as nat,
                    (p as int) as u32, block_size));
                assert(!band_skipped(is_encoder, rect));
                assert(band_too_large(tc, level as nat, resno as int, b as int, is_encoder, cbgx, cbgy, pw, ph,
                    gw as nat, gh as nat, ew as nat, eh as nat, block_size));
                return Err(e);
            },
        }
        p = p + 1;
    }
    Ok(Band { bandno, x0, y0, x1, y1, stepsize_mant: step.mant, stepsize_exp, numbps, precincts })
}

/// Bytes of the record that a decoder keeps for each precinct.
pub const PRECINCT_RECORD_SIZE: u32 = 56;

/// The component coding parameters are those a codestream can carry for a
/// tile-component: at most 33 resolution levels, a precinct size for each
/// (of at least two samples above the lowest level), and a step size for
/// each sub-band.
pub open spec fn tccp_wf(tccp: &ComponentCodingParams) -> bool {
    &&& tccp.numresolutions <= 33
    &&& tccp.prcw@.len() >= tccp.numresolutions
    &&& tccp.prch@.len() >= tccp.numresolutions
    &&& forall|r: int| 0 <= r < tccp.numresolutions ==> #[trigger] tccp.prcw@[r] <= 31 && tccp.prch@[r] <= 31
    &&& forall|r: int| 1 <= r < tccp.numresolutions ==> #[trigger] tccp.prcw@[r] >= 1 && tccp.prch@[r] >= 1
    &&& tccp.numresolutions >= 1 ==> tccp.stepsizes@.len() >= 3 * tccp.numresolutions - 2
}

/// The index of the step size of band `b` of resolution `resno`.
pub open spec fn band_index(resno: int, b: int) -> int {
    if resno == 0 { 0 } else { 3 * resno - 2 + b }
}

/// The rectangle of resolution level `resno` of a tile-component.
pub open spec fn res_rect(tc: (i32, i32, i32, i32), numres: int, resno: int) -> (i32, i32, i32, i32) {
    let level = (numres - 1 - resno) as nat;
    (
        ceil_div_pow2(tc.0 as int, level) as i32,
        ceil_div_pow2(tc.1 as int, level) as i32,
        ceil_div_pow2(tc.2 as int, level) as i32,
        ceil_div_pow2(tc.3 as int, level) as i32,
    )
}

/// The precinct partition of a resolution level: the precinct-aligned start
/// and end on each axis, and the number of precincts across and down.
pub open spec fn res_precinct_grid(rect: (i32, i32, i32, i32), pdx: nat, pdy: nat) -> (i32, i32, int, int, u32, u32) {
    let tlx = align_down(rect.0 as int, pdx);
    let tly = align_down(rect.1 as int, pdy);
    let brx = ceil_div_pow2(rect.2 as int, pdx) * pow2(pdx);
    let bry = ceil_div_pow2(rect.3 as int, pdy) * pow2(pdy);
    let pw: u32 = if rect.0 == rect.2 { 0 } else { ((brx - tlx) / (pow2(pdx) as int)) as u32 };
    let ph: u32 = if rect.1 == rect.3 { 0 } else { ((bry - tly) / (pow2(pdy) as int)) as u32 };
    (tlx, tly, brx, bry, pw, ph)
}

/// The code-block group grid of the bands of a resolution level: its
/// origin and the base-2 logarithms of the group and code-block sizes.
pub open spec fn res_cbg_grid(tccp: &ComponentCodingParams, resno: int, tlx: i32, tly: i32) -> (i32, i32, nat, nat, nat, nat) {
    let pdx = tccp.prcw@[resno] as int;
    let pdy = tccp.prch@[resno] as int;
    let cbgx: i32 = if resno == 0 { tlx } else { ceil_div_pow2(tlx as int, 1) as i32 };
    let cbgy: i32 = if resno == 0 { tly } else { ceil_div_pow2(tly as int, 1) as i32 };
    let gw: nat = if resno == 0 { pdx as nat } else { (pdx - 1) as nat };
    let gh: nat = if resno == 0 { pdy as nat } else { (pdy - 1) as nat };
    let ew: nat = imin(tccp.cblkw as int, gw as int) as nat;
    let eh: nat = imin(tccp.cblkh as int, gh as int) as nat;
    (cbgx, cbgy, gw, gh, ew, eh)
}

/// Why laying out resolution level `resno` fails, if it does: a precinct
/// partition that 31 bits cannot hold, more precincts than 32 bits can count
/// or address, or a precinct with too many code-blocks.
pub open spec fn res_error(
    tc: (i32, i32, i32, i32),
    tccp: &ComponentCodingParams,
    resno: int,
    is_encoder: bool,
    block_size: u32,
) -> Option<TcdError> {
    let numres = tccp.numresolutions as int;
    let rect = res_rect(tc, numres, resno);
    let (tlx, tly, brx, bry, pw, ph) = res_precinct_grid(rect, tccp.prcw@[resno] as nat, tccp.prch@[resno] as nat);
    let (cbgx, cbgy, gw, gh, ew, eh) = res_cbg_grid(tccp, resno, tlx, tly);
    let numbands = if resno == 0 { 1int } else { 3int };
    let level = (numres - 1 - resno) as nat;
    if brx > i32::MAX || bry > i32::MAX {
        Some(TcdError::IntegerOverflow)
    } else if pw as int * ph as int > u32::MAX || pw as int * ph as int > u32::MAX / PRECINCT_RECORD_SIZE {
        Some(TcdError::DataTooLarge)
    } else if exists|b: int| 0 <= b < numbands && #[trigger] band_too_large(tc, level, resno, b, is_encoder,
        cbgx, cbgy, pw, ph, gw, gh, ew, eh, block_size) {
        Some(TcdError::CodeBlockDataTooLarge)
    } else {
        None
    }
}

/// The resolution level has the layout that the tile-component and its
/// coding parameters give it, with an empty window of interest.
pub open spec fn res_matches(
    res: Resolution,
    tc: (i32, i32, i32, i32),
    tccp: &ComponentCodingParams,
    resno: int,
    is_encoder: bool,
    qmfbid: u32,
    prec: u32,
) -> bool {
    let numres = tccp.numresolutions as int;
    let rect = res_rect(tc, numres, resno);
    let (tlx, tly, brx, bry, pw, ph) = res_precinct_grid(rect, tccp.prcw@[resno] as nat, tccp.prch@[resno] as nat);
    let (cbgx, cbgy, gw, gh, ew, eh) = res_cbg_grid(tccp, resno, tlx, tly);
    let numbands = if resno == 0 { 1int } else { 3int };
    let level = (numres - 1 - resno) as nat;
    &&& res.x0 == rect.0 && res.y0 == rect.1 && res.x1 == rect.2 && res.y1 == rect.3
    &&& res.pw == pw && res.ph == ph
    &&& res.numbands == numbands
    &&& res.bands@.len() == numbands
    &&& forall|b: int| 0 <= b < numbands ==> #[trigger] band_matches(res.bands@[b], tc, level, resno, b, is_encoder,
        qmfbid, prec, tccp.stepsizes@[band_index(resno, b)], tccp.numgbits, cbgx, cbgy, pw, ph, gw, gh, ew, eh)
    &&& res.win_x0 == 0 && res.win_y0 == 0 && res.win_x1 == 0 && res.win_y1 == 0
}

/// The end of the precinct partition on an axis, on which the partition is
/// refused when it passes the largest 32-bit signed integer.
fn precinct_end(v: i32, e: u32) -> (r: i64)
    requires
        e <= 31,
    ensures
        r == ceil_div_pow2(v as int, e as nat) * pow2(e as nat),
        -0x4000_0000_0000_0000 <= r <= 0x4000_0000_0000_0000,
        v >= 0 ==> r >= 0,
{
    let q = int_ceildivpow2(v, e);
    let d = pow2_i64(e);
    proof {
        assert(-0x8000_0000 * 0x8000_0000 <= (q as int) * d <= 0x7fff_ffff * 0x8000_0000) by (nonlinear_arith)
            requires
                -0x8000_0000 <= q <= 0x7fff_ffff,
                1 <= d <= 0x8000_0000,
        ;
        if v >= 0 {
            assert((q as int) * d >= 0) by (nonlinear_arith)
                requires
                    q >= 0,
                    d >= 1,
            ;
        }
    }
    (q as i64) * d
}

/// Lays out resolution level `resno` of a tile-component with its bands,
/// precincts and code-blocks; fails as `res_error` says.
#[verifier::rlimit(30)]
pub fn init_resolution(
    tc: (i32, i32, i32, i32),
    tccp: &ComponentCodingParams,
    resno: u32,
    is_encoder: bool,
    prec: u32,
    block_size: u32,
) -> (r: Result<Resolution, TcdError>)
    requires
        0 <= tc.0 <= tc.2,
        0 <= tc.1 <= tc.3,
        tccp_wf(tccp),
        resno < tccp.numresolutions,
        block_size > 0,
    ensures
        r matches Err(e) ==> res_error(tc, tccp, resno as int, is_encoder, block_size) == Some(e),
        r is Ok ==> res_error(tc, tccp, resno as int, is_encoder, block_size) is None,
        r matches Ok(res) ==> res_matches(res, tc, tccp, resno as int, is_encoder, tccp.qmfbid, prec),
{
    let numres = tccp.numresolutions;
    let level = numres - 1 - resno;
    let ghost rect = res_rect(tc, numres as int, resno as int);
    let x0 = int_ceildivpow2(tc.0, level);
    let y0 = int_ceildivpow2(tc.1, level);
    let x1 = int_ceildivpow2(tc.2, level);
    let y1 = int_ceildivpow2(tc.3, level);
    assert((x0, y0, x1, y1) == rect);
    let pdx = tccp.prcw[resno as usize];
    let pdy = tccp.prch[resno as usize];
    let tlx = align_down_exec(x0, pdx);
    let tly = align_down_exec(y0, pdy);
    let brx = precinct_end(x1, pdx);
    let bry = precinct_end(y1, pdy);
    let ghost grid = res_precinct_grid(rect, pdx as nat, pdy as nat);
    if brx > 0x7fff_ffff || bry > 0x7fff_ffff {
        return Err(TcdError::IntegerOverflow);
    }
    let dx = pow2_i64(pdx);
    let dy = pow2_i64(pdy);
    let pw: u32;
    if x0 == x1 {
        pw = 0;
    } else {
        let q = floor_div_i64(brx - tlx as i64, dx);
        #[verifier::truncate]
        let w = q as u32;
        pw = w;
    }
    let ph: u32;
    if y0 == y1 {
        ph = 0;
    } else {
        let q = floor_div_i64(bry - tly as i64, dy);
        #[verifier::truncate]
        let h = q as u32;
        ph = h;
    }
    assert(grid == (tlx, tly, brx as int, bry as int, pw, ph));
    if pw != 0 && u32::MAX / pw < ph {
        proof {
            assert(pw as int * ph as int > u32::MAX) by (nonlinear_arith)
                requires
                    pw > 0,
                    (u32::MAX as int) / (pw as int) < ph,
            ;
        }
        return Err(TcdError::DataTooLarge);
    }
    proof {
        if pw != 0 {
            assert(pw as int * ph as int <= u32::MAX) by (nonlinear_arith)
                requires
                    pw > 0,
                    (u32::MAX as int) / (pw as int) >= ph,
            ;
        } else {
            assert(pw as int * ph as int == 0) by (nonlinear_arith)
                requires
                    pw == 0,
            ;
        }
    }
    let n = pw * ph;
    if u32::MAX / PRECINCT_RECORD_SIZE < n {
        return Err(TcdError::DataTooLarge);
    }
    let cbgx: i32;
    let cbgy: i32;
    let gw: u32;
    let gh: u32;
    if resno == 0 {
        cbgx = tlx;
        cbgy = tly;
        gw = pdx;
        gh = pdy;
    } else {
        cbgx = int_ceildivpow2(tlx, 1);
        cbgy = int_ceildivpow2(tly, 1);
        gw = pdx - 1;
        gh = pdy - 1;
    }
    let ew = if tccp.cblkw <= gw { tccp.cblkw } else { gw };
    let eh = if tccp.cblkh <= gh { tccp.cblkh } else { gh };
    let ghost cbg = res_cbg_grid(tccp, resno as int, tlx, tly);
    assert(cbg == (cbgx, cbgy, gw as nat, gh as nat, ew as nat, eh as nat));
    let numbands: u32 = if resno == 0 { 1 } else { 3 };
    let mut bands: Vec<Band> = Vec::new();
    let mut b: u32 = 0;
    while b < numbands
        invariant
            b <= numbands,
            numbands == (if resno == 0 { 1u32 } else { 3u32 }),
            0 <= tc.0 <= tc.2,
            0 <= tc.1 <= tc.3,
            tccp_wf(tccp),
            resno < tccp.numresolutions,
            numres == tccp.numresolutions,
            level == numres - 1 - resno,
            pw * ph <= u32::MAX,
            gw <= 31,
            gh <= 31,
            ew <= gw,
            eh <= gh,
            block_size > 0,
            brx <= i32::MAX && bry <= i32::MAX,
            pw * ph <= u32::MAX / PRECINCT_RECORD_SIZE,
            rect == res_rect(tc, numres as int, resno as int),
            grid == res_precinct_grid(rect, tccp.prcw@[resno as int] as nat, tccp.prch@[resno as int] as nat),
            grid == (tlx, tly, brx as int, bry as int, pw, ph),
            cbg == res_cbg_grid(tccp, resno as int, tlx, tly),
            cbg == (cbgx, cbgy, gw as nat, gh as nat, ew as nat, eh as nat),
            bands@.len() == b,
            forall|j: int| 0 <= j < b ==> #[trigger] band_matches(bands@[j], tc, level as nat, resno as int, j,
                is_encoder, tccp.qmfbid, prec, tccp.stepsizes@[band_index(resno as int, j)], tccp.numgbits,
                cbgx, cbgy, pw, ph, gw as nat, gh as nat, ew as nat, eh as nat),
            forall|j: int| 0 <= j < b ==> !#[trigger] band_too_large(tc, level as nat, resno as int, j, is_encoder,
                cbgx, cbgy, pw, ph, gw as nat, gh as nat, ew as nat, eh as nat, block_size),
        decreases numbands - b,
    {
        let si: usize = if resno == 0 { 0 } else { (3 * resno - 2 + b) as usize };
        let step = tccp.stepsizes[si];
        let band = init_band(tc, numres, resno, b, is_encoder, tccp.qmfbid, prec, step, tccp.numgbits,
            cbgx, cbgy, pw, ph, gw, gh, ew, eh, block_size);
        match band {
            Ok(band) => {
                bands.push(band);
            },
            Err(e) => {
                assert(band_too_large(tc, level as nat, resno as int, (b as int), is_encoder,
                    cbgx, cbgy, pw, ph, gw as nat, gh as nat, ew as nat, eh as nat, block_size));
                proof {
                    let g = res_precinct_grid(rect, tccp.prcw@[resno as int] as nat, tccp.prch@[resno as int] as nat);
                    let c = res_cbg_grid(tccp, resno as int, g.0, g.1);
                    let lvl = (tccp.numresolutions - 1 - resno) as nat;
                    assert(band_too_large(tc, lvl, resno as int, b as int, is_encoder,
                        c.0, c.1, g.4, g.5, c.2, c.3, c.4, c.5, block_size));
                }
                return Err(e);
            },
        }
        b = b + 1;
    }
    Ok(Resolution {
        x0,
        y0,
        x1,
        y1,
        pw,
        ph,
        numbands,
        bands,
        win_x0: 0,
        win_y0: 0,
        win_x1: 0,
        win_y1: 0,
    })
}

/// The first failure among resolution levels `from` and above of a
/// tile-component.
pub open spec fn first_res_error(
    tc: (i32, i32, i32, i32),
    tccp: &ComponentCodingParams,
    is_encoder: bool,
    block_size: u32,
    from: int,
) -> Option<TcdError>
    decreases tccp.numresolutions - from,
{
    if from < 0 || from >= tccp.numresolutions {
        None
    } else {
        match res_error(tc, tccp, from, is_encoder, block_size) {
            Some(e) => Some(e),
            None => first_res_error(tc, tccp, is_encoder, block_size, from + 1),
        }
    }
}

/// The rectangle of a tile-component: the tile on the component's grid.
pub open spec fn comp_rect(tile: (i32, i32, i32, i32), dx: u32, dy: u32) -> (i32, i32, i32, i32) {
    (
        ceil_div(tile.0 as int, dx as int) as i32,
        ceil_div(tile.1 as int, dy as int) as i32,
        ceil_div(tile.2 as int, dx as int) as i32,
        ceil_div(tile.3 as int, dy as int) as i32,
    )
}

/// The bytes that the samples of a tile-component take, four per sample.
pub open spec fn comp_data_size(tc: (i32, i32, i32, i32)) -> int {
    (tc.2 - tc.0) * (tc.3 - tc.1) * 4
}

/// Why laying out a tile-component fails, if it does: an encoder cannot
/// address its samples, or a resolution level fails.
pub open spec fn comp_error(
    tile: (i32, i32, i32, i32),
    dx: u32,
    dy: u32,
    tccp: &ComponentCodingParams,
    is_encoder: bool,
    block_size: u32,
) -> Option<TcdError> {
    let tc = comp_rect(tile, dx, dy);
    if is_encoder && comp_data_size(tc) > usize::MAX {
        Some(TcdError::DataTooLarge)
    } else {
        first_res_error(tc, tccp, is_encoder, block_size, 0)
    }
}

/// The number of resolution levels decoded when the decoder drops `reduce`
/// of them: at least one.
pub open spec fn decoded_resolutions(numres: u32, reduce: u32) -> u32 {
    if numres < reduce { 1 } else { (numres - reduce) as u32 }
}

/// The tile-component `b` is `a` laid out for component `compno` of the
/// tile: its rectangle, its resolution levels and their contents, an empty
/// window of interest, and, for an encoder, the size of its samples; its
/// samples are kept.
pub open spec fn comp_matches(
    b: TileComponent,
    a: TileComponent,
    compno: u32,
    tile: (i32, i32, i32, i32),
    dx: u32,
    dy: u32,
    prec: u32,
    tccp: &ComponentCodingParams,
    reduce: u32,
    is_encoder: bool,
) -> bool {
    let tc = comp_rect(tile, dx, dy);
    &&& b.compno == compno
    &&& b.x0 == tc.0 && b.y0 == tc.1 && b.x1 == tc.2 && b.y1 == tc.3
    &&& b.numresolutions == tccp.numresolutions
    &&& b.minimum_num_resolutions == decoded_resolutions(tccp.numresolutions, reduce)
    &&& b.data == a.data
    &&& b.data_size_needed == (if is_encoder { comp_data_size(tc) } else { a.data_size_needed as int })
    &&& b.data_win@.len() == 0
    &&& b.win_x0 == 0 && b.win_y0 == 0 && b.win_x1 == 0 && b.win_y1 == 0
    &&& b.resolutions@.len() == tccp.numresolutions
    &&& forall|r: int| 0 <= r < tccp.numresolutions ==> #[trigger] res_matches(
        b.resolutions@[r], tc, tccp, r, is_encoder, tccp.qmfbid, prec)
}

proof fn lemma_ceil_div_ordered(a: int, b: int, d: int)
    requires
        a <= b,
        d > 0,
    ensures
        ceil_div(a, d) <= ceil_div(b, d),
{
    lemma_div_is_ordered(a + d - 1, b + d - 1, d);
}

proof fn lemma_first_res_error_step(
    tc: (i32, i32, i32, i32),
    tccp: &ComponentCodingParams,
    is_encoder: bool,
    block_size: u32,
    from: int,
)
    requires
        0 <= from < tccp.numresolutions,
        res_error(tc, tccp, from, is_encoder, block_size) is None,
    ensures
        first_res_error(tc, tccp, is_encoder, block_size, from) == first_res_error(tc, tccp, is_encoder, block_size, from + 1),
{
}

/// Lays out component `compno` of a tile: its rectangle, the number of
/// resolution levels decoded, the size of its samples for an encoder, and its
/// resolution levels; the window of interest is emptied. Fails as
/// `comp_error` says.
#[verifier::rlimit(30)]
pub fn init_tile_component(
    tilec: &mut TileComponent,
    compno: u32,
    tile: (i32, i32, i32, i32),
    dx: u32,
    dy: u32,
    prec: u32,
    tccp: &ComponentCodingParams,
    reduce: u32,
    is_encoder: bool,
    block_size: u32,
) -> (r: Result<(), TcdError>)
    requires
        0 <= tile.0 <= tile.2,
        0 <= tile.1 <= tile.3,
        1 <= dx <= i32::MAX,
        1 <= dy <= i32::MAX,
        tccp_wf(tccp),
        block_size > 0,
    ensures
        r matches Err(e) ==> comp_error(tile, dx, dy, tccp, is_encoder, block_size) == Some(e),
        r is Ok ==> comp_error(tile, dx, dy, tccp, is_encoder, block_size) is None,
        r is Ok ==> comp_matches(*final(tilec), *old(tilec), compno, tile, dx, dy, prec, tccp, reduce, is_encoder),
        final(tilec).data == old(tilec).data,
{
    let x0 = int_ceildiv(tile.0, dx as i32);
    let y0 = int_ceildiv(tile.1, dy as i32);
    let x1 = int_ceildiv(tile.2, dx as i32);
    let y1 = int_ceildiv(tile.3, dy as i32);
    proof {
        lemma_ceil_div_ordered(tile.0 as int, tile.2 as int, dx as int);
        lemma_ceil_div_ordered(tile.1 as int, tile.3 as int, dy as int);
    }
    let ghost tc = comp_rect(tile, dx, dy);
    assert(tc == (x0, y0, x1, y1));
    tilec.x0 = x0;
    tilec.y0 = y0;
    tilec.x1 = x1;
    tilec.y1 = y1;
    tilec.compno = compno;
    let numres = tccp.numresolutions;
    tilec.numresolutions = numres;
    tilec.minimum_num_resolutions = if numres < reduce { 1 } else { numres - reduce };
    if is_encoder {
        let w = (x1 - x0) as usize;
        let h = (y1 - y0) as usize;
        if h > 0 && w > usize::MAX / h {
            proof {
                assert(w * h > usize::MAX) by (nonlinear_arith)
                    requires
                        h > 0,
                        w > usize::MAX / h,
                ;
                assert(w * h * 4 > usize::MAX) by (nonlinear_arith)
                    requires
                        w * h > usize::MAX,
                ;
            }
            return Err(TcdError::DataTooLarge);
        }
        proof {
            if h > 0 {
                assert(w * h <= usize::MAX) by (nonlinear_arith)
                    requires
                        h > 0,
                        w <= usize::MAX / h,
                ;
            } else {
                assert(w * h == 0) by (nonlinear_arith)
                    requires
                        h == 0,
                ;
            }
        }
        let size = w * h;
        if usize::MAX / 4 < size {
            return Err(TcdError::DataTooLarge);
        }
        tilec.data_size_needed = size * 4;
        assert(comp_data_size(tc) == size * 4);
    }
    assert(!(is_encoder && comp_data_size(tc) > usize::MAX));
    tilec.data_win = Vec::new();
    tilec.win_x0 = 0;
    tilec.win_y0 = 0;
    tilec.win_x1 = 0;
    tilec.win_y1 = 0;
    let ghost before = *tilec;
    let mut resolutions: Vec<Resolution> = Vec::new();
    let mut resno: u32 = 0;
    while resno < numres
        invariant
            resno <= numres,
            numres == tccp.numresolutions,
            tccp_wf(tccp),
            block_size > 0,
            0 <= x0 <= x1,
            0 <= y0 <= y1,
            tc == (x0, y0, x1, y1),
            tc == comp_rect(tile, dx, dy),
            !(is_encoder && comp_data_size(tc) > usize::MAX),
            *tilec == before,
            before.data == old(tilec).data,
            first_res_error(tc, tccp, is_encoder, block_size, 0) == first_res_error(tc, tccp, is_encoder, block_size, resno as int),
            resolutions@.len() == resno,
            forall|j: int| 0 <= j < resno ==> #[trigger] res_matches(resolutions@[j], tc, tccp, j, is_encoder, tccp.qmfbid, prec),
        decreases numres - resno,
    {
        let res = init_resolution((x0, y0, x1, y1), tccp, resno, is_encoder, prec, block_size);
        match res {
            Ok(res) => {
                proof {
                    lemma_first_res_error_step(tc, tccp, is_encoder, block_size, resno as int);
                }
                resolutions.push(res);
            },
            Err(e) => {
                return Err(e);
            },
        }
        resno = resno + 1;
    }
    tilec.resolutions = resolutions;
    Ok(())
}

/// The start on one axis of tile `index` of a tiling that starts at `start`
/// with tiles of `size`, in 32-bit unsigned arithmetic.
pub open spec fn tile_origin(start: u32, index: u32, size: u32) -> int {
    (start + (index * size) % 0x1_0000_0000) % 0x1_0000_0000
}

/// The tile's extent on one axis, cut to the image, as 32-bit signed values.
pub open spec fn tile_extent(start: u32, index: u32, size: u32, image_lo: u32, image_hi: u32) -> (i32, i32) {
    let origin = tile_origin(start, index, size);
    let end = if origin + size > u32::MAX { u32::MAX as int } else { origin + size };
    (imax(origin, image_lo as int) as i32, imin(end, image_hi as int) as i32)
}

/// The rectangle of tile `tileno` on the reference grid.
pub open spec fn tile_rect(tcd: &TileCoder, tileno: u32) -> (i32, i32, i32, i32) {
    let p = tileno % tcd.cp.tw;
    let q = tileno / tcd.cp.tw;
    let (x0, x1) = tile_extent(tcd.cp.tx0, p, tcd.cp.tdx, tcd.image.x0, tcd.image.x1);
    let (y0, y1) = tile_extent(tcd.cp.ty0, q, tcd.cp.tdy, tcd.image.y0, tcd.image.y1);
    (x0, y0, x1, y1)
}

/// The first failure among components `from` and above of tile `tileno`.
pub open spec fn first_comp_error(
    tcd: &TileCoder,
    tileno: u32,
    is_encoder: bool,
    block_size: u32,
    from: int,
) -> Option<TcdError>
    decreases tcd.tile.comps@.len() - from,
{
    if from < 0 || from >= tcd.tile.comps@.len() {
        None
    } else {
        let ic = tcd.image.comps@[from];
        let tccp = &tcd.cp.tcps@[tileno as int].tccps@[from];
        match comp_error(tile_rect(tcd, tileno), ic.dx, ic.dy, tccp, is_encoder, block_size) {
            Some(e) => Some(e),
            None => first_comp_error(tcd, tileno, is_encoder, block_size, from + 1),
        }
    }
}

/// Why laying out tile `tileno` fails, if it does: a rectangle that 31 bits
/// cannot hold or that is empty, a first component without resolution
/// levels, or a component that fails.
pub open spec fn init_tile_error(tcd: &TileCoder, tileno: u32, is_encoder: bool, block_size: u32) -> Option<TcdError> {
    let rect = tile_rect(tcd, tileno);
    if rect.0 < 0 || rect.2 <= rect.0 {
        Some(TcdError::TileXUnsupported)
    } else if rect.1 < 0 || rect.3 <= rect.1 {
        Some(TcdError::TileYUnsupported)
    } else if tcd.cp.tcps@[tileno as int].tccps@[0].numresolutions == 0 {
        Some(TcdError::NoResolution)
    } else {
        first_comp_error(tcd, tileno, is_encoder, block_size, 0)
    }
}

/// The tile coder holds what a layout of its tiles needs: a tiling of
/// positive width, as many tile-components and coding parameter sets as the
/// image has components, component separations that 31 bits hold, and valid
/// coding parameters.
pub open spec fn init_tile_wf(tcd: &TileCoder, tileno: u32) -> bool {
    &&& tcd.cp.tw > 0
    &&& 0 <= tileno < tcd.cp.tcps@.len()
    &&& tcd.tile.comps@.len() >= 1
    &&& tcd.image.comps@.len() == tcd.tile.comps@.len()
    &&& tcd.cp.tcps@[tileno as int].tccps@.len() == tcd.tile.comps@.len()
    &&& forall|c: int| 0 <= c < tcd.image.comps@.len() ==> {
        let ic = #[trigger] tcd.image.comps@[c];
        1 <= ic.dx <= i32::MAX && 1 <= ic.dy <= i32::MAX
    }
    &&& forall|c: int| 0 <= c < tcd.tile.comps@.len() ==> tccp_wf(#[trigger] &tcd.cp.tcps@[tileno as int].tccps@[c])
}

proof fn lemma_first_comp_error_step(tcd: &TileCoder, tileno: u32, is_encoder: bool, block_size: u32, from: int)
    requires
        0 <= from < tcd.tile.comps@.len(),
        comp_error(tile_rect(tcd, tileno), tcd.image.comps@[from].dx, tcd.image.comps@[from].dy,
            &tcd.cp.tcps@[tileno as int].tccps@[from], is_encoder, block_size) is None,
    ensures
        first_comp_error(tcd, tileno, is_encoder, block_size, from)
            == first_comp_error(tcd, tileno, is_encoder, block_size, from + 1),
{
}

/// The first failure among components `from` and above depends only on the
/// tiling, the image and the coding parameters.
proof fn lemma_first_comp_error_frame(a: &TileCoder, b: &TileCoder, tileno: u32, is_encoder: bool, block_size: u32, from: int)
    requires
        a.cp == b.cp,
        a.image.x0 == b.image.x0 && a.image.y0 == b.image.y0,
        a.image.x1 == b.image.x1 && a.image.y1 == b.image.y1,
        a.image.comps@.len() == b.image.comps@.len(),
        forall|c: int| 0 <= c < a.image.comps@.len() ==> (#[trigger] a.image.comps@[c]).dx == b.image.comps@[c].dx
            && a.image.comps@[c].dy == b.image.comps@[c].dy,
        a.tile.comps@.len() == b.tile.comps@.len(),
        a.tile.comps@.len() == a.image.comps@.len(),
    ensures
        first_comp_error(a, tileno, is_encoder, block_size, from) == first_comp_error(b, tileno, is_encoder, block_size, from),
    decreases a.tile.comps@.len() - from,
{
    if 0 <= from < a.tile.comps@.len() {
        assert(a.image.comps@[from].dx == b.image.comps@[from].dx);
        lemma_first_comp_error_frame(a, b, tileno, is_encoder, block_size, from + 1);
    }
}

impl TileCoder {
    /// Lays out tile `tileno`, which becomes the coder's current tile: its
    /// rectangle on the reference grid, which is set whatever the outcome, and for
    /// each component its rectangle, resolution levels, sub-bands, precincts
    /// and code-blocks, with records of `block_size` bytes per code-block;
    /// the highest resolution decoded of every component starts at 0. An
    /// encoder skips bands without area and sizes the samples of each
    /// tile-component. Fails as `init_tile_error` says.
    #[verifier::rlimit(40)]
    pub fn init_tile(&mut self, tileno: u32, is_encoder: bool, block_size: u32) -> (r: Result<(), TcdError>)
        requires
            init_tile_wf(old(self), tileno),
            block_size > 0,
        ensures
            r matches Err(e) ==> init_tile_error(old(self), tileno, is_encoder, block_size) == Some(e),
            r is Ok ==> init_tile_error(old(self), tileno, is_encoder, block_size) is None,
            final(self).cp == old(self).cp,
            final(self).tcd_tileno == tileno,
            final(self).is_decoder == old(self).is_decoder,
            final(self).win_x0 == old(self).win_x0 && final(self).win_y0 == old(self).win_y0,
            final(self).win_x1 == old(self).win_x1 && final(self).win_y1 == old(self).win_y1,
            final(self).whole_tile_decoding == old(self).whole_tile_decoding,
            final(self).used_component == old(self).used_component,
            final(self).image.x0 == old(self).image.x0 && final(self).image.y0 == old(self).image.y0,
            final(self).image.x1 == old(self).image.x1 && final(self).image.y1 == old(self).image.y1,
            final(self).image.comps@.len() == old(self).image.comps@.len(),
            final(self).tile.comps@.len() == old(self).tile.comps@.len(),
            final(self).tile.x0 == tile_rect(old(self), tileno).0,
            final(self).tile.y0 == tile_rect(old(self), tileno).1,
            final(self).tile.x1 == tile_rect(old(self), tileno).2,
            final(self).tile.y1 == tile_rect(old(self), tileno).3,
            r is Ok ==> {
                let rect = tile_rect(old(self), tileno);
                &&& forall|c: int| 0 <= c < old(self).tile.comps@.len() ==> {
                    let ic = old(self).image.comps@[c];
                    &&& final(self).image.comps@[c] == (crate::tcd::model::ImageComponent { resno_decoded: 0, ..ic })
                    &&& comp_matches(#[trigger] final(self).tile.comps@[c], old(self).tile.comps@[c], c as u32, rect,
                        ic.dx, ic.dy, ic.prec, &old(self).cp.tcps@[tileno as int].tccps@[c], old(self).cp.reduce, is_encoder)
                }
            },
    {
        let tw = self.cp.tw;
        let p = tileno % tw;
        let q = tileno / tw;
        let ox = self.cp.tx0.wrapping_add(p.wrapping_mul(self.cp.tdx));
        let x0u = if ox >= self.image.x0 { ox } else { self.image.x0 };
        let ex = uint_adds(ox, self.cp.tdx);
        let x1u = if ex <= self.image.x1 { ex } else { self.image.x1 };
        #[verifier::truncate]
        let x0 = x0u as i32;
        #[verifier::truncate]
        let x1 = x1u as i32;
        let oy = self.cp.ty0.wrapping_add(q.wrapping_mul(self.cp.tdy));
        let y0u = if oy >= self.image.y0 { oy } else { self.image.y0 };
        let ey = uint_adds(oy, self.cp.tdy);
        let y1u = if ey <= self.image.y1 { ey } else { self.image.y1 };
        #[verifier::truncate]
        let y0 = y0u as i32;
        #[verifier::truncate]
        let y1 = y1u as i32;
        let ghost rect = tile_rect(old(self), tileno);
        assert(rect == (x0, y0, x1, y1));
        self.tcd_tileno = tileno;
        self.tile.x0 = x0;
        self.tile.y0 = y0;
        self.tile.x1 = x1;
        self.tile.y1 = y1;
        if x0 < 0 || x1 <= x0 {
            return Err(TcdError::TileXUnsupported);
        }
        if y0 < 0 || y1 <= y0 {
            return Err(TcdError::TileYUnsupported);
        }
        let tileno_u = tileno as usize;
        if self.cp.tcps[tileno_u].tccps[0].numresolutions == 0 {
            return Err(TcdError::NoResolution);
        }
        let n = self.tile.comps.len();
        let reduce = self.cp.reduce;
        let ghost before = *self;
        proof {
            lemma_first_comp_error_frame(old(self), &before, tileno, is_encoder, block_size, 0);
        }
        let mut c: usize = 0;
        while c < n
            invariant
                c <= n,
                n == self.tile.comps@.len(),
                n == before.tile.comps@.len(),
                n == old(self).tile.comps@.len(),
                init_tile_wf(old(self), tileno),
                tileno_u == tileno,
                block_size > 0,
                reduce == old(self).cp.reduce,
                rect == (x0, y0, x1, y1),
                rect == tile_rect(old(self), tileno),
                0 <= x0 < x1,
                0 <= y0 < y1,
                self.cp == old(self).cp,
                self.tcd_tileno == tileno,
                self.is_decoder == old(self).is_decoder,
                self.win_x0 == old(self).win_x0 && self.win_y0 == old(self).win_y0,
                self.win_x1 == old(self).win_x1 && self.win_y1 == old(self).win_y1,
                self.whole_tile_decoding == old(self).whole_tile_decoding,
                self.used_component == old(self).used_component,
                self.image.x0 == old(self).image.x0 && self.image.y0 == old(self).image.y0,
                self.image.x1 == old(self).image.x1 && self.image.y1 == old(self).image.y1,
                self.image.comps@.len() == old(self).image.comps@.len(),
                self.tile.x0 == x0 && self.tile.y0 == y0 && self.tile.x1 == x1 && self.tile.y1 == y1,
                init_tile_error(old(self), tileno, is_encoder, block_size)
                    == first_comp_error(old(self), tileno, is_encoder, block_size, c as int),
                forall|k: int| c <= k < n ==> #[trigger] self.image.comps@[k] == old(self).image.comps@[k],
                forall|k: int| c <= k < n ==> #[trigger] self.tile.comps@[k] == old(self).tile.comps@[k],
                forall|k: int| 0 <= k < c ==> #[trigger] self.image.comps@[k]
                    == (crate::tcd::model::ImageComponent { resno_decoded: 0, ..old(self).image.comps@[k] }),
                forall|k: int| 0 <= k < c ==> comp_matches(#[trigger] self.tile.comps@[k], old(self).tile.comps@[k], k as u32, rect,
                    old(self).image.comps@[k].dx, old(self).image.comps@[k].dy, old(self).image.comps@[k].prec,
                    &old(self).cp.tcps@[tileno as int].tccps@[k], old(self).cp.reduce, is_encoder),
            decreases n - c,
        {
            let ghost start_img = self.image.comps@;
            let ghost start_tile = self.tile.comps@;
            let mut ic = self.image.comps[c];
            ic.resno_decoded = 0;
            self.image.comps.set(c, ic);
            let dx = ic.dx;
            let dy = ic.dy;
            let prec = ic.prec;
            proof {
                assert(old(self).image.comps@[c as int].dx == dx);
                assert(tccp_wf(&old(self).cp.tcps@[tileno as int].tccps@[c as int]));
            }
            let ghost prev = self.tile.comps@;
            let tccp = &self.cp.tcps[tileno_u].tccps[c];
            let tilec = &mut self.tile.comps[c];
            let step = init_tile_component(tilec, c as u32, (x0, y0, x1, y1), dx, dy, prec, tccp, reduce, is_encoder, block_size);
            proof {
                assert(self.tile.comps@ == prev.update(c as int, self.tile.comps@[c as int]));
            }
            match step {
                Ok(()) => {
                    proof {
                        lemma_first_comp_error_step(old(self), tileno, is_encoder, block_size, c as int);
                        let oic = old(self).image.comps@[c as int];
                        assert(self.image.comps@[c as int] == (crate::tcd::model::ImageComponent { resno_decoded: 0, ..oic }));
                        assert(prev[c as int] == old(self).tile.comps@[c as int]);
                        assert(comp_matches(self.tile.comps@[c as int], old(self).tile.comps@[c as int], c as u32, rect,
                            oic.dx, oic.dy, oic.prec, &old(self).cp.tcps@[tileno as int].tccps@[c as int], old(self).cp.reduce, is_encoder));
                        assert forall|k: int| 0 <= k < c + 1 implies #[trigger] self.image.comps@[k]
                            == (crate::tcd::model::ImageComponent { resno_decoded: 0, ..old(self).image.comps@[k] }) by {
                            if k < c {
                                assert(self.image.comps@[k] == start_img[k]);
                            }
                        }
                        assert forall|k: int| 0 <= k < c + 1 implies comp_matches(#[trigger] self.tile.comps@[k],
                            old(self).tile.comps@[k], k as u32, rect,
                            old(self).image.comps@[k].dx, old(self).image.comps@[k].dy, old(self).image.comps@[k].prec,
                            &old(self).cp.tcps@[tileno as int].tccps@[k], old(self).cp.reduce, is_encoder) by {
                            if k < c {
                                assert(self.tile.comps@[k] == start_tile[k]);
                            }
                        }
                    }
                },
                Err(e) => {
                    return Err(e);
                },
            }
            c = c + 1;
        }
        Ok(())
    }
}

/// The quantization step exponent of a coded band is the component's
/// precision, plus the band's gain, less the step size's exponent: a
/// decoder of the irreversible 9-7 filter counts no gain, and otherwise the
/// gain is 0 for the low-pass band, 1 for the HL and LH bands and 2 for the
/// HH band.
pub proof fn lemma_band_step_exponent(
    band: Band,
    tc: (i32, i32, i32, i32),
    level: nat,
    resno: int,
    b: int,
    is_encoder: bool,
    qmfbid: u32,
    prec: u32,
    step: StepSize,
    numgbits: u32,
    cbgx: i32,
    cbgy: i32,
    pw: u32,
    ph: u32,
    gw: nat,
    gh: nat,
    ew: nat,
    eh: nat,
)
    requires
        band_matches(band, tc, level, resno, b, is_encoder, qmfbid, prec, step, numgbits, cbgx, cbgy, pw, ph, gw,
            gh, ew, eh),
        !band_skipped(is_encoder, (band.x0, band.y0, band.x1, band.y1)),
        0 <= b < 3,
        prec <= i32::MAX - 2,
    ensures
        !is_encoder && qmfbid == 0 ==> band.stepsize_exp == (prec - step.expn) as i32,
        is_encoder || qmfbid != 0 ==> band.stepsize_exp == (prec + (if band.bandno == 0 {
            0int
        } else if band.bandno == 3 {
            2int
        } else {
            1int
        }) - step.expn) as i32,
        band.bandno <= 3,
{
}

/// Each resolution level of a tile-component is the next one halved,
/// rounded up: level `r` of a rectangle is level `r + 1` of it divided by
/// two on each side.
pub proof fn lemma_resolutions_halve(tc: (i32, i32, i32, i32), numres: int, r: int)
    requires
        0 <= tc.0,
        0 <= tc.1,
        0 <= tc.2,
        0 <= tc.3,
        0 <= r,
        r + 1 < numres,
    ensures
        ({
            let lo = res_rect(tc, numres, r);
            let hi = res_rect(tc, numres, r + 1);
            &&& lo.0 == ceil_div_pow2(hi.0 as int, 1)
            &&& lo.1 == ceil_div_pow2(hi.1 as int, 1)
            &&& lo.2 == ceil_div_pow2(hi.2 as int, 1)
            &&& lo.3 == ceil_div_pow2(hi.3 as int, 1)
        }),
{
    let level = (numres - 1 - (r + 1)) as nat;
    assert((numres - 1 - r) as nat == level + 1);
    lemma_ceil_div_pow2_range(tc.0 as int, level);
    lemma_ceil_div_pow2_range(tc.1 as int, level);
    lemma_ceil_div_pow2_range(tc.2 as int, level);
    lemma_ceil_div_pow2_range(tc.3 as int, level);
    lemma_ceil_div_pow2_range(tc.0 as int, level + 1);
    lemma_ceil_div_pow2_range(tc.1 as int, level + 1);
    lemma_ceil_div_pow2_range(tc.2 as int, level + 1);
    lemma_ceil_div_pow2_range(tc.3 as int, level + 1);
    lemma_ceil_div_pow2_twice(tc.0 as int, level, 1);
    lemma_ceil_div_pow2_twice(tc.1 as int, level, 1);
    lemma_ceil_div_pow2_twice(tc.2 as int, level, 1);
    lemma_ceil_div_pow2_twice(tc.3 as int, level, 1);
}

/// Every code-block lies within its precinct, and every precinct within its
/// band.
pub proof fn lemma_blocks_nest(
    band: (i32, i32, i32, i32),
    cbgx: i32,
    cbgy: i32,
    pw: u32,
    gw: nat,
    gh: nat,
    ew: nat,
    eh: nat,
    p: u32,
    k: u32,
)
    ensures
        ({
            let rect = precinct_rect(band, cbgx, cbgy, pw, gw, gh, p);
            let (cw, ch, n) = precinct_cells(rect, ew, eh);
            let cb = code_block_spec(rect.0, rect.1, rect.2, rect.3, align_down(rect.0 as int, ew),
                align_down(rect.1 as int, eh), cw, ew, eh, k);
            &&& band.0 <= rect.0 && band.1 <= rect.1 && rect.2 <= band.2 && rect.3 <= band.3
            &&& rect.0 <= cb.x0 && rect.1 <= cb.y0 && cb.x1 <= rect.2 && cb.y1 <= rect.3
        }),
{
}

proof fn lemma_align(x: int, m: int)
    requires
        x >= 0,
        m >= 1,
    ensures
        0 <= (x / m) * m <= x,
        x <= ((x + m - 1) / m) * m < x + m,
        ((x + m - 1) / m) * m - (x / m) * m == ((x + m - 1) / m - x / m) * m,
{
    lemma_fundamental_div_mod(x, m);
    lemma_fundamental_div_mod(x + m - 1, m);
    assert(0 <= (x / m) * m <= x) by (nonlinear_arith)
        requires
            x == m * (x / m) + x % m,
            0 <= x % m < m,
            x >= 0,
            m >= 1,
    ;
    assert(x <= ((x + m - 1) / m) * m < x + m) by (nonlinear_arith)
        requires
            x + m - 1 == m * ((x + m - 1) / m) + (x + m - 1) % m,
            0 <= (x + m - 1) % m < m,
    ;
    assert(((x + m - 1) / m) * m - (x / m) * m == ((x + m - 1) / m - x / m) * m) by (nonlinear_arith);
}

/// The precincts of a resolution level that has area cover it exactly: the
/// partition starts at or before the level and ends at or after it, and is
/// as many precincts wide and high as fit between its start and its end.
pub proof fn lemma_precincts_cover(rect: (i32, i32, i32, i32), pdx: nat, pdy: nat)
    requires
        0 <= rect.0 < rect.2,
        0 <= rect.1 < rect.3,
        pdx <= 31,
        pdy <= 31,
    ensures
        ({
            let (tlx, tly, brx, bry, pw, ph) = res_precinct_grid(rect, pdx, pdy);
            &&& tlx <= rect.0 && rect.2 <= brx && tlx + pw * pow2(pdx) == brx
            &&& tly <= rect.1 && rect.3 <= bry && tly + ph * pow2(pdy) == bry
        }),
{
    lemma_pow2_pos(pdx);
    lemma_pow2_pos(pdy);
    let mx = pow2(pdx) as int;
    let my = pow2(pdy) as int;
    vstd::arithmetic::power2::lemma_pow2_strictly_increases(pdx, 32);
    vstd::arithmetic::power2::lemma_pow2_strictly_increases(pdy, 32);
    vstd::arithmetic::power2::lemma2_to64();
    lemma_align(rect.0 as int, mx);
    lemma_align(rect.2 as int, mx);
    lemma_align(rect.1 as int, my);
    lemma_align(rect.3 as int, my);
    lemma_div_is_ordered(rect.0 as int, rect.2 as int + mx - 1, mx);
    lemma_div_is_ordered(rect.1 as int, rect.3 as int + my - 1, my);
    let kx = (rect.2 as int + mx - 1) / mx - rect.0 as int / mx;
    let ky = (rect.3 as int + my - 1) / my - rect.1 as int / my;
    assert(kx * mx == ((rect.2 as int + mx - 1) / mx) * mx - (rect.0 as int / mx) * mx) by (nonlinear_arith)
        requires
            kx == (rect.2 as int + mx - 1) / mx - rect.0 as int / mx,
    ;
    assert(ky * my == ((rect.3 as int + my - 1) / my) * my - (rect.1 as int / my) * my) by (nonlinear_arith)
        requires
            ky == (rect.3 as int + my - 1) / my - rect.1 as int / my,
    ;
    vstd::arithmetic::div_mod::lemma_div_multiples_vanish(kx, mx);
    vstd::arithmetic::div_mod::lemma_div_multiples_vanish(ky, my);
    assert(mx * kx == kx * mx) by (nonlinear_arith);
    assert(my * ky == ky * my) by (nonlinear_arith);
    assert(kx * mx < 0x1_0000_0000 * mx) by (nonlinear_arith)
        requires
            kx * mx < 0x8000_0000 + mx,
            mx >= 1,
            mx < 0x1_0000_0000,
    ;
    assert(ky * my < 0x1_0000_0000 * my) by (nonlinear_arith)
        requires
            ky * my < 0x8000_0000 + my,
            my >= 1,
            my < 0x1_0000_0000,
    ;
    assert(kx < 0x1_0000_0000) by (nonlinear_arith)
        requires
            kx * mx < 0x1_0000_0000 * mx,
            mx >= 1,
    ;
    assert(ky < 0x1_0000_0000) by (nonlinear_arith)
        requires
            ky * my < 0x1_0000_0000 * my,
            my >= 1,
    ;
    assert(kx >= 0) by (nonlinear_arith)
        requires
            kx * mx >= 0,
            mx >= 1,
    ;
    assert(ky >= 0) by (nonlinear_arith)
        requires
            ky * my >= 0,
            my >= 1,
    ;
}

} // verus!
