//! The window of interest of a partial decode, on tile-components, resolution
//! levels and sub-bands.
use crate::tcd::math::{ceil_div, ceil_div_pow2, uint_adds, uint_ceildiv, uint_ceildivpow2};
use crate::tcd::model::TileCoder;
use vstd::bits::lemma_u32_shr_is_div;
use vstd::arithmetic::power2::pow2;
use vstd::bits::lemma_u32_shl_is_mul;
use vstd::prelude::*;

verus! {

/// The start of the window on a tile-component axis: the window's start on
/// the reference grid, brought onto the component's grid, but not before the
/// tile-component.
pub open spec fn window_start(tile_lo: int, win: u32, d: u32) -> int {
    let w = ceil_div(win as int, d as int);
    if tile_lo >= w { tile_lo } else { w }
}

/// The end of the window on a tile-component axis, not past the tile-component.
pub open spec fn window_end(tile_hi: int, win: u32, d: u32) -> int {
    let w = ceil_div(win as int, d as int);
    if tile_hi <= w { tile_hi } else { w }
}

/// A tile-component coordinate mapped onto a sub-band coordinate after `nb`
/// decompositions, for the band offset `b`.
pub open spec fn subband_coord(tc: int, nb: nat, b: int) -> int {
    if nb == 0 {
        tc
    } else if tc <= pow2((nb - 1) as nat) * b {
        0
    } else {
        ceil_div_pow2(tc - pow2((nb - 1) as nat) * b, nb)
    }
}

/// The tile coder describes component `compno` of the current tile.
pub open spec fn comp_in_range(tcd: &TileCoder, compno: int) -> bool {
    &&& 0 <= tcd.tcd_tileno < tcd.cp.tcps@.len()
    &&& 0 <= compno < tcd.tile.comps@.len()
    &&& 0 <= compno < tcd.image.comps@.len()
    &&& 0 <= compno < tcd.cp.tcps@[tcd.tcd_tileno as int].tccps@.len()
    &&& tcd.image.comps@[compno].dx > 0
    &&& tcd.image.comps@[compno].dy > 0
    &&& 0 <= tcd.tile.comps@[compno].x0 <= tcd.tile.comps@[compno].x1
    &&& 0 <= tcd.tile.comps@[compno].y0 <= tcd.tile.comps@[compno].y1
}

/// Whether the window of interest, widened by the filter margin, meets the
/// given area of sub-band `bandno` of resolution `resno` of component `compno`.
pub open spec fn subband_area_of_interest_spec(
    tcd: &TileCoder,
    compno: int,
    resno: int,
    bandno: int,
    band_x0: int,
    band_y0: int,
    band_x1: int,
    band_y1: int,
) -> bool {
    let tilec = tcd.tile.comps@[compno];
    let image_comp = tcd.image.comps@[compno];
    let margin: int = if tcd.cp.tcps@[tcd.tcd_tileno as int].tccps@[compno].qmfbid == 1 { 2 } else { 3 };
    let tcx0 = window_start(tilec.x0 as int, tcd.win_x0, image_comp.dx);
    let tcy0 = window_start(tilec.y0 as int, tcd.win_y0, image_comp.dy);
    let tcx1 = window_end(tilec.x1 as int, tcd.win_x1, image_comp.dx);
    let tcy1 = window_end(tilec.y1 as int, tcd.win_y1, image_comp.dy);
    let nb: nat = if resno == 0 { (tilec.numresolutions - 1) as nat } else { (tilec.numresolutions - resno) as nat };
    let x0b = bandno % 2;
    let y0b = bandno / 2;
    let tbx0 = subband_coord(tcx0, nb, x0b);
    let tby0 = subband_coord(tcy0, nb, y0b);
    let tbx1 = subband_coord(tcx1, nb, x0b);
    let tby1 = subband_coord(tcy1, nb, y0b);
    let lo_x = if tbx0 < margin { 0 } else { tbx0 - margin };
    let lo_y = if tby0 < margin { 0 } else { tby0 - margin };
    let hi_x = if tbx1 + margin > u32::MAX { u32::MAX as int } else { tbx1 + margin };
    let hi_y = if tby1 + margin > u32::MAX { u32::MAX as int } else { tby1 + margin };
    band_x0 < hi_x && band_y0 < hi_y && band_x1 > lo_x && band_y1 > lo_y
}

/// The start of the window on the tile-component.
pub(crate) fn comp_window_start(tile_lo: i32, win: u32, d: u32) -> (r: u32)
    requires
        tile_lo >= 0,
        d > 0,
    ensures
        r == window_start(tile_lo as int, win, d),
{
    let w = uint_ceildiv(win, d);
    if tile_lo as u32 >= w { tile_lo as u32 } else { w }
}

/// The end of the window on the tile-component.
pub(crate) fn comp_window_end(tile_hi: i32, win: u32, d: u32) -> (r: u32)
    requires
        tile_hi >= 0,
        d > 0,
    ensures
        r == window_end(tile_hi as int, win, d),
{
    let w = uint_ceildiv(win, d);
    if tile_hi as u32 <= w { tile_hi as u32 } else { w }
}

/// A tile-component coordinate mapped onto a sub-band coordinate.
fn band_coord(tc: u32, nb: u32, b: u32) -> (r: u32)
    requires
        nb <= 32,
        b <= 1,
    ensures
        r == subband_coord(tc as int, nb as nat, b as int),
{
    if nb == 0 {
        tc
    } else {
        proof {
            vstd::bits::lemma_u32_pow2_no_overflow((nb - 1) as nat);
            lemma_u32_shl_is_mul(1, (nb - 1) as u32);
        }
        let offset: u32 = if b == 0 { 0 } else { 1u32 << (nb - 1) };
        assert(pow2((nb - 1) as nat) * b == offset) by {
            if b == 0 {
                assert(pow2((nb - 1) as nat) * 0 == 0);
            } else {
                assert(pow2((nb - 1) as nat) * 1 == pow2((nb - 1) as nat));
            }
        }
        if tc <= offset {
            0
        } else {
            uint_ceildivpow2(tc - offset, nb)
        }
    }
}

impl TileCoder {
    /// Whether the window of interest, widened by the margin that the wavelet
    /// filter reaches, meets the given area of a sub-band.
    pub fn is_subband_area_of_interest(
        &self,
        compno: u32,
        resno: u32,
        bandno: u32,
        band_x0: u32,
        band_y0: u32,
        band_x1: u32,
        band_y1: u32,
    ) -> (r: bool)
        requires
            comp_in_range(self, compno as int),
            resno < self.tile.comps@[compno as int].numresolutions <= 33,
            bandno <= 3,
        ensures
            r == subband_area_of_interest_spec(
                self,
                compno as int,
                resno as int,
                bandno as int,
                band_x0 as int,
                band_y0 as int,
                band_x1 as int,
                band_y1 as int,
            ),
    {
        let tcp = &self.cp.tcps[self.tcd_tileno as usize];
        let filter_margin: u32 = if tcp.tccps[compno as usize].qmfbid == 1 { 2 } else { 3 };
        let tilec = &self.tile.comps[compno as usize];
        let image_comp = &self.image.comps[compno as usize];
        let tcx0 = comp_window_start(tilec.x0, self.win_x0, image_comp.dx);
        let tcy0 = comp_window_start(tilec.y0, self.win_y0, image_comp.dy);
        let tcx1 = comp_window_end(tilec.x1, self.win_x1, image_comp.dx);
        let tcy1 = comp_window_end(tilec.y1, self.win_y1, image_comp.dy);
        let nb = if resno == 0 { tilec.numresolutions - 1 } else { tilec.numresolutions - resno };
        let x0b = bandno & 1;
        let y0b = bandno >> 1;
        assert(x0b == bandno % 2 && y0b == bandno / 2) by (bit_vector)
            requires
                x0b == bandno & 1,
                y0b == bandno >> 1,
                bandno <= 3,
        ;
        let mut tbx0 = band_coord(tcx0, nb, x0b);
        let mut tby0 = band_coord(tcy0, nb, y0b);
        let mut tbx1 = band_coord(tcx1, nb, x0b);
        let mut tby1 = band_coord(tcy1, nb, y0b);
        if tbx0 < filter_margin {
            tbx0 = 0;
        } else {
            tbx0 = tbx0 - filter_margin;
        }
        if tby0 < filter_margin {
            tby0 = 0;
        } else {
            tby0 = tby0 - filter_margin;
        }
        tbx1 = uint_adds(tbx1, filter_margin);
        tby1 = uint_adds(tby1, filter_margin);
        band_x0 < tbx1 && band_y0 < tby1 && band_x1 > tbx0 && band_y1 > tby0
    }
}

proof fn lemma_ceil_div_mono(x: int, y: int, d: int)
    requires
        x <= y,
        d > 0,
    ensures
        ceil_div(x, d) <= ceil_div(y, d),
{
    vstd::arithmetic::div_mod::lemma_div_is_ordered(x + d - 1, y + d - 1, d);
}

proof fn lemma_subband_coord_mono(s: int, t: int, nb: nat, b: int)
    requires
        s <= t,
    ensures
        subband_coord(s, nb, b) <= subband_coord(t, nb, b),
{
    if nb > 0 {
        let off = pow2((nb - 1) as nat) * b;
        let p = pow2(nb) as int;
        vstd::arithmetic::power2::lemma_pow2_pos(nb);
        if t > off {
            crate::tcd::math::lemma_ceil_div_pow2_range(t - off, nb);
            if s > off {
                vstd::arithmetic::div_mod::lemma_div_is_ordered(s - off + p - 1, t - off + p - 1, p);
            }
        }
    }
}

/// Enlarging the window of interest or the area of a sub-band never makes
/// them stop meeting: when the window of `b` contains that of `a`, and the
/// second area contains the first, an area of interest for `a` is one for `b`.
pub proof fn lemma_area_of_interest_grows(
    a: &TileCoder,
    b: &TileCoder,
    compno: int,
    resno: int,
    bandno: int,
    area_a: (int, int, int, int),
    area_b: (int, int, int, int),
)
    requires
        comp_in_range(a, compno),
        comp_in_range(b, compno),
        b.tile.comps@[compno] == a.tile.comps@[compno],
        b.image.comps@[compno] == a.image.comps@[compno],
        b.cp.tcps@[b.tcd_tileno as int].tccps@[compno].qmfbid == a.cp.tcps@[a.tcd_tileno as int].tccps@[compno].qmfbid,
        b.win_x0 <= a.win_x0,
        b.win_y0 <= a.win_y0,
        b.win_x1 >= a.win_x1,
        b.win_y1 >= a.win_y1,
        area_b.0 <= area_a.0,
        area_b.1 <= area_a.1,
        area_b.2 >= area_a.2,
        area_b.3 >= area_a.3,
    ensures
        subband_area_of_interest_spec(a, compno, resno, bandno, area_a.0, area_a.1, area_a.2, area_a.3)
            ==> subband_area_of_interest_spec(b, compno, resno, bandno, area_b.0, area_b.1, area_b.2, area_b.3),
{
    let tilec = a.tile.comps@[compno];
    let ic = a.image.comps@[compno];
    lemma_ceil_div_mono(b.win_x0 as int, a.win_x0 as int, ic.dx as int);
    lemma_ceil_div_mono(b.win_y0 as int, a.win_y0 as int, ic.dy as int);
    lemma_ceil_div_mono(a.win_x1 as int, b.win_x1 as int, ic.dx as int);
    lemma_ceil_div_mono(a.win_y1 as int, b.win_y1 as int, ic.dy as int);
    let nb: nat = if resno == 0 { (tilec.numresolutions - 1) as nat } else { (tilec.numresolutions - resno) as nat };
    let x0b = bandno % 2;
    let y0b = bandno / 2;
    lemma_subband_coord_mono(
        window_start(tilec.x0 as int, b.win_x0, ic.dx), window_start(tilec.x0 as int, a.win_x0, ic.dx), nb, x0b);
    lemma_subband_coord_mono(
        window_start(tilec.y0 as int, b.win_y0, ic.dy), window_start(tilec.y0 as int, a.win_y0, ic.dy), nb, y0b);
    lemma_subband_coord_mono(
        window_end(tilec.x1 as int, a.win_x1, ic.dx), window_end(tilec.x1 as int, b.win_x1, ic.dx), nb, x0b);
    lemma_subband_coord_mono(
        window_end(tilec.y1 as int, a.win_y1, ic.dy), window_end(tilec.y1 as int, b.win_y1, ic.dy), nb, y0b);
}

/// Whether the window of interest covers tile-component `compno` closely
/// enough, at the reduced resolution, that the whole tile-component is decoded.
pub open spec fn whole_tilecomp_decoding_spec(tcd: &TileCoder, compno: int) -> bool {
    let tilec = tcd.tile.comps@[compno];
    let image_comp = tcd.image.comps@[compno];
    let tcx0 = window_start(tilec.x0 as int, tcd.win_x0, image_comp.dx);
    let tcy0 = window_start(tilec.y0 as int, tcd.win_y0, image_comp.dy);
    let tcx1 = window_end(tilec.x1 as int, tcd.win_x1, image_comp.dx);
    let tcy1 = window_end(tilec.y1 as int, tcd.win_y1, image_comp.dy);
    let shift = tilec.numresolutions - tilec.minimum_num_resolutions;
    &&& tcx0 >= tilec.x0
    &&& tcy0 >= tilec.y0
    &&& tcx1 <= tilec.x1
    &&& tcy1 <= tilec.y1
    &&& (shift >= 32 || {
        &&& (tcx0 - tilec.x0) / (pow2(shift as nat) as int) == 0
        &&& (tcy0 - tilec.y0) / (pow2(shift as nat) as int) == 0
        &&& (tilec.x1 - tcx1) / (pow2(shift as nat) as int) == 0
        &&& (tilec.y1 - tcy1) / (pow2(shift as nat) as int) == 0
    })
}

/// A tile-component is decoded whole exactly when the window of interest,
/// brought onto it and cut to it, leaves it on each of its four sides a
/// margin that the resolution levels it drops make vanish: each margin is
/// below `2^(numresolutions - minimum_num_resolutions)`.
pub proof fn lemma_whole_decoding_margins(tcd: &TileCoder, compno: int)
    requires
        comp_in_range(tcd, compno),
        tcd.tile.comps@[compno].minimum_num_resolutions <= tcd.tile.comps@[compno].numresolutions,
    ensures
        ({
            let tilec = tcd.tile.comps@[compno];
            let ic = tcd.image.comps@[compno];
            let tcx0 = window_start(tilec.x0 as int, tcd.win_x0, ic.dx);
            let tcy0 = window_start(tilec.y0 as int, tcd.win_y0, ic.dy);
            let tcx1 = window_end(tilec.x1 as int, tcd.win_x1, ic.dx);
            let tcy1 = window_end(tilec.y1 as int, tcd.win_y1, ic.dy);
            let limit = pow2((tilec.numresolutions - tilec.minimum_num_resolutions) as nat) as int;
            whole_tilecomp_decoding_spec(tcd, compno) <==> {
                &&& 0 <= tcx0 - tilec.x0 < limit
                &&& 0 <= tcy0 - tilec.y0 < limit
                &&& 0 <= tilec.x1 - tcx1 < limit
                &&& 0 <= tilec.y1 - tcy1 < limit
            }
        }),
{
    let tilec = tcd.tile.comps@[compno];
    let ic = tcd.image.comps@[compno];
    let shift = (tilec.numresolutions - tilec.minimum_num_resolutions) as nat;
    let limit = pow2(shift) as int;
    vstd::arithmetic::power2::lemma_pow2_pos(shift);
    let tcx0 = window_start(tilec.x0 as int, tcd.win_x0, ic.dx);
    let tcy0 = window_start(tilec.y0 as int, tcd.win_y0, ic.dy);
    let tcx1 = window_end(tilec.x1 as int, tcd.win_x1, ic.dx);
    let tcy1 = window_end(tilec.y1 as int, tcd.win_y1, ic.dy);
    lemma_ceil_div_bounds(tcd.win_x0 as int, ic.dx as int);
    lemma_ceil_div_bounds(tcd.win_y0 as int, ic.dy as int);
    lemma_ceil_div_bounds(tcd.win_x1 as int, ic.dx as int);
    lemma_ceil_div_bounds(tcd.win_y1 as int, ic.dy as int);
    if shift >= 32 {
        vstd::arithmetic::power2::lemma2_to64();
        if shift > 32 {
            vstd::arithmetic::power2::lemma_pow2_strictly_increases(32, shift);
        }
        assert(limit >= 0x1_0000_0000);
    } else {
        lemma_zero_quotient(tcx0 - tilec.x0, limit);
        lemma_zero_quotient(tcy0 - tilec.y0, limit);
        lemma_zero_quotient(tilec.x1 - tcx1, limit);
        lemma_zero_quotient(tilec.y1 - tcy1, limit);
    }
}

proof fn lemma_ceil_div_bounds(x: int, d: int)
    requires
        0 <= x <= u32::MAX,
        d >= 1,
    ensures
        0 <= ceil_div(x, d) <= u32::MAX,
{
    assert(0 <= (x + d - 1) / d <= x + 1) by (nonlinear_arith)
        requires
            0 <= x,
            d >= 1,
    ;
    if x == 0 {
        assert((d - 1) / d == 0) by (nonlinear_arith)
            requires
                d >= 1,
        ;
    } else {
        assert((x + d - 1) / d <= x) by (nonlinear_arith)
            requires
                x >= 1,
                d >= 1,
        ;
    }
}

proof fn lemma_zero_quotient(x: int, d: int)
    requires
        x >= 0,
        d >= 1,
    ensures
        x / d == 0 <==> x < d,
{
    if x < d {
        vstd::arithmetic::div_mod::lemma_basic_div(x, d);
    } else {
        vstd::arithmetic::div_mod::lemma_div_is_ordered(d, x, d);
        vstd::arithmetic::div_mod::lemma_div_by_self(d);
    }
}

/// An area of a sub-band that holds a point of the window of interest, as
/// the window maps onto the sub-band (each axis from its own coordinates
/// of the window, the tile-component and the sample separation), is of
/// interest: the widened window meets it. The last coordinate of the
/// 32-bit range is left out, where the widened window stops short.
pub proof fn lemma_area_holding_window_is_of_interest(
    tcd: &TileCoder,
    compno: int,
    resno: int,
    bandno: int,
    area: (int, int, int, int),
    px: int,
    py: int,
)
    requires
        comp_in_range(tcd, compno),
        ({
            let tilec = tcd.tile.comps@[compno];
            let ic = tcd.image.comps@[compno];
            let nb: nat = if resno == 0 {
                (tilec.numresolutions - 1) as nat
            } else {
                (tilec.numresolutions - resno) as nat
            };
            &&& subband_coord(window_start(tilec.x0 as int, tcd.win_x0, ic.dx), nb, bandno % 2) <= px
            &&& px <= subband_coord(window_end(tilec.x1 as int, tcd.win_x1, ic.dx), nb, bandno % 2)
            &&& subband_coord(window_start(tilec.y0 as int, tcd.win_y0, ic.dy), nb, bandno / 2) <= py
            &&& py <= subband_coord(window_end(tilec.y1 as int, tcd.win_y1, ic.dy), nb, bandno / 2)
        }),
        area.0 <= px < area.2,
        area.1 <= py < area.3,
        px < u32::MAX,
        py < u32::MAX,
    ensures
        subband_area_of_interest_spec(tcd, compno, resno, bandno, area.0, area.1, area.2, area.3),
{
    let tilec = tcd.tile.comps@[compno];
    let ic = tcd.image.comps@[compno];
    let nb: nat = if resno == 0 { (tilec.numresolutions - 1) as nat } else { (tilec.numresolutions - resno) as nat };
    lemma_subband_coord_nonneg(window_start(tilec.x0 as int, tcd.win_x0, ic.dx), nb, bandno % 2);
    lemma_subband_coord_nonneg(window_start(tilec.y0 as int, tcd.win_y0, ic.dy), nb, bandno / 2);
}

proof fn lemma_subband_coord_nonneg(tc: int, nb: nat, b: int)
    requires
        tc >= 0,
    ensures
        subband_coord(tc, nb, b) >= 0,
{
    if nb > 0 && tc > pow2((nb - 1) as nat) * b {
        crate::tcd::math::lemma_ceil_div_pow2_range(tc - pow2((nb - 1) as nat) * b, nb);
    }
}

impl TileCoder {
    /// Whether tile-component `compno` is decoded whole, given the window of interest.
    pub fn is_whole_tilecomp_decoding(&self, compno: u32) -> (r: bool)
        requires
            comp_in_range(self, compno as int),
            self.tile.comps@[compno as int].minimum_num_resolutions <= self.tile.comps@[compno as int].numresolutions,
        ensures
            r == whole_tilecomp_decoding_spec(self, compno as int),
    {
        let tilec = &self.tile.comps[compno as usize];
        let image_comp = &self.image.comps[compno as usize];
        let tcx0 = comp_window_start(tilec.x0, self.win_x0, image_comp.dx);
        let tcy0 = comp_window_start(tilec.y0, self.win_y0, image_comp.dy);
        let tcx1 = comp_window_end(tilec.x1, self.win_x1, image_comp.dx);
        let tcy1 = comp_window_end(tilec.y1, self.win_y1, image_comp.dy);
        let shift = tilec.numresolutions - tilec.minimum_num_resolutions;
        if !(tcx0 >= tilec.x0 as u32 && tcy0 >= tilec.y0 as u32 && tcx1 <= tilec.x1 as u32
            && tcy1 <= tilec.y1 as u32) {
            return false;
        }
        if shift >= 32 {
            return true;
        }
        let dx0 = tcx0 - tilec.x0 as u32;
        let dy0 = tcy0 - tilec.y0 as u32;
        let dx1 = tilec.x1 as u32 - tcx1;
        let dy1 = tilec.y1 as u32 - tcy1;
        proof {
            lemma_u32_shr_is_div(dx0, shift);
            lemma_u32_shr_is_div(dy0, shift);
            lemma_u32_shr_is_div(dx1, shift);
            lemma_u32_shr_is_div(dy1, shift);
        }
        dx0 >> shift == 0 && dy0 >> shift == 0 && dx1 >> shift == 0 && dy1 >> shift == 0
    }
}

} // verus!
