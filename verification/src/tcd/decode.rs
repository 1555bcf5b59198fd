//! Preparation of a tile decode: the components to decode, whether whole
//! tile-components or windows of them are decoded, and the buffers and window
//! coordinates that follow.
use crate::tcd::math::{ceil_div_pow2, lemma_ceil_div_pow2_twice, uint_ceildivpow2};
use crate::tcd::model::{Resolution, TcdError, TileCoder, TileComponent};
use crate::tcd::window::{comp_in_range, whole_tilecomp_decoding_spec, window_end, window_start};
use vstd::prelude::*;

verus! {

/// The tile coder's components are consistent: one tile-component, image
/// component and coding parameter set per component, each tile-component's
/// resolution levels laid out, with at least one of them decoded.
pub open spec fn components_wf(tcd: &TileCoder) -> bool {
    &&& 0 <= tcd.tcd_tileno < tcd.cp.tcps@.len()
    &&& tcd.tile.comps@.len() == tcd.image.comps@.len()
    &&& tcd.image.comps@.len() == tcd.cp.tcps@[tcd.tcd_tileno as int].tccps@.len()
    &&& tcd.image.comps@.len() <= u32::MAX
    &&& forall|c: int| 0 <= c < tcd.tile.comps@.len() ==> #[trigger] comp_wf(tcd, c)
}

/// Component `c` of the tile coder is consistent.
pub open spec fn comp_wf(tcd: &TileCoder, c: int) -> bool {
    let tilec = tcd.tile.comps@[c];
    &&& comp_in_range(tcd, c)
    &&& 1 <= tilec.minimum_num_resolutions <= tilec.numresolutions <= 33
    &&& tilec.resolutions@.len() == tilec.numresolutions
    &&& forall|r: int| 0 <= r < tilec.resolutions@.len() ==> #[trigger] res_wf(tilec.resolutions@[r])
}

/// A resolution level spans a rectangle.
pub open spec fn res_wf(res: Resolution) -> bool {
    0 <= res.x0 <= res.x1 && 0 <= res.y0 <= res.y1
}

/// The component selection of a decode: all components when no index is
/// given, else those whose index is listed.
pub open spec fn used_components_spec(numcomps: int, indices: Seq<u32>) -> Option<Seq<bool>> {
    if indices.len() == 0 {
        None
    } else {
        Some(Seq::new(numcomps as nat, |c: int| exists|i: int| 0 <= i < indices.len() && indices[i] == c))
    }
}

/// The component selection as a vector of flags.
pub open spec fn used_view(u: Option<Vec<bool>>) -> Option<Seq<bool>> {
    match u {
        Some(v) => Some(v@),
        None => None,
    }
}

/// Marks the components listed in `indices`; `None` when the list is empty.
pub fn used_components(numcomps: usize, indices: &Vec<u32>) -> (r: Option<Vec<bool>>)
    requires
        forall|i: int| 0 <= i < indices@.len() ==> indices@[i] < numcomps,
    ensures
        used_view(r) == used_components_spec(numcomps as int, indices@),
{
    if indices.len() == 0 {
        return None;
    }
    let mut used: Vec<bool> = Vec::new();
    let mut c: usize = 0;
    while c < numcomps
        invariant
            c <= numcomps,
            used@.len() == c,
            forall|k: int| 0 <= k < c ==> used@[k] == false,
        decreases numcomps - c,
    {
        used.push(false);
        c = c + 1;
    }
    let mut i: usize = 0;
    while i < indices.len()
        invariant
            i <= indices@.len(),
            used@.len() == numcomps,
            forall|j: int| 0 <= j < indices@.len() ==> indices@[j] < numcomps,
            forall|k: int| 0 <= k < numcomps ==> used@[k] == (exists|j: int| 0 <= j < i && indices@[j] == k),
        decreases indices@.len() - i,
    {
        let k = indices[i] as usize;
        used.set(k, true);
        proof {
            assert forall|k2: int| 0 <= k2 < numcomps implies used@[k2] == (exists|j: int| 0 <= j < i + 1 && indices@[j] == k2) by {
                if k2 == k {
                    assert(indices@[i as int] == k2);
                } else {
                    if exists|j: int| 0 <= j < i + 1 && indices@[j] == k2 {
                        let j = choose|j: int| 0 <= j < i + 1 && indices@[j] == k2;
                        assert(j != i);
                    }
                }
            }
        }
        i = i + 1;
    }
    assert(used@ =~= Seq::new(numcomps as nat, |c: int| exists|i: int| 0 <= i < indices@.len() && indices@[i] == c));
    Some(used)
}

impl TileComponent {
    /// Makes the sample buffer large enough for `data_size_needed` bytes, four
    /// a sample; a buffer that is large enough already is kept, another is
    /// replaced by one of just enough zeroed samples.
    pub fn alloc_data(&mut self)
        ensures
            final(self).data@.len() * 4 >= final(self).data_size_needed,
            old(self).data@.len() * 4 >= old(self).data_size_needed ==> final(self).data == old(self).data,
            old(self).data@.len() * 4 < old(self).data_size_needed ==> final(self).data@.len()
                == (old(self).data_size_needed + 3) / 4,
            final(self).data_size_needed == old(self).data_size_needed,
            final(self).resolutions == old(self).resolutions,
            final(self).x0 == old(self).x0 && final(self).y0 == old(self).y0,
            final(self).x1 == old(self).x1 && final(self).y1 == old(self).y1,
            final(self).numresolutions == old(self).numresolutions,
            final(self).minimum_num_resolutions == old(self).minimum_num_resolutions,
            final(self).win_x0 == old(self).win_x0 && final(self).win_y0 == old(self).win_y0,
            final(self).win_x1 == old(self).win_x1 && final(self).win_y1 == old(self).win_y1,
            final(self).data_win == old(self).data_win,
            final(self).compno == old(self).compno,
    {
        let len = self.data.len();
        if len > usize::MAX / 4 || len * 4 >= self.data_size_needed {
            return;
        }
        let samples = self.data_size_needed / 4 + if self.data_size_needed % 4 == 0 { 0 } else { 1 };
        self.data = vec![0i32; samples];
    }
}

/// `b` is `a` with its window of interest set to the given coordinates.
pub open spec fn res_with_window(a: Resolution, b: Resolution, wx0: int, wy0: int, wx1: int, wy1: int) -> bool {
    &&& b.x0 == a.x0 && b.y0 == a.y0 && b.x1 == a.x1 && b.y1 == a.y1
    &&& b.pw == a.pw && b.ph == a.ph && b.numbands == a.numbands && b.bands == a.bands
    &&& b.win_x0 == wx0 && b.win_y0 == wy0 && b.win_x1 == wx1 && b.win_y1 == wy1
}

/// `b` is `a` with at most its windows, buffers and buffer sizes changed.
pub open spec fn same_comp_geometry(a: TileComponent, b: TileComponent) -> bool {
    &&& b.compno == a.compno
    &&& b.x0 == a.x0 && b.y0 == a.y0 && b.x1 == a.x1 && b.y1 == a.y1
    &&& b.numresolutions == a.numresolutions
    &&& b.minimum_num_resolutions == a.minimum_num_resolutions
    &&& b.resolutions@.len() == a.resolutions@.len()
    &&& forall|r: int| 0 <= r < a.resolutions@.len() ==> {
        let (ra, rb) = (#[trigger] a.resolutions@[r], b.resolutions@[r]);
        &&& rb.x0 == ra.x0 && rb.y0 == ra.y0 && rb.x1 == ra.x1 && rb.y1 == ra.y1
        &&& rb.pw == ra.pw && rb.ph == ra.ph && rb.numbands == ra.numbands && rb.bands == ra.bands
    }
}

/// Sets the window of interest of every resolution level of a tile-component
/// from the component's window: level `r` of `n` sees it reduced `n - 1 - r` times.
pub fn set_resolution_windows(tilec: &mut TileComponent)
    requires
        1 <= old(tilec).numresolutions <= 33,
        old(tilec).resolutions@.len() == old(tilec).numresolutions,
    ensures
        same_comp_geometry(*old(tilec), *final(tilec)),
        final(tilec).win_x0 == old(tilec).win_x0 && final(tilec).win_y0 == old(tilec).win_y0,
        final(tilec).win_x1 == old(tilec).win_x1 && final(tilec).win_y1 == old(tilec).win_y1,
        final(tilec).data == old(tilec).data && final(tilec).data_win == old(tilec).data_win,
        final(tilec).data_size_needed == old(tilec).data_size_needed,
        forall|r: int| 0 <= r < old(tilec).numresolutions ==> {
            let levels = (old(tilec).numresolutions - 1 - r) as nat;
            res_with_window(
                #[trigger] old(tilec).resolutions@[r],
                final(tilec).resolutions@[r],
                ceil_div_pow2(old(tilec).win_x0 as int, levels),
                ceil_div_pow2(old(tilec).win_y0 as int, levels),
                ceil_div_pow2(old(tilec).win_x1 as int, levels),
                ceil_div_pow2(old(tilec).win_y1 as int, levels),
            )
        },
{
    let n = tilec.numresolutions;
    let (wx0, wy0, wx1, wy1) = (tilec.win_x0, tilec.win_y0, tilec.win_x1, tilec.win_y1);
    let ghost old_tilec = *tilec;
    let mut r: u32 = 0;
    while r < n
        invariant
            n == old_tilec.numresolutions,
            1 <= n <= 33,
            r <= n,
            old_tilec.resolutions@.len() == n,
            wx0 == old_tilec.win_x0 && wy0 == old_tilec.win_y0,
            wx1 == old_tilec.win_x1 && wy1 == old_tilec.win_y1,
            same_comp_geometry(old_tilec, *tilec),
            tilec.win_x0 == old_tilec.win_x0 && tilec.win_y0 == old_tilec.win_y0,
            tilec.win_x1 == old_tilec.win_x1 && tilec.win_y1 == old_tilec.win_y1,
            tilec.data == old_tilec.data && tilec.data_win == old_tilec.data_win,
            tilec.data_size_needed == old_tilec.data_size_needed,
            forall|k: int| 0 <= k < r ==> {
                let levels = (n - 1 - k) as nat;
                res_with_window(
                    #[trigger] old_tilec.resolutions@[k],
                    tilec.resolutions@[k],
                    ceil_div_pow2(wx0 as int, levels),
                    ceil_div_pow2(wy0 as int, levels),
                    ceil_div_pow2(wx1 as int, levels),
                    ceil_div_pow2(wy1 as int, levels),
                )
            },
            forall|k: int| r <= k < n ==> #[trigger] tilec.resolutions@[k] == old_tilec.resolutions@[k],
        decreases n - r,
    {
        let levels = n - 1 - r;
        let a = uint_ceildivpow2(wx0, levels);
        let b = uint_ceildivpow2(wy0, levels);
        let c = uint_ceildivpow2(wx1, levels);
        let d = uint_ceildivpow2(wy1, levels);
        let mut res = tilec.resolutions.remove(r as usize);
        res.win_x0 = a;
        res.win_y0 = b;
        res.win_x1 = c;
        res.win_y1 = d;
        tilec.resolutions.insert(r as usize, res);
        r = r + 1;
    }
}

/// The windows that `set_resolution_windows` gives the levels of a
/// tile-component halve from level to level: the window of level `r` is that
/// of level `r + 1` divided by two, rounded up.
pub proof fn lemma_windows_halve(win: u32, numres: int, r: int)
    requires
        0 <= r,
        r + 1 < numres,
    ensures
        ceil_div_pow2(win as int, (numres - 1 - r) as nat)
            == ceil_div_pow2(ceil_div_pow2(win as int, (numres - 1 - (r + 1)) as nat), 1),
{
    let level = (numres - 1 - (r + 1)) as nat;
    assert((numres - 1 - r) as nat == level + 1);
    lemma_ceil_div_pow2_twice(win as int, level, 1);
}

/// The bytes that the samples of a whole tile-component take at the lowest
/// resolution decoded: four per sample.
pub open spec fn whole_data_size(tilec: TileComponent) -> int {
    let res = tilec.resolutions@[tilec.minimum_num_resolutions - 1];
    (res.x1 - res.x0) * (res.y1 - res.y0) * 4
}

/// The tile coder's state apart from its tile-components is that of `a`.
pub open spec fn same_frame(a: &TileCoder, b: &TileCoder) -> bool {
    &&& b.image == a.image
    &&& b.cp == a.cp
    &&& b.tcd_tileno == a.tcd_tileno
    &&& b.is_decoder == a.is_decoder
    &&& b.tile.x0 == a.tile.x0 && b.tile.y0 == a.tile.y0 && b.tile.x1 == a.tile.x1 && b.tile.y1 == a.tile.y1
    &&& b.tile.comps@.len() == a.tile.comps@.len()
}

/// A component's window of interest as a decode sets it: the window on the
/// reference grid brought onto the component and cut to the tile-component.
pub open spec fn comp_window_set(tcd: &TileCoder, c: int, tilec: TileComponent) -> bool {
    let old_c = tcd.tile.comps@[c];
    let image_comp = tcd.image.comps@[c];
    &&& tilec.win_x0 == window_start(old_c.x0 as int, tcd.win_x0, image_comp.dx)
    &&& tilec.win_y0 == window_start(old_c.y0 as int, tcd.win_y0, image_comp.dy)
    &&& tilec.win_x1 == window_end(old_c.x1 as int, tcd.win_x1, image_comp.dx)
    &&& tilec.win_y1 == window_end(old_c.y1 as int, tcd.win_y1, image_comp.dy)
}

/// The window that a decode sets on component `c` is empty.
pub open spec fn window_invalid(tcd: &TileCoder, c: int) -> bool {
    let old_c = tcd.tile.comps@[c];
    let image_comp = tcd.image.comps@[c];
    window_end(old_c.x1 as int, tcd.win_x1, image_comp.dx) < window_start(old_c.x0 as int, tcd.win_x0, image_comp.dx)
        || window_end(old_c.y1 as int, tcd.win_y1, image_comp.dy) < window_start(old_c.y0 as int, tcd.win_y0, image_comp.dy)
}

/// Sizes the sample buffer of a whole tile-component for its lowest
/// resolution decoded; fails when the size cannot be addressed.
fn prepare_whole_comp(tilec: &mut TileComponent) -> (r: Result<(), TcdError>)
    requires
        1 <= old(tilec).minimum_num_resolutions <= old(tilec).numresolutions,
        old(tilec).resolutions@.len() == old(tilec).numresolutions,
        res_wf(old(tilec).resolutions@[old(tilec).minimum_num_resolutions - 1]),
    ensures
        same_comp_geometry(*old(tilec), *final(tilec)),
        r is Err <==> whole_data_size(*old(tilec)) > usize::MAX,
        r matches Err(e) ==> e is DataTooLarge,
        r is Ok ==> final(tilec).data_size_needed == whole_data_size(*old(tilec))
            && final(tilec).data@.len() * 4 >= final(tilec).data_size_needed,
{
    let res = &tilec.resolutions[(tilec.minimum_num_resolutions - 1) as usize];
    let w = (res.x1 - res.x0) as usize;
    let h = (res.y1 - res.y0) as usize;
    if h > 0 && w > usize::MAX / h {
        assert(w * h > usize::MAX) by (nonlinear_arith)
            requires
                h > 0,
                w > usize::MAX / h,
        ;
        assert(w * h * 4 > usize::MAX) by (nonlinear_arith)
            requires
                w * h > usize::MAX,
        ;
        return Err(TcdError::DataTooLarge);
    }
    if h > 0 {
        assert(w * h <= usize::MAX) by (nonlinear_arith)
            requires
                h > 0,
                w <= usize::MAX / h,
        ;
    } else {
        assert(w * h == 0) by (nonlinear_arith)
            requires
                h == 0,
        ;
    }
    let size = w * h;
    if usize::MAX / 4 < size {
        return Err(TcdError::DataTooLarge);
    }
    tilec.data_size_needed = size * 4;
    tilec.alloc_data();
    Ok(())
}

/// Sets the window of interest of a tile-component and of its resolution
/// levels; fails when the window does not meet the tile-component.
fn prepare_window_comp(tilec: &mut TileComponent, win_x0: u32, win_y0: u32, win_x1: u32, win_y1: u32, dx: u32, dy: u32) -> (r: Result<(), TcdError>)
    requires
        1 <= old(tilec).numresolutions <= 33,
        old(tilec).resolutions@.len() == old(tilec).numresolutions,
        0 <= old(tilec).x0 <= old(tilec).x1,
        0 <= old(tilec).y0 <= old(tilec).y1,
        dx > 0,
        dy > 0,
    ensures
        same_comp_geometry(*old(tilec), *final(tilec)),
        final(tilec).data_size_needed == old(tilec).data_size_needed,
        ({
            let invalid = window_end(old(tilec).x1 as int, win_x1, dx) < window_start(old(tilec).x0 as int, win_x0, dx)
                || window_end(old(tilec).y1 as int, win_y1, dy) < window_start(old(tilec).y0 as int, win_y0, dy);
            r is Err <==> invalid
        }),
        r matches Err(e) ==> e is InvalidWindow,
        r is Ok ==> {
            &&& final(tilec).win_x0 == window_start(old(tilec).x0 as int, win_x0, dx)
            &&& final(tilec).win_y0 == window_start(old(tilec).y0 as int, win_y0, dy)
            &&& final(tilec).win_x1 == window_end(old(tilec).x1 as int, win_x1, dx)
            &&& final(tilec).win_y1 == window_end(old(tilec).y1 as int, win_y1, dy)
            &&& forall|k: int| 0 <= k < old(tilec).numresolutions ==> {
                let levels = (old(tilec).numresolutions - 1 - k) as nat;
                res_with_window(
                    #[trigger] old(tilec).resolutions@[k],
                    final(tilec).resolutions@[k],
                    ceil_div_pow2(final(tilec).win_x0 as int, levels),
                    ceil_div_pow2(final(tilec).win_y0 as int, levels),
                    ceil_div_pow2(final(tilec).win_x1 as int, levels),
                    ceil_div_pow2(final(tilec).win_y1 as int, levels),
                )
            }
        },
{
    tilec.win_x0 = crate::tcd::window::comp_window_start(tilec.x0, win_x0, dx);
    tilec.win_y0 = crate::tcd::window::comp_window_start(tilec.y0, win_y0, dy);
    tilec.win_x1 = crate::tcd::window::comp_window_end(tilec.x1, win_x1, dx);
    tilec.win_y1 = crate::tcd::window::comp_window_end(tilec.y1, win_y1, dy);
    if tilec.win_x1 < tilec.win_x0 || tilec.win_y1 < tilec.win_y0 {
        return Err(TcdError::InvalidWindow);
    }
    set_resolution_windows(tilec);
    Ok(())
}

/// The whole-decoding decision for a component depends only on its geometry,
/// the image component and the window of interest.
proof fn lemma_whole_frame(a: &TileCoder, b: &TileCoder, c: int)
    requires
        0 <= c < a.tile.comps@.len(),
        b.tile.comps@.len() == a.tile.comps@.len(),
        same_comp_geometry(a.tile.comps@[c], b.tile.comps@[c]),
        b.image == a.image,
        b.win_x0 == a.win_x0 && b.win_y0 == a.win_y0 && b.win_x1 == a.win_x1 && b.win_y1 == a.win_y1,
    ensures
        whole_tilecomp_decoding_spec(a, c) == whole_tilecomp_decoding_spec(b, c),
        window_invalid(a, c) == window_invalid(b, c),
{
}

/// Two coders with the same window, image and component geometry take the
/// same decisions for every component.
proof fn lemma_same_decisions(a: &TileCoder, b: &TileCoder)
    requires
        b.tile.comps@.len() == a.tile.comps@.len(),
        forall|k: int| 0 <= k < a.tile.comps@.len() ==> same_comp_geometry(#[trigger] a.tile.comps@[k], b.tile.comps@[k]),
        b.image == a.image,
        b.win_x0 == a.win_x0 && b.win_y0 == a.win_y0 && b.win_x1 == a.win_x1 && b.win_y1 == a.win_y1,
    ensures
        forall|c: int| 0 <= c < a.tile.comps@.len() ==>
            (#[trigger] whole_tilecomp_decoding_spec(b, c)) == whole_tilecomp_decoding_spec(a, c),
        forall|c: int| 0 <= c < a.tile.comps@.len() ==> (#[trigger] window_invalid(b, c)) == window_invalid(a, c),
        a.used_component == b.used_component ==> (
            (forall|k: int| 0 <= k < a.tile.comps@.len() && a.is_used(k) ==> #[trigger] whole_tilecomp_decoding_spec(a, k))
            == (forall|k: int| 0 <= k < a.tile.comps@.len() && b.is_used(k) ==> #[trigger] whole_tilecomp_decoding_spec(b, k))),
{
    assert forall|c: int| 0 <= c < a.tile.comps@.len() implies
        (#[trigger] whole_tilecomp_decoding_spec(b, c)) == whole_tilecomp_decoding_spec(a, c)
        && window_invalid(b, c) == window_invalid(a, c) by {
        lemma_whole_frame(a, b, c);
    }
    if a.used_component == b.used_component {
        let n = a.tile.comps@.len();
        if forall|k: int| 0 <= k < n && a.is_used(k) ==> #[trigger] whole_tilecomp_decoding_spec(a, k) {
            assert forall|k: int| 0 <= k < n && b.is_used(k) implies #[trigger] whole_tilecomp_decoding_spec(b, k) by {
                assert(whole_tilecomp_decoding_spec(a, k));
            }
        }
        if forall|k: int| 0 <= k < n && b.is_used(k) ==> #[trigger] whole_tilecomp_decoding_spec(b, k) {
            assert forall|k: int| 0 <= k < n && a.is_used(k) implies #[trigger] whole_tilecomp_decoding_spec(a, k) by {
                assert(whole_tilecomp_decoding_spec(b, k));
            }
        }
    }
}

/// Consistency of the components carries over to a coder with the same frame
/// and the same component geometry.
proof fn lemma_wf_frame(a: &TileCoder, b: &TileCoder)
    requires
        components_wf(a),
        same_frame(a, b),
        forall|k: int| 0 <= k < a.tile.comps@.len() ==> same_comp_geometry(#[trigger] a.tile.comps@[k], b.tile.comps@[k]),
    ensures
        components_wf(b),
{
    assert forall|c: int| 0 <= c < b.tile.comps@.len() implies #[trigger] comp_wf(b, c) by {
        assert(comp_wf(a, c));
        assert(same_comp_geometry(a.tile.comps@[c], b.tile.comps@[c]));
        let ta = a.tile.comps@[c];
        let tb = b.tile.comps@[c];
        assert forall|r: int| 0 <= r < tb.resolutions@.len() implies #[trigger] res_wf(tb.resolutions@[r]) by {
            assert(res_wf(ta.resolutions@[r]));
        }
    }
}

/// Component `k` is prepared for the decode that `tcd` describes.
pub open spec fn comp_done(tcd: &TileCoder, k: int, tilec: TileComponent) -> bool {
    &&& tcd.whole_tile_decoding ==> {
        &&& whole_data_size(tcd.tile.comps@[k]) <= usize::MAX
        &&& tilec.data_size_needed == whole_data_size(tcd.tile.comps@[k])
        &&& tilec.data@.len() * 4 >= tilec.data_size_needed
    }
    &&& !tcd.whole_tile_decoding ==> {
        &&& !window_invalid(tcd, k)
        &&& comp_window_set(tcd, k, tilec)
        &&& forall|j: int| 0 <= j < tilec.numresolutions ==> {
            let levels = (tilec.numresolutions - 1 - j) as nat;
            res_with_window(
                #[trigger] tcd.tile.comps@[k].resolutions@[j],
                tilec.resolutions@[j],
                ceil_div_pow2(tilec.win_x0 as int, levels),
                ceil_div_pow2(tilec.win_y0 as int, levels),
                ceil_div_pow2(tilec.win_x1 as int, levels),
                ceil_div_pow2(tilec.win_y1 as int, levels),
            )
        }
    }
}

impl TileCoder {
    /// Whether every component to decode is decoded whole.
    fn all_used_whole(&self) -> (r: bool)
        requires
            components_wf(self),
            self.used_component matches Some(u) ==> u@.len() == self.tile.comps@.len(),
        ensures
            r == forall|c: int| 0 <= c < self.tile.comps@.len() && self.is_used(c) ==> #[trigger] whole_tilecomp_decoding_spec(self, c),
    {
        let n = self.tile.comps.len();
        let mut c: usize = 0;
        while c < n
            invariant
                n == self.tile.comps@.len(),
                c <= n,
                components_wf(self),
                self.used_component matches Some(u) ==> u@.len() == n,
                forall|k: int| 0 <= k < c && self.is_used(k) ==> #[trigger] whole_tilecomp_decoding_spec(self, k),
            decreases n - c,
        {
            let used = match &self.used_component {
                Some(u) => u[c],
                None => true,
            };
            proof {
                assert(comp_wf(self, c as int));
            }
            if used && !self.is_whole_tilecomp_decoding(c as u32) {
                return false;
            }
            c = c + 1;
        }
        true
    }

    /// Prepares the decode of the current tile within a window of interest on
    /// the reference grid, for the listed components (all when the list is
    /// empty): decides whether whole tile-components are decoded and, if so,
    /// sizes their sample buffers; otherwise sets the window of every decoded
    /// component and of its resolution levels.
    #[verifier::rlimit(30)]
    pub fn decode_tile_prepare(
        &mut self,
        win_x0: u32,
        win_y0: u32,
        win_x1: u32,
        win_y1: u32,
        comps_indices: &Vec<u32>,
    ) -> (r: Result<(), TcdError>)
        requires
            components_wf(old(self)),
            forall|i: int| 0 <= i < comps_indices@.len() ==> comps_indices@[i] < old(self).tile.comps@.len(),
        ensures
            same_frame(old(self), final(self)),
            final(self).win_x0 == win_x0 && final(self).win_y0 == win_y0,
            final(self).win_x1 == win_x1 && final(self).win_y1 == win_y1,
            used_view(final(self).used_component) == used_components_spec(old(self).tile.comps@.len() as int, comps_indices@),
            forall|c: int| 0 <= c < old(self).tile.comps@.len() ==> same_comp_geometry(
                #[trigger] old(self).tile.comps@[c], final(self).tile.comps@[c]),
            components_wf(final(self)),
            final(self).whole_tile_decoding == forall|c: int| 0 <= c < final(self).tile.comps@.len()
                && final(self).is_used(c) ==> #[trigger] whole_tilecomp_decoding_spec(final(self), c),
            final(self).whole_tile_decoding ==> (r is Err <==> exists|c: int| 0 <= c < final(self).tile.comps@.len()
                && final(self).is_used(c) && #[trigger] whole_data_size(old(self).tile.comps@[c]) > usize::MAX),
            !final(self).whole_tile_decoding ==> (r is Err <==> exists|c: int| 0 <= c < final(self).tile.comps@.len()
                && final(self).is_used(c) && #[trigger] window_invalid(final(self), c)),
            r matches Err(e) ==> (final(self).whole_tile_decoding ==> e is DataTooLarge)
                && (!final(self).whole_tile_decoding ==> e is InvalidWindow),
            r is Ok && final(self).whole_tile_decoding ==> forall|c: int| 0 <= c < final(self).tile.comps@.len()
                && final(self).is_used(c) ==> {
                    &&& #[trigger] final(self).tile.comps@[c].data_size_needed == whole_data_size(old(self).tile.comps@[c])
                    &&& final(self).tile.comps@[c].data@.len() * 4 >= final(self).tile.comps@[c].data_size_needed
                },
            r is Ok && !final(self).whole_tile_decoding ==> forall|c: int| 0 <= c < final(self).tile.comps@.len()
                && final(self).is_used(c) ==> {
                    let tilec = #[trigger] final(self).tile.comps@[c];
                    &&& comp_window_set(final(self), c, tilec)
                    &&& forall|k: int| 0 <= k < tilec.numresolutions ==> {
                        let levels = (tilec.numresolutions - 1 - k) as nat;
                        res_with_window(
                            #[trigger] old(self).tile.comps@[c].resolutions@[k],
                            tilec.resolutions@[k],
                            ceil_div_pow2(tilec.win_x0 as int, levels),
                            ceil_div_pow2(tilec.win_y0 as int, levels),
                            ceil_div_pow2(tilec.win_x1 as int, levels),
                            ceil_div_pow2(tilec.win_y1 as int, levels),
                        )
                    }
                },
    {
        self.win_x0 = win_x0;
        self.win_y0 = win_y0;
        self.win_x1 = win_x1;
        self.win_y1 = win_y1;
        let n = self.tile.comps.len();
        self.used_component = used_components(n, comps_indices);
        proof {
            assert forall|c: int| 0 <= c < self.tile.comps@.len() implies #[trigger] comp_wf(self, c) by {
                assert(comp_wf(old(self), c));
            }
        }
        proof {
            lemma_wf_frame(old(self), self);
        }
        let ghost mid = *self;
        let whole = self.all_used_whole();
        self.whole_tile_decoding = whole;
        let ghost before = *self;
        proof {
            lemma_wf_frame(old(self), &before);
            lemma_same_decisions(&mid, &before);
        }
        let mut c: usize = 0;
        while c < n
            invariant
                n == self.tile.comps@.len(),
                c <= n,
                same_frame(&before, self),
                self.win_x0 == before.win_x0 && self.win_y0 == before.win_y0,
                self.win_x1 == before.win_x1 && self.win_y1 == before.win_y1,
                win_x0 == before.win_x0 && win_y0 == before.win_y0,
                win_x1 == before.win_x1 && win_y1 == before.win_y1,
                self.used_component == before.used_component,
                self.whole_tile_decoding == before.whole_tile_decoding,
                self.used_component matches Some(u) ==> u@.len() == n,
                components_wf(&before),
                before.tile == old(self).tile,
                same_frame(old(self), &before),
                used_view(before.used_component) == used_components_spec(n as int, comps_indices@),
                before.whole_tile_decoding == forall|k: int| 0 <= k < n && before.is_used(k)
                    ==> #[trigger] whole_tilecomp_decoding_spec(&before, k),
                forall|k: int| 0 <= k < n ==> same_comp_geometry(#[trigger] before.tile.comps@[k], self.tile.comps@[k]),
                forall|k: int| c <= k < n ==> #[trigger] self.tile.comps@[k] == before.tile.comps@[k],
                forall|k: int| 0 <= k < c && before.is_used(k) ==> #[trigger] comp_done(&before, k, self.tile.comps@[k]),
            decreases n - c,
        {
            let used = match &self.used_component {
                Some(u) => u[c],
                None => true,
            };
            if used {
                proof {
                    assert(comp_wf(&before, c as int));
                    assert(res_wf(before.tile.comps@[c as int].resolutions@[before.tile.comps@[c as int].minimum_num_resolutions - 1]));
                }
                let dx = self.image.comps[c].dx;
                let dy = self.image.comps[c].dy;
                let whole = self.whole_tile_decoding;
                let ghost prev = self.tile.comps@;
                let tilec = &mut self.tile.comps[c];
                let step = if whole {
                    prepare_whole_comp(tilec)
                } else {
                    prepare_window_comp(tilec, win_x0, win_y0, win_x1, win_y1, dx, dy)
                };
                proof {
                    assert(self.tile.comps@ == prev.update(c as int, self.tile.comps@[c as int]));
                }
                if step.is_err() {
                    proof {
                        lemma_wf_frame(&before, self);
                        lemma_same_decisions(&before, self);
                        lemma_whole_frame(&before, self, c as int);
                        assert(self.is_used(c as int));
                        if whole {
                            assert(whole_data_size(old(self).tile.comps@[c as int]) > usize::MAX);
                        } else {
                            assert(window_invalid(self, c as int));
                        }
                    }
                    return step;
                }
                proof {
                    assert(comp_done(&before, c as int, self.tile.comps@[c as int]));
                }
            }
            c = c + 1;
        }
        proof {
            lemma_wf_frame(&before, self);
            lemma_same_decisions(&before, self);
            assert forall|k: int| 0 <= k < n && self.is_used(k) implies
                (!self.whole_tile_decoding ==> !window_invalid(self, k) && comp_window_set(self, k, self.tile.comps@[k])
                    && forall|j: int| 0 <= j < self.tile.comps@[k].numresolutions ==> {
                        let tilec = self.tile.comps@[k];
                        let levels = (tilec.numresolutions - 1 - j) as nat;
                        res_with_window(
                            #[trigger] old(self).tile.comps@[k].resolutions@[j],
                            tilec.resolutions@[j],
                            ceil_div_pow2(tilec.win_x0 as int, levels),
                            ceil_div_pow2(tilec.win_y0 as int, levels),
                            ceil_div_pow2(tilec.win_x1 as int, levels),
                            ceil_div_pow2(tilec.win_y1 as int, levels),
                        )
                    })
                && (self.whole_tile_decoding ==> whole_data_size(old(self).tile.comps@[k]) <= usize::MAX
                    && self.tile.comps@[k].data_size_needed == whole_data_size(old(self).tile.comps@[k])
                    && self.tile.comps@[k].data@.len() * 4 >= self.tile.comps@[k].data_size_needed) by {
                assert(before.is_used(k));
                assert(comp_done(&before, k, self.tile.comps@[k]));
                assert(same_comp_geometry(before.tile.comps@[k], self.tile.comps@[k]));
                if !self.whole_tile_decoding {
                    assert(!window_invalid(&before, k));
                }
            }
        }
        Ok(())
    }
}

/// The extent of a window on one axis, in 32-bit unsigned arithmetic.
pub open spec fn window_extent(lo: u32, hi: u32) -> int {
    if hi >= lo { hi - lo } else { hi - lo + 0x1_0000_0000 }
}

/// The samples of the window of interest of component `c` at the resolution
/// decoded: across and down.
pub open spec fn decoded_window(tcd: &TileCoder, c: int) -> (int, int) {
    let res = tcd.tile.comps@[c].resolutions@[tcd.image.comps@[c].resno_decoded as int];
    (window_extent(res.win_x0, res.win_x1), window_extent(res.win_y0, res.win_y1))
}

/// Component `c` of a windowed decode needs a window buffer: it is decoded
/// and its window at the resolution decoded has area.
pub open spec fn needs_window_buffer(tcd: &TileCoder, c: int) -> bool {
    let (w, h) = decoded_window(tcd, c);
    tcd.is_used(c) && w > 0 && h > 0
}

/// The highest resolution decoded of each component is one of its levels.
pub open spec fn decoded_wf(tcd: &TileCoder) -> bool {
    &&& components_wf(tcd)
    &&& tcd.used_component matches Some(u) ==> u@.len() == tcd.tile.comps@.len()
    &&& forall|c: int| 0 <= c < tcd.tile.comps@.len() ==>
        #[trigger] tcd.image.comps@[c].resno_decoded < tcd.tile.comps@[c].numresolutions
}

impl TileCoder {
    /// Once the code-blocks are decoded and the resolution decoded is known,
    /// gives each decoded component of a windowed decode a zeroed buffer for
    /// the samples of its window at that resolution, and takes the buffer of
    /// the others; fails when a buffer's bytes cannot be addressed. A decode
    /// of whole tile-components is left as it is.
    #[verifier::rlimit(30)]
    pub fn decode_tile_allocate_windows(&mut self) -> (r: Result<(), TcdError>)
        requires
            decoded_wf(old(self)),
        ensures
            old(self).whole_tile_decoding ==> *final(self) == *old(self) && r is Ok,
            same_frame(old(self), final(self)),
            final(self).win_x0 == old(self).win_x0 && final(self).win_y0 == old(self).win_y0,
            final(self).win_x1 == old(self).win_x1 && final(self).win_y1 == old(self).win_y1,
            final(self).used_component == old(self).used_component,
            final(self).whole_tile_decoding == old(self).whole_tile_decoding,
            forall|c: int| 0 <= c < old(self).tile.comps@.len() ==> {
                let (a, b) = (#[trigger] old(self).tile.comps@[c], final(self).tile.comps@[c]);
                &&& same_comp_geometry(a, b)
                &&& b.resolutions == a.resolutions
                &&& b.data == a.data && b.data_size_needed == a.data_size_needed
                &&& b.win_x0 == a.win_x0 && b.win_y0 == a.win_y0 && b.win_x1 == a.win_x1 && b.win_y1 == a.win_y1
            },
            !old(self).whole_tile_decoding ==> (r is Err <==> exists|c: int| 0 <= c < old(self).tile.comps@.len()
                && #[trigger] needs_window_buffer(old(self), c)
                && decoded_window(old(self), c).0 * decoded_window(old(self), c).1 * 4 > usize::MAX),
            r matches Err(e) ==> e is DataTooLarge,
            r is Ok && !old(self).whole_tile_decoding ==> forall|c: int| 0 <= c < old(self).tile.comps@.len() ==>
                (#[trigger] final(self).tile.comps@[c]).data_win@.len() == (if needs_window_buffer(old(self), c) {
                    decoded_window(old(self), c).0 * decoded_window(old(self), c).1
                } else {
                    0
                }),
    {
        if self.whole_tile_decoding {
            return Ok(());
        }
        let n = self.tile.comps.len();
        let ghost start = *self;
        let mut c: usize = 0;
        while c < n
            invariant
                c <= n,
                n == self.tile.comps@.len(),
                start == *old(self),
                decoded_wf(old(self)),
                !old(self).whole_tile_decoding,
                same_frame(old(self), self),
                self.win_x0 == old(self).win_x0 && self.win_y0 == old(self).win_y0,
                self.win_x1 == old(self).win_x1 && self.win_y1 == old(self).win_y1,
                self.used_component == old(self).used_component,
                self.whole_tile_decoding == old(self).whole_tile_decoding,
                self.image == old(self).image,
                forall|k: int| c <= k < n ==> #[trigger] self.tile.comps@[k] == old(self).tile.comps@[k],
                forall|k: int| 0 <= k < n ==> {
                    let (a, b) = (#[trigger] old(self).tile.comps@[k], self.tile.comps@[k]);
                    &&& same_comp_geometry(a, b)
                    &&& b.resolutions == a.resolutions
                    &&& b.data == a.data && b.data_size_needed == a.data_size_needed
                    &&& b.win_x0 == a.win_x0 && b.win_y0 == a.win_y0 && b.win_x1 == a.win_x1 && b.win_y1 == a.win_y1
                },
                forall|k: int| 0 <= k < c ==> !(#[trigger] needs_window_buffer(old(self), k)
                    && decoded_window(old(self), k).0 * decoded_window(old(self), k).1 * 4 > usize::MAX),
                forall|k: int| 0 <= k < c ==> (#[trigger] self.tile.comps@[k]).data_win@.len() == (
                    if needs_window_buffer(old(self), k) {
                        decoded_window(old(self), k).0 * decoded_window(old(self), k).1
                    } else {
                        0
                    }),
            decreases n - c,
        {
            proof {
                assert(comp_wf(old(self), c as int));
                assert(old(self).image.comps@[c as int].resno_decoded < old(self).tile.comps@[c as int].numresolutions);
            }
            let used = match &self.used_component {
                Some(u) => u[c],
                None => true,
            };
            let resno = self.image.comps[c].resno_decoded as usize;
            let res = &self.tile.comps[c].resolutions[resno];
            let w = res.win_x1.wrapping_sub(res.win_x0) as usize;
            let h = res.win_y1.wrapping_sub(res.win_y0) as usize;
            assert(decoded_window(old(self), c as int) == (w as int, h as int));
            let mut buffer: Vec<i32> = Vec::new();
            if used && w > 0 && h > 0 {
                if w > usize::MAX / h {
                    proof {
                        assert(w * h > usize::MAX) by (nonlinear_arith)
                            requires
                                h > 0,
                                w > usize::MAX / h,
                        ;
                        assert(w * h * 4 > usize::MAX) by (nonlinear_arith)
                            requires
                                w * h > usize::MAX,
                        ;
                        assert(needs_window_buffer(old(self), c as int));
                    }
                    return Err(TcdError::DataTooLarge);
                }
                assert(w * h <= usize::MAX) by (nonlinear_arith)
                    requires
                        h > 0,
                        w <= usize::MAX / h,
                ;
                let size = w * h;
                if size > usize::MAX / 4 {
                    proof {
                        assert(needs_window_buffer(old(self), c as int));
                    }
                    return Err(TcdError::DataTooLarge);
                }
                buffer = vec![0i32; size];
            }
            let ghost prev = self.tile.comps@;
            self.tile.comps[c].data_win = buffer;
            proof {
                assert(self.tile.comps@ == prev.update(c as int, self.tile.comps@[c as int]));
            }
            c = c + 1;
        }
        Ok(())
    }
}

/// What the multiple component transform of a decode does.
#[derive(Debug, Clone, Copy, PartialEq, Eq)]
pub enum MctStep {
    /// No transform: the tile has none, only some components are decoded, or
    /// the custom matrix is absent.
    Skip,
    /// The tile has a transform but fewer than three components: it is
    /// skipped, which is reported.
    TooFewComponents,
    /// The custom matrix is applied to each of `samples` samples.
    Custom { samples: usize },
    /// The reversible colour transform is applied to each of `samples` samples.
    Reversible { samples: usize },
    /// The irreversible colour transform is applied to each of `samples` samples.
    Irreversible { samples: usize },
}

/// The samples of a resolution level, in the platform's word arithmetic.
pub open spec fn res_samples(res: Resolution) -> int {
    ((res.x1 - res.x0) * (res.y1 - res.y0)) % (usize::MAX as int + 1)
}

/// The samples of a window, in the platform's word arithmetic.
pub open spec fn window_samples(res: Resolution) -> int {
    (window_extent(res.win_x0, res.win_x1) * window_extent(res.win_y0, res.win_y1)) % (usize::MAX as int + 1)
}

/// The samples that the transform covers for component `c`, and the
/// resolution level they are taken at: that of the lowest resolution kept
/// for whole tile-components (of the first component's count), the window
/// at the resolution decoded otherwise.
pub open spec fn mct_samples(tcd: &TileCoder, c: int) -> int {
    if tcd.whole_tile_decoding {
        let m = tcd.tile.comps@[0].minimum_num_resolutions as int;
        res_samples(tcd.tile.comps@[c].resolutions@[m - 1])
    } else {
        window_samples(tcd.tile.comps@[c].resolutions@[tcd.image.comps@[c].resno_decoded as int])
    }
}

/// The first three components do not agree on what the transform needs:
/// their number of resolution levels kept (whole tile-components), the
/// resolution decoded, or their number of samples.
pub open spec fn mct_components_differ(tcd: &TileCoder) -> bool {
    let comps = tcd.tile.comps@;
    let ic = tcd.image.comps@;
    ||| tcd.whole_tile_decoding && (comps[0].minimum_num_resolutions != comps[1].minimum_num_resolutions
        || comps[0].minimum_num_resolutions != comps[2].minimum_num_resolutions)
    ||| ic[0].resno_decoded != ic[1].resno_decoded || ic[0].resno_decoded != ic[2].resno_decoded
    ||| mct_samples(tcd, 1) != mct_samples(tcd, 0) || mct_samples(tcd, 2) != mct_samples(tcd, 0)
}

/// The transform step of a decode, as `mct_decode_plan` decides it.
pub open spec fn mct_plan_spec(tcd: &TileCoder) -> Result<MctStep, TcdError> {
    let tcp = tcd.cp.tcps@[tcd.tcd_tileno as int];
    let n = tcd.tile.comps@.len();
    let samples = mct_samples(tcd, 0) as usize;
    if tcp.mct == 0 || tcd.used_component is Some {
        Ok(MctStep::Skip)
    } else if n >= 3 && mct_components_differ(tcd) {
        Err(TcdError::ComponentsDiffer)
    } else if n < 3 {
        Ok(MctStep::TooFewComponents)
    } else if tcp.mct == 2 {
        if tcp.has_mct_decoding_matrix { Ok(MctStep::Custom { samples }) } else { Ok(MctStep::Skip) }
    } else if tcp.tccps@[0].qmfbid == 1 {
        Ok(MctStep::Reversible { samples })
    } else {
        Ok(MctStep::Irreversible { samples })
    }
}

/// The colour transform of a decode follows the wavelet filter of the first
/// component: where the transform applies (the tile has the colour
/// transform, all components are decoded and the first three agree), it is
/// the reversible one exactly when that filter is the reversible 5-3 one,
/// and the irreversible one otherwise; and it is the one an encode of the
/// same tile applies.
pub proof fn lemma_colour_transform_follows_filter(tcd: &TileCoder)
    requires
        tcd.tile.comps@.len() >= 3,
        0 <= tcd.tcd_tileno < tcd.cp.tcps@.len(),
    ensures
        ({
            let tcp = tcd.cp.tcps@[tcd.tcd_tileno as int];
            let reversible = tcp.tccps@[0].qmfbid == 1;
            &&& tcp.mct == 1 && tcd.used_component is None && !mct_components_differ(tcd) ==> {
                ||| reversible && mct_plan_spec(tcd) matches Ok(MctStep::Reversible { .. })
                ||| !reversible && mct_plan_spec(tcd) matches Ok(MctStep::Irreversible { .. })
            }
            &&& mct_plan_spec(tcd) matches Ok(MctStep::Reversible { .. }) ==> reversible
            &&& mct_plan_spec(tcd) matches Ok(MctStep::Irreversible { .. }) ==> !reversible
            &&& (tcp.tccps@[0].qmfbid <= 1 && mct_plan_spec(tcd) matches Ok(MctStep::Reversible { .. }))
                ==> crate::tcd::encode::mct_encode_spec(tcd) is Reversible
            &&& (tcp.tccps@[0].qmfbid <= 1 && mct_plan_spec(tcd) matches Ok(MctStep::Irreversible { .. }))
                ==> crate::tcd::encode::mct_encode_spec(tcd) is Irreversible
        }),
{
}

impl TileCoder {
    /// Decides the multiple component transform of a decode: whether it
    /// applies, over how many samples, and which one; fails when the first
    /// three components do not agree on it.
    #[verifier::rlimit(30)]
    pub fn mct_decode_plan(&self) -> (r: Result<MctStep, TcdError>)
        requires
            decoded_wf(self),
            self.tile.comps@.len() >= 1,
        ensures
            r == mct_plan_spec(self),
    {
        let tcp = &self.cp.tcps[self.tcd_tileno as usize];
        if tcp.mct == 0 || self.used_component.is_some() {
            return Ok(MctStep::Skip);
        }
        let n = self.tile.comps.len();
        proof {
            assert(comp_wf(self, 0));
        }
        let samples: usize;
        if self.whole_tile_decoding {
            let m = self.tile.comps[0].minimum_num_resolutions as usize;
            let res0 = &self.tile.comps[0].resolutions[m - 1];
            assert(res_wf(*res0));
            samples = ((res0.x1 - res0.x0) as usize).wrapping_mul((res0.y1 - res0.y0) as usize);
            if n >= 3 {
                proof {
                    assert(comp_wf(self, 1));
                    assert(comp_wf(self, 2));
                }
                let c0 = &self.tile.comps[0];
                let c1 = &self.tile.comps[1];
                let c2 = &self.tile.comps[2];
                if c0.minimum_num_resolutions != c1.minimum_num_resolutions
                    || c0.minimum_num_resolutions != c2.minimum_num_resolutions {
                    return Err(TcdError::ComponentsDiffer);
                }
                let r1 = &c1.resolutions[m - 1];
                let r2 = &c2.resolutions[m - 1];
                assert(res_wf(*r1));
                assert(res_wf(*r2));
                let s1 = ((r1.x1 - r1.x0) as usize).wrapping_mul((r1.y1 - r1.y0) as usize);
                let s2 = ((r2.x1 - r2.x0) as usize).wrapping_mul((r2.y1 - r2.y0) as usize);
                let ic = &self.image.comps;
                if ic[0].resno_decoded != ic[1].resno_decoded || ic[0].resno_decoded != ic[2].resno_decoded
                    || s1 != samples || s2 != samples {
                    return Err(TcdError::ComponentsDiffer);
                }
            }
        } else {
            let rd0 = self.image.comps[0].resno_decoded as usize;
            proof {
                assert(self.image.comps@[0].resno_decoded < self.tile.comps@[0].numresolutions);
            }
            let res0 = &self.tile.comps[0].resolutions[rd0];
            samples = (res0.win_x1.wrapping_sub(res0.win_x0) as usize).wrapping_mul(
                res0.win_y1.wrapping_sub(res0.win_y0) as usize);
            if n >= 3 {
                proof {
                    assert(comp_wf(self, 1));
                    assert(comp_wf(self, 2));
                    assert(self.image.comps@[1].resno_decoded < self.tile.comps@[1].numresolutions);
                    assert(self.image.comps@[2].resno_decoded < self.tile.comps@[2].numresolutions);
                }
                let r1 = &self.tile.comps[1].resolutions[self.image.comps[1].resno_decoded as usize];
                let r2 = &self.tile.comps[2].resolutions[self.image.comps[2].resno_decoded as usize];
                let s1 = (r1.win_x1.wrapping_sub(r1.win_x0) as usize).wrapping_mul(r1.win_y1.wrapping_sub(r1.win_y0) as usize);
                let s2 = (r2.win_x1.wrapping_sub(r2.win_x0) as usize).wrapping_mul(r2.win_y1.wrapping_sub(r2.win_y0) as usize);
                let ic = &self.image.comps;
                if ic[0].resno_decoded != ic[1].resno_decoded || ic[0].resno_decoded != ic[2].resno_decoded
                    || s1 != samples || s2 != samples {
                    return Err(TcdError::ComponentsDiffer);
                }
            }
        }
        if n < 3 {
            return Ok(MctStep::TooFewComponents);
        }
        if tcp.mct == 2 {
            if tcp.has_mct_decoding_matrix {
                Ok(MctStep::Custom { samples })
            } else {
                Ok(MctStep::Skip)
            }
        } else if tcp.tccps[0].qmfbid == 1 {
            Ok(MctStep::Reversible { samples })
        } else {
            Ok(MctStep::Irreversible { samples })
        }
    }
}

/// What the inverse wavelet transform of a decode does for one component.
#[derive(Debug, Clone, Copy, PartialEq, Eq)]
pub enum DwtStep {
    /// The component is not decoded.
    Skip,
    /// The reversible transform, up to `resolutions` levels.
    Reversible { resolutions: u32 },
    /// The irreversible transform, up to `resolutions` levels.
    Irreversible { resolutions: u32 },
}

/// The inverse wavelet transform of component `c`: none when it is not
/// decoded, else that of its filter, up to the level after the highest
/// decoded one (in 32-bit unsigned arithmetic).
pub open spec fn dwt_step_spec(tcd: &TileCoder, c: int) -> DwtStep {
    let resolutions = ((tcd.image.comps@[c].resno_decoded + 1) % 0x1_0000_0000) as u32;
    if !tcd.is_used(c) {
        DwtStep::Skip
    } else if tcd.cp.tcps@[tcd.tcd_tileno as int].tccps@[c].qmfbid == 1 {
        DwtStep::Reversible { resolutions }
    } else {
        DwtStep::Irreversible { resolutions }
    }
}

/// The code-block style flag that asks for predictable termination.
pub const CBLKSTY_PTERM: u32 = 0x10;

impl TileCoder {
    /// The inverse wavelet transform of each component of a decode.
    pub fn dwt_decode_plan(&self) -> (r: Vec<DwtStep>)
        requires
            components_wf(self),
            self.used_component matches Some(u) ==> u@.len() == self.tile.comps@.len(),
        ensures
            r@.len() == self.tile.comps@.len(),
            forall|c: int| 0 <= c < r@.len() ==> #[trigger] r@[c] == dwt_step_spec(self, c),
    {
        let n = self.tile.comps.len();
        let tileno = self.tcd_tileno as usize;
        let mut steps: Vec<DwtStep> = Vec::new();
        let mut c: usize = 0;
        while c < n
            invariant
                c <= n,
                n == self.tile.comps@.len(),
                tileno == self.tcd_tileno,
                components_wf(self),
                self.used_component matches Some(u) ==> u@.len() == n,
                steps@.len() == c,
                forall|k: int| 0 <= k < c ==> #[trigger] steps@[k] == dwt_step_spec(self, k),
            decreases n - c,
        {
            proof {
                assert(comp_wf(self, c as int));
            }
            let used = match &self.used_component {
                Some(u) => u[c],
                None => true,
            };
            let resolutions = self.image.comps[c].resno_decoded.wrapping_add(1);
            let step = if !used {
                DwtStep::Skip
            } else if self.cp.tcps[tileno].tccps[c].qmfbid == 1 {
                DwtStep::Reversible { resolutions }
            } else {
                DwtStep::Irreversible { resolutions }
            };
            steps.push(step);
            c = c + 1;
        }
        steps
    }

    /// Whether the code-block decoder checks predictable termination: only
    /// when every layer is decoded and the first component's code-block
    /// style asks for it.
    pub fn pterm_check(&self) -> (r: bool)
        requires
            components_wf(self),
            self.tile.comps@.len() >= 1,
        ensures
            ({
                let tcp = self.cp.tcps@[self.tcd_tileno as int];
                r == (tcp.num_layers_to_decode == tcp.numlayers && (tcp.tccps@[0].cblksty / CBLKSTY_PTERM) % 2 == 1)
            }),
    {
        let tcp = &self.cp.tcps[self.tcd_tileno as usize];
        let style = tcp.tccps[0].cblksty;
        let flag = style & CBLKSTY_PTERM;
        assert(flag != 0 <==> (style / 0x10u32) % 2 == 1) by (bit_vector)
            requires
                flag == style & 0x10u32,
        ;
        tcp.num_layers_to_decode == tcp.numlayers && flag != 0
    }
}

} // verus!
