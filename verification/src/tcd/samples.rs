//! The samples of a tile: the DC level shift that brings them to and from the
//! signed range the wavelet transform works in.
use crate::tcd::decode::{components_wf, comp_wf, decoded_wf, res_wf, same_comp_geometry, same_frame, window_extent};
use crate::tcd::math::{clamp, pow2_i64};
use vstd::arithmetic::power2::pow2;
use crate::tcd::model::{TileCoder, TileComponent};
use vstd::arithmetic::div_mod::{lemma_add_mod_noop, lemma_fundamental_div_mod, lemma_fundamental_div_mod_converse, lemma_mul_mod_noop_right};
use vstd::prelude::*;

verus! {

/// Index `k` of a buffer that holds rows of `pitch` samples lies in the
/// block of the first `w` samples of the first `h` rows.
pub open spec fn in_block(k: int, pitch: int, w: int, h: int) -> bool {
    pitch > 0 && 0 <= k && k / pitch < h && k % pitch < w
}

/// A sample after the decoder's DC level shift: the shift added, in 32-bit
/// arithmetic, and the result brought into `[min, max]`.
pub open spec fn shifted_sample(v: i32, shift: i32, min: i32, max: i32) -> i32 {
    clamp(vstd::wrapping::i32_specs::wrapping_add(v, shift) as int, min as int, max as int) as i32
}

proof fn lemma_block_index(k: int, pitch: int, j: int, i: int)
    requires
        pitch > 0,
        0 <= i < pitch,
        0 <= j,
    ensures
        k == j * pitch + i ==> k / pitch == j && k % pitch == i,
        k >= 0 && k / pitch == j && k % pitch == i ==> k == j * pitch + i,
{
    if k == j * pitch + i {
        lemma_fundamental_div_mod_converse(k, pitch, j, i);
    }
    if k >= 0 && k / pitch == j && k % pitch == i {
        lemma_fundamental_div_mod(k, pitch);
        assert(k == pitch * (k / pitch) + k % pitch);
        assert(pitch * j == j * pitch) by (nonlinear_arith);
    }
}

/// Applies the decoder's DC level shift to the block of `w` by `h` samples
/// at the start of a buffer of rows of `pitch` samples.
pub fn shift_block(buf: &mut Vec<i32>, pitch: usize, w: usize, h: usize, shift: i32, min: i32, max: i32)
    requires
        w <= pitch,
        h * pitch <= old(buf)@.len(),
    ensures
        final(buf)@.len() == old(buf)@.len(),
        forall|k: int| 0 <= k < old(buf)@.len() ==> #[trigger] final(buf)@[k] == (if in_block(k, pitch as int, w as int, h as int) {
            shifted_sample(old(buf)@[k], shift, min, max)
        } else {
            old(buf)@[k]
        }),
{
    let ghost start = buf@;
    let n = buf.len();
    let mut j: usize = 0;
    while j < h
        invariant
            j <= h,
            w <= pitch,
            h * pitch <= start.len(),
            start.len() == n,
            buf@.len() == start.len(),
            forall|k: int| 0 <= k < start.len() ==> #[trigger] buf@[k] == (if in_block(k, pitch as int, w as int, j as int) {
                shifted_sample(start[k], shift, min, max)
            } else {
                start[k]
            }),
        decreases h - j,
    {
        assert((j + 1) * pitch <= h * pitch) by (nonlinear_arith)
            requires
                j + 1 <= h,
        ;
        assert(j * pitch + pitch == (j + 1) * pitch) by (nonlinear_arith);
        assert(j * pitch <= (j + 1) * pitch) by (nonlinear_arith);
        let row = j * pitch;
        let mut i: usize = 0;
        while i < w
            invariant
                i <= w,
                w <= pitch,
                j < h,
                row == j * pitch,
                row + pitch <= start.len(),
                start.len() == n,
                buf@.len() == start.len(),
                forall|k: int| 0 <= k < start.len() ==> #[trigger] buf@[k] == (if in_block(k, pitch as int, w as int, j as int)
                    || (pitch > 0 && k / (pitch as int) == j && k % (pitch as int) < i) {
                    shifted_sample(start[k], shift, min, max)
                } else {
                    start[k]
                }),
            decreases w - i,
        {
            let idx = row + i;
            let v = buf[idx];
            let s = v.wrapping_add(shift);
            let c = if s < min {
                min
            } else if s > max {
                max
            } else {
                s
            };
            buf.set(idx, c);
            proof {
                lemma_block_index(idx as int, pitch as int, j as int, i as int);
                assert forall|k: int| 0 <= k < start.len() implies #[trigger] buf@[k] == (if in_block(k, pitch as int, w as int, j as int)
                    || (pitch > 0 && k / (pitch as int) == j && k % (pitch as int) < i + 1) {
                    shifted_sample(start[k], shift, min, max)
                } else {
                    start[k]
                }) by {
                    if k != idx {
                        lemma_block_index(k, pitch as int, j as int, i as int);
                    }
                }
            }
            i = i + 1;
        }
        proof {
            assert forall|k: int| 0 <= k < start.len() implies #[trigger] buf@[k] == (if in_block(k, pitch as int, w as int, (j + 1) as int) {
                shifted_sample(start[k], shift, min, max)
            } else {
                start[k]
            }) by {
            }
        }
        j = j + 1;
    }
}

/// The range of a component's samples: `[-2^(prec-1), 2^(prec-1) - 1]` for
/// signed samples, `[0, 2^prec - 1]` for unsigned ones.
pub open spec fn sample_range(prec: u32, sgnd: bool) -> (i32, i32) {
    if sgnd {
        ((-pow2((prec - 1) as nat)) as i32, (pow2((prec - 1) as nat) - 1) as i32)
    } else {
        (0i32, (pow2(prec as nat) - 1) as i32)
    }
}

/// The block of decoded samples of component `c`: the row pitch of its
/// buffer, and the samples across and down at the resolution decoded; whole
/// tile-components keep rows of the lowest resolution kept.
pub open spec fn decoded_block(tcd: &TileCoder, c: int) -> (int, int, int) {
    let tilec = tcd.tile.comps@[c];
    let res = tilec.resolutions@[tcd.image.comps@[c].resno_decoded as int];
    if tcd.whole_tile_decoding {
        let full = tilec.resolutions@[tilec.minimum_num_resolutions - 1];
        (full.x1 - full.x0, res.x1 - res.x0, res.y1 - res.y0)
    } else {
        let w = window_extent(res.win_x0, res.win_x1);
        (w, w, window_extent(res.win_y0, res.win_y1))
    }
}

/// The buffer that holds the decoded samples of a tile-component.
pub open spec fn decoded_buffer(tcd: &TileCoder, tilec: TileComponent) -> Seq<i32> {
    if tcd.whole_tile_decoding { tilec.data@ } else { tilec.data_win@ }
}

/// The decoder shifts component `c` here: it is decoded and its wavelet
/// filter is the reversible one (the irreversible one leaves real samples,
/// which are shifted elsewhere).
pub open spec fn shifts_on_decode(tcd: &TileCoder, c: int) -> bool {
    tcd.is_used(c) && tcd.cp.tcps@[tcd.tcd_tileno as int].tccps@[c].qmfbid == 1
}

/// The decoded samples of each shifted component fit its buffer, and its
/// precision gives a range that 32 bits hold.
pub open spec fn shift_decode_wf(tcd: &TileCoder) -> bool {
    &&& decoded_wf(tcd)
    &&& forall|c: int| 0 <= c < tcd.tile.comps@.len() && #[trigger] shifts_on_decode(tcd, c) ==> {
        let (pitch, w, h) = decoded_block(tcd, c);
        let ic = tcd.image.comps@[c];
        &&& w <= pitch
        &&& h * pitch <= decoded_buffer(tcd, tcd.tile.comps@[c]).len()
        &&& (if ic.sgnd { 1 <= ic.prec <= 31 } else { ic.prec <= 31 })
    }
}

impl TileCoder {
    /// The decoder's DC level shift: adds each decoded component's shift to
    /// its samples and brings them into the range of its precision, for the
    /// components of the reversible filter.
    #[verifier::rlimit(30)]
    pub fn dc_level_shift_decode(&mut self)
        requires
            shift_decode_wf(old(self)),
        ensures
            same_frame(old(self), final(self)),
            final(self).used_component == old(self).used_component,
            final(self).whole_tile_decoding == old(self).whole_tile_decoding,
            forall|c: int| 0 <= c < old(self).tile.comps@.len() ==> {
                let (a, b) = (#[trigger] old(self).tile.comps@[c], final(self).tile.comps@[c]);
                let (pitch, w, h) = decoded_block(old(self), c);
                let ic = old(self).image.comps@[c];
                let (min, max) = sample_range(ic.prec, ic.sgnd);
                let shift = old(self).cp.tcps@[old(self).tcd_tileno as int].tccps@[c].dc_level_shift;
                let before = decoded_buffer(old(self), a);
                let after = decoded_buffer(old(self), b);
                &&& b.resolutions == a.resolutions
                &&& same_comp_geometry(a, b)
                &&& b.data_size_needed == a.data_size_needed
                &&& b.win_x0 == a.win_x0 && b.win_y0 == a.win_y0 && b.win_x1 == a.win_x1 && b.win_y1 == a.win_y1
                &&& (if old(self).whole_tile_decoding { b.data_win == a.data_win } else { b.data == a.data })
                &&& after.len() == before.len()
                &&& forall|k: int| 0 <= k < before.len() ==> #[trigger] after[k] == (
                    if shifts_on_decode(old(self), c) && in_block(k, pitch, w, h) {
                        shifted_sample(before[k], shift, min, max)
                    } else {
                        before[k]
                    })
            },
    {
        let n = self.tile.comps.len();
        let whole = self.whole_tile_decoding;
        let tileno = self.tcd_tileno as usize;
        let mut c: usize = 0;
        while c < n
            invariant
                c <= n,
                n == self.tile.comps@.len(),
                whole == old(self).whole_tile_decoding,
                tileno == old(self).tcd_tileno,
                shift_decode_wf(old(self)),
                same_frame(old(self), self),
                self.used_component == old(self).used_component,
                self.whole_tile_decoding == old(self).whole_tile_decoding,
                self.image == old(self).image,
                self.cp == old(self).cp,
                forall|k: int| c <= k < n ==> #[trigger] self.tile.comps@[k] == old(self).tile.comps@[k],
                forall|k: int| 0 <= k < c ==> {
                    let (a, b) = (#[trigger] old(self).tile.comps@[k], self.tile.comps@[k]);
                    let (pitch, w, h) = decoded_block(old(self), k);
                    let ic = old(self).image.comps@[k];
                    let (min, max) = sample_range(ic.prec, ic.sgnd);
                    let shift = old(self).cp.tcps@[old(self).tcd_tileno as int].tccps@[k].dc_level_shift;
                    let before = decoded_buffer(old(self), a);
                    let after = decoded_buffer(old(self), b);
                    &&& b.resolutions == a.resolutions
                    &&& same_comp_geometry(a, b)
                    &&& b.data_size_needed == a.data_size_needed
                    &&& b.win_x0 == a.win_x0 && b.win_y0 == a.win_y0 && b.win_x1 == a.win_x1 && b.win_y1 == a.win_y1
                    &&& (if old(self).whole_tile_decoding { b.data_win == a.data_win } else { b.data == a.data })
                    &&& after.len() == before.len()
                    &&& forall|j: int| 0 <= j < before.len() ==> #[trigger] after[j] == (
                        if shifts_on_decode(old(self), k) && in_block(j, pitch, w, h) {
                            shifted_sample(before[j], shift, min, max)
                        } else {
                            before[j]
                        })
                },
            decreases n - c,
        {
            let used = match &self.used_component {
                Some(u) => u[c],
                None => true,
            };
            proof {
                assert(comp_wf(old(self), c as int));
                assert(old(self).image.comps@[c as int].resno_decoded < old(self).tile.comps@[c as int].numresolutions);
            }
            let tccp = &self.cp.tcps[tileno].tccps[c];
            let shift = tccp.dc_level_shift;
            let ghost prev = self.tile.comps@;
            if used && tccp.qmfbid == 1 {
                assert(shifts_on_decode(old(self), c as int));
                let ic = self.image.comps[c];
                let tilec = &self.tile.comps[c];
                let res = &tilec.resolutions[ic.resno_decoded as usize];
                let pitch: usize;
                let w: usize;
                let h: usize;
                if whole {
                    let full = &tilec.resolutions[(tilec.minimum_num_resolutions - 1) as usize];
                    assert(res_wf(*res) && res_wf(*full));
                    pitch = (full.x1 - full.x0) as usize;
                    w = (res.x1 - res.x0) as usize;
                    h = (res.y1 - res.y0) as usize;
                } else {
                    w = res.win_x1.wrapping_sub(res.win_x0) as usize;
                    h = res.win_y1.wrapping_sub(res.win_y0) as usize;
                    pitch = w;
                }
                assert(decoded_block(old(self), c as int) == (pitch as int, w as int, h as int));
                let (min, max): (i32, i32) = if ic.sgnd {
                    let half = pow2_i64(ic.prec - 1);
                    ((-half) as i32, (half - 1) as i32)
                } else {
                    let full_range = pow2_i64(ic.prec);
                    (0i32, (full_range - 1) as i32)
                };
                assert((min, max) == sample_range(ic.prec, ic.sgnd));
                if whole {
                    shift_block(&mut self.tile.comps[c].data, pitch, w, h, shift, min, max);
                } else {
                    shift_block(&mut self.tile.comps[c].data_win, pitch, w, h, shift, min, max);
                }
                proof {
                    assert(self.tile.comps@ == prev.update(c as int, self.tile.comps@[c as int]));
                }
            }
            c = c + 1;
        }
    }
}

/// The samples of a whole tile-component, in the platform's word arithmetic.
pub open spec fn comp_samples(tilec: TileComponent) -> int {
    ((tilec.x1 - tilec.x0) * (tilec.y1 - tilec.y0)) % (usize::MAX as int + 1)
}

/// The encoder shifts component `c` here: its wavelet filter is the
/// reversible one (the irreversible one turns samples into reals, which is
/// done elsewhere).
pub open spec fn shifts_on_encode(tcd: &TileCoder, c: int) -> bool {
    tcd.cp.tcps@[tcd.tcd_tileno as int].tccps@[c].qmfbid == 1
}

impl TileCoder {
    /// The encoder's DC level shift: subtracts each component's shift from
    /// the samples of its whole tile-component, in 32-bit arithmetic, for the
    /// components of the reversible filter.
    pub fn dc_level_shift_encode(&mut self)
        requires
            components_wf(old(self)),
            forall|c: int| 0 <= c < old(self).tile.comps@.len() && #[trigger] shifts_on_encode(old(self), c)
                ==> comp_samples(old(self).tile.comps@[c]) <= old(self).tile.comps@[c].data@.len(),
        ensures
            same_frame(old(self), final(self)),
            final(self).used_component == old(self).used_component,
            final(self).whole_tile_decoding == old(self).whole_tile_decoding,
            forall|c: int| 0 <= c < old(self).tile.comps@.len() ==> {
                let (a, b) = (#[trigger] old(self).tile.comps@[c], final(self).tile.comps@[c]);
                let shift = old(self).cp.tcps@[old(self).tcd_tileno as int].tccps@[c].dc_level_shift;
                &&& b == (TileComponent { data: b.data, ..a })
                &&& b.data@.len() == a.data@.len()
                &&& forall|k: int| 0 <= k < a.data@.len() ==> #[trigger] b.data@[k] == (
                    if shifts_on_encode(old(self), c) && k < comp_samples(a) {
                        vstd::wrapping::i32_specs::wrapping_sub(a.data@[k], shift)
                    } else {
                        a.data@[k]
                    })
            },
    {
        let n = self.tile.comps.len();
        let tileno = self.tcd_tileno as usize;
        let mut c: usize = 0;
        while c < n
            invariant
                c <= n,
                n == self.tile.comps@.len(),
                tileno == old(self).tcd_tileno,
                components_wf(old(self)),
                forall|k: int| 0 <= k < old(self).tile.comps@.len() && #[trigger] shifts_on_encode(old(self), k)
                    ==> comp_samples(old(self).tile.comps@[k]) <= old(self).tile.comps@[k].data@.len(),
                same_frame(old(self), self),
                self.used_component == old(self).used_component,
                self.whole_tile_decoding == old(self).whole_tile_decoding,
                self.image == old(self).image,
                self.cp == old(self).cp,
                forall|k: int| c <= k < n ==> #[trigger] self.tile.comps@[k] == old(self).tile.comps@[k],
                forall|k: int| 0 <= k < c ==> {
                    let (a, b) = (#[trigger] old(self).tile.comps@[k], self.tile.comps@[k]);
                    let shift = old(self).cp.tcps@[old(self).tcd_tileno as int].tccps@[k].dc_level_shift;
                    &&& b == (TileComponent { data: b.data, ..a })
                    &&& b.data@.len() == a.data@.len()
                    &&& forall|j: int| 0 <= j < a.data@.len() ==> #[trigger] b.data@[j] == (
                        if shifts_on_encode(old(self), k) && j < comp_samples(a) {
                            vstd::wrapping::i32_specs::wrapping_sub(a.data@[j], shift)
                        } else {
                            a.data@[j]
                        })
                },
            decreases n - c,
        {
            proof {
                assert(comp_wf(old(self), c as int));
            }
            let tccp = &self.cp.tcps[tileno].tccps[c];
            let shift = tccp.dc_level_shift;
            if tccp.qmfbid == 1 {
                assert(shifts_on_encode(old(self), c as int));
                let tilec = &self.tile.comps[c];
                let count = ((tilec.x1 - tilec.x0) as usize).wrapping_mul((tilec.y1 - tilec.y0) as usize);
                assert(count == comp_samples(old(self).tile.comps@[c as int]));
                let ghost prev = self.tile.comps@;
                let ghost start = self.tile.comps@[c as int].data@;
                let data = &mut self.tile.comps[c].data;
                let mut i: usize = 0;
                while i < count
                    invariant
                        i <= count,
                        count <= start.len(),
                        data@.len() == start.len(),
                        forall|j: int| 0 <= j < start.len() ==> #[trigger] data@[j] == (if j < i {
                            vstd::wrapping::i32_specs::wrapping_sub(start[j], shift)
                        } else {
                            start[j]
                        }),
                    decreases count - i,
                {
                    let v = data[i];
                    data.set(i, v.wrapping_sub(shift));
                    i = i + 1;
                }
                proof {
                    assert(self.tile.comps@ == prev.update(c as int, self.tile.comps@[c as int]));
                }
            }
            c = c + 1;
        }
    }
}

/// The bytes that a sample of `prec` bits takes in a tile buffer: whole
/// bytes, with three widened to four.
pub open spec fn sample_bytes(prec: u32) -> u32 {
    let s = prec / 8 + (if prec % 8 != 0 { 1u32 } else { 0u32 });
    if s == 3 { 4 } else { s as u32 }
}

/// The bytes that a sample of `prec` bits takes in a tile buffer.
pub fn sample_bytes_exec(prec: u32) -> (r: u32)
    ensures
        r == sample_bytes(prec),
{
    let mut s = prec / 8;
    if prec % 8 != 0 {
        s = s + 1;
    }
    if s == 3 {
        s = 4;
    }
    s
}

/// The samples across and down of component `c` at the lowest resolution
/// kept: of its window when `partial` is asked of a windowed decode, of the
/// whole tile-component otherwise.
pub open spec fn kept_extent(tcd: &TileCoder, c: int, partial: bool) -> (int, int) {
    let tilec = tcd.tile.comps@[c];
    let res = tilec.resolutions@[tilec.minimum_num_resolutions - 1];
    if partial && !tcd.whole_tile_decoding {
        (window_extent(res.win_x0, res.win_x1), window_extent(res.win_y0, res.win_y1))
    } else {
        (res.x1 - res.x0, res.y1 - res.y0)
    }
}

/// The bytes of the decoded samples of components below `n`.
pub open spec fn decoded_total(tcd: &TileCoder, partial: bool, n: int) -> int
    decreases n,
{
    if n <= 0 {
        0
    } else {
        let (w, h) = kept_extent(tcd, n - 1, partial);
        decoded_total(tcd, partial, n - 1) + w * h * sample_bytes(tcd.image.comps@[n - 1].prec)
    }
}

/// The size of a decoded tile does not fit 32 bits: some component has more
/// samples than 32 bits count, or all of them take more bytes.
pub open spec fn decoded_size_overflows(tcd: &TileCoder, partial: bool) -> bool {
    ||| exists|c: int| 0 <= c < tcd.tile.comps@.len() && #[trigger] kept_extent(tcd, c, partial).0
        * kept_extent(tcd, c, partial).1 > u32::MAX
    ||| decoded_total(tcd, partial, tcd.tile.comps@.len() as int) > u32::MAX
}

proof fn lemma_decoded_total_grows(tcd: &TileCoder, partial: bool, i: int, j: int)
    requires
        0 <= i <= j <= tcd.tile.comps@.len(),
        forall|c: int| 0 <= c < j ==> #[trigger] kept_extent(tcd, c, partial).0 >= 0 && kept_extent(tcd, c, partial).1 >= 0,
    ensures
        decoded_total(tcd, partial, i) <= decoded_total(tcd, partial, j),
    decreases j - i,
{
    if i < j {
        lemma_decoded_total_grows(tcd, partial, i, j - 1);
        let (w, h) = kept_extent(tcd, j - 1, partial);
        let s = sample_bytes(tcd.image.comps@[j - 1].prec);
        assert(w * h * s >= 0) by (nonlinear_arith)
            requires
                w >= 0,
                h >= 0,
                s >= 0,
        ;
    }
}

/// The components and their lowest resolution kept are consistent, and no
/// component has rows of samples but no width.
pub open spec fn decoded_size_wf(tcd: &TileCoder, partial: bool) -> bool {
    &&& components_wf(tcd)
    &&& forall|c: int| 0 <= c < tcd.tile.comps@.len() ==> #[trigger] kept_extent(tcd, c, partial).1 > 0
        ==> kept_extent(tcd, c, partial).0 > 0
}

impl TileCoder {
    /// The bytes that the decoded tile takes, the samples of each component
    /// at its lowest resolution kept (of the window, when `partial` is asked
    /// of a windowed decode) in whole bytes; the largest 32-bit value when it
    /// does not fit 32 bits.
    #[verifier::rlimit(30)]
    pub fn get_decoded_tile_size(&self, partial: bool) -> (r: u32)
        requires
            decoded_size_wf(self, partial),
        ensures
            r == (if decoded_size_overflows(self, partial) {
                u32::MAX as int
            } else {
                decoded_total(self, partial, self.tile.comps@.len() as int)
            }),
    {
        let n = self.tile.comps.len();
        let whole = self.whole_tile_decoding;
        let mut total: u32 = 0;
        let mut c: usize = 0;
        proof {
            assert forall|k: int| 0 <= k < n implies #[trigger] kept_extent(self, k, partial).0 >= 0
                && kept_extent(self, k, partial).1 >= 0 by {
                assert(comp_wf(self, k));
                let tilec = self.tile.comps@[k];
                assert(res_wf(tilec.resolutions@[tilec.minimum_num_resolutions - 1]));
            }
        }
        while c < n
            invariant
                c <= n,
                n == self.tile.comps@.len(),
                whole == self.whole_tile_decoding,
                decoded_size_wf(self, partial),
                forall|k: int| 0 <= k < n ==> #[trigger] kept_extent(self, k, partial).0 >= 0
                    && kept_extent(self, k, partial).1 >= 0,
                total == decoded_total(self, partial, c as int),
                forall|k: int| 0 <= k < c ==> #[trigger] kept_extent(self, k, partial).0
                    * kept_extent(self, k, partial).1 <= u32::MAX,
            decreases n - c,
        {
            proof {
                assert(comp_wf(self, c as int));
            }
            let s = sample_bytes_exec(self.image.comps[c].prec);
            let tilec = &self.tile.comps[c];
            let res = &tilec.resolutions[(tilec.minimum_num_resolutions - 1) as usize];
            let w: u32;
            let h: u32;
            if partial && !whole {
                w = res.win_x1.wrapping_sub(res.win_x0);
                h = res.win_y1.wrapping_sub(res.win_y0);
            } else {
                assert(res_wf(*res));
                w = (res.x1 - res.x0) as u32;
                h = (res.y1 - res.y0) as u32;
            }
            assert(kept_extent(self, c as int, partial) == (w as int, h as int));
            assert(h > 0 ==> w > 0) by {
                assert(kept_extent(self, c as int, partial).1 > 0 ==> kept_extent(self, c as int, partial).0 > 0);
            }
            if h > 0 && u32::MAX / w < h {
                proof {
                    assert(w * h > u32::MAX) by (nonlinear_arith)
                        requires
                            w > 0,
                            (u32::MAX as int) / (w as int) < h,
                    ;
                    assert(kept_extent(self, c as int, partial).0 * kept_extent(self, c as int, partial).1 > u32::MAX);
                    assert(decoded_size_overflows(self, partial));
                }
                return u32::MAX;
            }
            proof {
                if h > 0 {
                    assert(w * h <= u32::MAX) by (nonlinear_arith)
                        requires
                            w > 0,
                            (u32::MAX as int) / (w as int) >= h,
                    ;
                } else {
                    assert(w * h == 0) by (nonlinear_arith)
                        requires
                            h == 0,
                    ;
                }
            }
            let mut t = w * h;
            if s != 0 && u32::MAX / s < t {
                proof {
                    assert(t * s > u32::MAX) by (nonlinear_arith)
                        requires
                            s > 0,
                            (u32::MAX as int) / (s as int) < t,
                    ;
                    lemma_decoded_total_grows(self, partial, c as int + 1, n as int);
                    assert(decoded_total(self, partial, c as int + 1) == total + t * s);
                }
                return u32::MAX;
            }
            proof {
                if s > 0 {
                    assert(t * s <= u32::MAX) by (nonlinear_arith)
                        requires
                            s > 0,
                            (u32::MAX as int) / (s as int) >= t,
                    ;
                } else {
                    assert(t * s == 0) by (nonlinear_arith)
                        requires
                            s == 0,
                    ;
                }
            }
            t = t * s;
            assert(decoded_total(self, partial, c as int + 1) == total + t);
            if t > u32::MAX - total {
                proof {
                    lemma_decoded_total_grows(self, partial, c as int + 1, n as int);
                }
                return u32::MAX;
            }
            total = total + t;
            c = c + 1;
        }
        total
    }
}

/// `256^b` for a byte index `b` of a 32-bit word.
pub open spec fn byte_weight(b: int) -> int {
    if b <= 0 { 1 } else if b == 1 { 0x100 } else if b == 2 { 0x1_0000 } else { 0x100_0000 }
}

/// Byte `b` of a sample in little-endian order: byte 0 is the lowest.
pub open spec fn byte_of(v: i32, b: int) -> u8 {
    (((v as u32) as int / byte_weight(b)) % 0x100) as u8
}

/// The place of byte `k` of a sample of `s` bytes, byte 0 the lowest, in
/// the sample's bytes in memory: the same place when the lowest byte comes
/// first (`little`), the mirrored place when the highest does.
pub open spec fn ordered_index(k: int, s: int, little: bool) -> int {
    if little { k } else { s - 1 - k }
}

/// Byte `q` of the output of a block of `w`-wide rows, taken from a buffer
/// of rows of `pitch` samples, at `s` bytes a sample in the byte order that
/// `little` gives.
pub open spec fn out_byte(src: Seq<i32>, pitch: int, w: int, s: int, q: int, little: bool) -> u8 {
    let t = q / s;
    byte_of(src[(t / w) * pitch + t % w], ordered_index(q % s, s, little))
}

/// A component with samples of `s` bytes is written out: one, two or four
/// bytes a sample.
pub open spec fn exchanged_size(s: u32) -> bool {
    s == 1 || s == 2 || s == 4
}

/// The bytes that component `c` takes in the output of a decoded tile.
pub open spec fn out_len(tcd: &TileCoder, c: int) -> int {
    let (pitch, w, h) = decoded_block(tcd, c);
    let s = sample_bytes(tcd.image.comps@[c].prec);
    if exchanged_size(s) { w * h * s } else { 0 }
}

/// Where component `n` starts in the output of a decoded tile.
pub open spec fn out_offset(tcd: &TileCoder, n: int) -> int
    decreases n,
{
    if n <= 0 { 0 } else { out_offset(tcd, n - 1) + out_len(tcd, n - 1) }
}

/// The decoded samples of each written component lie in its buffer, and no
/// component decodes more samples than its lowest resolution kept has.
pub open spec fn update_wf(tcd: &TileCoder) -> bool {
    &&& decoded_wf(tcd)
    &&& decoded_size_wf(tcd, true)
    &&& forall|c: int| 0 <= c < tcd.tile.comps@.len() ==> {
        let (pitch, w, h) = #[trigger] decoded_block(tcd, c);
        let (kw, kh) = kept_extent(tcd, c, true);
        &&& 0 <= w <= pitch
        &&& 0 <= h
        &&& w <= kw && h <= kh
        &&& exchanged_size(sample_bytes(tcd.image.comps@[c].prec)) ==>
            h * pitch <= decoded_buffer(tcd, tcd.tile.comps@[c]).len()
    }
}

/// What `update_tile_data` writes of the components below `n` takes no more
/// bytes than `get_decoded_tile_size` counts for them: the output never runs
/// past the size reported.
pub proof fn lemma_out_offset_bounded(tcd: &TileCoder, n: int)
    requires
        update_wf(tcd),
        0 <= n <= tcd.tile.comps@.len(),
    ensures
        0 <= out_offset(tcd, n) <= decoded_total(tcd, true, n),
    decreases n,
{
    if n > 0 {
        lemma_out_offset_bounded(tcd, n - 1);
        let c = n - 1;
        let (pitch, w, h) = decoded_block(tcd, c);
        let (kw, kh) = kept_extent(tcd, c, true);
        let s = sample_bytes(tcd.image.comps@[c].prec) as int;
        assert(0 <= w * h * s <= kw * kh * s) by (nonlinear_arith)
            requires
                0 <= w <= kw,
                0 <= h <= kh,
                s >= 0,
        ;
        assert(kw * kh * s >= 0) by (nonlinear_arith)
            requires
                0 <= w <= kw,
                0 <= h <= kh,
                s >= 0,
        ;
    }
}

proof fn lemma_out_offset_grows(tcd: &TileCoder, i: int, j: int)
    requires
        update_wf(tcd),
        0 <= i <= j <= tcd.tile.comps@.len(),
    ensures
        out_offset(tcd, i) <= out_offset(tcd, j),
    decreases j - i,
{
    if i < j {
        lemma_out_offset_grows(tcd, i, j - 1);
        let c = j - 1;
        let (pitch, w, h) = decoded_block(tcd, c);
        let s = sample_bytes(tcd.image.comps@[c].prec) as int;
        assert(w * h * s >= 0) by (nonlinear_arith)
            requires
                w >= 0,
                h >= 0,
                s >= 0,
        ;
    }
}

/// Byte `b` of a sample in little-endian order.
fn byte_of_exec(v: i32, b: u32) -> (r: u8)
    requires
        b < 4,
    ensures
        r == byte_of(v, b as int),
{
    #[verifier::truncate]
    let u = v as u32;
    let d: u32 = if b == 0 {
        1
    } else if b == 1 {
        0x100
    } else if b == 2 {
        0x1_0000
    } else {
        0x100_0000
    };
    ((u / d) % 0x100) as u8
}

proof fn lemma_sample_position(t: int, w: int, h: int, pitch: int)
    requires
        0 <= t < w * h,
        0 < w <= pitch,
        h > 0,
    ensures
        0 <= t / w < h,
        0 <= t % w < w,
        0 <= (t / w) * pitch + t % w < h * pitch,
{
    assert(0 <= t / w < h) by (nonlinear_arith)
        requires
            0 <= t < w * h,
            w > 0,
    ;
    assert(0 <= t % w < w) by (nonlinear_arith)
        requires
            w > 0,
    ;
    assert((t / w) * pitch + t % w < h * pitch) by (nonlinear_arith)
        requires
            0 <= t / w < h,
            t % w < w,
            w <= pitch,
    ;
    assert((t / w) * pitch >= 0) by (nonlinear_arith)
        requires
            t / w >= 0,
            pitch > 0,
    ;
}

proof fn lemma_byte_position(q: int, s: int, t: int, b: int)
    requires
        s > 0,
        0 <= b < s,
        t >= 0,
        q == t * s + b,
    ensures
        q / s == t,
        q % s == b,
{
    lemma_fundamental_div_mod_converse(q, s, t, b);
}

/// Writes the block of decoded samples of one component to `dest` from
/// `start`, `s` bytes a sample in the byte order that `little` gives, row
/// after row.
#[verifier::rlimit(30)]
fn write_block(dest: &mut Vec<u8>, start: usize, src: &Vec<i32>, pitch: usize, w: usize, h: usize, s: u32, little: bool)
    requires
        exchanged_size(s),
        w <= pitch,
        h * pitch <= src@.len(),
        start + w * h * s <= old(dest)@.len(),
    ensures
        final(dest)@.len() == old(dest)@.len(),
        forall|p: int| 0 <= p < old(dest)@.len() ==> #[trigger] final(dest)@[p] == (
            if start <= p < start + w * h * s {
                out_byte(src@, pitch as int, w as int, s as int, p - start, little)
            } else {
                old(dest)@[p]
            }),
{
    let ghost orig = dest@;
    let len = dest.len();
    let src_len = src.len();
    if w == 0 || h == 0 {
        assert(w * h * s == 0) by (nonlinear_arith)
            requires
                w == 0 || h == 0,
        ;
        return;
    }
    assert(w * h <= w * h * s) by (nonlinear_arith)
        requires
            s >= 1,
            w >= 0,
            h >= 0,
    ;
    let count = w * h;
    let su = s as usize;
    let mut t: usize = 0;
    while t < count
        invariant
            t <= count,
            count == w * h,
            w > 0,
            h > 0,
            w <= pitch,
            h * pitch <= src@.len(),
            src_len == src@.len(),
            su == s,
            exchanged_size(s),
            start + w * h * s <= len,
            len == orig.len(),
            dest@.len() == len,
            forall|p: int| 0 <= p < len ==> #[trigger] dest@[p] == (
                if start <= p < start + t * s {
                    out_byte(src@, pitch as int, w as int, s as int, p - start, little)
                } else {
                    orig[p]
                }),
        decreases count - t,
    {
        proof {
            lemma_sample_position(t as int, w as int, h as int, pitch as int);
            assert((t + 1) * s <= w * h * s) by (nonlinear_arith)
                requires
                    t + 1 <= w * h,
                    s >= 1,
            ;
            assert(t * s + s == (t + 1) * s) by (nonlinear_arith);
        }
        let j = t / w;
        let i = t % w;
        assert(j * pitch <= h * pitch) by (nonlinear_arith)
            requires
                j < h,
        ;
        let v = src[j * pitch + i];
        let base = start + t * su;
        let mut b: u32 = 0;
        while b < s
            invariant
                b <= s,
                t < count,
                count == w * h,
                w > 0,
                exchanged_size(s),
                su == s,
                base == start + t * s,
                start + (t + 1) * s <= len,
                v == src@[(t as int / w as int) * pitch + t as int % w as int],
                dest@.len() == len,
                len == orig.len(),
                forall|p: int| 0 <= p < len ==> #[trigger] dest@[p] == (
                    if start <= p < start + t * s + b {
                        out_byte(src@, pitch as int, w as int, s as int, p - start, little)
                    } else {
                        orig[p]
                    }),
            decreases s - b,
        {
            let k = if little { b } else { s - 1 - b };
            let byte = byte_of_exec(v, k);
            let idx = base + b as usize;
            dest.set(idx, byte);
            proof {
                lemma_byte_position(idx - start, s as int, t as int, b as int);
            }
            b = b + 1;
        }
        t = t + 1;
    }
}

impl TileCoder {
    /// Writes the decoded tile to `dest`: component after component, the
    /// samples at the resolution decoded (of the window, for a windowed
    /// decode) row after row, in one, two or four bytes a sample, lowest
    /// byte first when `little`, else highest byte first; components of
    /// another sample size are left out. Fails, writing nothing, when the
    /// decoded tile's size does not fit 32 bits or `dest`.
    #[verifier::rlimit(30)]
    pub fn update_tile_data_ordered(&self, dest: &mut Vec<u8>, little: bool) -> (r: bool)
        requires
            update_wf(self),
        ensures
            r == !(decoded_size_overflows(self, true)
                || decoded_total(self, true, self.tile.comps@.len() as int) >= u32::MAX
                || decoded_total(self, true, self.tile.comps@.len() as int) > old(dest)@.len()),
            final(dest)@.len() == old(dest)@.len(),
            !r ==> final(dest)@ == old(dest)@,
            r ==> forall|c: int, p: int| #![trigger final(dest)@[p], out_offset(self, c)]
                0 <= c < self.tile.comps@.len() && out_offset(self, c) <= p < out_offset(self, c + 1) ==> {
                    let (pitch, w, h) = decoded_block(self, c);
                    let s = sample_bytes(self.image.comps@[c].prec);
                    final(dest)@[p] == out_byte(decoded_buffer(self, self.tile.comps@[c]), pitch, w, s as int,
                        p - out_offset(self, c), little)
                },
            r ==> forall|p: int| out_offset(self, self.tile.comps@.len() as int) <= p < old(dest)@.len()
                ==> #[trigger] final(dest)@[p] == old(dest)@[p],
    {
        let size = self.get_decoded_tile_size(true);
        if size == u32::MAX || size as usize > dest.len() {
            return false;
        }
        let n = self.tile.comps.len();
        proof {
            lemma_out_offset_bounded(self, n as int);
        }
        let whole = self.whole_tile_decoding;
        let ghost orig = dest@;
        let len = dest.len();
        let mut off: usize = 0;
        let mut c: usize = 0;
        while c < n
            invariant
                c <= n,
                n == self.tile.comps@.len(),
                whole == self.whole_tile_decoding,
                update_wf(self),
                len == orig.len(),
                dest@.len() == len,
                out_offset(self, n as int) <= len,
                off == out_offset(self, c as int),
                forall|k: int, p: int| #![trigger dest@[p], out_offset(self, k)]
                    0 <= k < c && out_offset(self, k) <= p < out_offset(self, k + 1) ==> {
                        let (pitch, w, h) = decoded_block(self, k);
                        let s = sample_bytes(self.image.comps@[k].prec);
                        dest@[p] == out_byte(decoded_buffer(self, self.tile.comps@[k]), pitch, w, s as int,
                            p - out_offset(self, k), little)
                    },
                forall|p: int| out_offset(self, c as int) <= p < len ==> #[trigger] dest@[p] == orig[p],
            decreases n - c,
        {
            proof {
                lemma_out_offset_grows(self, c as int + 1, n as int);
                assert(comp_wf(self, c as int));
                assert(self.image.comps@[c as int].resno_decoded < self.tile.comps@[c as int].numresolutions);
            }
            let s = sample_bytes_exec(self.image.comps[c].prec);
            let tilec = &self.tile.comps[c];
            let res = &tilec.resolutions[self.image.comps[c].resno_decoded as usize];
            let pitch: usize;
            let w: usize;
            let h: usize;
            if whole {
                let full = &tilec.resolutions[(tilec.minimum_num_resolutions - 1) as usize];
                assert(res_wf(*res) && res_wf(*full));
                pitch = (full.x1 - full.x0) as usize;
                w = (res.x1 - res.x0) as usize;
                h = (res.y1 - res.y0) as usize;
            } else {
                w = res.win_x1.wrapping_sub(res.win_x0) as usize;
                h = res.win_y1.wrapping_sub(res.win_y0) as usize;
                pitch = w;
            }
            assert(decoded_block(self, c as int) == (pitch as int, w as int, h as int));
            let ghost before = dest@;
            if s == 1 || s == 2 || s == 4 {
                let src = if whole { &tilec.data } else { &tilec.data_win };
                assert(src@ == decoded_buffer(self, self.tile.comps@[c as int]));
                write_block(dest, off, src, pitch, w, h, s, little);
                proof {
                    assert(out_len(self, c as int) == w * h * s);
                }
                off = off + w * h * (s as usize);
            }
            proof {
                assert(out_offset(self, c as int + 1) == off);
                assert forall|k: int, p: int| #![trigger dest@[p], out_offset(self, k)]
                    0 <= k < c + 1 && out_offset(self, k) <= p < out_offset(self, k + 1) implies {
                        let (pitch, w, h) = decoded_block(self, k);
                        let s = sample_bytes(self.image.comps@[k].prec);
                        dest@[p] == out_byte(decoded_buffer(self, self.tile.comps@[k]), pitch, w, s as int,
                            p - out_offset(self, k), little)
                    } by {
                    if k < c {
                        lemma_out_offset_grows(self, k + 1, c as int);
                        lemma_out_offset_grows(self, 0, k);
                        lemma_out_offset_grows(self, c as int, c as int + 1);
                        assert(0 <= p < off);
                        assert(before[p] == dest@[p]);
                    }
                }
            }
            c = c + 1;
        }
        true
    }
}

/// The bytes that component `c` takes in the input of a tile: its whole
/// tile-component, in whole bytes a sample.
pub open spec fn comp_input_len(tcd: &TileCoder, c: int) -> int {
    let tilec = tcd.tile.comps@[c];
    sample_bytes(tcd.image.comps@[c].prec) * ((tilec.x1 - tilec.x0) * (tilec.y1 - tilec.y0))
}

/// The bytes of the input of the components below `n`.
pub open spec fn input_total(tcd: &TileCoder, n: int) -> int
    decreases n,
{
    if n <= 0 { 0 } else { input_total(tcd, n - 1) + comp_input_len(tcd, n - 1) }
}

proof fn lemma_wrapping_sum(x: int, y: int, m: int)
    requires
        0 <= x < m,
        0 <= y < m,
    ensures
        (if x + y >= m { x + y - m } else { x + y }) == (x + y) % m,
{
    if x + y >= m {
        lemma_fundamental_div_mod_converse(x + y, m, 1, x + y - m);
    } else {
        lemma_fundamental_div_mod_converse(x + y, m, 0, x + y);
    }
}

impl TileCoder {
    /// The bytes that the input of an encode takes: the samples of each whole
    /// tile-component in whole bytes a sample, in the platform's word
    /// arithmetic.
    pub fn get_encoder_input_buffer_size(&self) -> (r: usize)
        requires
            components_wf(self),
        ensures
            r == input_total(self, self.tile.comps@.len() as int) % (usize::MAX as int + 1),
    {
        let n = self.tile.comps.len();
        let ghost m = usize::MAX as int + 1;
        let mut total: usize = 0;
        let mut c: usize = 0;
        while c < n
            invariant
                c <= n,
                n == self.tile.comps@.len(),
                components_wf(self),
                m == usize::MAX as int + 1,
                total == input_total(self, c as int) % m,
            decreases n - c,
        {
            proof {
                assert(comp_wf(self, c as int));
            }
            let s = sample_bytes_exec(self.image.comps[c].prec) as usize;
            let tilec = &self.tile.comps[c];
            let w = (tilec.x1 - tilec.x0) as usize;
            let h = (tilec.y1 - tilec.y0) as usize;
            let area = w.wrapping_mul(h);
            let part = s.wrapping_mul(area);
            proof {
                assert(area == (w * h) % m);
                assert(part == (s * area) % m);
                lemma_mul_mod_noop_right(s as int, w * h, m);
                assert(s * (w * h) == comp_input_len(self, c as int)) by (nonlinear_arith)
                    requires
                        s == sample_bytes(self.image.comps@[c as int].prec),
                        w == self.tile.comps@[c as int].x1 - self.tile.comps@[c as int].x0,
                        h == self.tile.comps@[c as int].y1 - self.tile.comps@[c as int].y0,
                        comp_input_len(self, c as int) == sample_bytes(self.image.comps@[c as int].prec)
                            * ((self.tile.comps@[c as int].x1 - self.tile.comps@[c as int].x0)
                            * (self.tile.comps@[c as int].y1 - self.tile.comps@[c as int].y0)),
                ;
                lemma_add_mod_noop(input_total(self, c as int), comp_input_len(self, c as int), m);
                lemma_wrapping_sum(total as int, part as int, m);
            }
            total = total.wrapping_add(part);
            c = c + 1;
        }
        total
    }
}

/// Byte `k`, byte 0 the lowest, of the sample of `s` bytes at `pos`, in the
/// byte order that `little` gives.
pub open spec fn sample_byte(src: Seq<u8>, pos: int, s: int, k: int, little: bool) -> int {
    src[pos + ordered_index(k, s, little)] as int
}

/// A sample of a component read from bytes at `pos`, `s` bytes a sample in
/// the byte order that `little` gives, sign-extended for signed samples.
pub open spec fn read_sample(src: Seq<u8>, pos: int, s: int, sgnd: bool, little: bool) -> i32 {
    if s == 1 {
        let b = src[pos] as int;
        (if sgnd && b >= 0x80 { b - 0x100 } else { b }) as i32
    } else if s == 2 {
        let v = sample_byte(src, pos, 2, 0, little) + 0x100 * sample_byte(src, pos, 2, 1, little);
        (if sgnd && v >= 0x8000 { v - 0x1_0000 } else { v }) as i32
    } else {
        (sample_byte(src, pos, 4, 0, little) + 0x100 * sample_byte(src, pos, 4, 1, little)
            + 0x1_0000 * sample_byte(src, pos, 4, 2, little) + 0x100_0000 * sample_byte(src, pos, 4, 3, little)) as i32
    }
}

/// The bytes that component `c` takes in the input of a tile, when its
/// samples are read: none for sample sizes other than one, two or four.
pub open spec fn in_len(tcd: &TileCoder, c: int) -> int {
    if exchanged_size(sample_bytes(tcd.image.comps@[c].prec)) { comp_input_len(tcd, c) } else { 0 }
}

/// Where component `n` starts in the input of a tile.
pub open spec fn in_offset(tcd: &TileCoder, n: int) -> int
    decreases n,
{
    if n <= 0 { 0 } else { in_offset(tcd, n - 1) + in_len(tcd, n - 1) }
}

/// The input of the tile is addressable, and the samples of each component
/// that is read fit its buffer.
pub open spec fn copy_wf(tcd: &TileCoder) -> bool {
    &&& components_wf(tcd)
    &&& input_total(tcd, tcd.tile.comps@.len() as int) <= usize::MAX
    &&& forall|c: int| 0 <= c < tcd.tile.comps@.len() && exchanged_size(sample_bytes(tcd.image.comps@[c].prec)) ==>
        comp_samples(#[trigger] tcd.tile.comps@[c]) <= tcd.tile.comps@[c].data@.len()
}

/// What `copy_tile_data` reads lies within the input that
/// `get_encoder_input_buffer_size` counts, component after component.
pub proof fn lemma_input_parts(tcd: &TileCoder, i: int, j: int)
    requires
        components_wf(tcd),
        0 <= i <= j <= tcd.tile.comps@.len(),
    ensures
        0 <= in_offset(tcd, i) <= in_offset(tcd, j),
        in_offset(tcd, j) <= input_total(tcd, j),
        0 <= input_total(tcd, i) <= input_total(tcd, j),
    decreases j,
{
    if j > 0 {
        if i < j {
            lemma_input_parts(tcd, i, j - 1);
        } else {
            lemma_input_parts(tcd, j - 1, j - 1);
        }
        let c = j - 1;
        assert(comp_wf(tcd, c));
        let tilec = tcd.tile.comps@[c];
        let s = sample_bytes(tcd.image.comps@[c].prec) as int;
        assert(s * ((tilec.x1 - tilec.x0) * (tilec.y1 - tilec.y0)) >= 0) by (nonlinear_arith)
            requires
                s >= 0,
                tilec.x1 - tilec.x0 >= 0,
                tilec.y1 - tilec.y0 >= 0,
        ;
    }
}

/// Reads `count` samples of `s` bytes, in the byte order that `little`
/// gives, from `src` at `start` into the start of `data`.
fn read_block(data: &mut Vec<i32>, src: &Vec<u8>, start: usize, count: usize, s: u32, sgnd: bool, little: bool)
    requires
        exchanged_size(s),
        count <= old(data)@.len(),
        start + count * s <= src@.len(),
    ensures
        final(data)@.len() == old(data)@.len(),
        forall|j: int| 0 <= j < old(data)@.len() ==> #[trigger] final(data)@[j] == (if j < count {
            read_sample(src@, start + j * s, s as int, sgnd, little)
        } else {
            old(data)@[j]
        }),
{
    let ghost orig = data@;
    let su = s as usize;
    let src_len = src.len();
    let mut j: usize = 0;
    while j < count
        invariant
            j <= count,
            src_len == src@.len(),
            count <= orig.len(),
            data@.len() == orig.len(),
            su == s,
            exchanged_size(s),
            start + count * s <= src@.len(),
            forall|k: int| 0 <= k < orig.len() ==> #[trigger] data@[k] == (if k < j {
                read_sample(src@, start + k * s, s as int, sgnd, little)
            } else {
                orig[k]
            }),
        decreases count - j,
    {
        assert(j * s + s <= count * s) by (nonlinear_arith)
            requires
                j < count,
                s >= 1,
        ;
        let pos = start + j * su;
        let v: i32 = if s == 1 {
            let b = src[pos];
            if sgnd && b >= 0x80 {
                b as i32 - 0x100
            } else {
                b as i32
            }
        } else if s == 2 {
            let (lo, hi) = if little { (src[pos], src[pos + 1]) } else { (src[pos + 1], src[pos]) };
            let v = lo as i32 + 0x100 * (hi as i32);
            if sgnd && v >= 0x8000 {
                v - 0x1_0000
            } else {
                v
            }
        } else {
            let (b0, b1, b2, b3) = if little {
                (src[pos], src[pos + 1], src[pos + 2], src[pos + 3])
            } else {
                (src[pos + 3], src[pos + 2], src[pos + 1], src[pos])
            };
            let v = b0 as u32 + 0x100 * (b1 as u32) + 0x1_0000 * (b2 as u32) + 0x100_0000 * (b3 as u32);
            #[verifier::truncate]
            let r = v as i32;
            r
        };
        data.set(j, v);
        j = j + 1;
    }
}

impl TileCoder {
    /// Reads the input of an encode into the tile-components: component
    /// after component, the samples of each whole tile-component row after
    /// row, in one, two or four bytes a sample, lowest byte first when
    /// `little`, else highest byte first, sign-extended for signed
    /// components; components of another sample size are left out. Fails,
    /// reading nothing, when `src` is not exactly as long as the input.
    #[verifier::rlimit(30)]
    pub fn copy_tile_data_ordered(&mut self, src: &Vec<u8>, little: bool) -> (r: bool)
        requires
            copy_wf(old(self)),
        ensures
            r == (src@.len() == input_total(old(self), old(self).tile.comps@.len() as int)),
            same_frame(old(self), final(self)),
            final(self).used_component == old(self).used_component,
            final(self).whole_tile_decoding == old(self).whole_tile_decoding,
            !r ==> *final(self) == *old(self),
            forall|c: int| 0 <= c < old(self).tile.comps@.len() ==> {
                let (a, b) = (#[trigger] old(self).tile.comps@[c], final(self).tile.comps@[c]);
                let s = sample_bytes(old(self).image.comps@[c].prec);
                &&& b == (TileComponent { data: b.data, ..a })
                &&& b.data@.len() == a.data@.len()
                &&& forall|j: int| 0 <= j < a.data@.len() ==> #[trigger] b.data@[j] == (
                    if r && exchanged_size(s) && j < comp_samples(a) {
                        read_sample(src@, in_offset(old(self), c) + j * s, s as int, old(self).image.comps@[c].sgnd, little)
                    } else {
                        a.data@[j]
                    })
            },
    {
        let size = self.get_encoder_input_buffer_size();
        let n = self.tile.comps.len();
        proof {
            lemma_input_parts(self, 0, n as int);
            vstd::arithmetic::div_mod::lemma_small_mod(input_total(self, n as int) as nat, (usize::MAX as int + 1) as nat);
        }
        if size != src.len() {
            return false;
        }
        let mut off: usize = 0;
        let mut c: usize = 0;
        while c < n
            invariant
                c <= n,
                n == self.tile.comps@.len(),
                copy_wf(old(self)),
                src@.len() == input_total(old(self), n as int),
                off == in_offset(old(self), c as int),
                same_frame(old(self), self),
                self.used_component == old(self).used_component,
                self.whole_tile_decoding == old(self).whole_tile_decoding,
                self.image == old(self).image,
                self.cp == old(self).cp,
                forall|k: int| c <= k < n ==> #[trigger] self.tile.comps@[k] == old(self).tile.comps@[k],
                forall|k: int| 0 <= k < c ==> {
                    let (a, b) = (#[trigger] old(self).tile.comps@[k], self.tile.comps@[k]);
                    let s = sample_bytes(old(self).image.comps@[k].prec);
                    &&& b == (TileComponent { data: b.data, ..a })
                    &&& b.data@.len() == a.data@.len()
                    &&& forall|j: int| 0 <= j < a.data@.len() ==> #[trigger] b.data@[j] == (
                        if exchanged_size(s) && j < comp_samples(a) {
                            read_sample(src@, in_offset(old(self), k) + j * s, s as int, old(self).image.comps@[k].sgnd, little)
                        } else {
                            a.data@[j]
                        })
                },
            decreases n - c,
        {
            proof {
                assert(comp_wf(old(self), c as int));
                lemma_input_parts(old(self), c as int + 1, n as int);
            }
            let s = sample_bytes_exec(self.image.comps[c].prec);
            let sgnd = self.image.comps[c].sgnd;
            if s == 1 || s == 2 || s == 4 {
                let tilec = &self.tile.comps[c];
                let w = (tilec.x1 - tilec.x0) as usize;
                let h = (tilec.y1 - tilec.y0) as usize;
                let count = w.wrapping_mul(h);
                proof {
                    let tc = old(self).tile.comps@[c as int];
                    assert(in_len(old(self), c as int) == s * (w * h));
                    assert(w * h <= s * (w * h)) by (nonlinear_arith)
                        requires
                            s >= 1,
                            w >= 0,
                            h >= 0,
                    ;
                    assert(in_offset(old(self), c as int + 1) <= input_total(old(self), n as int));
                    vstd::arithmetic::div_mod::lemma_small_mod((w * h) as nat, (usize::MAX as int + 1) as nat);
                    assert(count == w * h);
                    assert(count * s == s * (w * h)) by (nonlinear_arith)
                        requires
                            count == w * h,
                    ;
                }
                let ghost prev = self.tile.comps@;
                read_block(&mut self.tile.comps[c].data, src, off, count, s, sgnd, little);
                proof {
                    assert(self.tile.comps@ == prev.update(c as int, self.tile.comps@[c as int]));
                }
                off = off + count * (s as usize);
            }
            c = c + 1;
        }
        true
    }
}

/// `u16::from_ne_bytes([1, 0])`: the bytes 1 and 0 read in the machine's
/// byte order, which gives 1 where the lowest byte comes first. The result
/// rests on the machine, so no clause states it.
#[verifier::external_body]
fn native_order_probe() -> u16 {
    u16::from_ne_bytes([1, 0])
}

/// The bytes of the decoded tile in `out` are those that a write in the byte
/// order `little` gives, component after component.
pub open spec fn tile_bytes_written(tcd: &TileCoder, out: Seq<u8>, little: bool) -> bool {
    forall|c: int, p: int| #![trigger out[p], out_offset(tcd, c)]
        0 <= c < tcd.tile.comps@.len() && out_offset(tcd, c) <= p < out_offset(tcd, c + 1) ==> {
            let (pitch, w, h) = decoded_block(tcd, c);
            let s = sample_bytes(tcd.image.comps@[c].prec);
            out[p] == out_byte(decoded_buffer(tcd, tcd.tile.comps@[c]), pitch, w, s as int,
                p - out_offset(tcd, c), little)
        }
}

/// The tile-components of `b` are those of `a` with the samples read from
/// `src` in the byte order `little`, when the read succeeded (`r`).
pub open spec fn tile_samples_read(a: &TileCoder, b: &TileCoder, src: Seq<u8>, r: bool, little: bool) -> bool {
    forall|c: int| 0 <= c < a.tile.comps@.len() ==> {
        let (x, y) = (#[trigger] a.tile.comps@[c], b.tile.comps@[c]);
        let s = sample_bytes(a.image.comps@[c].prec);
        &&& y == (TileComponent { data: y.data, ..x })
        &&& y.data@.len() == x.data@.len()
        &&& forall|j: int| 0 <= j < x.data@.len() ==> #[trigger] y.data@[j] == (
            if r && exchanged_size(s) && j < comp_samples(x) {
                read_sample(src, in_offset(a, c) + j * s, s as int, a.image.comps@[c].sgnd, little)
            } else {
                x.data@[j]
            })
    }
}

impl TileCoder {
    /// Writes the decoded tile to `dest` as `update_tile_data_ordered` does,
    /// in the machine's byte order: one byte order, lowest or highest byte
    /// first, holds for every sample written.
    pub fn update_tile_data(&self, dest: &mut Vec<u8>) -> (r: bool)
        requires
            update_wf(self),
        ensures
            r == !(decoded_size_overflows(self, true)
                || decoded_total(self, true, self.tile.comps@.len() as int) >= u32::MAX
                || decoded_total(self, true, self.tile.comps@.len() as int) > old(dest)@.len()),
            final(dest)@.len() == old(dest)@.len(),
            !r ==> final(dest)@ == old(dest)@,
            r ==> exists|little: bool| #[trigger] tile_bytes_written(self, final(dest)@, little),
            r ==> forall|p: int| out_offset(self, self.tile.comps@.len() as int) <= p < old(dest)@.len()
                ==> #[trigger] final(dest)@[p] == old(dest)@[p],
    {
        let little = native_order_probe() == 1;
        let r = self.update_tile_data_ordered(dest, little);
        if r {
            assert(tile_bytes_written(self, dest@, little));
        }
        r
    }

    /// Reads the input of an encode into the tile-components as
    /// `copy_tile_data_ordered` does, in the machine's byte order: one byte
    /// order, lowest or highest byte first, holds for every sample read.
    pub fn copy_tile_data(&mut self, src: &Vec<u8>) -> (r: bool)
        requires
            copy_wf(old(self)),
        ensures
            r == (src@.len() == input_total(old(self), old(self).tile.comps@.len() as int)),
            same_frame(old(self), final(self)),
            final(self).used_component == old(self).used_component,
            final(self).whole_tile_decoding == old(self).whole_tile_decoding,
            !r ==> *final(self) == *old(self),
            exists|little: bool| #[trigger] tile_samples_read(old(self), final(self), src@, r, little),
    {
        let little = native_order_probe() == 1;
        let r = self.copy_tile_data_ordered(src, little);
        assert(tile_samples_read(old(self), self, src@, r, little));
        r
    }
}

/// The bytes that `update_tile_data_ordered` writes for one sample of `s`
/// bytes in the byte order that `little` gives.
pub open spec fn sample_to_bytes(v: i32, s: int, little: bool) -> Seq<u8> {
    Seq::new(s as nat, |q: int| byte_of(v, ordered_index(q, s, little)))
}

/// The values that samples of `s` bytes hold: those of 8, 16 or 32 bits,
/// signed or not.
pub open spec fn fits_sample(v: i32, s: int, sgnd: bool) -> bool {
    if s == 1 {
        if sgnd { -0x80 <= v < 0x80 } else { 0 <= v < 0x100 }
    } else if s == 2 {
        if sgnd { -0x8000 <= v < 0x8000 } else { 0 <= v < 0x1_0000 }
    } else {
        s == 4
    }
}

/// A sample written out by `update_tile_data_ordered` and read back by
/// `copy_tile_data_ordered` in the same byte order is the same sample, when
/// its value fits the sample size and signedness.
pub proof fn lemma_sample_roundtrip(v: i32, s: int, sgnd: bool, little: bool)
    requires
        fits_sample(v, s, sgnd),
    ensures
        read_sample(sample_to_bytes(v, s, little), 0, s, sgnd, little) == v,
{
    let bytes = sample_to_bytes(v, s, little);
    let u = (v as u32) as int;
    assert(v >= 0 ==> (v as u32) as int == v as int) by (bit_vector);
    assert(v < 0 ==> (v as u32) as int == v as int + 0x1_0000_0000) by (bit_vector);
    assert(((v as u32) as i32) == v) by (bit_vector);
    let b0 = u % 0x100;
    let b1 = (u / 0x100) % 0x100;
    let b2 = (u / 0x1_0000) % 0x100;
    let b3 = (u / 0x100_0000) % 0x100;
    assert(0 <= u < 0x1_0000_0000);
    assert(b0 + 0x100 * b1 == u % 0x1_0000) by (nonlinear_arith)
        requires
            0 <= u,
            b0 == u % 0x100,
            b1 == (u / 0x100) % 0x100,
    ;
    assert(b0 + 0x100 * b1 + 0x1_0000 * b2 + 0x100_0000 * b3 == u) by (nonlinear_arith)
        requires
            0 <= u < 0x1_0000_0000,
            b0 == u % 0x100,
            b1 == (u / 0x100) % 0x100,
            b2 == (u / 0x1_0000) % 0x100,
            b3 == (u / 0x100_0000) % 0x100,
    ;
    if s == 1 {
        assert(bytes[0] == b0);
        if v < 0 {
            assert(b0 == v + 0x100);
        }
    } else if s == 2 {
        assert(sample_byte(bytes, 0, 2, 0, little) == b0);
        assert(sample_byte(bytes, 0, 2, 1, little) == b1);
        if v < 0 {
            assert(u % 0x1_0000 == v + 0x1_0000);
        }
    } else {
        assert(sample_byte(bytes, 0, 4, 0, little) == b0);
        assert(sample_byte(bytes, 0, 4, 1, little) == b1);
        assert(sample_byte(bytes, 0, 4, 2, little) == b2);
        assert(sample_byte(bytes, 0, 4, 3, little) == b3);
    }
}

/// The decoder's level shift undoes the encoder's: a sample of the
/// component's range, shifted down and back up, is itself again, when the
/// shift down does not leave 32 bits.
pub proof fn lemma_level_shift_roundtrip(v: i32, shift: i32, min: i32, max: i32)
    requires
        min <= v <= max,
        i32::MIN <= v - shift <= i32::MAX,
    ensures
        shifted_sample(vstd::wrapping::i32_specs::wrapping_sub(v, shift), shift, min, max) == v,
{
}

/// Samples of 1 to 32 bits take one, two or four bytes, which hold them.
pub proof fn lemma_sample_bytes_hold(prec: u32)
    requires
        1 <= prec <= 32,
    ensures
        exchanged_size(sample_bytes(prec)),
        prec <= 8 * sample_bytes(prec),
{
}

/// The range of a component's samples.
pub fn sample_range_exec(prec: u32, sgnd: bool) -> (r: (i32, i32))
    requires
        if sgnd { 1 <= prec <= 31 } else { prec <= 31 },
    ensures
        r == sample_range(prec, sgnd),
{
    if sgnd {
        let half = pow2_i64(prec - 1);
        ((-half) as i32, (half - 1) as i32)
    } else {
        let full = pow2_i64(prec);
        (0i32, (full - 1) as i32)
    }
}

impl TileCoder {
    /// The block of decoded samples of component `c`: the row pitch of its
    /// buffer and the samples across and down at the resolution decoded.
    pub fn decoded_block_of(&self, c: usize) -> (r: (usize, usize, usize))
        requires
            decoded_wf(self),
            c < self.tile.comps@.len(),
        ensures
            (r.0 as int, r.1 as int, r.2 as int) == decoded_block(self, c as int),
    {
        proof {
            assert(comp_wf(self, c as int));
            assert(self.image.comps@[c as int].resno_decoded < self.tile.comps@[c as int].numresolutions);
        }
        let tilec = &self.tile.comps[c];
        let res = &tilec.resolutions[self.image.comps[c].resno_decoded as usize];
        if self.whole_tile_decoding {
            let full = &tilec.resolutions[(tilec.minimum_num_resolutions - 1) as usize];
            assert(res_wf(*res) && res_wf(*full));
            ((full.x1 - full.x0) as usize, (res.x1 - res.x0) as usize, (res.y1 - res.y0) as usize)
        } else {
            let w = res.win_x1.wrapping_sub(res.win_x0) as usize;
            (w, w, res.win_y1.wrapping_sub(res.win_y0) as usize)
        }
    }

    /// The samples of the whole tile-component `c`, in the platform's word
    /// arithmetic.
    pub fn comp_sample_count(&self, c: usize) -> (r: usize)
        requires
            components_wf(self),
            c < self.tile.comps@.len(),
        ensures
            r == comp_samples(self.tile.comps@[c as int]),
    {
        proof {
            assert(comp_wf(self, c as int));
        }
        let tilec = &self.tile.comps[c];
        ((tilec.x1 - tilec.x0) as usize).wrapping_mul((tilec.y1 - tilec.y0) as usize)
    }
}

/// The decoder's level shift brings every sample into the range of its
/// component.
pub proof fn lemma_shifted_sample_in_range(v: i32, shift: i32, min: i32, max: i32)
    requires
        min <= max,
    ensures
        min <= shifted_sample(v, shift, min, max) <= max,
{
}

} // verus!
