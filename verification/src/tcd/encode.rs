//! Decisions of a tile encode: the multiple component transform applied, and
//! the coding passes that a fixed-quality layer takes of each code-block.
use crate::tcd::decode::{comp_wf, components_wf, MctStep};
use crate::tcd::model::TileCoder;
use vstd::prelude::*;

verus! {

/// The samples of the first tile-component, in the platform's word arithmetic.
pub open spec fn encode_samples(tcd: &TileCoder) -> int {
    let c = tcd.tile.comps@[0];
    ((c.x1 - c.x0) * (c.y1 - c.y0)) % (usize::MAX as int + 1)
}

/// The transform step of an encode, as `mct_encode_plan` decides it: none, the
/// custom matrix when there is one, else the colour transform of the first
/// component's filter.
pub open spec fn mct_encode_spec(tcd: &TileCoder) -> MctStep {
    let tcp = tcd.cp.tcps@[tcd.tcd_tileno as int];
    let samples = encode_samples(tcd) as usize;
    if tcp.mct == 0 {
        MctStep::Skip
    } else if tcp.mct == 2 {
        if tcp.has_mct_coding_matrix { MctStep::Custom { samples } } else { MctStep::Skip }
    } else if tcp.tccps@[0].qmfbid == 0 {
        MctStep::Irreversible { samples }
    } else {
        MctStep::Reversible { samples }
    }
}

impl TileCoder {
    /// Decides the multiple component transform of an encode, and over how
    /// many samples it runs.
    pub fn mct_encode_plan(&self) -> (r: MctStep)
        requires
            components_wf(self),
            self.tile.comps@.len() >= 1,
        ensures
            r == mct_encode_spec(self),
    {
        let tcp = &self.cp.tcps[self.tcd_tileno as usize];
        proof {
            assert(comp_wf(self, 0));
        }
        let c0 = &self.tile.comps[0];
        let samples = ((c0.x1 - c0.x0) as usize).wrapping_mul((c0.y1 - c0.y0) as usize);
        if tcp.mct == 0 {
            MctStep::Skip
        } else if tcp.mct == 2 {
            if tcp.has_mct_coding_matrix {
                MctStep::Custom { samples }
            } else {
                MctStep::Skip
            }
        } else if tcp.tccps[0].qmfbid == 0 {
            MctStep::Irreversible { samples }
        } else {
            MctStep::Reversible { samples }
        }
    }
}

/// The bit-planes that a fixed-quality layer adds for a code-block, from the
/// bit-planes of the layer's quality (`cur`), those of the layer before
/// (`prev`), and the code-block's number of leading zero bit-planes (`imsb`):
/// the zero bit-planes are taken off first.
pub open spec fn fixed_layer_planes(layno: u32, cur: int, prev: int, imsb: int) -> int {
    if layno == 0 {
        if imsb >= cur { 0 } else { cur - imsb }
    } else if imsb >= prev {
        let v = cur - prev - (imsb - prev);
        if v < 0 { 0 } else { v }
    } else {
        cur - prev
    }
}

/// The coding passes up to the end of a fixed-quality layer: three a
/// bit-plane, but two fewer for the first layer that has any, in 32-bit
/// unsigned arithmetic.
pub open spec fn fixed_layer_end(planes: int, passes_before: u32) -> u32 {
    let three_v = (3 * ((planes as i32) as u32)) % 0x1_0000_0000;
    if passes_before == 0 {
        if planes != 0 {
            ((three_v - 2 + 0x1_0000_0000) % 0x1_0000_0000) as u32
        } else {
            0
        }
    } else {
        ((three_v + passes_before) % 0x1_0000_0000) as u32
    }
}

/// The coding passes up to the end of a fixed-quality layer of `planes`
/// bit-planes after `before` passes.
fn layer_end(planes: i32, before: u32) -> (r: u32)
    ensures
        r == fixed_layer_end(planes as int, before),
{
    #[verifier::truncate]
    let planes_u = planes as u32;
    let three_v = 3u32.wrapping_mul(planes_u);
    assert(three_v == (3 * ((planes as i32) as u32)) % 0x1_0000_0000);
    if before == 0 {
        if planes != 0 {
            three_v.wrapping_sub(2)
        } else {
            0
        }
    } else {
        three_v.wrapping_add(before)
    }
}

/// The bit-planes a fixed-quality layer gives a code-block are those of the
/// layer's quality above both the quality of the layer before (none for the
/// first layer) and the code-block's leading zero bit-planes, and the
/// passes up to the end of the layer are three a bit-plane after the passes
/// before, but two fewer for the first layer that has any. This holds for
/// qualities that do not fall from layer to layer, with no 32-bit wrap.
pub proof fn lemma_fixed_layer_takes_planes_above_zero_planes(
    layno: u32,
    cur: i32,
    prev: i32,
    imsb: i32,
    passes_in_layers: u32,
)
    requires
        layno > 0 ==> prev <= cur,
        ({
            let floor: int = if layno == 0 { imsb as int } else if imsb >= prev { imsb as int } else { prev as int };
            let planes: int = if cur > floor { cur - floor } else { 0 };
            let before: int = if layno == 0 { 0 } else { passes_in_layers as int };
            3 * planes + before <= u32::MAX
        }),
    ensures
        ({
            let floor: int = if layno == 0 { imsb as int } else if imsb >= prev { imsb as int } else { prev as int };
            let planes: int = if cur > floor { cur - floor } else { 0 };
            let before: int = if layno == 0 { 0 } else { passes_in_layers as int };
            &&& fixed_layer_planes(layno, cur as int, prev as int, imsb as int) == planes
            &&& fixed_layer_stop(layno, cur, prev, imsb, passes_in_layers) as int == (if before == 0 {
                if planes > 0 { 3 * planes - 2 } else { 0 }
            } else {
                before + 3 * planes
            })
        }),
{
    let floor: int = if layno == 0 { imsb as int } else if imsb >= prev { imsb as int } else { prev as int };
    let planes: int = if cur > floor { cur - floor } else { 0 };
    assert(fixed_layer_planes(layno, cur as int, prev as int, imsb as int) == planes);
    assert(0 <= planes <= i32::MAX);
    assert(((planes as i32) as u32) as int == planes);
}

/// The differences of bit-planes that a fixed-quality layer computes stay
/// within 32-bit signed arithmetic.
pub open spec fn fixed_layer_in_range(layno: u32, cur: i32, prev: i32, imsb: i32) -> bool {
    &&& layno == 0 && imsb < cur ==> cur - imsb <= i32::MAX
    &&& layno != 0 ==> i32::MIN <= cur - prev <= i32::MAX
    &&& layno != 0 && imsb >= prev ==> imsb - prev <= i32::MAX && i32::MIN <= (cur - prev) - (imsb - prev)
}

/// The coding passes that layer `layno` of a fixed-quality allocation takes of
/// a code-block, and the passes the code-block has in its layers after it:
/// the layer's bit-planes are `fixed_layer_planes`, the first layer starts from
/// no pass, and the passes of a layer that takes some count from then on
/// when the allocation is final.
pub fn fixed_layer_passes(layno: u32, cur: i32, prev: i32, imsb: i32, passes_in_layers: u32, is_final: bool) -> (r: (u32, u32))
    requires
        fixed_layer_in_range(layno, cur, prev, imsb),
    ensures
        ({
            let before = if layno == 0 { 0u32 } else { passes_in_layers };
            let end = fixed_layer_end(fixed_layer_planes(layno, cur as int, prev as int, imsb as int), before);
            let numpasses = ((end - before + 0x1_0000_0000) % 0x1_0000_0000) as u32;
            &&& r.0 == numpasses
            &&& r.1 == (if numpasses != 0 && is_final { end } else { before })
        }),
{
    let value: i32 = if layno == 0 {
        if imsb >= cur {
            0
        } else {
            cur - imsb
        }
    } else {
        let mut v = cur - prev;
        if imsb >= prev {
            v = v - (imsb - prev);
            if v < 0 {
                v = 0;
            }
        }
        v
    };
    assert(value == fixed_layer_planes(layno, cur as int, prev as int, imsb as int));
    let before = if layno == 0 { 0u32 } else { passes_in_layers };
    let end = layer_end(value, before);
    let numpasses = end.wrapping_sub(before);
    let after = if numpasses != 0 && is_final { end } else { before };
    (numpasses, after)
}

/// A quality layer of an encoded code-block: the coding passes it takes, the
/// bytes they make, and where those bytes start in the code-block's data.
#[derive(Debug, Clone, Copy, PartialEq, Eq)]
pub struct Layer {
    pub numpasses: u32,
    pub len: u32,
    pub data_offset: u32,
}

/// A code-block of an encode, once its coding passes are made.
#[derive(Debug)]
pub struct EncodeCodeBlock {
    /// The entry of the block's resolution level and band in a layer's row of
    /// the fixed-quality matrix.
    pub slot: usize,
    /// Number of magnitude bit-planes of the code-block.
    pub numbps: u32,
    /// The coding passes that the layers so far hold.
    pub numpassesinlayers: u32,
    /// The bytes of the code-block's data up to the end of each coding pass.
    pub pass_rates: Vec<u32>,
    pub layers: Vec<Layer>,
}

/// The leading zero bit-planes of a code-block of a component of `prec` bits,
/// in the 32-bit arithmetic of the encoder.
pub open spec fn block_imsb(prec: u32, numbps: u32) -> i32 {
    (((prec - numbps + 0x1_0000_0000) % 0x1_0000_0000) as u32) as i32
}

/// The passes a code-block has before layer `layno`: none for the first layer.
pub open spec fn fixed_layer_before(layno: u32, passes_in_layers: u32) -> u32 {
    if layno == 0 { 0 } else { passes_in_layers }
}

/// The passes up to the end of layer `layno` of a code-block.
pub open spec fn fixed_layer_stop(layno: u32, cur: i32, prev: i32, imsb: i32, passes_in_layers: u32) -> u32 {
    fixed_layer_end(fixed_layer_planes(layno, cur as int, prev as int, imsb as int), fixed_layer_before(layno, passes_in_layers))
}

/// Layer `layno` of a code-block after a fixed-quality allocation, from the
/// passes before it and at its end: a layer that takes passes holds the bytes
/// of those passes, from where the passes before it end; a layer that takes
/// none keeps its bytes.
pub open spec fn fixed_block_layer(rates: Seq<u32>, before: u32, end: u32, old_layer: Layer) -> Layer {
    let np = ((end - before + 0x1_0000_0000) % 0x1_0000_0000) as u32;
    if np == 0 {
        Layer { numpasses: 0, ..old_layer }
    } else if before == 0 {
        Layer { numpasses: np, len: rates[end - 1], data_offset: 0 }
    } else {
        Layer {
            numpasses: np,
            len: ((rates[end - 1] - rates[before - 1] + 0x1_0000_0000) % 0x1_0000_0000) as u32,
            data_offset: rates[before - 1],
        }
    }
}

/// A code-block can take layer `layno` at qualities `cur` and `prev`: the
/// layer exists, the arithmetic stays within 32 bits, and the passes the
/// layer takes are coding passes of the block.
pub open spec fn fixed_block_ok(cblk: &EncodeCodeBlock, layno: u32, cur: i32, prev: i32, prec: u32) -> bool {
    let imsb = block_imsb(prec, cblk.numbps);
    let before = fixed_layer_before(layno, cblk.numpassesinlayers);
    let end = fixed_layer_stop(layno, cur, prev, imsb, cblk.numpassesinlayers);
    &&& layno < cblk.layers@.len()
    &&& fixed_layer_in_range(layno, cur, prev, imsb)
    &&& end != before ==> 1 <= end <= cblk.pass_rates@.len() && before <= cblk.pass_rates@.len()
}

/// The code-block after layer `layno` of a fixed-quality allocation: its
/// layer is `fixed_block_layer`, and when the allocation is final and the
/// layer takes passes, its passes in layers end where the layer does.
pub open spec fn fixed_block_after(
    old_cblk: &EncodeCodeBlock,
    new_cblk: &EncodeCodeBlock,
    layno: u32,
    cur: i32,
    prev: i32,
    prec: u32,
    is_final: bool,
) -> bool {
    let imsb = block_imsb(prec, old_cblk.numbps);
    let before = fixed_layer_before(layno, old_cblk.numpassesinlayers);
    let end = fixed_layer_stop(layno, cur, prev, imsb, old_cblk.numpassesinlayers);
    &&& new_cblk.slot == old_cblk.slot
    &&& new_cblk.numbps == old_cblk.numbps
    &&& new_cblk.pass_rates@ == old_cblk.pass_rates@
    &&& new_cblk.layers@ == old_cblk.layers@.update(
        layno as int,
        fixed_block_layer(old_cblk.pass_rates@, before, end, old_cblk.layers@[layno as int]),
    )
    &&& new_cblk.numpassesinlayers == (if end != before && is_final { end } else { before })
}

/// A code-block can give layer `layno` the passes up to `end`: the layer
/// exists, and the passes it takes are coding passes of the block.
pub open spec fn layer_passes_ok(cblk: &EncodeCodeBlock, layno: u32, end: u32) -> bool {
    let before = fixed_layer_before(layno, cblk.numpassesinlayers);
    &&& layno < cblk.layers@.len()
    &&& end != before ==> 1 <= end <= cblk.pass_rates@.len() && before <= cblk.pass_rates@.len()
}

/// Gives layer `layno` of a code-block the coding passes up to `end`, from
/// those the layers before hold (none for the first layer): the layer takes
/// the bytes of those passes, and when `is_final` and it takes passes, the
/// passes in layers end where it does. An allocation that chose the end of
/// the layer, by bit-planes or by distortion slopes, builds the layer so.
pub fn take_layer_passes(cblk: &mut EncodeCodeBlock, layno: u32, end: u32, is_final: bool)
    requires
        layer_passes_ok(old(cblk), layno, end),
    ensures
        ({
            let before = fixed_layer_before(layno, old(cblk).numpassesinlayers);
            &&& final(cblk).slot == old(cblk).slot
            &&& final(cblk).numbps == old(cblk).numbps
            &&& final(cblk).pass_rates@ == old(cblk).pass_rates@
            &&& final(cblk).layers@ == old(cblk).layers@.update(
                layno as int,
                fixed_block_layer(old(cblk).pass_rates@, before, end, old(cblk).layers@[layno as int]),
            )
            &&& final(cblk).numpassesinlayers == (if end != before && is_final { end } else { before })
        }),
{
    if layno == 0 {
        cblk.numpassesinlayers = 0;
    }
    let before = cblk.numpassesinlayers;
    let numpasses = end.wrapping_sub(before);
    let l = layno as usize;
    let old_layer = cblk.layers[l];
    let layer = if numpasses == 0 {
        Layer { numpasses: 0, ..old_layer }
    } else if before == 0 {
        Layer { numpasses, len: cblk.pass_rates[(end - 1) as usize], data_offset: 0 }
    } else {
        let start = cblk.pass_rates[(before - 1) as usize];
        Layer {
            numpasses,
            len: cblk.pass_rates[(end - 1) as usize].wrapping_sub(start),
            data_offset: start,
        }
    };
    cblk.layers.set(l, layer);
    if numpasses != 0 && is_final {
        cblk.numpassesinlayers = end;
    }
}

/// Makes layer `layno` of a code-block for a fixed-quality allocation whose
/// matrix gives `cur` bit-planes for the layer and `prev` for the one before.
pub fn fixed_layer_block(cblk: &mut EncodeCodeBlock, layno: u32, cur: i32, prev: i32, prec: u32, is_final: bool)
    requires
        fixed_block_ok(old(cblk), layno, cur, prev, prec),
    ensures
        fixed_block_after(old(cblk), final(cblk), layno, cur, prev, prec, is_final),
{
    #[verifier::truncate]
    let imsb = prec.wrapping_sub(cblk.numbps) as i32;
    let before = if layno == 0 { 0 } else { cblk.numpassesinlayers };
    let (numpasses, _after) = fixed_layer_passes(layno, cur, prev, imsb, before, is_final);
    let end = before.wrapping_add(numpasses);
    proof {
        let e = fixed_layer_stop(layno, cur, prev, imsb, old(cblk).numpassesinlayers);
        assert(numpasses == ((e - before + 0x1_0000_0000) % 0x1_0000_0000) as u32);
        assert(end == e);
    }
    take_layer_passes(cblk, layno, end, is_final);
}

/// The matrix of a fixed-quality allocation gives every code-block of the
/// list a layer `layno` it can take, at component precision `prec`.
pub open spec fn fixed_blocks_ok(blocks: Seq<EncodeCodeBlock>, matrix: Seq<Vec<i32>>, layno: u32, prec: u32) -> bool {
    &&& layno < matrix.len()
    &&& forall|i: int| 0 <= i < blocks.len() ==> {
        let b = #[trigger] blocks[i];
        &&& b.slot < matrix[layno as int]@.len()
        &&& layno > 0 ==> b.slot < matrix[layno - 1]@.len()
        &&& fixed_block_ok(&b, layno, fixed_cur(matrix, layno, b.slot), fixed_prev(matrix, layno, b.slot), prec)
    }
}

/// The bit-planes of layer `layno` at a slot of the fixed-quality matrix.
pub open spec fn fixed_cur(matrix: Seq<Vec<i32>>, layno: u32, slot: usize) -> i32 {
    matrix[layno as int]@[slot as int]
}

/// The bit-planes of the layer before `layno` at a slot; none before the first.
pub open spec fn fixed_prev(matrix: Seq<Vec<i32>>, layno: u32, slot: usize) -> i32 {
    if layno == 0 { 0 } else { matrix[layno - 1]@[slot as int] }
}

/// Makes layer `layno` of every code-block of a tile-component's non-empty
/// bands for a fixed-quality allocation: row `l` of the matrix holds the
/// bit-planes of layer `l` at each block's slot.
pub fn make_layer_fixed(blocks: &mut Vec<EncodeCodeBlock>, matrix: &Vec<Vec<i32>>, layno: u32, prec: u32, is_final: bool)
    requires
        fixed_blocks_ok(old(blocks)@, matrix@, layno, prec),
    ensures
        final(blocks)@.len() == old(blocks)@.len(),
        forall|i: int| #![trigger final(blocks)@[i]] 0 <= i < old(blocks)@.len() ==> {
            let b = old(blocks)@[i];
            fixed_block_after(&b, &final(blocks)@[i], layno, fixed_cur(matrix@, layno, b.slot),
                fixed_prev(matrix@, layno, b.slot), prec, is_final)
        },
{
    let n = blocks.len();
    let mut i: usize = 0;
    while i < n
        invariant
            i <= n,
            n == blocks@.len(),
            n == old(blocks)@.len(),
            fixed_blocks_ok(old(blocks)@, matrix@, layno, prec),
            forall|k: int| i <= k < n ==> #[trigger] blocks@[k] == old(blocks)@[k],
            forall|k: int| #![trigger blocks@[k]] 0 <= k < i ==> {
                let b = old(blocks)@[k];
                fixed_block_after(&b, &blocks@[k], layno, fixed_cur(matrix@, layno, b.slot),
                    fixed_prev(matrix@, layno, b.slot), prec, is_final)
            },
        decreases n - i,
    {
        let ghost b0 = old(blocks)@[i as int];
        assert(blocks@[i as int] == b0);
        let slot = blocks[i].slot;
        let l = layno as usize;
        let cur = matrix[l][slot];
        let prev = if layno == 0 { 0 } else { matrix[l - 1][slot] };
        let ghost before = blocks@;
        fixed_layer_block(&mut blocks[i], layno, cur, prev, prec, is_final);
        proof {
            assert forall|k: int| #![trigger blocks@[k]] 0 <= k < i + 1 implies {
                let b = old(blocks)@[k];
                fixed_block_after(&b, &blocks@[k], layno, fixed_cur(matrix@, layno, b.slot),
                    fixed_prev(matrix@, layno, b.slot), prec, is_final)
            } by {
                if k < i {
                    assert(blocks@[k] == before[k]);
                }
            }
        }
        i = i + 1;
    }
}

/// The packets of resolution levels below `n` of the first tile-component:
/// one a precinct, counted in 32-bit unsigned arithmetic.
pub open spec fn packet_count(tcd: &TileCoder, n: int) -> int
    decreases n,
{
    if n <= 0 {
        0
    } else {
        let res = tcd.tile.comps@[0].resolutions@[n - 1];
        (packet_count(tcd, n - 1) + (res.pw * res.ph) % 0x1_0000_0000) % 0x1_0000_0000
    }
}

impl TileCoder {
    /// The packets of a layer of one component of the tile, as the codestream
    /// index counts them: the precincts of all resolution levels of the first
    /// tile-component.
    pub fn codestream_packet_count(&self) -> (r: u32)
        requires
            components_wf(self),
            self.tile.comps@.len() >= 1,
        ensures
            r == packet_count(self, self.tile.comps@[0].numresolutions as int),
    {
        proof {
            assert(comp_wf(self, 0));
        }
        let tilec = &self.tile.comps[0];
        let n = tilec.numresolutions as usize;
        let mut count: u32 = 0;
        let mut r: usize = 0;
        while r < n
            invariant
                r <= n,
                n == tilec.numresolutions,
                tilec == self.tile.comps@[0],
                tilec.resolutions@.len() == n,
                count == packet_count(self, r as int),
            decreases n - r,
        {
            let res = &tilec.resolutions[r];
            count = count.wrapping_add(res.pw.wrapping_mul(res.ph));
            r = r + 1;
        }
        count
    }
}

} // verus!
