use laya::tcd::decode::{used_components, DwtStep, MctStep};
use laya::tcd::encode::{fixed_layer_block, fixed_layer_passes, make_layer_fixed, take_layer_passes, EncodeCodeBlock, Layer};
use laya::tcd::init::{init_precinct, PRECINCT_RECORD_SIZE};
use laya::tcd::math::{int64_ceildivpow2, int_ceildiv, int_ceildivpow2, int_clamp, int_floordivpow2, uint_adds, uint_ceildiv, uint_ceildivpow2};
use laya::tcd::model::{
    Band, CodeBlock, CodingParams, ComponentCodingParams, ImageComponent, ImageHeader, StepSize, TcdError,
    TileCoder, TileCodingParams,
};
use laya::tcd::samples::{sample_bytes_exec, shift_block};

fn tccp(numres: u32, dc_level_shift: i32) -> ComponentCodingParams {
    ComponentCodingParams {
        numresolutions: numres,
        cblkw: 4,
        cblkh: 4,
        prcw: vec![15; 33],
        prch: vec![15; 33],
        qmfbid: 1,
        numgbits: 2,
        stepsizes: vec![
            StepSize { expn: 8, mant: 0 },
            StepSize { expn: 9, mant: 0 },
            StepSize { expn: 9, mant: 0 },
            StepSize { expn: 10, mant: 0 },
            StepSize { expn: 10, mant: 0 },
            StepSize { expn: 10, mant: 0 },
            StepSize { expn: 11, mant: 0 },
        ],
        dc_level_shift,
        cblksty: 0,
    }
}

fn coder(numres: u32, prec: u32, sgnd: bool, mct: u32) -> TileCoder {
    let image = ImageHeader {
        x0: 0,
        y0: 0,
        x1: 100,
        y1: 80,
        comps: vec![ImageComponent { dx: 1, dy: 1, prec, sgnd, resno_decoded: 0 }],
    };
    let mut tcps = Vec::new();
    for _ in 0..5 {
        tcps.push(TileCodingParams {
            tccps: vec![tccp(numres, 128)],
            mct,
            has_mct_decoding_matrix: false,
            has_mct_coding_matrix: false,
            numlayers: 1,
            num_layers_to_decode: 1,
        });
    }
    let cp = CodingParams { tx0: 0, ty0: 0, tdx: 64, tdy: 64, tw: 2, reduce: 0, tcps };
    TileCoder::new(image, cp, true)
}

#[test]
fn rounding_divisions() {
    assert_eq!(int_ceildivpow2(5, 1), 3);
    assert_eq!(int_ceildivpow2(-5, 1), -2);
    assert_eq!(int_ceildivpow2(64, 32), 1);
    assert_eq!(int_floordivpow2(-5, 1), -3);
    assert_eq!(int_floordivpow2(5, 2), 1);
    assert_eq!(int64_ceildivpow2(-1, 1), 0);
    assert_eq!(int64_ceildivpow2(63, 1), 32);
    assert_eq!(uint_ceildivpow2(33, 5), 2);
    assert_eq!(uint_ceildiv(7, 2), 4);
    assert_eq!(int_ceildiv(7, 2), 4);
    assert_eq!(int_ceildiv(0, 3), 0);
}

#[test]
fn saturating_sum_and_clamps() {
    assert_eq!(uint_adds(u32::MAX, 1), u32::MAX);
    assert_eq!(uint_adds(3, 4), 7);
    assert_eq!(int_clamp(5, 0, 3), 3);
    assert_eq!(int_clamp(-5, 0, 3), 0);
    assert_eq!(int_clamp(2, 0, 3), 2);
}

#[test]
fn new_coder_has_empty_components() {
    let tcd = coder(2, 8, false, 0);
    assert_eq!(tcd.tile.comps.len(), 1);
    assert_eq!(tcd.tile.comps[0].compno, 0);
    assert_eq!(tcd.tile.comps[0].resolutions.len(), 0);
    assert!(tcd.used_component.is_none());
}

#[test]
fn init_tile_lays_out_first_tile() {
    let mut tcd = coder(2, 8, false, 0);
    assert_eq!(tcd.init_tile(0, false, 64), Ok(()));
    assert_eq!((tcd.tile.x0, tcd.tile.y0, tcd.tile.x1, tcd.tile.y1), (0, 0, 64, 64));
    let tilec = &tcd.tile.comps[0];
    assert_eq!((tilec.x0, tilec.y0, tilec.x1, tilec.y1), (0, 0, 64, 64));
    assert_eq!(tilec.numresolutions, 2);
    assert_eq!(tilec.minimum_num_resolutions, 2);
    assert_eq!(tilec.resolutions.len(), 2);
    let r0 = &tilec.resolutions[0];
    assert_eq!((r0.x0, r0.y0, r0.x1, r0.y1), (0, 0, 32, 32));
    assert_eq!((r0.pw, r0.ph, r0.numbands), (1, 1, 1));
    let b0 = &r0.bands[0];
    assert_eq!((b0.bandno, b0.x0, b0.y0, b0.x1, b0.y1), (0, 0, 0, 32, 32));
    assert_eq!((b0.stepsize_mant, b0.stepsize_exp, b0.numbps), (0, 0, 9));
    let prc = &b0.precincts[0];
    assert_eq!((prc.x0, prc.y0, prc.x1, prc.y1, prc.cw, prc.ch), (0, 0, 32, 32, 2, 2));
    assert_eq!(prc.cblks.len(), 4);
    assert_eq!(prc.cblks[1], CodeBlock { x0: 16, y0: 0, x1: 32, y1: 16 });
    assert_eq!(prc.cblks[2], CodeBlock { x0: 0, y0: 16, x1: 16, y1: 32 });
    let r1 = &tilec.resolutions[1];
    assert_eq!((r1.x0, r1.y0, r1.x1, r1.y1), (0, 0, 64, 64));
    assert_eq!(r1.numbands, 3);
    let numbers: Vec<u32> = r1.bands.iter().map(|b| b.bandno).collect();
    assert_eq!(numbers, vec![1, 2, 3]);
    for b in &r1.bands {
        assert_eq!((b.x0, b.y0, b.x1, b.y1), (0, 0, 32, 32));
        assert_eq!(b.stepsize_exp, 0);
        assert_eq!(b.precincts.len(), 1);
        assert_eq!(b.precincts[0].cblks.len(), 4);
    }
}

#[test]
fn init_tile_cuts_tiles_to_the_image() {
    let mut tcd = coder(1, 8, false, 0);
    assert_eq!(tcd.init_tile(3, false, 64), Ok(()));
    assert_eq!((tcd.tile.x0, tcd.tile.y0, tcd.tile.x1, tcd.tile.y1), (64, 64, 100, 80));
    assert_eq!(tcd.tcd_tileno, 3);
    let r = &tcd.tile.comps[0].resolutions[0];
    assert_eq!((r.x0, r.y0, r.x1, r.y1), (64, 64, 100, 80));
}

#[test]
fn init_tile_refuses_a_tile_below_the_image() {
    let mut tcd = coder(2, 8, false, 0);
    assert_eq!(tcd.init_tile(4, false, 64), Err(TcdError::TileYUnsupported));
    assert_eq!((tcd.tile.x0, tcd.tile.y0, tcd.tile.x1, tcd.tile.y1), (0, 128, 64, 80));
}

#[test]
fn init_tile_needs_a_resolution() {
    let mut tcd = coder(0, 8, false, 0);
    assert_eq!(tcd.init_tile(0, false, 64), Err(TcdError::NoResolution));
}

#[test]
fn init_tile_sizes_the_samples_of_an_encoder() {
    let mut tcd = coder(2, 8, false, 0);
    assert_eq!(tcd.init_tile(1, true, 64), Ok(()));
    assert_eq!(tcd.tile.comps[0].data_size_needed, 36 * 64 * 4);
}

#[test]
fn init_precinct_refuses_too_many_code_blocks() {
    let band = (0, 0, 32, 32);
    let prc = init_precinct(band, 0, 0, 1, 15, 15, 0, 0, 0, u32::MAX).unwrap_err();
    assert_eq!(prc, TcdError::CodeBlockDataTooLarge);
    let ok = init_precinct(band, 0, 0, 1, 15, 15, 4, 4, 0, 64).unwrap();
    assert_eq!(ok.cblks.len(), 4);
    assert_eq!(PRECINCT_RECORD_SIZE, 56);
}

#[test]
fn bands_without_area_are_empty() {
    let band = Band {
        bandno: 1,
        x0: 3,
        y0: 0,
        x1: 3,
        y1: 9,
        stepsize_mant: 0,
        stepsize_exp: 0,
        numbps: 0,
        precincts: Vec::new(),
    };
    assert!(band.is_empty());
}

#[test]
fn component_selection() {
    assert_eq!(used_components(3, &vec![0, 2]), Some(vec![true, false, true]));
    assert_eq!(used_components(3, &vec![]), None);
}

#[test]
fn whole_decode_of_a_covered_tile() {
    let mut tcd = coder(2, 8, false, 0);
    tcd.init_tile(0, false, 64).unwrap();
    assert!(!tcd.is_whole_tilecomp_decoding(0));
    assert_eq!(tcd.decode_tile_prepare(0, 0, 100, 80, &vec![]), Ok(()));
    assert!(tcd.whole_tile_decoding);
    assert!(tcd.is_whole_tilecomp_decoding(0));
    assert_eq!(tcd.tile.comps[0].data_size_needed, 64 * 64 * 4);
    assert!(tcd.tile.comps[0].data.len() >= 64 * 64);
}

#[test]
fn windowed_decode_sets_windows_and_buffers() {
    let mut tcd = coder(2, 8, false, 0);
    tcd.init_tile(0, false, 64).unwrap();
    assert_eq!(tcd.decode_tile_prepare(10, 10, 20, 20, &vec![0]), Ok(()));
    assert!(!tcd.whole_tile_decoding);
    let tilec = &tcd.tile.comps[0];
    assert_eq!((tilec.win_x0, tilec.win_y0, tilec.win_x1, tilec.win_y1), (10, 10, 20, 20));
    let r0 = &tilec.resolutions[0];
    assert_eq!((r0.win_x0, r0.win_y0, r0.win_x1, r0.win_y1), (5, 5, 10, 10));
    let r1 = &tilec.resolutions[1];
    assert_eq!((r1.win_x0, r1.win_y0, r1.win_x1, r1.win_y1), (10, 10, 20, 20));
    tcd.image.comps[0].resno_decoded = 1;
    assert_eq!(tcd.decode_tile_allocate_windows(), Ok(()));
    assert_eq!(tcd.tile.comps[0].data_win.len(), 100);
    assert_eq!(tcd.mct_decode_plan(), Ok(MctStep::Skip));
    tcd.dc_level_shift_decode();
    assert!(tcd.tile.comps[0].data_win.iter().all(|v| *v == 128));
    assert_eq!(tcd.get_decoded_tile_size(true), 100);
    assert_eq!(tcd.get_decoded_tile_size(false), 64 * 64);
    let mut out = vec![0u8; 100];
    assert!(tcd.update_tile_data(&mut out));
    assert!(out.iter().all(|b| *b == 128));
    let mut short = vec![0u8; 99];
    assert!(!tcd.update_tile_data(&mut short));
    assert!(short.iter().all(|b| *b == 0));
}

#[test]
fn window_outside_the_tile_is_refused() {
    let mut tcd = coder(2, 8, false, 0);
    tcd.init_tile(3, false, 64).unwrap();
    assert_eq!(tcd.decode_tile_prepare(0, 0, 10, 10, &vec![]), Err(TcdError::InvalidWindow));
}

#[test]
fn level_shift_clamps_to_the_precision() {
    let mut buf = vec![100, 200, 7, -300, 5, 6];
    shift_block(&mut buf, 3, 2, 2, 128, 0, 255);
    assert_eq!(buf, vec![228, 255, 7, 0, 133, 6]);
}

#[test]
fn encoder_round_trip_of_eight_bit_samples() {
    let mut tcd = coder(1, 8, false, 0);
    tcd.init_tile(0, true, 64).unwrap();
    tcd.tile.comps[0].data = vec![0; 64 * 64];
    assert_eq!(tcd.get_encoder_input_buffer_size(), 64 * 64);
    let src: Vec<u8> = (0..64 * 64).map(|i| (i % 251) as u8).collect();
    assert!(!tcd.copy_tile_data(&src[..100].to_vec()));
    assert!(tcd.copy_tile_data(&src));
    assert_eq!(tcd.tile.comps[0].data[300], (300 % 251) as i32);
    tcd.whole_tile_decoding = true;
    let mut out = vec![0u8; 64 * 64];
    assert!(tcd.update_tile_data(&mut out));
    assert_eq!(out, src);
    tcd.dc_level_shift_encode();
    assert_eq!(tcd.tile.comps[0].data[300], 49 - 128);
}

#[test]
fn signed_samples_are_sign_extended() {
    let mut tcd = coder(1, 16, true, 0);
    tcd.init_tile(0, true, 64).unwrap();
    tcd.tile.comps[0].data = vec![0; 64 * 64];
    assert_eq!(tcd.get_encoder_input_buffer_size(), 2 * 64 * 64);
    let mut src = vec![0u8; 2 * 64 * 64];
    src[0..2].copy_from_slice(&(-2i16).to_ne_bytes());
    src[2..4].copy_from_slice(&0x1234i16.to_ne_bytes());
    assert!(tcd.copy_tile_data(&src));
    assert_eq!(tcd.tile.comps[0].data[0], -2);
    assert_eq!(tcd.tile.comps[0].data[1], 0x1234);
}

#[test]
fn samples_in_either_byte_order() {
    let mut tcd = coder(1, 16, true, 0);
    tcd.init_tile(0, true, 64).unwrap();
    tcd.tile.comps[0].data = vec![0; 64 * 64];
    let mut src = vec![0u8; 2 * 64 * 64];
    src[0] = 0xff;
    src[1] = 0xfe;
    src[2] = 0x12;
    src[3] = 0x34;
    assert!(tcd.copy_tile_data_ordered(&src, false));
    assert_eq!(tcd.tile.comps[0].data[0], -2);
    assert_eq!(tcd.tile.comps[0].data[1], 0x1234);
    assert!(tcd.copy_tile_data_ordered(&src, true));
    assert_eq!(tcd.tile.comps[0].data[0], -257);
    assert_eq!(tcd.tile.comps[0].data[1], 0x3412);
    tcd.whole_tile_decoding = true;
    let mut big = vec![0u8; 2 * 64 * 64];
    assert!(tcd.update_tile_data_ordered(&mut big, false));
    assert_eq!(&big[0..4], &[0xfe, 0xff, 0x34, 0x12]);
    let mut little = vec![0u8; 2 * 64 * 64];
    assert!(tcd.update_tile_data_ordered(&mut little, true));
    assert_eq!(&little[0..4], &[0xff, 0xfe, 0x12, 0x34]);
    let mut native = vec![0u8; 2 * 64 * 64];
    assert!(tcd.update_tile_data(&mut native));
    assert_eq!(&native[0..2], &(-257i16).to_ne_bytes());
}

#[test]
fn sample_sizes() {
    assert_eq!(sample_bytes_exec(0), 0);
    assert_eq!(sample_bytes_exec(8), 1);
    assert_eq!(sample_bytes_exec(12), 2);
    assert_eq!(sample_bytes_exec(17), 4);
    assert_eq!(sample_bytes_exec(32), 4);
}

#[test]
fn transforms_of_three_components() {
    let mut tcd = coder(2, 8, false, 1);
    tcd.image.comps = vec![tcd.image.comps[0]; 3];
    for t in tcd.cp.tcps.iter_mut() {
        t.tccps = vec![tccp(2, 128), tccp(2, 128), tccp(2, 128)];
    }
    let TileCoder { image, cp, .. } = tcd;
    let mut tcd = TileCoder::new(image, cp, true);
    tcd.init_tile(0, false, 64).unwrap();
    assert_eq!(tcd.mct_encode_plan(), MctStep::Reversible { samples: 64 * 64 });
    tcd.decode_tile_prepare(0, 0, 100, 80, &vec![]).unwrap();
    assert_eq!(tcd.mct_decode_plan(), Ok(MctStep::Reversible { samples: 64 * 64 }));
    tcd.image.comps[1].resno_decoded = 1;
    assert_eq!(tcd.mct_decode_plan(), Err(TcdError::ComponentsDiffer));
}

#[test]
fn fixed_quality_layers() {
    assert_eq!(fixed_layer_passes(0, 5, 0, 2, 7, true), (7, 7));
    assert_eq!(fixed_layer_passes(0, 2, 0, 5, 7, true), (0, 0));
    assert_eq!(fixed_layer_passes(1, 6, 5, 2, 7, true), (3, 10));
    assert_eq!(fixed_layer_passes(1, 6, 5, 2, 7, false), (3, 7));
}

#[test]
fn subband_area_of_interest() {
    let mut tcd = coder(2, 8, false, 0);
    tcd.init_tile(0, false, 64).unwrap();
    tcd.decode_tile_prepare(10, 10, 20, 20, &vec![]).unwrap();
    assert!(tcd.is_subband_area_of_interest(0, 1, 1, 0, 0, 32, 32));
    assert!(!tcd.is_subband_area_of_interest(0, 1, 1, 20, 20, 32, 32));
}

#[test]
fn larger_windows_and_areas_stay_of_interest() {
    let mut tcd = coder(2, 8, false, 0);
    tcd.init_tile(0, false, 64).unwrap();
    tcd.decode_tile_prepare(10, 10, 20, 20, &vec![]).unwrap();
    assert!(tcd.is_subband_area_of_interest(0, 1, 1, 8, 8, 12, 12));
    assert!(tcd.is_subband_area_of_interest(0, 1, 1, 0, 0, 32, 32));
    tcd.win_x0 = 0;
    tcd.win_y0 = 0;
    tcd.win_x1 = 64;
    tcd.win_y1 = 64;
    assert!(tcd.is_subband_area_of_interest(0, 1, 1, 8, 8, 12, 12));
    assert!(tcd.is_subband_area_of_interest(0, 1, 1, 20, 20, 32, 32));
}

#[test]
fn wavelet_steps_and_termination_checks() {
    let mut tcd = coder(2, 8, false, 0);
    tcd.init_tile(0, false, 64).unwrap();
    tcd.image.comps[0].resno_decoded = 1;
    assert_eq!(tcd.dwt_decode_plan(), vec![DwtStep::Reversible { resolutions: 2 }]);
    tcd.used_component = Some(vec![false]);
    assert_eq!(tcd.dwt_decode_plan(), vec![DwtStep::Skip]);
    tcd.used_component = None;
    tcd.cp.tcps[0].tccps[0].qmfbid = 0;
    assert_eq!(tcd.dwt_decode_plan(), vec![DwtStep::Irreversible { resolutions: 2 }]);
    assert!(!tcd.pterm_check());
    tcd.cp.tcps[0].tccps[0].cblksty = 0x10 | 0x01;
    assert!(tcd.pterm_check());
    tcd.cp.tcps[0].num_layers_to_decode = 0;
    assert!(!tcd.pterm_check());
}

#[test]
fn packets_of_the_codestream_index() {
    let mut tcd = coder(2, 8, false, 0);
    tcd.init_tile(0, true, 64).unwrap();
    assert_eq!(tcd.codestream_packet_count(), 2);
}

#[test]
fn level_shift_round_trip() {
    let mut tcd = coder(1, 8, false, 0);
    tcd.init_tile(0, true, 64).unwrap();
    let samples: Vec<i32> = (0..64 * 64).map(|i| (i % 256) as i32).collect();
    tcd.tile.comps[0].data = samples.clone();
    tcd.dc_level_shift_encode();
    assert_eq!(tcd.tile.comps[0].data[0], -128);
    assert_eq!(tcd.tile.comps[0].data[255], 127);
    tcd.whole_tile_decoding = true;
    tcd.dc_level_shift_decode();
    assert_eq!(tcd.tile.comps[0].data, samples);
}

fn encode_block(slot: usize, numbps: u32) -> EncodeCodeBlock {
    EncodeCodeBlock {
        slot,
        numbps,
        numpassesinlayers: 9,
        pass_rates: vec![10, 20, 30, 40, 50, 60, 70, 80],
        layers: vec![Layer { numpasses: 0, len: 0, data_offset: 0 }; 3],
    }
}

#[test]
fn fixed_quality_layers_take_the_bytes_of_their_passes() {
    let matrix = vec![vec![0, 5, 0], vec![0, 6, 1]];
    let mut blocks = vec![encode_block(1, 5), encode_block(2, 5)];
    make_layer_fixed(&mut blocks, &matrix, 0, 8, true);
    assert_eq!(blocks[0].layers[0], Layer { numpasses: 4, len: 40, data_offset: 0 });
    assert_eq!(blocks[0].numpassesinlayers, 4);
    assert_eq!(blocks[1].layers[0], Layer { numpasses: 0, len: 0, data_offset: 0 });
    assert_eq!(blocks[1].numpassesinlayers, 0);
    make_layer_fixed(&mut blocks, &matrix, 1, 8, true);
    assert_eq!(blocks[0].layers[1], Layer { numpasses: 3, len: 30, data_offset: 40 });
    assert_eq!(blocks[0].numpassesinlayers, 7);
    assert_eq!(blocks[1].layers[1], Layer { numpasses: 0, len: 0, data_offset: 0 });
}

#[test]
fn a_layer_that_is_not_final_leaves_the_passes_in_layers() {
    let mut block = encode_block(0, 5);
    fixed_layer_block(&mut block, 0, 5, 0, 8, false);
    assert_eq!(block.layers[0], Layer { numpasses: 4, len: 40, data_offset: 0 });
    assert_eq!(block.numpassesinlayers, 0);
}

#[test]
fn a_chosen_last_pass_makes_the_layer() {
    let mut block = encode_block(0, 5);
    take_layer_passes(&mut block, 0, 4, true);
    assert_eq!(block.layers[0], Layer { numpasses: 4, len: 40, data_offset: 0 });
    take_layer_passes(&mut block, 1, 6, true);
    assert_eq!(block.layers[1], Layer { numpasses: 2, len: 20, data_offset: 40 });
    assert_eq!(block.numpassesinlayers, 6);
    take_layer_passes(&mut block, 2, 6, true);
    assert_eq!(block.layers[2], Layer { numpasses: 0, len: 0, data_offset: 0 });
    assert_eq!(block.numpassesinlayers, 6);
}
