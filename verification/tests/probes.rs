use rawhip::checks::{
    ar_check, ar_check_t, check_tensor, draw_runs, hc_check, interleave, micro_check,
    ple_gate_check, qsa_check, token_draws, Mirror, SEED_DIGITS, SEED_GOLDEN,
};
use rawhip::acc::Q4Acc;
use rawhip::device::{Cmd, Host};
use rawhip::error::{AccError, ProbeError};
use rawhip::f16_map::{count_hits, f16_map, hit_of, labels, marked_rows, split_columns, unit_rows, Hit};
use rawhip::families::TileKernel;
use rawhip::probe_attn::{attn_check, gqa_bench, is_sum_word, qk_check, wmma2_attn_check, WmmaSize, TWENTIETH};
use rawhip::probe_gdn::{gdn_ar_invariance, gdn_conv_invariance, Rows};
use rawhip::probe_gemm::{
    d2h_bench, f16_bench, mm_batch_bench, mm_tile_bench, q4k_bench, q4k_micro, q5_1_bench,
    tile_mirror, tile_mismatches,
};
use rawhip::probe_misc::{
    bw_test, count_nonzero, differing_lanes, dims_of, dp4a_test, hca_repro, iq3s_probe, launch_rate,
    q6k_ref_probe, raw_probe, wants_filler, HALF,
};
use rawhip::probe_tiles::{is_exact, launch_probe, mm_bench, q8_dot, wc_check, wc_debug, xs_sample, Loaded};
use rawhip::kernels::Call;
use rawhip::synth::Lcg;
use rawhip::tuning::Tuning;
use rawhip::{xq_words, GgmlType};

#[test]
fn runs_of_draws_follow_each_other() {
    let runs = draw_runs(SEED_GOLDEN, &vec![3, 0, 2]);
    let all = Lcg::new(SEED_GOLDEN).draws(5);
    assert_eq!(runs[0], all[..3]);
    assert!(runs[1].is_empty());
    assert_eq!(runs[2], all[3..]);
    assert_eq!(interleave(&[1, 2], &[3, 4]), vec![1, 3, 2, 4]);
    let tokens = token_draws(SEED_DIGITS, 2, 3);
    assert_eq!(tokens[1], Lcg::new(SEED_DIGITS).draws(6)[3..]);
}

#[test]
fn recurrence_check_is_the_one_token_case() {
    let one = ar_check();
    let same = ar_check_t(1);
    assert_eq!(one.inputs, same.inputs);
    assert_eq!(one.frames, same.frames);
    assert_eq!((one.t, one.n_group, one.dt_rank, one.d), (1, 16, 48, 128));
    assert_eq!(ar_check_t(3).inputs[0].len(), 3 * one.inputs[0].len());
}

#[test]
fn recurrence_check_covers_all_tokens() {
    for (t, tokens) in [(3usize, 3i32), (1, 1), (0, 1)] {
        let mut a = Q4Acc::new(Tuning::default());
        a.frame_begin(9);
        for base in 1..=6u64 {
            a.frame_alloc(1 << 16, Some(base << 32)).unwrap();
        }
        let cmds = a.run_ar_check(&ar_check_t(t), &[1, 2, 3, 4, 5, 6]).unwrap();
        assert_eq!(a.t_cur(), tokens as usize);
        assert_eq!(cmds.len(), 1);
        match cmds[0] {
            Cmd::Launch(l) => match l.call {
                Call::GdnArSwap { state, out, d, t, .. } => {
                    assert_eq!((state, out), (a.fptr(5).unwrap(), a.fptr(6).unwrap()));
                    assert_eq!((d, t), (128, tokens));
                }
                _ => panic!("another kernel"),
            },
            _ => panic!("not a launch"),
        }
        assert_eq!(
            a.run_ar_check(&ar_check_t(t), &[1, 2, 3, 4, 5, 7]).err(),
            Some(AccError::FrameHandleMissing { h: 7 })
        );
    }
}

#[test]
fn counting_block_holds_its_index() {
    let b = micro_check();
    for i in 0..32usize {
        let nibble = if i < 16 { b.bytes[8 + i] & 15 } else { b.bytes[8 + i - 16] >> 4 };
        let fifth = (b.qh >> i) & 1;
        assert_eq!(nibble as u32 + 16 * fifth, i as u32);
    }
    assert_eq!(b.qh.to_le_bytes(), [b.bytes[4], b.bytes[5], b.bytes[6], b.bytes[7]]);
}

#[test]
fn scripted_checks_read_what_they_launch() {
    let g = ple_gate_check();
    assert_eq!(g.inputs.iter().map(|v| v.len()).collect::<Vec<_>>(), vec![10240, 10240, 2560, 10240, 10240, 10240]);
    assert!(matches!(g.cmds.last(), Some(Cmd::D2h { bytes: 40960, .. })));
    let q = qsa_check(2, 10);
    assert_eq!(q.mask.len(), 20);
    assert_eq!(*q.sel.off.last().unwrap() as usize, q.sel.idx.len());
    let h = hc_check(2, 8, 4);
    assert_eq!(h.t, 2);
    assert_eq!(h.inputs[0].len(), h.frames[0]);
}

#[test]
fn tensors_are_checked_against_a_mirror() {
    let c = check_tensor(GgmlType::Q6K, 512, 100, 256, 210, 2, 8).unwrap();
    assert_eq!((c.row_bytes, c.n_out), (420, 8));
    assert!(matches!(c.mirror, Some(Mirror::Q6k)));
    assert_eq!(
        check_tensor(GgmlType::Other(99), 512, 100, 256, 210, 2, 8).err(),
        Some(ProbeError::Type { ty: GgmlType::Other(99) })
    );
}

#[test]
fn maps_classify_their_hits() {
    let one = 1.0f32.to_bits();
    assert!(matches!(hit_of(&[0, one, 0]), Hit::One { at: 1 }));
    assert!(matches!(hit_of(&[0, 0]), Hit::Nowhere));
    assert!(matches!(hit_of(&[one, one]), Hit::Several { first: 0 }));
    let c = count_hits(&vec![Hit::One { at: 1 }, Hit::Nowhere, Hit::Several { first: 0 }]);
    assert_eq!(c.one, 1);
    assert_eq!(c.nowhere, 1);
    let s = split_columns(&[0, one, one]);
    assert_eq!((s.set, s.unset), (vec![1, 2], vec![0]));
    let m = f16_map(0);
    assert_eq!(m.blocks.len(), 8);
    let ones = m.blocks[0]
        .iter()
        .filter(|c| matches!(c, Cmd::H2d { src: Host::Ones { n: 128 }, bytes: 512, .. }))
        .count();
    assert_eq!(ones, 2);
    let first = m.blocks[0].iter().position(|c| matches!(c, Cmd::H2d { src: Host::Ones { .. }, .. })).unwrap();
    let last = m.blocks[0].iter().rposition(|c| matches!(c, Cmd::H2d { src: Host::Ones { .. }, .. })).unwrap();
    let units = |cmds: &[Cmd]| cmds.iter().filter(|c| matches!(c, Cmd::H2d { src: Host::Unit { .. }, .. })).count();
    assert_eq!(units(&m.blocks[0][..first]), 128);
    assert_eq!(units(&m.blocks[0][first..last]), 128);
    assert_eq!(unit_rows(16).len(), 256 * 16);
}

#[test]
fn labels_and_marked_rows_touch_the_block_edges() {
    assert_eq!(labels(), vec![0, 1, 2, 5, 16, 31, 32, 33, 63, 64, 127, 128, 200, 255]);
    assert_eq!(marked_rows(), vec![0, 1, 127, 128, 129, 255]);
}

/// Rows of a recurrence whose state is one number; any function of the state and the
/// inputs of a token will do.
fn recurrence(state: &mut u64, inputs: [&[u32]; 4], widths: [usize; 4], t: usize) -> Vec<u64> {
    let mut out = Vec::new();
    for i in 0..t {
        for (input, &w) in inputs.iter().zip(&widths) {
            for &v in &input[i * w..(i + 1) * w] {
                *state = state.wrapping_mul(31).wrapping_add(v as u64);
            }
        }
        out.push(state.rotate_left(7));
    }
    out
}

#[test]
fn bands_go_on_where_the_last_one_ended() {
    let (t, per) = (12usize, 4usize);
    let p = gdn_ar_invariance(t, per, 2, 6, 8).unwrap();
    let widths = [p.frames[0] / t, p.frames[1] / t, p.frames[2] / t, p.frames[3] / t];
    let all: Vec<&[u32]> = p.inputs.iter().map(|v| v.as_slice()).collect();
    let mut whole = 5u64;
    let once = recurrence(&mut whole, [all[0], all[1], all[2], all[3]], widths, t);
    let mut carried = 5u64;
    let mut parts: Vec<u64> = Vec::new();
    let cut = |v: &Vec<u32>, r: Rows| v[r.off..r.off + r.len].to_vec();
    for b in &p.bands {
        assert_eq!(b.out.off / widths[2], parts.len());
        let (q, k) = (cut(&p.inputs[0], b.q), cut(&p.inputs[1], b.k));
        let (v, g) = (cut(&p.inputs[2], b.v), cut(&p.inputs[3], b.gates));
        parts.extend(recurrence(&mut carried, [&q, &k, &v, &g], widths, per));
    }
    assert_eq!(parts, once);
    assert_eq!(carried, whole);
}

#[test]
fn bands_partition_the_batch() {
    let p = gdn_ar_invariance(12, 4, 2, 6, 8).unwrap();
    assert_eq!(p.frames, vec![192, 192, 576, 144, 384, 384, 576, 576]);
    assert_eq!(p.bands.len(), 3);
    assert_eq!(p.bands[1].q, Rows { off: 64, len: 64 });
    assert_eq!(p.bands[2].out, Rows { off: 384, len: 192 });
    assert_eq!(p.bands[2].gates, Rows { off: 96, len: 48 });
    for bad in [0usize, 5, 12] {
        assert_eq!(
            gdn_ar_invariance(12, bad, 2, 6, 8).err(),
            Some(ProbeError::Bands { t: 12, per: bad })
        );
    }
    let c = gdn_conv_invariance(12, 4, 10, 4).unwrap();
    assert_eq!(c.frames, vec![120, 40, 30, 30, 120, 120]);
    assert_eq!(c.bands[2].qkv, Rows { off: 80, len: 40 });
    assert_eq!(gdn_conv_invariance(12, 2, 10, 4).err(), Some(ProbeError::Bands { t: 12, per: 2 }));
}

#[test]
fn product_benches() {
    let batches: Vec<usize> = mm_batch_bench(GgmlType::Q4K, 256, 16, 100)
        .timed
        .iter()
        .map(|t| match t.cmd {
            Cmd::Gemv(m) => m.t,
            _ => 0,
        })
        .collect();
    assert_eq!(batches, vec![1, 8, 64]);
    let b = mm_tile_bench(GgmlType::Q4K, 256, 16, 100, 4, 4 * xq_words(256));
    assert!(b.timed.iter().all(|t| t.reps > 0));
    assert!(matches!(tile_mirror(GgmlType::Q5K), Mirror::Q5k));
    let m = tile_mismatches(&vec![1, 2, 3, 4], &vec![1, 2, 3, 9], 2, 2);
    assert_eq!(m.count, 1);
    assert!(matches!(m.first, Some(p) if p.token == 1 && p.output == 1));
    assert_eq!(f16_bench(16, 256, 32, 5).timed[0].reps, 5);
    assert_eq!(q4k_bench(2, 256, 3).w.len(), 3 * 144);
    let micro = q4k_micro();
    assert_eq!(micro.w.len(), 16 * 144);
    assert_eq!(micro.xs[1][2] as u64, (33 * 2654435761u64) % 1000);
    assert!(q5_1_bench(2, 64, 8, 3).timed.iter().all(|t| t.reps == 3));
    let d: Vec<(usize, usize)> = d2h_bench().iter().map(|c| (c.bytes, c.kib)).collect();
    assert_eq!(d, vec![(20480, 20), (1048576, 1024), (8388608, 8192)]);
}

#[test]
fn tile_probes_choose_their_kernel() {
    let none = Loaded { v4: false, j128: false, odd: false, exact: false };
    let words = 2 * xq_words(256);
    let kern = |ty, l: Loaded| mm_bench(ty, l, 256, 16, 100, 2, words).map(|m| m.kern);
    assert!(matches!(kern(GgmlType::Q5K, none), Ok(TileKernel::Q5kWm)));
    assert!(matches!(kern(GgmlType::Q5K, Loaded { exact: true, ..none }), Ok(TileKernel::Q5kMm)));
    assert!(matches!(kern(GgmlType::Q5K, Loaded { j128: true, ..none }), Ok(TileKernel::Q5kJ128)));
    assert!(matches!(kern(GgmlType::Q8_0, none), Err(ProbeError::Kernels { ty: GgmlType::Q8_0 })));
    assert!(matches!(
        mm_bench(GgmlType::Q5K, none, 256, 16, 100, 65, words).err(),
        Some(ProbeError::Batch { t: 65 })
    ));
    assert!(is_exact(TileKernel::Q5kMm));
    assert_eq!(q8_dot(&[1; 32], &[-2; 32]), -64);
    assert_eq!(launch_probe().timed.iter().filter(|t| !t.must).count(), 13);
}

#[test]
fn cached_weights_are_for_two_types() {
    assert_eq!(
        wc_check(GgmlType::Q4K, 256, 16, 100, 4).err(),
        Some(ProbeError::Type { ty: GgmlType::Q4K })
    );
    assert_eq!(
        wc_check(GgmlType::Q5K, 255, 16, 100, 4).err(),
        Some(ProbeError::RowLength { n_in: 255 })
    );
    let check = wc_check(GgmlType::Iq4Xs, 256, 16, 100, 4).unwrap();
    assert_eq!(check.setup.len(), 6 + 3 + 4 + 7);
    assert_eq!(check.timed.len(), 2);
    assert_eq!(wc_check(GgmlType::Q5K, 256, 16, 100, 0).unwrap().setup.len(), 4 + 3 + 1 + 7);
    assert_eq!(
        wc_debug(GgmlType::Q8_0, 256, 16, 100).err(),
        Some(ProbeError::Type { ty: GgmlType::Q8_0 })
    );
    let debug = wc_debug(GgmlType::Q5K, 256, 16, 100).unwrap();
    assert_eq!(debug.len(), 6);
    assert!(matches!(debug[3], Cmd::Launch(l) if l.call.name() == "dequant_f16_xs_dbg" && l.gx == 16));
    assert!(matches!(debug[5], Cmd::D2h { bytes: 512, .. }));
    assert_eq!(wc_debug(GgmlType::Iq4Xs, 256, 16, 100).unwrap().len(), 8);
    let w: Vec<u8> = (0..136u32).map(|i| (i * 7 % 256) as u8).collect();
    let lut: Vec<u32> = (0..256u32).collect();
    let s = xs_sample(&w, &lut, 0);
    assert_eq!(s.d, u16::from_le_bytes([w[0], w[1]]));
}

#[test]
fn small_probes() {
    assert_eq!(HALF, 0.5f32.to_bits());
    assert_eq!(TWENTIETH, 0.05f32.to_bits());
    assert_eq!(raw_probe(5).timed[0].reps, 5);
    let grids: Vec<(u32, u32)> = launch_rate(5)
        .timed
        .iter()
        .map(|t| match t.cmd {
            Cmd::Launch(l) => (l.gx, l.gy),
            _ => (0, 0),
        })
        .collect();
    assert_eq!(grids, vec![(1, 1), (1, 1), (64, 2560), (2048, 1), (65535, 1)]);
    assert_eq!(iq3s_probe().w.len() % 110, 0);
    assert_eq!(differing_lanes(&vec![1, 2, 3], &vec![1, 0, 0]), vec![1, 2]);
    let d = dp4a_test();
    assert_eq!(d.expected, vec![3, 5, 204, 204, -4, -538, -538, 462]);
    assert_eq!(bw_test().timed[0].reps, 30);
    assert_eq!(count_nonzero(&[0, 1, 2]), 2);
    assert_eq!(
        dims_of(&vec![b"a".to_vec(), b"b".to_vec()], &vec![b"b".to_vec(), b"c".to_vec()]),
        vec![Some(1), None]
    );
    assert_eq!(hca_repro().w_down.len(), 3481600);
}

#[test]
fn fillers_leave_room() {
    assert!(wants_filler((4 << 30) + 1, 0));
    assert!(!wants_filler(4 << 30, 0));
    assert!(!wants_filler((4 << 30) + 1, 1));
    assert!(!wants_filler(100 << 30, 64));
}

#[test]
fn reference_columns() {
    assert_eq!(
        q6k_ref_probe(GgmlType::Q4K, 256, 4, 100, None).err(),
        Some(ProbeError::Type { ty: GgmlType::Q4K })
    );
    assert_eq!(
        q6k_ref_probe(GgmlType::Q6K, 256, 4, 100, Some(vec![256])).err(),
        Some(ProbeError::Index)
    );
    let p = q6k_ref_probe(GgmlType::Q6K, 256, 4, 100, Some(vec![3])).unwrap();
    assert!(p.named);
    assert_eq!(p.x[3], 1.0f32.to_bits());
    assert_eq!(count_nonzero(&p.x), 1);
}

#[test]
fn attention_probes() {
    assert!(matches!(qk_check().cmds.last(), Some(Cmd::D2h { .. })));
    let g = gqa_bench();
    assert!(g.stages.iter().all(|s| s.n_past <= 3314));
    let mini = wmma2_attn_check(WmmaSize::Mini);
    let prod = wmma2_attn_check(WmmaSize::Production);
    assert_eq!(mini.part_words, 16 * 24 * 258);
    assert_eq!(prod.part_words, 512 * 24 * 2 * 258);
    assert_eq!(attn_check().part_words % 258, 0);
    assert!(is_sum_word(0) && is_sum_word(255) && !is_sum_word(256) && is_sum_word(258));
}
