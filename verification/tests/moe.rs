use rawhip::acc::Q4Acc;
use rawhip::device::{Arg, Cmd, Host, Mark, Ptr, Slot};
use rawhip::error::AccError;
use rawhip::experts::{is_ascending, offset_ranges, ranges_fit, rows_permute_dev, Range};
use rawhip::group::{group_rows, pad_groups, row_experts};
use rawhip::kernels::Call;
use rawhip::moe::MoeReq;
use rawhip::moe_diag::{are_offsets_suspect, group_check, input_hash, Mismatch};
use rawhip::moe_down::ungroup_rows;
use rawhip::moe_grouped::{build_tables, padded_ranges, plain_offsets};
use rawhip::moe_steps::{MoeStage, MoeStep};
use rawhip::ops::FrameOp;
use rawhip::tuning::Tuning;
use rawhip::upload::Weight;
use rawhip::{xq_words, GgmlType};

const IDS: [u32; 8] = [2, 0, 2, 1, 9, 2, 0, 2];

/// Runs a program without a device: buffers get an address, marks are recorded.
fn execute(a: &mut Q4Acc, cmds: &[Cmd]) {
    for c in cmds {
        match *c {
            Cmd::Ensure { slot, bytes } => {
                a.pool.ensure(slot, bytes, Some(0x10_0000)).unwrap();
            }
            Cmd::Mark(m) => a.record(m),
            _ => {}
        }
    }
}

fn names(cmds: &[Cmd]) -> Vec<&'static str> {
    cmds.iter()
        .filter_map(|c| match *c {
            Cmd::Launch(l) => Some(l.call.name()),
            _ => None,
        })
        .collect()
}

fn setup(tuning: Tuning, t: usize) -> Q4Acc {
    let mut a = Q4Acc::new(tuning);
    for base in 1..=3u64 {
        a.frame_alloc(1 << 20, Some(base << 32)).unwrap();
    }
    a.frame_begin(t);
    a
}

fn request(ty: GgmlType, k_sel: usize) -> MoeReq {
    MoeReq {
        x: 1,
        w: Weight { key: 5, len: 4 * 1000, ty, n_in: 256, n_out: 4 * 32 },
        ids: 2,
        out: 3,
        n_expert: 4,
        k_sel,
    }
}

#[test]
fn rows_of_an_expert_come_together_in_order() {
    let g = group_rows(&IDS, 4);
    assert_eq!(g.off, vec![0, 2, 3, 7, 8]);
    assert_eq!(g.perm, vec![1, 6, 3, 0, 2, 5, 7, 4]);
    for (i, &p) in g.inv.iter().enumerate() {
        assert_eq!(g.perm[p as usize] as usize, i);
    }
    assert_eq!(row_experts(&IDS, &g.perm, 4), vec![0, 0, 1, 2, 2, 2, 2, 3]);
}

#[test]
fn padded_groups_start_on_tiles() {
    let g = group_rows(&IDS, 4);
    let p = pad_groups(&IDS, 4, &g);
    assert_eq!(p.rows_pad, 64);
    assert_eq!(p.tilexp, vec![0, 1, 2, 3]);
    assert_eq!(&p.perm_pad[32..37], &[0, 2, 5, 7, 0]);
    for (i, &q) in p.inv_pad.iter().enumerate() {
        assert_eq!(p.perm_pad[q as usize] as usize, i);
    }
    let empty = pad_groups(&[], 4, &group_rows(&[], 4));
    assert_eq!((empty.rows_pad, empty.tilexp.clone()), (16, vec![0]));
}

#[test]
fn gathering_and_scattering_restore_the_rows() {
    let g = group_rows(&IDS, 4);
    let grouped: Vec<Vec<u32>> = g.perm.iter().map(|&i| vec![i * 10, i]).collect();
    let back = ungroup_rows(&grouped, &g);
    for (i, row) in back.iter().enumerate() {
        assert_eq!(row, &vec![i as u32 * 10, i as u32]);
    }
}

#[test]
fn ranges_between_offsets() {
    let off = vec![0usize, 2, 3, 7, 8];
    assert!(is_ascending(&off));
    assert!(!is_ascending(&vec![0, 2, 1]));
    let r = offset_ranges(&off);
    assert_eq!(r[2], Range { start: 3, len: 4 });
    assert!(ranges_fit(&r, 8));
    assert!(!ranges_fit(&r, 7));
}

#[test]
fn device_offsets_decode() {
    let b = vec![0i32, 2, 3, 7, 8, 64];
    assert_eq!(plain_offsets(&b, 4, 72).unwrap(), vec![0, 2, 3, 7, 8]);
    let p = padded_ranges(&b, 4, 72).unwrap();
    assert_eq!(
        p,
        vec![
            Range { start: 0, len: 2 },
            Range { start: 16, len: 1 },
            Range { start: 32, len: 4 },
            Range { start: 48, len: 1 },
        ]
    );
    assert_eq!(
        plain_offsets(&b, 4, 63).err(),
        Some(AccError::MoeBound { rows_pad: 64, bound: 63, ne: 4 })
    );
    assert_eq!(
        padded_ranges(&b, 4, 63).err(),
        Some(AccError::MoeBound { rows_pad: 64, bound: 63, ne: 4 })
    );
}

#[test]
fn experts_behind_the_padded_rows_are_refused() {
    assert_eq!(
        padded_ranges(&vec![0, 60, 120, 180, 8, 64], 4, 72).err(),
        Some(AccError::MoeStart { expert: 2, bound: 72 })
    );
    assert_eq!(
        padded_ranges(&vec![0, i32::MAX, 0, i32::MAX, 0, 64], 4, 72).err(),
        Some(AccError::MoeStart { expert: 1, bound: 72 })
    );
    let last = padded_ranges(&vec![0, 0, 0, 0, 500, 64], 4, 72).unwrap();
    assert_eq!(last[3], Range { start: 0, len: 500 });
}

#[test]
fn permuting_nothing_launches_nothing() {
    let p = Ptr::Dev { base: 1, off: 0 };
    assert!(rows_permute_dev(p, p, p, 0, 5).is_empty());
    assert!(rows_permute_dev(p, p, p, 5, 0).is_empty());
    assert_eq!(names(&rows_permute_dev(p, p, p, 5, 5)), vec!["q4_rows_permute_u32"]);
}

#[test]
fn one_token_reads_ids_directly() {
    let mut a = setup(Tuning::default(), 1);
    let rq = request(GgmlType::Q4K, 2);
    let MoeStep::Run { cmds, then } = a.frame_moe_gemm(&rq, MoeStage::Start).unwrap() else {
        panic!("not prepared first")
    };
    assert_eq!(then, MoeStage::Prepared);
    assert_eq!(cmds[0], Cmd::Weight { key: 5 });
    assert_eq!(cmds[1], Cmd::Ensure { slot: Slot::Fxq, bytes: 2 * xq_words(256) * 4 });
    execute(&mut a, &cmds);
    assert!(a.is_moe_prepared(&rq));
    let MoeStep::Done { cmds } = a.frame_moe_gemm(&rq, then).unwrap() else {
        panic!("not direct")
    };
    assert_eq!(names(&cmds), vec!["q4_gemm_q4k_ge_ids", "q4_gemm_q4k_ids_reduce"]);
    assert_eq!(cmds[0], Cmd::Ensure { slot: Slot::Scratch, bytes: 2 * 32 * 4 * 8 });
}

fn direct_stride(t: usize) -> i32 {
    let mut a = setup(Tuning::default(), t);
    let rq = request(GgmlType::Q4K, 2);
    if let MoeStep::Run { cmds, .. } = a.frame_moe_gemm(&rq, MoeStage::Start).unwrap() {
        execute(&mut a, &cmds);
    }
    let MoeStep::Done { cmds } = a.frame_moe_gemm(&rq, MoeStage::Prepared).unwrap() else {
        panic!("not direct")
    };
    for c in &cmds {
        if let Cmd::Launch(l) = *c {
            if let Call::MoeQ4kIds { xq_w, .. } = l.call {
                return xq_w;
            }
        }
    }
    panic!("another kernel")
}

#[test]
fn direct_rows_of_several_tokens_have_activations_of_their_own() {
    assert_eq!(direct_stride(1), 0);
    assert_eq!(direct_stride(4), xq_words(256) as i32);
}

#[test]
fn experts_of_a_widened_stack_are_twice_as_far_apart() {
    let w = Weight { key: 5, len: 8, ty: GgmlType::F16, n_in: 2, n_out: 2 };
    let rq = MoeReq { x: 1, w, ids: 2, out: 3, n_expert: 2, k_sel: 1 };
    assert_eq!(rq.per_expert(), 8);
    let mut a = setup(Tuning::default(), 80);
    if let MoeStep::Run { cmds, .. } = a.frame_moe_gemm(&rq, MoeStage::Start).unwrap() {
        execute(&mut a, &cmds);
    }
    let ids: Vec<u32> = (0..80).map(|i| i % 2).collect();
    let (tables, cmds) = a.moe_build(&rq, &ids);
    execute(&mut a, &cmds);
    a.tables_uploaded(80, tables.padded.rows_pad, tables.groups.off);
    let MoeStep::Done { cmds } = a.frame_moe_gemm(&rq, MoeStage::Grouped).unwrap() else {
        panic!("not complete")
    };
    assert_eq!(weight_offsets(&cmds), vec![0, 8]);
    let xs: Vec<Vec<u32>> = (0..4).map(|i| vec![i; 2]).collect();
    let plan = a.moe_down(&xs, &w, &vec![1, 0, 1, 0], 2, 4).unwrap().unwrap();
    assert_eq!(weight_offsets(&plan.cmds), vec![0, 8]);
    let narrow = MoeReq { w: Weight { ty: GgmlType::Q8_0, ..w }, ..rq };
    assert_eq!(narrow.per_expert(), 4);
}

/// Where in the weight the plain products of a program start.
fn weight_offsets(cmds: &[Cmd]) -> Vec<usize> {
    let mut offs = Vec::new();
    for c in cmds {
        if let Cmd::Launch(l) = *c {
            for arg in l.call.args() {
                if let Arg::Ptr(Ptr::Weight { key: 5, off }) = arg {
                    offs.push(off);
                }
            }
        }
    }
    offs
}

#[test]
fn direct_kernels_follow_the_type() {
    for (ty, kern) in [(GgmlType::Q5_1, "q4_gemm_q5_1_w_ids"), (GgmlType::Q8_0, "gemm_q8_0_ids")] {
        let mut a = setup(Tuning::default(), 1);
        let rq = request(ty, 2);
        if let MoeStep::Run { cmds, .. } = a.frame_moe_gemm(&rq, MoeStage::Start).unwrap() {
            execute(&mut a, &cmds);
        }
        match a.frame_moe_gemm(&rq, MoeStage::Prepared).unwrap() {
            MoeStep::Done { cmds } => assert_eq!(names(&cmds), vec![kern]),
            _ => panic!("not direct"),
        }
    }
}

#[test]
fn activations_are_shared_within_a_routing() {
    let mut a = setup(Tuning::default(), 1);
    let rq = request(GgmlType::Q4K, 2);
    if let MoeStep::Run { cmds, .. } = a.frame_moe_gemm(&rq, MoeStage::Start).unwrap() {
        execute(&mut a, &cmds);
    }
    match a.frame_moe_gemm(&rq, MoeStage::Start).unwrap() {
        MoeStep::Run { cmds, .. } => assert_eq!(cmds, vec![Cmd::Weight { key: 5 }]),
        _ => panic!("not prepared first"),
    }
    a.frame_op(&FrameOp::MoeTop10 { route: 1, ids: 2, wt: 3, n_exp: 4, k_sel: 2 }).unwrap();
    assert_eq!(a.moe_gen, 1);
    assert!(!a.is_moe_prepared(&rq));
}

#[test]
fn batches_group_on_the_host() {
    let mut a = setup(Tuning::default(), 80);
    let rq = request(GgmlType::Q4K, 1);
    if let MoeStep::Run { cmds, .. } = a.frame_moe_gemm(&rq, MoeStage::Start).unwrap() {
        execute(&mut a, &cmds);
    }
    match a.frame_moe_gemm(&rq, MoeStage::Prepared).unwrap() {
        MoeStep::ReadIds { src, rows } => {
            assert_eq!(src, a.fptr(2).unwrap());
            assert_eq!(rows, 80);
        }
        _ => panic!("not on the host"),
    }
    let ids: Vec<u32> = (0..80).map(|i| i % 4).collect();
    let (tables, cmds) = a.moe_build(&rq, &ids);
    assert_eq!(cmds[3], Cmd::H2d { dst: Ptr::Buf { slot: Slot::Rperm, off: 0 }, src: Host::Perm, bytes: 320 });
    execute(&mut a, &cmds);
    a.tables_uploaded(80, tables.padded.rows_pad, tables.groups.off);
    assert!(a.is_moe_ready(&rq));
    match a.frame_moe_gemm(&rq, MoeStage::Grouped).unwrap() {
        MoeStep::Done { cmds } => assert_eq!(
            names(&cmds),
            vec!["q4_rows_permute_u32", "q4_gemm_q4k_ge", "q4_rows_permute_u32"]
        ),
        _ => panic!("not complete"),
    }
    match a.frame_moe_gemm(&rq, MoeStage::Prepared).unwrap() {
        MoeStep::Run { cmds, then } => {
            assert!(cmds.is_empty());
            assert_eq!(then, MoeStage::Grouped);
        }
        _ => panic!("not cached"),
    }
}

#[test]
fn tables_serve_until_the_next_routing() {
    let mut a = setup(Tuning::default(), 80);
    let rq = request(GgmlType::Q4K, 1);
    let ids: Vec<u32> = (0..80).map(|i| i % 4).collect();
    for _ in 0..2 {
        if let MoeStep::Run { cmds, .. } = a.frame_moe_gemm(&rq, MoeStage::Start).unwrap() {
            execute(&mut a, &cmds);
        }
        assert!(matches!(a.frame_moe_gemm(&rq, MoeStage::Prepared).unwrap(), MoeStep::ReadIds { .. }));
        let (tables, cmds) = a.moe_build(&rq, &ids);
        execute(&mut a, &cmds);
        a.tables_uploaded(80, tables.padded.rows_pad, tables.groups.off);
        for ty in [GgmlType::Q4K, GgmlType::Q6K] {
            let next = request(ty, 1);
            assert!(matches!(
                a.frame_moe_gemm(&next, MoeStage::Prepared).unwrap(),
                MoeStep::Run { then: MoeStage::Grouped, .. }
            ));
        }
        a.frame_op(&FrameOp::MoeTop10 { route: 1, ids: 2, wt: 3, n_exp: 4, k_sel: 1 }).unwrap();
    }
}

#[test]
fn other_types_go_expert_by_expert() {
    let mut a = setup(Tuning::default(), 80);
    let rq = request(GgmlType::Q6K, 1);
    if let MoeStep::Run { cmds, .. } = a.frame_moe_gemm(&rq, MoeStage::Start).unwrap() {
        execute(&mut a, &cmds);
    }
    let ids: Vec<u32> = (0..80).map(|i| i % 3).collect();
    let (tables, cmds) = a.moe_build(&rq, &ids);
    execute(&mut a, &cmds);
    a.tables_uploaded(80, tables.padded.rows_pad, tables.groups.off);
    match a.frame_moe_gemm(&rq, MoeStage::Grouped).unwrap() {
        MoeStep::Done { cmds } => {
            let products: Vec<usize> = cmds
                .iter()
                .filter_map(|c| match *c {
                    Cmd::Gemv(m) => Some(m.t),
                    _ => None,
                })
                .collect();
            assert_eq!(products, vec![27, 27, 26]);
        }
        _ => panic!("not complete"),
    }
}

#[test]
fn one_token_groups_on_the_device() {
    let tuning = Tuning { moe_grouped: true, ..Tuning::default() };
    let mut a = setup(tuning, 1);
    let rq = request(GgmlType::Q8_0, 2);
    if let MoeStep::Run { cmds, .. } = a.frame_moe_gemm(&rq, MoeStage::Start).unwrap() {
        execute(&mut a, &cmds);
    }
    let MoeStep::Run { cmds, then } = a.frame_moe_gemm(&rq, MoeStage::Prepared).unwrap() else {
        panic!("not on the device")
    };
    assert_eq!(names(&cmds), vec!["q4_moe_group_t1"]);
    assert_eq!(then, MoeStage::Grouped);
    execute(&mut a, &cmds);
    assert!(a.is_moe_ready(&rq));
    match a.frame_moe_gemm(&rq, MoeStage::Grouped).unwrap() {
        MoeStep::ReadOffsets { cmds } => assert_eq!(cmds.last(), Some(&Cmd::D2hWait)),
        _ => panic!("offsets not wanted"),
    }
    let b = vec![0i32, 1, 1, 2, 2, 32];
    assert!(a.are_offsets_usable(&rq, &b));
    assert!(!a.are_offsets_usable(&rq, &vec![0, 2, 1, 2, 2, 32]));
    let cmds = a.moe_finish(&rq, &b).unwrap();
    let products = cmds.iter().filter(|c| matches!(c, Cmd::Gemv(_))).count();
    assert_eq!(products, 2);
    assert_eq!(
        a.moe_finish(&rq, &vec![0, 1, 1, 2, 2, 99]).err(),
        Some(AccError::MoeBound { rows_pad: 99, bound: 66, ne: 4 })
    );
}

#[test]
fn missing_frames_are_refused() {
    let a = setup(Tuning::default(), 1);
    let rq = MoeReq { out: 8, ..request(GgmlType::Q4K, 2) };
    assert_eq!(
        a.frame_moe_gemm(&rq, MoeStage::Start).err(),
        Some(AccError::FrameHandleMissing { h: 8 })
    );
}

#[test]
fn host_rows_are_multiplied_by_expert() {
    let a = setup(Tuning::default(), 1);
    let w = Weight { key: 5, len: 4000, ty: GgmlType::Q8_0, n_in: 4, n_out: 8 };
    let xs: Vec<Vec<u32>> = (0..8).map(|i| vec![i; 4]).collect();
    let plan = a.moe_down(&xs, &w, &IDS.to_vec(), 4, 8).unwrap().unwrap();
    assert_eq!(plan.groups.off, vec![0, 2, 3, 7, 8]);
    let served: Vec<(usize, Ptr)> = plan
        .cmds
        .iter()
        .filter_map(|c| match *c {
            Cmd::Gemv(m) => Some((m.t, m.w)),
            _ => None,
        })
        .collect();
    let expert = |e: usize| Ptr::Weight { key: 5, off: e * 1000 };
    assert_eq!(served, vec![(2, expert(0)), (1, expert(1)), (4, expert(2)), (1, expert(3))]);
    assert_eq!(
        a.moe_down(&xs, &w, &vec![1, 2], 4, 8).err(),
        Some(AccError::MoeDownLength { xs: 8, ids: 2, outs: 8 })
    );
    assert!(matches!(a.moe_down(&vec![], &w, &vec![], 4, 0), Ok(None)));
}

#[test]
fn tables_of_the_ids_have_no_mismatch() {
    let t = build_tables(&IDS, 4);
    let off: Vec<i32> = t.groups.off.iter().map(|&o| o as i32).collect();
    assert_eq!(group_check(&IDS, 4, &off, &t.groups.perm, &t.rowexp), vec![]);
    let mut bad = off.clone();
    bad[1] = -1;
    assert_eq!(
        group_check(&IDS, 4, &bad, &t.groups.perm, &t.rowexp),
        vec![Mismatch::Off { at: 1, dev: -1, host: 2 }]
    );
    let mut perm = t.groups.perm.clone();
    perm[0] = 7;
    assert_eq!(
        group_check(&IDS, 4, &off, &perm, &t.rowexp),
        vec![Mismatch::Perm { at: 0, dev: 7, host: 1 }]
    );
    let wrong = vec![77u32; 8];
    assert_eq!(group_check(&IDS, 4, &off, &wrong, &wrong).len(), 5);
}

#[test]
fn suspect_offsets_are_noticed() {
    let b = vec![0i32, 2, 3, 7, 8];
    assert!(!are_offsets_suspect(&b, 4, 8));
    assert!(are_offsets_suspect(&b, 4, 7));
    assert!(are_offsets_suspect(&vec![0, 2, 1, 7, 8], 4, 8));
    assert!(are_offsets_suspect(&vec![-1, 2, 3, 7, 8], 4, 8));
    assert_eq!(input_hash(&[]), 0xcbf29ce484222325);
    assert_eq!(input_hash(&[5]), 0xcbf29ce484222325u64.wrapping_mul(0x100000001b3) ^ 5);
    assert_eq!(setup(Tuning::default(), 3).moe_hash_words(2, 10), 20);
}

#[test]
fn marks_of_a_routing_do_not_run_ahead() {
    let mut a = setup(Tuning::default(), 1);
    a.record(Mark::Quantised { x: Ptr::Null, rows: 1, generation: 0, xq_w: 1 });
    assert!(a.quant_cache.unwrap().generation <= a.moe_gen);
}
