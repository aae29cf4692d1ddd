use rawhip::acc::Q4Acc;
use rawhip::device::{Cmd, Ptr, Slot};
use rawhip::consts::HostKey;
use rawhip::error::{AccError, PoolKind, RebuildPart};
use rawhip::kernels::Call;
use rawhip::key_map::LayerSeq;
use rawhip::qsa_attn::{list_len, splits, AttnShape};
use rawhip::qsa_pool::{compare_kv, Append, IdxReq};
use rawhip::qsa_sel::SelReq;
use rawhip::tuning::Tuning;

const AT: LayerSeq = LayerSeq { layer: 3, seq: 1 };

fn names(cmds: &[Cmd]) -> Vec<&'static str> {
    cmds.iter()
        .filter_map(|c| match *c {
            Cmd::Launch(l) => Some(l.call.name()),
            _ => None,
        })
        .collect()
}

fn acc(tuning: Tuning, ctx: usize) -> Q4Acc {
    let mut a = Q4Acc::new(tuning);
    a.set_ctx_len(ctx);
    for base in 1..=4u64 {
        a.frame_alloc(1 << 16, Some(base << 32)).unwrap();
    }
    a
}

fn shape(t: usize) -> AttnShape {
    AttnShape { scale: 0x3f80_0000, n_head: 24, n_kv: 4, hd: 256, t }
}

fn append(t: usize, pos0: usize) -> Append {
    Append { at: AT, t, pos0 }
}

fn idx(t: usize, pos0: usize) -> IdxReq {
    IdxReq { add: append(t, pos0), idx_dim: 128, r: 4, eps: 0x3586_37bd, cs: HostKey { ptr: 8, len: 2 } }
}

#[test]
fn splits_stay_between_one_and_the_cap() {
    assert_eq!(splits(0, None), 1);
    assert_eq!(splits(63, None), 1);
    assert_eq!(splits(64, None), 2);
    assert_eq!(splits(100_000, None), 64);
    assert_eq!(splits(100_000, Some(1000)), 512);
    assert_eq!(splits(100_000, Some(0)), 1);
    assert_eq!(list_len(&[2, 7, 9]), 5);
    assert_eq!(list_len(&[7, 2]), 0);
    assert_eq!(list_len(&[]), 0);
}

#[test]
fn watermarks_refuse_holes() {
    let mut a = acc(Tuning::default(), 64);
    assert!(a.qsa_kv_dev(append(4, 0), 1, 2, 4, 256).is_ok());
    assert_eq!(a.kv_pos.get(AT), Some(4));
    assert_eq!(
        a.qsa_kv_dev(append(1, 5), 1, 2, 4, 256).err(),
        Some(AccError::Hole { pool: PoolKind::Kv, w: 4, pos0: 5 })
    );
    assert!(a.qsa_kv_dev(append(1, 2), 1, 2, 4, 256).is_ok());
    assert_eq!(a.kv_pos.get(AT), Some(3));
    let mut b = acc(Tuning::default(), 0);
    assert_eq!(
        b.qsa_kv_dev(append(4, 0), 1, 2, 4, 256).err(),
        Some(AccError::NoContextLength { pool: PoolKind::Kv })
    );
}

#[test]
fn appended_rows_land_behind_the_watermark() {
    let mut a = acc(Tuning::default(), 64);
    let plan = a.qsa_kv_dev(append(2, 0), 1, 2, 4, 256).unwrap();
    assert_eq!(plan.cmds[0], Cmd::Ensure { slot: Slot::KvK { layer: 3, seq: 1 }, bytes: 64 * 4 * 256 * 4 });
    a.pool.ensure(Slot::KvK { layer: 3, seq: 1 }, 64 * 4096, Some(1)).unwrap();
    a.pool.ensure(Slot::KvV { layer: 3, seq: 1 }, 64 * 4096, Some(2)).unwrap();
    let plan = a.qsa_kv_dev(append(1, 2), 1, 2, 4, 256).unwrap();
    assert_eq!(
        plan.cmds[0],
        Cmd::D2d {
            dst: Ptr::Buf { slot: Slot::KvK { layer: 3, seq: 1 }, off: 2 * 4096 },
            src: a.fptr(1).unwrap(),
            bytes: 4096,
        }
    );
    assert_eq!(plan.cmds.len(), 2);
}

#[test]
fn completed_blocks_get_keys() {
    let mut a = acc(Tuning::default(), 64);
    let none = a.qsa_idx_append_dev(&idx(3, 0), 1, &[1, 2]).unwrap();
    assert!(names(&none).is_empty());
    let one = a.qsa_idx_append_dev(&idx(1, 3), 1, &[1, 2]).unwrap();
    assert_eq!(names(&one), vec!["q4_idx_bk_update"]);
    let host = a.qsa_idx_append_host(&idx(1, 4), &vec![0; 128], &[1, 2]).unwrap();
    assert!(names(&host).is_empty());
    assert_eq!(a.idx_pos.get(AT), Some(5));
}

/// The first block and the number of blocks that a program keys.
fn keyed(cmds: &[Cmd]) -> (usize, usize) {
    for c in cmds {
        if let Cmd::Launch(l) = *c {
            if let Call::IdxBlockKeys { b0, .. } = l.call {
                return (b0 as usize, l.gx as usize);
            }
        }
    }
    (0, 0)
}

#[test]
fn every_block_is_keyed_once() {
    let mut a = acc(Tuning::default(), 64);
    let mut times = [0usize; 8];
    let mut pos = 0usize;
    for t in [3usize, 1, 6, 1, 1, 9, 2, 7] {
        let cmds = a.qsa_idx_append_dev(&idx(t, pos), 1, &[1, 2]).unwrap();
        let (first, n) = keyed(&cmds);
        for b in first..first + n {
            times[b] += 1;
        }
        pos += t;
    }
    assert_eq!(pos, 30);
    assert_eq!(times, [1, 1, 1, 1, 1, 1, 1, 0]);
}

#[test]
fn appended_indexer_rows_stay() {
    let mut a = acc(Tuning::default(), 64);
    let mut pool = [0u8; 64];
    let mut pos = 0usize;
    for (value, t) in [(1u8, 3usize), (2, 1), (3, 6), (4, 2)] {
        for c in a.qsa_idx_append_dev(&idx(t, pos), 1, &[1, 2]).unwrap() {
            if let Cmd::D2d { dst: Ptr::Buf { slot: Slot::IdxK { layer: 3, seq: 1 }, off }, src, bytes } = c {
                assert_eq!(src, a.fptr(1).unwrap());
                assert_eq!((off % 512, bytes), (0, t * 512));
                pool[off / 512..(off + bytes) / 512].fill(value);
            }
        }
        pos += t;
    }
    assert_eq!(&pool[..13], &[1, 1, 1, 2, 3, 3, 3, 3, 3, 3, 4, 4, 0]);
}

#[test]
fn appended_rows_touch_their_range_only() {
    let mut a = acc(Tuning::default(), 64);
    a.qsa_kv_dev(append(5, 0), 1, 2, 4, 256).unwrap();
    a.pool.ensure(Slot::KvK { layer: 3, seq: 1 }, 64 * 4096, Some(1)).unwrap();
    a.pool.ensure(Slot::KvV { layer: 3, seq: 1 }, 64 * 4096, Some(2)).unwrap();
    let plan = a.qsa_kv_dev(append(3, 5), 1, 2, 4, 256).unwrap();
    let writes: Vec<(Ptr, usize)> = plan
        .cmds
        .iter()
        .filter_map(|c| match *c {
            Cmd::D2d { dst, bytes, .. } => Some((dst, bytes)),
            _ => None,
        })
        .collect();
    let row = |slot| Ptr::Buf { slot, off: 5 * 4096 };
    assert_eq!(
        writes,
        vec![
            (row(Slot::KvK { layer: 3, seq: 1 }), 3 * 4096),
            (row(Slot::KvV { layer: 3, seq: 1 }), 3 * 4096),
        ]
    );
}

#[test]
fn indexer_shapes_are_checked() {
    let mut a = acc(Tuning::default(), 64);
    let odd = IdxReq { idx_dim: 64, ..idx(1, 0) };
    assert_eq!(
        a.qsa_idx_append_dev(&odd, 1, &[]).err(),
        Some(AccError::IndexerShape { r: 4, idx_dim: 64 })
    );
    assert_eq!(
        a.qsa_idx_append_dev(&idx(1, 9), 1, &[]).err(),
        Some(AccError::Hole { pool: PoolKind::Indexer, w: 0, pos0: 9 })
    );
    let mut b = acc(Tuning::default(), 0);
    assert_eq!(
        b.qsa_idx_append_dev(&idx(1, 0), 1, &[]).err(),
        Some(AccError::NoContextLength { pool: PoolKind::Indexer })
    );
}

#[test]
fn selection_is_for_one_token() {
    let mut a = acc(Tuning::default(), 64);
    let rq = SelReq { idx: idx(2, 0), heads: 4, top_k: 16 };
    assert_eq!(a.qsa_sel_dev(&rq, 1, 2, &[1], &[2]).err(), Some(AccError::SelectTokens { t: 2 }));
    let zero = SelReq { idx: IdxReq { r: 0, ..idx(1, 0) }, heads: 4, top_k: 16 };
    assert_eq!(a.qsa_sel_dev(&zero, 1, 2, &[1], &[2]).err(), Some(AccError::SelectBlockZero));
    let far = SelReq { idx: idx(1, 40_000), heads: 4, top_k: 16 };
    assert_eq!(
        a.qsa_sel_dev(&far, 1, 2, &[1], &[2]).err(),
        Some(AccError::SelectBlocks { n_blocks: 10_000 })
    );
}

#[test]
fn selection_keeps_the_tail_and_the_best_blocks() {
    let mut a = acc(Tuning::default(), 256);
    for pos in 0..101usize {
        a.qsa_idx_append_dev(&idx(1, pos), 1, &[1]).unwrap();
    }
    let rq = SelReq { idx: idx(1, 101), heads: 4, top_k: 16 };
    let plan = a.qsa_sel_dev(&rq, 1, 2, &[1], &[2]).unwrap();
    assert_eq!(plan.list_len, 4 * 4 + 2);
    assert!(names(&plan.cmds).contains(&"q4_idx_topk"));
    let back = a.qsa_sel_readback(plan.sel_idx, plan.sel_off, plan.list_len);
    assert_eq!(back.len(), 2);
}

/// The positions of chosen blocks of `r`, and those behind the last complete block.
fn positions(chosen: &[bool], r: usize, n_past: usize) -> Vec<usize> {
    (0..n_past).filter(|p| chosen.get(p / r).copied().unwrap_or(true)).collect()
}

#[test]
fn chosen_blocks_make_lists_of_the_planned_length() {
    for n_past in [1usize, 3, 4, 17, 102] {
        for off in [false, true] {
            let mut a = acc(Tuning { idx_topk_off: off, ..Tuning::default() }, 256);
            for pos in 0..n_past - 1 {
                a.qsa_idx_append_dev(&idx(1, pos), 1, &[1]).unwrap();
            }
            let rq = SelReq { idx: idx(1, n_past - 1), heads: 4, top_k: 16 };
            let plan = a.qsa_sel_dev(&rq, 1, 2, &[1], &[2]).unwrap();
            let mut told = None;
            for c in &plan.cmds {
                if let Cmd::Launch(l) = *c {
                    match l.call {
                        Call::IdxTopk { n_blocks, n_sel, r, n_past, .. } => {
                            told = Some((n_blocks, n_sel, r, n_past));
                        }
                        Call::IdxRank { n_blocks, n_sel, .. } => {
                            told = Some((n_blocks, n_sel, 0, 0));
                        }
                        Call::IdxExpand { n_blocks, r, n_past, .. } => {
                            let n_sel = told.map_or(0, |x: (i32, i32, i32, i32)| x.1);
                            told = Some((n_blocks, n_sel, r, n_past));
                        }
                        _ => {}
                    }
                }
            }
            let (n_blocks, n_sel, r, past) = told.unwrap();
            assert_eq!(past as usize, n_past);
            let mut chosen = vec![false; n_blocks as usize];
            for b in 0..n_sel as usize {
                chosen[n_blocks as usize - 1 - b] = true;
            }
            let list = positions(&chosen, r as usize, n_past);
            assert_eq!(list.len(), plan.list_len);
            assert!(list.windows(2).all(|w| w[0] < w[1]));
            assert!((n_past / 4 * 4..n_past).all(|p| list.contains(&p)));
            let back = a.qsa_sel_readback(plan.sel_idx, plan.sel_off, plan.list_len);
            assert!(matches!(back[0], Cmd::D2h { bytes, .. } if bytes == list.len() * 4));
        }
    }
}

#[test]
fn long_lists_split_for_one_token() {
    let a = acc(Tuning::default(), 0);
    let one = a.qsa_attention_dev(1, &[], &[], &[0; 64], &[0, 64], shape(1), 2).unwrap();
    assert_eq!(names(&one), vec!["q4_qsa_attn_sel4s", "q4_qsa_attn_sel4s_merge"]);
    let three = a.qsa_attention_dev(1, &[], &[], &[0; 64], &[0, 8, 16, 64], shape(3), 2).unwrap();
    assert_eq!(names(&three), vec!["q4_qsa_attn_sel"]);
    let many = a.qsa_attention_dev(1, &[], &[], &[0; 4], &[0, 1, 2, 3, 4], shape(4), 2).unwrap();
    assert_eq!(names(&many), vec!["q4_qsa_attn_sel4"]);
    let host = a.qsa_attn_sel4_raw(&[], &[], &[], &[0; 4], &[0, 1, 2, 3, 4], shape(4));
    assert_eq!(names(&host), vec!["q4_qsa_attn_sel6"]);
    let off = acc(Tuning { qsa_split_off: true, qsa_h6_off: true, ..Tuning::default() }, 0);
    let plain = off.qsa_attn_sel4_raw(&[], &[], &[], &[0; 4], &[0, 1, 2, 3, 4], shape(4));
    assert_eq!(names(&plain), vec!["q4_qsa_attn_sel4"]);
}

#[test]
fn resident_attention_selects_like_the_other() {
    let a = acc(Tuning::default(), 0);
    let p = Ptr::Buf { slot: Slot::KvK { layer: 0, seq: 0 }, off: 0 };
    for t in [1usize, 2, 3, 4, 9] {
        let off: Vec<u32> = (0..=t as u32).collect();
        let idx = vec![0u32; t];
        let res = a.qsa_attn_res(1, p, p, &idx, &off, shape(t), 2).unwrap();
        let dev = a.qsa_attention_dev(1, &[], &[], &idx, &off, shape(t), 2).unwrap();
        assert_eq!(names(&res), names(&dev));
    }
}

#[test]
fn selected_lists_on_the_device_need_splits() {
    let a = acc(Tuning::default(), 0);
    let p = Ptr::Buf { slot: Slot::Msk, off: 0 };
    assert!(a.qsa_attention_dev_sel(1, p, p, p, p, 100, shape(1), 2).is_ok());
    assert_eq!(
        a.qsa_attention_dev_sel(1, p, p, p, p, 100, shape(2), 2).err(),
        Some(AccError::SelectSplit { t: 2 })
    );
}

#[test]
fn attention_can_be_kept_on_the_host() {
    let a = acc(Tuning { qsa_cpu: true, ..Tuning::default() }, 0);
    assert_eq!(
        a.qsa_attention(&[], &[], &[], &[], 4, shape(2)).err(),
        Some(AccError::AttentionOnHost { t: 2 })
    );
    assert_eq!(
        a.qsa_attention_sel(&[], &[], &[], &[], &[0], shape(2)).err(),
        Some(AccError::SelectedAttentionOnHost { t: 2 })
    );
    let b = acc(Tuning::default(), 0);
    assert_eq!(names(&b.qsa_attention(&[], &[], &[], &[], 4, shape(2)).unwrap()), vec!["q4_qsa_attn_wt"]);
}

#[test]
fn rebuilds_need_complete_pools() {
    let mut a = acc(Tuning::default(), 64);
    assert_eq!(
        a.qsa_host_rebuild(AT, 3, 1024, 4, 128).err(),
        Some(AccError::RebuildShort { kv: false, idx: false, pos: 3 })
    );
    a.kv_pos.insert(AT, 8);
    a.idx_pos.insert(AT, 8);
    let miss = |a: &Q4Acc| a.qsa_host_rebuild(AT, 8, 1024, 4, 128).err();
    assert_eq!(miss(&a), Some(AccError::RebuildMissing { part: RebuildPart::Kv }));
    a.pool.ensure(Slot::KvK { layer: 3, seq: 1 }, 4, Some(1)).unwrap();
    assert_eq!(miss(&a), Some(AccError::RebuildMissing { part: RebuildPart::Indexer }));
    a.pool.ensure(Slot::IdxK { layer: 3, seq: 1 }, 4, Some(1)).unwrap();
    assert_eq!(miss(&a), Some(AccError::RebuildMissing { part: RebuildPart::BlockKeys }));
    a.pool.ensure(Slot::BlockK { layer: 3, seq: 1 }, 4, Some(1)).unwrap();
    let cmds = a.qsa_host_rebuild(AT, 8, 1024, 4, 128).unwrap();
    assert_eq!(cmds.len(), 4);
    assert!(matches!(cmds[3], Cmd::D2h { bytes, .. } if bytes == 2 * 128 * 4));
}

#[test]
fn pool_contents_are_compared_with_the_host() {
    assert_eq!(compare_kv(&[1, 2], &[1, 2], &[3], &[3]), Ok(()));
    assert_eq!(
        compare_kv(&[1, 2], &[1, 5], &[3], &[4]),
        Err(AccError::KMismatch { at: 1, pool: 2, host: 5 })
    );
    assert_eq!(
        compare_kv(&[1, 2], &[1, 2], &[3], &[4]),
        Err(AccError::VMismatch { at: 0, pool: 3, host: 4 })
    );
    let a = acc(Tuning::default(), 64);
    assert_eq!(a.qsa_kv_check(AT, 10, 10).err(), Some(AccError::KvMissing));
}
