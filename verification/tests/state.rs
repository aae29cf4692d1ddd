use rawhip::acc::{Q4Acc, QuantCache};
use rawhip::consts::{upload_by_ptr, upload_hashed, upload_map, ContentKey, HostKey};
use rawhip::device::{Cmd, ConstMap, Host, Mark, Ptr, Slot};
use rawhip::error::{AccError, Transfer};
use rawhip::key_map::{KeyMap, LayerSeq};
use rawhip::pool::{GBuf, Pool};
use rawhip::tuning::Tuning;
use rawhip::upload::{
    find_source, halves_of, staged_chunks, upload_pipelined, Advice, Chunk, Source, UploadStep,
    Weight, WeightPlan,
};
use rawhip::GgmlType;

fn acc() -> Q4Acc {
    Q4Acc::new(Tuning::default())
}

fn weight(key: usize, len: usize, ty: GgmlType) -> Weight {
    Weight { key, len, ty, n_in: 256, n_out: 4 }
}

#[test]
fn buffers_grow_and_never_shrink() {
    let mut b = GBuf::new("xf");
    assert!(b.needs(8));
    assert_eq!(b.ensure(8, Some(0x100)), Ok(0x100));
    assert_eq!(b.ensure(4, None), Ok(0x100));
    assert!(!b.needs(8));
    assert_eq!(b.ensure(16, None), Err(AccError::Alloc { bytes: 16 }));
    assert_eq!((b.bytes, b.ptr), (8, 0x100));
    assert_eq!(b.ensure(16, Some(0x200)), Ok(0x200));
    assert_eq!((b.name, b.bytes, b.ptr), ("xf", 16, 0x200));
}

#[test]
fn slots_have_buffers_of_their_own() {
    let mut p = Pool::new();
    assert!(!p.has(Slot::Xq));
    assert_eq!(p.ensure(Slot::Xq, 64, Some(5)), Ok(5));
    assert_eq!(p.ensure(Slot::KvK { layer: 1, seq: 0 }, 32, Some(9)), Ok(9));
    assert_eq!(p.bytes(Slot::Xq), 64);
    assert_eq!(p.ptr(Slot::KvK { layer: 1, seq: 0 }), 9);
    assert_eq!(p.bytes(Slot::KvK { layer: 0, seq: 1 }), 0);
    p.forget(Slot::Xq);
    assert!(!p.has(Slot::Xq));
    assert_eq!(p.ptr(Slot::Xq), 0);
    assert!(p.has(Slot::KvK { layer: 1, seq: 0 }));
    assert_eq!(Slot::KvK { layer: 1, seq: 0 }.label(), "qsakv_k");
}

#[test]
fn keyed_values_are_replaced_and_removed() {
    let mut m: KeyMap<LayerSeq, usize> = KeyMap::new();
    let a = LayerSeq { layer: 0, seq: 1 };
    let b = LayerSeq { layer: 1, seq: 0 };
    m.insert(a, 3);
    m.insert(b, 4);
    m.insert(a, 5);
    assert_eq!(m.get(a), Some(5));
    assert_eq!(m.get(b), Some(4));
    m.remove(a);
    assert_eq!(m.get(a), None);
    assert_eq!(m.get(b), Some(4));
}

#[test]
fn frames_are_handles_from_one_on() {
    let mut a = acc();
    assert_eq!(Q4Acc::frame_alloc_bytes(1), 16);
    assert_eq!(a.frame_alloc(10, Some(0x1000)), Ok(1));
    assert_eq!(a.frame_alloc(1, None), Err(AccError::Alloc { bytes: 16 }));
    assert_eq!(a.fptr(1), Ok(Ptr::Dev { base: 0x1000, off: 0 }));
    assert_eq!(a.fptr(0), Err(AccError::FrameHandleZero));
    assert_eq!(a.fptr(2), Err(AccError::FrameHandleMissing { h: 2 }));
    assert_eq!(a.frame_free(1), Ok(()));
    assert_eq!(a.fptr(1), Ok(Ptr::Dev { base: 0x1000, off: 0 }));
}

#[test]
fn slices_stay_inside_their_parent() {
    let mut a = acc();
    a.frame_alloc(10, Some(0x1000)).unwrap();
    assert_eq!(a.frame_slice(1, 4, 6), Ok(2));
    assert_eq!(a.fptr(2), Ok(Ptr::Dev { base: 0x1000, off: 16 }));
    assert_eq!(a.frame_slice(2, 2, 4), Ok(3));
    assert_eq!(a.fptr(3), Ok(Ptr::Dev { base: 0x1000, off: 24 }));
    assert_eq!(a.frame_slice(1, 4, 7), Err(AccError::SliceRange { need: 44, cap: 40 }));
    assert_eq!(a.frame_slice(9, 0, 0), Err(AccError::FrameHandleMissing { h: 9 }));
    assert_eq!(a.fptr(1), Ok(Ptr::Dev { base: 0x1000, off: 0 }));
}

#[test]
fn transfers_check_their_range() {
    let mut a = acc();
    a.frame_alloc(10, Some(0x1000)).unwrap();
    let p = Ptr::Dev { base: 0x1000, off: 0 };
    assert_eq!(a.frame_write(1, 10), Ok(Cmd::H2d { dst: p, src: Host::X, bytes: 40 }));
    assert_eq!(a.frame_read(1, 3), Ok(Cmd::D2h { dst: Host::Y, src: p, bytes: 12 }));
    assert_eq!(
        a.frame_write_u32(1, 11),
        Err(AccError::FrameRange { what: Transfer::WriteU32, need: 44, cap: 40, h: 1 })
    );
    assert_eq!(
        a.frame_read(1, 11),
        Err(AccError::FrameRange { what: Transfer::Read, need: 44, cap: 40, h: 1 })
    );
    assert_eq!(
        a.frame_write(1, 12),
        Err(AccError::FrameRange { what: Transfer::Write, need: 48, cap: 40, h: 1 })
    );
}

#[test]
fn steps_have_at_least_one_token() {
    let mut a = acc();
    assert_eq!(a.t_cur(), 1);
    a.frame_begin(7);
    assert_eq!(a.t_cur(), 7);
    a.frame_begin(0);
    assert_eq!(a.t_cur(), 1);
    a.set_ctx_len(4096);
    assert_eq!(a.ctx_len, 4096);
}

#[test]
fn prefill_pins_come_and_go() {
    let mut a = acc();
    assert!(!a.tuning.prefill_pin);
    a.set_prefill_pin(true);
    assert!(a.tuning.prefill_pin && !a.tuning.no_tile);
    a.set_prefill_pin(false);
    assert!(!a.tuning.prefill_pin);
}

#[test]
fn new_switches_keep_the_pin() {
    let mut a = acc();
    a.set_prefill_pin(true);
    a.set_ctx_len(77);
    a.retune(Tuning { no_dual: true, q4k_y_rows: Some(8), ..Tuning::default() });
    assert!(a.tuning.prefill_pin && a.tuning.no_dual);
    assert_eq!(a.tuning.y_rows(), 8);
    assert_eq!(a.ctx_len, 77);
    a.retune(Tuning::default());
    assert!(a.tuning.prefill_pin && !a.tuning.no_dual);
}

#[test]
fn reads_and_writes_of_a_frame_meet() {
    let mut a = acc();
    a.frame_alloc(10, Some(0x1000)).unwrap();
    a.frame_slice(1, 4, 6).unwrap();
    let mut mem = [0u8; 40];
    let at = |p: Ptr| match p {
        Ptr::Dev { base, off } => (base - 0x1000) as usize + off,
        _ => panic!("not a frame"),
    };
    match a.frame_write(2, 3).unwrap() {
        Cmd::H2d { dst, bytes, .. } => mem[at(dst)..at(dst) + bytes].fill(7),
        _ => panic!("not a write"),
    }
    match a.frame_read(2, 3).unwrap() {
        Cmd::D2h { src, bytes, .. } => assert_eq!(&mem[at(src)..at(src) + bytes], &[7; 12]),
        _ => panic!("not a read"),
    }
    assert!(mem[..16].iter().all(|&b| b == 0) && mem[28..].iter().all(|&b| b == 0));
}

#[test]
fn every_two_hundredth_request_reports() {
    let mut a = acc();
    for i in 1..=400u64 {
        assert_eq!(a.note(1, 2, 3, 4), i % 200 == 0);
    }
    assert_eq!(a.time.upload_ns, 400);
    assert_eq!(a.time.d2h_ns, 1600);
}

#[test]
fn weights_are_uploaded_once() {
    let mut a = Q4Acc::new_with_sources(
        Tuning::default(),
        vec![Source { base: 1000, len: 500 }, Source { base: 1200, len: 1000 }],
    );
    let q = weight(1300, 100, GgmlType::Q4K);
    assert_eq!(a.dev_weight(&q), WeightPlan::Staged { alloc: 100, source: 0, off: 300 });
    let far = weight(5000, 100, GgmlType::Q4K);
    assert_eq!(a.dev_weight(&far), WeightPlan::Mapped { alloc: 100 });
    let h = weight(1300, 101, GgmlType::Bf16);
    assert_eq!(a.dev_weight(&h), WeightPlan::Expand { alloc: 200, halves: 50 });
    a.weight_uploaded(&q, 0xabc);
    assert!(matches!(a.dev_weight(&q), WeightPlan::Resident(r) if r.ptr == 0xabc && !r.is_f32));
    a.weight_uploaded(&weight(1, 10, GgmlType::F16), 0xdef);
    assert_eq!(a.uploaded_bytes(), 100 + 20);
    assert!(a.is_f32(&weight(1, 10, GgmlType::F16)));
    assert!(a.is_f32(&weight(77, 10, GgmlType::F32)));
    assert!(!a.is_f32(&weight(78, 10, GgmlType::Q8_0)));
}

#[test]
fn sources_hold_the_whole_range() {
    let s = vec![Source { base: 100, len: 50 }, Source { base: 120, len: 100 }];
    assert_eq!(find_source(&s, 100, 50), Some(0));
    assert_eq!(find_source(&s, 130, 40), Some(1));
    assert_eq!(find_source(&s, 219, 2), None);
    assert_eq!(find_source(&s, usize::MAX, 2), None);
}

#[test]
fn staged_pieces_cover_the_range() {
    let mib = 1usize << 20;
    assert_eq!(staged_chunks(0), vec![]);
    assert_eq!(
        staged_chunks(20 * mib),
        vec![
            Chunk { off: 0, len: 8 * mib },
            Chunk { off: 8 * mib, len: 8 * mib },
            Chunk { off: 16 * mib, len: 4 * mib },
        ]
    );
}

#[test]
fn mapped_uploads_copy_every_byte_once() {
    for (base, n) in [(0x1000usize, 3usize << 20), (0x10_0000, 40 << 20), (0x1234, 100)] {
        let mut at = 0usize;
        for s in upload_pipelined(base, n) {
            if let UploadStep::Copy { off, len } = s {
                assert_eq!(off, at);
                at += len;
            }
        }
        assert_eq!(at, n);
    }
    let first = upload_pipelined(0x1234, 100);
    assert_eq!(
        first,
        vec![
            UploadStep::Advise { addr: 0x1000, len: 0x1000, advice: Advice::WillNeed },
            UploadStep::Copy { off: 0, len: 100 },
        ]
    );
}

#[test]
fn halves_come_low_byte_first() {
    assert_eq!(halves_of(&[1, 2, 3, 4, 5]), vec![0x0201, 0x0403]);
}

#[test]
fn constants_are_uploaded_once() {
    let mut a = acc();
    let key = ContentKey { hash: 11, len: 3 };
    let first = upload_map(a.cache(ConstMap::QNorm), ConstMap::QNorm, key, Host::QNorm);
    assert_eq!(first.len(), 4);
    for c in &first {
        match *c {
            Cmd::Mark(m) => a.record(m),
            Cmd::Ensure { slot, bytes } => {
                assert_eq!(bytes, 12);
                a.pool.ensure(slot, bytes, Some(0x42)).unwrap();
            }
            _ => {}
        }
    }
    assert!(a.cache(ConstMap::QNorm).has(key));
    assert!(!a.cache(ConstMap::KNorm).has(key));
    assert!(upload_map(a.cache(ConstMap::QNorm), ConstMap::QNorm, key, Host::QNorm).is_empty());
    let other = ContentKey { hash: 12, len: 3 };
    assert_eq!(upload_map(a.cache(ConstMap::QNorm), ConstMap::QNorm, other, Host::QNorm).len(), 4);
}

#[test]
fn a_full_family_starts_over() {
    let mut a = acc();
    for hash in 0..rawhip::consts::CONST_LIMIT as u64 {
        assert!(a.has_const_room(ConstMap::PleNk));
        a.pool.ensure(Slot::Const { map: ConstMap::PleNk, hash, len: 1 }, 4, Some(7)).unwrap();
        a.record(Mark::Const { map: ConstMap::PleNk, hash, len: 1 });
    }
    assert!(!a.has_const_room(ConstMap::PleNk));
    assert!(a.has_const_room(ConstMap::PleNq));
    let cmds = upload_map(
        a.cache(ConstMap::PleNk),
        ConstMap::PleNk,
        ContentKey { hash: 999, len: 1 },
        Host::Nk,
    );
    assert_eq!(cmds[0], Cmd::Mark(Mark::ConstClear { map: ConstMap::PleNk }));
    a.record(Mark::ConstClear { map: ConstMap::PleNk });
    assert!(a.cache(ConstMap::PleNk).keys.is_empty());
    assert!(a.has_const_room(ConstMap::PleNk));
    assert!(!a.pool.has(Slot::Const { map: ConstMap::PleNk, hash: 0, len: 1 }));
}

#[test]
fn hashed_and_keyed_slots() {
    assert_eq!(upload_hashed(5, 0, Slot::QsaIqw, 5, 2, Host::Nq).len(), 3);
    assert_eq!(upload_hashed(5, 1, Slot::QsaIqw, 6, 2, Host::Nq).len(), 3);
    assert!(upload_hashed(5, 1, Slot::QsaIqw, 5, 2, Host::Nq).is_empty());
    let key = HostKey { ptr: 64, len: 8 };
    assert!(upload_by_ptr(key, 1, Slot::Cst, key, Host::Cs).is_empty());
    assert_eq!(upload_by_ptr(key, 0, Slot::Cst, key, Host::Cs).len(), 3);
    let mut a = acc();
    a.record(Mark::Hashed { slot: Slot::QsaIqw, hash: 77 });
    a.record(Mark::Keyed { slot: Slot::Cst, ptr: 64, len: 8 });
    assert_eq!(a.iqw_hash, 77);
    assert_eq!(a.cst_key, key);
    assert_eq!(a.csidx_key, HostKey { ptr: 0, len: 0 });
}

#[test]
fn marks_remember_the_present_buffers() {
    let mut a = acc();
    a.pool.ensure(Slot::Fxq, 64, Some(0x900)).unwrap();
    let x = Ptr::Dev { base: 1, off: 0 };
    a.record(Mark::Quantised { x, rows: 4, generation: 0, xq_w: 88 });
    assert_eq!(
        a.quant_cache,
        Some(QuantCache { x, rows: 4, generation: 0, xq: Ptr::Dev { base: 0x900, off: 0 }, xq_w: 88 })
    );
    a.pool.ensure(Slot::Gyp, 64, Some(0xa00)).unwrap();
    a.record(Mark::GroupedOnDevice { generation: 0, rows: 4, bound: 36, ne: 2, pinned: true });
    let g = a.moe_group.as_ref().unwrap();
    assert_eq!(g.rows_pad_d, Ptr::Dev { base: 0xa00, off: 12 });
    assert_eq!(g.off_d, Ptr::Dev { base: 0xa00, off: 0 });
    assert!(g.pinned && g.off.is_empty() && g.rows_pad == 36);
}

#[test]
fn resetting_a_sequence_forgets_its_ring() {
    let mut a = acc();
    a.pool.ensure(Slot::PleRing { seq: 2 }, 64, Some(1)).unwrap();
    a.pool.ensure(Slot::PleRing { seq: 3 }, 64, Some(2)).unwrap();
    a.ring_pos.insert(2, 9);
    a.acc_reset_seq(2);
    assert!(!a.pool.has(Slot::PleRing { seq: 2 }));
    assert!(a.pool.has(Slot::PleRing { seq: 3 }));
    assert_eq!(a.ring_pos.get(2), None);
}
