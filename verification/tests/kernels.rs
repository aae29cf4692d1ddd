use rawhip::blocks::q4k_check_rows;
use rawhip::checks::pbuf;
use rawhip::device::{Arg, Cmd, Ptr, Slot};
use rawhip::families::{FlashKernel, TileKernel};
use rawhip::kernels::Call;
use rawhip::probe_misc::bw_place_test;
use rawhip::synth::Lcg;
use rawhip::{f32_family, ggml_id, GgmlType};

fn p(id: usize) -> Ptr {
    pbuf(id)
}

#[test]
fn arguments_keep_the_order_of_the_kernel() {
    let lut = Call::TileGemmLut {
        kern: TileKernel::XsV4,
        xq: p(1),
        w: p(2),
        out: p(3),
        lut: p(4),
        n_in: 5,
        n_out: 6,
        xq_w: 7,
        t: 8,
    };
    assert_eq!(lut.name(), "gemm_xs_v4");
    assert_eq!(
        lut.args(),
        vec![
            Arg::Ptr(p(1)),
            Arg::Ptr(p(2)),
            Arg::Ptr(p(3)),
            Arg::Ptr(p(4)),
            Arg::I32(5),
            Arg::I32(6),
            Arg::I32(7),
            Arg::I32(8),
        ]
    );
    let rope = Call::QkNormRope {
        q: p(0),
        k: p(1),
        q_norm: p(2),
        k_norm: p(3),
        cs: p(4),
        eps: 1.0f32.to_bits(),
        kq_scale: 2.0f32.to_bits(),
        pos0: 9,
        n_head: 24,
        n_kv: 4,
        hd: 256,
        n_rot: 64,
    };
    assert_eq!(rope.name(), "qk_norm_rope");
    let args = rope.args();
    assert_eq!(args.len(), 12);
    assert_eq!(args[5], Arg::F32(0x3f80_0000));
    assert_eq!(args[6], Arg::F32(0x4000_0000));
    assert_eq!(args[11], Arg::I32(64));
}

#[test]
fn attention_variants_differ_in_name_only() {
    let call = |kern| Call::Flash {
        kern,
        q: p(0),
        k: p(1),
        v: p(2),
        mask: p(3),
        part: p(4),
        n_past: 32,
        n_head: 24,
        n_kv: 4,
        hd: 256,
        t: 1,
        stride: 4096,
        pos0: 0,
        seg: 32,
    };
    let (a, b) = (call(FlashKernel::Gqa), call(FlashKernel::Gqa2));
    assert_eq!(a.name(), "qsa_flash_gqa");
    assert_eq!(b.name(), "qsa_flash_gqa2");
    assert_eq!(a.args(), b.args());
    assert_eq!(a.args()[4], Arg::Ptr(p(4)));
    assert_eq!(a.args().len(), 13);
}

#[test]
fn types_have_their_file_ids() {
    let ids: Vec<u32> = [
        GgmlType::F32,
        GgmlType::F16,
        GgmlType::Q5_1,
        GgmlType::Q8_0,
        GgmlType::Q3K,
        GgmlType::Q4K,
        GgmlType::Q5K,
        GgmlType::Q6K,
        GgmlType::Iq4Nl,
        GgmlType::Iq3S,
        GgmlType::Iq4Xs,
        GgmlType::Bf16,
        GgmlType::Other(99),
    ]
    .iter()
    .map(|t| ggml_id(*t))
    .collect();
    assert_eq!(ids, vec![0, 1, 7, 8, 11, 12, 13, 14, 20, 21, 23, 30, 99]);
    assert!(f32_family(GgmlType::F32) && f32_family(GgmlType::F16) && f32_family(GgmlType::Bf16));
    assert!(!f32_family(GgmlType::Q8_0));
}

#[test]
fn draws_are_the_upper_bits_of_the_generator() {
    let mut g = Lcg::new(1);
    let seed = 1u64.wrapping_mul(6364136223846793005).wrapping_add(1442695040888963407);
    assert_eq!(g.draw(), (seed >> 33) as u32);
    let next = seed.wrapping_mul(6364136223846793005).wrapping_add(1442695040888963407);
    assert_eq!(g.draw(), (next >> 33) as u32);
}

#[test]
fn placement_is_measured_by_streaming_a_buffer() {
    let t = bw_place_test(3);
    assert!(t.must && t.warmup == 1 && t.reps == 5);
    match t.cmd {
        Cmd::Launch(l) => {
            assert_eq!((l.gx, l.gy, l.gz, l.block), (4096, 1, 1, 256));
            assert_eq!(
                l.call.args(),
                vec![
                    Arg::Ptr(p(3)),
                    Arg::Ptr(Ptr::Buf { slot: Slot::Scratch, off: 0 }),
                    Arg::U64(263557120),
                ]
            );
        }
        _ => panic!("not a launch"),
    }
}

#[test]
fn check_rows_move_their_first_scale() {
    let rows = q4k_check_rows(2);
    assert_eq!(rows.len(), 288);
    assert_eq!(rows[..6], [0, 0x3c, 0, 0x38, 21, 42]);
    assert_eq!(rows[144..150], [0, 0x3c, 0, 0x38, 22, 42]);
    assert_eq!(rows[16], 11);
}
