use rawhip::acc::Q4Acc;
use rawhip::consts::HostKey;
use rawhip::device::{Cmd, Host, Ptr, Slot};
use rawhip::error::AccError;
use rawhip::kernels::Call;
use rawhip::ops::{blocks, FrameOp, ONE};
use rawhip::recurrent::{argmax_tokens, RopeReq};
use rawhip::shared_expert::PleReq;
use rawhip::tuning::Tuning;
use rawhip::upload::Weight;
use rawhip::GgmlType;

fn acc(t: usize) -> Q4Acc {
    let mut a = Q4Acc::new(Tuning::default());
    for base in 1..=6u64 {
        a.frame_alloc(1 << 16, Some(base << 32)).unwrap();
    }
    a.frame_begin(t);
    a
}

fn shape(c: &Cmd) -> (&'static str, u32, u32, u32, u32) {
    match *c {
        Cmd::Launch(l) => (l.call.name(), l.gx, l.gy, l.gz, l.block),
        _ => panic!("not a launch"),
    }
}

fn names(cmds: &[Cmd]) -> Vec<&'static str> {
    cmds.iter()
        .filter_map(|c| match *c {
            Cmd::Launch(l) => Some(l.call.name()),
            _ => None,
        })
        .collect()
}

/// Input rows, a ring of two rows and output rows, each row as one number.
struct Taps {
    input: Vec<u64>,
    ring: [u64; 2],
    out: Vec<u64>,
}

impl Taps {
    fn row(&self, p: Ptr, base: u64, ch: usize) -> usize {
        match p {
            Ptr::Dev { base: b, off } if b == base << 32 => off / (ch * 4),
            _ => panic!("another frame"),
        }
    }

    fn ring_before(&self, at: usize, i: usize) -> [u64; 2] {
        let mut ring = self.ring;
        for x in &self.input[at..at + i] {
            ring = [ring[1], *x];
        }
        ring
    }

    fn mix(&mut self, at: usize, to: usize, t: usize) {
        for i in 0..t {
            let r = self.ring_before(at, i);
            self.out[to + i] = r[0] * 3 + r[1] * 5 + self.input[at + i] * 7;
        }
    }

    fn run(&mut self, cmds: &[Cmd], ch: usize) {
        for c in cmds {
            let Cmd::Launch(l) = *c else { panic!("not a launch") };
            match l.call {
                Call::GdnConv { qkv, out, .. } => {
                    let (at, to) = (self.row(qkv, 1, ch), self.row(out, 4, ch));
                    self.mix(at, to, 1);
                    self.ring = self.ring_before(at, 1);
                }
                Call::GdnConvT2 { qkv, out, t, .. } => {
                    let (at, to) = (self.row(qkv, 1, ch), self.row(out, 4, ch));
                    self.mix(at, to, t as usize);
                }
                Call::GdnConvState { qkv, t, .. } => {
                    self.ring = self.ring_before(self.row(qkv, 1, ch), t as usize);
                }
                _ => panic!("another kernel"),
            }
        }
    }
}

#[test]
fn convolutions_go_on_where_the_last_band_ended() {
    let (t, ch) = (12usize, 8usize);
    for k in [3usize, 5] {
        let op = |qkv, out, t_len| FrameOp::GdnConv { qkv, cw: 2, state: 3, out, ch, k, t_len };
        let fresh = || Taps { input: (1..=12).collect(), ring: [100, 200], out: vec![0; 12] };
        let mut whole = fresh();
        let one = acc(t).frame_op(&op(1, 4, t)).unwrap();
        assert_eq!(names(&one), vec!["gdn_conv_t2", "gdn_conv_state"]);
        whole.run(&one, ch);
        assert_eq!(whole.ring, [11, 12]);
        for per in [1usize, 2, 3, 4, 6] {
            let mut bands = fresh();
            for c in 0..t / per {
                let mut a = acc(per);
                let q = a.frame_slice(1, c * per * ch, per * ch).unwrap();
                let o = a.frame_slice(4, c * per * ch, per * ch).unwrap();
                let cmds = a.frame_op(&op(q, o, per)).unwrap();
                let expected = if per > 1 && per >= k - 1 { 2 } else { per };
                assert_eq!(cmds.len(), expected);
                bands.run(&cmds, ch);
            }
            assert_eq!(bands.out, whole.out);
            assert_eq!(bands.ring, whole.ring);
        }
    }
}

#[test]
fn elementwise_kernels_cover_their_values() {
    let mut a = acc(1);
    let c = a.frame_op(&FrameOp::SiluMul { g: 1, u: 2, out: 3, n: 300 }).unwrap();
    assert_eq!(shape(&c[0]), ("silu_mul", 3, 1, 1, 128));
    let s = a.frame_op(&FrameOp::Scale { t: 1, s: ONE, n: 128 }).unwrap();
    assert_eq!(shape(&s[0]).1, 1);
    assert_eq!(blocks(129, 128), 2);
    assert_eq!(ONE, 1.0f32.to_bits());
}

#[test]
fn kernels_get_their_frames_in_order() {
    let mut a = acc(1);
    let c = a.frame_op(&FrameOp::SiluMul { g: 3, u: 1, out: 2, n: 300 }).unwrap();
    match c[0] {
        Cmd::Launch(l) => match l.call {
            Call::SiluMul { g, u, out, n } => {
                assert_eq!(g, a.fptr(3).unwrap());
                assert_eq!(u, a.fptr(1).unwrap());
                assert_eq!(out, a.fptr(2).unwrap());
                assert_eq!(n, 300);
            }
            _ => panic!("another kernel"),
        },
        _ => panic!("not a launch"),
    }
}

#[test]
fn row_norms_take_two_passes() {
    let mut a = acc(3);
    let op = FrameOp::RmsRows { x: 1, w: 2, out: 3, eps: 0x3586_37bd, n: 2560, w_reps: 1 };
    let c = a.frame_op(&op).unwrap();
    assert_eq!(names(&c), vec!["rms_part", "rms_finish"]);
    let mut small = Q4Acc::new(Tuning { rms_small: true, ..Tuning::default() });
    for base in 1..=3u64 {
        small.frame_alloc(1 << 16, Some(base << 32)).unwrap();
    }
    assert_eq!(names(&small.frame_op(&op).unwrap()), vec!["rms_small"]);
}

#[test]
fn unknown_operations_and_frames_are_refused() {
    let mut a = acc(1);
    assert_eq!(a.frame_op(&FrameOp::Other).err(), Some(AccError::UnsupportedOp));
    assert_eq!(
        a.frame_op(&FrameOp::Sigmoid { t: 40, n: 3 }).err(),
        Some(AccError::FrameHandleMissing { h: 40 })
    );
    assert_eq!(
        a.frame_op(&FrameOp::Sigmoid { t: 0, n: 3 }).err(),
        Some(AccError::FrameHandleZero)
    );
}

#[test]
fn only_a_new_routing_counts() {
    let mut a = acc(1);
    a.frame_op(&FrameOp::Sigmoid { t: 1, n: 3 }).unwrap();
    assert_eq!(a.moe_gen, 0);
    a.frame_op(&FrameOp::MoeTop10 { route: 1, ids: 2, wt: 3, n_exp: 64, k_sel: 8 }).unwrap();
    assert_eq!(a.moe_gen, 1);
}

#[test]
fn recurrence_over_one_sequence() {
    let a = acc(1);
    let c = a.frame_gdn_ar(1, 2, 3, 4, 5, 6, 1, 16, 48, 128).unwrap();
    assert_eq!(names(&c), vec!["gdn_ar_w_swap"]);
    assert_eq!(
        a.frame_gdn_ar(1, 2, 3, 4, 5, 6, 2, 16, 48, 128).err(),
        Some(AccError::GdnArSequences)
    );
}

#[test]
fn recurrence_over_rows_takes_a_table_of_states() {
    let a = acc(2);
    let w = a.frame_gdn_conv_np(1, 2, &vec![3, 4], 5, 640, 4).unwrap();
    assert_eq!(w.states, vec![a.fptr(3).unwrap(), a.fptr(4).unwrap()]);
    assert_eq!(w.cmds[0], Cmd::Ensure { slot: Slot::Scratch, bytes: 16 });
    assert_eq!(shape(w.cmds.last().unwrap()), ("gdn_conv_np", 10, 2, 1, 64));
    let ar = a.frame_gdn_ar_np(1, 2, 3, 4, 5, &vec![6], 16, 48, 128).unwrap();
    assert_eq!(shape(ar.cmds.last().unwrap()), ("gdn_ar_w_np", 48, 128, 1, 32));
    let none = a.frame_gdn_ar_np(1, 2, 3, 4, 5, &vec![], 16, 48, 128).unwrap();
    assert!(none.cmds.is_empty());
}

#[test]
fn gather_and_scatter_of_routed_rows() {
    let a = acc(3);
    let g = a.frame_moe_gather(1, 2, 100, 4, 3).unwrap();
    assert_eq!(shape(&g[0]).0, "q4_moe_gather");
    let s = a.frame_moe_scatter(1, 2, 3, 4, 100, 3).unwrap();
    assert_eq!(shape(&s[0]), ("q4_moe_scatter", 3, 1, 1, 128));
}

#[test]
fn rotation_uploads_constants_once() {
    let a = acc(1);
    let rq = RopeReq { q: 1, k: 2, eps: 0, pos0: 5, n_head: 24, n_kv: 4, hd: 256, n_rot: 64, t: 1 };
    let cs = HostKey { ptr: 99, len: 64 };
    let c = a.frame_qk_norm_rope(&rq, &[1, 2], &[3], cs).unwrap();
    let uploads = c.iter().filter(|c| matches!(c, Cmd::H2d { .. })).count();
    assert_eq!(uploads, 3);
    assert_eq!(names(&c), vec!["qk_norm_rope"]);
}

#[test]
fn argmax_reads_one_record_per_row() {
    let a = acc(2);
    let c = a.frame_argmax_rows(1, 2, 70_000).unwrap();
    assert_eq!(names(&c), vec!["argmax_rows_s1", "argmax_rows_s2"]);
    assert!(matches!(c.last(), Some(Cmd::D2h { dst: Host::Records, bytes: 16, .. })));
    let mut records = Vec::new();
    for (v, i) in [(1.5f32, 7u32), (-2.0, 69_999)] {
        records.extend_from_slice(&v.to_le_bytes());
        records.extend_from_slice(&i.to_le_bytes());
    }
    assert_eq!(argmax_tokens(&records, 2), vec![7, 69_999]);
}

#[test]
fn shared_expert_takes_two_launches() {
    let a = acc(1);
    let w = |key: usize| Weight { key, len: 64, ty: GgmlType::Q8_0, n_in: 256, n_out: 64 };
    let up = a.shexp_gu(1, &w(1), &w(2), 3, 256, 64).unwrap();
    assert!(names(&up).contains(&"q4_shexp_gu"));
    let down = a.shexp_da(3, &w(3), 4, 5, 64, 256).unwrap();
    assert!(names(&down).contains(&"q4_shexp_da"));
}

fn ple(t: usize) -> PleReq {
    PleReq {
        res: 1,
        key: 2,
        value: 3,
        gated: 4,
        conv_out: 5,
        gate_out: 6,
        seq: 0,
        t,
        pos: 0,
        eps: 0x3586_37bd,
        n_embd: 128,
        hc: 4,
        kern: 4,
        dil: 1,
        hist: 3,
        host_ring: 3 * 512,
    }
}

fn loads_ring(cmds: &[Cmd]) -> bool {
    cmds.iter().any(|c| matches!(c, Cmd::H2d { src: Host::Ring, .. }))
}

fn ple_at(a: &mut Q4Acc, pos: usize) -> Vec<Cmd> {
    a.ple_math_dev(&PleReq { pos, ..ple(1) }, &[1], &[2], &[3], &[4]).unwrap()
}

#[test]
fn ring_is_loaded_once_per_sequence() {
    let mut a = acc(1);
    let first = ple_at(&mut a, 0);
    assert!(loads_ring(&first));
    assert_eq!(names(&first), vec!["q4_ple_gate", "q4_ple_conv", "q4_ple_residual"]);
    a.pool.ensure(Slot::PleRing { seq: 0 }, 3 * 512 * 4, Some(1)).unwrap();
    assert!(!loads_ring(&ple_at(&mut a, 1)));
    a.acc_reset_seq(0);
    assert!(loads_ring(&ple_at(&mut a, 2)));
}

#[test]
fn ring_is_loaded_again_after_a_rewind() {
    let mut a = acc(1);
    ple_at(&mut a, 10);
    a.pool.ensure(Slot::PleRing { seq: 0 }, 3 * 512 * 4, Some(1)).unwrap();
    assert_eq!(a.ring_pos.get(0), Some(11));
    assert!(!loads_ring(&ple_at(&mut a, 11)));
    assert_eq!(a.ring_pos.get(0), Some(12));
    assert!(loads_ring(&ple_at(&mut a, 11)));
    assert_eq!(a.ring_pos.get(0), Some(12));
    assert!(!loads_ring(&ple_at(&mut a, 12)));
    assert!(loads_ring(&ple_at(&mut a, 4)));
    assert_eq!(a.ring_pos.get(0), Some(5));
    assert!(!loads_ring(&ple_at(&mut a, 5)));
}

#[test]
fn pointers_move_by_bytes() {
    let p = Ptr::Buf { slot: Slot::Xf, off: 8 };
    assert_eq!(p.at(12), Ptr::Buf { slot: Slot::Xf, off: 20 });
    assert_eq!(Ptr::Null.at(5), Ptr::Null);
}

#[test]
fn embeddings_step_one_token_at_a_time() {
    let mut a = acc(1);
    assert_eq!(
        a.ple_math_dev(&ple(2), &[1], &[2], &[3], &[4]).err(),
        Some(AccError::PleTokens { t: 2 })
    );
    assert_eq!(a.ring_pos.get(0), None);
}
