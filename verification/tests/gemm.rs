use rawhip::acc::Q4Acc;
use rawhip::device::{Attempt, Cmd, MatMul, Next, Ptr, Slot};
use rawhip::error::AccError;
use rawhip::gemm::{
    gemm_f32_dual, gemm_mix_dual, gemm_q8_dual, launch_gemm, launch_gemm_f32, GRID_Y,
};
use rawhip::kernels::Call;
use rawhip::tuning::Tuning;
use rawhip::upload::Weight;
use rawhip::value::{flatten_rows, split_rows};
use rawhip::{ceil_div, xq_words, GgmlType};

const X: Ptr = Ptr::Dev { base: 1, off: 0 };
const W: Ptr = Ptr::Weight { key: 7, off: 0 };
const Y: Ptr = Ptr::Dev { base: 2, off: 0 };

fn product(ty: u32, t: usize) -> MatMul {
    MatMul { ty, x: X, w: W, n_in: 512, n_out: 100, xq_w: xq_words(512), t, out: Y }
}

fn grid(c: &Cmd) -> (&'static str, u32, u32, u32, u32, u32) {
    match *c {
        Cmd::Launch(l) => (l.call.name(), l.gx, l.gy, l.gz, l.block, l.smem),
        _ => panic!("not a launch"),
    }
}

/// The commands that take effect where the device accepts those that `ok` names.
fn run(prog: &[Cmd], ok: impl Fn(usize) -> bool) -> Vec<usize> {
    let mut pc = 0;
    let mut done = Vec::new();
    while pc < prog.len() {
        if ok(pc) {
            done.push(pc);
        }
        match prog[pc].advance(pc, ok(pc)) {
            Next::Goto(n) => pc = n,
            Next::Fail => return done,
        }
    }
    done
}

#[test]
fn few_rows_take_the_row_wise_kernel() {
    let t = Tuning::default();
    assert_eq!(launch_gemm(&t, product(14, 3)), vec![Cmd::Gemv(product(14, 3))]);
    let off = Tuning { no_tile: true, ..Tuning::default() };
    assert_eq!(launch_gemm(&off, product(14, 64)), vec![Cmd::Gemv(product(14, 64))]);
    let pin = Tuning { prefill_pin: true, ..Tuning::default() };
    assert_eq!(launch_gemm(&pin, product(14, 3)).len(), 2);
}

#[test]
fn tiles_take_all_rows_or_128_at_a_time() {
    let t = Tuning::default();
    let all = launch_gemm(&t, product(14, 300));
    assert_eq!(
        all,
        vec![
            Cmd::Try { call: Attempt::Tile(product(14, 300)), on_ok: 1, on_err: 0 },
            Cmd::Gemv(product(14, 300)),
        ]
    );
    let parts = launch_gemm(&t, product(21, 300));
    assert_eq!(parts.len(), 4);
    let mut rows = 0usize;
    for c in &parts[..3] {
        match *c {
            Cmd::Try { call: Attempt::Tile(m), .. } => {
                assert_eq!(m.x, X.at(rows * xq_words(512) * 4));
                assert_eq!(m.out, Y.at(rows * 100 * 4));
                rows += m.t;
            }
            _ => panic!("not a tile call"),
        }
    }
    assert_eq!(rows, 300);
}

#[test]
fn five_types_take_all_rows_in_one_call() {
    let t = Tuning::default();
    for ty in [8u32, 13, 14, 23] {
        assert_eq!(
            launch_gemm(&t, product(ty, 200)),
            vec![
                Cmd::Try { call: Attempt::Tile(product(ty, 200)), on_ok: 1, on_err: 0 },
                Cmd::Gemv(product(ty, 200)),
            ]
        );
    }
    assert_eq!(launch_gemm(&t, product(11, 200)).len(), 3);
}

#[test]
fn accepted_tiles_skip_the_fallback() {
    let p = launch_gemm(&Tuning::default(), product(21, 300));
    assert_eq!(run(&p, |_| true), vec![0, 1, 2]);
    assert_eq!(run(&p, |pc| pc != 0), vec![3]);
    assert_eq!(run(&p, |pc| pc != 1), vec![0, 3]);
    assert_eq!(run(&p, |pc| pc != 2), vec![0, 1, 3]);
}

#[test]
fn q5_1_products_have_kernels_of_their_own() {
    let few = launch_gemm(&Tuning::default(), product(7, 3));
    assert_eq!(few[0], Cmd::Ensure { slot: Slot::Scratch, bytes: 100 * 512 });
    assert_eq!(grid(&few[1]), ("q4_gemm_q5_1_t", 1, 25, 1, 256, 0));
    let many = launch_gemm(&Tuning::default(), product(7, 33));
    assert_eq!(grid(&many[1]), ("q4_gemm_q5_1_m", 7, 3, 1, 256, 16 * 16 * 24));
    let exact = Tuning { q51_exact: true, ..Tuning::default() };
    assert_eq!(grid(&launch_gemm(&exact, product(7, 33))[1]).0, "q4_gemm_q5_1_t");
}

#[test]
fn q4k_batches_follow_the_switches() {
    let base = Tuning { q4k_mmq: true, ..Tuning::default() };
    let m = launch_gemm(&base, product(12, 33));
    assert_eq!(grid(&m[1]), ("q4_gemm_q4k_m", 7, 3, 1, 256, 0));
    let y = Tuning { q4k_y: true, q4k_y_rows: Some(8), ..base };
    let py = launch_gemm(&y, product(12, 33));
    assert_eq!(py[0], Cmd::Zero { dst: Y, words: 3300 });
    assert_eq!(grid(&py[2]), ("q4_gemm_q4k_y", 1, 5, 1, 256, 0));
    let x = Tuning { q4k_x: true, ..base };
    assert_eq!(grid(&launch_gemm(&x, product(12, 33))[1]).0, "q4_gemm_q4k_x");
    let g = Tuning { q4k_shape: Some((Some(32), None)), ..base };
    assert_eq!(grid(&launch_gemm(&g, product(12, 33))[1]), ("q4_gemm_q4k_g", 4, 3, 1, 512, 0));
    assert_eq!(launch_gemm(&base, product(12, 3)), vec![Cmd::Gemv(product(12, 3))]);
}

#[test]
fn plain_products_choose_by_batch() {
    let f = |n_in, n_out, t| grid(&launch_gemm_f32(X, W, n_in, n_out, t, Y));
    assert_eq!(f(512, 100, 16), ("q4_gemm_f32_m", 7, 1, 1, 256, 0));
    assert_eq!(f(512, 100, 1), ("q4_gemm_f32_w", 13, 1, 1, 256, 0));
    assert_eq!(f(512, 100, 8), ("q4_gemm_f32_mt", 13, 1, 1, 256, 0));
    assert_eq!(f(511, 100, 1), ("q4_gemm_f32", 1, 100, 1, 64, 0));
    assert_eq!(f(512, 70000, 9), ("q4_gemm_f32", 9, 65535, 2, 64, 0));
}

#[test]
fn grids_cover_all_blocks() {
    for n in [1usize, 65535, 65536, 200000] {
        let (_, _, gy, gz, _, _) = grid(&gemm_q8_dual(X, W, n - 1, Y, W, 1, Y, 256));
        assert!(gy as usize <= GRID_Y && gy as usize * gz as usize >= n);
    }
}

#[test]
fn fused_pairs() {
    assert_eq!(grid(&gemm_q8_dual(X, W, 30, Y, W, 12, Y, 256)), ("gemm_q8_0_dual", 1, 42, 1, 64, 0));
    assert_eq!(grid(&gemm_f32_dual(X, W, 30, Y, W, 12, Y, 256)).1, ceil_div(42, 8) as u32);
    assert_eq!(grid(&gemm_mix_dual(X, W, 30, Y, X, W, 12, Y, 256)).1, 32);
    match gemm_mix_dual(X, W, 30, Y, X, W, 12, Y, 256) {
        Cmd::Launch(l) => match l.call {
            Call::GemmMixDual { n_out8, n_out4, n_in, xq_w, .. } => {
                assert_eq!((n_out8, n_out4, n_in, xq_w), (30, 12, 256, xq_words(256) as i32));
            }
            _ => panic!("another kernel"),
        },
        _ => panic!("not a launch"),
    }
}

fn w(key: usize, ty: GgmlType, n_out: usize) -> Weight {
    Weight { key, len: 256, ty, n_in: 256, n_out }
}

fn framed() -> Q4Acc {
    let mut a = Q4Acc::new(Tuning::default());
    for base in 1..=5u64 {
        a.frame_alloc(4096, Some(base * 0x10000)).unwrap();
    }
    a
}

#[test]
fn neighbouring_products_of_one_row_are_fused() {
    let a = framed();
    let ws = vec![w(1, GgmlType::Q8_0, 8), w(2, GgmlType::Q8_0, 16), w(3, GgmlType::F32, 4)];
    let plan = a.frame_mm_group(1, &ws, &vec![2, 3, 4], 1).unwrap();
    assert!(plan.stop.is_none());
    let names: Vec<&str> = plan
        .cmds
        .iter()
        .filter_map(|c| match *c {
            Cmd::Launch(l) => Some(l.call.name()),
            _ => None,
        })
        .collect();
    assert_eq!(names[0], "gemm_q8_0_dual");
    assert_eq!(names.len(), 2);
}

#[test]
fn groups_run_until_an_invalid_frame() {
    let a = framed();
    let ws = vec![w(1, GgmlType::Q6K, 8), w(2, GgmlType::F32, 16), w(3, GgmlType::Q6K, 4)];
    let plan = a.frame_mm_group(1, &ws, &vec![2, 40, 4], 1).unwrap();
    assert_eq!(plan.stop, Some(AccError::FrameHandleMissing { h: 40 }));
    assert_eq!(plan.cmds, a.frame_mm(1, &ws[0], 2, 1).unwrap());
    let pair = vec![w(1, GgmlType::Q8_0, 8), w(2, GgmlType::Q8_0, 16), w(3, GgmlType::F32, 4)];
    let fused = a.frame_mm_group(1, &pair, &vec![2, 0, 4], 1).unwrap();
    assert_eq!(fused.stop, Some(AccError::FrameHandleZero));
    assert_eq!(fused.cmds, vec![Cmd::Weight { key: 1 }, Cmd::Weight { key: 2 }]);
    assert_eq!(
        a.frame_mm_group(40, &ws, &vec![2, 3, 4], 1).err(),
        Some(AccError::FrameHandleMissing { h: 40 })
    );
}

#[test]
fn groups_serve_every_weight_once() {
    let a = framed();
    let ws = vec![
        w(1, GgmlType::Q8_0, 8),
        w(2, GgmlType::Q8_0, 16),
        w(3, GgmlType::F32, 4),
        w(4, GgmlType::F32, 4),
    ];
    let plan = a.frame_mm_group(1, &ws, &vec![2, 3, 4, 5], 1).unwrap();
    let keys: Vec<usize> = plan
        .cmds
        .iter()
        .filter_map(|c| match *c {
            Cmd::Weight { key } => Some(key),
            _ => None,
        })
        .collect();
    assert_eq!(keys, vec![1, 2, 3, 4]);
    let launches = plan.cmds.iter().filter(|c| matches!(c, Cmd::Launch(_))).count();
    assert_eq!(launches, 2);
}

/// Device memory: the content of the row that starts at an address.
struct Rows {
    at: Vec<(Ptr, u64)>,
}

impl Rows {
    fn get(&self, p: Ptr) -> u64 {
        self.at.iter().rev().find(|e| e.0 == p).map_or(0, |e| e.1)
    }

    fn multiply(&mut self, x: Ptr, row: usize, w: Ptr, out: Ptr, n_out: usize, t: usize) {
        let key = match w {
            Ptr::Weight { key, .. } => key as u64,
            _ => panic!("not a weight"),
        };
        for i in 0..t {
            let r = self.get(x.at(i * row)).wrapping_mul(1_000_003).wrapping_add(key);
            self.at.push((out.at(i * n_out * 4), r));
        }
    }

    fn quantise(&mut self, x: Ptr, n_in: usize, to: Ptr, row: usize, t: usize) {
        for i in 0..t {
            let r = self.get(x.at(i * n_in * 4)).rotate_left(9) ^ 0x55;
            self.at.push((to.at(i * row), r));
        }
    }

    fn attempt(&mut self, a: Attempt) {
        match a {
            Attempt::Tile(m) => self.multiply(m.x, m.xq_w * 4, m.w, m.out, m.n_out, m.t),
            Attempt::Mmq(m) => {
                let own = Ptr::Dev { base: 0x77_0000, off: 0 };
                self.quantise(m.x, m.n_in, own, 8, m.t);
                self.multiply(own, 8, m.w, m.out, m.n_out, m.t);
            }
            _ => panic!("another attempt"),
        }
    }

    fn launch(&mut self, c: Call, gx: usize) {
        match c {
            Call::GemmF32M { x, w, out, n_out, stride, t, .. } => {
                self.multiply(x, stride as usize * 4, w, out, n_out as usize, t as usize);
            }
            Call::GemmF32W { x, w, out, n_in, n_out } => {
                self.multiply(x, n_in as usize * 4, w, out, n_out as usize, 1);
            }
            Call::GemmF32Mt { x, w, out, n_in, n_out, t } => {
                self.multiply(x, n_in as usize * 4, w, out, n_out as usize, t as usize);
            }
            Call::GemmF32 { x, w, out, n_out, stride, .. } => {
                self.multiply(x, stride as usize * 4, w, out, n_out as usize, gx);
            }
            Call::GemmQ51M { xq, w, out, n_out, xq_w, t, .. }
            | Call::GemmQ51T { xq, w, out, n_out, xq_w, t, .. } => {
                self.multiply(xq, xq_w as usize * 4, w, out, n_out as usize, t as usize);
            }
            Call::GemmQ8Dual { xq, w1, w2, out1, out2, n_out1, n_out2, .. } => {
                self.multiply(xq, 0, w1, out1, n_out1 as usize, 1);
                self.multiply(xq, 0, w2, out2, n_out2 as usize, 1);
            }
            Call::GemmF32Dual { x, w1, out1, w2, out2, n_out1, n_out2, .. } => {
                self.multiply(x, 0, w1, out1, n_out1 as usize, 1);
                self.multiply(x, 0, w2, out2, n_out2 as usize, 1);
            }
            Call::GemmMixDual { xq, w8, out8, n_out8, x, w4, out4, n_out4, .. } => {
                self.multiply(xq, 0, w8, out8, n_out8 as usize, 1);
                self.multiply(x, 0, w4, out4, n_out4 as usize, 1);
            }
            _ => panic!("another kernel"),
        }
    }

    /// Runs a program on a device that refuses every attempt whose number `refuse` names.
    fn run(&mut self, prog: &[Cmd], refuse: impl Fn(usize) -> bool) {
        let mut pc = 0;
        while pc < prog.len() {
            match prog[pc] {
                Cmd::Quant { x, xq, n_in, xq_w, t } => self.quantise(x, n_in, xq, xq_w * 4, t),
                Cmd::Gemv(m) => self.multiply(m.x, m.xq_w * 4, m.w, m.out, m.n_out, m.t),
                Cmd::Must(a) => self.attempt(a),
                Cmd::Try { call, .. } => {
                    if !refuse(pc) {
                        self.attempt(call);
                    }
                }
                Cmd::Launch(l) => self.launch(l.call, l.gx as usize),
                Cmd::Weight { .. } | Cmd::Ensure { .. } => {}
                _ => panic!("another command"),
            }
            let ok = !(matches!(prog[pc], Cmd::Try { .. }) && refuse(pc));
            match prog[pc].advance(pc, ok) {
                Next::Goto(n) => pc = n,
                Next::Fail => panic!("refused"),
            }
        }
    }
}

fn filled(t: usize) -> Rows {
    let x = Ptr::Dev { base: 0x10000, off: 0 };
    Rows { at: (0..t).map(|i| (x.at(i * 1024), 100 + i as u64)).collect() }
}

#[test]
fn groups_leave_what_single_products_leave() {
    let (q8, f, q6, q5) = (GgmlType::Q8_0, GgmlType::F32, GgmlType::Q6K, GgmlType::Q5_1);
    let groups = [
        vec![w(1, q8, 8), w(2, q8, 4), w(3, q6, 4), w(4, q5, 2)],
        vec![w(1, q8, 8), w(2, f, 4), w(3, f, 4), w(4, f, 2)],
        vec![w(1, q8, 8), w(2, q8, 4), w(3, f, 4), w(4, q6, 2)],
        vec![w(1, q6, 8), w(2, q5, 4), w(3, q8, 4), w(4, f, 2)],
    ];
    let outs = vec![2u64, 3, 4, 5];
    for on in [false, true] {
        let mut a = framed();
        a.retune(Tuning { q4_mmq: on, q8_mmq: on, ..Tuning::default() });
        for ws in &groups {
            for t in [1usize, 3, 20, 200] {
                let plan = a.frame_mm_group(1, ws, &outs, t).unwrap();
                assert!(plan.stop.is_none());
                for third in [false, true] {
                    let mut group = filled(t);
                    group.run(&plan.cmds, |pc| third && pc % 3 == 0);
                    for (w, &h) in ws.iter().zip(&outs) {
                        let mut single = filled(t);
                        single.run(&a.frame_mm(1, w, h, t).unwrap(), |pc| !third && pc % 2 == 0);
                        let out = Ptr::Dev { base: h * 0x10000, off: 0 };
                        for i in 0..t {
                            let p = out.at(i * w.n_out * 4);
                            assert_eq!(group.get(p), single.get(p));
                            assert_ne!(group.get(p), 0);
                        }
                    }
                }
            }
        }
    }
}

#[test]
fn group_lengths_have_to_agree() {
    let a = framed();
    let ws = vec![w(1, GgmlType::Q8_0, 8)];
    assert_eq!(
        a.frame_mm_group(1, &ws, &vec![2, 3], 1).err(),
        Some(AccError::FrameGroupLength { ws: 1, outs: 2 })
    );
    assert_eq!(a.frame_mm(9, &ws[0], 2, 1).err(), Some(AccError::FrameHandleMissing { h: 9 }));
}

#[test]
fn rows_flatten_and_split() {
    let rows = vec![vec![1, 2, 3], vec![4, 5, 6]];
    let flat = flatten_rows(&rows, 3).unwrap();
    assert_eq!(flat, vec![1, 2, 3, 4, 5, 6]);
    assert_eq!(split_rows(&flat, 3), rows);
}

#[test]
fn host_rows_of_another_length_are_refused() {
    let a = framed();
    let xs = vec![vec![0u32; 255]];
    assert_eq!(
        a.batch_into(&xs, &w(1, GgmlType::Q8_0, 8), 0).err(),
        Some(AccError::RowLength { len: 255, n_in: 256 })
    );
}
