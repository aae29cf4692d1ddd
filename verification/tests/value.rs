use rawhip::acc::Q4Acc;
use rawhip::device::{Cmd, Host, Slot};
use rawhip::error::AccError;
use rawhip::tuning::Tuning;
use rawhip::upload::Weight;
use rawhip::value::{check_rows, prepare_x, settle_paired};
use rawhip::{xq_words, GgmlType};

fn w(ty: GgmlType) -> Weight {
    Weight { key: 9, len: 4096, ty, n_in: 256, n_out: 10 }
}

#[test]
fn rows_are_copied_and_quantised() {
    let q = prepare_x(3, 256, false);
    assert!(q.iter().any(|c| matches!(c, Cmd::H2d { src: Host::X, bytes, .. } if *bytes == 3 * 1024)));
    assert!(q.iter().any(|c| matches!(c, Cmd::Ensure { slot: Slot::Xq, bytes } if *bytes == 3 * xq_words(256) * 4)));
    assert!(q.iter().any(|c| matches!(c, Cmd::Quant { t: 3, .. })));
    let plain = prepare_x(3, 256, true);
    assert!(!plain.iter().any(|c| matches!(c, Cmd::Quant { .. })));
}

#[test]
fn products_bring_the_weight_and_read_the_result() {
    let a = Q4Acc::new(Tuning::default());
    let c = a.matmul(vec![0; 256], &w(GgmlType::Q6K)).unwrap();
    assert!(c.contains(&Cmd::Weight { key: 9 }));
    assert!(c.iter().any(|c| matches!(c, Cmd::Gemv(m) if m.t == 1 && m.n_out == 10)));
    assert!(matches!(c.last(), Some(Cmd::D2h { dst: Host::Y, bytes: 40, .. })));
}

#[test]
fn batches_of_rows() {
    let a = Q4Acc::new(Tuning::default());
    let xs = vec![vec![0u32; 256]; 4];
    let c = a.matmul_batch(&xs, &w(GgmlType::Q6K)).unwrap();
    assert!(matches!(c.last(), Some(Cmd::D2h { dst: Host::Y, bytes: 160, .. })));
    assert_eq!(check_rows(&xs, 256), Ok(()));
    assert_eq!(check_rows(&xs, 255), Err(AccError::RowLength { len: 256, n_in: 255 }));
}

#[test]
fn lists_of_another_length_are_refused() {
    let a = Q4Acc::new(Tuning::default());
    let xs = vec![vec![0u32; 256]];
    let ws = vec![w(GgmlType::Q6K), w(GgmlType::Q6K)];
    assert_eq!(
        a.matmul_group(&xs, &ws, 1).err(),
        Some(AccError::GroupLength { ws: 2, outs: 1 })
    );
    assert_eq!(
        a.matmul_paired(xs, &ws, 2).err(),
        Some(AccError::PairedLength { ws: 2, xs: 1, outs: 2 })
    );
}

#[test]
fn groups_upload_their_rows_once() {
    let a = Q4Acc::new(Tuning::default());
    let xs = vec![vec![0u32; 256]; 3];
    let ws = vec![w(GgmlType::Q6K), w(GgmlType::Q8_0)];
    let g = a.matmul_group(&xs, &ws, 2).unwrap();
    assert!(g.stop.is_none());
    assert_eq!(g.steps.len(), 2);
    let uploads = |c: &Vec<Cmd>| c.iter().filter(|c| matches!(c, Cmd::H2d { .. })).count();
    assert_eq!((uploads(&g.steps[0]), uploads(&g.steps[1])), (1, 0));
    assert_eq!(g.steps[0], a.matmul_batch(&xs, &ws[0]).unwrap());
    let alone = a.matmul_batch(&xs, &ws[1]).unwrap();
    let prepared = prepare_x(3, 256, false).len();
    assert_eq!(g.steps[1], alone[prepared..].to_vec());
    assert!(a.matmul_group(&xs, &vec![], 0).unwrap().steps.is_empty());
    assert!(a.matmul_group(&vec![], &ws, 2).unwrap().steps.is_empty());
}

#[test]
fn mixed_groups_run_until_a_refusal() {
    let a = Q4Acc::new(Tuning::default());
    let xs = vec![vec![0u32; 256]];
    let long = Weight { n_in: 512, ..w(GgmlType::Q8_0) };
    let ws = vec![w(GgmlType::Q6K), long, w(GgmlType::F32)];
    let g = a.matmul_group(&xs, &ws, 3).unwrap();
    assert_eq!(g.steps, vec![a.matmul_batch(&xs, &ws[0]).unwrap()]);
    assert_eq!(g.stop, Some(AccError::RowLength { len: 256, n_in: 512 }));
    assert_eq!(
        a.matmul_group(&xs, &vec![long], 1).err(),
        Some(AccError::RowLength { len: 256, n_in: 512 })
    );
}

#[test]
fn pairs_before_a_refusal_run() {
    let a = Q4Acc::new(Tuning::default());
    let xs = vec![vec![1u32; 256], vec![2; 255], vec![3; 256]];
    let ws = vec![w(GgmlType::Q6K); 3];
    let p = a.matmul_paired(xs.clone(), &ws, 3).unwrap();
    assert_eq!(p.steps, vec![a.matmul(xs[0].clone(), &ws[0]).unwrap()]);
    assert_eq!(p.stop, Some(AccError::RowLength { len: 255, n_in: 256 }));
    let all = a.matmul_paired(vec![xs[0].clone(), xs[2].clone()], &ws[..2].to_vec(), 2).unwrap();
    assert_eq!(all.steps.len(), 2);
    assert!(all.stop.is_none());
}

#[test]
fn outputs_of_pairs_are_settled() {
    let before = vec![vec![1u32], vec![2], vec![3]];
    let mut failed = before.clone();
    settle_paired(&mut failed, vec![vec![7]], true);
    assert_eq!(failed, vec![vec![7], vec![], vec![3]]);
    let mut first = before.clone();
    settle_paired(&mut first, vec![], true);
    assert_eq!(first, vec![vec![], vec![2], vec![3]]);
    let mut whole = before.clone();
    settle_paired(&mut whole, vec![vec![7], vec![8], vec![9]], false);
    assert_eq!(whole, vec![vec![7], vec![8], vec![9]]);
}
