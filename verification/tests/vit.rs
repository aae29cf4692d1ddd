use rawhip::device::{Cmd, Ptr};
use rawhip::error::AccError;
use rawhip::vit::{buffer_words, merge_tokens, Vit, VitBufs, VitShape, VitTemps, VitTensor};
use rawhip::vit_names::{VitPart, VitWeight};

fn shape() -> VitShape {
    VitShape { n_embd: 64, n_head: 4, n_ff: 128, n_blk: 2, eps: 0x3586_37bd, patch: 16, t_max: 64 }
}

fn all() -> Vec<VitWeight> {
    let parts = [
        VitPart::Ln1W,
        VitPart::Ln1B,
        VitPart::QkvW,
        VitPart::QkvB,
        VitPart::OutW,
        VitPart::OutB,
        VitPart::Ln2W,
        VitPart::Ln2B,
        VitPart::UpW,
        VitPart::UpB,
        VitPart::DownW,
        VitPart::DownB,
    ];
    let mut v = Vec::new();
    for il in 0..2usize {
        for part in parts {
            v.push(VitWeight::Block { il, part });
        }
    }
    v.extend([
        VitWeight::PostLnW,
        VitWeight::PostLnB,
        VitWeight::Mm0W,
        VitWeight::Mm0B,
        VitWeight::Mm2W,
        VitWeight::Mm2B,
    ]);
    v
}

fn tower(weights: &[VitWeight]) -> Vit {
    let w = weights
        .iter()
        .enumerate()
        .map(|(i, id)| VitTensor { name: id.name(), ptr: 100 + i as u64, rows: 64, ni: 64 })
        .collect();
    let bufs = VitBufs { x: 1, xn: 2, qkv: 3, attn: 4, proj: 5, mid: 6, yx: 7, kvs: 8 };
    Vit::new(shape(), w, bufs)
}

fn count(cmds: &[Cmd], kern: &str) -> usize {
    cmds.iter().filter(|c| matches!(c, Cmd::Launch(l) if l.call.name() == kern)).count()
}

#[test]
fn tensors_are_found_by_name() {
    assert_eq!(VitWeight::Block { il: 12, part: VitPart::QkvB }.name(), b"v.blk.12.attn_qkv.bias");
    assert_eq!(VitWeight::PostLnW.name(), b"v.post_ln.weight");
    assert_eq!(VitWeight::Mm2B.name(), b"mm.2.bias");
    let v = tower(&all());
    assert_eq!(v.wt(VitWeight::Block { il: 0, part: VitPart::Ln1B }).unwrap().ptr, Ptr::Dev { base: 101, off: 0 });
    assert_eq!(v.d_head, 16);
}

#[test]
fn buffers_hold_the_longest_image() {
    let b = buffer_words(&shape());
    assert_eq!(b.len(), 8);
    assert_eq!(b[0], 64 * 64);
    assert_eq!(b[2], 64 * 64 * 3);
}

#[test]
fn every_block_runs() {
    let v = tower(&all());
    let c = v.forward(16 * 64, 32, 0x3f80_0000).unwrap();
    assert_eq!(count(&c, "flash_vit"), 2);
    assert_eq!(count(&c, "vit_rope"), 4);
    assert_eq!(count(&c, "layernorm_t"), 4 + 1);
    assert_eq!(count(&c, "gelu_t"), 2);
    assert_eq!(count(&c, "gemm_f32t"), 8);
}

#[test]
fn a_missing_tensor_is_named() {
    let weights: Vec<VitWeight> = all()
        .into_iter()
        .filter(|w| *w != VitWeight::Block { il: 1, part: VitPart::UpW })
        .collect();
    let v = tower(&weights);
    assert_eq!(
        v.forward(16 * 64, 32, 0).err(),
        Some(AccError::VitWeightMissing { w: VitWeight::Block { il: 1, part: VitPart::UpW } })
    );
}

#[test]
fn large_images_are_refused() {
    let big = VitShape { t_max: 4096, ..shape() };
    let w = all().iter().map(|id| VitTensor { name: id.name(), ptr: 1, rows: 64, ni: 64 }).collect();
    let bufs = VitBufs { x: 1, xn: 2, qkv: 3, attn: 4, proj: 5, mid: 6, yx: 7, kvs: 8 };
    let v = Vit::new(big, w, bufs);
    assert_eq!(v.forward(2305 * 64, 2 * 2305, 0).err(), Some(AccError::VitTokens { t: 2305 }));
}

#[test]
fn projection_merges_two_by_two() {
    let v = tower(&all());
    let tmp = VitTemps { merger: 11, mid: 12, out: 13 };
    let c = v.project(16, tmp).unwrap();
    assert_eq!(count(&c, "gemm_f32t"), 2);
    let tokens: Vec<u32> = (0..8).collect();
    let merged = merge_tokens(&tokens, 2, 4);
    assert_eq!(merged.len(), 8);
}
