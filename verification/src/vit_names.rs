//! Names of the tensors of the vision tower.

use vstd::prelude::*;

verus! {

/// The tensors of one block.
#[derive(Clone, Copy, PartialEq, Eq, Structural, Debug)]
pub enum VitPart {
    Ln1W,
    Ln1B,
    QkvW,
    QkvB,
    OutW,
    OutB,
    Ln2W,
    Ln2B,
    UpW,
    UpB,
    DownW,
    DownB,
}

/// The tensors of the tower.
#[derive(Clone, Copy, PartialEq, Eq, Structural, Debug)]
pub enum VitWeight {
    Block { il: usize, part: VitPart },
    PostLnW,
    PostLnB,
    Mm0W,
    Mm0B,
    Mm2W,
    Mm2B,
}

/// The last part of a block tensor's name.
pub open spec fn part_name(part: VitPart) -> Seq<char> {
    match part {
        VitPart::Ln1W => ".ln1.weight"@,
        VitPart::Ln1B => ".ln1.bias"@,
        VitPart::QkvW => ".attn_qkv.weight"@,
        VitPart::QkvB => ".attn_qkv.bias"@,
        VitPart::OutW => ".attn_out.weight"@,
        VitPart::OutB => ".attn_out.bias"@,
        VitPart::Ln2W => ".ln2.weight"@,
        VitPart::Ln2B => ".ln2.bias"@,
        VitPart::UpW => ".ffn_up.weight"@,
        VitPart::UpB => ".ffn_up.bias"@,
        VitPart::DownW => ".ffn_down.weight"@,
        VitPart::DownB => ".ffn_down.bias"@,
    }
}

fn part_str(part: VitPart) -> (r: &'static str)
    ensures
        r@ == part_name(part),
{
    match part {
        VitPart::Ln1W => ".ln1.weight",
        VitPart::Ln1B => ".ln1.bias",
        VitPart::QkvW => ".attn_qkv.weight",
        VitPart::QkvB => ".attn_qkv.bias",
        VitPart::OutW => ".attn_out.weight",
        VitPart::OutB => ".attn_out.bias",
        VitPart::Ln2W => ".ln2.weight",
        VitPart::Ln2B => ".ln2.bias",
        VitPart::UpW => ".ffn_up.weight",
        VitPart::UpB => ".ffn_up.bias",
        VitPart::DownW => ".ffn_down.weight",
        VitPart::DownB => ".ffn_down.bias",
    }
}

/// The decimal digits of a number, as ASCII bytes.
pub open spec fn decimal(n: int) -> Seq<u8>
    decreases n,
{
    if n < 10 {
        seq![(48 + n) as u8]
    } else {
        decimal(n / 10).push((48 + n % 10) as u8)
    }
}

fn push_decimal(out: &mut Vec<u8>, n: usize)
    ensures
        final(out)@ == old(out)@ + decimal(n as int),
    decreases n,
{
    if n >= 10 {
        push_decimal(out, n / 10);
    }
    out.push((48 + n % 10) as u8);
    proof {
        assert(out@ =~= old(out)@ + decimal(n as int));
    }
}

/// The bytes of a text.
pub open spec fn text(s: Seq<char>) -> Seq<u8> {
    vstd::utf8::encode_utf8(s)
}

/// The name of a tensor in the model file.
pub open spec fn weight_name(w: VitWeight) -> Seq<u8> {
    match w {
        VitWeight::Block { il, part } => text("v.blk."@) + decimal(il as int) + text(
            part_name(part),
        ),
        VitWeight::PostLnW => text("v.post_ln.weight"@),
        VitWeight::PostLnB => text("v.post_ln.bias"@),
        VitWeight::Mm0W => text("mm.0.weight"@),
        VitWeight::Mm0B => text("mm.0.bias"@),
        VitWeight::Mm2W => text("mm.2.weight"@),
        VitWeight::Mm2B => text("mm.2.bias"@),
    }
}

fn push_text(out: &mut Vec<u8>, s: &str)
    ensures
        final(out)@ == old(out)@ + text(s@),
{
    out.extend_from_slice(s.as_bytes());
    proof {
        assert(out@ =~= old(out)@ + text(s@));
    }
}

impl VitWeight {
    /// The bytes of the name.
    pub fn name(&self) -> (r: Vec<u8>)
        ensures
            r@ == weight_name(*self),
    {
        let mut r: Vec<u8> = Vec::new();
        match *self {
            VitWeight::Block { il, part } => {
                push_text(&mut r, "v.blk.");
                push_decimal(&mut r, il);
                push_text(&mut r, part_str(part));
            },
            VitWeight::PostLnW => push_text(&mut r, "v.post_ln.weight"),
            VitWeight::PostLnB => push_text(&mut r, "v.post_ln.bias"),
            VitWeight::Mm0W => push_text(&mut r, "mm.0.weight"),
            VitWeight::Mm0B => push_text(&mut r, "mm.0.bias"),
            VitWeight::Mm2W => push_text(&mut r, "mm.2.weight"),
            VitWeight::Mm2B => push_text(&mut r, "mm.2.bias"),
        }
        assert(r@ =~= weight_name(*self));
        r
    }
}

} // verus!
