use vstd::prelude::*;

verus! {

/// Storage types of a weight tensor. `Other` carries the id of a type that the
/// planner treats like any further block-quantised format.
#[derive(Clone, Copy, PartialEq, Eq, Structural, Debug)]
pub enum GgmlType {
    F32,
    F16,
    Q5_1,
    Q8_0,
    Q3K,
    Q4K,
    Q5K,
    Q6K,
    Iq4Nl,
    Iq3S,
    Iq4Xs,
    Bf16,
    Other(u32),
}

/// The numeric id of each type in the GGML file format.
pub open spec fn spec_ggml_id(ty: GgmlType) -> u32 {
    match ty {
        GgmlType::F32 => 0,
        GgmlType::F16 => 1,
        GgmlType::Q5_1 => 7,
        GgmlType::Q8_0 => 8,
        GgmlType::Q3K => 11,
        GgmlType::Q4K => 12,
        GgmlType::Q5K => 13,
        GgmlType::Q6K => 14,
        GgmlType::Iq4Nl => 20,
        GgmlType::Iq3S => 21,
        GgmlType::Iq4Xs => 23,
        GgmlType::Bf16 => 30,
        GgmlType::Other(id) => id,
    }
}

pub fn ggml_id(ty: GgmlType) -> (r: u32)
    ensures
        r == spec_ggml_id(ty),
{
    match ty {
        GgmlType::F32 => 0,
        GgmlType::F16 => 1,
        GgmlType::Q5_1 => 7,
        GgmlType::Q8_0 => 8,
        GgmlType::Q3K => 11,
        GgmlType::Q4K => 12,
        GgmlType::Q5K => 13,
        GgmlType::Q6K => 14,
        GgmlType::Iq4Nl => 20,
        GgmlType::Iq3S => 21,
        GgmlType::Iq4Xs => 23,
        GgmlType::Bf16 => 30,
        GgmlType::Other(id) => id,
    }
}

/// The types whose device copy is laid out as plain `f32`.
pub open spec fn spec_f32_family(ty: GgmlType) -> bool {
    ty == GgmlType::F32 || ty == GgmlType::Bf16 || ty == GgmlType::F16
}

pub fn f32_family(ty: GgmlType) -> (r: bool)
    ensures
        r == spec_f32_family(ty),
{
    matches!(ty, GgmlType::F32 | GgmlType::Bf16 | GgmlType::F16)
}

/// Row stride, in 32-bit words, of activations quantised to q8: four values per
/// word, then one scale per 32 values and one half sum per 16.
pub open spec fn spec_xq_words(n: int) -> int {
    n / 4 + n / 32 + n / 16
}

pub fn xq_words(n: usize) -> (r: usize)
    ensures
        r == spec_xq_words(n as int),
{
    n / 4 + n / 32 + n / 16
}

} // verus!
