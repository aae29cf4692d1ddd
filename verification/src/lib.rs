//! Host side of a HIP accelerator for a quantised language model.
//!
//! The crate decides everything that happens between a request ("multiply
//! these rows by that weight") and the device: which kernel runs, on which
//! grid, with which arguments, which buffers have to grow first, and what the
//! caches and watermarks remember afterwards. It performs no device work
//! itself. Every operation is planned as a sequence of device commands, which
//! a driver executes one by one.
//!
//! Single-precision values appear as their 32-bit patterns throughout.

pub mod acc;
pub mod arith;
pub mod attn_laws;
pub mod blocks;
pub mod checks;
pub mod compare;
pub mod consts;
pub mod conv_laws;
pub mod device;
pub mod error;
pub mod expert_laws;
pub mod expert_runs;
pub mod experts;
pub mod f16_map;
pub mod families;
pub mod frame_mm;
pub mod frames;
pub mod gemm;
pub mod gemm_laws;
pub mod ggml;
pub mod grid_laws;
pub mod grids;
pub mod group;
pub mod group_laws;
pub mod half;
pub mod hash;
pub mod host_laws;
pub mod kernel_effects;
pub mod kernels;
pub mod key_map;
pub mod layer_laws;
pub mod memory;
pub mod moe;
pub mod moe_diag;
pub mod moe_down;
pub mod moe_grouped;
pub mod moe_laws;
pub mod moe_steps;
pub mod op_laws;
pub mod ops;
pub mod pool;
pub mod probe_attn;
pub mod probe_gdn;
pub mod probe_gemm;
pub mod probe_misc;
pub mod probe_tiles;
pub mod product_groups;
pub mod product_laws;
pub mod product_runs;
pub mod q8;
pub mod qsa_attn;
pub mod qsa_pool;
pub mod qsa_sel;
pub mod record;
pub mod recurrence_laws;
pub mod recurrent;
pub mod room_laws;
pub mod routing_laws;
pub mod score_laws;
pub mod selection_laws;
pub mod shared_expert;
pub mod step_laws;
pub mod synth;
pub mod table_laws;
pub mod tuning;
pub mod upload;
pub mod upload_runs;
pub mod value;
pub mod vit;
pub mod vit_laws;
pub mod vit_names;

pub use crate::arith::{ceil_div, spec_ceil_div};
pub use crate::ggml::{f32_family, ggml_id, xq_words, GgmlType};
