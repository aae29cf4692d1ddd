use vstd::prelude::*;

verus! {

/// Switches that select between equivalent ways to run an operation. A driver
/// reads them from its environment.
#[derive(Clone, Copy, Debug)]
pub struct Tuning {
    /// Use the tiled q4_K kernels for batches.
    pub q4k_mmq: bool,
    /// Use the q4_K kernels of a chosen shape.
    pub q4k_outs: bool,
    pub q4k_y: bool,
    /// Rows per tile of the row-batched q4_K kernel, 16 where not given.
    pub q4k_y_rows: Option<usize>,
    pub q4k_x: bool,
    /// Outputs and rows per block of the q4_K kernel of free shape: given only
    /// where both are set, each 16 where it is not a number.
    pub q4k_shape: Option<(Option<usize>, Option<usize>)>,
    /// Keep the q5_1 summation order of the scalar reference.
    pub q51_exact: bool,
    /// Never use the tile kernels.
    pub no_tile: bool,
    /// A prefill is pinned to the tile kernels, whatever the batch size.
    pub prefill_pin: bool,
    pub q4_mmq: bool,
    pub q8_mmq: bool,
    pub f16_acc: bool,
    /// Do not fuse neighbouring products.
    pub no_dual: bool,
    /// Always group routed rows by expert.
    pub moe_grouped: bool,
    /// Splits of the inner dimension, 4 where not given.
    pub moe_ksplit: Option<u32>,
    pub q51_ids_off: bool,
    pub q8_ids_off: bool,
    pub group_dev_off: bool,
    /// Group on the device for batches too.
    pub group_prefill: bool,
    pub group_no_d2h: bool,
    pub group_sync: bool,
    /// Skip the expert products (cost breakdown; the output is void).
    pub skip_moe: bool,
    pub rms_small: bool,
    /// Keep attention off the device.
    pub qsa_cpu: bool,
    pub qsa_split_off: bool,
    /// Upper limit of attention splits, 64 where not given.
    pub qsa_split_cap: Option<usize>,
    pub qsa_h6_off: bool,
    pub idx_topk_off: bool,
}

impl Tuning {
    /// Rows per tile of the row-batched q4_K kernel.
    pub open spec fn spec_y_rows(&self) -> usize {
        match self.q4k_y_rows {
            Some(r) => r,
            None => 16,
        }
    }

    pub fn y_rows(&self) -> (r: usize)
        ensures
            r == self.spec_y_rows(),
    {
        match self.q4k_y_rows {
            Some(r) => r,
            None => 16,
        }
    }

    /// Outputs and rows per block of the q4_K kernel of free shape.
    pub open spec fn spec_shape(&self) -> Option<(usize, usize)> {
        match self.q4k_shape {
            Some((outs, rows)) => Some(
                (
                    match outs {
                        Some(n) => n,
                        None => 16usize,
                    },
                    match rows {
                        Some(n) => n,
                        None => 16usize,
                    },
                ),
            ),
            None => None,
        }
    }

    pub fn shape(&self) -> (r: Option<(usize, usize)>)
        ensures
            r == self.spec_shape(),
    {
        match self.q4k_shape {
            Some((outs, rows)) => {
                let o: usize = match outs {
                    Some(n) => n,
                    None => 16,
                };
                let w: usize = match rows {
                    Some(n) => n,
                    None => 16,
                };
                Some((o, w))
            },
            None => None,
        }
    }

    /// No tile dimension is zero, and a block's threads can be counted.
    pub open spec fn usable(&self) -> bool {
        &&& self.spec_y_rows() > 0
        &&& match self.spec_shape() {
            Some((outs, rows)) => outs > 0 && rows > 0 && outs * rows <= usize::MAX,
            None => true,
        }
    }
}

/// All switches off.
impl Default for Tuning {
    fn default() -> (r: Tuning)
        ensures
            r.usable(),
            r == spec_default_tuning(),
    {
        Tuning {
            q4k_mmq: false,
            q4k_outs: false,
            q4k_y: false,
            q4k_y_rows: None,
            q4k_x: false,
            q4k_shape: None,
            q51_exact: false,
            no_tile: false,
            prefill_pin: false,
            q4_mmq: false,
            q8_mmq: false,
            f16_acc: false,
            no_dual: false,
            moe_grouped: false,
            moe_ksplit: None,
            q51_ids_off: false,
            q8_ids_off: false,
            group_dev_off: false,
            group_prefill: false,
            group_no_d2h: false,
            group_sync: false,
            skip_moe: false,
            rms_small: false,
            qsa_cpu: false,
            qsa_split_off: false,
            qsa_split_cap: None,
            qsa_h6_off: false,
            idx_topk_off: false,
        }
    }
}

pub open spec fn spec_default_tuning() -> Tuning {
    Tuning {
        q4k_mmq: false,
        q4k_outs: false,
        q4k_y: false,
        q4k_y_rows: None,
        q4k_x: false,
        q4k_shape: None,
        q51_exact: false,
        no_tile: false,
        prefill_pin: false,
        q4_mmq: false,
        q8_mmq: false,
        f16_acc: false,
        no_dual: false,
        moe_grouped: false,
        moe_ksplit: None,
        q51_ids_off: false,
        q8_ids_off: false,
        group_dev_off: false,
        group_prefill: false,
        group_no_d2h: false,
        group_sync: false,
        skip_moe: false,
        rms_small: false,
        qsa_cpu: false,
        qsa_split_off: false,
        qsa_split_cap: None,
        qsa_h6_off: false,
        idx_topk_off: false,
    }
}

} // verus!
