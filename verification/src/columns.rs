use vstd::prelude::*;

use crate::bits_air::big_sig_air::{BigSigma0Cols, BigSigma1Cols};
use crate::bits_air::ch_air::ChooseCols;
use crate::bits_air::maj_air::MajorCols;
use crate::bits_air::small_sig_air::SmallSigmaCols;
use crate::gadgets::add::AddGadget;

verus! {

/// The columns of one row of the SHA-256 trace: one row per round of the
/// compression function, 64 rows per block.
#[derive(Clone, Copy, Debug)]
pub struct ShaCols<T> {
    /// `step_flags[r]` is one on the row of round `r`.
    pub step_flags: [T; 64],
    /// One on the rows of the first 16 rounds.
    pub first_16_steps: T,
    pub export: T,
    /// The encoder point of the round index.
    pub round_idx: [T; 10],
    /// The 64 bytes of the block.
    pub input_block: [T; 64],
    /// The chaining value that the block starts from, as little-endian limbs.
    pub prev_block_seed: [[T; 4]; 8],
    /// `σ0` of the schedule word 15 rounds back.
    pub small_sig0: SmallSigmaCols<T>,
    /// `σ1` of the schedule word 2 rounds back.
    pub small_sig1: SmallSigmaCols<T>,
    /// The schedule word of the round.
    pub sum_small_sig: AddGadget<T, 4>,
    pub big_sig0: BigSigma0Cols<T>,
    pub big_sig1: BigSigma1Cols<T>,
    pub ch: ChooseCols<T>,
    pub maj: MajorCols<T>,
    pub sum_t1: AddGadget<T, 5>,
    pub sum_t2: AddGadget<T, 2>,
    pub sum_e: AddGadget<T, 2>,
    pub sum_a: AddGadget<T, 2>,
    /// The working state `a, .., h` before the round.
    pub prev_seed: [[T; 4]; 8],
    /// The working state after the round.
    pub seed: [[T; 4]; 8],
    /// On the last row of a block, the chaining value after the block.
    pub final_hash: [[T; 4]; 8],
    /// The message schedule of the block.
    pub buf: [[T; 4]; 64],
    /// The working state plus the chaining value that the block starts from.
    pub sum_final: [AddGadget<T, 2>; 8],
}

/// Number of columns of `ShaCols`.
pub const NUM_SHA_COLS: usize = 968;

impl ShaCols<u32> {
    /// All columns zero.
    pub fn new() -> (r: Self)
        ensures
            forall|i: int| 0 <= i < 64 ==> #[trigger] r.step_flags[i] == 0,
            r.first_16_steps == 0,
            r.export == 0,
            forall|i: int| 0 <= i < 10 ==> #[trigger] r.round_idx[i] == 0,
            forall|i: int| 0 <= i < 64 ==> #[trigger] r.input_block[i] == 0,
            forall|i: int, j: int| 0 <= i < 8 && 0 <= j < 4 ==> #[trigger] r.prev_block_seed[i][j] == 0,
            forall|i: int, j: int| 0 <= i < 8 && 0 <= j < 4 ==> #[trigger] r.prev_seed[i][j] == 0,
            forall|i: int, j: int| 0 <= i < 8 && 0 <= j < 4 ==> #[trigger] r.seed[i][j] == 0,
            forall|i: int, j: int| 0 <= i < 8 && 0 <= j < 4 ==> #[trigger] r.final_hash[i][j] == 0,
            forall|i: int, j: int| 0 <= i < 64 && 0 <= j < 4 ==> #[trigger] r.buf[i][j] == 0,
            forall|i: int| 0 <= i < 4 ==> #[trigger] r.sum_small_sig.value[i] == 0,
            forall|i: int| 0 <= i < 4 ==> #[trigger] r.sum_t1.value[i] == 0,
            forall|i: int| 0 <= i < 4 ==> #[trigger] r.sum_t2.value[i] == 0,
            forall|i: int| 0 <= i < 4 ==> #[trigger] r.sum_e.value[i] == 0,
            forall|i: int| 0 <= i < 4 ==> #[trigger] r.sum_a.value[i] == 0,
            forall|k: int, i: int| 0 <= k < 8 && 0 <= i < 4 ==> #[trigger] r.sum_final[k].value[i] == 0,
    {
        ShaCols {
            step_flags: [0u32; 64],
            first_16_steps: 0,
            export: 0,
            round_idx: [0u32; 10],
            input_block: [0u32; 64],
            prev_block_seed: [[0u32; 4]; 8],
            small_sig0: SmallSigmaCols::new(),
            small_sig1: SmallSigmaCols::new(),
            sum_small_sig: AddGadget::new(),
            big_sig0: BigSigma0Cols::new(),
            big_sig1: BigSigma1Cols::new(),
            ch: ChooseCols::new(),
            maj: MajorCols::new(),
            sum_t1: AddGadget::new(),
            sum_t2: AddGadget::new(),
            sum_e: AddGadget::new(),
            sum_a: AddGadget::new(),
            prev_seed: [[0u32; 4]; 8],
            seed: [[0u32; 4]; 8],
            final_hash: [[0u32; 4]; 8],
            buf: [[0u32; 4]; 64],
            sum_final: [
                AddGadget::new(),
                AddGadget::new(),
                AddGadget::new(),
                AddGadget::new(),
                AddGadget::new(),
                AddGadget::new(),
                AddGadget::new(),
                AddGadget::new(),
            ],
        }
    }
}

} // verus!
