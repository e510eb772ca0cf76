//! The shape of the neural evaluation model: its layer sizes and how many
//! trainable parameters they hold.

use vstd::prelude::*;

verus! {

/// Default board rows for encoding (bottom portion of the field).
pub const DEFAULT_BOARD_ROWS: usize = 24;
/// Standard board width.
pub const DEFAULT_BOARD_COLS: usize = 10;
/// Number of auxiliary features fed to the dense head.
pub const DEFAULT_AUX_FEATURES: usize = 47;

/// Architecture and encoding configuration for the deep model.
#[derive(Clone, Copy, Debug)]
pub struct Config {
    /// Output channels for each conv layer.
    pub conv_channels: [usize; 2],
    /// Width of hidden dense layers.
    pub dense_width: usize,
    /// Number of dense layers (including the output layer).
    pub dense_layers: usize,
    /// Board rows encoded.
    pub board_rows: usize,
    /// Board columns encoded.
    pub board_cols: usize,
    /// Number of auxiliary features.
    pub aux_features: usize,
}

/// The weights and biases of `layers` dense layers of width `w` after an
/// input of `input` values: the first takes the input, the others the
/// previous layer.
pub open spec fn dense_params(input: int, w: int, layers: int) -> int
    decreases layers,
{
    if layers <= 0 {
        0
    } else if layers == 1 {
        (input + 1) * w
    } else {
        dense_params(input, w, layers - 1) + (w + 1) * w
    }
}

/// The number of trainable parameters of a model of shape `c`: two 3x3
/// convolutions with biases, their batch norms (a weight and a bias per
/// channel), the dense layers over the flattened board and the auxiliary
/// features, and the output layer.
pub open spec fn param_count(c: Config) -> int {
    let c0 = c.conv_channels[0] as int;
    let c1 = c.conv_channels[1] as int;
    let conv1 = c0 * 3 * 3 + c0;
    let conv2 = c0 * c1 * 3 * 3 + c1;
    let bn1 = 2 * c0;
    let bn2 = 2 * c1;
    let flat = c1 * c.board_rows * c.board_cols;
    let dense_in = flat + c.aux_features;
    conv1 + conv2 + bn1 + bn2 + dense_params(dense_in, c.dense_width as int, c.dense_layers as int) + c.dense_width + 1
}

/// Dense parameter counts are never negative.
proof fn lemma_dense_nonneg(input: int, w: int, j: int)
    requires
        0 <= input,
        0 <= w,
    ensures
        0 <= dense_params(input, w, j),
    decreases j,
{
    if j > 1 {
        lemma_dense_nonneg(input, w, j - 1);
        assert((w + 1) * w >= 0) by (nonlinear_arith)
            requires
                0 <= w,
        ;
    } else if j == 1 {
        assert((input + 1) * w >= 0) by (nonlinear_arith)
            requires
                0 <= input,
                0 <= w,
        ;
    }
}

/// Dense parameter counts only grow with more layers.
proof fn lemma_dense_grows(input: int, w: int, i: int, j: int)
    requires
        0 <= input,
        0 <= w,
        0 <= i <= j,
    ensures
        0 <= dense_params(input, w, i) <= dense_params(input, w, j),
    decreases j,
{
    lemma_dense_nonneg(input, w, i);
    if i < j {
        lemma_dense_grows(input, w, i, j - 1);
        if j == 1 {
            assert((input + 1) * w >= 0) by (nonlinear_arith)
                requires
                    0 <= input,
                    0 <= w,
            ;
        } else {
            assert((w + 1) * w >= 0) by (nonlinear_arith)
                requires
                    0 <= w,
            ;
        }
    }
}

/// Whether every step of counting the parameters of `c` stays within
/// `usize`.
pub open spec fn params_fit(c: Config) -> bool {
    let c1 = c.conv_channels[1] as int;
    let dense_in = c1 * c.board_rows * c.board_cols + c.aux_features;
    &&& param_count(c) <= usize::MAX
    &&& c1 * c.board_rows <= usize::MAX
    &&& dense_in <= usize::MAX
    &&& c.dense_layers > 0 ==> dense_in + 1 <= usize::MAX
}

impl Default for Config {
    /// Channels 8 and 16, two dense layers of width 128, and the default
    /// encoding sizes.
    fn default() -> (c: Self)
        ensures
            c == (Config {
                conv_channels: [8, 16],
                dense_width: 128,
                dense_layers: 2,
                board_rows: DEFAULT_BOARD_ROWS,
                board_cols: DEFAULT_BOARD_COLS,
                aux_features: DEFAULT_AUX_FEATURES,
            }),
    {
        Config {
            conv_channels: [8, 16],
            dense_width: 128,
            dense_layers: 2,
            board_rows: DEFAULT_BOARD_ROWS,
            board_cols: DEFAULT_BOARD_COLS,
            aux_features: DEFAULT_AUX_FEATURES,
        }
    }
}

impl Config {
    /// Returns the number of trainable parameters.
    pub fn params(&self) -> (r: usize)
        requires
            params_fit(*self),
        ensures
            r == param_count(*self),
    {
        let c0 = self.conv_channels[0];
        let c1 = self.conv_channels[1];
        let rows = self.board_rows;
        let cols = self.board_cols;
        let w = self.dense_width;
        let layers = self.dense_layers;
        let aux = self.aux_features;
        let ghost flat: int = c1 * rows * cols;
        proof {
            assert(0 <= c0 * 3 <= c0 * 3 * 3 && 0 <= c0 * c1 <= c0 * c1 * 3 <= c0 * c1 * 3 * 3 && 0 <= c1 * rows
                && 0 <= c1 * rows * cols) by (nonlinear_arith)
                requires
                    c0 >= 0,
                    c1 >= 0,
                    rows >= 0,
                    cols >= 0,
            ;
            lemma_dense_grows(flat + aux, w as int, 0, layers as int);
        }
        let conv1 = c0 * 3 * 3 + c0;
        let conv2 = c0 * c1 * 3 * 3 + c1;
        let bn1 = 2 * c0;
        let bn2 = 2 * c1;
        let flat_size = c1 * rows * cols;
        let dense_in = flat_size + aux;
        let mut dense: usize = 0;
        let mut prev = dense_in;
        let mut i: usize = 0;
        while i < layers
            invariant
                i <= layers,
                w == self.dense_width,
                dense == dense_params(dense_in as int, w as int, i as int),
                prev == if i == 0 { dense_in } else { w },
                layers > 0 ==> dense_in + 1 <= usize::MAX,
                w + 1 <= usize::MAX,
                dense_params(dense_in as int, w as int, layers as int) <= usize::MAX,
            decreases layers - i,
        {
            proof {
                lemma_dense_grows(dense_in as int, w as int, i as int + 1, layers as int);
                lemma_dense_grows(dense_in as int, w as int, i as int, i as int + 1);
                lemma_dense_nonneg(dense_in as int, w as int, i as int);
            }
            let step = (prev + 1) * w;
            dense = dense + step;
            prev = w;
            i += 1;
        }
        conv1 + conv2 + bn1 + bn2 + dense + w + 1
    }
}

} // verus!
