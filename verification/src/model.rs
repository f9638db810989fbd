//! Shapes of the pitch network's layers, and the names under which the
//! checkpoint stores their parameters.
use vstd::prelude::*;

verus! {

/// Channels of the hidden representation.
pub const HIDDEN_DIMS: i32 = 512;

/// Pitch bins the network scores per frame.
pub const OUT_DIMS: i32 = 360;

/// Conformer convolution blocks.
pub const N_LAYERS: i32 = 6;

/// Mel bands the network reads per frame.
pub const INPUT_CHANNELS: i32 = 128;

/// Groups of the group normalisation after the first convolution.
pub const INPUT_GROUPS: i32 = 4;

/// Taps of the depthwise convolution inside a conformer block.
pub const DEPTHWISE_KERNEL: i32 = 31;

/// Taps of the two input convolutions.
pub const INPUT_KERNEL: i32 = 3;

/// A one-dimensional convolution with stride one.
#[derive(Clone, Copy, Debug, PartialEq, Eq)]
pub struct ConvShape {
    pub in_channels: i32,
    pub out_channels: i32,
    pub kernel_size: i32,
    pub padding: i32,
    pub groups: i32,
}

/// Frames out of a stride-one convolution over `len` frames.
pub open spec fn conv_out_len(c: ConvShape, len: int) -> int {
    len + 2 * c.padding - c.kernel_size + 1
}

/// The convolutions of one conformer block of width `dim` with `inner_dim`
/// channels inside.
#[derive(Clone, Copy, Debug, PartialEq, Eq)]
pub struct ConformerShape {
    /// Channels of the block's input and output, and of its layer norm.
    pub dim: i32,
    /// Pointwise convolution to twice the inner width, ahead of the gated linear unit.
    pub conv1: ConvShape,
    /// Depthwise convolution over time.
    pub dw_conv: ConvShape,
    /// Pointwise convolution back to the block's width.
    pub conv2: ConvShape,
}

/// The layers of the whole network.
#[derive(Clone, Copy, Debug, PartialEq, Eq)]
pub struct ModelShape {
    pub hidden_dims: i32,
    pub out_dims: i32,
    pub n_layers: i32,
    pub input_channels: i32,
    /// Convolution from the mel bands to the hidden width.
    pub input_conv1: ConvShape,
    /// Groups of the group normalisation that follows it.
    pub input_groups: i32,
    /// Second convolution at the hidden width.
    pub input_conv2: ConvShape,
    /// Every conformer block has this shape.
    pub conformer: ConformerShape,
    /// Input and output width of the final projection.
    pub proj_in: i32,
    pub proj_out: i32,
}

/// The shape of a conformer block of width `dim` with `inner_dim` inner channels.
pub open spec fn conformer_shape_spec(dim: i32, inner_dim: i32) -> ConformerShape {
    ConformerShape {
        dim,
        conv1: ConvShape { in_channels: dim, out_channels: (inner_dim * 2) as i32, kernel_size: 1, padding: 0, groups: 1 },
        dw_conv: ConvShape {
            in_channels: inner_dim,
            out_channels: inner_dim,
            kernel_size: DEPTHWISE_KERNEL,
            padding: 15,
            groups: inner_dim,
        },
        conv2: ConvShape { in_channels: inner_dim, out_channels: dim, kernel_size: 1, padding: 0, groups: 1 },
    }
}

/// Shapes the convolutions of a conformer block.
pub fn conformer_shape(dim: i32, inner_dim: i32) -> (s: ConformerShape)
    requires
        i32::MIN <= inner_dim * 2 <= i32::MAX,
    ensures
        s == conformer_shape_spec(dim, inner_dim),
{
    ConformerShape {
        dim,
        conv1: ConvShape { in_channels: dim, out_channels: inner_dim * 2, kernel_size: 1, padding: 0, groups: 1 },
        dw_conv: ConvShape {
            in_channels: inner_dim,
            out_channels: inner_dim,
            kernel_size: DEPTHWISE_KERNEL,
            padding: 15,
            groups: inner_dim,
        },
        conv2: ConvShape { in_channels: inner_dim, out_channels: dim, kernel_size: 1, padding: 0, groups: 1 },
    }
}

/// Channels on each side of the gated linear unit: the first half of the
/// channels is gated by the second half.
pub fn glu_split(channels: i32) -> (split: i32)
    requires
        channels >= 0,
    ensures
        split == channels / 2,
        channels - split >= split,
{
    channels / 2
}

/// The shape of the network.
pub open spec fn model_shape_spec() -> ModelShape {
    ModelShape {
        hidden_dims: HIDDEN_DIMS,
        out_dims: OUT_DIMS,
        n_layers: N_LAYERS,
        input_channels: INPUT_CHANNELS,
        input_conv1: ConvShape {
            in_channels: INPUT_CHANNELS,
            out_channels: HIDDEN_DIMS,
            kernel_size: INPUT_KERNEL,
            padding: 1,
            groups: 1,
        },
        input_groups: INPUT_GROUPS,
        input_conv2: ConvShape {
            in_channels: HIDDEN_DIMS,
            out_channels: HIDDEN_DIMS,
            kernel_size: INPUT_KERNEL,
            padding: 1,
            groups: 1,
        },
        conformer: conformer_shape_spec(HIDDEN_DIMS, (HIDDEN_DIMS * 2) as i32),
        proj_in: HIDDEN_DIMS,
        proj_out: OUT_DIMS,
    }
}

/// Shapes the layers of the network.
pub fn model_shape() -> (m: ModelShape)
    ensures
        m == model_shape_spec(),
{
    ModelShape {
        hidden_dims: HIDDEN_DIMS,
        out_dims: OUT_DIMS,
        n_layers: N_LAYERS,
        input_channels: INPUT_CHANNELS,
        input_conv1: ConvShape {
            in_channels: INPUT_CHANNELS,
            out_channels: HIDDEN_DIMS,
            kernel_size: INPUT_KERNEL,
            padding: 1,
            groups: 1,
        },
        input_groups: INPUT_GROUPS,
        input_conv2: ConvShape {
            in_channels: HIDDEN_DIMS,
            out_channels: HIDDEN_DIMS,
            kernel_size: INPUT_KERNEL,
            padding: 1,
            groups: 1,
        },
        conformer: conformer_shape(HIDDEN_DIMS, HIDDEN_DIMS * 2),
        proj_in: HIDDEN_DIMS,
        proj_out: OUT_DIMS,
    }
}

/// The network's layers fit together: every convolution keeps the number of
/// frames, each layer reads the channels the one before it writes, the gated
/// linear unit halves the first pointwise convolution's output to the
/// depthwise convolution's width, the depthwise convolution has one group
/// per channel, the group normalisation splits the hidden width evenly, and
/// the projection scores every pitch bin.
pub proof fn lemma_model_shapes_fit(len: int)
    ensures
        conv_out_len(model_shape_spec().input_conv1, len) == len,
        conv_out_len(model_shape_spec().input_conv2, len) == len,
        conv_out_len(model_shape_spec().conformer.conv1, len) == len,
        conv_out_len(model_shape_spec().conformer.dw_conv, len) == len,
        conv_out_len(model_shape_spec().conformer.conv2, len) == len,
        model_shape_spec().input_conv1.in_channels == model_shape_spec().input_channels,
        model_shape_spec().input_conv2.in_channels == model_shape_spec().input_conv1.out_channels,
        model_shape_spec().conformer.dim == model_shape_spec().input_conv2.out_channels,
        model_shape_spec().conformer.conv1.in_channels == model_shape_spec().conformer.dim,
        model_shape_spec().conformer.conv1.out_channels / 2 == model_shape_spec().conformer.dw_conv.in_channels,
        model_shape_spec().conformer.dw_conv.groups == model_shape_spec().conformer.dw_conv.in_channels,
        model_shape_spec().conformer.dw_conv.out_channels == model_shape_spec().conformer.conv2.in_channels,
        model_shape_spec().conformer.conv2.out_channels == model_shape_spec().conformer.dim,
        model_shape_spec().hidden_dims % model_shape_spec().input_groups == 0,
        model_shape_spec().proj_in == model_shape_spec().conformer.dim,
        model_shape_spec().proj_out == model_shape_spec().out_dims,
{
}

/// The layers of the network, in numbers: two input convolutions of three
/// taps with one frame of padding (128 to 512 channels, then 512 to 512), and
/// in every conformer block a pointwise convolution from 512 to 2048
/// channels, a depthwise convolution of 31 taps over 1024 channels with 15
/// frames of padding, and a pointwise convolution from 1024 back to 512.
/// Every convolution but the depthwise one is dense (one group); the
/// depthwise one has one group per channel.
pub proof fn lemma_model_layers()
    ensures
        model_shape_spec().input_conv1 == (ConvShape {
            in_channels: 128,
            out_channels: 512,
            kernel_size: 3,
            padding: 1,
            groups: 1,
        }),
        model_shape_spec().input_conv2 == (ConvShape {
            in_channels: 512,
            out_channels: 512,
            kernel_size: 3,
            padding: 1,
            groups: 1,
        }),
        model_shape_spec().conformer.conv1 == (ConvShape {
            in_channels: 512,
            out_channels: 2048,
            kernel_size: 1,
            padding: 0,
            groups: 1,
        }),
        model_shape_spec().conformer.dw_conv == (ConvShape {
            in_channels: 1024,
            out_channels: 1024,
            kernel_size: 31,
            padding: 15,
            groups: 1024,
        }),
        model_shape_spec().conformer.conv2 == (ConvShape {
            in_channels: 1024,
            out_channels: 512,
            kernel_size: 1,
            padding: 0,
            groups: 1,
        }),
        model_shape_spec().input_conv1.groups == 1,
        model_shape_spec().input_conv2.groups == 1,
        model_shape_spec().conformer.conv1.groups == 1,
        model_shape_spec().conformer.conv2.groups == 1,
        model_shape_spec().conformer.dw_conv.groups == model_shape_spec().conformer.dw_conv.in_channels,
        model_shape_spec().conformer.dim == 512,
        model_shape_spec().input_groups == 4,
        model_shape_spec().hidden_dims == 512,
        model_shape_spec().out_dims == 360,
        model_shape_spec().n_layers == 6,
        model_shape_spec().input_channels == 128,
        model_shape_spec().proj_in == 512,
        model_shape_spec().proj_out == 360,
{
}

} // verus!
