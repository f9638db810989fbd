use fcpe_mlxrs::model::{conformer_shape, glu_split, model_shape, ConvShape};
use fcpe_mlxrs::weights::{
    append_decimal, block_weight_key, model_weight_key, weight_key, BlockParam, ModelParam, WeightName,
};

#[test]
fn network_shape() {
    let m = model_shape();
    assert_eq!(m.hidden_dims, 512);
    assert_eq!(m.out_dims, 360);
    assert_eq!(m.n_layers, 6);
    assert_eq!(m.input_channels, 128);
    assert_eq!(
        m.input_conv1,
        ConvShape { in_channels: 128, out_channels: 512, kernel_size: 3, padding: 1, groups: 1 }
    );
    assert_eq!(m.input_groups, 4);
    assert_eq!(m.conformer, conformer_shape(512, 1024));
    assert_eq!(m.proj_in, 512);
    assert_eq!(m.proj_out, 360);
}

#[test]
fn conformer_block_shape() {
    let c = conformer_shape(512, 1024);
    assert_eq!(c.dim, 512);
    assert_eq!(c.conv1, ConvShape { in_channels: 512, out_channels: 2048, kernel_size: 1, padding: 0, groups: 1 });
    assert_eq!(
        c.dw_conv,
        ConvShape { in_channels: 1024, out_channels: 1024, kernel_size: 31, padding: 15, groups: 1024 }
    );
    assert_eq!(c.conv2, ConvShape { in_channels: 1024, out_channels: 512, kernel_size: 1, padding: 0, groups: 1 });
}

#[test]
fn gated_linear_unit_split() {
    assert_eq!(glu_split(2048), 1024);
    assert_eq!(glu_split(7), 3);
    assert_eq!(glu_split(0), 0);
}

#[test]
fn decimal_numbers() {
    let mut s = String::from("n");
    append_decimal(&mut s, 0);
    assert_eq!(s, "n0");
    let mut s = String::new();
    append_decimal(&mut s, 1234567);
    assert_eq!(s, "1234567");
    let mut s = String::new();
    append_decimal(&mut s, 10);
    assert_eq!(s, "10");
}

#[test]
fn block_parameter_names() {
    assert_eq!(block_weight_key(0, BlockParam::NormWeight), "net_encoder_layers_0_conformer_net_0_weight");
    assert_eq!(block_weight_key(3, BlockParam::DepthwiseBias), "net_encoder_layers_3_conformer_net_4_conv_bias");
    assert_eq!(block_weight_key(5, BlockParam::PointwiseOutWeight), "net_encoder_layers_5_conformer_net_6_weight");
    assert_eq!(block_weight_key(12, BlockParam::LayerNormBias), "net_encoder_layers_12_norm_bias");
    assert_eq!(block_weight_key(1, BlockParam::PointwiseInBias), "net_encoder_layers_1_conformer_net_2_bias");
}

#[test]
fn model_parameter_names() {
    assert_eq!(model_weight_key(ModelParam::InputConv1Weight), "input_stack_0_weight");
    assert_eq!(model_weight_key(ModelParam::InputNormBias), "input_stack_1_bias");
    assert_eq!(model_weight_key(ModelParam::InputConv2Weight), "input_stack_3_weight");
    assert_eq!(model_weight_key(ModelParam::OutputProjDirection), "output_proj_weight_v");
    assert_eq!(model_weight_key(ModelParam::OutputProjMagnitude), "output_proj_weight_g");
    assert_eq!(model_weight_key(ModelParam::GaussianBlurredCentMask), "gaussian_blurred_cent_mask");
    assert_eq!(weight_key(WeightName::Model(ModelParam::CentTable)), "cent_table");
    assert_eq!(weight_key(WeightName::Block(2, BlockParam::NormBias)), "net_encoder_layers_2_conformer_net_0_bias");
}

#[test]
fn all_parameter_names_differ() {
    let model = [
        ModelParam::InputConv1Weight,
        ModelParam::InputConv1Bias,
        ModelParam::InputNormWeight,
        ModelParam::InputNormBias,
        ModelParam::InputConv2Weight,
        ModelParam::InputConv2Bias,
        ModelParam::OutputNormWeight,
        ModelParam::OutputNormBias,
        ModelParam::OutputProjDirection,
        ModelParam::OutputProjMagnitude,
        ModelParam::OutputProjBias,
        ModelParam::CentTable,
        ModelParam::GaussianBlurredCentMask,
    ];
    let block = [
        BlockParam::NormWeight,
        BlockParam::NormBias,
        BlockParam::PointwiseInWeight,
        BlockParam::PointwiseInBias,
        BlockParam::DepthwiseWeight,
        BlockParam::DepthwiseBias,
        BlockParam::PointwiseOutWeight,
        BlockParam::PointwiseOutBias,
        BlockParam::LayerNormWeight,
        BlockParam::LayerNormBias,
    ];
    let mut names: Vec<String> = model.iter().map(|p| weight_key(WeightName::Model(*p))).collect();
    for layer in 0..12 {
        for p in block.iter() {
            names.push(weight_key(WeightName::Block(layer, *p)));
        }
    }
    let mut sorted = names.clone();
    sorted.sort();
    sorted.dedup();
    assert_eq!(sorted.len(), names.len());
}
