//! Names under which the checkpoint stores the network's parameters, and the
//! proof that no two parameters share a name.
use vstd::prelude::*;

verus! {

/// A parameter that the network has once.
#[derive(Clone, Copy, Debug, PartialEq, Eq)]
pub enum ModelParam {
    InputConv1Weight,
    InputConv1Bias,
    InputNormWeight,
    InputNormBias,
    InputConv2Weight,
    InputConv2Bias,
    OutputNormWeight,
    OutputNormBias,
    /// Direction part of the weight-normalised projection.
    OutputProjDirection,
    /// Magnitude part of the weight-normalised projection.
    OutputProjMagnitude,
    OutputProjBias,
    /// Cents of every pitch bin.
    CentTable,
    GaussianBlurredCentMask,
}

/// A parameter that every conformer block has.
#[derive(Clone, Copy, Debug, PartialEq, Eq)]
pub enum BlockParam {
    NormWeight,
    NormBias,
    PointwiseInWeight,
    PointwiseInBias,
    DepthwiseWeight,
    DepthwiseBias,
    PointwiseOutWeight,
    PointwiseOutBias,
    LayerNormWeight,
    LayerNormBias,
}

/// A parameter of the network: one of its own, or one of block `layer`.
#[derive(Clone, Copy, Debug, PartialEq, Eq)]
pub enum WeightName {
    Model(ModelParam),
    Block(usize, BlockParam),
}

/// Checkpoint name of a parameter that the network has once.
pub open spec fn model_param_name(p: ModelParam) -> Seq<char> {
    match p {
        ModelParam::InputConv1Weight => "input_stack_0_weight"@,
        ModelParam::InputConv1Bias => "input_stack_0_bias"@,
        ModelParam::InputNormWeight => "input_stack_1_weight"@,
        ModelParam::InputNormBias => "input_stack_1_bias"@,
        ModelParam::InputConv2Weight => "input_stack_3_weight"@,
        ModelParam::InputConv2Bias => "input_stack_3_bias"@,
        ModelParam::OutputNormWeight => "norm_weight"@,
        ModelParam::OutputNormBias => "norm_bias"@,
        ModelParam::OutputProjDirection => "output_proj_weight_v"@,
        ModelParam::OutputProjMagnitude => "output_proj_weight_g"@,
        ModelParam::OutputProjBias => "output_proj_bias"@,
        ModelParam::CentTable => "cent_table"@,
        ModelParam::GaussianBlurredCentMask => "gaussian_blurred_cent_mask"@,
    }
}

/// The part of a block parameter's checkpoint name after the block number.
pub open spec fn block_param_suffix(p: BlockParam) -> Seq<char> {
    match p {
        BlockParam::NormWeight => "conformer_net_0_weight"@,
        BlockParam::NormBias => "conformer_net_0_bias"@,
        BlockParam::PointwiseInWeight => "conformer_net_2_weight"@,
        BlockParam::PointwiseInBias => "conformer_net_2_bias"@,
        BlockParam::DepthwiseWeight => "conformer_net_4_conv_weight"@,
        BlockParam::DepthwiseBias => "conformer_net_4_conv_bias"@,
        BlockParam::PointwiseOutWeight => "conformer_net_6_weight"@,
        BlockParam::PointwiseOutBias => "conformer_net_6_bias"@,
        BlockParam::LayerNormWeight => "norm_weight"@,
        BlockParam::LayerNormBias => "norm_bias"@,
    }
}

/// The decimal digit `d`.
pub open spec fn digit_char(d: int) -> char {
    if d == 0 {
        '0'
    } else if d == 1 {
        '1'
    } else if d == 2 {
        '2'
    } else if d == 3 {
        '3'
    } else if d == 4 {
        '4'
    } else if d == 5 {
        '5'
    } else if d == 6 {
        '6'
    } else if d == 7 {
        '7'
    } else if d == 8 {
        '8'
    } else {
        '9'
    }
}

/// `c` is a decimal digit.
pub open spec fn is_digit(c: char) -> bool {
    '0' <= c <= '9'
}

/// `n` written in decimal, without leading zeros.
pub open spec fn decimal(n: nat) -> Seq<char>
    decreases n,
{
    if n < 10 {
        seq![digit_char(n as int)]
    } else {
        decimal(n / 10).push(digit_char((n % 10) as int))
    }
}

/// Checkpoint name of parameter `p` of block `layer`.
pub open spec fn block_param_name(layer: nat, p: BlockParam) -> Seq<char> {
    "net_encoder_layers_"@ + decimal(layer) + "_"@ + block_param_suffix(p)
}

/// Checkpoint name of a parameter.
pub open spec fn weight_name(w: WeightName) -> Seq<char> {
    match w {
        WeightName::Model(p) => model_param_name(p),
        WeightName::Block(layer, p) => block_param_name(layer as nat, p),
    }
}

fn digit_str(d: usize) -> (s: &'static str)
    requires
        d < 10,
    ensures
        s@ == seq![digit_char(d as int)],
{
    if d == 0 {
        proof {
            reveal_strlit("0");
        }
        "0"
    } else if d == 1 {
        proof {
            reveal_strlit("1");
        }
        "1"
    } else if d == 2 {
        proof {
            reveal_strlit("2");
        }
        "2"
    } else if d == 3 {
        proof {
            reveal_strlit("3");
        }
        "3"
    } else if d == 4 {
        proof {
            reveal_strlit("4");
        }
        "4"
    } else if d == 5 {
        proof {
            reveal_strlit("5");
        }
        "5"
    } else if d == 6 {
        proof {
            reveal_strlit("6");
        }
        "6"
    } else if d == 7 {
        proof {
            reveal_strlit("7");
        }
        "7"
    } else if d == 8 {
        proof {
            reveal_strlit("8");
        }
        "8"
    } else {
        proof {
            reveal_strlit("9");
        }
        "9"
    }
}

/// Appends `n` in decimal to `s`.
pub fn append_decimal(s: &mut String, n: usize)
    ensures
        final(s)@ == old(s)@ + decimal(n as nat),
    decreases n,
{
    if n >= 10 {
        append_decimal(s, n / 10);
    }
    let d = digit_str(n % 10);
    s.append(d);
    assert(decimal(n as nat) =~= if n < 10 {
        seq![digit_char(n as int)]
    } else {
        decimal((n / 10) as nat).push(digit_char((n % 10) as int))
    });
}

fn model_param_str(p: ModelParam) -> (s: &'static str)
    ensures
        s@ == model_param_name(p),
{
    match p {
        ModelParam::InputConv1Weight => "input_stack_0_weight",
        ModelParam::InputConv1Bias => "input_stack_0_bias",
        ModelParam::InputNormWeight => "input_stack_1_weight",
        ModelParam::InputNormBias => "input_stack_1_bias",
        ModelParam::InputConv2Weight => "input_stack_3_weight",
        ModelParam::InputConv2Bias => "input_stack_3_bias",
        ModelParam::OutputNormWeight => "norm_weight",
        ModelParam::OutputNormBias => "norm_bias",
        ModelParam::OutputProjDirection => "output_proj_weight_v",
        ModelParam::OutputProjMagnitude => "output_proj_weight_g",
        ModelParam::OutputProjBias => "output_proj_bias",
        ModelParam::CentTable => "cent_table",
        ModelParam::GaussianBlurredCentMask => "gaussian_blurred_cent_mask",
    }
}

fn block_param_str(p: BlockParam) -> (s: &'static str)
    ensures
        s@ == block_param_suffix(p),
{
    match p {
        BlockParam::NormWeight => "conformer_net_0_weight",
        BlockParam::NormBias => "conformer_net_0_bias",
        BlockParam::PointwiseInWeight => "conformer_net_2_weight",
        BlockParam::PointwiseInBias => "conformer_net_2_bias",
        BlockParam::DepthwiseWeight => "conformer_net_4_conv_weight",
        BlockParam::DepthwiseBias => "conformer_net_4_conv_bias",
        BlockParam::PointwiseOutWeight => "conformer_net_6_weight",
        BlockParam::PointwiseOutBias => "conformer_net_6_bias",
        BlockParam::LayerNormWeight => "norm_weight",
        BlockParam::LayerNormBias => "norm_bias",
    }
}

/// Checkpoint name of parameter `p` of block `layer`.
pub fn block_weight_key(layer: usize, p: BlockParam) -> (key: String)
    ensures
        key@ == block_param_name(layer as nat, p),
{
    let mut key = String::new();
    key.append("net_encoder_layers_");
    append_decimal(&mut key, layer);
    key.append("_");
    key.append(block_param_str(p));
    key
}

/// Checkpoint name of a parameter that the network has once.
pub fn model_weight_key(p: ModelParam) -> (key: String)
    ensures
        key@ == model_param_name(p),
{
    let mut key = String::new();
    key.append(model_param_str(p));
    key
}

/// Checkpoint name of any parameter.
pub fn weight_key(w: WeightName) -> (key: String)
    ensures
        key@ == weight_name(w),
{
    match w {
        WeightName::Model(p) => model_weight_key(p),
        WeightName::Block(layer, p) => block_weight_key(layer, p),
    }
}

/// Where the checkpoint keeps each parameter: the input stack's layers 0
/// (first convolution), 1 (group normalisation) and 3 (second convolution),
/// each with its weight and its bias under its own layer number; the output
/// norm, the weight-normalised projection (direction `v`, magnitude `g`) and
/// its bias, the cent table and the blurred cent mask; and for block `layer`,
/// under `net_encoder_layers_<layer>_`, its norm (net 0), first pointwise
/// convolution (net 2), depthwise convolution (net 4), second pointwise
/// convolution (net 6) and layer norm.
pub proof fn lemma_weight_name_table(layer: usize)
    ensures
        weight_name(WeightName::Model(ModelParam::InputConv1Weight)) == "input_stack_0_weight"@,
        weight_name(WeightName::Model(ModelParam::InputConv1Bias)) == "input_stack_0_bias"@,
        weight_name(WeightName::Model(ModelParam::InputNormWeight)) == "input_stack_1_weight"@,
        weight_name(WeightName::Model(ModelParam::InputNormBias)) == "input_stack_1_bias"@,
        weight_name(WeightName::Model(ModelParam::InputConv2Weight)) == "input_stack_3_weight"@,
        weight_name(WeightName::Model(ModelParam::InputConv2Bias)) == "input_stack_3_bias"@,
        weight_name(WeightName::Model(ModelParam::OutputNormWeight)) == "norm_weight"@,
        weight_name(WeightName::Model(ModelParam::OutputNormBias)) == "norm_bias"@,
        weight_name(WeightName::Model(ModelParam::OutputProjDirection)) == "output_proj_weight_v"@,
        weight_name(WeightName::Model(ModelParam::OutputProjMagnitude)) == "output_proj_weight_g"@,
        weight_name(WeightName::Model(ModelParam::OutputProjBias)) == "output_proj_bias"@,
        weight_name(WeightName::Model(ModelParam::CentTable)) == "cent_table"@,
        weight_name(WeightName::Model(ModelParam::GaussianBlurredCentMask)) == "gaussian_blurred_cent_mask"@,
        weight_name(WeightName::Block(layer, BlockParam::NormWeight)) == "net_encoder_layers_"@ + decimal(layer as nat) + "_"@ + "conformer_net_0_weight"@,
        weight_name(WeightName::Block(layer, BlockParam::NormBias)) == "net_encoder_layers_"@ + decimal(layer as nat) + "_"@ + "conformer_net_0_bias"@,
        weight_name(WeightName::Block(layer, BlockParam::PointwiseInWeight)) == "net_encoder_layers_"@ + decimal(layer as nat) + "_"@ + "conformer_net_2_weight"@,
        weight_name(WeightName::Block(layer, BlockParam::PointwiseInBias)) == "net_encoder_layers_"@ + decimal(layer as nat) + "_"@ + "conformer_net_2_bias"@,
        weight_name(WeightName::Block(layer, BlockParam::DepthwiseWeight)) == "net_encoder_layers_"@ + decimal(layer as nat) + "_"@ + "conformer_net_4_conv_weight"@,
        weight_name(WeightName::Block(layer, BlockParam::DepthwiseBias)) == "net_encoder_layers_"@ + decimal(layer as nat) + "_"@ + "conformer_net_4_conv_bias"@,
        weight_name(WeightName::Block(layer, BlockParam::PointwiseOutWeight)) == "net_encoder_layers_"@ + decimal(layer as nat) + "_"@ + "conformer_net_6_weight"@,
        weight_name(WeightName::Block(layer, BlockParam::PointwiseOutBias)) == "net_encoder_layers_"@ + decimal(layer as nat) + "_"@ + "conformer_net_6_bias"@,
        weight_name(WeightName::Block(layer, BlockParam::LayerNormWeight)) == "net_encoder_layers_"@ + decimal(layer as nat) + "_"@ + "norm_weight"@,
        weight_name(WeightName::Block(layer, BlockParam::LayerNormBias)) == "net_encoder_layers_"@ + decimal(layer as nat) + "_"@ + "norm_bias"@,
{
}

/// Every digit of a decimal numeral is a digit, and a numeral of a number of
/// two or more digits has two or more characters.
proof fn lemma_decimal_digits(n: nat)
    ensures
        decimal(n).len() >= 1,
        n >= 10 ==> decimal(n).len() >= 2,
        forall|k: int| 0 <= k < decimal(n).len() ==> is_digit(#[trigger] decimal(n)[k]),
    decreases n,
{
    if n >= 10 {
        lemma_decimal_digits(n / 10);
        let prev = decimal(n / 10);
        assert forall|k: int| 0 <= k < decimal(n).len() implies is_digit(#[trigger] decimal(n)[k]) by {
            if k < prev.len() {
                assert(decimal(n)[k] == prev[k]);
            }
        }
    }
}

/// Two numbers with the same decimal numeral are equal.
pub proof fn lemma_decimal_injective(a: nat, b: nat)
    requires
        decimal(a) == decimal(b),
    ensures
        a == b,
    decreases a,
{
    lemma_decimal_digits(a);
    lemma_decimal_digits(b);
    if a >= 10 && b >= 10 {
        let da = decimal(a);
        let db = decimal(b);
        assert(da.last() == db.last());
        assert(digit_char((a % 10) as int) == digit_char((b % 10) as int));
        assert(a % 10 == b % 10);
        assert(da.drop_last() =~= decimal(a / 10));
        assert(db.drop_last() =~= decimal(b / 10));
        lemma_decimal_injective(a / 10, b / 10);
        vstd::arithmetic::div_mod::lemma_fundamental_div_mod(a as int, 10);
        vstd::arithmetic::div_mod::lemma_fundamental_div_mod(b as int, 10);
        assert(a == b);
    } else if a < 10 && b < 10 {
        assert(decimal(a) == seq![digit_char(a as int)]);
        assert(decimal(b) == seq![digit_char(b as int)]);
        assert(decimal(a)[0] == digit_char(a as int));
        assert(decimal(b)[0] == digit_char(b as int));
        assert(a == b);
    } else {
        assert(decimal(a).len() == decimal(b).len());
        assert(false);
    }
}

proof fn lemma_block_suffix_injective(p: BlockParam, q: BlockParam)
    requires
        block_param_suffix(p) == block_param_suffix(q),
    ensures
        p == q,
{
    reveal_strlit("conformer_net_0_weight");
    reveal_strlit("conformer_net_0_bias");
    reveal_strlit("conformer_net_2_weight");
    reveal_strlit("conformer_net_2_bias");
    reveal_strlit("conformer_net_4_conv_weight");
    reveal_strlit("conformer_net_4_conv_bias");
    reveal_strlit("conformer_net_6_weight");
    reveal_strlit("conformer_net_6_bias");
    reveal_strlit("norm_weight");
    reveal_strlit("norm_bias");
    let sp = block_param_suffix(p);
    let sq = block_param_suffix(q);
    assert(sp.len() == sq.len());
    if sp.len() > 14 {
        assert(sp[14] == sq[14]);
    }
}

proof fn lemma_model_name_injective(p: ModelParam, q: ModelParam)
    requires
        model_param_name(p) == model_param_name(q),
    ensures
        p == q,
{
    reveal_strlit("input_stack_0_weight");
    reveal_strlit("input_stack_0_bias");
    reveal_strlit("input_stack_1_weight");
    reveal_strlit("input_stack_1_bias");
    reveal_strlit("input_stack_3_weight");
    reveal_strlit("input_stack_3_bias");
    reveal_strlit("norm_weight");
    reveal_strlit("norm_bias");
    reveal_strlit("output_proj_weight_v");
    reveal_strlit("output_proj_weight_g");
    reveal_strlit("output_proj_bias");
    reveal_strlit("cent_table");
    reveal_strlit("gaussian_blurred_cent_mask");
    let sp = model_param_name(p);
    let sq = model_param_name(q);
    assert(sp.len() == sq.len());
    assert(sp[0] == sq[0]);
    if sp.len() > 19 {
        assert(sp[12] == sq[12]);
        assert(sp[19] == sq[19]);
    }
    if sp.len() > 12 {
        assert(sp[12] == sq[12]);
    }
}

proof fn lemma_name_lengths(w: WeightName)
    ensures
        w is Model ==> weight_name(w).len() <= 26,
        w is Block ==> weight_name(w).len() >= 30,
{
    reveal_strlit("input_stack_0_weight");
    reveal_strlit("input_stack_0_bias");
    reveal_strlit("input_stack_1_weight");
    reveal_strlit("input_stack_1_bias");
    reveal_strlit("input_stack_3_weight");
    reveal_strlit("input_stack_3_bias");
    reveal_strlit("norm_weight");
    reveal_strlit("norm_bias");
    reveal_strlit("output_proj_weight_v");
    reveal_strlit("output_proj_weight_g");
    reveal_strlit("output_proj_bias");
    reveal_strlit("cent_table");
    reveal_strlit("gaussian_blurred_cent_mask");
    reveal_strlit("conformer_net_0_weight");
    reveal_strlit("conformer_net_0_bias");
    reveal_strlit("conformer_net_2_weight");
    reveal_strlit("conformer_net_2_bias");
    reveal_strlit("conformer_net_4_conv_weight");
    reveal_strlit("conformer_net_4_conv_bias");
    reveal_strlit("conformer_net_6_weight");
    reveal_strlit("conformer_net_6_bias");
    reveal_strlit("net_encoder_layers_");
    reveal_strlit("_");
    if let WeightName::Block(layer, p) = w {
        lemma_decimal_digits(layer as nat);
    }
}

/// No two parameters of the network share a checkpoint name.
pub proof fn lemma_weight_names_distinct(a: WeightName, b: WeightName)
    requires
        weight_name(a) == weight_name(b),
    ensures
        a == b,
{
    lemma_name_lengths(a);
    lemma_name_lengths(b);
    match (a, b) {
        (WeightName::Model(p), WeightName::Model(q)) => {
            lemma_model_name_injective(p, q);
        },
        (WeightName::Block(i, p), WeightName::Block(j, q)) => {
            reveal_strlit("net_encoder_layers_");
            reveal_strlit("_");
            let prefix = "net_encoder_layers_"@;
            let pl = prefix.len() as int;
            let di = decimal(i as nat);
            let dj = decimal(j as nat);
            lemma_decimal_digits(i as nat);
            lemma_decimal_digits(j as nat);
            let ka = weight_name(a);
            let kb = weight_name(b);
            assert(ka == prefix + di + "_"@ + block_param_suffix(p));
            assert(kb == prefix + dj + "_"@ + block_param_suffix(q));
            if di.len() < dj.len() {
                assert(ka[pl + di.len()] == '_');
                assert(kb[pl + di.len()] == dj[di.len() as int]);
                assert(is_digit(dj[di.len() as int]));
            } else if dj.len() < di.len() {
                assert(kb[pl + dj.len()] == '_');
                assert(ka[pl + dj.len()] == di[dj.len() as int]);
                assert(is_digit(di[dj.len() as int]));
            } else {
                assert(di =~= ka.subrange(pl, pl + di.len()));
                assert(dj =~= kb.subrange(pl, pl + dj.len()));
                lemma_decimal_injective(i as nat, j as nat);
                let start = pl + di.len() + 1;
                assert(block_param_suffix(p) =~= ka.subrange(start, ka.len() as int));
                assert(block_param_suffix(q) =~= kb.subrange(start, kb.len() as int));
                lemma_block_suffix_injective(p, q);
            }
        },
        _ => {},
    }
}

} // verus!
