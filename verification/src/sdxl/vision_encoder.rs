//! The CLIP vision tower that encodes a reference image.
use super::weights::{push_key, Weights};
use crate::error::Error;
use crate::text::{
    decimal, decimal_of, digit_char, find, join, parse_up_to, parsed, strip_prefix, until, views,
    without_prefix,
};
use vstd::prelude::*;
use vstd::string::*;

verus! {

/// The geometry of a vision tower.
#[derive(Clone, Copy, Debug, PartialEq, Eq, Structural)]
pub struct VisionConfig {
    pub hidden: usize,
    pub num_layers: usize,
    pub num_heads: usize,
    pub patch: usize,
    pub image_size: usize,
    pub num_channels: usize,
    /// The activation: the sigmoid approximation, or the exact one.
    pub quick_gelu: bool,
}

impl VisionConfig {
    /// The ViT-H/14 tower: 1280 wide, 32 layers, exact activation.
    pub fn vit_h_14() -> (r: Self)
        ensures
            r == (VisionConfig {
                hidden: 1280,
                num_layers: 32,
                num_heads: 16,
                patch: 14,
                image_size: 224,
                num_channels: 3,
                quick_gelu: false,
            }),
            r.positions() == 257,
    {
        VisionConfig {
            hidden: 1280,
            num_layers: 32,
            num_heads: 16,
            patch: 14,
            image_size: 224,
            num_channels: 3,
            quick_gelu: false,
        }
    }

    /// The ViT-L/14 tower: 1024 wide, 24 layers, approximate activation.
    pub fn vit_l_14() -> (r: Self)
        ensures
            r == (VisionConfig {
                hidden: 1024,
                num_layers: 24,
                num_heads: 16,
                patch: 14,
                image_size: 224,
                num_channels: 3,
                quick_gelu: true,
            }),
            r.positions() == 257,
    {
        VisionConfig {
            hidden: 1024,
            num_layers: 24,
            num_heads: 16,
            patch: 14,
            image_size: 224,
            num_channels: 3,
            quick_gelu: true,
        }
    }

    /// The ViT-L/14 tower at 336 pixels.
    pub fn vit_l_14_336() -> (r: Self)
        ensures
            r == (VisionConfig {
                hidden: 1024,
                num_layers: 24,
                num_heads: 16,
                patch: 14,
                image_size: 336,
                num_channels: 3,
                quick_gelu: true,
            }),
            r.positions() == 577,
    {
        VisionConfig {
            hidden: 1024,
            num_layers: 24,
            num_heads: 16,
            patch: 14,
            image_size: 336,
            num_channels: 3,
            quick_gelu: true,
        }
    }

    /// The whole patches on a side.
    pub open spec fn grid(self) -> int {
        self.image_size as int / self.patch as int
    }

    /// A class token and one token for each patch.
    pub open spec fn positions(self) -> int {
        self.grid() * self.grid() + 1
    }

    /// The tokens of an image: a class token and one for each patch.
    pub fn num_positions(&self) -> (r: usize)
        requires
            self.patch > 0,
            self.positions() <= usize::MAX,
        ensures
            r == self.positions(),
    {
        let grid: usize = self.image_size / self.patch;
        proof {
            assert(grid * grid >= 0) by (nonlinear_arith);
        }
        grid * grid + 1
    }
}

/// The tensors of the embeddings, in the order they are read.
pub open spec fn embedding_keys() -> Seq<Seq<char>> {
    let p = "vision_model."@;
    seq![
        p + "embeddings.patch_embedding.weight"@,
        p + "embeddings.class_embedding"@,
        p + "embeddings.position_embedding.weight"@,
        p + "pre_layrnorm.weight"@,
        p + "pre_layrnorm.bias"@,
    ]
}

/// The prefix of layer `i`.
pub open spec fn layer_prefix(i: nat) -> Seq<char> {
    "vision_model.encoder.layers."@ + decimal(i) + "."@
}

/// The tensors of a layer, in the order they are read.
pub open spec fn layer_keys(i: nat) -> Seq<Seq<char>> {
    let p = layer_prefix(i);
    seq![
        p + "layer_norm1.weight"@,
        p + "layer_norm1.bias"@,
        p + "layer_norm2.weight"@,
        p + "layer_norm2.bias"@,
        p + "self_attn.q_proj.weight"@,
        p + "self_attn.q_proj.bias"@,
        p + "self_attn.k_proj.weight"@,
        p + "self_attn.k_proj.bias"@,
        p + "self_attn.v_proj.weight"@,
        p + "self_attn.v_proj.bias"@,
        p + "self_attn.out_proj.weight"@,
        p + "self_attn.out_proj.bias"@,
        p + "mlp.fc1.weight"@,
        p + "mlp.fc1.bias"@,
        p + "mlp.fc2.weight"@,
        p + "mlp.fc2.bias"@,
    ]
}

/// The tensors of a tower of `layers` layers, in the order they are read.
pub open spec fn tower_keys(layers: nat) -> Seq<Seq<char>>
    decreases layers,
{
    if layers == 0 {
        embedding_keys()
    } else {
        tower_keys((layers - 1) as nat) + layer_keys((layers - 1) as nat)
    }
}

fn push_layer_keys(keys: &mut Vec<String>, i: usize)
    ensures
        views(final(keys)@) == views(old(keys)@) + layer_keys(i as nat),
{
    let ghost before = views(keys@);
    let mut prefix = join("vision_model.encoder.layers.", decimal_of(i).as_str());
    prefix.append(".");
    let p = prefix.as_str();
    push_key(keys, p, "layer_norm1.weight");
    push_key(keys, p, "layer_norm1.bias");
    push_key(keys, p, "layer_norm2.weight");
    push_key(keys, p, "layer_norm2.bias");
    push_key(keys, p, "self_attn.q_proj.weight");
    push_key(keys, p, "self_attn.q_proj.bias");
    push_key(keys, p, "self_attn.k_proj.weight");
    push_key(keys, p, "self_attn.k_proj.bias");
    push_key(keys, p, "self_attn.v_proj.weight");
    push_key(keys, p, "self_attn.v_proj.bias");
    push_key(keys, p, "self_attn.out_proj.weight");
    push_key(keys, p, "self_attn.out_proj.bias");
    push_key(keys, p, "mlp.fc1.weight");
    push_key(keys, p, "mlp.fc1.bias");
    push_key(keys, p, "mlp.fc2.weight");
    push_key(keys, p, "mlp.fc2.bias");
    proof {
        assert(views(keys@) =~= before + layer_keys(i as nat));
    }
}

/// The tensors of a tower, in the order they are read.
pub fn vision_keys(layers: usize) -> (r: Vec<String>)
    ensures
        views(r@) == tower_keys(layers as nat),
{
    let mut keys: Vec<String> = Vec::new();
    let p = "vision_model.";
    proof {
        assert(views(keys@) =~= Seq::empty());
    }
    push_key(&mut keys, p, "embeddings.patch_embedding.weight");
    push_key(&mut keys, p, "embeddings.class_embedding");
    push_key(&mut keys, p, "embeddings.position_embedding.weight");
    push_key(&mut keys, p, "pre_layrnorm.weight");
    push_key(&mut keys, p, "pre_layrnorm.bias");
    proof {
        assert(views(keys@) =~= embedding_keys());
    }
    let mut i: usize = 0;
    while i < layers
        invariant
            i <= layers,
            views(keys@) == tower_keys(i as nat),
        decreases layers - i,
    {
        push_layer_keys(&mut keys, i);
        i += 1;
    }
    keys
}

/// A vision tower, by the positions of its tensors in the checkpoint.
#[derive(Clone, Debug)]
pub struct ClipVisionEncoder {
    pub tensors: Vec<usize>,
    pub layers: usize,
    pub patch: usize,
    pub hidden: usize,
    pub head_dim: usize,
}

impl ClipVisionEncoder {
    /// Finds the tower in a checkpoint; the first tensor that is missing is reported.
    pub fn from_weights(w: &Weights, cfg: &VisionConfig) -> (r: Result<Self, Error>)
        requires
            cfg.num_heads > 0,
        ensures
            match r {
                Ok(t) => {
                    &&& w.is_all(Ok(t.tensors), tower_keys(cfg.num_layers as nat))
                    &&& t.layers == cfg.num_layers && t.patch == cfg.patch && t.hidden
                        == cfg.hidden
                    &&& t.head_dim == cfg.hidden as int / cfg.num_heads as int
                    &&& t.tensors.len() == 5 + 16 * cfg.num_layers
                },
                Err(e) => w.is_all(Err(e), tower_keys(cfg.num_layers as nat)),
            },
    {
        let keys = vision_keys(cfg.num_layers);
        proof {
            lemma_tower_len(cfg.num_layers as nat);
        }
        match w.require_all(&keys) {
            Ok(tensors) => Ok(
                ClipVisionEncoder {
                    tensors,
                    layers: cfg.num_layers,
                    patch: cfg.patch,
                    hidden: cfg.hidden,
                    head_dim: cfg.hidden / cfg.num_heads,
                },
            ),
            Err(e) => Err(e),
        }
    }

    /// The layers that the penultimate state runs through: all but the last.
    pub fn penultimate(&self) -> (r: usize)
        ensures
            r == if self.layers > 0 {
                self.layers - 1
            } else {
                0
            },
            self.layers > 0 ==> r + 1 == self.layers,
            r <= self.layers,
    {
        if self.layers > 0 {
            self.layers - 1
        } else {
            0
        }
    }

    /// The layers that the last state runs through: all of them.
    pub fn last_hidden(&self) -> (r: usize)
        ensures
            r == self.layers,
    {
        self.layers
    }
}

/// The layer that a tensor belongs to.
pub open spec fn layer_of(name: Seq<char>) -> Option<nat> {
    match without_prefix(name, "vision_model.encoder.layers."@) {
        Some(rest) => parsed(rest.take(until(rest, '.')), usize::MAX as nat),
        None => None,
    }
}

/// The larger of two.
pub open spec fn max_of(a: Option<nat>, b: Option<nat>) -> Option<nat> {
    match (a, b) {
        (Some(x), Some(y)) => if x >= y {
            Some(x)
        } else {
            Some(y)
        },
        (Some(x), None) => Some(x),
        _ => b,
    }
}

/// The largest layer that the first `k` tensors belong to.
pub open spec fn last_layer(w: &Weights, k: nat) -> Option<nat>
    decreases k,
{
    if k == 0 {
        None
    } else {
        max_of(last_layer(w, (k - 1) as nat), layer_of(w.tensors[k - 1].name@))
    }
}

/// The decimal numeral of the number after `m`.
fn decimal_after(m: usize) -> (r: String)
    ensures
        r@ == decimal(m as nat + 1),
{
    let carry: usize = if m % 10 == 9 {
        1
    } else {
        0
    };
    let tens: usize = m / 10 + carry;
    let ones: usize = (m % 10 + 1) % 10;
    proof {
        assert((m + 1) / 10 == tens && (m + 1) % 10 == ones);
    }
    let last = decimal_of(ones);
    if tens == 0 {
        last
    } else {
        let s = join(decimal_of(tens).as_str(), last.as_str());
        proof {
            assert(s@ =~= decimal(tens as nat).push(digit_char(ones as nat)));
        }
        s
    }
}

fn layer_index(name: &str) -> (r: Option<usize>)
    ensures
        match r {
            Some(n) => layer_of(name@) == Some(n as nat),
            None => layer_of(name@) is None,
        },
{
    let rest = match strip_prefix(name, "vision_model.encoder.layers.") {
        Some(rest) => rest,
        None => {
            return None;
        },
    };
    let end: usize = match find(rest, '.') {
        Some(k) => k,
        None => rest.unicode_len(),
    };
    proof {
        assert(rest@.subrange(0, end as int) =~= rest@.take(end as int));
    }
    match parse_up_to(rest.substring_char(0, end), usize::MAX as u64) {
        Some(n) => Some(n as usize),
        None => None,
    }
}

/// Refuses a checkpoint whose layers are not those of the geometry: the largest layer index tells
/// their number.
pub fn check_layer_count(w: &Weights, cfg: &VisionConfig) -> (r: Result<(), Error>)
    ensures
        match last_layer(w, w.tensors.len() as nat) {
            None => r matches Err(e) && e.says(
                "clip vision encoder: no `vision_model.encoder.layers.{n}` keys found"@,
            ),
            Some(m) => if m + 1 == cfg.num_layers {
                r is Ok
            } else {
                r matches Err(e) && e.says(
                    "clip vision encoder: checkpoint has "@ + decimal(m + 1)
                        + " layers but the config expects "@ + decimal(cfg.num_layers as nat)
                        + " (wrong ViT-H/ViT-L variant?)"@,
                )
            },
        },
{
    let mut found: Option<usize> = None;
    let mut i: usize = 0;
    while i < w.tensors.len()
        invariant
            i <= w.tensors.len(),
            match found {
                Some(n) => last_layer(w, i as nat) == Some(n as nat),
                None => last_layer(w, i as nat) is None,
            },
        decreases w.tensors.len() - i,
    {
        match layer_index(w.tensors[i].name.as_str()) {
            Some(n) => {
                found = match found {
                    Some(m) => if m >= n {
                        Some(m)
                    } else {
                        Some(n)
                    },
                    None => Some(n),
                };
            },
            None => {},
        }
        i += 1;
    }
    match found {
        None => Err(
            Error::Msg(
                String::from_str(
                    "clip vision encoder: no `vision_model.encoder.layers.{n}` keys found",
                ),
            ),
        ),
        Some(m) => {
            if m < usize::MAX && m + 1 == cfg.num_layers {
                Ok(())
            } else {
                let mut s = join(
                    "clip vision encoder: checkpoint has ",
                    decimal_after(m).as_str(),
                );
                s.append(" layers but the config expects ");
                s.append(decimal_of(cfg.num_layers).as_str());
                s.append(" (wrong ViT-H/ViT-L variant?)");
                Err(Error::Msg(s))
            }
        },
    }
}

/// An image is cut into whole patches, as many on each side as fit, and each is a token beside the
/// class token.
pub proof fn law_image_is_cut_into_patches(c: VisionConfig)
    requires
        c.patch > 0,
    ensures
        c.grid() * c.patch <= c.image_size < (c.grid() + 1) * c.patch,
        c.positions() - 1 == c.grid() * c.grid(),
{
    vstd::arithmetic::div_mod::lemma_fundamental_div_mod(c.image_size as int, c.patch as int);
    let g = c.grid();
    assert((g + 1) * c.patch == g * c.patch + c.patch) by (nonlinear_arith);
    assert(c.patch * g == g * c.patch) by (nonlinear_arith);
}

proof fn lemma_tower_len(layers: nat)
    ensures
        tower_keys(layers).len() == 5 + 16 * layers,
    decreases layers,
{
    if layers > 0 {
        lemma_tower_len((layers - 1) as nat);
    }
}

proof fn lemma_tower_at(layers: nat, i: nat, j: int)
    requires
        i < layers,
        0 <= j < 16,
    ensures
        tower_keys(layers).len() == 5 + 16 * layers,
        tower_keys(layers)[5 + 16 * i + j] == layer_keys(i)[j],
    decreases layers,
{
    lemma_tower_len((layers - 1) as nat);
    if i < layers - 1 {
        lemma_tower_at((layers - 1) as nat, i, j);
    }
}

/// A key under the prefix of layer `i` is read back as a tensor of layer `i`.
proof fn lemma_layer_read_back(i: nat, leaf: Seq<char>)
    requires
        i <= usize::MAX,
    ensures
        layer_of(layer_prefix(i) + leaf) == Some(i),
{
    let p = "vision_model.encoder.layers."@;
    let rest = decimal(i) + ("."@ + leaf);
    reveal_strlit(".");
    assert(layer_prefix(i) + leaf =~= p + rest);
    assert((p + rest).take(p.len() as int) =~= p);
    assert((p + rest).skip(p.len() as int) =~= rest);
    crate::text::lemma_decimal_digits(i);
    crate::text::law_decimal_parses_back(i, usize::MAX as nat);
    assert forall|k: int| 0 <= k < decimal(i).len() implies #[trigger] decimal(i)[k] != '.' by {
        assert(crate::text::is_digit(decimal(i)[k]));
    }
    crate::text::lemma_until_here(decimal(i), "."@ + leaf, '.');
    assert(rest.take(decimal(i).len() as int) =~= decimal(i));
}

/// A tower is read with all its layers, in order: five tensors of the embeddings, then the sixteen of
/// each layer, which by their names are that layer's and no other's.
pub proof fn law_towers_are_read_layer_by_layer(layers: nat, i: nat, j: int)
    requires
        layers <= usize::MAX,
        i < layers,
        0 <= j < 16,
    ensures
        tower_keys(layers).len() == 5 + 16 * layers,
        layer_of(tower_keys(layers)[5 + 16 * i + j]) == Some(i),
        tower_keys(layers)[5 + 16 * i + j] == layer_prefix(i) + layer_keys(0)[j].skip(
            layer_prefix(0).len() as int,
        ),
{
    lemma_tower_at(layers, i, j);
    let leaf = layer_keys(0)[j].skip(layer_prefix(0).len() as int);
    assert(layer_keys(0)[j] =~= layer_prefix(0) + leaf);
    assert(layer_keys(i)[j] =~= layer_prefix(i) + leaf);
    lemma_layer_read_back(i, leaf);
}

/// Every module of a layer is a weight and the bias of the same name, right behind it.
pub proof fn law_weights_come_with_their_bias(i: nat, k: int)
    requires
        0 <= k < 8,
    ensures
        ({
            let (weight, bias) = (layer_keys(i)[2 * k], layer_keys(i)[2 * k + 1]);
            let stem = weight.take(weight.len() - 6);
            weight == stem + "weight"@ && bias == stem + "bias"@
        }),
{
    reveal_strlit("weight");
    reveal_strlit("bias");
    reveal_strlit("layer_norm1.weight");
    reveal_strlit("layer_norm1.bias");
    reveal_strlit("layer_norm2.weight");
    reveal_strlit("layer_norm2.bias");
    reveal_strlit("self_attn.q_proj.weight");
    reveal_strlit("self_attn.q_proj.bias");
    reveal_strlit("self_attn.k_proj.weight");
    reveal_strlit("self_attn.k_proj.bias");
    reveal_strlit("self_attn.v_proj.weight");
    reveal_strlit("self_attn.v_proj.bias");
    reveal_strlit("self_attn.out_proj.weight");
    reveal_strlit("self_attn.out_proj.bias");
    reveal_strlit("mlp.fc1.weight");
    reveal_strlit("mlp.fc1.bias");
    reveal_strlit("mlp.fc2.weight");
    reveal_strlit("mlp.fc2.bias");
    let (weight, bias) = (layer_keys(i)[2 * k], layer_keys(i)[2 * k + 1]);
    let stem = weight.take(weight.len() - 6);
    assert(weight =~= stem + "weight"@);
    assert(bias =~= stem + "bias"@);
}

/// The last layer of a checkpoint is one that it holds, and it holds none behind it; where there is
/// none, no tensor belongs to a layer.
pub proof fn law_last_layer_is_the_largest(w: &Weights, k: nat)
    requires
        k <= w.tensors.len(),
    ensures
        match last_layer(w, k) {
            Some(m) => {
                &&& exists|i: int|
                    0 <= i < k && layer_of((#[trigger] w.tensors[i]).name@) == Some(m)
                &&& forall|i: int|
                    0 <= i < k ==> (layer_of((#[trigger] w.tensors[i]).name@) matches Some(n) ==> n
                        <= m)
            },
            None => forall|i: int|
                0 <= i < k ==> layer_of((#[trigger] w.tensors[i]).name@) is None,
        },
    decreases k,
{
    if k > 0 {
        law_last_layer_is_the_largest(w, (k - 1) as nat);
        assert(w.tensors[k - 1] == w.tensors@[k - 1]);
        if last_layer(w, k) is Some {
            let m = last_layer(w, k)->0;
            if layer_of(w.tensors[k - 1].name@) != Some(m) {
                let i = choose|i: int|
                    0 <= i < k - 1 && layer_of((#[trigger] w.tensors[i]).name@) == Some(m);
                assert(0 <= i < k && layer_of(w.tensors[i].name@) == Some(m));
            }
        }
    }
}

/// A tower is read from its embeddings on: the patches', the class token's and the positions', then the
/// norm before the first layer, its weight first.
pub proof fn law_embeddings_are_read_first(layers: nat, k: int)
    requires
        0 <= k < 5,
    ensures
        tower_keys(layers)[k] == embedding_keys()[k],
        embedding_keys()[0] == "vision_model.embeddings.patch_embedding.weight"@,
        embedding_keys()[1] == "vision_model.embeddings.class_embedding"@,
        embedding_keys()[2] == "vision_model.embeddings.position_embedding.weight"@,
        embedding_keys()[3] == "vision_model.pre_layrnorm.weight"@,
        embedding_keys()[4] == "vision_model.pre_layrnorm.bias"@,
    decreases layers,
{
    reveal_strlit("vision_model.");
    reveal_strlit("embeddings.patch_embedding.weight");
    reveal_strlit("embeddings.class_embedding");
    reveal_strlit("embeddings.position_embedding.weight");
    reveal_strlit("pre_layrnorm.weight");
    reveal_strlit("pre_layrnorm.bias");
    reveal_strlit("vision_model.embeddings.patch_embedding.weight");
    reveal_strlit("vision_model.embeddings.class_embedding");
    reveal_strlit("vision_model.embeddings.position_embedding.weight");
    reveal_strlit("vision_model.pre_layrnorm.weight");
    reveal_strlit("vision_model.pre_layrnorm.bias");
    assert(embedding_keys()[0] =~= "vision_model.embeddings.patch_embedding.weight"@);
    assert(embedding_keys()[1] =~= "vision_model.embeddings.class_embedding"@);
    assert(embedding_keys()[2] =~= "vision_model.embeddings.position_embedding.weight"@);
    assert(embedding_keys()[3] =~= "vision_model.pre_layrnorm.weight"@);
    assert(embedding_keys()[4] =~= "vision_model.pre_layrnorm.bias"@);
    if layers > 0 {
        law_embeddings_are_read_first((layers - 1) as nat, k);
        lemma_tower_len((layers - 1) as nat);
    }
}

} // verus!
