//! Where an adapter module's delta goes: the translation of every accepted module naming to the
//! dotted paths of the SD3.5 transformer.
use crate::adapter::{
    build_table, entries, kohya_rows, table_has, table_path, KohyaTable, TensorEntry,
};
use crate::text::{
    contains, decimal, decimal_of, find, has_part, join, lemma_decimal_digits, parse_up_to, parsed, same, starts,
    strip_prefix, until, without_prefix,
};
use vstd::prelude::*;
use vstd::string::*;

verus! {

/// One destination of a module's delta: the whole delta, or one of several equal row slices.
#[derive(Clone, Debug, PartialEq, Eq)]
pub struct Target {
    /// The dotted base path, without `.weight`.
    pub path: String,
    /// `Some((index, parts))` takes row slice `index` of `parts`.
    pub chunk: Option<(usize, usize)>,
}

/// The characters and the slice of a target.
pub type TargetView = (Seq<char>, Option<(usize, usize)>);

impl Target {
    pub open spec fn v(&self) -> TargetView {
        (self.path@, self.chunk)
    }

    /// The whole delta goes to `path`.
    pub fn single(path: &str) -> (r: Self)
        ensures
            r.v() == whole(path@),
    {
        Target { path: String::from_str(path), chunk: None }
    }

    /// Row slice `index` of `parts` goes to `path`.
    pub fn chunk(path: &str, index: usize, parts: usize) -> (r: Self)
        ensures
            r.v() == slice(path@, index, parts),
    {
        Target { path: String::from_str(path), chunk: Some((index, parts)) }
    }
}

pub open spec fn whole(path: Seq<char>) -> TargetView {
    (path, None)
}

pub open spec fn slice(path: Seq<char>, index: usize, parts: usize) -> TargetView {
    (path, Some((index, parts)))
}

/// The views of a list of targets.
pub open spec fn target_views(v: Seq<Target>) -> Seq<TargetView> {
    v.map_values(|t: Target| t.v())
}

pub open spec fn opt_targets(r: Option<Vec<Target>>) -> Option<Seq<TargetView>> {
    match r {
        Some(v) => Some(target_views(v@)),
        None => None,
    }
}

/// There is at least one target and at most three, and every slice is one of its parts.
pub open spec fn proper(t: Seq<TargetView>) -> bool {
    &&& 1 <= t.len() <= 3
    &&& forall|i: int|
        0 <= i < t.len() ==> ((#[trigger] t[i]).1 matches Some((index, parts)) ==> index < parts
            && parts <= 3)
}

/// Strips the first of the tolerated module prefixes; a key with none of them is taken as it is.
pub open spec fn without_peft_prefix(key: Seq<char>) -> Seq<char> {
    if let Some(s) = without_prefix(key, "base_model.model.transformer."@) {
        s
    } else if let Some(s) = without_prefix(key, "base_model.model."@) {
        s
    } else if let Some(s) = without_prefix(key, "diffusion_model."@) {
        s
    } else if let Some(s) = without_prefix(key, "transformer."@) {
        s
    } else {
        key
    }
}

/// Strips the longest tolerated module prefix, or returns the key unchanged.
pub fn strip_peft_prefix<'a>(key: &'a str) -> (r: &'a str)
    ensures
        r@ == without_peft_prefix(key@),
{
    if let Some(s) = strip_prefix(key, "base_model.model.transformer.") {
        s
    } else if let Some(s) = strip_prefix(key, "base_model.model.") {
        s
    } else if let Some(s) = strip_prefix(key, "diffusion_model.") {
        s
    } else if let Some(s) = strip_prefix(key, "transformer.") {
        s
    } else {
        key
    }
}

/// The path of joint block `i`.
pub open spec fn block_path(i: nat) -> Seq<char> {
    "transformer_blocks."@ + decimal(i)
}

/// The targets of a leaf of joint block `i`. The image stream and the text (`context`) stream have
/// their own names; the fused `attn_qkv` splits into query, key and value rows, in that order.
pub open spec fn leaf_targets(i: nat, leaf: Seq<char>, context: bool) -> Option<Seq<TargetView>> {
    let block = block_path(i);
    let attn = block + ".attn"@;
    if leaf == "attn_qkv"@ {
        if context {
            Some(
                seq![
                    slice(attn + ".add_q_proj"@, 0, 3),
                    slice(attn + ".add_k_proj"@, 1, 3),
                    slice(attn + ".add_v_proj"@, 2, 3),
                ],
            )
        } else {
            Some(
                seq![
                    slice(attn + ".to_q"@, 0, 3),
                    slice(attn + ".to_k"@, 1, 3),
                    slice(attn + ".to_v"@, 2, 3),
                ],
            )
        }
    } else if leaf == "attn_proj"@ {
        Some(
            seq![
                whole(
                    attn + if context {
                        ".to_add_out"@
                    } else {
                        ".to_out.0"@
                    },
                ),
            ],
        )
    } else if leaf == "mlp_fc1"@ {
        Some(
            seq![
                whole(
                    block + if context {
                        ".ff_context.net.0.proj"@
                    } else {
                        ".ff.net.0.proj"@
                    },
                ),
            ],
        )
    } else if leaf == "mlp_fc2"@ {
        Some(
            seq![
                whole(
                    block + if context {
                        ".ff_context.net.2"@
                    } else {
                        ".ff.net.2"@
                    },
                ),
            ],
        )
    } else if leaf == "adaLN_modulation_1"@ {
        Some(
            seq![
                whole(
                    block + if context {
                        ".norm1_context.linear"@
                    } else {
                        ".norm1.linear"@
                    },
                ),
            ],
        )
    } else {
        None
    }
}

fn one(path: &str) -> (r: Option<Vec<Target>>)
    ensures
        opt_targets(r) == Some(seq![whole(path@)]),
{
    let mut v: Vec<Target> = Vec::new();
    v.push(Target::single(path));
    proof {
        assert(target_views(v@) =~= seq![whole(path@)]);
    }
    Some(v)
}

fn three(base: &str, q: &str, k: &str, v: &str) -> (r: Option<Vec<Target>>)
    ensures
        opt_targets(r) == Some(
            seq![
                slice(base@ + q@, 0, 3),
                slice(base@ + k@, 1, 3),
                slice(base@ + v@, 2, 3),
            ],
        ),
{
    let mut out: Vec<Target> = Vec::new();
    out.push(Target::chunk(join(base, q).as_str(), 0, 3));
    out.push(Target::chunk(join(base, k).as_str(), 1, 3));
    out.push(Target::chunk(join(base, v).as_str(), 2, 3));
    proof {
        assert(target_views(out@) =~= seq![
            slice(base@ + q@, 0, 3),
            slice(base@ + k@, 1, 3),
            slice(base@ + v@, 2, 3),
        ]);
    }
    Some(out)
}

/// The targets of a leaf of joint block `i`; `context` selects the text stream.
pub fn map_block_leaf(i: usize, leaf: &str, context: bool) -> (r: Option<Vec<Target>>)
    ensures
        opt_targets(r) == leaf_targets(i as nat, leaf@, context),
{
    let block = join("transformer_blocks.", decimal_of(i).as_str());
    let attn = join(block.as_str(), ".attn");
    if same(leaf, "attn_qkv") {
        if context {
            three(attn.as_str(), ".add_q_proj", ".add_k_proj", ".add_v_proj")
        } else {
            three(attn.as_str(), ".to_q", ".to_k", ".to_v")
        }
    } else if same(leaf, "attn_proj") {
        if context {
            one(join(attn.as_str(), ".to_add_out").as_str())
        } else {
            one(join(attn.as_str(), ".to_out.0").as_str())
        }
    } else if same(leaf, "mlp_fc1") {
        if context {
            one(join(block.as_str(), ".ff_context.net.0.proj").as_str())
        } else {
            one(join(block.as_str(), ".ff.net.0.proj").as_str())
        }
    } else if same(leaf, "mlp_fc2") {
        if context {
            one(join(block.as_str(), ".ff_context.net.2").as_str())
        } else {
            one(join(block.as_str(), ".ff.net.2").as_str())
        }
    } else if same(leaf, "adaLN_modulation_1") {
        if context {
            one(join(block.as_str(), ".norm1_context.linear").as_str())
        } else {
            one(join(block.as_str(), ".norm1.linear").as_str())
        }
    } else {
        None
    }
}

/// The targets of a module outside the joint blocks.
pub open spec fn top_level_target(stem: Seq<char>) -> Option<Seq<char>> {
    if stem == "final_layer_linear"@ {
        Some("proj_out"@)
    } else if stem == "final_layer_adaLN_modulation_1"@ {
        Some("norm_out.linear"@)
    } else if stem == "context_embedder"@ {
        Some("context_embedder"@)
    } else if stem == "x_embedder_proj"@ {
        Some("pos_embed.proj"@)
    } else if stem == "t_embedder_mlp_0"@ {
        Some("time_text_embed.timestep_embedder.linear_1"@)
    } else if stem == "t_embedder_mlp_2"@ {
        Some("time_text_embed.timestep_embedder.linear_2"@)
    } else if stem == "y_embedder_mlp_0"@ {
        Some("time_text_embed.text_embedder.linear_1"@)
    } else if stem == "y_embedder_mlp_2"@ {
        Some("time_text_embed.text_embedder.linear_2"@)
    } else {
        None
    }
}

/// The targets of a module named in the transformer's native naming:
/// `joint_blocks_<i>_{x_block|context_block}_<leaf>`, or a top-level module.
pub open spec fn native_targets(stem: Seq<char>) -> Option<Seq<TargetView>> {
    match without_prefix(stem, "joint_blocks_"@) {
        Some(after) => {
            let sep = until(after, '_');
            if sep == after.len() {
                None
            } else {
                match parsed(after.take(sep), usize::MAX as nat) {
                    Some(i) => {
                        let leaf = after.skip(sep + 1);
                        if starts(leaf, "x_block_"@) {
                            leaf_targets(i, without_prefix(leaf, "x_block_"@)->0, false)
                        } else if starts(leaf, "context_block_"@) {
                            leaf_targets(i, without_prefix(leaf, "context_block_"@)->0, true)
                        } else {
                            None
                        }
                    },
                    None => None,
                }
            }
        },
        None => match top_level_target(stem) {
            Some(p) => Some(seq![whole(p)]),
            None => None,
        },
    }
}

/// Maps a natively named module to its targets; `None` is outside the known surface.
pub fn map_native_stem(stem: &str) -> (r: Option<Vec<Target>>)
    ensures
        opt_targets(r) == native_targets(stem@),
{
    if let Some(after) = strip_prefix(stem, "joint_blocks_") {
        let sep: usize = match find(after, '_') {
            Some(k) => k,
            None => {
                return None;
            },
        };
        let n: usize = after.unicode_len();
        proof {
            assert(after@.subrange(0, sep as int) =~= after@.take(sep as int));
            assert(after@.subrange(sep + 1, n as int) =~= after@.skip(sep + 1));
        }
        let i: usize = match parse_up_to(after.substring_char(0, sep), usize::MAX as u64) {
            Some(k) => k as usize,
            None => {
                return None;
            },
        };
        let leaf = after.substring_char(sep + 1, n);
        if let Some(m) = strip_prefix(leaf, "x_block_") {
            return map_block_leaf(i, m, false);
        }
        if let Some(m) = strip_prefix(leaf, "context_block_") {
            return map_block_leaf(i, m, true);
        }
        return None;
    }
    if same(stem, "final_layer_linear") {
        one("proj_out")
    } else if same(stem, "final_layer_adaLN_modulation_1") {
        one("norm_out.linear")
    } else if same(stem, "context_embedder") {
        one("context_embedder")
    } else if same(stem, "x_embedder_proj") {
        one("pos_embed.proj")
    } else if same(stem, "t_embedder_mlp_0") {
        one("time_text_embed.timestep_embedder.linear_1")
    } else if same(stem, "t_embedder_mlp_2") {
        one("time_text_embed.timestep_embedder.linear_2")
    } else if same(stem, "y_embedder_mlp_0") {
        one("time_text_embed.text_embedder.linear_1")
    } else if same(stem, "y_embedder_mlp_2") {
        one("time_text_embed.text_embedder.linear_2")
    } else {
        None
    }
}

/// The targets of a module stem: natively named, flattened in the transformer's own naming, or a
/// dotted path. A name that is none of these is out of the surface.
pub open spec fn stem_targets(stem: Seq<char>, table: Map<Seq<char>, Seq<char>>) -> Option<Seq<TargetView>> {
    if let Some(native) = without_prefix(stem, "lora_unet_"@) {
        native_targets(native)
    } else if let Some(flat) = without_prefix(stem, "lora_transformer_"@) {
        match table_path(table, flat) {
            Some(d) => Some(seq![whole(d)]),
            None => None,
        }
    } else {
        let path = without_peft_prefix(stem);
        if has_part(path, "."@) || table_has(table, path) {
            Some(seq![whole(path)])
        } else {
            None
        }
    }
}

/// The flattened-name table of the base transformer's linear weights.
pub fn build_kohya_table(base: &Vec<TensorEntry>) -> (r: KohyaTable)
    ensures
        r.wf(),
        r@ == kohya_rows(entries(base@), false, base.len() as int),
{
    build_table(base, false)
}

/// Resolves a module stem to its targets; `None` is out of the surface.
pub fn resolve_targets(stem: &str, table: &KohyaTable) -> (r: Option<Vec<Target>>)
    requires
        table.wf(),
    ensures
        opt_targets(r) == stem_targets(stem@, table@),
{
    if let Some(native) = strip_prefix(stem, "lora_unet_") {
        return map_native_stem(native);
    }
    if let Some(flat) = strip_prefix(stem, "lora_transformer_") {
        return match table.get(flat) {
            Some(d) => one(d.as_str()),
            None => None,
        };
    }
    let path = strip_peft_prefix(stem);
    if contains(path, ".") || table.contains_path(path) {
        one(path)
    } else {
        None
    }
}

/// Whatever a stem resolves to has one whole target, or three slices that are the thirds of the
/// fused projection, in order.
pub proof fn law_targets_partition_the_delta(stem: Seq<char>, table: Map<Seq<char>, Seq<char>>)
    ensures
        stem_targets(stem, table) matches Some(t) ==> proper(t) && (t.len() == 1 && t[0].1 is None
            || t.len() == 3 && forall|i: int|
            0 <= i < 3 ==> (#[trigger] t[i]).1 == Some((i as usize, 3usize))),
{
}

/// The index of a block, where a stem names one, is spelled without a sign and without leading zeros.
pub open spec fn is_plain_stem(stem: Seq<char>) -> bool {
    without_prefix(stem, "joint_blocks_"@) matches Some(after) ==> {
        let index = after.take(until(after, '_'));
        parsed(index, usize::MAX as nat) matches Some(i) ==> index == decimal(i)
    }
}

/// The leaf that a path below a block belongs to, and whether that is of the text stream.
spec fn leaf_of(below: Seq<char>) -> (Seq<char>, bool) {
    if below == ".attn.to_q"@ || below == ".attn.to_k"@ || below == ".attn.to_v"@ {
        ("attn_qkv"@, false)
    } else if below == ".attn.add_q_proj"@ || below == ".attn.add_k_proj"@ || below
        == ".attn.add_v_proj"@ {
        ("attn_qkv"@, true)
    } else if below == ".attn.to_out.0"@ {
        ("attn_proj"@, false)
    } else if below == ".attn.to_add_out"@ {
        ("attn_proj"@, true)
    } else if below == ".ff.net.0.proj"@ {
        ("mlp_fc1"@, false)
    } else if below == ".ff_context.net.0.proj"@ {
        ("mlp_fc1"@, true)
    } else if below == ".ff.net.2"@ {
        ("mlp_fc2"@, false)
    } else if below == ".ff_context.net.2"@ {
        ("mlp_fc2"@, true)
    } else if below == ".norm1.linear"@ {
        ("adaLN_modulation_1"@, false)
    } else {
        ("adaLN_modulation_1"@, true)
    }
}

/// A target of a leaf lies below its block, on a path that no other leaf has.
proof fn lemma_leaf_path(i: nat, leaf: Seq<char>, context: bool, k: int) -> (below: Seq<char>)
    requires
        leaf_targets(i, leaf, context) matches Some(t) && 0 <= k < t.len(),
    ensures
        (leaf_targets(i, leaf, context)->0)[k].0 == block_path(i) + below,
        below.len() > 0 && below[0] == '.',
        leaf_of(below) == (leaf, context),
{
    reveal_strlit("attn_qkv");
    reveal_strlit("attn_proj");
    assert("attn_qkv"@.len() != "attn_proj"@.len());
    reveal_strlit(".attn");
    reveal_strlit(".to_q");
    reveal_strlit(".to_k");
    reveal_strlit(".to_v");
    reveal_strlit(".add_q_proj");
    reveal_strlit(".add_k_proj");
    reveal_strlit(".add_v_proj");
    reveal_strlit(".to_out.0");
    reveal_strlit(".to_add_out");
    reveal_strlit(".attn.to_q");
    reveal_strlit(".attn.to_k");
    reveal_strlit(".attn.to_v");
    reveal_strlit(".attn.add_q_proj");
    reveal_strlit(".attn.add_k_proj");
    reveal_strlit(".attn.add_v_proj");
    reveal_strlit(".attn.to_out.0");
    reveal_strlit(".attn.to_add_out");
    reveal_strlit(".ff.net.0.proj");
    reveal_strlit(".ff_context.net.0.proj");
    reveal_strlit(".ff.net.2");
    reveal_strlit(".ff_context.net.2");
    reveal_strlit(".norm1.linear");
    reveal_strlit(".norm1_context.linear");
    let path = (leaf_targets(i, leaf, context)->0)[k].0;
    let block = block_path(i);
    let attn = block + ".attn"@;
    let tail = if leaf == "attn_qkv"@ {
        if context {
            if k == 0 {
                ".add_q_proj"@
            } else if k == 1 {
                ".add_k_proj"@
            } else {
                ".add_v_proj"@
            }
        } else {
            if k == 0 {
                ".to_q"@
            } else if k == 1 {
                ".to_k"@
            } else {
                ".to_v"@
            }
        }
    } else if context {
        ".to_add_out"@
    } else {
        ".to_out.0"@
    };
    if leaf == "attn_qkv"@ || leaf == "attn_proj"@ {
        let below = ".attn"@ + tail;
        assert(path == attn + tail);
        assert(attn + tail =~= block + below);
        assert(below[0] == '.');
        if leaf == "attn_proj"@ {
            if context {
                assert(below =~= ".attn.to_add_out"@);
                assert(below[6] == 't');
                assert(".attn.add_q_proj"@[6] == 'a' && ".attn.add_k_proj"@[6] == 'a'
                    && ".attn.add_v_proj"@[6] == 'a');
            } else {
                assert(below =~= ".attn.to_out.0"@);
            }
        } else if context {
            if k == 0 {
                assert(below =~= ".attn.add_q_proj"@);
            } else if k == 1 {
                assert(below =~= ".attn.add_k_proj"@);
            } else {
                assert(below =~= ".attn.add_v_proj"@);
            }
        } else {
            if k == 0 {
                assert(below =~= ".attn.to_q"@);
            } else if k == 1 {
                assert(below =~= ".attn.to_k"@);
            } else {
                assert(below =~= ".attn.to_v"@);
            }
        }
        below
    } else {
        let below = if leaf == "mlp_fc1"@ {
            if context {
                ".ff_context.net.0.proj"@
            } else {
                ".ff.net.0.proj"@
            }
        } else if leaf == "mlp_fc2"@ {
            if context {
                ".ff_context.net.2"@
            } else {
                ".ff.net.2"@
            }
        } else if context {
            ".norm1_context.linear"@
        } else {
            ".norm1.linear"@
        };
        assert(path == block + below);
        assert(".ff.net.0.proj"@[1] == 'f' && ".attn.to_out.0"@[1] == 'a');
        below
    }
}

/// The part up to a separator that occurs is followed by it.
proof fn lemma_until(s: Seq<char>, c: char)
    ensures
        0 <= until(s, c) <= s.len(),
        until(s, c) < s.len() ==> s[until(s, c)] == c,
    decreases s.len(),
{
    if s.len() > 0 && s[0] != c {
        lemma_until(s.skip(1), c);
    }
}

/// The stem of a leaf of the block with the given index.
spec fn leaf_stem(index: Seq<char>, leaf: Seq<char>, context: bool) -> Seq<char> {
    "joint_blocks_"@ + index + "_"@ + (if context {
        "context_block_"@
    } else {
        "x_block_"@
    }) + leaf
}

/// A stem of a block is made of its index and its leaf.
proof fn lemma_block_stem(stem: Seq<char>) -> (r: (nat, Seq<char>, bool))
    requires
        is_plain_stem(stem),
        native_targets(stem) is Some,
        starts(stem, "joint_blocks_"@),
    ensures
        stem == leaf_stem(decimal(r.0), r.1, r.2),
        native_targets(stem) == leaf_targets(r.0, r.1, r.2),
{
    reveal_strlit("_");
    let after = without_prefix(stem, "joint_blocks_"@)->0;
    let sep = until(after, '_');
    lemma_until(after, '_');
    let index = after.take(sep);
    let i = parsed(index, usize::MAX as nat)->0;
    let rest = after.skip(sep + 1);
    let context = !starts(rest, "x_block_"@);
    let stream = if context {
        "context_block_"@
    } else {
        "x_block_"@
    };
    let leaf = without_prefix(rest, stream)->0;
    assert(rest =~= stream + leaf);
    assert(after =~= index + "_"@ + rest);
    assert(stem =~= "joint_blocks_"@ + after);
    assert(stem =~= leaf_stem(decimal(i), leaf, context));
    (i, leaf, context)
}

/// A path is split in one way into the path of a block and one below it.
pub proof fn lemma_block_path_splits(i: nat, j: nat, a: Seq<char>, b: Seq<char>)
    requires
        block_path(i) + a == block_path(j) + b,
        a.len() > 0 && a[0] == '.',
        b.len() > 0 && b[0] == '.',
    ensures
        decimal(i) == decimal(j) && a == b,
{
    let head = "transformer_blocks."@;
    let (p, q) = (block_path(i) + a, block_path(j) + b);
    let n = head.len() as int;
    let (x, y) = (decimal(i), decimal(j));
    lemma_decimal_digits(i);
    lemma_decimal_digits(j);
    assert(p.skip(n) =~= x + a);
    assert(q.skip(n) =~= y + b);
    let r = x + a;
    assert(r == y + b);
    if x.len() < y.len() {
        assert(r[x.len() as int] == a[0]);
        assert(r[x.len() as int] == y[x.len() as int]);
    } else if y.len() < x.len() {
        assert(r[y.len() as int] == b[0]);
        assert(r[y.len() as int] == x[y.len() as int]);
    }
    assert(x =~= r.take(x.len() as int));
    assert(y =~= r.take(y.len() as int));
    assert(a =~= r.skip(x.len() as int));
    assert(b =~= r.skip(y.len() as int));
}

/// The top-level stem of a path.
spec fn top_level_stem(path: Seq<char>) -> Seq<char> {
    if path == "proj_out"@ {
        "final_layer_linear"@
    } else if path == "norm_out.linear"@ {
        "final_layer_adaLN_modulation_1"@
    } else if path == "context_embedder"@ {
        "context_embedder"@
    } else if path == "pos_embed.proj"@ {
        "x_embedder_proj"@
    } else if path == "time_text_embed.timestep_embedder.linear_1"@ {
        "t_embedder_mlp_0"@
    } else if path == "time_text_embed.timestep_embedder.linear_2"@ {
        "t_embedder_mlp_2"@
    } else if path == "time_text_embed.text_embedder.linear_1"@ {
        "y_embedder_mlp_0"@
    } else {
        "y_embedder_mlp_2"@
    }
}

/// A top-level path tells its stem, and lies in no block.
proof fn lemma_top_level_path(stem: Seq<char>, i: nat, below: Seq<char>)
    requires
        top_level_target(stem) is Some,
    ensures
        top_level_stem(top_level_target(stem)->0) == stem,
        top_level_target(stem)->0 != block_path(i) + below,
{
    reveal_strlit("proj_out");
    reveal_strlit("norm_out.linear");
    reveal_strlit("context_embedder");
    reveal_strlit("pos_embed.proj");
    reveal_strlit("time_text_embed.timestep_embedder.linear_1");
    reveal_strlit("time_text_embed.timestep_embedder.linear_2");
    reveal_strlit("time_text_embed.text_embedder.linear_1");
    reveal_strlit("time_text_embed.text_embedder.linear_2");
    reveal_strlit("transformer_blocks.");
    let path = top_level_target(stem)->0;
    let inner = block_path(i) + below;
    assert(inner[0] == 't' && inner[1] == 'r');
    assert("proj_out"@.len() == 8 && "norm_out.linear"@.len() == 15 && "context_embedder"@.len() == 16
        && "pos_embed.proj"@.len() == 14);
    assert("time_text_embed.timestep_embedder.linear_1"@.len() == 42);
    assert("time_text_embed.timestep_embedder.linear_2"@.len() == 42);
    assert("time_text_embed.text_embedder.linear_1"@.len() == 38);
    assert("time_text_embed.text_embedder.linear_2"@.len() == 38);
    assert("time_text_embed.timestep_embedder.linear_1"@[41] == '1');
    assert("time_text_embed.timestep_embedder.linear_2"@[41] == '2');
    assert("time_text_embed.text_embedder.linear_1"@[37] == '1');
    assert("time_text_embed.text_embedder.linear_2"@[37] == '2');
}

/// Two modules of the native naming never fold into the same weight: different stems, their block
/// indices spelled plainly, have no path in common.
pub proof fn law_native_stems_share_no_path(a: Seq<char>, b: Seq<char>, k: int, l: int)
    requires
        a != b,
        is_plain_stem(a),
        is_plain_stem(b),
        native_targets(a) matches Some(t) && 0 <= k < t.len(),
        native_targets(b) matches Some(t) && 0 <= l < t.len(),
    ensures
        (native_targets(a)->0)[k].0 != (native_targets(b)->0)[l].0,
{
    let (p, q) = ((native_targets(a)->0)[k].0, (native_targets(b)->0)[l].0);
    if starts(a, "joint_blocks_"@) {
        let (i, leaf, context) = lemma_block_stem(a);
        let below = lemma_leaf_path(i, leaf, context, k);
        if starts(b, "joint_blocks_"@) {
            let (j, other, stream) = lemma_block_stem(b);
            let under = lemma_leaf_path(j, other, stream, l);
            if p == q {
                lemma_block_path_splits(i, j, below, under);
            }
        } else {
            lemma_top_level_path(b, i, below);
        }
    } else if starts(b, "joint_blocks_"@) {
        let (j, other, stream) = lemma_block_stem(b);
        let under = lemma_leaf_path(j, other, stream, l);
        lemma_top_level_path(a, j, under);
    } else {
        lemma_top_level_path(a, 0, Seq::empty());
        lemma_top_level_path(b, 0, Seq::empty());
    }
}

/// What a trainer puts before a path does not count: each of the prefixes in use comes off, the longer
/// of two where both would; and a path that begins with none of them is taken as it stands.
pub proof fn law_prefixes_do_not_count(path: Seq<char>)
    ensures
        without_peft_prefix("base_model.model.transformer."@ + path) == path,
        without_peft_prefix("diffusion_model."@ + path) == path,
        without_peft_prefix("transformer."@ + path) == path,
        !starts(path, "transformer."@) ==> without_peft_prefix("base_model.model."@ + path) == path,
        !starts(path, "transformer."@) && !starts(path, "diffusion_model."@) && !starts(
            path,
            "base_model.model."@,
        ) ==> without_peft_prefix(path) == path,
{
    let (a, b) = ("base_model.model.transformer."@, "base_model.model."@);
    let (c, d) = ("diffusion_model."@, "transformer."@);
    reveal_strlit("base_model.model.transformer.");
    reveal_strlit("base_model.model.");
    reveal_strlit("diffusion_model.");
    reveal_strlit("transformer.");
    crate::text::law_affixes_come_off(path, a);
    crate::text::law_affixes_come_off(path, b);
    crate::text::law_affixes_come_off(path, c);
    crate::text::law_affixes_come_off(path, d);
    assert(a =~= b + d);
    assert((c + path)[0] == 'd' && (d + path)[0] == 't' && a[0] == 'b' && b[0] == 'b');
    assert(!starts(c + path, a) && !starts(c + path, b)) by {
        if starts(c + path, a) {
            assert((c + path).take(a.len() as int)[0] == a[0]);
        }
        if starts(c + path, b) {
            assert((c + path).take(b.len() as int)[0] == b[0]);
        }
    }
    assert(!starts(d + path, a) && !starts(d + path, b) && !starts(d + path, c)) by {
        if starts(d + path, a) {
            assert((d + path).take(a.len() as int)[0] == a[0]);
        }
        if starts(d + path, b) {
            assert((d + path).take(b.len() as int)[0] == b[0]);
        }
        if starts(d + path, c) {
            assert((d + path).take(c.len() as int)[0] == c[0]);
        }
    }
    if starts(b + path, a) {
        assert(path.take(d.len() as int) =~= (b + path).take(a.len() as int).skip(b.len() as int));
        assert(a.skip(b.len() as int) =~= d);
    }
    if starts(path, a) {
        assert(path.take(b.len() as int) =~= path.take(a.len() as int).take(b.len() as int));
        assert(a.take(b.len() as int) =~= b);
    }
}

} // verus!
