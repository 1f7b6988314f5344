//! The modules of an SD3.5 transformer by their places in a checkpoint.
use super::targets::{
    block_path, leaf_targets, lemma_block_path_splits, native_targets, slice, stem_targets,
    top_level_target, whole,
};
use crate::adapter::table_path;
use super::transformer::{JointAttention, JointBlock, SelfAttention, Sd3Transformer};
use crate::text::{
    decimal, decimal_of, has_part, join, law_decimal_parses_back, lemma_decimal_digits,
    lemma_until_here, starts, without_prefix,
};
use vstd::prelude::*;
use vstd::string::*;

verus! {

/// A module of a joint block.
#[derive(Clone, Copy, Debug, PartialEq, Eq, Structural)]
pub enum BlockPart {
    Norm1,
    Norm1Context,
    NormQ,
    NormK,
    NormAddedQ,
    NormAddedK,
    ToOut,
    ToAddOut,
    ToQ,
    ToK,
    ToV,
    AddQ,
    AddK,
    AddV,
    DualNormQ,
    DualNormK,
    DualToQ,
    DualToK,
    DualToV,
    DualToOut,
    FfIn,
    FfOut,
    FfContextIn,
    FfContextOut,
}

/// A module of the transformer.
#[derive(Clone, Copy, Debug, PartialEq, Eq, Structural)]
pub enum Part {
    /// A module of the numbered joint block.
    Block(usize, BlockPart),
    PatchConv,
    PositionTable,
    TimestepLinear1,
    TimestepLinear2,
    TextLinear1,
    TextLinear2,
    ContextEmbedder,
    NormOut,
    ProjOut,
}

impl BlockPart {
    /// The path of the module below its block.
    pub open spec fn key(self) -> Seq<char> {
        match self {
            BlockPart::Norm1 => ".norm1.linear"@,
            BlockPart::Norm1Context => ".norm1_context.linear"@,
            BlockPart::NormQ => ".attn.norm_q"@,
            BlockPart::NormK => ".attn.norm_k"@,
            BlockPart::NormAddedQ => ".attn.norm_added_q"@,
            BlockPart::NormAddedK => ".attn.norm_added_k"@,
            BlockPart::ToOut => ".attn.to_out.0"@,
            BlockPart::ToAddOut => ".attn.to_add_out"@,
            BlockPart::ToQ => ".attn.to_q"@,
            BlockPart::ToK => ".attn.to_k"@,
            BlockPart::ToV => ".attn.to_v"@,
            BlockPart::AddQ => ".attn.add_q_proj"@,
            BlockPart::AddK => ".attn.add_k_proj"@,
            BlockPart::AddV => ".attn.add_v_proj"@,
            BlockPart::DualNormQ => ".attn2.norm_q"@,
            BlockPart::DualNormK => ".attn2.norm_k"@,
            BlockPart::DualToQ => ".attn2.to_q"@,
            BlockPart::DualToK => ".attn2.to_k"@,
            BlockPart::DualToV => ".attn2.to_v"@,
            BlockPart::DualToOut => ".attn2.to_out.0"@,
            BlockPart::FfIn => ".ff.net.0.proj"@,
            BlockPart::FfOut => ".ff.net.2"@,
            BlockPart::FfContextIn => ".ff_context.net.0.proj"@,
            BlockPart::FfContextOut => ".ff_context.net.2"@,
        }
    }

    fn below(self) -> (r: &'static str)
        ensures
            r@ == self.key(),
    {
        match self {
            BlockPart::Norm1 => ".norm1.linear",
            BlockPart::Norm1Context => ".norm1_context.linear",
            BlockPart::NormQ => ".attn.norm_q",
            BlockPart::NormK => ".attn.norm_k",
            BlockPart::NormAddedQ => ".attn.norm_added_q",
            BlockPart::NormAddedK => ".attn.norm_added_k",
            BlockPart::ToOut => ".attn.to_out.0",
            BlockPart::ToAddOut => ".attn.to_add_out",
            BlockPart::ToQ => ".attn.to_q",
            BlockPart::ToK => ".attn.to_k",
            BlockPart::ToV => ".attn.to_v",
            BlockPart::AddQ => ".attn.add_q_proj",
            BlockPart::AddK => ".attn.add_k_proj",
            BlockPart::AddV => ".attn.add_v_proj",
            BlockPart::DualNormQ => ".attn2.norm_q",
            BlockPart::DualNormK => ".attn2.norm_k",
            BlockPart::DualToQ => ".attn2.to_q",
            BlockPart::DualToK => ".attn2.to_k",
            BlockPart::DualToV => ".attn2.to_v",
            BlockPart::DualToOut => ".attn2.to_out.0",
            BlockPart::FfIn => ".ff.net.0.proj",
            BlockPart::FfOut => ".ff.net.2",
            BlockPart::FfContextIn => ".ff_context.net.0.proj",
            BlockPart::FfContextOut => ".ff_context.net.2",
        }
    }

    /// What tells the path from every other: its length, its last character, and one in the middle.
    spec fn mark(self) -> (int, char, char) {
        match self {
            BlockPart::Norm1 => (13, 'r', ' '),
            BlockPart::Norm1Context => (21, 'r', ' '),
            BlockPart::NormQ => (12, 'q', ' '),
            BlockPart::NormK => (12, 'k', ' '),
            BlockPart::NormAddedQ => (18, 'q', ' '),
            BlockPart::NormAddedK => (18, 'k', ' '),
            BlockPart::ToOut => (14, '0', ' '),
            BlockPart::ToAddOut => (16, 't', 'd'),
            BlockPart::ToQ => (10, 'q', ' '),
            BlockPart::ToK => (10, 'k', ' '),
            BlockPart::ToV => (10, 'v', ' '),
            BlockPart::AddQ => (16, 'j', 'q'),
            BlockPart::AddK => (16, 'j', 'k'),
            BlockPart::AddV => (16, 'j', 'v'),
            BlockPart::DualNormQ => (13, 'q', ' '),
            BlockPart::DualNormK => (13, 'k', ' '),
            BlockPart::DualToQ => (11, 'q', ' '),
            BlockPart::DualToK => (11, 'k', ' '),
            BlockPart::DualToV => (11, 'v', ' '),
            BlockPart::DualToOut => (15, '0', ' '),
            BlockPart::FfIn => (14, 'j', ' '),
            BlockPart::FfOut => (9, '2', ' '),
            BlockPart::FfContextIn => (22, 'j', ' '),
            BlockPart::FfContextOut => (17, '2', ' '),
        }
    }

    proof fn lemma_mark(self)
        ensures
            self.key().len() == self.mark().0,
            self.key()[0] == '.',
            self.key().last() == self.mark().1,
            self.key().len() == 16 ==> self.key()[10] == self.mark().2,
    {
        match self {
            BlockPart::Norm1 => reveal_strlit(".norm1.linear"),
            BlockPart::Norm1Context => reveal_strlit(".norm1_context.linear"),
            BlockPart::NormQ => reveal_strlit(".attn.norm_q"),
            BlockPart::NormK => reveal_strlit(".attn.norm_k"),
            BlockPart::NormAddedQ => reveal_strlit(".attn.norm_added_q"),
            BlockPart::NormAddedK => reveal_strlit(".attn.norm_added_k"),
            BlockPart::ToOut => reveal_strlit(".attn.to_out.0"),
            BlockPart::ToAddOut => reveal_strlit(".attn.to_add_out"),
            BlockPart::ToQ => reveal_strlit(".attn.to_q"),
            BlockPart::ToK => reveal_strlit(".attn.to_k"),
            BlockPart::ToV => reveal_strlit(".attn.to_v"),
            BlockPart::AddQ => reveal_strlit(".attn.add_q_proj"),
            BlockPart::AddK => reveal_strlit(".attn.add_k_proj"),
            BlockPart::AddV => reveal_strlit(".attn.add_v_proj"),
            BlockPart::DualNormQ => reveal_strlit(".attn2.norm_q"),
            BlockPart::DualNormK => reveal_strlit(".attn2.norm_k"),
            BlockPart::DualToQ => reveal_strlit(".attn2.to_q"),
            BlockPart::DualToK => reveal_strlit(".attn2.to_k"),
            BlockPart::DualToV => reveal_strlit(".attn2.to_v"),
            BlockPart::DualToOut => reveal_strlit(".attn2.to_out.0"),
            BlockPart::FfIn => reveal_strlit(".ff.net.0.proj"),
            BlockPart::FfOut => reveal_strlit(".ff.net.2"),
            BlockPart::FfContextIn => reveal_strlit(".ff_context.net.0.proj"),
            BlockPart::FfContextOut => reveal_strlit(".ff_context.net.2"),
        }
    }
}

impl Part {
    /// The dotted checkpoint path of the module.
    pub open spec fn key(self) -> Seq<char> {
        match self {
            Part::Block(i, p) => block_path(i as nat) + p.key(),
            Part::PatchConv => "pos_embed.proj"@,
            Part::PositionTable => "pos_embed.pos_embed"@,
            Part::TimestepLinear1 => "time_text_embed.timestep_embedder.linear_1"@,
            Part::TimestepLinear2 => "time_text_embed.timestep_embedder.linear_2"@,
            Part::TextLinear1 => "time_text_embed.text_embedder.linear_1"@,
            Part::TextLinear2 => "time_text_embed.text_embedder.linear_2"@,
            Part::ContextEmbedder => "context_embedder"@,
            Part::NormOut => "norm_out.linear"@,
            Part::ProjOut => "proj_out"@,
        }
    }

    /// The dotted checkpoint path of the module.
    pub fn path(self) -> (r: String)
        ensures
            r@ == self.key(),
    {
        match self {
            Part::Block(i, p) => {
                let mut s = join("transformer_blocks.", decimal_of(i).as_str());
                s.append(p.below());
                s
            },
            Part::PatchConv => String::from_str("pos_embed.proj"),
            Part::PositionTable => String::from_str("pos_embed.pos_embed"),
            Part::TimestepLinear1 => String::from_str("time_text_embed.timestep_embedder.linear_1"),
            Part::TimestepLinear2 => String::from_str("time_text_embed.timestep_embedder.linear_2"),
            Part::TextLinear1 => String::from_str("time_text_embed.text_embedder.linear_1"),
            Part::TextLinear2 => String::from_str("time_text_embed.text_embedder.linear_2"),
            Part::ContextEmbedder => String::from_str("context_embedder"),
            Part::NormOut => String::from_str("norm_out.linear"),
            Part::ProjOut => String::from_str("proj_out"),
        }
    }

    /// The length and the last character of the path of a module outside the blocks.
    spec fn mark(self) -> (int, char) {
        match self {
            Part::Block(_, _) => (0, ' '),
            Part::PatchConv => (14, 'j'),
            Part::PositionTable => (19, 'd'),
            Part::TimestepLinear1 => (42, '1'),
            Part::TimestepLinear2 => (42, '2'),
            Part::TextLinear1 => (38, '1'),
            Part::TextLinear2 => (38, '2'),
            Part::ContextEmbedder => (16, 'r'),
            Part::NormOut => (15, 'r'),
            Part::ProjOut => (8, 't'),
        }
    }

    proof fn lemma_mark(self)
        requires
            !(self is Block),
        ensures
            self.key().len() == self.mark().0,
            self.key().last() == self.mark().1,
            self.key()[1] != 'r' || self.key()[0] != 't',
    {
        match self {
            Part::Block(_, _) => {},
            Part::PatchConv => reveal_strlit("pos_embed.proj"),
            Part::PositionTable => reveal_strlit("pos_embed.pos_embed"),
            Part::TimestepLinear1 => reveal_strlit("time_text_embed.timestep_embedder.linear_1"),
            Part::TimestepLinear2 => reveal_strlit("time_text_embed.timestep_embedder.linear_2"),
            Part::TextLinear1 => reveal_strlit("time_text_embed.text_embedder.linear_1"),
            Part::TextLinear2 => reveal_strlit("time_text_embed.text_embedder.linear_2"),
            Part::ContextEmbedder => reveal_strlit("context_embedder"),
            Part::NormOut => reveal_strlit("norm_out.linear"),
            Part::ProjOut => reveal_strlit("proj_out"),
        }
    }
}

/// Different modules have different paths.
pub proof fn law_parts_have_their_own_paths(a: Part, b: Part)
    requires
        a != b,
    ensures
        a.key() != b.key(),
{
    reveal_strlit("transformer_blocks.");
    match (a, b) {
        (Part::Block(i, p), Part::Block(j, q)) => {
            p.lemma_mark();
            q.lemma_mark();
            if a.key() == b.key() {
                lemma_block_path_splits(i as nat, j as nat, p.key(), q.key());
                lemma_decimal_digits(i as nat);
                lemma_decimal_digits(j as nat);
                assert(p.mark() == q.mark());
            }
        },
        (Part::Block(i, p), _) => {
            b.lemma_mark();
            assert(a.key()[0] == 't' && a.key()[1] == 'r');
        },
        (_, Part::Block(j, q)) => {
            a.lemma_mark();
            assert(b.key()[0] == 't' && b.key()[1] == 'r');
        },
        _ => {
            a.lemma_mark();
            b.lemma_mark();
        },
    }
}

impl JointAttention {
    /// The modules of the attention, in the order they are loaded.
    pub open spec fn parts(self) -> Seq<BlockPart> {
        (if self.norms is Some {
            seq![
                BlockPart::NormQ,
                BlockPart::NormK,
                BlockPart::NormAddedQ,
                BlockPart::NormAddedK,
            ]
        } else {
            Seq::empty()
        }) + seq![BlockPart::ToOut] + (if self.to_add_out is Some {
            seq![BlockPart::ToAddOut]
        } else {
            Seq::empty()
        }) + seq![
            BlockPart::ToQ,
            BlockPart::ToK,
            BlockPart::ToV,
            BlockPart::AddQ,
            BlockPart::AddK,
            BlockPart::AddV,
        ]
    }
}

impl SelfAttention {
    /// The modules of the second attention, in the order they are loaded.
    pub open spec fn parts(self) -> Seq<BlockPart> {
        (if self.norms is Some {
            seq![BlockPart::DualNormQ, BlockPart::DualNormK]
        } else {
            Seq::empty()
        }) + seq![BlockPart::DualToQ, BlockPart::DualToK, BlockPart::DualToV, BlockPart::DualToOut]
    }
}

impl JointBlock {
    /// The modules of the block, in the order they are loaded.
    pub open spec fn parts(self) -> Seq<BlockPart> {
        seq![BlockPart::Norm1, BlockPart::Norm1Context] + self.attn.parts() + (match self.attn2 {
            Some(a) => a.parts(),
            None => Seq::empty(),
        }) + seq![BlockPart::FfIn, BlockPart::FfOut] + (if self.ff_context is Some {
            seq![BlockPart::FfContextIn, BlockPart::FfContextOut]
        } else {
            Seq::empty()
        })
    }

    /// Lists the modules that the block is loaded from.
    #[verifier::rlimit(60)]
    pub fn block_parts(&self) -> (r: Vec<BlockPart>)
        ensures
            r@ == self.parts(),
    {
        let mut v: Vec<BlockPart> = vec![BlockPart::Norm1, BlockPart::Norm1Context];
        if self.attn.norms.is_some() {
            v.push(BlockPart::NormQ);
            v.push(BlockPart::NormK);
            v.push(BlockPart::NormAddedQ);
            v.push(BlockPart::NormAddedK);
        }
        v.push(BlockPart::ToOut);
        if self.attn.to_add_out.is_some() {
            v.push(BlockPart::ToAddOut);
        }
        v.push(BlockPart::ToQ);
        v.push(BlockPart::ToK);
        v.push(BlockPart::ToV);
        v.push(BlockPart::AddQ);
        v.push(BlockPart::AddK);
        v.push(BlockPart::AddV);
        proof {
            assert(v@ =~= seq![BlockPart::Norm1, BlockPart::Norm1Context] + self.attn.parts());
        }
        if let Some(a) = self.attn2 {
            if a.norms.is_some() {
                v.push(BlockPart::DualNormQ);
                v.push(BlockPart::DualNormK);
            }
            v.push(BlockPart::DualToQ);
            v.push(BlockPart::DualToK);
            v.push(BlockPart::DualToV);
            v.push(BlockPart::DualToOut);
        }
        proof {
            assert(v@ =~= seq![BlockPart::Norm1, BlockPart::Norm1Context] + self.attn.parts() + (
            match self.attn2 {
                Some(a) => a.parts(),
                None => Seq::empty(),
            }));
        }
        v.push(BlockPart::FfIn);
        v.push(BlockPart::FfOut);
        if self.ff_context.is_some() {
            v.push(BlockPart::FfContextIn);
            v.push(BlockPart::FfContextOut);
        }
        proof {
            assert(v@ =~= self.parts());
        }
        v
    }
}

/// The modules of a block under its number.
pub open spec fn numbered(i: usize, parts: Seq<BlockPart>) -> Seq<Part> {
    parts.map_values(|p: BlockPart| Part::Block(i, p))
}

/// The modules of the first `k` blocks.
pub open spec fn parts_of_blocks(v: Seq<JointBlock>, k: int) -> Seq<Part>
    decreases k,
{
    if k <= 0 {
        Seq::empty()
    } else {
        parts_of_blocks(v, k - 1) + numbered((k - 1) as usize, v[k - 1].parts())
    }
}

/// The modules outside the blocks.
pub open spec fn outer_parts() -> Seq<Part> {
    seq![
        Part::PatchConv,
        Part::PositionTable,
        Part::TimestepLinear1,
        Part::TimestepLinear2,
        Part::TextLinear1,
        Part::TextLinear2,
        Part::ContextEmbedder,
        Part::NormOut,
        Part::ProjOut,
    ]
}

impl Sd3Transformer {
    /// Lists the modules that the transformer is loaded from, in order: the blocks', then the others.
    pub fn parts(&self) -> (r: Vec<Part>)
        ensures
            r@ == parts_of_blocks(self.blocks@, self.blocks.len() as int) + outer_parts(),
    {
        let mut out: Vec<Part> = Vec::new();
        let mut i: usize = 0;
        while i < self.blocks.len()
            invariant
                i <= self.blocks.len(),
                out@ == parts_of_blocks(self.blocks@, i as int),
            decreases self.blocks.len() - i,
        {
            let parts = self.blocks[i].block_parts();
            let ghost before = out@;
            let ghost all = numbered(i, parts@);
            let mut k: usize = 0;
            while k < parts.len()
                invariant
                    k <= parts.len(),
                    all == numbered(i, parts@),
                    out@ == before + all.take(k as int),
                decreases parts.len() - k,
            {
                out.push(Part::Block(i, parts[k]));
                k += 1;
                proof {
                    assert(all.take(k as int) =~= all.take(k - 1).push(all[k - 1]));
                    assert(out@ =~= before + all.take(k as int));
                }
            }
            proof {
                assert(all.take(parts.len() as int) =~= all);
            }
            i += 1;
        }
        out.push(Part::PatchConv);
        out.push(Part::PositionTable);
        out.push(Part::TimestepLinear1);
        out.push(Part::TimestepLinear2);
        out.push(Part::TextLinear1);
        out.push(Part::TextLinear2);
        out.push(Part::ContextEmbedder);
        out.push(Part::NormOut);
        out.push(Part::ProjOut);
        proof {
            assert(out@ =~= parts_of_blocks(self.blocks@, self.blocks.len() as int) + outer_parts());
        }
        out
    }
}

/// The stem of a leaf of a block in the native naming.
pub open spec fn native_stem(i: usize, context: bool, leaf: Seq<char>) -> Seq<char> {
    "joint_blocks_"@ + (decimal(i as nat) + ("_"@ + ((if context {
        "context_block_"@
    } else {
        "x_block_"@
    }) + leaf)))
}

proof fn lemma_prefix_off(prefix: Seq<char>, s: Seq<char>)
    ensures
        without_prefix(prefix + s, prefix) == Some(s),
{
    let t = prefix + s;
    assert(t.take(prefix.len() as int) =~= prefix);
    assert(t.skip(prefix.len() as int) =~= s);
}

/// A native stem names the leaf of its block and stream.
proof fn lemma_native_stem(i: usize, context: bool, leaf: Seq<char>)
    ensures
        native_targets(native_stem(i, context, leaf)) == leaf_targets(i as nat, leaf, context),
{
    reveal_strlit("_");
    reveal_strlit("context_block_");
    reveal_strlit("x_block_");
    let index = decimal(i as nat);
    let stream = if context {
        "context_block_"@
    } else {
        "x_block_"@
    };
    let rest = stream + leaf;
    let after = index + ("_"@ + rest);
    lemma_prefix_off("joint_blocks_"@, after);
    lemma_prefix_off(stream, leaf);
    lemma_decimal_digits(i as nat);
    law_decimal_parses_back(i as nat, usize::MAX as nat);
    lemma_until_here(index, "_"@ + rest, '_');
    assert(after.take(index.len() as int) =~= index);
    assert(after.skip((index.len() + 1) as int) =~= rest);
    if context {
        if starts(rest, "x_block_"@) {
            assert(rest.take(8)[0] == rest[0]);
        }
    }
}

/// The fused projections of a block go to the query, key and value projections of their own stream, a
/// third each and in this order, and every other native module to the one module that it is.
pub proof fn law_native_modules_are_modules(i: usize)
    ensures
        ({
            let at = |p: BlockPart| Part::Block(i, p).key();
            &&& native_targets(native_stem(i, false, "attn_qkv"@)) == Some(
                seq![
                    slice(at(BlockPart::ToQ), 0, 3),
                    slice(at(BlockPart::ToK), 1, 3),
                    slice(at(BlockPart::ToV), 2, 3),
                ],
            )
            &&& native_targets(native_stem(i, true, "attn_qkv"@)) == Some(
                seq![
                    slice(at(BlockPart::AddQ), 0, 3),
                    slice(at(BlockPart::AddK), 1, 3),
                    slice(at(BlockPart::AddV), 2, 3),
                ],
            )
            &&& native_targets(native_stem(i, false, "attn_proj"@)) == Some(
                seq![whole(at(BlockPart::ToOut))],
            )
            &&& native_targets(native_stem(i, true, "attn_proj"@)) == Some(
                seq![whole(at(BlockPart::ToAddOut))],
            )
            &&& native_targets(native_stem(i, false, "mlp_fc1"@)) == Some(
                seq![whole(at(BlockPart::FfIn))],
            )
            &&& native_targets(native_stem(i, true, "mlp_fc1"@)) == Some(
                seq![whole(at(BlockPart::FfContextIn))],
            )
            &&& native_targets(native_stem(i, false, "mlp_fc2"@)) == Some(
                seq![whole(at(BlockPart::FfOut))],
            )
            &&& native_targets(native_stem(i, true, "mlp_fc2"@)) == Some(
                seq![whole(at(BlockPart::FfContextOut))],
            )
            &&& native_targets(native_stem(i, false, "adaLN_modulation_1"@)) == Some(
                seq![whole(at(BlockPart::Norm1))],
            )
            &&& native_targets(native_stem(i, true, "adaLN_modulation_1"@)) == Some(
                seq![whole(at(BlockPart::Norm1Context))],
            )
        }),
{
    reveal_strlit("attn_qkv");
    reveal_strlit("attn_proj");
    reveal_strlit("mlp_fc1");
    reveal_strlit("mlp_fc2");
    reveal_strlit("adaLN_modulation_1");
    assert("attn_qkv"@.len() == 8 && "attn_proj"@.len() == 9 && "adaLN_modulation_1"@.len() == 18);
    assert("mlp_fc1"@.len() == 7 && "mlp_fc2"@.len() == 7);
    assert("mlp_fc1"@[6] == '1' && "mlp_fc2"@[6] == '2');
    lemma_native_stem(i, false, "attn_qkv"@);
    lemma_native_stem(i, true, "attn_qkv"@);
    lemma_native_stem(i, false, "attn_proj"@);
    lemma_native_stem(i, true, "attn_proj"@);
    lemma_native_stem(i, false, "mlp_fc1"@);
    lemma_native_stem(i, true, "mlp_fc1"@);
    lemma_native_stem(i, false, "mlp_fc2"@);
    lemma_native_stem(i, true, "mlp_fc2"@);
    lemma_native_stem(i, false, "adaLN_modulation_1"@);
    lemma_native_stem(i, true, "adaLN_modulation_1"@);
    reveal_strlit(".attn");
    reveal_strlit(".to_q");
    reveal_strlit(".to_k");
    reveal_strlit(".to_v");
    reveal_strlit(".add_q_proj");
    reveal_strlit(".add_k_proj");
    reveal_strlit(".add_v_proj");
    reveal_strlit(".to_out.0");
    reveal_strlit(".to_add_out");
    reveal_strlit(".attn.to_q");
    reveal_strlit(".attn.to_k");
    reveal_strlit(".attn.to_v");
    reveal_strlit(".attn.add_q_proj");
    reveal_strlit(".attn.add_k_proj");
    reveal_strlit(".attn.add_v_proj");
    reveal_strlit(".attn.to_out.0");
    reveal_strlit(".attn.to_add_out");
    let b = block_path(i as nat);
    let a = b + ".attn"@;
    assert(a + ".to_q"@ =~= b + ".attn.to_q"@);
    assert(a + ".to_k"@ =~= b + ".attn.to_k"@);
    assert(a + ".to_v"@ =~= b + ".attn.to_v"@);
    assert(a + ".add_q_proj"@ =~= b + ".attn.add_q_proj"@);
    assert(a + ".add_k_proj"@ =~= b + ".attn.add_k_proj"@);
    assert(a + ".add_v_proj"@ =~= b + ".attn.add_v_proj"@);
    assert(a + ".to_out.0"@ =~= b + ".attn.to_out.0"@);
    assert(a + ".to_add_out"@ =~= b + ".attn.to_add_out"@);
}

/// The native modules outside the blocks go to the modules that they are.
pub proof fn law_native_top_level_modules_are_modules()
    ensures
        top_level_target("final_layer_linear"@) == Some(Part::ProjOut.key()),
        top_level_target("final_layer_adaLN_modulation_1"@) == Some(Part::NormOut.key()),
        top_level_target("context_embedder"@) == Some(Part::ContextEmbedder.key()),
        top_level_target("x_embedder_proj"@) == Some(Part::PatchConv.key()),
        top_level_target("t_embedder_mlp_0"@) == Some(Part::TimestepLinear1.key()),
        top_level_target("t_embedder_mlp_2"@) == Some(Part::TimestepLinear2.key()),
        top_level_target("y_embedder_mlp_0"@) == Some(Part::TextLinear1.key()),
        top_level_target("y_embedder_mlp_2"@) == Some(Part::TextLinear2.key()),
{
    reveal_strlit("final_layer_linear");
    reveal_strlit("final_layer_adaLN_modulation_1");
    reveal_strlit("context_embedder");
    reveal_strlit("x_embedder_proj");
    reveal_strlit("t_embedder_mlp_0");
    reveal_strlit("t_embedder_mlp_2");
    reveal_strlit("y_embedder_mlp_0");
    reveal_strlit("y_embedder_mlp_2");
    assert("final_layer_linear"@.len() == 18 && "final_layer_adaLN_modulation_1"@.len() == 30);
    assert("context_embedder"@.len() == 16 && "x_embedder_proj"@.len() == 15);
    assert("context_embedder"@[0] == 'c');
    assert("t_embedder_mlp_0"@.len() == 16 && "t_embedder_mlp_0"@[0] == 't' && "t_embedder_mlp_0"@[15]
        == '0');
    assert("t_embedder_mlp_2"@.len() == 16 && "t_embedder_mlp_2"@[0] == 't' && "t_embedder_mlp_2"@[15]
        == '2');
    assert("y_embedder_mlp_0"@.len() == 16 && "y_embedder_mlp_0"@[0] == 'y' && "y_embedder_mlp_0"@[15]
        == '0');
    assert("y_embedder_mlp_2"@.len() == 16 && "y_embedder_mlp_2"@[0] == 'y' && "y_embedder_mlp_2"@[15]
        == '2');
}

/// A stem is read in the naming that its prefix tells: native behind `lora_unet_`, flattened behind
/// `lora_transformer_`, and otherwise the dotted path itself, behind any of the tolerated prefixes or
/// none.
pub proof fn law_stems_are_read_in_their_naming(
    native: Seq<char>,
    path: Seq<char>,
    head: Seq<char>,
    tail: Seq<char>,
    table: Map<Seq<char>, Seq<char>>,
)
    requires
        path == head + ("."@ + tail),
        starts(head, "transformer_blocks"@),
    ensures
        stem_targets("lora_unet_"@ + native, table) == native_targets(native),
        stem_targets("lora_transformer_"@ + native, table) == match table_path(table, native) {
            Some(d) => Some(seq![whole(d)]),
            None => None,
        },
        stem_targets(path, table) == Some(seq![whole(path)]),
        stem_targets("transformer."@ + path, table) == Some(seq![whole(path)]),
        stem_targets("diffusion_model."@ + path, table) == Some(seq![whole(path)]),
        stem_targets("base_model.model."@ + path, table) == Some(seq![whole(path)]),
        stem_targets("base_model.model.transformer."@ + path, table) == Some(seq![whole(path)]),
{
    reveal_strlit(".");
    reveal_strlit("transformer_blocks");
    reveal_strlit("lora_unet_");
    reveal_strlit("lora_transformer_");
    reveal_strlit("transformer.");
    reveal_strlit("diffusion_model.");
    reveal_strlit("base_model.model.");
    reveal_strlit("base_model.model.transformer.");
    lemma_prefix_off("lora_unet_"@, native);
    lemma_prefix_off("lora_transformer_"@, native);
    let flat = "lora_transformer_"@ + native;
    if starts(flat, "lora_unet_"@) {
        assert(flat.take(10)[5] == flat[5]);
    }
    assert(head.take(18)[0] == 't' && head.take(18)[11] == '_');
    assert(path[0] == head[0] && path[11] == head[11]);
    let at = head.len() as int;
    assert(path.subrange(at, at + 1) =~= "."@);
    assert(crate::text::occurs_at(path, "."@, at));
    assert(has_part(path, "."@));
    let (t, d) = ("transformer."@, "diffusion_model."@);
    let (m, mt) = ("base_model.model."@, "base_model.model.transformer."@);
    lemma_prefix_off(t, path);
    lemma_prefix_off(d, path);
    lemma_prefix_off(m, path);
    lemma_prefix_off(mt, path);
    lemma_other_start(path, "lora_unet_"@, 0);
    lemma_other_start(path, "lora_transformer_"@, 0);
    lemma_other_start(path, mt, 0);
    lemma_other_start(path, m, 0);
    lemma_other_start(path, d, 0);
    lemma_other_start(path, t, 11);
    let s = t + path;
    lemma_other_start(s, "lora_unet_"@, 0);
    lemma_other_start(s, "lora_transformer_"@, 0);
    lemma_other_start(s, mt, 0);
    lemma_other_start(s, m, 0);
    lemma_other_start(s, d, 0);
    let s = d + path;
    lemma_other_start(s, "lora_unet_"@, 0);
    lemma_other_start(s, "lora_transformer_"@, 0);
    lemma_other_start(s, mt, 0);
    lemma_other_start(s, m, 0);
    let s = m + path;
    lemma_other_start(s, "lora_unet_"@, 0);
    lemma_other_start(s, "lora_transformer_"@, 0);
    assert(s[28] == path[11]);
    lemma_other_start(s, mt, 28);
    let s = mt + path;
    lemma_other_start(s, "lora_unet_"@, 0);
    lemma_other_start(s, "lora_transformer_"@, 0);
}

/// A prefix that differs in a place does not fit.
proof fn lemma_other_start(s: Seq<char>, prefix: Seq<char>, i: int)
    requires
        0 <= i < prefix.len(),
        i < s.len(),
        s[i] != prefix[i],
    ensures
        without_prefix(s, prefix) is None,
{
    if starts(s, prefix) {
        assert(s.take(prefix.len() as int)[i] == s[i]);
    }
}

/// The block has the module: those of its normalised heads, of its text output, of its second attention
/// and of its text feed-forward only where it has them, and every other.
pub open spec fn has_module(b: JointBlock, p: BlockPart) -> bool {
    match p {
        BlockPart::NormQ | BlockPart::NormK | BlockPart::NormAddedQ | BlockPart::NormAddedK =>
            b.attn.norms is Some,
        BlockPart::ToAddOut => b.attn.to_add_out is Some,
        BlockPart::DualToQ | BlockPart::DualToK | BlockPart::DualToV | BlockPart::DualToOut =>
            b.attn2 is Some,
        BlockPart::DualNormQ | BlockPart::DualNormK => b.attn2 matches Some(a) && a.norms is Some,
        BlockPart::FfContextIn | BlockPart::FfContextOut => b.ff_context is Some,
        _ => true,
    }
}

proof fn lemma_joined<T>(a: Seq<T>, b: Seq<T>, x: T)
    ensures
        (a + b).contains(x) <==> a.contains(x) || b.contains(x),
{
    let s = a + b;
    if a.contains(x) {
        let i = choose|i: int| 0 <= i < a.len() && a[i] == x;
        assert(s[i] == x);
    }
    if b.contains(x) {
        let i = choose|i: int| 0 <= i < b.len() && b[i] == x;
        assert(s[a.len() + i] == x);
    }
    if s.contains(x) {
        let i = choose|i: int| 0 <= i < s.len() && s[i] == x;
        if i < a.len() {
            assert(a[i] == x);
        } else {
            assert(b[i - a.len()] == x);
        }
    }
}

proof fn lemma_attention_modules(a: JointAttention, p: BlockPart)
    ensures
        a.parts().contains(p) <==> (match p {
            BlockPart::NormQ | BlockPart::NormK | BlockPart::NormAddedQ | BlockPart::NormAddedK =>
                a.norms is Some,
            BlockPart::ToAddOut => a.to_add_out is Some,
            BlockPart::ToQ | BlockPart::ToK | BlockPart::ToV | BlockPart::ToOut | BlockPart::AddQ
            | BlockPart::AddK | BlockPart::AddV => true,
            _ => false,
        }),
{
    let n = if a.norms is Some {
        seq![BlockPart::NormQ, BlockPart::NormK, BlockPart::NormAddedQ, BlockPart::NormAddedK]
    } else {
        Seq::empty()
    };
    let o = seq![BlockPart::ToOut];
    let t = if a.to_add_out is Some {
        seq![BlockPart::ToAddOut]
    } else {
        Seq::empty()
    };
    let q = seq![
        BlockPart::ToQ,
        BlockPart::ToK,
        BlockPart::ToV,
        BlockPart::AddQ,
        BlockPart::AddK,
        BlockPart::AddV,
    ];
    assert(a.parts() == n + o + t + q);
    lemma_joined(n, o, p);
    lemma_joined(n + o, t, p);
    lemma_joined(n + o + t, q, p);
    assert(o[0] == BlockPart::ToOut);
    assert(q[0] == BlockPart::ToQ && q[1] == BlockPart::ToK && q[2] == BlockPart::ToV);
    assert(q[3] == BlockPart::AddQ && q[4] == BlockPart::AddK && q[5] == BlockPart::AddV);
    if a.norms is Some {
        assert(n[0] == BlockPart::NormQ && n[1] == BlockPart::NormK);
        assert(n[2] == BlockPart::NormAddedQ && n[3] == BlockPart::NormAddedK);
    }
    if a.to_add_out is Some {
        assert(t[0] == BlockPart::ToAddOut);
    }
}

proof fn lemma_dual_modules(a: SelfAttention, p: BlockPart)
    ensures
        a.parts().contains(p) <==> (match p {
            BlockPart::DualNormQ | BlockPart::DualNormK => a.norms is Some,
            BlockPart::DualToQ | BlockPart::DualToK | BlockPart::DualToV | BlockPart::DualToOut => true,
            _ => false,
        }),
{
    let n = if a.norms is Some {
        seq![BlockPart::DualNormQ, BlockPart::DualNormK]
    } else {
        Seq::empty()
    };
    let q = seq![BlockPart::DualToQ, BlockPart::DualToK, BlockPart::DualToV, BlockPart::DualToOut];
    assert(a.parts() == n + q);
    lemma_joined(n, q, p);
    assert(q[0] == BlockPart::DualToQ && q[1] == BlockPart::DualToK);
    assert(q[2] == BlockPart::DualToV && q[3] == BlockPart::DualToOut);
    if a.norms is Some {
        assert(n[0] == BlockPart::DualNormQ && n[1] == BlockPart::DualNormK);
    }
}

/// A block is loaded from all the modules that it has, and from no other.
pub proof fn law_blocks_are_loaded_from_their_modules(b: JointBlock, p: BlockPart)
    ensures
        b.parts().contains(p) <==> has_module(b, p),
{
    let n = seq![BlockPart::Norm1, BlockPart::Norm1Context];
    let d = match b.attn2 {
        Some(a) => a.parts(),
        None => Seq::empty(),
    };
    let f = seq![BlockPart::FfIn, BlockPart::FfOut];
    let c = if b.ff_context is Some {
        seq![BlockPart::FfContextIn, BlockPart::FfContextOut]
    } else {
        Seq::empty()
    };
    assert(b.parts() == n + b.attn.parts() + d + f + c);
    lemma_joined(n, b.attn.parts(), p);
    lemma_joined(n + b.attn.parts(), d, p);
    lemma_joined(n + b.attn.parts() + d, f, p);
    lemma_joined(n + b.attn.parts() + d + f, c, p);
    lemma_attention_modules(b.attn, p);
    if let Some(a) = b.attn2 {
        lemma_dual_modules(a, p);
    }
    assert(n[0] == BlockPart::Norm1 && n[1] == BlockPart::Norm1Context);
    assert(f[0] == BlockPart::FfIn && f[1] == BlockPart::FfOut);
    if b.ff_context is Some {
        assert(c[0] == BlockPart::FfContextIn && c[1] == BlockPart::FfContextOut);
    }
}

/// The modules of the blocks are listed block by block, each under the number of its block.
pub proof fn law_blocks_are_listed_in_turn(v: Seq<JointBlock>, k: int, i: int, j: int)
    requires
        0 <= i < k <= v.len(),
        k <= usize::MAX,
        0 <= j < v[i].parts().len(),
    ensures
        parts_of_blocks(v, i).len() + j < parts_of_blocks(v, k).len(),
        parts_of_blocks(v, k)[parts_of_blocks(v, i).len() + j] == Part::Block(
            i as usize,
            v[i].parts()[j],
        ),
        parts_of_blocks(v, 0).len() == 0,
        parts_of_blocks(v, i + 1).len() == parts_of_blocks(v, i).len() + v[i].parts().len(),
    decreases k,
{
    if i < k - 1 {
        law_blocks_are_listed_in_turn(v, k - 1, i, j);
    }
}

} // verus!
