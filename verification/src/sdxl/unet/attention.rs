//! The attention modules of the UNet: their walk orders, the adaptable projections, and the heads
//! that an image-prompt adapter and the micro-conditioning add.
use super::unet_2d::{Part, TimestepEmbedding, Timesteps, UNet2DConditionModel, UNetDownBlock, UNetUpBlock};
use crate::error::Error;
use crate::float::Real64;
use crate::text::{decimal, decimal_of, join, views};
use vstd::arithmetic::div_mod::lemma_fundamental_div_mod_converse;
use vstd::prelude::*;
use vstd::string::*;

verus! {

/// One transformer layer of a spatial transformer.
#[derive(Clone, Copy, Debug, PartialEq, Eq, Structural)]
pub struct TransformerLayer {
    pub part: Part,
    pub attention: usize,
    pub layer: usize,
}

/// The adaptable projections of one transformer layer, in walk order: the self-attention's, then
/// the cross-attention's.
pub open spec fn projection(leaf: int) -> Seq<char> {
    if leaf == 0 {
        ".attn1.to_q"@
    } else if leaf == 1 {
        ".attn1.to_k"@
    } else if leaf == 2 {
        ".attn1.to_v"@
    } else if leaf == 3 {
        ".attn1.to_out.0"@
    } else if leaf == 4 {
        ".attn2.to_q"@
    } else if leaf == 5 {
        ".attn2.to_k"@
    } else if leaf == 6 {
        ".attn2.to_v"@
    } else {
        ".attn2.to_out.0"@
    }
}

fn projection_name(leaf: usize) -> (r: &'static str)
    requires
        leaf < 8,
    ensures
        r@ == projection(leaf as int),
{
    match leaf {
        0 => ".attn1.to_q",
        1 => ".attn1.to_k",
        2 => ".attn1.to_v",
        3 => ".attn1.to_out.0",
        4 => ".attn2.to_q",
        5 => ".attn2.to_k",
        6 => ".attn2.to_v",
        _ => ".attn2.to_out.0",
    }
}

impl TransformerLayer {
    /// The dotted checkpoint path of the layer.
    pub open spec fn key(self) -> Seq<char> {
        self.part.key() + ".attentions."@ + decimal(self.attention as nat)
            + ".transformer_blocks."@ + decimal(self.layer as nat)
    }

    /// The dotted checkpoint path of the layer.
    pub fn path(self) -> (r: String)
        ensures
            r@ == self.key(),
    {
        let mut s = self.part.path();
        s.append(".attentions.");
        s.append(decimal_of(self.attention).as_str());
        s.append(".transformer_blocks.");
        s.append(decimal_of(self.layer).as_str());
        s
    }
}

/// The layers of `attentions` spatial transformers of `depth` layers each, in order.
pub open spec fn layer_grid(part: Part, attentions: nat, depth: nat) -> Seq<TransformerLayer> {
    Seq::new(
        attentions * depth,
        |k: int|
            TransformerLayer {
                part,
                attention: (k / depth as int) as usize,
                layer: (k % depth as int) as usize,
            },
    )
}

/// The layers of a down block; a basic block has none.
pub open spec fn down_layers(b: UNetDownBlock) -> Seq<TransformerLayer> {
    match b {
        UNetDownBlock::Basic(_) => Seq::empty(),
        UNetDownBlock::CrossAttn(d, a) => layer_grid(
            d.part,
            d.num_layers as nat,
            a.transformer_layers_per_block as nat,
        ),
    }
}

/// The layers of an up block; a basic block has none.
pub open spec fn up_layers(b: UNetUpBlock) -> Seq<TransformerLayer> {
    match b {
        UNetUpBlock::Basic(_) => Seq::empty(),
        UNetUpBlock::CrossAttn(u, a) => layer_grid(
            u.part,
            u.num_layers as nat,
            a.transformer_layers_per_block as nat,
        ),
    }
}

/// The layers of the first `k` down blocks.
pub open spec fn downs(blocks: Seq<UNetDownBlock>, k: int) -> Seq<TransformerLayer>
    decreases k,
{
    if k <= 0 {
        Seq::empty()
    } else {
        downs(blocks, k - 1) + down_layers(blocks[k - 1])
    }
}

/// The layers of the first `k` up blocks.
pub open spec fn ups(blocks: Seq<UNetUpBlock>, k: int) -> Seq<TransformerLayer>
    decreases k,
{
    if k <= 0 {
        Seq::empty()
    } else {
        ups(blocks, k - 1) + up_layers(blocks[k - 1])
    }
}

/// Appends the layers of `attentions` spatial transformers of `depth` layers each.
fn push_grid(out: &mut Vec<TransformerLayer>, part: Part, attentions: usize, depth: usize)
    ensures
        final(out)@ == old(out)@ + layer_grid(part, attentions as nat, depth as nat),
{
    let ghost start = out@;
    let ghost grid = layer_grid(part, attentions as nat, depth as nat);
    let mut a: usize = 0;
    proof {
        assert(grid.take(0) =~= Seq::<TransformerLayer>::empty());
        assert(0 * depth as int == 0);
        assert(start + grid.take(0) =~= start);
    }
    while a < attentions
        invariant
            a <= attentions,
            grid == layer_grid(part, attentions as nat, depth as nat),
            0 <= a * depth <= attentions * depth,
            out@ == start + grid.take(a * depth),
        decreases attentions - a,
    {
        let mut l: usize = 0;
        proof {
            assert(a * depth + depth == (a + 1) * depth) by (nonlinear_arith);
            assert((a + 1) * depth <= attentions * depth) by (nonlinear_arith)
                requires
                    a + 1 <= attentions,
                    depth >= 0,
            ;
        }
        while l < depth
            invariant
                l <= depth,
                a < attentions,
                grid == layer_grid(part, attentions as nat, depth as nat),
                0 <= a * depth,
                a * depth + depth <= attentions * depth,
                out@ == start + grid.take(a * depth + l),
            decreases depth - l,
        {
            let item = TransformerLayer { part, attention: a, layer: l };
            proof {
                let k = a * depth + l;
                lemma_fundamental_div_mod_converse(k, depth as int, a as int, l as int);
                assert(grid[k] == item);
                assert(start + grid.take(k + 1) =~= (start + grid.take(k)).push(item));
            }
            out.push(item);
            l += 1;
        }
        a += 1;
    }
    proof {
        assert(grid.take(attentions * depth) =~= grid);
    }
}

/// Why a set of key/value pairs does not fit the UNet.
#[derive(Clone, Copy, Debug, PartialEq, Eq, Structural)]
pub enum IpAdapterError {
    FewerPairs,
    MorePairs,
}

impl IpAdapterError {
    pub open spec fn text(self) -> Seq<char> {
        match self {
            IpAdapterError::FewerPairs => "ip_adapter: fewer K/V pairs than UNet cross-attentions"@,
            IpAdapterError::MorePairs => "ip_adapter: more K/V pairs than UNet cross-attentions"@,
        }
    }

    pub fn message(self) -> (r: String)
        ensures
            r@ == self.text(),
    {
        match self {
            IpAdapterError::FewerPairs => String::from_str(
                "ip_adapter: fewer K/V pairs than UNet cross-attentions",
            ),
            IpAdapterError::MorePairs => String::from_str(
                "ip_adapter: more K/V pairs than UNet cross-attentions",
            ),
        }
    }
}

/// What an image prompt sets on one cross-attention: its tokens and their weight. Without tokens the
/// cross-attention attends to the text alone.
#[derive(Clone, Copy, Debug, PartialEq, Eq)]
pub struct IpContext<T> {
    pub layer: TransformerLayer,
    pub tokens: Option<T>,
    pub scale: Real64,
}

/// The micro-conditioning head of a UNet, and the width of its projected time ids.
#[derive(Clone, Copy, Debug)]
pub struct AugEmbed {
    pub time_proj: Timesteps,
    pub embedding: TimestepEmbedding,
    pub time_width: usize,
}

impl UNet2DConditionModel {
    /// The transformer layers in the order in which adapter processors are numbered: down blocks,
    /// up blocks, mid block last.
    pub open spec fn processor_order(&self) -> Seq<TransformerLayer> {
        downs(self.down_blocks@, self.down_blocks.len() as int) + ups(
            self.up_blocks@,
            self.up_blocks.len() as int,
        ) + self.mid_layers()
    }

    /// The transformer layers in forward order: down blocks, mid block, up blocks.
    pub open spec fn forward_order(&self) -> Seq<TransformerLayer> {
        downs(self.down_blocks@, self.down_blocks.len() as int) + self.mid_layers() + ups(
            self.up_blocks@,
            self.up_blocks.len() as int,
        )
    }

    pub open spec fn mid_layers(&self) -> Seq<TransformerLayer> {
        layer_grid(
            self.mid_block.part,
            1,
            self.mid_block.transformer_layers_per_block as nat,
        )
    }

    fn push_downs(&self, out: &mut Vec<TransformerLayer>)
        ensures
            final(out)@ == old(out)@ + downs(self.down_blocks@, self.down_blocks.len() as int),
    {
        let ghost start = out@;
        let mut i: usize = 0;
        proof {
            assert(start + downs(self.down_blocks@, 0) =~= start);
        }
        while i < self.down_blocks.len()
            invariant
                i <= self.down_blocks.len(),
                out@ == start + downs(self.down_blocks@, i as int),
            decreases self.down_blocks.len() - i,
        {
            let ghost before = out@;
            match self.down_blocks[i] {
                UNetDownBlock::Basic(_) => {},
                UNetDownBlock::CrossAttn(d, a) => {
                    push_grid(out, d.part, d.num_layers, a.transformer_layers_per_block);
                },
            }
            proof {
                assert(start + downs(self.down_blocks@, i + 1) =~= before + down_layers(
                    self.down_blocks@[i as int],
                ));
                assert(out@ =~= before + down_layers(self.down_blocks@[i as int]));
            }
            i += 1;
        }
    }

    fn push_ups(&self, out: &mut Vec<TransformerLayer>)
        ensures
            final(out)@ == old(out)@ + ups(self.up_blocks@, self.up_blocks.len() as int),
    {
        let ghost start = out@;
        let mut i: usize = 0;
        proof {
            assert(start + ups(self.up_blocks@, 0) =~= start);
        }
        while i < self.up_blocks.len()
            invariant
                i <= self.up_blocks.len(),
                out@ == start + ups(self.up_blocks@, i as int),
            decreases self.up_blocks.len() - i,
        {
            let ghost before = out@;
            match self.up_blocks[i] {
                UNetUpBlock::Basic(_) => {},
                UNetUpBlock::CrossAttn(u, a) => {
                    push_grid(out, u.part, u.num_layers, a.transformer_layers_per_block);
                },
            }
            proof {
                assert(start + ups(self.up_blocks@, i + 1) =~= before + up_layers(
                    self.up_blocks@[i as int],
                ));
                assert(out@ =~= before + up_layers(self.up_blocks@[i as int]));
            }
            i += 1;
        }
    }

    /// Every cross-attention of the UNet in the order in which an adapter checkpoint numbers its
    /// key/value pairs.
    pub fn visit_cross_attn(&self) -> (r: Vec<TransformerLayer>)
        ensures
            r@ == self.processor_order(),
    {
        let mut out: Vec<TransformerLayer> = Vec::new();
        self.push_downs(&mut out);
        self.push_ups(&mut out);
        push_grid(
            &mut out,
            self.mid_block.part,
            1,
            self.mid_block.transformer_layers_per_block,
        );
        proof {
            assert(out@ =~= self.processor_order());
        }
        out
    }

    /// Assigns `pairs` numbered key/value pairs to the cross-attentions, one each in processor
    /// order; the `k`-th entry of the result receives pair `k`.
    pub fn install_ip_adapter(&self, pairs: usize) -> (r: Result<
        Vec<TransformerLayer>,
        IpAdapterError,
    >)
        ensures
            match r {
                Ok(v) => pairs == self.processor_order().len() && v@ == self.processor_order(),
                Err(IpAdapterError::FewerPairs) => pairs < self.processor_order().len(),
                Err(IpAdapterError::MorePairs) => pairs > self.processor_order().len(),
            },
            r is Ok <==> pairs == self.processor_order().len(),
    {
        let all = self.visit_cross_attn();
        if pairs < all.len() {
            Err(IpAdapterError::FewerPairs)
        } else if pairs > all.len() {
            Err(IpAdapterError::MorePairs)
        } else {
            Ok(all)
        }
    }

    /// Sets, or with `None` clears, the image-prompt tokens: the same on every cross-attention.
    pub fn set_ip_context<T: Copy>(&self, tokens: Option<T>, scale: Real64) -> (r: Vec<IpContext<T>>)
        ensures
            r@ == self.processor_order().map_values(
                |layer: TransformerLayer| IpContext { layer, tokens, scale },
            ),
            r.len() == self.processor_order().len(),
            forall|i: int|
                0 <= i < r.len() ==> (#[trigger] r[i]).tokens == tokens && r[i].scale == scale
                    && r[i].layer == self.processor_order()[i],
    {
        let all = self.visit_cross_attn();
        let mut out: Vec<IpContext<T>> = Vec::new();
        let mut i: usize = 0;
        while i < all.len()
            invariant
                i <= all.len(),
                out@ == all@.take(i as int).map_values(
                    |layer: TransformerLayer| IpContext { layer, tokens, scale },
                ),
            decreases all.len() - i,
        {
            out.push(IpContext { layer: all[i], tokens, scale });
            i += 1;
        }
        proof {
            assert(all@.take(i as int) =~= all@);
        }
        out
    }

    /// The `k`-th adaptable projection in forward order.
    pub open spec fn lora_target(&self, k: int) -> Seq<char> {
        self.forward_order()[k / 8].key() + projection(k % 8)
    }

    /// The checkpoint paths of every adaptable attention projection, in forward order.
    pub fn lora_target_paths(&self) -> (r: Vec<String>)
        ensures
            views(r@) == Seq::new(
                8 * self.forward_order().len(),
                |k: int| self.lora_target(k),
            ),
    {
        let mut layers: Vec<TransformerLayer> = Vec::new();
        self.push_downs(&mut layers);
        push_grid(
            &mut layers,
            self.mid_block.part,
            1,
            self.mid_block.transformer_layers_per_block,
        );
        self.push_ups(&mut layers);
        proof {
            assert(layers@ =~= self.forward_order());
        }
        let mut out: Vec<String> = Vec::new();
        let mut i: usize = 0;
        while i < layers.len()
            invariant
                i <= layers.len(),
                layers@ == self.forward_order(),
                out.len() == 8 * i,
                forall|k: int| 0 <= k < out.len() ==> (#[trigger] out[k])@ == self.lora_target(k),
            decreases layers.len() - i,
        {
            let base = layers[i].path();
            let mut leaf: usize = 0;
            while leaf < 8
                invariant
                    leaf <= 8,
                    i < layers.len(),
                    layers@ == self.forward_order(),
                    base@ == layers[i as int].key(),
                    out.len() == 8 * i + leaf,
                    forall|k: int|
                        0 <= k < out.len() ==> (#[trigger] out[k])@ == self.lora_target(k),
                decreases 8 - leaf,
            {
                proof {
                    let k = out.len() as int;
                    assert(k / 8 == i && k % 8 == leaf);
                }
                out.push(join(base.as_str(), projection_name(leaf)));
                leaf += 1;
            }
            i += 1;
        }
        proof {
            assert(views(out@) =~= Seq::new(
                8 * self.forward_order().len(),
                |k: int| self.lora_target(k),
            ));
        }
        out
    }

    /// Adds the micro-conditioning head: time ids projected to `addition_time_embed_dim` each, then
    /// an embedding of `projection_input_dim` features.
    pub fn with_add_embedding(
        self,
        addition_time_embed_dim: usize,
        projection_input_dim: usize,
    ) -> (r: Self)
        requires
            self.wf(),
        ensures
            r.wf(),
            r.config == self.config,
            r.conv_in == self.conv_in && r.conv_out == self.conv_out,
            r.mid_block == self.mid_block,
            r.addition_time_embed_dim == addition_time_embed_dim,
            r.add_time_proj == Some(
                Timesteps {
                    num_channels: addition_time_embed_dim,
                    flip_sin_to_cos: self.config.flip_sin_to_cos,
                    freq_shift: self.config.freq_shift,
                },
            ),
            r.add_embedding == Some(
                TimestepEmbedding {
                    part: Part::AddEmbedding,
                    channel: projection_input_dim,
                    time_embed_dim: (self.config.blocks[0].out_channels * 4) as usize,
                },
            ),
            (r.add_embedding->0).time_embed_dim == r.time_embedding.time_embed_dim,
            (r.add_embedding->0).channel == projection_input_dim,
            (r.add_time_proj->0).num_channels == addition_time_embed_dim,
            (r.add_time_proj->0).flip_sin_to_cos == r.time_proj.flip_sin_to_cos,
            (r.add_time_proj->0).freq_shift == r.time_proj.freq_shift,
            r.down_blocks@ == self.down_blocks@ && r.up_blocks@ == self.up_blocks@,
    {
        let time_embed_dim: usize = self.config.blocks[0].out_channels * 4;
        let mut m = self;
        m.add_time_proj = Some(
            Timesteps {
                num_channels: addition_time_embed_dim,
                flip_sin_to_cos: m.config.flip_sin_to_cos,
                freq_shift: m.config.freq_shift,
            },
        );
        m.add_embedding = Some(
            TimestepEmbedding {
                part: Part::AddEmbedding,
                channel: projection_input_dim,
                time_embed_dim,
            },
        );
        m.addition_time_embed_dim = addition_time_embed_dim;
        m
    }

    /// The head that folds the pooled text and `time_ids` time ids into the time embedding. It fails
    /// where the head has not been loaded.
    pub fn instantid_temb(&self, time_ids: usize) -> (r: Result<AugEmbed, Error>)
        requires
            time_ids * self.addition_time_embed_dim <= usize::MAX,
        ensures
            match r {
                Ok(a) => {
                    &&& Some(a.time_proj) == self.add_time_proj
                    &&& Some(a.embedding) == self.add_embedding
                    &&& a.time_width == time_ids * self.addition_time_embed_dim
                },
                Err(e) => (self.add_time_proj is None || self.add_embedding is None) && e.says(
                    "instantid: UNet add_embedding not loaded (call with_add_embedding)"@,
                ),
            },
    {
        match (self.add_time_proj, self.add_embedding) {
            (Some(time_proj), Some(embedding)) => Ok(
                AugEmbed {
                    time_proj,
                    embedding,
                    time_width: time_ids * self.addition_time_embed_dim,
                },
            ),
            _ => Err(
                Error::Msg(
                    String::from_str(
                        "instantid: UNet add_embedding not loaded (call with_add_embedding)",
                    ),
                ),
            ),
        }
    }
}

/// Both walks visit the same layers: the processor order moves the mid block's to the end.
pub proof fn law_walks_visit_the_same_layers(m: &UNet2DConditionModel)
    ensures
        m.processor_order().to_multiset() == m.forward_order().to_multiset(),
{
    let d = downs(m.down_blocks@, m.down_blocks.len() as int);
    let u = ups(m.up_blocks@, m.up_blocks.len() as int);
    let q = m.mid_layers();
    vstd::seq_lib::lemma_multiset_commutative(d + u, q);
    vstd::seq_lib::lemma_multiset_commutative(d, u);
    vstd::seq_lib::lemma_multiset_commutative(d + q, u);
    vstd::seq_lib::lemma_multiset_commutative(d, q);
    assert(m.processor_order().to_multiset() =~= m.forward_order().to_multiset());
}

/// The layers of a spatial transformer follow one another, and behind the last of them come those of
/// the next one: layer `y` of transformer `x` stands behind `x` whole transformers and `y` layers.
pub proof fn law_layers_fill_their_grid(part: Part, attentions: nat, depth: nat, x: int, y: int)
    requires
        attentions <= usize::MAX,
        depth <= usize::MAX,
        0 <= x < attentions,
        0 <= y < depth,
    ensures
        layer_grid(part, attentions, depth).len() == attentions * depth,
        0 <= x * depth + y < attentions * depth,
        layer_grid(part, attentions, depth)[x * depth + y] == (TransformerLayer {
            part,
            attention: x as usize,
            layer: y as usize,
        }),
{
    let k = x * depth + y;
    assert(0 <= x * depth && x * depth + depth <= attentions * depth) by (nonlinear_arith)
        requires
            0 <= x < attentions,
            depth >= 0,
    ;
    lemma_fundamental_div_mod_converse(k, depth as int, x, y);
}

proof fn lemma_downs_part(blocks: Seq<UNetDownBlock>, i: int, n: int, j: int)
    requires
        0 <= i < n,
        0 <= j < down_layers(blocks[i]).len(),
    ensures
        downs(blocks, i).len() + j < downs(blocks, n).len(),
        downs(blocks, n)[downs(blocks, i).len() + j] == down_layers(blocks[i])[j],
    decreases n,
{
    if i < n - 1 {
        lemma_downs_part(blocks, i, n - 1, j);
    }
}

proof fn lemma_ups_part(blocks: Seq<UNetUpBlock>, i: int, n: int, j: int)
    requires
        0 <= i < n,
        0 <= j < up_layers(blocks[i]).len(),
    ensures
        ups(blocks, i).len() + j < ups(blocks, n).len(),
        ups(blocks, n)[ups(blocks, i).len() + j] == up_layers(blocks[i])[j],
    decreases n,
{
    if i < n - 1 {
        lemma_ups_part(blocks, i, n - 1, j);
    }
}

/// Both walks begin with the down blocks, and visit each transformer layer of each of them behind those
/// of the blocks before it.
pub proof fn law_walks_visit_the_down_blocks(m: &UNet2DConditionModel, i: int, x: int, y: int)
    requires
        0 <= i < m.down_blocks.len(),
        m.down_blocks[i] is CrossAttn,
        0 <= x < m.down_blocks[i]->CrossAttn_0.num_layers,
        0 <= y < m.down_blocks[i]->CrossAttn_1.transformer_layers_per_block,
    ensures
        ({
            let (d, a) = (m.down_blocks[i]->CrossAttn_0, m.down_blocks[i]->CrossAttn_1);
            let at = downs(m.down_blocks@, i).len() + x * a.transformer_layers_per_block + y;
            let layer = TransformerLayer {
                part: d.part,
                attention: x as usize,
                layer: y as usize,
            };
            &&& m.forward_order()[at] == layer
            &&& m.processor_order()[at] == layer
        }),
{
    let (d, a) = (m.down_blocks[i]->CrossAttn_0, m.down_blocks[i]->CrossAttn_1);
    let depth = a.transformer_layers_per_block as nat;
    let j = x * depth + y;
    law_layers_fill_their_grid(d.part, d.num_layers as nat, depth, x, y);
    lemma_downs_part(m.down_blocks@, i, m.down_blocks.len() as int, j);
}

/// The forward walk comes to the up blocks last, behind the mid block; the processor walk comes to them
/// right behind the down blocks.
pub proof fn law_walks_visit_the_up_blocks(m: &UNet2DConditionModel, i: int, x: int, y: int)
    requires
        0 <= i < m.up_blocks.len(),
        m.up_blocks[i] is CrossAttn,
        0 <= x < m.up_blocks[i]->CrossAttn_0.num_layers,
        0 <= y < m.up_blocks[i]->CrossAttn_1.transformer_layers_per_block,
    ensures
        ({
            let (u, a) = (m.up_blocks[i]->CrossAttn_0, m.up_blocks[i]->CrossAttn_1);
            let before = downs(m.down_blocks@, m.down_blocks.len() as int).len();
            let at = before + ups(m.up_blocks@, i).len() + x * a.transformer_layers_per_block + y;
            let layer = TransformerLayer {
                part: u.part,
                attention: x as usize,
                layer: y as usize,
            };
            &&& m.forward_order()[at + m.mid_block.transformer_layers_per_block] == layer
            &&& m.processor_order()[at] == layer
        }),
{
    let (u, a) = (m.up_blocks[i]->CrossAttn_0, m.up_blocks[i]->CrossAttn_1);
    let depth = a.transformer_layers_per_block as nat;
    let j = x * depth + y;
    law_layers_fill_their_grid(u.part, u.num_layers as nat, depth, x, y);
    lemma_ups_part(m.up_blocks@, i, m.up_blocks.len() as int, j);
    assert(m.mid_layers().len() == m.mid_block.transformer_layers_per_block);
}

/// The one transformer of the mid block is visited between the down and the up blocks by the forward
/// walk, and at the very end by the processor walk.
pub proof fn law_walks_visit_the_mid_block(m: &UNet2DConditionModel, y: int)
    requires
        0 <= y < m.mid_block.transformer_layers_per_block,
    ensures
        ({
            let depth = m.mid_block.transformer_layers_per_block as int;
            let layer = TransformerLayer {
                part: m.mid_block.part,
                attention: 0,
                layer: y as usize,
            };
            &&& m.forward_order()[downs(m.down_blocks@, m.down_blocks.len() as int).len() + y] == layer
            &&& m.processor_order()[m.processor_order().len() - depth + y] == layer
        }),
{
    let depth = m.mid_block.transformer_layers_per_block as nat;
    law_layers_fill_their_grid(m.mid_block.part, 1, depth, 0, y);
    assert(0 * depth + y == y);
    assert(m.mid_layers().len() == depth);
}

/// A block without cross-attention adds nothing to the walks.
pub proof fn law_basic_blocks_have_no_layers(m: &UNet2DConditionModel, i: int)
    ensures
        0 <= i < m.down_blocks.len() && m.down_blocks[i] is Basic ==> downs(m.down_blocks@, i + 1)
            == downs(m.down_blocks@, i),
        0 <= i < m.up_blocks.len() && m.up_blocks[i] is Basic ==> ups(m.up_blocks@, i + 1) == ups(
            m.up_blocks@,
            i,
        ),
{
    if 0 <= i < m.down_blocks.len() && m.down_blocks[i] is Basic {
        assert(downs(m.down_blocks@, i + 1) =~= downs(m.down_blocks@, i));
    }
    if 0 <= i < m.up_blocks.len() && m.up_blocks[i] is Basic {
        assert(ups(m.up_blocks@, i + 1) =~= ups(m.up_blocks@, i));
    }
}

/// The eight projections of a layer are all different: the query, key, value and output of its
/// self-attention, and the same four of its cross-attention, which are named alike but for the number.
pub proof fn law_projections_are_those_of_two_attentions(a: int, b: int)
    requires
        0 <= a < b < 8,
    ensures
        projection(a) != projection(b),
        b == a + 4 ==> projection(b) == ".attn2"@ + projection(a).skip(6),
        a < 4 ==> projection(a).take(6) == ".attn1"@,
        projection(0).skip(6) == ".to_q"@,
        projection(1).skip(6) == ".to_k"@,
        projection(2).skip(6) == ".to_v"@,
        projection(3).skip(6) == ".to_out.0"@,
{
    reveal_strlit(".attn1.to_q");
    reveal_strlit(".attn1.to_k");
    reveal_strlit(".attn1.to_v");
    reveal_strlit(".attn1.to_out.0");
    reveal_strlit(".attn2.to_q");
    reveal_strlit(".attn2.to_k");
    reveal_strlit(".attn2.to_v");
    reveal_strlit(".attn2.to_out.0");
    reveal_strlit(".attn1");
    reveal_strlit(".attn2");
    reveal_strlit(".to_q");
    reveal_strlit(".to_k");
    reveal_strlit(".to_v");
    reveal_strlit(".to_out.0");
    assert(projection(0).skip(6) =~= ".to_q"@);
    assert(projection(1).skip(6) =~= ".to_k"@);
    assert(projection(2).skip(6) =~= ".to_v"@);
    assert(projection(3).skip(6) =~= ".to_out.0"@);
    assert(projection(0).take(6) =~= ".attn1"@);
    assert(projection(1).take(6) =~= ".attn1"@);
    assert(projection(2).take(6) =~= ".attn1"@);
    assert(projection(3).take(6) =~= ".attn1"@);
    assert(projection(4) =~= ".attn2"@ + ".to_q"@);
    assert(projection(5) =~= ".attn2"@ + ".to_k"@);
    assert(projection(6) =~= ".attn2"@ + ".to_v"@);
    assert(projection(7) =~= ".attn2"@ + ".to_out.0"@);
    let (p, q) = (projection(a), projection(b));
    assert(p.len() != q.len() || p[5] != q[5] || p[10] != q[10]);
}

/// Every layer of the forward walk has its eight projections adapted, layer by layer, each under the
/// path of its layer: the block, the transformer's number in it and the layer's number in that.
pub proof fn law_targets_are_the_projections_of_the_layers(
    m: &UNet2DConditionModel,
    j: int,
    leaf: int,
)
    requires
        0 <= j < m.forward_order().len(),
        0 <= leaf < 8,
    ensures
        ({
            let layer = m.forward_order()[j];
            m.lora_target(8 * j + leaf) == layer.part.key() + ".attentions."@ + decimal(
                layer.attention as nat,
            ) + ".transformer_blocks."@ + decimal(layer.layer as nat) + projection(leaf)
        }),
{
    assert((8 * j + leaf) / 8 == j && (8 * j + leaf) % 8 == leaf);
}

} // verus!
