//! The conditioning of SD3.5: the token rows of its three text encoders, and how their outputs are
//! combined into the pooled vector and the joint context.
use super::config::Sd3Config;
use crate::adapter::{entries, find_tensor, position, TensorEntry};
use crate::error::Error;
use crate::float::Real64;
use crate::text::{comes_before, decimal, decimal_of, ends, has_suffix, join, precedes, views};
use crate::tokenizer::{
    encoded, is_last_max, may_encode, pad_id, padded, token_ids, vocabulary, TextTokenizer, TokenError,
};
use candle_transformers::models::t5::Config;
use vstd::prelude::*;
use vstd::string::*;

pub use crate::tokenizer::eos_position;

verus! {

/// A row-major `[batch, seq, width]` array.
#[derive(Clone, Debug)]
pub struct Hidden<T> {
    pub batch: usize,
    pub seq: usize,
    pub width: usize,
    pub data: Vec<T>,
}

/// A row-major `[batch, width]` array.
#[derive(Clone, Debug)]
pub struct Pooled<T> {
    pub batch: usize,
    pub width: usize,
    pub data: Vec<T>,
}

impl<T> Hidden<T> {
    /// The data fills the shape.
    pub open spec fn wf(&self) -> bool {
        self.data.len() == self.batch * self.seq * self.width
    }

    /// The element at `[b, s, i]`.
    pub open spec fn at(&self, b: int, s: int, i: int) -> T {
        self.data[(b * self.seq + s) * self.width + i]
    }
}

impl<T> Pooled<T> {
    /// The data fills the shape.
    pub open spec fn wf(&self) -> bool {
        self.data.len() == self.batch * self.width
    }

    /// The element at `[b, i]`.
    pub open spec fn at(&self, b: int, i: int) -> T {
        self.data[b * self.width + i]
    }
}

/// The outputs of the three text encoders.
#[derive(Clone, Debug)]
pub struct EncoderOutputs<T> {
    pub clip_l_hidden: Hidden<T>,
    pub clip_g_hidden: Hidden<T>,
    pub clip_l_pooled: Pooled<T>,
    pub clip_g_pooled: Pooled<T>,
    pub t5_hidden: Hidden<T>,
}

impl<T> EncoderOutputs<T> {
    pub open spec fn wf(&self) -> bool {
        &&& self.clip_l_hidden.wf() && self.clip_g_hidden.wf() && self.t5_hidden.wf()
        &&& self.clip_l_pooled.wf() && self.clip_g_pooled.wf()
    }
}

/// What conditions the transformer: the pooled vector, which joins the timestep embedding, and the
/// joint context, which the blocks attend over.
#[derive(Clone, Debug)]
pub struct Sd3Conditioning<T> {
    pub pooled: Pooled<T>,
    pub context: Hidden<T>,
}

/// Why encoder outputs cannot be combined.
#[derive(Clone, Copy, Debug, PartialEq, Eq, Structural)]
pub enum AggregateError {
    /// The pooled vectors are of different batches.
    PooledShape,
    /// The CLIP contexts are of different batches or lengths.
    ClipShape,
    /// The CLIP contexts together are not of the configured width.
    ClipWidth { width: usize, configured: usize, clip_l: usize, clip_g: usize },
    /// The CLIP contexts together are wider than the joint context.
    TooWide { width: usize, joint: usize },
    /// The T5 context is of another batch or width than the padded CLIP one.
    T5Shape,
}

impl AggregateError {
    pub open spec fn text(self) -> Seq<char> {
        match self {
            AggregateError::PooledShape => "sd3 aggregator: pooled shape mismatch"@,
            AggregateError::ClipShape => "sd3 aggregator: clip context shape mismatch"@,
            AggregateError::ClipWidth { width, configured, clip_l, clip_g } =>
                "sd3 aggregator: concatenated CLIP context width "@ + decimal(width as nat)
                    + " != configured clip_concat_dim "@ + decimal(configured as nat)
                    + " (clip_l_dim "@ + decimal(clip_l as nat) + " + clip_g_dim "@ + decimal(
                clip_g as nat,
            ) + ")"@,
            AggregateError::TooWide { width, joint } => "sd3 aggregator: clip context hidden "@
                + decimal(width as nat) + " exceeds joint_attention_dim "@ + decimal(joint as nat),
            AggregateError::T5Shape => "sd3 aggregator: t5 context shape mismatch"@,
        }
    }

    /// The error in words.
    pub fn message(&self) -> (r: String)
        ensures
            r@ == self.text(),
    {
        match *self {
            AggregateError::PooledShape => String::from_str(
                "sd3 aggregator: pooled shape mismatch",
            ),
            AggregateError::ClipShape => String::from_str(
                "sd3 aggregator: clip context shape mismatch",
            ),
            AggregateError::ClipWidth { width, configured, clip_l, clip_g } => {
                let mut s = join(
                    "sd3 aggregator: concatenated CLIP context width ",
                    decimal_of(width).as_str(),
                );
                s.append(" != configured clip_concat_dim ");
                s.append(decimal_of(configured).as_str());
                s.append(" (clip_l_dim ");
                s.append(decimal_of(clip_l).as_str());
                s.append(" + clip_g_dim ");
                s.append(decimal_of(clip_g).as_str());
                s.append(")");
                s
            },
            AggregateError::TooWide { width, joint } => {
                let mut s = join(
                    "sd3 aggregator: clip context hidden ",
                    decimal_of(width).as_str(),
                );
                s.append(" exceeds joint_attention_dim ");
                s.append(decimal_of(joint).as_str());
                s
            },
            AggregateError::T5Shape => String::from_str(
                "sd3 aggregator: t5 context shape mismatch",
            ),
        }
    }
}

/// The parts of a flat index below `outer * inner`.
proof fn lemma_split(k: int, outer: int, inner: int)
    requires
        0 <= outer,
        0 <= inner,
        0 <= k < outer * inner,
    ensures
        inner > 0,
        0 <= k % inner < inner,
        0 <= k / inner < outer,
        k == (k / inner) * inner + k % inner,
{
    assert(inner > 0) by (nonlinear_arith)
        requires
            0 <= inner,
            0 <= outer,
            0 < outer * inner,
    ;
    vstd::arithmetic::div_mod::lemma_fundamental_div_mod(k, inner);
    vstd::arithmetic::div_mod::lemma_div_pos_is_pos(k, inner);
    let q = k / inner;
    assert(q < outer) by (nonlinear_arith)
        requires
            inner * q <= k,
            k < outer * inner,
            inner > 0,
    ;
    assert(inner * q == q * inner) by (nonlinear_arith);
}

/// A flat index is below the bound, and its parts are those it is made of.
proof fn lemma_flat(a: int, outer: int, b: int, inner: int)
    requires
        0 <= a < outer,
        0 <= b < inner,
    ensures
        0 <= a * inner + b < outer * inner,
        0 <= a * inner <= a * inner + b,
        (a * inner + b) / inner == a,
        (a * inner + b) % inner == b,
{
    assert(a * inner + inner <= outer * inner) by (nonlinear_arith)
        requires
            a + 1 <= outer,
            inner >= 0,
    ;
    assert(a * inner >= 0) by (nonlinear_arith)
        requires
            a >= 0,
            inner >= 0,
    ;
    vstd::arithmetic::div_mod::lemma_fundamental_div_mod_converse(a * inner + b, inner, a, b);
}

/// Two pooled arrays side by side: of each row, `a`'s and then `b`'s.
pub open spec fn is_pooled_cat<T>(r: &Pooled<T>, a: &Pooled<T>, b: &Pooled<T>) -> bool {
    &&& r.wf()
    &&& r.batch == a.batch
    &&& r.width == a.width + b.width
    &&& forall|n: int, i: int|
        0 <= n < r.batch && 0 <= i < r.width ==> #[trigger] r.at(n, i) == if i < a.width {
            a.at(n, i)
        } else {
            b.at(n, i - a.width)
        }
}

fn cat_pooled<T: Copy>(a: &Pooled<T>, b: &Pooled<T>) -> (r: Pooled<T>)
    requires
        a.wf(),
        b.wf(),
        a.batch == b.batch,
        a.width + b.width <= usize::MAX,
        a.batch * (a.width + b.width) <= usize::MAX,
    ensures
        is_pooled_cat(&r, a, b),
{
    let width: usize = a.width + b.width;
    let n: usize = a.batch * width;
    let mut data: Vec<T> = Vec::new();
    let mut k: usize = 0;
    while k < n
        invariant
            k <= n,
            n == a.batch * width,
            width == a.width + b.width,
            a.wf(),
            b.wf(),
            a.batch == b.batch,
            data.len() == k,
            forall|j: int|
                0 <= j < k ==> #[trigger] data[j] == if j % (width as int) < a.width {
                    a.at(j / width as int, j % width as int)
                } else {
                    b.at(j / width as int, j % width as int - a.width)
                },
        decreases n - k,
    {
        proof {
            lemma_split(k as int, a.batch as int, width as int);
        }
        let row: usize = k / width;
        let i: usize = k % width;
        if i < a.width {
            proof {
                lemma_flat(row as int, a.batch as int, i as int, a.width as int);
            }
            data.push(a.data[row * a.width + i]);
        } else {
            proof {
                lemma_flat(row as int, b.batch as int, i - a.width, b.width as int);
            }
            data.push(b.data[row * b.width + (i - a.width)]);
        }
        k += 1;
    }
    let r = Pooled { batch: a.batch, width, data };
    proof {
        assert forall|n: int, i: int| 0 <= n < r.batch && 0 <= i < r.width implies #[trigger] r.at(
            n,
            i,
        ) == if i < a.width {
            a.at(n, i)
        } else {
            b.at(n, i - a.width)
        } by {
            lemma_flat(n, r.batch as int, i, width as int);
        }
    }
    r
}

/// The joint context: of each row the CLIP tokens come first, each of them `l`'s features, then
/// `g`'s, then zeros; the T5 tokens follow.
pub open spec fn is_context<T>(
    r: &Hidden<T>,
    l: &Hidden<T>,
    g: &Hidden<T>,
    t5: &Hidden<T>,
    zero: T,
) -> bool {
    &&& r.wf()
    &&& r.batch == l.batch
    &&& r.seq == l.seq + t5.seq
    &&& r.width == t5.width
    &&& forall|n: int, s: int, i: int|
        0 <= n < r.batch && 0 <= s < r.seq && 0 <= i < r.width ==> #[trigger] r.at(n, s, i) == if s
            >= l.seq {
            t5.at(n, s - l.seq, i)
        } else if i < l.width {
            l.at(n, s, i)
        } else if i < l.width + g.width {
            g.at(n, s, i - l.width)
        } else {
            zero
        }
}

/// The element of the joint context at a flat index.
spec fn context_at<T>(
    k: int,
    seq: int,
    width: int,
    l: &Hidden<T>,
    g: &Hidden<T>,
    t5: &Hidden<T>,
    zero: T,
) -> T {
    let i = k % width;
    let s = (k / width) % seq;
    let n = (k / width) / seq;
    if s >= l.seq {
        t5.at(n, s - l.seq, i)
    } else if i < l.width {
        l.at(n, s, i)
    } else if i < l.width + g.width {
        g.at(n, s, i - l.width)
    } else {
        zero
    }
}

/// An index of an array is in range.
proof fn lemma_inside(n: int, batch: int, s: int, seq: int, i: int, width: int)
    requires
        0 <= n < batch,
        0 <= s < seq,
        0 <= i < width,
    ensures
        0 <= n * seq <= n * seq + s,
        0 <= (n * seq + s) * width <= (n * seq + s) * width + i < batch * seq * width,
        n * seq + s <= (n * seq + s) * width,
        ((n * seq + s) * width + i) % width == i,
        ((n * seq + s) * width + i) / width == n * seq + s,
        (n * seq + s) % seq == s,
        (n * seq + s) / seq == n,
{
    lemma_flat(n, batch, s, seq);
    lemma_flat(n * seq + s, batch * seq, i, width);
    assert(n * seq + s <= (n * seq + s) * width) by (nonlinear_arith)
        requires
            n * seq + s >= 0,
            width >= 1,
    ;
}

fn join_context<T: Copy>(l: &Hidden<T>, g: &Hidden<T>, t5: &Hidden<T>, zero: T) -> (r: Hidden<T>)
    requires
        l.wf() && g.wf() && t5.wf(),
        l.batch == g.batch && l.batch == t5.batch,
        l.seq == g.seq,
        l.width + g.width <= t5.width,
        l.seq + t5.seq <= usize::MAX,
        l.batch * (l.seq + t5.seq) <= usize::MAX,
        l.batch * (l.seq + t5.seq) * t5.width <= usize::MAX,
    ensures
        is_context(&r, l, g, t5, zero),
{
    let seq: usize = l.seq + t5.seq;
    let width: usize = t5.width;
    let n: usize = l.batch * seq * width;
    let mut data: Vec<T> = Vec::new();
    let mut k: usize = 0;
    while k < n
        invariant
            k <= n,
            n == l.batch * seq * width,
            seq == l.seq + t5.seq,
            width == t5.width,
            l.wf() && g.wf() && t5.wf(),
            l.batch == g.batch && l.batch == t5.batch,
            l.seq == g.seq,
            l.width + g.width <= t5.width,
            data.len() == k,
            forall|j: int|
                0 <= j < k ==> #[trigger] data[j] == context_at(
                    j,
                    seq as int,
                    width as int,
                    l,
                    g,
                    t5,
                    zero,
                ),
        decreases n - k,
    {
        proof {
            lemma_split(k as int, l.batch * seq, width as int);
            lemma_split(k as int / width as int, l.batch as int, seq as int);
        }
        let i: usize = k % width;
        let s: usize = (k / width) % seq;
        let b: usize = (k / width) / seq;
        if s >= l.seq {
            proof {
                lemma_inside(
                    b as int,
                    t5.batch as int,
                    s - l.seq,
                    t5.seq as int,
                    i as int,
                    width as int,
                );
            }
            data.push(t5.data[(b * t5.seq + (s - l.seq)) * t5.width + i]);
        } else if i < l.width {
            proof {
                lemma_inside(
                    b as int,
                    l.batch as int,
                    s as int,
                    l.seq as int,
                    i as int,
                    l.width as int,
                );
            }
            data.push(l.data[(b * l.seq + s) * l.width + i]);
        } else if i - l.width < g.width {
            proof {
                lemma_inside(
                    b as int,
                    g.batch as int,
                    s as int,
                    g.seq as int,
                    i - l.width,
                    g.width as int,
                );
            }
            data.push(g.data[(b * g.seq + s) * g.width + (i - l.width)]);
        } else {
            data.push(zero);
        }
        k += 1;
    }
    let r = Hidden { batch: l.batch, seq, width, data };
    proof {
        assert forall|m: int, s: int, i: int|
            0 <= m < r.batch && 0 <= s < r.seq && 0 <= i < r.width implies #[trigger] r.at(m, s, i)
            == if s >= l.seq {
            t5.at(m, s - l.seq, i)
        } else if i < l.width {
            l.at(m, s, i)
        } else if i < l.width + g.width {
            g.at(m, s, i - l.width)
        } else {
            zero
        } by {
            lemma_inside(m, r.batch as int, s, seq as int, i, width as int);
        }
    }
    r
}

/// The first reason, in order, why the outputs cannot be combined.
pub open spec fn mismatch<T>(cfg: &Sd3Config, enc: &EncoderOutputs<T>) -> Option<AggregateError> {
    let (l, g) = (&enc.clip_l_hidden, &enc.clip_g_hidden);
    let width = l.width + g.width;
    if enc.clip_l_pooled.batch != enc.clip_g_pooled.batch {
        Some(AggregateError::PooledShape)
    } else if l.batch != g.batch || l.seq != g.seq {
        Some(AggregateError::ClipShape)
    } else if width != cfg.clip_concat_dim {
        Some(
            AggregateError::ClipWidth {
                width: width as usize,
                configured: cfg.clip_concat_dim,
                clip_l: cfg.clip_l_dim,
                clip_g: cfg.clip_g_dim,
            },
        )
    } else if width > cfg.joint_attention_dim {
        Some(AggregateError::TooWide { width: width as usize, joint: cfg.joint_attention_dim })
    } else if enc.t5_hidden.batch != l.batch || enc.t5_hidden.width != cfg.joint_attention_dim {
        Some(AggregateError::T5Shape)
    } else {
        None
    }
}

/// Combines the encoders' outputs: the pooled vectors side by side, CLIP-L's first; and the CLIP
/// contexts side by side, padded with `zero` to the joint width and followed by the T5 tokens.
pub fn aggregate<T: Copy>(cfg: &Sd3Config, enc: &EncoderOutputs<T>, zero: T) -> (r: Result<
    Sd3Conditioning<T>,
    AggregateError,
>)
    requires
        enc.wf(),
        enc.clip_l_pooled.width + enc.clip_g_pooled.width <= usize::MAX,
        enc.clip_l_pooled.batch * (enc.clip_l_pooled.width + enc.clip_g_pooled.width) <= usize::MAX,
        enc.clip_l_hidden.width + enc.clip_g_hidden.width <= usize::MAX,
        enc.clip_l_hidden.seq + enc.t5_hidden.seq <= usize::MAX,
        enc.clip_l_hidden.batch * (enc.clip_l_hidden.seq + enc.t5_hidden.seq) <= usize::MAX,
        enc.clip_l_hidden.batch * (enc.clip_l_hidden.seq + enc.t5_hidden.seq) * enc.t5_hidden.width
            <= usize::MAX,
    ensures
        match r {
            Ok(c) => {
                &&& mismatch(cfg, enc) is None
                &&& is_pooled_cat(&c.pooled, &enc.clip_l_pooled, &enc.clip_g_pooled)
                &&& is_context(
                    &c.context,
                    &enc.clip_l_hidden,
                    &enc.clip_g_hidden,
                    &enc.t5_hidden,
                    zero,
                )
            },
            Err(e) => mismatch(cfg, enc) == Some(e),
        },
{
    if enc.clip_l_pooled.batch != enc.clip_g_pooled.batch {
        return Err(AggregateError::PooledShape);
    }
    let l = &enc.clip_l_hidden;
    let g = &enc.clip_g_hidden;
    if l.batch != g.batch || l.seq != g.seq {
        return Err(AggregateError::ClipShape);
    }
    let width: usize = l.width + g.width;
    if width != cfg.clip_concat_dim {
        return Err(
            AggregateError::ClipWidth {
                width,
                configured: cfg.clip_concat_dim,
                clip_l: cfg.clip_l_dim,
                clip_g: cfg.clip_g_dim,
            },
        );
    }
    if width > cfg.joint_attention_dim {
        return Err(AggregateError::TooWide { width, joint: cfg.joint_attention_dim });
    }
    if enc.t5_hidden.batch != l.batch || enc.t5_hidden.width != cfg.joint_attention_dim {
        return Err(AggregateError::T5Shape);
    }
    Ok(
        Sd3Conditioning {
            pooled: cat_pooled(&enc.clip_l_pooled, &enc.clip_g_pooled),
            context: join_context(l, g, &enc.t5_hidden, zero),
        },
    )
}

/// `n` copies of `x`.
fn filled<T: Copy>(n: usize, x: T) -> (r: Vec<T>)
    ensures
        r@ == Seq::new(n as nat, |i: int| x),
{
    let mut v: Vec<T> = Vec::new();
    let mut i: usize = 0;
    while i < n
        invariant
            i <= n,
            v@ == Seq::new(i as nat, |i: int| x),
        decreases n - i,
    {
        v.push(x);
        proof {
            assert(v@ =~= Seq::new((i + 1) as nat, |i: int| x));
        }
        i += 1;
    }
    v
}

/// The array has this shape and holds `x` everywhere.
pub open spec fn is_filled<T>(h: &Hidden<T>, batch: usize, seq: usize, width: usize, x: T) -> bool {
    &&& h.wf() && h.batch == batch && h.seq == seq && h.width == width
    &&& forall|k: int| 0 <= k < h.data.len() ==> #[trigger] h.data[k] == x
}

pub open spec fn is_filled_pooled<T>(p: &Pooled<T>, batch: usize, width: usize, x: T) -> bool {
    &&& p.wf() && p.batch == batch && p.width == width
    &&& forall|k: int| 0 <= k < p.data.len() ==> #[trigger] p.data[k] == x
}

/// The size of a `[batch, seq, width]` array fits.
pub open spec fn size_fits(batch: usize, seq: usize, width: usize) -> bool {
    batch * seq <= usize::MAX && batch * seq * width <= usize::MAX
}

/// The encoder outputs of an unconditioned prompt, at the configured shapes.
pub fn zeroed_outputs<T: Copy>(cfg: &Sd3Config, batch: usize, zero: T) -> (r: EncoderOutputs<T>)
    requires
        size_fits(batch, cfg.clip_seq_len, cfg.clip_l_dim),
        size_fits(batch, cfg.clip_seq_len, cfg.clip_g_dim),
        size_fits(batch, cfg.t5_seq_len, cfg.t5_dim),
        batch * cfg.clip_l_dim <= usize::MAX,
        batch * cfg.clip_g_dim <= usize::MAX,
    ensures
        is_filled(&r.clip_l_hidden, batch, cfg.clip_seq_len, cfg.clip_l_dim, zero),
        is_filled(&r.clip_g_hidden, batch, cfg.clip_seq_len, cfg.clip_g_dim, zero),
        is_filled(&r.t5_hidden, batch, cfg.t5_seq_len, cfg.t5_dim, zero),
        is_filled_pooled(&r.clip_l_pooled, batch, cfg.clip_l_dim, zero),
        is_filled_pooled(&r.clip_g_pooled, batch, cfg.clip_g_dim, zero),
{
    EncoderOutputs {
        clip_l_hidden: Hidden {
            batch,
            seq: cfg.clip_seq_len,
            width: cfg.clip_l_dim,
            data: filled(batch * cfg.clip_seq_len * cfg.clip_l_dim, zero),
        },
        clip_g_hidden: Hidden {
            batch,
            seq: cfg.clip_seq_len,
            width: cfg.clip_g_dim,
            data: filled(batch * cfg.clip_seq_len * cfg.clip_g_dim, zero),
        },
        clip_l_pooled: Pooled {
            batch,
            width: cfg.clip_l_dim,
            data: filled(batch * cfg.clip_l_dim, zero),
        },
        clip_g_pooled: Pooled {
            batch,
            width: cfg.clip_g_dim,
            data: filled(batch * cfg.clip_g_dim, zero),
        },
        t5_hidden: Hidden {
            batch,
            seq: cfg.t5_seq_len,
            width: cfg.t5_dim,
            data: filled(batch * cfg.t5_seq_len * cfg.t5_dim, zero),
        },
    }
}

/// The token limit of both CLIP encoders.
pub const CLIP_MAX_LEN: usize = 77;

/// The pad token of T5.
pub const T5_PAD_TOKEN_ID: u32 = 0;

/// A CLIP row of exactly the limit: a shorter one is padded, and a longer one cut, with the
/// end-of-text id in its last place.
pub open spec fn fitted(ids: Seq<u32>, pad: u32, eos: u32) -> Seq<u32> {
    if ids.len() > CLIP_MAX_LEN {
        ids.take(CLIP_MAX_LEN as int).update(CLIP_MAX_LEN - 1, eos)
    } else {
        padded(ids, pad, CLIP_MAX_LEN as int)
    }
}

/// Cuts or pads a token row to exactly `len`.
fn resized(ids: Vec<u32>, len: usize, pad: u32) -> (r: Vec<u32>)
    ensures
        r@ == padded(ids@, pad, len as int),
{
    let ghost start = ids@;
    let mut row = ids;
    if row.len() > len {
        row.truncate(len);
    }
    let ghost kept = row@;
    while row.len() < len
        invariant
            kept.len() <= row.len() <= len,
            kept == start || (kept.len() == len && kept == start.take(len as int) && len
                <= start.len()),
            row@ == padded(kept, pad, row.len() as int),
        decreases len - row.len(),
    {
        row.push(pad);
        proof {
            assert(row@ =~= padded(kept, pad, row.len() as int));
        }
    }
    proof {
        assert(row@ =~= padded(start, pad, len as int));
    }
    row
}

/// Fits a CLIP token row to the encoder, keeping an end-of-text id where it must be cut.
pub fn fit_clip_tokens(ids: Vec<u32>, pad_id: u32, eos_id: u32) -> (r: Vec<u32>)
    ensures
        r@ == fitted(ids@, pad_id, eos_id),
        r.len() == CLIP_MAX_LEN,
{
    if ids.len() > CLIP_MAX_LEN {
        let mut row = ids;
        row.truncate(CLIP_MAX_LEN);
        row.set(CLIP_MAX_LEN - 1, eos_id);
        row
    } else {
        resized(ids, CLIP_MAX_LEN, pad_id)
    }
}

/// The row and pooling position that an encoding of a CLIP prompt gives.
pub open spec fn is_clip_row(row: Seq<u32>, at: int, ids: Seq<u32>, eos: u32) -> bool {
    row == fitted(ids, eos, eos) && is_last_max(row, at)
}

/// The row of a CLIP encoding, padded with the end-of-text id, and where it is pooled.
pub fn clip_row_of_ids(ids: Vec<u32>, eos_id: u32) -> (r: (Vec<u32>, usize))
    ensures
        is_clip_row(r.0@, r.1 as int, ids@, eos_id),
{
    let row = fit_clip_tokens(ids, eos_id, eos_id);
    let at: usize = eos_position(row.as_slice());
    (row, at)
}

/// What is said of a prompt that a CLIP tokenizer fails on.
pub open spec fn clip_failure(reason: Seq<char>) -> Seq<char> {
    "sd3: CLIP tokenize: "@ + reason
}

/// What is said of a prompt that the T5 tokenizer fails on.
pub open spec fn t5_failure(reason: Seq<char>) -> Seq<char> {
    "sd3: T5 tokenize: "@ + reason
}

/// A CLIP row cannot be made: the vocabulary has no end-of-text token, or the prompt no encoding.
pub open spec fn clip_fails(vocab: Map<Seq<char>, u32>, ids: Option<Seq<u32>>) -> bool {
    !vocab.contains_key("<|endoftext|>"@) || ids is None
}

/// The error of a CLIP row that cannot be made; the missing token comes first.
pub open spec fn is_clip_error(e: Error, vocab: Map<Seq<char>, u32>) -> bool {
    if !vocab.contains_key("<|endoftext|>"@) {
        e.says("sd3: CLIP tokenizer missing <|endoftext|>"@)
    } else {
        exists|reason: Seq<char>| e.says(#[trigger] clip_failure(reason))
    }
}

/// What an encoding of a prompt, where there is one, gives with a vocabulary that holds the end-of-text
/// token.
pub open spec fn is_clip_result(
    r: Result<(Vec<u32>, usize), Error>,
    vocab: Map<Seq<char>, u32>,
    ids: Option<Seq<u32>>,
) -> bool {
    if clip_fails(vocab, ids) {
        r matches Err(e) && is_clip_error(e, vocab)
    } else {
        r matches Ok(row) && is_clip_row(
            row.0@,
            row.1 as int,
            ids->0,
            vocab["<|endoftext|>"@],
        )
    }
}

/// Why an encoding failed.
fn reason_of(e: TokenError) -> (r: String)
    ensures
        e matches TokenError::Tokenize { reason } ==> r@ == reason@,
{
    match e {
        TokenError::Tokenize { reason } => reason,
        _ => e.message(),
    }
}

/// The CLIP token row of a prompt and the position that its pooled vector comes from.
pub fn clip_row(t: &TextTokenizer, prompt: &str) -> (r: Result<(Vec<u32>, usize), Error>)
    ensures
        exists|ids: Option<Seq<u32>>|
            #[trigger] may_encode(t@, prompt@, true, ids) && is_clip_result(
                r,
                vocabulary(t@),
                ids,
            ),
{
    let eos: u32 = match pad_id(t, &None) {
        Ok(id) => id,
        Err(_) => {
            proof {
                assert(may_encode(t@, prompt@, true, encoded(t@, prompt@, true)));
            }
            return Err(
                Error::Msg(String::from_str("sd3: CLIP tokenizer missing <|endoftext|>")),
            );
        },
    };
    match token_ids(t, prompt, true) {
        Ok(ids) => {
            proof {
                assert(may_encode(t@, prompt@, true, Some(ids@)));
            }
            Ok(clip_row_of_ids(ids, eos))
        },
        Err(e) => {
            proof {
                assert(may_encode(t@, prompt@, true, None));
            }
            let reason = reason_of(e);
            let e = Error::Msg(join("sd3: CLIP tokenize: ", reason.as_str()));
            proof {
                assert(e.says(clip_failure(reason@)));
            }
            Err(e)
        },
    }
}

/// The T5 row of an encoding: cut or padded to the configured length. Every position is attended.
pub fn t5_row_of_ids(ids: Vec<u32>, len: usize) -> (r: Vec<u32>)
    ensures
        r@ == padded(ids@, T5_PAD_TOKEN_ID, len as int),
{
    resized(ids, len, T5_PAD_TOKEN_ID)
}

/// What an encoding of a prompt, where there is one, gives for T5.
pub open spec fn is_t5_result(r: Result<Vec<u32>, Error>, len: usize, ids: Option<Seq<u32>>) -> bool {
    match ids {
        None => r matches Err(e) && exists|reason: Seq<char>|
            e.says(#[trigger] t5_failure(reason)),
        Some(s) => r matches Ok(row) && row@ == padded(s, T5_PAD_TOKEN_ID, len as int),
    }
}

/// The T5 token row of a prompt.
pub fn t5_row(t: &TextTokenizer, prompt: &str, len: usize) -> (r: Result<Vec<u32>, Error>)
    ensures
        exists|ids: Option<Seq<u32>>|
            #[trigger] may_encode(t@, prompt@, true, ids) && is_t5_result(r, len, ids),
{
    match token_ids(t, prompt, true) {
        Ok(ids) => {
            proof {
                assert(may_encode(t@, prompt@, true, Some(ids@)));
            }
            Ok(t5_row_of_ids(ids, len))
        },
        Err(e) => {
            proof {
                assert(may_encode(t@, prompt@, true, None));
            }
            let reason = reason_of(e);
            let e = Error::Msg(join("sd3: T5 tokenize: ", reason.as_str()));
            proof {
                assert(e.says(t5_failure(reason@)));
            }
            Err(e)
        },
    }
}

/// The token rows of a prompt for the three encoders, and where the CLIP ones are pooled.
#[derive(Clone, Debug)]
pub struct PromptRows {
    pub clip_l: Vec<u32>,
    pub clip_l_eos: usize,
    pub clip_g: Vec<u32>,
    pub clip_g_eos: usize,
    pub t5: Vec<u32>,
}

/// What the encodings of a prompt by the three tokenizers give: their rows, or the error of the first
/// that has none.
pub open spec fn are_prompt_rows(
    r: Result<PromptRows, Error>,
    vocab_l: Map<Seq<char>, u32>,
    vocab_g: Map<Seq<char>, u32>,
    t5_len: usize,
    ids: (Option<Seq<u32>>, Option<Seq<u32>>, Option<Seq<u32>>),
) -> bool {
    let eos = "<|endoftext|>"@;
    if clip_fails(vocab_l, ids.0) {
        r matches Err(e) && is_clip_error(e, vocab_l)
    } else if clip_fails(vocab_g, ids.1) {
        r matches Err(e) && is_clip_error(e, vocab_g)
    } else {
        match ids.2 {
            None => r matches Err(e) && exists|reason: Seq<char>|
                e.says(#[trigger] t5_failure(reason)),
            Some(s) => {
                &&& r matches Ok(p)
                &&& is_clip_row(p.clip_l@, p.clip_l_eos as int, ids.0->0, vocab_l[eos])
                &&& is_clip_row(p.clip_g@, p.clip_g_eos as int, ids.1->0, vocab_g[eos])
                &&& p.t5@ == padded(s, T5_PAD_TOKEN_ID, t5_len as int)
            },
        }
    }
}

/// The three tokenizers may encode a prompt so.
pub open spec fn may_encode_all(
    l: Seq<u8>,
    g: Seq<u8>,
    t5: Seq<u8>,
    prompt: Seq<char>,
    ids: (Option<Seq<u32>>, Option<Seq<u32>>, Option<Seq<u32>>),
) -> bool {
    may_encode(l, prompt, true, ids.0) && may_encode(g, prompt, true, ids.1) && may_encode(
        t5,
        prompt,
        true,
        ids.2,
    )
}

/// Tokenizes a prompt for all three encoders, one after the other; it fails with the first that does.
pub fn encode(
    tok_l: &TextTokenizer,
    tok_g: &TextTokenizer,
    tok_t5: &TextTokenizer,
    prompt: &str,
    t5_len: usize,
) -> (r: Result<PromptRows, Error>)
    ensures
        exists|ids: (Option<Seq<u32>>, Option<Seq<u32>>, Option<Seq<u32>>)|
            #[trigger] may_encode_all(tok_l@, tok_g@, tok_t5@, prompt@, ids) && are_prompt_rows(
                r,
                vocabulary(tok_l@),
                vocabulary(tok_g@),
                t5_len,
                ids,
            ),
{
    let ghost (vl, vg) = (vocabulary(tok_l@), vocabulary(tok_g@));
    let first = clip_row(tok_l, prompt);
    let ghost ids_l = choose|ids: Option<Seq<u32>>|
        #[trigger] may_encode(tok_l@, prompt@, true, ids) && is_clip_result(first, vl, ids);
    let ghost any_g = encoded(tok_g@, prompt@, true);
    let ghost any_t5 = encoded(tok_t5@, prompt@, true);
    proof {
        assert(may_encode_all(tok_l@, tok_g@, tok_t5@, prompt@, (ids_l, any_g, any_t5)));
    }
    let (clip_l, clip_l_eos) = match first {
        Ok(r) => r,
        Err(e) => {
            return Err(e);
        },
    };
    let second = clip_row(tok_g, prompt);
    let ghost ids_g = choose|ids: Option<Seq<u32>>|
        #[trigger] may_encode(tok_g@, prompt@, true, ids) && is_clip_result(second, vg, ids);
    proof {
        assert(may_encode_all(tok_l@, tok_g@, tok_t5@, prompt@, (ids_l, ids_g, any_t5)));
    }
    let (clip_g, clip_g_eos) = match second {
        Ok(r) => r,
        Err(e) => {
            return Err(e);
        },
    };
    let third = t5_row(tok_t5, prompt, t5_len);
    let ghost ids_t5 = choose|ids: Option<Seq<u32>>|
        #[trigger] may_encode(tok_t5@, prompt@, true, ids) && is_t5_result(third, t5_len, ids);
    proof {
        assert(may_encode_all(tok_l@, tok_g@, tok_t5@, prompt@, (ids_l, ids_g, ids_t5)));
    }
    match third {
        Ok(t5) => Ok(PromptRows { clip_l, clip_l_eos, clip_g, clip_g_eos, t5 }),
        Err(e) => Err(e),
    }
}

/// A part of the text encoders, in the order they are loaded, by its place in a snapshot.
#[derive(Clone, Copy, Debug, PartialEq, Eq, Structural)]
pub enum EncoderPart {
    ClipLTokenizer,
    ClipGTokenizer,
    T5Tokenizer,
    ClipL,
    ClipG,
    T5,
}

impl EncoderPart {
    /// The directory or file of the part, and its label in messages.
    pub fn place(&self) -> (r: (&'static str, &'static str))
        ensures
            r == match *self {
                EncoderPart::ClipLTokenizer => ("tokenizer", "CLIP-L"),
                EncoderPart::ClipGTokenizer => ("tokenizer_2", "CLIP-bigG"),
                EncoderPart::T5Tokenizer => ("tokenizer_3/tokenizer.json", "T5"),
                EncoderPart::ClipL => ("text_encoder", "CLIP-L"),
                EncoderPart::ClipG => ("text_encoder_2", "CLIP-bigG"),
                EncoderPart::T5 => ("text_encoder_3", "T5"),
            },
    {
        match *self {
            EncoderPart::ClipLTokenizer => ("tokenizer", "CLIP-L"),
            EncoderPart::ClipGTokenizer => ("tokenizer_2", "CLIP-bigG"),
            EncoderPart::T5Tokenizer => ("tokenizer_3/tokenizer.json", "T5"),
            EncoderPart::ClipL => ("text_encoder", "CLIP-L"),
            EncoderPart::ClipG => ("text_encoder_2", "CLIP-bigG"),
            EncoderPart::T5 => ("text_encoder_3", "T5"),
        }
    }
}

/// The geometry of a T5 encoder, as its configuration file gives it.
#[derive(Clone, Copy, Debug, PartialEq, Eq, Structural)]
pub struct T5Geometry {
    pub vocab_size: usize,
    pub d_model: usize,
    pub d_kv: usize,
    pub d_ff: usize,
    pub num_layers: usize,
    pub num_decoder_layers: Option<usize>,
    pub num_heads: usize,
    pub relative_attention_num_buckets: usize,
    pub relative_attention_max_distance: usize,
    pub dropout_rate: Real64,
    pub layer_norm_epsilon: Real64,
    pub initializer_factor: Real64,
    pub gated: bool,
    pub tie_word_embeddings: bool,
    pub is_decoder: bool,
    pub is_encoder_decoder: bool,
    pub use_cache: bool,
    pub pad_token_id: usize,
    pub eos_token_id: usize,
    pub decoder_start_token_id: Option<usize>,
}

/// The configuration of a T5 encoder.
#[derive(Clone, Debug)]
pub struct T5Config {
    pub geometry: T5Geometry,
    /// The activation of the feed-forward, as JSON.
    pub activation: String,
}

/// The geometry and the activation of the T5 configuration that a JSON text spells, or `None` where it
/// spells none.
pub uninterp spec fn t5_values(text: Seq<char>) -> Option<(T5Geometry, Seq<char>)>;

/// `serde_json::from_str` into `candle_transformers`' `t5::Config`: its values are a function of the
/// text. Nothing is said of the error's wording.
#[verifier::external_body]
fn parse_t5_config(text: &str) -> (r: Result<T5Config, String>)
    ensures
        match r {
            Ok(c) => t5_values(text@) == Some((c.geometry, c.activation@)),
            Err(_) => t5_values(text@) is None,
        },
{
    let Config { vocab_size, d_model, d_kv, d_ff, num_layers, num_decoder_layers, num_heads,
        relative_attention_num_buckets, relative_attention_max_distance, dropout_rate,
        layer_norm_epsilon, initializer_factor, feed_forward_proj: f, tie_word_embeddings, is_decoder,
        is_encoder_decoder, use_cache, pad_token_id, eos_token_id, decoder_start_token_id,
    } = serde_json::from_str(text).map_err(|e| e.to_string())?;
    let activation = serde_json::to_string(&f.activation).map_err(|e| e.to_string())?;
    let geometry = T5Geometry { vocab_size, d_model, d_kv, d_ff, num_layers, num_decoder_layers,
        num_heads, relative_attention_num_buckets, relative_attention_max_distance,
        dropout_rate: Real64 { bits: dropout_rate.to_bits() }, gated: f.gated, tie_word_embeddings,
        layer_norm_epsilon: Real64 { bits: layer_norm_epsilon.to_bits() }, is_decoder,
        initializer_factor: Real64 { bits: initializer_factor.to_bits() },
        is_encoder_decoder, use_cache, pad_token_id, eos_token_id, decoder_start_token_id };
    Ok(T5Config { geometry, activation })
}

/// What is said of a text that is no T5 configuration.
pub open spec fn t5_config_failure(reason: Seq<char>) -> Seq<char> {
    "sd3: parse T5 config.json: "@ + reason
}

/// Reads the configuration of the T5 encoder.
pub fn t5_config(text: &str) -> (r: Result<T5Config, Error>)
    ensures
        match r {
            Ok(c) => t5_values(text@) == Some((c.geometry, c.activation@)),
            Err(e) => t5_values(text@) is None && exists|reason: Seq<char>|
                e.says(#[trigger] t5_config_failure(reason)),
        },
{
    match parse_t5_config(text) {
        Ok(c) => Ok(c),
        Err(reason) => {
            let e = Error::Msg(join("sd3: parse T5 config.json: ", reason.as_str()));
            proof {
                assert(e.says(t5_config_failure(reason@)));
            }
            Err(e)
        },
    }
}

/// The file is a weight file: it has the extension, and a name before it.
pub open spec fn is_weight_file(name: Seq<char>) -> bool {
    ends(name, ".safetensors"@) && name.len() > ".safetensors"@.len()
}

/// The weight files among `names`, in the order given.
pub open spec fn weight_files(names: Seq<Seq<char>>) -> Seq<Seq<char>> {
    names.filter(|n: Seq<char>| is_weight_file(n))
}

/// No name comes before an earlier one.
pub open spec fn sorted(names: Seq<Seq<char>>) -> bool {
    forall|i: int, j: int|
        0 <= i < j < names.len() ==> !precedes(#[trigger] names[j], #[trigger] names[i])
}

/// Puts `name` in its place in sorted `names`.
fn insert_sorted(names: &mut Vec<String>, name: String)
    requires
        sorted(views(old(names)@)),
    ensures
        sorted(views(final(names)@)),
        views(final(names)@).to_multiset() == views(old(names)@).to_multiset().insert(name@),
        final(names).len() == old(names).len() + 1,
{
    let ghost before = views(names@);
    let mut i: usize = 0;
    while i < names.len() && !comes_before(name.as_str(), names[i].as_str())
        invariant
            i <= names.len(),
            before == views(names@),
            forall|k: int| 0 <= k < i ==> !precedes(name@, #[trigger] before[k]),
        decreases names.len() - i,
    {
        proof {
            assert(before[i as int] == names[i as int]@);
        }
        i += 1;
    }
    let ghost n = name@;
    let ghost at = i as int;
    proof {
        if at < before.len() {
            assert(before[at] == names[at]@);
        }
        assert forall|k: int| at <= k < before.len() implies !precedes(#[trigger] before[k], n) by {
            crate::text::lemma_precedes_total(n, before[at]);
            if k > at {
                assert(!precedes(before[k], before[at]));
                if precedes(before[k], n) {
                    crate::text::lemma_precedes_transitive(before[k], n, before[at]);
                }
            }
        }
    }
    names.insert(i, name);
    proof {
        let after = views(names@);
        assert(after =~= before.insert(at, n));
        assert forall|a: int, b: int| 0 <= a < b < after.len() implies !precedes(
            #[trigger] after[b],
            #[trigger] after[a],
        ) by {
            let pa = if a < at {
                a
            } else {
                a - 1
            };
            let pb = if b < at {
                b
            } else {
                b - 1
            };
            if a == at {
                assert(after[b] == before[pb]);
            } else if b == at {
                assert(after[a] == before[pa]);
            } else {
                assert(after[a] == before[pa] && after[b] == before[pb]);
            }
        }
        vstd::seq_lib::to_multiset_insert(before, at, n);
    }
}

/// The sorted weight files of a component directory; `None` where there is no such directory.
pub fn safetensors_in(dir: &str, names: &Option<Vec<String>>) -> (r: Result<Vec<String>, Error>)
    ensures
        match *names {
            None => r matches Err(e) && e.says(
                "sd3 snapshot is missing the "@ + dir@ + " component directory"@,
            ),
            Some(all) => {
                let files = weight_files(views(all@));
                if files.len() == 0 {
                    r matches Err(e) && e.says("sd3: no .safetensors found in "@ + dir@)
                } else {
                    r matches Ok(v) && sorted(views(v@)) && views(v@).to_multiset()
                        == files.to_multiset() && v.len() == files.len()
                }
            },
        },
{
    let all = match names {
        Some(v) => v,
        None => {
            let mut s = join("sd3 snapshot is missing the ", dir);
            s.append(" component directory");
            return Err(Error::Msg(s));
        },
    };
    let ghost names_view = views(all@);
    let mut files: Vec<String> = Vec::new();
    let mut i: usize = 0;
    proof {
        assert(names_view.take(0) =~= Seq::empty());
        assert(weight_files(names_view.take(0)) =~= Seq::empty());
        assert(views(files@) =~= Seq::empty());
    }
    while i < all.len()
        invariant
            i <= all.len(),
            names_view == views(all@),
            sorted(views(files@)),
            views(files@).to_multiset() == weight_files(names_view.take(i as int)).to_multiset(),
            files.len() == weight_files(names_view.take(i as int)).len(),
        decreases all.len() - i,
    {
        let name = all[i].as_str();
        let suffix = ".safetensors";
        proof {
            let p = |n: Seq<char>| is_weight_file(n);
            assert(names_view.take(i + 1) =~= names_view.take(i as int).push(name@));
            lemma_filter_push(names_view.take(i as int), name@, p);
            weight_files(names_view.take(i as int)).to_multiset_ensures();
        }
        if has_suffix(name, suffix) && name.unicode_len() > suffix.unicode_len() {
            insert_sorted(&mut files, all[i].clone());
        }
        i += 1;
    }
    proof {
        assert(names_view.take(names_view.len() as int) =~= names_view);
    }
    if files.len() == 0 {
        return Err(Error::Msg(join("sd3: no .safetensors found in ", dir)));
    }
    Ok(files)
}

/// What filtering makes of one more element.
proof fn lemma_filter_push(s: Seq<Seq<char>>, x: Seq<char>, p: spec_fn(Seq<char>) -> bool)
    ensures
        s.push(x).filter(p) == if p(x) {
            s.filter(p).push(x)
        } else {
            s.filter(p)
        },
{
    reveal(Seq::filter);
    assert(s.push(x).drop_last() =~= s);
}

/// The one weight file of a component, or the first of its shards.
pub fn single_safetensors(dir: &str, names: &Option<Vec<String>>) -> (r: Result<String, Error>)
    ensures
        match *names {
            None => r matches Err(e) && e.says(
                "sd3 snapshot is missing the "@ + dir@ + " component directory"@,
            ),
            Some(all) => {
                let files = weight_files(views(all@));
                if files.len() == 0 {
                    r matches Err(e) && e.says("sd3: no .safetensors found in "@ + dir@)
                } else {
                    r matches Ok(f) && files.contains(f@) && forall|i: int|
                        0 <= i < files.len() ==> !precedes(#[trigger] files[i], f@)
                }
            },
        },
{
    match safetensors_in(dir, names) {
        Ok(v) => {
            let f = v[0].clone();
            proof {
                let sv = views(v@);
                let files = weight_files(views((names->0)@));
                assert(sv[0] == f@);
                sv.to_multiset_ensures();
                files.to_multiset_ensures();
                assert(sv.contains(f@));
                assert(files.to_multiset().count(f@) > 0);
                assert forall|i: int| 0 <= i < files.len() implies !precedes(
                    #[trigger] files[i],
                    f@,
                ) by {
                    assert(files.contains(files[i]));
                    assert(sv.to_multiset().count(files[i]) > 0);
                    assert(sv.contains(files[i]));
                    let j = choose|j: int| 0 <= j < sv.len() && sv[j] == files[i];
                    crate::text::lemma_precedes_total(f@, f@);
                    if j > 0 {
                        assert(!precedes(sv[j], sv[0]));
                    }
                }
            }
            Ok(f)
        },
        Err(e) => Err(e),
    }
}

/// The position of the pooled head's projection in a CLIP checkpoint.
pub fn text_projection(tensors: &Vec<TensorEntry>, sub: &str, file: &str) -> (r: Result<
    usize,
    Error,
>)
    ensures
        match position(entries(tensors@), "text_projection.weight"@) {
            Some(i) => r matches Ok(k) && k == i,
            None => r matches Err(e) && e.says(
                "sd3 conditioning: text_projection.weight missing from "@ + sub@
                    + "/ checkpoint ("@ + file@ + ")"@,
            ),
        },
{
    match find_tensor(tensors, "text_projection.weight") {
        Some(i) => Ok(i),
        None => {
            let mut s = join("sd3 conditioning: text_projection.weight missing from ", sub);
            s.append("/ checkpoint (");
            s.append(file);
            s.append(")");
            Err(Error::Msg(s))
        },
    }
}

/// A prompt is never lost to the limit: a cut row ends with the end-of-text id, so that, where no id
/// exceeds it, the row is still pooled at one, and everything before it is kept.
pub proof fn law_cut_rows_keep_an_end(ids: Seq<u32>, pad: u32, eos: u32, p: int)
    requires
        ids.len() > CLIP_MAX_LEN,
        forall|i: int| 0 <= i < ids.len() ==> #[trigger] ids[i] <= eos,
        is_last_max(fitted(ids, pad, eos), p),
    ensures
        p == CLIP_MAX_LEN - 1,
        fitted(ids, pad, eos)[p] == eos,
        fitted(ids, pad, eos).take(CLIP_MAX_LEN - 1) == ids.take(CLIP_MAX_LEN - 1),
{
    let row = fitted(ids, pad, eos);
    assert(row[CLIP_MAX_LEN - 1] == eos);
    assert(row.take(CLIP_MAX_LEN - 1) =~= ids.take(CLIP_MAX_LEN - 1));
    assert(row[CLIP_MAX_LEN - 1] <= row[p]);
    assert(row[p] <= eos) by {
        if p < CLIP_MAX_LEN - 1 {
            assert(row[p] == ids[p]);
        }
    }
    if p < CLIP_MAX_LEN - 1 {
        assert(row[CLIP_MAX_LEN - 1] < row[p]);
    }
}

/// At the stock widths the pooled vector is 2048 wide and the context as long as the CLIP and T5 rows
/// together.
pub proof fn law_stock_shapes<T>(cfg: &Sd3Config, enc: &EncoderOutputs<T>, zero: T, c: &Sd3Conditioning<T>)
    requires
        cfg.stock_conditioning(),
        enc.clip_l_hidden.seq == cfg.clip_seq_len,
        enc.t5_hidden.seq == cfg.t5_seq_len,
        enc.clip_l_pooled.width == cfg.clip_l_dim,
        enc.clip_g_pooled.width == cfg.clip_g_dim,
        mismatch(cfg, enc) is None,
        is_pooled_cat(&c.pooled, &enc.clip_l_pooled, &enc.clip_g_pooled),
        is_context(&c.context, &enc.clip_l_hidden, &enc.clip_g_hidden, &enc.t5_hidden, zero),
    ensures
        c.pooled.width == cfg.pooled_dim,
        c.context.seq == 333 && c.context.width == 4096,
{
}

/// The joint context holds the CLIP tokens first and the T5 tokens behind them. A CLIP token is the
/// features of the smaller encoder, then those of the larger, then nothing up to the joint width; a T5
/// token is kept as it is.
pub proof fn law_context_keeps_every_feature<T>(
    c: &Hidden<T>,
    l: &Hidden<T>,
    g: &Hidden<T>,
    t5: &Hidden<T>,
    zero: T,
    n: int,
    s: int,
    i: int,
)
    requires
        is_context(c, l, g, t5, zero),
        l.width + g.width <= t5.width,
        g.seq == l.seq,
        0 <= n < l.batch,
    ensures
        0 <= s < l.seq && 0 <= i < l.width ==> c.at(n, s, i) == l.at(n, s, i),
        0 <= s < l.seq && 0 <= i < g.width ==> c.at(n, s, l.width + i) == g.at(n, s, i),
        0 <= s < l.seq && l.width + g.width <= i < t5.width ==> c.at(n, s, i) == zero,
        0 <= s < t5.seq && 0 <= i < t5.width ==> c.at(n, l.seq + s, i) == t5.at(n, s, i),
        c.seq == l.seq + t5.seq && c.width == t5.width && c.batch == l.batch,
{
}

/// The pooled vector is the smaller encoder's, and then the larger one's.
pub proof fn law_pooled_keeps_every_feature<T>(
    p: &Pooled<T>,
    l: &Pooled<T>,
    g: &Pooled<T>,
    n: int,
    i: int,
)
    requires
        is_pooled_cat(p, l, g),
        0 <= n < l.batch,
    ensures
        0 <= i < l.width ==> p.at(n, i) == l.at(n, i),
        0 <= i < g.width ==> p.at(n, l.width + i) == g.at(n, i),
        p.width == l.width + g.width && p.batch == l.batch,
{
}

/// Outputs are combined exactly where their batches agree, both CLIP contexts are as long, they are
/// together as wide as configured and no wider than the joint context, and the T5 context has that
/// width.
pub proof fn law_outputs_that_fit_are_combined<T>(cfg: &Sd3Config, enc: &EncoderOutputs<T>)
    ensures
        mismatch(cfg, enc) is None <==> {
            &&& enc.clip_l_pooled.batch == enc.clip_g_pooled.batch
            &&& enc.clip_l_hidden.batch == enc.clip_g_hidden.batch
            &&& enc.clip_l_hidden.seq == enc.clip_g_hidden.seq
            &&& enc.clip_l_hidden.width + enc.clip_g_hidden.width == cfg.clip_concat_dim
            &&& cfg.clip_concat_dim <= cfg.joint_attention_dim
            &&& enc.t5_hidden.batch == enc.clip_l_hidden.batch
            &&& enc.t5_hidden.width == cfg.joint_attention_dim
        },
{
}

/// A row always has the encoder's length. One that fits is kept, with padding behind it; one that does
/// not is cut, and its last place is the end-of-text id.
pub proof fn law_clip_rows_fit_the_encoder(ids: Seq<u32>, pad: u32, eos: u32, i: int)
    requires
        0 <= i < 77,
    ensures
        fitted(ids, pad, eos).len() == 77,
        ids.len() <= 77 && i < ids.len() ==> fitted(ids, pad, eos)[i] == ids[i],
        ids.len() <= i ==> fitted(ids, pad, eos)[i] == pad,
        ids.len() > 77 && i < 76 ==> fitted(ids, pad, eos)[i] == ids[i],
        ids.len() > 77 ==> fitted(ids, pad, eos)[76] == eos,
{
}

/// A CLIP row is padded with the end-of-text id, and pooled at the last place of its largest id.
pub proof fn law_clip_rows_are_pooled_at_their_end(
    row: Seq<u32>,
    at: int,
    ids: Seq<u32>,
    eos: u32,
    i: int,
)
    requires
        is_clip_row(row, at, ids, eos),
        0 <= i < 77,
    ensures
        row.len() == 77 && 0 <= at < 77,
        row[i] <= row[at],
        i > at ==> row[i] < row[at],
        ids.len() <= i ==> row[i] == eos,
        i < ids.len() <= 77 ==> row[i] == ids[i],
{
}

/// The rows of a prompt are each encoder's own, in its own vocabulary and at its own length.
pub proof fn law_prompt_rows_are_their_encoders(
    p: PromptRows,
    vocab_l: Map<Seq<char>, u32>,
    vocab_g: Map<Seq<char>, u32>,
    t5_len: usize,
    ids: (Option<Seq<u32>>, Option<Seq<u32>>, Option<Seq<u32>>),
)
    requires
        are_prompt_rows(Ok(p), vocab_l, vocab_g, t5_len, ids),
    ensures
        ids.0 matches Some(s) && is_clip_row(
            p.clip_l@,
            p.clip_l_eos as int,
            s,
            vocab_l["<|endoftext|>"@],
        ),
        ids.1 matches Some(s) && is_clip_row(
            p.clip_g@,
            p.clip_g_eos as int,
            s,
            vocab_g["<|endoftext|>"@],
        ),
        ids.2 matches Some(s) && p.t5.len() == t5_len && forall|i: int|
            0 <= i < t5_len ==> #[trigger] p.t5[i] == if i < s.len() {
                s[i]
            } else {
                0
            },
{
}

/// A CLIP row is made of every prompt that has an encoding, where the vocabulary has the token that rows
/// end in; the missing token is what is complained of first.
pub proof fn law_clip_rows_are_made_of_every_encoding(
    r: Result<(Vec<u32>, usize), Error>,
    vocab: Map<Seq<char>, u32>,
    ids: Option<Seq<u32>>,
)
    requires
        is_clip_result(r, vocab, ids),
    ensures
        r is Ok <==> vocab.contains_key("<|endoftext|>"@) && ids is Some,
        r matches Ok(row) ==> is_clip_row(row.0@, row.1 as int, ids->0, vocab["<|endoftext|>"@]),
        r matches Err(e) ==> {
            &&& !vocab.contains_key("<|endoftext|>"@) ==> e.says(
                "sd3: CLIP tokenizer missing <|endoftext|>"@,
            )
            &&& vocab.contains_key("<|endoftext|>"@) ==> exists|reason: Seq<char>|
                e.says(#[trigger] clip_failure(reason))
        },
{
}

/// A T5 row is made of every encoding: as long as configured, whatever the encoding's length, which is
/// kept from its start and filled up with the pad.
pub proof fn law_t5_rows_are_made_of_every_encoding(
    r: Result<Vec<u32>, Error>,
    len: usize,
    ids: Option<Seq<u32>>,
    i: int,
)
    requires
        is_t5_result(r, len, ids),
        0 <= i < len,
    ensures
        r is Ok <==> ids is Some,
        r matches Ok(row) ==> row.len() == len && row[i] == (if i < (ids->0).len() {
            (ids->0)[i]
        } else {
            T5_PAD_TOKEN_ID
        }),
        r matches Err(e) ==> exists|reason: Seq<char>| e.says(#[trigger] t5_failure(reason)),
{
}

/// A weight file is named by something before its extension.
pub proof fn law_weight_files_have_their_extension(stem: Seq<char>, names: Seq<Seq<char>>, i: int)
    ensures
        is_weight_file(stem + ".safetensors"@) <==> stem.len() > 0,
        is_weight_file(stem) ==> exists|s: Seq<char>|
            s.len() > 0 && stem == #[trigger] (s + ".safetensors"@),
        0 <= i < names.len() && is_weight_file(names[i]) ==> weight_files(names).contains(names[i]),
        0 <= i < weight_files(names).len() ==> is_weight_file(weight_files(names)[i]),
{
    crate::text::law_affixes_come_off(stem, ".safetensors"@);
    let keep = |n: Seq<char>| is_weight_file(n);
    names.filter_lemma(keep);
    if is_weight_file(stem) {
        let s = crate::text::without_suffix(stem, ".safetensors"@)->0;
        assert(stem == s + ".safetensors"@);
    }
    if 0 <= i < names.len() && is_weight_file(names[i]) {
        assert(keep(names[i]));
    }
    if 0 <= i < weight_files(names).len() {
        assert(keep(weight_files(names)[i]));
    }
}

/// Each tokenizer encodes the same prompt, with its special tokens; so where none leaves anything to
/// chance, there is one way for it.
pub proof fn law_prompts_are_encoded_with_their_ends(
    l: Seq<u8>,
    g: Seq<u8>,
    t5: Seq<u8>,
    prompt: Seq<char>,
    ids: (Option<Seq<u32>>, Option<Seq<u32>>, Option<Seq<u32>>),
)
    requires
        may_encode_all(l, g, t5, prompt, ids),
    ensures
        crate::tokenizer::is_steady(l) ==> ids.0 == encoded(l, prompt, true),
        crate::tokenizer::is_steady(g) ==> ids.1 == encoded(g, prompt, true),
        crate::tokenizer::is_steady(t5) ==> ids.2 == encoded(t5, prompt, true),
{
}

/// In a sorted list an earlier name is the same as a later one, or comes before it.
pub proof fn law_sorted_names_come_in_order(names: Seq<Seq<char>>, i: int, j: int)
    requires
        sorted(names),
        0 <= i < j < names.len(),
    ensures
        names[i] == names[j] || precedes(names[i], names[j]),
{
    crate::text::lemma_precedes_total(names[i], names[j]);
    assert(!precedes(names[j], names[i]));
}

} // verus!
