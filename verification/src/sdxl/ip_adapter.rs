//! Image-prompt conditioning: the resampler that turns image features into tokens, the decoupled
//! attention projections, and how a reference image is cropped.
use super::conditioning::texts_of;
use super::weights::{push_key, Weights};
use crate::error::Error;
use crate::image::Image;
use crate::text::{
    decimal, decimal_of, join, parse_up_to, parsed, strip_prefix, strip_suffix, views,
    without_prefix, without_suffix,
};
use vstd::prelude::*;
use vstd::string::*;

verus! {

/// The geometry of a resampler.
#[derive(Clone, Copy, Debug, PartialEq, Eq, Structural)]
pub struct ResamplerConfig {
    /// The working width, and that of the learned queries.
    pub dim: usize,
    pub depth: usize,
    pub heads: usize,
    pub dim_head: usize,
    /// The tokens it makes.
    pub num_queries: usize,
    /// The width of the image features.
    pub embed_dim: usize,
    /// The width of the tokens.
    pub output_dim: usize,
}

impl ResamplerConfig {
    /// The SDXL resampler over ViT-H features.
    pub fn plus_sdxl_vit_h() -> (r: Self)
        ensures
            r == (ResamplerConfig {
                dim: 1280,
                depth: 4,
                heads: 20,
                dim_head: 64,
                num_queries: 16,
                embed_dim: 1280,
                output_dim: 2048,
            }),
    {
        ResamplerConfig {
            dim: 1280,
            depth: 4,
            heads: 20,
            dim_head: 64,
            num_queries: 16,
            embed_dim: 1280,
            output_dim: 2048,
        }
    }

    /// The Kolors resampler over ViT-L features.
    pub fn kolors_plus() -> (r: Self)
        ensures
            r == (ResamplerConfig {
                dim: 2048,
                depth: 4,
                heads: 12,
                dim_head: 64,
                num_queries: 16,
                embed_dim: 1024,
                output_dim: 2048,
            }),
    {
        ResamplerConfig {
            dim: 2048,
            depth: 4,
            heads: 12,
            dim_head: 64,
            num_queries: 16,
            embed_dim: 1024,
            output_dim: 2048,
        }
    }

    /// The InstantID resampler: that of SDXL, over a single face embedding of 512.
    pub fn instantid_face() -> (r: Self)
        ensures
            r == (ResamplerConfig {
                dim: 1280,
                depth: 4,
                heads: 20,
                dim_head: 64,
                num_queries: 16,
                embed_dim: 512,
                output_dim: 2048,
            }),
    {
        ResamplerConfig {
            dim: 1280,
            depth: 4,
            heads: 20,
            dim_head: 64,
            num_queries: 16,
            embed_dim: 512,
            output_dim: 2048,
        }
    }

    /// The two halves of a fused key and value projection.
    pub fn kv_halves(&self) -> (r: ((usize, usize), (usize, usize)))
        requires
            2 * (self.heads * self.dim_head) <= usize::MAX,
        ensures
            ({
                let inner = (self.heads * self.dim_head) as usize;
                r == ((0usize, inner), (inner, inner))
            }),
            r.0.0 == 0 && r.1.0 == r.0.1 && r.1.1 == r.0.1,
            r.0.1 == self.heads * self.dim_head,
    {
        let inner: usize = self.heads * self.dim_head;
        ((0, inner), (inner, inner))
    }
}

/// The tensors of block `i`: its attention, then its feed-forward, in the order they are read.
pub open spec fn block_keys(prefix: Seq<char>, i: nat) -> Seq<Seq<char>> {
    let p = prefix + ".layers."@ + decimal(i);
    seq![
        p + ".0.norm1.weight"@,
        p + ".0.norm1.bias"@,
        p + ".0.norm2.weight"@,
        p + ".0.norm2.bias"@,
        p + ".0.to_q.weight"@,
        p + ".0.to_kv.weight"@,
        p + ".0.to_out.weight"@,
        p + ".1.0.weight"@,
        p + ".1.0.bias"@,
        p + ".1.1.weight"@,
        p + ".1.3.weight"@,
    ]
}

/// The latents' tensor and those of the first `depth` blocks.
pub open spec fn blocks_keys(prefix: Seq<char>, depth: nat) -> Seq<Seq<char>>
    decreases depth,
{
    if depth == 0 {
        seq![prefix + ".latents"@]
    } else {
        blocks_keys(prefix, (depth - 1) as nat) + block_keys(prefix, (depth - 1) as nat)
    }
}

/// The tensors of a resampler, in the order they are read.
pub open spec fn keys_of(prefix: Seq<char>, depth: nat) -> Seq<Seq<char>> {
    blocks_keys(prefix, depth) + seq![
        prefix + ".proj_in.weight"@,
        prefix + ".proj_in.bias"@,
        prefix + ".proj_out.weight"@,
        prefix + ".proj_out.bias"@,
        prefix + ".norm_out.weight"@,
        prefix + ".norm_out.bias"@,
    ]
}

fn push_block_keys(keys: &mut Vec<String>, prefix: &str, i: usize)
    ensures
        views(final(keys)@) == views(old(keys)@) + block_keys(prefix@, i as nat),
{
    let ghost before = views(keys@);
    let mut p = join(prefix, ".layers.");
    p.append(decimal_of(i).as_str());
    let p = p.as_str();
    push_key(keys, p, ".0.norm1.weight");
    push_key(keys, p, ".0.norm1.bias");
    push_key(keys, p, ".0.norm2.weight");
    push_key(keys, p, ".0.norm2.bias");
    push_key(keys, p, ".0.to_q.weight");
    push_key(keys, p, ".0.to_kv.weight");
    push_key(keys, p, ".0.to_out.weight");
    push_key(keys, p, ".1.0.weight");
    push_key(keys, p, ".1.0.bias");
    push_key(keys, p, ".1.1.weight");
    push_key(keys, p, ".1.3.weight");
    proof {
        assert(views(keys@) =~= before + block_keys(prefix@, i as nat));
    }
}

/// The tensors of a resampler, in the order they are read.
pub fn resampler_keys(prefix: &str, depth: usize) -> (r: Vec<String>)
    ensures
        views(r@) == keys_of(prefix@, depth as nat),
{
    let mut keys: Vec<String> = Vec::new();
    proof {
        assert(views(keys@) =~= Seq::empty());
    }
    push_key(&mut keys, prefix, ".latents");
    proof {
        assert(views(keys@) =~= seq![prefix@ + ".latents"@]);
    }
    let mut i: usize = 0;
    while i < depth
        invariant
            i <= depth,
            views(keys@) == blocks_keys(prefix@, i as nat),
        decreases depth - i,
    {
        push_block_keys(&mut keys, prefix, i);
        i += 1;
    }
    let ghost before = views(keys@);
    push_key(&mut keys, prefix, ".proj_in.weight");
    push_key(&mut keys, prefix, ".proj_in.bias");
    push_key(&mut keys, prefix, ".proj_out.weight");
    push_key(&mut keys, prefix, ".proj_out.bias");
    push_key(&mut keys, prefix, ".norm_out.weight");
    push_key(&mut keys, prefix, ".norm_out.bias");
    proof {
        assert(views(keys@) =~= keys_of(prefix@, depth as nat));
    }
    keys
}

/// A shape in words.
pub open spec fn shape_text(dims: Seq<usize>, k: nat) -> Seq<char>
    decreases k,
{
    if k == 0 {
        "["@
    } else if k == 1 {
        "["@ + decimal(dims[0] as nat)
    } else {
        shape_text(dims, (k - 1) as nat) + ", "@ + decimal(dims[k - 1] as nat)
    }
}

fn shape_of(dims: &Vec<usize>) -> (r: String)
    ensures
        r@ == shape_text(dims@, dims.len() as nat) + "]"@,
{
    let mut s = String::from_str("[");
    let mut i: usize = 0;
    while i < dims.len()
        invariant
            i <= dims.len(),
            s@ == shape_text(dims@, i as nat),
        decreases dims.len() - i,
    {
        if i > 0 {
            s.append(", ");
        }
        s.append(decimal_of(dims[i]).as_str());
        i += 1;
    }
    s.append("]");
    s
}

/// A resampler, by the positions of its tensors in the checkpoint. The first is that of the latents.
#[derive(Clone, Debug)]
pub struct Resampler {
    pub tensors: Vec<usize>,
    pub latents: Vec<usize>,
    pub depth: usize,
    pub dim: usize,
    pub num_queries: usize,
    pub output_dim: usize,
}

/// A copy of a shape.
fn copied(v: &Vec<usize>) -> (r: Vec<usize>)
    ensures
        r@ == v@,
{
    let mut out: Vec<usize> = Vec::new();
    let mut i: usize = 0;
    while i < v.len()
        invariant
            i <= v.len(),
            out@ == v@.take(i as int),
        decreases v.len() - i,
    {
        out.push(v[i]);
        proof {
            assert(out@ =~= v@.take(i + 1));
        }
        i += 1;
    }
    proof {
        assert(v@.take(v.len() as int) =~= v@);
    }
    out
}

impl Resampler {
    /// The width of the tokens.
    pub fn output_dim(&self) -> (r: usize)
        ensures
            r == self.output_dim,
    {
        self.output_dim
    }

    /// The number of the tokens.
    pub fn num_queries(&self) -> (r: usize)
        ensures
            r == self.num_queries,
    {
        self.num_queries
    }

    /// Finds a resampler in a checkpoint; the first tensor that is missing is reported.
    pub fn from_weights(w: &Weights, prefix: &str, cfg: &ResamplerConfig) -> (r: Result<
        Self,
        Error,
    >)
        ensures
            match r {
                Ok(s) => {
                    &&& w.is_all(Ok(s.tensors), keys_of(prefix@, cfg.depth as nat))
                    &&& s.depth == cfg.depth && s.dim == cfg.dim && s.num_queries
                        == cfg.num_queries && s.output_dim == cfg.output_dim
                    &&& w.find(prefix@ + ".latents"@) matches Some(i) && s.latents@
                        == w.tensors[i].dims@
                },
                Err(e) => w.is_all(Err(e), keys_of(prefix@, cfg.depth as nat)),
            },
    {
        let keys = resampler_keys(prefix, cfg.depth);
        let tensors = match w.require_all(&keys) {
            Ok(v) => v,
            Err(e) => {
                return Err(e);
            },
        };
        proof {
            lemma_first_key(prefix@, cfg.depth as nat);
            let names = keys_of(prefix@, cfg.depth as nat);
            assert(w.find(names[0]) == Some(tensors[0] as int));
            lemma_found_is_inside(w, names[0]);
        }
        let latents = copied(&w.tensors[tensors[0]].dims);
        Ok(
            Resampler {
                tensors,
                latents,
                depth: cfg.depth,
                dim: cfg.dim,
                num_queries: cfg.num_queries,
                output_dim: cfg.output_dim,
            },
        )
    }

    /// The shape of the tokens of `batch` images. Latents of another shape than the geometry's are
    /// refused.
    pub fn forward(&self, batch: usize) -> (r: Result<(usize, usize, usize), Error>)
        ensures
            match r {
                Ok(shape) => self.latents@ == seq![1usize, self.num_queries, self.dim] && shape == (
                    batch,
                    self.num_queries,
                    self.output_dim,
                ),
                Err(e) => self.latents@ != seq![1usize, self.num_queries, self.dim] && e.says(
                    "resampler latents shape "@ + shape_text(
                        self.latents@,
                        self.latents.len() as nat,
                    ) + "]"@ + " != [1, "@ + decimal(self.num_queries as nat) + ", "@ + decimal(
                        self.dim as nat,
                    ) + "]"@,
                ),
            },
    {
        let l = &self.latents;
        if l.len() == 3 && l[0] == 1 && l[1] == self.num_queries && l[2] == self.dim {
            proof {
                assert(l@ =~= seq![1usize, self.num_queries, self.dim]);
            }
            return Ok((batch, self.num_queries, self.output_dim));
        }
        let mut s = join("resampler latents shape ", shape_of(l).as_str());
        s.append(" != [1, ");
        s.append(decimal_of(self.num_queries).as_str());
        s.append(", ");
        s.append(decimal_of(self.dim).as_str());
        s.append("]");
        proof {
            let want = seq![1usize, self.num_queries, self.dim];
            if l@ == want {
                assert(l@[0] == want[0] && l@[1] == want[1] && l@[2] == want[2]);
            }
            let a = "resampler latents shape "@;
            let t = shape_text(l@, l.len() as nat);
            assert(a + (t + "]"@) =~= a + t + "]"@);
        }
        Err(Error::Msg(s))
    }
}

proof fn lemma_first_key(prefix: Seq<char>, depth: nat)
    ensures
        keys_of(prefix, depth).len() > 0,
        keys_of(prefix, depth)[0] == prefix + ".latents"@,
        blocks_keys(prefix, depth).len() > 0,
        blocks_keys(prefix, depth)[0] == prefix + ".latents"@,
    decreases depth,
{
    if depth > 0 {
        lemma_first_key(prefix, (depth - 1) as nat);
    }
}

/// A tensor that is found is one of the checkpoint's.
proof fn lemma_found_is_inside(w: &Weights, key: Seq<char>)
    ensures
        w.find(key) matches Some(i) ==> 0 <= i < w.tensors.len(),
{
    let e = crate::adapter::entries(w.tensors@);
    if w.find(key) is Some {
        let i = choose|i: int| crate::adapter::is_first(e, key, i);
        crate::adapter::lemma_position(e, key, i);
    }
}

/// The index of a key projection's tensor.
pub open spec fn kv_index(name: Seq<char>) -> Option<nat> {
    match without_prefix(name, "ip_adapter."@) {
        Some(rest) => match without_suffix(rest, ".to_k_ip.weight"@) {
            Some(n) => parsed(n, u32::MAX as nat),
            None => None,
        },
        None => None,
    }
}

/// The indices of the key projections among the first `k` tensors.
pub open spec fn kv_indices(w: &Weights, k: nat) -> Seq<u32>
    decreases k,
{
    if k == 0 {
        Seq::empty()
    } else {
        let before = kv_indices(w, (k - 1) as nat);
        match kv_index(w.tensors[k - 1].name@) {
            Some(n) => before.push(n as u32),
            None => before,
        }
    }
}

/// `order` is `s`, sorted.
pub open spec fn is_sorting(order: Seq<u32>, s: Seq<u32>) -> bool {
    &&& order.to_multiset() == s.to_multiset()
    &&& forall|i: int, j: int| 0 <= i < j < order.len() ==> order[i] <= order[j]
}

pub open spec fn k_key(n: nat) -> Seq<char> {
    "ip_adapter."@ + decimal(n) + ".to_k_ip.weight"@
}

pub open spec fn v_key(n: nat) -> Seq<char> {
    "ip_adapter."@ + decimal(n) + ".to_v_ip.weight"@
}

/// What requiring the pairs of `order` one after the other gives: their positions, or the first
/// tensor that is missing, of each pair the key's before the value's.
pub open spec fn is_pairs(
    w: &Weights,
    r: Result<Vec<(usize, usize)>, Error>,
    order: Seq<u32>,
) -> bool {
    match r {
        Ok(v) => v.len() == order.len() && forall|i: int|
            0 <= i < order.len() ==> w.find(k_key(#[trigger] order[i] as nat)) == Some(
                v[i].0 as int,
            ) && w.find(v_key(order[i] as nat)) == Some(v[i].1 as int),
        Err(e) => exists|i: int|
            {
                &&& 0 <= i < order.len()
                &&& pair_is_missing(w, #[trigger] order[i], e)
                &&& forall|j: int|
                    0 <= j < i ==> w.find(k_key(#[trigger] order[j] as nat)) is Some && w.find(
                        v_key(order[j] as nat),
                    ) is Some
            },
    }
}

/// A pair is not whole, and the error names its first missing tensor.
pub open spec fn pair_is_missing(w: &Weights, n: u32, e: Error) -> bool {
    if w.find(k_key(n as nat)) is None {
        e.says("missing tensor: "@ + k_key(n as nat))
    } else {
        w.find(v_key(n as nat)) is None && e.says("missing tensor: "@ + v_key(n as nat))
    }
}

fn kv_index_of(name: &str) -> (r: Option<u32>)
    ensures
        match r {
            Some(n) => kv_index(name@) == Some(n as nat),
            None => kv_index(name@) is None,
        },
{
    let rest = match strip_prefix(name, "ip_adapter.") {
        Some(s) => s,
        None => {
            return None;
        },
    };
    let n = match strip_suffix(rest, ".to_k_ip.weight") {
        Some(s) => s,
        None => {
            return None;
        },
    };
    match parse_up_to(n, 0xffff_ffff) {
        Some(n) => Some(n as u32),
        None => None,
    }
}

/// Puts `n` in its place in sorted `v`.
fn insert_sorted(v: &mut Vec<u32>, n: u32)
    requires
        forall|i: int, j: int| 0 <= i < j < old(v).len() ==> old(v)[i] <= old(v)[j],
    ensures
        is_sorting(final(v)@, old(v)@.push(n)),
        final(v).len() == old(v).len() + 1,
{
    let ghost before = v@;
    let mut i: usize = 0;
    while i < v.len() && v[i] <= n
        invariant
            i <= v.len(),
            v@ == before,
            forall|k: int| 0 <= k < i ==> #[trigger] before[k] <= n,
        decreases v.len() - i,
    {
        i += 1;
    }
    let ghost at = i as int;
    v.insert(i, n);
    proof {
        assert(v@ =~= before.insert(at, n));
        vstd::seq_lib::to_multiset_insert(before, at, n);
        before.to_multiset_ensures();
        assert forall|a: int, b: int| 0 <= a < b < v.len() implies v@[a] <= v@[b] by {
            let pa = if a < at {
                a
            } else {
                a - 1
            };
            let pb = if b < at {
                b
            } else {
                b - 1
            };
            if a != at {
                assert(v@[a] == before[pa]);
            }
            if b != at {
                assert(v@[b] == before[pb]);
            }
        }
    }
}

fn pair_key(n: u32, suffix: &str) -> (r: String)
    ensures
        r@ == "ip_adapter."@ + decimal(n as nat) + suffix@,
{
    let mut s = join("ip_adapter.", decimal_of(n as usize).as_str());
    s.append(suffix);
    s
}

/// The decoupled attention projections of a checkpoint, key and value, in the numeric order of their
/// indices: the order in which the UNet takes them.
pub fn load_ip_kv_pairs(w: &Weights) -> (r: Result<Vec<(usize, usize)>, Error>)
    ensures
        ({
            let all = kv_indices(w, w.tensors.len() as nat);
            if all.len() == 0 {
                r matches Err(e) && e.says(
                    "ip_adapter: no ip_adapter.{n}.to_k_ip.weight keys found"@,
                )
            } else {
                exists|order: Seq<u32>| #[trigger] is_sorting(order, all) && is_pairs(w, r, order)
            }
        }),
{
    let mut order: Vec<u32> = Vec::new();
    let mut i: usize = 0;
    while i < w.tensors.len()
        invariant
            i <= w.tensors.len(),
            is_sorting(order@, kv_indices(w, i as nat)),
            order.len() == kv_indices(w, i as nat).len(),
        decreases w.tensors.len() - i,
    {
        let ghost before = kv_indices(w, i as nat);
        match kv_index_of(w.tensors[i].name.as_str()) {
            Some(n) => {
                let ghost sorted = order@;
                insert_sorted(&mut order, n);
                proof {
                    sorted.to_multiset_ensures();
                    before.to_multiset_ensures();
                }
            },
            None => {},
        }
        i += 1;
    }
    if order.len() == 0 {
        return Err(
            Error::Msg(
                String::from_str("ip_adapter: no ip_adapter.{n}.to_k_ip.weight keys found"),
            ),
        );
    }
    let ghost all = kv_indices(w, w.tensors.len() as nat);
    let mut out: Vec<(usize, usize)> = Vec::new();
    let mut k: usize = 0;
    while k < order.len()
        invariant
            k <= order.len(),
            out.len() == k,
            all == kv_indices(w, w.tensors.len() as nat),
            all.len() > 0,
            is_sorting(order@, all),
            forall|j: int|
                0 <= j < k ==> w.find(k_key(#[trigger] order[j] as nat)) == Some(out[j].0 as int)
                    && w.find(v_key(order[j] as nat)) == Some(out[j].1 as int),
        decreases order.len() - k,
    {
        let n: u32 = order[k];
        let key = pair_key(n, ".to_k_ip.weight");
        let value = pair_key(n, ".to_v_ip.weight");
        let ghost good = forall|j: int|
            0 <= j < k ==> w.find(k_key(#[trigger] order@[j] as nat)) is Some && w.find(
                v_key(order@[j] as nat),
            ) is Some;
        let a: usize = match w.require(key.as_str()) {
            Ok(a) => a,
            Err(e) => {
                proof {
                    assert(good);
                    assert(pair_is_missing(w, order@[k as int], e));
                    assert(is_pairs(w, Err(e), order@));
                }
                return Err(e);
            },
        };
        let b: usize = match w.require(value.as_str()) {
            Ok(b) => b,
            Err(e) => {
                proof {
                    assert(good);
                    assert(pair_is_missing(w, order@[k as int], e));
                    assert(is_pairs(w, Err(e), order@));
                }
                return Err(e);
            },
        };
        out.push((a, b));
        k += 1;
    }
    proof {
        assert(is_pairs(w, Ok(out), order@));
    }
    Ok(out)
}

/// Refuses a reference image whose buffer does not fit its size, or that has no pixels.
pub fn check_reference(image: &Image) -> (r: Result<(), Error>)
    ensures
        match r {
            Ok(_) => image.fits() && image.width > 0 && image.height > 0,
            Err(e) => if !image.fits() {
                e.says(crate::image::buffer_text("ip-adapter image buffer"@, image))
            } else {
                (image.width == 0 || image.height == 0) && e.says(
                    "ip-adapter reference image has a zero dimension ("@ + decimal(
                        image.width as nat,
                    ) + "x"@ + decimal(image.height as nat) + ")"@,
                )
            },
        },
{
    match crate::image::check_buffer("ip-adapter image buffer", image) {
        Ok(_) => {},
        Err(e) => {
            return Err(e);
        },
    }
    if image.width == 0 || image.height == 0 {
        let mut s = join(
            "ip-adapter reference image has a zero dimension (",
            decimal_of(image.width as usize).as_str(),
        );
        s.append("x");
        s.append(decimal_of(image.height as usize).as_str());
        s.append(")");
        return Err(Error::Msg(s));
    }
    Ok(())
}

/// The resized element that place `k` of the centre crop comes from: planes of `size` by `size`, of
/// an image of `rh` by `rw` with interleaved channels.
pub open spec fn crop_source(k: int, size: int, rh: int, rw: int) -> int {
    let c = k / (size * size);
    let y = (k / size) % size;
    let x = k % size;
    (((rh - size) / 2 + y) * rw + (rw - size) / 2 + x) * 3 + c
}

proof fn lemma_crop(k: int, size: int, rh: int, rw: int)
    requires
        0 < size <= rh,
        size <= rw,
        0 <= k < 3 * (size * size),
    ensures
        ({
            let row = (rh - size) / 2 + (k / size) % size;
            let column = (rw - size) / 2 + k % size;
            &&& 0 <= k / (size * size) < 3
            &&& 0 <= (k / size) % size < size && 0 <= k % size < size
            &&& 0 <= row < rh && 0 <= column < rw
            &&& 0 <= row * rw <= row * rw + column < rh * rw
            &&& 0 <= crop_source(k, size, rh, rw) < rh * rw * 3
        }),
{
    let area = size * size;
    assert(area > 0) by (nonlinear_arith)
        requires
            area == size * size,
            size > 0,
    ;
    vstd::arithmetic::div_mod::lemma_fundamental_div_mod(k, area);
    vstd::arithmetic::div_mod::lemma_div_pos_is_pos(k, area);
    let c = k / area;
    assert(c < 3) by (nonlinear_arith)
        requires
            area * c <= k,
            k < 3 * area,
            area > 0,
    ;
    vstd::arithmetic::div_mod::lemma_mod_bound(k / size, size);
    vstd::arithmetic::div_mod::lemma_mod_bound(k, size);
    let row = (rh - size) / 2 + (k / size) % size;
    let column = (rw - size) / 2 + k % size;
    assert(0 <= row < rh && 0 <= column < rw);
    assert(row * rw + rw <= rh * rw) by (nonlinear_arith)
        requires
            row + 1 <= rh,
            rw >= 0,
    ;
    assert(row * rw >= 0) by (nonlinear_arith)
        requires
            row >= 0,
            rw >= 0,
    ;
}

/// Crops the centre of a resized image with interleaved channels, and lays it out in planes.
pub fn crop_planes<T: Copy>(resized: &Vec<T>, rh: usize, rw: usize, size: usize) -> (r: Vec<T>)
    requires
        0 < size <= rh,
        size <= rw,
        resized.len() == rh * rw * 3,
    ensures
        r@ == Seq::new(
            (3 * (size * size)) as nat,
            |k: int| resized[crop_source(k, size as int, rh as int, rw as int)],
        ),
{
    proof {
        assert(size * size <= rh * rw && 0 < size * size) by (nonlinear_arith)
            requires
                0 < size <= rh,
                size <= rw,
        ;
    }
    let area: usize = size * size;
    let n: usize = 3 * area;
    let top: usize = (rh - size) / 2;
    let left: usize = (rw - size) / 2;
    let mut out: Vec<T> = Vec::new();
    let mut k: usize = 0;
    while k < n
        invariant
            k <= n,
            n == 3 * (size * size),
            area == size * size,
            0 < size <= rh,
            size <= rw,
            0 < area,
            top == (rh - size) / 2,
            left == (rw - size) / 2,
            resized.len() == rh * rw * 3,
            out@ == Seq::new(
                k as nat,
                |k: int| resized[crop_source(k, size as int, rh as int, rw as int)],
            ),
        decreases n - k,
    {
        proof {
            lemma_crop(k as int, size as int, rh as int, rw as int);
        }
        let c: usize = k / area;
        let y: usize = (k / size) % size;
        let x: usize = k % size;
        out.push(resized[((top + y) * rw + left + x) * 3 + c]);
        k += 1;
    }
    out
}

/// The rows of the image tokens.
#[derive(Clone, Copy, Debug, PartialEq, Eq, Structural)]
pub enum TokenRow {
    /// Zeros in place of the tokens.
    Zeros,
    /// The tokens of the reference image.
    Reference,
}

/// The rows of the image tokens of a run.
pub open spec fn image_rows(cfg_on: bool) -> Seq<TokenRow> {
    if cfg_on {
        seq![TokenRow::Zeros, TokenRow::Reference]
    } else {
        seq![TokenRow::Reference]
    }
}

/// The rows of the image tokens of a run: with guidance the zero row comes first.
pub fn ip_tokens(cfg_on: bool) -> (r: Vec<TokenRow>)
    ensures
        r@ == image_rows(cfg_on),
{
    let v: Vec<TokenRow> = if cfg_on {
        vec![TokenRow::Zeros, TokenRow::Reference]
    } else {
        vec![TokenRow::Reference]
    };
    proof {
        assert(v@ =~= image_rows(cfg_on));
    }
    v
}

/// Of a checkpoint whose pairs are all there, the pairs come in the numeric order of their indices.
pub proof fn law_pairs_are_in_numeric_order(
    w: &Weights,
    pairs: Vec<(usize, usize)>,
    order: Seq<u32>,
    i: int,
    j: int,
)
    requires
        is_sorting(order, kv_indices(w, w.tensors.len() as nat)),
        is_pairs(w, Ok(pairs), order),
        0 <= i < j < pairs.len(),
    ensures
        order[i] <= order[j],
        w.find(k_key(order[i] as nat)) == Some(pairs[i].0 as int),
        w.find(k_key(order[j] as nat)) == Some(pairs[j].0 as int),
{
}

/// The image tokens are rowed like the texts: one row for each of the texts of a run, the reference's
/// last, and before it, where there is guidance, a row of zeros.
pub proof fn law_image_rows_go_with_the_texts(
    prompt: Seq<char>,
    negative: Seq<char>,
    cfg_on: bool,
)
    ensures
        image_rows(cfg_on).len() == texts_of(prompt, negative, cfg_on).len(),
        image_rows(cfg_on).last() == TokenRow::Reference,
        cfg_on ==> image_rows(cfg_on).first() == TokenRow::Zeros,
{
}

/// A crop keeps the middle of the image: place `(y, x)` of plane `c` is channel `c` of the pixel as many
/// rows and columns further on as are cut off above and to the left, which is as much as is cut off
/// below and to the right, or one less.
pub proof fn law_crop_keeps_the_middle(
    size: int,
    rh: int,
    rw: int,
    top: int,
    left: int,
    c: int,
    y: int,
    x: int,
)
    requires
        0 < size <= rh,
        size <= rw,
        0 <= c < 3,
        0 <= y < size,
        0 <= x < size,
        top <= rh - size - top <= top + 1,
        left <= rw - size - left <= left + 1,
    ensures
        crop_source((c * size + y) * size + x, size, rh, rw) == ((top + y) * rw + (left + x)) * 3 + c,
{
    let k = (c * size + y) * size + x;
    vstd::arithmetic::div_mod::lemma_fundamental_div_mod_converse(k, size, c * size + y, x);
    vstd::arithmetic::div_mod::lemma_fundamental_div_mod_converse(c * size + y, size, c, y);
    let area = size * size;
    assert(k == c * area + (y * size + x)) by (nonlinear_arith)
        requires
            k == (c * size + y) * size + x,
            area == size * size,
    ;
    assert(0 <= y * size + x < area) by (nonlinear_arith)
        requires
            0 <= y < size,
            0 <= x < size,
            area == size * size,
    ;
    vstd::arithmetic::div_mod::lemma_fundamental_div_mod_converse(k, area, c, y * size + x);
}

/// A pair is the key and the value projection of one index, by their names in the checkpoint.
pub proof fn law_pairs_are_key_and_value(
    w: &Weights,
    pairs: Vec<(usize, usize)>,
    order: Seq<u32>,
    i: int,
)
    requires
        is_pairs(w, Ok(pairs), order),
        0 <= i < pairs.len(),
    ensures
        ({
            let n = decimal(order[i] as nat);
            let (k, v) = (pairs[i].0 as int, pairs[i].1 as int);
            &&& 0 <= k < w.tensors.len() && w.tensors[k].name@ == "ip_adapter."@ + n
                + ".to_k_ip.weight"@
            &&& 0 <= v < w.tensors.len() && w.tensors[v].name@ == "ip_adapter."@ + n
                + ".to_v_ip.weight"@
        }),
{
    let e = crate::adapter::entries(w.tensors@);
    assert(w.find(k_key(order[i] as nat)) == Some(pairs[i].0 as int));
    let (a, b) = (k_key(order[i] as nat), v_key(order[i] as nat));
    lemma_found_is_inside(w, a);
    lemma_found_is_inside(w, b);
    let x = choose|x: int| crate::adapter::is_first(e, a, x);
    crate::adapter::lemma_position(e, a, x);
    let y = choose|y: int| crate::adapter::is_first(e, b, y);
    crate::adapter::lemma_position(e, b, y);
}

/// The index of a key projection is the number in its name, and no other tensor has one.
pub proof fn law_pair_indices_are_read_back(n: nat, name: Seq<char>)
    requires
        n <= u32::MAX,
    ensures
        kv_index(k_key(n)) == Some(n),
        kv_index(name) is Some ==> exists|digits: Seq<char>|
            name == "ip_adapter."@ + #[trigger] (digits + ".to_k_ip.weight"@),
{
    let (p, s) = ("ip_adapter."@, ".to_k_ip.weight"@);
    let d = decimal(n);
    let key = k_key(n);
    assert(key =~= p + (d + s));
    assert(key.take(p.len() as int) =~= p);
    assert(key.skip(p.len() as int) =~= d + s);
    let rest = d + s;
    assert(rest.skip(rest.len() - s.len()) =~= s);
    assert(rest.take(rest.len() - s.len()) =~= d);
    crate::text::law_decimal_parses_back(n, u32::MAX as nat);
    if kv_index(name) is Some {
        let rest = without_prefix(name, p)->0;
        let digits = without_suffix(rest, s)->0;
        assert(rest =~= digits + s);
        assert(name =~= p + (digits + s));
    }
}

/// A resampler is read block by block: behind its latents come the eleven tensors of each block, by the
/// block's number, and behind those the six of its ends.
pub proof fn law_resampler_keys_are_in_place(prefix: Seq<char>, depth: nat, i: nat, j: int)
    requires
        i < depth,
        0 <= j < 11,
    ensures
        keys_of(prefix, depth).len() == 11 * depth + 7,
        keys_of(prefix, depth)[0] == prefix + ".latents"@,
        keys_of(prefix, depth)[1 + 11 * i + j] == block_keys(prefix, i)[j],
        block_keys(prefix, i)[4] == prefix + ".layers."@ + decimal(i) + ".0.to_q.weight"@,
        block_keys(prefix, i)[5] == prefix + ".layers."@ + decimal(i) + ".0.to_kv.weight"@,
        block_keys(prefix, i)[6] == prefix + ".layers."@ + decimal(i) + ".0.to_out.weight"@,
        keys_of(prefix, depth)[(11 * depth + 1) as int] == prefix + ".proj_in.weight"@,
        keys_of(prefix, depth)[(11 * depth + 3) as int] == prefix + ".proj_out.weight"@,
        keys_of(prefix, depth)[(11 * depth + 5) as int] == prefix + ".norm_out.weight"@,
        keys_of(prefix, depth)[(11 * depth + 2) as int] == prefix + ".proj_in.bias"@,
        keys_of(prefix, depth)[(11 * depth + 4) as int] == prefix + ".proj_out.bias"@,
        keys_of(prefix, depth)[(11 * depth + 6) as int] == prefix + ".norm_out.bias"@,
{
    lemma_first_key(prefix, depth);
    lemma_block_keys_at(prefix, depth, i, j);
}

proof fn lemma_block_keys_at(prefix: Seq<char>, depth: nat, i: nat, j: int)
    requires
        i < depth,
        0 <= j < 11,
    ensures
        blocks_keys(prefix, depth).len() == 11 * depth + 1,
        blocks_keys(prefix, depth)[1 + 11 * i + j] == block_keys(prefix, i)[j],
    decreases depth,
{
    lemma_blocks_len(prefix, (depth - 1) as nat);
    if i < depth - 1 {
        lemma_block_keys_at(prefix, (depth - 1) as nat, i, j);
    }
}

proof fn lemma_blocks_len(prefix: Seq<char>, depth: nat)
    ensures
        blocks_keys(prefix, depth).len() == 11 * depth + 1,
    decreases depth,
{
    if depth > 0 {
        lemma_blocks_len(prefix, (depth - 1) as nat);
    }
}

/// A sorting is of the same indices, all of them, in order.
pub proof fn law_sorting_keeps_every_index(order: Seq<u32>, s: Seq<u32>, i: int, j: int)
    requires
        is_sorting(order, s),
    ensures
        order.len() == s.len(),
        0 <= i < s.len() ==> order.contains(s[i]),
        0 <= i < order.len() ==> s.contains(order[i]),
        0 <= i < j < order.len() ==> order[i] <= order[j],
{
    order.to_multiset_ensures();
    s.to_multiset_ensures();
    if 0 <= i < s.len() {
        assert(s.contains(s[i]));
        assert(order.to_multiset().count(s[i]) > 0);
    }
    if 0 <= i < order.len() {
        assert(order.contains(order[i]));
        assert(s.to_multiset().count(order[i]) > 0);
    }
}

/// Every key projection of a checkpoint is indexed, and nothing else is.
pub proof fn law_every_key_projection_is_indexed(w: &Weights, k: nat, n: u32)
    requires
        k <= w.tensors.len(),
    ensures
        kv_indices(w, k).contains(n) <==> exists|i: int|
            0 <= i < k && kv_index((#[trigger] w.tensors[i]).name@) == Some(n as nat),
        k > 0 ==> kv_indices(w, k).len() - kv_indices(w, (k - 1) as nat).len() == if kv_index(
            w.tensors[k - 1].name@,
        ) is Some {
            1int
        } else {
            0int
        },
        kv_indices(w, 0).len() == 0,
    decreases k,
{
    if k > 0 {
        let before = kv_indices(w, (k - 1) as nat);
        law_every_key_projection_is_indexed(w, (k - 1) as nat, n);
        let last = w.tensors[k - 1].name@;
        let all = kv_indices(w, k);
        if kv_index(last) is Some {
            let x = (kv_index(last)->0) as u32;
            assert(all == before.push(x));
            assert(all[before.len() as int] == x);
            if before.contains(n) {
                let j = choose|j: int| 0 <= j < before.len() && before[j] == n;
                assert(all[j] == n);
            }
            if all.contains(n) && n != x {
                let j = choose|j: int| 0 <= j < all.len() && all[j] == n;
                assert(before[j] == n);
            }
        }
        if exists|i: int| 0 <= i < k && kv_index((#[trigger] w.tensors[i]).name@) == Some(n as nat) {
            let i = choose|i: int|
                0 <= i < k && kv_index((#[trigger] w.tensors[i]).name@) == Some(n as nat);
            if i < k - 1 {
                assert(before.contains(n));
            }
        }
        if before.contains(n) {
            let i = choose|i: int|
                0 <= i < k - 1 && kv_index((#[trigger] w.tensors[i]).name@) == Some(n as nat);
            assert(0 <= i < k && kv_index(w.tensors[i].name@) == Some(n as nat));
        }
    }
}

/// A pair that is not whole is reported by the tensor that it lacks: the key's, where it lacks both.
pub proof fn law_broken_pairs_are_named(w: &Weights, n: u32, e: Error)
    requires
        pair_is_missing(w, n, e),
    ensures
        w.find(k_key(n as nat)) is None || w.find(v_key(n as nat)) is None,
        w.find(k_key(n as nat)) is None ==> e.says("missing tensor: "@ + k_key(n as nat)),
        w.find(k_key(n as nat)) is Some ==> e.says("missing tensor: "@ + v_key(n as nat)),
{
}

} // verus!
