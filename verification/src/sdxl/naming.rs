//! Module names of SDXL adapters: the flattened form of the UNet's own names, and the original
//! Stable Diffusion block names that translate to it.
use crate::adapter::{table_path, KohyaTable};
use crate::text::{
    decimal, decimal_of, find, join, parse_up_to, parsed, same, strip_prefix, until, without_prefix,
};
use vstd::prelude::*;
use vstd::string::*;

verus! {

/// The number at the start of `s`, up to the first `_`, and what follows it.
pub open spec fn number_and_rest(s: Seq<char>) -> Option<(nat, Seq<char>)> {
    let sep = until(s, '_');
    if sep == s.len() {
        None
    } else {
        match parsed(s.take(sep), 0xffff) {
            Some(n) => Some((n, s.skip(sep + 1))),
            None => None,
        }
    }
}

fn split_number<'a>(s: &'a str) -> (r: Option<(usize, &'a str)>)
    ensures
        match r {
            Some((n, rest)) => number_and_rest(s@) == Some((n as nat, rest@)) && n <= 0xffff,
            None => number_and_rest(s@) is None,
        },
{
    let sep: usize = match find(s, '_') {
        Some(k) => k,
        None => {
            return None;
        },
    };
    let m: usize = s.unicode_len();
    proof {
        assert(s@.subrange(0, sep as int) =~= s@.take(sep as int));
        assert(s@.subrange(sep + 1, m as int) =~= s@.skip(sep + 1));
    }
    match parse_up_to(s.substring_char(0, sep), 0xffff) {
        Some(n) => Some((n as usize, s.substring_char(sep + 1, m))),
        None => None,
    }
}

/// The name of a resnet's layer, from its original one.
pub open spec fn resnet_layer(leaf: Seq<char>) -> Option<Seq<char>> {
    if leaf == "in_layers_0"@ {
        Some("norm1"@)
    } else if leaf == "in_layers_2"@ {
        Some("conv1"@)
    } else if leaf == "out_layers_0"@ {
        Some("norm2"@)
    } else if leaf == "out_layers_3"@ {
        Some("conv2"@)
    } else if leaf == "emb_layers_1"@ {
        Some("time_emb_proj"@)
    } else if leaf == "skip_connection"@ {
        Some("conv_shortcut"@)
    } else {
        None
    }
}

fn resnet_name(leaf: &str) -> (r: Option<&'static str>)
    ensures
        crate::text::opt_view(r) == resnet_layer(leaf@),
{
    if same(leaf, "in_layers_0") {
        Some("norm1")
    } else if same(leaf, "in_layers_2") {
        Some("conv1")
    } else if same(leaf, "out_layers_0") {
        Some("norm2")
    } else if same(leaf, "out_layers_3") {
        Some("conv2")
    } else if same(leaf, "emb_layers_1") {
        Some("time_emb_proj")
    } else if same(leaf, "skip_connection") {
        Some("conv_shortcut")
    } else {
        None
    }
}

/// `<side>_<level>_<kind>_<index>_<rest>`.
pub open spec fn block_name(
    side: Seq<char>,
    level: nat,
    kind: Seq<char>,
    index: nat,
    rest: Seq<char>,
) -> Seq<char> {
    side + decimal(level) + kind + decimal(index) + "_"@ + rest
}

fn make_block_name(side: &str, level: usize, kind: &str, index: usize, rest: &str) -> (r: String)
    ensures
        r@ == block_name(side@, level as nat, kind@, index as nat, rest@),
{
    let mut s = join(side, decimal_of(level).as_str());
    s.append(kind);
    s.append(decimal_of(index).as_str());
    s.append("_");
    s.append(rest);
    s
}

/// A resnet of a level, by its original layer name.
pub open spec fn resnet_of(side: Seq<char>, level: nat, index: nat, leaf: Seq<char>) -> Option<
    Seq<char>,
> {
    match resnet_layer(leaf) {
        Some(l) => Some(block_name(side, level, "_resnets_"@, index, l)),
        None => None,
    }
}

fn make_resnet(side: &str, level: usize, index: usize, leaf: &str) -> (r: Option<String>)
    ensures
        opt_string(r) == resnet_of(side@, level as nat, index as nat, leaf@),
{
    match resnet_name(leaf) {
        Some(l) => Some(make_block_name(side, level, "_resnets_", index, l)),
        None => None,
    }
}

pub open spec fn opt_string(o: Option<String>) -> Option<Seq<char>> {
    match o {
        Some(s) => Some(s@),
        None => None,
    }
}

/// Input block `n`, part `k`. Each level has two resnets, with a transformer after each, and then a
/// downsampler; input block 0 is the input convolution.
pub open spec fn input_block(n: nat, k: nat, rest: Seq<char>) -> Option<Seq<char>> {
    if n == 0 {
        None
    } else {
        let level = ((n - 1) / 3) as nat;
        let index = ((n - 1) % 3) as nat;
        if index < 2 {
            if k == 0 {
                resnet_of("down_blocks_"@, level, index, rest)
            } else if k == 1 {
                Some(block_name("down_blocks_"@, level, "_attentions_"@, index, rest))
            } else {
                None
            }
        } else if k == 0 && rest == "op"@ {
            Some(block_name("down_blocks_"@, level, "_downsamplers_"@, 0, "conv"@))
        } else {
            None
        }
    }
}

/// Output block `n`, part `k`. Each level has three resnets, with a transformer after each, and the
/// last is followed by an upsampler.
pub open spec fn output_block(n: nat, k: nat, rest: Seq<char>) -> Option<Seq<char>> {
    let level = n / 3;
    let index = n % 3;
    if k == 0 {
        resnet_of("up_blocks_"@, level, index, rest)
    } else if rest == "conv"@ {
        if index == 2 && k <= 2 {
            Some(block_name("up_blocks_"@, level, "_upsamplers_"@, 0, "conv"@))
        } else {
            None
        }
    } else if k == 1 {
        Some(block_name("up_blocks_"@, level, "_attentions_"@, index, rest))
    } else {
        None
    }
}

/// The middle block's part `k`: a resnet, the transformer, a resnet.
pub open spec fn middle_block(k: nat, rest: Seq<char>) -> Option<Seq<char>> {
    if k == 1 {
        Some("mid_block_attentions_0_"@ + rest)
    } else if k == 0 || k == 2 {
        match resnet_layer(rest) {
            Some(l) => Some("mid_block_resnets_"@ + decimal(k / 2) + "_"@ + l),
            None => None,
        }
    } else {
        None
    }
}

/// The flattened UNet name of an original Stable Diffusion name.
pub open spec fn translated(stem: Seq<char>) -> Option<Seq<char>> {
    if stem == "input_blocks_0_0"@ {
        Some("conv_in"@)
    } else if stem == "out_2"@ {
        Some("conv_out"@)
    } else if let Some(s) = without_prefix(stem, "input_blocks_"@) {
        match number_and_rest(s) {
            Some((n, t)) => match number_and_rest(t) {
                Some((k, rest)) => input_block(n, k, rest),
                None => None,
            },
            None => None,
        }
    } else if let Some(s) = without_prefix(stem, "output_blocks_"@) {
        match number_and_rest(s) {
            Some((n, t)) => match number_and_rest(t) {
                Some((k, rest)) => output_block(n, k, rest),
                None => None,
            },
            None => None,
        }
    } else if let Some(s) = without_prefix(stem, "middle_block_"@) {
        match number_and_rest(s) {
            Some((k, rest)) => middle_block(k, rest),
            None => None,
        }
    } else {
        None
    }
}

fn translate_input(n: usize, k: usize, rest: &str) -> (r: Option<String>)
    ensures
        opt_string(r) == input_block(n as nat, k as nat, rest@),
{
    if n == 0 {
        return None;
    }
    let level: usize = (n - 1) / 3;
    let index: usize = (n - 1) % 3;
    if index < 2 {
        if k == 0 {
            make_resnet("down_blocks_", level, index, rest)
        } else if k == 1 {
            Some(make_block_name("down_blocks_", level, "_attentions_", index, rest))
        } else {
            None
        }
    } else if k == 0 && same(rest, "op") {
        Some(make_block_name("down_blocks_", level, "_downsamplers_", 0, "conv"))
    } else {
        None
    }
}

fn translate_output(n: usize, k: usize, rest: &str) -> (r: Option<String>)
    ensures
        opt_string(r) == output_block(n as nat, k as nat, rest@),
{
    let level: usize = n / 3;
    let index: usize = n % 3;
    if k == 0 {
        make_resnet("up_blocks_", level, index, rest)
    } else if same(rest, "conv") {
        if index == 2 && k <= 2 {
            Some(make_block_name("up_blocks_", level, "_upsamplers_", 0, "conv"))
        } else {
            None
        }
    } else if k == 1 {
        Some(make_block_name("up_blocks_", level, "_attentions_", index, rest))
    } else {
        None
    }
}

fn translate_middle(k: usize, rest: &str) -> (r: Option<String>)
    ensures
        opt_string(r) == middle_block(k as nat, rest@),
{
    if k == 1 {
        Some(join("mid_block_attentions_0_", rest))
    } else if k == 0 || k == 2 {
        match resnet_name(rest) {
            Some(l) => {
                let mut s = join("mid_block_resnets_", decimal_of(k / 2).as_str());
                s.append("_");
                s.append(l);
                Some(s)
            },
            None => None,
        }
    } else {
        None
    }
}

/// The flattened UNet name of an original Stable Diffusion name.
pub fn translate_stem(stem: &str) -> (r: Option<String>)
    ensures
        opt_string(r) == translated(stem@),
{
    if same(stem, "input_blocks_0_0") {
        return Some(String::from_str("conv_in"));
    }
    if same(stem, "out_2") {
        return Some(String::from_str("conv_out"));
    }
    if let Some(s) = strip_prefix(stem, "input_blocks_") {
        match split_number(s) {
            Some((n, t)) => match split_number(t) {
                Some((k, rest)) => translate_input(n, k, rest),
                None => None,
            },
            None => None,
        }
    } else if let Some(s) = strip_prefix(stem, "output_blocks_") {
        match split_number(s) {
            Some((n, t)) => match split_number(t) {
                Some((k, rest)) => translate_output(n, k, rest),
                None => None,
            },
            None => None,
        }
    } else if let Some(s) = strip_prefix(stem, "middle_block_") {
        match split_number(s) {
            Some((k, rest)) => translate_middle(k, rest),
            None => None,
        }
    } else {
        None
    }
}

/// The dotted path of a flattened stem: looked up as it stands, or under its translated name.
pub open spec fn kohya_path(stem: Seq<char>, table: Map<Seq<char>, Seq<char>>) -> Option<Seq<char>> {
    match table_path(table, stem) {
        Some(p) => Some(p),
        None => match translated(stem) {
            Some(t) => table_path(table, t),
            None => None,
        },
    }
}

/// Resolves a flattened stem to its dotted path.
pub fn resolve_kohya_stem(stem: &str, table: &KohyaTable) -> (r: Option<String>)
    ensures
        opt_string(r) == kohya_path(stem@, table@),
{
    if let Some(p) = table.get(stem) {
        return Some(p.clone());
    }
    match translate_stem(stem) {
        Some(t) => match table.get(t.as_str()) {
            Some(p) => Some(p.clone()),
            None => None,
        },
        None => None,
    }
}

/// Of the input blocks, three belong to each level, behind the input convolution: a resnet with its
/// transformer, another resnet with its transformer, and the downsampler.
pub proof fn law_input_blocks_are_the_way_down(level: nat, index: nat, leaf: Seq<char>)
    requires
        index < 2,
    ensures
        ({
            let n = 3 * level + 1 + index;
            let path = "down_blocks_"@ + decimal(level);
            &&& input_block(n, 0, leaf) == match resnet_layer(leaf) {
                Some(l) => Some(path + "_resnets_"@ + decimal(index) + "_"@ + l),
                None => None,
            }
            &&& input_block(n, 1, leaf) == Some(
                path + "_attentions_"@ + decimal(index) + "_"@ + leaf,
            )
            &&& input_block(3 * level + 3, 0, "op"@) == Some(
                path + "_downsamplers_"@ + decimal(0) + "_"@ + "conv"@,
            )
            &&& leaf != "op"@ ==> input_block(3 * level + 3, 0, leaf) is None
            &&& forall|k: nat| k > 1 ==> #[trigger] input_block(n, k, leaf) is None
            &&& forall|k: nat| k > 0 ==> #[trigger] input_block(3 * level + 3, k, leaf) is None
        }),
{
    let n = 3 * level + 1 + index;
    assert((n - 1) / 3 == level && (n - 1) % 3 == index);
    assert((3 * level + 3 - 1) / 3 == level as int && (3 * level + 3 - 1) % 3 == 2);
}

/// Of the output blocks, three belong to each level: a resnet with its transformer each, and the last
/// of them also has the upsampler, behind its transformer or in its place.
pub proof fn law_output_blocks_are_the_way_up(level: nat, index: nat, leaf: Seq<char>, k: nat)
    requires
        index < 3,
    ensures
        ({
            let n = 3 * level + index;
            let path = "up_blocks_"@ + decimal(level);
            &&& output_block(n, 0, leaf) == match resnet_layer(leaf) {
                Some(l) => Some(path + "_resnets_"@ + decimal(index) + "_"@ + l),
                None => None,
            }
            &&& leaf != "conv"@ ==> output_block(n, 1, leaf) == Some(
                path + "_attentions_"@ + decimal(index) + "_"@ + leaf,
            )
            &&& leaf != "conv"@ && k > 1 ==> output_block(n, k, leaf) is None
            &&& k == 1 || k == 2 ==> output_block(3 * level + 2, k, "conv"@) == Some(
                path + "_upsamplers_"@ + decimal(0) + "_"@ + "conv"@,
            )
            &&& k > 0 && (index < 2 || k > 2) ==> output_block(n, k, "conv"@) is None
        }),
{
    let n = 3 * level + index;
    assert(n / 3 == level && n % 3 == index);
    assert((3 * level + 2) / 3 == level && (3 * level + 2) % 3 == 2);
}

/// The middle block is a resnet, a transformer and a resnet.
pub proof fn law_middle_block_is_between_two_resnets(leaf: Seq<char>, k: nat)
    ensures
        middle_block(0, leaf) == match resnet_layer(leaf) {
            Some(l) => Some("mid_block_resnets_"@ + decimal(0) + "_"@ + l),
            None => None,
        },
        middle_block(1, leaf) == Some("mid_block_attentions_0_"@ + leaf),
        middle_block(2, leaf) == match resnet_layer(leaf) {
            Some(l) => Some("mid_block_resnets_"@ + decimal(1) + "_"@ + l),
            None => None,
        },
        k > 2 ==> middle_block(k, leaf) is None,
{
}

/// No two layers of a resnet get the same name: what was named apart stays apart.
pub proof fn law_resnet_layers_keep_apart(a: Seq<char>, b: Seq<char>)
    requires
        resnet_layer(a) is Some,
        resnet_layer(a) == resnet_layer(b),
    ensures
        a == b,
{
    reveal_strlit("norm1");
    reveal_strlit("conv1");
    reveal_strlit("norm2");
    reveal_strlit("conv2");
    reveal_strlit("time_emb_proj");
    reveal_strlit("conv_shortcut");
    assert("norm1"@[0] != "conv1"@[0]);
    assert("norm1"@[4] != "norm2"@[4]);
    assert("norm1"@[4] != "conv2"@[4]);
    assert("conv1"@[4] != "norm2"@[4]);
    assert("conv1"@[4] != "conv2"@[4]);
    assert("norm2"@[0] != "conv2"@[0]);
    assert("time_emb_proj"@[0] != "conv_shortcut"@[0]);
}

/// What comes in keeps the first norm and convolution, what goes out has the second.
pub proof fn law_resnet_layers_have_their_names()
    ensures
        resnet_layer("in_layers_0"@) == Some("norm1"@),
        resnet_layer("in_layers_2"@) == Some("conv1"@),
        resnet_layer("out_layers_0"@) == Some("norm2"@),
        resnet_layer("out_layers_3"@) == Some("conv2"@),
        resnet_layer("emb_layers_1"@) == Some("time_emb_proj"@),
        resnet_layer("skip_connection"@) == Some("conv_shortcut"@),
{
    reveal_strlit("in_layers_0");
    reveal_strlit("in_layers_2");
    reveal_strlit("out_layers_0");
    reveal_strlit("out_layers_3");
    reveal_strlit("emb_layers_1");
    reveal_strlit("skip_connection");
    assert("in_layers_0"@[10] != "in_layers_2"@[10]);
    assert("out_layers_0"@[11] != "out_layers_3"@[11]);
    assert("emb_layers_1"@[0] != "out_layers_3"@[0]);
    assert("emb_layers_1"@[0] != "out_layers_0"@[0]);
}

/// A number before an underline is read as the number that it is, and the rest is left.
pub proof fn law_numbers_are_read_back(n: nat, rest: Seq<char>)
    requires
        n <= 0xffff,
    ensures
        number_and_rest(decimal(n) + "_"@ + rest) == Some((n, rest)),
{
    let d = decimal(n);
    let s = d + "_"@ + rest;
    reveal_strlit("_");
    assert(s =~= d + ("_"@ + rest));
    crate::text::lemma_decimal_digits(n);
    crate::text::law_decimal_parses_back(n, 0xffff);
    assert forall|k: int| 0 <= k < d.len() implies #[trigger] d[k] != '_' by {
        assert(crate::text::is_digit(d[k]));
    }
    crate::text::lemma_until_here(d, "_"@ + rest, '_');
    assert(s.take(d.len() as int) =~= d);
    assert(s.skip((d.len() + 1) as int) =~= rest);
}

/// An original name says which block it is of, which part of the block and which module of the part,
/// and is translated as that module.
pub proof fn law_original_names_are_translated(n: nat, k: nat, rest: Seq<char>)
    requires
        n <= 0xffff,
        k <= 0xffff,
    ensures
        ({
            let tail = decimal(n) + "_"@ + (decimal(k) + "_"@ + rest);
            &&& translated("input_blocks_"@ + tail) == input_block(n, k, rest)
            &&& translated("output_blocks_"@ + tail) == output_block(n, k, rest)
            &&& translated("middle_block_"@ + (decimal(k) + "_"@ + rest)) == middle_block(k, rest)
            &&& translated("input_blocks_0_0"@) == Some("conv_in"@)
            &&& translated("out_2"@) == Some("conv_out"@)
        }),
{
    reveal_strlit("input_blocks_");
    reveal_strlit("output_blocks_");
    reveal_strlit("middle_block_");
    reveal_strlit("input_blocks_0_0");
    reveal_strlit("out_2");
    reveal_strlit("_");
    let part = decimal(k) + "_"@ + rest;
    let tail = decimal(n) + "_"@ + part;
    law_numbers_are_read_back(n, part);
    law_numbers_are_read_back(k, rest);
    let (i, o, m) = ("input_blocks_"@, "output_blocks_"@, "middle_block_"@);
    let (si, so, sm) = (i + tail, o + tail, m + part);
    assert(si.take(i.len() as int) =~= i && si.skip(i.len() as int) =~= tail);
    assert(so.take(o.len() as int) =~= o && so.skip(o.len() as int) =~= tail);
    assert(sm.take(m.len() as int) =~= m && sm.skip(m.len() as int) =~= part);
    assert(si != "input_blocks_0_0"@) by {
        if si == "input_blocks_0_0"@ {
            let s = "input_blocks_0_0"@.skip(13);
            assert(tail =~= s);
            assert(s =~= seq!['0', '_', '0']);
            crate::text::lemma_decimal_digits(n);
            crate::text::lemma_decimal_digits(k);
            assert(tail.len() >= 4);
        }
    }
    assert(si[0] == 'i' && so[0] == 'o' && sm[0] == 'm');
    assert(so[3] == 'p');
    assert(so != "out_2"@);
    assert(si != "out_2"@ && sm != "out_2"@);
    assert(so.take(i.len() as int)[0] != i[0]);
    assert(sm.take(i.len() as int)[0] != i[0]);
    assert(sm.take(o.len() as int)[0] != o[0]);
    assert("out_2"@[0] != "input_blocks_0_0"@[0]);
}

} // verus!
