//! The factor suffixes of adapter keys, and how a module's delta is scaled: by what its tensors and the
//! file's metadata say.
use crate::adapter::{lookup, pairs, AdapterFile};
use crate::float::Real32;
use crate::json::{member, member_members, members_at, members_in, members_of, Members};
use crate::text::{ends, has_suffix, is_digit, join, same, strip_suffix, without_suffix};
use crate::tokenizer::opt_text;
use vstd::prelude::*;
use vstd::string::*;

verus! {

/// The part that a tensor plays in a LoRA module.
#[derive(Clone, Copy, Debug, PartialEq, Eq, Structural)]
pub enum Role {
    Down,
    Up,
    Alpha,
}

impl Role {
    /// The factor slot of the role.
    pub open spec fn slot(self) -> int {
        match self {
            Role::Down => 0,
            Role::Up => 1,
            Role::Alpha => 2,
        }
    }

    pub fn index(self) -> (r: usize)
        ensures
            r == self.slot(),
            r < 3,
    {
        match self {
            Role::Down => 0,
            Role::Up => 1,
            Role::Alpha => 2,
        }
    }
}

/// The result of a suffix split.
pub open spec fn split_view<T>(r: Option<(&str, T)>) -> Option<(Seq<char>, T)> {
    match r {
        Some((s, t)) => Some((s@, t)),
        None => None,
    }
}

/// The module and the factor slot of a LoKr key. The low-rank suffixes are tried before the full
/// ones that they extend.
pub open spec fn lokr_slot(key: Seq<char>) -> Option<(Seq<char>, usize)> {
    if let Some(s) = without_suffix(key, ".lokr_w1_a"@) {
        Some((s, 0))
    } else if let Some(s) = without_suffix(key, ".lokr_w1_b"@) {
        Some((s, 1))
    } else if let Some(s) = without_suffix(key, ".lokr_w1"@) {
        Some((s, 2))
    } else if let Some(s) = without_suffix(key, ".lokr_w2_a"@) {
        Some((s, 3))
    } else if let Some(s) = without_suffix(key, ".lokr_w2_b"@) {
        Some((s, 4))
    } else if let Some(s) = without_suffix(key, ".lokr_w2"@) {
        Some((s, 5))
    } else {
        None
    }
}

/// The module and the factor slot of a LoKr key.
pub fn split_lokr_slot<'a>(key: &'a str) -> (r: Option<(&'a str, usize)>)
    ensures
        split_view(r) == lokr_slot(key@),
        r matches Some((_, k)) ==> k < 6,
{
    if let Some(s) = strip_suffix(key, ".lokr_w1_a") {
        Some((s, 0))
    } else if let Some(s) = strip_suffix(key, ".lokr_w1_b") {
        Some((s, 1))
    } else if let Some(s) = strip_suffix(key, ".lokr_w1") {
        Some((s, 2))
    } else if let Some(s) = strip_suffix(key, ".lokr_w2_a") {
        Some((s, 3))
    } else if let Some(s) = strip_suffix(key, ".lokr_w2_b") {
        Some((s, 4))
    } else if let Some(s) = strip_suffix(key, ".lokr_w2") {
        Some((s, 5))
    } else {
        None
    }
}

/// The name of a LoKr factor slot.
pub open spec fn lokr_name(slot: usize) -> Seq<char> {
    if slot == 0 {
        "lokr_w1_a"@
    } else if slot == 1 {
        "lokr_w1_b"@
    } else if slot == 2 {
        "lokr_w1"@
    } else if slot == 3 {
        "lokr_w2_a"@
    } else if slot == 4 {
        "lokr_w2_b"@
    } else {
        "lokr_w2"@
    }
}

/// The name of a LoKr factor slot.
pub fn lokr_factor_name(slot: usize) -> (r: &'static str)
    ensures
        r@ == lokr_name(slot),
{
    match slot {
        0 => "lokr_w1_a",
        1 => "lokr_w1_b",
        2 => "lokr_w1",
        3 => "lokr_w2_a",
        4 => "lokr_w2_b",
        _ => "lokr_w2",
    }
}

/// One side of the ratio that scales a delta.
#[derive(Clone, Copy, Debug, PartialEq, Eq, Structural)]
pub enum Strength {
    /// A number from the file.
    Given(Real32),
    /// The rank of the factors.
    Rank(usize),
}

/// The first of several numbers that is there, or `last`.
pub open spec fn first_given(a: Option<Real32>, b: Option<Real32>, last: Strength) -> Strength {
    match (a, b) {
        (Some(x), _) => Strength::Given(x),
        (None, Some(y)) => Strength::Given(y),
        (None, None) => last,
    }
}

/// The strengths that an adapter file's metadata gives: for all of its modules, and for those whose
/// path a pattern names.
#[derive(Clone, Debug)]
pub struct LoraAdapterMeta {
    pub lora_alpha: Option<Real32>,
    pub r: Option<Real32>,
    pub alpha_pattern: Vec<(String, Real32)>,
    pub rank_pattern: Vec<(String, Real32)>,
}

/// The pattern is the module's path, or its last segments.
pub open spec fn names_module(pattern: Seq<char>, path: Seq<char>) -> bool {
    path == pattern || ends(path, "."@ + pattern)
}

/// The number of the first pattern from `i` on that names the module, or the number for all modules.
pub open spec fn patterned(
    patterns: Seq<(String, Real32)>,
    all: Option<Real32>,
    path: Seq<char>,
    i: int,
) -> Option<Real32>
    decreases patterns.len() - i,
{
    if i < 0 || i >= patterns.len() {
        all
    } else if names_module(patterns[i].0@, path) {
        Some(patterns[i].1)
    } else {
        patterned(patterns, all, path, i + 1)
    }
}

fn pick(patterns: &Vec<(String, Real32)>, all: Option<Real32>, path: &str) -> (r: Option<Real32>)
    ensures
        r == patterned(patterns@, all, path@, 0),
{
    let mut i: usize = 0;
    while i < patterns.len()
        invariant
            i <= patterns.len(),
            patterned(patterns@, all, path@, 0) == patterned(patterns@, all, path@, i as int),
        decreases patterns.len() - i,
    {
        let name = patterns[i].0.as_str();
        if same(path, name) || has_suffix(path, join(".", name).as_str()) {
            return Some(patterns[i].1);
        }
        i += 1;
    }
    all
}

impl LoraAdapterMeta {
    /// The alpha and the rank that the metadata gives the module at `path`. A pattern that names the
    /// module goes before the number for all modules.
    pub fn effective(&self, path: &str) -> (r: (Option<Real32>, Option<Real32>))
        ensures
            r.0 == patterned(self.alpha_pattern@, self.lora_alpha, path@, 0),
            r.1 == patterned(self.rank_pattern@, self.r, path@, 0),
    {
        (
            pick(&self.alpha_pattern, self.lora_alpha, path),
            pick(&self.rank_pattern, self.r, path),
        )
    }
}

/// The numbers that an adapter file's metadata gives, as JSON spells them.
#[derive(Clone, Debug)]
pub struct MetaNumbers {
    pub lora_alpha: Option<String>,
    pub r: Option<String>,
    pub alpha_pattern: Vec<(String, String)>,
    pub rank_pattern: Vec<(String, String)>,
}

/// The compact JSON text is a number.
pub open spec fn is_number(text: Seq<char>) -> bool {
    text.len() > 0 && (text[0] == '-' || is_digit(text[0]))
}

/// A member that is a number.
pub open spec fn number_in(m: Members, name: Seq<char>) -> Option<Seq<char>> {
    match lookup(m, name) {
        Some(t) => if is_number(t) {
            Some(t)
        } else {
            None
        },
        None => None,
    }
}

/// The first `k` members that are numbers.
pub open spec fn numbers_of(m: Members, k: int) -> Members
    decreases k,
{
    if k <= 0 {
        Seq::empty()
    } else if is_number(m[k - 1].1) {
        numbers_of(m, k - 1).push(m[k - 1])
    } else {
        numbers_of(m, k - 1)
    }
}

/// The numbers of a member that is an object.
pub open spec fn numbers_in(m: Members, name: Seq<char>) -> Members {
    match member_members(m, name) {
        Some(p) => numbers_of(p, p.len() as int),
        None => Seq::empty(),
    }
}

/// The numbers are those of the metadata object.
pub open spec fn are_numbers(n: MetaNumbers, m: Members) -> bool {
    &&& number_in(m, "lora_alpha"@) == opt_text(n.lora_alpha)
    &&& number_in(m, "r"@) == opt_text(n.r)
    &&& pairs(n.alpha_pattern@) == numbers_in(m, "alpha_pattern"@)
    &&& pairs(n.rank_pattern@) == numbers_in(m, "rank_pattern"@)
}

fn numeric(text: &str) -> (r: bool)
    ensures
        r == is_number(text@),
{
    if text.unicode_len() == 0 {
        return false;
    }
    let c: char = text.get_char(0);
    c == '-' || ('0' <= c && c <= '9')
}

fn number_at(m: &Vec<(String, String)>, name: &str) -> (r: Option<String>)
    ensures
        number_in(pairs(m@), name@) == opt_text(r),
{
    match member(m, name) {
        Some(t) => if numeric(t.as_str()) {
            Some(String::from_str(t.as_str()))
        } else {
            None
        },
        None => None,
    }
}

fn numbers_at(m: &Vec<(String, String)>, name: &str) -> (r: Vec<(String, String)>)
    ensures
        pairs(r@) == numbers_in(pairs(m@), name@),
{
    let mut out: Vec<(String, String)> = Vec::new();
    let p = match members_at(m, name) {
        Some(p) => p,
        None => {
            proof {
                assert(pairs(out@) =~= Seq::<(Seq<char>, Seq<char>)>::empty());
            }
            return out;
        },
    };
    let ghost all = pairs(p@);
    proof {
        assert(pairs(out@) =~= numbers_of(all, 0));
    }
    let mut i: usize = 0;
    while i < p.len()
        invariant
            i <= p.len(),
            all == pairs(p@),
            all.len() == p.len(),
            pairs(out@) == numbers_of(all, i as int),
        decreases p.len() - i,
    {
        proof {
            assert(all[i as int] == (p[i as int].0@, p[i as int].1@));
        }
        if numeric(p[i].1.as_str()) {
            let ghost before = out@;
            let entry = (String::from_str(p[i].0.as_str()), String::from_str(p[i].1.as_str()));
            out.push(entry);
            proof {
                assert(pairs(out@) =~= pairs(before).push(all[i as int]));
            }
        }
        i += 1;
    }
    out
}

/// Reads the numbers in the `lora_adapter_metadata` of a file. A file without it, or with one that is
/// no JSON object, gives none.
pub fn metadata_numbers(af: &AdapterFile) -> (r: Option<MetaNumbers>)
    ensures
        match af.meta_value("lora_adapter_metadata"@) {
            Some(blob) => match members_of(blob) {
                Some(m) => r matches Some(n) && are_numbers(n, m),
                None => r is None,
            },
            None => r is None,
        },
{
    let m = match af.meta_get("lora_adapter_metadata") {
        Some(blob) => match members_in(blob.as_str()) {
            Some(m) => m,
            None => {
                return None;
            },
        },
        None => {
            return None;
        },
    };
    Some(
        MetaNumbers {
            lora_alpha: number_at(&m, "lora_alpha"),
            r: number_at(&m, "r"),
            alpha_pattern: numbers_at(&m, "alpha_pattern"),
            rank_pattern: numbers_at(&m, "rank_pattern"),
        },
    )
}

/// The alpha and the rank of a LoRA module, whose ratio scales its delta. The rank is the one that the
/// file's metadata gives, or that of the factors; the alpha is the module's own, or the metadata's, or
/// the rank.
pub fn lora_strength(
    own_alpha: Option<Real32>,
    meta_alpha: Option<Real32>,
    meta_rank: Option<Real32>,
    factor_rank: usize,
) -> (r: (Strength, Strength))
    ensures
        r.1 == first_given(meta_rank, None, Strength::Rank(factor_rank)),
        r.0 == first_given(own_alpha, meta_alpha, r.1),
{
    let rank = match meta_rank {
        Some(x) => Strength::Given(x),
        None => Strength::Rank(factor_rank),
    };
    let alpha = match own_alpha {
        Some(x) => Strength::Given(x),
        None => match meta_alpha {
            Some(y) => Strength::Given(y),
            None => rank,
        },
    };
    (alpha, rank)
}

/// The alpha and the rank of a third-party module: its own alpha, or its rank. A module of full
/// factors has no rank, and its delta is not scaled.
pub fn lycoris_strength(own_alpha: Option<Real32>, rank: Option<usize>) -> (r: Option<
    (Strength, usize),
>)
    ensures
        r == match rank {
            None => None::<(Strength, usize)>,
            Some(k) => Some((first_given(own_alpha, None, Strength::Rank(k)), k)),
        },
{
    match rank {
        None => None,
        Some(k) => match own_alpha {
            Some(x) => Some((Strength::Given(x), k)),
            None => Some((Strength::Rank(k), k)),
        },
    }
}

/// A suffix that was split off is still there.
pub proof fn lemma_suffix_put_back(key: Seq<char>, suffix: Seq<char>)
    ensures
        without_suffix(key, suffix) matches Some(s) ==> key == s + suffix,
{
    if let Some(s) = without_suffix(key, suffix) {
        assert(key =~= s + suffix);
    }
}

/// What a suffix leaves.
pub proof fn lemma_suffix_leaves(s: Seq<char>, suffix: Seq<char>)
    ensures
        without_suffix(s + suffix, suffix) == Some(s),
{
    let t = s + suffix;
    assert(t.skip(t.len() - suffix.len()) =~= suffix);
    assert(t.take(t.len() - suffix.len()) =~= s);
}

/// A suffix with another end does not fit.
pub proof fn lemma_other_end(s: Seq<char>, suffix: Seq<char>, other: Seq<char>, back: int)
    requires
        0 < back <= suffix.len(),
        back <= other.len(),
        suffix[suffix.len() - back] != other[other.len() - back],
    ensures
        without_suffix(s + suffix, other) is None,
{
    let t = s + suffix;
    if ends(t, other) {
        let tail = t.skip(t.len() - other.len());
        assert(tail[other.len() - back] == t[t.len() - back]);
        assert(t[t.len() - back] == suffix[suffix.len() - back]);
    }
}

/// The factors of a LoKr module are told by their keys: the first side's low-rank pair and full factor,
/// then the second side's. Their names are those of the keys.
pub proof fn law_lokr_keys_read_back(stem: Seq<char>)
    ensures
        lokr_slot(stem + ".lokr_w1_a"@) == Some((stem, 0usize)),
        lokr_slot(stem + ".lokr_w1_b"@) == Some((stem, 1usize)),
        lokr_slot(stem + ".lokr_w1"@) == Some((stem, 2usize)),
        lokr_slot(stem + ".lokr_w2_a"@) == Some((stem, 3usize)),
        lokr_slot(stem + ".lokr_w2_b"@) == Some((stem, 4usize)),
        lokr_slot(stem + ".lokr_w2"@) == Some((stem, 5usize)),
        forall|slot: usize|
            slot < 6 ==> lokr_slot(stem + ("."@ + #[trigger] lokr_name(slot))) == Some((stem, slot)),
{
    reveal_strlit(".lokr_w1_a");
    reveal_strlit(".lokr_w1_b");
    reveal_strlit(".lokr_w1");
    reveal_strlit(".lokr_w2_a");
    reveal_strlit(".lokr_w2_b");
    reveal_strlit(".lokr_w2");
    reveal_strlit("lokr_w1_a");
    reveal_strlit("lokr_w1_b");
    reveal_strlit("lokr_w1");
    reveal_strlit("lokr_w2_a");
    reveal_strlit("lokr_w2_b");
    reveal_strlit("lokr_w2");
    reveal_strlit(".");
    let (a1, b1, w1) = (".lokr_w1_a"@, ".lokr_w1_b"@, ".lokr_w1"@);
    let (a2, b2, w2) = (".lokr_w2_a"@, ".lokr_w2_b"@, ".lokr_w2"@);
    lemma_suffix_leaves(stem, a1);
    lemma_suffix_leaves(stem, b1);
    lemma_suffix_leaves(stem, w1);
    lemma_suffix_leaves(stem, a2);
    lemma_suffix_leaves(stem, b2);
    lemma_suffix_leaves(stem, w2);
    lemma_other_end(stem, b1, a1, 1);
    lemma_other_end(stem, w1, a1, 1);
    lemma_other_end(stem, w1, b1, 1);
    lemma_other_end(stem, a2, a1, 3);
    lemma_other_end(stem, a2, b1, 1);
    lemma_other_end(stem, a2, w1, 1);
    lemma_other_end(stem, b2, a1, 1);
    lemma_other_end(stem, b2, b1, 3);
    lemma_other_end(stem, b2, w1, 1);
    lemma_other_end(stem, b2, a2, 1);
    lemma_other_end(stem, w2, a1, 1);
    lemma_other_end(stem, w2, b1, 1);
    lemma_other_end(stem, w2, w1, 1);
    lemma_other_end(stem, w2, a2, 1);
    lemma_other_end(stem, w2, b2, 1);
    assert("."@ + lokr_name(0) =~= a1);
    assert("."@ + lokr_name(1) =~= b1);
    assert("."@ + lokr_name(2) =~= w1);
    assert("."@ + lokr_name(3) =~= a2);
    assert("."@ + lokr_name(4) =~= b2);
    assert("."@ + lokr_name(5) =~= w2);
}

/// A LoKr key is its module and the name of its factor.
pub proof fn law_lokr_keys_are_spelled_out(key: Seq<char>)
    ensures
        lokr_slot(key) matches Some((stem, slot)) ==> slot < 6 && key == stem + ("."@ + lokr_name(
            slot,
        )),
{
    reveal_strlit(".lokr_w1_a");
    reveal_strlit(".lokr_w1_b");
    reveal_strlit(".lokr_w1");
    reveal_strlit(".lokr_w2_a");
    reveal_strlit(".lokr_w2_b");
    reveal_strlit(".lokr_w2");
    reveal_strlit("lokr_w1_a");
    reveal_strlit("lokr_w1_b");
    reveal_strlit("lokr_w1");
    reveal_strlit("lokr_w2_a");
    reveal_strlit("lokr_w2_b");
    reveal_strlit("lokr_w2");
    reveal_strlit(".");
    lemma_suffix_put_back(key, ".lokr_w1_a"@);
    lemma_suffix_put_back(key, ".lokr_w1_b"@);
    lemma_suffix_put_back(key, ".lokr_w1"@);
    lemma_suffix_put_back(key, ".lokr_w2_a"@);
    lemma_suffix_put_back(key, ".lokr_w2_b"@);
    lemma_suffix_put_back(key, ".lokr_w2"@);
    assert("."@ + lokr_name(0) =~= ".lokr_w1_a"@);
    assert("."@ + lokr_name(1) =~= ".lokr_w1_b"@);
    assert("."@ + lokr_name(2) =~= ".lokr_w1"@);
    assert("."@ + lokr_name(3) =~= ".lokr_w2_a"@);
    assert("."@ + lokr_name(4) =~= ".lokr_w2_b"@);
    assert("."@ + lokr_name(5) =~= ".lokr_w2"@);
}

/// A module's own alpha goes before the metadata's, and that before the rank; a rank that the metadata
/// gives goes before that of the factors.
pub proof fn law_own_strengths_come_first(own: Real32, meta: Real32, last: Strength)
    ensures
        first_given(Some(own), Some(meta), last) == Strength::Given(own),
        first_given(Some(own), None, last) == Strength::Given(own),
        first_given(None, Some(meta), last) == Strength::Given(meta),
        first_given(None, None, last) == last,
{
}

/// A pattern names a module by its whole path or by its last segments, and never by part of a segment.
pub proof fn law_patterns_name_whole_segments(pattern: Seq<char>, head: Seq<char>, path: Seq<char>)
    ensures
        names_module(pattern, pattern),
        names_module(pattern, head + ("."@ + pattern)),
        names_module(pattern, path) && path != pattern ==> {
            let at = path.len() - pattern.len() - 1;
            at >= 0 && path[at] == '.' && path.skip(at + 1) == pattern
        },
{
    reveal_strlit(".");
    let t = head + ("."@ + pattern);
    assert(t.skip(t.len() - (pattern.len() + 1)) =~= "."@ + pattern);
    if names_module(pattern, path) && path != pattern {
        let tail = path.skip(path.len() - (pattern.len() + 1));
        assert(tail == "."@ + pattern);
        assert(tail[0] == '.');
        assert(path.skip(path.len() - pattern.len()) =~= tail.skip(1));
        assert(tail.skip(1) =~= pattern);
    }
}

/// The number of a module is that of the first pattern that names it; where none does, it is the number
/// for all modules.
pub proof fn law_first_pattern_wins(
    patterns: Seq<(String, Real32)>,
    all: Option<Real32>,
    path: Seq<char>,
    k: int,
)
    requires
        0 <= k <= patterns.len(),
        forall|i: int| 0 <= i < k ==> !names_module((#[trigger] patterns[i]).0@, path),
    ensures
        k == patterns.len() ==> patterned(patterns, all, path, 0) == all,
        k < patterns.len() && names_module(patterns[k].0@, path) ==> patterned(
            patterns,
            all,
            path,
            0,
        ) == Some(patterns[k].1),
{
    lemma_unnamed(patterns, all, path, 0, k);
}

proof fn lemma_unnamed(
    patterns: Seq<(String, Real32)>,
    all: Option<Real32>,
    path: Seq<char>,
    i: int,
    k: int,
)
    requires
        0 <= i <= k <= patterns.len(),
        forall|j: int| i <= j < k ==> !names_module((#[trigger] patterns[j]).0@, path),
    ensures
        patterned(patterns, all, path, i) == patterned(patterns, all, path, k),
    decreases k - i,
{
    if i < k {
        lemma_unnamed(patterns, all, path, i + 1, k);
    }
}

/// Down, up and alpha factors have slots of their own.
pub proof fn law_roles_have_their_own_slots(a: Role, b: Role)
    requires
        a != b,
    ensures
        a.slot() != b.slot(),
        0 <= a.slot() < 3,
{
}

/// The numbers of an object are its members that are numbers, in its order.
pub proof fn law_numbers_are_the_members_that_are(m: Members, k: int)
    requires
        0 <= k <= m.len(),
    ensures
        numbers_of(m, k) == m.take(k).filter(|x: (Seq<char>, Seq<char>)| is_number(x.1)),
    decreases k,
{
    reveal(Seq::filter);
    if k > 0 {
        law_numbers_are_the_members_that_are(m, k - 1);
        assert(m.take(k).drop_last() =~= m.take(k - 1));
        assert(m.take(k).last() == m[k - 1]);
    } else {
        assert(m.take(0) =~= Seq::empty());
    }
}

/// A member is taken as a number where it is one, and then as it is spelled; a text, a list, an object
/// and a word are none.
pub proof fn law_only_numbers_are_taken(m: Members, name: Seq<char>, n: nat, rest: Seq<char>)
    ensures
        number_in(m, name) is Some ==> lookup(m, name) == number_in(m, name) && is_number(
            number_in(m, name)->0,
        ),
        lookup(m, name) matches Some(t) ==> (is_number(t) ==> number_in(m, name) == Some(t)),
        is_number(crate::text::decimal(n)),
        is_number(seq!['-'] + crate::text::decimal(n)),
        !is_number(seq!['"'] + rest) && !is_number(seq!['['] + rest) && !is_number(seq!['{'] + rest),
        !is_number(seq!['n'] + rest) && !is_number(seq!['t'] + rest) && !is_number(seq!['f'] + rest),
{
    crate::text::lemma_decimal_digits(n);
    assert(is_digit(crate::text::decimal(n)[0]));
}

} // verus!
