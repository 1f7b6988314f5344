//! Tokenizer definitions: the parts that this library takes, those of CLIP and T5 tokenizers among
//! them, and the test for them. Other parts are refused before they are parsed: on some of them the
//! parser, or a tokenizer that it makes, would panic.
use crate::adapter::{lookup, pairs};
use crate::charsmap::{check_map, decoded, is_base64, is_sound_map};
use crate::json::{
    items_at, items_of, json_members, member, member_items, member_members, member_string, members_at,
    members_in, members_of, read_items, read_members, read_string, string_at, string_of, Members,
};
use crate::text::{chars_of, find, has_prefix, is_white, same, starts, until, views, white};
use vstd::prelude::*;
use vstd::string::*;
use vstd::utf8::encode_utf8;

verus! {

/// Where a scan of JSON bytes stands: how deep it is in brackets, whether it is in a string and behind
/// a backslash, and how many members of the outermost object it has passed.
pub struct Scan {
    pub depth: nat,
    pub quoted: bool,
    pub escaped: bool,
    pub names: nat,
}

/// The scan of the first `k` bytes.
pub open spec fn scanned(b: Seq<u8>, k: int) -> Scan
    decreases k,
{
    if k <= 0 {
        Scan { depth: 0, quoted: false, escaped: false, names: 0 }
    } else {
        let s = scanned(b, k - 1);
        let c = b[k - 1];
        if s.quoted {
            Scan {
                quoted: s.escaped || c != 34,
                escaped: !s.escaped && c == 92,
                ..s
            }
        } else if c == 34 {
            Scan { quoted: true, ..s }
        } else if c == 123 || c == 91 {
            Scan { depth: s.depth + 1, ..s }
        } else if c == 125 || c == 93 {
            Scan { depth: (if s.depth > 0 { s.depth - 1 } else { 0 }) as nat, ..s }
        } else if c == 58 && s.depth == 1 {
            Scan { names: s.names + 1, ..s }
        } else {
            s
        }
    }
}

/// How many members the outermost object spells out, repeated ones among them.
pub open spec fn outer_names(b: Seq<u8>) -> nat {
    scanned(b, b.len() as int).names
}

fn count_outer_names(b: &[u8]) -> (r: usize)
    ensures
        r == outer_names(b@),
{
    let mut depth: usize = 0;
    let mut quoted: bool = false;
    let mut escaped: bool = false;
    let mut names: usize = 0;
    let mut k: usize = 0;
    while k < b.len()
        invariant
            k <= b.len(),
            depth <= k,
            names <= k,
            scanned(b@, k as int) == (Scan {
                depth: depth as nat,
                quoted,
                escaped,
                names: names as nat,
            }),
        decreases b.len() - k,
    {
        let c: u8 = b[k];
        if quoted {
            let was: bool = escaped;
            quoted = was || c != 34;
            escaped = !was && c == 92;
        } else if c == 34 {
            quoted = true;
        } else if c == 123 || c == 91 {
            depth += 1;
        } else if c == 125 || c == 93 {
            if depth > 0 {
                depth -= 1;
            }
        } else if c == 58 && depth == 1 {
            names += 1;
        }
        k += 1;
    }
    names
}

/// The length of a string in bytes.
pub open spec fn byte_len(s: Seq<char>) -> int {
    encode_utf8(s).len() as int
}

/// The length in bytes of the longest of the first `k` names.
pub open spec fn longest(m: Members, k: int) -> int
    decreases k,
{
    if k <= 0 {
        0
    } else {
        let rest = longest(m, k - 1);
        if byte_len(m[k - 1].0) > rest {
            byte_len(m[k - 1].0)
        } else {
            rest
        }
    }
}

/// The first `n` bytes of `s` are whole characters.
pub open spec fn can_cut_at(s: Seq<char>, n: int) -> bool {
    exists|k: int| 0 <= k <= s.len() && byte_len(#[trigger] s.take(k)) == n
}

/// As many bytes as the prefix has can be cut off the second token of a merge, and the join without
/// them is no longer than the longest token.
pub open spec fn join_fits(a: Seq<char>, b: Seq<char>, prefix: Seq<char>, max: int) -> bool {
    &&& can_cut_at(b, byte_len(prefix))
    &&& byte_len(prefix) <= byte_len(b)
    &&& byte_len(a) + byte_len(b) - byte_len(prefix) <= max
}

/// A line of merges that names two tokens.
pub open spec fn line_fits(line: Seq<char>, prefix: Seq<char>, max: int) -> bool {
    let p = until(line, ' ');
    let b = line.skip(p + 1);
    !starts(line, "#version"@) && p < line.len() && until(b, ' ') == b.len() ==> join_fits(
        line.take(p),
        b,
        prefix,
        max,
    )
}

/// A merge, spelled as a pair or as a line, joins to a token that fits.
pub open spec fn merge_fits(text: Seq<char>, prefix: Seq<char>, max: int) -> bool {
    match items_of(text) {
        Some(v) => v.len() == 2 ==> match (string_of(v[0]), string_of(v[1])) {
            (Some(a), Some(b)) => join_fits(a, b, prefix, max),
            _ => true,
        },
        None => match string_of(text) {
            Some(line) => line_fits(line, prefix, max),
            None => true,
        },
    }
}

/// The prefix of tokens that continue a word.
pub open spec fn prefix_of(m: Members) -> Seq<char> {
    match member_string(m, "continuing_subword_prefix"@) {
        Some(s) => s,
        None => Seq::empty(),
    }
}

/// The merges of a model, where it has any, all join to tokens that fit its vocabulary.
pub open spec fn merges_fit(m: Members) -> bool {
    match (member_members(m, "vocab"@), member_items(m, "merges"@)) {
        (Some(vocab), Some(merges)) => forall|i: int|
            0 <= i < merges.len() ==> merge_fits(
                #[trigger] merges[i],
                prefix_of(m),
                longest(vocab, vocab.len() as int),
            ),
        _ => true,
    }
}

/// The type that an object says it is of.
pub open spec fn type_of(m: Members) -> Seq<char> {
    match member_string(m, "type"@) {
        Some(s) => s,
        None => Seq::empty(),
    }
}

/// The most characters that spell a piece of a unigram vocabulary. The tokenizer crate keeps the pieces
/// in a tree as deep as the longest, which it takes down recursively.
pub const MAX_PIECE: usize = 512;

/// The pieces of a vocabulary that is an array are all short.
pub open spec fn pieces_fit(m: Members) -> bool {
    match member_items(m, "vocab"@) {
        Some(v) => forall|i: int| 0 <= i < v.len() ==> (#[trigger] v[i]).len() <= MAX_PIECE,
        None => true,
    }
}

/// A model whose merges and pieces fit.
pub open spec fn model_fits(text: Seq<char>) -> bool {
    members_of(text) matches Some(m) && merges_fit(m) && pieces_fit(m)
}

fn bytes_in(s: &str) -> (r: usize)
    ensures
        r == byte_len(s@),
{
    s.as_bytes().len()
}

fn longest_of(m: &Vec<(String, String)>) -> (r: usize)
    ensures
        r == longest(pairs(m@), m.len() as int),
{
    let mut best: usize = 0;
    let mut i: usize = 0;
    while i < m.len()
        invariant
            i <= m.len(),
            best == longest(pairs(m@), i as int),
        decreases m.len() - i,
    {
        let n: usize = bytes_in(m[i].0.as_str());
        if n > best {
            best = n;
        }
        i += 1;
    }
    best
}

/// Whether as many bytes as `prefix` has can be cut off `s`.
fn check_cut(s: &str, prefix: &str) -> (r: bool)
    ensures
        r == can_cut_at(s@, byte_len(prefix@)),
{
    if has_prefix(s, prefix) {
        proof {
            assert(s@.take(prefix@.len() as int) =~= prefix@);
        }
        return true;
    }
    let cut: usize = bytes_in(prefix);
    let n: usize = s.unicode_len();
    let mut k: usize = 0;
    while k < n
        invariant
            k <= n,
            n == s@.len(),
            cut == byte_len(prefix@),
            forall|i: int| 0 <= i < k ==> byte_len(#[trigger] s@.take(i)) != cut,
        decreases n - k,
    {
        let part = s.substring_char(0, k);
        proof {
            assert(part@ =~= s@.take(k as int));
        }
        if bytes_in(part) == cut {
            return true;
        }
        k += 1;
    }
    proof {
        assert(s@.take(n as int) =~= s@);
    }
    bytes_in(s) == cut
}

fn check_join(a: &str, b: &str, prefix: &str, max: usize) -> (r: bool)
    ensures
        r == join_fits(a@, b@, prefix@, max as int),
{
    let left: usize = bytes_in(a);
    let right: usize = bytes_in(b);
    let cut: usize = bytes_in(prefix);
    check_cut(b, prefix) && cut <= right && left <= max && right - cut <= max - left
}

fn check_merge(text: &str, prefix: &str, max: usize) -> (r: bool)
    ensures
        r == merge_fits(text@, prefix@, max as int),
{
    match read_items(text.as_bytes()) {
        Some(v) => {
            if v.len() != 2 {
                return true;
            }
            proof {
                assert(views(v@)[0] == v[0]@);
                assert(views(v@)[1] == v[1]@);
            }
            match (read_string(v[0].as_str().as_bytes()), read_string(v[1].as_str().as_bytes())) {
                (Some(a), Some(b)) => check_join(a.as_str(), b.as_str(), prefix, max),
                _ => true,
            }
        },
        None => match read_string(text.as_bytes()) {
            Some(line) => {
                let line = line.as_str();
                if has_prefix(line, "#version") {
                    return true;
                }
                match find(line, ' ') {
                    Some(p) => {
                        let n: usize = line.unicode_len();
                        let a = line.substring_char(0, p);
                        let b = line.substring_char(p + 1, n);
                        proof {
                            assert(a@ =~= line@.take(p as int));
                            assert(b@ =~= line@.skip(p + 1));
                        }
                        find(b, ' ').is_some() || check_join(a, b, prefix, max)
                    },
                    None => true,
                }
            },
            None => true,
        },
    }
}

fn check_merges(m: &Vec<(String, String)>) -> (r: bool)
    ensures
        r == merges_fit(pairs(m@)),
{
    match (members_at(m, "vocab"), items_at(m, "merges")) {
        (Some(vocab), Some(merges)) => {
            let prefix = string_or_empty(m, "continuing_subword_prefix");
            let max: usize = longest_of(&vocab);
            let ghost all = views(merges@);
            let mut i: usize = 0;
            while i < merges.len()
                invariant
                    i <= merges.len(),
                    all == views(merges@),
                    all.len() == merges.len(),
                    member_items(pairs(m@), "merges"@) == Some(all),
                    member_members(pairs(m@), "vocab"@) == Some(pairs(vocab@)),
                    prefix@ == prefix_of(pairs(m@)),
                    max == longest(pairs(vocab@), vocab.len() as int),
                    forall|k: int|
                        0 <= k < i ==> merge_fits(#[trigger] all[k], prefix@, max as int),
                decreases merges.len() - i,
            {
                proof {
                    assert(all[i as int] == merges[i as int]@);
                }
                if !check_merge(merges[i].as_str(), prefix.as_str(), max) {
                    proof {
                        let w = member_items(pairs(m@), "merges"@)->0;
                        assert(!merge_fits(w[i as int], prefix@, max as int));
                    }
                    return false;
                }
                i += 1;
            }
            true
        },
        _ => true,
    }
}

/// A member that is a string, or nothing.
fn string_or_empty(m: &Vec<(String, String)>, name: &str) -> (r: String)
    ensures
        r@ == match member_string(pairs(m@), name@) {
            Some(s) => s,
            None => Seq::empty(),
        },
{
    match string_at(m, name) {
        Some(s) => s,
        None => {
            proof {
                reveal_strlit("");
                assert(""@ =~= Seq::<char>::empty());
            }
            String::from_str("")
        },
    }
}

fn check_pieces(m: &Vec<(String, String)>) -> (r: bool)
    ensures
        r == pieces_fit(pairs(m@)),
{
    let v = match items_at(m, "vocab") {
        Some(v) => v,
        None => {
            return true;
        },
    };
    let ghost all = views(v@);
    let mut i: usize = 0;
    while i < v.len()
        invariant
            i <= v.len(),
            all == views(v@),
            all.len() == v.len(),
            member_items(pairs(m@), "vocab"@) == Some(all),
            forall|k: int| 0 <= k < i ==> (#[trigger] all[k]).len() <= MAX_PIECE,
        decreases v.len() - i,
    {
        proof {
            assert(all[i as int] == v[i as int]@);
        }
        if v[i].as_str().unicode_len() > MAX_PIECE {
            proof {
                let w = member_items(pairs(m@), "vocab"@)->0;
                assert(w[i as int].len() > MAX_PIECE);
            }
            return false;
        }
        i += 1;
    }
    true
}

fn check_model(text: &str) -> (r: bool)
    ensures
        r == model_fits(text@),
{
    match members_in(text) {
        Some(m) => check_merges(&m) && check_pieces(&m),
        None => false,
    }
}

/// A pattern that never matches nothing: a text, or one of the given expressions.
pub open spec fn pattern_fits(m: Members, known: spec_fn(Seq<char>) -> bool) -> bool {
    &&& member_members(m, "pattern"@) matches Some(p)
    &&& p.len() == 1
    &&& match string_of(p[0].1) {
        Some(s) => (p[0].0 == "String"@ && s.len() > 0) || (p[0].0 == "Regex"@ && known(s)),
        None => false,
    }
}

/// Runs of white space, and of two spaces or more.
pub open spec fn is_space_run(s: Seq<char>) -> bool {
    s == "\\s+"@ || s == " {2,}"@
}

/// The words of CLIP, with its special tokens among them or not.
pub open spec fn is_word_split(s: Seq<char>) -> bool {
    s == "'s|'t|'re|'ve|'m|'ll|'d|[\\p{L}]+|[\\p{N}]|[^\\s\\p{L}\\p{N}]+"@ || s
        == "<\\|startoftext\\|>|<\\|endoftext\\|>|'s|'t|'re|'ve|'m|'ll|'d|[\\p{L}]+|[\\p{N}]|[^\\s\\p{L}\\p{N}]+"@
}

/// The pattern of an object: whether it is an expression, and its text.
fn read_pattern(m: &Vec<(String, String)>) -> (r: Option<(bool, String)>)
    ensures
        match r {
            Some((expression, s)) => {
                &&& member_members(pairs(m@), "pattern"@) matches Some(p)
                &&& p.len() == 1 && string_of(p[0].1) == Some(s@)
                &&& p[0].0 == if expression {
                    "Regex"@
                } else {
                    "String"@
                }
            },
            None => match member_members(pairs(m@), "pattern"@) {
                Some(p) => p.len() == 1 && (p[0].0 == "Regex"@ || p[0].0 == "String"@) ==> string_of(
                    p[0].1,
                ) is None,
                None => true,
            },
        },
{
    let p = match members_at(m, "pattern") {
        Some(p) => p,
        None => {
            return None;
        },
    };
    proof {
        assert(pairs(p@).len() == p.len());
    }
    if p.len() != 1 {
        return None;
    }
    proof {
        assert(pairs(p@)[0] == (p[0].0@, p[0].1@));
    }
    let expression: bool = same(p[0].0.as_str(), "Regex");
    if !expression && !same(p[0].0.as_str(), "String") {
        return None;
    }
    match read_string(p[0].1.as_str().as_bytes()) {
        Some(s) => Some((expression, s)),
        None => None,
    }
}

proof fn lemma_pattern_kinds()
    ensures
        "Regex"@ != "String"@,
{
    reveal_strlit("Regex");
    reveal_strlit("String");
    assert("Regex"@.len() != "String"@.len());
}

fn check_space_pattern(m: &Vec<(String, String)>) -> (r: bool)
    ensures
        r == pattern_fits(pairs(m@), |s: Seq<char>| is_space_run(s)),
{
    proof {
        lemma_pattern_kinds();
    }
    match read_pattern(m) {
        Some((true, s)) => same(s.as_str(), "\\s+") || same(s.as_str(), " {2,}"),
        Some((false, s)) => s.as_str().unicode_len() > 0,
        None => false,
    }
}

fn check_word_pattern(m: &Vec<(String, String)>) -> (r: bool)
    ensures
        r == pattern_fits(pairs(m@), |s: Seq<char>| is_word_split(s)),
{
    proof {
        lemma_pattern_kinds();
    }
    match read_pattern(m) {
        Some((true, s)) => same(
            s.as_str(),
            "'s|'t|'re|'ve|'m|'ll|'d|[\\p{L}]+|[\\p{N}]|[^\\s\\p{L}\\p{N}]+",
        ) || same(
            s.as_str(),
            "<\\|startoftext\\|>|<\\|endoftext\\|>|'s|'t|'re|'ve|'m|'ll|'d|[\\p{L}]+|[\\p{N}]|[^\\s\\p{L}\\p{N}]+",
        ),
        Some((false, s)) => s.as_str().unicode_len() > 0,
        None => false,
    }
}

/// A member that is a string of at least one character.
pub open spec fn has_text(m: Members, name: Seq<char>) -> bool {
    member_string(m, name) matches Some(s) && s.len() > 0
}

fn check_text(m: &Vec<(String, String)>, name: &str) -> (r: bool)
    ensures
        r == has_text(pairs(m@), name@),
{
    match string_at(m, name) {
        Some(s) => s.as_str().unicode_len() > 0,
        None => false,
    }
}

/// A compiled map that can be followed.
pub open spec fn map_fits(m: Members) -> bool {
    member_string(m, "precompiled_charsmap"@) matches Some(s) && is_base64(s) && is_sound_map(
        decoded(s),
    )
}

fn check_charsmap(m: &Vec<(String, String)>) -> (r: bool)
    ensures
        r == map_fits(pairs(m@)),
{
    match string_at(m, "precompiled_charsmap") {
        Some(s) => check_map(&chars_of(s.as_str())),
        None => false,
    }
}

/// The normalizers that leave something of every text that is not empty.
pub open spec fn is_plain(t: Seq<char>) -> bool {
    t == "NFC"@ || t == "NFD"@ || t == "NFKC"@ || t == "NFKD"@ || t == "Lowercase"@ || t
        == "ByteLevel"@
}

/// The normalizers that may take characters away.
pub open spec fn is_sieve(t: Seq<char>) -> bool {
    t == "Strip"@ || t == "StripAccents"@ || t == "Nmt"@
}

/// The switches of a BERT normalizer are all there.
pub open spec fn bert_fits(m: Members) -> bool {
    &&& flag_of(m, "clean_text"@) is Some
    &&& flag_of(m, "handle_chinese_chars"@) is Some
    &&& flag_of(m, "lowercase"@) is Some
    &&& lookup(m, "strip_accents"@) matches Some(t) ==> t == "null"@ || flag_of(
        m,
        "strip_accents"@,
    ) is Some
}

fn check_bert(m: &Vec<(String, String)>) -> (r: bool)
    ensures
        r == bert_fits(pairs(m@)),
{
    let accents: bool = match member(m, "strip_accents") {
        Some(t) => is_null(t.as_str()) || flag_at(m, "strip_accents").is_some(),
        None => true,
    };
    accents && flag_at(m, "clean_text").is_some() && flag_at(m, "handle_chinese_chars").is_some()
        && flag_at(m, "lowercase").is_some()
}

/// A normalizer that is no sequence: it inserts nothing before a text but what it aligns with it, and
/// where `keep` says so it leaves no text empty.
pub open spec fn step_fits(m: Members, keep: bool) -> bool {
    let t = type_of(m);
    ||| is_plain(t)
    ||| t == "Prepend"@ && has_text(m, "prepend"@)
    ||| t == "Replace"@ && pattern_fits(m, |s: Seq<char>| is_space_run(s)) && (keep ==> has_text(
        m,
        "content"@,
    ))
    ||| !keep && is_sieve(t)
    ||| !keep && t == "BertNormalizer"@ && bert_fits(m)
    ||| !keep && t == "Precompiled"@ && map_fits(m)
}

/// A normalizer, or a sequence of them, that takes every text.
pub open spec fn normalizer_fits(text: Seq<char>, keep: bool, fuel: nat) -> bool
    decreases fuel,
{
    match members_of(text) {
        Some(m) => if type_of(m) == "Sequence"@ {
            fuel > 0 && match member_items(m, "normalizers"@) {
                Some(v) => forall|i: int|
                    0 <= i < v.len() ==> normalizer_fits(#[trigger] v[i], keep, (fuel - 1) as nat),
                None => false,
            }
        } else {
            step_fits(m, keep)
        },
        None => false,
    }
}

fn check_step(m: &Vec<(String, String)>, keep: bool) -> (r: bool)
    ensures
        r == step_fits(pairs(m@), keep),
{
    let t = string_or_empty(m, "type");
    let t = t.as_str();
    let plain: bool = same(t, "NFC") || same(t, "NFD") || same(t, "NFKC") || same(t, "NFKD")
        || same(t, "Lowercase") || same(t, "ByteLevel");
    if plain || (same(t, "Prepend") && check_text(m, "prepend")) {
        return true;
    }
    if same(t, "Replace") && check_space_pattern(m) && (!keep || check_text(m, "content")) {
        return true;
    }
    if keep {
        return false;
    }
    same(t, "Strip") || same(t, "StripAccents") || same(t, "Nmt") || (same(t, "BertNormalizer")
        && check_bert(m)) || (same(t, "Precompiled") && check_charsmap(m))
}

fn check_normalizer(text: &str, keep: bool, fuel: usize) -> (r: bool)
    ensures
        r == normalizer_fits(text@, keep, fuel as nat),
    decreases fuel,
{
    let m = match members_in(text) {
        Some(m) => m,
        None => {
            return false;
        },
    };
    if !same(string_or_empty(&m, "type").as_str(), "Sequence") {
        return check_step(&m, keep);
    }
    if fuel == 0 {
        return false;
    }
    match items_at(&m, "normalizers") {
        Some(v) => {
            let ghost all = views(v@);
            let mut i: usize = 0;
            while i < v.len()
                invariant
                    i <= v.len(),
                    fuel > 0,
                    all == views(v@),
                    all.len() == v.len(),
                    members_of(text@) == Some(pairs(m@)),
                    type_of(pairs(m@)) == "Sequence"@,
                    member_items(pairs(m@), "normalizers"@) == Some(all),
                    forall|k: int|
                        0 <= k < i ==> normalizer_fits(#[trigger] all[k], keep, (fuel - 1) as nat),
                decreases v.len() - i,
            {
                proof {
                    assert(all[i as int] == v[i as int]@);
                }
                if !check_normalizer(v[i].as_str(), keep, fuel - 1) {
                    proof {
                        let w = member_items(pairs(m@), "normalizers"@)->0;
                        assert(!normalizer_fits(w[i as int], keep, (fuel - 1) as nat));
                    }
                    return false;
                }
                i += 1;
            }
            true
        },
        None => false,
    }
}

/// A pre-tokenizer that is no sequence, and whose pieces go forward.
pub open spec fn cutter_fits(m: Members) -> bool {
    let t = type_of(m);
    ||| t == "ByteLevel"@ || t == "Metaspace"@ || t == "WhitespaceSplit"@ || t == "Whitespace"@
    ||| t == "BertPreTokenizer"@ || t == "Punctuation"@ || t == "Digits"@ || t == "UnicodeScripts"@
    ||| t == "CharDelimiterSplit"@
    ||| t == "FixedLength"@ && lookup(m, "length"@) != Some("0"@)
    ||| t == "Split"@ && pattern_fits(m, |s: Seq<char>| is_word_split(s))
}

/// A pre-tokenizer, or a sequence of them, that takes every text.
pub open spec fn pre_tokenizer_fits(text: Seq<char>, fuel: nat) -> bool
    decreases fuel,
{
    match members_of(text) {
        Some(m) => if type_of(m) == "Sequence"@ {
            fuel > 0 && match member_items(m, "pretokenizers"@) {
                Some(v) => forall|i: int|
                    0 <= i < v.len() ==> pre_tokenizer_fits(#[trigger] v[i], (fuel - 1) as nat),
                None => false,
            }
        } else {
            cutter_fits(m)
        },
        None => false,
    }
}

fn check_cutter(m: &Vec<(String, String)>) -> (r: bool)
    ensures
        r == cutter_fits(pairs(m@)),
{
    let t = string_or_empty(m, "type");
    let t = t.as_str();
    let fixed: bool = same(t, "FixedLength") && match member(m, "length") {
        Some(n) => !same(n.as_str(), "0"),
        None => true,
    };
    same(t, "ByteLevel") || same(t, "Metaspace") || same(t, "WhitespaceSplit") || same(
        t,
        "Whitespace",
    ) || same(t, "BertPreTokenizer") || same(t, "Punctuation") || same(t, "Digits") || same(
        t,
        "UnicodeScripts",
    ) || same(t, "CharDelimiterSplit") || fixed || (same(t, "Split") && check_word_pattern(m))
}

fn check_pre_tokenizer(text: &str, fuel: usize) -> (r: bool)
    ensures
        r == pre_tokenizer_fits(text@, fuel as nat),
    decreases fuel,
{
    let m = match members_in(text) {
        Some(m) => m,
        None => {
            return false;
        },
    };
    if !same(string_or_empty(&m, "type").as_str(), "Sequence") {
        return check_cutter(&m);
    }
    if fuel == 0 {
        return false;
    }
    match items_at(&m, "pretokenizers") {
        Some(v) => {
            let ghost all = views(v@);
            let mut i: usize = 0;
            while i < v.len()
                invariant
                    i <= v.len(),
                    fuel > 0,
                    all == views(v@),
                    all.len() == v.len(),
                    members_of(text@) == Some(pairs(m@)),
                    type_of(pairs(m@)) == "Sequence"@,
                    member_items(pairs(m@), "pretokenizers"@) == Some(all),
                    forall|k: int|
                        0 <= k < i ==> pre_tokenizer_fits(#[trigger] all[k], (fuel - 1) as nat),
                decreases v.len() - i,
            {
                proof {
                    assert(all[i as int] == v[i as int]@);
                }
                if !check_pre_tokenizer(v[i].as_str(), fuel - 1) {
                    proof {
                        let w = member_items(pairs(m@), "pretokenizers"@)->0;
                        assert(!pre_tokenizer_fits(w[i as int], (fuel - 1) as nat));
                    }
                    return false;
                }
                i += 1;
            }
            true
        },
        None => false,
    }
}

/// A piece of a template for one text: that text, or a special token that the template defines. Both
/// are spelled as objects.
pub open spec fn piece_fits(text: Seq<char>, specials: Option<Members>) -> bool {
    &&& members_of(text) matches Some(m)
    &&& m.len() == 1
    &&& members_of(m[0].1) matches Some(s)
    &&& {
        ||| m[0].0 == "Sequence"@ && member_string(s, "id"@) == Some("A"@)
        ||| m[0].0 == "SpecialToken"@ && match member_string(s, "id"@) {
            Some(id) => specials matches Some(known) && lookup(known, id) is Some,
            None => false,
        }
    }
}

/// The template of a post-processor, where it has one, can be filled in.
pub open spec fn template_fits(m: Members) -> bool {
    lookup(m, "single"@) is Some ==> match member_items(m, "single"@) {
        Some(v) => forall|i: int|
            0 <= i < v.len() ==> piece_fits(
                #[trigger] v[i],
                member_members(m, "special_tokens"@),
            ),
        None => false,
    }
}

/// The template of a post-processor is the text alone.
pub open spec fn is_bare(m: Members) -> bool {
    &&& member_items(m, "single"@) matches Some(v)
    &&& v.len() == 1
    &&& members_of(v[0]) matches Some(p)
    &&& p.len() == 1 && p[0].0 == "Sequence"@
}

/// What a post-processor leaves of encodings, of which there is one where `one` says so: whether one
/// is left, or `None` where it cannot take them. A template takes one alone, and leaves one where it
/// is bare.
pub open spec fn left_by(text: Seq<char>, one: bool, fuel: nat) -> Option<bool>
    decreases fuel, 0int,
{
    match members_of(text) {
        Some(m) => {
            let template = lookup(m, "single"@) is Some;
            let left = one && (template ==> is_bare(m));
            if template && !(one && template_fits(m)) {
                None
            } else if lookup(m, "processors"@) is None {
                Some(left)
            } else {
                match member_items(m, "processors"@) {
                    Some(v) => if fuel > 0 {
                        left_by_all(v, v.len() as int, left, (fuel - 1) as nat)
                    } else {
                        None
                    },
                    None => None,
                }
            }
        },
        None => None,
    }
}

/// What the first `k` parts of a sequence leave, one after the other.
pub open spec fn left_by_all(v: Seq<Seq<char>>, k: int, one: bool, fuel: nat) -> Option<bool>
    decreases fuel, k,
{
    if k <= 0 {
        Some(one)
    } else {
        match left_by_all(v, k - 1, one, fuel) {
            Some(left) => left_by(v[k - 1], left, fuel),
            None => None,
        }
    }
}

/// The post-processor takes the encoding of any text.
pub open spec fn post_processor_fits(text: Seq<char>) -> bool {
    left_by(text, true, text.len()) is Some
}

proof fn lemma_refused_stays(v: Seq<Seq<char>>, i: int, k: int, one: bool, fuel: nat)
    requires
        i <= k,
        left_by_all(v, i, one, fuel) is None,
    ensures
        left_by_all(v, k, one, fuel) is None,
    decreases k - i,
{
    if i < k {
        lemma_refused_stays(v, i, k - 1, one, fuel);
    }
}

fn check_piece(text: &str, specials: &Option<Vec<(String, String)>>) -> (r: bool)
    ensures
        r == piece_fits(
            text@,
            match *specials {
                Some(v) => Some(pairs(v@)),
                None => None,
            },
        ),
{
    let m = match members_in(text) {
        Some(m) => m,
        None => {
            return false;
        },
    };
    proof {
        assert(pairs(m@).len() == m.len());
        reveal_strlit("Sequence");
        reveal_strlit("SpecialToken");
        assert("Sequence"@.len() != "SpecialToken"@.len());
    }
    if m.len() != 1 {
        return false;
    }
    proof {
        assert(pairs(m@)[0] == (m[0].0@, m[0].1@));
    }
    let s = match members_in(m[0].1.as_str()) {
        Some(s) => s,
        None => {
            return false;
        },
    };
    let id = match string_at(&s, "id") {
        Some(id) => id,
        None => {
            return false;
        },
    };
    if same(m[0].0.as_str(), "Sequence") {
        return same(id.as_str(), "A");
    }
    if !same(m[0].0.as_str(), "SpecialToken") {
        return false;
    }
    match specials {
        Some(known) => member(known, id.as_str()).is_some(),
        None => false,
    }
}

fn check_template(m: &Vec<(String, String)>) -> (r: bool)
    ensures
        r == template_fits(pairs(m@)),
{
    if member(m, "single").is_none() {
        return true;
    }
    match items_at(m, "single") {
        Some(v) => {
            let specials = members_at(m, "special_tokens");
            let ghost known = member_members(pairs(m@), "special_tokens"@);
            let ghost all = views(v@);
            let mut i: usize = 0;
            while i < v.len()
                invariant
                    i <= v.len(),
                    all == views(v@),
                    all.len() == v.len(),
                    lookup(pairs(m@), "single"@) is Some,
                    member_items(pairs(m@), "single"@) == Some(all),
                    known == member_members(pairs(m@), "special_tokens"@),
                    known == match specials {
                        Some(s) => Some(pairs(s@)),
                        None => None,
                    },
                    forall|k: int| 0 <= k < i ==> piece_fits(#[trigger] all[k], known),
                decreases v.len() - i,
            {
                proof {
                    assert(all[i as int] == v[i as int]@);
                }
                if !check_piece(v[i].as_str(), &specials) {
                    proof {
                        let w = member_items(pairs(m@), "single"@)->0;
                        assert(!piece_fits(w[i as int], known));
                    }
                    return false;
                }
                i += 1;
            }
            true
        },
        None => false,
    }
}

fn check_bare(m: &Vec<(String, String)>) -> (r: bool)
    ensures
        r == is_bare(pairs(m@)),
{
    let v = match items_at(m, "single") {
        Some(v) => v,
        None => {
            return false;
        },
    };
    proof {
        assert(views(v@).len() == v.len());
    }
    if v.len() != 1 {
        return false;
    }
    proof {
        assert(views(v@)[0] == v[0]@);
    }
    match members_in(v[0].as_str()) {
        Some(p) => {
            proof {
                assert(pairs(p@).len() == p.len());
                if p.len() == 1 {
                    assert(pairs(p@)[0] == (p[0].0@, p[0].1@));
                }
            }
            p.len() == 1 && same(p[0].0.as_str(), "Sequence")
        },
        None => false,
    }
}

fn follow_post_processor(text: &str, one: bool, fuel: usize) -> (r: Option<bool>)
    ensures
        r == left_by(text@, one, fuel as nat),
    decreases fuel,
{
    let m = match members_in(text) {
        Some(m) => m,
        None => {
            return None;
        },
    };
    let template: bool = member(&m, "single").is_some();
    if template && !(one && check_template(&m)) {
        return None;
    }
    let start: bool = one && (!template || check_bare(&m));
    if member(&m, "processors").is_none() {
        return Some(start);
    }
    if fuel == 0 {
        return None;
    }
    match items_at(&m, "processors") {
        Some(v) => {
            let ghost all = views(v@);
            let mut left: bool = start;
            let mut i: usize = 0;
            while i < v.len()
                invariant
                    i <= v.len(),
                    fuel > 0,
                    all == views(v@),
                    all.len() == v.len(),
                    left_by(text@, one, fuel as nat) == left_by_all(
                        all,
                        all.len() as int,
                        start,
                        (fuel - 1) as nat,
                    ),
                    left_by_all(all, i as int, start, (fuel - 1) as nat) == Some(left),
                decreases v.len() - i,
            {
                proof {
                    assert(all[i as int] == v[i as int]@);
                }
                match follow_post_processor(v[i].as_str(), left, fuel - 1) {
                    Some(next) => {
                        left = next;
                    },
                    None => {
                        proof {
                            lemma_refused_stays(
                                all,
                                i + 1,
                                all.len() as int,
                                start,
                                (fuel - 1) as nat,
                            );
                        }
                        return None;
                    },
                }
                i += 1;
            }
            Some(left)
        },
        None => None,
    }
}

fn check_post_processor(text: &str) -> (r: bool)
    ensures
        r == post_processor_fits(text@),
{
    follow_post_processor(text, true, text.unicode_len()).is_some()
}

/// A member that is `true` or `false`.
pub open spec fn flag_of(m: Members, name: Seq<char>) -> Option<bool> {
    match lookup(m, name) {
        Some(t) => if t == "true"@ {
            Some(true)
        } else if t == "false"@ {
            Some(false)
        } else {
            None
        },
        None => None,
    }
}

fn flag_at(m: &Vec<(String, String)>, name: &str) -> (r: Option<bool>)
    ensures
        r == flag_of(pairs(m@), name@),
{
    match member(m, name) {
        Some(t) => if same(t.as_str(), "true") {
            Some(true)
        } else if same(t.as_str(), "false") {
            Some(false)
        } else {
            None
        },
        None => None,
    }
}

/// What matters of an added token.
#[derive(Clone, Copy, Debug, PartialEq, Eq, Structural)]
pub struct AddedToken {
    /// It takes the white space before it.
    pub left: bool,
    /// It takes the white space behind it.
    pub right: bool,
    /// It is looked for in the normalized text.
    pub normalized: bool,
    /// It is more than white space.
    pub solid: bool,
}

/// The string is white space throughout.
pub open spec fn is_blank(s: Seq<char>) -> bool {
    forall|i: int| 0 <= i < s.len() ==> is_white(#[trigger] s[i])
}

fn blank(s: &str) -> (r: bool)
    ensures
        r == is_blank(s@),
{
    let v = chars_of(s);
    let mut i: usize = 0;
    while i < v.len()
        invariant
            i <= v.len(),
            v@ == s@,
            forall|k: int| 0 <= k < i ==> is_white(#[trigger] s@[k]),
        decreases v.len() - i,
    {
        if !white(v[i]) {
            return false;
        }
        i += 1;
    }
    true
}

/// The added token that an object spells.
pub open spec fn added_of(text: Seq<char>) -> Option<AddedToken> {
    match members_of(text) {
        Some(m) => match (
            flag_of(m, "lstrip"@),
            flag_of(m, "rstrip"@),
            flag_of(m, "normalized"@),
            member_string(m, "content"@),
        ) {
            (Some(left), Some(right), Some(normalized), Some(s)) => Some(
                AddedToken { left, right, normalized, solid: !is_blank(s) },
            ),
            _ => None,
        },
        None => None,
    }
}

fn read_added(text: &str) -> (r: Option<AddedToken>)
    ensures
        r == added_of(text@),
{
    let m = match members_in(text) {
        Some(m) => m,
        None => {
            return None;
        },
    };
    match (
        flag_at(&m, "lstrip"),
        flag_at(&m, "rstrip"),
        flag_at(&m, "normalized"),
        string_at(&m, "content"),
    ) {
        (Some(left), Some(right), Some(normalized), Some(s)) => {
            let solid: bool = !blank(s.as_str());
            Some(AddedToken { left, right, normalized, solid })
        },
        _ => None,
    }
}

/// Some of the first `k` tokens takes the white space behind it; of those that are looked for in the
/// normalized text, or of the others.
pub open spec fn any_right(v: Seq<Seq<char>>, k: int, normalized: bool) -> bool {
    exists|i: int|
        0 <= i < k && (added_of(#[trigger] v[i]) matches Some(t) && t.right && t.normalized
            == normalized)
}

/// Some of the first `k` tokens takes the white space before it and may be white space itself, as the
/// normalizer may make of any.
pub open spec fn any_loose(v: Seq<Seq<char>>, k: int, normalized: bool) -> bool {
    exists|i: int|
        0 <= i < k && (added_of(#[trigger] v[i]) matches Some(t) && t.left && t.normalized
            == normalized && (normalized || !t.solid))
}

/// Some of the first `k` tokens is looked for in the normalized text.
pub open spec fn any_normalized(v: Seq<Seq<char>>, k: int) -> bool {
    exists|i: int| 0 <= i < k && (added_of(#[trigger] v[i]) matches Some(t) && t.normalized)
}

/// Where a token takes the white space behind it, no token that takes the white space before it lies
/// in there.
pub open spec fn added_fit(v: Seq<Seq<char>>) -> bool {
    let n = v.len() as int;
    &&& forall|i: int| 0 <= i < v.len() ==> added_of(#[trigger] v[i]) is Some
    &&& !(any_right(v, n, false) && any_loose(v, n, false))
    &&& !(any_right(v, n, true) && any_loose(v, n, true))
}

/// The added tokens of a definition, where it has any.
pub open spec fn added_in(m: Members) -> Option<Seq<Seq<char>>> {
    if lookup(m, "added_tokens"@) is Some {
        member_items(m, "added_tokens"@)
    } else {
        Some(Seq::empty())
    }
}

/// Whether the tokens fit, and whether one of them is looked for in the normalized text.
fn check_added(v: &Vec<String>) -> (r: (bool, bool))
    ensures
        r.0 == added_fit(views(v@)),
        r.0 ==> r.1 == any_normalized(views(v@), v.len() as int),
{
    let ghost all = views(v@);
    let mut right: (bool, bool) = (false, false);
    let mut loose: (bool, bool) = (false, false);
    let mut normalized: bool = false;
    let mut i: usize = 0;
    while i < v.len()
        invariant
            i <= v.len(),
            all == views(v@),
            all.len() == v.len(),
            right.0 == any_right(all, i as int, false),
            right.1 == any_right(all, i as int, true),
            loose.0 == any_loose(all, i as int, false),
            loose.1 == any_loose(all, i as int, true),
            normalized == any_normalized(all, i as int),
            forall|k: int| 0 <= k < i ==> added_of(#[trigger] all[k]) is Some,
        decreases v.len() - i,
    {
        proof {
            assert(all[i as int] == v[i as int]@);
        }
        match read_added(v[i].as_str()) {
            Some(t) => {
                normalized = normalized || t.normalized;
                if t.normalized {
                    right = (right.0, right.1 || t.right);
                    loose = (loose.0, loose.1 || t.left);
                } else {
                    right = (right.0 || t.right, right.1);
                    loose = (loose.0 || (t.left && !t.solid), loose.1);
                }
            },
            None => {
                return (false, false);
            },
        }
        i += 1;
    }
    (!(right.0 && loose.0) && !(right.1 && loose.1), normalized)
}

/// A part of a definition that is not taken.
#[derive(Clone, Copy, Debug, PartialEq, Eq, Structural)]
pub enum Flaw {
    /// A member of the definition occurs twice.
    Repeated,
    AddedTokens,
    Model,
    Normalizer,
    PreTokenizer,
    PostProcessor,
}

/// The part of a definition fits, where the definition has it.
pub open spec fn part_fits(m: Members, name: Seq<char>, fits: spec_fn(Seq<char>) -> bool) -> bool {
    match lookup(m, name) {
        Some(text) => text == "null"@ || fits(text),
        None => true,
    }
}

/// The first flaw of a definition with the given members.
pub open spec fn flaw_in(bytes: Seq<u8>, m: Members) -> Option<Flaw> {
    if outer_names(bytes) != m.len() {
        Some(Flaw::Repeated)
    } else {
        match added_in(m) {
            Some(v) => if !added_fit(v) {
                Some(Flaw::AddedTokens)
            } else if !part_fits(m, "model"@, |t: Seq<char>| model_fits(t)) {
                Some(Flaw::Model)
            } else if !part_fits(
                m,
                "normalizer"@,
                |t: Seq<char>| normalizer_fits(t, any_normalized(v, v.len() as int), t.len()),
            ) {
                Some(Flaw::Normalizer)
            } else if !part_fits(
                m,
                "pre_tokenizer"@,
                |t: Seq<char>| pre_tokenizer_fits(t, t.len()),
            ) {
                Some(Flaw::PreTokenizer)
            } else if !part_fits(m, "post_processor"@, |t: Seq<char>| post_processor_fits(t)) {
                Some(Flaw::PostProcessor)
            } else {
                None
            },
            None => Some(Flaw::AddedTokens),
        }
    }
}

/// The bytes are a JSON object, and every part that a tokenizer is made of is one that this library
/// takes.
pub open spec fn is_sound(bytes: Seq<u8>) -> bool {
    json_members(bytes) matches Some(m) && flaw_in(bytes, m) is None
}

impl Flaw {
    pub open spec fn text(self) -> Seq<char> {
        match self {
            Flaw::Repeated => "a member of the definition occurs twice"@,
            Flaw::AddedTokens => "the added tokens are not supported"@,
            Flaw::Model => "the model is not supported"@,
            Flaw::Normalizer => "the normalizer is not supported"@,
            Flaw::PreTokenizer => "the pre-tokenizer is not supported"@,
            Flaw::PostProcessor => "the post-processor is not supported"@,
        }
    }

    /// The flaw in words.
    pub fn message(self) -> (r: String)
        ensures
            r@ == self.text(),
    {
        match self {
            Flaw::Repeated => String::from_str("a member of the definition occurs twice"),
            Flaw::AddedTokens => String::from_str("the added tokens are not supported"),
            Flaw::Model => String::from_str("the model is not supported"),
            Flaw::Normalizer => String::from_str("the normalizer is not supported"),
            Flaw::PreTokenizer => String::from_str("the pre-tokenizer is not supported"),
            Flaw::PostProcessor => String::from_str("the post-processor is not supported"),
        }
    }
}

fn is_null(text: &str) -> (r: bool)
    ensures
        r == (text@ == "null"@),
{
    same(text, "null")
}

/// The first flaw of a definition with the given members.
fn find_flaw(bytes: &[u8], m: &Vec<(String, String)>) -> (r: Option<Flaw>)
    ensures
        r == flaw_in(bytes@, pairs(m@)),
{
    proof {
        assert(pairs(m@).len() == m.len());
    }
    if count_outer_names(bytes) != m.len() {
        return Some(Flaw::Repeated);
    }
    let added: Vec<String> = if member(m, "added_tokens").is_some() {
        match items_at(m, "added_tokens") {
            Some(v) => v,
            None => {
                return Some(Flaw::AddedTokens);
            },
        }
    } else {
        Vec::new()
    };
    proof {
        assert(added_in(pairs(m@)) == Some(views(added@)));
        assert(views(added@).len() == added.len());
    }
    let (fits, keep) = check_added(&added);
    if !fits {
        return Some(Flaw::AddedTokens);
    }
    if let Some(t) = member(m, "model") {
        if !is_null(t.as_str()) && !check_model(t.as_str()) {
            return Some(Flaw::Model);
        }
    }
    if let Some(t) = member(m, "normalizer") {
        if !is_null(t.as_str()) && !check_normalizer(t.as_str(), keep, t.as_str().unicode_len()) {
            return Some(Flaw::Normalizer);
        }
    }
    if let Some(t) = member(m, "pre_tokenizer") {
        if !is_null(t.as_str()) && !check_pre_tokenizer(t.as_str(), t.as_str().unicode_len()) {
            return Some(Flaw::PreTokenizer);
        }
    }
    if let Some(t) = member(m, "post_processor") {
        if !is_null(t.as_str()) && !check_post_processor(t.as_str()) {
            return Some(Flaw::PostProcessor);
        }
    }
    None
}

/// Tests a definition; the error says why it is not sound.
pub fn check_definition(bytes: &[u8]) -> (r: Result<(), String>)
    ensures
        r is Ok <==> is_sound(bytes@),
        r matches Err(e) ==> match json_members(bytes@) {
            Some(m) => flaw_in(bytes@, m) matches Some(f) && e@ == f.text(),
            None => true,
        },
{
    match read_members(bytes) {
        Ok(m) => match find_flaw(bytes, &m) {
            Some(f) => Err(f.message()),
            None => Ok(()),
        },
        Err(e) => Err(e),
    }
}

} // verus!
