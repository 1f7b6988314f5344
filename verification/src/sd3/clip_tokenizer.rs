//! CLIP tokenizers of stock snapshots: the canonical `tokenizer.json` where there is one, and
//! otherwise the same tokenizer, defined from `vocab.json` and `merges.txt`.
use crate::error::Error;
use crate::text::{chars_of, decimal, decimal_of, join, same};
use crate::tokenizer::{encodes, is_definition, load_tokenizer, TextTokenizer};
use vstd::prelude::*;
use vstd::string::*;
use vstd::utf8::encode_utf8;

verus! {

/// What a tokenizer directory holds.
#[derive(Clone, Debug)]
pub struct ClipTokenizerFiles {
    /// The bytes of `tokenizer.json`, where it is there.
    pub tokenizer_json: Option<Vec<u8>>,
    /// The tokens and ids of `vocab.json` and the pairs of `merges.txt`, where both are there.
    pub vocab_and_merges: Option<(Vec<(String, u32)>, Vec<(String, String)>)>,
}

pub open spec fn hex_char(d: int) -> char {
    if d < 10 {
        (48 + d) as char
    } else {
        (87 + d) as char
    }
}

/// A character inside a JSON string.
pub open spec fn escaped_char(c: char) -> Seq<char> {
    if c == '"' {
        seq!['\\', '"']
    } else if c == '\\' {
        seq!['\\', '\\']
    } else if (c as u32) < 0x20 {
        seq!['\\', 'u', '0', '0', hex_char(c as u32 as int / 16), hex_char(c as u32 as int % 16)]
    } else {
        seq![c]
    }
}

/// The characters of a JSON string.
pub open spec fn escaped(s: Seq<char>) -> Seq<char>
    decreases s.len(),
{
    if s.len() == 0 {
        Seq::empty()
    } else {
        escaped(s.drop_last()) + escaped_char(s.last())
    }
}

/// `s` as a JSON string.
pub open spec fn quoted(s: Seq<char>) -> Seq<char> {
    "\""@ + escaped(s) + "\""@
}

fn hex(d: u32) -> (r: &'static str)
    requires
        d < 16,
    ensures
        r@ == seq![hex_char(d as int)],
{
    proof {
        reveal_strlit("0");
        reveal_strlit("1");
        reveal_strlit("2");
        reveal_strlit("3");
        reveal_strlit("4");
        reveal_strlit("5");
        reveal_strlit("6");
        reveal_strlit("7");
        reveal_strlit("8");
        reveal_strlit("9");
        reveal_strlit("a");
        reveal_strlit("b");
        reveal_strlit("c");
        reveal_strlit("d");
        reveal_strlit("e");
        reveal_strlit("f");
    }
    let r = match d {
        0 => "0",
        1 => "1",
        2 => "2",
        3 => "3",
        4 => "4",
        5 => "5",
        6 => "6",
        7 => "7",
        8 => "8",
        9 => "9",
        10 => "a",
        11 => "b",
        12 => "c",
        13 => "d",
        14 => "e",
        _ => "f",
    };
    proof {
        assert(r@ =~= seq![hex_char(d as int)]);
    }
    r
}

/// Appends `s` as a JSON string.
fn push_quoted(out: &mut String, s: &str)
    ensures
        final(out)@ == old(out)@ + quoted(s@),
{
    let v = chars_of(s);
    let ghost start = out@;
    proof {
        reveal_strlit("\\\"");
        reveal_strlit("\\\\");
        reveal_strlit("\\u00");
        assert("\\\""@ =~= seq!['\\', '"']);
        assert("\\\\"@ =~= seq!['\\', '\\']);
        assert("\\u00"@ =~= seq!['\\', 'u', '0', '0']);
    }
    out.append("\"");
    let mut i: usize = 0;
    proof {
        assert(s@.take(0) =~= Seq::<char>::empty());
        assert(out@ =~= start + "\""@ + escaped(s@.take(0)));
    }
    while i < v.len()
        invariant
            i <= v.len(),
            v@ == s@,
            "\\\""@ == seq!['\\', '"'],
            "\\\\"@ == seq!['\\', '\\'],
            "\\u00"@ == seq!['\\', 'u', '0', '0'],
            out@ == start + "\""@ + escaped(s@.take(i as int)),
        decreases v.len() - i,
    {
        let ghost before = out@;
        let c = v[i];
        let u: u32 = c as u32;
        if c == '"' {
            out.append("\\\"");
        } else if c == '\\' {
            out.append("\\\\");
        } else if u < 0x20 {
            out.append("\\u00");
            out.append(hex(u / 16));
            out.append(hex(u % 16));
            proof {
                assert(out@ =~= before + escaped_char(c));
            }
        } else {
            out.append(s.substring_char(i, i + 1));
            proof {
                assert(s@.subrange(i as int, i + 1) =~= seq![c]);
            }
        }
        proof {
            assert(out@ =~= before + escaped_char(c));
            assert(s@.take(i + 1).drop_last() =~= s@.take(i as int));
            assert(s@.take(i + 1).last() == c);
            assert(out@ =~= start + "\""@ + escaped(s@.take(i + 1)));
        }
        i += 1;
    }
    proof {
        assert(s@.take(s@.len() as int) =~= s@);
    }
    out.append("\"");
    proof {
        assert(out@ =~= start + quoted(s@));
    }
}

/// The members of the vocabulary object, for the first `k` tokens.
pub open spec fn vocab_text(v: Seq<(String, u32)>, k: int) -> Seq<char>
    decreases k,
{
    if k <= 0 {
        Seq::empty()
    } else {
        vocab_text(v, k - 1) + (if k > 1 {
            ","@
        } else {
            ""@
        }) + quoted(v[k - 1].0@) + ":"@ + decimal(v[k - 1].1 as nat)
    }
}

/// The elements of the merges array, for the first `k` pairs.
pub open spec fn merges_text(v: Seq<(String, String)>, k: int) -> Seq<char>
    decreases k,
{
    if k <= 0 {
        Seq::empty()
    } else {
        merges_text(v, k - 1) + (if k > 1 {
            ","@
        } else {
            ""@
        }) + "["@ + quoted(v[k - 1].0@) + ","@ + quoted(v[k - 1].1@) + "]"@
    }
}

/// The definition of the CLIP tokenizer: byte-level BPE with the `</w>` word suffix over the given
/// vocabulary and merges; text normalised to NFC, single spaces and lower case, split into CLIP's
/// words; wrapped in the start and end tokens, which are special.
pub open spec fn clip_definition(
    vocab: Seq<(String, u32)>,
    merges: Seq<(String, String)>,
    bos: u32,
    eos: u32,
) -> Seq<char> {
    "{\"version\":\"1.0\",\"truncation\":null,\"padding\":null,\"added_tokens\":[{\"id\":"@
        + decimal(bos as nat)
        + ",\"content\":\"<|startoftext|>\",\"single_word\":false,\"lstrip\":false,\"rstrip\":false,\"normalized\":true,\"special\":true},{\"id\":"@
        + decimal(eos as nat)
        + ",\"content\":\"<|endoftext|>\",\"single_word\":false,\"lstrip\":false,\"rstrip\":false,\"normalized\":false,\"special\":true}],\"normalizer\":{\"type\":\"Sequence\",\"normalizers\":[{\"type\":\"NFC\"},{\"type\":\"Replace\",\"pattern\":{\"Regex\":\"\\\\s+\"},\"content\":\" \"},{\"type\":\"Lowercase\"}]},\"pre_tokenizer\":{\"type\":\"Sequence\",\"pretokenizers\":[{\"type\":\"Split\",\"pattern\":{\"Regex\":\"'s|'t|'re|'ve|'m|'ll|'d|[\\\\p{L}]+|[\\\\p{N}]|[^\\\\s\\\\p{L}\\\\p{N}]+\"},\"behavior\":\"Removed\",\"invert\":true},{\"type\":\"ByteLevel\",\"add_prefix_space\":false,\"trim_offsets\":true,\"use_regex\":false}]},\"post_processor\":{\"type\":\"RobertaProcessing\",\"sep\":[\"<|endoftext|>\","@
        + decimal(eos as nat) + "],\"cls\":[\"<|startoftext|>\","@ + decimal(bos as nat)
        + "],\"trim_offsets\":false,\"add_prefix_space\":false},\"decoder\":{\"type\":\"ByteLevel\",\"add_prefix_space\":true,\"trim_offsets\":true,\"use_regex\":true},\"model\":{\"type\":\"BPE\",\"dropout\":null,\"unk_token\":\"<|endoftext|>\",\"continuing_subword_prefix\":\"\",\"end_of_word_suffix\":\"</w>\",\"fuse_unk\":false,\"byte_fallback\":false,\"ignore_merges\":false,\"vocab\":{"@
        + vocab_text(vocab, vocab.len() as int) + "},\"merges\":["@ + merges_text(
        merges,
        merges.len() as int,
    ) + "]}}"@
}

/// Entry `i` is the last of token `t`, which is the one that counts.
pub open spec fn last_of(v: Seq<(String, u32)>, t: Seq<char>, i: int) -> bool {
    0 <= i < v.len() && v[i].0@ == t && forall|j: int| i < j < v.len() ==> (#[trigger] v[j]).0@ != t
}

fn find_token(v: &Vec<(String, u32)>, t: &str) -> (r: Option<u32>)
    ensures
        match r {
            Some(id) => exists|i: int| #[trigger] last_of(v@, t@, i) && v[i].1 == id,
            None => forall|j: int| 0 <= j < v.len() ==> (#[trigger] v[j]).0@ != t@,
        },
{
    let mut i: usize = v.len();
    while i > 0
        invariant
            i <= v.len(),
            forall|j: int| i <= j < v.len() ==> (#[trigger] v[j]).0@ != t@,
        decreases i,
    {
        i -= 1;
        if same(v[i].0.as_str(), t) {
            proof {
                assert(last_of(v@, t@, i as int));
            }
            return Some(v[i].1);
        }
    }
    None
}

/// Writes out the definition of a CLIP tokenizer.
pub fn define_clip_tokenizer(
    vocab: &Vec<(String, u32)>,
    merges: &Vec<(String, String)>,
    bos: u32,
    eos: u32,
) -> (r: String)
    ensures
        r@ == clip_definition(vocab@, merges@, bos, eos),
{
    let mut s = String::from_str(
        "{\"version\":\"1.0\",\"truncation\":null,\"padding\":null,\"added_tokens\":[{\"id\":",
    );
    s.append(decimal_of(bos as usize).as_str());
    s.append(
        ",\"content\":\"<|startoftext|>\",\"single_word\":false,\"lstrip\":false,\"rstrip\":false,\"normalized\":true,\"special\":true},{\"id\":",
    );
    s.append(decimal_of(eos as usize).as_str());
    s.append(
        ",\"content\":\"<|endoftext|>\",\"single_word\":false,\"lstrip\":false,\"rstrip\":false,\"normalized\":false,\"special\":true}],\"normalizer\":{\"type\":\"Sequence\",\"normalizers\":[{\"type\":\"NFC\"},{\"type\":\"Replace\",\"pattern\":{\"Regex\":\"\\\\s+\"},\"content\":\" \"},{\"type\":\"Lowercase\"}]},\"pre_tokenizer\":{\"type\":\"Sequence\",\"pretokenizers\":[{\"type\":\"Split\",\"pattern\":{\"Regex\":\"'s|'t|'re|'ve|'m|'ll|'d|[\\\\p{L}]+|[\\\\p{N}]|[^\\\\s\\\\p{L}\\\\p{N}]+\"},\"behavior\":\"Removed\",\"invert\":true},{\"type\":\"ByteLevel\",\"add_prefix_space\":false,\"trim_offsets\":true,\"use_regex\":false}]},\"post_processor\":{\"type\":\"RobertaProcessing\",\"sep\":[\"<|endoftext|>\",",
    );
    s.append(decimal_of(eos as usize).as_str());
    s.append("],\"cls\":[\"<|startoftext|>\",");
    s.append(decimal_of(bos as usize).as_str());
    s.append(
        "],\"trim_offsets\":false,\"add_prefix_space\":false},\"decoder\":{\"type\":\"ByteLevel\",\"add_prefix_space\":true,\"trim_offsets\":true,\"use_regex\":true},\"model\":{\"type\":\"BPE\",\"dropout\":null,\"unk_token\":\"<|endoftext|>\",\"continuing_subword_prefix\":\"\",\"end_of_word_suffix\":\"</w>\",\"fuse_unk\":false,\"byte_fallback\":false,\"ignore_merges\":false,\"vocab\":{",
    );
    let ghost head = s@;
    proof {
        reveal_strlit("");
        assert(""@ =~= Seq::<char>::empty());
        assert(head + vocab_text(vocab@, 0) =~= head);
    }
    let mut i: usize = 0;
    while i < vocab.len()
        invariant
            i <= vocab.len(),
            ""@ == Seq::<char>::empty(),
            s@ == head + vocab_text(vocab@, i as int),
        decreases vocab.len() - i,
    {
        if i > 0 {
            s.append(",");
        }
        push_quoted(&mut s, vocab[i].0.as_str());
        s.append(":");
        s.append(decimal_of(vocab[i].1 as usize).as_str());
        i += 1;
        proof {
            assert(s@ =~= head + vocab_text(vocab@, i as int));
        }
    }
    s.append("},\"merges\":[");
    let ghost body = s@;
    proof {
        assert(body + merges_text(merges@, 0) =~= body);
    }
    let mut j: usize = 0;
    while j < merges.len()
        invariant
            j <= merges.len(),
            ""@ == Seq::<char>::empty(),
            s@ == body + merges_text(merges@, j as int),
        decreases merges.len() - j,
    {
        if j > 0 {
            s.append(",");
        }
        s.append("[");
        push_quoted(&mut s, merges[j].0.as_str());
        s.append(",");
        push_quoted(&mut s, merges[j].1.as_str());
        s.append("]");
        j += 1;
        proof {
            assert(s@ =~= body + merges_text(merges@, j as int));
        }
    }
    s.append("]}}");
    proof {
        assert(s@ =~= clip_definition(vocab@, merges@, bos, eos));
    }
    s
}

/// Why a tokenizer cannot be synthesised.
#[derive(Clone, Debug)]
pub enum SynthesisError {
    /// A merge names, or joins to, a token that the vocabulary does not have.
    OutOfVocabulary { token: String },
    MissingStart,
    MissingEnd,
    /// The tokenizer's parser refuses the definition.
    Rejected { reason: String },
}

/// The token is in the vocabulary, the last time with this id.
pub open spec fn has_id(v: Seq<(String, u32)>, t: Seq<char>, id: u32) -> bool {
    exists|i: int| #[trigger] last_of(v, t, i) && v[i].1 == id
}

pub open spec fn lacks(v: Seq<(String, u32)>, t: Seq<char>) -> bool {
    forall|j: int| 0 <= j < v.len() ==> (#[trigger] v[j]).0@ != t
}

/// The token that keeps a merge out: the first of its parts and their join that the vocabulary lacks.
pub open spec fn unknown_in(v: Seq<(String, u32)>, a: Seq<char>, b: Seq<char>) -> Option<Seq<char>> {
    if lacks(v, a) {
        Some(a)
    } else if lacks(v, b) {
        Some(b)
    } else if lacks(v, a + b) {
        Some(a + b)
    } else {
        None
    }
}

/// The token that keeps the first bad merge from `k` on out.
pub open spec fn unknown_from(
    v: Seq<(String, u32)>,
    m: Seq<(String, String)>,
    k: int,
) -> Option<Seq<char>>
    decreases m.len() - k,
{
    if k < 0 || k >= m.len() {
        None
    } else if unknown_in(v, m[k].0@, m[k].1@) is Some {
        unknown_in(v, m[k].0@, m[k].1@)
    } else {
        unknown_from(v, m, k + 1)
    }
}

/// A number by which tokens are told apart.
pub open spec fn fingerprint(s: Seq<char>, k: int) -> int
    decreases k,
{
    if k <= 0 {
        0
    } else {
        (fingerprint(s, k - 1) * 31 + s[k - 1] as u32) % 0x1_0000_0000
    }
}

fn fingerprint_of(s: &str) -> (r: u64)
    ensures
        r == fingerprint(s@, s@.len() as int),
{
    let v = chars_of(s);
    let mut h: u64 = 0;
    let mut i: usize = 0;
    while i < v.len()
        invariant
            i <= v.len(),
            v@ == s@,
            h < 0x1_0000_0000,
            h == fingerprint(s@, i as int),
        decreases v.len() - i,
    {
        let c: u32 = v[i] as u32;
        h = (h * 31 + c as u64) % 0x1_0000_0000;
        i += 1;
    }
    h
}

/// The positions of a vocabulary's tokens, by their fingerprints.
struct Index {
    buckets: Vec<Vec<usize>>,
}

impl Index {
    /// Position `j` is found where the fingerprint of its token points.
    spec fn finds(&self, v: Seq<(String, u32)>, j: int) -> bool {
        let t = v[j].0@;
        let slot = fingerprint(t, t.len() as int) % self.buckets.len() as int;
        exists|x: int|
            0 <= x < self.buckets[slot].len() && (#[trigger] self.buckets[slot][x]) == j
    }

    /// The index is that of the first `k` tokens.
    spec fn is_of(&self, v: Seq<(String, u32)>, k: int) -> bool {
        &&& self.buckets.len() > 0
        &&& forall|b: int, x: int|
            0 <= b < self.buckets.len() && 0 <= x < self.buckets[b].len() ==> (
            #[trigger] self.buckets[b][x]) < v.len()
        &&& forall|j: int| 0 <= j < k ==> #[trigger] self.finds(v, j)
    }

    fn new(v: &Vec<(String, u32)>) -> (r: Self)
        ensures
            r.is_of(v@, v.len() as int),
    {
        let n: usize = if v.len() > 0 {
            v.len()
        } else {
            1
        };
        let mut buckets: Vec<Vec<usize>> = Vec::new();
        while buckets.len() < n
            invariant
                buckets.len() <= n,
                forall|b: int| 0 <= b < buckets.len() ==> (#[trigger] buckets[b]).len() == 0,
            decreases n - buckets.len(),
        {
            buckets.push(Vec::new());
        }
        let mut index = Index { buckets };
        let mut j: usize = 0;
        while j < v.len()
            invariant
                j <= v.len(),
                index.buckets.len() == n,
                index.is_of(v@, j as int),
            decreases v.len() - j,
        {
            let slot: usize = (fingerprint_of(v[j].0.as_str()) % n as u64) as usize;
            let ghost before = index;
            index.buckets[slot].push(j);
            proof {
                assert forall|k: int| 0 <= k < j + 1 implies #[trigger] index.finds(v@, k) by {
                    let t = v@[k].0@;
                    let s = fingerprint(t, t.len() as int) % n as int;
                    assert(index.buckets.len() == n && 0 <= s < n);
                    assert(s == fingerprint(t, t.len() as int) % index.buckets.len() as int);
                    if s == slot {
                        assert(index.buckets[s]@ == before.buckets[s]@.push(j));
                    } else {
                        assert(index.buckets[s] == before.buckets[s]);
                    }
                    if k < j {
                        assert(before.finds(v@, k));
                        let x = choose|x: int|
                            0 <= x < before.buckets[s].len() && (#[trigger] before.buckets[s][x])
                                == k;
                        assert(0 <= x < index.buckets[s].len());
                        assert(index.buckets[s][x] == k);
                    } else {
                        assert(s == slot);
                        let last = index.buckets[s].len() - 1;
                        assert(index.buckets[s]@[last] == k);
                        assert(index.buckets[s][last] == k);
                    }
                }
            }
            j += 1;
        }
        index
    }

    /// Whether the vocabulary has the token.
    fn has(&self, v: &Vec<(String, u32)>, t: &str) -> (r: bool)
        requires
            self.is_of(v@, v.len() as int),
        ensures
            r == !lacks(v@, t@),
    {
        let n: usize = self.buckets.len();
        let slot: usize = (fingerprint_of(t) % n as u64) as usize;
        let bucket = &self.buckets[slot];
        let mut x: usize = 0;
        while x < bucket.len()
            invariant
                x <= bucket.len(),
                slot < self.buckets.len(),
                *bucket == self.buckets[slot as int],
                self.is_of(v@, v.len() as int),
                forall|y: int| 0 <= y < x ==> v[(#[trigger] bucket[y]) as int].0@ != t@,
            decreases bucket.len() - x,
        {
            proof {
                assert(self.buckets[slot as int][x as int] < v.len());
            }
            if same(v[bucket[x]].0.as_str(), t) {
                return true;
            }
            x += 1;
        }
        proof {
            assert forall|j: int| 0 <= j < v.len() implies (#[trigger] v[j]).0@ != t@ by {
                if v[j].0@ == t@ {
                    assert(self.finds(v@, j));
                }
            }
        }
        false
    }
}

fn find_unknown(v: &Vec<(String, u32)>, m: &Vec<(String, String)>) -> (r: Option<String>)
    ensures
        match r {
            Some(s) => unknown_from(v@, m@, 0) == Some(s@),
            None => unknown_from(v@, m@, 0) is None,
        },
{
    let known = Index::new(v);
    let mut k: usize = 0;
    while k < m.len()
        invariant
            k <= m.len(),
            known.is_of(v@, v.len() as int),
            unknown_from(v@, m@, 0) == unknown_from(v@, m@, k as int),
        decreases m.len() - k,
    {
        let (a, b) = (&m[k].0, &m[k].1);
        if !known.has(v, a.as_str()) {
            return Some(a.clone());
        }
        if !known.has(v, b.as_str()) {
            return Some(b.clone());
        }
        let ab = join(a.as_str(), b.as_str());
        if !known.has(v, ab.as_str()) {
            return Some(ab);
        }
        k += 1;
    }
    None
}

/// What synthesising the CLIP tokenizer of a vocabulary and merges gives: the tokenizer of its
/// definition, with the ids that the vocabulary gives the start and end tokens. The merges are looked
/// at before the two tokens.
pub open spec fn is_synthesis(
    r: Result<TextTokenizer, SynthesisError>,
    vocab: Seq<(String, u32)>,
    merges: Seq<(String, String)>,
) -> bool {
    let (start, end) = ("<|startoftext|>"@, "<|endoftext|>"@);
    match unknown_from(vocab, merges, 0) {
        Some(t) => r matches Err(SynthesisError::OutOfVocabulary { token }) && token@ == t,
        None => if lacks(vocab, start) {
            r matches Err(SynthesisError::MissingStart)
        } else if lacks(vocab, end) {
            r matches Err(SynthesisError::MissingEnd)
        } else {
            exists|bos: u32, eos: u32|
                has_id(vocab, start, bos) && has_id(vocab, end, eos) && is_made_from(
                    r,
                    #[trigger] encode_utf8(clip_definition(vocab, merges, bos, eos)),
                )
        },
    }
}

/// What the parser makes of a definition.
pub open spec fn is_made_from(r: Result<TextTokenizer, SynthesisError>, bytes: Seq<u8>) -> bool {
    if is_definition(bytes) && encodes(bytes) {
        r matches Ok(t) && t@ == bytes
    } else {
        r matches Err(SynthesisError::Rejected { .. })
    }
}

/// Synthesises the CLIP tokenizer of a vocabulary and merges.
pub fn synthesize_clip_tokenizer(vocab: &Vec<(String, u32)>, merges: &Vec<(String, String)>) -> (r:
    Result<TextTokenizer, SynthesisError>)
    ensures
        is_synthesis(r, vocab@, merges@),
{
    if let Some(token) = find_unknown(vocab, merges) {
        return Err(SynthesisError::OutOfVocabulary { token });
    }
    let bos: u32 = match find_token(vocab, "<|startoftext|>") {
        Some(id) => id,
        None => {
            return Err(SynthesisError::MissingStart);
        },
    };
    let eos: u32 = match find_token(vocab, "<|endoftext|>") {
        Some(id) => id,
        None => {
            return Err(SynthesisError::MissingEnd);
        },
    };
    let json = define_clip_tokenizer(vocab, merges, bos, eos);
    proof {
        assert(has_id(vocab@, "<|startoftext|>"@, bos));
        assert(has_id(vocab@, "<|endoftext|>"@, eos));
    }
    let bytes = json.as_str().as_bytes();
    proof {
        assert(bytes@ == encode_utf8(clip_definition(vocab@, merges@, bos, eos)));
    }
    match load_tokenizer(bytes) {
        Ok(t) => Ok(t),
        Err(reason) => Err(SynthesisError::Rejected { reason }),
    }
}

impl SynthesisError {
    pub open spec fn text(&self) -> Seq<char> {
        match *self {
            SynthesisError::OutOfVocabulary { token } => "Token `"@ + token@ + "` out of vocabulary"@,
            SynthesisError::MissingStart => "vocab.json missing <|startoftext|>"@,
            SynthesisError::MissingEnd => "vocab.json missing <|endoftext|>"@,
            SynthesisError::Rejected { reason } => reason@,
        }
    }

    /// The error in words.
    pub fn message(&self) -> (r: String)
        ensures
            r@ == self.text(),
    {
        match self {
            SynthesisError::OutOfVocabulary { token } => {
                let mut s = join("Token `", token.as_str());
                s.append("` out of vocabulary");
                s
            },
            SynthesisError::MissingStart => String::from_str("vocab.json missing <|startoftext|>"),
            SynthesisError::MissingEnd => String::from_str("vocab.json missing <|endoftext|>"),
            SynthesisError::Rejected { reason } => reason.clone(),
        }
    }
}

/// That a `tokenizer.json` is no definition, for the reason that its parser gives.
pub open spec fn load_text(label: Seq<char>, reason: Seq<char>) -> Seq<char> {
    "sd3: load "@ + label + " tokenizer.json: "@ + reason
}

/// That a tokenizer cannot be synthesised, and why.
pub open spec fn synthesis_text(label: Seq<char>, dir: Seq<char>, reason: Seq<char>) -> Seq<char> {
    "sd3: synthesize "@ + label + " CLIP tokenizer from vocab.json+merges.txt in "@ + dir + ": "@
        + reason
}

/// Loads the CLIP tokenizer of a directory: its `tokenizer.json` where it has one, and otherwise the
/// tokenizer synthesised from `vocab.json` and `merges.txt`. `label` and `dir` name the tokenizer in
/// errors.
pub fn load_clip_tokenizer(files: &ClipTokenizerFiles, dir: &str, label: &str) -> (r: Result<
    TextTokenizer,
    Error,
>)
    ensures
        match files.tokenizer_json {
            Some(bytes) => match r {
                Ok(t) => is_definition(bytes@) && encodes(bytes@) && t@ == bytes@,
                Err(e) => (!is_definition(bytes@) || !encodes(bytes@)) && exists|reason: Seq<char>|
                    e.says(#[trigger] load_text(label@, reason)),
            },
            None => match files.vocab_and_merges {
                Some((v, m)) => exists|s: Result<TextTokenizer, SynthesisError>|
                    #[trigger] is_synthesis(s, v@, m@) && match s {
                        Ok(_) => r matches Ok(t) && s == Ok::<TextTokenizer, SynthesisError>(t),
                        Err(e) => r matches Err(m) && m.says(
                            synthesis_text(label@, dir@, e.text()),
                        ),
                    },
                None => r matches Err(e) && e.says(
                    "sd3: "@ + label@ + " tokenizer dir "@ + dir@
                        + " has neither tokenizer.json nor vocab.json+merges.txt"@,
                ),
            },
        },
{
    if let Some(bytes) = &files.tokenizer_json {
        return match load_tokenizer(bytes.as_slice()) {
            Ok(t) => Ok(t),
            Err(reason) => {
                let mut m = join("sd3: load ", label);
                m.append(" tokenizer.json: ");
                m.append(reason.as_str());
                proof {
                    assert(m@ == load_text(label@, reason@));
                }
                Err(Error::Msg(m))
            },
        };
    }
    if let Some((vocab, merges)) = &files.vocab_and_merges {
        return match synthesize_clip_tokenizer(vocab, merges) {
            Ok(t) => Ok(t),
            Err(e) => {
                let mut m = join("sd3: synthesize ", label);
                m.append(" CLIP tokenizer from vocab.json+merges.txt in ");
                m.append(dir);
                m.append(": ");
                m.append(e.message().as_str());
                Err(Error::Msg(m))
            },
        };
    }
    let mut m = join("sd3: ", label);
    m.append(" tokenizer dir ");
    m.append(dir);
    m.append(" has neither tokenizer.json nor vocab.json+merges.txt");
    Err(Error::Msg(m))
}

/// The digit that a character is, where it is a hexadecimal one.
pub open spec fn hex_value(c: char) -> int {
    if '0' <= c && c <= '9' {
        c as u32 - '0' as u32
    } else {
        c as u32 - 'a' as u32 + 10
    }
}

/// Inside a JSON string a quote and a backslash stand behind a backslash, a control character is
/// spelled by its code in four hexadecimal digits, and every other character stands for itself.
pub proof fn law_escapes_say_the_character(c: char)
    ensures
        c == '"' || c == '\\' ==> escaped_char(c) == seq!['\\', c],
        (c as u32) < 0x20 ==> {
            let e = escaped_char(c);
            &&& e.len() == 6
            &&& e.take(4) == seq!['\\', 'u', '0', '0']
            &&& 0 <= hex_value(e[4]) < 16 && 0 <= hex_value(e[5]) < 16
            &&& 16 * hex_value(e[4]) + hex_value(e[5]) == c as u32
        },
        c != '"' && c != '\\' && (c as u32) >= 0x20 ==> escaped_char(c) == seq![c],
        forall|i: int|
            0 <= i < escaped_char(c).len() ==> (#[trigger] escaped_char(c)[i]) as u32 >= 0x20,
{
    if (c as u32) < 0x20 {
        assert(escaped_char(c).take(4) =~= seq!['\\', 'u', '0', '0']);
    }
}

/// A string is escaped character by character.
pub proof fn law_strings_are_escaped_by_character(a: Seq<char>, b: Seq<char>, c: char)
    ensures
        escaped(a + b) == escaped(a) + escaped(b),
        escaped(seq![c]) == escaped_char(c),
        quoted(a) == seq!['"'] + escaped(a) + seq!['"'],
    decreases b.len(),
{
    reveal_strlit("\"");
    assert("\""@ =~= seq!['"']);
    let one = seq![c];
    assert(one.drop_last() =~= Seq::<char>::empty());
    assert(escaped(Seq::<char>::empty()) =~= Seq::<char>::empty());
    assert(escaped(one) == escaped(one.drop_last()) + escaped_char(one.last()));
    assert(escaped(one) =~= escaped_char(c));
    if b.len() == 0 {
        assert(a + b =~= a);
        assert(escaped(a) + escaped(b) =~= escaped(a));
    } else {
        law_strings_are_escaped_by_character(a, b.drop_last(), c);
        assert((a + b).drop_last() =~= a + b.drop_last());
        assert((a + b).last() == b.last());
        assert(escaped(a + b) =~= escaped(a) + escaped(b));
    }
}

/// The vocabulary is written token by token, each with its own id, and the merges pair by pair, the
/// first part first; commas stand between them and nowhere else.
pub proof fn law_entries_are_written_in_turn(
    v: Seq<(String, u32)>,
    m: Seq<(String, String)>,
    k: int,
)
    requires
        k > 0,
    ensures
        vocab_text(v, 1) == quoted(v[0].0@) + ":"@ + decimal(v[0].1 as nat),
        vocab_text(v, k + 1) == vocab_text(v, k) + (","@ + quoted(v[k].0@) + ":"@ + decimal(
            v[k].1 as nat,
        )),
        merges_text(m, 1) == "["@ + quoted(m[0].0@) + ","@ + quoted(m[0].1@) + "]"@,
        merges_text(m, k + 1) == merges_text(m, k) + (",["@ + quoted(m[k].0@) + ","@ + quoted(m[k].1@)
            + "]"@),
        vocab_text(v, 0).len() == 0 && merges_text(m, 0).len() == 0,
{
    reveal_strlit("");
    reveal_strlit(",");
    reveal_strlit("[");
    reveal_strlit(",[");
    reveal_with_fuel(vocab_text, 2);
    reveal_with_fuel(merges_text, 2);
    assert(",["@ =~= ","@ + "["@);
    assert(vocab_text(v, 1) =~= quoted(v[0].0@) + ":"@ + decimal(v[0].1 as nat));
    assert(merges_text(m, 1) =~= "["@ + quoted(m[0].0@) + ","@ + quoted(m[0].1@) + "]"@);
    assert(vocab_text(v, k + 1) =~= vocab_text(v, k) + (","@ + quoted(v[k].0@) + ":"@ + decimal(
        v[k].1 as nat,
    )));
    assert(merges_text(m, k + 1) =~= merges_text(m, k) + (",["@ + quoted(m[k].0@) + ","@ + quoted(
        m[k].1@,
    ) + "]"@));
}

/// A token has one id at most: where it is listed more than once, the one that it is listed with last.
pub proof fn law_last_listing_counts(
    v: Seq<(String, u32)>,
    e: (String, u32),
    t: Seq<char>,
    id: u32,
    other: u32,
)
    ensures
        has_id(v, t, id) && has_id(v, t, other) ==> id == other,
        has_id(v.push(e), e.0@, e.1),
        t != e.0@ ==> has_id(v.push(e), t, id) == has_id(v, t, id),
        lacks(v, t) ==> !has_id(v, t, id),
{
    if has_id(v, t, id) && has_id(v, t, other) {
        let i = choose|i: int| #[trigger] last_of(v, t, i) && v[i].1 == id;
        let j = choose|j: int| #[trigger] last_of(v, t, j) && v[j].1 == other;
        if i < j {
            assert(v[j].0@ != t);
        } else if j < i {
            assert(v[i].0@ != t);
        }
    }
    let w = v.push(e);
    assert(last_of(w, e.0@, v.len() as int));
    if t != e.0@ {
        if has_id(v, t, id) {
            let i = choose|i: int| #[trigger] last_of(v, t, i) && v[i].1 == id;
            assert(last_of(w, t, i)) by {
                assert forall|j: int| i < j < w.len() implies (#[trigger] w[j]).0@ != t by {
                    if j < v.len() {
                        assert(v[j].0@ != t);
                    }
                }
            }
        }
        if has_id(w, t, id) {
            let i = choose|i: int| #[trigger] last_of(w, t, i) && w[i].1 == id;
            assert(i < v.len());
            assert(last_of(v, t, i)) by {
                assert forall|j: int| i < j < v.len() implies (#[trigger] v[j]).0@ != t by {
                    assert(w[j].0@ != t);
                }
            }
        }
    }
}

/// Merges are in order where the vocabulary has both parts of each and what they join to. The token
/// that is reported otherwise is one that the vocabulary lacks.
pub proof fn law_merges_stay_in_the_vocabulary(
    v: Seq<(String, u32)>,
    m: Seq<(String, String)>,
    k: int,
)
    requires
        0 <= k <= m.len(),
    ensures
        unknown_from(v, m, k) is None <==> forall|i: int|
            k <= i < m.len() ==> !lacks(v, (#[trigger] m[i]).0@) && !lacks(v, m[i].1@) && !lacks(
                v,
                m[i].0@ + m[i].1@,
            ),
        unknown_from(v, m, k) matches Some(t) ==> lacks(v, t) && exists|i: int|
            k <= i < m.len() && (t == (#[trigger] m[i]).0@ || t == m[i].1@ || t == m[i].0@ + m[i].1@),
    decreases m.len() - k,
{
    if k < m.len() {
        law_merges_stay_in_the_vocabulary(v, m, k + 1);
        assert(m[k] == m[k]);
        if unknown_in(v, m[k].0@, m[k].1@) is Some {
            let t = unknown_in(v, m[k].0@, m[k].1@)->0;
            assert(t == m[k].0@ || t == m[k].1@ || t == m[k].0@ + m[k].1@);
        }
    }
}

/// A tokenizer is synthesised only from merges that stay in the vocabulary and a vocabulary with both
/// special tokens, and is then the one that the definition with their ids makes.
pub proof fn law_synthesis_is_of_its_vocabulary(
    t: TextTokenizer,
    vocab: Seq<(String, u32)>,
    merges: Seq<(String, String)>,
)
    requires
        is_synthesis(Ok(t), vocab, merges),
    ensures
        !lacks(vocab, "<|startoftext|>"@) && !lacks(vocab, "<|endoftext|>"@),
        forall|i: int|
            0 <= i < merges.len() ==> !lacks(vocab, (#[trigger] merges[i]).0@) && !lacks(
                vocab,
                merges[i].1@,
            ) && !lacks(vocab, merges[i].0@ + merges[i].1@),
        exists|bos: u32, eos: u32|
            has_id(vocab, "<|startoftext|>"@, bos) && has_id(vocab, "<|endoftext|>"@, eos) && t@
                == #[trigger] encode_utf8(clip_definition(vocab, merges, bos, eos)),
{
    law_merges_stay_in_the_vocabulary(vocab, merges, 0);
}

} // verus!
