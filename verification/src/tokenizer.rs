//! Tokenizers, by what their definitions say of them, and the token rows that the text encoders
//! take.
use crate::definition::{check_definition, is_sound};
use crate::text::{decimal, decimal_of, join};
use tokenizers::models::ModelWrapper;
use tokenizers::{PaddingStrategy, PostProcessor, Tokenizer};
use vstd::prelude::*;
use vstd::string::*;

verus! {

/// `tokenizers::Tokenizer`.
#[verifier::external_type_specification]
#[verifier::external_body]
pub struct ExTokenizer(tokenizers::Tokenizer);

/// The JSON definition that a tokenizer was made from.
pub uninterp spec fn definition(t: Tokenizer) -> Seq<u8>;

/// The bytes are a tokenizer definition.
pub uninterp spec fn is_definition(bytes: Seq<u8>) -> bool;

/// The ids into which the defined tokenizer encodes a text, with or without the special tokens, or
/// `None` where it fails.
pub uninterp spec fn encoded(bytes: Seq<u8>, text: Seq<char>, special: bool) -> Option<Seq<u32>>;

/// The ids of the tokens that the defined tokenizer knows, added tokens among them.
pub uninterp spec fn vocabulary(bytes: Seq<u8>) -> Map<Seq<char>, u32>;

/// The bits of the chance with which the defined tokenizer leaves a merge out, where it has one.
pub uninterp spec fn dropout(bytes: Seq<u8>) -> Option<u32>;

/// The length to which the defined tokenizer cuts an encoding and by how much the parts overlap, where
/// it cuts.
pub uninterp spec fn truncation(bytes: Seq<u8>) -> Option<(usize, usize)>;

/// The length to which the defined tokenizer fills an encoding, where it is a fixed one, and the number
/// whose multiple it rounds that up to, where it fills.
pub uninterp spec fn padding(bytes: Seq<u8>) -> Option<(Option<usize>, Option<usize>)>;

/// How many special tokens the defined tokenizer adds to one text.
pub uninterp spec fn special_tokens(bytes: Seq<u8>) -> usize;

/// The characters of a string in quotes, escaped as in a program.
pub uninterp spec fn in_quotes(s: Seq<char>) -> Seq<char>;

/// A length to cut to that leaves room for the special tokens, and parts that go forward, with and
/// without those.
pub open spec fn can_cut(cut: Option<(usize, usize)>, special: usize) -> bool {
    match cut {
        Some((max, stride)) => {
            &&& special <= max
            &&& max == special || stride < max - special
            &&& max == 0 || stride < max
        },
        None => true,
    }
}

/// No vector is longer: a token takes less than this fraction of what can be addressed.
pub const MAX_FILL: usize = usize::MAX / 1024;

/// A length to fill to, and a multiple to round it up to, that memory could hold.
pub open spec fn can_fill(fill: Option<(Option<usize>, Option<usize>)>) -> bool {
    match fill {
        Some((len, multiple)) => {
            &&& len matches Some(n) ==> n <= MAX_FILL
            &&& multiple matches Some(n) ==> n <= MAX_FILL
        },
        None => true,
    }
}

/// Encoding any text with the defined tokenizer returns.
pub open spec fn encodes(bytes: Seq<u8>) -> bool {
    &&& is_sound(bytes)
    &&& can_cut(truncation(bytes), special_tokens(bytes))
    &&& can_fill(padding(bytes))
}

/// The defined tokenizer leaves nothing to chance.
pub open spec fn is_steady(bytes: Seq<u8>) -> bool {
    dropout(bytes) is None
}

/// `tokenizers::Tokenizer::from_bytes`: bytes that are a definition give a tokenizer that holds it,
/// and no others give any. Nothing is said of the error's wording. The call panics on some parts of
/// which no sound definition is made.
#[verifier::external_body]
fn parse_tokenizer(bytes: &[u8]) -> (r: Result<Tokenizer, String>)
    requires
        is_sound(bytes@),
    ensures
        match r {
            Ok(t) => is_definition(bytes@) && definition(t) == bytes@,
            Err(_) => !is_definition(bytes@),
        },
{
    Tokenizer::from_bytes(bytes).map_err(|e| e.to_string())
}

/// `tokenizers::Tokenizer::encode` of a single text, with a model that leaves nothing to chance: the
/// ids are a function of the definition, the text and the flag. Nothing is said of the error's
/// wording.
#[verifier::external_body]
fn encode_text(t: &Tokenizer, text: &str, special: bool) -> (r: Result<Vec<u32>, String>)
    requires
        encodes(definition(*t)),
        is_steady(definition(*t)),
    ensures
        match r {
            Ok(ids) => encoded(definition(*t), text@, special) == Some(ids@),
            Err(_) => encoded(definition(*t), text@, special) is None,
        },
{
    let encoding = t.encode(text, special).map_err(|e| e.to_string())?;
    Ok(encoding.get_ids().to_vec())
}

/// `tokenizers::Tokenizer::encode` of a single text, with a model that leaves merges out by chance:
/// nothing is said of the ids, which may differ from call to call.
#[verifier::external_body]
fn sample_text(t: &Tokenizer, text: &str, special: bool) -> (r: Result<Vec<u32>, String>)
    requires
        encodes(definition(*t)),
{
    let encoding = t.encode(text, special).map_err(|e| e.to_string())?;
    Ok(encoding.get_ids().to_vec())
}

/// `tokenizers::Tokenizer::get_vocab` with the added tokens, looked up at one token.
#[verifier::external_body]
fn vocab_id(t: &Tokenizer, token: &str) -> (r: Option<u32>)
    ensures
        match r {
            Some(id) => vocabulary(definition(*t)).contains_pair(token@, id),
            None => !vocabulary(definition(*t)).contains_key(token@),
        },
{
    t.get_vocab(true).get(token).copied()
}

/// `tokenizers::Tokenizer::get_model`: the dropout of a byte-pair model, which no other model has.
#[verifier::external_body]
fn read_dropout(t: &Tokenizer) -> (r: Option<u32>)
    ensures
        r == dropout(definition(*t)),
{
    match t.get_model() {
        ModelWrapper::BPE(m) => m.dropout.map(|p| p.to_bits()),
        ModelWrapper::WordPiece(_) => None,
        ModelWrapper::WordLevel(_) => None,
        ModelWrapper::Unigram(_) => None,
    }
}

/// `tokenizers::Tokenizer::get_truncation`: the length and the stride.
#[verifier::external_body]
fn read_truncation(t: &Tokenizer) -> (r: Option<(usize, usize)>)
    ensures
        r == truncation(definition(*t)),
{
    t.get_truncation().map(|p| (p.max_length, p.stride))
}

/// `tokenizers::Tokenizer::get_padding`: the fixed length, which filling up to the longest of a batch
/// has not, and the multiple.
#[verifier::external_body]
fn read_padding(t: &Tokenizer) -> (r: Option<(Option<usize>, Option<usize>)>)
    ensures
        r == padding(definition(*t)),
{
    let p = t.get_padding()?;
    let len = match p.strategy {
        PaddingStrategy::Fixed(n) => Some(n),
        PaddingStrategy::BatchLongest => None,
    };
    Some((len, p.pad_to_multiple_of))
}

/// `tokenizers::PostProcessor::added_tokens` for one text; a tokenizer without a post-processor adds
/// none.
#[verifier::external_body]
fn read_special_tokens(t: &Tokenizer) -> (r: usize)
    ensures
        r == special_tokens(definition(*t)),
{
    t.get_post_processor().map(|p| p.added_tokens(false)).unwrap_or_default()
}

/// The `Debug` text of a `str`.
#[verifier::external_body]
pub(crate) fn quote(s: &str) -> (r: String)
    ensures
        r@ == in_quotes(s@),
{
    format!("{:?}", s)
}

/// A tokenizer whose definition was tested: encoding any text with it returns. Its view is the
/// definition.
#[derive(Debug)]
pub struct TextTokenizer {
    inner: Tokenizer,
}

impl View for TextTokenizer {
    type V = Seq<u8>;

    closed spec fn view(&self) -> Seq<u8> {
        definition(self.inner)
    }
}

impl TextTokenizer {
    #[verifier::type_invariant]
    spec fn is_tested(self) -> bool {
        encodes(definition(self.inner))
    }

    /// The id of a token.
    pub fn id_of(&self, token: &str) -> (r: Option<u32>)
        ensures
            match r {
                Some(id) => vocabulary(self@).contains_pair(token@, id),
                None => !vocabulary(self@).contains_key(token@),
            },
    {
        vocab_id(&self.inner, token)
    }

    /// The ids of `text`, or why it has none. Where the model leaves merges out by chance they may be
    /// any.
    fn ids_of(&self, text: &str, special: bool) -> (r: Result<Vec<u32>, String>)
        ensures
            may_encode(self@, text@, special, outcome(r)),
    {
        proof {
            use_type_invariant(self);
        }
        if read_dropout(&self.inner).is_none() {
            encode_text(&self.inner, text, special)
        } else {
            sample_text(&self.inner, text, special)
        }
    }
}

/// The ids of an encoding that was tried, where it has any.
pub open spec fn outcome(r: Result<Vec<u32>, String>) -> Option<Seq<u32>> {
    match r {
        Ok(v) => Some(v@),
        Err(_) => None,
    }
}

/// Encoding `text` may come out so: as the definition says, or in any way where that leaves it to
/// chance.
pub open spec fn may_encode(d: Seq<u8>, text: Seq<char>, special: bool, ids: Option<Seq<u32>>) -> bool {
    is_steady(d) ==> ids == encoded(d, text, special)
}

/// A length that memory could hold.
fn fillable(n: Option<usize>) -> (r: bool)
    ensures
        r == (n matches Some(k) ==> k <= MAX_FILL),
{
    match n {
        Some(k) => k <= MAX_FILL,
        None => true,
    }
}

/// Makes the tokenizer of a definition. One that has a part which is not taken is refused before it is
/// parsed, and one whose texts cannot be cut or filled up as it asks, after.
pub fn load_tokenizer(bytes: &[u8]) -> (r: Result<TextTokenizer, String>)
    ensures
        match r {
            Ok(t) => is_definition(bytes@) && t@ == bytes@ && encodes(bytes@),
            Err(_) => !is_definition(bytes@) || !encodes(bytes@),
        },
{
    if let Err(reason) = check_definition(bytes) {
        return Err(reason);
    }
    let inner = match parse_tokenizer(bytes) {
        Ok(t) => t,
        Err(reason) => {
            return Err(reason);
        },
    };
    let special: usize = read_special_tokens(&inner);
    if let Some((max, stride)) = read_truncation(&inner) {
        let fits: bool = special <= max && (max == special || stride < max - special) && (max == 0
            || stride < max);
        if !fits {
            return Err(
                String::from_str("the truncation leaves no room for the stride and special tokens"),
            );
        }
    }
    if let Some((len, multiple)) = read_padding(&inner) {
        if !fillable(len) || !fillable(multiple) {
            return Err(String::from_str("the padding is longer than memory could hold"));
        }
    }
    Ok(TextTokenizer { inner })
}

/// Why a text has no token row.
#[derive(Clone, Debug)]
pub enum TokenError {
    /// The pad token is not in the vocabulary.
    NoPadToken { token: String },
    /// The tokenizer failed.
    Tokenize { reason: String },
    /// The text has more tokens than the encoder takes.
    TooLong { tokens: usize, limit: usize },
}

/// `ids` padded to `len` with `pad`.
pub open spec fn padded(ids: Seq<u32>, pad: u32, len: int) -> Seq<u32> {
    Seq::new(
        len as nat,
        |i: int|
            if i < ids.len() {
                ids[i]
            } else {
                pad
            },
    )
}

/// Pads a token row to exactly `max_len`; a longer row is refused, since a truncated one would drop
/// conditioning.
pub fn pad_tokens(ids: Vec<u32>, pad_id: u32, max_len: usize) -> (r: Result<Vec<u32>, TokenError>)
    ensures
        match r {
            Ok(row) => ids.len() <= max_len && row@ == padded(ids@, pad_id, max_len as int),
            Err(e) => ids.len() > max_len && e == (TokenError::TooLong {
                tokens: ids.len(),
                limit: max_len,
            }),
        },
{
    if ids.len() > max_len {
        return Err(TokenError::TooLong { tokens: ids.len(), limit: max_len });
    }
    let ghost start = ids@;
    let mut row = ids;
    while row.len() < max_len
        invariant
            start.len() <= row.len() <= max_len,
            row@ == padded(start, pad_id, row.len() as int),
        decreases max_len - row.len(),
    {
        row.push(pad_id);
        proof {
            assert(row@ =~= padded(start, pad_id, row.len() as int));
        }
    }
    Ok(row)
}

/// The token that a row is padded with: the configured one, or the end-of-text token.
pub open spec fn pad_token(pad_with: Option<Seq<char>>) -> Seq<char> {
    match pad_with {
        Some(s) => s,
        None => "<|endoftext|>"@,
    }
}

/// The characters of an optional string.
pub open spec fn opt_text(o: Option<String>) -> Option<Seq<char>> {
    match o {
        Some(s) => Some(s@),
        None => None,
    }
}

fn pad_token_of(pad_with: &Option<String>) -> (r: String)
    ensures
        r@ == pad_token(opt_text(*pad_with)),
{
    match pad_with {
        Some(s) => s.clone(),
        None => String::from_str("<|endoftext|>"),
    }
}

/// The id of the pad token.
pub fn pad_id(t: &TextTokenizer, pad_with: &Option<String>) -> (r: Result<u32, TokenError>)
    ensures
        ({
            let token = pad_token(opt_text(*pad_with));
            match r {
                Ok(id) => vocabulary(t@).contains_pair(token, id),
                Err(e) => !vocabulary(t@).contains_key(token) && (
                e matches TokenError::NoPadToken { token: s } && s@ == token),
            }
        }),
{
    let token = pad_token_of(pad_with);
    match t.id_of(token.as_str()) {
        Some(id) => Ok(id),
        None => Err(TokenError::NoPadToken { token }),
    }
}

/// What padding an encoding of `max` tokens at most gives.
pub open spec fn is_row_of(
    r: Result<Vec<u32>, TokenError>,
    ids: Option<Seq<u32>>,
    pad: u32,
    max: int,
) -> bool {
    match ids {
        None => r matches Err(TokenError::Tokenize { .. }),
        Some(s) => if s.len() <= max {
            r matches Ok(row) && row@ == padded(s, pad, max)
        } else {
            r matches Err(TokenError::TooLong { tokens, limit }) && tokens == s.len() && limit
                == max
        },
    }
}

/// The padded row of an encoding that was tried.
pub fn row_of_encoding(ids: Result<Vec<u32>, String>, pad: u32, max: usize) -> (r: Result<
    Vec<u32>,
    TokenError,
>)
    ensures
        is_row_of(r, outcome(ids), pad, max as int),
{
    match ids {
        Ok(v) => pad_tokens(v, pad, max),
        Err(reason) => Err(TokenError::Tokenize { reason }),
    }
}

/// Tokenizes `text` with the special tokens and pads it to `max` ids.
pub fn tokenize_padded(t: &TextTokenizer, max: usize, pad: u32, text: &str) -> (r: Result<
    Vec<u32>,
    TokenError,
>)
    ensures
        is_padded(r, t@, pad, max as int, text@),
{
    let ids = t.ids_of(text, true);
    proof {
        assert(may_encode(t@, text@, true, outcome(ids)));
    }
    row_of_encoding(ids, pad, max)
}

/// What tokenizing `text` and padding it to `max` ids gives.
pub open spec fn is_padded(
    r: Result<Vec<u32>, TokenError>,
    d: Seq<u8>,
    pad: u32,
    max: int,
    text: Seq<char>,
) -> bool {
    exists|ids: Option<Seq<u32>>|
        #[trigger] may_encode(d, text, true, ids) && is_row_of(r, ids, pad, max)
}

/// What tokenizing `text` and padding it to `max` ids with `token` gives.
pub open spec fn is_tokenized(
    r: Result<Vec<u32>, TokenError>,
    d: Seq<u8>,
    token: Seq<char>,
    max: int,
    text: Seq<char>,
) -> bool {
    let v = vocabulary(d);
    if v.contains_key(token) {
        is_padded(r, d, v[token], max, text)
    } else {
        r matches Err(TokenError::NoPadToken { token: s }) && s@ == token
    }
}

/// Tokenizes `text` and pads it to `max` ids with the configured pad token.
pub fn tokenize(t: &TextTokenizer, pad_with: &Option<String>, max: usize, text: &str) -> (r: Result<
    Vec<u32>,
    TokenError,
>)
    ensures
        is_tokenized(r, t@, pad_token(opt_text(*pad_with)), max as int, text@),
{
    match pad_id(t, pad_with) {
        Ok(pad) => tokenize_padded(t, max, pad, text),
        Err(e) => Err(e),
    }
}

/// The ids of `text`, without padding.
pub fn token_ids(t: &TextTokenizer, text: &str, special: bool) -> (r: Result<Vec<u32>, TokenError>)
    ensures
        match r {
            Ok(ids) => may_encode(t@, text@, special, Some(ids@)),
            Err(e) => may_encode(t@, text@, special, None) && e is Tokenize,
        },
{
    match t.ids_of(text, special) {
        Ok(ids) => Ok(ids),
        Err(reason) => Err(TokenError::Tokenize { reason }),
    }
}

/// The position is the last of the largest ids in the row.
pub open spec fn is_last_max(ids: Seq<u32>, p: int) -> bool {
    &&& 0 <= p < ids.len()
    &&& forall|i: int| 0 <= i < ids.len() ==> #[trigger] ids[i] <= ids[p]
    &&& forall|i: int| p < i < ids.len() ==> #[trigger] ids[i] < ids[p]
}

/// The end-of-text position of a token row: the end-of-text id is the largest, so it is the position
/// of the maximum, the last one where it repeats. An empty row gives 0.
pub fn eos_position(ids: &[u32]) -> (r: usize)
    ensures
        ids@.len() == 0 ==> r == 0,
        ids@.len() > 0 ==> is_last_max(ids@, r as int),
{
    let mut best: usize = 0;
    let mut i: usize = 0;
    while i < ids.len()
        invariant
            i <= ids.len(),
            best <= i,
            i > 0 ==> best < i,
            i == 0 ==> best == 0,
            forall|k: int| 0 <= k < i ==> #[trigger] ids@[k] <= ids@[best as int],
            forall|k: int| best < k < i ==> #[trigger] ids@[k] < ids@[best as int],
        decreases ids.len() - i,
    {
        if ids[i] >= ids[best] {
            best = i;
        }
        i += 1;
    }
    best
}

/// The end-of-text position of each row.
pub open spec fn eos_positions(rows: Seq<Vec<u32>>, p: Seq<usize>) -> bool {
    &&& p.len() == rows.len()
    &&& forall|b: int|
        0 <= b < rows.len() ==> if (#[trigger] rows[b])@.len() == 0 {
            p[b] == 0
        } else {
            is_last_max(rows[b]@, p[b] as int)
        }
}

/// Where to pool each row of hidden states: at its end-of-text position.
pub fn pool_eos(token_rows: &Vec<Vec<u32>>) -> (r: Vec<usize>)
    ensures
        eos_positions(token_rows@, r@),
{
    let mut out: Vec<usize> = Vec::new();
    let mut b: usize = 0;
    while b < token_rows.len()
        invariant
            b <= token_rows.len(),
            out.len() == b,
            forall|k: int|
                0 <= k < b ==> if (#[trigger] token_rows[k])@.len() == 0 {
                    out[k] == 0
                } else {
                    is_last_max(token_rows[k]@, out[k] as int)
                },
        decreases token_rows.len() - b,
    {
        out.push(eos_position(token_rows[b].as_slice()));
        b += 1;
    }
    out
}

impl TokenError {
    pub open spec fn text(&self) -> Seq<char> {
        match *self {
            TokenError::NoPadToken { token } => "pad token "@ + in_quotes(token@) + " not in vocab"@,
            TokenError::Tokenize { reason } => "tokenize: "@ + reason@,
            TokenError::TooLong { tokens, limit } => "sdxl conditioning: prompt is "@ + decimal(
                tokens as nat,
            )
                + " tokens > the "@ + decimal(limit as nat) + "-token CLIP limit"@,
        }
    }

    /// The error in words.
    pub fn message(&self) -> (r: String)
        ensures
            r@ == self.text(),
    {
        match self {
            TokenError::NoPadToken { token } => {
                let mut s = join("pad token ", quote(token.as_str()).as_str());
                s.append(" not in vocab");
                s
            },
            TokenError::Tokenize { reason } => join("tokenize: ", reason.as_str()),
            TokenError::TooLong { tokens, limit } => {
                let mut s = join("sdxl conditioning: prompt is ", decimal_of(*tokens).as_str());
                s.append(" tokens > the ");
                s.append(decimal_of(*limit).as_str());
                s.append("-token CLIP limit");
                s
            },
        }
    }
}

/// A row that holds one end-of-text id, the largest of the vocabulary, is pooled there, whatever
/// comes before it and however it is padded.
pub proof fn law_eos_is_found(ids: Seq<u32>, eos: u32, at: int, p: int)
    requires
        0 <= at < ids.len(),
        ids[at] == eos,
        forall|i: int| 0 <= i < ids.len() && i != at ==> #[trigger] ids[i] < eos,
        is_last_max(ids, p),
    ensures
        p == at,
{
    assert(ids[at] <= ids[p]);
}

/// Padding keeps every id in its place and fills the rest.
pub proof fn law_padding_keeps_ids(ids: Seq<u32>, pad: u32, len: int)
    requires
        ids.len() <= len,
    ensures
        padded(ids, pad, len).len() == len,
        padded(ids, pad, len).take(ids.len() as int) == ids,
        forall|i: int| ids.len() <= i < len ==> padded(ids, pad, len)[i] == pad,
{
    assert(padded(ids, pad, len).take(ids.len() as int) =~= ids);
}

/// A row that an encoding gives is the encoding itself, with the pad id behind it up to the limit; one
/// that is longer than the limit is refused with its length, and never cut.
pub proof fn law_rows_are_never_cut(
    r: Result<Vec<u32>, TokenError>,
    ids: Seq<u32>,
    pad: u32,
    max: int,
    i: int,
)
    requires
        is_row_of(r, Some(ids), pad, max),
        0 <= i < max,
    ensures
        r is Ok <==> ids.len() <= max,
        r matches Ok(row) ==> row.len() == max && (i < ids.len() ==> row[i] == ids[i]) && (i
            >= ids.len() ==> row[i] == pad),
        r matches Err(e) ==> (e matches TokenError::TooLong { tokens, limit } && tokens == ids.len()
            && limit == max),
{
}

/// A row is padded with the token that the configuration names, and with the end-of-text token where it
/// names none.
pub proof fn law_rows_are_padded_with_the_named_token(s: Seq<char>)
    ensures
        pad_token(Some(s)) == s,
        pad_token(None) == "<|endoftext|>"@,
{
}

/// The pooled position of a row is the last place of its largest id, and there is only one such place.
pub proof fn law_pooled_position_is_the_last_maximum(ids: Seq<u32>, p: int, q: int)
    requires
        is_last_max(ids, p),
        0 <= q < ids.len(),
    ensures
        ids[q] <= ids[p],
        ids[q] == ids[p] ==> q <= p,
        is_last_max(ids, q) ==> q == p,
{
    if is_last_max(ids, q) && q != p {
        assert(ids[p] <= ids[q]);
    }
}

/// A tokenizer cuts texts only to a length that the special tokens fit in, by parts that go forward.
pub proof fn law_cuts_leave_room(max: usize, stride: usize, special: usize)
    ensures
        can_cut(Some((max, stride)), special) ==> special <= max,
        can_cut(Some((max, stride)), special) && max > special ==> stride < max - special,
        can_cut(Some((max, 0usize)), special) <==> special <= max,
        can_cut(None, special),
{
}

/// A tokenizer that leaves nothing to chance encodes a text in one way.
pub proof fn law_steady_encodings_do_not_vary(
    d: Seq<u8>,
    text: Seq<char>,
    special: bool,
    a: Option<Seq<u32>>,
    b: Option<Seq<u32>>,
)
    requires
        may_encode(d, text, special, a),
        may_encode(d, text, special, b),
        is_steady(d),
    ensures
        a == b,
        a == encoded(d, text, special),
{
}

/// Every row is pooled at its own end: within it, unless it is empty.
pub proof fn law_every_row_is_pooled(rows: Seq<Vec<u32>>, p: Seq<usize>, b: int)
    requires
        eos_positions(rows, p),
        0 <= b < rows.len(),
    ensures
        p.len() == rows.len(),
        rows[b].len() > 0 ==> p[b] < rows[b].len() && is_last_max(rows[b]@, p[b] as int),
        rows[b].len() == 0 ==> p[b] == 0,
{
}

} // verus!
