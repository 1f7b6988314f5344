//! The text conditioning of SDXL: the token rows of both encoders.
use crate::adapter::{entries, find_tensor, position, TensorEntry};
use crate::error::Error;
use crate::text::join;
use crate::tokenizer::{
    eos_positions, is_tokenized, opt_text, pad_token, tokenize, TextTokenizer, TokenError,
};
use candle_transformers::models::stable_diffusion::clip;
use vstd::prelude::*;
use vstd::string::*;

pub use crate::tokenizer::{eos_position, pad_tokens, pool_eos};

verus! {

/// What the token rows of an encoder depend on.
#[derive(Clone, Debug)]
pub struct ClipConfig {
    pub pad_with: Option<String>,
    pub max_position_embeddings: usize,
}

impl ClipConfig {
    /// The token that rows are padded with.
    pub open spec fn pad(&self) -> Seq<char> {
        pad_token(opt_text(self.pad_with))
    }

    /// Rows of 77 tokens, padded with `!`.
    pub open spec fn stock(&self) -> bool {
        self.pad() == "!"@ && self.max_position_embeddings == 77
    }
}

/// `candle_transformers`' `clip::Config::sdxl`: CLIP-L takes rows of 77 tokens, padded with `!`.
#[verifier::external_body]
pub(crate) fn clip_l_config() -> (r: ClipConfig)
    ensures
        r.stock(),
{
    let c = clip::Config::sdxl();
    ClipConfig { pad_with: c.pad_with, max_position_embeddings: c.max_position_embeddings }
}

/// `candle_transformers`' `clip::Config::sdxl2`: CLIP-bigG takes rows of 77 tokens, padded with `!`.
#[verifier::external_body]
pub(crate) fn clip_g_config() -> (r: ClipConfig)
    ensures
        r.stock(),
{
    let c = clip::Config::sdxl2();
    ClipConfig { pad_with: c.pad_with, max_position_embeddings: c.max_position_embeddings }
}

/// The token rows of a request: one for each text and encoder, and where each pooled row is taken
/// from.
#[derive(Clone, Debug)]
pub struct TokenRows {
    pub l: Vec<Vec<u32>>,
    pub g: Vec<Vec<u32>>,
    pub eos: Vec<usize>,
}

/// `row` is the token row of `text`.
pub open spec fn is_row(row: Vec<u32>, t: TextTokenizer, text: Seq<char>) -> bool {
    is_tokenized(Ok(row), t@, "!"@, 77, text)
}

/// `text` has no token row, for the reason given.
pub open spec fn has_no_row(e: TokenError, t: TextTokenizer, text: Seq<char>) -> bool {
    is_tokenized(Err(e), t@, "!"@, 77, text)
}

/// What tokenizing `text` for both encoders gives; CLIP-L comes first.
pub open spec fn is_pair(
    r: Result<(Vec<u32>, Vec<u32>), TokenError>,
    l: TextTokenizer,
    g: TextTokenizer,
    text: Seq<char>,
) -> bool {
    match r {
        Ok(p) => is_row(p.0, l, text) && is_row(p.1, g, text),
        Err(e) => has_no_row(e, l, text) || (has_no_row(e, g, text) && exists|row: Vec<u32>| #[trigger]
            is_row(row, l, text)),
    }
}

fn pair(tok_l: &TextTokenizer, tok_g: &TextTokenizer, text: &str) -> (r: Result<
    (Vec<u32>, Vec<u32>),
    TokenError,
>)
    ensures
        is_pair(r, *tok_l, *tok_g, text@),
{
    let cfg_l = clip_l_config();
    let cfg_g = clip_g_config();
    let l = match tokenize(tok_l, &cfg_l.pad_with, cfg_l.max_position_embeddings, text) {
        Ok(row) => row,
        Err(e) => {
            return Err(e);
        },
    };
    proof {
        assert(is_row(l, *tok_l, text@));
    }
    match tokenize(tok_g, &cfg_g.pad_with, cfg_g.max_position_embeddings, text) {
        Ok(row) => Ok((l, row)),
        Err(e) => Err(e),
    }
}

/// What encoding a request gives: with guidance the negative prompt's rows come first. A text that
/// has no row fails the request, the first in that order.
pub open spec fn is_encoding(
    r: Result<TokenRows, TokenError>,
    l: TextTokenizer,
    g: TextTokenizer,
    texts: Seq<Seq<char>>,
) -> bool {
    match r {
        Ok(rows) => {
            &&& rows.l.len() == texts.len() && rows.g.len() == texts.len()
            &&& forall|i: int|
                0 <= i < texts.len() ==> is_row(#[trigger] rows.l[i], l, texts[i]) && is_row(
                    rows.g[i],
                    g,
                    texts[i],
                )
            &&& eos_positions(rows.g@, rows.eos@)
        },
        Err(e) => exists|i: int|
            {
                &&& 0 <= i < texts.len()
                &&& is_pair(Err(e), l, g, #[trigger] texts[i])
                &&& forall|j: int|
                    0 <= j < i ==> exists|p: (Vec<u32>, Vec<u32>)|
                        is_pair(Ok(p), l, g, #[trigger] texts[j])
            },
    }
}

/// The texts of a request, in row order.
pub open spec fn texts_of(prompt: Seq<char>, negative: Seq<char>, cfg_on: bool) -> Seq<Seq<char>> {
    if cfg_on {
        seq![negative, prompt]
    } else {
        seq![prompt]
    }
}

/// Tokenizes a request for both encoders. With guidance there are two rows, the negative prompt's
/// first; without, the prompt's alone.
pub fn encode(
    tok_l: &TextTokenizer,
    tok_g: &TextTokenizer,
    prompt: &str,
    negative: &str,
    cfg_on: bool,
) -> (r: Result<TokenRows, TokenError>)
    ensures
        is_encoding(r, *tok_l, *tok_g, texts_of(prompt@, negative@, cfg_on)),
{
    let ghost texts = texts_of(prompt@, negative@, cfg_on);
    let mut l: Vec<Vec<u32>> = Vec::new();
    let mut g: Vec<Vec<u32>> = Vec::new();
    if cfg_on {
        match pair(tok_l, tok_g, negative) {
            Ok((row_l, row_g)) => {
                proof {
                    assert(is_pair(Ok((row_l, row_g)), *tok_l, *tok_g, texts[0]));
                }
                l.push(row_l);
                g.push(row_g);
            },
            Err(e) => {
                proof {
                    assert(is_pair(Err(e), *tok_l, *tok_g, texts[0]));
                }
                return Err(e);
            },
        }
    }
    match pair(tok_l, tok_g, prompt) {
        Ok((row_l, row_g)) => {
            l.push(row_l);
            g.push(row_g);
        },
        Err(e) => {
            proof {
                assert(is_pair(Err(e), *tok_l, *tok_g, texts[texts.len() - 1]));
            }
            return Err(e);
        },
    }
    let eos = pool_eos(&g);
    Ok(TokenRows { l, g, eos })
}

/// The position of the pooled head's projection in the CLIP-bigG checkpoint.
pub fn text_projection(tensors: &Vec<TensorEntry>, file: &str) -> (r: Result<usize, Error>)
    ensures
        match position(entries(tensors@), "text_projection.weight"@) {
            Some(i) => r matches Ok(k) && k == i,
            None => r matches Err(e) && e.says(
                "sdxl conditioning: text_projection.weight missing from "@ + file@,
            ),
        },
{
    match find_tensor(tensors, "text_projection.weight") {
        Some(i) => Ok(i),
        None => Err(
            Error::Msg(
                join("sdxl conditioning: text_projection.weight missing from ", file),
            ),
        ),
    }
}

/// The rows of a guided request are the unguided request's row, with the negative prompt's before it.
pub proof fn law_guidance_adds_a_leading_row(prompt: Seq<char>, negative: Seq<char>)
    ensures
        texts_of(prompt, negative, true).len() == 2,
        texts_of(prompt, negative, true)[0] == negative,
        texts_of(prompt, negative, true).skip(1) == texts_of(prompt, negative, false),
{
    assert(texts_of(prompt, negative, true).skip(1) =~= texts_of(prompt, negative, false));
}

/// Without guidance the prompt alone is encoded; with it the negative prompt comes before the prompt,
/// which is the last of the rows either way.
pub proof fn law_prompt_is_the_last_row(prompt: Seq<char>, negative: Seq<char>, cfg_on: bool)
    ensures
        texts_of(prompt, negative, cfg_on).last() == prompt,
        texts_of(prompt, negative, cfg_on).len() == if cfg_on {
            2int
        } else {
            1int
        },
        cfg_on ==> texts_of(prompt, negative, cfg_on).first() == negative,
{
}

/// The rows of a request are those of its texts, each encoder's own, all 77 long; the prompt's are the
/// last. The larger encoder's rows are pooled at the last place of their largest id.
pub proof fn law_rows_are_those_of_the_texts(
    rows: TokenRows,
    l: TextTokenizer,
    g: TextTokenizer,
    prompt: Seq<char>,
    negative: Seq<char>,
    cfg_on: bool,
)
    requires
        is_encoding(Ok(rows), l, g, texts_of(prompt, negative, cfg_on)),
    ensures
        ({
            let n: int = if cfg_on {
                2
            } else {
                1
            };
            &&& rows.l.len() == n && rows.g.len() == n && rows.eos.len() == n
            &&& is_row(rows.l[n - 1], l, prompt) && is_row(rows.g[n - 1], g, prompt)
            &&& cfg_on ==> is_row(rows.l[0], l, negative) && is_row(rows.g[0], g, negative)
            &&& rows.l[n - 1].len() == 77 && rows.g[n - 1].len() == 77
            &&& crate::tokenizer::is_last_max(rows.g[n - 1]@, rows.eos[n - 1] as int)
        }),
{
    let n: int = if cfg_on {
        2
    } else {
        1
    };
    let texts = texts_of(prompt, negative, cfg_on);
    assert(texts[n - 1] == prompt);
    assert(is_row(rows.l[n - 1], l, texts[n - 1]));
    lemma_row_length(rows.l[n - 1], l, prompt);
    lemma_row_length(rows.g[n - 1], g, prompt);
    if cfg_on {
        assert(is_row(rows.l[0], l, texts[0]));
    }
    assert(rows.g@[n - 1]@.len() == 77);
}

proof fn lemma_row_length(row: Vec<u32>, t: TextTokenizer, text: Seq<char>)
    requires
        is_row(row, t, text),
    ensures
        row.len() == 77,
{
}

/// A stock encoder takes rows of 77 tokens, padded with `!`; a text that has no row there has none of
/// that length.
pub proof fn law_stock_rows_are_of_one_length(
    c: ClipConfig,
    e: TokenError,
    t: TextTokenizer,
    text: Seq<char>,
)
    ensures
        c.stock() ==> c.max_position_embeddings == 77 && c.pad() == "!"@,
        has_no_row(e, t, text) ==> is_tokenized(Err(e), t@, "!"@, 77, text),
        has_no_row(e, t, text) ==> (e matches TokenError::TooLong { limit, .. } ==> limit == 77),
{
}

} // verus!
