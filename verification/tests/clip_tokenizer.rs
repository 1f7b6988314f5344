use candle_gen_sd::sd3::clip_tokenizer::{
    load_clip_tokenizer, synthesize_clip_tokenizer, ClipTokenizerFiles,
};
use candle_gen_sd::tokenizer::{token_ids, TextTokenizer};
use tokenizers::decoders::byte_level::ByteLevel as ByteLevelDecoder;
use tokenizers::models::bpe::{Vocab, BPE};
use tokenizers::normalizers::replace::ReplacePattern;
use tokenizers::normalizers::{Lowercase, Replace, Sequence as NormSequence, NFC};
use tokenizers::pre_tokenizers::byte_level::ByteLevel as ByteLevelPre;
use tokenizers::pre_tokenizers::sequence::Sequence as PreSequence;
use tokenizers::pre_tokenizers::split::{Split, SplitPattern};
use tokenizers::processors::roberta::RobertaProcessing;
use tokenizers::{
    AddedToken, NormalizerWrapper, PreTokenizerWrapper, SplitDelimiterBehavior, Tokenizer,
};

const PROMPTS: &[&str] = &[
    "a photo of a cat",
    "A PHOTO of a CAT",
    "an astronaut riding a horse on the moon, highly detailed, 8k",
    "hello, world! 123 -- punctuation: test? (yes).",
    "café naïve résumé — über cool",
    "",
    "trailing space   ",
    "MixedCASE Words With  Multiple   Spaces",
    "it's we're <|endoftext|> \"quoted\" back\\slash",
];

/// Every byte with and without the end-of-word mark, a few merges, and the special tokens.
fn vocab_and_merges() -> (Vec<(String, u32)>, Vec<(String, String)>) {
    let mut bytes: Vec<char> = ByteLevelPre::alphabet().into_iter().collect();
    bytes.sort();
    let merges: Vec<(String, String)> = [
        ("p", "h"),
        ("o", "t"),
        ("ph", "ot"),
        ("phot", "o</w>"),
        ("c", "a"),
        ("ca", "t</w>"),
        ("o", "f</w>"),
    ]
    .iter()
    .map(|(a, b)| (a.to_string(), b.to_string()))
    .collect();
    let mut tokens: Vec<String> = bytes.iter().map(|c| c.to_string()).collect();
    tokens.extend(bytes.iter().map(|c| format!("{c}</w>")));
    tokens.extend(merges.iter().map(|(a, b)| format!("{a}{b}")));
    tokens.push("<|startoftext|>".into());
    tokens.push("<|endoftext|>".into());
    // The words of the known prompt have their CLIP ids, the rest follow.
    let known = [
        ("a</w>", 320),
        ("photo</w>", 1125),
        ("of</w>", 539),
        ("cat</w>", 2368),
        ("<|startoftext|>", 49406),
        ("<|endoftext|>", 49407),
    ];
    let vocab = tokens
        .into_iter()
        .enumerate()
        .map(|(i, t)| {
            let id = known.iter().find(|(k, _)| *k == t).map(|(_, id)| *id);
            (t, id.unwrap_or(60000 + i as u32))
        })
        .collect();
    (vocab, merges)
}

/// The same tokenizer, put together part by part.
fn built(vocab: &[(String, u32)], merges: &[(String, String)]) -> Tokenizer {
    let map: Vocab = vocab.iter().cloned().collect();
    let (bos, eos) = ("<|startoftext|>", "<|endoftext|>");
    let (bos_id, eos_id) = (map[bos], map[eos]);
    let bpe = BPE::builder()
        .vocab_and_merges(map, merges.to_vec())
        .unk_token(eos.to_string())
        .end_of_word_suffix("</w>".to_string())
        .continuing_subword_prefix(String::new())
        .build()
        .unwrap();
    let mut tok = Tokenizer::new(bpe);
    let spaces = Replace::new(ReplacePattern::Regex(r"\s+".to_string()), " ").unwrap();
    tok.with_normalizer(Some(NormSequence::new(vec![
        NormalizerWrapper::from(NFC),
        NormalizerWrapper::from(spaces),
        NormalizerWrapper::from(Lowercase),
    ])))
    .unwrap();
    let words = r"'s|'t|'re|'ve|'m|'ll|'d|[\p{L}]+|[\p{N}]|[^\s\p{L}\p{N}]+";
    let split = Split::new(
        SplitPattern::Regex(words.to_string()),
        SplitDelimiterBehavior::Removed,
        true,
    )
    .unwrap();
    tok.with_pre_tokenizer(Some(PreSequence::new(vec![
        PreTokenizerWrapper::from(split),
        PreTokenizerWrapper::from(ByteLevelPre::new(false, true, false)),
    ])));
    tok.with_post_processor(Some(
        RobertaProcessing::new((eos.to_string(), eos_id), (bos.to_string(), bos_id))
            .trim_offsets(false)
            .add_prefix_space(false),
    ));
    tok.with_decoder(Some(ByteLevelDecoder::default()));
    tok.add_special_tokens([
        AddedToken::from(bos, true).normalized(true),
        AddedToken::from(eos, true).normalized(false),
    ])
    .unwrap();
    tok
}

fn ids(tok: &Tokenizer, prompt: &str, special: bool) -> Vec<u32> {
    tok.encode(prompt, special).unwrap().get_ids().to_vec()
}

fn row(tok: &TextTokenizer, prompt: &str, special: bool) -> Vec<u32> {
    token_ids(tok, prompt, special).unwrap()
}

#[test]
fn synthesized_matches_canonical_clip_tokenizer() {
    let (vocab, merges) = vocab_and_merges();
    let canonical = built(&vocab, &merges);
    let synth = synthesize_clip_tokenizer(&vocab, &merges).unwrap();
    for &prompt in PROMPTS {
        for special in [false, true] {
            assert_eq!(
                ids(&canonical, prompt, special),
                row(&synth, prompt, special),
                "token-id mismatch for {prompt:?}"
            );
        }
    }
    let known = canonical.get_vocab(true);
    assert_eq!(known.len(), vocab.len());
    for (token, id) in known {
        assert_eq!(synth.id_of(&token), Some(id));
    }
}

#[test]
fn synthesized_known_clip_ids() {
    let (vocab, merges) = vocab_and_merges();
    let synth = synthesize_clip_tokenizer(&vocab, &merges).unwrap();
    let expected: Vec<u32> = vec![49406, 320, 1125, 539, 320, 2368, 49407];
    let got = row(&synth, "a photo of a cat", true);
    assert_eq!(got, expected, "known CLIP id sequence mismatch: {got:?}");
}

#[test]
fn the_last_of_a_repeated_token_counts() {
    let (mut vocab, merges) = vocab_and_merges();
    let synth = synthesize_clip_tokenizer(&vocab, &merges).unwrap();
    let end = synth.id_of("<|endoftext|>").unwrap();
    vocab.insert(0, ("<|endoftext|>".into(), 0));
    let again = synthesize_clip_tokenizer(&vocab, &merges).unwrap();
    assert_eq!(again.id_of("<|endoftext|>"), Some(end));
    assert_eq!(row(&again, "a photo", true), row(&synth, "a photo", true));
}

#[test]
fn loader_fallback_on_stock_layout() {
    let files = ClipTokenizerFiles {
        tokenizer_json: None,
        vocab_and_merges: Some(vocab_and_merges()),
    };
    let tok = load_clip_tokenizer(&files, "tokenizer", "CLIP-L (stock-sim)").unwrap();
    let got = row(&tok, "a photo of a cat", true);
    assert_eq!(got, vec![49406, 320, 1125, 539, 320, 2368, 49407]);
}

#[test]
fn loader_reads_a_canonical_file() {
    let (vocab, merges) = vocab_and_merges();
    let canonical = built(&vocab, &merges);
    let files = ClipTokenizerFiles {
        tokenizer_json: Some(canonical.to_string(true).unwrap().into_bytes()),
        vocab_and_merges: None,
    };
    let tok = load_clip_tokenizer(&files, "tokenizer", "CLIP-L").unwrap();
    for &prompt in PROMPTS {
        assert_eq!(row(&tok, prompt, true), ids(&canonical, prompt, true));
    }
}
