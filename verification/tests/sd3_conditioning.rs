use candle_gen_sd::adapter::TensorEntry;
use candle_gen_sd::error::Error;
use candle_gen_sd::sd3::clip_tokenizer::{
    define_clip_tokenizer, load_clip_tokenizer, synthesize_clip_tokenizer, ClipTokenizerFiles,
    SynthesisError,
};
use candle_gen_sd::sd3::conditioning::{
    aggregate, clip_row, clip_row_of_ids, encode, eos_position, fit_clip_tokens, safetensors_in,
    single_safetensors, t5_config, t5_row, t5_row_of_ids, text_projection, zeroed_outputs, AggregateError,
    EncoderOutputs, EncoderPart, Hidden, Pooled,
};
use candle_gen_sd::sd3::config::Sd3Config;
use candle_gen_sd::tokenizer::{load_tokenizer, token_ids, TextTokenizer};

fn full(x: f32, batch: usize, seq: usize, width: usize) -> Hidden<f32> {
    Hidden {
        batch,
        seq,
        width,
        data: vec![x; batch * seq * width],
    }
}

fn full_pooled(x: f32, batch: usize, width: usize) -> Pooled<f32> {
    Pooled {
        batch,
        width,
        data: vec![x; batch * width],
    }
}

fn fixture(cfg: &Sd3Config, batch: usize) -> EncoderOutputs<f32> {
    EncoderOutputs {
        clip_l_hidden: full(1., batch, cfg.clip_seq_len, cfg.clip_l_dim),
        clip_g_hidden: full(2., batch, cfg.clip_seq_len, cfg.clip_g_dim),
        clip_l_pooled: full_pooled(3., batch, cfg.clip_l_dim),
        clip_g_pooled: full_pooled(4., batch, cfg.clip_g_dim),
        t5_hidden: full(5., batch, cfg.t5_seq_len, cfg.t5_dim),
    }
}

fn dims(h: &Hidden<f32>) -> (usize, usize, usize) {
    (h.batch, h.seq, h.width)
}

#[test]
fn aggregate_shapes_match_sd35_defaults() {
    let cfg = Sd3Config::large();
    let out = aggregate(&cfg, &fixture(&cfg, 1), 0.0).unwrap();
    assert_eq!((out.pooled.batch, out.pooled.width), (1, 2048));
    assert_eq!(dims(&out.context), (1, 333, 4096));
}

#[test]
fn pooled_concat_order_is_l_then_g() {
    let cfg = Sd3Config::large();
    let out = aggregate(&cfg, &fixture(&cfg, 1), 0.0).unwrap();
    let v = &out.pooled.data;
    assert!(
        v[..768].iter().all(|&x| x == 3.0),
        "CLIP-L pooled goes first"
    );
    assert!(
        v[768..2048].iter().all(|&x| x == 4.0),
        "bigG pooled goes second"
    );
}

#[test]
fn context_layout_is_clip_padded_then_t5() {
    let cfg = Sd3Config::large();
    let out = aggregate(&cfg, &fixture(&cfg, 1), 0.0).unwrap();
    let tok0 = &out.context.data[..4096];
    assert!(tok0[..768].iter().all(|&x| x == 1.0), "clip-l region");
    assert!(tok0[768..2048].iter().all(|&x| x == 2.0), "bigg region");
    assert!(
        tok0[2048..4096].iter().all(|&x| x == 0.0),
        "zero-pad region"
    );
    let tok_t5 = &out.context.data[77 * 4096..78 * 4096];
    assert!(
        tok_t5.iter().all(|&x| x == 5.0),
        "t5 region is full-width 4096"
    );
}

#[test]
fn t5_length_drives_context_seq() {
    let mut cfg = Sd3Config::large();
    cfg.t5_seq_len = 512;
    let out = aggregate(&cfg, &fixture(&cfg, 2), 0.0).unwrap();
    assert_eq!(dims(&out.context), (2, 77 + 512, 4096));
    assert_eq!((out.pooled.batch, out.pooled.width), (2, 2048));
}

#[test]
fn aggregate_rejects_misshaped_clip_width() {
    let mut cfg = Sd3Config::large();
    cfg.clip_concat_dim = 999;
    let e = aggregate(&cfg, &fixture(&cfg, 1), 0.0).unwrap_err();
    assert_eq!(
        e.message(),
        "sd3 aggregator: concatenated CLIP context width 2048 != configured clip_concat_dim 999 \
         (clip_l_dim 768 + clip_g_dim 1280)"
    );
}

#[test]
fn aggregate_rejects_other_mismatches() {
    let cfg = Sd3Config::large();
    let mut enc = fixture(&cfg, 1);
    enc.clip_g_pooled = full_pooled(4., 2, cfg.clip_g_dim);
    assert_eq!(
        aggregate(&cfg, &enc, 0.0).unwrap_err(),
        AggregateError::PooledShape
    );
    let mut enc = fixture(&cfg, 1);
    enc.clip_g_hidden = full(2., 1, 76, cfg.clip_g_dim);
    assert_eq!(
        aggregate(&cfg, &enc, 0.0).unwrap_err(),
        AggregateError::ClipShape
    );
    let mut enc = fixture(&cfg, 1);
    enc.t5_hidden = full(5., 1, 256, 1024);
    assert_eq!(
        aggregate(&cfg, &enc, 0.0).unwrap_err(),
        AggregateError::T5Shape
    );
    let mut cfg = cfg;
    cfg.joint_attention_dim = 1000;
    let e = aggregate(&cfg, &fixture(&cfg, 1), 0.0).unwrap_err();
    assert_eq!(
        e.message(),
        "sd3 aggregator: clip context hidden 2048 exceeds joint_attention_dim 1000"
    );
}

#[test]
fn zeroed_outputs_aggregate_to_correct_shape() {
    let cfg = Sd3Config::large();
    let enc = zeroed_outputs(&cfg, 1, 0f32);
    let out = aggregate(&cfg, &enc, 0.0).unwrap();
    assert_eq!(dims(&out.context), (1, 333, 4096));
    assert_eq!((out.pooled.batch, out.pooled.width), (1, 2048));
    assert!(out.context.data.iter().all(|&x| x == 0.0));
}

#[test]
fn fit_clip_tokens_pads_and_truncates_with_eos() {
    let eos = 49407u32;
    let short = fit_clip_tokens(vec![49406, 320, eos], 9, eos);
    assert_eq!(short.len(), 77);
    assert_eq!(&short[..3], &[49406, 320, eos]);
    assert!(short[3..].iter().all(|&x| x == 9));
    let long: Vec<u32> = (0..100).collect();
    let fit = fit_clip_tokens(long, 9, eos);
    assert_eq!(fit.len(), 77);
    assert_eq!(*fit.last().unwrap(), eos);
}

#[test]
fn conditioning_eos_position_is_argmax() {
    assert_eq!(eos_position(&[49406, 320, 49407, 9, 9]), 2);
    assert_eq!(eos_position(&[49406, 1, 2, 3, 49407]), 4);
    // The last of several, and 0 for none.
    assert_eq!(eos_position(&[5, 7, 7, 1]), 2);
    assert_eq!(eos_position(&[]), 0);
}

#[test]
fn clip_rows_are_padded_with_the_end() {
    // A padded row repeats the end-of-text id, and is pooled at its last one.
    let (row, at) = clip_row_of_ids(vec![49406, 320, 49407], 49407);
    assert_eq!(row.len(), 77);
    assert_eq!(at, 76);
    let (row, at) = clip_row_of_ids((0..90).collect(), 49407);
    assert_eq!((row[75], row[76], at), (75, 49407, 76));
}

#[test]
fn t5_rows_are_cut_or_padded() {
    assert_eq!(t5_row_of_ids(vec![5, 6], 4), vec![5, 6, 0, 0]);
    assert_eq!(t5_row_of_ids(vec![5, 6, 7], 2), vec![5, 6]);
}

/// A tiny byte-level vocabulary: the letters of `cat` with and without the end-of-word mark, two
/// merges, and the two special tokens.
fn vocab() -> Vec<(String, u32)> {
    [
        ("a", 0),
        ("c", 1),
        ("t", 2),
        ("a</w>", 3),
        ("c</w>", 4),
        ("t</w>", 5),
        ("at</w>", 6),
        ("cat</w>", 7),
        ("<|startoftext|>", 8),
        ("<|endoftext|>", 9),
    ]
    .iter()
    .map(|(t, i)| (t.to_string(), *i))
    .collect()
}

fn merges() -> Vec<(String, String)> {
    vec![
        ("a".into(), "t</w>".into()),
        ("c".into(), "at</w>".into()),
    ]
}

fn tiny() -> TextTokenizer {
    synthesize_clip_tokenizer(&vocab(), &merges()).unwrap()
}

#[test]
fn synthesized_tokenizer_encodes_clip_style() {
    let t = tiny();
    let ids = |s: &str, special: bool| token_ids(&t, s, special).unwrap();
    assert_eq!(ids("cat", false), vec![7]);
    // Lower-cased, split at spaces, wrapped by the special tokens.
    assert_eq!(ids("A  CAT", true), vec![8, 3, 7, 9]);
    assert_eq!(ids("", true), vec![8, 9]);
}

#[test]
fn synthesis_needs_the_special_tokens() {
    let without = |name: &str| -> Vec<(String, u32)> {
        vocab().into_iter().filter(|(t, _)| t != name).collect()
    };
    assert!(matches!(
        synthesize_clip_tokenizer(&without("<|startoftext|>"), &merges()),
        Err(SynthesisError::MissingStart)
    ));
    assert!(matches!(
        synthesize_clip_tokenizer(&without("<|endoftext|>"), &merges()),
        Err(SynthesisError::MissingEnd)
    ));
    assert!(matches!(
        synthesize_clip_tokenizer(&vocab(), &vec![("x".into(), "y".into())]),
        Err(SynthesisError::OutOfVocabulary { token }) if token == "x"
    ));
    // The join is looked up too, however long it is, and the merges come before the special tokens.
    let long: Vec<(String, String)> = vec![("<|endoftext|>".into(), "cat</w>".into())];
    assert!(matches!(
        synthesize_clip_tokenizer(&vocab(), &long),
        Err(SynthesisError::OutOfVocabulary { token }) if token == "<|endoftext|>cat</w>"
    ));
    assert!(matches!(
        synthesize_clip_tokenizer(&without("<|startoftext|>"), &vec![("a".into(), "y".into())]),
        Err(SynthesisError::OutOfVocabulary { token }) if token == "y"
    ));
}

#[test]
fn loader_prefers_the_canonical_file() {
    // The stock layout: only vocab and merges.
    let stock = ClipTokenizerFiles {
        tokenizer_json: None,
        vocab_and_merges: Some((vocab(), merges())),
    };
    let t = load_clip_tokenizer(&stock, "dir", "CLIP-L").unwrap();
    assert_eq!(token_ids(&t, "cat", true).unwrap(), vec![8, 7, 9]);
    // The canonical file wins, even where it is broken.
    let json = define_clip_tokenizer(&vocab(), &merges(), 8, 9).into_bytes();
    let both = ClipTokenizerFiles {
        tokenizer_json: Some(json),
        vocab_and_merges: None,
    };
    let t = load_clip_tokenizer(&both, "dir", "CLIP-L").unwrap();
    assert_eq!(token_ids(&t, "cat", true).unwrap(), vec![8, 7, 9]);
    let broken = ClipTokenizerFiles {
        tokenizer_json: Some(b"{".to_vec()),
        vocab_and_merges: Some((vocab(), merges())),
    };
    let e = load_clip_tokenizer(&broken, "dir", "CLIP-L").unwrap_err();
    assert!(e.message().starts_with("sd3: load CLIP-L tokenizer.json: "));
    let unknown = ClipTokenizerFiles {
        tokenizer_json: None,
        vocab_and_merges: Some((vocab(), vec![("x".into(), "y".into())])),
    };
    assert_eq!(
        load_clip_tokenizer(&unknown, "dir", "CLIP-L").unwrap_err().message(),
        "sd3: synthesize CLIP-L CLIP tokenizer from vocab.json+merges.txt in dir: Token `x` out of vocabulary"
    );
    let neither = ClipTokenizerFiles {
        tokenizer_json: None,
        vocab_and_merges: None,
    };
    let e = load_clip_tokenizer(&neither, "dir", "CLIP-L").unwrap_err();
    assert!(e.message().contains("CLIP-L"));
}

#[test]
fn prompts_are_tokenized_for_all_encoders() {
    let t = tiny();
    let rows = encode(&t, &t, &t, "a cat", 6).unwrap();
    assert_eq!(&rows.clip_l[..4], &[8, 3, 7, 9]);
    assert_eq!(rows.clip_l.len(), 77);
    assert!(rows.clip_l[4..].iter().all(|&x| x == 9));
    assert_eq!(rows.clip_l_eos, 76);
    assert_eq!(rows.clip_g, rows.clip_l);
    assert_eq!(rows.t5, vec![8, 3, 7, 9, 0, 0]);
    assert_eq!(clip_row(&t, "a cat").unwrap(), (rows.clip_l, 76));
    assert_eq!(t5_row(&t, "a cat", 2).unwrap(), vec![8, 3]);
}

#[test]
fn a_tokenizer_without_an_end_is_refused() {
    // A word-level definition that has no end-of-text token.
    let json = br#"{"version":"1.0","truncation":null,"padding":null,"added_tokens":[],
        "normalizer":null,"pre_tokenizer":null,"post_processor":null,"decoder":null,
        "model":{"type":"WordLevel","vocab":{"cat":0,"[UNK]":1},"unk_token":"[UNK]"}}"#;
    let files = ClipTokenizerFiles {
        tokenizer_json: Some(json.to_vec()),
        vocab_and_merges: None,
    };
    let t = load_clip_tokenizer(&files, "dir", "CLIP-L").unwrap();
    let e = clip_row(&t, "cat").unwrap_err();
    assert_eq!(e.message(), "sd3: CLIP tokenizer missing <|endoftext|>");
    assert_eq!(t5_row(&t, "cat", 2).unwrap(), vec![0, 0]);
}

fn names(v: &[&str]) -> Option<Vec<String>> {
    Some(v.iter().map(|s| s.to_string()).collect())
}

#[test]
fn weight_files_are_sorted() {
    let dir = names(&[
        "model-00002-of-00002.safetensors",
        "config.json",
        ".safetensors",
        "model-00001-of-00002.safetensors",
    ]);
    assert_eq!(
        safetensors_in("text_encoder_3", &dir).unwrap(),
        vec![
            "model-00001-of-00002.safetensors",
            "model-00002-of-00002.safetensors"
        ]
    );
    assert_eq!(
        single_safetensors("text_encoder_3", &dir).unwrap(),
        "model-00001-of-00002.safetensors"
    );
    let e = safetensors_in("d", &names(&["config.json"])).unwrap_err();
    assert_eq!(e.message(), "sd3: no .safetensors found in d");
    let e = single_safetensors("d", &None).unwrap_err();
    assert_eq!(
        e.message(),
        "sd3 snapshot is missing the d component directory"
    );
}

#[test]
fn projections_are_found() {
    let tensors = vec![
        TensorEntry {
            name: "text_model.x".into(),
            dims: vec![1],
        },
        TensorEntry {
            name: "text_projection.weight".into(),
            dims: vec![768, 768],
        },
    ];
    assert_eq!(text_projection(&tensors, "text_encoder", "f").unwrap(), 1);
    let Err(Error::Msg(m)) = text_projection(&vec![], "text_encoder", "f") else {
        panic!("a missing projection must error")
    };
    assert_eq!(
        m,
        "sd3 conditioning: text_projection.weight missing from text_encoder/ checkpoint (f)"
    );
}

#[test]
fn encoder_parts_have_places() {
    assert_eq!(EncoderPart::T5Tokenizer.place().0, "tokenizer_3/tokenizer.json");
    assert_eq!(EncoderPart::ClipG.place(), ("text_encoder_2", "CLIP-bigG"));
}

/// A word-level definition with the given parts.
fn definition(parts: &str, model: &str) -> Vec<u8> {
    format!(r#"{{"version":"1.0",{parts}"added_tokens":[],"model":{model}}}"#).into_bytes()
}

const WORDS: &str = r#"{"type":"WordLevel","vocab":{"b":0,"[UNK]":1,"A":2},"unk_token":"[UNK]"}"#;

fn refusal(bytes: &[u8]) -> String {
    load_tokenizer(bytes).unwrap_err()
}

const MODEL: &str = "the model is not supported";
const NORMALIZER: &str = "the normalizer is not supported";
const PRE_TOKENIZER: &str = "the pre-tokenizer is not supported";
const POST_PROCESSOR: &str = "the post-processor is not supported";
const ADDED_TOKENS: &str = "the added tokens are not supported";

#[test]
fn bytes_that_are_no_definition_are_refused() {
    assert!(load_tokenizer(&definition("", WORDS)).is_ok());
    // Cut off inside the decoder.
    let cut = br#"{"version":"1.0","decoder":{"type":"ByteLe"#;
    assert!(refusal(cut).contains("EOF"));
    assert!(load_tokenizer(b"[]").is_err());
    // Not a tokenizer at all.
    assert!(load_tokenizer(b"{}").is_err());
    // A part that is there twice.
    let twice = r#""normalizer":null,"normalizer":null,"#;
    assert_eq!(
        refusal(&definition(twice, WORDS)),
        "a member of the definition occurs twice"
    );
}

#[test]
fn merges_join_to_tokens() {
    let bpe = |vocab: &str, merges: &str, prefix: &str| {
        definition(
            "",
            &format!(
                r#"{{"type":"BPE","continuing_subword_prefix":{prefix},"vocab":{{{vocab}}},"merges":{merges}}}"#
            ),
        )
    };
    let two = r#""ab":0,"cd":1"#;
    // A merge that joins to more than the longest token, as a pair and as a line.
    assert_eq!(refusal(&bpe(two, r#"[["ab","cd"]]"#, "null")), MODEL);
    assert_eq!(refusal(&bpe(two, r#"["ab cd"]"#, "null")), MODEL);
    // A prefix that is longer than the token behind it, or that ends within a character.
    assert_eq!(refusal(&bpe(two, r#"["ab cd"]"#, "\"xyz\"")), MODEL);
    let accent = r##""#":0,"é":1,"#éé":2"##;
    assert_eq!(refusal(&bpe(accent, r##"[["#","é"]]"##, "\"#\"")), MODEL);
    assert!(load_tokenizer(&bpe(two, "[]", "null")).is_ok());
    assert!(load_tokenizer(&bpe(two, r##"["#version: 0.2"]"##, "null")).is_ok());
    let prefixed = r##""a":0,"#b":1,"ab":2"##;
    let t = load_tokenizer(&bpe(prefixed, r##"[["a","#b"]]"##, "\"#\"")).unwrap();
    assert_eq!(token_ids(&t, "ab", false).unwrap(), vec![2]);
    // A model that does not say its type is told by its members.
    let untyped = definition("", r#"{"vocab":{"b":0,"[UNK]":1},"unk_token":"[UNK]"}"#);
    assert!(load_tokenizer(&untyped).is_ok());
    assert_eq!(refusal(&definition("", "[]")), MODEL);
    // Pieces of a unigram vocabulary.
    let unigram = |piece: &str| {
        definition(
            "",
            &format!(r#"{{"type":"Unigram","unk_id":0,"vocab":[["<unk>",0.0],["{piece}",-1.0]]}}"#),
        )
    };
    let t = load_tokenizer(&unigram("ab")).unwrap();
    assert_eq!(token_ids(&t, "abab", false).unwrap(), vec![1, 1]);
    assert_eq!(refusal(&unigram(&"a".repeat(100_000))), MODEL);
}

#[test]
fn normalizers_keep_to_the_text() {
    let with = |normalizer: &str| definition(&format!(r#""normalizer":{normalizer},"#), WORDS);
    let chain = |parts: &str| with(&format!(r#"{{"type":"Sequence","normalizers":[{parts}]}}"#));
    let lower = r#"{"type":"Lowercase"}"#;
    // Text that is put before a text without being aligned with it.
    assert_eq!(
        refusal(&chain(&format!(r#"{{"type":"Prepend","prepend":""}},{lower}"#))),
        NORMALIZER
    );
    for pattern in [
        r#"{"Regex":"^"}"#,
        r#"{"Regex":"x*"}"#,
        r#"{"Regex":""}"#,
        r#"{"String":""}"#,
        r#"{"Regex":"x","String":"x"}"#,
    ] {
        let replace = format!(r#"{{"type":"Replace","pattern":{pattern},"content":"y"}}"#);
        assert_eq!(refusal(&chain(&format!("{replace},{lower}"))), NORMALIZER);
        assert_eq!(refusal(&with(&replace)), NORMALIZER);
    }
    assert_eq!(refusal(&with(r#"["NFC"]"#)), NORMALIZER);
    assert_eq!(refusal(&with(r#"{"type":"Else"}"#)), NORMALIZER);
    // What takes every text.
    let encode = |bytes: &[u8], text: &str| {
        let t = load_tokenizer(bytes).unwrap();
        token_ids(&t, text, false).unwrap()
    };
    let prepend = r#"{"type":"Prepend","prepend":"A"}"#;
    assert_eq!(encode(&chain(prepend), ""), Vec::<u32>::new());
    assert_eq!(encode(&chain(&format!("{prepend},{lower}")), "B"), vec![1]);
    assert_eq!(encode(&chain(lower), "B"), vec![0]);
    let string = r#"{"type":"Replace","pattern":{"String":"x"},"content":"b"}"#;
    assert_eq!(encode(&chain(&format!("{string},{lower}")), "x"), vec![0]);
    let runs = r#"{"type":"Replace","pattern":{"Regex":" {2,}"},"content":"A"}"#;
    assert_eq!(encode(&with(runs), "   "), vec![2]);
    let bert = r#"{"type":"BertNormalizer","clean_text":true,"handle_chinese_chars":true,"strip_accents":null,"lowercase":true}"#;
    assert_eq!(encode(&with(bert), "B"), vec![0]);
    assert_eq!(refusal(&with(r#"{"type":"BertNormalizer"}"#)), NORMALIZER);
}

#[test]
fn pre_tokenizers_go_forward() {
    let with = |part: &str| definition(&format!(r#""pre_tokenizer":{part},"#), WORDS);
    let chain = |parts: &str| with(&format!(r#"{{"type":"Sequence","pretokenizers":[{parts}]}}"#));
    // One that cuts nothing off, also within a sequence.
    let none = r#"{"type":"FixedLength","length":0}"#;
    assert_eq!(refusal(&with(none)), PRE_TOKENIZER);
    assert_eq!(refusal(&chain(none)), PRE_TOKENIZER);
    let odd = r#"{"type":"Split","pattern":{"Regex":"b\\Kb"},"behavior":"Isolated","invert":false}"#;
    assert_eq!(refusal(&with(odd)), PRE_TOKENIZER);
    assert_eq!(refusal(&with("[]")), PRE_TOKENIZER);
    let each = r#"{"type":"FixedLength","length":1}"#;
    let t = load_tokenizer(&chain(each)).unwrap();
    assert_eq!(token_ids(&t, "bA", false).unwrap(), vec![0, 2]);
    let delimited = r#"{"type":"CharDelimiterSplit","delimiter":"-"}"#;
    let t = load_tokenizer(&with(delimited)).unwrap();
    assert_eq!(token_ids(&t, "b-A-", false).unwrap(), vec![0, 2]);
    let split = r#"{"type":"Split","pattern":{"String":"-"},"behavior":"Removed","invert":false}"#;
    let t = load_tokenizer(&chain(split)).unwrap();
    assert_eq!(token_ids(&t, "b-A", false).unwrap(), vec![0, 2]);
}

#[test]
fn templates_are_filled_in() {
    let template = |piece: &str| {
        format!(
            r#"{{"type":"TemplateProcessing","single":[{piece}],"pair":[],"special_tokens":{{"[S]":{{"id":"[S]","ids":[5],"tokens":["[S]"]}}}}}}"#
        )
    };
    let with = |part: &str| definition(&format!(r#""post_processor":{part},"#), WORDS);
    let chain = |parts: &str| format!(r#"{{"type":"Sequence","processors":[{parts}]}}"#);
    let token = |id: &str| format!(r#"{{"SpecialToken":{{"id":"{id}","type_id":0}}}}"#);
    let text = |id: &str| format!(r#"{{"Sequence":{{"id":"{id}","type_id":0}}}}"#);
    // A token that is not defined, a second text, and pieces and parts that are arrays.
    for piece in [
        token("[X]"),
        text("B"),
        r#"{"Sequence":["B",0]}"#.into(),
        r#"{"SpecialToken":["[X]",0]}"#.into(),
    ] {
        assert_eq!(refusal(&with(&template(&piece))), POST_PROCESSOR);
        assert_eq!(refusal(&with(&chain(&template(&piece)))), POST_PROCESSOR);
    }
    assert_eq!(refusal(&with(r#"[[],[],{}]"#)), POST_PROCESSOR);
    assert_eq!(refusal(&with(&chain(r#"[[],[],{}]"#))), POST_PROCESSOR);
    // A template behind one that leaves more than the text.
    let full = template(&format!("{},{}", text("A"), token("[S]")));
    let bare = template(&text("A"));
    assert_eq!(refusal(&with(&chain(&format!("{full},{bare}")))), POST_PROCESSOR);
    assert_eq!(
        refusal(&with(&chain(&format!("{},{bare}", chain(&full))))),
        POST_PROCESSOR
    );
    for part in [
        full.clone(),
        chain(&full),
        chain(&chain(&full)),
        chain(&format!("{},{full}", chain(&bare))),
    ] {
        let t = load_tokenizer(&with(&part)).unwrap();
        assert_eq!(token_ids(&t, "b", true).unwrap(), vec![0, 5]);
        assert_eq!(token_ids(&t, "b", false).unwrap(), vec![0]);
    }
}

#[test]
fn added_tokens_do_not_overlap() {
    let token = |content: &str, left: bool, right: bool, normalized: bool| {
        format!(
            r#"{{"id":0,"content":"{content}","single_word":false,"lstrip":{left},"rstrip":{right},"normalized":{normalized},"special":false}}"#
        )
    };
    let with = |parts: &str, tokens: &str| {
        format!(r#"{{"version":"1.0",{parts}"added_tokens":[{tokens}],"model":{WORDS}}}"#)
            .into_bytes()
    };
    let a = token("A", false, true, false);
    // White space that two tokens take.
    let space = token(" ", true, false, false);
    assert_eq!(refusal(&with("", &format!("{a},{space}"))), ADDED_TOKENS);
    assert!(load_tokenizer(&with("", &space)).is_ok());
    let extra = token("<extra_id_0>", true, true, false);
    let t = load_tokenizer(&with("", &format!("{a},{extra}"))).unwrap();
    assert_eq!(token_ids(&t, "A  b", false).unwrap(), vec![2, 0]);
    assert_eq!(token_ids(&t, "A  <extra_id_0> b", false).unwrap(), vec![2, 3, 0]);
    // A token of which the normalizer may leave nothing.
    let strip = r#""normalizer":{"type":"Strip","strip_left":true,"strip_right":true},"#;
    let kept = token("A", false, false, true);
    assert_eq!(refusal(&with(strip, &kept)), NORMALIZER);
    assert!(load_tokenizer(&with(strip, &a)).is_ok());
    let lower = r#""normalizer":{"type":"Lowercase"},"#;
    assert!(load_tokenizer(&with(lower, &kept)).is_ok());
    assert_eq!(refusal(&with("", "[]")), ADDED_TOKENS);
    assert_eq!(refusal(&with("", r#"{"content":"A"}"#)), ADDED_TOKENS);
}

#[test]
fn texts_are_cut_and_filled_up() {
    let fill = |strategy: &str, multiple: &str| {
        definition(
            &format!(
                r#""padding":{{"strategy":{strategy},"direction":"Right","pad_to_multiple_of":{multiple},"pad_id":9,"pad_type_id":0,"pad_token":"b"}},"#
            ),
            WORDS,
        )
    };
    // A length that no machine holds.
    let most = usize::MAX.to_string();
    let fixed = format!(r#"{{"Fixed":{most}}}"#);
    assert!(refusal(&fill(&fixed, "null")).contains("padding"));
    assert!(refusal(&fill(r#""BatchLongest""#, &most)).contains("padding"));
    let t = load_tokenizer(&fill(r#"{"Fixed":2000000}"#, "null")).unwrap();
    assert_eq!(token_ids(&t, "b", false).unwrap().len(), 2_000_000);
    let t = load_tokenizer(&fill(r#""BatchLongest""#, "3")).unwrap();
    assert_eq!(token_ids(&t, "b", false).unwrap(), vec![0, 9, 9]);
    // Parts that do not go forward, or leave no room.
    let cut_to = |max: usize, stride: usize| {
        definition(
            &format!(
                r#""truncation":{{"direction":"Right","max_length":{max},"strategy":"LongestFirst","stride":{stride}}},"#
            ),
            WORDS,
        )
    };
    assert!(refusal(&cut_to(2, 2)).contains("truncation"));
    assert!(load_tokenizer(&cut_to(2, 1)).is_ok());
}

fn base64(bytes: &[u8]) -> String {
    let digits: Vec<char> = ('A'..='Z')
        .chain('a'..='z')
        .chain('0'..='9')
        .chain(['+', '/'])
        .collect();
    let mut out = String::new();
    for chunk in bytes.chunks(3) {
        let word = chunk.iter().fold(0u32, |w, &b| w << 8 | b as u32) << (8 * (3 - chunk.len()));
        for i in 0..4 {
            let digit = digits[(word >> (18 - 6 * i)) as usize & 63];
            out.push(if i <= chunk.len() { digit } else { '=' });
        }
    }
    out
}

/// A character map that replaces `A` by `b`, with the trie offset `jump` behind `A`.
fn charsmap(jump: u32, text: &[u8]) -> String {
    let mut units = vec![0u32; 256];
    units[65] = 65 | 1 << 8 | jump << 10;
    units[64] = 1 << 31;
    let mut bytes = 1024u32.to_le_bytes().to_vec();
    for u in units {
        bytes.extend(u.to_le_bytes());
    }
    bytes.extend(text);
    base64(&bytes)
}

#[test]
fn character_maps_are_followed_or_refused() {
    let with = |map: &str| {
        definition(
            &format!(r#""normalizer":{{"type":"Precompiled","precompiled_charsmap":"{map}"}},"#),
            WORDS,
        )
    };
    let t = load_tokenizer(&with(&charsmap(1, b"b\0"))).unwrap();
    assert_eq!(token_ids(&t, "A", false).unwrap(), vec![0]);
    // Out of the trie, out of the texts, not UTF-8, not base 64, and not there.
    assert_eq!(refusal(&with(&charsmap(0x200, b"b\0"))), NORMALIZER);
    assert_eq!(refusal(&with(&charsmap(0, b""))), NORMALIZER);
    assert_eq!(refusal(&with(&charsmap(1, b"\xff\0"))), NORMALIZER);
    assert_eq!(refusal(&with("!!!!")), NORMALIZER);
    assert_eq!(refusal(&with("")), NORMALIZER);
    let none = r#""normalizer":{"type":"Sequence","normalizers":[{"type":"Precompiled"}]},"#;
    assert_eq!(refusal(&definition(none, WORDS)), NORMALIZER);
}

#[test]
fn a_t5_definition_is_taken() {
    let map = charsmap(1, b"b\0");
    let extra = |i: usize| {
        format!(
            r#"{{"id":{i},"content":"<extra_id_{i}>","single_word":false,"lstrip":true,"rstrip":true,"normalized":false,"special":true}}"#
        )
    };
    let json = format!(
        r#"{{"version":"1.0","truncation":null,"padding":null,"added_tokens":[{},{}],"normalizer":{{"type":"Sequence","normalizers":[{{"type":"Precompiled","precompiled_charsmap":"{map}"}},{{"type":"Strip","strip_left":false,"strip_right":true}},{{"type":"Replace","pattern":{{"Regex":" {{2,}}"}},"content":"▁"}}]}},"pre_tokenizer":{{"type":"Metaspace","replacement":"▁","prepend_scheme":"always","split":true}},"post_processor":{{"type":"TemplateProcessing","single":[{{"Sequence":{{"id":"A","type_id":0}}}},{{"SpecialToken":{{"id":"</s>","type_id":0}}}}],"pair":[],"special_tokens":{{"</s>":{{"id":"</s>","ids":[1],"tokens":["</s>"]}}}}}},"decoder":{{"type":"Metaspace","replacement":"▁","prepend_scheme":"always","split":true}},"model":{{"type":"Unigram","unk_id":0,"vocab":[["<unk>",0.0],["</s>",0.0],["▁b",-1.0],["c",-2.0]],"byte_fallback":false}}}}"#,
        extra(0),
        extra(1)
    );
    let t = load_tokenizer(json.as_bytes()).unwrap();
    assert_eq!(token_ids(&t, "Ac   b ", true).unwrap(), vec![2, 3, 2, 1]);
    assert_eq!(token_ids(&t, "b", false).unwrap(), vec![2]);
    assert_eq!(t.id_of("<extra_id_1>"), Some(5));
}

#[test]
fn chance_is_left_to_the_model() {
    let bpe = |dropout: &str| {
        let model = format!(
            r#"{{"type":"BPE","dropout":{dropout},"vocab":{{"a":0,"b":1,"ab":2}},"merges":[["a","b"]]}}"#
        );
        load_tokenizer(&definition("", &model)).unwrap()
    };
    assert_eq!(token_ids(&bpe("null"), "ab", false).unwrap(), vec![2]);
    // Every merge is left out.
    assert_eq!(token_ids(&bpe("1.0"), "ab", false).unwrap(), vec![0, 1]);
}

#[test]
fn t5_configurations_are_read() {
    let text = r#"{"vocab_size":32128,"d_model":4096,"d_kv":64,"d_ff":10240,"num_layers":24,"num_decoder_layers":24,"num_heads":64,"relative_attention_num_buckets":32,"dropout_rate":0.1,"layer_norm_epsilon":1e-06,"initializer_factor":1.0,"feed_forward_proj":"gated-gelu","tie_word_embeddings":false,"is_encoder_decoder":true,"use_cache":true,"pad_token_id":0,"eos_token_id":1,"decoder_start_token_id":0}"#;
    let c = t5_config(text).unwrap();
    let g = c.geometry;
    assert_eq!((g.vocab_size, g.d_model, g.d_kv, g.d_ff), (32128, 4096, 64, 10240));
    assert_eq!((g.num_layers, g.num_heads), (24, 64));
    assert_eq!(g.num_decoder_layers, Some(24));
    assert_eq!(g.relative_attention_num_buckets, 32);
    assert_eq!(g.dropout_rate.bits, 0.1f64.to_bits());
    assert_eq!(g.layer_norm_epsilon.bits, 1e-6f64.to_bits());
    assert_eq!(g.initializer_factor.bits, 1.0f64.to_bits());
    assert_eq!((g.gated, c.activation.as_str()), (true, "\"newgelu\""));
    assert_eq!((g.pad_token_id, g.eos_token_id), (0, 1));
    assert_eq!(g.decoder_start_token_id, Some(0));
    assert!(!g.tie_word_embeddings && g.is_encoder_decoder && g.use_cache);
    // What the file leaves out.
    assert_eq!(g.relative_attention_max_distance, 128);
    assert!(!g.is_decoder);
    for bad in ["{}", "", &text.replace("gated-gelu", "gated-none")] {
        let e = t5_config(bad).unwrap_err().message();
        assert!(e.starts_with("sd3: parse T5 config.json: "), "{e}");
    }
}
