use metal_infer::error::ModelError;
use metal_infer::json::Json;
use metal_infer::tokenizer::{
    check_blanks, check_file, check_parts, decoding_result, encoding_result, render_qwen_chat,
    ChatMessage, ModelTokenizer,
};
use tokenizers::Tokenizer;

fn message(role: &str, content: &str) -> ChatMessage {
    ChatMessage { role: role.into(), content: content.into() }
}

/// Words that are split at spaces, with markers before and behind a text.
const WORDS: &str = r#"{
    "version": "1.0",
    "truncation": null,
    "padding": null,
    "added_tokens": [
        {"id": 0, "content": "<s>", "single_word": false, "lstrip": false,
         "rstrip": false, "normalized": false, "special": true},
        {"id": 1, "content": "</s>", "single_word": false, "lstrip": false,
         "rstrip": false, "normalized": false, "special": true}
    ],
    "normalizer": null,
    "pre_tokenizer": {"type": "WhitespaceSplit"},
    "post_processor": {
        "type": "TemplateProcessing",
        "single": [
            {"SpecialToken": {"id": "<s>", "type_id": 0}},
            {"Sequence": {"id": "A", "type_id": 0}}
        ],
        "pair": [],
        "special_tokens": {"<s>": {"id": "<s>", "ids": [0], "tokens": ["<s>"]}}
    },
    "decoder": null,
    "model": {
        "type": "WordLevel",
        "vocab": {"<s>": 0, "</s>": 1, "hello": 2, "world": 3, "<unk>": 4},
        "unk_token": "<unk>"
    }
}"#;

/// A tokenizer from a file that is well formed.
fn open(file: &str) -> Result<ModelTokenizer, ModelError> {
    Tokenizer::from_bytes(file).expect("the tokenizer is well formed");
    ModelTokenizer::new(file.as_bytes(), None)
}

#[test]
fn renders_qwen_chat_boundaries() {
    let prompt = render_qwen_chat(&[
        ChatMessage { role: "system".into(), content: "Be concise.".into() },
        ChatMessage { role: "user".into(), content: "Hello".into() },
    ])
    .expect("chat rendering should succeed");
    assert_eq!(
        prompt,
        "<|im_start|>system\nBe concise.<|im_end|>\n<|im_start|>user\nHello<|im_end|>\n<|im_start|>assistant\n"
    );
}

#[test]
fn a_chat_needs_messages_with_known_roles() {
    assert!(matches!(render_qwen_chat(&[]), Err(ModelError::EmptyChat)));
    assert!(matches!(
        render_qwen_chat(&[message("user", "a"), message("robot", "b")]),
        Err(ModelError::UnsupportedChatRole)
    ));
    for role in ["system", "user", "assistant", "tool"] {
        assert!(render_qwen_chat(&[message(role, "a")]).is_ok());
    }
}

#[test]
fn a_text_is_encoded_with_its_markers() {
    let tokenizer = open(WORDS).expect("usable");
    assert_eq!(tokenizer.encode("hello world").expect("encoded"), vec![0, 2, 3]);
    assert_eq!(tokenizer.encode("hello there").expect("encoded"), vec![0, 2, 4]);
    assert!(tokenizer.eos_token_ids().is_empty());
}

#[test]
fn tokens_are_decoded_without_the_special_ones() {
    let tokenizer = open(WORDS).expect("usable");
    assert_eq!(tokenizer.decode(&[0, 2, 3, 1]).expect("decoded"), "hello world");
    assert_eq!(tokenizer.decode(&[]).expect("decoded"), "");
    assert_eq!(tokenizer.decode(&[77]).expect("decoded"), "");
}

#[test]
fn a_chat_is_encoded_as_it_is_rendered() {
    let tokenizer = open(WORDS).expect("usable");
    let ids = tokenizer.encode_chat(&[message("user", "hello world")]).expect("encoded");
    assert_eq!(ids, vec![4, 2, 4, 4], "no marker is added");
    assert!(matches!(tokenizer.encode_chat(&[]), Err(ModelError::EmptyChat)));
}

#[test]
fn end_tokens_are_collected_once() {
    let content = |value| Json::Object(vec![("content".into(), value)]);
    let named = Json::List(vec![
        Json::Text("</s>".into()),
        content(Json::Text("hello".into())),
        Json::Text("not there".into()),
        Json::List(vec![Json::Text("</s>".into())]),
        content(Json::Null),
        Json::Bool(true),
        Json::Number("3".into()),
    ]);
    let tokenizer = ModelTokenizer::new(WORDS.as_bytes(), Some(&named)).expect("usable");
    assert_eq!(tokenizer.eos_token_ids(), &[1, 2]);
}

#[test]
fn a_tokenizer_that_cannot_run_is_refused() {
    let cut = WORDS.replace(
        r#""truncation": null"#,
        r#""truncation": {"direction": "Right", "max_length": 4, "strategy": "LongestFirst", "stride": 3}"#,
    );
    assert!(matches!(open(&cut), Err(ModelError::TokenizerLoad)));
    let shorter = WORDS.replace(
        r#""truncation": null"#,
        r#""truncation": {"direction": "Right", "max_length": 2, "strategy": "LongestFirst", "stride": 0}"#,
    );
    let tokenizer = open(&shorter).expect("usable");
    assert_eq!(tokenizer.encode("hello world").expect("encoded"), vec![0, 2]);
    let stripping = WORDS.replace(
        r#""decoder": null"#,
        r#""decoder": {"type": "Strip", "content": "o", "start": 0, "stop": 1}"#,
    );
    assert!(matches!(open(&stripping), Err(ModelError::TokenizerLoad)));
    let harmless = WORDS.replace(
        r#""decoder": null"#,
        r#""decoder": {"type": "Sequence", "decoders": [
            {"type": "Strip", "content": "h", "start": 1, "stop": 0}, {"type": "Fuse"}]}"#,
    );
    let tokenizer = open(&harmless).expect("usable");
    assert_eq!(tokenizer.decode(&[2, 3]).expect("decoded"), "elloworld");
}

#[test]
fn a_file_that_cannot_be_loaded_is_refused() {
    let refused = |file: &str| {
        matches!(ModelTokenizer::new(file.as_bytes(), None), Err(ModelError::TokenizerLoad))
    };
    assert!(refused(""), "no JSON");
    assert!(refused("{}"), "no model");
    assert!(refused(&WORDS.replace("WordLevel", "Guess")));
    let model = &WORDS[WORDS.find(r#""model""#).expect("a model")..];
    let joining = |prefix: &str| {
        WORDS.replace(
            model,
            &format!(
                r#""model": {{"type": "BPE", "continuing_subword_prefix": {prefix},
                    "vocab": {{"h": 0, "o": 1, "ho": 2, "<s>": 3, "</s>": 4, "ooo": 5}},
                    "merges": [["h", "o"]]}}}}"#
            ),
        )
    };
    assert!(refused(&joining(r#""ooo""#)), "a piece shorter than the prefix");
    for none in ["null", r#""""#] {
        let tokenizer = open(&joining(none)).expect("usable");
        assert_eq!(tokenizer.encode("ho o").expect("encoded"), vec![0, 2, 1]);
    }
    let table = r#""normalizer": {"type": "Precompiled", "precompiled_charsmap": "AAAA"}"#;
    assert!(refused(&WORDS.replace(r#""normalizer": null"#, table)), "a broken table");
    let number = |text: &str| Json::Number(text.into());
    assert!(check_file(&Json::Null));
    assert!(check_file(&Json::Object(vec![("normalizer".into(), Json::Null)])));
    assert!(!check_file(&Json::Object(vec![("normalizer".into(), number("1"))])));
}

#[test]
fn end_tokens_are_read_from_the_configuration() {
    let ends = |config: &str| {
        ModelTokenizer::from_config(WORDS.as_bytes(), Some(config.as_bytes()))
            .map(|tokenizer| tokenizer.eos_token_ids().to_vec())
    };
    assert_eq!(ends(r#"{"eos_token": "</s>"}"#).expect("usable"), vec![1]);
    assert_eq!(ends(r#"{"eos_token": {"content": "world"}}"#).expect("usable"), vec![3]);
    assert_eq!(ends(r#"{"eos_token": ["world", ["</s>"], null, 1]}"#).expect("usable"), vec![3, 1]);
    assert_eq!(ends(r#"{"bos_token": "<s>"}"#).expect("usable"), Vec::<u32>::new());
    assert_eq!(ends("[]").expect("usable"), Vec::<u32>::new());
    assert!(matches!(ends("{"), Err(ModelError::Json)));
    assert!(matches!(
        ModelTokenizer::from_config(b"{", Some(b"{")),
        Err(ModelError::TokenizerLoad)
    ));
    let plain = ModelTokenizer::from_config(WORDS.as_bytes(), None).expect("usable");
    assert!(plain.eos_token_ids().is_empty());
}

#[test]
fn a_tokenizer_with_a_faulty_part_is_refused() {
    let refused = |from: &str, to: &str| {
        let changed = WORDS.replace(from, to);
        assert_ne!(changed, WORDS, "{from}");
        matches!(open(&changed), Err(ModelError::TokenizerLoad))
    };
    let split = r#"{"type": "WhitespaceSplit"}"#;
    assert!(refused(split, r#"{"type": "FixedLength", "length": 0}"#));
    assert!(!refused(split, r#"{"type": "FixedLength", "length": 2}"#));
    assert!(refused(
        split,
        r#"{"type": "Sequence", "pretokenizers": [
            {"type": "WhitespaceSplit"}, {"type": "FixedLength", "length": 0}]}"#
    ));
    assert!(!refused(
        split,
        r#"{"type": "Sequence", "pretokenizers": [
            {"type": "WhitespaceSplit"}, {"type": "Digits", "individual_digits": true}]}"#
    ));
    let decoder = r#""decoder": null"#;
    assert!(refused(decoder, r#""decoder": {"type": "BPEDecoder", "suffix": "</w>"}"#));
    assert!(!refused(
        decoder,
        r#""decoder": {"type": "ByteLevel", "add_prefix_space": true, "trim_offsets": true, "use_regex": true}"#
    ));
    let known = r#"{"<s>": {"id": "<s>", "ids": [0], "tokens": ["<s>"]}}"#;
    assert!(refused(known, "{}"), "the template names a token that it lacks");
    assert!(refused(
        r#"{"Sequence": {"id": "A", "type_id": 0}}"#,
        r#"{"Sequence": {"id": "B", "type_id": 0}}"#
    ));
    let text = r#"{"Sequence": {"id": "A", "type_id": 0}}"#;
    assert!(refused(text, &format!("{text}, {text}")), "the text stands there twice");
    let normalizer = r#""normalizer": null"#;
    assert!(!refused(normalizer, r#""normalizer": {"type": "NFC"}"#));
    assert!(!refused(normalizer, r#""normalizer": {"type": "Prepend", "prepend": "_"}"#));
    assert!(refused(normalizer, r#""normalizer": {"type": "Prepend", "prepend": ""}"#));
    let replace = |pattern: &str, content: &str| {
        format!(r#"{{"type": "Replace", "pattern": {pattern}, "content": "{content}"}}"#)
    };
    let normal = |part: &str| refused(normalizer, &format!(r#""normalizer": {part}"#));
    assert!(!normal(&replace(r#"{"String": " "}"#, "_")));
    assert!(normal(&replace(r#"{"String": ""}"#, "_")), "it matches nothing everywhere");
    assert!(normal(&replace(r#"{"String": " "}"#, "")), "it may leave nothing");
    assert!(normal(&replace(r#"{"Regex": "a*"}"#, "_")));
    assert!(
        normal(r#"{"type": "Strip", "strip_left": true, "strip_right": true}"#),
        "it may leave nothing"
    );
    assert!(normal(r#"{"type": "Sequence", "normalizers": [{"type": "NFC"}, {"type": "Nmt"}]}"#));
    assert!(!normal(
        r#"{"type": "Sequence", "normalizers": [{"type": "NFKD"}, {"type": "Lowercase"}]}"#
    ));
    let decoded = |part: &str| refused(decoder, &format!(r#""decoder": {part}"#));
    assert!(!decoded(&replace(r#"{"String": "_"}"#, " ")));
    assert!(decoded(&replace(r#"{"Regex": "(?<=\\K..)b"}"#, "c")));
    assert!(refused(
        r#""padding": null"#,
        r#""padding": {"strategy": {"Fixed": 9}, "direction": "Right",
            "pad_to_multiple_of": null, "pad_id": 4, "pad_type_id": 0, "pad_token": "<unk>"}"#
    ));
}

#[test]
fn a_text_is_split_where_a_plain_pattern_says() {
    let with = |pattern: &str| {
        WORDS.replace(
            r#"{"type": "WhitespaceSplit"}"#,
            &format!(
                r#"{{"type": "Split", "pattern": {pattern}, "behavior": "Removed", "invert": false}}"#
            ),
        )
    };
    let loaded = |pattern: &str| open(&with(pattern));
    for pattern in [r#"{"String": "-"}"#, r#"{"Regex": "-+(?!-)|\\s"}"#, r#"{"Regex": "(?i:-)"}"#] {
        let tokenizer = loaded(pattern).expect("usable");
        assert_eq!(tokenizer.encode("hello-world").expect("encoded"), vec![0, 2, 3], "{pattern}");
    }
    for pattern in [
        r#"{"String": ""}"#,
        r#"{"Regex": "(?<=\\K..)b"}"#,
        r#"{"Regex": "(?<=a)b"}"#,
        r#"{"Regex": "(?:(a|b\\1)c)+"}"#,
        r#"{"Regex": "(?<x>a)b"}"#,
        r#"{"Regex": "(?x: a)b"}"#,
        r#"{"Regex": "(?>a)b"}"#,
        r#"{"Regex": "\\Ga"}"#,
    ] {
        assert!(matches!(loaded(pattern), Err(ModelError::TokenizerLoad)), "{pattern}");
    }
}

#[test]
fn added_tokens_take_blanks_from_one_side() {
    let with = |left: &str, right: &str| {
        let mark = |id: &str, sides: &str| {
            (
                format!(r#"{{"id": {id}, "content": "{}", "single_word": false, "lstrip": false,
         "rstrip": false,"#, if id == "0" { "<s>" } else { "</s>" }),
                format!(r#"{{"id": {id}, "content": "{}", "single_word": false, {sides},"#,
                    if id == "0" { "<s>" } else { "</s>" }),
            )
        };
        let (first, first_new) = mark("0", left);
        let (second, second_new) = mark("1", right);
        let changed = WORDS.replace(&first, &first_new).replace(&second, &second_new);
        assert_ne!(changed, WORDS);
        open(&changed)
    };
    let neither = r#""lstrip": false, "rstrip": false"#;
    let left = r#""lstrip": true, "rstrip": false"#;
    let right = r#""lstrip": false, "rstrip": true"#;
    let both = r#""lstrip": true, "rstrip": true"#;
    let tokenizer = with(left, left).expect("usable");
    assert_eq!(tokenizer.encode("hello  </s>world").expect("encoded"), vec![0, 2, 1, 3]);
    assert!(with(right, neither).is_ok());
    assert!(matches!(with(left, right), Err(ModelError::TokenizerLoad)));
    assert!(matches!(with(both, neither), Err(ModelError::TokenizerLoad)));
    assert!(check_blanks(&vec![]));
    assert!(check_blanks(&vec![(false, true), (false, false)]));
    assert!(!check_blanks(&vec![(false, true), (false, false), (true, false)]));
}

#[test]
fn the_parts_of_the_model_are_usable() {
    let bytes = WORDS
        .replace(r#""normalizer": null"#, r#""normalizer": {"type": "NFC"}"#)
        .replace(
            r#"{"type": "WhitespaceSplit"}"#,
            r#"{"type": "Sequence", "pretokenizers": [
                {"type": "Split", "pattern": {"Regex": "(?i:'s|'t|'re|'ve|'m|'ll|'d)|[^\\r\\n\\p{L}\\p{N}]?\\p{L}+|\\p{N}| ?[^\\s\\p{L}\\p{N}]+[\\r\\n]*|\\s*[\\r\\n]+|\\s+(?!\\S)|\\s+"},
                 "behavior": "Isolated", "invert": false},
                {"type": "ByteLevel", "add_prefix_space": false, "trim_offsets": false,
                 "use_regex": false}]}"#,
        )
        .replace(
            r#""decoder": null"#,
            r#""decoder": {"type": "ByteLevel", "add_prefix_space": false, "trim_offsets": false,
                "use_regex": false}"#,
        )
        .replace(r#""world": 3"#, r#""\u0120world": 3"#);
    let tokenizer = open(&bytes).expect("usable");
    assert_eq!(tokenizer.encode("hello world").expect("encoded"), vec![0, 2, 3]);
    assert_eq!(tokenizer.decode(&[2, 3, 1]).expect("decoded"), "hello world");
}

#[test]
fn not_two_templates_follow_each_other() {
    let text = |text: &str| Json::Text(text.into());
    let template = || {
        Json::Object(vec![
            ("type".into(), text("TemplateProcessing")),
            ("single".into(), Json::List(vec![])),
            ("special_tokens".into(), Json::Object(vec![])),
        ])
    };
    let parts = |processors| {
        Json::List(vec![
            Json::Null,
            Json::Null,
            Json::Object(vec![
                ("type".into(), text("Sequence")),
                ("processors".into(), Json::List(processors)),
            ]),
            Json::Null,
        ])
    };
    assert!(check_parts(&parts(vec![])));
    assert!(check_parts(&parts(vec![template()])));
    assert!(!check_parts(&parts(vec![template(), template()])));
    assert!(!check_parts(&Json::Null));
}

#[test]
fn a_failure_of_the_tokenizer_is_named() {
    assert!(matches!(encoding_result(None), Err(ModelError::TokenizerEncode)));
    assert_eq!(encoding_result(Some(vec![1, 2])).expect("encoded"), vec![1, 2]);
    assert!(matches!(decoding_result(None), Err(ModelError::TokenizerDecode)));
    assert_eq!(decoding_result(Some("a".into())).expect("decoded"), "a");
}
