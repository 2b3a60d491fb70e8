//! Text to tokens and back, and the chat format of the model.

use crate::error::ModelError;
use crate::json::{self, Json, JsonView};
use crate::qwen3::generation;
use crate::text;
use vstd::prelude::*;

verus! {

#[derive(Clone, Debug)]
pub struct ChatMessage {
    pub role: String,
    pub content: String,
}

/// Whether a message may have this role.
pub open spec fn supported_role(role: Seq<char>) -> bool {
    role == "system"@ || role == "user"@ || role == "assistant"@ || role == "tool"@
}

/// A message between its markers.
pub open spec fn message_text(message: ChatMessage) -> Seq<char> {
    "<|im_start|>"@ + message.role@ + "\n"@ + message.content@ + "<|im_end|>\n"@
}

pub open spec fn messages_text(messages: Seq<ChatMessage>) -> Seq<char>
    decreases messages.len(),
{
    if messages.len() == 0 {
        Seq::empty()
    } else {
        messages_text(messages.drop_last()) + message_text(messages.last())
    }
}

/// The messages in order, and the opening of the answer.
pub open spec fn chat_text(messages: Seq<ChatMessage>) -> Seq<char> {
    messages_text(messages) + "<|im_start|>assistant\n"@
}

/// Why messages cannot be rendered.
pub open spec fn chat_error(messages: Seq<ChatMessage>) -> Option<ModelError> {
    if messages.len() == 0 {
        Some(ModelError::EmptyChat)
    } else if exists|i: int|
        0 <= i < messages.len() && !supported_role((#[trigger] messages[i]).role@) {
        Some(ModelError::UnsupportedChatRole)
    } else {
        None
    }
}

/// The prompt for a chat.
pub fn render_qwen_chat(messages: &[ChatMessage]) -> (result: Result<String, ModelError>)
    ensures
        match chat_error(messages@) {
            Some(error) => result == Err::<String, ModelError>(error),
            None => result is Ok && result->Ok_0@ == chat_text(messages@),
        },
{
    if messages.len() == 0 {
        return Err(ModelError::EmptyChat);
    }
    let mut prompt = String::new();
    let mut i: usize = 0;
    assert(messages@.take(0) =~= Seq::empty());
    assert(prompt@ =~= messages_text(messages@.take(0)));
    while i < messages.len()
        invariant
            0 < messages@.len(),
            i <= messages@.len(),
            forall|j: int| 0 <= j < i ==> supported_role((#[trigger] messages@[j]).role@),
            prompt@ == messages_text(messages@.take(i as int)),
        decreases messages.len() - i,
    {
        let message = &messages[i];
        let role = message.role.as_str();
        if !text::same(role, "system") && !text::same(role, "user") && !text::same(
            role,
            "assistant",
        ) && !text::same(role, "tool") {
            assert(!supported_role(messages@[i as int].role@));
            return Err(ModelError::UnsupportedChatRole);
        }
        let ghost before = prompt@;
        prompt.append("<|im_start|>");
        prompt.append(role);
        prompt.append("\n");
        prompt.append(message.content.as_str());
        prompt.append("<|im_end|>\n");
        assert(prompt@ =~= before + message_text(messages@[i as int]));
        assert(messages@.take(i + 1).drop_last() =~= messages@.take(i as int));
        i += 1;
    }
    assert(messages@.take(i as int) =~= messages@);
    prompt.append("<|im_start|>assistant\n");
    Ok(prompt)
}

/// The tokens that a value names: a text is one, a list names those of its
/// items, and an object the one that is its content.
pub open spec fn named_tokens(value: JsonView) -> Seq<Seq<char>>
    decreases value,
{
    match value {
        JsonView::Text(token) => seq![token],
        JsonView::List(items) => listed_tokens(items),
        JsonView::Object(_) => match value.text_member("content"@) {
            Some(token) => seq![token],
            None => Seq::empty(),
        },
        _ => Seq::empty(),
    }
}

pub open spec fn listed_tokens(items: Seq<JsonView>) -> Seq<Seq<char>>
    decreases items,
{
    if items.len() == 0 {
        Seq::empty()
    } else {
        listed_tokens(items.drop_last()) + named_tokens(items.last())
    }
}

/// Adds the named tokens to a list.
fn collect_special_tokens(value: &Json, tokens: &mut Vec<String>)
    ensures
        text::string_views(final(tokens)@) == text::string_views(old(tokens)@) + named_tokens(value@),
    decreases value,
{
    let ghost before = text::string_views(tokens@);
    match value {
        Json::Text(token) => {
            tokens.push(token.clone());
            assert(text::string_views(tokens@) =~= before + seq![token@]);
        },
        Json::List(items) => {
            let mut i: usize = 0;
            let ghost all = json::item_views(items@);
            proof {
                json::lemma_item_views(items@);
            }
            assert(all.take(0) =~= Seq::empty());
            assert(before + listed_tokens(all.take(0)) =~= before);
            while i < items.len()
                invariant
                    *value == Json::List(*items),
                    i <= items@.len() == all.len(),
                    forall|j: int| 0 <= j < all.len() ==> #[trigger] all[j] == items@[j].view(),
                    text::string_views(tokens@) == before + listed_tokens(all.take(i as int)),
                decreases items.len() - i,
            {
                assert(decreases_to!(*value => value->List_0));
                assert(decreases_to!(*items => items@));
                assert(decreases_to!(items@ => items@[i as int]));
                collect_special_tokens(&items[i], tokens);
                assert(all.take(i + 1).drop_last() =~= all.take(i as int));
                assert(all.take(i + 1).last() == all[i as int]);
                assert(before + listed_tokens(all.take(i as int)) + named_tokens(all[i as int])
                    =~= before + listed_tokens(all.take(i + 1)));
                i += 1;
            }
            assert(all.take(i as int) =~= all);
        },
        Json::Object(_) => match value.get_text("content") {
            Some(token) => {
                tokens.push(token.to_owned());
                assert(text::string_views(tokens@) =~= before + seq![token@]);
            },
            None => {
                assert(before + Seq::<Seq<char>>::empty() =~= before);
            },
        },
        _ => {
            assert(before + Seq::<Seq<char>>::empty() =~= before);
        },
    }
}

#[verifier::external_type_specification]
#[verifier::external_body]
pub struct ExTokenizer(tokenizers::Tokenizer);

/// Whether loading a file of these bytes can come to this tokenizer, or to none
/// at all.
pub uninterp spec fn may_load(bytes: Seq<u8>, outcome: Option<tokenizers::Tokenizer>) -> bool;

/// The tokens of a tokenizer and their numbers.
pub uninterp spec fn vocabulary(tokenizer: tokenizers::Tokenizer) -> Map<Seq<char>, u32>;

/// The greatest length and the overlap that a tokenizer cuts texts to.
pub uninterp spec fn truncation_of(tokenizer: tokenizers::Tokenizer) -> Option<(usize, usize)>;

/// How many tokens a tokenizer puts around a text.
pub uninterp spec fn added_tokens_of(tokenizer: tokenizers::Tokenizer) -> usize;

/// The token with which a tokenizer fills texts up.
pub uninterp spec fn padding_of(tokenizer: tokenizers::Tokenizer) -> Option<u32>;

/// Whether tokens that were added to a vocabulary take the blanks on their left,
/// and those on their right, with them: the pairs of answers that there are.
pub uninterp spec fn blanks_taken(tokenizer: tokenizers::Tokenizer) -> Set<(bool, bool)>;

/// The normalizer, the pre-tokenizer, the post processor and the decoder of a
/// tokenizer, written as a JSON list of four.
pub uninterp spec fn parts_of(tokenizer: tokenizers::Tokenizer) -> Option<Seq<u8>>;

/// Whether encoding a text, with or without the tokens around it, can come to
/// these numbers, or to no numbers at all.
pub uninterp spec fn may_encode(
    tokenizer: tokenizers::Tokenizer,
    text: Seq<char>,
    special: bool,
    outcome: Option<Seq<u32>>,
) -> bool;

/// The text of tokens, with or without the special ones.
pub uninterp spec fn decoded_text(
    tokenizer: tokenizers::Tokenizer,
    tokens: Seq<u32>,
    skip_special: bool,
) -> Option<Seq<char>>;

/// The parts that a part is made of: those of a sequence, none where there is
/// none, or the part alone.
pub open spec fn flat(part: JsonView, list: Seq<char>) -> Seq<JsonView> {
    if part is Null {
        Seq::empty()
    } else if part.text_member("type"@) == Some("Sequence"@) {
        match part.member(list) {
            Some(JsonView::List(parts)) => parts,
            _ => seq![part],
        }
    } else {
        seq![part]
    }
}

/// Whether a piece of a template for a single text stands for that text, or for
/// a token that the template knows.
pub open spec fn piece_sound(piece: JsonView, known: JsonView) -> bool {
    match piece.member("Sequence"@) {
        Some(sequence) => sequence.text_member("id"@) == Some("A"@),
        None => match piece.member("SpecialToken"@) {
            Some(token) => match token.text_member("id"@) {
                Some(id) => known.member(id) is Some,
                None => false,
            },
            None => false,
        },
    }
}

/// Whether a piece of a template stands for a text.
pub open spec fn is_text(piece: JsonView) -> bool {
    piece.member("Sequence"@) is Some
}

/// Whether a template for a single text knows all its pieces, and has the text
/// once: what is cut off a text that stands there often is joined in every way.
pub open spec fn template_sound(template: JsonView) -> bool {
    match (template.member("single"@), template.member("special_tokens"@)) {
        (Some(JsonView::List(pieces)), Some(known)) => {
            &&& forall|i: int| 0 <= i < pieces.len() ==> piece_sound(#[trigger] pieces[i], known)
            &&& forall|i: int, j: int|
                0 <= i < j < pieces.len() ==> !(is_text(#[trigger] pieces[i]) && is_text(
                    #[trigger] pieces[j],
                ))
        },
        _ => false,
    }
}

pub open spec fn is_zero(value: JsonView) -> bool {
    value matches JsonView::Number(number) && number == "0"@
}

/// Whether a text with something in it is what a part looks for.
pub open spec fn seeks_text(part: JsonView) -> bool {
    match part.member("pattern"@) {
        Some(pattern) => match pattern.text_member("String"@) {
            Some(text) => text.len() > 0,
            None => false,
        },
        None => false,
    }
}

/// A letter behind a backslash that stands for a class of characters, or for one
/// character. Others refer to what was matched before, or move where a match
/// starts.
pub open spec fn plain_escape(c: char) -> bool {
    c == 's' || c == 'S' || c == 'd' || c == 'D' || c == 'w' || c == 'W' || c == 'p' || c == 'P'
        || c == 'r' || c == 'n' || c == 't'
}

/// Whether what begins at a position of a regular expression is plain: no
/// reference back, no look behind, and no match that starts elsewhere.
pub open spec fn plain_at(text: Seq<char>, i: int) -> bool {
    &&& text[i] == '\\' ==> i + 1 < text.len() && plain_escape(text[i + 1])
    &&& text[i] == '(' && i + 1 < text.len() && text[i + 1] == '?' ==> {
        ||| i + 2 < text.len() && (text[i + 2] == ':' || text[i + 2] == '!' || text[i + 2] == '=')
        ||| i + 3 < text.len() && text[i + 2] == 'i' && text[i + 3] == ':'
    }
}

pub open spec fn plain_regex(text: Seq<char>) -> bool {
    forall|i: int| 0 <= i < text.len() ==> #[trigger] plain_at(text, i)
}

/// Whether a plain regular expression is what a part looks for.
pub open spec fn seeks_plainly(part: JsonView) -> bool {
    match part.member("pattern"@) {
        Some(pattern) => match pattern.text_member("Regex"@) {
            Some(text) => plain_regex(text),
            None => false,
        },
        None => false,
    }
}

/// Where a part of a tokenizer stands.
#[derive(Clone, Copy)]
pub enum Place {
    Normalizer,
    PreTokenizer,
    Processor,
    Decoder,
}

/// The normalizers that map every character to something, and so leave
/// something of every text.
pub open spec fn normalizer_sound(part: JsonView, kind: Seq<char>) -> bool {
    if kind == "Prepend"@ {
        part.text_member("prepend"@) matches Some(text) && text.len() > 0
    } else if kind == "Replace"@ {
        seeks_text(part) && (part.text_member("content"@) matches Some(text) && text.len() > 0)
    } else {
        kind == "NFC"@ || kind == "NFD"@ || kind == "NFKC"@ || kind == "NFKD"@ || kind
            == "Lowercase"@ || kind == "ByteLevel"@
    }
}

/// The pre-tokenizers that cut texts into pieces that follow each other.
pub open spec fn pre_tokenizer_sound(part: JsonView, kind: Seq<char>) -> bool {
    if kind == "FixedLength"@ {
        part.member("length"@) matches Some(length) && length is Number && !is_zero(length)
    } else if kind == "Split"@ {
        seeks_text(part) || seeks_plainly(part)
    } else {
        kind == "ByteLevel"@ || kind == "Whitespace"@ || kind == "WhitespaceSplit"@ || kind
            == "BertPreTokenizer"@ || kind == "Punctuation"@ || kind == "Digits"@ || kind
            == "CharDelimiterSplit"@ || kind == "Metaspace"@ || kind == "UnicodeScripts"@
    }
}

/// The post processors that know all that they put around a text.
pub open spec fn processor_sound(part: JsonView, kind: Seq<char>) -> bool {
    if kind == "TemplateProcessing"@ {
        template_sound(part)
    } else {
        kind == "ByteLevel"@ || kind == "BertProcessing"@ || kind == "RobertaProcessing"@
    }
}

/// The decoders that take tokens as they are, of any length and any number.
pub open spec fn decoder_sound(part: JsonView, kind: Seq<char>) -> bool {
    if kind == "Strip"@ {
        part.member("stop"@) matches Some(stop) && is_zero(stop)
    } else if kind == "Replace"@ {
        seeks_text(part)
    } else {
        kind == "ByteLevel"@ || kind == "WordPiece"@ || kind == "Metaspace"@ || kind == "Fuse"@
            || kind == "ByteFallback"@ || kind == "CTC"@
    }
}

/// Whether a part is of a kind, and set up in a way, that runs on every text or
/// all tokens. A kind that is not named is not taken.
pub open spec fn part_sound(place: Place, part: JsonView) -> bool {
    match part.text_member("type"@) {
        None => false,
        Some(kind) => match place {
            Place::Normalizer => normalizer_sound(part, kind),
            Place::PreTokenizer => pre_tokenizer_sound(part, kind),
            Place::Processor => processor_sound(part, kind),
            Place::Decoder => decoder_sound(part, kind),
        },
    }
}

pub open spec fn all_sound(place: Place, parts: Seq<JsonView>) -> bool {
    forall|i: int| 0 <= i < parts.len() ==> part_sound(place, #[trigger] parts[i])
}

/// Whether a part is a template. A template takes one text or two, and yields as
/// many as it has pieces.
pub open spec fn is_template(part: JsonView) -> bool {
    part.text_member("type"@) == Some("TemplateProcessing"@)
}

pub open spec fn one_template(parts: Seq<JsonView>) -> bool {
    forall|i: int, j: int|
        0 <= i < j < parts.len() ==> !(is_template(#[trigger] parts[i]) && is_template(
            #[trigger] parts[j],
        ))
}

/// Whether the parts of a tokenizer, written as a list of four, are all sound.
pub open spec fn parts_sound(parts: JsonView) -> bool {
    match parts {
        JsonView::List(parts) => {
            &&& parts.len() == 4
            &&& all_sound(Place::Normalizer, flat(parts[0], "normalizers"@))
            &&& all_sound(Place::PreTokenizer, flat(parts[1], "pretokenizers"@))
            &&& all_sound(Place::Processor, flat(parts[2], "processors"@))
            &&& one_template(flat(parts[2], "processors"@))
            &&& all_sound(Place::Decoder, flat(parts[3], "decoders"@))
        },
        _ => false,
    }
}

/// Whether added tokens take blanks from one side only. With both sides, two of
/// them could claim the blanks between them.
pub open spec fn one_sided(taken: Set<(bool, bool)>) -> bool {
    ||| !taken.contains((true, false)) && !taken.contains((true, true))
    ||| !taken.contains((false, true)) && !taken.contains((true, true))
}

/// A tokenizer that cuts texts to a length keeps some of each, besides the
/// overlap and the tokens around it; none fills texts up; its added tokens take
/// blanks from one side only; and its parts are sound. No other is usable.
pub open spec fn usable(tokenizer: tokenizers::Tokenizer) -> bool {
    &&& truncation_of(tokenizer) matches Some((length, overlap)) ==> overlap + added_tokens_of(
        tokenizer,
    ) < length
    &&& padding_of(tokenizer) is None
    &&& one_sided(blanks_taken(tokenizer))
    &&& parts_of(tokenizer) matches Some(bytes) && json::parsed_json(bytes) matches Some(parts)
        && parts_sound(parts)
}

/// Whether a file describes a normalizer that its added tokens can go through,
/// and no joining of pieces of words that a prefix is to be cut off.
pub open spec fn loadable(file: JsonView) -> bool {
    &&& file.member("normalizer"@) matches Some(part) ==> all_sound(
        Place::Normalizer,
        flat(part, "normalizers"@),
    )
    &&& file.member("model"@) matches Some(model) ==> joins_whole(model)
}

/// Whether a model that joins pieces of words takes them whole.
pub open spec fn joins_whole(model: JsonView) -> bool {
    match model.text_member("continuing_subword_prefix"@) {
        Some(prefix) => prefix.len() == 0 || model.member("merges"@) is None,
        None => true,
    }
}

/// Whether a file of these bytes is JSON that can be loaded.
pub open spec fn readable(bytes: Seq<u8>) -> bool {
    json::parsed_json(bytes) matches Some(file) && loadable(file)
}

/// Whether a tokenizer is one that came out of a file.
pub open spec fn is_loaded(tokenizer: tokenizers::Tokenizer) -> bool {
    exists|bytes: Seq<u8>| #[trigger] may_load(bytes, Some(tokenizer))
}

/// `serde_json::from_value`, into a `Tokenizer`, of what `serde_json::from_slice`
/// reads. It applies the normalizer to the added tokens, and cuts the prefix off
/// pieces that are joined. A table of characters that is broken, a normalizer
/// that fails, and a piece shorter than the prefix would make it panic. So would
/// a decoder that is no JSON, which a value never holds. Which of two tokens of
/// one number that number stands for is left to chance, so all that is known of
/// the tokenizer is that it is a possible outcome.
#[verifier::external_body]
fn load_tokenizer(bytes: &[u8]) -> (tokenizer: Option<tokenizers::Tokenizer>)
    requires
        readable(bytes@),
    ensures
        may_load(bytes@, tokenizer),
{
    serde_json::from_slice::<serde_json::Value>(bytes).ok().and_then(
        |file| serde_json::from_value(file).ok(),
    )
}

/// `Tokenizer::token_to_id`: the number of a token, if it is in the vocabulary.
#[verifier::external_body]
fn token_to_id(tokenizer: &tokenizers::Tokenizer, token: &str) -> (id: Option<u32>)
    ensures
        id == if vocabulary(*tokenizer).dom().contains(token@) {
            Some(vocabulary(*tokenizer)[token@])
        } else {
            None
        },
{
    tokenizer.token_to_id(token)
}

/// `Tokenizer::get_truncation`: the greatest length and the overlap, where
/// texts are cut.
#[verifier::external_body]
fn truncation(tokenizer: &tokenizers::Tokenizer) -> (limits: Option<(usize, usize)>)
    ensures
        limits == truncation_of(*tokenizer),
{
    tokenizer.get_truncation().map(|limits| (limits.max_length, limits.stride))
}

/// `PostProcessor::added_tokens` of the tokenizer's post processor: how many
/// tokens it puts around a single text, none without one.
#[verifier::external_body]
fn added_tokens(tokenizer: &tokenizers::Tokenizer) -> (count: usize)
    requires
        is_loaded(*tokenizer),
    ensures
        count == added_tokens_of(*tokenizer),
{
    tokenizer.get_post_processor().map_or(
        0,
        |processor| tokenizers::PostProcessor::added_tokens(processor, false),
    )
}

/// `Tokenizer::get_padding`: the token that fills texts up, where they are.
#[verifier::external_body]
fn padding(tokenizer: &tokenizers::Tokenizer) -> (token: Option<u32>)
    ensures
        token == padding_of(*tokenizer),
{
    tokenizer.get_padding().map(|padding| padding.pad_id)
}

/// `Tokenizer::get_added_tokens_decoder`: of each added token, whether it takes
/// the blanks on its left, and those on its right. The order is open.
#[verifier::external_body]
fn added_token_blanks(tokenizer: &tokenizers::Tokenizer) -> (taken: Vec<(bool, bool)>)
    ensures
        taken@.to_set() == blanks_taken(*tokenizer),
{
    tokenizer.get_added_tokens_decoder().values().map(|token| (token.lstrip, token.rstrip)).collect()
}

/// `serde_json::to_vec` of what `Tokenizer::get_normalizer`,
/// `get_pre_tokenizer`, `get_post_processor` and `get_decoder` give.
#[verifier::external_body]
fn written_parts(tokenizer: &tokenizers::Tokenizer) -> (bytes: Option<Vec<u8>>)
    ensures
        match bytes {
            Some(bytes) => parts_of(*tokenizer) == Some(bytes@),
            None => parts_of(*tokenizer) is None,
        },
{
    serde_json::to_vec(
        &(
            tokenizer.get_normalizer(),
            tokenizer.get_pre_tokenizer(),
            tokenizer.get_post_processor(),
            tokenizer.get_decoder(),
        ),
    ).ok()
}

/// `Tokenizer::encode`: the numbers of a text. A tokenizer may split a text at
/// random, so all that is known of them is that they are a possible outcome. On a
/// tokenizer that is not usable it may panic: pieces of a text that overlap or run
/// backwards, a template that names what it lacks, a piece length of zero, and a
/// length that leaves nothing or needs more than memory holds.
#[verifier::external_body]
fn encode_text(tokenizer: &tokenizers::Tokenizer, text: &str, special: bool) -> (ids: Option<
    Vec<u32>,
>)
    requires
        is_loaded(*tokenizer),
        usable(*tokenizer),
    ensures
        may_encode(*tokenizer, text@, special, ids_view(ids)),
{
    tokenizer.encode(text, special).ok().map(|encoding| encoding.get_ids().to_vec())
}

/// `Tokenizer::decode`: the text of tokens, or nothing if a decoder fails. On a
/// tokenizer that is not usable it may panic: a decoder that counts down from no
/// tokens, cuts more off a token than it holds, or replaces what runs backwards.
#[verifier::external_body]
fn decode_tokens(tokenizer: &tokenizers::Tokenizer, tokens: &[u32], skip_special: bool) -> (text:
    Option<String>)
    requires
        is_loaded(*tokenizer),
        usable(*tokenizer),
    ensures
        match text {
            Some(text) => decoded_text(*tokenizer, tokens@, skip_special) == Some(text@),
            None => decoded_text(*tokenizer, tokens@, skip_special) is None,
        },
{
    tokenizer.decode(tokens, skip_special).ok()
}

pub open spec fn ids_view(ids: Option<Vec<u32>>) -> Option<Seq<u32>> {
    match ids {
        Some(ids) => Some(ids@),
        None => None,
    }
}

fn check_piece(piece: &Json, known: &Json) -> (answer: bool)
    ensures
        answer == piece_sound(piece@, known@),
{
    match piece.get("Sequence") {
        Some(sequence) => match sequence.get_text("id") {
            Some(id) => text::same(id, "A"),
            None => false,
        },
        None => match piece.get("SpecialToken") {
            Some(token) => match token.get_text("id") {
                Some(id) => known.get(id).is_some(),
                None => false,
            },
            None => false,
        },
    }
}

fn check_template(template: &Json) -> (answer: bool)
    ensures
        answer == template_sound(template@),
{
    let (pieces, known) = match (template.get("single"), template.get("special_tokens")) {
        (Some(Json::List(pieces)), Some(known)) => (pieces, known),
        _ => return false,
    };
    let ghost all = json::item_views(pieces@);
    proof {
        json::lemma_item_views(pieces@);
    }
    let mut text_at: Option<usize> = None;
    let mut i: usize = 0;
    while i < pieces.len()
        invariant
            i <= pieces@.len() == all.len(),
            template@.member("single"@) == Some(JsonView::List(all)),
            template@.member("special_tokens"@) == Some(known@),
            forall|j: int| 0 <= j < all.len() ==> #[trigger] all[j] == pieces@[j].view(),
            forall|j: int| 0 <= j < i ==> piece_sound(#[trigger] all[j], known@),
            forall|j: int, k: int|
                0 <= j < k < i ==> !(is_text(#[trigger] all[j]) && is_text(#[trigger] all[k])),
            match text_at {
                Some(at) => at < i && is_text(all[at as int]),
                None => forall|j: int| 0 <= j < i ==> !is_text(#[trigger] all[j]),
            },
        decreases pieces.len() - i,
    {
        let ghost single = template@.member("single"@)->Some_0;
        assert(single == JsonView::List(all));
        if !check_piece(&pieces[i], known) {
            assert(!piece_sound(single->List_0[i as int], known@));
            return false;
        }
        if pieces[i].get("Sequence").is_some() {
            match text_at {
                Some(at) => {
                    assert(is_text(single->List_0[at as int]) && is_text(
                        single->List_0[i as int],
                    ));
                    return false;
                },
                None => {
                    text_at = Some(i);
                },
            }
        }
        i += 1;
    }
    true
}

fn check_zero(value: &Json) -> (answer: bool)
    ensures
        answer == is_zero(value@),
{
    match value {
        Json::Number(number) => text::same(number.as_str(), "0"),
        _ => false,
    }
}

fn check_text(part: &Json) -> (answer: bool)
    ensures
        answer == seeks_text(part@),
{
    match part.get("pattern") {
        Some(pattern) => match pattern.get_text("String") {
            Some(text) => text::chars(text).len() > 0,
            None => false,
        },
        None => false,
    }
}

fn check_regex(text: &str) -> (answer: bool)
    ensures
        answer == plain_regex(text@),
{
    let list = text::chars(text);
    let mut i: usize = 0;
    while i < list.len()
        invariant
            list@ == text@,
            i <= list@.len(),
            forall|j: int| 0 <= j < i ==> #[trigger] plain_at(text@, j),
        decreases list.len() - i,
    {
        let c = list[i];
        let left: usize = list.len() - i;
        let escaped = c != '\\' || left > 1 && is_plain_escape(list[i + 1]);
        let grouped = c != '(' || left < 2 || list[i + 1] != '?' || left > 2 && (list[i + 2] == ':'
            || list[i + 2] == '!' || list[i + 2] == '=') || left > 3 && list[i + 2] == 'i' && list[i
            + 3] == ':';
        assert((escaped && grouped) == plain_at(text@, i as int));
        if !escaped || !grouped {
            return false;
        }
        i += 1;
    }
    true
}

fn is_plain_escape(c: char) -> (answer: bool)
    ensures
        answer == plain_escape(c),
{
    c == 's' || c == 'S' || c == 'd' || c == 'D' || c == 'w' || c == 'W' || c == 'p' || c == 'P'
        || c == 'r' || c == 'n' || c == 't'
}

fn check_plainly(part: &Json) -> (answer: bool)
    ensures
        answer == seeks_plainly(part@),
{
    match part.get("pattern") {
        Some(pattern) => match pattern.get_text("Regex") {
            Some(text) => check_regex(text),
            None => false,
        },
        None => false,
    }
}

fn has_text(part: &Json, name: &str) -> (answer: bool)
    ensures
        answer == (part@.text_member(name@) matches Some(text) && text.len() > 0),
{
    match part.get_text(name) {
        Some(text) => text::chars(text).len() > 0,
        None => false,
    }
}

fn check_normalizer(part: &Json, kind: &str) -> (answer: bool)
    ensures
        answer == normalizer_sound(part@, kind@),
{
    if text::same(kind, "Prepend") {
        has_text(part, "prepend")
    } else if text::same(kind, "Replace") {
        check_text(part) && has_text(part, "content")
    } else {
        text::same(kind, "NFC") || text::same(kind, "NFD") || text::same(kind, "NFKC")
            || text::same(kind, "NFKD") || text::same(kind, "Lowercase") || text::same(
            kind,
            "ByteLevel",
        )
    }
}

fn check_pre_tokenizer(part: &Json, kind: &str) -> (answer: bool)
    ensures
        answer == pre_tokenizer_sound(part@, kind@),
{
    if text::same(kind, "FixedLength") {
        match part.get("length") {
            Some(length) => match length {
                Json::Number(_) => !check_zero(length),
                _ => false,
            },
            None => false,
        }
    } else if text::same(kind, "Split") {
        check_text(part) || check_plainly(part)
    } else {
        text::same(kind, "ByteLevel") || text::same(kind, "Whitespace") || text::same(
            kind,
            "WhitespaceSplit",
        ) || text::same(kind, "BertPreTokenizer") || text::same(kind, "Punctuation")
            || text::same(kind, "Digits") || text::same(kind, "CharDelimiterSplit") || text::same(
            kind,
            "Metaspace",
        ) || text::same(kind, "UnicodeScripts")
    }
}

fn check_processor(part: &Json, kind: &str) -> (answer: bool)
    ensures
        answer == processor_sound(part@, kind@),
{
    if text::same(kind, "TemplateProcessing") {
        check_template(part)
    } else {
        text::same(kind, "ByteLevel") || text::same(kind, "BertProcessing") || text::same(
            kind,
            "RobertaProcessing",
        )
    }
}

fn check_decoder(part: &Json, kind: &str) -> (answer: bool)
    ensures
        answer == decoder_sound(part@, kind@),
{
    if text::same(kind, "Strip") {
        match part.get("stop") {
            Some(stop) => check_zero(stop),
            None => false,
        }
    } else if text::same(kind, "Replace") {
        check_text(part)
    } else {
        text::same(kind, "ByteLevel") || text::same(kind, "WordPiece") || text::same(
            kind,
            "Metaspace",
        ) || text::same(kind, "Fuse") || text::same(kind, "ByteFallback") || text::same(kind, "CTC")
    }
}

fn check_part(place: Place, part: &Json) -> (answer: bool)
    ensures
        answer == part_sound(place, part@),
{
    let kind = match part.get_text("type") {
        Some(kind) => kind,
        None => return false,
    };
    match place {
        Place::Normalizer => check_normalizer(part, kind),
        Place::PreTokenizer => check_pre_tokenizer(part, kind),
        Place::Processor => check_processor(part, kind),
        Place::Decoder => check_decoder(part, kind),
    }
}

fn check_template_kind(part: &Json) -> (answer: bool)
    ensures
        answer == is_template(part@),
{
    match part.get_text("type") {
        Some(kind) => text::same(kind, "TemplateProcessing"),
        None => false,
    }
}

/// Whether every part is sound, and not two of them are templates.
fn check_list(place: Place, parts: &Vec<Json>) -> (answer: (bool, bool))
    ensures
        answer.0 == all_sound(place, json::item_views(parts@)),
        answer.1 == one_template(json::item_views(parts@)),
{
    let ghost all = json::item_views(parts@);
    proof {
        json::lemma_item_views(parts@);
    }
    let mut sound = true;
    let mut single = true;
    let mut template: Option<usize> = None;
    let mut i: usize = 0;
    while i < parts.len()
        invariant
            i <= parts@.len() == all.len(),
            forall|j: int| 0 <= j < all.len() ==> #[trigger] all[j] == parts@[j].view(),
            sound == all_sound(place, all.take(i as int)),
            single == one_template(all.take(i as int)),
            match template {
                Some(at) => at < i && is_template(all[at as int]),
                None => forall|j: int| 0 <= j < i ==> !is_template(#[trigger] all[j]),
            },
        decreases parts.len() - i,
    {
        let ghost shown = all.take(i + 1);
        let ghost before = all.take(i as int);
        assert(shown.drop_last() =~= before);
        let part_is_sound = check_part(place, &parts[i]);
        proof {
            assert(shown[i as int] == all[i as int]);
            assert(forall|j: int| 0 <= j < i ==> shown[j] == #[trigger] before[j]);
            assert(forall|j: int| 0 <= j < i ==> before[j] == #[trigger] shown[j]);
        }
        sound = sound && part_is_sound;
        if check_template_kind(&parts[i]) {
            match template {
                Some(at) => {
                    assert(is_template(shown[at as int]) && is_template(shown[i as int]));
                    single = false;
                },
                None => {
                    template = Some(i);
                },
            }
        }
        i += 1;
    }
    assert(all.take(i as int) =~= all);
    (sound, single)
}

/// Whether every part is sound, and not two of them are templates.
fn check_flat(place: Place, part: &Json, list: &str) -> (answer: (bool, bool))
    ensures
        answer.0 == all_sound(place, flat(part@, list@)),
        answer.1 == one_template(flat(part@, list@)),
{
    match part {
        Json::Null => return (true, true),
        _ => {},
    }
    let sequence = match part.get_text("type") {
        Some(kind) => text::same(kind, "Sequence"),
        None => false,
    };
    if sequence {
        match part.get(list) {
            Some(Json::List(parts)) => return check_list(place, parts),
            _ => {},
        }
    }
    let sound = check_part(place, part);
    assert(flat(part@, list@) =~= seq![part@]);
    assert(flat(part@, list@)[0] == part@);
    (sound, true)
}

/// Whether the parts of a tokenizer, written as a list of four, are all sound.
pub fn check_parts(parts: &Json) -> (answer: bool)
    ensures
        answer == parts_sound(parts@),
{
    let parts = match parts {
        Json::List(parts) => parts,
        _ => return false,
    };
    proof {
        json::lemma_item_views(parts@);
    }
    if parts.len() != 4 {
        return false;
    }
    let (normalizers, _) = check_flat(Place::Normalizer, &parts[0], "normalizers");
    let (pre_tokenizers, _) = check_flat(Place::PreTokenizer, &parts[1], "pretokenizers");
    let (processors, single) = check_flat(Place::Processor, &parts[2], "processors");
    let (decoders, _) = check_flat(Place::Decoder, &parts[3], "decoders");
    normalizers && pre_tokenizers && processors && single && decoders
}

/// Whether blanks are taken from one side only.
pub fn check_blanks(taken: &Vec<(bool, bool)>) -> (answer: bool)
    ensures
        answer == one_sided(taken@.to_set()),
{
    let mut left = false;
    let mut right = false;
    let mut i: usize = 0;
    while i < taken.len()
        invariant
            i <= taken@.len(),
            left == exists|j: int| 0 <= j < i && (#[trigger] taken@[j]).0,
            right == exists|j: int| 0 <= j < i && (#[trigger] taken@[j]).1,
        decreases taken.len() - i,
    {
        let (on_left, on_right) = taken[i];
        assert(taken@[i as int] == (on_left, on_right));
        left = left || on_left;
        right = right || on_right;
        i += 1;
    }
    proof {
        let all = taken@.to_set();
        assert forall|j: int| 0 <= j < taken@.len() implies all.contains(#[trigger] taken@[j]) by {
            assert(taken@.contains(taken@[j]));
        }
        if left {
            let j = choose|j: int| 0 <= j < taken@.len() && (#[trigger] taken@[j]).0;
            assert(taken@[j] == (true, taken@[j].1));
        }
        if right {
            let j = choose|j: int| 0 <= j < taken@.len() && (#[trigger] taken@[j]).1;
            assert(taken@[j] == (taken@[j].0, true));
        }
    }
    !left || !right
}

/// Whether a tokenizer can be used on any text and any tokens.
fn is_usable(tokenizer: &tokenizers::Tokenizer) -> (answer: bool)
    requires
        is_loaded(*tokenizer),
    ensures
        answer == usable(*tokenizer),
{
    match truncation(tokenizer) {
        Some((length, overlap)) => {
            let added: usize = added_tokens(tokenizer);
            if overlap >= length || added >= length - overlap {
                return false;
            }
        },
        None => {},
    }
    if padding(tokenizer).is_some() || !check_blanks(&added_token_blanks(tokenizer)) {
        return false;
    }
    match written_parts(tokenizer) {
        Some(bytes) => match json::parse_json(bytes.as_slice()) {
            Some(parts) => check_parts(&parts),
            None => false,
        },
        None => false,
    }
}

fn check_joins(model: &Json) -> (answer: bool)
    ensures
        answer == joins_whole(model@),
{
    match model.get_text("continuing_subword_prefix") {
        Some(prefix) => text::chars(prefix).len() == 0 || model.get("merges").is_none(),
        None => true,
    }
}

/// Whether a parsed file can be loaded.
pub fn check_file(file: &Json) -> (answer: bool)
    ensures
        answer == loadable(file@),
{
    let normalizer = match file.get("normalizer") {
        Some(part) => {
            let (sound, _) = check_flat(Place::Normalizer, part, "normalizers");
            sound
        },
        None => true,
    };
    let model = match file.get("model") {
        Some(model) => check_joins(model),
        None => true,
    };
    normalizer && model
}

/// The numbers of the tokens that are in the vocabulary, each once, in the
/// order in which they are named first.
pub open spec fn known_ids(vocabulary: Map<Seq<char>, u32>, tokens: Seq<Seq<char>>) -> Seq<u32>
    decreases tokens.len(),
{
    if tokens.len() == 0 {
        Seq::empty()
    } else {
        let before = known_ids(vocabulary, tokens.drop_last());
        let token = tokens.last();
        if vocabulary.dom().contains(token) && !before.contains(vocabulary[token]) {
            before.push(vocabulary[token])
        } else {
            before
        }
    }
}

/// No end token is listed twice, and each is in the vocabulary under a name
/// that was given.
pub proof fn end_tokens_are_listed_once(
    vocabulary: Map<Seq<char>, u32>,
    tokens: Seq<Seq<char>>,
)
    ensures
        known_ids(vocabulary, tokens).no_duplicates(),
        forall|i: int|
            0 <= i < known_ids(vocabulary, tokens).len() ==> exists|j: int|
                0 <= j < tokens.len() && vocabulary.dom().contains(#[trigger] tokens[j])
                    && vocabulary[tokens[j]] == #[trigger] known_ids(vocabulary, tokens)[i],
        forall|j: int|
            0 <= j < tokens.len() && vocabulary.dom().contains(#[trigger] tokens[j]) ==> known_ids(
                vocabulary,
                tokens,
            ).contains(vocabulary[tokens[j]]),
    decreases tokens.len(),
{
    if tokens.len() > 0 {
        let rest = tokens.drop_last();
        end_tokens_are_listed_once(vocabulary, rest);
        let before = known_ids(vocabulary, rest);
        let after = known_ids(vocabulary, tokens);
        assert(tokens[tokens.len() - 1] == tokens.last());
        assert forall|i: int| 0 <= i < after.len() implies exists|j: int|
            0 <= j < tokens.len() && vocabulary.dom().contains(#[trigger] tokens[j])
                && vocabulary[tokens[j]] == #[trigger] after[i] by {
            if i < before.len() {
                assert(after[i] == before[i]);
                let j = choose|j: int|
                    0 <= j < rest.len() && vocabulary.dom().contains(#[trigger] rest[j])
                        && vocabulary[rest[j]] == before[i];
                assert(tokens[j] == rest[j]);
            } else {
                assert(vocabulary.dom().contains(tokens[tokens.len() - 1]));
            }
        }
        assert forall|j: int|
            0 <= j < tokens.len() && vocabulary.dom().contains(#[trigger] tokens[j]) implies after.contains(
        vocabulary[tokens[j]]) by {
            let id = vocabulary[tokens[j]];
            if j < rest.len() {
                assert(rest[j] == tokens[j]);
                assert(before.contains(id));
                let i = choose|i: int| 0 <= i < before.len() && before[i] == id;
                assert(after[i] == id);
            } else if !before.contains(id) {
                assert(after[before.len() as int] == id);
            }
        }
    }
}

/// The tokens that a parsed configuration names as those that end a text.
pub open spec fn configured_tokens(config: JsonView) -> Seq<Seq<char>> {
    match config.member("eos_token"@) {
        Some(value) => named_tokens(value),
        None => Seq::empty(),
    }
}

/// The tokens that the text of a configuration names as those that end a text,
/// or nothing if it is no JSON. Without a configuration there are none.
pub open spec fn config_tokens(config: Option<&[u8]>) -> Option<Seq<Seq<char>>> {
    match config {
        None => Some(Seq::empty()),
        Some(bytes) => match json::parsed_json(bytes@) {
            Some(config) => Some(configured_tokens(config)),
            None => None,
        },
    }
}

/// A tokenizer with the tokens that end a text.
pub struct ModelTokenizer {
    inner: tokenizers::Tokenizer,
    eos_token_ids: Vec<u32>,
}

/// A usable tokenizer with the end tokens among the named ones, or the failure
/// to load one.
pub open spec fn loading_outcome(
    outcome: Option<tokenizers::Tokenizer>,
    named: Seq<Seq<char>>,
    result: Result<ModelTokenizer, ModelError>,
) -> bool {
    if outcome matches Some(inner) && usable(inner) {
        &&& result is Ok
        &&& result->Ok_0.tokenizer() == outcome->Some_0
        &&& result->Ok_0.end_tokens() == known_ids(vocabulary(outcome->Some_0), named)
    } else {
        result == Err::<ModelTokenizer, ModelError>(ModelError::TokenizerLoad)
    }
}

/// The numbers, or the failure to encode.
pub open spec fn encoding_outcome(ids: Option<Seq<u32>>, result: Result<Vec<u32>, ModelError>) -> bool {
    match ids {
        Some(ids) => result is Ok && result->Ok_0@ == ids,
        None => result == Err::<Vec<u32>, ModelError>(ModelError::TokenizerEncode),
    }
}

/// What an encoding that was tried is reported as.
pub fn encoding_result(ids: Option<Vec<u32>>) -> (result: Result<Vec<u32>, ModelError>)
    ensures
        encoding_outcome(ids_view(ids), result),
{
    match ids {
        Some(ids) => Ok(ids),
        None => Err(ModelError::TokenizerEncode),
    }
}

/// What a decoding that was tried is reported as.
pub fn decoding_result(text: Option<String>) -> (result: Result<String, ModelError>)
    ensures
        match text {
            Some(text) => result is Ok && result->Ok_0@ == text@,
            None => result == Err::<String, ModelError>(ModelError::TokenizerDecode),
        },
{
    match text {
        Some(text) => Ok(text),
        None => Err(ModelError::TokenizerDecode),
    }
}

impl ModelTokenizer {
    #[verifier::type_invariant]
    spec fn sound(self) -> bool {
        is_loaded(self.inner) && usable(self.inner)
    }

    /// The tokenizer that was loaded.
    pub closed spec fn tokenizer(self) -> tokenizers::Tokenizer {
        self.inner
    }

    pub closed spec fn end_tokens(self) -> Seq<u32> {
        self.eos_token_ids@
    }

    /// What loading a file is reported as, with the end tokens among the named
    /// ones. A tokenizer that cannot be used on every text is refused.
    fn from_loaded(outcome: Option<tokenizers::Tokenizer>, named: &Vec<String>) -> (result: Result<
        ModelTokenizer,
        ModelError,
    >)
        requires
            outcome matches Some(inner) ==> is_loaded(inner),
        ensures
            loading_outcome(outcome, text::string_views(named@), result),
    {
        let inner = match outcome {
            Some(inner) => inner,
            None => return Err(ModelError::TokenizerLoad),
        };
        if !is_usable(&inner) {
            return Err(ModelError::TokenizerLoad);
        }
        let eos_token_ids = known_token_ids(&inner, named);
        Ok(ModelTokenizer { inner, eos_token_ids })
    }

    /// The tokenizer of a file, with the end tokens that a value names.
    pub fn new(file: &[u8], eos_token: Option<&Json>) -> (result: Result<
        ModelTokenizer,
        ModelError,
    >)
        ensures
            if readable(file@) {
                exists|outcome: Option<tokenizers::Tokenizer>| #[trigger]
                    may_load(file@, outcome) && loading_outcome(
                        outcome,
                        match eos_token {
                            Some(value) => named_tokens(value@),
                            None => Seq::empty(),
                        },
                        result,
                    )
            } else {
                result == Err::<ModelTokenizer, ModelError>(ModelError::TokenizerLoad)
            },
    {
        let mut named: Vec<String> = Vec::new();
        assert(text::string_views(named@) =~= Seq::empty());
        match eos_token {
            Some(value) => {
                collect_special_tokens(value, &mut named);
                assert(Seq::<Seq<char>>::empty() + named_tokens(value@) =~= named_tokens(value@));
            },
            None => {},
        }
        let loads = match json::parse_json(file) {
            Some(parsed) => check_file(&parsed),
            None => false,
        };
        if !loads {
            return Err(ModelError::TokenizerLoad);
        }
        let outcome = load_tokenizer(file);
        let ghost loaded = outcome;
        assert(may_load(file@, loaded));
        Self::from_loaded(outcome, &named)
    }

    /// The tokenizer of a file, with the end tokens that the text of its
    /// configuration names as `eos_token`, where it has a configuration. One that
    /// is no JSON is an error of its own once the tokenizer is loaded.
    pub fn from_config(file: &[u8], config: Option<&[u8]>) -> (result: Result<
        ModelTokenizer,
        ModelError,
    >)
        ensures
            if readable(file@) {
                exists|outcome: Option<tokenizers::Tokenizer>| #[trigger]
                    may_load(file@, outcome) && match config_tokens(config) {
                        Some(named) => loading_outcome(outcome, named, result),
                        None => result == Err::<ModelTokenizer, ModelError>(
                            if outcome matches Some(inner) && usable(inner) {
                                ModelError::Json
                            } else {
                                ModelError::TokenizerLoad
                            },
                        ),
                    }
            } else {
                result == Err::<ModelTokenizer, ModelError>(ModelError::TokenizerLoad)
            },
    {
        let bytes = match config {
            Some(bytes) => bytes,
            None => return Self::new(file, None),
        };
        match json::parse_json(bytes) {
            Some(config) => Self::new(file, config.get("eos_token")),
            None => match Self::new(file, None) {
                Ok(_) => Err(ModelError::Json),
                Err(error) => Err(error),
            },
        }
    }

    /// The numbers of a text, with the tokens that belong around it.
    pub fn encode(&self, text: &str) -> (result: Result<Vec<u32>, ModelError>)
        ensures
            exists|ids: Option<Seq<u32>>| #[trigger]
                may_encode(self.tokenizer(), text@, true, ids) && encoding_outcome(ids, result),
    {
        proof {
            use_type_invariant(self);
        }
        let ids = encode_text(&self.inner, text, true);
        assert(may_encode(self.tokenizer(), text@, true, ids_view(ids)));
        encoding_result(ids)
    }

    /// The text of tokens, without the special ones.
    pub fn decode(&self, tokens: &[u32]) -> (result: Result<String, ModelError>)
        ensures
            match decoded_text(self.tokenizer(), tokens@, true) {
                Some(text) => result is Ok && result->Ok_0@ == text,
                None => result == Err::<String, ModelError>(ModelError::TokenizerDecode),
            },
    {
        proof {
            use_type_invariant(self);
        }
        decoding_result(decode_tokens(&self.inner, tokens, true))
    }

    /// The numbers of a rendered chat, which has its markers already.
    pub fn encode_chat(&self, messages: &[ChatMessage]) -> (result: Result<Vec<u32>, ModelError>)
        ensures
            match chat_error(messages@) {
                Some(error) => result == Err::<Vec<u32>, ModelError>(error),
                None => exists|ids: Option<Seq<u32>>| #[trigger]
                    may_encode(self.tokenizer(), chat_text(messages@), false, ids)
                        && encoding_outcome(ids, result),
            },
    {
        proof {
            use_type_invariant(self);
        }
        let prompt = render_qwen_chat(messages)?;
        let ids = encode_text(&self.inner, prompt.as_str(), false);
        assert(may_encode(self.tokenizer(), chat_text(messages@), false, ids_view(ids)));
        encoding_result(ids)
    }

    pub fn eos_token_ids(&self) -> (ids: &[u32])
        ensures
            ids@ == self.end_tokens(),
    {
        self.eos_token_ids.as_slice()
    }
}

fn known_token_ids(tokenizer: &tokenizers::Tokenizer, tokens: &Vec<String>) -> (ids: Vec<u32>)
    ensures
        ids@ == known_ids(vocabulary(*tokenizer), text::string_views(tokens@)),
{
    let ghost all = text::string_views(tokens@);
    let mut ids: Vec<u32> = Vec::new();
    let mut i: usize = 0;
    assert(all.take(0) =~= Seq::empty());
    while i < tokens.len()
        invariant
            i <= tokens@.len(),
            all == text::string_views(tokens@),
            ids@ == known_ids(vocabulary(*tokenizer), all.take(i as int)),
        decreases tokens.len() - i,
    {
        let ghost shown = all.take(i + 1);
        assert(shown.drop_last() =~= all.take(i as int));
        assert(shown.last() == tokens@[i as int]@);
        match token_to_id(tokenizer, tokens[i].as_str()) {
            Some(id) => if !generation::holds(&ids, id) {
                ids.push(id);
            },
            None => {},
        }
        i += 1;
    }
    assert(all.take(i as int) =~= all);
    ids
}

/// The tokens of a list are those of its items, in order, and a text or an object is its
/// own token or content.
pub proof fn named_tokens_keep_their_order(left: Seq<JsonView>, right: Seq<JsonView>, token: Seq<char>)
    ensures
        named_tokens(JsonView::List(left + right)) == named_tokens(JsonView::List(left))
            + named_tokens(JsonView::List(right)),
        named_tokens(JsonView::List(seq![JsonView::Text(token)])) == seq![token],
        named_tokens(JsonView::Text(token)) == seq![token],
    decreases right.len(),
{
    reveal_with_fuel(listed_tokens, 2);
    reveal_with_fuel(named_tokens, 2);
    let single = seq![JsonView::Text(token)];
    assert(single.drop_last() =~= Seq::empty());
    assert(listed_tokens(single) =~= seq![token]);
    if right.len() == 0 {
        assert(left + right =~= left);
        assert(listed_tokens(left) + listed_tokens(right) =~= listed_tokens(left));
    } else {
        named_tokens_keep_their_order(left, right.drop_last(), token);
        assert((left + right).drop_last() =~= left + right.drop_last());
        assert((left + right).last() == right.last());
        assert(listed_tokens(left + right) =~= listed_tokens(left) + listed_tokens(right));
    }
}

/// End tokens keep the order in which they are named first: naming more of them changes
/// nothing about those that are listed.
pub proof fn end_tokens_keep_their_order(
    vocabulary: Map<Seq<char>, u32>,
    tokens: Seq<Seq<char>>,
    more: Seq<Seq<char>>,
)
    ensures
        ({
            let before = known_ids(vocabulary, tokens);
            let after = known_ids(vocabulary, tokens + more);
            before.len() <= after.len() && after.take(before.len() as int) == before
        }),
    decreases more.len(),
{
    let before = known_ids(vocabulary, tokens);
    if more.len() == 0 {
        assert(tokens + more =~= tokens);
        assert(before.take(before.len() as int) =~= before);
    } else {
        end_tokens_keep_their_order(vocabulary, tokens, more.drop_last());
        assert((tokens + more).drop_last() =~= tokens + more.drop_last());
        let shorter = known_ids(vocabulary, tokens + more.drop_last());
        let after = known_ids(vocabulary, tokens + more);
        assert(after.take(before.len() as int) =~= shorter.take(before.len() as int));
    }
}

} // verus!
