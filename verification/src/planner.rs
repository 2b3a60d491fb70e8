//! The execution plan and its textual overrides.

use crate::ops::AttentionKind;
use crate::text;
use crate::tuning::{DecodeGemvConfig, FlashDecodeBlock, KernelSelection, KernelSelectionModel};
use vstd::prelude::*;

verus! {

#[derive(Clone, Copy, Debug, PartialEq, Eq, Structural)]
pub struct Fusions {
    pub qkv: bool,
    pub gate_up: bool,
    pub add_rms_norm: bool,
    pub qk_rope_cache: bool,
    pub decode_norm: bool,
}

#[derive(Clone, Debug, PartialEq, Eq)]
pub struct Plan {
    pub kernels: KernelSelection,
    pub fusions: Fusions,
    pub attention: AttentionKind,
}

#[verifier::ext_equal]
pub struct PlanModel {
    pub kernels: KernelSelectionModel,
    pub fusions: Fusions,
    pub attention: AttentionKind,
}

impl View for Plan {
    type V = PlanModel;

    open spec fn view(&self) -> PlanModel {
        PlanModel { kernels: self.kernels@, fusions: self.fusions, attention: self.attention }
    }
}

/// Why an override was refused.
#[derive(Debug)]
pub enum PlanError {
    Syntax(String),
    UnknownKey(String),
    InvalidValue { key: String, value: String, expected: &'static str },
}

#[verifier::ext_equal]
pub enum PlanErrorModel {
    Syntax(Seq<char>),
    UnknownKey(Seq<char>),
    InvalidValue { key: Seq<char>, value: Seq<char>, expected: Seq<char> },
}

impl View for PlanError {
    type V = PlanErrorModel;

    open spec fn view(&self) -> PlanErrorModel {
        match self {
            PlanError::Syntax(assignment) => PlanErrorModel::Syntax(assignment@),
            PlanError::UnknownKey(key) => PlanErrorModel::UnknownKey(key@),
            PlanError::InvalidValue { key, value, expected } => PlanErrorModel::InvalidValue {
                key: key@,
                value: value@,
                expected: expected@,
            },
        }
    }
}

/// The plan entry that a key names.
#[derive(Clone, Copy, Debug, PartialEq, Eq, Structural)]
pub enum PlanKey {
    Attention,
    Qkv,
    GateUp,
    AddRmsNorm,
    QkRopeCache,
    DecodeNorm,
    GemvConfig,
    FlashDecodeBlocks,
}

impl PlanKey {
    pub open spec fn spec_name(self) -> Seq<char> {
        match self {
            PlanKey::Attention => "attention"@,
            PlanKey::Qkv => "fusion.qkv"@,
            PlanKey::GateUp => "fusion.gate_up"@,
            PlanKey::AddRmsNorm => "fusion.add_rms_norm"@,
            PlanKey::QkRopeCache => "fusion.qk_rope_cache"@,
            PlanKey::DecodeNorm => "fusion.decode_norm"@,
            PlanKey::GemvConfig => "gemv.config"@,
            PlanKey::FlashDecodeBlocks => "flash_decode.blocks"@,
        }
    }

    fn name(self) -> (name: &'static str)
        ensures
            name@ == self.spec_name(),
    {
        match self {
            PlanKey::Attention => "attention",
            PlanKey::Qkv => "fusion.qkv",
            PlanKey::GateUp => "fusion.gate_up",
            PlanKey::AddRmsNorm => "fusion.add_rms_norm",
            PlanKey::QkRopeCache => "fusion.qk_rope_cache",
            PlanKey::DecodeNorm => "fusion.decode_norm",
            PlanKey::GemvConfig => "gemv.config",
            PlanKey::FlashDecodeBlocks => "flash_decode.blocks",
        }
    }

    /// What a value of this key must look like.
    pub open spec fn spec_expected(self) -> Seq<char> {
        match self {
            PlanKey::Attention =>
                "reference, tiled, flash-prefill, decode-split-kv, or flash-decode"@,
            PlanKey::GemvConfig => "none, baseline, or tuned"@,
            PlanKey::FlashDecodeBlocks =>
                "default, BLOCKxTHREADS, or LENGTH:BLOCKxTHREADS entries separated by commas"@,
            _ => "on or off"@,
        }
    }

    fn expected(self) -> (expected: &'static str)
        ensures
            expected@ == self.spec_expected(),
    {
        match self {
            PlanKey::Attention => "reference, tiled, flash-prefill, decode-split-kv, or flash-decode",
            PlanKey::GemvConfig => "none, baseline, or tuned",
            PlanKey::FlashDecodeBlocks =>
                "default, BLOCKxTHREADS, or LENGTH:BLOCKxTHREADS entries separated by commas",
            _ => "on or off",
        }
    }
}

/// The keys in listing order.
pub open spec fn plan_keys() -> Seq<PlanKey> {
    seq![
        PlanKey::Attention,
        PlanKey::Qkv,
        PlanKey::GateUp,
        PlanKey::AddRmsNorm,
        PlanKey::QkRopeCache,
        PlanKey::DecodeNorm,
        PlanKey::GemvConfig,
        PlanKey::FlashDecodeBlocks,
    ]
}

pub open spec fn known_key(name: Seq<char>) -> Option<PlanKey> {
    if exists|key: PlanKey| (#[trigger] key.spec_name()) == name {
        Some(choose|key: PlanKey| (#[trigger] key.spec_name()) == name)
    } else {
        None
    }
}

/// No two keys have the same name, and none holds white space at its ends or
/// an equals sign.
proof fn lemma_key_names()
    ensures
        forall|a: PlanKey, b: PlanKey|
            (#[trigger] a.spec_name()) == (#[trigger] b.spec_name()) ==> a == b,
        forall|key: PlanKey|
            {
                let name = #[trigger] key.spec_name();
                !name.contains('=') && text::trimmed(name) == name
            },
{
    reveal_strlit("attention");
    reveal_strlit("fusion.qkv");
    reveal_strlit("fusion.gate_up");
    reveal_strlit("fusion.add_rms_norm");
    reveal_strlit("fusion.qk_rope_cache");
    reveal_strlit("fusion.decode_norm");
    reveal_strlit("gemv.config");
    reveal_strlit("flash_decode.blocks");
    assert("fusion.qkv"@[8] == 'k');
    assert("fusion.gate_up"@[8] == 'a');
    assert forall|a: PlanKey, b: PlanKey|
        (#[trigger] a.spec_name()) == (#[trigger] b.spec_name()) implies a == b by {
        assert(a.spec_name().len() == b.spec_name().len());
        assert(a.spec_name()[7] == b.spec_name()[7]);
    }
    assert forall|key: PlanKey|
        {
            let name = #[trigger] key.spec_name();
            !name.contains('=') && text::trimmed(name) == name
        } by {
        let name = key.spec_name();
        assert forall|i: int| 0 <= i < name.len() implies name[i] != '=' by {}
        text::lemma_trimmed_is_same(name);
    }
}

fn find_key(name: &str) -> (key: Option<PlanKey>)
    ensures
        key == known_key(name@),
{
    proof {
        lemma_key_names();
    }
    let key = if text::same(name, "attention") {
        Some(PlanKey::Attention)
    } else if text::same(name, "fusion.qkv") {
        Some(PlanKey::Qkv)
    } else if text::same(name, "fusion.gate_up") {
        Some(PlanKey::GateUp)
    } else if text::same(name, "fusion.add_rms_norm") {
        Some(PlanKey::AddRmsNorm)
    } else if text::same(name, "fusion.qk_rope_cache") {
        Some(PlanKey::QkRopeCache)
    } else if text::same(name, "fusion.decode_norm") {
        Some(PlanKey::DecodeNorm)
    } else if text::same(name, "gemv.config") {
        Some(PlanKey::GemvConfig)
    } else if text::same(name, "flash_decode.blocks") {
        Some(PlanKey::FlashDecodeBlocks)
    } else {
        None
    };
    proof {
        match key {
            Some(found) => assert(found.spec_name() == name@),
            None => assert forall|other: PlanKey| (#[trigger] other.spec_name()) != name@ by {},
        }
    }
    key
}

pub open spec fn parsed_switch(value: Seq<char>) -> Option<bool> {
    if value == "on"@ || value == "true"@ {
        Some(true)
    } else if value == "off"@ || value == "false"@ {
        Some(false)
    } else {
        None
    }
}

pub open spec fn switch_name(enabled: bool) -> Seq<char> {
    if enabled {
        "on"@
    } else {
        "off"@
    }
}

pub open spec fn attention_name(kind: AttentionKind) -> Seq<char> {
    match kind {
        AttentionKind::Reference => "reference"@,
        AttentionKind::Tiled => "tiled"@,
        AttentionKind::FlashPrefill => "flash-prefill"@,
        AttentionKind::DecodeSplitKv => "decode-split-kv"@,
        AttentionKind::FlashDecode => "flash-decode"@,
    }
}

pub open spec fn parsed_attention(value: Seq<char>) -> Option<AttentionKind> {
    if exists|kind: AttentionKind| (#[trigger] attention_name(kind)) == value {
        Some(choose|kind: AttentionKind| (#[trigger] attention_name(kind)) == value)
    } else {
        None
    }
}

pub open spec fn gemv_name(config: Option<DecodeGemvConfig>) -> Seq<char> {
    match config {
        None => "none"@,
        Some(config) => config.spec_name(),
    }
}

pub open spec fn parsed_gemv(value: Seq<char>) -> Option<Option<DecodeGemvConfig>> {
    if value == "none"@ {
        Some(None)
    } else if value == "baseline"@ {
        Some(Some(DecodeGemvConfig::Baseline))
    } else if value == "tuned"@ {
        Some(Some(DecodeGemvConfig::Tuned))
    } else {
        None
    }
}

/// One block entry: `BLOCKxTHREADS`, or `LENGTH:BLOCKxTHREADS`. White space may
/// surround the length and the shape, but not the numbers of the shape.
pub open spec fn parsed_block(entry: Seq<char>) -> Option<FlashDecodeBlock> {
    let (max_length, shape) = match text::split_once_at(entry, ':') {
        Some((length, shape)) => (text::parsed_usize(text::trimmed(length)), shape),
        None => (Some(usize::MAX), entry),
    };
    match text::split_once_at(text::trimmed(shape), 'x') {
        None => None,
        Some((block, threads)) => match (
            max_length,
            text::parsed_usize(block),
            text::parsed_usize(threads),
        ) {
            (Some(max_length), Some(block), Some(threads)) => Some(
                FlashDecodeBlock { max_length, block, threads },
            ),
            _ => None,
        },
    }
}

/// All the entries, if each of them is well formed.
pub open spec fn parsed_block_list(entries: Seq<Seq<char>>) -> Option<Seq<FlashDecodeBlock>> {
    if forall|i: int| 0 <= i < entries.len() ==> parsed_block(#[trigger] entries[i]) is Some {
        Some(Seq::new(entries.len(), |i: int| parsed_block(entries[i])->0))
    } else {
        None
    }
}

pub open spec fn parsed_blocks(value: Seq<char>) -> Option<Seq<FlashDecodeBlock>> {
    if value == "default"@ {
        Some(Seq::empty())
    } else {
        parsed_block_list(text::split_at_every(value, ','))
    }
}

pub open spec fn block_name(entry: FlashDecodeBlock) -> Seq<char> {
    let shape = text::decimal(entry.block as nat) + "x"@ + text::decimal(entry.threads as nat);
    if entry.max_length == usize::MAX {
        shape
    } else {
        text::decimal(entry.max_length as nat) + ":"@ + shape
    }
}

pub open spec fn blocks_name(blocks: Seq<FlashDecodeBlock>) -> Seq<char> {
    if blocks.len() == 0 {
        "default"@
    } else {
        text::joined(blocks.map_values(|entry: FlashDecodeBlock| block_name(entry)), ","@)
    }
}

impl PlanModel {
    /// The listed value of a key.
    pub open spec fn value(self, key: PlanKey) -> Seq<char> {
        match key {
            PlanKey::Attention => attention_name(self.attention),
            PlanKey::Qkv => switch_name(self.fusions.qkv),
            PlanKey::GateUp => switch_name(self.fusions.gate_up),
            PlanKey::AddRmsNorm => switch_name(self.fusions.add_rms_norm),
            PlanKey::QkRopeCache => switch_name(self.fusions.qk_rope_cache),
            PlanKey::DecodeNorm => switch_name(self.fusions.decode_norm),
            PlanKey::GemvConfig => gemv_name(self.kernels.decode_gemv),
            PlanKey::FlashDecodeBlocks => blocks_name(self.kernels.flash_decode_blocks),
        }
    }

    /// The plan with one key set to what `value` denotes, if it denotes anything.
    pub open spec fn with(self, key: PlanKey, value: Seq<char>) -> Option<PlanModel> {
        match key {
            PlanKey::Attention => match parsed_attention(value) {
                Some(attention) => Some(PlanModel { attention, ..self }),
                None => None,
            },
            PlanKey::GemvConfig => match parsed_gemv(value) {
                Some(decode_gemv) => Some(
                    PlanModel {
                        kernels: KernelSelectionModel { decode_gemv, ..self.kernels },
                        ..self
                    },
                ),
                None => None,
            },
            PlanKey::FlashDecodeBlocks => match parsed_blocks(value) {
                Some(flash_decode_blocks) => Some(
                    PlanModel {
                        kernels: KernelSelectionModel { flash_decode_blocks, ..self.kernels },
                        ..self
                    },
                ),
                None => None,
            },
            _ => match parsed_switch(value) {
                Some(enabled) => Some(PlanModel { fusions: self.fusions.with(key, enabled), ..self }),
                None => None,
            },
        }
    }

    /// The plan with one key taken from another plan.
    pub open spec fn with_key_of(self, key: PlanKey, other: PlanModel) -> PlanModel {
        match key {
            PlanKey::Attention => PlanModel { attention: other.attention, ..self },
            PlanKey::GemvConfig => PlanModel {
                kernels: KernelSelectionModel {
                    decode_gemv: other.kernels.decode_gemv,
                    ..self.kernels
                },
                ..self
            },
            PlanKey::FlashDecodeBlocks => PlanModel {
                kernels: KernelSelectionModel {
                    flash_decode_blocks: other.kernels.flash_decode_blocks,
                    ..self.kernels
                },
                ..self
            },
            _ => PlanModel { fusions: self.fusions.with(key, other.fusions.get(key)), ..self },
        }
    }

    /// What an assignment makes of the plan.
    pub open spec fn overridden(self, assignment: Seq<char>) -> Result<PlanModel, PlanErrorModel> {
        match text::split_once_at(assignment, '=') {
            None => Err(PlanErrorModel::Syntax(assignment)),
            Some((name, value)) => match known_key(text::trimmed(name)) {
                None => Err(PlanErrorModel::UnknownKey(text::trimmed(name))),
                Some(key) => match self.with(key, text::trimmed(value)) {
                    Some(plan) => Ok(plan),
                    None => Err(
                        PlanErrorModel::InvalidValue {
                            key: text::trimmed(name),
                            value: text::trimmed(value),
                            expected: key.spec_expected(),
                        },
                    ),
                },
            },
        }
    }

    /// The listing: each key with its value.
    pub open spec fn listing(self) -> Seq<(Seq<char>, Seq<char>)> {
        plan_keys().map_values(|key: PlanKey| (key.spec_name(), self.value(key)))
    }
}

impl Fusions {
    pub open spec fn with(self, key: PlanKey, enabled: bool) -> Fusions {
        match key {
            PlanKey::Qkv => Fusions { qkv: enabled, ..self },
            PlanKey::GateUp => Fusions { gate_up: enabled, ..self },
            PlanKey::AddRmsNorm => Fusions { add_rms_norm: enabled, ..self },
            PlanKey::QkRopeCache => Fusions { qk_rope_cache: enabled, ..self },
            PlanKey::DecodeNorm => Fusions { decode_norm: enabled, ..self },
            _ => self,
        }
    }

    pub open spec fn get(self, key: PlanKey) -> bool {
        match key {
            PlanKey::Qkv => self.qkv,
            PlanKey::GateUp => self.gate_up,
            PlanKey::AddRmsNorm => self.add_rms_norm,
            PlanKey::QkRopeCache => self.qk_rope_cache,
            _ => self.decode_norm,
        }
    }
}

proof fn lemma_attention_names()
    ensures
        forall|a: AttentionKind, b: AttentionKind|
            (#[trigger] attention_name(a)) == (#[trigger] attention_name(b)) ==> a == b,
{
    reveal_strlit("reference");
    reveal_strlit("tiled");
    reveal_strlit("flash-prefill");
    reveal_strlit("decode-split-kv");
    reveal_strlit("flash-decode");
    assert forall|a: AttentionKind, b: AttentionKind|
        (#[trigger] attention_name(a)) == (#[trigger] attention_name(b)) implies a == b by {
        assert(attention_name(a).len() == attention_name(b).len());
    }
}

fn invalid(key: &str, value: &str, expected: &'static str) -> (error: PlanError)
    ensures
        error@ == (PlanErrorModel::InvalidValue { key: key@, value: value@, expected: expected@ }),
{
    PlanError::InvalidValue { key: key.to_owned(), value: value.to_owned(), expected }
}

fn parse_switch(value: &str) -> (enabled: Option<bool>)
    ensures
        enabled == parsed_switch(value@),
{
    if text::same(value, "on") || text::same(value, "true") {
        Some(true)
    } else if text::same(value, "off") || text::same(value, "false") {
        Some(false)
    } else {
        None
    }
}

fn parse_attention(value: &str) -> (kind: Option<AttentionKind>)
    ensures
        kind == parsed_attention(value@),
{
    let kind = if text::same(value, "reference") {
        Some(AttentionKind::Reference)
    } else if text::same(value, "tiled") {
        Some(AttentionKind::Tiled)
    } else if text::same(value, "flash-prefill") {
        Some(AttentionKind::FlashPrefill)
    } else if text::same(value, "decode-split-kv") {
        Some(AttentionKind::DecodeSplitKv)
    } else if text::same(value, "flash-decode") {
        Some(AttentionKind::FlashDecode)
    } else {
        None
    };
    proof {
        lemma_attention_names();
        match kind {
            Some(found) => assert(attention_name(found) == value@),
            None => assert forall|other: AttentionKind| (#[trigger] attention_name(other))
                != value@ by {},
        }
    }
    kind
}

fn attention_text(kind: AttentionKind) -> (name: &'static str)
    ensures
        name@ == attention_name(kind),
{
    match kind {
        AttentionKind::Reference => "reference",
        AttentionKind::Tiled => "tiled",
        AttentionKind::FlashPrefill => "flash-prefill",
        AttentionKind::DecodeSplitKv => "decode-split-kv",
        AttentionKind::FlashDecode => "flash-decode",
    }
}

fn switch_text(enabled: bool) -> (name: String)
    ensures
        name@ == switch_name(enabled),
{
    if enabled {
        "on".to_owned()
    } else {
        "off".to_owned()
    }
}

fn parse_gemv_config(value: &str) -> (config: Option<Option<DecodeGemvConfig>>)
    ensures
        config == parsed_gemv(value@),
{
    if text::same(value, "none") {
        Some(None)
    } else if text::same(value, "baseline") {
        Some(Some(DecodeGemvConfig::Baseline))
    } else if text::same(value, "tuned") {
        Some(Some(DecodeGemvConfig::Tuned))
    } else {
        None
    }
}

fn parse_block(entry: &str) -> (block: Option<FlashDecodeBlock>)
    ensures
        block == parsed_block(entry@),
{
    let (max_length, shape) = match text::split_once(entry, ':') {
        Some((length, shape)) => (text::parse_usize(text::trim(length)), shape),
        None => (Some(usize::MAX), entry),
    };
    match text::split_once(text::trim(shape), 'x') {
        None => None,
        Some((block, threads)) => match (
            max_length,
            text::parse_usize(block),
            text::parse_usize(threads),
        ) {
            (Some(max_length), Some(block), Some(threads)) => Some(
                FlashDecodeBlock { max_length, block, threads },
            ),
            _ => None,
        },
    }
}

fn parse_blocks(value: &str) -> (blocks: Option<Vec<FlashDecodeBlock>>)
    ensures
        match blocks {
            Some(blocks) => parsed_blocks(value@) == Some(blocks@),
            None => parsed_blocks(value@) is None,
        },
{
    if text::same(value, "default") {
        return Some(Vec::new());
    }
    let entries = text::split(value, ',');
    let ghost parts = text::split_at_every(value@, ',');
    let mut blocks: Vec<FlashDecodeBlock> = Vec::new();
    let mut i: usize = 0;
    while i < entries.len()
        invariant
            i <= entries.len(),
            blocks.len() == i,
            parts == text::views(entries@),
            parts == text::split_at_every(value@, ','),
            value@ != "default"@,
            forall|j: int|
                0 <= j < i ==> parsed_block(#[trigger] parts[j]) == Some(blocks@[j]),
        decreases entries.len() - i,
    {
        assert(parts[i as int] == entries@[i as int]@);
        match parse_block(entries[i]) {
            Some(block) => blocks.push(block),
            None => return None,
        }
        i += 1;
    }
    assert(blocks@ =~= Seq::new(parts.len(), |j: int| parsed_block(parts[j])->0));
    Some(blocks)
}

fn block_text(entry: FlashDecodeBlock) -> (name: String)
    ensures
        name@ == block_name(entry),
{
    let mut shape = text::format_usize(entry.block);
    shape.append("x");
    shape.append(text::format_usize(entry.threads).as_str());
    if entry.max_length == usize::MAX {
        shape
    } else {
        let mut name = text::format_usize(entry.max_length);
        name.append(":");
        name.append(shape.as_str());
        name
    }
}

fn blocks_text(blocks: &Vec<FlashDecodeBlock>) -> (name: String)
    ensures
        name@ == blocks_name(blocks@),
{
    if blocks.len() == 0 {
        return "default".to_owned();
    }
    let mut names: Vec<String> = Vec::new();
    let mut i: usize = 0;
    while i < blocks.len()
        invariant
            i <= blocks.len(),
            names.len() == i,
            forall|j: int| 0 <= j < i ==> (#[trigger] names@[j])@ == block_name(blocks@[j]),
        decreases blocks.len() - i,
    {
        names.push(block_text(blocks[i]));
        i += 1;
    }
    assert(text::string_views(names@) =~= blocks@.map_values(
        |entry: FlashDecodeBlock| block_name(entry),
    ));
    text::join(&names, ",")
}

/// The characters of each listed key and value.
pub open spec fn entry_views(entries: Seq<(&'static str, String)>) -> Seq<(Seq<char>, Seq<char>)> {
    entries.map_values(|entry: (&'static str, String)| (entry.0@, entry.1@))
}

impl Plan {
    /// Applies a `key=value` assignment. A refused assignment leaves the plan
    /// as it was.
    pub fn apply_override(&mut self, assignment: &str) -> (result: Result<(), PlanError>)
        ensures
            match old(self)@.overridden(assignment@) {
                Ok(plan) => result is Ok && final(self)@ == plan,
                Err(error) => result is Err && result->Err_0@ == error && final(self)@ == old(self)@,
            },
    {
        let (name, value) = match text::split_once(assignment, '=') {
            Some(parts) => parts,
            None => return Err(PlanError::Syntax(assignment.to_owned())),
        };
        let name = text::trim(name);
        let value = text::trim(value);
        let key = match find_key(name) {
            Some(key) => key,
            None => return Err(PlanError::UnknownKey(name.to_owned())),
        };
        let refused = match key {
            PlanKey::Attention => match parse_attention(value) {
                Some(attention) => {
                    self.attention = attention;
                    false
                },
                None => true,
            },
            PlanKey::GemvConfig => match parse_gemv_config(value) {
                Some(decode_gemv) => {
                    self.kernels.decode_gemv = decode_gemv;
                    false
                },
                None => true,
            },
            PlanKey::FlashDecodeBlocks => match parse_blocks(value) {
                Some(blocks) => {
                    self.kernels.flash_decode_blocks = blocks;
                    false
                },
                None => true,
            },
            PlanKey::Qkv | PlanKey::GateUp | PlanKey::AddRmsNorm | PlanKey::QkRopeCache
            | PlanKey::DecodeNorm => match parse_switch(value) {
                Some(enabled) => {
                    match key {
                        PlanKey::Qkv => self.fusions.qkv = enabled,
                        PlanKey::GateUp => self.fusions.gate_up = enabled,
                        PlanKey::AddRmsNorm => self.fusions.add_rms_norm = enabled,
                        PlanKey::QkRopeCache => self.fusions.qk_rope_cache = enabled,
                        _ => self.fusions.decode_norm = enabled,
                    }
                    false
                },
                None => true,
            },
        };
        if refused {
            return Err(invalid(name, value, key.expected()));
        }
        Ok(())
    }

    /// Every key with its value, in the form that an override takes.
    pub fn entries(&self) -> (entries: Vec<(&'static str, String)>)
        ensures
            entry_views(entries@) == self@.listing(),
    {
        let mut entries: Vec<(&'static str, String)> = Vec::new();
        entries.push(("attention", attention_text(self.attention).to_owned()));
        entries.push(("fusion.qkv", switch_text(self.fusions.qkv)));
        entries.push(("fusion.gate_up", switch_text(self.fusions.gate_up)));
        entries.push(("fusion.add_rms_norm", switch_text(self.fusions.add_rms_norm)));
        entries.push(("fusion.qk_rope_cache", switch_text(self.fusions.qk_rope_cache)));
        entries.push(("fusion.decode_norm", switch_text(self.fusions.decode_norm)));
        let gemv = match self.kernels.decode_gemv {
            Some(config) => config.name(),
            None => "none",
        };
        entries.push(("gemv.config", gemv.to_owned()));
        entries.push(("flash_decode.blocks", blocks_text(&self.kernels.flash_decode_blocks)));
        assert(entry_views(entries@) =~= self@.listing());
        entries
    }
}

proof fn lemma_digit_ends(s: Seq<char>)
    requires
        s.len() > 0,
        text::is_digit(s[0]),
        text::is_digit(s.last()),
    ensures
        text::trimmed(s) == s,
{
    text::lemma_trimmed_is_same(s);
}

/// The name of a block entry reads back as that entry.
proof fn lemma_block_name(entry: FlashDecodeBlock)
    ensures
        parsed_block(block_name(entry)) == Some(entry),
        block_name(entry).len() > 0,
        text::is_digit(block_name(entry)[0]),
        text::is_digit(block_name(entry).last()),
        !block_name(entry).contains(','),
{
    reveal_strlit("x");
    reveal_strlit(":");
    let block = text::decimal(entry.block as nat);
    let threads = text::decimal(entry.threads as nat);
    let length = text::decimal(entry.max_length as nat);
    let shape = block + "x"@ + threads;
    let name = block_name(entry);
    text::lemma_decimal(entry.block as nat);
    text::lemma_decimal(entry.threads as nat);
    text::lemma_decimal(entry.max_length as nat);
    text::lemma_parsed_decimal(entry.block);
    text::lemma_parsed_decimal(entry.threads);
    text::lemma_parsed_decimal(entry.max_length);
    assert(shape =~= block.push('x') + threads);
    assert(shape[0] == block[0]);
    assert(shape.last() == threads.last());
    assert forall|i: int| 0 <= i < shape.len() implies text::is_digit(#[trigger] shape[i])
        || shape[i] == 'x' by {
        if i < block.len() {
            assert(shape[i] == block[i]);
        } else if i > block.len() {
            assert(shape[i] == threads[i - block.len() - 1]);
        }
    }
    assert(!shape.contains(':') && !shape.contains(','));
    lemma_digit_ends(shape);
    assert(!block.contains('x')) by {
        text::lemma_decimal_holds_no(entry.block as nat, 'x');
    }
    text::lemma_split_once_joined(block, 'x', threads);
    if entry.max_length == usize::MAX {
        text::lemma_split_once_absent(name, ':');
    } else {
        assert(name =~= length.push(':') + shape);
        text::lemma_decimal_holds_no(entry.max_length as nat, ':');
        text::lemma_split_once_joined(length, ':', shape);
        lemma_digit_ends(length);
        assert(name[0] == length[0]);
        assert(name.last() == shape.last());
        assert forall|i: int| 0 <= i < name.len() implies name[i] != ',' by {
            if i < length.len() {
                assert(name[i] == length[i]);
                assert(text::is_digit(length[i]));
            } else if i > length.len() {
                assert(name[i] == shape[i - length.len() - 1]);
            }
        }
    }
}

proof fn lemma_joined_ends(parts: Seq<Seq<char>>, separator: Seq<char>)
    requires
        parts.len() > 0,
        forall|i: int|
            0 <= i < parts.len() ==> (#[trigger] parts[i]).len() > 0 && text::is_digit(parts[i][0])
                && text::is_digit(parts[i].last()),
    ensures
        text::joined(parts, separator).len() > 0,
        text::is_digit(text::joined(parts, separator)[0]),
        text::is_digit(text::joined(parts, separator).last()),
    decreases parts.len(),
{
    assert(parts[0].len() > 0);
    if parts.len() > 1 {
        let rest = parts.drop_first();
        assert forall|i: int| 0 <= i < rest.len() implies (#[trigger] rest[i]).len() > 0
            && text::is_digit(rest[i][0]) && text::is_digit(rest[i].last()) by {
            assert(rest[i] == parts[i + 1]);
        }
        lemma_joined_ends(rest, separator);
        let tail = text::joined(rest, separator);
        let whole = text::joined(parts, separator);
        assert(whole[0] == parts[0][0]);
        assert(whole.last() == tail.last());
    }
}

/// The name of a block list reads back as that list, and trimming keeps it.
proof fn lemma_blocks_name(blocks: Seq<FlashDecodeBlock>)
    ensures
        parsed_blocks(blocks_name(blocks)) == Some(blocks),
        text::trimmed(blocks_name(blocks)) == blocks_name(blocks),
{
    reveal_strlit("default");
    reveal_strlit(",");
    let name = blocks_name(blocks);
    if blocks.len() == 0 {
        text::lemma_trimmed_is_same(name);
        assert(blocks =~= Seq::empty());
    } else {
        let parts = blocks.map_values(|entry: FlashDecodeBlock| block_name(entry));
        assert forall|i: int| 0 <= i < parts.len() implies (#[trigger] parts[i]).len() > 0
            && text::is_digit(parts[i][0]) && text::is_digit(parts[i].last())
            && !parts[i].contains(',') && parsed_block(parts[i]) == Some(blocks[i]) by {
            lemma_block_name(blocks[i]);
        }
        assert(","@ =~= seq![',']);
        text::lemma_split_joined(parts, ',');
        lemma_joined_ends(parts, ","@);
        lemma_digit_ends(name);
        assert(name != "default"@) by {
            assert("default"@[0] == 'd');
        }
        assert(Seq::new(parts.len(), |i: int| parsed_block(parts[i])->0) =~= blocks);
    }
}

/// The assignment that sets a key to its listed value.
pub open spec fn assignment_of(entry: (Seq<char>, Seq<char>)) -> Seq<char> {
    entry.0 + "="@ + entry.1
}

/// A listed value can be applied back: on any plan it sets that one key to
/// what it is in the listed plan.
pub proof fn listed_value_applies_back(listed: PlanModel, target: PlanModel, key: PlanKey)
    ensures
        target.overridden(assignment_of((key.spec_name(), listed.value(key)))) == Ok::<
            PlanModel,
            PlanErrorModel,
        >(target.with_key_of(key, listed)),
{
    reveal_strlit("=");
    reveal_strlit("on");
    reveal_strlit("off");
    reveal_strlit("true");
    reveal_strlit("reference");
    reveal_strlit("tiled");
    reveal_strlit("flash-prefill");
    reveal_strlit("decode-split-kv");
    reveal_strlit("flash-decode");
    reveal_strlit("none");
    reveal_strlit("baseline");
    reveal_strlit("tuned");
    lemma_key_names();
    lemma_attention_names();
    let name = key.spec_name();
    let value = listed.value(key);
    let assignment = assignment_of((name, value));
    assert(assignment =~= name.push('=') + value);
    text::lemma_split_once_joined(name, '=', value);
    assert(known_key(name) == Some(key));
    if key == PlanKey::FlashDecodeBlocks {
        lemma_blocks_name(listed.kernels.flash_decode_blocks);
    } else {
        text::lemma_trimmed_is_same(value);
    }
    assert(text::trimmed(value) == value);
    match key {
        PlanKey::Attention => {
            assert(attention_name(listed.attention) == value);
        },
        PlanKey::GemvConfig => {
            assert("none"@.len() != "baseline"@.len());
            assert("tuned"@.len() == 5);
        },
        PlanKey::FlashDecodeBlocks => {},
        _ => {
            assert("on"@.len() != "off"@.len());
            assert("off"@.len() != "true"@.len());
        },
    }
}

/// The plan after a list of assignments, unless one of them is refused.
pub open spec fn all_applied(plan: PlanModel, entries: Seq<(Seq<char>, Seq<char>)>) -> Option<
    PlanModel,
>
    decreases entries.len(),
{
    if entries.len() == 0 {
        Some(plan)
    } else {
        match plan.overridden(assignment_of(entries[0])) {
            Ok(next) => all_applied(next, entries.drop_first()),
            Err(_) => None,
        }
    }
}

proof fn lemma_next_applies(listed: PlanModel, target: PlanModel, at: int, key: PlanKey)
    requires
        0 <= at < 8,
        plan_keys()[at] == key,
    ensures
        all_applied(target, listed.listing().skip(at)) == all_applied(
            target.with_key_of(key, listed),
            listed.listing().skip(at + 1),
        ),
{
    let entries = listed.listing().skip(at);
    listed_value_applies_back(listed, target, key);
    assert(entries[0] == (key.spec_name(), listed.value(key)));
    assert(entries.drop_first() =~= listed.listing().skip(at + 1));
}

/// The entries of a plan, applied in order to any plan, reproduce it.
pub proof fn listing_reproduces_the_plan(listed: PlanModel, target: PlanModel)
    ensures
        all_applied(target, listed.listing()) == Some(listed),
{
    assert(listed.listing().skip(0) =~= listed.listing());
    lemma_next_applies(listed, target, 0, PlanKey::Attention);
    let target = target.with_key_of(PlanKey::Attention, listed);
    lemma_next_applies(listed, target, 1, PlanKey::Qkv);
    let target = target.with_key_of(PlanKey::Qkv, listed);
    lemma_next_applies(listed, target, 2, PlanKey::GateUp);
    let target = target.with_key_of(PlanKey::GateUp, listed);
    lemma_next_applies(listed, target, 3, PlanKey::AddRmsNorm);
    let target = target.with_key_of(PlanKey::AddRmsNorm, listed);
    lemma_next_applies(listed, target, 4, PlanKey::QkRopeCache);
    let target = target.with_key_of(PlanKey::QkRopeCache, listed);
    lemma_next_applies(listed, target, 5, PlanKey::DecodeNorm);
    let target = target.with_key_of(PlanKey::DecodeNorm, listed);
    lemma_next_applies(listed, target, 6, PlanKey::GemvConfig);
    let target = target.with_key_of(PlanKey::GemvConfig, listed);
    lemma_next_applies(listed, target, 7, PlanKey::FlashDecodeBlocks);
    let target = target.with_key_of(PlanKey::FlashDecodeBlocks, listed);
    assert(target =~= listed);
    assert(listed.listing().skip(8).len() == 0);
}

/// An accepted override changes the key that it names and no other.
pub proof fn override_changes_only_its_key(plan: PlanModel, assignment: Seq<char>, other: PlanKey)
    ensures
        match plan.overridden(assignment) {
            Ok(changed) => {
                let key = known_key(
                    text::trimmed(text::split_once_at(assignment, '=')->Some_0.0),
                )->Some_0;
                &&& changed == plan.with_key_of(key, changed)
                &&& other != key ==> changed.value(other) == plan.value(other)
            },
            Err(_) => true,
        },
{
}

/// The attention that a configured kind stands for. One token decodes, with
/// flash decode where two query heads share a key head and, unless it was
/// asked for, at least 256 keys are active. Tiled prefill turns to flash from
/// 32 tokens on, and a decode kind prefills tiled.
pub open spec fn attention_kind(
    configured: AttentionKind,
    tokens: usize,
    active_length: usize,
    query_heads_per_kv: usize,
) -> AttentionKind {
    let long_pair = active_length >= 256 && query_heads_per_kv == 2;
    if configured == AttentionKind::Reference {
        AttentionKind::Reference
    } else if tokens == 1 {
        if long_pair && (configured == AttentionKind::Tiled || configured
            == AttentionKind::FlashPrefill) {
            AttentionKind::FlashDecode
        } else if query_heads_per_kv == 2 && configured == AttentionKind::FlashDecode {
            AttentionKind::FlashDecode
        } else {
            AttentionKind::DecodeSplitKv
        }
    } else if configured == AttentionKind::FlashPrefill || (configured == AttentionKind::Tiled
        && tokens >= 32) {
        AttentionKind::FlashPrefill
    } else {
        AttentionKind::Tiled
    }
}

pub fn attention_kind_for_tokens(
    configured: AttentionKind,
    tokens: usize,
    active_length: usize,
    query_heads_per_kv: usize,
) -> (kind: AttentionKind)
    ensures
        kind == attention_kind(configured, tokens, active_length, query_heads_per_kv),
{
    match configured {
        AttentionKind::Tiled => if tokens >= 32 {
            AttentionKind::FlashPrefill
        } else if tokens == 1 {
            if active_length >= 256 && query_heads_per_kv == 2 {
                AttentionKind::FlashDecode
            } else {
                AttentionKind::DecodeSplitKv
            }
        } else {
            AttentionKind::Tiled
        },
        AttentionKind::DecodeSplitKv => if tokens == 1 {
            AttentionKind::DecodeSplitKv
        } else {
            AttentionKind::Tiled
        },
        AttentionKind::FlashDecode => if tokens == 1 {
            if query_heads_per_kv == 2 {
                AttentionKind::FlashDecode
            } else {
                AttentionKind::DecodeSplitKv
            }
        } else {
            AttentionKind::Tiled
        },
        AttentionKind::FlashPrefill => if tokens == 1 {
            if active_length >= 256 && query_heads_per_kv == 2 {
                AttentionKind::FlashDecode
            } else {
                AttentionKind::DecodeSplitKv
            }
        } else {
            AttentionKind::FlashPrefill
        },
        AttentionKind::Reference => AttentionKind::Reference,
    }
}

/// A decode kernel is chosen for one token and for nothing else, and flash
/// decode only where two query heads share a key head.
pub proof fn decode_kernels_serve_one_token(
    configured: AttentionKind,
    tokens: usize,
    active_length: usize,
    query_heads_per_kv: usize,
)
    ensures
        ({
            let kind = attention_kind(configured, tokens, active_length, query_heads_per_kv);
            &&& kind == AttentionKind::DecodeSplitKv || kind == AttentionKind::FlashDecode
                ==> tokens == 1
            &&& kind == AttentionKind::FlashDecode ==> query_heads_per_kv == 2
        }),
{
}

impl Plan {
    pub fn attention_for_tokens(
        &self,
        tokens: usize,
        active_length: usize,
        query_heads_per_kv: usize,
    ) -> (kind: AttentionKind)
        ensures
            kind == attention_kind(self@.attention, tokens, active_length, query_heads_per_kv),
    {
        attention_kind_for_tokens(self.attention, tokens, active_length, query_heads_per_kv)
    }
}

/// What a list of assignments makes of the plan, one after the other. The first
/// that is refused decides.
pub open spec fn all_overridden(plan: PlanModel, assignments: Seq<Seq<char>>) -> Result<
    PlanModel,
    PlanErrorModel,
>
    decreases assignments.len(),
{
    if assignments.len() == 0 {
        Ok(plan)
    } else {
        match plan.overridden(assignments[0]) {
            Ok(next) => all_overridden(next, assignments.drop_first()),
            Err(error) => Err(error),
        }
    }
}

/// The listing of a plan as assignments.
pub open spec fn listed_assignments(plan: PlanModel) -> Seq<Seq<char>> {
    plan.listing().map_values(|entry: (Seq<char>, Seq<char>)| assignment_of(entry))
}

proof fn lemma_applied_is_overridden(plan: PlanModel, entries: Seq<(Seq<char>, Seq<char>)>)
    requires
        all_applied(plan, entries) is Some,
    ensures
        all_overridden(
            plan,
            entries.map_values(|entry: (Seq<char>, Seq<char>)| assignment_of(entry)),
        ) == Ok::<PlanModel, PlanErrorModel>(all_applied(plan, entries)->0),
    decreases entries.len(),
{
    let assignments = entries.map_values(|entry: (Seq<char>, Seq<char>)| assignment_of(entry));
    if entries.len() > 0 {
        let next = plan.overridden(assignment_of(entries[0]))->Ok_0;
        lemma_applied_is_overridden(next, entries.drop_first());
        assert(assignments.drop_first() =~= entries.drop_first().map_values(
            |entry: (Seq<char>, Seq<char>)| assignment_of(entry),
        ));
    }
}

/// Every listed entry, given as an override, reproduces the plan from any other.
pub proof fn listed_overrides_reproduce_the_plan(listed: PlanModel, target: PlanModel)
    ensures
        all_overridden(target, listed_assignments(listed)) == Ok::<PlanModel, PlanErrorModel>(
            listed,
        ),
{
    listing_reproduces_the_plan(listed, target);
    lemma_applied_is_overridden(target, listed.listing());
}

impl Plan {
    /// Applies assignments in order, up to the first that is refused.
    pub fn apply_overrides(&mut self, assignments: &Vec<String>) -> (result: Result<(), PlanError>)
        ensures
            match all_overridden(old(self)@, text::string_views(assignments@)) {
                Ok(plan) => result is Ok && final(self)@ == plan,
                Err(error) => result is Err && result->Err_0@ == error,
            },
    {
        let ghost all = text::string_views(assignments@);
        let ghost start = self@;
        let mut i: usize = 0;
        assert(all.skip(0) =~= all);
        while i < assignments.len()
            invariant
                i <= assignments@.len(),
                start == old(self)@,
                all == text::string_views(assignments@),
                all_overridden(start, all) == all_overridden(self@, all.skip(i as int)),
            decreases assignments.len() - i,
        {
            let ghost rest = all.skip(i as int);
            assert(rest[0] == assignments@[i as int]@);
            assert(rest.drop_first() =~= all.skip(i + 1));
            self.apply_override(assignments[i].as_str())?;
            i += 1;
        }
        assert(all.skip(i as int).len() == 0);
        Ok(())
    }

    /// An equal plan.
    pub fn copy(&self) -> (out: Plan)
        ensures
            out@ == self@,
    {
        Plan { kernels: self.kernels.copy(), fusions: self.fusions, attention: self.attention }
    }
}

/// A list of blocks that is printed parses back to the same blocks in the same
/// order.
pub proof fn printed_blocks_parse_back(blocks: Seq<FlashDecodeBlock>)
    ensures
        parsed_blocks(blocks_name(blocks)) == Some(blocks),
{
    lemma_blocks_name(blocks);
}

/// On any plan, the assignment of a switch turns the fusion of that name on or off, and
/// nothing else.
pub proof fn a_switch_turns_its_own_fusion(plan: PlanModel, enabled: bool)
    ensures
        ({
            let word = if enabled { "on"@ } else { "off"@ };
            let fusions = plan.fusions;
            &&& plan.overridden("fusion.qkv="@ + word) == Ok::<PlanModel, PlanErrorModel>(
                PlanModel { fusions: Fusions { qkv: enabled, ..fusions }, ..plan },
            )
            &&& plan.overridden("fusion.gate_up="@ + word) == Ok::<PlanModel, PlanErrorModel>(
                PlanModel { fusions: Fusions { gate_up: enabled, ..fusions }, ..plan },
            )
            &&& plan.overridden("fusion.add_rms_norm="@ + word) == Ok::<PlanModel, PlanErrorModel>(
                PlanModel { fusions: Fusions { add_rms_norm: enabled, ..fusions }, ..plan },
            )
            &&& plan.overridden("fusion.qk_rope_cache="@ + word) == Ok::<
                PlanModel,
                PlanErrorModel,
            >(PlanModel { fusions: Fusions { qk_rope_cache: enabled, ..fusions }, ..plan })
            &&& plan.overridden("fusion.decode_norm="@ + word) == Ok::<PlanModel, PlanErrorModel>(
                PlanModel { fusions: Fusions { decode_norm: enabled, ..fusions }, ..plan },
            )
        }),
{
    reveal_strlit("=");
    reveal_strlit("fusion.qkv");
    reveal_strlit("fusion.qkv=");
    reveal_strlit("fusion.gate_up");
    reveal_strlit("fusion.gate_up=");
    reveal_strlit("fusion.add_rms_norm");
    reveal_strlit("fusion.add_rms_norm=");
    reveal_strlit("fusion.qk_rope_cache");
    reveal_strlit("fusion.qk_rope_cache=");
    reveal_strlit("fusion.decode_norm");
    reveal_strlit("fusion.decode_norm=");
    let word = if enabled { "on"@ } else { "off"@ };
    let all = Fusions {
        qkv: enabled,
        gate_up: enabled,
        add_rms_norm: enabled,
        qk_rope_cache: enabled,
        decode_norm: enabled,
    };
    let other = PlanModel { fusions: all, ..plan };
    assert("fusion.qkv="@ =~= "fusion.qkv"@ + "="@);
    assert("fusion.gate_up="@ =~= "fusion.gate_up"@ + "="@);
    assert("fusion.add_rms_norm="@ =~= "fusion.add_rms_norm"@ + "="@);
    assert("fusion.qk_rope_cache="@ =~= "fusion.qk_rope_cache"@ + "="@);
    assert("fusion.decode_norm="@ =~= "fusion.decode_norm"@ + "="@);
    listed_value_applies_back(other, plan, PlanKey::Qkv);
    listed_value_applies_back(other, plan, PlanKey::GateUp);
    listed_value_applies_back(other, plan, PlanKey::AddRmsNorm);
    listed_value_applies_back(other, plan, PlanKey::QkRopeCache);
    listed_value_applies_back(other, plan, PlanKey::DecodeNorm);
}

/// On any plan, the assignment of an attention names its kind, and that of a
/// matrix-vector configuration its rows; nothing else changes.
pub proof fn a_kind_is_chosen_by_its_name(plan: PlanModel)
    ensures
        plan.overridden("attention="@ + "reference"@) == Ok::<PlanModel, PlanErrorModel>(
            PlanModel { attention: AttentionKind::Reference, ..plan },
        ),
        plan.overridden("attention="@ + "tiled"@) == Ok::<PlanModel, PlanErrorModel>(
            PlanModel { attention: AttentionKind::Tiled, ..plan },
        ),
        plan.overridden("attention="@ + "flash-prefill"@) == Ok::<PlanModel, PlanErrorModel>(
            PlanModel { attention: AttentionKind::FlashPrefill, ..plan },
        ),
        plan.overridden("attention="@ + "decode-split-kv"@) == Ok::<PlanModel, PlanErrorModel>(
            PlanModel { attention: AttentionKind::DecodeSplitKv, ..plan },
        ),
        plan.overridden("attention="@ + "flash-decode"@) == Ok::<PlanModel, PlanErrorModel>(
            PlanModel { attention: AttentionKind::FlashDecode, ..plan },
        ),
        plan.overridden("gemv.config="@ + "none"@) == Ok::<PlanModel, PlanErrorModel>(
            PlanModel {
                kernels: KernelSelectionModel { decode_gemv: None, ..plan.kernels },
                ..plan
            },
        ),
        plan.overridden("gemv.config="@ + "baseline"@) == Ok::<PlanModel, PlanErrorModel>(
            PlanModel {
                kernels: KernelSelectionModel {
                    decode_gemv: Some(DecodeGemvConfig::Baseline),
                    ..plan.kernels
                },
                ..plan
            },
        ),
        plan.overridden("gemv.config="@ + "tuned"@) == Ok::<PlanModel, PlanErrorModel>(
            PlanModel {
                kernels: KernelSelectionModel {
                    decode_gemv: Some(DecodeGemvConfig::Tuned),
                    ..plan.kernels
                },
                ..plan
            },
        ),
{
    reveal_strlit("=");
    reveal_strlit("attention");
    reveal_strlit("attention=");
    reveal_strlit("gemv.config");
    reveal_strlit("gemv.config=");
    assert("attention="@ =~= "attention"@ + "="@);
    assert("gemv.config="@ =~= "gemv.config"@ + "="@);
    let key = PlanKey::Attention;
    let with = |attention: AttentionKind| PlanModel { attention, ..plan };
    listed_value_applies_back(with(AttentionKind::Reference), plan, key);
    listed_value_applies_back(with(AttentionKind::Tiled), plan, key);
    listed_value_applies_back(with(AttentionKind::FlashPrefill), plan, key);
    listed_value_applies_back(with(AttentionKind::DecodeSplitKv), plan, key);
    listed_value_applies_back(with(AttentionKind::FlashDecode), plan, key);
    let rows = |decode_gemv: Option<DecodeGemvConfig>|
        PlanModel { kernels: KernelSelectionModel { decode_gemv, ..plan.kernels }, ..plan };
    let gemv = PlanKey::GemvConfig;
    listed_value_applies_back(rows(None), plan, gemv);
    listed_value_applies_back(rows(Some(DecodeGemvConfig::Baseline)), plan, gemv);
    listed_value_applies_back(rows(Some(DecodeGemvConfig::Tuned)), plan, gemv);
}

/// On any plan, a block shape serves every length, or the lengths up to the one before
/// its colon, with so many keys to a block and so many threads to a group.
pub proof fn a_block_shape_is_read_as_keys_by_threads(
    plan: PlanModel,
    length: usize,
    block: usize,
    threads: usize,
)
    requires
        length < usize::MAX,
    ensures
        ({
            let shape = text::decimal(block as nat) + "x"@ + text::decimal(threads as nat);
            let with = |entry: FlashDecodeBlock|
                PlanModel {
                    kernels: KernelSelectionModel {
                        flash_decode_blocks: seq![entry],
                        ..plan.kernels
                    },
                    ..plan
                };
            &&& plan.overridden("flash_decode.blocks="@ + shape) == Ok::<
                PlanModel,
                PlanErrorModel,
            >(with(FlashDecodeBlock { max_length: usize::MAX, block, threads }))
            &&& plan.overridden(
                "flash_decode.blocks="@ + (text::decimal(length as nat) + ":"@ + shape),
            ) == Ok::<PlanModel, PlanErrorModel>(
                with(FlashDecodeBlock { max_length: length, block, threads }),
            )
        }),
{
    reveal_strlit("=");
    reveal_strlit("flash_decode.blocks");
    reveal_strlit("flash_decode.blocks=");
    assert("flash_decode.blocks="@ =~= "flash_decode.blocks"@ + "="@);
    let key = PlanKey::FlashDecodeBlocks;
    let with = |entry: FlashDecodeBlock|
        PlanModel {
            kernels: KernelSelectionModel { flash_decode_blocks: seq![entry], ..plan.kernels },
            ..plan
        };
    let open = FlashDecodeBlock { max_length: usize::MAX, block, threads };
    let bounded = FlashDecodeBlock { max_length: length, block, threads };
    lemma_single_block(open);
    lemma_single_block(bounded);
    listed_value_applies_back(with(open), plan, key);
    listed_value_applies_back(with(bounded), plan, key);
}

proof fn lemma_single_block(entry: FlashDecodeBlock)
    ensures
        blocks_name(seq![entry]) == block_name(entry),
{
    let parts = seq![entry].map_values(|entry: FlashDecodeBlock| block_name(entry));
    assert(parts =~= seq![block_name(entry)]);
    reveal_with_fuel(text::joined, 3);
    assert(blocks_name(seq![entry]) =~= block_name(entry));
}

/// From 256 keys on, one token is decoded by flash decode where two query heads share a
/// key head, if the plan leaves the choice open; from 32 tokens on, a prompt goes through
/// the flash kernel. Reference attention is never replaced.
pub proof fn the_length_chooses_the_attention(
    configured: AttentionKind,
    tokens: usize,
    active_length: usize,
    query_heads_per_kv: usize,
)
    ensures
        ({
            let kind = attention_kind(configured, tokens, active_length, query_heads_per_kv);
            let flexible = configured == AttentionKind::Tiled || configured
                == AttentionKind::FlashPrefill;
            &&& configured == AttentionKind::Reference <==> kind == AttentionKind::Reference
            &&& kind == AttentionKind::FlashDecode <==> tokens == 1 && query_heads_per_kv == 2 && (
            configured == AttentionKind::FlashDecode || flexible && active_length >= 256)
            &&& kind == AttentionKind::FlashPrefill <==> tokens != 1 && (configured
                == AttentionKind::FlashPrefill || configured == AttentionKind::Tiled && tokens
                >= 32)
            &&& kind == AttentionKind::Tiled ==> tokens != 1
        }),
{
}

} // verus!
