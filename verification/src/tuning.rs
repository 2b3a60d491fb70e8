//! Device-specific kernel choices: matrix-vector row counts per shape and the
//! flash decode block for each sequence length.

use crate::error::KernelError;
use crate::text;
use vstd::prelude::*;

verus! {

#[derive(Clone, Copy, Debug, PartialEq, Eq, Structural)]
pub enum DecodeGemvConfig {
    Baseline,
    Tuned,
}

impl DecodeGemvConfig {
    pub open spec fn spec_name(self) -> Seq<char> {
        match self {
            DecodeGemvConfig::Baseline => "baseline"@,
            DecodeGemvConfig::Tuned => "tuned"@,
        }
    }

    pub fn name(self) -> (name: &'static str)
        ensures
            name@ == self.spec_name(),
    {
        match self {
            DecodeGemvConfig::Baseline => "baseline",
            DecodeGemvConfig::Tuned => "tuned",
        }
    }
}

/// Baseline and tuned rows of a measured single matrix-vector shape. The tuned
/// values were measured with distinct FP16 matrices in a rotating working set
/// larger than 512 MiB.
pub open spec fn single_shape(device: Seq<char>, n: usize, k: usize) -> Option<(usize, usize)> {
    if device != "Apple M4 Pro"@ {
        None
    } else if n == 1024 && k == 1024 {
        Some((1, 1))
    } else if n == 1024 && k == 2048 {
        Some((4, 2))
    } else if n == 1024 && k == 3072 {
        Some((4, 1))
    } else if n == 151_936 && k == 1024 {
        Some((0, 2))
    } else {
        None
    }
}

/// Baseline and tuned rows of a measured fused norm and projection shape.
pub open spec fn fused_norm_shape(device: Seq<char>, widths: Seq<usize>, k: usize) -> Option<
    (usize, usize),
> {
    if device != "Apple M4 Pro"@ || k != 1024 {
        None
    } else if widths == seq![2048usize, 1024, 1024] {
        Some((2, 1))
    } else if widths == seq![3072usize, 3072, 0] {
        Some((2, 1))
    } else {
        None
    }
}

/// The rows that a configuration takes from a table entry.
pub open spec fn configured_rows(
    entry: Option<(usize, usize)>,
    fallback: usize,
    config: Option<DecodeGemvConfig>,
) -> usize {
    match (config, entry) {
        (Some(DecodeGemvConfig::Baseline), Some((baseline, _))) => baseline,
        (Some(DecodeGemvConfig::Tuned), Some((_, tuned))) => tuned,
        _ => fallback,
    }
}

pub(crate) fn find_single_shape(device: &str, n: usize, k: usize) -> (entry: Option<(usize, usize)>)
    ensures
        entry == single_shape(device@, n, k),
{
    if !text::same(device, "Apple M4 Pro") {
        None
    } else if n == 1024 && k == 1024 {
        Some((1, 1))
    } else if n == 1024 && k == 2048 {
        Some((4, 2))
    } else if n == 1024 && k == 3072 {
        Some((4, 1))
    } else if n == 151_936 && k == 1024 {
        Some((0, 2))
    } else {
        None
    }
}

fn find_fused_norm_shape(device: &str, widths: [usize; 3], k: usize) -> (entry: Option<
    (usize, usize),
>)
    ensures
        entry == fused_norm_shape(device@, widths@, k),
{
    assert(seq![2048usize, 1024, 1024][0] == 2048);
    assert(seq![3072usize, 3072, 0][0] == 3072);
    if !text::same(device, "Apple M4 Pro") || k != 1024 {
        None
    } else if widths[0] == 2048 && widths[1] == 1024 && widths[2] == 1024 {
        assert(widths@ =~= seq![2048usize, 1024, 1024]);
        Some((2, 1))
    } else if widths[0] == 3072 && widths[1] == 3072 && widths[2] == 0 {
        assert(widths@ =~= seq![3072usize, 3072, 0]);
        Some((2, 1))
    } else {
        None
    }
}

/// Rows per simdgroup for a single matrix-vector product.
pub fn single_rows(
    device: &str,
    n: usize,
    k: usize,
    fallback: usize,
    config: Option<DecodeGemvConfig>,
) -> (rows: usize)
    ensures
        rows == configured_rows(single_shape(device@, n, k), fallback, config),
{
    let config = match config {
        Some(config) => config,
        None => return fallback,
    };
    match find_single_shape(device, n, k) {
        Some((baseline, tuned)) => match config {
            DecodeGemvConfig::Baseline => baseline,
            DecodeGemvConfig::Tuned => tuned,
        },
        None => fallback,
    }
}

/// Rows per simdgroup for a norm fused with its projections.
pub fn fused_norm_rows(
    device: &str,
    widths: [usize; 3],
    k: usize,
    fallback: usize,
    config: Option<DecodeGemvConfig>,
) -> (rows: usize)
    ensures
        rows == configured_rows(fused_norm_shape(device@, widths@, k), fallback, config),
{
    let config = match config {
        Some(config) => config,
        None => return fallback,
    };
    match find_fused_norm_shape(device, widths, k) {
        Some((baseline, tuned)) => match config {
            DecodeGemvConfig::Baseline => baseline,
            DecodeGemvConfig::Tuned => tuned,
        },
        None => fallback,
    }
}

/// The flash decode block that serves sequences of up to `max_length` keys.
#[derive(Clone, Copy, Debug, PartialEq, Eq, Structural)]
pub struct FlashDecodeBlock {
    pub max_length: usize,
    pub block: usize,
    pub threads: usize,
}

impl FlashDecodeBlock {
    /// Whether the kernels are built for this block.
    pub open spec fn supported(self) -> bool {
        supported_block_keys(self.block) && supported_threads(self.threads)
    }
}

pub open spec fn supported_block_keys(keys: usize) -> bool {
    keys == 32 || keys == 64 || keys == 128 || keys == 256
}

pub open spec fn supported_threads(threads: usize) -> bool {
    threads == 128 || threads == 256
}

/// The kernel choices that a plan can change.
#[derive(Clone, Debug, PartialEq, Eq)]
pub struct KernelSelection {
    pub decode_gemv: Option<DecodeGemvConfig>,
    pub flash_decode_blocks: Vec<FlashDecodeBlock>,
}

#[verifier::ext_equal]
pub struct KernelSelectionModel {
    pub decode_gemv: Option<DecodeGemvConfig>,
    pub flash_decode_blocks: Seq<FlashDecodeBlock>,
}

impl View for KernelSelection {
    type V = KernelSelectionModel;

    open spec fn view(&self) -> KernelSelectionModel {
        KernelSelectionModel {
            decode_gemv: self.decode_gemv,
            flash_decode_blocks: self.flash_decode_blocks@,
        }
    }
}

impl KernelSelectionModel {
    /// Whether every flash decode block is one the kernels are built for.
    pub open spec fn valid(self) -> bool {
        forall|i: int|
            0 <= i < self.flash_decode_blocks.len() ==> (
            #[trigger] self.flash_decode_blocks[i]).supported()
    }

    /// The block keys and threads for a sequence of `length` keys: those of the
    /// first entry that reaches so far, or 64 keys and 256 threads.
    pub open spec fn flash_decode_configuration(self, length: usize) -> (usize, usize) {
        first_reaching(self.flash_decode_blocks, length)
    }
}

pub open spec fn first_reaching(blocks: Seq<FlashDecodeBlock>, length: usize) -> (usize, usize)
    decreases blocks.len(),
{
    if blocks.len() == 0 {
        (64, 256)
    } else if length <= blocks[0].max_length {
        (blocks[0].block, blocks[0].threads)
    } else {
        first_reaching(blocks.drop_first(), length)
    }
}

impl Default for KernelSelection {
    fn default() -> (selection: KernelSelection)
        ensures
            selection@.decode_gemv is None,
            selection@.flash_decode_blocks == Seq::<FlashDecodeBlock>::empty(),
    {
        KernelSelection { decode_gemv: None, flash_decode_blocks: Vec::new() }
    }
}

impl KernelSelection {
    pub fn validate(&self) -> (result: Result<(), KernelError>)
        ensures
            result is Ok <==> self@.valid(),
            result is Err ==> result == Err::<(), KernelError>(KernelError::FlashDecodeBlocks),
    {
        let mut i: usize = 0;
        while i < self.flash_decode_blocks.len()
            invariant
                i <= self.flash_decode_blocks.len(),
                forall|j: int| 0 <= j < i ==> (#[trigger] self.flash_decode_blocks@[j]).supported(),
            decreases self.flash_decode_blocks.len() - i,
        {
            let entry = self.flash_decode_blocks[i];
            if !(entry.block == 32 || entry.block == 64 || entry.block == 128 || entry.block == 256)
                || !(entry.threads == 128 || entry.threads == 256) {
                assert(!self@.flash_decode_blocks[i as int].supported());
                return Err(KernelError::FlashDecodeBlocks);
            }
            i += 1;
        }
        Ok(())
    }

    /// The block keys and threads for a sequence of `length` keys.
    pub fn flash_decode_configuration_for_length(&self, length: usize) -> (configuration: (
        usize,
        usize,
    ))
        ensures
            configuration == self@.flash_decode_configuration(length),
    {
        find_reaching(&self.flash_decode_blocks, length)
    }

    /// An equal selection.
    pub fn copy(&self) -> (out: KernelSelection)
        ensures
            out@ == self@,
    {
        let flash_decode_blocks = copy_blocks(&self.flash_decode_blocks);
        KernelSelection { decode_gemv: self.decode_gemv, flash_decode_blocks }
    }
}

pub(crate) fn copy_blocks(blocks: &Vec<FlashDecodeBlock>) -> (out: Vec<FlashDecodeBlock>)
    ensures
        out@ == blocks@,
{
    let mut out: Vec<FlashDecodeBlock> = Vec::new();
    let mut i: usize = 0;
    while i < blocks.len()
        invariant
            i <= blocks.len(),
            out@ == blocks@.take(i as int),
        decreases blocks.len() - i,
    {
        out.push(blocks[i]);
        i += 1;
        assert(out@ =~= blocks@.take(i as int));
    }
    assert(blocks@.take(blocks.len() as int) =~= blocks@);
    out
}

fn find_reaching(blocks: &Vec<FlashDecodeBlock>, length: usize) -> (configuration: (usize, usize))
    ensures
        configuration == first_reaching(blocks@, length),
{
    let mut i: usize = 0;
    assert(blocks@.skip(0) =~= blocks@);
    while i < blocks.len()
        invariant
            i <= blocks.len(),
            first_reaching(blocks@.skip(i as int), length) == first_reaching(blocks@, length),
        decreases blocks.len() - i,
    {
        let entry = blocks[i];
        assert(blocks@.skip(i as int)[0] == entry);
        if length <= entry.max_length {
            return (entry.block, entry.threads);
        }
        assert(blocks@.skip(i as int).drop_first() =~= blocks@.skip(i + 1));
        i += 1;
    }
    (64, 256)
}

pub proof fn lemma_first_reaching_supported(blocks: Seq<FlashDecodeBlock>, length: usize)
    requires
        forall|i: int| 0 <= i < blocks.len() ==> (#[trigger] blocks[i]).supported(),
    ensures
        supported_block_keys(first_reaching(blocks, length).0),
        supported_threads(first_reaching(blocks, length).1),
    decreases blocks.len(),
{
    if blocks.len() > 0 {
        assert(blocks[0].supported());
        let rest = blocks.drop_first();
        assert forall|i: int| 0 <= i < rest.len() implies (#[trigger] rest[i]).supported() by {
            assert(rest[i] == blocks[i + 1]);
        }
        lemma_first_reaching_supported(rest, length);
    }
}

/// The kernel choices of one device.
pub struct Tuning {
    device_name: String,
    is_m4_pro: bool,
    selection: KernelSelection,
}

#[verifier::ext_equal]
pub struct TuningModel {
    pub device_name: Seq<char>,
    pub selection: KernelSelectionModel,
}

impl TuningModel {
    pub open spec fn is_m4_pro(self) -> bool {
        self.device_name == "Apple M4 Pro"@
    }

    pub open spec fn matvec_rows(self, n: usize, k: usize, vocabulary: bool) -> usize {
        configured_rows(
            single_shape(self.device_name, n, k),
            if vocabulary {
                0
            } else {
                4
            },
            self.selection.decode_gemv,
        )
    }

    pub open spec fn fused_norm_matvec_rows(self, widths: Seq<usize>, k: usize) -> usize {
        configured_rows(
            fused_norm_shape(self.device_name, widths, k),
            2,
            self.selection.decode_gemv,
        )
    }
}

impl View for Tuning {
    type V = TuningModel;

    closed spec fn view(&self) -> TuningModel {
        TuningModel { device_name: self.device_name@, selection: self.selection@ }
    }
}

impl Tuning {
    #[verifier::type_invariant]
    spec fn consistent(self) -> bool {
        &&& self.is_m4_pro == (self.device_name@ == "Apple M4 Pro"@)
        &&& self.selection@.valid()
    }

    pub fn new(device_name: &str) -> (tuning: Tuning)
        ensures
            tuning@.device_name == device_name@,
            tuning@.selection.decode_gemv is None,
            tuning@.selection.flash_decode_blocks == Seq::<FlashDecodeBlock>::empty(),
    {
        Tuning {
            device_name: device_name.to_owned(),
            is_m4_pro: text::same(device_name, "Apple M4 Pro"),
            selection: KernelSelection::default(),
        }
    }

    /// Every selection in force is valid.
    pub fn selection(&self) -> (selection: KernelSelection)
        ensures
            selection@ == self@.selection,
            selection@.valid(),
    {
        proof {
            use_type_invariant(self);
        }
        self.selection.copy()
    }

    /// Takes over a valid selection and refuses any other.
    pub fn select(&mut self, selection: &KernelSelection) -> (result: Result<(), KernelError>)
        ensures
            result is Ok <==> selection@.valid(),
            result is Err ==> result == Err::<(), KernelError>(KernelError::FlashDecodeBlocks),
            final(self)@.device_name == old(self)@.device_name,
            final(self)@.selection == if selection@.valid() {
                selection@
            } else {
                old(self)@.selection
            },
    {
        proof {
            use_type_invariant(&*self);
        }
        match selection.validate() {
            Ok(()) => {},
            Err(error) => return Err(error),
        }
        let chosen = selection.copy();
        self.selection = chosen;
        Ok(())
    }

    pub fn is_m4_pro(&self) -> (answer: bool)
        ensures
            answer == self@.is_m4_pro(),
    {
        proof {
            use_type_invariant(self);
        }
        self.is_m4_pro
    }

    pub fn flash_decode_configuration_for_length(&self, length: usize) -> (configuration: (
        usize,
        usize,
    ))
        ensures
            configuration == self@.selection.flash_decode_configuration(length),
            supported_block_keys(configuration.0),
            supported_threads(configuration.1),
    {
        proof {
            use_type_invariant(self);
        }
        let configuration = self.selection.flash_decode_configuration_for_length(length);
        proof {
            lemma_first_reaching_supported(self.selection@.flash_decode_blocks, length);
        }
        configuration
    }

    pub fn matvec_rows_for_shape(&self, n: usize, k: usize, vocabulary: bool) -> (rows: usize)
        ensures
            rows == self@.matvec_rows(n, k, vocabulary),
    {
        single_rows(
            self.device_name.as_str(),
            n,
            k,
            if vocabulary {
                0
            } else {
                4
            },
            self.selection.decode_gemv,
        )
    }

    pub fn fused_norm_matvec_rows_for_shape(&self, widths: [usize; 3], k: usize) -> (rows: usize)
        ensures
            rows == self@.fused_norm_matvec_rows(widths@, k),
    {
        fused_norm_rows(self.device_name.as_str(), widths, k, 2, self.selection.decode_gemv)
    }
}

/// Only the measured shapes of the measured device have rows of their own: these, as
/// (outputs, inner width, baseline, tuned). Every other shape, every other device and a
/// missing configuration take the rows that the caller falls back to.
pub proof fn only_measured_shapes_have_rows(device: Seq<char>, n: usize, k: usize, fallback: usize)
    ensures
        ({
            let rows = |config: Option<DecodeGemvConfig>|
                configured_rows(single_shape(device, n, k), fallback, config);
            let measured = device == "Apple M4 Pro"@ && ((n == 1024 && (k == 1024 || k == 2048 || k
                == 3072)) || (n == 151_936 && k == 1024));
            &&& rows(None) == fallback
            &&& !measured ==> forall|config: Option<DecodeGemvConfig>| #[trigger]
                rows(config) == fallback
            &&& measured ==> {
                &&& rows(Some(DecodeGemvConfig::Baseline)) == if n != 1024 {
                    0usize
                } else if k == 1024 {
                    1usize
                } else {
                    4usize
                }
                &&& rows(Some(DecodeGemvConfig::Tuned)) == if n != 1024 || k == 2048 {
                    2usize
                } else {
                    1usize
                }
            }
        }),
{
}

/// Only the measured fused shapes of the measured device have rows of their own: one
/// tuned row against two, for the projections of the attention and of the gated network.
pub proof fn only_measured_fused_shapes_have_rows(
    device: Seq<char>,
    widths: Seq<usize>,
    k: usize,
    fallback: usize,
)
    ensures
        ({
            let rows = |config: Option<DecodeGemvConfig>|
                configured_rows(fused_norm_shape(device, widths, k), fallback, config);
            let measured = device == "Apple M4 Pro"@ && k == 1024 && (widths == seq![
                2048usize,
                1024,
                1024,
            ] || widths == seq![3072usize, 3072, 0]);
            &&& rows(None) == fallback
            &&& !measured ==> forall|config: Option<DecodeGemvConfig>| #[trigger]
                rows(config) == fallback
            &&& measured ==> rows(Some(DecodeGemvConfig::Baseline)) == 2 && rows(
                Some(DecodeGemvConfig::Tuned),
            ) == 1
        }),
{
}

/// A sequence is decoded with the first block that reaches its length: a block that is
/// chosen serves the length, and none that stands before it does. Where none serves it,
/// 64 keys to a block and 256 threads to a group do.
pub proof fn the_first_block_that_reaches_a_length_serves_it(
    selection: KernelSelectionModel,
    length: usize,
)
    ensures
        ({
            let blocks = selection.flash_decode_blocks;
            let chosen = selection.flash_decode_configuration(length);
            ||| exists|i: int|
                0 <= i < blocks.len() && length <= (#[trigger] blocks[i]).max_length && chosen == (
                    blocks[i].block,
                    blocks[i].threads,
                ) && forall|j: int| 0 <= j < i ==> (#[trigger] blocks[j]).max_length < length
            ||| chosen == (64usize, 256usize) && forall|j: int|
                0 <= j < blocks.len() ==> (#[trigger] blocks[j]).max_length < length
        }),
{
    lemma_first_reaching(selection.flash_decode_blocks, length);
}

proof fn lemma_first_reaching(blocks: Seq<FlashDecodeBlock>, length: usize)
    ensures
        ({
            let chosen = first_reaching(blocks, length);
            ||| exists|i: int|
                0 <= i < blocks.len() && length <= (#[trigger] blocks[i]).max_length && chosen == (
                    blocks[i].block,
                    blocks[i].threads,
                ) && forall|j: int| 0 <= j < i ==> (#[trigger] blocks[j]).max_length < length
            ||| chosen == (64usize, 256usize) && forall|j: int|
                0 <= j < blocks.len() ==> (#[trigger] blocks[j]).max_length < length
        }),
    decreases blocks.len(),
{
    if blocks.len() > 0 && blocks[0].max_length < length {
        let rest = blocks.drop_first();
        lemma_first_reaching(rest, length);
        assert forall|j: int| 0 <= j < rest.len() implies rest[j] == #[trigger] blocks[j + 1] by {}
        if exists|i: int|
            0 <= i < rest.len() && length <= (#[trigger] rest[i]).max_length && first_reaching(
                rest,
                length,
            ) == (rest[i].block, rest[i].threads) && forall|j: int|
                0 <= j < i ==> (#[trigger] rest[j]).max_length < length {
            let i = choose|i: int|
                0 <= i < rest.len() && length <= (#[trigger] rest[i]).max_length && first_reaching(
                    rest,
                    length,
                ) == (rest[i].block, rest[i].threads) && forall|j: int|
                    0 <= j < i ==> (#[trigger] rest[j]).max_length < length;
            assert forall|j: int| 0 <= j < i + 1 implies (#[trigger] blocks[j]).max_length
                < length by {
                if j > 0 {
                    assert(rest[j - 1] == blocks[j]);
                }
            }
            assert(blocks[i + 1] == rest[i]);
        } else {
            assert forall|j: int| 0 <= j < blocks.len() implies (#[trigger] blocks[j]).max_length
                < length by {
                if j > 0 {
                    assert(rest[j - 1] == blocks[j]);
                }
            }
        }
    }
}

} // verus!
