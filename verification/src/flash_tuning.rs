//! Choosing the flash decode blocks of a device by measurement.
//!
//! For each of a few lengths, every block is timed three times, and the one with
//! the smallest median serves sequences of up to that length. Two seconds are
//! spent at most.

use crate::command_batch::{self, CommandBatch};
use crate::error::{GpuError, KernelError};
use crate::gpu::memory::{self, DeviceMemory};
use crate::gpu::recorder;
use crate::gpu::tensor::{DType, Tensor};
use crate::ops::attention::{self, AttentionConfig, AttentionKind};
use crate::ops::support;
use crate::tuning::{self, FlashDecodeBlock, KernelSelectionModel, Tuning};
use vstd::prelude::*;

verus! {

/// The lengths that are measured.
pub open spec fn measured_lengths() -> Seq<usize> {
    seq![512, 640, 1024, 2048, 4096, 8192]
}

/// The keys and threads of the blocks that are measured, in order.
pub open spec fn measured_blocks() -> Seq<(usize, usize)> {
    seq![
        (64, 256),
        (32, 256),
        (128, 256),
        (256, 256),
        (64, 128),
        (32, 128),
        (128, 128),
        (256, 128),
    ]
}

fn length_at(index: usize) -> (length: usize)
    requires
        index < 6,
    ensures
        length == measured_lengths()[index as int],
        0 < length <= 8192,
{
    match index {
        0 => 512,
        1 => 640,
        2 => 1024,
        3 => 2048,
        4 => 4096,
        _ => 8192,
    }
}

fn block_at(index: usize) -> (block: (usize, usize))
    requires
        index < 8,
    ensures
        block == measured_blocks()[index as int],
{
    match index {
        0 => (64, 256),
        1 => (32, 256),
        2 => (128, 256),
        3 => (256, 256),
        4 => (64, 128),
        5 => (32, 128),
        6 => (128, 128),
        _ => (256, 128),
    }
}

/// The middle one of three numbers.
pub open spec fn median(a: u128, b: u128, c: u128) -> u128 {
    if (a <= b && b <= c) || (c <= b && b <= a) {
        b
    } else if (b <= a && a <= c) || (c <= a && a <= b) {
        a
    } else {
        c
    }
}

fn middle(a: u128, b: u128, c: u128) -> (out: u128)
    ensures
        out == median(a, b, c),
{
    if a <= b {
        if b <= c {
            b
        } else if a <= c {
            c
        } else {
            a
        }
    } else if a <= c {
        a
    } else if b <= c {
        c
    } else {
        b
    }
}

/// The first of the smallest medians, if any is below the greatest number.
pub open spec fn is_fastest(medians: Seq<u128>, at: int) -> bool {
    &&& 0 <= at < medians.len()
    &&& medians[at] < u128::MAX
    &&& forall|i: int| 0 <= i < medians.len() ==> medians[at] <= #[trigger] medians[i]
    &&& forall|i: int| 0 <= i < at ==> medians[at] < #[trigger] medians[i]
}

/// The block for a length whose first blocks were measured: the fastest of
/// them, or 64 keys and 256 threads.
pub open spec fn fastest_block(medians: Seq<u128>) -> (usize, usize) {
    if exists|at: int| is_fastest(medians, at) {
        measured_blocks()[choose|at: int| is_fastest(medians, at)]
    } else {
        (64, 256)
    }
}

fn find_fastest(medians: &Vec<u128>) -> (block: (usize, usize))
    requires
        medians@.len() <= 8,
    ensures
        block == fastest_block(medians@),
{
    let mut best: Option<usize> = None;
    let mut i: usize = 0;
    while i < medians.len()
        invariant
            i <= medians@.len() <= 8,
            match best {
                Some(at) => {
                    &&& at < i
                    &&& medians@[at as int] < u128::MAX
                    &&& forall|j: int| 0 <= j < i ==> medians@[at as int] <= #[trigger] medians@[j]
                    &&& forall|j: int| 0 <= j < at ==> medians@[at as int] < #[trigger] medians@[j]
                },
                None => forall|j: int| 0 <= j < i ==> #[trigger] medians@[j] == u128::MAX,
            },
        decreases medians.len() - i,
    {
        let bound: u128 = match best {
            Some(at) => medians[at],
            None => u128::MAX,
        };
        if medians[i] < bound {
            best = Some(i);
        }
        i += 1;
    }
    match best {
        Some(at) => {
            proof {
                assert(is_fastest(medians@, at as int));
                let chosen = choose|at: int| is_fastest(medians@, at);
                assert(medians@[chosen] <= medians@[at as int]);
                assert(medians@[at as int] <= medians@[chosen]);
                assert(chosen == at);
            }
            block_at(at)
        },
        None => {
            assert(!exists|at: int| is_fastest(medians@, at));
            (64, 256)
        },
    }
}

/// What the measurement waits for.
#[derive(Clone, Copy, Debug, PartialEq, Eq, Structural)]
pub enum Stage {
    /// The clock, before a length.
    Length,
    /// The clock, before a block.
    Block,
    /// The time of a run.
    Run,
    Finished,
}

/// A measurement under way.
pub struct FlashTuner {
    pub query_heads: usize,
    pub kv_heads: usize,
    pub head_dim: usize,
    pub chosen: Vec<FlashDecodeBlock>,
    pub medians: Vec<u128>,
    pub times: Vec<u128>,
    pub stage: Stage,
}

#[verifier::ext_equal]
pub struct TunerModel {
    pub query_heads: usize,
    pub kv_heads: usize,
    pub head_dim: usize,
    /// The lengths that are done, with their blocks.
    pub chosen: Seq<FlashDecodeBlock>,
    /// The medians of the blocks that are done, for the length under way.
    pub medians: Seq<u128>,
    /// The times of the block under way.
    pub times: Seq<u128>,
    pub stage: Stage,
}

impl View for FlashTuner {
    type V = TunerModel;

    open spec fn view(&self) -> TunerModel {
        TunerModel {
            query_heads: self.query_heads,
            kv_heads: self.kv_heads,
            head_dim: self.head_dim,
            chosen: self.chosen@,
            medians: self.medians@,
            times: self.times@,
            stage: self.stage,
        }
    }
}

impl TunerModel {
    pub open spec fn wf(self) -> bool {
        &&& self.chosen.len() <= 6
        &&& self.stage != Stage::Finished ==> self.chosen.len() < 6
        &&& self.medians.len() <= 8
        &&& self.times.len() < 3
        &&& self.stage == Stage::Block || self.stage == Stage::Run ==> self.medians.len() < 8
        &&& self.stage == Stage::Block || self.stage == Stage::Length ==> self.times.len() == 0
        &&& self.stage == Stage::Length ==> self.medians.len() == 0
        &&& forall|i: int|
            0 <= i < self.chosen.len() ==> (#[trigger] self.chosen[i]).supported()
                && self.chosen[i].max_length == measured_lengths()[i]
    }

    /// The length under way gets the fastest block, and the next one is up.
    pub open spec fn settled(self) -> TunerModel {
        let (block, threads) = fastest_block(self.medians);
        TunerModel {
            chosen: self.chosen.push(
                FlashDecodeBlock {
                    max_length: measured_lengths()[self.chosen.len() as int],
                    block,
                    threads,
                },
            ),
            medians: Seq::empty(),
            times: Seq::empty(),
            stage: if self.chosen.len() == 5 {
                Stage::Finished
            } else {
                Stage::Length
            },
            ..self
        }
    }

    /// After a look at the clock. Time that is up ends the length under way,
    /// and before a length it ends the measurement.
    pub open spec fn ticked(self, expired: bool) -> TunerModel {
        match self.stage {
            Stage::Length => TunerModel {
                stage: if expired {
                    Stage::Finished
                } else {
                    Stage::Block
                },
                ..self
            },
            Stage::Block => if expired {
                self.settled()
            } else {
                TunerModel { stage: Stage::Run, ..self }
            },
            _ => self,
        }
    }

    /// After a run of the block under way.
    pub open spec fn measured(self, time: u128) -> TunerModel {
        if self.stage != Stage::Run {
            self
        } else if self.times.len() < 2 {
            TunerModel { times: self.times.push(time), ..self }
        } else {
            let next = TunerModel {
                medians: self.medians.push(median(self.times[0], self.times[1], time)),
                times: Seq::empty(),
                stage: Stage::Block,
                ..self
            };
            if next.medians.len() == 8 {
                next.settled()
            } else {
                next
            }
        }
    }
}

/// What a measured block is, it is one that the kernels are built for.
proof fn lemma_fastest_supported(medians: Seq<u128>, length: usize)
    requires
        medians.len() <= 8,
    ensures
        ({
            let (block, threads) = fastest_block(medians);
            FlashDecodeBlock { max_length: length, block, threads }.supported()
        }),
{
    if exists|at: int| is_fastest(medians, at) {
        let at = choose|at: int| is_fastest(medians, at);
        assert(0 <= at < 8);
    }
}

/// One, of which the query of a measurement is made.
pub const QUERY_BITS: u16 = 0x3c00;

/// One half, of which the keys and values of a measurement are made.
pub const CACHE_BITS: u16 = 0x3800;

/// The bytes of the query of a measurement.
pub open spec fn query_bytes(query_heads: usize, head_dim: usize) -> usize {
    memory::whole_buffer(0, seq![1, query_heads, head_dim], DType::F16).capacity
}

/// The bytes of the longest keys, and of the longest values, of a measurement.
pub open spec fn cache_bytes(kv_heads: usize, head_dim: usize) -> usize {
    memory::whole_buffer(0, seq![8192, kv_heads, head_dim], DType::F16).capacity
}

/// The tensors that a measurement runs on.
pub struct TuningTensors {
    pub query: Tensor,
    pub key: Tensor,
    pub value: Tensor,
}

impl FlashTuner {
    /// Begins a measurement, on a device and for head counts that have a choice.
    pub fn begin(tuning: &Tuning, query_heads: usize, kv_heads: usize, head_dim: usize) -> (started:
        Option<FlashTuner>)
        ensures
            match started {
                Some(tuner) => {
                    &&& tuning@.is_m4_pro() && query_heads == 2 * kv_heads && head_dim > 0
                    &&& tuner@.wf()
                    &&& tuner@ == (TunerModel {
                        query_heads,
                        kv_heads,
                        head_dim,
                        chosen: Seq::empty(),
                        medians: Seq::empty(),
                        times: Seq::empty(),
                        stage: Stage::Length,
                    })
                },
                None => !(tuning@.is_m4_pro() && query_heads == 2 * kv_heads && head_dim > 0),
            },
    {
        if !tuning.is_m4_pro() || query_heads % 2 != 0 || query_heads / 2 != kv_heads || head_dim
            == 0 {
            return None;
        }
        Some(
            FlashTuner {
                query_heads,
                kv_heads,
                head_dim,
                chosen: Vec::new(),
                medians: Vec::new(),
                times: Vec::new(),
                stage: Stage::Length,
            },
        )
    }

    fn settle(&mut self)
        requires
            old(self)@.chosen.len() < 6,
            old(self)@.medians.len() <= 8,
            forall|i: int|
                0 <= i < old(self)@.chosen.len() ==> (#[trigger] old(self)@.chosen[i]).supported()
                    && old(self)@.chosen[i].max_length == measured_lengths()[i],
        ensures
            final(self)@ == old(self)@.settled(),
            final(self)@.wf(),
    {
        proof {
            lemma_fastest_supported(self.medians@, 0);
        }
        let done: usize = self.chosen.len();
        let (block, threads) = find_fastest(&self.medians);
        self.chosen.push(FlashDecodeBlock { max_length: length_at(done), block, threads });
        self.medians = Vec::new();
        self.times = Vec::new();
        self.stage = if done == 5 {
            Stage::Finished
        } else {
            Stage::Length
        };
    }

    /// Looks at the clock: whether the time is up.
    pub fn tick(&mut self, expired: bool)
        requires
            old(self)@.wf(),
        ensures
            final(self)@.wf(),
            final(self)@ == old(self)@.ticked(expired),
    {
        match self.stage {
            Stage::Length => {
                self.stage = if expired {
                    Stage::Finished
                } else {
                    Stage::Block
                };
            },
            Stage::Block => {
                if expired {
                    self.settle();
                } else {
                    self.stage = Stage::Run;
                }
            },
            _ => {},
        }
    }

    /// Takes the time of a run.
    pub fn measure(&mut self, time: u128)
        requires
            old(self)@.wf(),
        ensures
            final(self)@.wf(),
            final(self)@ == old(self)@.measured(time),
    {
        if self.stage != Stage::Run {
            return ;
        }
        if self.times.len() < 2 {
            self.times.push(time);
            return ;
        }
        let value: u128 = middle(self.times[0], self.times[1], time);
        self.medians.push(value);
        self.times = Vec::new();
        self.stage = Stage::Block;
        if self.medians.len() == 8 {
            self.settle();
        }
    }

    /// Buffers for the query and for the longest keys and values.
    pub fn tensors(&self, device: &mut DeviceMemory) -> (result: Result<TuningTensors, GpuError>)
        ensures
            final(device)@.words == old(device)@.words,
            match (
                memory::buffer_error(seq![1, self@.query_heads, self@.head_dim], DType::F16),
                memory::buffer_error(seq![8192, self@.kv_heads, self@.head_dim], DType::F16),
            ) {
                (Some(error), _) => {
                    &&& result == Err::<TuningTensors, GpuError>(error)
                    &&& final(device).lens@ == old(device).lens@
                },
                (None, Some(error)) => {
                    &&& result == Err::<TuningTensors, GpuError>(error)
                    &&& final(device).lens@ == old(device).lens@.push(
                        query_bytes(self@.query_heads, self@.head_dim),
                    )
                },
                (None, None) => {
                    let buffers = old(device).lens@.len();
                    let cache_bytes = cache_bytes(self@.kv_heads, self@.head_dim);
                    &&& final(device).lens@ == old(device).lens@.push(
                        query_bytes(self@.query_heads, self@.head_dim),
                    ).push(cache_bytes).push(cache_bytes)
                    &&& result is Ok
                    &&& result->Ok_0.query@ == memory::whole_buffer(
                        buffers as usize,
                        seq![1, self@.query_heads, self@.head_dim],
                        DType::F16,
                    )
                    &&& result->Ok_0.key@ == memory::whole_buffer(
                        (buffers + 1) as usize,
                        seq![8192, self@.kv_heads, self@.head_dim],
                        DType::F16,
                    )
                    &&& result->Ok_0.value@ == memory::whole_buffer(
                        (buffers + 2) as usize,
                        seq![8192, self@.kv_heads, self@.head_dim],
                        DType::F16,
                    )
                },
            },
    {
        let query_shape: Vec<usize> = vec![1, self.query_heads, self.head_dim];
        let cache_shape: Vec<usize> = vec![8192, self.kv_heads, self.head_dim];
        assert(query_shape@ =~= seq![1, self.query_heads, self.head_dim]);
        assert(cache_shape@ =~= seq![8192, self.kv_heads, self.head_dim]);
        let query = device.empty(query_shape.as_slice(), DType::F16)?;
        let key = device.empty(cache_shape.as_slice(), DType::F16)?;
        let value = device.empty(cache_shape.as_slice(), DType::F16)?;
        Ok(TuningTensors { query, key, value })
    }

    /// Records the run that the measurement waits for.
    pub fn record(&self, batch: &mut CommandBatch, tensors: &TuningTensors) -> (result: Result<
        Tensor,
        KernelError,
    >)
        requires
            old(batch).wf(),
            old(batch).recorder.holds(tensors.query),
            old(batch).recorder.holds(tensors.key),
            old(batch).recorder.holds(tensors.value),
            self@.wf(),
            self@.stage == Stage::Run,
        ensures
            final(batch).wf(),
            recorder::took1(old(batch).recorder, final(batch).recorder, result),
            ({
                let length = measured_lengths()[self@.chosen.len() as int];
                let block = measured_blocks()[self@.medians.len() as int];
                match (tensors.key@.prefixed(length), tensors.value@.prefixed(length)) {
                    (Err(error), _) => result == Err::<Tensor, KernelError>(KernelError::Gpu(error))
                        && final(batch)@ == old(batch)@,
                    (_, Err(error)) => result == Err::<Tensor, KernelError>(KernelError::Gpu(error))
                        && final(batch)@ == old(batch)@,
                    (Ok(key), Ok(value)) => support::outcome1(
                        old(batch)@,
                        final(batch)@,
                        result,
                        attention::attention_step(
                            old(batch)@,
                            tensors.query@,
                            key,
                            value,
                            AttentionConfig {
                                query_heads: self@.query_heads,
                                kv_heads: self@.kv_heads,
                                head_dim: self@.head_dim,
                                causal: true,
                                query_offset: (length - 1) as usize,
                            },
                            AttentionKind::FlashDecode,
                            command_batch::settings_split(
                                old(batch).settings@,
                                Some(block),
                                key.shape[0],
                            ),
                        ),
                    ),
                }
            }),
    {
        let length: usize = length_at(self.chosen.len());
        let (block, threads) = block_at(self.medians.len());
        let key = match tensors.key.prefix(length) {
            Ok(key) => key,
            Err(error) => return Err(KernelError::Gpu(error)),
        };
        let value = match tensors.value.prefix(length) {
            Ok(value) => value,
            Err(error) => return Err(KernelError::Gpu(error)),
        };
        let config = AttentionConfig {
            query_heads: self.query_heads,
            kv_heads: self.kv_heads,
            head_dim: self.head_dim,
            causal: true,
            query_offset: length - 1,
        };
        batch.attention_flash_decode_with_configuration(
            &tensors.query,
            &key,
            &value,
            config,
            block,
            threads,
        )
    }

    /// Takes the blocks of a finished measurement over. They are valid whenever
    /// it ended, so nothing is refused.
    pub fn apply(&self, device: &mut Tuning)
        requires
            self@.wf(),
        ensures
            final(device)@.device_name == old(device)@.device_name,
            final(device)@.selection == (KernelSelectionModel {
                flash_decode_blocks: self@.chosen,
                ..old(device)@.selection
            }),
    {
        let mut selection = device.selection();
        selection.flash_decode_blocks = tuning::copy_blocks(&self.chosen);
        assert(selection@.valid()) by {
            assert forall|i: int| 0 <= i < selection@.flash_decode_blocks.len() implies (
            #[trigger] selection@.flash_decode_blocks[i]).supported() by {
                assert(self@.chosen[i].supported());
            }
        }
        let _ = device.select(&selection);
    }
}

/// The median of three times is one of them, has one on either side of it that is no
/// further out, and does not depend on their order.
pub proof fn a_median_lies_in_the_middle(a: u128, b: u128, c: u128)
    ensures
        ({
            let m = median(a, b, c);
            &&& m == a || m == b || m == c
            &&& a <= m || b <= m || c <= m
            &&& (m == a ==> (b <= m <= c) || (c <= m <= b))
            &&& (m == b ==> (a <= m <= c) || (c <= m <= a))
            &&& (m == c ==> (a <= m <= b) || (b <= m <= a))
            &&& m == median(b, a, c)
            &&& m == median(a, c, b)
            &&& m == median(c, b, a)
        }),
{
}

/// The measured lengths ascend from 512 to 8192, and every block of 32, 64, 128 or 256
/// keys with 128 or 256 threads is measured once, the one that serves where nothing was
/// measured before all others.
pub proof fn every_built_block_is_measured_once(block: usize, threads: usize, i: int, j: int)
    requires
        0 <= i < j,
    ensures
        measured_lengths().len() == 6,
        measured_lengths()[0] == 512,
        measured_lengths()[5] == 8192,
        j < 6 ==> measured_lengths()[i] < measured_lengths()[j],
        measured_blocks().len() == 8,
        measured_blocks()[0] == fastest_block(Seq::empty()),
        j < 8 ==> measured_blocks()[i] != measured_blocks()[j],
        tuning::supported_block_keys(block) && tuning::supported_threads(threads)
            <==> measured_blocks().contains((block, threads)),
{
    let blocks = measured_blocks();
    assert(blocks[0] == (64usize, 256usize));
    assert(blocks[1] == (32usize, 256usize));
    assert(blocks[2] == (128usize, 256usize));
    assert(blocks[3] == (256usize, 256usize));
    assert(blocks[4] == (64usize, 128usize));
    assert(blocks[5] == (32usize, 128usize));
    assert(blocks[6] == (128usize, 128usize));
    assert(blocks[7] == (256usize, 128usize));
    assert(!(exists|at: int| is_fastest(Seq::empty(), at)));
}

/// A length gets a block that no measured block is faster than, among equally fast ones
/// the first, under the length that was measured; where no run came to an end, it gets 64
/// keys and 256 threads.
pub proof fn a_length_gets_its_fastest_block(tuner: TunerModel, i: int)
    requires
        tuner.wf(),
        tuner.chosen.len() < 6,
        0 <= i < tuner.medians.len(),
    ensures
        ({
            let done = tuner.settled();
            let entry = done.chosen.last();
            &&& done.chosen.len() == tuner.chosen.len() + 1
            &&& done.chosen.drop_last() == tuner.chosen
            &&& entry.max_length == measured_lengths()[tuner.chosen.len() as int]
            &&& done.stage == Stage::Finished <==> done.chosen.len() == 6
            &&& tuner.medians[i] < u128::MAX ==> exists|at: int|
                0 <= at < tuner.medians.len() && (entry.block, entry.threads)
                    == #[trigger] measured_blocks()[at] && tuner.medians[at] <= tuner.medians[i]
                    && (tuner.medians[at] == tuner.medians[i] ==> at <= i)
        }),
{
    let medians = tuner.medians;
    let done = tuner.settled();
    assert(done.chosen.drop_last() =~= tuner.chosen);
    if medians[i] < u128::MAX {
        lemma_some_is_fastest(medians, medians.len() as int);
        let at = choose|at: int| is_fastest(medians, at);
        assert(is_fastest(medians, at));
        assert(medians[at] <= medians[i]);
        if medians[at] == medians[i] && i < at {
            assert(medians[at] < medians[i]);
        }
        assert((done.chosen.last().block, done.chosen.last().threads) == measured_blocks()[at]);
    }
}

proof fn lemma_some_is_fastest(medians: Seq<u128>, count: int)
    requires
        0 <= count <= medians.len(),
        exists|i: int| 0 <= i < count && #[trigger] medians[i] < u128::MAX,
    ensures
        exists|at: int| is_fastest(medians.take(count), at),
        count == medians.len() ==> exists|at: int| is_fastest(medians, at),
    decreases count,
{
    let shown = medians.take(count);
    let last = count - 1;
    let before = medians.take(last);
    if exists|i: int| 0 <= i < last && #[trigger] medians[i] < u128::MAX {
        lemma_some_is_fastest(medians, last);
        let at = choose|at: int| is_fastest(before, at);
        assert(before[at] == medians[at]);
        assert forall|i: int| 0 <= i < last implies medians[at] <= #[trigger] shown[i] by {
            assert(before[i] == shown[i]);
        }
        assert forall|i: int| 0 <= i < at implies medians[at] < #[trigger] shown[i] by {
            assert(before[i] == shown[i]);
        }
        if medians[last] < medians[at] {
            assert(shown[last] == medians[last]);
            assert forall|i: int| 0 <= i < last implies shown[last] < #[trigger] shown[i] by {}
            assert(is_fastest(shown, last));
        } else {
            assert(shown[at] == medians[at]);
            assert(shown[last] == medians[last]);
            assert(is_fastest(shown, at));
        }
    } else {
        assert(medians[last] < u128::MAX);
        assert forall|i: int| 0 <= i < last implies shown[last] < #[trigger] shown[i] by {
            assert(shown[i] == medians[i]);
            assert(!(medians[i] < u128::MAX));
        }
        assert(shown[last] == medians[last]);
        assert(is_fastest(shown, last));
    }
    assert(count == medians.len() ==> shown =~= medians);
}

} // verus!
