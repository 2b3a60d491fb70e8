//! Device buffers and scratch pools of a context.

use crate::error::GpuError;
use crate::gpu::scratch::ScratchState;
use crate::gpu::tensor::{self, DType, Place, Tensor, TensorModel};
use vstd::prelude::*;

verus! {

/// Words that a buffer starts with.
pub struct WordUpload {
    pub buffer: usize,
    pub words: Vec<u32>,
}

/// The buffers that tensors of a context live in, by the bytes that each needs,
/// and the words that are still to be written to some of them.
pub struct DeviceMemory {
    pub lens: Vec<usize>,
    pub uploads: Vec<WordUpload>,
}

/// What a device memory is: the bytes of its buffers, and the words to be
/// written, each list with the buffer that it goes to.
pub struct MemoryModel {
    pub lens: Seq<usize>,
    pub words: Seq<(usize, Seq<u32>)>,
}

impl MemoryModel {
    /// The memory with one more buffer.
    pub open spec fn with_buffer(self, bytes: usize) -> MemoryModel {
        MemoryModel { lens: self.lens.push(bytes), ..self }
    }

    /// The memory with one more buffer, and the words that it is to start with.
    pub open spec fn with_words(self, bytes: usize, words: Seq<u32>) -> MemoryModel {
        MemoryModel {
            lens: self.lens.push(bytes),
            words: self.words.push((self.lens.len() as usize, words)),
        }
    }
}

pub open spec fn upload_views(uploads: Seq<WordUpload>) -> Seq<(usize, Seq<u32>)> {
    uploads.map_values(|upload: WordUpload| (upload.buffer, upload.words@))
}

/// Why no buffer of this shape can be had.
pub open spec fn buffer_error(shape: Seq<usize>, dtype: DType) -> Option<GpuError> {
    if !tensor::filled(shape) {
        Some(GpuError::EmptyShape)
    } else if tensor::elements(shape) > usize::MAX {
        Some(GpuError::ElementCountOverflow)
    } else if tensor::elements(shape) * dtype.spec_size() > usize::MAX {
        Some(GpuError::ByteLengthOverflow)
    } else {
        None
    }
}

/// A tensor that fills the buffer with this index.
pub open spec fn whole_buffer(buffer: usize, shape: Seq<usize>, dtype: DType) -> TensorModel {
    TensorModel {
        place: Place::Device { buffer },
        capacity: (tensor::elements(shape) * dtype.spec_size()) as usize,
        offset: 0,
        shape,
        dtype,
    }
}

/// Whether host data of a length can fill a tensor.
pub fn check_data_len(expected: usize, actual: usize) -> (result: Result<(), GpuError>)
    ensures
        result == if expected == actual {
            Ok::<(), GpuError>(())
        } else {
            Err(GpuError::DataLengthMismatch)
        },
{
    if expected == actual {
        Ok(())
    } else {
        Err(GpuError::DataLengthMismatch)
    }
}

impl DeviceMemory {
    pub open spec fn view(&self) -> MemoryModel {
        MemoryModel { lens: self.lens@, words: upload_views(self.uploads@) }
    }

    pub fn new() -> (memory: DeviceMemory)
        ensures
            memory@ == (MemoryModel { lens: Seq::empty(), words: Seq::empty() }),
    {
        let memory = DeviceMemory { lens: Vec::new(), uploads: Vec::new() };
        assert(memory@.words =~= Seq::empty());
        assert(memory@.lens =~= Seq::empty());
        memory
    }

    /// Hands out the words that are still to be written.
    pub fn take_uploads(&mut self) -> (uploads: Vec<WordUpload>)
        ensures
            upload_views(uploads@) == old(self)@.words,
            final(self)@ == (MemoryModel { words: Seq::empty(), ..old(self)@ }),
    {
        let mut uploads: Vec<WordUpload> = Vec::new();
        std::mem::swap(&mut uploads, &mut self.uploads);
        assert(self@.words =~= Seq::empty());
        uploads
    }

    /// A tensor in a buffer of its own, with undefined contents.
    pub fn empty(&mut self, shape: &[usize], dtype: DType) -> (result: Result<Tensor, GpuError>)
        ensures
            match buffer_error(shape@, dtype) {
                Some(error) => {
                    &&& result == Err::<Tensor, GpuError>(error)
                    &&& final(self)@ == old(self)@
                },
                None => {
                    let tensor = whole_buffer(old(self).lens@.len() as usize, shape@, dtype);
                    &&& result is Ok
                    &&& result->Ok_0@ == tensor
                    &&& final(self)@ == old(self)@.with_buffer(tensor.capacity)
                },
            },
    {
        let buffer: usize = self.lens.len();
        match Tensor::device(buffer, shape, dtype) {
            Ok(tensor) => {
                let bytes: usize = tensor.byte_len();
                self.lens.push(bytes);
                Ok(tensor)
            },
            Err(error) => Err(error),
        }
    }

    /// A tensor in a buffer of its own for `count` elements of host data.
    pub fn for_elements(&mut self, count: usize, shape: &[usize], dtype: DType) -> (result: Result<
        Tensor,
        GpuError,
    >)
        ensures
            match buffer_error(shape@, dtype) {
                Some(error) => {
                    &&& result == Err::<Tensor, GpuError>(error)
                    &&& final(self)@ == old(self)@
                },
                None => {
                    let tensor = whole_buffer(old(self).lens@.len() as usize, shape@, dtype);
                    if count == tensor.len() {
                        &&& result is Ok
                        &&& result->Ok_0@ == tensor
                        &&& final(self)@ == old(self)@.with_buffer(tensor.capacity)
                    } else {
                        &&& result == Err::<Tensor, GpuError>(GpuError::DataLengthMismatch)
                        &&& final(self)@ == old(self)@
                    }
                },
            },
    {
        let buffer: usize = self.lens.len();
        let tensor = match Tensor::device(buffer, shape, dtype) {
            Ok(tensor) => tensor,
            Err(error) => return Err(error),
        };
        check_data_len(tensor.len(), count)?;
        let bytes: usize = tensor.byte_len();
        self.lens.push(bytes);
        Ok(tensor)
    }

    /// A tensor in a buffer of its own for `count` bytes of host data.
    pub fn for_bytes(&mut self, count: usize, shape: &[usize], dtype: DType) -> (result: Result<
        Tensor,
        GpuError,
    >)
        ensures
            match buffer_error(shape@, dtype) {
                Some(error) => {
                    &&& result == Err::<Tensor, GpuError>(error)
                    &&& final(self)@ == old(self)@
                },
                None => {
                    let tensor = whole_buffer(old(self).lens@.len() as usize, shape@, dtype);
                    if count == tensor.byte_len() {
                        &&& result is Ok
                        &&& result->Ok_0@ == tensor
                        &&& final(self)@ == old(self)@.with_buffer(tensor.capacity)
                    } else {
                        &&& result == Err::<Tensor, GpuError>(GpuError::DataLengthMismatch)
                        &&& final(self)@ == old(self)@
                    }
                },
            },
    {
        let buffer: usize = self.lens.len();
        let tensor = match Tensor::device(buffer, shape, dtype) {
            Ok(tensor) => tensor,
            Err(error) => return Err(error),
        };
        let bytes: usize = tensor.byte_len();
        check_data_len(bytes, count)?;
        self.lens.push(bytes);
        Ok(tensor)
    }

    /// A tensor for words, which are to be written to its buffer.
    pub fn tensor_u32(&mut self, values: &[u32], shape: &[usize]) -> (result: Result<
        Tensor,
        GpuError,
    >)
        ensures
            match buffer_error(shape@, DType::U32) {
                Some(error) => {
                    &&& result == Err::<Tensor, GpuError>(error)
                    &&& final(self)@ == old(self)@
                },
                None => {
                    let tensor = whole_buffer(old(self).lens@.len() as usize, shape@, DType::U32);
                    if values@.len() == tensor.len() {
                        &&& result is Ok
                        &&& result->Ok_0@ == tensor
                        &&& final(self)@ == old(self)@.with_words(tensor.capacity, values@)
                    } else {
                        &&& result == Err::<Tensor, GpuError>(GpuError::DataLengthMismatch)
                        &&& final(self)@ == old(self)@
                    }
                },
            },
    {
        let buffer: usize = self.lens.len();
        let tensor = self.for_elements(values.len(), shape, DType::U32)?;
        let ghost before = self@.words;
        self.uploads.push(WordUpload { buffer, words: vstd::slice::slice_to_vec(values) });
        assert(self@.words =~= before.push((buffer, values@)));
        Ok(tensor)
    }
}

/// The bytes of a word, the lowest first.
pub open spec fn byte_of(word: u32, at: int) -> u8 {
    if at == 0 {
        (word % 0x100) as u8
    } else if at == 1 {
        (word / 0x100 % 0x100) as u8
    } else if at == 2 {
        (word / 0x1_0000 % 0x100) as u8
    } else {
        (word / 0x100_0000) as u8
    }
}

/// Bytes with words in front, over what was there.
pub open spec fn words_over(words: Seq<u32>, buffer: Seq<u8>) -> Seq<u8> {
    Seq::new(
        buffer.len(),
        |i: int|
            if i < 4 * words.len() {
                byte_of(words[i / 4], i % 4)
            } else {
                buffer[i]
            },
    )
}

/// Writes words to a buffer, from its start.
pub fn fill_words(words: &[u32], buffer: &mut [u8]) -> (result: Result<(), GpuError>)
    ensures
        if 4 * words@.len() <= old(buffer)@.len() {
            &&& result is Ok
            &&& final(buffer)@ == words_over(words@, old(buffer)@)
        } else {
            &&& result == Err::<(), GpuError>(GpuError::DataLengthMismatch)
            &&& final(buffer)@ == old(buffer)@
        },
{
    let ghost before = buffer@;
    let count: usize = words.len();
    let len: usize = buffer.len();
    if count > len / 4 {
        return Err(GpuError::DataLengthMismatch);
    }
    let mut n: usize = 0;
    while n < count
        invariant
            n <= count,
            count == words@.len(),
            len == before.len(),
            count <= len / 4,
            buffer@.len() == before.len(),
            forall|i: int|
                0 <= i < 4 * n ==> #[trigger] buffer@[i] == words_over(words@, before)[i],
            forall|i: int| 4 * n <= i < before.len() ==> #[trigger] buffer@[i] == before[i],
        decreases count - n,
    {
        let at: usize = 4 * n;
        let word: u32 = words[n];
        buffer[at] = (word % 0x100) as u8;
        buffer[at + 1] = (word / 0x100 % 0x100) as u8;
        buffer[at + 2] = (word / 0x1_0000 % 0x100) as u8;
        buffer[at + 3] = (word / 0x100_0000) as u8;
        n += 1;
    }
    assert(buffer@ =~= words_over(words@, before));
    Ok(())
}

/// The words of a tensor fill the buffer that it was given to the end.
pub proof fn words_fill_their_buffer(buffer: usize, words: Seq<u32>, bytes: Seq<u8>)
    requires
        buffer_error(seq![words.len() as usize], DType::U32) is None,
        words.len() <= usize::MAX,
        bytes.len() == whole_buffer(buffer, seq![words.len() as usize], DType::U32).capacity,
    ensures
        4 * words.len() == bytes.len(),
        forall|i: int|
            0 <= i < bytes.len() ==> #[trigger] words_over(words, bytes)[i] == byte_of(
                words[i / 4],
                i % 4,
            ),
{
    tensor::lemma_elements_one(words.len() as usize);
}

/// The scratch pools of a context. A pool that a batch uses is out.
pub struct ScratchPools {
    pub slots: Vec<Option<ScratchState>>,
}

/// The first pool that no batch uses, or the number of pools.
pub open spec fn first_idle(slots: Seq<Option<ScratchState>>) -> int
    decreases slots.len(),
{
    if slots.len() == 0 || slots[0] is Some {
        0
    } else {
        1 + first_idle(slots.drop_first())
    }
}

proof fn lemma_first_idle(slots: Seq<Option<ScratchState>>, at: int)
    requires
        0 <= at <= slots.len(),
        forall|i: int| 0 <= i < at ==> #[trigger] slots[i] is None,
        at < slots.len() ==> slots[at] is Some,
    ensures
        first_idle(slots) == at,
    decreases slots.len(),
{
    if at > 0 {
        assert(slots[0] is None);
        let rest = slots.drop_first();
        assert forall|i: int| 0 <= i < at - 1 implies #[trigger] rest[i] is None by {
            assert(rest[i] == slots[i + 1]);
        }
        lemma_first_idle(rest, at - 1);
    }
}

impl ScratchPools {
    pub open spec fn wf(self) -> bool {
        forall|i: int|
            0 <= i < self.slots@.len() ==> ((#[trigger] self.slots@[i]) matches Some(state)
                ==> state.wf())
    }

    pub fn new() -> (pools: ScratchPools)
        ensures
            pools.wf(),
            pools.slots@.len() == 0,
    {
        ScratchPools { slots: Vec::new() }
    }

    /// Takes out the first pool that no batch uses, or a new one. So no two
    /// batches that run at the same time share scratch memory.
    pub fn acquire(&mut self) -> (taken: (usize, ScratchState))
        requires
            old(self).wf(),
        ensures
            final(self).wf(),
            taken.1.wf(),
            taken.0 == first_idle(old(self).slots@),
            if taken.0 < old(self).slots@.len() {
                &&& old(self).slots@[taken.0 as int] == Some(taken.1)
                &&& final(self).slots@ == old(self).slots@.update(taken.0 as int, None)
            } else {
                &&& taken.1.chunks@.len() == 0
                &&& taken.1.live@.len() == 0
                &&& final(self).slots@ == old(self).slots@.push(None)
            },
    {
        let mut index: usize = 0;
        while index < self.slots.len() && self.slots[index].is_none()
            invariant
                index <= self.slots@.len(),
                self.slots@ == old(self).slots@,
                forall|i: int| 0 <= i < index ==> #[trigger] self.slots@[i] is None,
            decreases self.slots.len() - index,
        {
            index += 1;
        }
        proof {
            lemma_first_idle(self.slots@, index as int);
        }
        if index < self.slots.len() {
            let mut slot: Option<ScratchState> = None;
            std::mem::swap(&mut slot, &mut self.slots[index]);
            match slot {
                Some(state) => (index, state),
                None => vstd::pervasive::unreached(),
            }
        } else {
            self.slots.push(None);
            (index, ScratchState::new())
        }
    }

    /// Puts a pool back once its batch is done.
    pub fn put_back(&mut self, pool: usize, state: ScratchState)
        requires
            old(self).wf(),
            state.wf(),
            pool < old(self).slots@.len(),
            old(self).slots@[pool as int] is None,
        ensures
            final(self).wf(),
            final(self).slots@ == old(self).slots@.update(pool as int, Some(state)),
    {
        self.slots.set(pool, Some(state));
    }
}

/// Two pools that are out at the same time are different pools.
pub proof fn batches_never_share_a_pool(slots: Seq<Option<ScratchState>>)
    ensures
        ({
            let first = first_idle(slots);
            let between = if first < slots.len() {
                slots.update(first, None)
            } else {
                slots.push(None)
            };
            0 <= first <= slots.len() && first_idle(between) != first
        }),
    decreases slots.len(),
{
    lemma_first_idle_is_idle(slots);
    let first = first_idle(slots);
    let between = if first < slots.len() {
        slots.update(first, None)
    } else {
        slots.push(None)
    };
    lemma_first_idle_is_idle(between);
}

proof fn lemma_first_idle_is_idle(slots: Seq<Option<ScratchState>>)
    ensures
        0 <= first_idle(slots) <= slots.len(),
        first_idle(slots) < slots.len() ==> slots[first_idle(slots)] is Some,
    decreases slots.len(),
{
    if slots.len() > 0 && slots[0] is None {
        lemma_first_idle_is_idle(slots.drop_first());
    }
}

/// A word is made of its four bytes, the lowest first, and words that are written to a
/// buffer are read back from it; what lies behind them stays.
pub proof fn words_are_read_back(words: Seq<u32>, buffer: Seq<u8>, i: int)
    requires
        4 * words.len() <= buffer.len(),
        0 <= i < words.len(),
    ensures
        ({
            let after = words_over(words, buffer);
            &&& after.len() == buffer.len()
            &&& after[4 * i] + after[4 * i + 1] * 0x100 + after[4 * i + 2] * 0x1_0000 + after[4 * i
                + 3] * 0x100_0000 == words[i]
            &&& after.skip(4 * words.len() as int) == buffer.skip(4 * words.len() as int)
        }),
{
    let after = words_over(words, buffer);
    assert(after.skip(4 * words.len() as int) =~= buffer.skip(4 * words.len() as int));
    assert((4 * i) / 4 == i && (4 * i) % 4 == 0);
    assert((4 * i + 1) / 4 == i && (4 * i + 1) % 4 == 1);
    assert((4 * i + 2) / 4 == i && (4 * i + 2) % 4 == 2);
    assert((4 * i + 3) / 4 == i && (4 * i + 3) % 4 == 3);
}

} // verus!
