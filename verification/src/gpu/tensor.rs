//! Typed views of device memory.

use crate::error::GpuError;
use crate::gpu::scratch::Span;
use vstd::prelude::*;

verus! {

#[derive(Clone, Copy, Debug, PartialEq, Eq, Structural)]
pub enum DType {
    F16,
    F32,
    U32,
}

impl DType {
    pub open spec fn spec_size(self) -> usize {
        match self {
            DType::F16 => 2,
            DType::F32 => 4,
            DType::U32 => 4,
        }
    }

    pub fn size(self) -> (size: usize)
        ensures
            size == self.spec_size(),
    {
        match self {
            DType::F16 => 2,
            DType::F32 => 4,
            DType::U32 => 4,
        }
    }

    pub fn name(self) -> (name: &'static str)
        ensures
            name@ == match self {
                DType::F16 => "f16"@,
                DType::F32 => "f32"@,
                DType::U32 => "u32"@,
            },
    {
        match self {
            DType::F16 => "f16",
            DType::F32 => "f32",
            DType::U32 => "u32",
        }
    }
}

/// The number of elements of a shape.
pub open spec fn elements(shape: Seq<usize>) -> nat
    decreases shape.len(),
{
    if shape.len() == 0 {
        1
    } else {
        elements(shape.drop_last()) * shape.last() as nat
    }
}

/// Rank one or more, and no dimension is zero.
pub open spec fn filled(shape: Seq<usize>) -> bool {
    shape.len() > 0 && forall|i: int| 0 <= i < shape.len() ==> #[trigger] shape[i] > 0
}

pub proof fn lemma_elements_positive(shape: Seq<usize>)
    requires
        forall|i: int| 0 <= i < shape.len() ==> #[trigger] shape[i] > 0,
    ensures
        elements(shape) > 0,
    decreases shape.len(),
{
    if shape.len() > 0 {
        lemma_elements_positive(shape.drop_last());
        assert(elements(shape) > 0) by (nonlinear_arith)
            requires
                elements(shape) == elements(shape.drop_last()) * shape.last() as nat,
                elements(shape.drop_last()) > 0,
                shape.last() > 0,
        ;
    }
}

proof fn lemma_elements_grow(shape: Seq<usize>, count: int)
    requires
        0 <= count <= shape.len(),
        forall|i: int| 0 <= i < shape.len() ==> #[trigger] shape[i] > 0,
    ensures
        elements(shape.take(count)) <= elements(shape),
    decreases shape.len(),
{
    if count == shape.len() {
        assert(shape.take(count) =~= shape);
    } else {
        let rest = shape.drop_last();
        lemma_elements_grow(rest, count);
        assert(rest.take(count) =~= shape.take(count));
        assert(elements(rest) <= elements(shape)) by (nonlinear_arith)
            requires
                elements(shape) == elements(rest) * shape.last() as nat,
                shape.last() > 0,
        ;
    }
}

pub proof fn lemma_elements_one(a: usize)
    ensures
        elements(seq![a]) == a,
{
    let shape = seq![a];
    assert(shape.drop_last() =~= Seq::empty());
    assert(elements(shape.drop_last()) == 1);
    assert(elements(shape) == 1 * a as nat);
}

pub proof fn lemma_elements_two(a: usize, b: usize)
    ensures
        elements(seq![a, b]) == a * b,
{
    lemma_elements_one(a);
    assert(seq![a, b].drop_last() =~= seq![a]);
}

pub proof fn lemma_elements_three(a: usize, b: usize, c: usize)
    ensures
        elements(seq![a, b, c]) == a * b * c,
{
    lemma_elements_two(a, b);
    assert(seq![a, b, c].drop_last() =~= seq![a, b]);
}

/// The number of elements of a shape, if it is filled and the number fits.
pub fn checked_elements(shape: &[usize]) -> (result: Result<usize, GpuError>)
    ensures
        match result {
            Ok(count) => filled(shape@) && count == elements(shape@),
            Err(GpuError::EmptyShape) => !filled(shape@),
            Err(GpuError::ElementCountOverflow) => filled(shape@) && elements(shape@) > usize::MAX,
            Err(_) => false,
        },
{
    if shape.len() == 0 {
        return Err(GpuError::EmptyShape);
    }
    let mut i: usize = 0;
    while i < shape.len()
        invariant
            i <= shape.len(),
            forall|j: int| 0 <= j < i ==> #[trigger] shape@[j] > 0,
        decreases shape.len() - i,
    {
        if shape[i] == 0 {
            return Err(GpuError::EmptyShape);
        }
        i += 1;
    }
    let mut length: usize = 1;
    let mut n: usize = 0;
    while n < shape.len()
        invariant
            n <= shape.len(),
            filled(shape@),
            length == elements(shape@.take(n as int)),
        decreases shape.len() - n,
    {
        let ghost longer = shape@.take(n + 1);
        assert(longer.drop_last() =~= shape@.take(n as int));
        assert(elements(longer) == length * shape@[n as int]);
        match length.checked_mul(shape[n]) {
            Some(product) => {
                length = product;
            },
            None => {
                proof {
                    lemma_elements_grow(shape@, n + 1);
                }
                return Err(GpuError::ElementCountOverflow);
            },
        }
        n += 1;
    }
    assert(shape@.take(shape@.len() as int) =~= shape@);
    Ok(length)
}

/// Where the bytes of a tensor are.
#[derive(Clone, Copy)]
pub enum Storage {
    /// A buffer of its own.
    Device { buffer: usize },
    /// A span of a scratch chunk, with the number of the lease.
    Scratch { pool: usize, chunk: usize, span: Span, number: Ghost<nat> },
}

/// What a storage is, apart from where a scratch pool placed it.
pub enum Place {
    Device { buffer: usize },
    Scratch { pool: usize, number: nat },
}

impl Storage {
    pub open spec fn place(self) -> Place {
        match self {
            Storage::Device { buffer } => Place::Device { buffer },
            Storage::Scratch { pool, number, .. } => Place::Scratch { pool, number: number@ },
        }
    }
}

/// A view of `capacity` bytes of storage that starts at an offset.
pub struct Tensor {
    storage: Storage,
    capacity: usize,
    offset_bytes: usize,
    shape: Vec<usize>,
    dtype: DType,
}

#[verifier::ext_equal]
pub struct TensorModel {
    pub place: Place,
    pub capacity: usize,
    pub offset: usize,
    pub shape: Seq<usize>,
    pub dtype: DType,
}

impl TensorModel {
    /// Whether the tensor lies in a buffer of the device, which stays.
    pub open spec fn on_device(self) -> bool {
        self.place is Device
    }

    pub open spec fn len(self) -> nat {
        elements(self.shape)
    }

    pub open spec fn byte_len(self) -> nat {
        self.len() * self.dtype.spec_size() as nat
    }

    /// The shape is filled and every element lies inside the storage.
    pub open spec fn valid(self) -> bool {
        &&& filled(self.shape)
        &&& self.offset + self.byte_len() <= self.capacity
    }

    /// The same bytes under another shape.
    pub open spec fn reshaped(self, shape: Seq<usize>) -> Result<TensorModel, GpuError> {
        if filled(shape) && elements(shape) > usize::MAX {
            Err(GpuError::ReshapeOverflow)
        } else if !filled(shape) || elements(shape) != self.len() {
            Err(GpuError::ReshapeMismatch)
        } else {
            Ok(TensorModel { shape, ..self })
        }
    }

    /// The first `length` entries along the first dimension.
    pub open spec fn prefixed(self, length: usize) -> Result<TensorModel, GpuError> {
        if length == 0 || length > self.shape[0] {
            Err(GpuError::PrefixOutOfRange)
        } else {
            Ok(TensorModel { shape: self.shape.update(0, length), ..self })
        }
    }

    /// One row of a matrix, as a matrix of one row.
    pub open spec fn row_at(self, index: usize) -> Result<TensorModel, GpuError> {
        if self.shape.len() != 2 {
            Err(GpuError::RowRank)
        } else if index >= self.shape[0] {
            Err(GpuError::RowOutOfRange)
        } else {
            Ok(
                TensorModel {
                    offset: (self.offset + index * self.shape[1] * self.dtype.spec_size()) as usize,
                    shape: seq![1usize, self.shape[1]],
                    ..self
                },
            )
        }
    }

    /// `length` elements of a vector from `start` on.
    pub open spec fn sliced(self, start: usize, length: usize) -> Result<TensorModel, GpuError> {
        if self.shape.len() != 1 {
            Err(GpuError::SliceRank)
        } else if start + length > usize::MAX {
            Err(GpuError::SliceOverflow)
        } else if length == 0 || start + length > self.shape[0] {
            Err(GpuError::SliceOutOfRange)
        } else {
            Ok(
                TensorModel {
                    offset: (self.offset + start * self.dtype.spec_size()) as usize,
                    shape: seq![length],
                    ..self
                },
            )
        }
    }
}

impl View for Tensor {
    type V = TensorModel;

    closed spec fn view(&self) -> TensorModel {
        TensorModel {
            place: self.storage.place(),
            capacity: self.capacity,
            offset: self.offset_bytes,
            shape: self.shape@,
            dtype: self.dtype,
        }
    }
}

/// Whether a result of one of the view functions is the expected one, over the
/// bytes of the tensor that it views.
pub open spec fn is_view(
    result: Result<Tensor, GpuError>,
    of: Tensor,
    expected: Result<TensorModel, GpuError>,
) -> bool {
    match (result, expected) {
        (Ok(tensor), Ok(model)) => tensor@ == model && tensor.stored() == of.stored(),
        (Err(error), Err(expected)) => error == expected,
        _ => false,
    }
}

pub(crate) fn copy_shape(shape: &[usize]) -> (out: Vec<usize>)
    ensures
        out@ == shape@,
{
    let mut out: Vec<usize> = Vec::new();
    let mut i: usize = 0;
    while i < shape.len()
        invariant
            i <= shape.len(),
            out@ == shape@.take(i as int),
        decreases shape.len() - i,
    {
        out.push(shape[i]);
        i += 1;
        assert(out@ =~= shape@.take(i as int));
    }
    assert(shape@.take(shape@.len() as int) =~= shape@);
    out
}

pub fn same_shape(left: &[usize], right: &[usize]) -> (answer: bool)
    ensures
        answer == (left@ == right@),
{
    if left.len() != right.len() {
        return false;
    }
    let mut i: usize = 0;
    while i < left.len()
        invariant
            i <= left.len(),
            left.len() == right.len(),
            forall|j: int| 0 <= j < i ==> left@[j] == right@[j],
        decreases left.len() - i,
    {
        if left[i] != right[i] {
            return false;
        }
        i += 1;
    }
    assert(left@ =~= right@);
    true
}

impl Tensor {
    #[verifier::type_invariant]
    spec fn inside(self) -> bool {
        self@.valid()
    }

    /// A whole device buffer.
    pub fn device(
        buffer: usize,
        shape: &[usize],
        dtype: DType,
    ) -> (result: Result<Tensor, GpuError>)
        ensures
            match result {
                Ok(tensor) => {
                    &&& filled(shape@)
                    &&& elements(shape@) * dtype.spec_size() <= usize::MAX
                    &&& tensor@ == (TensorModel {
                        place: Place::Device { buffer },
                        capacity: (elements(shape@) * dtype.spec_size()) as usize,
                        offset: 0,
                        shape: shape@,
                        dtype,
                    })
                },
                Err(GpuError::EmptyShape) => !filled(shape@),
                Err(GpuError::ElementCountOverflow) => filled(shape@) && elements(shape@)
                    > usize::MAX,
                Err(GpuError::ByteLengthOverflow) => filled(shape@) && elements(shape@)
                    <= usize::MAX && elements(shape@) * dtype.spec_size() > usize::MAX,
                Err(_) => false,
            },
    {
        let count: usize = match checked_elements(shape) {
            Ok(count) => count,
            Err(error) => return Err(error),
        };
        let capacity: usize = match count.checked_mul(dtype.size()) {
            Some(bytes) => bytes,
            None => return Err(GpuError::ByteLengthOverflow),
        };
        Ok(
            Tensor {
                storage: Storage::Device { buffer },
                capacity,
                offset_bytes: 0,
                shape: copy_shape(shape),
                dtype,
            },
        )
    }

    /// A tensor that starts at the front of a scratch span.
    pub(crate) fn scratch(
        pool: usize,
        chunk: usize,
        span: Span,
        number: Ghost<nat>,
        capacity: usize,
        shape: Vec<usize>,
        dtype: DType,
    ) -> (tensor: Tensor)
        requires
            filled(shape@),
            elements(shape@) * dtype.spec_size() == capacity,
        ensures
            tensor@ == (TensorModel {
                place: Place::Scratch { pool, number: number@ },
                capacity,
                offset: 0,
                shape: shape@,
                dtype,
            }),
            tensor.stored() == (Storage::Scratch { pool, chunk, span, number }),
    {
        Tensor {
            storage: Storage::Scratch { pool, chunk, span, number },
            capacity,
            offset_bytes: 0,
            shape,
            dtype,
        }
    }

    pub fn shape(&self) -> (shape: &[usize])
        ensures
            shape@ == self@.shape,
            self@.valid(),
    {
        proof {
            use_type_invariant(self);
        }
        self.shape.as_slice()
    }

    pub fn dtype(&self) -> (dtype: DType)
        ensures
            dtype == self@.dtype,
    {
        self.dtype
    }

    /// Where the bytes are, with the placement of scratch memory.
    pub closed spec fn stored(self) -> Storage {
        self.storage
    }

    pub fn storage(&self) -> (storage: Storage)
        ensures
            storage == self.stored(),
            storage.place() == self@.place,
    {
        self.storage
    }

    pub fn offset_bytes(&self) -> (offset: usize)
        ensures
            offset == self@.offset,
    {
        self.offset_bytes
    }

    /// The number of elements.
    pub fn len(&self) -> (count: usize)
        ensures
            count == self@.len(),
            count > 0,
    {
        proof {
            use_type_invariant(self);
            lemma_elements_positive(self.shape@);
            assert(self@.len() <= self@.byte_len()) by (nonlinear_arith)
                requires
                    self@.byte_len() == self@.len() * self@.dtype.spec_size() as nat,
                    self@.dtype.spec_size() >= 1,
            ;
        }
        match checked_elements(self.shape.as_slice()) {
            Ok(count) => count,
            Err(_) => 0,
        }
    }

    pub fn is_empty(&self) -> (answer: bool)
        ensures
            answer == (self@.len() == 0),
            !answer,
    {
        self.len() == 0
    }

    pub fn byte_len(&self) -> (bytes: usize)
        ensures
            bytes == self@.byte_len(),
    {
        proof {
            use_type_invariant(self);
        }
        self.len() * self.dtype.size()
    }

    /// Another view of the same bytes.
    pub fn copy(&self) -> (out: Tensor)
        ensures
            out@ == self@,
            out.stored() == self.stored(),
    {
        proof {
            use_type_invariant(self);
        }
        Tensor {
            storage: self.storage,
            capacity: self.capacity,
            offset_bytes: self.offset_bytes,
            shape: copy_shape(self.shape.as_slice()),
            dtype: self.dtype,
        }
    }

    pub fn reshape(&self, shape: &[usize]) -> (result: Result<Tensor, GpuError>)
        ensures
            is_view(result, *self, self@.reshaped(shape@)),
    {
        proof {
            use_type_invariant(self);
        }
        match checked_elements(shape) {
            Err(GpuError::ElementCountOverflow) => Err(GpuError::ReshapeOverflow),
            Err(_) => Err(GpuError::ReshapeMismatch),
            Ok(count) => {
                if count != self.len() {
                    return Err(GpuError::ReshapeMismatch);
                }
                Ok(
                    Tensor {
                        storage: self.storage,
                        capacity: self.capacity,
                        offset_bytes: self.offset_bytes,
                        shape: copy_shape(shape),
                        dtype: self.dtype,
                    },
                )
            },
        }
    }

    pub fn prefix(&self, length: usize) -> (result: Result<Tensor, GpuError>)
        ensures
            is_view(result, *self, self@.prefixed(length)),
    {
        proof {
            use_type_invariant(self);
        }
        if length == 0 || length > self.shape[0] {
            return Err(GpuError::PrefixOutOfRange);
        }
        let mut shape = copy_shape(self.shape.as_slice());
        shape.set(0, length);
        proof {
            lemma_smaller_first(self.shape@, length);
            assert(elements(shape@) * self.dtype.spec_size() as nat <= self@.byte_len())
                by (nonlinear_arith)
                requires
                    elements(shape@) <= elements(self.shape@),
                    self@.byte_len() == elements(self.shape@) * self.dtype.spec_size() as nat,
            ;
        }
        Ok(
            Tensor {
                storage: self.storage,
                capacity: self.capacity,
                offset_bytes: self.offset_bytes,
                shape,
                dtype: self.dtype,
            },
        )
    }

    pub fn row(&self, index: usize) -> (result: Result<Tensor, GpuError>)
        ensures
            is_view(result, *self, self@.row_at(index)),
    {
        proof {
            use_type_invariant(self);
        }
        if self.shape.len() != 2 {
            return Err(GpuError::RowRank);
        }
        let rows: usize = self.shape[0];
        let width: usize = self.shape[1];
        if index >= rows {
            return Err(GpuError::RowOutOfRange);
        }
        let size: usize = self.dtype.size();
        proof {
            assert(self.shape@ =~= seq![rows, width]);
            lemma_elements_two(rows, width);
            lemma_elements_two(1, width);
            lemma_row_inside(rows as int, width as int, size as int, index as int);
        }
        let offset_bytes: usize = self.offset_bytes + index * width * size;
        let mut shape: Vec<usize> = Vec::new();
        shape.push(1);
        shape.push(width);
        assert(shape@ =~= seq![1usize, width]);
        Ok(
            Tensor {
                storage: self.storage,
                capacity: self.capacity,
                offset_bytes,
                shape,
                dtype: self.dtype,
            },
        )
    }

    pub fn slice_1d(&self, start: usize, length: usize) -> (result: Result<Tensor, GpuError>)
        ensures
            is_view(result, *self, self@.sliced(start, length)),
    {
        proof {
            use_type_invariant(self);
        }
        if self.shape.len() != 1 {
            return Err(GpuError::SliceRank);
        }
        let end: usize = match start.checked_add(length) {
            Some(end) => end,
            None => return Err(GpuError::SliceOverflow),
        };
        let count: usize = self.shape[0];
        if length == 0 || end > count {
            return Err(GpuError::SliceOutOfRange);
        }
        let size: usize = self.dtype.size();
        proof {
            assert(self.shape@ =~= seq![count]);
            lemma_elements_one(count);
            lemma_elements_one(length);
            assert(start * size + length * size <= count * size) by (nonlinear_arith)
                requires
                    start + length <= count,
            ;
        }
        let offset_bytes: usize = self.offset_bytes + start * size;
        let mut shape: Vec<usize> = Vec::new();
        shape.push(length);
        assert(shape@ =~= seq![length]);
        Ok(
            Tensor {
                storage: self.storage,
                capacity: self.capacity,
                offset_bytes,
                shape,
                dtype: self.dtype,
            },
        )
    }

    /// Refuses a tensor that does not hold half-precision numbers.
    pub fn expect_f16(&self) -> (result: Result<(), GpuError>)
        ensures
            result == if self@.dtype == DType::F16 {
                Ok::<(), GpuError>(())
            } else {
                Err(GpuError::ExpectedF16)
            },
    {
        match self.dtype {
            DType::F16 => Ok(()),
            _ => Err(GpuError::ExpectedF16),
        }
    }

    /// Refuses a tensor that does not hold words.
    pub fn expect_u32(&self) -> (result: Result<(), GpuError>)
        ensures
            result == if self@.dtype == DType::U32 {
                Ok::<(), GpuError>(())
            } else {
                Err(GpuError::ExpectedU32)
            },
    {
        match self.dtype {
            DType::U32 => Ok(()),
            _ => Err(GpuError::ExpectedU32),
        }
    }
}

proof fn lemma_row_inside(rows: int, width: int, size: int, index: int)
    requires
        0 <= index < rows,
        0 <= width,
        0 <= size,
    ensures
        0 <= index * width <= rows * width,
        0 <= index * width * size,
        index * width * size + 1 * width * size <= rows * width * size,
        index * width <= index * width * size || size == 0,
{
    assert(index * width + width <= rows * width) by (nonlinear_arith)
        requires
            0 <= index < rows,
            0 <= width,
    ;
    assert(0 <= index * width) by (nonlinear_arith)
        requires
            0 <= index,
            0 <= width,
    ;
    let before = index * width;
    let all = rows * width;
    assert(before * size + width * size <= all * size) by (nonlinear_arith)
        requires
            before + width <= all,
            0 <= size,
    ;
    assert(0 <= before * size) by (nonlinear_arith)
        requires
            0 <= before,
            0 <= size,
    ;
    assert(before <= before * size || size == 0) by (nonlinear_arith)
        requires
            0 <= before,
            0 <= size,
    ;
}

proof fn lemma_smaller_first(shape: Seq<usize>, length: usize)
    requires
        filled(shape),
        0 < length <= shape[0],
    ensures
        elements(shape.update(0, length)) <= elements(shape),
        filled(shape.update(0, length)),
    decreases shape.len(),
{
    let smaller = shape.update(0, length);
    if shape.len() == 1 {
        assert(shape =~= seq![shape[0]]);
        assert(smaller =~= seq![length]);
        lemma_elements_one(shape[0]);
        lemma_elements_one(length);
    } else {
        let rest = shape.drop_last();
        assert(smaller.drop_last() =~= rest.update(0, length));
        lemma_smaller_first(rest, length);
        let a = elements(rest.update(0, length));
        let b = elements(rest);
        let last = shape.last() as nat;
        assert(a * last <= b * last) by (nonlinear_arith)
            requires
                a <= b,
        ;
    }
    assert forall|i: int| 0 <= i < smaller.len() implies #[trigger] smaller[i] > 0 by {
        if i > 0 {
            assert(smaller[i] == shape[i]);
        }
    }
}

/// A tensor is stored where its view says.
pub proof fn lemma_stored(tensor: Tensor)
    ensures
        tensor.stored().place() == tensor@.place,
{
}

/// Every view of a tensor stays inside the bytes of that tensor.
pub proof fn views_stay_inside(tensor: TensorModel, shape: Seq<usize>, start: usize, length: usize)
    requires
        tensor.valid(),
    ensures
        tensor.reshaped(shape) matches Ok(view) ==> view.valid() && view.offset == tensor.offset
            && view.byte_len() == tensor.byte_len(),
        tensor.prefixed(length) matches Ok(view) ==> view.valid() && view.offset == tensor.offset
            && view.byte_len() <= tensor.byte_len(),
        tensor.row_at(start) matches Ok(view) ==> view.valid() && view.offset >= tensor.offset
            && view.offset + view.byte_len() <= tensor.offset + tensor.byte_len(),
        tensor.sliced(start, length) matches Ok(view) ==> view.valid() && view.offset
            >= tensor.offset && view.offset + view.byte_len() <= tensor.offset + tensor.byte_len(),
{
    let size = tensor.dtype.spec_size() as int;
    if 0 < length <= tensor.shape[0] {
        lemma_smaller_first(tensor.shape, length);
        let a = elements(tensor.shape.update(0, length));
        let b = elements(tensor.shape);
        assert(a * size <= b * size) by (nonlinear_arith)
            requires
                a <= b,
                0 <= size,
        ;
    }
    if tensor.shape.len() == 2 && start < tensor.shape[0] {
        let rows = tensor.shape[0];
        let width = tensor.shape[1];
        assert(tensor.shape =~= seq![rows, width]);
        lemma_elements_two(rows, width);
        lemma_elements_two(1, width);
        lemma_row_inside(rows as int, width as int, size, start as int);
    }
    if tensor.shape.len() == 1 && 0 < length && start + length <= tensor.shape[0] {
        let count = tensor.shape[0];
        assert(tensor.shape =~= seq![count]);
        lemma_elements_one(count);
        lemma_elements_one(length);
        assert(start * size + length * size <= count * size) by (nonlinear_arith)
            requires
                start + length <= count,
                0 <= size,
        ;
        assert(0 <= start * size) by (nonlinear_arith)
            requires
                0 <= size,
        ;
    }
}

/// The rows of a matrix lie one behind the other: the first starts where the matrix
/// does, each is as long as its width, the next starts where it ends, and the last ends
/// where the matrix ends.
pub proof fn rows_follow_each_other(matrix: TensorModel, index: usize)
    requires
        matrix.valid(),
        matrix.shape.len() == 2,
        index < matrix.shape[0],
    ensures
        ({
            let row = matrix.row_at(index)->Ok_0;
            &&& matrix.row_at(index) is Ok
            &&& row.place == matrix.place
            &&& row.dtype == matrix.dtype
            &&& row.shape == seq![1usize, matrix.shape[1]]
            &&& row.byte_len() * matrix.shape[0] == matrix.byte_len()
            &&& index == 0 ==> row.offset == matrix.offset
            &&& index + 1 < matrix.shape[0] ==> matrix.row_at((index + 1) as usize)->Ok_0.offset
                == row.offset + row.byte_len()
            &&& index + 1 == matrix.shape[0] ==> row.offset + row.byte_len() == matrix.offset
                + matrix.byte_len()
        }),
{
    let rows = matrix.shape[0];
    let width = matrix.shape[1];
    let size = matrix.dtype.spec_size();
    assert(matrix.shape =~= seq![rows, width]);
    lemma_elements_two(rows, width);
    lemma_elements_two(1, width);
    assert((index + 1) * width * size <= rows * width * size) by (nonlinear_arith)
        requires
            0 <= index < rows,
            width >= 0,
            size >= 0,
    ;
    assert((index + 1) * width * size == index * width * size + 1 * width * size)
        by (nonlinear_arith);
    assert(index * width * size >= 0) by (nonlinear_arith)
        requires
            index >= 0,
            width >= 0,
            size >= 0,
    ;
    assert(1 * width * size * rows == rows * width * size) by (nonlinear_arith);
    assert(index + 1 == rows ==> (index + 1) * width * size == rows * width * size);
    assert(0 * width * size == 0) by (nonlinear_arith);
}

/// A vector that is cut in two is nowhere torn: the second slice starts where the first
/// one ends, the first starts where the vector does and the second ends where it ends.
pub proof fn slices_follow_each_other(vector: TensorModel, at: usize)
    requires
        vector.valid(),
        vector.shape.len() == 1,
        0 < at < vector.shape[0],
    ensures
        ({
            let left = vector.sliced(0, at)->Ok_0;
            let right = vector.sliced(at, (vector.shape[0] - at) as usize)->Ok_0;
            &&& vector.sliced(0, at) is Ok
            &&& vector.sliced(at, (vector.shape[0] - at) as usize) is Ok
            &&& left.place == vector.place && right.place == vector.place
            &&& left.dtype == vector.dtype && right.dtype == vector.dtype
            &&& left.shape == seq![at]
            &&& left.offset == vector.offset
            &&& right.offset == left.offset + left.byte_len()
            &&& right.offset + right.byte_len() == vector.offset + vector.byte_len()
        }),
{
    let count = vector.shape[0];
    let size = vector.dtype.spec_size();
    let rest = (count - at) as usize;
    assert(vector.shape =~= seq![count]);
    lemma_elements_one(count);
    lemma_elements_one(at);
    lemma_elements_one(rest);
    assert(at * size + rest * size == count * size) by (nonlinear_arith)
        requires
            at + rest == count,
    ;
    assert(at * size >= 0 && rest * size >= 0) by (nonlinear_arith)
        requires
            at >= 0,
            rest >= 0,
            size >= 0,
    ;
    assert(0 * size == 0) by (nonlinear_arith);
}

/// The first entries of a tensor start where it does; to take some of them and then
/// fewer is to take fewer at once, and to take all of them is to take the tensor.
pub proof fn prefixes_start_together(tensor: TensorModel, length: usize, shorter: usize)
    requires
        tensor.shape.len() > 0,
        0 < shorter <= length <= tensor.shape[0],
    ensures
        tensor.prefixed(length) is Ok,
        tensor.prefixed(length)->Ok_0.operand() == tensor.operand(),
        tensor.prefixed(length)->Ok_0.prefixed(shorter) == tensor.prefixed(shorter),
        tensor.prefixed(tensor.shape[0]) == Ok::<TensorModel, GpuError>(tensor),
        tensor.prefixed(length)->Ok_0.len() * tensor.shape[0] == tensor.len() * length,
{
    let cut = tensor.shape.update(0, length);
    assert(cut.update(0, shorter) =~= tensor.shape.update(0, shorter));
    assert(tensor.shape.update(0, tensor.shape[0]) =~= tensor.shape);
    lemma_cut_elements(tensor.shape, length);
}

proof fn lemma_cut_elements(shape: Seq<usize>, length: usize)
    requires
        shape.len() > 0,
    ensures
        elements(shape.update(0, length)) * shape[0] == elements(shape) * length,
    decreases shape.len(),
{
    let cut = shape.update(0, length);
    if shape.len() == 1 {
        assert(shape =~= seq![shape[0]]);
        assert(cut =~= seq![length]);
        lemma_elements_one(shape[0]);
        lemma_elements_one(length);
        assert(length * shape[0] == shape[0] * length) by (nonlinear_arith);
    } else {
        let rest = shape.drop_last();
        assert(cut.drop_last() =~= rest.update(0, length));
        lemma_cut_elements(rest, length);
        let last = shape.last() as int;
        let before = elements(rest.update(0, length)) as int;
        let whole = elements(rest) as int;
        assert(before * last * shape[0] == whole * last * length) by (nonlinear_arith)
            requires
                before * shape[0] == whole * length,
        ;
    }
}

/// A number of half precision takes two bytes, and one of single precision or a token
/// four, so that a tensor of `n` of them is as many bytes long.
pub proof fn numbers_take_two_or_four_bytes(tensor: TensorModel)
    ensures
        tensor.dtype == DType::F16 ==> tensor.byte_len() == tensor.len() * 2,
        tensor.dtype == DType::F32 || tensor.dtype == DType::U32 ==> tensor.byte_len()
            == tensor.len() * 4,
{
}

} // verus!
