//! What a batch asks of the device, in the order of execution.

use crate::gpu::tensor::{Place, Storage, Tensor, TensorModel};
use vstd::prelude::*;

verus! {

/// Threads in each of three directions.
#[derive(Clone, Copy, Debug, PartialEq, Eq, Structural)]
pub struct Size {
    pub width: usize,
    pub height: usize,
    pub depth: usize,
}

pub open spec fn spec_size(width: int, height: int, depth: int) -> Size {
    Size { width: width as usize, height: height as usize, depth: depth as usize }
}

pub fn size(width: usize, height: usize, depth: usize) -> (size: Size)
    ensures
        size == (Size { width, height, depth }),
{
    Size { width, height, depth }
}

/// The constants of a kernel. Single-precision numbers are given by their bits.
#[derive(Clone, Copy, Debug, PartialEq, Eq, Structural)]
pub enum Params {
    Count { count: u32 },
    Embedding { tokens: u32, width: u32 },
    Copy { tokens: u32, offset: u32, stride: u32 },
    Matrix { m: u32, n: u32, k: u32, padding: u32 },
    Norm { rows: u32, width: u32, epsilon: u32 },
    MultiMatrix { n0: u32, n1: u32, n2: u32, k: u32 },
    NormMultiMatrix { n0: u32, n1: u32, n2: u32, k: u32, epsilon: u32 },
    QkTransform {
        tokens: u32,
        query_heads: u32,
        kv_heads: u32,
        head_dim: u32,
        offset: u32,
        theta: u32,
        cache_capacity: u32,
        epsilon: u32,
    },
    Rope { tokens: u32, heads: u32, head_dim: u32, offset: u32, theta: u32 },
    Attention {
        tokens: u32,
        q_heads: u32,
        kv_heads: u32,
        head_dim: u32,
        causal: u32,
        query_offset: u32,
        kv_length: u32,
        padding: u32,
    },
}

impl Params {
    /// The words that the kernel reads, in order, with its padding.
    pub open spec fn spec_words(self) -> Seq<u32> {
        match self {
            Params::Count { count } => seq![count],
            Params::Embedding { tokens, width } => seq![tokens, width],
            Params::Copy { tokens, offset, stride } => seq![tokens, offset, stride],
            Params::Matrix { m, n, k, padding } => seq![m, n, k, padding],
            Params::Norm { rows, width, epsilon } => seq![rows, width, epsilon, 0u32],
            Params::MultiMatrix { n0, n1, n2, k } => seq![n0, n1, n2, k],
            Params::NormMultiMatrix { n0, n1, n2, k, epsilon } => seq![n0, n1, n2, k, epsilon],
            Params::QkTransform {
                tokens,
                query_heads,
                kv_heads,
                head_dim,
                offset,
                theta,
                cache_capacity,
                epsilon,
            } => seq![
                tokens,
                query_heads,
                kv_heads,
                head_dim,
                offset,
                theta,
                cache_capacity,
                epsilon,
            ],
            Params::Rope { tokens, heads, head_dim, offset, theta } => seq![
                tokens,
                heads,
                head_dim,
                offset,
                theta,
                0u32,
                0u32,
                0u32,
            ],
            Params::Attention {
                tokens,
                q_heads,
                kv_heads,
                head_dim,
                causal,
                query_offset,
                kv_length,
                padding,
            } => seq![
                tokens,
                q_heads,
                kv_heads,
                head_dim,
                causal,
                query_offset,
                kv_length,
                padding,
            ],
        }
    }

    pub fn words(self) -> (words: Vec<u32>)
        ensures
            words@ == self.spec_words(),
    {
        let words: Vec<u32> = match self {
            Params::Count { count } => vec![count],
            Params::Embedding { tokens, width } => vec![tokens, width],
            Params::Copy { tokens, offset, stride } => vec![tokens, offset, stride],
            Params::Matrix { m, n, k, padding } => vec![m, n, k, padding],
            Params::Norm { rows, width, epsilon } => vec![rows, width, epsilon, 0],
            Params::MultiMatrix { n0, n1, n2, k } => vec![n0, n1, n2, k],
            Params::NormMultiMatrix { n0, n1, n2, k, epsilon } => vec![n0, n1, n2, k, epsilon],
            Params::QkTransform {
                tokens,
                query_heads,
                kv_heads,
                head_dim,
                offset,
                theta,
                cache_capacity,
                epsilon,
            } => vec![
                tokens,
                query_heads,
                kv_heads,
                head_dim,
                offset,
                theta,
                cache_capacity,
                epsilon,
            ],
            Params::Rope { tokens, heads, head_dim, offset, theta } => vec![
                tokens,
                heads,
                head_dim,
                offset,
                theta,
                0,
                0,
                0,
            ],
            Params::Attention {
                tokens,
                q_heads,
                kv_heads,
                head_dim,
                causal,
                query_offset,
                kv_length,
                padding,
            } => vec![
                tokens,
                q_heads,
                kv_heads,
                head_dim,
                causal,
                query_offset,
                kv_length,
                padding,
            ],
        };
        assert(words@ =~= self.spec_words());
        words
    }
}

/// A tensor argument of a kernel: its storage and where the view starts there.
#[derive(Clone, Copy)]
pub struct Binding {
    pub storage: Storage,
    pub offset_bytes: usize,
}

#[verifier::ext_equal]
pub struct Operand {
    pub place: Place,
    pub offset: usize,
}

impl View for Binding {
    type V = Operand;

    open spec fn view(&self) -> Operand {
        Operand { place: self.storage.place(), offset: self.offset_bytes }
    }
}

impl TensorModel {
    pub open spec fn operand(self) -> Operand {
        Operand { place: self.place, offset: self.offset }
    }
}

impl Tensor {
    pub fn binding(&self) -> (binding: Binding)
        ensures
            binding.storage == self.stored(),
            binding@ == self@.operand(),
    {
        Binding { storage: self.storage(), offset_bytes: self.offset_bytes() }
    }
}

pub open spec fn operands(bindings: Seq<Binding>) -> Seq<Operand> {
    bindings.map_values(|binding: Binding| binding@)
}

/// A kernel launch. While a batch is profiled, `sample` is the index of the
/// timestamp at its start, and the next index that of its end.
pub struct Dispatch {
    pub kernel: &'static str,
    pub bindings: Vec<Binding>,
    pub params: Params,
    pub grid: Size,
    pub threadgroup: Size,
    pub sample: Option<usize>,
}

/// A product of half-precision matrices by the system library: `result` is
/// `left` times the transpose of `right`.
pub struct Multiply {
    pub left: Binding,
    pub right: Binding,
    pub result: Binding,
    pub m: usize,
    pub n: usize,
    pub k: usize,
    pub left_row_bytes: usize,
    pub right_row_bytes: usize,
    pub result_row_bytes: usize,
}

pub enum Command {
    Dispatch(Dispatch),
    Multiply(Multiply),
}

#[verifier::ext_equal]
pub enum CommandModel {
    Dispatch {
        kernel: Seq<char>,
        operands: Seq<Operand>,
        params: Params,
        grid: Size,
        threadgroup: Size,
    },
    Multiply {
        left: Operand,
        right: Operand,
        result: Operand,
        m: usize,
        n: usize,
        k: usize,
        left_row_bytes: usize,
        right_row_bytes: usize,
        result_row_bytes: usize,
    },
}

impl View for Command {
    type V = CommandModel;

    open spec fn view(&self) -> CommandModel {
        match self {
            Command::Dispatch(dispatch) => CommandModel::Dispatch {
                kernel: dispatch.kernel@,
                operands: operands(dispatch.bindings@),
                params: dispatch.params,
                grid: dispatch.grid,
                threadgroup: dispatch.threadgroup,
            },
            Command::Multiply(multiply) => CommandModel::Multiply {
                left: multiply.left@,
                right: multiply.right@,
                result: multiply.result@,
                m: multiply.m,
                n: multiply.n,
                k: multiply.k,
                left_row_bytes: multiply.left_row_bytes,
                right_row_bytes: multiply.right_row_bytes,
                result_row_bytes: multiply.result_row_bytes,
            },
        }
    }
}

pub open spec fn commands(log: Seq<Command>) -> Seq<CommandModel> {
    log.map_values(|command: Command| command@)
}

/// The constants of a kernel are its words in the order in which the kernel reads them,
/// and words that it only skips are zero.
pub proof fn constants_come_in_their_order(
    a: u32,
    b: u32,
    c: u32,
    d: u32,
    e: u32,
    f: u32,
    g: u32,
    h: u32,
)
    ensures
        (Params::Count { count: a }).spec_words() == seq![a],
        (Params::Embedding { tokens: a, width: b }).spec_words() == seq![a, b],
        (Params::Copy { tokens: a, offset: b, stride: c }).spec_words() == seq![a, b, c],
        (Params::Matrix { m: a, n: b, k: c, padding: d }).spec_words() == seq![a, b, c, d],
        (Params::Norm { rows: a, width: b, epsilon: c }).spec_words() == seq![a, b, c, 0u32],
        (Params::MultiMatrix { n0: a, n1: b, n2: c, k: d }).spec_words() == seq![a, b, c, d],
        (Params::NormMultiMatrix { n0: a, n1: b, n2: c, k: d, epsilon: e }).spec_words() == seq![
            a,
            b,
            c,
            d,
            e,
        ],
        (Params::QkTransform {
            tokens: a,
            query_heads: b,
            kv_heads: c,
            head_dim: d,
            offset: e,
            theta: f,
            cache_capacity: g,
            epsilon: h,
        }).spec_words() == seq![a, b, c, d, e, f, g, h],
        (Params::Rope { tokens: a, heads: b, head_dim: c, offset: d, theta: e }).spec_words() == seq![
            a,
            b,
            c,
            d,
            e,
            0u32,
            0u32,
            0u32,
        ],
        (Params::Attention {
            tokens: a,
            q_heads: b,
            kv_heads: c,
            head_dim: d,
            causal: e,
            query_offset: f,
            kv_length: g,
            padding: h,
        }).spec_words() == seq![a, b, c, d, e, f, g, h],
{
}

} // verus!
