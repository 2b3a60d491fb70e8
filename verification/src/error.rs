//! The failures that each layer reports.

use crate::planner::PlanError;
use vstd::prelude::*;

verus! {

/// A device or tensor failure.
#[derive(Clone, Copy, Debug, PartialEq, Eq, Structural)]
pub enum GpuError {
    NoDevice,
    CommandQueueCreation,
    CommandBufferCreation,
    ComputeEncoderCreation,
    ProfiledEncoderCreation,
    EncoderFinished,
    BufferCreation,
    ScratchBufferCreation,
    ShaderCompilation,
    MissingKernel,
    PipelineCreation,
    Command,
    CommandWithoutError,
    ExpectedF16,
    ExpectedU32,
    DataLengthMismatch,
    EmptyShape,
    ElementCountOverflow,
    ByteLengthOverflow,
    ScratchSizeOverflow,
    ReshapeOverflow,
    ReshapeMismatch,
    PrefixRank,
    PrefixOutOfRange,
    RowRank,
    RowOutOfRange,
    SliceRank,
    SliceOverflow,
    SliceOutOfRange,
    TooManyProfiledDispatches,
    StageBoundaryCountersUnsupported,
    NoCounterSets,
    NoTimestampCounterSet,
    TimestampCalibration,
    TimestampBufferCreation,
    MissingTimestampBuffer,
    ProfilingDisabled,
    TimestampResolution,
    TimestampBufferSize,
    MissingTimestamp,
    InvalidTimestamps,
}

/// A failure to plan a kernel launch.
#[derive(Clone, Copy, Debug, PartialEq, Eq, Structural)]
pub enum KernelError {
    Gpu(GpuError),
    ShapeMismatch,
    ExpectedMatrix,
    U32Overflow,
    DispatchOverflow,
    MatmulInnerDimension,
    Matmul2InnerDimension,
    Matmul3InnerDimension,
    RmsNormMatmul3Shape,
    AddRmsNormMatmul2Shape,
    RmsNormRank,
    RmsNormWeight,
    AddRmsNormRank,
    AddRmsNormWeight,
    RopeRank,
    RopeOddHeadDim,
    QueryRank,
    KeyRank,
    ValueRank,
    KeyCacheRank,
    QkTransformShape,
    QkTransformOffset,
    KvSourceRank,
    KvCacheRank,
    KvShape,
    KvCapacity,
    AttentionShape,
    AttentionHeadRatio,
    TiledAttentionHeadDim,
    FlashDecodeBlockSize,
    FlashDecodeThreads,
    FlashDecodeBlocks,
    DecodeAttentionTokens,
    FlashDecodeHeadRatio,
    FlashDecodeEmpty,
    FlashDecodePartialOverflow,
    CopyRowSourceRank,
    CopyRowDestinationRank,
    CopyRowShape,
    TokensShape,
    ArgmaxLogitsShape,
    ArgmaxOutputShape,
}

/// A failure to load or to run a model.
#[derive(Debug)]
pub enum ModelError {
    Gpu(GpuError),
    Kernel(KernelError),
    Plan(PlanError),
    Io,
    Json,
    Safetensors,
    NonUtf8ModelPath,
    ModelDirectoryMissing,
    HuggingFaceCacheMissing,
    ModelNotCached,
    TokenizerLoad,
    TokenizerEncode,
    TokenizerDecode,
    MissingWeights,
    MissingTensor,
    UnsupportedTensorDType,
    WeightShape,
    UnsupportedModelType,
    AttentionBias,
    InvalidDimensions,
    InvalidHeadRatio,
    NoLayer,
    EmptyKvCache,
    CacheCapacity,
    MissingCacheLayer,
    CacheLayerCount,
    DecodeBatchMismatch,
    EmptyPrefill,
    EmptyBlock,
    DecodeTokenShape,
    TokensShape,
    HiddenStateRank,
    MissingArgmaxToken,
    NoFiniteLogit,
    TokenIdOverflow,
    InvalidTemperature,
    InvalidTopP,
    SamplingFailed,
    EmptyChat,
    UnsupportedChatRole,
}

} // verus!
