//! Batches whose kernels are chosen by explicit device settings: a matrix
//! backend, row counts, split-K and the flash decode blocks.

use crate::error::{GpuError, KernelError};
use crate::gemv_dispatch;
use crate::gpu::command::{self, Binding, Command, CommandModel, Multiply, Params, Size};
use crate::gpu::recorder::{self, BatchModel, Recorder, Step};
use crate::gpu::tensor::{self, DType, Tensor, TensorModel};
use crate::ops::attention::{self, FlashSplit};
use crate::ops::gemm::{self, Launching, Tiling};
use crate::ops::gemv;
use crate::ops::support::{self, Outcome};
use crate::ops::{elementwise, fused, kv, norm, rope};
use crate::ops::{AttentionConfig, AttentionKind, QkNormRopeCacheConfig};
use crate::tuning::{KernelSelection, KernelSelectionModel};
use vstd::prelude::*;

verus! {

/// Who multiplies matrices.
#[derive(Clone, Copy, Debug, PartialEq, Eq, Structural)]
pub enum MatmulBackend {
    Auto,
    NativeMsl,
    ReferenceMsl,
    Mps,
}

/// Rows that automatic selection gives each simdgroup.
#[derive(Clone, Copy, Debug, PartialEq, Eq, Structural)]
pub struct MatvecRows {
    pub single: u8,
    pub vocab: u8,
    pub fused2: u8,
    pub fused3: u8,
}

/// The choices that the kernels of a device are subject to.
pub struct DeviceSettings {
    pub device_name: String,
    pub is_m4_pro: bool,
    pub matmul_backend: MatmulBackend,
    pub rows: MatvecRows,
    pub split_k: usize,
    pub half8: bool,
    pub manual_rows: bool,
    pub autotuned: bool,
    pub selection: KernelSelection,
}

#[verifier::ext_equal]
pub struct SettingsModel {
    pub device_name: Seq<char>,
    pub is_m4_pro: bool,
    pub matmul_backend: MatmulBackend,
    pub rows: MatvecRows,
    pub split_k: usize,
    pub half8: bool,
    pub manual_rows: bool,
    pub autotuned: bool,
    pub selection: KernelSelectionModel,
}

impl View for DeviceSettings {
    type V = SettingsModel;

    open spec fn view(&self) -> SettingsModel {
        SettingsModel {
            device_name: self.device_name@,
            is_m4_pro: self.is_m4_pro,
            matmul_backend: self.matmul_backend,
            rows: self.rows,
            split_k: self.split_k,
            half8: self.half8,
            manual_rows: self.manual_rows,
            autotuned: self.autotuned,
            selection: self.selection@,
        }
    }
}

impl SettingsModel {
    /// Automatic selection on the device it is measured for.
    pub open spec fn auto_m4(self) -> bool {
        self.matmul_backend == MatmulBackend::Auto && self.is_m4_pro
    }

    /// Whether the simdgroup kernels may run.
    pub open spec fn native(self) -> bool {
        self.matmul_backend == MatmulBackend::NativeMsl || self.auto_m4()
    }

    pub open spec fn single_rows(self, n: usize, k: usize) -> usize {
        gemv_dispatch::dispatch_rows(
            self.device_name,
            n,
            k,
            self.rows.single as usize,
            self.selection.decode_gemv,
            self.manual_rows,
            self.autotuned,
        )
    }

    /// Rows of a single matrix-vector product.
    pub open spec fn matvec_rows(self, n: usize, k: usize) -> int {
        let vocabulary = n >= 65_536;
        if k % 256 != 0 || !self.native() {
            0
        } else if self.auto_m4() {
            if vocabulary {
                self.rows.vocab as int
            } else {
                self.single_rows(n, k) as int
            }
        } else if vocabulary {
            2
        } else {
            4
        }
    }

    /// Slices of the inner dimension that a matrix-vector product is split in.
    pub open spec fn splits(self, k: usize) -> usize {
        if self.auto_m4() && k % 256 == 0 {
            self.split_k
        } else {
            1
        }
    }

    /// Rows of fused products, where automatic selection takes `automatic`.
    pub open spec fn fused_rows(self, k: usize, automatic: u8) -> int {
        if k % 256 != 0 {
            0
        } else if self.matmul_backend == MatmulBackend::NativeMsl {
            2
        } else if self.auto_m4() {
            automatic as int
        } else {
            0
        }
    }
}

impl DeviceSettings {
    fn auto_m4(&self) -> (answer: bool)
        ensures
            answer == self@.auto_m4(),
    {
        self.matmul_backend == MatmulBackend::Auto && self.is_m4_pro
    }

    fn native(&self) -> (answer: bool)
        ensures
            answer == self@.native(),
    {
        self.matmul_backend == MatmulBackend::NativeMsl || self.auto_m4()
    }

    /// Rows of a matrix-vector product with fewer outputs than a vocabulary.
    pub fn auto_single_matvec_rows(&self, n: usize, k: usize) -> (rows: usize)
        ensures
            rows == self@.single_rows(n, k),
            rows <= 255,
    {
        gemv_dispatch::single_rows(
            self.device_name.as_str(),
            n,
            k,
            self.rows.single as usize,
            self.selection.decode_gemv,
            self.manual_rows,
            self.autotuned,
        )
    }

    fn matvec_rows(&self, n: usize, k: usize) -> (rows: usize)
        ensures
            rows == self@.matvec_rows(n, k),
            rows <= 255,
    {
        let vocabulary = n >= 65_536;
        if self.auto_m4() && k % 256 == 0 {
            if vocabulary {
                self.rows.vocab as usize
            } else {
                self.auto_single_matvec_rows(n, k)
            }
        } else if self.native() && k % 256 == 0 {
            if vocabulary {
                2
            } else {
                4
            }
        } else {
            0
        }
    }

    fn splits(&self, k: usize) -> (splits: usize)
        ensures
            splits == self@.splits(k),
    {
        if self.auto_m4() && k % 256 == 0 {
            self.split_k
        } else {
            1
        }
    }

    fn fused_rows(&self, k: usize, automatic: u8) -> (rows: usize)
        ensures
            rows == self@.fused_rows(k, automatic),
            rows <= 255,
    {
        if k % 256 == 0 {
            if self.matmul_backend == MatmulBackend::NativeMsl {
                2
            } else if self.auto_m4() {
                automatic as usize
            } else {
                0
            }
        } else {
            0
        }
    }
}

/// A batch whose kernels are chosen by the settings of the device.
pub struct CommandBatch<'context> {
    pub recorder: Recorder,
    pub settings: &'context DeviceSettings,
}

impl<'context> View for CommandBatch<'context> {
    type V = BatchModel;

    open spec fn view(&self) -> BatchModel {
        self.recorder@
    }
}

/// The kernel of a single matrix-vector product.
pub open spec fn matvec_kernel(rows: int, vocabulary: bool, half8: bool) -> Seq<char> {
    if rows == 1 && half8 {
        "matvec_one_row_half8_f16"@
    } else if rows == 1 {
        "matvec_one_row_f16"@
    } else if rows == 2 && vocabulary {
        "matvec_vocab_f16"@
    } else if rows == 2 {
        "matvec_tuned2_f16"@
    } else if rows == 4 {
        "matvec_tuned_f16"@
    } else if rows == 8 {
        "matvec_tuned8_f16"@
    } else {
        "matvec_f16"@
    }
}

/// How a product that the system library does not do and that is not split is
/// spread over the device.
pub open spec fn settings_tiling(settings: SettingsModel, m: usize, n: usize, k: usize) -> Tiling {
    if m == 1 {
        let rows = settings.matvec_rows(n, k);
        gemm::line_tiling(
            matvec_kernel(rows, n >= 65_536, settings.half8),
            support::ceil_div(n as int, gemm::matvec_outputs(rows)),
            gemm::matvec_threads(rows),
        )
    } else if settings.native() && m % 32 == 0 && n % 32 == 0 && k % 32 == 0 && (
    !settings.auto_m4() || (m >= 128 && n >= 256 && k >= 256)) {
        gemm::line_tiling("matmul_simd_db_f16"@, n as int / 32 * (m as int / 32), 128)
    } else if settings.matmul_backend == MatmulBackend::NativeMsl && m % 32 == 0 && n % 32 == 0 && k
        % 16 == 0 {
        Tiling {
            kernel: "matmul_simd_f16"@,
            grid: Size {
                width: (n as int / 32 * 128) as usize,
                height: (m as int / 32) as usize,
                depth: 1,
            },
            threadgroup: support::line(128),
            fits: support::fits_usize(n as int / 32 * 128),
        }
    } else {
        gemm::square_tiling(m as int, n as int)
    }
}

/// The product by the system library.
pub open spec fn matmul_mps_step(
    batch: BatchModel,
    input: TensorModel,
    weight: TensorModel,
) -> Result<Step, KernelError> {
    let m = input.shape[0];
    let n = weight.shape[0];
    let k = input.shape[1];
    let out = batch.fresh(0, seq![m, n], DType::F16);
    Ok(
        Step {
            issued: 1,
            outputs: seq![out],
            commands: seq![
                CommandModel::Multiply {
                    left: input.operand(),
                    right: weight.operand(),
                    result: out.operand(),
                    m,
                    n,
                    k,
                    left_row_bytes: (k * 2) as usize,
                    right_row_bytes: (k * 2) as usize,
                    result_row_bytes: (n * 2) as usize,
                },
            ],
        },
    )
}

/// A matrix-vector product with its inner dimension in slices: one launch for
/// the partial sums of each slice, one that adds them up.
pub open spec fn split_k_step(
    batch: BatchModel,
    input: TensorModel,
    weight: TensorModel,
    splits: usize,
) -> Result<Step, KernelError> {
    let n = weight.shape[0];
    let k = input.shape[1];
    let groups = support::ceil_div(n as int, 8) * splits;
    match recorder::allocation_error(seq![splits, n], DType::F32) {
        Some(error) => Err(KernelError::Gpu(error)),
        None => if !support::fits_u32(splits as int) {
            Err(KernelError::U32Overflow)
        } else if !support::fits_usize(groups * 256) || !support::fits_usize(n + 255) {
            Err(KernelError::DispatchOverflow)
        } else {
            let out = batch.fresh(0, seq![1usize, n], DType::F16);
            let partial = batch.fresh(1, seq![splits, n], DType::F32);
            let params = Params::Matrix {
                m: 1,
                n: n as u32,
                k: k as u32,
                padding: splits as u32,
            };
            Ok(
                Step {
                    issued: 2,
                    outputs: seq![out],
                    commands: seq![
                        support::launch(
                            "matvec_splitk_partial_f16"@,
                            seq![input.operand(), weight.operand(), partial.operand()],
                            params,
                            support::line(groups * 256),
                            support::line(256),
                        ),
                        support::launch(
                            "matvec_splitk_reduce_f16"@,
                            seq![partial.operand(), out.operand()],
                            params,
                            support::line(support::round_to(n as int, 256)),
                            support::line(256),
                        ),
                    ],
                },
            )
        },
    }
}

pub open spec fn settings_matmul_step(
    batch: BatchModel,
    settings: SettingsModel,
    input: TensorModel,
    weight: TensorModel,
) -> Result<Step, KernelError> {
    match gemm::matmul_refusal(input, weight) {
        Some(error) => Err(error),
        None => {
            let m = input.shape[0];
            let n = weight.shape[0];
            let k = input.shape[1];
            if settings.matmul_backend == MatmulBackend::Mps {
                matmul_mps_step(batch, input, weight)
            } else if m == 1 && settings.splits(k) > 1 {
                split_k_step(batch, input, weight, settings.splits(k))
            } else {
                gemm::matmul_once_step(batch, input, weight, settings_tiling(settings, m, n, k))
            }
        },
    }
}

/// Two products: by one launch for a single row, else one after the other.
pub open spec fn settings_matmul2_outcome(
    batch: BatchModel,
    settings: SettingsModel,
    input: TensorModel,
    weight0: TensorModel,
    weight1: TensorModel,
) -> Outcome {
    match gemv::multi_refusal(input, seq![weight0, weight1], KernelError::Matmul2InnerDimension) {
        Some(error) => (batch, Err(error)),
        None => if input.shape[0] == 1 {
            let rows = settings.fused_rows(input.shape[1], settings.rows.fused2);
            batch.run(gemv::matvec2_step(batch, input, weight0, weight1, rows))
        } else {
            let (batch, first) = batch.run(settings_matmul_step(batch, settings, input, weight0));
            match first {
                Err(error) => (batch, Err(error)),
                Ok(first) => {
                    let (batch, second) = batch.run(
                        settings_matmul_step(batch, settings, input, weight1),
                    );
                    match second {
                        Err(error) => (batch, Err(error)),
                        Ok(second) => (batch, Ok(seq![first[0], second[0]])),
                    }
                },
            }
        },
    }
}

/// Three products: by one launch for a single row, else one after the other.
pub open spec fn settings_matmul3_outcome(
    batch: BatchModel,
    settings: SettingsModel,
    input: TensorModel,
    weight0: TensorModel,
    weight1: TensorModel,
    weight2: TensorModel,
) -> Outcome {
    match gemv::multi_refusal(
        input,
        seq![weight0, weight1, weight2],
        KernelError::Matmul3InnerDimension,
    ) {
        Some(error) => (batch, Err(error)),
        None => if input.shape[0] == 1 {
            let rows = settings.fused_rows(input.shape[1], settings.rows.fused3);
            batch.run(gemv::matvec3_step(batch, input, weight0, weight1, weight2, rows))
        } else {
            let (batch, first) = batch.run(settings_matmul_step(batch, settings, input, weight0));
            match first {
                Err(error) => (batch, Err(error)),
                Ok(first) => {
                    let (batch, second) = batch.run(
                        settings_matmul_step(batch, settings, input, weight1),
                    );
                    match second {
                        Err(error) => (batch, Err(error)),
                        Ok(second) => {
                            let (batch, third) = batch.run(
                                settings_matmul_step(batch, settings, input, weight2),
                            );
                            match third {
                                Err(error) => (batch, Err(error)),
                                Ok(third) => (batch, Ok(seq![first[0], second[0], third[0]])),
                            }
                        },
                    }
                },
            }
        },
    }
}

/// The flash decode split of the settings: what was asked for, or what they
/// have for this many keys.
pub open spec fn settings_split(
    settings: SettingsModel,
    configuration: Option<(usize, usize)>,
    kv_length: usize,
) -> FlashSplit {
    let (block, threads) = match configuration {
        Some(configuration) => configuration,
        None => settings.selection.flash_decode_configuration(kv_length),
    };
    FlashSplit { block, threads, reduce_threads: 32, narrow_kernel: true }
}

impl<'context> CommandBatch<'context> {
    pub open spec fn wf(self) -> bool {
        self.recorder.wf()
    }

    pub fn new(recorder: Recorder, settings: &'context DeviceSettings) -> (batch: CommandBatch<
        'context,
    >)
        requires
            recorder.wf(),
        ensures
            batch.wf(),
            batch@ == recorder@,
            batch.settings == settings,
    {
        CommandBatch { recorder, settings }
    }

    /// A scratch tensor with undefined contents.
    pub fn empty(&mut self, shape: &[usize], dtype: DType) -> (result: Result<Tensor, GpuError>)
        requires
            old(self).wf(),
        ensures
            final(self).wf(),
            final(self).settings == old(self).settings,
            match recorder::allocation_error(shape@, dtype) {
                Some(error) => {
                    &&& result == Err::<Tensor, GpuError>(error)
                    &&& final(self)@ == old(self)@
                    &&& recorder::kept(old(self).recorder, final(self).recorder)
                },
                None => {
                    &&& result is Ok
                    &&& result->Ok_0@ == old(self)@.fresh(0, shape@, dtype)
                    &&& final(self)@ == old(self)@.after_issue(1)
                    &&& recorder::took(old(self).recorder, final(self).recorder, result->Ok_0)
                },
            },
    {
        self.recorder.empty(shape, dtype)
    }

    /// Gives back the scratch memory of a tensor that no later command uses.
    pub fn release(&mut self, tensor: Tensor)
        requires
            old(self).wf(),
            old(self).recorder.holds(tensor),
        ensures
            final(self).wf(),
            final(self).settings == old(self).settings,
            final(self)@ == old(self)@,
            recorder::gave_back(old(self).recorder, final(self).recorder, tensor),
    {
        self.recorder.release(tensor)
    }

    /// The elementwise sum.
    pub fn add(&mut self, left: &Tensor, right: &Tensor) -> (result: Result<Tensor, KernelError>)
        requires
            old(self).wf(),
            old(self).recorder.holds(*left),
            old(self).recorder.holds(*right),
        ensures
            final(self).wf(),
            recorder::took1(old(self).recorder, final(self).recorder, result),
            final(self).settings == old(self).settings,
            support::outcome1(
                old(self)@,
                final(self)@,
                result,
                elementwise::pairwise_step(old(self)@, "add_f16"@, left@, right@),
            ),
    {
        self.recorder.add(left, right)
    }

    /// The gated activation.
    pub fn swiglu(&mut self, gate: &Tensor, up: &Tensor) -> (result: Result<Tensor, KernelError>)
        requires
            old(self).wf(),
            old(self).recorder.holds(*gate),
            old(self).recorder.holds(*up),
        ensures
            final(self).wf(),
            recorder::took1(old(self).recorder, final(self).recorder, result),
            final(self).settings == old(self).settings,
            support::outcome1(
                old(self)@,
                final(self)@,
                result,
                elementwise::pairwise_step(old(self)@, "swiglu_f16"@, gate@, up@),
            ),
    {
        self.recorder.swiglu(gate, up)
    }

    /// The table rows of the tokens.
    pub fn embedding(
        &mut self,
        tokens: &Tensor,
        table: &Tensor,
    ) -> (result: Result<Tensor, KernelError>)
        requires
            old(self).wf(),
            old(self).recorder.holds(*tokens),
            old(self).recorder.holds(*table),
        ensures
            final(self).wf(),
            recorder::took1(old(self).recorder, final(self).recorder, result),
            final(self).settings == old(self).settings,
            support::outcome1(
                old(self)@,
                final(self)@,
                result,
                elementwise::embedding_step(old(self)@, tokens@, table@),
            ),
    {
        self.recorder.embedding(tokens, table)
    }

    /// Normalises each row and scales it by the weight.
    pub fn rms_norm(
        &mut self,
        input: &Tensor,
        weight: &Tensor,
        epsilon: u32,
    ) -> (result: Result<Tensor, KernelError>)
        requires
            old(self).wf(),
            old(self).recorder.holds(*input),
            old(self).recorder.holds(*weight),
        ensures
            final(self).wf(),
            recorder::took1(old(self).recorder, final(self).recorder, result),
            final(self).settings == old(self).settings,
            support::outcome1(
                old(self)@,
                final(self)@,
                result,
                norm::rms_norm_step(old(self)@, input@, weight@, epsilon),
            ),
    {
        self.recorder.rms_norm(input, weight, epsilon)
    }

    /// Adds a residual and normalises the sum; yields both.
    pub fn add_rms_norm(
        &mut self,
        left: &Tensor,
        right: &Tensor,
        weight: &Tensor,
        epsilon: u32,
    ) -> (result: Result<(Tensor, Tensor), KernelError>)
        requires
            old(self).wf(),
            old(self).recorder.holds(*left),
            old(self).recorder.holds(*right),
            old(self).recorder.holds(*weight),
        ensures
            final(self).wf(),
            recorder::took2(old(self).recorder, final(self).recorder, result),
            final(self).settings == old(self).settings,
            support::outcome2(
                old(self)@,
                final(self)@,
                result,
                norm::add_rms_norm_step(old(self)@, left@, right@, weight@, epsilon),
            ),
    {
        self.recorder.add_rms_norm(left, right, weight, epsilon)
    }

    /// Rotates each head by the position of its token.
    pub fn rope(
        &mut self,
        input: &Tensor,
        offset: usize,
        theta: u32,
    ) -> (result: Result<Tensor, KernelError>)
        requires
            old(self).wf(),
            old(self).recorder.holds(*input),
        ensures
            final(self).wf(),
            recorder::took1(old(self).recorder, final(self).recorder, result),
            final(self).settings == old(self).settings,
            support::outcome1(
                old(self)@,
                final(self)@,
                result,
                rope::rope_step(old(self)@, input@, offset, theta),
            ),
    {
        self.recorder.rope(input, offset, theta)
    }

    /// Normalises and rotates queries and keys, and stores the keys.
    pub fn qk_norm_rope_cache(
        &mut self,
        query: &Tensor,
        key: &Tensor,
        query_weight: &Tensor,
        key_weight: &Tensor,
        key_cache: &Tensor,
        config: QkNormRopeCacheConfig,
    ) -> (result: Result<Tensor, KernelError>)
        requires
            old(self).wf(),
            old(self).recorder.holds(*query),
            old(self).recorder.holds(*key),
            old(self).recorder.holds(*query_weight),
            old(self).recorder.holds(*key_weight),
            old(self).recorder.holds(*key_cache),
        ensures
            final(self).wf(),
            recorder::took1(old(self).recorder, final(self).recorder, result),
            final(self).settings == old(self).settings,
            support::outcome1(
                old(self)@,
                final(self)@,
                result,
                rope::qk_norm_rope_cache_step(
                    old(self)@,
                    query@,
                    key@,
                    query_weight@,
                    key_weight@,
                    key_cache@,
                    config,
                ),
            ),
    {
        self.recorder.qk_norm_rope_cache(query, key, query_weight, key_weight, key_cache, config)
    }

    /// Copies keys or values into the cache entries from `offset` on.
    pub fn copy_into_cache(
        &mut self,
        source: &Tensor,
        cache: &Tensor,
        offset: usize,
    ) -> (result: Result<(), KernelError>)
        requires
            old(self).wf(),
            old(self).recorder.holds(*source),
            old(self).recorder.holds(*cache),
        ensures
            final(self).wf(),
            recorder::kept(old(self).recorder, final(self).recorder),
            final(self).settings == old(self).settings,
            support::outcome0(
                old(self)@,
                final(self)@,
                result,
                kv::copy_into_cache_step(source@, cache@, offset),
            ),
    {
        self.recorder.copy_into_cache(source, cache, offset)
    }

    fn choose_matmul(&self, m: usize, n: usize, k: usize) -> (result: Result<
        Launching,
        KernelError,
    >)
        requires
            n > 0,
        ensures
            gemm::is_choice(result, settings_tiling(self.settings@, m, n, k)),
    {
        let auto_m4 = self.settings.auto_m4();
        if m == 1 {
            let vocabulary = n >= 65_536;
            let rows: usize = self.settings.matvec_rows(n, k);
            let threads: usize = if rows == 1 || rows == 0 {
                256
            } else {
                128
            };
            let outputs: usize = if rows == 1 {
                8
            } else if rows != 0 {
                rows * 4
            } else {
                32
            };
            let kernel = match rows {
                1 => if self.settings.half8 {
                    "matvec_one_row_half8_f16"
                } else {
                    "matvec_one_row_f16"
                },
                2 => if vocabulary {
                    "matvec_vocab_f16"
                } else {
                    "matvec_tuned2_f16"
                },
                4 => "matvec_tuned_f16",
                8 => "matvec_tuned8_f16",
                _ => "matvec_f16",
            };
            gemm::line(kernel, support::div_ceil(n, outputs), threads)
        } else if self.settings.native() && m % 32 == 0 && n % 32 == 0 && k % 32 == 0 && (!auto_m4
            || (m >= 128 && n >= 256 && k >= 256)) {
            gemm::rectangle("matmul_simd_db_f16", n / 32, m / 32, 128)
        } else if self.settings.matmul_backend == MatmulBackend::NativeMsl && m % 32 == 0 && n % 32
            == 0 && k % 16 == 0 {
            let width = support::checked_mul(n / 32, 128)?;
            Ok(
                Launching {
                    kernel: "matmul_simd_f16",
                    grid: command::size(width, m / 32, 1),
                    threadgroup: command::size(128, 1, 1),
                },
            )
        } else {
            gemm::square(m, n)
        }
    }

    /// The product of `input` with the transpose of `weight`.
    pub fn matmul(&mut self, input: &Tensor, weight: &Tensor) -> (result: Result<
        Tensor,
        KernelError,
    >)
        requires
            old(self).wf(),
            old(self).recorder.holds(*input),
            old(self).recorder.holds(*weight),
        ensures
            final(self).wf(),
            recorder::took1(old(self).recorder, final(self).recorder, result),
            final(self).settings == old(self).settings,
            support::outcome1(
                old(self)@,
                final(self)@,
                result,
                settings_matmul_step(old(self)@, old(self).settings@, input@, weight@),
            ),
    {
        let (m, n, k) = gemm::check_matmul(input, weight)?;
        if self.settings.matmul_backend == MatmulBackend::Mps {
            return Ok(self.matmul_mps(input, weight, m, n, k));
        }
        if m == 1 {
            let splits: usize = self.settings.splits(k);
            if splits > 1 {
                return self.matmul_split_k(input, weight, n, k, splits);
            }
        }
        let choice = self.choose_matmul(m, n, k)?;
        let tiling = Ghost(settings_tiling(self.settings@, m, n, k));
        self.recorder.matmul_once(input, weight, choice, tiling)
    }

    fn matmul_mps(&mut self, input: &Tensor, weight: &Tensor, m: usize, n: usize, k: usize) -> (out:
        Tensor)
        requires
            old(self).wf(),
            old(self).recorder.holds(*input),
            old(self).recorder.holds(*weight),
            gemm::matmul_refusal(input@, weight@) is None,
            input@.shape == seq![m, k],
            weight@.shape == seq![n, k],
            m > 0,
            n > 0,
            k > 0,
            m * k * 2 <= usize::MAX,
            m * n * 2 <= usize::MAX,
        ensures
            final(self).wf(),
            recorder::took(old(self).recorder, final(self).recorder, out),
            final(self).settings == old(self).settings,
            support::outcome1(
                old(self)@,
                final(self)@,
                Ok(out),
                matmul_mps_step(old(self)@, input@, weight@),
            ),
    {
        let shape: Vec<usize> = vec![m, n];
        assert(shape@ =~= seq![m, n]);
        let out = self.recorder.fresh(shape.as_slice(), DType::F16);
        proof {
            assert(k <= m * k) by (nonlinear_arith)
                requires
                    m > 0,
            ;
            assert(n <= m * n) by (nonlinear_arith)
                requires
                    m > 0,
            ;
        }
        let size: usize = DType::F16.size();
        let multiply = Multiply {
            left: input.binding(),
            right: weight.binding(),
            result: out.binding(),
            m,
            n,
            k,
            left_row_bytes: k * size,
            right_row_bytes: k * size,
            result_row_bytes: n * size,
        };
        proof {
            support::lemma_with_one(self@, Command::Multiply(multiply)@);
        }
        self.recorder.multiply(multiply);
        out
    }

    fn matmul_split_k(
        &mut self,
        input: &Tensor,
        weight: &Tensor,
        n: usize,
        k: usize,
        splits: usize,
    ) -> (result: Result<Tensor, KernelError>)
        requires
            old(self).wf(),
            old(self).recorder.holds(*input),
            old(self).recorder.holds(*weight),
            gemm::matmul_refusal(input@, weight@) is None,
            input@.shape == seq![1usize, k],
            weight@.shape == seq![n, k],
            n > 0,
        ensures
            final(self).wf(),
            recorder::took1(old(self).recorder, final(self).recorder, result),
            final(self).settings == old(self).settings,
            support::outcome1(
                old(self)@,
                final(self)@,
                result,
                split_k_step(old(self)@, input@, weight@, splits),
            ),
    {
        let shape: Vec<usize> = vec![1, n];
        let partial_shape: Vec<usize> = vec![splits, n];
        assert(shape@ =~= seq![1usize, n]);
        assert(partial_shape@ =~= seq![splits, n]);
        Recorder::check_empty(partial_shape.as_slice(), DType::F32)?;
        let params = Params::Matrix {
            m: 1,
            n: n as u32,
            k: k as u32,
            padding: support::to_u32(splits)?,
        };
        let slices: usize = support::div_ceil(n, 8);
        proof {
            assert(0 <= slices * splits <= slices * splits * 256) by (nonlinear_arith);
        }
        let groups = support::checked_mul(slices, splits)?;
        let threads = support::checked_mul(groups, 256)?;
        let reduce_threads = support::round_up(n, 256)?;
        let out = self.recorder.fresh(shape.as_slice(), DType::F16);
        let partial = self.recorder.fresh(partial_shape.as_slice(), DType::F32);
        let first: Vec<Binding> = vec![input.binding(), weight.binding(), partial.binding()];
        let second: Vec<Binding> = vec![partial.binding(), out.binding()];
        let grid = command::size(threads, 1, 1);
        let reduce_grid = command::size(reduce_threads, 1, 1);
        let group = command::size(256, 1, 1);
        proof {
            assert(command::operands(first@) =~= seq![
                input@.operand(),
                weight@.operand(),
                partial@.operand(),
            ]);
            assert(command::operands(second@) =~= seq![partial@.operand(), out@.operand()]);
            support::lemma_with_two(
                self@,
                support::launch(
                    "matvec_splitk_partial_f16"@,
                    command::operands(first@),
                    params,
                    grid,
                    group,
                ),
                support::launch(
                    "matvec_splitk_reduce_f16"@,
                    command::operands(second@),
                    params,
                    reduce_grid,
                    group,
                ),
            );
        }
        let mut result = self.recorder.launch(
            "matvec_splitk_partial_f16",
            first,
            params,
            grid,
            group,
        );
        if result.is_ok() {
            result = self.recorder.launch(
                "matvec_splitk_reduce_f16",
                second,
                params,
                reduce_grid,
                group,
            );
        }
        self.recorder.release(partial);
        match result {
            Ok(()) => Ok(out),
            Err(error) => {
                self.recorder.release(out);
                Err(error)
            },
        }
    }

    /// The products of `input` with the transposes of two weights.
    pub fn matmul2(&mut self, input: &Tensor, weight0: &Tensor, weight1: &Tensor) -> (result:
        Result<(Tensor, Tensor), KernelError>)
        requires
            old(self).wf(),
            old(self).recorder.holds(*input),
            old(self).recorder.holds(*weight0),
            old(self).recorder.holds(*weight1),
        ensures
            final(self).wf(),
            recorder::took2(old(self).recorder, final(self).recorder, result),
            final(self).settings == old(self).settings,
            support::came_out2(
                final(self)@,
                result,
                settings_matmul2_outcome(
                    old(self)@,
                    old(self).settings@,
                    input@,
                    weight0@,
                    weight1@,
                ),
            ),
    {
        let (m, k) = gemv::check_matmul2(input, weight0, weight1)?;
        if m != 1 {
            let out0 = self.matmul(input, weight0)?;
            return match self.matmul(input, weight1) {
                Ok(out1) => Ok((out0, out1)),
                Err(error) => {
                    self.release(out0);
                    Err(error)
                },
            };
        }
        let rows: usize = self.settings.fused_rows(k, self.settings.rows.fused2);
        self.recorder.matvec2(input, weight0, weight1, rows)
    }

    /// The products of `input` with the transposes of three weights.
    pub fn matmul3(
        &mut self,
        input: &Tensor,
        weight0: &Tensor,
        weight1: &Tensor,
        weight2: &Tensor,
    ) -> (result: Result<(Tensor, Tensor, Tensor), KernelError>)
        requires
            old(self).wf(),
            old(self).recorder.holds(*input),
            old(self).recorder.holds(*weight0),
            old(self).recorder.holds(*weight1),
            old(self).recorder.holds(*weight2),
        ensures
            final(self).wf(),
            recorder::took3(old(self).recorder, final(self).recorder, result),
            final(self).settings == old(self).settings,
            support::came_out3(
                final(self)@,
                result,
                settings_matmul3_outcome(
                    old(self)@,
                    old(self).settings@,
                    input@,
                    weight0@,
                    weight1@,
                    weight2@,
                ),
            ),
    {
        let (m, k) = gemv::check_matmul3(input, weight0, weight1, weight2)?;
        if m != 1 {
            let out0 = self.matmul(input, weight0)?;
            let out1 = match self.matmul(input, weight1) {
                Ok(out1) => out1,
                Err(error) => {
                    self.release(out0);
                    return Err(error);
                },
            };
            return match self.matmul(input, weight2) {
                Ok(out2) => Ok((out0, out1, out2)),
                Err(error) => {
                    self.release(out0);
                    self.release(out1);
                    Err(error)
                },
            };
        }
        let rows: usize = self.settings.fused_rows(k, self.settings.rows.fused3);
        self.recorder.matvec3(input, weight0, weight1, weight2, rows)
    }

    /// Normalises a row and projects it three ways, two rows to a simdgroup.
    pub fn rms_norm_matmul3(
        &mut self,
        input: &Tensor,
        norm_weight: &Tensor,
        weight0: &Tensor,
        weight1: &Tensor,
        weight2: &Tensor,
        epsilon: u32,
    ) -> (result: Result<(Tensor, Tensor, Tensor), KernelError>)
        requires
            old(self).wf(),
            old(self).recorder.holds(*input),
            old(self).recorder.holds(*norm_weight),
            old(self).recorder.holds(*weight0),
            old(self).recorder.holds(*weight1),
            old(self).recorder.holds(*weight2),
        ensures
            final(self).wf(),
            recorder::took3(old(self).recorder, final(self).recorder, result),
            final(self).settings == old(self).settings,
            support::outcome3(
                old(self)@,
                final(self)@,
                result,
                fused::rms_norm_matmul3_step(
                    old(self)@,
                    input@,
                    norm_weight@,
                    weight0@,
                    weight1@,
                    weight2@,
                    epsilon,
                    2,
                ),
            ),
    {
        self.recorder.rms_norm_matvec3(input, norm_weight, weight0, weight1, weight2, epsilon, 2)
    }

    /// Adds two rows, normalises the sum and projects it two ways, two rows to
    /// a simdgroup.
    pub fn add_rms_norm_matmul2(
        &mut self,
        left: &Tensor,
        right: &Tensor,
        norm_weight: &Tensor,
        weight0: &Tensor,
        weight1: &Tensor,
        epsilon: u32,
    ) -> (result: Result<(Tensor, Tensor, Tensor), KernelError>)
        requires
            old(self).wf(),
            old(self).recorder.holds(*left),
            old(self).recorder.holds(*right),
            old(self).recorder.holds(*norm_weight),
            old(self).recorder.holds(*weight0),
            old(self).recorder.holds(*weight1),
        ensures
            final(self).wf(),
            recorder::took3(old(self).recorder, final(self).recorder, result),
            final(self).settings == old(self).settings,
            support::outcome3(
                old(self)@,
                final(self)@,
                result,
                fused::add_rms_norm_matmul2_step(
                    old(self)@,
                    left@,
                    right@,
                    norm_weight@,
                    weight0@,
                    weight1@,
                    epsilon,
                    2,
                ),
            ),
    {
        self.recorder.add_rms_norm_matvec2(
            left,
            right,
            norm_weight,
            weight0,
            weight1,
            epsilon,
            2,
        )
    }

    /// Attention of a kind.
    pub fn attention(
        &mut self,
        query: &Tensor,
        key: &Tensor,
        value: &Tensor,
        config: AttentionConfig,
        kind: AttentionKind,
    ) -> (result: Result<Tensor, KernelError>)
        requires
            old(self).wf(),
            old(self).recorder.holds(*query),
            old(self).recorder.holds(*key),
            old(self).recorder.holds(*value),
        ensures
            final(self).wf(),
            recorder::took1(old(self).recorder, final(self).recorder, result),
            final(self).settings == old(self).settings,
            support::outcome1(
                old(self)@,
                final(self)@,
                result,
                attention::attention_step(
                    old(self)@,
                    query@,
                    key@,
                    value@,
                    config,
                    kind,
                    settings_split(old(self).settings@, None, key@.shape[0]),
                ),
            ),
    {
        self.attention_with_flash_configuration(query, key, value, config, kind, None)
    }

    /// Flash decode with a given number of keys to a block, by 256 threads.
    pub fn attention_flash_decode_with_block(
        &mut self,
        query: &Tensor,
        key: &Tensor,
        value: &Tensor,
        config: AttentionConfig,
        block_keys: usize,
    ) -> (result: Result<Tensor, KernelError>)
        requires
            old(self).wf(),
            old(self).recorder.holds(*query),
            old(self).recorder.holds(*key),
            old(self).recorder.holds(*value),
        ensures
            final(self).wf(),
            recorder::took1(old(self).recorder, final(self).recorder, result),
            final(self).settings == old(self).settings,
            support::outcome1(
                old(self)@,
                final(self)@,
                result,
                attention::attention_step(
                    old(self)@,
                    query@,
                    key@,
                    value@,
                    config,
                    AttentionKind::FlashDecode,
                    settings_split(old(self).settings@, Some((block_keys, 256)), key@.shape[0]),
                ),
            ),
    {
        self.attention_flash_decode_with_configuration(query, key, value, config, block_keys, 256)
    }

    /// Flash decode with a given number of keys and threads to a block.
    pub fn attention_flash_decode_with_configuration(
        &mut self,
        query: &Tensor,
        key: &Tensor,
        value: &Tensor,
        config: AttentionConfig,
        block_keys: usize,
        threads: usize,
    ) -> (result: Result<Tensor, KernelError>)
        requires
            old(self).wf(),
            old(self).recorder.holds(*query),
            old(self).recorder.holds(*key),
            old(self).recorder.holds(*value),
        ensures
            final(self).wf(),
            recorder::took1(old(self).recorder, final(self).recorder, result),
            final(self).settings == old(self).settings,
            support::outcome1(
                old(self)@,
                final(self)@,
                result,
                attention::attention_step(
                    old(self)@,
                    query@,
                    key@,
                    value@,
                    config,
                    AttentionKind::FlashDecode,
                    settings_split(old(self).settings@, Some((block_keys, threads)), key@.shape[0]),
                ),
            ),
    {
        self.attention_with_flash_configuration(
            query,
            key,
            value,
            config,
            AttentionKind::FlashDecode,
            Some((block_keys, threads)),
        )
    }

    fn attention_with_flash_configuration(
        &mut self,
        query: &Tensor,
        key: &Tensor,
        value: &Tensor,
        config: AttentionConfig,
        kind: AttentionKind,
        flash_configuration: Option<(usize, usize)>,
    ) -> (result: Result<Tensor, KernelError>)
        requires
            old(self).wf(),
            old(self).recorder.holds(*query),
            old(self).recorder.holds(*key),
            old(self).recorder.holds(*value),
        ensures
            final(self).wf(),
            recorder::took1(old(self).recorder, final(self).recorder, result),
            final(self).settings == old(self).settings,
            support::outcome1(
                old(self)@,
                final(self)@,
                result,
                attention::attention_step(
                    old(self)@,
                    query@,
                    key@,
                    value@,
                    config,
                    kind,
                    settings_split(old(self).settings@, flash_configuration, key@.shape[0]),
                ),
            ),
    {
        let (block, threads) = match flash_configuration {
            Some(configuration) => configuration,
            None => {
                let kv_length: usize = key.shape()[0];
                self.settings.selection.flash_decode_configuration_for_length(kv_length)
            },
        };
        let split = FlashSplit { block, threads, reduce_threads: 32, narrow_kernel: true };
        self.recorder.attention_with_split(query, key, value, config, kind, split)
    }
}

/// Row counts, fused rows and slices are for the simdgroup kernels, and only for inner
/// widths that these take in blocks of 256: the native backend has its own, automatic
/// selection those of the settings where it runs on the device it is measured for, and
/// everything else takes none and does not slice.
pub proof fn the_backend_decides_the_rows(
    settings: SettingsModel,
    n: usize,
    k: usize,
    automatic: u8,
)
    ensures
        ({
            let measured = settings.matmul_backend == MatmulBackend::Auto && settings.is_m4_pro;
            let native = settings.matmul_backend == MatmulBackend::NativeMsl;
            let none = k % 256 != 0 || !(measured || native);
            &&& none ==> settings.matvec_rows(n, k) == 0 && settings.fused_rows(k, automatic) == 0
                && settings.splits(k) == 1
            &&& !none && native ==> settings.fused_rows(k, automatic) == 2 && settings.splits(k)
                == 1 && settings.matvec_rows(n, k) == if n >= 65_536 {
                2int
            } else {
                4int
            }
            &&& !none && measured ==> settings.fused_rows(k, automatic) == automatic
                && settings.splits(k) == settings.split_k && (n >= 65_536 ==> settings.matvec_rows(
                n,
                k,
            ) == settings.rows.vocab)
            &&& !none && measured && n < 65_536 && settings.manual_rows ==> settings.matvec_rows(
                n,
                k,
            ) == settings.rows.single
        }),
{
}

} // verus!
