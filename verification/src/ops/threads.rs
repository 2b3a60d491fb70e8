//! That every launch has the threads that its kernel needs.

use crate::command_batch::{self, MatmulBackend, SettingsModel};
use crate::gpu::command::{CommandModel, Params, Size};
use crate::gpu::recorder::BatchModel;
use crate::gpu::tensor::{self, TensorModel};
use crate::ops::attention::FlashSplit;
use crate::ops::gemm::Tiling;
use crate::ops::{attention, elementwise, fused, gemm, gemv, kv, norm, rope, sampling, support};
use crate::ops::{AttentionConfig, AttentionKind, QkNormRopeCacheConfig};
use crate::qwen3::operands;
use crate::tuning::TuningModel;
use vstd::prelude::*;

verus! {

/// The threads of a grid.
pub open spec fn threads(grid: Size) -> int {
    grid.width * grid.height * grid.depth
}

/// The grid of a launch.
pub open spec fn grid_of(command: CommandModel) -> Size {
    match command {
        CommandModel::Dispatch { grid, .. } => grid,
        CommandModel::Multiply { .. } => Size { width: 0, height: 0, depth: 0 },
    }
}

/// The threads of a group of a launch.
pub open spec fn group_of(command: CommandModel) -> Size {
    match command {
        CommandModel::Dispatch { threadgroup, .. } => threadgroup,
        CommandModel::Multiply { .. } => Size { width: 0, height: 0, depth: 0 },
    }
}

/// Whether a line of whole groups of `size` threads has one group for every `share`
/// of some items, a last group for what is left, and no group without an item.
pub open spec fn shares_out(grid: Size, group: Size, size: int, share: int, items: int) -> bool {
    let groups = grid.width as int / size;
    &&& group == Size { width: size as usize, height: 1, depth: 1 }
    &&& grid.height == 1
    &&& grid.depth == 1
    &&& grid.width == groups * size
    &&& groups * share >= items
    &&& (groups - 1) * share < items
}

proof fn lemma_line(groups: int, size: int)
    requires
        size > 0,
        groups >= 0,
        support::fits_usize(groups * size),
    ensures
        groups * size >= 0,
        support::line(groups * size).width == groups * size,
        support::line(groups * size).width as int / size == groups,
{
    assert(groups * size >= 0) by (nonlinear_arith)
        requires
            groups >= 0,
            size > 0,
    ;
    vstd::arithmetic::div_mod::lemma_div_multiples_vanish(groups, size);
    assert(groups * size == size * groups) by (nonlinear_arith);
}

proof fn lemma_shares(groups: int, size: int, share: int, items: int)
    requires
        0 < size <= 1024,
        share > 0,
        items > 0,
        groups == support::ceil_div(items, share),
        support::fits_usize(groups * size),
    ensures
        groups > 0,
        shares_out(support::line(groups * size), support::line(size), size, share, items),
{
    support::groups_reach_every_item(items, share);
    assert(groups > 0) by (nonlinear_arith)
        requires
            groups * share >= items,
            items > 0,
            share > 0,
    ;
    lemma_line(groups, size);
    assert((groups - 1) * share == groups * share - share) by (nonlinear_arith);
}

proof fn lemma_threads_of_line(width: int)
    requires
        support::fits_usize(width),
        width >= 0,
    ensures
        threads(support::line(width)) == width,
{
    let grid = support::line(width);
    assert(grid.width * grid.height * grid.depth == width) by (nonlinear_arith)
        requires
            grid.width == width,
            grid.height == 1,
            grid.depth == 1,
    ;
}

/// What a group of a matrix-vector kernel is made for: so many threads, which yield so
/// many outputs of each product.
pub open spec fn serves(tiling: Tiling, kernel: Seq<char>, size: int, share: int, items: int) -> bool {
    tiling.kernel == kernel ==> shares_out(tiling.grid, tiling.threadgroup, size, share, items)
}

/// A product of one row launches one of five kernels, with a group for every 8, 16 or
/// 32 of its outputs, as the kernel takes them.
pub proof fn a_row_product_has_a_group_for_all_outputs(
    tuning: TuningModel,
    n: usize,
    k: usize,
)
    requires
        n > 0,
        gemm::matmul_tiling(tuning, 1, n, k).fits,
    ensures
        ({
            let tiling = gemm::matmul_tiling(tuning, 1, n, k);
            let outputs = n as int;
            &&& serves(tiling, "matvec_one_row_f16"@, 256, 8, outputs)
            &&& serves(tiling, "matvec_vocab_f16"@, 128, 8, outputs)
            &&& serves(tiling, "matvec_tuned2_f16"@, 128, 8, outputs)
            &&& serves(tiling, "matvec_tuned_f16"@, 128, 16, outputs)
            &&& serves(tiling, "matvec_f16"@, 256, 32, outputs)
        }),
{
    lemma_matvec_names();
    let vocabulary = n >= 65_536;
    let rows = if tuning.is_m4_pro() && k % 256 == 0 {
        tuning.matvec_rows(n, k, vocabulary) as int
    } else {
        0
    };
    if rows == 0 {
        lemma_shares(support::ceil_div(n as int, 32), 256, 32, n as int);
    } else if rows == 1 {
        lemma_shares(support::ceil_div(n as int, 8), 256, 8, n as int);
    } else if rows == 2 {
        lemma_shares(support::ceil_div(n as int, 8), 128, 8, n as int);
    } else if rows == 4 {
        lemma_shares(support::ceil_div(n as int, 16), 128, 16, n as int);
    }
}

proof fn lemma_matvec_names()
    ensures
        "matvec_f16"@.len() == 10,
        "matvec_one_row_f16"@.len() == 18,
        "matvec_vocab_f16"@.len() == 16,
        "matvec_vocab_f16"@[7] == 'v',
        "matvec_tuned_f16"@.len() == 16,
        "matvec_tuned_f16"@[7] == 't',
        "matvec_tuned2_f16"@.len() == 17,
        "matvec_tuned2_f16"@[12] == '2',
        "matvec_tuned8_f16"@.len() == 17,
        "matvec_tuned8_f16"@[12] == '8',
        "matvec_one_row_half8_f16"@.len() == 24,
{
    reveal_strlit("matvec_f16");
    reveal_strlit("matvec_one_row_f16");
    reveal_strlit("matvec_vocab_f16");
    reveal_strlit("matvec_tuned_f16");
    reveal_strlit("matvec_tuned2_f16");
    reveal_strlit("matvec_tuned8_f16");
    reveal_strlit("matvec_one_row_half8_f16");
}

/// By the settings of a device, too, a product of one row has a group for all of its
/// outputs, whichever of the kernels with a row count of their own is launched.
pub proof fn a_row_product_by_settings_has_a_group_for_all_outputs(
    settings: SettingsModel,
    n: usize,
    k: usize,
)
    requires
        n > 0,
        command_batch::settings_tiling(settings, 1, n, k).fits,
    ensures
        ({
            let tiling = command_batch::settings_tiling(settings, 1, n, k);
            let outputs = n as int;
            &&& serves(tiling, "matvec_one_row_half8_f16"@, 256, 8, outputs)
            &&& serves(tiling, "matvec_one_row_f16"@, 256, 8, outputs)
            &&& serves(tiling, "matvec_vocab_f16"@, 128, 8, outputs)
            &&& serves(tiling, "matvec_tuned2_f16"@, 128, 8, outputs)
            &&& serves(tiling, "matvec_tuned_f16"@, 128, 16, outputs)
            &&& serves(tiling, "matvec_tuned8_f16"@, 128, 32, outputs)
            &&& settings.matvec_rows(n, k) == 0 ==> serves(
                tiling,
                "matvec_f16"@,
                256,
                32,
                outputs,
            )
        }),
{
    lemma_matvec_names();
    let rows = settings.matvec_rows(n, k);
    if rows == 0 {
        lemma_shares(support::ceil_div(n as int, 32), 256, 32, n as int);
    } else if rows == 1 {
        lemma_shares(support::ceil_div(n as int, 8), 256, 8, n as int);
    } else if rows == 2 {
        lemma_shares(support::ceil_div(n as int, 8), 128, 8, n as int);
    } else if rows == 4 {
        lemma_shares(support::ceil_div(n as int, 16), 128, 16, n as int);
    } else if rows == 8 {
        lemma_shares(support::ceil_div(n as int, 32), 128, 32, n as int);
    }
}

/// Whether the groups of a launch are as many as the tiles that an `m` by `n` product
/// is cut into, each of 32 columns and of so many rows.
pub open spec fn tiles(grid: Size, group: Size, m: int, n: int, rows: int) -> bool {
    let groups = grid.width as int / 128;
    exists|columns: int, bands: int|
        #![trigger columns * bands]
        groups == columns * bands && columns * 32 == n && bands * rows >= m && (bands - 1) * rows
            < m && grid.width == groups * 128 && grid.height == 1 && grid.depth == 1 && group
            == (Size { width: 128, height: 1, depth: 1 })
}

/// A product of several rows is cut into tiles that cover it, or has one thread for
/// each of its outputs in squares of 16 by 16.
pub proof fn a_product_is_covered(tuning: TuningModel, m: usize, n: usize, k: usize)
    requires
        m > 1,
        n > 0,
        gemm::matmul_tiling(tuning, m, n, k).fits,
    ensures
        ({
            let tiling = gemm::matmul_tiling(tuning, m, n, k);
            let grid = tiling.grid;
            let group = tiling.threadgroup;
            &&& tiling.kernel == "matmul_skinny_f16"@ ==> tiles(grid, group, m as int, n as int, 8)
            &&& tiling.kernel == "matmul_simd_db_f16"@ ==> tiles(
                grid,
                group,
                m as int,
                n as int,
                32,
            )
            &&& tiling.kernel == "matmul_f16"@ ==> {
                &&& group == Size { width: 16, height: 16, depth: 1 }
                &&& grid.width % 16 == 0 && n <= grid.width < n + 16
                &&& grid.height % 16 == 0 && m <= grid.height < m + 16
                &&& grid.depth == 1
            }
        }),
{
    reveal_strlit("matmul_skinny_f16");
    reveal_strlit("matmul_simd_db_f16");
    reveal_strlit("matmul_f16");
    assert("matmul_f16"@.len() == 10);
    assert("matmul_skinny_f16"@.len() == 17);
    assert("matmul_simd_db_f16"@.len() == 18);
    let m4 = tuning.is_m4_pro();
    let tileable = n % 32 == 0 && k % 32 == 0 && n >= 256 && k >= 256;
    support::groups_reach_every_item(m as int, 8);
    support::groups_reach_every_item(m as int, 32);
    if m4 && tileable {
        let columns = n as int / 32;
        let rows: int = if m < 128 { 8 } else { 32 };
        let bands = support::ceil_div(m as int, rows);
        assert(bands >= 1);
        assert(columns * bands >= 0) by (nonlinear_arith)
            requires
                columns >= 0,
                bands >= 1,
        ;
        lemma_line(columns * bands, 128);
        assert((bands - 1) * rows < m);
        assert(columns * 32 == n);
    } else {
        lemma_rounded(n as int, 16);
        lemma_rounded(m as int, 16);
    }
}

proof fn lemma_rounded(value: int, multiple: int)
    requires
        value >= 0,
        multiple > 0,
    ensures
        value <= support::round_to(value, multiple) < value + multiple,
        support::round_to(value, multiple) % multiple == 0,
{
    support::groups_reach_every_item(value, multiple);
    let groups = support::ceil_div(value, multiple);
    vstd::arithmetic::div_mod::lemma_mod_multiples_basic(groups, multiple);
}

/// The fused products of one row have a group for all outputs of the widest.
pub proof fn fused_products_have_a_group_for_all_outputs(outputs: int, rows: int)
    requires
        outputs > 0,
        rows == 0 || rows == 2 || rows == 4 || rows == 8,
    ensures
        ({
            let two = gemv::multi_tiling(gemv::matvec2_kernel(rows), outputs, rows);
            two.fits ==> {
                &&& serves(two, "matvec2_f16"@, 256, 32, outputs)
                &&& serves(two, "matvec2_tuned_f16"@, 128, 8, outputs)
                &&& serves(two, "matvec2_tuned4_f16"@, 128, 16, outputs)
                &&& serves(two, "matvec2_tuned8_f16"@, 128, 32, outputs)
            }
        }),
        ({
            let three = gemv::multi_tiling(gemv::matvec3_kernel(rows), outputs, rows);
            three.fits ==> {
                &&& serves(three, "matvec3_f16"@, 256, 32, outputs)
                &&& serves(three, "matvec3_tuned_f16"@, 128, 8, outputs)
                &&& serves(three, "matvec3_tuned4_f16"@, 128, 16, outputs)
                &&& serves(three, "matvec3_tuned8_f16"@, 128, 32, outputs)
            }
        }),
{
    reveal_strlit("matvec2_f16");
    reveal_strlit("matvec2_tuned_f16");
    reveal_strlit("matvec2_tuned4_f16");
    reveal_strlit("matvec2_tuned8_f16");
    reveal_strlit("matvec3_f16");
    reveal_strlit("matvec3_tuned_f16");
    reveal_strlit("matvec3_tuned4_f16");
    reveal_strlit("matvec3_tuned8_f16");
    assert("matvec2_f16"@.len() == 11);
    assert("matvec2_tuned_f16"@.len() == 17);
    assert("matvec2_tuned4_f16"@.len() == 18 && "matvec2_tuned4_f16"@[13] == '4');
    assert("matvec2_tuned8_f16"@.len() == 18 && "matvec2_tuned8_f16"@[13] == '8');
    assert("matvec3_f16"@.len() == 11);
    assert("matvec3_tuned_f16"@.len() == 17);
    assert("matvec3_tuned4_f16"@.len() == 18 && "matvec3_tuned4_f16"@[13] == '4');
    assert("matvec3_tuned8_f16"@.len() == 18 && "matvec3_tuned8_f16"@[13] == '8');
    let share: int = if rows == 0 { 32 } else { rows * 4 };
    let size: int = if rows == 0 { 256 } else { 128 };
    let groups = support::ceil_div(outputs, share);
    if support::fits_usize(groups * size) {
        lemma_shares(groups, size, share, outputs);
    }
}

/// The products that are fused with a norm have a group for all outputs of the widest.
pub proof fn fused_norms_have_a_group_for_all_outputs(outputs: int, rows: int)
    requires
        outputs > 0,
        rows == 1 || rows == 2 || rows == 4 || rows == 8,
    ensures
        ({
            let three = fused::fused_tiling(fused::rms3_kernel(rows), outputs, rows);
            three.fits ==> {
                &&& serves(three, "matvec3_rms_r1_f16"@, 256, 8, outputs)
                &&& serves(three, "matvec3_rms_f16"@, 128, 8, outputs)
                &&& serves(three, "matvec3_rms_r4_f16"@, 128, 16, outputs)
                &&& serves(three, "matvec3_rms_r8_f16"@, 128, 32, outputs)
            }
        }),
        ({
            let two = fused::fused_tiling(fused::add_rms2_kernel(rows), outputs, rows);
            two.fits ==> {
                &&& serves(two, "matvec2_add_rms_r1_f16"@, 256, 8, outputs)
                &&& serves(two, "matvec2_add_rms_f16"@, 128, 8, outputs)
                &&& serves(two, "matvec2_add_rms_r4_f16"@, 128, 16, outputs)
                &&& serves(two, "matvec2_add_rms_r8_f16"@, 128, 32, outputs)
            }
        }),
{
    reveal_strlit("matvec3_rms_r1_f16");
    reveal_strlit("matvec3_rms_f16");
    reveal_strlit("matvec3_rms_r4_f16");
    reveal_strlit("matvec3_rms_r8_f16");
    reveal_strlit("matvec2_add_rms_r1_f16");
    reveal_strlit("matvec2_add_rms_f16");
    reveal_strlit("matvec2_add_rms_r4_f16");
    reveal_strlit("matvec2_add_rms_r8_f16");
    assert("matvec3_rms_f16"@.len() == 15);
    assert("matvec3_rms_r1_f16"@.len() == 18 && "matvec3_rms_r1_f16"@[13] == '1');
    assert("matvec3_rms_r4_f16"@.len() == 18 && "matvec3_rms_r4_f16"@[13] == '4');
    assert("matvec3_rms_r8_f16"@.len() == 18 && "matvec3_rms_r8_f16"@[13] == '8');
    assert("matvec2_add_rms_f16"@.len() == 19);
    assert("matvec2_add_rms_r1_f16"@.len() == 22 && "matvec2_add_rms_r1_f16"@[17] == '1');
    assert("matvec2_add_rms_r4_f16"@.len() == 22 && "matvec2_add_rms_r4_f16"@[17] == '4');
    assert("matvec2_add_rms_r8_f16"@.len() == 22 && "matvec2_add_rms_r8_f16"@[17] == '8');
    let share: int = if rows == 1 { 8 } else { rows * 4 };
    let size: int = if rows == 1 { 256 } else { 128 };
    let groups = support::ceil_div(outputs, share);
    if support::fits_usize(groups * size) {
        lemma_shares(groups, size, share, outputs);
    }
}

/// A norm has a group of 256 threads for every eight rows.
pub proof fn a_norm_has_a_group_for_every_eight_rows(
    batch: BatchModel,
    input: TensorModel,
    weight: TensorModel,
    epsilon: u32,
)
    requires
        norm::rms_norm_step(batch, input, weight, epsilon) is Ok,
    ensures
        ({
            let launch = norm::rms_norm_step(batch, input, weight, epsilon)->Ok_0.commands[0];
            let width = input.shape.last() as int;
            let groups = grid_of(launch).width as int / 256;
            &&& group_of(launch) == Size { width: 256, height: 1, depth: 1 }
            &&& grid_of(launch) == Size { width: (groups * 256) as usize, height: 1, depth: 1 }
            &&& groups * 8 * width >= input.len()
            &&& (groups - 1) * 8 * width < input.len()
        }),
{
    let rows = norm::row_count(input);
    let width = input.shape.last() as int;
    lemma_row_count(input);
    lemma_norm_groups(rows, width, input.len() as int);
}

/// A sum with its norm has a group of 256 threads for every eight rows.
pub proof fn a_sum_with_its_norm_has_a_group_for_every_eight_rows(
    batch: BatchModel,
    left: TensorModel,
    right: TensorModel,
    weight: TensorModel,
    epsilon: u32,
)
    requires
        norm::add_rms_norm_step(batch, left, right, weight, epsilon) is Ok,
    ensures
        ({
            let launch = norm::add_rms_norm_step(
                batch,
                left,
                right,
                weight,
                epsilon,
            )->Ok_0.commands[0];
            let width = left.shape.last() as int;
            let groups = grid_of(launch).width as int / 256;
            &&& group_of(launch) == Size { width: 256, height: 1, depth: 1 }
            &&& grid_of(launch) == Size { width: (groups * 256) as usize, height: 1, depth: 1 }
            &&& groups * 8 * width >= left.len()
            &&& (groups - 1) * 8 * width < left.len()
        }),
{
    let rows = norm::row_count(left);
    let width = left.shape.last() as int;
    lemma_row_count(left);
    lemma_norm_groups(rows, width, left.len() as int);
}

proof fn lemma_row_count(input: TensorModel)
    requires
        tensor::filled(input.shape),
    ensures
        input.shape.last() > 0,
        norm::row_count(input) > 0,
        norm::row_count(input) * input.shape.last() == input.len(),
{
    let width = input.shape.last() as int;
    let outer = tensor::elements(input.shape.drop_last()) as int;
    assert(input.shape[input.shape.len() - 1] > 0);
    assert forall|i: int| 0 <= i < input.shape.drop_last().len() implies #[trigger]
        input.shape.drop_last()[i] > 0 by {
        assert(input.shape[i] > 0);
    }
    tensor::lemma_elements_positive(input.shape.drop_last());
    assert(input.len() == outer * width);
    vstd::arithmetic::div_mod::lemma_div_multiples_vanish(outer, width);
    assert(outer * width == width * outer) by (nonlinear_arith);
}

proof fn lemma_norm_groups(rows: int, width: int, total: int)
    requires
        rows > 0,
        width > 0,
        rows * width == total,
        support::fits_usize(norm::norm_grid(rows)),
    ensures
        ({
            let groups = support::line(norm::norm_grid(rows)).width as int / 256;
            &&& support::line(norm::norm_grid(rows)).width == groups * 256
            &&& groups * 8 * width >= total
            &&& (groups - 1) * 8 * width < total
        }),
{
    let groups = support::ceil_div(rows, 8);
    lemma_shares(groups, 256, 8, rows);
    assert(groups * 8 * width >= rows * width) by (nonlinear_arith)
        requires
            groups * 8 >= rows,
            width > 0,
    ;
    assert((groups - 1) * 8 * width < rows * width) by (nonlinear_arith)
        requires
            (groups - 1) * 8 < rows,
            width > 0,
    ;
}

/// The kernels over plain elements have one thread for each of them.
pub proof fn plain_elements_have_a_thread_each(
    batch: BatchModel,
    kernel: Seq<char>,
    left: TensorModel,
    right: TensorModel,
)
    requires
        elementwise::pairwise_step(batch, kernel, left, right) is Ok,
    ensures
        ({
            let step = elementwise::pairwise_step(batch, kernel, left, right)->Ok_0;
            &&& threads(grid_of(step.commands[0])) == step.outputs[0].len()
            &&& 0 < threads(group_of(step.commands[0])) <= 256
            &&& operands::constants(step.commands[0]) matches Some(Params::Count { count })
            &&& count == step.outputs[0].len()
        }),
{
    let count = left.len() as int;
    tensor::lemma_elements_positive(left.shape);
    lemma_threads_of_line(count);
    lemma_threads_of_line(support::min(count, 256));
}

/// The embedding has one thread for each element that it yields.
pub proof fn embedded_elements_have_a_thread_each(
    batch: BatchModel,
    tokens: TensorModel,
    table: TensorModel,
)
    requires
        elementwise::embedding_step(batch, tokens, table) is Ok,
    ensures
        ({
            let step = elementwise::embedding_step(batch, tokens, table)->Ok_0;
            &&& threads(grid_of(step.commands[0])) == step.outputs[0].len()
            &&& grid_of(step.commands[0]).height == tokens.len()
        }),
{
    let count = tokens.shape[0];
    let width = table.shape[1];
    tensor::lemma_elements_two(count, width);
    tensor::lemma_elements_one(count);
    assert(tokens.shape =~= seq![count]);
    assert(width * count * 1 == count * width) by (nonlinear_arith);
}

/// The rotation has one thread for each pair of numbers.
pub proof fn rotated_pairs_have_a_thread_each(
    batch: BatchModel,
    input: TensorModel,
    offset: usize,
    theta: u32,
)
    requires
        rope::rope_step(batch, input, offset, theta) is Ok,
    ensures
        ({
            let step = rope::rope_step(batch, input, offset, theta)->Ok_0;
            threads(grid_of(step.commands[0])) * 2 == step.outputs[0].len()
        }),
{
    let tokens = input.shape[0];
    let heads = input.shape[1];
    let head_dim = input.shape[2];
    let half = head_dim as int / 2;
    assert(input.shape =~= seq![tokens, heads, head_dim]);
    tensor::lemma_elements_three(tokens, heads, head_dim);
    assert(half * heads * tokens * 2 == tokens * heads * head_dim) by (nonlinear_arith)
        requires
            half * 2 == head_dim,
    ;
}

/// The query and key transform has a group of 32 threads for each head of each token,
/// of the queries and of the keys.
pub proof fn transformed_heads_have_a_group_each(
    batch: BatchModel,
    query: TensorModel,
    key: TensorModel,
    query_weight: TensorModel,
    key_weight: TensorModel,
    key_cache: TensorModel,
    config: QkNormRopeCacheConfig,
)
    requires
        rope::qk_norm_rope_cache_step(
            batch,
            query,
            key,
            query_weight,
            key_weight,
            key_cache,
            config,
        ) is Ok,
    ensures
        ({
            let launch = rope::qk_norm_rope_cache_step(
                batch,
                query,
                key,
                query_weight,
                key_weight,
                key_cache,
                config,
            )->Ok_0.commands[0];
            &&& threads(group_of(launch)) == 32
            &&& threads(grid_of(launch)) * query.shape[2] == (query.len() + key.len()) * 32
            &&& operands::constants(launch) matches Some(
                Params::QkTransform { cache_capacity, offset, .. },
            )
            &&& cache_capacity == key_cache.shape[0]
            &&& offset + query.shape[0] <= cache_capacity
        }),
{
    let tokens = query.shape[0];
    let query_heads = query.shape[1];
    let kv_heads = key.shape[1];
    let head_dim = query.shape[2];
    assert(query.shape =~= seq![tokens, query_heads, head_dim]);
    assert(key.shape =~= seq![tokens, kv_heads, head_dim]);
    tensor::lemma_elements_three(tokens, query_heads, head_dim);
    tensor::lemma_elements_three(tokens, kv_heads, head_dim);
    let grid = tokens * (query_heads + kv_heads) * 32;
    assert(grid * head_dim == (tokens * query_heads * head_dim + tokens * kv_heads * head_dim) * 32)
        by (nonlinear_arith)
        requires
            grid == tokens * (query_heads + kv_heads) * 32,
    ;
    assert(grid >= 0) by (nonlinear_arith)
        requires
            grid == tokens * (query_heads + kv_heads) * 32,
            tokens >= 0,
            query_heads >= 0,
            kv_heads >= 0,
    ;
    lemma_threads_of_line(grid);
    lemma_threads_of_line(32);
}

/// Every kind of attention but flash decode serves each head of each token: by a group
/// of 256 threads, by a group of 32, by a share of a group of 128 that takes 32 tokens
/// of a head, or by a thread for each number of it.
pub proof fn attended_heads_are_served(
    batch: BatchModel,
    query: TensorModel,
    key: TensorModel,
    value: TensorModel,
    config: AttentionConfig,
    kind: AttentionKind,
    split: FlashSplit,
)
    requires
        attention::attention_step(batch, query, key, value, config, kind, split) is Ok,
        kind != AttentionKind::FlashDecode,
    ensures
        ({
            let launch = attention::attention_step(
                batch,
                query,
                key,
                value,
                config,
                kind,
                split,
            )->Ok_0.commands[0];
            let heads = query.shape[0] * query.shape[1];
            let grid = grid_of(launch);
            let group = group_of(launch);
            match kind {
                AttentionKind::Reference => threads(grid) == query.len(),
                AttentionKind::DecodeSplitKv => threads(group) == 256 && threads(grid) == heads
                    * 256,
                AttentionKind::Tiled => threads(group) == 32 && threads(grid) == heads * 32,
                _ => {
                    let bands = grid.width as int / 128;
                    &&& threads(group) == 128
                    &&& grid.width == bands * 128
                    &&& grid.height == query.shape[1]
                    &&& grid.depth == 1
                    &&& bands * 32 >= query.shape[0]
                    &&& (bands - 1) * 32 < query.shape[0]
                },
            }
        }),
{
    let tokens = query.shape[0];
    let heads = query.shape[1];
    let head_dim = query.shape[2];
    assert(query.shape =~= seq![tokens, heads, head_dim]);
    assert(tokens > 0 && heads > 0);
    tensor::lemma_elements_three(tokens, heads, head_dim);
    let groups = heads * tokens;
    assert(groups == tokens * heads) by (nonlinear_arith)
        requires
            groups == heads * tokens,
    ;
    assert(groups > 0) by (nonlinear_arith)
        requires
            groups == heads * tokens,
            heads > 0,
            tokens > 0,
    ;
    match kind {
        AttentionKind::Reference => {
            let grid = Size { width: head_dim, height: heads, depth: tokens };
            assert(threads(grid) == head_dim * heads * tokens);
            assert(head_dim * heads * tokens == tokens * heads * head_dim) by (nonlinear_arith);
        },
        AttentionKind::DecodeSplitKv => {
            lemma_line(groups, 256);
            lemma_threads_of_line(groups * 256);
            lemma_threads_of_line(256);
        },
        AttentionKind::Tiled => {
            lemma_line(groups, 32);
            lemma_threads_of_line(groups * 32);
            lemma_threads_of_line(32);
        },
        _ => {
            lemma_shares(support::ceil_div(tokens as int, 32), 128, 32, tokens as int);
            lemma_threads_of_line(128);
        },
    }
}

/// Flash decode has a group for every block of the keys that the token may see, and the
/// last block is not empty: of the keys up to its own position where it is causal, of
/// all keys where it is not. Each group of the second launch joins the blocks of a head.
pub proof fn flash_decode_covers_the_visible_keys(
    batch: BatchModel,
    query: TensorModel,
    key: TensorModel,
    value: TensorModel,
    config: AttentionConfig,
    split: FlashSplit,
)
    requires
        attention::attention_step(
            batch,
            query,
            key,
            value,
            config,
            AttentionKind::FlashDecode,
            split,
        ) is Ok,
    ensures
        ({
            let step = attention::attention_step(
                batch,
                query,
                key,
                value,
                config,
                AttentionKind::FlashDecode,
                split,
            )->Ok_0;
            let scoring = step.commands[0];
            let joining = step.commands[1];
            let groups = grid_of(scoring).width as int / split.threads as int;
            let blocks = groups / config.kv_heads as int;
            &&& config.query_heads as int / config.kv_heads as int == 2
            &&& threads(group_of(scoring)) == split.threads
            &&& threads(grid_of(scoring)) == groups * split.threads
            &&& groups == config.kv_heads * blocks
            &&& forall|j: int|
                0 <= j < key.shape[0] && (config.causal ==> j <= config.query_offset)
                    ==> #[trigger] (j / split.block as int) < blocks
            &&& exists|j: int|
                0 <= j < key.shape[0] && (config.causal ==> j <= config.query_offset)
                    && #[trigger] (j / split.block as int) == blocks - 1
            &&& threads(grid_of(joining)) == config.query_heads * split.reduce_threads
            &&& threads(group_of(joining)) == split.reduce_threads
            &&& operands::constants(scoring) == operands::constants(joining)
            &&& operands::constants(scoring) matches Some(Params::Attention { padding, .. })
            &&& padding == split.block
        }),
{
    let available = attention::available_keys(key.shape[0], config);
    let block = split.block as int;
    let blocks = support::ceil_div(available, block);
    let heads = config.kv_heads as int;
    let groups = heads * blocks;
    assert(query.shape.len() == 3 && query.shape[1] > 0);
    let partial = seq![
        config.kv_heads,
        blocks as usize,
        2usize,
        (config.head_dim + 2) as usize,
    ];
    assert(partial[0] > 0 && partial[1] > 0);
    support::groups_reach_every_item(available, block);
    assert(heads > 0);
    assert(available > 0) by {
        if available <= 0 {
            assert(available == 0);
            assert((0 + block - 1) / block == 0) by (nonlinear_arith)
                requires
                    block > 0,
            ;
        }
    }
    assert(blocks >= 1);
    assert(groups >= 1) by (nonlinear_arith)
        requires
            groups == heads * blocks,
            heads >= 1,
            blocks >= 1,
    ;
    lemma_line(groups, split.threads as int);
    vstd::arithmetic::div_mod::lemma_div_multiples_vanish(blocks, heads);
    lemma_threads_of_line(groups * split.threads);
    lemma_threads_of_line(split.threads as int);
    assert forall|j: int|
        0 <= j < key.shape[0] && (config.causal ==> j <= config.query_offset) implies #[trigger] (j
        / block) < blocks by {
        assert(j < available);
        assert(j / block < blocks) by (nonlinear_arith)
            requires
                0 <= j < available,
                block > 0,
                blocks * block >= available,
        ;
    }
    let last = available - 1;
    assert(last / block == blocks - 1) by (nonlinear_arith)
        requires
            block > 0,
            blocks * block < last + 1 + block,
            blocks * block >= last + 1,
    ;
    assert(0 <= last < key.shape[0] && (config.causal ==> last <= config.query_offset));
    let joined = config.query_heads * split.reduce_threads;
    assert(joined >= 0) by (nonlinear_arith)
        requires
            joined == config.query_heads * split.reduce_threads,
            config.query_heads >= 0,
            split.reduce_threads >= 0,
    ;
    lemma_threads_of_line(joined);
    lemma_threads_of_line(split.reduce_threads as int);
}

/// The choice of the largest logit has a group of 256 threads for every 2048 logits, and
/// its second launch joins as many candidates as the first one left.
pub proof fn every_logit_is_compared(batch: BatchModel, logits: TensorModel, output: TensorModel)
    requires
        sampling::argmax_step(batch, logits, output) is Ok,
        logits.len() > 0,
        logits.len() + 524_288 <= usize::MAX,
    ensures
        ({
            let step = sampling::argmax_step(batch, logits, output)->Ok_0;
            let first = step.commands[0];
            let groups = grid_of(first).width as int / 256;
            &&& shares_out(grid_of(first), group_of(first), 256, 2048, logits.len() as int)
            &&& operands::constants(step.commands[1]) == Some(
                Params::Count { count: groups as u32 },
            )
            &&& threads(group_of(step.commands[1])) == 256
            &&& threads(grid_of(step.commands[1])) == 256
        }),
{
    let count = logits.len() as int;
    let groups = support::ceil_div(count, 2048);
    support::groups_reach_every_item(count, 2048);
    assert(groups >= 1);
    assert(groups * 256 <= count + 2048);
    lemma_shares(groups, 256, 2048, count);
    lemma_threads_of_line(256);
}

/// A copy has one thread for each element that is copied.
pub proof fn copied_elements_have_a_thread_each(
    source: TensorModel,
    cache: TensorModel,
    offset: usize,
)
    requires
        kv::copy_into_cache_step(source, cache, offset) is Ok,
        source.len() <= usize::MAX,
    ensures
        threads(grid_of(kv::copy_into_cache_step(source, cache, offset)->Ok_0.commands[0]))
            == source.len(),
{
    lemma_threads_of_line(source.len() as int);
}

/// By the settings of a device, too, a product of several rows is cut into tiles of 32 by
/// 32 that cover it, in a line or in a rectangle of groups, or has one thread for each of
/// its outputs in squares of 16 by 16.
pub proof fn a_product_by_settings_is_covered(settings: SettingsModel, m: usize, n: usize, k: usize)
    requires
        m > 1,
        n > 0,
        command_batch::settings_tiling(settings, m, n, k).fits,
    ensures
        ({
            let tiling = command_batch::settings_tiling(settings, m, n, k);
            let grid = tiling.grid;
            let group = tiling.threadgroup;
            &&& tiling.kernel == "matmul_simd_db_f16"@ ==> tiles(
                grid,
                group,
                m as int,
                n as int,
                32,
            ) && k % 32 == 0
            &&& tiling.kernel == "matmul_simd_f16"@ ==> {
                &&& group == Size { width: 128, height: 1, depth: 1 }
                &&& grid.width == n * 4
                &&& grid.height * 32 == m
                &&& grid.depth == 1
                &&& k % 16 == 0
            }
            &&& tiling.kernel == "matmul_f16"@ ==> {
                &&& group == Size { width: 16, height: 16, depth: 1 }
                &&& grid.width % 16 == 0 && n <= grid.width < n + 16
                &&& grid.height % 16 == 0 && m <= grid.height < m + 16
                &&& grid.depth == 1
            }
        }),
{
    reveal_strlit("matmul_simd_f16");
    reveal_strlit("matmul_simd_db_f16");
    reveal_strlit("matmul_f16");
    assert("matmul_f16"@.len() == 10);
    assert("matmul_simd_f16"@.len() == 15);
    assert("matmul_simd_db_f16"@.len() == 18);
    if settings.native() && m % 32 == 0 && n % 32 == 0 && k % 32 == 0 && (!settings.auto_m4() || (m
        >= 128 && n >= 256 && k >= 256)) {
        let columns = n as int / 32;
        let bands = m as int / 32;
        assert(columns * bands >= 0) by (nonlinear_arith)
            requires
                columns >= 0,
                bands >= 1,
        ;
        lemma_line(columns * bands, 128);
        assert(columns * 32 == n);
        assert(bands * 32 == m);
    } else if settings.matmul_backend == MatmulBackend::NativeMsl && m % 32 == 0 && n % 32 == 0 && k
        % 16 == 0 {
        assert(n as int / 32 * 128 == n * 4);
    } else {
        lemma_rounded(n as int, 16);
        lemma_rounded(m as int, 16);
    }
}

/// What is copied to a cache lies inside it, entry for entry, and a row that is copied to
/// others is one of them and as wide.
pub proof fn copies_stay_inside(source: TensorModel, target: TensorModel, at: usize)
    ensures
        kv::copy_into_cache_step(source, target, at) is Ok ==> {
            &&& source.shape.len() == 3
            &&& target.shape.len() == 3
            &&& at + source.shape[0] <= target.shape[0]
            &&& source.shape[1] == target.shape[1]
            &&& source.shape[2] == target.shape[2]
        },
        kv::copy_row_step(source, target, at) is Ok ==> {
            &&& source.shape == seq![1usize, target.shape[1]]
            &&& target.shape.len() == 2
            &&& at < target.shape[0]
        },
{
    if kv::copy_row_step(source, target, at) is Ok {
        assert(source.shape =~= seq![1usize, target.shape[1]]);
    }
}

} // verus!
