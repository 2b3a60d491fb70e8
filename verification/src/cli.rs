//! The decisions of the command line programs: arguments, benchmark runs, and
//! reports.

use crate::error::ModelError;
use crate::gpu::profiling::KernelDispatchProfile;
use crate::planner::{self, Plan};
use crate::qwen3::generation::{Action, Event};
use crate::sampling;
use crate::text;
use vstd::prelude::*;

verus! {

#[derive(Clone, Copy, Debug, Default, PartialEq, Eq, Structural)]
pub enum LogFormat {
    #[default]
    Text,
    Json,
}

/// Why a command failed before or beside the model.
#[derive(Debug)]
pub enum CliError {
    Model(ModelError),
    ContextExceeded,
    InvalidBenchArguments,
    InvalidWorkload,
    NoFiniteLogit,
    TokenIdOverflow,
}

impl CliError {
    /// What the user is told. A failure of the model speaks for itself.
    pub fn message(&self) -> (message: Option<&'static str>)
        ensures
            match self {
                CliError::Model(_) => message is None,
                CliError::ContextExceeded => message is Some && message->0@
                    == "prompt and generated tokens exceed the context"@,
                CliError::InvalidBenchArguments => message is Some && message->0@
                    == "invalid test lengths, iterations, or profile mode (profile requires pg)"@,
                CliError::InvalidWorkload => message is Some && message->0@
                    == "workload requires schema_version=1, nonempty prompt and case_id, and output_tokens-1 forced IDs"@,
                CliError::NoFiniteLogit => message is Some && message->0@
                    == "logits contain no finite value"@,
                CliError::TokenIdOverflow => message is Some && message->0@
                    == "token index does not fit in u32"@,
            },
    {
        match self {
            CliError::Model(_) => None,
            CliError::ContextExceeded => Some("prompt and generated tokens exceed the context"),
            CliError::InvalidBenchArguments => Some(
                "invalid test lengths, iterations, or profile mode (profile requires pg)",
            ),
            CliError::InvalidWorkload => Some(
                "workload requires schema_version=1, nonempty prompt and case_id, and output_tokens-1 forced IDs",
            ),
            CliError::NoFiniteLogit => Some("logits contain no finite value"),
            CliError::TokenIdOverflow => Some("token index does not fit in u32"),
        }
    }
}

/// How a benchmark feeds the tokens of a workload.
#[derive(Clone, Copy, Debug, PartialEq, Eq, Structural)]
pub enum InferenceMode {
    Fixed,
    Autoregressive,
}

impl InferenceMode {
    pub fn name(self) -> (name: &'static str)
        ensures
            name@ == match self {
                InferenceMode::Fixed => "fixed"@,
                InferenceMode::Autoregressive => "autoregressive"@,
            },
    {
        match self {
            InferenceMode::Fixed => "fixed",
            InferenceMode::Autoregressive => "autoregressive",
        }
    }
}

/// A recorded prompt with the tokens that a run feeds.
pub struct Workload {
    pub schema_version: u32,
    pub case_id: String,
    pub prompt_text: String,
    pub prompt_token_ids: Vec<u32>,
    pub forced_decode_ids: Vec<u32>,
    pub output_tokens: usize,
}

impl Workload {
    pub open spec fn valid(self) -> bool {
        &&& self.schema_version == 1
        &&& self.case_id@.len() > 0
        &&& self.prompt_text@.len() > 0
        &&& self.prompt_token_ids@.len() > 0
        &&& self.output_tokens >= 2
        &&& self.forced_decode_ids@.len() == self.output_tokens - 1
    }

    pub fn validate(&self) -> (result: Result<(), CliError>)
        ensures
            result == if self.valid() {
                Ok::<(), CliError>(())
            } else {
                Err(CliError::InvalidWorkload)
            },
    {
        if self.schema_version != 1 || is_empty(self.case_id.as_str()) || is_empty(
            self.prompt_text.as_str(),
        ) || self.prompt_token_ids.len() == 0 || self.output_tokens < 2
            || self.forced_decode_ids.len() != self.output_tokens - 1 {
            return Err(CliError::InvalidWorkload);
        }
        Ok(())
    }

    /// The token that a run feeds after a step: the recorded one, or the one
    /// that was just sampled. Nothing follows the last step.
    pub fn fed_token(&self, mode: InferenceMode, step: usize, sampled: u32) -> (token: Option<u32>)
        requires
            self.valid(),
        ensures
            token == if step + 1 < self.output_tokens {
                Some(
                    match mode {
                        InferenceMode::Fixed => self.forced_decode_ids@[step as int],
                        InferenceMode::Autoregressive => sampled,
                    },
                )
            } else {
                None
            },
    {
        if step < self.output_tokens - 1 {
            Some(
                match mode {
                    InferenceMode::Fixed => self.forced_decode_ids[step],
                    InferenceMode::Autoregressive => sampled,
                },
            )
        } else {
            None
        }
    }
}

fn is_empty(s: &str) -> (answer: bool)
    ensures
        answer == (s@.len() == 0),
{
    proof {
        reveal_strlit("");
        assert(""@ =~= Seq::<char>::empty());
        if s@.len() == 0 {
            assert(s@ =~= ""@);
        }
    }
    text::same(s, "")
}

/// The token with the greatest finite logit, the last of several, as in
/// generation.
pub fn argmax(values: &[u32]) -> (result: Result<u32, CliError>)
    ensures
        match result {
            Ok(token) => sampling::last_greatest(values@, token as int),
            Err(error) => {
                ||| error == CliError::NoFiniteLogit && forall|i: int|
                    0 <= i < values@.len() ==> !sampling::finite(#[trigger] values@[i])
                ||| error == CliError::TokenIdOverflow && exists|at: int|
                    at > u32::MAX && #[trigger] sampling::last_greatest(values@, at)
            },
        },
{
    match sampling::argmax(values) {
        Ok(token) => Ok(token),
        Err(ModelError::NoFiniteLogit) => Err(CliError::NoFiniteLogit),
        Err(_) => Err(CliError::TokenIdOverflow),
    }
}

/// Whether a benchmark has something to measure.
pub fn check_bench(prompt: usize, generate: usize, iterations: usize) -> (result: Result<
    (),
    CliError,
>)
    ensures
        result == if prompt > 0 && generate > 0 && iterations > 0 {
            Ok::<(), CliError>(())
        } else {
            Err(CliError::InvalidBenchArguments)
        },
{
    if prompt == 0 || generate == 0 || iterations == 0 {
        Err(CliError::InvalidBenchArguments)
    } else {
        Ok(())
    }
}

/// Whether a prompt and the tokens that are to follow it fit in the context.
pub fn check_context(prompt: usize, max_tokens: usize, context: usize) -> (result: Result<
    (),
    CliError,
>)
    ensures
        result == if prompt + max_tokens > usize::MAX {
            if context < usize::MAX {
                Err::<(), CliError>(CliError::ContextExceeded)
            } else {
                Ok(())
            }
        } else if prompt + max_tokens > context {
            Err(CliError::ContextExceeded)
        } else {
            Ok(())
        },
{
    if prompt.saturating_add(max_tokens) > context {
        Err(CliError::ContextExceeded)
    } else {
        Ok(())
    }
}

/// The entries of a list that are not the word `list`, in order.
pub open spec fn without_list(with: Seq<Seq<char>>) -> Seq<Seq<char>>
    decreases with.len(),
{
    if with.len() == 0 {
        Seq::empty()
    } else if with.last() == "list"@ {
        without_list(with.drop_last())
    } else {
        without_list(with.drop_last()).push(with.last())
    }
}

/// Parts the overrides from the wish to see the plan.
pub fn split_overrides(with: &Vec<String>) -> (parts: (bool, Vec<String>))
    ensures
        parts.0 == text::string_views(with@).contains("list"@),
        text::string_views(parts.1@) == without_list(text::string_views(with@)),
{
    let ghost all = text::string_views(with@);
    let mut list = false;
    let mut overrides: Vec<String> = Vec::new();
    let mut i: usize = 0;
    assert(all.take(0) =~= Seq::empty());
    assert(text::string_views(overrides@) =~= Seq::empty());
    while i < with.len()
        invariant
            i <= with@.len(),
            all == text::string_views(with@),
            list == all.take(i as int).contains("list"@),
            text::string_views(overrides@) == without_list(all.take(i as int)),
        decreases with.len() - i,
    {
        let ghost shown = all.take(i + 1);
        let ghost before = all.take(i as int);
        assert(shown.drop_last() =~= before);
        assert(shown.last() == with@[i as int]@);
        if text::same(with[i].as_str(), "list") {
            list = true;
            assert(shown[i as int] == "list"@);
        } else {
            let ghost kept = text::string_views(overrides@);
            overrides.push(with[i].clone());
            assert(text::string_views(overrides@) =~= kept.push(with@[i as int]@));
            proof {
                if before.contains("list"@) {
                    let j = choose|j: int| 0 <= j < before.len() && before[j] == "list"@;
                    assert(shown[j] == "list"@);
                }
                if shown.contains("list"@) {
                    let j = choose|j: int| 0 <= j < shown.len() && shown[j] == "list"@;
                    assert(before[j] == "list"@);
                }
            }
        }
        i += 1;
    }
    assert(all.take(i as int) =~= all);
    (list, overrides)
}

/// The listing of a plan, one assignment to a line.
pub open spec fn listing_text(assignments: Seq<Seq<char>>) -> Seq<char>
    decreases assignments.len(),
{
    if assignments.len() == 0 {
        Seq::empty()
    } else {
        listing_text(assignments.drop_last()) + assignments.last() + "\n"@
    }
}

/// The lines that show a plan. Each of them is an override that restores it.
pub fn plan_text(plan: &Plan) -> (out: String)
    ensures
        out@ == listing_text(planner::listed_assignments(plan@)),
{
    let entries = plan.entries();
    let ghost all = planner::listed_assignments(plan@);
    let mut out = String::new();
    let mut i: usize = 0;
    assert(all.take(0) =~= Seq::empty());
    assert(out@ =~= Seq::empty());
    assert(planner::entry_views(entries@).len() == entries@.len());
    while i < entries.len()
        invariant
            i <= entries@.len(),
            planner::entry_views(entries@) == plan@.listing(),
            all == planner::listed_assignments(plan@),
            entries@.len() == all.len(),
            out@ == listing_text(all.take(i as int)),
        decreases entries.len() - i,
    {
        let ghost before = out@;
        assert(planner::entry_views(entries@)[i as int] == (
            entries@[i as int].0@,
            entries@[i as int].1@,
        ));
        out.append(entries[i].0);
        out.append("=");
        out.append(entries[i].1.as_str());
        out.append("\n");
        assert(all.take(i + 1).drop_last() =~= all.take(i as int));
        assert(all.take(i + 1).last() == all[i as int]);
        assert(out@ =~= before + all[i as int] + "\n"@);
        i += 1;
    }
    assert(all.take(i as int) =~= all);
    out
}

/// What a pipelined benchmark run waits for.
pub enum Stage {
    /// The submission of the first pass.
    Submit,
    /// The submission of the pass behind the one in flight.
    SubmitNext,
    /// The older pass in flight, with a newer one behind it or not.
    Settle { next: bool },
    /// The token that the pass wrote.
    Check { next: bool },
    /// The pass in flight, after which the run fails.
    Failing { error: ModelError },
    Finished,
}

/// A benchmark run of a number of passes, each on the token of the one before,
/// with the next one always submitted before the current one is waited for.
pub struct PipelinedDecode {
    pub generate: usize,
    pub step: usize,
    pub stage: Stage,
}

impl PipelinedDecode {
    /// There is a slot for the first token and for the token of each pass.
    pub open spec fn wf(self) -> bool {
        &&& self.generate < usize::MAX
        &&& !(self.stage is Finished) ==> self.step < self.generate
        &&& self.stage is SubmitNext ==> self.step + 1 < self.generate
        &&& self.stage matches Stage::Settle { next } ==> next == (self.step + 1 < self.generate)
        &&& self.stage matches Stage::Check { next } ==> next == (self.step + 1 < self.generate)
    }

    pub open spec fn expects(self, event: Event) -> bool {
        match (self.stage, event) {
            (Stage::Submit, Event::Submitted) => true,
            (Stage::Submit, Event::SubmitFailed { .. }) => true,
            (Stage::SubmitNext, Event::Submitted) => true,
            (Stage::SubmitNext, Event::SubmitFailed { .. }) => true,
            (Stage::Settle { .. }, Event::Waited { .. }) => true,
            (Stage::Failing { .. }, Event::Waited { .. }) => true,
            (Stage::Check { .. }, Event::Token { .. }) => true,
            _ => false,
        }
    }

    /// A pass is in flight: the one behind it follows, unless it is the last.
    pub open spec fn launched(self) -> (PipelinedDecode, Action) {
        if self.step + 1 < self.generate {
            (
                PipelinedDecode { stage: Stage::SubmitNext, ..self },
                Action::Decode {
                    input: (self.step + 1) as usize,
                    output: (self.step + 2) as usize,
                },
            )
        } else {
            (PipelinedDecode { stage: Stage::Settle { next: false }, ..self }, Action::Wait)
        }
    }

    pub open spec fn failed(self, error: ModelError, discard: bool) -> (PipelinedDecode, Action) {
        (PipelinedDecode { stage: Stage::Finished, ..self }, Action::Fail { error, discard })
    }

    /// The run after an event, and what it asks for.
    pub open spec fn after(self, event: Event) -> (PipelinedDecode, Action) {
        match (self.stage, event) {
            (Stage::Submit, Event::Submitted) => self.launched(),
            (Stage::Submit, Event::SubmitFailed { error }) => self.failed(error, false),
            (Stage::SubmitNext, Event::Submitted) => (
                PipelinedDecode { stage: Stage::Settle { next: true }, ..self },
                Action::Wait,
            ),
            (Stage::SubmitNext, Event::SubmitFailed { error }) => (
                PipelinedDecode { stage: Stage::Failing { error }, ..self },
                Action::Wait,
            ),
            (Stage::Failing { error }, _) => self.failed(error, false),
            (Stage::Settle { next }, Event::Waited { result: Err(error) }) => self.failed(
                ModelError::Gpu(error),
                next,
            ),
            (Stage::Settle { next }, _) => (
                PipelinedDecode { stage: Stage::Check { next }, ..self },
                Action::Read { slot: (self.step + 1) as usize },
            ),
            (Stage::Check { next }, Event::Token { token }) => if token == u32::MAX {
                self.failed(ModelError::NoFiniteLogit, next)
            } else {
                let later = PipelinedDecode { step: (self.step + 1) as usize, ..self };
                if next {
                    later.launched()
                } else {
                    (PipelinedDecode { stage: Stage::Finished, ..later }, Action::Done)
                }
            },
            _ => (self, Action::Done),
        }
    }

    pub fn new(generate: usize) -> (started: (PipelinedDecode, Action))
        requires
            generate < usize::MAX,
        ensures
            started.0.wf(),
            started == if generate == 0 {
                (PipelinedDecode { generate, step: 0, stage: Stage::Finished }, Action::Done)
            } else {
                (
                    PipelinedDecode { generate, step: 0, stage: Stage::Submit },
                    Action::Decode { input: 0, output: 1 },
                )
            },
    {
        if generate == 0 {
            (PipelinedDecode { generate, step: 0, stage: Stage::Finished }, Action::Done)
        } else {
            (
                PipelinedDecode { generate, step: 0, stage: Stage::Submit },
                Action::Decode { input: 0, output: 1 },
            )
        }
    }

    fn launch(self) -> (turn: (PipelinedDecode, Action))
        requires
            self.generate < usize::MAX,
            self.step < self.generate,
        ensures
            turn == self.launched(),
            turn.0.wf(),
    {
        let PipelinedDecode { generate, step, .. } = self;
        if step + 1 < generate {
            (
                PipelinedDecode { generate, step, stage: Stage::SubmitNext },
                Action::Decode { input: step + 1, output: step + 2 },
            )
        } else {
            (PipelinedDecode { generate, step, stage: Stage::Settle { next: false } }, Action::Wait)
        }
    }

    /// The run after an event, and what it asks for.
    pub fn handle(self, event: Event) -> (turn: (PipelinedDecode, Action))
        requires
            self.wf(),
            self.expects(event),
        ensures
            turn.0.wf(),
            turn == self.after(event),
    {
        let PipelinedDecode { generate, step, stage } = self;
        match (stage, event) {
            (Stage::Submit, Event::Submitted) => PipelinedDecode {
                generate,
                step,
                stage: Stage::Submit,
            }.launch(),
            (Stage::Submit, Event::SubmitFailed { error }) => (
                PipelinedDecode { generate, step, stage: Stage::Finished },
                Action::Fail { error, discard: false },
            ),
            (Stage::SubmitNext, Event::Submitted) => (
                PipelinedDecode { generate, step, stage: Stage::Settle { next: true } },
                Action::Wait,
            ),
            (Stage::SubmitNext, Event::SubmitFailed { error }) => (
                PipelinedDecode { generate, step, stage: Stage::Failing { error } },
                Action::Wait,
            ),
            (Stage::Failing { error }, Event::Waited { .. }) => (
                PipelinedDecode { generate, step, stage: Stage::Finished },
                Action::Fail { error, discard: false },
            ),
            (Stage::Settle { next }, Event::Waited { result }) => match result {
                Err(error) => (
                    PipelinedDecode { generate, step, stage: Stage::Finished },
                    Action::Fail { error: ModelError::Gpu(error), discard: next },
                ),
                Ok(()) => (
                    PipelinedDecode { generate, step, stage: Stage::Check { next } },
                    Action::Read { slot: step + 1 },
                ),
            },
            (Stage::Check { next }, Event::Token { token }) => if token == u32::MAX {
                (
                    PipelinedDecode { generate, step, stage: Stage::Finished },
                    Action::Fail { error: ModelError::NoFiniteLogit, discard: next },
                )
            } else if next {
                PipelinedDecode { generate, step: step + 1, stage: Stage::Check { next } }.launch()
            } else {
                (
                    PipelinedDecode { generate, step: step + 1, stage: Stage::Finished },
                    Action::Done,
                )
            },
            _ => vstd::pervasive::unreached(),
        }
    }
}

/// A run reads each token behind the pass that wrote it, and no pass reads or
/// writes a slot beyond the one for the last token.
pub proof fn passes_stay_in_their_slots(run: PipelinedDecode, event: Event)
    requires
        run.wf(),
        run.expects(event),
    ensures
        ({
            let (later, action) = run.after(event);
            &&& later.wf()
            &&& action matches Action::Decode { input, output } ==> output == input + 1 && output
                <= run.generate && input == later.step + 1
            &&& action matches Action::Read { slot } ==> slot == run.step + 1 && slot
                <= run.generate
            &&& action is Done ==> later.step == run.generate
        }),
{
}

/// How often a kernel was launched.
pub open spec fn launches_of(dispatches: Seq<KernelDispatchProfile>, kernel: Seq<char>) -> nat
    decreases dispatches.len(),
{
    if dispatches.len() == 0 {
        0
    } else {
        launches_of(dispatches.drop_last(), kernel) + if dispatches.last().kernel@ == kernel {
            1nat
        } else {
            0nat
        }
    }
}

/// How many ticks the launches of a kernel took.
pub open spec fn ticks_of(dispatches: Seq<KernelDispatchProfile>, kernel: Seq<char>) -> nat
    decreases dispatches.len(),
{
    if dispatches.len() == 0 {
        0
    } else {
        ticks_of(dispatches.drop_last(), kernel) + if dispatches.last().kernel@ == kernel {
            dispatches.last().gpu_ticks as nat
        } else {
            0nat
        }
    }
}

/// A kernel of a profile: its launches in each iteration, and its ticks in all
/// of them.
#[derive(Debug)]
pub struct KernelRow {
    pub kernel: String,
    pub calls: usize,
    pub ticks: u128,
}

/// The slower kernel comes first, and of equally slow ones the first by name.
pub open spec fn row_before(a: KernelRow, b: KernelRow) -> bool {
    a.ticks > b.ticks || (a.ticks == b.ticks && text::comes_first(a.kernel@, b.kernel@))
}

pub open spec fn rows_ordered(rows: Seq<KernelRow>) -> bool {
    forall|i: int, j: int|
        0 <= i < j < rows.len() ==> row_before(#[trigger] rows[i], #[trigger] rows[j])
}

/// Each row stands for a kernel that was launched, and each of those has a row.
pub open spec fn rows_complete(
    rows: Seq<KernelRow>,
    dispatches: Seq<KernelDispatchProfile>,
    iterations: nat,
) -> bool {
    &&& forall|i: int|
        0 <= i < rows.len() ==> {
            let row = #[trigger] rows[i];
            &&& launches_of(dispatches, row.kernel@) > 0
            &&& row.calls == launches_of(dispatches, row.kernel@) / iterations
            &&& row.ticks == ticks_of(dispatches, row.kernel@)
        }
    &&& forall|kernel: Seq<char>| #[trigger]
        launches_of(dispatches, kernel) > 0 ==> has_row(rows, kernel)
}

pub open spec fn has_row(rows: Seq<KernelRow>, kernel: Seq<char>) -> bool {
    exists|i: int| 0 <= i < rows.len() && (#[trigger] rows[i]).kernel@ == kernel
}

proof fn lemma_totals_bounded(dispatches: Seq<KernelDispatchProfile>, kernel: Seq<char>)
    ensures
        launches_of(dispatches, kernel) <= dispatches.len(),
        ticks_of(dispatches, kernel) <= dispatches.len() * u64::MAX,
    decreases dispatches.len(),
{
    if dispatches.len() > 0 {
        lemma_totals_bounded(dispatches.drop_last(), kernel);
        assert(dispatches.len() * u64::MAX == (dispatches.len() - 1) * u64::MAX + u64::MAX)
            by (nonlinear_arith);
    }
}

spec fn kernels_distinct(rows: Seq<KernelRow>) -> bool {
    forall|i: int, j: int|
        0 <= i < j < rows.len() ==> (#[trigger] rows[i]).kernel@ != (#[trigger] rows[j]).kernel@
}

/// Counts a launch in.
fn add_launch(
    rows: &mut Vec<KernelRow>,
    dispatch: &KernelDispatchProfile,
    Ghost(before): Ghost<Seq<KernelDispatchProfile>>,
)
    requires
        before.len() < usize::MAX,
        kernels_distinct(old(rows)@),
        rows_complete(old(rows)@, before, 1),
    ensures
        kernels_distinct(final(rows)@),
        rows_complete(final(rows)@, before.push(*dispatch), 1),
{
    let ghost after = before.push(*dispatch);
    let ghost start = rows@;
    proof {
        assert(after.drop_last() =~= before);
        assert(after.last() == *dispatch);
        lemma_totals_bounded(after, dispatch.kernel@);
        assert(after.len() * u64::MAX <= u128::MAX) by (nonlinear_arith)
            requires
                after.len() <= u64::MAX,
        ;
        assert forall|kernel: Seq<char>| kernel != dispatch.kernel@ implies #[trigger] launches_of(
            after,
            kernel,
        ) == launches_of(before, kernel) && ticks_of(after, kernel) == ticks_of(before, kernel) by {}
        assert(launches_of(after, dispatch.kernel@) == launches_of(before, dispatch.kernel@) + 1);
        assert(ticks_of(after, dispatch.kernel@) == ticks_of(before, dispatch.kernel@)
            + dispatch.gpu_ticks);
    }
    let mut at: usize = 0;
    while at < rows.len() && !text::same(rows[at].kernel.as_str(), dispatch.kernel.as_str())
        invariant
            at <= rows@.len(),
            rows@ == start,
            forall|i: int| 0 <= i < at ==> (#[trigger] rows@[i]).kernel@ != dispatch.kernel@,
        decreases rows.len() - at,
    {
        at += 1;
    }
    if at < rows.len() {
        assert(start[at as int].kernel@ == dispatch.kernel@);
        let calls: usize = rows[at].calls + 1;
        let ticks: u128 = rows[at].ticks + dispatch.gpu_ticks as u128;
        let kernel = rows[at].kernel.clone();
        rows.set(at, KernelRow { kernel, calls, ticks });
        proof {
            assert forall|i: int, j: int| 0 <= i < j < rows@.len() implies (
            #[trigger] rows@[i]).kernel@ != (#[trigger] rows@[j]).kernel@ by {
                assert(start[i].kernel@ != start[j].kernel@);
            }
            assert forall|i: int| 0 <= i < rows@.len() implies {
                let row = #[trigger] rows@[i];
                &&& launches_of(after, row.kernel@) > 0
                &&& row.calls == launches_of(after, row.kernel@) / 1
                &&& row.ticks == ticks_of(after, row.kernel@)
            } by {
                let row = start[i];
                assert(launches_of(before, row.kernel@) > 0);
                if i < at {
                    assert(start[i].kernel@ != start[at as int].kernel@);
                } else if i > at {
                    assert(start[at as int].kernel@ != start[i].kernel@);
                }
            }
            assert forall|kernel: Seq<char>| #[trigger] launches_of(after, kernel) > 0 implies has_row(
                rows@,
                kernel,
            ) by {
                if kernel != dispatch.kernel@ {
                    assert(launches_of(before, kernel) > 0);
                    assert(has_row(start, kernel));
                    let i = choose|i: int|
                        0 <= i < start.len() && (#[trigger] start[i]).kernel@ == kernel;
                    assert(rows@[i].kernel@ == kernel);
                } else {
                    assert(rows@[at as int].kernel@ == kernel);
                }
            }
        }
    } else {
        assert(launches_of(before, dispatch.kernel@) == 0) by {
            if launches_of(before, dispatch.kernel@) > 0 {
                assert(has_row(start, dispatch.kernel@));
            }
        }
        proof {
            lemma_no_launch_no_ticks(before, dispatch.kernel@);
        }
        rows.push(
            KernelRow {
                kernel: dispatch.kernel.clone(),
                calls: 1,
                ticks: dispatch.gpu_ticks as u128,
            },
        );
        proof {
            assert forall|i: int| 0 <= i < rows@.len() implies {
                let row = #[trigger] rows@[i];
                &&& launches_of(after, row.kernel@) > 0
                &&& row.calls == launches_of(after, row.kernel@) / 1
                &&& row.ticks == ticks_of(after, row.kernel@)
            } by {
                if i < start.len() {
                    assert(rows@[i] == start[i]);
                    assert(launches_of(before, start[i].kernel@) > 0);
                }
            }
            assert forall|kernel: Seq<char>| #[trigger] launches_of(after, kernel) > 0 implies has_row(
                rows@,
                kernel,
            ) by {
                if kernel != dispatch.kernel@ {
                    assert(launches_of(before, kernel) > 0);
                    assert(has_row(start, kernel));
                    let i = choose|i: int|
                        0 <= i < start.len() && (#[trigger] start[i]).kernel@ == kernel;
                    assert(rows@[i].kernel@ == kernel);
                } else {
                    assert(rows@[start.len() as int].kernel@ == kernel);
                }
            }
        }
    }
}

proof fn lemma_no_launch_no_ticks(dispatches: Seq<KernelDispatchProfile>, kernel: Seq<char>)
    requires
        launches_of(dispatches, kernel) == 0,
    ensures
        ticks_of(dispatches, kernel) == 0,
    decreases dispatches.len(),
{
    if dispatches.len() > 0 {
        lemma_no_launch_no_ticks(dispatches.drop_last(), kernel);
    }
}

fn comes_before(a: &KernelRow, b: &KernelRow) -> (answer: bool)
    ensures
        answer == row_before(*a, *b),
{
    a.ticks > b.ticks || (a.ticks == b.ticks && text::precedes(a.kernel.as_str(), b.kernel.as_str()))
}

proof fn lemma_rows_order(a: KernelRow, b: KernelRow, c: KernelRow)
    ensures
        row_before(a, b) && row_before(b, c) ==> row_before(a, c),
        row_before(a, b) || row_before(b, a) || a.kernel@ == b.kernel@,
{
    text::lemma_order_is_total(a.kernel@, b.kernel@);
    if row_before(a, b) && row_before(b, c) && a.ticks == b.ticks && b.ticks == c.ticks {
        text::lemma_order_is_transitive(a.kernel@, b.kernel@, c.kernel@);
    }
}

/// Puts a row in its place.
fn insert_row(sorted: &mut Vec<KernelRow>, row: KernelRow)
    requires
        rows_ordered(old(sorted)@),
        !has_row(old(sorted)@, row.kernel@),
    ensures
        rows_ordered(final(sorted)@),
        exists|at: int|
            0 <= at <= old(sorted)@.len() && final(sorted)@ == #[trigger] old(sorted)@.insert(
                at,
                row,
            ),
{
    let ghost start = sorted@;
    let mut at: usize = 0;
    while at < sorted.len() && comes_before(&sorted[at], &row)
        invariant
            at <= sorted@.len(),
            sorted@ == start,
            forall|i: int| 0 <= i < at ==> row_before(#[trigger] sorted@[i], row),
        decreases sorted.len() - at,
    {
        at += 1;
    }
    sorted.insert(at, row);
    proof {
        let after = sorted@;
        assert(after == start.insert(at as int, row));
        assert forall|i: int, j: int| 0 <= i < j < after.len() implies row_before(
            #[trigger] after[i],
            #[trigger] after[j],
        ) by {
            if j == at {
                assert(after[i] == start[i]);
            } else if i == at {
                assert(after[j] == start[j - 1]);
                assert(start[at as int].kernel@ != row.kernel@);
                lemma_rows_order(row, start[at as int], start[j - 1]);
                if j - 1 > at {
                    assert(row_before(start[at as int], start[j - 1]));
                }
            } else {
                let oi = if i < at {
                    i
                } else {
                    i - 1
                };
                let oj = if j < at {
                    j
                } else {
                    j - 1
                };
                assert(after[i] == start[oi] && after[j] == start[oj]);
            }
        }
    }
}

/// The kernels of a profile, the slowest first.
pub fn kernel_rows(dispatches: &Vec<KernelDispatchProfile>, iterations: usize) -> (rows: Vec<
    KernelRow,
>)
    requires
        iterations > 0,
    ensures
        rows_ordered(rows@),
        rows_complete(rows@, dispatches@, iterations as nat),
{
    let mut totals: Vec<KernelRow> = Vec::new();
    let mut i: usize = 0;
    assert(dispatches@.take(0) =~= Seq::empty());
    while i < dispatches.len()
        invariant
            i <= dispatches@.len(),
            kernels_distinct(totals@),
            rows_complete(totals@, dispatches@.take(i as int), 1),
        decreases dispatches.len() - i,
    {
        add_launch(&mut totals, &dispatches[i], Ghost(dispatches@.take(i as int)));
        assert(dispatches@.take(i as int).push(dispatches@[i as int]) =~= dispatches@.take(i + 1));
        i += 1;
    }
    assert(dispatches@.take(i as int) =~= dispatches@);
    let mut rows: Vec<KernelRow> = Vec::new();
    let mut n: usize = 0;
    while n < totals.len()
        invariant
            iterations > 0,
            n <= totals@.len(),
            rows@.len() == n,
            kernels_distinct(totals@),
            rows_complete(totals@, dispatches@, 1),
            rows_ordered(rows@),
            forall|j: int|
                0 <= j < rows@.len() ==> {
                    let row = #[trigger] rows@[j];
                    &&& launches_of(dispatches@, row.kernel@) > 0
                    &&& row.calls == launches_of(dispatches@, row.kernel@) / iterations as nat
                    &&& row.ticks == ticks_of(dispatches@, row.kernel@)
                },
            forall|kernel: Seq<char>| #[trigger]
                has_row(rows@, kernel) <==> has_row(totals@.take(n as int), kernel),
        decreases totals.len() - n,
    {
        let ghost before = rows@;
        let ghost shown = totals@.take(n as int);
        let ghost name = totals@[n as int].kernel@;
        let row = KernelRow {
            kernel: totals[n].kernel.clone(),
            calls: totals[n].calls / iterations,
            ticks: totals[n].ticks,
        };
        assert(!has_row(before, name)) by {
            if has_row(shown, name) {
                let j = choose|j: int| 0 <= j < shown.len() && (#[trigger] shown[j]).kernel@ == name;
                assert(totals@[j].kernel@ != totals@[n as int].kernel@);
            }
        }
        let ghost added = row;
        insert_row(&mut rows, row);
        proof {
            let at = choose|at: int|
                0 <= at <= before.len() && rows@ == #[trigger] before.insert(at, added);
            let after = rows@;
            assert forall|j: int| 0 <= j < after.len() implies {
                let row = #[trigger] after[j];
                &&& launches_of(dispatches@, row.kernel@) > 0
                &&& row.calls == launches_of(dispatches@, row.kernel@) / iterations as nat
                &&& row.ticks == ticks_of(dispatches@, row.kernel@)
            } by {
                if j < at {
                    assert(after[j] == before[j]);
                } else if j > at {
                    assert(after[j] == before[j - 1]);
                } else {
                    assert(after[j] == added);
                }
            }
            let longer = totals@.take(n + 1);
            assert forall|kernel: Seq<char>| #[trigger] has_row(after, kernel) <==> has_row(
                longer,
                kernel,
            ) by {
                if has_row(after, kernel) {
                    let j = choose|j: int|
                        0 <= j < after.len() && (#[trigger] after[j]).kernel@ == kernel;
                    if j == at {
                        assert(longer[n as int].kernel@ == kernel);
                    } else {
                        let b = if j < at {
                            j
                        } else {
                            j - 1
                        };
                        assert(before[b].kernel@ == kernel);
                        assert(has_row(before, kernel));
                        let t = choose|t: int|
                            0 <= t < shown.len() && (#[trigger] shown[t]).kernel@ == kernel;
                        assert(longer[t].kernel@ == kernel);
                    }
                }
                if has_row(longer, kernel) {
                    let t = choose|t: int|
                        0 <= t < longer.len() && (#[trigger] longer[t]).kernel@ == kernel;
                    if t == n {
                        assert(after[at].kernel@ == kernel);
                    } else {
                        assert(shown[t].kernel@ == kernel);
                        assert(has_row(shown, kernel));
                        assert(has_row(before, kernel));
                        let b = choose|b: int|
                            0 <= b < before.len() && (#[trigger] before[b]).kernel@ == kernel;
                        if b < at {
                            assert(after[b].kernel@ == kernel);
                        } else {
                            assert(after[b + 1].kernel@ == kernel);
                        }
                    }
                }
            }
        }
        n += 1;
    }
    assert(totals@.take(n as int) =~= totals@);
    rows
}

/// No kernel has two rows in a profile.
pub proof fn each_kernel_has_one_row(
    rows: Seq<KernelRow>,
    dispatches: Seq<KernelDispatchProfile>,
    iterations: nat,
    i: int,
    j: int,
)
    requires
        rows_ordered(rows),
        rows_complete(rows, dispatches, iterations),
        0 <= i < j < rows.len(),
    ensures
        rows[i].kernel@ != rows[j].kernel@,
{
    assert(row_before(rows[i], rows[j]));
    if rows[i].kernel@ == rows[j].kernel@ {
        text::lemma_order_is_irreflexive(rows[i].kernel@);
    }
}

/// The overrides of a list are its entries but for the word `list`, in order: those of two
/// lists are those of the first and then those of the second.
pub proof fn overrides_keep_their_order(
    left: Seq<Seq<char>>,
    right: Seq<Seq<char>>,
    entry: Seq<char>,
)
    ensures
        without_list(left + right) == without_list(left) + without_list(right),
        without_list(seq![entry]) == if entry == "list"@ {
            Seq::<Seq<char>>::empty()
        } else {
            seq![entry]
        },
    decreases right.len(),
{
    reveal_with_fuel(without_list, 2);
    assert(seq![entry].drop_last() =~= Seq::empty());
    assert(without_list(seq![entry]) =~= if entry == "list"@ {
        Seq::<Seq<char>>::empty()
    } else {
        seq![entry]
    });
    if right.len() == 0 {
        assert(left + right =~= left);
        assert(without_list(left) + without_list(right) =~= without_list(left));
    } else {
        overrides_keep_their_order(left, right.drop_last(), entry);
        assert((left + right).drop_last() =~= left + right.drop_last());
        assert((left + right).last() == right.last());
        assert(without_list(left + right) =~= without_list(left) + without_list(right));
    }
}

/// The launches and the ticks of a kernel add up over profiles that follow each other, and
/// each launch counts for its own kernel alone.
pub proof fn launches_and_ticks_add_up(
    left: Seq<KernelDispatchProfile>,
    right: Seq<KernelDispatchProfile>,
    one: KernelDispatchProfile,
    kernel: Seq<char>,
)
    ensures
        launches_of(left + right, kernel) == launches_of(left, kernel) + launches_of(right, kernel),
        ticks_of(left + right, kernel) == ticks_of(left, kernel) + ticks_of(right, kernel),
        launches_of(seq![one], kernel) == if one.kernel@ == kernel {
            1nat
        } else {
            0nat
        },
        ticks_of(seq![one], kernel) == if one.kernel@ == kernel {
            one.gpu_ticks as nat
        } else {
            0nat
        },
    decreases right.len(),
{
    reveal_with_fuel(launches_of, 2);
    reveal_with_fuel(ticks_of, 2);
    assert(seq![one].drop_last() =~= Seq::empty());
    if right.len() == 0 {
        assert(left + right =~= left);
    } else {
        launches_and_ticks_add_up(left, right.drop_last(), one, kernel);
        assert((left + right).drop_last() =~= left + right.drop_last());
        assert((left + right).last() == right.last());
    }
}

/// The lines of a listing stand in the order of their assignments, each closed by a line
/// break.
pub proof fn listed_lines_stand_in_order(left: Seq<Seq<char>>, right: Seq<Seq<char>>, line: Seq<char>)
    ensures
        listing_text(left + right) == listing_text(left) + listing_text(right),
        listing_text(seq![line]) == line + "\n"@,
    decreases right.len(),
{
    reveal_with_fuel(listing_text, 2);
    assert(seq![line].drop_last() =~= Seq::empty());
    assert(listing_text(seq![line]) =~= line + "\n"@);
    if right.len() == 0 {
        assert(left + right =~= left);
        assert(listing_text(left) + listing_text(right) =~= listing_text(left));
    } else {
        listed_lines_stand_in_order(left, right.drop_last(), line);
        assert((left + right).drop_last() =~= left + right.drop_last());
        assert((left + right).last() == right.last());
        assert(listing_text(left + right) =~= listing_text(left) + listing_text(right));
    }
}

} // verus!
