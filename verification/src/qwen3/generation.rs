//! Token generation as decisions between passes.
//!
//! Greedy generation keeps a pass in flight while the token before it is handed
//! out: the next token is decoded on the device before the host has seen the
//! current one. When generation ends early, the tokens that were decoded ahead
//! are forgotten.

use crate::error::{GpuError, ModelError};
use crate::qwen3::kv_cache::{KvCache, KvCacheModel};
use vstd::prelude::*;

verus! {

/// Whether a list holds a number.
pub fn holds(list: &Vec<u32>, number: u32) -> (answer: bool)
    ensures
        answer == list@.contains(number),
{
    let mut i: usize = 0;
    while i < list.len()
        invariant
            i <= list@.len(),
            forall|j: int| 0 <= j < i ==> list@[j] != number,
        decreases list.len() - i,
    {
        if list[i] == number {
            return true;
        }
        i += 1;
    }
    false
}

/// What a greedy run waits for. `previous` is the cache length before a pass
/// that is in flight.
#[allow(inconsistent_fields)]
pub enum Phase {
    /// The token in slot `step`, with a pass on that token perhaps in flight.
    Read { prefetched: Option<usize> },
    /// A pass on `token`, which was just read.
    Submit { token: u32, previous: usize },
    /// The receiver of `token`.
    Emit { pending: Option<usize> },
    /// The pass in flight, after which the run is done.
    Stop { previous: usize },
    /// A pass on the token of the pass in flight.
    SubmitNext { previous: usize, next: usize },
    /// The older pass in flight.
    Settle { previous: usize, next: Option<usize> },
    /// The pass in flight, after which the run fails for want of a token.
    Empty { previous: usize },
    /// The pass in flight, after which the run fails.
    Failing { previous: usize, error: ModelError },
    Finished,
}

/// What the run is told.
pub enum Event {
    Token { token: u32 },
    Submitted,
    SubmitFailed { error: ModelError },
    Continue { wanted: bool },
    Waited { result: Result<(), GpuError> },
}

/// What the run asks for.
pub enum Action {
    /// Read a token slot.
    Read { slot: usize },
    /// Submit a pass from one token slot to another.
    Decode { input: usize, output: usize },
    /// Hand a token out, and ask whether more are wanted.
    Emit { token: u32 },
    /// Wait for the older pass in flight.
    Wait,
    Done,
    /// Give up, after dropping the newer pass in flight if there is one.
    Fail { error: ModelError, discard: bool },
}

/// A greedy generation of at most `max_tokens` tokens.
pub struct GreedyRun {
    pub max_tokens: usize,
    pub stop_token_ids: Vec<u32>,
    pub generated: Vec<u32>,
    pub step: usize,
    pub phase: Phase,
}

#[verifier::ext_equal]
pub struct GreedyModel {
    pub max_tokens: usize,
    pub stop_token_ids: Seq<u32>,
    pub generated: Seq<u32>,
    pub step: usize,
    pub phase: Phase,
}

impl View for GreedyRun {
    type V = GreedyModel;

    open spec fn view(&self) -> GreedyModel {
        GreedyModel {
            max_tokens: self.max_tokens,
            stop_token_ids: self.stop_token_ids@,
            generated: self.generated@,
            step: self.step,
            phase: self.phase,
        }
    }
}

/// A state of the run, what it asks for, and how many tokens the cache holds.
#[verifier::ext_equal]
pub struct Turn {
    pub run: GreedyModel,
    pub action: Action,
    pub filled: usize,
}

impl GreedyModel {
    /// A token is left for the step, and for each pass in flight.
    pub open spec fn wf(self) -> bool {
        &&& self.step < self.max_tokens
        &&& match self.phase {
            Phase::Read { prefetched: Some(_) } => self.step + 1 < self.max_tokens,
            Phase::Submit { .. } => self.step + 1 < self.max_tokens,
            Phase::Emit { pending: Some(_) } => self.step + 1 < self.max_tokens,
            Phase::SubmitNext { .. } => self.step + 2 < self.max_tokens,
            Phase::Settle { next: None, .. } => self.step + 1 < self.max_tokens,
            Phase::Settle { next: Some(_), .. } => self.step + 2 < self.max_tokens,
            _ => true,
        }
    }

    /// The length that a cache may have to go back to is not beyond it.
    pub open spec fn can_go_back(self, filled: usize) -> bool {
        match self.phase {
            Phase::Stop { previous } => previous <= filled,
            Phase::Settle { previous, .. } => previous <= filled,
            Phase::Empty { previous } => previous <= filled,
            Phase::Failing { previous, .. } => previous <= filled,
            _ => true,
        }
    }

    /// Whether the event answers what the run waits for.
    pub open spec fn expects(self, event: Event) -> bool {
        match (self.phase, event) {
            (Phase::Read { .. }, Event::Token { .. }) => true,
            (Phase::Submit { .. }, Event::Submitted) => true,
            (Phase::Submit { .. }, Event::SubmitFailed { .. }) => true,
            (Phase::Emit { .. }, Event::Continue { .. }) => true,
            (Phase::SubmitNext { .. }, Event::Submitted) => true,
            (Phase::SubmitNext { .. }, Event::SubmitFailed { .. }) => true,
            (Phase::Stop { .. }, Event::Waited { .. }) => true,
            (Phase::Settle { .. }, Event::Waited { .. }) => true,
            (Phase::Empty { .. }, Event::Waited { .. }) => true,
            (Phase::Failing { .. }, Event::Waited { .. }) => true,
            _ => false,
        }
    }

    pub open spec fn at(self, phase: Phase) -> GreedyModel {
        GreedyModel { phase, ..self }
    }

    pub open spec fn turn(self, phase: Phase, action: Action, filled: usize) -> Turn {
        Turn { run: self.at(phase), action, filled }
    }

    pub open spec fn failed(self, error: ModelError, discard: bool, filled: usize) -> Turn {
        self.turn(Phase::Finished, Action::Fail { error, discard }, filled)
    }

    /// No more tokens are wanted: a pass in flight is waited for first.
    pub open spec fn stopped(self, pending: Option<usize>, filled: usize) -> Turn {
        match pending {
            Some(previous) => self.turn(Phase::Stop { previous }, Action::Wait, filled),
            None => self.turn(Phase::Finished, Action::Done, filled),
        }
    }

    /// A token was read. One that stops the run is not handed out.
    pub open spec fn received(self, token: u32, pending: Option<usize>, filled: usize) -> Turn {
        if self.stop_token_ids.contains(token) {
            self.stopped(pending, filled)
        } else {
            let run = GreedyModel { generated: self.generated.push(token), ..self };
            run.turn(Phase::Emit { pending }, Action::Emit { token }, filled)
        }
    }

    /// The next state for an event that the run expects.
    pub open spec fn next(self, event: Event, filled: usize) -> Turn {
        match (self.phase, event) {
            (Phase::Read { prefetched }, Event::Token { token }) => if token == u32::MAX {
                match prefetched {
                    Some(previous) => self.turn(Phase::Empty { previous }, Action::Wait, filled),
                    None => self.failed(ModelError::NoFiniteLogit, false, filled),
                }
            } else if self.step + 1 < self.max_tokens && prefetched is None {
                self.turn(
                    Phase::Submit { token, previous: filled },
                    Action::Decode { input: self.step, output: (self.step + 1) as usize },
                    filled,
                )
            } else if self.step + 1 < self.max_tokens {
                self.received(token, prefetched, filled)
            } else {
                self.received(token, None, filled)
            },
            (Phase::Submit { token, previous }, Event::Submitted) => self.received(
                token,
                Some(previous),
                filled,
            ),
            (Phase::Submit { .. }, Event::SubmitFailed { error }) => self.failed(
                error,
                false,
                filled,
            ),
            (Phase::Emit { pending }, Event::Continue { wanted }) => if !wanted {
                self.stopped(pending, filled)
            } else {
                match pending {
                    None => self.turn(Phase::Finished, Action::Done, filled),
                    Some(previous) => if self.step + 2 < self.max_tokens {
                        self.turn(
                            Phase::SubmitNext { previous, next: filled },
                            Action::Decode {
                                input: (self.step + 1) as usize,
                                output: (self.step + 2) as usize,
                            },
                            filled,
                        )
                    } else {
                        self.turn(Phase::Settle { previous, next: None }, Action::Wait, filled)
                    },
                }
            },
            (Phase::SubmitNext { previous, next }, Event::Submitted) => self.turn(
                Phase::Settle { previous, next: Some(next) },
                Action::Wait,
                filled,
            ),
            (Phase::SubmitNext { previous, .. }, Event::SubmitFailed { error }) => self.turn(
                Phase::Failing { previous, error },
                Action::Wait,
                filled,
            ),
            (Phase::Failing { previous, error }, _) => self.failed(error, false, previous),
            (Phase::Settle { previous, next }, Event::Waited { result }) => match result {
                Ok(()) => {
                    let run = GreedyModel { step: (self.step + 1) as usize, ..self };
                    run.turn(
                        Phase::Read { prefetched: next },
                        Action::Read { slot: (self.step + 1) as usize },
                        filled,
                    )
                },
                Err(error) => self.failed(ModelError::Gpu(error), next is Some, previous),
            },
            (Phase::Stop { previous }, Event::Waited { result }) => match result {
                Ok(()) => self.turn(Phase::Finished, Action::Done, previous),
                Err(error) => self.failed(ModelError::Gpu(error), false, previous),
            },
            (Phase::Empty { previous }, Event::Waited { result }) => match result {
                Ok(()) => self.failed(ModelError::NoFiniteLogit, false, previous),
                Err(error) => self.failed(ModelError::Gpu(error), false, previous),
            },
            _ => Turn { run: self, action: Action::Done, filled },
        }
    }

    /// How the cache and the passes in flight go with the phase, once the event
    /// has happened: `start` tokens were there when the run began, one more for
    /// each step, and one more for each pass in flight.
    pub open spec fn in_step(self, event: Event, start: nat, filled: usize) -> bool {
        let base = start + self.step;
        match self.phase {
            Phase::Read { prefetched: None } => filled == base,
            Phase::Read { prefetched: Some(previous) } => {
                &&& previous == base
                &&& filled == base + 1
                &&& self.step + 1 < self.max_tokens
            },
            Phase::Submit { previous, .. } => {
                &&& previous == base
                &&& self.step + 1 < self.max_tokens
                &&& filled == if event is Submitted {
                    base + 1
                } else {
                    base
                }
            },
            Phase::Emit { pending: None } => filled == base && self.step + 1 == self.max_tokens,
            Phase::Emit { pending: Some(previous) } => {
                &&& previous == base
                &&& filled == base + 1
                &&& self.step + 1 < self.max_tokens
            },
            Phase::Stop { previous } => previous == base && filled >= base,
            Phase::SubmitNext { previous, next } => {
                &&& previous == base
                &&& next == base + 1
                &&& self.step + 2 < self.max_tokens
                &&& filled == if event is Submitted {
                    base + 2
                } else {
                    base + 1
                }
            },
            Phase::Settle { previous, next: None } => {
                &&& previous == base
                &&& filled == base + 1
                &&& self.step + 1 < self.max_tokens
            },
            Phase::Settle { previous, next: Some(next) } => {
                &&& previous == base
                &&& next == base + 1
                &&& filled == base + 2
                &&& self.step + 2 < self.max_tokens
            },
            Phase::Empty { previous } => previous == base && filled >= base,
            Phase::Failing { previous, .. } => previous == base && filled >= base,
            Phase::Finished => filled == base,
        }
    }
}

impl GreedyRun {
    /// A run that starts by reading the token that the prompt led to.
    pub fn new(max_tokens: usize, stop_token_ids: Vec<u32>) -> (started: (GreedyRun, Action))
        requires
            max_tokens > 0,
        ensures
            started.0@ == (GreedyModel {
                max_tokens,
                stop_token_ids: stop_token_ids@,
                generated: Seq::empty(),
                step: 0,
                phase: Phase::Read { prefetched: None },
            }),
            started.1 == (Action::Read { slot: 0 }),
    {
        (
            GreedyRun {
                max_tokens,
                stop_token_ids,
                generated: Vec::new(),
                step: 0,
                phase: Phase::Read { prefetched: None },
            },
            Action::Read { slot: 0 },
        )
    }

    fn stop(&mut self, pending: Option<usize>) -> (action: Action)
        ensures
            ({
                let turn = old(self)@.stopped(pending, 0);
                final(self)@ == turn.run && action == turn.action
            }),
    {
        match pending {
            Some(previous) => {
                self.phase = Phase::Stop { previous };
                Action::Wait
            },
            None => {
                self.phase = Phase::Finished;
                Action::Done
            },
        }
    }

    fn receive(&mut self, token: u32, pending: Option<usize>) -> (action: Action)
        ensures
            ({
                let turn = old(self)@.received(token, pending, 0);
                final(self)@ == turn.run && action == turn.action
            }),
    {
        if holds(&self.stop_token_ids, token) {
            self.stop(pending)
        } else {
            self.generated.push(token);
            self.phase = Phase::Emit { pending };
            Action::Emit { token }
        }
    }

    fn fail(&mut self, error: ModelError, discard: bool) -> (action: Action)
        ensures
            ({
                let turn = old(self)@.failed(error, discard, 0);
                final(self)@ == turn.run && action == turn.action
            }),
    {
        self.phase = Phase::Finished;
        Action::Fail { error, discard }
    }

    fn on_token(&mut self, token: u32, prefetched: Option<usize>, filled: usize) -> (action: Action)
        requires
            old(self)@.wf(),
            old(self).phase == (Phase::Read { prefetched }),
        ensures
            ({
                let turn = old(self)@.next(Event::Token { token }, filled);
                final(self)@ == turn.run && action == turn.action && turn.filled == filled
            }),
    {
        if token == u32::MAX {
            return match prefetched {
                Some(previous) => {
                    self.phase = Phase::Empty { previous };
                    Action::Wait
                },
                None => self.fail(ModelError::NoFiniteLogit, false),
            };
        }
        if self.max_tokens - self.step > 1 {
            match prefetched {
                Some(_) => self.receive(token, prefetched),
                None => {
                    self.phase = Phase::Submit { token, previous: filled };
                    Action::Decode { input: self.step, output: self.step + 1 }
                },
            }
        } else {
            self.receive(token, None)
        }
    }

    fn on_continue(&mut self, wanted: bool, pending: Option<usize>, filled: usize) -> (action:
        Action)
        requires
            old(self)@.wf(),
            old(self).phase == (Phase::Emit { pending }),
        ensures
            ({
                let turn = old(self)@.next(Event::Continue { wanted }, filled);
                final(self)@ == turn.run && action == turn.action && turn.filled == filled
            }),
    {
        if !wanted {
            return self.stop(pending);
        }
        match pending {
            None => {
                self.phase = Phase::Finished;
                Action::Done
            },
            Some(previous) => if self.max_tokens - self.step > 2 {
                self.phase = Phase::SubmitNext { previous, next: filled };
                Action::Decode { input: self.step + 1, output: self.step + 2 }
            } else {
                self.phase = Phase::Settle { previous, next: None };
                Action::Wait
            },
        }
    }

    /// Takes an event and says what to do next. Where the run ends early, the
    /// tokens that were decoded ahead are forgotten.
    pub fn handle(&mut self, cache: &mut KvCache, event: Event) -> (action: Action)
        requires
            old(self)@.wf(),
            old(self)@.expects(event),
            old(self)@.can_go_back(old(cache)@.filled),
        ensures
            ({
                let turn = old(self)@.next(event, old(cache)@.filled);
                &&& final(self)@ == turn.run
                &&& action == turn.action
                &&& final(cache)@ == (KvCacheModel { filled: turn.filled, ..old(cache)@ })
            }),
            final(self)@.wf(),
    {
        let mut phase = Phase::Finished;
        std::mem::swap(&mut phase, &mut self.phase);
        let filled: usize = cache.len();
        match (phase, event) {
            (Phase::Read { prefetched }, Event::Token { token }) => {
                self.phase = Phase::Read { prefetched };
                self.on_token(token, prefetched, filled)
            },
            (Phase::Submit { token, previous }, Event::Submitted) => self.receive(
                token,
                Some(previous),
            ),
            (Phase::Submit { .. }, Event::SubmitFailed { error }) => self.fail(error, false),
            (Phase::Emit { pending }, Event::Continue { wanted }) => {
                self.phase = Phase::Emit { pending };
                self.on_continue(wanted, pending, filled)
            },
            (Phase::SubmitNext { previous, next }, Event::Submitted) => {
                self.phase = Phase::Settle { previous, next: Some(next) };
                Action::Wait
            },
            (Phase::SubmitNext { previous, .. }, Event::SubmitFailed { error }) => {
                self.phase = Phase::Failing { previous, error };
                Action::Wait
            },
            (Phase::Failing { previous, error }, _) => {
                cache.truncate(previous);
                self.fail(error, false)
            },
            (Phase::Settle { previous, next }, Event::Waited { result }) => match result {
                Ok(()) => {
                    self.step = self.step + 1;
                    self.phase = Phase::Read { prefetched: next };
                    Action::Read { slot: self.step }
                },
                Err(error) => {
                    cache.truncate(previous);
                    self.fail(ModelError::Gpu(error), next.is_some())
                },
            },
            (Phase::Stop { previous }, Event::Waited { result }) => {
                cache.truncate(previous);
                match result {
                    Ok(()) => {
                        self.phase = Phase::Finished;
                        Action::Done
                    },
                    Err(error) => self.fail(ModelError::Gpu(error), false),
                }
            },
            (Phase::Empty { previous }, Event::Waited { result }) => {
                cache.truncate(previous);
                match result {
                    Ok(()) => self.fail(ModelError::NoFiniteLogit, false),
                    Err(error) => self.fail(ModelError::Gpu(error), false),
                }
            },
            _ => vstd::pervasive::unreached(),
        }
    }
}

/// The cache length that an event meets: one token more if a pass was recorded
/// for it.
pub open spec fn met(action: Action, event: Event, filled: usize) -> int {
    if action is Decode && event is Submitted {
        filled + 1
    } else {
        filled as int
    }
}

/// A run and the cache stay in step: whatever the next event is, the cache
/// holds the tokens of the start, one for each step, and one for each pass in
/// flight.
pub proof fn runs_stay_in_step(run: GreedyModel, event: Event, later: Event, start: nat, filled: usize)
    requires
        run.wf(),
        run.expects(event),
        run.in_step(event, start, filled),
        start + run.max_tokens + 1 <= usize::MAX,
    ensures
        ({
            let turn = run.next(event, filled);
            &&& turn.run.wf()
            &&& turn.run.can_go_back(met(turn.action, later, turn.filled) as usize)
            &&& turn.run.phase is Finished || turn.run.expects(later) ==> turn.run.in_step(
                later,
                start,
                met(turn.action, later, turn.filled) as usize,
            )
        }),
{
}

/// However a run ends, the cache holds the tokens of the start and those of the
/// steps that were completed: what was decoded ahead is gone.
pub proof fn an_ended_run_keeps_no_speculative_token(
    run: GreedyModel,
    event: Event,
    start: nat,
    filled: usize,
)
    requires
        run.wf(),
        run.expects(event),
        run.in_step(event, start, filled),
    ensures
        ({
            let turn = run.next(event, filled);
            turn.run.phase is Finished ==> turn.filled == start + turn.run.step
        }),
{
}

/// Tokens that stop a run are never handed out.
pub proof fn stop_tokens_are_never_generated(run: GreedyModel, event: Event, filled: usize, token: u32)
    requires
        run.expects(event),
        run.stop_token_ids.contains(token),
        !run.generated.contains(token),
    ensures
        ({
            let turn = run.next(event, filled);
            &&& turn.run.stop_token_ids == run.stop_token_ids
            &&& !turn.run.generated.contains(token)
        }),
{
    let turn = run.next(event, filled);
    if turn.run.generated != run.generated {
        let added = turn.run.generated.last();
        assert(turn.run.generated =~= run.generated.push(added));
        assert forall|i: int| 0 <= i < turn.run.generated.len() implies turn.run.generated[i]
            != token by {
            if i < run.generated.len() {
                assert(run.generated.contains(run.generated[i]));
            }
        }
    }
}

/// The tokens of a generation that decodes one token after the other, from
/// `step` on: `tokens` gives the token of each step, `wanted` whether more are
/// wanted once it was handed out.
pub open spec fn sequential_tokens(
    tokens: spec_fn(int) -> u32,
    wanted: spec_fn(int) -> bool,
    stop_token_ids: Seq<u32>,
    max_tokens: int,
    step: int,
) -> Seq<u32>
    decreases max_tokens - step,
{
    if step >= max_tokens || stop_token_ids.contains(tokens(step)) {
        Seq::empty()
    } else if !wanted(step) {
        seq![tokens(step)]
    } else {
        seq![tokens(step)] + sequential_tokens(
            tokens,
            wanted,
            stop_token_ids,
            max_tokens,
            step + 1,
        )
    }
}

/// The step at which such a generation ends, which is how many tokens it
/// decoded.
pub open spec fn sequential_end(
    tokens: spec_fn(int) -> u32,
    wanted: spec_fn(int) -> bool,
    stop_token_ids: Seq<u32>,
    max_tokens: int,
    step: int,
) -> int
    decreases max_tokens - step,
{
    if step + 1 >= max_tokens || stop_token_ids.contains(tokens(step)) || !wanted(step) {
        step
    } else {
        sequential_end(tokens, wanted, stop_token_ids, max_tokens, step + 1)
    }
}

/// What a device without faults answers.
pub open spec fn answer(
    turn: Turn,
    tokens: spec_fn(int) -> u32,
    wanted: spec_fn(int) -> bool,
) -> Event {
    match turn.action {
        Action::Read { slot } => Event::Token { token: tokens(slot as int) },
        Action::Decode { .. } => Event::Submitted,
        Action::Emit { .. } => Event::Continue { wanted: wanted(turn.run.step as int) },
        _ => Event::Waited { result: Ok(()) },
    }
}

/// Events that are left in a step, at most.
pub open spec fn remaining(phase: Phase) -> nat {
    match phase {
        Phase::Read { .. } => 6,
        Phase::Submit { .. } => 5,
        Phase::Emit { .. } => 4,
        Phase::SubmitNext { .. } => 3,
        Phase::Settle { .. } => 2,
        Phase::Finished => 0,
        _ => 1,
    }
}

/// Where a run gets to, on a device without faults.
pub open spec fn driven(
    turn: Turn,
    tokens: spec_fn(int) -> u32,
    wanted: spec_fn(int) -> bool,
) -> Turn
    decreases turn.run.max_tokens - turn.run.step, remaining(turn.run.phase),
{
    let event = answer(turn, tokens, wanted);
    if turn.run.wf() && turn.run.expects(event) {
        driven(
            turn.run.next(event, met(turn.action, event, turn.filled) as usize),
            tokens,
            wanted,
        )
    } else {
        turn
    }
}

/// From a token that is to be read to the end of the run.
proof fn lemma_driven(
    turn: Turn,
    tokens: spec_fn(int) -> u32,
    wanted: spec_fn(int) -> bool,
    start: nat,
)
    requires
        turn.run.wf(),
        turn.run.phase is Read,
        turn.action == (Action::Read { slot: turn.run.step }),
        turn.run.in_step(Event::Token { token: 0 }, start, turn.filled),
        start + turn.run.max_tokens + 1 <= usize::MAX,
        forall|i: int| 0 <= i < turn.run.max_tokens ==> #[trigger] tokens(i) != u32::MAX,
    ensures
        ({
            let run = turn.run;
            let end = driven(turn, tokens, wanted);
            let max_tokens = run.max_tokens as int;
            let stops = run.stop_token_ids;
            &&& end.action is Done
            &&& end.run.generated == run.generated + sequential_tokens(
                tokens,
                wanted,
                stops,
                max_tokens,
                run.step as int,
            )
            &&& end.filled == start + sequential_end(
                tokens,
                wanted,
                stops,
                max_tokens,
                run.step as int,
            )
        }),
    decreases turn.run.max_tokens - turn.run.step,
{
    let run = turn.run;
    let step = run.step as int;
    let max_tokens = run.max_tokens as int;
    let stops = run.stop_token_ids;
    let token = tokens(step);
    let rest = sequential_tokens(tokens, wanted, stops, max_tokens, step + 1);
    reveal_with_fuel(driven, 7);
    reveal_with_fuel(sequential_tokens, 2);
    if stops.contains(token) {
        assert(run.generated + Seq::<u32>::empty() =~= run.generated);
    } else {
        let generated = run.generated.push(token);
        assert(run.generated + seq![token] =~= generated);
        assert(run.generated + (seq![token] + rest) =~= generated + rest);
        if wanted(step) && step + 1 < max_tokens {
            let base = (start + step) as usize;
            let speculative = step + 2 < max_tokens;
            let next = Turn {
                run: GreedyModel {
                    generated,
                    step: (step + 1) as usize,
                    phase: Phase::Read {
                        prefetched: if speculative {
                            Some((base + 1) as usize)
                        } else {
                            None
                        },
                    },
                    ..run
                },
                action: Action::Read { slot: (step + 1) as usize },
                filled: if speculative {
                    (base + 2) as usize
                } else {
                    (base + 1) as usize
                },
            };
            assert(driven(turn, tokens, wanted) == driven(next, tokens, wanted));
            lemma_driven(next, tokens, wanted, start);
        } else if step + 1 >= max_tokens {
            assert(rest =~= Seq::<u32>::empty());
        }
    }
}

/// Decoding ahead changes nothing that a caller sees: on a device without
/// faults, a run hands out the tokens of a generation that decodes one token
/// after the other, and leaves as many tokens in the cache.
pub proof fn decoding_ahead_changes_no_token(
    max_tokens: usize,
    stop_token_ids: Seq<u32>,
    tokens: spec_fn(int) -> u32,
    wanted: spec_fn(int) -> bool,
    start: usize,
)
    requires
        max_tokens > 0,
        start + max_tokens + 1 <= usize::MAX,
        forall|i: int| 0 <= i < max_tokens ==> #[trigger] tokens(i) != u32::MAX,
    ensures
        ({
            let run = GreedyModel {
                max_tokens,
                stop_token_ids,
                generated: Seq::empty(),
                step: 0,
                phase: Phase::Read { prefetched: None },
            };
            let begun = Turn { run, action: Action::Read { slot: 0 }, filled: start };
            let end = driven(begun, tokens, wanted);
            &&& end.action is Done
            &&& end.run.generated == sequential_tokens(
                tokens,
                wanted,
                stop_token_ids,
                max_tokens as int,
                0,
            )
            &&& end.filled == start + sequential_end(
                tokens,
                wanted,
                stop_token_ids,
                max_tokens as int,
                0,
            )
        }),
{
    let run = GreedyModel {
        max_tokens,
        stop_token_ids,
        generated: Seq::empty(),
        step: 0,
        phase: Phase::Read { prefetched: None },
    };
    let begun = Turn { run, action: Action::Read { slot: 0 }, filled: start };
    lemma_driven(begun, tokens, wanted, start as nat);
    let all = sequential_tokens(tokens, wanted, stop_token_ids, max_tokens as int, 0);
    assert(Seq::<u32>::empty() + all =~= all);
}

/// The tokens that were handed out once another was sampled, and whether that
/// one was. A token that stops the run is not.
pub open spec fn received(generated: Seq<u32>, stop_token_ids: Seq<u32>, token: u32) -> (
    Seq<u32>,
    bool,
) {
    if stop_token_ids.contains(token) {
        (generated, false)
    } else {
        (generated.push(token), true)
    }
}

/// Whether another pass follows a token that was handed out.
pub open spec fn goes_on(generated: Seq<u32>, max_tokens: usize, wanted: bool) -> bool {
    wanted && generated.len() < max_tokens
}

/// Generation from logits that the host samples.
pub struct SampledRun {
    pub max_tokens: usize,
    pub stop_token_ids: Vec<u32>,
    pub generated: Vec<u32>,
}

impl SampledRun {
    pub fn new(max_tokens: usize, stop_token_ids: Vec<u32>) -> (run: SampledRun)
        ensures
            run.max_tokens == max_tokens,
            run.stop_token_ids == stop_token_ids,
            run.generated@.len() == 0,
    {
        SampledRun { max_tokens, stop_token_ids, generated: Vec::new() }
    }

    /// Takes a sampled token. One that stops the run is not handed out.
    pub fn receive(&mut self, token: u32) -> (emitted: bool)
        ensures
            (final(self).generated@, emitted) == received(
                old(self).generated@,
                old(self).stop_token_ids@,
                token,
            ),
            final(self).max_tokens == old(self).max_tokens,
            final(self).stop_token_ids == old(self).stop_token_ids,
    {
        if holds(&self.stop_token_ids, token) {
            false
        } else {
            self.generated.push(token);
            true
        }
    }

    /// Whether another pass follows a token that was handed out.
    pub fn continues(&self, wanted: bool) -> (answer: bool)
        ensures
            answer == goes_on(self.generated@, self.max_tokens, wanted),
    {
        wanted && self.generated.len() < self.max_tokens
    }
}

/// What a sampled generation hands out in all, and how many tokens the cache
/// holds at its end, when `tokens` are sampled and `wanted` is answered: each
/// token that it goes on from is decoded.
pub open spec fn sampled(
    generated: Seq<u32>,
    filled: nat,
    tokens: spec_fn(int) -> u32,
    wanted: spec_fn(int) -> bool,
    stop_token_ids: Seq<u32>,
    max_tokens: usize,
) -> (Seq<u32>, nat)
    decreases max_tokens - generated.len(),
{
    let step = generated.len() as int;
    let (longer, emitted) = received(generated, stop_token_ids, tokens(step));
    if emitted && goes_on(longer, max_tokens, wanted(step)) {
        sampled(longer, filled + 1, tokens, wanted, stop_token_ids, max_tokens)
    } else {
        (longer, filled)
    }
}

proof fn lemma_sampled(
    generated: Seq<u32>,
    filled: nat,
    tokens: spec_fn(int) -> u32,
    wanted: spec_fn(int) -> bool,
    stop_token_ids: Seq<u32>,
    max_tokens: usize,
)
    requires
        generated.len() < max_tokens,
    ensures
        ({
            let step = generated.len() as int;
            let max = max_tokens as int;
            let (all, held) = sampled(generated, filled, tokens, wanted, stop_token_ids, max_tokens);
            let end = sequential_end(tokens, wanted, stop_token_ids, max, step);
            &&& all == generated + sequential_tokens(tokens, wanted, stop_token_ids, max, step)
            &&& held == filled + end - step
            &&& step <= end < max
            &&& all.len() == if stop_token_ids.contains(tokens(end)) {
                end
            } else {
                end + 1
            }
        }),
    decreases max_tokens - generated.len(),
{
    let step = generated.len() as int;
    let max = max_tokens as int;
    let token = tokens(step);
    reveal_with_fuel(sequential_tokens, 2);
    if stop_token_ids.contains(token) {
        assert(generated + Seq::<u32>::empty() =~= generated);
    } else {
        let longer = generated.push(token);
        let rest = sequential_tokens(tokens, wanted, stop_token_ids, max, step + 1);
        assert(generated + seq![token] =~= longer);
        assert(generated + (seq![token] + rest) =~= longer + rest);
        if goes_on(longer, max_tokens, wanted(step)) {
            lemma_sampled(longer, filled + 1, tokens, wanted, stop_token_ids, max_tokens);
        } else if step + 1 >= max {
            assert(rest =~= Seq::<u32>::empty());
        }
    }
}

/// A sampled generation hands out the tokens of one that decodes one token after
/// the other. At its end the cache holds the prompt and every token that was
/// handed out, except the last one where that one ended the generation.
pub proof fn the_cache_holds_what_was_handed_out(
    max_tokens: usize,
    stop_token_ids: Seq<u32>,
    tokens: spec_fn(int) -> u32,
    wanted: spec_fn(int) -> bool,
    prompt: nat,
)
    requires
        max_tokens > 0,
    ensures
        ({
            let max = max_tokens as int;
            let (all, held) = sampled(
                Seq::empty(),
                prompt,
                tokens,
                wanted,
                stop_token_ids,
                max_tokens,
            );
            let end = sequential_end(tokens, wanted, stop_token_ids, max, 0);
            &&& all == sequential_tokens(tokens, wanted, stop_token_ids, max, 0)
            &&& held == prompt + end
            &&& held == prompt + all.len() - if stop_token_ids.contains(tokens(end)) {
                0int
            } else {
                1int
            }
        }),
{
    lemma_sampled(Seq::empty(), prompt, tokens, wanted, stop_token_ids, max_tokens);
    let all = sequential_tokens(tokens, wanted, stop_token_ids, max_tokens as int, 0);
    assert(Seq::<u32>::empty() + all =~= all);
}

/// Every pass decodes the token that the pass before it wrote: the first pass reads the
/// slot of the first token, and each one after it the slot that the last one filled, and
/// writes to the slot behind. A slot is read once the pass that fills it is done, in
/// order, and the token that is handed out is the one that is kept.
pub proof fn every_pass_decodes_the_token_of_the_last(
    run: GreedyModel,
    event: Event,
    start: nat,
    filled: usize,
)
    requires
        run.wf(),
        run.expects(event),
        run.in_step(event, start, filled),
        start + run.max_tokens + 1 <= usize::MAX,
    ensures
        ({
            let turn = run.next(event, filled);
            let passes = filled - start;
            &&& turn.action matches Action::Decode { input, output } ==> input == passes && output
                == passes + 1 && output < run.max_tokens
            &&& turn.action matches Action::Read { slot } ==> slot == run.step + 1 && slot
                == turn.run.step && slot <= passes
            &&& turn.action matches Action::Emit { token } ==> turn.run.generated
                == run.generated.push(token) && !run.stop_token_ids.contains(token)
            &&& !(turn.action is Emit) ==> turn.run.generated == run.generated
        }),
{
}

} // verus!
