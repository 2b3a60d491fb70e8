//! A command batch: scratch tensors and the commands that use them.

use crate::error::{GpuError, KernelError};
use crate::gpu::command::{self, Binding, Command, CommandModel, Dispatch, Multiply, Params, Size};
use crate::gpu::profiling::{self, KernelBatchProfile};
use crate::gpu::scratch::{self, ScratchLease, ScratchState, Span};
use crate::gpu::tensor::{self, DType, Place, Storage, Tensor, TensorModel};
use vstd::prelude::*;

verus! {

/// Records commands over scratch memory of one pool.
pub struct Recorder {
    pool: usize,
    scratch: ScratchState,
    log: Vec<Command>,
    profile: Option<KernelBatchProfile>,
    /// The scratch that this batch took and has not given back.
    held: Vec<(usize, Span)>,
    first: Ghost<nat>,
    /// Where every scratch tensor lies that was out since the batch began.
    placed: Ghost<Map<nat, (usize, Span)>>,
}

/// A batch apart from the placement of its scratch tensors.
#[verifier::ext_equal]
pub struct BatchModel {
    pub pool: usize,
    /// Scratch tensors handed out so far by the pool.
    pub issued: nat,
    pub log: Seq<CommandModel>,
    /// Launches so far, while the batch is profiled.
    pub profiled: Option<nat>,
}

/// The effect of an operation that is accepted: the scratch tensors it takes,
/// those of them that it yields, and the commands it records.
#[verifier::ext_equal]
pub struct Step {
    pub issued: nat,
    pub outputs: Seq<TensorModel>,
    pub commands: Seq<CommandModel>,
}

impl BatchModel {
    /// Whether the batch can record so many more launches.
    pub open spec fn has_room(self, launches: nat) -> bool {
        match self.profiled {
            None => true,
            Some(launched) => launches <= profiling::sample_room(launched),
        }
    }

    /// The scratch tensor that comes next, if `before` others come first.
    pub open spec fn fresh(self, before: nat, shape: Seq<usize>, dtype: DType) -> TensorModel {
        TensorModel {
            place: Place::Scratch { pool: self.pool, number: self.issued + before },
            capacity: (tensor::elements(shape) * dtype.spec_size()) as usize,
            offset: 0,
            shape,
            dtype,
        }
    }

    /// Whether the batch can record a command. Only launches take timestamps.
    pub open spec fn accepts(self, command: CommandModel) -> bool {
        command is Multiply || self.has_room(1)
    }

    /// The batch after a command.
    pub open spec fn with(self, command: CommandModel) -> BatchModel {
        BatchModel {
            log: self.log.push(command),
            profiled: match (self.profiled, command) {
                (Some(launched), CommandModel::Dispatch { .. }) => Some(launched + 1),
                _ => self.profiled,
            },
            ..self
        }
    }

    /// The batch after as many of the commands as it accepts, and whether these
    /// are all of them.
    pub open spec fn with_all(self, commands: Seq<CommandModel>) -> (BatchModel, bool)
        decreases commands.len(),
    {
        if commands.len() == 0 {
            (self, true)
        } else if self.accepts(commands[0]) {
            self.with(commands[0]).with_all(commands.drop_first())
        } else {
            (self, false)
        }
    }

    /// The batch after some scratch tensors were handed out.
    pub open spec fn after_issue(self, count: nat) -> BatchModel {
        BatchModel { issued: self.issued + count, ..self }
    }

    /// What comes of an operation: the batch after it, and the tensors it
    /// created or the reason why it failed. An operation that is refused
    /// changes nothing. One that is accepted fails only where a profiled batch
    /// has no room for its launches.
    pub open spec fn run(self, step: Result<Step, KernelError>) -> (
        BatchModel,
        Result<Seq<TensorModel>, KernelError>,
    ) {
        match step {
            Err(error) => (self, Err(error)),
            Ok(step) => {
                let (batch, complete) = self.after_issue(step.issued).with_all(
                    step.commands,
                );
                if complete {
                    (batch, Ok(step.outputs))
                } else {
                    (batch, Err(KernelError::Gpu(GpuError::TooManyProfiledDispatches)))
                }
            },
        }
    }
}

spec fn holds_place(held: Seq<(usize, Span)>, lease: ScratchLease) -> bool {
    exists|h: int|
        0 <= h < held.len() && (#[trigger] held[h]) == (lease.chunk, lease.span)
}

/// Whether a lease of the batch is at a place.
spec fn leased_here(live: Seq<ScratchLease>, place: (usize, Span), first: nat) -> bool {
    exists|l: int|
        0 <= l < live.len() && (#[trigger] live[l]).chunk == place.0 && live[l].span == place.1
            && live[l].number@ >= first
}

/// Why a scratch tensor of this shape cannot be had.
pub open spec fn allocation_error(shape: Seq<usize>, dtype: DType) -> Option<GpuError> {
    if !tensor::filled(shape) {
        Some(GpuError::EmptyShape)
    } else if tensor::elements(shape) > usize::MAX {
        Some(GpuError::ElementCountOverflow)
    } else if tensor::elements(shape) * dtype.spec_size() > usize::MAX {
        Some(GpuError::ByteLengthOverflow)
    } else if !scratch::allocatable((tensor::elements(shape) * dtype.spec_size()) as usize) {
        Some(GpuError::ScratchSizeOverflow)
    } else {
        None
    }
}

/// Whether a scratch tensor of this shape can be had.
pub fn check_allocation(shape: &[usize], dtype: DType) -> (result: Result<usize, GpuError>)
    ensures
        match result {
            Ok(bytes) => {
                &&& allocation_error(shape@, dtype) is None
                &&& bytes == tensor::elements(shape@) * dtype.spec_size()
            },
            Err(error) => allocation_error(shape@, dtype) == Some(error),
        },
{
    let count: usize = match tensor::checked_elements(shape) {
        Ok(count) => count,
        Err(error) => return Err(error),
    };
    let bytes: usize = match count.checked_mul(dtype.size()) {
        Some(bytes) => bytes,
        None => return Err(GpuError::ByteLengthOverflow),
    };
    match scratch::allocation_len(bytes) {
        Ok(_) => Ok(bytes),
        Err(error) => Err(error),
    }
}

/// A place that a batch just took is one more than those that it held.
proof fn lemma_taken_place(before: Recorder, after: Recorder, lease: ScratchLease)
    requires
        before.wf(),
        after.scratch.wf(),
        after.scratch.live@ == before.scratch.live@.push(lease),
        after.held@ == before.held@.push((lease.chunk, lease.span)),
        lease.number@ >= before.first@,
    ensures
        after.held@.no_duplicates(),
        forall|h: int|
            0 <= h < after.held@.len() ==> leased_here(
                after.scratch.live@,
                #[trigger] after.held@[h],
                before.first@,
            ),
{
    let live = before.scratch.live@;
    let now = after.scratch.live@;
    let last = live.len() as int;
    let place = (lease.chunk, lease.span);
    assert(now[last] == lease);
    assert(after.scratch.lease_wf(now[last]));
    assert forall|h: int| 0 <= h < after.held@.len() implies leased_here(
        now,
        #[trigger] after.held@[h],
        before.first@,
    ) && (h < before.held@.len() ==> after.held@[h] != place) by {
        if h < before.held@.len() {
            assert(after.held@[h] == before.held@[h]);
            assert(leased_here(live, before.held@[h], before.first@));
            let l = choose|l: int|
                0 <= l < live.len() && (#[trigger] live[l]).chunk == before.held@[h].0
                    && live[l].span == before.held@[h].1 && live[l].number@ >= before.first@;
            assert(now[l] == live[l]);
            assert(scratch::leases_apart(now[l], now[last]));
        }
    }
    assert forall|h: int, g: int|
        0 <= h < after.held@.len() && 0 <= g < after.held@.len() && h != g implies after.held@[h]
        != after.held@[g] by {
        if h < before.held@.len() && g < before.held@.len() {
            assert(before.held@[h] != before.held@[g]);
        }
    }
}

/// The places that a batch still holds are still leased after one is given back.
proof fn lemma_held_places(before: Recorder, after: Recorder, chunk: usize, span: Span, at: int)
    requires
        before.wf(),
        after.first@ == before.first@,
        0 <= at <= before.held@.len(),
        at < before.held@.len() ==> before.held@[at] == (chunk, span),
        at == before.held@.len() ==> !before.held@.contains((chunk, span)),
        after.held@ == if at < before.held@.len() {
            before.held@.remove(at)
        } else {
            before.held@
        },
        if before.scratch.occupied(chunk, span) {
            exists|l: int|
                0 <= l < before.scratch.live@.len() && before.scratch.live@[l].chunk == chunk
                    && before.scratch.live@[l].span == span && after.scratch.live@
                    == #[trigger] before.scratch.live@.remove(l)
        } else {
            after.scratch == before.scratch
        },
    ensures
        after.held@.no_duplicates(),
        forall|h: int|
            0 <= h < after.held@.len() ==> leased_here(
                after.scratch.live@,
                #[trigger] after.held@[h],
                after.first@,
            ),
{
    let live = before.scratch.live@;
    let now = after.scratch.live@;
    let gone = choose|l: int|
        0 <= l < live.len() && live[l].chunk == chunk && live[l].span == span && now
            == #[trigger] live.remove(l);
    assert forall|h: int| 0 <= h < after.held@.len() implies leased_here(
        now,
        #[trigger] after.held@[h],
        after.first@,
    ) by {
        let o = if h < at {
            h
        } else {
            h + 1
        };
        let old_h = if at < before.held@.len() {
            o
        } else {
            h
        };
        let place = after.held@[h];
        assert(place == before.held@[old_h]);
        assert(place != (chunk, span));
        assert(leased_here(live, before.held@[old_h], before.first@));
        let l = choose|l: int|
            0 <= l < live.len() && (#[trigger] live[l]).chunk == place.0 && live[l].span == place.1
                && live[l].number@ >= before.first@;
        if before.scratch.occupied(chunk, span) {
            let n = if l < gone {
                l
            } else {
                l - 1
            };
            assert(l != gone);
            assert(now[n] == live[l]);
        } else {
            assert(now[l] == live[l]);
        }
    }
    assert forall|h: int, g: int|
        0 <= h < after.held@.len() && 0 <= g < after.held@.len() && h != g implies after.held@[h]
        != after.held@[g] by {
        let oh = if at < before.held@.len() && h >= at {
            h + 1
        } else {
            h
        };
        let og = if at < before.held@.len() && g >= at {
            g + 1
        } else {
            g
        };
        assert(after.held@[h] == before.held@[oh] && after.held@[g] == before.held@[og]);
        assert(before.held@[oh] != before.held@[og]);
    }
}

proof fn lemma_given_back(before: Recorder, after: Recorder, chunk: usize, span: Span, at: int)
    requires
        before.wf(),
        after.scratch.wf(),
        after.first@ == before.first@,
        after.placed@ == before.placed@,
        after.log@ == before.log@,
        after.pool == before.pool,
        after.scratch.issued@ == before.scratch.issued@,
        0 <= at <= before.held@.len(),
        at < before.held@.len() ==> before.held@[at] == (chunk, span),
        at == before.held@.len() ==> !before.held@.contains((chunk, span)),
        after.held@ == if at < before.held@.len() {
            before.held@.remove(at)
        } else {
            before.held@
        },
        if before.scratch.occupied(chunk, span) {
            exists|l: int|
                0 <= l < before.scratch.live@.len() && before.scratch.live@[l].chunk == chunk
                    && before.scratch.live@[l].span == span && after.scratch.live@
                    == #[trigger] before.scratch.live@.remove(l)
        } else {
            after.scratch == before.scratch
        },
    ensures
        after.wf(),
{
    lemma_held_places(before, after, chunk, span, at);
    let old_live = before.scratch.live@;
    let new_live = after.scratch.live@;
    let gone = choose|l: int|
        0 <= l < old_live.len() && old_live[l].chunk == chunk && old_live[l].span == span
            && new_live == #[trigger] old_live.remove(l);
    lemma_leases(before);
    if before.scratch.occupied(chunk, span) {
        scratch::lemma_places_without(old_live, gone);
    }
    assert(after.leases().submap_of(after.placed@));
    assert forall|l: int|
        0 <= l < new_live.len() && (#[trigger] new_live[l]).number@
            >= after.first@ implies holds_place(after.held@, new_live[l]) by {
        let lease = new_live[l];
        let k = if before.scratch.occupied(chunk, span) && l >= gone {
            l + 1
        } else {
            l
        };
        assert(lease == old_live[k]);
        assert(holds_place(before.held@, old_live[k]));
        let h = choose|h: int|
            0 <= h < before.held@.len() && (#[trigger] before.held@[h]) == (lease.chunk, lease.span);
        // The lease that was given back is another one, so its place differs.
        assert((lease.chunk, lease.span) != (chunk, span)) by {
            if (lease.chunk, lease.span) == (chunk, span) {
                assert(before.scratch.occupied(chunk, span));
                assert(k != gone);
                assert(before.scratch.lease_wf(old_live[k]));
                if k < gone {
                    assert(scratch::leases_apart(old_live[k], old_live[gone]));
                } else {
                    assert(scratch::leases_apart(old_live[gone], old_live[k]));
                }
                assert(false);
            }
        }
        let n = if h < at {
            h
        } else {
            h - 1
        };
        if at < before.held@.len() {
            assert(h != at);
            assert(after.held@[n] == before.held@[h]);
        } else {
            assert(after.held@[h] == before.held@[h]);
        }
    }
}

/// Giving back the place of a lease ends that lease and no other.
proof fn lemma_left(before: Recorder, after: Recorder, chunk: usize, span: Span, number: nat)
    requires
        before.wf(),
        before.leases().contains_pair(number, (chunk, span)),
        scratch::returned(before.scratch, after.scratch, chunk, span),
    ensures
        after.leases() == before.leases().remove(number),
{
    let live = before.scratch.live@;
    lemma_leases(before);
    scratch::lemma_places(live, number);
    let own = choose|l: int| 0 <= l < live.len() && (#[trigger] live[l]).number@ == number;
    assert(before.scratch.occupied(chunk, span));
    let gone = choose|l: int|
        0 <= l < live.len() && live[l].chunk == chunk && live[l].span == span
            && after.scratch.live@ == #[trigger] live.remove(l);
    if gone < own {
        assert(scratch::leases_apart(live[gone], live[own]));
        assert(before.scratch.lease_wf(live[own]));
    } else if own < gone {
        assert(scratch::leases_apart(live[own], live[gone]));
        assert(before.scratch.lease_wf(live[own]));
    }
    assert(gone == own);
    scratch::lemma_places_without(live, gone);
}

impl View for Recorder {
    type V = BatchModel;

    closed spec fn view(&self) -> BatchModel {
        BatchModel {
            pool: self.pool,
            issued: self.scratch.issued@,
            log: command::commands(self.log@),
            profiled: match self.profile {
                None => None,
                Some(profile) => Some(profile@.len()),
            },
        }
    }
}

/// The leases from before a number.
pub open spec fn older(leases: Map<nat, (usize, Span)>, first: nat) -> Map<nat, (usize, Span)> {
    leases.restrict(Set::new(|number: nat| number < first))
}

/// Leases with that of a scratch tensor added.
pub open spec fn added(leases: Map<nat, (usize, Span)>, tensor: Tensor) -> Map<
    nat,
    (usize, Span),
> {
    match tensor.stored() {
        Storage::Scratch { chunk, span, number, .. } => leases.insert(number@, (chunk, span)),
        Storage::Device { .. } => leases,
    }
}

/// The leases of a recorder without that of a tensor.
pub open spec fn removed(recorder: Recorder, tensor: Tensor) -> Map<nat, (usize, Span)> {
    match tensor.stored() {
        Storage::Scratch { pool, number, .. } => if pool == recorder@.pool {
            recorder.leases().remove(number@)
        } else {
            recorder.leases()
        },
        Storage::Device { .. } => recorder.leases(),
    }
}

/// Whether a tensor is a scratch tensor of a lease that was not out before.
pub open spec fn is_new(before: Recorder, tensor: Tensor) -> bool {
    tensor.stored() matches Storage::Scratch { pool, number, .. } && pool == before@.pool
        && !before.leases().dom().contains(number@)
}

/// Whether two tensors do not share a lease.
pub open spec fn leased_apart(left: Tensor, right: Tensor) -> bool {
    match (left.stored(), right.stored()) {
        (
            Storage::Scratch { pool, number, .. },
            Storage::Scratch { pool: other_pool, number: other, .. },
        ) => pool != other_pool || number@ != other@,
        _ => true,
    }
}

/// A recorder before and after something that leaves the leases as they are.
pub open spec fn kept(before: Recorder, after: Recorder) -> bool {
    after@.pool == before@.pool && after.leases() =~= before.leases()
}

/// A recorder before and after it handed out a scratch tensor: one more lease is
/// out, and the tensor lies in it.
pub open spec fn took(before: Recorder, after: Recorder, tensor: Tensor) -> bool {
    &&& after@.pool == before@.pool
    &&& is_new(before, tensor)
    &&& after.leases() =~= added(before.leases(), tensor)
}

/// A recorder before and after an operation that yields a tensor: on success
/// its lease is out besides those that were, and else nothing changes.
pub open spec fn took1<E>(before: Recorder, after: Recorder, result: Result<Tensor, E>) -> bool {
    match result {
        Ok(tensor) => took(before, after, tensor),
        Err(_) => kept(before, after),
    }
}

/// The same for two tensors.
pub open spec fn took2<E>(
    before: Recorder,
    after: Recorder,
    result: Result<(Tensor, Tensor), E>,
) -> bool {
    match result {
        Ok((first, second)) => {
            &&& after@.pool == before@.pool
            &&& is_new(before, first)
            &&& is_new(before, second)
            &&& leased_apart(first, second)
            &&& after.leases() =~= added(added(before.leases(), first), second)
        },
        Err(_) => kept(before, after),
    }
}

/// The same for three tensors.
pub open spec fn took3<E>(
    before: Recorder,
    after: Recorder,
    result: Result<(Tensor, Tensor, Tensor), E>,
) -> bool {
    match result {
        Ok((first, second, third)) => {
            &&& after@.pool == before@.pool
            &&& is_new(before, first)
            &&& is_new(before, second)
            &&& is_new(before, third)
            &&& leased_apart(first, second)
            &&& leased_apart(first, third)
            &&& leased_apart(second, third)
            &&& after.leases() =~= added(added(added(before.leases(), first), second), third)
        },
        Err(_) => kept(before, after),
    }
}

/// A recorder before and after something that uses a tensor up and yields
/// another one on success.
pub open spec fn replaced<E>(
    before: Recorder,
    after: Recorder,
    tensor: Tensor,
    result: Result<Tensor, E>,
) -> bool {
    &&& after@.pool == before@.pool
    &&& match result {
        Ok(output) => is_new(before, output) && after.leases() =~= added(
            removed(before, tensor),
            output,
        ),
        Err(_) => after.leases() =~= removed(before, tensor),
    }
}

/// A recorder before and after a tensor is given back. The memory of a scratch
/// tensor of its own pool is free again; of another tensor nothing changes.
pub open spec fn gave_back(before: Recorder, after: Recorder, tensor: Tensor) -> bool {
    &&& after@ == before@
    &&& after.recorded() == before.recorded()
    &&& after.launched() == before.launched()
    &&& after.first_number() == before.first_number()
    &&& tensor.stored().place() == tensor@.place
    &&& after.leases() =~= removed(before, tensor)
    &&& match tensor.stored() {
        Storage::Scratch { pool, chunk, span, .. } => if pool == before@.pool {
            scratch::returned(before.memory(), after.memory(), chunk, span)
        } else {
            after.memory() == before.memory()
        },
        Storage::Device { .. } => after.memory() == before.memory(),
    }
}

/// A scratch tensor that is given back at once leaves the leases that were out
/// before it was taken.
pub proof fn releasing_undoes_taking(
    before: Recorder,
    between: Recorder,
    after: Recorder,
    tensor: Tensor,
)
    requires
        took(before, between, tensor),
        gave_back(between, after, tensor),
    ensures
        after.leases() == before.leases(),
{
    assert(after.leases() =~= before.leases());
}

/// What a recorder holds stays where it is while tensors are taken and others
/// are given back.
pub proof fn held_tensors_stay(before: Recorder, after: Recorder, tensor: Tensor, other: Tensor)
    requires
        before.holds(tensor),
        took(before, after, other) || (gave_back(before, after, other) && leased_apart(
            tensor,
            other,
        )),
    ensures
        after.holds(tensor),
{
}

/// What a recorder keeps is where its pool placed it.
proof fn lemma_kept_is_placed(recorder: Recorder, storage: Storage)
    requires
        recorder.wf(),
        recorder.keeps(storage),
    ensures
        storage_placed(storage, recorder.pool, recorder.placed@),
{
}

proof fn lemma_still_placed(
    command: Command,
    pool: usize,
    before: Map<nat, (usize, Span)>,
    after: Map<nat, (usize, Span)>,
)
    requires
        command_placed(command, pool, before),
        before.submap_of(after),
    ensures
        command_placed(command, pool, after),
{
    assert forall|b: int| 0 <= b < bound(command).len() implies storage_placed(
        (#[trigger] bound(command)[b]).storage,
        pool,
        after,
    ) by {
        assert(storage_placed(bound(command)[b].storage, pool, before));
    }
}

proof fn lemma_leases(recorder: Recorder)
    requires
        recorder.scratch.wf(),
    ensures
        scratch::numbered_apart(recorder.scratch.live@),
        forall|number: nat|
            recorder.leases().dom().contains(number) ==> number < recorder.scratch.issued@,
{
    let live = recorder.scratch.live@;
    assert forall|l: int, m: int| 0 <= l < m < live.len() implies (#[trigger] live[l]).number@ != (
    #[trigger] live[m]).number@ by {
        assert(scratch::leases_apart(live[l], live[m]));
    }
    assert forall|number: nat| recorder.leases().dom().contains(number) implies number
        < recorder.scratch.issued@ by {
        scratch::lemma_places(live, number);
        let l = choose|l: int| 0 <= l < live.len() && (#[trigger] live[l]).number@ == number;
        assert(recorder.scratch.lease_wf(live[l]));
    }
}

/// Whether a storage is where its pool placed it.
pub open spec fn storage_placed(
    storage: Storage,
    own_pool: usize,
    placed: Map<nat, (usize, Span)>,
) -> bool {
    match storage {
        Storage::Scratch { pool, chunk, span, number } => pool == own_pool ==> placed.contains_pair(
            number@,
            (chunk, span),
        ),
        Storage::Device { .. } => true,
    }
}

/// The operands of a command with their placement.
pub open spec fn bound(command: Command) -> Seq<Binding> {
    match command {
        Command::Dispatch(dispatch) => dispatch.bindings@,
        Command::Multiply(multiply) => seq![multiply.left, multiply.right, multiply.result],
    }
}

/// Whether the operands of a command are where their pool placed them.
pub open spec fn command_placed(
    command: Command,
    own_pool: usize,
    placed: Map<nat, (usize, Span)>,
) -> bool {
    forall|b: int|
        0 <= b < bound(command).len() ==> storage_placed(
            (#[trigger] bound(command)[b]).storage,
            own_pool,
            placed,
        )
}

/// A command reads and writes the bytes of the tensors that it was recorded for:
/// an operand that is a tensor of the batch, or of the device, lies where the
/// tensor lies.
pub proof fn commands_use_the_bytes_of_their_tensors(
    recorder: Recorder,
    tensor: Tensor,
    c: int,
    b: int,
)
    requires
        recorder.wf(),
        recorder.holds(tensor),
        tensor@.place matches Place::Scratch { pool, .. } ==> pool == recorder@.pool,
        0 <= c < recorder.recorded().len(),
        0 <= b < bound(recorder.recorded()[c]).len(),
        bound(recorder.recorded()[c])[b]@.place == tensor@.place,
    ensures
        bound(recorder.recorded()[c])[b].storage == tensor.stored(),
{
    let command = recorder.log@[c];
    tensor::lemma_stored(tensor);
    assert(command_placed(command, recorder.pool, recorder.placed@));
    assert(storage_placed(bound(command)[b].storage, recorder.pool, recorder.placed@));
}

impl Recorder {
    pub closed spec fn wf(self) -> bool {
        &&& self.scratch.wf()
        &&& self.first@ <= self.scratch.issued@
        &&& self.leases().submap_of(self.placed@)
        &&& self.held@.no_duplicates()
        &&& forall|h: int|
            0 <= h < self.held@.len() ==> leased_here(
                self.scratch.live@,
                #[trigger] self.held@[h],
                self.first@,
            )
        &&& forall|number: nat|
            #![trigger self.placed@.dom().contains(number)]
            self.placed@.dom().contains(number) ==> number < self.scratch.issued@
        &&& forall|c: int|
            0 <= c < self.log@.len() ==> command_placed(
                #[trigger] self.log@[c],
                self.pool,
                self.placed@,
            )
        &&& forall|l: int|
            0 <= l < self.scratch.live@.len() && (#[trigger] self.scratch.live@[l]).number@
                >= self.first@ ==> holds_place(self.held@, self.scratch.live@[l])
    }

    /// The number of the first scratch tensor that this batch could take.
    pub closed spec fn first_number(self) -> nat {
        self.first@
    }

    /// The scratch memory of the batch.
    pub closed spec fn memory(self) -> ScratchState {
        self.scratch
    }

    /// The leases that are out, by their numbers.
    pub closed spec fn leases(self) -> Map<nat, (usize, Span)> {
        scratch::places(self.scratch.live@)
    }

    /// Whether a storage is still reserved. A pool keeps its own scratch, and
    /// the buffers of the device stay.
    pub open spec fn keeps(self, storage: Storage) -> bool {
        match storage {
            Storage::Scratch { pool, chunk, span, number } => pool == self@.pool
                ==> self.leases().contains_pair(number@, (chunk, span)),
            Storage::Device { .. } => true,
        }
    }

    /// Whether the bytes of a tensor are still reserved.
    pub open spec fn holds(self, tensor: Tensor) -> bool {
        tensor@.place is Scratch ==> self.keeps(tensor.stored())
    }

    /// The kernels launched so far, while the batch is profiled.
    pub closed spec fn launched(self) -> Option<Seq<Seq<char>>> {
        match self.profile {
            None => None,
            Some(profile) => Some(profile@),
        }
    }

    /// The recorded commands with the placement of their operands.
    pub closed spec fn recorded(self) -> Seq<Command> {
        self.log@
    }

    pub fn new(pool: usize, scratch: ScratchState, profiled: bool) -> (recorder: Recorder)
        requires
            scratch.wf(),
        ensures
            recorder.wf(),
            recorder.memory() == scratch,
            recorder.first_number() == scratch.issued@,
            recorder.leases() == scratch::places(scratch.live@),
            recorder.launched() == if profiled {
                Some(Seq::<Seq<char>>::empty())
            } else {
                None
            },
            recorder@ == (BatchModel {
                pool,
                issued: scratch.issued@,
                log: Seq::empty(),
                profiled: if profiled {
                    Some(0)
                } else {
                    None
                },
            }),
    {
        let profile = if profiled {
            Some(KernelBatchProfile::new())
        } else {
            None
        };
        let ghost first = scratch.issued@;
        let ghost places = scratch::places(scratch.live@);
        let recorder = Recorder {
            pool,
            scratch,
            log: Vec::new(),
            profile,
            held: Vec::new(),
            first: Ghost(first),
            placed: Ghost(places),
        };
        assert forall|l: int|
            0 <= l < recorder.scratch.live@.len() && (
            #[trigger] recorder.scratch.live@[l]).number@ >= first implies false by {
            assert(recorder.scratch.lease_wf(recorder.scratch.live@[l]));
        }
        proof {
            lemma_leases(recorder);
            assert(recorder.held@.len() == 0);
            assert(recorder.held@.no_duplicates());
            assert(recorder.leases().submap_of(recorder.placed@));
            assert forall|number: nat| #[trigger] recorder.placed@.dom().contains(
                number,
            ) implies number < recorder.scratch.issued@ by {
                assert(recorder.leases().dom().contains(number));
            }
        }
        assert(recorder@.log =~= Seq::empty());
        recorder
    }

    /// A scratch tensor with undefined contents.
    pub fn empty(&mut self, shape: &[usize], dtype: DType) -> (result: Result<Tensor, GpuError>)
        requires
            old(self).wf(),
        ensures
            final(self).wf(),
            final(self).recorded() == old(self).recorded(),
            final(self).launched() == old(self).launched(),
            match allocation_error(shape@, dtype) {
                Some(error) => {
                    &&& result == Err::<Tensor, GpuError>(error)
                    &&& final(self)@ == old(self)@
                    &&& kept(*old(self), *final(self))
                },
                None => {
                    &&& result is Ok
                    &&& result->Ok_0@ == old(self)@.fresh(0, shape@, dtype)
                    &&& final(self)@ == old(self)@.after_issue(1)
                    &&& took(*old(self), *final(self), result->Ok_0)
                },
            },
    {
        let bytes: usize = match check_allocation(shape, dtype) {
            Ok(bytes) => bytes,
            Err(error) => return Err(error),
        };
        let ghost before = *self;
        match self.scratch.allocate(bytes) {
            Ok(lease) => {
                self.held.push((lease.chunk, lease.span));
                self.placed = Ghost(before.placed@.insert(lease.number@, (lease.chunk, lease.span)));
                assert forall|l: int|
                    0 <= l < self.scratch.live@.len() && (#[trigger] self.scratch.live@[l]).number@
                        >= self.first@ implies holds_place(self.held@, self.scratch.live@[l]) by {
                    if l < before.scratch.live@.len() {
                        assert(self.scratch.live@[l] == before.scratch.live@[l]);
                        let h = choose|h: int|
                            0 <= h < before.held@.len() && (#[trigger] before.held@[h]) == (
                                before.scratch.live@[l].chunk,
                                before.scratch.live@[l].span,
                            );
                        assert(self.held@[h] == before.held@[h]);
                    } else {
                        assert(self.held@[before.held@.len() as int] == (lease.chunk, lease.span));
                    }
                }
                proof {
                    lemma_taken_place(before, *self, lease);
                    lemma_leases(before);
                    assert(self.scratch.live@.drop_last() =~= before.scratch.live@);
                    assert(self.leases() == before.leases().insert(
                        lease.number@,
                        (lease.chunk, lease.span),
                    ));
                    assert(!before.placed@.dom().contains(lease.number@));
                    assert(before.placed@.submap_of(self.placed@));
                    assert(self.leases().submap_of(self.placed@));
                    assert forall|c: int| 0 <= c < self.log@.len() implies command_placed(
                        #[trigger] self.log@[c],
                        self.pool,
                        self.placed@,
                    ) by {
                        assert(command_placed(before.log@[c], before.pool, before.placed@));
                        lemma_still_placed(
                            before.log@[c],
                            self.pool,
                            before.placed@,
                            self.placed@,
                        );
                    }
                }
                Ok(
                    Tensor::scratch(
                        self.pool,
                        lease.chunk,
                        lease.span,
                        lease.number,
                        bytes,
                        tensor::copy_shape(shape),
                        dtype,
                    ),
                )
            },
            Err(error) => Err(error),
        }
    }

    /// Gives back the scratch memory of a tensor that no later command uses.
    pub fn release(&mut self, tensor: Tensor)
        requires
            old(self).wf(),
            old(self).holds(tensor),
        ensures
            final(self).wf(),
            final(self)@ == old(self)@,
            gave_back(*old(self), *final(self), tensor),
    {
        match tensor.storage() {
            Storage::Device { .. } => {},
            Storage::Scratch { pool, chunk, span, number } => {
                if pool == self.pool {
                    let ghost before = *self;
                    self.give_back(chunk, span);
                    proof {
                        lemma_left(before, *self, chunk, span, number@);
                    }
                }
            },
        }
    }

    fn give_back(&mut self, chunk: usize, span: Span)
        requires
            old(self).wf(),
        ensures
            final(self).wf(),
            final(self)@ == old(self)@,
            final(self).first@ == old(self).first@,
            final(self).log@ == old(self).log@,
            final(self).profile == old(self).profile,
            scratch::returned(old(self).scratch, final(self).scratch, chunk, span),
            final(self).held@.len() <= old(self).held@.len(),
            old(self).held@.len() > 0 && old(self).held@[old(self).held@.len() - 1] == (chunk, span)
                ==> final(self).held@.len() < old(self).held@.len(),
    {
        let ghost before = *self;
        self.scratch.release(chunk, span);
        let mut at: usize = 0;
        while at < self.held.len() && !(self.held[at].0 == chunk && self.held[at].1.start
            == span.start && self.held[at].1.end == span.end)
            invariant
                at <= self.held@.len(),
                self.held@ == before.held@,
                forall|h: int| 0 <= h < at ==> (#[trigger] self.held@[h]) != (chunk, span),
            decreases self.held.len() - at,
        {
            at += 1;
        }
        if at < self.held.len() {
            let _ = self.held.remove(at);
        }
        proof {
            lemma_given_back(before, *self, chunk, span, at as int);
        }
    }

    /// Gives up the batch after a failure: every scratch tensor that it took is
    /// free again, and no other.
    pub fn abandon(self) -> (scratch: ScratchState)
        requires
            self.wf(),
        ensures
            scratch.wf(),
            scratch.issued@ == self@.issued,
            scratch.chunks@.len() == self.memory().chunks@.len(),
            forall|c: int|
                0 <= c < scratch.chunks@.len() ==> (#[trigger] scratch.chunks@[c]).len
                    == self.memory().chunks@[c].len,
            forall|l: int|
                0 <= l < scratch.live@.len() ==> (#[trigger] scratch.live@[l]).number@
                    < self.first_number(),
            scratch::places(scratch.live@) == older(self.leases(), self.first_number()),
    {
        let ghost first = self.first@;
        let ghost issued = self@.issued;
        let ghost leases = self.leases();
        let ghost chunks = self.scratch.chunks@;
        let mut batch = self;
        while batch.held.len() > 0
            invariant
                batch.wf(),
                batch.first@ == first,
                batch@.issued == issued,
                older(batch.leases(), first) == older(leases, first),
                batch.scratch.chunks@.len() == chunks.len(),
                forall|c: int|
                    0 <= c < chunks.len() ==> (#[trigger] batch.scratch.chunks@[c]).len
                        == chunks[c].len,
            decreases batch.held@.len(),
        {
            let last: usize = batch.held.len() - 1;
            let (chunk, span) = batch.held[last];
            let ghost before = batch;
            batch.give_back(chunk, span);
            proof {
                let live = before.scratch.live@;
                assert(leased_here(live, before.held@[last as int], first));
                let l = choose|l: int|
                    0 <= l < live.len() && (#[trigger] live[l]).chunk == chunk && live[l].span
                        == span && live[l].number@ >= first;
                let number = live[l].number@;
                lemma_leases(before);
                scratch::lemma_places(live, number);
                lemma_left(before, batch, chunk, span, number);
                assert(older(batch.leases(), first) =~= older(before.leases(), first));
                assert forall|c: int| 0 <= c < chunks.len() implies (
                #[trigger] batch.scratch.chunks@[c]).len == chunks[c].len by {
                    assert(before.scratch.chunks@[c].len == chunks[c].len);
                }
            }
        }
        assert forall|l: int| 0 <= l < batch.scratch.live@.len() implies (
        #[trigger] batch.scratch.live@[l]).number@ < first by {
            if batch.scratch.live@[l].number@ >= first {
                assert(holds_place(batch.held@, batch.scratch.live@[l]));
            }
        }
        proof {
            let live = batch.scratch.live@;
            lemma_leases(batch);
            assert forall|number: nat| #[trigger] batch.leases().dom().contains(number) implies number
                < first by {
                scratch::lemma_places(live, number);
            }
            assert(older(batch.leases(), first) =~= batch.leases());
        }
        batch.scratch
    }

    /// Records a kernel launch.
    pub fn dispatch(
        &mut self,
        kernel: &'static str,
        bindings: Vec<Binding>,
        params: Params,
        grid: Size,
        threadgroup: Size,
    ) -> (result: Result<(), GpuError>)
        requires
            old(self).wf(),
            forall|i: int|
                0 <= i < bindings@.len() ==> old(self).keeps((#[trigger] bindings@[i]).storage),
        ensures
            final(self).wf(),
            kept(*old(self), *final(self)),
            final(self).memory() == old(self).memory(),
            result is Ok <==> old(self)@.has_room(1),
            final(self).launched() == match old(self).launched() {
                Some(kernels) if result is Ok => Some(kernels.push(kernel@)),
                kernels => kernels,
            },
            result is Err ==> result == Err::<(), GpuError>(GpuError::TooManyProfiledDispatches)
                && final(self)@ == old(self)@ && final(self).recorded() == old(self).recorded(),
            result is Ok ==> final(self)@ == old(self)@.with(
                CommandModel::Dispatch {
                    kernel: kernel@,
                    operands: command::operands(bindings@),
                    params,
                    grid,
                    threadgroup,
                },
            ),
            result is Ok ==> final(self).recorded() == old(self).recorded().push(
                Command::Dispatch(
                    Dispatch {
                        kernel,
                        bindings,
                        params,
                        grid,
                        threadgroup,
                        sample: match old(self)@.profiled {
                            None => None,
                            Some(launched) => Some((2 * launched) as usize),
                        },
                    },
                ),
            ),
    {
        let mut profile: Option<KernelBatchProfile> = None;
        std::mem::swap(&mut profile, &mut self.profile);
        let sample = match profile {
            None => None,
            Some(mut profile) => {
                let reserved = profile.reserve(kernel);
                self.profile = Some(profile);
                match reserved {
                    Ok(index) => Some(index),
                    Err(error) => return Err(error),
                }
            },
        };
        let dispatch = Dispatch { kernel, bindings, params, grid, threadgroup, sample };
        let ghost before = self.log@;
        proof {
            assert forall|b: int| 0 <= b < bindings@.len() implies storage_placed(
                (#[trigger] bindings@[b]).storage,
                self.pool,
                self.placed@,
            ) by {
                lemma_kept_is_placed(*old(self), bindings@[b].storage);
            }
            assert(command_placed(Command::Dispatch(dispatch), self.pool, self.placed@));
        }
        self.log.push(Command::Dispatch(dispatch));
        proof {
            assert(command::commands(self.log@) =~= command::commands(before).push(
                CommandModel::Dispatch {
                    kernel: kernel@,
                    operands: command::operands(bindings@),
                    params,
                    grid,
                    threadgroup,
                },
            ));
        }
        Ok(())
    }

    /// Records a product by the system library, which takes no timestamps.
    pub fn multiply(&mut self, multiply: Multiply)
        requires
            old(self).wf(),
            old(self).keeps(multiply.left.storage),
            old(self).keeps(multiply.right.storage),
            old(self).keeps(multiply.result.storage),
        ensures
            final(self).wf(),
            kept(*old(self), *final(self)),
            final(self).memory() == old(self).memory(),
            final(self).launched() == old(self).launched(),
            final(self).recorded() == old(self).recorded().push(Command::Multiply(multiply)),
            final(self)@ == old(self)@.with(Command::Multiply(multiply)@),
    {
        let ghost before = self.log@;
        proof {
            lemma_kept_is_placed(*self, multiply.left.storage);
            lemma_kept_is_placed(*self, multiply.right.storage);
            lemma_kept_is_placed(*self, multiply.result.storage);
            assert(command_placed(Command::Multiply(multiply), self.pool, self.placed@));
        }
        self.log.push(Command::Multiply(multiply));
        proof {
            assert(command::commands(self.log@) =~= command::commands(before).push(
                Command::Multiply(multiply)@,
            ));
        }
    }

    /// Ends the recording: the commands, the profile and the scratch memory.
    pub fn finish(self) -> (parts: (Vec<Command>, Option<KernelBatchProfile>, ScratchState))
        requires
            self.wf(),
        ensures
            command::commands(parts.0@) == self@.log,
            parts.0@ == self.recorded(),
            self@.profiled is Some <==> parts.1 is Some,
            match parts.1 {
                Some(profile) => self.launched() == Some(profile@),
                None => self.launched() is None,
            },
            parts.2 == self.memory(),
            parts.2.wf(),
    {
        (self.log, self.profile, self.scratch)
    }

    pub fn pool(&self) -> (pool: usize)
        ensures
            pool == self@.pool,
    {
        self.pool
    }
}

} // verus!
