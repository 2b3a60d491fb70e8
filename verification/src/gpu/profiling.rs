//! Timestamps of profiled batches.

use crate::error::GpuError;
use vstd::prelude::*;

verus! {

/// Timestamps that one sample buffer holds: two for each launch.
pub const PROFILE_SAMPLE_CAPACITY: usize = 2048;

/// How long a batch took, in nanoseconds.
#[derive(Clone, Copy, Debug, PartialEq, Eq, Structural)]
pub struct DispatchStats {
    pub gpu_time: u128,
    pub wall_time: u128,
}

/// How long one launch of a kernel took on the device, in ticks of its clock.
#[derive(Clone, Debug, PartialEq, Eq)]
pub struct KernelDispatchProfile {
    pub kernel: String,
    pub gpu_ticks: u64,
}

/// The kernels of a profiled batch, in launch order.
pub struct KernelBatchProfile {
    pub kernels: Vec<String>,
}

pub open spec fn names(kernels: Seq<String>) -> Seq<Seq<char>> {
    kernels.map_values(|name: String| name@)
}

impl View for KernelBatchProfile {
    type V = Seq<Seq<char>>;

    open spec fn view(&self) -> Seq<Seq<char>> {
        names(self.kernels@)
    }
}

/// Launches that still have room for their two timestamps.
pub open spec fn sample_room(launched: nat) -> nat {
    if launched * 2 <= PROFILE_SAMPLE_CAPACITY {
        ((PROFILE_SAMPLE_CAPACITY - launched * 2) / 2) as nat
    } else {
        0
    }
}

/// A start and an end that the device did write, in order.
pub open spec fn usable_timestamps(start: u64, end: u64) -> bool {
    start != 0 && end != 0 && start != u64::MAX && end != u64::MAX && start <= end
}

/// Whether the two timestamps of a launch are usable.
pub open spec fn launch_usable(samples: Seq<u64>, launch: int) -> bool {
    usable_timestamps(samples[2 * launch], samples[2 * launch + 1])
}

impl KernelBatchProfile {
    pub fn new() -> (profile: KernelBatchProfile)
        ensures
            profile@ == Seq::<Seq<char>>::empty(),
    {
        let profile = KernelBatchProfile { kernels: Vec::new() };
        assert(profile@ =~= Seq::empty());
        profile
    }

    /// Takes the next two timestamps for a launch of `kernel`.
    pub fn reserve(&mut self, kernel: &str) -> (result: Result<usize, GpuError>)
        ensures
            match result {
                Ok(index) => {
                    &&& sample_room(old(self)@.len()) > 0
                    &&& index == 2 * old(self)@.len()
                    &&& final(self)@ == old(self)@.push(kernel@)
                },
                Err(error) => {
                    &&& sample_room(old(self)@.len()) == 0
                    &&& error == GpuError::TooManyProfiledDispatches
                    &&& final(self)@ == old(self)@
                },
            },
    {
        let count: usize = self.kernels.len();
        if count >= PROFILE_SAMPLE_CAPACITY / 2 {
            return Err(GpuError::TooManyProfiledDispatches);
        }
        self.kernels.push(kernel.to_owned());
        assert(self@ =~= old(self)@.push(kernel@));
        Ok(count * 2)
    }

    /// Reads the time of every launch from the resolved timestamps. `None`
    /// stands for a buffer that the device could not resolve.
    pub fn resolve(&self, samples: Option<&Vec<u64>>) -> (result: Result<
        Vec<KernelDispatchProfile>,
        GpuError,
    >)
        ensures
            self@.len() == 0 ==> result is Ok && result->Ok_0@.len() == 0,
            self@.len() > 0 ==> match samples {
                None => result == Err::<Vec<KernelDispatchProfile>, GpuError>(
                    GpuError::TimestampResolution,
                ),
                Some(samples) => if samples@.len() != self@.len() * 2 {
                    result == Err::<Vec<KernelDispatchProfile>, GpuError>(
                        GpuError::TimestampBufferSize,
                    )
                } else if forall|i: int|
                    0 <= i < self@.len() ==> #[trigger] launch_usable(samples@, i) {
                    &&& result is Ok
                    &&& result->Ok_0@.len() == self@.len()
                    &&& forall|i: int|
                        0 <= i < self@.len() ==> (#[trigger] result->Ok_0@[i]).kernel@ == self@[i]
                            && result->Ok_0@[i].gpu_ticks == samples@[2 * i + 1] - samples@[2 * i]
                } else {
                    result == Err::<Vec<KernelDispatchProfile>, GpuError>(
                        GpuError::InvalidTimestamps,
                    )
                },
            },
    {
        let count: usize = self.kernels.len();
        if count == 0 {
            return Ok(Vec::new());
        }
        let timestamps = match samples {
            Some(timestamps) => timestamps,
            None => return Err(GpuError::TimestampResolution),
        };
        if timestamps.len() % 2 != 0 || timestamps.len() / 2 != count {
            return Err(GpuError::TimestampBufferSize);
        }
        let limit: usize = timestamps.len();
        let mut profiles: Vec<KernelDispatchProfile> = Vec::new();
        let mut i: usize = 0;
        while i < count
            invariant
                samples == Some(timestamps),
                limit == count * 2,
                i <= count,
                count == self.kernels@.len(),
                timestamps@.len() == count * 2,
                profiles@.len() == i,
                forall|j: int|
                    0 <= j < i ==> #[trigger] launch_usable(timestamps@, j),
                forall|j: int|
                    0 <= j < i ==> (#[trigger] profiles@[j]).kernel@ == self@[j]
                        && profiles@[j].gpu_ticks == timestamps@[2 * j + 1] - timestamps@[2 * j],
            decreases count - i,
        {
            let start: u64 = timestamps[i * 2];
            let end: u64 = timestamps[i * 2 + 1];
            if start == 0 || end == 0 || start == u64::MAX || end == u64::MAX || end < start {
                assert(!launch_usable(timestamps@, i as int));
                return Err(GpuError::InvalidTimestamps);
            }
            profiles.push(
                KernelDispatchProfile { kernel: self.kernels[i].clone(), gpu_ticks: end - start },
            );
            i += 1;
        }
        Ok(profiles)
    }
}

/// The spans of the host clock and the device clock between two samples that
/// were taken together. Their ratio is the length of a device tick.
pub fn calibrate(cpu_start: u64, gpu_start: u64, cpu_end: u64, gpu_end: u64) -> (result: Result<
    (u64, u64),
    GpuError,
>)
    ensures
        match result {
            Ok((cpu, gpu)) => {
                &&& cpu == cpu_end - cpu_start
                &&& gpu == gpu_end - gpu_start
                &&& cpu > 0
                &&& gpu > 0
            },
            Err(error) => {
                &&& error == GpuError::TimestampCalibration
                &&& cpu_end <= cpu_start || gpu_end <= gpu_start
            },
        },
{
    if cpu_end <= cpu_start || gpu_end <= gpu_start {
        return Err(GpuError::TimestampCalibration);
    }
    Ok((cpu_end - cpu_start, gpu_end - gpu_start))
}

/// The timing of the kernels of a context: the spans that calibrate the device
/// clock while it is on, and what was measured.
pub struct Profiler {
    pub calibration: Option<(u64, u64)>,
    pub profiles: Vec<KernelDispatchProfile>,
}

/// The kernels that were measured.
pub open spec fn kernels(profiles: Seq<KernelDispatchProfile>) -> Seq<Seq<char>> {
    profiles.map_values(|profile: KernelDispatchProfile| profile.kernel@)
}

/// What can happen to a profiler.
pub enum ProfilingStep {
    Start,
    Stop,
    /// A batch that launched these kernels is added.
    Batch(Seq<Seq<char>>),
    /// A batch is not added: its timestamps are unusable, or timing is off.
    Refused,
}

/// A profiler before and after a step, as `enable`, `disable` and `record` have
/// it.
pub open spec fn stepped(before: Profiler, after: Profiler, step: ProfilingStep) -> bool {
    match step {
        ProfilingStep::Start => after.calibration is Some && after.profiles@.len() == 0,
        ProfilingStep::Stop => after.calibration is None && after.profiles@ == before.profiles@,
        ProfilingStep::Batch(launched) => {
            &&& before.calibration is Some
            &&& after.calibration == before.calibration
            &&& kernels(after.profiles@) == kernels(before.profiles@) + launched
        },
        ProfilingStep::Refused => {
            &&& after.calibration == before.calibration
            &&& after.profiles@ == before.profiles@
        },
    }
}

/// The launches of the batches that were added since the last start, in order.
pub open spec fn measured(steps: Seq<ProfilingStep>) -> Seq<Seq<char>>
    decreases steps.len(),
{
    if steps.len() == 0 {
        Seq::empty()
    } else {
        match steps.last() {
            ProfilingStep::Start => Seq::empty(),
            ProfilingStep::Batch(launched) => measured(steps.drop_last()) + launched,
            _ => measured(steps.drop_last()),
        }
    }
}

/// A profiler holds the launches of the batches since timing started, in the
/// order in which they were launched, and nothing from before. While timing is
/// off, none are added.
pub proof fn profiles_are_the_launches_in_order(
    states: Seq<Profiler>,
    steps: Seq<ProfilingStep>,
    at: int,
)
    requires
        states.len() == steps.len() + 1,
        states[0].profiles@.len() == 0,
        forall|i: int|
            0 <= i < steps.len() ==> stepped(states[i], states[i + 1], #[trigger] steps[i]),
        0 <= at < steps.len(),
    ensures
        kernels(states.last().profiles@) == measured(steps),
        states[at].calibration is None ==> !(steps[at] is Batch),
{
    assert(stepped(states[at], states[at + 1], steps[at]));
    lemma_measured(states, steps);
}

proof fn lemma_measured(states: Seq<Profiler>, steps: Seq<ProfilingStep>)
    requires
        states.len() == steps.len() + 1,
        states[0].profiles@.len() == 0,
        forall|i: int|
            0 <= i < steps.len() ==> stepped(states[i], states[i + 1], #[trigger] steps[i]),
    ensures
        kernels(states.last().profiles@) == measured(steps),
    decreases steps.len(),
{
    if steps.len() == 0 {
        assert(kernels(states[0].profiles@) =~= Seq::empty());
    } else {
        let last = steps.len() - 1;
        let before = states.drop_last();
        let fewer = steps.drop_last();
        assert forall|i: int| 0 <= i < fewer.len() implies stepped(
            before[i],
            before[i + 1],
            #[trigger] fewer[i],
        ) by {
            assert(fewer[i] == steps[i]);
        }
        lemma_measured(before, fewer);
        assert(stepped(states[last], states[last + 1], steps[last]));
        assert(kernels(states.last().profiles@) =~= measured(steps));
    }
}

/// Why a device cannot time its kernels. `timestamps` tells whether one of its
/// counter sets holds timestamps, if it has any sets.
pub open spec fn counter_error(stage_boundary: bool, timestamps: Option<bool>) -> Option<GpuError> {
    if !stage_boundary {
        Some(GpuError::StageBoundaryCountersUnsupported)
    } else {
        match timestamps {
            None => Some(GpuError::NoCounterSets),
            Some(false) => Some(GpuError::NoTimestampCounterSet),
            Some(true) => None,
        }
    }
}

/// Whether a device can time its kernels.
pub fn check_counters(stage_boundary: bool, timestamps: Option<bool>) -> (result: Result<
    (),
    GpuError,
>)
    ensures
        result == match counter_error(stage_boundary, timestamps) {
            Some(error) => Err::<(), GpuError>(error),
            None => Ok(()),
        },
{
    if !stage_boundary {
        return Err(GpuError::StageBoundaryCountersUnsupported);
    }
    match timestamps {
        None => Err(GpuError::NoCounterSets),
        Some(has_timestamps) => if has_timestamps {
            Ok(())
        } else {
            Err(GpuError::NoTimestampCounterSet)
        },
    }
}

impl Profiler {
    pub fn new() -> (profiler: Profiler)
        ensures
            profiler.calibration is None,
            profiler.profiles@ == Seq::<KernelDispatchProfile>::empty(),
    {
        Profiler { calibration: None, profiles: Vec::new() }
    }

    /// Stops timing. What was measured can still be taken.
    pub fn disable(&mut self)
        ensures
            final(self).calibration is None,
            final(self).profiles@ == old(self).profiles@,
    {
        self.calibration = None;
    }

    /// Starts timing afresh, from two samples of both clocks. Clocks that did
    /// not move change nothing.
    pub fn enable(&mut self, cpu_start: u64, gpu_start: u64, cpu_end: u64, gpu_end: u64) -> (result:
        Result<(), GpuError>)
        ensures
            if cpu_start < cpu_end && gpu_start < gpu_end {
                &&& result == Ok::<(), GpuError>(())
                &&& final(self).calibration == Some(
                    ((cpu_end - cpu_start) as u64, (gpu_end - gpu_start) as u64),
                )
                &&& final(self).profiles@ == Seq::<KernelDispatchProfile>::empty()
            } else {
                &&& result == Err::<(), GpuError>(GpuError::TimestampCalibration)
                &&& *final(self) == *old(self)
            },
    {
        let spans = calibrate(cpu_start, gpu_start, cpu_end, gpu_end)?;
        self.profiles = Vec::new();
        self.calibration = Some(spans);
        Ok(())
    }

    /// Whether the next batch is timed. A device that lost its counters since is
    /// an error.
    pub fn times_batches(&self, timestamps: Option<bool>) -> (result: Result<bool, GpuError>)
        ensures
            result == match (self.calibration, timestamps) {
                (None, _) => Ok::<bool, GpuError>(false),
                (Some(_), None) => Err(GpuError::NoCounterSets),
                (Some(_), Some(false)) => Err(GpuError::NoTimestampCounterSet),
                (Some(_), Some(true)) => Ok(true),
            },
    {
        if self.calibration.is_none() {
            return Ok(false);
        }
        match timestamps {
            None => Err(GpuError::NoCounterSets),
            Some(has_timestamps) => if has_timestamps {
                Ok(true)
            } else {
                Err(GpuError::NoTimestampCounterSet)
            },
        }
    }

    /// Adds the launches of a batch to what was measured. Timestamps that cannot
    /// be read, or timing that was stopped meanwhile, add nothing.
    pub fn record(&mut self, batch: &KernelBatchProfile, samples: Option<&Vec<u64>>) -> (result:
        Result<(), GpuError>)
        ensures
            final(self).calibration == old(self).calibration,
            old(self).calibration is None ==> result == Err::<(), GpuError>(
                GpuError::ProfilingDisabled,
            ) && final(self).profiles@ == old(self).profiles@,
            old(self).calibration is Some ==> match result {
                Ok(()) => {
                    &&& batch@.len() == 0 || (samples is Some && samples->0@.len() == batch@.len() * 2)
                    &&& kernels(final(self).profiles@) == kernels(old(self).profiles@) + batch@
                    &&& final(self).profiles@.len() == old(self).profiles@.len() + batch@.len()
                    &&& final(self).profiles@.take(old(self).profiles@.len() as int) == old(
                        self,
                    ).profiles@
                    &&& forall|i: int|
                        0 <= i < batch@.len() ==> {
                            let profile = #[trigger] final(self).profiles@[old(
                                self,
                            ).profiles@.len() + i];
                            &&& launch_usable(samples->0@, i)
                            &&& profile.kernel@ == batch@[i]
                            &&& profile.gpu_ticks == samples->0@[2 * i + 1] - samples->0@[2 * i]
                        }
                },
                Err(error) => {
                    &&& final(self).profiles@ == old(self).profiles@
                    &&& batch@.len() > 0
                    &&& match samples {
                        None => error == GpuError::TimestampResolution,
                        Some(samples) => if samples@.len() != batch@.len() * 2 {
                            error == GpuError::TimestampBufferSize
                        } else {
                            error == GpuError::InvalidTimestamps && exists|i: int|
                                0 <= i < batch@.len() && !#[trigger] launch_usable(samples@, i)
                        },
                    }
                },
            },
    {
        if self.calibration.is_none() {
            return Err(GpuError::ProfilingDisabled);
        }
        let mut resolved = batch.resolve(samples)?;
        let ghost before = self.profiles@;
        let ghost added = resolved@;
        self.profiles.append(&mut resolved);
        assert(self.profiles@ =~= before + added);
        assert(self.profiles@.take(before.len() as int) =~= before);
        assert forall|i: int| 0 <= i < batch@.len() implies {
            let profile = #[trigger] self.profiles@[before.len() + i];
            &&& launch_usable(samples->0@, i)
            &&& profile.kernel@ == batch@[i]
            &&& profile.gpu_ticks == samples->0@[2 * i + 1] - samples->0@[2 * i]
        } by {
            assert(self.profiles@[before.len() + i] == added[i]);
        }
        assert(kernels(self.profiles@) =~= kernels(before) + batch@);
        Ok(())
    }

    /// Takes what was measured.
    pub fn take(&mut self) -> (profiles: Vec<KernelDispatchProfile>)
        ensures
            profiles@ == old(self).profiles@,
            final(self).profiles@ == Seq::<KernelDispatchProfile>::empty(),
            final(self).calibration == old(self).calibration,
    {
        let mut profiles: Vec<KernelDispatchProfile> = Vec::new();
        std::mem::swap(&mut profiles, &mut self.profiles);
        profiles
    }
}

/// How the device ended a batch.
#[derive(Clone, Copy, Debug, PartialEq, Eq, Structural)]
pub enum Completion {
    Succeeded,
    /// It failed, with a description or without.
    Failed { described: bool },
}

/// The error of a batch that the device ended.
pub fn completion_result(completion: Completion) -> (result: Result<(), GpuError>)
    ensures
        result == match completion {
            Completion::Succeeded => Ok::<(), GpuError>(()),
            Completion::Failed { described: true } => Err(GpuError::Command),
            Completion::Failed { described: false } => Err(GpuError::CommandWithoutError),
        },
{
    match completion {
        Completion::Succeeded => Ok(()),
        Completion::Failed { described } => if described {
            Err(GpuError::Command)
        } else {
            Err(GpuError::CommandWithoutError)
        },
    }
}

/// A batch has room for 1024 launches, each of which takes two timestamps of its own: the
/// room shrinks by one with every launch, and none is left behind the last.
pub proof fn every_launch_takes_two_of_the_timestamps(launched: nat)
    ensures
        launched <= 1024 ==> sample_room(launched) + launched == 1024,
        launched >= 1024 ==> sample_room(launched) == 0,
        sample_room(launched) > 0 ==> sample_room(launched + 1) + 1 == sample_room(launched),
{
}

} // verus!
