//! Scratch memory for the temporaries of a command batch.
//!
//! A pool hands out spans of large chunks. Every span is aligned, no two spans
//! that are leased at the same time overlap, and a returned span merges with
//! its free neighbours, so that no byte is ever lost.

use crate::error::GpuError;
use vstd::prelude::*;

verus! {

pub const SCRATCH_ALIGNMENT: usize = 256;

pub const SCRATCH_CHUNK_BYTES: usize = 1_048_576;

/// The bytes from `start` up to but not including `end`.
#[derive(Clone, Copy, Debug, PartialEq, Eq, Structural)]
pub struct Span {
    pub start: usize,
    pub end: usize,
}

impl Span {
    pub open spec fn holds(self, byte: int) -> bool {
        self.start <= byte < self.end
    }

    pub open spec fn apart(self, other: Span) -> bool {
        self.end <= other.start || other.end <= self.start
    }

    /// Nonempty, aligned at both ends, and inside a chunk of `len` bytes.
    pub open spec fn fits(self, len: usize) -> bool {
        &&& self.start < self.end <= len
        &&& self.start % SCRATCH_ALIGNMENT == 0
        &&& self.end % SCRATCH_ALIGNMENT == 0
    }

    pub open spec fn size(self) -> int {
        self.end - self.start
    }
}

pub open spec fn any_holds(spans: Seq<Span>, byte: int) -> bool {
    exists|i: int| 0 <= i < spans.len() && (#[trigger] spans[i]).holds(byte)
}

/// Each span fits, and each two are apart.
pub open spec fn separate(spans: Seq<Span>, len: usize) -> bool {
    &&& forall|i: int| 0 <= i < spans.len() ==> (#[trigger] spans[i]).fits(len)
    &&& forall|i: int, j: int|
        0 <= i < j < spans.len() ==> (#[trigger] spans[i]).apart(#[trigger] spans[j])
}

/// In order, with a gap between each two.
pub open spec fn merged_order(spans: Seq<Span>) -> bool {
    forall|i: int, j: int|
        0 <= i < j < spans.len() ==> (#[trigger] spans[i]).end < (#[trigger] spans[j]).start
}

/// The smallest multiple of the alignment that holds `len` bytes and is not zero.
pub open spec fn aligned_len(len: usize) -> int {
    let bytes = if len == 0 {
        1int
    } else {
        len as int
    };
    (bytes + SCRATCH_ALIGNMENT - 1) / SCRATCH_ALIGNMENT as int * SCRATCH_ALIGNMENT
}

/// Whether an allocation of `len` bytes can be rounded up at all.
pub open spec fn allocatable(len: usize) -> bool {
    len <= usize::MAX - (SCRATCH_ALIGNMENT - 1)
}

pub fn allocation_len(len: usize) -> (result: Result<usize, GpuError>)
    ensures
        match result {
            Ok(aligned) => allocatable(len) && aligned == aligned_len(len),
            Err(error) => !allocatable(len) && error == GpuError::ScratchSizeOverflow,
        },
        result matches Ok(aligned) ==> aligned >= len && aligned > 0 && aligned % SCRATCH_ALIGNMENT
            == 0,
{
    let bytes: usize = if len == 0 {
        1
    } else {
        len
    };
    match bytes.checked_add(SCRATCH_ALIGNMENT - 1) {
        Some(rounded) => Ok(rounded / SCRATCH_ALIGNMENT * SCRATCH_ALIGNMENT),
        None => Err(GpuError::ScratchSizeOverflow),
    }
}

/// A buffer of the device with the spans of it that nobody leases.
pub struct ScratchChunk {
    pub len: usize,
    pub free: Vec<Span>,
}

/// A span that a tensor occupies. The number is fresh for every lease of a pool.
#[derive(Clone, Copy)]
pub struct ScratchLease {
    pub chunk: usize,
    pub span: Span,
    pub number: Ghost<nat>,
}

/// The chunks of one pool, with the leases that are out.
pub struct ScratchState {
    pub chunks: Vec<ScratchChunk>,
    pub live: Vec<ScratchLease>,
    pub issued: Ghost<nat>,
}

/// Where the first free span of at least `len` bytes is: the first chunk that
/// has one, and the first such span of that chunk.
pub open spec fn is_first_fit(chunks: Seq<ScratchChunk>, len: usize, chunk: int, index: int) -> bool {
    &&& 0 <= chunk < chunks.len()
    &&& 0 <= index < chunks[chunk].free@.len()
    &&& chunks[chunk].free@[index].size() >= len
    &&& forall|i: int| 0 <= i < index ==> (#[trigger] chunks[chunk].free@[i]).size() < len
    &&& forall|c: int| 0 <= c < chunk ==> !has_fit(#[trigger] chunks[c], len)
}

pub open spec fn has_fit(chunk: ScratchChunk, len: usize) -> bool {
    exists|i: int| 0 <= i < chunk.free@.len() && (#[trigger] chunk.free@[i]).size() >= len
}

/// The free spans after the front of one of them is leased.
pub open spec fn free_after_lease(free: Seq<Span>, index: int, len: usize) -> Seq<Span> {
    let span = free[index];
    let rest = free.remove(index);
    if span.size() > len {
        rest.push(Span { start: (span.start + len) as usize, end: span.end })
    } else {
        rest
    }
}

impl ScratchState {
    pub open spec fn chunk_wf(self, c: int) -> bool {
        &&& self.chunks@[c].len % SCRATCH_ALIGNMENT == 0
        &&& separate(self.chunks@[c].free@, self.chunks@[c].len)
    }

    /// The lease lies in its chunk, away from everything that is free there.
    pub open spec fn lease_wf(self, lease: ScratchLease) -> bool {
        &&& lease.chunk < self.chunks@.len()
        &&& lease.span.fits(self.chunks@[lease.chunk as int].len)
        &&& lease.number@ < self.issued@
        &&& forall|i: int|
            0 <= i < self.chunks@[lease.chunk as int].free@.len() ==> lease.span.apart(
                #[trigger] self.chunks@[lease.chunk as int].free@[i],
            )
    }

    /// Whether a lease that is out holds this byte.
    pub open spec fn leased(self, c: int, byte: int) -> bool {
        exists|l: int|
            0 <= l < self.live@.len() && (#[trigger] self.live@[l]).chunk == c
                && self.live@[l].span.holds(byte)
    }

    /// Leases that are out never overlap, and every byte of a chunk is either
    /// free or leased.
    pub open spec fn wf(self) -> bool {
        &&& forall|c: int| 0 <= c < self.chunks@.len() ==> #[trigger] self.chunk_wf(c)
        &&& forall|l: int| 0 <= l < self.live@.len() ==> self.lease_wf(#[trigger] self.live@[l])
        &&& forall|l: int, m: int|
            0 <= l < m < self.live@.len() ==> leases_apart(
                #[trigger] self.live@[l],
                #[trigger] self.live@[m],
            )
        &&& forall|c: int, byte: int|
            0 <= c < self.chunks@.len() && 0 <= byte < self.chunks@[c].len ==> any_holds(
                self.chunks@[c].free@,
                byte,
            ) || #[trigger] self.leased(c, byte)
    }

    pub fn new() -> (state: ScratchState)
        ensures
            state.wf(),
            state.chunks@.len() == 0,
            state.live@.len() == 0,
            state.issued@ == 0,
    {
        ScratchState { chunks: Vec::new(), live: Vec::new(), issued: Ghost(0) }
    }
}

pub open spec fn leases_apart(a: ScratchLease, b: ScratchLease) -> bool {
    &&& a.number@ != b.number@
    &&& a.chunk == b.chunk ==> a.span.apart(b.span)
}

fn position_of_fit(free: &Vec<Span>, len: usize) -> (found: Option<usize>)
    requires
        forall|i: int| 0 <= i < free@.len() ==> (#[trigger] free@[i]).start <= free@[i].end,
    ensures
        match found {
            Some(index) => index < free@.len() && free@[index as int].size() >= len && forall|
                i: int,
            |
                0 <= i < index ==> (#[trigger] free@[i]).size() < len,
            None => forall|i: int| 0 <= i < free@.len() ==> (#[trigger] free@[i]).size() < len,
        },
{
    let mut index: usize = 0;
    while index < free.len()
        invariant
            index <= free.len(),
            forall|i: int| 0 <= i < free@.len() ==> (#[trigger] free@[i]).start <= free@[i].end,
            forall|i: int| 0 <= i < index ==> (#[trigger] free@[i]).size() < len,
        decreases free.len() - index,
    {
        if free[index].end - free[index].start >= len {
            return Some(index);
        }
        index += 1;
    }
    None
}

impl ScratchState {
    fn find_fit(&self, len: usize) -> (found: Option<(usize, usize)>)
        requires
            self.wf(),
        ensures
            match found {
                Some((chunk, index)) => is_first_fit(self.chunks@, len, chunk as int, index as int),
                None => forall|c: int|
                    0 <= c < self.chunks@.len() ==> !has_fit(#[trigger] self.chunks@[c], len),
            },
    {
        let mut chunk: usize = 0;
        while chunk < self.chunks.len()
            invariant
                chunk <= self.chunks.len(),
                self.wf(),
                forall|c: int| 0 <= c < chunk ==> !has_fit(#[trigger] self.chunks@[c], len),
            decreases self.chunks.len() - chunk,
        {
            assert(self.chunk_wf(chunk as int));
            match position_of_fit(&self.chunks[chunk].free, len) {
                Some(index) => return Some((chunk, index)),
                None => {},
            }
            chunk += 1;
        }
        None
    }

    /// Leases `byte_len` bytes: the front of the first free span that is large
    /// enough, or of a new chunk.
    pub fn allocate(&mut self, byte_len: usize) -> (result: Result<ScratchLease, GpuError>)
        requires
            old(self).wf(),
        ensures
            final(self).wf(),
            match result {
                Err(error) => {
                    &&& !allocatable(byte_len)
                    &&& error == GpuError::ScratchSizeOverflow
                    &&& *final(self) == *old(self)
                },
                Ok(lease) => {
                    &&& allocatable(byte_len)
                    &&& lease.span.size() == aligned_len(byte_len)
                    &&& lease.span.size() >= byte_len
                    &&& lease.number@ == old(self).issued@
                    &&& final(self).issued@ == old(self).issued@ + 1
                    &&& final(self).live@ == old(self).live@.push(lease)
                    &&& placed(old(self).chunks@, final(self).chunks@, lease)
                },
            },
    {
        let len: usize = match allocation_len(byte_len) {
            Ok(len) => len,
            Err(error) => return Err(error),
        };
        let ghost before = *self;
        let ghost number = self.issued@;
        let lease = match self.find_fit(len) {
            Some((chunk, index)) => {
                assert(self.chunk_wf(chunk as int));
                let range = self.chunks[chunk].free[index];
                let span = Span { start: range.start, end: range.start + len };
                let mut free: Vec<Span> = Vec::new();
                std::mem::swap(&mut free, &mut self.chunks[chunk].free);
                let _ = free.remove(index);
                if span.end < range.end {
                    free.push(Span { start: span.end, end: range.end });
                }
                std::mem::swap(&mut free, &mut self.chunks[chunk].free);
                let lease = ScratchLease { chunk, span, number: Ghost(number) };
                self.live.push(lease);
                self.issued = Ghost(number + 1);
                proof {
                    lemma_lease_front(before, *self, lease, index as int);
                }
                lease
            },
            None => {
                let chunk_len: usize = if len > SCRATCH_CHUNK_BYTES {
                    len
                } else {
                    SCRATCH_CHUNK_BYTES
                };
                let mut free: Vec<Span> = Vec::new();
                if len < chunk_len {
                    free.push(Span { start: len, end: chunk_len });
                }
                let chunk: usize = self.chunks.len();
                self.chunks.push(ScratchChunk { len: chunk_len, free });
                let span = Span { start: 0, end: len };
                let lease = ScratchLease { chunk, span, number: Ghost(number) };
                self.live.push(lease);
                self.issued = Ghost(number + 1);
                proof {
                    lemma_lease_new_chunk(before, *self, lease);
                }
                lease
            },
        };
        Ok(lease)
    }
}

/// The chunks before and after a lease is handed out.
pub open spec fn placed(
    before: Seq<ScratchChunk>,
    after: Seq<ScratchChunk>,
    lease: ScratchLease,
) -> bool {
    let len = lease.span.size() as usize;
    let c = lease.chunk as int;
    if c < before.len() {
        exists|index: int| #[trigger]
            is_first_fit(before, len, c, index) && lease.span.start == before[c].free@[index].start
                && after.len() == before.len() && after[c].len == before[c].len
                && after[c].free@ == free_after_lease(before[c].free@, index, len) && forall|o: int|
                0 <= o < before.len() && o != c ==> #[trigger] after[o] == before[o]
    } else {
        &&& c == before.len()
        &&& forall|o: int| 0 <= o < before.len() ==> !has_fit(#[trigger] before[o], len)
        &&& lease.span.start == 0
        &&& after.len() == before.len() + 1
        &&& forall|o: int| 0 <= o < before.len() ==> #[trigger] after[o] == before[o]
        &&& after[c].len == if len > SCRATCH_CHUNK_BYTES {
            len
        } else {
            SCRATCH_CHUNK_BYTES
        }
        &&& after[c].free@ == if len < after[c].len {
            seq![Span { start: len, end: after[c].len }]
        } else {
            Seq::empty()
        }
    }
}

proof fn lemma_lease_front(
    before: ScratchState,
    after: ScratchState,
    lease: ScratchLease,
    index: int,
)
    requires
        before.wf(),
        lease.span.size() > 0,
        lease.span.size() % SCRATCH_ALIGNMENT as int == 0,
        is_first_fit(before.chunks@, lease.span.size() as usize, lease.chunk as int, index),
        lease.span.start == before.chunks@[lease.chunk as int].free@[index].start,
        lease.number@ == before.issued@,
        after.issued@ == before.issued@ + 1,
        after.live@ == before.live@.push(lease),
        after.chunks@.len() == before.chunks@.len(),
        after.chunks@[lease.chunk as int].len == before.chunks@[lease.chunk as int].len,
        after.chunks@[lease.chunk as int].free@ == free_after_lease(
            before.chunks@[lease.chunk as int].free@,
            index,
            lease.span.size() as usize,
        ),
        forall|o: int|
            0 <= o < before.chunks@.len() && o != lease.chunk ==> #[trigger] after.chunks@[o]
                == before.chunks@[o],
    ensures
        after.wf(),
{
    let c = lease.chunk as int;
    let len = lease.span.size() as usize;
    let old_free = before.chunks@[c].free@;
    let new_free = after.chunks@[c].free@;
    let range = old_free[index];
    let rest = old_free.remove(index);
    assert(before.chunk_wf(c));
    assert(range.fits(before.chunks@[c].len));
    // Every new free span lies inside an old one, away from the lease.
    assert forall|i: int| 0 <= i < new_free.len() implies (#[trigger] new_free[i]).fits(
        before.chunks@[c].len,
    ) && new_free[i].apart(lease.span) && exists|o: int|
        0 <= o < old_free.len() && (#[trigger] old_free[o]).start <= new_free[i].start
            && new_free[i].end <= old_free[o].end by {
        if i < rest.len() {
            let o = if i < index {
                i
            } else {
                i + 1
            };
            assert(new_free[i] == old_free[o]);
            assert(old_free[o].apart(range));
        } else {
            assert(old_free[index].start <= new_free[i].start);
        }
    }
    assert forall|i: int, j: int| 0 <= i < j < new_free.len() implies (
    #[trigger] new_free[i]).apart(#[trigger] new_free[j]) by {
        let oi = if i < index {
            i
        } else {
            i + 1
        };
        assert(new_free[i] == old_free[oi]);
        if j < rest.len() {
            let oj = if j < index {
                j
            } else {
                j + 1
            };
            assert(new_free[j] == old_free[oj]);
        } else {
            assert(old_free[oi].apart(range));
        }
    }
    assert(after.chunk_wf(c));
    assert forall|o: int| 0 <= o < after.chunks@.len() implies #[trigger] after.chunk_wf(o) by {
        if o != c {
            assert(before.chunk_wf(o));
        }
    }
    assert forall|l: int| 0 <= l < after.live@.len() implies after.lease_wf(
        #[trigger] after.live@[l],
    ) by {
        let held = after.live@[l];
        if l < before.live@.len() {
            assert(before.lease_wf(before.live@[l]));
            if held.chunk == c {
                assert(held.span.apart(old_free[index]));
                assert forall|i: int| 0 <= i < new_free.len() implies held.span.apart(
                    #[trigger] new_free[i],
                ) by {
                    let o = choose|o: int|
                        0 <= o < old_free.len() && (#[trigger] old_free[o]).start
                            <= new_free[i].start && new_free[i].end <= old_free[o].end;
                    assert(held.span.apart(old_free[o]));
                }
            }
        }
    }
    assert forall|l: int, m: int| 0 <= l < m < after.live@.len() implies leases_apart(
        #[trigger] after.live@[l],
        #[trigger] after.live@[m],
    ) by {
        assert(before.lease_wf(before.live@[l]));
        if m == before.live@.len() && after.live@[l].chunk == c {
            assert(after.live@[l].span.apart(old_free[index]));
        }
    }
    assert forall|o: int, byte: int|
        0 <= o < after.chunks@.len() && 0 <= byte < after.chunks@[o].len implies any_holds(
        after.chunks@[o].free@,
        byte,
    ) || #[trigger] after.leased(o, byte) by {
        assert(any_holds(before.chunks@[o].free@, byte) || before.leased(o, byte));
        if before.leased(o, byte) {
            let l = choose|l: int|
                0 <= l < before.live@.len() && (#[trigger] before.live@[l]).chunk == o
                    && before.live@[l].span.holds(byte);
            assert(after.live@[l] == before.live@[l]);
        } else if o == c {
            let i = choose|i: int| 0 <= i < old_free.len() && (#[trigger] old_free[i]).holds(byte);
            if i == index {
                if lease.span.holds(byte) {
                    assert(after.live@[before.live@.len() as int] == lease);
                } else {
                    assert(new_free[rest.len() as int].holds(byte));
                }
            } else {
                let n = if i < index {
                    i
                } else {
                    i - 1
                };
                assert(new_free[n] == old_free[i]);
            }
        }
    }
}

proof fn lemma_lease_new_chunk(before: ScratchState, after: ScratchState, lease: ScratchLease)
    requires
        before.wf(),
        lease.span.size() > 0,
        lease.span.size() % SCRATCH_ALIGNMENT as int == 0,
        lease.chunk == before.chunks@.len(),
        placed(before.chunks@, after.chunks@, lease),
        lease.number@ == before.issued@,
        after.issued@ == before.issued@ + 1,
        after.live@ == before.live@.push(lease),
    ensures
        after.wf(),
{
    let c = lease.chunk as int;
    assert forall|o: int| 0 <= o < after.chunks@.len() implies #[trigger] after.chunk_wf(o) by {
        if o != c {
            assert(before.chunk_wf(o));
        }
    }
    assert forall|l: int| 0 <= l < after.live@.len() implies after.lease_wf(
        #[trigger] after.live@[l],
    ) by {
        if l < before.live@.len() {
            assert(before.lease_wf(before.live@[l]));
        }
    }
    assert forall|l: int, m: int| 0 <= l < m < after.live@.len() implies leases_apart(
        #[trigger] after.live@[l],
        #[trigger] after.live@[m],
    ) by {
        assert(before.lease_wf(before.live@[l]));
    }
    assert forall|o: int, byte: int|
        0 <= o < after.chunks@.len() && 0 <= byte < after.chunks@[o].len implies any_holds(
        after.chunks@[o].free@,
        byte,
    ) || #[trigger] after.leased(o, byte) by {
        if o == c {
            if lease.span.holds(byte) {
                assert(after.live@[before.live@.len() as int] == lease);
            } else {
                assert(after.chunks@[c].free@[0].holds(byte));
            }
        } else {
            assert(any_holds(before.chunks@[o].free@, byte) || before.leased(o, byte));
            if before.leased(o, byte) {
                let l = choose|l: int|
                    0 <= l < before.live@.len() && (#[trigger] before.live@[l]).chunk == o
                        && before.live@[l].span.holds(byte);
                assert(after.live@[l] == before.live@[l]);
            }
        }
    }
}

/// In order, where neighbours may touch.
spec fn ordered(spans: Seq<Span>) -> bool {
    forall|i: int, j: int|
        0 <= i < j < spans.len() ==> (#[trigger] spans[i]).end <= (#[trigger] spans[j]).start
}

spec fn same_bytes(a: Seq<Span>, b: Seq<Span>) -> bool {
    forall|byte: int| #[trigger] any_holds(a, byte) <==> any_holds(b, byte)
}

proof fn lemma_insert_bytes(spans: Seq<Span>, at: int, span: Span)
    requires
        0 <= at <= spans.len(),
    ensures
        forall|byte: int| #[trigger]
            any_holds(spans.insert(at, span), byte) <==> any_holds(spans, byte) || span.holds(byte),
{
    let longer = spans.insert(at, span);
    assert forall|byte: int| #[trigger] any_holds(longer, byte) <==> any_holds(spans, byte)
        || span.holds(byte) by {
        if any_holds(spans, byte) {
            let i = choose|i: int| 0 <= i < spans.len() && (#[trigger] spans[i]).holds(byte);
            if i < at {
                assert(longer[i] == spans[i]);
            } else {
                assert(longer[i + 1] == spans[i]);
            }
        }
        if span.holds(byte) {
            assert(longer[at] == span);
        }
        if any_holds(longer, byte) {
            let i = choose|i: int| 0 <= i < longer.len() && (#[trigger] longer[i]).holds(byte);
            if i < at {
                assert(spans[i] == longer[i]);
            } else if i > at {
                assert(spans[i - 1] == longer[i]);
            }
        }
    }
}

/// Puts a span in its place among others that are in order.
fn insert_in_order(spans: &mut Vec<Span>, span: Span, len: Ghost<usize>)
    requires
        span.fits(len@),
        ordered(old(spans)@),
        forall|i: int|
            0 <= i < old(spans)@.len() ==> (#[trigger] old(spans)@[i]).fits(len@)
                && old(spans)@[i].apart(span),
    ensures
        ordered(final(spans)@),
        exists|at: int|
            0 <= at <= old(spans)@.len() && final(spans)@ == #[trigger] old(spans)@.insert(
                at,
                span,
            ),
{
    let mut at: usize = 0;
    while at < spans.len() && spans[at].start < span.start
        invariant
            at <= spans.len(),
            spans@ == old(spans)@,
            forall|i: int| 0 <= i < at ==> (#[trigger] spans@[i]).start < span.start,
        decreases spans.len() - at,
    {
        at += 1;
    }
    spans.insert(at, span);
    let ghost before = old(spans)@;
    assert(spans@ == before.insert(at as int, span));
    assert forall|i: int, j: int| 0 <= i < j < spans@.len() implies (#[trigger] spans@[i]).end <= (
    #[trigger] spans@[j]).start by {
        if i == at {
            assert(spans@[j] == before[j - 1]);
            assert(before[at as int].apart(span));
            if j - 1 > at {
                assert(before[at as int].end <= before[j - 1].start);
            }
        } else if j == at {
            assert(spans@[i] == before[i]);
            assert(before[i].apart(span));
        } else {
            let oi = if i < at {
                i
            } else {
                i - 1
            };
            let oj = if j < at {
                j
            } else {
                j - 1
            };
            assert(spans@[i] == before[oi] && spans@[j] == before[oj]);
        }
    }
}

fn sort_spans(spans: &Vec<Span>, len: Ghost<usize>) -> (out: Vec<Span>)
    requires
        separate(spans@, len@),
    ensures
        ordered(out@),
        forall|i: int| 0 <= i < out@.len() ==> (#[trigger] out@[i]).fits(len@),
        same_bytes(out@, spans@),
{
    let mut out: Vec<Span> = Vec::new();
    let mut n: usize = 0;
    while n < spans.len()
        invariant
            n <= spans.len(),
            separate(spans@, len@),
            ordered(out@),
            forall|i: int|
                0 <= i < out@.len() ==> (#[trigger] out@[i]).fits(len@) && exists|j: int|
                    0 <= j < n && out@[i] == #[trigger] spans@[j],
            same_bytes(out@, spans@.take(n as int)),
        decreases spans.len() - n,
    {
        let span = spans[n];
        let ghost before = out@;
        assert forall|i: int| 0 <= i < out@.len() implies (#[trigger] out@[i]).apart(span) by {
            let j = choose|j: int| 0 <= j < n && out@[i] == #[trigger] spans@[j];
            assert(spans@[j].apart(spans@[n as int]));
        }
        insert_in_order(&mut out, span, len);
        proof {
            let at = choose|at: int| 0 <= at <= before.len() && out@ == #[trigger] before.insert(
                at,
                span,
            );
            lemma_insert_bytes(before, at, span);
            lemma_insert_bytes(spans@.take(n as int), n as int, span);
            assert(spans@.take(n as int).insert(n as int, span) =~= spans@.take(n + 1));
            assert forall|byte: int| #[trigger] any_holds(out@, byte) <==> any_holds(
                spans@.take(n + 1),
                byte,
            ) by {
                assert(any_holds(before, byte) <==> any_holds(spans@.take(n as int), byte));
            }
            assert forall|i: int| 0 <= i < out@.len() implies (#[trigger] out@[i]).fits(len@)
                && exists|j: int| 0 <= j < n + 1 && out@[i] == #[trigger] spans@[j] by {
                if i == at {
                    assert(out@[i] == spans@[n as int]);
                } else {
                    let o = if i < at {
                        i
                    } else {
                        i - 1
                    };
                    assert(out@[i] == before[o]);
                    let j = choose|j: int| 0 <= j < n && before[o] == #[trigger] spans@[j];
                    assert(out@[i] == spans@[j]);
                }
            }
        }
        n += 1;
    }
    assert(spans@.take(spans@.len() as int) =~= spans@);
    out
}

/// Joins neighbours that touch.
fn merge_spans(spans: &Vec<Span>, len: Ghost<usize>) -> (out: Vec<Span>)
    requires
        ordered(spans@),
        forall|i: int| 0 <= i < spans@.len() ==> (#[trigger] spans@[i]).fits(len@),
    ensures
        merged_order(out@),
        forall|i: int| 0 <= i < out@.len() ==> (#[trigger] out@[i]).fits(len@),
        same_bytes(out@, spans@),
{
    let mut out: Vec<Span> = Vec::new();
    let mut n: usize = 0;
    while n < spans.len()
        invariant
            n <= spans.len(),
            ordered(spans@),
            forall|i: int| 0 <= i < spans@.len() ==> (#[trigger] spans@[i]).fits(len@),
            merged_order(out@),
            forall|i: int| 0 <= i < out@.len() ==> (#[trigger] out@[i]).fits(len@),
            forall|i: int, j: int|
                0 <= i < out@.len() && n <= j < spans@.len() ==> (#[trigger] out@[i]).end <= (
                #[trigger] spans@[j]).start,
            same_bytes(out@, spans@.take(n as int)),
        decreases spans.len() - n,
    {
        let span = spans[n];
        let ghost before = out@;
        let count: usize = out.len();
        assert(span.fits(len@));
        proof {
            lemma_insert_bytes(spans@.take(n as int), n as int, span);
            assert(spans@.take(n as int).insert(n as int, span) =~= spans@.take(n + 1));
        }
        if count > 0 && out[count - 1].end == span.start {
            let joined = Span { start: out[count - 1].start, end: span.end };
            let _ = out.pop();
            out.push(joined);
            proof {
                let last = before[count - 1];
                assert(last.fits(len@));
                assert forall|byte: int| #[trigger] any_holds(out@, byte) <==> any_holds(
                    before,
                    byte,
                ) || span.holds(byte) by {
                    if any_holds(before, byte) {
                        let i = choose|i: int|
                            0 <= i < before.len() && (#[trigger] before[i]).holds(byte);
                        if i == count - 1 {
                            assert(out@[i].holds(byte));
                        } else {
                            assert(out@[i] == before[i]);
                        }
                    }
                    if span.holds(byte) {
                        assert(out@[count - 1].holds(byte));
                    }
                    if any_holds(out@, byte) {
                        let i = choose|i: int| 0 <= i < out@.len() && (#[trigger] out@[i]).holds(byte);
                        if i == count - 1 {
                            assert(last.holds(byte) || span.holds(byte));
                            assert(before[count - 1] == last);
                        } else {
                            assert(out@[i] == before[i]);
                        }
                    }
                }
            }
        } else {
            out.push(span);
            proof {
                lemma_insert_bytes(before, before.len() as int, span);
                assert(before.insert(before.len() as int, span) =~= out@);
                assert forall|i: int, j: int| 0 <= i < j < out@.len() implies (
                #[trigger] out@[i]).end < (#[trigger] out@[j]).start by {
                    if j == count {
                        assert(before[count - 1].end <= spans@[n as int].start);
                        if i < count - 1 {
                            assert(before[i].end < before[count - 1].start);
                            assert(before[count - 1].fits(len@));
                        }
                    }
                }
            }
        }
        assert forall|byte: int| #[trigger] any_holds(out@, byte) <==> any_holds(
            spans@.take(n + 1),
            byte,
        ) by {
            assert(any_holds(before, byte) <==> any_holds(spans@.take(n as int), byte));
        }
        assert forall|i: int, j: int| 0 <= i < out@.len() && n + 1 <= j < spans@.len() implies (
        #[trigger] out@[i]).end <= (#[trigger] spans@[j]).start by {
            assert(spans@[n as int].end <= spans@[j].start);
            if i < before.len() - 1 {
                assert(out@[i] == before[i]);
            }
        }
        n += 1;
    }
    assert(spans@.take(spans@.len() as int) =~= spans@);
    out
}

/// The places of leases by their numbers.
pub open spec fn places(live: Seq<ScratchLease>) -> Map<nat, (usize, Span)>
    decreases live.len(),
{
    if live.len() == 0 {
        Map::empty()
    } else {
        let lease = live.last();
        places(live.drop_last()).insert(lease.number@, (lease.chunk, lease.span))
    }
}

pub open spec fn numbered_apart(live: Seq<ScratchLease>) -> bool {
    forall|l: int, m: int|
        0 <= l < m < live.len() ==> (#[trigger] live[l]).number@ != (#[trigger] live[m]).number@
}

pub proof fn lemma_places(live: Seq<ScratchLease>, number: nat)
    requires
        numbered_apart(live),
    ensures
        places(live).dom().contains(number) <==> exists|l: int|
            0 <= l < live.len() && (#[trigger] live[l]).number@ == number,
        forall|l: int|
            0 <= l < live.len() && (#[trigger] live[l]).number@ == number ==> places(live)[number]
                == (live[l].chunk, live[l].span),
    decreases live.len(),
{
    if live.len() > 0 {
        let rest = live.drop_last();
        lemma_places(rest, number);
        if places(rest).dom().contains(number) {
            let l = choose|l: int| 0 <= l < rest.len() && (#[trigger] rest[l]).number@ == number;
            assert(live[l].number@ == number);
        }
        assert(live[live.len() - 1] == live.last());
        assert forall|l: int|
            0 <= l < live.len() && (#[trigger] live[l]).number@ == number implies places(
            live,
        )[number] == (live[l].chunk, live[l].span) && places(live).dom().contains(number) by {
            if l < live.len() - 1 {
                assert(rest[l] == live[l]);
            }
        }
    }
}

pub proof fn lemma_places_without(live: Seq<ScratchLease>, at: int)
    requires
        numbered_apart(live),
        0 <= at < live.len(),
    ensures
        numbered_apart(live.remove(at)),
        places(live.remove(at)) == places(live).remove(live[at].number@),
{
    let rest = live.remove(at);
    assert forall|l: int, m: int| 0 <= l < m < rest.len() implies (#[trigger] rest[l]).number@ != (
    #[trigger] rest[m]).number@ by {
        let ol = if l < at {
            l
        } else {
            l + 1
        };
        let om = if m < at {
            m
        } else {
            m + 1
        };
        assert(rest[l] == live[ol] && rest[m] == live[om]);
    }
    assert forall|number: nat|
        #![trigger places(rest).dom().contains(number)]
        (places(rest).dom().contains(number) <==> places(live).remove(
            live[at].number@,
        ).dom().contains(number)) && (places(rest).dom().contains(number) ==> places(rest)[number]
            == places(live)[number]) by {
        lemma_places(live, number);
        lemma_places(rest, number);
        if places(rest).dom().contains(number) {
            let l = choose|l: int| 0 <= l < rest.len() && (#[trigger] rest[l]).number@ == number;
            let ol = if l < at {
                l
            } else {
                l + 1
            };
            assert(rest[l] == live[ol]);
        }
        if places(live).dom().contains(number) && number != live[at].number@ {
            let l = choose|l: int| 0 <= l < live.len() && (#[trigger] live[l]).number@ == number;
            let nl = if l < at {
                l
            } else {
                l - 1
            };
            assert(rest[nl] == live[l]);
        }
    }
    assert(places(rest) =~= places(live).remove(live[at].number@));
}

/// The pool before and after a place of it is given back. The lease of the place
/// is out no more, and its span joins the free spans that it touches. A place
/// that nobody leases changes nothing.
pub open spec fn returned(
    before: ScratchState,
    after: ScratchState,
    chunk: usize,
    span: Span,
) -> bool {
    &&& after.issued@ == before.issued@
    &&& after.chunks@.len() == before.chunks@.len()
    &&& forall|c: int|
        0 <= c < before.chunks@.len() ==> (#[trigger] after.chunks@[c]).len == before.chunks@[c].len
    &&& if before.occupied(chunk, span) {
        &&& exists|l: int|
            0 <= l < before.live@.len() && before.live@[l].chunk == chunk && before.live@[l].span
                == span && after.live@ == #[trigger] before.live@.remove(l)
        &&& forall|c: int|
            0 <= c < before.chunks@.len() && c != chunk ==> #[trigger] after.chunks@[c]
                == before.chunks@[c]
        &&& merged_order(after.chunks@[chunk as int].free@)
        &&& forall|byte: int| #[trigger]
            any_holds(after.chunks@[chunk as int].free@, byte) <==> any_holds(
                before.chunks@[chunk as int].free@,
                byte,
            ) || span.holds(byte)
    } else {
        after == before
    }
}

impl ScratchState {
    /// Whether a lease that is out occupies exactly this place.
    pub open spec fn occupied(self, chunk: usize, span: Span) -> bool {
        exists|l: int|
            0 <= l < self.live@.len() && (#[trigger] self.live@[l]).chunk == chunk
                && self.live@[l].span == span
    }

    /// Returns a lease. Its span joins the free spans that it touches. A span
    /// that is not leased is left alone.
    pub fn release(&mut self, chunk: usize, span: Span)
        requires
            old(self).wf(),
        ensures
            final(self).wf(),
            returned(*old(self), *final(self), chunk, span),
    {
        let ghost before = *self;
        let mut at: usize = 0;
        while at < self.live.len() && !(self.live[at].chunk == chunk && self.live[at].span.start
            == span.start && self.live[at].span.end == span.end)
            invariant
                at <= self.live.len(),
                *self == before,
                forall|l: int|
                    0 <= l < at ==> !((#[trigger] self.live@[l]).chunk == chunk
                        && self.live@[l].span == span),
            decreases self.live.len() - at,
        {
            at += 1;
        }
        if at == self.live.len() {
            return ;
        }
        let ghost c = chunk as int;
        assert(before.lease_wf(before.live@[at as int]));
        assert(before.chunk_wf(c));
        assert(before.live@[at as int].span == span);
        let _ = self.live.remove(at);
        let ghost len = self.chunks@[c].len;
        let mut free: Vec<Span> = Vec::new();
        std::mem::swap(&mut free, &mut self.chunks[chunk].free);
        free.push(span);
        proof {
            let old_free = before.chunks@[c].free@;
            lemma_insert_bytes(old_free, old_free.len() as int, span);
            assert(old_free.insert(old_free.len() as int, span) =~= free@);
            assert forall|i: int, j: int| 0 <= i < j < free@.len() implies (
            #[trigger] free@[i]).apart(#[trigger] free@[j]) by {
                if j == old_free.len() {
                    assert(span.apart(old_free[i]));
                }
            }
        }
        let sorted = sort_spans(&free, Ghost(len));
        let mut merged = merge_spans(&sorted, Ghost(len));
        std::mem::swap(&mut merged, &mut self.chunks[chunk].free);
        proof {
            let old_free = before.chunks@[c].free@;
            let new_free = self.chunks@[c].free@;
            assert forall|byte: int| #[trigger] any_holds(new_free, byte) <==> any_holds(
                old_free,
                byte,
            ) || span.holds(byte) by {
                assert(any_holds(new_free, byte) <==> any_holds(sorted@, byte));
                assert(any_holds(sorted@, byte) <==> any_holds(free@, byte));
            }
            lemma_returned(before, *self, at as int);
        }
    }
}

proof fn lemma_returned(before: ScratchState, after: ScratchState, at: int)
    requires
        before.wf(),
        0 <= at < before.live@.len(),
        after.live@ == before.live@.remove(at),
        after.issued@ == before.issued@,
        after.chunks@.len() == before.chunks@.len(),
        ({
            let c = before.live@[at].chunk as int;
            let span = before.live@[at].span;
            &&& after.chunks@[c].len == before.chunks@[c].len
            &&& merged_order(after.chunks@[c].free@)
            &&& forall|i: int|
                0 <= i < after.chunks@[c].free@.len() ==> (#[trigger] after.chunks@[c].free@[i]).fits(
                    after.chunks@[c].len,
                )
            &&& forall|byte: int| #[trigger]
                any_holds(after.chunks@[c].free@, byte) <==> any_holds(
                    before.chunks@[c].free@,
                    byte,
                ) || span.holds(byte)
            &&& forall|o: int|
                0 <= o < before.chunks@.len() && o != c ==> #[trigger] after.chunks@[o]
                    == before.chunks@[o]
        }),
    ensures
        after.wf(),
{
    let c = before.live@[at].chunk as int;
    let span = before.live@[at].span;
    let new_free = after.chunks@[c].free@;
    let old_free = before.chunks@[c].free@;
    assert forall|o: int| 0 <= o < after.chunks@.len() implies #[trigger] after.chunk_wf(o) by {
        assert(before.chunk_wf(o));
    }
    assert forall|l: int| 0 <= l < after.live@.len() implies after.lease_wf(
        #[trigger] after.live@[l],
    ) by {
        let k = if l < at {
            l
        } else {
            l + 1
        };
        let held = after.live@[l];
        assert(held == before.live@[k]);
        assert(before.lease_wf(before.live@[k]));
        assert(leases_apart(before.live@[k], before.live@[at]) || leases_apart(
            before.live@[at],
            before.live@[k],
        ));
        if held.chunk == c {
            assert forall|i: int| 0 <= i < new_free.len() implies held.span.apart(
                #[trigger] new_free[i],
            ) by {
                if !held.span.apart(new_free[i]) {
                    // A byte in both would be free before, or in the returned span.
                    let byte = if held.span.start >= new_free[i].start {
                        held.span.start as int
                    } else {
                        new_free[i].start as int
                    };
                    assert(new_free[i].fits(after.chunks@[c].len));
                    assert(new_free[i].holds(byte));
                    assert(held.span.holds(byte));
                    assert(any_holds(new_free, byte));
                    if any_holds(old_free, byte) {
                        let o = choose|o: int|
                            0 <= o < old_free.len() && (#[trigger] old_free[o]).holds(byte);
                        assert(held.span.apart(old_free[o]));
                    }
                    assert(false);
                }
            }
        }
    }
    assert forall|l: int, m: int| 0 <= l < m < after.live@.len() implies leases_apart(
        #[trigger] after.live@[l],
        #[trigger] after.live@[m],
    ) by {
        let kl = if l < at {
            l
        } else {
            l + 1
        };
        let km = if m < at {
            m
        } else {
            m + 1
        };
        assert(after.live@[l] == before.live@[kl] && after.live@[m] == before.live@[km]);
    }
    assert forall|o: int, byte: int|
        0 <= o < after.chunks@.len() && 0 <= byte < after.chunks@[o].len implies any_holds(
        after.chunks@[o].free@,
        byte,
    ) || #[trigger] after.leased(o, byte) by {
        assert(any_holds(before.chunks@[o].free@, byte) || before.leased(o, byte));
        if o == c && any_holds(old_free, byte) {
            assert(any_holds(new_free, byte));
        } else if before.leased(o, byte) {
            let l = choose|l: int|
                0 <= l < before.live@.len() && (#[trigger] before.live@[l]).chunk == o
                    && before.live@[l].span.holds(byte);
            if l == at {
                assert(any_holds(new_free, byte));
            } else {
                let k = if l < at {
                    l
                } else {
                    l - 1
                };
                assert(after.live@[k] == before.live@[l]);
            }
        }
    }
}

/// Two leases that are out at the same time share no byte.
pub proof fn live_leases_never_overlap(state: ScratchState, l: int, m: int, byte: int)
    requires
        state.wf(),
        0 <= l < state.live@.len(),
        0 <= m < state.live@.len(),
        l != m,
        state.live@[l].chunk == state.live@[m].chunk,
    ensures
        !(state.live@[l].span.holds(byte) && state.live@[m].span.holds(byte)),
{
    if l < m {
        assert(leases_apart(state.live@[l], state.live@[m]));
    } else {
        assert(leases_apart(state.live@[m], state.live@[l]));
    }
}

/// Once every lease is back, every byte of every chunk is free again.
pub proof fn no_byte_is_lost(state: ScratchState, c: int, byte: int)
    requires
        state.wf(),
        state.live@.len() == 0,
        0 <= c < state.chunks@.len(),
        0 <= byte < state.chunks@[c].len,
    ensures
        any_holds(state.chunks@[c].free@, byte),
{
    assert(any_holds(state.chunks@[c].free@, byte) || state.leased(c, byte));
}

/// The last lease to come back leaves its chunk one single free span.
pub proof fn an_idle_chunk_is_one_span(state: ScratchState, c: int)
    requires
        state.wf(),
        state.live@.len() == 0,
        0 <= c < state.chunks@.len(),
        state.chunks@[c].len > 0,
        merged_order(state.chunks@[c].free@),
    ensures
        state.chunks@[c].free@ == seq![Span { start: 0, end: state.chunks@[c].len }],
{
    let free = state.chunks@[c].free@;
    let len = state.chunks@[c].len;
    no_byte_is_lost(state, c, 0);
    let first = choose|i: int| 0 <= i < free.len() && (#[trigger] free[i]).holds(0);
    assert(state.chunk_wf(c));
    if first > 0 {
        assert(free[0].end < free[first].start);
    }
    assert(first == 0);
    if free[0].end < len {
        let byte = free[0].end as int;
        no_byte_is_lost(state, c, byte);
        let i = choose|i: int| 0 <= i < free.len() && (#[trigger] free[i]).holds(byte);
        if i > 0 {
            assert(free[0].end < free[i].start);
        }
        assert(false);
    }
    if free.len() > 1 {
        assert(free[0].end < free[1].start);
        assert(free[1].fits(len));
        assert(false);
    }
    assert(free =~= seq![Span { start: 0, end: len }]);
}

/// Scratch is handed out in whole pieces of 256 bytes: no fewer than are asked for, and
/// less than a piece more.
pub proof fn scratch_comes_in_whole_pieces(bytes: usize)
    requires
        allocatable(bytes),
    ensures
        aligned_len(bytes) % 256 == 0,
        bytes <= aligned_len(bytes) <= usize::MAX,
        bytes > 0 ==> aligned_len(bytes) < bytes + 256,
        bytes == 0 ==> aligned_len(bytes) == 256,
{
}

} // verus!
