//! The patcher: overwriting bytes at an offset.

use vstd::prelude::*;
use crate::error::ErrorKind;

verus! {

/// An overwrite waiting to be carried out.
#[derive(Clone, Debug, PartialEq, Eq)]
pub struct PatchRequest {
    /// Absolute offset at which the first payload byte is written.
    pub offset: u64,
    /// The bytes to write, in order; at least one.
    pub payload: Vec<u8>,
}

/// The mathematical content of a `PatchRequest`.
pub struct PatchView {
    pub offset: nat,
    pub payload: Seq<u8>,
}

impl View for PatchRequest {
    type V = PatchView;

    open spec fn view(&self) -> PatchView {
        PatchView { offset: self.offset as nat, payload: self.payload@ }
    }
}

/// What becomes of a patch that starts beyond the end of the sink.
#[derive(Clone, Copy, Debug, PartialEq, Eq, Structural)]
pub enum GrowthPolicy {
    /// It is turned down.
    Reject,
    /// The sink is filled with zero bytes up to the offset.
    ZeroExtend,
}

/// Whether a patch at `offset` is taken by a sink of `extent` bytes. An
/// offset inside the sink or at its end always is; one beyond the end only
/// where the sink may grow.
pub open spec fn offset_in_range(extent: nat, offset: nat, policy: GrowthPolicy) -> bool {
    offset <= extent || policy == GrowthPolicy::ZeroExtend
}

/// The sink after the patch: the payload stands at `offset`, every other
/// byte of the sink is as before, and what lies between the old end and
/// the offset is zero.
pub open spec fn patched(sink: Seq<u8>, offset: nat, payload: Seq<u8>) -> Seq<u8> {
    let end = offset + payload.len();
    Seq::new(
        if end > sink.len() {
            end
        } else {
            sink.len()
        },
        |i: int|
            if offset <= i < end {
                payload[i - offset]
            } else if i < sink.len() {
                sink[i]
            } else {
                0u8
            },
    )
}

/// Patch exactness: after a patch the payload stands at the offset, every
/// byte of the old sink outside the patched range is unchanged, the gap
/// between the old end and the offset is zero, and the sink has grown only
/// as far as the patch reaches.
pub proof fn lemma_patch_exactness(sink: Seq<u8>, offset: nat, payload: Seq<u8>)
    ensures
        patched(sink, offset, payload).len() == if offset + payload.len() > sink.len() {
            offset + payload.len()
        } else {
            sink.len()
        },
        patched(sink, offset, payload).subrange(
            offset as int,
            (offset + payload.len()) as int,
        ) == payload,
        forall|i: int|
            0 <= i < sink.len() && !(offset <= i < offset + payload.len()) ==> #[trigger] patched(
                sink,
                offset,
                payload,
            )[i] == sink[i],
        forall|i: int|
            sink.len() <= i < offset ==> #[trigger] patched(sink, offset, payload)[i] == 0,
{
    assert(patched(sink, offset, payload).subrange(
        offset as int,
        (offset + payload.len()) as int,
    ) =~= payload);
}

impl PatchRequest {
    /// The payload holds at least one byte.
    pub open spec fn wf(&self) -> bool {
        self.payload@.len() > 0
    }

    /// Builds a request; `None` for an empty payload.
    pub fn new(offset: u64, payload: Vec<u8>) -> (r: Option<PatchRequest>)
        ensures
            match r {
                Some(request) => request.wf() && request.offset == offset && request.payload
                    == payload,
                None => payload@.len() == 0,
            },
    {
        if payload.len() == 0 {
            None
        } else {
            Some(PatchRequest { offset, payload })
        }
    }
}

/// Checks a patch offset against the extent of the sink.
pub fn offset_check(extent: u64, offset: u64, policy: GrowthPolicy) -> (r: Result<(), ErrorKind>)
    ensures
        offset_in_range(extent as nat, offset as nat, policy) ==> r == Ok::<(), ErrorKind>(()),
        !offset_in_range(extent as nat, offset as nat, policy) ==> r == Err::<(), ErrorKind>(
            ErrorKind::OffsetOutOfRange,
        ),
{
    let growth = match policy {
        GrowthPolicy::Reject => false,
        GrowthPolicy::ZeroExtend => true,
    };
    if offset <= extent || growth {
        Ok(())
    } else {
        Err(ErrorKind::OffsetOutOfRange)
    }
}

/// Whether an in-memory sink of `extent` bytes takes the patch: the offset
/// is in range, and the last byte written has an index that fits in `usize`.
pub open spec fn fits_in_memory(extent: nat, request: PatchView, policy: GrowthPolicy) -> bool {
    offset_in_range(extent, request.offset, policy) && request.offset + request.payload.len()
        <= usize::MAX
}

/// Writes the payload into an in-memory sink, starting at the request's
/// offset, and returns the number of bytes written. A patch that the sink
/// does not take leaves it as it was.
pub fn patch(sink: &mut Vec<u8>, request: &PatchRequest, policy: GrowthPolicy) -> (r: Result<
    usize,
    ErrorKind,
>)
    requires
        request.wf(),
    ensures
        fits_in_memory(old(sink)@.len(), request@, policy) ==> r == Ok::<usize, ErrorKind>(
            request.payload@.len() as usize,
        ) && final(sink)@ == patched(old(sink)@, request@.offset, request@.payload),
        !fits_in_memory(old(sink)@.len(), request@, policy) ==> r == Err::<usize, ErrorKind>(
            ErrorKind::OffsetOutOfRange,
        ) && final(sink)@ == old(sink)@,
{
    let count = request.payload.len();
    let in_range = offset_check(sink.len() as u64, request.offset, policy).is_ok();
    if !in_range || request.offset > (usize::MAX - count) as u64 {
        return Err(ErrorKind::OffsetOutOfRange);
    }
    let start = request.offset as usize;
    while sink.len() < start
        invariant
            sink@.len() <= start || sink@.len() == old(sink)@.len(),
            sink@ == patched(old(sink)@, sink@.len() as nat, Seq::<u8>::empty()),
        decreases start - sink.len(),
    {
        sink.push(0);
    }
    assert(sink@ =~= patched(old(sink)@, start as nat, Seq::<u8>::empty()));
    let mut i: usize = 0;
    while i < count
        invariant
            i <= count,
            count == request.payload@.len(),
            start + count <= usize::MAX,
            sink@ == patched(old(sink)@, start as nat, request.payload@.take(i as int)),
        decreases count - i,
    {
        let b = request.payload[i];
        if start + i < sink.len() {
            sink.set(start + i, b);
        } else {
            sink.push(b);
        }
        assert(sink@ =~= patched(old(sink)@, start as nat, request.payload@.take(i + 1)));
        i += 1;
    }
    assert(request.payload@.take(count as int) =~= request.payload@);
    Ok(count)
}

/// What the sink answered to one write.
#[derive(Clone, Copy, Debug, PartialEq, Eq, Structural)]
pub enum SinkEvent {
    /// It took this many bytes from the front of what it was handed.
    Wrote(usize),
    /// The write failed.
    Failed,
}

/// What is to be done next for a patch.
#[derive(Clone, Copy, Debug, PartialEq, Eq, Structural)]
pub enum PatchStep {
    /// Hand the payload from index `from` on to the sink.
    Write { from: usize },
    /// The whole payload is written; `written` is its length.
    Done { written: usize },
    /// The patch failed after `written` bytes had been written.
    Failed { kind: ErrorKind, written: usize },
}

/// The progress of a patch on a sink that is written from outside.
#[derive(Clone, Copy, Debug, PartialEq, Eq, Structural)]
pub struct PatchSession {
    /// Length of the payload.
    pub total: usize,
    /// Bytes of the payload that the sink has taken.
    pub written: usize,
}

/// The step that follows an event, given how much of the payload had been
/// written before. A write of no byte, or of more than was handed over,
/// counts as a failure; a failure reports what had been written until then.
pub open spec fn step_after(written: nat, total: nat, event: SinkEvent) -> PatchStep {
    match event {
        SinkEvent::Wrote(n) if 0 < n && written + n < total => PatchStep::Write {
            from: (written + n) as usize,
        },
        SinkEvent::Wrote(n) if 0 < n && written + n == total => PatchStep::Done {
            written: total as usize,
        },
        _ => PatchStep::Failed { kind: ErrorKind::SinkNotWritable, written: written as usize },
    }
}

impl PatchSession {
    /// Some of the payload is still to be written.
    pub open spec fn wf(&self) -> bool {
        self.written < self.total
    }

    /// Opens a session for a sink of `extent` bytes, or turns the request
    /// down where its offset is out of range.
    pub fn begin(extent: u64, request: &PatchRequest, policy: GrowthPolicy) -> (r: Result<
        PatchSession,
        ErrorKind,
    >)
        requires
            request.wf(),
        ensures
            offset_in_range(extent as nat, request@.offset, policy) ==> r == Ok::<
                PatchSession,
                ErrorKind,
            >((PatchSession { total: request.payload@.len() as usize, written: 0 })),
            !offset_in_range(extent as nat, request@.offset, policy) ==> r == Err::<
                PatchSession,
                ErrorKind,
            >(ErrorKind::OffsetOutOfRange),
            r is Ok ==> r->Ok_0.wf(),
    {
        match offset_check(extent, request.offset, policy) {
            Ok(()) => Ok(PatchSession { total: request.payload.len(), written: 0 }),
            Err(e) => Err(e),
        }
    }

    /// Takes note of what the sink answered and says what follows. The
    /// count of written bytes grows by what the sink took, and a failure
    /// reports the count reached before it.
    pub fn record(&mut self, event: SinkEvent) -> (step: PatchStep)
        requires
            old(self).wf(),
        ensures
            step == step_after(old(self).written as nat, old(self).total as nat, event),
            final(self).total == old(self).total,
            final(self).written == match step {
                PatchStep::Write { from } => from,
                PatchStep::Done { written } => written,
                PatchStep::Failed { written, .. } => written,
            },
            old(self).written <= final(self).written <= final(self).total,
            step is Write ==> final(self).wf(),
    {
        match event {
            SinkEvent::Wrote(n) => {
                if n == 0 || n > self.total - self.written {
                    PatchStep::Failed { kind: ErrorKind::SinkNotWritable, written: self.written }
                } else {
                    self.written = self.written + n;
                    if self.written == self.total {
                        PatchStep::Done { written: self.written }
                    } else {
                        PatchStep::Write { from: self.written }
                    }
                }
            },
            SinkEvent::Failed => PatchStep::Failed {
                kind: ErrorKind::SinkNotWritable,
                written: self.written,
            },
        }
    }
}

} // verus!
