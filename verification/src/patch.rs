use vstd::prelude::*;

verus! {

/// A probe read must return at least this many bytes before the payload is
/// written.
pub const MIN_PROBED_BYTES: usize = 4;

/// What became of one offset of the table.
#[derive(Clone, Copy, Debug, PartialEq, Eq, Structural)]
pub enum OffsetOutcome {
    /// The probe read succeeded and the payload was written.
    Patched,
    /// The probe read failed; nothing was written.
    ReadFailed,
    /// The probe read returned fewer than `MIN_PROBED_BYTES` bytes; nothing
    /// was written.
    ShortRead,
    /// The probe read succeeded and the write failed.
    WriteFailed,
    /// Base plus offset is no address of this machine; nothing was read or
    /// written.
    OutOfRange,
}

/// What the patcher asks of the memory of the target process.
#[derive(Clone, Copy, Debug, PartialEq, Eq, Structural)]
pub enum MemoryAction {
    /// Read `length` bytes at `address`, to learn whether the place can be
    /// reached.
    Probe { address: usize, length: usize },
    /// Write the payload at `address`: all of it, which is `length` bytes.
    Write { address: usize, length: usize },
    /// Every offset has its outcome.
    Finished,
}

/// How the memory of the target process answered.
#[derive(Clone, Copy, Debug, PartialEq, Eq, Structural)]
pub enum MemoryReply {
    /// The read succeeded and returned `bytes` bytes.
    Read { bytes: usize },
    ReadFailed,
    Written,
    WriteFailed,
}

/// The state of a patch run, as mathematics: the plan, the outcomes of the
/// offsets dealt with so far, and whether the current offset has been probed
/// and now awaits its write.
pub struct PatcherView {
    pub base: usize,
    pub offsets: Seq<usize>,
    pub payload: Seq<u8>,
    pub probe_size: usize,
    pub report: Seq<OffsetOutcome>,
    pub writing: bool,
}

impl PatcherView {
    /// How many offsets have their outcome; also the index of the current one.
    pub open spec fn cursor(self) -> int {
        self.report.len() as int
    }

    pub open spec fn finished(self) -> bool {
        self.cursor() >= self.offsets.len()
    }

    /// The address of the current offset.
    pub open spec fn address(self) -> int {
        self.base + self.offsets[self.cursor()]
    }

    /// No offset has more than one outcome, the current offset has an address
    /// on this machine, and a write is awaited only for a current offset.
    pub open spec fn wf(self) -> bool {
        &&& self.report.len() <= self.offsets.len()
        &&& !self.finished() ==> self.address() <= usize::MAX
        &&& self.writing ==> !self.finished()
    }

    /// How many answers the run can still take at most: two for each offset
    /// without an outcome, less one where the current offset awaits its
    /// write.
    pub open spec fn steps_left(self) -> int {
        2 * (self.offsets.len() - self.report.len()) - if self.writing {
            1int
        } else {
            0int
        }
    }

    /// The state with one more outcome, ready to probe.
    pub open spec fn with_outcome(self, outcome: OffsetOutcome) -> PatcherView {
        PatcherView { report: self.report.push(outcome), writing: false, ..self }
    }

    /// The state after passing over every offset, from the current one on,
    /// that has no address on this machine. Each is marked out of range.
    pub open spec fn settled(self) -> PatcherView
        decreases self.offsets.len() - self.report.len(),
    {
        if !self.finished() && self.address() > usize::MAX {
            self.with_outcome(OffsetOutcome::OutOfRange).settled()
        } else {
            self
        }
    }

    /// The state in which a run begins.
    pub open spec fn start(
        base: usize,
        offsets: Seq<usize>,
        payload: Seq<u8>,
        probe_size: usize,
    ) -> PatcherView {
        PatcherView {
            base,
            offsets,
            payload,
            probe_size,
            report: Seq::<OffsetOutcome>::empty(),
            writing: false,
        }.settled()
    }

    /// What the memory is asked next.
    pub open spec fn action(self) -> MemoryAction {
        if self.finished() {
            MemoryAction::Finished
        } else if self.writing {
            MemoryAction::Write {
                address: self.address() as usize,
                length: self.payload.len() as usize,
            }
        } else {
            MemoryAction::Probe { address: self.address() as usize, length: self.probe_size }
        }
    }

    /// Whether `reply` answers the pending action.
    pub open spec fn answers(self, reply: MemoryReply) -> bool {
        match self.action() {
            MemoryAction::Probe { .. } => reply is Read || reply is ReadFailed,
            MemoryAction::Write { .. } => reply is Written || reply is WriteFailed,
            MemoryAction::Finished => false,
        }
    }

    /// Whether `reply` answers the pending action and settles the current
    /// offset, and if so with which outcome. A long enough read settles
    /// nothing: the write follows.
    pub open spec fn outcome_of(self, reply: MemoryReply) -> Option<OffsetOutcome> {
        if !self.answers(reply) {
            None
        } else {
            match reply {
                MemoryReply::Read { bytes } => if bytes >= MIN_PROBED_BYTES {
                    None
                } else {
                    Some(OffsetOutcome::ShortRead)
                },
                MemoryReply::ReadFailed => Some(OffsetOutcome::ReadFailed),
                MemoryReply::Written => Some(OffsetOutcome::Patched),
                MemoryReply::WriteFailed => Some(OffsetOutcome::WriteFailed),
            }
        }
    }

    /// The state after `reply`. A reply that does not answer the pending
    /// action changes nothing. A read of enough bytes leads to the write at
    /// the same address. Every other answer settles the current offset, and
    /// the run moves on to the next offset that has an address.
    pub open spec fn advanced(self, reply: MemoryReply) -> PatcherView {
        if !self.answers(reply) {
            self
        } else {
            match self.outcome_of(reply) {
                Some(outcome) => self.with_outcome(outcome).settled(),
                None => PatcherView { writing: true, ..self },
            }
        }
    }
}

/// A patch run over one table of offsets: it says what to ask of the target's
/// memory, takes the answer, and keeps the outcome of each offset.
pub struct Patcher {
    base: usize,
    offsets: Vec<usize>,
    payload: Vec<u8>,
    probe_size: usize,
    report: Vec<OffsetOutcome>,
    writing: bool,
}

impl View for Patcher {
    type V = PatcherView;

    closed spec fn view(&self) -> PatcherView {
        PatcherView {
            base: self.base,
            offsets: self.offsets@,
            payload: self.payload@,
            probe_size: self.probe_size,
            report: self.report@,
            writing: self.writing,
        }
    }
}

impl Patcher {
    /// Passes over the offsets that have no address.
    fn settle(&mut self)
        requires
            old(self).report.len() <= old(self).offsets.len(),
            !old(self).writing,
        ensures
            final(self)@ == old(self)@.settled(),
            final(self)@.wf(),
    {
        while self.report.len() < self.offsets.len() && self.base.checked_add(
            self.offsets[self.report.len()],
        ).is_none()
            invariant
                self.report.len() <= self.offsets.len(),
                !self.writing,
                self@.settled() == old(self)@.settled(),
            decreases self.offsets.len() - self.report.len(),
        {
            self.report.push(OffsetOutcome::OutOfRange);
        }
    }

    /// Begins a run that patches `payload` at `base` plus each of `offsets`,
    /// in their order, after a probe read of `probe_size` bytes.
    pub fn new(base: usize, offsets: Vec<usize>, payload: Vec<u8>, probe_size: usize) -> (patcher:
        Patcher)
        ensures
            patcher@ == PatcherView::start(base, offsets@, payload@, probe_size),
            patcher@.wf(),
    {
        let mut patcher = Patcher {
            base,
            offsets,
            payload,
            probe_size,
            report: Vec::new(),
            writing: false,
        };
        patcher.settle();
        patcher
    }

    /// What to ask of the target's memory now.
    pub fn action(&self) -> (action: MemoryAction)
        requires
            self@.wf(),
        ensures
            action == self@.action(),
    {
        if self.report.len() >= self.offsets.len() {
            MemoryAction::Finished
        } else {
            let address = self.base + self.offsets[self.report.len()];
            if self.writing {
                MemoryAction::Write { address, length: self.payload.len() }
            } else {
                MemoryAction::Probe { address, length: self.probe_size }
            }
        }
    }

    /// Takes the answer to the pending action.
    pub fn advance(&mut self, reply: MemoryReply)
        requires
            old(self)@.wf(),
        ensures
            final(self)@ == old(self)@.advanced(reply),
            final(self)@.wf(),
    {
        if self.report.len() >= self.offsets.len() {
            return ;
        }
        let outcome = if self.writing {
            match reply {
                MemoryReply::Written => OffsetOutcome::Patched,
                MemoryReply::WriteFailed => OffsetOutcome::WriteFailed,
                _ => {
                    return ;
                },
            }
        } else {
            match reply {
                MemoryReply::Read { bytes } => {
                    if bytes >= MIN_PROBED_BYTES {
                        self.writing = true;
                        return ;
                    }
                    OffsetOutcome::ShortRead
                },
                MemoryReply::ReadFailed => OffsetOutcome::ReadFailed,
                _ => {
                    return ;
                },
            }
        };
        self.report.push(outcome);
        self.writing = false;
        self.settle();
    }

    /// Whether every offset has its outcome.
    pub fn is_finished(&self) -> (finished: bool)
        ensures
            finished == self@.finished(),
    {
        self.report.len() >= self.offsets.len()
    }

    /// The bytes that a write is to write.
    pub fn payload(&self) -> (payload: &Vec<u8>)
        ensures
            payload@ == self@.payload,
    {
        &self.payload
    }

    /// The outcomes so far, one for each offset dealt with, in table order.
    pub fn report(&self) -> (report: &Vec<OffsetOutcome>)
        ensures
            report@ == self@.report,
    {
        &self.report
    }

    /// Ends the run and hands out its outcomes.
    pub fn into_report(self) -> (report: Vec<OffsetOutcome>)
        ensures
            report@ == self@.report,
    {
        self.report
    }
}

/// Passing over offsets without an address keeps the plan and the outcomes
/// already there, and ends at an offset that has an address or at the end of
/// the table.
proof fn lemma_settled(state: PatcherView)
    requires
        state.report.len() <= state.offsets.len(),
        !state.writing,
    ensures
        state.settled().wf(),
        !state.settled().writing,
        state.settled().base == state.base,
        state.settled().offsets == state.offsets,
        state.settled().payload == state.payload,
        state.settled().probe_size == state.probe_size,
        state.settled().report.len() >= state.report.len(),
        state.settled().report.take(state.report.len() as int) == state.report,
        !state.finished() && state.address() <= usize::MAX ==> state.settled() == state,
    decreases state.offsets.len() - state.report.len(),
{
    if !state.finished() && state.address() > usize::MAX {
        let next = state.with_outcome(OffsetOutcome::OutOfRange);
        lemma_settled(next);
        assert(next.report.take(state.report.len() as int) =~= state.report);
        assert(next.settled().report.take(state.report.len() as int) =~= next.settled().report.take(
            next.report.len() as int,
        ).take(state.report.len() as int));
    } else {
        assert(state.report.take(state.report.len() as int) =~= state.report);
    }
}

/// A run begins well formed, with the plan it was given and with outcomes
/// only for the leading offsets that have no address.
pub proof fn lemma_start_is_well_formed(
    base: usize,
    offsets: Seq<usize>,
    payload: Seq<u8>,
    probe_size: usize,
)
    ensures
        PatcherView::start(base, offsets, payload, probe_size).wf(),
        !PatcherView::start(base, offsets, payload, probe_size).writing,
        PatcherView::start(base, offsets, payload, probe_size).base == base,
        PatcherView::start(base, offsets, payload, probe_size).offsets == offsets,
        PatcherView::start(base, offsets, payload, probe_size).payload == payload,
        PatcherView::start(base, offsets, payload, probe_size).probe_size == probe_size,
        offsets.len() > 0 && base + offsets[0] <= usize::MAX ==> PatcherView::start(
            base,
            offsets,
            payload,
            probe_size,
        ).report.len() == 0,
{
    lemma_settled(
        PatcherView {
            base,
            offsets,
            payload,
            probe_size,
            report: Seq::<OffsetOutcome>::empty(),
            writing: false,
        },
    );
}

/// Where a run settles depends on the plan and on how many offsets have
/// their outcome, not on what the outcomes are.
proof fn lemma_settled_alike(a: PatcherView, b: PatcherView)
    requires
        a.base == b.base,
        a.offsets == b.offsets,
        a.probe_size == b.probe_size,
        a.report.len() == b.report.len(),
        a.report.len() <= a.offsets.len(),
        !a.writing,
        !b.writing,
    ensures
        a.settled().action() == b.settled().action(),
        a.settled().report.len() == b.settled().report.len(),
        a.settled().report.skip(a.report.len() as int) == b.settled().report.skip(
            b.report.len() as int,
        ),
    decreases a.offsets.len() - a.report.len(),
{
    if !a.finished() && a.address() > usize::MAX {
        let a1 = a.with_outcome(OffsetOutcome::OutOfRange);
        let b1 = b.with_outcome(OffsetOutcome::OutOfRange);
        lemma_settled_alike(a1, b1);
        lemma_settled(a1);
        lemma_settled(b1);
        let n = a.report.len() as int;
        let ta = a1.settled().report;
        let tb = b1.settled().report;
        assert(ta.take(n + 1)[n] == a1.report[n]);
        assert(tb.take(n + 1)[n] == b1.report[n]);
        assert(ta.skip(n) =~= seq![OffsetOutcome::OutOfRange] + ta.skip(n + 1));
        assert(tb.skip(n) =~= seq![OffsetOutcome::OutOfRange] + tb.skip(n + 1));
    } else {
        assert(a.report.skip(a.report.len() as int) =~= b.report.skip(b.report.len() as int));
    }
}

/// An answer never changes the plan, never takes back or alters an outcome
/// that an offset already has, and leaves the run well formed.
pub proof fn lemma_outcomes_stay(state: PatcherView, reply: MemoryReply)
    requires
        state.wf(),
    ensures
        state.advanced(reply).wf(),
        state.advanced(reply).base == state.base,
        state.advanced(reply).offsets == state.offsets,
        state.advanced(reply).payload == state.payload,
        state.advanced(reply).probe_size == state.probe_size,
        state.advanced(reply).report.len() >= state.report.len(),
        state.advanced(reply).report.take(state.report.len() as int) == state.report,
{
    match state.outcome_of(reply) {
        Some(outcome) => {
            let next = state.with_outcome(outcome);
            lemma_settled(next);
            assert(next.report.take(state.report.len() as int) =~= state.report);
            assert(next.settled().report.take(state.report.len() as int) =~= next.settled().report.take(
                next.report.len() as int,
            ).take(state.report.len() as int));
        },
        None => {
            assert(state.report.take(state.report.len() as int) =~= state.report);
        },
    }
}

/// An answer that settles the current offset, a failure as much as a
/// success, gives that offset its outcome and does not end the run: where the
/// next offset of the table has an address, it is probed next.
pub proof fn lemma_failure_does_not_stop(state: PatcherView, reply: MemoryReply)
    requires
        state.wf(),
        state.outcome_of(reply) is Some,
    ensures
        state.advanced(reply).report.len() > state.cursor(),
        state.advanced(reply).report[state.cursor()] == state.outcome_of(reply)->0,
        state.cursor() + 1 < state.offsets.len() && state.base + state.offsets[state.cursor() + 1]
            <= usize::MAX ==> state.advanced(reply).action() == (MemoryAction::Probe {
            address: (state.base + state.offsets[state.cursor() + 1]) as usize,
            length: state.probe_size,
        }),
{
    let next = state.with_outcome(state.outcome_of(reply)->0);
    lemma_settled(next);
    assert(next.settled().report.take(next.report.len() as int)[state.cursor()]
        == next.report[state.cursor()]);
}

/// What is asked after an offset is settled, and what becomes of the offsets
/// passed over on the way, is the same whichever outcome the offset got.
pub proof fn lemma_next_action_ignores_outcome(
    state: PatcherView,
    one: MemoryReply,
    other: MemoryReply,
)
    requires
        state.wf(),
        state.outcome_of(one) is Some,
        state.outcome_of(other) is Some,
    ensures
        state.advanced(one).action() == state.advanced(other).action(),
        state.advanced(one).report.len() == state.advanced(other).report.len(),
        state.advanced(one).report.skip(state.cursor() + 1) == state.advanced(other).report.skip(
            state.cursor() + 1,
        ),
{
    lemma_settled_alike(
        state.with_outcome(state.outcome_of(one)->0),
        state.with_outcome(state.outcome_of(other)->0),
    );
}

/// Every answer to what was asked brings the run nearer its end, which it
/// reaches after at most two answers for each offset. Only a run that is
/// finished has no step left.
pub proof fn lemma_every_answer_makes_progress(state: PatcherView, reply: MemoryReply)
    requires
        state.wf(),
    ensures
        state.steps_left() >= 0,
        state.steps_left() == 0 <==> state.finished(),
        state.steps_left() <= 2 * state.offsets.len(),
        state.answers(reply) ==> state.advanced(reply).steps_left() < state.steps_left(),
        !state.answers(reply) ==> state.advanced(reply) == state,
{
    if state.answers(reply) {
        match state.outcome_of(reply) {
            Some(outcome) => {
                lemma_settled(state.with_outcome(outcome));
            },
            None => {},
        }
    }
}

} // verus!
