//! The decisions of the two loops that drive a transport: what the transmit
//! loop does once a write has returned, and what the receive loop does with
//! the outcome of a read. The caller performs the I/O and the waiting; the
//! functions here say what follows from each outcome.

use crate::generator::{backlog_after_validate, matches_head, Generator, MismatchError};
use vstd::prelude::*;

verus! {

/// Capacity of the buffer that the receive loop reads into.
pub const READ_BUFFER_SIZE: usize = 2048;

/// Length of one throughput window, in milliseconds.
pub const WINDOW_MILLIS: u64 = 1000;

/// Pause between two iterations of a loop, in milliseconds.
pub const PACE_MILLIS: u64 = 1;

/// How one iteration of a loop ends.
#[derive(Debug, Clone, Copy, PartialEq, Eq)]
pub enum Verdict {
    /// Pause, then run the next iteration.
    Continue,
    /// The shutdown flag was seen: leave the loop.
    Shutdown,
    /// The transport failed for another reason than a timeout: leave the loop.
    TransportFault,
    /// Received bytes are not the bytes that were sent: leave the loop.
    Corrupted(MismatchError),
}

/// Where a loop stands in its life.
#[derive(Debug, Clone, Copy, PartialEq, Eq)]
pub enum WorkerState {
    /// The loop runs.
    Running,
    /// The loop has left its last iteration and is not joined yet.
    Stopping,
    /// The loop's thread has been joined.
    Stopped,
}

impl WorkerState {
    /// The state after an iteration that ended with `verdict`: a running
    /// loop goes on running only on `Continue`; no other state changes.
    pub open spec fn spec_after(self, verdict: Verdict) -> WorkerState {
        match self {
            WorkerState::Running => if verdict is Continue {
                WorkerState::Running
            } else {
                WorkerState::Stopping
            },
            other => other,
        }
    }

    /// The state after the loop's thread was joined: a loop that was
    /// stopping is stopped; no other state changes.
    pub open spec fn spec_joined(self) -> WorkerState {
        match self {
            WorkerState::Stopping => WorkerState::Stopped,
            other => other,
        }
    }

    /// The state after an iteration that ended with `verdict`.
    pub fn after(self, verdict: Verdict) -> (next: WorkerState)
        ensures
            next == self.spec_after(verdict),
    {
        match self {
            WorkerState::Running => match verdict {
                Verdict::Continue => WorkerState::Running,
                _ => WorkerState::Stopping,
            },
            other => other,
        }
    }

    /// The state after the loop's thread was joined.
    pub fn joined(self) -> (next: WorkerState)
        ensures
            next == self.spec_joined(),
    {
        match self {
            WorkerState::Stopping => WorkerState::Stopped,
            other => other,
        }
    }
}

/// A session has ended when both of its loops are stopped.
pub fn session_ended(transmit: WorkerState, receive: WorkerState) -> (ended: bool)
    ensures
        ended == (transmit is Stopped && receive is Stopped),
{
    let tx_stopped = match transmit {
        WorkerState::Stopped => true,
        _ => false,
    };
    let rx_stopped = match receive {
        WorkerState::Stopped => true,
        _ => false,
    };
    tx_stopped && rx_stopped
}

/// A loop never runs again once it has left `Running`, and it is stopped
/// only by a join that follows its last iteration.
pub proof fn lemma_worker_state_only_moves_forward(state: WorkerState, verdict: Verdict)
    ensures
        !(state is Running) ==> !(state.spec_after(verdict) is Running),
        !(state is Running) ==> !(state.spec_joined() is Running),
        state is Stopped ==> state.spec_after(verdict) is Stopped && state.spec_joined() is Stopped,
        state.spec_joined() is Stopped <==> state is Stopping || state is Stopped,
        state.spec_after(verdict) is Stopped <==> state is Stopped,
        state is Running && !(verdict is Continue) ==> state.spec_after(verdict).spec_joined()
            is Stopped,
{
}

/// What the transport reported for one write of a whole chunk.
#[derive(Debug, Clone, Copy, PartialEq, Eq)]
pub enum WriteEvent {
    /// Every byte of the chunk was written.
    Complete,
    /// The write failed or stopped short.
    Failed,
}

/// What the transport reported for one read attempt.
#[derive(Debug, Clone, Copy)]
pub enum ReadEvent<'a> {
    /// These bytes arrived.
    Data(&'a [u8]),
    /// Nothing arrived before the read timed out.
    Idle,
    /// The read failed for another reason than a timeout.
    Failed,
}

/// The outcome of one iteration of the receive loop.
#[derive(Debug, Clone, Copy, PartialEq, Eq)]
pub struct ReceiveStep {
    /// How the iteration ends.
    pub verdict: Verdict,
    /// Bytes per second over the window that this iteration closed, if it
    /// closed one. The next window starts now.
    pub report: Option<u64>,
}

/// Bytes per second, rounded down, when `bytes` bytes took `elapsed_millis`.
pub open spec fn rate(bytes: nat, elapsed_millis: nat) -> nat
    recommends
        elapsed_millis > 0,
{
    bytes * 1000 / elapsed_millis
}

/// What the transmit loop does after a write: a failed or partial write is
/// a fault, whatever the shutdown flag says; after a full write the loop
/// ends if shutdown was requested and goes on otherwise.
pub open spec fn write_verdict(event: WriteEvent, stop: bool) -> Verdict {
    match event {
        WriteEvent::Failed => Verdict::TransportFault,
        WriteEvent::Complete => if stop {
            Verdict::Shutdown
        } else {
            Verdict::Continue
        },
    }
}

/// What a receive iteration decides once the bytes of this read are
/// counted: the verdict, the count that the meter keeps, and the report.
pub open spec fn settle(count: nat, stop: bool, elapsed_millis: nat) -> (Verdict, nat, Option<nat>) {
    if stop {
        (Verdict::Shutdown, count, None)
    } else if elapsed_millis >= WINDOW_MILLIS {
        (Verdict::Continue, 0, Some(rate(count, elapsed_millis)))
    } else {
        (Verdict::Continue, count, None)
    }
}

/// Counter of the bytes received in the current throughput window.
pub struct Meter {
    count: u64,
}

impl View for Meter {
    type V = nat;

    /// Bytes received since the window began.
    closed spec fn view(&self) -> nat {
        self.count as nat
    }
}

impl Meter {
    /// A meter at the start of a window: nothing received yet.
    pub fn new() -> (m: Meter)
        ensures
            m@ == 0,
    {
        Meter { count: 0 }
    }

    /// Bytes received since the window began.
    pub fn count(&self) -> (n: u64)
        ensures
            n == self@,
    {
        self.count
    }

    /// Whether `n` more bytes can be counted without leaving the counter's
    /// range.
    pub fn has_room(&self, n: usize) -> (b: bool)
        ensures
            b == (self@ + n <= u64::MAX),
    {
        n as u64 <= u64::MAX - self.count
    }

    /// Counts `n` more bytes.
    pub fn record(&mut self, n: usize)
        requires
            old(self)@ + n <= u64::MAX,
        ensures
            final(self)@ == old(self)@ + n,
    {
        self.count = self.count + n as u64;
    }

    /// Ends the window if it has lasted its full length: reports the rate
    /// over it and starts counting anew. A window that is still open is left
    /// as it is.
    pub fn close_window(&mut self, elapsed_millis: u64) -> (report: Option<u64>)
        ensures
            elapsed_millis >= WINDOW_MILLIS ==> final(self)@ == 0 && report == Some(
                rate(old(self)@, elapsed_millis as nat) as u64,
            ) && rate(old(self)@, elapsed_millis as nat) <= old(self)@,
            elapsed_millis < WINDOW_MILLIS ==> final(self)@ == old(self)@ && report is None,
    {
        if elapsed_millis >= WINDOW_MILLIS {
            let bytes = self.count as u128;
            let span = elapsed_millis as u128;
            proof {
                lemma_rate_bounded(bytes as nat, span as nat);
            }
            let per_second = bytes * 1000 / span;
            self.count = 0;
            Some(per_second as u64)
        } else {
            None
        }
    }
}

/// Over a window of at least a second, no more bytes per second were
/// received than bytes in all.
pub proof fn lemma_rate_bounded(bytes: nat, elapsed_millis: nat)
    requires
        elapsed_millis >= 1000,
    ensures
        rate(bytes, elapsed_millis) <= bytes,
{
    assert(bytes * 1000 / elapsed_millis <= bytes) by (nonlinear_arith)
        requires
            elapsed_millis >= 1000,
    ;
}

/// What the transmit loop does after the write of a chunk has returned.
///
/// A failed or partial write ends the loop with a fault, whatever the
/// shutdown flag says, since the backlog no longer tells what is on the
/// wire. After a full write the loop ends if shutdown was requested and goes
/// on otherwise.
pub fn after_write(event: WriteEvent, stop: bool) -> (verdict: Verdict)
    ensures
        verdict == write_verdict(event, stop),
{
    match event {
        WriteEvent::Failed => Verdict::TransportFault,
        WriteEvent::Complete => if stop {
            Verdict::Shutdown
        } else {
            Verdict::Continue
        },
    }
}

/// One iteration of the receive loop, after the read has returned.
///
/// A failed read ends the loop with a fault and touches nothing. Bytes that
/// arrived are validated against the backlog; if they do not validate, the
/// loop ends with the mismatch and the meter stays as it was. Otherwise they
/// are counted, and so is an idle read with no bytes; then the loop ends if
/// shutdown was requested, and else closes the throughput window if
/// `elapsed_millis`, the time since the window began, has reached its
/// length.
pub fn receive_step(
    generator: &mut Generator,
    meter: &mut Meter,
    event: ReadEvent<'_>,
    stop: bool,
    elapsed_millis: u64,
) -> (step: ReceiveStep)
    requires
        old(generator).wf(),
        event matches ReadEvent::Data(bytes) ==> old(meter)@ + bytes@.len() <= u64::MAX,
    ensures
        final(generator).wf(),
        final(generator).produced() == old(generator).produced(),
        final(generator).spec_chunk_size() == old(generator).spec_chunk_size(),
        match event {
            ReadEvent::Failed => {
                &&& step.verdict == Verdict::TransportFault
                &&& step.report is None
                &&& final(generator)@ == old(generator)@
                &&& final(meter)@ == old(meter)@
            },
            ReadEvent::Idle => {
                &&& final(generator)@ == old(generator)@
                &&& settles(step, final(meter)@, old(meter)@, stop, elapsed_millis)
            },
            ReadEvent::Data(bytes) => {
                &&& final(generator)@ == backlog_after_validate(old(generator)@, bytes@)
                &&& if matches_head(old(generator)@, bytes@) {
                    settles(
                        step,
                        final(meter)@,
                        old(meter)@ + bytes@.len(),
                        stop,
                        elapsed_millis,
                    )
                } else {
                    &&& step.verdict matches Verdict::Corrupted(e)
                    &&& e.explains(old(generator)@, bytes@)
                    &&& step.report is None
                    &&& final(meter)@ == old(meter)@
                }
            },
        },
{
    match event {
        ReadEvent::Failed => {
            return ReceiveStep { verdict: Verdict::TransportFault, report: None };
        },
        ReadEvent::Idle => {},
        ReadEvent::Data(bytes) => {
            match generator.validate(bytes) {
                Ok(()) => {
                    meter.record(bytes.len());
                },
                Err(e) => {
                    return ReceiveStep { verdict: Verdict::Corrupted(e), report: None };
                },
            }
        },
    }
    if stop {
        ReceiveStep { verdict: Verdict::Shutdown, report: None }
    } else {
        let report = meter.close_window(elapsed_millis);
        ReceiveStep { verdict: Verdict::Continue, report }
    }
}

/// `step` and the meter's new count are what `settle` gives for `count`
/// bytes in the window.
pub open spec fn settles(
    step: ReceiveStep,
    kept: nat,
    count: nat,
    stop: bool,
    elapsed_millis: u64,
) -> bool {
    let (verdict, left, report) = settle(count, stop, elapsed_millis as nat);
    &&& step.verdict == verdict
    &&& kept == left
    &&& match report {
        Some(r) => step.report == Some(r as u64) && r <= u64::MAX,
        None => step.report is None,
    }
}

/// Once shutdown is requested, no iteration of either loop asks for
/// another: each ends with a verdict that leaves the loop.
pub proof fn lemma_shutdown_ends_both_loops(event: WriteEvent, count: nat, elapsed_millis: nat)
    ensures
        write_verdict(event, true) != Verdict::Continue,
        settle(count, true, elapsed_millis).0 == Verdict::Shutdown,
{
}

/// A throughput report is made exactly when a window has run its full
/// length and shutdown was not requested, and the count starts anew exactly
/// then.
pub proof fn lemma_report_at_window_end(count: nat, stop: bool, elapsed_millis: nat)
    ensures
        settle(count, stop, elapsed_millis).2 is Some <==> !stop && elapsed_millis
            >= WINDOW_MILLIS,
        settle(count, stop, elapsed_millis).2 is None ==> settle(count, stop, elapsed_millis).1
            == count,
        settle(count, stop, elapsed_millis).2 is Some ==> settle(count, stop, elapsed_millis).1
            == 0,
{
}

} // verus!
