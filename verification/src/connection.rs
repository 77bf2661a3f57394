//! The record kept for each held connection, and what one write attempt
//! does to it.

use vstd::prelude::*;
use crate::elapsed::Elapsed;
use crate::error::{Error, IoFailure, IoKind};
use crate::peer_addr::PeerAddr;

verus! {

/// What one non-blocking write attempt reported.
#[derive(Debug, Clone, PartialEq, Eq)]
pub enum WriteOutcome {
    /// The peer took this many bytes of the fragment.
    Written(usize),
    /// The peer's window is full: nothing was taken.
    WouldBlock,
    /// The attempt was interrupted before anything happened.
    Interrupted,
    /// The connection is broken.
    Failed(IoFailure),
}

/// Whether a connection stays in its bucket after a write attempt.
#[derive(Debug, Clone, PartialEq, Eq)]
pub enum Verdict {
    Retain,
    Evict(Error),
}

/// The outcome that the result of a write attempt amounts to.
pub open spec fn outcome_of(result: Result<usize, IoFailure>) -> WriteOutcome {
    match result {
        Ok(n) => WriteOutcome::Written(n),
        Err(failure) => match failure.kind {
            IoKind::WouldBlock => WriteOutcome::WouldBlock,
            IoKind::Interrupted => WriteOutcome::Interrupted,
            _ => WriteOutcome::Failed(failure),
        },
    }
}

/// Tells backpressure and interruption apart from real failures.
pub fn classify(result: Result<usize, IoFailure>) -> (outcome: WriteOutcome)
    ensures
        outcome == outcome_of(result),
{
    match result {
        Ok(n) => WriteOutcome::Written(n),
        Err(failure) => match failure.kind {
            IoKind::WouldBlock => WriteOutcome::WouldBlock,
            IoKind::Interrupted => WriteOutcome::Interrupted,
            _ => WriteOutcome::Failed(failure),
        },
    }
}

/// Whether `count` consecutive blocked writes, `delay` seconds apart, have
/// used up a budget of `timeout` seconds.
pub open spec fn budget_spent(delay: int, count: int, timeout: int) -> bool {
    delay * count >= timeout
}

/// One held connection.
#[derive(Debug, PartialEq, Eq)]
pub struct Connection<S> {
    /// The socket, owned by the record alone.
    pub sock: S,
    /// Who is on the other side.
    pub peer: PeerAddr,
    /// When the connection was admitted.
    pub start: Elapsed,
    /// Bytes of the banner delivered so far.
    pub bytes_sent: u64,
    /// Write attempts that found the peer's window full, in a row.
    pub backpressure_count: u16,
}

impl<S> Connection<S> {
    /// The record after a write attempt that ended in `outcome`.
    pub open spec fn settled(self, outcome: WriteOutcome) -> Connection<S> {
        match outcome {
            WriteOutcome::Written(n) => Connection {
                bytes_sent: (self.bytes_sent + n) as u64,
                backpressure_count: 0,
                ..self
            },
            WriteOutcome::WouldBlock => Connection {
                backpressure_count: (self.backpressure_count + 1) as u16,
                ..self
            },
            WriteOutcome::Interrupted => self,
            WriteOutcome::Failed(_) => self,
        }
    }

    /// Whether the connection is kept after a write attempt that ended in
    /// `outcome`, with writes `delay` seconds apart and a budget of
    /// `timeout` seconds of backpressure.
    pub open spec fn verdict(self, outcome: WriteOutcome, delay: int, timeout: int) -> Verdict {
        match outcome {
            WriteOutcome::Written(_) => Verdict::Retain,
            WriteOutcome::WouldBlock => if budget_spent(
                delay,
                self.backpressure_count + 1,
                timeout,
            ) {
                Verdict::Evict(Error::Timeout)
            } else {
                Verdict::Retain
            },
            WriteOutcome::Interrupted => Verdict::Retain,
            WriteOutcome::Failed(failure) => Verdict::Evict(Error::Io(failure)),
        }
    }

    /// The counters can take `outcome` without running over.
    pub open spec fn has_room(self, outcome: WriteOutcome) -> bool {
        match outcome {
            WriteOutcome::Written(n) => self.bytes_sent + n <= u64::MAX,
            WriteOutcome::WouldBlock => self.backpressure_count < u16::MAX,
            _ => true,
        }
    }

    /// A record for a connection that has just been admitted.
    pub fn new(sock: S, peer: PeerAddr, start: Elapsed) -> (fresh: Connection<S>)
        ensures
            fresh == (Connection { sock, peer, start, bytes_sent: 0, backpressure_count: 0 }),
    {
        Connection { sock, peer, start, bytes_sent: 0, backpressure_count: 0 }
    }

    /// Records a write attempt and decides whether the connection stays.
    ///
    /// Bytes taken are counted and end any run of backpressure. A full
    /// window lengthens the run by one, and evicts once the run has lasted
    /// `timeout` seconds. An interrupted attempt changes nothing. Any other
    /// failure evicts at once.
    pub fn settle(&mut self, outcome: WriteOutcome, delay: u16, timeout: u16) -> (verdict: Verdict)
        requires
            old(self).has_room(outcome),
        ensures
            *final(self) == old(self).settled(outcome),
            verdict == old(self).verdict(outcome, delay as int, timeout as int),
    {
        match outcome {
            WriteOutcome::Written(n) => {
                self.bytes_sent = self.bytes_sent + n as u64;
                self.backpressure_count = 0;
                Verdict::Retain
            },
            WriteOutcome::WouldBlock => {
                self.backpressure_count = self.backpressure_count + 1;
                let count: u16 = self.backpressure_count;
                assert(delay as int * count as int <= 0xffff * 0xffff) by (nonlinear_arith)
                    requires
                        0 <= delay <= 0xffff,
                        0 <= count <= 0xffff,
                ;
                let waited: u32 = delay as u32 * count as u32;
                if waited < timeout as u32 {
                    Verdict::Retain
                } else {
                    Verdict::Evict(Error::Timeout)
                }
            },
            WriteOutcome::Interrupted => Verdict::Retain,
            WriteOutcome::Failed(failure) => Verdict::Evict(Error::Io(failure)),
        }
    }
}

impl<S> Connection<S> {
    /// The record after the write attempts `outcomes`, one after the other.
    pub open spec fn replayed(self, outcomes: Seq<WriteOutcome>) -> Connection<S>
        decreases outcomes.len(),
    {
        if outcomes.len() == 0 {
            self
        } else {
            self.replayed(outcomes.drop_last()).settled(outcomes.last())
        }
    }

    /// Whether the connection is kept through all of `outcomes`.
    pub open spec fn outlasts(self, outcomes: Seq<WriteOutcome>, delay: int, timeout: int) -> bool
        decreases outcomes.len(),
    {
        outcomes.len() == 0 || {
            &&& self.outlasts(outcomes.drop_last(), delay, timeout)
            &&& self.replayed(outcomes.drop_last()).verdict(outcomes.last(), delay, timeout)
                is Retain
        }
    }

    /// The run of backpressure has not used up the budget.
    pub open spec fn within_budget(self, delay: int, timeout: int) -> bool {
        self.backpressure_count == 0 || !budget_spent(
            delay,
            self.backpressure_count as int,
            timeout,
        )
    }
}

/// The length of the run of blocked writes at the end of `outcomes`, when
/// the run stood at `start` before them: a write that took bytes ends the
/// run, a blocked one lengthens it by one, an interrupted one leaves it.
pub open spec fn blocked_run(start: nat, outcomes: Seq<WriteOutcome>) -> nat
    decreases outcomes.len(),
{
    if outcomes.len() == 0 {
        start
    } else {
        match outcomes.last() {
            WriteOutcome::Written(_) => 0,
            WriteOutcome::WouldBlock => blocked_run(start, outcomes.drop_last()) + 1,
            _ => blocked_run(start, outcomes.drop_last()),
        }
    }
}

/// Whatever the write attempts report, a connection that is still held
/// counts exactly the blocked writes since the last one that took bytes, and
/// that run has not used up the budget. The next blocked write evicts it
/// exactly when the run, one longer, has lasted `timeout` seconds.
pub proof fn lemma_backpressure_counts_run<S>(
    c: Connection<S>,
    outcomes: Seq<WriteOutcome>,
    delay: int,
    timeout: int,
)
    requires
        delay >= 1,
        timeout <= u16::MAX,
        c.within_budget(delay, timeout),
        c.outlasts(outcomes, delay, timeout),
    ensures
        c.replayed(outcomes).backpressure_count == blocked_run(
            c.backpressure_count as nat,
            outcomes,
        ),
        c.replayed(outcomes).within_budget(delay, timeout),
        c.replayed(outcomes).verdict(WriteOutcome::WouldBlock, delay, timeout) == (if delay * (
        blocked_run(c.backpressure_count as nat, outcomes) + 1) >= timeout {
            Verdict::Evict(Error::Timeout)
        } else {
            Verdict::Retain
        }),
    decreases outcomes.len(),
{
    if outcomes.len() > 0 {
        let earlier = outcomes.drop_last();
        lemma_backpressure_counts_run(c, earlier, delay, timeout);
        let before = c.replayed(earlier);
        let count = before.backpressure_count;
        assert(count < u16::MAX) by (nonlinear_arith)
            requires
                count == 0 || delay * count < timeout,
                delay >= 1,
                timeout <= 0xffff,
                count >= 0,
        ;
    }
}

/// A write that takes bytes ends the run of backpressure at once, whatever
/// came before, and never evicts.
pub proof fn lemma_written_resets<S>(c: Connection<S>, taken: usize, delay: int, timeout: int)
    ensures
        c.settled(WriteOutcome::Written(taken)).backpressure_count == 0,
        c.verdict(WriteOutcome::Written(taken), delay, timeout) is Retain,
{
}

/// A blocked write evicts exactly when the run that it lengthens has used
/// up the budget: never earlier, never later.
pub proof fn lemma_blocked_evicts_on_budget<S>(c: Connection<S>, delay: int, timeout: int)
    requires
        c.backpressure_count < u16::MAX,
    ensures
        c.settled(WriteOutcome::WouldBlock).backpressure_count == c.backpressure_count + 1,
        c.verdict(WriteOutcome::WouldBlock, delay, timeout) is Evict <==> delay * c.settled(
            WriteOutcome::WouldBlock,
        ).backpressure_count >= timeout,
{
}

} // verus!
