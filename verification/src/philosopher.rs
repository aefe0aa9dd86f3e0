use vstd::prelude::*;
use crate::fork::Acquire;
use crate::fork::ForkState;
use crate::fork::Table;

verus! {

/// Relies on rand::random: a value drawn from the thread-local generator,
/// used for the idle pause's length. Nothing is promised of the value.
pub assume_specification<T>[ rand::random::<T> ]() -> (r: T)
    where
        rand::distributions::Standard: rand::distributions::Distribution<T>,
;

/// One observable transition in an actor's own narration.
#[derive(Clone, Copy, PartialEq, Eq, Structural, Debug)]
pub enum EventKind {
    SatDown,
    AcquiredLeft,
    AcquiredRight,
    Working,
    ReleasedRight,
    ReleasedLeft,
    Idling,
}

/// A narration line: which actor did what.
#[derive(Clone, Copy, PartialEq, Eq, Structural, Debug)]
pub struct Event {
    pub actor: usize,
    pub kind: EventKind,
}

pub open spec fn ev(actor: usize, kind: EventKind) -> Event {
    Event { actor, kind }
}

/// Why an acquisition, a cycle or a run could not go on.
#[derive(Clone, Copy, PartialEq, Eq, Structural, Debug)]
pub enum AcquireError {
    /// A fork was held by the neighbor: expected and recoverable; the
    /// caller releases whatever it holds and idles instead.
    Busy,
    /// The fork with this index is poisoned: fatal, the run must end.
    Poisoned(usize),
}

/// How a blocking run ended in this model. `BlockedOn(f)` stands for the
/// running system never completing: the actor waits forever on fork `f`,
/// keeping whatever it already holds.
#[derive(Clone, Copy, PartialEq, Eq, Structural, Debug)]
pub enum BlockingRun {
    Completed,
    BlockedOn(usize),
    Fatal(usize),
}

/// The outcome of one blocking acquisition step. A step that would block
/// forever in the running system answers `Blocked` here and changes
/// nothing: the caller is still waiting.
#[derive(Clone, Copy, PartialEq, Eq, Structural, Debug)]
pub enum BlockOutcome {
    Progressed,
    Blocked,
    Fatal(usize),
}

/// An actor at the table: a name for narration, a seat, and the indices
/// of the two adjacent forks it contends for. It never owns a fork, only
/// transient lock tenure recorded in the table.
#[derive(Debug)]
pub struct Philosopher {
    pub seat: usize,
    pub name: String,
    pub left_fork: usize,
    pub right_fork: usize,
}

/// `s` repeated `n` times, one copy appended per completed round.
pub open spec fn repeat_trace(s: Seq<Event>, n: nat) -> Seq<Event>
    decreases n,
{
    if n == 0 {
        Seq::empty()
    } else {
        repeat_trace(s, (n - 1) as nat) + s
    }
}

impl Philosopher {
    /// Both fork indices point into a table of `n` forks and differ, so
    /// that holding "both" really holds two forks. A ring of at least two
    /// seats guarantees this.
    pub open spec fn wf(&self, n: nat) -> bool {
        &&& self.left_fork < n
        &&& self.right_fork < n
        &&& self.left_fork != self.right_fork
    }

    pub open spec fn holds_left(&self, t: Seq<ForkState>) -> bool {
        t[self.left_fork as int] == ForkState::HeldBy(self.seat)
    }

    pub open spec fn holds_right(&self, t: Seq<ForkState>) -> bool {
        t[self.right_fork as int] == ForkState::HeldBy(self.seat)
    }

    pub fn new(seat: usize, name: String, left_fork: usize, right_fork: usize) -> (p: Philosopher)
        ensures
            p.seat == seat,
            p.name@ == name@,
            p.left_fork == left_fork,
            p.right_fork == right_fork,
    {
        Philosopher { seat, name, left_fork, right_fork }
    }

    /// The idle action's length: a small randomized pause in nanoseconds,
    /// always under 10. The pause itself is the runner's business; no
    /// fork is touched here.
    pub fn think(&self) -> (d: u64)
        ensures
            d < 10,
    {
        let raw: u64 = rand::random();
        raw % 10
    }

    /// The work action: permitted only while both forks are held, and of
    /// a fixed short length in nanoseconds.
    pub fn eat(&self, table: &Table) -> (d: u64)
        requires
            self.wf(table@.len() as nat),
            self.holds_left(table@),
            self.holds_right(table@),
        ensures
            d == 100,
    {
        100
    }

    /// The narration of one successful turn at the right fork: acquired,
    /// worked, released.
    pub open spec fn right_ok_trace(&self) -> Seq<Event> {
        seq![
            ev(self.seat, EventKind::AcquiredRight),
            ev(self.seat, EventKind::Working),
            ev(self.seat, EventKind::ReleasedRight),
        ]
    }

    /// What one non-blocking cycle returns, given the table it sees:
    /// work done, busy, or fatal poison naming the broken fork.
    pub open spec fn cycle_result(&self, t: Seq<ForkState>) -> Result<(), AcquireError> {
        if t[self.left_fork as int] is Free {
            if t[self.right_fork as int] is Free {
                Ok(())
            } else if t[self.right_fork as int] is HeldBy {
                Err(AcquireError::Busy)
            } else {
                Err(AcquireError::Poisoned(self.right_fork))
            }
        } else if t[self.left_fork as int] is HeldBy {
            Err(AcquireError::Busy)
        } else {
            Err(AcquireError::Poisoned(self.left_fork))
        }
    }

    /// The narration of one non-blocking cycle. Losing the right fork
    /// still narrates the left pickup and its release: a single fork is
    /// never kept past the cycle.
    pub open spec fn cycle_trace(&self, t: Seq<ForkState>) -> Seq<Event> {
        if t[self.left_fork as int] is Free {
            if t[self.right_fork as int] is Free {
                seq![ev(self.seat, EventKind::AcquiredLeft)] + self.right_ok_trace() + seq![
                    ev(self.seat, EventKind::ReleasedLeft),
                ]
            } else {
                seq![ev(self.seat, EventKind::AcquiredLeft), ev(self.seat, EventKind::ReleasedLeft)]
            }
        } else {
            Seq::empty()
        }
    }

    /// Non-blocking work at the right fork while the left is held: try
    /// the right fork; if it is free, work while holding both, then
    /// release the right fork; if it is busy, change nothing and answer
    /// busy; if it is poisoned, change nothing and answer the fatal
    /// error. In every case the table ends as it began.
    pub fn with_right_fork(&self, table: &mut Table, log: &mut Vec<Event>) -> (r: Result<
        (),
        AcquireError,
    >)
        requires
            self.wf(old(table)@.len() as nat),
            self.holds_left(old(table)@),
            !self.holds_right(old(table)@),
        ensures
            final(table)@ == old(table)@,
            old(table)@[self.right_fork as int] is Free ==> r == Ok::<(), AcquireError>(())
                && final(log)@ == old(log)@ + self.right_ok_trace(),
            old(table)@[self.right_fork as int] is HeldBy ==> r == Err::<(), AcquireError>(
                AcquireError::Busy,
            ) && final(log)@ == old(log)@,
            old(table)@[self.right_fork as int] is Poisoned ==> r == Err::<(), AcquireError>(
                AcquireError::Poisoned(self.right_fork),
            ) && final(log)@ == old(log)@,
    {
        match table.try_acquire(self.right_fork, self.seat) {
            Acquire::Acquired => {
                log.push(Event { actor: self.seat, kind: EventKind::AcquiredRight });
                log.push(Event { actor: self.seat, kind: EventKind::Working });
                let _work = self.eat(&*table);
                table.release(self.right_fork, self.seat);
                log.push(Event { actor: self.seat, kind: EventKind::ReleasedRight });
                proof {
                    assert(table@ =~= old(table)@);
                    assert(log@ =~= old(log)@ + self.right_ok_trace());
                }
                Ok(())
            },
            Acquire::Busy => Err(AcquireError::Busy),
            Acquire::PoisonFound => Err(AcquireError::Poisoned(self.right_fork)),
        }
    }

    /// One full non-blocking cycle: try the left fork; if taken, try the
    /// work at the right fork through `with_right_fork`; release the left
    /// fork on every path before returning. Busy forks are recoverable;
    /// a poisoned fork is fatal and named in the error. The table always
    /// ends as it began: nothing stays held across a cycle boundary.
    pub fn with_left_fork(&self, table: &mut Table, log: &mut Vec<Event>) -> (r: Result<
        (),
        AcquireError,
    >)
        requires
            self.wf(old(table)@.len() as nat),
            !self.holds_left(old(table)@),
            !self.holds_right(old(table)@),
        ensures
            final(table)@ == old(table)@,
            r == self.cycle_result(old(table)@),
            final(log)@ == old(log)@ + self.cycle_trace(old(table)@),
    {
        match table.try_acquire(self.left_fork, self.seat) {
            Acquire::Acquired => {
                log.push(Event { actor: self.seat, kind: EventKind::AcquiredLeft });
                let inner = self.with_right_fork(table, log);
                table.release(self.left_fork, self.seat);
                log.push(Event { actor: self.seat, kind: EventKind::ReleasedLeft });
                proof {
                    assert(table@ =~= old(table)@);
                    assert(log@ =~= old(log)@ + self.cycle_trace(old(table)@));
                }
                inner
            },
            Acquire::Busy => {
                proof {
                    assert(log@ =~= old(log)@ + self.cycle_trace(old(table)@));
                }
                Err(AcquireError::Busy)
            },
            Acquire::PoisonFound => {
                proof {
                    assert(log@ =~= old(log)@ + self.cycle_trace(old(table)@));
                }
                Err(AcquireError::Poisoned(self.left_fork))
            },
        }
    }

    /// The narration of one whole non-blocking round: the cycle, followed
    /// by an idling line when the cycle was abandoned as busy.
    pub open spec fn round_trace(&self, t: Seq<ForkState>) -> Seq<Event> {
        self.cycle_trace(t) + if self.cycle_result(t) == Err::<(), AcquireError>(
            AcquireError::Busy,
        ) {
            seq![ev(self.seat, EventKind::Idling)]
        } else {
            Seq::empty()
        }
    }

    /// How a bounded non-blocking run ends on a table it has to itself:
    /// it fails only when a poisoned fork is met, which the first cycle
    /// already meets.
    pub open spec fn dine_result(&self, t: Seq<ForkState>, iterations: nat) -> Result<
        (),
        AcquireError,
    > {
        if iterations == 0 {
            Ok(())
        } else {
            match self.cycle_result(t) {
                Err(AcquireError::Poisoned(f)) => Err(AcquireError::Poisoned(f)),
                _ => Ok(()),
            }
        }
    }

    /// The whole narration of a bounded non-blocking run on a table it
    /// has to itself: sitting down, then one round per cycle, cut short
    /// at the first fatal fork.
    pub open spec fn dine_trace(&self, t: Seq<ForkState>, iterations: nat) -> Seq<Event> {
        seq![ev(self.seat, EventKind::SatDown)] + if iterations == 0 {
            Seq::empty()
        } else {
            match self.cycle_result(t) {
                Err(AcquireError::Poisoned(_)) => self.cycle_trace(t),
                _ => repeat_trace(self.round_trace(t), iterations),
            }
        }
    }

    /// A bounded run of the non-blocking policy: sit down, then for each
    /// of `iterations` cycles attempt the left-then-right acquisition and
    /// either work or idle; a busy fork only costs the cycle, a poisoned
    /// fork aborts the run at once with the fatal error. Every fork taken
    /// is released before the cycle ends, so the table is left exactly as
    /// found.
    pub fn dine(&self, table: &mut Table, log: &mut Vec<Event>, iterations: usize) -> (r: Result<
        (),
        AcquireError,
    >)
        requires
            self.wf(old(table)@.len() as nat),
            !self.holds_left(old(table)@),
            !self.holds_right(old(table)@),
        ensures
            final(table)@ == old(table)@,
            r == self.dine_result(old(table)@, iterations as nat),
            final(log)@ == old(log)@ + self.dine_trace(old(table)@, iterations as nat),
    {
        log.push(Event { actor: self.seat, kind: EventKind::SatDown });
        let mut k: usize = 0;
        while k < iterations
            invariant
                self.wf(table@.len() as nat),
                table@ == old(table)@,
                !self.holds_left(table@),
                !self.holds_right(table@),
                k <= iterations,
                log@ == old(log)@ + seq![ev(self.seat, EventKind::SatDown)] + repeat_trace(
                    self.round_trace(old(table)@),
                    k as nat,
                ),
                k > 0 ==> !(self.cycle_result(old(table)@) matches Err(AcquireError::Poisoned(_))),
            decreases iterations - k,
        {
            let outcome = self.with_left_fork(table, log);
            match outcome {
                Ok(()) => {},
                Err(AcquireError::Busy) => {
                    log.push(Event { actor: self.seat, kind: EventKind::Idling });
                },
                Err(AcquireError::Poisoned(f)) => {
                    proof {
                        assert(k == 0);
                        assert(log@ =~= old(log)@ + self.dine_trace(
                            old(table)@,
                            iterations as nat,
                        ));
                    }
                    return Err(AcquireError::Poisoned(f));
                },
            }
            k = k + 1;
            proof {
                assert(log@ =~= old(log)@ + seq![ev(self.seat, EventKind::SatDown)] + repeat_trace(
                    self.round_trace(old(table)@),
                    k as nat,
                ));
            }
        }
        proof {
            assert(log@ =~= old(log)@ + self.dine_trace(old(table)@, iterations as nat));
        }
        Ok(())
    }

    /// Blocking acquisition of the left fork: take it when free; when a
    /// neighbor holds it, wait — modelled as `Blocked` with nothing
    /// changed, the caller still standing empty-handed; a poisoned fork
    /// is fatal.
    pub fn with_left_fork_blocking(&self, table: &mut Table, log: &mut Vec<Event>) -> (r:
        BlockOutcome)
        requires
            self.wf(old(table)@.len() as nat),
            !self.holds_left(old(table)@),
            !self.holds_right(old(table)@),
        ensures
            old(table)@[self.left_fork as int] is Free ==> r == BlockOutcome::Progressed && final(table)@ == old(table)@.update(self.left_fork as int, ForkState::HeldBy(self.seat)) && final(log)@ == old(log)@ + seq![ev(self.seat, EventKind::AcquiredLeft)],
            old(table)@[self.left_fork as int] is HeldBy ==> r == BlockOutcome::Blocked && final(table)@ == old(table)@ && final(log)@ == old(log)@,
            old(table)@[self.left_fork as int] is Poisoned ==> r == BlockOutcome::Fatal(
                self.left_fork,
            ) && final(table)@ == old(table)@ && final(log)@ == old(log)@,
    {
        match table.try_acquire(self.left_fork, self.seat) {
            Acquire::Acquired => {
                log.push(Event { actor: self.seat, kind: EventKind::AcquiredLeft });
                proof {
                    assert(log@ =~= old(log)@ + seq![ev(self.seat, EventKind::AcquiredLeft)]);
                }
                BlockOutcome::Progressed
            },
            Acquire::Busy => BlockOutcome::Blocked,
            Acquire::PoisonFound => BlockOutcome::Fatal(self.left_fork),
        }
    }

    /// Blocking work at the right fork while the left is held: take the
    /// right fork when free, work while holding both, then release both;
    /// when a neighbor holds the right fork, wait — modelled as `Blocked`
    /// with nothing changed, the caller still holding its left fork: the
    /// posture the circular wait is made of. A poisoned right fork is
    /// fatal, and the left fork is released on that path too.
    pub fn with_right_fork_blocking(&self, table: &mut Table, log: &mut Vec<Event>) -> (r:
        BlockOutcome)
        requires
            self.wf(old(table)@.len() as nat),
            self.holds_left(old(table)@),
            !self.holds_right(old(table)@),
        ensures
            old(table)@[self.right_fork as int] is Free ==> r == BlockOutcome::Progressed && final(table)@ == old(table)@.update(self.left_fork as int, ForkState::Free) && final(log)@ == old(
                log,
            )@ + self.right_ok_trace() + seq![ev(self.seat, EventKind::ReleasedLeft)],
            old(table)@[self.right_fork as int] is HeldBy ==> r == BlockOutcome::Blocked && final(table)@ == old(table)@ && final(log)@ == old(log)@,
            old(table)@[self.right_fork as int] is Poisoned ==> r == BlockOutcome::Fatal(
                self.right_fork,
            ) && final(table)@ == old(table)@.update(self.left_fork as int, ForkState::Free)
                && final(log)@ == old(log)@ + seq![ev(self.seat, EventKind::ReleasedLeft)],
    {
        match table.try_acquire(self.right_fork, self.seat) {
            Acquire::Acquired => {
                log.push(Event { actor: self.seat, kind: EventKind::AcquiredRight });
                log.push(Event { actor: self.seat, kind: EventKind::Working });
                let _work = self.eat(&*table);
                table.release(self.right_fork, self.seat);
                log.push(Event { actor: self.seat, kind: EventKind::ReleasedRight });
                table.release(self.left_fork, self.seat);
                log.push(Event { actor: self.seat, kind: EventKind::ReleasedLeft });
                proof {
                    assert(table@ =~= old(table)@.update(self.left_fork as int, ForkState::Free));
                    assert(log@ =~= old(log)@ + self.right_ok_trace() + seq![
                        ev(self.seat, EventKind::ReleasedLeft),
                    ]);
                }
                BlockOutcome::Progressed
            },
            Acquire::Busy => BlockOutcome::Blocked,
            Acquire::PoisonFound => {
                table.release(self.left_fork, self.seat);
                log.push(Event { actor: self.seat, kind: EventKind::ReleasedLeft });
                proof {
                    assert(log@ =~= old(log)@ + seq![ev(self.seat, EventKind::ReleasedLeft)]);
                }
                BlockOutcome::Fatal(self.right_fork)
            },
        }
    }

    /// The narration of one completed blocking cycle on an uncontended
    /// table.
    pub open spec fn blocking_cycle_trace(&self) -> Seq<Event> {
        seq![ev(self.seat, EventKind::AcquiredLeft)] + self.right_ok_trace() + seq![
            ev(self.seat, EventKind::ReleasedLeft),
        ]
    }

    /// How a bounded blocking run ends on a table it has to itself: a
    /// fork held by a neighbor means waiting forever on it.
    pub open spec fn dine_blocking_result(&self, t: Seq<ForkState>, iterations: nat)
        -> BlockingRun {
        if iterations == 0 {
            BlockingRun::Completed
        } else if t[self.left_fork as int] is HeldBy {
            BlockingRun::BlockedOn(self.left_fork)
        } else if t[self.left_fork as int] is Poisoned {
            BlockingRun::Fatal(self.left_fork)
        } else if t[self.right_fork as int] is HeldBy {
            BlockingRun::BlockedOn(self.right_fork)
        } else if t[self.right_fork as int] is Poisoned {
            BlockingRun::Fatal(self.right_fork)
        } else {
            BlockingRun::Completed
        }
    }

    /// The whole narration of a bounded blocking run on a table it has to
    /// itself.
    pub open spec fn dine_blocking_trace(&self, t: Seq<ForkState>, iterations: nat) -> Seq<Event> {
        seq![ev(self.seat, EventKind::SatDown)] + if iterations == 0 {
            Seq::empty()
        } else if t[self.left_fork as int] is HeldBy || t[self.left_fork as int] is Poisoned {
            Seq::empty()
        } else if t[self.right_fork as int] is HeldBy {
            seq![ev(self.seat, EventKind::AcquiredLeft)]
        } else if t[self.right_fork as int] is Poisoned {
            seq![ev(self.seat, EventKind::AcquiredLeft), ev(self.seat, EventKind::ReleasedLeft)]
        } else {
            repeat_trace(self.blocking_cycle_trace(), iterations)
        }
    }

    /// What the table shows after a bounded blocking run: unchanged,
    /// except that an actor left waiting on its right fork still holds
    /// its left one.
    pub open spec fn dine_blocking_table(&self, t: Seq<ForkState>, iterations: nat) -> Seq<
        ForkState,
    > {
        if iterations > 0 && t[self.left_fork as int] is Free && t[self.right_fork as int]
            is HeldBy {
            t.update(self.left_fork as int, ForkState::HeldBy(self.seat))
        } else {
            t
        }
    }

    /// A bounded run of the blocking policy: sit down, then for each
    /// cycle block on the left fork, block on the right fork, work and
    /// release both. Kept deliberately without deadlock avoidance: an
    /// actor that meets a held fork waits forever — here, the run answers
    /// `BlockedOn` that fork, keeping what it already holds. A poisoned
    /// fork is fatal, with everything held released first.
    pub fn dine_blocking(&self, table: &mut Table, log: &mut Vec<Event>, iterations: usize) -> (r:
        BlockingRun)
        requires
            self.wf(old(table)@.len() as nat),
            !self.holds_left(old(table)@),
            !self.holds_right(old(table)@),
        ensures
            final(table)@ == self.dine_blocking_table(old(table)@, iterations as nat),
            r == self.dine_blocking_result(old(table)@, iterations as nat),
            final(log)@ == old(log)@ + self.dine_blocking_trace(old(table)@, iterations as nat),
    {
        log.push(Event { actor: self.seat, kind: EventKind::SatDown });
        let mut k: usize = 0;
        while k < iterations
            invariant
                self.wf(table@.len() as nat),
                table@ == old(table)@,
                !self.holds_left(table@),
                !self.holds_right(table@),
                k <= iterations,
                log@ == old(log)@ + seq![ev(self.seat, EventKind::SatDown)] + repeat_trace(
                    self.blocking_cycle_trace(),
                    k as nat,
                ),
                k > 0 ==> old(table)@[self.left_fork as int] is Free && old(
                    table,
                )@[self.right_fork as int] is Free,
            decreases iterations - k,
        {
            match self.with_left_fork_blocking(table, log) {
                BlockOutcome::Progressed => {
                    match self.with_right_fork_blocking(table, log) {
                        BlockOutcome::Progressed => {
                            proof {
                                assert(table@ =~= old(table)@);
                            }
                        },
                        BlockOutcome::Blocked => {
                            proof {
                                assert(k == 0);
                                assert(log@ =~= old(log)@ + self.dine_blocking_trace(
                                    old(table)@,
                                    iterations as nat,
                                ));
                            }
                            return BlockingRun::BlockedOn(self.right_fork);
                        },
                        BlockOutcome::Fatal(f) => {
                            proof {
                                assert(k == 0);
                                assert(table@ =~= old(table)@);
                                assert(log@ =~= old(log)@ + self.dine_blocking_trace(
                                    old(table)@,
                                    iterations as nat,
                                ));
                            }
                            return BlockingRun::Fatal(f);
                        },
                    }
                },
                BlockOutcome::Blocked => {
                    proof {
                        assert(k == 0);
                        assert(log@ =~= old(log)@ + self.dine_blocking_trace(
                            old(table)@,
                            iterations as nat,
                        ));
                    }
                    return BlockingRun::BlockedOn(self.left_fork);
                },
                BlockOutcome::Fatal(f) => {
                    proof {
                        assert(k == 0);
                        assert(log@ =~= old(log)@ + self.dine_blocking_trace(
                            old(table)@,
                            iterations as nat,
                        ));
                    }
                    return BlockingRun::Fatal(f);
                },
            }
            k = k + 1;
            proof {
                assert(log@ =~= old(log)@ + seq![ev(self.seat, EventKind::SatDown)] + repeat_trace(
                    self.blocking_cycle_trace(),
                    k as nat,
                ));
            }
        }
        proof {
            assert(log@ =~= old(log)@ + self.dine_blocking_trace(old(table)@, iterations as nat));
        }
        BlockingRun::Completed
    }
}

} // verus!
