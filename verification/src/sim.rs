use vstd::prelude::*;
use crate::fork::Acquire;
use crate::fork::ForkState;
use crate::fork::Table;
use crate::philosopher::Event;
use crate::philosopher::EventKind;
use crate::philosopher::Philosopher;
use crate::philosopher::ev;
use crate::ring::RingError;
use crate::ring::build;
use crate::ring::spec_left_index;

verus! {

/// Where an actor stands inside its current cycle.
#[derive(Clone, Copy, PartialEq, Eq, Structural, Debug)]
pub enum Phase {
    /// Holding nothing, between cycles.
    Idle,
    /// Holding the left fork only, inside a cycle.
    HasLeft,
    /// Holding both forks: the work action is under way.
    HasBoth,
    /// The run ended fatally on the poisoned fork with this index.
    Failed(usize),
}

/// One actor's progress: its phase, the cycles still owed, and the work
/// actions completed so far.
#[derive(Clone, Copy, PartialEq, Eq, Structural, Debug)]
pub struct ActorState {
    pub phase: Phase,
    pub remaining: usize,
    pub meals: usize,
}

/// An actor with nothing left to do: its cycles are exhausted, or its run
/// ended fatally.
pub open spec fn done(st: ActorState) -> bool {
    (st.phase is Idle && st.remaining == 0) || st.phase is Failed
}

/// An actor's holding set, read off its phase: nothing when idle or
/// failed, the left fork alone mid-acquisition, both while working.
pub open spec fn actor_holds(p: Philosopher, st: ActorState, f: int) -> bool {
    ((st.phase is HasLeft || st.phase is HasBoth) && f == p.left_fork) || (st.phase is HasBoth
        && f == p.right_fork)
}

/// The invariant tying one actor's phase to the table: it holds its left
/// fork exactly when mid-cycle or working, its right fork exactly when
/// working, owes at least one cycle while mid-cycle, and its counters
/// cannot overflow.
pub open spec fn actor_inv(p: Philosopher, st: ActorState, t: Seq<ForkState>) -> bool {
    &&& p.wf(t.len() as nat)
    &&& (p.holds_left(t) <==> (st.phase is HasLeft || st.phase is HasBoth))
    &&& (p.holds_right(t) <==> st.phase is HasBoth)
    &&& ((st.phase is HasLeft || st.phase is HasBoth) ==> st.remaining >= 1)
    &&& st.meals + st.remaining <= usize::MAX
}

/// The invariant for the actor at seat `j`: its own invariant, plus its
/// identity being its seat, so a held fork names its holder unambiguously.
pub open spec fn wf_actor(
    phils: Seq<Philosopher>,
    states: Seq<ActorState>,
    t: Seq<ForkState>,
    j: int,
) -> bool {
    &&& actor_inv(phils[j], states[j], t)
    &&& phils[j].seat == j
}

/// How far one actor still has to go: three steps per owed cycle, fewer
/// the further it stands inside the current one, nothing once failed.
/// Every scheduled non-blocking step strictly decreases it.
pub open spec fn actor_measure(st: ActorState) -> nat {
    match st.phase {
        Phase::Idle => (3 * st.remaining + 2) as nat,
        Phase::HasLeft => (3 * st.remaining + 1) as nat,
        Phase::HasBoth => (3 * st.remaining) as nat,
        Phase::Failed(_) => 0,
    }
}

/// One non-blocking step of an actor: from idle it tries its left fork,
/// abandoning the cycle and idling when the fork is busy; with the left
/// fork held it tries the right one, releasing the left and idling when
/// busy; with both held it releases both and counts the meal. A poisoned
/// fork ends the run, everything held released first.
pub open spec fn spec_step_nonblocking(p: Philosopher, st: ActorState, t: Seq<ForkState>) -> (
    ActorState,
    Seq<ForkState>,
    Seq<Event>,
) {
    match st.phase {
        Phase::Idle => {
            if t[p.left_fork as int] is Free {
                (
                    ActorState { phase: Phase::HasLeft, remaining: st.remaining, meals: st.meals },
                    t.update(p.left_fork as int, ForkState::HeldBy(p.seat)),
                    seq![ev(p.seat, EventKind::AcquiredLeft)],
                )
            } else if t[p.left_fork as int] is HeldBy {
                (
                    ActorState {
                        phase: Phase::Idle,
                        remaining: (st.remaining - 1) as usize,
                        meals: st.meals,
                    },
                    t,
                    seq![ev(p.seat, EventKind::Idling)],
                )
            } else {
                (
                    ActorState {
                        phase: Phase::Failed(p.left_fork),
                        remaining: st.remaining,
                        meals: st.meals,
                    },
                    t,
                    Seq::empty(),
                )
            }
        },
        Phase::HasLeft => {
            if t[p.right_fork as int] is Free {
                (
                    ActorState { phase: Phase::HasBoth, remaining: st.remaining, meals: st.meals },
                    t.update(p.right_fork as int, ForkState::HeldBy(p.seat)),
                    seq![ev(p.seat, EventKind::AcquiredRight), ev(p.seat, EventKind::Working)],
                )
            } else if t[p.right_fork as int] is HeldBy {
                (
                    ActorState {
                        phase: Phase::Idle,
                        remaining: (st.remaining - 1) as usize,
                        meals: st.meals,
                    },
                    t.update(p.left_fork as int, ForkState::Free),
                    seq![ev(p.seat, EventKind::ReleasedLeft), ev(p.seat, EventKind::Idling)],
                )
            } else {
                (
                    ActorState {
                        phase: Phase::Failed(p.right_fork),
                        remaining: st.remaining,
                        meals: st.meals,
                    },
                    t.update(p.left_fork as int, ForkState::Free),
                    seq![ev(p.seat, EventKind::ReleasedLeft)],
                )
            }
        },
        Phase::HasBoth => (
            ActorState {
                phase: Phase::Idle,
                remaining: (st.remaining - 1) as usize,
                meals: (st.meals + 1) as usize,
            },
            t.update(p.right_fork as int, ForkState::Free).update(
                p.left_fork as int,
                ForkState::Free,
            ),
            seq![ev(p.seat, EventKind::ReleasedRight), ev(p.seat, EventKind::ReleasedLeft)],
        ),
        Phase::Failed(_) => (st, t, Seq::empty()),
    }
}

/// One blocking step of an actor. It differs from the non-blocking step
/// in one place only: a busy fork does not cost the cycle — the actor
/// waits, keeping whatever it holds, and nothing moves. That waiting
/// posture, left fork in hand, is what a circular wait is made of.
pub open spec fn spec_step_blocking(p: Philosopher, st: ActorState, t: Seq<ForkState>) -> (
    ActorState,
    Seq<ForkState>,
    Seq<Event>,
) {
    match st.phase {
        Phase::Idle => {
            if t[p.left_fork as int] is Free {
                (
                    ActorState { phase: Phase::HasLeft, remaining: st.remaining, meals: st.meals },
                    t.update(p.left_fork as int, ForkState::HeldBy(p.seat)),
                    seq![ev(p.seat, EventKind::AcquiredLeft)],
                )
            } else if t[p.left_fork as int] is HeldBy {
                (st, t, Seq::empty())
            } else {
                (
                    ActorState {
                        phase: Phase::Failed(p.left_fork),
                        remaining: st.remaining,
                        meals: st.meals,
                    },
                    t,
                    Seq::empty(),
                )
            }
        },
        Phase::HasLeft => {
            if t[p.right_fork as int] is Free {
                (
                    ActorState { phase: Phase::HasBoth, remaining: st.remaining, meals: st.meals },
                    t.update(p.right_fork as int, ForkState::HeldBy(p.seat)),
                    seq![ev(p.seat, EventKind::AcquiredRight), ev(p.seat, EventKind::Working)],
                )
            } else if t[p.right_fork as int] is HeldBy {
                (st, t, Seq::empty())
            } else {
                (
                    ActorState {
                        phase: Phase::Failed(p.right_fork),
                        remaining: st.remaining,
                        meals: st.meals,
                    },
                    t.update(p.left_fork as int, ForkState::Free),
                    seq![ev(p.seat, EventKind::ReleasedLeft)],
                )
            }
        },
        Phase::HasBoth => (
            ActorState {
                phase: Phase::Idle,
                remaining: (st.remaining - 1) as usize,
                meals: (st.meals + 1) as usize,
            },
            t.update(p.right_fork as int, ForkState::Free).update(
                p.left_fork as int,
                ForkState::Free,
            ),
            seq![ev(p.seat, EventKind::ReleasedRight), ev(p.seat, EventKind::ReleasedLeft)],
        ),
        Phase::Failed(_) => (st, t, Seq::empty()),
    }
}

/// A blocking step that makes no progress: the actor stands waiting on a
/// fork its neighbor holds.
pub open spec fn blocked(p: Philosopher, st: ActorState, t: Seq<ForkState>) -> bool {
    (st.phase is Idle && t[p.left_fork as int] is HeldBy) || (st.phase is HasLeft
        && t[p.right_fork as int] is HeldBy)
}

/// What is left to do across the whole table: the sum of the actors'
/// measures. A non-blocking step strictly lowers it; a blocking step
/// lowers it unless the actor is blocked.
pub open spec fn total_measure(ss: Seq<ActorState>) -> nat
    decreases ss.len(),
{
    if ss.len() == 0 {
        0
    } else {
        total_measure(ss.drop_last()) + actor_measure(ss.last())
    }
}

/// Replacing one actor's state moves the total by exactly the difference
/// of the two measures.
pub proof fn lemma_total_measure_update(ss: Seq<ActorState>, i: int, st: ActorState)
    requires
        0 <= i < ss.len(),
    ensures
        total_measure(ss.update(i, st)) + actor_measure(ss[i]) == total_measure(ss)
            + actor_measure(st),
    decreases ss.len(),
{
    if i == ss.len() - 1 {
        assert(ss.update(i, st).drop_last() =~= ss.drop_last());
        assert(ss.update(i, st).last() == st);
    } else {
        assert(ss.update(i, st).drop_last() =~= ss.drop_last().update(i, st));
        assert(ss.update(i, st).last() == ss.last());
        lemma_total_measure_update(ss.drop_last(), i, st);
        assert(ss.drop_last()[i] == ss[i]);
    }
}

/// One step of the chosen policy.
pub open spec fn policy_step(blocking: bool, p: Philosopher, st: ActorState, t: Seq<ForkState>) -> (
    ActorState,
    Seq<ForkState>,
    Seq<Event>,
) {
    if blocking {
        spec_step_blocking(p, st, t)
    } else {
        spec_step_nonblocking(p, st, t)
    }
}

/// The configuration reached by stepping the scheduled actors in order
/// under the chosen policy, starting from the given actors, table and
/// narration: the fold of the per-step transitions, nothing else.
pub open spec fn run_transcript(
    blocking: bool,
    phils: Seq<Philosopher>,
    states: Seq<ActorState>,
    t: Seq<ForkState>,
    log: Seq<Event>,
    sched: Seq<int>,
) -> (Seq<ActorState>, Seq<ForkState>, Seq<Event>)
    decreases sched.len(),
{
    if sched.len() == 0 {
        (states, t, log)
    } else {
        let (ss, tt, ll) = run_transcript(blocking, phils, states, t, log, sched.drop_last());
        let i = sched.last();
        let (st2, t2, tr) = policy_step(blocking, phils[i], ss[i], tt);
        (ss.update(i, st2), t2, ll + tr)
    }
}

/// A lawful schedule: every entry names an actor that, at its turn, still
/// has something left to do.
pub open spec fn schedule_ok(
    blocking: bool,
    phils: Seq<Philosopher>,
    states: Seq<ActorState>,
    t: Seq<ForkState>,
    log: Seq<Event>,
    sched: Seq<int>,
) -> bool
    decreases sched.len(),
{
    if sched.len() == 0 {
        true
    } else {
        &&& schedule_ok(blocking, phils, states, t, log, sched.drop_last())
        &&& 0 <= sched.last() < states.len()
        &&& !done(run_transcript(blocking, phils, states, t, log, sched.drop_last()).0[sched.last()])
    }
}

/// The run really happened: some lawful schedule of single steps of the
/// chosen policy leads from the starting configuration to the final one.
pub open spec fn run_reaches(
    blocking: bool,
    phils: Seq<Philosopher>,
    states0: Seq<ActorState>,
    t0: Seq<ForkState>,
    log0: Seq<Event>,
    sched: Seq<int>,
    states1: Seq<ActorState>,
    t1: Seq<ForkState>,
    log1: Seq<Event>,
) -> bool {
    &&& schedule_ok(blocking, phils, states0, t0, log0, sched)
    &&& run_transcript(blocking, phils, states0, t0, log0, sched) == (states1, t1, log1)
}

/// No step invents or cures a poisoned fork: a step writes only `HeldBy`
/// onto a free fork and `Free` onto forks the stepped actor holds.
pub proof fn lemma_step_preserves_poison(
    blocking: bool,
    p: Philosopher,
    st: ActorState,
    t: Seq<ForkState>,
    f: int,
)
    requires
        actor_inv(p, st, t),
        0 <= f < t.len(),
    ensures
        (policy_step(blocking, p, st, t).1[f] is Poisoned) <==> (t[f] is Poisoned),
{
}

/// A step fails its actor only on a fork that really is poisoned on the
/// table the step saw.
pub proof fn lemma_step_failure_is_poison(
    blocking: bool,
    p: Philosopher,
    st: ActorState,
    t: Seq<ForkState>,
)
    requires
        actor_inv(p, st, t),
        !(st.phase is Failed),
    ensures
        ({
            let st2 = policy_step(blocking, p, st, t).0;
            st2.phase matches Phase::Failed(f) ==> f < t.len() && t[f as int] is Poisoned
        }),
{
}

/// Every failed actor is accounted for: the fork its run ended on was
/// poisoned on the starting table, unless it began the run already failed.
pub open spec fn failed_explained(
    states: Seq<ActorState>,
    states0: Seq<ActorState>,
    t0: Seq<ForkState>,
) -> bool {
    forall|j: int|
        0 <= j < states.len() ==> ((#[trigger] states[j]).phase matches Phase::Failed(f) ==> (f
            < t0.len() && t0[f as int] is Poisoned) || states0[j].phase == Phase::Failed(f))
}

/// How a driven blocking round ends: everyone done, a circular wait with
/// every waiting actor blocked, or a fatal poisoned fork.
#[derive(Clone, Copy, PartialEq, Eq, Structural, Debug)]
pub enum BlockingRound {
    AllDone,
    Deadlocked,
    Fatal(usize),
}

/// The whole round: every actor, its seat, its progress, the shared table
/// of forks, and the interleaved narration. Actors share nothing but the
/// table.
#[derive(Debug)]
pub struct Sim {
    pub phils: Vec<Philosopher>,
    pub states: Vec<ActorState>,
    pub table: Table,
    pub log: Vec<Event>,
}

impl Sim {
    /// Every seat is taken, and every actor's phase agrees with the
    /// table about what it holds.
    pub open spec fn wf(&self) -> bool {
        &&& self.states@.len() == self.phils@.len()
        &&& forall|j: int|
            0 <= j < self.phils@.len() ==> wf_actor(self.phils@, self.states@, self.table@, j)
    }

    /// Seat the actors around a fresh table: one fork per seat, all free,
    /// seat `i` between fork `(i - 1 + n) % n` and fork `i`, each actor
    /// owing `iterations` cycles. Rejects fewer than two names.
    pub fn new(names: Vec<String>, iterations: usize) -> (r: Result<Sim, RingError>)
        ensures
            match r {
                Ok(s) => {
                    let n = names@.len() as int;
                    &&& n >= 2
                    &&& s.wf()
                    &&& s.phils@.len() == n
                    &&& s.states@.len() == n
                    &&& s.table@.len() == n
                    &&& forall|i: int|
                        0 <= i < n ==> (#[trigger] s.phils@[i]).seat == i && s.phils@[i].name@
                            == names@[i]@ && s.phils@[i].left_fork == spec_left_index(i, n)
                            && s.phils@[i].right_fork == i
                    &&& forall|i: int|
                        0 <= i < n ==> (#[trigger] s.states@[i]) == (ActorState {
                            phase: Phase::Idle,
                            remaining: iterations,
                            meals: 0,
                        })
                    &&& forall|f: int| 0 <= f < n ==> s.table@[f] is Free
                    &&& s.log@.len() == n
                    &&& forall|i: int|
                        0 <= i < n ==> (#[trigger] s.log@[i]) == ev(i as usize, EventKind::SatDown)
                },
                Err(e) => names@.len() < 2 && e == RingError::TooFewSeats,
            },
    {
        let n = names.len();
        let seats = match build(n) {
            Ok(seats) => seats,
            Err(e) => {
                return Err(e);
            },
        };
        let table = Table::new(n);
        let mut phils: Vec<Philosopher> = Vec::new();
        let mut states: Vec<ActorState> = Vec::new();
        let mut log: Vec<Event> = Vec::new();
        let mut i: usize = 0;
        while i < n
            invariant
                i <= n,
                n == names@.len(),
                n == seats@.len(),
                seats@.len() == n && forall|j: int|
                    0 <= j < n ==> (#[trigger] seats@[j]).left == spec_left_index(j, n as int)
                        && seats@[j].right == j,
                2 <= n,
                phils@.len() == i,
                states@.len() == i,
                log@.len() == i,
                forall|j: int|
                    0 <= j < i ==> (#[trigger] phils@[j]).seat == j && phils@[j].name@
                        == names@[j]@ && phils@[j].left_fork == spec_left_index(j, n as int)
                        && phils@[j].right_fork == j,
                forall|j: int|
                    0 <= j < i ==> (#[trigger] states@[j]) == (ActorState {
                        phase: Phase::Idle,
                        remaining: iterations,
                        meals: 0,
                    }),
                forall|j: int|
                    0 <= j < i ==> (#[trigger] log@[j]) == ev(j as usize, EventKind::SatDown),
            decreases n - i,
        {
            let name = names[i].clone();
            let p = Philosopher::new(i, name, seats[i].left, seats[i].right);
            phils.push(p);
            states.push(ActorState { phase: Phase::Idle, remaining: iterations, meals: 0 });
            log.push(Event { actor: i, kind: EventKind::SatDown });
            i = i + 1;
        }
        let s = Sim { phils, states, table, log };
        Ok(s)
    }

    /// One non-blocking step of the actor at seat `i`, exactly the
    /// transition `spec_step_nonblocking` describes. It preserves the
    /// round's invariant, touches no other actor's state, and strictly
    /// decreases the stepped actor's measure: no configuration can stall
    /// the non-blocking policy.
    pub fn step_nonblocking(&mut self, i: usize)
        requires
            old(self).wf(),
            i < old(self).states@.len(),
            !done(old(self).states@[i as int]),
        ensures
            final(self).wf(),
            final(self).phils@ == old(self).phils@,
            final(self).states@.len() == old(self).states@.len(),
            final(self).table@.len() == old(self).table@.len(),
            forall|j: int|
                0 <= j < old(self).states@.len() && j != i ==> final(self).states@[j] == old(
                    self,
                ).states@[j],
            ({
                let (st2, t2, tr) = spec_step_nonblocking(
                    old(self).phils@[i as int],
                    old(self).states@[i as int],
                    old(self).table@,
                );
                final(self).states@[i as int] == st2 && final(self).table@ == t2 && final(self).log@ == old(self).log@ + tr
            }),
            actor_measure(final(self).states@[i as int]) < actor_measure(
                old(self).states@[i as int],
            ),
    {
        let seat = self.phils[i].seat;
        let lf = self.phils[i].left_fork;
        let rf = self.phils[i].right_fork;
        let st = self.states[i];
        proof {
            assert(wf_actor(self.phils@, self.states@, self.table@, i as int));
        }
        match st.phase {
            Phase::Idle => {
                match self.table.try_acquire(lf, seat) {
                    Acquire::Acquired => {
                        self.states.set(
                            i,
                            ActorState {
                                phase: Phase::HasLeft,
                                remaining: st.remaining,
                                meals: st.meals,
                            },
                        );
                        self.log.push(Event { actor: seat, kind: EventKind::AcquiredLeft });
                    },
                    Acquire::Busy => {
                        self.states.set(
                            i,
                            ActorState {
                                phase: Phase::Idle,
                                remaining: st.remaining - 1,
                                meals: st.meals,
                            },
                        );
                        self.log.push(Event { actor: seat, kind: EventKind::Idling });
                    },
                    Acquire::PoisonFound => {
                        self.states.set(
                            i,
                            ActorState {
                                phase: Phase::Failed(lf),
                                remaining: st.remaining,
                                meals: st.meals,
                            },
                        );
                    },
                }
            },
            Phase::HasLeft => {
                match self.table.try_acquire(rf, seat) {
                    Acquire::Acquired => {
                        self.states.set(
                            i,
                            ActorState {
                                phase: Phase::HasBoth,
                                remaining: st.remaining,
                                meals: st.meals,
                            },
                        );
                        self.log.push(Event { actor: seat, kind: EventKind::AcquiredRight });
                        self.log.push(Event { actor: seat, kind: EventKind::Working });
                    },
                    Acquire::Busy => {
                        self.table.release(lf, seat);
                        self.states.set(
                            i,
                            ActorState {
                                phase: Phase::Idle,
                                remaining: st.remaining - 1,
                                meals: st.meals,
                            },
                        );
                        self.log.push(Event { actor: seat, kind: EventKind::ReleasedLeft });
                        self.log.push(Event { actor: seat, kind: EventKind::Idling });
                    },
                    Acquire::PoisonFound => {
                        self.table.release(lf, seat);
                        self.states.set(
                            i,
                            ActorState {
                                phase: Phase::Failed(rf),
                                remaining: st.remaining,
                                meals: st.meals,
                            },
                        );
                        self.log.push(Event { actor: seat, kind: EventKind::ReleasedLeft });
                    },
                }
            },
            Phase::HasBoth => {
                self.table.release(rf, seat);
                self.log.push(Event { actor: seat, kind: EventKind::ReleasedRight });
                self.table.release(lf, seat);
                self.log.push(Event { actor: seat, kind: EventKind::ReleasedLeft });
                self.states.set(
                    i,
                    ActorState {
                        phase: Phase::Idle,
                        remaining: st.remaining - 1,
                        meals: st.meals + 1,
                    },
                );
            },
            Phase::Failed(_) => {
                proof {
                    assert(false);
                }
            },
        }
        proof {
            let (st2, t2, tr) = spec_step_nonblocking(
                old(self).phils@[i as int],
                old(self).states@[i as int],
                old(self).table@,
            );
            assert(self.table@ =~= t2);
            assert(self.log@ =~= old(self).log@ + tr);
            assert forall|j: int|
                0 <= j < self.phils@.len() implies wf_actor(
                self.phils@,
                self.states@,
                self.table@,
                j,
            ) by {
                assert(wf_actor(old(self).phils@, old(self).states@, old(self).table@, j));
                assert(wf_actor(old(self).phils@, old(self).states@, old(self).table@, i as int));
            }
        }
    }

    /// One blocking step of the actor at seat `i`, exactly the transition
    /// `spec_step_blocking` describes. Answers whether anything moved: a
    /// blocked actor waits, keeping what it holds, and its measure does
    /// not fall — which is why the blocking policy can stall.
    pub fn step_blocking(&mut self, i: usize) -> (progressed: bool)
        requires
            old(self).wf(),
            i < old(self).states@.len(),
            !done(old(self).states@[i as int]),
        ensures
            final(self).wf(),
            final(self).phils@ == old(self).phils@,
            final(self).states@.len() == old(self).states@.len(),
            final(self).table@.len() == old(self).table@.len(),
            forall|j: int|
                0 <= j < old(self).states@.len() && j != i ==> final(self).states@[j] == old(
                    self,
                ).states@[j],
            ({
                let (st2, t2, tr) = spec_step_blocking(
                    old(self).phils@[i as int],
                    old(self).states@[i as int],
                    old(self).table@,
                );
                final(self).states@[i as int] == st2 && final(self).table@ == t2 && final(self).log@ == old(self).log@ + tr
            }),
            progressed == !blocked(
                old(self).phils@[i as int],
                old(self).states@[i as int],
                old(self).table@,
            ),
            progressed ==> actor_measure(final(self).states@[i as int]) < actor_measure(
                old(self).states@[i as int],
            ),
            !progressed ==> final(self).states@ == old(self).states@ && final(self).table@ == old(
                self,
            ).table@ && final(self).log@ == old(self).log@,
    {
        let seat = self.phils[i].seat;
        let lf = self.phils[i].left_fork;
        let rf = self.phils[i].right_fork;
        let st = self.states[i];
        proof {
            assert(wf_actor(self.phils@, self.states@, self.table@, i as int));
        }
        let progressed: bool = match st.phase {
            Phase::Idle => {
                match self.table.try_acquire(lf, seat) {
                    Acquire::Acquired => {
                        self.states.set(
                            i,
                            ActorState {
                                phase: Phase::HasLeft,
                                remaining: st.remaining,
                                meals: st.meals,
                            },
                        );
                        self.log.push(Event { actor: seat, kind: EventKind::AcquiredLeft });
                        true
                    },
                    Acquire::Busy => false,
                    Acquire::PoisonFound => {
                        self.states.set(
                            i,
                            ActorState {
                                phase: Phase::Failed(lf),
                                remaining: st.remaining,
                                meals: st.meals,
                            },
                        );
                        true
                    },
                }
            },
            Phase::HasLeft => {
                match self.table.try_acquire(rf, seat) {
                    Acquire::Acquired => {
                        self.states.set(
                            i,
                            ActorState {
                                phase: Phase::HasBoth,
                                remaining: st.remaining,
                                meals: st.meals,
                            },
                        );
                        self.log.push(Event { actor: seat, kind: EventKind::AcquiredRight });
                        self.log.push(Event { actor: seat, kind: EventKind::Working });
                        true
                    },
                    Acquire::Busy => false,
                    Acquire::PoisonFound => {
                        self.table.release(lf, seat);
                        self.states.set(
                            i,
                            ActorState {
                                phase: Phase::Failed(rf),
                                remaining: st.remaining,
                                meals: st.meals,
                            },
                        );
                        self.log.push(Event { actor: seat, kind: EventKind::ReleasedLeft });
                        true
                    },
                }
            },
            Phase::HasBoth => {
                self.table.release(rf, seat);
                self.log.push(Event { actor: seat, kind: EventKind::ReleasedRight });
                self.table.release(lf, seat);
                self.log.push(Event { actor: seat, kind: EventKind::ReleasedLeft });
                self.states.set(
                    i,
                    ActorState {
                        phase: Phase::Idle,
                        remaining: st.remaining - 1,
                        meals: st.meals + 1,
                    },
                );
                true
            },
            Phase::Failed(_) => {
                proof {
                    assert(false);
                }
                false
            },
        };
        proof {
            let (st2, t2, tr) = spec_step_blocking(
                old(self).phils@[i as int],
                old(self).states@[i as int],
                old(self).table@,
            );
            assert(self.table@ =~= t2);
            assert(self.log@ =~= old(self).log@ + tr);
            assert(self.states@ =~= old(self).states@.update(i as int, st2));
            assert forall|j: int|
                0 <= j < self.phils@.len() implies wf_actor(
                self.phils@,
                self.states@,
                self.table@,
                j,
            ) by {
                assert(wf_actor(old(self).phils@, old(self).states@, old(self).table@, j));
                assert(wf_actor(old(self).phils@, old(self).states@, old(self).table@, i as int));
            }
        }
        progressed
    }

    /// Whether the actor at seat `i` has anything left to do.
    fn is_done(&self, i: usize) -> (r: bool)
        requires
            i < self.states@.len(),
        ensures
            r == done(self.states@[i as int]),
    {
        let st = self.states[i];
        match st.phase {
            Phase::Idle => st.remaining == 0,
            Phase::Failed(_) => true,
            Phase::HasLeft => false,
            Phase::HasBoth => false,
        }
    }

    /// The first seat whose actor still has something to do.
    fn first_active(&self) -> (r: Option<usize>)
        ensures
            match r {
                Some(i) => i < self.states@.len() && !done(self.states@[i as int]),
                None => forall|j: int| 0 <= j < self.states@.len() ==> done(self.states@[j]),
            },
    {
        let n = self.states.len();
        let mut j: usize = 0;
        while j < n
            invariant
                j <= n,
                n == self.states@.len(),
                forall|m: int| 0 <= m < j ==> done(self.states@[m]),
            decreases n - j,
        {
            if !self.is_done(j) {
                return Some(j);
            }
            j = j + 1;
        }
        None
    }

    /// Book-keeping for one recorded step: extending the schedule by the
    /// stepped seat keeps the transcript equal to the configuration now
    /// reached, keeps every poisoned fork exactly where it was, and keeps
    /// every failure accounted for by a poisoned fork of the starting
    /// table.
    proof fn record_step(
        &self,
        blocking: bool,
        j: int,
        phils0: Seq<Philosopher>,
        states0: Seq<ActorState>,
        t0: Seq<ForkState>,
        log0: Seq<Event>,
        before_states: Seq<ActorState>,
        before_table: Seq<ForkState>,
        before_log: Seq<Event>,
        steps: Seq<int>,
    ) -> (next: Seq<int>)
        requires
            run_reaches(
                blocking,
                phils0,
                states0,
                t0,
                log0,
                steps,
                before_states,
                before_table,
                before_log,
            ),
            0 <= j < before_states.len(),
            before_states.len() == states0.len(),
            before_table.len() == t0.len(),
            !done(before_states[j]),
            wf_actor(phils0, before_states, before_table, j),
            ({
                let (st2, t2, tr) = policy_step(blocking, phils0[j], before_states[j], before_table);
                self.states@ == before_states.update(j, st2) && self.table@ == t2 && self.log@
                    == before_log + tr
            }),
            forall|f: int|
                0 <= f < t0.len() ==> ((#[trigger] before_table[f]) is Poisoned <==> t0[f]
                    is Poisoned),
            failed_explained(before_states, states0, t0),
            before_log.len() >= log0.len(),
            forall|i: int| 0 <= i < log0.len() ==> before_log[i] == log0[i],
        ensures
            next == steps.push(j),
            run_reaches(blocking, phils0, states0, t0, log0, next, self.states@, self.table@, self.log@),
            forall|f: int|
                0 <= f < t0.len() ==> ((#[trigger] self.table@[f]) is Poisoned <==> t0[f]
                    is Poisoned),
            failed_explained(self.states@, states0, t0),
            self.log@.len() >= log0.len(),
            forall|i: int| 0 <= i < log0.len() ==> self.log@[i] == log0[i],
    {
        let next = steps.push(j);
        assert(next.drop_last() =~= steps);
        assert(run_transcript(blocking, phils0, states0, t0, log0, next) == (
            self.states@,
            self.table@,
            self.log@,
        ));
        assert(schedule_ok(blocking, phils0, states0, t0, log0, next));
        assert forall|f: int|
            0 <= f < t0.len() implies ((#[trigger] self.table@[f]) is Poisoned <==> t0[f]
            is Poisoned) by {
            lemma_step_preserves_poison(blocking, phils0[j], before_states[j], before_table, f);
        }
        assert forall|m: int|
            0 <= m < self.states@.len() implies ((#[trigger] self.states@[m]).phase matches Phase::Failed(ff)
            ==> (ff < t0.len() && t0[ff as int] is Poisoned) || states0[m].phase == Phase::Failed(
            ff,
        )) by {
            if m == j {
                lemma_step_failure_is_poison(blocking, phils0[j], before_states[j], before_table);
            } else {
                assert(self.states@[m] == before_states[m]);
            }
        }
        next
    }

    /// The poisoned fork of the first fatally ended actor, if any run
    /// ended so.
    fn find_failure(&self) -> (r: Option<usize>)
        ensures
            match r {
                Some(f) => exists|j: int|
                    0 <= j < self.states@.len() && (#[trigger] self.states@[j]).phase
                        == Phase::Failed(f),
                None => forall|j: int|
                    0 <= j < self.states@.len() ==> !((#[trigger] self.states@[j]).phase
                        is Failed),
            },
    {
        let n = self.states.len();
        let mut j: usize = 0;
        while j < n
            invariant
                j <= n,
                n == self.states@.len(),
                forall|m: int| 0 <= m < j ==> !((#[trigger] self.states@[m]).phase is Failed),
            decreases n - j,
        {
            let st = self.states[j];
            match st.phase {
                Phase::Failed(f) => {
                    proof {
                        assert(self.states@[j as int].phase == Phase::Failed(f));
                    }
                    return Some(f);
                },
                _ => {},
            }
            j = j + 1;
        }
        None
    }

    /// Drive every actor to the end of its run, one step per turn in seat
    /// order, the actors' cycles interleaving on the shared table. The
    /// loop provably terminates — the liveness the non-blocking policy is
    /// for: whatever the contention, every sweep strictly lowers the
    /// total measure. A fatal end is not swallowed: when an actor met a
    /// poisoned fork, that fork is reported, and a fork is reported only
    /// when it really was poisoned at the start (or the actor began the
    /// run failed). The contract records the run itself: the final
    /// actors, table and narration are the fold of a lawful schedule of
    /// single steps from the starting configuration, the narration only
    /// ever grows, and poisoned forks stay exactly where they were.
    pub fn run_round_robin(&mut self) -> (r: Result<(), usize>)
        requires
            old(self).wf(),
        ensures
            final(self).wf(),
            final(self).phils@ == old(self).phils@,
            final(self).states@.len() == old(self).states@.len(),
            final(self).table@.len() == old(self).table@.len(),
            forall|j: int|
                0 <= j < final(self).states@.len() ==> done(#[trigger] final(self).states@[j]),
            exists|steps: Seq<int>|
                #[trigger] run_reaches(
                    false,
                    old(self).phils@,
                    old(self).states@,
                    old(self).table@,
                    old(self).log@,
                    steps,
                    final(self).states@,
                    final(self).table@,
                    final(self).log@,
                ),
            final(self).log@.len() >= old(self).log@.len(),
            forall|i: int| 0 <= i < old(self).log@.len() ==> final(self).log@[i] == old(self).log@[i],
            forall|f: int|
                0 <= f < old(self).table@.len() ==> ((#[trigger] final(self).table@[f]) is Poisoned
                    <==> old(self).table@[f] is Poisoned),
            match r {
                Ok(()) => forall|j: int|
                    0 <= j < final(self).states@.len() ==> (#[trigger] final(self).states@[j]).phase is Idle && final(self).states@[j].remaining == 0,
                Err(f) => (exists|j: int|
                    0 <= j < final(self).states@.len() && (#[trigger] final(self).states@[j]).phase == Phase::Failed(f)) && ((f < old(self).table@.len() && old(self).table@[f as int] is Poisoned) || (exists|j: int|
                    0 <= j < old(self).states@.len() && (#[trigger] old(self).states@[j]).phase == Phase::Failed(f))),
            },
    {
        let ghost mut steps: Seq<int> = Seq::empty();
        proof {
            assert forall|m: int|
                0 <= m < self.states@.len() implies ((#[trigger] self.states@[m]).phase matches Phase::Failed(ff)
                ==> (ff < old(self).table@.len() && old(self).table@[ff as int] is Poisoned) || old(
                self,
            ).states@[m].phase == Phase::Failed(ff)) by {
                assert(self.states@[m] == old(self).states@[m]);
            }
        }
        loop
            invariant
                self.wf(),
                self.phils@ == old(self).phils@,
                self.states@.len() == old(self).states@.len(),
                self.table@.len() == old(self).table@.len(),
                run_reaches(
                    false,
                    old(self).phils@,
                    old(self).states@,
                    old(self).table@,
                    old(self).log@,
                    steps,
                    self.states@,
                    self.table@,
                    self.log@,
                ),
                forall|f: int|
                    0 <= f < old(self).table@.len() ==> ((#[trigger] self.table@[f]) is Poisoned
                        <==> old(self).table@[f] is Poisoned),
                failed_explained(self.states@, old(self).states@, old(self).table@),
                self.log@.len() >= old(self).log@.len(),
                forall|i: int| 0 <= i < old(self).log@.len() ==> self.log@[i] == old(self).log@[i],
            ensures
                self.wf(),
                self.phils@ == old(self).phils@,
                self.states@.len() == old(self).states@.len(),
                self.table@.len() == old(self).table@.len(),
                forall|j: int| 0 <= j < self.states@.len() ==> done(#[trigger] self.states@[j]),
                run_reaches(
                    false,
                    old(self).phils@,
                    old(self).states@,
                    old(self).table@,
                    old(self).log@,
                    steps,
                    self.states@,
                    self.table@,
                    self.log@,
                ),
                forall|f: int|
                    0 <= f < old(self).table@.len() ==> ((#[trigger] self.table@[f]) is Poisoned
                        <==> old(self).table@[f] is Poisoned),
                failed_explained(self.states@, old(self).states@, old(self).table@),
                self.log@.len() >= old(self).log@.len(),
                forall|i: int| 0 <= i < old(self).log@.len() ==> self.log@[i] == old(self).log@[i],
            decreases total_measure(self.states@),
        {
            let k = match self.first_active() {
                Some(k) => k,
                None => { break },
            };
            let ghost entry_states = self.states@;
            let n = self.states.len();
            let mut j: usize = 0;
            while j < n
                invariant
                    self.wf(),
                    self.phils@ == old(self).phils@,
                    n == self.states@.len(),
                    self.states@.len() == old(self).states@.len(),
                    self.table@.len() == old(self).table@.len(),
                    j <= n,
                    k < n,
                    !done(entry_states[k as int]),
                    forall|m: int| j <= m < n ==> self.states@[m] == entry_states[m],
                    total_measure(self.states@) <= total_measure(entry_states),
                    j > k ==> total_measure(self.states@) < total_measure(entry_states),
                    run_reaches(
                        false,
                        old(self).phils@,
                        old(self).states@,
                        old(self).table@,
                        old(self).log@,
                        steps,
                        self.states@,
                        self.table@,
                        self.log@,
                    ),
                    forall|f: int|
                        0 <= f < old(self).table@.len() ==> ((#[trigger] self.table@[f]) is Poisoned
                            <==> old(self).table@[f] is Poisoned),
                    failed_explained(self.states@, old(self).states@, old(self).table@),
                    self.log@.len() >= old(self).log@.len(),
                    forall|i: int|
                        0 <= i < old(self).log@.len() ==> self.log@[i] == old(self).log@[i],
                decreases n - j,
            {
                if !self.is_done(j) {
                    let ghost before_states = self.states@;
                    let ghost before_table = self.table@;
                    let ghost before_log = self.log@;
                    self.step_nonblocking(j);
                    proof {
                        assert(self.states@ =~= before_states.update(
                            j as int,
                            self.states@[j as int],
                        ));
                        lemma_total_measure_update(before_states, j as int, self.states@[j as int]);
                        assert(wf_actor(old(self).phils@, before_states, before_table, j as int));
                        steps = self.record_step(
                            false,
                            j as int,
                            old(self).phils@,
                            old(self).states@,
                            old(self).table@,
                            old(self).log@,
                            before_states,
                            before_table,
                            before_log,
                            steps,
                        );
                    }
                }
                j = j + 1;
            }
        }
        proof {
            assert(run_reaches(
                false,
                old(self).phils@,
                old(self).states@,
                old(self).table@,
                old(self).log@,
                steps,
                self.states@,
                self.table@,
                self.log@,
            ));
        }
        match self.find_failure() {
            Some(f) => {
                proof {
                    let jw = choose|jw: int|
                        0 <= jw < self.states@.len() && (#[trigger] self.states@[jw]).phase
                            == Phase::Failed(f);
                    assert(self.states@[jw].phase == Phase::Failed(f));
                    if !(f < old(self).table@.len() && old(self).table@[f as int] is Poisoned) {
                        assert(old(self).states@[jw].phase == Phase::Failed(f));
                    }
                }
                Err(f)
            },
            None => Ok(()),
        }
    }

    /// Drive the blocking policy the same way. This loop, too, provably
    /// terminates — not because the policy is live, but because the model
    /// makes waiting visible: a sweep in which every unfinished actor is
    /// blocked is a circular wait, reported as `Deadlocked` instead of
    /// hung. Progress strictly lowers the total measure, so one of the
    /// three ends is always reached; a fatal end of one actor does not
    /// keep the others from finishing, and is reported — and only for a
    /// fork that really was poisoned at the start (or an actor that began
    /// the run failed). As for the non-blocking driver, the contract
    /// records the run itself: the final actors, table and narration are
    /// the fold of a lawful schedule of single blocking steps.
    pub fn run_blocking_round_robin(&mut self) -> (r: BlockingRound)
        requires
            old(self).wf(),
        ensures
            final(self).wf(),
            final(self).phils@ == old(self).phils@,
            final(self).states@.len() == old(self).states@.len(),
            final(self).table@.len() == old(self).table@.len(),
            exists|steps: Seq<int>|
                #[trigger] run_reaches(
                    true,
                    old(self).phils@,
                    old(self).states@,
                    old(self).table@,
                    old(self).log@,
                    steps,
                    final(self).states@,
                    final(self).table@,
                    final(self).log@,
                ),
            final(self).log@.len() >= old(self).log@.len(),
            forall|i: int| 0 <= i < old(self).log@.len() ==> final(self).log@[i] == old(self).log@[i],
            forall|f: int|
                0 <= f < old(self).table@.len() ==> ((#[trigger] final(self).table@[f]) is Poisoned
                    <==> old(self).table@[f] is Poisoned),
            match r {
                BlockingRound::AllDone => forall|j: int|
                    0 <= j < final(self).states@.len() ==> (#[trigger] final(self).states@[j]).phase is Idle && final(self).states@[j].remaining == 0,
                BlockingRound::Deadlocked => {
                    &&& exists|j: int|
                        0 <= j < final(self).states@.len() && !done(
                            #[trigger] final(self).states@[j],
                        )
                    &&& forall|j: int|
                        0 <= j < final(self).states@.len() && !done(
                            #[trigger] final(self).states@[j],
                        ) ==> blocked(
                            final(self).phils@[j],
                            final(self).states@[j],
                            final(self).table@,
                        )
                },
                BlockingRound::Fatal(f) => (exists|j: int|
                    0 <= j < final(self).states@.len() && (#[trigger] final(self).states@[j]).phase == Phase::Failed(f)) && ((f < old(self).table@.len() && old(self).table@[f as int] is Poisoned) || (exists|j: int|
                    0 <= j < old(self).states@.len() && (#[trigger] old(self).states@[j]).phase == Phase::Failed(f))),
            },
    {
        let ghost mut steps: Seq<int> = Seq::empty();
        proof {
            assert forall|m: int|
                0 <= m < self.states@.len() implies ((#[trigger] self.states@[m]).phase matches Phase::Failed(ff)
                ==> (ff < old(self).table@.len() && old(self).table@[ff as int] is Poisoned) || old(
                self,
            ).states@[m].phase == Phase::Failed(ff)) by {
                assert(self.states@[m] == old(self).states@[m]);
            }
        }
        loop
            invariant
                self.wf(),
                self.phils@ == old(self).phils@,
                self.states@.len() == old(self).states@.len(),
                self.table@.len() == old(self).table@.len(),
                run_reaches(
                    true,
                    old(self).phils@,
                    old(self).states@,
                    old(self).table@,
                    old(self).log@,
                    steps,
                    self.states@,
                    self.table@,
                    self.log@,
                ),
                forall|f: int|
                    0 <= f < old(self).table@.len() ==> ((#[trigger] self.table@[f]) is Poisoned
                        <==> old(self).table@[f] is Poisoned),
                failed_explained(self.states@, old(self).states@, old(self).table@),
                self.log@.len() >= old(self).log@.len(),
                forall|i: int| 0 <= i < old(self).log@.len() ==> self.log@[i] == old(self).log@[i],
            ensures
                self.wf(),
                self.phils@ == old(self).phils@,
                self.states@.len() == old(self).states@.len(),
                self.table@.len() == old(self).table@.len(),
                forall|j: int| 0 <= j < self.states@.len() ==> done(#[trigger] self.states@[j]),
                run_reaches(
                    true,
                    old(self).phils@,
                    old(self).states@,
                    old(self).table@,
                    old(self).log@,
                    steps,
                    self.states@,
                    self.table@,
                    self.log@,
                ),
                forall|f: int|
                    0 <= f < old(self).table@.len() ==> ((#[trigger] self.table@[f]) is Poisoned
                        <==> old(self).table@[f] is Poisoned),
                failed_explained(self.states@, old(self).states@, old(self).table@),
                self.log@.len() >= old(self).log@.len(),
                forall|i: int| 0 <= i < old(self).log@.len() ==> self.log@[i] == old(self).log@[i],
            decreases total_measure(self.states@),
        {
            let k = match self.first_active() {
                Some(k) => k,
                None => { break },
            };
            let ghost entry_states = self.states@;
            let ghost entry_table = self.table@;
            let n = self.states.len();
            let mut progressed: bool = false;
            let mut j: usize = 0;
            while j < n
                invariant
                    self.wf(),
                    self.phils@ == old(self).phils@,
                    n == self.states@.len(),
                    self.states@.len() == old(self).states@.len(),
                    self.table@.len() == old(self).table@.len(),
                    j <= n,
                    k < n,
                    !done(entry_states[k as int]),
                    forall|m: int| j <= m < n ==> self.states@[m] == entry_states[m],
                    total_measure(self.states@) <= total_measure(entry_states),
                    progressed ==> total_measure(self.states@) < total_measure(entry_states),
                    !progressed ==> self.states@ == entry_states && self.table@ == entry_table,
                    !progressed ==> forall|m: int|
                        0 <= m < j && !done(entry_states[m]) ==> blocked(
                            self.phils@[m],
                            entry_states[m],
                            entry_table,
                        ),
                    run_reaches(
                        true,
                        old(self).phils@,
                        old(self).states@,
                        old(self).table@,
                        old(self).log@,
                        steps,
                        self.states@,
                        self.table@,
                        self.log@,
                    ),
                    forall|f: int|
                        0 <= f < old(self).table@.len() ==> ((#[trigger] self.table@[f]) is Poisoned
                            <==> old(self).table@[f] is Poisoned),
                    failed_explained(self.states@, old(self).states@, old(self).table@),
                    self.log@.len() >= old(self).log@.len(),
                    forall|i: int|
                        0 <= i < old(self).log@.len() ==> self.log@[i] == old(self).log@[i],
                decreases n - j,
            {
                if !self.is_done(j) {
                    let ghost before_states = self.states@;
                    let ghost before_table = self.table@;
                    let ghost before_log = self.log@;
                    let moved = self.step_blocking(j);
                    proof {
                        assert(self.states@ =~= before_states.update(
                            j as int,
                            self.states@[j as int],
                        ));
                        assert(wf_actor(old(self).phils@, before_states, before_table, j as int));
                        steps = self.record_step(
                            true,
                            j as int,
                            old(self).phils@,
                            old(self).states@,
                            old(self).table@,
                            old(self).log@,
                            before_states,
                            before_table,
                            before_log,
                            steps,
                        );
                    }
                    if moved {
                        proof {
                            lemma_total_measure_update(
                                before_states,
                                j as int,
                                self.states@[j as int],
                            );
                        }
                        progressed = true;
                    }
                }
                j = j + 1;
            }
            if !progressed {
                proof {
                    assert(!done(self.states@[k as int]));
                }
                return BlockingRound::Deadlocked;
            }
        }
        proof {
            assert(run_reaches(
                true,
                old(self).phils@,
                old(self).states@,
                old(self).table@,
                old(self).log@,
                steps,
                self.states@,
                self.table@,
                self.log@,
            ));
        }
        match self.find_failure() {
            Some(f) => {
                proof {
                    let jw = choose|jw: int|
                        0 <= jw < self.states@.len() && (#[trigger] self.states@[jw]).phase
                            == Phase::Failed(f);
                    assert(self.states@[jw].phase == Phase::Failed(f));
                    if !(f < old(self).table@.len() && old(self).table@[f as int] is Poisoned) {
                        assert(old(self).states@[jw].phase == Phase::Failed(f));
                    }
                }
                BlockingRound::Fatal(f)
            },
            None => BlockingRound::AllDone,
        }
    }
}

/// Who holds fork `f` once every actor has taken its left fork: the actor
/// whose left fork it is — seat `(f + 1) % n`.
pub open spec fn left_holder(f: int, n: int) -> usize {
    if f == n - 1 {
        0 as usize
    } else {
        (f + 1) as usize
    }
}

/// The documented hazard made reachable: from a fresh table, let every
/// actor of the blocking policy take one step, in seat order. Each finds
/// its left fork free and takes it; once all have done so, every right
/// fork is the held left fork of the next seat, so every actor's next
/// blocking step waits forever. The returned round is a circular wait:
/// every actor holds exactly its left fork and blocks on its right.
pub fn demonstrate_deadlock(names: Vec<String>, iterations: usize) -> (r: Result<Sim, RingError>)
    requires
        iterations >= 1,
    ensures
        match r {
            Ok(s) => {
                &&& s.wf()
                &&& s.states@.len() == names@.len()
                &&& s.states@.len() >= 2
                &&& forall|j: int|
                    0 <= j < s.states@.len() ==> (#[trigger] s.states@[j]).phase is HasLeft
                &&& forall|j: int| 0 <= j < s.states@.len() ==> !done(#[trigger] s.states@[j])
                &&& forall|j: int|
                    0 <= j < s.states@.len() ==> blocked(
                        s.phils@[j],
                        #[trigger] s.states@[j],
                        s.table@,
                    )
            },
            Err(e) => names@.len() < 2 && e == RingError::TooFewSeats,
        },
{
    let mut s = match Sim::new(names, iterations) {
        Ok(s) => s,
        Err(e) => {
            return Err(e);
        },
    };
    let n = s.states.len();
    let mut i: usize = 0;
    while i < n
        invariant
            s.wf(),
            n == s.states@.len(),
            n == s.phils@.len(),
            n == s.table@.len(),
            n >= 2,
            i <= n,
            iterations >= 1,
            forall|j: int|
                0 <= j < n ==> (#[trigger] s.phils@[j]).seat == j && s.phils@[j].left_fork
                    == spec_left_index(j, n as int) && s.phils@[j].right_fork == j,
            forall|j: int|
                0 <= j < i ==> (#[trigger] s.states@[j]) == (ActorState {
                    phase: Phase::HasLeft,
                    remaining: iterations,
                    meals: 0,
                }),
            forall|j: int|
                i <= j < n ==> (#[trigger] s.states@[j]) == (ActorState {
                    phase: Phase::Idle,
                    remaining: iterations,
                    meals: 0,
                }),
            forall|f: int|
                0 <= f < n ==> s.table@[f] == (if i > 0 && (f == n - 1 || f + 1 < i) {
                    ForkState::HeldBy(left_holder(f, n as int))
                } else {
                    ForkState::Free
                }),
        decreases n - i,
    {
        let _moved = s.step_blocking(i);
        i = i + 1;
    }
    Ok(s)
}

/// No double hold: two actors never hold the same fork at the same time.
/// In every well-formed configuration, at most one actor's holding set
/// contains any given fork, because a held fork's table entry names its
/// one holder.
pub proof fn lemma_no_double_hold_round(s: &Sim, i: int, j: int, f: int)
    requires
        s.wf(),
        0 <= i < s.phils@.len(),
        0 <= j < s.phils@.len(),
        actor_holds(s.phils@[i], s.states@[i], f),
        actor_holds(s.phils@[j], s.states@[j], f),
    ensures
        i == j,
{
    assert(wf_actor(s.phils@, s.states@, s.table@, i));
    assert(wf_actor(s.phils@, s.states@, s.table@, j));
    assert(s.table@[f] == ForkState::HeldBy(s.phils@[i].seat));
    assert(s.table@[f] == ForkState::HeldBy(s.phils@[j].seat));
}

/// Acquisition order: an actor holding its right fork always holds its
/// left one too, in every well-formed configuration and under both
/// policies — no phase stands for "right fork only".
pub proof fn lemma_right_implies_left(s: &Sim, i: int)
    requires
        s.wf(),
        0 <= i < s.phils@.len(),
        s.phils@[i].holds_right(s.table@),
    ensures
        s.phils@[i].holds_left(s.table@),
{
    assert(wf_actor(s.phils@, s.states@, s.table@, i));
}

/// Idling begins empty-handed: whenever a non-blocking step leaves the
/// actor idle — after an abandoned cycle as much as after a completed one
/// — the new configuration shows it holding neither fork.
pub proof fn lemma_idle_begins_empty_handed(p: Philosopher, st: ActorState, t: Seq<ForkState>)
    requires
        actor_inv(p, st, t),
        !done(st),
    ensures
        ({
            let (st2, t2, tr) = spec_step_nonblocking(p, st, t);
            st2.phase is Idle ==> !p.holds_left(t2) && !p.holds_right(t2)
        }),
{
}

/// Guaranteed release: the step that closes a completed cycle — the actor
/// holds both forks, so the work was performed — releases both forks,
/// counts the meal and returns the actor to idle, before any next
/// acquisition attempt, which only an idle actor makes.
pub proof fn lemma_release_before_next_cycle(p: Philosopher, st: ActorState, t: Seq<ForkState>)
    requires
        actor_inv(p, st, t),
        st.phase is HasBoth,
    ensures
        ({
            let (st2, t2, tr) = spec_step_nonblocking(p, st, t);
            &&& st2.phase is Idle
            &&& t2[p.left_fork as int] is Free
            &&& t2[p.right_fork as int] is Free
            &&& st2.meals == st.meals + 1
            &&& st2.remaining + 1 == st.remaining
        }),
{
}

} // verus!
