use vstd::prelude::*;

verus! {

/// The state of one fork: free, held by the actor with the given identity,
/// or poisoned because a prior holder ended abnormally while holding it.
/// A poisoned fork is permanently unusable.
#[derive(Clone, Copy, PartialEq, Eq, Structural, Debug)]
pub enum ForkState {
    Free,
    HeldBy(usize),
    Poisoned,
}

/// The outcome of one non-blocking acquisition attempt.
#[derive(Clone, Copy, PartialEq, Eq, Structural, Debug)]
pub enum Acquire {
    /// The fork was free and is now held by the caller.
    Acquired,
    /// The fork is held by another actor: expected, recoverable.
    Busy,
    /// The fork is poisoned: fatal for the caller's run.
    PoisonFound,
}

/// The table: one mutual-exclusion state per fork, indexed by fork number.
/// It is the only state shared between actors; every acquisition and
/// release goes through it, and each fork is held by at most one actor at
/// a time because a held fork records exactly one holder.
#[derive(Debug)]
pub struct Table {
    forks: Vec<ForkState>,
}

impl View for Table {
    type V = Seq<ForkState>;

    closed spec fn view(&self) -> Seq<ForkState> {
        self.forks@
    }
}

impl Table {
    /// A table of `n` forks, all free.
    pub fn new(n: usize) -> (t: Table)
        ensures
            t@.len() == n,
            forall|f: int| 0 <= f < n ==> t@[f] == ForkState::Free,
    {
        let mut forks: Vec<ForkState> = Vec::new();
        let mut i: usize = 0;
        while i < n
            invariant
                i <= n,
                forks@.len() == i,
                forall|f: int| 0 <= f < i ==> forks@[f] == ForkState::Free,
            decreases n - i,
        {
            forks.push(ForkState::Free);
            i = i + 1;
        }
        Table { forks }
    }

    pub fn len(&self) -> (n: usize)
        ensures
            n == self@.len(),
    {
        self.forks.len()
    }

    pub fn fork_state(&self, f: usize) -> (s: ForkState)
        requires
            f < self@.len(),
        ensures
            s == self@[f as int],
    {
        self.forks[f]
    }

    /// Attempt non-blocking exclusive acquisition of fork `f` for `actor`.
    /// A free fork is taken; a held fork answers `Busy` and nothing moves;
    /// a poisoned fork answers `PoisonFound` and nothing moves.
    pub fn try_acquire(&mut self, f: usize, actor: usize) -> (r: Acquire)
        requires
            f < old(self)@.len(),
        ensures
            final(self)@.len() == old(self)@.len(),
            old(self)@[f as int] is Free ==> r == Acquire::Acquired && final(self)@ == old(
                self,
            )@.update(f as int, ForkState::HeldBy(actor)),
            old(self)@[f as int] is HeldBy ==> r == Acquire::Busy && final(self)@ == old(self)@,
            old(self)@[f as int] is Poisoned ==> r == Acquire::PoisonFound && final(self)@ == old(
                self,
            )@,
    {
        match self.forks[f] {
            ForkState::Free => {
                self.forks.set(f, ForkState::HeldBy(actor));
                Acquire::Acquired
            },
            ForkState::HeldBy(_) => Acquire::Busy,
            ForkState::Poisoned => Acquire::PoisonFound,
        }
    }

    /// Release fork `f`, which the caller must hold.
    pub fn release(&mut self, f: usize, actor: usize)
        requires
            f < old(self)@.len(),
            old(self)@[f as int] == ForkState::HeldBy(actor),
        ensures
            final(self)@ == old(self)@.update(f as int, ForkState::Free),
    {
        self.forks.set(f, ForkState::Free);
    }

    /// Mark fork `f` poisoned, as after a holder's abnormal end: from then
    /// on every attempt on it is fatal.
    pub fn poison(&mut self, f: usize)
        requires
            f < old(self)@.len(),
        ensures
            final(self)@ == old(self)@.update(f as int, ForkState::Poisoned),
    {
        self.forks.set(f, ForkState::Poisoned);
    }
}

/// No double hold: a fork's state records its holder, so two actors never
/// hold the same fork at the same time.
pub proof fn lemma_no_double_hold(s: ForkState, a: usize, b: usize)
    requires
        s == ForkState::HeldBy(a),
        s == ForkState::HeldBy(b),
    ensures
        a == b,
{
}

} // verus!
