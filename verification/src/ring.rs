use vstd::prelude::*;

verus! {

/// One seat at the table: the indices of the forks at the actor's left and
/// right hand.
#[derive(Clone, Copy, PartialEq, Eq, Structural, Debug)]
pub struct Seat {
    pub left: usize,
    pub right: usize,
}

/// Building a ring fails when fewer than two seats are asked for: with one
/// seat the left and right fork would coincide.
#[derive(Clone, Copy, PartialEq, Eq, Structural, Debug)]
pub enum RingError {
    TooFewSeats,
}

/// The fork to the left of seat `i` in a ring of `n`: seat 0 reaches back to
/// fork `n - 1`, every other seat to fork `i - 1`.
pub open spec fn spec_left_index(i: int, n: int) -> int {
    if i == 0 {
        n - 1
    } else {
        i - 1
    }
}

/// The fork to the right of seat `i`: fork `i` itself.
pub open spec fn spec_right_index(i: int) -> int {
    i
}

pub fn left_index(i: usize, n: usize) -> (f: usize)
    requires
        2 <= n,
        i < n,
    ensures
        f == spec_left_index(i as int, n as int),
        f < n,
{
    if i == 0 {
        n - 1
    } else {
        i - 1
    }
}

pub fn right_index(i: usize, n: usize) -> (f: usize)
    requires
        2 <= n,
        i < n,
    ensures
        f == spec_right_index(i as int),
        f < n,
{
    i
}

/// Lay the table: `n` seats over `n` forks, seat `i` with fork `i` at its
/// right hand and fork `(i - 1 + n) % n` at its left. Rejects `n < 2`
/// before anything is built.
pub fn build(n: usize) -> (r: Result<Vec<Seat>, RingError>)
    ensures
        match r {
            Ok(seats) => n >= 2 && seats@.len() == n && forall|i: int|
                0 <= i < n ==> (#[trigger] seats@[i]).left == spec_left_index(i, n as int)
                    && seats@[i].right == spec_right_index(i),
            Err(e) => n < 2 && e == RingError::TooFewSeats,
        },
{
    if n < 2 {
        return Err(RingError::TooFewSeats);
    }
    let mut seats: Vec<Seat> = Vec::new();
    let mut i: usize = 0;
    while i < n
        invariant
            2 <= n,
            i <= n,
            seats@.len() == i,
            forall|j: int|
                0 <= j < i ==> (#[trigger] seats@[j]).left == spec_left_index(j, n as int)
                    && seats@[j].right == spec_right_index(j),
        decreases n - i,
    {
        let seat = Seat { left: left_index(i, n), right: right_index(i, n) };
        seats.push(seat);
        i = i + 1;
    }
    Ok(seats)
}

/// In a ring of `n` seats, every fork index stands at exactly one seat's
/// left hand and at exactly one seat's right hand: fork `f` is the left
/// fork of seat `(f + 1) % n` alone and the right fork of seat `f` alone,
/// so each fork is shared by exactly two adjacent seats.
pub proof fn lemma_ring_coverage(n: int, f: int)
    requires
        2 <= n,
        0 <= f < n,
    ensures
        spec_left_index(if f == n - 1 { 0 } else { f + 1 }, n) == f,
        forall|i: int|
            0 <= i < n && #[trigger] spec_left_index(i, n) == f ==> i == (if f == n - 1 {
                0
            } else {
                f + 1
            }),
        spec_right_index(f) == f,
        forall|i: int| 0 <= i < n && #[trigger] spec_right_index(i) == f ==> i == f,
{
}

} // verus!
