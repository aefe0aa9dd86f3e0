use philosophers::BlockOutcome;
use philosophers::BlockingRun;
use philosophers::Event;
use philosophers::EventKind;
use philosophers::ForkState;
use philosophers::Philosopher;
use philosophers::Table;

fn phil(seat: usize, left: usize, right: usize) -> Philosopher {
    Philosopher::new(seat, format!("seat {}", seat), left, right)
}

#[test]
fn blocking_run_completes_uncontended() {
    let mut table = Table::new(2);
    let p = phil(0, 1, 0);
    let mut log: Vec<Event> = Vec::new();
    assert_eq!(p.dine_blocking(&mut table, &mut log, 2), BlockingRun::Completed);
    let mut expected = vec![EventKind::SatDown];
    for _ in 0..2 {
        expected.extend_from_slice(&[
            EventKind::AcquiredLeft,
            EventKind::AcquiredRight,
            EventKind::Working,
            EventKind::ReleasedRight,
            EventKind::ReleasedLeft,
        ]);
    }
    let got: Vec<EventKind> = log.iter().map(|e| e.kind).collect();
    assert_eq!(got, expected);
    assert_eq!(table.fork_state(0), ForkState::Free);
    assert_eq!(table.fork_state(1), ForkState::Free);
}

#[test]
fn blocking_on_held_left_fork_waits_forever() {
    let mut table = Table::new(2);
    let me = phil(0, 1, 0);
    // the neighbor holds fork 1, my left fork
    assert_eq!(table.try_acquire(1, 1), philosophers::Acquire::Acquired);
    let mut log: Vec<Event> = Vec::new();
    assert_eq!(me.dine_blocking(&mut table, &mut log, 5), BlockingRun::BlockedOn(1));
}

#[test]
fn blocking_on_held_right_fork_keeps_the_left_one() {
    let mut table = Table::new(2);
    let neighbor = phil(1, 0, 1);
    let me = phil(0, 1, 0);
    let mut log: Vec<Event> = Vec::new();
    assert_eq!(neighbor.with_left_fork_blocking(&mut table, &mut log), BlockOutcome::Progressed);
    let mut log: Vec<Event> = Vec::new();
    assert_eq!(me.dine_blocking(&mut table, &mut log, 5), BlockingRun::BlockedOn(0));
    // the hazard itself: the waiting actor still holds its left fork
    assert_eq!(table.fork_state(1), ForkState::HeldBy(0));
}

#[test]
fn blocking_single_steps_compose_a_cycle() {
    let mut table = Table::new(2);
    let p = phil(0, 1, 0);
    let mut log: Vec<Event> = Vec::new();
    assert_eq!(p.with_left_fork_blocking(&mut table, &mut log), BlockOutcome::Progressed);
    assert_eq!(table.fork_state(1), ForkState::HeldBy(0));
    assert_eq!(p.with_right_fork_blocking(&mut table, &mut log), BlockOutcome::Progressed);
    // the cycle ended with both forks back on the table
    assert_eq!(table.fork_state(0), ForkState::Free);
    assert_eq!(table.fork_state(1), ForkState::Free);
    let got: Vec<EventKind> = log.iter().map(|e| e.kind).collect();
    assert_eq!(
        got,
        vec![
            EventKind::AcquiredLeft,
            EventKind::AcquiredRight,
            EventKind::Working,
            EventKind::ReleasedRight,
            EventKind::ReleasedLeft,
        ]
    );
}

#[test]
fn blocking_poisoned_left_fork_is_fatal() {
    let mut table = Table::new(2);
    table.poison(1);
    let p = phil(0, 1, 0);
    let mut log: Vec<Event> = Vec::new();
    assert_eq!(p.dine_blocking(&mut table, &mut log, 3), BlockingRun::Fatal(1));
}

#[test]
fn blocking_poisoned_right_fork_is_fatal_and_releases_the_left() {
    let mut table = Table::new(2);
    table.poison(0);
    let p = phil(0, 1, 0);
    let mut log: Vec<Event> = Vec::new();
    assert_eq!(p.dine_blocking(&mut table, &mut log, 3), BlockingRun::Fatal(0));
    assert_eq!(table.fork_state(1), ForkState::Free);
}
