use philosophers::AcquireError;
use philosophers::Event;
use philosophers::EventKind;
use philosophers::ForkState;
use philosophers::Philosopher;
use philosophers::Table;

fn phil(seat: usize, left: usize, right: usize) -> Philosopher {
    Philosopher::new(seat, format!("seat {}", seat), left, right)
}

fn kinds(log: &[Event], actor: usize) -> Vec<EventKind> {
    log.iter().filter(|e| e.actor == actor).map(|e| e.kind).collect()
}

#[test]
fn lone_cycle_eats_and_releases() {
    let mut table = Table::new(2);
    let p = phil(0, 1, 0);
    let mut log: Vec<Event> = Vec::new();
    assert_eq!(p.with_left_fork(&mut table, &mut log), Ok(()));
    assert_eq!(
        kinds(&log, 0),
        vec![
            EventKind::AcquiredLeft,
            EventKind::AcquiredRight,
            EventKind::Working,
            EventKind::ReleasedRight,
            EventKind::ReleasedLeft,
        ]
    );
    assert_eq!(table.fork_state(0), ForkState::Free);
    assert_eq!(table.fork_state(1), ForkState::Free);
}

#[test]
fn busy_left_fork_abandons_cycle_silently() {
    let mut table = Table::new(2);
    let me = phil(0, 1, 0);
    let mut log: Vec<Event> = Vec::new();
    // the neighbor holds fork 1, my left fork
    assert_eq!(table.try_acquire(1, 1), philosophers::Acquire::Acquired);
    assert_eq!(me.with_left_fork(&mut table, &mut log), Err(AcquireError::Busy));
    assert_eq!(kinds(&log, 0), Vec::<EventKind>::new());
    // the neighbor still holds my left fork; I hold nothing
    assert_eq!(table.fork_state(1), ForkState::HeldBy(1));
    assert_eq!(table.fork_state(0), ForkState::Free);
}

#[test]
fn busy_right_fork_releases_left_before_idling() {
    let mut table = Table::new(2);
    let neighbor = phil(1, 0, 1);
    let me = phil(0, 1, 0);
    let mut log: Vec<Event> = Vec::new();
    // the neighbor takes fork 0, my right fork
    assert_eq!(
        neighbor.with_left_fork_blocking(&mut table, &mut log),
        philosophers::BlockOutcome::Progressed
    );
    let mut log: Vec<Event> = Vec::new();
    assert_eq!(me.with_left_fork(&mut table, &mut log), Err(AcquireError::Busy));
    // the left fork was picked up and put back: nothing is held across the idle
    assert_eq!(kinds(&log, 0), vec![EventKind::AcquiredLeft, EventKind::ReleasedLeft]);
    assert_eq!(table.fork_state(1), ForkState::Free);
}

#[test]
fn poisoned_left_fork_is_fatal() {
    let mut table = Table::new(2);
    table.poison(1);
    let p = phil(0, 1, 0);
    let mut log: Vec<Event> = Vec::new();
    assert_eq!(p.with_left_fork(&mut table, &mut log), Err(AcquireError::Poisoned(1)));
    assert!(log.is_empty());
}

#[test]
fn poisoned_right_fork_is_fatal_and_left_is_released() {
    let mut table = Table::new(2);
    table.poison(0);
    let p = phil(0, 1, 0);
    let mut log: Vec<Event> = Vec::new();
    assert_eq!(p.with_left_fork(&mut table, &mut log), Err(AcquireError::Poisoned(0)));
    assert_eq!(kinds(&log, 0), vec![EventKind::AcquiredLeft, EventKind::ReleasedLeft]);
    assert_eq!(table.fork_state(1), ForkState::Free);
}

#[test]
fn dine_uncontended_completes_every_cycle() {
    let mut table = Table::new(2);
    let p = phil(0, 1, 0);
    let mut log: Vec<Event> = Vec::new();
    assert_eq!(p.dine(&mut table, &mut log, 3), Ok(()));
    let mut expected = vec![EventKind::SatDown];
    for _ in 0..3 {
        expected.extend_from_slice(&[
            EventKind::AcquiredLeft,
            EventKind::AcquiredRight,
            EventKind::Working,
            EventKind::ReleasedRight,
            EventKind::ReleasedLeft,
        ]);
    }
    assert_eq!(kinds(&log, 0), expected);
    assert_eq!(table.fork_state(0), ForkState::Free);
    assert_eq!(table.fork_state(1), ForkState::Free);
}

#[test]
fn dine_against_held_left_fork_idles_every_cycle() {
    let mut table = Table::new(2);
    let me = phil(0, 1, 0);
    // the neighbor holds fork 1, my left fork, for the whole run
    assert_eq!(table.try_acquire(1, 1), philosophers::Acquire::Acquired);
    let mut log: Vec<Event> = Vec::new();
    assert_eq!(me.dine(&mut table, &mut log, 4), Ok(()));
    assert_eq!(
        kinds(&log, 0),
        vec![
            EventKind::SatDown,
            EventKind::Idling,
            EventKind::Idling,
            EventKind::Idling,
            EventKind::Idling,
        ]
    );
}

#[test]
fn dine_aborts_on_poisoned_fork() {
    let mut table = Table::new(2);
    table.poison(0);
    let p = phil(0, 1, 0);
    let mut log: Vec<Event> = Vec::new();
    assert_eq!(p.dine(&mut table, &mut log, 100), Err(AcquireError::Poisoned(0)));
    assert_eq!(
        kinds(&log, 0),
        vec![EventKind::SatDown, EventKind::AcquiredLeft, EventKind::ReleasedLeft]
    );
    assert_eq!(table.fork_state(1), ForkState::Free);
}

#[test]
fn think_pause_is_always_under_ten_nanoseconds() {
    let p = phil(0, 1, 0);
    for _ in 0..1000 {
        assert!(p.think() < 10);
    }
}

#[test]
fn table_reports_each_acquisition_outcome() {
    let mut table = Table::new(2);
    assert_eq!(table.len(), 2);
    assert_eq!(table.try_acquire(0, 0), philosophers::Acquire::Acquired);
    assert_eq!(table.fork_state(0), ForkState::HeldBy(0));
    assert_eq!(table.try_acquire(0, 1), philosophers::Acquire::Busy);
    table.release(0, 0);
    assert_eq!(table.fork_state(0), ForkState::Free);
    table.poison(0);
    assert_eq!(table.try_acquire(0, 1), philosophers::Acquire::PoisonFound);
    assert_eq!(table.fork_state(0), ForkState::Poisoned);
}

#[test]
fn eat_takes_the_fixed_pause() {
    let mut table = Table::new(2);
    let p = phil(0, 1, 0);
    let mut log: Vec<Event> = Vec::new();
    // hold both forks, as eating requires
    assert_eq!(
        p.with_left_fork_blocking(&mut table, &mut log),
        philosophers::BlockOutcome::Progressed
    );
    assert_eq!(table.try_acquire(0, 0), philosophers::Acquire::Acquired);
    assert_eq!(p.eat(&table), 100);
}
