use philosophers::demonstrate_deadlock;
use philosophers::BlockingRound;
use philosophers::Event;
use philosophers::Phase;
use philosophers::Sim;

fn names(n: usize) -> Vec<String> {
    let all = ["Hobbes", "Locke", "Plato", "Socrates", "Hume", "Russell", "Kant"];
    (0..n).map(|i| all[i % all.len()].to_string()).collect()
}

/// Replay an interleaved narration and check every actor's own sequence:
/// the right fork is never taken without the left in hand, nothing is
/// held when idling begins, no fork has two holders at once, and every
/// release matches a holder.
fn replay_and_check(log: &[Event], seats: &[(usize, usize)], fork_count: usize) {
    let n = seats.len();
    let mut holds_left = vec![false; n];
    let mut holds_right = vec![false; n];
    let mut owner: Vec<Option<usize>> = vec![None; fork_count];
    for e in log {
        let a = e.actor;
        let (lf, rf) = seats[a];
        match e.kind {
            philosophers::EventKind::SatDown => {
                assert!(!holds_left[a] && !holds_right[a]);
            }
            philosophers::EventKind::AcquiredLeft => {
                assert!(!holds_left[a] && !holds_right[a]);
                assert_eq!(owner[lf], None);
                owner[lf] = Some(a);
                holds_left[a] = true;
            }
            philosophers::EventKind::AcquiredRight => {
                assert!(holds_left[a] && !holds_right[a]);
                assert_eq!(owner[rf], None);
                owner[rf] = Some(a);
                holds_right[a] = true;
            }
            philosophers::EventKind::Working => {
                assert!(holds_left[a] && holds_right[a]);
            }
            philosophers::EventKind::ReleasedRight => {
                assert!(holds_right[a]);
                assert_eq!(owner[rf], Some(a));
                owner[rf] = None;
                holds_right[a] = false;
            }
            philosophers::EventKind::ReleasedLeft => {
                assert!(holds_left[a]);
                assert_eq!(owner[lf], Some(a));
                owner[lf] = None;
                holds_left[a] = false;
            }
            philosophers::EventKind::Idling => {
                assert!(!holds_left[a] && !holds_right[a]);
            }
        }
    }
}

#[test]
fn five_actors_thousand_cycles_terminate() {
    let mut s = Sim::new(names(5), 1000).unwrap();
    assert_eq!(s.run_round_robin(), Ok(()));
    for st in &s.states {
        assert_eq!(st.phase, Phase::Idle);
        assert_eq!(st.remaining, 0);
    }
    let total_meals: usize = s.states.iter().map(|st| st.meals).sum();
    assert!(total_meals > 0);
    // every consumed cycle narrates at least one event after the seatings
    assert!(s.log.len() > 5000);
}

#[test]
fn interleaved_narration_is_consistent() {
    let mut s = Sim::new(names(3), 200).unwrap();
    assert_eq!(s.run_round_robin(), Ok(()));
    let seats: Vec<(usize, usize)> =
        s.phils.iter().map(|p| (p.left_fork, p.right_fork)).collect();
    replay_and_check(&s.log, &seats, 3);
}

#[test]
fn blocking_narration_is_consistent_too() {
    let mut s = Sim::new(names(4), 50).unwrap();
    let _outcome = s.run_blocking_round_robin();
    let seats: Vec<(usize, usize)> =
        s.phils.iter().map(|p| (p.left_fork, p.right_fork)).collect();
    replay_and_check(&s.log, &seats, 4);
}

#[test]
fn deadlock_state_is_reachable() {
    let s = demonstrate_deadlock(names(5), 10).unwrap();
    for (i, st) in s.states.iter().enumerate() {
        assert_eq!(st.phase, Phase::HasLeft);
        let lf = s.phils[i].left_fork;
        assert_eq!(s.table.fork_state(lf), philosophers::ForkState::HeldBy(i));
    }
}

#[test]
fn deadlocked_round_is_reported_not_hung() {
    let mut s = demonstrate_deadlock(names(5), 10).unwrap();
    assert_eq!(s.run_blocking_round_robin(), BlockingRound::Deadlocked);
}

#[test]
fn fresh_blocking_round_robin_reaches_the_deadlock() {
    // every actor's first turn takes its left fork, so the second sweep
    // finds the circular wait
    let mut s = Sim::new(names(5), 10).unwrap();
    assert_eq!(s.run_blocking_round_robin(), BlockingRound::Deadlocked);
}

#[test]
fn poisoned_fork_is_fatal_for_the_blocking_round_too() {
    let mut s = Sim::new(names(2), 5).unwrap();
    s.table.poison(1);
    assert_eq!(s.run_blocking_round_robin(), BlockingRound::Fatal(1));
    assert_eq!(s.states[0].phase, Phase::Failed(1));
    assert_eq!(s.states[1].phase, Phase::Failed(1));
}

#[test]
fn poisoned_fork_surfaces_at_the_orchestrator() {
    let mut s = Sim::new(names(3), 5).unwrap();
    s.table.poison(1);
    assert_eq!(s.run_round_robin(), Err(1));
    // the failure names the fork, and the unpoisoned actor still finished
    assert_eq!(s.states[0].phase, Phase::Idle);
    assert_eq!(s.states[0].remaining, 0);
    assert_eq!(s.states[2].phase, Phase::Failed(1));
}

#[test]
fn zero_cycles_complete_at_once_under_both_policies() {
    let mut s = Sim::new(names(3), 0).unwrap();
    assert_eq!(s.run_round_robin(), Ok(()));
    let mut s = Sim::new(names(3), 0).unwrap();
    assert_eq!(s.run_blocking_round_robin(), BlockingRound::AllDone);
}

#[test]
fn fresh_round_seats_everyone_first() {
    let s = Sim::new(names(2), 1).unwrap();
    assert_eq!(s.log.len(), 2);
    for (i, e) in s.log.iter().enumerate() {
        assert_eq!(e.actor, i);
        assert_eq!(e.kind, philosophers::EventKind::SatDown);
    }
    assert_eq!(s.phils[0].name, "Hobbes");
    assert_eq!(s.phils[1].name, "Locke");
}
