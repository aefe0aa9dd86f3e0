use philosophers::build;
use philosophers::left_index;
use philosophers::right_index;
use philosophers::RingError;

#[test]
fn build_five_seats() {
    let seats = build(5).unwrap();
    assert_eq!(seats.len(), 5);
    assert_eq!(seats[0].left, 4);
    assert_eq!(seats[0].right, 0);
    for i in 1..5 {
        assert_eq!(seats[i].left, i - 1);
        assert_eq!(seats[i].right, i);
    }
}

#[test]
fn build_rejects_zero_and_one() {
    assert_eq!(build(0), Err(RingError::TooFewSeats));
    assert_eq!(build(1), Err(RingError::TooFewSeats));
}

#[test]
fn build_two_seats_share_both_forks() {
    let seats = build(2).unwrap();
    assert_eq!(seats[0].left, 1);
    assert_eq!(seats[0].right, 0);
    assert_eq!(seats[1].left, 0);
    assert_eq!(seats[1].right, 1);
}

#[test]
fn every_fork_is_left_once_and_right_once() {
    let n = 5;
    let seats = build(n).unwrap();
    let mut left_count = vec![0usize; n];
    let mut right_count = vec![0usize; n];
    for s in &seats {
        left_count[s.left] += 1;
        right_count[s.right] += 1;
    }
    for f in 0..n {
        assert_eq!(left_count[f], 1);
        assert_eq!(right_count[f], 1);
    }
}

#[test]
fn index_helpers_agree_with_build() {
    let n = 7;
    let seats = build(n).unwrap();
    for i in 0..n {
        assert_eq!(left_index(i, n), seats[i].left);
        assert_eq!(right_index(i, n), seats[i].right);
    }
}
