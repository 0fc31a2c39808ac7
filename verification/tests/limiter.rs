use surge_ping::limiter::{LimitBasket, ShotStep, DEFAULT_LIMIT_PPS, MIN_WAIT_NANOS};

#[test]
fn first_shot_goes_immediately() {
    let mut b = LimitBasket::new(1000);
    assert_eq!(b.shot(5), ShotStep::Go);
    assert_eq!(b.cnt, 1);
    assert_eq!(b.last, Some(5));
}

#[test]
fn immediate_second_shot_sleeps_at_low_ceiling() {
    let mut b = LimitBasket::new(1000);
    assert_eq!(b.shot(5), ShotStep::Go);
    // one send owed at 1000 pps is worth exactly the minimum wait
    assert_eq!(b.shot(5), ShotStep::Sleep(1_000_000));
    // the basket is untouched until the sleep is completed
    assert_eq!(b.cnt, 1);
    b.complete_wait(1_000_005);
    assert_eq!(b.cnt, 1);
    assert_eq!(b.last, Some(1_000_005));
}

#[test]
fn waits_below_the_floor_are_skipped() {
    let mut b = LimitBasket::new(DEFAULT_LIMIT_PPS);
    for k in 1..=10u64 {
        assert_eq!(b.shot(0), ShotStep::Go, "send {}", k);
        assert_eq!(b.cnt, k);
    }
    // ten sends owed at 10000 pps reach the 1 ms floor
    assert_eq!(b.shot(0), ShotStep::Sleep(MIN_WAIT_NANOS));
}

#[test]
fn elapsed_time_pays_the_debt() {
    let mut b = LimitBasket::new(DEFAULT_LIMIT_PPS);
    for _ in 0..5 {
        b.shot(0);
    }
    assert_eq!(b.cnt, 5);
    // a full second pays for 10000 sends: nothing left owed
    assert_eq!(b.shot(1_000_000_000), ShotStep::Go);
    assert_eq!(b.cnt, 1);
}

#[test]
fn partial_elapsed_time_pays_partially() {
    let mut b = LimitBasket::new(1_000_000);
    assert_eq!(b.shot(0), ShotStep::Go);
    for _ in 0..999 {
        assert_eq!(b.shot(0), ShotStep::Go);
    }
    assert_eq!(b.cnt, 1000);
    // 500 microseconds pay for 500 of the 1000 owed; 500 remain, worth
    // 500 microseconds of wait: under the floor, so the send goes through
    assert_eq!(b.shot(500_000), ShotStep::Go);
    assert_eq!(b.cnt, 501);
}
