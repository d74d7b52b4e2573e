use snake_grid::timer::{timer_finished, update_timer, Countdown, Lifetime, MoveTimer};

#[test]
fn a_new_countdown_has_its_whole_period_left() {
    let timer = Countdown::new(125_000, true);
    assert_eq!(timer.period, 125_000);
    assert_eq!(timer.remaining, 125_000);
    assert!(timer.repeating);
    assert!(!timer.finished());
    assert!(!timer.just_finished());
}

#[test]
fn countdowns_are_made_from_seconds_and_milliseconds() {
    assert_eq!(Countdown::from_seconds(2, true), Countdown::new(2_000_000, true));
    assert_eq!(Countdown::from_millis(125, false), Countdown::new(125_000, false));
    assert_eq!(Countdown::from_seconds(4_294_967_295, false).period, 4_294_967_295_000_000);
    assert_eq!(Lifetime::from_seconds(5), Lifetime(Countdown::new(5_000_000, false)));
    assert_eq!(MoveTimer(Countdown::from_millis(200, true)).0.remaining, 200_000);
}

#[test]
fn a_repeating_countdown_fires_and_starts_over() {
    let mut timer = Countdown::new(100, true);
    assert!(!timer.tick(40));
    assert_eq!(timer.remaining, 60);
    assert!(!timer.tick(59));
    assert_eq!(timer.remaining, 1);
    assert!(timer.tick(1));
    assert!(timer.just_finished());
    assert!(timer.finished());
    assert_eq!(timer.remaining, 100);
    assert!(!timer.tick(99));
    assert!(!timer.just_finished());
    assert!(!timer.finished());
    assert_eq!(timer.remaining, 1);
}

#[test]
fn a_countdown_fires_once_however_long_the_tick() {
    let mut timer = Countdown::new(100, true);
    assert!(timer.tick(1_000));
    assert_eq!(timer.remaining, 100);
    assert!(!timer.tick(10));
    assert_eq!(timer.remaining, 90);
}

#[test]
fn a_single_shot_countdown_stays_finished() {
    let mut timer = Countdown::new(100, false);
    assert!(!timer.tick(99));
    assert!(timer.tick(5));
    assert!(timer.finished());
    assert!(timer.just_finished());
    assert_eq!(timer.remaining, 0);
    assert!(!timer.tick(500));
    assert!(timer.finished());
    assert!(!timer.just_finished());
    assert_eq!(timer.remaining, 0);
}

#[test]
fn a_countdown_of_no_time_fires_on_every_tick() {
    let mut timer = Countdown::new(0, true);
    assert!(timer.tick(0));
    assert!(timer.tick(0));
    assert!(timer.tick(7));
}

#[test]
fn a_reset_countdown_is_like_new() {
    let mut timer = Countdown::new(100, false);
    timer.tick(150);
    timer.reset();
    assert_eq!(timer, Countdown::new(100, false));
}

#[test]
fn all_timers_are_updated() {
    let mut timers = vec![Countdown::new(10, true), Countdown::new(20, false), Countdown::new(5, true)];
    update_timer(&mut timers, 10);
    assert!(timers[0].just_finished());
    assert_eq!(timers[0].remaining, 10);
    assert!(!timers[1].just_finished());
    assert_eq!(timers[1].remaining, 10);
    assert!(timers[2].just_finished());
    assert_eq!(timers[2].remaining, 5);
}

#[test]
fn an_absent_timer_never_finishes() {
    assert!(!timer_finished(None, 1_000));
    let mut timer = Countdown::new(10, false);
    assert!(!timer_finished(Some(&mut timer), 9));
    assert!(timer_finished(Some(&mut timer), 1));
    assert!(timer_finished(Some(&mut timer), 1));
    assert_eq!(timer.remaining, 0);
}
