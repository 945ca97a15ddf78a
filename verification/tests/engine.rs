use gorillatype::engine::{speed_chars_per_minute, KeyEvent, Signal, Speed, TrialState};
use gorillatype::errors::TrialError;
use gorillatype::main0;
use gorillatype::passage::Passage;

fn passage_of(s: &str) -> Passage {
    Passage::new(s.chars().collect())
}

#[test]
fn space_starts_the_trial() {
    let p = passage_of("cat");
    let (next, signal) = TrialState::AwaitingStart.advance(&p, KeyEvent::Char(' '), 0);
    assert_eq!(next, TrialState::AwaitingFirstKey);
    assert_eq!(signal, Signal::Ready);
}

#[test]
fn other_keys_do_not_start_the_trial() {
    let p = passage_of("cat");
    for key in [KeyEvent::Char('x'), KeyEvent::Char('c'), KeyEvent::Other] {
        let (next, signal) = TrialState::AwaitingStart.advance(&p, key, 0);
        assert_eq!(next, TrialState::AwaitingStart);
        assert_eq!(signal, Signal::Ignored);
    }
}

#[test]
fn ignored_keys_leave_waiting_state_unchanged() {
    let p = passage_of("cat");
    let mut state = TrialState::AwaitingFirstKey;
    for key in [KeyEvent::Char('x'), KeyEvent::Char('a'), KeyEvent::Other, KeyEvent::Char(' ')] {
        let (next, signal) = state.advance(&p, key, 999);
        assert_eq!(next, TrialState::AwaitingFirstKey);
        assert_eq!(signal, Signal::Ignored);
        state = next;
    }
}

#[test]
fn ignored_keys_leave_running_state_unchanged() {
    let p = passage_of("cat");
    let mut state = TrialState::InProgress { start_time: 10, cursor: 1 };
    for key in [KeyEvent::Char('c'), KeyEvent::Char('t'), KeyEvent::Other, KeyEvent::Char(' ')] {
        let (next, signal) = state.advance(&p, key, 999);
        assert_eq!(next, TrialState::InProgress { start_time: 10, cursor: 1 });
        assert_eq!(signal, Signal::Ignored);
        state = next;
    }
}

#[test]
fn cursor_advances_by_exactly_one_per_correct_key() {
    let p = passage_of("dog!");
    let (s1, g1) = TrialState::AwaitingFirstKey.advance(&p, KeyEvent::Char('d'), 100);
    assert_eq!(s1, TrialState::InProgress { start_time: 100, cursor: 1 });
    assert_eq!(g1, Signal::Accepted { pos: 0 });
    let (s2, g2) = s1.advance(&p, KeyEvent::Char('o'), 200);
    assert_eq!(s2, TrialState::InProgress { start_time: 100, cursor: 2 });
    assert_eq!(g2, Signal::Accepted { pos: 1 });
    let (s3, g3) = s2.advance(&p, KeyEvent::Char('g'), 300);
    assert_eq!(s3, TrialState::InProgress { start_time: 100, cursor: 3 });
    assert_eq!(g3, Signal::Accepted { pos: 2 });
}

#[test]
fn completion_happens_exactly_at_passage_end() {
    let p = passage_of("hi");
    let (s1, _) = TrialState::AwaitingFirstKey.advance(&p, KeyEvent::Char('h'), 100);
    assert!(matches!(s1, TrialState::InProgress { cursor: 1, .. }));
    let (s2, g2) = s1.advance(&p, KeyEvent::Char('i'), 700);
    assert_eq!(s2, TrialState::Completed { start_time: 100, end_time: 700 });
    assert_eq!(g2, Signal::Accepted { pos: 1 });
}

#[test]
fn completed_trial_absorbs_every_key() {
    let p = passage_of("cat");
    let done = TrialState::Completed { start_time: 5, end_time: 9 };
    for key in [KeyEvent::Char('c'), KeyEvent::Char(' '), KeyEvent::Other] {
        let (next, signal) = done.advance(&p, key, 1000);
        assert_eq!(next, done);
        assert_eq!(signal, Signal::Ignored);
    }
}

#[test]
fn single_character_passage_completes_on_its_first_key() {
    let p = passage_of("x");
    let (next, signal) = TrialState::AwaitingFirstKey.advance(&p, KeyEvent::Char('x'), 42);
    assert_eq!(next, TrialState::Completed { start_time: 42, end_time: 42 });
    assert_eq!(signal, Signal::Accepted { pos: 0 });
}

#[test]
fn speed_of_hundred_chars_in_one_minute_is_one_hundred() {
    let s = speed_chars_per_minute(100, 0, 60000).unwrap();
    assert_eq!(s, Speed { numer: 6_000_000, denom: 60000 });
    assert_eq!(s.numer as f64 / s.denom as f64, 100.0);
}

#[test]
fn zero_elapsed_time_has_no_speed() {
    let r = speed_chars_per_minute(10, 5000, 5000);
    assert_eq!(r, Err(TrialError::DegenerateTiming));
}

#[test]
fn end_to_end_cat_trial() {
    let (p, s0) = main0("cat".chars().collect(), 0).unwrap();
    assert_eq!(p.as_chars(), &vec!['c', 'a', 't']);
    assert_eq!(s0, TrialState::AwaitingStart);
    let (s1, g1) = s0.advance(&p, KeyEvent::Char(' '), 0);
    assert_eq!(s1, TrialState::AwaitingFirstKey);
    assert_eq!(g1, Signal::Ready);
    let (s2, _) = s1.advance(&p, KeyEvent::Char('x'), 500);
    assert_eq!(s2, TrialState::AwaitingFirstKey);
    let (s3, _) = s2.advance(&p, KeyEvent::Char('c'), 1000);
    assert_eq!(s3, TrialState::InProgress { start_time: 1000, cursor: 1 });
    let (s4, _) = s3.advance(&p, KeyEvent::Char('a'), 2000);
    assert_eq!(s4, TrialState::InProgress { start_time: 1000, cursor: 2 });
    let (s5, _) = s4.advance(&p, KeyEvent::Char('t'), 4000);
    assert_eq!(s5, TrialState::Completed { start_time: 1000, end_time: 4000 });
    let speed = speed_chars_per_minute(p.len(), 1000, 4000).unwrap();
    assert_eq!(speed.numer as f64 / speed.denom as f64, 60.0);
}

#[test]
fn trial_set_up_rejects_an_empty_text_with_nonzero_count() {
    let r = main0(Vec::new(), 40);
    assert_eq!(r, Err(TrialError::EmptySource));
}

#[test]
fn trial_set_up_normalizes_to_the_requested_count() {
    let (p, _) = main0("ab".chars().collect(), 7).unwrap();
    let want: Vec<char> = " ab ab a".chars().collect();
    assert_eq!(p.as_chars(), &want);
}

#[test]
fn clock_reports_time_after_the_epoch() {
    let d = gorillatype::clock::get_current_duration();
    assert!(d.as_millis() > 0);
}
