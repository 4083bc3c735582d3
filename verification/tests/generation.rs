use zestors::generation::{
    generation_text, next_generation, now_millis, parse_generation, pick, stored_generation,
    Generations,
};

#[test]
fn follows_the_clock_when_it_is_ahead() {
    assert_eq!(pick(1_000, 10), 1_000);
}

#[test]
fn never_goes_back_when_the_clock_does() {
    assert_eq!(pick(100, 500), 501);
    assert_eq!(pick(500, 500), 501);
}

#[test]
fn grows_across_calls_in_a_process() {
    let mut generations = Generations::new();
    let (a, b) = (generations.next(0), generations.next(0));
    assert!(b > a);
}

#[test]
fn pick_stops_at_the_largest_generation() {
    assert_eq!(pick(5, u64::MAX), u64::MAX);
    assert_eq!(pick(u64::MAX, 7), u64::MAX);
}

#[test]
fn grows_past_what_an_earlier_run_recorded_without_a_file() {
    let far_ahead = 1_000 + 3_600_000;
    assert_eq!(next_generation(10, far_ahead, 1_000), far_ahead + 1);
    assert_eq!(next_generation(far_ahead + 5, far_ahead, 1_000), far_ahead + 6);
    assert_eq!(next_generation(3, 2, 1_000), 1_000);
}

#[test]
fn a_process_hands_out_growing_generations_past_the_store() {
    let mut generations = Generations::new();
    let stored = now_millis() + 3_600_000;
    let first = generations.next(stored);
    assert!(first > stored);
    assert_eq!(generations.last(), first);
    let second = generations.next(0);
    assert!(second > first);
}

#[test]
fn the_clock_is_past_the_epoch() {
    assert!(now_millis() > 1_577_836_800_000);
}

#[test]
fn a_store_reads_back_what_was_written() {
    for generation in [0u64, 7, 10, 1_700_000_000_123, u64::MAX] {
        let text = generation_text(generation);
        assert_eq!(parse_generation(&text), Some(generation));
    }
    assert_eq!(generation_text(1_700_000_000_123), "1700000000123");
    assert_eq!(generation_text(0), "0");
}

#[test]
fn a_missing_store_starts_fresh_and_a_garbled_one_is_refused_as_text() {
    assert_eq!(stored_generation(None), Some(0));
    assert_eq!(stored_generation(Some("not a number")), None);
    assert_eq!(stored_generation(Some("501")), Some(501));
}

#[test]
fn stored_generations_are_read_like_from_str_after_trim() {
    assert_eq!(parse_generation("  42\n"), Some(42));
    assert_eq!(parse_generation("+7"), Some(7));
    assert_eq!(parse_generation("\u{a0}9\u{3000}"), Some(9));
    assert_eq!(parse_generation("18446744073709551615"), Some(u64::MAX));
    assert_eq!(parse_generation("18446744073709551616"), None);
    assert_eq!(parse_generation(""), None);
    assert_eq!(parse_generation("   "), None);
    assert_eq!(parse_generation("+"), None);
    assert_eq!(parse_generation("-1"), None);
    assert_eq!(parse_generation("4 2"), None);
    assert_eq!(parse_generation("12a"), None);
    assert_eq!(parse_generation("٣"), None);
}
