use artbabo::rate_limit::{
    can_increment, increment_server_time, increment_server_time_at, GlobalServerValues,
};
use artbabo::text::{
    decimal_string, make_bid_message, make_failed_force_message, make_forced_bid_message,
};

#[test]
fn decimal_string_agrees_with_std() {
    for n in [0u64, 1, 9, 10, 11, 99, 100, 101, 3500, 4294967295, 18446744073709551615] {
        assert_eq!(decimal_string(n), format!("{}", n));
    }
}

#[test]
fn messages_read_as_sentences() {
    assert_eq!(make_bid_message(&"ann".to_string(), 1200), "ann has bid 1200");
    assert_eq!(
        make_forced_bid_message(&"bob".to_string(), 0),
        "bob has been forced to bid 0"
    );
    assert_eq!(
        make_failed_force_message(&"ann".to_string(), &"bob".to_string()),
        "ann tried to force bob to bid, but it failed!"
    );
}

#[test]
fn free_service_means_no_wait() {
    let mut clock: i64 = 5_000;
    let wait = increment_server_time_at(&mut clock, 20_000, 10);
    assert_eq!(wait, 0);
    assert_eq!(clock, 30_000);
}

#[test]
fn busy_service_means_waiting_whole_seconds() {
    let mut clock: i64 = 27_900;
    let wait = increment_server_time_at(&mut clock, 20_000, 10);
    assert_eq!(wait, 7);
    assert_eq!(clock, 37_900);
    let wait = increment_server_time_at(&mut clock, 20_500, 1);
    assert_eq!(wait, 17);
    assert_eq!(clock, 38_900);
}

#[test]
fn service_free_exactly_now_means_no_wait() {
    let mut clock: i64 = 20_000;
    assert_eq!(increment_server_time_at(&mut clock, 20_000, 0), 0);
    assert_eq!(clock, 20_000);
}

#[test]
fn clock_that_cannot_advance_is_detected() {
    assert!(can_increment(0, 0, 1));
    assert!(!can_increment(i64::MAX, 0, 1));
    assert!(!can_increment(0, i64::MAX - 999, 1));
    assert!(can_increment(0, i64::MAX - 1000, 1));
    assert!(!can_increment(0, 0, u64::MAX));
}

#[test]
fn booking_says_the_wait_and_moves_the_clock() {
    let mut clock: i64 = 0;
    assert_eq!(increment_server_time(&mut clock, 50_000, 10), Some(0));
    assert_eq!(clock, 60_000);
    assert_eq!(increment_server_time(&mut clock, 50_400, 10), Some(9));
    assert_eq!(clock, 70_000);
}

#[test]
fn booking_that_overflows_changes_nothing() {
    let mut clock: i64 = i64::MAX - 5;
    assert!(increment_server_time(&mut clock, 0, 1).is_none());
    assert_eq!(clock, i64::MAX - 5);
    let mut clock: i64 = 7;
    assert!(increment_server_time(&mut clock, i64::MAX - 999, 1).is_none());
    assert_eq!(clock, 7);
    assert_eq!(increment_server_time(&mut clock, i64::MAX - 1000, 1), Some(0));
    assert_eq!(clock, i64::MAX);
}

#[test]
fn the_two_clocks_are_independent() {
    let mut values = GlobalServerValues::default();
    values.endpoint_info.image_gen_key = "key".to_string();
    assert_eq!(values.next_available_image_server_time, 0);
    assert_eq!(values.next_available_prompt_server_time, 0);
    assert_eq!(values.reserve_prompt_calls(100_000, 4), Some(0));
    assert_eq!(values.next_available_image_server_time, 0);
    assert_eq!(values.next_available_prompt_server_time, 104_000);
    assert_eq!(values.reserve_prompt_calls(100_500, 1), Some(3));
    assert_eq!(values.next_available_prompt_server_time, 105_000);
    assert_eq!(values.reserve_prompt_calls(100_500, 0), Some(4));
    assert_eq!(values.next_available_prompt_server_time, 105_000);
    assert_eq!(values.reserve_image_call(100_600), Some(0));
    assert_eq!(values.next_available_image_server_time, 110_600);
    assert_eq!(values.reserve_image_call(100_700), Some(9));
    assert_eq!(values.next_available_image_server_time, 120_600);
    assert_eq!(values.next_available_prompt_server_time, 105_000);
    assert_eq!(values.endpoint_info.image_gen_key, "key");
}

#[test]
fn bookings_fail_only_at_the_end_of_the_clock() {
    let mut values = GlobalServerValues::default();
    values.next_available_image_server_time = i64::MAX - 10_000;
    values.next_available_prompt_server_time = i64::MAX - 2_000;
    assert_eq!(values.reserve_image_call(i64::MAX - 10_000), Some(0));
    assert_eq!(values.next_available_image_server_time, i64::MAX);
    assert_eq!(values.reserve_image_call(0), None);
    assert_eq!(values.next_available_image_server_time, i64::MAX);
    assert_eq!(values.reserve_prompt_calls(0, 3), None);
    assert_eq!(values.next_available_prompt_server_time, i64::MAX - 2_000);
    assert!(values.reserve_prompt_calls(0, 2).is_some());
    assert_eq!(values.next_available_prompt_server_time, i64::MAX);
}
