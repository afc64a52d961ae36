use std::time::{SystemTime, UNIX_EPOCH};
use trend_score::observation::Observation;
use trend_score::ratio::Ratio;
use trend_score::trend_calculator::{
    calculate, current_popularity, historical_popularity, normalize, recency_popularity,
    InvalidInput, Weights, ONE_MONTH_SECS,
};

fn value(r: Ratio) -> f64 {
    r.num as f64 / r.den as f64
}

fn now_secs() -> i64 {
    SystemTime::now().duration_since(UNIX_EPOCH).unwrap().as_secs() as i64
}

fn obs(channel: &str, value: i64, timestamp: i32) -> Observation {
    Observation { channel_id: channel.to_string(), value, timestamp }
}

#[test]
fn should_normalize_min_value_to_zero() {
    let result = normalize(0, 0, 11010);
    assert_eq!(value(result), 0.0);
}

#[test]
fn should_normalize_max_value_to_one() {
    let result = normalize(11010, 0, 11010);
    assert_eq!(value(result), 1.0);
}

#[test]
fn should_normalize_center_value_to_one() {
    let result = normalize(5505, 0, 11010);
    assert_eq!(value(result), 0.5);
}

#[test]
fn should_calculate_last_upload_popularity_to_zero_if_timestamp_older_than_one_month() {
    let result = recency_popularity(15, now_secs());
    assert_eq!(value(result), 0.0);
}

#[test]
fn should_calculate_last_upload_popularity_to_one_if_timestamp_in_the_future() {
    let timestamp = now_secs();
    let result = recency_popularity(timestamp * 2, timestamp);
    assert_eq!(value(result), 1.0);
}

#[test]
fn should_calculate_last_upload_popularity_within_range_if_few_seconds_ago() {
    let timestamp = now_secs();
    let result = recency_popularity(timestamp - 100, timestamp);
    assert!(value(result) > 0.0 && value(result) < 1.0);
}

#[test]
fn should_calculate_historical_popularity_of_two_observation_series() {
    let result_a = historical_popularity(&vec![
        obs("channel a", 10, 1),
        obs("channel a", 11, 2),
        obs("channel a", 10, 3),
    ]);
    let result_b = historical_popularity(&vec![
        obs("channel b", 1000, 1),
        obs("channel b", 1100, 2),
        obs("channel b", 30, 3),
    ]);
    println!("a: {}, b: {}", value(result_a), value(result_b));
    assert!(result_b.less_than(&result_a));
    assert!(value(result_a) > value(result_b));
}

#[test]
fn normalize_clamps_outside_the_window() {
    assert_eq!(value(normalize(3, 5, 15)), 0.0);
    assert_eq!(value(normalize(99, 5, 15)), 1.0);
    assert_eq!(value(normalize(10, 5, 15)), 0.5);
    assert_eq!(normalize(8, 5, 15), Ratio { num: 3, den: 10 });
}

#[test]
fn normalize_of_a_single_point_window_is_zero() {
    assert_eq!(value(normalize(7, 7, 7)), 0.0);
}

#[test]
fn historical_of_empty_and_single_series_is_zero() {
    assert_eq!(value(historical_popularity(&vec![])), 0.0);
    assert_eq!(value(historical_popularity(&vec![obs("c", 42, 20240101)])), 0.0);
}

#[test]
fn historical_of_flat_series_is_zero() {
    let s = vec![obs("c", 5, 1), obs("c", 5, 2), obs("c", 5, 3)];
    assert_eq!(value(historical_popularity(&s)), 0.0);
}

#[test]
fn historical_rising_outranks_peak_then_decline() {
    let rising = vec![obs("c", 10, 1), obs("c", 20, 2), obs("c", 30, 3)];
    let peaked = vec![obs("c", 10, 1), obs("c", 30, 2), obs("c", 5, 3)];
    let a = historical_popularity(&rising);
    let b = historical_popularity(&peaked);
    assert_eq!(value(a), 1.0);
    assert!(b.less_than(&a));
}

#[test]
fn historical_exact_values_of_two_channels() {
    let a = historical_popularity(&vec![obs("a", 10, 1), obs("a", 11, 2), obs("a", 10, 3)]);
    let b = historical_popularity(&vec![obs("b", 1000, 1), obs("b", 1100, 2), obs("b", 30, 3)]);
    assert_eq!(a, Ratio { num: 0, den: 1 });
    assert_eq!(b, Ratio { num: -970, den: 1070 });
    assert!((value(b) + 0.907).abs() < 0.001);
    assert!(b.less_than(&a));
}

#[test]
fn historical_orders_by_timestamp_before_summing() {
    let shuffled = vec![obs("c", 30, 3), obs("c", 10, 1), obs("c", 20, 2)];
    assert_eq!(value(historical_popularity(&shuffled)), 1.0);
    let falling = vec![obs("c", 10, 20240103), obs("c", 30, 20240101), obs("c", 20, 20240102)];
    assert_eq!(value(historical_popularity(&falling)), -1.0);
}

#[test]
fn historical_ties_keep_input_order() {
    // Equal timestamps keep their input order: the last of the latest ends the walk.
    let s = vec![obs("c", 0, 1), obs("c", 10, 2), obs("c", 4, 2)];
    assert_eq!(historical_popularity(&s), Ratio { num: 4, den: 10 });
}

#[test]
fn current_of_empty_series_is_zero() {
    assert_eq!(value(current_popularity(&vec![], 100)), 0.0);
}

#[test]
fn current_at_global_max_is_zero_and_at_zero_is_one() {
    let at_max = vec![obs("c", 3, 1), obs("c", 100, 2)];
    assert_eq!(value(current_popularity(&at_max, 100)), 0.0);
    let at_zero = vec![obs("c", 50, 1), obs("c", 0, 2)];
    assert_eq!(value(current_popularity(&at_zero, 100)), 1.0);
}

#[test]
fn current_uses_latest_observation_and_clamps() {
    let s = vec![obs("c", 25, 2), obs("c", 90, 1)];
    assert_eq!(value(current_popularity(&s, 100)), 0.75);
    let above = vec![obs("c", 500, 1)];
    assert_eq!(value(current_popularity(&above, 100)), 0.0);
    let ties = vec![obs("c", 40, 5), obs("c", 80, 5)];
    assert_eq!(value(current_popularity(&ties, 100)), 0.6);
}

#[test]
fn current_with_zero_global_max_is_one() {
    let s = vec![obs("c", 25, 2)];
    assert_eq!(value(current_popularity(&s, 0)), 1.0);
}

#[test]
fn recency_boundaries() {
    let now: i64 = 1_700_000_000;
    assert_eq!(value(recency_popularity(now - ONE_MONTH_SECS - 1, now)), 0.0);
    assert_eq!(value(recency_popularity(now - ONE_MONTH_SECS, now)), 0.0);
    assert_eq!(value(recency_popularity(now, now)), 1.0);
    let mid = recency_popularity(now - 100, now);
    assert!(value(mid) > 0.0 && value(mid) < 1.0);
    assert_eq!(mid, Ratio { num: ONE_MONTH_SECS as i128 - 100, den: ONE_MONTH_SECS as i128 });
}

#[test]
fn default_weights() {
    let w = Weights::default();
    assert_eq!(w.historical_subscribers, 700_000);
    assert_eq!(w.historical_views, 10_000);
    assert_eq!(w.current_subscribers, 80_000);
    assert_eq!(w.current_views, 10_000);
    assert_eq!(w.recency, 200_000);
}

#[test]
fn calculate_exact_score() {
    let now: i64 = 1_700_000_000;
    let subs = vec![obs("a", 10, 20240101), obs("a", 11, 20240102), obs("a", 10, 20240103)];
    let views = vec![];
    let r = calculate(&subs, &views, 100, 0, now, now, &Weights::default());
    // standing 0.9 * 0.08 + recency 1.0 * 0.2, in millionths
    assert_eq!(r, Ok(272_000));
}

#[test]
fn calculate_with_negative_momentum() {
    let now: i64 = 1_700_000_000;
    let subs = vec![obs("b", 1000, 1), obs("b", 1100, 2), obs("b", 30, 3)];
    let views = vec![obs("b", 50, 1), obs("b", 100, 2)];
    let w = Weights { historical_subscribers: 700_000, historical_views: 0, current_subscribers: 0, current_views: 0, recency: 0 };
    // -970 / 1070 * 700000 = -634579.4..., rounded toward zero
    assert_eq!(calculate(&subs, &views, 2000, 100, now, now, &w), Ok(-634_579));
}

#[test]
fn zero_weight_removes_its_sub_score() {
    let now: i64 = 1_700_000_000;
    let subs = vec![obs("a", 10, 1), obs("a", 20, 2)];
    let views = vec![obs("a", 300, 1), obs("a", 100, 2)];
    let full = Weights::default();
    let total = calculate(&subs, &views, 40, 1000, now - 1000, now, &full).unwrap();
    let no_recency = Weights { recency: 0, ..full };
    let without = calculate(&subs, &views, 40, 1000, now - 1000, now, &no_recency).unwrap();
    let term = 200_000i128 * (ONE_MONTH_SECS as i128 - 1000) / ONE_MONTH_SECS as i128;
    assert_eq!((total - without) as i128, term);
    let no_momentum = Weights { historical_subscribers: 0, ..full };
    let without = calculate(&subs, &views, 40, 1000, now - 1000, now, &no_momentum).unwrap();
    assert_eq!(total - without, 700_000);
}

#[test]
fn calculate_rejects_negative_global_max() {
    let subs = vec![obs("a", 10, 1)];
    assert_eq!(calculate(&subs, &vec![], -1, 0, 0, 0, &Weights::default()), Err(InvalidInput::NegativeGlobalMax));
    assert_eq!(calculate(&subs, &vec![], 0, -5, 0, 0, &Weights::default()), Err(InvalidInput::NegativeGlobalMax));
}

#[test]
fn calculate_rejects_mixed_channels() {
    let subs = vec![obs("a", 10, 1), obs("a", 11, 2)];
    let views = vec![obs("b", 10, 1)];
    assert_eq!(calculate(&subs, &views, 10, 10, 0, 0, &Weights::default()), Err(InvalidInput::MixedChannels));
    let mixed = vec![obs("a", 10, 1), obs("b", 11, 2)];
    assert_eq!(calculate(&mixed, &vec![], 10, 10, 0, 0, &Weights::default()), Err(InvalidInput::MixedChannels));
}

#[test]
fn calculate_rejects_negative_value() {
    let views = vec![obs("a", -3, 1)];
    assert_eq!(calculate(&vec![], &views, 10, 10, 0, 0, &Weights::default()), Err(InvalidInput::NegativeValue));
}

#[test]
fn calculate_rejects_malformed_timestamp() {
    let subs = vec![obs("a", 3, 20240101), obs("a", 4, 0)];
    assert_eq!(calculate(&subs, &vec![], 10, 10, 0, 0, &Weights::default()), Err(InvalidInput::MalformedTimestamp));
}

#[test]
fn calculate_accepts_empty_series() {
    let now: i64 = 1_700_000_000;
    let w = Weights::default();
    assert_eq!(calculate(&vec![], &vec![], 0, 0, now - ONE_MONTH_SECS - 1, now, &w), Ok(0));
}
