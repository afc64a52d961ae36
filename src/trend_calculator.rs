use crate::observation::Observation;
use crate::ratio::Ratio;
use crate::series::{
    final_index, first_index, latest_index, latest_position, max_value, min_value, timestamp_order,
    value_range,
};
use vstd::arithmetic::div_mod::{lemma_div_by_multiple, lemma_div_is_ordered, lemma_div_pos_is_pos};
use vstd::prelude::*;

verus! {

/// The length of the recency window: the average number of seconds in a
/// calendar month.
pub const ONE_MONTH_SECS: i64 = 2629746;

/// The denominator of a normalization over the window `[min, max]`; a window
/// of one point is given the denominator `1`.
pub open spec fn norm_den(min: int, max: int) -> int {
    if max > min {
        max - min
    } else {
        1
    }
}

/// The numerator of `clamp((v - min) / norm_den(min, max), 0, 1)` over the
/// denominator `norm_den(min, max)`.
pub open spec fn norm_num(v: int, min: int, max: int) -> int {
    let d = norm_den(min, max);
    if v - min <= 0 {
        0
    } else if v - min >= d {
        d
    } else {
        v - min
    }
}

/// `v` placed in the window `[min, max]`, clamped to `[0, 1]`.
pub open spec fn normalized(v: int, min: int, max: int) -> Ratio {
    Ratio { num: norm_num(v, min, max) as i128, den: norm_den(min, max) as i128 }
}

/// Places `value` in the window `[min, max]`: `0` at or below `min`, `1` at or
/// above `max`, linear in between. The window is one of counts.
pub fn normalize(value: i64, min: i64, max: i64) -> (r: Ratio)
    requires
        0 <= min <= max,
    ensures
        r == normalized(value as int, min as int, max as int),
        r.bounded(),
{
    let d: i128 = if max > min {
        max as i128 - min as i128
    } else {
        1
    };
    let offset: i128 = value as i128 - min as i128;
    let num: i128 = if offset <= 0 {
        0
    } else if offset >= d {
        d
    } else {
        offset
    };
    Ratio { num, den: d }
}

/// Whether no value of `s` is negative.
pub open spec fn counts(s: Seq<Observation>) -> bool {
    forall|i: int| 0 <= i < s.len() ==> #[trigger] s[i].value >= 0
}

/// Historical momentum: over the series in stable ascending timestamp order,
/// the sum of the changes of the normalized value between neighbours, which
/// comes to the normalized last value less the normalized first one. The
/// window is the series' own smallest and largest value. Fewer than two
/// observations carry no momentum.
pub open spec fn historical(s: Seq<Observation>) -> Ratio {
    if s.len() < 2 {
        Ratio::zero()
    } else {
        let lo = min_value(s);
        let hi = max_value(s);
        Ratio {
            num: (norm_num(s[final_index(s)].value as int, lo, hi) - norm_num(
                s[first_index(s)].value as int,
                lo,
                hi,
            )) as i128,
            den: norm_den(lo, hi) as i128,
        }
    }
}

/// Current standing: one less the latest value's share of `global_max`,
/// clamped to `[0, 1]`; an empty series stands at `0`, and a non-positive
/// `global_max` gives every value the share `0`.
pub open spec fn current(s: Seq<Observation>, global_max: int) -> Ratio {
    if s.len() == 0 {
        Ratio::zero()
    } else if global_max <= 0 {
        Ratio::one()
    } else {
        let v = s[latest_index(s)].value as int;
        let share = if v <= 0 {
            0
        } else if v >= global_max {
            global_max
        } else {
            v
        };
        Ratio { num: (global_max - share) as i128, den: global_max as i128 }
    }
}

/// Recency: where `last_active_at` falls in the month that ends at `now`,
/// clamped to `[0, 1]`.
pub open spec fn recency(last_active_at: int, now: int) -> Ratio {
    let m = ONE_MONTH_SECS as int;
    let offset = last_active_at - (now - m);
    let num = if offset <= 0 {
        0
    } else if offset >= m {
        m
    } else {
        offset
    };
    Ratio { num: num as i128, den: m as i128 }
}

proof fn lemma_range_of_counts(s: Seq<Observation>)
    requires
        s.len() > 0,
        counts(s),
    ensures
        0 <= min_value(s) <= max_value(s) <= i64::MAX,
    decreases s.len(),
{
    if s.len() > 1 {
        lemma_range_of_counts(s.drop_last());
    }
}

/// Historical momentum of one metric's series, which may come in any order.
pub fn historical_popularity(series: &Vec<Observation>) -> (r: Ratio)
    requires
        counts(series@),
    ensures
        r == historical(series@),
        r.bounded(),
{
    let n = series.len();
    if n < 2 {
        return Ratio { num: 0, den: 1 };
    }
    let (lo, hi) = value_range(series);
    proof {
        lemma_range_of_counts(series@);
    }
    let order = timestamp_order(series);
    let first = normalize(series[order[0]].value, lo, hi);
    let mut prev = first;
    let mut total: i128 = 0;
    let mut k: usize = 1;
    while k < n
        invariant
            n == series.len(),
            1 <= k <= n,
            order.len() == n,
            forall|a: int| 0 <= a < order.len() ==> #[trigger] order@[a] < series.len(),
            0 <= lo <= hi,
            first == normalized(series@[order@[0] as int].value as int, lo as int, hi as int),
            prev == normalized(series@[order@[k - 1] as int].value as int, lo as int, hi as int),
            total == prev.num - first.num,
        decreases n - k,
    {
        let next = normalize(series[order[k]].value, lo, hi);
        total = total + (next.num - prev.num);
        prev = next;
        k = k + 1;
    }
    Ratio { num: total, den: first.den }
}

/// Current standing of one metric's series against the largest value of that
/// metric over all channels.
pub fn current_popularity(series: &Vec<Observation>, global_max: i64) -> (r: Ratio)
    ensures
        r == current(series@, global_max as int),
        r.bounded(),
{
    if series.len() == 0 {
        return Ratio { num: 0, den: 1 };
    }
    if global_max <= 0 {
        return Ratio { num: 1, den: 1 };
    }
    let v = series[latest_position(series)].value;
    let share: i64 = if v <= 0 {
        0
    } else if v >= global_max {
        global_max
    } else {
        v
    };
    Ratio { num: (global_max - share) as i128, den: global_max as i128 }
}

/// Recency of the last activity at `last_active_at`, as seen at `now` (both
/// in seconds since the Unix epoch).
pub fn recency_popularity(last_active_at: i64, now: i64) -> (r: Ratio)
    ensures
        r == recency(last_active_at as int, now as int),
        r.bounded(),
{
    let m: i128 = ONE_MONTH_SECS as i128;
    let offset: i128 = last_active_at as i128 - (now as i128 - m);
    let num: i128 = if offset <= 0 {
        0
    } else if offset >= m {
        m
    } else {
        offset
    };
    Ratio { num, den: m }
}

/// How much each sub-score counts towards the trend score, in millionths.
#[derive(Clone, Copy, Debug, PartialEq, Eq, Structural)]
pub struct Weights {
    pub historical_subscribers: u32,
    pub historical_views: u32,
    pub current_subscribers: u32,
    pub current_views: u32,
    pub recency: u32,
}

impl Default for Weights {
    /// Momentum of subscribers 0.7, of views 0.01; standing of subscribers
    /// 0.08, of views 0.01; recency 0.2.
    fn default() -> (r: Weights)
        ensures
            r == (Weights {
                historical_subscribers: 700_000,
                historical_views: 10_000,
                current_subscribers: 80_000,
                current_views: 10_000,
                recency: 200_000,
            }),
    {
        Weights {
            historical_subscribers: 700_000,
            historical_views: 10_000,
            current_subscribers: 80_000,
            current_views: 10_000,
            recency: 200_000,
        }
    }
}

/// Why the inputs of a scoring call were refused.
#[derive(Clone, Copy, Debug, PartialEq, Eq, Structural)]
pub enum InvalidInput {
    /// A global maximum is negative.
    NegativeGlobalMax,
    /// The observations do not all belong to one channel.
    MixedChannels,
    /// An observed count is negative.
    NegativeValue,
    /// An observation's date is not a positive day number.
    MalformedTimestamp,
}

/// `a / d` rounded toward zero, for `d > 0`.
pub open spec fn toward_zero(a: int, d: int) -> int {
    if a >= 0 {
        a / d
    } else {
        -((-a) / d)
    }
}

/// The contribution of sub-score `r` under weight `w`, in millionths,
/// rounded toward zero.
pub open spec fn weighted(w: int, r: Ratio) -> int {
    toward_zero(w * r.num, r.den as int)
}

/// The weighted trend score, in millionths.
pub open spec fn trend_score(
    subscribers: Seq<Observation>,
    views: Seq<Observation>,
    max_subscribers: int,
    max_views: int,
    last_active_at: int,
    now: int,
    w: Weights,
) -> int {
    weighted(w.historical_subscribers as int, historical(subscribers)) + weighted(
        w.historical_views as int,
        historical(views),
    ) + weighted(w.current_subscribers as int, current(subscribers, max_subscribers)) + weighted(
        w.current_views as int,
        current(views, max_views),
    ) + weighted(w.recency as int, recency(last_active_at, now))
}

/// Whether all observations of `s` belong to one channel.
pub open spec fn one_channel(s: Seq<Observation>) -> bool {
    forall|i: int, j: int|
        0 <= i < s.len() && 0 <= j < s.len() ==> #[trigger] s[i].channel_id@
            == #[trigger] s[j].channel_id@
}

/// Whether every observation of `s` carries a positive day number.
pub open spec fn dated(s: Seq<Observation>) -> bool {
    forall|i: int| 0 <= i < s.len() ==> #[trigger] s[i].timestamp > 0
}

/// The first reason, if any, to refuse a scoring call.
pub open spec fn input_error(
    subscribers: Seq<Observation>,
    views: Seq<Observation>,
    max_subscribers: int,
    max_views: int,
) -> Option<InvalidInput> {
    if max_subscribers < 0 || max_views < 0 {
        Some(InvalidInput::NegativeGlobalMax)
    } else if !one_channel(subscribers + views) {
        Some(InvalidInput::MixedChannels)
    } else if !(counts(subscribers) && counts(views)) {
        Some(InvalidInput::NegativeValue)
    } else if !(dated(subscribers) && dated(views)) {
        Some(InvalidInput::MalformedTimestamp)
    } else {
        None
    }
}

/// The contribution of sub-score `r` under weight `w`.
fn weighted_term(w: u32, r: Ratio) -> (t: i64)
    requires
        r.bounded(),
    ensures
        t == weighted(w as int, r),
        -(w as int) <= t <= w,
{
    proof {
        assert((w as int) * (r.num as int) <= (w as int) * (r.den as int)) by (nonlinear_arith)
            requires
                r.num <= r.den,
        ;
        assert(-((w as int) * (r.den as int)) <= (w as int) * (r.num as int)) by (nonlinear_arith)
            requires
                -r.den <= r.num,
        ;
        assert((w as int) * (r.den as int) <= 0x1_0000_0000 * 0x8000_0000_0000_0000) by (nonlinear_arith)
            requires
                0 < r.den <= i64::MAX,
                w <= u32::MAX,
        ;
        lemma_div_by_multiple(w as int, r.den as int);
    }
    let p: i128 = w as i128 * r.num;
    if p >= 0 {
        proof {
            lemma_div_is_ordered(p as int, (w as int) * (r.den as int), r.den as int);
            lemma_div_pos_is_pos(p as int, r.den as int);
        }
        (p / r.den) as i64
    } else {
        proof {
            lemma_div_is_ordered(-p, (w as int) * (r.den as int), r.den as int);
            lemma_div_pos_is_pos(-p, r.den as int);
        }
        -(((-p) / r.den) as i64)
    }
}

/// Whether every observation of `series` belongs to channel `id`.
fn all_of_channel(series: &Vec<Observation>, id: &String) -> (r: bool)
    ensures
        r == forall|i: int| 0 <= i < series.len() ==> #[trigger] series@[i].channel_id@ == id@,
{
    let mut i: usize = 0;
    while i < series.len()
        invariant
            i <= series.len(),
            forall|k: int| 0 <= k < i ==> #[trigger] series@[k].channel_id@ == id@,
        decreases series.len() - i,
    {
        if series[i].channel_id != *id {
            return false;
        }
        i = i + 1;
    }
    true
}

/// Whether no observed count of `series` is negative.
fn all_counts(series: &Vec<Observation>) -> (r: bool)
    ensures
        r == counts(series@),
{
    let mut i: usize = 0;
    while i < series.len()
        invariant
            i <= series.len(),
            counts(series@.take(i as int)),
        decreases series.len() - i,
    {
        if series[i].value < 0 {
            return false;
        }
        i = i + 1;
    }
    proof {
        assert(series@.take(series.len() as int) =~= series@);
    }
    true
}

/// Whether every observation of `series` carries a positive day number.
fn all_dated(series: &Vec<Observation>) -> (r: bool)
    ensures
        r == dated(series@),
{
    let mut i: usize = 0;
    while i < series.len()
        invariant
            i <= series.len(),
            dated(series@.take(i as int)),
        decreases series.len() - i,
    {
        if series[i].timestamp <= 0 {
            return false;
        }
        i = i + 1;
    }
    proof {
        assert(series@.take(series.len() as int) =~= series@);
    }
    true
}

/// Whether the observations of both series belong to one channel.
fn same_channel(subscribers: &Vec<Observation>, views: &Vec<Observation>) -> (r: bool)
    ensures
        r == one_channel(subscribers@ + views@),
{
    let ghost all = subscribers@ + views@;
    let n1 = subscribers.len();
    let id: &String = if n1 > 0 {
        &subscribers[0].channel_id
    } else if views.len() > 0 {
        &views[0].channel_id
    } else {
        return true;
    };
    proof {
        assert(all.len() > 0 && all[0].channel_id@ == id@);
    }
    let r = all_of_channel(subscribers, id) && all_of_channel(views, id);
    proof {
        if r {
            assert forall|i: int, j: int|
                0 <= i < all.len() && 0 <= j < all.len() implies #[trigger] all[i].channel_id@
                == #[trigger] all[j].channel_id@ by {
                if i >= n1 {
                    assert(all[i] == views@[i - n1]);
                }
                if j >= n1 {
                    assert(all[j] == views@[j - n1]);
                }
            }
        } else {
            assert(all[0].channel_id@ == id@);
            if !all_of_channel_spec(subscribers@, id@) {
                let i = choose|i: int| 0 <= i < subscribers.len() && !(#[trigger] subscribers@[i].channel_id@ == id@);
                assert(all[i] == subscribers@[i]);
                assert(all[i].channel_id@ != all[0].channel_id@);
            } else {
                let i = choose|i: int| 0 <= i < views.len() && !(#[trigger] views@[i].channel_id@ == id@);
                assert(all[n1 + i] == views@[i]);
                assert(all[n1 + i].channel_id@ != all[0].channel_id@);
            }
        }
    }
    r
}

spec fn all_of_channel_spec(s: Seq<Observation>, id: Seq<char>) -> bool {
    forall|i: int| 0 <= i < s.len() ==> #[trigger] s[i].channel_id@ == id
}

/// The trend score of one channel, in millionths: the weighted sum of the
/// momentum of its subscribers and of its views, their standing against the
/// global maxima, and the recency of its last activity as seen at `now`.
/// Refuses a negative global maximum, observations of more than one channel,
/// a negative count, and a non-positive date.
pub fn calculate(
    subscribers: &Vec<Observation>,
    views: &Vec<Observation>,
    max_subscribers: i64,
    max_views: i64,
    last_active_at: i64,
    now: i64,
    weights: &Weights,
) -> (r: Result<i64, InvalidInput>)
    ensures
        r is Ok <==> input_error(subscribers@, views@, max_subscribers as int, max_views as int) is None,
        r matches Ok(score) ==> score == trend_score(
            subscribers@,
            views@,
            max_subscribers as int,
            max_views as int,
            last_active_at as int,
            now as int,
            *weights,
        ),
        r matches Err(e) ==> input_error(subscribers@, views@, max_subscribers as int, max_views as int)
            == Some(e),
{
    if max_subscribers < 0 || max_views < 0 {
        return Err(InvalidInput::NegativeGlobalMax);
    }
    if !same_channel(subscribers, views) {
        return Err(InvalidInput::MixedChannels);
    }
    if !(all_counts(subscribers) && all_counts(views)) {
        return Err(InvalidInput::NegativeValue);
    }
    if !(all_dated(subscribers) && all_dated(views)) {
        return Err(InvalidInput::MalformedTimestamp);
    }
    let hs = weighted_term(weights.historical_subscribers, historical_popularity(subscribers));
    let hv = weighted_term(weights.historical_views, historical_popularity(views));
    let cs = weighted_term(
        weights.current_subscribers,
        current_popularity(subscribers, max_subscribers),
    );
    let cv = weighted_term(weights.current_views, current_popularity(views, max_views));
    let rc = weighted_term(weights.recency, recency_popularity(last_active_at, now));
    Ok(hs + hv + cs + cv + rc)
}

} // verus!
