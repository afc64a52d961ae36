use crate::observation::Observation;
use crate::ratio::{ratio_lt, Ratio};
use crate::series::{final_index, first_index, latest_index, max_value, min_value, sorts_before};
use crate::trend_calculator::{
    counts, current, historical, norm_den, norm_num, recency, trend_score, weighted, Weights,
    ONE_MONTH_SECS,
};
use vstd::prelude::*;

verus! {

/// Normalization over a proper window `min < max` is `0` at or below `min`,
/// `1` at or above `max`, and one half at the midpoint.
pub proof fn normalize_clamps(v: int, min: int, max: int)
    requires
        min < max,
    ensures
        v <= min ==> norm_num(v, min, max) == 0,
        v >= max ==> norm_num(v, min, max) == norm_den(min, max),
        2 * v == min + max ==> 2 * norm_num(v, min, max) == norm_den(min, max),
{
}

/// Current standing is `0` for an empty series, `0` when the latest value
/// reaches a positive global maximum, and `1` when the latest value is `0`.
pub proof fn current_standing_edges(s: Seq<Observation>, global_max: int)
    ensures
        s.len() == 0 ==> current(s, global_max) == Ratio::zero(),
        s.len() > 0 && global_max > 0 && s[latest_index(s)].value == global_max ==> current(
            s,
            global_max,
        ).num == 0,
        s.len() > 0 && s[latest_index(s)].value == 0 ==> current(s, global_max).num == current(
            s,
            global_max,
        ).den,
{
}

/// Recency is `0` just before the month that ends at `now`, `1` at `now`, and
/// strictly between the two a hundred seconds before `now`.
pub proof fn recency_window(now: int)
    ensures
        recency(now - ONE_MONTH_SECS - 1, now).num == 0,
        recency(now, now).num == recency(now, now).den,
        0 < recency(now - 100, now).num < recency(now - 100, now).den,
{
}

proof fn lemma_values_in_range(s: Seq<Observation>)
    requires
        s.len() > 0,
    ensures
        i64::MIN <= min_value(s) <= max_value(s) <= i64::MAX,
    decreases s.len(),
{
    if s.len() > 1 {
        lemma_values_in_range(s.drop_last());
    }
}

proof fn lemma_historical_den_positive(s: Seq<Observation>)
    ensures
        historical(s).den > 0,
{
    if s.len() >= 2 {
        lemma_values_in_range(s);
    }
}

/// Setting one weight to `0` takes exactly that sub-score's contribution out
/// of the trend score and leaves the rest as it was.
pub proof fn zero_weight_removes_term(
    subscribers: Seq<Observation>,
    views: Seq<Observation>,
    max_subscribers: i64,
    max_views: i64,
    last_active_at: i64,
    now: i64,
    w: Weights,
)
    ensures
        trend_score(subscribers, views, max_subscribers as int, max_views as int, last_active_at as int, now as int, w)
            - trend_score(
            subscribers,
            views,
            max_subscribers as int,
            max_views as int,
            last_active_at as int,
            now as int,
            Weights { historical_subscribers: 0, ..w },
        ) == weighted(w.historical_subscribers as int, historical(subscribers)),
        trend_score(subscribers, views, max_subscribers as int, max_views as int, last_active_at as int, now as int, w)
            - trend_score(
            subscribers,
            views,
            max_subscribers as int,
            max_views as int,
            last_active_at as int,
            now as int,
            Weights { historical_views: 0, ..w },
        ) == weighted(w.historical_views as int, historical(views)),
        trend_score(subscribers, views, max_subscribers as int, max_views as int, last_active_at as int, now as int, w)
            - trend_score(
            subscribers,
            views,
            max_subscribers as int,
            max_views as int,
            last_active_at as int,
            now as int,
            Weights { current_subscribers: 0, ..w },
        ) == weighted(w.current_subscribers as int, current(subscribers, max_subscribers as int)),
        trend_score(subscribers, views, max_subscribers as int, max_views as int, last_active_at as int, now as int, w)
            - trend_score(
            subscribers,
            views,
            max_subscribers as int,
            max_views as int,
            last_active_at as int,
            now as int,
            Weights { current_views: 0, ..w },
        ) == weighted(w.current_views as int, current(views, max_views as int)),
        trend_score(subscribers, views, max_subscribers as int, max_views as int, last_active_at as int, now as int, w)
            - trend_score(
            subscribers,
            views,
            max_subscribers as int,
            max_views as int,
            last_active_at as int,
            now as int,
            Weights { recency: 0, ..w },
        ) == weighted(w.recency as int, recency(last_active_at as int, now as int)),
{
    lemma_historical_den_positive(subscribers);
    lemma_historical_den_positive(views);
    assert(weighted(0, historical(subscribers)) == 0);
    assert(weighted(0, historical(views)) == 0);
    assert(weighted(0, current(subscribers, max_subscribers as int)) == 0);
    assert(weighted(0, current(views, max_views as int)) == 0);
    assert(weighted(0, recency(last_active_at as int, now as int)) == 0);
}

proof fn lemma_three_in_order(s: Seq<Observation>)
    requires
        s.len() == 3,
        s[0].timestamp < s[1].timestamp < s[2].timestamp,
    ensures
        first_index(s) == 0,
        final_index(s) == 2,
        min_value(s) == if s[2].value < s[0].value && s[2].value < s[1].value {
            s[2].value as int
        } else if s[1].value < s[0].value {
            s[1].value as int
        } else {
            s[0].value as int
        },
        max_value(s) == if s[2].value > s[0].value && s[2].value > s[1].value {
            s[2].value as int
        } else if s[1].value > s[0].value {
            s[1].value as int
        } else {
            s[0].value as int
        },
{
    let two = s.drop_last();
    let one = two.drop_last();
    assert(two.len() == 2 && two[0] == s[0] && two[1] == s[1]);
    assert(one.len() == 1 && one[0] == s[0]);
    assert(first_index(one) == 0);
    assert(final_index(one) == 0);
    assert(first_index(two) == 0);
    assert(final_index(two) == 1);
    assert(min_value(one) == s[0].value as int);
    assert(max_value(one) == s[0].value as int);
    assert(two.last() == s[1] && s.last() == s[2]);
    assert(min_value(two) == if s[1].value < s[0].value { s[1].value as int } else { s[0].value as int });
    assert(max_value(two) == if s[1].value > s[0].value { s[1].value as int } else { s[0].value as int });
}

/// Over three observations in ascending time, a strictly rising series has
/// more momentum than one that peaks in the middle and falls back: the rising
/// one scores `1`, the peaked one less.
pub proof fn rising_outranks_peak(rising: Seq<Observation>, peaked: Seq<Observation>)
    requires
        rising.len() == 3,
        peaked.len() == 3,
        counts(rising),
        counts(peaked),
        rising[0].timestamp < rising[1].timestamp < rising[2].timestamp,
        peaked[0].timestamp < peaked[1].timestamp < peaked[2].timestamp,
        rising[0].value < rising[1].value < rising[2].value,
        peaked[0].value < peaked[1].value,
        peaked[2].value < peaked[1].value,
    ensures
        historical(rising).num == historical(rising).den,
        historical(peaked).num < historical(peaked).den,
        ratio_lt(historical(peaked), historical(rising)),
{
    lemma_three_in_order(rising);
    lemma_three_in_order(peaked);
    let a = historical(rising);
    let b = historical(peaked);
    assert(a.num == a.den && a.den > 0);
    assert(b.num < b.den && b.den > 0);
    assert(b.num * a.den < a.num * b.den) by (nonlinear_arith)
        requires
            a.num == a.den,
            a.den > 0,
            b.num < b.den,
    ;
}

/// Whether `order` lists every position of `s` once, in stable ascending
/// timestamp order.
pub open spec fn stable_timestamp_order(s: Seq<Observation>, order: Seq<int>) -> bool {
    &&& order.len() == s.len()
    &&& forall|a: int| 0 <= a < order.len() ==> 0 <= #[trigger] order[a] < s.len()
    &&& forall|j: int| 0 <= j < s.len() ==> #[trigger] order.contains(j)
    &&& forall|a: int, b: int|
        0 <= a < b < order.len() ==> sorts_before(s, #[trigger] order[a], #[trigger] order[b])
}

/// The sum, over neighbours in `order`, of the change of the normalized value
/// in the window `[lo, hi]`.
pub open spec fn change_sum(s: Seq<Observation>, order: Seq<int>, lo: int, hi: int) -> int
    decreases order.len(),
{
    if order.len() <= 1 {
        0
    } else {
        change_sum(s, order.drop_last(), lo, hi) + norm_num(s[order.last()].value as int, lo, hi)
            - norm_num(s[order[order.len() - 2]].value as int, lo, hi)
    }
}

proof fn lemma_changes_telescope(s: Seq<Observation>, order: Seq<int>, lo: int, hi: int)
    requires
        order.len() >= 1,
    ensures
        change_sum(s, order, lo, hi) == norm_num(s[order.last()].value as int, lo, hi) - norm_num(
            s[order[0]].value as int,
            lo,
            hi,
        ),
    decreases order.len(),
{
    if order.len() > 1 {
        let t = order.drop_last();
        lemma_changes_telescope(s, t, lo, hi);
        assert(t.last() == order[order.len() - 2]);
        assert(t[0] == order[0]);
    }
}

proof fn lemma_first_index_sorts_first(s: Seq<Observation>)
    requires
        s.len() > 0,
    ensures
        0 <= first_index(s) < s.len(),
        forall|j: int|
            0 <= j < s.len() && j != first_index(s) ==> sorts_before(s, first_index(s), j),
    decreases s.len(),
{
    if s.len() > 1 {
        let t = s.drop_last();
        lemma_first_index_sorts_first(t);
        let k = first_index(t);
        let f = first_index(s);
        assert(t[k] == s[k]);
        assert forall|j: int| 0 <= j < s.len() && j != f implies sorts_before(s, f, j) by {
            if j < s.len() - 1 {
                assert(t[j] == s[j]);
                if j != k {
                    assert(sorts_before(t, k, j));
                }
            }
        }
    }
}

proof fn lemma_final_index_sorts_last(s: Seq<Observation>)
    requires
        s.len() > 0,
    ensures
        0 <= final_index(s) < s.len(),
        forall|j: int|
            0 <= j < s.len() && j != final_index(s) ==> sorts_before(s, j, final_index(s)),
    decreases s.len(),
{
    if s.len() > 1 {
        let t = s.drop_last();
        lemma_final_index_sorts_last(t);
        let k = final_index(t);
        let l = final_index(s);
        assert(t[k] == s[k]);
        assert forall|j: int| 0 <= j < s.len() && j != l implies sorts_before(s, j, l) by {
            if j < s.len() - 1 {
                assert(t[j] == s[j]);
                if j != k {
                    assert(sorts_before(t, j, k));
                }
            }
        }
    }
}

/// Historical momentum is the sum, over neighbours in stable ascending
/// timestamp order, of the changes of the normalized value: the changes
/// telescope to the last normalized value less the first.
pub proof fn momentum_is_sum_of_changes(s: Seq<Observation>, order: Seq<int>)
    requires
        s.len() >= 2,
        stable_timestamp_order(s, order),
    ensures
        historical(s).num == change_sum(s, order, min_value(s), max_value(s)),
        historical(s).den == norm_den(min_value(s), max_value(s)),
{
    let n = s.len();
    lemma_values_in_range(s);
    lemma_changes_telescope(s, order, min_value(s), max_value(s));
    lemma_first_index_sorts_first(s);
    lemma_final_index_sorts_last(s);
    let f = first_index(s);
    let l = final_index(s);
    assert(order.contains(f));
    assert(order.contains(l));
    let af = choose|a: int| 0 <= a < order.len() && order[a] == f;
    let al = choose|a: int| 0 <= a < order.len() && order[a] == l;
    if af != 0 {
        assert(sorts_before(s, order[0], order[af]));
        assert(sorts_before(s, f, order[0]));
    }
    if al != n - 1 {
        assert(sorts_before(s, order[al], order[n - 1]));
        assert(sorts_before(s, order[n - 1], l));
    }
    assert(order[0] == f);
    assert(order.last() == l);
}

} // verus!
