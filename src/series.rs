use crate::observation::Observation;
use vstd::prelude::*;

verus! {

/// Position `a` comes before position `b` in a stable ascending sort by
/// timestamp: an earlier timestamp first, and equal timestamps in input order.
pub open spec fn sorts_before(s: Seq<Observation>, a: int, b: int) -> bool {
    s[a].timestamp < s[b].timestamp || (s[a].timestamp == s[b].timestamp && a < b)
}

/// The position that a stable ascending sort by timestamp puts first: the
/// first of the observations with the smallest timestamp.
pub open spec fn first_index(s: Seq<Observation>) -> int
    decreases s.len(),
{
    if s.len() <= 1 {
        0
    } else {
        let k = first_index(s.drop_last());
        if s.last().timestamp < s[k].timestamp {
            s.len() - 1
        } else {
            k
        }
    }
}

/// The position that a stable ascending sort by timestamp puts last: the
/// last of the observations with the largest timestamp.
pub open spec fn final_index(s: Seq<Observation>) -> int
    decreases s.len(),
{
    if s.len() <= 1 {
        0
    } else {
        let k = final_index(s.drop_last());
        if s.last().timestamp >= s[k].timestamp {
            s.len() - 1
        } else {
            k
        }
    }
}

/// The position that a stable descending sort by timestamp puts first: the
/// first of the observations with the largest timestamp.
pub open spec fn latest_index(s: Seq<Observation>) -> int
    decreases s.len(),
{
    if s.len() <= 1 {
        0
    } else {
        let k = latest_index(s.drop_last());
        if s.last().timestamp > s[k].timestamp {
            s.len() - 1
        } else {
            k
        }
    }
}

/// The smallest value of a non-empty series.
pub open spec fn min_value(s: Seq<Observation>) -> int
    decreases s.len(),
{
    if s.len() <= 1 {
        s[0].value as int
    } else {
        let m = min_value(s.drop_last());
        if (s.last().value as int) < m {
            s.last().value as int
        } else {
            m
        }
    }
}

/// The largest value of a non-empty series.
pub open spec fn max_value(s: Seq<Observation>) -> int
    decreases s.len(),
{
    if s.len() <= 1 {
        s[0].value as int
    } else {
        let m = max_value(s.drop_last());
        if (s.last().value as int) > m {
            s.last().value as int
        } else {
            m
        }
    }
}

proof fn lemma_take_step(s: Seq<Observation>, i: int)
    requires
        0 <= i < s.len(),
    ensures
        s.take(i + 1).drop_last() =~= s.take(i),
        s.take(i + 1).last() == s[i],
        forall|j: int| 0 <= j <= i ==> #[trigger] s.take(i + 1)[j] == s[j],
{
}

/// The smallest and the largest value of a non-empty series.
pub fn value_range(series: &Vec<Observation>) -> (r: (i64, i64))
    requires
        series.len() > 0,
    ensures
        r.0 as int == min_value(series@),
        r.1 as int == max_value(series@),
{
    let mut lo: i64 = series[0].value;
    let mut hi: i64 = series[0].value;
    let mut i: usize = 1;
    proof {
        assert(series@.take(1).len() == 1);
    }
    while i < series.len()
        invariant
            1 <= i <= series.len(),
            lo as int == min_value(series@.take(i as int)),
            hi as int == max_value(series@.take(i as int)),
        decreases series.len() - i,
    {
        proof {
            lemma_take_step(series@, i as int);
        }
        let v = series[i].value;
        if v < lo {
            lo = v;
        }
        if v > hi {
            hi = v;
        }
        i = i + 1;
    }
    proof {
        assert(series@.take(series.len() as int) =~= series@);
    }
    (lo, hi)
}

/// The position of the latest observation of a non-empty series; of several
/// with the latest timestamp, the first one.
pub fn latest_position(series: &Vec<Observation>) -> (r: usize)
    requires
        series.len() > 0,
    ensures
        r as int == latest_index(series@),
        r < series.len(),
{
    let mut best: usize = 0;
    let mut i: usize = 1;
    while i < series.len()
        invariant
            1 <= i <= series.len(),
            best < i,
            best as int == latest_index(series@.take(i as int)),
        decreases series.len() - i,
    {
        proof {
            lemma_take_step(series@, i as int);
        }
        if series[i].timestamp > series[best].timestamp {
            best = i;
        }
        i = i + 1;
    }
    proof {
        assert(series@.take(series.len() as int) =~= series@);
    }
    best
}

/// The positions of a non-empty series in stable ascending timestamp order.
pub fn timestamp_order(series: &Vec<Observation>) -> (order: Vec<usize>)
    requires
        series.len() > 0,
    ensures
        order.len() == series.len(),
        forall|a: int| 0 <= a < order.len() ==> #[trigger] order@[a] < series.len(),
        forall|a: int, b: int|
            0 <= a < b < order.len() ==> sorts_before(series@, #[trigger] order@[a] as int, #[trigger] order@[b] as int),
        order@[0] as int == first_index(series@),
        order@[order.len() - 1] as int == final_index(series@),
{
    let mut order: Vec<usize> = Vec::new();
    order.push(0);
    let mut i: usize = 1;
    while i < series.len()
        invariant
            1 <= i <= series.len(),
            order.len() == i,
            forall|a: int| 0 <= a < order.len() ==> #[trigger] order@[a] < i,
            forall|a: int, b: int|
                0 <= a < b < order.len() ==> sorts_before(series@, #[trigger] order@[a] as int, #[trigger] order@[b] as int),
            order@[0] as int == first_index(series@.take(i as int)),
            order@[i - 1] as int == final_index(series@.take(i as int)),
        decreases series.len() - i,
    {
        proof {
            lemma_take_step(series@, i as int);
        }
        let ts = series[i].timestamp;
        let mut p: usize = 0;
        while p < order.len() && series[order[p]].timestamp <= ts
            invariant
                1 <= i < series.len(),
                order.len() == i,
                p <= order.len(),
                forall|a: int| 0 <= a < order.len() ==> #[trigger] order@[a] < i,
                forall|a: int| 0 <= a < p ==> sorts_before(series@, #[trigger] order@[a] as int, i as int),
                ts == series@[i as int].timestamp,
            decreases order.len() - p,
        {
            p = p + 1;
        }
        let ghost before = order@;
        proof {
            assert forall|a: int| p <= a < before.len() implies sorts_before(series@, i as int, #[trigger] before[a] as int) by {
                assert(sorts_before(series@, i as int, before[p as int] as int));
                if a > p {
                    assert(sorts_before(series@, before[p as int] as int, before[a] as int));
                }
            }
            before.insert_ensures(p as int, i);
        }
        order.insert(p, i);
        proof {
            assert(order@ == before.insert(p as int, i));
            assert forall|a: int, b: int| 0 <= a < b < order.len() implies sorts_before(series@, #[trigger] order@[a] as int, #[trigger] order@[b] as int) by {
                if b < p {
                } else if b == p {
                } else if a < p {
                    assert(order@[b] == before[b - 1]);
                } else if a == p {
                    assert(order@[b] == before[b - 1]);
                } else {
                    assert(order@[b] == before[b - 1]);
                    assert(order@[a] == before[a - 1]);
                }
            }
            if p == 0 {
                assert(sorts_before(series@, i as int, before[0] as int));
            } else {
                assert(sorts_before(series@, before[0] as int, i as int));
            }
            if p == before.len() {
                assert(sorts_before(series@, before[i - 1] as int, i as int));
            } else {
                assert(sorts_before(series@, i as int, before[i - 1] as int));
                assert(order@[i as int] == before[i - 1]);
            }
        }
        i = i + 1;
    }
    proof {
        assert(series@.take(series.len() as int) =~= series@);
    }
    order
}

} // verus!
