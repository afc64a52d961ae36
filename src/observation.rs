use vstd::prelude::*;

verus! {

/// One sample of one metric for one channel.
///
/// `timestamp` is a day encoded as `YYYYMMDD`; it is only compared, never
/// used in calendar arithmetic. `value` is a count and is never negative in
/// valid input.
#[derive(Clone, Debug)]
pub struct Observation {
    pub channel_id: String,
    pub value: i64,
    pub timestamp: i32,
}

/// The observation that a stored record stands for, if it has a usable date:
/// a missing value counts as `0`, a missing or non-positive date drops the
/// record, and so does a negative count.
pub open spec fn record_observation(channel_id: Seq<char>, value: Option<i64>, date: Option<i32>) -> Option<(Seq<char>, i64, i32)> {
    let v = match value {
        Some(v) => v,
        None => 0,
    };
    match date {
        Some(d) => if d > 0 && v >= 0 {
            Some((channel_id, v, d))
        } else {
            None
        },
        None => None,
    }
}

impl Observation {
    /// Builds an observation from the fields of a stored record.
    pub fn from_record(channel_id: String, value: Option<i64>, date: Option<i32>) -> (r: Option<
        Observation,
    >)
        ensures
            record_observation(channel_id@, value, date) matches Some(t) ==> r matches Some(o) && (
            o.channel_id@, o.value, o.timestamp) == t,
            record_observation(channel_id@, value, date) is None ==> r is None,
    {
        let v: i64 = match value {
            Some(v) => v,
            None => 0,
        };
        match date {
            Some(d) => {
                if d > 0 && v >= 0 {
                    Some(Observation { channel_id, value: v, timestamp: d })
                } else {
                    None
                }
            },
            None => None,
        }
    }
}

/// Whether `o` belongs to the channel `id`.
pub open spec fn of_channel(o: Observation, id: Seq<char>) -> bool {
    o.channel_id@ == id
}

/// The observations of `all` that belong to channel `channel_id`, in their
/// input order.
pub fn observations_for(all: &Vec<Observation>, channel_id: &String) -> (r: Vec<Observation>)
    ensures
        r@ == all@.filter(|o: Observation| of_channel(o, channel_id@)),
{
    let ghost pred = |o: Observation| of_channel(o, channel_id@);
    let mut r: Vec<Observation> = Vec::new();
    let mut i: usize = 0;
    while i < all.len()
        invariant
            i <= all.len(),
            r@ == all@.take(i as int).filter(pred),
            pred == (|o: Observation| of_channel(o, channel_id@)),
        decreases all.len() - i,
    {
        let o = &all[i];
        proof {
            assert(all@.take(i as int + 1).drop_last() =~= all@.take(i as int));
        }
        let keep = o.channel_id == *channel_id;
        if keep {
            let copy = Observation {
                channel_id: o.channel_id.clone(),
                value: o.value,
                timestamp: o.timestamp,
            };
            assert(copy == all@[i as int]);
            r.push(copy);
        }
        proof {
            reveal(Seq::filter);
            assert(all@.take(i as int + 1).last() == all@[i as int]);
            assert(all@.take(i as int + 1).filter(pred) == {
                let sub = all@.take(i as int + 1).drop_last().filter(pred);
                if pred(all@[i as int]) { sub.push(all@[i as int]) } else { sub }
            });
        }
        i = i + 1;
    }
    proof {
        assert(all@.take(all.len() as int) =~= all@);
    }
    r
}

} // verus!
