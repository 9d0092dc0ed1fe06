use vstd::prelude::*;
use crate::types::{keyed_by_id, Context, LatestGEData, LatestResponse, Merch};

verus! {

/// Pulls the latest Grand Exchange prices into the items database.
#[derive(Debug)]
pub struct UpdateLatestTask {
    /// Unix time (seconds) at which the task is due.
    pub timer: u64,
}

/// `item` with its Grand Exchange prices and their times taken from `d`.
pub open spec fn with_latest(item: Merch, d: LatestGEData) -> Merch {
    Merch {
        high: d.high,
        high_time: d.highTime,
        low: d.low,
        low_time: d.lowTime,
        ..item
    }
}

/// The database `items` once the prices of `data` are applied: each item whose
/// id has an entry in `data` takes that entry's prices; other items, and the
/// set of ids, stay as they are.
pub open spec fn latest_applied(
    items: Map<u64, Merch>,
    data: Map<u64, LatestGEData>,
) -> Map<u64, Merch> {
    Map::new(
        |k: u64| items.contains_key(k),
        |k: u64|
            if data.contains_key(k) {
                with_latest(items[k], data[k])
            } else {
                items[k]
            },
    )
}

/// Applying latest prices changes only prices: the database holds the same
/// ids, every item keeps its name, id, store value, alchemy prices, limit and
/// membership, and items stay under their own ids.
pub proof fn lemma_latest_keeps_items(items: Map<u64, Merch>, data: Map<u64, LatestGEData>)
    ensures
        latest_applied(items, data).dom() == items.dom(),
        forall|k: u64|
            #[trigger] items.contains_key(k) ==> {
                let a = latest_applied(items, data)[k];
                let b = items[k];
                &&& a.name == b.name
                &&& a.id == b.id
                &&& a.value == b.value
                &&& a.highalch == b.highalch
                &&& a.lowalch == b.lowalch
                &&& a.limit == b.limit
                &&& a.members == b.members
            },
        keyed_by_id(items) ==> keyed_by_id(latest_applied(items, data)),
{
    assert(latest_applied(items, data).dom() =~= items.dom());
}

/// Applying the same prices twice gives what applying them once gives.
pub proof fn lemma_latest_idempotent(items: Map<u64, Merch>, data: Map<u64, LatestGEData>)
    ensures
        latest_applied(latest_applied(items, data), data) == latest_applied(items, data),
{
    assert(latest_applied(latest_applied(items, data), data) =~= latest_applied(items, data));
}

/// After a `/latest` response is applied, every item whose id has an entry
/// carries exactly that entry's prices and times (a missing price in the entry
/// clears the item's price), and keeps every other field; an item without an
/// entry is unchanged.
pub proof fn lemma_latest_sets_prices(items: Map<u64, Merch>, data: Map<u64, LatestGEData>)
    ensures
        forall|k: u64|
            #[trigger] items.contains_key(k) && data.contains_key(k) ==> {
                let a = latest_applied(items, data)[k];
                &&& a.high == data[k].high
                &&& a.high_time == data[k].highTime
                &&& a.low == data[k].low
                &&& a.low_time == data[k].lowTime
                &&& a == Merch {
                    high: data[k].high,
                    high_time: data[k].highTime,
                    low: data[k].low,
                    low_time: data[k].lowTime,
                    ..items[k]
                }
            },
        forall|k: u64|
            #[trigger] items.contains_key(k) && !data.contains_key(k) ==> latest_applied(
                items,
                data,
            )[k] == items[k],
{
}

impl UpdateLatestTask {
    /// The time at which the task is due.
    pub fn timer(&self) -> (r: u64)
        ensures
            r == self.timer,
    {
        self.timer
    }

    /// Applies the prices of a `/latest` response to the database. Returns
    /// the ids of the response that the database does not hold, each once (in
    /// no particular order); their prices are dropped.
    pub fn apply_latest(context: &mut Context, latest: &LatestResponse) -> (unknown: Vec<u64>)
        ensures
            final(context).items@ == latest_applied(old(context).items@, latest.data@),
            unknown@.no_duplicates(),
            unknown@.to_set() == latest.data@.dom().difference(old(context).items@.dom()),
    {
        let ghost m0 = context.items@;
        let ghost data = latest.data@;
        let ghost mut done: Set<u64> = Set::empty();
        let mut unknown: Vec<u64> = Vec::new();
        let ghost mut count: int = 0;
        for entry in it: latest.data.iter()
            invariant
                data == latest.data@,
                it.seq().no_duplicates(),
                it.seq().len() == data.dom().len(),
                forall|i: int|
                    0 <= i < it.seq().len() ==> data.contains_key(*(#[trigger] it.seq()[i]).0)
                        && data[*it.seq()[i].0] == *it.seq()[i].1,
                forall|k: u64| #[trigger] data.contains_key(k) ==> it.seq().contains((&k, &data[k])),
                done == it.seq().take(it.index()).map_values(|e: (&u64, &LatestGEData)| *e.0).to_set(),
                context.items@.dom() == m0.dom(),
                forall|k: u64| #[trigger]
                    context.items@.contains_key(k) ==> context.items@[k] == if done.contains(k) {
                        with_latest(m0[k], data[k])
                    } else {
                        m0[k]
                    },
                unknown@.no_duplicates(),
                unknown@.to_set() == done.difference(m0.dom()),
                count == it.index(),
                count == data.dom().len() ==> done == data.dom(),
        {
            let (id, d) = entry;
            let ghost i = it.index();
            let ghost keys = it.seq().map_values(|e: (&u64, &LatestGEData)| *e.0);
            proof {
                assert(it.seq().take(i + 1).map_values(|e: (&u64, &LatestGEData)| *e.0)
                    =~= it.seq().take(i).map_values(|e: (&u64, &LatestGEData)| *e.0).push(*id));
                assert(!done.contains(*id)) by {
                    if done.contains(*id) {
                        let pk = it.seq().take(i).map_values(|e: (&u64, &LatestGEData)| *e.0);
                        let j = choose|j: int| 0 <= j < pk.len() && #[trigger] pk[j] == *id;
                        assert(*it.seq()[j].0 == *it.seq()[i].0);
                        assert(it.seq()[j] == it.seq()[i]);
                    }
                }
                it.seq().take(i).map_values(|e: (&u64, &LatestGEData)| *e.0).lemma_push_to_set_commute(*id);
            }
            if context.items.contains_key(id) {
                let mut merch = context.items.remove(id).unwrap();
                merch.high = d.high;
                merch.high_time = d.highTime;
                merch.low = d.low;
                merch.low_time = d.lowTime;
                context.items.insert(*id, merch);
            } else {
                proof {
                    assert(!unknown@.to_set().contains(*id));
                    assert(!unknown@.contains(*id));
                    unknown@.lemma_push_to_set_commute(*id);
                }
                unknown.push(*id);
            }
            proof {
                done = done.insert(*id);
                count = count + 1;
                if count == data.dom().len() {
                    let ks = it.seq().take(i + 1).map_values(|e: (&u64, &LatestGEData)| *e.0);
                    assert(it.seq().take(i + 1) =~= it.seq());
                    assert forall|k: u64| data.contains_key(k) implies done.contains(k) by {
                        let j = choose|j: int| 0 <= j < it.seq().len() && it.seq()[j] == (&k, &data[k]);
                        assert(ks[j] == k);
                    }
                    assert forall|k: u64| done.contains(k) implies data.contains_key(k) by {
                        let j = choose|j: int| 0 <= j < ks.len() && ks[j] == k;
                        assert(*it.seq()[j].0 == k);
                    }
                    assert(done =~= data.dom());
                }
            }
        }
        proof {
            assert(context.items@ =~= latest_applied(m0, data));
        }
        unknown
    }
}

} // verus!
