use vstd::prelude::*;
use crate::types::{arbitrage_spec, Context, Merch};

verus! {

/// How many opportunities the ranking reports.
pub const OPPORTUNITY_COUNT: usize = 10;

/// Ranks the items by the profit of buying them and casting High Alchemy.
#[derive(Debug)]
pub struct CalculateArbitrageTask {
    /// Unix time (seconds) at which the task is due.
    pub timer: u64,
}

/// Whether `items` holds an item under `k` whose profit is known.
pub open spec fn is_opportunity(items: Map<u64, Merch>, k: u64) -> bool {
    items.contains_key(k) && arbitrage_spec(items[k]) is Some
}

/// Whether every item of `items` has a known profit: both its High Alchemy
/// price and its latest high price are known.
pub open spec fn all_priced(items: Map<u64, Merch>) -> bool {
    forall|k: u64| #[trigger] items.contains_key(k) ==> arbitrage_spec(items[k]) is Some
}

/// The profit of the item under `k`.
pub open spec fn profit(items: Map<u64, Merch>, k: u64) -> int {
    arbitrage_spec(items[k])->0
}

/// Whether the item under `a` ranks before the item under `b`: it makes
/// more profit, or the same profit and has the smaller id.
pub open spec fn ranks_before(items: Map<u64, Merch>, a: u64, b: u64) -> bool {
    profit(items, a) > profit(items, b) || (profit(items, a) == profit(items, b) && a < b)
}

/// Whether `r` lists the best opportunities of `items`, at most `n` of them:
/// ids of items with a known profit, in ranking order (highest profit first,
/// the smaller id first among equal profits), where every opportunity left
/// out ranks after every listed one; fewer than `n` are listed only when no
/// opportunity is left out.
pub open spec fn is_top_opportunities(items: Map<u64, Merch>, n: nat, r: Seq<u64>) -> bool {
    &&& r.len() <= n
    &&& forall|i: int| 0 <= i < r.len() ==> is_opportunity(items, #[trigger] r[i])
    &&& forall|i: int, j: int| 0 <= i < j < r.len() ==> ranks_before(items, r[i], r[j])
    &&& forall|k: u64|
        #![trigger is_opportunity(items, k)]
        is_opportunity(items, k) && !r.contains(k) ==> {
            &&& r.len() == n
            &&& forall|i: int| 0 <= i < r.len() ==> ranks_before(items, #[trigger] r[i], k)
        }
}

/// The best opportunities are determined by the database and the count: two
/// lists that both meet `is_top_opportunities` are the same list.
pub proof fn lemma_top_opportunities_unique(
    items: Map<u64, Merch>,
    n: nat,
    r1: Seq<u64>,
    r2: Seq<u64>,
)
    requires
        is_top_opportunities(items, n, r1),
        is_top_opportunities(items, n, r2),
    ensures
        r1 == r2,
{
    let m = if r1.len() < r2.len() { r1.len() } else { r2.len() };
    lemma_common_prefix(items, n, r1, r2, m as int);
    lemma_not_shorter(items, n, r1, r2);
    lemma_not_shorter(items, n, r2, r1);
    assert(r1 =~= r2);
}

/// Two ranked lists agree on their first `k` positions.
proof fn lemma_common_prefix(items: Map<u64, Merch>, n: nat, r1: Seq<u64>, r2: Seq<u64>, k: int)
    requires
        is_top_opportunities(items, n, r1),
        is_top_opportunities(items, n, r2),
        0 <= k <= r1.len(),
        0 <= k <= r2.len(),
    ensures
        forall|i: int| 0 <= i < k ==> r1[i] == r2[i],
    decreases k,
{
    if k > 0 {
        lemma_common_prefix(items, n, r1, r2, k - 1);
        lemma_first_difference_at(items, n, r1, r2, k - 1);
        lemma_first_difference_at(items, n, r2, r1, k - 1);
    }
}

/// At the first position where two ranked lists differ, the second list's
/// entry ranks before the first list's.
proof fn lemma_first_difference_at(
    items: Map<u64, Merch>,
    n: nat,
    r1: Seq<u64>,
    r2: Seq<u64>,
    k: int,
)
    requires
        is_top_opportunities(items, n, r1),
        is_top_opportunities(items, n, r2),
        0 <= k < r1.len(),
        0 <= k < r2.len(),
        forall|i: int| 0 <= i < k ==> r1[i] == r2[i],
    ensures
        r1[k] != r2[k] ==> ranks_before(items, r2[k], r1[k]),
{
    if r1[k] != r2[k] {
        let x = r1[k];
        assert(is_opportunity(items, x));
        if r2.contains(x) {
            let j = choose|j: int| 0 <= j < r2.len() && r2[j] == x;
            if j < k {
                assert(r1[j] == x);
                assert(ranks_before(items, r1[j], r1[k]));
            } else {
                assert(ranks_before(items, r2[k], r2[j]));
            }
        } else {
            assert(ranks_before(items, r2[k], x));
        }
    }
}

/// A ranked list is no shorter than another ranked list that it begins.
proof fn lemma_not_shorter(items: Map<u64, Merch>, n: nat, r1: Seq<u64>, r2: Seq<u64>)
    requires
        is_top_opportunities(items, n, r1),
        is_top_opportunities(items, n, r2),
        forall|i: int| 0 <= i < r1.len() && i < r2.len() ==> r1[i] == r2[i],
    ensures
        r1.len() >= r2.len(),
{
    if r1.len() < r2.len() {
        let x = r2[r1.len() as int];
        assert(is_opportunity(items, x));
        if r1.contains(x) {
            let j = choose|j: int| 0 <= j < r1.len() && r1[j] == x;
            assert(r2[j] == x);
            assert(ranks_before(items, r2[j], r2[r1.len() as int]));
        }
    }
}

/// Whether candidate `a` ranks before candidate `b` (pairs of id and profit).
spec fn pair_before(a: (u64, i128), b: (u64, i128)) -> bool {
    a.1 > b.1 || (a.1 == b.1 && a.0 < b.0)
}

/// Whether `v` holds `id`.
fn contains_id(v: &Vec<u64>, id: u64) -> (b: bool)
    ensures
        b == v@.contains(id),
{
    let mut i: usize = 0;
    while i < v.len()
        invariant
            0 <= i <= v.len(),
            forall|j: int| 0 <= j < i ==> v@[j] != id,
        decreases v.len() - i,
    {
        if v[i] == id {
            return true;
        }
        i = i + 1;
    }
    false
}

impl CalculateArbitrageTask {
    /// The time at which the task is due.
    pub fn timer(&self) -> (r: u64)
        ensures
            r == self.timer,
    {
        self.timer
    }

    /// The items with a known profit, as pairs of id and profit.
    fn candidates(context: &Context) -> (cands: Vec<(u64, i128)>)
        ensures
            forall|j: int|
                0 <= j < cands@.len() ==> is_opportunity(context.items@, (#[trigger] cands@[j]).0)
                    && cands@[j].1 as int == profit(context.items@, cands@[j].0),
            forall|k: u64|
                is_opportunity(context.items@, k) ==> exists|j: int|
                    0 <= j < cands@.len() && (#[trigger] cands@[j]).0 == k,
            forall|a: int, b: int|
                0 <= a < b < cands@.len() ==> (#[trigger] cands@[a]).0 != (#[trigger] cands@[b]).0,
    {
        let ghost items = context.items@;
        let mut cands: Vec<(u64, i128)> = Vec::new();
        let ghost mut count: int = 0;
        for k in it: context.items.keys()
            invariant
                items == context.items@,
                it.seq().unref().to_set() == items.dom(),
                it.seq().no_duplicates(),
                it.seq().len() == items.dom().len(),
                count == it.index(),
                forall|j: int|
                    0 <= j < cands@.len() ==> is_opportunity(items, (#[trigger] cands@[j]).0)
                        && cands@[j].1 as int == profit(items, cands@[j].0)
                        && it.seq().unref().take(it.index()).contains(cands@[j].0),
                forall|x: int|
                    0 <= x < it.index() && is_opportunity(items, #[trigger] it.seq().unref()[x])
                        ==> exists|j: int|
                        0 <= j < cands@.len() && (#[trigger] cands@[j]).0 == it.seq().unref()[x],
                forall|a: int, b: int|
                    0 <= a < b < cands@.len() ==> (#[trigger] cands@[a]).0 != (
                    #[trigger] cands@[b]).0,
                count == items.dom().len() ==> forall|k: u64|
                    is_opportunity(items, k) ==> exists|j: int|
                        0 <= j < cands@.len() && (#[trigger] cands@[j]).0 == k,
        {
            let ghost i = it.index();
            let ghost ks = it.seq().unref();
            proof {
                assert(ks[i] == *k);
                assert forall|j: int| 0 <= j < cands@.len() implies (#[trigger] cands@[j]).0 != *k by {
                    if cands@[j].0 == *k {
                        let x = choose|x: int| 0 <= x < i && ks.take(i)[x] == cands@[j].0;
                        assert(ks.take(i)[x] == ks[x]);
                        assert(it.seq()[x] == it.seq()[i]);
                    }
                }
            }
            let ghost old_cands = cands@;
            let merch = context.items.get(k).unwrap();
            match merch.arbitrage() {
                Some(a) => {
                    cands.push((*k, a));
                },
                None => {},
            }
            proof {
                assert(is_opportunity(items, ks[i]) ==> cands@[cands@.len() - 1].0 == ks[i]);
                assert forall|x: int|
                    0 <= x < i + 1 && is_opportunity(items, #[trigger] ks[x]) implies exists|j: int|
                    0 <= j < cands@.len() && (#[trigger] cands@[j]).0 == ks[x] by {
                    if x < i {
                        let j = choose|j: int| 0 <= j < old_cands.len() && (#[trigger] old_cands[j]).0 == ks[x];
                        assert(cands@[j] == old_cands[j]);
                    } else {
                        assert(cands@[cands@.len() - 1].0 == ks[x]);
                    }
                }
                count = count + 1;
                assert forall|j: int| 0 <= j < cands@.len() implies ks.take(i + 1).contains(
                    (#[trigger] cands@[j]).0,
                ) by {
                    if ks.take(i).contains(cands@[j].0) {
                        let x = choose|x: int| 0 <= x < i && ks.take(i)[x] == cands@[j].0;
                        assert(ks.take(i + 1)[x] == cands@[j].0);
                    } else {
                        assert(ks.take(i + 1)[i] == cands@[j].0);
                    }
                }
                if count == items.dom().len() {
                    assert forall|k2: u64| is_opportunity(items, k2) implies exists|j: int|
                        0 <= j < cands@.len() && (#[trigger] cands@[j]).0 == k2 by {
                        assert(ks.to_set().contains(k2));
                        let x = choose|x: int| 0 <= x < ks.len() && ks[x] == k2;
                        assert(is_opportunity(items, ks[x]));
                    }
                }
            }
        }
        cands
    }

    /// The ids of the `n` items with the highest profit, in ranking order:
    /// highest profit first, and the smaller id first among equal profits
    /// (all of them when the database holds fewer than `n`).
    ///
    /// Every item must have a known profit: the ranking compares items by
    /// their profit and reports it for each item it lists.
    pub fn best_opportunities(context: &Context, n: usize) -> (r: Vec<u64>)
        requires
            all_priced(context.items@),
        ensures
            is_top_opportunities(context.items@, n as nat, r@),
            r@.no_duplicates(),
    {
        let ghost items = context.items@;
        let cands = Self::candidates(context);
        let mut r: Vec<u64> = Vec::new();
        while r.len() < n
            invariant
                items == context.items@,
                forall|j: int|
                    0 <= j < cands@.len() ==> is_opportunity(items, (#[trigger] cands@[j]).0)
                        && cands@[j].1 as int == profit(items, cands@[j].0),
                forall|k: u64|
                    is_opportunity(items, k) ==> exists|j: int|
                        0 <= j < cands@.len() && (#[trigger] cands@[j]).0 == k,
                r@.len() <= n,
                forall|a: int, b: int|
                    0 <= a < b < cands@.len() ==> (#[trigger] cands@[a]).0 != (
                    #[trigger] cands@[b]).0,
                forall|i: int| 0 <= i < r@.len() ==> is_opportunity(items, #[trigger] r@[i]),
                forall|i: int, j: int|
                    0 <= i < j < r@.len() ==> ranks_before(items, r@[i], r@[j]),
                forall|j: int|
                    0 <= j < cands@.len() && !r@.contains((#[trigger] cands@[j]).0) ==> forall|
                        i: int,
                    | 0 <= i < r@.len() ==> ranks_before(items, #[trigger] r@[i], cands@[j].0),
            ensures
                r@.len() <= n,
                forall|i: int| 0 <= i < r@.len() ==> is_opportunity(items, #[trigger] r@[i]),
                forall|i: int, j: int|
                    0 <= i < j < r@.len() ==> ranks_before(items, r@[i], r@[j]),
                forall|j: int|
                    0 <= j < cands@.len() && !r@.contains((#[trigger] cands@[j]).0) ==> forall|
                        i: int,
                    | 0 <= i < r@.len() ==> ranks_before(items, #[trigger] r@[i], cands@[j].0),
                r@.len() == n || forall|j: int|
                    0 <= j < cands@.len() ==> r@.contains((#[trigger] cands@[j]).0),
            decreases n - r@.len(),
        {
            let mut best: Option<usize> = None;
            let mut j: usize = 0;
            while j < cands.len()
                invariant
                    0 <= j <= cands@.len(),
                    forall|a: int, b: int|
                        0 <= a < b < cands@.len() ==> (#[trigger] cands@[a]).0 != (
                        #[trigger] cands@[b]).0,
                    best matches Some(b) ==> b < j && !r@.contains(cands@[b as int].0) && forall|
                        x: int,
                    |
                        0 <= x < j && x != b && !r@.contains((#[trigger] cands@[x]).0) ==> pair_before(
                            cands@[b as int],
                            cands@[x],
                        ),
                    best is None ==> forall|x: int|
                        0 <= x < j ==> r@.contains((#[trigger] cands@[x]).0),
                decreases cands@.len() - j,
            {
                if !contains_id(&r, cands[j].0) {
                    match best {
                        None => {
                            best = Some(j);
                        },
                        Some(b) => {
                            if cands[j].1 > cands[b].1 || (cands[j].1 == cands[b].1 && cands[j].0
                                < cands[b].0) {
                                best = Some(j);
                            }
                        },
                    }
                }
                j = j + 1;
            }
            match best {
                None => {
                    break ;
                },
                Some(b) => {
                    let id = cands[b].0;
                    let ghost old_r = r@;
                    r.push(id);
                    proof {
                        assert(r@ == old_r.push(id));
                        assert forall|x: int|
                            0 <= x < cands@.len() && !r@.contains((#[trigger] cands@[x]).0) implies forall|
                            i: int,
                        | 0 <= i < r@.len() ==> ranks_before(items, #[trigger] r@[i], cands@[x].0) by {
                            assert(!old_r.contains(cands@[x].0)) by {
                                if old_r.contains(cands@[x].0) {
                                    let y = choose|y: int| 0 <= y < old_r.len() && old_r[y] == cands@[x].0;
                                    assert(r@[y] == cands@[x].0);
                                }
                            }
                            assert(r@[old_r.len() as int] == id);
                            assert(cands@[x].0 != id);
                            assert(x != b);
                            assert forall|i: int| 0 <= i < r@.len() implies ranks_before(
                                items,
                                #[trigger] r@[i],
                                cands@[x].0,
                            ) by {
                                if i < old_r.len() {
                                    assert(r@[i] == old_r[i]);
                                }
                            }
                        }
                        assert forall|i: int, j2: int| 0 <= i < j2 < r@.len() implies ranks_before(
                            items,
                            r@[i],
                            r@[j2],
                        ) by {
                            assert(r@[i] == old_r[i]);
                            if j2 < old_r.len() {
                                assert(r@[j2] == old_r[j2]);
                            }
                        }
                    }
                },
            }
        }
        proof {
            assert forall|k: u64|
                #![trigger is_opportunity(items, k)]
                is_opportunity(items, k) && !r@.contains(k) implies {
                    &&& r@.len() == n
                    &&& forall|i: int| 0 <= i < r@.len() ==> ranks_before(items, #[trigger] r@[i], k)
                } by {
                let j = choose|j: int| 0 <= j < cands@.len() && (#[trigger] cands@[j]).0 == k;
            }
            assert forall|i: int, j: int| 0 <= i < j < r@.len() implies r@[i] != r@[j] by {
                assert(ranks_before(items, r@[i], r@[j]));
            }
        }
        r
    }
}

} // verus!
