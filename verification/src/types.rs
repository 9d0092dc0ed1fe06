use vstd::prelude::*;
use std::collections::BTreeMap;
use std::collections::HashMap;
use std::cmp::Ordering;
use vstd::std_specs::cmp::{PartialEqSpec, PartialOrdSpec};
use vstd::std_specs::convert::FromSpec;

verus! {

/// An item of the game together with its alchemy prices and, once known,
/// its latest Grand Exchange prices.
#[derive(Clone, Debug)]
pub struct Merch {
    pub highalch: Option<u64>,
    pub members: bool,
    pub name: String,
    pub id: u64,
    pub value: u64,
    pub lowalch: Option<u64>,
    pub limit: Option<i32>,
    pub high: Option<u64>,
    pub high_time: Option<u64>,
    pub low: Option<u64>,
    pub low_time: Option<u64>,
}

/// An entry of the wiki's `/mapping` route.
#[derive(Debug)]
pub struct MappingItem {
    pub highalch: Option<u64>,
    pub members: bool,
    pub name: String,
    pub examine: String,
    pub id: u64,
    pub value: u64,
    pub icon: String,
    pub lowalch: Option<u64>,
    pub limit: Option<i32>,
}

/// The latest Grand Exchange prices of one item, as the `/latest` route
/// reports them.
#[derive(Clone, Copy, Debug, PartialEq, Eq, Structural)]
#[allow(non_snake_case)]
pub struct LatestGEData {
    pub high: Option<u64>,
    pub highTime: Option<u64>,
    pub low: Option<u64>,
    pub lowTime: Option<u64>,
}

/// The body of the `/latest` route: the latest prices, keyed by item id.
#[derive(Debug)]
pub struct LatestResponse {
    pub data: HashMap<u64, LatestGEData>,
}

/// Summary figures of the items database.
#[derive(Debug)]
pub struct Stats {
    avg_value: u64,
    item_count: u64,
}

/// The in-memory items database, keyed by item id.
pub struct Context {
    pub items: BTreeMap<u64, Merch>,
}

/// The profit of buying the item at its latest high price and casting High
/// Alchemy on it: `highalch - high`, when both prices are known.
pub open spec fn arbitrage_spec(m: Merch) -> Option<int> {
    match (m.high, m.highalch) {
        (Some(high), Some(highalch)) => Some(highalch as int - high as int),
        _ => None,
    }
}

/// Whether two items are equally good opportunities: their profits are equal,
/// or at least one of them has no known profit.
pub open spec fn merch_eq_spec(a: Merch, b: Merch) -> bool {
    match (arbitrage_spec(a), arbitrage_spec(b)) {
        (Some(x), Some(y)) => x == y,
        _ => true,
    }
}

/// Items compare by their profit; an item whose profit is unknown compares
/// equal to every item.
pub open spec fn merch_order_spec(a: Merch, b: Merch) -> Ordering {
    match (arbitrage_spec(a), arbitrage_spec(b)) {
        (Some(x), Some(y)) => if x < y {
            Ordering::Less
        } else if x == y {
            Ordering::Equal
        } else {
            Ordering::Greater
        },
        _ => Ordering::Equal,
    }
}

impl Merch {
    /// The profit `highalch - high` of the item, when both prices are known.
    pub fn arbitrage(&self) -> (r: Option<i128>)
        ensures
            match r {
                Some(x) => arbitrage_spec(*self) == Some(x as int),
                None => arbitrage_spec(*self) is None,
            },
            r is Some <==> (self.high is Some && self.highalch is Some),
            r is Some ==> r->0 as int == self.highalch->0 - self.high->0,
    {
        match (self.high, self.highalch) {
            (Some(high), Some(highalch)) => Some(highalch as i128 - high as i128),
            _ => None,
        }
    }
}

impl PartialEq for Merch {
    fn eq(&self, other: &Self) -> (r: bool) {
        match (self.arbitrage(), other.arbitrage()) {
            (Some(x), Some(y)) => x == y,
            _ => true,
        }
    }
}

impl vstd::std_specs::cmp::PartialEqSpecImpl for Merch {
    open spec fn obeys_eq_spec() -> bool {
        true
    }

    open spec fn eq_spec(&self, other: &Self) -> bool {
        merch_eq_spec(*self, *other)
    }
}

impl Eq for Merch {
}

impl PartialOrd for Merch {
    fn partial_cmp(&self, other: &Self) -> (r: Option<Ordering>) {
        match (self.arbitrage(), other.arbitrage()) {
            (Some(x), Some(y)) => if x < y {
                Some(Ordering::Less)
            } else if x == y {
                Some(Ordering::Equal)
            } else {
                Some(Ordering::Greater)
            },
            _ => Some(Ordering::Equal),
        }
    }
}

impl vstd::std_specs::cmp::PartialOrdSpecImpl for Merch {
    open spec fn obeys_partial_cmp_spec() -> bool {
        true
    }

    open spec fn partial_cmp_spec(&self, other: &Self) -> Option<Ordering> {
        Some(merch_order_spec(*self, *other))
    }
}

/// The `Merch` that a `/mapping` entry starts as: its static fields, and no
/// Grand Exchange prices yet.
pub open spec fn merch_from_mapping(v: MappingItem) -> Merch {
    Merch {
        highalch: v.highalch,
        members: v.members,
        name: v.name,
        id: v.id,
        value: v.value,
        lowalch: v.lowalch,
        limit: v.limit,
        high: None,
        high_time: None,
        low: None,
        low_time: None,
    }
}

impl From<MappingItem> for Merch {
    fn from(value: MappingItem) -> (r: Self) {
        Merch {
            highalch: value.highalch,
            members: value.members,
            name: value.name,
            id: value.id,
            value: value.value,
            lowalch: value.lowalch,
            limit: value.limit,
            high: None,
            high_time: None,
            low: None,
            low_time: None,
        }
    }
}

impl vstd::std_specs::convert::FromSpecImpl<MappingItem> for Merch {
    open spec fn obeys_from_spec() -> bool {
        true
    }

    open spec fn from_spec(v: MappingItem) -> Self {
        merch_from_mapping(v)
    }
}

/// The database `m` after the entries of `s` are added in order, each under
/// its id; a later entry replaces an earlier one with the same id.
pub open spec fn with_mapping(m: Map<u64, Merch>, s: Seq<MappingItem>) -> Map<u64, Merch>
    decreases s.len(),
{
    if s.len() == 0 {
        m
    } else {
        with_mapping(m, s.drop_last()).insert(s.last().id, merch_from_mapping(s.last()))
    }
}

/// The ids of the entries of `s` that, when added in order to `m`, found
/// their id already present, in the order of the entries.
pub open spec fn mapping_duplicates(m: Map<u64, Merch>, s: Seq<MappingItem>) -> Seq<u64>
    decreases s.len(),
{
    if s.len() == 0 {
        Seq::empty()
    } else {
        let before = mapping_duplicates(m, s.drop_last());
        if with_mapping(m, s.drop_last()).contains_key(s.last().id) {
            before.push(s.last().id)
        } else {
            before
        }
    }
}

/// Whether every item of `m` is stored under its own id.
pub open spec fn keyed_by_id(m: Map<u64, Merch>) -> bool {
    forall|k: u64| #[trigger] m.contains_key(k) ==> m[k].id == k
}

/// Equality of items is reflexive and symmetric, and agrees with their
/// comparison: two items compare equal exactly when they are equal, and one
/// is below the other exactly when the other is above it.
pub proof fn lemma_merch_order_consistent(a: Merch, b: Merch)
    ensures
        merch_eq_spec(a, a),
        merch_eq_spec(a, b) == merch_eq_spec(b, a),
        (merch_order_spec(a, b) == Ordering::Equal) == merch_eq_spec(a, b),
        (merch_order_spec(a, b) == Ordering::Less) == (merch_order_spec(b, a) == Ordering::Greater),
{
}

/// Among items whose profit is known, the comparison is transitive.
pub proof fn lemma_merch_order_transitive(a: Merch, b: Merch, c: Merch)
    requires
        arbitrage_spec(a) is Some,
        arbitrage_spec(b) is Some,
        arbitrage_spec(c) is Some,
    ensures
        merch_order_spec(a, b) == Ordering::Less && merch_order_spec(b, c) == Ordering::Less
            ==> merch_order_spec(a, c) == Ordering::Less,
        merch_eq_spec(a, b) && merch_eq_spec(b, c) ==> merch_eq_spec(a, c),
{
}

/// Loading `/mapping` entries keeps every item under its own id.
pub proof fn lemma_mapping_keyed_by_id(m: Map<u64, Merch>, s: Seq<MappingItem>)
    requires
        keyed_by_id(m),
    ensures
        keyed_by_id(with_mapping(m, s)),
    decreases s.len(),
{
    if s.len() > 0 {
        lemma_mapping_keyed_by_id(m, s.drop_last());
    }
}

/// After loading `/mapping` entries, the database holds the ids it held
/// before and the ids of the entries, and nothing else; an id that has
/// entries holds the item made from its last entry; every other id keeps its
/// item.
pub proof fn lemma_mapping_contents(m: Map<u64, Merch>, s: Seq<MappingItem>)
    ensures
        forall|k: u64|
            #[trigger] with_mapping(m, s).contains_key(k) <==> (m.contains_key(k) || exists|i: int|
                0 <= i < s.len() && (#[trigger] s[i]).id == k),
        forall|i: int|
            0 <= i < s.len() && (forall|j: int| i < j < s.len() ==> (#[trigger] s[j]).id != s[i].id)
                ==> with_mapping(m, s)[(#[trigger] s[i]).id] == merch_from_mapping(s[i]),
        forall|k: u64|
            m.contains_key(k) && (forall|i: int| 0 <= i < s.len() ==> (#[trigger] s[i]).id != k)
                ==> #[trigger] with_mapping(m, s)[k] == m[k],
    decreases s.len(),
{
    if s.len() > 0 {
        let p = s.drop_last();
        lemma_mapping_contents(m, p);
        let last = s.last();
        assert forall|k: u64|
            #[trigger] with_mapping(m, s).contains_key(k) <==> (m.contains_key(k) || exists|i: int|
                0 <= i < s.len() && (#[trigger] s[i]).id == k) by {
            if with_mapping(m, s).contains_key(k) && k != last.id {
                if !m.contains_key(k) {
                    let i = choose|i: int| 0 <= i < p.len() && (#[trigger] p[i]).id == k;
                    assert(s[i] == p[i]);
                }
            }
            if exists|i: int| 0 <= i < s.len() && (#[trigger] s[i]).id == k {
                let i = choose|i: int| 0 <= i < s.len() && (#[trigger] s[i]).id == k;
                if i < s.len() - 1 {
                    assert(p[i] == s[i]);
                }
            }
        }
        assert forall|i: int|
            0 <= i < s.len() && (forall|j: int| i < j < s.len() ==> (#[trigger] s[j]).id != s[i].id)
                implies with_mapping(m, s)[(#[trigger] s[i]).id] == merch_from_mapping(s[i]) by {
            if i < s.len() - 1 {
                assert(s[s.len() - 1].id != s[i].id);
                assert(p[i] == s[i]);
                assert forall|j: int| i < j < p.len() implies (#[trigger] p[j]).id != p[i].id by {
                    assert(p[j] == s[j]);
                }
            }
        }
        assert forall|k: u64|
            m.contains_key(k) && (forall|i: int| 0 <= i < s.len() ==> (#[trigger] s[i]).id != k)
                implies #[trigger] with_mapping(m, s)[k] == m[k] by {
            assert(s[s.len() - 1].id != k);
            assert forall|i: int| 0 <= i < p.len() implies (#[trigger] p[i]).id != k by {
                assert(p[i] == s[i]);
            }
        }
    }
}

/// Entries with distinct ids, none of them already present, load without
/// any duplicate being reported.
pub proof fn lemma_distinct_mapping_no_duplicates(m: Map<u64, Merch>, s: Seq<MappingItem>)
    requires
        forall|i: int, j: int| 0 <= i < j < s.len() ==> (#[trigger] s[i]).id != (#[trigger] s[j]).id,
        forall|i: int| 0 <= i < s.len() ==> !m.contains_key((#[trigger] s[i]).id),
    ensures
        mapping_duplicates(m, s) == Seq::<u64>::empty(),
    decreases s.len(),
{
    if s.len() > 0 {
        let p = s.drop_last();
        assert forall|i: int, j: int| 0 <= i < j < p.len() implies (#[trigger] p[i]).id != (
        #[trigger] p[j]).id by {
            assert(p[i] == s[i] && p[j] == s[j]);
        }
        assert forall|i: int| 0 <= i < p.len() implies !m.contains_key((#[trigger] p[i]).id) by {
            assert(p[i] == s[i]);
        }
        lemma_distinct_mapping_no_duplicates(m, p);
        lemma_mapping_contents(m, p);
        let last = s.last();
        if with_mapping(m, p).contains_key(last.id) {
            assert(!m.contains_key(s[s.len() - 1].id));
            let i = choose|i: int| 0 <= i < p.len() && (#[trigger] p[i]).id == last.id;
            assert(p[i] == s[i]);
        }
    }
}

/// The profit of an item is known exactly when both its latest high price and
/// its High Alchemy price are known, and it is then the High Alchemy price
/// minus the high price; the low price plays no part.
pub proof fn lemma_arbitrage_is_highalch_minus_high(m: Merch)
    ensures
        arbitrage_spec(m) is Some <==> (m.high is Some && m.highalch is Some),
        arbitrage_spec(m) is Some ==> arbitrage_spec(m)->0 == m.highalch->0 - m.high->0,
        forall|low: Option<u64>, low_time: Option<u64>|
            arbitrage_spec(Merch { low: low, low_time: low_time, ..m }) == #[trigger] arbitrage_spec(m),
{
}

/// Items whose profits are both known compare by their signed profits (a loss
/// ranks below a gain) and are equal exactly when their profits are equal; an
/// item whose profit is unknown compares equal to, and is equal to, any item.
pub proof fn lemma_merch_compare_by_signed_profit(a: Merch, b: Merch)
    ensures
        (a.high is Some && a.highalch is Some && b.high is Some && b.highalch is Some) ==> {
            let x = a.highalch->0 - a.high->0;
            let y = b.highalch->0 - b.high->0;
            &&& (a.partial_cmp_spec(&b) == Some(Ordering::Less)) <==> x < y
            &&& (a.partial_cmp_spec(&b) == Some(Ordering::Equal)) <==> x == y
            &&& (a.partial_cmp_spec(&b) == Some(Ordering::Greater)) <==> x > y
            &&& a.eq_spec(&b) <==> x == y
            &&& (merch_order_spec(a, b) == Ordering::Less) <==> x < y
            &&& merch_eq_spec(a, b) <==> x == y
        },
        !(a.high is Some && a.highalch is Some && b.high is Some && b.highalch is Some) ==> {
            &&& a.partial_cmp_spec(&b) == Some(Ordering::Equal)
            &&& a.eq_spec(&b)
        },
{
}

/// The item made from a `/mapping` entry keeps every field of the entry that
/// it has (name, id, store value, alchemy prices, limit, membership) and has
/// no Grand Exchange prices yet.
pub proof fn lemma_from_mapping_keeps_entry(v: MappingItem)
    ensures
        ({
            let r = <Merch as FromSpec<MappingItem>>::from_spec(v);
            &&& r == merch_from_mapping(v)
            &&& r.name == v.name
            &&& r.id == v.id
            &&& r.value == v.value
            &&& r.highalch == v.highalch
            &&& r.lowalch == v.lowalch
            &&& r.limit == v.limit
            &&& r.members == v.members
            &&& r.high is None
            &&& r.high_time is None
            &&& r.low is None
            &&& r.low_time is None
        }),
{
}

/// Loading no entries changes nothing and reports nothing; loading one more
/// `/mapping` entry puts the item made from it under its id
/// and reports the id as a duplicate exactly when the id was already present,
/// in the database or among the entries before it.
pub proof fn lemma_mapping_one_more(m: Map<u64, Merch>, s: Seq<MappingItem>, e: MappingItem)
    ensures
        with_mapping(m, Seq::<MappingItem>::empty()) == m,
        mapping_duplicates(m, Seq::<MappingItem>::empty()) == Seq::<u64>::empty(),
        with_mapping(m, s.push(e)) == with_mapping(m, s).insert(e.id, merch_from_mapping(e)),
        mapping_duplicates(m, s.push(e)) == if m.contains_key(e.id) || exists|i: int|
            0 <= i < s.len() && (#[trigger] s[i]).id == e.id {
            mapping_duplicates(m, s).push(e.id)
        } else {
            mapping_duplicates(m, s)
        },
{
    assert(s.push(e).drop_last() =~= s);
    lemma_mapping_contents(m, s);
    assert(with_mapping(m, s).contains_key(e.id) == (m.contains_key(e.id) || exists|i: int|
        0 <= i < s.len() && (#[trigger] s[i]).id == e.id));
}

proof fn lemma_fold_values_agree(s: Set<u64>, m1: Map<u64, Merch>, m2: Map<u64, Merch>)
    requires
        s.finite(),
        forall|k: u64| #[trigger] s.contains(k) ==> m1[k].value == m2[k].value,
    ensures
        s.fold(0int, add_value(m1)) == s.fold(0int, add_value(m2)),
    decreases s.len(),
{
    let f1 = add_value(m1);
    let f2 = add_value(m2);
    assert(vstd::set::fold::is_fun_commutative(f1));
    assert(vstd::set::fold::is_fun_commutative(f2));
    if s.len() == 0 {
        assert(s =~= Set::<u64>::empty());
        vstd::set::fold::lemma_fold_empty(0int, f1);
        vstd::set::fold::lemma_fold_empty(0int, f2);
    } else {
        let x = s.choose();
        let r = s.remove(x);
        lemma_fold_values_agree(r, m1, m2);
        assert(r.insert(x) =~= s);
        vstd::set::fold::lemma_fold_insert(r, 0int, f1, x);
        vstd::set::fold::lemma_fold_insert(r, 0int, f2, x);
    }
}

/// The sum of store values is 0 for an empty database, and adding an item
/// under a new id adds its store value.
pub proof fn lemma_value_sum_adds_values(m: Map<u64, Merch>, k: u64, v: Merch)
    requires
        m.dom().finite(),
        !m.contains_key(k),
    ensures
        value_sum(Map::<u64, Merch>::empty()) == 0,
        value_sum(m.insert(k, v)) == value_sum(m) + v.value,
{
    let e = Map::<u64, Merch>::empty();
    assert(e.dom() =~= Set::<u64>::empty());
    vstd::set::fold::lemma_fold_empty(0int, add_value(e));
    let m2 = m.insert(k, v);
    let f2 = add_value(m2);
    assert(vstd::set::fold::is_fun_commutative(f2));
    lemma_fold_values_agree(m.dom(), m, m2);
    assert(m2.dom() =~= m.dom().insert(k));
    vstd::set::fold::lemma_fold_insert(m.dom(), 0int, f2, k);
}

/// Adds the store value of the item under key `k` of `m` to `acc`.
pub open spec fn add_value(m: Map<u64, Merch>) -> spec_fn(int, u64) -> int {
    |acc: int, k: u64| acc + m[k].value as int
}

/// The sum of the store values of the items of `m`.
pub open spec fn value_sum(m: Map<u64, Merch>) -> int {
    m.dom().fold(0int, add_value(m))
}

impl Stats {
    /// The integer average of the store values (the sum divided by the count,
    /// rounded down).
    pub closed spec fn avg_value_spec(&self) -> u64 {
        self.avg_value
    }

    /// The number of items.
    pub closed spec fn item_count_spec(&self) -> u64 {
        self.item_count
    }

    pub fn avg_value(&self) -> (r: u64)
        ensures
            r == self.avg_value_spec(),
    {
        self.avg_value
    }

    pub fn item_count(&self) -> (r: u64)
        ensures
            r == self.item_count_spec(),
    {
        self.item_count
    }
}

impl Context {
    /// Adds the `/mapping` entries to the database, each as a `Merch` under
    /// its id, in order. Returns the ids that were already present when their
    /// entry was added (the entry then replaces what was there).
    pub fn insert_mapping(&mut self, mapping: Vec<MappingItem>) -> (duplicates: Vec<u64>)
        ensures
            final(self).items@ == with_mapping(old(self).items@, mapping@),
            duplicates@ == mapping_duplicates(old(self).items@, mapping@),
    {
        let ghost m0 = self.items@;
        let ghost s = mapping@;
        let mut duplicates: Vec<u64> = Vec::new();
        for item in it: mapping.into_iter()
            invariant
                it.seq() == s,
                self.items@ == with_mapping(m0, s.take(it.index())),
                duplicates@ == mapping_duplicates(m0, s.take(it.index())),
        {
            let ghost i = it.index();
            proof {
                assert(s.take(i + 1).drop_last() =~= s.take(i));
                assert(s.take(i + 1).last() == item);
            }
            let merch = Merch::from(item);
            let id = merch.id;
            let previous = self.items.insert(id, merch);
            if previous.is_some() {
                duplicates.push(id);
            }
        }
        proof {
            assert(s.take(s.len() as int) =~= s);
        }
        duplicates
    }

    /// Counts the items and averages their store values.
    ///
    /// The database must not be empty, and the sum of the store values must
    /// fit in a `u64`.
    pub fn compute_stats(&self) -> (stats: Stats)
        requires
            self.items@.len() > 0,
            value_sum(self.items@) <= u64::MAX,
        ensures
            stats.item_count_spec() == self.items@.len(),
            stats.avg_value_spec() == value_sum(self.items@) / (self.items@.len() as int),
    {
        let ghost m = self.items@;
        let ghost f = add_value(m);
        let n = self.items.len();
        let mut sum: u128 = 0;
        let mut count: u128 = 0;
        let ghost mut done: Set<u64> = Set::empty();
        proof {
            vstd::set::fold::lemma_fold_empty(0int, f);
        }
        for k in it: self.items.keys()
            invariant
                m == self.items@,
                f == add_value(m),
                vstd::set::fold::is_fun_commutative(f),
                it.seq().unref().to_set() == m.dom(),
                it.seq().no_duplicates(),
                count == it.index(),
                it.index() <= it.seq().len(),
                it.seq().len() == m.dom().len(),
                m.dom().len() <= usize::MAX,
                sum <= count * 0xffff_ffff_ffff_ffffu128,
                done == it.seq().unref().take(it.index()).to_set(),
                sum == done.fold(0int, f),
                count == m.dom().len() ==> done == m.dom(),
        {
            let ghost prefix = it.seq().unref().take(it.index());
            let v = self.items.get(k).unwrap().value;
            proof {
                assert(it.seq().unref().take(it.index() + 1) == prefix.push(*k));
                assert(!prefix.to_set().contains(*k)) by {
                    if prefix.to_set().contains(*k) {
                        let j = choose|j: int| 0 <= j < prefix.len() && prefix[j] == *k;
                        assert(it.seq()[j] == it.seq()[it.index()]);
                    }
                }
                prefix.lemma_push_to_set_commute(*k);
                vstd::set::fold::lemma_fold_insert(prefix.to_set(), 0int, f, *k);
            }
            sum = sum + v as u128;
            count = count + 1;
            proof {
                done = done.insert(*k);
                if count == m.dom().len() {
                    assert(it.seq().unref().take(it.index() + 1) =~= it.seq().unref());
                }
            }
        }
        Stats { avg_value: (sum / (n as u128)) as u64, item_count: n as u64 }
    }
}

} // verus!
