use alch_arbitrage::types::{Context, LatestGEData, LatestResponse, MappingItem, Merch};
use alch_arbitrage::urls::{Route, WIKI_ENDPOINT_URL};
use std::cmp::Ordering;
use std::collections::{BTreeMap, HashMap};

fn mapping(id: u64, name: &str, value: u64, highalch: Option<u64>) -> MappingItem {
    MappingItem {
        highalch,
        members: id % 2 == 0,
        name: name.to_string(),
        examine: format!("A {}.", name),
        id,
        value,
        icon: format!("{}.png", name),
        lowalch: highalch.map(|h| h * 2 / 3),
        limit: Some(100),
    }
}

fn merch(id: u64, highalch: Option<u64>, high: Option<u64>) -> Merch {
    Merch {
        highalch,
        members: false,
        name: format!("item {}", id),
        id,
        value: 5,
        lowalch: None,
        limit: None,
        high,
        high_time: None,
        low: None,
        low_time: None,
    }
}

fn ge(high: u64, low: u64) -> LatestGEData {
    LatestGEData { high: Some(high), highTime: Some(1_700_000_000), low: Some(low), lowTime: Some(1_700_000_100) }
}

#[test]
fn endpoints_of_every_route() {
    assert_eq!(Route::Latest.endpoint(), "latest");
    assert_eq!(Route::Mapping.endpoint(), "mapping");
    assert_eq!(Route::FiveMin.endpoint(), "5m");
    assert_eq!(Route::OneHour.endpoint(), "1h");
    assert_eq!(Route::TimeSeries.endpoint(), "timeseries");
}

#[test]
fn resource_url_is_base_followed_by_endpoint() {
    assert_eq!(Route::Latest.resource_url(), "https://prices.runescape.wiki/api/v1/osrs/latest");
    assert_eq!(Route::Mapping.resource_url(), format!("{}mapping", WIKI_ENDPOINT_URL));
}

#[test]
fn routes_have_distinct_urls() {
    let routes = [Route::Latest, Route::Mapping, Route::FiveMin, Route::OneHour, Route::TimeSeries];
    for (i, a) in routes.iter().enumerate() {
        for (j, b) in routes.iter().enumerate() {
            assert_eq!(i == j, a.resource_url() == b.resource_url());
        }
    }
}

#[test]
fn merch_from_mapping_keeps_static_fields_and_has_no_prices() {
    let m = Merch::from(mapping(561, "Nature rune", 372, Some(223)));
    assert_eq!(m.id, 561);
    assert_eq!(m.name, "Nature rune");
    assert_eq!(m.value, 372);
    assert_eq!(m.highalch, Some(223));
    assert_eq!(m.lowalch, Some(148));
    assert_eq!(m.limit, Some(100));
    assert!(!m.members);
    assert_eq!(m.high, None);
    assert_eq!(m.high_time, None);
    assert_eq!(m.low, None);
    assert_eq!(m.low_time, None);
}

#[test]
fn arbitrage_is_highalch_minus_high() {
    assert_eq!(merch(1, Some(1000), Some(900)).arbitrage(), Some(100));
    assert_eq!(merch(1, Some(900), Some(1000)).arbitrage(), Some(-100));
    assert_eq!(merch(1, None, Some(1000)).arbitrage(), None);
    assert_eq!(merch(1, Some(1000), None).arbitrage(), None);
    assert_eq!(merch(1, Some(u64::MAX), Some(0)).arbitrage(), Some(u64::MAX as i128));
}

#[test]
fn merch_compare_by_arbitrage() {
    let a = merch(1, Some(1000), Some(900));
    let b = merch(2, Some(500), Some(400));
    let c = merch(3, Some(500), Some(300));
    let unknown = merch(4, None, None);
    assert!(a == b);
    assert!(a != c);
    assert_eq!(a.partial_cmp(&c), Some(Ordering::Less));
    assert_eq!(c.partial_cmp(&a), Some(Ordering::Greater));
    assert_eq!(a.partial_cmp(&b), Some(Ordering::Equal));
    assert!(a == unknown && unknown == c);
    assert_eq!(unknown.partial_cmp(&a), Some(Ordering::Equal));
    assert!(a < c);
}

#[test]
fn compute_stats_averages_store_values() {
    let mut ctx = Context { items: BTreeMap::new() };
    let mut a = merch(1, None, None);
    a.value = 10;
    let mut b = merch(2, None, None);
    b.value = 20;
    let mut c = merch(3, None, None);
    c.value = 31;
    ctx.items.insert(1, a);
    ctx.items.insert(2, b);
    ctx.items.insert(3, c);
    let stats = ctx.compute_stats();
    assert_eq!(stats.item_count(), 3);
    assert_eq!(stats.avg_value(), 20);
}

#[test]
fn compute_stats_of_one_item() {
    let mut ctx = Context { items: BTreeMap::new() };
    let mut a = merch(7, None, None);
    a.value = u64::MAX;
    ctx.items.insert(7, a);
    let stats = ctx.compute_stats();
    assert_eq!(stats.item_count(), 1);
    assert_eq!(stats.avg_value(), u64::MAX);
}

#[test]
fn insert_mapping_reports_duplicates_and_later_entry_wins() {
    let mut ctx = Context { items: BTreeMap::new() };
    let dups = ctx.insert_mapping(vec![
        mapping(2, "Bronze bar", 8, Some(4)),
        mapping(5, "Iron bar", 28, Some(16)),
        mapping(2, "Bronze bar (new)", 9, Some(5)),
        mapping(2, "Bronze bar (newer)", 10, Some(6)),
    ]);
    assert_eq!(dups, vec![2, 2]);
    assert_eq!(ctx.items.len(), 2);
    assert_eq!(ctx.items[&2].name, "Bronze bar (newer)");
    assert_eq!(ctx.items[&2].value, 10);
    assert_eq!(ctx.items[&5].name, "Iron bar");
}

#[test]
fn insert_mapping_distinct_ids_has_no_duplicates() {
    let mut ctx = Context { items: BTreeMap::new() };
    let dups = ctx.insert_mapping(vec![mapping(1, "a", 1, None), mapping(3, "b", 2, None), mapping(2, "c", 3, None)]);
    assert!(dups.is_empty());
    assert_eq!(ctx.items.len(), 3);
    for (k, m) in ctx.items.iter() {
        assert_eq!(*k, m.id);
    }
}

#[test]
fn insert_mapping_into_filled_db_reports_present_ids() {
    let mut ctx = Context { items: BTreeMap::new() };
    ctx.items.insert(4, merch(4, Some(1), Some(1)));
    let dups = ctx.insert_mapping(vec![mapping(4, "d", 1, None)]);
    assert_eq!(dups, vec![4]);
    assert_eq!(ctx.items[&4].high, None);
}

#[test]
fn latest_response_holds_prices_by_id() {
    let mut data = HashMap::new();
    data.insert(3u64, ge(10, 9));
    let r = LatestResponse { data };
    assert_eq!(r.data[&3].high, Some(10));
    assert_eq!(r.data[&3].lowTime, Some(1_700_000_100));
}

#[test]
fn merch_order_is_transitive_among_known_profits() {
    let a = merch(1, Some(100), Some(90));
    let b = merch(2, Some(100), Some(50));
    let c = merch(3, Some(100), Some(10));
    assert!(a < b && b < c && a < c);
    assert!(c > a);
    assert!(a == a.clone());
    let unknown = merch(4, None, Some(10));
    // With an item of unknown profit in the middle, equality does not chain.
    assert!(a == unknown && unknown == c && a != c);
}
