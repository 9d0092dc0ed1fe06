use alch_arbitrage::tasks::calculate_arbitrage::{CalculateArbitrageTask, OPPORTUNITY_COUNT};
use alch_arbitrage::tasks::flush_data::FlushDataTask;
use alch_arbitrage::tasks::update_latest::UpdateLatestTask;
use alch_arbitrage::tasks::{Task, TaskKind};
use alch_arbitrage::types::{Context, LatestGEData, LatestResponse, Merch};
use std::cmp::Ordering;
use std::collections::{BTreeMap, HashMap};

fn merch(id: u64, highalch: Option<u64>, high: Option<u64>) -> Merch {
    Merch {
        highalch,
        members: true,
        name: format!("item {}", id),
        id,
        value: id * 3,
        lowalch: Some(1),
        limit: Some(70),
        high,
        high_time: None,
        low: None,
        low_time: None,
    }
}

fn ctx(items: Vec<Merch>) -> Context {
    let mut map = BTreeMap::new();
    for m in items {
        map.insert(m.id, m);
    }
    Context { items: map }
}

fn ge(high: Option<u64>, low: Option<u64>) -> LatestGEData {
    LatestGEData { high, highTime: high.map(|_| 1_700_000_000), low, lowTime: low.map(|_| 1_700_000_050) }
}

#[test]
fn task_timers_and_kinds() {
    let u = Task::UpdateLatest(UpdateLatestTask { timer: 5 });
    let c = Task::CalculateArbitrage(CalculateArbitrageTask { timer: 6 });
    let f = Task::FlushData(FlushDataTask { timer: 7 });
    assert_eq!(u.timer(), 5);
    assert_eq!(c.timer(), 6);
    assert_eq!(f.timer(), 7);
    assert_eq!(u.kind(), TaskKind::UpdateLatest);
    assert_eq!(c.kind(), TaskKind::CalculateArbitrage);
    assert_eq!(f.kind(), TaskKind::FlushData);
    assert_eq!(UpdateLatestTask { timer: 9 }.timer(), 9);
    assert_eq!(CalculateArbitrageTask { timer: 10 }.timer(), 10);
    assert_eq!(FlushDataTask { timer: 11 }.timer(), 11);
}

#[test]
fn rescheduled_is_same_kind_one_period_later() {
    let now = 1_000;
    let u = Task::UpdateLatest(UpdateLatestTask { timer: 0 }).rescheduled(now);
    let c = Task::CalculateArbitrage(CalculateArbitrageTask { timer: 3 }).rescheduled(now);
    let f = Task::FlushData(FlushDataTask { timer: 4 }).rescheduled(now);
    assert_eq!((u.kind(), u.timer()), (TaskKind::UpdateLatest, 1_060));
    assert_eq!((c.kind(), c.timer()), (TaskKind::CalculateArbitrage, 1_030));
    assert_eq!(Task::UpdateLatest(UpdateLatestTask { timer: 0 }).repeat_period(), 60);
    assert_eq!(Task::CalculateArbitrage(CalculateArbitrageTask { timer: 0 }).repeat_period(), 30);
    assert_eq!(Task::FlushData(FlushDataTask { timer: 0 }).repeat_period(), 300);
    let late = Task::FlushData(FlushDataTask { timer: 0 }).rescheduled(u64::MAX - 300);
    assert_eq!(late.timer(), u64::MAX);
    assert_eq!((f.kind(), f.timer()), (TaskKind::FlushData, 1_300));
}

#[test]
fn tasks_compare_by_timer() {
    let u = Task::UpdateLatest(UpdateLatestTask { timer: 5 });
    let c = Task::CalculateArbitrage(CalculateArbitrageTask { timer: 5 });
    let f = Task::FlushData(FlushDataTask { timer: 8 });
    assert!(u == c);
    assert!(u != f);
    assert_eq!(u.partial_cmp(&f), Some(Ordering::Less));
    assert_eq!(f.partial_cmp(&c), Some(Ordering::Greater));
    assert_eq!(c.partial_cmp(&u), Some(Ordering::Equal));
}

#[test]
fn best_opportunities_ranks_by_profit() {
    let c = ctx(vec![
        merch(1, Some(100), Some(90)),
        merch(2, Some(500), Some(100)),
        merch(4, Some(50), Some(80)),
        merch(6, Some(1000), Some(700)),
        merch(7, Some(400), Some(100)),
    ]);
    assert_eq!(CalculateArbitrageTask::best_opportunities(&c, OPPORTUNITY_COUNT), vec![2, 6, 7, 1, 4]);
    assert_eq!(CalculateArbitrageTask::best_opportunities(&c, 3), vec![2, 6, 7]);
    assert_eq!(CalculateArbitrageTask::best_opportunities(&c, 0), Vec::<u64>::new());
}

#[test]
fn best_opportunities_takes_ten_of_many() {
    let items: Vec<Merch> = (1..=25).map(|i| merch(i, Some(1000 + i), Some(1000))).collect();
    let c = ctx(items);
    let best = CalculateArbitrageTask::best_opportunities(&c, OPPORTUNITY_COUNT);
    assert_eq!(best, (16..=25).rev().collect::<Vec<u64>>());
}

#[test]
fn best_opportunities_breaks_ties_by_smaller_id() {
    let c = ctx(vec![merch(1, Some(10), Some(5)), merch(2, Some(10), Some(5)), merch(3, Some(10), Some(5))]);
    assert_eq!(CalculateArbitrageTask::best_opportunities(&c, 2), vec![1, 2]);
    assert_eq!(CalculateArbitrageTask::best_opportunities(&c, 5), vec![1, 2, 3]);
}

#[test]
fn best_opportunities_of_empty_db() {
    let c = ctx(vec![]);
    assert!(CalculateArbitrageTask::best_opportunities(&c, 10).is_empty());
    let one = ctx(vec![merch(8, Some(3), Some(4))]);
    assert_eq!(CalculateArbitrageTask::best_opportunities(&one, 10), vec![8]);
}

#[test]
fn apply_latest_sets_prices_and_reports_unknown_ids() {
    let mut c = ctx(vec![merch(1, Some(100), None), merch(2, Some(200), Some(5))]);
    let mut data = HashMap::new();
    data.insert(1u64, ge(Some(90), Some(80)));
    data.insert(9u64, ge(Some(1), None));
    data.insert(7u64, ge(None, None));
    let latest = LatestResponse { data };
    let mut unknown = UpdateLatestTask::apply_latest(&mut c, &latest);
    unknown.sort();
    assert_eq!(unknown, vec![7, 9]);
    assert_eq!(c.items.len(), 2);
    let one = &c.items[&1];
    assert_eq!((one.high, one.high_time, one.low, one.low_time), (Some(90), Some(1_700_000_000), Some(80), Some(1_700_000_050)));
    assert_eq!(one.arbitrage(), Some(10));
    assert_eq!(one.name, "item 1");
    assert_eq!(one.value, 3);
    let two = &c.items[&2];
    assert_eq!(two.high, Some(5));
}

#[test]
fn apply_latest_twice_is_applying_once() {
    let mut c = ctx(vec![merch(1, Some(100), None), merch(2, Some(200), Some(5))]);
    let mut data = HashMap::new();
    data.insert(2u64, ge(None, Some(3)));
    let latest = LatestResponse { data };
    UpdateLatestTask::apply_latest(&mut c, &latest);
    let once: Vec<(Option<u64>, Option<u64>)> = c.items.values().map(|m| (m.high, m.low)).collect();
    UpdateLatestTask::apply_latest(&mut c, &latest);
    let twice: Vec<(Option<u64>, Option<u64>)> = c.items.values().map(|m| (m.high, m.low)).collect();
    assert_eq!(once, twice);
    assert_eq!(once, vec![(None, None), (None, Some(3))]);
}
