use trie_cache::store_stats::{
    export_store_stats, GaugeRegistry, StatsValue, StoreStatistics, Temperature,
};

fn stat(name: &str, count: i64) -> (String, Vec<StatsValue>) {
    (name.to_string(), vec![StatsValue::Count(count)])
}

#[test]
fn hot_and_cold_statistics_are_exported_apart() {
    let mut gauges = GaugeRegistry::new();
    let hot = StoreStatistics { data: vec![stat("hot.column", 42)] };
    let cold = StoreStatistics { data: vec![stat("cold.column", 52)] };
    assert!(export_store_stats(Some(&hot), Temperature::Hot, &mut gauges));
    assert!(export_store_stats(Some(&cold), Temperature::Cold, &mut gauges));
    assert_eq!(gauges.get(&"hot.column".to_string(), Temperature::Hot), Some(42));
    assert_eq!(gauges.get(&"cold.column".to_string(), Temperature::Cold), Some(52));
    assert_eq!(gauges.get(&"hot.column".to_string(), Temperature::Cold), None);
    assert_eq!(gauges.len(), 2);
}

#[test]
fn missing_statistics_export_nothing() {
    let mut gauges = GaugeRegistry::new();
    assert!(!export_store_stats(None, Temperature::Hot, &mut gauges));
    assert_eq!(gauges.len(), 0);
}

#[test]
fn only_single_counts_become_gauges() {
    let mut gauges = GaugeRegistry::new();
    let stats = StoreStatistics {
        data: vec![
            ("a".to_string(), vec![StatsValue::Sum(3)]),
            ("b".to_string(), vec![StatsValue::Count(1), StatsValue::Count(2)]),
            ("c".to_string(), Vec::new()),
            stat("d", -4),
        ],
    };
    assert!(export_store_stats(Some(&stats), Temperature::Hot, &mut gauges));
    assert_eq!(gauges.len(), 1);
    assert_eq!(gauges.get(&"d".to_string(), Temperature::Hot), Some(-4));
    assert_eq!(gauges.get(&"a".to_string(), Temperature::Hot), None);
}

#[test]
fn later_export_overwrites_gauge() {
    let mut gauges = GaugeRegistry::new();
    let first = StoreStatistics { data: vec![stat("x", 1)] };
    let second = StoreStatistics { data: vec![stat("x", 2)] };
    export_store_stats(Some(&first), Temperature::Cold, &mut gauges);
    export_store_stats(Some(&second), Temperature::Cold, &mut gauges);
    assert_eq!(gauges.get(&"x".to_string(), Temperature::Cold), Some(2));
    assert_eq!(gauges.len(), 1);
}
