use linkscope::counters;
use linkscope::{count, disable, enable, CounterSnapshot, Profiler};

#[test]
fn count_is_disabled_when_profiler_is_off() {
    let mut profiler = Profiler::new();
    disable(&mut profiler);
    counters::reset(&mut profiler);
    count(&mut profiler, "file_opens", 7);
    assert!(counters::snapshot(&profiler).is_empty());
}

#[test]
fn count_accumulates_known_counter() {
    let mut profiler = Profiler::new();
    enable(&mut profiler);
    count(&mut profiler, "file_opens", 7);
    count(&mut profiler, "file_opens", 5);
    assert_eq!(counters::snapshot(&profiler)[0].value, 12);
    disable(&mut profiler);
}

#[test]
fn count_records_new_counter_names() {
    let mut profiler = Profiler::new();
    enable(&mut profiler);
    count(&mut profiler, "previously_unknown", 9);
    assert!(
        counters::snapshot(&profiler)
            .iter()
            .any(|counter| counter.name == "previously_unknown" && counter.value == 9)
    );
    disable(&mut profiler);
}

#[test]
fn count_saturates_at_the_maximum() {
    let mut profiler = Profiler::new();
    enable(&mut profiler);
    count(&mut profiler, "big", u64::MAX - 1);
    count(&mut profiler, "big", 5);
    assert_eq!(counters::snapshot(&profiler)[0].value, u64::MAX);
}

#[test]
fn count_leaves_other_counters_alone() {
    let mut profiler = Profiler::new();
    enable(&mut profiler);
    count(&mut profiler, "a", 1);
    count(&mut profiler, "b", 2);
    count(&mut profiler, "a", 3);
    let counters = counters::snapshot(&profiler);
    assert_eq!(
        counters,
        vec![
            CounterSnapshot { name: "a".to_string(), value: 4 },
            CounterSnapshot { name: "b".to_string(), value: 2 },
        ]
    );
}

#[test]
fn counter_report_skips_zero_counters_and_pads_names() {
    let counters = vec![
        CounterSnapshot { name: "zero".to_string(), value: 0 },
        CounterSnapshot { name: "file_opens".to_string(), value: 12 },
    ];
    let lines = counters::report(&counters);
    assert_eq!(
        lines,
        vec![
            "\u{2500}\u{2500} counters \u{2500}\u{2500}".to_string(),
            format!("  {:<22} {}", "file_opens", 12),
        ]
    );
}

#[test]
fn counter_report_is_empty_when_all_counters_are_zero() {
    let counters = vec![CounterSnapshot { name: "zero".to_string(), value: 0 }];
    assert!(counters::report(&counters).is_empty());
    assert!(counters::report(&Vec::new()).is_empty());
}

#[test]
fn reset_clears_counters() {
    let mut profiler = Profiler::new();
    enable(&mut profiler);
    count(&mut profiler, "a", 1);
    counters::reset(&mut profiler);
    assert!(counters::snapshot(&profiler).is_empty());
}

#[test]
fn counters_after_a_sequence_are_distinct_names_in_first_use_order_with_saturating_sums() {
    let mut profiler = Profiler::new();
    enable(&mut profiler);
    let calls: [(&str, u64); 6] = [("b", 2), ("a", 1), ("b", u64::MAX), ("c", 0), ("a", 4), ("b", 1)];
    for (name, n) in calls {
        count(&mut profiler, name, n);
    }
    assert_eq!(
        counters::snapshot(&profiler),
        vec![
            CounterSnapshot { name: "b".to_string(), value: u64::MAX },
            CounterSnapshot { name: "a".to_string(), value: 5 },
            CounterSnapshot { name: "c".to_string(), value: 0 },
        ]
    );
}
