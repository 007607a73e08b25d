use linkscope::fmt::{fmt_ns, human, rate};
use linkscope::report::render;
use linkscope::trace_render::trace_tree_from_snapshot;
use linkscope::{FieldSnapshot, PhaseSnapshot, Snapshot, TraceSnapshot};

fn trace(label: &str, seq: u64, depth: usize, is_event: bool, thread: &str) -> TraceSnapshot {
    TraceSnapshot {
        label: label.to_string(),
        file: "src/deep/dir/phase.rs".to_string(),
        line: 7,
        thread: thread.to_string(),
        depth,
        nanos: 2_000_000,
        enter_seq: seq,
        is_event,
        detail: String::new(),
        fields: vec![],
        stack: String::new(),
    }
}

const HEADER: &str = "\n\u{2500}\u{2500} linkscope --trace (call flow) \u{2500}\u{2500}\u{2500}\u{2500}\u{2500}\u{2500}\u{2500}\u{2500}\u{2500}\u{2500}\u{2500}\u{2500}\u{2500}\u{2500}\u{2500}\u{2500}\u{2500}\u{2500}\u{2500}\u{2500}\u{2500}\u{2500}\u{2500}\u{2500}\u{2500}\u{2500}";

#[test]
fn trace_tree_is_empty_for_an_empty_trace() {
    assert!(trace_tree_from_snapshot(&Vec::new()).is_empty());
}

#[test]
fn trace_tree_lists_nodes_in_sequence_order_with_indent() {
    let mut event = trace("ev", 1, 1, true, "ThreadId(1)");
    event.detail = "why".to_string();
    event.fields = vec![
        FieldSnapshot { name: "a".to_string(), value: "1".to_string() },
        FieldSnapshot { name: "b".to_string(), value: "x".to_string() },
    ];
    let nodes = vec![event, trace("top", 0, 0, false, "ThreadId(1)")];
    let lines = trace_tree_from_snapshot(&nodes);
    assert_eq!(lines.len(), 4);
    assert_eq!(lines[0], HEADER);
    assert_eq!(lines[1], format!("top {:>9}  (phase.rs:7)", "2ms"));
    assert_eq!(lines[2], "  \u{2022} ev: why [a=1 b=x]  (phase.rs:7)");
    assert_eq!(lines[3], "\u{2500}".repeat(59));
}

#[test]
fn trace_tree_shows_threads_when_more_than_one_occurs() {
    let nodes = vec![trace("a", 0, 0, true, "ThreadId(1)"), trace("b", 1, 0, true, "ThreadId(2)")];
    let lines = trace_tree_from_snapshot(&nodes);
    assert_eq!(lines[1], "\u{2022} a [ThreadId(1)]  (phase.rs:7)");
    assert_eq!(lines[2], "\u{2022} b [ThreadId(2)]  (phase.rs:7)");
}

#[test]
fn trace_tree_prints_at_most_thirty_two_stack_lines() {
    let mut node = trace("s", 0, 1, true, "ThreadId(1)");
    node.file = "plain.rs".to_string();
    let stack: Vec<String> = (0..40).map(|i| format!("frame{i}")).collect();
    node.stack = stack.join("\r\n") + "\n";
    let lines = trace_tree_from_snapshot(&vec![node]);
    assert_eq!(lines.len(), 1 + 1 + 32 + 1);
    assert_eq!(lines[1], "  \u{2022} s  (plain.rs:7)");
    assert_eq!(lines[2], "      \u{21b3} frame0");
    assert_eq!(lines[33], "      \u{21b3} frame31");
}

#[test]
fn trace_tree_stack_lines_follow_str_lines() {
    let mut node = trace("s", 0, 0, true, "ThreadId(1)");
    node.stack = "one\n\ntwo\r".to_string();
    let lines = trace_tree_from_snapshot(&vec![node.clone()]);
    let expected: Vec<String> = node.stack.lines().map(|l| format!("    \u{21b3} {l}")).collect();
    assert_eq!(lines[2..lines.len() - 1].to_vec(), expected);
}

#[test]
fn human_readable_sizes() {
    assert_eq!(human(0), "0B");
    assert_eq!(human(1023), "1023B");
    assert_eq!(human(1024), "1.0KiB");
    assert_eq!(human(1536), "1.5KiB");
    assert_eq!(human(5 * 1024 * 1024 + 1024 * 1024 / 2), "5.5MiB");
    assert_eq!(human(3 << 30), "3.0GiB");
    assert_eq!(human(1 << 40), "1.0TiB");
    assert_eq!(human(u64::MAX), "16777215.9TiB");
}

#[test]
fn durations_and_rates() {
    assert_eq!(fmt_ns(1_234_567), "1ms");
    assert_eq!(rate(0, 0, 0), "-");
    assert_eq!(rate(1024, 0, 1_000_000_000), "1.0KiB/s");
    assert_eq!(rate(0, 50, 500_000_000), "100/s");
    assert_eq!(rate(0, 0, 10), "-");
}

#[test]
fn report_table_is_absent_without_wall_time() {
    let snapshot = Snapshot::default();
    assert!(render(&snapshot).is_none());
}

#[test]
fn report_table_rows_and_untimed_remainder() {
    let mut snapshot = Snapshot::default();
    snapshot.total_nanos = 10_000_000;
    snapshot.phases = vec![
        PhaseSnapshot { name: "load".to_string(), nanos: 4_000_000, spans: 2, bytes: 2048, items: 0 },
        PhaseSnapshot { name: "emit".to_string(), nanos: 1_000_000, spans: 1, bytes: 0, items: 10 },
    ];
    let table = render(&snapshot).expect("table");
    assert_eq!(table.total_nanos, 10_000_000);
    assert_eq!(table.total_wall, "10ms");
    assert_eq!(table.other_nanos, 5_000_000);
    assert_eq!(table.other_wall, "5ms");
    assert_eq!(table.rows.len(), 2);
    assert_eq!(table.rows[0].name, "load");
    assert_eq!(table.rows[0].wall, "4ms");
    assert_eq!(table.rows[0].bytes, "2.0KiB");
    assert_eq!(table.rows[0].rate, "500.0KiB/s");
    assert_eq!(table.rows[1].rate, "10000/s");
    assert_eq!(table.rows[1].items, 10);
}

#[test]
fn report_untimed_remainder_saturates() {
    let mut snapshot = Snapshot::default();
    snapshot.total_nanos = 1;
    snapshot.phases = vec![PhaseSnapshot { name: "p".to_string(), nanos: 5, spans: 1, bytes: 0, items: 0 }];
    assert_eq!(render(&snapshot).expect("table").other_nanos, 0);
}

#[test]
fn report_table_is_absent_without_wall_time_whatever_the_phases_hold() {
    let mut snapshot = Snapshot::default();
    snapshot.phases = vec![
        PhaseSnapshot { name: "a".to_string(), nanos: u128::MAX, spans: 1, bytes: 0, items: 0 },
        PhaseSnapshot { name: "b".to_string(), nanos: u128::MAX, spans: 1, bytes: 0, items: 0 },
    ];
    assert!(render(&snapshot).is_none());
}
