use linkscope::{
    count, enable, reset_all, snapshot, snapshot_disabled, Field, FieldValue, PhaseSnapshot, Profiler, RssSnapshot,
    Snapshot, TraceNode,
};

fn trace_node(label: &str, seq: u64, is_event: bool, detail: &str, fields: Vec<Field>) -> TraceNode {
    TraceNode {
        label: label.to_string(),
        file: "tests/snapshot.rs".to_string(),
        line: 20,
        column: 1,
        thread: "ThreadId(1)".to_string(),
        depth: 0,
        nanos: 5,
        enter_seq: seq,
        is_event,
        detail: detail.to_string(),
        fields,
        stack: String::new(),
    }
}

#[test]
fn snapshot_includes_dynamic_counters_and_trace_events() {
    let mut profiler = Profiler::new();
    enable(&mut profiler);
    count(&mut profiler, "custom_counter", 7);
    profiler.phases.push(PhaseSnapshot {
        name: "phase_with_items".to_string(),
        nanos: 0,
        spans: 0,
        bytes: 0,
        items: 3,
    });
    profiler.phases.push(PhaseSnapshot {
        name: "explicit_phase".to_string(),
        nanos: 40,
        spans: 1,
        bytes: 0,
        items: 0,
    });
    profiler.traces.push(trace_node(
        "trace_scope",
        0,
        false,
        "",
        vec![Field { name: "items".to_string(), value: FieldValue::Count(3) }],
    ));
    profiler.traces.push(trace_node("trace_event", 1, true, "detail", vec![]));

    let snapshot = snapshot(&profiler);

    assert!(
        snapshot
            .counters
            .iter()
            .any(|counter| counter.name == "custom_counter" && counter.value == 7)
    );
    assert!(
        snapshot
            .phases
            .iter()
            .any(|phase| phase.name == "explicit_phase" && phase.spans == 1)
    );
    assert!(
        snapshot
            .phases
            .iter()
            .any(|phase| phase.name == "phase_with_items" && phase.items == 3)
    );
    assert!(
        snapshot
            .traces
            .iter()
            .any(|node| node.label == "trace_scope")
    );
    assert!(
        snapshot
            .traces
            .iter()
            .any(|node| node.label == "trace_event" && node.detail == "detail")
    );
}

#[test]
fn snapshot_renders_trace_field_values() {
    let mut profiler = Profiler::new();
    enable(&mut profiler);
    profiler.traces.push(trace_node(
        "t",
        0,
        false,
        "",
        vec![
            Field { name: "size".to_string(), value: FieldValue::Bytes(4096) },
            Field { name: "at".to_string(), value: FieldValue::Hex(255) },
        ],
    ));
    let snapshot = snapshot(&profiler);
    let fields: Vec<(String, String)> =
        snapshot.traces[0].fields.iter().map(|f| (f.name.clone(), f.value.clone())).collect();
    assert_eq!(
        fields,
        vec![("size".to_string(), "4.0KiB".to_string()), ("at".to_string(), "0xff".to_string())]
    );
    assert_eq!(snapshot.traces[0].thread, "ThreadId(1)");
    assert_eq!(snapshot.traces[0].file, "tests/snapshot.rs");
}

#[test]
fn snapshot_of_disabled_profiler_is_empty() {
    let mut profiler = Profiler::new();
    profiler.total_nanos = 99;
    profiler.rss.push(RssSnapshot { label: "start".to_string(), current_kb: 1, peak_kb: 2 });
    let snapshot = snapshot(&profiler);
    assert_eq!(snapshot.total_nanos, 0);
    assert!(snapshot.rss.is_empty());
    let disabled = snapshot_disabled();
    assert_eq!(disabled.total_nanos, 0);
    assert!(disabled.phases.is_empty() && disabled.counters.is_empty() && disabled.traces.is_empty());
    let default = Snapshot::default();
    assert!(default.rss.is_empty());
}

#[test]
fn snapshot_copies_totals_and_checkpoints() {
    let mut profiler = Profiler::new();
    enable(&mut profiler);
    profiler.total_nanos = 1234;
    profiler.rss.push(RssSnapshot { label: "start".to_string(), current_kb: 1, peak_kb: 2 });
    let snapshot = snapshot(&profiler);
    assert_eq!(snapshot.total_nanos, 1234);
    assert_eq!(snapshot.rss.len(), 1);
    assert_eq!(snapshot.rss[0].label, "start");
    assert_eq!(snapshot.rss[0].peak_kb, 2);
}

#[test]
fn reset_all_forgets_counters_checkpoints_and_trace() {
    let mut profiler = Profiler::new();
    enable(&mut profiler);
    count(&mut profiler, "a", 1);
    profiler.rss.push(RssSnapshot { label: "x".to_string(), current_kb: 1, peak_kb: 1 });
    profiler.traces.push(trace_node("t", 0, true, "", vec![]));
    profiler.phases.push(PhaseSnapshot { name: "p".to_string(), nanos: 1, spans: 1, bytes: 0, items: 0 });
    reset_all(&mut profiler);
    let snapshot = snapshot(&profiler);
    assert!(snapshot.counters.is_empty() && snapshot.rss.is_empty() && snapshot.traces.is_empty());
    assert_eq!(snapshot.phases.len(), 1);
}

#[test]
fn snapshot_and_profile_describe_the_same_trace() {
    let mut profiler = Profiler::new();
    enable(&mut profiler);
    profiler.traces.push(trace_node("outer", 4, false, "", vec![]));
    profiler.traces.push(trace_node("inner", 2, true, "x", vec![]));
    let snapshot = snapshot(&profiler);
    let profile = linkscope::profile(&profiler);
    assert_eq!(snapshot.traces.len(), profile.records.len());
    for (trace, record) in snapshot.traces.iter().zip(profile.records.iter()) {
        match record {
            linkscope::Record::Span { id, label, source, .. } => {
                assert!(!trace.is_event);
                assert_eq!(*id, trace.enter_seq);
                assert_eq!(label, &trace.label);
                assert_eq!(profile.source_locations[*source].line, trace.line);
            }
            linkscope::Record::Event { id, label, source, .. } => {
                assert!(trace.is_event);
                assert_eq!(*id, trace.enter_seq);
                assert_eq!(label, &trace.label);
                assert_eq!(profile.source_locations[*source].line, trace.line);
            }
        }
    }
}
