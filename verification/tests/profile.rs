use linkscope::profile::from_trace_nodes;
use linkscope::{enable, profile, Field, FieldValue, Profile, Profiler, Record, TraceNode};

fn node(label: &str, line: u32, thread: &str, seq: u64, is_event: bool, fields: Vec<Field>) -> TraceNode {
    TraceNode {
        label: label.to_string(),
        file: "tests/profile.rs".to_string(),
        line,
        column: 9,
        thread: thread.to_string(),
        depth: 0,
        nanos: 10,
        enter_seq: seq,
        is_event,
        detail: String::new(),
        fields,
        stack: String::new(),
    }
}

fn field(name: &str, value: FieldValue) -> Field {
    Field { name: name.to_string(), value }
}

#[test]
fn profile_records_trace_span_and_event_with_typed_fields() {
    let mut profiler = Profiler::new();
    enable(&mut profiler);
    profiler.traces = vec![
        node(
            "profile_span",
            12,
            "ThreadId(1)",
            0,
            false,
            vec![
                field("items", FieldValue::Count(3)),
                field("bytes", FieldValue::Bytes(4096)),
                field("delta", FieldValue::Signed(-5)),
                field("addr", FieldValue::Hex(0x4000)),
                field("pc", FieldValue::Addr(0x5000)),
                field("range", FieldValue::ByteRange { start: 0x10, len: 0x20 }),
            ],
        ),
        node("profile_event", 22, "ThreadId(1)", 1, true, vec![field("symbol", FieldValue::Text("_start".into()))]),
    ];

    let profile = profile(&profiler);

    assert!(!profile.records.is_empty());
    assert!(!profile.source_locations.is_empty());
    assert!(!profile.threads.is_empty());

    let span = profile
        .records
        .iter()
        .find_map(|record| match record {
            Record::Span { label, fields, .. } if label == "profile_span" => Some(fields),
            Record::Event { .. } => None,
            Record::Span { .. } => None,
        })
        .expect("profile span record exists");
    let event = profile
        .records
        .iter()
        .find_map(|record| match record {
            Record::Event { label, fields, .. } if label == "profile_event" => Some(fields),
            Record::Span { .. } => None,
            Record::Event { .. } => None,
        })
        .expect("profile event record exists");

    assert_eq!(field_value(span, "items"), &FieldValue::Count(3));
    assert_eq!(field_value(span, "bytes"), &FieldValue::Bytes(4096));
    assert_eq!(field_value(span, "delta"), &FieldValue::Signed(-5));
    assert_eq!(field_value(span, "addr"), &FieldValue::Hex(0x4000));
    assert_eq!(field_value(span, "pc"), &FieldValue::Addr(0x5000));
    assert_eq!(
        field_value(span, "range"),
        &FieldValue::ByteRange {
            start: 0x10,
            len: 0x20,
        }
    );
    assert_eq!(
        field_value(event, "symbol"),
        &FieldValue::Text("_start".into())
    );
}

#[test]
fn profile_interns_repeated_sources_and_threads() {
    let mut profiler = Profiler::new();
    enable(&mut profiler);
    profiler.traces = vec![
        node("repeat", 90, "ThreadId(1)", 0, true, vec![]),
        node("repeat", 90, "ThreadId(1)", 1, true, vec![]),
        node("worker", 77, "ThreadId(2)", 2, true, vec![]),
    ];

    let profile = profile(&profiler);
    let repeats = profile
        .records
        .iter()
        .filter_map(|record| match record {
            Record::Event {
                label,
                source,
                thread,
                ..
            } if label == "repeat" => Some((*source, *thread)),
            Record::Span { .. } => None,
            Record::Event { .. } => None,
        })
        .collect::<Vec<_>>();

    assert_eq!(repeats.len(), 2);
    assert_eq!(repeats[0].0, repeats[1].0);
    assert_eq!(repeats[0].1, repeats[1].1);
    assert!(
        profile.source_locations[repeats[0].0]
            .file
            .ends_with("profile.rs")
    );
    assert!(profile.source_locations[repeats[0].0].line > 0);
    assert!(profile.threads.len() >= 2);
}

#[test]
fn profile_tables_hold_each_site_and_thread_once_in_first_use_order() {
    let nodes = vec![
        node("a", 5, "ThreadId(7)", 0, false, vec![]),
        node("b", 6, "ThreadId(3)", 1, true, vec![]),
        node("c", 5, "ThreadId(3)", 2, true, vec![]),
        node("d", 6, "ThreadId(7)", 3, false, vec![]),
    ];
    let profile = from_trace_nodes(&nodes);
    let lines: Vec<u32> = profile.source_locations.iter().map(|l| l.line).collect();
    assert_eq!(lines, vec![5, 6]);
    let threads: Vec<&str> = profile.threads.iter().map(|t| t.debug_id.as_str()).collect();
    assert_eq!(threads, vec!["ThreadId(7)", "ThreadId(3)"]);
    let refs: Vec<(usize, usize)> = profile
        .records
        .iter()
        .map(|r| match r {
            Record::Span { source, thread, .. } | Record::Event { source, thread, .. } => (*source, *thread),
        })
        .collect();
    assert_eq!(refs, vec![(0, 0), (1, 1), (0, 1), (1, 0)]);
}

#[test]
fn profile_of_disabled_profiler_is_empty() {
    let mut profiler = Profiler::new();
    profiler.traces = vec![node("a", 1, "ThreadId(1)", 0, false, vec![])];
    let profile = profile(&profiler);
    assert!(profile.records.is_empty());
    assert!(profile.source_locations.is_empty());
    assert!(profile.threads.is_empty());
    let empty = Profile::default();
    assert!(empty.records.is_empty());
}

#[test]
fn profile_record_keeps_node_details() {
    let mut n = node("ev", 3, "ThreadId(1)", 42, true, vec![]);
    n.detail = "why".to_string();
    n.depth = 2;
    n.stack = "frame".to_string();
    let profile = from_trace_nodes(&vec![n]);
    assert_eq!(
        profile.records,
        vec![Record::Event {
            id: 42,
            label: "ev".to_string(),
            detail: "why".to_string(),
            source: 0,
            thread: 0,
            depth: 2,
            fields: vec![],
            stack: "frame".to_string(),
        }]
    );
}

fn field_value<'a>(fields: &'a [linkscope::Field], name: &str) -> &'a FieldValue {
    fields
        .iter()
        .find(|field| field.name == name)
        .map(|field| &field.value)
        .expect("field exists")
}
