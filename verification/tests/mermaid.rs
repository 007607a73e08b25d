use linkscope::mermaid::{escape_label, format_field_value, format_nanos, format_range};
use linkscope::{enable, to_mermaid_markdown, Field, FieldValue, Profile, Profiler, Record, TraceNode};

fn node(label: &str, depth: usize, seq: u64, is_event: bool, fields: Vec<Field>) -> TraceNode {
    TraceNode {
        label: label.to_string(),
        file: "tests/mermaid.rs".to_string(),
        line: 10 + seq as u32,
        column: 5,
        thread: "ThreadId(1)".to_string(),
        depth,
        nanos: 1_500,
        enter_seq: seq,
        is_event,
        detail: String::new(),
        fields,
        stack: String::new(),
    }
}

fn text(name: &str, value: &str) -> Field {
    Field { name: name.to_string(), value: FieldValue::Text(value.to_string()) }
}

fn count_field(name: &str, value: u64) -> Field {
    Field { name: name.to_string(), value: FieldValue::Count(value) }
}

#[test]
fn mermaid_markdown_exports_nested_trace_graph() {
    let mut profiler = Profiler::new();
    enable(&mut profiler);
    profiler.traces = vec![
        node("outer_compile", 0, 0, false, vec![count_field("items", 2)]),
        node("expand_macro", 1, 1, false, vec![]),
        node("derive_graph", 2, 2, true, vec![text("derive", "Foo::Bar")]),
    ];

    let markdown = linkscope::profile(&profiler).to_mermaid_markdown();

    assert!(markdown.starts_with("```mermaid\nflowchart TD\n"));
    assert!(markdown.contains("R0[\"span: outer_compile"));
    assert!(markdown.contains("items=2"));
    assert!(markdown.contains("R1[\"span: expand_macro"));
    assert!(markdown.contains("R2([\"event: derive_graph"));
    assert!(markdown.contains("derive=Foo::Bar"));
    assert!(markdown.contains("    R0 --> R1\n"));
    assert!(markdown.contains("    R1 --> R2\n"));
    assert!(markdown.ends_with("```\n"));
}

#[test]
fn mermaid_markdown_escapes_labels_and_handles_empty_profiles() {
    let empty = Profile::default().to_mermaid_markdown();

    assert!(empty.contains("empty[\"No profile records\"]"));

    let mut profiler = Profiler::new();
    enable(&mut profiler);
    profiler.traces = vec![node(
        "macro<derive>",
        0,
        0,
        true,
        vec![text("quoted", "\"Thing\" & [ok]")],
    )];

    let markdown = to_mermaid_markdown(&profiler);

    assert!(markdown.contains("event: macro&lt;derive&gt;"));
    assert!(markdown.contains("quoted='Thing' &amp; [ok]"));
}

#[test]
fn mermaid_flowchart_of_empty_profile_is_exact() {
    assert_eq!(
        Profile::default().to_mermaid_markdown(),
        "```mermaid\nflowchart TD\n    empty[\"No profile records\"]\n```\n"
    );
}

#[test]
fn mermaid_flowchart_is_exact_for_a_small_trace() {
    let mut profiler = Profiler::new();
    enable(&mut profiler);
    let mut event = node("ev", 1, 1, true, vec![]);
    event.detail = "d".to_string();
    profiler.traces = vec![node("top", 0, 0, false, vec![]), event];
    let chart = linkscope::profile(&profiler).to_mermaid_flowchart();
    assert_eq!(
        chart,
        "flowchart TD\n    R0[\"span: top<br/>time=1us<br/>source=tests/mermaid.rs:10\"]\n    R1([\"event: ev<br/>detail=d<br/>source=tests/mermaid.rs:11\"])\n    R0 --> R1\n"
    );
}

#[test]
fn mermaid_disabled_profiler_exports_empty_chart() {
    let mut profiler = Profiler::new();
    profiler.traces = vec![node("top", 0, 0, false, vec![])];
    assert_eq!(
        to_mermaid_markdown(&profiler),
        "```mermaid\nflowchart TD\n    empty[\"No profile records\"]\n```\n"
    );
}

fn record(id: u64, thread: usize, depth: usize, span: bool) -> Record {
    if span {
        Record::Span {
            id,
            label: format!("s{id}"),
            source: 99,
            thread,
            depth,
            nanos: 0,
            fields: vec![],
            stack: String::new(),
        }
    } else {
        Record::Event {
            id,
            label: format!("e{id}"),
            detail: String::new(),
            source: 99,
            thread,
            depth,
            fields: vec![],
            stack: String::new(),
        }
    }
}

#[test]
fn mermaid_edges_follow_record_order_threads_and_closed_spans() {
    // Records out of id order, on two threads, with a span that closes deeper ones.
    let profile = Profile {
        source_locations: vec![],
        threads: vec![],
        records: vec![
            record(3, 0, 1, true),
            record(0, 0, 0, true),
            record(1, 0, 1, true),
            record(2, 1, 1, false),
            record(4, 0, 2, false),
            record(5, 0, 0, true),
            record(6, 0, 2, false),
            record(7, 0, 1, false),
        ],
    };
    let chart = profile.to_mermaid_flowchart();
    let edges: Vec<&str> = chart.lines().filter(|line| line.contains("-->")).collect();
    assert_eq!(edges, vec!["    R0 --> R1", "    R0 --> R3", "    R3 --> R4", "    R5 --> R7"]);
    let nodes: Vec<&str> = chart.lines().filter(|line| line.starts_with("    R") && !line.contains("-->")).collect();
    assert_eq!(nodes.len(), 8);
    assert!(nodes[0].starts_with("    R0[\"span: s0<br/>time=0ns\"]"));
    assert!(nodes[2].starts_with("    R2([\"event: e2\"])"));
}

#[test]
fn mermaid_equal_ids_keep_their_order() {
    let profile = Profile {
        source_locations: vec![],
        threads: vec![],
        records: vec![record(1, 0, 0, false), record(0, 0, 0, true), record(1, 0, 0, true)],
    };
    let chart = profile.to_mermaid_flowchart();
    let nodes: Vec<&str> = chart.lines().skip(1).collect();
    assert_eq!(nodes[0], "    R0[\"span: s0<br/>time=0ns\"]");
    assert_eq!(nodes[1], "    R1([\"event: e1\"])");
    assert_eq!(nodes[2], "    R1[\"span: s1<br/>time=0ns\"]");
}

#[test]
fn format_field_value_renders_each_kind() {
    assert_eq!(format_field_value(&FieldValue::Text("x y".into())), "x y");
    assert_eq!(format_field_value(&FieldValue::Count(3)), "3");
    assert_eq!(format_field_value(&FieldValue::Signed(-5)), "-5");
    assert_eq!(format_field_value(&FieldValue::Signed(i64::MIN)), i64::MIN.to_string());
    assert_eq!(format_field_value(&FieldValue::Hex(0x4000)), "0x4000");
    assert_eq!(format_field_value(&FieldValue::Addr(0)), "0x0");
    assert_eq!(format_field_value(&FieldValue::Bytes(4096)), "4.0KiB");
    assert_eq!(format_field_value(&FieldValue::Bytes(100)), "100B");
    assert_eq!(format_field_value(&FieldValue::ByteRange { start: 0x10, len: 0x20 }), "0x10..0x30/32B");
    assert_eq!(
        format_field_value(&FieldValue::AddrRange { start: u64::MAX, len: 2048 }),
        format!("{:#x}..{:#x}/2.0KiB", u64::MAX, u64::MAX)
    );
}

#[test]
fn format_range_saturates_its_end() {
    assert_eq!(format_range(u64::MAX - 1, 10), format!("{:#x}..{:#x}/10B", u64::MAX - 1, u64::MAX));
}

#[test]
fn format_nanos_picks_the_unit() {
    assert_eq!(format_nanos(999), "999ns");
    assert_eq!(format_nanos(1_000), "1us");
    assert_eq!(format_nanos(999_999), "999us");
    assert_eq!(format_nanos(1_000_000), "1ms");
    assert_eq!(format_nanos(2_500_000_000), "2500ms");
    assert_eq!(format_nanos(0), "0ns");
}

#[test]
fn escape_label_replaces_markup_characters() {
    assert_eq!(escape_label("a&b<c>d\"e`f\ng\rh"), "a&amp;b&lt;c&gt;d'e'f g h");
    assert_eq!(escape_label("plain"), "plain");
}

#[test]
fn mermaid_markdown_of_profiler_matches_markdown_of_its_profile() {
    let mut profiler = Profiler::new();
    enable(&mut profiler);
    let mut second = node("b", 0, 1, false, vec![count_field("n", 1)]);
    second.thread = "ThreadId(2)".to_string();
    profiler.traces = vec![node("a", 0, 3, false, vec![]), second, node("c", 1, 5, true, vec![])];
    assert_eq!(to_mermaid_markdown(&profiler), linkscope::profile(&profiler).to_mermaid_markdown());
}
