//! Rendering a profile as a Mermaid flowchart: one node per record in record
//! order, and an edge from each record to the span that encloses it.
use vstd::prelude::*;
use vstd::string::*;
use std::collections::HashMap;
use crate::fmt::{human_text, nanos_text, push_human, push_nanos};
use crate::order::{is_stable_order, lemma_stable_order_exists, stable_order, stable_order_of};
use crate::profile::{
    lemma_distinct_no_duplicates, location_key, location_keys, node_location, profile_of_nodes,
    record_of_node, thread_ids, Field, FieldValue, Profile, Record, TraceNode,
};
use crate::text::{
    dec_text, escape_text, hex_text, join, push_char, push_dec, push_escaped, push_hex,
    push_signed, signed_text,
};

verus! {

/// The text of each string of a sequence.
pub open spec fn views(lines: Seq<String>) -> Seq<Seq<char>> {
    lines.map_values(|s: String| s@)
}

/// How a field value is shown: text as it is, counts and signed values in decimal,
/// byte counts in human-readable form, hexadecimal values and addresses with `0x`,
/// and ranges as `start..end/length`.
pub open spec fn field_value_text(v: FieldValue) -> Seq<char> {
    match v {
        FieldValue::Text(s) => s@,
        FieldValue::Count(n) => dec_text(n as nat),
        FieldValue::Signed(n) => signed_text(n as int),
        FieldValue::Bytes(n) => human_text(n as nat),
        FieldValue::Hex(n) => hex_text(n as nat),
        FieldValue::Addr(n) => hex_text(n as nat),
        FieldValue::ByteRange { start, len } => range_text(start, len),
        FieldValue::AddrRange { start, len } => range_text(start, len),
    }
}

/// A range as `0xstart..0xend/length`, its end saturating at `u64::MAX`.
pub open spec fn range_text(start: u64, len: u64) -> Seq<char> {
    let end: nat = if start + len > u64::MAX { u64::MAX as nat } else { (start + len) as nat };
    hex_text(start as nat) + ".."@ + hex_text(end) + "/"@ + human_text(len as nat)
}

/// A field as `name=value`.
pub open spec fn field_line(f: Field) -> Seq<char> {
    f.name@ + "="@ + field_value_text(f.value)
}

/// The lines of a list of fields.
pub open spec fn field_lines(fields: Seq<Field>) -> Seq<Seq<char>> {
    fields.map_values(|f: Field| field_line(f))
}

/// The `source=file:line` line of a record, when its source index is in the table.
pub open spec fn source_lines(p: Profile, source: usize) -> Seq<Seq<char>> {
    if source < p.source_locations@.len() {
        let loc = p.source_locations@[source as int];
        seq!["source="@ + loc.file@ + ":"@ + dec_text(loc.line as nat)]
    } else {
        Seq::empty()
    }
}

/// The lines of a record's label, before escaping: kind and label, the duration of
/// a span or the detail of an event (when not empty), the call site, the fields.
pub open spec fn label_lines(p: Profile, r: Record) -> Seq<Seq<char>> {
    match r {
        Record::Span { label, source, nanos, fields, .. } => seq![
            "span: "@ + label@,
            "time="@ + nanos_text(nanos as nat),
        ] + source_lines(p, source) + field_lines(fields@),
        Record::Event { label, detail, source, fields, .. } => seq!["event: "@ + label@] + (if detail@.len()
            == 0 {
            Seq::<Seq<char>>::empty()
        } else {
            seq!["detail="@ + detail@]
        }) + source_lines(p, source) + field_lines(fields@),
    }
}

/// A record's label: its lines escaped and joined by `<br/>`.
pub open spec fn label_text(p: Profile, r: Record) -> Seq<char> {
    join(label_lines(p, r).map_values(|l: Seq<char>| escape_text(l)), "<br/>"@)
}

/// The node line of a record: a box for a span, a stadium for an event.
pub open spec fn node_text(p: Profile, r: Record) -> Seq<char> {
    if r.is_span() {
        "    R"@ + dec_text(r.spec_id() as nat) + "[\""@ + label_text(p, r) + "\"]\n"@
    } else {
        "    R"@ + dec_text(r.spec_id() as nat) + "([\""@ + label_text(p, r) + "\"])\n"@
    }
}

/// The records of a profile, stably sorted by identifier.
pub open spec fn sorted_records_of(p: Profile) -> Seq<Record> {
    stable_order(p.records@.map_values(|r: Record| r.spec_id())).map_values(
        |i: usize| p.records@[i as int],
    )
}

/// The span open at depth `e` of thread `t` just before `recs[j]`: the last span of
/// that thread before it at depth at most `e`, when that depth is exactly `e`.
pub open spec fn open_span(recs: Seq<Record>, j: int, t: usize, e: int) -> Option<u64>
    decreases j,
{
    if j <= 0 || j > recs.len() {
        None
    } else {
        let r = recs[j - 1];
        if r.is_span() && r.spec_thread() == t && r.spec_depth() <= e {
            if r.spec_depth() == e {
                Some(r.spec_id())
            } else {
                None
            }
        } else {
            open_span(recs, j - 1, t, e)
        }
    }
}

/// The parent of `recs[j]`: the span open one level above it on its thread.
pub open spec fn parent_of(recs: Seq<Record>, j: int) -> Option<u64> {
    let r = recs[j];
    if r.spec_depth() == 0 {
        None
    } else {
        open_span(recs, j, r.spec_thread(), r.spec_depth() - 1)
    }
}

/// The span open at depth `e` of thread `t` before `recs[j]` is an earlier span of
/// that thread at that depth, and no span of that thread between them is at depth
/// `e` or shallower.
pub proof fn law_open_span_is_enclosing(recs: Seq<Record>, j: int, t: usize, e: int)
    requires
        0 <= j <= recs.len(),
        open_span(recs, j, t, e) is Some,
    ensures
        exists|i: int|
            0 <= i < j && (#[trigger] recs[i]).is_span() && recs[i].spec_thread() == t
                && recs[i].spec_depth() == e && recs[i].spec_id() == open_span(recs, j, t, e)->0
                && forall|k: int|
                i < k < j && (#[trigger] recs[k]).is_span() && recs[k].spec_thread() == t
                    ==> recs[k].spec_depth() > e,
    decreases j,
{
    let r = recs[j - 1];
    if r.is_span() && r.spec_thread() == t && r.spec_depth() <= e {
        assert(recs[j - 1].is_span());
    } else {
        law_open_span_is_enclosing(recs, j - 1, t, e);
        let i = choose|i: int|
            0 <= i < j - 1 && (#[trigger] recs[i]).is_span() && recs[i].spec_thread() == t
                && recs[i].spec_depth() == e && recs[i].spec_id() == open_span(recs, j - 1, t, e)->0
                && forall|k: int|
                i < k < j - 1 && (#[trigger] recs[k]).is_span() && recs[k].spec_thread() == t
                    ==> recs[k].spec_depth() > e;
        assert(recs[i].is_span());
    }
}

/// A span stays open at its depth on its thread until a later span of that thread
/// at the same depth or shallower: records of other threads, events, and deeper
/// spans of the same thread leave it open.
pub proof fn law_open_span_complete(recs: Seq<Record>, i: int, j: int, t: usize, e: int)
    requires
        0 <= i < j <= recs.len(),
        recs[i].is_span(),
        recs[i].spec_thread() == t,
        recs[i].spec_depth() == e,
        forall|k: int|
            i < k < j && (#[trigger] recs[k]).is_span() && recs[k].spec_thread() == t ==> recs[k].spec_depth() > e,
    ensures
        open_span(recs, j, t, e) == Some(recs[i].spec_id()),
    decreases j,
{
    if j > i + 1 {
        law_open_span_complete(recs, i, j - 1, t, e);
        let r = recs[j - 1];
        if r.is_span() && r.spec_thread() == t {
            assert(r.spec_depth() > e);
        }
    }
}

/// Every record below the top level whose enclosing span is still open gets the
/// edge from that span: the latest earlier span of its thread one level up, when
/// no span of that thread between them is at that level or shallower.
pub proof fn law_parent_complete(recs: Seq<Record>, i: int, j: int)
    requires
        0 <= i < j < recs.len(),
        recs[i].is_span(),
        recs[i].spec_thread() == recs[j].spec_thread(),
        recs[i].spec_depth() + 1 == recs[j].spec_depth(),
        forall|k: int|
            i < k < j && (#[trigger] recs[k]).is_span() && recs[k].spec_thread() == recs[j].spec_thread()
                ==> recs[k].spec_depth() > recs[i].spec_depth(),
    ensures
        parent_of(recs, j) == Some(recs[i].spec_id()),
        edge_text(recs, j) == "    R"@ + dec_text(recs[i].spec_id() as nat) + " --> R"@ + dec_text(
            recs[j].spec_id() as nat,
        ) + "\n"@,
{
    law_open_span_complete(recs, i, j, recs[j].spec_thread(), recs[i].spec_depth() as int);
}

/// The fields of a record, whichever kind it is.
pub open spec fn record_fields(r: Record) -> Seq<Field> {
    match r {
        Record::Span { fields, .. } => fields@,
        Record::Event { fields, .. } => fields@,
    }
}

/// A record's label lines are its kind-and-label line, the duration of a span or
/// the detail of an event (when not empty), the call-site line when the source
/// index is in the table, and then one `name=value` line for every field, in order.
pub proof fn law_label_lines(p: Profile, r: Record)
    ensures
        ({
            let lines = label_lines(p, r);
            let fields = record_fields(r);
            let site: int = if r.spec_source() < p.source_locations@.len() { 1 } else { 0 };
            let head: int = match r {
                Record::Span { .. } => 2,
                Record::Event { detail, .. } => if detail@.len() == 0 { 1 } else { 2 },
            };
            &&& lines.len() == head + site + fields.len()
            &&& lines[0] == match r {
                Record::Span { label, .. } => "span: "@ + label@,
                Record::Event { label, .. } => "event: "@ + label@,
            }
            &&& site == 1 ==> lines[head] == "source="@ + p.source_locations@[r.spec_source() as int].file@
                + ":"@ + dec_text(p.source_locations@[r.spec_source() as int].line as nat)
            &&& forall|k: int|
                0 <= k < fields.len() ==> #[trigger] lines[head + site + k] == fields[k].name@ + "="@
                    + field_value_text(fields[k].value)
        }),
{
}

/// Every edge of a flowchart comes from an earlier span of the same thread, one
/// level shallower than the record it leads to.
pub proof fn law_parent_is_enclosing_span(recs: Seq<Record>, j: int)
    requires
        0 <= j < recs.len(),
        parent_of(recs, j) is Some,
    ensures
        exists|i: int|
            0 <= i < j && (#[trigger] recs[i]).is_span() && recs[i].spec_thread() == recs[j].spec_thread()
                && recs[i].spec_depth() + 1 == recs[j].spec_depth() && recs[i].spec_id()
                == parent_of(recs, j)->0,
{
    law_open_span_is_enclosing(recs, j, recs[j].spec_thread(), recs[j].spec_depth() - 1);
}

/// The edge line into `recs[j]`, when it has a parent.
pub open spec fn edge_text(recs: Seq<Record>, j: int) -> Seq<char> {
    match parent_of(recs, j) {
        Some(parent) => "    R"@ + dec_text(parent as nat) + " --> R"@ + dec_text(
            recs[j].spec_id() as nat,
        ) + "\n"@,
        None => Seq::empty(),
    }
}

/// The edge lines of the first `n` records.
pub open spec fn edges_text(recs: Seq<Record>, n: int) -> Seq<char>
    decreases n,
{
    if n <= 0 {
        Seq::empty()
    } else {
        edges_text(recs, n - 1) + edge_text(recs, n - 1)
    }
}

/// The node lines of the first `n` records.
pub open spec fn nodes_text(p: Profile, recs: Seq<Record>, n: int) -> Seq<char>
    decreases n,
{
    if n <= 0 {
        Seq::empty()
    } else {
        nodes_text(p, recs, n - 1) + node_text(p, recs[n - 1])
    }
}

/// No span sits at the deepest representable depth (the edge computation keeps
/// one stack slot per depth, up to and including each span's depth).
pub open spec fn spans_bounded(p: Profile) -> bool {
    forall|i: int| 0 <= i < p.records@.len() && (#[trigger] p.records@[i]).is_span() ==> p.records@[i].spec_depth() < usize::MAX
}

/// The Mermaid flowchart of a profile.
pub open spec fn flowchart_text(p: Profile) -> Seq<char> {
    if p.records@.len() == 0 {
        "flowchart TD\n"@ + "    empty[\"No profile records\"]\n"@
    } else {
        let recs = sorted_records_of(p);
        "flowchart TD\n"@ + nodes_text(p, recs, recs.len() as int) + edges_text(recs, recs.len() as int)
    }
}

/// The flowchart of a profile in a fenced `mermaid` Markdown block.
pub open spec fn markdown_text(p: Profile) -> Seq<char> {
    "```mermaid\n"@ + flowchart_text(p) + "```\n"@
}

/// Two sequences of records agree on what the edges of a chart depend on.
pub open spec fn same_shape(a: Seq<Record>, b: Seq<Record>) -> bool {
    &&& a.len() == b.len()
    &&& forall|i: int|
        0 <= i < a.len() ==> {
            &&& (#[trigger] a[i]).spec_id() == b[i].spec_id()
            &&& a[i].is_span() == b[i].is_span()
            &&& a[i].spec_thread() == b[i].spec_thread()
            &&& a[i].spec_depth() == b[i].spec_depth()
        }
}

proof fn lemma_open_span_same(a: Seq<Record>, b: Seq<Record>, j: int, t: usize, e: int)
    requires
        same_shape(a, b),
    ensures
        open_span(a, j, t, e) == open_span(b, j, t, e),
    decreases j,
{
    if 0 < j <= a.len() {
        assert(a[j - 1].spec_id() == b[j - 1].spec_id());
        lemma_open_span_same(a, b, j - 1, t, e);
    }
}

proof fn lemma_edges_same(a: Seq<Record>, b: Seq<Record>, n: int)
    requires
        same_shape(a, b),
        n <= a.len(),
    ensures
        edges_text(a, n) == edges_text(b, n),
    decreases n,
{
    if n > 0 {
        lemma_edges_same(a, b, n - 1);
        let j = n - 1;
        assert(a[j].spec_id() == b[j].spec_id());
        lemma_open_span_same(a, b, j, a[j].spec_thread(), a[j].spec_depth() - 1);
    }
}

proof fn lemma_nodes_same(p: Profile, a: Seq<Record>, q: Profile, b: Seq<Record>, n: int)
    requires
        n <= a.len(),
        a.len() == b.len(),
        forall|i: int| 0 <= i < a.len() ==> node_text(p, #[trigger] a[i]) == node_text(q, b[i]),
    ensures
        nodes_text(p, a, n) == nodes_text(q, b, n),
    decreases n,
{
    if n > 0 {
        lemma_nodes_same(p, a, q, b, n - 1);
        assert(node_text(p, a[n - 1]) == node_text(q, b[n - 1]));
    }
}

proof fn lemma_node_text_same(p: Profile, r: Record, q: Profile, s: Record, n: TraceNode)
    requires
        record_of_node(p, r, n),
        record_of_node(q, s, n),
    ensures
        node_text(p, r) == node_text(q, s),
{
    let lp = p.source_locations@[r.spec_source() as int];
    let lq = q.source_locations@[s.spec_source() as int];
    assert(location_key(lp) == location_key(lq));
    assert(source_lines(p, r.spec_source()) == source_lines(q, s.spec_source()));
    assert(label_lines(p, r) == label_lines(q, s));
}

/// The chart of a profile depends only on what the profile of a trace fixes: any
/// two profiles of the same trace nodes have the same Mermaid Markdown.
pub proof fn law_markdown_determined(p: Profile, q: Profile, nodes: Seq<TraceNode>)
    requires
        profile_of_nodes(p, nodes),
        profile_of_nodes(q, nodes),
    ensures
        markdown_text(p) == markdown_text(q),
{
    lemma_distinct_no_duplicates(nodes.map_values(|n: TraceNode| n.thread@));
    let kp = p.records@.map_values(|r: Record| r.spec_id());
    let kq = q.records@.map_values(|r: Record| r.spec_id());
    assert forall|i: int| 0 <= i < nodes.len() implies {
        &&& (#[trigger] p.records@[i]).spec_id() == q.records@[i].spec_id()
        &&& p.records@[i].is_span() == q.records@[i].is_span()
        &&& p.records@[i].spec_thread() == q.records@[i].spec_thread()
        &&& p.records@[i].spec_depth() == q.records@[i].spec_depth()
        &&& node_text(p, p.records@[i]) == node_text(q, q.records@[i])
    } by {
        let r = p.records@[i];
        let s = q.records@[i];
        assert(record_of_node(p, r, nodes[i]));
        assert(record_of_node(q, s, nodes[i]));
        lemma_node_text_same(p, r, q, s, nodes[i]);
        assert(thread_ids(p)[r.spec_thread() as int] == nodes[i].thread@);
        assert(thread_ids(q)[s.spec_thread() as int] == nodes[i].thread@);
    }
    assert(kp =~= kq);
    if p.records@.len() > 0 {
        assert(kp.len() == p.records.len());
        lemma_stable_order_exists(kp);
        let order = stable_order(kp);
        assert(is_stable_order(kp, order));
        let a = order.map_values(|i: usize| p.records@[i as int]);
        let b = order.map_values(|i: usize| q.records@[i as int]);
        assert(a == sorted_records_of(p));
        assert(b == sorted_records_of(q));
        assert forall|k: int| 0 <= k < a.len() implies node_text(p, #[trigger] a[k]) == node_text(q, b[k]) by {
            assert(order[k] < kp.len());
        }
        assert(same_shape(a, b)) by {
            assert forall|k: int| 0 <= k < a.len() implies {
                &&& (#[trigger] a[k]).spec_id() == b[k].spec_id()
                &&& a[k].is_span() == b[k].is_span()
                &&& a[k].spec_thread() == b[k].spec_thread()
                &&& a[k].spec_depth() == b[k].spec_depth()
            } by {
                assert(order[k] < kp.len());
            }
        }
        lemma_nodes_same(p, a, q, b, a.len() as int);
        lemma_edges_same(a, b, a.len() as int);
    }
}

impl Profile {
    /// The profile's flowchart in a fenced `mermaid` Markdown code block.
    pub fn to_mermaid_markdown(&self) -> (r: String)
        requires
            spans_bounded(*self),
        ensures
            r@ == markdown_text(*self),
    {
        let mut r = String::new();
        r.append("```mermaid\n");
        let chart = self.to_mermaid_flowchart();
        r.append(chart.as_str());
        r.append("```\n");
        assert(r@ =~= markdown_text(*self));
        r
    }

    /// The profile as a Mermaid flowchart.
    pub fn to_mermaid_flowchart(&self) -> (r: String)
        requires
            spans_bounded(*self),
        ensures
            r@ == flowchart_text(*self),
    {
        profile_to_flowchart(self)
    }
}

fn profile_to_flowchart(profile: &Profile) -> (output: String)
    requires
        spans_bounded(*profile),
    ensures
        output@ == flowchart_text(*profile),
{
    let mut output = String::new();
    output.append("flowchart TD\n");
    if profile.records.len() == 0 {
        output.append("    empty[\"No profile records\"]\n");
        assert(output@ =~= flowchart_text(*profile));
        return output;
    }
    let order = sorted_records(profile);
    let ghost recs = sorted_records_of(*profile);
    let ghost head = output@;
    for k in 0..order.len()
        invariant
            order@ == stable_order(profile.records@.map_values(|r: Record| r.spec_id())),
            order.len() == profile.records.len(),
            forall|i: int| 0 <= i < order.len() ==> #[trigger] order@[i] < profile.records.len(),
            recs == sorted_records_of(*profile),
            output@ == head + nodes_text(*profile, recs, k as int),
    {
        assert(recs[k as int] == profile.records@[order@[k as int] as int]);
        push_node(&mut output, profile, &profile.records[order[k]]);
        assert(output@ =~= head + nodes_text(*profile, recs, k + 1));
    }
    push_edges(&mut output, profile, &order);
    assert(output@ =~= flowchart_text(*profile));
    output
}

/// The positions of a profile's records, stably sorted by record identifier.
fn sorted_records(profile: &Profile) -> (order: Vec<usize>)
    ensures
        order@ == stable_order(profile.records@.map_values(|r: Record| r.spec_id())),
        order.len() == profile.records.len(),
        forall|i: int| 0 <= i < order.len() ==> #[trigger] order@[i] < profile.records.len(),
{
    let mut ids: Vec<u64> = Vec::new();
    for i in 0..profile.records.len()
        invariant
            ids@ == profile.records@.take(i as int).map_values(|r: Record| r.spec_id()),
    {
        ids.push(record_id(&profile.records[i]));
        assert(ids@ =~= profile.records@.take(i + 1).map_values(|r: Record| r.spec_id()));
    }
    assert(profile.records@.take(profile.records.len() as int) =~= profile.records@);
    let order = stable_order_of(&ids);
    order
}

fn push_node(output: &mut String, profile: &Profile, record: &Record)
    ensures
        final(output)@ == old(output)@ + node_text(*profile, *record),
{
    output.append("    R");
    push_dec(output, record_id(record) as u128);
    match record {
        Record::Span { .. } => output.append("[\""),
        Record::Event { .. } => output.append("([\""),
    }
    let label = record_label(profile, record);
    output.append(label.as_str());
    match record {
        Record::Span { .. } => output.append("\"]\n"),
        Record::Event { .. } => output.append("\"])\n"),
    }
    assert(output@ =~= old(output)@ + node_text(*profile, *record));
}

fn push_edges(output: &mut String, profile: &Profile, order: &Vec<usize>)
    requires
        spans_bounded(*profile),
        order.len() == profile.records.len(),
        forall|i: int| 0 <= i < order.len() ==> #[trigger] order@[i] < profile.records.len(),
    ensures
        final(output)@ == old(output)@ + edges_text(
            order@.map_values(|i: usize| profile.records@[i as int]),
            order.len() as int,
        ),
{
    broadcast use vstd::std_specs::hash::group_hash_axioms;

    let ghost recs = order@.map_values(|i: usize| profile.records@[i as int]);
    let mut stacks: HashMap<usize, Vec<Option<u64>>> = HashMap::new();
    assert(stacks_hold(recs, 0, stacks@));
    for j in 0..order.len()
        invariant
            spans_bounded(*profile),
            order.len() == profile.records.len(),
            forall|i: int| 0 <= i < order.len() ==> #[trigger] order@[i] < profile.records.len(),
            recs == order@.map_values(|i: usize| profile.records@[i as int]),
            stacks_hold(recs, j as int, stacks@),
            output@ == old(output)@ + edges_text(recs, j as int),
    {
        let record = &profile.records[order[j]];
        assert(*record == recs[j as int]);
        assert(profile.records@[order@[j as int] as int] == *record);
        let depth = record_depth(record);
        let thread = record_thread(record);
        let parent = parent_id(&stacks, thread, depth, Ghost(recs), Ghost(j as int));
        let ghost before = output@;
        match parent {
            Some(parent) => {
                output.append("    R");
                push_dec(output, parent as u128);
                output.append(" --> R");
                push_dec(output, record_id(record) as u128);
                output.append("\n");
            },
            None => {},
        }
        assert(output@ =~= before + edge_text(recs, j as int));
        if record_is_span(record) {
            open_span_at(&mut stacks, thread, depth, record_id(record), Ghost(recs), Ghost(j as int));
        } else {
            proof { lemma_event_keeps_stacks(recs, j as int, stacks@); }
        }
    }
}

/// The entry of a stack at depth `e`, or `None` beyond its end.
pub open spec fn stack_entry(stack: Seq<Option<u64>>, e: int) -> Option<u64> {
    if 0 <= e < stack.len() {
        stack[e]
    } else {
        None
    }
}

/// The entry at depth `e` of the stack of thread `t`, `None` for a thread without one.
pub open spec fn thread_entry(stacks: Map<usize, Vec<Option<u64>>>, t: usize, e: int) -> Option<u64> {
    if stacks.contains_key(t) {
        stack_entry(stacks[t]@, e)
    } else {
        None
    }
}

/// The per-thread stacks hold, for each thread and depth, the span open there just
/// before `recs[j]`.
pub open spec fn stacks_hold(recs: Seq<Record>, j: int, stacks: Map<usize, Vec<Option<u64>>>) -> bool {
    &&& 0 <= j <= recs.len()
    &&& forall|t: usize, e: int|
        #![trigger thread_entry(stacks, t, e)]
        #![trigger open_span(recs, j, t, e)]
        thread_entry(stacks, t, e) == open_span(recs, j, t, e)
}

proof fn lemma_event_keeps_stacks(recs: Seq<Record>, j: int, stacks: Map<usize, Vec<Option<u64>>>)
    requires
        0 <= j < recs.len(),
        !recs[j].is_span(),
        stacks_hold(recs, j, stacks),
    ensures
        stacks_hold(recs, j + 1, stacks),
{
    assert forall|t: usize, e: int| #[trigger] open_span(recs, j + 1, t, e) == open_span(recs, j, t, e) by {}
    assert forall|t: usize, e: int| #[trigger] thread_entry(stacks, t, e) == open_span(recs, j + 1, t, e) by {
        assert(thread_entry(stacks, t, e) == open_span(recs, j, t, e));
    }
}

/// The parent of a record at `depth` on `thread`, from the per-thread stacks.
fn parent_id(
    stacks: &HashMap<usize, Vec<Option<u64>>>,
    thread: usize,
    depth: usize,
    Ghost(recs): Ghost<Seq<Record>>,
    Ghost(j): Ghost<int>,
) -> (parent: Option<u64>)
    requires
        0 <= j < recs.len(),
        stacks_hold(recs, j, stacks@),
        recs[j].spec_thread() == thread,
        recs[j].spec_depth() == depth,
    ensures
        parent == parent_of(recs, j),
{
    broadcast use vstd::std_specs::hash::group_hash_axioms;

    if depth == 0 {
        return None;
    }
    assert(thread_entry(stacks@, thread, depth - 1) == open_span(recs, j, thread, depth - 1));
    match stacks.get(&thread) {
        Some(stack) => {
            if depth - 1 < stack.len() {
                stack[depth - 1]
            } else {
                None
            }
        },
        None => None,
    }
}

/// Records that a span opens at `depth` on `thread`: it becomes the entry at that
/// depth, and the entries deeper than it are closed.
fn open_span_at(
    stacks: &mut HashMap<usize, Vec<Option<u64>>>,
    thread: usize,
    depth: usize,
    id: u64,
    Ghost(recs): Ghost<Seq<Record>>,
    Ghost(j): Ghost<int>,
)
    requires
        0 <= j < recs.len(),
        stacks_hold(recs, j, old(stacks)@),
        recs[j].is_span(),
        recs[j].spec_thread() == thread,
        recs[j].spec_depth() == depth,
        recs[j].spec_id() == id,
        depth < usize::MAX,
    ensures
        stacks_hold(recs, j + 1, final(stacks)@),
{
    broadcast use vstd::std_specs::hash::group_hash_axioms;

    let ghost before = stacks@;
    let mut stack = match stacks.remove(&thread) {
        Some(stack) => stack,
        None => Vec::new(),
    };
    let ghost old_stack = stack@;
    assert(forall|e: int| #[trigger] stack_entry(old_stack, e) == thread_entry(before, thread, e));
    while stack.len() <= depth
        invariant
            depth < usize::MAX,
            forall|e: int| #[trigger] stack_entry(stack@, e) == stack_entry(old_stack, e),
        decreases depth + 1 - stack.len(),
    {
        let ghost prev = stack@;
        stack.push(None);
        assert forall|e: int| #[trigger] stack_entry(stack@, e) == stack_entry(old_stack, e) by {
            assert(stack_entry(prev, e) == stack_entry(old_stack, e));
        }
    }
    let ghost mid = stack@;
    stack.set(depth, Some(id));
    stack.truncate(depth + 1);
    let ghost fresh = stack@;
    assert(fresh =~= mid.update(depth as int, Some(id)).subrange(0, depth + 1));
    stacks.insert(thread, stack);
    proof {
        let after = stacks@;
        assert(after == before.remove(thread).insert(thread, after[thread]));
        assert(after[thread]@ == fresh);
        assert forall|t: usize, e: int| #[trigger] thread_entry(after, t, e) == open_span(recs, j + 1, t, e) by {
            assert(thread_entry(before, t, e) == open_span(recs, j, t, e));
            if t == thread {
                assert(stack_entry(mid, e) == stack_entry(old_stack, e));
                if 0 <= e < depth {
                    assert(fresh[e] == mid[e]);
                }
            } else {
                assert(after.contains_key(t) == before.contains_key(t));
                if before.contains_key(t) {
                    assert(after[t] == before[t]);
                }
            }
        }
    }
}

/// The label of a record: its lines, each escaped, joined by `<br/>`.
fn record_label(profile: &Profile, record: &Record) -> (r: String)
    ensures
        r@ == label_text(*profile, *record),
{
    let mut lines: Vec<String> = Vec::new();
    match record {
        Record::Span { label, source, nanos, fields, .. } => {
            let mut first = String::new();
            first.append("span: ");
            first.append(label.as_str());
            lines.push(first);
            let mut time = String::new();
            time.append("time=");
            let wall = format_nanos(*nanos);
            time.append(wall.as_str());
            lines.push(time);
            let ghost head = views(lines@);
            push_source_line(&mut lines, profile, *source);
            push_field_lines(&mut lines, fields);
            assert(views(lines@) =~= label_lines(*profile, *record)) by {
                assert(head =~= seq!["span: "@ + label@, "time="@ + nanos_text(*nanos as nat)]);
            }
        },
        Record::Event { label, detail, source, fields, .. } => {
            let mut first = String::new();
            first.append("event: ");
            first.append(label.as_str());
            lines.push(first);
            if !detail.as_str().is_empty() {
                let mut line = String::new();
                line.append("detail=");
                line.append(detail.as_str());
                lines.push(line);
            }
            let ghost head = views(lines@);
            push_source_line(&mut lines, profile, *source);
            push_field_lines(&mut lines, fields);
            assert(views(lines@) =~= label_lines(*profile, *record)) by {
                if detail@.len() == 0 {
                    assert(head =~= seq!["event: "@ + label@]);
                } else {
                    assert(head =~= seq!["event: "@ + label@, "detail="@ + detail@]);
                }
            }
        },
    }
    join_escaped(&lines)
}

/// The lines escaped and joined by `<br/>`.
fn join_escaped(lines: &Vec<String>) -> (r: String)
    ensures
        r@ == join(views(lines@).map_values(|l: Seq<char>| escape_text(l)), "<br/>"@),
{
    let ghost parts = views(lines@).map_values(|l: Seq<char>| escape_text(l));
    let mut r = String::new();
    for i in 0..lines.len()
        invariant
            parts == views(lines@).map_values(|l: Seq<char>| escape_text(l)),
            parts.len() == lines.len(),
            r@ == join(parts.take(i as int), "<br/>"@),
    {
        assert(parts[i as int] == escape_text(lines@[i as int]@));
        if i > 0 {
            r.append("<br/>");
        }
        let escaped = escape_label(lines[i].as_str());
        r.append(escaped.as_str());
        proof {
            let next = parts.take(i + 1);
            assert(next.drop_last() =~= parts.take(i as int));
            if i == 0 {
                assert(join(next, "<br/>"@) == next[0]);
                assert(r@ =~= join(next, "<br/>"@));
            } else {
                assert(r@ =~= join(next, "<br/>"@));
            }
        }
    }
    assert(parts.take(lines.len() as int) =~= parts);
    r
}

fn push_source_line(lines: &mut Vec<String>, profile: &Profile, source: usize)
    ensures
        views(final(lines)@) == views(old(lines)@) + source_lines(*profile, source),
{
    if source < profile.source_locations.len() {
        let location = &profile.source_locations[source];
        let mut line = String::new();
        line.append("source=");
        line.append(location.file.as_str());
        line.append(":");
        push_dec(&mut line, location.line as u128);
        lines.push(line);
        assert(views(lines@) =~= views(old(lines)@) + source_lines(*profile, source));
    } else {
        assert(views(lines@) =~= views(old(lines)@) + source_lines(*profile, source));
    }
}

fn push_field_lines(lines: &mut Vec<String>, fields: &Vec<Field>)
    ensures
        views(final(lines)@) == views(old(lines)@) + field_lines(fields@),
{
    for i in 0..fields.len()
        invariant
            views(lines@) == views(old(lines)@) + field_lines(fields@.take(i as int)),
    {
        let mut line = String::new();
        line.append(fields[i].name.as_str());
        line.append("=");
        let value = format_field_value(&fields[i].value);
        line.append(value.as_str());
        assert(line@ =~= field_line(fields@[i as int]));
        let ghost prev = lines@;
        lines.push(line);
        assert(views(lines@) =~= views(prev).push(field_line(fields@[i as int])));
        assert(field_lines(fields@.take(i + 1)) =~= field_lines(fields@.take(i as int)).push(
            field_line(fields@[i as int]),
        ));
        assert(views(lines@) =~= views(old(lines)@) + field_lines(fields@.take(i + 1)));
    }
    assert(fields@.take(fields.len() as int) =~= fields@);
}

/// How a field value is shown in a label.
pub fn format_field_value(value: &FieldValue) -> (r: String)
    ensures
        r@ == field_value_text(*value),
{
    let mut r = String::new();
    match value {
        FieldValue::Text(text) => r.append(text.as_str()),
        FieldValue::Count(n) => push_dec(&mut r, *n as u128),
        FieldValue::Signed(n) => push_signed(&mut r, *n),
        FieldValue::Bytes(n) => push_human(&mut r, *n as u128),
        FieldValue::Hex(n) => push_hex(&mut r, *n),
        FieldValue::Addr(n) => push_hex(&mut r, *n),
        FieldValue::ByteRange { start, len } => {
            let text = format_range(*start, *len);
            r.append(text.as_str());
        },
        FieldValue::AddrRange { start, len } => {
            let text = format_range(*start, *len);
            r.append(text.as_str());
        },
    }
    assert(r@ =~= field_value_text(*value));
    r
}

/// A range as `0xstart..0xend/length`, its end saturating at `u64::MAX`.
pub fn format_range(start: u64, len: u64) -> (r: String)
    ensures
        r@ == range_text(start, len),
{
    let end = start.saturating_add(len);
    let mut r = String::new();
    push_hex(&mut r, start);
    r.append("..");
    push_hex(&mut r, end);
    r.append("/");
    push_human(&mut r, len as u128);
    assert(r@ =~= range_text(start, len));
    r
}

/// A duration in nanoseconds as whole milliseconds, microseconds or nanoseconds.
pub fn format_nanos(nanos: u128) -> (r: String)
    ensures
        r@ == nanos_text(nanos as nat),
{
    let mut r = String::new();
    push_nanos(&mut r, nanos);
    assert(r@ =~= nanos_text(nanos as nat));
    r
}

/// A label with its characters escaped for a Mermaid node.
pub fn escape_label(value: &str) -> (r: String)
    ensures
        r@ == escape_text(value@),
{
    let mut r = String::new();
    push_escaped(&mut r, value);
    assert(r@ =~= escape_text(value@));
    r
}

fn record_id(record: &Record) -> (id: u64)
    ensures
        id == record.spec_id(),
{
    match record {
        Record::Span { id, .. } => *id,
        Record::Event { id, .. } => *id,
    }
}

fn record_thread(record: &Record) -> (thread: usize)
    ensures
        thread == record.spec_thread(),
{
    match record {
        Record::Span { thread, .. } => *thread,
        Record::Event { thread, .. } => *thread,
    }
}

fn record_depth(record: &Record) -> (depth: usize)
    ensures
        depth == record.spec_depth(),
{
    match record {
        Record::Span { depth, .. } => *depth,
        Record::Event { depth, .. } => *depth,
    }
}

fn record_is_span(record: &Record) -> (span: bool)
    ensures
        span == record.is_span(),
{
    match record {
        Record::Span { .. } => true,
        Record::Event { .. } => false,
    }
}

} // verus!
