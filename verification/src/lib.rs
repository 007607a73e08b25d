//! `linkscope`: an in-process phase profiler for linker and compiler pipelines.
//!
//! The profiler's state is a [`Profiler`] value: whether it is enabled, the phase
//! totals, counters, memory checkpoints and trace nodes recorded so far. The
//! functions of this crate read and update that value; a program keeps one for
//! the whole process and reports it when it ends.
use vstd::prelude::*;

pub mod counters;
pub mod fmt;
pub mod mermaid;
pub mod model;
pub mod order;
pub mod profile;
pub mod report;
pub mod text;
pub mod trace_render;

pub use counters::count;
use model::{copy_phases, copy_rss, is_empty_snapshot};
use mermaid::{field_value_text, format_field_value, markdown_text, spans_bounded};
use profile::{from_trace_nodes, no_duplicates, profile_of_nodes, location_keys, thread_ids};
pub use model::{
    snapshot_disabled, CounterSnapshot, FieldSnapshot, PhaseSnapshot, RssSnapshot, Snapshot,
    TraceSnapshot,
};
pub use profile::{Field, FieldValue, Profile, Record, SourceLocation, ThreadInfo, TraceNode};

verus! {

/// What the profiler has recorded so far, and whether it records at all.
#[derive(Debug)]
pub struct Profiler {
    pub enabled: bool,
    pub total_nanos: u128,
    pub phases: Vec<PhaseSnapshot>,
    pub counters: Vec<CounterSnapshot>,
    pub rss: Vec<RssSnapshot>,
    pub traces: Vec<TraceNode>,
}

impl Profiler {
    /// A disabled profiler that has recorded nothing.
    pub fn new() -> (p: Self)
        ensures
            !p.enabled,
            p.total_nanos == 0,
            p.phases@.len() == 0,
            p.counters@.len() == 0,
            p.rss@.len() == 0,
            p.traces@.len() == 0,
    {
        Profiler {
            enabled: false,
            total_nanos: 0,
            phases: Vec::new(),
            counters: Vec::new(),
            rss: Vec::new(),
            traces: Vec::new(),
        }
    }
}

/// Turns recording on.
pub fn enable(profiler: &mut Profiler)
    ensures
        final(profiler).enabled,
        final(profiler).total_nanos == old(profiler).total_nanos,
        final(profiler).phases == old(profiler).phases,
        final(profiler).counters == old(profiler).counters,
        final(profiler).rss == old(profiler).rss,
        final(profiler).traces == old(profiler).traces,
{
    profiler.enabled = true;
}

/// Turns recording off; what was recorded stays.
pub fn disable(profiler: &mut Profiler)
    ensures
        !final(profiler).enabled,
        final(profiler).total_nanos == old(profiler).total_nanos,
        final(profiler).phases == old(profiler).phases,
        final(profiler).counters == old(profiler).counters,
        final(profiler).rss == old(profiler).rss,
        final(profiler).traces == old(profiler).traces,
{
    profiler.enabled = false;
}

/// Whether the profiler records.
pub fn is_enabled(profiler: &Profiler) -> (r: bool)
    ensures
        r == profiler.enabled,
{
    profiler.enabled
}

/// Forgets the counters, memory checkpoints and trace recorded so far.
pub fn reset_all(profiler: &mut Profiler)
    ensures
        final(profiler).counters@.len() == 0,
        final(profiler).rss@.len() == 0,
        final(profiler).traces@.len() == 0,
        final(profiler).enabled == old(profiler).enabled,
        final(profiler).total_nanos == old(profiler).total_nanos,
        final(profiler).phases == old(profiler).phases,
{
    counters::reset(profiler);
    profiler.rss.clear();
    profiler.traces.clear();
}

/// `s` is the flattened form of trace node `n`: the same label, call site file and
/// line, thread, depth, duration, sequence number, kind, detail and stack, and its
/// fields with their values rendered as labels show them.
pub open spec fn trace_snapshot_of(n: TraceNode, s: TraceSnapshot) -> bool {
    &&& s.label@ == n.label@
    &&& s.file@ == n.file@
    &&& s.line == n.line
    &&& s.thread@ == n.thread@
    &&& s.depth == n.depth
    &&& s.nanos == n.nanos
    &&& s.enter_seq == n.enter_seq
    &&& s.is_event == n.is_event
    &&& s.detail@ == n.detail@
    &&& s.stack@ == n.stack@
    &&& s.fields@.len() == n.fields@.len()
    &&& forall|i: int|
        0 <= i < s.fields@.len() ==> {
            &&& (#[trigger] s.fields@[i]).name@ == n.fields@[i].name@
            &&& s.fields@[i].value@ == field_value_text(n.fields@[i].value)
        }
}

/// `s` is the snapshot of `p`: empty while `p` is disabled, otherwise its total
/// time, phases, counters and memory checkpoints as recorded and its trace nodes
/// flattened one for one.
pub open spec fn snapshot_of(p: Profiler, s: Snapshot) -> bool {
    if !p.enabled {
        is_empty_snapshot(s)
    } else {
        &&& s.total_nanos == p.total_nanos
        &&& s.phases@ == p.phases@
        &&& s.counters@ == p.counters@
        &&& s.rss@ == p.rss@
        &&& s.traces@.len() == p.traces@.len()
        &&& forall|i: int| 0 <= i < s.traces@.len() ==> trace_snapshot_of(p.traces@[i], #[trigger] s.traces@[i])
    }
}

/// Everything recorded so far, or an empty snapshot while the profiler is disabled.
pub fn snapshot(profiler: &Profiler) -> (s: Snapshot)
    ensures
        snapshot_of(*profiler, s),
{
    if !is_enabled(profiler) {
        return Snapshot::default();
    }
    let mut traces: Vec<TraceSnapshot> = Vec::new();
    for i in 0..profiler.traces.len()
        invariant
            traces@.len() == i,
            forall|k: int| 0 <= k < i ==> trace_snapshot_of(profiler.traces@[k], #[trigger] traces@[k]),
    {
        let node = &profiler.traces[i];
        let mut fields: Vec<FieldSnapshot> = Vec::new();
        for f in 0..node.fields.len()
            invariant
                fields@.len() == f,
                f <= node.fields@.len(),
                forall|q: int| 0 <= q < f ==> {
                    &&& (#[trigger] fields@[q]).name@ == node.fields@[q].name@
                    &&& fields@[q].value@ == field_value_text(node.fields@[q].value)
                },
        {
            let field = &node.fields[f];
            fields.push(FieldSnapshot { name: field.name.clone(), value: format_field_value(&field.value) });
        }
        traces.push(TraceSnapshot {
            label: node.label.clone(),
            file: node.file.clone(),
            line: node.line,
            thread: node.thread.clone(),
            depth: node.depth,
            nanos: node.nanos,
            enter_seq: node.enter_seq,
            is_event: node.is_event,
            detail: node.detail.clone(),
            fields,
            stack: node.stack.clone(),
        });
    }
    Snapshot {
        total_nanos: profiler.total_nanos,
        phases: copy_phases(&profiler.phases),
        counters: counters::snapshot(profiler),
        rss: copy_rss(&profiler.rss),
        traces,
    }
}

/// The structured profile of the trace recorded so far, or an empty profile while
/// the profiler is disabled.
pub fn profile(profiler: &Profiler) -> (p: Profile)
    ensures
        !profiler.enabled ==> p.source_locations@.len() == 0 && p.threads@.len() == 0
            && p.records@.len() == 0,
        profiler.enabled ==> profile_of_nodes(p, profiler.traces@),
        profiler.enabled ==> no_duplicates(location_keys(p)) && no_duplicates(thread_ids(p)),
{
    if !is_enabled(profiler) {
        return Profile::default();
    }
    from_trace_nodes(&profiler.traces)
}

/// The snapshot and the profile of one enabled profiler describe the same trace:
/// entry `i` of the snapshot's trace and record `i` of the profile come from the
/// same node, with the same sequence number, kind, label, depth and call-site line.
pub proof fn law_snapshot_and_profile_agree(p: Profiler, s: Snapshot, prof: Profile)
    requires
        p.enabled,
        snapshot_of(p, s),
        profile_of_nodes(prof, p.traces@),
    ensures
        s.traces@.len() == prof.records@.len(),
        forall|i: int|
            0 <= i < s.traces@.len() ==> {
                &&& (#[trigger] s.traces@[i]).enter_seq == prof.records@[i].spec_id()
                &&& s.traces@[i].is_event == !prof.records@[i].is_span()
                &&& s.traces@[i].depth == prof.records@[i].spec_depth()
                &&& s.traces@[i].line == prof.source_locations@[prof.records@[i].spec_source() as int].line
                &&& s.traces@[i].label@ == match prof.records@[i] {
                    Record::Span { label, .. } => label@,
                    Record::Event { label, .. } => label@,
                }
            },
{
    assert forall|i: int| 0 <= i < s.traces@.len() implies {
        &&& (#[trigger] s.traces@[i]).enter_seq == prof.records@[i].spec_id()
        &&& s.traces@[i].is_event == !prof.records@[i].is_span()
        &&& s.traces@[i].depth == prof.records@[i].spec_depth()
        &&& s.traces@[i].line == prof.source_locations@[prof.records@[i].spec_source() as int].line
        &&& s.traces@[i].label@ == match prof.records@[i] {
            Record::Span { label, .. } => label@,
            Record::Event { label, .. } => label@,
        }
    } by {
        assert(trace_snapshot_of(p.traces@[i], s.traces@[i]));
        assert(profile::record_of_node(prof, prof.records@[i], p.traces@[i]));
    }
}

/// No recorded span sits at the deepest representable depth.
pub open spec fn trace_depths_bounded(p: Profiler) -> bool {
    forall|i: int|
        0 <= i < p.traces@.len() && !(#[trigger] p.traces@[i]).is_event ==> p.traces@[i].depth
            < usize::MAX
}

/// The recorded trace as a Mermaid flowchart in a fenced Markdown block.
pub fn to_mermaid_markdown(profiler: &Profiler) -> (r: String)
    requires
        profiler.enabled ==> trace_depths_bounded(*profiler),
    ensures
        !profiler.enabled ==> r@ == "```mermaid\n"@ + ("flowchart TD\n"@
            + "    empty[\"No profile records\"]\n"@) + "```\n"@,
        forall|p: Profile|
            profiler.enabled && #[trigger] profile_of_nodes(p, profiler.traces@) ==> r@
                == markdown_text(p),
{
    let p = profile(profiler);
    assert(spans_bounded(p)) by {
        if profiler.enabled {
            assert forall|i: int| 0 <= i < p.records@.len() && (#[trigger] p.records@[i]).is_span() implies p.records@[i].spec_depth() < usize::MAX by {
                assert(profile::record_of_node(p, p.records@[i], profiler.traces@[i]));
            }
        }
    }
    let r = p.to_mermaid_markdown();
    proof {
        assert forall|q: Profile|
            profiler.enabled && #[trigger] profile_of_nodes(q, profiler.traces@) implies r@ == markdown_text(q) by {
            mermaid::law_markdown_determined(p, q, profiler.traces@);
        }
    }
    r
}

} // verus!
