//! The flat snapshot of everything the profiler recorded.
use vstd::prelude::*;

verus! {

/// Everything the profiler recorded: total wall time, per-phase totals, counters,
/// memory checkpoints and the trace.
#[derive(Clone, Debug)]
pub struct Snapshot {
    pub total_nanos: u128,
    pub phases: Vec<PhaseSnapshot>,
    pub counters: Vec<CounterSnapshot>,
    pub rss: Vec<RssSnapshot>,
    pub traces: Vec<TraceSnapshot>,
}

/// The totals of one named phase.
#[derive(Clone, Debug)]
pub struct PhaseSnapshot {
    pub name: String,
    pub nanos: u128,
    pub spans: u64,
    pub bytes: u64,
    pub items: u64,
}

/// A named counter and its value.
#[derive(Clone, Debug, PartialEq, Eq)]
pub struct CounterSnapshot {
    pub name: String,
    pub value: u64,
}

/// A resident-memory checkpoint.
#[derive(Clone, Debug)]
pub struct RssSnapshot {
    pub label: String,
    pub current_kb: u64,
    pub peak_kb: u64,
}

/// One trace span or event, flattened for reports.
#[derive(Clone, Debug)]
pub struct TraceSnapshot {
    pub label: String,
    pub file: String,
    pub line: u32,
    pub thread: String,
    pub depth: usize,
    pub nanos: u128,
    pub enter_seq: u64,
    pub is_event: bool,
    pub detail: String,
    pub fields: Vec<FieldSnapshot>,
    pub stack: String,
}

/// A trace field with its value already rendered as text.
#[derive(Clone, Debug, PartialEq, Eq)]
pub struct FieldSnapshot {
    pub name: String,
    pub value: String,
}

/// The snapshot holds nothing: no time and no entries.
pub open spec fn is_empty_snapshot(s: Snapshot) -> bool {
    &&& s.total_nanos == 0
    &&& s.phases@.len() == 0
    &&& s.counters@.len() == 0
    &&& s.rss@.len() == 0
    &&& s.traces@.len() == 0
}

impl Default for Snapshot {
    fn default() -> (s: Self)
        ensures
            is_empty_snapshot(s),
    {
        Snapshot {
            total_nanos: 0,
            phases: Vec::new(),
            counters: Vec::new(),
            rss: Vec::new(),
            traces: Vec::new(),
        }
    }
}

/// The snapshot of a profiler that recorded nothing.
pub fn snapshot_disabled() -> (s: Snapshot)
    ensures
        is_empty_snapshot(s),
{
    Snapshot {
        total_nanos: 0,
        phases: Vec::new(),
        counters: Vec::new(),
        rss: Vec::new(),
        traces: Vec::new(),
    }
}

/// A copy of a list of phase totals.
pub fn copy_phases(phases: &Vec<PhaseSnapshot>) -> (r: Vec<PhaseSnapshot>)
    ensures
        r@ == phases@,
{
    let mut r: Vec<PhaseSnapshot> = Vec::new();
    for i in 0..phases.len()
        invariant
            r@ == phases@.take(i as int),
    {
        let p = &phases[i];
        r.push(PhaseSnapshot {
            name: p.name.clone(),
            nanos: p.nanos,
            spans: p.spans,
            bytes: p.bytes,
            items: p.items,
        });
        assert(r@ =~= phases@.take(i + 1));
    }
    assert(phases@.take(phases.len() as int) =~= phases@);
    r
}

/// A copy of a list of counters.
pub fn copy_counters(counters: &Vec<CounterSnapshot>) -> (r: Vec<CounterSnapshot>)
    ensures
        r@ == counters@,
{
    let mut r: Vec<CounterSnapshot> = Vec::new();
    for i in 0..counters.len()
        invariant
            r@ == counters@.take(i as int),
    {
        r.push(CounterSnapshot { name: counters[i].name.clone(), value: counters[i].value });
        assert(r@ =~= counters@.take(i + 1));
    }
    assert(counters@.take(counters.len() as int) =~= counters@);
    r
}

/// A copy of a list of memory checkpoints.
pub fn copy_rss(rss: &Vec<RssSnapshot>) -> (r: Vec<RssSnapshot>)
    ensures
        r@ == rss@,
{
    let mut r: Vec<RssSnapshot> = Vec::new();
    for i in 0..rss.len()
        invariant
            r@ == rss@.take(i as int),
    {
        let c = &rss[i];
        r.push(RssSnapshot { label: c.label.clone(), current_kb: c.current_kb, peak_kb: c.peak_kb });
        assert(r@ =~= rss@.take(i + 1));
    }
    assert(rss@.take(rss.len() as int) =~= rss@);
    r
}

} // verus!
