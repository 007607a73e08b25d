//! The contents of the phase table of the end-of-run report.
use vstd::prelude::*;
use crate::fmt::{fmt_ns, human, human_text, nanos_text, rate, rate_text};
use crate::model::{PhaseSnapshot, Snapshot};

verus! {

/// One row of the phase table, its cells already rendered.
#[derive(Clone, Debug)]
pub struct PhaseRow {
    pub name: String,
    pub nanos: u128,
    pub wall: String,
    pub spans: u64,
    pub bytes: String,
    pub items: u64,
    pub rate: String,
}

/// The phase table: one row per phase, the time no phase accounts for, and the
/// total wall time.
#[derive(Clone, Debug)]
pub struct PhaseTable {
    pub total_nanos: u128,
    pub total_wall: String,
    pub rows: Vec<PhaseRow>,
    pub other_nanos: u128,
    pub other_wall: String,
}

/// The time spent in the first `n` phases.
pub open spec fn timed_nanos(phases: Seq<PhaseSnapshot>, n: int) -> nat
    decreases n,
{
    if n <= 0 {
        0
    } else {
        timed_nanos(phases, n - 1) + phases[n - 1].nanos as nat
    }
}

/// `row` renders `phase`: its name, duration, span count, bytes in human-readable
/// form, item count and throughput.
pub open spec fn row_of(phase: PhaseSnapshot, row: PhaseRow) -> bool {
    &&& row.name@ == phase.name@
    &&& row.nanos == phase.nanos
    &&& row.wall@ == nanos_text(phase.nanos as nat)
    &&& row.spans == phase.spans
    &&& row.bytes@ == human_text(phase.bytes as nat)
    &&& row.items == phase.items
    &&& row.rate@ == rate_text(phase.bytes as nat, phase.items as nat, phase.nanos as nat)
}

/// The phase table of a snapshot, or nothing when it measured no time at all.
pub fn render(snapshot: &Snapshot) -> (table: Option<PhaseTable>)
    requires
        snapshot.total_nanos > 0 ==> timed_nanos(snapshot.phases@, snapshot.phases@.len() as int)
            <= u128::MAX,
    ensures
        table is None <==> snapshot.total_nanos == 0,
        table matches Some(t) ==> {
            &&& t.total_nanos == snapshot.total_nanos
            &&& t.total_wall@ == nanos_text(snapshot.total_nanos as nat)
            &&& t.rows@.len() == snapshot.phases@.len()
            &&& forall|i: int| 0 <= i < t.rows@.len() ==> row_of(snapshot.phases@[i], #[trigger] t.rows@[i])
            &&& t.other_nanos == if snapshot.total_nanos >= timed_nanos(snapshot.phases@, snapshot.phases@.len() as int) {
                snapshot.total_nanos - timed_nanos(snapshot.phases@, snapshot.phases@.len() as int)
            } else {
                0
            }
            &&& t.other_wall@ == nanos_text(t.other_nanos as nat)
        },
{
    if snapshot.total_nanos == 0 {
        return None;
    }
    let mut timed_ns: u128 = 0;
    let mut rows: Vec<PhaseRow> = Vec::new();
    for i in 0..snapshot.phases.len()
        invariant
            timed_nanos(snapshot.phases@, snapshot.phases@.len() as int) <= u128::MAX,
            timed_ns == timed_nanos(snapshot.phases@, i as int),
            rows@.len() == i,
            forall|k: int| 0 <= k < i ==> row_of(snapshot.phases@[k], #[trigger] rows@[k]),
    {
        let row = &snapshot.phases[i];
        proof { lemma_timed_monotone(snapshot.phases@, i + 1, snapshot.phases@.len() as int); }
        timed_ns = timed_ns + row.nanos;
        rows.push(PhaseRow {
            name: row.name.clone(),
            nanos: row.nanos,
            wall: fmt_ns(row.nanos),
            spans: row.spans,
            bytes: human(row.bytes),
            items: row.items,
            rate: rate(row.bytes, row.items, row.nanos),
        });
    }
    let other = snapshot.total_nanos.saturating_sub(timed_ns);
    Some(PhaseTable {
        total_nanos: snapshot.total_nanos,
        total_wall: fmt_ns(snapshot.total_nanos),
        rows,
        other_nanos: other,
        other_wall: fmt_ns(other),
    })
}

proof fn lemma_timed_monotone(phases: Seq<PhaseSnapshot>, a: int, b: int)
    requires
        0 <= a <= b,
    ensures
        timed_nanos(phases, a) <= timed_nanos(phases, b),
    decreases b - a,
{
    if a < b {
        lemma_timed_monotone(phases, a, b - 1);
    }
}

} // verus!
