//! The profile data model (interned source locations and threads, and one record
//! per trace span or event) and how it is built from recorded trace nodes.
use vstd::prelude::*;

verus! {

/// A structured profile: tables of source locations and threads, and the records
/// that point into them by index.
#[derive(Clone, Debug)]
pub struct Profile {
    pub source_locations: Vec<SourceLocation>,
    pub threads: Vec<ThreadInfo>,
    pub records: Vec<Record>,
}

/// A source location that a record was emitted from.
#[derive(Clone, Debug, PartialEq, Eq)]
pub struct SourceLocation {
    pub file: String,
    pub line: u32,
    pub column: u32,
}

/// A thread that emitted records, named by its debug identifier.
#[derive(Clone, Debug, PartialEq, Eq)]
pub struct ThreadInfo {
    pub debug_id: String,
}

/// One trace span (timed scope) or event (instant) of a profile.
#[derive(Clone, Debug, PartialEq, Eq)]
pub enum Record {
    Span {
        id: u64,
        label: String,
        source: usize,
        thread: usize,
        depth: usize,
        nanos: u128,
        fields: Vec<Field>,
        stack: String,
    },
    Event {
        id: u64,
        label: String,
        detail: String,
        source: usize,
        thread: usize,
        depth: usize,
        fields: Vec<Field>,
        stack: String,
    },
}

/// A named, typed value attached to a record.
#[derive(Clone, Debug, PartialEq, Eq)]
pub struct Field {
    pub name: String,
    pub value: FieldValue,
}

/// The typed value of a field.
#[derive(Clone, Debug, PartialEq, Eq)]
pub enum FieldValue {
    Text(String),
    Count(u64),
    Signed(i64),
    Bytes(u64),
    Hex(u64),
    Addr(u64),
    ByteRange { start: u64, len: u64 },
    AddrRange { start: u64, len: u64 },
}

/// One recorded trace span or event, as the trace recorder hands it over: its
/// call site, the debug identifier of its thread and what was recorded with it.
#[derive(Clone, Debug)]
pub struct TraceNode {
    pub label: String,
    pub file: String,
    pub line: u32,
    pub column: u32,
    pub thread: String,
    pub depth: usize,
    pub nanos: u128,
    pub enter_seq: u64,
    pub is_event: bool,
    pub detail: String,
    pub fields: Vec<Field>,
    pub stack: String,
}

impl Default for Profile {
    fn default() -> (p: Self)
        ensures
            p.source_locations@.len() == 0,
            p.threads@.len() == 0,
            p.records@.len() == 0,
    {
        Profile { source_locations: Vec::new(), threads: Vec::new(), records: Vec::new() }
    }
}

impl Record {
    pub open spec fn spec_id(self) -> u64 {
        match self {
            Record::Span { id, .. } => id,
            Record::Event { id, .. } => id,
        }
    }

    pub open spec fn spec_thread(self) -> usize {
        match self {
            Record::Span { thread, .. } => thread,
            Record::Event { thread, .. } => thread,
        }
    }

    pub open spec fn spec_depth(self) -> usize {
        match self {
            Record::Span { depth, .. } => depth,
            Record::Event { depth, .. } => depth,
        }
    }

    pub open spec fn spec_source(self) -> usize {
        match self {
            Record::Span { source, .. } => source,
            Record::Event { source, .. } => source,
        }
    }

    pub open spec fn is_span(self) -> bool {
        self is Span
    }
}

/// What identifies a source location: file, line and column.
pub open spec fn location_key(l: SourceLocation) -> (Seq<char>, u32, u32) {
    (l.file@, l.line, l.column)
}

/// The source location of a trace node.
pub open spec fn node_location(n: TraceNode) -> (Seq<char>, u32, u32) {
    (n.file@, n.line, n.column)
}

/// The distinct elements of `s`, each once, in order of first occurrence.
pub open spec fn distinct<K>(s: Seq<K>) -> Seq<K>
    decreases s.len(),
{
    if s.len() == 0 {
        Seq::empty()
    } else {
        let d = distinct(s.drop_last());
        if d.contains(s.last()) {
            d
        } else {
            d.push(s.last())
        }
    }
}

/// The distinct source locations of `nodes`, in order of first use.
pub open spec fn node_locations(nodes: Seq<TraceNode>) -> Seq<(Seq<char>, u32, u32)> {
    distinct(nodes.map_values(|n: TraceNode| node_location(n)))
}

/// The distinct threads of `nodes`, in order of first use.
pub open spec fn node_threads(nodes: Seq<TraceNode>) -> Seq<Seq<char>> {
    distinct(nodes.map_values(|n: TraceNode| n.thread@))
}

/// The keys of a profile's source location table.
pub open spec fn location_keys(p: Profile) -> Seq<(Seq<char>, u32, u32)> {
    p.source_locations@.map_values(|l: SourceLocation| location_key(l))
}

/// The debug identifiers of a profile's thread table.
pub open spec fn thread_ids(p: Profile) -> Seq<Seq<char>> {
    p.threads@.map_values(|t: ThreadInfo| t.debug_id@)
}

/// `r` is the record of trace node `n` in profile `p`: the same kind, identifier,
/// label, detail, depth, duration, fields and stack, a source index whose table
/// entry is the node's call site, and a thread index whose table entry is its thread.
pub open spec fn record_of_node(p: Profile, r: Record, n: TraceNode) -> bool {
    &&& r.is_span() == !n.is_event
    &&& r.spec_id() == n.enter_seq
    &&& r.spec_depth() == n.depth
    &&& r.spec_source() < p.source_locations@.len()
    &&& location_key(p.source_locations@[r.spec_source() as int]) == node_location(n)
    &&& r.spec_thread() < p.threads@.len()
    &&& p.threads@[r.spec_thread() as int].debug_id@ == n.thread@
    &&& match r {
        Record::Span { label, nanos, fields, stack, .. } => {
            &&& label@ == n.label@
            &&& nanos == n.nanos
            &&& fields@ == n.fields@
            &&& stack@ == n.stack@
        },
        Record::Event { label, detail, fields, stack, .. } => {
            &&& label@ == n.label@
            &&& detail@ == n.detail@
            &&& fields@ == n.fields@
            &&& stack@ == n.stack@
        },
    }
}

/// No element occurs twice in `s`.
pub open spec fn no_duplicates<K>(s: Seq<K>) -> bool {
    forall|i: int, j: int| 0 <= i < s.len() && 0 <= j < s.len() && i != j ==> s[i] != s[j]
}

/// `p` is the profile of `nodes`: one record per node in the same order, and the
/// source and thread tables hold each distinct call site and thread once, in
/// order of first use.
pub open spec fn profile_of_nodes(p: Profile, nodes: Seq<TraceNode>) -> bool {
    &&& location_keys(p) == node_locations(nodes)
    &&& thread_ids(p) == node_threads(nodes)
    &&& p.records@.len() == nodes.len()
    &&& forall|i: int| 0 <= i < nodes.len() ==> record_of_node(p, #[trigger] p.records@[i], nodes[i])
}

pub proof fn lemma_distinct_push<K>(s: Seq<K>, x: K)
    ensures
        distinct(s.push(x)) == (if distinct(s).contains(x) {
            distinct(s)
        } else {
            distinct(s).push(x)
        }),
{
    assert(s.push(x).drop_last() =~= s);
}

/// The distinct elements of a sequence occur once each.
pub proof fn lemma_distinct_no_duplicates<K>(s: Seq<K>)
    ensures
        no_duplicates(distinct(s)),
        forall|x: K| distinct(s).contains(x) <==> s.contains(x),
        distinct(s).len() <= s.len(),
    decreases s.len(),
{
    if s.len() > 0 {
        let init = s.drop_last();
        let last = s.last();
        let d = distinct(init);
        lemma_distinct_no_duplicates(init);
        assert forall|x: K| distinct(s).contains(x) <==> s.contains(x) by {
            if distinct(s).contains(x) {
                if d.contains(x) {
                    assert(init.contains(x));
                    let i = choose|i: int| 0 <= i < init.len() && init[i] == x;
                    assert(s[i] == init[i]);
                } else {
                    assert(distinct(s) == d.push(last));
                    let i = choose|i: int| 0 <= i < distinct(s).len() && distinct(s)[i] == x;
                    assert(i == d.len());
                    assert(s[s.len() - 1] == x);
                }
            }
            if s.contains(x) {
                let i = choose|i: int| 0 <= i < s.len() && s[i] == x;
                if i == s.len() - 1 {
                    if d.contains(x) {
                    } else {
                        assert(distinct(s)[d.len() as int] == x);
                    }
                } else {
                    assert(init[i] == x);
                    assert(init.contains(x));
                    assert(d.contains(x));
                    let j = choose|j: int| 0 <= j < d.len() && d[j] == x;
                    if !d.contains(last) {
                        assert(distinct(s)[j] == x);
                    }
                }
            }
        }
    }
}

/// In a profile built from trace nodes, two records share a source index exactly
/// when their nodes share a call site, and a thread index exactly when their
/// nodes share a thread.
pub proof fn law_interning(p: Profile, nodes: Seq<TraceNode>, i: int, j: int)
    requires
        profile_of_nodes(p, nodes),
        0 <= i < nodes.len(),
        0 <= j < nodes.len(),
    ensures
        (p.records@[i].spec_source() == p.records@[j].spec_source()) <==> (node_location(nodes[i])
            == node_location(nodes[j])),
        (p.records@[i].spec_thread() == p.records@[j].spec_thread()) <==> (nodes[i].thread@
            == nodes[j].thread@),
{
    lemma_distinct_no_duplicates(nodes.map_values(|n: TraceNode| node_location(n)));
    lemma_distinct_no_duplicates(nodes.map_values(|n: TraceNode| n.thread@));
    let ri = p.records@[i];
    let rj = p.records@[j];
    assert(record_of_node(p, ri, nodes[i]));
    assert(record_of_node(p, rj, nodes[j]));
    assert(location_keys(p)[ri.spec_source() as int] == location_key(p.source_locations@[ri.spec_source() as int]));
    assert(location_keys(p)[rj.spec_source() as int] == location_key(p.source_locations@[rj.spec_source() as int]));
    assert(thread_ids(p)[ri.spec_thread() as int] == p.threads@[ri.spec_thread() as int].debug_id@);
    assert(thread_ids(p)[rj.spec_thread() as int] == p.threads@[rj.spec_thread() as int].debug_id@);
}

/// A copy of a field value.
pub fn copy_field_value(v: &FieldValue) -> (r: FieldValue)
    ensures
        r == *v,
{
    match v {
        FieldValue::Text(s) => FieldValue::Text(s.clone()),
        FieldValue::Count(n) => FieldValue::Count(*n),
        FieldValue::Signed(n) => FieldValue::Signed(*n),
        FieldValue::Bytes(n) => FieldValue::Bytes(*n),
        FieldValue::Hex(n) => FieldValue::Hex(*n),
        FieldValue::Addr(n) => FieldValue::Addr(*n),
        FieldValue::ByteRange { start, len } => FieldValue::ByteRange { start: *start, len: *len },
        FieldValue::AddrRange { start, len } => FieldValue::AddrRange { start: *start, len: *len },
    }
}

/// A copy of a list of fields.
pub fn copy_fields(fields: &Vec<Field>) -> (r: Vec<Field>)
    ensures
        r@ == fields@,
{
    let mut r: Vec<Field> = Vec::new();
    for i in 0..fields.len()
        invariant
            r@ == fields@.take(i as int),
    {
        let f = Field { name: fields[i].name.clone(), value: copy_field_value(&fields[i].value) };
        r.push(f);
        assert(r@ =~= fields@.take(i + 1));
    }
    assert(fields@.take(fields.len() as int) =~= fields@);
    r
}

/// Builds a profile one trace node at a time.
struct ProfileBuilder {
    profile: Profile,
}

impl ProfileBuilder {
    /// The builder holds the profile of `nodes`.
    spec fn holds(self, nodes: Seq<TraceNode>) -> bool {
        profile_of_nodes(self.profile, nodes)
    }

    /// The index of `file:line:column` in the source table, adding it at the end
    /// when it is not there yet. The table is searched in place: its keys hold a
    /// string, and a hash map keyed by strings gives no provable lookups here.
    fn intern_source(&mut self, file: &String, line: u32, column: u32) -> (index: usize)
        requires
            old(self).profile.source_locations@.len() < usize::MAX,
        ensures
            index < final(self).profile.source_locations@.len(),
            location_key(final(self).profile.source_locations@[index as int]) == (file@, line, column),
            location_keys(old(self).profile).contains((file@, line, column)) ==> final(self).profile.source_locations@ == old(self).profile.source_locations@,
            !location_keys(old(self).profile).contains((file@, line, column)) ==> location_keys(final(self).profile) == location_keys(old(self).profile).push((file@, line, column)),
            !location_keys(old(self).profile).contains((file@, line, column)) ==> index == old(self).profile.source_locations@.len(),
            no_duplicates(location_keys(old(self).profile)) ==> no_duplicates(location_keys(final(self).profile)),
            no_duplicates(location_keys(old(self).profile)) ==> forall|i: int|
                0 <= i < final(self).profile.source_locations@.len() && #[trigger] location_keys(final(self).profile)[i]
                    == (file@, line, column) ==> i == index,
            final(self).profile.source_locations@.len() >= old(self).profile.source_locations@.len(),
            final(self).profile.source_locations@.take(old(self).profile.source_locations@.len() as int) == old(self).profile.source_locations@,
            final(self).profile.threads == old(self).profile.threads,
            final(self).profile.records == old(self).profile.records,
    {
        let ghost key = (file@, line, column);
        let n = self.profile.source_locations.len();
        let mut i: usize = 0;
        while i < n
            invariant
                n == self.profile.source_locations.len(),
                i <= n,
                self.profile == old(self).profile,
                key == (file@, line, column),
                forall|j: int| 0 <= j < i ==> location_keys(self.profile)[j] != key,
            decreases n - i,
        {
            let loc = &self.profile.source_locations[i];
            assert(location_keys(self.profile)[i as int] == location_key(
                self.profile.source_locations@[i as int],
            ));
            let same_file = loc.file == *file;
            assert(same_file == (loc.file@ == file@));
            assert(*loc == self.profile.source_locations@[i as int]);
            assert(location_keys(self.profile)[i as int] == (loc.file@, loc.line, loc.column));
            if loc.line == line && loc.column == column && same_file {
                assert(location_keys(self.profile)[i as int] == key);
                assert(location_keys(self.profile).contains(key));
                return i;
            }
            i = i + 1;
        }
        assert(!location_keys(self.profile).contains(key));
        self.profile.source_locations.push(SourceLocation { file: file.clone(), line, column });
        assert(location_keys(self.profile) =~= location_keys(old(self).profile).push(key));
        assert(self.profile.source_locations@.take(n as int) =~= old(self).profile.source_locations@);
        n
    }

    /// The index of `thread` in the thread table, adding it at the end when it is
    /// not there yet (searched in place, like the source table: the key is a string).
    fn intern_thread(&mut self, thread: &String) -> (index: usize)
        requires
            old(self).profile.threads@.len() < usize::MAX,
        ensures
            index < final(self).profile.threads@.len(),
            final(self).profile.threads@[index as int].debug_id@ == thread@,
            thread_ids(old(self).profile).contains(thread@) ==> final(self).profile.threads@ == old(self).profile.threads@,
            !thread_ids(old(self).profile).contains(thread@) ==> thread_ids(final(self).profile) == thread_ids(old(self).profile).push(thread@),
            !thread_ids(old(self).profile).contains(thread@) ==> index == old(self).profile.threads@.len(),
            no_duplicates(thread_ids(old(self).profile)) ==> no_duplicates(thread_ids(final(self).profile)),
            no_duplicates(thread_ids(old(self).profile)) ==> forall|i: int|
                0 <= i < final(self).profile.threads@.len() && #[trigger] thread_ids(final(self).profile)[i]
                    == thread@ ==> i == index,
            final(self).profile.threads@.len() >= old(self).profile.threads@.len(),
            final(self).profile.threads@.take(old(self).profile.threads@.len() as int) == old(self).profile.threads@,
            final(self).profile.source_locations == old(self).profile.source_locations,
            final(self).profile.records == old(self).profile.records,
    {
        let n = self.profile.threads.len();
        let mut i: usize = 0;
        while i < n
            invariant
                n == self.profile.threads.len(),
                i <= n,
                self.profile == old(self).profile,
                forall|j: int| 0 <= j < i ==> thread_ids(self.profile)[j] != thread@,
            decreases n - i,
        {
            assert(thread_ids(self.profile)[i as int] == self.profile.threads@[i as int].debug_id@);
            if self.profile.threads[i].debug_id == *thread {
                assert(thread_ids(self.profile)[i as int] == thread@);
                assert(thread_ids(self.profile).contains(thread@));
                return i;
            }
            i = i + 1;
        }
        assert(!thread_ids(self.profile).contains(thread@));
        self.profile.threads.push(ThreadInfo { debug_id: thread.clone() });
        assert(thread_ids(self.profile) =~= thread_ids(old(self).profile).push(thread@));
        assert(self.profile.threads@.take(n as int) =~= old(self).profile.threads@);
        n
    }

    /// Adds the record of one more trace node.
    fn push(&mut self, node: &TraceNode, Ghost(nodes): Ghost<Seq<TraceNode>>)
        requires
            old(self).holds(nodes),
            nodes.len() < usize::MAX,
        ensures
            final(self).holds(nodes.push(*node)),
    {
        proof {
            lemma_distinct_no_duplicates(nodes.map_values(|n: TraceNode| node_location(n)));
            lemma_distinct_no_duplicates(nodes.map_values(|n: TraceNode| n.thread@));
        }
        let ghost before = self.profile;
        assert(location_keys(self.profile).len() == self.profile.source_locations@.len());
        assert(thread_ids(self.profile).len() == self.profile.threads@.len());
        let source = self.intern_source(&node.file, node.line, node.column);
        let thread = self.intern_thread(&node.thread);
        let fields = copy_fields(&node.fields);
        let record = if node.is_event {
            Record::Event {
                id: node.enter_seq,
                label: node.label.clone(),
                detail: node.detail.clone(),
                source,
                thread,
                depth: node.depth,
                fields,
                stack: node.stack.clone(),
            }
        } else {
            Record::Span {
                id: node.enter_seq,
                label: node.label.clone(),
                source,
                thread,
                depth: node.depth,
                nanos: node.nanos,
                fields,
                stack: node.stack.clone(),
            }
        };
        self.profile.records.push(record);
        proof {
            let all = nodes.push(*node);
            assert(all.map_values(|n: TraceNode| node_location(n)) =~= nodes.map_values(
                |n: TraceNode| node_location(n),
            ).push(node_location(*node)));
            assert(all.map_values(|n: TraceNode| n.thread@) =~= nodes.map_values(
                |n: TraceNode| n.thread@,
            ).push(node.thread@));
            lemma_distinct_push(nodes.map_values(|n: TraceNode| node_location(n)), node_location(*node));
            lemma_distinct_push(nodes.map_values(|n: TraceNode| n.thread@), node.thread@);
            let p = self.profile;
            assert forall|i: int| 0 <= i < all.len() implies record_of_node(p, #[trigger] p.records@[i], all[i]) by {
                if i < nodes.len() {
                    assert(record_of_node(before, before.records@[i], nodes[i]));
                    assert(p.records@[i] == before.records@[i]);
                    let r = before.records@[i];
                    assert(p.source_locations@.take(before.source_locations@.len() as int)[r.spec_source() as int] == p.source_locations@[r.spec_source() as int]);
                    assert(p.threads@.take(before.threads@.len() as int)[r.spec_thread() as int] == p.threads@[r.spec_thread() as int]);
                }
            }
        }
    }
}

/// The profile of a sequence of trace nodes: one record per node, in order, with
/// call sites and threads interned in tables in order of first use.
pub fn from_trace_nodes(nodes: &Vec<TraceNode>) -> (p: Profile)
    ensures
        profile_of_nodes(p, nodes@),
        no_duplicates(location_keys(p)),
        no_duplicates(thread_ids(p)),
{
    let mut builder = ProfileBuilder { profile: Profile::default() };
    assert(nodes@.take(0).map_values(|n: TraceNode| node_location(n)) =~= Seq::empty());
    assert(nodes@.take(0).map_values(|n: TraceNode| n.thread@) =~= Seq::empty());
    assert(location_keys(builder.profile) =~= Seq::empty());
    assert(thread_ids(builder.profile) =~= Seq::empty());
    for i in 0..nodes.len()
        invariant
            builder.holds(nodes@.take(i as int)),
    {
        proof {
            lemma_distinct_no_duplicates(nodes@.take(i as int).map_values(|n: TraceNode| node_location(n)));
            lemma_distinct_no_duplicates(nodes@.take(i as int).map_values(|n: TraceNode| n.thread@));
        }
        builder.push(&nodes[i], Ghost(nodes@.take(i as int)));
        assert(nodes@.take(i as int).push(nodes@[i as int]) =~= nodes@.take(i + 1));
    }
    assert(nodes@.take(nodes.len() as int) =~= nodes@);
    proof {
        lemma_distinct_no_duplicates(nodes@.map_values(|n: TraceNode| node_location(n)));
        lemma_distinct_no_duplicates(nodes@.map_values(|n: TraceNode| n.thread@));
    }
    builder.profile
}

} // verus!
