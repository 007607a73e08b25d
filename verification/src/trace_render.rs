//! The call-flow tree of a trace snapshot, line by line as the report prints it.
use vstd::prelude::*;
use vstd::string::*;
use crate::fmt::{nanos_text, push_nanos};
use crate::model::{FieldSnapshot, TraceSnapshot};
use crate::order::{stable_order, stable_order_of};
use crate::text::{dec_text, join, pad_left, push_char, push_dec, push_padded_left, spaces};

verus! {

/// The pieces of `s` between newline characters (one more than it has newlines).
pub open spec fn segments(s: Seq<char>) -> Seq<Seq<char>>
    decreases s.len(),
{
    if s.len() == 0 {
        seq![Seq::empty()]
    } else if s.last() == '\n' {
        segments(s.drop_last()).push(Seq::empty())
    } else {
        let segs = segments(s.drop_last());
        segs.update(segs.len() - 1, segs.last().push(s.last()))
    }
}

/// A line without the carriage return that ended it.
pub open spec fn strip_cr(line: Seq<char>) -> Seq<char> {
    if line.len() > 0 && line.last() == '\r' {
        line.drop_last()
    } else {
        line
    }
}

/// The lines of a text as `str::lines` yields them: split at `\n`, a `\r` before
/// the `\n` removed, and no empty line after a final newline.
pub open spec fn text_lines(s: Seq<char>) -> Seq<Seq<char>> {
    let segs = segments(s);
    let ended = segs.drop_last().map_values(|l: Seq<char>| strip_cr(l));
    if segs.last().len() == 0 {
        ended
    } else {
        ended.push(segs.last())
    }
}

/// The part of a path after its last `/` (all of it when there is none).
pub open spec fn base_name(s: Seq<char>) -> Seq<char>
    decreases s.len(),
{
    if s.len() == 0 {
        s
    } else if s.last() == '/' {
        Seq::empty()
    } else {
        base_name(s.drop_last()).push(s.last())
    }
}

/// The base name of a path is its end, holds no `/`, and is either the whole
/// path or what follows its last `/`.
pub proof fn law_base_name(s: Seq<char>)
    ensures
        ({
            let b = base_name(s);
            &&& b.len() <= s.len()
            &&& s.skip(s.len() - b.len()) == b
            &&& forall|i: int| 0 <= i < b.len() ==> #[trigger] b[i] != '/'
            &&& b.len() < s.len() ==> s[s.len() - b.len() - 1] == '/'
        }),
    decreases s.len(),
{
    if s.len() > 0 {
        law_base_name(s.drop_last());
        let b = base_name(s);
        let init = s.drop_last();
        if s.last() == '/' {
            assert(s.skip(s.len() as int) =~= b);
        } else {
            let bi = base_name(init);
            assert(b == bi.push(s.last()));
            assert(s.skip(s.len() - b.len()) =~= init.skip(init.len() - bi.len()).push(s.last()));
            assert forall|i: int| 0 <= i < b.len() implies #[trigger] b[i] != '/' by {
                if i < bi.len() {
                    assert(b[i] == bi[i]);
                }
            }
            if b.len() < s.len() {
                assert(s[s.len() - b.len() - 1] == init[init.len() - bi.len() - 1]);
            }
        }
    }
}

proof fn lemma_segments(s: Seq<char>)
    ensures
        segments(s).len() >= 1,
        forall|k: int, i: int|
            0 <= k < segments(s).len() && 0 <= i < segments(s)[k].len() ==> #[trigger] segments(s)[k][i] != '\n',
        (forall|i: int| 0 <= i < s.len() ==> #[trigger] s[i] != '\n') ==> segments(s) == seq![s],
    decreases s.len(),
{
    if s.len() > 0 {
        lemma_segments(s.drop_last());
        let segs = segments(s.drop_last());
        if s.last() == '\n' {
            assert(segments(s) == segs.push(Seq::empty()));
            assert(s[s.len() - 1] == '\n');
        } else {
            let now = segments(s);
            assert(now == segs.update(segs.len() - 1, segs.last().push(s.last())));
            assert forall|k: int, i: int|
                0 <= k < now.len() && 0 <= i < now[k].len() implies #[trigger] now[k][i] != '\n' by {
                if k < segs.len() - 1 {
                    assert(now[k] == segs[k]);
                } else if i < segs.last().len() {
                    assert(now[k][i] == segs[segs.len() - 1][i]);
                }
            }
            if forall|i: int| 0 <= i < s.len() ==> #[trigger] s[i] != '\n' {
                assert forall|i: int| 0 <= i < s.drop_last().len() implies #[trigger] s.drop_last()[i] != '\n' by {
                    assert(s.drop_last()[i] == s[i]);
                }
                assert(segs == seq![s.drop_last()]);
                assert(s.drop_last().push(s.last()) =~= s);
                assert(now =~= seq![s]);
            }
        }
    } else {
        assert(s =~= Seq::<char>::empty());
        assert(segments(s) =~= seq![s]);
    }
}

/// No line of a text holds a newline, and a text without newlines is one line
/// (or none when it is empty).
pub proof fn law_text_lines(s: Seq<char>)
    ensures
        forall|k: int, i: int|
            0 <= k < text_lines(s).len() && 0 <= i < text_lines(s)[k].len() ==> #[trigger] text_lines(s)[k][i] != '\n',
        (forall|i: int| 0 <= i < s.len() ==> #[trigger] s[i] != '\n') ==> text_lines(s) == (if s.len() == 0 {
            Seq::<Seq<char>>::empty()
        } else {
            seq![s]
        }),
{
    lemma_segments(s);
    let segs = segments(s);
    let lines = text_lines(s);
    let ended = segs.drop_last().map_values(|l: Seq<char>| strip_cr(l));
    assert forall|k: int, i: int| 0 <= k < lines.len() && 0 <= i < lines[k].len() implies #[trigger] lines[k][i] != '\n' by {
        if k < ended.len() {
            assert(lines[k] == strip_cr(segs[k]));
            assert(segs[k].len() > 0 && segs[k].last() == '\r' ==> lines[k][i] == segs[k][i]);
            assert(lines[k][i] == segs[k][i]);
        } else {
            assert(lines[k] == segs.last());
            assert(lines[k][i] == segs[segs.len() - 1][i]);
        }
    }
    if forall|i: int| 0 <= i < s.len() ==> #[trigger] s[i] != '\n' {
        assert(segs == seq![s]);
        assert(ended =~= Seq::<Seq<char>>::empty());
        if s.len() > 0 {
            assert(lines =~= seq![s]);
        }
    }
}

/// The indentation of a node at `depth`: two spaces per level.
pub open spec fn indent_text(depth: nat) -> Seq<char> {
    spaces(2 * depth)
}

/// The fields of a node as ` [name=value name=value]`, or nothing when it has none.
pub open spec fn fields_text(fields: Seq<FieldSnapshot>) -> Seq<char> {
    let joined = join(fields.map_values(|f: FieldSnapshot| f.name@ + "="@ + f.value@), " "@);
    if joined.len() == 0 {
        Seq::empty()
    } else {
        " ["@ + joined + "]"@
    }
}

proof fn lemma_join_nonempty(parts: Seq<Seq<char>>, sep: Seq<char>)
    requires
        parts.len() > 0,
        parts.last().len() > 0,
    ensures
        join(parts, sep).len() > 0,
{
}

/// Whatever its kind, a node with fields shows all of them on its line, as
/// ` [name=value name=value]` with the fields in order.
pub proof fn law_node_line_shows_fields(n: TraceSnapshot, show_threads: bool)
    requires
        n.fields@.len() > 0,
    ensures
        ({
            let block = " ["@ + join(
                n.fields@.map_values(|f: FieldSnapshot| f.name@ + "="@ + f.value@),
                " "@,
            ) + "]"@;
            let line = node_line(n, show_threads);
            exists|i: int| 0 <= i && i + block.len() <= line.len() && #[trigger] line.subrange(i, i + block.len()) == block
        }),
{
    reveal_strlit("=");
    let parts = n.fields@.map_values(|f: FieldSnapshot| f.name@ + "="@ + f.value@);
    assert(parts.last() == n.fields@.last().name@ + "="@ + n.fields@.last().value@);
    assert(parts.last().len() > 0);
    lemma_join_nonempty(parts, " "@);
    let block = " ["@ + join(parts, " "@) + "]"@;
    assert(fields_text(n.fields@) == block);
    let indent = indent_text(n.depth as nat);
    let tail = thread_text(n, show_threads) + site_text(n);
    let pre = if n.is_event {
        let detail = if n.detail@.len() == 0 { Seq::empty() } else { ": "@ + n.detail@ };
        indent + "\u{2022} "@ + n.label@ + detail
    } else {
        indent + n.label@ + " "@ + pad_left(nanos_text(n.nanos as nat), 9)
    };
    let line = node_line(n, show_threads);
    assert(line =~= pre + block + tail);
    assert(line.subrange(pre.len() as int, (pre.len() + block.len()) as int) =~= block);
}

/// The thread of a node as ` [thread]` when threads are shown.
pub open spec fn thread_text(n: TraceSnapshot, show_threads: bool) -> Seq<char> {
    if show_threads {
        " ["@ + n.thread@ + "]"@
    } else {
        Seq::empty()
    }
}

/// The call site of a node as `  (file:line)`, with the file's base name.
pub open spec fn site_text(n: TraceSnapshot) -> Seq<char> {
    "  ("@ + base_name(n.file@) + ":"@ + dec_text(n.line as nat) + ")"@
}

/// The line of one node: an event with a bullet and its detail, a span with its
/// duration right-aligned in nine columns.
pub open spec fn node_line(n: TraceSnapshot, show_threads: bool) -> Seq<char> {
    let indent = indent_text(n.depth as nat);
    if n.is_event {
        let detail = if n.detail@.len() == 0 { Seq::empty() } else { ": "@ + n.detail@ };
        indent + "\u{2022} "@ + n.label@ + detail + fields_text(n.fields@) + thread_text(n, show_threads) + site_text(n)
    } else {
        indent + n.label@ + " "@ + pad_left(nanos_text(n.nanos as nat), 9) + fields_text(n.fields@) + thread_text(n, show_threads) + site_text(n)
    }
}

/// The stack lines of a node: its first 32 stack lines, each indented and marked.
pub open spec fn stack_text(n: TraceSnapshot) -> Seq<Seq<char>> {
    let lines = text_lines(n.stack@);
    let shown = if lines.len() > 32 { lines.take(32) } else { lines };
    shown.map_values(|l: Seq<char>| indent_text(n.depth as nat) + "    \u{21b3} "@ + l)
}

/// The lines of each node in turn.
pub open spec fn nodes_lines(nodes: Seq<TraceSnapshot>, show_threads: bool) -> Seq<Seq<char>>
    decreases nodes.len(),
{
    if nodes.len() == 0 {
        Seq::empty()
    } else {
        nodes_lines(nodes.drop_last(), show_threads) + seq![node_line(nodes.last(), show_threads)]
            + stack_text(nodes.last())
    }
}

/// The nodes stably sorted by their sequence number.
pub open spec fn sorted_nodes(nodes: Seq<TraceSnapshot>) -> Seq<TraceSnapshot> {
    stable_order(nodes.map_values(|n: TraceSnapshot| n.enter_seq)).map_values(
        |i: usize| nodes[i as int],
    )
}

/// The call-flow tree: nothing for an empty trace, otherwise a header, the lines
/// of each node in sequence order (threads shown when more than one occurs) and
/// a closing rule.
pub open spec fn trace_tree_text(nodes: Seq<TraceSnapshot>) -> Seq<Seq<char>> {
    if nodes.len() == 0 {
        Seq::empty()
    } else {
        let sorted = sorted_nodes(nodes);
        let show = exists|i: int| 0 <= i < sorted.len() && (#[trigger] sorted[i]).thread@ != sorted[0].thread@;
        seq!["\n\u{2500}\u{2500} linkscope --trace (call flow) \u{2500}\u{2500}\u{2500}\u{2500}\u{2500}\u{2500}\u{2500}\u{2500}\u{2500}\u{2500}\u{2500}\u{2500}\u{2500}\u{2500}\u{2500}\u{2500}\u{2500}\u{2500}\u{2500}\u{2500}\u{2500}\u{2500}\u{2500}\u{2500}\u{2500}\u{2500}"@] + nodes_lines(sorted, show) + seq!["\u{2500}\u{2500}\u{2500}\u{2500}\u{2500}\u{2500}\u{2500}\u{2500}\u{2500}\u{2500}\u{2500}\u{2500}\u{2500}\u{2500}\u{2500}\u{2500}\u{2500}\u{2500}\u{2500}\u{2500}\u{2500}\u{2500}\u{2500}\u{2500}\u{2500}\u{2500}\u{2500}\u{2500}\u{2500}\u{2500}\u{2500}\u{2500}\u{2500}\u{2500}\u{2500}\u{2500}\u{2500}\u{2500}\u{2500}\u{2500}\u{2500}\u{2500}\u{2500}\u{2500}\u{2500}\u{2500}\u{2500}\u{2500}\u{2500}\u{2500}\u{2500}\u{2500}\u{2500}\u{2500}\u{2500}\u{2500}\u{2500}\u{2500}\u{2500}"@]
    }
}

/// The call-flow tree of a trace snapshot, one string per printed line.
pub fn trace_tree_from_snapshot(nodes: &Vec<TraceSnapshot>) -> (lines: Vec<String>)
    ensures
        lines@.map_values(|s: String| s@) == trace_tree_text(nodes@),
{
    let mut lines: Vec<String> = Vec::new();
    if nodes.len() == 0 {
        assert(lines@.map_values(|s: String| s@) =~= trace_tree_text(nodes@));
        return lines;
    }
    let mut keys: Vec<u64> = Vec::new();
    for i in 0..nodes.len()
        invariant
            keys@ == nodes@.take(i as int).map_values(|n: TraceSnapshot| n.enter_seq),
    {
        keys.push(nodes[i].enter_seq);
        assert(keys@ =~= nodes@.take(i + 1).map_values(|n: TraceSnapshot| n.enter_seq));
    }
    assert(nodes@.take(nodes.len() as int) =~= nodes@);
    let order = stable_order_of(&keys);
    let ghost sorted = sorted_nodes(nodes@);
    assert(sorted.len() == nodes.len());
    assert forall|k: int| 0 <= k < order.len() implies (#[trigger] order@[k]) < nodes.len() by {}
    let first = &nodes[order[0]];
    let mut show_threads = false;
    let mut k: usize = 0;
    while k < order.len()
        invariant
            order@ == stable_order(keys@),
            keys@ == nodes@.map_values(|n: TraceSnapshot| n.enter_seq),
            order.len() == nodes.len(),
            forall|q: int| 0 <= q < order.len() ==> (#[trigger] order@[q]) < nodes.len(),
            sorted == sorted_nodes(nodes@),
            *first == sorted[0],
            k <= order.len(),
            show_threads == exists|i: int| 0 <= i < k && (#[trigger] sorted[i]).thread@ != sorted[0].thread@,
        decreases order.len() - k,
    {
        assert(sorted[k as int] == nodes@[order@[k as int] as int]);
        if nodes[order[k]].thread != first.thread {
            show_threads = true;
        }
        k = k + 1;
    }
    let mut header = String::new();
    header.append("\n\u{2500}\u{2500} linkscope --trace (call flow) \u{2500}\u{2500}\u{2500}\u{2500}\u{2500}\u{2500}\u{2500}\u{2500}\u{2500}\u{2500}\u{2500}\u{2500}\u{2500}\u{2500}\u{2500}\u{2500}\u{2500}\u{2500}\u{2500}\u{2500}\u{2500}\u{2500}\u{2500}\u{2500}\u{2500}\u{2500}");
    lines.push(header);
    let ghost head = lines@.map_values(|s: String| s@);
    for k in 0..order.len()
        invariant
            order@ == stable_order(keys@),
            keys@ == nodes@.map_values(|n: TraceSnapshot| n.enter_seq),
            order.len() == nodes.len(),
            forall|q: int| 0 <= q < order.len() ==> (#[trigger] order@[q]) < nodes.len(),
            sorted == sorted_nodes(nodes@),
            sorted.len() == order.len(),
            show_threads == exists|i: int| 0 <= i < sorted.len() && (#[trigger] sorted[i]).thread@ != sorted[0].thread@,
            lines@.map_values(|s: String| s@) == head + nodes_lines(sorted.take(k as int), show_threads),
    {
        let node = &nodes[order[k]];
        assert(sorted[k as int] == *node);
        assert(sorted.take(k + 1).drop_last() =~= sorted.take(k as int));
        let ghost prev = lines@;
        let line = node_line_of(node, show_threads);
        lines.push(line);
        assert(lines@.map_values(|s: String| s@) =~= prev.map_values(|s: String| s@).push(node_line(*node, show_threads)));
        push_stack(&mut lines, node);
        assert(lines@.map_values(|s: String| s@) =~= head + nodes_lines(sorted.take(k + 1), show_threads));
    }
    assert(sorted.take(order.len() as int) =~= sorted);
    let mut footer = String::new();
    footer.append("\u{2500}\u{2500}\u{2500}\u{2500}\u{2500}\u{2500}\u{2500}\u{2500}\u{2500}\u{2500}\u{2500}\u{2500}\u{2500}\u{2500}\u{2500}\u{2500}\u{2500}\u{2500}\u{2500}\u{2500}\u{2500}\u{2500}\u{2500}\u{2500}\u{2500}\u{2500}\u{2500}\u{2500}\u{2500}\u{2500}\u{2500}\u{2500}\u{2500}\u{2500}\u{2500}\u{2500}\u{2500}\u{2500}\u{2500}\u{2500}\u{2500}\u{2500}\u{2500}\u{2500}\u{2500}\u{2500}\u{2500}\u{2500}\u{2500}\u{2500}\u{2500}\u{2500}\u{2500}\u{2500}\u{2500}\u{2500}\u{2500}\u{2500}\u{2500}");
    let ghost mid = lines@.map_values(|s: String| s@);
    assert(mid == head + nodes_lines(sorted, show_threads));
    lines.push(footer);
    assert(lines@.map_values(|s: String| s@) =~= mid.push("\u{2500}\u{2500}\u{2500}\u{2500}\u{2500}\u{2500}\u{2500}\u{2500}\u{2500}\u{2500}\u{2500}\u{2500}\u{2500}\u{2500}\u{2500}\u{2500}\u{2500}\u{2500}\u{2500}\u{2500}\u{2500}\u{2500}\u{2500}\u{2500}\u{2500}\u{2500}\u{2500}\u{2500}\u{2500}\u{2500}\u{2500}\u{2500}\u{2500}\u{2500}\u{2500}\u{2500}\u{2500}\u{2500}\u{2500}\u{2500}\u{2500}\u{2500}\u{2500}\u{2500}\u{2500}\u{2500}\u{2500}\u{2500}\u{2500}\u{2500}\u{2500}\u{2500}\u{2500}\u{2500}\u{2500}\u{2500}\u{2500}\u{2500}\u{2500}"@));
    assert(nodes@.len() > 0);
    assert(trace_tree_text(nodes@) == head + nodes_lines(sorted, show_threads) + seq!["\u{2500}\u{2500}\u{2500}\u{2500}\u{2500}\u{2500}\u{2500}\u{2500}\u{2500}\u{2500}\u{2500}\u{2500}\u{2500}\u{2500}\u{2500}\u{2500}\u{2500}\u{2500}\u{2500}\u{2500}\u{2500}\u{2500}\u{2500}\u{2500}\u{2500}\u{2500}\u{2500}\u{2500}\u{2500}\u{2500}\u{2500}\u{2500}\u{2500}\u{2500}\u{2500}\u{2500}\u{2500}\u{2500}\u{2500}\u{2500}\u{2500}\u{2500}\u{2500}\u{2500}\u{2500}\u{2500}\u{2500}\u{2500}\u{2500}\u{2500}\u{2500}\u{2500}\u{2500}\u{2500}\u{2500}\u{2500}\u{2500}\u{2500}\u{2500}"@]);
    assert(lines@.map_values(|s: String| s@) =~= trace_tree_text(nodes@));
    lines
}

fn push_indent(out: &mut String, depth: usize)
    ensures
        final(out)@ == old(out)@ + indent_text(depth as nat),
{
    let mut i: usize = 0;
    while i < depth
        invariant
            i <= depth,
            out@ == old(out)@ + spaces(2 * i as nat),
        decreases depth - i,
    {
        out.append("  ");
        i = i + 1;
        assert(out@ =~= old(out)@ + spaces(2 * i as nat)) by {
            assert("  "@ =~= seq![' ', ' ']) by { reveal_strlit("  "); }
        }
    }
}

fn push_base_name(out: &mut String, path: &str)
    ensures
        final(out)@ == old(out)@ + base_name(path@),
{
    broadcast use vstd::string::group_string_axioms;

    let mut name = String::new();
    for c in it: path.chars()
        invariant
            it.seq() == path@,
            name@ == base_name(path@.take(it.index() as int)),
    {
        let ghost k = it.index() as int;
        assert(path@.take(k + 1).drop_last() =~= path@.take(k));
        if c == '/' {
            name = String::new();
        } else {
            push_char(&mut name, c);
        }
    }
    assert(path@.take(path@.len() as int) =~= path@);
    out.append(name.as_str());
}

fn push_fields(out: &mut String, fields: &Vec<FieldSnapshot>)
    ensures
        final(out)@ == old(out)@ + fields_text(fields@),
{
    let ghost parts = fields@.map_values(|f: FieldSnapshot| f.name@ + "="@ + f.value@);
    let mut joined = String::new();
    for i in 0..fields.len()
        invariant
            parts == fields@.map_values(|f: FieldSnapshot| f.name@ + "="@ + f.value@),
            joined@ == join(parts.take(i as int), " "@),
    {
        if i > 0 {
            joined.append(" ");
        }
        joined.append(fields[i].name.as_str());
        joined.append("=");
        joined.append(fields[i].value.as_str());
        proof {
            let next = parts.take(i + 1);
            assert(next.drop_last() =~= parts.take(i as int));
            assert(next.last() == fields@[i as int].name@ + "="@ + fields@[i as int].value@);
            if i == 0 {
                assert(joined@ =~= join(next, " "@));
            } else {
                assert(joined@ =~= join(next, " "@));
            }
        }
    }
    assert(parts.take(fields.len() as int) =~= parts);
    if !joined.as_str().is_empty() {
        out.append(" [");
        out.append(joined.as_str());
        out.append("]");
    }
    assert(out@ =~= old(out)@ + fields_text(fields@));
}

fn node_line_of(node: &TraceSnapshot, show_threads: bool) -> (line: String)
    ensures
        line@ == node_line(*node, show_threads),
{
    let mut line = String::new();
    push_indent(&mut line, node.depth);
    if node.is_event {
        line.append("\u{2022} ");
        line.append(node.label.as_str());
        if !node.detail.as_str().is_empty() {
            line.append(": ");
            line.append(node.detail.as_str());
        }
    } else {
        line.append(node.label.as_str());
        line.append(" ");
        let mut wall = String::new();
        push_nanos(&mut wall, node.nanos);
        assert(wall@ =~= nanos_text(node.nanos as nat));
        push_padded_left(&mut line, wall.as_str(), 9);
    }
    push_fields(&mut line, &node.fields);
    if show_threads {
        line.append(" [");
        line.append(node.thread.as_str());
        line.append("]");
    }
    line.append("  (");
    push_base_name(&mut line, node.file.as_str());
    line.append(":");
    push_dec(&mut line, node.line as u128);
    line.append(")");
    assert(line@ =~= node_line(*node, show_threads));
    line
}

/// The lines of a text, as `str::lines` yields them.
fn split_lines(text: &str) -> (lines: Vec<String>)
    ensures
        lines@.map_values(|s: String| s@) == text_lines(text@),
{
    broadcast use vstd::string::group_string_axioms;

    let mut lines: Vec<String> = Vec::new();
    let mut current = String::new();
    for c in it: text.chars()
        invariant
            it.seq() == text@,
            lines@.map_values(|s: String| s@) == segments(text@.take(it.index() as int)).drop_last().map_values(|l: Seq<char>| strip_cr(l)),
            current@ == segments(text@.take(it.index() as int)).last(),
    {
        let ghost k = it.index() as int;
        let ghost before = text@.take(k);
        assert(text@.take(k + 1).drop_last() =~= before);
        assert(segments(before).len() >= 1) by { lemma_segments_nonempty(before); }
        if c == '\n' {
            let ghost prev = lines@;
            let line = strip_cr_of(current);
            lines.push(line);
            current = String::new();
            assert(segments(text@.take(k + 1)) == segments(before).push(Seq::empty()));
            assert(segments(text@.take(k + 1)).drop_last() =~= segments(before));
            assert(segments(before) =~= segments(before).drop_last().push(segments(before).last()));
            assert(lines@.map_values(|s: String| s@) =~= prev.map_values(|s: String| s@).push(strip_cr(segments(before).last())));
            assert(lines@.map_values(|s: String| s@) =~= segments(text@.take(k + 1)).drop_last().map_values(|l: Seq<char>| strip_cr(l)));
        } else {
            push_char(&mut current, c);
            let ghost segs = segments(before);
            assert(segments(text@.take(k + 1)) == segs.update(segs.len() - 1, segs.last().push(c)));
            assert(segments(text@.take(k + 1)).drop_last() =~= segs.drop_last());
        }
    }
    assert(text@.take(text@.len() as int) =~= text@);
    proof { lemma_segments_nonempty(text@); }
    if !current.as_str().is_empty() {
        let ghost prev = lines@;
        lines.push(current);
        assert(lines@.map_values(|s: String| s@) =~= prev.map_values(|s: String| s@).push(segments(text@).last()));
    }
    lines
}

proof fn lemma_segments_nonempty(s: Seq<char>)
    ensures
        segments(s).len() >= 1,
    decreases s.len(),
{
    if s.len() > 0 {
        lemma_segments_nonempty(s.drop_last());
    }
}

/// A line without a final carriage return.
fn strip_cr_of(line: String) -> (r: String)
    ensures
        r@ == strip_cr(line@),
{
    broadcast use vstd::string::group_string_axioms;

    let n = line.as_str().unicode_len();
    if n > 0 && line.as_str().get_char(n - 1) == '\r' {
        let kept = line.as_str().substring_char(0, n - 1);
        let mut r = String::new();
        r.append(kept);
        assert(r@ =~= strip_cr(line@));
        r
    } else {
        line
    }
}

/// Appends the stack lines of a node.
fn push_stack(lines: &mut Vec<String>, node: &TraceSnapshot)
    ensures
        final(lines)@.map_values(|s: String| s@) == old(lines)@.map_values(|s: String| s@) + stack_text(*node),
{
    if node.stack.as_str().is_empty() {
        assert(text_lines(node.stack@) =~= Seq::<Seq<char>>::empty()) by {
            assert(node.stack@ =~= Seq::<char>::empty());
            assert(segments(Seq::<char>::empty()) =~= seq![Seq::<char>::empty()]);
        }
        assert(old(lines)@.map_values(|s: String| s@) + stack_text(*node) =~= old(lines)@.map_values(|s: String| s@));
        return;
    }
    let split = split_lines(node.stack.as_str());
    let limit: usize = if split.len() > 32 { 32 } else { split.len() };
    let ghost shown = if text_lines(node.stack@).len() > 32 { text_lines(node.stack@).take(32) } else { text_lines(node.stack@) };
    assert(shown =~= split@.map_values(|s: String| s@).take(limit as int));
    for i in 0..limit
        invariant
            limit <= split.len(),
            shown == split@.map_values(|s: String| s@).take(limit as int),
            lines@.map_values(|s: String| s@) == old(lines)@.map_values(|s: String| s@) + shown.take(i as int).map_values(|l: Seq<char>| indent_text(node.depth as nat) + "    \u{21b3} "@ + l),
    {
        let mut line = String::new();
        push_indent(&mut line, node.depth);
        line.append("    \u{21b3} ");
        line.append(split[i].as_str());
        let ghost prev = lines@;
        lines.push(line);
        assert(shown[i as int] == split@[i as int]@);
        assert(lines@.map_values(|s: String| s@) =~= prev.map_values(|s: String| s@).push(indent_text(node.depth as nat) + "    \u{21b3} "@ + shown[i as int]));
        assert(shown.take(i + 1).map_values(|l: Seq<char>| indent_text(node.depth as nat) + "    \u{21b3} "@ + l) =~= shown.take(i as int).map_values(|l: Seq<char>| indent_text(node.depth as nat) + "    \u{21b3} "@ + l).push(indent_text(node.depth as nat) + "    \u{21b3} "@ + shown[i as int]));
    }
    assert(shown.take(limit as int) =~= shown);
}

} // verus!
