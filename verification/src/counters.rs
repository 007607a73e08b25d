//! Named counters: adding to a counter, clearing them, and their report lines.
use vstd::prelude::*;
use vstd::string::*;
use crate::model::{copy_counters, CounterSnapshot};
use crate::text::{dec_text, owned, pad_right, push_dec, push_padded_right};
use crate::profile::{distinct, lemma_distinct_push};
use crate::Profiler;

verus! {

/// `a + b`, or `u64::MAX` where that does not fit.
pub open spec fn sat_add(a: u64, b: u64) -> u64 {
    if a + b > u64::MAX {
        u64::MAX
    } else {
        (a + b) as u64
    }
}

/// The position of the first counter named `name`, if any.
pub open spec fn find_counter(counters: Seq<CounterSnapshot>, name: Seq<char>) -> Option<int> {
    if exists|i: int| 0 <= i < counters.len() && (#[trigger] counters[i]).name@ == name {
        let i = choose|i: int|
            0 <= i < counters.len() && (#[trigger] counters[i]).name@ == name && forall|j: int|
                0 <= j < i ==> (#[trigger] counters[j]).name@ != name;
        Some(i)
    } else {
        None
    }
}

/// The value of the counter named `name`, zero when there is none.
pub open spec fn counter_value(counters: Seq<CounterSnapshot>, name: Seq<char>) -> u64 {
    match find_counter(counters, name) {
        Some(i) => counters[i].value,
        None => 0,
    }
}

/// No two counters share a name.
pub open spec fn names_distinct(counters: Seq<CounterSnapshot>) -> bool {
    forall|i: int, j: int|
        0 <= i < counters.len() && 0 <= j < counters.len() && i != j ==> (#[trigger] counters[i]).name@
            != (#[trigger] counters[j]).name@
}

/// The counters after adding `n` to the one named `name`: its value grows by `n`
/// (saturating), or, when there is none, a counter with that name and value `n` is
/// added at the end.
pub open spec fn counted(counters: Seq<CounterSnapshot>, name: Seq<char>, n: u64, new: CounterSnapshot) -> bool {
    match find_counter(counters, name) {
        Some(i) => new == CounterSnapshot { name: counters[i].name, value: sat_add(counters[i].value, n) },
        None => new.name@ == name && new.value == n,
    }
}

/// `after` is what counting `n` under `name` makes of `before`: the first counter
/// with that name is updated in place, or a new counter is appended.
pub open spec fn count_result(
    before: Seq<CounterSnapshot>,
    name: Seq<char>,
    n: u64,
    after: Seq<CounterSnapshot>,
) -> bool {
    match find_counter(before, name) {
        Some(i) => after == before.update(i, after[i]) && counted(before, name, n, after[i]),
        None => after.len() == before.len() + 1 && after.drop_last() == before && counted(
            before,
            name,
            n,
            after.last(),
        ),
    }
}

/// Counting adds to exactly one counter: the counter named `name` reads its old
/// value plus `n` (saturating), every other name reads what it read before, and
/// names that were distinct stay distinct.
pub proof fn law_count_adds(
    before: Seq<CounterSnapshot>,
    name: Seq<char>,
    n: u64,
    after: Seq<CounterSnapshot>,
)
    requires
        count_result(before, name, n, after),
    ensures
        counter_value(after, name) == sat_add(counter_value(before, name), n),
        forall|other: Seq<char>| other != name ==> #[trigger] counter_value(after, other) == counter_value(before, other),
        names_distinct(before) ==> names_distinct(after),
{
    // names at the positions that `before` already had are unchanged
    assert forall|j: int| 0 <= j < before.len() implies (#[trigger] after[j]).name@ == before[j].name@ by {
        match find_counter(before, name) {
            Some(i) => {
                lemma_find_counter_spec(before, name);
                if j == i {
                } else {
                    assert(after[j] == before.update(i, after[i])[j]);
                }
            },
            None => {
                assert(after[j] == after.drop_last()[j]);
            },
        }
    }
    match find_counter(before, name) {
        Some(i) => {
            lemma_find_counter_spec(before, name);
            lemma_find_counter(after, name, i);
        },
        None => {
            lemma_find_counter_none(before, name);
            let last = after.len() - 1;
            assert(after[last] == after.last());
            lemma_find_counter(after, name, last);
        },
    }
    assert forall|other: Seq<char>| other != name implies #[trigger] counter_value(after, other) == counter_value(before, other) by {
        match find_counter(before, other) {
            Some(k) => {
                lemma_find_counter_spec(before, other);
                lemma_find_counter(after, other, k);
                if find_counter(before, name) == Some(k) {
                    lemma_find_counter_spec(before, name);
                }
                assert(after[k] == before[k]) by {
                    match find_counter(before, name) {
                        Some(i) => {
                            lemma_find_counter_spec(before, name);
                            assert(after[k] == before.update(i, after[i])[k]);
                        },
                        None => {
                            assert(after[k] == after.drop_last()[k]);
                        },
                    }
                }
            },
            None => {
                lemma_find_counter_none(before, other);
                if exists|q: int| 0 <= q < after.len() && (#[trigger] after[q]).name@ == other {
                    let q = choose|q: int| 0 <= q < after.len() && (#[trigger] after[q]).name@ == other;
                    if q < before.len() {
                        assert(before[q].name@ == other);
                    } else {
                        assert(find_counter(before, name) is None);
                        assert(after[q] == after.last());
                    }
                }
            },
        }
    }
    if names_distinct(before) {
        assert forall|a: int, b: int|
            0 <= a < after.len() && 0 <= b < after.len() && a != b implies (#[trigger] after[a]).name@
                != (#[trigger] after[b]).name@ by {
            if a < before.len() && b < before.len() {
                assert(before[a].name@ != before[b].name@);
            } else if a < before.len() {
                assert(find_counter(before, name) is None);
                assert(after[b] == after.last());
                lemma_find_counter_none(before, name);
                assert(before[a].name@ != name);
            } else {
                assert(find_counter(before, name) is None);
                assert(after[a] == after.last());
                lemma_find_counter_none(before, name);
                assert(before[b].name@ != name);
            }
        }
    }
}

/// Two counts under one name add up (each saturating).
pub proof fn law_count_twice(
    c0: Seq<CounterSnapshot>,
    name: Seq<char>,
    n: u64,
    c1: Seq<CounterSnapshot>,
    m: u64,
    c2: Seq<CounterSnapshot>,
)
    requires
        count_result(c0, name, n, c1),
        count_result(c1, name, m, c2),
    ensures
        counter_value(c2, name) == sat_add(sat_add(counter_value(c0, name), n), m),
{
    law_count_adds(c0, name, n, c1);
    law_count_adds(c1, name, m, c2);
}

/// What the first `k` of a sequence of counts added under `name`: the amounts
/// of the counts made under that name, summed with saturation.
pub open spec fn counted_total(names: Seq<Seq<char>>, amounts: Seq<u64>, k: int, name: Seq<char>) -> u64
    decreases k,
{
    if k <= 0 {
        0
    } else {
        let before = counted_total(names, amounts, k - 1, name);
        if names[k - 1] == name {
            sat_add(before, amounts[k - 1])
        } else {
            before
        }
    }
}

/// The names of a list of counters.
pub open spec fn counter_names(counters: Seq<CounterSnapshot>) -> Seq<Seq<char>> {
    counters.map_values(|c: CounterSnapshot| c.name@)
}

proof fn lemma_count_prefix(
    names: Seq<Seq<char>>,
    amounts: Seq<u64>,
    tables: Seq<Seq<CounterSnapshot>>,
    k: int,
)
    requires
        names.len() == amounts.len(),
        tables.len() == names.len() + 1,
        tables[0].len() == 0,
        forall|j: int|
            0 <= j < names.len() ==> count_result(#[trigger] tables[j], names[j], amounts[j], tables[j + 1]),
        0 <= k <= names.len(),
    ensures
        counter_names(tables[k]) == distinct(names.take(k)),
        names_distinct(tables[k]),
        forall|name: Seq<char>| #[trigger] counter_value(tables[k], name) == counted_total(names, amounts, k, name),
    decreases k,
{
    if k == 0 {
        assert(counter_names(tables[0]) =~= Seq::empty());
        assert(names.take(0) =~= Seq::<Seq<char>>::empty());
        assert forall|name: Seq<char>| #[trigger] counter_value(tables[k], name) == counted_total(names, amounts, k, name) by {
            assert(find_counter(tables[0], name) is None);
        }
    } else {
        let j = k - 1;
        lemma_count_prefix(names, amounts, tables, j);
        let before = tables[j];
        let after = tables[k];
        let x = names[j];
        assert(count_result(before, x, amounts[j], after));
        law_count_adds(before, x, amounts[j], after);
        assert(names.take(k) =~= names.take(j).push(x));
        lemma_distinct_push(names.take(j), x);
        match find_counter(before, x) {
            Some(i) => {
                lemma_find_counter_spec(before, x);
                assert(counter_names(before)[i] == x);
                assert(counter_names(before).contains(x));
                assert(counter_names(after) =~= counter_names(before)) by {
                    assert forall|q: int| 0 <= q < after.len() implies after[q].name@ == before[q].name@ by {
                        if q != i {
                            assert(after[q] == before.update(i, after[i])[q]);
                        }
                    }
                }
            },
            None => {
                lemma_find_counter_none(before, x);
                assert(!counter_names(before).contains(x)) by {
                    if counter_names(before).contains(x) {
                        let q = choose|q: int| 0 <= q < counter_names(before).len() && counter_names(before)[q] == x;
                        assert(before[q].name@ == x);
                    }
                }
                assert(counter_names(after) =~= counter_names(before).push(x)) by {
                    assert forall|q: int| 0 <= q < before.len() implies after[q].name@ == before[q].name@ by {
                        assert(after[q] == after.drop_last()[q]);
                    }
                    assert(after[before.len() as int] == after.last());
                }
            },
        }
        assert forall|name: Seq<char>| #[trigger] counter_value(tables[k], name) == counted_total(names, amounts, k, name) by {
            assert(counter_value(before, name) == counted_total(names, amounts, j, name));
            if name != x {
                assert(counter_value(after, name) == counter_value(before, name));
            }
        }
    }
}

/// After a sequence of counts made while enabled, starting from no counters, the
/// counters are the distinct names counted, in order of first use, each holding
/// the saturating sum of the amounts counted under it.
pub proof fn law_count_sequence(names: Seq<Seq<char>>, amounts: Seq<u64>, tables: Seq<Seq<CounterSnapshot>>)
    requires
        names.len() == amounts.len(),
        tables.len() == names.len() + 1,
        tables[0].len() == 0,
        forall|j: int|
            0 <= j < names.len() ==> count_result(#[trigger] tables[j], names[j], amounts[j], tables[j + 1]),
    ensures
        counter_names(tables.last()) == distinct(names),
        forall|i: int|
            0 <= i < tables.last().len() ==> (#[trigger] tables.last()[i]).value == counted_total(
                names,
                amounts,
                names.len() as int,
                tables.last()[i].name@,
            ),
        forall|name: Seq<char>|
            #[trigger] counter_value(tables.last(), name) == counted_total(names, amounts, names.len() as int, name),
{
    let k = names.len() as int;
    lemma_count_prefix(names, amounts, tables, k);
    assert(names.take(k) =~= names);
    assert(tables.last() == tables[k]);
    let last = tables[k];
    assert forall|i: int| 0 <= i < last.len() implies (#[trigger] last[i]).value == counted_total(
        names,
        amounts,
        k,
        last[i].name@,
    ) by {
        assert forall|q: int| 0 <= q < i implies (#[trigger] last[q]).name@ != last[i].name@ by {}
        lemma_find_counter(last, last[i].name@, i);
        assert(counter_value(last, last[i].name@) == counted_total(names, amounts, k, last[i].name@));
    }
}

proof fn lemma_find_counter_spec(counters: Seq<CounterSnapshot>, name: Seq<char>)
    requires
        find_counter(counters, name) is Some,
    ensures
        ({
            let i = find_counter(counters, name)->0;
            &&& 0 <= i < counters.len()
            &&& counters[i].name@ == name
            &&& forall|j: int| 0 <= j < i ==> (#[trigger] counters[j]).name@ != name
        }),
{
    let w = choose|i: int| 0 <= i < counters.len() && (#[trigger] counters[i]).name@ == name;
    lemma_first_match(counters, name, w);
}

proof fn lemma_first_match(counters: Seq<CounterSnapshot>, name: Seq<char>, w: int)
    requires
        0 <= w < counters.len(),
        counters[w].name@ == name,
    ensures
        exists|i: int|
            0 <= i < counters.len() && (#[trigger] counters[i]).name@ == name && forall|j: int|
                0 <= j < i ==> (#[trigger] counters[j]).name@ != name,
    decreases w,
{
    if exists|j: int| 0 <= j < w && (#[trigger] counters[j]).name@ == name {
        let j = choose|j: int| 0 <= j < w && (#[trigger] counters[j]).name@ == name;
        lemma_first_match(counters, name, j);
    } else {
        assert(forall|j: int| 0 <= j < w ==> (#[trigger] counters[j]).name@ != name);
    }
}

proof fn lemma_find_counter_none(counters: Seq<CounterSnapshot>, name: Seq<char>)
    requires
        find_counter(counters, name) is None,
    ensures
        forall|j: int| 0 <= j < counters.len() ==> (#[trigger] counters[j]).name@ != name,
{
    if exists|j: int| 0 <= j < counters.len() && (#[trigger] counters[j]).name@ == name {
        let w = choose|j: int| 0 <= j < counters.len() && (#[trigger] counters[j]).name@ == name;
        lemma_first_match(counters, name, w);
    }
}

pub proof fn lemma_find_counter(counters: Seq<CounterSnapshot>, name: Seq<char>, k: int)
    requires
        0 <= k < counters.len(),
        counters[k].name@ == name,
        forall|j: int| 0 <= j < k ==> (#[trigger] counters[j]).name@ != name,
    ensures
        find_counter(counters, name) == Some(k),
{
    let i = choose|i: int|
        0 <= i < counters.len() && (#[trigger] counters[i]).name@ == name && forall|j: int|
            0 <= j < i ==> (#[trigger] counters[j]).name@ != name;
    assert(counters[k].name@ == name);
    if i < k {
        assert(counters[i].name@ != name);
    } else if i > k {
        assert(counters[k].name@ != name);
    }
}

/// Adds `n` to the counter named `name`, creating it when new; does nothing while
/// the profiler is disabled.
pub fn count(profiler: &mut Profiler, name: &str, n: u64)
    ensures
        !old(profiler).enabled ==> *final(profiler) == *old(profiler),
        old(profiler).enabled ==> count_result(old(profiler).counters@, name@, n, final(profiler).counters@),
        final(profiler).enabled == old(profiler).enabled,
        final(profiler).total_nanos == old(profiler).total_nanos,
        final(profiler).phases == old(profiler).phases,
        final(profiler).rss == old(profiler).rss,
        final(profiler).traces == old(profiler).traces,
{
    if !profiler.enabled {
        return;
    }
    let key = owned(name);
    let len = profiler.counters.len();
    let mut i: usize = 0;
    while i < len
        invariant
            key@ == name@,
            old(profiler).enabled,
            len == profiler.counters.len(),
            i <= len,
            *profiler == *old(profiler),
            forall|j: int| 0 <= j < i ==> (#[trigger] profiler.counters@[j]).name@ != name@,
        decreases len - i,
    {
        let same = profiler.counters[i].name == key;
        if same {
            assert(profiler.counters@[i as int].name@ == name@);
            proof { lemma_find_counter(profiler.counters@, name@, i as int); }
            let value = profiler.counters[i].value.saturating_add(n);
            let counter = CounterSnapshot { name: profiler.counters[i].name.clone(), value };
            profiler.counters.set(i, counter);
            return;
        }
        i = i + 1;
    }
    assert(find_counter(profiler.counters@, name@) is None);
    profiler.counters.push(CounterSnapshot { name: name.to_owned(), value: n });
    assert(profiler.counters@.drop_last() =~= old(profiler).counters@);
}

/// Clears all counters.
pub fn reset(profiler: &mut Profiler)
    ensures
        final(profiler).counters@.len() == 0,
        final(profiler).enabled == old(profiler).enabled,
        final(profiler).total_nanos == old(profiler).total_nanos,
        final(profiler).phases == old(profiler).phases,
        final(profiler).rss == old(profiler).rss,
        final(profiler).traces == old(profiler).traces,
{
    profiler.counters.clear();
}

/// A copy of the counters.
pub fn snapshot(profiler: &Profiler) -> (r: Vec<CounterSnapshot>)
    ensures
        r@ == profiler.counters@,
{
    copy_counters(&profiler.counters)
}

/// The report line of a counter: two spaces, the name padded to 22 characters,
/// a space and the value.
pub open spec fn counter_line(c: CounterSnapshot) -> Seq<char> {
    "  "@ + pad_right(c.name@, 22) + " "@ + dec_text(c.value as nat)
}

/// The report lines of the counters whose value is not zero, in order.
pub open spec fn nonzero_counter_lines(counters: Seq<CounterSnapshot>) -> Seq<Seq<char>>
    decreases counters.len(),
{
    if counters.len() == 0 {
        Seq::empty()
    } else if counters.last().value == 0 {
        nonzero_counter_lines(counters.drop_last())
    } else {
        nonzero_counter_lines(counters.drop_last()).push(counter_line(counters.last()))
    }
}

/// The counter section of a report: a header and one line per counter that is not
/// zero, or nothing when every counter is zero.
pub open spec fn counter_report(counters: Seq<CounterSnapshot>) -> Seq<Seq<char>> {
    let lines = nonzero_counter_lines(counters);
    if lines.len() == 0 {
        Seq::empty()
    } else {
        seq!["\u{2500}\u{2500} counters \u{2500}\u{2500}"@] + lines
    }
}

proof fn lemma_nonzero_lines_filter(counters: Seq<CounterSnapshot>)
    ensures
        nonzero_counter_lines(counters) == counters.filter(|c: CounterSnapshot| c.value != 0).map_values(
            |c: CounterSnapshot| counter_line(c),
        ),
    decreases counters.len(),
{
    reveal_with_fuel(Seq::<_>::filter, 1);
    if counters.len() > 0 {
        lemma_nonzero_lines_filter(counters.drop_last());
        let kept = counters.drop_last().filter(|c: CounterSnapshot| c.value != 0);
        if counters.last().value != 0 {
            assert(kept.push(counters.last()).map_values(|c: CounterSnapshot| counter_line(c)) =~= kept.map_values(
                |c: CounterSnapshot| counter_line(c),
            ).push(counter_line(counters.last())));
        }
    }
}

/// The counter section lists every counter that is not zero, in order, one line
/// each, under a single header; when every counter is zero it is empty.
pub proof fn law_counter_report(counters: Seq<CounterSnapshot>)
    ensures
        ({
            let nonzero = counters.filter(|c: CounterSnapshot| c.value != 0);
            let report = counter_report(counters);
            &&& nonzero.len() == 0 ==> report.len() == 0
            &&& nonzero.len() > 0 ==> {
                &&& report.len() == nonzero.len() + 1
                &&& report[0] == "\u{2500}\u{2500} counters \u{2500}\u{2500}"@
                &&& forall|k: int|
                    0 <= k < nonzero.len() ==> #[trigger] report[k + 1] == "  "@ + pad_right(
                        nonzero[k].name@,
                        22,
                    ) + " "@ + dec_text(nonzero[k].value as nat)
            }
        }),
{
    lemma_nonzero_lines_filter(counters);
}

/// The counter section of a report, line by line.
pub fn report(counters: &Vec<CounterSnapshot>) -> (lines: Vec<String>)
    ensures
        lines@.map_values(|s: String| s@) == counter_report(counters@),
{
    let mut body: Vec<String> = Vec::new();
    for i in 0..counters.len()
        invariant
            body@.map_values(|s: String| s@) == nonzero_counter_lines(counters@.take(i as int)),
    {
        let counter = &counters[i];
        let ghost prev = body@;
        assert(counters@.take(i + 1).drop_last() =~= counters@.take(i as int));
        if counter.value != 0 {
            let mut line = String::new();
            line.append("  ");
            push_padded_right(&mut line, counter.name.as_str(), 22);
            line.append(" ");
            push_dec(&mut line, counter.value as u128);
            body.push(line);
            assert(line@ =~= counter_line(*counter));
            assert(body@.map_values(|s: String| s@) =~= prev.map_values(|s: String| s@).push(
                counter_line(*counter),
            ));
        }
    }
    assert(counters@.take(counters.len() as int) =~= counters@);
    if body.len() == 0 {
        assert(body@.map_values(|s: String| s@) =~= counter_report(counters@));
        return body;
    }
    let mut lines: Vec<String> = Vec::new();
    let mut header = String::new();
    header.append("\u{2500}\u{2500} counters \u{2500}\u{2500}");
    lines.push(header);
    for i in 0..body.len()
        invariant
            lines@.map_values(|s: String| s@) == seq![
                "\u{2500}\u{2500} counters \u{2500}\u{2500}"@,
            ] + body@.take(i as int).map_values(|s: String| s@),
    {
        let line = body[i].clone();
        let ghost prev = lines@;
        lines.push(line);
        assert(lines@.map_values(|s: String| s@) =~= prev.map_values(|s: String| s@).push(body@[i as int]@));
        assert(body@.take(i + 1).map_values(|s: String| s@) =~= body@.take(i as int).map_values(|s: String| s@).push(body@[i as int]@));
        assert(lines@.map_values(|s: String| s@) =~= seq![
            "\u{2500}\u{2500} counters \u{2500}\u{2500}"@,
        ] + body@.take(i + 1).map_values(|s: String| s@));
    }
    assert(body@.take(body.len() as int) =~= body@);
    assert(lines@.map_values(|s: String| s@) =~= counter_report(counters@));
    lines
}

} // verus!
