//! Tallying the artist names found bare in the prompt fields of the
//! library: how many fields and rows they occur in, which rows first, and
//! the candidates ordered by rows (most first), then by name.
use vstd::prelude::*;

use crate::auto_prefix::AutoArtistCandidate;
use crate::name_index::{compare_chars, lemma_seq_lt_asymmetric, lemma_seq_lt_total, lemma_seq_lt_transitive, seq_lt};
use crate::text::{chars_eq, chars_of, string_of};

verus! {

/// The names matched in each prompt field of one row.
#[derive(Debug, Clone)]
pub struct RowNameMatches {
    pub id: i64,
    pub fields: Vec<Vec<String>>,
}

/// The candidates and the counts of a tally.
#[derive(Debug, Clone, PartialEq, Eq)]
pub struct CandidateTally {
    pub matched_rows: u64,
    pub prompt_fields_needing_changes: u64,
    pub candidates: Vec<AutoArtistCandidate>,
}

/// How many of a row's sample ids a candidate keeps.
pub const SAMPLE_LIMIT: usize = 12;

pub open spec fn field_events(id: i64, names: Seq<String>) -> Seq<(i64, Seq<char>)> {
    names.map_values(|n: String| (id, n@))
}

/// The (row id, name) matches of one row, field by field.
pub open spec fn row_events(id: i64, fields: Seq<Vec<String>>) -> Seq<(i64, Seq<char>)>
    decreases fields.len(),
{
    if fields.len() == 0 {
        Seq::empty()
    } else {
        row_events(id, fields.drop_last()) + field_events(id, fields.last()@)
    }
}

/// Every match of every row, in order.
pub open spec fn events(rows: Seq<RowNameMatches>) -> Seq<(i64, Seq<char>)>
    decreases rows.len(),
{
    if rows.len() == 0 {
        Seq::empty()
    } else {
        events(rows.drop_last()) + row_events(rows.last().id, rows.last().fields@)
    }
}

/// How many fields have some match.
pub open spec fn fields_with_matches(fields: Seq<Vec<String>>) -> nat
    decreases fields.len(),
{
    if fields.len() == 0 {
        0
    } else {
        fields_with_matches(fields.drop_last()) + if fields.last()@.len() > 0 { 1nat } else { 0nat }
    }
}

pub open spec fn total_fields_with_matches(rows: Seq<RowNameMatches>) -> nat
    decreases rows.len(),
{
    if rows.len() == 0 {
        0
    } else {
        total_fields_with_matches(rows.drop_last()) + fields_with_matches(rows.last().fields@)
    }
}

/// How many rows have some match.
pub open spec fn rows_with_matches(rows: Seq<RowNameMatches>) -> nat
    decreases rows.len(),
{
    if rows.len() == 0 {
        0
    } else {
        rows_with_matches(rows.drop_last()) + if fields_with_matches(rows.last().fields@) > 0 { 1nat } else { 0nat }
    }
}

/// How often `n` is matched.
pub open spec fn name_count(n: Seq<char>, ev: Seq<(i64, Seq<char>)>) -> nat
    decreases ev.len(),
{
    if ev.len() == 0 {
        0
    } else {
        name_count(n, ev.drop_last()) + if ev.last().1 == n { 1nat } else { 0nat }
    }
}

/// The rows `n` is matched in, in order, a row counted again only after a
/// match of `n` in another row.
pub open spec fn name_hits(n: Seq<char>, ev: Seq<(i64, Seq<char>)>) -> Seq<i64>
    decreases ev.len(),
{
    if ev.len() == 0 {
        Seq::empty()
    } else {
        let h = name_hits(n, ev.drop_last());
        let e = ev.last();
        if e.1 == n && !(h.len() > 0 && h.last() == e.0) {
            h.push(e.0)
        } else {
            h
        }
    }
}

/// The matched names, each once, in order of first match.
pub open spec fn first_names(ev: Seq<(i64, Seq<char>)>) -> Seq<Seq<char>>
    decreases ev.len(),
{
    if ev.len() == 0 {
        Seq::empty()
    } else {
        let f = first_names(ev.drop_last());
        if f.contains(ev.last().1) {
            f
        } else {
            f.push(ev.last().1)
        }
    }
}

pub open spec fn min_nat(a: nat, b: nat) -> nat {
    if a < b {
        a
    } else {
        b
    }
}

/// What the candidate for `n` reports over the matches `ev`.
pub open spec fn candidate_for(c: AutoArtistCandidate, n: Seq<char>, ev: Seq<(i64, Seq<char>)>) -> bool {
    &&& c.match_name@ == n
    &&& c.display_name@ == n
    &&& c.matched_fields == name_count(n, ev)
    &&& c.matched_rows == name_hits(n, ev).len()
    &&& c.sample_row_ids@ == name_hits(n, ev).take(min_nat(SAMPLE_LIMIT as nat, name_hits(n, ev).len()) as int)
}

/// The order of candidates: more rows first, then by name.
pub open spec fn ranks_before(a: AutoArtistCandidate, b: AutoArtistCandidate) -> bool {
    a.matched_rows > b.matched_rows || (a.matched_rows == b.matched_rows && seq_lt(a.match_name@, b.match_name@))
}

pub open spec fn event_views(v: Seq<(i64, Vec<char>)>) -> Seq<(i64, Seq<char>)> {
    v.map_values(|e: (i64, Vec<char>)| (e.0, e.1@))
}

proof fn lemma_event_views_push(v: Seq<(i64, Vec<char>)>, e: (i64, Vec<char>))
    ensures
        event_views(v.push(e)) == event_views(v).push((e.0, e.1@)),
{
    assert(event_views(v.push(e)) =~= event_views(v).push((e.0, e.1@)));
}

proof fn lemma_events_prefix(rows: Seq<RowNameMatches>, i: int)
    requires
        0 <= i <= rows.len(),
    ensures
        events(rows.take(i)).len() <= events(rows).len(),
    decreases rows.len() - i,
{
    if i < rows.len() {
        lemma_events_prefix(rows, i + 1);
        assert(rows.take(i + 1).drop_last() =~= rows.take(i));
    } else {
        assert(rows.take(i) =~= rows);
    }
}

proof fn lemma_row_events_prefix(id: i64, fields: Seq<Vec<String>>, j: int)
    requires
        0 <= j <= fields.len(),
    ensures
        row_events(id, fields.take(j)).len() <= row_events(id, fields).len(),
    decreases fields.len() - j,
{
    if j < fields.len() {
        lemma_row_events_prefix(id, fields, j + 1);
        assert(fields.take(j + 1).drop_last() =~= fields.take(j));
    } else {
        assert(fields.take(j) =~= fields);
    }
}

/// Lists every match of every row, counting the fields and rows with one.
fn flatten_events(rows: &Vec<RowNameMatches>) -> (r: (Vec<(i64, Vec<char>)>, u64, u64))
    requires
        events(rows@).len() <= u64::MAX,
    ensures
        event_views(r.0@) == events(rows@),
        r.1 == total_fields_with_matches(rows@),
        r.2 == rows_with_matches(rows@),
{
    let mut out: Vec<(i64, Vec<char>)> = Vec::new();
    let mut fields_count: u64 = 0;
    let mut rows_count: u64 = 0;
    let mut i: usize = 0;
    assert(rows@.take(0) =~= Seq::<RowNameMatches>::empty());
    assert(event_views(out@) =~= Seq::<(i64, Seq<char>)>::empty());
    while i < rows.len()
        invariant
            i <= rows.len(),
            event_views(out@) == events(rows@.take(i as int)),
            fields_count == total_fields_with_matches(rows@.take(i as int)),
            rows_count == rows_with_matches(rows@.take(i as int)),
            fields_count <= out@.len(),
            rows_count <= fields_count,
            events(rows@).len() <= u64::MAX,
        decreases rows.len() - i,
    {
        let row = &rows[i];
        proof {
            lemma_events_prefix(rows@, i + 1);
            assert(rows@.take(i + 1).drop_last() =~= rows@.take(i as int));
            assert(rows@.take(i + 1).last() == rows@[i as int]);
        }
        let ghost base = event_views(out@);
        let ghost fcount0 = fields_count;
        let mut in_row: u64 = 0;
        let mut j: usize = 0;
        assert(row.fields@.take(0) =~= Seq::<Vec<String>>::empty());
        assert(base + row_events(row.id, row.fields@.take(0)) =~= base);
        while j < row.fields.len()
            invariant
                j <= row.fields.len(),
                event_views(out@) == base + row_events(row.id, row.fields@.take(j as int)),
                in_row == fields_with_matches(row.fields@.take(j as int)),
                fcount0 + in_row <= out@.len(),
                in_row <= j,
                base.len() >= fcount0,
                base.len() + row_events(row.id, row.fields@.take(j as int)).len() == out@.len(),
                base.len() + row_events(row.id, row.fields@).len() <= u64::MAX,
            decreases row.fields.len() - j,
        {
            proof {
                lemma_row_events_prefix(row.id, row.fields@, j + 1);
                assert(row.fields@.take(j + 1).drop_last() =~= row.fields@.take(j as int));
                assert(row.fields@.take(j + 1).last() == row.fields@[j as int]);
            }
            let names = &row.fields[j];
            let ghost before = event_views(out@);
            let mut k: usize = 0;
            assert(field_events(row.id, names@).take(0) =~= Seq::<(i64, Seq<char>)>::empty());
            assert(before + field_events(row.id, names@).take(0) =~= before);
            while k < names.len()
                invariant
                    k <= names.len(),
                    event_views(out@) == before + field_events(row.id, names@).take(k as int),
                    out@.len() == before.len() + k,
                decreases names.len() - k,
            {
                let e = (row.id, chars_of(names[k].as_str()));
                let ghost ov = out@;
                out.push(e);
                proof {
                    lemma_event_views_push(ov, e);
                }
                k = k + 1;
                assert(field_events(row.id, names@).take(k as int) =~= field_events(row.id, names@).take(k - 1).push(
                    (row.id, names@[k - 1]@),
                ));
                assert(event_views(out@) =~= before + field_events(row.id, names@).take(k as int));
            }
            assert(field_events(row.id, names@).take(k as int) =~= field_events(row.id, names@));
            assert(row.fields@.take(j + 1).drop_last() =~= row.fields@.take(j as int));
            assert(row.fields@.take(j + 1).last() == row.fields@[j as int]);
            if names.len() > 0 {
                in_row = in_row + 1;
            }
            j = j + 1;
            assert(event_views(out@) =~= base + row_events(row.id, row.fields@.take(j as int)));
        }
        assert(row.fields@.take(j as int) =~= row.fields@);
        assert(rows@.take(i + 1).drop_last() =~= rows@.take(i as int));
        assert(rows@.take(i + 1).last() == rows@[i as int]);
        fields_count = fields_count + in_row;
        if in_row > 0 {
            rows_count = rows_count + 1;
        }
        i = i + 1;
    }
    assert(rows@.take(i as int) =~= rows@);
    (out, fields_count, rows_count)
}

struct Acc {
    name: Vec<char>,
    fields: u64,
    rows: u64,
    last: Option<i64>,
    samples: Vec<i64>,
}

spec fn acc_ok(a: Acc, ev: Seq<(i64, Seq<char>)>) -> bool {
    let h = name_hits(a.name@, ev);
    &&& a.fields == name_count(a.name@, ev)
    &&& a.rows == h.len()
    &&& a.last == (if h.len() > 0 { Some(h.last()) } else { None::<i64> })
    &&& a.samples@ == h.take(min_nat(SAMPLE_LIMIT as nat, h.len()) as int)
}

proof fn lemma_count_bounds(n: Seq<char>, ev: Seq<(i64, Seq<char>)>)
    ensures
        name_count(n, ev) <= ev.len(),
        name_hits(n, ev).len() <= name_count(n, ev),
    decreases ev.len(),
{
    if ev.len() > 0 {
        lemma_count_bounds(n, ev.drop_last());
    }
}

proof fn lemma_first_names_facts(ev: Seq<(i64, Seq<char>)>)
    ensures
        first_names(ev).no_duplicates(),
        forall|n: Seq<char>| #[trigger] first_names(ev).contains(n) <==> name_count(n, ev) > 0,
    decreases ev.len(),
{
    if ev.len() > 0 {
        let d = ev.drop_last();
        lemma_first_names_facts(d);
        let f = first_names(d);
        let x = ev.last().1;
        assert forall|n: Seq<char>| #[trigger] first_names(ev).contains(n) <==> name_count(n, ev) > 0 by {
            if !f.contains(x) {
                assert(f.push(x).contains(n) <==> (f.contains(n) || n == x)) by {
                    if f.push(x).contains(n) && n != x {
                        let i = choose|i: int| 0 <= i < f.push(x).len() && f.push(x)[i] == n;
                        assert(f[i] == n);
                    }
                    if f.contains(n) {
                        let i = choose|i: int| 0 <= i < f.len() && f[i] == n;
                        assert(f.push(x)[i] == n);
                    }
                    if n == x {
                        assert(f.push(x)[f.len() as int] == n);
                    }
                }
            }
        }
    }
}

proof fn lemma_other_name_unchanged(n: Seq<char>, ev: Seq<(i64, Seq<char>)>, e: (i64, Seq<char>))
    requires
        e.1 != n,
    ensures
        name_count(n, ev.push(e)) == name_count(n, ev),
        name_hits(n, ev.push(e)) == name_hits(n, ev),
{
    assert(ev.push(e).drop_last() =~= ev);
}

fn copy_ids(v: &Vec<i64>) -> (r: Vec<i64>)
    ensures
        r@ == v@,
{
    let mut out: Vec<i64> = Vec::new();
    let mut i: usize = 0;
    while i < v.len()
        invariant
            i <= v.len(),
            out@ == v@.take(i as int),
        decreases v.len() - i,
    {
        out.push(v[i]);
        i = i + 1;
        assert(out@ =~= v@.take(i as int));
    }
    assert(v@.take(i as int) =~= v@);
    out
}

fn copy_chars(v: &Vec<char>) -> (r: Vec<char>)
    ensures
        r@ == v@,
{
    let mut out: Vec<char> = Vec::new();
    let mut i: usize = 0;
    while i < v.len()
        invariant
            i <= v.len(),
            out@ == v@.take(i as int),
        decreases v.len() - i,
    {
        out.push(v[i]);
        i = i + 1;
        assert(out@ =~= v@.take(i as int));
    }
    assert(v@.take(i as int) =~= v@);
    out
}

/// Accumulates the matches name by name, in order of first match.
fn accumulate(ev: &Vec<(i64, Vec<char>)>) -> (r: Vec<Acc>)
    requires
        ev@.len() <= u64::MAX,
    ensures
        r@.len() == first_names(event_views(ev@)).len(),
        forall|k: int| 0 <= k < r@.len() ==> (#[trigger] r@[k]).name@ == first_names(event_views(ev@))[k] && acc_ok(
            r@[k],
            event_views(ev@),
        ),
{
    let ghost all = event_views(ev@);
    let mut accs: Vec<Acc> = Vec::new();
    let mut i: usize = 0;
    assert(all.take(0) =~= Seq::<(i64, Seq<char>)>::empty());
    while i < ev.len()
        invariant
            i <= ev.len(),
            ev@.len() <= u64::MAX,
            all == event_views(ev@),
            accs@.len() == first_names(all.take(i as int)).len(),
            forall|k: int| 0 <= k < accs@.len() ==> (#[trigger] accs@[k]).name@ == first_names(all.take(i as int))[k]
                && acc_ok(accs@[k], all.take(i as int)),
        decreases ev.len() - i,
    {
        let id = ev[i].0;
        let name = &ev[i].1;
        let ghost p = all.take(i as int);
        let ghost e = (id, name@);
        assert(all[i as int] == e);
        assert(all.take(i + 1) =~= p.push(e));
        assert(p.push(e).drop_last() =~= p);
        proof {
            lemma_first_names_facts(p);
            lemma_count_bounds(name@, p);
        }
        let mut k: usize = 0;
        let mut found = false;
        while k < accs.len() && !found
            invariant
                k <= accs.len(),
                found ==> k < accs.len() && accs@[k as int].name@ == name@,
                forall|j: int| 0 <= j < k ==> (#[trigger] accs@[j]).name@ != name@,
            decreases accs.len() - k + (if found { 0int } else { 1int }),
        {
            if chars_eq(&accs[k].name, name) {
                found = true;
            } else {
                k = k + 1;
            }
        }
        if found {
            let old_fields = accs[k].fields;
            let old_rows = accs[k].rows;
            let old_last = accs[k].last;
            let mut samples = copy_ids(&accs[k].samples);
            let ghost h = name_hits(name@, p);
            assert(accs@[k as int].name@ == name@);
            proof {
                lemma_count_bounds(name@, p);
                assert(old_fields <= i);
            }
            let (rows, last) = if old_last != Some(id) {
                if samples.len() < 12 {
                    samples.push(id);
                }
                (old_rows + 1, Some(id))
            } else {
                (old_rows, old_last)
            };
            proof {
                let h2 = name_hits(name@, p.push(e));
                if old_last != Some(id) {
                    assert(h2 == h.push(id));
                    if h.len() < 12 {
                        assert(h2.take(min_nat(SAMPLE_LIMIT as nat, h2.len()) as int) =~= h.push(id));
                        assert(h.take(min_nat(SAMPLE_LIMIT as nat, h.len()) as int) =~= h);
                    } else {
                        assert(h2.take(12) =~= h.take(12));
                    }
                } else {
                    assert(h2 == h);
                }
            }
            let a = Acc { name: copy_chars(name), fields: old_fields + 1, rows, last, samples };
            accs.set(k, a);
            proof {
                assert forall|j: int| 0 <= j < accs@.len() implies (#[trigger] accs@[j]).name@ == first_names(
                    p.push(e),
                )[j] && acc_ok(accs@[j], p.push(e)) by {
                    assert(first_names(p).contains(name@));
                    if j != k {
                        lemma_other_name_unchanged(accs@[j].name@, p, e);
                    }
                }
            }
        } else {
            proof {
                assert(!first_names(p).contains(name@)) by {
                    if first_names(p).contains(name@) {
                        let j = choose|j: int| 0 <= j < first_names(p).len() && first_names(p)[j] == name@;
                        assert(accs@[j].name@ == name@);
                    }
                }
                assert(name_count(name@, p) == 0);
                assert(name_hits(name@, p).len() == 0);
            }
            let mut samples: Vec<i64> = Vec::new();
            samples.push(id);
            let a = Acc { name: copy_chars(name), fields: 1, rows: 1, last: Some(id), samples };
            let ghost before = accs@;
            accs.push(a);
            proof {
                let h2 = name_hits(name@, p.push(e));
                assert(h2 =~= seq![id]);
                assert(h2.take(min_nat(SAMPLE_LIMIT as nat, h2.len()) as int) =~= seq![id]);
                assert forall|j: int| 0 <= j < accs@.len() implies (#[trigger] accs@[j]).name@ == first_names(
                    p.push(e),
                )[j] && acc_ok(accs@[j], p.push(e)) by {
                    if j < before.len() {
                        assert(accs@[j] == before[j]);
                        lemma_other_name_unchanged(accs@[j].name@, p, e);
                    }
                }
            }
        }
        i = i + 1;
    }
    assert(all.take(i as int) =~= all);
    accs
}

proof fn lemma_ranks_transitive(a: AutoArtistCandidate, b: AutoArtistCandidate, c: AutoArtistCandidate)
    requires
        ranks_before(a, b),
        ranks_before(b, c),
    ensures
        ranks_before(a, c),
{
    if a.matched_rows == b.matched_rows && b.matched_rows == c.matched_rows {
        lemma_seq_lt_transitive(a.match_name@, b.match_name@, c.match_name@);
    }
}

proof fn lemma_ranks_total(a: AutoArtistCandidate, b: AutoArtistCandidate)
    requires
        a.match_name@ != b.match_name@,
    ensures
        ranks_before(a, b) || ranks_before(b, a),
{
    lemma_seq_lt_total(a.match_name@, b.match_name@);
}

fn ranks_before_exec(a: &AutoArtistCandidate, b: &AutoArtistCandidate) -> (r: bool)
    ensures
        r == ranks_before(*a, *b),
{
    if a.matched_rows != b.matched_rows {
        a.matched_rows > b.matched_rows
    } else {
        compare_chars(&chars_of(a.match_name.as_str()), &chars_of(b.match_name.as_str())) < 0
    }
}

pub open spec fn names_distinct(s: Seq<AutoArtistCandidate>) -> bool {
    forall|i: int, j: int| 0 <= i < j < s.len() ==> (#[trigger] s[i]).match_name@ != (#[trigger] s[j]).match_name@
}

pub open spec fn ranked(s: Seq<AutoArtistCandidate>) -> bool {
    forall|i: int, j: int| 0 <= i < j < s.len() ==> ranks_before(#[trigger] s[i], #[trigger] s[j])
}

/// Orders candidates by `ranks_before`, keeping every one of them.
fn sort_candidates(cands: Vec<AutoArtistCandidate>) -> (r: Vec<AutoArtistCandidate>)
    requires
        names_distinct(cands@),
    ensures
        r@.len() == cands@.len(),
        forall|k: int| 0 <= k < r@.len() ==> cands@.contains(#[trigger] r@[k]),
        forall|j: int| 0 <= j < cands@.len() ==> r@.contains(#[trigger] cands@[j]),
        ranked(r@),
{
    let ghost orig = cands@;
    let ghost n = cands@.len();
    let mut rest = cands;
    let mut out: Vec<AutoArtistCandidate> = Vec::new();
    assert(rest@ =~= orig.take(n as int));
    while rest.len() > 0
        invariant
            orig.len() == n,
            names_distinct(orig),
            rest@.len() <= n,
            rest@ == orig.take(rest@.len() as int),
            out@.len() == n - rest@.len(),
            forall|k: int| 0 <= k < out@.len() ==> exists|j: int| rest@.len() <= j < n && #[trigger] out@[k] == orig[j],
            forall|j: int| rest@.len() <= j < n ==> out@.contains(#[trigger] orig[j]),
            ranked(out@),
        decreases rest@.len(),
    {
        let ghost m = rest@.len();
        let x = rest.pop().unwrap();
        assert(x == orig[m - 1]);
        assert(rest@ =~= orig.take(m - 1));
        let mut j: usize = 0;
        let mut placed = false;
        while j < out.len() && !placed
            invariant
                j <= out@.len(),
                placed ==> j < out@.len() && ranks_before(x, out@[j as int]),
                forall|k: int| 0 <= k < j ==> !ranks_before(x, #[trigger] out@[k]),
            decreases out@.len() - j + (if placed { 0int } else { 1int }),
        {
            if ranks_before_exec(&x, &out[j]) {
                placed = true;
            } else {
                j = j + 1;
            }
        }
        let ghost before = out@;
        proof {
            assert forall|k: int| 0 <= k < before.len() implies #[trigger] before[k].match_name@ != x.match_name@ by {
                let jj = choose|jj: int| m <= jj < n && before[k] == orig[jj];
                assert(orig[m - 1].match_name@ != orig[jj].match_name@);
            }
            assert forall|k: int| 0 <= k < j implies ranks_before(#[trigger] before[k], x) by {
                lemma_ranks_total(before[k], x);
            }
            assert forall|k: int| j <= k < before.len() implies ranks_before(x, #[trigger] before[k]) by {
                if k > j {
                    lemma_ranks_transitive(x, before[j as int], before[k]);
                }
            }
            before.insert_ensures(j as int, x);
        }
        out.insert(j, x);
        proof {
            let o = out@;
            assert(o == before.insert(j as int, x));
            assert forall|a: int, b: int| 0 <= a < b < o.len() implies ranks_before(#[trigger] o[a], #[trigger] o[b]) by {
                if b < j {
                } else if a < j && b == j {
                } else if a < j && b > j {
                    assert(o[b] == before[b - 1]);
                } else if a == j {
                    assert(o[b] == before[b - 1]);
                } else {
                    assert(o[a] == before[a - 1]);
                    assert(o[b] == before[b - 1]);
                }
            }
            assert forall|k: int| 0 <= k < o.len() implies exists|jj: int| m - 1 <= jj < n && #[trigger] o[k] == orig[jj] by {
                if k < j {
                    assert(o[k] == before[k]);
                    let jj = choose|jj: int| m <= jj < n && before[k] == orig[jj];
                } else if k == j {
                    assert(o[k] == orig[m - 1]);
                } else {
                    assert(o[k] == before[k - 1]);
                    let jj = choose|jj: int| m <= jj < n && before[k - 1] == orig[jj];
                }
            }
            assert forall|jj: int| m - 1 <= jj < n implies o.contains(#[trigger] orig[jj]) by {
                if jj == m - 1 {
                    assert(o[j as int] == orig[jj]);
                } else {
                    let k = choose|k: int| 0 <= k < before.len() && before[k] == orig[jj];
                    if k < j {
                        assert(o[k] == orig[jj]);
                    } else {
                        assert(o[k + 1] == orig[jj]);
                    }
                }
            }
        }
    }
    proof {
        assert forall|k: int| 0 <= k < out@.len() implies orig.contains(#[trigger] out@[k]) by {
            let jj = choose|jj: int| 0 <= jj < n && out@[k] == orig[jj];
        }
    }
    out
}

/// Tallies the names matched in the rows' prompt fields: the rows and
/// fields with some match, and for each name (see `candidate_for`) its
/// candidate, ordered by `ranks_before`.
pub fn tally_candidates(rows: &Vec<RowNameMatches>) -> (r: CandidateTally)
    requires
        events(rows@).len() <= u64::MAX,
    ensures
        r.matched_rows == rows_with_matches(rows@),
        r.prompt_fields_needing_changes == total_fields_with_matches(rows@),
        r.candidates@.len() == first_names(events(rows@)).len(),
        forall|k: int| 0 <= k < r.candidates@.len() ==> candidate_for(
            #[trigger] r.candidates@[k],
            r.candidates@[k].match_name@,
            events(rows@),
        ) && name_count(r.candidates@[k].match_name@, events(rows@)) > 0,
        forall|n: Seq<char>| name_count(n, events(rows@)) > 0 ==> exists|k: int| 0 <= k < r.candidates@.len()
            && (#[trigger] r.candidates@[k]).match_name@ == n,
        ranked(r.candidates@),
{
    let (ev, fields_count, rows_count) = flatten_events(rows);
    let ghost all = events(rows@);
    assert(event_views(ev@).len() == ev@.len());
    let mut accs = accumulate(&ev);
    let ghost fnames = first_names(all);
    let ghost n = accs@.len();
    let ghost orig = accs@;
    proof {
        lemma_first_names_facts(all);
    }
    let mut cands: Vec<AutoArtistCandidate> = Vec::new();
    while accs.len() > 0
        invariant
            n == fnames.len(),
            fnames == first_names(all),
            fnames.no_duplicates(),
            orig.len() == n,
            forall|k: int| 0 <= k < n ==> (#[trigger] orig[k]).name@ == fnames[k] && acc_ok(orig[k], all),
            accs@.len() <= n,
            accs@ == orig.take(accs@.len() as int),
            cands@.len() == n - accs@.len(),
            forall|k: int| 0 <= k < cands@.len() ==> (#[trigger] cands@[k]).match_name@ == fnames[n - 1 - k]
                && candidate_for(cands@[k], fnames[n - 1 - k], all),
        decreases accs@.len(),
    {
        let ghost m = accs@.len();
        let a = accs.pop().unwrap();
        assert(a == orig[m - 1]);
        assert(accs@ =~= orig.take(m - 1));
        let c = AutoArtistCandidate {
            match_name: string_of(&a.name),
            display_name: string_of(&a.name),
            matched_rows: a.rows,
            matched_fields: a.fields,
            sample_row_ids: a.samples,
        };
        cands.push(c);
    }
    proof {
        assert forall|i: int, j: int| 0 <= i < j < cands@.len() implies (#[trigger] cands@[i]).match_name@
            != (#[trigger] cands@[j]).match_name@ by {
            assert(fnames[n - 1 - i] != fnames[n - 1 - j]);
        }
    }
    let sorted = sort_candidates(cands);
    proof {
        assert forall|k: int| 0 <= k < sorted@.len() implies candidate_for(
            #[trigger] sorted@[k],
            sorted@[k].match_name@,
            all,
        ) && name_count(sorted@[k].match_name@, all) > 0 by {
            let j = choose|j: int| 0 <= j < cands@.len() && cands@[j] == sorted@[k];
            assert(fnames.contains(fnames[n - 1 - j]));
        }
        assert forall|nm: Seq<char>| name_count(nm, all) > 0 implies exists|k: int| 0 <= k < sorted@.len()
            && (#[trigger] sorted@[k]).match_name@ == nm by {
            assert(fnames.contains(nm));
            let i = choose|i: int| 0 <= i < fnames.len() && fnames[i] == nm;
            let j = n - 1 - i;
            assert(cands@[j].match_name@ == nm);
            assert(sorted@.contains(cands@[j]));
            let k = choose|k: int| 0 <= k < sorted@.len() && sorted@[k] == cands@[j];
        }
    }
    CandidateTally { matched_rows: rows_count, prompt_fields_needing_changes: fields_count, candidates: sorted }
}

} // verus!
