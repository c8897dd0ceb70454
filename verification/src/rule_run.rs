//! Running the rules in order over a set of rows: the report of one rule,
//! and the rows that later rules still see after some rows were stopped.
use vstd::prelude::*;

use crate::prompt_tokens::opt_string_view;
use crate::query::{sorted_difference, strictly_sorted};
use crate::quick_edit::{differs, differs_exec};
use crate::rule_conditions::RuleRow;
use crate::rule_actions::ActionStep;
use crate::rules::{rule_runs_on, runs_on, RuleExecutionReport, RuleExecutionTrigger};
use crate::text::string_views;

verus! {

/// What a rule's actions did to one row it matched.
#[derive(Debug, Clone, Copy, PartialEq, Eq)]
pub struct RowOutcome {
    pub id: i64,
    pub changed_actions: u64,
    pub stop: bool,
}

/// The rows whose actions changed something, in order.
pub open spec fn changed_ids(o: Seq<RowOutcome>) -> Seq<i64>
    decreases o.len(),
{
    if o.len() == 0 {
        Seq::empty()
    } else if o.last().changed_actions > 0 {
        changed_ids(o.drop_last()).push(o.last().id)
    } else {
        changed_ids(o.drop_last())
    }
}

/// The rows the rule stopped, in order.
pub open spec fn stopped_ids(o: Seq<RowOutcome>) -> Seq<i64>
    decreases o.len(),
{
    if o.len() == 0 {
        Seq::empty()
    } else if o.last().stop {
        stopped_ids(o.drop_last()).push(o.last().id)
    } else {
        stopped_ids(o.drop_last())
    }
}

/// How many actions changed something, over all rows.
pub open spec fn actions_changed(o: Seq<RowOutcome>) -> nat
    decreases o.len(),
{
    if o.len() == 0 {
        0
    } else {
        actions_changed(o.drop_last()) + o.last().changed_actions as nat
    }
}

/// A rule's report with the rows it changed and stopped.
#[derive(Debug, Clone, PartialEq, Eq)]
pub struct RuleOutcome {
    pub report: RuleExecutionReport,
    pub changed_row_ids: Vec<i64>,
    pub stopped_row_ids: Vec<i64>,
}

proof fn lemma_id_lists_bounded(o: Seq<RowOutcome>)
    ensures
        changed_ids(o).len() <= o.len(),
        stopped_ids(o).len() <= o.len(),
    decreases o.len(),
{
    if o.len() > 0 {
        lemma_id_lists_bounded(o.drop_last());
    }
}

/// The report of a rule that scanned `scanned` rows and matched the rows of
/// `outcomes` (each row once).
pub fn rule_outcome(rule_id: i64, rule_name: String, scanned: u64, outcomes: &Vec<RowOutcome>) -> (r: RuleOutcome)
    requires
        actions_changed(outcomes@) <= u64::MAX,
    ensures
        r.report.rule_id == rule_id,
        r.report.rule_name@ == rule_name@,
        r.report.scanned_rows == scanned,
        r.report.matched_rows == outcomes@.len(),
        r.report.changed_rows == changed_ids(outcomes@).len(),
        r.report.actions_changed == actions_changed(outcomes@),
        r.report.stopped_rows == stopped_ids(outcomes@).len(),
        r.report.error is None,
        r.changed_row_ids@ == changed_ids(outcomes@),
        r.stopped_row_ids@ == stopped_ids(outcomes@),
{
    let mut changed: Vec<i64> = Vec::new();
    let mut stopped: Vec<i64> = Vec::new();
    let mut total: u64 = 0;
    let mut i: usize = 0;
    assert(outcomes@.take(0) =~= Seq::<RowOutcome>::empty());
    while i < outcomes.len()
        invariant
            i <= outcomes.len(),
            actions_changed(outcomes@) <= u64::MAX,
            changed@ == changed_ids(outcomes@.take(i as int)),
            stopped@ == stopped_ids(outcomes@.take(i as int)),
            total == actions_changed(outcomes@.take(i as int)),
        decreases outcomes.len() - i,
    {
        let o = outcomes[i];
        assert(outcomes@.take(i + 1).drop_last() =~= outcomes@.take(i as int));
        assert(outcomes@.take(i + 1).last() == o);
        proof {
            lemma_actions_prefix(outcomes@, i + 1);
        }
        if o.changed_actions > 0 {
            changed.push(o.id);
        }
        if o.stop {
            stopped.push(o.id);
        }
        total = total + o.changed_actions;
        i = i + 1;
    }
    assert(outcomes@.take(i as int) =~= outcomes@);
    proof {
        lemma_id_lists_bounded(outcomes@);
    }
    let report = RuleExecutionReport {
        rule_id,
        rule_name,
        scanned_rows: scanned,
        matched_rows: outcomes.len() as u64,
        changed_rows: changed.len() as u64,
        actions_changed: total,
        stopped_rows: stopped.len() as u64,
        error: None,
    };
    RuleOutcome { report, changed_row_ids: changed, stopped_row_ids: stopped }
}

proof fn lemma_actions_prefix(o: Seq<RowOutcome>, n: int)
    requires
        0 <= n <= o.len(),
    ensures
        actions_changed(o.take(n)) <= actions_changed(o),
    decreases o.len() - n,
{
    if n < o.len() {
        lemma_actions_prefix(o, n + 1);
        assert(o.take(n + 1).drop_last() =~= o.take(n));
    } else {
        assert(o.take(n) =~= o);
    }
}

/// Whether a row was not stopped.
pub open spec fn not_stopped(stopped: Seq<i64>) -> spec_fn(i64) -> bool {
    |y: i64| !stopped.contains(y)
}

/// The rows later rules still see: those of `active` that this rule did not
/// stop, in order.
pub fn remaining_rows(active: &Vec<i64>, stopped: &Vec<i64>) -> (r: Vec<i64>)
    ensures
        r@ == active@.filter(not_stopped(stopped@)),
{
    let mut out: Vec<i64> = Vec::new();
    let mut i: usize = 0;
    assert(active@.take(0) =~= Seq::<i64>::empty());
    while i < active.len()
        invariant
            i <= active.len(),
            out@ == active@.take(i as int).filter(not_stopped(stopped@)),
        decreases active.len() - i,
    {
        let x = active[i];
        let mut hit = false;
        let mut k: usize = 0;
        while k < stopped.len()
            invariant
                k <= stopped.len(),
                hit == exists|j: int| 0 <= j < k && stopped@[j] == x,
            decreases stopped.len() - k,
        {
            if stopped[k] == x {
                hit = true;
            }
            k = k + 1;
        }
        assert(active@.take(i + 1).drop_last() =~= active@.take(i as int));
        if !hit {
            out.push(x);
        }
        i = i + 1;
        assert(active@.take(i as int).filter(not_stopped(stopped@)) == (if !hit {
            active@.take(i - 1).filter(not_stopped(stopped@)).push(x)
        } else {
            active@.take(i - 1).filter(not_stopped(stopped@))
        })) by {
            assert(active@.take(i as int).last() == x);
            assert(active@.take(i as int).drop_last() =~= active@.take(i - 1));
            assert(hit == stopped@.contains(x));
            assert(not_stopped(stopped@)(x) == !hit);
            assert(active@.take(i as int) =~= active@.take(i - 1).push(x));
            active@.take(i - 1).lemma_filter_push(x, not_stopped(stopped@));
        }
    }
    assert(active@.take(i as int) =~= active@);
    out
}

/// A row that a rule stopped is seen by no later rule, and every row it did
/// not stop still is.
pub proof fn lemma_stopped_rows_leave_later_rules(active: Seq<i64>, stopped: Seq<i64>, x: i64)
    requires
        active.contains(x),
    ensures
        active.filter(not_stopped(stopped)).contains(x) == !stopped.contains(x),
{
    let p = not_stopped(stopped);
    let f = active.filter(p);
    #[allow(deprecated)]
    active.filter_lemma(p);
    if !stopped.contains(x) {
        let i = choose|i: int| 0 <= i < active.len() && active[i] == x;
        active.lemma_filter_contains(p, i);
    }
    if f.contains(x) {
        let k = choose|k: int| 0 <= k < f.len() && f[k] == x;
        assert(p(f[k]));
    }
}

/// Whether storage must rewrite a row's own fields after a rule: one of
/// the three prompts, the artist list, the note or the group changed.
pub open spec fn fields_changed(original: RuleRow, updated: RuleRow) -> bool {
    ||| differs(original.positive_prompt, updated.positive_prompt)
    ||| differs(original.character_prompt, updated.character_prompt)
    ||| differs(original.negative_prompt, updated.negative_prompt)
    ||| differs(original.artists, updated.artists)
    ||| differs(original.note, updated.note)
    ||| original.group_id != updated.group_id
}

/// What storing a row that a rule changed writes: whether the row's own
/// fields are rewritten, and the tags taken off and put on, each once.
#[derive(Debug, Clone, PartialEq, Eq)]
pub struct RowWrite {
    pub fields_changed: bool,
    pub removed_tags: Vec<String>,
    pub added_tags: Vec<String>,
}

/// What storing `updated` in place of `original` writes: the fields when
/// `fields_changed` says so, the tags `original` has and `updated` lacks
/// taken off, and the ones `updated` has and `original` lacks put on (each
/// list in code-point order).
pub fn row_write(original: &RuleRow, updated: &RuleRow) -> (r: RowWrite)
    ensures
        r.fields_changed == fields_changed(*original, *updated),
        strictly_sorted(string_views(r.removed_tags@)),
        strictly_sorted(string_views(r.added_tags@)),
        forall|t: Seq<char>| #[trigger] string_views(r.removed_tags@).contains(t) <==> (string_views(
            original.tags@,
        ).contains(t) && !string_views(updated.tags@).contains(t)),
        forall|t: Seq<char>| #[trigger] string_views(r.added_tags@).contains(t) <==> (string_views(
            updated.tags@,
        ).contains(t) && !string_views(original.tags@).contains(t)),
{
    let fields_changed = differs_exec(&original.positive_prompt, &updated.positive_prompt) || differs_exec(
        &original.character_prompt,
        &updated.character_prompt,
    ) || differs_exec(&original.negative_prompt, &updated.negative_prompt) || differs_exec(
        &original.artists,
        &updated.artists,
    ) || differs_exec(&original.note, &updated.note) || original.group_id != updated.group_id;
    RowWrite {
        fields_changed,
        removed_tags: sorted_difference(&original.tags, &updated.tags),
        added_tags: sorted_difference(&updated.tags, &original.tags),
    }
}

/// Whether the ids are in strictly increasing order.
pub open spec fn increasing(ids: Seq<i64>) -> bool {
    forall|i: int, j: int| 0 <= i < j < ids.len() ==> ids[i] < ids[j]
}

/// Adds `x` to the increasing ids in `out`, unless it is there.
fn insert_id(out: &mut Vec<i64>, x: i64)
    requires
        increasing(old(out)@),
    ensures
        increasing(final(out)@),
        forall|t: i64| #[trigger] final(out)@.contains(t) <==> (old(out)@.contains(t) || t == x),
{
    let ghost before = out@;
    let mut p: usize = 0;
    while p < out.len() && out[p] < x
        invariant
            p <= out.len(),
            before == out@,
            forall|k: int| 0 <= k < p ==> before[k] < x,
        decreases out.len() - p,
    {
        p = p + 1;
    }
    if p < out.len() && out[p] == x {
        assert(before[p as int] == x);
        return;
    }
    out.insert(p, x);
    proof {
        let after = out@;
        assert(after =~= before.insert(p as int, x));
        assert forall|a: int, b: int| 0 <= a < b < after.len() implies after[a] < after[b] by {
            if b < p {
            } else if a < p && b == p {
            } else if a < p {
                assert(after[b] == before[b - 1]);
            } else if a == p {
                assert(after[b] == before[b - 1]);
            } else {
                assert(after[a] == before[a - 1]);
                assert(after[b] == before[b - 1]);
            }
        }
        assert forall|t: i64| #[trigger] after.contains(t) <==> (before.contains(t) || t == x) by {
            if after.contains(t) {
                let k = choose|k: int| 0 <= k < after.len() && after[k] == t;
                if k < p {
                    assert(before[k] == t);
                } else if k > p {
                    assert(before[k - 1] == t);
                }
            }
            if before.contains(t) {
                let k = choose|k: int| 0 <= k < before.len() && before[k] == t;
                if k < p {
                    assert(after[k] == t);
                } else {
                    assert(after[k + 1] == t);
                }
            }
            if t == x {
                assert(after[p as int] == t);
            }
        }
    }
}

/// Adds every id of `ids` to the increasing ids in `out`.
pub fn merge_ids(out: &mut Vec<i64>, ids: &Vec<i64>)
    requires
        increasing(old(out)@),
    ensures
        increasing(final(out)@),
        forall|t: i64| #[trigger] final(out)@.contains(t) <==> (old(out)@.contains(t) || ids@.contains(t)),
{
    let ghost start = out@;
    let mut i: usize = 0;
    while i < ids.len()
        invariant
            i <= ids.len(),
            increasing(out@),
            forall|t: i64| #[trigger] out@.contains(t) <==> (start.contains(t) || ids@.take(i as int).contains(t)),
        decreases ids.len() - i,
    {
        let ghost prefix = ids@.take(i as int);
        let ghost next = ids@.take(i + 1);
        assert(next =~= prefix.push(ids@[i as int]));
        insert_id(out, ids[i]);
        assert forall|t: i64| #[trigger] out@.contains(t) <==> (start.contains(t) || next.contains(t)) by {
            if next.contains(t) {
                let k = choose|k: int| 0 <= k < next.len() && next[k] == t;
                if k < i {
                    assert(prefix[k] == t);
                }
            }
            if prefix.contains(t) {
                let k = choose|k: int| 0 <= k < prefix.len() && prefix[k] == t;
                assert(next[k] == t);
            }
            if t == ids@[i as int] {
                assert(next[i as int] == t);
            }
        }
        i = i + 1;
    }
    assert(ids@.take(i as int) =~= ids@);
}

/// The rows a run starts with: the given ids, each once, in increasing
/// order.
pub fn start_rows(row_ids: &Vec<i64>) -> (r: Vec<i64>)
    ensures
        increasing(r@),
        forall|t: i64| #[trigger] r@.contains(t) <==> row_ids@.contains(t),
{
    let mut out: Vec<i64> = Vec::new();
    merge_ids(&mut out, row_ids);
    out
}

/// What a run does with the next rule.
#[derive(Debug, Clone, Copy, PartialEq, Eq, Structural)]
pub enum RuleStep {
    /// The rule does not take part in this run.
    Skip,
    /// No row is left: the run ends.
    Finish,
    /// The rule is applied to the rows left.
    Apply,
}

/// What a run does with a rule whose flags are given, while `rows_left`
/// rows remain: rules that do not take part are skipped, a run with no row
/// left ends, else the rule is applied.
pub fn rule_step(
    enabled: bool,
    run_on_import: bool,
    run_on_update: bool,
    trigger: RuleExecutionTrigger,
    rows_left: usize,
) -> (r: RuleStep)
    ensures
        !runs_on(enabled, run_on_import, run_on_update, trigger) ==> r == RuleStep::Skip,
        runs_on(enabled, run_on_import, run_on_update, trigger) && rows_left == 0 ==> r == RuleStep::Finish,
        runs_on(enabled, run_on_import, run_on_update, trigger) && rows_left > 0 ==> r == RuleStep::Apply,
{
    if !rule_runs_on(enabled, run_on_import, run_on_update, trigger) {
        RuleStep::Skip
    } else if rows_left == 0 {
        RuleStep::Finish
    } else {
        RuleStep::Apply
    }
}

/// The report of a rule that failed on `rows_left` rows: it scanned them (as
/// many as a `u64` holds), matched and changed nothing, and carries the
/// error's message.
pub fn failed_rule_report(rule_id: i64, rule_name: String, rows_left: usize, message: String) -> (r: RuleExecutionReport)
    ensures
        r.rule_id == rule_id,
        r.rule_name == rule_name,
        r.scanned_rows == (if rows_left <= u64::MAX { rows_left as u64 } else { u64::MAX }),
        r.matched_rows == 0,
        r.changed_rows == 0,
        r.actions_changed == 0,
        r.stopped_rows == 0,
        r.error == Some(message),
{
    let scanned: u64 = if rows_left as u128 <= u64::MAX as u128 {
        rows_left as u64
    } else {
        u64::MAX
    };
    RuleExecutionReport {
        rule_id,
        rule_name,
        scanned_rows: scanned,
        matched_rows: 0,
        changed_rows: 0,
        actions_changed: 0,
        stopped_rows: 0,
        error: Some(message),
    }
}

/// How many of a rule's actions changed a row so far, and whether the rule
/// stopped for that row.
#[derive(Debug, Clone, Copy, PartialEq, Eq, Structural)]
pub struct ActionTally {
    pub changed_actions: u64,
    pub stop: bool,
}

/// The tally after one action's step: a step that changed the row counts
/// once, a stop step stops the rule for the row, and a prefixing step counts
/// when the prefixing it asked for changed the row (`prefixed`).
pub open spec fn tally_after(tally: ActionTally, step: ActionStep, prefixed: bool) -> ActionTally {
    match step {
        ActionStep::Done { changed, .. } => ActionTally {
            changed_actions: if changed { (tally.changed_actions + 1) as u64 } else { tally.changed_actions },
            stop: tally.stop,
        },
        ActionStep::Stop => ActionTally { changed_actions: tally.changed_actions, stop: true },
        ActionStep::PrefixArtists => ActionTally {
            changed_actions: if prefixed { (tally.changed_actions + 1) as u64 } else { tally.changed_actions },
            stop: tally.stop,
        },
    }
}

/// Counts one action's step (see `tally_after`).
pub fn tally_step(tally: &mut ActionTally, step: ActionStep, prefixed: bool)
    requires
        old(tally).changed_actions < u64::MAX,
    ensures
        *final(tally) == tally_after(*old(tally), step, prefixed),
{
    match step {
        ActionStep::Done { changed, .. } => {
            if changed {
                tally.changed_actions = tally.changed_actions + 1;
            }
        },
        ActionStep::Stop => {
            tally.stop = true;
        },
        ActionStep::PrefixArtists => {
            if prefixed {
                tally.changed_actions = tally.changed_actions + 1;
            }
        },
    }
}

/// A row's own fields are left as stored exactly when the updated row
/// agrees with the original on each of the three prompts, the artist list,
/// the note and the group.
pub proof fn lemma_fields_changed_exactly_when_written_field_differs(original: RuleRow, updated: RuleRow)
    ensures
        !fields_changed(original, updated) <==> {
            &&& opt_string_view(updated.positive_prompt) == opt_string_view(original.positive_prompt)
            &&& opt_string_view(updated.character_prompt) == opt_string_view(original.character_prompt)
            &&& opt_string_view(updated.negative_prompt) == opt_string_view(original.negative_prompt)
            &&& opt_string_view(updated.artists) == opt_string_view(original.artists)
            &&& opt_string_view(updated.note) == opt_string_view(original.note)
            &&& updated.group_id == original.group_id
        },
{
}

} // verus!
