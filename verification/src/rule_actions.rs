//! What the actions of an automation rule do to a row, one action at a time.
//! Prefixing artist names and recomputing the row's artist list are done by
//! the caller: an action step says when they are due.
use vstd::prelude::*;

use crate::prompt_tokens::{append_prompt, appended_prompt, delete_prompt_tags, deleted_prompt, normalized_strings, opt_string_view};
use crate::rule_conditions::{opt_text, RuleRow};
use crate::rules::{blank, list_entries, PromptActionField, RuleAction};
use crate::text::{
    append_chars, chars_eq, chars_of, contains_chars, contains_text, occurs_at, string_of, string_views, sub_chars,
    trim_chars, views,
};

verus! {

/// What one action step did.
#[derive(Debug, Clone, Copy, PartialEq, Eq, Structural)]
pub enum ActionStep {
    /// The action ran; `prompt_changed` says that a prompt changed, so the
    /// row's artist list is due to be recomputed.
    Done { changed: bool, prompt_changed: bool },
    /// The rule stops here for this row.
    Stop,
    /// The action prefixes artist names, which the caller does.
    PrefixArtists,
}

/// `str::replace`: every non-overlapping occurrence of `find`, from the
/// left, replaced by `rep` (an empty `find` matches before every character
/// and at the end).
pub open spec fn replaced(s: Seq<char>, find: Seq<char>, rep: Seq<char>) -> Seq<char>
    decreases s.len(),
{
    if find.len() == 0 {
        if s.len() == 0 {
            rep
        } else {
            rep + seq![s[0]] + replaced(s.skip(1), find, rep)
        }
    } else if s.len() < find.len() {
        s
    } else if s.subrange(0, find.len() as int) == find {
        rep + replaced(s.skip(find.len() as int), find, rep)
    } else {
        seq![s[0]] + replaced(s.skip(1), find, rep)
    }
}

/// What `regex::Regex::replace_all` gives on `value` for the escaped `find`
/// compiled case-insensitively and the replacement text `rep` (in which `$`
/// names capture groups); `value` itself if the pattern does not compile.
pub uninterp spec fn replaced_ignoring_case(value: Seq<char>, find: Seq<char>, rep: Seq<char>) -> Seq<char>;

/// Builds `regex::escape(find)` case-insensitively with `RegexBuilder` and
/// calls `replace_all` on `value` with `rep`; keeps `value` when the build
/// fails. Named by `replaced_ignoring_case`.
#[verifier::external_body]
fn replace_ignoring_case(value: &str, find: &str, rep: &str) -> (r: String)
    ensures
        r@ == replaced_ignoring_case(value@, find@, rep@),
{
    match regex::RegexBuilder::new(&regex::escape(find)).case_insensitive(true).build() {
        Ok(re) => re.replace_all(value, rep).into_owned(),
        Err(_) => value.to_owned(),
    }
}

/// The text a replace action makes of `value`.
pub open spec fn replaced_text(value: Seq<char>, find: Seq<char>, rep: Seq<char>, case_sensitive: bool) -> Seq<char> {
    if case_sensitive {
        replaced(value, find, rep)
    } else {
        replaced_ignoring_case(value, find, rep)
    }
}

proof fn lemma_skip_skip(s: Seq<char>, a: int, b: int)
    requires
        0 <= a,
        0 <= b,
        a + b <= s.len(),
    ensures
        s.skip(a).skip(b) == s.skip(a + b),
{
    assert(s.skip(a).skip(b) =~= s.skip(a + b));
}

/// Replaces every occurrence of `find` in `value` by `rep` (see `replaced`).
pub fn replace_chars(value: &Vec<char>, find: &Vec<char>, rep: &Vec<char>) -> (r: Vec<char>)
    ensures
        r@ == replaced(value@, find@, rep@),
{
    let mut out: Vec<char> = Vec::new();
    let mut i: usize = 0;
    let n = value.len();
    let m = find.len();
    assert(value@.skip(0) =~= value@);
    assert(out@ + replaced(value@, find@, rep@) =~= replaced(value@, find@, rep@));
    while i < n
        invariant
            n == value.len(),
            m == find.len(),
            i <= n,
            out@ + replaced(value@.skip(i as int), find@, rep@) == replaced(value@, find@, rep@),
        decreases n - i,
    {
        let ghost rest = value@.skip(i as int);
        let ghost before = out@;
        if m == 0 {
            append_chars(&mut out, rep);
            out.push(value[i]);
            proof {
                lemma_skip_skip(value@, i as int, 1);
                assert(out@ =~= before + rep@ + seq![rest[0]]);
            }
            i = i + 1;
        } else {
            let mut hit = false;
            if m <= n - i {
                let sub = sub_chars(value, i, i + m);
                hit = chars_eq(&sub, find);
                assert(rest.subrange(0, m as int) =~= value@.subrange(i as int, i + m));
            }
            if hit {
                append_chars(&mut out, rep);
                proof {
                    lemma_skip_skip(value@, i as int, m as int);
                }
                i = i + m;
            } else {
                out.push(value[i]);
                proof {
                    lemma_skip_skip(value@, i as int, 1);
                    assert(out@ =~= before + seq![rest[0]]);
                }
                i = i + 1;
            }
        }
    }
    assert(value@.skip(i as int) =~= Seq::<char>::empty());
    if m == 0 {
        append_chars(&mut out, rep);
    }
    out
}

/// The prompt field an action writes.
pub open spec fn prompt_field(row: RuleRow, field: PromptActionField) -> Option<String> {
    match field {
        PromptActionField::Positive => row.positive_prompt,
        PromptActionField::Character => row.character_prompt,
        PromptActionField::Negative => row.negative_prompt,
    }
}

/// The row's tags as a set of names.
pub open spec fn tag_set(row: RuleRow) -> Set<Seq<char>> {
    string_views(row.tags@).to_set()
}

/// `b` agrees with `a` on every field that no action writes.
pub open spec fn keeps_other_fields(a: RuleRow, b: RuleRow) -> bool {
    &&& b.id == a.id
    &&& b.artists == a.artists
    &&& b.image_path == a.image_path
    &&& b.file_name == a.file_name
    &&& b.metadata_failed == a.metadata_failed
    &&& b.vibe_count == a.vibe_count
    &&& b.image_width == a.image_width
    &&& b.image_height == a.image_height
    &&& b.generation_model == a.generation_model
    &&& b.generation_sampler == a.generation_sampler
    &&& b.generation_seed == a.generation_seed
    &&& b.generation_noise_schedule == a.generation_noise_schedule
    &&& b.source_type == a.source_type
    &&& b.source_path == a.source_path
}

pub open spec fn keeps_prompts(a: RuleRow, b: RuleRow) -> bool {
    b.positive_prompt == a.positive_prompt && b.character_prompt == a.character_prompt && b.negative_prompt
        == a.negative_prompt
}

/// `b` has the text `v` in `field` and agrees with `a` on the other prompts.
pub open spec fn prompt_set_to(a: RuleRow, b: RuleRow, field: PromptActionField, v: Option<Seq<char>>) -> bool {
    &&& opt_string_view(prompt_field(b, field)) == v
    &&& forall|f: PromptActionField| f != field ==> prompt_field(b, f) == prompt_field(a, f)
}

/// A text unless it is blank.
pub open spec fn nonempty_text(v: Seq<char>) -> Option<Seq<char>> {
    if blank(v) {
        None
    } else {
        Some(v)
    }
}

/// The note an append-note action aims at.
pub open spec fn appended_note(note: Option<String>, value: Seq<char>, separator: Seq<char>) -> Seq<char> {
    match note {
        Some(n) => if n@.len() > 0 {
            n@ + separator + value
        } else {
            value
        },
        None => value,
    }
}

/// What an action does to a row: the row after it in `b`, the step `r`.
/// Every action reports whether it changed the row: the value before it
/// compared with the value after.
pub open spec fn action_effect(a: RuleRow, b: RuleRow, action: RuleAction, r: ActionStep) -> bool {
    &&& keeps_other_fields(a, b)
    &&& match action {
        RuleAction::AddTags { tags } => {
            let e = list_entries(tags@).to_set();
            &&& keeps_prompts(a, b) && b.note == a.note && b.group_id == a.group_id
            &&& tag_set(b) == tag_set(a) + e
            &&& r == ActionStep::Done { changed: !e.subset_of(tag_set(a)), prompt_changed: false }
        },
        RuleAction::RemoveTags { tags } => {
            let e = list_entries(tags@).to_set();
            &&& keeps_prompts(a, b) && b.note == a.note && b.group_id == a.group_id
            &&& tag_set(b) == tag_set(a) - e
            &&& r == ActionStep::Done { changed: !e.disjoint(tag_set(a)), prompt_changed: false }
        },
        RuleAction::SetGroup { group_id, only_if_ungrouped } => {
            &&& keeps_prompts(a, b) && b.note == a.note && b.tags@ == a.tags@
            &&& b.group_id == (if only_if_ungrouped && a.group_id is Some {
                a.group_id
            } else {
                Some(group_id)
            })
            &&& r == ActionStep::Done { changed: b.group_id != a.group_id, prompt_changed: false }
        },
        RuleAction::ClearGroup => {
            &&& keeps_prompts(a, b) && b.note == a.note && b.tags@ == a.tags@
            &&& b.group_id is None
            &&& r == ActionStep::Done { changed: a.group_id is Some, prompt_changed: false }
        },
        RuleAction::AppendPrompt { field, value } => {
            let cur = opt_string_view(prompt_field(a, field));
            let upd = appended_prompt(cur, value@);
            &&& b.note == a.note && b.group_id == a.group_id && b.tags@ == a.tags@
            &&& prompt_set_to(a, b, field, if cur != upd { upd } else { cur })
            &&& r == ActionStep::Done { changed: cur != upd, prompt_changed: cur != upd }
        },
        RuleAction::DeletePromptTags { field, value } => {
            let cur = opt_string_view(prompt_field(a, field));
            let upd = deleted_prompt(cur, value@);
            &&& b.note == a.note && b.group_id == a.group_id && b.tags@ == a.tags@
            &&& prompt_set_to(a, b, field, if cur != upd { upd } else { cur })
            &&& r == ActionStep::Done { changed: cur != upd, prompt_changed: cur != upd }
        },
        RuleAction::ReplacePrompt { field, find, replace, case_sensitive } => {
            let cur = opt_string_view(prompt_field(a, field));
            let upd = match cur {
                Some(t) => Some(replaced_text(t, find@, replace@, case_sensitive)),
                None => None,
            };
            &&& b.note == a.note && b.group_id == a.group_id && b.tags@ == a.tags@
            &&& prompt_set_to(
                a,
                b,
                field,
                if cur != upd {
                    match upd {
                        Some(t) => nonempty_text(t),
                        None => None,
                    }
                } else {
                    cur
                },
            )
            &&& r == ActionStep::Done { changed: cur != upd, prompt_changed: cur != upd }
        },
        RuleAction::SetNote { value } => {
            let cur = opt_string_view(a.note);
            let upd = nonempty_text(value@);
            &&& keeps_prompts(a, b) && b.group_id == a.group_id && b.tags@ == a.tags@
            &&& opt_string_view(b.note) == (if cur != upd { upd } else { cur })
            &&& r == ActionStep::Done { changed: cur != upd, prompt_changed: false }
        },
        RuleAction::AppendNote { value, separator } => {
            let cur = opt_string_view(a.note);
            let upd = appended_note(a.note, value@, separator@);
            &&& keeps_prompts(a, b) && b.group_id == a.group_id && b.tags@ == a.tags@
            &&& opt_string_view(b.note) == (if cur != Some(upd) { nonempty_text(upd) } else { cur })
            &&& r == ActionStep::Done { changed: cur != Some(upd), prompt_changed: false }
        },
        RuleAction::ClearNote => {
            &&& keeps_prompts(a, b) && b.group_id == a.group_id && b.tags@ == a.tags@
            &&& b.note is None
            &&& r == ActionStep::Done { changed: a.note is Some, prompt_changed: false }
        },
        RuleAction::PrefixArtist { .. } => {
            &&& keeps_prompts(a, b) && b.note == a.note && b.group_id == a.group_id && b.tags@ == a.tags@
            &&& r == ActionStep::PrefixArtists
        },
        RuleAction::StopProcessing => {
            &&& keeps_prompts(a, b) && b.note == a.note && b.group_id == a.group_id && b.tags@ == a.tags@
            &&& r == ActionStep::Stop
        },
    }
}

fn contains_string(list: &Vec<String>, x: &str) -> (r: bool)
    ensures
        r == string_views(list@).contains(x@),
{
    let xv = chars_of(x);
    let mut i: usize = 0;
    while i < list.len()
        invariant
            i <= list.len(),
            xv@ == x@,
            forall|k: int| 0 <= k < i ==> list@[k]@ != x@,
        decreases list.len() - i,
    {
        if chars_eq(&chars_of(list[i].as_str()), &xv) {
            assert(string_views(list@)[i as int] == x@);
            return true;
        }
        i = i + 1;
    }
    assert forall|k: int| 0 <= k < string_views(list@).len() implies string_views(list@)[k] != x@ by {
        assert(string_views(list@)[k] == list@[k]@);
    }
    false
}

fn add_tags(row: &mut RuleRow, tags: &Vec<String>) -> (changed: bool)
    ensures
        keeps_other_fields(*old(row), *final(row)),
        keeps_prompts(*old(row), *final(row)),
        final(row).note == old(row).note,
        final(row).group_id == old(row).group_id,
        tag_set(*final(row)) == tag_set(*old(row)) + list_entries(tags@).to_set(),
        changed == !list_entries(tags@).to_set().subset_of(tag_set(*old(row))),
{
    let entries = normalized_strings(tags);
    let ghost e = list_entries(tags@);
    let ghost start = tag_set(*row);
    proof {
        assert(string_views(tags@) == tags@.map_values(|s: String| s@));
        assert(string_views(entries@) == e);
    }
    let mut changed = false;
    let mut j: usize = 0;
    assert(tag_set(*row) =~= start + e.take(0).to_set());
    while j < entries.len()
        invariant
            j <= entries.len(),
            string_views(entries@) == e,
            keeps_other_fields(*old(row), *row),
            keeps_prompts(*old(row), *row),
            row.note == old(row).note,
            row.group_id == old(row).group_id,
            start == tag_set(*old(row)),
            tag_set(*row) == start + e.take(j as int).to_set(),
            changed == !e.take(j as int).to_set().subset_of(start),
        decreases entries.len() - j,
    {
        let x = entries[j].clone();
        let ghost xv = x@;
        assert(e[j as int] == xv);
        assert(e.take(j + 1) =~= e.take(j as int).push(xv));
        proof {
            e.take(j as int).lemma_push_to_set_commute(xv);
        }
        let present = contains_string(&row.tags, x.as_str());
        proof {
            let t = e.take(j as int).to_set();
            let t2 = e.take(j + 1).to_set();
            assert(t2 == t.insert(xv));
            assert(present == (start + t).contains(xv));
            assert(t2.subset_of(start) <==> (t.subset_of(start) && start.contains(xv))) by {
                if t2.subset_of(start) {
                    assert(t2.contains(xv));
                    assert forall|y: Seq<char>| t.contains(y) implies start.contains(y) by {
                        assert(t2.contains(y));
                    }
                }
                if t.subset_of(start) && start.contains(xv) {
                    assert forall|y: Seq<char>| t2.contains(y) implies start.contains(y) by {
                        if y != xv {
                            assert(t.contains(y));
                        }
                    }
                }
            }
        }
        if !present {
            let ghost before = string_views(row.tags@);
            row.tags.push(x);
            assert(string_views(row.tags@) =~= before.push(xv));
            proof {
                before.lemma_push_to_set_commute(xv);
            }
            changed = true;
        }
        j = j + 1;
        assert(tag_set(*row) =~= start + e.take(j as int).to_set());
    }
    assert(e.take(j as int) =~= e);
    changed
}

fn remove_tags(row: &mut RuleRow, tags: &Vec<String>) -> (changed: bool)
    ensures
        keeps_other_fields(*old(row), *final(row)),
        keeps_prompts(*old(row), *final(row)),
        final(row).note == old(row).note,
        final(row).group_id == old(row).group_id,
        tag_set(*final(row)) == tag_set(*old(row)) - list_entries(tags@).to_set(),
        changed == !list_entries(tags@).to_set().disjoint(tag_set(*old(row))),
{
    let entries = normalized_strings(tags);
    let ghost e = list_entries(tags@);
    let ghost es = e.to_set();
    proof {
        assert(string_views(tags@) == tags@.map_values(|s: String| s@));
        assert(string_views(entries@) == e);
    }
    let ghost olds = string_views(row.tags@);
    let mut kept: Vec<String> = Vec::new();
    let mut changed = false;
    let mut i: usize = 0;
    while i < row.tags.len()
        invariant
            i <= row.tags.len(),
            string_views(entries@) == e,
            es == e.to_set(),
            olds == string_views(row.tags@),
            string_views(kept@).to_set() == olds.take(i as int).to_set() - es,
            changed == !es.disjoint(olds.take(i as int).to_set()),
        decreases row.tags.len() - i,
    {
        let t = row.tags[i].clone();
        let ghost tv = t@;
        assert(olds[i as int] == tv);
        assert(olds.take(i + 1) =~= olds.take(i as int).push(tv));
        proof {
            olds.take(i as int).lemma_push_to_set_commute(tv);
        }
        let hit = contains_string(&entries, t.as_str());
        if hit {
            changed = true;
            assert(es.contains(tv));
        } else {
            let ghost before = string_views(kept@);
            kept.push(t);
            assert(string_views(kept@) =~= before.push(tv));
            proof {
                before.lemma_push_to_set_commute(tv);
            }
        }
        i = i + 1;
        assert(string_views(kept@).to_set() =~= olds.take(i as int).to_set() - es);
        assert(!es.disjoint(olds.take(i as int).to_set()) == (!es.disjoint(olds.take(i - 1).to_set()) || es.contains(tv)));
    }
    assert(olds.take(i as int) =~= olds);
    row.tags = kept;
    changed
}

pub(crate) fn prompt_of(row: &RuleRow, field: PromptActionField) -> (r: &Option<String>)
    ensures
        *r == prompt_field(*row, field),
{
    match field {
        PromptActionField::Positive => &row.positive_prompt,
        PromptActionField::Character => &row.character_prompt,
        PromptActionField::Negative => &row.negative_prompt,
    }
}

fn set_prompt(row: &mut RuleRow, field: PromptActionField, v: Option<String>)
    ensures
        keeps_other_fields(*old(row), *final(row)),
        prompt_field(*final(row), field) == v,
        forall|f: PromptActionField| f != field ==> prompt_field(*final(row), f) == prompt_field(*old(row), f),
        final(row).note == old(row).note,
        final(row).group_id == old(row).group_id,
        final(row).tags@ == old(row).tags@,
{
    match field {
        PromptActionField::Positive => row.positive_prompt = v,
        PromptActionField::Character => row.character_prompt = v,
        PromptActionField::Negative => row.negative_prompt = v,
    }
}

fn opt_str(o: &Option<String>) -> (r: Option<&str>)
    ensures
        crate::prompt_tokens::opt_view(r) == opt_string_view(*o),
{
    match o {
        Some(s) => Some(s.as_str()),
        None => None,
    }
}

fn same_text(a: &Option<String>, b: &Option<String>) -> (r: bool)
    ensures
        r == (opt_string_view(*a) == opt_string_view(*b)),
{
    match (a, b) {
        (Some(x), Some(y)) => chars_eq(&chars_of(x.as_str()), &chars_of(y.as_str())),
        (None, None) => true,
        _ => false,
    }
}

fn nonempty_string(v: String) -> (r: Option<String>)
    ensures
        opt_string_view(r) == nonempty_text(v@),
{
    let t = trim_chars(&chars_of(v.as_str()));
    if t.len() == 0 {
        None
    } else {
        Some(v)
    }
}

/// Runs one action on a row (see `action_effect`).
pub fn apply_action(row: &mut RuleRow, action: &RuleAction) -> (r: ActionStep)
    ensures
        action_effect(*old(row), *final(row), *action, r),
{
    match action {
        RuleAction::AddTags { tags } => {
            let changed = add_tags(row, tags);
            ActionStep::Done { changed, prompt_changed: false }
        },
        RuleAction::RemoveTags { tags } => {
            let changed = remove_tags(row, tags);
            ActionStep::Done { changed, prompt_changed: false }
        },
        RuleAction::SetGroup { group_id, only_if_ungrouped } => {
            if *only_if_ungrouped && row.group_id.is_some() {
                ActionStep::Done { changed: false, prompt_changed: false }
            } else if row.group_id != Some(*group_id) {
                row.group_id = Some(*group_id);
                ActionStep::Done { changed: true, prompt_changed: false }
            } else {
                ActionStep::Done { changed: false, prompt_changed: false }
            }
        },
        RuleAction::ClearGroup => {
            let had = row.group_id.is_some();
            row.group_id = None;
            ActionStep::Done { changed: had, prompt_changed: false }
        },
        RuleAction::AppendPrompt { field, value } => {
            let cur = prompt_of(row, *field).clone();
            let updated = append_prompt(opt_str(&cur), value.as_str());
            if !same_text(&cur, &updated) {
                set_prompt(row, *field, updated);
                ActionStep::Done { changed: true, prompt_changed: true }
            } else {
                ActionStep::Done { changed: false, prompt_changed: false }
            }
        },
        RuleAction::DeletePromptTags { field, value } => {
            let cur = prompt_of(row, *field).clone();
            let updated = delete_prompt_tags(opt_str(&cur), value.as_str());
            if !same_text(&cur, &updated) {
                set_prompt(row, *field, updated);
                ActionStep::Done { changed: true, prompt_changed: true }
            } else {
                ActionStep::Done { changed: false, prompt_changed: false }
            }
        },
        RuleAction::ReplacePrompt { field, find, replace, case_sensitive } => {
            let cur = prompt_of(row, *field).clone();
            let updated: Option<String> = match &cur {
                Some(v) => {
                    if *case_sensitive {
                        let out = replace_chars(
                            &chars_of(v.as_str()),
                            &chars_of(find.as_str()),
                            &chars_of(replace.as_str()),
                        );
                        Some(string_of(&out))
                    } else {
                        Some(replace_ignoring_case(v.as_str(), find.as_str(), replace.as_str()))
                    }
                },
                None => None,
            };
            if !same_text(&cur, &updated) {
                let stored = match updated {
                    Some(t) => nonempty_string(t),
                    None => None,
                };
                set_prompt(row, *field, stored);
                ActionStep::Done { changed: true, prompt_changed: true }
            } else {
                ActionStep::Done { changed: false, prompt_changed: false }
            }
        },
        RuleAction::PrefixArtist { .. } => ActionStep::PrefixArtists,
        RuleAction::SetNote { value } => {
            let updated = nonempty_string(value.clone());
            if !same_text(&row.note, &updated) {
                row.note = updated;
                ActionStep::Done { changed: true, prompt_changed: false }
            } else {
                ActionStep::Done { changed: false, prompt_changed: false }
            }
        },
        RuleAction::AppendNote { value, separator } => {
            let updated: String = match &row.note {
                Some(n) => {
                    if n.as_str().unicode_len() > 0 {
                        let mut t = chars_of(n.as_str());
                        append_chars(&mut t, &chars_of(separator.as_str()));
                        append_chars(&mut t, &chars_of(value.as_str()));
                        string_of(&t)
                    } else {
                        value.clone()
                    }
                },
                None => value.clone(),
            };
            let wrapped = Some(updated.clone());
            if !same_text(&row.note, &wrapped) {
                row.note = nonempty_string(updated);
                ActionStep::Done { changed: true, prompt_changed: false }
            } else {
                ActionStep::Done { changed: false, prompt_changed: false }
            }
        },
        RuleAction::ClearNote => {
            let had = row.note.is_some();
            row.note = None;
            ActionStep::Done { changed: had, prompt_changed: false }
        },
        RuleAction::StopProcessing => ActionStep::Stop,
    }
}

/// Running a tag, group or note action a second time changes nothing more.
pub proof fn lemma_repeat_changes_nothing(a: RuleRow, b: RuleRow, c: RuleRow, action: RuleAction, r1: ActionStep, r2: ActionStep)
    requires
        action is AddTags || action is RemoveTags || action is SetGroup || action is ClearGroup || action is SetNote
            || action is ClearNote,
        action_effect(a, b, action, r1),
        action_effect(b, c, action, r2),
    ensures
        r2 == (ActionStep::Done { changed: false, prompt_changed: false }),
        tag_set(c) == tag_set(b),
        c.group_id == b.group_id,
        opt_string_view(c.note) == opt_string_view(b.note),
{
    match action {
        RuleAction::AddTags { tags } => {
            let e = list_entries(tags@).to_set();
            assert(e.subset_of(tag_set(b)));
            assert(tag_set(c) =~= tag_set(b));
        },
        RuleAction::RemoveTags { tags } => {
            let e = list_entries(tags@).to_set();
            assert(e.disjoint(tag_set(b)));
            assert(tag_set(c) =~= tag_set(b));
        },
        RuleAction::SetGroup { .. } => {
            assert(string_views(c.tags@) == string_views(b.tags@));
        },
        RuleAction::ClearGroup => {
            assert(string_views(c.tags@) == string_views(b.tags@));
        },
        _ => {
            assert(string_views(c.tags@) == string_views(b.tags@));
        },
    }
}

/// A group action limited to ungrouped rows never moves a grouped row.
pub proof fn lemma_only_ungrouped_keeps_group(a: RuleRow, b: RuleRow, group_id: i64, r: ActionStep)
    requires
        a.group_id is Some,
        action_effect(a, b, RuleAction::SetGroup { group_id, only_if_ungrouped: true }, r),
    ensures
        b.group_id == a.group_id,
        r == (ActionStep::Done { changed: false, prompt_changed: false }),
{
}

/// `x` written `k` times in a row.
pub open spec fn repeated(x: Seq<char>, k: nat) -> Seq<char>
    decreases k,
{
    if k == 0 {
        Seq::empty()
    } else {
        x + repeated(x, (k - 1) as nat)
    }
}

/// Replacing every occurrence: in a text made of `find` written `k` times
/// over, replacing a non-empty `find` by `rep` gives `rep` written `k`
/// times, whatever `rep` is.
pub proof fn lemma_replace_repeated(find: Seq<char>, rep: Seq<char>, k: nat)
    requires
        find.len() > 0,
    ensures
        replaced(repeated(find, k), find, rep) == repeated(rep, k),
    decreases k,
{
    if k > 0 {
        let s = repeated(find, k);
        assert(s.subrange(0, find.len() as int) =~= find);
        assert(s.skip(find.len() as int) =~= repeated(find, (k - 1) as nat));
        lemma_replace_repeated(find, rep, (k - 1) as nat);
    }
}

/// Replacing a single character `c` by a text without `c` leaves no `c`:
/// every occurrence is replaced.
pub proof fn lemma_replace_char_leaves_none(s: Seq<char>, c: char, rep: Seq<char>)
    requires
        !rep.contains(c),
    ensures
        !replaced(s, seq![c], rep).contains(c),
    decreases s.len(),
{
    let find = seq![c];
    if s.len() >= 1 {
        lemma_replace_char_leaves_none(s.skip(1), c, rep);
        let tail = replaced(s.skip(1), find, rep);
        let r = replaced(s, find, rep);
        if s.subrange(0, 1) == find {
            assert(r == rep + tail);
            assert forall|i: int| 0 <= i < r.len() implies r[i] != c by {
                if i < rep.len() {
                    assert(r[i] == rep[i]);
                } else {
                    assert(r[i] == tail[i - rep.len()]);
                }
            }
        } else {
            assert(s[0] != c) by {
                if s[0] == c {
                    assert(s.subrange(0, 1) =~= find);
                }
            }
            assert(r == seq![s[0]] + tail);
            assert forall|i: int| 0 <= i < r.len() implies r[i] != c by {
                if i > 0 {
                    assert(r[i] == tail[i - 1]);
                }
            }
        }
    }
}

/// A text in which a non-empty `find` does not occur comes out of the
/// replacement unchanged.
pub proof fn lemma_replace_without_occurrence(s: Seq<char>, find: Seq<char>, rep: Seq<char>)
    requires
        find.len() > 0,
        !contains_text(s, find),
    ensures
        replaced(s, find, rep) == s,
    decreases s.len(),
{
    if s.len() >= find.len() {
        assert(!occurs_at(s, find, 0));
        let t = s.skip(1);
        assert(!contains_text(t, find)) by {
            if contains_text(t, find) {
                let i = choose|i: int| #[trigger] occurs_at(t, find, i);
                assert(s.subrange(i + 1, i + 1 + find.len()) =~= t.subrange(i, i + find.len()));
                assert(occurs_at(s, find, i + 1));
            }
        }
        lemma_replace_without_occurrence(t, find, rep);
        assert(s =~= seq![s[0]] + t);
    }
}

/// Occurrences are taken from the left: a text that starts with a non-empty
/// `find` comes out as `rep` followed by the replacement of the rest, so
/// the first occurrence is replaced and the search goes on after it.
pub proof fn lemma_replace_leading_occurrence(s: Seq<char>, find: Seq<char>, rep: Seq<char>)
    requires
        find.len() > 0,
    ensures
        replaced(find + s, find, rep) == rep + replaced(s, find, rep),
{
    let t = find + s;
    assert(t.subrange(0, find.len() as int) =~= find);
    assert(t.skip(find.len() as int) =~= s);
}

/// An empty `find` matches before every character and at the end: the
/// empty text becomes `rep`, and one more character `c` at the end adds `c`
/// and another `rep` after the replacement of the rest.
pub proof fn lemma_replace_empty_find(s: Seq<char>, c: char, rep: Seq<char>)
    ensures
        replaced(Seq::empty(), Seq::empty(), rep) == rep,
        replaced(s.push(c), Seq::empty(), rep) == replaced(s, Seq::empty(), rep) + seq![c] + rep,
    decreases s.len(),
{
    let e = Seq::<char>::empty();
    let t = s.push(c);
    if s.len() == 0 {
        assert(t.skip(1) =~= e);
        assert(t[0] == c);
        assert(replaced(e, e, rep) == rep);
        assert(replaced(t, e, rep) == rep + seq![c] + replaced(t.skip(1), e, rep));
        assert(replaced(t, e, rep) =~= rep + seq![c] + rep);
        assert(replaced(s, e, rep) == rep);
    } else {
        lemma_replace_empty_find(s.skip(1), c, rep);
        assert(t.skip(1) =~= s.skip(1).push(c));
        assert(t[0] == s[0]);
        assert(replaced(t, e, rep) =~= rep + seq![s[0]] + replaced(s.skip(1), e, rep) + seq![c] + rep);
    }
}

} // verus!
