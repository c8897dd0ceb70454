//! Automatic artist prefixing: the names found in the library, how often
//! they occur, and the names a user selects.
use vstd::prelude::*;

use crate::quick_edit::QuickArtistPrefixChange;
use crate::prompt_tokens::strings_of;
use crate::query::{insert_sorted, sorted_difference, strictly_sorted};
use crate::quick_edit::QuickEditError;
use crate::text::{
    chars_of, contains_chars, lowercase, lowercase_chars, split_chars, split_fields, string_chars, string_of, string_views,
    trim, trim_chars, views,
};

verus! {

/// An artist name found bare in prompts, with where it was found.
#[derive(Debug, Clone, PartialEq, Eq)]
pub struct AutoArtistCandidate {
    pub match_name: String,
    pub display_name: String,
    pub matched_rows: u64,
    pub matched_fields: u64,
    pub sample_row_ids: Vec<i64>,
}

/// What automatic prefixing would do.
#[derive(Debug, Clone, PartialEq, Eq)]
pub struct AutoArtistPrefixPreview {
    pub scanned_rows: u64,
    pub matched_rows: u64,
    pub prompt_fields_needing_changes: u64,
    pub candidates: Vec<AutoArtistCandidate>,
}

/// What automatic prefixing did.
#[derive(Debug, Clone, PartialEq, Eq)]
pub struct AutoArtistPrefixApplyResult {
    pub scanned_rows: u64,
    pub matched_rows: u64,
    pub changed_rows: u64,
    pub prompt_fields_changed: u64,
    pub changes: Vec<QuickArtistPrefixChange>,
}

/// The counts gathered for one candidate name while scanning the rows.
#[derive(Debug)]
pub struct CandidateAccumulator {
    pub match_name: String,
    pub matched_rows: u64,
    pub matched_fields: u64,
    pub last_row_id: Option<i64>,
    pub sample_row_ids: Vec<i64>,
}

/// The candidate a finished accumulator reports; it is shown by its match
/// name.
pub fn candidate_from_accumulator(accumulator: CandidateAccumulator) -> (r: AutoArtistCandidate)
    ensures
        r.match_name@ == accumulator.match_name@,
        r.display_name@ == accumulator.match_name@,
        r.matched_rows == accumulator.matched_rows,
        r.matched_fields == accumulator.matched_fields,
        r.sample_row_ids@ == accumulator.sample_row_ids@,
{
    let display_name = accumulator.match_name.clone();
    AutoArtistCandidate {
        match_name: accumulator.match_name,
        display_name,
        matched_rows: accumulator.matched_rows,
        matched_fields: accumulator.matched_fields,
        sample_row_ids: accumulator.sample_row_ids,
    }
}

/// A selected name as prefixing compares it: trimmed and lower-cased;
/// `None` when blank.
pub fn normalize_selected_name(name: &str) -> (r: Option<String>)
    ensures
        trim(name@).len() == 0 ==> r is None,
        trim(name@).len() > 0 ==> (r matches Some(s) && s@ == lowercase(trim(name@))),
{
    let t = trim_chars(&chars_of(name));
    if t.len() == 0 {
        None
    } else {
        Some(string_of(&lowercase_chars(&t)))
    }
}

/// The fragments of a prompt that artist names are looked for in: the text
/// between commas, line feeds and carriage returns.
pub fn prompt_fragments(prompt: &str) -> (r: Vec<String>)
    ensures
        string_views(r@) == split_fields(prompt@, false),
{
    let parts = split_chars(&chars_of(prompt), false);
    let r = strings_of(&parts);
    assert(string_views(r@) =~= views(parts@));
    r
}

/// Whether `t` is one of the names found: the name an entry of `found`
/// holds.
pub open spec fn found_name(found: Seq<Option<String>>, t: Seq<char>) -> bool {
    exists|i: int| 0 <= i < found.len() && (#[trigger] found[i] matches Some(s) && s@ == t)
}

/// The distinct names found in the fragments of a prompt, in code-point
/// order; entry `i` of `found` is the name fragment `i` yields, if any.
/// These are the bare tag names, or the explicit artist names, of a prompt.
pub fn fragment_names(found: &Vec<Option<String>>) -> (r: Vec<String>)
    ensures
        strictly_sorted(string_views(r@)),
        forall|t: Seq<char>| #[trigger] string_views(r@).contains(t) <==> found_name(found@, t),
{
    let mut out: Vec<Vec<char>> = Vec::new();
    let mut i: usize = 0;
    while i < found.len()
        invariant
            i <= found.len(),
            strictly_sorted(views(out@)),
            forall|t: Seq<char>| #[trigger] views(out@).contains(t) <==> found_name(found@.take(i as int), t),
        decreases found.len() - i,
    {
        let ghost prefix = found@.take(i as int);
        let ghost next = found@.take(i + 1);
        assert(next =~= prefix.push(found@[i as int]));
        match &found[i] {
            Some(name) => {
                insert_sorted(&mut out, chars_of(name.as_str()));
            },
            None => {},
        }
        assert forall|t: Seq<char>| #[trigger] views(out@).contains(t) <==> found_name(next, t) by {
            if found_name(next, t) {
                let k = choose|k: int| 0 <= k < next.len() && (#[trigger] next[k] matches Some(s) && s@ == t);
                if k < i {
                    assert(prefix[k] == next[k]);
                }
            }
            if found_name(prefix, t) {
                let k = choose|k: int| 0 <= k < prefix.len() && (#[trigger] prefix[k] matches Some(s) && s@ == t);
                assert(next[k] == prefix[k]);
            }
            if found@[i as int] matches Some(s) && s@ == t {
                assert(next[i as int] == found@[i as int]);
            }
        }
        i = i + 1;
    }
    assert(found@.take(found.len() as int) =~= found@);
    let r = strings_of(&out);
    assert(string_views(r@) =~= views(out@));
    r
}

/// The bare names of a prompt that the library confirms as artists, in
/// code-point order: those of `bare_names` that `library_confirmed` holds.
pub fn matching_library_artist_names(bare_names: &Vec<String>, library_confirmed: &Vec<String>) -> (r: Vec<
    String,
>)
    ensures
        strictly_sorted(string_views(r@)),
        forall|t: Seq<char>| #[trigger] string_views(r@).contains(t) <==> (string_views(bare_names@).contains(t)
            && string_views(library_confirmed@).contains(t)),
{
    let confirmed = string_chars(library_confirmed);
    let names = string_chars(bare_names);
    let mut out: Vec<Vec<char>> = Vec::new();
    let mut i: usize = 0;
    while i < names.len()
        invariant
            i <= names.len(),
            views(confirmed@) == string_views(library_confirmed@),
            views(names@) == string_views(bare_names@),
            strictly_sorted(views(out@)),
            forall|t: Seq<char>| #[trigger] views(out@).contains(t) <==> (views(names@).take(i as int).contains(t)
                && views(confirmed@).contains(t)),
        decreases names.len() - i,
    {
        let x = names[i].clone();
        assert(x@ == views(names@)[i as int]);
        let ghost prefix = views(names@).take(i as int);
        let ghost next = views(names@).take(i + 1);
        assert(next =~= prefix.push(x@));
        if contains_chars(&confirmed, &x) {
            insert_sorted(&mut out, x);
        }
        assert forall|t: Seq<char>| #[trigger] views(out@).contains(t) <==> (next.contains(t) && views(
            confirmed@,
        ).contains(t)) by {
            if next.contains(t) {
                let k = choose|k: int| 0 <= k < next.len() && next[k] == t;
                if k < i {
                    assert(prefix[k] == t);
                }
            }
            if prefix.contains(t) {
                let k = choose|k: int| 0 <= k < prefix.len() && prefix[k] == t;
                assert(next[k] == t);
            }
            if t == x@ {
                assert(next[i as int] == t);
            }
        }
        i = i + 1;
    }
    assert(views(names@).take(i as int) =~= views(names@));
    let r = strings_of(&out);
    assert(string_views(r@) =~= views(out@));
    r
}

/// The names the library confirms as artists: every explicit artist name of
/// any prompt field of any row, without repeats (here in code-point order).
/// Entry `i` of `explicit_names` holds the explicit artist names of one
/// prompt field.
pub fn library_confirmed_names(explicit_names: &Vec<Vec<String>>) -> (r: Vec<String>)
    ensures
        strictly_sorted(string_views(r@)),
        forall|t: Seq<char>| #[trigger] string_views(r@).contains(t) <==> exists|i: int|
            0 <= i < explicit_names.len() && #[trigger] string_views(explicit_names@[i]@).contains(t),
{
    let mut out: Vec<Vec<char>> = Vec::new();
    let mut i: usize = 0;
    while i < explicit_names.len()
        invariant
            i <= explicit_names.len(),
            strictly_sorted(views(out@)),
            forall|t: Seq<char>| #[trigger] views(out@).contains(t) <==> exists|a: int|
                0 <= a < i && #[trigger] string_views(explicit_names@[a]@).contains(t),
        decreases explicit_names.len() - i,
    {
        let names = string_chars(&explicit_names[i]);
        let mut j: usize = 0;
        while j < names.len()
            invariant
                i < explicit_names.len(),
                j <= names.len(),
                views(names@) == string_views(explicit_names@[i as int]@),
                strictly_sorted(views(out@)),
                forall|t: Seq<char>| #[trigger] views(out@).contains(t) <==> ((exists|a: int|
                    0 <= a < i && #[trigger] string_views(explicit_names@[a]@).contains(t)) || views(names@).take(
                    j as int,
                ).contains(t)),
            decreases names.len() - j,
        {
            let x = names[j].clone();
            assert(x@ == views(names@)[j as int]);
            let ghost prefix = views(names@).take(j as int);
            let ghost next = views(names@).take(j + 1);
            assert(next =~= prefix.push(x@));
            insert_sorted(&mut out, x);
            assert forall|t: Seq<char>| #[trigger] views(out@).contains(t) <==> ((exists|a: int|
                0 <= a < i && #[trigger] string_views(explicit_names@[a]@).contains(t)) || next.contains(t)) by {
                if next.contains(t) {
                    let k = choose|k: int| 0 <= k < next.len() && next[k] == t;
                    if k < j {
                        assert(prefix[k] == t);
                    }
                }
                if prefix.contains(t) {
                    let k = choose|k: int| 0 <= k < prefix.len() && prefix[k] == t;
                    assert(next[k] == t);
                }
                if t == x@ {
                    assert(next[j as int] == t);
                }
            }
            j = j + 1;
        }
        assert(views(names@).take(j as int) =~= views(names@));
        assert forall|t: Seq<char>| #[trigger] views(out@).contains(t) <==> exists|a: int|
            0 <= a < i + 1 && #[trigger] string_views(explicit_names@[a]@).contains(t) by {
            if views(names@).contains(t) {
                assert(string_views(explicit_names@[i as int]@).contains(t));
            }
        }
        i = i + 1;
    }
    let r = strings_of(&out);
    assert(string_views(r@) =~= views(out@));
    r
}

/// Whether `t` is a name of the selection: some selected name, trimmed,
/// is not blank and lower-cases to `t`.
pub open spec fn selected_name(selected: Seq<Seq<char>>, t: Seq<char>) -> bool {
    exists|i: int| 0 <= i < selected.len() && trim(selected[i]).len() > 0 && #[trigger] lowercase(trim(selected[i])) == t
}

/// Checks the names selected for automatic prefixing against the names the
/// library confirms: no usable name is `EmptyArtistSelection`; selected names
/// the library does not confirm are `UnknownArtistNames`, listing them in
/// code-point order; otherwise the selected names, each once, in
/// code-point order.
pub fn check_artist_selection(selected: &Vec<String>, confirmed: &Vec<String>) -> (r: Result<Vec<String>, QuickEditError>)
    ensures
        (forall|t: Seq<char>| !selected_name(string_views(selected@), t)) ==> (r matches Err(
            QuickEditError::EmptyArtistSelection,
        )),
        (exists|t: Seq<char>| selected_name(string_views(selected@), t)) && (exists|t: Seq<char>|
            selected_name(string_views(selected@), t) && !string_views(confirmed@).contains(t)) ==> (r matches Err(
            QuickEditError::UnknownArtistNames(u),
        ) && strictly_sorted(string_views(u@)) && forall|t: Seq<char>| #[trigger] string_views(u@).contains(t) <==> (
        selected_name(string_views(selected@), t) && !string_views(confirmed@).contains(t))),
        (exists|t: Seq<char>| selected_name(string_views(selected@), t)) && (forall|t: Seq<char>|
            selected_name(string_views(selected@), t) ==> string_views(confirmed@).contains(t)) ==> (r matches Ok(v)
            && strictly_sorted(string_views(v@)) && forall|t: Seq<char>| #[trigger] string_views(v@).contains(t)
            <==> selected_name(string_views(selected@), t)),
{
    let ghost sv = string_views(selected@);
    let mut names: Vec<Vec<char>> = Vec::new();
    let mut i: usize = 0;
    while i < selected.len()
        invariant
            i <= selected.len(),
            sv == string_views(selected@),
            strictly_sorted(views(names@)),
            forall|t: Seq<char>| #[trigger] views(names@).contains(t) <==> selected_name(sv.take(i as int), t),
        decreases selected.len() - i,
    {
        let ghost prefix = sv.take(i as int);
        let ghost next = sv.take(i + 1);
        assert(next =~= prefix.push(sv[i as int]));
        assert(sv[i as int] == selected@[i as int]@);
        match normalize_selected_name(selected[i].as_str()) {
            Some(name) => {
                insert_sorted(&mut names, chars_of(name.as_str()));
            },
            None => {},
        }
        assert forall|t: Seq<char>| #[trigger] views(names@).contains(t) <==> selected_name(next, t) by {
            if selected_name(next, t) {
                let k = choose|k: int| 0 <= k < next.len() && trim(next[k]).len() > 0 && #[trigger] lowercase(
                    trim(next[k]),
                ) == t;
                if k < i {
                    assert(prefix[k] == next[k]);
                    assert(selected_name(prefix, t));
                }
            }
            if selected_name(prefix, t) {
                let k = choose|k: int| 0 <= k < prefix.len() && trim(prefix[k]).len() > 0 && #[trigger] lowercase(
                    trim(prefix[k]),
                ) == t;
                assert(next[k] == prefix[k]);
                assert(selected_name(next, t));
            }
            if trim(sv[i as int]).len() > 0 && lowercase(trim(sv[i as int])) == t {
                assert(next[i as int] == sv[i as int]);
                assert(selected_name(next, t));
            }
        }
        i = i + 1;
    }
    assert(sv.take(i as int) =~= sv);
    let normalized = strings_of(&names);
    assert(string_views(normalized@) =~= views(names@));
    if normalized.len() == 0 {
        assert forall|t: Seq<char>| !selected_name(sv, t) by {
            if selected_name(sv, t) {
                assert(views(names@).contains(t));
            }
        }
        return Err(QuickEditError::EmptyArtistSelection);
    }
    assert(views(names@).contains(views(names@)[0]));
    assert(selected_name(sv, views(names@)[0]));
    let unknown = sorted_difference(&normalized, confirmed);
    if unknown.len() > 0 {
        assert(string_views(unknown@).contains(string_views(unknown@)[0]));
        return Err(QuickEditError::UnknownArtistNames(unknown));
    }
    assert forall|t: Seq<char>| selected_name(sv, t) implies string_views(confirmed@).contains(t) by {
        assert(string_views(normalized@).contains(t));
        if !string_views(confirmed@).contains(t) {
            assert(string_views(unknown@).contains(t));
        }
    }
    Ok(normalized)
}

} // verus!
