//! Quick edits: find the rows whose prompt text holds every required token
//! and tag them, group them or prefix an artist name in them, with the
//! changes recorded so that they can be reverted and re-applied.
use vstd::prelude::*;

use crate::errors::DatabaseError;
use crate::prompt_tokens::{opt_string_view, collect_prompt_tokens, keep_first_nonempty, lemma_keep_first_nonempty_facts, quick_token, quick_token_chars, quick_tokens, strings_of};
use crate::text::{chars_eq, chars_of, contains_chars, is_separator, string_of, string_views, trim, trim_chars, views};

verus! {

/// The text fields a quick edit can match in.
#[derive(Debug, Clone, Copy, PartialEq, Eq, Hash, Structural)]
pub enum QuickEditTextField {
    PositivePrompt,
    CharacterPrompt,
    NegativePrompt,
    Artists,
    Note,
}

/// Rows match when the chosen fields together hold every required token.
#[derive(Debug, Clone, PartialEq, Eq)]
pub struct QuickEditCondition {
    pub fields: Vec<QuickEditTextField>,
    pub required_tokens: Vec<String>,
}

/// What tagging the matching rows would do.
#[derive(Debug, Clone, PartialEq, Eq)]
pub struct QuickTagPreview {
    pub scanned_rows: u64,
    pub matched_rows: u64,
    pub rows_needing_changes: u64,
    pub already_tagged_rows: u64,
    pub associations_to_add: u64,
    pub sample_row_ids: Vec<i64>,
    pub normalized_tokens: Vec<String>,
    pub normalized_tags: Vec<String>,
}

/// One tag given to one row.
#[derive(Debug, Clone, PartialEq, Eq)]
pub struct QuickTagAssociation {
    pub row_id: i64,
    pub tag: String,
}

/// What tagging the matching rows did.
#[derive(Debug, Clone, PartialEq, Eq)]
pub struct QuickTagApplyResult {
    pub scanned_rows: u64,
    pub matched_rows: u64,
    pub changed_rows: u64,
    pub associations_changed: u64,
    pub changes: Vec<QuickTagAssociation>,
}

/// What grouping the matching rows would do.
#[derive(Debug, Clone, PartialEq, Eq)]
pub struct QuickGroupPreview {
    pub scanned_rows: u64,
    pub matched_rows: u64,
    pub rows_needing_changes: u64,
    pub already_in_group_rows: u64,
    pub skipped_grouped_rows: u64,
    pub only_ungrouped: bool,
    pub sample_row_ids: Vec<i64>,
    pub normalized_tokens: Vec<String>,
    pub target_group_id: i64,
    pub target_group_name: String,
}

/// One row moved into a group, with the group it left.
#[derive(Debug, Clone, PartialEq, Eq)]
pub struct QuickGroupChange {
    pub row_id: i64,
    pub previous_group_id: Option<i64>,
    pub target_group_id: i64,
}

/// What grouping the matching rows did.
#[derive(Debug, Clone, PartialEq, Eq)]
pub struct QuickGroupApplyResult {
    pub scanned_rows: u64,
    pub matched_rows: u64,
    pub changed_rows: u64,
    pub skipped_grouped_rows: u64,
    pub only_ungrouped: bool,
    pub changes: Vec<QuickGroupChange>,
}

/// What prefixing an artist name would do.
#[derive(Debug, Clone, PartialEq, Eq)]
pub struct QuickArtistPrefixPreview {
    pub scanned_rows: u64,
    pub matched_rows: u64,
    pub rows_needing_changes: u64,
    pub prompt_fields_needing_changes: u64,
    pub sample_row_ids: Vec<i64>,
    pub artist_name: String,
}

/// The prompt fields of one row before and after an artist prefix.
#[derive(Debug, Clone, PartialEq, Eq)]
pub struct QuickArtistPrefixChange {
    pub row_id: i64,
    pub previous_positive_prompt: Option<String>,
    pub new_positive_prompt: Option<String>,
    pub previous_character_prompt: Option<String>,
    pub new_character_prompt: Option<String>,
    pub previous_negative_prompt: Option<String>,
    pub new_negative_prompt: Option<String>,
    pub previous_artists: Option<String>,
    pub new_artists: Option<String>,
}

/// What prefixing an artist name did.
#[derive(Debug, Clone, PartialEq, Eq)]
pub struct QuickArtistPrefixApplyResult {
    pub scanned_rows: u64,
    pub matched_rows: u64,
    pub changed_rows: u64,
    pub prompt_fields_changed: u64,
    pub changes: Vec<QuickArtistPrefixChange>,
}

/// Why a quick edit was refused.
#[derive(Debug)]
pub enum QuickEditError {
    Database(DatabaseError),
    EmptyFields,
    EmptyCondition,
    InvalidConditionToken(String),
    EmptyTags,
    UnknownTags(Vec<String>),
    UnknownRow(i64),
    InvalidRowId(i64),
    InvalidGroupId(i64),
    EmptyArtistName,
    InvalidArtistName,
    EmptyArtistSelection,
    UnknownArtistNames(Vec<String>),
}

/// A checked condition: which fields to read and the distinct tokens.
pub struct EvaluatedCondition {
    pub positive: bool,
    pub character: bool,
    pub negative: bool,
    pub artists: bool,
    pub note: bool,
    pub tokens: Vec<String>,
}

pub open spec fn has_line_separator(s: Seq<char>) -> bool {
    exists|i: int| 0 <= i < s.len() && is_separator(#[trigger] s[i], false)
}

/// The first required token that holds a comma or line break, if any.
pub open spec fn first_bad_token(raws: Seq<Seq<char>>, n: int) -> Option<int>
    decreases n,
{
    if n <= 0 {
        None
    } else {
        let prev = first_bad_token(raws, n - 1);
        if prev is Some {
            prev
        } else if has_line_separator(raws[n - 1]) {
            Some(n - 1)
        } else {
            None
        }
    }
}

fn has_separator_chars(v: &Vec<char>) -> (r: bool)
    ensures
        r == has_line_separator(v@),
{
    let mut i: usize = 0;
    while i < v.len()
        invariant
            i <= v.len(),
            forall|k: int| 0 <= k < i ==> !is_separator(v@[k], false),
        decreases v.len() - i,
    {
        if crate::text::is_separator_char(v[i], false) {
            return true;
        }
        i = i + 1;
    }
    false
}

fn selects(fields: &Vec<QuickEditTextField>, f: QuickEditTextField) -> (r: bool)
    ensures
        r == fields@.contains(f),
{
    let mut i: usize = 0;
    while i < fields.len()
        invariant
            i <= fields.len(),
            forall|k: int| 0 <= k < i ==> fields@[k] != f,
        decreases fields.len() - i,
    {
        if fields[i] == f {
            return true;
        }
        i = i + 1;
    }
    false
}

impl EvaluatedCondition {
    /// Checks a quick-edit condition: at least one field, no token holding
    /// a comma or line break (the first such token is named), and at least
    /// one non-empty token after normalisation; duplicates are dropped.
    pub fn new(condition: &QuickEditCondition) -> (r: Result<Self, QuickEditError>)
        ensures
            ({
                let raws = string_views(condition.required_tokens@);
                let keys = keep_first_nonempty(raws.map_values(|t: Seq<char>| quick_token(t)));
                match r {
                    Ok(c) => {
                        &&& condition.fields@.len() > 0
                        &&& first_bad_token(raws, raws.len() as int) is None
                        &&& keys.len() > 0
                        &&& string_views(c.tokens@) == keys
                        &&& c.positive == condition.fields@.contains(QuickEditTextField::PositivePrompt)
                        &&& c.character == condition.fields@.contains(QuickEditTextField::CharacterPrompt)
                        &&& c.negative == condition.fields@.contains(QuickEditTextField::NegativePrompt)
                        &&& c.artists == condition.fields@.contains(QuickEditTextField::Artists)
                        &&& c.note == condition.fields@.contains(QuickEditTextField::Note)
                    },
                    Err(QuickEditError::EmptyFields) => condition.fields@.len() == 0,
                    Err(QuickEditError::InvalidConditionToken(t)) => condition.fields@.len() > 0
                        && (first_bad_token(raws, raws.len() as int) matches Some(i) && raws[i] == t@),
                    Err(QuickEditError::EmptyCondition) => condition.fields@.len() > 0
                        && first_bad_token(raws, raws.len() as int) is None && keys.len() == 0,
                    Err(_) => false,
                }
            }),
    {
        let ghost raws = string_views(condition.required_tokens@);
        let ghost mapped = raws.map_values(|t: Seq<char>| quick_token(t));
        if condition.fields.len() == 0 {
            return Err(QuickEditError::EmptyFields);
        }
        let mut tokens: Vec<Vec<char>> = Vec::new();
        let mut i: usize = 0;
        assert(mapped.take(0) =~= Seq::<Seq<char>>::empty());
        while i < condition.required_tokens.len()
            invariant
                i <= condition.required_tokens.len(),
                condition.fields@.len() > 0,
                raws == string_views(condition.required_tokens@),
                mapped == raws.map_values(|t: Seq<char>| quick_token(t)),
                first_bad_token(raws, i as int) is None,
                views(tokens@) == keep_first_nonempty(mapped.take(i as int)),
            decreases condition.required_tokens.len() - i,
        {
            let raw = chars_of(condition.required_tokens[i].as_str());
            assert(raws[i as int] == raw@);
            if has_separator_chars(&raw) {
                assert(first_bad_token(raws, i + 1) == Some(i as int));
                proof {
                    lemma_first_bad_stable(raws, i + 1, raws.len() as int);
                }
                let bad = condition.required_tokens[i].clone();
                assert(bad@ == raws[i as int]);
                assert(first_bad_token(raws, raws.len() as int) == Some(i as int));
                return Err(QuickEditError::InvalidConditionToken(bad));
            }
            let t = quick_token_chars(&raw);
            assert(mapped.take(i + 1) =~= mapped.take(i as int).push(t@));
            assert(mapped.take(i + 1).drop_last() =~= mapped.take(i as int));
            if t.len() > 0 && !contains_chars(&tokens, &t) {
                let ghost before = views(tokens@);
                let ghost tv = t@;
                tokens.push(t);
                assert(views(tokens@) =~= before.push(tv));
            }
            i = i + 1;
        }
        assert(mapped.take(i as int) =~= mapped);
        if tokens.len() == 0 {
            return Err(QuickEditError::EmptyCondition);
        }
        Ok(EvaluatedCondition {
            positive: selects(&condition.fields, QuickEditTextField::PositivePrompt),
            character: selects(&condition.fields, QuickEditTextField::CharacterPrompt),
            negative: selects(&condition.fields, QuickEditTextField::NegativePrompt),
            artists: selects(&condition.fields, QuickEditTextField::Artists),
            note: selects(&condition.fields, QuickEditTextField::Note),
            tokens: strings_of(&tokens),
        })
    }

    /// The quick-edit keys available in the selected fields of a row.
    pub open spec fn available(
        &self,
        positive: Option<Seq<char>>,
        character: Option<Seq<char>>,
        negative: Option<Seq<char>>,
        artists: Option<Seq<char>>,
        note: Option<Seq<char>>,
    ) -> Set<Seq<char>> {
        field_keys(self.positive, positive) + field_keys(self.character, character) + field_keys(
            self.negative,
            negative,
        ) + field_keys(self.artists, artists) + field_keys(self.note, note)
    }

    /// Whether the selected fields of a row hold every token.
    pub fn matches(
        &self,
        positive: Option<&Vec<char>>,
        character: Option<&Vec<char>>,
        negative: Option<&Vec<char>>,
        artists: Option<&Vec<char>>,
        note: Option<&Vec<char>>,
    ) -> (r: bool)
        ensures
            r == (forall|i: int| 0 <= i < self.tokens@.len() ==> #[trigger] self.available(
                opt_chars(positive),
                opt_chars(character),
                opt_chars(negative),
                opt_chars(artists),
                opt_chars(note),
            ).contains(self.tokens@[i]@)),
    {
        let mut available: Vec<Vec<char>> = Vec::new();
        assert(views(available@).to_set() =~= Set::<Seq<char>>::empty());
        add_field(self.positive, positive, &mut available);
        add_field(self.character, character, &mut available);
        add_field(self.negative, negative, &mut available);
        add_field(self.artists, artists, &mut available);
        add_field(self.note, note, &mut available);
        let ghost av = self.available(
            opt_chars(positive),
            opt_chars(character),
            opt_chars(negative),
            opt_chars(artists),
            opt_chars(note),
        );
        assert(views(available@).to_set() =~= av);
        let mut i: usize = 0;
        while i < self.tokens.len()
            invariant
                i <= self.tokens.len(),
                views(available@).to_set() == av,
                av == self.available(
                    opt_chars(positive),
                    opt_chars(character),
                    opt_chars(negative),
                    opt_chars(artists),
                    opt_chars(note),
                ),
                forall|k: int| 0 <= k < i ==> av.contains(self.tokens@[k]@),
            decreases self.tokens.len() - i,
        {
            let t = chars_of(self.tokens[i].as_str());
            assert(t@ == self.tokens@[i as int]@);
            if !contains_chars(&available, &t) {
                assert(!av.contains(self.tokens@[i as int]@));
                return false;
            }
            i = i + 1;
        }
        true
    }
}

pub open spec fn opt_chars(v: Option<&Vec<char>>) -> Option<Seq<char>> {
    match v {
        Some(x) => Some(x@),
        None => None,
    }
}

/// The keys a field contributes when it is selected.
pub open spec fn field_keys(selected: bool, text: Option<Seq<char>>) -> Set<Seq<char>> {
    if selected && text is Some {
        quick_tokens(text->0).to_set()
    } else {
        Set::empty()
    }
}

fn add_field(selected: bool, text: Option<&Vec<char>>, out: &mut Vec<Vec<char>>)
    ensures
        views(final(out)@).to_set() == views(old(out)@).to_set() + field_keys(selected, opt_chars(text)),
{
    if selected {
        collect_prompt_tokens(text, out);
        assert(views(final(out)@).to_set() =~= views(old(out)@).to_set() + field_keys(selected, opt_chars(text)));
    } else {
        assert(views(out@).to_set() =~= views(out@).to_set() + Set::<Seq<char>>::empty());
    }
}

proof fn lemma_first_bad_stable(raws: Seq<Seq<char>>, n: int, m: int)
    requires
        0 <= n <= m,
        first_bad_token(raws, n) is Some,
    ensures
        first_bad_token(raws, m) == first_bad_token(raws, n),
    decreases m - n,
{
    if m > n {
        lemma_first_bad_stable(raws, n, m - 1);
    }
}

/// Clears the tags of recorded changes of whitespace and checks them: the
/// first change with a row id below 1 or a blank tag refuses the list; a
/// change repeating an earlier (row, tag) pair is dropped.
pub open spec fn normalized_tag_changes(changes: Seq<QuickTagAssociation>) -> Result<Seq<(i64, Seq<char>)>, QuickEditError>
    decreases changes.len(),
{
    if changes.len() == 0 {
        Ok(Seq::empty())
    } else {
        match normalized_tag_changes(changes.drop_last()) {
            Err(e) => Err(e),
            Ok(done) => {
                let c = changes.last();
                let tag = trim(c.tag@);
                if c.row_id <= 0 {
                    Err(QuickEditError::InvalidRowId(c.row_id))
                } else if tag.len() == 0 {
                    Err(QuickEditError::EmptyTags)
                } else if done.contains((c.row_id, tag)) {
                    Ok(done)
                } else {
                    Ok(done.push((c.row_id, tag)))
                }
            },
        }
    }
}

pub open spec fn association_views(v: Seq<QuickTagAssociation>) -> Seq<(i64, Seq<char>)> {
    v.map_values(|a: QuickTagAssociation| (a.row_id, a.tag@))
}

/// Whether a refusal of recorded changes is the same one.
pub open spec fn same_refusal(a: QuickEditError, b: QuickEditError) -> bool {
    match (a, b) {
        (QuickEditError::InvalidRowId(x), QuickEditError::InvalidRowId(y)) => x == y,
        (QuickEditError::InvalidGroupId(x), QuickEditError::InvalidGroupId(y)) => x == y,
        (QuickEditError::EmptyTags, QuickEditError::EmptyTags) => true,
        _ => false,
    }
}

fn contains_association(list: &Vec<QuickTagAssociation>, row_id: i64, tag: &Vec<char>) -> (r: bool)
    ensures
        r == association_views(list@).contains((row_id, tag@)),
{
    let mut i: usize = 0;
    while i < list.len()
        invariant
            i <= list.len(),
            forall|k: int| 0 <= k < i ==> association_views(list@)[k] != (row_id, tag@),
        decreases list.len() - i,
    {
        if list[i].row_id == row_id && chars_eq(&chars_of(list[i].tag.as_str()), tag) {
            assert(association_views(list@)[i as int] == (row_id, tag@));
            return true;
        }
        i = i + 1;
    }
    false
}

/// Checks and de-duplicates recorded tag changes before they are reverted
/// or re-applied (see `normalized_tag_changes`).
pub fn normalize_changes(changes: &Vec<QuickTagAssociation>) -> (r: Result<Vec<QuickTagAssociation>, QuickEditError>)
    ensures
        match (r, normalized_tag_changes(changes@)) {
            (Ok(v), Ok(w)) => association_views(v@) == w,
            (Err(e), Err(f)) => same_refusal(e, f),
            _ => false,
        },
{
    let mut out: Vec<QuickTagAssociation> = Vec::new();
    let mut i: usize = 0;
    assert(changes@.take(0) =~= Seq::<QuickTagAssociation>::empty());
    assert(association_views(out@) =~= Seq::<(i64, Seq<char>)>::empty());
    while i < changes.len()
        invariant
            i <= changes.len(),
            normalized_tag_changes(changes@.take(i as int)) == Ok::<Seq<(i64, Seq<char>)>, QuickEditError>(
                association_views(out@),
            ),
        decreases changes.len() - i,
    {
        let c = &changes[i];
        assert(changes@.take(i + 1).drop_last() =~= changes@.take(i as int));
        assert(changes@.take(i + 1).last() == changes@[i as int]);
        proof {
            lemma_normalized_tag_changes_err_stays(changes@, i + 1);
        }
        if c.row_id <= 0 {
            return Err(QuickEditError::InvalidRowId(c.row_id));
        }
        let tag = trim_chars(&chars_of(c.tag.as_str()));
        if tag.len() == 0 {
            return Err(QuickEditError::EmptyTags);
        }
        if !contains_association(&out, c.row_id, &tag) {
            let ghost before = association_views(out@);
            let ghost tv = tag@;
            out.push(QuickTagAssociation { row_id: c.row_id, tag: string_of(&tag) });
            assert(association_views(out@) =~= before.push((c.row_id, tv)));
        }
        i = i + 1;
    }
    assert(changes@.take(i as int) =~= changes@);
    Ok(out)
}

proof fn lemma_normalized_tag_changes_err_stays(changes: Seq<QuickTagAssociation>, n: int)
    requires
        0 <= n <= changes.len(),
    ensures
        normalized_tag_changes(changes.take(n)) is Err ==> normalized_tag_changes(changes) == normalized_tag_changes(
            changes.take(n),
        ),
    decreases changes.len() - n,
{
    if n < changes.len() {
        lemma_normalized_tag_changes_err_stays(changes, n + 1);
        assert(changes.take(n + 1).drop_last() =~= changes.take(n));
    } else {
        assert(changes.take(n) =~= changes);
    }
}

/// Checks recorded group changes: the first change with a row id below 1,
/// a target group below 1 or a previous group below 1 refuses the list; a
/// later change of a row already listed is dropped.
pub open spec fn normalized_group_changes(changes: Seq<QuickGroupChange>) -> Result<Seq<QuickGroupChange>, QuickEditError>
    decreases changes.len(),
{
    if changes.len() == 0 {
        Ok(Seq::empty())
    } else {
        match normalized_group_changes(changes.drop_last()) {
            Err(e) => Err(e),
            Ok(done) => {
                let c = changes.last();
                if c.row_id <= 0 {
                    Err(QuickEditError::InvalidRowId(c.row_id))
                } else if c.target_group_id <= 0 {
                    Err(QuickEditError::InvalidGroupId(c.target_group_id))
                } else if c.previous_group_id matches Some(g) && g <= 0 {
                    Err(QuickEditError::InvalidGroupId(c.previous_group_id->0))
                } else if exists|k: int| 0 <= k < done.len() && (#[trigger] done[k]).row_id == c.row_id {
                    Ok(done)
                } else {
                    Ok(done.push(c))
                }
            },
        }
    }
}

proof fn lemma_normalized_group_changes_err_stays(changes: Seq<QuickGroupChange>, n: int)
    requires
        0 <= n <= changes.len(),
    ensures
        normalized_group_changes(changes.take(n)) is Err ==> normalized_group_changes(changes)
            == normalized_group_changes(changes.take(n)),
    decreases changes.len() - n,
{
    if n < changes.len() {
        lemma_normalized_group_changes_err_stays(changes, n + 1);
        assert(changes.take(n + 1).drop_last() =~= changes.take(n));
    } else {
        assert(changes.take(n) =~= changes);
    }
}

fn has_row(list: &Vec<QuickGroupChange>, row_id: i64) -> (r: bool)
    ensures
        r == exists|k: int| 0 <= k < list@.len() && (#[trigger] list@[k]).row_id == row_id,
{
    let mut i: usize = 0;
    while i < list.len()
        invariant
            i <= list.len(),
            forall|k: int| 0 <= k < i ==> (#[trigger] list@[k]).row_id != row_id,
        decreases list.len() - i,
    {
        if list[i].row_id == row_id {
            return true;
        }
        i = i + 1;
    }
    false
}

/// Checks and de-duplicates recorded group changes before they are reverted
/// or re-applied (see `normalized_group_changes`).
pub fn normalize_group_changes(changes: &Vec<QuickGroupChange>) -> (r: Result<Vec<QuickGroupChange>, QuickEditError>)
    ensures
        match (r, normalized_group_changes(changes@)) {
            (Ok(v), Ok(w)) => v@ == w,
            (Err(e), Err(f)) => same_refusal(e, f),
            _ => false,
        },
{
    let mut out: Vec<QuickGroupChange> = Vec::new();
    let mut i: usize = 0;
    assert(changes@.take(0) =~= Seq::<QuickGroupChange>::empty());
    while i < changes.len()
        invariant
            i <= changes.len(),
            normalized_group_changes(changes@.take(i as int)) == Ok::<Seq<QuickGroupChange>, QuickEditError>(out@),
        decreases changes.len() - i,
    {
        let c = &changes[i];
        assert(changes@.take(i + 1).drop_last() =~= changes@.take(i as int));
        assert(changes@.take(i + 1).last() == changes@[i as int]);
        proof {
            lemma_normalized_group_changes_err_stays(changes@, i + 1);
        }
        if c.row_id <= 0 {
            return Err(QuickEditError::InvalidRowId(c.row_id));
        }
        if c.target_group_id <= 0 {
            return Err(QuickEditError::InvalidGroupId(c.target_group_id));
        }
        if let Some(g) = c.previous_group_id {
            if g <= 0 {
                return Err(QuickEditError::InvalidGroupId(g));
            }
        }
        if !has_row(&out, c.row_id) {
            out.push(QuickGroupChange {
                row_id: c.row_id,
                previous_group_id: c.previous_group_id,
                target_group_id: c.target_group_id,
            });
        }
        i = i + 1;
    }
    assert(changes@.take(i as int) =~= changes@);
    Ok(out)
}

/// The recorded artist-prefix changes with row ids checked (the first below
/// 1 refuses the list) and later changes of a listed row dropped.
pub open spec fn normalized_prefix_changes(changes: Seq<QuickArtistPrefixChange>) -> Result<Seq<QuickArtistPrefixChange>, QuickEditError>
    decreases changes.len(),
{
    if changes.len() == 0 {
        Ok(Seq::empty())
    } else {
        match normalized_prefix_changes(changes.drop_last()) {
            Err(e) => Err(e),
            Ok(done) => {
                let c = changes.last();
                if c.row_id <= 0 {
                    Err(QuickEditError::InvalidRowId(c.row_id))
                } else if exists|k: int| 0 <= k < done.len() && (#[trigger] done[k]).row_id == c.row_id {
                    Ok(done)
                } else {
                    Ok(done.push(c))
                }
            },
        }
    }
}

proof fn lemma_normalized_prefix_changes_err_stays(changes: Seq<QuickArtistPrefixChange>, n: int)
    requires
        0 <= n <= changes.len(),
    ensures
        normalized_prefix_changes(changes.take(n)) is Err ==> normalized_prefix_changes(changes)
            == normalized_prefix_changes(changes.take(n)),
    decreases changes.len() - n,
{
    if n < changes.len() {
        lemma_normalized_prefix_changes_err_stays(changes, n + 1);
        assert(changes.take(n + 1).drop_last() =~= changes.take(n));
    } else {
        assert(changes.take(n) =~= changes);
    }
}

fn has_prefix_row(list: &Vec<QuickArtistPrefixChange>, row_id: i64) -> (r: bool)
    ensures
        r == exists|k: int| 0 <= k < list@.len() && (#[trigger] list@[k]).row_id == row_id,
{
    let mut i: usize = 0;
    while i < list.len()
        invariant
            i <= list.len(),
            forall|k: int| 0 <= k < i ==> (#[trigger] list@[k]).row_id != row_id,
        decreases list.len() - i,
    {
        if list[i].row_id == row_id {
            return true;
        }
        i = i + 1;
    }
    false
}

fn copy_prefix_change(c: &QuickArtistPrefixChange) -> (r: QuickArtistPrefixChange)
    ensures
        r == *c,
{
    QuickArtistPrefixChange {
        row_id: c.row_id,
        previous_positive_prompt: c.previous_positive_prompt.clone(),
        new_positive_prompt: c.new_positive_prompt.clone(),
        previous_character_prompt: c.previous_character_prompt.clone(),
        new_character_prompt: c.new_character_prompt.clone(),
        previous_negative_prompt: c.previous_negative_prompt.clone(),
        new_negative_prompt: c.new_negative_prompt.clone(),
        previous_artists: c.previous_artists.clone(),
        new_artists: c.new_artists.clone(),
    }
}

/// Checks and de-duplicates recorded artist-prefix changes (see
/// `normalized_prefix_changes`).
pub fn normalize_artist_prefix_changes(changes: &Vec<QuickArtistPrefixChange>) -> (r: Result<Vec<QuickArtistPrefixChange>, QuickEditError>)
    ensures
        match (r, normalized_prefix_changes(changes@)) {
            (Ok(v), Ok(w)) => v@ == w,
            (Err(e), Err(f)) => same_refusal(e, f),
            _ => false,
        },
{
    let mut out: Vec<QuickArtistPrefixChange> = Vec::new();
    let mut i: usize = 0;
    assert(changes@.take(0) =~= Seq::<QuickArtistPrefixChange>::empty());
    while i < changes.len()
        invariant
            i <= changes.len(),
            normalized_prefix_changes(changes@.take(i as int)) == Ok::<Seq<QuickArtistPrefixChange>, QuickEditError>(
                out@,
            ),
        decreases changes.len() - i,
    {
        let c = &changes[i];
        assert(changes@.take(i + 1).drop_last() =~= changes@.take(i as int));
        assert(changes@.take(i + 1).last() == changes@[i as int]);
        proof {
            lemma_normalized_prefix_changes_err_stays(changes@, i + 1);
        }
        if c.row_id <= 0 {
            return Err(QuickEditError::InvalidRowId(c.row_id));
        }
        if !has_prefix_row(&out, c.row_id) {
            out.push(copy_prefix_change(c));
        }
        i = i + 1;
    }
    assert(changes@.take(i as int) =~= changes@);
    Ok(out)
}

pub open spec fn differs(a: Option<String>, b: Option<String>) -> bool {
    opt_string_view(a) != opt_string_view(b)
}

pub(crate) fn differs_exec(a: &Option<String>, b: &Option<String>) -> (r: bool)
    ensures
        r == differs(*a, *b),
{
    match (a, b) {
        (Some(x), Some(y)) => !chars_eq(&chars_of(x.as_str()), &chars_of(y.as_str())),
        (None, None) => false,
        _ => true,
    }
}

/// How many prompt fields a recorded artist-prefix change rewrote.
pub fn changed_prompt_field_count(change: &QuickArtistPrefixChange) -> (r: u64)
    ensures
        r == (if differs(change.previous_positive_prompt, change.new_positive_prompt) { 1int } else { 0int })
            + (if differs(change.previous_character_prompt, change.new_character_prompt) { 1int } else { 0int })
            + (if differs(change.previous_negative_prompt, change.new_negative_prompt) { 1int } else { 0int }),
{
    let mut n: u64 = 0;
    if differs_exec(&change.previous_positive_prompt, &change.new_positive_prompt) {
        n = n + 1;
    }
    if differs_exec(&change.previous_character_prompt, &change.new_character_prompt) {
        n = n + 1;
    }
    if differs_exec(&change.previous_negative_prompt, &change.new_negative_prompt) {
        n = n + 1;
    }
    n
}

/// A row that a quick edit's condition matched, with its group.
#[derive(Debug, Clone, Copy, PartialEq, Eq)]
pub struct MatchedRow {
    pub id: i64,
    pub group_id: Option<i64>,
}

/// Whether a matched row takes part in a group edit.
pub open spec fn group_eligible(r: MatchedRow, only_ungrouped: bool) -> bool {
    !only_ungrouped || r.group_id is None
}

/// The change a group edit records for each eligible row not yet in the
/// target group, in order.
pub open spec fn group_changes(rows: Seq<MatchedRow>, group_id: i64, only_ungrouped: bool) -> Seq<QuickGroupChange>
    decreases rows.len(),
{
    if rows.len() == 0 {
        Seq::empty()
    } else {
        let rest = group_changes(rows.drop_last(), group_id, only_ungrouped);
        let r = rows.last();
        if group_eligible(r, only_ungrouped) && r.group_id != Some(group_id) {
            rest.push(QuickGroupChange { row_id: r.id, previous_group_id: r.group_id, target_group_id: group_id })
        } else {
            rest
        }
    }
}

/// The ids of the eligible rows, in order.
pub open spec fn eligible_ids(rows: Seq<MatchedRow>, only_ungrouped: bool) -> Seq<i64>
    decreases rows.len(),
{
    if rows.len() == 0 {
        Seq::empty()
    } else {
        let rest = eligible_ids(rows.drop_last(), only_ungrouped);
        if group_eligible(rows.last(), only_ungrouped) {
            rest.push(rows.last().id)
        } else {
            rest
        }
    }
}

/// How many rows already have a group.
pub open spec fn grouped_count(rows: Seq<MatchedRow>) -> nat
    decreases rows.len(),
{
    if rows.len() == 0 {
        0
    } else {
        grouped_count(rows.drop_last()) + if rows.last().group_id is Some { 1nat } else { 0nat }
    }
}

/// What a group edit plans for the matched rows.
#[derive(Debug, Clone, PartialEq, Eq)]
pub struct QuickGroupPlan {
    pub skipped_grouped_rows: u64,
    pub eligible_row_ids: Vec<i64>,
    pub changes: Vec<QuickGroupChange>,
}

proof fn lemma_group_plan_sizes(rows: Seq<MatchedRow>, group_id: i64, only_ungrouped: bool)
    ensures
        group_changes(rows, group_id, only_ungrouped).len() <= eligible_ids(rows, only_ungrouped).len(),
        eligible_ids(rows, only_ungrouped).len() <= rows.len(),
        grouped_count(rows) <= rows.len(),
    decreases rows.len(),
{
    if rows.len() > 0 {
        lemma_group_plan_sizes(rows.drop_last(), group_id, only_ungrouped);
    }
}

/// Plans moving the matched rows into a group: which rows take part (with
/// `only_ungrouped`, those without a group), how many are skipped for
/// having one, and the change recorded for each row that moves.
pub fn plan_quick_group(rows: &Vec<MatchedRow>, group_id: i64, only_ungrouped: bool) -> (r: QuickGroupPlan)
    ensures
        r.skipped_grouped_rows == (if only_ungrouped { grouped_count(rows@) } else { 0 }),
        r.eligible_row_ids@ == eligible_ids(rows@, only_ungrouped),
        r.changes@ == group_changes(rows@, group_id, only_ungrouped),
{
    let mut skipped: u64 = 0;
    let mut eligible: Vec<i64> = Vec::new();
    let mut changes: Vec<QuickGroupChange> = Vec::new();
    let mut i: usize = 0;
    assert(rows@.take(0) =~= Seq::<MatchedRow>::empty());
    while i < rows.len()
        invariant
            i <= rows.len(),
            skipped == grouped_count(rows@.take(i as int)),
            eligible@ == eligible_ids(rows@.take(i as int), only_ungrouped),
            changes@ == group_changes(rows@.take(i as int), group_id, only_ungrouped),
        decreases rows.len() - i,
    {
        let row = rows[i];
        assert(rows@.take(i + 1).drop_last() =~= rows@.take(i as int));
        assert(rows@.take(i + 1).last() == row);
        proof {
            lemma_group_plan_sizes(rows@.take(i as int), group_id, only_ungrouped);
        }
        if row.group_id.is_some() {
            skipped = skipped + 1;
        }
        if !only_ungrouped || row.group_id.is_none() {
            eligible.push(row.id);
            if row.group_id != Some(group_id) {
                changes.push(QuickGroupChange { row_id: row.id, previous_group_id: row.group_id, target_group_id: group_id });
            }
        }
        i = i + 1;
    }
    assert(rows@.take(i as int) =~= rows@);
    QuickGroupPlan { skipped_grouped_rows: if only_ungrouped { skipped } else { 0 }, eligible_row_ids: eligible, changes }
}

/// A group edit limited to ungrouped rows records no change of a row that
/// had a group, and every change it records moves its row to the target.
pub proof fn lemma_group_changes_respect_only_ungrouped(rows: Seq<MatchedRow>, group_id: i64, only_ungrouped: bool)
    ensures
        forall|k: int| 0 <= k < group_changes(rows, group_id, only_ungrouped).len() ==> {
            let c = #[trigger] group_changes(rows, group_id, only_ungrouped)[k];
            &&& c.target_group_id == group_id
            &&& c.previous_group_id != Some(group_id)
            &&& only_ungrouped ==> c.previous_group_id is None
        },
    decreases rows.len(),
{
    if rows.len() > 0 {
        lemma_group_changes_respect_only_ungrouped(rows.drop_last(), group_id, only_ungrouped);
    }
}

/// The tags of `tag_ids` that a row lacks.
pub open spec fn missing_tags(row_id: i64, tag_ids: Seq<i64>, existing: Set<(i64, i64)>) -> nat
    decreases tag_ids.len(),
{
    if tag_ids.len() == 0 {
        0
    } else {
        missing_tags(row_id, tag_ids.drop_last(), existing) + if existing.contains((row_id, tag_ids.last())) {
            0nat
        } else {
            1nat
        }
    }
}

/// How many of the rows lack some tag, and how many tags they lack in all.
pub open spec fn tag_needs(rows: Seq<i64>, tag_ids: Seq<i64>, existing: Set<(i64, i64)>) -> (nat, nat)
    decreases rows.len(),
{
    if rows.len() == 0 {
        (0, 0)
    } else {
        let (n, a) = tag_needs(rows.drop_last(), tag_ids, existing);
        let m = missing_tags(rows.last(), tag_ids, existing);
        if m > 0 {
            (n + 1, a + m)
        } else {
            (n, a)
        }
    }
}

proof fn lemma_missing_tags_bound(row_id: i64, tag_ids: Seq<i64>, existing: Set<(i64, i64)>)
    ensures
        missing_tags(row_id, tag_ids, existing) <= tag_ids.len(),
    decreases tag_ids.len(),
{
    if tag_ids.len() > 0 {
        lemma_missing_tags_bound(row_id, tag_ids.drop_last(), existing);
    }
}

proof fn lemma_tag_needs_bound(rows: Seq<i64>, tag_ids: Seq<i64>, existing: Set<(i64, i64)>)
    ensures
        tag_needs(rows, tag_ids, existing).0 <= rows.len(),
        tag_needs(rows, tag_ids, existing).1 <= rows.len() * tag_ids.len(),
    decreases rows.len(),
{
    if rows.len() > 0 {
        lemma_tag_needs_bound(rows.drop_last(), tag_ids, existing);
        lemma_missing_tags_bound(rows.last(), tag_ids, existing);
        assert((rows.len() - 1) * tag_ids.len() + tag_ids.len() == rows.len() * tag_ids.len()) by (nonlinear_arith);
    }
}

fn has_pair(existing: &Vec<(i64, i64)>, pair: (i64, i64)) -> (r: bool)
    ensures
        r == existing@.contains(pair),
{
    let mut i: usize = 0;
    while i < existing.len()
        invariant
            i <= existing.len(),
            forall|k: int| 0 <= k < i ==> existing@[k] != pair,
        decreases existing.len() - i,
    {
        if existing[i].0 == pair.0 && existing[i].1 == pair.1 {
            assert(existing@[i as int] == pair);
            return true;
        }
        i = i + 1;
    }
    false
}

/// Counts, for a tag edit, the matched rows that lack some of the tags and
/// the associations that would be added.
pub fn count_tag_needs(rows: &Vec<i64>, tag_ids: &Vec<i64>, existing: &Vec<(i64, i64)>) -> (r: (u64, u64))
    requires
        rows.len() * tag_ids.len() <= u64::MAX,
    ensures
        r.0 == tag_needs(rows@, tag_ids@, existing@.to_set()).0,
        r.1 == tag_needs(rows@, tag_ids@, existing@.to_set()).1,
{
    let ghost ex = existing@.to_set();
    let mut needing: u64 = 0;
    let mut adds: u64 = 0;
    let mut i: usize = 0;
    assert(rows@.take(0) =~= Seq::<i64>::empty());
    while i < rows.len()
        invariant
            i <= rows.len(),
            rows.len() * tag_ids.len() <= u64::MAX,
            ex == existing@.to_set(),
            needing == tag_needs(rows@.take(i as int), tag_ids@, ex).0,
            adds == tag_needs(rows@.take(i as int), tag_ids@, ex).1,
        decreases rows.len() - i,
    {
        let row = rows[i];
        let mut missing: u64 = 0;
        let mut j: usize = 0;
        assert(tag_ids@.take(0) =~= Seq::<i64>::empty());
        while j < tag_ids.len()
            invariant
                j <= tag_ids.len(),
                ex == existing@.to_set(),
                missing == missing_tags(row, tag_ids@.take(j as int), ex),
            decreases tag_ids.len() - j,
        {
            assert(tag_ids@.take(j + 1).drop_last() =~= tag_ids@.take(j as int));
            proof {
                lemma_missing_tags_bound(row, tag_ids@.take(j as int), ex);
            }
            if !has_pair(existing, (row, tag_ids[j])) {
                missing = missing + 1;
            }
            j = j + 1;
        }
        assert(tag_ids@.take(j as int) =~= tag_ids@);
        assert(rows@.take(i + 1).drop_last() =~= rows@.take(i as int));
        assert(rows@.take(i + 1).last() == row);
        proof {
            lemma_tag_needs_bound(rows@.take(i + 1), tag_ids@, ex);
            assert((i + 1) * tag_ids.len() <= rows.len() * tag_ids.len()) by (nonlinear_arith)
                requires
                    i + 1 <= rows.len(),
            ;
        }
        if missing > 0 {
            needing = needing + 1;
            adds = adds + missing;
        }
        i = i + 1;
    }
    assert(rows@.take(i as int) =~= rows@);
    (needing, adds)
}

/// The groups of the rows after recorded group changes are re-applied
/// (each row to its target) or reverted (each row to its previous group).
pub open spec fn with_group_changes(groups: Map<i64, Option<i64>>, changes: Seq<QuickGroupChange>, reapply: bool) -> Map<i64, Option<i64>>
    decreases changes.len(),
{
    if changes.len() == 0 {
        groups
    } else {
        let c = changes.last();
        with_group_changes(groups, changes.drop_last(), reapply).insert(
            c.row_id,
            if reapply {
                Some(c.target_group_id)
            } else {
                c.previous_group_id
            },
        )
    }
}

/// The matched rows as they stand in `groups`: each row's group is the one
/// `groups` records, and no row is listed twice.
pub open spec fn rows_agree(rows: Seq<MatchedRow>, groups: Map<i64, Option<i64>>) -> bool {
    &&& forall|i: int| 0 <= i < rows.len() ==> groups.dom().contains(#[trigger] rows[i].id) && groups[rows[i].id] == rows[i].group_id
    &&& forall|i: int, j: int| 0 <= i < j < rows.len() ==> (#[trigger] rows[i]).id != (#[trigger] rows[j]).id
}

proof fn lemma_group_changes_rows(rows: Seq<MatchedRow>, group_id: i64, only_ungrouped: bool)
    ensures
        forall|k: int| 0 <= k < group_changes(rows, group_id, only_ungrouped).len() ==> exists|i: int| 0 <= i < rows.len()
            && (#[trigger] group_changes(rows, group_id, only_ungrouped)[k]).row_id == rows[i].id
            && group_changes(rows, group_id, only_ungrouped)[k].previous_group_id == rows[i].group_id,
        forall|k: int, l: int| 0 <= k < l < group_changes(rows, group_id, only_ungrouped).len() ==> (exists|i: int, j: int|
            0 <= i < j < rows.len() && (#[trigger] group_changes(rows, group_id, only_ungrouped)[k]).row_id == rows[i].id
                && (#[trigger] group_changes(rows, group_id, only_ungrouped)[l]).row_id == rows[j].id),
    decreases rows.len(),
{
    if rows.len() > 0 {
        let d = rows.drop_last();
        lemma_group_changes_rows(d, group_id, only_ungrouped);
        let g = group_changes(rows, group_id, only_ungrouped);
        let gd = group_changes(d, group_id, only_ungrouped);
        assert forall|k: int| 0 <= k < g.len() implies exists|i: int| 0 <= i < rows.len() && (#[trigger] g[k]).row_id
            == rows[i].id && g[k].previous_group_id == rows[i].group_id by {
            if k < gd.len() {
                assert(g[k] == gd[k]);
                let i = choose|i: int| 0 <= i < d.len() && gd[k].row_id == d[i].id && gd[k].previous_group_id == d[i].group_id;
                assert(rows[i] == d[i]);
            } else {
                assert(rows[rows.len() - 1] == rows.last());
            }
        }
        assert forall|k: int, l: int| 0 <= k < l < g.len() implies (exists|i: int, j: int| 0 <= i < j < rows.len()
            && (#[trigger] g[k]).row_id == rows[i].id && (#[trigger] g[l]).row_id == rows[j].id) by {
            if l < gd.len() {
                assert(g[k] == gd[k] && g[l] == gd[l]);
                let (i, j) = choose|i: int, j: int| 0 <= i < j < d.len() && gd[k].row_id == d[i].id && gd[l].row_id == d[j].id;
                assert(rows[i] == d[i] && rows[j] == d[j]);
            } else {
                assert(g[k] == gd[k]);
                let i = choose|i: int| 0 <= i < d.len() && gd[k].row_id == d[i].id && gd[k].previous_group_id == d[i].group_id;
                assert(rows[i] == d[i]);
                assert(g[l].row_id == rows[rows.len() - 1].id);
            }
        }
    }
}

proof fn lemma_revert_restores(groups: Map<i64, Option<i64>>, changes: Seq<QuickGroupChange>)
    requires
        forall|k: int| 0 <= k < changes.len() ==> groups.dom().contains(#[trigger] changes[k].row_id) && groups[changes[k].row_id]
            == changes[k].previous_group_id,
        forall|k: int, l: int| 0 <= k < l < changes.len() ==> (#[trigger] changes[k]).row_id != (#[trigger] changes[l]).row_id,
    ensures
        with_group_changes(with_group_changes(groups, changes, true), changes, false) == groups,
    decreases changes.len(),
{
    if changes.len() > 0 {
        let d = changes.drop_last();
        let c = changes.last();
        lemma_revert_restores(groups, d);
        lemma_changes_skip_row(with_group_changes(groups, changes, true), d, c.row_id, false);
        lemma_changes_skip_row(groups, d, c.row_id, true);
        let applied = with_group_changes(groups, changes, true);
        let reverted = with_group_changes(applied, changes, false);
        assert(applied == with_group_changes(groups, d, true).insert(c.row_id, Some(c.target_group_id)));
        lemma_insert_then_changes(with_group_changes(groups, d, true), d, c.row_id, Some(c.target_group_id));
        assert(reverted =~= groups);
    }
}

proof fn lemma_changes_skip_row(groups: Map<i64, Option<i64>>, changes: Seq<QuickGroupChange>, row: i64, reapply: bool)
    requires
        forall|k: int| 0 <= k < changes.len() ==> (#[trigger] changes[k]).row_id != row,
    ensures
        with_group_changes(groups, changes, reapply).dom().contains(row) == groups.dom().contains(row),
        with_group_changes(groups, changes, reapply)[row] == groups[row],
    decreases changes.len(),
{
    if changes.len() > 0 {
        lemma_changes_skip_row(groups, changes.drop_last(), row, reapply);
    }
}

proof fn lemma_insert_then_changes(base: Map<i64, Option<i64>>, changes: Seq<QuickGroupChange>, row: i64, v: Option<i64>)
    requires
        forall|k: int| 0 <= k < changes.len() ==> (#[trigger] changes[k]).row_id != row,
    ensures
        with_group_changes(base.insert(row, v), changes, false) == with_group_changes(base, changes, false).insert(row, v),
    decreases changes.len(),
{
    if changes.len() > 0 {
        lemma_insert_then_changes(base, changes.drop_last(), row, v);
        let c = changes.last();
        assert(with_group_changes(base.insert(row, v), changes, false) =~= with_group_changes(base, changes, false).insert(
            row,
            v,
        ));
    }
}

/// Reverting the changes a group edit recorded restores every row's group:
/// re-applying them and then reverting them leaves the groups as they were.
pub proof fn lemma_group_edit_undo(rows: Seq<MatchedRow>, groups: Map<i64, Option<i64>>, group_id: i64, only_ungrouped: bool)
    requires
        rows_agree(rows, groups),
    ensures
        ({
            let changes = group_changes(rows, group_id, only_ungrouped);
            with_group_changes(with_group_changes(groups, changes, true), changes, false) == groups
        }),
{
    let changes = group_changes(rows, group_id, only_ungrouped);
    lemma_group_changes_rows(rows, group_id, only_ungrouped);
    assert forall|k: int| 0 <= k < changes.len() implies groups.dom().contains(#[trigger] changes[k].row_id)
        && groups[changes[k].row_id] == changes[k].previous_group_id by {
        let i = choose|i: int| 0 <= i < rows.len() && changes[k].row_id == rows[i].id && changes[k].previous_group_id == rows[i].group_id;
        assert(groups.dom().contains(rows[i].id));
    }
    assert forall|k: int, l: int| 0 <= k < l < changes.len() implies (#[trigger] changes[k]).row_id != (#[trigger] changes[l]).row_id by {
        let (i, j) = choose|i: int, j: int| 0 <= i < j < rows.len() && changes[k].row_id == rows[i].id && changes[l].row_id == rows[j].id;
        assert(rows[i].id != rows[j].id);
    }
    lemma_revert_restores(groups, changes);
}

/// The prompt fields of a row that an artist prefix reads.
#[derive(Debug, Clone, PartialEq, Eq)]
pub struct ArtistPromptRow {
    pub id: i64,
    pub positive_prompt: Option<String>,
    pub character_prompt: Option<String>,
    pub negative_prompt: Option<String>,
    pub artists: Option<String>,
}

/// Checks an artist name, given in its normalised form: it must not be
/// empty and must be a single name (no comma or line break).
pub fn validated_artist_name(normalized: &str) -> (r: Result<String, QuickEditError>)
    ensures
        normalized@.len() == 0 ==> (r matches Err(QuickEditError::EmptyArtistName)),
        normalized@.len() > 0 && has_line_separator(normalized@) ==> (r matches Err(QuickEditError::InvalidArtistName)),
        normalized@.len() > 0 && !has_line_separator(normalized@) ==> (r matches Ok(s) && s@ == normalized@),
{
    let v = chars_of(normalized);
    if v.len() == 0 {
        return Err(QuickEditError::EmptyArtistName);
    }
    if has_separator_chars(&v) {
        return Err(QuickEditError::InvalidArtistName);
    }
    Ok(normalized.to_owned())
}

/// The change an artist prefix records for a row, given the rewrite of each
/// prompt field (`None` where the field did not change) and the artist list
/// recomputed from the rewritten positive and character prompts: no change
/// when no field was rewritten; the artist list is replaced only when the
/// positive or character prompt was.
pub fn artist_prefix_change(
    row: &ArtistPromptRow,
    positive_rewrite: Option<String>,
    character_rewrite: Option<String>,
    negative_rewrite: Option<String>,
    refreshed_artists: Option<String>,
) -> (r: Option<QuickArtistPrefixChange>)
    ensures
        positive_rewrite is None && character_rewrite is None && negative_rewrite is None ==> r is None,
        !(positive_rewrite is None && character_rewrite is None && negative_rewrite is None) ==> (r matches Some(c) && {
            &&& c.row_id == row.id
            &&& c.previous_positive_prompt == row.positive_prompt
            &&& c.previous_character_prompt == row.character_prompt
            &&& c.previous_negative_prompt == row.negative_prompt
            &&& c.previous_artists == row.artists
            &&& c.new_positive_prompt == (if positive_rewrite is Some { positive_rewrite } else { row.positive_prompt })
            &&& c.new_character_prompt == (if character_rewrite is Some { character_rewrite } else { row.character_prompt })
            &&& c.new_negative_prompt == (if negative_rewrite is Some { negative_rewrite } else { row.negative_prompt })
            &&& c.new_artists == (if positive_rewrite is Some || character_rewrite is Some {
                refreshed_artists
            } else {
                row.artists
            })
        }),
{
    if positive_rewrite.is_none() && character_rewrite.is_none() && negative_rewrite.is_none() {
        return None;
    }
    let source_changed = positive_rewrite.is_some() || character_rewrite.is_some();
    let new_positive_prompt = match positive_rewrite {
        Some(p) => Some(p),
        None => row.positive_prompt.clone(),
    };
    let new_character_prompt = match character_rewrite {
        Some(p) => Some(p),
        None => row.character_prompt.clone(),
    };
    let new_negative_prompt = match negative_rewrite {
        Some(p) => Some(p),
        None => row.negative_prompt.clone(),
    };
    let new_artists = if source_changed {
        refreshed_artists
    } else {
        row.artists.clone()
    };
    Some(QuickArtistPrefixChange {
        row_id: row.id,
        previous_positive_prompt: row.positive_prompt.clone(),
        new_positive_prompt,
        previous_character_prompt: row.character_prompt.clone(),
        new_character_prompt,
        previous_negative_prompt: row.negative_prompt.clone(),
        new_negative_prompt,
        previous_artists: row.artists.clone(),
        new_artists,
    })
}

/// The (row, tag) pairs a tag edit tries, row by row and tag by tag.
pub open spec fn tag_pairs(rows: Seq<i64>, tags: Seq<Seq<char>>) -> Seq<(i64, Seq<char>)>
    decreases rows.len(),
{
    if rows.len() == 0 {
        Seq::empty()
    } else {
        tag_pairs(rows.drop_last(), tags) + tags.map_values(|t: Seq<char>| (rows.last(), t))
    }
}

/// The associations a tag edit adds, in the order it tries them: each pair
/// of `pairs` that neither `existing` nor an earlier pair of the edit
/// already holds.
pub open spec fn added_pairs(pairs: Seq<(i64, Seq<char>)>, existing: Set<(i64, Seq<char>)>) -> Seq<(i64, Seq<char>)>
    decreases pairs.len(),
{
    if pairs.len() == 0 {
        Seq::empty()
    } else {
        let r = added_pairs(pairs.drop_last(), existing);
        let x = pairs.last();
        if existing.contains(x) || r.contains(x) {
            r
        } else {
            r.push(x)
        }
    }
}

/// The associations a tag edit records: for each matched row in order and
/// each tag in order, the pair the row lacks (in `existing`, the library's
/// row and tag-name pairs) and the edit has not added yet.
pub fn plan_quick_tag(rows: &Vec<i64>, tags: &Vec<String>, existing: &Vec<QuickTagAssociation>) -> (r: Vec<
    QuickTagAssociation,
>)
    ensures
        association_views(r@) == added_pairs(
            tag_pairs(rows@, string_views(tags@)),
            association_views(existing@).to_set(),
        ),
{
    let ghost ex = association_views(existing@).to_set();
    let ghost tv = string_views(tags@);
    let mut out: Vec<QuickTagAssociation> = Vec::new();
    let mut i: usize = 0;
    while i < rows.len()
        invariant
            i <= rows.len(),
            ex == association_views(existing@).to_set(),
            tv == string_views(tags@),
            association_views(out@) == added_pairs(tag_pairs(rows@.take(i as int), tv), ex),
        decreases rows.len() - i,
    {
        let row = rows[i];
        let ghost base = tag_pairs(rows@.take(i as int), tv);
        assert(rows@.take(i + 1).drop_last() =~= rows@.take(i as int));
        assert(rows@.take(i + 1).last() == row);
        let mut j: usize = 0;
        while j < tags.len()
            invariant
                i < rows.len(),
                j <= tags.len(),
                row == rows@[i as int],
                ex == association_views(existing@).to_set(),
                tv == string_views(tags@),
                base == tag_pairs(rows@.take(i as int), tv),
                association_views(out@) == added_pairs(
                    base + tv.take(j as int).map_values(|t: Seq<char>| (row, t)),
                    ex,
                ),
            decreases tags.len() - j,
        {
            let tag = chars_of(tags[j].as_str());
            let ghost x = (row, tag@);
            let ghost prefix = base + tv.take(j as int).map_values(|t: Seq<char>| (row, t));
            let ghost next = base + tv.take(j + 1).map_values(|t: Seq<char>| (row, t));
            assert(tv[j as int] == tag@);
            assert(next =~= prefix.push(x));
            assert(next.drop_last() =~= prefix);
            let ghost before = association_views(out@);
            let in_existing = contains_association(existing, row, &tag);
            let in_out = contains_association(&out, row, &tag);
            if !in_existing && !in_out {
                out.push(QuickTagAssociation { row_id: row, tag: tags[j].clone() });
                assert(association_views(out@) =~= before.push(x));
            }
            j = j + 1;
        }
        assert(tv.take(tags.len() as int) =~= tv);
        assert(tag_pairs(rows@.take(i + 1), tv) =~= base + tv.map_values(|t: Seq<char>| (row, t)));
        i = i + 1;
    }
    assert(rows@.take(rows.len() as int) =~= rows@);
    out
}

proof fn lemma_added_pairs_facts(pairs: Seq<(i64, Seq<char>)>, existing: Set<(i64, Seq<char>)>)
    ensures
        forall|x: (i64, Seq<char>)| #[trigger] added_pairs(pairs, existing).contains(x) ==> !existing.contains(x),
        forall|x: (i64, Seq<char>)| (existing.contains(x) || #[trigger] added_pairs(pairs, existing).contains(x)) <==> (
        existing.contains(x) || pairs.contains(x)),
    decreases pairs.len(),
{
    if pairs.len() > 0 {
        let d = pairs.drop_last();
        let y = pairs.last();
        lemma_added_pairs_facts(d, existing);
        let r = added_pairs(d, existing);
        assert(pairs =~= d.push(y));
        assert forall|x: (i64, Seq<char>)| #[trigger] added_pairs(pairs, existing).contains(x) implies !existing.contains(
            x,
        ) by {
            if existing.contains(y) || r.contains(y) {
                assert(added_pairs(pairs, existing) == r);
                assert(r.contains(x));
            } else {
                assert(added_pairs(pairs, existing) == r.push(y));
                if x != y {
                    let i = choose|i: int| 0 <= i < r.push(y).len() && r.push(y)[i] == x;
                    assert(r[i] == x);
                    assert(r.contains(x));
                }
            }
        }
        assert forall|x: (i64, Seq<char>)| (existing.contains(x) || #[trigger] added_pairs(pairs, existing).contains(x))
            <==> (existing.contains(x) || pairs.contains(x)) by {
            assert(d.push(y).contains(x) <==> (d.contains(x) || x == y)) by {
                if d.push(y).contains(x) && x != y {
                    let i = choose|i: int| 0 <= i < d.push(y).len() && d.push(y)[i] == x;
                    assert(d[i] == x);
                }
                if d.contains(x) {
                    let i = choose|i: int| 0 <= i < d.len() && d[i] == x;
                    assert(d.push(y)[i] == x);
                }
                if x == y {
                    assert(d.push(y)[d.len() as int] == x);
                }
            }
            assert(r.push(y).contains(x) <==> (r.contains(x) || x == y)) by {
                if r.push(y).contains(x) && x != y {
                    let i = choose|i: int| 0 <= i < r.push(y).len() && r.push(y)[i] == x;
                    assert(r[i] == x);
                }
                if r.contains(x) {
                    let i = choose|i: int| 0 <= i < r.len() && r[i] == x;
                    assert(r.push(y)[i] == x);
                }
                if x == y {
                    assert(r.push(y)[r.len() as int] == x);
                }
            }
        }
    }
}

/// Undoing and redoing a tag edit: taking off the associations the edit
/// recorded gives back exactly the associations the library had (tags a
/// row had before the edit stay), putting them on again gives back the
/// edited state, and the edited state gives every matched row every tag.
pub proof fn lemma_tag_edit_undo(rows: Seq<i64>, tags: Seq<Seq<char>>, existing: Set<(i64, Seq<char>)>)
    ensures
        ({
            let added = added_pairs(tag_pairs(rows, tags), existing).to_set();
            let edited = existing + added;
            &&& edited - added == existing
            &&& (edited - added) + added == edited
            &&& edited == existing + tag_pairs(rows, tags).to_set()
        }),
{
    let pairs = tag_pairs(rows, tags);
    let added_seq = added_pairs(pairs, existing);
    let added = added_seq.to_set();
    lemma_added_pairs_facts(pairs, existing);
    let edited = existing + added;
    assert forall|x: (i64, Seq<char>)| added.contains(x) <==> added_seq.contains(x) by {}
    assert((edited - added) =~= existing);
    assert(((edited - added) + added) =~= edited);
    assert(edited =~= existing + pairs.to_set());
}

/// The group a recorded change gives its row: the target when the change is
/// re-applied, the previous group when it is reverted.
pub open spec fn change_write(c: QuickGroupChange, reapply: bool) -> (i64, Option<i64>) {
    (c.row_id, if reapply { Some(c.target_group_id) } else { c.previous_group_id })
}

/// The rows' groups after writing `writes` in order.
pub open spec fn with_group_writes(groups: Map<i64, Option<i64>>, writes: Seq<(i64, Option<i64>)>) -> Map<i64, Option<i64>>
    decreases writes.len(),
{
    if writes.len() == 0 {
        groups
    } else {
        with_group_writes(groups, writes.drop_last()).insert(writes.last().0, writes.last().1)
    }
}

proof fn lemma_writes_follow_changes(groups: Map<i64, Option<i64>>, changes: Seq<QuickGroupChange>, reapply: bool)
    ensures
        with_group_writes(groups, changes.map_values(|c: QuickGroupChange| change_write(c, reapply)))
            == with_group_changes(groups, changes, reapply),
    decreases changes.len(),
{
    if changes.len() > 0 {
        let w = changes.map_values(|c: QuickGroupChange| change_write(c, reapply));
        assert(w.drop_last() =~= changes.drop_last().map_values(|c: QuickGroupChange| change_write(c, reapply)));
        lemma_writes_follow_changes(groups, changes.drop_last(), reapply);
    }
}

/// The writes that revert (`reapply` false) or re-apply recorded group
/// changes: for each change in order, its row and the group it gets. Writing
/// them in order gives the groups `with_group_changes` describes.
pub fn group_change_writes(changes: &Vec<QuickGroupChange>, reapply: bool) -> (r: Vec<(i64, Option<i64>)>)
    ensures
        r@ == changes@.map_values(|c: QuickGroupChange| change_write(c, reapply)),
        forall|groups: Map<i64, Option<i64>>| #[trigger] with_group_writes(groups, r@) == with_group_changes(
            groups,
            changes@,
            reapply,
        ),
{
    let mut out: Vec<(i64, Option<i64>)> = Vec::new();
    let mut i: usize = 0;
    while i < changes.len()
        invariant
            i <= changes.len(),
            out@ == changes@.take(i as int).map_values(|c: QuickGroupChange| change_write(c, reapply)),
        decreases changes.len() - i,
    {
        let c = &changes[i];
        let group = if reapply {
            Some(c.target_group_id)
        } else {
            c.previous_group_id
        };
        out.push((c.row_id, group));
        i = i + 1;
        assert(out@ =~= changes@.take(i as int).map_values(|c: QuickGroupChange| change_write(c, reapply)));
    }
    assert(changes@.take(i as int) =~= changes@);
    assert forall|groups: Map<i64, Option<i64>>| #[trigger] with_group_writes(groups, out@) == with_group_changes(
        groups,
        changes@,
        reapply,
    ) by {
        lemma_writes_follow_changes(groups, changes@, reapply);
    }
    out
}

/// Reverting the group changes a quick group edit recorded and then
/// re-applying them: the writes of the revert put every row back in its
/// previous group, and the writes of the re-apply that follows give the
/// edited groups again.
pub proof fn lemma_group_writes_revert_then_reapply(
    rows: Seq<MatchedRow>,
    groups: Map<i64, Option<i64>>,
    group_id: i64,
    only_ungrouped: bool,
)
    requires
        rows_agree(rows, groups),
    ensures
        ({
            let changes = group_changes(rows, group_id, only_ungrouped);
            let edited = with_group_changes(groups, changes, true);
            let revert = changes.map_values(|c: QuickGroupChange| change_write(c, false));
            let reapply = changes.map_values(|c: QuickGroupChange| change_write(c, true));
            &&& with_group_writes(edited, revert) == groups
            &&& with_group_writes(with_group_writes(edited, revert), reapply) == edited
        }),
{
    let changes = group_changes(rows, group_id, only_ungrouped);
    let edited = with_group_changes(groups, changes, true);
    lemma_group_edit_undo(rows, groups, group_id, only_ungrouped);
    lemma_writes_follow_changes(edited, changes, false);
    lemma_writes_follow_changes(groups, changes, true);
}

} // verus!
