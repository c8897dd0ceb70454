//! How the conditions of an automation rule read a row. Conditions that
//! compare numbers are decided by the caller; their verdicts join the others
//! in `condition_set_matches`.
use vstd::prelude::*;

use crate::prompt_tokens::{artist_key, artist_key_chars, artist_key_list, artist_keys, normalized_strings, rule_token_list, rule_tokens};
use crate::rules::{
    blank, list_entries, ArtistOperator, AutomationRuleError, FileTextField, GenerationTextField, GroupOperator,
    ImageOrientation, NoteOperator, PromptOperator, PromptScope, RuleMatchMode, RuleSourceType, TagOperator,
    TextOperator,
};
use crate::text::{
    chars_eq, chars_of, contains_chars, contains_text, contains_text_chars, eq_ignore_ascii_case,
    eq_ignore_ascii_case_chars, join, join_chars, lowercase, lowercase_chars, string_chars, string_views, trim_chars, views,
};

verus! {

/// The parts of a library row that rules read and change. `file_name` is
/// the last component of `image_path` as the platform's path rules read it,
/// empty when there is none.
#[derive(Debug, Clone)]
pub struct RuleRow {
    pub id: i64,
    pub positive_prompt: Option<String>,
    pub character_prompt: Option<String>,
    pub negative_prompt: Option<String>,
    pub artists: Option<String>,
    pub note: Option<String>,
    pub group_id: Option<i64>,
    pub tags: Vec<String>,
    pub image_path: Option<String>,
    pub file_name: String,
    pub metadata_failed: bool,
    pub vibe_count: u32,
    pub image_width: Option<u32>,
    pub image_height: Option<u32>,
    pub generation_model: Option<String>,
    pub generation_sampler: Option<String>,
    pub generation_seed: Option<String>,
    pub generation_noise_schedule: Option<String>,
    pub source_type: String,
    pub source_path: String,
}

/// A rule condition that does not compare numbers.
#[derive(Debug, Clone)]
pub enum RowCondition {
    Prompt { scope: PromptScope, operator: PromptOperator, value: String, case_sensitive: bool },
    Tag { operator: TagOperator, tags: Vec<String> },
    Group { operator: GroupOperator, group_id: Option<i64> },
    Artist { operator: ArtistOperator, artists: Vec<String> },
    Note { operator: NoteOperator, value: String, case_sensitive: bool },
    FileText { field: FileTextField, operator: TextOperator, value: String, case_sensitive: bool },
    SourceType { source_type: RuleSourceType, negate: bool },
    VibePresence { present: bool },
    Metadata { parsed: bool },
    Orientation { orientation: ImageOrientation, negate: bool },
    GenerationText { field: GenerationTextField, operator: TextOperator, value: String, case_sensitive: bool },
}

/// The characters of an optional text, empty when absent.
pub open spec fn opt_text(o: Option<String>) -> Seq<char> {
    match o {
        Some(s) => s@,
        None => Seq::empty(),
    }
}

/// The prompt fields a scope reads, in order.
pub open spec fn scope_fields(row: RuleRow, scope: PromptScope) -> Seq<Option<String>> {
    match scope {
        PromptScope::Positive => seq![row.positive_prompt],
        PromptScope::Character => seq![row.character_prompt],
        PromptScope::Negative => seq![row.negative_prompt],
        PromptScope::PositiveAndCharacter => seq![row.positive_prompt, row.character_prompt],
        PromptScope::All => seq![row.positive_prompt, row.character_prompt, row.negative_prompt],
    }
}

/// The present, non-empty texts among `fields`, in order.
pub open spec fn present_texts(fields: Seq<Option<String>>) -> Seq<Seq<char>>
    decreases fields.len(),
{
    if fields.len() == 0 {
        Seq::empty()
    } else {
        let rest = present_texts(fields.drop_last());
        match fields.last() {
            Some(s) => if s@.len() > 0 {
                rest.push(s@)
            } else {
                rest
            },
            None => rest,
        }
    }
}

/// The text a prompt condition reads: the scope's non-empty fields joined
/// by line feeds.
pub open spec fn scope_text(row: RuleRow, scope: PromptScope) -> Seq<char> {
    join(present_texts(scope_fields(row, scope)), seq!['\n'])
}

/// What compiling `pattern` with the `regex` crate (`RegexBuilder`, with
/// the case-insensitive flag as given) and matching it against `text`
/// gives: `None` when the pattern does not compile.
pub uninterp spec fn regex_match(pattern: Seq<char>, case_insensitive: bool, text: Seq<char>) -> Option<bool>;

/// The message of the error that compiling `pattern` with the `regex` crate
/// gives, `None` when it compiles.
pub uninterp spec fn regex_build_error(pattern: Seq<char>, case_insensitive: bool) -> Option<Seq<char>>;

/// Compiles `pattern` with `regex::RegexBuilder` and, when that succeeds,
/// calls `Regex::is_match` on `text`. The result is named `regex_match`; it
/// is `None` exactly when compiling fails, which `regex_build_error` names.
#[verifier::external_body]
fn regex_is_match(pattern: &str, case_insensitive: bool, text: &str) -> (r: Option<bool>)
    ensures
        r == regex_match(pattern@, case_insensitive, text@),
        r is None <==> regex_build_error(pattern@, case_insensitive) is Some,
{
    match regex::RegexBuilder::new(pattern).case_insensitive(case_insensitive).build() {
        Ok(re) => Some(re.is_match(text)),
        Err(_) => None,
    }
}

/// Compiles `pattern` with `regex::RegexBuilder` and gives the error's
/// message (its `Display` text) when that fails; named by
/// `regex_build_error`.
#[verifier::external_body]
fn regex_compile_error(pattern: &str, case_insensitive: bool) -> (r: Option<String>)
    ensures
        match r {
            Some(m) => regex_build_error(pattern@, case_insensitive) == Some(m@),
            None => regex_build_error(pattern@, case_insensitive) is None,
        },
{
    match regex::RegexBuilder::new(pattern).case_insensitive(case_insensitive).build() {
        Ok(_) => None,
        Err(e) => Some(e.to_string()),
    }
}

/// How a text condition compares `text` with what the rule expects.
pub open spec fn text_matches(text: Seq<char>, expected: Seq<char>, operator: TextOperator, case_sensitive: bool) -> bool {
    match operator {
        TextOperator::Contains => if case_sensitive {
            contains_text(text, expected)
        } else {
            contains_text(lowercase(text), lowercase(expected))
        },
        TextOperator::Equals => if case_sensitive {
            text == expected
        } else {
            eq_ignore_ascii_case(text, expected) || lowercase(text) == lowercase(expected)
        },
        TextOperator::Regex => regex_match(expected, !case_sensitive, text) == Some(true),
    }
}

/// The text of the file field a file condition reads.
pub open spec fn file_text(row: RuleRow, field: FileTextField) -> Seq<char> {
    match field {
        FileTextField::FileName => row.file_name@,
        FileTextField::OriginalPath => opt_text(row.image_path),
        FileTextField::ImportSource => row.source_path@,
    }
}

/// The generation field a generation text condition reads.
pub open spec fn generation_text(row: RuleRow, field: GenerationTextField) -> Option<String> {
    match field {
        GenerationTextField::Model => row.generation_model,
        GenerationTextField::Sampler => row.generation_sampler,
        GenerationTextField::NoiseSchedule => row.generation_noise_schedule,
        GenerationTextField::Seed => row.generation_seed,
    }
}

/// The stored name of a source type.
pub open spec fn source_type_text(t: RuleSourceType) -> Seq<char> {
    match t {
        RuleSourceType::Folder => "folder"@,
        RuleSourceType::Archive => "archive"@,
    }
}

/// Whether an image of this size has the orientation.
pub open spec fn has_orientation(o: ImageOrientation, width: u32, height: u32) -> bool {
    match o {
        ImageOrientation::Landscape => width > height,
        ImageOrientation::Portrait => height > width,
        ImageOrientation::Square => width == height,
    }
}

/// Whether every token of `wanted` is among `have`.
pub open spec fn all_in(wanted: Seq<Seq<char>>, have: Seq<Seq<char>>) -> bool {
    forall|i: int| 0 <= i < wanted.len() ==> have.contains(#[trigger] wanted[i])
}

/// Whether some token of `wanted` is among `have`.
pub open spec fn any_in(wanted: Seq<Seq<char>>, have: Seq<Seq<char>>) -> bool {
    exists|i: int| 0 <= i < wanted.len() && have.contains(#[trigger] wanted[i])
}

/// The artist keys of the entries of an artist list input.
pub open spec fn expected_artists(artists: Seq<String>) -> Seq<Seq<char>> {
    list_entries(artists).map_values(|a: Seq<char>| artist_key(a))
}

/// Whether a condition holds of a row.
pub open spec fn condition_holds(c: RowCondition, row: RuleRow) -> bool {
    match c {
        RowCondition::Prompt { scope, operator, value, case_sensitive } => {
            let text = scope_text(row, scope);
            match operator {
                PromptOperator::ContainsAll => all_in(rule_tokens(value@), rule_tokens(text)),
                PromptOperator::ContainsAny => any_in(rule_tokens(value@), rule_tokens(text)),
                PromptOperator::ContainsNone => !any_in(rule_tokens(value@), rule_tokens(text)),
                PromptOperator::TextContains => text_matches(text, value@, TextOperator::Contains, case_sensitive),
                PromptOperator::TextEquals => text_matches(text, value@, TextOperator::Equals, case_sensitive),
                PromptOperator::Regex => text_matches(text, value@, TextOperator::Regex, case_sensitive),
            }
        },
        RowCondition::Tag { operator, tags } => {
            let have = string_views(row.tags@);
            match operator {
                TagOperator::HasAll => all_in(list_entries(tags@), have),
                TagOperator::HasAny => any_in(list_entries(tags@), have),
                TagOperator::HasNone => !any_in(list_entries(tags@), have),
                TagOperator::IsEmpty => row.tags@.len() == 0,
            }
        },
        RowCondition::Group { operator, group_id } => match operator {
            GroupOperator::Is => row.group_id == group_id,
            GroupOperator::IsNot => row.group_id != group_id,
            GroupOperator::IsEmpty => row.group_id is None,
        },
        RowCondition::Artist { operator, artists } => {
            let available = artist_keys(opt_text(row.artists));
            match operator {
                ArtistOperator::ContainsAny => any_in(expected_artists(artists@), available),
                ArtistOperator::ContainsNone => !any_in(expected_artists(artists@), available),
                ArtistOperator::IsSingle => available.len() == 1,
                ArtistOperator::IsMultiple => available.len() > 1,
                ArtistOperator::IsEmpty => available.len() == 0,
            }
        },
        RowCondition::Note { operator, value, case_sensitive } => match operator {
            NoteOperator::Contains => text_matches(opt_text(row.note), value@, TextOperator::Contains, case_sensitive),
            NoteOperator::IsEmpty => blank(opt_text(row.note)),
        },
        RowCondition::FileText { field, operator, value, case_sensitive } => text_matches(
            file_text(row, field),
            value@,
            operator,
            case_sensitive,
        ),
        RowCondition::SourceType { source_type, negate } => (row.source_type@ == source_type_text(source_type)) != negate,
        RowCondition::VibePresence { present } => (row.vibe_count > 0) == present,
        RowCondition::Metadata { parsed } => row.metadata_failed != parsed,
        RowCondition::Orientation { orientation, negate } => match (row.image_width, row.image_height) {
            (Some(w), Some(h)) => has_orientation(orientation, w, h) != negate,
            _ => false,
        },
        RowCondition::GenerationText { field, operator, value, case_sensitive } => match generation_text(row, field) {
            Some(t) => text_matches(t@, value@, operator, case_sensitive),
            None => false,
        },
    }
}

fn text_of(s: &Vec<char>) -> (r: String)
    ensures
        r@ == s@,
{
    crate::text::string_of(s)
}

/// Compares `text` with `expected` as a text condition does.
pub fn text_compare(text: &str, expected: &str, operator: TextOperator, case_sensitive: bool) -> (r: bool)
    ensures
        r == text_matches(text@, expected@, operator, case_sensitive),
{
    match operator {
        TextOperator::Contains => {
            let t = chars_of(text);
            let e = chars_of(expected);
            if case_sensitive {
                contains_text_chars(&t, &e)
            } else {
                let lt = lowercase_chars(&t);
                let le = lowercase_chars(&e);
                contains_text_chars(&lt, &le)
            }
        },
        TextOperator::Equals => {
            let t = chars_of(text);
            let e = chars_of(expected);
            if case_sensitive {
                chars_eq(&t, &e)
            } else if eq_ignore_ascii_case_chars(&t, &e) {
                true
            } else {
                let lt = lowercase_chars(&t);
                let le = lowercase_chars(&e);
                chars_eq(&lt, &le)
            }
        },
        TextOperator::Regex => {
            match regex_is_match(expected, !case_sensitive, text) {
                Some(b) => b,
                None => false,
            }
        },
    }
}

fn opt_chars_of(o: &Option<String>) -> (r: Vec<char>)
    ensures
        r@ == opt_text(*o),
{
    match o {
        Some(s) => chars_of(s.as_str()),
        None => Vec::new(),
    }
}

fn push_present(out: &mut Vec<Vec<char>>, o: &Option<String>)
    ensures
        views(final(out)@) == (match *o {
            Some(s) => if s@.len() > 0 {
                views(old(out)@).push(s@)
            } else {
                views(old(out)@)
            },
            None => views(old(out)@),
        }),
{
    if let Some(s) = o {
        let v = chars_of(s.as_str());
        if v.len() > 0 {
            let ghost before = views(out@);
            out.push(v);
            assert(views(out@) =~= before.push(s@));
        }
    }
}

/// The text a prompt condition reads (see `scope_text`).
pub fn prompt_scope_text(row: &RuleRow, scope: PromptScope) -> (r: Vec<char>)
    ensures
        r@ == scope_text(*row, scope),
{
    let mut parts: Vec<Vec<char>> = Vec::new();
    let ghost f = scope_fields(*row, scope);
    match scope {
        PromptScope::Positive => {
            push_present(&mut parts, &row.positive_prompt);
            assert(f.drop_last() =~= Seq::<Option<String>>::empty());
        },
        PromptScope::Character => {
            push_present(&mut parts, &row.character_prompt);
            assert(f.drop_last() =~= Seq::<Option<String>>::empty());
        },
        PromptScope::Negative => {
            push_present(&mut parts, &row.negative_prompt);
            assert(f.drop_last() =~= Seq::<Option<String>>::empty());
        },
        PromptScope::PositiveAndCharacter => {
            push_present(&mut parts, &row.positive_prompt);
            push_present(&mut parts, &row.character_prompt);
            assert(f.drop_last().drop_last() =~= Seq::<Option<String>>::empty());
            assert(f.drop_last() =~= seq![row.positive_prompt]);
        },
        PromptScope::All => {
            push_present(&mut parts, &row.positive_prompt);
            push_present(&mut parts, &row.character_prompt);
            push_present(&mut parts, &row.negative_prompt);
            assert(f.drop_last().drop_last().drop_last() =~= Seq::<Option<String>>::empty());
            assert(f.drop_last().drop_last() =~= seq![row.positive_prompt]);
            assert(f.drop_last() =~= seq![row.positive_prompt, row.character_prompt]);
        },
    }
    assert(views(parts@) == present_texts(f)) by {
        reveal_with_fuel(present_texts, 4);
    }
    let mut sep: Vec<char> = Vec::new();
    sep.push('\n');
    assert(sep@ =~= seq!['\n']);
    join_chars(&parts, &sep)
}

/// Whether every (or, with `any`, some) token of `wanted` is in `have`.
fn tokens_in(wanted: &Vec<Vec<char>>, have: &Vec<Vec<char>>, any: bool) -> (r: bool)
    ensures
        any ==> r == any_in(views(wanted@), views(have@)),
        !any ==> r == all_in(views(wanted@), views(have@)),
{
    let mut i: usize = 0;
    while i < wanted.len()
        invariant
            i <= wanted.len(),
            any ==> forall|k: int| 0 <= k < i ==> !views(have@).contains(#[trigger] views(wanted@)[k]),
            !any ==> forall|k: int| 0 <= k < i ==> views(have@).contains(#[trigger] views(wanted@)[k]),
        decreases wanted.len() - i,
    {
        let found = contains_chars(have, &wanted[i]);
        assert(views(wanted@)[i as int] == wanted@[i as int]@);
        if any && found {
            return true;
        }
        if !any && !found {
            return false;
        }
        i = i + 1;
    }
    !any
}

fn entry_chars(values: &Vec<String>) -> (r: Vec<Vec<char>>)
    ensures
        views(r@) == list_entries(values@),
{
    let n = normalized_strings(values);
    proof {
        assert(string_views(values@) == values@.map_values(|s: String| s@));
    }
    let r = string_chars(&n);
    assert(string_views(n@) == n@.map_values(|s: String| s@));
    r
}

fn artist_key_all(v: &Vec<Vec<char>>) -> (r: Vec<Vec<char>>)
    ensures
        views(r@) == views(v@).map_values(|a: Seq<char>| artist_key(a)),
{
    let mut out: Vec<Vec<char>> = Vec::new();
    let mut i: usize = 0;
    while i < v.len()
        invariant
            i <= v.len(),
            views(out@) == views(v@).map_values(|a: Seq<char>| artist_key(a)).take(i as int),
        decreases v.len() - i,
    {
        let ghost before = views(out@);
        let k = artist_key_chars(&v[i]);
        out.push(k);
        assert(views(out@) =~= before.push(artist_key(v@[i as int]@)));
        i = i + 1;
        assert(views(v@).map_values(|a: Seq<char>| artist_key(a)).take(i as int) =~= views(v@).map_values(
            |a: Seq<char>| artist_key(a),
        ).take(i - 1).push(artist_key(v@[i - 1]@)));
    }
    assert(views(v@).map_values(|a: Seq<char>| artist_key(a)).take(i as int) =~= views(v@).map_values(
        |a: Seq<char>| artist_key(a),
    ));
    out
}

fn generation_field(row: &RuleRow, field: GenerationTextField) -> (r: &Option<String>)
    ensures
        *r == generation_text(*row, field),
{
    match field {
        GenerationTextField::Model => &row.generation_model,
        GenerationTextField::Sampler => &row.generation_sampler,
        GenerationTextField::NoiseSchedule => &row.generation_noise_schedule,
        GenerationTextField::Seed => &row.generation_seed,
    }
}

impl RowCondition {
    /// Whether the condition holds of `row` (see `condition_holds`).
    pub fn matches(&self, row: &RuleRow) -> (r: bool)
        ensures
            r == condition_holds(*self, *row),
    {
        match self {
            RowCondition::Prompt { scope, operator, value, case_sensitive } => {
                let text = prompt_scope_text(row, *scope);
                match operator {
                    PromptOperator::ContainsAll | PromptOperator::ContainsAny | PromptOperator::ContainsNone => {
                        let wanted = rule_token_list(&chars_of(value.as_str()));
                        let have = rule_token_list(&text);
                        match operator {
                            PromptOperator::ContainsAll => tokens_in(&wanted, &have, false),
                            PromptOperator::ContainsAny => tokens_in(&wanted, &have, true),
                            _ => !tokens_in(&wanted, &have, true),
                        }
                    },
                    PromptOperator::TextContains => text_compare(
                        text_of(&text).as_str(),
                        value.as_str(),
                        TextOperator::Contains,
                        *case_sensitive,
                    ),
                    PromptOperator::TextEquals => text_compare(
                        text_of(&text).as_str(),
                        value.as_str(),
                        TextOperator::Equals,
                        *case_sensitive,
                    ),
                    PromptOperator::Regex => text_compare(
                        text_of(&text).as_str(),
                        value.as_str(),
                        TextOperator::Regex,
                        *case_sensitive,
                    ),
                }
            },
            RowCondition::Tag { operator, tags } => {
                let wanted = entry_chars(tags);
                let have = string_chars(&row.tags);
                match operator {
                    TagOperator::HasAll => tokens_in(&wanted, &have, false),
                    TagOperator::HasAny => tokens_in(&wanted, &have, true),
                    TagOperator::HasNone => !tokens_in(&wanted, &have, true),
                    TagOperator::IsEmpty => row.tags.len() == 0,
                }
            },
            RowCondition::Group { operator, group_id } => match operator {
                GroupOperator::Is => row.group_id == *group_id,
                GroupOperator::IsNot => row.group_id != *group_id,
                GroupOperator::IsEmpty => row.group_id.is_none(),
            },
            RowCondition::Artist { operator, artists } => {
                let available = artist_key_list(&opt_chars_of(&row.artists));
                match operator {
                    ArtistOperator::ContainsAny | ArtistOperator::ContainsNone => {
                        let wanted = artist_key_all(&entry_chars(artists));
                        let found = tokens_in(&wanted, &available, true);
                        match operator {
                            ArtistOperator::ContainsAny => found,
                            _ => !found,
                        }
                    },
                    ArtistOperator::IsSingle => available.len() == 1,
                    ArtistOperator::IsMultiple => available.len() > 1,
                    ArtistOperator::IsEmpty => available.len() == 0,
                }
            },
            RowCondition::Note { operator, value, case_sensitive } => {
                let note = opt_chars_of(&row.note);
                match operator {
                    NoteOperator::Contains => text_compare(
                        text_of(&note).as_str(),
                        value.as_str(),
                        TextOperator::Contains,
                        *case_sensitive,
                    ),
                    NoteOperator::IsEmpty => trim_chars(&note).len() == 0,
                }
            },
            RowCondition::FileText { field, operator, value, case_sensitive } => {
                let text = match field {
                    FileTextField::FileName => row.file_name.clone(),
                    FileTextField::OriginalPath => text_of(&opt_chars_of(&row.image_path)),
                    FileTextField::ImportSource => row.source_path.clone(),
                };
                text_compare(text.as_str(), value.as_str(), *operator, *case_sensitive)
            },
            RowCondition::SourceType { source_type, negate } => {
                let expected = match source_type {
                    RuleSourceType::Folder => "folder",
                    RuleSourceType::Archive => "archive",
                };
                let same = chars_eq(&chars_of(row.source_type.as_str()), &chars_of(expected));
                same != *negate
            },
            RowCondition::VibePresence { present } => (row.vibe_count > 0) == *present,
            RowCondition::Metadata { parsed } => row.metadata_failed != *parsed,
            RowCondition::Orientation { orientation, negate } => match (row.image_width, row.image_height) {
                (Some(w), Some(h)) => {
                    let has = match orientation {
                        ImageOrientation::Landscape => w > h,
                        ImageOrientation::Portrait => h > w,
                        ImageOrientation::Square => w == h,
                    };
                    has != *negate
                },
                _ => false,
            },
            RowCondition::GenerationText { field, operator, value, case_sensitive } => {
                match generation_field(row, *field) {
                    Some(t) => text_compare(t.as_str(), value.as_str(), *operator, *case_sensitive),
                    None => false,
                }
            },
        }
    }
}

/// The verdicts of the conditions of one group and how they combine.
pub struct GroupVerdicts {
    pub mode: RuleMatchMode,
    pub verdicts: Vec<bool>,
}

/// All of `vs` (with `All`) or any of them (with `Any`).
pub open spec fn combine(mode: RuleMatchMode, vs: Seq<bool>) -> bool {
    match mode {
        RuleMatchMode::All => forall|i: int| 0 <= i < vs.len() ==> #[trigger] vs[i],
        RuleMatchMode::Any => exists|i: int| 0 <= i < vs.len() && #[trigger] vs[i],
    }
}

/// The value of each group of verdicts.
pub open spec fn group_values(groups: Seq<GroupVerdicts>) -> Seq<bool> {
    groups.map_values(|g: GroupVerdicts| combine(g.mode, g.verdicts@))
}

/// Whether a condition set matches: its groups combined by its mode, the
/// whole flipped when it is negated.
pub open spec fn set_holds(mode: RuleMatchMode, negate: bool, groups: Seq<GroupVerdicts>) -> bool {
    combine(mode, group_values(groups)) != negate
}

fn combine_exec(mode: RuleMatchMode, vs: &Vec<bool>) -> (r: bool)
    ensures
        r == combine(mode, vs@),
{
    let want = match mode {
        RuleMatchMode::All => false,
        RuleMatchMode::Any => true,
    };
    let mut i: usize = 0;
    while i < vs.len()
        invariant
            i <= vs.len(),
            want == (mode is Any),
            forall|k: int| 0 <= k < i ==> vs@[k] != want,
        decreases vs.len() - i,
    {
        if vs[i] == want {
            assert(vs@[i as int] == want);
            proof {
                match mode {
                    RuleMatchMode::All => {
                        assert(!vs@[i as int]);
                        assert(!combine(mode, vs@));
                    },
                    RuleMatchMode::Any => {
                        assert(vs@[i as int]);
                        assert(combine(mode, vs@));
                    },
                }
            }
            return want;
        }
        i = i + 1;
    }
    !want
}

/// Combines the verdicts of a condition set (see `set_holds`).
pub fn condition_set_matches(mode: RuleMatchMode, negate: bool, groups: &Vec<GroupVerdicts>) -> (r: bool)
    ensures
        r == set_holds(mode, negate, groups@),
{
    let mut values: Vec<bool> = Vec::new();
    let mut i: usize = 0;
    while i < groups.len()
        invariant
            i <= groups.len(),
            values@ == group_values(groups@).take(i as int),
        decreases groups.len() - i,
    {
        let v = combine_exec(groups[i].mode, &groups[i].verdicts);
        values.push(v);
        i = i + 1;
        assert(values@ =~= group_values(groups@).take(i as int));
    }
    assert(group_values(groups@).take(i as int) =~= group_values(groups@));
    combine_exec(mode, &values) != negate
}

/// Negating a condition set flips its verdict on every row.
pub proof fn lemma_negation_flips(mode: RuleMatchMode, groups: Seq<GroupVerdicts>)
    ensures
        set_holds(mode, true, groups) == !set_holds(mode, false, groups),
{
}

/// The message of the empty-value error a condition is refused with, if any.
pub open spec fn condition_problem(c: RowCondition) -> Option<Seq<char>> {
    match c {
        RowCondition::Prompt { operator, value, .. } => if blank(value@) || ((operator is ContainsAll
            || operator is ContainsAny || operator is ContainsNone) && rule_tokens(value@).len() == 0) {
            Some("提示词条件"@)
        } else {
            None
        },
        RowCondition::Tag { operator, tags } => if !(operator is IsEmpty) && list_entries(tags@).len() == 0 {
            Some("Tag 条件"@)
        } else {
            None
        },
        RowCondition::Group { operator, group_id } => if !(operator is IsEmpty) && (match group_id {
            Some(id) => id <= 0,
            None => true,
        }) {
            Some("分组条件"@)
        } else {
            None
        },
        RowCondition::Artist { operator, artists } => if (operator is ContainsAny || operator is ContainsNone)
            && list_entries(artists@).len() == 0 {
            Some("画师条件"@)
        } else {
            None
        },
        RowCondition::Note { operator: NoteOperator::Contains, value, .. } => if value@.len() == 0 {
            Some("文本条件"@)
        } else {
            None
        },
        RowCondition::FileText { value, .. } | RowCondition::GenerationText { value, .. } => if value@.len() == 0 {
            Some("文本条件"@)
        } else {
            None
        },
        _ => None,
    }
}

/// Checks that a condition has what it needs: a text, tokens, a group.
pub fn validate_condition(c: &RowCondition) -> (r: Result<(), AutomationRuleError>)
    ensures
        condition_problem(*c) is None ==> r is Ok,
        condition_problem(*c) matches Some(m) ==> (r matches Err(AutomationRuleError::EmptyValue(e)) && e@ == m),
{
    let problem: Option<&'static str> = match c {
        RowCondition::Prompt { operator, value, .. } => {
            let v = chars_of(value.as_str());
            if trim_chars(&v).len() == 0 {
                Some("提示词条件")
            } else {
                match operator {
                    PromptOperator::ContainsAll | PromptOperator::ContainsAny | PromptOperator::ContainsNone => {
                        if rule_token_list(&v).len() == 0 {
                            Some("提示词条件")
                        } else {
                            None
                        }
                    },
                    _ => None,
                }
            }
        },
        RowCondition::Tag { operator, tags } => match operator {
            TagOperator::IsEmpty => None,
            _ => if entry_chars(tags).len() == 0 {
                Some("Tag 条件")
            } else {
                None
            },
        },
        RowCondition::Group { operator, group_id } => match operator {
            GroupOperator::IsEmpty => None,
            _ => match group_id {
                Some(id) => if *id <= 0 {
                    Some("分组条件")
                } else {
                    None
                },
                None => Some("分组条件"),
            },
        },
        RowCondition::Artist { operator, artists } => match operator {
            ArtistOperator::ContainsAny | ArtistOperator::ContainsNone => if entry_chars(artists).len() == 0 {
                Some("画师条件")
            } else {
                None
            },
            _ => None,
        },
        RowCondition::Note { operator, value, .. } => match operator {
            NoteOperator::Contains => if value.as_str().unicode_len() == 0 {
                Some("文本条件")
            } else {
                None
            },
            _ => None,
        },
        RowCondition::FileText { value, .. } | RowCondition::GenerationText { value, .. } => {
            if value.as_str().unicode_len() == 0 {
                Some("文本条件")
            } else {
                None
            }
        },
        _ => None,
    };
    match problem {
        Some(m) => Err(AutomationRuleError::EmptyValue(m)),
        None => Ok(()),
    }
}

/// The pattern and case flag of a condition that matches by regular
/// expression.
pub open spec fn condition_regex(c: RowCondition) -> Option<(Seq<char>, bool)> {
    match c {
        RowCondition::Prompt { operator: PromptOperator::Regex, value, case_sensitive, .. } => Some(
            (value@, !case_sensitive),
        ),
        RowCondition::FileText { operator: TextOperator::Regex, value, case_sensitive, .. } => Some(
            (value@, !case_sensitive),
        ),
        RowCondition::GenerationText { operator: TextOperator::Regex, value, case_sensitive, .. } => Some(
            (value@, !case_sensitive),
        ),
        _ => None,
    }
}

/// Checks that the regular expression of a condition compiles.
pub fn prepare_condition(c: &RowCondition) -> (r: Result<(), AutomationRuleError>)
    ensures
        match condition_regex(*c) {
            Some((p, ci)) => match regex_build_error(p, ci) {
                Some(m) => r matches Err(AutomationRuleError::InvalidRegex(e)) && e@ == m,
                None => r is Ok,
            },
            None => r is Ok,
        },
{
    let pattern: Option<(&String, bool)> = match c {
        RowCondition::Prompt { operator, value, case_sensitive, .. } => match operator {
            PromptOperator::Regex => Some((value, !*case_sensitive)),
            _ => None,
        },
        RowCondition::FileText { operator, value, case_sensitive, .. } | RowCondition::GenerationText {
            operator,
            value,
            case_sensitive,
            ..
        } => match operator {
            TextOperator::Regex => Some((value, !*case_sensitive)),
            _ => None,
        },
        _ => None,
    };
    match pattern {
        Some((p, ci)) => match regex_compile_error(p.as_str(), ci) {
            Some(m) => Err(AutomationRuleError::InvalidRegex(m)),
            None => Ok(()),
        },
        None => Ok(()),
    }
}

/// The orientation conditions on a row with both dimensions: landscape
/// holds exactly when it is wider than high, portrait exactly when it is
/// higher than wide, square exactly when width equals height, so exactly one
/// of the three holds; negating one flips it. On a row without both
/// dimensions none holds, negated or not.
pub proof fn lemma_orientations_partition_rows(row: RuleRow)
    ensures
        ({
            let landscape = condition_holds(
                RowCondition::Orientation { orientation: ImageOrientation::Landscape, negate: false },
                row,
            );
            let portrait = condition_holds(
                RowCondition::Orientation { orientation: ImageOrientation::Portrait, negate: false },
                row,
            );
            let square = condition_holds(
                RowCondition::Orientation { orientation: ImageOrientation::Square, negate: false },
                row,
            );
            match (row.image_width, row.image_height) {
                (Some(w), Some(h)) => {
                    &&& landscape <==> w > h
                    &&& portrait <==> h > w
                    &&& square <==> w == h
                    &&& !(landscape && portrait) && !(landscape && square) && !(portrait && square)
                    &&& landscape || portrait || square
                    &&& forall|o: ImageOrientation|
                        #[trigger] condition_holds(RowCondition::Orientation { orientation: o, negate: true }, row)
                            == !condition_holds(RowCondition::Orientation { orientation: o, negate: false }, row)
                },
                _ => forall|o: ImageOrientation, neg: bool|
                    !#[trigger] condition_holds(RowCondition::Orientation { orientation: o, negate: neg }, row),
            }
        }),
{
}

} // verus!
