//! Automation rules: the vocabulary of conditions and actions, their
//! validation, how a condition reads a row and what the actions do to it.
use vstd::prelude::*;

use crate::errors::DatabaseError;
use crate::prompt_tokens::{normalized_list, normalized_strings, strings_of};
use crate::query::{insert_sorted, strictly_sorted};
use crate::text::{chars_of, string_views, trim, trim_chars, views};

verus! {

/// How the members of a condition group, or the groups of a set, combine.
#[derive(Debug, Clone, Copy, PartialEq, Eq, Hash, Structural)]
pub enum RuleMatchMode {
    All,
    Any,
}

/// Which prompt fields a prompt condition reads.
#[derive(Debug, Clone, Copy, PartialEq, Eq, Hash, Structural)]
pub enum PromptScope {
    Positive,
    Character,
    Negative,
    PositiveAndCharacter,
    All,
}

/// How a prompt condition compares the prompt's tags with its own.
#[derive(Debug, Clone, Copy, PartialEq, Eq, Hash, Structural)]
pub enum PromptOperator {
    ContainsAll,
    ContainsAny,
    ContainsNone,
    TextContains,
    TextEquals,
    Regex,
}

/// How a tag condition combines its tags.
#[derive(Debug, Clone, Copy, PartialEq, Eq, Hash, Structural)]
pub enum TagOperator {
    HasAll,
    HasAny,
    HasNone,
    IsEmpty,
}

/// How a group condition reads a row's group.
#[derive(Debug, Clone, Copy, PartialEq, Eq, Hash, Structural)]
pub enum GroupOperator {
    Is,
    IsNot,
    IsEmpty,
}

/// How an artist condition reads a row's artists.
#[derive(Debug, Clone, Copy, PartialEq, Eq, Hash, Structural)]
pub enum ArtistOperator {
    ContainsAny,
    ContainsNone,
    IsSingle,
    IsMultiple,
    IsEmpty,
}

/// How a note condition reads a row's note.
#[derive(Debug, Clone, Copy, PartialEq, Eq, Hash, Structural)]
pub enum NoteOperator {
    Contains,
    IsEmpty,
}

/// The file text a file condition reads.
#[derive(Debug, Clone, Copy, PartialEq, Eq, Hash, Structural)]
pub enum FileTextField {
    FileName,
    OriginalPath,
    ImportSource,
}

/// How a text condition compares a value.
#[derive(Debug, Clone, Copy, PartialEq, Eq, Hash, Structural)]
pub enum TextOperator {
    Contains,
    Equals,
    Regex,
}

/// The kind of source an image was imported from.
#[derive(Debug, Clone, Copy, PartialEq, Eq, Hash, Structural)]
pub enum RuleSourceType {
    Folder,
    Archive,
}

/// How a numeric condition compares a value.
#[derive(Debug, Clone, Copy, PartialEq, Eq, Hash, Structural)]
pub enum NumericOperator {
    Equal,
    NotEqual,
    GreaterThan,
    GreaterOrEqual,
    LessThan,
    LessOrEqual,
    Between,
}

/// What a vibe condition asks of a row's vibe references.
#[derive(Debug, Clone, Copy, PartialEq, Eq, Hash, Structural)]
pub enum VibeOperator {
    HasAny,
    HasNone,
    Count,
}

/// The image dimension a numeric condition reads.
#[derive(Debug, Clone, Copy, PartialEq, Eq, Hash, Structural)]
pub enum ImageDimensionField {
    Width,
    Height,
    AspectRatio,
}

/// The orientation an orientation condition asks for.
#[derive(Debug, Clone, Copy, PartialEq, Eq, Hash, Structural)]
pub enum ImageOrientation {
    Landscape,
    Portrait,
    Square,
}

/// The generation setting a text condition reads.
#[derive(Debug, Clone, Copy, PartialEq, Eq, Hash, Structural)]
pub enum GenerationTextField {
    Model,
    Sampler,
    NoiseSchedule,
    Seed,
}

/// The generation setting a numeric condition reads.
#[derive(Debug, Clone, Copy, PartialEq, Eq, Hash, Structural)]
pub enum GenerationNumberField {
    Steps,
    Scale,
    CfgRescale,
}

/// The prompt field a prompt action writes.
#[derive(Debug, Clone, Copy, PartialEq, Eq, Hash, Structural)]
pub enum PromptActionField {
    Positive,
    Character,
    Negative,
}

/// What a rule does to each matching row, in order.
#[derive(Debug, Clone, PartialEq)]
pub enum RuleAction {
    AddTags { tags: Vec<String> },
    RemoveTags { tags: Vec<String> },
    SetGroup { group_id: i64, only_if_ungrouped: bool },
    ClearGroup,
    AppendPrompt { field: PromptActionField, value: String },
    DeletePromptTags { field: PromptActionField, value: String },
    ReplacePrompt { field: PromptActionField, find: String, replace: String, case_sensitive: bool },
    PrefixArtist { artists: Vec<String> },
    SetNote { value: String },
    AppendNote { value: String, separator: String },
    ClearNote,
    StopProcessing,
}

/// What started a run of the rules.
#[derive(Debug, Clone, Copy, PartialEq, Eq, Hash, Structural)]
pub enum RuleExecutionTrigger {
    Import,
    Update,
    Manual,
}

/// What one rule did during a run.
#[derive(Debug, Clone, PartialEq, Eq)]
pub struct RuleExecutionReport {
    pub rule_id: i64,
    pub rule_name: String,
    pub scanned_rows: u64,
    pub matched_rows: u64,
    pub changed_rows: u64,
    pub actions_changed: u64,
    pub stopped_rows: u64,
    pub error: Option<String>,
}

/// What a run of the rules did.
#[derive(Debug, Clone, PartialEq, Eq)]
pub struct RuleExecutionSummary {
    pub trigger: RuleExecutionTrigger,
    pub input_rows: u64,
    pub changed_rows: u64,
    pub reports: Vec<RuleExecutionReport>,
    pub engine_error: Option<String>,
}

impl RuleExecutionSummary {
    /// The summary of a run that failed before any rule ran.
    pub fn failed(trigger: RuleExecutionTrigger, input_rows: usize, error: &str) -> (r: Self)
        ensures
            r.trigger == trigger,
            r.input_rows == input_rows,
            r.changed_rows == 0,
            r.reports@.len() == 0,
            r.engine_error is Some && r.engine_error->0@ == error@,
    {
        RuleExecutionSummary {
            trigger,
            input_rows: input_rows as u64,
            changed_rows: 0,
            reports: Vec::new(),
            engine_error: Some(error.to_owned()),
        }
    }
}

/// What running a rule would do, without doing it.
#[derive(Debug, Clone, PartialEq, Eq)]
pub struct RulePreview {
    pub scanned_rows: u64,
    pub matched_rows: u64,
    pub rows_needing_changes: u64,
    pub stopped_rows: u64,
    pub sample_row_ids: Vec<i64>,
}

/// Declares `serde_json::Error`, the error of reading or writing a stored rule as JSON, so that an error value can be carried; nothing is claimed of its contents.
#[verifier::external_type_specification]
#[verifier::external_body]
pub struct ExJsonError(serde_json::Error);

/// Why a rule could not be stored or run.
#[derive(Debug)]
pub enum AutomationRuleError {
    Database(DatabaseError),
    Json(serde_json::Error),
    EmptyName,
    EmptyConditionSet,
    EmptyConditionGroup(usize),
    EmptyActions,
    EmptyValue(&'static str),
    MissingRangeEnd,
    InvalidRegex(String),
    RuleNotFound(i64),
    InvalidOrder,
    MissingTargetGroup(i64),
    InvalidDefinition(String),
    InvalidRuleFile(String),
}

/// Flags that are on unless a stored rule says otherwise.
pub fn default_true() -> (r: bool)
    ensures
        r,
{
    true
}

/// What an appended note is joined to the old one with unless the rule says.
pub fn default_note_separator() -> (r: String)
    ensures
        r@ == seq!['\n'],
{
    let s = "\n";
    proof {
        reveal_strlit("\n");
    }
    s.to_owned()
}

/// A count as `u32`, or the overflow error.
pub fn count_u32(value: usize) -> (r: Result<u32, AutomationRuleError>)
    ensures
        value <= u32::MAX ==> r == Ok::<u32, AutomationRuleError>(value as u32),
        value > u32::MAX ==> (r matches Err(AutomationRuleError::Database(DatabaseError::CountOverflow))),
{
    if value <= 4294967295usize {
        Ok(value as u32)
    } else {
        Err(AutomationRuleError::Database(DatabaseError::CountOverflow))
    }
}

/// The entries of a list input after splitting, trimming and de-duplication.
pub open spec fn list_entries(values: Seq<String>) -> Seq<Seq<char>> {
    normalized_list(string_views(values))
}

/// Whether a text input is blank.
pub open spec fn blank(s: Seq<char>) -> bool {
    trim(s).len() == 0
}

/// The message of the empty-value error an action is refused with, if any.
pub open spec fn action_problem(action: RuleAction) -> Option<Seq<char>> {
    match action {
        RuleAction::AddTags { tags } | RuleAction::RemoveTags { tags } => if list_entries(tags@).len() == 0 {
            Some("Tag 任务"@)
        } else {
            None
        },
        RuleAction::SetGroup { group_id, .. } => if group_id <= 0 {
            Some("目标分组"@)
        } else {
            None
        },
        RuleAction::AppendPrompt { value, .. } | RuleAction::DeletePromptTags { value, .. } => if blank(value@) {
            Some("提示词任务"@)
        } else {
            None
        },
        RuleAction::ReplacePrompt { find, .. } => if find@.len() == 0 {
            Some("查找内容"@)
        } else {
            None
        },
        RuleAction::PrefixArtist { artists } => if list_entries(artists@).len() == 0 {
            Some("画师前缀任务"@)
        } else {
            None
        },
        RuleAction::AppendNote { value, .. } => if value@.len() == 0 {
            Some("备注任务"@)
        } else {
            None
        },
        _ => None,
    }
}

fn is_blank(s: &str) -> (r: bool)
    ensures
        r == blank(s@),
{
    let v = chars_of(s);
    let t = trim_chars(&v);
    t.len() == 0
}

fn list_is_empty(values: &Vec<String>) -> (r: bool)
    ensures
        r == (list_entries(values@).len() == 0),
{
    let n = normalized_strings(values);
    proof {
        assert(string_views(values@) == values@.map_values(|s: String| s@));
    }
    n.len() == 0
}

/// Checks that an action has what it needs: tags, a group, a text.
pub fn validate_action(action: &RuleAction) -> (r: Result<(), AutomationRuleError>)
    ensures
        action_problem(*action) is None ==> r is Ok,
        action_problem(*action) matches Some(m) ==> (r matches Err(AutomationRuleError::EmptyValue(e)) && e@ == m),
{
    let problem: Option<&'static str> = match action {
        RuleAction::AddTags { tags } | RuleAction::RemoveTags { tags } => if list_is_empty(tags) {
            Some("Tag 任务")
        } else {
            None
        },
        RuleAction::SetGroup { group_id, .. } => if *group_id <= 0 {
            Some("目标分组")
        } else {
            None
        },
        RuleAction::AppendPrompt { value, .. } | RuleAction::DeletePromptTags { value, .. } => if is_blank(value.as_str()) {
            Some("提示词任务")
        } else {
            None
        },
        RuleAction::ReplacePrompt { find, .. } => if find.as_str().unicode_len() == 0 {
            Some("查找内容")
        } else {
            None
        },
        RuleAction::PrefixArtist { artists } => if list_is_empty(artists) {
            Some("画师前缀任务")
        } else {
            None
        },
        RuleAction::AppendNote { value, .. } => if value.as_str().unicode_len() == 0 {
            Some("备注任务")
        } else {
            None
        },
        _ => None,
    };
    match problem {
        Some(m) => Err(AutomationRuleError::EmptyValue(m)),
        None => Ok(()),
    }
}

/// The first thing wrong with a rule, in the order rules are checked.
#[derive(Debug, Clone, Copy, PartialEq, Eq, Structural)]
pub enum DraftProblem {
    /// The name is blank.
    EmptyName,
    /// There is no condition group.
    EmptyConditionSet,
    /// The group with this number, counted from 1, has no condition.
    EmptyConditionGroup(usize),
    /// The condition at `index` of the group at `group`, both counted from
    /// 0, failed its own check.
    InvalidCondition { group: usize, index: usize },
    /// There is no action.
    EmptyActions,
    /// The action at this index, counted from 0, is refused (see
    /// `action_problem`).
    InvalidAction(usize),
    /// A pattern of the conditions does not compile.
    InvalidPattern,
}

/// The index of the first `false` in `ok` from `from` on.
pub open spec fn first_failed(ok: Seq<bool>, from: int) -> Option<int>
    decreases ok.len() - from,
{
    if from < 0 || from >= ok.len() {
        None
    } else if !ok[from] {
        Some(from)
    } else {
        first_failed(ok, from + 1)
    }
}

/// The first problem among the condition groups from `from` on: an empty
/// group, or the first failed condition of a group.
pub open spec fn first_group_problem(checks: Seq<Seq<bool>>, from: int) -> Option<DraftProblem>
    decreases checks.len() - from,
{
    if from < 0 || from >= checks.len() {
        None
    } else if checks[from].len() == 0 {
        Some(DraftProblem::EmptyConditionGroup((from + 1) as usize))
    } else {
        match first_failed(checks[from], 0) {
            Some(i) => Some(DraftProblem::InvalidCondition { group: from as usize, index: i as usize }),
            None => first_group_problem(checks, from + 1),
        }
    }
}

/// The index of the first refused action from `from` on.
pub open spec fn first_action_problem(actions: Seq<RuleAction>, from: int) -> Option<int>
    decreases actions.len() - from,
{
    if from < 0 || from >= actions.len() {
        None
    } else if action_problem(actions[from]) is Some {
        Some(from)
    } else {
        first_action_problem(actions, from + 1)
    }
}

/// What is first wrong with a rule named `name`, whose conditions passed
/// or failed their own checks as `checks` says (one list per group), with
/// these actions, and whose patterns compile when `patterns_compile`: a
/// blank name, no group, an empty group or a failed condition (group by
/// group), no action, a refused action, a pattern; `None` when the rule is
/// sound.
pub open spec fn draft_problem_spec(
    name: Seq<char>,
    checks: Seq<Seq<bool>>,
    actions: Seq<RuleAction>,
    patterns_compile: bool,
) -> Option<DraftProblem> {
    if blank(name) {
        Some(DraftProblem::EmptyName)
    } else if checks.len() == 0 {
        Some(DraftProblem::EmptyConditionSet)
    } else if first_group_problem(checks, 0) is Some {
        first_group_problem(checks, 0)
    } else if actions.len() == 0 {
        Some(DraftProblem::EmptyActions)
    } else {
        match first_action_problem(actions, 0) {
            Some(i) => Some(DraftProblem::InvalidAction(i as usize)),
            None => if patterns_compile {
                None
            } else {
                Some(DraftProblem::InvalidPattern)
            },
        }
    }
}

/// The views of nested vectors of flags.
pub open spec fn flag_views(v: Seq<Vec<bool>>) -> Seq<Seq<bool>> {
    v.map_values(|x: Vec<bool>| x@)
}

/// Finds what is first wrong with a rule (see `draft_problem_spec`).
pub fn draft_problem(name: &str, checks: &Vec<Vec<bool>>, actions: &Vec<RuleAction>, patterns_compile: bool) -> (r:
    Option<DraftProblem>)
    ensures
        r == draft_problem_spec(name@, flag_views(checks@), actions@, patterns_compile),
{
    if is_blank(name) {
        return Some(DraftProblem::EmptyName);
    }
    if checks.len() == 0 {
        return Some(DraftProblem::EmptyConditionSet);
    }
    let ghost cv = flag_views(checks@);
    let mut g: usize = 0;
    while g < checks.len()
        invariant
            g <= checks.len(),
            !blank(name@),
            checks.len() > 0,
            cv == flag_views(checks@),
            first_group_problem(cv, 0) == first_group_problem(cv, g as int),
        decreases checks.len() - g,
    {
        let group = &checks[g];
        assert(cv[g as int] == group@);
        if group.len() == 0 {
            return Some(DraftProblem::EmptyConditionGroup(g + 1));
        }
        let mut i: usize = 0;
        while i < group.len()
            invariant
                i <= group.len(),
                g < checks.len(),
                group@.len() > 0,
                !blank(name@),
                checks.len() > 0,
                cv == flag_views(checks@),
                group@ == cv[g as int],
                first_group_problem(cv, 0) == first_group_problem(cv, g as int),
                first_failed(group@, 0) == first_failed(group@, i as int),
            decreases group.len() - i,
        {
            if !group[i] {
                return Some(DraftProblem::InvalidCondition { group: g, index: i });
            }
            i = i + 1;
        }
        g = g + 1;
    }
    if actions.len() == 0 {
        return Some(DraftProblem::EmptyActions);
    }
    let mut a: usize = 0;
    while a < actions.len()
        invariant
            a <= actions.len(),
            actions.len() > 0,
            !blank(name@),
            checks.len() > 0,
            first_group_problem(flag_views(checks@), 0) is None,
            first_action_problem(actions@, 0) == first_action_problem(actions@, a as int),
        decreases actions.len() - a,
    {
        if validate_action(&actions[a]).is_err() {
            return Some(DraftProblem::InvalidAction(a));
        }
        a = a + 1;
    }
    if patterns_compile {
        None
    } else {
        Some(DraftProblem::InvalidPattern)
    }
}

/// Whether an enabled rule with these flags runs for a trigger: imports and
/// updates each follow their own flag, manual runs take every enabled rule.
pub open spec fn runs_on(enabled: bool, run_on_import: bool, run_on_update: bool, trigger: RuleExecutionTrigger) -> bool {
    enabled && match trigger {
        RuleExecutionTrigger::Import => run_on_import,
        RuleExecutionTrigger::Update => run_on_update,
        RuleExecutionTrigger::Manual => true,
    }
}

/// Whether a rule takes part in a run started by `trigger` (see `runs_on`).
pub fn rule_runs_on(enabled: bool, run_on_import: bool, run_on_update: bool, trigger: RuleExecutionTrigger) -> (r: bool)
    ensures
        r == runs_on(enabled, run_on_import, run_on_update, trigger),
{
    enabled && match trigger {
        RuleExecutionTrigger::Import => run_on_import,
        RuleExecutionTrigger::Update => run_on_update,
        RuleExecutionTrigger::Manual => true,
    }
}

/// The import and update flags of a rule are independent: each trigger
/// reads only its own flag.
pub proof fn lemma_trigger_flags_independent(enabled: bool, a: bool, b: bool, c: bool)
    ensures
        runs_on(enabled, a, b, RuleExecutionTrigger::Import) == runs_on(enabled, a, c, RuleExecutionTrigger::Import),
        runs_on(enabled, b, a, RuleExecutionTrigger::Update) == runs_on(enabled, c, a, RuleExecutionTrigger::Update),
        runs_on(enabled, a, b, RuleExecutionTrigger::Manual) == enabled,
{
}

/// A new order of the rules is accepted when it lists every current rule
/// exactly once.
pub open spec fn valid_order(existing: Seq<i64>, ids: Seq<i64>) -> bool {
    ids.no_duplicates() && ids.to_set() == existing.to_set()
}

fn contains_id(v: &Vec<i64>, x: i64) -> (r: bool)
    ensures
        r == v@.contains(x),
{
    let mut i: usize = 0;
    while i < v.len()
        invariant
            i <= v.len(),
            forall|k: int| 0 <= k < i ==> v@[k] != x,
        decreases v.len() - i,
    {
        if v[i] == x {
            assert(v@[i as int] == x);
            return true;
        }
        i = i + 1;
    }
    false
}

/// Checks a new order of the rules (see `valid_order`).
pub fn validate_rule_order(existing: &Vec<i64>, ids: &Vec<i64>) -> (r: Result<(), AutomationRuleError>)
    ensures
        valid_order(existing@, ids@) ==> r is Ok,
        !valid_order(existing@, ids@) ==> (r matches Err(AutomationRuleError::InvalidOrder)),
{
    let mut i: usize = 0;
    while i < ids.len()
        invariant
            i <= ids.len(),
            forall|a: int, b: int| 0 <= a < b < i ==> ids@[a] != ids@[b],
            forall|a: int| 0 <= a < i ==> existing@.contains(#[trigger] ids@[a]),
        decreases ids.len() - i,
    {
        let mut j: usize = 0;
        while j < i
            invariant
                j <= i < ids.len(),
                forall|a: int| 0 <= a < j ==> ids@[a] != ids@[i as int],
            decreases i - j,
        {
            if ids[j] == ids[i] {
                proof {
                    assert(!ids@.no_duplicates());
                }
                return Err(AutomationRuleError::InvalidOrder);
            }
            j = j + 1;
        }
        if !contains_id(existing, ids[i]) {
            proof {
                assert(ids@.to_set().contains(ids@[i as int]));
                assert(!existing@.to_set().contains(ids@[i as int]));
            }
            return Err(AutomationRuleError::InvalidOrder);
        }
        i = i + 1;
    }
    let mut k: usize = 0;
    while k < existing.len()
        invariant
            k <= existing.len(),
            forall|a: int| 0 <= a < k ==> ids@.contains(#[trigger] existing@[a]),
        decreases existing.len() - k,
    {
        if !contains_id(ids, existing[k]) {
            proof {
                assert(existing@.to_set().contains(existing@[k as int]));
                assert(!ids@.to_set().contains(existing@[k as int]));
            }
            return Err(AutomationRuleError::InvalidOrder);
        }
        k = k + 1;
    }
    proof {
        assert forall|x: i64| ids@.to_set().contains(x) <==> existing@.to_set().contains(x) by {
            if ids@.contains(x) {
                let a = choose|a: int| 0 <= a < ids@.len() && ids@[a] == x;
                assert(existing@.contains(ids@[a]));
            }
            if existing@.contains(x) {
                let a = choose|a: int| 0 <= a < existing@.len() && existing@[a] == x;
                assert(ids@.contains(existing@[a]));
            }
        }
        assert(ids@.to_set() =~= existing@.to_set());
    }
    Ok(())
}

/// The groups the set-group actions of a rule move rows to, in order; a
/// rule runs only when each of them exists.
pub open spec fn group_targets_of(actions: Seq<RuleAction>) -> Seq<i64>
    decreases actions.len(),
{
    if actions.len() == 0 {
        Seq::empty()
    } else {
        let r = group_targets_of(actions.drop_last());
        match actions.last() {
            RuleAction::SetGroup { group_id, .. } => r.push(group_id),
            _ => r,
        }
    }
}

/// The groups a rule's set-group actions name (see `group_targets_of`).
pub fn group_targets(actions: &Vec<RuleAction>) -> (r: Vec<i64>)
    ensures
        r@ == group_targets_of(actions@),
{
    let mut out: Vec<i64> = Vec::new();
    let mut i: usize = 0;
    while i < actions.len()
        invariant
            i <= actions.len(),
            out@ == group_targets_of(actions@.take(i as int)),
        decreases actions.len() - i,
    {
        assert(actions@.take(i + 1).drop_last() =~= actions@.take(i as int));
        assert(actions@.take(i + 1).last() == actions@[i as int]);
        match &actions[i] {
            RuleAction::SetGroup { group_id, .. } => {
                out.push(*group_id);
            },
            _ => {},
        }
        i = i + 1;
    }
    assert(actions@.take(i as int) =~= actions@);
    out
}

/// Whether `t` is a tag that some add-tags action of a rule adds.
pub open spec fn adds_tag(actions: Seq<RuleAction>, t: Seq<char>) -> bool {
    exists|i: int| 0 <= i < actions.len() && (#[trigger] actions[i] matches RuleAction::AddTags { tags } && normalized_list(
        string_views(tags@),
    ).contains(t))
}

/// The tags a rule's add-tags actions add, each once, in code-point order;
/// they are created before the rule runs.
pub fn action_tags(actions: &Vec<RuleAction>) -> (r: Vec<String>)
    ensures
        strictly_sorted(string_views(r@)),
        forall|t: Seq<char>| #[trigger] string_views(r@).contains(t) <==> adds_tag(actions@, t),
{
    let mut out: Vec<Vec<char>> = Vec::new();
    let mut i: usize = 0;
    while i < actions.len()
        invariant
            i <= actions.len(),
            strictly_sorted(views(out@)),
            forall|t: Seq<char>| #[trigger] views(out@).contains(t) <==> adds_tag(actions@.take(i as int), t),
        decreases actions.len() - i,
    {
        let ghost prefix = actions@.take(i as int);
        let ghost next = actions@.take(i + 1);
        assert(next =~= prefix.push(actions@[i as int]));
        let ghost before = views(out@);
        match &actions[i] {
            RuleAction::AddTags { tags } => {
                let names = normalized_strings(tags);
                assert(names@.map_values(|s: String| s@) =~= string_views(names@));
                assert(tags@.map_values(|s: String| s@) =~= string_views(tags@));
                let mut j: usize = 0;
                while j < names.len()
                    invariant
                        j <= names.len(),
                        i < actions.len(),
                        actions@[i as int] == (RuleAction::AddTags { tags: *tags }),
                        string_views(names@) == normalized_list(string_views(tags@)),
                        strictly_sorted(views(out@)),
                        forall|t: Seq<char>| #[trigger] views(out@).contains(t) <==> (before.contains(t) || string_views(
                            names@,
                        ).take(j as int).contains(t)),
                    decreases names.len() - j,
                {
                    let ghost taken = string_views(names@).take(j as int);
                    let ghost more = string_views(names@).take(j + 1);
                    let ghost x = names@[j as int]@;
                    assert(more =~= taken.push(x));
                    let ghost mid = views(out@);
                    insert_sorted(&mut out, chars_of(names[j].as_str()));
                    assert forall|t: Seq<char>| #[trigger] views(out@).contains(t) <==> (before.contains(t) || more.contains(
                        t,
                    )) by {
                        if more.contains(t) {
                            let k = choose|k: int| 0 <= k < more.len() && more[k] == t;
                            if k < j {
                                assert(taken[k] == t);
                            }
                        }
                        if taken.contains(t) {
                            let k = choose|k: int| 0 <= k < taken.len() && taken[k] == t;
                            assert(more[k] == t);
                        }
                        if t == x {
                            assert(more[j as int] == t);
                        }
                    }
                    j = j + 1;
                }
                assert(string_views(names@).take(j as int) =~= string_views(names@));
                assert forall|t: Seq<char>| #[trigger] views(out@).contains(t) <==> adds_tag(next, t) by {
                    if adds_tag(next, t) {
                        let k = choose|k: int| 0 <= k < next.len() && (#[trigger] next[k] matches RuleAction::AddTags {
                            tags,
                        } && normalized_list(string_views(tags@)).contains(t));
                        if k < i {
                            assert(prefix[k] == next[k]);
                            assert(adds_tag(prefix, t));
                        }
                    }
                    if adds_tag(prefix, t) {
                        let k = choose|k: int| 0 <= k < prefix.len() && (#[trigger] prefix[k] matches RuleAction::AddTags {
                            tags,
                        } && normalized_list(string_views(tags@)).contains(t));
                        assert(next[k] == prefix[k]);
                    }
                    if string_views(names@).contains(t) {
                        assert(next[i as int] == actions@[i as int]);
                    }
                }
            },
            _ => {
                assert forall|t: Seq<char>| #[trigger] views(out@).contains(t) <==> adds_tag(next, t) by {
                    if adds_tag(next, t) {
                        let k = choose|k: int| 0 <= k < next.len() && (#[trigger] next[k] matches RuleAction::AddTags {
                            tags,
                        } && normalized_list(string_views(tags@)).contains(t));
                        if k < i {
                            assert(prefix[k] == next[k]);
                        } else {
                            assert(next[k] == actions@[i as int]);
                        }
                    }
                    if adds_tag(prefix, t) {
                        let k = choose|k: int| 0 <= k < prefix.len() && (#[trigger] prefix[k] matches RuleAction::AddTags {
                            tags,
                        } && normalized_list(string_views(tags@)).contains(t));
                        assert(next[k] == prefix[k]);
                    }
                }
            },
        }
        i = i + 1;
    }
    assert(actions@.take(i as int) =~= actions@);
    let r = strings_of(&out);
    assert(string_views(r@) =~= views(out@));
    r
}

} // verus!
