use prompt_library::rule_run::{
    failed_rule_report, merge_ids, remaining_rows, row_write, rule_outcome, rule_step, start_rows, tally_step, ActionTally,
    RowOutcome, RuleStep,
};
use prompt_library::errors::DatabaseError;
use prompt_library::prompt_tokens::normalized_strings;
use prompt_library::rule_actions::{apply_action, ActionStep};
use prompt_library::rule_simulation::{ActionRun, PromptReply, PromptWork};
use prompt_library::rule_conditions::{
    condition_set_matches, prepare_condition, text_compare, validate_condition, GroupVerdicts, RowCondition,
    RuleRow,
};
use prompt_library::rules::{
    action_tags, count_u32, default_note_separator, default_true, draft_problem, group_targets, validate_action, ArtistOperator, AutomationRuleError,
    DraftProblem,
    FileTextField, GenerationTextField, GroupOperator, ImageOrientation, NoteOperator, PromptActionField,
    PromptOperator, PromptScope, RuleAction, RuleExecutionSummary, RuleExecutionTrigger, RuleMatchMode,
    RuleSourceType, TagOperator, TextOperator,
};

fn sample_row() -> RuleRow {
    RuleRow {
        id: 1,
        positive_prompt: Some("1.2::girl::, white long hair, blue eyes".into()),
        character_prompt: Some("hair flower(white flower), artist:alice".into()),
        negative_prompt: Some("low quality, bad hands".into()),
        artists: Some("artist:alice\nartist:bob".into()),
        note: Some("favorite portrait".into()),
        group_id: Some(7),
        tags: vec!["花绘".to_owned(), "OC".to_owned()],
        image_path: Some(r"D:\Pictures\sample.png".into()),
        file_name: "sample.png".into(),
        metadata_failed: false,
        vibe_count: 2,
        image_width: Some(832),
        image_height: Some(1216),
        generation_model: Some("NovelAI Diffusion V4.5 Full".into()),
        generation_sampler: Some("k_euler_ancestral".into()),
        generation_seed: Some("18446744073709551615".into()),
        generation_noise_schedule: Some("karras".into()),
        source_type: "folder".into(),
        source_path: r"D:\Imports\July".into(),
    }
}

fn one(condition: RowCondition, row: &RuleRow) -> bool {
    prepare_condition(&condition).unwrap();
    let verdict = condition.matches(row);
    condition_set_matches(
        RuleMatchMode::Any,
        false,
        &vec![GroupVerdicts { mode: RuleMatchMode::All, verdicts: vec![verdict] }],
    )
}

fn assert_matches(row: &RuleRow, condition: RowCondition) {
    assert!(one(condition, row));
}

#[test]
fn automation_rules_every_condition_family_matches_expected_row() {
    let row = sample_row();
    for condition in [
        RowCondition::Prompt {
            scope: PromptScope::PositiveAndCharacter,
            operator: PromptOperator::ContainsAll,
            value: "girl, white long hair, hair flower(white flower)".into(),
            case_sensitive: false,
        },
        RowCondition::Prompt {
            scope: PromptScope::Negative,
            operator: PromptOperator::ContainsAny,
            value: "missing, bad hands".into(),
            case_sensitive: false,
        },
        RowCondition::Prompt {
            scope: PromptScope::Positive,
            operator: PromptOperator::ContainsNone,
            value: "red hair, green eyes".into(),
            case_sensitive: false,
        },
        RowCondition::Prompt {
            scope: PromptScope::All,
            operator: PromptOperator::TextContains,
            value: "BAD HANDS".into(),
            case_sensitive: false,
        },
        RowCondition::Prompt {
            scope: PromptScope::Character,
            operator: PromptOperator::TextEquals,
            value: "hair flower(white flower), artist:alice".into(),
            case_sensitive: true,
        },
        RowCondition::Prompt {
            scope: PromptScope::Positive,
            operator: PromptOperator::Regex,
            value: r"white\s+long\s+hair".into(),
            case_sensitive: false,
        },
        RowCondition::Tag { operator: TagOperator::HasAll, tags: vec!["花绘".into(), "OC".into()] },
        RowCondition::Tag { operator: TagOperator::HasAny, tags: vec!["missing".into(), "OC".into()] },
        RowCondition::Tag { operator: TagOperator::HasNone, tags: vec!["missing".into()] },
        RowCondition::Group { operator: GroupOperator::Is, group_id: Some(7) },
        RowCondition::Group { operator: GroupOperator::IsNot, group_id: Some(8) },
        RowCondition::Artist { operator: ArtistOperator::ContainsAny, artists: vec!["alice".into()] },
        RowCondition::Artist { operator: ArtistOperator::ContainsNone, artists: vec!["carol".into()] },
        RowCondition::Artist { operator: ArtistOperator::IsMultiple, artists: vec![] },
        RowCondition::Note { operator: NoteOperator::Contains, value: "PORTRAIT".into(), case_sensitive: false },
        RowCondition::FileText {
            field: FileTextField::FileName,
            operator: TextOperator::Equals,
            value: "sample.png".into(),
            case_sensitive: false,
        },
        RowCondition::FileText {
            field: FileTextField::OriginalPath,
            operator: TextOperator::Regex,
            value: r"Pictures\\sample\.png$".into(),
            case_sensitive: false,
        },
        RowCondition::FileText {
            field: FileTextField::ImportSource,
            operator: TextOperator::Contains,
            value: "imports".into(),
            case_sensitive: false,
        },
        RowCondition::SourceType { source_type: RuleSourceType::Folder, negate: false },
        RowCondition::VibePresence { present: true },
        RowCondition::Metadata { parsed: true },
        RowCondition::Orientation { orientation: ImageOrientation::Portrait, negate: false },
        RowCondition::GenerationText {
            field: GenerationTextField::Model,
            operator: TextOperator::Contains,
            value: "v4.5".into(),
            case_sensitive: false,
        },
        RowCondition::GenerationText {
            field: GenerationTextField::Sampler,
            operator: TextOperator::Equals,
            value: "k_euler_ancestral".into(),
            case_sensitive: true,
        },
        RowCondition::GenerationText {
            field: GenerationTextField::NoiseSchedule,
            operator: TextOperator::Regex,
            value: "^kar+as$".into(),
            case_sensitive: false,
        },
        RowCondition::GenerationText {
            field: GenerationTextField::Seed,
            operator: TextOperator::Equals,
            value: "18446744073709551615".into(),
            case_sensitive: true,
        },
    ] {
        assert_matches(&row, condition);
    }

    let mut empty = row.clone();
    empty.tags.clear();
    empty.group_id = None;
    empty.artists = None;
    empty.note = Some("  ".into());
    empty.vibe_count = 0;
    empty.source_type = "archive".into();
    assert_matches(&empty, RowCondition::Tag { operator: TagOperator::IsEmpty, tags: vec![] });
    assert_matches(&empty, RowCondition::Group { operator: GroupOperator::IsEmpty, group_id: None });
    assert_matches(&empty, RowCondition::Artist { operator: ArtistOperator::IsEmpty, artists: vec![] });
    assert_matches(
        &empty,
        RowCondition::Note { operator: NoteOperator::IsEmpty, value: String::new(), case_sensitive: false },
    );
    assert_matches(&empty, RowCondition::VibePresence { present: false });
    assert_matches(&empty, RowCondition::SourceType { source_type: RuleSourceType::Folder, negate: true });
    empty.artists = Some("artist:alice".into());
    assert_matches(&empty, RowCondition::Artist { operator: ArtistOperator::IsSingle, artists: vec![] });
    empty.metadata_failed = true;
    assert_matches(&empty, RowCondition::Metadata { parsed: false });
    assert_matches(
        &empty,
        RowCondition::Orientation { orientation: ImageOrientation::Landscape, negate: true },
    );
}

#[test]
fn automation_rules_condition_groups_support_and_or_and_whole_expression_negation() {
    let row = sample_row();
    let a1 = RowCondition::Prompt {
        scope: PromptScope::PositiveAndCharacter,
        operator: PromptOperator::ContainsAll,
        value: "girl, white long hair, blue eyes, hair flower(white flower)".into(),
        case_sensitive: false,
    };
    let a2 = RowCondition::Tag { operator: TagOperator::HasAny, tags: vec!["OC".into()] };
    let b1 = RowCondition::Prompt {
        scope: PromptScope::Positive,
        operator: PromptOperator::ContainsAll,
        value: "red hair, green eyes".into(),
        case_sensitive: false,
    };
    let groups = vec![
        GroupVerdicts { mode: RuleMatchMode::All, verdicts: vec![a1.matches(&row), a2.matches(&row)] },
        GroupVerdicts { mode: RuleMatchMode::All, verdicts: vec![b1.matches(&row)] },
    ];
    assert!(condition_set_matches(RuleMatchMode::Any, false, &groups));
    assert!(!condition_set_matches(RuleMatchMode::Any, true, &groups));
    assert!(!condition_set_matches(RuleMatchMode::All, false, &groups));
}

#[test]
fn automation_rules_prompt_matching_is_exact_per_tag_and_has_no_character_aliases() {
    let row = sample_row();
    for value in ["1girl", "long hair", "blue eye"] {
        let condition = RowCondition::Prompt {
            scope: PromptScope::Positive,
            operator: PromptOperator::ContainsAll,
            value: value.into(),
            case_sensitive: false,
        };
        assert!(!one(condition, &row));
    }
}

#[test]
fn automation_rules_full_width_comma_safely_splits_all_list_style_inputs() {
    assert_eq!(
        normalized_strings(&vec!["alice，bob, carol\ndave".into()]),
        vec!["alice", "bob", "carol", "dave"]
    );
    let mut row = sample_row();
    row.positive_prompt = Some("girl, blue eyes".into());
    row.tags.clear();
    let condition = RowCondition::Prompt {
        scope: PromptScope::Positive,
        operator: PromptOperator::ContainsAll,
        value: "girl，blue eyes".into(),
        case_sensitive: false,
    };
    assert!(condition.matches(&row));
    let step = apply_action(&mut row, &RuleAction::AddTags { tags: vec!["人物，蓝眼".into()] });
    assert_eq!(step, ActionStep::Done { changed: true, prompt_changed: false });
    let mut tags = row.tags.clone();
    tags.sort();
    assert_eq!(tags, vec!["人物", "蓝眼"]);
}

#[test]
fn empty_conditions_are_refused_with_their_family() {
    let cases = [
        (
            RowCondition::Prompt {
                scope: PromptScope::Positive,
                operator: PromptOperator::TextContains,
                value: "  ".into(),
                case_sensitive: false,
            },
            "提示词条件",
        ),
        (
            RowCondition::Prompt {
                scope: PromptScope::Positive,
                operator: PromptOperator::ContainsAll,
                value: ", ,".into(),
                case_sensitive: false,
            },
            "提示词条件",
        ),
        (RowCondition::Tag { operator: TagOperator::HasAny, tags: vec![" ".into()] }, "Tag 条件"),
        (RowCondition::Group { operator: GroupOperator::Is, group_id: Some(0) }, "分组条件"),
        (RowCondition::Group { operator: GroupOperator::IsNot, group_id: None }, "分组条件"),
        (RowCondition::Artist { operator: ArtistOperator::ContainsNone, artists: vec![] }, "画师条件"),
        (
            RowCondition::Note { operator: NoteOperator::Contains, value: String::new(), case_sensitive: true },
            "文本条件",
        ),
        (
            RowCondition::GenerationText {
                field: GenerationTextField::Seed,
                operator: TextOperator::Equals,
                value: String::new(),
                case_sensitive: true,
            },
            "文本条件",
        ),
    ];
    for (condition, message) in cases {
        match validate_condition(&condition) {
            Err(AutomationRuleError::EmptyValue(m)) => assert_eq!(m, message),
            other => panic!("unexpected {other:?}"),
        }
    }
    assert!(validate_condition(&RowCondition::Tag { operator: TagOperator::IsEmpty, tags: vec![] }).is_ok());
    assert!(validate_condition(&RowCondition::Metadata { parsed: true }).is_ok());
}

#[test]
fn invalid_regex_is_refused_when_prepared() {
    let condition = RowCondition::FileText {
        field: FileTextField::FileName,
        operator: TextOperator::Regex,
        value: "(unclosed".into(),
        case_sensitive: true,
    };
    assert!(matches!(prepare_condition(&condition), Err(AutomationRuleError::InvalidRegex(_))));
    let plain = RowCondition::FileText {
        field: FileTextField::FileName,
        operator: TextOperator::Contains,
        value: "(unclosed".into(),
        case_sensitive: true,
    };
    assert!(prepare_condition(&plain).is_ok());
    assert!(!text_compare("abc", "(unclosed", TextOperator::Regex, true));
}

#[test]
fn text_comparison_modes() {
    assert!(text_compare("Hello World", "lo wo", TextOperator::Contains, false));
    assert!(!text_compare("Hello World", "lo wo", TextOperator::Contains, true));
    assert!(text_compare("anything", "", TextOperator::Contains, true));
    assert!(text_compare("ÄBC", "äbc", TextOperator::Equals, false));
    assert!(!text_compare("ÄBC", "äbc", TextOperator::Equals, true));
    assert!(text_compare("abc", "^A", TextOperator::Regex, false));
    assert!(!text_compare("abc", "^A", TextOperator::Regex, true));
}

#[test]
fn actions_report_changes_like_the_stored_row() {
    let mut row = sample_row();
    row.tags = vec!["旧标签".into()];
    row.group_id = None;
    row.note = None;
    row.positive_prompt = Some("target, bare_artist".into());
    row.character_prompt = Some("old character, bare_artist".into());
    row.negative_prompt = Some("remove me, keep me".into());
    let actions = vec![
        RuleAction::AddTags { tags: vec!["新标签".into()] },
        RuleAction::RemoveTags { tags: vec!["旧标签".into()] },
        RuleAction::SetGroup { group_id: 3, only_if_ungrouped: false },
        RuleAction::AppendPrompt { field: PromptActionField::Positive, value: "added prompt".into() },
        RuleAction::DeletePromptTags { field: PromptActionField::Negative, value: "remove me".into() },
        RuleAction::ReplacePrompt {
            field: PromptActionField::Character,
            find: "old character".into(),
            replace: "new character".into(),
            case_sensitive: true,
        },
        RuleAction::SetNote { value: "base".into() },
        RuleAction::AppendNote { value: "tail".into(), separator: " | ".into() },
    ];
    let mut changed = 0;
    for action in &actions {
        if let ActionStep::Done { changed: true, .. } = apply_action(&mut row, action) {
            changed += 1;
        }
    }
    assert_eq!(changed, 8);
    assert_eq!(row.tags, vec!["新标签"]);
    assert_eq!(row.group_id, Some(3));
    assert_eq!(row.positive_prompt.as_deref(), Some("target, bare_artist, added prompt"));
    assert_eq!(row.character_prompt.as_deref(), Some("new character, bare_artist"));
    assert_eq!(row.negative_prompt.as_deref(), Some("keep me"));
    assert_eq!(row.note.as_deref(), Some("base | tail"));
    assert_eq!(
        apply_action(&mut row, &RuleAction::PrefixArtist { artists: vec!["bare_artist".into()] }),
        ActionStep::PrefixArtists
    );
    assert_eq!(apply_action(&mut row, &RuleAction::StopProcessing), ActionStep::Stop);
    assert_eq!(
        apply_action(&mut row, &RuleAction::ClearGroup),
        ActionStep::Done { changed: true, prompt_changed: false }
    );
    assert_eq!(
        apply_action(&mut row, &RuleAction::ClearNote),
        ActionStep::Done { changed: true, prompt_changed: false }
    );
    assert_eq!((row.group_id, row.note.clone()), (None, None));
    assert_eq!(
        apply_action(&mut row, &RuleAction::ClearNote),
        ActionStep::Done { changed: false, prompt_changed: false }
    );
}

#[test]
fn automation_rules_only_ungrouped_action_skips_existing_group() {
    let mut row = sample_row();
    row.group_id = Some(4);
    let step = apply_action(&mut row, &RuleAction::SetGroup { group_id: 9, only_if_ungrouped: true });
    assert_eq!(step, ActionStep::Done { changed: false, prompt_changed: false });
    assert_eq!(row.group_id, Some(4));
}

#[test]
fn repeating_tag_actions_changes_nothing() {
    let mut row = sample_row();
    let add = RuleAction::AddTags { tags: vec!["x, y".into()] };
    assert_eq!(apply_action(&mut row, &add), ActionStep::Done { changed: true, prompt_changed: false });
    assert_eq!(apply_action(&mut row, &add), ActionStep::Done { changed: false, prompt_changed: false });
    let remove = RuleAction::RemoveTags { tags: vec!["y".into()] };
    assert_eq!(apply_action(&mut row, &remove), ActionStep::Done { changed: true, prompt_changed: false });
    assert_eq!(apply_action(&mut row, &remove), ActionStep::Done { changed: false, prompt_changed: false });
    assert_eq!(row.tags, vec!["花绘", "OC", "x"]);
}

#[test]
fn replace_prompt_handles_case_and_blank_results() {
    let mut row = sample_row();
    row.negative_prompt = Some("Bad, bad, BAD".into());
    let step = apply_action(
        &mut row,
        &RuleAction::ReplacePrompt {
            field: PromptActionField::Negative,
            find: "bad".into(),
            replace: "ok".into(),
            case_sensitive: false,
        },
    );
    assert_eq!(step, ActionStep::Done { changed: true, prompt_changed: true });
    assert_eq!(row.negative_prompt.as_deref(), Some("ok, ok, ok"));
    row.negative_prompt = Some("abc".into());
    apply_action(
        &mut row,
        &RuleAction::ReplacePrompt {
            field: PromptActionField::Negative,
            find: "abc".into(),
            replace: " ".into(),
            case_sensitive: true,
        },
    );
    assert_eq!(row.negative_prompt, None);
    row.note = Some(String::new());
    apply_action(&mut row, &RuleAction::AppendNote { value: "x".into(), separator: "\n".into() });
    assert_eq!(row.note.as_deref(), Some("x"));
}

#[test]
fn action_validation_names_the_missing_part() {
    let cases = [
        (RuleAction::AddTags { tags: vec![", ".into()] }, "Tag 任务"),
        (RuleAction::RemoveTags { tags: vec![] }, "Tag 任务"),
        (RuleAction::SetGroup { group_id: 0, only_if_ungrouped: false }, "目标分组"),
        (RuleAction::AppendPrompt { field: PromptActionField::Positive, value: " ".into() }, "提示词任务"),
        (RuleAction::DeletePromptTags { field: PromptActionField::Negative, value: "".into() }, "提示词任务"),
        (
            RuleAction::ReplacePrompt {
                field: PromptActionField::Positive,
                find: String::new(),
                replace: "x".into(),
                case_sensitive: true,
            },
            "查找内容",
        ),
        (RuleAction::PrefixArtist { artists: vec!["\n".into()] }, "画师前缀任务"),
        (RuleAction::AppendNote { value: String::new(), separator: "\n".into() }, "备注任务"),
    ];
    for (action, message) in cases {
        match validate_action(&action) {
            Err(AutomationRuleError::EmptyValue(m)) => assert_eq!(m, message),
            other => panic!("unexpected {other:?}"),
        }
    }
    assert!(validate_action(&RuleAction::ClearNote).is_ok());
    assert!(validate_action(&RuleAction::SetNote { value: String::new() }).is_ok());
    assert!(validate_action(&RuleAction::AppendNote { value: " ".into(), separator: String::new() }).is_ok());
}

#[test]
fn defaults_and_failed_summary() {
    assert!(default_true());
    assert_eq!(default_note_separator(), "\n");
    let summary = RuleExecutionSummary::failed(RuleExecutionTrigger::Import, 12, "boom");
    assert_eq!(summary.trigger, RuleExecutionTrigger::Import);
    assert_eq!(summary.input_rows, 12);
    assert_eq!(summary.changed_rows, 0);
    assert!(summary.reports.is_empty());
    assert_eq!(summary.engine_error.as_deref(), Some("boom"));
    assert_eq!(count_u32(7).unwrap(), 7);
    assert!(matches!(
        count_u32(usize::MAX),
        Err(AutomationRuleError::Database(DatabaseError::CountOverflow))
    ));
}

#[test]
fn stop_processing_only_removes_stopped_rows_from_later_rules() {
    let outcomes = vec![
        RowOutcome { id: 1, changed_actions: 2, stop: true },
        RowOutcome { id: 3, changed_actions: 0, stop: false },
        RowOutcome { id: 4, changed_actions: 1, stop: false },
    ];
    let outcome = rule_outcome(7, "r".into(), 5, &outcomes);
    assert_eq!(outcome.report.rule_id, 7);
    assert_eq!(outcome.report.scanned_rows, 5);
    assert_eq!(outcome.report.matched_rows, 3);
    assert_eq!(outcome.report.changed_rows, 2);
    assert_eq!(outcome.report.actions_changed, 3);
    assert_eq!(outcome.report.stopped_rows, 1);
    assert_eq!(outcome.report.error, None);
    assert_eq!(outcome.changed_row_ids, vec![1, 4]);
    assert_eq!(outcome.stopped_row_ids, vec![1]);
    assert_eq!(remaining_rows(&vec![1, 2, 3, 4, 5], &outcome.stopped_row_ids), vec![2, 3, 4, 5]);
}

#[test]
fn draft_problems_are_reported_in_checking_order() {
    let add_blank = RuleAction::AddTags { tags: vec![" ".to_string()] };
    let clear = RuleAction::ClearGroup;
    let no_group = RuleAction::SetGroup { group_id: 0, only_if_ungrouped: false };
    assert_eq!(draft_problem("  ", &vec![], &vec![], false), Some(DraftProblem::EmptyName));
    assert_eq!(draft_problem("rule", &vec![], &vec![], false), Some(DraftProblem::EmptyConditionSet));
    assert_eq!(
        draft_problem("rule", &vec![vec![true], vec![]], &vec![], false),
        Some(DraftProblem::EmptyConditionGroup(2))
    );
    assert_eq!(
        draft_problem("rule", &vec![vec![true, false], vec![]], &vec![], false),
        Some(DraftProblem::InvalidCondition { group: 0, index: 1 })
    );
    assert_eq!(draft_problem("rule", &vec![vec![true]], &vec![], false), Some(DraftProblem::EmptyActions));
    assert_eq!(
        draft_problem("rule", &vec![vec![true]], &vec![clear.clone(), no_group.clone(), add_blank.clone()], false),
        Some(DraftProblem::InvalidAction(1))
    );
    assert_eq!(
        draft_problem("rule", &vec![vec![true], vec![true, true]], &vec![clear.clone()], false),
        Some(DraftProblem::InvalidPattern)
    );
    assert_eq!(draft_problem("rule", &vec![vec![true], vec![true, true]], &vec![clear], true), None);
}

#[test]
fn row_write_rewrites_fields_only_when_they_changed_and_diffs_tags() {
    let original = sample_row();
    let mut updated = sample_row();
    updated.tags = vec!["OC".to_owned(), "new".to_owned(), "new".to_owned(), "a".to_owned()];
    updated.file_name = "renamed.png".into();
    let write = row_write(&original, &updated);
    assert!(!write.fields_changed);
    assert_eq!(write.removed_tags, vec!["花绘".to_owned()]);
    assert_eq!(write.added_tags, vec!["a".to_owned(), "new".to_owned()]);

    let mut grouped = sample_row();
    grouped.group_id = None;
    let write = row_write(&original, &grouped);
    assert!(write.fields_changed);
    assert!(write.removed_tags.is_empty() && write.added_tags.is_empty());

    let mut noted = sample_row();
    noted.note = Some("favorite portrait ".into());
    assert!(row_write(&original, &noted).fields_changed);
}

#[test]
fn run_steps_start_skip_finish_and_merge() {
    assert_eq!(start_rows(&vec![5, 2, 5, 9, 2]), vec![2, 5, 9]);
    assert!(start_rows(&vec![]).is_empty());
    let mut changed = vec![2, 7];
    merge_ids(&mut changed, &vec![9, 2, 1]);
    assert_eq!(changed, vec![1, 2, 7, 9]);
    assert_eq!(rule_step(false, true, true, RuleExecutionTrigger::Manual, 3), RuleStep::Skip);
    assert_eq!(rule_step(true, false, true, RuleExecutionTrigger::Import, 3), RuleStep::Skip);
    assert_eq!(rule_step(true, true, false, RuleExecutionTrigger::Import, 0), RuleStep::Finish);
    assert_eq!(rule_step(true, false, false, RuleExecutionTrigger::Manual, 2), RuleStep::Apply);
    let report = failed_rule_report(4, "坏规则".to_string(), 3, "无效的正则表达式: x".to_string());
    assert_eq!(report.rule_id, 4);
    assert_eq!(report.scanned_rows, 3);
    assert_eq!(report.matched_rows + report.changed_rows + report.actions_changed + report.stopped_rows, 0);
    assert_eq!(report.error.as_deref(), Some("无效的正则表达式: x"));
}

#[test]
fn action_tally_counts_changes_and_stops() {
    let mut tally = ActionTally { changed_actions: 0, stop: false };
    tally_step(&mut tally, ActionStep::Done { changed: true, prompt_changed: false }, false);
    tally_step(&mut tally, ActionStep::Done { changed: false, prompt_changed: false }, true);
    tally_step(&mut tally, ActionStep::PrefixArtists, false);
    assert_eq!(tally, ActionTally { changed_actions: 1, stop: false });
    tally_step(&mut tally, ActionStep::PrefixArtists, true);
    tally_step(&mut tally, ActionStep::Stop, true);
    assert_eq!(tally, ActionTally { changed_actions: 2, stop: true });
}

#[test]
fn rules_name_their_group_targets_and_added_tags() {
    let actions = vec![
        RuleAction::AddTags { tags: vec!["b， a".to_string(), " c ".to_string()] },
        RuleAction::SetGroup { group_id: 4, only_if_ungrouped: false },
        RuleAction::RemoveTags { tags: vec!["z".to_string()] },
        RuleAction::AddTags { tags: vec!["a".to_string(), "".to_string()] },
        RuleAction::SetGroup { group_id: 2, only_if_ungrouped: true },
    ];
    assert_eq!(group_targets(&actions), vec![4, 2]);
    assert_eq!(action_tags(&actions), vec!["a".to_string(), "b".to_string(), "c".to_string()]);
    assert!(action_tags(&vec![RuleAction::ClearGroup]).is_empty());
}

fn run_with_fake_parser(row: RuleRow, actions: &Vec<RuleAction>) -> (ActionRun, Vec<String>) {
    let mut run = ActionRun::new(row);
    let mut asked = Vec::new();
    let mut reply = PromptReply::Nothing;
    let mut steps = 0;
    while !run.advance(actions, reply) {
        steps += 1;
        assert!(steps < 1000, "the run does not end");
        reply = match run.awaiting {
            PromptWork::Nothing => PromptReply::Nothing,
            PromptWork::Artists => {
                asked.push("artists".to_string());
                PromptReply::Artists(Some(format!(
                    "from:{}",
                    run.row.positive_prompt.clone().unwrap_or_default()
                )))
            }
            PromptWork::Prefix(field) => {
                let prompt = match field {
                    PromptActionField::Positive => run.row.positive_prompt.clone(),
                    PromptActionField::Character => run.row.character_prompt.clone(),
                    PromptActionField::Negative => run.row.negative_prompt.clone(),
                };
                let artist = run.current_artist().unwrap().clone();
                asked.push(format!("prefix {artist} in {field:?}"));
                let text = prompt.unwrap();
                if text.contains(&artist) {
                    PromptReply::Prefixed(None)
                } else {
                    PromptReply::Prefixed(Some(format!("artist:{artist}, {text}")))
                }
            }
        };
    }
    (run, asked)
}

#[test]
fn stepped_run_asks_for_prefixes_and_artist_lists_as_it_goes() {
    let mut row = sample_row();
    row.negative_prompt = None;
    row.character_prompt = Some("alice here".into());
    let actions = vec![
        RuleAction::AddTags { tags: vec!["新".into()] },
        RuleAction::PrefixArtist { artists: vec![" alice ".into(), "bob, alice".into()] },
        RuleAction::SetNote { value: "done".into() },
        RuleAction::StopProcessing,
        RuleAction::ClearGroup,
    ];
    let (run, asked) = run_with_fake_parser(row, &actions);
    assert_eq!(
        asked,
        vec![
            "prefix alice in Positive".to_string(),
            "prefix alice in Character".to_string(),
            "prefix bob in Positive".to_string(),
            "prefix bob in Character".to_string(),
            "artists".to_string(),
        ]
    );
    assert_eq!(
        run.row.positive_prompt.as_deref(),
        Some("artist:bob, artist:alice, 1.2::girl::, white long hair, blue eyes")
    );
    assert_eq!(run.row.character_prompt.as_deref(), Some("artist:bob, alice here"));
    assert_eq!(
        run.row.artists.as_deref(),
        Some("from:artist:bob, artist:alice, 1.2::girl::, white long hair, blue eyes")
    );
    assert_eq!(run.row.note.as_deref(), Some("done"));
    assert_eq!(run.row.group_id, None);
    assert_eq!(run.tally.changed_actions, 4);
    assert!(run.tally.stop);
    assert_eq!(run.next, actions.len());
}

#[test]
fn stepped_run_without_prompt_changes_never_asks() {
    let actions = vec![RuleAction::SetGroup { group_id: 9, only_if_ungrouped: true }, RuleAction::ClearNote];
    let (run, asked) = run_with_fake_parser(sample_row(), &actions);
    assert!(asked.is_empty());
    assert_eq!(run.row.group_id, Some(7));
    assert_eq!(run.row.note, None);
    assert_eq!(run.tally.changed_actions, 1);
    assert!(!run.tally.stop);
}
