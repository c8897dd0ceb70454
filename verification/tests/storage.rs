use prompt_library::artist_dictionary::{check_snapshot_count, to_i64};
use prompt_library::errors::DatabaseError;
use prompt_library::records::{
    first_unkeepable_version, first_unusable_state, group_name, version_image_source, VersionImageSource, group_starts, material_title, restored_tags, stored_note, version_name,
    versions_acceptable,
};
use prompt_library::rules::{rule_runs_on, validate_rule_order, AutomationRuleError, RuleExecutionTrigger};
use prompt_library::schema::{
    integrity_result, schema_plan, upgrade_steps, SchemaPlan, CURRENT_SCHEMA_VERSION, MINIMUM_UPGRADABLE_SCHEMA_VERSION,
};

#[test]
fn schema_versions_decide_how_a_file_opens() {
    assert_eq!(schema_plan(CURRENT_SCHEMA_VERSION).ok(), Some(SchemaPlan::Current));
    assert_eq!(schema_plan(0).ok(), Some(SchemaPlan::Create));
    assert_eq!(schema_plan(8).ok(), Some(SchemaPlan::Upgrade { from: 8 }));
    assert!(matches!(
        schema_plan(18),
        Err(DatabaseError::UnsupportedSchemaVersion { found: 18, supported: 17 })
    ));
    assert!(matches!(schema_plan(7), Err(DatabaseError::LegacySchemaVersion { found: 7, minimum: 8 })));
    assert_eq!(upgrade_steps(MINIMUM_UPGRADABLE_SCHEMA_VERSION), vec![9, 10, 11, 12, 13, 14, 15, 16, 17]);
    assert_eq!(upgrade_steps(16), vec![17]);
}

#[test]
fn integrity_answer_other_than_ok_is_the_failure() {
    assert!(integrity_result("ok".into()).is_ok());
    match integrity_result("row 3 missing".into()) {
        Err(DatabaseError::IntegrityCheckFailed(m)) => assert_eq!(m, "row 3 missing"),
        other => panic!("unexpected {other:?}"),
    }
}

#[test]
fn names_and_notes_are_trimmed() {
    assert_eq!(group_name("  Favs ").unwrap(), "Favs");
    assert!(matches!(group_name("   "), Err(DatabaseError::EmptyGroupName)));
    assert_eq!(stored_note("  hi  "), Some("hi".to_owned()));
    assert_eq!(stored_note(" \n "), None);
    assert_eq!(material_title("  "), "未命名素材");
    assert_eq!(material_title(" Title "), "Title");
    assert_eq!(version_name(" ", 0), "版本 1");
    assert_eq!(version_name(" ", 9), "版本 10");
    assert_eq!(version_name(" v2 ", 3), "v2");
    assert!(versions_acceptable(1, 0));
    assert!(versions_acceptable(3, 3));
    assert!(!versions_acceptable(3, 2));
    assert!(!versions_acceptable(0, 0));
    assert!(!versions_acceptable(129, 0));
}

#[test]
fn rule_order_must_list_every_rule_once() {
    assert!(validate_rule_order(&vec![1, 2, 3], &vec![3, 1, 2]).is_ok());
    assert!(matches!(validate_rule_order(&vec![1, 2, 3], &vec![3, 1]), Err(AutomationRuleError::InvalidOrder)));
    assert!(matches!(validate_rule_order(&vec![1, 2], &vec![1, 1, 2]), Err(AutomationRuleError::InvalidOrder)));
    assert!(matches!(validate_rule_order(&vec![1, 2], &vec![1, 4]), Err(AutomationRuleError::InvalidOrder)));
    assert!(validate_rule_order(&vec![], &vec![]).is_ok());
}

#[test]
fn trigger_selection_reads_only_its_own_flag() {
    assert!(rule_runs_on(true, true, false, RuleExecutionTrigger::Import));
    assert!(!rule_runs_on(true, true, false, RuleExecutionTrigger::Update));
    assert!(rule_runs_on(true, false, true, RuleExecutionTrigger::Update));
    assert!(rule_runs_on(true, false, false, RuleExecutionTrigger::Manual));
    assert!(!rule_runs_on(false, true, true, RuleExecutionTrigger::Manual));
}

#[test]
fn stored_counts_fit_sqlite_integers() {
    assert_eq!(to_i64(42).unwrap(), 42);
    assert!(matches!(to_i64(u64::MAX), Err(DatabaseError::RowCountOverflow)));
}

#[test]
fn snapshot_count_mismatch_names_both_counts() {
    assert!(check_snapshot_count(3, 3).is_ok());
    match check_snapshot_count(10, 7) {
        Err(DatabaseError::InvalidBundledArtistDictionary(m)) => assert_eq!(m, "名称数量不匹配：快照声明 10，实际读取 7"),
        other => panic!("unexpected {other:?}"),
    }
}

#[test]
fn duplicate_rows_gather_into_runs_of_one_key() {
    let keys: Vec<String> = ["a", "a", "b", "a", "c", "c"].iter().map(|k| (*k).to_owned()).collect();
    assert_eq!(group_starts(&keys), vec![0, 2, 3, 4]);
    assert!(group_starts(&vec![]).is_empty());
}

#[test]
fn restoring_states_refuses_the_first_unusable_row_id() {
    assert_eq!(first_unusable_state(&vec![]), None);
    assert_eq!(first_unusable_state(&vec![1, 2, 9]), None);
    assert_eq!(first_unusable_state(&vec![3, 1, 3, 0]), Some(2));
    assert_eq!(first_unusable_state(&vec![4, 0, 4]), Some(1));
    assert_eq!(first_unusable_state(&vec![-1]), Some(0));
}

#[test]
fn restored_tags_are_trimmed_unique_and_not_blank() {
    let tags = vec![" 花绘 ".to_string(), "".to_string(), "OC".to_string(), "花绘".to_string(), "  ".to_string()];
    assert_eq!(restored_tags(&tags), vec!["花绘".to_string(), "OC".to_string()]);
    assert!(restored_tags(&vec![]).is_empty());
}

#[test]
fn material_versions_keep_only_own_unrepeated_ids() {
    assert_eq!(first_unkeepable_version(7, &vec![None, Some(3), None], &vec![None, Some(7), None]), None);
    assert_eq!(first_unkeepable_version(7, &vec![Some(3), Some(4)], &vec![Some(7), Some(8)]), Some(1));
    assert_eq!(first_unkeepable_version(7, &vec![Some(3), None, Some(3)], &vec![Some(7), None, Some(7)]), Some(2));
    assert_eq!(first_unkeepable_version(7, &vec![Some(9)], &vec![None]), Some(0));
    assert_eq!(version_image_source(true, Some(4)), VersionImageSource::Uploaded);
    assert_eq!(version_image_source(false, Some(4)), VersionImageSource::CopiedFrom(4));
    assert_eq!(version_image_source(false, None), VersionImageSource::NoImage);
}
