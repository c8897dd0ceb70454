use prompt_library::rule_transfer::{
    check_dependency_total, imported_name_candidate, imported_rule_name, missing_names, rule_file_format,
    unique_imported_rule_name, validate_dependency_name, validate_rule_file_header,
};
use prompt_library::query::sorted_difference;
use prompt_library::rules::AutomationRuleError;

fn file_error<T: std::fmt::Debug>(result: Result<T, AutomationRuleError>) -> String {
    match result {
        Err(AutomationRuleError::InvalidRuleFile(message)) => message,
        other => panic!("expected a rule file error, got {other:?}"),
    }
}

#[test]
fn dependency_names_need_one_to_one_hundred_twenty_characters() {
    assert_eq!(
        file_error(validate_dependency_name("", "Tag")),
        "Tag 名称为空或超过 120 个字符"
    );
    let long = "名".repeat(121);
    assert_eq!(
        file_error(validate_dependency_name(&long, "分组")),
        "分组 名称为空或超过 120 个字符"
    );
    assert!(validate_dependency_name(&"名".repeat(120), "分组").is_ok());
    assert!(validate_dependency_name("blue eyes", "Tag").is_ok());
}

#[test]
fn dependency_names_reject_control_characters() {
    assert_eq!(
        file_error(validate_dependency_name("a\u{7}b", "Tag")),
        "Tag 名称包含不可见控制字符"
    );
    assert_eq!(
        file_error(validate_dependency_name("line\u{85}", "分组")),
        "分组 名称包含不可见控制字符"
    );
    assert!(validate_dependency_name("tab\u{a0}free", "Tag").is_ok());
}

#[test]
fn rule_file_header_checks_format_version_and_count_in_order() {
    let format = rule_file_format();
    assert_eq!(format, "smart-spreadsheet.automation-rules");
    assert_eq!(
        file_error(validate_rule_file_header("other", 2, 0)),
        "这不是智能表格导出的规则文件"
    );
    assert_eq!(
        file_error(validate_rule_file_header(format, 2, 0)),
        "文件版本为 2，当前仅支持版本 1"
    );
    assert_eq!(file_error(validate_rule_file_header(format, 1, 0)), "文件中没有规则");
    assert_eq!(
        file_error(validate_rule_file_header(format, 1, 201)),
        "文件包含 201 条规则，超过单次最多 200 条的限制"
    );
    assert!(validate_rule_file_header(format, 1, 1).is_ok());
    assert!(validate_rule_file_header(format, 1, 200).is_ok());
}

#[test]
fn imported_rule_names_are_trimmed_and_checked() {
    assert_eq!(imported_rule_name(0, "  清理标签  ").unwrap(), "清理标签");
    let long = format!(" {} ", "x".repeat(121));
    assert_eq!(
        file_error(imported_rule_name(0, &long)),
        "第 1 条规则名称超过 120 个字符"
    );
    assert_eq!(imported_rule_name(0, &format!(" {} ", "x".repeat(120))).unwrap(), "x".repeat(120));
    assert_eq!(
        file_error(imported_rule_name(4, "bad\u{1b}name")),
        "第 5 条规则名称包含不可见控制字符"
    );
}

#[test]
fn dependency_total_is_capped_at_one_thousand() {
    assert!(check_dependency_total(600, 400).is_ok());
    assert!(check_dependency_total(0, 0).is_ok());
    assert_eq!(
        file_error(check_dependency_total(600, 401)),
        "规则引用的 Tag 与分组合计超过 1000 个"
    );
    assert_eq!(
        file_error(check_dependency_total(usize::MAX, 1)),
        "规则引用的 Tag 与分组合计超过 1000 个"
    );
}

#[test]
fn missing_dependencies_are_sorted_unique_and_exclude_existing() {
    let referenced = vec!["b".to_string(), "a".to_string(), "c".to_string(), "a".to_string()];
    let existing = vec!["c".to_string(), "z".to_string()];
    assert_eq!(sorted_difference(&referenced, &existing), vec!["a".to_string(), "b".to_string()]);
    assert_eq!(missing_names(&referenced, &existing), vec!["a".to_string(), "b".to_string()]);
    assert!(sorted_difference(&vec![], &existing).is_empty());
    assert_eq!(
        sorted_difference(&vec!["分组".to_string(), "Alpha".to_string(), "alpha".to_string()], &vec![]),
        vec!["Alpha".to_string(), "alpha".to_string(), "分组".to_string()]
    );
}

#[test]
fn imported_name_candidates_keep_within_the_name_limit() {
    assert_eq!(imported_name_candidate("Rule", 1), "Rule（导入）");
    assert_eq!(imported_name_candidate("Rule", 2), "Rule（导入 2）");
    assert_eq!(imported_name_candidate("Rule", 12), "Rule（导入 12）");
    let base = "x".repeat(130);
    let first = imported_name_candidate(&base, 1);
    assert_eq!(first, format!("{}（导入）", "x".repeat(116)));
    assert_eq!(first.chars().count(), 120);
    let tenth = imported_name_candidate(&base, 10);
    assert_eq!(tenth, format!("{}（导入 10）", "x".repeat(113)));
    assert_eq!(tenth.chars().count(), 120);
}

#[test]
fn imported_rule_names_are_renamed_until_free_ignoring_case() {
    let mut used = vec!["角色归档规则".to_string(), "daily".to_string()];
    assert_eq!(
        unique_imported_rule_name("Fresh", &mut used),
        Some(("Fresh".to_string(), false))
    );
    assert_eq!(used.last().unwrap(), "fresh");
    assert_eq!(
        unique_imported_rule_name("角色归档规则", &mut used),
        Some(("角色归档规则（导入）".to_string(), true))
    );
    assert_eq!(
        unique_imported_rule_name("DAILY", &mut used),
        Some(("DAILY（导入）".to_string(), true))
    );
    assert_eq!(
        unique_imported_rule_name("Daily", &mut used),
        Some(("Daily（导入 2）".to_string(), true))
    );
    assert_eq!(
        unique_imported_rule_name("fresh", &mut used),
        Some(("fresh（导入）".to_string(), true))
    );
    assert_eq!(used.len(), 7);
    assert_eq!(used[4], "daily（导入）");
}
