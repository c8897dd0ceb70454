use prompt_library::batches::{
    batch_summary_from_stored, plan_batch_rows, stored_image_path, validate_batch_identities, NewRow, RowDecision,
    SourceType,
};
use prompt_library::errors::DatabaseError;
use prompt_library::prompt_tokens::{append_prompt, artist_set, delete_prompt_tags, nonempty, normalize_artist, parse_prompt_tokens, prompt_token_set};
use prompt_library::records::{empty_page, validate_page};

fn row(identity: &str, hash: Option<&str>) -> NewRow {
    NewRow {
        source_ordinal: 1,
        identity: identity.into(),
        content_hash: hash.map(str::to_owned),
        source_size: Some(10),
        ..NewRow::default()
    }
}

#[test]
fn batch_plan_skips_existing_then_duplicate_content() {
    let rows = vec![row("a", Some("h1")), row("b", Some("h2")), row("c", Some("h1")), row("d", None), row("e", Some("s"))];
    let existing = vec![None, Some((Some(11), None)), None, None, None];
    let plan = plan_batch_rows(&rows, &existing, &vec!["s".into()]);
    assert_eq!(
        plan.decisions,
        vec![
            RowDecision::Insert,
            RowDecision::SkipExisting,
            RowDecision::SkipContent,
            RowDecision::Insert,
            RowDecision::SkipContent
        ]
    );
    assert_eq!((plan.added, plan.skipped_existing, plan.skipped_content), (2, 1, 2));
    assert_eq!(plan.changed_existing, 1);
}

#[test]
fn batch_identities_must_be_present_and_unique() {
    assert!(validate_batch_identities(&vec![row("a", None), row("b", None)]).is_ok());
    assert!(matches!(validate_batch_identities(&vec![row("a", None), row(" ", None)]), Err(DatabaseError::EmptyIdentity)));
    match validate_batch_identities(&vec![row("a", None), row("b", None), row("a", None)]) {
        Err(DatabaseError::DuplicateIdentityInBatch(id)) => assert_eq!(id, "a"),
        other => panic!("unexpected {other:?}"),
    }
}

#[test]
fn stored_batches_read_back_or_fail_integrity() {
    let summary = batch_summary_from_stored((3, "folder".into(), "D:\\x".into(), "now".into(), 4, 1)).unwrap();
    assert_eq!(summary.source_type, SourceType::Folder);
    assert_eq!((summary.added_count, summary.skipped_count), (4, 1));
    match batch_summary_from_stored((3, "xml".into(), String::new(), String::new(), 0, 0)) {
        Err(DatabaseError::IntegrityCheckFailed(m)) => assert!(m.ends_with("xml")),
        other => panic!("unexpected {other:?}"),
    }
    assert!(matches!(
        batch_summary_from_stored((3, "archive".into(), String::new(), String::new(), -1, 0)),
        Err(DatabaseError::CountOverflow)
    ));
    assert_eq!(SourceType::Archive.as_str(), "archive");
    assert_eq!(stored_image_path(12, &Some("a/b.png".into())).as_deref(), Some("files/12/a/b.png"));
    assert_eq!(stored_image_path(12, &None), None);
}

#[test]
fn page_requests_are_checked() {
    assert_eq!(validate_page(5, 10).unwrap(), 5);
    assert!(matches!(validate_page(0, 0), Err(DatabaseError::InvalidPageSize { requested: 0, maximum: 500 })));
    assert!(matches!(validate_page(0, 501), Err(DatabaseError::InvalidPageSize { requested: 501, maximum: 500 })));
    assert!(matches!(validate_page(u64::MAX, 1), Err(DatabaseError::OffsetOverflow)));
    let page = empty_page(7, 20);
    assert_eq!((page.rows.len(), page.total_count, page.offset, page.limit), (0, 0, 7, 20));
}

#[test]
fn rule_prompt_helpers() {
    assert_eq!(parse_prompt_tokens("A, b，a\n(c:1.1)"), vec!["a", "b", "c"]);
    let mut set = prompt_token_set("x, y, x");
    set.sort();
    assert_eq!(set, vec!["x", "y"]);
    assert_eq!(artist_set(Some("artist:Alice\nBob, alice")), vec!["alice", "bob"]);
    assert!(artist_set(None).is_empty());
    assert_eq!(normalize_artist(" Artist: Bob "), "bob");
    assert_eq!(nonempty(" ".into()), None);
    assert_eq!(nonempty(" x".into()), Some(" x".to_owned()));
    assert_eq!(append_prompt(Some(" a, b "), "b, c， d"), Some("a, b, c, d".to_owned()));
    assert_eq!(append_prompt(Some("a"), " , "), Some("a".to_owned()));
    assert_eq!(append_prompt(None, "x"), Some("x".to_owned()));
    assert_eq!(delete_prompt_tags(Some("a, (B:1.2), c"), "b"), Some("a, c".to_owned()));
    assert_eq!(delete_prompt_tags(Some("a"), "a"), None);
    assert_eq!(delete_prompt_tags(None, "a"), None);
}

#[test]
fn appending_the_same_tags_twice_changes_nothing_more() {
    for (current, value) in [
        (Some(" a, b "), "b, c， d"),
        (None, "1.2::{HuTao}::, x\ny"),
        (Some("  "), "a, , A"),
        (Some("Hutao, z"), "hutao"),
    ] {
        let once = append_prompt(current, value);
        assert_eq!(append_prompt(once.as_deref(), value), once);
    }
    assert_eq!(append_prompt(None, "1.2::{HuTao}::, x\ny"), Some("1.2::{HuTao}::, x, y".to_owned()));
}
