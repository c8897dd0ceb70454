use prompt_library::quick_edit::{
    artist_prefix_change, validated_artist_name, ArtistPromptRow,
    changed_prompt_field_count, count_tag_needs, normalize_artist_prefix_changes, normalize_changes,
    group_change_writes, normalize_group_changes, plan_quick_group, plan_quick_tag, EvaluatedCondition, MatchedRow, QuickArtistPrefixChange,
    QuickEditCondition, QuickEditError, QuickEditTextField, QuickGroupChange, QuickTagAssociation,
};

fn all_fields() -> Vec<QuickEditTextField> {
    vec![
        QuickEditTextField::PositivePrompt,
        QuickEditTextField::CharacterPrompt,
        QuickEditTextField::NegativePrompt,
        QuickEditTextField::Artists,
        QuickEditTextField::Note,
    ]
}

fn condition(tokens: &[&str]) -> EvaluatedCondition {
    EvaluatedCondition::new(&QuickEditCondition {
        fields: all_fields(),
        required_tokens: tokens.iter().map(|t| (*t).to_owned()).collect(),
    })
    .ok()
    .unwrap()
}

fn chars(s: &str) -> Vec<char> {
    s.chars().collect()
}

fn matches(
    c: &EvaluatedCondition,
    positive: Option<&str>,
    character: Option<&str>,
    negative: Option<&str>,
    artists: Option<&str>,
    note: Option<&str>,
) -> bool {
    let p = positive.map(chars);
    let ch = character.map(chars);
    let n = negative.map(chars);
    let a = artists.map(chars);
    let no = note.map(chars);
    c.matches(p.as_ref(), ch.as_ref(), n.as_ref(), a.as_ref(), no.as_ref())
}

#[test]
fn quick_matching_ignores_only_case_and_weight_syntax() {
    let c = condition(&["genshin", "hutao"]);
    assert_eq!(c.tokens, vec!["genshin", "hutao"]);
    assert!(matches(&c, Some("genshin, masterpiece"), Some("1.2::{HuTao}::"), None, None, None));
    assert!(!matches(&c, Some("genshin impact, hutao"), None, None, None, None));
    assert!(!matches(&c, Some("genshin, hu_tao"), None, None, None, None));
    assert!(matches(&c, Some("[HUTAO], {GENSHIN:1.1}"), None, None, None, None));
    assert!(matches(&c, Some("genshin"), None, Some("hutao"), None, None));
}

#[test]
fn quick_matching_includes_artists_and_notes() {
    let c = condition(&["genshin", "hutao"]);
    assert!(matches(&c, None, None, None, Some("GENSHIN"), Some("1.1::hutao::")));
    assert!(matches(&c, None, None, None, None, Some("genshin, {HUTAO}")));
}

#[test]
fn quick_girl_aliases_share_one_match_key() {
    let c = condition(&["girl", "1girl", "1 girl"]);
    assert_eq!(c.tokens, vec!["girl"]);
    assert!(matches(&c, Some("best quality, girl"), None, None, None, None));
    assert!(matches(&c, None, Some("{1girl}"), None, None, None));
    assert!(matches(&c, None, None, Some("1.1::1 GIRL::"), None, None));
    assert!(!matches(&c, Some("2girls"), None, None, None, None));
    assert!(!matches(&c, Some("girlfriend"), None, None, None, None));
}

#[test]
fn quick_condition_refusals() {
    let no_fields = EvaluatedCondition::new(&QuickEditCondition { fields: vec![], required_tokens: vec!["a".into()] });
    assert!(matches!(no_fields, Err(QuickEditError::EmptyFields)));
    let bad = EvaluatedCondition::new(&QuickEditCondition {
        fields: all_fields(),
        required_tokens: vec!["ok".into(), "a, b".into(), "c\nd".into()],
    });
    match bad {
        Err(QuickEditError::InvalidConditionToken(t)) => assert_eq!(t, "a, b"),
        _ => panic!("expected an invalid token"),
    }
    let blank = EvaluatedCondition::new(&QuickEditCondition {
        fields: all_fields(),
        required_tokens: vec!["  ".into(), "(:1.2)".into()],
    });
    assert!(matches!(blank, Err(QuickEditError::EmptyCondition)));
    let only_note = EvaluatedCondition::new(&QuickEditCondition {
        fields: vec![QuickEditTextField::Note],
        required_tokens: vec!["x".into()],
    })
    .ok()
    .unwrap();
    assert!(only_note.note && !only_note.positive);
    assert!(!matches(&only_note, Some("x"), None, None, None, None));
}

#[test]
fn recorded_tag_changes_are_trimmed_and_deduplicated() {
    let changes = vec![
        QuickTagAssociation { row_id: 1, tag: " a ".into() },
        QuickTagAssociation { row_id: 1, tag: "a".into() },
        QuickTagAssociation { row_id: 2, tag: "a".into() },
    ];
    let normalized = normalize_changes(&changes).ok().unwrap();
    assert_eq!(
        normalized,
        vec![QuickTagAssociation { row_id: 1, tag: "a".into() }, QuickTagAssociation { row_id: 2, tag: "a".into() }]
    );
    let invalid = vec![QuickTagAssociation { row_id: 0, tag: "a".into() }];
    assert!(matches!(normalize_changes(&invalid), Err(QuickEditError::InvalidRowId(0))));
    let blank = vec![QuickTagAssociation { row_id: 3, tag: "  ".into() }];
    assert!(matches!(normalize_changes(&blank), Err(QuickEditError::EmptyTags)));
}

#[test]
fn recorded_group_changes_keep_the_first_change_per_row() {
    let change = |row_id, previous_group_id, target_group_id| QuickGroupChange { row_id, previous_group_id, target_group_id };
    let normalized = normalize_group_changes(&vec![change(1, None, 5), change(1, Some(2), 6), change(2, Some(3), 5)])
        .ok()
        .unwrap();
    assert_eq!(normalized, vec![change(1, None, 5), change(2, Some(3), 5)]);
    assert!(matches!(normalize_group_changes(&vec![change(-1, None, 5)]), Err(QuickEditError::InvalidRowId(-1))));
    assert!(matches!(normalize_group_changes(&vec![change(1, None, 0)]), Err(QuickEditError::InvalidGroupId(0))));
    assert!(matches!(
        normalize_group_changes(&vec![change(1, Some(-4), 2)]),
        Err(QuickEditError::InvalidGroupId(-4))
    ));
}

fn prefix_change(row_id: i64, old: Option<&str>, new: Option<&str>) -> QuickArtistPrefixChange {
    QuickArtistPrefixChange {
        row_id,
        previous_positive_prompt: old.map(str::to_owned),
        new_positive_prompt: new.map(str::to_owned),
        previous_character_prompt: Some("same".into()),
        new_character_prompt: Some("same".into()),
        previous_negative_prompt: None,
        new_negative_prompt: Some("added".into()),
        previous_artists: None,
        new_artists: None,
    }
}

#[test]
fn recorded_prefix_changes_and_field_counts() {
    let a = prefix_change(1, Some("x"), Some("artist:x"));
    let b = prefix_change(1, Some("y"), Some("artist:y"));
    let normalized = normalize_artist_prefix_changes(&vec![a.clone(), b]).ok().unwrap();
    assert_eq!(normalized, vec![a.clone()]);
    assert!(matches!(
        normalize_artist_prefix_changes(&vec![prefix_change(0, None, None)]),
        Err(QuickEditError::InvalidRowId(0))
    ));
    assert_eq!(changed_prompt_field_count(&a), 2);
    assert_eq!(changed_prompt_field_count(&prefix_change(2, Some("x"), Some("x"))), 1);
}

#[test]
fn quick_group_can_skip_every_already_grouped_match() {
    let rows = vec![
        MatchedRow { id: 1, group_id: Some(9) },
        MatchedRow { id: 2, group_id: None },
        MatchedRow { id: 3, group_id: Some(5) },
    ];
    let plan = plan_quick_group(&rows, 5, true);
    assert_eq!(plan.skipped_grouped_rows, 2);
    assert_eq!(plan.eligible_row_ids, vec![2]);
    assert_eq!(plan.changes, vec![QuickGroupChange { row_id: 2, previous_group_id: None, target_group_id: 5 }]);

    let all = plan_quick_group(&rows, 5, false);
    assert_eq!(all.skipped_grouped_rows, 0);
    assert_eq!(all.eligible_row_ids, vec![1, 2, 3]);
    assert_eq!(
        all.changes,
        vec![
            QuickGroupChange { row_id: 1, previous_group_id: Some(9), target_group_id: 5 },
            QuickGroupChange { row_id: 2, previous_group_id: None, target_group_id: 5 },
        ]
    );
}

#[test]
fn tag_needs_count_missing_associations() {
    let (rows, adds) = count_tag_needs(&vec![1, 2, 3], &vec![10, 11], &vec![(1, 10), (1, 11), (2, 10)]);
    assert_eq!((rows, adds), (2, 3));
    assert_eq!(count_tag_needs(&vec![], &vec![10], &vec![]), (0, 0));
}

#[test]
fn artist_names_must_be_single_and_present() {
    assert_eq!(validated_artist_name("rourow").unwrap(), "rourow");
    assert!(matches!(validated_artist_name(""), Err(QuickEditError::EmptyArtistName)));
    assert!(matches!(validated_artist_name("a, b"), Err(QuickEditError::InvalidArtistName)));
    assert!(matches!(validated_artist_name("a\nb"), Err(QuickEditError::InvalidArtistName)));
}

#[test]
fn prefix_changes_record_previous_and_new_fields() {
    let row = ArtistPromptRow {
        id: 5,
        positive_prompt: Some("rourow, girl".into()),
        character_prompt: None,
        negative_prompt: Some("rourow".into()),
        artists: Some("old".into()),
    };
    assert!(artist_prefix_change(&row, None, None, None, Some("x".into())).is_none());
    let change = artist_prefix_change(&row, None, None, Some("artist:rourow".into()), Some("ignored".into())).unwrap();
    assert_eq!(change.new_positive_prompt, row.positive_prompt);
    assert_eq!(change.new_negative_prompt.as_deref(), Some("artist:rourow"));
    assert_eq!(change.new_artists.as_deref(), Some("old"));
    let change = artist_prefix_change(&row, Some("artist:rourow, girl".into()), None, None, Some("rourow".into())).unwrap();
    assert_eq!(change.previous_positive_prompt.as_deref(), Some("rourow, girl"));
    assert_eq!(change.new_positive_prompt.as_deref(), Some("artist:rourow, girl"));
    assert_eq!(change.new_artists.as_deref(), Some("rourow"));
    assert_eq!(changed_prompt_field_count(&change), 1);
}

fn assoc(row_id: i64, tag: &str) -> QuickTagAssociation {
    QuickTagAssociation { row_id, tag: tag.to_string() }
}

#[test]
fn quick_tag_plan_records_only_new_associations_and_undo_restores_them() {
    let existing = vec![assoc(1, "a"), assoc(3, "b"), assoc(9, "a")];
    let tags = vec!["a".to_string(), "b".to_string()];
    let changes = plan_quick_tag(&vec![1, 2, 3, 1], &tags, &existing);
    assert_eq!(changes, vec![assoc(1, "b"), assoc(2, "a"), assoc(2, "b"), assoc(3, "a")]);

    let before: std::collections::HashSet<(i64, String)> =
        existing.iter().map(|a| (a.row_id, a.tag.clone())).collect();
    let mut edited = before.clone();
    for change in &changes {
        assert!(edited.insert((change.row_id, change.tag.clone())));
    }
    for row in [1, 2, 3] {
        for tag in &tags {
            assert!(edited.contains(&(row, tag.clone())));
        }
    }
    let mut reverted = edited.clone();
    for change in &changes {
        reverted.remove(&(change.row_id, change.tag.clone()));
    }
    assert_eq!(reverted, before);
    assert!(plan_quick_tag(&vec![1, 3], &vec!["a".to_string()], &vec![assoc(1, "a"), assoc(3, "a")]).is_empty());
}

#[test]
fn group_change_writes_revert_to_previous_and_reapply_to_target() {
    let changes = vec![
        QuickGroupChange { row_id: 1, previous_group_id: None, target_group_id: 5 },
        QuickGroupChange { row_id: 2, previous_group_id: Some(3), target_group_id: 5 },
    ];
    assert_eq!(group_change_writes(&changes, false), vec![(1, None), (2, Some(3))]);
    assert_eq!(group_change_writes(&changes, true), vec![(1, Some(5)), (2, Some(5))]);
    assert!(group_change_writes(&vec![], true).is_empty());
}
