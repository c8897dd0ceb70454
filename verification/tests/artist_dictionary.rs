use prompt_library::artist_dictionary::{
    build_artist_dictionary, ArtistDictionaryInput, DanbooruArtistRecord, DanbooruArtistTag,
    DanbooruTagAlias,
};

fn tag(id: i64, name: &str, post_count: u64) -> DanbooruArtistTag {
    DanbooruArtistTag {
        id,
        name: name.to_owned(),
        post_count,
        category: 1,
        is_deprecated: false,
    }
}

#[test]
fn banned_current_artist_links_zero_count_historical_name() {
    let input = ArtistDictionaryInput {
        tags: vec![tag(1, "parsley-f", 891), tag(2, "parsley_f", 0)],
        artists: vec![
            DanbooruArtistRecord {
                id: 27_785,
                name: "parsley-f".into(),
                other_names: vec!["parsley_f".into(), "s_f_nov17".into()],
                is_deleted: false,
                is_banned: true,
            },
            DanbooruArtistRecord {
                id: 138_271,
                name: "parsley_f".into(),
                other_names: Vec::new(),
                is_deleted: true,
                is_banned: false,
            },
        ],
        aliases: Vec::new(),
    };

    let entries = build_artist_dictionary(&input);
    let parsley_f = entries
        .iter()
        .find(|entry| entry.match_name == "parsley_f")
        .unwrap();
    assert_eq!(parsley_f.canonical_name, "parsley-f");
    assert_eq!(parsley_f.post_count, 891);
    assert!(parsley_f.is_banned);
    assert!(!parsley_f.is_ambiguous);
    assert!(entries.iter().any(|entry| entry.match_name == "s_f_nov17"));
}

#[test]
fn deleted_artist_without_artist_tag_or_current_other_name_is_ignored() {
    let entries = build_artist_dictionary(&ArtistDictionaryInput {
        artists: vec![DanbooruArtistRecord {
            id: 9,
            name: "deleted_only".into(),
            other_names: Vec::new(),
            is_deleted: true,
            is_banned: false,
        }],
        ..ArtistDictionaryInput::default()
    });

    assert!(entries.is_empty());
}

#[test]
fn active_and_retired_aliases_resolve_to_artist_identity() {
    let input = ArtistDictionaryInput {
        tags: vec![tag(1, "current_name", 17)],
        aliases: vec![
            DanbooruTagAlias {
                id: 1,
                antecedent_name: "old_name".into(),
                consequent_name: "current_name".into(),
                status: "retired".into(),
            },
            DanbooruTagAlias {
                id: 2,
                antecedent_name: "pending_name".into(),
                consequent_name: "current_name".into(),
                status: "pending".into(),
            },
        ],
        ..ArtistDictionaryInput::default()
    };

    let entries = build_artist_dictionary(&input);
    let old = entries
        .iter()
        .find(|entry| entry.match_name == "old_name")
        .unwrap();
    assert_eq!(old.canonical_name, "current_name");
    assert_eq!(old.post_count, 17);
    assert!(
        !entries
            .iter()
            .any(|entry| entry.match_name == "pending_name")
    );
}

#[test]
fn alias_chain_reaches_the_final_artist_identity() {
    let input = ArtistDictionaryInput {
        tags: vec![tag(1, "middle_name", 2), tag(2, "current_name", 17)],
        aliases: vec![
            DanbooruTagAlias {
                id: 1,
                antecedent_name: "old_name".into(),
                consequent_name: "middle_name".into(),
                status: "retired".into(),
            },
            DanbooruTagAlias {
                id: 2,
                antecedent_name: "middle_name".into(),
                consequent_name: "current_name".into(),
                status: "active".into(),
            },
        ],
        ..ArtistDictionaryInput::default()
    };

    let entries = build_artist_dictionary(&input);
    let old = entries
        .iter()
        .find(|entry| entry.match_name == "old_name")
        .unwrap();
    assert_eq!(old.canonical_name, "current_name");
    assert_eq!(old.post_count, 17);
}

#[test]
fn entries_come_out_in_key_order_with_trimmed_lowercased_keys() {
    let input = ArtistDictionaryInput {
        tags: vec![
            tag(1, "  Zeta ", 3),
            tag(2, "alpha", 5),
            DanbooruArtistTag {
                id: 3,
                name: "general_tag".into(),
                post_count: 100,
                category: 0,
                is_deprecated: false,
            },
            tag(4, "   ", 1),
        ],
        ..ArtistDictionaryInput::default()
    };
    let entries = build_artist_dictionary(&input);
    let names: Vec<&str> = entries.iter().map(|e| e.match_name.as_str()).collect();
    assert_eq!(names, vec!["alpha", "zeta"]);
    assert_eq!(entries[1].display_name, "Zeta");
    assert_eq!(entries[1].source_mask, 1);
}

#[test]
fn two_artists_claiming_a_name_make_it_ambiguous_and_busier_wins() {
    let input = ArtistDictionaryInput {
        tags: vec![tag(1, "first", 10), tag(2, "second", 50)],
        artists: vec![
            DanbooruArtistRecord {
                id: 2,
                name: "second".into(),
                other_names: vec!["shared".into()],
                is_deleted: false,
                is_banned: false,
            },
            DanbooruArtistRecord {
                id: 1,
                name: "first".into(),
                other_names: vec!["shared".into()],
                is_deleted: false,
                is_banned: true,
            },
        ],
        aliases: Vec::new(),
    };
    let entries = build_artist_dictionary(&input);
    let shared = entries.iter().find(|e| e.match_name == "shared").unwrap();
    assert!(shared.is_ambiguous);
    assert_eq!(shared.canonical_name, "second");
    assert!(!shared.is_banned);
    assert_eq!(shared.post_count, 50);
    assert_eq!(shared.source_mask, 4);
}

#[test]
fn alias_cycle_and_alias_to_unknown_name_are_dropped() {
    let alias = |id: i64, a: &str, c: &str, status: &str| DanbooruTagAlias {
        id,
        antecedent_name: a.into(),
        consequent_name: c.into(),
        status: status.into(),
    };
    let input = ArtistDictionaryInput {
        tags: vec![tag(1, "real", 4)],
        aliases: vec![
            alias(1, "a", "b", "ACTIVE"),
            alias(2, "b", "a", "active"),
            alias(3, "ghost", "nowhere", "active"),
            alias(4, "kept", "real", "active"),
            alias(5, "kept", "nowhere", "retired"),
        ],
        ..ArtistDictionaryInput::default()
    };
    let entries = build_artist_dictionary(&input);
    let names: Vec<&str> = entries.iter().map(|e| e.match_name.as_str()).collect();
    assert_eq!(names, vec!["kept", "real"]);
    assert_eq!(entries[0].source_mask, 8);
    assert_eq!(entries[0].canonical_name, "real");
    assert_eq!(entries[0].display_name, "kept");
}

#[test]
fn artist_record_order_does_not_change_the_dictionary() {
    let record = |id: i64, name: &str, others: &[&str], deleted: bool, banned: bool| {
        DanbooruArtistRecord {
            id,
            name: name.into(),
            other_names: others.iter().map(|n| n.to_string()).collect(),
            is_deleted: deleted,
            is_banned: banned,
        }
    };
    let records = vec![
        record(7, "second", &["shared", "alt_two"], false, false),
        record(3, "first", &["shared"], false, true),
        record(11, "gone", &["old_name"], true, false),
        record(5, "third", &["shared", "alt_three"], false, false),
    ];
    let mut reversed = records.clone();
    reversed.reverse();
    let tags = vec![tag(1, "first", 10), tag(2, "second", 50), tag(3, "third", 20)];
    let forward = build_artist_dictionary(&ArtistDictionaryInput {
        tags: tags.clone(),
        artists: records,
        aliases: Vec::new(),
    });
    let backward = build_artist_dictionary(&ArtistDictionaryInput {
        tags,
        artists: reversed,
        aliases: Vec::new(),
    });
    assert_eq!(forward, backward);
    let shared = forward.iter().find(|e| e.match_name == "shared").unwrap();
    assert!(shared.is_ambiguous);
    assert_eq!(shared.canonical_name, "second");
}
