use prompt_library::candidate_tally::{tally_candidates, RowNameMatches};
use prompt_library::auto_prefix::{candidate_from_accumulator, normalize_selected_name, CandidateAccumulator};
use prompt_library::query::{
    distinct_artists, filter_predicate, filtered_rows_statement, query_cache_key, DedupeMode, RowPage, RowQuery, TagMatchMode,
};

fn query() -> RowQuery {
    RowQuery {
        offset: 0,
        limit: 50,
        tags: vec![],
        tag_mode: TagMatchMode::And,
        dedupe: DedupeMode::default(),
        single_artist_only: false,
        group_view: true,
        hide_grouped: false,
        search: "  Hu Tao ".into(),
    }
}

#[test]
fn cache_key_lists_every_part_of_the_query() {
    let key = query_cache_key(&query(), &vec!["a\"b".into(), "c".into()]);
    assert_eq!(key, "[\"a\\\"b\", \"c\"]\u{1}And\u{1}None\u{1}false\u{1}true\u{1}false\u{1}hu tao");
    let mut other = query();
    other.dedupe = DedupeMode::Artists;
    other.tag_mode = TagMatchMode::Or;
    assert_eq!(query_cache_key(&other, &vec![]), "[]\u{1}Or\u{1}Artists\u{1}false\u{1}true\u{1}false\u{1}hu tao");
}

#[test]
fn tag_predicates_differ_by_mode() {
    assert!(filter_predicate(TagMatchMode::And).contains("HAVING COUNT(*)"));
    assert!(!filter_predicate(TagMatchMode::Or).contains("HAVING"));
}

#[test]
fn pages_know_whether_rows_remain() {
    let page = RowPage { rows: vec![], total_count: 3, offset: 2, limit: 1 };
    assert!(page.has_more());
    let done = RowPage { rows: vec![], total_count: 2, offset: 2, limit: 1 };
    assert!(!done.has_more());
}

#[test]
fn selected_names_are_trimmed_and_lowercased() {
    assert_eq!(normalize_selected_name("  Parsley_F "), Some("parsley_f".to_owned()));
    assert_eq!(normalize_selected_name("   "), None);
    let candidate = candidate_from_accumulator(CandidateAccumulator {
        match_name: "rourow".into(),
        matched_rows: 2,
        matched_fields: 3,
        last_row_id: Some(9),
        sample_row_ids: vec![4, 9],
    });
    assert_eq!(candidate.display_name, "rourow");
    assert_eq!(candidate.match_name, "rourow");
    assert_eq!((candidate.matched_rows, candidate.matched_fields), (2, 3));
    assert_eq!(candidate.sample_row_ids, vec![4, 9]);
}

#[test]
fn candidates_are_tallied_and_ordered_by_rows_then_name() {
    let row = |id: i64, fields: &[&[&str]]| RowNameMatches {
        id,
        fields: fields.iter().map(|f| f.iter().map(|n| (*n).to_owned()).collect()).collect(),
    };
    let rows = vec![
        row(1, &[&["bob", "alice"], &[], &["alice"]]),
        row(2, &[&["carol"]]),
        row(3, &[&[], &[]]),
        row(4, &[&["bob"]]),
    ];
    let tally = tally_candidates(&rows);
    assert_eq!(tally.matched_rows, 3);
    assert_eq!(tally.prompt_fields_needing_changes, 4);
    let summary: Vec<(String, u64, u64, Vec<i64>)> = tally
        .candidates
        .iter()
        .map(|c| (c.match_name.clone(), c.matched_rows, c.matched_fields, c.sample_row_ids.clone()))
        .collect();
    assert_eq!(
        summary,
        vec![
            ("bob".to_owned(), 2, 2, vec![1, 4]),
            ("alice".to_owned(), 1, 2, vec![1]),
            ("carol".to_owned(), 1, 1, vec![2]),
        ]
    );
    assert!(tally.candidates.iter().all(|c| c.display_name == c.match_name));
}

#[test]
fn candidate_samples_stop_at_twelve_rows() {
    let rows: Vec<RowNameMatches> =
        (1..=15).map(|id| RowNameMatches { id, fields: vec![vec!["x".to_owned()]] }).collect();
    let tally = tally_candidates(&rows);
    assert_eq!(tally.candidates[0].matched_rows, 15);
    assert_eq!(tally.candidates[0].sample_row_ids, (1..=12).collect::<Vec<i64>>());
}

#[test]
fn filtered_rows_statement_composes_predicates() {
    let (sql, param) = filtered_rows_statement("t", TagMatchMode::Or, DedupeMode::Disabled, false, false, true, "  ");
    assert_eq!(param, None);
    assert_eq!(
        sql,
        format!("INSERT INTO t(id)\n                     SELECT rows.id FROM rows WHERE ({}) AND rows.group_id IS NULL", filter_predicate(TagMatchMode::Or))
    );
    let (sql, param) = filtered_rows_statement("t", TagMatchMode::And, DedupeMode::Artists, true, false, false, " Alice ");
    assert_eq!(param.as_deref(), Some("alice"));
    assert!(sql.contains("NULLIF(TRIM(COALESCE(rows.artists, '')), '') AS dedupe_key"));
    assert!(sql.contains("AND INSTR(rows.artists, CHAR(10)) = 0"));
    assert!(sql.contains("INSTR(LOWER(COALESCE(rows.note, '')), ?1) > 0"));
    let (grouped, _) = filtered_rows_statement("t", TagMatchMode::And, DedupeMode::PositivePrompt, false, true, true, "");
    assert!(grouped.contains("GROUP BY rows.group_id"));
    assert!(!grouped.contains("dedupe_key"));
}

#[test]
fn distinct_artists_split_dedupe_and_sort() {
    let stored = vec!["bob\n alice \n".to_owned(), "alice".into(), "Zed\n\n".into(), "  ".into()];
    assert_eq!(distinct_artists(&stored), vec!["Zed", "alice", "bob"]);
    assert!(distinct_artists(&vec![]).is_empty());
}
