use prompt_library::library_filters::{
    append_library_filters, artist_token_expression, compile_filter, normalized_values, FilterArtistOperator,
    FilterGenerationTextField, FilterGroupOperator, FilterImageDimensionField, FilterNoteOperator,
    FilterNumericOperator, FilterParam, FilterTagOperator, FilterTextOperator, FilterVibeOperator, RowFilter,
};

fn texts(params: &[FilterParam]) -> Vec<String> {
    params
        .iter()
        .map(|p| match p {
            FilterParam::Text(s) => format!("T:{s}"),
            FilterParam::Integer(i) => format!("I:{i}"),
            FilterParam::Real { filter, second } => format!("R:{filter}:{second}"),
        })
        .collect()
}

#[test]
fn tag_filters_bind_one_parameter_per_entry() {
    let mut params = vec![FilterParam::Integer(1)];
    let sql = compile_filter(
        &RowFilter::Tag { operator: FilterTagOperator::HasAll, values: vec!["a，b".into(), "a".into()] },
        0,
        &mut params,
    );
    assert_eq!(
        sql,
        "EXISTS (SELECT 1 FROM row_tags JOIN tags ON tags.id = row_tags.tag_id WHERE row_tags.row_id = rows.id AND tags.name = ?2 COLLATE BINARY) AND EXISTS (SELECT 1 FROM row_tags JOIN tags ON tags.id = row_tags.tag_id WHERE row_tags.row_id = rows.id AND tags.name = ?3 COLLATE BINARY)"
    );
    assert_eq!(texts(&params), vec!["I:1", "T:a", "T:b"]);

    let mut params = Vec::new();
    let sql = compile_filter(
        &RowFilter::Tag { operator: FilterTagOperator::HasNone, values: vec!["x, y".into()] },
        0,
        &mut params,
    );
    assert_eq!(
        sql,
        "NOT (EXISTS (SELECT 1 FROM row_tags JOIN tags ON tags.id = row_tags.tag_id WHERE row_tags.row_id = rows.id AND tags.name COLLATE BINARY IN (?1, ?2)))"
    );
    let mut params = Vec::new();
    assert_eq!(
        compile_filter(&RowFilter::Tag { operator: FilterTagOperator::HasAny, values: vec![] }, 0, &mut params),
        "0"
    );
    assert_eq!(
        compile_filter(&RowFilter::Tag { operator: FilterTagOperator::HasAll, values: vec![" ".into()] }, 0, &mut params),
        "1"
    );
    assert!(params.is_empty());
}

#[test]
fn group_and_artist_filters() {
    let mut params = Vec::new();
    let sql = compile_filter(&RowFilter::Group { operator: FilterGroupOperator::IsNot, group_id: Some(4) }, 0, &mut params);
    assert_eq!(sql, "(rows.group_id IS NULL OR rows.group_id != ?1)");
    assert_eq!(texts(&params), vec!["I:4"]);
    assert_eq!(
        compile_filter(&RowFilter::Group { operator: FilterGroupOperator::Is, group_id: None }, 0, &mut params),
        "0"
    );

    let mut params = Vec::new();
    let sql = compile_filter(
        &RowFilter::Artist { operator: FilterArtistOperator::ContainsAny, values: vec![" Artist:Alice ".into()] },
        0,
        &mut params,
    );
    assert_eq!(sql, format!("(INSTR({}, ?1) > 0)", artist_token_expression()));
    assert_eq!(texts(&params), vec!["T:\nalice\n"]);
}

#[test]
fn numeric_and_text_filters_leave_values_to_the_caller() {
    let mut params = Vec::new();
    let sql = compile_filter(
        &RowFilter::ImageDimension { field: FilterImageDimensionField::Width, comparison: FilterNumericOperator::Between },
        3,
        &mut params,
    );
    assert_eq!(sql, "rows.image_width BETWEEN MIN(?1, ?2) AND MAX(?1, ?2)");
    assert_eq!(texts(&params), vec!["R:3:false", "R:3:true"]);
    let sql = compile_filter(
        &RowFilter::Vibe { operator: FilterVibeOperator::Count, comparison: Some(FilterNumericOperator::LessOrEqual) },
        4,
        &mut params,
    );
    assert_eq!(sql, "COALESCE(rows.vibe_reference_count, 0) <= ?3");
    let sql = compile_filter(
        &RowFilter::GenerationText {
            field: FilterGenerationTextField::Model,
            operator: FilterTextOperator::Equals,
            value: " NovelAI ".into(),
            case_sensitive: false,
        },
        5,
        &mut params,
    );
    assert_eq!(sql, "LOWER(COALESCE(rows.generation_model, '')) = ?4");
    let sql = compile_filter(
        &RowFilter::Note { operator: FilterNoteOperator::Contains, value: "Hi".into(), case_sensitive: true },
        6,
        &mut params,
    );
    assert_eq!(sql, "INSTR(COALESCE(rows.note, ''), ?5) > 0");
    assert_eq!(texts(&params)[3..], ["T:novelai".to_owned(), "T:Hi".to_owned()]);
}

#[test]
fn filters_join_with_and_in_order() {
    let mut params = Vec::new();
    let sql = append_library_filters(
        "1".into(),
        &vec![RowFilter::Metadata { parsed: true }, RowFilter::Group { operator: FilterGroupOperator::Is, group_id: Some(2) }],
        &mut params,
    );
    assert_eq!(sql, "((1) AND (rows.metadata_failed = 0)) AND (rows.group_id = ?1)");
    assert_eq!(texts(&params), vec!["I:2"]);
}

#[test]
fn list_values_split_trim_and_dedupe() {
    assert_eq!(normalized_values(&vec![" a ,b".into(), "a\r\nc，d".into()]), vec!["a", "b", "c", "d"]);
}
