use prompt_library::prompt_tokens::{normalize_prompt_token, normalize_rule_prompt_token};

#[test]
fn normalization_keeps_spaces_and_underscores_distinct() {
    assert_eq!(normalize_prompt_token("Hu Tao"), "hu tao");
    assert_eq!(normalize_prompt_token("hu_tao"), "hu_tao");
    assert_eq!(normalize_prompt_token("1.2::{{HUTAO:1.1}}::"), "hutao");
    assert_eq!(normalize_prompt_token("girl"), "girl");
    assert_eq!(normalize_prompt_token("1girl"), "girl");
    assert_eq!(normalize_prompt_token("(1 GIRL:1.2)"), "girl");
}

#[test]
fn rule_tokens_have_no_girl_alias() {
    assert_eq!(normalize_rule_prompt_token("1girl"), "1girl");
    assert_eq!(normalize_rule_prompt_token(" [Blue Eyes] "), "blue eyes");
    assert_eq!(normalize_rule_prompt_token("0.7::(Parsley_F:1.2)::"), "parsley_f");
}

#[test]
fn non_numeric_weights_are_kept() {
    assert_eq!(normalize_prompt_token("artist:alice"), "artist:alice");
    assert_eq!(normalize_prompt_token("abc::def"), "abc::def");
    assert_eq!(normalize_prompt_token("x:1e3"), "x");
    assert_eq!(normalize_prompt_token("x:inf"), "x");
    assert_eq!(normalize_prompt_token("x:."), "x:.");
    assert_eq!(normalize_prompt_token("::x"), "x");
    assert_eq!(normalize_prompt_token("   "), "");
}
