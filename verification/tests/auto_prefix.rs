use prompt_library::quick_edit::QuickEditError;
use prompt_library::auto_prefix::{
    check_artist_selection,
    fragment_names, library_confirmed_names, matching_library_artist_names, prompt_fragments,
};

fn strings(values: &[&str]) -> Vec<String> {
    values.iter().map(|value| value.to_string()).collect()
}

#[test]
fn prompt_fragments_split_on_commas_and_line_breaks_only() {
    assert_eq!(
        prompt_fragments("a, b\nc\r\nd，e"),
        strings(&["a", " b", "c", "", "d，e"])
    );
    assert_eq!(prompt_fragments(""), strings(&[""]));
    assert_eq!(prompt_fragments(",,"), strings(&["", "", ""]));
}

#[test]
fn fragment_names_are_a_sorted_set_of_what_fragments_yield() {
    let found = vec![
        Some("parsley_f".to_string()),
        None,
        Some("alice".to_string()),
        Some("parsley_f".to_string()),
        None,
    ];
    assert_eq!(fragment_names(&found), strings(&["alice", "parsley_f"]));
    assert!(fragment_names(&vec![None, None]).is_empty());
}

#[test]
fn bare_names_need_library_evidence_to_match() {
    let confirmed = library_confirmed_names(&vec![
        strings(&["parsley_f"]),
        strings(&[]),
        strings(&["bob", "parsley_f"]),
    ]);
    assert_eq!(confirmed, strings(&["bob", "parsley_f"]));
    let bare = strings(&["1girl", "parsley_f", "solo"]);
    assert_eq!(matching_library_artist_names(&bare, &confirmed), strings(&["parsley_f"]));
    assert!(matching_library_artist_names(&bare, &strings(&[])).is_empty());
}

#[test]
fn artist_selection_must_be_present_and_confirmed() {
    assert!(matches!(
        check_artist_selection(&strings(&[" ", ""]), &strings(&["bob"])),
        Err(QuickEditError::EmptyArtistSelection)
    ));
    match check_artist_selection(&strings(&[" Parsley_F ", "zed", "bob", "Bob"]), &strings(&["parsley_f"])) {
        Err(QuickEditError::UnknownArtistNames(names)) => assert_eq!(names, strings(&["bob", "zed"])),
        other => panic!("unexpected {other:?}"),
    }
    assert_eq!(
        check_artist_selection(&strings(&["Parsley_F", "parsley_f ", " "]), &strings(&["x", "parsley_f"])).unwrap(),
        strings(&["parsley_f"])
    );
}
