use prompt_library::identity::{archive_member_identity, file_identity};

#[test]
fn file_identity_normalizes_case_and_separators() {
    assert_eq!(
        file_identity(r"  D:/图片/Sample IMG.PNG "),
        r"file:d:\图片\sample img.png"
    );
    assert_eq!(
        file_identity(r"D:\图片\sample img.png"),
        file_identity(r"d:/图片/SAMPLE IMG.png")
    );
}

#[test]
fn archive_identity_combines_archive_and_member() {
    assert_eq!(
        archive_member_identity(r"D:\Packs\Set.ZIP", "inner/Image 1.png"),
        r"archive:d:\packs\set.zip!inner\image 1.png"
    );
}

#[test]
fn identity_trims_only_outer_whitespace_and_keeps_non_ascii_case() {
    assert_eq!(file_identity("\t C:/A B/Ä.png \n"), "file:c:\\a b\\Ä.png");
    assert_eq!(file_identity(""), "file:");
    assert_ne!(file_identity("x"), archive_member_identity("x", ""));
}
