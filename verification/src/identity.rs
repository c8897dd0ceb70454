//! Row identity keys: the key under which an incremental import decides that
//! an image is already in the library. A path is trimmed, `/` becomes `\`,
//! and ASCII letters are lower-cased.
use vstd::prelude::*;

use crate::text::{append_chars, ascii_lower, ascii_lower_char, chars_of, is_white_space, string_of, trim, trim_chars};

verus! {

/// One character of a normalised path.
pub open spec fn path_char(c: char) -> char {
    ascii_lower(if c == '/' { '\\' } else { c })
}

/// A path as it takes part in an identity key.
pub open spec fn normalized_path(path: Seq<char>) -> Seq<char> {
    trim(path).map_values(|c: char| path_char(c))
}

pub open spec fn file_prefix() -> Seq<char> {
    seq!['f', 'i', 'l', 'e', ':']
}

pub open spec fn archive_prefix() -> Seq<char> {
    seq!['a', 'r', 'c', 'h', 'i', 'v', 'e', ':']
}

/// The identity key of a file from a folder or a single PNG.
pub open spec fn file_identity_spec(path: Seq<char>) -> Seq<char> {
    file_prefix() + normalized_path(path)
}

/// The identity key of an image inside an archive.
pub open spec fn archive_identity_spec(archive: Seq<char>, member: Seq<char>) -> Seq<char> {
    archive_prefix() + normalized_path(archive) + seq!['!'] + normalized_path(member)
}

/// Trims `path`, turns `/` into `\` and lower-cases ASCII letters.
pub fn normalize_path_text(path: &str) -> (r: Vec<char>)
    ensures
        r@ == normalized_path(path@),
{
    let chars = chars_of(path);
    let t = trim_chars(&chars);
    let mut r: Vec<char> = Vec::new();
    let mut i: usize = 0;
    while i < t.len()
        invariant
            t@ == trim(path@),
            i <= t.len(),
            r@ == t@.take(i as int).map_values(|c: char| path_char(c)),
        decreases t.len() - i,
    {
        let c = t[i];
        let d = if c == '/' { '\\' } else { c };
        r.push(ascii_lower_char(d));
        i = i + 1;
        assert(r@ =~= t@.take(i as int).map_values(|c: char| path_char(c)));
    }
    assert(t@.take(t.len() as int) =~= t@);
    r
}

/// Identity key of a file from a folder or a single PNG: `file:` followed by
/// the normalised path.
pub fn file_identity(path: &str) -> (r: String)
    ensures
        r@ == file_identity_spec(path@),
{
    let mut out: Vec<char> = Vec::new();
    out.push('f');
    out.push('i');
    out.push('l');
    out.push('e');
    out.push(':');
    assert(out@ =~= file_prefix());
    let p = normalize_path_text(path);
    append_chars(&mut out, &p);
    string_of(&out)
}

/// Identity key of an image inside an archive: `archive:`, the normalised
/// archive path, `!`, and the normalised member path.
pub fn archive_member_identity(archive_path: &str, member_path: &str) -> (r: String)
    ensures
        r@ == archive_identity_spec(archive_path@, member_path@),
{
    let mut out: Vec<char> = Vec::new();
    out.push('a');
    out.push('r');
    out.push('c');
    out.push('h');
    out.push('i');
    out.push('v');
    out.push('e');
    out.push(':');
    assert(out@ =~= archive_prefix());
    let a = normalize_path_text(archive_path);
    append_chars(&mut out, &a);
    out.push('!');
    let m = normalize_path_text(member_path);
    append_chars(&mut out, &m);
    string_of(&out)
}

/// Normalising a normalised path changes nothing.
pub proof fn lemma_normalized_path_idempotent(path: Seq<char>)
    ensures
        normalized_path(normalized_path(path)) == normalized_path(path),
{
    let t = trim(path);
    let n = normalized_path(path);
    crate::text::lemma_trim_shape(path);
    assert forall|c: char| is_white_space(path_char(c)) == is_white_space(c) by {}
    if n.len() > 0 {
        assert(n[0] == path_char(t[0]));
        assert(n.last() == path_char(t.last()));
    }
    crate::text::lemma_trim_start_of_non_ws(n);
    crate::text::lemma_trim_end_of_non_ws(n);
    assert(trim(n) == n);
    assert(n.map_values(|c: char| path_char(c)) =~= n);
}

/// Two files get the same identity exactly when their normalised paths agree.
pub proof fn lemma_file_identity_injective(a: Seq<char>, b: Seq<char>)
    ensures
        (file_identity_spec(a) == file_identity_spec(b)) == (normalized_path(a) == normalized_path(b)),
{
    if file_identity_spec(a) == file_identity_spec(b) {
        assert(normalized_path(a) =~= file_identity_spec(a).skip(5));
        assert(normalized_path(b) =~= file_identity_spec(b).skip(5));
    }
}

/// A file identity never equals an archive-member identity.
pub proof fn lemma_file_and_archive_identities_differ(p: Seq<char>, a: Seq<char>, m: Seq<char>)
    ensures
        file_identity_spec(p) != archive_identity_spec(a, m),
{
    assert(file_identity_spec(p)[0] == 'f');
    assert(archive_identity_spec(a, m)[0] == 'a');
}

} // verus!
