//! Bundled artist dictionary snapshots: gzip-compressed text whose first
//! line is a header and whose other non-empty lines are dictionary entries,
//! read line by line as a line reader over the decompressing stream yields
//! them.
use vstd::prelude::*;

use crate::errors::DatabaseError;
use crate::text::{chars_of, string_of, string_views};

verus! {

/// What decoding `data` with flate2's `GzDecoder` and reading it to the end
/// gives: the bytes decoded before reading stopped, and whether it stopped
/// on an error.
pub uninterp spec fn gunzipped(data: Seq<u8>) -> (Seq<u8>, bool);

/// Decodes `data` with `flate2::read::GzDecoder`, read to the end with
/// `Read::read_to_end`, which keeps the bytes read before an error. What it
/// gives is named by `gunzipped`; on an error the reader's error text comes
/// with it, and what that text says is not stated.
#[verifier::external_body]
fn gunzip(data: &Vec<u8>) -> (r: (Vec<u8>, Option<String>))
    ensures
        (r.0@, r.1 is Some) == gunzipped(data@),
{
    let mut out = Vec::new();
    let failure = match std::io::Read::read_to_end(&mut flate2::read::GzDecoder::new(data.as_slice()), &mut out) {
        Ok(_) => None,
        Err(error) => Some(error.to_string()),
    };
    (out, failure)
}

/// Decodes `bytes` with `std::str::from_utf8`: `Some` exactly when they are
/// valid UTF-8, holding the characters they encode.
#[verifier::external_body]
fn utf8_text(bytes: &Vec<u8>) -> (r: Option<String>)
    ensures
        r is Some <==> vstd::utf8::valid_utf8(bytes@),
        r matches Some(s) ==> s@ == vstd::utf8::decode_utf8(bytes@),
{
    match std::str::from_utf8(bytes.as_slice()) {
        Ok(text) => Some(text.to_owned()),
        Err(_) => None,
    }
}

/// The pieces of `s` between line feeds (byte 10), as `split` yields them.
pub open spec fn byte_lines(s: Seq<u8>) -> Seq<Seq<u8>>
    decreases s.len(),
{
    if s.len() == 0 {
        seq![Seq::<u8>::empty()]
    } else {
        let r = byte_lines(s.drop_last());
        if s.last() == 10u8 {
            r.push(Seq::<u8>::empty())
        } else {
            r.update(r.len() - 1, r.last().push(s.last()))
        }
    }
}

proof fn lemma_byte_lines_nonempty(s: Seq<u8>)
    ensures
        byte_lines(s).len() >= 1,
    decreases s.len(),
{
    if s.len() > 0 {
        lemma_byte_lines_nonempty(s.drop_last());
    }
}

/// A line that ended in a line feed, without a carriage return (byte 13)
/// just before that line feed.
pub open spec fn without_cr(line: Seq<u8>) -> Seq<u8> {
    if line.len() > 0 && line.last() == 13u8 {
        line.drop_last()
    } else {
        line
    }
}

/// The lines a line reader yields from a stream that gives `text` and then
/// ends, or breaks when `broken`: every piece that ended in a line feed,
/// without its line end; then, when the stream ends, the last piece if it is
/// not empty. A broken stream yields its break after the ended lines.
pub open spec fn stream_lines(text: Seq<u8>, broken: bool) -> Seq<Seq<u8>> {
    let parts = byte_lines(text);
    let ended = parts.drop_last().map_values(|l: Seq<u8>| without_cr(l));
    if broken || parts.last().len() == 0 {
        ended
    } else {
        ended.push(parts.last())
    }
}

/// The index of the first of `lines` from `from` on that is not UTF-8; the
/// number of lines when there is none.
pub open spec fn first_not_utf8(lines: Seq<Seq<u8>>, from: int) -> int
    decreases lines.len() - from,
{
    if from < 0 || from >= lines.len() {
        lines.len() as int
    } else if !vstd::utf8::valid_utf8(lines[from]) {
        from
    } else {
        first_not_utf8(lines, from + 1)
    }
}

/// The non-empty texts of `lines`, in order.
pub open spec fn nonempty_texts(lines: Seq<Seq<char>>) -> Seq<Seq<char>>
    decreases lines.len(),
{
    if lines.len() == 0 {
        Seq::empty()
    } else if lines.last().len() == 0 {
        nonempty_texts(lines.drop_last())
    } else {
        nonempty_texts(lines.drop_last()).push(lines.last())
    }
}

/// What a snapshot yields before its header is parsed: the header line, the
/// non-empty entry lines read in order, and the failure that stopped the
/// reading after them, if any.
#[derive(Debug, Clone, PartialEq, Eq)]
pub struct SnapshotText {
    pub header: String,
    pub entries: Vec<String>,
    pub failure: Option<String>,
}

/// The texts that `lines` encode.
pub open spec fn decoded_lines(lines: Seq<Seq<u8>>) -> Seq<Seq<char>> {
    lines.map_values(|l: Seq<u8>| vstd::utf8::decode_utf8(l))
}

/// The message a line reader gives for a line that is not UTF-8.
pub open spec fn not_utf8_message() -> Seq<char> {
    "stream did not contain valid UTF-8"@
}

/// What reading a snapshot stream that gives `text` and then ends (when
/// `failure` is `None`) or breaks with message `failure` yields, line by
/// line: no line at all is the break's error, or the missing-header error;
/// a header that is not UTF-8 is the UTF-8 error; otherwise the header, the
/// non-empty entry lines before the first line that is not UTF-8, and the
/// failure after them: the UTF-8 error at such a line, else the break.
pub open spec fn snapshot_read(text: Seq<u8>, failure: Option<Seq<char>>, r: Result<SnapshotText, DatabaseError>) -> bool {
    let lines = stream_lines(text, failure is Some);
    let k = first_not_utf8(lines, 0);
    if lines.len() == 0 {
        match failure {
            Some(m) => r matches Err(DatabaseError::InvalidBundledArtistDictionary(e)) && e@ == m,
            None => r matches Err(DatabaseError::InvalidBundledArtistDictionary(e)) && e@ == "缺少快照头"@,
        }
    } else if k == 0 {
        r matches Err(DatabaseError::InvalidBundledArtistDictionary(e)) && e@ == not_utf8_message()
    } else {
        &&& r matches Ok(s)
        &&& r->Ok_0.header@ == vstd::utf8::decode_utf8(lines[0])
        &&& string_views(r->Ok_0.entries@) == nonempty_texts(decoded_lines(lines.subrange(1, k)))
        &&& (k < lines.len() ==> (r->Ok_0.failure matches Some(e) && e@ == not_utf8_message()))
        &&& (k == lines.len() ==> match failure {
            Some(m) => r->Ok_0.failure matches Some(e) && e@ == m,
            None => r->Ok_0.failure is None,
        })
    }
}

/// The pieces of `text` between line feeds.
fn split_bytes(text: &Vec<u8>) -> (r: Vec<Vec<u8>>)
    ensures
        r@.map_values(|l: Vec<u8>| l@) == byte_lines(text@),
{
    let mut done: Vec<Vec<u8>> = Vec::new();
    let mut cur: Vec<u8> = Vec::new();
    let mut i: usize = 0;
    assert(text@.take(0) =~= Seq::<u8>::empty());
    assert(done@.map_values(|l: Vec<u8>| l@).push(cur@) =~= byte_lines(text@.take(0)));
    while i < text.len()
        invariant
            i <= text.len(),
            done@.map_values(|l: Vec<u8>| l@).push(cur@) == byte_lines(text@.take(i as int)),
        decreases text.len() - i,
    {
        let b = text[i];
        assert(text@.take(i + 1).drop_last() =~= text@.take(i as int));
        assert(text@.take(i + 1).last() == b);
        proof {
            lemma_byte_lines_nonempty(text@.take(i as int));
        }
        let ghost before = done@.map_values(|l: Vec<u8>| l@);
        if b == 10u8 {
            let ghost old_cur = cur@;
            let finished = cur;
            cur = Vec::new();
            done.push(finished);
            assert(done@.map_values(|l: Vec<u8>| l@) =~= before.push(old_cur));
        } else {
            cur.push(b);
            assert(done@.map_values(|l: Vec<u8>| l@) =~= before);
        }
        assert(done@.map_values(|l: Vec<u8>| l@).push(cur@) =~= byte_lines(text@.take(i + 1)));
        i = i + 1;
    }
    assert(text@.take(text.len() as int) =~= text@);
    let ghost before = done@.map_values(|l: Vec<u8>| l@);
    let ghost last = cur@;
    done.push(cur);
    assert(done@.map_values(|l: Vec<u8>| l@) =~= before.push(last));
    done
}

/// The lines a line reader yields from `text` (see `stream_lines`).
fn line_bytes(text: &Vec<u8>, broken: bool) -> (r: Vec<Vec<u8>>)
    ensures
        r@.map_values(|l: Vec<u8>| l@) == stream_lines(text@, broken),
{
    let parts = split_bytes(text);
    let ghost pv = parts@.map_values(|l: Vec<u8>| l@);
    proof {
        lemma_byte_lines_nonempty(text@);
    }
    let n = parts.len();
    let mut lines: Vec<Vec<u8>> = Vec::new();
    let mut i: usize = 0;
    while i + 1 < n
        invariant
            n == parts.len(),
            n >= 1,
            i + 1 <= n,
            pv == parts@.map_values(|l: Vec<u8>| l@),
            lines@.map_values(|l: Vec<u8>| l@) == pv.drop_last().take(i as int).map_values(|l: Seq<u8>| without_cr(l)),
        decreases n - i,
    {
        let part = &parts[i];
        assert(part@ == pv[i as int]);
        let end: usize = if part.len() > 0 && part[part.len() - 1] == 13u8 {
            part.len() - 1
        } else {
            part.len()
        };
        let mut line: Vec<u8> = Vec::new();
        let mut k: usize = 0;
        while k < end
            invariant
                end <= part.len(),
                k <= end,
                line@ == part@.take(k as int),
            decreases end - k,
        {
            line.push(part[k]);
            k = k + 1;
            assert(line@ =~= part@.take(k as int));
        }
        assert(line@ =~= without_cr(part@));
        let ghost before = lines@.map_values(|l: Vec<u8>| l@);
        lines.push(line);
        assert(lines@.map_values(|l: Vec<u8>| l@) =~= before.push(without_cr(pv[i as int])));
        i = i + 1;
        assert(pv.drop_last().take(i as int).map_values(|l: Seq<u8>| without_cr(l)) =~= before.push(
            without_cr(pv[i - 1]),
        ));
    }
    assert(pv.drop_last().take(i as int) =~= pv.drop_last());
    let last = &parts[n - 1];
    assert(last@ == pv.last());
    if !broken && last.len() > 0 {
        let ghost before = lines@.map_values(|l: Vec<u8>| l@);
        let mut copy: Vec<u8> = Vec::new();
        let mut k: usize = 0;
        while k < last.len()
            invariant
                k <= last.len(),
                copy@ == last@.take(k as int),
            decreases last.len() - k,
        {
            copy.push(last[k]);
            k = k + 1;
            assert(copy@ =~= last@.take(k as int));
        }
        assert(copy@ =~= last@);
        lines.push(copy);
        assert(lines@.map_values(|l: Vec<u8>| l@) =~= before.push(pv.last()));
    }
    lines
}

/// Reads a decompressed snapshot stream that gave `text` and then ended, or
/// broke with the message in `failure` (see `snapshot_read`).
pub fn read_snapshot(text: &Vec<u8>, failure: Option<String>) -> (r: Result<SnapshotText, DatabaseError>)
    ensures
        snapshot_read(
            text@,
            match failure {
                Some(m) => Some(m@),
                None => None,
            },
            r,
        ),
{
    let lines = line_bytes(text, failure.is_some());
    let ghost lv = lines@.map_values(|l: Vec<u8>| l@);
    let n = lines.len();
    if n == 0 {
        return match failure {
            Some(m) => Err(DatabaseError::InvalidBundledArtistDictionary(m)),
            None => Err(DatabaseError::InvalidBundledArtistDictionary(string_of(&chars_of("缺少快照头")))),
        };
    }
    assert(lines@[0]@ == lv[0]);
    let header = match utf8_text(&lines[0]) {
        Some(h) => h,
        None => {
            return Err(
                DatabaseError::InvalidBundledArtistDictionary(string_of(&chars_of("stream did not contain valid UTF-8"))),
            );
        },
    };
    let mut entries: Vec<String> = Vec::new();
    let mut j: usize = 1;
    while j < n
        invariant
            1 <= j <= n,
            n == lines.len(),
            lv == lines@.map_values(|l: Vec<u8>| l@),
            first_not_utf8(lv, 0) == first_not_utf8(lv, j as int),
            lv.len() == n,
            lv == stream_lines(text@, failure is Some),
            vstd::utf8::valid_utf8(lv[0]),
            header@ == vstd::utf8::decode_utf8(lv[0]),
            string_views(entries@) == nonempty_texts(decoded_lines(lv.subrange(1, j as int))),
        decreases n - j,
    {
        assert(lines@[j as int]@ == lv[j as int]);
        assert(decoded_lines(lv.subrange(1, j + 1)) =~= decoded_lines(lv.subrange(1, j as int)).push(
            vstd::utf8::decode_utf8(lv[j as int]),
        ));
        let ghost prev = decoded_lines(lv.subrange(1, j as int));
        let ghost d = vstd::utf8::decode_utf8(lv[j as int]);
        assert(decoded_lines(lv.subrange(1, j + 1)).drop_last() =~= prev);
        assert(decoded_lines(lv.subrange(1, j + 1)).last() == d);
        match utf8_text(&lines[j]) {
            Some(t) => {
                assert(t@ == d);
                if t.as_str().unicode_len() > 0 {
                    let ghost before = string_views(entries@);
                    entries.push(t);
                    assert(string_views(entries@) =~= before.push(d));
                } else {
                    assert(d.len() == 0);
                }
            },
            None => {
                assert(!vstd::utf8::valid_utf8(lv[j as int]));
                assert(first_not_utf8(lv, j as int) == j);
                return Ok(
                    SnapshotText {
                        header,
                        entries,
                        failure: Some(string_of(&chars_of("stream did not contain valid UTF-8"))),
                    },
                );
            },
        }
        j = j + 1;
    }
    Ok(SnapshotText { header, entries, failure })
}

/// Decompresses a bundled snapshot and reads it line by line (see
/// `snapshot_read`); when decompressing breaks, the break comes after the
/// lines decoded before it, with the reader's own message.
pub fn bundled_snapshot(data: &Vec<u8>) -> (r: Result<SnapshotText, DatabaseError>)
    ensures
        !gunzipped(data@).1 ==> snapshot_read(gunzipped(data@).0, None, r),
        gunzipped(data@).1 ==> exists|m: Seq<char>| snapshot_read(gunzipped(data@).0, Some(m), r),
{
    let (text, failure) = gunzip(data);
    let ghost message: Option<Seq<char>> = match &failure {
        Some(m) => Some(m@),
        None => None,
    };
    assert(text@ == gunzipped(data@).0);
    assert(message is Some <==> gunzipped(data@).1);
    let r = read_snapshot(&text, failure);
    assert(snapshot_read(text@, message, r));
    proof {
        if message is Some {
            assert(snapshot_read(gunzipped(data@).0, Some(message->0), r));
        }
    }
    r
}

} // verus!
