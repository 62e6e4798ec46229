//! How reading depends on the text that is read.
//!
//! Reading looks at lines. Two texts that start alike are read alike, as
//! far as they agree and the lines that are read end among what they agree
//! on. A line feed at the end of the last line changes nothing.

use crate::m3u::grammar::{
    after_header, close, has_header, lemma_record_shrinks, lemma_skip_blank, next_record,
    playlist_songs, skip_blank, songs_of, starts_blank, ParseError, Record, SongView,
};
use crate::text::{
    after_line, first_line, is_closed, lemma_run_len_is_run, lemma_run_len_unique, line_len, trim,
};
use vstd::prelude::*;

verus! {

/// Texts that agree on their first `k` characters agree on each of them.
proof fn lemma_agree_at(s: Seq<char>, t: Seq<char>, k: int, i: int)
    requires
        0 <= i < k <= s.len(),
        k <= t.len(),
        s.take(k) == t.take(k),
    ensures
        s[i] == t[i],
{
    assert(s.take(k)[i] == s[i]);
}

/// Texts that agree on their first `k` characters agree, after their first
/// `a` characters, on the next `k - a`.
proof fn lemma_agree_after(s: Seq<char>, t: Seq<char>, k: int, a: int)
    requires
        0 <= a <= k <= s.len(),
        k <= t.len(),
        s.take(k) == t.take(k),
    ensures
        s.skip(a).take(k - a) == t.skip(a).take(k - a),
        k - a > 0 ==> s.skip(a).take(k - a).last() == s.take(k).last(),
{
    let x = s.skip(a).take(k - a);
    let y = t.skip(a).take(k - a);
    assert forall|i: int| 0 <= i < k - a implies #[trigger] x[i] == y[i] by {
        lemma_agree_at(s, t, k, i + a);
    }
}

/// Two texts that agree on their first `k` characters, the line feed of the
/// first line among them, have the same first line.
pub proof fn lemma_line_agrees(s: Seq<char>, t: Seq<char>, k: int)
    requires
        0 <= k <= s.len(),
        k <= t.len(),
        s.take(k) == t.take(k),
        line_len(s) < k,
    ensures
        line_len(t) == line_len(s),
        first_line(t) == first_line(s),
        s[line_len(s) as int] == '\n',
        after_line(s) == s.skip(line_len(s) as int + 1),
        after_line(t) == t.skip(line_len(s) as int + 1),
{
    let p = |c: char| c != '\n';
    let n = line_len(s) as int;
    lemma_run_len_is_run(s, p);
    assert forall|i: int| 0 <= i <= n implies t[i] == s[i] by {
        lemma_agree_at(s, t, k, i);
    }
    lemma_run_len_unique(t, p, n);
}

/// In a text whose first `k` characters are closed, a line feed ends the
/// first line among them.
pub proof fn lemma_closed_prefix_has_line(s: Seq<char>, k: int)
    requires
        0 < k <= s.len(),
        is_closed(s.take(k)),
    ensures
        line_len(s) < k,
{
    let p = |c: char| c != '\n';
    lemma_run_len_is_run(s, p);
}

/// Two texts that agree on their first `k` characters, which are closed,
/// have their first line that is not blank at the same place, if one of
/// these `k` characters belongs to it. Else all lines among the `k`
/// characters are blank.
pub proof fn lemma_skip_blank_agrees(s: Seq<char>, t: Seq<char>, k: int)
    requires
        0 <= k <= s.len(),
        k <= t.len(),
        s.take(k) == t.take(k),
        is_closed(s.take(k)),
    ensures
        s.len() - skip_blank(s).len() < k ==> skip_blank(t) == t.skip(
            s.len() - skip_blank(s).len(),
        ),
        s.len() - skip_blank(s).len() >= k ==> skip_blank(s) == skip_blank(s.skip(k))
            && skip_blank(t) == skip_blank(t.skip(k)),
    decreases s.len(),
{
    lemma_skip_blank(s);
    if k == 0 {
        assert(s.skip(0) == s);
        assert(t.skip(0) == t);
    } else {
        lemma_closed_prefix_has_line(s, k);
        lemma_line_agrees(s, t, k);
        let n = line_len(s) as int;
        if starts_blank(s) {
            let s1 = after_line(s);
            let t1 = after_line(t);
            let k1 = k - n - 1;
            lemma_agree_after(s, t, k, n + 1);
            lemma_skip_blank_agrees(s1, t1, k1);
            lemma_skip_blank(s1);
            let j1 = s1.len() - skip_blank(s1).len();
            if j1 >= k1 {
                assert(s1.skip(k1) == s.skip(k));
                assert(t1.skip(k1) == t.skip(k));
            }
        }
    }
}

/// What is left after a song's record that is followed by more text starts
/// right after a line feed.
pub proof fn lemma_record_ends_line(s: Seq<char>)
    requires
        next_record(s) is Song,
        next_record(s)->rest.len() > 0,
    ensures
        0 < s.len() - next_record(s)->rest.len() <= s.len(),
        is_closed(s.take(s.len() - next_record(s)->rest.len())),
{
    lemma_skip_blank(s);
    let r = skip_blank(s);
    let x = if trim(first_line(r))[0] != '#' {
        r
    } else {
        skip_blank(after_line(r))
    };
    if trim(first_line(r))[0] == '#' {
        lemma_skip_blank(after_line(r));
    }
    lemma_run_len_is_run(x, |c: char| c != '\n');
    // x is a suffix of s that ends where s ends
    assert(x == s.skip(s.len() - x.len()));
}

/// Two texts that agree on their first `k` characters, which are closed,
/// start with the same song, if its record lies among these characters.
#[verifier::rlimit(40)]
pub proof fn lemma_record_agrees(s: Seq<char>, t: Seq<char>, k: int)
    requires
        0 <= k <= s.len(),
        k <= t.len(),
        s.take(k) == t.take(k),
        is_closed(s.take(k)),
        next_record(s) is Song,
        s.len() - next_record(s)->rest.len() <= k,
    ensures
        next_record(t) == (Record::Song {
            song: next_record(s)->song,
            rest: t.skip(s.len() - next_record(s)->rest.len()),
        }),
{
    let rest = next_record(s)->rest;
    let used = s.len() - rest.len();
    lemma_skip_blank(s);
    let r = skip_blank(s);
    let j = s.len() - r.len();
    if trim(first_line(r))[0] == '#' {
        lemma_skip_blank(after_line(r));
    }
    lemma_skip_blank_agrees(s, t, k);
    let rt = t.skip(j);
    let kr = k - j;
    lemma_agree_after(s, t, k, j);
    lemma_closed_prefix_has_line(r, kr);
    lemma_line_agrees(r, rt, kr);
    let n = line_len(r) as int;
    if trim(first_line(r))[0] != '#' {
        assert(rt.skip(n + 1) == t.skip(used));
    } else {
        let m = after_line(r);
        let mt = after_line(rt);
        let a = j + n + 1;
        assert(m == s.skip(a));
        assert(mt == t.skip(a));
        let r2 = skip_blank(m);
        let j2 = m.len() - r2.len();
        let km = k - a;
        lemma_agree_after(s, t, k, a);
        lemma_skip_blank_agrees(m, mt, km);
        let r2t = mt.skip(j2);
        let k2 = km - j2;
        lemma_agree_after(m, mt, km, j2);
        lemma_closed_prefix_has_line(r2, k2);
        lemma_line_agrees(r2, r2t, k2);
        let n2 = line_len(r2) as int;
        assert(r2t.skip(n2 + 1) == t.skip(used));
    }
}

/// `songs` before what reading `tail` gives.
pub open spec fn songs_then(
    songs: Seq<SongView>,
    tail: Result<Seq<SongView>, ParseError>,
) -> Result<Seq<SongView>, ParseError> {
    match tail {
        Ok(more) => Ok(songs + more),
        Err(error) => Err(error),
    }
}

/// A text that starts with a song's record holds that song and then the
/// songs of the rest.
pub proof fn lemma_songs_unfold(s: Seq<char>)
    ensures
        next_record(s) is End ==> songs_of(s) == Ok::<Seq<SongView>, ParseError>(Seq::empty()),
        next_record(s) matches Record::Malformed { error } ==> songs_of(s) == Err::<
            Seq<SongView>,
            ParseError,
        >(error),
        next_record(s) matches Record::Song { song, rest } ==> songs_of(s) == songs_then(
            seq![song],
            songs_of(rest),
        ),
{
}

/// Reading a closed text and then another is reading the two as one: the
/// songs of `a + b` are those of `a` and then those of `b`.
#[verifier::rlimit(40)]
pub proof fn lemma_songs_of_concat(a: Seq<char>, b: Seq<char>)
    requires
        is_closed(a),
        songs_of(a) is Ok,
    ensures
        songs_of(a + b) == songs_then(songs_of(a)->Ok_0, songs_of(b)),
    decreases a.len(),
{
    assert((a + b).take(a.len() as int) == a);
    assert(a.take(a.len() as int) == a);
    assert((a + b).skip(a.len() as int) == b);
    match next_record(a) {
        Record::End => {
            lemma_skip_blank_agrees(a, a + b, a.len() as int);
        },
        Record::Malformed { error } => {},
        Record::Song { song, rest } => {
            lemma_record_shrinks(a);
            lemma_record_agrees(a, a + b, a.len() as int);
            let used = a.len() - rest.len();
            assert((a + b).skip(used) == rest + b);
            lemma_songs_of_concat(rest, b);
            match songs_of(b) {
                Ok(more) => {
                    assert(seq![song] + (songs_of(rest)->Ok_0 + more) == (seq![song] + songs_of(
                        rest,
                    )->Ok_0) + more);
                },
                Err(_) => {},
            }
        },
    }
}

/// Two texts that agree on their first `k` characters, which are closed,
/// have the same header, if it lies among these characters.
pub proof fn lemma_header_agrees(s: Seq<char>, t: Seq<char>, k: int)
    requires
        0 <= k <= s.len(),
        k <= t.len(),
        s.take(k) == t.take(k),
        is_closed(s.take(k)),
        has_header(s),
        s.len() - after_header(s).len() <= k,
    ensures
        has_header(t),
        after_header(t) == t.skip(s.len() - after_header(s).len()),
{
    lemma_skip_blank(s);
    let r = skip_blank(s);
    let j = s.len() - r.len();
    lemma_skip_blank_agrees(s, t, k);
    let rt = t.skip(j);
    lemma_agree_after(s, t, k, j);
    lemma_closed_prefix_has_line(r, k - j);
    lemma_line_agrees(r, rt, k - j);
}

/// What is left after a header that is followed by more text starts right
/// after a line feed.
pub proof fn lemma_header_ends_line(s: Seq<char>)
    requires
        has_header(s),
        after_header(s).len() > 0,
    ensures
        0 < s.len() - after_header(s).len() <= s.len(),
        is_closed(s.take(s.len() - after_header(s).len())),
        after_header(s) == s.skip(s.len() - after_header(s).len()),
{
    lemma_skip_blank(s);
    let r = skip_blank(s);
    lemma_run_len_is_run(r, |c: char| c != '\n');
}

/// A text that is made of records has no header.
pub proof fn lemma_songs_have_no_header(s: Seq<char>)
    requires
        songs_of(s) is Ok,
    ensures
        !has_header(s),
{
}

/// A line feed at the end of a text whose last line has none changes
/// neither the first line nor, but for that line feed, what follows it.
proof fn lemma_close_line(s: Seq<char>)
    requires
        !is_closed(s),
    ensures
        first_line(close(s)) == first_line(s),
        after_line(close(s)) == close(after_line(s)),
        after_line(s).len() < s.len(),
{
    let c = s.push('\n');
    let p = |c: char| c != '\n';
    lemma_run_len_is_run(s, p);
    let n = line_len(s) as int;
    if n < s.len() {
        assert(c.take(s.len() as int) == s);
        assert(s.take(s.len() as int) == s);
        lemma_line_agrees(s, c, s.len() as int);
    } else {
        lemma_run_len_unique(c, p, n);
    }
}

/// The first line that is not blank is found at the same place with and
/// without a line feed at the end of the text.
proof fn lemma_close_skip_blank(s: Seq<char>)
    ensures
        skip_blank(close(s)) == close(skip_blank(s)),
    decreases s.len(),
{
    lemma_skip_blank(s);
    if !is_closed(s) {
        lemma_close_line(s);
        if starts_blank(s) {
            lemma_close_skip_blank(after_line(s));
        }
    }
}

/// What `next_record` finds after a line feed has been put at the end of
/// the text.
pub open spec fn closed_record(record: Record) -> Record {
    match record {
        Record::Song { song, rest } => Record::Song { song, rest: close(rest) },
        other => other,
    }
}

/// A line feed at the end of a text changes nothing about its first record
/// but, by that line feed, what follows the record.
proof fn lemma_close_record(s: Seq<char>)
    ensures
        next_record(close(s)) == closed_record(next_record(s)),
{
    lemma_close_skip_blank(s);
    let r = skip_blank(s);
    if r.len() > 0 {
        let m = after_line(r);
        lemma_skip_blank(m);
        let r2 = skip_blank(m);
        if !is_closed(r) {
            lemma_close_line(r);
            lemma_close_skip_blank(m);
            if r2.len() > 0 {
                if !is_closed(r2) {
                    lemma_close_line(r2);
                }
            }
        }
    }
}

/// A line feed at the end of a playlist changes nothing about its songs.
pub proof fn lemma_close_songs(s: Seq<char>)
    ensures
        songs_of(close(s)) == songs_of(s),
    decreases s.len(),
{
    lemma_close_record(s);
    if let Record::Song { song, rest } = next_record(s) {
        lemma_record_shrinks(s);
        lemma_close_songs(rest);
    }
}

/// A line feed at the end of a playlist changes nothing about its header,
/// nor about its songs.
pub proof fn lemma_close_header(s: Seq<char>)
    ensures
        has_header(close(s)) == has_header(s),
        has_header(s) ==> after_header(close(s)) == close(after_header(s)),
        playlist_songs(close(s)) == playlist_songs(s),
{
    lemma_close_skip_blank(s);
    let r = skip_blank(s);
    if r.len() > 0 && !is_closed(r) {
        lemma_close_line(r);
    }
    if has_header(s) {
        lemma_close_songs(after_header(s));
    } else {
        lemma_close_songs(s);
    }
}

} // verus!
