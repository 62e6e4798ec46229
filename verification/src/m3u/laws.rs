//! What holds of the playlist format and of the edits of a playlist's text:
//! a song that is written is read back as it was, and each edit changes the
//! songs of a playlist as its name says and leaves the others alone.

use crate::m3u::grammar::{
    after_header, appended, close, extinf_tag, has_header, header_line, header_tag,
    lemma_record_shrinks, lemma_skip_blank, next_record, playlist_songs, serialized, skip_blank,
    songs_of, with_header, ParseError, Record, SongView,
};
use crate::m3u::ingestion::{lemma_walk_is_fixed, same_tree, walk};
use crate::m3u::playlist_management::{
    deleted, locate, renamed, skip_songs, swapped, StoreError,
};
use crate::m3u::reading::{
    lemma_close_header, lemma_header_agrees, lemma_header_ends_line, lemma_record_agrees,
    lemma_record_ends_line, lemma_songs_of_concat, lemma_songs_unfold, songs_then,
};
use crate::text::{
    after_line, decimal_digits, first_line, is_closed, is_digit, is_space, is_trimmed,
    lemma_decimal_round_trip, lemma_run_len_is_run, lemma_run_len_unique, lemma_tail_run_len_is_run,
    lemma_trim_fixes_trimmed, run_len, trim,
};
use vstd::prelude::*;

verus! {

/// The songs that a playlist can hold and give back as they were: the
/// seconds fit in 64 bits, neither title nor path holds a line feed, the
/// title does not end with white space, and the path is not empty, neither
/// starts nor ends with white space, and does not start with `#`.
pub open spec fn storable(song: SongView) -> bool {
    &&& song.duration <= u64::MAX
    &&& !song.title.contains('\n')
    &&& song.title.len() > 0 ==> !is_space(song.title.last())
    &&& song.path.len() > 0
    &&& !song.path.contains('\n')
    &&& is_trimmed(song.path)
    &&& song.path[0] != '#'
}

/// A line that is not blank and holds no line feed, with a line feed after
/// it, is read as it stands.
proof fn lemma_read_line(line: Seq<char>, tail: Seq<char>)
    requires
        !line.contains('\n'),
        line.len() > 0,
        is_trimmed(line),
    ensures
        first_line(line.push('\n') + tail) == line,
        trim(first_line(line.push('\n') + tail)) == line,
        after_line(line.push('\n') + tail) == tail,
        skip_blank(line.push('\n') + tail) == line.push('\n') + tail,
{
    let x = line.push('\n') + tail;
    let p = |c: char| c != '\n';
    let n = line.len() as int;
    assert forall|i: int| 0 <= i < n implies p(#[trigger] x[i]) by {}
    lemma_run_len_unique(x, p, n);
    lemma_trim_fixes_trimmed(line);
}

/// The two lines of a storable song are read as that song, whatever follows
/// them.
#[verifier::rlimit(40)]
pub proof fn lemma_serialized_is_record(song: SongView, tail: Seq<char>)
    requires
        storable(song),
    ensures
        next_record(serialized(song) + tail) == (Record::Song { song, rest: tail }),
{
    let digits = decimal_digits(song.duration);
    lemma_decimal_round_trip(song.duration);
    let body = digits + seq![','] + song.title;
    let line = extinf_tag() + body;
    let second = song.path.push('\n') + tail;
    let x = serialized(song) + tail;
    assert(x == line.push('\n') + second);
    assert(!line.contains('\n')) by {
        if line.contains('\n') {
            let i = choose|i: int| 0 <= i < line.len() && line[i] == '\n';
        }
    }
    assert(is_trimmed(line));
    lemma_read_line(line, second);
    assert(extinf_tag().is_prefix_of(line));
    assert(line.skip(8) == body);
    let ncomma = |c: char| c != ',';
    assert forall|i: int| 0 <= i < digits.len() implies ncomma(#[trigger] body[i]) by {}
    lemma_run_len_unique(body, ncomma, digits.len() as int);
    assert(body.take(digits.len() as int) == digits);
    assert(body.skip(digits.len() as int + 1) == song.title);
    let dg = |c: char| is_digit(c);
    lemma_run_len_unique(digits, dg, digits.len() as int);
    assert(digits.take(digits.len() as int) == digits);
    lemma_read_line(song.path, tail);
}

/// Every song that is read from a text is storable.
pub proof fn lemma_read_is_storable(s: Seq<char>)
    requires
        next_record(s) is Song,
    ensures
        storable(next_record(s)->song),
{
    let song = next_record(s)->song;
    lemma_record_shrinks(s);
    let r = skip_blank(s);
    let nl = |c: char| c != '\n';
    lemma_run_len_is_run(r, nl);
    let raw = first_line(r);
    let line = trim(raw);
    lemma_trim_fixes_trimmed(raw);
    lemma_no_line_feed_in_trim(raw);
    if line[0] == '#' {
        let body = line.skip(8);
        lemma_run_len_is_run(body, |c: char| c != ',');
        let m = after_line(r);
        let r2 = skip_blank(m);
        lemma_run_len_is_run(r2, nl);
        lemma_no_line_feed_in_trim(first_line(r2));
    }
}

/// A line holds no line feed, trimmed or not.
proof fn lemma_no_line_feed_in_trim(raw: Seq<char>)
    requires
        forall|i: int| 0 <= i < raw.len() ==> raw[i] != '\n',
    ensures
        !trim(raw).contains('\n'),
{
    let sp = |c: char| is_space(c);
    lemma_run_len_is_run(raw, sp);
    let a = run_len(raw, sp) as int;
    let t = raw.skip(a);
    lemma_tail_run_len_is_run(t, sp);
    let line = trim(raw);
}

/// The first song of a text that holds songs: its record stands first, and
/// what follows the record holds the other songs.
proof fn lemma_first_song(s: Seq<char>)
    requires
        songs_of(s) is Ok,
        songs_of(s)->Ok_0.len() > 0,
    ensures
        next_record(s) is Song,
        next_record(s)->song == songs_of(s)->Ok_0[0],
        songs_of(next_record(s)->rest) == Ok::<Seq<SongView>, ParseError>(
            songs_of(s)->Ok_0.skip(1),
        ),
        next_record(s)->rest.len() < s.len(),
        next_record(s)->rest == s.skip(s.len() - next_record(s)->rest.len()),
{
    lemma_record_shrinks(s);
    let song = next_record(s)->song;
    let others = songs_of(next_record(s)->rest)->Ok_0;
    assert((seq![song] + others).skip(1) == others);
}

/// A record that is followed by more text is read as it is whatever text
/// follows it: that text then holds the record's song and, after it, the
/// songs of what follows.
proof fn lemma_record_then(s: Seq<char>, tail: Seq<char>)
    requires
        next_record(s) is Song,
        next_record(s)->rest.len() > 0,
    ensures
        songs_of(s.take(s.len() - next_record(s)->rest.len()) + tail) == songs_then(
            seq![next_record(s)->song],
            songs_of(tail),
        ),
{
    lemma_record_ends_line(s);
    let used = s.len() - next_record(s)->rest.len();
    let t = s.take(used) + tail;
    assert(t.take(used) == s.take(used));
    assert(t.skip(used) == tail);
    lemma_record_agrees(s, t, used);
}

/// The song at `index` of a text that holds `songs`: its record is found
/// after the records of the songs before it, and what follows it holds the
/// songs after it. Whatever text `tail` takes the place of that record and of
/// what follows it, the songs before it stay.
#[verifier::rlimit(40)]
pub proof fn lemma_splice(s: Seq<char>, index: nat, tail: Seq<char>)
    requires
        songs_of(s) is Ok,
        index < songs_of(s)->Ok_0.len(),
    ensures
        skip_songs(s, index) is Ok,
        ({
            let songs = songs_of(s)->Ok_0;
            let at = skip_songs(s, index)->Ok_0;
            &&& at.len() <= s.len()
            &&& at == s.skip(s.len() - at.len())
            &&& next_record(at) is Song
            &&& next_record(at)->song == songs[index as int]
            &&& songs_of(next_record(at)->rest) == Ok::<Seq<SongView>, ParseError>(
                songs.skip(index as int + 1),
            )
            &&& songs_of(s.take(s.len() - at.len()) + tail) == songs_then(
                songs.take(index as int),
                songs_of(tail),
            )
        }),
    decreases index,
{
    let songs = songs_of(s)->Ok_0;
    lemma_first_song(s);
    let song = next_record(s)->song;
    let rest = next_record(s)->rest;
    if index > 0 {
        let before = (index - 1) as nat;
        let others = songs.skip(1);
        lemma_splice(rest, before, tail);
        let at = skip_songs(rest, before)->Ok_0;
        assert(rest.len() > 0);
        let head = s.take(s.len() - rest.len());
        let inner = rest.take(rest.len() - at.len());
        lemma_record_then(s, inner + tail);
        assert(at == s.skip(s.len() - at.len())) by {
            assert(s.skip(s.len() - rest.len()).skip(rest.len() - at.len()) == s.skip(
                s.len() - at.len(),
            ));
        }
        assert(s.take(s.len() - at.len()) + tail == head + (inner + tail));
        assert(others.skip(before as int + 1) == songs.skip(index as int + 1));
        assert(songs_then(seq![song], songs_then(others.take(before as int), songs_of(tail)))
            == songs_then(songs.take(index as int), songs_of(tail))) by {
            assert(seq![song] + others.take(before as int) == songs.take(index as int));
            if let Ok(more) = songs_of(tail) {
                assert(seq![song] + (others.take(before as int) + more) == (seq![song]
                    + others.take(before as int)) + more);
            }
        }
    }
}

/// The part of a playlist that stands before its records.
pub open spec fn preamble(text: Seq<char>) -> Seq<char> {
    text.take(text.len() - after_header(text).len())
}

/// The records of a playlist can be replaced by any text that is made of
/// records: the playlist then holds the songs of that text, and has a header
/// if it had one.
pub proof fn lemma_replace_records(text: Seq<char>, records: Seq<char>)
    requires
        songs_of(records) is Ok,
        has_header(text) ==> after_header(text).len() > 0,
    ensures
        playlist_songs(preamble(text) + records) == songs_of(records),
        has_header(preamble(text) + records) == has_header(text),
        text == preamble(text) + after_header(text),
{
    if has_header(text) {
        lemma_header_ends_line(text);
        let used = text.len() - after_header(text).len();
        let t = preamble(text) + records;
        assert(t.take(used) == text.take(used));
        assert(t.skip(used) == records);
        lemma_header_agrees(text, t, used);
    }
}

/// A song that is written and read again is the same song: a playlist of a
/// header and the two lines of a storable song holds that song and no other.
pub proof fn lemma_round_trip(song: SongView)
    requires
        storable(song),
    ensures
        playlist_songs(header_line() + serialized(song)) == Ok::<Seq<SongView>, ParseError>(
            seq![song],
        ),
{
    lemma_header_line(serialized(song));
    lemma_serialized_songs(song);
}

/// A header line at the start of a text is its header.
proof fn lemma_header_line(tail: Seq<char>)
    ensures
        has_header(header_line() + tail),
        after_header(header_line() + tail) == tail,
{
    let tag = header_tag();
    assert(!tag.contains('\n'));
    lemma_read_line(tag, tail);
}

/// The two lines of a storable song hold that song and no other.
proof fn lemma_serialized_songs(song: SongView)
    requires
        storable(song),
    ensures
        songs_of(serialized(song)) == Ok::<Seq<SongView>, ParseError>(seq![song]),
        is_closed(serialized(song)),
{
    lemma_serialized_is_record(song, Seq::empty());
    lemma_songs_unfold(serialized(song));
}

/// Deleting a song leaves the other songs, in their order, and the header
/// if there is one. The text before the song's record and the text after it
/// are those of the old text.
pub proof fn lemma_delete_song(text: Seq<char>, index: nat)
    requires
        playlist_songs(text) is Ok,
        index < playlist_songs(text)->Ok_0.len(),
    ensures
        deleted(text, index) is Ok,
        playlist_songs(deleted(text, index)->Ok_0) == Ok::<Seq<SongView>, ParseError>(
            playlist_songs(text)->Ok_0.remove(index as int),
        ),
        has_header(deleted(text, index)->Ok_0) == has_header(text),
        locate(text, index) matches Ok((before, song, after)) && song == playlist_songs(
            text,
        )->Ok_0[index as int] && before.len() + after.len() < text.len() && before == text.take(
            before.len() as int,
        ) && after == text.skip(text.len() - after.len()),
{
    let body = after_header(text);
    let at = skip_songs(body, index)->Ok_0;
    lemma_splice(body, index, next_record(at)->rest);
    let after = next_record(at)->rest;
    lemma_record_shrinks(at);
    let kept = body.take(body.len() - at.len()) + after;
    lemma_replace_records(text, kept);
    let before = text.take(text.len() - at.len());
    assert(before + after == preamble(text) + kept);
}

/// The parts of a text around the record of a song.
proof fn lemma_located_parts(text: Seq<char>, index: nat)
    requires
        playlist_songs(text) is Ok,
        index < playlist_songs(text)->Ok_0.len(),
    ensures
        locate(text, index) is Ok,
        ({
            let body = after_header(text);
            let at = skip_songs(body, index)->Ok_0;
            let (before, song, after) = locate(text, index)->Ok_0;
            &&& before == preamble(text) + body.take(body.len() - at.len())
            &&& before == text.take(before.len() as int)
            &&& after == text.skip(text.len() - after.len())
            &&& before.len() + after.len() < text.len()
            &&& song == playlist_songs(text)->Ok_0[index as int]
            &&& after == next_record(at)->rest
        }),
{
    let body = after_header(text);
    lemma_replace_records(text, body);
    lemma_splice(body, index, Seq::empty());
    let at = skip_songs(body, index)->Ok_0;
    lemma_record_shrinks(at);
    let after = next_record(at)->rest;
    assert(text.skip(text.len() - at.len()).skip(at.len() - after.len()) == text.skip(
        text.len() - after.len(),
    ));
}

/// The text made of the records of a playlist in which one record has been
/// replaced by the two lines of a storable song holds that song in the place
/// of the old one.
#[verifier::rlimit(40)]
proof fn lemma_replace_record(body: Seq<char>, index: nat, new: SongView)
    requires
        songs_of(body) is Ok,
        index < songs_of(body)->Ok_0.len(),
        storable(new),
    ensures
        ({
            let songs = songs_of(body)->Ok_0;
            let at = skip_songs(body, index)->Ok_0;
            let after = next_record(at)->rest;
            songs_of(body.take(body.len() - at.len()) + (serialized(new) + after)) == Ok::<
                Seq<SongView>,
                ParseError,
            >(songs.update(index as int, new))
        }),
{
    let songs = songs_of(body)->Ok_0;
    let at = skip_songs(body, index)->Ok_0;
    let after = next_record(at)->rest;
    let tail = serialized(new) + after;
    lemma_serialized_is_record(new, after);
    lemma_splice(body, index, tail);
    assert(songs.take(index as int) + (seq![new] + songs.skip(index as int + 1)) == songs.update(
        index as int,
        new,
    ));
}

/// Renaming a song changes its title and nothing else about the songs of
/// the playlist, nor whether it has a header. The title must be one that a
/// playlist can hold: without a line feed, and not ending with white space.
#[verifier::rlimit(40)]
pub proof fn lemma_rename_song(text: Seq<char>, index: nat, title: Seq<char>)
    requires
        playlist_songs(text) is Ok,
        index < playlist_songs(text)->Ok_0.len(),
        !title.contains('\n'),
        title.len() > 0 ==> !is_space(title.last()),
    ensures
        renamed(text, index, title) is Ok,
        has_header(renamed(text, index, title)->Ok_0) == has_header(text),
        ({
            let songs = playlist_songs(text)->Ok_0;
            let old = songs[index as int];
            playlist_songs(renamed(text, index, title)->Ok_0) == Ok::<Seq<SongView>, ParseError>(
                songs.update(
                    index as int,
                    SongView { title, duration: old.duration, path: old.path },
                ),
            )
        }),
{
    let songs = playlist_songs(text)->Ok_0;
    let body = after_header(text);
    lemma_located_parts(text, index);
    let at = skip_songs(body, index)->Ok_0;
    let after = next_record(at)->rest;
    let old = songs[index as int];
    let new = SongView { title, duration: old.duration, path: old.path };
    assert(storable(new)) by {
        lemma_read_is_storable(at);
    }
    lemma_replace_record(body, index, new);
    let kept = body.take(body.len() - at.len()) + (serialized(new) + after);
    lemma_replace_records(text, kept);
    let before = text.take(text.len() - at.len());
    assert(before + serialized(new) + after == preamble(text) + kept);
}

/// Two songs written one after the other, before text that is made of
/// records, are read in the order in which they stand.
proof fn lemma_two_records(first: SongView, second: SongView, rest: Seq<char>)
    requires
        storable(first),
        storable(second),
        songs_of(rest) is Ok,
    ensures
        songs_of(serialized(first) + (serialized(second) + rest)) == Ok::<
            Seq<SongView>,
            ParseError,
        >(seq![first] + (seq![second] + songs_of(rest)->Ok_0)),
{
    let inner = serialized(second) + rest;
    lemma_serialized_is_record(second, rest);
    lemma_songs_unfold(inner);
    lemma_serialized_is_record(first, inner);
}

/// The text made of the records of a playlist in which two neighbours have
/// changed places holds the songs with these two exchanged.
#[verifier::rlimit(40)]
proof fn lemma_swap_records(body: Seq<char>, index: nat)
    requires
        songs_of(body) is Ok,
        index + 1 < songs_of(body)->Ok_0.len(),
    ensures
        ({
            let songs = songs_of(body)->Ok_0;
            let at = skip_songs(body, index)->Ok_0;
            let middle = next_record(at)->rest;
            let rest = next_record(middle)->rest;
            &&& skip_songs(body, index) is Ok
            &&& next_record(at) is Song
            &&& next_record(middle) is Song
            &&& next_record(at)->song == songs[index as int]
            &&& next_record(middle)->song == songs[index as int + 1]
            &&& songs_of(
                body.take(body.len() - at.len()) + (serialized(songs[index as int + 1]) + (
                serialized(songs[index as int]) + rest)),
            ) == Ok::<Seq<SongView>, ParseError>(
                songs.update(index as int, songs[index as int + 1]).update(
                    index as int + 1,
                    songs[index as int],
                ),
            )
        }),
{
    let songs = songs_of(body)->Ok_0;
    lemma_splice(body, index, Seq::empty());
    let at = skip_songs(body, index)->Ok_0;
    let middle = next_record(at)->rest;
    lemma_read_is_storable(at);
    let first = songs[index as int];
    let second = songs[index as int + 1];
    assert(songs.skip(index as int + 1)[0] == second);
    lemma_read_is_storable(middle);
    let rest = next_record(middle)->rest;
    let after = songs_of(rest)->Ok_0;
    assert(after == songs.skip(index as int + 2)) by {
        assert(songs.skip(index as int + 1).skip(1) == songs.skip(index as int + 2));
    }
    let tail = serialized(second) + (serialized(first) + rest);
    lemma_two_records(second, first, rest);
    lemma_splice(body, index, tail);
    assert(songs.take(index as int) + (seq![second] + (seq![first] + after)) == songs.update(
        index as int,
        second,
    ).update(index as int + 1, first));
}

/// Swapping a song with the next one exchanges the two and leaves the other
/// songs, and the header if there is one, as they are.
#[verifier::rlimit(40)]
pub proof fn lemma_swap_song(text: Seq<char>, index: nat)
    requires
        playlist_songs(text) is Ok,
        index + 1 < playlist_songs(text)->Ok_0.len(),
    ensures
        swapped(text, index) matches Ok(Some(new)) && has_header(new) == has_header(text) && ({
            let songs = playlist_songs(text)->Ok_0;
            playlist_songs(new) == Ok::<Seq<SongView>, ParseError>(
                songs.update(index as int, songs[index as int + 1]).update(
                    index as int + 1,
                    songs[index as int],
                ),
            )
        }),
{
    let body = after_header(text);
    lemma_located_parts(text, index);
    lemma_swap_records(body, index);
    let at = skip_songs(body, index)->Ok_0;
    let (before, first, middle) = locate(text, index)->Ok_0;
    let second = next_record(middle)->song;
    let rest = next_record(middle)->rest;
    let kept = body.take(body.len() - at.len()) + (serialized(second) + (serialized(first) + rest));
    lemma_replace_records(text, kept);
    assert(swapped(text, index) == Ok::<_, StoreError>(
        Some(before + serialized(second) + serialized(first) + rest),
    ));
    assert(before + serialized(second) + serialized(first) + rest == preamble(text) + kept);
}

/// A text with a header and a line feed at its end, and a song's two lines
/// after it: the playlist then holds the songs that it held and the song.
#[verifier::rlimit(40)]
proof fn lemma_append_record(c: Seq<char>, song: SongView)
    requires
        has_header(c),
        is_closed(c),
        playlist_songs(c) is Ok,
        storable(song),
    ensures
        has_header(c + serialized(song)),
        playlist_songs(c + serialized(song)) == Ok::<Seq<SongView>, ParseError>(
            playlist_songs(c)->Ok_0.push(song),
        ),
{
    let songs = playlist_songs(c)->Ok_0;
    let body = after_header(c);
    let t = c + serialized(song);
    lemma_skip_blank(c);
    assert(t.take(c.len() as int) == c);
    assert(c.take(c.len() as int) == c);
    lemma_header_agrees(c, t, c.len() as int);
    assert(t.skip(c.len() - body.len()) == body + serialized(song));
    lemma_serialized_songs(song);
    lemma_songs_of_concat(body, serialized(song));
    assert(songs + seq![song] == songs.push(song));
}

/// A text gets a header line in front where it has no header. This changes
/// nothing about its songs.
proof fn lemma_with_header(text: Seq<char>)
    ensures
        has_header(with_header(text)),
        playlist_songs(with_header(text)) == playlist_songs(text),
        !has_header(text) ==> close(with_header(text)) == header_line() + close(text),
{
    if !has_header(text) {
        lemma_header_line(text);
    }
}

/// A song that is added comes last: the playlist then holds the songs that
/// it held, in their order, and after them the new song. The text has one
/// header and no second one after it. The header is its own where it had
/// one. Where it had none, the new text is a header line, the old text,
/// closed by a line feed if it needs one, and the song's two lines.
pub proof fn lemma_add_to_playlist(text: Seq<char>, song: SongView)
    requires
        playlist_songs(text) is Ok,
        storable(song),
    ensures
        playlist_songs(appended(text, song)) == Ok::<Seq<SongView>, ParseError>(
            playlist_songs(text)->Ok_0.push(song),
        ),
        has_header(appended(text, song)),
        !has_header(after_header(appended(text, song))),
        has_header(text) ==> appended(text, song) == close(text) + serialized(song),
        !has_header(text) ==> appended(text, song) == header_line() + close(text) + serialized(
            song,
        ),
{
    let with = with_header(text);
    lemma_with_header(text);
    lemma_close_header(with);
    lemma_append_record(close(with), song);
}

/// A text to which songs have been added one after the other.
pub open spec fn appended_all(text: Seq<char>, songs: Seq<SongView>) -> Seq<char>
    decreases songs.len(),
{
    if songs.len() == 0 {
        text
    } else {
        appended(appended_all(text, songs.drop_last()), songs.last())
    }
}

/// A playlist that starts empty and to which songs are added one after the
/// other holds exactly these songs, in the order in which they were added.
pub proof fn lemma_songs_stay_in_order(songs: Seq<SongView>)
    requires
        forall|i: int| 0 <= i < songs.len() ==> storable(#[trigger] songs[i]),
    ensures
        playlist_songs(appended_all(Seq::empty(), songs)) == Ok::<Seq<SongView>, ParseError>(
            songs,
        ),
    decreases songs.len(),
{
    if songs.len() == 0 {
        assert(songs == Seq::<SongView>::empty());
    } else {
        let before = songs.drop_last();
        lemma_songs_stay_in_order(before);
        lemma_add_to_playlist(appended_all(Seq::empty(), before), songs.last());
        assert(before.push(songs.last()) == songs);
    }
}

/// The songs found at `paths`, in the order of the paths. `song_at` tells
/// which song is found at a path, if any.
pub open spec fn songs_at(
    paths: Seq<Seq<char>>,
    song_at: spec_fn(Seq<char>) -> Option<SongView>,
) -> Seq<SongView>
    decreases paths.len(),
{
    if paths.len() == 0 {
        Seq::empty()
    } else {
        let before = songs_at(paths.drop_last(), song_at);
        match song_at(paths.last()) {
            Some(song) => before.push(song),
            None => before,
        }
    }
}

/// The text of a playlist that starts empty and to which a walk adds the
/// songs that it finds, one after the other.
pub open spec fn ingested(
    queue: Seq<Seq<char>>,
    listing: spec_fn(Seq<char>) -> Option<Seq<Seq<char>>>,
    song_at: spec_fn(Seq<char>) -> Option<SongView>,
    steps: nat,
) -> Seq<char> {
    appended_all(Seq::empty(), songs_at(walk(queue, listing, steps), song_at))
}

/// Two walks over the same tree write the same playlist, character by
/// character, however the system lists the entries of each directory.
pub proof fn lemma_ingestion_is_fixed(
    queue: Seq<Seq<char>>,
    first: spec_fn(Seq<char>) -> Option<Seq<Seq<char>>>,
    second: spec_fn(Seq<char>) -> Option<Seq<Seq<char>>>,
    song_at: spec_fn(Seq<char>) -> Option<SongView>,
    steps: nat,
)
    requires
        same_tree(first, second),
    ensures
        ingested(queue, first, song_at, steps) == ingested(queue, second, song_at, steps),
{
    lemma_walk_is_fixed(queue, first, second, steps);
}

} // verus!
