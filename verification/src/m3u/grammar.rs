//! The playlist format, stated over texts.
//!
//! A playlist is a text of lines. Blank lines count for nothing. The first
//! line that is not blank may be the header, a line that starts with
//! `#EXTM3U`. After it come the records: a line `#EXTINF:<seconds>,<title>`
//! followed by a line with the path, or a line with the path alone. Every
//! line is read without the white space at its ends.
//!
//! All functions here take the text that is still to be read, so that what
//! they say of a text holds wherever in a file that text stands.

use crate::text::{
    after_line, decimal_digits, first_line, is_closed, is_trimmed, lemma_trim_fixes_trimmed,
    run_len, seconds_of, trim,
};
use vstd::prelude::*;

verus! {

/// What a song is, apart from how it is held in memory.
pub struct SongView {
    pub title: Seq<char>,
    pub duration: nat,
    pub path: Seq<char>,
}

/// Why a text is not a playlist.
#[derive(Debug, Clone, Copy, PartialEq, Eq)]
pub enum ParseError {
    /// A header was asked for, and the text has lines but does not start with one.
    MissingHeader,
    /// A line starts with `#` where a record is due and is no `#EXTINF:` line.
    UnknownDirective,
    /// An `#EXTINF:` line has no comma after its duration.
    MissingSeparator,
    /// The duration of an `#EXTINF:` line is not a number of seconds.
    InvalidDuration,
    /// An `#EXTINF:` line is not followed by a line with a path.
    MissingPath,
}

/// `#EXTM3U`, with which the header line starts.
pub open spec fn header_tag() -> Seq<char> {
    seq!['#', 'E', 'X', 'T', 'M', '3', 'U']
}

/// `#EXTINF:`, with which the first line of a record starts.
pub open spec fn extinf_tag() -> Seq<char> {
    seq!['#', 'E', 'X', 'T', 'I', 'N', 'F', ':']
}

/// The two lines that stand for a song in a playlist.
pub open spec fn serialized(song: SongView) -> Seq<char> {
    extinf_tag() + decimal_digits(song.duration) + seq![','] + song.title + seq!['\n'] + song.path
        + seq!['\n']
}

/// Whether the first line of `s` holds nothing but white space.
pub open spec fn starts_blank(s: Seq<char>) -> bool {
    trim(first_line(s)).len() == 0
}

/// `s` from its first line that is not blank; empty where every line is blank.
pub open spec fn skip_blank(s: Seq<char>) -> Seq<char>
    decreases s.len(),
{
    if s.len() > 0 && starts_blank(s) {
        skip_blank(after_line(s))
    } else {
        s
    }
}

/// Whether the first line of `s` that is not blank is a header.
pub open spec fn has_header(s: Seq<char>) -> bool {
    header_tag().is_prefix_of(trim(first_line(skip_blank(s))))
}

/// `s` after its header; `s` itself where it has none.
pub open spec fn after_header(s: Seq<char>) -> Seq<char> {
    if has_header(s) {
        after_line(skip_blank(s))
    } else {
        s
    }
}

/// The header line: `#EXTM3U` and a line feed.
pub open spec fn header_line() -> Seq<char> {
    header_tag().push('\n')
}

/// `text` with a header: `text` itself where it has one, else `text` after
/// a header line.
pub open spec fn with_header(text: Seq<char>) -> Seq<char> {
    if has_header(text) {
        text
    } else {
        header_line() + text
    }
}

/// `text` with a line feed at its end: `text` itself where it is closed.
pub open spec fn close(text: Seq<char>) -> Seq<char> {
    if is_closed(text) {
        text
    } else {
        text.push('\n')
    }
}

/// The playlist `text` with `song` as its last song: the text gets a header
/// if it has none and a line feed at its end if it lacks one, and then the
/// song's two lines.
pub open spec fn appended(text: Seq<char>, song: SongView) -> Seq<char> {
    close(with_header(text)) + serialized(song)
}

/// The duration and the title that follow `#EXTINF:` on its line.
pub open spec fn extinf_fields(body: Seq<char>) -> Result<(u64, Seq<char>), ParseError> {
    let comma = run_len(body, |c: char| c != ',') as int;
    if comma == body.len() {
        Err(ParseError::MissingSeparator)
    } else {
        match seconds_of(body.take(comma)) {
            None => Err(ParseError::InvalidDuration),
            Some(seconds) => Ok((seconds, body.skip(comma + 1))),
        }
    }
}

/// What reading one record finds.
pub enum Record {
    /// Nothing but blank lines is left.
    End,
    /// A song, and the text that follows its record.
    Song { song: SongView, rest: Seq<char> },
    /// The lines at hand are no record.
    Malformed { error: ParseError },
}

/// Reads the record at the start of `s`.
pub open spec fn next_record(s: Seq<char>) -> Record {
    let r = skip_blank(s);
    let line = trim(first_line(r));
    if r.len() == 0 {
        Record::End
    } else if line[0] != '#' {
        Record::Song {
            song: SongView { title: Seq::empty(), duration: 0, path: line },
            rest: after_line(r),
        }
    } else if !extinf_tag().is_prefix_of(line) {
        Record::Malformed { error: ParseError::UnknownDirective }
    } else {
        match extinf_fields(line.skip(extinf_tag().len() as int)) {
            Err(error) => Record::Malformed { error },
            Ok((seconds, title)) => {
                let r2 = skip_blank(after_line(r));
                let path = trim(first_line(r2));
                if r2.len() == 0 || path[0] == '#' {
                    Record::Malformed { error: ParseError::MissingPath }
                } else {
                    Record::Song {
                        song: SongView { title, duration: seconds as nat, path },
                        rest: after_line(r2),
                    }
                }
            },
        }
    }
}

/// The songs of the records that `s` is made of, in the order of the text.
pub open spec fn songs_of(s: Seq<char>) -> Result<Seq<SongView>, ParseError>
    decreases s.len(),
{
    match next_record(s) {
        Record::End => Ok(Seq::empty()),
        Record::Malformed { error } => Err(error),
        Record::Song { song, rest } => {
            proof {
                lemma_record_shrinks(s);
            }
            match songs_of(rest) {
                Ok(songs) => Ok(seq![song] + songs),
                Err(error) => Err(error),
            }
        },
    }
}

/// The songs of a playlist: those of the text after its header, if it has one.
pub open spec fn playlist_songs(text: Seq<char>) -> Result<Seq<SongView>, ParseError> {
    songs_of(after_header(text))
}

/// `skip_blank` drops a prefix of the text. What is left is empty or starts
/// with a line that is not blank, and is closed where the text is.
pub proof fn lemma_skip_blank(s: Seq<char>)
    ensures
        skip_blank(s).len() <= s.len(),
        skip_blank(s) == s.skip(s.len() - skip_blank(s).len()),
        skip_blank(s).len() > 0 ==> !starts_blank(skip_blank(s)),
        skip_blank(skip_blank(s)) == skip_blank(s),
        is_closed(s) ==> is_closed(skip_blank(s)),
    decreases s.len(),
{
    if s.len() > 0 && starts_blank(s) {
        let t = after_line(s);
        lemma_skip_blank(t);
    }
}

/// A record that holds a song ends before the text does: reading it makes
/// the text shorter. What follows it is a suffix of the text.
pub proof fn lemma_record_shrinks(s: Seq<char>)
    ensures
        next_record(s) matches Record::Song { song, rest } ==> rest.len() < s.len() && rest
            == s.skip(s.len() - rest.len()) && song.path.len() > 0 && song.path[0] != '#'
            && is_trimmed(song.path),
{
    if let Record::Song { song, rest } = next_record(s) {
        let r = skip_blank(s);
        lemma_skip_blank(s);
        let line = trim(first_line(r));
        lemma_trim_fixes_trimmed(first_line(r));
        if line[0] != '#' {
            assert(s.skip(s.len() - r.len()).skip(r.len() - rest.len()) == s.skip(
                s.len() - rest.len(),
            ));
        } else {
            let m = after_line(r);
            let r2 = skip_blank(m);
            lemma_skip_blank(m);
            lemma_trim_fixes_trimmed(first_line(r2));
            assert(m.skip(m.len() - r2.len()).skip(r2.len() - rest.len()) == m.skip(
                m.len() - rest.len(),
            ));
            assert(r.skip(r.len() - m.len()).skip(m.len() - rest.len()) == r.skip(
                r.len() - rest.len(),
            ));
            assert(s.skip(s.len() - r.len()).skip(r.len() - rest.len()) == s.skip(
                s.len() - rest.len(),
            ));
        }
    }
}

} // verus!
