//! A reader of playlist text that knows how far it has read.

use crate::m3u::grammar::{
    after_header, extinf_tag, has_header, header_tag, lemma_record_shrinks, next_record,
    playlist_songs, skip_blank, songs_of, ParseError, Record, SongView,
};
use crate::m3u::Song;
use crate::text::{
    after_line, byte_len, char_width, first_line, lemma_byte_len_concat,
    lemma_byte_len_is_boundary, lemma_byte_len_push, lemma_run_len_unique, line_end,
    parse_seconds, range_to_string, run_len, starts_with, to_chars, trim, trim_bounds,
};
use vstd::prelude::*;
use vstd::utf8::{encode_utf8, is_char_boundary};

verus! {

/// A reader over one text. It reads from the start towards the end and never
/// goes back; the text itself is never changed.
pub struct Parser {
    text: Vec<char>,
    pos: usize,
    offset: usize,
}

/// `#EXTM3U`, to compare with.
fn header_pattern() -> (v: Vec<char>)
    ensures
        v@ == header_tag(),
{
    let mut v: Vec<char> = Vec::new();
    v.push('#');
    v.push('E');
    v.push('X');
    v.push('T');
    v.push('M');
    v.push('3');
    v.push('U');
    v
}

/// `#EXTINF:`, to compare with.
fn extinf_pattern() -> (v: Vec<char>)
    ensures
        v@ == extinf_tag(),
{
    let mut v: Vec<char> = Vec::new();
    v.push('#');
    v.push('E');
    v.push('X');
    v.push('T');
    v.push('I');
    v.push('N');
    v.push('F');
    v.push(':');
    v
}

/// Where the line after the one that ends at `end` starts.
fn next_line(text: &Vec<char>, end: usize) -> (next: usize)
    requires
        end <= text.len(),
    ensures
        next == if end < text.len() { end + 1 } else { end as int },
{
    if end < text.len() {
        end + 1
    } else {
        end
    }
}

/// One line of a text, by its indices.
struct Line {
    /// Where the line starts.
    start: usize,
    /// Where the line ends: the index of its line feed, or the length of the text.
    end: usize,
    /// The bounds of the line without the white space at its ends.
    from: usize,
    to: usize,
}

/// Finds the first line at or after `start` that is not blank.
fn find_line(text: &Vec<char>, start: usize) -> (line: Option<Line>)
    requires
        start <= text.len(),
    ensures
        line is None ==> skip_blank(text@.skip(start as int)).len() == 0,
        line matches Some(l) ==> {
            &&& start <= l.start <= l.from < l.to <= l.end <= text.len()
            &&& skip_blank(text@.skip(start as int)) == text@.skip(l.start as int)
            &&& text@.subrange(l.from as int, l.to as int) == trim(
                first_line(text@.skip(l.start as int)),
            )
            &&& after_line(text@.skip(l.start as int)) == text@.skip(
                if l.end < text.len() {
                    l.end + 1
                } else {
                    l.end as int
                },
            )
        },
{
    let mut p: usize = start;
    while p < text.len()
        invariant
            start <= p <= text.len(),
            skip_blank(text@.skip(p as int)) == skip_blank(text@.skip(start as int)),
        decreases text.len() - p,
    {
        let end = line_end(text, p);
        let (from, to) = trim_bounds(text, p, end);
        if from < to {
            return Some(Line { start: p, end, from, to });
        }
        p = next_line(text, end);
        proof {
            assert(text@.skip(text@.len() as int) == Seq::<char>::empty());
        }
    }
    None
}

/// The index of the first comma in the range `from..to`, or `to`.
fn find_comma(text: &Vec<char>, from: usize, to: usize) -> (at: usize)
    requires
        from <= to <= text.len(),
    ensures
        from <= at <= to,
        at - from == run_len(text@.subrange(from as int, to as int), |c: char| c != ','),
{
    let mut at: usize = from;
    while at < to && text[at] != ','
        invariant
            from <= at <= to <= text.len(),
            forall|i: int| from <= i < at ==> #[trigger] text@[i] != ',',
        decreases to - at,
    {
        at += 1;
    }
    proof {
        let p = |c: char| c != ',';
        let s = text@.subrange(from as int, to as int);
        lemma_run_len_unique(s, p, at - from);
    }
    at
}

impl Parser {
    /// The whole text that the reader was made for.
    pub closed spec fn text(&self) -> Seq<char> {
        self.text@
    }

    /// The number of characters read so far.
    pub closed spec fn position(&self) -> nat {
        self.pos as nat
    }

    /// What holds of every reader that this module hands out.
    pub closed spec fn wf(&self) -> bool {
        &&& self.pos <= self.text.len()
        &&& self.offset == byte_len(self.text@.take(self.pos as int))
        &&& byte_len(self.text@) <= usize::MAX
    }

    /// The part of the text that has been read.
    pub open spec fn consumed(&self) -> Seq<char> {
        self.text().take(self.position() as int)
    }

    /// The part of the text that is still to be read.
    pub open spec fn remaining(&self) -> Seq<char> {
        self.text().skip(self.position() as int)
    }

    /// A reader at the start of `content`.
    pub fn from_string(content: &str) -> (parser: Parser)
        ensures
            parser.wf(),
            parser.text() == content@,
            parser.position() == 0,
    {
        let bytes = content.as_bytes();
        let text = to_chars(content);
        proof {
            broadcast use vstd::slice::axiom_spec_len;

            assert(bytes.len() == bytes@.len());
        }
        Parser { text, pos: 0, offset: 0 }
    }

    /// The number of bytes read so far: the length in UTF-8 of the part of
    /// the text that has been read. The text, as the bytes of a string, can
    /// be cut there.
    pub fn cursor(&self) -> (offset: usize)
        requires
            self.wf(),
        ensures
            offset == byte_len(self.consumed()),
            is_char_boundary(encode_utf8(self.text()), offset as int),
    {
        proof {
            lemma_byte_len_is_boundary(self.consumed(), self.remaining());
            assert(self.consumed() + self.remaining() == self.text());
        }
        self.offset
    }

    /// A reader never stands past the end of its text.
    pub proof fn lemma_position_in_text(&self)
        requires
            self.wf(),
        ensures
            self.position() <= self.text().len(),
    {
    }

    /// The part of the text that has been read, as a string.
    pub fn consumed_text(&self) -> (s: String)
        requires
            self.wf(),
        ensures
            s@ == self.consumed(),
    {
        range_to_string(&self.text, 0, self.pos)
    }

    /// The part of the text that is still to be read, as a string.
    pub fn remaining_text(&self) -> (s: String)
        requires
            self.wf(),
        ensures
            s@ == self.remaining(),
    {
        range_to_string(&self.text, self.pos, self.text.len())
    }

    /// Moves on to `to`.
    fn advance(&mut self, to: usize)
        requires
            old(self).wf(),
            old(self).pos <= to <= old(self).text.len(),
        ensures
            final(self).wf(),
            final(self).text == old(self).text,
            final(self).pos == to,
    {
        proof {
            lemma_byte_len_concat(self.text@.take(to as int), self.text@.skip(to as int));
            assert(self.text@.take(to as int) + self.text@.skip(to as int) == self.text@);
        }
        let mut p: usize = self.pos;
        let mut offset: usize = self.offset;
        while p < to
            invariant
                self.pos <= p <= to <= self.text.len(),
                offset == byte_len(self.text@.take(p as int)),
                byte_len(self.text@.take(to as int)) <= usize::MAX,
            decreases to - p,
        {
            proof {
                lemma_byte_len_push(self.text@.take(p as int), self.text@[p as int]);
                let read = self.text@.take(p + 1);
                let left = self.text@.subrange(p + 1, to as int);
                assert(read == self.text@.take(p as int).push(self.text@[p as int]));
                lemma_byte_len_concat(read, left);
                assert(read + left == self.text@.take(to as int));
            }
            offset = offset + char_width(self.text[p]);
            p += 1;
        }
        self.pos = to;
        self.offset = offset;
    }

    /// Reads the header, if the text at hand starts with one, and says
    /// whether it did. Without a header nothing is read; that is an error
    /// only where a header is `required` and there is text left.
    pub fn next_header(&mut self, required: bool) -> (r: Result<bool, ParseError>)
        requires
            old(self).wf(),
        ensures
            final(self).wf(),
            final(self).text() == old(self).text(),
            final(self).remaining() == after_header(old(self).remaining()),
            match r {
                Ok(found) => found == has_header(old(self).remaining()) && !(required && !found
                    && old(self).remaining().len() > 0),
                Err(error) => error == ParseError::MissingHeader && required && !has_header(
                    old(self).remaining(),
                ) && old(self).remaining().len() > 0,
            },
    {
        let pattern = header_pattern();
        let found = find_line(&self.text, self.pos);
        let mut header: bool = false;
        let mut next: usize = self.pos;
        match found {
            Some(line) => {
                if starts_with(&self.text, line.from, line.to, &pattern) {
                    header = true;
                    next = next_line(&self.text, line.end);
                }
            },
            None => {},
        }
        if header {
            self.advance(next);
            Ok(true)
        } else if required && self.pos < self.text.len() {
            Err(ParseError::MissingHeader)
        } else {
            Ok(false)
        }
    }

    /// Reads one record: an `#EXTINF:` line and the line with the path after
    /// it, or a line with a path alone. Blank lines before either are passed
    /// over. At the end of the text there is no song; after an error nothing
    /// has been read.
    #[verifier::rlimit(40)]
    pub fn next_song(&mut self) -> (r: Result<Option<Song>, ParseError>)
        requires
            old(self).wf(),
        ensures
            final(self).wf(),
            final(self).text() == old(self).text(),
            match next_record(old(self).remaining()) {
                Record::End => r matches Ok(None) && final(self).position() == final(
                    self
                ).text().len(),
                Record::Song { song, rest } => r matches Ok(Some(s)) && s@ == song && final(
                    self
                ).remaining() == rest,
                Record::Malformed { error } => r matches Err(e) && e == error && final(
                    self
                ).position() == old(self).position(),
            },
    {
        let ghost s = self.remaining();
        let found = find_line(&self.text, self.pos);
        let line = match found {
            None => {
                self.advance(self.text.len());
                return Ok(None);
            },
            Some(line) => line,
        };
        let ghost whole = trim(first_line(skip_blank(s)));
        if self.text[line.from] != '#' {
            let path = range_to_string(&self.text, line.from, line.to);
            let next = next_line(&self.text, line.end);
            self.advance(next);
            return Ok(Some(Song { title: String::new(), duration: 0, path }));
        }
        let tag = extinf_pattern();
        if !starts_with(&self.text, line.from, line.to, &tag) {
            return Err(ParseError::UnknownDirective);
        }
        let body: usize = line.from + 8;
        let comma = find_comma(&self.text, body, line.to);
        proof {
            assert(whole.skip(8) == self.text@.subrange(body as int, line.to as int));
        }
        if comma == line.to {
            return Err(ParseError::MissingSeparator);
        }
        proof {
            let b = self.text@.subrange(body as int, line.to as int);
            assert(b.take(comma - body) == self.text@.subrange(body as int, comma as int));
            assert(b.skip(comma - body + 1) == self.text@.subrange(comma + 1, line.to as int));
        }
        let seconds = match parse_seconds(&self.text, body, comma) {
            None => {
                return Err(ParseError::InvalidDuration);
            },
            Some(seconds) => seconds,
        };
        let after = next_line(&self.text, line.end);
        let second = match find_line(&self.text, after) {
            None => {
                return Err(ParseError::MissingPath);
            },
            Some(second) => second,
        };
        if self.text[second.from] == '#' {
            return Err(ParseError::MissingPath);
        }
        let title = range_to_string(&self.text, comma + 1, line.to);
        let path = range_to_string(&self.text, second.from, second.to);
        let next = next_line(&self.text, second.end);
        self.advance(next);
        Ok(Some(Song { title, duration: seconds, path }))
    }

    /// Reads a whole playlist: the header, if there is one, and every song
    /// after it, in the order of the text.
    pub fn all_songs(&mut self) -> (r: Result<Vec<Song>, ParseError>)
        requires
            old(self).wf(),
        ensures
            final(self).wf(),
            final(self).text() == old(self).text(),
            match playlist_songs(old(self).remaining()) {
                Ok(songs) => r matches Ok(v) && v.deep_view() == songs && final(self).position()
                    == final(self).text().len(),
                Err(error) => r matches Err(e) && e == error,
            },
    {
        let ghost start = self.remaining();
        let _ = self.next_header(false);
        let mut songs: Vec<Song> = Vec::new();
        loop
            invariant
                self.wf(),
                self.text() == old(self).text(),
                start == old(self).remaining(),
                match songs_of(self.remaining()) {
                    Ok(rest) => playlist_songs(start) == Ok::<_, ParseError>(
                        songs.deep_view() + rest,
                    ),
                    Err(error) => playlist_songs(start) == Err::<Seq<SongView>, ParseError>(
                        error,
                    ),
                },
            decreases self.remaining().len(),
        {
            let ghost before = self.remaining();
            let ghost so_far = songs.deep_view();
            proof {
                lemma_record_shrinks(before);
            }
            match self.next_song() {
                Err(error) => {
                    return Err(error);
                },
                Ok(None) => {
                    proof {
                        assert(songs.deep_view() + Seq::<SongView>::empty()
                            == songs.deep_view());
                    }
                    return Ok(songs);
                },
                Ok(Some(song)) => {
                    songs.push(song);
                    proof {
                        assert(songs.deep_view() == so_far.push(song@));
                        if let Ok(rest) = songs_of(self.remaining()) {
                            assert(so_far + (seq![song@] + rest) == so_far.push(song@) + rest);
                        }
                    }
                },
            }
        }
    }
}

} // verus!
