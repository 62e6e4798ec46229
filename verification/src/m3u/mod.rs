//! Songs and the text format in which a playlist keeps them.

pub mod grammar;
pub mod ingestion;
pub mod laws;
pub mod parser;
pub mod playlist_management;
pub mod probe;
pub mod reading;

use crate::m3u::grammar::{appended, playlist_songs, serialized, ParseError, SongView};
use crate::m3u::parser::Parser;
use crate::text::push_decimal;
use vstd::prelude::*;
use vstd::std_specs::cmp::PartialEqSpecImpl;
use vstd::string::StringExecFns;

verus! {

/// A song of a playlist: what it is called, how many seconds it lasts, and
/// the file or address at which it is found.
#[derive(Debug, Clone)]
pub struct Song {
    pub title: String,
    pub duration: u64,
    pub path: String,
}

impl View for Song {
    type V = SongView;

    open spec fn view(&self) -> SongView {
        SongView { title: self.title@, duration: self.duration as nat, path: self.path@ }
    }
}

impl DeepView for Song {
    type V = SongView;

    open spec fn deep_view(&self) -> SongView {
        self@
    }
}

impl PartialEq for Song {
    /// Songs are equal when they have the same title, the same duration
    /// and the same path.
    fn eq(&self, other: &Song) -> (equal: bool) {
        self.title == other.title && self.duration == other.duration && self.path == other.path
    }
}

impl PartialEqSpecImpl for Song {
    open spec fn obeys_eq_spec() -> bool {
        true
    }

    open spec fn eq_spec(&self, other: &Song) -> bool {
        self@ == other@
    }
}

impl Eq for Song {}

impl Song {
    /// The two lines that stand for the song in a playlist: `#EXTINF:`, the
    /// seconds, a comma and the title on the first, the path on the second.
    pub fn serialize(&self) -> (out: String)
        ensures
            out@ == serialized(self@),
    {
        let mut out = String::new();
        out.push('#');
        out.push('E');
        out.push('X');
        out.push('T');
        out.push('I');
        out.push('N');
        out.push('F');
        out.push(':');
        assert(out@ == crate::m3u::grammar::extinf_tag());
        push_decimal(&mut out, self.duration);
        out.push(',');
        out.append(self.title.as_str());
        out.push('\n');
        out.append(self.path.as_str());
        out.push('\n');
        out
    }

    /// The songs of the playlist `content`, in the order of the text.
    pub fn parse_m3u(content: &str) -> (r: Result<Vec<Song>, ParseError>)
        ensures
            match playlist_songs(content@) {
                Ok(songs) => r matches Ok(v) && v.deep_view() == songs,
                Err(error) => r matches Err(e) && e == error,
            },
    {
        let mut parser = Parser::from_string(content);
        assert(parser.remaining() == content@);
        parser.all_songs()
    }

    /// The playlist `content` with this song as its last. A text without a
    /// header gets one at its start; a text whose last line has no line feed
    /// gets one; then come the song's two lines.
    pub fn add_to_playlist(&self, content: &str) -> (out: String)
        ensures
            out@ == appended(content@, self@),
    {
        let mut parser = Parser::from_string(content);
        assert(parser.remaining() == content@);
        let found = parser.next_header(false);
        let mut out = String::new();
        match found {
            Ok(true) => {},
            _ => {
                out.push('#');
                out.push('E');
                out.push('X');
                out.push('T');
                out.push('M');
                out.push('3');
                out.push('U');
                out.push('\n');
                assert(out@ == crate::m3u::grammar::header_line());
            },
        }
        out.append(content);
        let n = content.unicode_len();
        if n > 0 && content.get_char(n - 1) != '\n' {
            out.push('\n');
        }
        let record = self.serialize();
        out.append(record.as_str());
        out
    }
}

} // verus!
