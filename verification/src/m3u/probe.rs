//! Songs at an address: what the program that is asked about the address
//! answers, and the song that the answer describes.
//!
//! The program is run elsewhere. Here its answer is read: a JSON document
//! whose member `title` holds the title and whose member `duration` holds
//! the length in seconds.

use crate::m3u::grammar::SongView;
use crate::m3u::Song;
use crate::text::{parse_seconds, seconds_of, to_chars};
use vstd::prelude::*;
use vstd::string::StringExecFns;

verus! {

/// Why no song could be made of what was answered about an address.
#[derive(Debug, Clone, Copy, PartialEq, Eq)]
pub enum MetadataFetchError {
    /// The program that was asked did not end well.
    ProbeFailed,
    /// The answer is no JSON document with a text as its `title`.
    MissingTitle,
    /// The answer has no number as its `duration`.
    MissingDuration,
    /// The `duration` that was answered is a number, but none that counts
    /// seconds from nought: as it is handed on it has a sign or an exponent,
    /// or it is above `u64::MAX`.
    InvalidDuration,
}

/// What a member of a JSON document holds, as far as a song is made of it.
#[derive(Debug, Clone, PartialEq, Eq)]
pub enum Member {
    /// There is no such member: the document is no JSON, is no object, or
    /// has no member of that name.
    Missing,
    /// The member holds this text.
    Text(String),
    /// The member holds a number, written here as `serde_json` displays it:
    /// a negative number with a sign, a very large or very small one with an
    /// exponent.
    Number(String),
    /// The member holds something else.
    Other,
}

/// A `Member`, apart from how it is held in memory.
pub enum MemberView {
    Missing,
    Text(Seq<char>),
    Number(Seq<char>),
    Other,
}

impl View for Member {
    type V = MemberView;

    open spec fn view(&self) -> MemberView {
        match self {
            Member::Missing => MemberView::Missing,
            Member::Text(text) => MemberView::Text(text@),
            Member::Number(number) => MemberView::Number(number@),
            Member::Other => MemberView::Other,
        }
    }
}

/// What the member `key` of the JSON document `doc` holds.
pub uninterp spec fn json_member(doc: Seq<u8>, key: Seq<char>) -> MemberView;

/// `serde_json::from_slice` reads `doc` as a `serde_json::Value`, and
/// `Value::get` looks up the member `key` in it. A text is handed on as it
/// is, a number as `serde_json::Number` displays it. The result is a
/// function of `doc` and `key`, which `json_member` names.
#[verifier::external_body]
fn member(doc: &[u8], key: &str) -> (found: Member)
    ensures
        found@ == json_member(doc@, key@),
{
    let value: serde_json::Value = match serde_json::from_slice(doc) {
        Ok(value) => value,
        Err(_) => return Member::Missing,
    };
    match value.get(key) {
        None => Member::Missing,
        Some(serde_json::Value::String(text)) => Member::Text(text.clone()),
        Some(serde_json::Value::Number(number)) => Member::Number(number.to_string()),
        Some(_) => Member::Other,
    }
}

/// The song at `url` as the answer describes it: the title is the text that
/// was answered, and the duration is the whole seconds of the number that
/// was answered. There is no song where the program did not end well, where
/// no text was answered as the title, and where no number was answered as
/// the duration. A duration is read as `seconds_of` reads it: digits, and
/// after them, if at all, a point and digits that are not counted. A number
/// that is handed on otherwise, with a sign or with an exponent, is not cut
/// to whole seconds but refused as `InvalidDuration`, and so is one above
/// `u64::MAX`.
pub open spec fn fetched_song(
    url: Seq<char>,
    succeeded: bool,
    title: MemberView,
    duration: MemberView,
) -> Result<SongView, MetadataFetchError> {
    if !succeeded {
        Err(MetadataFetchError::ProbeFailed)
    } else {
        match (title, duration) {
            (MemberView::Text(text), MemberView::Number(number)) => match seconds_of(number) {
                Some(seconds) => Ok(SongView { title: text, duration: seconds as nat, path: url }),
                None => Err(MetadataFetchError::InvalidDuration),
            },
            (MemberView::Text(_), _) => Err(MetadataFetchError::MissingDuration),
            _ => Err(MetadataFetchError::MissingTitle),
        }
    }
}

impl Song {
    /// The song at `url`, given whether the program that was asked about it
    /// `succeeded`, and what it answered as the `title` and as the
    /// `duration`. A duration with a sign or an exponent is refused, not
    /// cut to whole seconds.
    pub fn from_metadata(url: &str, succeeded: bool, title: Member, duration: Member) -> (r: Result<
        Song,
        MetadataFetchError,
    >)
        ensures
            match fetched_song(url@, succeeded, title@, duration@) {
                Ok(song) => r matches Ok(s) && s@ == song,
                Err(error) => r matches Err(e) && e == error,
            },
    {
        if !succeeded {
            return Err(MetadataFetchError::ProbeFailed);
        }
        let title = match title {
            Member::Text(text) => text,
            _ => {
                return Err(MetadataFetchError::MissingTitle);
            },
        };
        let number = match duration {
            Member::Number(number) => number,
            _ => {
                return Err(MetadataFetchError::MissingDuration);
            },
        };
        let digits = to_chars(number.as_str());
        assert(digits@.subrange(0, digits@.len() as int) == number@);
        match parse_seconds(&digits, 0, digits.len()) {
            Some(seconds) => Ok(Song { title, duration: seconds, path: String::from_str(url) }),
            None => Err(MetadataFetchError::InvalidDuration),
        }
    }

    /// The song at `url`, given whether the program that was asked about it
    /// `succeeded` and what it wrote as its `output`.
    pub fn parse_ytdlp(url: &str, succeeded: bool, output: &[u8]) -> (r: Result<
        Song,
        MetadataFetchError,
    >)
        ensures
            match fetched_song(
                url@,
                succeeded,
                json_member(output@, "title"@),
                json_member(output@, "duration"@),
            ) {
                Ok(song) => r matches Ok(s) && s@ == song,
                Err(error) => r matches Err(e) && e == error,
            },
    {
        let title = member(output, "title");
        let duration = member(output, "duration");
        Song::from_metadata(url, succeeded, title, duration)
    }
}

} // verus!
