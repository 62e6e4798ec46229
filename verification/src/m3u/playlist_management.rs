//! Edits of a playlist's text, and the rules for naming playlists.
//!
//! Every edit of a song reads the text up to the song, keeps what stands
//! before and after the song's record as it is, and replaces the record
//! alone. Nothing here touches a file: the text comes in and the new text
//! goes out.

use crate::m3u::grammar::{after_header, next_record, serialized, ParseError, Record, SongView};
use crate::m3u::parser::Parser;
use crate::m3u::Song;
use vstd::prelude::*;
use vstd::string::StringExecFns;

verus! {

/// Why a song of a playlist could not be edited.
#[derive(Debug, Clone, Copy, PartialEq, Eq)]
pub enum StoreError {
    /// The playlist has no song at the index.
    IndexOutOfRange,
    /// The text is not a playlist, as far as it had to be read.
    MalformedPlaylist(ParseError),
}

/// Why a playlist could not be created.
#[derive(Debug, Clone, Copy, PartialEq, Eq)]
pub enum CreatePlaylistError {
    /// There is a playlist of that name.
    PlaylistAlreadyExists,
    /// The name holds this character, which no name may hold.
    InvalidChar(char),
}

/// Why a playlist could not be renamed.
#[derive(Debug, Clone, Copy, PartialEq, Eq)]
pub enum RenamePlaylistError {
    /// There is a playlist of the new name.
    PlaylistAlreadyExists,
    /// The new name is empty.
    EmptyPlaylistName,
    /// The new name holds this character, which no name may hold.
    InvalidChar(char),
}

/// The first character of `name` that a playlist's name may not hold, of
/// `/` and `\` in this order.
pub open spec fn invalid_char(name: Seq<char>) -> Option<char> {
    if name.contains('/') {
        Some('/')
    } else if name.contains('\\') {
        Some('\\')
    } else {
        None
    }
}

/// Whether `name` holds `wanted`.
fn holds_char(name: &str, wanted: char) -> (b: bool)
    ensures
        b == name@.contains(wanted),
{
    let n = name.unicode_len();
    let mut i: usize = 0;
    while i < n
        invariant
            i <= n == name@.len(),
            forall|j: int| 0 <= j < i ==> name@[j] != wanted,
        decreases n - i,
    {
        if name.get_char(i) == wanted {
            return true;
        }
        i += 1;
    }
    false
}

/// Looks for a character that a playlist's name may not hold.
fn find_invalid_char(name: &str) -> (c: Option<char>)
    ensures
        c == invalid_char(name@),
{
    if holds_char(name, '/') {
        Some('/')
    } else if holds_char(name, '\\') {
        Some('\\')
    } else {
        None
    }
}

/// Decides whether a playlist called `playlist_name` may be created, given
/// whether its file `exists` already, and gives the text that the new
/// playlist starts with: none.
pub fn create_playlist(playlist_name: &str, exists: bool) -> (r: Result<
    String,
    CreatePlaylistError,
>)
    ensures
        match invalid_char(playlist_name@) {
            Some(c) => r == Err::<String, _>(CreatePlaylistError::InvalidChar(c)),
            None => if exists {
                r == Err::<String, _>(CreatePlaylistError::PlaylistAlreadyExists)
            } else {
                r matches Ok(text) && text@.len() == 0
            },
        },
{
    match find_invalid_char(playlist_name) {
        Some(c) => Err(CreatePlaylistError::InvalidChar(c)),
        None => if exists {
            Err(CreatePlaylistError::PlaylistAlreadyExists)
        } else {
            Ok(String::new())
        },
    }
}

/// Decides whether a playlist may take the name `new_name`, given whether a
/// file of that name `exists` already. The name that the playlist has now
/// plays no part in it.
pub fn rename_playlist(playlist_name: &str, new_name: &str, exists: bool) -> (r: Result<
    (),
    RenamePlaylistError,
>)
    ensures
        r == if new_name@.len() == 0 {
            Err::<(), _>(RenamePlaylistError::EmptyPlaylistName)
        } else {
            match invalid_char(new_name@) {
                Some(c) => Err(RenamePlaylistError::InvalidChar(c)),
                None => if exists {
                    Err(RenamePlaylistError::PlaylistAlreadyExists)
                } else {
                    Ok(())
                },
            }
        },
{
    if new_name.unicode_len() == 0 {
        return Err(RenamePlaylistError::EmptyPlaylistName);
    }
    match find_invalid_char(new_name) {
        Some(c) => Err(RenamePlaylistError::InvalidChar(c)),
        None => if exists {
            Err(RenamePlaylistError::PlaylistAlreadyExists)
        } else {
            Ok(())
        },
    }
}

/// What is left of `s` after `n` records. Past the last record nothing is
/// left.
pub open spec fn skip_songs(s: Seq<char>, n: nat) -> Result<Seq<char>, ParseError>
    decreases n,
{
    if n == 0 {
        Ok(s)
    } else {
        match next_record(s) {
            Record::End => Ok(Seq::empty()),
            Record::Malformed { error } => Err(error),
            Record::Song { song, rest } => skip_songs(rest, (n - 1) as nat),
        }
    }
}

/// The record of the song at `index`, as three parts of the text: what
/// stands before the record, the song, and what stands after the record.
pub open spec fn locate(text: Seq<char>, index: nat) -> Result<
    (Seq<char>, SongView, Seq<char>),
    StoreError,
> {
    match skip_songs(after_header(text), index) {
        Err(error) => Err(StoreError::MalformedPlaylist(error)),
        Ok(at) => match next_record(at) {
            Record::End => Err(StoreError::IndexOutOfRange),
            Record::Malformed { error } => Err(StoreError::MalformedPlaylist(error)),
            Record::Song { song, rest } => Ok((text.take(text.len() - at.len()), song, rest)),
        },
    }
}

/// The text without the record of the song at `index`.
pub open spec fn deleted(text: Seq<char>, index: nat) -> Result<Seq<char>, StoreError> {
    match locate(text, index) {
        Err(error) => Err(error),
        Ok((before, song, after)) => Ok(before + after),
    }
}

/// The text in which the song at `index` is called `title`.
pub open spec fn renamed(text: Seq<char>, index: nat, title: Seq<char>) -> Result<
    Seq<char>,
    StoreError,
> {
    match locate(text, index) {
        Err(error) => Err(error),
        Ok((before, song, after)) => Ok(
            before + serialized(
                SongView { title, duration: song.duration, path: song.path },
            ) + after,
        ),
    }
}

/// The text in which the song at `index` and the one after it have changed
/// places; `None` where the playlist has no two such songs.
pub open spec fn swapped(text: Seq<char>, index: nat) -> Result<Option<Seq<char>>, StoreError> {
    match locate(text, index) {
        Err(StoreError::IndexOutOfRange) => Ok(None),
        Err(error) => Err(error),
        Ok((before, first, middle)) => match next_record(middle) {
            Record::End => Ok(None),
            Record::Malformed { error } => Err(StoreError::MalformedPlaylist(error)),
            Record::Song { song, rest } => Ok(
                Some(before + serialized(song) + serialized(first) + rest),
            ),
        },
    }
}

/// Reads the header and `index` songs.
fn seek(content: &str, index: usize) -> (r: Result<Parser, ParseError>)
    ensures
        match skip_songs(after_header(content@), index as nat) {
            Ok(at) => r matches Ok(parser) && parser.wf() && parser.text() == content@
                && parser.remaining() == at,
            Err(error) => r matches Err(e) && e == error,
        },
{
    let mut parser = Parser::from_string(content);
    assert(parser.remaining() == content@);
    let _ = parser.next_header(false);
    let mut done: usize = 0;
    while done < index
        invariant
            done <= index,
            parser.wf(),
            parser.text() == content@,
            skip_songs(after_header(content@), index as nat) == skip_songs(
                parser.remaining(),
                (index - done) as nat,
            ),
        decreases index - done,
    {
        match parser.next_song() {
            Err(error) => {
                return Err(error);
            },
            Ok(None) => {
                return Ok(parser);
            },
            Ok(Some(_)) => {},
        }
        done += 1;
    }
    Ok(parser)
}

/// Removes the song at `index` from the playlist `content`. The text before
/// and after the song's record is kept as it is.
pub fn delete_song(content: &str, index: usize) -> (r: Result<String, StoreError>)
    ensures
        match deleted(content@, index as nat) {
            Ok(text) => r matches Ok(s) && s@ == text,
            Err(error) => r matches Err(e) && e == error,
        },
{
    let mut parser = match seek(content, index) {
        Err(error) => {
            return Err(StoreError::MalformedPlaylist(error));
        },
        Ok(parser) => parser,
    };
    proof {
        parser.lemma_position_in_text();
    }
    let mut out = parser.consumed_text();
    match parser.next_song() {
        Err(error) => Err(StoreError::MalformedPlaylist(error)),
        Ok(None) => Err(StoreError::IndexOutOfRange),
        Ok(Some(_)) => {
            let after = parser.remaining_text();
            out.append(after.as_str());
            Ok(out)
        },
    }
}

/// Gives the song at `index` of the playlist `content` the title `new_name`.
/// The song's record is written anew; the text before and after it is kept
/// as it is.
pub fn rename_song(content: &str, index: usize, new_name: &str) -> (r: Result<String, StoreError>)
    ensures
        match renamed(content@, index as nat, new_name@) {
            Ok(text) => r matches Ok(s) && s@ == text,
            Err(error) => r matches Err(e) && e == error,
        },
{
    let mut parser = match seek(content, index) {
        Err(error) => {
            return Err(StoreError::MalformedPlaylist(error));
        },
        Ok(parser) => parser,
    };
    proof {
        parser.lemma_position_in_text();
    }
    let mut out = parser.consumed_text();
    match parser.next_song() {
        Err(error) => Err(StoreError::MalformedPlaylist(error)),
        Ok(None) => Err(StoreError::IndexOutOfRange),
        Ok(Some(song)) => {
            let renamed = Song {
                title: String::from_str(new_name),
                duration: song.duration,
                path: song.path,
            };
            let record = renamed.serialize();
            let after = parser.remaining_text();
            out.append(record.as_str());
            out.append(after.as_str());
            Ok(out)
        },
    }
}

/// Swaps the song at `index` of the playlist `content` with the one after
/// it. Both records are written anew, in the place of the two; the text
/// before and after them is kept as it is. Where the playlist has no two
/// such songs there is nothing to write.
pub fn swap_song(content: &str, index: usize) -> (r: Result<Option<String>, StoreError>)
    ensures
        match swapped(content@, index as nat) {
            Ok(Some(text)) => r matches Ok(Some(s)) && s@ == text,
            Ok(None) => r matches Ok(None),
            Err(error) => r matches Err(e) && e == error,
        },
{
    let mut parser = match seek(content, index) {
        Err(error) => {
            return Err(StoreError::MalformedPlaylist(error));
        },
        Ok(parser) => parser,
    };
    proof {
        parser.lemma_position_in_text();
    }
    let mut out = parser.consumed_text();
    let first = match parser.next_song() {
        Err(error) => {
            return Err(StoreError::MalformedPlaylist(error));
        },
        Ok(None) => {
            return Ok(None);
        },
        Ok(Some(song)) => song,
    };
    let second = match parser.next_song() {
        Err(error) => {
            return Err(StoreError::MalformedPlaylist(error));
        },
        Ok(None) => {
            return Ok(None);
        },
        Ok(Some(song)) => song,
    };
    let after = parser.remaining_text();
    out.append(second.serialize().as_str());
    out.append(first.serialize().as_str());
    out.append(after.as_str());
    Ok(Some(out))
}

} // verus!
