//! A playlist store for a terminal music player: songs, the text format in
//! which playlists are kept, edits of that text, and the choices made while
//! songs are added.
//!
//! Nothing here reads or writes a file, runs a program or waits: texts and
//! what was found on disk come in as values, and texts and decisions go out.
//!
//! - `m3u` holds the songs, the playlist format (`grammar`), its reader
//!   (`parser`), the edits of a playlist (`playlist_management`), the
//!   addition of songs from files, directories and addresses (`ingestion`,
//!   `probe`), and what is proved of all these (`reading`, `laws`).
//! - `filtered_list` is the list of the songs that pass a filter, with one
//!   of them selected.
//! - `config` says where playlists are kept.
//! - `text` holds what the others need to know of characters and lines.

pub mod config;
pub mod filtered_list;
pub mod m3u;
pub mod text;
