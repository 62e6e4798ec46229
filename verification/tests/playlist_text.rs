use tori::m3u::grammar::ParseError;
use tori::m3u::parser::Parser;
use tori::m3u::playlist_management::{delete_song, rename_song, swap_song, StoreError};
use tori::m3u::Song;

fn song(title: &str, duration: u64, path: &str) -> Song {
    Song { title: title.to_string(), duration, path: path.to_string() }
}

fn titles(content: &str) -> Vec<String> {
    Song::parse_m3u(content).unwrap().into_iter().map(|s| s.title).collect()
}

#[test]
fn serialize_writes_two_lines() {
    let s = song("Blue", 125, "/music/blue.mp3");
    assert_eq!(s.serialize(), "#EXTINF:125,Blue\n/music/blue.mp3\n");
}

#[test]
fn serialize_writes_zero_and_large_durations() {
    assert_eq!(song("a", 0, "p").serialize(), "#EXTINF:0,a\np\n");
    assert_eq!(song("a", 10, "p").serialize(), "#EXTINF:10,a\np\n");
    assert_eq!(
        song("a", u64::MAX, "p").serialize(),
        "#EXTINF:18446744073709551615,a\np\n"
    );
}

#[test]
fn round_trip_of_one_song() {
    let s = song("Pagan, Pt. 2", 341, "https://www.youtube.com/watch?v=Yyphq7C62jE");
    let text = format!("#EXTM3U\n{}", s.serialize());
    let read = Song::parse_m3u(&text).unwrap();
    assert_eq!(read.len(), 1);
    assert_eq!(read[0].title, s.title);
    assert_eq!(read[0].duration, s.duration);
    assert_eq!(read[0].path, s.path);
}

#[test]
fn round_trip_keeps_unicode_titles() {
    let s = song("Ænima — ünïcödé", 7, "/música/ç.flac");
    let text = format!("#EXTM3U\n{}", s.serialize());
    let read = Song::parse_m3u(&text).unwrap();
    assert_eq!(read.len(), 1);
    assert_eq!(read[0].title, "Ænima — ünïcödé");
    assert_eq!(read[0].path, "/música/ç.flac");
}

#[test]
fn parse_reads_songs_in_file_order() {
    let text = "#EXTM3U\n#EXTINF:1,one\n/a\n#EXTINF:2,two\n/b\n#EXTINF:3,three\n/c\n";
    assert_eq!(titles(text), vec!["one", "two", "three"]);
}

#[test]
fn parse_accepts_a_missing_header() {
    let text = "#EXTINF:1,one\n/a\n";
    let songs = Song::parse_m3u(text).unwrap();
    assert_eq!(songs.len(), 1);
    assert_eq!(songs[0].path, "/a");
}

#[test]
fn parse_of_empty_text_has_no_songs() {
    assert!(Song::parse_m3u("").unwrap().is_empty());
    assert!(Song::parse_m3u("#EXTM3U\n").unwrap().is_empty());
    assert!(Song::parse_m3u("#EXTM3U").unwrap().is_empty());
    assert!(Song::parse_m3u("\n  \n\t\n").unwrap().is_empty());
}

#[test]
fn parse_skips_blank_lines_and_trims() {
    let text = "\n#EXTM3U\r\n\r\n#EXTINF:12,padded title  \r\n\n   /music/a.mp3 \t\r\n";
    let songs = Song::parse_m3u(text).unwrap();
    assert_eq!(songs.len(), 1);
    assert_eq!(songs[0].title, "padded title");
    assert_eq!(songs[0].duration, 12);
    assert_eq!(songs[0].path, "/music/a.mp3");
}

#[test]
fn parse_reads_a_path_without_metadata() {
    let songs = Song::parse_m3u("#EXTM3U\n/music/a.mp3\n").unwrap();
    assert_eq!(songs.len(), 1);
    assert_eq!(songs[0].title, "");
    assert_eq!(songs[0].duration, 0);
    assert_eq!(songs[0].path, "/music/a.mp3");
}

#[test]
fn parse_counts_whole_seconds() {
    let songs = Song::parse_m3u("#EXTINF:125.9,Blue\n/b\n#EXTINF:7.,x\n/c\n").unwrap();
    assert_eq!(songs[0].duration, 125);
    assert_eq!(songs[1].duration, 7);
}

#[test]
fn parse_keeps_commas_in_titles() {
    let songs = Song::parse_m3u("#EXTINF:3,a,b,,c\n/p\n").unwrap();
    assert_eq!(songs[0].title, "a,b,,c");
}

#[test]
fn parse_rejects_a_metadata_line_without_path() {
    assert_eq!(
        Song::parse_m3u("#EXTM3U\n#EXTINF:1,one\n").unwrap_err(),
        ParseError::MissingPath
    );
    assert_eq!(
        Song::parse_m3u("#EXTINF:1,one\n#EXTINF:2,two\n/b\n").unwrap_err(),
        ParseError::MissingPath
    );
}

#[test]
fn parse_rejects_bad_durations() {
    for bad in ["abc", "-1", "", " 5", "1e3", ".5", "5.x", "18446744073709551616"] {
        let text = format!("#EXTINF:{},t\n/p\n", bad);
        assert_eq!(Song::parse_m3u(&text).unwrap_err(), ParseError::InvalidDuration, "{}", bad);
    }
    assert_eq!(
        Song::parse_m3u("#EXTINF:18446744073709551615,t\n/p\n").unwrap()[0].duration,
        u64::MAX
    );
}

#[test]
fn parse_rejects_a_metadata_line_without_comma() {
    assert_eq!(Song::parse_m3u("#EXTINF:12\n/p\n").unwrap_err(), ParseError::MissingSeparator);
}

#[test]
fn parse_rejects_unknown_directives() {
    assert_eq!(
        Song::parse_m3u("#EXTM3U\n#EXTGRP:rock\n/p\n").unwrap_err(),
        ParseError::UnknownDirective
    );
    assert_eq!(
        Song::parse_m3u("#EXTM3U\n/p\n#EXTM3U\n").unwrap_err(),
        ParseError::UnknownDirective
    );
}

#[test]
fn cursor_counts_bytes() {
    let text = "#EXTM3U\n#EXTINF:1,é\n/ü\nrest";
    let mut parser = Parser::from_string(text);
    assert_eq!(parser.cursor(), 0);
    assert_eq!(parser.next_header(false), Ok(true));
    assert_eq!(parser.cursor(), 8);
    let first = parser.next_song().unwrap().unwrap();
    assert_eq!(first.title, "é");
    assert_eq!(first.path, "/ü");
    assert_eq!(parser.cursor(), text.len() - 4);
    assert_eq!(&text[parser.cursor()..], "rest");
    assert_eq!(parser.consumed_text(), &text[..parser.cursor()]);
    assert_eq!(parser.remaining_text(), "rest");
    let second = parser.next_song().unwrap().unwrap();
    assert_eq!(second.path, "rest");
    assert_eq!(parser.cursor(), text.len());
    assert!(parser.next_song().unwrap().is_none());
    assert_eq!(parser.cursor(), text.len());
}

#[test]
fn cursor_counts_four_byte_characters() {
    let text = "#EXTINF:1,𝄞\n/€\n";
    let mut parser = Parser::from_string(text);
    parser.next_song().unwrap().unwrap();
    assert_eq!(parser.cursor(), text.len());
}

#[test]
fn header_is_read_once() {
    let mut parser = Parser::from_string("#EXTM3U\n/a\n");
    assert_eq!(parser.next_header(true), Ok(true));
    let at = parser.cursor();
    assert_eq!(parser.next_header(false), Ok(false));
    assert_eq!(parser.cursor(), at);
}

#[test]
fn required_header_must_be_there() {
    let mut parser = Parser::from_string("/a\n");
    assert_eq!(parser.next_header(true), Err(ParseError::MissingHeader));
    assert_eq!(parser.cursor(), 0);
    assert_eq!(parser.next_header(false), Ok(false));
    let mut empty = Parser::from_string("");
    assert_eq!(empty.next_header(true), Ok(false));
    let mut blank = Parser::from_string(" \n\n");
    assert_eq!(blank.next_header(false), Ok(false));
    assert_eq!(blank.next_header(true), Err(ParseError::MissingHeader));
    let mut late = Parser::from_string("\n \n  #EXTM3U8 \r\n/a");
    assert_eq!(late.next_header(true), Ok(true));
    assert_eq!(late.remaining_text(), "/a");
}

#[test]
fn error_leaves_the_cursor_in_place() {
    let mut parser = Parser::from_string("#EXTM3U\n#EXTINF:x,t\n/p\n");
    parser.next_header(false).unwrap();
    assert_eq!(parser.next_song().unwrap_err(), ParseError::InvalidDuration);
    assert_eq!(parser.cursor(), 8);
}

#[test]
fn all_songs_reads_header_and_songs() {
    let mut parser = Parser::from_string("#EXTM3U\n#EXTINF:1,one\n/a\n/b\n");
    let songs = parser.all_songs().unwrap();
    assert_eq!(songs.len(), 2);
    assert_eq!(songs[1].path, "/b");
    assert_eq!(parser.remaining_text(), "");
}

#[test]
fn delete_removes_only_the_record() {
    let text = "#EXTM3U\n#EXTINF:1,one\n/a\n\n#EXTINF:2,two\n  /b\n#EXTINF:3.5,three\n/c";
    assert_eq!(
        delete_song(text, 1).unwrap(),
        "#EXTM3U\n#EXTINF:1,one\n/a\n#EXTINF:3.5,three\n/c"
    );
    assert_eq!(
        delete_song(text, 0).unwrap(),
        "#EXTM3U\n\n#EXTINF:2,two\n  /b\n#EXTINF:3.5,three\n/c"
    );
    assert_eq!(delete_song(text, 2).unwrap(), "#EXTM3U\n#EXTINF:1,one\n/a\n\n#EXTINF:2,two\n  /b\n");
    assert_eq!(titles(&delete_song(text, 1).unwrap()), vec!["one", "three"]);
}

#[test]
fn delete_out_of_range_is_an_error() {
    let text = "#EXTM3U\n#EXTINF:1,one\n/a\n";
    assert_eq!(delete_song(text, 1).unwrap_err(), StoreError::IndexOutOfRange);
    assert_eq!(delete_song(text, 7).unwrap_err(), StoreError::IndexOutOfRange);
    assert_eq!(delete_song("", 0).unwrap_err(), StoreError::IndexOutOfRange);
}

#[test]
fn an_index_far_out_of_range_is_found_out_at_the_end_of_the_text() {
    let text = "#EXTM3U\n#EXTINF:1,one\n/a\n";
    assert_eq!(delete_song(text, usize::MAX).unwrap_err(), StoreError::IndexOutOfRange);
    assert_eq!(rename_song(text, usize::MAX, "x").unwrap_err(), StoreError::IndexOutOfRange);
    assert_eq!(swap_song(text, usize::MAX).unwrap(), None);
}

#[test]
fn delete_reports_a_malformed_playlist() {
    let text = "#EXTM3U\n#EXTINF:1,one\n/a\n#EXTINF:bad,two\n/b\n";
    assert_eq!(
        delete_song(text, 1).unwrap_err(),
        StoreError::MalformedPlaylist(ParseError::InvalidDuration)
    );
    assert_eq!(
        delete_song(text, 3).unwrap_err(),
        StoreError::MalformedPlaylist(ParseError::InvalidDuration)
    );
    assert_eq!(delete_song(text, 0).unwrap(), "#EXTM3U\n#EXTINF:bad,two\n/b\n");
}

#[test]
fn rename_rewrites_one_record() {
    let text = "#EXTM3U\n#EXTINF:1,one\n/a\n#EXTINF:2.75,two\n /b \n#EXTINF:3,three\n/c\n";
    assert_eq!(
        rename_song(text, 1, "deux").unwrap(),
        "#EXTM3U\n#EXTINF:1,one\n/a\n#EXTINF:2,deux\n/b\n#EXTINF:3,three\n/c\n"
    );
    assert_eq!(titles(&rename_song(text, 2, "trois").unwrap()), vec!["one", "two", "trois"]);
}

#[test]
fn rename_out_of_range_is_an_error() {
    assert_eq!(
        rename_song("#EXTM3U\n#EXTINF:1,one\n/a\n", 1, "x").unwrap_err(),
        StoreError::IndexOutOfRange
    );
}

#[test]
fn swap_exchanges_neighbours() {
    let text = "#EXTM3U\n#EXTINF:1,one\n/a\n#EXTINF:2,two\n/b\n#EXTINF:3,three\n/c\n";
    assert_eq!(
        swap_song(text, 0).unwrap().unwrap(),
        "#EXTM3U\n#EXTINF:2,two\n/b\n#EXTINF:1,one\n/a\n#EXTINF:3,three\n/c\n"
    );
    assert_eq!(
        swap_song(text, 1).unwrap().unwrap(),
        "#EXTM3U\n#EXTINF:1,one\n/a\n#EXTINF:3,three\n/c\n#EXTINF:2,two\n/b\n"
    );
}

#[test]
fn swap_without_a_neighbour_changes_nothing() {
    let text = "#EXTM3U\n#EXTINF:1,one\n/a\n#EXTINF:2,two\n/b\n";
    assert_eq!(swap_song(text, 1).unwrap(), None);
    assert_eq!(swap_song(text, 2).unwrap(), None);
    assert_eq!(swap_song(text, 9).unwrap(), None);
    assert_eq!(swap_song("", 0).unwrap(), None);
}

#[test]
fn swap_reports_a_malformed_neighbour() {
    let text = "#EXTM3U\n#EXTINF:1,one\n/a\n#EXTINF:2,two\n";
    assert_eq!(
        swap_song(text, 0).unwrap_err(),
        StoreError::MalformedPlaylist(ParseError::MissingPath)
    );
}

#[test]
fn append_to_an_empty_playlist_writes_the_header() {
    let blue = song("Blue", 125, "/music/blue.mp3");
    assert_eq!(blue.add_to_playlist(""), "#EXTM3U\n#EXTINF:125,Blue\n/music/blue.mp3\n");
}

#[test]
fn append_keeps_an_existing_header() {
    let s = song("two", 2, "/b");
    assert_eq!(
        s.add_to_playlist("#EXTM3U\n#EXTINF:1,one\n/a\n"),
        "#EXTM3U\n#EXTINF:1,one\n/a\n#EXTINF:2,two\n/b\n"
    );
}

#[test]
fn append_closes_the_last_line() {
    let s = song("two", 2, "/b");
    assert_eq!(
        s.add_to_playlist("#EXTM3U\n#EXTINF:1,one\n/a"),
        "#EXTM3U\n#EXTINF:1,one\n/a\n#EXTINF:2,two\n/b\n"
    );
    assert_eq!(s.add_to_playlist("#EXTM3U"), "#EXTM3U\n#EXTINF:2,two\n/b\n");
}

#[test]
fn append_to_a_headerless_playlist_adds_one_header() {
    let new = song("new", 9, "/new");
    let old = "#EXTINF:1,one\n/a\n#EXTINF:2,two\n/b";
    let text = new.add_to_playlist(old);
    assert_eq!(text, "#EXTM3U\n#EXTINF:1,one\n/a\n#EXTINF:2,two\n/b\n#EXTINF:9,new\n/new\n");
    assert_eq!(text.matches("#EXTM3U").count(), 1);
    assert_eq!(titles(&text), vec!["one", "two", "new"]);
}

#[test]
fn appended_songs_stay_in_order() {
    let mut text = String::new();
    let songs = vec![song("s0", 0, "/0"), song("s1", 1, "/1"), song("s2", 2, "/2"), song("s3", 3, "/3")];
    for s in &songs {
        text = s.add_to_playlist(&text);
    }
    let read = Song::parse_m3u(&text).unwrap();
    assert_eq!(read.len(), songs.len());
    for (a, b) in read.iter().zip(songs.iter()) {
        assert_eq!(a.title, b.title);
        assert_eq!(a.duration, b.duration);
        assert_eq!(a.path, b.path);
    }
}

#[test]
fn jazz_scenario() {
    let created = tori::m3u::playlist_management::create_playlist("Jazz", false).unwrap();
    assert_eq!(created, "");
    let blue = song("Blue", 125, "/music/blue.mp3");
    let text = blue.add_to_playlist(&created);
    assert_eq!(text, "#EXTM3U\n#EXTINF:125,Blue\n/music/blue.mp3\n");
    assert_eq!(delete_song(&text, 0).unwrap(), "#EXTM3U\n");
}
