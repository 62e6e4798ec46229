use tori::config::{Config, OptionalConfig};
use tori::m3u::playlist_management::{
    create_playlist, rename_playlist, CreatePlaylistError, RenamePlaylistError,
};
use tori::m3u::Song;

#[test]
fn test__rename_playlist_files_being_changed() {
    let name: &str = "Original Playlist";
    let new_name: &str = "Renamed Playlist";
    create_playlist(name, false).expect("Failed to create playlist while testing");
    assert_eq!(rename_playlist(name, new_name, false), Ok(()));
    let config = Config { playlists_dir: "/tmp/test_tori".to_string() };
    assert_ne!(config.playlist_path(name), config.playlist_path(new_name));
    assert_eq!(config.playlist_path(new_name), "/tmp/test_tori/Renamed Playlist.m3u8");
}

#[test]
fn test_rename_playlist_musics_are_being_kept() {
    let original_playlist: &str = "Pagans";
    let original_songs: Vec<String> = vec![
        "https://www.youtube.com/watch?v=KIvb6YchUsM".to_string(),
        "https://www.youtube.com/watch?v=Yyphq7C62jE".to_string(),
        "https://www.youtube.com/watch?v=EVnvh76S24s".to_string(),
    ];
    let original_songs_name: Vec<String> = vec![
        "Pagan".to_string(),
        "Pagan, Pt. 2".to_string(),
        "VITALISM | PAGAN III | GUITAR PLAYTHROUGH".to_string(),
    ];

    let mut content = create_playlist(original_playlist, false).unwrap();
    for (path, title) in original_songs.iter().zip(original_songs_name.iter()) {
        let song = Song { title: title.clone(), duration: 0, path: path.clone() };
        content = song.add_to_playlist(&content);
    }

    assert_eq!(rename_playlist("Pagans", "Religious", false), Ok(()));
    let config = Config { playlists_dir: "test_tori".to_string() };
    assert_eq!(config.playlist_path("Religious"), "test_tori/Religious.m3u8");

    let songs_names: Vec<String> =
        Song::parse_m3u(&content).unwrap().iter().map(|song| song.title.clone()).collect();

    original_songs_name.iter().for_each(|song_name| {
        assert!(songs_names.iter().any(|title| title == song_name));
    });
}

#[test]
fn test_rename_playlist_new_name_empty() {
    let original_playlist: &str = "Test Playlist";
    let _ = create_playlist(original_playlist, false);

    let result = rename_playlist(original_playlist, "", false);

    assert!(matches!(result, Err(RenamePlaylistError::EmptyPlaylistName)));
    assert!(matches!(
        rename_playlist(original_playlist, "", true),
        Err(RenamePlaylistError::EmptyPlaylistName)
    ));
}

#[test]
fn test_rename_playlist_new_name_already_exists() {
    let playlist1: &str = "Playlist 1";
    let playlist2: &str = "Playlist 2";
    let _ = create_playlist(playlist1, false);
    let _ = create_playlist(playlist2, false);

    let result = rename_playlist(playlist1, playlist2, true);

    assert!(matches!(result, Err(RenamePlaylistError::PlaylistAlreadyExists)));
}

#[test]
fn test_rename_playlist_contains_invalid_chars() {
    let invalid_chars: Vec<char> = vec!['\\', '/'];

    let playlist_name: &str = "Playlist 1";
    let _ = create_playlist(playlist_name, false);

    invalid_chars.iter().for_each(|invalid_char| {
        assert_eq!(
            rename_playlist(playlist_name, invalid_char.to_string().as_str(), false),
            Err(RenamePlaylistError::InvalidChar(*invalid_char))
        );
    });
}

#[test]
fn rename_onto_a_name_with_a_separator_fails() {
    assert_eq!(rename_playlist("x", "a/b", false), Err(RenamePlaylistError::InvalidChar('/')));
    assert_eq!(rename_playlist("x", "a/b", true), Err(RenamePlaylistError::InvalidChar('/')));
    assert_eq!(rename_playlist("x", "a\\b/c", false), Err(RenamePlaylistError::InvalidChar('/')));
    assert_eq!(rename_playlist("x", "a\\b", false), Err(RenamePlaylistError::InvalidChar('\\')));
    assert_eq!(rename_playlist("a/b", "ab", false), Ok(()));
}

#[test]
fn create_checks_the_name_before_the_file() {
    assert_eq!(create_playlist("a/b", true), Err(CreatePlaylistError::InvalidChar('/')));
    assert_eq!(create_playlist("a\\b", false), Err(CreatePlaylistError::InvalidChar('\\')));
    assert_eq!(create_playlist("Jazz", true), Err(CreatePlaylistError::PlaylistAlreadyExists));
    assert_eq!(create_playlist("Jazz", false), Ok(String::new()));
    assert_eq!(create_playlist("", false), Ok(String::new()));
}

#[test]
fn playlist_path_joins_directory_and_name() {
    let config = Config { playlists_dir: "/home/me/Music/tori".to_string() };
    assert_eq!(config.playlist_path("Jazz"), "/home/me/Music/tori/Jazz.m3u8");
    let slash = Config { playlists_dir: "playlists/".to_string() };
    assert_eq!(slash.playlist_path("Jazz"), "playlists/Jazz.m3u8");
    let here = Config { playlists_dir: String::new() };
    assert_eq!(here.playlist_path("Jazz"), "Jazz.m3u8");
}

#[test]
fn default_directory_is_inside_the_audio_directory() {
    assert_eq!(Config::with_audio_dir(Some("/home/me/Music")).playlists_dir, "/home/me/Music/tori");
    assert_eq!(Config::with_audio_dir(None).playlists_dir, "playlists");
}

#[test]
fn merge_takes_what_is_set() {
    let base = Config { playlists_dir: "a".to_string() };
    let kept = base.clone().merge(OptionalConfig { playlists_dir: None });
    assert_eq!(kept.playlists_dir, "a");
    let set = base.merge(OptionalConfig { playlists_dir: Some("b".to_string()) });
    assert_eq!(set.playlists_dir, "b");
}
