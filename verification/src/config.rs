//! Where the playlists are kept.

use vstd::prelude::*;
use vstd::string::StringExecFns;

verus! {

/// The settings of the player that the playlist store reads.
#[derive(Debug, Clone)]
pub struct Config {
    /// The directory that holds one file for each playlist.
    pub playlists_dir: String,
}

/// Settings as a user gives them: each may be left out.
#[derive(Debug, Clone)]
pub struct OptionalConfig {
    pub playlists_dir: Option<String>,
}

/// The end of the name of every playlist file: `.m3u8`.
pub open spec fn playlist_extension() -> Seq<char> {
    seq!['.', 'm', '3', 'u', '8']
}

/// The directory, inside the user's audio directory, where playlists are
/// kept unless the user names another: `tori`.
pub open spec fn application_dir() -> Seq<char> {
    seq!['t', 'o', 'r', 'i']
}

/// The directory where playlists are kept where the user has no audio
/// directory: `playlists`, below the directory that the player runs in.
pub open spec fn fallback_dir() -> Seq<char> {
    seq!['p', 'l', 'a', 'y', 'l', 'i', 's', 't', 's']
}

/// The path of `name` inside the directory `dir`: the two with one `/`
/// between them, and `name` alone where `dir` is empty.
pub open spec fn joined(dir: Seq<char>, name: Seq<char>) -> Seq<char> {
    if dir.len() == 0 {
        name
    } else if dir.last() == '/' {
        dir + name
    } else {
        dir + seq!['/'] + name
    }
}

/// The path of the file that holds the playlist `name`, for playlists kept
/// in `dir`.
pub open spec fn playlist_file(dir: Seq<char>, name: Seq<char>) -> Seq<char> {
    joined(dir, name + playlist_extension())
}

/// Whether the text `s` ends with `/`.
fn ends_with_slash(s: &str) -> (b: bool)
    ensures
        b == (s@.len() > 0 && s@.last() == '/'),
{
    let n = s.unicode_len();
    n > 0 && s.get_char(n - 1) == '/'
}

/// The path of `name` inside the directory `dir`.
fn join(dir: &str, name: &str) -> (path: String)
    ensures
        path@ == joined(dir@, name@),
{
    let mut path = String::from_str(dir);
    if dir.unicode_len() > 0 && !ends_with_slash(dir) {
        path.push('/');
    }
    path.append(name);
    path
}

impl Config {
    /// The settings for a user who has set nothing: playlists are kept in
    /// `tori` inside the audio directory, or in `playlists` where the user
    /// has no audio directory.
    pub fn with_audio_dir(audio_dir: Option<&str>) -> (config: Config)
        ensures
            config.playlists_dir@ == match audio_dir {
                Some(dir) => joined(dir@, application_dir()),
                None => fallback_dir(),
            },
    {
        let playlists_dir = match audio_dir {
            Some(dir) => {
                let mut name = String::new();
                name.push('t');
                name.push('o');
                name.push('r');
                name.push('i');
                join(dir, name.as_str())
            },
            None => {
                let mut name = String::new();
                name.push('p');
                name.push('l');
                name.push('a');
                name.push('y');
                name.push('l');
                name.push('i');
                name.push('s');
                name.push('t');
                name.push('s');
                name
            },
        };
        Config { playlists_dir }
    }

    /// These settings, but for what `other` sets.
    pub fn merge(self, other: OptionalConfig) -> (merged: Config)
        ensures
            merged.playlists_dir@ == match other.playlists_dir {
                Some(dir) => dir@,
                None => self.playlists_dir@,
            },
    {
        let mut merged = self;
        if let Some(playlists_dir) = other.playlists_dir {
            merged.playlists_dir = playlists_dir;
        }
        merged
    }

    /// The path of the file that holds the playlist `playlist_name`.
    pub fn playlist_path(&self, playlist_name: &str) -> (path: String)
        ensures
            path@ == playlist_file(self.playlists_dir@, playlist_name@),
    {
        let mut file = String::from_str(playlist_name);
        file.push('.');
        file.push('m');
        file.push('3');
        file.push('u');
        file.push('8');
        join(self.playlists_dir.as_str(), file.as_str())
    }
}

} // verus!
