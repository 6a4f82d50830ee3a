use vstd::prelude::*;

use crate::service::text::concat2;

verus! {

/// What a song record holds about a song, by kind.
#[derive(Clone, Debug)]
pub enum SongMetadata {
    YT { title: String, id: String },
    YTFile { id: String, path: String },
    TaggedFile { path: String, title: String, artist: String, album: String },
    UntaggedFile { path: String },
    Seperator,
    Borked,
}

/// Where a song is played from.
#[derive(Clone, Debug)]
pub enum SongPath {
    LocalPath(String),
    YTKey(String),
    YTURL(String),
}

/// The uri a song path stands for.
pub open spec fn song_uri(p: SongPath) -> Seq<char> {
    match p {
        SongPath::LocalPath(s) => "file://"@ + s@,
        SongPath::YTKey(s) => "https://youtu.be/"@ + s@,
        SongPath::YTURL(s) => s@,
    }
}

impl SongPath {
    /// The uri the path stands for: a file uri, a short youtube link, or the
    /// url itself.
    pub fn to_string(&self) -> (r: String)
        ensures
            r@ == song_uri(*self),
    {
        match self {
            SongPath::LocalPath(s) => concat2("file://", s.as_str()),
            SongPath::YTKey(s) => concat2("https://youtu.be/", s.as_str()),
            SongPath::YTURL(s) => s.clone(),
        }
    }
}

/// Where a song lives.
#[derive(Clone, Copy, Debug, PartialEq, Eq, Structural)]
pub enum SongType {
    YTOnline,
    YTOnDisk,
    UnknownOnDisk,
    Seperator,
}

/// Which view of a song is shown.
#[derive(Clone, Copy, Debug, PartialEq, Eq, Structural)]
pub enum SongContentType {
    Menu,
    Normal,
    Edit,
}

impl Default for SongContentType {
    fn default() -> (r: SongContentType)
        ensures
            r == SongContentType::Normal,
    {
        SongContentType::Normal
    }
}

} // verus!
