use vstd::prelude::*;

use crate::content::providers::ytalbum::{YTAlbum, YTAlbumID};
use crate::content::song::yt_song::YtSong;

verus! {

/// An album among the results of a search.
#[derive(Debug)]
pub struct YTMusicSearchAlbum {
    pub title: Option<String>,
    pub browse_id: Option<String>,
    pub artists: Option<Vec<Option<YTMusicSearchArtist>>>,
}

/// An artist as search results name one.
#[derive(Debug)]
pub struct YTMusicSearchArtist {
    pub name: Option<String>,
    pub id: Option<String>,
}

impl YTMusicSearchAlbum {
    /// The album this result names, found by its browse id. Panics where the
    /// result has no title or no browse id.
    pub fn into_provider(self) -> (r: YTAlbum)
        requires
            self.title is Some,
            self.browse_id is Some,
        ensures
            r.name_view() == self.title->Some_0@,
            r.album_id() matches YTAlbumID::BrowseID(b) && b@ == self.browse_id->Some_0@,
            r.song_list().len() == 0,
            !r.is_loaded_spec(),
            r.selection() == 0,
    {
        match (self.title, self.browse_id) {
            (Some(title), Some(browse_id)) => YTAlbum::new_browse_id(title.as_str(), browse_id.as_str()),
            _ => {
                proof {
                    assert(false);
                }
                YTAlbum::new_browse_id("", "")
            },
        }
    }
}

/// An album's data.
#[derive(Debug)]
pub struct YTMusicAlbum {
    pub title: Option<String>,
    pub artists: Option<Vec<Option<YTMusicSearchArtist>>>,
    pub audio_playlist_id: Option<String>,
    pub playlist_id: Option<String>,
}

impl YTMusicAlbum {
    /// The album found by its playlist: the audio playlist where there is
    /// one, else the other. Panics where there is no title or no playlist.
    pub fn into_provider(self) -> (r: YTAlbum)
        requires
            self.title is Some,
            self.audio_playlist_id is Some || self.playlist_id is Some,
        ensures
            r.name_view() == self.title->Some_0@,
            r.album_id() matches YTAlbumID::PlaylistID(p) && p@ == (if self.audio_playlist_id is Some {
                self.audio_playlist_id->Some_0@
            } else {
                self.playlist_id->Some_0@
            }),
            r.song_list().len() == 0,
            !r.is_loaded_spec(),
            r.selection() == 0,
    {
        let title = match self.title {
            Some(t) => t,
            None => {
                proof {
                    assert(false);
                }
                String::new()
            },
        };
        let id = match self.audio_playlist_id {
            Some(a) => a,
            None => match self.playlist_id {
                Some(p) => p,
                None => {
                    proof {
                        assert(false);
                    }
                    String::new()
                },
            },
        };
        YTAlbum::new_playlist_id(title.as_str(), id.as_str())
    }
}

/// A video among the results of a search.
#[derive(Debug)]
pub struct YTMusicSearchVideo {
    pub title: Option<String>,
    pub video_id: Option<String>,
    pub artists: Vec<YTMusicSearchArtist>,
}

impl YTMusicSearchVideo {
    /// The song this result names. Panics where it has no title or no id.
    pub fn into_song(self) -> (r: YtSong)
        requires
            self.title is Some,
            self.video_id is Some,
        ensures
            r.title == self.title->Some_0,
            r.id == self.video_id->Some_0,
            r.artist@.len() == 0,
            r.album is None,
    {
        match (self.title, self.video_id) {
            (Some(title), Some(id)) => YtSong::new(title, id),
            _ => {
                proof {
                    assert(false);
                }
                YtSong::new(String::new(), String::new())
            },
        }
    }
}

/// A song's data.
#[derive(Debug)]
pub struct YTMusicSong {
    pub video_details: Option<YTMusicSongVideoDetails>,
}

#[derive(Debug)]
pub struct YTMusicSongVideoDetails {
    pub video_id: Option<String>,
    pub title: Option<String>,
    pub channel_id: Option<String>,
    pub thumbnail: Option<YTMusicSongThumbnails>,
    pub author: Option<String>,
    pub microformat: Option<YTMusicSongVideoDetailsMicroformat>,
}

#[derive(Debug)]
pub struct YTMusicSongThumbnails {
    pub thumbnails: Option<Vec<YTMusicSongThumbnail>>,
}

#[derive(Debug)]
pub struct YTMusicSongThumbnail {
    pub url: Option<String>,
    pub width: Option<u32>,
    pub height: Option<u32>,
}

/// The microformat part of a song's data; none of it is read.
#[derive(Debug)]
pub struct YTMusicSongVideoDetailsMicroformat {}

/// A song among the results of a search.
#[derive(Debug)]
pub struct YTMusicSearchSong {
    pub title: Option<String>,
    pub album: Option<YTMusicSongSearchAlbum>,
    pub video_id: Option<String>,
    pub artists: Option<Vec<YTMusicSearchArtist>>,
    pub thumbnails: Option<Vec<YTMusicSongThumbnail>>,
}

impl YTMusicSearchSong {
    /// The song this result names. Panics where it has no title or no id.
    pub fn into_song(self) -> (r: YtSong)
        requires
            self.title is Some,
            self.video_id is Some,
        ensures
            r.title == self.title->Some_0,
            r.id == self.video_id->Some_0,
            r.artist@.len() == 0,
            r.album is None,
    {
        match (self.title, self.video_id) {
            (Some(title), Some(id)) => YtSong::new(title, id),
            _ => {
                proof {
                    assert(false);
                }
                YtSong::new(String::new(), String::new())
            },
        }
    }
}

/// The album a song search result belongs to.
#[derive(Debug)]
pub struct YTMusicSongSearchAlbum {
    pub name: Option<String>,
    pub id: Option<String>,
}

} // verus!
