use vstd::prelude::*;

use crate::content::providers::file_explorer::song_ids;
use crate::content::providers::traits::{copy_list, first_at, remove_first};
use crate::content::register::{SongID, ID};
use crate::content::selection::{selection_decrement, selection_increment, stepped_down, stepped_up, SelectedIndex};
use crate::service::python::code::{assembled_code, json_named, runs_with, threaded_code, ytdl_named, ytmusic_named, PyCode};
use crate::service::python::item::{Json, PyItem, YtMusic, Ytdl};
use crate::service::text::concat3;

verus! {

/// How an album is found: by the id of its playlist or by its browse id.
#[derive(Clone, Debug)]
pub enum YTAlbumID {
    PlaylistID(String),
    BrowseID(String),
}

/// Both find an album the same way, by the same id.
pub open spec fn same_album_id(a: YTAlbumID, b: YTAlbumID) -> bool {
    match (a, b) {
        (YTAlbumID::PlaylistID(x), YTAlbumID::PlaylistID(y)) => x@ == y@,
        (YTAlbumID::BrowseID(x), YTAlbumID::BrowseID(y)) => x@ == y@,
        _ => false,
    }
}

/// What the code that loads an album answers with.
#[derive(Clone, Copy, Debug, PartialEq, Eq, Structural)]
pub enum YTAlbumReply {
    /// The album's data, which takes the album's place.
    Album,
    /// The album's playlist, whose songs are loaded into it.
    Playlist,
}

pub const ALBUM_HEAD: &'static str = "\n                                album_data = ytmusic.get_album('";

pub const ALBUM_TAIL: &'static str = "')\n                                data = json.dumps(album_data, indent=4)\n                                return data\n                            ";

pub const ALBUM_LOG: &'static str = "\n                                with open('config/temp/get_album_playlist_id.log', 'r') as f:\n                                    data = f.read()\n                                return data\n                            ";

pub const ALBUM_PLAYLIST_HEAD: &'static str = "\n                                data = ytdl.extract_info('";

pub const ALBUM_PLAYLIST_TAIL: &'static str = "', download=False)\n                                data = json.dumps(data, indent=4)\n                                return data\n                            ";

pub const ALBUM_PLAYLIST_LOG: &'static str = "\n                                with open('config/temp/get_playlist.log', 'r') as f:\n                                    data = f.read()\n                                return data\n                            ";

/// A youtube music album, listing its songs once loaded.
pub struct YTAlbum {
    songs: Vec<SongID>,
    loaded: bool,
    id: YTAlbumID,
    name: String,
    index: SelectedIndex,
}

impl YTAlbum {
    pub closed spec fn song_list(&self) -> Seq<SongID> {
        self.songs@
    }

    pub closed spec fn selection(&self) -> usize {
        self.index@
    }

    pub closed spec fn is_loaded_spec(&self) -> bool {
        self.loaded
    }

    pub closed spec fn name_view(&self) -> Seq<char> {
        self.name@
    }

    pub closed spec fn album_id(&self) -> YTAlbumID {
        self.id
    }

    /// A copy of the album.
    pub fn cp_clone(&self) -> (r: YTAlbum)
        ensures
            r.song_list() == self.song_list(),
            r.selection() == self.selection(),
            r.is_loaded_spec() == self.is_loaded_spec(),
            r.name_view() == self.name_view(),
            same_album_id(r.album_id(), self.album_id()),
    {
        let id = match &self.id {
            YTAlbumID::PlaylistID(p) => YTAlbumID::PlaylistID(p.clone()),
            YTAlbumID::BrowseID(b) => YTAlbumID::BrowseID(b.clone()),
        };
        YTAlbum { songs: copy_list(&self.songs), loaded: self.loaded, id, name: self.name.clone(), index: self.index }
    }

    pub fn new_playlist_id(name: &str, playlist_id: &str) -> (r: YTAlbum)
        ensures
            r.name_view() == name@,
            r.album_id() matches YTAlbumID::PlaylistID(p) && p@ == playlist_id@,
            r.song_list().len() == 0,
            !r.is_loaded_spec(),
            r.selection() == 0,
    {
        YTAlbum {
            songs: Vec::new(),
            loaded: false,
            id: YTAlbumID::PlaylistID(String::from_str(playlist_id)),
            name: String::from_str(name),
            index: SelectedIndex::new(),
        }
    }

    pub fn new_browse_id(name: &str, browse_id: &str) -> (r: YTAlbum)
        ensures
            r.name_view() == name@,
            r.album_id() matches YTAlbumID::BrowseID(b) && b@ == browse_id@,
            r.song_list().len() == 0,
            !r.is_loaded_spec(),
            r.selection() == 0,
    {
        YTAlbum {
            songs: Vec::new(),
            loaded: false,
            id: YTAlbumID::BrowseID(String::from_str(browse_id)),
            name: String::from_str(name),
            index: SelectedIndex::new(),
        }
    }

    pub fn get_name(&self) -> (r: String)
        ensures
            r@ == self.name_view(),
    {
        self.name.clone()
    }

    pub fn is_loaded(&self) -> (r: bool)
        ensures
            r == self.is_loaded_spec(),
    {
        self.loaded
    }

    /// The code that fetches the album: by browse id its data (which then
    /// takes the album's place), by playlist id the playlist (whose songs are
    /// then loaded; the album counts as loaded from here on).
    pub fn load(&mut self) -> (r: (YTAlbumReply, PyCode))
        ensures
            final(self).song_list() == old(self).song_list(),
            final(self).selection() == old(self).selection(),
            final(self).name_view() == old(self).name_view(),
            final(self).album_id() == old(self).album_id(),
            match old(self).album_id() {
                YTAlbumID::BrowseID(b) => {
                    &&& r.0 == YTAlbumReply::Album
                    &&& r.1.code@ == assembled_code(ALBUM_HEAD@ + b@ + ALBUM_TAIL@, true)
                    &&& runs_with(r.1.globals, |i: PyItem| json_named(i), |i: PyItem| ytmusic_named(i))
                    &&& final(self).is_loaded_spec() == old(self).is_loaded_spec()
                },
                YTAlbumID::PlaylistID(p) => {
                    &&& r.0 == YTAlbumReply::Playlist
                    &&& r.1.code@ == assembled_code(ALBUM_PLAYLIST_HEAD@ + p@ + ALBUM_PLAYLIST_TAIL@, true)
                    &&& runs_with(r.1.globals, |i: PyItem| json_named(i), |i: PyItem| ytdl_named(i))
                    &&& final(self).is_loaded_spec()
                },
            },
    {
        match &self.id {
            YTAlbumID::BrowseID(b) => {
                let body = concat3(ALBUM_HEAD, b.as_str(), ALBUM_TAIL);
                let globals = vec![PyItem::Json(Json::new("json")), PyItem::YtMusic(YtMusic::new("ytmusic"))];
                let code = threaded_code(body, Some(String::from_str(ALBUM_LOG)), globals);
                (YTAlbumReply::Album, code)
            },
            YTAlbumID::PlaylistID(p) => {
                let body = concat3(ALBUM_PLAYLIST_HEAD, p.as_str(), ALBUM_PLAYLIST_TAIL);
                let globals = vec![PyItem::Json(Json::new("json")), PyItem::Ytdl(Ytdl::new("ytdl"))];
                let code = threaded_code(body, Some(String::from_str(ALBUM_PLAYLIST_LOG)), globals);
                self.loaded = true;
                (YTAlbumReply::Playlist, code)
            },
        }
    }

    pub fn add_song(&mut self, id: SongID)
        ensures
            final(self).song_list() == old(self).song_list().push(id),
            final(self).selection() == old(self).selection(),
    {
        self.songs.push(id);
    }

    pub fn songs(&self) -> (r: &Vec<SongID>)
        ensures
            r@ == self.song_list(),
    {
        &self.songs
    }

    pub fn get_selected_index(&self) -> (r: SelectedIndex)
        ensures
            r@ == self.selection(),
    {
        self.index
    }

    pub fn ids(&self) -> (r: Vec<ID>)
        ensures
            r@ == song_ids(self.song_list()),
    {
        song_id_list(&self.songs)
    }

    pub fn get_size(&self) -> (r: usize)
        ensures
            r == self.song_list().len(),
    {
        self.songs.len()
    }

    /// The selected song. Panics where the selection is past the end.
    pub fn get_selected(&self) -> (r: ID)
        requires
            self.selection() < self.song_list().len(),
        ensures
            r == ID::Song(self.song_list()[self.selection() as int]),
    {
        ID::Song(self.songs[self.index.selected_index()])
    }

    pub fn selection_increment(&mut self) -> (moved: bool)
        ensures
            final(self).selection() == stepped_down(old(self).selection(), old(self).song_list().len() as usize),
            final(self).song_list() == old(self).song_list(),
    {
        let n = self.songs.len();
        selection_increment(&mut self.index, n)
    }

    pub fn selection_decrement(&mut self) -> (moved: bool)
        ensures
            final(self).selection() == stepped_up(old(self).selection()),
            final(self).song_list() == old(self).song_list(),
    {
        selection_decrement(&mut self.index)
    }

    /// Takes the first occurrence of a song out; the selection moves up when
    /// it stood at or after it.
    pub fn remove_song(&mut self, id: SongID) -> (r: Option<SongID>)
        ensures
            match first_at(old(self).song_list(), id) {
                Some(k) => {
                    &&& r == Some(id)
                    &&& final(self).song_list() == old(self).song_list().remove(k)
                    &&& final(self).selection() == if k <= old(self).selection() {
                        stepped_up(old(self).selection())
                    } else {
                        old(self).selection()
                    }
                },
                None => {
                    &&& r is None
                    &&& final(self).song_list() == old(self).song_list()
                    &&& final(self).selection() == old(self).selection()
                },
            },
    {
        remove_first(&mut self.songs, &mut self.index, id, 0)
    }
}

/// The ids of the songs, in order.
pub fn song_id_list(songs: &Vec<SongID>) -> (r: Vec<ID>)
    ensures
        r@ == song_ids(songs@),
{
    let mut r: Vec<ID> = Vec::new();
    let mut k: usize = 0;
    while k < songs.len()
        invariant
            k <= songs@.len(),
            r@ == song_ids(songs@.take(k as int)),
        decreases songs@.len() - k,
    {
        r.push(ID::Song(songs[k]));
        proof {
            assert(song_ids(songs@.take(k as int + 1)) =~= song_ids(songs@.take(k as int)).push(ID::Song(songs@[k as int])));
        }
        k = k + 1;
    }
    proof {
        assert(songs@.take(songs@.len() as int) =~= songs@);
    }
    r
}

} // verus!
