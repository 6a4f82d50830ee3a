use vstd::prelude::*;

use crate::content::providers::file_explorer::song_ids;
use crate::content::providers::traits::{copy_list, first_at, remove_first};
use crate::content::providers::ytalbum::song_id_list;
use crate::content::register::{SongID, ID};
use crate::content::selection::{selection_decrement, selection_increment, stepped_down, stepped_up, SelectedIndex};
use crate::service::python::code::{assembled_code, json_named, runs_with, threaded_code, ytmusic_named, PyCode};
use crate::service::python::item::{Json, PyItem, YtMusic};
use crate::service::text::concat3;

verus! {

pub const PLAYLIST_HEAD: &'static str = "\n                                playlist_data = ytmusic.get_playlist('";

pub const PLAYLIST_TAIL: &'static str = "')\n                                data = json.dumps(playlist_data, indent=4)\n                                return data\n                            ";

pub const PLAYLIST_LOG: &'static str = "\n                                with open('config/temp/get_playlist_from_browse_id.log', 'r') as f:\n                                    data = f.read()\n                                return data\n                            ";

/// A youtube music playlist, found by its browse id, listing its songs once loaded.
pub struct YTPlaylist {
    songs: Vec<SongID>,
    loaded: bool,
    browse_id: String,
    name: String,
    index: SelectedIndex,
}

impl YTPlaylist {
    pub closed spec fn song_list(&self) -> Seq<SongID> {
        self.songs@
    }

    pub closed spec fn selection(&self) -> usize {
        self.index@
    }

    pub closed spec fn is_loaded_spec(&self) -> bool {
        self.loaded
    }

    pub closed spec fn name_view(&self) -> Seq<char> {
        self.name@
    }

    pub closed spec fn browse_id_view(&self) -> Seq<char> {
        self.browse_id@
    }

    /// A copy of the playlist.
    pub fn cp_clone(&self) -> (r: YTPlaylist)
        ensures
            r.song_list() == self.song_list(),
            r.selection() == self.selection(),
            r.is_loaded_spec() == self.is_loaded_spec(),
            r.name_view() == self.name_view(),
            r.browse_id_view() == self.browse_id_view(),
    {
        YTPlaylist {
            songs: copy_list(&self.songs),
            loaded: self.loaded,
            browse_id: self.browse_id.clone(),
            name: self.name.clone(),
            index: self.index,
        }
    }

    pub fn new_browse_id(name: &str, browse_id: &str) -> (r: YTPlaylist)
        ensures
            r.name_view() == name@,
            r.browse_id_view() == browse_id@,
            r.song_list().len() == 0,
            !r.is_loaded_spec(),
            r.selection() == 0,
    {
        YTPlaylist {
            songs: Vec::new(),
            loaded: false,
            browse_id: String::from_str(browse_id),
            name: String::from_str(name),
            index: SelectedIndex::new(),
        }
    }

    pub fn get_name(&self) -> (r: String)
        ensures
            r@ == self.name_view(),
    {
        self.name.clone()
    }

    pub fn is_loaded(&self) -> (r: bool)
        ensures
            r == self.is_loaded_spec(),
    {
        self.loaded
    }

    /// The code that fetches the playlist's tracks; the playlist counts as
    /// loaded from here on.
    pub fn load(&mut self) -> (r: PyCode)
        ensures
            final(self).is_loaded_spec(),
            final(self).song_list() == old(self).song_list(),
            final(self).selection() == old(self).selection(),
            final(self).name_view() == old(self).name_view(),
            final(self).browse_id_view() == old(self).browse_id_view(),
            r.code@ == assembled_code(PLAYLIST_HEAD@ + old(self).browse_id_view() + PLAYLIST_TAIL@, true),
            runs_with(r.globals, |i: PyItem| json_named(i), |i: PyItem| ytmusic_named(i)),
    {
        self.loaded = true;
        let body = concat3(PLAYLIST_HEAD, self.browse_id.as_str(), PLAYLIST_TAIL);
        let globals = vec![PyItem::Json(Json::new("json")), PyItem::YtMusic(YtMusic::new("ytmusic"))];
        threaded_code(body, Some(String::from_str(PLAYLIST_LOG)), globals)
    }

    pub fn add_song(&mut self, id: SongID)
        ensures
            final(self).song_list() == old(self).song_list().push(id),
            final(self).selection() == old(self).selection(),
    {
        self.songs.push(id);
    }

    pub fn songs(&self) -> (r: &Vec<SongID>)
        ensures
            r@ == self.song_list(),
    {
        &self.songs
    }

    pub fn get_selected_index(&self) -> (r: SelectedIndex)
        ensures
            r@ == self.selection(),
    {
        self.index
    }

    pub fn ids(&self) -> (r: Vec<ID>)
        ensures
            r@ == song_ids(self.song_list()),
    {
        song_id_list(&self.songs)
    }

    pub fn get_size(&self) -> (r: usize)
        ensures
            r == self.song_list().len(),
    {
        self.songs.len()
    }

    /// The selected song. Panics where the selection is past the end.
    pub fn get_selected(&self) -> (r: ID)
        requires
            self.selection() < self.song_list().len(),
        ensures
            r == ID::Song(self.song_list()[self.selection() as int]),
    {
        ID::Song(self.songs[self.index.selected_index()])
    }

    pub fn selection_increment(&mut self) -> (moved: bool)
        ensures
            final(self).selection() == stepped_down(old(self).selection(), old(self).song_list().len() as usize),
            final(self).song_list() == old(self).song_list(),
    {
        let n = self.songs.len();
        selection_increment(&mut self.index, n)
    }

    pub fn selection_decrement(&mut self) -> (moved: bool)
        ensures
            final(self).selection() == stepped_up(old(self).selection()),
            final(self).song_list() == old(self).song_list(),
    {
        selection_decrement(&mut self.index)
    }

    /// Takes the first occurrence of a song out; the selection moves up when
    /// it stood at or after it.
    pub fn remove_song(&mut self, id: SongID) -> (r: Option<SongID>)
        ensures
            match first_at(old(self).song_list(), id) {
                Some(k) => {
                    &&& r == Some(id)
                    &&& final(self).song_list() == old(self).song_list().remove(k)
                    &&& final(self).selection() == if k <= old(self).selection() {
                        stepped_up(old(self).selection())
                    } else {
                        old(self).selection()
                    }
                },
                None => {
                    &&& r is None
                    &&& final(self).song_list() == old(self).song_list()
                    &&& final(self).selection() == old(self).selection()
                },
            },
    {
        remove_first(&mut self.songs, &mut self.index, id, 0)
    }
}

} // verus!
