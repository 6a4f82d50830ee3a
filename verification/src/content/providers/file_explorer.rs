use vstd::prelude::*;

use crate::content::providers::queue_provider::{provider_id_list, provider_ids};
use crate::content::providers::traits::{copy_list, first_at, remove_first};
use crate::content::register::{ContentProviderID, SongID, ID};
use crate::content::selection::{selection_decrement, selection_increment, stepped_down, stepped_up, SelectedIndex};
use crate::content::stack::StateContext;
use crate::service::text::{concat2, last_path_segment, last_segment};

verus! {

/// Ids of songs as the ids a provider shows.
pub open spec fn song_ids(s: Seq<SongID>) -> Seq<ID> {
    s.map_values(|x: SongID| ID::Song(x))
}

/// The ids a provider of both shows: its providers, then its songs.
pub open spec fn listing_ids(providers: Seq<ContentProviderID>, songs: Seq<SongID>) -> Seq<ID> {
    provider_ids(providers) + song_ids(songs)
}

/// The ids of providers then songs, in order.
pub fn listing_id_list(providers: &Vec<ContentProviderID>, songs: &Vec<SongID>) -> (r: Vec<ID>)
    ensures
        r@ == listing_ids(providers@, songs@),
{
    let mut r = provider_id_list(providers);
    let ghost base = r@;
    let mut k: usize = 0;
    while k < songs.len()
        invariant
            k <= songs@.len(),
            r@ == base + song_ids(songs@.take(k as int)),
        decreases songs@.len() - k,
    {
        r.push(ID::Song(songs[k]));
        proof {
            assert(song_ids(songs@.take(k as int + 1)) =~= song_ids(songs@.take(k as int)).push(ID::Song(songs@[k as int])));
            assert(base + song_ids(songs@.take(k as int + 1)) =~= (base + song_ids(songs@.take(k as int))).push(ID::Song(songs@[k as int])));
        }
        k = k + 1;
    }
    proof {
        assert(songs@.take(songs@.len() as int) =~= songs@);
    }
    r
}

/// The ids of songs then providers, in order.
pub fn songs_then_providers(songs: &Vec<SongID>, providers: &Vec<ContentProviderID>) -> (r: Vec<ID>)
    ensures
        r@ == song_ids(songs@) + provider_ids(providers@),
{
    let mut r: Vec<ID> = Vec::new();
    let mut k: usize = 0;
    while k < songs.len()
        invariant
            k <= songs@.len(),
            r@ == song_ids(songs@.take(k as int)),
        decreases songs@.len() - k,
    {
        r.push(ID::Song(songs[k]));
        proof {
            assert(song_ids(songs@.take(k as int + 1)) =~= song_ids(songs@.take(k as int)).push(ID::Song(songs@[k as int])));
        }
        k = k + 1;
    }
    proof {
        assert(songs@.take(songs@.len() as int) =~= songs@);
    }
    let ghost base = r@;
    let mut j: usize = 0;
    while j < providers.len()
        invariant
            j <= providers@.len(),
            r@ == base + provider_ids(providers@.take(j as int)),
        decreases providers@.len() - j,
    {
        r.push(ID::ContentProvider(providers[j]));
        proof {
            assert(provider_ids(providers@.take(j as int + 1)) =~= provider_ids(providers@.take(j as int)).push(
                ID::ContentProvider(providers@[j as int]),
            ));
            assert(base + provider_ids(providers@.take(j as int + 1)) =~= (base + provider_ids(providers@.take(j as int))).push(
                ID::ContentProvider(providers@[j as int]),
            ));
        }
        j = j + 1;
    }
    proof {
        assert(providers@.take(providers@.len() as int) =~= providers@);
    }
    r
}

/// The fields an explorer edit screen offers.
#[derive(Clone, Copy, Debug, PartialEq, Eq, Structural)]
pub enum FileExplorerEditable {
    Path,
}

/// Browses a directory: its subdirectories as providers, its audio files as songs.
pub struct FileExplorer {
    songs: Vec<SongID>,
    providers: Vec<ContentProviderID>,
    pub name: String,
    selected: SelectedIndex,
    pub path: String,
    loaded: bool,
    child: bool,
}

impl FileExplorer {
    pub closed spec fn song_list(&self) -> Seq<SongID> {
        self.songs@
    }

    pub closed spec fn provider_list(&self) -> Seq<ContentProviderID> {
        self.providers@
    }

    pub closed spec fn selection(&self) -> usize {
        self.selected@
    }

    pub closed spec fn is_loaded_spec(&self) -> bool {
        self.loaded
    }

    pub closed spec fn is_child(&self) -> bool {
        self.child
    }

    /// The name shown as the explorer's title.
    pub closed spec fn name_view(&self) -> Seq<char> {
        self.name@
    }

    /// The directory the explorer shows.
    pub closed spec fn path_view(&self) -> Seq<char> {
        self.path@
    }

    /// A copy of the explorer.
    pub fn cp_clone(&self) -> (r: FileExplorer)
        ensures
            r.song_list() == self.song_list(),
            r.provider_list() == self.provider_list(),
            r.selection() == self.selection(),
            r.is_loaded_spec() == self.is_loaded_spec(),
            r.is_child() == self.is_child(),
            r.name_view() == self.name_view(),
            r.path_view() == self.path_view(),
    {
        FileExplorer {
            songs: copy_list(&self.songs),
            providers: copy_list(&self.providers),
            name: self.name.clone(),
            selected: self.selected,
            path: self.path.clone(),
            loaded: self.loaded,
            child: self.child,
        }
    }

    /// An explorer of `path`, named "File Explorer: " and the last piece of
    /// the path; its path can be edited. Panics where the path is empty.
    pub fn new(path: &str) -> (r: FileExplorer)
        requires
            path@.len() > 0,
        ensures
            r.name_view() == "File Explorer: "@ + last_segment(path@),
            r.path_view() == path@,
            r.song_list().len() == 0,
            r.provider_list().len() == 0,
            r.selection() == 0,
            !r.is_loaded_spec(),
            !r.is_child(),
    {
        let dir = last_path_segment(path);
        FileExplorer {
            songs: Vec::new(),
            providers: Vec::new(),
            name: concat2("File Explorer: ", dir.as_str()),
            selected: SelectedIndex::new(),
            path: String::from_str(path),
            loaded: false,
            child: false,
        }
    }

    /// An explorer of a subdirectory found while loading, named after the
    /// last piece of its path; its path cannot be edited. Panics where the
    /// path is empty.
    pub fn new_child(dir: &str) -> (r: FileExplorer)
        requires
            dir@.len() > 0,
        ensures
            r.name_view() == last_segment(dir@),
            r.path_view() == dir@,
            r.song_list().len() == 0,
            r.provider_list().len() == 0,
            r.selection() == 0,
            !r.is_loaded_spec(),
            r.is_child(),
    {
        FileExplorer {
            songs: Vec::new(),
            providers: Vec::new(),
            name: last_path_segment(dir),
            selected: SelectedIndex::new(),
            path: String::from_str(dir),
            loaded: false,
            child: true,
        }
    }

    pub fn get_name(&self) -> (r: String)
        ensures
            r@ == self.name_view(),
    {
        self.name.clone()
    }

    /// Points the explorer at a new directory typed on its edit screen: the
    /// ids it held are handed back (to be unregistered) and it starts over as
    /// a fresh explorer of `path`. Panics where the path is empty.
    pub fn apply_path(&mut self, path: &str) -> (r: Vec<ID>)
        requires
            path@.len() > 0,
        ensures
            r@ == song_ids(old(self).song_list()) + provider_ids(old(self).provider_list()),
            final(self).name_view() == "File Explorer: "@ + last_segment(path@),
            final(self).path_view() == path@,
            final(self).song_list().len() == 0,
            final(self).provider_list().len() == 0,
            final(self).selection() == 0,
            !final(self).is_loaded_spec(),
            !final(self).is_child(),
    {
        let ids = self.pop_all_ids();
        *self = FileExplorer::new(path);
        ids
    }

    pub fn is_loaded(&self) -> (r: bool)
        ensures
            r == self.is_loaded_spec(),
    {
        self.loaded
    }

    /// Marks the explorer loaded (done before its directory is read).
    pub fn set_loaded(&mut self)
        ensures
            final(self).is_loaded_spec(),
            final(self).song_list() == old(self).song_list(),
            final(self).provider_list() == old(self).provider_list(),
            final(self).selection() == old(self).selection(),
            final(self).is_child() == old(self).is_child(),
    {
        self.loaded = true;
    }

    /// Whether the path can be edited (not for subdirectories).
    pub fn is_editable(&self) -> (r: bool)
        ensures
            r == !self.is_child(),
    {
        !self.child
    }

    /// Takes every id out: the songs, then the providers.
    pub fn pop_all_ids(&mut self) -> (r: Vec<ID>)
        ensures
            r@ == song_ids(old(self).song_list()) + provider_ids(old(self).provider_list()),
            final(self).song_list().len() == 0,
            final(self).provider_list().len() == 0,
            final(self).selection() == old(self).selection(),
    {
        let r = songs_then_providers(&self.songs, &self.providers);
        self.songs = Vec::new();
        self.providers = Vec::new();
        r
    }

    /// The fields the edit screen offers.
    pub fn editables(&self) -> (r: Vec<FileExplorerEditable>)
        ensures
            r@ == seq![FileExplorerEditable::Path],
    {
        let mut v = Vec::new();
        v.push(FileExplorerEditable::Path);
        proof {
            assert(v@ =~= seq![FileExplorerEditable::Path]);
        }
        v
    }

    pub fn num_editables(&self) -> (r: usize)
        ensures
            r == 1,
    {
        1
    }

    /// The line shown for a field on the edit screen.
    pub fn editable_label(&self, e: FileExplorerEditable) -> (r: String)
        ensures
            r@ == "Path: "@ + self.path_view(),
    {
        concat2("Path: ", self.path.as_str())
    }

    /// Chooses the entry selected on the edit screen (there is only the
    /// path): typing opens one level deeper, keeping the choice, and starts
    /// from the current path, which is returned.
    pub fn select_editable(&self, ctx: &mut StateContext) -> (r: String)
        requires
            old(ctx)@.len() > 0,
            old(ctx)@.last()@ < 1,
        ensures
            r@ == self.path_view(),
            final(ctx)@ == old(ctx)@.push(SelectedIndex { index: old(ctx)@.last()@ }),
    {
        let i = ctx.last().selected_index();
        let mut index = SelectedIndex::new();
        index.select(i);
        ctx.push(index);
        self.path.clone()
    }

    pub fn add_song(&mut self, id: SongID)
        ensures
            final(self).song_list() == old(self).song_list().push(id),
            final(self).provider_list() == old(self).provider_list(),
            final(self).selection() == old(self).selection(),
    {
        self.songs.push(id);
    }

    pub fn add_provider(&mut self, id: ContentProviderID)
        ensures
            final(self).provider_list() == old(self).provider_list().push(id),
            final(self).song_list() == old(self).song_list(),
            final(self).selection() == old(self).selection(),
    {
        self.providers.push(id);
    }

    pub fn songs(&self) -> (r: &Vec<SongID>)
        ensures
            r@ == self.song_list(),
    {
        &self.songs
    }

    pub fn providers(&self) -> (r: &Vec<ContentProviderID>)
        ensures
            r@ == self.provider_list(),
    {
        &self.providers
    }

    /// The ids shown: the subdirectories, then the songs.
    pub fn ids(&self) -> (r: Vec<ID>)
        ensures
            r@ == listing_ids(self.provider_list(), self.song_list()),
    {
        listing_id_list(&self.providers, &self.songs)
    }

    pub fn get_size(&self) -> (r: usize)
        requires
            self.provider_list().len() + self.song_list().len() <= usize::MAX,
        ensures
            r == self.provider_list().len() + self.song_list().len(),
    {
        self.providers.len() + self.songs.len()
    }

    pub fn get_selected_index(&self) -> (r: SelectedIndex)
        ensures
            r@ == self.selection(),
    {
        self.selected
    }

    /// The id of the selected entry. Panics where the selection is past the end.
    pub fn get_selected(&self) -> (r: ID)
        requires
            self.selection() < self.provider_list().len() + self.song_list().len(),
        ensures
            r == listing_ids(self.provider_list(), self.song_list())[self.selection() as int],
    {
        let i = self.selected.selected_index();
        if i < self.providers.len() {
            ID::ContentProvider(self.providers[i])
        } else {
            ID::Song(self.songs[i - self.providers.len()])
        }
    }

    pub fn selection_increment(&mut self) -> (moved: bool)
        requires
            old(self).provider_list().len() + old(self).song_list().len() <= usize::MAX,
        ensures
            final(self).selection() == stepped_down(
                old(self).selection(),
                (old(self).provider_list().len() + old(self).song_list().len()) as usize,
            ),
            final(self).song_list() == old(self).song_list(),
            final(self).provider_list() == old(self).provider_list(),
    {
        let n = self.providers.len() + self.songs.len();
        selection_increment(&mut self.selected, n)
    }

    pub fn selection_decrement(&mut self) -> (moved: bool)
        ensures
            final(self).selection() == stepped_up(old(self).selection()),
            final(self).song_list() == old(self).song_list(),
            final(self).provider_list() == old(self).provider_list(),
    {
        selection_decrement(&mut self.selected)
    }

    /// Takes the first occurrence of a song out; the selection moves up when
    /// it stood at or after it (songs are shown after the providers).
    pub fn remove_song(&mut self, id: SongID) -> (r: Option<SongID>)
        ensures
            match first_at(old(self).song_list(), id) {
                Some(k) => {
                    &&& r == Some(id)
                    &&& final(self).song_list() == old(self).song_list().remove(k)
                    &&& final(self).selection() == if old(self).provider_list().len() + k <= old(self).selection() {
                        stepped_up(old(self).selection())
                    } else {
                        old(self).selection()
                    }
                },
                None => {
                    &&& r is None
                    &&& final(self).song_list() == old(self).song_list()
                    &&& final(self).selection() == old(self).selection()
                },
            },
            final(self).provider_list() == old(self).provider_list(),
    {
        let offset = self.providers.len();
        remove_first(&mut self.songs, &mut self.selected, id, offset)
    }

    /// Takes the first occurrence of a provider out; the selection moves up
    /// when it stood at or after it.
    pub fn remove_provider(&mut self, id: ContentProviderID) -> (r: Option<ContentProviderID>)
        ensures
            match first_at(old(self).provider_list(), id) {
                Some(k) => {
                    &&& r == Some(id)
                    &&& final(self).provider_list() == old(self).provider_list().remove(k)
                    &&& final(self).selection() == if k <= old(self).selection() {
                        stepped_up(old(self).selection())
                    } else {
                        old(self).selection()
                    }
                },
                None => {
                    &&& r is None
                    &&& final(self).provider_list() == old(self).provider_list()
                    &&& final(self).selection() == old(self).selection()
                },
            },
            final(self).song_list() == old(self).song_list(),
    {
        remove_first(&mut self.providers, &mut self.selected, id, 0)
    }
}

} // verus!
