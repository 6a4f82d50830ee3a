pub mod file_explorer;
pub mod main_provider;
pub mod queue;
pub mod queue_provider;
pub mod traits;
pub mod yt_explorer;
pub mod ytalbum;
pub mod ytplaylist;

use vstd::prelude::*;

use crate::content::providers::file_explorer::{listing_id_list, listing_ids, FileExplorer};
use crate::content::providers::main_provider::{menu_options, MainProvider};
use crate::content::providers::queue::Queue;
use crate::content::providers::queue_provider::QueueProvider;
use crate::content::providers::traits::first_at;
use crate::content::providers::yt_explorer::{editables_defined, editables_for, YTExplorer};
use crate::content::providers::ytalbum::{same_album_id, YTAlbum};
use crate::content::providers::ytplaylist::YTPlaylist;
use crate::content::register::{ContentProviderID, SongID, ID};
use crate::content::selection::{stepped_down, stepped_up, SelectedIndex};
use crate::content::stack::StateContext;

verus! {

/// Anything that lists songs or other providers for browsing.
pub enum ContentProvider {
    Main(MainProvider),
    QueueProvider(QueueProvider),
    Queue(Queue),
    FileExplorer(FileExplorer),
    YTExplorer(YTExplorer),
    YTAlbum(YTAlbum),
    YTPlaylist(YTPlaylist),
}

impl ContentProvider {
    /// The songs the provider lists (none for those that list no songs).
    pub open spec fn songs_of(&self) -> Seq<SongID> {
        match self {
            ContentProvider::Main(_) => Seq::empty(),
            ContentProvider::QueueProvider(_) => Seq::empty(),
            ContentProvider::Queue(q) => q.songs@,
            ContentProvider::FileExplorer(p) => p.song_list(),
            ContentProvider::YTExplorer(p) => p.song_list(),
            ContentProvider::YTAlbum(p) => p.song_list(),
            ContentProvider::YTPlaylist(p) => p.song_list(),
        }
    }

    /// The providers the provider lists (none for those that list no providers).
    pub open spec fn providers_of(&self) -> Seq<ContentProviderID> {
        match self {
            ContentProvider::Main(p) => p.children(),
            ContentProvider::QueueProvider(p) => p.queues(),
            ContentProvider::FileExplorer(p) => p.provider_list(),
            ContentProvider::YTExplorer(p) => p.provider_list(),
            _ => Seq::empty(),
        }
    }

    /// The selected entry.
    pub open spec fn selection_of(&self) -> usize {
        match self {
            ContentProvider::Main(p) => p.selection(),
            ContentProvider::QueueProvider(p) => p.selection(),
            ContentProvider::Queue(q) => q.index@,
            ContentProvider::FileExplorer(p) => p.selection(),
            ContentProvider::YTExplorer(p) => p.selection(),
            ContentProvider::YTAlbum(p) => p.selection(),
            ContentProvider::YTPlaylist(p) => p.selection(),
        }
    }

    /// What is listed: the providers, then the songs.
    pub open spec fn listing(&self) -> Seq<ID> {
        listing_ids(self.providers_of(), self.songs_of())
    }

    /// Whether the provider lists songs.
    pub open spec fn lists_songs(&self) -> bool {
        !(self is Main || self is QueueProvider)
    }

    /// Whether the provider lists providers.
    pub open spec fn lists_providers(&self) -> bool {
        self is Main || self is QueueProvider || self is FileExplorer || self is YTExplorer
    }

    /// Whether the provider has a menu.
    pub open spec fn has_menu_spec(&self) -> bool {
        self is Main
    }

    /// Whether the provider has an edit screen.
    pub open spec fn is_editable_spec(&self) -> bool {
        ||| self is YTExplorer
        ||| (self matches ContentProvider::FileExplorer(p) && !p.is_child())
    }

    /// Whether the provider loads what it lists.
    pub open spec fn is_loadable_spec(&self) -> bool {
        self is FileExplorer || self is YTExplorer || self is YTAlbum || self is YTPlaylist
    }

    /// Both list the same songs and providers.
    pub open spec fn same_lists(&self, other: &Self) -> bool {
        &&& self.songs_of() == other.songs_of()
        &&& self.providers_of() == other.providers_of()
    }

    /// Whether the provider still has to load what it lists.
    pub open spec fn needs_load_spec(&self) -> bool {
        match self {
            ContentProvider::FileExplorer(p) => !p.is_loaded_spec(),
            ContentProvider::YTExplorer(p) => !p.is_loaded_spec(),
            ContentProvider::YTAlbum(p) => !p.is_loaded_spec(),
            ContentProvider::YTPlaylist(p) => !p.is_loaded_spec(),
            _ => false,
        }
    }

    /// Whether the provider still has to load what it lists (only those that
    /// load ever do).
    pub fn needs_load(&self) -> (r: bool)
        ensures
            r == self.needs_load_spec(),
    {
        match self {
            ContentProvider::FileExplorer(p) => !p.is_loaded(),
            ContentProvider::YTExplorer(p) => !p.is_loaded(),
            ContentProvider::YTAlbum(p) => !p.is_loaded(),
            ContentProvider::YTPlaylist(p) => !p.is_loaded(),
            _ => false,
        }
    }

    /// How many entries the edit screen that `ctx` has open lists.
    pub open spec fn editables_count(&self, ctx: Seq<SelectedIndex>) -> nat {
        match self {
            ContentProvider::YTExplorer(_) => editables_for(ctx).len(),
            ContentProvider::FileExplorer(_) => 1,
            _ => 0,
        }
    }

    /// Whether the provider's edit screens can be at `ctx`.
    pub open spec fn edit_context_ok(&self, ctx: Seq<SelectedIndex>) -> bool {
        self is YTExplorer ==> editables_defined(ctx)
    }

    /// How many entries the edit screen that `ctx` has open lists. Panics
    /// where the provider has no edit screen.
    pub fn num_editables(&self, ctx: &StateContext) -> (r: usize)
        requires
            self.is_editable_spec(),
            self.edit_context_ok(ctx@),
        ensures
            r == self.editables_count(ctx@),
    {
        match self {
            ContentProvider::YTExplorer(p) => p.num_editables(ctx),
            ContentProvider::FileExplorer(p) => p.num_editables(),
            _ => 0,
        }
    }

    /// How many options the menu lists. Panics where there is no menu.
    pub fn num_options(&self) -> (r: usize)
        requires
            self.has_menu_spec(),
        ensures
            r == menu_options().len(),
    {
        match self {
            ContentProvider::Main(p) => p.num_options(),
            _ => 4,
        }
    }

    /// The name the provider is shown under.
    pub open spec fn name_of(&self) -> Seq<char> {
        match self {
            ContentProvider::Main(p) => p.title(),
            ContentProvider::QueueProvider(p) => p.title(),
            ContentProvider::Queue(q) => q.name@,
            ContentProvider::FileExplorer(p) => p.name_view(),
            ContentProvider::YTExplorer(p) => p.name_view(),
            ContentProvider::YTAlbum(p) => p.name_view(),
            ContentProvider::YTPlaylist(p) => p.name_view(),
        }
    }

    /// `self` holds what `other` holds: the same kind of provider listing
    /// the same, with the same selection, name and state.
    pub open spec fn copied_from(&self, other: &Self) -> bool {
        &&& self.songs_of() == other.songs_of()
        &&& self.providers_of() == other.providers_of()
        &&& self.selection_of() == other.selection_of()
        &&& self.name_of() == other.name_of()
        &&& match (self, other) {
            (ContentProvider::Main(a), ContentProvider::Main(b)) => a.queue_provider_id() == b.queue_provider_id(),
            (ContentProvider::QueueProvider(_), ContentProvider::QueueProvider(_)) => true,
            (ContentProvider::Queue(a), ContentProvider::Queue(b)) => {
                &&& a.currently_playing == b.currently_playing
                &&& a.source_cp == b.source_cp
            },
            (ContentProvider::FileExplorer(a), ContentProvider::FileExplorer(b)) => {
                &&& a.path_view() == b.path_view()
                &&& a.is_loaded_spec() == b.is_loaded_spec()
                &&& a.is_child() == b.is_child()
            },
            (ContentProvider::YTExplorer(a), ContentProvider::YTExplorer(b)) => {
                &&& a.is_loaded_spec() == b.is_loaded_spec()
                &&& a.search_term_view() == b.search_term_view()
                &&& a.filter_spec() == b.filter_spec()
            },
            (ContentProvider::YTAlbum(a), ContentProvider::YTAlbum(b)) => {
                &&& a.is_loaded_spec() == b.is_loaded_spec()
                &&& same_album_id(a.album_id(), b.album_id())
            },
            (ContentProvider::YTPlaylist(a), ContentProvider::YTPlaylist(b)) => {
                &&& a.is_loaded_spec() == b.is_loaded_spec()
                &&& a.browse_id_view() == b.browse_id_view()
            },
            _ => false,
        }
    }

    /// A copy of the provider.
    pub fn cp_clone(&self) -> (r: ContentProvider)
        ensures
            r.copied_from(self),
    {
        match self {
            ContentProvider::Main(p) => ContentProvider::Main(p.cp_clone()),
            ContentProvider::QueueProvider(p) => ContentProvider::QueueProvider(p.cp_clone()),
            ContentProvider::Queue(q) => ContentProvider::Queue(q.cp_clone()),
            ContentProvider::FileExplorer(p) => ContentProvider::FileExplorer(p.cp_clone()),
            ContentProvider::YTExplorer(p) => ContentProvider::YTExplorer(p.cp_clone()),
            ContentProvider::YTAlbum(p) => ContentProvider::YTAlbum(p.cp_clone()),
            ContentProvider::YTPlaylist(p) => ContentProvider::YTPlaylist(p.cp_clone()),
        }
    }

    pub fn get_name(&self) -> (r: String)
        ensures
            r@ == self.name_of(),
    {
        match self {
            ContentProvider::Main(p) => p.get_name().clone(),
            ContentProvider::QueueProvider(p) => p.get_name().clone(),
            ContentProvider::Queue(q) => q.name.clone(),
            ContentProvider::FileExplorer(p) => p.get_name(),
            ContentProvider::YTExplorer(p) => p.get_name(),
            ContentProvider::YTAlbum(p) => p.get_name(),
            ContentProvider::YTPlaylist(p) => p.get_name(),
        }
    }

    pub fn has_menu(&self) -> (r: bool)
        ensures
            r == self.has_menu_spec(),
    {
        match self {
            ContentProvider::Main(_) => true,
            _ => false,
        }
    }

    pub fn is_editable(&self) -> (r: bool)
        ensures
            r == self.is_editable_spec(),
    {
        match self {
            ContentProvider::YTExplorer(_) => true,
            ContentProvider::FileExplorer(p) => p.is_editable(),
            _ => false,
        }
    }

    pub fn is_loadable(&self) -> (r: bool)
        ensures
            r == self.is_loadable_spec(),
    {
        match self {
            ContentProvider::FileExplorer(_) | ContentProvider::YTExplorer(_) | ContentProvider::YTAlbum(_)
            | ContentProvider::YTPlaylist(_) => true,
            _ => false,
        }
    }

    pub fn lists_song_ids(&self) -> (r: bool)
        ensures
            r == self.lists_songs(),
    {
        match self {
            ContentProvider::Main(_) | ContentProvider::QueueProvider(_) => false,
            _ => true,
        }
    }

    pub fn lists_provider_ids(&self) -> (r: bool)
        ensures
            r == self.lists_providers(),
    {
        match self {
            ContentProvider::Main(_) | ContentProvider::QueueProvider(_) | ContentProvider::FileExplorer(_)
            | ContentProvider::YTExplorer(_) => true,
            _ => false,
        }
    }

    /// The songs listed.
    pub fn songs(&self) -> (r: Vec<SongID>)
        ensures
            r@ == self.songs_of(),
    {
        match self {
            ContentProvider::Main(_) | ContentProvider::QueueProvider(_) => Vec::new(),
            ContentProvider::Queue(q) => q.songs.clone(),
            ContentProvider::FileExplorer(p) => p.songs().clone(),
            ContentProvider::YTExplorer(p) => p.songs().clone(),
            ContentProvider::YTAlbum(p) => p.songs().clone(),
            ContentProvider::YTPlaylist(p) => p.songs().clone(),
        }
    }

    /// The providers listed.
    pub fn providers(&self) -> (r: Vec<ContentProviderID>)
        ensures
            r@ == self.providers_of(),
    {
        match self {
            ContentProvider::Main(p) => p.providers().clone(),
            ContentProvider::QueueProvider(p) => p.providers().clone(),
            ContentProvider::FileExplorer(p) => p.providers().clone(),
            ContentProvider::YTExplorer(p) => p.providers().clone(),
            _ => Vec::new(),
        }
    }

    /// The ids listed: the providers, then the songs.
    pub fn ids(&self) -> (r: Vec<ID>)
        ensures
            r@ == self.listing(),
    {
        let songs = self.songs();
        let providers = self.providers();
        listing_id_list(&providers, &songs)
    }

    /// How many entries are listed.
    pub fn get_size(&self) -> (r: usize)
        requires
            self.providers_of().len() + self.songs_of().len() <= usize::MAX,
        ensures
            r == self.listing().len(),
    {
        let n = self.providers().len() + self.songs().len();
        proof {
            self.lemma_listing_len();
        }
        n
    }

    pub proof fn lemma_listing_len(&self)
        ensures
            self.listing().len() == self.providers_of().len() + self.songs_of().len(),
    {
    }

    pub fn get_selected_index(&self) -> (r: SelectedIndex)
        ensures
            r@ == self.selection_of(),
    {
        match self {
            ContentProvider::Main(p) => p.get_selected_index(),
            ContentProvider::QueueProvider(p) => p.get_selected_index(),
            ContentProvider::Queue(q) => q.index,
            ContentProvider::FileExplorer(p) => p.get_selected_index(),
            ContentProvider::YTExplorer(p) => p.get_selected_index(),
            ContentProvider::YTAlbum(p) => p.get_selected_index(),
            ContentProvider::YTPlaylist(p) => p.get_selected_index(),
        }
    }

    /// The selected id. Panics where the selection is past the end.
    pub fn get_selected(&self) -> (r: ID)
        requires
            self.selection_of() < self.listing().len(),
        ensures
            r == self.listing()[self.selection_of() as int],
    {
        let ids = self.ids();
        let i = self.get_selected_index().selected_index();
        ids[i]
    }

    /// Moves the selection down, if it can; says whether it moved.
    pub fn selection_increment(&mut self) -> (moved: bool)
        requires
            old(self).providers_of().len() + old(self).songs_of().len() <= usize::MAX,
        ensures
            final(self).selection_of() == stepped_down(old(self).selection_of(), old(self).listing().len() as usize),
            moved == (old(self).selection_of() + 1 < old(self).listing().len()),
            final(self).same_lists(old(self)),
            final(self).lists_songs() == old(self).lists_songs(),
            final(self).lists_providers() == old(self).lists_providers(),
    {
        let ghost n = old(self).listing().len();
        proof {
            old(self).lemma_listing_len();
        }
        let sel = self.get_selected_index().selected_index();
        let len = self.get_size();
        match self {
            ContentProvider::Main(p) => {
                p.selection_increment();
            },
            ContentProvider::QueueProvider(p) => {
                p.selection_increment();
            },
            ContentProvider::Queue(q) => {
                q.selection_increment();
            },
            ContentProvider::FileExplorer(p) => {
                p.selection_increment();
            },
            ContentProvider::YTExplorer(p) => {
                p.selection_increment();
            },
            ContentProvider::YTAlbum(p) => {
                p.selection_increment();
            },
            ContentProvider::YTPlaylist(p) => {
                p.selection_increment();
            },
        }
        sel < len && sel + 1 < len
    }

    /// Moves the selection up, if it can; says whether it moved.
    pub fn selection_decrement(&mut self) -> (moved: bool)
        ensures
            final(self).selection_of() == stepped_up(old(self).selection_of()),
            moved == (old(self).selection_of() > 0),
            final(self).same_lists(old(self)),
            final(self).lists_songs() == old(self).lists_songs(),
            final(self).lists_providers() == old(self).lists_providers(),
    {
        let sel = self.get_selected_index().selected_index();
        match self {
            ContentProvider::Main(p) => {
                p.selection_decrement();
            },
            ContentProvider::QueueProvider(p) => {
                p.selection_decrement();
            },
            ContentProvider::Queue(q) => {
                q.selection_decrement();
            },
            ContentProvider::FileExplorer(p) => {
                p.selection_decrement();
            },
            ContentProvider::YTExplorer(p) => {
                p.selection_decrement();
            },
            ContentProvider::YTAlbum(p) => {
                p.selection_decrement();
            },
            ContentProvider::YTPlaylist(p) => {
                p.selection_decrement();
            },
        }
        sel > 0
    }

    /// Adds a song at the end. Panics where the provider lists no songs.
    pub fn add_song(&mut self, id: SongID)
        requires
            old(self).lists_songs(),
        ensures
            final(self).songs_of() == old(self).songs_of().push(id),
            final(self).providers_of() == old(self).providers_of(),
            final(self).selection_of() == old(self).selection_of(),
            final(self).lists_songs() == old(self).lists_songs(),
            final(self).lists_providers() == old(self).lists_providers(),
    {
        match self {
            ContentProvider::Queue(q) => q.add_song(id),
            ContentProvider::FileExplorer(p) => p.add_song(id),
            ContentProvider::YTExplorer(p) => p.add_song(id),
            ContentProvider::YTAlbum(p) => p.add_song(id),
            ContentProvider::YTPlaylist(p) => p.add_song(id),
            _ => {},
        }
    }

    /// Adds a provider at the end. Panics where the provider lists no providers.
    pub fn add_provider(&mut self, id: ContentProviderID)
        requires
            old(self).lists_providers(),
        ensures
            final(self).providers_of() == old(self).providers_of().push(id),
            final(self).songs_of() == old(self).songs_of(),
            final(self).selection_of() == old(self).selection_of(),
            final(self).lists_songs() == old(self).lists_songs(),
            final(self).lists_providers() == old(self).lists_providers(),
    {
        match self {
            ContentProvider::Main(p) => p.add_provider(id),
            ContentProvider::QueueProvider(p) => p.add_provider(id),
            ContentProvider::FileExplorer(p) => p.add_provider(id),
            ContentProvider::YTExplorer(p) => p.add_provider(id),
            _ => {},
        }
    }

    /// Takes the first occurrence of a song out; the selection moves up when
    /// it stood at or after it. Panics where the provider lists no songs.
    pub fn remove_song(&mut self, id: SongID) -> (r: Option<SongID>)
        requires
            old(self).lists_songs(),
        ensures
            match first_at(old(self).songs_of(), id) {
                Some(k) => {
                    &&& r == Some(id)
                    &&& final(self).songs_of() == old(self).songs_of().remove(k)
                    &&& final(self).selection_of() == if old(self).providers_of().len() + k <= old(self).selection_of() {
                        stepped_up(old(self).selection_of())
                    } else {
                        old(self).selection_of()
                    }
                },
                None => {
                    &&& r is None
                    &&& final(self).songs_of() == old(self).songs_of()
                    &&& final(self).selection_of() == old(self).selection_of()
                },
            },
            final(self).providers_of() == old(self).providers_of(),
            final(self).lists_songs() == old(self).lists_songs(),
            final(self).lists_providers() == old(self).lists_providers(),
    {
        match self {
            ContentProvider::Queue(q) => q.remove_song(id),
            ContentProvider::FileExplorer(p) => p.remove_song(id),
            ContentProvider::YTExplorer(p) => p.remove_song(id),
            ContentProvider::YTPlaylist(p) => p.remove_song(id),
            ContentProvider::YTAlbum(p) => p.remove_song(id),
            _ => None,
        }
    }

    /// Takes the first occurrence of a provider out; the selection moves up
    /// when it stood at or after it. Panics where the provider lists no providers.
    pub fn remove_provider(&mut self, id: ContentProviderID) -> (r: Option<ContentProviderID>)
        requires
            old(self).lists_providers(),
        ensures
            match first_at(old(self).providers_of(), id) {
                Some(k) => {
                    &&& r == Some(id)
                    &&& final(self).providers_of() == old(self).providers_of().remove(k)
                    &&& final(self).selection_of() == if k <= old(self).selection_of() {
                        stepped_up(old(self).selection_of())
                    } else {
                        old(self).selection_of()
                    }
                },
                None => {
                    &&& r is None
                    &&& final(self).providers_of() == old(self).providers_of()
                    &&& final(self).selection_of() == old(self).selection_of()
                },
            },
            final(self).songs_of() == old(self).songs_of(),
            final(self).lists_songs() == old(self).lists_songs(),
            final(self).lists_providers() == old(self).lists_providers(),
    {
        match self {
            ContentProvider::Main(p) => p.remove_provider(id),
            ContentProvider::QueueProvider(p) => p.remove_provider(id),
            ContentProvider::FileExplorer(p) => p.remove_provider(id),
            ContentProvider::YTExplorer(p) => p.remove_provider(id),
            _ => None,
        }
    }
}

} // verus!
