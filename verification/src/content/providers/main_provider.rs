use vstd::prelude::*;

use crate::content::providers::queue_provider::{provider_id_list, provider_ids};
use crate::content::providers::traits::{copy_list, first_at, remove_first};
use crate::content::register::{ContentProviderID, ID};
use crate::content::selection::{
    selection_decrement, selection_increment, stepped_down, stepped_up, SelectedIndex,
};

verus! {

/// What the menu of the main provider offers.
#[allow(non_camel_case_types)]
#[derive(Clone, Copy, Debug, PartialEq, Eq, Structural)]
pub enum MainProviderMenuOption {
    ADD_ARTIST_PROVIDER,
    ADD_PLAYLIST_PROVIDER,
    ADD_FILE_EXPLORER,
    ADD_YT_EXPLORER,
}

/// The menu options, in the order shown.
pub open spec fn menu_options() -> Seq<MainProviderMenuOption> {
    seq![
        MainProviderMenuOption::ADD_ARTIST_PROVIDER,
        MainProviderMenuOption::ADD_PLAYLIST_PROVIDER,
        MainProviderMenuOption::ADD_FILE_EXPLORER,
        MainProviderMenuOption::ADD_YT_EXPLORER,
    ]
}

/// The label of a menu option: its name in lower case, words apart.
pub fn menu_label(o: MainProviderMenuOption) -> (r: String)
    ensures
        r@ == match o {
            MainProviderMenuOption::ADD_ARTIST_PROVIDER => "add artist provider"@,
            MainProviderMenuOption::ADD_PLAYLIST_PROVIDER => "add playlist provider"@,
            MainProviderMenuOption::ADD_FILE_EXPLORER => "add file explorer"@,
            MainProviderMenuOption::ADD_YT_EXPLORER => "add yt explorer"@,
        },
{
    match o {
        MainProviderMenuOption::ADD_ARTIST_PROVIDER => String::from_str("add artist provider"),
        MainProviderMenuOption::ADD_PLAYLIST_PROVIDER => String::from_str("add playlist provider"),
        MainProviderMenuOption::ADD_FILE_EXPLORER => String::from_str("add file explorer"),
        MainProviderMenuOption::ADD_YT_EXPLORER => String::from_str("add yt explorer"),
    }
}

/// The root provider: the queues, and the explorers added to it.
pub struct MainProvider {
    providers: Vec<ContentProviderID>,
    queue_provider: ContentProviderID,
    name: String,
    selected: SelectedIndex,
}

impl MainProvider {
    pub closed spec fn children(&self) -> Seq<ContentProviderID> {
        self.providers@
    }

    pub closed spec fn queue_provider_id(&self) -> ContentProviderID {
        self.queue_provider
    }

    /// The provider of the queues.
    pub fn queue_provider(&self) -> (r: ContentProviderID)
        ensures
            r == self.queue_provider_id(),
    {
        self.queue_provider
    }

    pub closed spec fn selection(&self) -> usize {
        self.selected@
    }

    pub closed spec fn title(&self) -> Seq<char> {
        self.name@
    }

    /// A copy of the provider.
    pub fn cp_clone(&self) -> (r: MainProvider)
        ensures
            r.children() == self.children(),
            r.queue_provider_id() == self.queue_provider_id(),
            r.selection() == self.selection(),
            r.title() == self.title(),
    {
        MainProvider {
            providers: copy_list(&self.providers),
            queue_provider: self.queue_provider,
            name: self.name.clone(),
            selected: self.selected,
        }
    }

    /// A main provider named "main" over the given queue provider, listing
    /// nothing until loaded.
    pub fn new(queue_provider: ContentProviderID) -> (r: MainProvider)
        ensures
            r.queue_provider_id() == queue_provider,
            r.children().len() == 0,
            r.selection() == 0,
            r.title() == "main"@,
    {
        MainProvider {
            providers: Vec::new(),
            queue_provider,
            name: String::from_str("main"),
            selected: SelectedIndex::new(),
        }
    }

    /// Lists the queue provider, then a file explorer and a youtube explorer.
    pub fn load(&mut self, file_explorer: ContentProviderID, yt_explorer: ContentProviderID)
        ensures
            final(self).children() == seq![old(self).queue_provider_id(), file_explorer, yt_explorer],
            final(self).queue_provider_id() == old(self).queue_provider_id(),
            final(self).selection() == old(self).selection(),
            final(self).title() == old(self).title(),
    {
        let mut v: Vec<ContentProviderID> = Vec::new();
        v.push(self.queue_provider);
        v.push(file_explorer);
        v.push(yt_explorer);
        self.providers = v;
        proof {
            assert(self.providers@ =~= seq![old(self).queue_provider_id(), file_explorer, yt_explorer]);
        }
    }

    pub fn providers(&self) -> (r: &Vec<ContentProviderID>)
        ensures
            r@ == self.children(),
    {
        &self.providers
    }

    pub fn get_name(&self) -> (r: &String)
        ensures
            r@ == self.title(),
    {
        &self.name
    }

    pub fn add_provider(&mut self, id: ContentProviderID)
        ensures
            final(self).children() == old(self).children().push(id),
            final(self).queue_provider_id() == old(self).queue_provider_id(),
            final(self).selection() == old(self).selection(),
            final(self).title() == old(self).title(),
    {
        self.providers.push(id);
    }

    /// Forgets every listed provider.
    pub fn clear_providers(&mut self)
        ensures
            final(self).children().len() == 0,
            final(self).queue_provider_id() == old(self).queue_provider_id(),
            final(self).selection() == old(self).selection(),
            final(self).title() == old(self).title(),
    {
        self.providers.clear();
    }

    pub fn ids(&self) -> (r: Vec<ID>)
        ensures
            r@ == provider_ids(self.children()),
    {
        provider_id_list(&self.providers)
    }

    pub fn get_size(&self) -> (r: usize)
        ensures
            r == self.children().len(),
    {
        self.providers.len()
    }

    pub fn get_selected_index(&self) -> (r: SelectedIndex)
        ensures
            r@ == self.selection(),
    {
        self.selected
    }

    /// The id of the selected entry. Panics where the selection is past the end.
    pub fn get_selected(&self) -> (r: ID)
        requires
            self.selection() < self.children().len(),
        ensures
            r == ID::ContentProvider(self.children()[self.selection() as int]),
    {
        ID::ContentProvider(self.providers[self.selected.selected_index()])
    }

    pub fn selection_increment(&mut self) -> (moved: bool)
        ensures
            final(self).selection() == stepped_down(old(self).selection(), old(self).children().len() as usize),
            moved == (old(self).selection() + 1 < old(self).children().len()),
            final(self).children() == old(self).children(),
            final(self).queue_provider_id() == old(self).queue_provider_id(),
    {
        let n = self.providers.len();
        selection_increment(&mut self.selected, n)
    }

    pub fn selection_decrement(&mut self) -> (moved: bool)
        ensures
            final(self).selection() == stepped_up(old(self).selection()),
            moved == (old(self).selection() > 0),
            final(self).children() == old(self).children(),
            final(self).queue_provider_id() == old(self).queue_provider_id(),
    {
        selection_decrement(&mut self.selected)
    }

    /// Takes the first occurrence of `id` out; the selection moves up when it
    /// stood at or after it.
    pub fn remove_provider(&mut self, id: ContentProviderID) -> (r: Option<ContentProviderID>)
        ensures
            match first_at(old(self).children(), id) {
                Some(k) => {
                    &&& r == Some(id)
                    &&& final(self).children() == old(self).children().remove(k)
                    &&& final(self).selection() == if k <= old(self).selection() {
                        stepped_up(old(self).selection())
                    } else {
                        old(self).selection()
                    }
                },
                None => {
                    &&& r is None
                    &&& final(self).children() == old(self).children()
                    &&& final(self).selection() == old(self).selection()
                },
            },
            final(self).queue_provider_id() == old(self).queue_provider_id(),
    {
        remove_first(&mut self.providers, &mut self.selected, id, 0)
    }

    /// How many options the menu shows.
    pub fn num_options(&self) -> (r: usize)
        ensures
            r == menu_options().len(),
    {
        4
    }

    /// The menu options, in the order shown.
    pub fn menu(&self) -> (r: Vec<MainProviderMenuOption>)
        ensures
            r@ == menu_options(),
    {
        let mut v = Vec::new();
        v.push(MainProviderMenuOption::ADD_ARTIST_PROVIDER);
        v.push(MainProviderMenuOption::ADD_PLAYLIST_PROVIDER);
        v.push(MainProviderMenuOption::ADD_FILE_EXPLORER);
        v.push(MainProviderMenuOption::ADD_YT_EXPLORER);
        proof {
            assert(v@ =~= menu_options());
        }
        v
    }

    /// The option at the menu's selected entry. Panics where there is none.
    pub fn apply_option(&self, selected: usize) -> (r: MainProviderMenuOption)
        requires
            selected < menu_options().len(),
        ensures
            r == menu_options()[selected as int],
    {
        let options = self.menu();
        options[selected]
    }
}

} // verus!
