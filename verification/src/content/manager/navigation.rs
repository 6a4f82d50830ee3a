use vstd::prelude::*;

use crate::content::manager::manager::{ContentManager, RegisterError};
use crate::content::register::{ContentKey, ContentProviderID, ContentRegister, GlobalContent, SongID, ID};
use crate::content::selection::{stepped_down, stepped_up, SelectedIndex};
use crate::content::providers::yt_explorer::{editables_defined, editables_for};
use crate::content::providers::ContentProvider;
use crate::content::providers::main_provider::menu_options;
use crate::content::stack::{ContentState, StateContext, StateView};

verus! {

impl ContentManager {
    /// Nothing but the state shown over the stack differs between `a` and `b`.
    pub open spec fn only_state_changed(a: &Self, b: &Self) -> bool {
        &&& b.songs == a.songs
        &&& b.content_providers == a.content_providers
        &&& b.content_stack.entries() == a.content_stack.entries()
        &&& b.edit_manager == a.edit_manager
        &&& b.active_queue == a.active_queue
        &&& b.active_song == a.active_song
    }

    /// The state that opening the menu of provider `p` leads to from `a`.
    pub open spec fn menu_opened(a: &Self, p: ContentProviderID) -> StateView {
        if a.provider(p)->Some_0.has_menu_spec() {
            StateView::Menu { ctx: seq![SelectedIndex { index: 0 }], id: GlobalContent::ID(ID::ContentProvider(p)) }
        } else {
            a.content_stack.state_view()
        }
    }

    /// The state that opening the edit screen of provider `p` leads to from `a`.
    pub open spec fn edit_opened(a: &Self, p: ContentProviderID) -> StateView {
        if a.provider(p)->Some_0.is_editable_spec() {
            StateView::Edit { ctx: seq![SelectedIndex { index: 0 }], id: GlobalContent::ID(ID::ContentProvider(p)) }
        } else {
            a.content_stack.state_view()
        }
    }

    /// The provider that the top provider has selected, where it selects one.
    pub open spec fn selected_provider(&self) -> Option<ContentProviderID> {
        match self.top_provider() {
            Some(t) => match self.provider(t) {
                Some(cp) => if cp.selection_of() < cp.listing().len() {
                    match cp.listing()[cp.selection_of() as int] {
                        ID::ContentProvider(p) => Some(p),
                        ID::Song(_) => None,
                    }
                } else {
                    None
                },
                None => None,
            },
            None => None,
        }
    }

    /// What opening the menu of the provider on top does (see
    /// `open_menu_for_current`).
    pub open spec fn menu_opened_for_current(a: Self, b: Self) -> bool {
        &&& Self::only_state_changed(&a, &b)
        &&& b.content_stack.state_view() == if a.content_stack.state_view() is Normal {
            Self::menu_opened(&a, a.top_provider()->Some_0)
        } else {
            a.content_stack.state_view()
        }
    }

    /// In the normal state, opens the menu of the provider on top of the
    /// stack, where it has one; in any other state changes nothing.
    pub fn open_menu_for_current(&mut self)
        requires
            old(self).wf(),
            old(self).content_stack.state_view() is Normal ==> (old(self).top_provider() matches Some(p)
                && old(self).provider(p) is Some),
        ensures
            final(self).wf(),
            Self::menu_opened_for_current(*old(self), *final(self)),
    {
        match self.content_stack.get_state() {
            ContentState::Normal => {
                let top = self.content_stack.last();
                self.open_menu_for(top);
            },
            _ => {},
        }
    }

    /// In the normal state, opens the menu of the provider that the provider
    /// on top of the stack has selected, where it has one; in any other state
    /// changes nothing.
    pub fn open_menu_for_selected(&mut self)
        requires
            old(self).wf(),
            old(self).content_stack.state_view() is Normal ==> (old(self).selected_provider() matches Some(p)
                && old(self).provider(p) is Some),
        ensures
            final(self).wf(),
            Self::only_state_changed(old(self), final(self)),
            final(self).content_stack.state_view() == if old(self).content_stack.state_view() is Normal {
                Self::menu_opened(old(self), old(self).selected_provider()->Some_0)
            } else {
                old(self).content_stack.state_view()
            },
    {
        match self.content_stack.get_state() {
            ContentState::Normal => {
                let top = self.content_stack.last();
                match top {
                    GlobalContent::ID(ID::ContentProvider(t)) => {
                        let id = self.get_provider(t).get_selected();
                        self.open_menu_for(GlobalContent::ID(id));
                    },
                    _ => {},
                }
            },
            _ => {},
        }
    }

    /// What opening the edit screen of the provider on top does (see
    /// `open_edit_for_current`).
    pub open spec fn edit_opened_for_current(a: Self, b: Self) -> bool {
        &&& Self::only_state_changed(&a, &b)
        &&& b.content_stack.state_view() == if a.content_stack.state_view() is Normal {
            Self::edit_opened(&a, a.top_provider()->Some_0)
        } else {
            a.content_stack.state_view()
        }
    }

    /// In the normal state, opens the edit screen of the provider on top of
    /// the stack, where it has one; in any other state changes nothing.
    pub fn open_edit_for_current(&mut self)
        requires
            old(self).wf(),
            old(self).content_stack.state_view() is Normal ==> (old(self).top_provider() matches Some(p)
                && old(self).provider(p) is Some),
        ensures
            final(self).wf(),
            Self::edit_opened_for_current(*old(self), *final(self)),
    {
        match self.content_stack.get_state() {
            ContentState::Normal => {
                let top = self.content_stack.last();
                self.open_edit_for(top);
            },
            _ => {},
        }
    }

    /// In the normal state, opens the edit screen of the provider that the
    /// provider on top of the stack has selected, where it has one; in any
    /// other state changes nothing.
    pub fn open_edit_for_selected(&mut self)
        requires
            old(self).wf(),
            old(self).content_stack.state_view() is Normal ==> (old(self).selected_provider() matches Some(p)
                && old(self).provider(p) is Some),
        ensures
            final(self).wf(),
            Self::only_state_changed(old(self), final(self)),
            final(self).content_stack.state_view() == if old(self).content_stack.state_view() is Normal {
                Self::edit_opened(old(self), old(self).selected_provider()->Some_0)
            } else {
                old(self).content_stack.state_view()
            },
    {
        match self.content_stack.get_state() {
            ContentState::Normal => {
                let top = self.content_stack.last();
                match top {
                    GlobalContent::ID(ID::ContentProvider(t)) => {
                        let id = self.get_provider(t).get_selected();
                        self.open_edit_for(GlobalContent::ID(id));
                    },
                    _ => {},
                }
            },
            _ => {},
        }
    }
}


impl ContentManager {
    /// What making `s` the song playing left in `b`, answering `r`, as
    /// `set_active_song` states it.
    pub open spec fn song_played(a: &Self, b: &Self, s: SongID, r: Result<Option<SongID>, RegisterError>) -> bool {
        &&& r is Ok ==> r == Ok::<Option<SongID>, RegisterError>(Some(s)) && b.active_song == Some(s)
        &&& r is Err ==> b.active_song == a.active_song
        &&& !a.songs.is_live(s.key_index() as int) ==> r == Err::<Option<SongID>, RegisterError>(
            RegisterError::NotRegistered(ID::Song(s)),
        )
    }

    /// Nothing is played: `b` keeps the songs and the song playing of `a`.
    pub open spec fn nothing_played(a: &Self, b: &Self, r: Result<Option<SongID>, RegisterError>) -> bool {
        &&& r == Ok::<Option<SongID>, RegisterError>(None)
        &&& b.songs == a.songs
        &&& b.active_song == a.active_song
    }

    /// What moving the selection of the queue playing to `sel` and playing
    /// the song there, if it moved onto one, leaves in `b` from `a`, answering `r`.
    pub open spec fn queue_stepped(
        a: &Self,
        b: &Self,
        q: ContentProviderID,
        sel: usize,
        moved: bool,
        r: Result<Option<SongID>, RegisterError>,
    ) -> bool {
        let cp = a.provider(q)->Some_0;
        &&& b.provider(q) matches Some(c2) && c2.selection_of() == sel && c2.same_lists(&cp)
        &&& ContentRegister::same_except(a.content_providers, b.content_providers, q.key_index() as int)
        &&& if moved {
            match cp.listing()[sel as int] {
                ID::Song(s) => Self::song_played(a, b, s, r),
                ID::ContentProvider(_) => Self::nothing_played(a, b, r),
            }
        } else {
            Self::nothing_played(a, b, r)
        }
    }

    /// Moves the selection of the queue playing one entry down and, where it
    /// moved onto a song, makes that song the one playing and returns it;
    /// with no queue playing, nothing changes.
    pub fn next_song(&mut self) -> (r: Result<Option<SongID>, RegisterError>)
        requires
            old(self).wf(),
            old(self).active_queue matches Some(q) ==> (old(self).provider(q) matches Some(cp)
                && cp.providers_of().len() + cp.songs_of().len() <= usize::MAX),
        ensures
            final(self).wf(),
            final(self).content_stack == old(self).content_stack,
            final(self).edit_manager == old(self).edit_manager,
            final(self).active_queue == old(self).active_queue,
            match old(self).active_queue {
                None => Self::nothing_played(old(self), final(self), r) && final(self).content_providers
                    == old(self).content_providers,
                Some(q) => {
                    let cp = old(self).provider(q)->Some_0;
                    Self::queue_stepped(
                        old(self),
                        final(self),
                        q,
                        stepped_down(cp.selection_of(), cp.listing().len() as usize),
                        cp.selection_of() + 1 < cp.listing().len(),
                        r,
                    )
                },
            },
    {
        let q = match self.active_queue {
            Some(q) => q,
            None => {
                return Ok(None);
            },
        };
        let cp = self.content_providers.get_mut(q).unwrap();
        let moved = cp.selection_increment();
        if !moved {
            return Ok(None);
        }
        let id = cp.get_selected();
        match id {
            ID::Song(s) => {
                let res = self.set_active_song(s);
                match res {
                    Ok(()) => Ok(Some(s)),
                    Err(e) => Err(e),
                }
            },
            ID::ContentProvider(_) => Ok(None),
        }
    }

    /// Moves the selection of the queue playing one entry up and, where it
    /// moved onto a song, makes that song the one playing and returns it;
    /// with no queue playing, nothing changes.
    pub fn prev_song(&mut self) -> (r: Result<Option<SongID>, RegisterError>)
        requires
            old(self).wf(),
            old(self).active_queue matches Some(q) ==> (old(self).provider(q) matches Some(cp)
                && cp.selection_of() <= cp.listing().len()),
        ensures
            final(self).wf(),
            final(self).content_stack == old(self).content_stack,
            final(self).edit_manager == old(self).edit_manager,
            final(self).active_queue == old(self).active_queue,
            match old(self).active_queue {
                None => Self::nothing_played(old(self), final(self), r) && final(self).content_providers
                    == old(self).content_providers,
                Some(q) => {
                    let cp = old(self).provider(q)->Some_0;
                    Self::queue_stepped(
                        old(self),
                        final(self),
                        q,
                        stepped_up(cp.selection_of()),
                        cp.selection_of() > 0,
                        r,
                    )
                },
            },
    {
        let q = match self.active_queue {
            Some(q) => q,
            None => {
                return Ok(None);
            },
        };
        let cp = self.content_providers.get_mut(q).unwrap();
        let moved = cp.selection_decrement();
        if !moved {
            return Ok(None);
        }
        let id = cp.get_selected();
        match id {
            ID::Song(s) => {
                let res = self.set_active_song(s);
                match res {
                    Ok(()) => Ok(Some(s)),
                    Err(e) => Err(e),
                }
            },
            ID::ContentProvider(_) => Ok(None),
        }
    }
}


/// Whether a youtube explorer's edit screens can be at `ctx`.
fn editables_defined_exec(ctx: &StateContext) -> (r: bool)
    ensures
        r == editables_defined(ctx@),
{
    let n = ctx.len();
    if n < 1 || n > 3 {
        return false;
    }
    if n == 2 {
        match ctx.get(0) {
            Some(i) => i.selected_index() < 3,
            None => false,
        }
    } else {
        true
    }
}

impl ContentManager {
    /// Whether the queue provider is in place: the main provider at the
    /// bottom of the stack names a queue provider that is there.
    pub fn has_queues_in_place(&self) -> (r: bool)
        requires
            self.content_stack.wf(),
        ensures
            r == self.queues_in_place(),
    {
        let main = self.content_stack.main_provider();
        match self.content_providers.get(main) {
            Some(ContentProvider::Main(mp)) => {
                match self.content_providers.get(mp.queue_provider()) {
                    Some(ContentProvider::QueueProvider(_)) => true,
                    _ => false,
                }
            },
            _ => false,
        }
    }

    /// Whether the selection can be moved in what is shown (see
    /// `selection_movable`).
    pub fn can_move_selection(&self) -> (r: bool)
        requires
            self.wf(),
        ensures
            r == self.selection_movable(),
    {
        match self.content_stack.get_state() {
            ContentState::Normal => match self.content_stack.last() {
                GlobalContent::ID(ID::ContentProvider(p)) => match self.content_providers.get(p) {
                    Some(cp) => cp.providers().len() <= usize::MAX - cp.songs().len(),
                    None => false,
                },
                _ => false,
            },
            ContentState::Edit { ctx, id } => {
                if ctx.len() == 0 {
                    return false;
                }
                match id {
                    GlobalContent::ID(ID::ContentProvider(p)) => match self.content_providers.get(*p) {
                        Some(cp) => cp.is_editable() && match cp {
                            ContentProvider::YTExplorer(_) => editables_defined_exec(ctx),
                            _ => true,
                        },
                        None => false,
                    },
                    _ => false,
                }
            },
            ContentState::Menu { ctx, id } => {
                if ctx.len() == 0 {
                    return false;
                }
                match id {
                    GlobalContent::ID(ID::ContentProvider(p)) => match self.content_providers.get(*p) {
                        Some(cp) => cp.has_menu(),
                        None => false,
                    },
                    _ => false,
                }
            },
            ContentState::GlobalMenu(_) => false,
        }
    }

    /// Whether the selected entry of what is shown can be entered (see
    /// `enter_ok`).
    pub fn can_enter(&self) -> (r: bool)
        requires
            self.wf(),
        ensures
            r == self.enter_ok(),
    {
        match self.content_stack.get_state() {
            ContentState::Normal => match self.content_stack.last() {
                GlobalContent::ID(ID::ContentProvider(p)) => match self.content_providers.get(p) {
                    Some(cp) => {
                        let sel = cp.get_selected_index().selected_index();
                        let ids = cp.ids();
                        if sel >= ids.len() {
                            return false;
                        }
                        match ids[sel] {
                            ID::Song(_) => self.has_queues_in_place() && self.content_providers.len() < usize::MAX,
                            ID::ContentProvider(_) => true,
                        }
                    },
                    None => false,
                },
                _ => false,
            },
            ContentState::Menu { ctx, id } => {
                if ctx.len() == 0 {
                    return false;
                }
                if ctx.last().selected_index() >= 4 {
                    return false;
                }
                match id {
                    GlobalContent::ID(ID::ContentProvider(p)) => match self.content_providers.get(*p) {
                        Some(ContentProvider::Main(_)) => true,
                        _ => false,
                    },
                    _ => false,
                }
            },
            ContentState::Edit { ctx, id } => {
                if ctx.len() == 0 {
                    return false;
                }
                match id {
                    GlobalContent::ID(ID::ContentProvider(p)) => match self.content_providers.get(*p) {
                        Some(cp) => {
                            if !cp.is_editable() {
                                return false;
                            }
                            let last = ctx.last().selected_index();
                            match cp {
                                ContentProvider::YTExplorer(y) => {
                                    if !editables_defined_exec(ctx) {
                                        return false;
                                    }
                                    last < y.num_editables(ctx)
                                },
                                ContentProvider::FileExplorer(_) => last < 1,
                                _ => true,
                            }
                        },
                        None => false,
                    },
                    _ => false,
                }
            },
            ContentState::GlobalMenu(_) => false,
        }
    }
}


impl ContentManager {
    /// Where what is shown can tell its selection: a live provider on top
    /// in the normal state, a level open on an edit screen or menu.
    pub open spec fn selection_shown(&self) -> bool {
        match self.content_stack.state_view() {
            StateView::Normal => self.top_provider() matches Some(p) && self.provider(p) is Some,
            StateView::Edit { ctx, .. } => ctx.len() > 0,
            StateView::Menu { ctx, .. } => ctx.len() > 0,
            StateView::GlobalMenu(_) => true,
        }
    }

    /// The selection of what is shown.
    pub open spec fn shown_selection(&self) -> usize {
        match self.content_stack.state_view() {
            StateView::Normal => self.provider(self.top_provider()->Some_0)->Some_0.selection_of(),
            StateView::Edit { ctx, .. } => ctx.last()@,
            StateView::Menu { ctx, .. } => ctx.last()@,
            StateView::GlobalMenu(i) => i@,
        }
    }

    /// The selection of what is shown: the top provider's in the normal
    /// state, the innermost level's of an edit screen or menu, the global
    /// menu's.
    pub fn get_selected_index(&self) -> (r: SelectedIndex)
        requires
            self.wf(),
            self.selection_shown(),
        ensures
            r@ == self.shown_selection(),
    {
        match self.content_stack.get_state() {
            ContentState::Normal => match self.content_stack.last() {
                GlobalContent::ID(ID::ContentProvider(p)) => self.get_provider(p).get_selected_index(),
                _ => {
                    proof {
                        assert(false);
                    }
                    SelectedIndex::new()
                },
            },
            ContentState::Edit { ctx, .. } => ctx.last(),
            ContentState::Menu { ctx, .. } => ctx.last(),
            ContentState::GlobalMenu(i) => *i,
        }
    }
}

} // verus!
