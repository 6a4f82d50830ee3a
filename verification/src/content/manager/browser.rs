use vstd::prelude::*;

use crate::app::keys::BrowserCommand;
use crate::content::manager::manager::{ActionError, ContentManager, Entered, RegisterError};
use crate::content::register::{ContentProviderID, GlobalContent, GlobalProvider, ID};
use crate::content::stack::{ContentState, StateView};
use crate::service::editors::{no_text_edits, EditManager, Edit, YankAction, YankType};

verus! {

/// What a command of the browser came to.
#[derive(Debug)]
pub enum BrowserOutcome {
    /// The command was not the browser's to carry out (nothing changed).
    Ignored,
    /// The command was carried out.
    Done,
    /// The selected entry was entered; playing a song, loading a provider
    /// or carrying out a menu option is the caller's.
    Entered(Entered),
}

/// What an action's answer comes to for the browser.
pub open spec fn outcome_of(r: Result<bool, ActionError>) -> Result<BrowserOutcome, ActionError> {
    match r {
        Ok(_) => Ok(BrowserOutcome::Done),
        Err(e) => Err(e),
    }
}

/// Whether no edit of `edits` is a text edit.
fn plain_edits(edits: &Vec<Edit>) -> (r: bool)
    ensures
        r == no_text_edits(edits@),
{
    let mut i: usize = 0;
    while i < edits.len()
        invariant
            i <= edits@.len(),
            no_text_edits(edits@.take(i as int)),
        decreases edits@.len() - i,
    {
        match &edits[i] {
            Edit::TextEdit { .. } => {
                proof {
                    assert(edits@[i as int] is TextEdit);
                }
                return false;
            },
            _ => {},
        }
        proof {
            assert forall|k: int| 0 <= k < i + 1 implies !(#[trigger] edits@.take(i + 1)[k] is TextEdit) by {
                if k < i {
                    assert(edits@.take(i + 1)[k] == edits@.take(i as int)[k]);
                }
            }
        }
        i = i + 1;
    }
    proof {
        assert(edits@.take(edits@.len() as int) =~= edits@);
    }
    true
}

impl ContentManager {
    /// In the normal state, the provider on top, its selection and how many
    /// entries it lists.
    pub open spec fn top_selection_of(&self) -> Option<(ContentProviderID, usize, nat)> {
        if self.content_stack.state_view() is Normal && self.top_provider() is Some && self.provider(
            self.top_provider()->Some_0,
        ) is Some {
            let p = self.top_provider()->Some_0;
            let q = self.provider(p)->Some_0;
            Some((p, q.selection_of(), q.listing().len()))
        } else {
            None
        }
    }

    /// Outside the normal state, or with a provider on top that is there.
    pub open spec fn top_reachable(&self) -> bool {
        !(self.content_stack.state_view() is Normal) || self.top_selection_of() is Some
    }

    /// Outside the normal state, or with the selection of the provider on
    /// top on one of its entries.
    pub open spec fn yank_togglable(&self) -> bool {
        !(self.content_stack.state_view() is Normal) || (self.top_selection_of() matches Some((_, sel, len))
            && sel < len)
    }

    /// The edits done and undone hold no text edit.
    pub open spec fn edits_plain(&self) -> bool {
        no_text_edits(self.edit_manager.edit_stack@) && no_text_edits(self.edit_manager.undo_stack@)
    }

    /// `b` is `a` with edit manager `em`.
    pub open spec fn with_edits(a: Self, em: EditManager) -> Self {
        ContentManager { edit_manager: em, ..a }
    }

    /// Running action `act` from `m` leaves `b` and answers `r` for the
    /// browser, `y` being what the action answered.
    pub open spec fn ran(m: Self, b: Self, act: YankAction, y: Result<bool, ActionError>) -> bool {
        Self::action_post(m, b, act, y) && b.content_stack == m.content_stack
    }

    /// What browser command `cmd` does from `a`, leaving `b` and answering
    /// `r`: each command does what the calls it makes do, where the state
    /// allows them, and nothing otherwise.
    pub open spec fn browser_post(a: Self, b: Self, cmd: BrowserCommand, r: Result<BrowserOutcome, ActionError>) -> bool {
        match cmd {
            BrowserCommand::OpenMenuForCurrent => r == Ok::<BrowserOutcome, ActionError>(BrowserOutcome::Done) && if a.top_reachable() {
                Self::menu_opened_for_current(a, b)
            } else {
                b == a
            },
            BrowserCommand::OpenEditForCurrent => r == Ok::<BrowserOutcome, ActionError>(BrowserOutcome::Done) && if a.top_reachable() {
                Self::edit_opened_for_current(a, b)
            } else {
                b == a
            },
            BrowserCommand::ToggleYank => r == Ok::<BrowserOutcome, ActionError>(BrowserOutcome::Done) && if a.yank_togglable() {
                exists|m: Self| #[trigger]
                    Self::yank_toggled(a, m) && if m.selection_movable() {
                        Self::selection_incremented(m, b)
                    } else {
                        b == m
                    }
            } else {
                b == a
            },
            BrowserCommand::ClearYank => if a.edits_plain() {
                exists|em: EditManager, act: YankAction, y: Result<bool, ActionError>|
                    EditManager::cleared(a.edit_manager, em, act) && #[trigger] Self::ran(Self::with_edits(a, em), b, act, y) && r
                        == outcome_of(y)
            } else {
                r == Ok::<BrowserOutcome, ActionError>(BrowserOutcome::Done) && b == a
            },
            BrowserCommand::Cut => exists|m: Self, act: YankAction, c: Self, y: Result<bool, ActionError>| #[trigger]
                Self::cut_through(a, m, act, c, y) && r == outcome_of(y) && if y == Ok::<bool, ActionError>(false) {
                    b == (ContentManager { edit_manager: EditManager { yanker: None, ..c.edit_manager }, ..c })
                } else {
                    b == c
                },
            BrowserCommand::Copy => exists|act: YankAction, y: Result<bool, ActionError>|
                EditManager::yank_applied(a.edit_manager, YankType::Copy, act) && #[trigger] Self::ran(a, b, act, y) && r
                    == outcome_of(y),
            BrowserCommand::PasteAt | BrowserCommand::PasteAfter => match a.top_selection_of() {
                Some((p, sel, _)) => if a.edit_manager.yanker is None && (cmd is PasteAt || sel < usize::MAX) {
                    let pos = if cmd is PasteAt { sel } else { (sel + 1) as usize };
                    exists|act: YankAction, y: Result<bool, ActionError>|
                        EditManager::paste_asked(a.edit_manager, GlobalProvider::ContentProvider(p), Some(pos), act)
                            && #[trigger] Self::ran(a, b, act, y) && r == outcome_of(y)
                } else {
                    r == Ok::<BrowserOutcome, ActionError>(BrowserOutcome::Done) && b == a
                },
                None => r == Ok::<BrowserOutcome, ActionError>(BrowserOutcome::Done) && b == a,
            },
            BrowserCommand::Redo => if a.edits_plain() {
                exists|em: EditManager, act: YankAction, y: Result<bool, ActionError>|
                    crate::service::editors::redo_post(a.edit_manager, em, act) && #[trigger] Self::ran(Self::with_edits(a, em), b, act, y)
                        && r == outcome_of(y)
            } else {
                r == Ok::<BrowserOutcome, ActionError>(BrowserOutcome::Done) && b == a
            },
            BrowserCommand::Undo => if a.edits_plain() {
                exists|em: EditManager, act: YankAction, y: Result<bool, ActionError>|
                    crate::service::editors::undo_post(a.edit_manager, em, act) && #[trigger] Self::ran(Self::with_edits(a, em), b, act, y)
                        && r == outcome_of(y)
            } else {
                r == Ok::<BrowserOutcome, ActionError>(BrowserOutcome::Done) && b == a
            },
            BrowserCommand::Escape => if a.edit_manager.yanker is None {
                r == Ok::<BrowserOutcome, ActionError>(BrowserOutcome::Ignored) && b == a
            } else {
                r == Ok::<BrowserOutcome, ActionError>(BrowserOutcome::Done) && b == (ContentManager {
                    edit_manager: EditManager { yanker: None, ..a.edit_manager },
                    ..a
                })
            },
            BrowserCommand::SelectionUp => r == Ok::<BrowserOutcome, ActionError>(BrowserOutcome::Done) && if a.selection_movable() {
                Self::selection_decremented(a, b)
            } else {
                b == a
            },
            BrowserCommand::SelectionDown => r == Ok::<BrowserOutcome, ActionError>(BrowserOutcome::Done) && if a.selection_movable() {
                Self::selection_incremented(a, b)
            } else {
                b == a
            },
            BrowserCommand::EnterSelected => if a.enter_ok() {
                exists|e: Result<Entered, RegisterError>| #[trigger]
                    Self::entered_selected(a, b, e) && r == match e {
                        Ok(x) => Ok::<BrowserOutcome, ActionError>(BrowserOutcome::Entered(x)),
                        Err(x) => Err(ActionError::Register(x)),
                    }
            } else {
                r == Ok::<BrowserOutcome, ActionError>(BrowserOutcome::Done) && b == a
            },
            BrowserCommand::Back => exists|p: Result<Option<GlobalContent>, RegisterError>| #[trigger]
                Self::stack_popped(a, b, p) && r == match p {
                    Ok(_) => Ok::<BrowserOutcome, ActionError>(BrowserOutcome::Done),
                    Err(x) => Err(ActionError::Register(x)),
                },
        }
    }

    /// A cut: where nothing is yanked and the selection is on an entry, the
    /// selected entry is yanked first (leaving `m`, else `m` is `a`); then
    /// the yank edit it asks for (`act`) runs, leaving `c` and answering `y`.
    pub open spec fn cut_through(a: Self, m: Self, act: YankAction, c: Self, y: Result<bool, ActionError>) -> bool {
        &&& if a.edit_manager.yanker is None && a.yank_togglable() {
            Self::yank_toggled(a, m)
        } else {
            m == a
        }
        &&& EditManager::yank_applied(m.edit_manager, YankType::Cut, act)
        &&& Self::ran(m, c, act, y)
    }

    /// The provider on top, its selection and how many entries it lists,
    /// in the normal state.
    pub fn top_selection(&self) -> (r: Option<(ContentProviderID, usize, usize)>)
        requires
            self.wf(),
        ensures
            match self.top_selection_of() {
                Some((p, sel, len)) => r == Some((p, sel, len as usize)) && len <= usize::MAX,
                None => r is None,
            },
    {
        match self.content_stack.get_state() {
            ContentState::Normal => {},
            _ => {
                return None;
            },
        }
        match self.content_stack.last() {
            GlobalContent::ID(ID::ContentProvider(p)) => match self.content_providers.get(p) {
                Some(cp) => {
                    let ids = cp.ids();
                    Some((p, cp.get_selected_index().selected_index(), ids.len()))
                },
                None => None,
            },
            _ => None,
        }
    }

    /// Carries out a command of the browser (see `browser_post`).
    pub fn browser_command(&mut self, cmd: BrowserCommand) -> (r: Result<BrowserOutcome, ActionError>)
        requires
            old(self).wf(),
        ensures
            final(self).wf(),
            Self::browser_post(*old(self), *final(self), cmd, r),
    {
        let ghost a = *self;
        let plain = plain_edits(&self.edit_manager.edit_stack) && plain_edits(&self.edit_manager.undo_stack);
        let top = self.top_selection();
        let normal = match self.content_stack.get_state() {
            ContentState::Normal => true,
            _ => false,
        };
        let reachable = !normal || top.is_some();
        let togglable = !normal || match top {
            Some((_, sel, len)) => sel < len,
            None => false,
        };
        match cmd {
            BrowserCommand::OpenMenuForCurrent => {
                if reachable {
                    self.open_menu_for_current();
                }
                Ok(BrowserOutcome::Done)
            },
            BrowserCommand::OpenEditForCurrent => {
                if reachable {
                    self.open_edit_for_current();
                }
                Ok(BrowserOutcome::Done)
            },
            BrowserCommand::ToggleYank => {
                if togglable {
                    self.toggle_yank_selected();
                    let ghost m = *self;
                    if self.can_move_selection() {
                        self.increment_selection();
                    }
                    proof {
                        assert(Self::yank_toggled(a, m));
                    }
                }
                Ok(BrowserOutcome::Done)
            },
            BrowserCommand::ClearYank => {
                if plain {
                    let act = self.edit_manager.clear();
                    let ghost em = self.edit_manager;
                    proof {
                        assert(*self == Self::with_edits(a, em));
                    }
                    let y = self.apply_yank_action(&act);
                    proof {
                        assert(EditManager::cleared(a.edit_manager, em, act) && Self::ran(Self::with_edits(a, em), *self, act, y));
                    }
                    match y {
                        Ok(_) => Ok(BrowserOutcome::Done),
                        Err(e) => Err(e),
                    }
                } else {
                    Ok(BrowserOutcome::Done)
                }
            },
            BrowserCommand::Cut => {
                if self.edit_manager.yanker.is_none() && togglable {
                    self.toggle_yank_selected();
                }
                let ghost m = *self;
                let act = self.edit_manager.apply_yank(YankType::Cut);
                let y = self.apply_yank_action(&act);
                let ghost c = *self;
                proof {
                    assert(Self::cut_through(a, m, act, c, y));
                }
                match y {
                    Ok(false) => {
                        self.edit_manager.yanker = None;
                        Ok(BrowserOutcome::Done)
                    },
                    Ok(true) => Ok(BrowserOutcome::Done),
                    Err(e) => Err(e),
                }
            },
            BrowserCommand::Copy => {
                let act = self.edit_manager.apply_yank(YankType::Copy);
                let y = self.apply_yank_action(&act);
                proof {
                    assert(EditManager::yank_applied(a.edit_manager, YankType::Copy, act) && Self::ran(a, *self, act, y));
                }
                match y {
                    Ok(_) => Ok(BrowserOutcome::Done),
                    Err(e) => Err(e),
                }
            },
            BrowserCommand::PasteAt | BrowserCommand::PasteAfter => {
                let at = match cmd {
                    BrowserCommand::PasteAt => true,
                    _ => false,
                };
                match top {
                    Some((p, sel, _)) => {
                        if self.edit_manager.yanker.is_none() && (at || sel < usize::MAX) {
                            let pos = if at { sel } else { sel + 1 };
                            let act = self.edit_manager.try_paste(GlobalProvider::ContentProvider(p), Some(pos));
                            let y = self.apply_yank_action(&act);
                            proof {
                                assert(EditManager::paste_asked(a.edit_manager, GlobalProvider::ContentProvider(p), Some(pos), act)
                                    && Self::ran(a, *self, act, y));
                            }
                            match y {
                                Ok(_) => Ok(BrowserOutcome::Done),
                                Err(e) => Err(e),
                            }
                        } else {
                            Ok(BrowserOutcome::Done)
                        }
                    },
                    None => Ok(BrowserOutcome::Done),
                }
            },
            BrowserCommand::Redo => {
                if plain {
                    let act = self.edit_manager.redo_last_undo();
                    let ghost em = self.edit_manager;
                    proof {
                        assert(*self == Self::with_edits(a, em));
                    }
                    let y = self.apply_yank_action(&act);
                    proof {
                        assert(crate::service::editors::redo_post(a.edit_manager, em, act) && Self::ran(
                            Self::with_edits(a, em),
                            *self,
                            act,
                            y,
                        ));
                    }
                    match y {
                        Ok(_) => Ok(BrowserOutcome::Done),
                        Err(e) => Err(e),
                    }
                } else {
                    Ok(BrowserOutcome::Done)
                }
            },
            BrowserCommand::Undo => {
                if plain {
                    let act = self.edit_manager.undo_last_edit();
                    let ghost em = self.edit_manager;
                    proof {
                        assert(*self == Self::with_edits(a, em));
                    }
                    let y = self.apply_yank_action(&act);
                    proof {
                        assert(crate::service::editors::undo_post(a.edit_manager, em, act) && Self::ran(
                            Self::with_edits(a, em),
                            *self,
                            act,
                            y,
                        ));
                    }
                    match y {
                        Ok(_) => Ok(BrowserOutcome::Done),
                        Err(e) => Err(e),
                    }
                } else {
                    Ok(BrowserOutcome::Done)
                }
            },
            BrowserCommand::Escape => {
                if self.edit_manager.yanker.is_none() {
                    Ok(BrowserOutcome::Ignored)
                } else {
                    self.edit_manager.yanker = None;
                    Ok(BrowserOutcome::Done)
                }
            },
            BrowserCommand::SelectionUp => {
                if self.can_move_selection() {
                    self.decrement_selection();
                }
                Ok(BrowserOutcome::Done)
            },
            BrowserCommand::SelectionDown => {
                if self.can_move_selection() {
                    self.increment_selection();
                }
                Ok(BrowserOutcome::Done)
            },
            BrowserCommand::EnterSelected => {
                if self.can_enter() {
                    let e = self.enter_selected();
                    proof {
                        assert(Self::entered_selected(a, *self, e));
                    }
                    match e {
                        Ok(x) => Ok(BrowserOutcome::Entered(x)),
                        Err(x) => Err(ActionError::Register(x)),
                    }
                } else {
                    Ok(BrowserOutcome::Done)
                }
            },
            BrowserCommand::Back => {
                let p = self.pop_content_stack();
                proof {
                    assert(Self::stack_popped(a, *self, p));
                }
                match p {
                    Ok(_) => Ok(BrowserOutcome::Done),
                    Err(x) => Err(ActionError::Register(x)),
                }
            },
        }
    }
}

} // verus!
