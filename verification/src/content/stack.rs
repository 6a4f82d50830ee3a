use vstd::prelude::*;

use crate::content::register::{ContentKey, ContentProviderID, GlobalContent, ID};
use crate::content::selection::SelectedIndex;

verus! {

/// The selections of nested menus (or edit screens), innermost last.
#[derive(Debug)]
pub struct StateContext(pub Vec<SelectedIndex>);

impl View for StateContext {
    type V = Seq<SelectedIndex>;

    open spec fn view(&self) -> Seq<SelectedIndex> {
        self.0@
    }
}

impl StateContext {
    /// One level, selecting the first entry.
    pub fn new() -> (r: StateContext)
        ensures
            r@ == seq![SelectedIndex { index: 0 }],
    {
        let mut v = Vec::new();
        v.push(SelectedIndex::new());
        proof {
            assert(v@ =~= seq![SelectedIndex { index: 0 }]);
        }
        StateContext(v)
    }

    pub fn pop(&mut self) -> (r: Option<SelectedIndex>)
        ensures
            old(self)@.len() > 0 ==> r == Some(old(self)@.last()) && final(self)@ == old(self)@.drop_last(),
            old(self)@.len() == 0 ==> r is None && final(self)@ == old(self)@,
    {
        self.0.pop()
    }

    pub fn push(&mut self, i: SelectedIndex)
        ensures
            final(self)@ == old(self)@.push(i),
    {
        self.0.push(i);
    }

    pub fn len(&self) -> (r: usize)
        ensures
            r == self@.len(),
    {
        self.0.len()
    }

    /// The innermost selection, to change. Panics where there is none.
    pub fn last_mut(&mut self) -> (r: &mut SelectedIndex)
        requires
            old(self)@.len() > 0,
        ensures
            *r == old(self)@.last(),
            final(self)@ == old(self)@.update(old(self)@.len() - 1, *final(r)),
    {
        let n = self.0.len();
        &mut self.0[n - 1]
    }

    /// The innermost selection. Panics where there is none.
    pub fn last(&self) -> (r: SelectedIndex)
        requires
            self@.len() > 0,
        ensures
            r == self@.last(),
    {
        self.0[self.0.len() - 1]
    }

    pub fn get(&self, index: usize) -> (r: Option<SelectedIndex>)
        ensures
            index < self@.len() ==> r == Some(self@[index as int]),
            index >= self@.len() ==> r is None,
    {
        if index < self.0.len() {
            Some(self.0[index])
        } else {
            None
        }
    }
}

impl Default for StateContext {
    fn default() -> (r: StateContext)
        ensures
            r@ == seq![SelectedIndex { index: 0 }],
    {
        StateContext::new()
    }
}

/// What the browser shows over the top of the content stack.
#[derive(Debug)]
pub enum ContentState {
    Normal,
    Menu { ctx: StateContext, id: GlobalContent },
    Edit { ctx: StateContext, id: GlobalContent },
    GlobalMenu(SelectedIndex),
}

/// The kind of a content state and what it is about.
pub enum StateView {
    Normal,
    Menu { ctx: Seq<SelectedIndex>, id: GlobalContent },
    Edit { ctx: Seq<SelectedIndex>, id: GlobalContent },
    GlobalMenu(SelectedIndex),
}

impl View for ContentState {
    type V = StateView;

    open spec fn view(&self) -> StateView {
        match self {
            ContentState::Normal => StateView::Normal,
            ContentState::Menu { ctx, id } => StateView::Menu { ctx: ctx@, id: *id },
            ContentState::Edit { ctx, id } => StateView::Edit { ctx: ctx@, id: *id },
            ContentState::GlobalMenu(i) => StateView::GlobalMenu(*i),
        }
    }
}

impl Default for ContentState {
    fn default() -> (r: ContentState)
        ensures
            r@ == StateView::Normal,
    {
        ContentState::Normal
    }
}

/// The providers browsed into, the main provider at the bottom, and the
/// state shown over the top one.
#[derive(Debug)]
pub struct ContentStack {
    state: ContentState,
    stack: Vec<GlobalContent>,
}

impl ContentStack {
    pub closed spec fn state_view(&self) -> StateView {
        self.state@
    }

    pub closed spec fn entries(&self) -> Seq<GlobalContent> {
        self.stack@
    }

    /// What `pop` does to a stack `a`, giving `b` and returning `r`.
    pub open spec fn popped(a: ContentStack, b: ContentStack, r: Option<GlobalContent>) -> bool {
        match a.state_view() {
            StateView::Normal => if a.entries().len() > 1 {
                &&& r == Some(a.entries().last())
                &&& b.entries() == a.entries().drop_last()
                &&& b.state_view() == StateView::Normal
            } else {
                &&& r is None
                &&& b.entries() == a.entries()
                &&& b.state_view() == StateView::Normal
            },
            StateView::Menu { ctx, id } => {
                &&& r is None
                &&& b.entries() == a.entries()
                &&& b.state_view() == if ctx.len() > 1 {
                    StateView::Menu { ctx: ctx.drop_last(), id }
                } else {
                    StateView::Normal
                }
            },
            StateView::Edit { ctx, id } => {
                &&& r is None
                &&& b.entries() == a.entries()
                &&& b.state_view() == if ctx.len() > 1 {
                    StateView::Edit { ctx: ctx.drop_last(), id }
                } else {
                    StateView::Normal
                }
            },
            StateView::GlobalMenu(_) => {
                &&& r is None
                &&& b.entries() == a.entries()
                &&& b.state_view() == StateView::Normal
            },
        }
    }

    /// The bottom of the stack is the main provider.
    pub open spec fn wf(&self) -> bool {
        &&& self.entries().len() >= 1
        &&& self.entries()[0] matches GlobalContent::ID(ID::ContentProvider(_))
    }

    /// A stack of the main provider alone, in the normal state.
    pub fn new(main_provider: ContentProviderID) -> (r: ContentStack)
        ensures
            r.wf(),
            r.entries() == seq![GlobalContent::ID(ID::ContentProvider(main_provider))],
            r.state_view() == StateView::Normal,
    {
        let mut stack = Vec::new();
        stack.push(GlobalContent::ID(ID::ContentProvider(main_provider)));
        proof {
            assert(stack@ =~= seq![GlobalContent::ID(ID::ContentProvider(main_provider))]);
        }
        ContentStack { state: ContentState::Normal, stack }
    }

    pub fn get_state(&self) -> (r: &ContentState)
        ensures
            r@ == self.state_view(),
    {
        &self.state
    }

    pub fn get_state_mut(&mut self) -> (r: &mut ContentState)
        ensures
            r@ == old(self).state_view(),
            final(self).state_view() == final(r)@,
            final(self).entries() == old(self).entries(),
    {
        &mut self.state
    }

    pub fn set_state(&mut self, state: ContentState)
        ensures
            final(self).state_view() == state@,
            final(self).entries() == old(self).entries(),
    {
        self.state = state;
    }

    /// Opens the menu of `id`, at its first entry.
    pub fn open_menu(&mut self, id: GlobalContent)
        ensures
            final(self).state_view() == (StateView::Menu { ctx: seq![SelectedIndex { index: 0 }], id }),
            final(self).entries() == old(self).entries(),
    {
        self.state = ContentState::Menu { ctx: StateContext::new(), id };
    }

    /// Opens the edit screen of `id`, at its first entry.
    pub fn open_edit(&mut self, id: GlobalContent)
        ensures
            final(self).state_view() == (StateView::Edit { ctx: seq![SelectedIndex { index: 0 }], id }),
            final(self).entries() == old(self).entries(),
    {
        self.state = ContentState::Edit { ctx: StateContext::new(), id };
    }

    pub fn open_global_menu(&mut self)
        ensures
            final(self).state_view() == StateView::GlobalMenu(SelectedIndex { index: 0 }),
            final(self).entries() == old(self).entries(),
    {
        self.state = ContentState::GlobalMenu(SelectedIndex::new());
    }

    pub fn set_state_normal(&mut self)
        ensures
            final(self).state_view() == StateView::Normal,
            final(self).entries() == old(self).entries(),
    {
        self.state = ContentState::Normal;
    }

    /// The main provider, at the bottom of the stack.
    pub fn main_provider(&self) -> (r: ContentProviderID)
        requires
            self.wf(),
        ensures
            self.entries()[0] == GlobalContent::ID(ID::ContentProvider(r)),
    {
        match self.stack[0] {
            GlobalContent::ID(ID::ContentProvider(id)) => id,
            _ => {
                proof {
                    assert(false);
                }
                ContentProviderID::from_parts(0, 0)
            },
        }
    }

    pub fn push(&mut self, id: GlobalContent)
        requires
            old(self).wf(),
        ensures
            final(self).wf(),
            final(self).entries() == old(self).entries().push(id),
            final(self).state_view() == old(self).state_view(),
    {
        self.stack.push(id);
    }

    /// Steps back: in the normal state, takes the top off the stack (never the
    /// main provider) and returns it; in a menu or edit screen, leaves the
    /// innermost level, or the screen where it is the only level; from the
    /// global menu, goes back to the normal state.
    pub fn pop(&mut self) -> (r: Option<GlobalContent>)
        requires
            old(self).wf(),
        ensures
            final(self).wf(),
            Self::popped(*old(self), *final(self), r),
    {
        let mut state = ContentState::Normal;
        std::mem::swap(&mut state, &mut self.state);
        match state {
            ContentState::Normal => {
                if self.stack.len() > 1 {
                    self.stack.pop()
                } else {
                    None
                }
            },
            ContentState::Menu { mut ctx, id } => {
                if ctx.len() > 1 {
                    ctx.pop();
                    self.state = ContentState::Menu { ctx, id };
                }
                None
            },
            ContentState::Edit { mut ctx, id } => {
                if ctx.len() > 1 {
                    ctx.pop();
                    self.state = ContentState::Edit { ctx, id };
                }
                None
            },
            ContentState::GlobalMenu(_) => None,
        }
    }

    /// The top of the stack.
    pub fn last(&self) -> (r: GlobalContent)
        requires
            self.wf(),
        ensures
            r == self.entries().last(),
    {
        self.stack[self.stack.len() - 1]
    }

    pub fn len(&self) -> (r: usize)
        ensures
            r == self.entries().len(),
    {
        self.stack.len()
    }

    pub fn get(&self, index: usize) -> (r: Option<GlobalContent>)
        ensures
            index < self.entries().len() ==> r == Some(self.entries()[index as int]),
            index >= self.entries().len() ==> r is None,
    {
        if index < self.stack.len() {
            Some(self.stack[index])
        } else {
            None
        }
    }
}

/// Opening something on the stack and stepping back in the normal state
/// gives back the stack as it was, and hands back what was opened.
pub proof fn lemma_pop_undoes_push(a: ContentStack, b: ContentStack, c: ContentStack, id: GlobalContent, r: Option<GlobalContent>)
    requires
        a.wf(),
        a.state_view() is Normal,
        b.entries() == a.entries().push(id),
        b.state_view() == a.state_view(),
        ContentStack::popped(b, c, r),
    ensures
        r == Some(id),
        c.entries() == a.entries(),
        c.state_view() is Normal,
{
    assert(b.entries().drop_last() =~= a.entries());
}

} // verus!
