use vstd::prelude::*;

use crate::content::register::{ContentProviderID, GlobalProvider, SongID, ID};

verus! {

/// An item taken out of (or put into) a list, with the position it had (or gets).
#[derive(Clone, Copy, Debug, PartialEq, Eq, Structural)]
pub struct Yank<T> {
    pub item: T,
    pub index: usize,
}

/// Items that can be yanked: ids compared by what they name.
pub trait YankItem: Copy {
    fn same(&self, other: &Self) -> (b: bool)
        ensures
            b == (*self == *other),
    ;
}

impl YankItem for SongID {
    fn same(&self, other: &Self) -> (b: bool) {
        *self == *other
    }
}

impl YankItem for ContentProviderID {
    fn same(&self, other: &Self) -> (b: bool) {
        *self == *other
    }
}


/// Copies a list of yanks.
pub fn copy_yanks<T: Copy>(v: &Vec<Yank<T>>) -> (r: Vec<Yank<T>>)
    ensures
        r@ == v@,
{
    let mut r: Vec<Yank<T>> = Vec::new();
    let mut k: usize = 0;
    while k < v.len()
        invariant
            k <= v@.len(),
            r@ == v@.take(k as int),
        decreases v@.len() - k,
    {
        r.push(v[k]);
        proof {
            assert(v@.take(k as int + 1) =~= v@.take(k as int).push(v@[k as int]));
        }
        k = k + 1;
    }
    proof {
        assert(v@.take(v@.len() as int) =~= v@);
    }
    r
}

/// What has been yanked: songs, or providers, never both.
#[derive(Debug)]
pub enum YankedContent {
    Songs { items: Vec<Yank<SongID>> },
    Providers { items: Vec<Yank<ContentProviderID>> },
}

/// What has been yanked, as sequences.
pub enum YankedView {
    Songs(Seq<Yank<SongID>>),
    Providers(Seq<Yank<ContentProviderID>>),
}

impl View for YankedContent {
    type V = YankedView;

    open spec fn view(&self) -> YankedView {
        match self {
            YankedContent::Songs { items } => YankedView::Songs(items@),
            YankedContent::Providers { items } => YankedView::Providers(items@),
        }
    }
}

/// The ids of yanks, in order.
pub open spec fn yank_ids_of<T>(s: Seq<Yank<T>>, f: spec_fn(T) -> ID) -> Seq<ID> {
    s.map_values(|y: Yank<T>| f(y.item))
}

/// `s` without the yanks equal to `y`.
pub open spec fn without<T>(s: Seq<Yank<T>>, y: Yank<T>) -> Seq<Yank<T>>
    decreases s.len(),
{
    if s.len() == 0 {
        s
    } else if s.last() == y {
        without(s.drop_last(), y)
    } else {
        without(s.drop_last(), y).push(s.last())
    }
}

/// The yanks of `v` that are not equal to `y`, in order.
pub fn retain_unequal<T: YankItem>(v: &Vec<Yank<T>>, y: Yank<T>) -> (r: Vec<Yank<T>>)
    ensures
        r@ == without(v@, y),
{
    let mut r: Vec<Yank<T>> = Vec::new();
    let mut k: usize = 0;
    while k < v.len()
        invariant
            k <= v@.len(),
            r@ == without(v@.take(k as int), y),
        decreases v@.len() - k,
    {
        let x = v[k];
        proof {
            let t = v@.take(k as int + 1);
            assert(t.drop_last() =~= v@.take(k as int));
            assert(t.last() == x);
        }
        if !(x.item.same(&y.item) && x.index == y.index) {
            r.push(x);
        }
        k = k + 1;
    }
    proof {
        assert(v@.take(v@.len() as int) =~= v@);
    }
    r
}

impl YankedContent {
    /// The ids of what has been yanked, in order.
    pub open spec fn ids(&self) -> Seq<ID> {
        match self {
            YankedContent::Songs { items } => yank_ids_of(items@, |s: SongID| ID::Song(s)),
            YankedContent::Providers { items } => yank_ids_of(items@, |p: ContentProviderID| ID::ContentProvider(p)),
        }
    }

    pub open spec fn spec_len(&self) -> nat {
        match self {
            YankedContent::Songs { items } => items@.len(),
            YankedContent::Providers { items } => items@.len(),
        }
    }

    pub fn len(&self) -> (r: usize)
        ensures
            r == self.spec_len(),
    {
        match self {
            YankedContent::Songs { items } => items.len(),
            YankedContent::Providers { items } => items.len(),
        }
    }

    /// A copy of the yanked content.
    pub fn copy(&self) -> (r: YankedContent)
        ensures
            r@ == self@,
    {
        match self {
            YankedContent::Songs { items } => YankedContent::Songs { items: copy_yanks(items) },
            YankedContent::Providers { items } => YankedContent::Providers { items: copy_yanks(items) },
        }
    }

    /// Takes out every yank of `id` at `index` (only of the kind held) and
    /// says whether any was there.
    pub fn remove(&mut self, id: ID, index: usize) -> (r: bool)
        ensures
            match (*old(self), id) {
                (YankedContent::Songs { items }, ID::Song(s)) => {
                    &&& *final(self) is Songs
                    &&& (*final(self))->Songs_items@ == without(items@, Yank { item: s, index })
                },
                (YankedContent::Providers { items }, ID::ContentProvider(p)) => {
                    &&& *final(self) is Providers
                    &&& (*final(self))->Providers_items@ == without(items@, Yank { item: p, index })
                },
                _ => *final(self) == *old(self),
            },
            r == (final(self).spec_len() < old(self).spec_len()),
    {
        let len = self.len();
        match id {
            ID::Song(s) => {
                let y = Yank { item: s, index };
                let kept = match self {
                    YankedContent::Songs { items } => Some(retain_unequal(items, y)),
                    YankedContent::Providers { .. } => None,
                };
                if let Some(k) = kept {
                    *self = YankedContent::Songs { items: k };
                }
            },
            ID::ContentProvider(p) => {
                let y = Yank { item: p, index };
                let kept = match self {
                    YankedContent::Songs { .. } => None,
                    YankedContent::Providers { items } => Some(retain_unequal(items, y)),
                };
                if let Some(k) = kept {
                    *self = YankedContent::Providers { items: k };
                }
            },
        }
        len > self.len()
    }

    /// The ids of what has been yanked, in order.
    pub fn iter(&self) -> (r: Vec<ID>)
        ensures
            r@ == self.ids(),
    {
        match self {
            YankedContent::Songs { items } => {
                let mut r: Vec<ID> = Vec::new();
                let mut k: usize = 0;
                while k < items.len()
                    invariant
                        k <= items@.len(),
                        r@ == yank_ids_of(items@.take(k as int), |s: SongID| ID::Song(s)),
                    decreases items@.len() - k,
                {
                    r.push(ID::Song(items[k].item));
                    proof {
                        assert(yank_ids_of(items@.take(k as int + 1), |s: SongID| ID::Song(s)) =~= yank_ids_of(
                            items@.take(k as int),
                            |s: SongID| ID::Song(s),
                        ).push(ID::Song(items@[k as int].item)));
                    }
                    k = k + 1;
                }
                proof {
                    assert(items@.take(items@.len() as int) =~= items@);
                }
                r
            },
            YankedContent::Providers { items } => {
                let mut r: Vec<ID> = Vec::new();
                let mut k: usize = 0;
                while k < items.len()
                    invariant
                        k <= items@.len(),
                        r@ == yank_ids_of(items@.take(k as int), |p: ContentProviderID| ID::ContentProvider(p)),
                    decreases items@.len() - k,
                {
                    r.push(ID::ContentProvider(items[k].item));
                    proof {
                        assert(yank_ids_of(items@.take(k as int + 1), |p: ContentProviderID| ID::ContentProvider(p))
                            =~= yank_ids_of(items@.take(k as int), |p: ContentProviderID| ID::ContentProvider(p)).push(
                            ID::ContentProvider(items@[k as int].item),
                        ));
                    }
                    k = k + 1;
                }
                proof {
                    assert(items@.take(items@.len() as int) =~= items@);
                }
                r
            },
        }
    }
}


/// Whether yanked items are copied or moved.
#[derive(Clone, Copy, Debug, PartialEq, Eq, Structural)]
pub enum YankType {
    Copy,
    Cut,
}

/// The items marked for a copy or a cut, all from one provider.
#[derive(Debug)]
pub struct Yanker {
    pub items: YankedContent,
    pub yanked_from: ContentProviderID,
}

/// A single yank of `id` at `index`.
pub open spec fn single_yank(id: ID, index: usize) -> YankedView {
    match id {
        ID::Song(s) => YankedView::Songs(seq![Yank { item: s, index }]),
        ID::ContentProvider(p) => YankedView::Providers(seq![Yank { item: p, index }]),
    }
}

/// What is yanked once `id` at `index` is added: appended where it is of
/// the kind held, else in place of everything.
pub open spec fn with_yank(v: YankedView, id: ID, index: usize) -> YankedView {
    match (v, id) {
        (YankedView::Songs(s), ID::Song(x)) => YankedView::Songs(s.push(Yank { item: x, index })),
        (YankedView::Providers(s), ID::ContentProvider(x)) => YankedView::Providers(s.push(Yank { item: x, index })),
        _ => single_yank(id, index),
    }
}

/// What is yanked once every yank of `id` at `index` is taken out.
pub open spec fn without_yank(v: YankedView, id: ID, index: usize) -> YankedView {
    match (v, id) {
        (YankedView::Songs(s), ID::Song(x)) => YankedView::Songs(without(s, Yank { item: x, index })),
        (YankedView::Providers(s), ID::ContentProvider(x)) => YankedView::Providers(
            without(s, Yank { item: x, index }),
        ),
        _ => v,
    }
}

pub open spec fn view_len(v: YankedView) -> nat {
    match v {
        YankedView::Songs(s) => s.len(),
        YankedView::Providers(s) => s.len(),
    }
}

/// What toggling the yank of `id` at `index` in `provider_id` makes of `a`:
/// an entry marked from the same provider is unmarked, anything else marked.
pub open spec fn toggled(a: Yanker, b: Yanker, id: ID, provider_id: ContentProviderID, index: usize) -> bool {
    let taken = without_yank(a.items@, id, index);
    if provider_id == a.source() && view_len(taken) < view_len(a.items@) {
        &&& b.items@ == taken
        &&& b.source() == a.source()
    } else if provider_id == a.source() {
        &&& b.items@ == with_yank(taken, id, index)
        &&& b.source() == provider_id
    } else {
        &&& b.items@ == with_yank(a.items@, id, index)
        &&& b.source() == provider_id
    }
}

impl Yanker {
    pub open spec fn source(&self) -> ContentProviderID {
        self.yanked_from
    }

    /// The provider the items were yanked from.
    pub fn yanked_from(&self) -> (r: ContentProviderID)
        ensures
            r == self.source(),
    {
        self.yanked_from
    }

    /// A yanker holding `id` at `index`, yanked from `from`.
    pub fn new(from: ContentProviderID, id: ID, index: usize) -> (r: Yanker)
        ensures
            r.items@ == single_yank(id, index),
            r.source() == from,
    {
        let items = match id {
            ID::Song(s) => {
                let mut v = Vec::new();
                v.push(Yank { item: s, index });
                YankedContent::Songs { items: v }
            },
            ID::ContentProvider(p) => {
                let mut v = Vec::new();
                v.push(Yank { item: p, index });
                YankedContent::Providers { items: v }
            },
        };
        proof {
            assert(items@ == single_yank(id, index));
        }
        Yanker { items, yanked_from: from }
    }

    /// A yanker made of what an edit recorded.
    pub fn from_parts(items: YankedContent, yanked_from: ContentProviderID) -> (r: Yanker)
        ensures
            r.items == items,
            r.source() == yanked_from,
    {
        Yanker { items, yanked_from }
    }

    fn yank(&mut self, id: ID, provider_id: ContentProviderID, index: usize)
        ensures
            final(self).items@ == with_yank(old(self).items@, id, index),
            final(self).source() == provider_id,
    {
        self.yanked_from = provider_id;
        match id {
            ID::Song(x) => {
                let y = Yank { item: x, index };
                match &mut self.items {
                    YankedContent::Songs { items } => {
                        items.push(y);
                    },
                    YankedContent::Providers { .. } => {
                        let mut v = Vec::new();
                        v.push(y);
                        self.items = YankedContent::Songs { items: v };
                    },
                }
            },
            ID::ContentProvider(x) => {
                let y = Yank { item: x, index };
                match &mut self.items {
                    YankedContent::Songs { .. } => {
                        let mut v = Vec::new();
                        v.push(y);
                        self.items = YankedContent::Providers { items: v };
                    },
                    YankedContent::Providers { items } => {
                        items.push(y);
                    },
                }
            },
        }
        proof {
            assert(self.items@ =~~= with_yank(old(self).items@, id, index));
        }
    }

    /// Unmarks `id` at `index` where it was marked from the same provider;
    /// else marks it (yanking from `provider_id` from now on).
    pub fn toggle_yank(&mut self, id: ID, provider_id: ContentProviderID, index: usize)
        ensures
            toggled(*old(self), *final(self), id, provider_id, index),
    {
        if provider_id == self.yanked_from {
            if self.items.remove(id, index) {
                return;
            }
        }
        self.yank(id, provider_id, index);
    }
}


/// An edit that can be undone and redone.
#[derive(Debug)]
pub enum Edit {
    /// Items pasted into a provider at a position (or at the end).
    Pasted { yank: YankedContent, yanked_to: ContentProviderID, paste_pos: Option<usize> },
    /// Items copied or cut out of a provider.
    Yanked { yank: YankedContent, yank_type: YankType, yanked_from: ContentProviderID },
    /// A text field of some content changed.
    TextEdit { content: ID, from: String, to: String },
}

/// What an edit asks the content manager to do.
#[derive(Debug)]
pub enum YankAction {
    RemoveFromProvider { yank: YankedContent, yanked_from: ContentProviderID },
    TryPasteIntoProvider { yank: YankedContent, yanked_to: ContentProviderID, paste_pos: Option<usize> },
    PasteIntoProvider { yank: YankedContent, yanked_to: ContentProviderID, paste_pos: Option<usize> },
    InsertIntoProvider { yank: YankedContent, yanked_to: ContentProviderID },
    PushEdit { edit: Edit },
    ClearUndoStack,
    /// Counts one more holder of each id.
    Register { ids: Vec<ID> },
    /// Counts one holder fewer of each id.
    Unregister { ids: Vec<ID> },
    RefreshDisplayContent,
    /// Succeeds when the provider is still there.
    ProviderExists { id: ContentProviderID },
    DropYanker,
    /// Fails.
    False,
    /// Runs `then_this` where `if_this` succeeds, else `else_this`.
    Conditional { if_this: Vec<YankAction>, then_this: Vec<YankAction>, else_this: Vec<YankAction> },
    /// Runs each in turn; succeeds when all do.
    Actions { v: Vec<YankAction> },
    /// Does nothing and succeeds.
    Noop,
}

/// `a` asks to register (or unregister) exactly `ids`.
pub open spec fn is_ids_action(a: YankAction, register: bool, ids: Seq<ID>) -> bool {
    if register {
        a matches YankAction::Register { ids: v } && v@ == ids
    } else {
        a matches YankAction::Unregister { ids: v } && v@ == ids
    }
}

/// The yanked content an edit records.
pub open spec fn edit_yank(e: Edit) -> YankedView {
    match e {
        Edit::Pasted { yank, .. } => yank@,
        Edit::Yanked { yank, .. } => yank@,
        Edit::TextEdit { .. } => YankedView::Songs(Seq::empty()),
    }
}

/// The ids an edit records.
pub open spec fn edit_ids(e: Edit) -> Seq<ID> {
    match e {
        Edit::Pasted { yank, .. } => yank.ids(),
        Edit::Yanked { yank, .. } => yank.ids(),
        Edit::TextEdit { .. } => Seq::empty(),
    }
}

/// The ids the edits of `s` record, in order.
pub open spec fn all_edit_ids(s: Seq<Edit>) -> Seq<ID>
    decreases s.len(),
{
    if s.len() == 0 {
        Seq::empty()
    } else {
        all_edit_ids(s.drop_last()) + edit_ids(s.last())
    }
}

/// What undoing `e` asks for.
pub open spec fn undo_action(e: Edit, r: YankAction) -> bool {
    match e {
        Edit::Yanked { yank, yank_type: YankType::Copy, .. } => r is Noop,
        Edit::Yanked { yank, yank_type: YankType::Cut, yanked_from } => r matches YankAction::Actions { v } && {
            &&& v@.len() == 3
            &&& is_ids_action(v@[0], true, yank.ids())
            &&& v@[1] matches YankAction::InsertIntoProvider { yank: y, yanked_to } && y@ == yank@ && yanked_to
                == yanked_from
            &&& v@[2] is RefreshDisplayContent
        },
        Edit::Pasted { yank, yanked_to, .. } => r matches YankAction::Actions { v } && {
            &&& v@.len() == 3
            &&& v@[0] matches YankAction::RemoveFromProvider { yank: y, yanked_from } && y@ == yank@ && yanked_from
                == yanked_to
            &&& is_ids_action(v@[1], false, yank.ids())
            &&& v@[2] is RefreshDisplayContent
        },
        Edit::TextEdit { .. } => false,
    }
}

/// What redoing `e` asks for.
pub open spec fn redo_action(e: Edit, r: YankAction) -> bool {
    match e {
        Edit::Yanked { yank, yank_type: YankType::Copy, .. } => r is Noop,
        Edit::Yanked { yank, yank_type: YankType::Cut, yanked_from } => r matches YankAction::Actions { v } && {
            &&& v@.len() == 3
            &&& v@[0] matches YankAction::RemoveFromProvider { yank: y, yanked_from: f } && y@ == yank@ && f
                == yanked_from
            &&& is_ids_action(v@[1], false, yank.ids())
            &&& v@[2] is RefreshDisplayContent
        },
        Edit::Pasted { yank, yanked_to, paste_pos } => r matches YankAction::Actions { v } && {
            &&& v@.len() == 3
            &&& v@[0] matches YankAction::PasteIntoProvider { yank: y, yanked_to: t, paste_pos: p } && y@ == yank@
                && t == yanked_to && p == paste_pos
            &&& is_ids_action(v@[1], true, yank.ids())
            &&& v@[2] is RefreshDisplayContent
        },
        Edit::TextEdit { .. } => false,
    }
}

/// What applying a yank edit for the first time asks for.
pub open spec fn apply_action(e: Edit, r: YankAction) -> bool {
    match e {
        Edit::Yanked { yank, yank_type, yanked_from } => r matches YankAction::Conditional {
            if_this,
            then_this,
            else_this,
        } && {
            &&& if_this@.len() == 1
            &&& if_this@[0] == YankAction::ProviderExists { id: yanked_from }
            &&& then_this@.len() == 2
            &&& match yank_type {
                YankType::Copy => is_ids_action(then_this@[0], true, yank.ids()),
                YankType::Cut => then_this@[0] matches YankAction::RemoveFromProvider { yank: y, yanked_from: f }
                    && y@ == yank@ && f == yanked_from,
            }
            &&& then_this@[1] is RefreshDisplayContent
            &&& else_this@.len() == 1
            &&& else_this@[0] is DropYanker
        },
        _ => false,
    }
}

fn one_action(a: YankAction) -> (r: Vec<YankAction>)
    ensures
        r@ == seq![a],
{
    let mut v = Vec::new();
    v.push(a);
    proof {
        assert(v@ =~= seq![a]);
    }
    v
}

fn two_actions(a: YankAction, b: YankAction) -> (r: Vec<YankAction>)
    ensures
        r@ == seq![a, b],
{
    let mut v = Vec::new();
    v.push(a);
    v.push(b);
    proof {
        assert(v@ =~= seq![a, b]);
    }
    v
}

fn three_actions(a: YankAction, b: YankAction, c: YankAction) -> (r: Vec<YankAction>)
    ensures
        r@ == seq![a, b, c],
{
    let mut v = Vec::new();
    v.push(a);
    v.push(b);
    v.push(c);
    proof {
        assert(v@ =~= seq![a, b, c]);
    }
    v
}

impl Edit {
    /// The actions that undo the edit. Text edits cannot be undone yet.
    pub fn apply_undo(&self) -> (r: YankAction)
        requires
            !(*self is TextEdit),
        ensures
            undo_action(*self, r),
    {
        match self {
            Edit::Yanked { yank, yank_type, yanked_from } => match yank_type {
                YankType::Copy => YankAction::Noop,
                YankType::Cut => YankAction::Actions {
                    v: three_actions(
                        YankAction::Register { ids: yank.iter() },
                        YankAction::InsertIntoProvider { yank: yank.copy(), yanked_to: *yanked_from },
                        YankAction::RefreshDisplayContent,
                    ),
                },
            },
            Edit::Pasted { yank, yanked_to, .. } => YankAction::Actions {
                v: three_actions(
                    YankAction::RemoveFromProvider { yank: yank.copy(), yanked_from: *yanked_to },
                    YankAction::Unregister { ids: yank.iter() },
                    YankAction::RefreshDisplayContent,
                ),
            },
            Edit::TextEdit { .. } => YankAction::Noop,
        }
    }

    /// The actions that redo the edit. Text edits cannot be redone yet.
    pub fn apply_redo(&self) -> (r: YankAction)
        requires
            !(*self is TextEdit),
        ensures
            redo_action(*self, r),
    {
        match self {
            Edit::Yanked { yank, yank_type, yanked_from } => match yank_type {
                YankType::Copy => YankAction::Noop,
                YankType::Cut => YankAction::Actions {
                    v: three_actions(
                        YankAction::RemoveFromProvider { yank: yank.copy(), yanked_from: *yanked_from },
                        YankAction::Unregister { ids: yank.iter() },
                        YankAction::RefreshDisplayContent,
                    ),
                },
            },
            Edit::Pasted { yank, yanked_to, paste_pos } => YankAction::Actions {
                v: three_actions(
                    YankAction::PasteIntoProvider { yank: yank.copy(), yanked_to: *yanked_to, paste_pos: *paste_pos },
                    YankAction::Register { ids: yank.iter() },
                    YankAction::RefreshDisplayContent,
                ),
            },
            Edit::TextEdit { .. } => YankAction::Noop,
        }
    }

    /// The action that lets go of the ids the edit holds.
    pub fn unregister(&self) -> (r: YankAction)
        requires
            !(*self is TextEdit),
        ensures
            is_ids_action(r, false, edit_ids(*self)),
    {
        match self {
            Edit::Pasted { yank, .. } => YankAction::Unregister { ids: yank.iter() },
            Edit::Yanked { yank, .. } => YankAction::Unregister { ids: yank.iter() },
            Edit::TextEdit { .. } => YankAction::Unregister { ids: Vec::new() },
        }
    }

    /// The actions that carry out a yank edit the first time: where the
    /// provider is still there, a copy registers the ids and a cut takes the
    /// items out; where it is gone, the yanker is dropped.
    pub fn apply(&self) -> (r: YankAction)
        requires
            *self is Yanked,
        ensures
            apply_action(*self, r),
    {
        match self {
            Edit::Yanked { yank, yank_type, yanked_from } => {
                let first = match yank_type {
                    YankType::Copy => YankAction::Register { ids: yank.iter() },
                    YankType::Cut => YankAction::RemoveFromProvider { yank: yank.copy(), yanked_from: *yanked_from },
                };
                YankAction::Conditional {
                    if_this: one_action(YankAction::ProviderExists { id: *yanked_from }),
                    then_this: two_actions(first, YankAction::RefreshDisplayContent),
                    else_this: one_action(YankAction::DropYanker),
                }
            },
            _ => YankAction::Noop,
        }
    }
}


/// `r` records what `e` records.
pub open spec fn edit_copied(r: Edit, e: Edit) -> bool {
    match (r, e) {
        (Edit::Pasted { yank: y1, yanked_to: t1, paste_pos: p1 }, Edit::Pasted { yank: y2, yanked_to: t2, paste_pos: p2 }) => {
            &&& y1@ == y2@
            &&& t1 == t2
            &&& p1 == p2
        },
        (Edit::Yanked { yank: y1, yank_type: k1, yanked_from: f1 }, Edit::Yanked { yank: y2, yank_type: k2, yanked_from: f2 }) => {
            &&& y1@ == y2@
            &&& k1 == k2
            &&& f1 == f2
        },
        (Edit::TextEdit { content: c1, from: a1, to: b1 }, Edit::TextEdit { content: c2, from: a2, to: b2 }) => {
            &&& c1 == c2
            &&& a1@ == a2@
            &&& b1@ == b2@
        },
        _ => false,
    }
}

/// A copy of an edit.
pub fn copy_edit(e: &Edit) -> (r: Edit)
    ensures
        edit_copied(r, *e),
        edit_yank(r) == edit_yank(*e),
        r is Pasted <==> e is Pasted,
        r is Yanked <==> e is Yanked,
{
    match e {
        Edit::Pasted { yank, yanked_to, paste_pos } => Edit::Pasted { yank: yank.copy(), yanked_to: *yanked_to, paste_pos: *paste_pos },
        Edit::Yanked { yank, yank_type, yanked_from } => Edit::Yanked { yank: yank.copy(), yank_type: *yank_type, yanked_from: *yanked_from },
        Edit::TextEdit { content, from, to } => Edit::TextEdit { content: *content, from: from.clone(), to: to.clone() },
    }
}

/// The ids an edit holds; none for a text edit, which holds none yet.
pub fn edit_ids_of(e: &Edit) -> (r: Option<Vec<ID>>)
    ensures
        match *e {
            Edit::TextEdit { .. } => r is None,
            _ => r matches Some(v) && v@ == edit_ids(*e),
        },
{
    match e {
        Edit::Pasted { yank, .. } => Some(yank.iter()),
        Edit::Yanked { yank, .. } => Some(yank.iter()),
        Edit::TextEdit { .. } => None,
    }
}

/// No edit in the sequence is a text edit.
pub open spec fn no_text_edits(s: Seq<Edit>) -> bool {
    forall|i: int| 0 <= i < s.len() ==> !(#[trigger] s[i] is TextEdit)
}

/// The yanker, the edits done (last on top) and the edits undone (last undone on top).
#[derive(Debug)]
pub struct EditManager {
    pub yanker: Option<Yanker>,
    pub edit_stack: Vec<Edit>,
    pub undo_stack: Vec<Edit>,
}

/// What `undo_last_edit` does to an edit manager, answering `r`.
pub open spec fn undo_post(a: EditManager, b: EditManager, r: YankAction) -> bool {
    if a.edit_stack@.len() == 0 {
        &&& r is Noop
        &&& b == a
    } else {
        let e = a.edit_stack@.last();
        &&& b.edit_stack@ == a.edit_stack@.drop_last()
        &&& b.undo_stack@ == a.undo_stack@.push(e)
        &&& match e {
            Edit::Yanked { yank, yanked_from, .. } => b.yanker matches Some(y) && y.items@ == yank@ && y.yanked_from
                == yanked_from,
            _ => b.yanker == a.yanker,
        }
        &&& undo_action(e, r)
    }
}

/// What `redo_last_undo` does to an edit manager, answering `r`.
pub open spec fn redo_post(a: EditManager, b: EditManager, r: YankAction) -> bool {
    if a.undo_stack@.len() == 0 {
        &&& r is Noop
        &&& b == a
    } else {
        let e = a.undo_stack@.last();
        &&& b.undo_stack@ == a.undo_stack@.drop_last()
        &&& b.edit_stack@ == a.edit_stack@.push(e)
        &&& match e {
            Edit::Yanked { .. } => b.yanker is None,
            _ => b.yanker == a.yanker,
        }
        &&& redo_action(e, r)
    }
}

impl EditManager {
    /// No yanker, no edits.
    pub fn new() -> (r: EditManager)
        ensures
            r.yanker is None,
            r.edit_stack@.len() == 0,
            r.undo_stack@.len() == 0,
    {
        EditManager { yanker: None, edit_stack: Vec::new(), undo_stack: Vec::new() }
    }

    /// What forgetting the yanker and every edit does, answering the action
    /// that lets go of their ids (see `clear`).
    pub open spec fn cleared(a: Self, b: Self, r: YankAction) -> bool {
        &&& b.yanker is None
        &&& b.edit_stack@.len() == 0
        &&& b.undo_stack@.len() == 0
        &&& r matches YankAction::Actions { v } && {
            let all = a.edit_stack@ + a.undo_stack@;
            &&& v@.len() == all.len()
            &&& forall|i: int| 0 <= i < all.len() ==> is_ids_action(#[trigger] v@[i], false, edit_ids(all[i]))
        }
    }

    /// Forgets the yanker and every edit, asking to let go of the ids they
    /// held (the done edits first, then the undone ones).
    pub fn clear(&mut self) -> (r: YankAction)
        requires
            no_text_edits(old(self).edit_stack@),
            no_text_edits(old(self).undo_stack@),
        ensures
            Self::cleared(*old(self), *final(self), r),
    {
        let ghost all = self.edit_stack@ + self.undo_stack@;
        let mut v: Vec<YankAction> = Vec::new();
        let mut i: usize = 0;
        while i < self.edit_stack.len()
            invariant
                all == self.edit_stack@ + self.undo_stack@,
                no_text_edits(self.edit_stack@),
                i <= self.edit_stack@.len(),
                v@.len() == i,
                forall|k: int| 0 <= k < i ==> is_ids_action(#[trigger] v@[k], false, edit_ids(all[k])),
            decreases self.edit_stack@.len() - i,
        {
            v.push(self.edit_stack[i].unregister());
            i = i + 1;
        }
        let mut j: usize = 0;
        while j < self.undo_stack.len()
            invariant
                all == self.edit_stack@ + self.undo_stack@,
                no_text_edits(self.undo_stack@),
                j <= self.undo_stack@.len(),
                v@.len() == self.edit_stack@.len() + j,
                forall|k: int| 0 <= k < self.edit_stack@.len() + j ==> is_ids_action(#[trigger] v@[k], false, edit_ids(all[k])),
            decreases self.undo_stack@.len() - j,
        {
            proof {
                assert(all[self.edit_stack@.len() + j] == self.undo_stack@[j as int]);
            }
            v.push(self.undo_stack[j].unregister());
            j = j + 1;
        }
        *self = EditManager::new();
        YankAction::Actions { v }
    }

    /// The action that turning the yanker into a yank edit asks for (see
    /// `apply_yank`).
    pub open spec fn yank_applied(a: Self, yank_type: YankType, r: YankAction) -> bool {
        &&& match a.yanker {
            None => r is Noop,
            Some(y) => r matches YankAction::Conditional { if_this, then_this, else_this } && {
                &&& if_this@.len() == 1
                &&& then_this@.len() == 3
                &&& else_this@ == seq![YankAction::False]
                &&& then_this@[0] is ClearUndoStack
                &&& then_this@[1] matches YankAction::PushEdit { edit } && {
                    &&& edit matches Edit::Yanked { yank, yank_type: t, yanked_from }
                    &&& edit->Yanked_yank@ == y.items@
                    &&& edit->Yanked_yank_type == yank_type
                    &&& edit->Yanked_yanked_from == y.yanked_from
                    &&& apply_action(edit, if_this@[0])
                }
                &&& then_this@[2] is DropYanker
            },
        }
    }

    /// Turns the yanker into a yank edit (copy or cut): where applying it
    /// succeeds, the undone edits are cleared, the edit is pushed and the
    /// yanker dropped; else the whole fails. Nothing where there is no yanker.
    pub fn apply_yank(&self, yank_type: YankType) -> (r: YankAction)
        ensures
            Self::yank_applied(*self, yank_type, r),
    {
        match &self.yanker {
            None => YankAction::Noop,
            Some(y) => {
                let edit = Edit::Yanked { yank: y.items.copy(), yank_type, yanked_from: y.yanked_from };
                let action = edit.apply();
                YankAction::Conditional {
                    if_this: one_action(action),
                    then_this: three_actions(
                        YankAction::ClearUndoStack,
                        YankAction::PushEdit { edit },
                        YankAction::DropYanker,
                    ),
                    else_this: one_action(YankAction::False),
                }
            },
        }
    }

    /// Undoes the last edit: it moves to the undone edits, and undoing a yank
    /// gives the yanker back. Text edits cannot be undone yet.
    pub fn undo_last_edit(&mut self) -> (r: YankAction)
        requires
            old(self).edit_stack@.len() > 0 ==> !(old(self).edit_stack@.last() is TextEdit),
        ensures
            undo_post(*old(self), *final(self), r),
    {
        if self.edit_stack.len() == 0 {
            return YankAction::Noop;
        }
        match self.edit_stack.pop() {
            Some(undo) => {
                match &undo {
                    Edit::Yanked { yank, yanked_from, .. } => {
                        self.yanker = Some(Yanker::from_parts(yank.copy(), *yanked_from));
                    },
                    _ => {},
                }
                let action = undo.apply_undo();
                self.undo_stack.push(undo);
                action
            },
            None => YankAction::Noop,
        }
    }

    /// Redoes the last undone edit: it moves back to the edits done, and
    /// redoing a yank drops the yanker. Text edits cannot be redone yet.
    pub fn redo_last_undo(&mut self) -> (r: YankAction)
        requires
            old(self).undo_stack@.len() > 0 ==> !(old(self).undo_stack@.last() is TextEdit),
        ensures
            redo_post(*old(self), *final(self), r),
    {
        if self.undo_stack.len() == 0 {
            return YankAction::Noop;
        }
        match self.undo_stack.pop() {
            Some(redo) => {
                match &redo {
                    Edit::Yanked { .. } => {
                        self.yanker = None;
                    },
                    _ => {},
                }
                let action = redo.apply_redo();
                self.edit_stack.push(redo);
                action
            },
            None => YankAction::Noop,
        }
    }

    /// The action that trying to paste the last yank edit asks for (see
    /// `try_paste`).
    pub open spec fn paste_asked(a: Self, id: GlobalProvider, pos: Option<usize>, r: YankAction) -> bool {
        &&& match (id, a.edit_stack@.last()) {
            (GlobalProvider::ContentProvider(cp), Edit::Yanked { yank, .. }) if a.edit_stack@.len() > 0 => {
                r matches YankAction::Conditional { if_this, then_this, else_this } && {
                    &&& if_this@.len() == 1
                    &&& if_this@[0] matches YankAction::TryPasteIntoProvider { yank: y, yanked_to, paste_pos }
                        && y@ == yank@ && yanked_to == cp && paste_pos == pos
                    &&& then_this@.len() == 1
                    &&& then_this@[0] matches YankAction::PushEdit { edit: Edit::Pasted { yank: y, yanked_to, paste_pos } }
                        && y@ == yank@ && yanked_to == cp && paste_pos == pos
                    &&& else_this@.len() == 0
                }
            },
            _ => r is Noop,
        }
    }

    /// Where the last edit is a yank and `id` a provider: tries to paste what
    /// was yanked at `pos`, pushing a paste edit when that succeeds.
    /// Nothing otherwise.
    pub fn try_paste(&self, id: GlobalProvider, pos: Option<usize>) -> (r: YankAction)
        ensures
            Self::paste_asked(*self, id, pos, r),
    {
        let n = self.edit_stack.len();
        if n == 0 {
            return YankAction::Noop;
        }
        match (id, &self.edit_stack[n - 1]) {
            (GlobalProvider::ContentProvider(cp), Edit::Yanked { yank, .. }) => {
                YankAction::Conditional {
                    if_this: one_action(YankAction::TryPasteIntoProvider { yank: yank.copy(), yanked_to: cp, paste_pos: pos }),
                    then_this: one_action(YankAction::PushEdit { edit: Edit::Pasted { yank: yank.copy(), yanked_to: cp, paste_pos: pos } }),
                    else_this: Vec::new(),
                }
            },
            _ => YankAction::Noop,
        }
    }
}

/// Undoing an edit and redoing it gives back both stacks as they were.
pub proof fn lemma_redo_undoes_undo(a: EditManager, b: EditManager, c: EditManager, r1: YankAction, r2: YankAction)
    requires
        a.edit_stack@.len() > 0,
        undo_post(a, b, r1),
        redo_post(b, c, r2),
    ensures
        c.edit_stack@ == a.edit_stack@,
        c.undo_stack@ == a.undo_stack@,
{
    assert(a.edit_stack@.drop_last().push(a.edit_stack@.last()) =~= a.edit_stack@);
    assert(a.undo_stack@.push(a.edit_stack@.last()).drop_last() =~= a.undo_stack@);
}

/// Redoing an undone edit and undoing it again gives back both stacks as
/// they were.
pub proof fn lemma_undo_undoes_redo(a: EditManager, b: EditManager, c: EditManager, r1: YankAction, r2: YankAction)
    requires
        a.undo_stack@.len() > 0,
        redo_post(a, b, r1),
        undo_post(b, c, r2),
    ensures
        c.edit_stack@ == a.edit_stack@,
        c.undo_stack@ == a.undo_stack@,
{
    assert(a.undo_stack@.drop_last().push(a.undo_stack@.last()) =~= a.undo_stack@);
    assert(a.edit_stack@.push(a.undo_stack@.last()).drop_last() =~= a.edit_stack@);
}

} // verus!
