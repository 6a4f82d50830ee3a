use vstd::prelude::*;

use crate::content::manager::give_back::gives_back;
use crate::content::manager::queueing::{all_present, doubled_songs, paste_queue_ids, values_changed};
use crate::content::manager::manager::{shrunk, ActionError, ContentManager, reindexed};
use crate::content::providers::traits::{pasted, yanked_items};
use crate::content::providers::queue::Queue;
use crate::content::providers::queue_provider::QueueProvider;
use crate::content::providers::ContentProvider;
use crate::content::register::{ContentKey, ContentProviderID, ContentRegister, SongID, ID};
use crate::service::editors::{all_edit_ids, no_text_edits, edit_copied, Edit, Yank, YankAction, YankedView};

verus! {

/// What an answer of a nested list becomes once the actions before it
/// answered `all`: an error stays, a success holds where all did.
pub open spec fn and_then(all: bool, r: Result<bool, ActionError>) -> Result<bool, ActionError> {
    match r {
        Ok(y) => Ok(all && y),
        Err(e) => Err(e),
    }
}

/// How many of `ids` name song slot `i`.
pub open spec fn song_hits(ids: Seq<ID>, i: int) -> nat
    decreases ids.len(),
{
    if ids.len() == 0 {
        0
    } else {
        song_hits(ids.drop_last(), i) + if ids.last() matches ID::Song(s) && s.key_index() == i { 1nat } else { 0nat }
    }
}

/// How many of `ids` name provider slot `i`.
pub open spec fn provider_hits(ids: Seq<ID>, i: int) -> nat
    decreases ids.len(),
{
    if ids.len() == 0 {
        0
    } else {
        provider_hits(ids.drop_last(), i) + if ids.last() matches ID::ContentProvider(p) && p.key_index() == i {
            1nat
        } else {
            0nat
        }
    }
}

/// A prefix of `ids` names a slot no more often than all of them.
pub proof fn lemma_hits_prefix(ids: Seq<ID>, k: int, i: int)
    requires
        0 <= k <= ids.len(),
    ensures
        song_hits(ids.take(k), i) <= song_hits(ids, i),
        provider_hits(ids.take(k), i) <= provider_hits(ids, i),
    decreases ids.len() - k,
{
    if k < ids.len() {
        lemma_hits_prefix(ids, k + 1, i);
        assert(ids.take(k + 1).drop_last() =~= ids.take(k));
    } else {
        assert(ids.take(k) =~= ids);
    }
}

/// `b` is `a` with `extra(j)` more ids counted to each live slot `j`, and
/// nothing else changed.
pub open spec fn recounted<T, P: ContentKey>(a: ContentRegister<T, P>, b: ContentRegister<T, P>, extra: spec_fn(int) -> nat) -> bool {
    &&& b.num_slots() == a.num_slots()
    &&& forall|j: int| #[trigger] b.is_live(j) == a.is_live(j)
    &&& forall|j: int| a.is_live(j) ==> #[trigger] b.slot_generation(j) == a.slot_generation(j)
    &&& forall|j: int| a.is_live(j) ==> #[trigger] b.slot_val(j) == a.slot_val(j)
    &&& forall|j: int| a.is_live(j) ==> #[trigger] b.slot_count(j) == a.slot_count(j) + extra(j)
    &&& b.free_slots() == a.free_slots()
    &&& b.current_generation() == a.current_generation()
    &&& b.last_op() == a.last_op()
    &&& forall|x: usize, g: u64| #[trigger] b.is_dead(x, g) == a.is_dead(x, g)
}

/// Counting one more id in slot `x` of a recounted register recounts it by
/// one more there.
pub proof fn lemma_recounted_step<T, P: ContentKey>(
    start: ContentRegister<T, P>,
    before: ContentRegister<T, P>,
    after: ContentRegister<T, P>,
    x: int,
    f: spec_fn(int) -> nat,
    g: spec_fn(int) -> nat,
)
    requires
        recounted(start, before, f),
        before.is_live(x),
        ContentRegister::register_post(before, after, x),
        forall|j: int| #[trigger] g(j) == f(j) + if j == x { 1nat } else { 0nat },
    ensures
        recounted(start, after, g),
{
    assert forall|j: int| #[trigger] after.is_live(j) == start.is_live(j) by {
        if j != x {
            assert(after.is_live(j) == before.is_live(j));
        }
    }
    assert forall|j: int| start.is_live(j) implies #[trigger] after.slot_generation(j) == start.slot_generation(j) by {
        assert(before.is_live(j));
        assert(before.slot_generation(j) == start.slot_generation(j));
    }
    assert forall|j: int| start.is_live(j) implies #[trigger] after.slot_val(j) == start.slot_val(j) by {
        assert(before.is_live(j));
        assert(before.slot_val(j) == start.slot_val(j));
        if j != x {
            assert(after.slot_generation(j) == before.slot_generation(j));
        }
    }
    assert forall|j: int| start.is_live(j) implies #[trigger] after.slot_count(j) == start.slot_count(j) + g(j) by {
        assert(before.is_live(j));
        assert(before.slot_count(j) == start.slot_count(j) + f(j));
        assert(g(j) == f(j) + if j == x { 1nat } else { 0nat });
        if j != x {
            assert(after.slot_generation(j) == before.slot_generation(j));
        }
    }
}

/// A register left as it was stays recounted by the same extras.
pub proof fn lemma_recounted_same<T, P: ContentKey>(
    start: ContentRegister<T, P>,
    before: ContentRegister<T, P>,
    f: spec_fn(int) -> nat,
    g: spec_fn(int) -> nat,
)
    requires
        recounted(start, before, f),
        forall|j: int| #[trigger] g(j) == f(j),
    ensures
        recounted(start, before, g),
{
    assert forall|j: int| start.is_live(j) implies #[trigger] before.slot_count(j) == start.slot_count(j) + g(j) by {
        assert(before.slot_count(j) == start.slot_count(j) + f(j));
    }
}

impl ContentManager {
    /// Every id of `ids` can be counted once more, in turn: each names a live
    /// slot, and no count would pass the largest.
    pub open spec fn all_countable(&self, ids: Seq<ID>) -> bool {
        &&& forall|k: int| 0 <= k < ids.len() ==> match #[trigger] ids[k] {
            ID::Song(s) => self.songs.is_live(s.key_index() as int),
            ID::ContentProvider(p) => self.content_providers.is_live(p.key_index() as int),
        }
        &&& forall|j: int| #[trigger] self.songs.is_live(j) ==> self.songs.slot_count(j) + song_hits(ids, j) <= u32::MAX
        &&& forall|j: int| #[trigger] self.content_providers.is_live(j) ==> self.content_providers.slot_count(j)
            + provider_hits(ids, j) <= u32::MAX
    }

    /// What counting one more id to each of `ids` leaves, answering `r`: all
    /// counted where they all can be, else an error about one of them.
    pub open spec fn ids_counted(a: Self, b: Self, ids: Seq<ID>, r: Result<bool, ActionError>) -> bool {
        &&& b.same_but_registers(&a)
        &&& (r == Ok::<bool, ActionError>(true)) == a.all_countable(ids)
        &&& r is Ok ==> {
            &&& r == Ok::<bool, ActionError>(true)
            &&& recounted(a.songs, b.songs, |j: int| song_hits(ids, j))
            &&& recounted(a.content_providers, b.content_providers, |j: int| provider_hits(ids, j))
        }
        &&& r is Err ==> (r matches Err(ActionError::Register(_)))
    }
}

impl ContentManager {
    /// `b` is `a` with the yanker dropped.
    pub open spec fn yanker_dropped(a: Self, b: Self) -> bool {
        &&& b.songs == a.songs
        &&& b.content_providers == a.content_providers
        &&& b.edit_manager.edit_stack == a.edit_manager.edit_stack
        &&& b.edit_manager.undo_stack == a.edit_manager.undo_stack
        &&& b.edit_manager.yanker is None
        &&& b.active_queue == a.active_queue
        &&& b.active_song == a.active_song
    }

    /// `b` is `a` with a copy of `e` pushed on its edits.
    pub open spec fn edit_pushed(a: Self, b: Self, e: Edit) -> bool {
        &&& b.songs == a.songs
        &&& b.content_providers == a.content_providers
        &&& b.edit_manager.yanker == a.edit_manager.yanker
        &&& b.edit_manager.undo_stack == a.edit_manager.undo_stack
        &&& b.active_queue == a.active_queue
        &&& b.active_song == a.active_song
        &&& b.edit_manager.edit_stack@.len() == a.edit_manager.edit_stack@.len() + 1
        &&& b.edit_manager.edit_stack@.drop_last() == a.edit_manager.edit_stack@
        &&& edit_copied(b.edit_manager.edit_stack@.last(), e)
    }

    /// `b` is `a` with ids given back: only the registers changed, losing
    /// items or ids.
    pub open spec fn given_back(a: Self, b: Self) -> bool {
        &&& b.same_but_registers(&a)
        &&& shrunk(a.content_providers, b.content_providers)
        &&& shrunk(a.songs, b.songs)
    }

    /// What clearing the undone edits leaves: their ids given back, the
    /// undone edits gone.
    pub open spec fn undo_cleared(a: Self, b: Self, r: Result<bool, ActionError>) -> bool {
        if a.edit_manager.undo_stack@.len() == 0 {
            r == Ok::<bool, ActionError>(true) && b == a
        } else if !no_text_edits(a.edit_manager.undo_stack@) {
            r == Err::<bool, ActionError>(ActionError::TextEdit) && b == a
        } else {
            let ids = all_edit_ids(a.edit_manager.undo_stack@).reverse();
            &&& shrunk(a.content_providers, b.content_providers)
            &&& shrunk(a.songs, b.songs)
            &&& b.edit_manager.edit_stack == a.edit_manager.edit_stack
            &&& b.edit_manager.yanker == a.edit_manager.yanker
            &&& b.edit_manager.undo_stack@.len() == 0
            &&& b.active_queue == a.active_queue
            &&& b.active_song == a.active_song
            &&& match r {
                Ok(y) => y && gives_back(a.songs, a.content_providers, ids, b.songs, b.content_providers, None),
                Err(ActionError::Register(e)) => gives_back(a.songs, a.content_providers, ids, b.songs, b.content_providers, Some(e)),
                Err(_) => false,
            }
        }
    }

    /// What taking yanked items out of provider `from` leaves, answering `r`:
    /// nothing where the provider does not hold such items, an error where
    /// not every yank names its entry, else the provider without them.
    pub open spec fn yank_removed(a: Self, b: Self, yank: YankedView, from: ContentProviderID, r: Result<bool, ActionError>) -> bool {
        match a.remove_fit(yank, from) {
            None => r == Ok::<bool, ActionError>(false) && b == a,
            Some(false) => r == Err::<bool, ActionError>(ActionError::NotAllRemoved) && b == a,
            Some(true) => {
                let i = from.key_index() as int;
                &&& r == Ok::<bool, ActionError>(true)
                &&& b.same_but_registers(&a)
                &&& b.songs == a.songs
                &&& ContentRegister::same_except(a.content_providers, b.content_providers, i)
                &&& b.content_providers.is_live(i)
                &&& b.content_providers.slot_generation(i) == a.content_providers.slot_generation(i)
                &&& b.content_providers.slot_count(i) == a.content_providers.slot_count(i)
                &&& match (yank, a.provider(from)) {
                    (YankedView::Songs(items), Some(ContentProvider::Queue(q))) => b.provider(from) matches Some(
                        ContentProvider::Queue(q2),
                    ) && Queue::removed(q, q2, items),
                    (YankedView::Providers(items), Some(ContentProvider::QueueProvider(qp))) => b.provider(from) matches Some(
                        ContentProvider::QueueProvider(qp2),
                    ) && QueueProvider::removed(qp, qp2, items),
                    _ => false,
                }
            },
        }
    }

    /// What pasting yanked items into provider `to` at `pos` leaves.
    pub open spec fn yank_pasted(a: Self, b: Self, yank: YankedView, to: ContentProviderID, pos: Option<usize>) -> bool {
        &&& b.same_but_registers(&a)
        &&& b.songs == a.songs
        &&& values_changed(a.content_providers, b.content_providers, set![to.key_index() as int])
        &&& b.provider(to) matches Some(p) && match (yank, a.provider(to)->Some_0) {
            (YankedView::Songs(items), ContentProvider::Queue(q)) => p matches ContentProvider::Queue(q2)
                && Queue::pasted_into(q, q2, items, pos),
            (YankedView::Providers(items), ContentProvider::QueueProvider(qp)) => p matches ContentProvider::QueueProvider(
                qp2,
            ) && QueueProvider::pasted_into(qp, qp2, items, pos),
            (_, q) => p == q,
        }
    }

    /// What putting yanked items back into provider `to` leaves.
    pub open spec fn yank_inserted(a: Self, b: Self, yank: YankedView, to: ContentProviderID) -> bool {
        &&& b.same_but_registers(&a)
        &&& b.songs == a.songs
        &&& values_changed(a.content_providers, b.content_providers, set![to.key_index() as int])
        &&& b.provider(to) matches Some(p) && match (yank, a.provider(to)->Some_0) {
            (YankedView::Songs(items), ContentProvider::Queue(q)) => p matches ContentProvider::Queue(q2)
                && Queue::inserted(q, q2, items),
            (YankedView::Providers(items), ContentProvider::QueueProvider(qp)) => p matches ContentProvider::QueueProvider(
                qp2,
            ) && QueueProvider::inserted(qp, qp2, items),
            (_, q) => p == q,
        }
    }

    /// What trying to paste songs into queue `to` leaves, answering `r`: on
    /// success the paste recorded as an edit.
    pub open spec fn songs_paste_tried(
        a: Self,
        b: Self,
        items: Seq<Yank<SongID>>,
        start: Option<usize>,
        to: ContentProviderID,
        r: Result<bool, ActionError>,
    ) -> bool {
        let ids = doubled_songs(items).push(ID::ContentProvider(to));
        &&& r is Err ==> (r matches Err(ActionError::Register(_)))
        &&& (r is Ok) == a.all_countable(ids)
        &&& r is Ok ==> {
            let q = a.provider(to)->Some_0->Queue_0;
            &&& recounted(a.songs, b.songs, |j: int| song_hits(ids, j))
            &&& exists|m: ContentRegister<ContentProvider, ContentProviderID>| #[trigger]
                values_changed(m, b.content_providers, set![to.key_index() as int]) && recounted(
                    a.content_providers,
                    m,
                    |j: int| provider_hits(ids, j),
                )
            &&& r == Ok::<bool, ActionError>(false)
            &&& b.edit_manager.edit_stack@.len() == a.edit_manager.edit_stack@.len() + 1
            &&& b.edit_manager.edit_stack@.drop_last() == a.edit_manager.edit_stack@
            &&& b.edit_manager.edit_stack@.last() matches Edit::Pasted { yank, yanked_to, paste_pos } && {
                &&& yanked_to == to
                &&& paste_pos == start
                &&& yank@ == YankedView::Songs(reindexed(items, start, q.songs@.len() as usize))
            }
            &&& b.provider(to) matches Some(ContentProvider::Queue(q2)) && q2.songs@ == pasted(
                q.songs@,
                yanked_items(items),
                start,
            )
        }
    }

    /// What trying to paste queues into the queue provider `to` leaves,
    /// answering `r`: on success the paste recorded as an edit.
    pub open spec fn queues_paste_tried(
        a: Self,
        b: Self,
        items: Seq<Yank<ContentProviderID>>,
        start: Option<usize>,
        to: ContentProviderID,
        r: Result<bool, ActionError>,
    ) -> bool {
        &&& r is Err ==> (r matches Err(ActionError::Register(_)))
        &&& (r is Ok) == (all_present(a, items) && a.all_countable(paste_queue_ids(a, items).push(ID::ContentProvider(to))))
        &&& r is Ok ==> {
            let qp = a.provider(to)->Some_0->QueueProvider_0;
            &&& r == Ok::<bool, ActionError>(false)
            &&& b.edit_manager.edit_stack@.len() == a.edit_manager.edit_stack@.len() + 1
            &&& b.edit_manager.edit_stack@.drop_last() == a.edit_manager.edit_stack@
            &&& b.edit_manager.edit_stack@.last() matches Edit::Pasted { yank, yanked_to, paste_pos } && {
                &&& yanked_to == to
                &&& paste_pos == start
                &&& yank@ matches YankedView::Providers(y) && {
                    &&& y.len() <= items.len()
                    &&& y == reindexed(y, start, qp.queues().len() as usize)
                    &&& b.provider(to) matches Some(ContentProvider::QueueProvider(qp2)) && qp2.queues() == pasted(
                        qp.queues(),
                        yanked_items(y),
                        start,
                    )
                }
            }
        }
    }

    /// What a single action, one that holds no others, may leave in `b`
    /// from `a`, answering `r`.
    pub open spec fn step_post(a: Self, b: Self, act: YankAction, r: Result<bool, ActionError>) -> bool {
        &&& b.content_stack == a.content_stack
        &&& match act {
            YankAction::False => r == Ok::<bool, ActionError>(false) && b == a,
            YankAction::Noop => r == Ok::<bool, ActionError>(true) && b == a,
            YankAction::RefreshDisplayContent => r == Ok::<bool, ActionError>(true) && b == a,
            YankAction::ProviderExists { id } => r == Ok::<bool, ActionError>(a.provider(id) is Some) && b == a,
            YankAction::DropYanker => r == Ok::<bool, ActionError>(true) && Self::yanker_dropped(a, b),
            YankAction::PushEdit { edit } => r == Ok::<bool, ActionError>(true) && Self::edit_pushed(a, b, edit),
            YankAction::Register { ids } => Self::ids_counted(a, b, ids@, r),
            YankAction::Unregister { ids } => Self::given_back(a, b) && match r {
                Ok(y) => y && gives_back(a.songs, a.content_providers, ids@.reverse(), b.songs, b.content_providers, None),
                Err(ActionError::Register(e)) => gives_back(
                    a.songs,
                    a.content_providers,
                    ids@.reverse(),
                    b.songs,
                    b.content_providers,
                    Some(e),
                ),
                Err(_) => false,
            },
            YankAction::ClearUndoStack => Self::undo_cleared(a, b, r),
            YankAction::RemoveFromProvider { yank, yanked_from } => Self::yank_removed(a, b, yank@, yanked_from, r),
            YankAction::PasteIntoProvider { yank, yanked_to, paste_pos } => match a.paste_fit(yank@, yanked_to, paste_pos) {
                None => r == Ok::<bool, ActionError>(false) && b == a,
                Some(false) => r == Err::<bool, ActionError>(ActionError::PastEnd) && b == a,
                Some(true) => r == Ok::<bool, ActionError>(true) && Self::yank_pasted(a, b, yank@, yanked_to, paste_pos),
            },
            YankAction::InsertIntoProvider { yank, yanked_to } => match a.insert_fit(yank@, yanked_to) {
                None => r == Ok::<bool, ActionError>(false) && b == a,
                Some(false) => r == Err::<bool, ActionError>(ActionError::PastEnd) && b == a,
                Some(true) => r == Ok::<bool, ActionError>(true) && Self::yank_inserted(a, b, yank@, yanked_to),
            },
            YankAction::TryPasteIntoProvider { yank, yanked_to, paste_pos } => match a.paste_fit(yank@, yanked_to, paste_pos) {
                None => r == Ok::<bool, ActionError>(false) && b == a,
                Some(false) => r == Err::<bool, ActionError>(ActionError::PastEnd) && b == a,
                Some(true) => if a.content_providers.num_slots() + yank.spec_len() >= usize::MAX {
                    r == Err::<bool, ActionError>(ActionError::PastEnd) && b == a
                } else {
                    match yank@ {
                        YankedView::Songs(items) => Self::songs_paste_tried(a, b, items, paste_pos, yanked_to, r),
                        YankedView::Providers(items) => Self::queues_paste_tried(a, b, items, paste_pos, yanked_to, r),
                    }
                },
            },
            _ => false,
        }
    }

    /// `t` is a run of `act` from `a` to `b` answering `r`: a single action
    /// does what `step_post` says; a list runs its actions in turn, stopping
    /// at the first error and succeeding where all do; a conditional runs its
    /// first list, then its second or third as the first succeeded or not.
    pub open spec fn runs(a: Self, b: Self, act: YankAction, r: Result<bool, ActionError>, t: RunTrace) -> bool
        decreases t,
    {
        match (act, t) {
            (YankAction::Actions { v }, RunTrace::Steps(steps)) => Self::steps_run(a, b, v@, r, steps),
            (YankAction::Conditional { if_this, then_this, else_this }, RunTrace::Branch(first, r1, mid, second)) => {
                &&& Self::steps_run(a, mid, if_this@, r1, first)
                &&& match r1 {
                    Err(e) => b == mid && r == Err::<bool, ActionError>(e) && second.len() == 0,
                    Ok(true) => Self::steps_run(mid, b, then_this@, r, second),
                    Ok(false) => Self::steps_run(mid, b, else_this@, r, second),
                }
            },
            (YankAction::Actions { .. }, _) => false,
            (YankAction::Conditional { .. }, _) => false,
            (_, RunTrace::Leaf) => Self::step_post(a, b, act, r),
            _ => false,
        }
    }

    /// `steps` is a run of the actions `acts` in turn from `a` to `b`,
    /// answering `r`: each step records the state after its action, what the
    /// action answered, the action's own run and what the rest answered.
    pub open spec fn steps_run(
        a: Self,
        b: Self,
        acts: Seq<YankAction>,
        r: Result<bool, ActionError>,
        steps: Seq<RunStep>,
    ) -> bool
        decreases steps,
    {
        if acts.len() == 0 {
            steps.len() == 0 && b == a && r == Ok::<bool, ActionError>(true)
        } else if steps.len() == 0 {
            false
        } else {
            let s = steps[0];
            &&& Self::runs(a, s.after, acts[0], s.answer, s.run)
            &&& match s.answer {
                Err(e) => b == s.after && r == Err::<bool, ActionError>(e) && steps.len() == 1,
                Ok(x) => Self::steps_run(s.after, b, acts.drop_first(), s.rest, steps.drop_first()) && r == and_then(
                    x,
                    s.rest,
                ),
            }
        }
    }

    /// What carrying out `act` from `a` may leave in `b`, answering `r`.
    pub open spec fn action_post(a: Self, b: Self, act: YankAction, r: Result<bool, ActionError>) -> bool {
        exists|t: RunTrace| #[trigger] Self::runs(a, b, act, r, t)
    }

    /// What carrying out `acts` in turn from `a` may leave in `b`, answering `r`.
    pub open spec fn actions_post(a: Self, b: Self, acts: Seq<YankAction>, r: Result<bool, ActionError>) -> bool {
        exists|steps: Seq<RunStep>| #[trigger] Self::steps_run(a, b, acts, r, steps)
    }
}

/// One step of a run of a list of actions.
pub struct RunStep {
    pub after: ContentManager,
    pub answer: Result<bool, ActionError>,
    pub run: RunTrace,
    pub rest: Result<bool, ActionError>,
}

/// How a run of an action went: a single action, the steps of a list, or
/// the steps of a conditional's first list and of the list it chose.
pub enum RunTrace {
    Leaf,
    Steps(Seq<RunStep>),
    Branch(Seq<RunStep>, Result<bool, ActionError>, ContentManager, Seq<RunStep>),
}

} // verus!
