use vstd::prelude::*;

use crate::content::manager::actions::{recounted, song_hits};
use crate::content::manager::give_back::{failure, gives_back};
use crate::content::manager::manager::{ContentManager, RegisterError};
use crate::content::providers::queue::Queue;
use crate::content::providers::queue_provider::MAX_QUEUES;
use crate::content::providers::traits::is_first_at;
use crate::content::providers::ContentProvider;
use crate::content::song::Song;
use crate::service::editors::Yank;
use crate::content::register::{ContentKey, ContentProviderID, ContentRegister, SongID, ID};

verus! {

/// `b` holds what `a` holds, in the same slots, under the same generations
/// and with the same counts; only the items of the slots in `changed` may
/// differ.
pub open spec fn values_changed<T, P: ContentKey>(a: ContentRegister<T, P>, b: ContentRegister<T, P>, changed: Set<int>) -> bool {
    &&& b.num_slots() == a.num_slots()
    &&& forall|j: int| #[trigger] b.is_live(j) == a.is_live(j)
    &&& forall|j: int| a.is_live(j) ==> #[trigger] b.slot_generation(j) == a.slot_generation(j)
    &&& forall|j: int| a.is_live(j) ==> #[trigger] b.slot_count(j) == a.slot_count(j)
    &&& forall|j: int| a.is_live(j) && !changed.contains(j) ==> #[trigger] b.slot_val(j) == a.slot_val(j)
    &&& b.free_slots() == a.free_slots()
    &&& b.current_generation() == a.current_generation()
    &&& b.last_op() == a.last_op()
    &&& forall|x: usize, g: u64| #[trigger] b.is_dead(x, g) == a.is_dead(x, g)
}

/// A register has changed none of its items.
pub proof fn lemma_values_unchanged<T, P: ContentKey>(a: ContentRegister<T, P>)
    ensures
        values_changed(a, a, Set::empty()),
{
}

/// Changing one more item after some others changes them all.
pub proof fn lemma_values_changed_then<T, P: ContentKey>(
    a: ContentRegister<T, P>,
    b: ContentRegister<T, P>,
    c: ContentRegister<T, P>,
    s: Set<int>,
    i: int,
)
    requires
        values_changed(a, b, s),
        ContentRegister::same_except(b, c, i),
        b.is_live(i),
        c.is_live(i),
        c.slot_generation(i) == b.slot_generation(i),
        c.slot_count(i) == b.slot_count(i),
    ensures
        values_changed(a, c, s.insert(i)),
{
    assert forall|j: int| #[trigger] c.is_live(j) == a.is_live(j) by {
        if j != i {
            assert(c.is_live(j) == b.is_live(j));
        }
    }
    assert forall|j: int| a.is_live(j) implies #[trigger] c.slot_generation(j) == a.slot_generation(j) by {
        assert(b.slot_generation(j) == a.slot_generation(j));
    }
    assert forall|j: int| a.is_live(j) implies #[trigger] c.slot_count(j) == a.slot_count(j) by {
        assert(b.slot_count(j) == a.slot_count(j));
        if j != i {
            assert(c.slot_generation(j) == b.slot_generation(j));
        }
    }
    assert forall|j: int| a.is_live(j) && !s.insert(i).contains(j) implies #[trigger] c.slot_val(j) == a.slot_val(j) by {
        assert(b.slot_val(j) == a.slot_val(j));
        assert(c.slot_generation(j) == b.slot_generation(j));
    }
}

/// Song ids as ids.
pub open spec fn song_ids(songs: Seq<SongID>) -> Seq<ID> {
    songs.map_values(|s: SongID| ID::Song(s))
}

/// Each yanked song's id twice, in order.
pub open spec fn doubled_songs(items: Seq<Yank<SongID>>) -> Seq<ID>
    decreases items.len(),
{
    if items.len() == 0 {
        Seq::empty()
    } else {
        doubled_songs(items.drop_last()).push(ID::Song(items.last().item)).push(ID::Song(items.last().item))
    }
}

/// The ids that pasting provider `id` into the queue provider counts once
/// more in `a`: a queue twice (held by the queue provider and by the edit),
/// the songs of any other provider once each (held by the new queue made of
/// them), none for a provider listing no songs or for an id that reaches
/// nothing.
pub open spec fn paste_item_ids(a: ContentManager, id: ContentProviderID) -> Seq<ID> {
    match a.provider(id) {
        Some(ContentProvider::Queue(_)) => seq![ID::ContentProvider(id), ID::ContentProvider(id)],
        Some(p) => song_ids(p.songs_of()),
        None => Seq::empty(),
    }
}

/// The ids that pasting the yanked providers `items` into the queue
/// provider counts once more in `a`, in turn.
pub open spec fn paste_queue_ids(a: ContentManager, items: Seq<Yank<ContentProviderID>>) -> Seq<ID>
    decreases items.len(),
{
    if items.len() == 0 {
        Seq::empty()
    } else {
        paste_queue_ids(a, items.drop_last()) + paste_item_ids(a, items.last().item)
    }
}

/// Every yanked provider of `items` reaches a provider in `a`.
pub open spec fn all_present(a: ContentManager, items: Seq<Yank<ContentProviderID>>) -> bool {
    forall|k: int| 0 <= k < items.len() ==> (#[trigger] a.provider(items[k].item)) is Some
}

/// Registers that agree on which slots are live and on the item and
/// generation of each live slot reach the same items.
pub proof fn lemma_same_lookups<T, P: ContentKey>(a: ContentRegister<T, P>, b: ContentRegister<T, P>, x: usize, g: u64)
    requires
        a.is_live(x as int) ==> b.is_live(x as int) && b.slot_generation(x as int) == a.slot_generation(x as int)
            && b.slot_val(x as int) == a.slot_val(x as int),
        !a.is_live(x as int) ==> !b.is_live(x as int),
    ensures
        b.lookup(x, g) == a.lookup(x, g),
{
}

/// The states that making a new queue goes through.
pub struct QueueMaking {
    /// The songs of the provider counted once more.
    pub counted: ContentManager,
    /// The queue made of them.
    pub queue: Queue,
    /// Its id.
    pub id: ContentProviderID,
    /// The providers once the queue is stored.
    pub allocated: ContentRegister<ContentProvider, ContentProviderID>,
    /// The queue put on top of the queue provider's list.
    pub stored: ContentManager,
    /// The queue that left the list given back, where one left.
    pub trimmed: ContentManager,
    /// What giving it back answered.
    pub trim: Result<(), RegisterError>,
}

impl ContentManager {
    /// What making `id` the song playing does, answering `r`: its id is
    /// counted once more, then the id held for the song playing before is
    /// given back; the song playing changes where both went through.
    pub open spec fn made_active_song(a: Self, b: Self, id: SongID, r: Result<(), RegisterError>) -> bool {
        let i = id.key_index() as int;
        &&& b.content_stack == a.content_stack
        &&& b.edit_manager == a.edit_manager
        &&& b.active_queue == a.active_queue
        &&& b.content_providers == a.content_providers
        &&& b.active_song == (if r is Ok {
            Some(id)
        } else {
            a.active_song
        })
        &&& if !a.songs.is_live(i) {
            r == Err::<(), RegisterError>(RegisterError::NotRegistered(ID::Song(id))) && b.songs == a.songs
        } else if a.songs.slot_count(i) == u32::MAX {
            r == Err::<(), RegisterError>(RegisterError::CountExhausted(ID::Song(id))) && b.songs == a.songs
        } else {
            exists|mid: ContentRegister<Song, SongID>| #[trigger]
                ContentRegister::register_post(a.songs, mid, i) && match a.active_song {
                    None => r is Ok && b.songs == mid,
                    Some(o) => gives_back(mid, a.content_providers, seq![ID::Song(o)], b.songs, b.content_providers, failure(r)),
                }
        }
    }

    /// What making `id` the queue playing does, answering `r`: its id is
    /// counted once more, then the id held for the queue playing before is
    /// given back; the queue playing changes where both went through.
    pub open spec fn made_active_queue(a: Self, b: Self, id: ContentProviderID, r: Result<(), RegisterError>) -> bool {
        let i = id.key_index() as int;
        &&& b.content_stack == a.content_stack
        &&& b.edit_manager == a.edit_manager
        &&& b.active_song == a.active_song
        &&& b.active_queue == (if r is Ok {
            Some(id)
        } else {
            a.active_queue
        })
        &&& if !a.content_providers.is_live(i) {
            &&& r == Err::<(), RegisterError>(RegisterError::NotRegistered(ID::ContentProvider(id)))
            &&& b.songs == a.songs
            &&& b.content_providers == a.content_providers
        } else if a.content_providers.slot_count(i) == u32::MAX {
            &&& r == Err::<(), RegisterError>(RegisterError::CountExhausted(ID::ContentProvider(id)))
            &&& b.songs == a.songs
            &&& b.content_providers == a.content_providers
        } else {
            exists|mid: ContentRegister<ContentProvider, ContentProviderID>| #[trigger]
                ContentRegister::register_post(a.content_providers, mid, i) && match a.active_queue {
                    None => r is Ok && b.songs == a.songs && b.content_providers == mid,
                    Some(o) => gives_back(a.songs, mid, seq![ID::ContentProvider(o)], b.songs, b.content_providers, failure(r)),
                }
        }
    }

    /// `mid` is `a` with queue `h` selecting the first place of `song` and
    /// moved to the top of the queue provider's list, and `b` is `mid` with
    /// `h` made the queue playing, answering `r`.
    pub open spec fn reused_through(
        a: Self,
        b: Self,
        id: ContentProviderID,
        song: SongID,
        h: ContentProviderID,
        r: Result<(), RegisterError>,
        mid: Self,
    ) -> bool {
        let qs = a.queue_list();
        let k = a.queue_pick(qs, id)->Some_0;
        let qp = a.queue_provider_of()->Some_0;
        let q = a.provider(h)->Some_0->Queue_0;
        let list = a.provider(qp)->Some_0->QueueProvider_0;
        &&& mid.same_but_registers(&a)
        &&& mid.songs == a.songs
        &&& values_changed(
            a.content_providers,
            mid.content_providers,
            set![h.key_index() as int, qp.key_index() as int],
        )
        &&& mid.provider(h) matches Some(ContentProvider::Queue(q2)) && {
            &&& q2.songs == q.songs
            &&& q2.name == q.name
            &&& q2.source_cp == q.source_cp
            &&& q2.currently_playing == q.currently_playing
            &&& is_first_at(q.songs@, song, q2.index@ as int)
        }
        &&& mid.provider(qp) matches Some(ContentProvider::QueueProvider(p2)) && {
            &&& p2.queues() == seq![qs[k]].add(qs.remove(k))
            &&& p2.selection() == list.selection()
            &&& p2.title() == list.title()
        }
        &&& Self::made_active_queue(mid, b, h, r)
    }

    /// `w` records how a new queue of the songs of provider `id`, playing
    /// `song`, was made from `a`: the songs counted once more, the queue
    /// (named after the provider, playing the first place of the song)
    /// stored in the next slot and put on top of the queue provider's list;
    /// where the list then holds more than it may, its last queue leaves it
    /// and is given back; then the new queue becomes the queue playing,
    /// which leaves `b` and answers `r`.
    pub open spec fn made_through(
        a: Self,
        b: Self,
        id: ContentProviderID,
        song: SongID,
        r: Result<(), RegisterError>,
        w: QueueMaking,
    ) -> bool {
        let p = a.provider(id)->Some_0;
        let ids = song_ids(p.songs_of());
        let qp = a.queue_provider_of()->Some_0;
        let list = a.provider(qp)->Some_0->QueueProvider_0;
        let listed = seq![w.id].add(a.queue_list());
        &&& w.counted.same_but_registers(&a)
        &&& recounted(a.songs, w.counted.songs, |j: int| song_hits(ids, j))
        &&& w.counted.content_providers == a.content_providers
        &&& w.queue.songs@ == p.songs_of()
        &&& w.queue.name@ == p.name_of()
        &&& w.queue.index@ == 0
        &&& w.queue.source_cp == id
        &&& w.queue.currently_playing matches Some(c) && is_first_at(p.songs_of(), song, c as int)
        &&& ContentRegister::alloc_post(a.content_providers, w.allocated, ContentProvider::Queue(w.queue), w.id)
        &&& w.stored.same_but_registers(&a)
        &&& w.stored.songs == w.counted.songs
        &&& values_changed(w.allocated, w.stored.content_providers, set![qp.key_index() as int])
        &&& w.stored.provider(qp) matches Some(ContentProvider::QueueProvider(p2)) && {
            &&& p2.queues() == (if listed.len() > MAX_QUEUES {
                listed.drop_last()
            } else {
                listed
            })
            &&& p2.selection() == list.selection()
            &&& p2.title() == list.title()
        }
        &&& if listed.len() > MAX_QUEUES {
            &&& w.trimmed.same_but_registers(&a)
            &&& gives_back(
                w.stored.songs,
                w.stored.content_providers,
                seq![ID::ContentProvider(listed.last())],
                w.trimmed.songs,
                w.trimmed.content_providers,
                failure(w.trim),
            )
        } else {
            w.trimmed == w.stored && w.trim is Ok
        }
        &&& match w.trim {
            Err(e) => {
                &&& r == Err::<(), RegisterError>(e)
                &&& b.same_but_registers(&a)
                &&& b.songs == w.trimmed.songs
                &&& b.content_providers == w.trimmed.content_providers
            },
            Ok(()) => Self::made_active_queue(w.trimmed, b, w.id, r),
        }
    }

    /// What `set_queue` does for provider `id` and song `song` from `a`,
    /// leaving `b` and answering `r`: a queue found holding the song is
    /// reused; otherwise a new queue is made, which fails where the songs of
    /// the provider cannot all be counted once more.
    pub open spec fn queue_set(a: Self, b: Self, id: ContentProviderID, song: SongID, r: Result<(), RegisterError>) -> bool {
        match a.queue_hit(id, song) {
            Some(h) => exists|mid: Self| #[trigger] Self::reused_through(a, b, id, song, h, r, mid),
            None => if !a.all_countable(song_ids(a.provider(id)->Some_0.songs_of())) {
                r is Err
            } else {
                exists|w: QueueMaking| #[trigger] Self::made_through(a, b, id, song, r, w)
            },
        }
    }
}

} // verus!
