use vstd::prelude::*;

use crate::content::providers::file_explorer::FileExplorer;
use crate::content::providers::main_provider::{MainProvider, MainProviderMenuOption};
use crate::content::providers::queue::Queue;
use crate::content::providers::queue_provider::QueueProvider;
use crate::content::providers::yt_explorer::{editables_defined, editables_for, YTExplorer, YTExplorerChoice, YTSearchFilter};
use crate::service::text::last_segment;
use crate::content::providers::traits::{copy_list, first_at, is_first_at, lemma_first_at};
use crate::content::providers::ContentProvider;
use crate::content::register::{lemma_alloc_chain_push, 
    lemma_live_below_drop, lemma_live_below_same, lemma_live_in_range, lemma_register_unregister, lemma_live_counted, live_count, ContentKey, ContentProviderID, ContentRegister,
    GlobalContent, SongID, ID,
};
use crate::content::manager::queueing::{all_present, lemma_same_lookups, paste_queue_ids, paste_item_ids, doubled_songs, lemma_values_changed_then, lemma_values_unchanged, song_ids, values_changed, QueueMaking};
use crate::content::manager::give_back::{children_of, failure, gives_back, ends_at, lemma_returns_start, lemma_returns_push, lemma_lifted, lemma_returns_concat, lifted, return_step, returns_along, Returning};
use crate::content::manager::actions::{
    and_then, lemma_hits_prefix, lemma_recounted_same, lemma_recounted_step, provider_hits, recounted, song_hits, RunStep, RunTrace,
};
use crate::content::song::Song;
use crate::content::stack::{ContentStack, ContentState, StateView};
use crate::content::selection::{selection_decrement, selection_increment, stepped_down, stepped_up, SelectedIndex};
use crate::content::providers::main_provider::menu_options;
use crate::service::editors::{all_edit_ids, no_text_edits, view_len, YankAction, copy_edit, edit_ids_of, copy_yanks, single_yank, toggled, Edit, EditManager, Yank, YankedContent, YankedView, Yanker};
use crate::content::providers::traits::{all_found, count_shift, pasted, remove_walk, shift_count, sort_by_index, yanked_items};

verus! {

/// Why ids could not be given back to the registers.
#[derive(Clone, Copy, Debug, PartialEq, Eq, Structural)]
pub enum RegisterError {
    /// An id was met whose slot holds no item.
    NotRegistered(ID),
    /// An item was to be dropped when no fresh generation was left.
    GenerationsExhausted,
    /// An id was to be counted to an item that holds as many as can be counted.
    CountExhausted(ID),
}

/// Why a yank action could not be carried out.
#[derive(Clone, Copy, Debug, PartialEq, Eq, Structural)]
pub enum ActionError {
    Register(RegisterError),
    /// Items were to go in past the end of a provider.
    PastEnd,
    /// Items to take out were not where they were said to be.
    NotAllRemoved,
    /// A text edit was to give back ids; text edits hold none yet.
    TextEdit,
}

/// What entering the selected entry came to.
#[derive(Debug)]
pub enum Entered {
    /// A song of the provider on top was chosen: it plays now, from a
    /// queue; fetching its uri and art is the caller's.
    Song(SongID),
    /// A provider listed by the one on top was opened on the stack; whether
    /// it still has to load.
    Opened { id: ContentProviderID, needs_load: bool },
    /// An option of the menu shown was chosen; carrying it out is the
    /// caller's (see `apply_menu_option`).
    MenuOption { provider: ContentProviderID, option: MainProviderMenuOption },
    /// An entry of a youtube explorer's edit screen was chosen.
    YTEdit { provider: ContentProviderID, choice: YTExplorerChoice },
    /// The path on a file explorer's edit screen was chosen: typing starts from it.
    FileEdit { provider: ContentProviderID, path: String },
    /// Nothing was there to enter.
    Nothing,
}

/// `b` has only lost items or ids of `a`: every live slot of `b` was live in
/// `a`, with the same item and generation and no more ids.
pub open spec fn shrunk<T, P: ContentKey>(a: ContentRegister<T, P>, b: ContentRegister<T, P>) -> bool {
    &&& b.num_slots() == a.num_slots()
    &&& forall|j: int| #[trigger] b.is_live(j) ==> {
        &&& a.is_live(j)
        &&& b.slot_generation(j) == a.slot_generation(j)
        &&& b.slot_val(j) == a.slot_val(j)
        &&& b.slot_count(j) <= a.slot_count(j)
    }
}

/// Losing items or ids twice is losing items or ids.
pub proof fn lemma_shrunk_trans<T, P: ContentKey>(a: ContentRegister<T, P>, b: ContentRegister<T, P>, c: ContentRegister<T, P>)
    requires
        shrunk(a, b),
        shrunk(b, c),
    ensures
        shrunk(a, c),
{
    assert forall|j: int| #[trigger] c.is_live(j) implies {
        &&& a.is_live(j)
        &&& c.slot_generation(j) == a.slot_generation(j)
        &&& c.slot_val(j) == a.slot_val(j)
        &&& c.slot_count(j) <= a.slot_count(j)
    } by {
        assert(b.is_live(j));
    }
}

/// The songs and providers, the stack of what is browsed, the edits, and
/// what is playing.
pub struct ContentManager {
    pub songs: ContentRegister<Song, SongID>,
    pub content_providers: ContentRegister<ContentProvider, ContentProviderID>,
    pub content_stack: ContentStack,
    pub edit_manager: EditManager,
    pub active_queue: Option<ContentProviderID>,
    pub active_song: Option<SongID>,
}

impl ContentManager {
    pub open spec fn wf(&self) -> bool {
        &&& self.songs.wf()
        &&& self.content_providers.wf()
        &&& self.content_stack.wf()
    }

    /// Everything but the registers is as in `old`.
    pub open spec fn same_but_registers(&self, old: &Self) -> bool {
        &&& self.content_stack == old.content_stack
        &&& self.edit_manager == old.edit_manager
        &&& self.active_queue == old.active_queue
        &&& self.active_song == old.active_song
    }

    /// The provider `id` reaches.
    pub open spec fn provider(&self, id: ContentProviderID) -> Option<ContentProvider> {
        self.content_providers.lookup(id.key_index(), id.key_generation())
    }

    /// The song `id` reaches.
    pub open spec fn song(&self, id: SongID) -> Option<Song> {
        self.songs.lookup(id.key_index(), id.key_generation())
    }

    /// A manager as `new` makes it: no songs; four providers, all of the
    /// first generation: the queue provider (held twice), a file explorer and
    /// a youtube explorer, all listing nothing, and the main provider listing
    /// those three and naming the first as its queue provider; the main
    /// provider alone on the stack; no edits, nothing playing.
    pub open spec fn is_fresh(&self) -> bool {
        let cp = self.content_providers;
        &&& self.wf()
        &&& self.songs.num_slots() == 0
        &&& cp.num_slots() == 4
        &&& forall|i: int| 0 <= i < 4 ==> #[trigger] cp.is_live(i) && cp.slot_generation(i) == 0
        &&& cp.slot_count(0) == 2 && cp.slot_count(1) == 1 && cp.slot_count(2) == 1 && cp.slot_count(3) == 1
        &&& (cp.slot_val(0) matches ContentProvider::QueueProvider(q) && q.queues().len() == 0)
        &&& (cp.slot_val(1) matches ContentProvider::FileExplorer(f) && f.song_list().len() == 0
            && f.provider_list().len() == 0)
        &&& (cp.slot_val(2) matches ContentProvider::YTExplorer(y) && y.song_list().len() == 0
            && y.provider_list().len() == 0)
        &&& (cp.slot_val(3) matches ContentProvider::Main(m) && {
            &&& m.children().len() == 3
            &&& forall|k: int| 0 <= k < 3 ==> (#[trigger] m.children()[k]).key_index() == k
                && m.children()[k].key_generation() == 0
            &&& m.queue_provider_id().key_index() == 0
            &&& m.queue_provider_id().key_generation() == 0
        })
        &&& self.content_stack.entries().len() == 1
        &&& (self.content_stack.entries()[0] matches GlobalContent::ID(ID::ContentProvider(m)) && m.key_index() == 3
            && m.key_generation() == 0)
        &&& self.edit_manager.edit_stack@.len() == 0
        &&& self.edit_manager.undo_stack@.len() == 0
        &&& self.active_queue is None
        &&& self.active_song is None
    }

    /// A manager of no songs, whose stack holds the main provider. The main
    /// provider lists the queue provider (held by it and by the main provider
    /// itself), a file explorer of `default_path` and a youtube explorer.
    /// Panics where the path is empty.
    pub fn new(default_path: &str) -> (r: ContentManager)
        requires
            default_path@.len() > 0,
        ensures
            r.wf(),
            r.songs.num_slots() == 0,
            r.content_providers.num_slots() == 4,
            r.active_queue is None,
            r.active_song is None,
            r.content_providers.is_live(0) && r.content_providers.slot_count(0) == 2,
            r.content_providers.slot_val(0) is QueueProvider,
            r.content_providers.is_live(1) && r.content_providers.slot_count(1) == 1,
            r.content_providers.slot_val(1) matches ContentProvider::FileExplorer(f) && f.path_view() == default_path@,
            r.content_providers.is_live(2) && r.content_providers.slot_count(2) == 1,
            r.content_providers.slot_val(2) is YTExplorer,
            r.content_providers.is_live(3) && r.content_providers.slot_count(3) == 1,
            r.content_providers.slot_val(3) matches ContentProvider::Main(m) && m.children().len() == 3,
            r.content_stack.entries().len() == 1,
            r.content_stack.entries()[0] matches GlobalContent::ID(ID::ContentProvider(m)) && m.key_index() == 3,
            r.is_fresh(),
    {
        let mut cr: ContentRegister<ContentProvider, ContentProviderID> = ContentRegister::new();
        let queue_provider = cr.allocate(ContentProvider::QueueProvider(QueueProvider::new()));
        let mut mp = MainProvider::new(queue_provider);
        cr.register(queue_provider);
        let ghost c1 = cr;
        let fe = cr.allocate(ContentProvider::FileExplorer(FileExplorer::new(default_path)));
        assert(fe.key_index() == 1);
        assert(cr.slot_generation(0) == c1.slot_generation(0));
        let ghost c2 = cr;
        let yt = cr.allocate(ContentProvider::YTExplorer(YTExplorer::new()));
        assert(yt.key_index() == 2);
        assert(cr.slot_generation(0) == c2.slot_generation(0));
        assert(cr.slot_generation(1) == c2.slot_generation(1));
        mp.load(fe, yt);
        let ghost c3 = cr;
        let main_id = cr.allocate(ContentProvider::Main(mp));
        assert(main_id.key_index() == 3);
        assert(cr.slot_generation(0) == c3.slot_generation(0));
        assert(cr.slot_generation(1) == c3.slot_generation(1));
        assert(cr.slot_generation(2) == c3.slot_generation(2));
        ContentManager {
            songs: ContentRegister::new(),
            content_providers: cr,
            content_stack: ContentStack::new(main_id),
            edit_manager: EditManager::new(),
            active_queue: None,
            active_song: None,
        }
    }
}

impl ContentManager {
    pub fn alloc_song(&mut self, s: Song) -> (r: SongID)
        requires
            old(self).wf(),
            old(self).songs.free_slots().len() == 0 ==> old(self).songs.num_slots() < usize::MAX,
        ensures
            final(self).wf(),
            ContentRegister::alloc_post(old(self).songs, final(self).songs, s, r),
            final(self).content_providers == old(self).content_providers,
            final(self).same_but_registers(old(self)),
    {
        self.songs.allocate(s)
    }

    pub fn alloc_content_provider(&mut self, cp: ContentProvider) -> (r: ContentProviderID)
        requires
            old(self).wf(),
            old(self).content_providers.free_slots().len() == 0 ==> old(self).content_providers.num_slots()
                < usize::MAX,
        ensures
            final(self).wf(),
            ContentRegister::alloc_post(old(self).content_providers, final(self).content_providers, cp, r),
            final(self).songs == old(self).songs,
            final(self).same_but_registers(old(self)),
    {
        self.content_providers.allocate(cp)
    }

    /// Stores a copy of provider `id`, counting one more id to everything
    /// it lists, and returns the copy's id. Stops at the first listed id that
    /// cannot be counted.
    pub fn clone_content_provider(&mut self, id: ContentProviderID) -> (r: Result<ContentProviderID, RegisterError>)
        requires
            old(self).wf(),
            old(self).provider(id) is Some,
            old(self).content_providers.num_slots() < usize::MAX,
        ensures
            final(self).wf(),
            final(self).same_but_registers(old(self)),
            (r is Ok) == old(self).all_countable(old(self).provider(id)->Some_0.listing()),
            r matches Ok(c) ==> {
                let ids = old(self).provider(id)->Some_0.listing();
                &&& !old(self).content_providers.is_live(c.key_index() as int)
                &&& final(self).provider(c) matches Some(p) && p.copied_from(&old(self).provider(id)->Some_0)
                &&& recounted(old(self).songs, final(self).songs, |j: int| song_hits(ids, j))
                &&& exists|m: ContentRegister<ContentProvider, ContentProviderID>| #[trigger]
                    ContentRegister::alloc_post(
                        m,
                        final(self).content_providers,
                        final(self).content_providers.slot_val(c.key_index() as int),
                        c,
                    ) && recounted(old(self).content_providers, m, |j: int| provider_hits(ids, j))
            },
    {
        let cp = self.get_provider(id).cp_clone();
        let ids = cp.ids();
        self.register_all(&ids)?;
        let ghost m = self.content_providers;
        let c = self.content_providers.allocate(cp);
        proof {
            assert(ContentRegister::alloc_post(m, self.content_providers, self.content_providers.slot_val(c.key_index() as int), c));
        }
        Ok(c)
    }

    /// The provider `id` reaches. Panics where it reaches none.
    pub fn get_provider(&self, id: ContentProviderID) -> (r: &ContentProvider)
        requires
            self.provider(id) is Some,
        ensures
            self.provider(id) == Some(*r),
    {
        self.content_providers.get(id).unwrap()
    }

    /// The song `id` reaches. Panics where it reaches none.
    pub fn get_song(&self, id: SongID) -> (r: &Song)
        requires
            self.song(id) is Some,
        ensures
            self.song(id) == Some(*r),
    {
        self.songs.get(id).unwrap()
    }

    /// Counts one more id to what `id` names; the notifier is not counted.
    /// Panics where the slot of the id holds nothing.
    pub fn register(&mut self, id: GlobalContent)
        requires
            old(self).wf(),
            id matches GlobalContent::ID(ID::Song(s)) ==> old(self).songs.is_live(s.key_index() as int)
                && old(self).songs.slot_count(s.key_index() as int) < u32::MAX,
            id matches GlobalContent::ID(ID::ContentProvider(p)) ==> old(self).content_providers.is_live(
                p.key_index() as int,
            ) && old(self).content_providers.slot_count(p.key_index() as int) < u32::MAX,
        ensures
            final(self).wf(),
            final(self).same_but_registers(old(self)),
            match id {
                GlobalContent::ID(ID::Song(s)) => {
                    &&& ContentRegister::register_post(old(self).songs, final(self).songs, s.key_index() as int)
                    &&& final(self).content_providers == old(self).content_providers
                },
                GlobalContent::ID(ID::ContentProvider(p)) => {
                    &&& ContentRegister::register_post(
                        old(self).content_providers,
                        final(self).content_providers,
                        p.key_index() as int,
                    )
                    &&& final(self).songs == old(self).songs
                },
                GlobalContent::Notifier => {
                    &&& final(self).songs == old(self).songs
                    &&& final(self).content_providers == old(self).content_providers
                },
            },
    {
        match id {
            GlobalContent::ID(ID::Song(s)) => self.songs.register(s),
            GlobalContent::ID(ID::ContentProvider(p)) => self.content_providers.register(p),
            GlobalContent::Notifier => {},
        }
    }

    /// Counts one id fewer to a song; drops the song when none is left.
    pub fn unregister_song(&mut self, id: SongID) -> (r: Result<(), RegisterError>)
        requires
            old(self).wf(),
        ensures
            final(self).wf(),
            final(self).same_but_registers(old(self)),
            final(self).content_providers == old(self).content_providers,
            shrunk(old(self).songs, final(self).songs),
            ({
                let i = id.key_index() as int;
                if !old(self).songs.is_live(i) {
                    r == Err::<(), RegisterError>(RegisterError::NotRegistered(ID::Song(id))) && final(self).songs
                        == old(self).songs
                } else if old(self).songs.current_generation() == u64::MAX {
                    r == Err::<(), RegisterError>(RegisterError::GenerationsExhausted) && final(self).songs
                        == old(self).songs
                } else {
                    r is Ok && ContentRegister::unregister_post(
                        old(self).songs,
                        final(self).songs,
                        i,
                        dropped_value(old(self).songs, i),
                    )
                }
            }),
            gives_back(
                old(self).songs,
                old(self).content_providers,
                seq![ID::Song(id)],
                final(self).songs,
                final(self).content_providers,
                failure(r),
            ),
    {
        let index = id.index();
        let ghost init = Returning { songs: self.songs, providers: self.content_providers, pending: seq![ID::Song(id)] };
        proof {
            lemma_returns_start(init);
            assert(init.pending.last() == ID::Song(id));
        }
        if self.songs.get_id_count(index).is_none() {
            proof {
                assert(ends_at(seq![init], self.songs, self.content_providers, Some(RegisterError::NotRegistered(ID::Song(id)))));
            }
            return Err(RegisterError::NotRegistered(ID::Song(id)));
        }
        if self.songs.generation() == u64::MAX {
            proof {
                assert(ends_at(seq![init], self.songs, self.content_providers, Some(RegisterError::GenerationsExhausted)));
            }
            return Err(RegisterError::GenerationsExhausted);
        }
        let _ = self.songs.unregister(id);
        proof {
            lemma_unregister_shrinks(old(self).songs, self.songs, index as int, dropped_value(old(self).songs, index as int));
            let after = Returning { songs: self.songs, providers: self.content_providers, pending: Seq::empty() };
            assert(init.pending.drop_last() =~= after.pending);
            assert(return_step(init, after));
            lemma_returns_push(seq![init], after);
            assert(ends_at(seq![init].push(after), self.songs, self.content_providers, None));
        }
        Ok(())
    }

    /// Counts one id fewer to a provider; when none is left, drops it and
    /// gives back the ids it listed, its songs first, then its providers
    /// (each in turn, and what a dropped one listed before the next). Stops
    /// at the first id whose slot holds nothing, or when a drop finds no
    /// fresh generation left.
    pub fn unregister_provider(&mut self, id: ContentProviderID) -> (r: Result<(), RegisterError>)
        requires
            old(self).wf(),
        ensures
            final(self).wf(),
            final(self).same_but_registers(old(self)),
            shrunk(old(self).content_providers, final(self).content_providers),
            shrunk(old(self).songs, final(self).songs),
            ({
                let i = id.key_index() as int;
                let a = old(self).content_providers;
                if !a.is_live(i) {
                    &&& r == Err::<(), RegisterError>(RegisterError::NotRegistered(ID::ContentProvider(id)))
                    &&& final(self).content_providers == a
                    &&& final(self).songs == old(self).songs
                } else if a.current_generation() == u64::MAX {
                    &&& r == Err::<(), RegisterError>(RegisterError::GenerationsExhausted)
                    &&& final(self).content_providers == a
                    &&& final(self).songs == old(self).songs
                } else if a.slot_count(i) > 1 {
                    &&& r is Ok
                    &&& ContentRegister::unregister_post(a, final(self).content_providers, i, None)
                    &&& final(self).songs == old(self).songs
                } else {
                    !final(self).content_providers.is_live(i)
                }
            }),
            gives_back(
                old(self).songs,
                old(self).content_providers,
                seq![ID::ContentProvider(id)],
                final(self).songs,
                final(self).content_providers,
                failure(r),
            ),
    {
        let index = id.index();
        let ghost init = Returning {
            songs: self.songs,
            providers: self.content_providers,
            pending: seq![ID::ContentProvider(id)],
        };
        proof {
            lemma_returns_start(init);
            assert(init.pending.last() == ID::ContentProvider(id));
        }
        if self.content_providers.get_id_count(index).is_none() {
            proof {
                assert(ends_at(
                    seq![init],
                    self.songs,
                    self.content_providers,
                    Some(RegisterError::NotRegistered(ID::ContentProvider(id))),
                ));
            }
            return Err(RegisterError::NotRegistered(ID::ContentProvider(id)));
        }
        if self.content_providers.generation() == u64::MAX {
            proof {
                assert(ends_at(seq![init], self.songs, self.content_providers, Some(RegisterError::GenerationsExhausted)));
            }
            return Err(RegisterError::GenerationsExhausted);
        }
        let dropped = self.content_providers.unregister(id);
        proof {
            lemma_unregister_shrinks(
                old(self).content_providers,
                self.content_providers,
                index as int,
                dropped_value(old(self).content_providers, index as int),
            );
        }
        let mut pending: Vec<ID> = Vec::new();
        match dropped {
            None => {
                proof {
                    let after = Returning { songs: self.songs, providers: self.content_providers, pending: Seq::empty() };
                    assert(init.pending.drop_last() + Seq::<ID>::empty() =~= after.pending);
                    assert(return_step(init, after));
                    lemma_returns_push(seq![init], after);
                    assert(ends_at(seq![init].push(after), self.songs, self.content_providers, None));
                }
                return Ok(());
            },
            Some(cp) => {
                push_children(&mut pending, &cp);
            },
        }
        let ghost mut tr: Seq<Returning> = seq![init];
        proof {
            let after = Returning { songs: self.songs, providers: self.content_providers, pending: pending@ };
            assert(init.pending.drop_last() =~= Seq::<ID>::empty());
            assert(pending@ =~= init.pending.drop_last() + children_of(dropped_value(old(self).content_providers, index as int)->Some_0));
            assert(return_step(init, after));
            lemma_returns_push(seq![init], after);
            tr = seq![init].push(after);
        }
        let ghost mid_p = self.content_providers;
        let ghost mid_s = self.songs;
        while pending.len() > 0
            invariant
                self.wf(),
                self.same_but_registers(old(self)),
                shrunk(mid_p, self.content_providers),
                shrunk(mid_s, self.songs),
                shrunk(old(self).content_providers, mid_p),
                shrunk(old(self).songs, mid_s),
                !mid_p.is_live(index as int),
                old(self).content_providers.is_live(index as int),
                old(self).content_providers.current_generation() < u64::MAX,
                old(self).content_providers.slot_count(index as int) <= 1,
                index == id.key_index(),
                returns_along(tr),
                tr[0] == init,
                init == (Returning {
                    songs: old(self).songs,
                    providers: old(self).content_providers,
                    pending: seq![ID::ContentProvider(id)],
                }),
                tr.last() == (Returning { songs: self.songs, providers: self.content_providers, pending: pending@ }),
            decreases live_count(self.content_providers), pending@.len(),
        {
            let ghost cur = tr.last();
            let next = pending.pop().unwrap();
            proof {
                assert(cur.pending.last() == next);
                assert(cur.pending.drop_last() == pending@);
            }
            match next {
                ID::Song(s) => {
                    match self.unregister_song(s) {
                        Err(e) => {
                            proof {
                                assert(ends_at(tr, self.songs, self.content_providers, Some(e)));
                            }
                            return Err(e);
                        },
                        Ok(()) => {},
                    }
                    proof {
                        let after = Returning { songs: self.songs, providers: self.content_providers, pending: pending@ };
                        assert(return_step(cur, after));
                        lemma_returns_push(tr, after);
                        tr = tr.push(after);
                    }
                },
                ID::ContentProvider(p) => {
                    let pi = p.index();
                    if self.content_providers.get_id_count(pi).is_none() {
                        proof {
                            assert(ends_at(
                                tr,
                                self.songs,
                                self.content_providers,
                                Some(RegisterError::NotRegistered(ID::ContentProvider(p))),
                            ));
                        }
                        return Err(RegisterError::NotRegistered(ID::ContentProvider(p)));
                    }
                    if self.content_providers.generation() == u64::MAX {
                        proof {
                            assert(ends_at(tr, self.songs, self.content_providers, Some(RegisterError::GenerationsExhausted)));
                        }
                        return Err(RegisterError::GenerationsExhausted);
                    }
                    let ghost before = self.content_providers;
                    let ghost waiting = pending@;
                    let d = self.content_providers.unregister(p);
                    proof {
                        lemma_unregister_shrinks(before, self.content_providers, pi as int, dropped_value(before, pi as int));
                        if before.slot_count(pi as int) > 1 {
                            lemma_live_below_same(before, self.content_providers, before.num_slots());
                        } else {
                            lemma_live_in_range(before, pi as int);
                            lemma_live_below_drop(before, self.content_providers, pi as int, before.num_slots());
                        }
                    }
                    match d {
                        Some(cp) => {
                            push_children(&mut pending, &cp);
                        },
                        None => {
                            assert(pending@ =~= waiting + Seq::<ID>::empty());
                        },
                    }
                    proof {
                        let after = Returning { songs: self.songs, providers: self.content_providers, pending: pending@ };
                        assert(return_step(cur, after));
                        lemma_returns_push(tr, after);
                        tr = tr.push(after);
                    }
                },
            }
        }
        proof {
            assert(ends_at(tr, self.songs, self.content_providers, None));
        }
        Ok(())
    }

    /// Gives one id back to the registers: for a song or a provider as
    /// `unregister_song` and `unregister_provider` do; the notifier is not
    /// counted.
    pub fn unregister(&mut self, id: GlobalContent) -> (r: Result<(), RegisterError>)
        requires
            old(self).wf(),
        ensures
            final(self).wf(),
            final(self).same_but_registers(old(self)),
            shrunk(old(self).content_providers, final(self).content_providers),
            shrunk(old(self).songs, final(self).songs),
            id is Notifier ==> r is Ok && final(self).songs == old(self).songs && final(self).content_providers
                == old(self).content_providers,
            id matches GlobalContent::ID(x) ==> gives_back(
                old(self).songs,
                old(self).content_providers,
                seq![x],
                final(self).songs,
                final(self).content_providers,
                failure(r),
            ),
    {
        match id {
            GlobalContent::ID(ID::Song(s)) => self.unregister_song(s),
            GlobalContent::ID(ID::ContentProvider(p)) => self.unregister_provider(p),
            GlobalContent::Notifier => Ok(()),
        }
    }

    /// Puts a provider on top of the stack and counts the stack's id to it;
    /// says whether the provider still has to load what it lists.
    pub fn push_to_content_stack(&mut self, id: ContentProviderID) -> (needs_load: bool)
        requires
            old(self).wf(),
            old(self).provider(id) is Some,
            old(self).content_providers.slot_count(id.key_index() as int) < u32::MAX,
        ensures
            final(self).wf(),
            final(self).content_stack.entries() == old(self).content_stack.entries().push(
                GlobalContent::ID(ID::ContentProvider(id)),
            ),
            final(self).content_stack.state_view() == old(self).content_stack.state_view(),
            ContentRegister::register_post(
                old(self).content_providers,
                final(self).content_providers,
                id.key_index() as int,
            ),
            final(self).songs == old(self).songs,
            final(self).edit_manager == old(self).edit_manager,
            final(self).active_queue == old(self).active_queue,
            final(self).active_song == old(self).active_song,
            needs_load == old(self).provider(id)->Some_0.needs_load_spec(),
    {
        self.content_stack.push(GlobalContent::ID(ID::ContentProvider(id)));
        self.content_providers.register(id);
        self.get_provider(id).needs_load()
    }

    /// What stepping back on the stack does, answering `r`: the stack steps
    /// back (see `ContentStack::pop`), and an entry taken off gives its id
    /// back to the registers.
    pub open spec fn stack_popped(a: Self, b: Self, r: Result<Option<GlobalContent>, RegisterError>) -> bool {
        &&& b.edit_manager == a.edit_manager
        &&& b.active_queue == a.active_queue
        &&& b.active_song == a.active_song
        &&& shrunk(a.content_providers, b.content_providers)
        &&& shrunk(a.songs, b.songs)
        &&& a.content_stack.state_view() is Normal && a.content_stack.entries().len() > 1 ==> {
            &&& b.content_stack.entries() == a.content_stack.entries().drop_last()
            &&& (r is Ok ==> r == Ok::<Option<GlobalContent>, RegisterError>(
                Some(a.content_stack.entries().last()),
            ))
        }
        &&& a.content_stack.state_view() is Normal && a.content_stack.entries().len() > 1 ==> match a.content_stack.entries().last() {
            GlobalContent::ID(x) => gives_back(
                a.songs,
                a.content_providers,
                seq![x],
                b.songs,
                b.content_providers,
                match r {
                    Ok(_) => None::<RegisterError>,
                    Err(e) => Some(e),
                },
            ),
            GlobalContent::Notifier => r is Ok && b.songs == a.songs && b.content_providers == a.content_providers,
        }
        &&& ContentManager::stepped_back_one(a, b, r)
        &&& !(a.content_stack.state_view() is Normal && a.content_stack.entries().len() > 1) ==> {
            &&& r == Ok::<Option<GlobalContent>, RegisterError>(None)
            &&& b.content_stack.entries() == a.content_stack.entries()
            &&& b.songs == a.songs
            &&& b.content_providers == a.content_providers
        }
        &&& ContentStack::popped(
            a.content_stack,
            b.content_stack,
            if a.content_stack.state_view() is Normal && a.content_stack.entries().len() > 1 {
                Some(a.content_stack.entries().last())
            } else {
                None
            },
        )
    }

    /// Steps back on the stack (see `ContentStack::pop`); an entry taken off
    /// gives its id back to the registers.
    pub fn pop_content_stack(&mut self) -> (r: Result<Option<GlobalContent>, RegisterError>)
        requires
            old(self).wf(),
        ensures
            final(self).wf(),
            Self::stack_popped(*old(self), *final(self), r),
    {
        match self.content_stack.pop() {
            Some(GlobalContent::ID(ID::ContentProvider(p))) => {
                match self.unregister_provider(p) {
                    Ok(()) => Ok(Some(GlobalContent::ID(ID::ContentProvider(p)))),
                    Err(e) => Err(e),
                }
            },
            Some(id) => {
                match self.unregister(id) {
                    Ok(()) => Ok(Some(id)),
                    Err(e) => Err(e),
                }
            },
            None => Ok(None),
        }
    }

    /// Pushes a provider, first taking the top off when it is that provider
    /// already (that entry's id is not given back).
    pub fn maybe_push_to_content_stack(&mut self, id: ContentProviderID) -> (needs_load: bool)
        requires
            old(self).wf(),
            old(self).provider(id) is Some,
            old(self).content_providers.slot_count(id.key_index() as int) < u32::MAX,
        ensures
            final(self).wf(),
            ({
                let top = GlobalContent::ID(ID::ContentProvider(id));
                let s = old(self).content_stack;
                &&& final(self).content_stack.entries() == (if s.entries().last() == top && s.state_view() is Normal
                    && s.entries().len() > 1 {
                    s.entries().drop_last()
                } else {
                    s.entries()
                }).push(top)
                &&& if s.entries().last() == top {
                    exists|p: ContentStack, x: Option<GlobalContent>| #[trigger]
                        ContentStack::popped(s, p, x) && final(self).content_stack.state_view() == p.state_view()
                } else {
                    final(self).content_stack.state_view() == s.state_view()
                }
            }),
            ContentRegister::register_post(
                old(self).content_providers,
                final(self).content_providers,
                id.key_index() as int,
            ),
            final(self).songs == old(self).songs,
            final(self).edit_manager == old(self).edit_manager,
            final(self).active_queue == old(self).active_queue,
            final(self).active_song == old(self).active_song,
            needs_load == old(self).provider(id)->Some_0.needs_load_spec(),
    {
        if self.content_stack.last() == GlobalContent::ID(ID::ContentProvider(id)) {
            let ghost s = self.content_stack;
            let x = self.content_stack.pop();
            proof {
                assert(ContentStack::popped(s, self.content_stack, x));
            }
        }
        self.push_to_content_stack(id)
    }

    /// Each of `ids` names a slot that was empty in `a` and holds one id in
    /// `b`, no two of them the same slot; what was live in `a` stays live.
    pub open spec fn fresh_ids_held_once<T, P: ContentKey>(a: ContentRegister<T, P>, b: ContentRegister<T, P>, ids: Seq<P>) -> bool {
        &&& forall|k: int| 0 <= k < ids.len() ==> !a.is_live(#[trigger] ids[k].key_index() as int)
        &&& forall|k: int| 0 <= k < ids.len() ==> #[trigger] b.is_live(ids[k].key_index() as int) && b.slot_count(
            ids[k].key_index() as int,
        ) == 1
        &&& forall|j: int, k: int| 0 <= j < k < ids.len() ==> #[trigger] ids[j].key_index() != #[trigger] ids[k].key_index()
    }

    /// Stores the songs and providers a provider loaded, each in a fresh
    /// slot held once, and adds their ids to it, in order. The loader must
    /// reach a provider that lists songs (providers) where it is handed any.
    pub fn load_content_provider(&mut self, songs: Vec<Song>, providers: Vec<ContentProvider>, loader: ContentProviderID)
        requires
            old(self).wf(),
            old(self).provider(loader) is Some,
            songs@.len() > 0 ==> old(self).provider(loader)->Some_0.lists_songs(),
            providers@.len() > 0 ==> old(self).provider(loader)->Some_0.lists_providers(),
            old(self).songs.num_slots() + songs@.len() < usize::MAX,
            old(self).content_providers.num_slots() + providers@.len() < usize::MAX,
        ensures
            final(self).wf(),
            final(self).same_but_registers(old(self)),
            final(self).provider(loader) matches Some(p) && {
                let q = old(self).provider(loader)->Some_0;
                &&& p.songs_of().len() == q.songs_of().len() + songs@.len()
                &&& p.songs_of().take(q.songs_of().len() as int) == q.songs_of()
                &&& p.providers_of().len() == q.providers_of().len() + providers@.len()
                &&& p.providers_of().take(q.providers_of().len() as int) == q.providers_of()
                &&& p.selection_of() == q.selection_of()
                &&& forall|k: int| 0 <= k < songs@.len() ==> #[trigger] final(self).song(p.songs_of()[q.songs_of().len() + k])
                    == Some(songs@[k])
                &&& forall|k: int| 0 <= k < providers@.len() ==> #[trigger] final(self).provider(
                    p.providers_of()[q.providers_of().len() + k],
                ) == Some(providers@[k])
                &&& Self::fresh_ids_held_once(
                    old(self).songs,
                    final(self).songs,
                    p.songs_of().skip(q.songs_of().len() as int),
                )
                &&& Self::fresh_ids_held_once(
                    old(self).content_providers,
                    final(self).content_providers,
                    p.providers_of().skip(q.providers_of().len() as int),
                )
                &&& ContentRegister::allocated_in_turn(
                    old(self).songs,
                    final(self).songs,
                    songs@,
                    p.songs_of().skip(q.songs_of().len() as int),
                )
                &&& exists|m: ContentRegister<ContentProvider, ContentProviderID>| #[trigger]
                    ContentRegister::allocated_in_turn(
                        old(self).content_providers,
                        m,
                        providers@,
                        p.providers_of().skip(q.providers_of().len() as int),
                    ) && values_changed(m, final(self).content_providers, set![loader.key_index() as int])
            },
    {
        let ghost songs0 = songs@;
        let ghost providers0 = providers@;
        let mut song_ids: Vec<SongID> = Vec::new();
        let mut songs = songs;
        let ghost mut sregs: Seq<ContentRegister<Song, SongID>> = seq![self.songs];
        proof {
            assert(songs@ =~= songs0.subrange(0, songs0.len() as int));
            assert(songs0.take(0) =~= Seq::<Song>::empty());
        }
        while songs.len() > 0
            invariant
                self.wf(),
                self.same_but_registers(old(self)),
                self.content_providers == old(self).content_providers,
                song_ids@.len() + songs@.len() == songs0.len(),
                songs@ == songs0.subrange(song_ids@.len() as int, songs0.len() as int),
                self.songs.num_slots() <= old(self).songs.num_slots() + song_ids@.len(),
                old(self).songs.num_slots() + songs0.len() < usize::MAX,
                forall|k: int| 0 <= k < song_ids@.len() ==> #[trigger] self.song(song_ids@[k]) == Some(songs0[k]),
                ContentRegister::alloc_chain(sregs, songs0.take(song_ids@.len() as int), song_ids@),
                sregs[0] == old(self).songs,
                sregs.last() == self.songs,
                Self::fresh_ids_held_once(old(self).songs, self.songs, song_ids@),
                forall|j: int| #[trigger] old(self).songs.is_live(j) ==> self.songs.is_live(j),
            decreases songs@.len(),
        {
            let s = songs.remove(0);
            proof {
                assert(s == songs0[song_ids@.len() as int]);
            }
            let ghost before = self.songs;
            let ghost before_m = *self;
            let ghost n = song_ids@.len() as int;
            let id = self.songs.allocate(s);
            proof {
                lemma_alloc_chain_push(sregs, songs0.take(n), song_ids@, self.songs, s, id);
                assert(songs0.take(n).push(s) =~= songs0.take(n + 1));
                sregs = sregs.push(self.songs);
                lemma_fresh_push(old(self).songs, before, self.songs, song_ids@, s, id);
            }
            proof {
                assert forall|k: int| 0 <= k < song_ids@.len() implies #[trigger] self.song(song_ids@[k]) == Some(songs0[k]) by {
                    let x = song_ids@[k];
                    assert(before_m.song(song_ids@[k]) == Some(songs0[k]));
                    assert(before.is_live(x.key_index() as int));
                    assert(self.songs.slot_generation(x.key_index() as int) == before.slot_generation(x.key_index() as int));
                }
            }
            song_ids.push(id);
            proof {
                assert(songs@ =~= songs0.subrange(song_ids@.len() as int, songs0.len() as int));
            }
        }
        let ghost m1 = *self;
        let mut provider_ids: Vec<ContentProviderID> = Vec::new();
        let mut providers = providers;
        let ghost mut pregs: Seq<ContentRegister<ContentProvider, ContentProviderID>> = seq![self.content_providers];
        proof {
            assert(providers@ =~= providers0.subrange(0, providers0.len() as int));
            assert(providers0.take(0) =~= Seq::<ContentProvider>::empty());
            assert(song_ids@.len() == songs0.len());
            assert(songs0.take(songs0.len() as int) =~= songs0);
        }
        while providers.len() > 0
            invariant
                self.wf(),
                self.same_but_registers(old(self)),
                self.songs == m1.songs,
                provider_ids@.len() + providers@.len() == providers0.len(),
                providers@ == providers0.subrange(provider_ids@.len() as int, providers0.len() as int),
                self.content_providers.num_slots() <= old(self).content_providers.num_slots() + provider_ids@.len(),
                old(self).content_providers.num_slots() + providers0.len() < usize::MAX,
                forall|k: int| 0 <= k < provider_ids@.len() ==> #[trigger] self.provider(provider_ids@[k]) == Some(providers0[k]),
                self.provider(loader) == old(self).provider(loader),
                old(self).provider(loader) is Some,
                forall|k: int| 0 <= k < provider_ids@.len() ==> (#[trigger] provider_ids@[k]).key_index() != loader.key_index(),
                ContentRegister::alloc_chain(pregs, providers0.take(provider_ids@.len() as int), provider_ids@),
                pregs[0] == old(self).content_providers,
                pregs.last() == self.content_providers,
                Self::fresh_ids_held_once(old(self).content_providers, self.content_providers, provider_ids@),
                forall|j: int| #[trigger] old(self).content_providers.is_live(j) ==> self.content_providers.is_live(j),
            decreases providers@.len(),
        {
            let c = providers.remove(0);
            proof {
                assert(c == providers0[provider_ids@.len() as int]);
            }
            let ghost before = self.content_providers;
            let ghost before_m = *self;
            let ghost n = provider_ids@.len() as int;
            let id = self.content_providers.allocate(c);
            proof {
                lemma_alloc_chain_push(pregs, providers0.take(n), provider_ids@, self.content_providers, c, id);
                assert(providers0.take(n).push(c) =~= providers0.take(n + 1));
                pregs = pregs.push(self.content_providers);
                lemma_fresh_push(old(self).content_providers, before, self.content_providers, provider_ids@, c, id);
            }
            proof {
                assert forall|k: int| 0 <= k < provider_ids@.len() implies #[trigger] self.provider(provider_ids@[k]) == Some(providers0[k]) by {
                    let x = provider_ids@[k];
                    assert(before_m.provider(provider_ids@[k]) == Some(providers0[k]));
                    assert(before.is_live(x.key_index() as int));
                    assert(self.content_providers.slot_generation(x.key_index() as int) == before.slot_generation(x.key_index() as int));
                }
                assert(before_m.provider(loader) is Some);
                assert(before.is_live(loader.key_index() as int));
                assert(self.content_providers.slot_generation(loader.key_index() as int) == before.slot_generation(loader.key_index() as int));
            }
            proof {
                assert(id.key_index() != loader.key_index());
            }
            provider_ids.push(id);
            proof {
                assert(providers@ =~= providers0.subrange(provider_ids@.len() as int, providers0.len() as int));
            }
        }
        let ghost mid = *self;
        let ghost q = old(self).provider(loader)->Some_0;
        let cp = self.content_providers.get_mut(loader).unwrap();
        let mut k: usize = 0;
        while k < song_ids.len()
            invariant
                k <= song_ids@.len(),
                song_ids@.len() == songs0.len(),
                songs0.len() > 0 ==> cp.lists_songs(),
                providers0.len() > 0 ==> cp.lists_providers(),
                cp.songs_of() == q.songs_of() + song_ids@.take(k as int),
                cp.providers_of() == q.providers_of(),
                cp.selection_of() == q.selection_of(),
            decreases song_ids@.len() - k,
        {
            cp.add_song(song_ids[k]);
            proof {
                assert(q.songs_of() + song_ids@.take(k + 1) =~= (q.songs_of() + song_ids@.take(k as int)).push(song_ids@[k as int]));
            }
            k = k + 1;
        }
        let mut j: usize = 0;
        while j < provider_ids.len()
            invariant
                j <= provider_ids@.len(),
                provider_ids@.len() == providers0.len(),
                providers0.len() > 0 ==> cp.lists_providers(),
                cp.songs_of() == q.songs_of() + song_ids@,
                cp.providers_of() == q.providers_of() + provider_ids@.take(j as int),
                cp.selection_of() == q.selection_of(),
            decreases provider_ids@.len() - j,
        {
            cp.add_provider(provider_ids[j]);
            proof {
                assert(q.providers_of() + provider_ids@.take(j + 1) =~= (q.providers_of() + provider_ids@.take(j as int)).push(provider_ids@[j as int]));
            }
            j = j + 1;
        }
        proof {
            assert(song_ids@.take(song_ids@.len() as int) =~= song_ids@);
            assert(provider_ids@.take(provider_ids@.len() as int) =~= provider_ids@);
        }
        let ghost p = *cp;
        proof {
            let n = q.songs_of().len();
            let m = q.providers_of().len();
            assert(p.songs_of().skip(n as int) =~= song_ids@);
            assert(p.providers_of().skip(m as int) =~= provider_ids@);
            assert(providers0.take(providers0.len() as int) =~= providers0);
            assert(ContentRegister::alloc_chain(sregs, songs0, song_ids@));
            assert(ContentRegister::alloc_chain(pregs, providers0, provider_ids@));
            let li = loader.key_index() as int;
            lemma_values_unchanged(mid.content_providers);
            lemma_values_changed_then(mid.content_providers, mid.content_providers, self.content_providers, Set::empty(), li);
            assert(set![li] =~= Set::<int>::empty().insert(li));
            assert forall|k: int| 0 <= k < provider_ids@.len() implies #[trigger] self.content_providers.is_live(
                provider_ids@[k].key_index() as int,
            ) && self.content_providers.slot_count(provider_ids@[k].key_index() as int) == 1 by {
                let x = provider_ids@[k].key_index() as int;
                assert(mid.content_providers.is_live(x));
                assert(self.content_providers.slot_generation(x) == mid.content_providers.slot_generation(x));
            }
            assert forall|j: int| #[trigger] old(self).content_providers.is_live(j) implies self.content_providers.is_live(j) by {
                assert(mid.content_providers.is_live(j));
                if j != li {
                    assert(self.content_providers.slot_generation(j) == mid.content_providers.slot_generation(j));
                }
            }
            assert(Self::fresh_ids_held_once(old(self).songs, self.songs, song_ids@));
            assert(Self::fresh_ids_held_once(old(self).content_providers, self.content_providers, provider_ids@));
            assert(ContentRegister::allocated_in_turn(old(self).songs, self.songs, songs0, song_ids@));
            assert(ContentRegister::allocated_in_turn(old(self).content_providers, mid.content_providers, providers0, provider_ids@));
            assert(values_changed(mid.content_providers, self.content_providers, set![li]));
            assert(p.songs_of().take(n as int) =~= q.songs_of());
            assert(p.providers_of().take(m as int) =~= q.providers_of());
            assert(self.provider(loader) == Some(p));
            assert forall|k: int| 0 <= k < songs0.len() implies #[trigger] self.song(p.songs_of()[n + k]) == Some(songs0[k]) by {
                assert(p.songs_of()[n + k] == song_ids@[k]);
                assert(m1.song(song_ids@[k]) == Some(songs0[k]));
            }
            assert forall|k: int| 0 <= k < providers0.len() implies #[trigger] self.provider(p.providers_of()[m + k]) == Some(providers0[k]) by {
                let x = provider_ids@[k];
                assert(p.providers_of()[m + k] == x);
                assert(mid.provider(x) == Some(providers0[k]));
                assert(x.key_index() != loader.key_index());
                assert(mid.content_providers.is_live(x.key_index() as int));
                assert(self.content_providers.slot_generation(x.key_index() as int) == mid.content_providers.slot_generation(x.key_index() as int));
            }
        }
    }

    /// Takes ids out of a provider, each in turn at its first occurrence;
    /// returns those it did not list at their turn. The ids are not given
    /// back to the registers. Panics where the provider reaches nothing, or
    /// is handed a song (provider) but lists none.
    pub fn remove_from_provider(&mut self, ids: Vec<ID>, from: ContentProviderID) -> (missing: Vec<ID>)
        requires
            old(self).wf(),
            old(self).provider(from) is Some,
            forall|k: int| 0 <= k < ids@.len() ==> (#[trigger] ids@[k] is Song) ==> old(self).provider(from)->Some_0.lists_songs(),
            forall|k: int| 0 <= k < ids@.len() ==> (#[trigger] ids@[k] is ContentProvider) ==> old(self).provider(from)->Some_0.lists_providers(),
        ensures
            final(self).wf(),
            final(self).same_but_registers(old(self)),
            final(self).songs == old(self).songs,
            final(self).provider(from) matches Some(p) && {
                let q = old(self).provider(from)->Some_0;
                &&& (p.songs_of(), p.providers_of(), missing@) == removed_ids(q.songs_of(), q.providers_of(), ids@)
            },
            values_changed(old(self).content_providers, final(self).content_providers, set![from.key_index() as int]),
    {
        let ghost q = old(self).provider(from)->Some_0;
        let ghost before = self.content_providers;
        let cp = self.content_providers.get_mut(from).unwrap();
        let mut missing: Vec<ID> = Vec::new();
        let mut k: usize = 0;
        while k < ids.len()
            invariant
                k <= ids@.len(),
                cp.lists_songs() == q.lists_songs(),
                cp.lists_providers() == q.lists_providers(),
                forall|i: int| 0 <= i < ids@.len() ==> (#[trigger] ids@[i] is Song) ==> q.lists_songs(),
                forall|i: int| 0 <= i < ids@.len() ==> (#[trigger] ids@[i] is ContentProvider) ==> q.lists_providers(),
                (cp.songs_of(), cp.providers_of(), missing@) == removed_ids(q.songs_of(), q.providers_of(), ids@.take(k as int)),
            decreases ids@.len() - k,
        {
            let id = ids[k];
            proof {
                assert(ids@.take(k + 1).drop_last() =~= ids@.take(k as int));
                assert(ids@.take(k + 1).last() == id);
            }
            match id {
                ID::Song(s) => {
                    proof {
                        assert(ids@[k as int] is Song);
                    }
                    if cp.remove_song(s).is_none() {
                        missing.push(id);
                    }
                },
                ID::ContentProvider(c) => {
                    proof {
                        assert(ids@[k as int] is ContentProvider);
                    }
                    if cp.remove_provider(c).is_none() {
                        missing.push(id);
                    }
                },
            }
            k = k + 1;
        }
        proof {
            assert(ids@.take(ids@.len() as int) =~= ids@);
        }
        proof {
            lemma_values_unchanged(before);
            lemma_values_changed_then(before, before, self.content_providers, Set::empty(), from.key_index() as int);
            assert(set![from.key_index() as int] =~= Set::<int>::empty().insert(from.key_index() as int));
        }
        missing
    }

    /// Stores a provider and adds its id to another. Panics where that one
    /// reaches nothing or lists no providers.
    pub fn add_cp_to_cp(&mut self, id: ContentProviderID, cp: ContentProvider) -> (loaded_id: ContentProviderID)
        requires
            old(self).wf(),
            old(self).provider(id) matches Some(p) && p.lists_providers(),
            old(self).content_providers.num_slots() < usize::MAX,
        ensures
            final(self).wf(),
            final(self).same_but_registers(old(self)),
            final(self).songs == old(self).songs,
            final(self).provider(loaded_id) == Some(cp),
            final(self).content_providers.slot_count(loaded_id.key_index() as int) == 1,
            !old(self).content_providers.is_live(loaded_id.key_index() as int),
            final(self).provider(id) matches Some(p) && {
                let q = old(self).provider(id)->Some_0;
                &&& p.providers_of() == q.providers_of().push(loaded_id)
                &&& p.songs_of() == q.songs_of()
                &&& p.selection_of() == q.selection_of()
            },
    {
        let ghost before = self.content_providers;
        let ghost q = old(self).provider(id)->Some_0;
        let loaded_id = self.content_providers.allocate(cp);
        proof {
            assert(before.is_live(id.key_index() as int));
            assert(self.content_providers.slot_generation(id.key_index() as int) == before.slot_generation(id.key_index() as int));
            assert(loaded_id.key_index() != id.key_index());
        }
        let ghost mid = self.content_providers;
        let p = self.content_providers.get_mut(id).unwrap();
        p.add_provider(loaded_id);
        proof {
            assert(mid.is_live(loaded_id.key_index() as int));
        }
        let ghost fp = *p;
        proof {
            assert(self.content_providers.slot_generation(loaded_id.key_index() as int) == mid.slot_generation(loaded_id.key_index() as int));
            assert(self.content_providers.slot_count(loaded_id.key_index() as int) == mid.slot_count(loaded_id.key_index() as int));
        }
        loaded_id
    }

    /// Stepping back from a provider on top of the stack in the normal state
    /// that is held more than once: the top comes off, the provider counts
    /// one id fewer, nothing else changes.
    pub open spec fn stepped_back_one(a: Self, b: Self, r: Result<Option<GlobalContent>, RegisterError>) -> bool {
        (a.content_stack.state_view() is Normal && a.content_stack.entries().len() > 1 && a.top_provider() is Some
            && a.content_providers.is_live(a.top_provider()->Some_0.key_index() as int)
            && a.content_providers.slot_count(a.top_provider()->Some_0.key_index() as int) > 1
            && a.content_providers.current_generation() < u64::MAX) ==> {
            let p = a.top_provider()->Some_0;
            &&& r == Ok::<Option<GlobalContent>, RegisterError>(Some(GlobalContent::ID(ID::ContentProvider(p))))
            &&& b.content_stack.entries() == a.content_stack.entries().drop_last()
            &&& ContentRegister::unregister_post(a.content_providers, b.content_providers, p.key_index() as int, None)
            &&& b.songs == a.songs
        }
    }

    /// The provider on top of the stack, if a provider is.
    pub open spec fn top_provider(&self) -> Option<ContentProviderID> {
        match self.content_stack.entries().last() {
            GlobalContent::ID(ID::ContentProvider(p)) => Some(p),
            _ => None,
        }
    }

    /// Moving the selection is handled in the state shown: a provider on top
    /// of the stack in the normal state, a provider's edit screen or menu.
    pub open spec fn selection_movable(&self) -> bool {
        match self.content_stack.state_view() {
            StateView::Normal => self.top_provider() matches Some(p) && self.provider(p) matches Some(cp)
                && cp.providers_of().len() + cp.songs_of().len() <= usize::MAX,
            StateView::Edit { ctx, id } => {
                &&& ctx.len() > 0
                &&& id matches GlobalContent::ID(ID::ContentProvider(p)) && self.provider(p) matches Some(cp)
                    && cp.is_editable_spec() && cp.edit_context_ok(ctx)
            },
            StateView::Menu { ctx, id } => {
                &&& ctx.len() > 0
                &&& id matches GlobalContent::ID(ID::ContentProvider(p)) && self.provider(p) matches Some(cp)
                    && cp.has_menu_spec()
            },
            StateView::GlobalMenu(_) => false,
        }
    }

    /// What moving the selection down does (see `increment_selection`).
    pub open spec fn selection_incremented(a: Self, b: Self) -> bool {
        &&& b.songs == a.songs
        &&& b.content_stack.entries() == a.content_stack.entries()
        &&& b.edit_manager == a.edit_manager
        &&& b.active_queue == a.active_queue
        &&& b.active_song == a.active_song
        &&& match a.content_stack.state_view() {
            StateView::Normal => {
                let p = a.top_provider()->Some_0;
                let q = a.provider(p)->Some_0;
                &&& b.content_stack.state_view() is Normal
                &&& b.provider(p) matches Some(cp) && {
                    &&& cp.selection_of() == stepped_down(q.selection_of(), q.listing().len() as usize)
                    &&& cp.same_lists(&q)
                }
                &&& ContentRegister::same_except(
                    a.content_providers,
                    b.content_providers,
                    p.key_index() as int,
                )
            },
            StateView::Edit { ctx, id } => {
                let q = a.provider(id->ID_0->ContentProvider_0)->Some_0;
                let last = ctx.last()@;
                &&& b.content_stack.state_view() == (StateView::Edit {
                    ctx: ctx.update(ctx.len() - 1, SelectedIndex { index: stepped_down(last, q.editables_count(ctx) as usize) }),
                    id,
                })
                &&& b.content_providers == a.content_providers
            },
            StateView::Menu { ctx, id } => {
                let last = ctx.last()@;
                &&& b.content_stack.state_view() == (StateView::Menu {
                    ctx: ctx.update(ctx.len() - 1, SelectedIndex { index: stepped_down(last, menu_options().len() as usize) }),
                    id,
                })
                &&& b.content_providers == a.content_providers
            },
            StateView::GlobalMenu(_) => true,
        }
    }

    /// Moves the selection of what is shown one entry down, unless it is on
    /// the last: the top provider's in the normal state, the innermost level
    /// of an edit screen or menu otherwise.
    pub fn increment_selection(&mut self)
        requires
            old(self).wf(),
            old(self).selection_movable(),
        ensures
            final(self).wf(),
            Self::selection_incremented(*old(self), *final(self)),
    {
        let n: usize = match self.content_stack.get_state() {
            ContentState::Normal => 0,
            ContentState::Edit { ctx, id } => match id {
                GlobalContent::ID(ID::ContentProvider(p)) => self.content_providers.get(*p).unwrap().num_editables(ctx),
                _ => 0,
            },
            ContentState::Menu { ctx, id } => match id {
                GlobalContent::ID(ID::ContentProvider(p)) => self.content_providers.get(*p).unwrap().num_options(),
                _ => 0,
            },
            ContentState::GlobalMenu(_) => 0,
        };
        let top = self.content_stack.last();
        match self.content_stack.get_state_mut() {
            ContentState::Normal => {
                match top {
                    GlobalContent::ID(ID::ContentProvider(p)) => {
                        let cp = self.content_providers.get_mut(p).unwrap();
                        let _ = cp.selection_increment();
                    },
                    _ => {},
                }
            },
            ContentState::Edit { ctx, .. } => {
                let i = ctx.last_mut();
                let _ = selection_increment(i, n);
            },
            ContentState::Menu { ctx, .. } => {
                let i = ctx.last_mut();
                let _ = selection_increment(i, n);
            },
            ContentState::GlobalMenu(_) => {},
        }
    }

    /// What moving the selection up does (see `decrement_selection`).
    pub open spec fn selection_decremented(a: Self, b: Self) -> bool {
        &&& b.songs == a.songs
        &&& b.content_stack.entries() == a.content_stack.entries()
        &&& b.edit_manager == a.edit_manager
        &&& b.active_queue == a.active_queue
        &&& b.active_song == a.active_song
        &&& match a.content_stack.state_view() {
            StateView::Normal => {
                let p = a.top_provider()->Some_0;
                let q = a.provider(p)->Some_0;
                &&& b.content_stack.state_view() is Normal
                &&& b.provider(p) matches Some(cp) && {
                    &&& cp.selection_of() == stepped_up(q.selection_of())
                    &&& cp.same_lists(&q)
                }
                &&& ContentRegister::same_except(
                    a.content_providers,
                    b.content_providers,
                    p.key_index() as int,
                )
            },
            StateView::Edit { ctx, id } => {
                &&& b.content_stack.state_view() == (StateView::Edit {
                    ctx: ctx.update(ctx.len() - 1, SelectedIndex { index: stepped_up(ctx.last()@) }),
                    id,
                })
                &&& b.content_providers == a.content_providers
            },
            StateView::Menu { ctx, id } => {
                &&& b.content_stack.state_view() == (StateView::Menu {
                    ctx: ctx.update(ctx.len() - 1, SelectedIndex { index: stepped_up(ctx.last()@) }),
                    id,
                })
                &&& b.content_providers == a.content_providers
            },
            StateView::GlobalMenu(_) => true,
        }
    }

    /// Moves the selection of what is shown one entry up, unless it is on
    /// the first: the top provider's in the normal state, the innermost level
    /// of an edit screen or menu otherwise.
    pub fn decrement_selection(&mut self)
        requires
            old(self).wf(),
            match old(self).content_stack.state_view() {
                StateView::Normal => old(self).top_provider() matches Some(p) && old(self).provider(p) is Some,
                StateView::Edit { ctx, .. } => ctx.len() > 0,
                StateView::Menu { ctx, .. } => ctx.len() > 0,
                StateView::GlobalMenu(_) => false,
            },
        ensures
            final(self).wf(),
            Self::selection_decremented(*old(self), *final(self)),
    {
        let top = self.content_stack.last();
        match self.content_stack.get_state_mut() {
            ContentState::Normal => {
                match top {
                    GlobalContent::ID(ID::ContentProvider(p)) => {
                        let cp = self.content_providers.get_mut(p).unwrap();
                        let _ = cp.selection_decrement();
                    },
                    _ => {},
                }
            },
            ContentState::Edit { ctx, .. } => {
                let i = ctx.last_mut();
                let _ = selection_decrement(i);
            },
            ContentState::Menu { ctx, .. } => {
                let i = ctx.last_mut();
                let _ = selection_decrement(i);
            },
            ContentState::GlobalMenu(_) => {},
        }
    }

    /// What toggling the yank of the selected entry does (see
    /// `toggle_yank_selected`).
    pub open spec fn yank_toggled(a: Self, b: Self) -> bool {
        &&& b.songs == a.songs
        &&& b.content_providers == a.content_providers
        &&& b.content_stack == a.content_stack
        &&& b.edit_manager.edit_stack == a.edit_manager.edit_stack
        &&& b.edit_manager.undo_stack == a.edit_manager.undo_stack
        &&& b.active_queue == a.active_queue
        &&& b.active_song == a.active_song
        &&& !(a.content_stack.state_view() is Normal) ==> b.edit_manager.yanker
            == a.edit_manager.yanker
        &&& a.content_stack.state_view() is Normal ==> {
            let p = a.top_provider()->Some_0;
            let q = a.provider(p)->Some_0;
            let id = q.listing()[q.selection_of() as int];
            let index = q.selection_of();
            (b.edit_manager.yanker matches Some(y) && match a.edit_manager.yanker {
                Some(y0) => toggled(y0, y, id, p, index),
                None => y.items@ == single_yank(id, index) && y.source() == p,
            })
        }
    }

    /// In the normal state, toggles the yank of the selected entry of the
    /// provider on top (starting a yank from it where there is none);
    /// otherwise nothing changes.
    pub fn toggle_yank_selected(&mut self)
        requires
            old(self).wf(),
            old(self).content_stack.state_view() is Normal ==> (old(self).top_provider() matches Some(p) && old(
                self,
            ).provider(p) matches Some(q) && q.selection_of() < q.listing().len()),
        ensures
            final(self).wf(),
            Self::yank_toggled(*old(self), *final(self)),
    {
        let normal = match self.content_stack.get_state() {
            ContentState::Normal => true,
            _ => false,
        };
        if !normal {
            return;
        }
        let p = match self.content_stack.last() {
            GlobalContent::ID(ID::ContentProvider(p)) => p,
            _ => {
                return;
            },
        };
        let cp = self.get_provider(p);
        let selected_id = cp.get_selected();
        let index = cp.get_selected_index().selected_index();
        match &mut self.edit_manager.yanker {
            Some(y) => y.toggle_yank(selected_id, p, index),
            None => {
                self.edit_manager.yanker = Some(Yanker::new(p, selected_id, index));
            },
        }
    }

    /// Opens the menu of a provider that has one; anything else changes nothing.
    pub fn open_menu_for(&mut self, id: GlobalContent)
        requires
            old(self).wf(),
            id matches GlobalContent::ID(ID::ContentProvider(p)) && old(self).provider(p) is Some,
        ensures
            final(self).wf(),
            final(self).songs == old(self).songs,
            final(self).content_providers == old(self).content_providers,
            final(self).content_stack.entries() == old(self).content_stack.entries(),
            final(self).edit_manager == old(self).edit_manager,
            final(self).active_queue == old(self).active_queue,
            final(self).active_song == old(self).active_song,
            final(self).content_stack.state_view() == if old(self).provider(id->ID_0->ContentProvider_0)->Some_0.has_menu_spec() {
                StateView::Menu { ctx: seq![SelectedIndex { index: 0 }], id }
            } else {
                old(self).content_stack.state_view()
            },
    {
        match id {
            GlobalContent::ID(ID::ContentProvider(p)) => {
                if self.get_provider(p).has_menu() {
                    self.content_stack.open_menu(id);
                }
            },
            _ => {},
        }
    }

    /// Opens the edit screen of a provider that has one; anything else
    /// changes nothing.
    pub fn open_edit_for(&mut self, id: GlobalContent)
        requires
            old(self).wf(),
            id matches GlobalContent::ID(ID::ContentProvider(p)) && old(self).provider(p) is Some,
        ensures
            final(self).wf(),
            final(self).songs == old(self).songs,
            final(self).content_providers == old(self).content_providers,
            final(self).content_stack.entries() == old(self).content_stack.entries(),
            final(self).edit_manager == old(self).edit_manager,
            final(self).active_queue == old(self).active_queue,
            final(self).active_song == old(self).active_song,
            final(self).content_stack.state_view() == if old(self).provider(id->ID_0->ContentProvider_0)->Some_0.is_editable_spec() {
                StateView::Edit { ctx: seq![SelectedIndex { index: 0 }], id }
            } else {
                old(self).content_stack.state_view()
            },
    {
        match id {
            GlobalContent::ID(ID::ContentProvider(p)) => {
                if self.get_provider(p).is_editable() {
                    self.content_stack.open_edit(id);
                }
            },
            _ => {},
        }
    }

    /// What counting one more id to the item `id` names does, answering
    /// `r`: nothing and an error where its slot holds nothing or its count
    /// is at the largest; the notifier is not counted.
    pub open spec fn counted_once_more(a: Self, b: Self, id: GlobalContent, r: Result<(), RegisterError>) -> bool {
        match id {
            GlobalContent::ID(ID::Song(s)) => {
                let i = s.key_index() as int;
                &&& b.content_providers == a.content_providers
                &&& if !a.songs.is_live(i) {
                    r == Err::<(), RegisterError>(RegisterError::NotRegistered(ID::Song(s))) && b.songs == a.songs
                } else if a.songs.slot_count(i) == u32::MAX {
                    r == Err::<(), RegisterError>(RegisterError::CountExhausted(ID::Song(s))) && b.songs == a.songs
                } else {
                    r is Ok && ContentRegister::register_post(a.songs, b.songs, i)
                }
            },
            GlobalContent::ID(ID::ContentProvider(p)) => {
                let i = p.key_index() as int;
                &&& b.songs == a.songs
                &&& if !a.content_providers.is_live(i) {
                    r == Err::<(), RegisterError>(RegisterError::NotRegistered(ID::ContentProvider(p)))
                        && b.content_providers == a.content_providers
                } else if a.content_providers.slot_count(i) == u32::MAX {
                    r == Err::<(), RegisterError>(RegisterError::CountExhausted(ID::ContentProvider(p)))
                        && b.content_providers == a.content_providers
                } else {
                    r is Ok && ContentRegister::register_post(a.content_providers, b.content_providers, i)
                }
            },
            GlobalContent::Notifier => r is Ok && b.songs == a.songs && b.content_providers
                == a.content_providers,
        }
    }

    /// Counts one more id to what `id` names, where its slot holds an item
    /// that can count one more; the notifier is not counted.
    pub fn try_register(&mut self, id: GlobalContent) -> (r: Result<(), RegisterError>)
        requires
            old(self).wf(),
        ensures
            final(self).wf(),
            final(self).same_but_registers(old(self)),
            Self::counted_once_more(*old(self), *final(self), id, r),
    {
        match id {
            GlobalContent::ID(ID::Song(s)) => {
                match self.songs.get_id_count(s.index()) {
                    None => Err(RegisterError::NotRegistered(ID::Song(s))),
                    Some((_, c)) => {
                        if c == u32::MAX {
                            Err(RegisterError::CountExhausted(ID::Song(s)))
                        } else {
                            self.songs.register(s);
                            Ok(())
                        }
                    },
                }
            },
            GlobalContent::ID(ID::ContentProvider(p)) => {
                match self.content_providers.get_id_count(p.index()) {
                    None => Err(RegisterError::NotRegistered(ID::ContentProvider(p))),
                    Some((_, c)) => {
                        if c == u32::MAX {
                            Err(RegisterError::CountExhausted(ID::ContentProvider(p)))
                        } else {
                            self.content_providers.register(p);
                            Ok(())
                        }
                    },
                }
            },
            GlobalContent::Notifier => Ok(()),
        }
    }

    /// Makes `id` the song playing: its id is counted as held, and the one
    /// held for the song playing before is given back.
    pub fn set_active_song(&mut self, id: SongID) -> (r: Result<(), RegisterError>)
        requires
            old(self).wf(),
        ensures
            final(self).wf(),
            Self::made_active_song(*old(self), *final(self), id, r),
    {
        self.try_register(GlobalContent::ID(ID::Song(id)))?;
        let ghost mid = self.songs;
        match self.active_song {
            Some(old_id) => {
                let res = self.unregister_song(old_id);
                proof {
                    assert(ContentRegister::register_post(old(self).songs, mid, id.key_index() as int));
                }
                res?;
            },
            None => {
                assert(ContentRegister::register_post(old(self).songs, mid, id.key_index() as int));
            },
        }
        self.active_song = Some(id);
        Ok(())
    }

    /// Makes `id` the queue playing: its id is counted as held, and the one
    /// held for the queue playing before is given back.
    fn set_active_queue(&mut self, id: ContentProviderID) -> (r: Result<(), RegisterError>)
        requires
            old(self).wf(),
        ensures
            final(self).wf(),
            final(self).content_stack == old(self).content_stack,
            final(self).edit_manager == old(self).edit_manager,
            final(self).active_song == old(self).active_song,
            r is Ok ==> final(self).active_queue == Some(id),
            r is Err ==> final(self).active_queue == old(self).active_queue,
            Self::made_active_queue(*old(self), *final(self), id, r),
    {
        self.try_register(GlobalContent::ID(ID::ContentProvider(id)))?;
        let ghost mid = self.content_providers;
        match self.active_queue {
            Some(old_id) => {
                let res = self.unregister_provider(old_id);
                proof {
                    assert(ContentRegister::register_post(old(self).content_providers, mid, id.key_index() as int));
                }
                res?;
            },
            None => {
                assert(ContentRegister::register_post(old(self).content_providers, mid, id.key_index() as int));
            },
        }
        self.active_queue = Some(id);
        Ok(())
    }

    /// The queue provider: the first queue-provider entry of the main provider.
    pub open spec fn queue_provider_of(&self) -> Option<ContentProviderID> {
        match self.content_stack.entries()[0] {
            GlobalContent::ID(ID::ContentProvider(m)) => match self.provider(m) {
                Some(ContentProvider::Main(mp)) => Some(mp.queue_provider_id()),
                _ => None,
            },
            _ => None,
        }
    }

    /// The main provider and the queue provider it names are in place.
    pub open spec fn queues_in_place(&self) -> bool {
        self.queue_provider_of() matches Some(q) && self.provider(q) matches Some(ContentProvider::QueueProvider(_))
    }

    /// The queues that the queue provider lists.
    pub open spec fn queue_list(&self) -> Seq<ContentProviderID> {
        match self.provider(self.queue_provider_of()->Some_0) {
            Some(ContentProvider::QueueProvider(qp)) => qp.queues(),
            _ => Seq::empty(),
        }
    }

    /// The first of `qs`, from `from` on, that is a queue made from `id`.
    pub open spec fn first_made_from(&self, qs: Seq<ContentProviderID>, id: ContentProviderID, from: int) -> Option<int>
        decreases qs.len() - from,
    {
        if from < 0 || from >= qs.len() {
            None
        } else if self.provider(qs[from]) matches Some(ContentProvider::Queue(q)) && q.source_cp == id {
            Some(from)
        } else {
            self.first_made_from(qs, id, from + 1)
        }
    }

    /// How many of the first `j` of `qs` are queues.
    pub open spec fn queues_before(&self, qs: Seq<ContentProviderID>, j: int) -> nat
        decreases j,
    {
        if j <= 0 {
            0
        } else {
            self.queues_before(qs, j - 1) + if self.provider(qs[j - 1]) matches Some(ContentProvider::Queue(_)) {
                1nat
            } else {
                0nat
            }
        }
    }

    /// Where a queue of provider `id` is looked for among `qs`: the first
    /// entry that is `id`, else the first queue made from `id`, counted among
    /// the queues alone.
    pub open spec fn queue_pick(&self, qs: Seq<ContentProviderID>, id: ContentProviderID) -> Option<int> {
        match first_at(qs, id) {
            Some(k) => Some(k),
            None => match self.first_made_from(qs, id, 0) {
                Some(j) => Some(self.queues_before(qs, j) as int),
                None => None,
            },
        }
    }

    /// The queue that playing song `song_id` of provider `id` goes back to:
    /// the one picked among the queues, where it is a queue holding the song.
    pub open spec fn queue_hit(&self, id: ContentProviderID, song_id: SongID) -> Option<ContentProviderID> {
        let qs = self.queue_list();
        match self.queue_pick(qs, id) {
            Some(qi) => if 0 <= qi < qs.len() && (self.provider(qs[qi]) matches Some(ContentProvider::Queue(q))
                && q.songs@.contains(song_id)) {
                Some(qs[qi])
            } else {
                None
            },
            None => None,
        }
    }

    proof fn lemma_queues_before_le(&self, qs: Seq<ContentProviderID>, j: int)
        requires
            j >= 0,
        ensures
            self.queues_before(qs, j) <= j,
        decreases j,
    {
        if j > 0 {
            self.lemma_queues_before_le(qs, j - 1);
        }
    }

    /// Plays from a queue of provider `id` at song `song_id`: a queue of the
    /// queue provider that is `id` or was made from `id`, where it holds the
    /// song, gets the song selected and moves to the top; otherwise a new
    /// queue of the songs of `id`, named after it, playing the song, is put
    /// on top (the oldest queue leaving where there are too many). Either
    /// way the queue becomes the one playing.
    pub fn set_queue(&mut self, id: ContentProviderID, song_id: SongID) -> (r: Result<(), RegisterError>)
        requires
            old(self).wf(),
            old(self).queues_in_place(),
            old(self).provider(id) matches Some(p) && p.lists_songs() && p.songs_of().contains(song_id),
            old(self).content_providers.num_slots() < usize::MAX,
        ensures
            final(self).wf(),
            final(self).content_stack == old(self).content_stack,
            final(self).active_song == old(self).active_song,
            r is Ok ==> (final(self).active_queue matches Some(q) && match old(self).queue_hit(id, song_id) {
                Some(h) => q == h,
                None => {
                    &&& q.key_index() == old(self).content_providers.next_slot()
                    &&& q.key_generation() == old(self).content_providers.current_generation()
                },
            }),
            Self::queue_set(*old(self), *final(self), id, song_id, r),
    {
        let main = self.content_stack.main_provider();
        let qp_id = match self.get_provider(main) {
            ContentProvider::Main(mp) => mp.queue_provider(),
            _ => {
                return Ok(());
            },
        };
        let queues = match self.get_provider(qp_id) {
            ContentProvider::QueueProvider(qp) => copy_list(qp.providers()),
            _ => {
                return Ok(());
            },
        };
        let ghost qs = queues@;
        let ghost start = *self;
        assert(qs == start.queue_list());
        let mut found: Option<usize> = None;
        let mut k: usize = 0;
        while k < queues.len()
            invariant_except_break
                found is None,
            invariant
                k <= queues@.len(),
                queues@ == qs,
                forall|i: int| 0 <= i < k ==> qs[i] != id,
            ensures
                found matches Some(i) ==> is_first_at(qs, id, i as int),
                found is None ==> forall|i: int| 0 <= i < qs.len() ==> qs[i] != id,
            decreases queues@.len() - k,
        {
            if queues[k] == id {
                found = Some(k);
                assert(is_first_at(qs, id, k as int));
                break;
            }
            k = k + 1;
        }
        proof {
            lemma_first_at(qs, id);
        }
        if found.is_none() {
            let mut pos: usize = 0;
            let mut j: usize = 0;
            while j < queues.len()
                invariant_except_break
                    found is None,
                invariant
                    j <= queues@.len(),
                    queues@ == qs,
                    *self == start,
                    pos == self.queues_before(qs, j as int),
                    pos <= j,
                    self.first_made_from(qs, id, 0) == self.first_made_from(qs, id, j as int),
                ensures
                    *self == start,
                    found is None ==> self.first_made_from(qs, id, 0) is None,
                    found matches Some(i) ==> (self.first_made_from(qs, id, 0) matches Some(f) && i == self.queues_before(
                        qs,
                        f,
                    ) && 0 <= f < qs.len()),
                decreases queues@.len() - j,
            {
                match self.content_providers.get(queues[j]) {
                    Some(ContentProvider::Queue(q)) => {
                        if q.source_cp == id {
                            found = Some(pos);
                            break;
                        }
                        pos = pos + 1;
                    },
                    _ => {},
                }
                j = j + 1;
            }
        }
        proof {
            if let Some(qi) = found {
                assert(start.queue_pick(qs, id) == Some(qi as int));
                if first_at(qs, id) is None {
                    let f = start.first_made_from(qs, id, 0)->Some_0;
                    start.lemma_queues_before_le(qs, f);
                }
            } else {
                assert(start.queue_pick(qs, id) is None);
            }
        }
        match found {
            Some(qi) => {
                let q_id = queues[qi];
                let si = match self.content_providers.get(q_id) {
                    Some(ContentProvider::Queue(q)) => q.contains_song(song_id),
                    _ => None,
                };
                proof {
                    if si is Some {
                        assert(start.queue_hit(id, song_id) == Some(q_id));
                    } else {
                        assert(start.queue_hit(id, song_id) is None);
                    }
                }
                match si {
                    Some(si) => {
                        let ghost a0 = self.content_providers;
                        let ghost h = q_id.key_index() as int;
                        let ghost g = qp_id.key_index() as int;
                        proof {
                            assert(h != g);
                        }
                        match self.content_providers.get_mut(q_id) {
                            Some(ContentProvider::Queue(q)) => {
                                q.index.select(si);
                            },
                            _ => {},
                        }
                        let ghost a1 = self.content_providers;
                        proof {
                            lemma_values_unchanged(a0);
                            lemma_values_changed_then(a0, a0, a1, Set::empty(), h);
                            assert(a1.lookup(qp_id.key_index(), qp_id.key_generation()) == a0.lookup(
                                qp_id.key_index(),
                                qp_id.key_generation(),
                            ));
                        }
                        match self.content_providers.get_mut(qp_id) {
                            Some(ContentProvider::QueueProvider(qp)) => {
                                if qi < qp.providers().len() {
                                    qp.move_to_top(qi);
                                }
                            },
                            _ => {},
                        }
                        let ghost mid = *self;
                        proof {
                            lemma_values_changed_then(a0, a1, mid.content_providers, Set::empty().insert(h), g);
                            assert(set![h, g] =~= Set::<int>::empty().insert(h).insert(g));
                            assert(mid.provider(q_id) == a1.lookup(q_id.key_index(), q_id.key_generation()));
                        }
                        let r = self.set_active_queue(q_id);
                        proof {
                            assert(start.queue_hit(id, song_id)->Some_0 == q_id);
                            assert(Self::reused_through(start, *self, id, song_id, start.queue_hit(id, song_id)->Some_0, r, mid));
                        }
                        return r;
                    },
                    None => {},
                }
            },
            None => {
                proof {
                    assert(start.queue_hit(id, song_id) is None);
                }
            },
        }
        let cp = self.get_provider(id);
        let songs = cp.songs();
        let name = cp.get_name();
        let mut ids: Vec<ID> = Vec::new();
        let mut k: usize = 0;
        while k < songs.len()
            invariant
                k <= songs@.len(),
                ids@ == song_ids(songs@.take(k as int)),
            decreases songs@.len() - k,
        {
            ids.push(ID::Song(songs[k]));
            proof {
                assert(ids@ =~= song_ids(songs@.take(k + 1)));
            }
            k = k + 1;
        }
        proof {
            assert(songs@.take(songs@.len() as int) =~= songs@);
        }
        self.register_all(&ids)?;
        let ghost counted = *self;
        let mut q = Queue::new(songs, name, id);
        if q.contains_song(song_id).is_some() {
            q.select_song(song_id);
        }
        let ghost queue = q;
        let q_id = self.content_providers.allocate(ContentProvider::Queue(q));
        let ghost allocated = self.content_providers;
        proof {
            lemma_values_unchanged(allocated);
            assert(allocated.lookup(qp_id.key_index(), qp_id.key_generation()) == start.provider(qp_id));
        }
        let evicted = match self.content_providers.get_mut(qp_id) {
            Some(ContentProvider::QueueProvider(qp)) => qp.add_queue(q_id),
            _ => None,
        };
        let ghost stored = *self;
        proof {
            lemma_values_changed_then(allocated, allocated, stored.content_providers, Set::empty(), qp_id.key_index() as int);
            assert(set![qp_id.key_index() as int] =~= Set::<int>::empty().insert(qp_id.key_index() as int));
        }
        let trim = match evicted {
            Some(e) => self.unregister_provider(e),
            None => Ok(()),
        };
        let ghost trimmed = *self;
        match trim {
            Err(e) => {
                proof {
                    let w = QueueMaking { counted, queue, id: q_id, allocated, stored, trimmed, trim };
                    assert(Self::made_through(start, *self, id, song_id, Err::<(), RegisterError>(e), w));
                }
                return Err(e);
            },
            Ok(()) => {},
        }
        let r = self.set_active_queue(q_id);
        proof {
            let w = QueueMaking { counted, queue, id: q_id, allocated, stored, trimmed, trim };
            assert(Self::made_through(start, *self, id, song_id, r, w));
        }
        r
    }

    /// What storing provider `cp`, adding its id to provider `id` and
    /// opening it on the stack does, answering its id and whether it still
    /// has to load: the new provider is held by `id` and by the stack.
    pub open spec fn cp_added_and_opened(a: Self, b: Self, id: ContentProviderID, cp: ContentProvider, r: (ContentProviderID, bool)) -> bool {
        &&& b.songs == a.songs
        &&& b.edit_manager == a.edit_manager
        &&& b.active_queue == a.active_queue
        &&& b.active_song == a.active_song
        &&& !a.content_providers.is_live(r.0.key_index() as int)
        &&& b.provider(r.0) == Some(cp)
        &&& b.content_stack.entries() == a.content_stack.entries().push(GlobalContent::ID(ID::ContentProvider(r.0)))
        &&& b.content_stack.state_view() == a.content_stack.state_view()
        &&& b.content_providers.slot_count(r.0.key_index() as int) == 2
        &&& r.1 == cp.needs_load_spec()
        &&& b.provider(id) matches Some(p) && p.providers_of() == a.provider(id)->Some_0.providers_of().push(r.0)
    }

    /// Stores a provider, adds its id to another and opens it on the stack;
    /// says whether it still has to load. Panics where the other reaches
    /// nothing or lists no providers.
    pub fn add_cp_to_cp_and_content_stack(&mut self, id: ContentProviderID, cp: ContentProvider) -> (r: (
        ContentProviderID,
        bool,
    ))
        requires
            old(self).wf(),
            old(self).provider(id) matches Some(p) && p.lists_providers(),
            old(self).content_providers.num_slots() < usize::MAX,
        ensures
            final(self).wf(),
            Self::cp_added_and_opened(*old(self), *final(self), id, cp, r),
    {
        let loaded = self.add_cp_to_cp(id, cp);
        let ghost mid = self.content_providers;
        proof {
            assert(mid.is_live(id.key_index() as int));
        }
        let needs_load = self.push_to_content_stack(loaded);
        proof {
            if loaded.key_index() != id.key_index() {
                assert(self.content_providers.slot_generation(id.key_index() as int) == mid.slot_generation(id.key_index() as int));
            }
        }
        (loaded, needs_load)
    }

    /// `cp` is the provider that menu option `option` adds: a new file
    /// explorer of `path`, or a new youtube explorer.
    pub open spec fn option_provider(cp: ContentProvider, option: MainProviderMenuOption, path: Seq<char>) -> bool {
        if option == MainProviderMenuOption::ADD_FILE_EXPLORER {
            cp matches ContentProvider::FileExplorer(f) && {
                &&& f.name_view() == "File Explorer: "@ + last_segment(path)
                &&& f.path_view() == path
                &&& f.song_list().len() == 0
                &&& f.provider_list().len() == 0
                &&& f.selection() == 0
                &&& !f.is_loaded_spec()
                &&& !f.is_child()
            }
        } else {
            cp matches ContentProvider::YTExplorer(y) && {
                &&& y.name_view() == "Youtube"@
                &&& y.song_list().len() == 0
                &&& y.provider_list().len() == 0
                &&& y.selection() == 0
                &&& !y.is_loaded_spec()
                &&& y.search_term_view().len() == 0
                &&& y.filter_spec() == YTSearchFilter::Albums
            }
        }
    }

    /// How applying menu option `option` went from `a` to `b`, answering
    /// `r`: the stack stepped back to `mid` (answering `popped`); where that
    /// went through and `main` still lists providers, the option's new
    /// provider was added to `main` and opened on the stack.
    pub open spec fn menu_option_applied(
        a: Self,
        b: Self,
        main: ContentProviderID,
        option: MainProviderMenuOption,
        path: Seq<char>,
        r: Result<(ContentProviderID, bool), RegisterError>,
        mid: Self,
        popped: Result<Option<GlobalContent>, RegisterError>,
    ) -> bool {
        &&& Self::stack_popped(a, mid, popped)
        &&& match popped {
            Err(e) => r == Err::<(ContentProviderID, bool), RegisterError>(e) && b == mid,
            Ok(_) => if mid.provider(main) matches Some(p) && p.lists_providers() {
                r matches Ok(res) && exists|cp: ContentProvider| #[trigger]
                    Self::cp_added_and_opened(mid, b, main, cp, res) && Self::option_provider(cp, option, path)
            } else {
                &&& r == Err::<(ContentProviderID, bool), RegisterError>(RegisterError::NotRegistered(ID::ContentProvider(main)))
                &&& b == mid
            },
        }
    }

    /// Carries out an option of the main provider's menu: the menu closes
    /// and a new file explorer of `default_path` (or youtube explorer) is
    /// added to the main provider and opened. The options to add artist and
    /// playlist providers are not available yet and are left out.
    pub fn apply_menu_option(&mut self, main: ContentProviderID, option: MainProviderMenuOption, default_path: &str) -> (r: Result<(ContentProviderID, bool), RegisterError>)
        requires
            old(self).wf(),
            old(self).provider(main) matches Some(p) && p.lists_providers(),
            old(self).content_providers.num_slots() < usize::MAX,
            option == MainProviderMenuOption::ADD_FILE_EXPLORER || option == MainProviderMenuOption::ADD_YT_EXPLORER,
            default_path@.len() > 0,
        ensures
            final(self).wf(),
            !(old(self).content_stack.state_view() is Normal && old(self).content_stack.entries().len() > 1) ==> r is Ok,
            exists|mid: Self, popped: Result<Option<GlobalContent>, RegisterError>| #[trigger]
                Self::menu_option_applied(*old(self), *final(self), main, option, default_path@, r, mid, popped),
    {
        let popped = self.pop_content_stack();
        let ghost mid = *self;
        proof {
            assert(Self::stack_popped(*old(self), mid, popped));
        }
        match popped {
            Err(e) => {
                proof {
                    assert(Self::menu_option_applied(*old(self), *self, main, option, default_path@, Err(e), mid, popped));
                }
                return Err(e);
            },
            Ok(_) => {},
        }
        if self.content_providers.num_slots_exec() == usize::MAX {
            return Err(RegisterError::GenerationsExhausted);
        }
        let ok = match self.content_providers.get(main) {
            Some(p) => p.lists_provider_ids(),
            None => false,
        };
        if !ok {
            proof {
                assert(Self::menu_option_applied(
                    *old(self),
                    *self,
                    main,
                    option,
                    default_path@,
                    Err(RegisterError::NotRegistered(ID::ContentProvider(main))),
                    mid,
                    popped,
                ));
            }
            return Err(RegisterError::NotRegistered(ID::ContentProvider(main)));
        }
        let cp = match option {
            MainProviderMenuOption::ADD_FILE_EXPLORER => ContentProvider::FileExplorer(FileExplorer::new(default_path)),
            _ => ContentProvider::YTExplorer(YTExplorer::new()),
        };
        let ghost added = cp;
        proof {
            assert(Self::option_provider(added, option, default_path@));
        }
        let res = self.add_cp_to_cp_and_content_stack(main, cp);
        proof {
            assert(Self::cp_added_and_opened(mid, *self, main, added, res));
            let r0 = Ok::<(ContentProviderID, bool), RegisterError>(res);
            assert(Self::cp_added_and_opened(mid, *self, main, added, r0->Ok_0));
            assert(Self::menu_option_applied(*old(self), *self, main, option, default_path@, Ok(res), mid, popped));
        }
        Ok(res)
    }

    /// Entering the selected entry is handled in the state shown.
    pub open spec fn enter_ok(&self) -> bool {
        match self.content_stack.state_view() {
            StateView::Normal => (self.top_provider() matches Some(p) && self.provider(p) matches Some(q) && {
                &&& q.selection_of() < q.listing().len()
                &&& q.listing()[q.selection_of() as int] is Song ==> self.queues_in_place()
                    && self.content_providers.num_slots() < usize::MAX
            }),
            StateView::Menu { ctx, id } => {
                &&& ctx.len() > 0
                &&& ctx.last()@ < menu_options().len()
                &&& (id matches GlobalContent::ID(ID::ContentProvider(p)) && self.provider(p) matches Some(
                    ContentProvider::Main(_),
                ))
            },
            StateView::Edit { ctx, id } => {
                &&& ctx.len() > 0
                &&& (id matches GlobalContent::ID(ID::ContentProvider(p)) && self.provider(p) matches Some(cp) && {
                    &&& cp.is_editable_spec()
                    &&& cp is YTExplorer ==> editables_defined(ctx) && ctx.last()@ < editables_for(ctx).len()
                    &&& cp is FileExplorer ==> ctx.last()@ < 1
                })
            },
            StateView::GlobalMenu(_) => false,
        }
    }

    /// What entering the selected entry does, answering `r` (see
    /// `enter_selected`).
    pub open spec fn entered_selected(a: Self, b: Self, r: Result<Entered, RegisterError>) -> bool {
        &&& a.content_stack.state_view() is Normal ==> {
            let p = a.top_provider()->Some_0;
            let q = a.provider(p)->Some_0;
            match q.listing()[q.selection_of() as int] {
                ID::Song(s) => {
                    let i = s.key_index() as int;
                    &&& r is Ok ==> {
                        &&& r == Ok::<Entered, RegisterError>(Entered::Song(s))
                        &&& b.active_song == Some(s)
                        &&& b.active_queue is Some
                    }
                    &&& !a.songs.is_live(i) ==> r == Err::<Entered, RegisterError>(
                        RegisterError::NotRegistered(ID::Song(s)),
                    ) && b == a
                    &&& a.songs.is_live(i) && a.songs.slot_count(i) == u32::MAX ==> r == Err::<
                        Entered,
                        RegisterError,
                    >(RegisterError::CountExhausted(ID::Song(s))) && b == a
                    &&& exists|mid: Self, r1: Result<(), RegisterError>| #[trigger]
                        Self::made_active_song(a, mid, s, r1) && match r1 {
                            Err(e) => r == Err::<Entered, RegisterError>(e) && b == mid,
                            Ok(()) => Self::queue_set(
                                mid,
                                b,
                                p,
                                s,
                                match r {
                                    Ok(_) => Ok::<(), RegisterError>(()),
                                    Err(e) => Err(e),
                                },
                            ),
                        }
                },
                ID::ContentProvider(c) => {
                    let i = c.key_index() as int;
                    match a.provider(c) {
                        None => r == Err::<Entered, RegisterError>(RegisterError::NotRegistered(ID::ContentProvider(c)))
                            && b == a,
                        Some(cq) => if a.content_providers.slot_count(i) == u32::MAX {
                            &&& r == Err::<Entered, RegisterError>(
                                RegisterError::CountExhausted(ID::ContentProvider(c)),
                            )
                            &&& b == a
                        } else {
                            &&& r == Ok::<Entered, RegisterError>(
                                Entered::Opened { id: c, needs_load: cq.needs_load_spec() },
                            )
                            &&& b.content_stack.entries() == a.content_stack.entries().push(
                                GlobalContent::ID(ID::ContentProvider(c)),
                            )
                            &&& b.content_stack.state_view() == a.content_stack.state_view()
                            &&& ContentRegister::register_post(a.content_providers, b.content_providers, i)
                            &&& b.songs == a.songs
                            &&& b.edit_manager == a.edit_manager
                            &&& b.active_queue == a.active_queue
                            &&& b.active_song == a.active_song
                        },
                    }
                },
            }
        }
        &&& a.content_stack.state_view() matches StateView::Menu { ctx, id } ==> {
            &&& r == Ok::<Entered, RegisterError>(Entered::MenuOption {
                provider: id->ID_0->ContentProvider_0,
                option: menu_options()[ctx.last()@ as int],
            })
            &&& b == a
        }
        &&& a.content_stack.state_view() matches StateView::Edit { ctx, id } ==> {
            let p = id->ID_0->ContentProvider_0;
            match a.provider(p)->Some_0 {
                ContentProvider::FileExplorer(f) => r matches Ok(Entered::FileEdit { provider, path }) && provider == p
                    && path@ == f.path_view(),
                _ => r matches Ok(Entered::YTEdit { provider, .. }) && provider == p,
            }
        }
    }

    /// Enters the selected entry of what is shown: in the normal state a
    /// song of the provider on top starts playing from a queue, a provider
    /// it lists is opened on the stack; on a menu the option selected is
    /// handed back; on an edit screen the entry selected is chosen.
    pub fn enter_selected(&mut self) -> (r: Result<Entered, RegisterError>)
        requires
            old(self).wf(),
            old(self).enter_ok(),
        ensures
            final(self).wf(),
            Self::entered_selected(*old(self), *final(self), r),
    {
        let top = self.content_stack.last();
        let normal = match self.content_stack.get_state() {
            ContentState::Normal => true,
            _ => false,
        };
        if normal {
            let p = match top {
                GlobalContent::ID(ID::ContentProvider(p)) => p,
                _ => {
                    return Ok(Entered::Nothing);
                },
            };
            let q = self.get_provider(p);
            let selected = q.get_selected();
            proof {
                let qq = old(self).provider(p)->Some_0;
                let sel = qq.selection_of() as int;
                if sel >= qq.providers_of().len() {
                    assert(qq.listing()[sel] == ID::Song(qq.songs_of()[sel - qq.providers_of().len()]));
                } else {
                    assert(qq.listing()[sel] == ID::ContentProvider(qq.providers_of()[sel]));
                }
            }
            match selected {
                ID::Song(s) => {
                    let r1 = self.set_active_song(s);
                    let ghost mid = *self;
                    match r1 {
                        Err(e) => {
                            proof {
                                assert(Self::made_active_song(*old(self), mid, s, r1));
                            }
                            return Err(e);
                        },
                        Ok(()) => {},
                    }
                    let r2 = self.set_queue(p, s);
                    proof {
                        assert(Self::made_active_song(*old(self), mid, s, r1));
                    }
                    if r2.is_err() {
                        return Err(r2.unwrap_err());
                    }
                    proof {
                        assert(r2->Ok_0 == ());
                    }
                    return Ok(Entered::Song(s));
                },
                ID::ContentProvider(c) => {
                    let needs_load = match self.content_providers.get(c) {
                        Some(cp) => cp.needs_load(),
                        None => {
                            return Err(RegisterError::NotRegistered(ID::ContentProvider(c)));
                        },
                    };
                    self.try_register(GlobalContent::ID(ID::ContentProvider(c)))?;
                    self.content_stack.push(GlobalContent::ID(ID::ContentProvider(c)));
                    return Ok(Entered::Opened { id: c, needs_load });
                },
            }
        }
        match self.content_stack.get_state() {
            ContentState::Menu { ctx, id } => {
                let p = match id {
                    GlobalContent::ID(ID::ContentProvider(p)) => *p,
                    _ => {
                        return Ok(Entered::Nothing);
                    },
                };
                let i = ctx.last().selected_index();
                let option = match self.content_providers.get(p) {
                    Some(ContentProvider::Main(mp)) => mp.apply_option(i),
                    _ => {
                        return Ok(Entered::Nothing);
                    },
                };
                return Ok(Entered::MenuOption { provider: p, option });
            },
            _ => {},
        }
        match self.content_stack.get_state_mut() {
            ContentState::Edit { ctx, id } => {
                let p = match id {
                    GlobalContent::ID(ID::ContentProvider(p)) => *p,
                    _ => {
                        return Ok(Entered::Nothing);
                    },
                };
                match self.content_providers.get_mut(p) {
                    Some(ContentProvider::YTExplorer(y)) => {
                        let choice = y.select_editable(ctx);
                        Ok(Entered::YTEdit { provider: p, choice })
                    },
                    Some(ContentProvider::FileExplorer(f)) => {
                        let path = f.select_editable(ctx);
                        Ok(Entered::FileEdit { provider: p, path })
                    },
                    _ => Ok(Entered::Nothing),
                }
            },
            _ => Ok(Entered::Nothing),
        }
    }

    /// Pastes yanked items into a provider that takes them (songs into a
    /// queue, queues into the queue provider) at `paste_pos` or at the end;
    /// any other provider is left as it is. Panics where the provider
    /// reaches nothing or the position is past its end.
    pub fn paste_into_provider(&mut self, yank: YankedContent, to: ContentProviderID, paste_pos: Option<usize>)
        requires
            old(self).wf(),
            old(self).provider(to) is Some,
            (yank is Songs && old(self).provider(to)->Some_0 is Queue) ==> {
                let q = old(self).provider(to)->Some_0->Queue_0;
                &&& paste_pos matches Some(j) ==> j <= q.songs@.len()
                &&& q.currently_playing matches Some(c) ==> q.songs@.len() > 0 && c + yank.spec_len() <= usize::MAX
            },
            (yank is Providers && old(self).provider(to)->Some_0 is QueueProvider) ==> (paste_pos matches Some(j)
                ==> j <= old(self).provider(to)->Some_0->QueueProvider_0.queues().len()),
        ensures
            final(self).wf(),
            final(self).same_but_registers(old(self)),
            final(self).songs == old(self).songs,
            values_changed(old(self).content_providers, final(self).content_providers, set![to.key_index() as int]),
            final(self).provider(to) matches Some(p) && match (yank, old(self).provider(to)->Some_0) {
                (YankedContent::Songs { items }, ContentProvider::Queue(q)) => p matches ContentProvider::Queue(q2)
                    && Queue::pasted_into(q, q2, items@, paste_pos),
                (YankedContent::Providers { items }, ContentProvider::QueueProvider(qp)) => p matches ContentProvider::QueueProvider(
                    qp2,
                ) && QueueProvider::pasted_into(qp, qp2, items@, paste_pos),
                (_, q) => p == q,
            },
    {
        let ghost before = self.content_providers;
        let cp = self.content_providers.get_mut(to).unwrap();
        match (yank, cp) {
            (YankedContent::Songs { items }, ContentProvider::Queue(q)) => q.paste(items, paste_pos),
            (YankedContent::Providers { items }, ContentProvider::QueueProvider(qp)) => qp.paste(items, paste_pos),
            _ => {},
        }
        proof {
            lemma_values_unchanged(before);
            lemma_values_changed_then(before, before, self.content_providers, Set::empty(), to.key_index() as int);
            assert(set![to.key_index() as int] =~= Set::<int>::empty().insert(to.key_index() as int));
        }
    }

    /// Puts yanked items back at their positions in a provider that takes
    /// them (songs into a queue, queues into the queue provider); any other
    /// provider is left as it is. Panics where the provider reaches nothing.
    pub fn insert_into_provider(&mut self, yank: YankedContent, to: ContentProviderID)
        requires
            old(self).wf(),
            old(self).provider(to) is Some,
            (yank is Songs && old(self).provider(to)->Some_0 is Queue) ==> {
                let q = old(self).provider(to)->Some_0->Queue_0;
                q.currently_playing matches Some(c) ==> {
                    &&& c + shift_count(sort_by_index(yank->Songs_items@), c as int, 0) <= usize::MAX
                    &&& q.songs@.len() + yank.spec_len() > 0
                }
            },
        ensures
            final(self).wf(),
            final(self).same_but_registers(old(self)),
            final(self).songs == old(self).songs,
            values_changed(old(self).content_providers, final(self).content_providers, set![to.key_index() as int]),
            final(self).provider(to) matches Some(p) && match (yank, old(self).provider(to)->Some_0) {
                (YankedContent::Songs { items }, ContentProvider::Queue(q)) => p matches ContentProvider::Queue(q2)
                    && Queue::inserted(q, q2, items@),
                (YankedContent::Providers { items }, ContentProvider::QueueProvider(qp)) => p matches ContentProvider::QueueProvider(
                    qp2,
                ) && QueueProvider::inserted(qp, qp2, items@),
                (_, q) => p == q,
            },
    {
        let ghost before = self.content_providers;
        let cp = self.content_providers.get_mut(to).unwrap();
        match (yank, cp) {
            (YankedContent::Songs { items }, ContentProvider::Queue(q)) => q.insert(items),
            (YankedContent::Providers { items }, ContentProvider::QueueProvider(qp)) => qp.insert(items),
            _ => {},
        }
        proof {
            lemma_values_unchanged(before);
            lemma_values_changed_then(before, before, self.content_providers, Set::empty(), to.key_index() as int);
            assert(set![to.key_index() as int] =~= Set::<int>::empty().insert(to.key_index() as int));
        }
    }

    /// Pastes songs into a queue the way its paste is tried: each song is
    /// counted twice more (held by the queue and by the edit), the queue once
    /// more (held by the edit); the songs go in at `start` (or at the end)
    /// with the positions they get, and the paste is recorded as an edit.
    /// The paste answers `false`, the edit being recorded here already.
    pub fn try_paste_songs(&mut self, items: Vec<Yank<SongID>>, start: Option<usize>, to: ContentProviderID) -> (r: Result<bool, RegisterError>)
        requires
            old(self).wf(),
            old(self).provider(to) matches Some(ContentProvider::Queue(q)) && {
                &&& start matches Some(j) ==> j <= q.songs@.len()
                &&& q.currently_playing matches Some(c) ==> q.songs@.len() > 0 && c + items@.len() <= usize::MAX
                &&& (match start {
                    Some(j) => j as int,
                    None => q.songs@.len() as int,
                }) + items@.len() <= usize::MAX
            },
        ensures
            final(self).wf(),
            final(self).content_stack == old(self).content_stack,
            r is Ok ==> {
                let q = old(self).provider(to)->Some_0->Queue_0;
                &&& r == Ok::<bool, RegisterError>(false)
                &&& final(self).edit_manager.edit_stack@.len() == old(self).edit_manager.edit_stack@.len() + 1
                &&& final(self).edit_manager.edit_stack@.drop_last() == old(self).edit_manager.edit_stack@
                &&& final(self).edit_manager.edit_stack@.last() matches Edit::Pasted { yank, yanked_to, paste_pos } && {
                    &&& yanked_to == to
                    &&& paste_pos == start
                    &&& yank@ == YankedView::Songs(reindexed(items@, start, q.songs@.len() as usize))
                }
                &&& final(self).provider(to) matches Some(ContentProvider::Queue(q2)) && q2.songs@ == pasted(
                    q.songs@,
                    yanked_items(items@),
                    start,
                )
                &&& recounted(old(self).songs, final(self).songs, |j: int| song_hits(doubled_songs(items@).push(ID::ContentProvider(to)), j))
                &&& exists|m: ContentRegister<ContentProvider, ContentProviderID>| #[trigger]
                    values_changed(m, final(self).content_providers, set![to.key_index() as int]) && recounted(
                        old(self).content_providers,
                        m,
                        |j: int| provider_hits(doubled_songs(items@).push(ID::ContentProvider(to)), j),
                    )
            },
            (r is Ok) == old(self).all_countable(doubled_songs(items@).push(ID::ContentProvider(to))),
    {
        let ghost q0 = old(self).provider(to)->Some_0->Queue_0;
        let n = match self.content_providers.get(to) {
            Some(ContentProvider::Queue(q)) => q.songs.len(),
            _ => 0,
        };
        let mut ids: Vec<ID> = Vec::new();
        let mut k: usize = 0;
        while k < items.len()
            invariant
                k <= items@.len(),
                ids@ == doubled_songs(items@.take(k as int)),
            decreases items@.len() - k,
        {
            proof {
                assert(items@.take(k + 1).drop_last() =~= items@.take(k as int));
            }
            ids.push(ID::Song(items[k].item));
            ids.push(ID::Song(items[k].item));
            k = k + 1;
        }
        proof {
            assert(items@.take(items@.len() as int) =~= items@);
        }
        ids.push(ID::ContentProvider(to));
        let res = self.register_all(&ids);
        match res {
            Err(e) => {
                return Err(e);
            },
            Ok(()) => {},
        }
        let yank = reindex(&items, start, n);
        let ghost before = self.content_providers;
        proof {
            assert(ids@.last() == ID::ContentProvider(to));
            assert(old(self).content_providers.is_live(to.key_index() as int));
            assert(before.is_live(to.key_index() as int));
        }
        let edit_yank = copy_yanks(&yank);
        let ghost mid = self.content_providers;
        match self.content_providers.get_mut(to) {
            Some(ContentProvider::Queue(q)) => {
                q.paste(yank, start);
            },
            _ => {},
        }
        proof {
            assert(yanked_items(reindexed(items@, start, n)) =~= yanked_items(items@));
            lemma_values_unchanged(mid);
            lemma_values_changed_then(mid, mid, self.content_providers, Set::empty(), to.key_index() as int);
            assert(set![to.key_index() as int] =~= Set::<int>::empty().insert(to.key_index() as int));
        }
        self.edit_manager.edit_stack.push(Edit::Pasted { yank: YankedContent::Songs { items: edit_yank }, yanked_to: to, paste_pos: start });
        Ok(false)
    }

    /// Pastes providers into the queue provider the way its paste is tried:
    /// a queue goes in as it is; any other provider listing songs goes in as
    /// a new queue of its songs (each song counted once more); one listing
    /// none is left out. Each queue that goes in is counted twice more (held
    /// by the queue provider and by the edit), the queue provider once more;
    /// the queues go in at `start` (or at the end) and the paste is recorded
    /// as an edit. The paste answers `false`, the edit being recorded here
    /// already.
    pub fn try_paste_queues(&mut self, items: Vec<Yank<ContentProviderID>>, start: Option<usize>, to: ContentProviderID) -> (r: Result<bool, RegisterError>)
        requires
            old(self).wf(),
            old(self).provider(to) matches Some(ContentProvider::QueueProvider(qp)) && {
                &&& start matches Some(j) ==> j <= qp.queues().len()
                &&& (match start {
                    Some(j) => j as int,
                    None => qp.queues().len() as int,
                }) + items@.len() <= usize::MAX
            },
            old(self).content_providers.num_slots() + items@.len() < usize::MAX,
        ensures
            final(self).wf(),
            final(self).content_stack == old(self).content_stack,
            r is Ok ==> {
                let qp = old(self).provider(to)->Some_0->QueueProvider_0;
                &&& r == Ok::<bool, RegisterError>(false)
                &&& final(self).edit_manager.edit_stack@.len() == old(self).edit_manager.edit_stack@.len() + 1
                &&& final(self).edit_manager.edit_stack@.drop_last() == old(self).edit_manager.edit_stack@
                &&& final(self).edit_manager.edit_stack@.last() matches Edit::Pasted { yank, yanked_to, paste_pos } && {
                    &&& yanked_to == to
                    &&& paste_pos == start
                    &&& yank@ matches YankedView::Providers(y) && {
                        &&& y.len() <= items@.len()
                        &&& y == reindexed(y, start, qp.queues().len() as usize)
                        &&& final(self).provider(to) matches Some(ContentProvider::QueueProvider(qp2)) && qp2.queues()
                            == pasted(qp.queues(), yanked_items(y), start)
                    }
                }
            },
            (r is Ok) == (all_present(*old(self), items@) && old(self).all_countable(
                paste_queue_ids(*old(self), items@).push(ID::ContentProvider(to)),
            )),
            !all_present(*old(self), items@) ==> (r matches Err(RegisterError::NotRegistered(_))) && *final(self)
                == *old(self),
    {
        let ghost a = *old(self);
        let ghost qp0 = old(self).provider(to)->Some_0->QueueProvider_0;
        let n = match self.content_providers.get(to) {
            Some(ContentProvider::QueueProvider(qp)) => qp.providers().len(),
            _ => 0,
        };
        let mut ids: Vec<ID> = Vec::new();
        let mut k: usize = 0;
        while k < items.len()
            invariant
                *self == a,
                a == *old(self),
                a.wf(),
                k <= items@.len(),
                ids@ == paste_queue_ids(a, items@.take(k as int)),
                all_present(a, items@.take(k as int)),
            decreases items@.len() - k,
        {
            let id = items[k].item;
            let ghost pre = items@.take(k as int);
            proof {
                assert(items@.take(k + 1).drop_last() =~= pre);
                assert(items@.take(k + 1).last() == items@[k as int]);
            }
            match self.content_providers.get(id) {
                Some(ContentProvider::Queue(_)) => {
                    ids.push(ID::ContentProvider(id));
                    ids.push(ID::ContentProvider(id));
                    proof {
                        assert(ids@ =~= paste_queue_ids(a, pre) + paste_item_ids(a, id));
                    }
                },
                Some(cp) => {
                    let songs = cp.songs();
                    let ghost before = ids@;
                    let mut m: usize = 0;
                    while m < songs.len()
                        invariant
                            m <= songs@.len(),
                            ids@ == before + song_ids(songs@.take(m as int)),
                        decreases songs@.len() - m,
                    {
                        ids.push(ID::Song(songs[m]));
                        proof {
                            assert(ids@ =~= before + song_ids(songs@.take(m + 1)));
                        }
                        m = m + 1;
                    }
                    proof {
                        assert(songs@.take(songs@.len() as int) =~= songs@);
                    }
                },
                None => {
                    proof {
                        assert(a.provider(items@[k as int].item) is None);
                        assert(!all_present(a, items@));
                    }
                    return Err(RegisterError::NotRegistered(ID::ContentProvider(id)));
                },
            }
            proof {
                assert forall|j: int| 0 <= j < k + 1 implies (#[trigger] a.provider(items@.take(k + 1)[j].item)) is Some by {
                    if j < k {
                        assert(items@.take(k + 1)[j] == pre[j]);
                        assert(a.provider(pre[j].item) is Some);
                    } else {
                        assert(items@.take(k + 1)[j] == items@[k as int]);
                        assert(a.provider(items@[k as int].item) is Some);
                    }
                }
            }
            k = k + 1;
        }
        proof {
            assert(items@.take(items@.len() as int) =~= items@);
        }
        ids.push(ID::ContentProvider(to));
        self.register_all(&ids)?;
        let ghost counted = *self;
        proof {
            assert forall|x: usize, g: u64| #[trigger] counted.content_providers.lookup(x, g) == a.content_providers.lookup(x, g) by {
                lemma_same_lookups(a.content_providers, counted.content_providers, x, g);
            }
        }
        let mut kept: Vec<ContentProviderID> = Vec::new();
        let mut k: usize = 0;
        while k < items.len()
            invariant
                a == *old(self),
                self.wf(),
                self.content_stack == a.content_stack,
                self.edit_manager == a.edit_manager,
                self.active_queue == a.active_queue,
                self.active_song == a.active_song,
                forall|j: int| 0 <= j < items@.len() ==> #[trigger] self.provider(items@[j].item) == a.provider(items@[j].item),
                all_present(a, items@),
                self.provider(to) == a.provider(to),
                a.provider(to) is Some,
                self.content_providers.num_slots() <= a.content_providers.num_slots() + k,
                a.content_providers.num_slots() + items@.len() < usize::MAX,
                k <= items@.len(),
                kept@.len() <= k,
            decreases items@.len() - k,
        {
            let id = items[k].item;
            proof {
                assert(self.provider(items@[k as int].item) == a.provider(items@[k as int].item));
            }
            let made = match self.content_providers.get(id) {
                Some(ContentProvider::Queue(_)) => {
                    kept.push(id);
                    None
                },
                Some(cp) => {
                    if cp.songs().len() == 0 {
                        None
                    } else {
                        Some((cp.songs(), cp.get_name()))
                    }
                },
                None => None,
            };
            match made {
                Some((songs, name)) => {
                    let ghost before = *self;
                    let q_id = self.content_providers.allocate(ContentProvider::Queue(Queue::new(songs, name, id)));
                    let ghost allocated = *self;
                    proof {
                        assert forall|x: usize, g: u64| before.content_providers.is_live(x as int) implies #[trigger]
                            allocated.content_providers.lookup(x, g) == before.content_providers.lookup(x, g) by {
                            assert(allocated.content_providers.slot_generation(x as int) == before.content_providers.slot_generation(x as int));
                        }
                        assert forall|j: int| 0 <= j < items@.len() implies #[trigger] allocated.provider(items@[j].item)
                            == a.provider(items@[j].item) by {
                            assert(before.provider(items@[j].item) == a.provider(items@[j].item));
                            assert(before.content_providers.is_live(items@[j].item.key_index() as int));
                        }
                        assert(before.content_providers.is_live(to.key_index() as int));
                        assert(allocated.provider(to) == a.provider(to));
                    }
                    match self.register_keeping(to, GlobalContent::ID(ID::ContentProvider(q_id))) {
                        Ok(()) => {},
                        Err(e) => {
                            return Err(e);
                        },
                    }
                    proof {
                        let qi = q_id.key_index() as int;
                        assert forall|j: int| 0 <= j < items@.len() implies #[trigger] self.provider(items@[j].item)
                            == a.provider(items@[j].item) by {
                            let x = items@[j].item.key_index() as int;
                            assert(before.provider(items@[j].item) == a.provider(items@[j].item));
                            assert(before.content_providers.is_live(x));
                            assert(!before.content_providers.is_live(qi));
                            assert(allocated.content_providers.is_live(x));
                            assert(x != qi);
                            assert(self.content_providers.slot_generation(x) == allocated.content_providers.slot_generation(x));
                            assert(allocated.provider(items@[j].item) == a.provider(items@[j].item));
                        }
                    }
                    kept.push(q_id);
                },
                None => {},
            }
            k = k + 1;
        }
        let yank = reindex_ids(&kept, start, n);
        let edit_yank = copy_yanks(&yank);
        match self.content_providers.get_mut(to) {
            Some(ContentProvider::QueueProvider(qp)) => {
                qp.paste(yank, start);
            },
            _ => {},
        }
        self.edit_manager.edit_stack.push(
            Edit::Pasted { yank: YankedContent::Providers { items: edit_yank }, yanked_to: to, paste_pos: start },
        );
        Ok(false)
    }

    /// `try_register`, keeping what `keep` reaches as it is.
    fn register_keeping(&mut self, keep: ContentProviderID, id: GlobalContent) -> (r: Result<(), RegisterError>)
        requires
            old(self).wf(),
        ensures
            final(self).wf(),
            final(self).same_but_registers(old(self)),
            final(self).content_providers.num_slots() == old(self).content_providers.num_slots(),
            final(self).provider(keep) == old(self).provider(keep),
            Self::counted_once_more(*old(self), *final(self), id, r),
    {
        let ghost before = self.content_providers;
        let r = self.try_register(id);
        proof {
            if before.is_live(keep.key_index() as int) {
                assert(self.content_providers.slot_generation(keep.key_index() as int) == before.slot_generation(keep.key_index() as int));
            }
        }
        r
    }

    /// Counts one more id to the item each of `ids` names, in turn, stopping
    /// at the first that cannot be counted.
    fn register_all(&mut self, ids: &Vec<ID>) -> (r: Result<(), RegisterError>)
        requires
            old(self).wf(),
        ensures
            final(self).wf(),
            final(self).same_but_registers(old(self)),
            (r is Ok) == old(self).all_countable(ids@),
            r is Ok ==> {
                &&& recounted(old(self).songs, final(self).songs, |j: int| song_hits(ids@, j))
                &&& recounted(old(self).content_providers, final(self).content_providers, |j: int| provider_hits(ids@, j))
            },
            (forall|k: int| 0 <= k < ids@.len() ==> #[trigger] ids@[k] is Song) ==> final(self).content_providers
                == old(self).content_providers,
    {
        let ghost start = *self;
        let mut i: usize = 0;
        proof {
            assert(ids@.take(0) =~= Seq::<ID>::empty());
        }
        while i < ids.len()
            invariant
                start == *old(self),
                i <= ids@.len(),
                self.wf(),
                self.same_but_registers(&start),
                recounted(start.songs, self.songs, |j: int| song_hits(ids@.take(i as int), j)),
                recounted(start.content_providers, self.content_providers, |j: int| provider_hits(ids@.take(i as int), j)),
                forall|k: int| 0 <= k < i ==> match #[trigger] ids@[k] {
                    ID::Song(s) => start.songs.is_live(s.key_index() as int),
                    ID::ContentProvider(p) => start.content_providers.is_live(p.key_index() as int),
                },
                (forall|k: int| 0 <= k < ids@.len() ==> #[trigger] ids@[k] is Song) ==> self.content_providers
                    == start.content_providers,
            decreases ids@.len() - i,
        {
            let ghost before = *self;
            let ghost pre = ids@.take(i as int);
            let ghost post = ids@.take(i + 1);
            let ghost x = ids@[i as int];
            proof {
                assert(post.drop_last() =~= pre);
                assert(post.last() == x);
                assert forall|j: int| #[trigger] song_hits(post, j) == song_hits(pre, j) + if (x matches ID::Song(s)
                    && s.key_index() == j) { 1nat } else { 0nat } by {}
                assert forall|j: int| #[trigger] provider_hits(post, j) == provider_hits(pre, j) + if (x matches ID::ContentProvider(p)
                    && p.key_index() == j) { 1nat } else { 0nat } by {}
            }
            match self.try_register(GlobalContent::ID(ids[i])) {
                Ok(()) => {},
                Err(e) => {
                    proof {
                        match x {
                            ID::Song(s) => {
                                let j = s.key_index() as int;
                                assert(before.songs.is_live(j) == start.songs.is_live(j));
                                if start.songs.is_live(j) {
                                    lemma_hits_prefix(ids@, i + 1, j);
                                    assert(before.songs.slot_count(j) == start.songs.slot_count(j) + song_hits(pre, j));
                                    assert(start.songs.slot_count(j) + song_hits(ids@, j) > u32::MAX);
                                } else {
                                    assert(ids@[i as int] == x);
                                }
                            },
                            ID::ContentProvider(p) => {
                                let j = p.key_index() as int;
                                assert(before.content_providers.is_live(j) == start.content_providers.is_live(j));
                                if start.content_providers.is_live(j) {
                                    lemma_hits_prefix(ids@, i + 1, j);
                                    assert(before.content_providers.slot_count(j) == start.content_providers.slot_count(j)
                                        + provider_hits(pre, j));
                                    assert(start.content_providers.slot_count(j) + provider_hits(ids@, j) > u32::MAX);
                                } else {
                                    assert(ids@[i as int] == x);
                                }
                            },
                        }
                        assert(!start.all_countable(ids@));
                    }
                    return Err(e);
                },
            }
            proof {
                match x {
                    ID::Song(s) => {
                        let j = s.key_index() as int;
                        lemma_recounted_step(start.songs, before.songs, self.songs, j, |k: int| song_hits(pre, k), |k: int| song_hits(post, k));
                        lemma_recounted_same(start.content_providers, self.content_providers, |k: int| provider_hits(pre, k), |k: int| provider_hits(post, k));
                    },
                    ID::ContentProvider(p) => {
                        let j = p.key_index() as int;
                        lemma_recounted_step(start.content_providers, before.content_providers, self.content_providers, j, |k: int| provider_hits(pre, k), |k: int| provider_hits(post, k));
                        lemma_recounted_same(start.songs, self.songs, |k: int| song_hits(pre, k), |k: int| song_hits(post, k));
                    },
                }
            }
            i = i + 1;
        }
        proof {
            assert(ids@.take(ids@.len() as int) =~= ids@);
            assert forall|j: int| #[trigger] start.songs.is_live(j) implies start.songs.slot_count(j) + song_hits(ids@, j)
                <= u32::MAX by {
                assert(self.songs.slot_count(j) == start.songs.slot_count(j) + song_hits(ids@.take(i as int), j));
            }
            assert forall|j: int| #[trigger] start.content_providers.is_live(j) implies start.content_providers.slot_count(j)
                + provider_hits(ids@, j) <= u32::MAX by {
                assert(self.content_providers.slot_count(j) == start.content_providers.slot_count(j) + provider_hits(
                    ids@.take(i as int),
                    j,
                ));
            }
            assert(start.all_countable(ids@));
        }
        Ok(())
    }

    /// Gives back each of `ids` in turn, stopping at the first that cannot
    /// be given back.
    fn unregister_all(&mut self, ids: &Vec<ID>) -> (r: Result<(), RegisterError>)
        requires
            old(self).wf(),
        ensures
            final(self).wf(),
            Self::given_back(*old(self), *final(self)),
            gives_back(
                old(self).songs,
                old(self).content_providers,
                ids@.reverse(),
                final(self).songs,
                final(self).content_providers,
                failure(r),
            ),
    {
        let ghost start = *self;
        let ghost rev = ids@.reverse();
        let ghost n = ids@.len();
        let ghost init = Returning { songs: self.songs, providers: self.content_providers, pending: rev };
        let ghost mut tr: Seq<Returning> = seq![init];
        proof {
            lemma_returns_start(init);
            assert(rev.subrange(0, n as int) =~= rev);
        }
        let mut i: usize = 0;
        while i < ids.len()
            invariant
                start == *old(self),
                self.wf(),
                Self::given_back(start, *self),
                n == ids@.len(),
                rev == ids@.reverse(),
                i <= n,
                returns_along(tr),
                tr[0] == (Returning { songs: start.songs, providers: start.content_providers, pending: rev }),
                tr.last() == (Returning {
                    songs: self.songs,
                    providers: self.content_providers,
                    pending: rev.subrange(0, n - i),
                }),
            decreases ids@.len() - i,
        {
            let ghost before = *self;
            let res = self.unregister(GlobalContent::ID(ids[i]));
            proof {
                lemma_shrunk_trans(start.content_providers, before.content_providers, self.content_providers);
                lemma_shrunk_trans(start.songs, before.songs, self.songs);
                let ti = choose|t: Seq<Returning>| #[trigger] returns_along(t) && t[0] == (Returning {
                    songs: before.songs,
                    providers: before.content_providers,
                    pending: seq![ids@[i as int]],
                }) && ends_at(t, self.songs, self.content_providers, failure(res));
                let below = rev.subrange(0, n - i - 1);
                assert(rev[n - i - 1] == ids@[i as int]);
                assert(below + seq![ids@[i as int]] =~= rev.subrange(0, n - i));
                lemma_lifted(ti, below);
                let l = lifted(ti, below);
                lemma_returns_concat(tr, l);
                tr = tr + l.drop_first();
                if res is Ok {
                    assert(below + ti.last().pending =~= rev.subrange(0, n - (i + 1)));
                }
            }
            match res {
                Ok(()) => {},
                Err(e) => {
                    proof {
                        assert(ends_at(tr, self.songs, self.content_providers, Some(e)));
                    }
                    return Err(e);
                },
            }
            i = i + 1;
        }
        proof {
            assert(ends_at(tr, self.songs, self.content_providers, None));
        }
        Ok(())
    }

    /// Runs a list of yank actions in turn, stopping at the first error; the
    /// list succeeds where every action does.
    fn apply_yank_actions(&mut self, v: &Vec<YankAction>, Ghost(parent): Ghost<YankAction>) -> (r: Result<bool, ActionError>)
        requires
            old(self).wf(),
            forall|i: int| 0 <= i < v@.len() ==> decreases_to!(parent => #[trigger] v@[i]),
        ensures
            final(self).wf(),
            final(self).content_stack == old(self).content_stack,
            Self::actions_post(*old(self), *final(self), v@, r),
        decreases parent, 0nat,
    {
        let ghost start = *self;
        let mut all = true;
        let mut i: usize = 0;
        proof {
            assert(v@.skip(0) =~= v@);
            assert forall|b2: Self, r2: Result<bool, ActionError>, t2: Seq<RunStep>| #[trigger] Self::steps_run(
                *self,
                b2,
                v@.skip(0),
                r2,
                t2,
            ) implies Self::actions_post(start, b2, v@, and_then(true, r2)) by {
                assert(and_then(true, r2) == r2);
                assert(Self::steps_run(start, b2, v@, r2, t2));
            }
        }
        while i < v.len()
            invariant
                start == *old(self),
                self.wf(),
                self.content_stack == start.content_stack,
                i <= v@.len(),
                forall|k: int| 0 <= k < v@.len() ==> decreases_to!(parent => #[trigger] v@[k]),
                forall|b2: Self, r2: Result<bool, ActionError>, t2: Seq<RunStep>| #[trigger] Self::steps_run(
                    *self,
                    b2,
                    v@.skip(i as int),
                    r2,
                    t2,
                ) ==> Self::actions_post(start, b2, v@, and_then(all, r2)),
            decreases v@.len() - i,
        {
            assert(decreases_to!(parent => v@[i as int]));
            let ghost cur = *self;
            let res = self.apply_yank_action(&v[i]);
            let ghost next = *self;
            let ghost rest = v@.skip(i as int);
            let ghost t1 = choose|t: RunTrace| #[trigger] Self::runs(cur, next, v@[i as int], res, t);
            proof {
                assert(rest.len() > 0);
                assert(rest[0] == v@[i as int]);
                assert(rest.drop_first() =~= v@.skip(i + 1));
            }
            match res {
                Err(e) => {
                    proof {
                        let st = RunStep { after: next, answer: res, run: t1, rest: Ok::<bool, ActionError>(true) };
                        let t = seq![st];
                        assert(t[0] == st);
                        assert(Self::steps_run(cur, next, rest, Err::<bool, ActionError>(e), t));
                        assert(and_then(all, Err::<bool, ActionError>(e)) == Err::<bool, ActionError>(e));
                    }
                    return Err(e);
                },
                Ok(b) => {
                    proof {
                        assert forall|b2: Self, r2: Result<bool, ActionError>, t2: Seq<RunStep>| #[trigger] Self::steps_run(
                            next,
                            b2,
                            v@.skip(i + 1),
                            r2,
                            t2,
                        ) implies Self::actions_post(start, b2, v@, and_then(all && b, r2)) by {
                            let st = RunStep { after: next, answer: res, run: t1, rest: r2 };
                            let t = seq![st] + t2;
                            assert(t[0] == st);
                            assert(t.drop_first() =~= t2);
                            assert(Self::steps_run(cur, b2, rest, and_then(b, r2), t));
                            assert(and_then(all, and_then(b, r2)) == and_then(all && b, r2));
                        }
                    }
                    all = all && b;
                },
            }
            i = i + 1;
        }
        proof {
            assert(v@.skip(i as int) =~= Seq::<YankAction>::empty());
            assert(Self::steps_run(*self, *self, v@.skip(i as int), Ok::<bool, ActionError>(true), Seq::<RunStep>::empty()));
            assert(and_then(all, Ok::<bool, ActionError>(true)) == Ok::<bool, ActionError>(all));
        }
        Ok(all)
    }

    /// Carries out an action that holds no others.
    fn apply_single_action(&mut self, a: &YankAction) -> (r: Result<bool, ActionError>)
        requires
            old(self).wf(),
            !(*a is Actions),
            !(*a is Conditional),
        ensures
            final(self).wf(),
            Self::step_post(*old(self), *final(self), *a, r),
    {
        let ghost start = *self;
        match a {
            YankAction::False => Ok(false),
            YankAction::Noop => Ok(true),
            YankAction::RefreshDisplayContent => Ok(true),
            YankAction::ProviderExists { id } => Ok(self.content_providers.get(*id).is_some()),
            YankAction::DropYanker => {
                self.edit_manager.yanker = None;
                Ok(true)
            },
            YankAction::PushEdit { edit } => {
                let e = copy_edit(edit);
                self.edit_manager.edit_stack.push(e);
                proof {
                    assert(self.edit_manager.edit_stack@.drop_last() =~= start.edit_manager.edit_stack@);
                }
                Ok(true)
            },
            YankAction::Register { ids } => match self.register_all(ids) {
                Ok(()) => Ok(true),
                Err(e) => Err(ActionError::Register(e)),
            },
            YankAction::Unregister { ids } => match self.unregister_all(ids) {
                Ok(()) => Ok(true),
                Err(e) => Err(ActionError::Register(e)),
            },
            YankAction::ClearUndoStack => {
                if self.edit_manager.undo_stack.len() == 0 {
                    return Ok(true);
                }
                let mut flat: Vec<ID> = Vec::new();
                let mut i: usize = 0;
                while i < self.edit_manager.undo_stack.len()
                    invariant
                        *self == start,
                        start == *old(self),
                        *a is ClearUndoStack,
                        self.wf(),
                        self.edit_manager.undo_stack@.len() > 0,
                        i <= self.edit_manager.undo_stack@.len(),
                        flat@ == all_edit_ids(self.edit_manager.undo_stack@.take(i as int)),
                        no_text_edits(self.edit_manager.undo_stack@.take(i as int)),
                    decreases self.edit_manager.undo_stack@.len() - i,
                {
                    let ghost s = self.edit_manager.undo_stack@;
                    proof {
                        assert(s.take(i + 1).drop_last() =~= s.take(i as int));
                        assert(s.take(i + 1).last() == s[i as int]);
                    }
                    let ids = match edit_ids_of(&self.edit_manager.undo_stack[i]) {
                        Some(ids) => ids,
                        None => {
                            proof {
                                assert(!no_text_edits(s));
                            }
                            return Err(ActionError::TextEdit);
                        },
                    };
                    let ghost prev = flat@;
                    let mut k: usize = 0;
                    while k < ids.len()
                        invariant
                            k <= ids@.len(),
                            flat@ == prev + ids@.take(k as int),
                        decreases ids@.len() - k,
                    {
                        flat.push(ids[k]);
                        proof {
                            assert(flat@ =~= prev + ids@.take(k + 1));
                        }
                        k = k + 1;
                    }
                    proof {
                        assert(ids@.take(ids@.len() as int) =~= ids@);
                        assert forall|t: int| 0 <= t < i + 1 implies !(#[trigger] s.take(i + 1)[t] is TextEdit) by {
                            if t < i {
                                assert(s.take(i + 1)[t] == s.take(i as int)[t]);
                            }
                        }
                    }
                    i = i + 1;
                }
                proof {
                    assert(self.edit_manager.undo_stack@.take(i as int) =~= self.edit_manager.undo_stack@);
                }
                self.edit_manager.undo_stack = Vec::new();
                match self.unregister_all(&flat) {
                    Ok(()) => Ok(true),
                    Err(e) => Err(ActionError::Register(e)),
                }
            },
            YankAction::RemoveFromProvider { yank, yanked_from } => self.remove_yank_from(yank, *yanked_from),
            YankAction::PasteIntoProvider { yank, yanked_to, paste_pos } => {
                match self.paste_fits(yank, *yanked_to, *paste_pos) {
                    None => Ok(false),
                    Some(false) => Err(ActionError::PastEnd),
                    Some(true) => {
                        self.paste_into_provider(yank.copy(), *yanked_to, *paste_pos);
                        Ok(true)
                    },
                }
            },
            YankAction::InsertIntoProvider { yank, yanked_to } => {
                match self.insert_fits(yank, *yanked_to) {
                    None => Ok(false),
                    Some(false) => Err(ActionError::PastEnd),
                    Some(true) => {
                        self.insert_into_provider(yank.copy(), *yanked_to);
                        Ok(true)
                    },
                }
            },
            YankAction::TryPasteIntoProvider { yank, yanked_to, paste_pos } => {
                match self.paste_fits(yank, *yanked_to, *paste_pos) {
                    None => Ok(false),
                    Some(false) => Err(ActionError::PastEnd),
                    Some(true) => {
                        if self.content_providers.num_slots_exec() >= usize::MAX - yank.len() {
                            return Err(ActionError::PastEnd);
                        }
                        let r = match yank {
                            YankedContent::Songs { items } => self.try_paste_songs(copy_yanks(items), *paste_pos, *yanked_to),
                            YankedContent::Providers { items } => self.try_paste_queues(copy_yanks(items), *paste_pos, *yanked_to),
                        };
                        match r {
                            Ok(b) => Ok(b),
                            Err(e) => Err(ActionError::Register(e)),
                        }
                    },
                }
            },
            _ => {
                proof {
                    assert(false);
                }
                Ok(false)
            },
        }
    }

    /// Carries out a yank action, answering whether it succeeded: items are
    /// taken out of, pasted or put back into providers that take them (a
    /// provider that does not answers `false`), ids are counted or given
    /// back, edits recorded, the yanker dropped; a list succeeds where all
    /// its actions do; a conditional runs its second or third list as its
    /// first succeeds. Where a paste would go past the end of a provider, or
    /// items to take out are not where they are said to be, it stops with an
    /// error.
    pub fn apply_yank_action(&mut self, a: &YankAction) -> (r: Result<bool, ActionError>)
        requires
            old(self).wf(),
        ensures
            final(self).wf(),
            final(self).content_stack == old(self).content_stack,
            Self::action_post(*old(self), *final(self), *a, r),
        decreases *a, 1nat,
    {
        let ghost start = *self;
        match a {
            YankAction::Actions { v } => {
                proof {
                    assert forall|i: int| 0 <= i < v@.len() implies decreases_to!(*a => #[trigger] v@[i]) by {
                        assert(decreases_to!(*a => *v));
                        assert(decreases_to!(*v => v@));
                        assert(decreases_to!(v@ => v@[i]));
                    }
                }
                let r = self.apply_yank_actions(v, Ghost(*a));
                proof {
                    let steps = choose|steps: Seq<RunStep>| #[trigger] Self::steps_run(start, *self, v@, r, steps);
                    assert(Self::runs(start, *self, *a, r, RunTrace::Steps(steps)));
                }
                r
            },
            YankAction::Conditional { if_this, then_this, else_this } => {
                proof {
                    assert forall|i: int| 0 <= i < if_this@.len() implies decreases_to!(*a => #[trigger] if_this@[i]) by {
                        assert(decreases_to!(*a => *if_this));
                        assert(decreases_to!(*if_this => if_this@));
                        assert(decreases_to!(if_this@ => if_this@[i]));
                    }
                    assert forall|i: int| 0 <= i < then_this@.len() implies decreases_to!(*a => #[trigger] then_this@[i]) by {
                        assert(decreases_to!(*a => *then_this));
                        assert(decreases_to!(*then_this => then_this@));
                        assert(decreases_to!(then_this@ => then_this@[i]));
                    }
                    assert forall|i: int| 0 <= i < else_this@.len() implies decreases_to!(*a => #[trigger] else_this@[i]) by {
                        assert(decreases_to!(*a => *else_this));
                        assert(decreases_to!(*else_this => else_this@));
                        assert(decreases_to!(else_this@ => else_this@[i]));
                    }
                }
                let first = self.apply_yank_actions(if_this, Ghost(*a));
                let ghost mid = *self;
                let ghost s1 = choose|steps: Seq<RunStep>| #[trigger] Self::steps_run(start, mid, if_this@, first, steps);
                match first {
                    Err(e) => {
                        proof {
                            assert(Self::runs(start, mid, *a, Err::<bool, ActionError>(e), RunTrace::Branch(s1, first, mid, Seq::empty())));
                        }
                        Err(e)
                    },
                    Ok(true) => {
                        let r = self.apply_yank_actions(then_this, Ghost(*a));
                        proof {
                            let s2 = choose|steps: Seq<RunStep>| #[trigger] Self::steps_run(mid, *self, then_this@, r, steps);
                            assert(Self::runs(start, *self, *a, r, RunTrace::Branch(s1, first, mid, s2)));
                        }
                        r
                    },
                    Ok(false) => {
                        let r = self.apply_yank_actions(else_this, Ghost(*a));
                        proof {
                            let s2 = choose|steps: Seq<RunStep>| #[trigger] Self::steps_run(mid, *self, else_this@, r, steps);
                            assert(Self::runs(start, *self, *a, r, RunTrace::Branch(s1, first, mid, s2)));
                        }
                        r
                    },
                }
            },
            _ => {
                let r = self.apply_single_action(a);
                proof {
                    assert(Self::runs(start, *self, *a, r, RunTrace::Leaf));
                }
                r
            },
        }
    }

    /// Whether yanked items can be taken out of a provider: none where the
    /// provider does not hold such items (songs are taken out of queues,
    /// queues out of the queue provider); otherwise whether every yank names
    /// its entry (item and position).
    pub open spec fn remove_fit(&self, yank: YankedView, from: ContentProviderID) -> Option<bool> {
        match (yank, self.provider(from)) {
            (YankedView::Songs(items), Some(ContentProvider::Queue(q))) => Some(
                remove_walk(sort_by_index(items), q.songs@, 0, q.index@ as int).1.len() == 0,
            ),
            (YankedView::Providers(items), Some(ContentProvider::QueueProvider(qp))) => Some(
                remove_walk(sort_by_index(items), qp.queues(), 0, qp.selection() as int).1.len() == 0,
            ),
            _ => None,
        }
    }

    /// Whether yanked items can be pasted into a provider at `pos`: none
    /// where the provider does not take them (songs go into queues, queues
    /// into the queue provider); otherwise whether the position lies within
    /// the provider and the items fit after it.
    pub open spec fn paste_fit(&self, yank: YankedView, to: ContentProviderID, pos: Option<usize>) -> Option<bool> {
        let n = view_len(yank);
        match (yank, self.provider(to)) {
            (YankedView::Songs(_), Some(ContentProvider::Queue(q))) => {
                let len = q.songs@.len();
                let base = match pos {
                    Some(j) => j as int,
                    None => len as int,
                };
                Some(
                    (pos matches Some(j) ==> j <= len) && (q.currently_playing matches Some(c) ==> len > 0 && c + n
                        <= usize::MAX) && base + n <= usize::MAX,
                )
            },
            (YankedView::Providers(_), Some(ContentProvider::QueueProvider(qp))) => {
                let len = qp.queues().len();
                let base = match pos {
                    Some(j) => j as int,
                    None => len as int,
                };
                Some((pos matches Some(j) ==> j <= len) && base + n <= usize::MAX)
            },
            _ => None,
        }
    }

    /// See `paste_fit`.
    pub fn paste_fits(&self, yank: &YankedContent, to: ContentProviderID, pos: Option<usize>) -> (r: Option<bool>)
        ensures
            r == self.paste_fit(yank@, to, pos),
    {
        let n = yank.len();
        match (yank, self.content_providers.get(to)) {
            (YankedContent::Songs { .. }, Some(ContentProvider::Queue(q))) => {
                let len = q.songs.len();
                let base = match pos {
                    Some(j) => j,
                    None => len,
                };
                let pos_ok = match pos {
                    Some(j) => j <= len,
                    None => true,
                };
                let cp_ok = match q.currently_playing {
                    Some(c) => len > 0 && c <= usize::MAX - n,
                    None => true,
                };
                Some(pos_ok && cp_ok && base <= usize::MAX - n)
            },
            (YankedContent::Providers { .. }, Some(ContentProvider::QueueProvider(qp))) => {
                let len = qp.providers().len();
                let base = match pos {
                    Some(j) => j,
                    None => len,
                };
                let pos_ok = match pos {
                    Some(j) => j <= len,
                    None => true,
                };
                Some(pos_ok && base <= usize::MAX - n)
            },
            _ => None,
        }
    }

    /// Whether yanked items can be put back into a provider: none where the
    /// provider does not take them; otherwise, for a queue playing a song,
    /// whether its position still fits once the items before it are back and
    /// the queue is not left empty.
    pub open spec fn insert_fit(&self, yank: YankedView, to: ContentProviderID) -> Option<bool> {
        match (yank, self.provider(to)) {
            (YankedView::Songs(items), Some(ContentProvider::Queue(q))) => match q.currently_playing {
                Some(c) => Some(
                    c + shift_count(sort_by_index(items), c as int, 0) <= usize::MAX && (q.songs@.len() > 0 || items.len()
                        > 0),
                ),
                None => Some(true),
            },
            (YankedView::Providers(_), Some(ContentProvider::QueueProvider(_))) => Some(true),
            _ => None,
        }
    }

    /// See `insert_fit`.
    pub fn insert_fits(&self, yank: &YankedContent, to: ContentProviderID) -> (r: Option<bool>)
        ensures
            r == self.insert_fit(yank@, to),
    {
        match (yank, self.content_providers.get(to)) {
            (YankedContent::Songs { items }, Some(ContentProvider::Queue(q))) => {
                match q.currently_playing {
                    Some(c) => {
                        let shift = count_shift(items, c);
                        Some(c <= usize::MAX - shift && (q.songs.len() > 0 || items.len() > 0))
                    },
                    None => Some(true),
                }
            },
            (YankedContent::Providers { .. }, Some(ContentProvider::QueueProvider(_))) => Some(true),
            _ => None,
        }
    }

    /// Takes yanked items out of a provider that holds them (songs out of a
    /// queue, queues out of the queue provider), answering whether the
    /// provider takes such items; stops with an error where an item is not
    /// where it is said to be.
    pub fn remove_yank_from(&mut self, yank: &YankedContent, from: ContentProviderID) -> (r: Result<bool, ActionError>)
        requires
            old(self).wf(),
        ensures
            final(self).wf(),
            Self::yank_removed(*old(self), *final(self), yank@, from, r),
    {
        let fits = match (yank, self.content_providers.get(from)) {
            (YankedContent::Songs { items }, Some(ContentProvider::Queue(q))) => Some(
                all_found(&q.songs, items, q.index.selected_index()),
            ),
            (YankedContent::Providers { items }, Some(ContentProvider::QueueProvider(qp))) => Some(
                all_found(qp.providers(), items, qp.get_selected_index().selected_index()),
            ),
            _ => None,
        };
        match fits {
            None => Ok(false),
            Some(false) => Err(ActionError::NotAllRemoved),
            Some(true) => {
                let ghost before = self.content_providers;
                match (yank, self.content_providers.get_mut(from)) {
                    (YankedContent::Songs { items }, Some(ContentProvider::Queue(q))) => q.remove(copy_yanks(items)),
                    (YankedContent::Providers { items }, Some(ContentProvider::QueueProvider(qp))) => qp.remove(
                        copy_yanks(items),
                    ),
                    _ => {},
                }
                proof {
                    assert(before.is_live(from.key_index() as int));
                }
                Ok(true)
            },
        }
    }
}

/// Opening a provider on the stack and stepping back again leaves the stack
/// and the registers as they were (the provider counts as many ids again).
pub proof fn lemma_back_undoes_open(a: ContentManager, b: ContentManager, c: ContentManager, p: ContentProviderID, r: Result<Option<GlobalContent>, RegisterError>)
    requires
        a.wf(),
        a.content_stack.state_view() is Normal,
        a.provider(p) is Some,
        a.content_providers.current_generation() < u64::MAX,
        b.content_stack.entries() == a.content_stack.entries().push(GlobalContent::ID(ID::ContentProvider(p))),
        b.content_stack.state_view() == a.content_stack.state_view(),
        ContentRegister::register_post(a.content_providers, b.content_providers, p.key_index() as int),
        b.songs == a.songs,
        ContentManager::stepped_back_one(b, c, r),
    ensures
        r == Ok::<Option<GlobalContent>, RegisterError>(Some(GlobalContent::ID(ID::ContentProvider(p)))),
        c.content_stack.entries() == a.content_stack.entries(),
        c.songs == a.songs,
        ContentRegister::same_except(a.content_providers, c.content_providers, p.key_index() as int),
        c.content_providers.is_live(p.key_index() as int),
        c.content_providers.slot_count(p.key_index() as int) == a.content_providers.slot_count(p.key_index() as int),
        c.content_providers.slot_val(p.key_index() as int) == a.content_providers.slot_val(p.key_index() as int),
        c.content_providers.slot_generation(p.key_index() as int) == a.content_providers.slot_generation(p.key_index() as int),
{
    let i = p.key_index() as int;
    assert(a.content_providers.is_live(i));
    assert(b.content_stack.entries().drop_last() =~= a.content_stack.entries());
    assert(b.top_provider() == Some(p));
    lemma_live_counted(a.content_providers, i);
    lemma_register_unregister(a.content_providers, b.content_providers, c.content_providers, i, None);
}

/// What `unregister` hands back for slot `i`: nothing while ids are left,
/// else the item.
pub open spec fn dropped_value<T, P: ContentKey>(a: ContentRegister<T, P>, i: int) -> Option<T> {
    if a.slot_count(i) > 1 {
        None
    } else {
        Some(a.slot_val(i))
    }
}

proof fn lemma_unregister_shrinks<T, P: ContentKey>(a: ContentRegister<T, P>, b: ContentRegister<T, P>, i: int, r: Option<T>)
    requires
        a.is_live(i),
        ContentRegister::unregister_post(a, b, i, r),
    ensures
        shrunk(a, b),
{
}

/// Queues the ids a dropped provider listed so that they are taken in turn:
/// its songs first, then its providers.
fn push_children(pending: &mut Vec<ID>, cp: &ContentProvider)
    ensures
        final(pending)@ == old(pending)@ + children_of(*cp),
{
    let songs = cp.songs();
    let providers = cp.providers();
    let ghost ps = cp.providers_of();
    let ghost ss = cp.songs_of();
    let mut k = providers.len();
    while k > 0
        invariant
            k <= providers@.len(),
            providers@ == ps,
            pending@ == old(pending)@ + Seq::new((ps.len() - k) as nat, |t: int| ID::ContentProvider(ps[ps.len() - 1 - t])),
        decreases k,
    {
        k = k - 1;
        pending.push(ID::ContentProvider(providers[k]));
        assert(pending@ =~= old(pending)@ + Seq::new((ps.len() - k) as nat, |t: int| ID::ContentProvider(ps[ps.len() - 1 - t])));
    }
    let ghost after_providers = pending@;
    let mut j = songs.len();
    while j > 0
        invariant
            j <= songs@.len(),
            songs@ == ss,
            pending@ == after_providers + Seq::new((ss.len() - j) as nat, |t: int| ID::Song(ss[ss.len() - 1 - t])),
        decreases j,
    {
        j = j - 1;
        pending.push(ID::Song(songs[j]));
        assert(pending@ =~= after_providers + Seq::new((ss.len() - j) as nat, |t: int| ID::Song(ss[ss.len() - 1 - t])));
    }
    assert(pending@ =~= old(pending)@ + children_of(*cp));
}

/// What taking `ids` out in turn leaves of a provider's songs and providers,
/// and the ids it did not list at their turn.
pub open spec fn removed_ids(songs: Seq<SongID>, providers: Seq<ContentProviderID>, ids: Seq<ID>) -> (
    Seq<SongID>,
    Seq<ContentProviderID>,
    Seq<ID>,
)
    decreases ids.len(),
{
    if ids.len() == 0 {
        (songs, providers, Seq::empty())
    } else {
        let (s, p, m) = removed_ids(songs, providers, ids.drop_last());
        match ids.last() {
            ID::Song(x) => match first_at(s, x) {
                Some(k) => (s.remove(k), p, m),
                None => (s, p, m.push(ids.last())),
            },
            ID::ContentProvider(x) => match first_at(p, x) {
                Some(k) => (s, p.remove(k), m),
                None => (s, p, m.push(ids.last())),
            },
        }
    }
}

/// Yanks put at the positions a paste gives them: one after the other from
/// `start`, or from the end `n` of the list.
pub open spec fn reindexed<T>(items: Seq<Yank<T>>, start: Option<usize>, n: usize) -> Seq<Yank<T>> {
    Seq::new(
        items.len(),
        |i: int|
            Yank {
                item: items[i].item,
                index: (match start {
                    Some(j) => j as int,
                    None => n as int,
                } + i) as usize,
            },
    )
}

/// Puts yanks at the positions a paste gives them.
pub fn reindex<T: Copy>(items: &Vec<Yank<T>>, start: Option<usize>, n: usize) -> (r: Vec<Yank<T>>)
    requires
        (match start {
            Some(j) => j as int,
            None => n as int,
        }) + items@.len() <= usize::MAX,
    ensures
        r@ == reindexed(items@, start, n),
{
    let base = match start {
        Some(j) => j,
        None => n,
    };
    let mut r: Vec<Yank<T>> = Vec::new();
    let mut i: usize = 0;
    while i < items.len()
        invariant
            i <= items@.len(),
            base + items@.len() <= usize::MAX,
            base == (match start {
                Some(j) => j,
                None => n,
            }),
            r@ == reindexed(items@, start, n).take(i as int),
        decreases items@.len() - i,
    {
        r.push(Yank { item: items[i].item, index: base + i });
        proof {
            assert(r@ =~= reindexed(items@, start, n).take(i + 1));
        }
        i = i + 1;
    }
    proof {
        assert(reindexed(items@, start, n).take(items@.len() as int) =~= reindexed(items@, start, n));
    }
    r
}

/// The yanks of `ids` at the positions a paste gives them.
fn reindex_ids(ids: &Vec<ContentProviderID>, start: Option<usize>, n: usize) -> (r: Vec<Yank<ContentProviderID>>)
    requires
        (match start {
            Some(j) => j as int,
            None => n as int,
        }) + ids@.len() <= usize::MAX,
    ensures
        r@ == reindexed(r@, start, n),
        yanked_items(r@) == ids@,
{
    let base = match start {
        Some(j) => j,
        None => n,
    };
    let mut r: Vec<Yank<ContentProviderID>> = Vec::new();
    let mut i: usize = 0;
    while i < ids.len()
        invariant
            i <= ids@.len(),
            base + ids@.len() <= usize::MAX,
            base == (match start {
                Some(j) => j,
                None => n,
            }),
            r@.len() == i,
            forall|k: int| 0 <= k < i ==> #[trigger] r@[k] == (Yank { item: ids@[k], index: (base + k) as usize }),
        decreases ids@.len() - i,
    {
        r.push(Yank { item: ids[i], index: base + i });
        i = i + 1;
    }
    proof {
        assert(r@ =~= reindexed(r@, start, n));
        assert(yanked_items(r@) =~= ids@);
    }
    r
}


/// A fresh slot taken by one more allocation keeps the ids handed out so
/// far fresh, distinct and held once.
proof fn lemma_fresh_push<T, P: ContentKey>(
    a: ContentRegister<T, P>,
    before: ContentRegister<T, P>,
    after: ContentRegister<T, P>,
    ids: Seq<P>,
    x: T,
    id: P,
)
    requires
        ContentManager::fresh_ids_held_once(a, before, ids),
        forall|j: int| #[trigger] a.is_live(j) ==> before.is_live(j),
        ContentRegister::alloc_post(before, after, x, id),
    ensures
        ContentManager::fresh_ids_held_once(a, after, ids.push(id)),
        forall|j: int| #[trigger] a.is_live(j) ==> after.is_live(j),
{
    let is = ids.push(id);
    let i = id.key_index() as int;
    assert forall|k: int| 0 <= k < is.len() implies #[trigger] after.is_live(is[k].key_index() as int) && after.slot_count(
        is[k].key_index() as int,
    ) == 1 by {
        if k < ids.len() {
            let y = ids[k].key_index() as int;
            assert(before.is_live(y));
            assert(y != i);
            assert(after.slot_generation(y) == before.slot_generation(y));
        }
    }
    assert forall|k: int| 0 <= k < is.len() implies !a.is_live(#[trigger] is[k].key_index() as int) by {
        if k < ids.len() {
            assert(is[k] == ids[k]);
        }
    }
    assert forall|j: int, k: int| 0 <= j < k < is.len() implies #[trigger] is[j].key_index() != #[trigger] is[k].key_index() by {
        if k < ids.len() {
            assert(is[j] == ids[j] && is[k] == ids[k]);
        } else {
            assert(before.is_live(ids[j].key_index() as int));
        }
    }
    assert forall|j: int| #[trigger] a.is_live(j) implies after.is_live(j) by {
        assert(before.is_live(j));
    }
}

} // verus!
