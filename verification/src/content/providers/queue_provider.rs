use vstd::prelude::*;

use crate::content::providers::traits::{lemma_merge_positions, ordered_positions, spliced_at, kept_positions, lemma_remove_walk_positions, lemma_sort_positions, yank_positions, 
    copy_list,
    first_at, insert_merge, merge_by_index, paste_into, paste_moves, pasted, remove_first, remove_walk,
    remove_walk_exec, shift_count, sort_by_index, yanked_items, CPYankDest,
};
use crate::content::register::{ContentProviderID, ID};
use crate::content::selection::{
    selection_decrement, selection_decrement_n, selection_increment, selection_increment_n, stepped_down,
    stepped_down_n, stepped_up, stepped_up_n, SelectedIndex,
};
use crate::service::editors::Yank;

verus! {

/// How many queues are kept; the oldest goes when one more is added.
pub const MAX_QUEUES: usize = 50;

/// Ids of providers as the ids a provider shows.
pub open spec fn provider_ids(s: Seq<ContentProviderID>) -> Seq<ID> {
    s.map_values(|p: ContentProviderID| ID::ContentProvider(p))
}

/// Fills a list of ids from provider ids.
pub fn provider_id_list(s: &Vec<ContentProviderID>) -> (r: Vec<ID>)
    ensures
        r@ == provider_ids(s@),
{
    let mut r: Vec<ID> = Vec::new();
    let mut k: usize = 0;
    while k < s.len()
        invariant
            k <= s@.len(),
            r@ == provider_ids(s@.take(k as int)),
        decreases s@.len() - k,
    {
        r.push(ID::ContentProvider(s[k]));
        proof {
            assert(provider_ids(s@.take(k as int + 1)) =~= provider_ids(s@.take(k as int)).push(
                ID::ContentProvider(s@[k as int]),
            ));
        }
        k = k + 1;
    }
    proof {
        assert(s@.take(s@.len() as int) =~= s@);
    }
    r
}

/// The queues played from, most recent first.
pub struct QueueProvider {
    providers: Vec<ContentProviderID>,
    name: String,
    selected: SelectedIndex,
}

impl QueueProvider {
    pub closed spec fn queues(&self) -> Seq<ContentProviderID> {
        self.providers@
    }

    pub closed spec fn selection(&self) -> usize {
        self.selected@
    }

    pub closed spec fn title(&self) -> Seq<char> {
        self.name@
    }

    /// A copy of the provider.
    pub fn cp_clone(&self) -> (r: QueueProvider)
        ensures
            r.queues() == self.queues(),
            r.selection() == self.selection(),
            r.title() == self.title(),
    {
        QueueProvider { providers: copy_list(&self.providers), name: self.name.clone(), selected: self.selected }
    }

    /// No queue yet, named "Queues".
    pub fn new() -> (r: QueueProvider)
        ensures
            r.queues().len() == 0,
            r.selection() == 0,
            r.title() == "Queues"@,
    {
        QueueProvider { providers: Vec::new(), name: String::from_str("Queues"), selected: SelectedIndex::new() }
    }

    /// The queues, most recent first.
    pub fn providers(&self) -> (r: &Vec<ContentProviderID>)
        ensures
            r@ == self.queues(),
    {
        &self.providers
    }

    pub fn get_name(&self) -> (r: &String)
        ensures
            r@ == self.title(),
    {
        &self.name
    }

    /// Puts a queue on top; where that makes more than `MAX_QUEUES`, the
    /// oldest is dropped and returned.
    pub fn add_queue(&mut self, id: ContentProviderID) -> (r: Option<ContentProviderID>)
        ensures
            old(self).queues().len() + 1 > MAX_QUEUES ==> {
                &&& r == Some(seq![id].add(old(self).queues()).last())
                &&& final(self).queues() == seq![id].add(old(self).queues()).drop_last()
            },
            old(self).queues().len() + 1 <= MAX_QUEUES ==> {
                &&& r is None
                &&& final(self).queues() == seq![id].add(old(self).queues())
            },
            final(self).selection() == old(self).selection(),
            final(self).title() == old(self).title(),
    {
        self.providers.insert(0, id);
        proof {
            assert(self.providers@ =~= seq![id].add(old(self).queues()));
        }
        if self.providers.len() > MAX_QUEUES {
            self.providers.pop()
        } else {
            None
        }
    }

    /// Moves the queue at `index` on top. Panics where there is none.
    pub fn move_to_top(&mut self, index: usize)
        requires
            index < old(self).queues().len(),
        ensures
            final(self).queues() == seq![old(self).queues()[index as int]].add(
                old(self).queues().remove(index as int),
            ),
            final(self).selection() == old(self).selection(),
            final(self).title() == old(self).title(),
    {
        let id = self.providers.remove(index);
        self.providers.insert(0, id);
        proof {
            assert(self.providers@ =~= seq![old(self).queues()[index as int]].add(
                old(self).queues().remove(index as int),
            ));
        }
    }

    pub fn add_provider(&mut self, id: ContentProviderID)
        ensures
            final(self).queues() == old(self).queues().push(id),
            final(self).selection() == old(self).selection(),
            final(self).title() == old(self).title(),
    {
        self.providers.push(id);
    }

    /// Forgets every queue.
    pub fn clear_providers(&mut self)
        ensures
            final(self).queues().len() == 0,
            final(self).selection() == old(self).selection(),
            final(self).title() == old(self).title(),
    {
        self.providers.clear();
    }

    pub fn ids(&self) -> (r: Vec<ID>)
        ensures
            r@ == provider_ids(self.queues()),
    {
        provider_id_list(&self.providers)
    }

    pub fn get_size(&self) -> (r: usize)
        ensures
            r == self.queues().len(),
    {
        self.providers.len()
    }

    pub fn get_selected_index(&self) -> (r: SelectedIndex)
        ensures
            r@ == self.selection(),
    {
        self.selected
    }

    pub fn select(&mut self, index: usize)
        ensures
            final(self).selection() == index,
            final(self).queues() == old(self).queues(),
            final(self).title() == old(self).title(),
    {
        self.selected.select(index);
    }

    /// The id of the selected entry. Panics where the selection is past the end.
    pub fn get_selected(&self) -> (r: ID)
        requires
            self.selection() < self.queues().len(),
        ensures
            r == ID::ContentProvider(self.queues()[self.selection() as int]),
    {
        ID::ContentProvider(self.providers[self.selected.selected_index()])
    }

    pub fn selection_increment(&mut self) -> (moved: bool)
        ensures
            final(self).selection() == stepped_down(old(self).selection(), old(self).queues().len() as usize),
            moved == (old(self).selection() + 1 < old(self).queues().len()),
            final(self).queues() == old(self).queues(),
            final(self).title() == old(self).title(),
    {
        let n = self.providers.len();
        selection_increment(&mut self.selected, n)
    }

    pub fn selection_decrement(&mut self) -> (moved: bool)
        ensures
            final(self).selection() == stepped_up(old(self).selection()),
            moved == (old(self).selection() > 0),
            final(self).queues() == old(self).queues(),
            final(self).title() == old(self).title(),
    {
        selection_decrement(&mut self.selected)
    }

    /// Takes the first occurrence of `id` out; the selection moves up when it
    /// stood at or after it.
    pub fn remove_provider(&mut self, id: ContentProviderID) -> (r: Option<ContentProviderID>)
        ensures
            match first_at(old(self).queues(), id) {
                Some(k) => {
                    &&& r == Some(id)
                    &&& final(self).queues() == old(self).queues().remove(k)
                    &&& final(self).selection() == if k <= old(self).selection() {
                        stepped_up(old(self).selection())
                    } else {
                        old(self).selection()
                    }
                },
                None => {
                    &&& r is None
                    &&& final(self).queues() == old(self).queues()
                    &&& final(self).selection() == old(self).selection()
                },
            },
            final(self).title() == old(self).title(),
    {
        remove_first(&mut self.providers, &mut self.selected, id, 0)
    }

    /// `b` is `a` with the yanked queues `items` pasted at `start` (or at
    /// the end): the selection moves down past them where it stood at or
    /// after `start`.
    pub open spec fn pasted_into(a: QueueProvider, b: QueueProvider, items: Seq<Yank<ContentProviderID>>, start: Option<usize>) -> bool {
        &&& b.queues() == pasted(a.queues(), yanked_items(items), start)
        &&& b.selection() == if paste_moves(a.selection(), start) {
            stepped_down_n(a.selection(), items.len(), a.queues().len() as usize)
        } else {
            a.selection()
        }
        &&& b.title() == a.title()
    }

    /// Pastes queues at `start` (or at the end).
    pub fn paste(&mut self, items: Vec<Yank<ContentProviderID>>, start: Option<usize>)
        requires
            start matches Some(j) ==> j <= old(self).queues().len(),
        ensures
            QueueProvider::pasted_into(*old(self), *final(self), items@, start),
    {
        let n = self.providers.len();
        paste_into(&mut self.providers, &mut self.selected, n, &items, start);
    }

    /// `b` is `a` with the yanked queues `items` put back at their
    /// positions: the selection moves down past those put back before it.
    pub open spec fn inserted(a: QueueProvider, b: QueueProvider, items: Seq<Yank<ContentProviderID>>) -> bool {
        &&& b.queues() == merge_by_index(sort_by_index(items), a.queues(), Seq::empty())
        &&& b.selection() == stepped_down_n(
            a.selection(),
            shift_count(sort_by_index(items), a.selection() as int, 0),
            b.queues().len() as usize,
        )
        &&& b.title() == a.title()
        &&& spliced_at(a.queues(), b.queues(), items)
    }

    /// Puts queues back at their indices.
    pub fn insert(&mut self, items: Vec<Yank<ContentProviderID>>)
        ensures
            QueueProvider::inserted(*old(self), *final(self), items@),
    {
        let ghost before = self.queues();
        let selected = self.selected.selected_index();
        let counter = insert_merge(&mut self.providers, &items, selected);
        let len = self.providers.len();
        selection_increment_n(&mut self.selected, counter, len);
        proof {
            let o = sort_by_index(items@);
            if ordered_positions(o) && (o.len() > 0 ==> o.last().index < before.len() + o.len()) {
                lemma_merge_positions(o, before, Seq::empty());
                lemma_sort_positions(items@);
                assert(self.queues().skip(0) =~= self.queues());
            }
        }
    }

    /// `b` is `a` with the yanked queues `items` taken out: the selection
    /// moves up by as many as were taken out before it.
    pub open spec fn removed(a: QueueProvider, b: QueueProvider, items: Seq<Yank<ContentProviderID>>) -> bool {
        let walk = remove_walk(sort_by_index(items), a.queues(), 0, a.selection() as int);
        &&& b.queues() == kept_positions(a.queues(), 0, yank_positions(items))
        &&& b.queues() == walk.0
        &&& b.selection() == stepped_up_n(a.selection(), walk.2)
        &&& b.title() == a.title()
    }

    /// Takes out the queues that the yanks name (item and position).
    pub fn remove(&mut self, items: Vec<Yank<ContentProviderID>>)
        requires
            remove_walk(sort_by_index(items@), old(self).queues(), 0, old(self).selection() as int).1.len() == 0,
        ensures
            QueueProvider::removed(*old(self), *final(self), items@),
    {
        proof {
            lemma_remove_walk_positions(sort_by_index(items@), self.queues(), 0, self.selection() as int);
            lemma_sort_positions(items@);
        }
        let selected = self.selected.selected_index();
        let counter = remove_walk_exec(&mut self.providers, &items, selected);
        selection_decrement_n(&mut self.selected, counter);
    }
}

impl Default for QueueProvider {
    fn default() -> (r: QueueProvider)
        ensures
            r.queues().len() == 0,
            r.selection() == 0,
            r.title() == "Queues"@,
    {
        QueueProvider::new()
    }
}

impl CPYankDest for QueueProvider {}

} // verus!
