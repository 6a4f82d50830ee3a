use vstd::prelude::*;

use crate::content::providers::traits::{lemma_merge_positions, ordered_positions, spliced_at, kept_positions, lemma_remove_walk_positions, lemma_sort_positions, yank_positions, 
    copy_list,
    insert_merge, merge_by_index, paste_into, paste_moves, pasted, lemma_merge_len, lemma_sort_len, remove_walk, remove_walk_exec, shift_count,
    sort_by_index, yanked_items, count_shift, count_removed, first_at, is_first_at, lemma_first_at, SongYankDest,
};
use crate::content::register::{ContentProviderID, SongID, ID};
use crate::content::selection::{
    selection_decrement, selection_increment, selection_increment_n, selection_decrement_n,
    stepped_down, stepped_down_n, stepped_up, stepped_up_n, SelectedIndex,
};
use crate::service::editors::Yank;

verus! {

/// Songs lined up to be played, made from a song provider.
pub struct Queue {
    pub songs: Vec<SongID>,
    pub name: String,
    pub index: SelectedIndex,
    pub currently_playing: Option<usize>,
    /// The provider the queue was made from (not registered by the queue).
    pub source_cp: ContentProviderID,
}

/// Index of the first occurrence of `id` in `songs`.
pub fn find_song(songs: &Vec<SongID>, id: SongID) -> (r: Option<usize>)
    ensures
        match r {
            Some(k) => is_first_at(songs@, id, k as int),
            None => !songs@.contains(id),
        },
{
    let mut k: usize = 0;
    while k < songs.len()
        invariant
            k <= songs@.len(),
            forall|j: int| 0 <= j < k ==> songs@[j] != id,
        decreases songs@.len() - k,
    {
        if songs[k] == id {
            return Some(k);
        }
        k = k + 1;
    }
    None
}

impl Queue {
    /// A copy of the queue.
    pub fn cp_clone(&self) -> (r: Queue)
        ensures
            r.songs@ == self.songs@,
            r.name@ == self.name@,
            r.index == self.index,
            r.currently_playing == self.currently_playing,
            r.source_cp == self.source_cp,
    {
        Queue {
            songs: copy_list(&self.songs),
            name: self.name.clone(),
            index: self.index,
            currently_playing: self.currently_playing,
            source_cp: self.source_cp,
        }
    }

    /// A queue of the songs of a provider, named after it, playing nothing yet.
    pub fn new(songs: Vec<SongID>, name: String, source_cp: ContentProviderID) -> (q: Queue)
        ensures
            q.songs@ == songs@,
            q.name@ == name@,
            q.index@ == 0,
            q.currently_playing is None,
            q.source_cp == source_cp,
    {
        Queue { songs, name, index: SelectedIndex::new(), currently_playing: None, source_cp }
    }

    /// Where `song_id` first stands in the queue.
    pub fn contains_song(&self, song_id: SongID) -> (r: Option<usize>)
        ensures
            match r {
                Some(k) => is_first_at(self.songs@, song_id, k as int),
                None => !self.songs@.contains(song_id),
            },
    {
        find_song(&self.songs, song_id)
    }

    /// Marks the first occurrence of `id` as playing. Panics where the song is not in the queue.
    pub fn select_song(&mut self, id: SongID)
        requires
            old(self).songs@.contains(id),
        ensures
            final(self).currently_playing matches Some(k) && is_first_at(old(self).songs@, id, k as int),
            final(self).songs@ == old(self).songs@,
            final(self).index == old(self).index,
            final(self).name == old(self).name,
            final(self).source_cp == old(self).source_cp,
    {
        let index = find_song(&self.songs, id);
        match index {
            Some(k) => {
                self.currently_playing = Some(k);
            },
            None => {},
        }
    }

    /// Moves playback to the next song and returns it; nothing where nothing is
    /// playing or the last song is.
    pub fn next_song(&mut self) -> (r: Option<SongID>)
        ensures
            final(self).songs == old(self).songs,
            final(self).index == old(self).index,
            (final(self).currently_playing, r) == next_playing(old(self).songs@, old(self).currently_playing),
    {
        match self.currently_playing {
            Some(i) => {
                if i < self.songs.len() && i + 1 < self.songs.len() {
                    self.currently_playing = Some(i + 1);
                    Some(self.songs[i + 1])
                } else {
                    None
                }
            },
            None => None,
        }
    }

    /// Moves playback to the previous song and returns it; nothing where
    /// nothing is playing or the first song is.
    pub fn prev_song(&mut self) -> (r: Option<SongID>)
        ensures
            final(self).songs == old(self).songs,
            final(self).index == old(self).index,
            (final(self).currently_playing, r) == prev_playing(old(self).songs@, old(self).currently_playing),
    {
        match self.currently_playing {
            Some(i) => {
                if i > 0 {
                    self.currently_playing = Some(i - 1);
                    if i - 1 < self.songs.len() {
                        Some(self.songs[i - 1])
                    } else {
                        None
                    }
                } else {
                    None
                }
            },
            None => None,
        }
    }

    pub fn add_song(&mut self, id: SongID)
        ensures
            final(self).songs@ == old(self).songs@.push(id),
            final(self).index == old(self).index,
            final(self).currently_playing == old(self).currently_playing,
    {
        self.songs.push(id);
    }

    /// Number of entries shown.
    pub fn get_size(&self) -> (r: usize)
        ensures
            r == self.songs@.len(),
    {
        self.songs.len()
    }

    /// The ids of the entries, in order.
    pub fn ids(&self) -> (r: Vec<ID>)
        ensures
            r@ == self.songs@.map_values(|s: SongID| ID::Song(s)),
    {
        let mut r: Vec<ID> = Vec::new();
        let mut k: usize = 0;
        while k < self.songs.len()
            invariant
                k <= self.songs@.len(),
                r@ == self.songs@.take(k as int).map_values(|s: SongID| ID::Song(s)),
            decreases self.songs@.len() - k,
        {
            r.push(ID::Song(self.songs[k]));
            proof {
                assert(self.songs@.take(k as int + 1).map_values(|s: SongID| ID::Song(s))
                    =~= self.songs@.take(k as int).map_values(|s: SongID| ID::Song(s)).push(ID::Song(self.songs@[k as int])));
            }
            k = k + 1;
        }
        proof {
            assert(self.songs@.take(self.songs@.len() as int) =~= self.songs@);
        }
        r
    }

    /// The id of the selected entry. Panics where the selection is past the end.
    pub fn get_selected(&self) -> (r: ID)
        requires
            self.index@ < self.songs@.len(),
        ensures
            r == ID::Song(self.songs@[self.index@ as int]),
    {
        ID::Song(self.songs[self.index.selected_index()])
    }

    pub fn selection_increment(&mut self) -> (moved: bool)
        ensures
            final(self).index@ == stepped_down(old(self).index@, old(self).songs@.len() as usize),
            moved == (old(self).index@ + 1 < old(self).songs@.len()),
            final(self).songs == old(self).songs,
            final(self).currently_playing == old(self).currently_playing,
    {
        let n = self.songs.len();
        selection_increment(&mut self.index, n)
    }

    pub fn selection_decrement(&mut self) -> (moved: bool)
        ensures
            final(self).index@ == stepped_up(old(self).index@),
            moved == (old(self).index@ > 0),
            final(self).songs == old(self).songs,
            final(self).currently_playing == old(self).currently_playing,
    {
        selection_decrement(&mut self.index)
    }

    /// Takes the first occurrence of `id` out of the queue and returns it; the
    /// selection moves up when it stood at or after it, and playback keeps
    /// its song when that stood after it.
    pub fn remove_song(&mut self, id: SongID) -> (r: Option<SongID>)
        ensures
            match first_at(old(self).songs@, id) {
                Some(k) => {
                    &&& r == Some(id)
                    &&& final(self).songs@ == old(self).songs@.remove(k as int)
                    &&& final(self).index@ == if k <= old(self).index@ {
                        stepped_up(old(self).index@)
                    } else {
                        old(self).index@
                    }
                    &&& final(self).currently_playing == match old(self).currently_playing {
                        Some(i) => if k < i { Some((i - 1) as usize) } else { Some(i) },
                        None => None,
                    }
                },
                None => {
                    &&& r is None
                    &&& final(self).songs == old(self).songs
                    &&& final(self).index == old(self).index
                    &&& final(self).currently_playing == old(self).currently_playing
                },
            },
    {
        proof {
            lemma_first_at(self.songs@, id);
        }
        match find_song(&self.songs, id) {
            Some(k) => {
                if k <= self.index.selected_index() {
                    selection_decrement(&mut self.index);
                }
                match self.currently_playing {
                    Some(i) => {
                        if k < i {
                            self.currently_playing = Some(i - 1);
                        }
                    },
                    None => {},
                }
                Some(self.songs.remove(k))
            },
            None => None,
        }
    }
}

impl Queue {
    /// `b` is `a` with the yanked songs `items` pasted at `start` (or at
    /// the end): the selection and the song playing move down past them
    /// where they stood at or after `start`.
    pub open spec fn pasted_into(a: Queue, b: Queue, items: Seq<Yank<SongID>>, start: Option<usize>) -> bool {
        &&& b.songs@ == pasted(a.songs@, yanked_items(items), start)
        &&& b.index@ == if paste_moves(a.index@, start) {
            stepped_down_n(a.index@, items.len(), a.songs@.len() as usize)
        } else {
            a.index@
        }
        &&& b.currently_playing == match a.currently_playing {
            Some(c) => {
                let c2 = if paste_moves(c, start) { c + items.len() } else { c as int };
                Some(if c2 < a.songs@.len() - 1 { c2 as usize } else { (a.songs@.len() - 1) as usize })
            },
            None => None,
        }
        &&& b.name == a.name
        &&& b.source_cp == a.source_cp
    }

    /// Pastes songs at `start` (or at the end). Playback keeps its song when
    /// the paste lands at or before it, but stays within the songs the queue
    /// had before.
    pub fn paste(&mut self, items: Vec<Yank<SongID>>, start: Option<usize>)
        requires
            start matches Some(j) ==> j <= old(self).songs@.len(),
            old(self).currently_playing matches Some(c) ==> {
                &&& old(self).songs@.len() > 0
                &&& c + items@.len() <= usize::MAX
            },
        ensures
            Queue::pasted_into(*old(self), *final(self), items@, start),
    {
        let old_len = self.songs.len();
        let n = items.len();
        let new_cp = match self.currently_playing {
            Some(c) => {
                let moves = match start {
                    Some(j) => c >= j,
                    None => false,
                };
                let c2 = if moves { c + n } else { c };
                Some(if c2 < old_len - 1 { c2 } else { old_len - 1 })
            },
            None => None,
        };
        paste_into(&mut self.songs, &mut self.index, old_len, &items, start);
        self.currently_playing = new_cp;
    }

    /// `b` is `a` with the yanked songs `items` put back at their
    /// positions: the selection and the song playing move down past those
    /// put back before them.
    pub open spec fn inserted(a: Queue, b: Queue, items: Seq<Yank<SongID>>) -> bool {
        &&& b.songs@ == merge_by_index(sort_by_index(items), a.songs@, Seq::empty())
        &&& b.index@ == stepped_down_n(
            a.index@,
            shift_count(sort_by_index(items), a.index@ as int, 0),
            b.songs@.len() as usize,
        )
        &&& b.currently_playing == match a.currently_playing {
            Some(c) => {
                let c2 = c + shift_count(sort_by_index(items), c as int, 0);
                Some(if c2 < b.songs@.len() - 1 { c2 as usize } else { (b.songs@.len() - 1) as usize })
            },
            None => None,
        }
        &&& b.name == a.name
        &&& b.source_cp == a.source_cp
        &&& spliced_at(a.songs@, b.songs@, items)
    }

    /// Puts songs back at their indices; selection and playback move down
    /// with the songs that land at or before them, playback within the queue.
    pub fn insert(&mut self, items: Vec<Yank<SongID>>)
        requires
            old(self).currently_playing matches Some(c) ==> {
                &&& c + shift_count(sort_by_index(items@), c as int, 0) <= usize::MAX
                &&& old(self).songs@.len() + items@.len() > 0
            },
        ensures
            Queue::inserted(*old(self), *final(self), items@),
            final(self).songs@.len() == old(self).songs@.len() + items@.len(),
    {
        let ghost before = self.songs@;
        proof {
            lemma_merge_len(sort_by_index(items@), self.songs@, Seq::empty());
            lemma_sort_len(items@);
        }
        let cp_counter = match self.currently_playing {
            Some(c) => count_shift(&items, c),
            None => 0,
        };
        let selected = self.index.selected_index();
        let counter = insert_merge(&mut self.songs, &items, selected);
        let len = self.songs.len();
        selection_increment_n(&mut self.index, counter, len);
        self.currently_playing = match self.currently_playing {
            Some(c) => {
                let c2 = c + cp_counter;
                Some(if c2 < len - 1 { c2 } else { len - 1 })
            },
            None => None,
        };
        proof {
            let o = sort_by_index(items@);
            if ordered_positions(o) && (o.len() > 0 ==> o.last().index < before.len() + o.len()) {
                lemma_merge_positions(o, before, Seq::empty());
                lemma_sort_positions(items@);
                assert(self.songs@.skip(0) =~= self.songs@);
            }
        }
    }

    /// `b` is `a` with the yanked songs `items` taken out: the selection and
    /// the song playing move up by as many songs as were taken out before
    /// them.
    pub open spec fn removed(a: Queue, b: Queue, items: Seq<Yank<SongID>>) -> bool {
        let walk = remove_walk(sort_by_index(items), a.songs@, 0, a.index@ as int);
        &&& b.songs@ == kept_positions(a.songs@, 0, yank_positions(items))
        &&& b.songs@ == walk.0
        &&& b.index@ == stepped_up_n(a.index@, walk.2)
        &&& b.currently_playing == match a.currently_playing {
            Some(c) => {
                let k = remove_walk(sort_by_index(items), a.songs@, 0, c as int).2;
                Some(if c < k { 0 } else { (c - k) as usize })
            },
            None => None,
        }
        &&& b.name == a.name
        &&& b.source_cp == a.source_cp
    }

    /// Takes out the songs that the yanks name (item and position); selection
    /// and playback move up once per song taken at or before them.
    pub fn remove(&mut self, items: Vec<Yank<SongID>>)
        requires
            remove_walk(sort_by_index(items@), old(self).songs@, 0, old(self).index@ as int).1.len() == 0,
        ensures
            Queue::removed(*old(self), *final(self), items@),
    {
        proof {
            lemma_remove_walk_positions(sort_by_index(items@), self.songs@, 0, self.index@ as int);
            lemma_sort_positions(items@);
        }
        let cp_counter = match self.currently_playing {
            Some(c) => count_removed(&self.songs, &items, c),
            None => 0,
        };
        let selected = self.index.selected_index();
        let counter = remove_walk_exec(&mut self.songs, &items, selected);
        selection_decrement_n(&mut self.index, counter);
        self.currently_playing = match self.currently_playing {
            Some(c) => Some(if c < cp_counter { 0 } else { c - cp_counter }),
            None => None,
        };
    }
}

impl SongYankDest for Queue {}

/// Where playback goes on to the next song, and the song it reaches: none
/// where nothing plays or the last song does.
pub open spec fn next_playing(songs: Seq<SongID>, playing: Option<usize>) -> (Option<usize>, Option<SongID>) {
    match playing {
        Some(i) => if i + 1 < songs.len() {
            (Some((i + 1) as usize), Some(songs[i + 1]))
        } else {
            (Some(i), None)
        },
        None => (None, None),
    }
}

/// Where playback goes back to the previous song, and the song it reaches:
/// none where nothing plays or the first song does.
pub open spec fn prev_playing(songs: Seq<SongID>, playing: Option<usize>) -> (Option<usize>, Option<SongID>) {
    match playing {
        Some(i) => if i > 0 {
            (Some((i - 1) as usize), if i - 1 < songs.len() { Some(songs[i - 1]) } else { None })
        } else {
            (Some(i), None)
        },
        None => (None, None),
    }
}

/// Going back right after going on to the next song plays the song that
/// played before, and hands it back.
pub proof fn lemma_prev_undoes_next(songs: Seq<SongID>, playing: Option<usize>)
    requires
        songs.len() <= usize::MAX,
        next_playing(songs, playing).1 is Some,
        playing matches Some(i) && i < songs.len(),
    ensures
        prev_playing(songs, next_playing(songs, playing).0) == (playing, Some(songs[playing->Some_0 as int])),
{
    let i = playing->Some_0;
    let j = (i + 1) as usize;
    assert(next_playing(songs, playing).0 == Some(j));
    assert((j - 1) as usize == i);
    assert(j > 0);
}

} // verus!
