use std::marker::PhantomData;
use vstd::prelude::*;

verus! {

/// Something that names a slot of a [`ContentRegister`]: an index into its
/// storage and the generation that the slot had when the name was handed out.
pub trait ContentKey: Sized + Copy {
    spec fn key_index(&self) -> usize;

    spec fn key_generation(&self) -> u64;

    fn from_parts(index: usize, generation: u64) -> (r: Self)
        ensures
            r.key_index() == index,
            r.key_generation() == generation,
    ;

    fn index(&self) -> (r: usize)
        ensures
            r == self.key_index(),
    ;

    fn generation(&self) -> (r: u64)
        ensures
            r == self.key_generation(),
    ;
}

/// A generational index into a register of items of kind `T`.
pub struct ContentID<T> {
    index: usize,
    generation: u64,
    _phantom: PhantomData<T>,
}

impl<T> Clone for ContentID<T> {
    fn clone(&self) -> (r: Self)
        ensures
            r == *self,
    {
        ContentID { index: self.index, generation: self.generation, _phantom: PhantomData }
    }
}

impl<T> Copy for ContentID<T> {}

impl<T> ContentKey for ContentID<T> {
    closed spec fn key_index(&self) -> usize {
        self.index
    }

    closed spec fn key_generation(&self) -> u64 {
        self.generation
    }

    fn from_parts(index: usize, generation: u64) -> (r: Self) {
        ContentID { index, generation, _phantom: PhantomData }
    }

    fn index(&self) -> (r: usize) {
        self.index
    }

    fn generation(&self) -> (r: u64) {
        self.generation
    }
}


/// Id of a song in the song register.
#[derive(Clone, Copy, Debug, PartialEq, Eq, Structural, Hash)]
pub struct SongID {
    index: usize,
    generation: u64,
}

/// Id of a content provider in the provider register.
#[derive(Clone, Copy, Debug, PartialEq, Eq, Structural, Hash)]
pub struct ContentProviderID {
    index: usize,
    generation: u64,
}

impl ContentKey for SongID {
    closed spec fn key_index(&self) -> usize {
        self.index
    }

    closed spec fn key_generation(&self) -> u64 {
        self.generation
    }

    fn from_parts(index: usize, generation: u64) -> (r: Self) {
        SongID { index, generation }
    }

    fn index(&self) -> (r: usize) {
        self.index
    }

    fn generation(&self) -> (r: u64) {
        self.generation
    }
}

impl ContentKey for ContentProviderID {
    closed spec fn key_index(&self) -> usize {
        self.index
    }

    closed spec fn key_generation(&self) -> u64 {
        self.generation
    }

    fn from_parts(index: usize, generation: u64) -> (r: Self) {
        ContentProviderID { index, generation }
    }

    fn index(&self) -> (r: usize) {
        self.index
    }

    fn generation(&self) -> (r: u64) {
        self.generation
    }
}

/// Id of anything the registers hold.
#[derive(Clone, Copy, Debug, PartialEq, Eq, Structural, Hash)]
pub enum ID {
    Song(SongID),
    ContentProvider(ContentProviderID),
}

/// Anything that can be shown: registered content, or the notifier.
#[derive(Clone, Copy, Debug, PartialEq, Eq, Structural)]
pub enum GlobalContent {
    Notifier,
    ID(ID),
}

/// Anything that can be browsed: a content provider, or the notifier.
#[derive(Clone, Copy, Debug, PartialEq, Eq, Structural)]
pub enum GlobalProvider {
    Notifier,
    ContentProvider(ContentProviderID),
}

impl ID {
    pub fn from_song(id: SongID) -> (r: ID)
        ensures
            r == ID::Song(id),
    {
        ID::Song(id)
    }

    pub fn from_provider(id: ContentProviderID) -> (r: ID)
        ensures
            r == ID::ContentProvider(id),
    {
        ID::ContentProvider(id)
    }
}

impl GlobalContent {
    pub fn from_id(id: ID) -> (r: GlobalContent)
        ensures
            r == GlobalContent::ID(id),
    {
        GlobalContent::ID(id)
    }

    /// The content that a browsable thing is.
    pub fn from_provider(p: GlobalProvider) -> (r: GlobalContent)
        ensures
            r == match p {
                GlobalProvider::Notifier => GlobalContent::Notifier,
                GlobalProvider::ContentProvider(id) => GlobalContent::ID(ID::ContentProvider(id)),
            },
    {
        match p {
            GlobalProvider::Notifier => GlobalContent::Notifier,
            GlobalProvider::ContentProvider(id) => GlobalContent::ID(ID::ContentProvider(id)),
        }
    }
}

impl GlobalProvider {
    pub fn from_provider(id: ContentProviderID) -> (r: GlobalProvider)
        ensures
            r == GlobalProvider::ContentProvider(id),
    {
        GlobalProvider::ContentProvider(id)
    }
}

/// The last change that a register went through.
#[derive(Clone, Copy, PartialEq, Eq, Debug)]
pub enum Operation {
    Insert,
    Remove,
    Fresh,
}

/// A stored item, the generation of its slot and how many ids to it are held.
pub struct ContentEntry<T> {
    pub val: T,
    pub generation: u64,
    pub id_counter: u32,
}

/// A slab of items addressed by generational ids, with a count of the ids
/// held to each item. An item is dropped when its count reaches zero, and its
/// slot is reused by a later allocation under a fresh generation.
pub struct ContentRegister<T, P> {
    items: Vec<Option<ContentEntry<T>>>,
    empty_indices: Vec<usize>,
    generation: u64,
    last_operation: Operation,
    dead: Ghost<Set<(usize, u64)>>,
    _phantom: PhantomData<P>,
}

impl<T, P: ContentKey> ContentRegister<T, P> {
    /// Number of slots, live or empty.
    pub closed spec fn num_slots(&self) -> nat {
        self.items@.len()
    }

    /// Whether slot `i` holds an item.
    pub closed spec fn is_live(&self, i: int) -> bool {
        0 <= i < self.items@.len() && self.items@[i] is Some
    }

    /// The generation under which the item in slot `i` was stored.
    pub closed spec fn slot_generation(&self, i: int) -> u64 {
        self.items@[i]->Some_0.generation
    }

    /// How many ids to the item in slot `i` are held.
    pub closed spec fn slot_count(&self, i: int) -> u32 {
        self.items@[i]->Some_0.id_counter
    }

    /// The item in slot `i`.
    pub closed spec fn slot_val(&self, i: int) -> T {
        self.items@[i]->Some_0.val
    }

    /// The generation that the next allocation hands out.
    pub closed spec fn current_generation(&self) -> u64 {
        self.generation
    }

    /// The last change that the register went through.
    pub closed spec fn last_op(&self) -> Operation {
        self.last_operation
    }

    /// The slots that an allocation may reuse.
    pub closed spec fn free_slots(&self) -> Seq<usize> {
        self.empty_indices@
    }

    /// Ids (index, generation) whose item has been dropped.
    pub closed spec fn is_dead(&self, index: usize, generation: u64) -> bool {
        self.dead@.contains((index, generation))
    }

    /// What an id reaches: the item of its slot if the slot is live under the
    /// id's generation.
    pub open spec fn lookup(&self, index: usize, generation: u64) -> Option<T> {
        if self.is_live(index as int) && self.slot_generation(index as int) == generation {
            Some(self.slot_val(index as int))
        } else {
            None
        }
    }

    /// The smallest free slot, or the end of the storage when none is free.
    pub open spec fn next_slot(&self) -> usize {
        if self.free_slots().len() == 0 {
            self.num_slots() as usize
        } else {
            self.free_slots()[min_index(self.free_slots()) as int]
        }
    }

    pub closed spec fn wf(&self) -> bool {
        &&& forall|i: int| 0 <= i < self.items@.len() && self.items@[i] is Some
            ==> (#[trigger] self.items@[i])->Some_0.id_counter >= 1
        &&& forall|k: int, l: int| 0 <= k < l < self.empty_indices@.len()
            ==> self.empty_indices@[k] != self.empty_indices@[l]
        &&& forall|k: int| 0 <= k < self.empty_indices@.len()
            ==> (#[trigger] self.empty_indices@[k]) < self.items@.len()
                && self.items@[self.empty_indices@[k] as int] is None
        &&& forall|i: int| 0 <= i < self.items@.len() && (#[trigger] self.items@[i]) is None
            ==> self.empty_indices@.contains(i as usize)
        &&& forall|i: int| 0 <= i < self.items@.len() && (#[trigger] self.items@[i]) is Some
            ==> if self.last_operation == Operation::Insert {
                self.items@[i]->Some_0.generation <= self.generation
            } else {
                self.items@[i]->Some_0.generation < self.generation
            }
        &&& forall|d: (usize, u64)| #[trigger] self.dead@.contains(d) ==> d.1 < self.generation
        &&& forall|d: (usize, u64)| #[trigger] self.dead@.contains(d)
            ==> !(0 <= d.0 < self.items@.len() && self.items@[d.0 as int] is Some
                && self.items@[d.0 as int]->Some_0.generation == d.1)
    }
}

impl<T, P: ContentKey> ContentRegister<T, P> {
    /// `b` equals `a` but in slot `i` (storage length, free slots, generation,
    /// last change and dropped ids included).
    pub open spec fn same_except(a: Self, b: Self, i: int) -> bool {
        &&& b.num_slots() == a.num_slots()
        &&& forall|j: int| j != i ==> #[trigger] b.is_live(j) == a.is_live(j)
        &&& forall|j: int| j != i && a.is_live(j) ==> {
            &&& #[trigger] b.slot_generation(j) == a.slot_generation(j)
            &&& b.slot_count(j) == a.slot_count(j)
            &&& b.slot_val(j) == a.slot_val(j)
        }
        &&& b.free_slots() == a.free_slots()
        &&& b.current_generation() == a.current_generation()
        &&& b.last_op() == a.last_op()
        &&& forall|x: usize, g: u64| #[trigger] b.is_dead(x, g) == a.is_dead(x, g)
    }

    /// What `register` does to a register for an id of slot `i`.
    pub open spec fn register_post(a: Self, b: Self, i: int) -> bool {
        &&& Self::same_except(a, b, i)
        &&& b.is_live(i)
        &&& b.slot_generation(i) == a.slot_generation(i)
        &&& b.slot_val(i) == a.slot_val(i)
        &&& b.slot_count(i) == a.slot_count(i) + 1
    }

    /// What `unregister` does to a register for an id of slot `i`, returning `r`.
    pub open spec fn unregister_post(a: Self, b: Self, i: int, r: Option<T>) -> bool {
        if a.slot_count(i) > 1 {
            &&& r is None
            &&& Self::same_except(a, b, i)
            &&& b.is_live(i)
            &&& b.slot_generation(i) == a.slot_generation(i)
            &&& b.slot_val(i) == a.slot_val(i)
            &&& b.slot_count(i) == a.slot_count(i) - 1
        } else {
            &&& r == Some(a.slot_val(i))
            &&& b.num_slots() == a.num_slots()
            &&& !b.is_live(i)
            &&& forall|j: int| j != i ==> #[trigger] b.is_live(j) == a.is_live(j)
            &&& forall|j: int| j != i && a.is_live(j) ==> {
                &&& #[trigger] b.slot_generation(j) == a.slot_generation(j)
                &&& b.slot_count(j) == a.slot_count(j)
                &&& b.slot_val(j) == a.slot_val(j)
            }
            &&& b.free_slots() == a.free_slots().push(i as usize)
            &&& b.current_generation() == (if a.last_op() == Operation::Insert {
                (a.current_generation() + 1) as u64
            } else {
                a.current_generation()
            })
            &&& b.last_op() == Operation::Remove
            &&& forall|x: usize, g: u64| #[trigger] b.is_dead(x, g)
                == (a.is_dead(x, g) || (x == i && g == a.slot_generation(i)))
        }
    }

    /// `regs` runs from its first register to its last by allocating `items`
    /// in turn, which hands out `ids`.
    pub open spec fn alloc_chain(regs: Seq<Self>, items: Seq<T>, ids: Seq<P>) -> bool {
        &&& regs.len() == items.len() + 1
        &&& ids.len() == items.len()
        &&& forall|k: int| 0 <= k < items.len() ==> #[trigger] Self::alloc_post(regs[k], regs[k + 1], items[k], ids[k])
    }

    /// Allocating `items` in turn takes `a` to `b`, handing out `ids`.
    pub open spec fn allocated_in_turn(a: Self, b: Self, items: Seq<T>, ids: Seq<P>) -> bool {
        exists|regs: Seq<Self>| #[trigger] Self::alloc_chain(regs, items, ids) && regs[0] == a && regs.last() == b
    }

    /// What `allocate` of `item` does to a register, handing out `r`.
    pub open spec fn alloc_post(a: Self, b: Self, item: T, r: P) -> bool {
        let i = a.next_slot() as int;
        &&& r.key_index() == i
        &&& r.key_generation() == a.current_generation()
        &&& !a.is_live(i)
        &&& b.num_slots() == (if i < a.num_slots() { a.num_slots() } else { a.num_slots() + 1 })
        &&& b.is_live(i)
        &&& b.slot_generation(i) == a.current_generation()
        &&& b.slot_count(i) == 1
        &&& b.slot_val(i) == item
        &&& forall|j: int| j != i ==> #[trigger] b.is_live(j) == a.is_live(j)
        &&& forall|j: int| j != i && a.is_live(j) ==> {
            &&& #[trigger] b.slot_generation(j) == a.slot_generation(j)
            &&& b.slot_count(j) == a.slot_count(j)
            &&& b.slot_val(j) == a.slot_val(j)
        }
        &&& b.free_slots() == (if a.free_slots().len() == 0 {
            a.free_slots()
        } else {
            a.free_slots().remove(min_index(a.free_slots()) as int)
        })
        &&& b.current_generation() == a.current_generation()
        &&& b.last_op() == Operation::Insert
        &&& forall|x: usize, g: u64| #[trigger] b.is_dead(x, g) == a.is_dead(x, g)
    }

    pub fn new() -> (r: Self)
        ensures
            r.wf(),
            r.num_slots() == 0,
            r.free_slots().len() == 0,
            r.current_generation() == 0,
            r.last_op() == Operation::Fresh,
            forall|x: usize, g: u64| !#[trigger] r.is_dead(x, g),
    {
        ContentRegister {
            items: Vec::new(),
            empty_indices: Vec::new(),
            generation: 0,
            last_operation: Operation::Fresh,
            dead: Ghost(Set::empty()),
            _phantom: PhantomData,
        }
    }

    /// The item that `id` reaches, if its slot is live under its generation.
    pub fn get(&self, id: P) -> (r: Option<&T>)
        ensures
            match r {
                Some(v) => self.lookup(id.key_index(), id.key_generation()) == Some(*v),
                None => self.lookup(id.key_index(), id.key_generation()) is None,
            },
    {
        let index = id.index();
        let generation = id.generation();
        if index < self.items.len() {
            match &self.items[index] {
                Some(e) => {
                    if e.generation == generation {
                        Some(&e.val)
                    } else {
                        None
                    }
                },
                None => None,
            }
        } else {
            None
        }
    }

    /// The generation that the next allocation hands out.
    pub fn generation(&self) -> (r: u64)
        ensures
            r == self.current_generation(),
    {
        self.generation
    }

    /// Number of slots, live or empty.
    pub fn num_slots_exec(&self) -> (r: usize)
        ensures
            r == self.num_slots(),
    {
        self.items.len()
    }

    /// Number of slots, live or empty.
    pub fn len(&self) -> (r: usize)
        ensures
            r == self.num_slots(),
    {
        self.items.len()
    }

    /// The id of the item in slot `index` and how many ids to it are held.
    pub fn get_id_count(&self, index: usize) -> (r: Option<(P, u32)>)
        ensures
            match r {
                Some((p, c)) => {
                    &&& self.is_live(index as int)
                    &&& p.key_index() == index
                    &&& p.key_generation() == self.slot_generation(index as int)
                    &&& c == self.slot_count(index as int)
                },
                None => !self.is_live(index as int),
            },
    {
        if index < self.items.len() {
            match &self.items[index] {
                Some(e) => Some((P::from_parts(index, e.generation), e.id_counter)),
                None => None,
            }
        } else {
            None
        }
    }
}

impl<T, P: ContentKey> ContentRegister<T, P> {
    /// Counts one more id to the item in the slot of `id` (the generation of
    /// `id` is not checked). Panics where the slot is empty.
    pub fn register(&mut self, id: P)
        requires
            old(self).wf(),
            old(self).is_live(id.key_index() as int),
            old(self).slot_count(id.key_index() as int) < u32::MAX,
        ensures
            final(self).wf(),
            Self::register_post(*old(self), *final(self), id.key_index() as int),
    {
        let index = id.index();
        let mut slot: Option<ContentEntry<T>> = None;
        self.items.set_and_swap(index, &mut slot);
        match slot {
            Some(e) => {
                let e2 = ContentEntry { val: e.val, generation: e.generation, id_counter: e.id_counter + 1 };
                let mut s2 = Some(e2);
                self.items.set_and_swap(index, &mut s2);
            },
            None => {},
        }
        proof {
            let a = *old(self);
            let b = *self;
            assert forall|j: int| j != index as int implies #[trigger] b.is_live(j) == a.is_live(j) by {
                if 0 <= j < a.items@.len() {
                    assert(b.items@[j] == a.items@[j]);
                }
            }
            assert forall|j: int| 0 <= j < self.items@.len() && (#[trigger] self.items@[j]) is None
                implies self.empty_indices@.contains(j as usize) by {
                assert(old(self).items@[j] is None);
            }
        }
    }
}

impl<T, P: ContentKey> ContentRegister<T, P> {
    /// Drops the item in the slot of `id`, frees the slot and returns the item.
    fn dealloc(&mut self, id: P) -> (r: Option<T>)
        requires
            old(self).wf(),
            old(self).is_live(id.key_index() as int),
            old(self).current_generation() < u64::MAX,
        ensures
            final(self).wf(),
            r == Some(old(self).slot_val(id.key_index() as int)),
            ({
                let a = *old(self);
                let b = *final(self);
                let i = id.key_index() as int;
                &&& b.num_slots() == a.num_slots()
                &&& !b.is_live(i)
                &&& forall|j: int| j != i ==> #[trigger] b.is_live(j) == a.is_live(j)
                &&& forall|j: int| j != i && a.is_live(j) ==> {
                    &&& #[trigger] b.slot_generation(j) == a.slot_generation(j)
                    &&& b.slot_count(j) == a.slot_count(j)
                    &&& b.slot_val(j) == a.slot_val(j)
                }
                &&& b.free_slots() == a.free_slots().push(i as usize)
                &&& b.current_generation() == (if a.last_op() == Operation::Insert {
                    (a.current_generation() + 1) as u64
                } else {
                    a.current_generation()
                })
                &&& b.last_op() == Operation::Remove
                &&& forall|x: usize, g: u64| #[trigger] b.is_dead(x, g)
                    == (a.is_dead(x, g) || (x == i && g == a.slot_generation(i)))
            }),
    {
        let index = id.index();
        let ghost a = *old(self);
        let ghost freed_gen = self.items@[index as int]->Some_0.generation;
        self.empty_indices.push(index);
        if index < self.items.len() {
            if let Operation::Insert = self.last_operation {
                self.generation = self.generation + 1;
            }
            self.last_operation = Operation::Remove;
            let mut slot: Option<ContentEntry<T>> = None;
            self.items.set_and_swap(index, &mut slot);
            proof {
                self.dead@ = self.dead@.insert((index, freed_gen));
                let b = *self;
                assert forall|j: int| j != index as int implies #[trigger] b.is_live(j) == a.is_live(j) by {
                    if 0 <= j < a.items@.len() {
                        assert(b.items@[j] == a.items@[j]);
                    }
                }
                assert forall|k: int, l: int| 0 <= k < l < self.empty_indices@.len()
                    implies self.empty_indices@[k] != self.empty_indices@[l] by {
                    if l == self.empty_indices@.len() - 1 {
                        assert(a.items@[a.empty_indices@[k] as int] is None);
                    }
                }
                assert forall|k: int| 0 <= k < self.empty_indices@.len()
                    implies (#[trigger] self.empty_indices@[k]) < self.items@.len()
                        && self.items@[self.empty_indices@[k] as int] is None by {
                    if k < a.empty_indices@.len() {
                        assert(self.empty_indices@[k] == a.empty_indices@[k]);
                        assert(a.items@[a.empty_indices@[k] as int] is None);
                    }
                }
                assert forall|j: int| 0 <= j < self.items@.len() && (#[trigger] self.items@[j]) is None
                    implies self.empty_indices@.contains(j as usize) by {
                    if j == index as int {
                        assert(self.empty_indices@[self.empty_indices@.len() - 1] == index);
                    } else {
                        assert(a.items@[j] is None);
                        let k = choose|k: int| 0 <= k < a.empty_indices@.len() && a.empty_indices@[k] == j as usize;
                        assert(self.empty_indices@[k] == j as usize);
                    }
                }
                assert forall|j: int| 0 <= j < self.items@.len() && (#[trigger] self.items@[j]) is Some
                    implies if self.last_operation == Operation::Insert {
                        self.items@[j]->Some_0.generation <= self.generation
                    } else {
                        self.items@[j]->Some_0.generation < self.generation
                    } by {
                    assert(a.items@[j] == self.items@[j]);
                }
                assert forall|d: (usize, u64)| #[trigger] self.dead@.contains(d)
                    implies !(0 <= d.0 < self.items@.len() && self.items@[d.0 as int] is Some
                        && self.items@[d.0 as int]->Some_0.generation == d.1) by {
                    if d.0 != index && 0 <= d.0 < self.items@.len() {
                        assert(a.items@[d.0 as int] == self.items@[d.0 as int]);
                    }
                }
            }
            match slot {
                Some(e) => Some(e.val),
                None => None,
            }
        } else {
            None
        }
    }

    /// Counts one id fewer to the item in the slot of `id` (the generation of
    /// `id` is not checked); when none is left, drops the item and returns it.
    /// Panics where the slot is empty.
    pub fn unregister(&mut self, id: P) -> (r: Option<T>)
        requires
            old(self).wf(),
            old(self).is_live(id.key_index() as int),
            old(self).slot_count(id.key_index() as int) <= 1 ==> old(self).current_generation() < u64::MAX,
        ensures
            final(self).wf(),
            Self::unregister_post(*old(self), *final(self), id.key_index() as int, r),
    {
        let index = id.index();
        let count = match &self.items[index] {
            Some(e) => e.id_counter,
            None => 1,
        };
        if count > 1 {
            let mut slot: Option<ContentEntry<T>> = None;
            self.items.set_and_swap(index, &mut slot);
            match slot {
                Some(e) => {
                    let e2 = ContentEntry { val: e.val, generation: e.generation, id_counter: e.id_counter - 1 };
                    let mut s2 = Some(e2);
                    self.items.set_and_swap(index, &mut s2);
                },
                None => {},
            }
            proof {
                let a = *old(self);
                let b = *self;
                assert forall|j: int| j != index as int implies #[trigger] b.is_live(j) == a.is_live(j) by {
                    if 0 <= j < a.items@.len() {
                        assert(b.items@[j] == a.items@[j]);
                    }
                }
                assert forall|j: int| 0 <= j < self.items@.len() && (#[trigger] self.items@[j]) is None
                    implies self.empty_indices@.contains(j as usize) by {
                    assert(old(self).items@[j] is None);
                }
            }
            None
        } else {
            self.dealloc(id)
        }
    }
}

impl<T, P: ContentKey> ContentRegister<T, P> {
    /// Stores `item` in the smallest empty slot (or a new one at the end,
    /// where no slot is empty) under the current generation, with one id
    /// held, and returns that id.
    pub fn allocate(&mut self, item: T) -> (r: P)
        requires
            old(self).wf(),
            old(self).free_slots().len() == 0 ==> old(self).num_slots() < usize::MAX,
        ensures
            final(self).wf(),
            Self::alloc_post(*old(self), *final(self), item, r),
            !final(self).is_dead(r.key_index(), r.key_generation()),
            r.key_index() <= old(self).num_slots(),
            forall|i: int| 0 <= i < r.key_index() ==> #[trigger] old(self).is_live(i),
    {
        let ghost a = *old(self);
        proof {
            lemma_next_slot_smallest_empty(a);
        }
        let index: usize;
        if self.empty_indices.len() == 0 {
            index = self.items.len();
        } else {
            let len = self.empty_indices.len();
            let mut m: usize = 0;
            let mut k: usize = 1;
            while k < len
                invariant
                    len == self.empty_indices@.len(),
                    1 <= k <= len,
                    m == min_index(self.empty_indices@.take(k as int)),
                decreases len - k,
            {
                proof {
                    let s = self.empty_indices@.take(k as int + 1);
                    assert(s.drop_last() =~= self.empty_indices@.take(k as int));
                    lemma_min_index(self.empty_indices@.take(k as int));
                    assert(s[m as int] == self.empty_indices@[m as int]);
                }
                if self.empty_indices[k] < self.empty_indices[m] {
                    m = k;
                }
                k = k + 1;
            }
            proof {
                assert(self.empty_indices@.take(len as int) =~= self.empty_indices@);
                lemma_min_index(self.empty_indices@);
            }
            index = self.empty_indices.remove(m);
        }
        let generation = self.generation;
        self.last_operation = Operation::Insert;
        let entry = Some(ContentEntry { val: item, generation, id_counter: 1 });
        if index < self.items.len() {
            let mut e = entry;
            self.items.set_and_swap(index, &mut e);
        } else {
            self.items.push(entry);
        }
        proof {
            let b = *self;
            assert forall|j: int| j != index as int implies #[trigger] b.is_live(j) == a.is_live(j) by {
                if 0 <= j < a.items@.len() {
                    assert(b.items@[j] == a.items@[j]);
                }
            }
            assert forall|j: int| j != index as int && a.is_live(j) implies {
                &&& #[trigger] b.slot_generation(j) == a.slot_generation(j)
                &&& b.slot_count(j) == a.slot_count(j)
                &&& b.slot_val(j) == a.slot_val(j)
            } by {
                assert(b.items@[j] == a.items@[j]);
            }
            assert forall|j: int| 0 <= j < self.items@.len() && self.items@[j] is Some
                implies (#[trigger] self.items@[j])->Some_0.id_counter >= 1 by {
                if j != index as int {
                    assert(a.items@[j] == self.items@[j]);
                }
            }
            assert forall|k: int, l: int| 0 <= k < l < self.empty_indices@.len()
                implies self.empty_indices@[k] != self.empty_indices@[l] by {
                if a.empty_indices@.len() > 0 {
                    let m = min_index(a.empty_indices@) as int;
                    let k2 = if k < m { k } else { k + 1 };
                    let l2 = if l < m { l } else { l + 1 };
                    assert(self.empty_indices@[k] == a.empty_indices@[k2]);
                    assert(self.empty_indices@[l] == a.empty_indices@[l2]);
                }
            }
            assert forall|k: int| 0 <= k < self.empty_indices@.len()
                implies (#[trigger] self.empty_indices@[k]) < self.items@.len()
                    && self.items@[self.empty_indices@[k] as int] is None by {
                let m = min_index(a.empty_indices@) as int;
                let k2 = if k < m { k } else { k + 1 };
                assert(self.empty_indices@[k] == a.empty_indices@[k2]);
                assert(a.empty_indices@[k2] != a.empty_indices@[m]);
                assert(a.items@[a.empty_indices@[k2] as int] is None);
            }
            assert forall|j: int| 0 <= j < self.items@.len() && (#[trigger] self.items@[j]) is None
                implies self.empty_indices@.contains(j as usize) by {
                assert(j != index as int);
                assert(a.items@[j] == self.items@[j]);
                let k = choose|k: int| 0 <= k < a.empty_indices@.len() && a.empty_indices@[k] == j as usize;
                let m = min_index(a.empty_indices@) as int;
                assert(k != m);
                let k2 = if k < m { k } else { k - 1 };
                assert(self.empty_indices@[k2] == j as usize);
            }
            assert forall|j: int| 0 <= j < self.items@.len() && (#[trigger] self.items@[j]) is Some
                implies if self.last_operation == Operation::Insert {
                    self.items@[j]->Some_0.generation <= self.generation
                } else {
                    self.items@[j]->Some_0.generation < self.generation
                } by {
                if j != index as int {
                    assert(a.items@[j] == self.items@[j]);
                }
            }
            assert forall|d: (usize, u64)| #[trigger] self.dead@.contains(d)
                implies !(0 <= d.0 < self.items@.len() && self.items@[d.0 as int] is Some
                    && self.items@[d.0 as int]->Some_0.generation == d.1) by {
                if d.0 != index && 0 <= d.0 < self.items@.len() {
                    assert(a.items@[d.0 as int] == self.items@[d.0 as int]);
                }
            }
        }
        P::from_parts(index, generation)
    }
}

impl<T, P: ContentKey> ContentRegister<T, P> {
    /// Mutable access to the item that `id` reaches, if its slot is live under
    /// its generation; nothing else of the register can change through it.
    pub fn get_mut(&mut self, id: P) -> (r: Option<&mut T>)
        requires
            old(self).wf(),
        ensures
            final(self).wf(),
            match r {
                Some(v) => {
                    &&& old(self).lookup(id.key_index(), id.key_generation()) == Some(*v)
                    &&& Self::same_except(*old(self), *final(self), id.key_index() as int)
                    &&& final(self).is_live(id.key_index() as int)
                    &&& final(self).slot_generation(id.key_index() as int)
                        == old(self).slot_generation(id.key_index() as int)
                    &&& final(self).slot_count(id.key_index() as int)
                        == old(self).slot_count(id.key_index() as int)
                    &&& final(self).slot_val(id.key_index() as int) == *final(v)
                },
                None => {
                    &&& old(self).lookup(id.key_index(), id.key_generation()) is None
                    &&& *final(self) == *old(self)
                },
            },
    {
        let index = id.index();
        let generation = id.generation();
        if index < self.items.len() {
            let reachable = match &self.items[index] {
                Some(e) => e.generation == generation,
                None => false,
            };
            if reachable {
                match &mut self.items[index] {
                    Some(e) => Some(&mut e.val),
                    None => None,
                }
            } else {
                None
            }
        } else {
            None
        }
    }
}

/// An id whose item has been dropped reaches nothing, whatever the register
/// went through since.
pub proof fn lemma_dead_id_reaches_nothing<T, P: ContentKey>(reg: ContentRegister<T, P>, index: usize, generation: u64)
    requires
        reg.wf(),
        reg.is_dead(index, generation),
    ensures
        reg.lookup(index, generation) is None,
{
}

/// One call on a register: `register` or `get_mut` (which change one slot
/// only), `unregister`, `allocate`, or a call that leaves it as it was.
pub open spec fn register_step<T, P: ContentKey>(a: ContentRegister<T, P>, b: ContentRegister<T, P>) -> bool {
    ||| a == b
    ||| exists|i: int| #[trigger] ContentRegister::same_except(a, b, i)
    ||| exists|i: int, r: Option<T>| #[trigger] ContentRegister::unregister_post(a, b, i, r)
    ||| exists|item: T, r: P| #[trigger] ContentRegister::alloc_post(a, b, item, r)
}

/// `regs` is a run of well-formed registers, each reached from the one
/// before by one call.
pub open spec fn register_history<T, P: ContentKey>(regs: Seq<ContentRegister<T, P>>) -> bool {
    &&& regs.len() >= 1
    &&& forall|k: int| 0 <= k < regs.len() ==> (#[trigger] regs[k]).wf()
    &&& forall|k: int| 0 <= k < regs.len() - 1 ==> #[trigger] register_step(regs[k], regs[k + 1])
}

/// An id whose item was dropped stays dropped through any run of calls: in
/// every later register it reaches nothing, so no later allocation (whose id
/// is never a dropped one) hands it out again, even for the same slot.
pub proof fn lemma_dropped_stays_dropped<T, P: ContentKey>(
    regs: Seq<ContentRegister<T, P>>,
    index: usize,
    generation: u64,
)
    requires
        register_history(regs),
        regs[0].is_dead(index, generation),
    ensures
        forall|k: int| 0 <= k < regs.len() ==> #[trigger] regs[k].is_dead(index, generation),
        forall|k: int| 0 <= k < regs.len() ==> (#[trigger] regs[k].lookup(index, generation)) is None,
    decreases regs.len(),
{
    if regs.len() > 1 {
        let front = regs.drop_last();
        assert forall|k: int| 0 <= k < front.len() implies (#[trigger] front[k]).wf() by {
            assert(front[k] == regs[k]);
        }
        assert forall|k: int| 0 <= k < front.len() - 1 implies #[trigger] register_step(front[k], front[k + 1]) by {
            assert(front[k] == regs[k] && front[k + 1] == regs[k + 1]);
            assert(register_step(regs[k], regs[k + 1]));
        }
        lemma_dropped_stays_dropped(front, index, generation);
        let n = regs.len() - 1;
        let a = regs[n - 1];
        let b = regs[n];
        assert(front[n - 1] == a);
        assert(a.is_dead(index, generation));
        assert(register_step(regs[n - 1], regs[(n - 1) + 1]));
        assert(regs[(n - 1) + 1] == b);
        if a == b {
        } else if exists|i: int| #[trigger] ContentRegister::same_except(a, b, i) {
            let i = choose|i: int| #[trigger] ContentRegister::same_except(a, b, i);
            assert(b.is_dead(index, generation));
        } else if exists|i: int, r: Option<T>| #[trigger] ContentRegister::unregister_post(a, b, i, r) {
            let (i, r) = choose|i: int, r: Option<T>| #[trigger] ContentRegister::unregister_post(a, b, i, r);
            assert(b.is_dead(index, generation));
        } else {
            let (item, r) = choose|item: T, r: P| #[trigger] ContentRegister::alloc_post(a, b, item, r);
            assert(b.is_dead(index, generation));
        }
        assert forall|k: int| 0 <= k < regs.len() implies #[trigger] regs[k].is_dead(index, generation) by {
            if k < n {
                assert(front[k] == regs[k]);
            }
        }
    }
    assert forall|k: int| 0 <= k < regs.len() implies (#[trigger] regs[k].lookup(index, generation)) is None by {
        assert(regs[k].wf());
        assert(regs[k].is_dead(index, generation));
        lemma_dead_id_reaches_nothing(regs[k], index, generation);
    }
}

/// The id that an allocation hands out reaches the item just stored, and it
/// is neither the id of an item that was live nor of one that was dropped.
pub proof fn lemma_alloc_then_get<T, P: ContentKey>(
    a: ContentRegister<T, P>,
    b: ContentRegister<T, P>,
    item: T,
    r: P,
)
    requires
        a.wf(),
        ContentRegister::alloc_post(a, b, item, r),
    ensures
        b.lookup(r.key_index(), r.key_generation()) == Some(item),
        a.lookup(r.key_index(), r.key_generation()) is None,
        !a.is_dead(r.key_index(), r.key_generation()),
{
}

/// Registering an id and unregistering it again gives the register back
/// unchanged, and drops nothing.
pub proof fn lemma_register_unregister<T, P: ContentKey>(
    a: ContentRegister<T, P>,
    b: ContentRegister<T, P>,
    c: ContentRegister<T, P>,
    i: int,
    r: Option<T>,
)
    requires
        a.wf(),
        a.is_live(i),
        ContentRegister::register_post(a, b, i),
        ContentRegister::unregister_post(b, c, i, r),
    ensures
        r is None,
        ContentRegister::same_except(a, c, i),
        c.is_live(i),
        c.slot_generation(i) == a.slot_generation(i),
        c.slot_count(i) == a.slot_count(i),
        c.slot_val(i) == a.slot_val(i),
{
    assert(a.slot_count(i) >= 1);
}

/// Once the last id to an item is given back, the item is dropped and that id
/// reaches nothing any more.
pub proof fn lemma_last_unregister_drops<T, P: ContentKey>(
    a: ContentRegister<T, P>,
    b: ContentRegister<T, P>,
    i: int,
    r: Option<T>,
)
    requires
        a.wf(),
        b.wf(),
        a.is_live(i),
        a.slot_count(i) == 1,
        ContentRegister::unregister_post(a, b, i, r),
    ensures
        r == Some(a.slot_val(i)),
        b.is_dead(i as usize, a.slot_generation(i)),
        b.lookup(i as usize, a.slot_generation(i)) is None,
{
    assert(a.items@.len() == a.items.len());
    assert(b.is_dead(i as usize, a.slot_generation(i)));
}

/// One more allocation lengthens a run of allocations.
pub proof fn lemma_alloc_chain_push<T, P: ContentKey>(
    regs: Seq<ContentRegister<T, P>>,
    items: Seq<T>,
    ids: Seq<P>,
    r: ContentRegister<T, P>,
    x: T,
    id: P,
)
    requires
        ContentRegister::alloc_chain(regs, items, ids),
        ContentRegister::alloc_post(regs.last(), r, x, id),
    ensures
        ContentRegister::alloc_chain(regs.push(r), items.push(x), ids.push(id)),
        regs.push(r)[0] == regs[0],
        regs.push(r).last() == r,
{
    let rs = regs.push(r);
    let xs = items.push(x);
    let is = ids.push(id);
    assert forall|k: int| 0 <= k < xs.len() implies #[trigger] ContentRegister::alloc_post(rs[k], rs[k + 1], xs[k], is[k]) by {
        if k < items.len() {
            assert(ContentRegister::alloc_post(regs[k], regs[k + 1], items[k], ids[k]));
        }
    }
}

/// In a well-formed register the next allocation takes the smallest empty
/// slot, or a new slot at the end where none is empty.
pub proof fn lemma_next_slot_smallest_empty<T, P: ContentKey>(r: ContentRegister<T, P>)
    requires
        r.wf(),
    ensures
        r.next_slot() <= r.num_slots(),
        r.next_slot() < r.num_slots() ==> !r.is_live(r.next_slot() as int),
        forall|i: int| 0 <= i < r.next_slot() ==> #[trigger] r.is_live(i),
{
    r.lemma_next_slot_smallest_empty_inner();
}

impl<T, P: ContentKey> ContentRegister<T, P> {
    proof fn lemma_next_slot_smallest_empty_inner(&self)
        requires
            self.wf(),
        ensures
            self.next_slot() <= self.num_slots(),
            self.next_slot() < self.num_slots() ==> !self.is_live(self.next_slot() as int),
            forall|i: int| 0 <= i < self.next_slot() ==> #[trigger] self.is_live(i),
    {
        let f = self.empty_indices@;
        assert(self.items@.len() == self.items.len());
        if f.len() == 0 {
            assert forall|i: int| 0 <= i < self.next_slot() implies #[trigger] self.is_live(i) by {
                if self.items@[i] is None {
                    assert(f.contains(i as usize));
                }
            }
        } else {
            lemma_min_index(f);
            let m = min_index(f) as int;
            assert(f[m] < self.items@.len());
            assert(self.items@[f[m] as int] is None);
            assert(self.next_slot() == f[m]);
            assert forall|i: int| 0 <= i < self.next_slot() implies #[trigger] self.is_live(i) by {
                if self.items@[i] is None {
                    assert(f.contains(i as usize));
                    let k = choose|k: int| 0 <= k < f.len() && f[k] == i as usize;
                    assert(f[m] <= f[k]);
                }
            }
        }
    }
}

/// Position of the smallest element of a non-empty sequence (the first one on ties).
pub open spec fn min_index(s: Seq<usize>) -> nat
    decreases s.len(),
{
    if s.len() <= 1 {
        0
    } else {
        let m = min_index(s.drop_last());
        if s.last() < s[m as int] {
            (s.len() - 1) as nat
        } else {
            m
        }
    }
}

proof fn lemma_min_index(s: Seq<usize>)
    requires
        s.len() > 0,
    ensures
        min_index(s) < s.len(),
        forall|k: int| 0 <= k < s.len() ==> s[min_index(s) as int] <= #[trigger] s[k],
    decreases s.len(),
{
    if s.len() > 1 {
        lemma_min_index(s.drop_last());
        assert forall|k: int| 0 <= k < s.len() implies s[min_index(s) as int] <= #[trigger] s[k] by {
            if k < s.len() - 1 {
                assert(s[k] == s.drop_last()[k]);
            }
        }
    }
}

/// How many of the first `n` slots hold an item.
pub open spec fn live_below<T, P: ContentKey>(reg: ContentRegister<T, P>, n: nat) -> nat
    decreases n,
{
    if n == 0 {
        0
    } else {
        live_below(reg, (n - 1) as nat) + if reg.is_live(n - 1) { 1nat } else { 0nat }
    }
}

/// How many slots hold an item.
pub open spec fn live_count<T, P: ContentKey>(reg: ContentRegister<T, P>) -> nat {
    live_below(reg, reg.num_slots())
}

/// Registers that agree on which slots hold an item count as many.
pub proof fn lemma_live_below_same<T, P: ContentKey>(a: ContentRegister<T, P>, b: ContentRegister<T, P>, n: nat)
    requires
        forall|j: int| #[trigger] b.is_live(j) == a.is_live(j),
    ensures
        live_below(b, n) == live_below(a, n),
    decreases n,
{
    if n > 0 {
        lemma_live_below_same(a, b, (n - 1) as nat);
    }
}

/// Emptying one slot counts one item fewer.
pub proof fn lemma_live_below_drop<T, P: ContentKey>(a: ContentRegister<T, P>, b: ContentRegister<T, P>, i: int, n: nat)
    requires
        a.is_live(i),
        !b.is_live(i),
        i < n,
        forall|j: int| j != i ==> #[trigger] b.is_live(j) == a.is_live(j),
    ensures
        live_below(b, n) + 1 == live_below(a, n),
    decreases n,
{
    if n - 1 == i {
        lemma_live_below_same_below(a, b, (n - 1) as nat, i);
    } else {
        lemma_live_below_drop(a, b, i, (n - 1) as nat);
    }
}

proof fn lemma_live_below_same_below<T, P: ContentKey>(a: ContentRegister<T, P>, b: ContentRegister<T, P>, n: nat, i: int)
    requires
        n <= i,
        forall|j: int| j != i ==> #[trigger] b.is_live(j) == a.is_live(j),
    ensures
        live_below(b, n) == live_below(a, n),
    decreases n,
{
    if n > 0 {
        lemma_live_below_same_below(a, b, (n - 1) as nat, i);
    }
}

/// Live slots lie below the end of the storage.
pub proof fn lemma_live_in_range<T, P: ContentKey>(a: ContentRegister<T, P>, i: int)
    requires
        a.is_live(i),
    ensures
        0 <= i < a.num_slots(),
{
}

/// An item that is stored has at least one id held to it.
pub proof fn lemma_live_counted<T, P: ContentKey>(a: ContentRegister<T, P>, i: int)
    requires
        a.wf(),
        a.is_live(i),
    ensures
        a.slot_count(i) >= 1,
{
}

/// Song ids with the same index and generation are the same id.
pub proof fn lemma_song_id_eq(a: SongID, b: SongID)
    requires
        a.key_index() == b.key_index(),
        a.key_generation() == b.key_generation(),
    ensures
        a == b,
{
}

/// Provider ids with the same index and generation are the same id.
pub proof fn lemma_provider_id_eq(a: ContentProviderID, b: ContentProviderID)
    requires
        a.key_index() == b.key_index(),
        a.key_generation() == b.key_generation(),
    ensures
        a == b,
{
}

} // verus!
