use vstd::prelude::*;

use crate::content::manager::manager::ContentManager;
use crate::content::providers::ContentProvider;
use crate::service::editors::{edit_ids, Edit};
use crate::content::register::{
    lemma_live_in_range, lemma_provider_id_eq, lemma_song_id_eq, ContentKey, ContentProviderID, GlobalContent, ID,
};

verus! {

/// A disagreement between the ids held and what the registers count.
#[derive(Clone, Copy, Debug, PartialEq, Eq, Structural)]
pub enum RegisterMismatch {
    /// More or fewer ids of an item are held than its register counts.
    CountDiffers { id: ID, found: usize, recorded: u32 },
    /// Ids are held of an item that no register holds.
    NoItem { id: ID, found: usize },
    /// A register holds an item that no held id names.
    Leaked { id: ID, recorded: u32 },
}

/// The id a mismatch is about.
pub open spec fn mismatch_id(m: RegisterMismatch) -> ID {
    match m {
        RegisterMismatch::CountDiffers { id, .. } => id,
        RegisterMismatch::NoItem { id, .. } => id,
        RegisterMismatch::Leaked { id, .. } => id,
    }
}

/// `id` is a song id whose index is below `i`.
pub open spec fn song_below(id: ID, i: int) -> bool {
    id matches ID::Song(s) && s.key_index() < i
}

/// `id` is a provider id whose index is below `i`.
pub open spec fn provider_below(id: ID, i: int) -> bool {
    id matches ID::ContentProvider(p) && p.key_index() < i
}

/// How often `x` occurs in `s`.
pub open spec fn count_of(s: Seq<ID>, x: ID) -> nat
    decreases s.len(),
{
    if s.len() == 0 {
        0
    } else {
        count_of(s.drop_last(), x) + if s.last() == x { 1nat } else { 0nat }
    }
}

/// `x` occurs in `s` exactly when it is counted there.
pub proof fn lemma_count_contains(s: Seq<ID>, x: ID)
    ensures
        s.contains(x) <==> count_of(s, x) > 0,
        count_of(s, x) <= s.len(),
    decreases s.len(),
{
    if s.len() > 0 {
        lemma_count_contains(s.drop_last(), x);
        if s.drop_last().contains(x) {
            let i = choose|i: int| 0 <= i < s.drop_last().len() && s.drop_last()[i] == x;
            assert(s[i] == x);
        }
        if s.contains(x) && s.last() != x {
            let i = choose|i: int| 0 <= i < s.len() && s[i] == x;
            assert(s.drop_last()[i] == x);
        }
    }
}

/// Pushing `v` adds `v` to what a sequence contains, and nothing else.
pub proof fn lemma_contains_push<A>(s: Seq<A>, v: A, y: A)
    ensures
        s.push(v).contains(y) <==> s.contains(y) || y == v,
{
    if s.contains(y) {
        let i = choose|i: int| 0 <= i < s.len() && s[i] == y;
        assert(s.push(v)[i] == y);
    }
    if y == v {
        assert(s.push(v)[s.len() as int] == y);
    }
    if s.push(v).contains(y) && y != v {
        let i = choose|i: int| 0 <= i < s.push(v).len() && s.push(v)[i] == y;
        assert(s[i] == y);
    }
}

impl ContentManager {
    /// How many ids its register counts to the item `id` names, if one is held.
    pub open spec fn held(&self, id: ID) -> Option<u32> {
        match id {
            ID::Song(s) => if self.song(s) is Some {
                Some(self.songs.slot_count(s.key_index() as int))
            } else {
                None
            },
            ID::ContentProvider(p) => if self.provider(p) is Some {
                Some(self.content_providers.slot_count(p.key_index() as int))
            } else {
                None
            },
        }
    }

    /// `m` is a disagreement between the ids `wild` held and the registers.
    pub open spec fn is_mismatch(&self, wild: Seq<ID>, m: RegisterMismatch) -> bool {
        match m {
            RegisterMismatch::CountDiffers { id, found, recorded } => {
                &&& wild.contains(id)
                &&& found == count_of(wild, id)
                &&& self.held(id) == Some(recorded)
                &&& recorded != found
            },
            RegisterMismatch::NoItem { id, found } => {
                &&& wild.contains(id)
                &&& found == count_of(wild, id)
                &&& self.held(id) is None
            },
            RegisterMismatch::Leaked { id, recorded } => {
                &&& !wild.contains(id)
                &&& self.held(id) == Some(recorded)
            },
        }
    }

    fn held_exec(&self, id: ID) -> (r: Option<u32>)
        ensures
            r == self.held(id),
    {
        match id {
            ID::Song(s) => {
                if self.songs.get(s).is_some() {
                    match self.songs.get_id_count(s.index()) {
                        Some((_, c)) => Some(c),
                        None => None,
                    }
                } else {
                    None
                }
            },
            ID::ContentProvider(p) => {
                if self.content_providers.get(p).is_some() {
                    match self.content_providers.get_id_count(p.index()) {
                        Some((_, c)) => Some(c),
                        None => None,
                    }
                } else {
                    None
                }
            },
        }
    }
}

fn seq_has(v: &Vec<ID>, x: ID, n: usize) -> (r: bool)
    requires
        n <= v@.len(),
    ensures
        r == v@.take(n as int).contains(x),
{
    let mut j: usize = 0;
    let mut seen = false;
    while j < n
        invariant
            j <= n <= v@.len(),
            seen == v@.take(j as int).contains(x),
        decreases n - j,
    {
        proof {
            assert(v@.take(j + 1) =~= v@.take(j as int).push(v@[j as int]));
            lemma_contains_push(v@.take(j as int), v@[j as int], x);
        }
        if v[j] == x {
            seen = true;
        }
        j = j + 1;
    }
    seen
}

fn count_in(v: &Vec<ID>, x: ID) -> (r: usize)
    ensures
        r == count_of(v@, x),
{
    let mut f: usize = 0;
    let mut i: usize = 0;
    while i < v.len()
        invariant
            i <= v@.len(),
            f == count_of(v@.take(i as int), x),
            f <= i,
        decreases v@.len() - i,
    {
        proof {
            assert(v@.take(i + 1).drop_last() =~= v@.take(i as int));
        }
        if v[i] == x {
            f = f + 1;
        }
        i = i + 1;
    }
    proof {
        assert(v@.take(v@.len() as int) =~= v@);
    }
    f
}


impl ContentManager {
    /// Compares the ids held, `wild`, with the counts of the registers: each
    /// item held a different number of times than counted, each id held of no
    /// item, and each item that no held id names is reported, once.
    pub fn compare_with_registers(&self, wild: &Vec<ID>) -> (r: Vec<RegisterMismatch>)
        ensures
            forall|m: RegisterMismatch| r@.contains(m) <==> self.is_mismatch(wild@, m),
            r@.no_duplicates(),
    {
        let mut out: Vec<RegisterMismatch> = Vec::new();
        let mut k: usize = 0;
        while k < wild.len()
            invariant
                k <= wild@.len(),
                out@.no_duplicates(),
                forall|m: RegisterMismatch| #[trigger] out@.contains(m) ==> self.is_mismatch(wild@, m)
                    && !(m is Leaked) && wild@.take(k as int).contains(mismatch_id(m)),
                forall|m: RegisterMismatch| self.is_mismatch(wild@, m) && !(m is Leaked)
                    && wild@.take(k as int).contains(mismatch_id(m)) ==> #[trigger] out@.contains(m),
            decreases wild@.len() - k,
        {
            let x = wild[k];
            let seen = seq_has(wild, x, k);
            proof {
                assert(wild@.take(k + 1) =~= wild@.take(k as int).push(x));
                assert forall|y: ID| #[trigger] wild@.take(k + 1).contains(y) <==> wild@.take(k as int).contains(y)
                    || y == x by {
                    lemma_contains_push(wild@.take(k as int), x, y);
                }
                assert(wild@.contains(x)) by {
                    assert(wild@[k as int] == x);
                }
            }
            if !seen {
                let f = count_in(wild, x);
                let held = self.held_exec(x);
                let ghost out0 = out@;
                match held {
                    Some(c) => {
                        if (c as u64) != (f as u64) {
                            let m0 = RegisterMismatch::CountDiffers { id: x, found: f, recorded: c };
                            proof {
                                assert(!out0.contains(m0));
                            }
                            out.push(m0);
                            proof {
                                assert forall|m: RegisterMismatch| #[trigger] out@.contains(m) <==> out0.contains(m)
                                    || m == m0 by {
                                    lemma_contains_push(out0, m0, m);
                                }
                            }
                        }
                    },
                    None => {
                        let m0 = RegisterMismatch::NoItem { id: x, found: f };
                        proof {
                            assert(!out0.contains(m0));
                        }
                        out.push(m0);
                        proof {
                            assert forall|m: RegisterMismatch| #[trigger] out@.contains(m) <==> out0.contains(m)
                                || m == m0 by {
                                lemma_contains_push(out0, m0, m);
                            }
                        }
                    },
                }
            }
            k = k + 1;
        }
        proof {
            assert(wild@.take(wild@.len() as int) =~= wild@);
        }
        let n = self.songs.len();
        let mut i: usize = 0;
        while i < n
            invariant
                i <= n == self.songs.num_slots(),
                out@.no_duplicates(),
                forall|m: RegisterMismatch| #[trigger] out@.contains(m) ==> self.is_mismatch(wild@, m)
                    && (m is Leaked ==> song_below(mismatch_id(m), i as int)),
                forall|m: RegisterMismatch| self.is_mismatch(wild@, m) && !(m is Leaked) ==> #[trigger] out@.contains(m),
                forall|m: RegisterMismatch| self.is_mismatch(wild@, m) && m is Leaked && song_below(mismatch_id(m), i as int) ==> #[trigger] out@.contains(m),
            decreases n - i,
        {
            match self.songs.get_id_count(i) {
                Some((sid, c)) => {
                    proof {
                        assert(wild@.take(wild@.len() as int) =~= wild@);
                    }
                    let in_wild = seq_has(wild, ID::Song(sid), wild.len());
                    if !in_wild {
                        let m0 = RegisterMismatch::Leaked { id: ID::Song(sid), recorded: c };
                        let ghost out0 = out@;
                        proof {
                            assert(!out0.contains(m0));
                        }
                        out.push(m0);
                        proof {
                            assert forall|m: RegisterMismatch| #[trigger] out@.contains(m) <==> out0.contains(m)
                                || m == m0 by {
                                lemma_contains_push(out0, m0, m);
                            }
                        }
                    }
                    proof {
                        assert forall|m: RegisterMismatch| self.is_mismatch(wild@, m) && m is Leaked && song_below(mismatch_id(m), i + 1) implies #[trigger] out@.contains(m) by {
                            if let ID::Song(s) = mismatch_id(m) {
                                if s.key_index() == i {
                                    lemma_song_id_eq(s, sid);
                                }
                            }
                        }
                    }
                },
                None => {},
            }
            i = i + 1;
        }
        proof {
            assert forall|m: RegisterMismatch| self.is_mismatch(wild@, m) && m is Leaked && mismatch_id(m) is Song
                implies #[trigger] out@.contains(m) by {
                if let ID::Song(s) = mismatch_id(m) {
                    lemma_live_in_range(self.songs, s.key_index() as int);
                }
            }
        }
        let n = self.content_providers.len();
        let mut i: usize = 0;
        while i < n
            invariant
                i <= n == self.content_providers.num_slots(),
                out@.no_duplicates(),
                forall|m: RegisterMismatch| #[trigger] out@.contains(m) ==> self.is_mismatch(wild@, m)
                    && (m is Leaked ==> mismatch_id(m) is Song || provider_below(mismatch_id(m), i as int)),
                forall|m: RegisterMismatch| self.is_mismatch(wild@, m) && !(m is Leaked) ==> #[trigger] out@.contains(m),
                forall|m: RegisterMismatch| self.is_mismatch(wild@, m) && m is Leaked && mismatch_id(m) is Song ==> #[trigger] out@.contains(m),
                forall|m: RegisterMismatch| self.is_mismatch(wild@, m) && m is Leaked && provider_below(mismatch_id(m), i as int) ==> #[trigger] out@.contains(m),
            decreases n - i,
        {
            match self.content_providers.get_id_count(i) {
                Some((pid, c)) => {
                    proof {
                        assert(wild@.take(wild@.len() as int) =~= wild@);
                    }
                    let in_wild = seq_has(wild, ID::ContentProvider(pid), wild.len());
                    if !in_wild {
                        let m0 = RegisterMismatch::Leaked { id: ID::ContentProvider(pid), recorded: c };
                        let ghost out0 = out@;
                        proof {
                            assert(!out0.contains(m0));
                        }
                        out.push(m0);
                        proof {
                            assert forall|m: RegisterMismatch| #[trigger] out@.contains(m) <==> out0.contains(m)
                                || m == m0 by {
                                lemma_contains_push(out0, m0, m);
                            }
                        }
                    }
                    proof {
                        assert forall|m: RegisterMismatch| self.is_mismatch(wild@, m) && m is Leaked && provider_below(mismatch_id(m), i + 1) implies #[trigger] out@.contains(m) by {
                            if let ID::ContentProvider(p) = mismatch_id(m) {
                                if p.key_index() == i {
                                    lemma_provider_id_eq(p, pid);
                                }
                            }
                        }
                    }
                },
                None => {},
            }
            i = i + 1;
        }
        proof {
            assert forall|m: RegisterMismatch| self.is_mismatch(wild@, m) implies #[trigger] out@.contains(m) by {
                if m is Leaked {
                    if let ID::ContentProvider(p) = mismatch_id(m) {
                        lemma_live_in_range(self.content_providers, p.key_index() as int);
                    }
                }
            }
        }
        out
    }
}


/// How many flags of `s` are down.
pub open spec fn unvisited(s: Seq<bool>) -> nat
    decreases s.len(),
{
    if s.len() == 0 {
        0
    } else {
        unvisited(s.drop_last()) + if s.last() { 0nat } else { 1nat }
    }
}

proof fn lemma_unvisited_set(s: Seq<bool>, i: int)
    requires
        0 <= i < s.len(),
        !s[i],
    ensures
        unvisited(s.update(i, true)) + 1 == unvisited(s),
    decreases s.len(),
{
    if i < s.len() - 1 {
        assert(s.update(i, true).drop_last() =~= s.drop_last().update(i, true));
        lemma_unvisited_set(s.drop_last(), i);
    } else {
        assert(s.update(i, true).drop_last() =~= s.drop_last());
    }
}

proof fn lemma_count_push(s: Seq<ID>, y: ID, x: ID)
    ensures
        count_of(s.push(y), x) == count_of(s, x) + if y == x { 1nat } else { 0nat },
{
    assert(s.push(y).drop_last() =~= s);
}

/// Counts add up over a concatenation.
pub proof fn lemma_count_concat(a: Seq<ID>, b: Seq<ID>, x: ID)
    ensures
        count_of(a + b, x) == count_of(a, x) + count_of(b, x),
    decreases b.len(),
{
    if b.len() > 0 {
        assert((a + b).drop_last() =~= a + b.drop_last());
        lemma_count_concat(a, b.drop_last(), x);
    } else {
        assert(a + b =~= a);
    }
}

/// The ids that the entries of a content stack name, bottom first.
pub open spec fn ids_of_entries(s: Seq<GlobalContent>) -> Seq<ID>
    decreases s.len(),
{
    if s.len() == 0 {
        Seq::empty()
    } else {
        ids_of_entries(s.drop_last()) + match s.last() {
            GlobalContent::ID(id) => seq![id],
            GlobalContent::Notifier => Seq::empty(),
        }
    }
}

impl ContentManager {
    /// The ids that provider `p` lists, or none where `p` reaches no provider.
    pub open spec fn listed_by(&self, p: ContentProviderID) -> Seq<ID> {
        match self.provider(p) {
            Some(cp) => cp.listing(),
            None => Seq::empty(),
        }
    }

    /// How often `x` is listed, over all the providers of `e`.
    pub open spec fn listed_count(&self, e: Seq<ContentProviderID>, x: ID) -> nat
        decreases e.len(),
    {
        if e.len() == 0 {
            0
        } else {
            self.listed_count(e.drop_last(), x) + count_of(self.listed_by(e.last()), x)
        }
    }

    /// The ids on the content stack, bottom first.
    pub open spec fn stack_ids(&self) -> Seq<ID> {
        ids_of_entries(self.content_stack.entries())
    }

    /// `e` holds, each once, exactly the live providers reachable from `roots`
    /// through the listings of live providers, each after one that reaches it.
    pub open spec fn is_reach_order(&self, roots: Seq<ID>, e: Seq<ContentProviderID>) -> bool {
        &&& e.no_duplicates()
        &&& forall|k: int| 0 <= k < e.len() ==> (#[trigger] self.provider(e[k])) is Some
        &&& forall|k: int| 0 <= k < e.len() ==> roots.contains(ID::ContentProvider(#[trigger] e[k])) || exists|j: int|
            0 <= j < k && self.listed_by(e[j]).contains(ID::ContentProvider(e[k]))
        &&& forall|p: ContentProviderID| roots.contains(ID::ContentProvider(p)) && (#[trigger] self.provider(p)) is Some
            ==> e.contains(p)
        &&& forall|k: int, p: ContentProviderID| 0 <= k < e.len() && #[trigger] self.listed_by(e[k]).contains(
            ID::ContentProvider(p)) && self.provider(p) is Some ==> e.contains(p)
    }

    /// `visited` flags, by slot, the providers of `e`: live ones, each once.
    spec fn walk_inv(&self, visited: Seq<bool>, e: Seq<ContentProviderID>) -> bool {
        &&& visited.len() == self.content_providers.num_slots()
        &&& forall|k: int| 0 <= k < e.len() ==> (#[trigger] self.provider(e[k])) is Some
        &&& forall|k: int, l: int| 0 <= k < l < e.len() ==> (#[trigger] e[k]).key_index() != (#[trigger] e[l]).key_index()
        &&& forall|i: int| 0 <= i < visited.len() ==> (#[trigger] visited[i] <==> exists|k: int|
            0 <= k < e.len() && (#[trigger] e[k]).key_index() == i)
    }

    /// Every live provider that `p` lists is flagged.
    spec fn closed_under(&self, visited: Seq<bool>, p: ContentProviderID) -> bool {
        forall|c: ContentProviderID| #[trigger] self.listed_by(p).contains(ID::ContentProvider(c)) && self.provider(c) is Some
            ==> visited[c.key_index() as int]
    }

    /// Appends `id` and, where it reaches a provider not yet flagged, flags it
    /// and appends in turn what it lists, walking into the providers listed.
    fn walk(
        &self,
        id: ContentProviderID,
        visited: &mut Vec<bool>,
        out: &mut Vec<ID>,
        Ghost(e): Ghost<Seq<ContentProviderID>>,
    ) -> (e2: Ghost<Seq<ContentProviderID>>)
        requires
            self.walk_inv(old(visited)@, e),
        ensures
            self.walk_inv(final(visited)@, e2@),
            e2@.len() >= e.len(),
            forall|i: int| 0 <= i < e.len() ==> e2@[i] == e[i],
            unvisited(final(visited)@) <= unvisited(old(visited)@),
            forall|i: int| 0 <= i < old(visited)@.len() && old(visited)@[i] ==> final(visited)@[i],
            self.provider(id) is Some ==> final(visited)@[id.key_index() as int],
            forall|x: ID| count_of(final(out)@, x) + self.listed_count(e, x) == count_of(old(out)@, x) + (if x
                == ID::ContentProvider(id) { 1nat } else { 0nat }) + self.listed_count(e2@, x),
            forall|k: int| e.len() <= k < e2@.len() ==> e2@[k] == id || exists|j: int|
                0 <= j < k && #[trigger] self.listed_by(e2@[j]).contains(ID::ContentProvider(e2@[k])),
            forall|k: int| e.len() <= k < e2@.len() ==> self.closed_under(final(visited)@, #[trigger] e2@[k]),
        decreases unvisited(old(visited)@),
    {
        let ghost v0 = visited@;
        let ghost out0 = out@;
        out.push(ID::ContentProvider(id));
        proof {
            assert forall|x: ID| count_of(out@, x) == count_of(out0, x) + (if x == ID::ContentProvider(id) { 1nat } else { 0nat }) by {
                lemma_count_push(out0, ID::ContentProvider(id), x);
            }
        }
        let cp = match self.content_providers.get(id) {
            Some(cp) => cp,
            None => {
                return Ghost(e);
            },
        };
        let idx = id.index();
        proof {
            lemma_live_in_range(self.content_providers, idx as int);
        }
        if visited[idx] {
            return Ghost(e);
        }
        visited[idx] = true;
        let ghost mut ecur = e.push(id);
        proof {
            lemma_unvisited_set(v0, idx as int);
            assert forall|i: int| 0 <= i < visited@.len() implies (#[trigger] visited@[i] <==> exists|k: int|
                0 <= k < ecur.len() && (#[trigger] ecur[k]).key_index() == i) by {
                if i == idx {
                    assert(ecur[e.len() as int].key_index() == i);
                } else {
                    if v0[i] {
                        let k = choose|k: int| 0 <= k < e.len() && (#[trigger] e[k]).key_index() == i;
                        assert(ecur[k] == e[k]);
                    }
                    if exists|k: int| 0 <= k < ecur.len() && (#[trigger] ecur[k]).key_index() == i {
                        let k = choose|k: int| 0 <= k < ecur.len() && (#[trigger] ecur[k]).key_index() == i;
                        assert(e[k] == ecur[k]);
                    }
                }
            }
            assert forall|k: int, l: int| 0 <= k < l < ecur.len() implies (#[trigger] ecur[k]).key_index() != (
            #[trigger] ecur[l]).key_index() by {
                if l == e.len() {
                    assert(e[k].key_index() != idx) by {
                        if e[k].key_index() == idx {
                            assert(v0[idx as int]);
                        }
                    }
                } else {
                    assert(ecur[k] == e[k] && ecur[l] == e[l]);
                }
            }
            assert forall|k: int| 0 <= k < ecur.len() implies (#[trigger] self.provider(ecur[k])) is Some by {
                if k < e.len() {
                    assert(ecur[k] == e[k]);
                }
            }
        }
        let kids = cp.ids();
        proof {
            assert(ecur.drop_last() =~= e);
            assert(kids@.take(0) =~= Seq::<ID>::empty());
        }
        let mut j: usize = 0;
        while j < kids.len()
            invariant
                kids@ == self.listed_by(id),
                self.provider(id) is Some,
                j <= kids@.len(),
                self.walk_inv(visited@, ecur),
                ecur.len() >= e.len() + 1,
                forall|i: int| 0 <= i < e.len() ==> ecur[i] == e[i],
                ecur[e.len() as int] == id,
                v0 == old(visited)@,
                v0.len() == visited@.len(),
                id.key_index() < visited@.len(),
                unvisited(visited@) < unvisited(old(visited)@),
                forall|i: int| 0 <= i < v0.len() && v0[i] ==> visited@[i],
                visited@[id.key_index() as int],
                forall|x: ID| count_of(out@, x) + self.listed_count(e, x) + count_of(kids@, x) == count_of(out0, x) + (if x
                    == ID::ContentProvider(id) { 1nat } else { 0nat }) + self.listed_count(ecur, x) + count_of(
                    kids@.take(j as int), x),
                forall|k: int| e.len() <= k < ecur.len() ==> ecur[k] == id || exists|jj: int|
                    0 <= jj < k && #[trigger] self.listed_by(ecur[jj]).contains(ID::ContentProvider(ecur[k])),
                forall|k: int| e.len() + 1 <= k < ecur.len() ==> self.closed_under(visited@, #[trigger] ecur[k]),
                forall|jj: int| 0 <= jj < j ==> (#[trigger] kids@[jj] matches ID::ContentProvider(c) ==> (self.provider(c) is Some
                    ==> visited@[c.key_index() as int])),
            decreases kids@.len() - j,
        {
            let ghost outj = out@;
            let ghost vj = visited@;
            let ghost ej = ecur;
            proof {
                assert(kids@.take(j + 1) =~= kids@.take(j as int).push(kids@[j as int]));
                assert forall|x: ID| count_of(kids@.take(j + 1), x) == count_of(kids@.take(j as int), x) + (if kids@[j as int]
                    == x { 1nat } else { 0nat }) by {
                    lemma_count_push(kids@.take(j as int), kids@[j as int], x);
                }
            }
            match kids[j] {
                ID::Song(s) => {
                    out.push(ID::Song(s));
                    proof {
                        assert forall|x: ID| count_of(out@, x) == count_of(outj, x) + (if ID::Song(s) == x { 1nat } else { 0nat }) by {
                            lemma_count_push(outj, ID::Song(s), x);
                        }
                    }
                },
                ID::ContentProvider(c) => {
                    let g = self.walk(c, visited, out, Ghost(ecur));
                    proof {
                        ecur = g@;
                        assert forall|i: int| 0 <= i < v0.len() && v0[i] implies visited@[i] by {
                            assert(vj[i]);
                        }
                        assert(vj[id.key_index() as int]);
                        assert(self.listed_by(ej[e.len() as int]).contains(ID::ContentProvider(c))) by {
                            assert(kids@[j as int] == ID::ContentProvider(c));
                        }
                        assert forall|k: int| e.len() <= k < ecur.len() implies ecur[k] == id || exists|jj: int|
                            0 <= jj < k && #[trigger] self.listed_by(ecur[jj]).contains(ID::ContentProvider(ecur[k])) by {
                            if k < ej.len() {
                                assert(ecur[k] == ej[k]);
                                if ej[k] != id {
                                    let jj = choose|jj: int| 0 <= jj < k && #[trigger] self.listed_by(ej[jj]).contains(
                                        ID::ContentProvider(ej[k]));
                                    assert(ecur[jj] == ej[jj]);
                                }
                            } else if ecur[k] == c {
                                assert(ecur[e.len() as int] == ej[e.len() as int]);
                            }
                        }
                        assert forall|k: int| e.len() + 1 <= k < ecur.len() implies self.closed_under(visited@, #[trigger] ecur[k]) by {
                            if k < ej.len() {
                                assert(ecur[k] == ej[k]);
                                assert(self.closed_under(vj, ej[k]));
                                assert forall|d: ContentProviderID| #[trigger] self.listed_by(ecur[k]).contains(
                                    ID::ContentProvider(d)) && self.provider(d) is Some implies visited@[d.key_index() as int] by {
                                    assert(vj[d.key_index() as int]);
                                    lemma_live_in_range(self.content_providers, d.key_index() as int);
                                }
                            }
                        }
                    }
                },
            }
            proof {
                assert forall|jj: int| 0 <= jj < j + 1 implies (#[trigger] kids@[jj] matches ID::ContentProvider(c) ==> (self.provider(c) is Some
                    ==> visited@[c.key_index() as int])) by {
                    if jj < j {
                        if let ID::ContentProvider(c) = kids@[jj] {
                            if self.provider(c) is Some {
                                assert(vj[c.key_index() as int]);
                                lemma_live_in_range(self.content_providers, c.key_index() as int);
                            }
                        }
                    }
                }
            }
            j = j + 1;
        }
        proof {
            assert(kids@.take(kids@.len() as int) =~= kids@);
            assert forall|c: ContentProviderID| #[trigger] self.listed_by(id).contains(ID::ContentProvider(c)) && self.provider(c) is Some
                implies visited@[c.key_index() as int] by {
                let jj = choose|jj: int| 0 <= jj < kids@.len() && kids@[jj] == ID::ContentProvider(c);
                assert(kids@[jj] matches ID::ContentProvider(c));
            }
            assert(self.closed_under(visited@, ecur[e.len() as int]));
        }
        Ghost(ecur)
    }
}


/// A sequence holds what either part of a concatenation holds.
pub proof fn lemma_contains_concat<A>(a: Seq<A>, b: Seq<A>, y: A)
    ensures
        (a + b).contains(y) <==> a.contains(y) || b.contains(y),
{
    if a.contains(y) {
        let i = choose|i: int| 0 <= i < a.len() && a[i] == y;
        assert((a + b)[i] == y);
    }
    if b.contains(y) {
        let i = choose|i: int| 0 <= i < b.len() && b[i] == y;
        assert((a + b)[a.len() + i] == y);
    }
    if (a + b).contains(y) {
        let i = choose|i: int| 0 <= i < (a + b).len() && (a + b)[i] == y;
        if i < a.len() {
            assert(a[i] == y);
        } else {
            assert(b[i - a.len()] == y);
        }
    }
}

/// The ids that a list of edits records, edit after edit.
pub open spec fn edits_ids(s: Seq<Edit>) -> Seq<ID>
    decreases s.len(),
{
    if s.len() == 0 {
        Seq::empty()
    } else {
        edits_ids(s.drop_last()) + edit_ids(s.last())
    }
}

/// The id in `o`, if any, as a sequence.
pub open spec fn opt_ids(o: Option<ID>) -> Seq<ID> {
    match o {
        Some(id) => seq![id],
        None => Seq::empty(),
    }
}

fn extend_ids(out: &mut Vec<ID>, v: &Vec<ID>)
    ensures
        final(out)@ == old(out)@ + v@,
{
    let ghost o = out@;
    let mut t: usize = 0;
    while t < v.len()
        invariant
            t <= v@.len(),
            out@ == o + v@.take(t as int),
        decreases v@.len() - t,
    {
        out.push(v[t]);
        proof {
            assert(o + v@.take(t + 1) =~= (o + v@.take(t as int)).push(v@[t as int]));
        }
        t = t + 1;
    }
    proof {
        assert(v@.take(v@.len() as int) =~= v@);
    }
}

fn extend_edit_ids(out: &mut Vec<ID>, edits: &Vec<Edit>)
    ensures
        final(out)@ == old(out)@ + edits_ids(edits@),
{
    let ghost o = out@;
    let mut t: usize = 0;
    while t < edits.len()
        invariant
            t <= edits@.len(),
            out@ == o + edits_ids(edits@.take(t as int)),
        decreases edits@.len() - t,
    {
        let ids = match &edits[t] {
            Edit::Pasted { yank, .. } => yank.iter(),
            Edit::Yanked { yank, .. } => yank.iter(),
            Edit::TextEdit { .. } => Vec::new(),
        };
        proof {
            assert(ids@ == edit_ids(edits@[t as int]));
            assert(edits@.take(t + 1).drop_last() =~= edits@.take(t as int));
        }
        extend_ids(out, &ids);
        proof {
            assert(o + edits_ids(edits@.take(t + 1)) =~= o + edits_ids(edits@.take(t as int)) + ids@);
        }
        t = t + 1;
    }
    proof {
        assert(edits@.take(edits@.len() as int) =~= edits@);
    }
}

impl ContentManager {
    /// The ids held outside the providers and the stack: those the edits and
    /// the undone edits record, the queue and the song playing, and the queue
    /// provider that the main provider names.
    pub open spec fn held_ids(&self) -> Seq<ID> {
        edits_ids(self.edit_manager.edit_stack@) + edits_ids(self.edit_manager.undo_stack@) + opt_ids(
            match self.active_queue {
                Some(q) => Some(ID::ContentProvider(q)),
                None => None,
            },
        ) + opt_ids(
            match self.active_song {
                Some(s) => Some(ID::Song(s)),
                None => None,
            },
        ) + seq![ID::ContentProvider(self.queue_provider_of()->Some_0)]
    }

    /// `wild` lists every id held: those on the stack and those the providers
    /// reachable from it list (each such provider walked once), then the
    /// ids held elsewhere.
    pub open spec fn is_wild(&self, wild: Seq<ID>) -> bool {
        exists|e: Seq<ContentProviderID>, w: Seq<ID>| {
            &&& wild == w + self.held_ids()
            &&& self.is_reach_order(self.stack_ids(), e)
            &&& forall|x: ID| #[trigger] count_of(w, x) == count_of(self.stack_ids(), x) + self.listed_count(e, x)
        }
    }

    proof fn lemma_flag_means_in(&self, visited: Seq<bool>, e: Seq<ContentProviderID>, p: ContentProviderID)
        requires
            self.walk_inv(visited, e),
            self.provider(p) is Some,
            visited[p.key_index() as int],
        ensures
            e.contains(p),
    {
        lemma_live_in_range(self.content_providers, p.key_index() as int);
        let k = choose|k: int| 0 <= k < e.len() && (#[trigger] e[k]).key_index() == p.key_index();
        assert(self.provider(e[k]) is Some);
        lemma_provider_id_eq(e[k], p);
    }

    /// Every id held: the stack's ids and, walking from each provider on the
    /// stack (bottom first) into the providers it lists, the ids that each
    /// provider reached lists, a provider walked into at most once; then the
    /// ids that the edits and the undone edits record, the queue and the song
    /// playing, and the queue provider.
    pub fn ids_in_the_wild(&self) -> (r: Vec<ID>)
        requires
            self.content_stack.wf(),
            self.queue_provider_of() is Some,
        ensures
            self.is_wild(r@),
    {
        let n = self.content_providers.len();
        let mut visited: Vec<bool> = Vec::new();
        while visited.len() < n
            invariant
                visited@.len() <= n,
                forall|i: int| 0 <= i < visited@.len() ==> !visited@[i],
            decreases n - visited@.len(),
        {
            visited.push(false);
        }
        let mut out: Vec<ID> = Vec::new();
        let ghost mut e: Seq<ContentProviderID> = Seq::empty();
        let ghost entries = self.content_stack.entries();
        let len = self.content_stack.len();
        let mut i: usize = 0;
        proof {
            assert(entries.take(0) =~= Seq::<GlobalContent>::empty());
        }
        while i < len
            invariant
                len == entries.len(),
                entries == self.content_stack.entries(),
                i <= len,
                self.walk_inv(visited@, e),
                forall|x: ID| #[trigger] count_of(out@, x) == count_of(ids_of_entries(entries.take(i as int)), x) + self.listed_count(e, x),
                forall|k: int| 0 <= k < e.len() ==> ids_of_entries(entries.take(i as int)).contains(ID::ContentProvider(#[trigger] e[k]))
                    || exists|j: int| 0 <= j < k && self.listed_by(e[j]).contains(ID::ContentProvider(e[k])),
                forall|k: int| 0 <= k < e.len() ==> self.closed_under(visited@, #[trigger] e[k]),
                forall|p: ContentProviderID| ids_of_entries(entries.take(i as int)).contains(ID::ContentProvider(p))
                    && (#[trigger] self.provider(p)) is Some ==> visited@[p.key_index() as int],
            decreases len - i,
        {
            let ghost roots = ids_of_entries(entries.take(i as int));
            let ghost outi = out@;
            let ghost vi = visited@;
            let ghost ei = e;
            let ghost added: Seq<ID> = match entries[i as int] {
                GlobalContent::ID(id) => seq![id],
                GlobalContent::Notifier => Seq::empty(),
            };
            proof {
                assert(entries.take(i + 1).drop_last() =~= entries.take(i as int));
                assert(ids_of_entries(entries.take(i + 1)) == roots + added);
                assert forall|y: ID| #[trigger] (roots + added).contains(y) <==> roots.contains(y) || added.contains(y) by {
                    lemma_contains_concat(roots, added, y);
                }
                assert forall|x: ID| #[trigger] count_of(roots + added, x) == count_of(roots, x) + count_of(added, x) by {
                    lemma_count_concat(roots, added, x);
                }
            }
            match self.content_stack.get(i) {
                Some(GlobalContent::ID(ID::ContentProvider(p))) => {
                    let g = self.walk(p, &mut visited, &mut out, Ghost(e));
                    proof {
                        e = g@;
                        assert(added == seq![ID::ContentProvider(p)]);
                        assert(added.contains(ID::ContentProvider(p))) by {
                            assert(added[0] == ID::ContentProvider(p));
                        }
                        assert forall|x: ID| #[trigger] count_of(added, x) == (if x == ID::ContentProvider(p) { 1nat } else { 0nat }) by {
                            assert(added =~= Seq::<ID>::empty().push(ID::ContentProvider(p)));
                            assert(count_of(Seq::<ID>::empty(), x) == 0);
                            lemma_count_push(Seq::<ID>::empty(), ID::ContentProvider(p), x);
                        }
                        assert forall|k: int| 0 <= k < e.len() implies (roots + added).contains(ID::ContentProvider(#[trigger] e[k]))
                            || exists|j: int| 0 <= j < k && self.listed_by(e[j]).contains(ID::ContentProvider(e[k])) by {
                            if k < ei.len() {
                                assert(e[k] == ei[k]);
                                if !roots.contains(ID::ContentProvider(ei[k])) {
                                    let j = choose|j: int| 0 <= j < k && self.listed_by(ei[j]).contains(ID::ContentProvider(ei[k]));
                                    assert(e[j] == ei[j]);
                                }
                            }
                        }
                        assert forall|k: int| 0 <= k < e.len() implies self.closed_under(visited@, #[trigger] e[k]) by {
                            if k < ei.len() {
                                assert(e[k] == ei[k]);
                                assert(self.closed_under(vi, ei[k]));
                                assert forall|d: ContentProviderID| #[trigger] self.listed_by(e[k]).contains(
                                    ID::ContentProvider(d)) && self.provider(d) is Some implies visited@[d.key_index() as int] by {
                                    assert(vi[d.key_index() as int]);
                                    lemma_live_in_range(self.content_providers, d.key_index() as int);
                                }
                            }
                        }
                        assert forall|q: ContentProviderID| (roots + added).contains(ID::ContentProvider(q))
                            && (#[trigger] self.provider(q)) is Some implies visited@[q.key_index() as int] by {
                            lemma_live_in_range(self.content_providers, q.key_index() as int);
                            if roots.contains(ID::ContentProvider(q)) {
                                assert(vi[q.key_index() as int]);
                            }
                        }
                    }
                },
                Some(GlobalContent::ID(ID::Song(s))) => {
                    out.push(ID::Song(s));
                    proof {
                        assert(added == seq![ID::Song(s)]);
                        assert forall|x: ID| #[trigger] count_of(added, x) == (if x == ID::Song(s) { 1nat } else { 0nat }) by {
                            assert(added =~= Seq::<ID>::empty().push(ID::Song(s)));
                            assert(count_of(Seq::<ID>::empty(), x) == 0);
                            lemma_count_push(Seq::<ID>::empty(), ID::Song(s), x);
                        }
                        assert forall|x: ID| #[trigger] count_of(out@, x) == count_of(outi, x) + (if ID::Song(s) == x { 1nat } else { 0nat }) by {
                            lemma_count_push(outi, ID::Song(s), x);
                        }
                        assert forall|y: ID| y is ContentProvider implies !added.contains(y) by {
                            if added.contains(y) {
                                let t = choose|t: int| 0 <= t < added.len() && added[t] == y;
                                assert(added[t] == ID::Song(s));
                            }
                        }
                    }
                },
                _ => {
                    proof {
                        assert(added =~= Seq::<ID>::empty());
                        assert forall|x: ID| #[trigger] count_of(added, x) == 0 by {}
                    }
                },
            }
            i = i + 1;
        }
        let ghost w = out@;
        proof {
            assert(entries.take(len as int) =~= entries);
            let roots = self.stack_ids();
            assert forall|p: ContentProviderID| roots.contains(ID::ContentProvider(p)) && (#[trigger] self.provider(p)) is Some
                implies e.contains(p) by {
                self.lemma_flag_means_in(visited@, e, p);
            }
            assert forall|k: int, p: ContentProviderID| 0 <= k < e.len() && #[trigger] self.listed_by(e[k]).contains(
                ID::ContentProvider(p)) && self.provider(p) is Some implies e.contains(p) by {
                assert(self.closed_under(visited@, e[k]));
                self.lemma_flag_means_in(visited@, e, p);
            }
            assert(e.no_duplicates()) by {
                assert forall|k: int, l: int| 0 <= k < e.len() && 0 <= l < e.len() && k != l implies e[k] != e[l] by {
                    if k < l {
                        assert(e[k].key_index() != e[l].key_index());
                    } else {
                        assert(e[l].key_index() != e[k].key_index());
                    }
                }
            }
            assert(self.is_reach_order(roots, e));
        }
        extend_edit_ids(&mut out, &self.edit_manager.edit_stack);
        extend_edit_ids(&mut out, &self.edit_manager.undo_stack);
        match self.active_queue {
            Some(q) => out.push(ID::ContentProvider(q)),
            None => {},
        }
        match self.active_song {
            Some(s) => out.push(ID::Song(s)),
            None => {},
        }
        let main = self.content_stack.main_provider();
        match self.content_providers.get(main) {
            Some(ContentProvider::Main(mp)) => out.push(ID::ContentProvider(mp.queue_provider())),
            _ => {
                proof {
                    assert(false);
                }
            },
        }
        proof {
            assert(out@ =~= w + self.held_ids());
            assert(self.is_wild(out@));
        }
        out
    }

    /// Compares every id held with the counts of the registers, as
    /// `compare_with_registers` does, and returns what disagrees.
    pub fn check_for_register(&self) -> (r: Vec<RegisterMismatch>)
        requires
            self.content_stack.wf(),
            self.queue_provider_of() is Some,
        ensures
            exists|wild: Seq<ID>| {
                &&& self.is_wild(wild)
                &&& forall|m: RegisterMismatch| #[trigger] r@.contains(m) <==> self.is_mismatch(wild, m)
            },
            r@.no_duplicates(),
    {
        let wild = self.ids_in_the_wild();
        self.compare_with_registers(&wild)
    }
}


impl ContentManager {
    /// In a fresh manager, what an id reaches is one of the four providers it
    /// was made with: a provider of the first generation in one of the four slots.
    proof fn lemma_fresh_reaches(&self, p: ContentProviderID)
        requires
            self.is_fresh(),
            self.provider(p) is Some,
        ensures
            p.key_index() < 4,
            p.key_generation() == 0,
    {
        lemma_live_in_range(self.content_providers, p.key_index() as int);
        assert(self.content_providers.is_live(p.key_index() as int));
    }

    /// In a fresh manager, only the main provider lists anything; so what a
    /// list of providers lists, without repeats, is what the main provider
    /// lists where the list holds it, and nothing otherwise.
    proof fn lemma_fresh_listed_count(&self, main: ContentProviderID, e: Seq<ContentProviderID>, x: ID)
        requires
            self.is_fresh(),
            main.key_index() == 3,
            main.key_generation() == 0,
            e.no_duplicates(),
            forall|k: int| 0 <= k < e.len() ==> (#[trigger] self.provider(e[k])) is Some,
        ensures
            self.listed_count(e, x) == if e.contains(main) { count_of(self.listed_by(main), x) } else { 0 },
        decreases e.len(),
    {
        if e.len() > 0 {
            let d = e.drop_last();
            assert(d.no_duplicates()) by {
                assert forall|i: int, j: int| 0 <= i < d.len() && 0 <= j < d.len() && i != j implies d[i] != d[j] by {
                    assert(d[i] == e[i] && d[j] == e[j]);
                }
            }
            assert forall|k: int| 0 <= k < d.len() implies (#[trigger] self.provider(d[k])) is Some by {
                assert(d[k] == e[k]);
            }
            self.lemma_fresh_listed_count(main, d, x);
            let l = e.last();
            assert(self.provider(e[e.len() - 1]) is Some);
            self.lemma_fresh_reaches(l);
            assert forall|y: ContentProviderID| #[trigger] e.contains(y) <==> d.contains(y) || y == l by {
                assert(e =~= d.push(l));
                lemma_contains_push(d, l, y);
            }
            if l == main {
                if d.contains(main) {
                    let i = choose|i: int| 0 <= i < d.len() && d[i] == main;
                    assert(e[i] == e[e.len() - 1]);
                }
            } else {
                if l.key_index() == 3 {
                    lemma_provider_id_eq(l, main);
                }
                assert(self.listed_by(l).len() == 0) by {
                    let i = l.key_index() as int;
                    assert(self.content_providers.is_live(i));
                }
                assert(count_of(self.listed_by(l), x) == 0) by {
                    assert(self.listed_by(l) =~= Seq::<ID>::empty());
                }
            }
        }
    }

    /// A fresh manager holds each item exactly as often as its register
    /// counts: checking its registers finds no disagreement, for whichever
    /// order the walk through its providers takes.
    pub proof fn lemma_fresh_manager_agrees(&self, wild: Seq<ID>, m: RegisterMismatch)
        requires
            self.is_fresh(),
            self.is_wild(wild),
        ensures
            !self.is_mismatch(wild, m),
    {
        let cpr = self.content_providers;
        let main = self.content_stack.entries()[0]->ID_0->ContentProvider_0;
        let mp = cpr.slot_val(3)->Main_0;
        let c0 = mp.children()[0];
        let c1 = mp.children()[1];
        let c2 = mp.children()[2];
        assert(self.provider(main) == Some(ContentProvider::Main(mp)));
        assert(cpr.is_live(0) && cpr.is_live(1) && cpr.is_live(2));
        assert(self.provider(c0) is Some && self.provider(c1) is Some && self.provider(c2) is Some);
        lemma_provider_id_eq(c0, mp.queue_provider_id());
        let (e, w) = choose|e: Seq<ContentProviderID>, w: Seq<ID>| {
            &&& wild == w + self.held_ids()
            &&& self.is_reach_order(self.stack_ids(), e)
            &&& forall|x: ID| #[trigger] count_of(w, x) == count_of(self.stack_ids(), x) + self.listed_count(e, x)
        };
        // the stack holds the main provider alone
        let entries = self.content_stack.entries();
        assert(entries.drop_last() =~= Seq::<GlobalContent>::empty());
        assert(ids_of_entries(entries.drop_last()) =~= Seq::<ID>::empty());
        assert(entries.last() == entries[0]);
        assert(self.stack_ids() =~= seq![ID::ContentProvider(main)]);
        assert(self.stack_ids().contains(ID::ContentProvider(main))) by {
            assert(self.stack_ids()[0] == ID::ContentProvider(main));
        }
        assert(e.contains(main));
        // what is held elsewhere is the queue provider alone
        assert(edits_ids(self.edit_manager.edit_stack@) =~= Seq::<ID>::empty());
        assert(edits_ids(self.edit_manager.undo_stack@) =~= Seq::<ID>::empty());
        assert(self.held_ids() =~= seq![ID::ContentProvider(c0)]);
        // the main provider lists its three children
        assert(self.listed_by(main) =~= seq![ID::ContentProvider(c0), ID::ContentProvider(c1), ID::ContentProvider(c2)]);
        let expected = |x: ID| {
            (if x == ID::ContentProvider(main) { 1nat } else { 0nat }) + (if x == ID::ContentProvider(c0) {
                2nat
            } else {
                0nat
            }) + (if x == ID::ContentProvider(c1) { 1nat } else { 0nat }) + (if x == ID::ContentProvider(c2) {
                1nat
            } else {
                0nat
            })
        };
        assert forall|x: ID| #[trigger] count_of(wild, x) == expected(x) by {
            lemma_count_concat(w, self.held_ids(), x);
            self.lemma_fresh_listed_count(main, e, x);
            reveal_with_fuel(count_of, 4);
        }
        // what the registers count
        assert forall|x: ID| #[trigger] self.held(x) == if expected(x) > 0 { Some(expected(x) as u32) } else { None::<u32> } by {
            match x {
                ID::Song(s) => {
                    if self.songs.is_live(s.key_index() as int) {
                        lemma_live_in_range(self.songs, s.key_index() as int);
                    }
                },
                ID::ContentProvider(p) => {
                    if self.provider(p) is Some {
                        self.lemma_fresh_reaches(p);
                        let i = p.key_index();
                        if i == 0 {
                            lemma_provider_id_eq(p, c0);
                        } else if i == 1 {
                            lemma_provider_id_eq(p, c1);
                        } else if i == 2 {
                            lemma_provider_id_eq(p, c2);
                        } else {
                            lemma_provider_id_eq(p, main);
                        }
                    } else {
                        assert(p != main && p != c0 && p != c1 && p != c2);
                    }
                },
            }
        }
        lemma_count_contains(wild, mismatch_id(m));
    }
}

} // verus!
