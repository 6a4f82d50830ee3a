use vstd::prelude::*;

use crate::content::selection::{
    selection_decrement, selection_decrement_n, selection_increment_n, stepped_down_n, stepped_up,
    stepped_up_n, SelectedIndex,
};
use crate::service::editors::{Yank, YankItem};

verus! {

/// `y` placed into `s` (ordered by index) after every entry whose index is not
/// larger than its own.
pub open spec fn insert_by_index<T>(s: Seq<Yank<T>>, y: Yank<T>) -> Seq<Yank<T>>
    decreases s.len(),
{
    if s.len() == 0 {
        seq![y]
    } else if s.last().index <= y.index {
        s.push(y)
    } else {
        insert_by_index(s.drop_last(), y).push(s.last())
    }
}

/// `s` ordered by index, entries with equal indices kept in their order.
pub open spec fn sort_by_index<T>(s: Seq<Yank<T>>) -> Seq<Yank<T>>
    decreases s.len(),
{
    if s.len() == 0 {
        s
    } else {
        insert_by_index(sort_by_index(s.drop_last()), s.last())
    }
}

/// The items of yanks, in order.
pub open spec fn yanked_items<T>(s: Seq<Yank<T>>) -> Seq<T> {
    s.map_values(|y: Yank<T>| y.item)
}

proof fn lemma_insert_by_index_split<T>(s: Seq<Yank<T>>, y: Yank<T>, p: int)
    requires
        0 <= p <= s.len(),
        forall|q: int| p <= q < s.len() ==> #[trigger] s[q].index > y.index,
    ensures
        insert_by_index(s, y) =~= insert_by_index(s.take(p), y) + s.skip(p),
    decreases s.len() - p,
{
    if p < s.len() {
        lemma_insert_by_index_split(s, y, p + 1);
        let t = s.take(p + 1);
        assert(t.drop_last() =~= s.take(p));
        assert(t.last() == s[p]);
        assert(insert_by_index(t, y) == insert_by_index(s.take(p), y).push(s[p]));
        assert(s.skip(p) =~= seq![s[p]] + s.skip(p + 1));
    } else {
        assert(s.take(p) =~= s);
        assert(s.skip(p) =~= Seq::<Yank<T>>::empty());
    }
}

/// The yanks ordered by index (a stable sort).
pub fn sort_yanks<T: Copy>(items: &Vec<Yank<T>>) -> (r: Vec<Yank<T>>)
    ensures
        r@ == sort_by_index(items@),
{
    let n = items.len();
    let mut out: Vec<Yank<T>> = Vec::new();
    let mut k: usize = 0;
    while k < n
        invariant
            n == items@.len(),
            k <= n,
            out@ == sort_by_index(items@.take(k as int)),
        decreases n - k,
    {
        let y = items[k];
        let mut p = out.len();
        while p > 0 && out[p - 1].index > y.index
            invariant
                p <= out@.len(),
                forall|q: int| p <= q < out@.len() ==> #[trigger] out@[q].index > y.index,
            decreases p,
        {
            p = p - 1;
        }
        proof {
            lemma_insert_by_index_split(out@, y, p as int);
            if p > 0 {
                let t = out@.take(p as int);
                assert(t.last() == out@[p - 1]);
                assert(insert_by_index(t, y) == t.push(y));
            } else {
                assert(out@.take(0) =~= Seq::<Yank<T>>::empty());
            }
            let u = items@.take(k as int + 1);
            assert(u.drop_last() =~= items@.take(k as int));
            assert(u.last() == y);
        }
        let ghost before = out@;
        out.insert(p, y);
        proof {
            assert(out@ =~= before.take(p as int).push(y) + before.skip(p as int));
            if p == 0 {
                assert(before.take(0).push(y) =~= seq![y]);
            }
        }
        k = k + 1;
    }
    proof {
        assert(items@.take(n as int) =~= items@);
    }
    out
}


/// Merging yanks (ordered by index) back into a list: the next yank goes in
/// when the output has reached its index, or when the list has run out.
pub open spec fn merge_by_index<T>(items: Seq<Yank<T>>, old: Seq<T>, acc: Seq<T>) -> Seq<T>
    decreases items.len() + old.len(),
{
    if items.len() > 0 && (acc.len() == items[0].index || old.len() == 0) {
        merge_by_index(items.drop_first(), old, acc.push(items[0].item))
    } else if old.len() > 0 {
        merge_by_index(items, old.drop_first(), acc.push(old[0]))
    } else {
        acc
    }
}

/// How many of the yanks (taken in order) land at or before a position that
/// starts at `base` and moves down one entry with every yank that lands at or
/// before it.
pub open spec fn shift_count<T>(items: Seq<Yank<T>>, base: int, c: nat) -> nat
    decreases items.len(),
{
    if items.len() == 0 {
        c
    } else if items[0].index <= base + c {
        shift_count(items.drop_first(), base, c + 1)
    } else {
        shift_count(items.drop_first(), base, c)
    }
}

/// Walking a list from position `i`, taking out each entry that the next yank
/// (in order) names with its item and position: what is kept, the yanks that
/// were not found, and how many taken entries stood at or before `sel`.
pub open spec fn remove_walk<T>(items: Seq<Yank<T>>, old: Seq<T>, i: int, sel: int) -> (Seq<T>, Seq<Yank<T>>, nat)
    decreases old.len(),
{
    if old.len() == 0 {
        (Seq::empty(), items, 0)
    } else if items.len() > 0 && items[0].item == old[0] && items[0].index == i {
        let r = remove_walk(items.drop_first(), old.drop_first(), i + 1, sel);
        (r.0, r.1, if i <= sel { r.2 + 1 } else { r.2 })
    } else {
        let r = remove_walk(items, old.drop_first(), i + 1, sel);
        (seq![old[0]] + r.0, r.1, r.2)
    }
}

/// The positions that yanks name.
pub open spec fn yank_positions<T>(items: Seq<Yank<T>>) -> Set<int> {
    Set::new(|p: int| exists|k: int| 0 <= k < items.len() && p == #[trigger] items[k].index as int)
}

/// The entries of `list` whose positions, counted from `base`, are not in
/// `taken`, in order.
pub open spec fn kept_positions<T>(list: Seq<T>, base: int, taken: Set<int>) -> Seq<T> {
    Seq::new(list.len(), |j: int| (base + j, list[j])).filter(|e: (int, T)| !taken.contains(e.0)).map_values(
        |e: (int, T)| e.1,
    )
}

proof fn lemma_insert_positions<T>(s: Seq<Yank<T>>, y: Yank<T>)
    ensures
        yank_positions(insert_by_index(s, y)) == yank_positions(s).insert(y.index as int),
    decreases s.len(),
{
    let r = insert_by_index(s, y);
    if s.len() == 0 {
        assert(r == seq![y]);
        assert forall|p: int| yank_positions(r).contains(p) == yank_positions(s).insert(y.index as int).contains(p) by {
            if p == y.index as int {
                assert(r[0] == y);
            }
        }
        assert(yank_positions(r) =~= yank_positions(s).insert(y.index as int));
    } else if s.last().index <= y.index {
        assert(r == s.push(y));
        assert forall|p: int| yank_positions(r).contains(p) == yank_positions(s).insert(y.index as int).contains(p) by {
            if yank_positions(r).contains(p) {
                let k = choose|k: int| 0 <= k < r.len() && p == #[trigger] r[k].index as int;
                if k < s.len() {
                    assert(r[k] == s[k]);
                }
            }
            if yank_positions(s).contains(p) {
                let k = choose|k: int| 0 <= k < s.len() && p == #[trigger] s[k].index as int;
                assert(r[k] == s[k]);
            }
            if p == y.index as int {
                assert(r[s.len() as int] == y);
            }
        }
        assert(yank_positions(r) =~= yank_positions(s).insert(y.index as int));
    } else {
        let f = s.drop_last();
        let g = insert_by_index(f, y);
        lemma_insert_positions(f, y);
        assert(r == g.push(s.last()));
        assert forall|p: int| yank_positions(r).contains(p) == yank_positions(s).insert(y.index as int).contains(p) by {
            if yank_positions(r).contains(p) {
                let k = choose|k: int| 0 <= k < r.len() && p == #[trigger] r[k].index as int;
                if k < g.len() {
                    assert(r[k] == g[k]);
                    assert(yank_positions(g).contains(p));
                    if p != y.index as int {
                        assert(yank_positions(f).contains(p));
                        let k2 = choose|k2: int| 0 <= k2 < f.len() && p == #[trigger] f[k2].index as int;
                        assert(s[k2] == f[k2]);
                    }
                } else {
                    assert(r[k] == s[s.len() - 1]);
                }
            }
            if yank_positions(s).contains(p) {
                let k = choose|k: int| 0 <= k < s.len() && p == #[trigger] s[k].index as int;
                if k < f.len() {
                    assert(f[k] == s[k]);
                    assert(yank_positions(f).contains(p));
                    assert(yank_positions(g).contains(p));
                    let k2 = choose|k2: int| 0 <= k2 < g.len() && p == #[trigger] g[k2].index as int;
                    assert(r[k2] == g[k2]);
                } else {
                    assert(r[g.len() as int] == s.last());
                }
            }
            if p == y.index as int {
                assert(yank_positions(g).contains(p));
                let k2 = choose|k2: int| 0 <= k2 < g.len() && p == #[trigger] g[k2].index as int;
                assert(r[k2] == g[k2]);
            }
        }
        assert(yank_positions(r) =~= yank_positions(s).insert(y.index as int));
    }
}

/// Ordering yanks by index keeps the positions they name.
pub proof fn lemma_sort_positions<T>(s: Seq<Yank<T>>)
    ensures
        yank_positions(sort_by_index(s)) == yank_positions(s),
    decreases s.len(),
{
    if s.len() > 0 {
        let f = s.drop_last();
        lemma_sort_positions(f);
        lemma_insert_positions(sort_by_index(f), s.last());
        assert forall|p: int| yank_positions(s).contains(p) == yank_positions(f).insert(s.last().index as int).contains(p) by {
            if yank_positions(s).contains(p) {
                let k = choose|k: int| 0 <= k < s.len() && p == #[trigger] s[k].index as int;
                if k < f.len() {
                    assert(f[k] == s[k]);
                }
            }
            if yank_positions(f).contains(p) {
                let k = choose|k: int| 0 <= k < f.len() && p == #[trigger] f[k].index as int;
                assert(s[k] == f[k]);
            }
            if p == s.last().index as int {
                assert(s[s.len() - 1] == s.last());
            }
        }
        assert(yank_positions(s) =~= yank_positions(f).insert(s.last().index as int));
    } else {
        assert(yank_positions(sort_by_index(s)) =~= yank_positions(s));
    }
}

/// Two filters that agree on every entry keep the same entries.
proof fn lemma_filter_agree<A>(s: Seq<A>, p: spec_fn(A) -> bool, q: spec_fn(A) -> bool)
    requires
        forall|i: int| 0 <= i < s.len() ==> p(#[trigger] s[i]) == q(s[i]),
    ensures
        s.filter(p) == s.filter(q),
    decreases s.len(),
{
    reveal(Seq::filter);
    if s.len() > 0 {
        let f = s.drop_last();
        assert forall|i: int| 0 <= i < f.len() implies p(#[trigger] f[i]) == q(f[i]) by {
            assert(f[i] == s[i]);
        }
        lemma_filter_agree(f, p, q);
        assert(p(s[s.len() - 1]) == q(s[s.len() - 1]));
    }
}

/// Where a walk finds every yank, each names a position at or after the
/// one the walk starts at.
proof fn lemma_walk_positions<T>(items: Seq<Yank<T>>, old: Seq<T>, i: int, sel: int)
    requires
        remove_walk(items, old, i, sel).1.len() == 0,
    ensures
        forall|k: int| 0 <= k < items.len() ==> #[trigger] items[k].index >= i,
    decreases old.len(),
{
    if old.len() == 0 {
    } else if items.len() > 0 && items[0].item == old[0] && items[0].index == i {
        let t = items.drop_first();
        lemma_walk_positions(t, old.drop_first(), i + 1, sel);
        assert forall|k: int| 0 <= k < items.len() implies #[trigger] items[k].index >= i by {
            if k > 0 {
                assert(items[k] == t[k - 1]);
            }
        }
    } else {
        lemma_walk_positions(items, old.drop_first(), i + 1, sel);
    }
}

/// Where a walk finds every yank, what it keeps is the list without the
/// entries at the positions the yanks name.
pub proof fn lemma_remove_walk_positions<T>(items: Seq<Yank<T>>, old: Seq<T>, i: int, sel: int)
    requires
        remove_walk(items, old, i, sel).1.len() == 0,
    ensures
        remove_walk(items, old, i, sel).0 == kept_positions(old, i, yank_positions(items)),
    decreases old.len(),
{
    let taken = yank_positions(items);
    let pred = |e: (int, T)| !taken.contains(e.0);
    let whole = Seq::new(old.len(), |j: int| (i + j, old[j]));
    if old.len() == 0 {
        assert(whole.filter(pred) =~= Seq::<(int, T)>::empty()) by {
            reveal(Seq::filter);
        }
        assert(kept_positions(old, i, taken) =~= Seq::<T>::empty());
    } else {
        let rest = old.drop_first();
        let tail = Seq::new(rest.len(), |j: int| (i + 1 + j, rest[j]));
        assert(whole =~= seq![(i, old[0])] + tail);
        Seq::filter_distributes_over_add(seq![(i, old[0])], tail, pred);
        reveal(Seq::filter);
        assert(seq![(i, old[0])].drop_last() =~= Seq::<(int, T)>::empty());
        assert(Seq::<(int, T)>::empty().filter(pred) =~= Seq::<(int, T)>::empty());
        if items.len() > 0 && items[0].item == old[0] && items[0].index == i {
            let t = items.drop_first();
            lemma_remove_walk_positions(t, rest, i + 1, sel);
            lemma_walk_positions(t, rest, i + 1, sel);
            let taken2 = yank_positions(t);
            let pred2 = |e: (int, T)| !taken2.contains(e.0);
            assert(taken.contains(i)) by {
                assert(i == items[0].index as int);
            }
            assert(seq![(i, old[0])].filter(pred) =~= Seq::<(int, T)>::empty());
            assert forall|j: int| 0 <= j < tail.len() implies pred(#[trigger] tail[j]) == pred2(tail[j]) by {
                let p = i + 1 + j;
                if taken.contains(p) {
                    let k = choose|k: int| 0 <= k < items.len() && p == #[trigger] items[k].index as int;
                    assert(k != 0);
                    assert(t[k - 1] == items[k]);
                    assert(taken2.contains(p));
                }
                if taken2.contains(p) {
                    let k = choose|k: int| 0 <= k < t.len() && p == #[trigger] t[k].index as int;
                    assert(t[k] == items[k + 1]);
                    assert(taken.contains(p));
                }
            }
            lemma_filter_agree(tail, pred, pred2);
            assert(whole.filter(pred) =~= tail.filter(pred2));
        } else {
            lemma_remove_walk_positions(items, rest, i + 1, sel);
            lemma_walk_positions(items, rest, i + 1, sel);
            assert(!taken.contains(i)) by {
                if taken.contains(i) {
                    let k = choose|k: int| 0 <= k < items.len() && i == #[trigger] items[k].index as int;
                    assert(items[k].index >= i + 1);
                }
            }
            assert(seq![(i, old[0])].filter(pred) =~= seq![(i, old[0])]);
            assert(whole.filter(pred) =~= seq![(i, old[0])] + tail.filter(pred));
            assert(whole.filter(pred).map_values(|e: (int, T)| e.1) =~= seq![old[0]] + tail.filter(pred).map_values(
                |e: (int, T)| e.1,
            ));
        }
    }
}

/// The yanks name positions in strictly increasing order.
pub open spec fn ordered_positions<T>(items: Seq<Yank<T>>) -> bool {
    forall|j: int, k: int| 0 <= j < k < items.len() ==> #[trigger] items[j].index < #[trigger] items[k].index
}

/// Where the yanks, ordered by index, name increasing positions within the
/// length the list grows to, `new` is `old` with each yanked item spliced in
/// at the position its yank names: it stands there, and the other positions
/// hold the entries of `old`, in order.
pub open spec fn spliced_at<T>(old: Seq<T>, new: Seq<T>, items: Seq<Yank<T>>) -> bool {
    let o = sort_by_index(items);
    ordered_positions(o) && (o.len() > 0 ==> o.last().index < old.len() + o.len()) ==> {
        &&& forall|k: int| 0 <= k < o.len() ==> new[#[trigger] o[k].index as int] == o[k].item
        &&& kept_positions(new, 0, yank_positions(items)) == old
    }
}

proof fn lemma_kept_cons<T>(x: T, rest: Seq<T>, base: int, taken: Set<int>)
    ensures
        kept_positions(seq![x] + rest, base, taken) == (if taken.contains(base) {
            Seq::empty()
        } else {
            seq![x]
        }) + kept_positions(rest, base + 1, taken),
{
    let pred = |e: (int, T)| !taken.contains(e.0);
    let l = seq![x] + rest;
    let whole = Seq::new(l.len(), |j: int| (base + j, l[j]));
    let tail = Seq::new(rest.len(), |j: int| (base + 1 + j, rest[j]));
    assert(whole =~= seq![(base, x)] + tail);
    Seq::filter_distributes_over_add(seq![(base, x)], tail, pred);
    reveal(Seq::filter);
    assert(seq![(base, x)].drop_last() =~= Seq::<(int, T)>::empty());
    assert(Seq::<(int, T)>::empty().filter(pred) =~= Seq::<(int, T)>::empty());
    if taken.contains(base) {
        assert(seq![(base, x)].filter(pred) =~= Seq::<(int, T)>::empty());
        assert(kept_positions(l, base, taken) =~= kept_positions(rest, base + 1, taken));
    } else {
        assert(seq![(base, x)].filter(pred) =~= seq![(base, x)]);
        assert(kept_positions(l, base, taken) =~= seq![x] + kept_positions(rest, base + 1, taken));
    }
}

proof fn lemma_kept_agree<T>(list: Seq<T>, base: int, s1: Set<int>, s2: Set<int>)
    requires
        forall|j: int| 0 <= j < list.len() ==> #[trigger] s1.contains(base + j) == s2.contains(base + j),
    ensures
        kept_positions(list, base, s1) == kept_positions(list, base, s2),
{
    let whole = Seq::new(list.len(), |j: int| (base + j, list[j]));
    let p1 = |e: (int, T)| !s1.contains(e.0);
    let p2 = |e: (int, T)| !s2.contains(e.0);
    assert forall|i: int| 0 <= i < whole.len() implies p1(#[trigger] whole[i]) == p2(whole[i]) by {
        assert(s1.contains(base + i) == s2.contains(base + i));
    }
    lemma_filter_agree(whole, p1, p2);
}

proof fn lemma_ordered_span<T>(items: Seq<Yank<T>>)
    requires
        ordered_positions(items),
        items.len() > 0,
    ensures
        items.last().index >= items[0].index + items.len() - 1,
    decreases items.len(),
{
    if items.len() > 1 {
        let f = items.drop_last();
        assert(ordered_positions(f)) by {
            assert forall|j: int, k: int| 0 <= j < k < f.len() implies #[trigger] f[j].index < #[trigger] f[k].index by {
                assert(f[j] == items[j] && f[k] == items[k]);
            }
        }
        lemma_ordered_span(f);
        assert(items[items.len() - 2].index < items[items.len() - 1].index);
        assert(f.last() == items[items.len() - 2]);
        assert(f[0] == items[0]);
    }
}

/// Merging yanks that name increasing positions, the last within the
/// length the list grows to, puts each item at the position its yank names
/// and the entries of the list, in order, at the other positions.
pub proof fn lemma_merge_positions<T>(items: Seq<Yank<T>>, old: Seq<T>, acc: Seq<T>)
    requires
        ordered_positions(items),
        items.len() > 0 ==> acc.len() <= items[0].index,
        items.len() > 0 ==> items.last().index < acc.len() + old.len() + items.len(),
    ensures
        merge_by_index(items, old, acc).len() == acc.len() + old.len() + items.len(),
        merge_by_index(items, old, acc).take(acc.len() as int) == acc,
        forall|k: int| 0 <= k < items.len() ==> merge_by_index(items, old, acc)[#[trigger] items[k].index as int] == items[k].item,
        kept_positions(merge_by_index(items, old, acc).skip(acc.len() as int), acc.len() as int, yank_positions(items)) == old,
    decreases items.len() + old.len(),
{
    let r = merge_by_index(items, old, acc);
    let taken = yank_positions(items);
    if items.len() > 0 && (acc.len() == items[0].index || old.len() == 0) {
        if acc.len() != items[0].index {
            lemma_ordered_span(items);
        }
        let t = items.drop_first();
        let x = items[0].item;
        let acc2 = acc.push(x);
        assert(ordered_positions(t)) by {
            assert forall|j: int, k: int| 0 <= j < k < t.len() implies #[trigger] t[j].index < #[trigger] t[k].index by {
                assert(t[j] == items[j + 1] && t[k] == items[k + 1]);
            }
        }
        if t.len() > 0 {
            assert(items[0].index < items[1].index);
            assert(t[0] == items[1]);
            assert(t.last() == items.last());
        }
        lemma_merge_positions(t, old, acc2);
        assert(r == merge_by_index(t, old, acc2));
        assert(r.take(acc.len() as int) =~= acc2.take(acc.len() as int));
        assert(acc2.take(acc.len() as int) =~= acc);
        assert(r[acc.len() as int] == acc2[acc.len() as int]);
        assert forall|k: int| 0 <= k < items.len() implies r[#[trigger] items[k].index as int] == items[k].item by {
            if k > 0 {
                assert(items[k] == t[k - 1]);
            }
        }
        let rest = r.skip(acc2.len() as int);
        assert(r.skip(acc.len() as int) =~= seq![x] + rest);
        lemma_kept_cons(x, rest, acc.len() as int, taken);
        assert(taken.contains(acc.len() as int)) by {
            assert(acc.len() as int == items[0].index as int);
        }
        assert forall|j: int| 0 <= j < rest.len() implies #[trigger] taken.contains(acc.len() + 1 + j) == yank_positions(t).contains(
            acc.len() + 1 + j,
        ) by {
            let p = acc.len() + 1 + j;
            if taken.contains(p) {
                let k = choose|k: int| 0 <= k < items.len() && p == #[trigger] items[k].index as int;
                assert(k != 0);
                assert(t[k - 1] == items[k]);
            }
            if yank_positions(t).contains(p) {
                let k = choose|k: int| 0 <= k < t.len() && p == #[trigger] t[k].index as int;
                assert(t[k] == items[k + 1]);
            }
        }
        lemma_kept_agree(rest, acc.len() as int + 1, taken, yank_positions(t));
    } else if old.len() > 0 {
        let o = old.drop_first();
        let acc2 = acc.push(old[0]);
        lemma_merge_positions(items, o, acc2);
        assert(r == merge_by_index(items, o, acc2));
        assert(r.take(acc.len() as int) =~= acc2.take(acc.len() as int));
        assert(acc2.take(acc.len() as int) =~= acc);
        let rest = r.skip(acc2.len() as int);
        assert(r[acc.len() as int] == acc2[acc.len() as int]);
        assert(r.skip(acc.len() as int) =~= seq![old[0]] + rest);
        lemma_kept_cons(old[0], rest, acc.len() as int, taken);
        assert(!taken.contains(acc.len() as int)) by {
            if taken.contains(acc.len() as int) {
                let k = choose|k: int| 0 <= k < items.len() && acc.len() as int == #[trigger] items[k].index as int;
                if k > 0 {
                    assert(items[0].index < items[k].index);
                }
            }
        }
        assert(seq![old[0]] + o =~= old);
    } else {
        assert(r == acc);
        assert(r.take(acc.len() as int) =~= acc);
        assert(r.skip(acc.len() as int) =~= Seq::<T>::empty());
        let pred = |e: (int, T)| !taken.contains(e.0);
        reveal(Seq::filter);
        assert(Seq::new(0, |j: int| (acc.len() + j, r.skip(acc.len() as int)[j])) =~= Seq::<(int, T)>::empty());
        assert(kept_positions(r.skip(acc.len() as int), acc.len() as int, taken) =~= Seq::<T>::empty());
    }
}

/// A list with `items` put in, one after the other, starting at `start`, or
/// appended where there is no start.
pub open spec fn pasted<T>(old: Seq<T>, items: Seq<T>, start: Option<usize>) -> Seq<T> {
    match start {
        Some(j) => old.take(j as int) + items + old.skip(j as int),
        None => old + items,
    }
}

/// Whether a paste at `start` moves a selection at `sel` down.
pub open spec fn paste_moves(sel: usize, start: Option<usize>) -> bool {
    match start {
        Some(j) => sel >= j,
        None => false,
    }
}

/// Puts the items of `items` into `list` one after the other starting at
/// `start` (appended where there is none). Where the paste lands at or before
/// the selection, the selection moves down once per item, within the
/// `num_items` entries that the owner had before.
pub fn paste_into<T: Copy>(
    list: &mut Vec<T>,
    sel: &mut SelectedIndex,
    num_items: usize,
    items: &Vec<Yank<T>>,
    start: Option<usize>,
)
    requires
        start matches Some(j) ==> j <= old(list)@.len(),
    ensures
        final(list)@ == pasted(old(list)@, yanked_items(items@), start),
        final(sel)@ == if paste_moves(old(sel)@, start) {
            stepped_down_n(old(sel)@, items@.len(), num_items)
        } else {
            old(sel)@
        },
{
    let n = items.len();
    if let Some(j) = start {
        if sel.selected_index() >= j {
            selection_increment_n(sel, n, num_items);
        }
    }
    let len = list.len();
    let ghost old_list = list@;
    let mut i: usize = 0;
    while i < n
        invariant
            n == items@.len(),
            i <= n,
            len == old_list.len(),
            start matches Some(j) ==> j <= len,
            list@ == pasted(old_list, yanked_items(items@.take(i as int)), start),
        decreases n - i,
    {
        let y = items[i];
        let ghost before = list@;
        proof {
            assert(yanked_items(items@.take(i as int + 1)) =~= yanked_items(items@.take(i as int)).push(y.item));
        }
        match start {
            Some(j) => {
                let cur = list.len();
                assert(cur == len + i);
                list.insert(j + i, y.item);
                assert(list@ =~= pasted(old_list, yanked_items(items@.take(i as int + 1)), start));
            },
            None => {
                list.push(y.item);
                assert(list@ =~= pasted(old_list, yanked_items(items@.take(i as int + 1)), start));
            },
        }
        i = i + 1;
    }
    proof {
        assert(items@.take(n as int) =~= items@);
    }
}

proof fn lemma_merge_step<T>(items: Seq<Yank<T>>, old: Seq<T>, p: int, q: int)
    requires
        0 <= p <= items.len(),
        0 <= q <= old.len(),
    ensures
        p < items.len() ==> items.skip(p)[0] == items[p] && items.skip(p).drop_first() =~= items.skip(p + 1),
        q < old.len() ==> old.skip(q)[0] == old[q] && old.skip(q).drop_first() =~= old.skip(q + 1),
        items.skip(p).len() == items.len() - p,
        old.skip(q).len() == old.len() - q,
{
}

/// Puts yanks back into `list` so that each lands at its index where it can
/// (ordered by index, merged with the entries there), and moves the selection
/// down once per yank that lands at or before it.
pub fn insert_into<T: Copy>(list: &mut Vec<T>, sel: &mut SelectedIndex, items: &Vec<Yank<T>>)
    ensures
        final(list)@ == merge_by_index(sort_by_index(items@), old(list)@, Seq::empty()),
        final(sel)@ == stepped_down_n(
            old(sel)@,
            shift_count(sort_by_index(items@), old(sel)@ as int, 0),
            final(list)@.len() as usize,
        ),
{
    let selected = sel.selected_index();
    let counter = insert_merge(list, items, selected);
    let len = list.len();
    selection_increment_n(sel, counter, len);
}

/// The merge of `insert_into`; returns how many yanks land at or before the
/// position `base` (moving down with each of them).
pub fn insert_merge<T: Copy>(list: &mut Vec<T>, items: &Vec<Yank<T>>, base: usize) -> (counter: usize)
    ensures
        final(list)@ == merge_by_index(sort_by_index(items@), old(list)@, Seq::empty()),
        counter == shift_count(sort_by_index(items@), base as int, 0),
{
    let sorted = sort_yanks(items);
    let mut old_items: Vec<T> = Vec::new();
    std::mem::swap(&mut old_items, list);
    let ghost target = merge_by_index(sorted@, old_items@, Seq::empty());
    proof {
        assert(sorted@.skip(0) =~= sorted@);
        assert(old_items@.skip(0) =~= old_items@);
        assert(list@ =~= Seq::<T>::empty());
    }
    let mut p: usize = 0;
    let mut q: usize = 0;
    let mut counter: usize = 0;
    while p < sorted.len() || q < old_items.len()
        invariant
            p <= sorted@.len(),
            q <= old_items@.len(),
            counter <= p,
            merge_by_index(sorted@.skip(p as int), old_items@.skip(q as int), list@) == target,
            shift_count(sorted@.skip(p as int), base as int, counter as nat)
                == shift_count(sorted@, base as int, 0),
        decreases (sorted@.len() - p) + (old_items@.len() - q),
    {
        proof {
            lemma_merge_step(sorted@, old_items@, p as int, q as int);
        }
        if p < sorted.len() && (list.len() == sorted[p].index || q >= old_items.len()) {
            let y = sorted[p];
            list.push(y.item);
            let lands = if y.index >= counter { y.index - counter <= base } else { true };
            if lands {
                counter = counter + 1;
            }
            p = p + 1;
        } else {
            list.push(old_items[q]);
            q = q + 1;
        }
    }
    proof {
        assert(sorted@.skip(p as int) =~= Seq::<Yank<T>>::empty());
        assert(old_items@.skip(q as int) =~= Seq::<T>::empty());
        assert(sorted@.skip(0) =~= sorted@);
    }
    counter
}

/// Takes out of `list` each entry that a yank names with its item and
/// position, and moves the selection up once per taken entry at or before it.
/// Panics where a yank names no such entry.
pub fn remove_from<T: YankItem>(list: &mut Vec<T>, sel: &mut SelectedIndex, items: &Vec<Yank<T>>)
    requires
        remove_walk(sort_by_index(items@), old(list)@, 0, old(sel)@ as int).1.len() == 0,
    ensures
        final(list)@ == remove_walk(sort_by_index(items@), old(list)@, 0, old(sel)@ as int).0,
        final(sel)@ == stepped_up_n(
            old(sel)@,
            remove_walk(sort_by_index(items@), old(list)@, 0, old(sel)@ as int).2,
        ),
{
    let selected = sel.selected_index();
    let counter = remove_walk_exec(list, items, selected);
    selection_decrement_n(sel, counter);
}

/// The walk of `remove_from`; returns how many taken entries stood at or
/// before position `base`.
pub fn remove_walk_exec<T: YankItem>(list: &mut Vec<T>, items: &Vec<Yank<T>>, base: usize) -> (counter: usize)
    requires
        remove_walk(sort_by_index(items@), old(list)@, 0, base as int).1.len() == 0,
    ensures
        final(list)@ == remove_walk(sort_by_index(items@), old(list)@, 0, base as int).0,
        counter == remove_walk(sort_by_index(items@), old(list)@, 0, base as int).2,
{
    let sorted = sort_yanks(items);
    let mut old_items: Vec<T> = Vec::new();
    std::mem::swap(&mut old_items, list);
    let ghost whole = remove_walk(sorted@, old_items@, 0, base as int);
    let n = old_items.len();
    proof {
        assert(sorted@.skip(0) =~= sorted@);
        assert(old_items@.skip(0) =~= old_items@);
        assert(list@ =~= Seq::<T>::empty());
        assert(Seq::<T>::empty() + whole.0 =~= whole.0);
    }
    let mut p: usize = 0;
    let mut i: usize = 0;
    let mut counter: usize = 0;
    while i < n
        invariant
            n == old_items@.len(),
            i <= n,
            p <= sorted@.len(),
            counter <= i,
            ({
                let r = remove_walk(sorted@.skip(p as int), old_items@.skip(i as int), i as int, base as int);
                &&& list@ + r.0 == whole.0
                &&& r.1 == whole.1
                &&& counter + r.2 == whole.2
            }),
        decreases n - i,
    {
        proof {
            lemma_merge_step(sorted@, old_items@, p as int, i as int);
        }
        let x = old_items[i];
        if p < sorted.len() && sorted[p].item.same(&x) && sorted[p].index == i {
            p = p + 1;
            if i <= base {
                counter = counter + 1;
            }
        } else {
            let ghost before = list@;
            list.push(x);
            proof {
                let r = remove_walk(sorted@.skip(p as int), old_items@.skip(i as int + 1), i + 1, base as int);
                assert(before + (seq![x] + r.0) =~= list@ + r.0);
            }
        }
        i = i + 1;
    }
    proof {
        assert(old_items@.skip(n as int) =~= Seq::<T>::empty());
        assert(sorted@.skip(0) =~= sorted@);
        assert(old_items@.skip(0) =~= old_items@);
        assert(list@ + Seq::<T>::empty() =~= list@);
        let r = remove_walk(sorted@.skip(p as int), old_items@.skip(n as int), n as int, base as int);
        assert(r.1 == sorted@.skip(p as int));
        if p < sorted@.len() {
            assert(whole.1.len() > 0);
        }
    }
    counter
}


/// How many yanks land at or before position `base` (moving down with each of
/// them) when they are put back into a list.
pub fn count_shift<T: Copy>(items: &Vec<Yank<T>>, base: usize) -> (counter: usize)
    ensures
        counter == shift_count(sort_by_index(items@), base as int, 0),
{
    let sorted = sort_yanks(items);
    let mut p: usize = 0;
    let mut counter: usize = 0;
    proof {
        assert(sorted@.skip(0) =~= sorted@);
    }
    while p < sorted.len()
        invariant
            p <= sorted@.len(),
            counter <= p,
            shift_count(sorted@.skip(p as int), base as int, counter as nat)
                == shift_count(sorted@, base as int, 0),
        decreases sorted@.len() - p,
    {
        proof {
            assert(sorted@.skip(p as int)[0] == sorted@[p as int]);
            assert(sorted@.skip(p as int).drop_first() =~= sorted@.skip(p as int + 1));
        }
        let y = sorted[p];
        let lands = if y.index >= counter { y.index - counter <= base } else { true };
        if lands {
            counter = counter + 1;
        }
        p = p + 1;
    }
    proof {
        assert(sorted@.skip(p as int) =~= Seq::<Yank<T>>::empty());
    }
    counter
}

/// How many of the entries that the yanks name stand at or before position
/// `base`, in the walk of `remove_from`.
pub fn count_removed<T: YankItem>(list: &Vec<T>, items: &Vec<Yank<T>>, base: usize) -> (counter: usize)
    ensures
        counter == remove_walk(sort_by_index(items@), list@, 0, base as int).2,
{
    let sorted = sort_yanks(items);
    let ghost whole = remove_walk(sorted@, list@, 0, base as int);
    let n = list.len();
    let mut p: usize = 0;
    let mut i: usize = 0;
    let mut counter: usize = 0;
    proof {
        assert(sorted@.skip(0) =~= sorted@);
        assert(list@.skip(0) =~= list@);
    }
    while i < n
        invariant
            n == list@.len(),
            i <= n,
            p <= sorted@.len(),
            counter <= i,
            counter + remove_walk(sorted@.skip(p as int), list@.skip(i as int), i as int, base as int).2
                == whole.2,
        decreases n - i,
    {
        proof {
            lemma_merge_step(sorted@, list@, p as int, i as int);
        }
        if p < sorted.len() && sorted[p].item.same(&list[i]) && sorted[p].index == i {
            p = p + 1;
            if i <= base {
                counter = counter + 1;
            }
        }
        i = i + 1;
    }
    proof {
        assert(list@.skip(n as int) =~= Seq::<T>::empty());
    }
    counter
}

/// Whether every yank names an entry of `list` (item and position) in
/// turn, so that taking them out leaves none behind.
pub fn all_found<T: YankItem>(list: &Vec<T>, items: &Vec<Yank<T>>, base: usize) -> (r: bool)
    ensures
        r == (remove_walk(sort_by_index(items@), list@, 0, base as int).1.len() == 0),
{
    let sorted = sort_yanks(items);
    let ghost whole = remove_walk(sorted@, list@, 0, base as int);
    let n = list.len();
    let mut p: usize = 0;
    let mut i: usize = 0;
    proof {
        assert(sorted@.skip(0) =~= sorted@);
        assert(list@.skip(0) =~= list@);
    }
    while i < n
        invariant
            n == list@.len(),
            i <= n,
            p <= sorted@.len(),
            remove_walk(sorted@.skip(p as int), list@.skip(i as int), i as int, base as int).1 == whole.1,
        decreases n - i,
    {
        proof {
            lemma_merge_step(sorted@, list@, p as int, i as int);
        }
        if p < sorted.len() && sorted[p].item.same(&list[i]) && sorted[p].index == i {
            p = p + 1;
        }
        i = i + 1;
    }
    proof {
        assert(list@.skip(n as int) =~= Seq::<T>::empty());
        lemma_merge_step(sorted@, list@, p as int, n as int);
    }
    p == sorted.len()
}

/// A merge puts out every entry of the list and every yank.
pub proof fn lemma_merge_len<T>(items: Seq<Yank<T>>, old: Seq<T>, acc: Seq<T>)
    ensures
        merge_by_index(items, old, acc).len() == acc.len() + items.len() + old.len(),
    decreases items.len() + old.len(),
{
    if items.len() > 0 && (acc.len() == items[0].index || old.len() == 0) {
        lemma_merge_len(items.drop_first(), old, acc.push(items[0].item));
    } else if old.len() > 0 {
        lemma_merge_len(items, old.drop_first(), acc.push(old[0]));
    }
}

/// Sorting keeps the number of yanks.
pub proof fn lemma_sort_len<T>(s: Seq<Yank<T>>)
    ensures
        sort_by_index(s).len() == s.len(),
    decreases s.len(),
{
    if s.len() > 0 {
        lemma_sort_len(s.drop_last());
        lemma_insert_len(sort_by_index(s.drop_last()), s.last());
    }
}

proof fn lemma_insert_len<T>(s: Seq<Yank<T>>, y: Yank<T>)
    ensures
        insert_by_index(s, y).len() == s.len() + 1,
    decreases s.len(),
{
    if s.len() > 0 && s.last().index > y.index {
        lemma_insert_len(s.drop_last(), y);
    }
}

/// The yanks that a paste records: each item with the position it is put at,
/// counting from `start` or, where there is none, from the end of a list of
/// `num_items` entries.
pub fn paste_positions<T: Copy>(items: &Vec<Yank<T>>, start: Option<usize>, num_items: usize) -> (r: Vec<Yank<T>>)
    requires
        match start {
            Some(j) => j + items@.len() <= usize::MAX,
            None => num_items + items@.len() <= usize::MAX,
        },
    ensures
        r@ == paste_yanks(yanked_items(items@), start, num_items as nat),
{
    let n = items.len();
    let mut r: Vec<Yank<T>> = Vec::new();
    let mut i: usize = 0;
    while i < n
        invariant
            n == items@.len(),
            i <= n,
            match start {
                Some(j) => j + n <= usize::MAX,
                None => num_items + n <= usize::MAX,
            },
            r@ =~= paste_yanks(yanked_items(items@), start, num_items as nat).take(i as int),
        decreases n - i,
    {
        let index = match start {
            Some(j) => j + i,
            None => num_items + i,
        };
        r.push(Yank { item: items[i].item, index });
        proof {
            assert(r@ =~= paste_yanks(yanked_items(items@), start, num_items as nat).take(i as int + 1));
        }
        i = i + 1;
    }
    r
}

/// Position of the first entry of `s` equal to `x`.
pub open spec fn is_first_at<T>(s: Seq<T>, x: T, k: int) -> bool {
    &&& 0 <= k < s.len()
    &&& s[k] == x
    &&& forall|j: int| 0 <= j < k ==> s[j] != x
}

/// Position of the first entry of `s` equal to `x`, if any.
pub open spec fn first_at<T>(s: Seq<T>, x: T) -> Option<int> {
    if s.contains(x) {
        Some(choose|k: int| is_first_at(s, x, k))
    } else {
        None
    }
}

proof fn lemma_first_at_exists<T>(s: Seq<T>, x: T, w: int)
    requires
        0 <= w < s.len(),
        s[w] == x,
    ensures
        exists|k: int| is_first_at(s, x, k),
    decreases w,
{
    if exists|j: int| 0 <= j < w && s[j] == x {
        let j = choose|j: int| 0 <= j < w && s[j] == x;
        lemma_first_at_exists(s, x, j);
    } else {
        assert(is_first_at(s, x, w));
    }
}

pub proof fn lemma_first_at<T>(s: Seq<T>, x: T)
    ensures
        match first_at(s, x) {
            Some(k) => is_first_at(s, x, k),
            None => !s.contains(x),
        },
        forall|k: int| is_first_at(s, x, k) ==> first_at(s, x) == Some(k),
{
    if s.contains(x) {
        let w = choose|w: int| 0 <= w < s.len() && s[w] == x;
        lemma_first_at_exists(s, x, w);
        let c = choose|k: int| is_first_at(s, x, k);
        assert forall|k: int| is_first_at(s, x, k) implies c == k by {
            if c < k {
                assert(s[c] != x);
            } else if k < c {
                assert(s[k] != x);
            }
        }
    }
}

/// Where `x` first stands in `list`.
pub fn position_of<T: YankItem>(list: &Vec<T>, x: T) -> (r: Option<usize>)
    ensures
        match r {
            Some(k) => first_at(list@, x) == Some(k as int),
            None => first_at(list@, x) is None,
        },
{
    proof {
        lemma_first_at(list@, x);
    }
    let mut k: usize = 0;
    while k < list.len()
        invariant
            k <= list@.len(),
            forall|j: int| 0 <= j < k ==> list@[j] != x,
        decreases list@.len() - k,
    {
        if list[k].same(&x) {
            assert(is_first_at(list@, x, k as int));
            return Some(k);
        }
        k = k + 1;
    }
    None
}

/// Takes the first occurrence of `x` out of `list`, whose entries are shown
/// after `offset` others; the selection moves up when it stood at or after it.
pub fn remove_first<T: YankItem>(list: &mut Vec<T>, sel: &mut SelectedIndex, x: T, offset: usize) -> (r: Option<T>)
    ensures
        match first_at(old(list)@, x) {
            Some(k) => {
                &&& r == Some(x)
                &&& final(list)@ == old(list)@.remove(k)
                &&& final(sel)@ == if offset + k <= old(sel)@ {
                    stepped_up(old(sel)@)
                } else {
                    old(sel)@
                }
            },
            None => {
                &&& r is None
                &&& final(list)@ == old(list)@
                &&& final(sel)@ == old(sel)@
            },
        },
{
    match position_of(list, x) {
        Some(k) => {
            let item_index = if offset <= usize::MAX - k { offset + k } else { usize::MAX };
            let at_or_before = if offset <= usize::MAX - k { item_index <= sel.selected_index() } else { false };
            if at_or_before {
                selection_decrement(sel);
            }
            proof {
                lemma_first_at(old(list)@, x);
                if offset + k > usize::MAX {
                    assert(!(offset + k <= old(sel)@));
                }
            }
            Some(list.remove(k))
        },
        None => None,
    }
}

/// Yanks whose indices strictly increase.
pub open spec fn strictly_ordered<T>(s: Seq<Yank<T>>) -> bool {
    forall|a: int, b: int| 0 <= a < b < s.len() ==> s[a].index < s[b].index
}

/// Yanks that name, in `list` shifted by `k`, the entries that hold their items.
pub open spec fn names_entries<T>(s: Seq<Yank<T>>, list: Seq<T>, k: int) -> bool {
    forall|t: int| 0 <= t < s.len() ==> {
        &&& k <= #[trigger] s[t].index < k + list.len()
        &&& list[s[t].index - k] == s[t].item
    }
}

proof fn lemma_sorted_is_fixed<T>(s: Seq<Yank<T>>)
    requires
        strictly_ordered(s),
    ensures
        sort_by_index(s) == s,
    decreases s.len(),
{
    if s.len() > 0 {
        let d = s.drop_last();
        assert(strictly_ordered(d));
        lemma_sorted_is_fixed(d);
        assert(d.push(s.last()) =~= s);
    }
}

proof fn lemma_remove_then_merge<T>(items: Seq<Yank<T>>, list: Seq<T>, k: int, acc: Seq<T>, sel: int)
    requires
        strictly_ordered(items),
        names_entries(items, list, k),
        acc.len() == k,
    ensures
        remove_walk(items, list, k, sel).1.len() == 0,
        merge_by_index(items, remove_walk(items, list, k, sel).0, acc) == acc + list,
    decreases list.len(),
{
    let r = remove_walk(items, list, k, sel);
    if list.len() == 0 {
        if items.len() > 0 {
            assert(k <= items[0].index < k + list.len());
        }
        assert(acc + list =~= acc);
    } else if items.len() > 0 && items[0].index == k {
        let rest = items.drop_first();
        assert(list[0] == items[0].item);
        assert(strictly_ordered(rest));
        assert forall|t: int| 0 <= t < rest.len() implies {
            &&& k + 1 <= #[trigger] rest[t].index < k + 1 + list.drop_first().len()
            &&& list.drop_first()[rest[t].index - (k + 1)] == rest[t].item
        } by {
            assert(rest[t] == items[t + 1]);
            assert(items[0].index < items[t + 1].index);
        }
        lemma_remove_then_merge(rest, list.drop_first(), k + 1, acc.push(items[0].item), sel);
        assert(acc.push(items[0].item) + list.drop_first() =~= acc + list);
    } else {
        if items.len() > 0 {
            assert(items[0].index > k);
        }
        assert forall|t: int| 0 <= t < items.len() implies {
            &&& k + 1 <= #[trigger] items[t].index < k + 1 + list.drop_first().len()
            &&& list.drop_first()[items[t].index - (k + 1)] == items[t].item
        } by {
            if t > 0 {
                assert(items[0].index < items[t].index);
            }
        }
        lemma_remove_then_merge(items, list.drop_first(), k + 1, acc.push(list[0]), sel);
        let r1 = remove_walk(items, list.drop_first(), k + 1, sel);
        assert(r.0 == seq![list[0]] + r1.0);
        assert((seq![list[0]] + r1.0).drop_first() =~= r1.0);
        assert(acc.push(list[0]) + list.drop_first() =~= acc + list);
    }
}

/// Undoing a cut: yanks taken out of a list (ordered, each naming the entry
/// that holds its item) and put back give the list back, and no yank is
/// left unfound by the removal.
pub proof fn lemma_insert_undoes_remove<T>(items: Seq<Yank<T>>, list: Seq<T>, sel: int)
    requires
        strictly_ordered(items),
        names_entries(items, list, 0),
    ensures
        remove_walk(sort_by_index(items), list, 0, sel).1.len() == 0,
        merge_by_index(sort_by_index(items), remove_walk(sort_by_index(items), list, 0, sel).0, Seq::empty())
            == list,
{
    lemma_sorted_is_fixed(items);
    lemma_remove_then_merge(items, list, 0, Seq::empty(), sel);
    assert(Seq::<T>::empty() + list =~= list);
}

/// The yanks that a paste of `items` at `start` into a list of `len` entries
/// records: each item with the position it was put at.
pub open spec fn paste_yanks<T>(items: Seq<T>, start: Option<usize>, len: nat) -> Seq<Yank<T>> {
    Seq::new(
        items.len(),
        |i: int| Yank { item: items[i], index: (match start { Some(j) => j as int, None => len as int } + i) as usize },
    )
}

proof fn lemma_walk_untouched<T>(items: Seq<Yank<T>>, a: Seq<T>, b: Seq<T>, k: int, sel: int)
    requires
        items.len() > 0 ==> items[0].index >= k + a.len(),
    ensures
        remove_walk(items, a + b, k, sel).0 == a + remove_walk(items, b, k + a.len(), sel).0,
        remove_walk(items, a + b, k, sel).1 == remove_walk(items, b, k + a.len(), sel).1,
    decreases a.len(),
{
    if a.len() > 0 {
        assert((a + b).drop_first() =~= a.drop_first() + b);
        assert((a + b)[0] == a[0]);
        lemma_walk_untouched(items, a.drop_first(), b, k + 1, sel);
        assert(seq![a[0]] + (a.drop_first() + remove_walk(items, b, k + 1 + a.drop_first().len(), sel).0)
            =~= a + remove_walk(items, b, k + a.len(), sel).0);
    } else {
        assert(a + b =~= b);
        assert(a + remove_walk(items, b, k, sel).0 =~= remove_walk(items, b, k, sel).0);
    }
}

proof fn lemma_walk_run<T>(items: Seq<Yank<T>>, b: Seq<T>, k: int, sel: int)
    requires
        items.len() <= b.len(),
        forall|t: int| 0 <= t < items.len() ==> #[trigger] items[t].index == k + t && items[t].item == b[t],
    ensures
        remove_walk(items, b, k, sel).0 == b.skip(items.len() as int),
        remove_walk(items, b, k, sel).1.len() == 0,
    decreases b.len(),
{
    if items.len() == 0 {
        assert(b + Seq::<T>::empty() =~= b);
        lemma_walk_untouched(items, b, Seq::empty(), k, sel);
        assert(b.skip(0) =~= b);
    } else {
        assert(items[0].index == k + 0 && items[0].item == b[0]);
        let rest = items.drop_first();
        assert forall|t: int| 0 <= t < rest.len() implies #[trigger] rest[t].index == (k + 1) + t
            && rest[t].item == b.drop_first()[t] by {
            assert(rest[t] == items[t + 1]);
        }
        lemma_walk_run(rest, b.drop_first(), k + 1, sel);
        assert(b.drop_first().skip(rest.len() as int) =~= b.skip(items.len() as int));
    }
}

/// Undoing a paste: taking out the yanks that a paste recorded gives the list
/// back, and finds every one of them.
pub proof fn lemma_remove_undoes_paste<T>(list: Seq<T>, items: Seq<T>, start: Option<usize>, sel: int)
    requires
        start matches Some(j) ==> j <= list.len(),
        list.len() + items.len() <= usize::MAX,
    ensures
        remove_walk(
            sort_by_index(paste_yanks(items, start, list.len())),
            pasted(list, items, start),
            0,
            sel,
        ).1.len() == 0,
        remove_walk(
            sort_by_index(paste_yanks(items, start, list.len())),
            pasted(list, items, start),
            0,
            sel,
        ).0 == list,
{
    let ys = paste_yanks(items, start, list.len());
    let j: int = match start { Some(j) => j as int, None => list.len() as int };
    assert forall|t: int| 0 <= t < ys.len() implies #[trigger] ys[t].index == j + t by {
        assert(j + t <= usize::MAX);
    }
    lemma_sorted_is_fixed(ys);
    let a = list.take(j);
    let b = items + list.skip(j);
    assert(pasted(list, items, start) =~= a + b);
    lemma_walk_untouched(ys, a, b, 0, sel);
    lemma_walk_run(ys, b, j, sel);
    assert(b.skip(items.len() as int) =~= list.skip(j));
    assert(a + list.skip(j) =~= list);
}

/// Content that can be described to a reader.
pub trait HumanReadable {}

/// Providers that songs can be pasted into.
pub trait SongYankDest {}

/// Providers that providers can be pasted into.
pub trait CPYankDest {}


/// A copy of a list of ids.
pub fn copy_list<T: Copy>(v: &Vec<T>) -> (r: Vec<T>)
    ensures
        r@ == v@,
{
    let mut r: Vec<T> = Vec::new();
    let mut k: usize = 0;
    while k < v.len()
        invariant
            k <= v@.len(),
            r@ == v@.take(k as int),
        decreases v@.len() - k,
    {
        r.push(v[k]);
        proof {
            assert(v@.take(k as int + 1) =~= v@.take(k as int).push(v@[k as int]));
        }
        k = k + 1;
    }
    proof {
        assert(v@.take(v@.len() as int) =~= v@);
    }
    r
}
} // verus!
