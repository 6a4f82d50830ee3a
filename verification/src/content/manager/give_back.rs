use vstd::prelude::*;

use crate::content::manager::manager::{dropped_value, RegisterError};
use crate::content::providers::ContentProvider;
use crate::content::register::{ContentKey, ContentProviderID, ContentRegister, SongID, ID};
use crate::content::song::Song;

verus! {

/// The two registers, and the ids still to give back (the next one last),
/// at one point of giving ids back.
pub struct Returning {
    pub songs: ContentRegister<Song, SongID>,
    pub providers: ContentRegister<ContentProvider, ContentProviderID>,
    pub pending: Seq<ID>,
}

/// How the ids a dropped provider listed wait to be given back, the next
/// one last: its songs come first, in order, then its providers, in order.
pub open spec fn children_of(cp: ContentProvider) -> Seq<ID> {
    let ps = cp.providers_of();
    let ss = cp.songs_of();
    Seq::new(ps.len(), |k: int| ID::ContentProvider(ps[ps.len() - 1 - k])) + Seq::new(
        ss.len(),
        |k: int| ID::Song(ss[ss.len() - 1 - k]),
    )
}

/// Why the next id cannot be given back, if it cannot: its slot holds
/// nothing, or no fresh generation is left for a drop.
pub open spec fn return_error(st: Returning) -> Option<RegisterError> {
    match st.pending.last() {
        ID::Song(s) => if !st.songs.is_live(s.key_index() as int) {
            Some(RegisterError::NotRegistered(ID::Song(s)))
        } else if st.songs.current_generation() == u64::MAX {
            Some(RegisterError::GenerationsExhausted)
        } else {
            None
        },
        ID::ContentProvider(p) => if !st.providers.is_live(p.key_index() as int) {
            Some(RegisterError::NotRegistered(ID::ContentProvider(p)))
        } else if st.providers.current_generation() == u64::MAX {
            Some(RegisterError::GenerationsExhausted)
        } else {
            None
        },
    }
}

/// One id given back: it is counted one fewer to its item; where it was the
/// last, the item is dropped and, for a provider, the ids it listed wait
/// next.
pub open spec fn return_step(a: Returning, b: Returning) -> bool {
    &&& a.pending.len() > 0
    &&& return_error(a) is None
    &&& match a.pending.last() {
        ID::Song(s) => {
            let i = s.key_index() as int;
            &&& ContentRegister::unregister_post(a.songs, b.songs, i, dropped_value(a.songs, i))
            &&& b.providers == a.providers
            &&& b.pending == a.pending.drop_last()
        },
        ID::ContentProvider(p) => {
            let i = p.key_index() as int;
            &&& ContentRegister::unregister_post(a.providers, b.providers, i, dropped_value(a.providers, i))
            &&& b.songs == a.songs
            &&& b.pending == a.pending.drop_last() + match dropped_value(a.providers, i) {
                Some(cp) => children_of(cp),
                None => Seq::empty(),
            }
        },
    }
}

/// `tr` goes from its first state to its last one id given back at a time.
pub open spec fn returns_along(tr: Seq<Returning>) -> bool {
    &&& tr.len() > 0
    &&& forall|k: int| 0 <= k < tr.len() - 1 ==> #[trigger] return_step(tr[k], tr[k + 1])
}

/// The last state of `tr` holds `songs` and `providers`, and the run ended
/// there: with nothing left to give back where `err` is `None`, else at an
/// id that gives `err`.
pub open spec fn ends_at(
    tr: Seq<Returning>,
    songs: ContentRegister<Song, SongID>,
    providers: ContentRegister<ContentProvider, ContentProviderID>,
    err: Option<RegisterError>,
) -> bool {
    &&& tr.last().songs == songs
    &&& tr.last().providers == providers
    &&& match err {
        None => tr.last().pending.len() == 0,
        Some(e) => tr.last().pending.len() > 0 && return_error(tr.last()) == Some(e),
    }
}

/// Giving back `pending` (the last id first, and what a dropped provider
/// listed before the ids under it) takes the registers `songs` and
/// `providers` to `songs2` and `providers2`: all given back where `err` is
/// `None`, else stopped at an id that cannot be, which gives `err`.
pub open spec fn gives_back(
    songs: ContentRegister<Song, SongID>,
    providers: ContentRegister<ContentProvider, ContentProviderID>,
    pending: Seq<ID>,
    songs2: ContentRegister<Song, SongID>,
    providers2: ContentRegister<ContentProvider, ContentProviderID>,
    err: Option<RegisterError>,
) -> bool {
    exists|tr: Seq<Returning>|
        #![trigger returns_along(tr)]
        returns_along(tr) && tr[0] == (Returning { songs, providers, pending }) && ends_at(tr, songs2, providers2, err)
}

/// The error a call that gives ids back answers, if any.
pub open spec fn failure(r: Result<(), RegisterError>) -> Option<RegisterError> {
    match r {
        Ok(_) => None,
        Err(e) => Some(e),
    }
}

/// A run that gave nothing back yet.
pub proof fn lemma_returns_start(s: Returning)
    ensures
        returns_along(seq![s]),
        seq![s][0] == s,
        seq![s].last() == s,
{
}

/// A run goes one step further.
pub proof fn lemma_returns_push(tr: Seq<Returning>, s: Returning)
    requires
        returns_along(tr),
        return_step(tr.last(), s),
    ensures
        returns_along(tr.push(s)),
        tr.push(s)[0] == tr[0],
        tr.push(s).last() == s,
{
    let t = tr.push(s);
    assert forall|k: int| 0 <= k < t.len() - 1 implies #[trigger] return_step(t[k], t[k + 1]) by {
        if k < tr.len() - 1 {
            assert(t[k] == tr[k] && t[k + 1] == tr[k + 1]);
            assert(return_step(tr[k], tr[k + 1]));
        } else {
            assert(t[k] == tr.last() && t[k + 1] == s);
        }
    }
}

/// The states of `tr` with `below` waiting under their ids.
pub open spec fn lifted(tr: Seq<Returning>, below: Seq<ID>) -> Seq<Returning> {
    Seq::new(
        tr.len(),
        |k: int| Returning { songs: tr[k].songs, providers: tr[k].providers, pending: below + tr[k].pending },
    )
}

/// Ids waiting under the ones given back change nothing of how these go.
pub proof fn lemma_lifted(tr: Seq<Returning>, below: Seq<ID>)
    requires
        returns_along(tr),
    ensures
        returns_along(lifted(tr, below)),
        lifted(tr, below)[0] == (Returning { songs: tr[0].songs, providers: tr[0].providers, pending: below + tr[0].pending }),
        lifted(tr, below).last() == (Returning {
            songs: tr.last().songs,
            providers: tr.last().providers,
            pending: below + tr.last().pending,
        }),
        tr.last().pending.len() > 0 ==> return_error(lifted(tr, below).last()) == return_error(tr.last()),
{
    let l = lifted(tr, below);
    assert forall|k: int| 0 <= k < l.len() - 1 implies #[trigger] return_step(l[k], l[k + 1]) by {
        let a = tr[k];
        let b = tr[k + 1];
        assert(return_step(a, b));
        let la = l[k];
        let lb = l[k + 1];
        assert(la.pending.last() == a.pending.last());
        assert(la.pending.drop_last() =~= below + a.pending.drop_last());
        match a.pending.last() {
            ID::Song(s) => {
                assert(lb.pending =~= la.pending.drop_last());
            },
            ID::ContentProvider(p) => {
                let extra = match dropped_value(a.providers, p.key_index() as int) {
                    Some(cp) => children_of(cp),
                    None => Seq::<ID>::empty(),
                };
                assert(b.pending == a.pending.drop_last() + extra);
                assert(lb.pending =~= la.pending.drop_last() + extra);
            },
        }
    }
    if tr.last().pending.len() > 0 {
        assert(l.last().pending.last() == tr.last().pending.last());
    }
}

/// Two runs, the second starting where the first ended, make one.
pub proof fn lemma_returns_concat(t1: Seq<Returning>, t2: Seq<Returning>)
    requires
        returns_along(t1),
        returns_along(t2),
        t1.last() == t2[0],
    ensures
        returns_along(t1 + t2.drop_first()),
        (t1 + t2.drop_first())[0] == t1[0],
        (t1 + t2.drop_first()).last() == t2.last(),
{
    let t = t1 + t2.drop_first();
    assert forall|k: int| 0 <= k < t.len() - 1 implies #[trigger] return_step(t[k], t[k + 1]) by {
        if k < t1.len() - 1 {
            assert(t[k] == t1[k] && t[k + 1] == t1[k + 1]);
            assert(return_step(t1[k], t1[k + 1]));
        } else {
            let j = k - (t1.len() - 1);
            assert(t[k] == t2[j]);
            assert(t[k + 1] == t2[j + 1]);
            assert(return_step(t2[j], t2[j + 1]));
        }
    }
    if t2.len() > 1 {
        assert(t.last() == t2.last());
    }
}

/// Giving back `x` to the end, then the ids `below` it, is giving back the
/// ids `below` with `x` on top of them: one id at a time or all at once
/// comes to the same.
pub proof fn lemma_gives_back_in_turn(
    songs0: ContentRegister<Song, SongID>,
    providers0: ContentRegister<ContentProvider, ContentProviderID>,
    x: ID,
    songs1: ContentRegister<Song, SongID>,
    providers1: ContentRegister<ContentProvider, ContentProviderID>,
    below: Seq<ID>,
    songs2: ContentRegister<Song, SongID>,
    providers2: ContentRegister<ContentProvider, ContentProviderID>,
    err: Option<RegisterError>,
)
    requires
        gives_back(songs0, providers0, seq![x], songs1, providers1, None),
        gives_back(songs1, providers1, below, songs2, providers2, err),
    ensures
        gives_back(songs0, providers0, below.push(x), songs2, providers2, err),
{
    let t1 = choose|t: Seq<Returning>| #[trigger] returns_along(t) && t[0] == (Returning {
        songs: songs0,
        providers: providers0,
        pending: seq![x],
    }) && ends_at(t, songs1, providers1, None);
    let t2 = choose|t: Seq<Returning>| #[trigger] returns_along(t) && t[0] == (Returning {
        songs: songs1,
        providers: providers1,
        pending: below,
    }) && ends_at(t, songs2, providers2, err);
    lemma_lifted(t1, below);
    let l = lifted(t1, below);
    assert(below + seq![x] =~= below.push(x));
    assert(below + t1.last().pending =~= below);
    lemma_returns_concat(l, t2);
    let t = l + t2.drop_first();
    assert(returns_along(t) && t[0] == (Returning { songs: songs0, providers: providers0, pending: below.push(x) }));
    assert(ends_at(t, songs2, providers2, err));
}

} // verus!
