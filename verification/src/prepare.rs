//! From scanned candidates to a list the selection engine can take over:
//! drop every entry without a positive scanned size, clear any stray
//! selection flag, and sort what is left descending by size. The engine
//! never re-sorts.

use vstd::prelude::*;
use vstd::multiset::Multiset;
use crate::entry::{
    entry_views, lemma_entry_views_push, lemma_entry_views_remove, size_of, CleanEntry, EntryView,
};

verus! {

/// An entry as the engine first sees it: as scanned, but unselected.
pub open spec fn sanitize(e: EntryView) -> EntryView {
    EntryView { selected: false, ..e }
}

/// The entries that survive the size filter — scanned to a positive size —
/// in list order, each unselected.
pub open spec fn live_entries(s: Seq<EntryView>) -> Seq<EntryView>
    decreases s.len(),
{
    if s.len() == 0 {
        Seq::empty()
    } else {
        live_entries(s.drop_last()) + if s.last().size is Some && size_of(s.last()) > 0 {
            seq![sanitize(s.last())]
        } else {
            Seq::empty()
        }
    }
}

/// Descending by size: no entry is followed by a larger one.
pub open spec fn sorted_desc(s: Seq<EntryView>) -> bool {
    forall|i: int, j: int|
        0 <= i < j < s.len() ==> size_of(#[trigger] s[i]) >= size_of(#[trigger] s[j])
}

/// Every surviving entry is scanned, positive, and unselected.
pub proof fn lemma_live_entries_shape(s: Seq<EntryView>)
    ensures
        forall|i: int|
            0 <= i < live_entries(s).len() ==> (#[trigger] live_entries(s)[i]).size is Some
                && size_of(live_entries(s)[i]) > 0 && !live_entries(s)[i].selected,
    decreases s.len(),
{
    if s.len() > 0 {
        lemma_live_entries_shape(s.drop_last());
    }
}

fn entry_size(e: &CleanEntry) -> (s: u64)
    ensures
        s == size_of(e@),
{
    match e.size {
        Some(s) => s,
        None => 0,
    }
}

/// Drop unsized and empty entries, clear selection flags, and sort the rest
/// descending by size: the same entries the filter leaves, in size order.
pub fn prepare_entries(entries: Vec<CleanEntry>) -> (r: Vec<CleanEntry>)
    ensures
        sorted_desc(entry_views(r@)),
        entry_views(r@).to_multiset() == live_entries(entry_views(entries@)).to_multiset(),
        forall|i: int|
            0 <= i < r@.len() ==> (#[trigger] entry_views(r@)[i]).size is Some && size_of(
                entry_views(r@)[i],
            ) > 0 && !entry_views(r@)[i].selected,
{
    broadcast use vstd::seq_lib::group_to_multiset_ensures;
    broadcast use vstd::multiset::group_multiset_axioms;

    let ghost target = live_entries(entry_views(entries@));
    let mut live: Vec<CleanEntry> = Vec::new();
    let n = entries.len();
    let mut i: usize = 0;
    while i < n
        invariant
            i <= n,
            n == entries@.len(),
            entry_views(live@) == live_entries(entry_views(entries@).take(i as int)),
        decreases n - i,
    {
        proof {
            assert(entry_views(entries@).take(i + 1).drop_last() =~= entry_views(entries@).take(
                i as int,
            ));
            assert(entry_views(entries@).take(i + 1).last() == entries@[i as int]@);
        }
        let keep = match entries[i].size {
            Some(s) => s > 0,
            None => false,
        };
        if keep {
            let ghost before = live@;
            live.push(
                CleanEntry {
                    path: entries[i].path.clone(),
                    description: entries[i].description.clone(),
                    score: entries[i].score,
                    size: entries[i].size,
                    selected: false,
                },
            );
            proof {
                lemma_entry_views_push(before, live@.last());
                assert(live@.last()@ == sanitize(entries@[i as int]@));
                assert(entry_views(live@) =~= live_entries(
                    entry_views(entries@).take(i + 1),
                ));
            }
        } else {
            proof {
                assert(entry_views(live@) =~= live_entries(
                    entry_views(entries@).take(i + 1),
                ));
            }
        }
        i += 1;
    }
    proof {
        assert(entry_views(entries@).take(n as int) =~= entry_views(entries@));
        lemma_live_entries_shape(entry_views(entries@));
        assert(forall|j: int|
            0 <= j < live@.len() ==> (#[trigger] entry_views(live@)[j]).size is Some && size_of(
                entry_views(live@)[j],
            ) > 0 && !entry_views(live@)[j].selected);
    }
    let mut out: Vec<CleanEntry> = Vec::new();
    while live.len() > 0
        invariant
            entry_views(out@).to_multiset().add(entry_views(live@).to_multiset())
                == target.to_multiset(),
            sorted_desc(entry_views(out@)),
            forall|a: int, b: int|
                0 <= a < out@.len() && 0 <= b < live@.len() ==> size_of(
                    #[trigger] entry_views(out@)[a],
                ) >= size_of(#[trigger] entry_views(live@)[b]),
            forall|j: int|
                0 <= j < out@.len() ==> (#[trigger] entry_views(out@)[j]).size is Some && size_of(
                    entry_views(out@)[j],
                ) > 0 && !entry_views(out@)[j].selected,
            forall|j: int|
                0 <= j < live@.len() ==> (#[trigger] entry_views(live@)[j]).size is Some && size_of(
                    entry_views(live@)[j],
                ) > 0 && !entry_views(live@)[j].selected,
        decreases live.len(),
    {
        let mut m: usize = 0;
        let mut t: usize = 1;
        while t < live.len()
            invariant
                live@.len() > 0,
                m < t,
                t <= live@.len(),
                forall|j: int|
                    0 <= j < t ==> size_of(entry_views(live@)[m as int]) >= size_of(
                        #[trigger] entry_views(live@)[j],
                    ),
            decreases live@.len() - t,
        {
            if entry_size(&live[t]) > entry_size(&live[m]) {
                m = t;
            }
            t += 1;
        }
        let ghost live_before = live@;
        let ghost out_before = out@;
        let e = live.remove(m);
        out.push(e);
        proof {
            lemma_entry_views_remove(live_before, m as int);
            lemma_entry_views_push(out_before, out@.last());
            let ev = entry_views(live_before)[m as int];
            assert(out@.last()@ == ev);
            assert(entry_views(live_before).contains(ev));
            assert(entry_views(out@) =~= entry_views(out_before).push(out@.last()@));
            vstd::seq_lib::to_multiset_build(entry_views(out_before), ev);
            assert(entry_views(live@) =~= entry_views(live_before).remove(m as int));
            vstd::seq_lib::to_multiset_remove(entry_views(live_before), m as int);
            vstd::seq_lib::to_multiset_contains(entry_views(live_before), ev);
            assert(entry_views(live_before).to_multiset().count(ev) > 0);
            assert(entry_views(out@).to_multiset().add(entry_views(live@).to_multiset())
                =~= target.to_multiset());
            assert forall|a: int, b: int|
                0 <= a < out@.len() && 0 <= b < live@.len() implies size_of(
                #[trigger] entry_views(out@)[a],
            ) >= size_of(#[trigger] entry_views(live@)[b]) by {
                assert(entry_views(live@)[b] == if b < m as int {
                    entry_views(live_before)[b]
                } else {
                    entry_views(live_before)[b + 1]
                });
                if a < out@.len() - 1 {
                    assert(entry_views(out@)[a] == entry_views(out_before)[a]);
                } else {
                    assert(entry_views(out@)[a] == ev);
                }
            }
        }
    }
    proof {
        assert(entry_views(live@).to_multiset() =~= Multiset::<EntryView>::empty());
        assert(entry_views(out@).to_multiset() =~= target.to_multiset());
    }
    out
}

} // verus!
