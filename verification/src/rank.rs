//! Ordering and partitioning of score entries.
//!
//! A listing for a scoreboard is the entries of that scoreboard alone,
//! ordered by points, highest first; entries with equal points keep their
//! storage order (stable sort). `sort_desc` is the mathematical statement of
//! that order: a stable insertion sort, written as a spec function, and the
//! executable functions are proved to return exactly it.

use vstd::prelude::*;
use crate::entry::ScoreEntry;

verus! {

/// Whether an entry belongs to the given scoreboard.
pub open spec fn matches_board(e: ScoreEntry, scoreboard_id: u32) -> bool {
    e.scoreboard_id == scoreboard_id
}

/// Points never increase along the sequence: every pair of positions, not
/// only adjacent ones, is ordered.
pub open spec fn sorted_desc(s: Seq<ScoreEntry>) -> bool {
    forall|i: int, j: int|
        0 <= i <= j < s.len() ==> #[trigger] s[i].points >= #[trigger] s[j].points
}

/// Where a new entry lands among already-ranked entries: after every entry
/// with at least as many points (so ties keep their storage order), before
/// the rest.
pub open spec fn insert_desc(e: ScoreEntry, s: Seq<ScoreEntry>) -> Seq<ScoreEntry>
    decreases s.len(),
{
    if s.len() == 0 {
        seq![e]
    } else if s.last().points >= e.points {
        s.push(e)
    } else {
        insert_desc(e, s.drop_last()).push(s.last())
    }
}

/// The ranked order of a sequence of entries: a stable insertion sort by
/// points, descending.
pub open spec fn sort_desc(s: Seq<ScoreEntry>) -> Seq<ScoreEntry>
    decreases s.len(),
{
    if s.len() == 0 {
        Seq::empty()
    } else {
        insert_desc(s.last(), sort_desc(s.drop_last()))
    }
}

/// The entries of one scoreboard, in storage order.
pub open spec fn board_filter(s: Seq<ScoreEntry>, scoreboard_id: u32) -> Seq<ScoreEntry> {
    s.filter(|e: ScoreEntry| matches_board(e, scoreboard_id))
}

/// What a listing returns: the entries of the scoreboard, ranked.
pub open spec fn ranked(s: Seq<ScoreEntry>, scoreboard_id: u32) -> Seq<ScoreEntry> {
    sort_desc(board_filter(s, scoreboard_id))
}

/// Inserting an entry adds exactly that entry to the contents.
pub proof fn lemma_insert_desc_multiset(e: ScoreEntry, s: Seq<ScoreEntry>)
    ensures
        insert_desc(e, s).to_multiset() == s.to_multiset().insert(e),
    decreases s.len(),
{
    broadcast use vstd::seq_lib::group_to_multiset_ensures;
    broadcast use vstd::multiset::group_multiset_axioms;

    if s.len() == 0 {
        assert(seq![e] =~= s.push(e));
    } else if s.last().points >= e.points {
    } else {
        let dl = s.drop_last();
        lemma_insert_desc_multiset(e, dl);
        assert(s =~= dl.push(s.last()));
        assert(dl.to_multiset().insert(e).insert(s.last())
            =~= dl.to_multiset().insert(s.last()).insert(e));
    }
}

/// The members of an insertion are the old members and the new entry.
pub proof fn lemma_insert_desc_contains(e: ScoreEntry, s: Seq<ScoreEntry>, x: ScoreEntry)
    ensures
        insert_desc(e, s).contains(x) <==> (s.contains(x) || x == e),
{
    broadcast use vstd::seq_lib::group_to_multiset_ensures;
    broadcast use vstd::multiset::group_multiset_axioms;

    lemma_insert_desc_multiset(e, s);
    vstd::multiset::lemma_insert_containment(s.to_multiset(), e, x);
}

/// Insertion keeps the order.
pub proof fn lemma_insert_desc_sorted(e: ScoreEntry, s: Seq<ScoreEntry>)
    requires
        sorted_desc(s),
    ensures
        sorted_desc(insert_desc(e, s)),
    decreases s.len(),
{
    if s.len() == 0 {
    } else if s.last().points >= e.points {
        let t = s.push(e);
        assert forall|i: int, j: int|
            0 <= i <= j < t.len() implies t[i].points >= t[j].points by {
            if j < s.len() {
                assert(s[i].points >= s[j].points);
            } else if i < s.len() {
                assert(s[i].points >= s[s.len() - 1].points);
            }
        }
    } else {
        let dl = s.drop_last();
        assert(sorted_desc(dl)) by {
            assert forall|i: int, j: int|
                0 <= i <= j < dl.len() implies dl[i].points >= dl[j].points by {
                assert(s[i].points >= s[j].points);
            }
        };
        lemma_insert_desc_sorted(e, dl);
        let u = insert_desc(e, dl);
        let t = u.push(s.last());
        assert forall|i: int, j: int|
            0 <= i <= j < t.len() implies t[i].points >= t[j].points by {
            if j < u.len() {
                assert(u[i].points >= u[j].points);
            } else if i < u.len() {
                assert(u.contains(u[i]));
                lemma_insert_desc_contains(e, dl, u[i]);
                if u[i] == e {
                } else {
                    let k = choose|k: int| 0 <= k < dl.len() && dl[k] == u[i];
                    assert(s[k].points >= s[s.len() - 1].points);
                }
            }
        }
    }
}

/// The ranked order is sorted.
pub proof fn lemma_sort_desc_sorted(s: Seq<ScoreEntry>)
    ensures
        sorted_desc(sort_desc(s)),
    decreases s.len(),
{
    if s.len() == 0 {
    } else {
        lemma_sort_desc_sorted(s.drop_last());
        lemma_insert_desc_sorted(s.last(), sort_desc(s.drop_last()));
    }
}

/// Ranking rearranges the entries and does nothing else: the contents are
/// unchanged as a multiset.
pub proof fn lemma_sort_desc_multiset(s: Seq<ScoreEntry>)
    ensures
        sort_desc(s).to_multiset() == s.to_multiset(),
    decreases s.len(),
{
    broadcast use vstd::seq_lib::group_to_multiset_ensures;

    if s.len() == 0 {
        assert(sort_desc(s) =~= s);
    } else {
        let dl = s.drop_last();
        lemma_sort_desc_multiset(dl);
        lemma_insert_desc_multiset(s.last(), sort_desc(dl));
        assert(s =~= dl.push(s.last()));
    }
}

pub proof fn lemma_sort_desc_len(s: Seq<ScoreEntry>)
    ensures
        sort_desc(s).len() == s.len(),
{
    broadcast use vstd::seq_lib::group_to_multiset_ensures;

    lemma_sort_desc_multiset(s);
    assert(sort_desc(s).to_multiset().len() == sort_desc(s).len());
    assert(s.to_multiset().len() == s.len());
}

pub proof fn lemma_sort_desc_contains(s: Seq<ScoreEntry>, x: ScoreEntry)
    ensures
        sort_desc(s).contains(x) <==> s.contains(x),
{
    broadcast use vstd::seq_lib::group_to_multiset_ensures;

    lemma_sort_desc_multiset(s);
    assert(sort_desc(s).contains(x) <==> sort_desc(s).to_multiset().count(x) > 0);
    assert(s.contains(x) <==> s.to_multiset().count(x) > 0);
}

/// One filtering step: an appended element stays exactly when it satisfies
/// the predicate.
pub proof fn lemma_filter_push<A>(s: Seq<A>, e: A, pred: spec_fn(A) -> bool)
    ensures
        s.push(e).filter(pred) == (if pred(e) {
            s.filter(pred).push(e)
        } else {
            s.filter(pred)
        }),
{
    reveal(Seq::filter);
    let t = s.push(e);
    assert(t.drop_last() =~= s);
    assert(t.last() == e);
}

/// One filtering step: a newly appended entry stays exactly when it belongs
/// to the scoreboard.
pub proof fn lemma_board_filter_push(s: Seq<ScoreEntry>, e: ScoreEntry, scoreboard_id: u32)
    ensures
        board_filter(s.push(e), scoreboard_id) == (if matches_board(e, scoreboard_id) {
            board_filter(s, scoreboard_id).push(e)
        } else {
            board_filter(s, scoreboard_id)
        }),
{
    lemma_filter_push(s, e, |x: ScoreEntry| matches_board(x, scoreboard_id));
}

/// A scoreboard nothing was submitted to filters to nothing.
pub proof fn lemma_board_filter_none(s: Seq<ScoreEntry>, scoreboard_id: u32)
    requires
        forall|i: int| 0 <= i < s.len() ==> !matches_board(#[trigger] s[i], scoreboard_id),
    ensures
        board_filter(s, scoreboard_id) == Seq::<ScoreEntry>::empty(),
    decreases s.len(),
{
    reveal(Seq::filter);
    let p = (|x: ScoreEntry| matches_board(x, scoreboard_id));
    if s.len() == 0 {
        assert(s.filter(p) =~= Seq::<ScoreEntry>::empty());
    } else {
        let dl = s.drop_last();
        assert(forall|i: int| 0 <= i < dl.len() ==> !matches_board(#[trigger] dl[i], scoreboard_id));
        lemma_board_filter_none(dl, scoreboard_id);
        assert(!p(s.last()));
        assert(s.filter(p) == dl.filter(p));
    }
}

/// The entries with exactly the given points, in the order they stand.
pub open spec fn points_filter(s: Seq<ScoreEntry>, p: u32) -> Seq<ScoreEntry> {
    s.filter(|x: ScoreEntry| x.points == p)
}

/// Inserting keeps ties stable: among the entries with any fixed points
/// value, the new entry lands last and the rest keep their order.
pub proof fn lemma_insert_desc_stable(e: ScoreEntry, t: Seq<ScoreEntry>, p: u32)
    ensures
        points_filter(insert_desc(e, t), p) == (if e.points == p {
            points_filter(t, p).push(e)
        } else {
            points_filter(t, p)
        }),
    decreases t.len(),
{
    let q = (|x: ScoreEntry| x.points == p);
    if t.len() == 0 {
        assert(seq![e] =~= Seq::<ScoreEntry>::empty().push(e));
        lemma_filter_push(Seq::<ScoreEntry>::empty(), e, q);
        reveal(Seq::filter);
        assert(Seq::<ScoreEntry>::empty().filter(q) =~= Seq::<ScoreEntry>::empty());
    } else if t.last().points >= e.points {
        lemma_filter_push(t, e, q);
    } else {
        let dl = t.drop_last();
        lemma_insert_desc_stable(e, dl, p);
        lemma_filter_push(insert_desc(e, dl), t.last(), q);
        lemma_filter_push(dl, t.last(), q);
        assert(dl.push(t.last()) =~= t);
    }
}

/// The ranked order is a stable sort: for every points value, the entries
/// holding exactly those points appear in the ranked sequence in the same
/// order as in the input.
pub proof fn lemma_sort_desc_stable(s: Seq<ScoreEntry>, p: u32)
    ensures
        points_filter(sort_desc(s), p) == points_filter(s, p),
    decreases s.len(),
{
    let q = (|x: ScoreEntry| x.points == p);
    if s.len() == 0 {
        reveal(Seq::filter);
        assert(Seq::<ScoreEntry>::empty().filter(q) =~= Seq::<ScoreEntry>::empty());
    } else {
        let dl = s.drop_last();
        lemma_sort_desc_stable(dl, p);
        lemma_insert_desc_stable(s.last(), sort_desc(dl), p);
        lemma_filter_push(dl, s.last(), q);
        assert(dl.push(s.last()) =~= s);
    }
}

/// Pins the landing place: if everything from position `i` on has fewer
/// points than the new entry, and position `i - 1` (when there is one) does
/// not, the insertion is exactly an insert at `i`.
pub proof fn lemma_insert_desc_split(e: ScoreEntry, s: Seq<ScoreEntry>, i: int)
    requires
        0 <= i <= s.len(),
        forall|j: int| i <= j < s.len() ==> #[trigger] s[j].points < e.points,
        i > 0 ==> s[i - 1].points >= e.points,
    ensures
        insert_desc(e, s) == s.insert(i, e),
    decreases s.len(),
{
    if s.len() == 0 {
        assert(seq![e] =~= s.insert(0, e));
    } else if s.last().points >= e.points {
        assert(i == s.len());
        assert(s.push(e) =~= s.insert(i, e));
    } else {
        let dl = s.drop_last();
        assert(i < s.len());
        lemma_insert_desc_split(e, dl, i);
        assert(dl.insert(i, e).push(s.last()) =~= s.insert(i, e));
    }
}

/// Places one entry among already-ranked ones, keeping the ranked order:
/// the result is exactly the mathematical insertion.
pub fn insert_ranked(v: &mut Vec<ScoreEntry>, e: ScoreEntry)
    ensures
        final(v)@ == insert_desc(e, old(v)@),
{
    let mut i: usize = v.len();
    while i > 0 && v[i - 1].points < e.points
        invariant
            i <= v@.len(),
            v@ == old(v)@,
            forall|j: int| i <= j < v@.len() ==> #[trigger] v@[j].points < e.points,
        decreases i,
    {
        i = i - 1;
    }
    proof {
        lemma_insert_desc_split(e, v@, i as int);
    }
    v.insert(i, e);
}

/// Ranks a sequence of entries: the result is exactly `sort_desc` of the
/// input, so it is sorted by points descending and keeps ties in input order.
pub fn sort_entries_desc(entries: &Vec<ScoreEntry>) -> (r: Vec<ScoreEntry>)
    ensures
        r@ == sort_desc(entries@),
        sorted_desc(r@),
{
    let mut r: Vec<ScoreEntry> = Vec::new();
    proof {
        assert(entries@.take(0) =~= Seq::<ScoreEntry>::empty());
    }
    let mut k: usize = 0;
    while k < entries.len()
        invariant
            k <= entries@.len(),
            r@ == sort_desc(entries@.take(k as int)),
        decreases entries@.len() - k,
    {
        let e = entries[k].duplicate();
        insert_ranked(&mut r, e);
        proof {
            let taken = entries@.take(k as int + 1);
            assert(taken.drop_last() =~= entries@.take(k as int));
            assert(taken.last() == entries@[k as int]);
            assert(sort_desc(taken) == insert_desc(entries@[k as int], sort_desc(entries@.take(k as int))));
        }
        k = k + 1;
    }
    proof {
        assert(entries@.take(entries@.len() as int) =~= entries@);
        lemma_sort_desc_sorted(entries@);
    }
    r
}

} // verus!
