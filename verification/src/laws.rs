//! The laws of the scoreboard, stated over the store's view and the listing
//! order and proved from the same spec functions the contracts use. `rows`
//! is a store's contents, `ranked(rows, id)` what listing scoreboard `id`
//! returns.

use vstd::prelude::*;
use crate::entry::ScoreEntry;
use crate::rank::{
    board_filter, lemma_board_filter_none, lemma_board_filter_push, lemma_sort_desc_contains,
    lemma_sort_desc_len, lemma_sort_desc_multiset, lemma_sort_desc_sorted, lemma_sort_desc_stable,
    matches_board, points_filter, ranked, sorted_desc,
};

verus! {

/// After a valid submission, listing that entry's scoreboard contains the
/// submitted entry.
pub proof fn lemma_submitted_entry_listed(rows: Seq<ScoreEntry>, e: ScoreEntry)
    ensures
        ranked(rows.push(e), e.scoreboard_id).contains(e),
{
    lemma_board_filter_push(rows, e, e.scoreboard_id);
    let f = board_filter(rows, e.scoreboard_id).push(e);
    assert(f[f.len() - 1] == e);
    assert(f.contains(e));
    lemma_sort_desc_contains(f, e);
}

/// A listing is sorted by points descending: every pair of positions, hence
/// every adjacent pair, is ordered.
pub proof fn lemma_listing_sorted(rows: Seq<ScoreEntry>, scoreboard_id: u32)
    ensures
        sorted_desc(ranked(rows, scoreboard_id)),
{
    lemma_sort_desc_sorted(board_filter(rows, scoreboard_id));
}

/// A scoreboard nothing was submitted to lists as the empty sequence — in
/// particular, listing never fails for want of rows.
pub proof fn lemma_empty_scoreboard(rows: Seq<ScoreEntry>, scoreboard_id: u32)
    requires
        forall|i: int| 0 <= i < rows.len() ==> !matches_board(#[trigger] rows[i], scoreboard_id),
    ensures
        ranked(rows, scoreboard_id) == Seq::<ScoreEntry>::empty(),
{
    lemma_board_filter_none(rows, scoreboard_id);
}

/// Scoreboards are strictly partitioned: a submission to one scoreboard
/// leaves every other scoreboard's listing exactly as it was.
pub proof fn lemma_no_cross_contamination(rows: Seq<ScoreEntry>, e: ScoreEntry, other_id: u32)
    requires
        e.scoreboard_id != other_id,
    ensures
        ranked(rows.push(e), other_id) == ranked(rows, other_id),
{
    lemma_board_filter_push(rows, e, other_id);
}

/// The other face of partitioning: a listing holds only entries of the
/// requested scoreboard.
pub proof fn lemma_listing_only_matching(rows: Seq<ScoreEntry>, scoreboard_id: u32)
    ensures
        forall|i: int|
            0 <= i < ranked(rows, scoreboard_id).len() ==> (#[trigger] ranked(rows, scoreboard_id)[i]).scoreboard_id
                == scoreboard_id,
{
    broadcast use vstd::seq_lib::group_filter_ensures;

    let f = board_filter(rows, scoreboard_id);
    let r = ranked(rows, scoreboard_id);
    assert forall|i: int| 0 <= i < r.len() implies (#[trigger] r[i]).scoreboard_id == scoreboard_id by {
        assert(r.contains(r[i]));
        lemma_sort_desc_contains(f, r[i]);
        let k = choose|k: int| 0 <= k < f.len() && f[k] == r[i];
        assert(matches_board(f[k], scoreboard_id));
    }
}

/// The tie-break is storage order: among a listing's entries with any fixed
/// points value, the order is exactly the order the store holds them in —
/// that is, submission order.
pub proof fn lemma_ties_keep_storage_order(rows: Seq<ScoreEntry>, scoreboard_id: u32, p: u32)
    ensures
        points_filter(ranked(rows, scoreboard_id), p) == points_filter(
            board_filter(rows, scoreboard_id),
            p,
        ),
{
    lemma_sort_desc_stable(board_filter(rows, scoreboard_id), p);
}

/// No deduplication and no upsert: every submission adds one row to its
/// scoreboard's listing, and resubmitting an identical entry raises that
/// entry's multiplicity by one.
pub proof fn lemma_resubmission_adds_row(rows: Seq<ScoreEntry>, e: ScoreEntry)
    ensures
        ranked(rows.push(e), e.scoreboard_id).len() == ranked(rows, e.scoreboard_id).len() + 1,
        ranked(rows.push(e), e.scoreboard_id).to_multiset().count(e) == ranked(
            rows,
            e.scoreboard_id,
        ).to_multiset().count(e) + 1,
{
    broadcast use vstd::seq_lib::group_to_multiset_ensures;
    broadcast use vstd::multiset::group_multiset_axioms;

    lemma_board_filter_push(rows, e, e.scoreboard_id);
    let f = board_filter(rows, e.scoreboard_id);
    lemma_sort_desc_len(f);
    lemma_sort_desc_len(f.push(e));
    lemma_sort_desc_multiset(f);
    lemma_sort_desc_multiset(f.push(e));
    vstd::multiset::lemma_insert_increases_count_by_1(f.to_multiset(), e);
}

/// Submitting the same payload twice yields two distinct rows: the listing
/// grows by two and holds the entry twice over.
pub proof fn lemma_two_identical_submissions(rows: Seq<ScoreEntry>, e: ScoreEntry)
    ensures
        ranked(rows.push(e).push(e), e.scoreboard_id).len() == ranked(rows, e.scoreboard_id).len()
            + 2,
        ranked(rows.push(e).push(e), e.scoreboard_id).to_multiset().count(e) == ranked(
            rows,
            e.scoreboard_id,
        ).to_multiset().count(e) + 2,
{
    lemma_resubmission_adds_row(rows, e);
    lemma_resubmission_adds_row(rows.push(e), e);
}

} // verus!
