//! The score store model: the rows of the `score` table, in insertion order.
//!
//! The store is the sole owner of persisted entries. Entries are created by
//! `insert`, never mutated or deleted, and listed back per scoreboard in
//! ranked order.

use vstd::prelude::*;
use crate::entry::{ScoreEntry, ScorePostPayload};
use crate::rank::{
    board_filter, insert_desc, insert_ranked, lemma_board_filter_none, lemma_board_filter_push,
    lemma_sort_desc_sorted, ranked, sort_desc, sorted_desc,
};

verus! {

/// The row a submission creates: the payload's fields plus the
/// store-assigned timestamp.
pub open spec fn entry_for(payload: ScorePostPayload, timestamp: String) -> ScoreEntry {
    ScoreEntry {
        scoreboard_id: payload.scoreboard_id,
        signature_name: payload.signature_name,
        points: payload.points,
        timestamp: timestamp,
    }
}

/// An in-memory model of the `score` table. Its view is the sequence of
/// rows in insertion (storage) order.
pub struct ScoreStore {
    rows: Vec<ScoreEntry>,
}

impl View for ScoreStore {
    type V = Seq<ScoreEntry>;

    closed spec fn view(&self) -> Seq<ScoreEntry> {
        self.rows@
    }
}

impl ScoreStore {
    /// Every stored timestamp was assigned by the store at insert time and
    /// is a non-empty string.
    pub open spec fn wf(&self) -> bool {
        forall|i: int| 0 <= i < self@.len() ==> #[trigger] self@[i].timestamp@.len() > 0
    }

    pub fn new() -> (r: ScoreStore)
        ensures
            r@ == Seq::<ScoreEntry>::empty(),
            r.wf(),
    {
        ScoreStore { rows: Vec::new() }
    }

    /// Persists one submission: appends exactly one row holding the
    /// payload's fields and the store-assigned timestamp. Nothing else
    /// changes, so no earlier row is deduplicated or overwritten.
    pub fn insert(&mut self, payload: &ScorePostPayload, timestamp: String)
        requires
            old(self).wf(),
            timestamp@.len() > 0,
        ensures
            final(self)@ == old(self)@.push(entry_for(*payload, timestamp)),
            final(self).wf(),
    {
        let e = ScoreEntry {
            scoreboard_id: payload.scoreboard_id,
            signature_name: payload.signature_name.clone(),
            points: payload.points,
            timestamp,
        };
        self.rows.push(e);
        proof {
            assert forall|i: int| 0 <= i < self@.len() implies self@[i].timestamp@.len() > 0 by {
                if i < self@.len() - 1 {
                    assert(old(self)@[i].timestamp@.len() > 0);
                }
            }
        }
    }

    /// Lists one scoreboard: exactly the entries submitted to it, ordered by
    /// points descending, ties in storage order. An unknown or empty
    /// scoreboard yields an empty vector, never an error.
    pub fn list_by_scoreboard(&self, scoreboard_id: u32) -> (r: Vec<ScoreEntry>)
        ensures
            r@ == ranked(self@, scoreboard_id),
            sorted_desc(r@),
    {
        let mut r: Vec<ScoreEntry> = Vec::new();
        proof {
            assert(self@.take(0) =~= Seq::<ScoreEntry>::empty());
            lemma_board_filter_none(Seq::<ScoreEntry>::empty(), scoreboard_id);
        }
        let mut k: usize = 0;
        while k < self.rows.len()
            invariant
                k <= self@.len(),
                r@ == ranked(self@.take(k as int), scoreboard_id),
            decreases self@.len() - k,
        {
            let ghost prefix = self@.take(k as int);
            let ghost pf = board_filter(prefix, scoreboard_id);
            if self.rows[k].scoreboard_id == scoreboard_id {
                let e = self.rows[k].duplicate();
                insert_ranked(&mut r, e);
                proof {
                    assert(self@.take(k as int + 1) =~= prefix.push(self@[k as int]));
                    lemma_board_filter_push(prefix, self@[k as int], scoreboard_id);
                    let t = pf.push(self@[k as int]);
                    assert(t.drop_last() =~= pf);
                    assert(t.last() == self@[k as int]);
                    assert(sort_desc(t) == insert_desc(self@[k as int], sort_desc(pf)));
                }
            } else {
                proof {
                    assert(self@.take(k as int + 1) =~= prefix.push(self@[k as int]));
                    lemma_board_filter_push(prefix, self@[k as int], scoreboard_id);
                }
            }
            k = k + 1;
        }
        proof {
            assert(self@.take(self@.len() as int) =~= self@);
            lemma_sort_desc_sorted(board_filter(self@, scoreboard_id));
        }
        r
    }

    /// How many rows the store holds, over all scoreboards.
    pub fn entry_count(&self) -> (n: usize)
        ensures
            n == self@.len(),
    {
        self.rows.len()
    }
}

} // verus!
