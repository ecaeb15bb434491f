//! The high-score table: whether a finished game qualifies, and how a new
//! entry is inserted into the bounded, descending leaderboard. Loading and
//! persisting the table is the embedding program's job.

use vstd::prelude::*;
use vstd::multiset::Multiset;

verus! {

/// The leaderboard keeps this many entries at most.
pub const MAX_SCORES: usize = 10;

/// One leaderboard record.
pub struct Score {
    pub name: String,
    pub score: u32,
}

/// The entries are in descending score order.
pub open spec fn sorted_desc(s: Seq<Score>) -> bool {
    forall|i: int, j: int| 0 <= i < j < s.len() ==> (#[trigger] s[i]).score >= (#[trigger] s[j]).score
}

/// Tests whether a finished game's score belongs on the table: it beats
/// some existing entry, or the table is empty.
pub fn qualifies(scores: &Vec<Score>, pscore: u32) -> (q: bool)
    ensures
        q == (scores@.len() == 0 || exists|i: int|
            0 <= i < scores@.len() && pscore > (#[trigger] scores@[i]).score),
{
    if scores.len() == 0 {
        return true;
    }
    let mut i: usize = 0;
    while i < scores.len()
        invariant
            i <= scores@.len(),
            forall|j: int| 0 <= j < i ==> pscore <= (#[trigger] scores@[j]).score,
        decreases scores@.len() - i,
    {
        if pscore > scores[i].score {
            return true;
        }
        i += 1;
    }
    false
}

/// Sorts the records into descending score order; the result is a
/// permutation of the input.
pub fn sort_scores_desc(scores: Vec<Score>) -> (r: Vec<Score>)
    ensures
        sorted_desc(r@),
        r@.to_multiset() == scores@.to_multiset(),
{
    let mut rest = scores;
    let ghost all = rest@.to_multiset();
    let mut out: Vec<Score> = Vec::new();
    proof {
        broadcast use vstd::seq_lib::group_to_multiset_ensures;
        broadcast use vstd::multiset::group_multiset_axioms;

        assert(out@.to_multiset() =~= Multiset::<Score>::empty());
        assert(out@.to_multiset().add(rest@.to_multiset()) =~= all);
    }
    while rest.len() > 0
        invariant
            sorted_desc(out@),
            out@.to_multiset().add(rest@.to_multiset()) == all,
        decreases rest@.len(),
    {
        let ghost oldrest = rest@;
        let ghost oldout = out@;
        let s = rest.pop().unwrap();
        let mut j: usize = 0;
        while j < out.len() && out[j].score >= s.score
            invariant
                out@ == oldout,
                sorted_desc(out@),
                j <= out@.len(),
                forall|k: int| 0 <= k < j ==> (#[trigger] out@[k]).score >= s.score,
            decreases out@.len() - j,
        {
            j += 1;
        }
        proof {
            assert(j as int == oldout.len() || oldout[j as int].score < s.score);
        }
        out.insert(j, s);
        proof {
            oldout.insert_ensures(j as int, s);
            assert forall|a: int, b: int| 0 <= a < b < out@.len() implies (#[trigger] out@[a]).score
                >= (#[trigger] out@[b]).score by {
                if b < j {
                } else if b == j {
                    assert(out@[a] == oldout[a]);
                } else {
                    assert(out@[b] == oldout[b - 1]);
                    assert(oldout[j as int].score < s.score);
                    if a == j {
                        assert(oldout[b - 1].score <= oldout[j as int].score);
                    } else if a < j {
                        assert(out@[a] == oldout[a]);
                        assert(oldout[b - 1].score <= oldout[j as int].score);
                    } else {
                        assert(out@[a] == oldout[a - 1]);
                    }
                }
            }
        }
        proof {
            broadcast use vstd::seq_lib::group_to_multiset_ensures;
            broadcast use vstd::multiset::group_multiset_axioms;

            assert(oldrest.drop_last() =~= oldrest.remove(oldrest.len() - 1));
            assert(rest@.to_multiset() == oldrest.to_multiset().remove(s));
            assert(oldrest.contains(s)) by {
                assert(oldrest[oldrest.len() - 1] == s);
            }
            assert(oldrest.to_multiset().count(s) > 0);
            assert(out@.to_multiset() == oldout.to_multiset().insert(s));
            assert(out@.to_multiset().add(rest@.to_multiset()) =~= oldout.to_multiset().add(
                oldrest.to_multiset(),
            ));
        }
    }
    proof {
        broadcast use vstd::seq_lib::group_to_multiset_ensures;
        broadcast use vstd::multiset::group_multiset_axioms;

        assert(rest@.to_multiset() =~= Multiset::<Score>::empty());
        assert(out@.to_multiset() =~= all);
    }
    out
}

/// Adds a finished game's record to the table: the new entry joins the old
/// ones, the table is re-sorted descending by score, and only the top
/// `MAX_SCORES` entries survive.
pub fn update_highscores(scores: Vec<Score>, name: String, pscore: u32) -> (r: Vec<Score>)
    ensures
        sorted_desc(r@),
        r@.len() <= MAX_SCORES,
        exists|full: Seq<Score>|
            {
                &&& #[trigger] sorted_desc(full)
                &&& full.to_multiset() == scores@.push(
                    (Score { name: name, score: pscore }),
                ).to_multiset()
                &&& r@ == if full.len() <= MAX_SCORES {
                    full
                } else {
                    full.take(MAX_SCORES as int)
                }
            },
{
    let mut v = scores;
    v.push(Score { name, score: pscore });
    let mut sorted = sort_scores_desc(v);
    let ghost full = sorted@;
    sorted.truncate(MAX_SCORES);
    proof {
        if full.len() <= MAX_SCORES {
            assert(sorted@ == full);
        } else {
            assert(sorted@ == full.take(MAX_SCORES as int));
        }
        assert(sorted_desc(sorted@));
    }
    sorted
}

} // verus!
