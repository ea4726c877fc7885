//! Ranking by score and the choice of the best: the individuals of a
//! generation are ranked by falling score, earlier ones first among equals,
//! and the leading ones are kept.

use vstd::prelude::*;
use vstd::set_lib::*;

verus! {

/// An individual with the score it reached.
pub struct Scored<P> {
    pub score: usize,
    pub specimen: P,
}

/// The scores of `scored`, in its order.
pub open spec fn scores_of<P>(scored: Seq<Scored<P>>) -> Seq<usize> {
    Seq::new(scored.len(), |i: int| scored[i].score)
}

/// The individual at `i` stands before the one at `j`: it has the higher
/// score, or the same score and the earlier place.
pub open spec fn outranks(scores: Seq<usize>, i: int, j: int) -> bool {
    scores[i] > scores[j] || (scores[i] == scores[j] && i < j)
}

/// `order` lists places of `scores`, each before all that follow it.
pub open spec fn is_ranked(scores: Seq<usize>, order: Seq<int>) -> bool {
    &&& forall|p: int| 0 <= p < order.len() ==> 0 <= #[trigger] order[p] < scores.len()
    &&& forall|p: int, q: int|
        0 <= p < q < order.len() ==> outranks(scores, #[trigger] order[p], #[trigger] order[q])
}

/// `order` is a ranking of `scores`: it lists every place once, each before
/// all that follow it.
pub open spec fn is_ranking(scores: Seq<usize>, order: Seq<int>) -> bool {
    &&& order.len() == scores.len()
    &&& is_ranked(scores, order)
}

/// The number of places at the front of `order` whose score is at least
/// `score`, where `order` is ranked: the place in `order` at which a newcomer
/// with that score belongs.
pub open spec fn slot(scores: Seq<usize>, order: Seq<int>, score: usize) -> int
    decreases order.len(),
{
    if order.len() == 0 {
        0
    } else if scores[order.last()] >= score {
        order.len() as int
    } else {
        slot(scores, order.drop_last(), score)
    }
}

/// The ranking of `scores`: that of all but the last place, with the last
/// place put in behind those that score at least as much.
pub open spec fn ranking(scores: Seq<usize>) -> Seq<int>
    decreases scores.len(),
{
    if scores.len() == 0 {
        Seq::empty()
    } else {
        let rest = ranking(scores.drop_last());
        rest.insert(slot(scores, rest, scores.last()), scores.len() - 1)
    }
}

/// The best `keep` of `scored`, or all of them where there are fewer: the
/// specimens at the leading places of the ranking.
pub open spec fn chosen<P>(scored: Seq<Scored<P>>, keep: int) -> Seq<P> {
    let order = ranking(scores_of(scored));
    Seq::new(
        (if keep < scored.len() {
            keep
        } else {
            scored.len() as int
        }) as nat,
        |p: int| scored[order[p]].specimen,
    )
}

/// `best` is the highest of `scores`, or zero where there is none.
pub open spec fn is_highest(scores: Seq<usize>, best: usize) -> bool {
    &&& forall|i: int| 0 <= i < scores.len() ==> #[trigger] scores[i] <= best
    &&& if scores.len() == 0 {
        best == 0
    } else {
        exists|i: int| 0 <= i < scores.len() && #[trigger] scores[i] == best
    }
}

/// In a ranked list, `slot` parts the places that score at least `score`
/// from those that score less.
pub proof fn lemma_slot_parts(scores: Seq<usize>, order: Seq<int>, score: usize)
    requires
        is_ranked(scores, order),
    ensures
        0 <= slot(scores, order, score) <= order.len(),
        forall|p: int| 0 <= p < slot(scores, order, score) ==> scores[#[trigger] order[p]] >= score,
        forall|p: int|
            slot(scores, order, score) <= p < order.len() ==> scores[#[trigger] order[p]] < score,
    decreases order.len(),
{
    if order.len() > 0 {
        let front = order.drop_last();
        lemma_slot_parts(scores, front, score);
        if scores[order.last()] < score {
            assert forall|p: int| 0 <= p < slot(scores, order, score) implies scores[
                #[trigger] order[p]
            ] >= score by {
                assert(front[p] == order[p]);
            }
            assert forall|p: int| slot(scores, order, score) <= p < order.len() implies scores[
                #[trigger] order[p]
            ] < score by {
                if p < order.len() - 1 {
                    assert(front[p] == order[p]);
                }
            }
        }
    }
}

/// A ranking of all but the last place becomes a ranking of all places when
/// the last place is put in at its slot.
pub proof fn lemma_insert_ranks(scores: Seq<usize>, order: Seq<int>)
    requires
        scores.len() > 0,
        is_ranking(scores.drop_last(), order),
    ensures
        is_ranking(scores, order.insert(slot(scores, order, scores.last()), scores.len() - 1)),
{
    lemma_slot_parts(scores, order, scores.last());
}

/// The ranking is a ranking: it has a place for every individual, and each
/// place in it stands before all that follow.
pub proof fn lemma_ranking_ranks(scores: Seq<usize>)
    ensures
        is_ranking(scores, ranking(scores)),
    decreases scores.len(),
{
    if scores.len() > 0 {
        lemma_ranking_ranks(scores.drop_last());
        lemma_insert_ranks(scores, ranking(scores.drop_last()));
    }
}

/// A ranking lists every place: no place of `scores` is missing from it.
pub proof fn lemma_ranking_lists_all(scores: Seq<usize>, order: Seq<int>, place: int)
    requires
        is_ranking(scores, order),
        0 <= place < scores.len(),
    ensures
        exists|p: int| 0 <= p < order.len() && #[trigger] order[p] == place,
{
    order.unique_seq_to_set();
    let places = set_int_range(0, scores.len() as int);
    lemma_int_range(0, scores.len() as int);
    lemma_subset_equality(order.to_set(), places);
    assert(order.to_set().contains(place));
}

/// There is one ranking only: whatever ranks `scores` is `ranking(scores)`.
pub proof fn lemma_ranking_unique(scores: Seq<usize>, order: Seq<int>)
    requires
        is_ranking(scores, order),
    ensures
        order == ranking(scores),
    decreases scores.len(),
{
    if scores.len() > 0 {
        let last = scores.len() - 1;
        lemma_ranking_lists_all(scores, order, last);
        let t = choose|p: int| 0 <= p < order.len() && #[trigger] order[p] == last;
        let others = order.remove(t);
        lemma_ranking_unique(scores.drop_last(), others);
        lemma_slot_parts(scores, others, scores.last());
        assert(order =~= others.insert(t, last));
    }
}

/// The ranking falls in score from place to place; and whoever is not among
/// its first `keep` scores no more than any of those.
pub proof fn lemma_best_come_first(scores: Seq<usize>, keep: int)
    requires
        0 <= keep <= scores.len(),
    ensures
        forall|p: int, q: int|
            0 <= p <= q < scores.len() ==> scores[#[trigger] ranking(scores)[p]]
                >= scores[#[trigger] ranking(scores)[q]],
        forall|place: int, p: int|
            0 <= place < scores.len() && 0 <= p < keep ==> (exists|q: int|
                0 <= q < keep && #[trigger] ranking(scores)[q] == place) || #[trigger] scores[place]
                <= scores[#[trigger] ranking(scores)[p]],
{
    let order = ranking(scores);
    lemma_ranking_ranks(scores);
    assert forall|place: int, p: int| 0 <= place < scores.len() && 0 <= p < keep implies (exists|
        q: int,
    |
        0 <= q < keep && #[trigger] order[q] == place) || #[trigger] scores[place]
        <= scores[#[trigger] order[p]] by {
        lemma_ranking_lists_all(scores, order, place);
    }
}

/// Whoever stands first in the ranking has the highest score.
pub proof fn lemma_first_is_highest(scores: Seq<usize>)
    requires
        scores.len() > 0,
    ensures
        is_highest(scores, scores[ranking(scores)[0]]),
{
    let order = ranking(scores);
    lemma_ranking_ranks(scores);
    assert forall|i: int| 0 <= i < scores.len() implies #[trigger] scores[i]
        <= scores[order[0]] by {
        lemma_ranking_lists_all(scores, order, i);
    }
}

/// The highest score among `scored`, or zero where it is empty.
pub fn best_score<P>(scored: &Vec<Scored<P>>) -> (best: usize)
    ensures
        is_highest(scores_of(scored@), best),
{
    let ghost scores = scores_of(scored@);
    let mut best: usize = 0;
    let mut i: usize = 0;
    while i < scored.len()
        invariant
            i <= scored@.len(),
            scores == scores_of(scored@),
            is_highest(scores.take(i as int), best),
        decreases scored@.len() - i,
    {
        let ghost after = scores.take(i + 1);
        let score = scored[i].score;
        assert(after[i as int] == score);
        if score > best {
            best = score;
        }
        i += 1;
    }
    assert(scores.take(scored@.len() as int) =~= scores);
    best
}

/// Keeps the best `keep` of `scored`, best first. Of two with the same score
/// the one that came earlier in `scored` stands first.
pub fn select<P>(scored: Vec<Scored<P>>, keep: usize) -> (kept: Vec<P>)
    ensures
        kept@ == chosen(scored@, keep as int),
{
    let ghost all = scored@;
    let ghost scores = scores_of(all);
    let ghost mut order: Seq<int> = Seq::empty();
    let mut top: Vec<Scored<P>> = Vec::new();
    for entry in it: scored.into_iter()
        invariant
            it.seq() == all,
            scores == scores_of(all),
            order == ranking(scores.take(it.index() as int)),
            top@.len() <= keep,
            top@.len() <= it.index(),
            top@.len() == keep || top@.len() == it.index(),
            forall|p: int| 0 <= p < top@.len() ==> #[trigger] top@[p] == all[order[p]],
    {
        let ghost m = it.index() as int;
        let ghost seen = scores.take(m);
        let ghost now = scores.take(m + 1);
        proof {
            assert(now.drop_last() =~= seen);
            lemma_ranking_ranks(seen);
            lemma_slot_parts(now, order, entry.score);
        }
        let ghost s = slot(now, order, entry.score);
        let mut pos: usize = top.len();
        while pos > 0 && top[pos - 1].score < entry.score
            invariant
                pos <= top@.len(),
                forall|p: int| pos <= p < top@.len() ==> (#[trigger] top@[p]).score < entry.score,
            decreases pos,
        {
            pos -= 1;
        }
        proof {
            if pos < top@.len() {
                assert(top@[pos as int].score == now[order[pos as int]]);
            }
        }
        if pos < keep {
            top.insert(pos, entry);
            if top.len() > keep {
                top.pop();
            }
        }
        proof {
            order = order.insert(s, m);
        }
    }
    proof {
        assert(scores.take(all.len() as int) =~= scores);
    }
    let mut kept: Vec<P> = Vec::with_capacity(top.len());
    let ghost ranked = top@;
    for entry in it: top.into_iter()
        invariant
            it.seq() == ranked,
            kept@.len() == it.index(),
            forall|p: int| 0 <= p < it.index() ==> #[trigger] kept@[p] == ranked[p].specimen,
    {
        kept.push(entry.specimen);
    }
    kept
}

} // verus!
