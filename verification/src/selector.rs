//! Choosing a move from its scores.
//!
//! The scores are paired with their move indices, ordered from the highest
//! down, and the first candidate that the rules allow is taken. Among equal
//! scores the lower index comes first, so the choice is a function of the
//! scores and of what is legal.

use vstd::prelude::*;
use crate::board::PITS;
use crate::score::Score;

verus! {

/// Why no move was chosen.
#[derive(Clone, Copy, Debug, PartialEq, Eq, Structural)]
pub enum SelectError {
    /// A score is not a number. `index` is the first move with such a score.
    InvalidScore { index: usize },
    /// The rules allow none of the moves.
    NoValidMove,
}

/// A move index with the score it was given.
#[derive(Clone, Copy, Debug)]
pub struct RankedCandidate {
    pub index: usize,
    pub score: Score,
}

impl RankedCandidate {
    /// Whether `self` is ranked before `other`: by the higher score, and
    /// among equal scores by the lower index.
    pub open spec fn precedes_spec(self, other: RankedCandidate) -> bool {
        self.score.rank() > other.score.rank() || (self.score.rank() == other.score.rank()
            && self.index < other.index)
    }

    /// Whether `self` is ranked before `other`.
    #[verifier::when_used_as_spec(precedes_spec)]
    pub fn precedes(self, other: RankedCandidate) -> (before: bool)
        ensures
            before == self.precedes_spec(other),
    {
        let mine: i64 = self.score.key();
        let theirs: i64 = other.score.key();
        mine > theirs || (mine == theirs && self.index < other.index)
    }
}

/// Every score is a number.
pub open spec fn all_numbers(scores: Seq<Score>) -> bool {
    forall|j: int| 0 <= j < scores.len() ==> !(#[trigger] scores[j]).is_nan()
}

/// `index` is the first position whose score is not a number.
pub open spec fn is_first_nan(scores: Seq<Score>, index: int) -> bool {
    &&& 0 <= index < scores.len()
    &&& scores[index].is_nan()
    &&& forall|j: int| 0 <= j < index ==> !(#[trigger] scores[j]).is_nan()
}

/// Some move is legal.
pub open spec fn any_legal(legal: Seq<bool>) -> bool {
    exists|j: int| 0 <= j < legal.len() && #[trigger] legal[j]
}

/// Some candidate of `ranked` stands for the move `index`.
pub open spec fn holds_index(ranked: Seq<RankedCandidate>, index: int) -> bool {
    exists|p: int| 0 <= p < ranked.len() && (#[trigger] ranked[p]).index == index
}

/// `ranked` is the ranking of `scores`: it holds every move index with its
/// score, and each candidate precedes all that come after it.
pub open spec fn is_ranking(ranked: Seq<RankedCandidate>, scores: Seq<Score>) -> bool {
    &&& ranked.len() == scores.len()
    &&& forall|p: int|
        0 <= p < ranked.len() ==> (#[trigger] ranked[p]).index < scores.len() && ranked[p].score
            == scores[ranked[p].index as int]
    &&& forall|k: int| 0 <= k < scores.len() ==> #[trigger] holds_index(ranked, k)
    &&& forall|p: int, q: int|
        0 <= p < q < ranked.len() ==> (#[trigger] ranked[p]).precedes(#[trigger] ranked[q])
}

/// `index` is the move to choose: it is legal, no legal move has a higher
/// score, and every legal move before it has a lower one.
pub open spec fn is_best_legal(scores: Seq<Score>, legal: Seq<bool>, index: int) -> bool {
    &&& 0 <= index < scores.len()
    &&& legal[index]
    &&& forall|j: int|
        0 <= j < scores.len() && legal[j] ==> (#[trigger] scores[j]).rank() <= scores[index].rank()
    &&& forall|j: int|
        0 <= j < index && legal[j] ==> (#[trigger] scores[j]).rank() < scores[index].rank()
}

/// What selection answers for `scores` and `legal`. A score that is not a
/// number is reported before anything else, by the first place it stands at;
/// then the lack of a legal move; otherwise the best legal move is chosen.
pub open spec fn is_selection(
    scores: Seq<Score>,
    legal: Seq<bool>,
    outcome: Result<usize, SelectError>,
) -> bool {
    match outcome {
        Ok(index) => all_numbers(scores) && is_best_legal(scores, legal, index as int),
        Err(SelectError::InvalidScore { index }) => is_first_nan(scores, index as int),
        Err(SelectError::NoValidMove) => all_numbers(scores) && !any_legal(legal),
    }
}

/// The first position whose score is not a number, if there is one.
pub fn first_nan(scores: &[Score; 16]) -> (found: Option<usize>)
    ensures
        match found {
            Some(index) => is_first_nan(scores@, index as int),
            None => all_numbers(scores@),
        },
{
    let mut index: usize = 0;
    while index < PITS
        invariant
            index <= PITS,
            forall|j: int| 0 <= j < index ==> !(#[trigger] scores@[j]).is_nan(),
        decreases PITS - index,
    {
        if scores[index].is_nan() {
            return Some(index);
        }
        index += 1;
    }
    None
}

/// Pairs each score with its move index, in index order.
pub fn pair(scores: &[Score; 16]) -> (paired: [RankedCandidate; 16])
    ensures
        forall|p: int|
            0 <= p < 16 ==> (#[trigger] paired@[p]).index == p && paired@[p].score == scores@[p],
{
    let mut paired: [RankedCandidate; 16] = [RankedCandidate { index: 0, score: scores[0] }; 16];
    let mut index: usize = 0;
    while index < PITS
        invariant
            index <= PITS,
            forall|p: int|
                0 <= p < index ==> (#[trigger] paired@[p]).index == p && paired@[p].score
                    == scores@[p],
        decreases PITS - index,
    {
        paired[index] = RankedCandidate { index, score: scores[index] };
        index += 1;
    }
    paired
}

/// No two candidates stand for the same move.
pub open spec fn distinct_indices(ranked: Seq<RankedCandidate>) -> bool {
    forall|p: int, q: int|
        0 <= p < ranked.len() && 0 <= q < ranked.len() && p != q ==> (#[trigger] ranked[p]).index
            != (#[trigger] ranked[q]).index
}

/// The position, from `from` on, of the candidate that precedes all the
/// others from there on.
fn best_from(ranked: &[RankedCandidate; 16], from: usize) -> (best: usize)
    requires
        from < 16,
        distinct_indices(ranked@),
    ensures
        from <= best < 16,
        forall|c: int|
            from <= c < 16 && c != best ==> ranked@[best as int].precedes(#[trigger] ranked@[c]),
{
    let mut best: usize = from;
    let mut next: usize = from + 1;
    while next < PITS
        invariant
            from <= best < next <= PITS,
            distinct_indices(ranked@),
            forall|c: int|
                from <= c < next && c != best ==> ranked@[best as int].precedes(
                    #[trigger] ranked@[c],
                ),
        decreases PITS - next,
    {
        if ranked[next].precedes(ranked[best]) {
            best = next;
        }
        next += 1;
    }
    best
}

/// Orders the candidates of `scores` from the best down. Scores that are not
/// all numbers cannot be ordered, and the first such score is reported.
pub fn rank(scores: &[Score; 16]) -> (outcome: Result<[RankedCandidate; 16], SelectError>)
    ensures
        outcome is Ok <==> all_numbers(scores@),
        match outcome {
            Ok(ranked) => all_numbers(scores@) && is_ranking(ranked@, scores@),
            Err(SelectError::InvalidScore { index }) => is_first_nan(scores@, index as int),
            Err(SelectError::NoValidMove) => false,
        },
{
    if let Some(index) = first_nan(scores) {
        return Err(SelectError::InvalidScore { index });
    }
    let mut ranked = pair(scores);
    // place[k] is the position at which the candidate for move k stands.
    let ghost mut place: Seq<int> = Seq::new(16, |k: int| k);
    let mut sorted: usize = 0;
    while sorted < PITS
        invariant
            sorted <= PITS,
            place.len() == 16,
            forall|p: int|
                0 <= p < 16 ==> (#[trigger] ranked@[p]).index < 16 && ranked@[p].score
                    == scores@[ranked@[p].index as int],
            forall|k: int|
                0 <= k < 16 ==> 0 <= #[trigger] place[k] < 16 && ranked@[place[k]].index == k,
            forall|p: int| 0 <= p < 16 ==> place[(#[trigger] ranked@[p]).index as int] == p,
            forall|p: int, q: int|
                0 <= p < sorted && p < q < 16 ==> (#[trigger] ranked@[p]).precedes(
                    #[trigger] ranked@[q],
                ),
        decreases PITS - sorted,
    {
        let best = best_from(&ranked, sorted);
        let ghost before = ranked@;
        let leader = ranked[best];
        let displaced = ranked[sorted];
        ranked[sorted] = leader;
        ranked[best] = displaced;
        proof {
            place = place.update(leader.index as int, sorted as int).update(
                displaced.index as int,
                best as int,
            );
            assert forall|p: int, q: int| 0 <= p < sorted + 1 && p < q < 16 implies (
            #[trigger] ranked@[p]).precedes(#[trigger] ranked@[q]) by {
                let from: int = if q == best {
                    sorted as int
                } else if q == sorted {
                    best as int
                } else {
                    q
                };
                assert(ranked@[q] == before[from]);
                if p == sorted {
                    assert(ranked@[p] == before[best as int]);
                } else {
                    assert(ranked@[p] == before[p]);
                }
            }
        }
        sorted += 1;
    }
    proof {
        assert forall|k: int| 0 <= k < 16 implies #[trigger] holds_index(ranked@, k) by {
            assert(ranked@[place[k]].index == k);
        }
    }
    Ok(ranked)
}

/// Whether `legal` allows the move `index`. A move past the end is not
/// allowed.
pub open spec fn allows(legal: Seq<bool>, index: usize) -> bool {
    index < legal.len() && legal[index as int]
}

/// `at` is the first position of `ranked` whose move `legal` allows.
pub open spec fn is_first_legal_at(ranked: Seq<RankedCandidate>, legal: Seq<bool>, at: int) -> bool {
    &&& 0 <= at < ranked.len()
    &&& allows(legal, ranked[at].index)
    &&& forall|p: int| 0 <= p < at ==> !allows(legal, (#[trigger] ranked[p]).index)
}

/// The move of the first candidate that `legal` allows, if there is one.
pub fn first_legal(ranked: &[RankedCandidate; 16], legal: &[bool; 16]) -> (found: Option<usize>)
    ensures
        match found {
            Some(index) => exists|at: int|
                is_first_legal_at(ranked@, legal@, at) && (#[trigger] ranked@[at]).index == index,
            None => forall|p: int| 0 <= p < 16 ==> !allows(legal@, (#[trigger] ranked@[p]).index),
        },
{
    let mut at: usize = 0;
    while at < PITS
        invariant
            at <= PITS,
            forall|p: int| 0 <= p < at ==> !allows(legal@, (#[trigger] ranked@[p]).index),
        decreases PITS - at,
    {
        let index = ranked[at].index;
        if index < PITS && legal[index] {
            assert(is_first_legal_at(ranked@, legal@, at as int));
            return Some(index);
        }
        at += 1;
    }
    None
}

/// Chooses the legal move with the highest score; among equal scores, the
/// one with the lowest index.
///
/// No move is chosen when a score is not a number, which is reported first,
/// or when no move is legal.
pub fn select(scores: &[Score; 16], legal: &[bool; 16]) -> (outcome: Result<usize, SelectError>)
    ensures
        is_selection(scores@, legal@, outcome),
        outcome is Ok <==> all_numbers(scores@) && any_legal(legal@),
{
    let ranked = match rank(scores) {
        Ok(ranked) => ranked,
        Err(error) => {
            return Err(error);
        },
    };
    match first_legal(&ranked, legal) {
        Some(index) => {
            proof {
                lemma_first_legal_is_best(scores@, legal@, ranked@, index as int);
            }
            Ok(index)
        },
        None => {
            proof {
                lemma_none_legal(scores@, legal@, ranked@);
            }
            Err(SelectError::NoValidMove)
        },
    }
}

/// In a ranking, the move of the first candidate that is legal is the best
/// legal move.
pub proof fn lemma_first_legal_is_best(
    scores: Seq<Score>,
    legal: Seq<bool>,
    ranked: Seq<RankedCandidate>,
    index: int,
)
    requires
        scores.len() == legal.len(),
        is_ranking(ranked, scores),
        exists|at: int| is_first_legal_at(ranked, legal, at) && (#[trigger] ranked[at]).index == index,
    ensures
        is_best_legal(scores, legal, index),
        any_legal(legal),
{
    let at = choose|at: int|
        is_first_legal_at(ranked, legal, at) && (#[trigger] ranked[at]).index == index;
    assert(legal[index]);
    assert forall|j: int| 0 <= j < scores.len() && legal[j] implies (#[trigger] scores[j]).rank()
        <= scores[index].rank() && (j < index ==> scores[j].rank() < scores[index].rank()) by {
        assert(holds_index(ranked, j));
        let q = choose|q: int| 0 <= q < ranked.len() && (#[trigger] ranked[q]).index == j;
        assert(allows(legal, ranked[q].index));
        if q > at {
            assert(ranked[at].precedes(ranked[q]));
        }
    }
}

/// When a ranking holds no legal candidate, no move is legal.
pub proof fn lemma_none_legal(scores: Seq<Score>, legal: Seq<bool>, ranked: Seq<RankedCandidate>)
    requires
        scores.len() == legal.len(),
        is_ranking(ranked, scores),
        forall|p: int| 0 <= p < ranked.len() ==> !allows(legal, (#[trigger] ranked[p]).index),
    ensures
        !any_legal(legal),
{
    assert forall|j: int| 0 <= j < legal.len() implies !#[trigger] legal[j] by {
        assert(holds_index(ranked, j));
        let q = choose|q: int| 0 <= q < ranked.len() && (#[trigger] ranked[q]).index == j;
        assert(!allows(legal, ranked[q].index));
    }
}

/// Selection is a function: scores and legality leave room for one answer.
pub proof fn lemma_selection_is_unique(
    scores: Seq<Score>,
    legal: Seq<bool>,
    first: Result<usize, SelectError>,
    second: Result<usize, SelectError>,
)
    requires
        scores.len() == legal.len(),
        is_selection(scores, legal, first),
        is_selection(scores, legal, second),
    ensures
        first == second,
{
    match (first, second) {
        (Ok(a), Ok(b)) => {
            assert(scores[a as int].rank() <= scores[b as int].rank());
            assert(scores[b as int].rank() <= scores[a as int].rank());
        },
        (Ok(a), Err(SelectError::NoValidMove)) => {
            assert(legal[a as int]);
        },
        (Err(SelectError::NoValidMove), Ok(b)) => {
            assert(legal[b as int]);
        },
        _ => {},
    }
}

/// Selection fails exactly when a score is not a number or no move is legal,
/// and a move that it chooses is a legal one.
pub proof fn lemma_selection_fails(
    scores: Seq<Score>,
    legal: Seq<bool>,
    outcome: Result<usize, SelectError>,
)
    requires
        scores.len() == legal.len(),
        is_selection(scores, legal, outcome),
    ensures
        outcome is Err <==> !all_numbers(scores) || !any_legal(legal),
        outcome matches Ok(index) ==> allows(legal, index),
{
    match outcome {
        Ok(index) => {
            assert(legal[index as int]);
        },
        Err(SelectError::InvalidScore { index }) => {
            assert(scores[index as int].is_nan());
        },
        Err(SelectError::NoValidMove) => {},
    }
}

/// A legal move whose score is above every other score is chosen, whatever
/// the other scores are and whichever of the other moves are legal.
pub proof fn lemma_unique_maximum_is_selected(
    scores: Seq<Score>,
    legal: Seq<bool>,
    best: int,
    outcome: Result<usize, SelectError>,
)
    requires
        scores.len() == legal.len(),
        all_numbers(scores),
        0 <= best < scores.len(),
        legal[best],
        forall|j: int|
            0 <= j < scores.len() && j != best ==> (#[trigger] scores[j]).rank()
                < scores[best].rank(),
        is_selection(scores, legal, outcome),
    ensures
        outcome == Ok::<usize, SelectError>(best as usize),
{
    assert(legal[best]);
    match outcome {
        Ok(index) => {
            assert(scores[best].rank() <= scores[index as int].rank());
        },
        Err(SelectError::InvalidScore { index }) => {
            assert(!scores[index as int].is_nan());
        },
        Err(SelectError::NoValidMove) => {},
    }
}

/// When the move with the highest score is not legal, and a legal move has a
/// score above all the others, that second move is chosen.
pub proof fn lemma_runner_up_is_selected(
    scores: Seq<Score>,
    legal: Seq<bool>,
    top: int,
    second: int,
    outcome: Result<usize, SelectError>,
)
    requires
        scores.len() == legal.len(),
        all_numbers(scores),
        0 <= top < scores.len(),
        0 <= second < scores.len(),
        !legal[top],
        legal[second],
        forall|j: int| 0 <= j < scores.len() ==> (#[trigger] scores[j]).rank() <= scores[top].rank(),
        forall|j: int|
            0 <= j < scores.len() && j != top && j != second ==> (#[trigger] scores[j]).rank()
                < scores[second].rank(),
        is_selection(scores, legal, outcome),
    ensures
        outcome == Ok::<usize, SelectError>(second as usize),
{
    assert(legal[second]);
    match outcome {
        Ok(index) => {
            assert(scores[second].rank() <= scores[index as int].rank());
        },
        Err(SelectError::InvalidScore { index }) => {
            assert(!scores[index as int].is_nan());
        },
        Err(SelectError::NoValidMove) => {},
    }
}

/// When a single move is legal, it is chosen, whatever the scores are, as
/// long as they are numbers.
pub proof fn lemma_only_legal_is_selected(
    scores: Seq<Score>,
    legal: Seq<bool>,
    only: int,
    outcome: Result<usize, SelectError>,
)
    requires
        scores.len() == legal.len(),
        all_numbers(scores),
        0 <= only < scores.len(),
        legal[only],
        forall|j: int| 0 <= j < legal.len() && j != only ==> !#[trigger] legal[j],
        is_selection(scores, legal, outcome),
    ensures
        outcome == Ok::<usize, SelectError>(only as usize),
{
    assert(legal[only]);
    match outcome {
        Ok(index) => {
            assert(legal[index as int]);
        },
        Err(SelectError::InvalidScore { index }) => {
            assert(!scores[index as int].is_nan());
        },
        Err(SelectError::NoValidMove) => {},
    }
}

/// Two rankings of the same scores agree on their first `upto` candidates.
proof fn lemma_rankings_agree(
    scores: Seq<Score>,
    first: Seq<RankedCandidate>,
    second: Seq<RankedCandidate>,
    upto: int,
)
    requires
        is_ranking(first, scores),
        is_ranking(second, scores),
        0 <= upto <= scores.len(),
    ensures
        forall|p: int| 0 <= p < upto ==> first[p] == second[p],
    decreases upto,
{
    if upto > 0 {
        lemma_rankings_agree(scores, first, second, upto - 1);
        let p = upto - 1;
        // The candidate at p in either ranking stands in the other one, and
        // not before p, where the two rankings agree.
        assert(holds_index(second, first[p].index as int));
        let q = choose|q: int|
            0 <= q < second.len() && (#[trigger] second[q]).index == first[p].index;
        assert(second[q] == first[p]);
        if q < p {
            assert(first[q].precedes(first[p]));
        }
        assert(holds_index(first, second[p].index as int));
        let r = choose|r: int|
            0 <= r < first.len() && (#[trigger] first[r]).index == second[p].index;
        assert(first[r] == second[p]);
        if r < p {
            assert(second[r].precedes(second[p]));
        }
        if q > p && r > p {
            assert(second[p].precedes(second[q]));
            assert(first[p].precedes(first[r]));
        }
    }
}

/// Scores have one ranking.
pub proof fn lemma_ranking_is_unique(
    scores: Seq<Score>,
    first: Seq<RankedCandidate>,
    second: Seq<RankedCandidate>,
)
    requires
        is_ranking(first, scores),
        is_ranking(second, scores),
    ensures
        first == second,
{
    lemma_rankings_agree(scores, first, second, scores.len() as int);
    assert(first =~= second);
}

/// A ranking starts with a highest score and goes down from there.
pub proof fn lemma_ranking_descends(scores: Seq<Score>, ranked: Seq<RankedCandidate>)
    requires
        is_ranking(ranked, scores),
    ensures
        forall|p: int, q: int|
            0 <= p <= q < ranked.len() ==> (#[trigger] ranked[p]).score.rank() >= (
            #[trigger] ranked[q]).score.rank(),
        forall|j: int|
            0 <= j < scores.len() ==> (#[trigger] scores[j]).rank() <= ranked[0].score.rank(),
{
    assert forall|p: int, q: int| 0 <= p <= q < ranked.len() implies (
    #[trigger] ranked[p]).score.rank() >= (#[trigger] ranked[q]).score.rank() by {
        if p < q {
            assert(ranked[p].precedes(ranked[q]));
        }
    }
    assert forall|j: int| 0 <= j < scores.len() implies (#[trigger] scores[j]).rank()
        <= ranked[0].score.rank() by {
        assert(holds_index(ranked, j));
        let q = choose|q: int| 0 <= q < ranked.len() && (#[trigger] ranked[q]).index == j;
        assert(ranked[0].score.rank() >= ranked[q].score.rank());
    }
}

} // verus!
