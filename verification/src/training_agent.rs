//! The agent that plays by an evolved policy.

use vstd::prelude::*;
use crate::board::Game;
use crate::encoder::{encode, encoding};
use crate::score::Score;
use crate::selector::{
    all_numbers, any_legal, first_legal, is_ranking, is_selection, lemma_first_legal_is_best,
    lemma_none_legal, rank, RankedCandidate, SelectError,
};

verus! {

/// A policy: whatever gives each of the sixteen moves a score for an encoded
/// game. Nothing is asked of the scores; the agent deals with every answer.
pub trait PolicyEvaluator {
    /// Whether the policy, asked for `input`, may answer `scores` and be left
    /// as `after`. Each policy says this of itself; one that says nothing may
    /// answer anything.
    open spec fn answers(&self, input: Seq<u32>, scores: Seq<Score>, after: &Self) -> bool {
        true
    }

    /// Scores the moves for `input`, which holds the seeds of the player to
    /// move, those of the waiting player, and the number of the direction.
    fn evaluate(&mut self, input: &[u32; 33]) -> (scores: [Score; 16])
        ensures
            old(self).answers(input@, scores@, final(self)),
    ;
}

/// A policy that gives the same scores whatever the game.
pub struct FixedPolicy {
    pub scores: [Score; 16],
}

impl PolicyEvaluator for FixedPolicy {
    open spec fn answers(&self, input: Seq<u32>, scores: Seq<Score>, after: &Self) -> bool {
        scores == self.scores@ && *after == *self
    }

    fn evaluate(&mut self, input: &[u32; 33]) -> (scores: [Score; 16]) {
        self.scores
    }
}

/// An agent that asks a policy for scores and plays the best legal move.
///
/// It owns the policy and the buffers that one decision fills, so that two
/// agents never share any of them.
pub struct TrainingAgent<E: PolicyEvaluator> {
    policy: E,
    input: [u32; 33],
    output: [Score; 16],
    indexed_output: [RankedCandidate; 16],
}

impl<E: PolicyEvaluator> TrainingAgent<E> {
    /// The policy that the agent asks.
    pub closed spec fn policy_spec(&self) -> E {
        self.policy
    }

    /// The input that was last handed to the policy.
    pub closed spec fn input_view(&self) -> Seq<u32> {
        self.input@
    }

    /// The scores that the policy last gave.
    pub closed spec fn output_view(&self) -> Seq<Score> {
        self.output@
    }

    /// The candidates as they were last ranked.
    pub closed spec fn ranked_view(&self) -> Seq<RankedCandidate> {
        self.indexed_output@
    }

    /// An agent for `policy`, with all its buffers at zero.
    pub fn new(policy: E) -> (agent: Self)
        ensures
            agent.policy_spec() == policy,
            agent.input_view() == Seq::new(33, |i: int| 0u32),
            agent.output_view() == Seq::new(16, |i: int| Score { bits: 0 }),
            agent.ranked_view() == Seq::new(
                16,
                |i: int| RankedCandidate { index: 0, score: Score { bits: 0 } },
            ),
    {
        let zero = Score::from_bits(0);
        TrainingAgent {
            policy,
            input: [0; 33],
            output: [zero; 16],
            indexed_output: [RankedCandidate { index: 0, score: zero }; 16],
        }
    }

    /// The policy that the agent asks.
    pub fn policy(&self) -> (policy: &E)
        ensures
            *policy == self.policy_spec(),
    {
        &self.policy
    }

    /// The input that was last handed to the policy.
    pub fn input(&self) -> (input: &[u32; 33])
        ensures
            input@ == self.input_view(),
    {
        &self.input
    }

    /// The scores that the policy last gave.
    pub fn output(&self) -> (output: &[Score; 16])
        ensures
            output@ == self.output_view(),
    {
        &self.output
    }

    /// The candidates as they were last ranked.
    pub fn indexed_output(&self) -> (ranked: &[RankedCandidate; 16])
        ensures
            ranked@ == self.ranked_view(),
    {
        &self.indexed_output
    }

    /// Picks the move to play in `game` for the player whose turn it is: the
    /// move that the rules allow and that the policy scores highest.
    ///
    /// The agent keeps the encoded game and the policy's scores, and the
    /// answer is the selection on those scores. While the scores are all
    /// numbers it keeps their ranking too. A score that is not a number is
    /// reported, and so is a game in which the player has no move.
    pub fn pick_index(&mut self, game: &Game) -> (outcome: Result<usize, SelectError>)
        ensures
            final(self).input_view() == encoding(*game),
            old(self).policy_spec().answers(
                encoding(*game),
                final(self).output_view(),
                &final(self).policy_spec(),
            ),
            is_selection(final(self).output_view(), game.active_spec().valid@, outcome),
            outcome is Ok <==> all_numbers(final(self).output_view()) && any_legal(
                game.active_spec().valid@,
            ),
            outcome matches Ok(index) ==> game.active_spec().is_valid_index(index),
            all_numbers(final(self).output_view()) ==> is_ranking(
                final(self).ranked_view(),
                final(self).output_view(),
            ),
            !all_numbers(final(self).output_view()) ==> final(self).ranked_view() == old(
                self,
            ).ranked_view(),
    {
        self.input = encode(game);
        self.output = self.policy.evaluate(&self.input);
        match rank(&self.output) {
            Ok(ranked) => {
                self.indexed_output = ranked;
            },
            Err(error) => {
                return Err(error);
            },
        }
        let player = game.active();
        match first_legal(&self.indexed_output, &player.valid) {
            Some(index) => {
                proof {
                    lemma_first_legal_is_best(
                        self.output@,
                        player.valid@,
                        self.indexed_output@,
                        index as int,
                    );
                }
                Ok(index)
            },
            None => {
                proof {
                    lemma_none_legal(self.output@, player.valid@, self.indexed_output@);
                }
                Err(SelectError::NoValidMove)
            },
        }
    }
}

} // verus!
