use bao_agent::score::Score;
use bao_agent::selector::{first_legal, first_nan, pair, rank, select, RankedCandidate, SelectError};

fn scores(values: [f64; 16]) -> [Score; 16] {
    values.map(|value| Score::from_bits(value.to_bits()))
}

fn descending() -> [f64; 16] {
    let mut values = [0.0; 16];
    for (index, value) in values.iter_mut().enumerate() {
        *value = 1.0 - 0.05 * index as f64;
    }
    values
}

fn only(index: usize) -> [bool; 16] {
    let mut legal = [false; 16];
    legal[index] = true;
    legal
}

fn all_but(index: usize) -> [bool; 16] {
    let mut legal = [true; 16];
    legal[index] = false;
    legal
}

#[test]
fn unique_maximum_at_a_legal_index_wins() {
    for best in 0..16 {
        let mut values = [0.25; 16];
        values[best] = 0.75;
        assert_eq!(select(&scores(values), &[true; 16]), Ok(best));
        assert_eq!(select(&scores(values), &only(best)), Ok(best));
        let mut mixed = [false; 16];
        mixed[best] = true;
        mixed[(best + 3) % 16] = true;
        mixed[(best + 8) % 16] = true;
        assert_eq!(select(&scores(values), &mixed), Ok(best));
    }
}

#[test]
fn unique_maximum_wins_over_negative_and_infinite_scores() {
    let mut values = [f64::NEG_INFINITY; 16];
    values[2] = -3.0;
    values[9] = -0.5;
    values[11] = -0.0;
    assert_eq!(select(&scores(values), &[true; 16]), Ok(11));
    values[4] = f64::INFINITY;
    assert_eq!(select(&scores(values), &[true; 16]), Ok(4));
}

#[test]
fn illegal_maximum_gives_way_to_the_second_highest() {
    let mut values = [0.1; 16];
    values[6] = 0.8;
    values[12] = 0.7;
    assert_eq!(select(&scores(values), &all_but(6)), Ok(12));
}

#[test]
fn illegal_index_one_gives_way_to_index_zero() {
    let mut values = [0.1; 16];
    values[0] = 0.9;
    values[1] = 0.95;
    assert_eq!(select(&scores(values), &all_but(1)), Ok(0));
}

#[test]
fn strictly_decreasing_scores_all_legal_give_index_zero() {
    assert_eq!(select(&scores(descending()), &[true; 16]), Ok(0));
}

#[test]
fn strictly_increasing_scores_all_legal_give_the_last_index() {
    let mut values = descending();
    values.reverse();
    assert_eq!(select(&scores(values), &[true; 16]), Ok(15));
}

#[test]
fn equal_scores_with_one_legal_index_give_that_index() {
    for legal in 0..16 {
        assert_eq!(select(&scores([0.5; 16]), &only(legal)), Ok(legal));
    }
}

#[test]
fn equal_scores_give_the_lowest_legal_index() {
    let mut legal = [false; 16];
    legal[5] = true;
    legal[9] = true;
    legal[14] = true;
    assert_eq!(select(&scores([0.5; 16]), &legal), Ok(5));
    assert_eq!(select(&scores([0.5; 16]), &[true; 16]), Ok(0));
}

#[test]
fn the_two_zeros_are_equal_scores() {
    let mut values = [-1.0; 16];
    values[3] = 0.0;
    values[8] = -0.0;
    assert_eq!(select(&scores(values), &[true; 16]), Ok(3));
    values[3] = -0.0;
    values[8] = 0.0;
    assert_eq!(select(&scores(values), &[true; 16]), Ok(3));
}

#[test]
fn no_legal_index_is_no_valid_move() {
    assert_eq!(select(&scores(descending()), &[false; 16]), Err(SelectError::NoValidMove));
}

#[test]
fn a_nan_score_is_an_invalid_score() {
    for at in 0..16 {
        let mut values = descending();
        values[at] = f64::NAN;
        assert_eq!(
            select(&scores(values), &[true; 16]),
            Err(SelectError::InvalidScore { index: at })
        );
    }
}

#[test]
fn the_first_nan_score_is_reported() {
    let mut values = descending();
    values[13] = f64::NAN;
    values[4] = -f64::NAN;
    assert_eq!(select(&scores(values), &[true; 16]), Err(SelectError::InvalidScore { index: 4 }));
}

#[test]
fn a_nan_score_at_an_illegal_index_still_fails() {
    let mut values = descending();
    values[7] = f64::NAN;
    assert_eq!(select(&scores(values), &all_but(7)), Err(SelectError::InvalidScore { index: 7 }));
}

#[test]
fn a_nan_score_is_reported_before_the_lack_of_moves() {
    let mut values = descending();
    values[15] = f64::NAN;
    assert_eq!(
        select(&scores(values), &[false; 16]),
        Err(SelectError::InvalidScore { index: 15 })
    );
}

#[test]
fn first_nan_finds_the_first() {
    assert_eq!(first_nan(&scores(descending())), None);
    let mut values = descending();
    values[10] = f64::NAN;
    values[11] = f64::NAN;
    assert_eq!(first_nan(&scores(values)), Some(10));
}

#[test]
fn pair_keeps_index_order() {
    let values = scores(descending());
    let paired = pair(&values);
    for (index, candidate) in paired.iter().enumerate() {
        assert_eq!(candidate.index, index);
        assert_eq!(candidate.score.to_bits(), values[index].to_bits());
    }
}

#[test]
fn rank_orders_from_the_highest_down() {
    let mut values = [0.0; 16];
    for (index, value) in values.iter_mut().enumerate() {
        *value = ((index * 7) % 16) as f64 - 8.0;
    }
    let ranked = rank(&scores(values)).unwrap();
    let mut seen = [false; 16];
    for (place, candidate) in ranked.iter().enumerate() {
        assert_eq!(f64::from_bits(candidate.score.to_bits()), 7.0 - place as f64);
        assert_eq!(f64::from_bits(candidate.score.to_bits()), values[candidate.index]);
        assert!(!seen[candidate.index]);
        seen[candidate.index] = true;
    }
    assert_eq!(seen, [true; 16]);
}

#[test]
fn rank_breaks_ties_by_index() {
    let mut values = [1.0; 16];
    values[0] = 0.0;
    values[9] = 2.0;
    let ranked = rank(&scores(values)).unwrap();
    let order: Vec<usize> = ranked.iter().map(|candidate| candidate.index).collect();
    assert_eq!(order, vec![9, 1, 2, 3, 4, 5, 6, 7, 8, 10, 11, 12, 13, 14, 15, 0]);
}

#[test]
fn rank_refuses_nan() {
    let mut values = descending();
    values[2] = f64::NAN;
    assert_eq!(rank(&scores(values)).unwrap_err(), SelectError::InvalidScore { index: 2 });
}

#[test]
fn rank_agrees_with_a_sort_of_the_numbers() {
    let values = [
        0.3, -0.7, 12.5, 0.0, -0.0, 1e-9, 7.25, -1e9, 3.5, 0.31, 0.29, 99.0, -99.0, 0.5, 0.75, 2.0,
    ];
    let mut expected: Vec<(usize, f64)> = values.iter().copied().enumerate().collect();
    expected.sort_by(|(i, a), (j, b)| b.partial_cmp(a).unwrap().then(i.cmp(j)));
    let ranked = rank(&scores(values)).unwrap();
    let got: Vec<usize> = ranked.iter().map(|candidate| candidate.index).collect();
    let wanted: Vec<usize> = expected.iter().map(|(index, _)| *index).collect();
    assert_eq!(got, wanted);
}

#[test]
fn precedes_is_by_score_then_index() {
    let high = RankedCandidate { index: 9, score: Score::from_bits(0.9f64.to_bits()) };
    let low = RankedCandidate { index: 1, score: Score::from_bits(0.1f64.to_bits()) };
    let twin = RankedCandidate { index: 3, score: Score::from_bits(0.9f64.to_bits()) };
    assert!(high.precedes(low));
    assert!(!low.precedes(high));
    assert!(twin.precedes(high));
    assert!(!high.precedes(twin));
    assert!(!high.precedes(high));
}

#[test]
fn first_legal_takes_the_first_allowed_candidate() {
    let ranked = rank(&scores(descending())).unwrap();
    let mut legal = [false; 16];
    assert_eq!(first_legal(&ranked, &legal), None);
    legal[11] = true;
    legal[6] = true;
    assert_eq!(first_legal(&ranked, &legal), Some(6));
}

#[test]
fn first_legal_skips_an_index_past_the_row() {
    let zero = Score::from_bits(0);
    let mut ranked = [RankedCandidate { index: 16, score: zero }; 16];
    assert_eq!(first_legal(&ranked, &[true; 16]), None);
    ranked[15] = RankedCandidate { index: 2, score: zero };
    assert_eq!(first_legal(&ranked, &[true; 16]), Some(2));
}
