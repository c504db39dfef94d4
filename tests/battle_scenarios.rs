use arena::battle::resolve;
use arena::leaderboard::{update_leaderboard, Rank, LBOARD_MAX_LEN};
use arena::stats::{Outcome, Stats, StorePlayerStats};

fn stats(base: [u8; 4], current: [u8; 4]) -> Stats {
    Stats { base: base.to_vec(), current: current.to_vec() }
}

fn adjust(k: u8) -> i8 {
    let table: [i8; 23] = [-2, -1, -1, -1, -1, -1, 0, 0, 0, 0, 0, 0, 0, 0, 0, 0, 0, 1, 1, 1, 1, 1, 2];
    table[(k % 23) as usize]
}

#[test]
fn decisive_battle_on_second_skill() {
    let a = stats([50, 50, 50, 50], [50, 50, 50, 50]);
    let b = stats([80, 10, 10, 10], [80, 10, 10, 10]);
    let c = stats([10, 80, 10, 10], [10, 80, 10, 10]);
    let rand = vec![0u8, 22, 17, 100];
    let r = resolve(&a, &b, &c, 1, &rand);
    assert_eq!(r.winner, Some(2));
    assert_eq!(r.winning_skill_value, 80);
    assert_eq!(r.outcomes, vec![Outcome::Loss, Outcome::Loss, Outcome::Win]);
    // power_diff = 2*110 - 310 = -90, so the base upgrade is 3
    let expected: Vec<u8> = c
        .current
        .iter()
        .zip(rand.iter())
        .map(|(u, r)| {
            let m = 3 + adjust(*r);
            if m > 0 {
                std::cmp::min(*u as i32 + m as i32, 100) as u8
            } else {
                *u
            }
        })
        .collect();
    assert_eq!(expected, vec![11, 85, 14, 13]);
    assert_eq!(r.post_skills[2], expected);
    // losers whose current skills equal their base are unchanged
    assert_eq!(r.post_skills[0], a.current);
    assert_eq!(r.post_skills[1], b.current);
}

#[test]
fn decisive_battle_scores_and_leaderboard() {
    let a = stats([50, 50, 50, 50], [50, 50, 50, 50]);
    let b = stats([80, 10, 10, 10], [80, 10, 10, 10]);
    let c = stats([10, 80, 10, 10], [10, 80, 10, 10]);
    let r = resolve(&a, &b, &c, 1, &vec![1, 2, 3, 4]);
    let mut board: Vec<Rank> = Vec::new();
    let owners: [&[u8]; 3] = [b"A", b"B", b"C"];
    let mut scores = Vec::new();
    for i in 0..3 {
        let s = StorePlayerStats::default().with_outcome(r.outcomes[i]).unwrap();
        scores.push(s.score);
        update_leaderboard(&mut board, owners[i], s.score, r.outcomes[i].delta(), LBOARD_MAX_LEN);
    }
    assert_eq!(scores, vec![-1, -1, 3]);
    let view: Vec<(i32, Vec<u8>)> = board.iter().map(|r| (r.score, r.address.clone())).collect();
    assert_eq!(
        view,
        vec![(3, b"C".to_vec()), (-1, b"A".to_vec()), (-1, b"B".to_vec())]
    );
}

#[test]
fn two_way_tie_gives_third() {
    let a = stats([20, 50, 30, 10], [20, 50, 30, 10]);
    let b = stats([30, 50, 20, 10], [30, 50, 20, 10]);
    let c = stats([90, 10, 90, 90], [90, 10, 90, 90]);
    let r = resolve(&a, &b, &c, 1, &vec![5, 6, 7, 8]);
    assert_eq!(r.winner, None);
    assert_eq!(r.outcomes, vec![Outcome::Tie, Outcome::Tie, Outcome::ThirdInTwoWayTie]);
    assert_eq!(r.post_skills[0], a.current);
    assert_eq!(r.post_skills[1], b.current);
    assert_eq!(r.post_skills[2], c.current);
    let deltas: Vec<i8> = r.outcomes.iter().map(|o| o.delta()).collect();
    assert_eq!(deltas, vec![1, 1, 0]);
    let third = StorePlayerStats::default().with_outcome(r.outcomes[2]).unwrap();
    assert_eq!(third.third_in_two_way_ties, 1);
    assert_eq!(third.score, 0);
    assert_eq!(third.battles, 1);
}

#[test]
fn three_way_tie() {
    let a = stats([40, 40, 40, 40], [40, 40, 40, 40]);
    let r = resolve(&a, &a.clone(), &a.clone(), 3, &vec![0, 0, 0, 0]);
    assert_eq!(r.winner, None);
    assert_eq!(r.outcomes, vec![Outcome::Tie, Outcome::Tie, Outcome::Tie]);
}

#[test]
fn tie_broken_by_skill_sum() {
    let a = stats([10, 60, 10, 10], [10, 60, 10, 10]);
    let b = stats([50, 60, 50, 50], [50, 60, 50, 50]);
    let c = stats([10, 20, 10, 10], [10, 20, 10, 10]);
    let r = resolve(&a, &b, &c, 1, &vec![0, 0, 0, 0]);
    assert_eq!(r.winner, Some(1));
    assert_eq!(r.outcomes, vec![Outcome::Loss, Outcome::Win, Outcome::Loss]);
}

#[test]
fn loser_regresses_toward_base() {
    let a = stats([10, 10, 10, 10], [21, 30, 10, 11]);
    let b = stats([90, 90, 90, 90], [90, 90, 90, 90]);
    let c = stats([1, 1, 1, 1], [1, 1, 1, 1]);
    let r = resolve(&a, &b, &c, 0, &vec![0, 0, 0, 0]);
    assert_eq!(r.winner, Some(1));
    assert_eq!(r.post_skills[0], vec![16, 20, 10, 11]);
}

#[test]
fn winner_skills_capped_at_hundred() {
    let a = stats([1, 1, 1, 1], [1, 1, 1, 1]);
    let b = stats([99, 100, 98, 97], [99, 100, 98, 97]);
    let c = stats([1, 1, 1, 1], [1, 1, 1, 1]);
    // power_diff = 2*394 - 8 = 780: base upgrade -1, so only the +2 entry raises a skill
    let r = resolve(&a, &b, &c, 0, &vec![22, 22, 22, 0]);
    assert_eq!(r.post_skills[1], vec![100, 100, 99, 97]);
}
