use arena::leaderboard::{update_leaderboard, Rank, LBOARD_MAX_LEN};

fn board(entries: &[(i32, &str)]) -> Vec<Rank> {
    entries.iter().map(|(s, a)| Rank { score: *s, address: a.as_bytes().to_vec() }).collect()
}

fn view(b: &[Rank]) -> Vec<(i32, String)> {
    b.iter().map(|r| (r.score, String::from_utf8(r.address.clone()).unwrap())).collect()
}

fn expect(b: &[Rank], entries: &[(i32, &str)]) {
    let want: Vec<(i32, String)> = entries.iter().map(|(s, a)| (*s, a.to_string())).collect();
    assert_eq!(view(b), want);
}

#[test]
fn rise_lands_above_equal_scores() {
    let mut b = board(&[(5, "A"), (3, "B"), (1, "C"), (0, "D")]);
    update_leaderboard(&mut b, b"D", 3, 3, LBOARD_MAX_LEN);
    expect(&b, &[(5, "A"), (3, "D"), (3, "B"), (1, "C")]);
    let mut b = board(&[(3, "A"), (2, "B")]);
    update_leaderboard(&mut b, b"B", 3, 1, LBOARD_MAX_LEN);
    expect(&b, &[(3, "B"), (3, "A")]);
}

#[test]
fn fall_lands_below_equal_scores() {
    let mut b = board(&[(5, "A"), (3, "B"), (3, "C")]);
    update_leaderboard(&mut b, b"A", 3, -2, LBOARD_MAX_LEN);
    expect(&b, &[(3, "B"), (3, "C"), (3, "A")]);
    update_leaderboard(&mut b, b"B", 2, -1, LBOARD_MAX_LEN);
    expect(&b, &[(3, "C"), (3, "A"), (2, "B")]);
}

#[test]
fn rise_to_top() {
    let mut b = board(&[(5, "A"), (3, "B"), (1, "C")]);
    update_leaderboard(&mut b, b"C", 8, 3, LBOARD_MAX_LEN);
    expect(&b, &[(8, "C"), (5, "A"), (3, "B")]);
}

#[test]
fn newcomers_follow_the_tie_rule() {
    let mut b = board(&[(0, "A")]);
    update_leaderboard(&mut b, b"B", -1, -1, LBOARD_MAX_LEN);
    expect(&b, &[(0, "A"), (-1, "B")]);
    update_leaderboard(&mut b, b"C", 0, 0, LBOARD_MAX_LEN);
    expect(&b, &[(0, "C"), (0, "A"), (-1, "B")]);
    update_leaderboard(&mut b, b"D", -1, -1, LBOARD_MAX_LEN);
    expect(&b, &[(0, "C"), (0, "A"), (-1, "B"), (-1, "D")]);
    update_leaderboard(&mut b, b"E", 3, 3, LBOARD_MAX_LEN);
    expect(&b, &[(3, "E"), (0, "C"), (0, "A"), (-1, "B"), (-1, "D")]);
    let mut b = board(&[(3, "A")]);
    update_leaderboard(&mut b, b"N", 3, 1, LBOARD_MAX_LEN);
    expect(&b, &[(3, "N"), (3, "A")]);
}

#[test]
fn unchanged_score_keeps_place() {
    let mut b = board(&[(5, "A"), (3, "B")]);
    update_leaderboard(&mut b, b"B", 3, 0, LBOARD_MAX_LEN);
    expect(&b, &[(5, "A"), (3, "B")]);
}

#[test]
fn full_board_keeps_twenty() {
    let names: Vec<String> = (0..20).map(|i| format!("p{:02}", i)).collect();
    let entries: Vec<(i32, &str)> = names.iter().enumerate().map(|(i, n)| (100 - i as i32, n.as_str())).collect();
    let mut b = board(&entries);
    update_leaderboard(&mut b, b"low", 80, 1, LBOARD_MAX_LEN);
    assert_eq!(b.len(), 20);
    assert!(b.iter().all(|r| r.address != b"low".to_vec()));
    update_leaderboard(&mut b, b"high", 1000, 3, LBOARD_MAX_LEN);
    assert_eq!(b.len(), 20);
    assert_eq!(b[0].address, b"high".to_vec());
    assert_eq!(b[19].address, b"p18".to_vec());
    // a newcomer dropping to the last score lands below it, past the end
    update_leaderboard(&mut b, b"drop", 82, -1, LBOARD_MAX_LEN);
    assert!(b.iter().all(|r| r.address != b"drop".to_vec()));
    // one rising to it lands above it and pushes it out
    update_leaderboard(&mut b, b"rise", 82, 1, LBOARD_MAX_LEN);
    assert_eq!(b.len(), 20);
    assert_eq!(b[19].address, b"rise".to_vec());
    assert!(b.iter().all(|r| r.address != b"p18".to_vec()));
}

#[test]
fn random_updates_keep_invariant() {
    let mut b: Vec<Rank> = Vec::new();
    let mut scores = vec![0i32; 40];
    let mut x: u64 = 12345;
    for _ in 0..5000 {
        x = x.wrapping_mul(6364136223846793005).wrapping_add(1442695040888963407);
        let p = ((x >> 33) % 40) as usize;
        let delta: i8 = match (x >> 20) % 4 {
            0 => 3,
            1 => 1,
            2 => 0,
            _ => -1,
        };
        scores[p] += delta as i32;
        let name = format!("p{}", p);
        update_leaderboard(&mut b, name.as_bytes(), scores[p], delta, LBOARD_MAX_LEN);
        assert!(b.len() <= LBOARD_MAX_LEN);
        for w in b.windows(2) {
            assert!(w[0].score >= w[1].score);
        }
        for i in 0..b.len() {
            for j in i + 1..b.len() {
                assert_ne!(b[i].address, b[j].address);
            }
        }
    }
}
