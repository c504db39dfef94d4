use arena::arena::{Arena, ArenaError, StoreContractInfo};
use arena::battle::{group_by_version, StoreBattle};
use arena::bullpen::Arrival;
use arena::rng::BlockEnv;
use arena::stats::{Outcome, Stats, StorePlayerStats};
use arena::viewing_key::ViewingKey;

const CARDS: &[u8] = b"cards";

fn card() -> StoreContractInfo {
    StoreContractInfo { code_hash: "hash".to_string(), address: CARDS.to_vec() }
}

fn env(sender: &[u8], height: u64) -> BlockEnv {
    BlockEnv { height, time: 1_000 + height, sender: sender.to_vec() }
}

fn fresh() -> Arena {
    Arena::init(b"admin".to_vec(), b"seed entropy", card(), 500)
}

fn skills(v: [u8; 4]) -> Option<Stats> {
    Some(Stats { base: v.to_vec(), current: v.to_vec() })
}

fn send(a: &mut Arena, owner: &[u8], s: [u8; 4], h: u64) -> Result<Arrival, ArenaError> {
    a.try_receive(
        &env(CARDS, h),
        CARDS,
        owner,
        1,
        format!("token-{}", String::from_utf8_lossy(owner)),
        format!("hero-{}", String::from_utf8_lossy(owner)),
        Some(b"secret".to_vec()),
        skills(s),
    )
}

fn fight_once(a: &mut Arena, h: u64) -> StoreBattle {
    assert_eq!(send(a, b"alice", [50, 50, 50, 50], h), Ok(Arrival::Waiting));
    assert_eq!(send(a, b"bob", [80, 10, 10, 10], h), Ok(Arrival::Waiting));
    assert_eq!(send(a, b"carol", [10, 80, 10, 10], h), Ok(Arrival::Fought));
    a.history.last().unwrap().clone()
}

#[test]
fn first_arrivals_wait_and_entropy_accumulates() {
    let mut a = fresh();
    assert_eq!(send(&mut a, b"alice", [50, 50, 50, 50], 1), Ok(Arrival::Waiting));
    assert_eq!(a.config.heroes.len(), 1);
    assert_eq!(a.config.entropy, b"c2VjcmV0".to_vec());
    assert_eq!(a.players, vec![b"alice".to_vec()]);
    assert_eq!(send(&mut a, b"bob", [80, 10, 10, 10], 1), Ok(Arrival::Waiting));
    assert_eq!(a.config.entropy, b"c2VjcmV0c2VjcmV0".to_vec());
    assert_eq!(a.query_usage().player_count, 2);
}

#[test]
fn third_arrival_fights_and_records() {
    let mut a = fresh();
    let seed_before = a.config.prng_seed.clone();
    let b = fight_once(&mut a, 7);
    assert_eq!(b.battle_number, 0);
    assert_eq!(b.timestamp, 1_007);
    assert_eq!(b.heroes.len(), 3);
    assert!(b.skill_used < 4);
    assert_eq!(a.config.battle_cnt, 1);
    assert!(a.config.heroes.is_empty());
    assert!(a.config.entropy.is_empty());
    assert_ne!(a.config.prng_seed, seed_before);
    assert_eq!(a.config.prng_seed.len(), 32);
    let owners: Vec<&[u8]> = vec![b"alice", b"bob", b"carol"];
    let mut battles = 0;
    let mut score_sum = 0;
    for (i, o) in owners.iter().enumerate() {
        assert_eq!(b.heroes[i].owner, o.to_vec());
        let s = a.all_time_of(o);
        battles += s.battles;
        score_sum += s.score;
        assert_eq!(s.wins + s.ties + s.third_in_two_way_ties + s.losses, 1);
        assert_eq!(a.tourney_of(o), s);
    }
    assert_eq!(battles, 3);
    // one win and two losses, or a tie: +3-1-1, +1+1+0 or +1+1+1
    assert!(score_sum == 1 || score_sum == 2 || score_sum == 3);
    assert_eq!(a.leaderboards.all_time.len(), 3);
    assert_eq!(a.leaderboards.tourney.leaderboard.len(), 3);
}

#[test]
fn same_inputs_same_battle() {
    let mut a1 = fresh();
    let mut a2 = fresh();
    let b1 = fight_once(&mut a1, 3);
    let b2 = fight_once(&mut a2, 3);
    assert_eq!(b1.skill_used, b2.skill_used);
    assert_eq!(b1.winner, b2.winner);
    for i in 0..3 {
        assert_eq!(b1.heroes[i].post_battle_skills, b2.heroes[i].post_battle_skills);
    }
    assert_eq!(a1.config.prng_seed, a2.config.prng_seed);
}

#[test]
fn bots_are_not_counted() {
    let mut a = fresh();
    a.try_add_bots(b"admin", &vec![b"bob".to_vec()]).unwrap();
    fight_once(&mut a, 2);
    assert_eq!(a.all_time_of(b"bob"), StorePlayerStats::default());
    assert_eq!(a.all_time_of(b"alice").battles, 1);
    assert!(a.leaderboards.all_time.iter().all(|r| r.address != b"bob".to_vec()));
}

#[test]
fn arrival_errors() {
    let mut a = fresh();
    let e = env(CARDS, 1);
    let r = a.try_receive(&e, CARDS, b"x", 2, "t".into(), "n".into(), Some(vec![1]), skills([5, 5, 5, 5]));
    assert_eq!(r, Err(ArenaError::WrongTokenCount));
    let r = a.try_receive(&e, b"other", b"x", 1, "t".into(), "n".into(), Some(vec![1]), skills([5, 5, 5, 5]));
    assert_eq!(r, Err(ArenaError::UnknownCardContract));
    let r = a.try_receive(&e, CARDS, b"x", 1, "t".into(), "n".into(), None, skills([5, 5, 5, 5]));
    assert_eq!(r, Err(ArenaError::MissingEntropy));
    let r = a.try_receive(&e, CARDS, b"x", 1, "t".into(), "n".into(), Some(vec![1]), None);
    assert_eq!(r, Err(ArenaError::MissingStats));
    let bad = Some(Stats { base: vec![10, 10, 10, 10], current: vec![5, 10, 10, 10] });
    let r = a.try_receive(&e, CARDS, b"x", 1, "t".into(), "n".into(), Some(vec![1]), bad);
    assert_eq!(r, Err(ArenaError::InvalidStats));
    let short = Some(Stats { base: vec![10, 10, 10], current: vec![10, 10, 10] });
    let r = a.try_receive(&e, CARDS, b"x", 1, "t".into(), "n".into(), Some(vec![1]), short);
    assert_eq!(r, Err(ArenaError::InvalidStats));
    assert_eq!(send(&mut a, b"x", [5, 5, 5, 5], 1), Ok(Arrival::Waiting));
    assert_eq!(send(&mut a, b"x", [5, 5, 5, 5], 1), Err(ArenaError::AlreadyInBullpen));
    assert_eq!(a.config.heroes.len(), 1);
    a.try_set_battle_status(b"admin", true).unwrap();
    assert_eq!(send(&mut a, b"y", [5, 5, 5, 5], 1), Err(ArenaError::BattlesHalted));
}

#[test]
fn chicken_out_returns_hero() {
    let mut a = fresh();
    send(&mut a, b"alice", [50, 50, 50, 50], 1).unwrap();
    send(&mut a, b"bob", [50, 50, 50, 50], 1).unwrap();
    let h = a.try_chicken(b"alice").unwrap();
    assert_eq!(h.owner, b"alice".to_vec());
    assert_eq!(h.name, "hero-alice");
    assert_eq!(a.config.heroes.len(), 1);
    assert_eq!(a.config.heroes[0].owner, b"bob".to_vec());
    assert_eq!(a.try_chicken(b"alice").unwrap_err(), ArenaError::NotInBullpen);
}

#[test]
fn halting_returns_waiting_heroes() {
    let mut a = fresh();
    send(&mut a, b"alice", [50, 50, 50, 50], 1).unwrap();
    assert_eq!(a.try_set_battle_status(b"mallory", true).unwrap_err(), ArenaError::Unauthorized);
    let back = a.try_set_battle_status(b"admin", true).unwrap();
    assert_eq!(back.len(), 1);
    assert!(a.config.fight_halt);
    assert!(a.config.heroes.is_empty());
    assert!(a.try_set_battle_status(b"admin", true).unwrap().is_empty());
    assert!(a.try_set_battle_status(b"admin", false).unwrap().is_empty());
    assert!(!a.config.fight_halt);
}

#[test]
fn admin_commands_need_admin() {
    let mut a = fresh();
    assert_eq!(a.try_change_admin(b"mallory", b"mallory"), Err(ArenaError::Unauthorized));
    assert_eq!(a.try_add_bots(b"mallory", &vec![]), Err(ArenaError::Unauthorized));
    assert_eq!(a.try_remove_bots(b"mallory", &vec![]), Err(ArenaError::Unauthorized));
    assert_eq!(a.try_reset_leaderboard(b"mallory", 9), Err(ArenaError::Unauthorized));
    assert_eq!(a.try_set_import_from_addr(b"mallory", b"old"), Err(ArenaError::Unauthorized));
    assert_eq!(a.try_set_export_to(b"mallory", card()), Err(ArenaError::Unauthorized));
    assert_eq!(a.try_add_card_contract(b"mallory", card()), Err(ArenaError::Unauthorized));
    assert_eq!(a.try_change_admin(b"admin", b"root"), Ok(()));
    assert_eq!(a.admin, b"root".to_vec());
    assert_eq!(a.try_add_bots(b"admin", &vec![]), Err(ArenaError::Unauthorized));
}

#[test]
fn bots_add_and_remove() {
    let mut a = fresh();
    a.try_add_bots(b"admin", &vec![b"b1".to_vec(), b"b2".to_vec(), b"b1".to_vec()]).unwrap();
    assert_eq!(a.bots, vec![b"b1".to_vec(), b"b2".to_vec()]);
    a.try_remove_bots(b"admin", &vec![b"b1".to_vec(), b"zz".to_vec()]).unwrap();
    assert_eq!(a.bots, vec![b"b2".to_vec()]);
}

#[test]
fn card_contracts_added_once() {
    let mut a = fresh();
    assert_eq!(a.try_add_card_contract(b"admin", card()), Ok(false));
    let second = StoreContractInfo { code_hash: "h2".into(), address: b"cards2".to_vec() };
    assert_eq!(a.try_add_card_contract(b"admin", second), Ok(true));
    assert_eq!(a.config.card_versions.len(), 2);
    let r = a.try_receive(&env(b"cards2", 1), b"cards2", b"z", 1, "t".into(), "n".into(), Some(vec![1]), skills([9, 9, 9, 9]));
    assert_eq!(r, Ok(Arrival::Waiting));
    assert_eq!(a.config.heroes[0].token_info.version, 1);
    for i in 2..256 {
        let c = StoreContractInfo { code_hash: "h".into(), address: format!("c{}", i).into_bytes() };
        assert_eq!(a.try_add_card_contract(b"admin", c), Ok(true));
    }
    let c = StoreContractInfo { code_hash: "h".into(), address: b"one-too-many".to_vec() };
    assert_eq!(a.try_add_card_contract(b"admin", c), Err(ArenaError::TooManyCardContracts));
}

#[test]
fn tournament_reset_zeroes_tournament_stats() {
    let mut a = fresh();
    fight_once(&mut a, 1);
    assert_eq!(a.tourney_of(b"alice").battles, 1);
    a.try_reset_leaderboard(b"admin", 5_000).unwrap();
    assert_eq!(a.tourney_of(b"alice"), StorePlayerStats::default());
    assert!(a.leaderboards.tourney.leaderboard.is_empty());
    assert_eq!(a.all_time_of(b"alice").battles, 1);
    assert_eq!(a.leaderboards.all_time.len(), 3);
}

#[test]
fn viewing_keys_guard_queries() {
    let mut a = fresh();
    fight_once(&mut a, 1);
    assert_eq!(a.query_player_stats(b"alice", "nope".into()).unwrap_err(), ArenaError::WrongViewingKey);
    a.try_set_key(b"alice", &ViewingKey("pw".to_string()));
    let (t, all) = a.query_player_stats(b"alice", "pw".into()).unwrap();
    assert_eq!(all.battles, 1);
    assert_eq!(t, all);
    let k = a.try_create_key(&env(b"bob", 3), b"bob", b"more entropy");
    assert_eq!(k.0.len(), 44);
    assert!(a.check_key(b"bob", k.0.clone()).is_ok());
    assert_eq!(a.check_key(b"bob", "pw".into()), Err(ArenaError::WrongViewingKey));
    let hist = a.query_history(b"bob", k.0.clone(), 0, 30).unwrap();
    assert_eq!(hist, vec![0]);
    assert!(a.query_history(b"bob", k.0.clone(), 1, 30).unwrap().is_empty());
    let (pos, _) = a.history[0].hero_of(b"bob").unwrap();
    assert_eq!(pos, 1);
    assert_eq!(a.history[0].hero_of(b"nobody"), Err(ArenaError::CorruptHistory));
    let (n, mine) = a.query_bullpen(b"bob", k.0.clone()).unwrap();
    assert_eq!((n, mine), (0, None));
}

#[test]
fn battle_history_pages_most_recent_first() {
    let mut a = fresh();
    for h in 0..5 {
        fight_once(&mut a, h);
    }
    a.try_set_key(b"carol", &ViewingKey("k".into()));
    assert_eq!(a.query_history(b"carol", "k".into(), 0, 2).unwrap(), vec![4, 3]);
    assert_eq!(a.query_history(b"carol", "k".into(), 1, 2).unwrap(), vec![2, 1]);
    assert_eq!(a.query_history(b"carol", "k".into(), 2, 2).unwrap(), vec![0]);
}

#[test]
fn admin_dumps() {
    let mut a = fresh();
    fight_once(&mut a, 1);
    fight_once(&mut a, 2);
    a.try_set_key(b"admin", &ViewingKey("adm".into()));
    assert_eq!(a.query_dump_stats(b"alice", "adm".into(), None, None).unwrap_err(), ArenaError::Unauthorized);
    assert_eq!(a.query_dump_stats(b"admin", "bad".into(), None, None).unwrap_err(), ArenaError::WrongViewingKey);
    let d = a.query_dump_stats(b"admin", "adm".into(), Some(1), Some(5)).unwrap();
    assert_eq!(d.len(), 2);
    assert_eq!(d[0].0, 1);
    assert_eq!(d[0].1, b"bob".to_vec());
    assert_eq!(d[0].2.battles, 2);
    assert!(a.query_dump_stats(b"admin", "adm".into(), Some(9), None).unwrap().is_empty());
    assert_eq!(a.query_dump_history(b"admin", "adm".into(), None, None), Ok((0, 2)));
    assert_eq!(a.query_dump_history(b"admin", "adm".into(), Some(1), Some(10)), Ok((1, 2)));
    let leaders = a.all_time_leaders();
    assert_eq!(leaders.len(), 3);
    assert_eq!(a.query_tournament().len(), 3);
    let both = a.query_leaderboards();
    assert_eq!(both.tournament_started, 500);
    assert_eq!(both.all_time.len(), 3);
    assert_eq!(both.tournament.len(), 3);
    assert!(leaders[0].1.score >= leaders[1].1.score && leaders[1].1.score >= leaders[2].1.score);
}

#[test]
fn transfers_grouped_by_version() {
    let g = group_by_version(&vec![2, 0, 2, 1, 0]);
    let view: Vec<(u8, Vec<usize>)> = g.iter().map(|t| (t.version, t.heroes.clone())).collect();
    assert_eq!(view, vec![(2, vec![0, 2]), (0, vec![1, 4]), (1, vec![3])]);
    assert!(group_by_version(&vec![]).is_empty());
}

#[test]
fn outcome_deltas() {
    assert_eq!(Outcome::Win.delta(), 3);
    assert_eq!(Outcome::Tie.delta(), 1);
    assert_eq!(Outcome::ThirdInTwoWayTie.delta(), 0);
    assert_eq!(Outcome::Loss.delta(), -1);
    let full = StorePlayerStats { score: i32::MAX, battles: 0, wins: 0, ties: 0, third_in_two_way_ties: 0, losses: 0 };
    assert_eq!(full.with_outcome(Outcome::Win), None);
    assert_eq!(full.with_outcome(Outcome::ThirdInTwoWayTie).unwrap().score, i32::MAX);
}

#[test]
fn changed_heroes_lists_rewritten_cards() {
    let mut a = fresh();
    let b = fight_once(&mut a, 4);
    let want: Vec<usize> = (0..3)
        .filter(|i| b.heroes[*i].pre_battle_skills != b.heroes[*i].post_battle_skills)
        .collect();
    assert_eq!(b.changed_heroes(), want);
    assert_eq!(b.heroes[2].token_info.version, 0);
    let mut tied = b.clone();
    for h in tied.heroes.iter_mut() {
        h.post_battle_skills = h.pre_battle_skills.clone();
    }
    assert!(tied.changed_heroes().is_empty());
    tied.heroes[1].post_battle_skills[0] += 1;
    assert_eq!(tied.changed_heroes(), vec![1]);
}
