use arena::arena::{Arena, ArenaError, StoreContractInfo};
use arena::bullpen::Arrival;
use arena::rng::BlockEnv;
use arena::stats::{Stats, StorePlayerStats};

const CARDS: &[u8] = b"cards";

fn info(addr: &[u8]) -> StoreContractInfo {
    StoreContractInfo { code_hash: "hash".to_string(), address: addr.to_vec() }
}

fn fresh(seed: &[u8]) -> Arena {
    Arena::init(b"admin".to_vec(), seed, info(CARDS), 0)
}

fn send(a: &mut Arena, owner: &[u8], s: [u8; 4], h: u64) -> Arrival {
    a.try_receive(
        &BlockEnv { height: h, time: h, sender: CARDS.to_vec() },
        CARDS,
        owner,
        1,
        "t".into(),
        "n".into(),
        Some(vec![h as u8]),
        Some(Stats { base: s.to_vec(), current: s.to_vec() }),
    )
    .unwrap()
}

#[test]
fn export_import_round_trip() {
    let mut old = fresh(b"old");
    for h in 0..4u64 {
        send(&mut old, b"ann", [40, 40, 40, 40], h);
        send(&mut old, b"ben", [60, 20, 30, 40], h);
        assert_eq!(send(&mut old, b"cat", [20, 60, 40, 30], h), Arrival::Fought);
    }
    assert_eq!(old.try_export(b"admin").unwrap_err(), ArenaError::BattlesNotHalted);
    old.try_set_battle_status(b"admin", true).unwrap();
    assert_eq!(old.try_export(b"admin").unwrap_err(), ArenaError::ExportTargetNotSet);
    assert_eq!(old.try_export(b"someone").unwrap_err(), ArenaError::Unauthorized);
    old.try_set_export_to(b"admin", info(b"new-arena")).unwrap();

    let mut new = fresh(b"new");
    let batch = old.try_export(b"admin").unwrap();
    assert_eq!(new.try_import(b"old-arena", &batch.stats, batch.battle_count), Err(ArenaError::ImportSourceNotSet));
    new.try_set_import_from_addr(b"admin", b"old-arena").unwrap();
    assert_eq!(new.try_import(b"intruder", &batch.stats, batch.battle_count), Err(ArenaError::ImportSourceMismatch));
    assert!(batch.completed);
    assert_eq!(batch.battle_count, Some(4));
    assert_eq!(batch.stats.len(), 3);
    assert_eq!(old.export_config.as_ref().unwrap().next, 0);
    new.try_import(b"old-arena", &batch.stats, batch.battle_count).unwrap();

    for p in [&b"ann"[..], b"ben", b"cat"] {
        assert_eq!(new.all_time_of(p), old.all_time_of(p));
    }
    assert_eq!(new.players, old.players);
    assert_eq!(new.config.previous_battles, 4);
    assert_eq!(new.query_usage().previous_arena_battles, 4);
    assert_eq!(new.leaderboards.all_time.len(), 3);
    assert!(old.try_set_battle_status(b"admin", false).is_ok());
}

#[test]
fn export_walks_pages() {
    let mut old = fresh(b"old");
    let mut stats = Vec::new();
    for i in 0..300u32 {
        let s = StorePlayerStats { score: i as i32, battles: 1, wins: 1, ties: 0, third_in_two_way_ties: 0, losses: 0 };
        stats.push((format!("player{}", i).into_bytes(), s));
    }
    old.try_set_import_from_addr(b"admin", b"src").unwrap();
    old.try_import(b"src", &stats, Some(10)).unwrap();
    assert_eq!(old.players.len(), 300);
    assert_eq!(old.leaderboards.all_time.len(), 20);
    assert_eq!(old.leaderboards.all_time[0].score, 299);
    assert_eq!(old.try_export(b"admin").unwrap_err(), ArenaError::BattlesNotHalted);
    old.try_set_battle_status(b"admin", true).unwrap();
    old.try_set_export_to(b"admin", info(b"next")).unwrap();
    let first = old.try_export(b"admin").unwrap();
    assert_eq!(first.stats.len(), 256);
    assert_eq!(first.battle_count, None);
    assert!(!first.completed);
    assert_eq!(old.export_config.as_ref().unwrap().next, 1);
    assert_eq!(old.try_set_battle_status(b"admin", false).unwrap_err(), ArenaError::ExportInProgress);
    let second = old.try_export(b"admin").unwrap();
    assert_eq!(second.stats.len(), 44);
    assert_eq!(second.stats[0].0, b"player256".to_vec());
    assert_eq!(second.battle_count, Some(10));
    assert!(second.completed);
    assert!(old.try_set_battle_status(b"admin", false).is_ok());
}

#[test]
fn import_adds_to_existing_stats() {
    let mut a = fresh(b"x");
    a.try_set_import_from_addr(b"admin", b"src").unwrap();
    let s = StorePlayerStats { score: -2, battles: 3, wins: 0, ties: 1, third_in_two_way_ties: 0, losses: 2 };
    a.try_import(b"src", &vec![(b"p".to_vec(), s), (b"p".to_vec(), s)], None).unwrap();
    let got = a.all_time_of(b"p");
    assert_eq!(got, StorePlayerStats { score: -4, battles: 6, wins: 0, ties: 2, third_in_two_way_ties: 0, losses: 4 });
    assert_eq!(a.players.len(), 1);
    assert_eq!(a.config.previous_battles, 0);
}

#[test]
fn import_overflow_changes_nothing() {
    let mut a = fresh(b"x");
    a.try_set_import_from_addr(b"admin", b"src").unwrap();
    let ok = StorePlayerStats { score: 1, battles: 1, wins: 1, ties: 0, third_in_two_way_ties: 0, losses: 0 };
    let big = StorePlayerStats { score: 0, battles: u32::MAX, wins: 0, ties: 0, third_in_two_way_ties: 0, losses: 0 };
    let r = a.try_import(b"src", &vec![(b"q".to_vec(), ok), (b"p".to_vec(), big), (b"p".to_vec(), ok)], Some(3));
    assert_eq!(r, Err(ArenaError::CounterOverflow));
    assert!(a.players.is_empty());
    assert_eq!(a.all_time_of(b"q"), StorePlayerStats::default());
    assert_eq!(a.config.previous_battles, 0);
}

#[test]
fn export_with_no_players() {
    let mut a = fresh(b"x");
    a.try_set_battle_status(b"admin", true).unwrap();
    assert_eq!(a.try_export(b"admin").unwrap_err(), ArenaError::NoPlayers);
}
