//! Viewing keys and the arena's read surface.
use vstd::prelude::*;

use crate::arena::{Arena, ArenaError, BLOCK_SIZE};
use crate::battle::StoreBattle;
use crate::bullpen::{stats_or_zero, tourney_entry};
use crate::bytes::{bytes_eq, copy_bytes};
use crate::leaderboard::Rank;
use crate::rng::{rand_block, BlockEnv};
use crate::stats::{current_tourney, tourney_stats_since, StorePlayerStats, TourneyStats};
use crate::viewing_key::{hashed_key, ViewingKey, VIEWING_KEY_SIZE};

verus! {

/// Number of entries a leaderboard view shows.
pub const LEADERBOARD_VIEW_LEN: usize = 10;

/// Default number of entries an administrator dump shows.
pub const DUMP_DEFAULT_LIMIT: u32 = 256;

/// The stored hashed key of `a`, or 32 zero bytes where it set none.
pub open spec fn stored_key(m: Map<Seq<u8>, Vec<u8>>, a: Seq<u8>) -> Seq<u8> {
    if m.contains_key(a) {
        m[a]@
    } else {
        Seq::new(32, |i: int| 0u8)
    }
}

/// The top of both leaderboards.
#[derive(Debug)]
pub struct LeaderboardsView {
    /// when the tournament started
    pub tournament_started: u64,
    /// top of the tournament leaderboard, with tournament stats
    pub tournament: Vec<(Vec<u8>, StorePlayerStats)>,
    /// top of the all-time leaderboard, with all-time stats
    pub all_time: Vec<(Vec<u8>, StorePlayerStats)>,
}

/// Usage counters: registered players, battles here, battles carried over.
#[derive(Debug)]
pub struct Usage {
    /// number of registered players
    pub player_count: u32,
    /// battles fought in this arena
    pub arena_battle_count: u64,
    /// battles fought in earlier arenas
    pub previous_arena_battles: u64,
}

impl Arena {
    /// Sets `address`'s viewing key to `key`; only its hash is kept.
    pub fn try_set_key(&mut self, address: &[u8], key: &ViewingKey)
        requires
            old(self).wf(),
        ensures
            final(self).wf(),
            final(self).viewing_keys.view_map()[address@]@ == hashed_key(key.0@),
            final(self).viewing_keys.view_map().dom() == old(self).viewing_keys.view_map().dom().insert(address@),
            forall|a: Seq<u8>|
                a != address@ && old(self).viewing_keys.view_map().contains_key(a)
                    ==> final(self).viewing_keys.view_map()[a] == old(self).viewing_keys.view_map()[a],
            crate::arena::same_ledger(*final(self), *old(self)),
            final(self).config == old(self).config,
    {
        let hashed = key.to_hashed();
        self.viewing_keys.set(address, hashed);
    }

    /// Creates a viewing key for `address` from the arena's seed, `entropy`
    /// and `env`, sets it and returns it.
    pub fn try_create_key(&mut self, env: &BlockEnv, address: &[u8], entropy: &[u8]) -> (r: ViewingKey)
        requires
            old(self).wf(),
        ensures
            final(self).wf(),
            vstd::utf8::encode_utf8(r.0@) == crate::rng::base64_of(
                crate::rng::sha256_of(
                    rand_block(old(self).config.prng_seed@, env.height, env.time, env.sender@, entropy@),
                ),
            ),
            final(self).viewing_keys.view_map()[address@]@ == hashed_key(r.0@),
            crate::arena::same_ledger(*final(self), *old(self)),
            final(self).config == old(self).config,
    {
        let key = ViewingKey::new(env, self.config.prng_seed.as_slice(), entropy);
        self.try_set_key(address, &key);
        key
    }

    /// Checks `key` against the key `address` set.
    pub fn check_key(&self, address: &[u8], key: String) -> (r: Result<(), ArenaError>)
        requires
            self.wf(),
        ensures
            r is Ok <==> hashed_key(key@) == stored_key(self.viewing_keys.view_map(), address@),
            r is Err ==> r == Err::<(), ArenaError>(ArenaError::WrongViewingKey),
    {
        let input = ViewingKey(key);
        let ok = match self.viewing_keys.find(address) {
            Some(i) => input.check_viewing_key(self.viewing_keys.entries[i].1.as_slice()),
            None => {
                let zeros: Vec<u8> = vec![0u8; VIEWING_KEY_SIZE];
                assert(zeros@ =~= Seq::new(32, |i: int| 0u8));
                input.check_viewing_key(zeros.as_slice())
            },
        };
        if ok {
            Ok(())
        } else {
            Err(ArenaError::WrongViewingKey)
        }
    }

    /// Returns `address`'s tournament and all-time stats, after checking its key.
    pub fn query_player_stats(&self, address: &[u8], key: String) -> (r: Result<
        (StorePlayerStats, StorePlayerStats),
        ArenaError,
    >)
        requires
            self.wf(),
        ensures
            hashed_key(key@) != stored_key(self.viewing_keys.view_map(), address@) ==> r == Err::<
                (StorePlayerStats, StorePlayerStats),
                ArenaError,
            >(ArenaError::WrongViewingKey),
            hashed_key(key@) == stored_key(self.viewing_keys.view_map(), address@) ==> r == Ok::<
                (StorePlayerStats, StorePlayerStats),
                ArenaError,
            >(
                (
                    current_tourney(
                        tourney_entry(self.tourney_stats.view_map(), address@),
                        self.leaderboards.tourney.start,
                    ),
                    stats_or_zero(self.all_stats.view_map(), address@),
                ),
            ),
    {
        match self.check_key(address, key) {
            Ok(()) => {},
            Err(e) => return Err(e),
        }
        Ok((self.tourney_of(address), self.all_time_of(address)))
    }

    /// Returns `address`'s all-time stats, zero where it has none.
    pub fn all_time_of(&self, address: &[u8]) -> (r: StorePlayerStats)
        requires
            self.wf(),
        ensures
            r == stats_or_zero(self.all_stats.view_map(), address@),
    {
        match self.all_stats.find(address) {
            Some(i) => self.all_stats.entries[i].1,
            None => StorePlayerStats::default(),
        }
    }

    /// Returns `address`'s stats for the current tournament, zero where it
    /// has not fought since the tournament started.
    pub fn tourney_of(&self, address: &[u8]) -> (r: StorePlayerStats)
        requires
            self.wf(),
        ensures
            r == current_tourney(
                tourney_entry(self.tourney_stats.view_map(), address@),
                self.leaderboards.tourney.start,
            ),
    {
        let entry: Option<TourneyStats> = match self.tourney_stats.find(address) {
            Some(i) => Some(self.tourney_stats.entries[i].1),
            None => None,
        };
        tourney_stats_since(entry, self.leaderboards.tourney.start)
    }

    /// Returns the top ten of the all-time leaderboard, each with its stats.
    pub fn all_time_leaders(&self) -> (r: Vec<(Vec<u8>, StorePlayerStats)>)
        requires
            self.wf(),
        ensures
            r@.len() == if self.leaderboards.all_time@.len() < 10 {
                self.leaderboards.all_time@.len() as int
            } else {
                10
            },
            forall|i: int|
                0 <= i < r@.len() ==> (#[trigger] r@[i]).0@ == self.leaderboards.all_time@[i].address@
                    && r@[i].1 == stats_or_zero(self.all_stats.view_map(), self.leaderboards.all_time@[i].address@),
    {
        let board = &self.leaderboards.all_time;
        let mut out: Vec<(Vec<u8>, StorePlayerStats)> = Vec::new();
        let mut i: usize = 0;
        while i < board.len() && i < LEADERBOARD_VIEW_LEN
            invariant
                self.wf(),
                board == &self.leaderboards.all_time,
                i <= board@.len(),
                i <= 10,
                out@.len() == i,
                forall|j: int|
                    0 <= j < i ==> (#[trigger] out@[j]).0@ == board@[j].address@ && out@[j].1
                        == stats_or_zero(self.all_stats.view_map(), board@[j].address@),
            decreases board@.len() - i,
        {
            let a = board[i].address.as_slice();
            out.push((copy_bytes(a), self.all_time_of(a)));
            i = i + 1;
        }
        out
    }

    /// Returns the top ten of the tournament leaderboard, each with its
    /// tournament stats.
    pub fn query_tournament(&self) -> (r: Vec<(Vec<u8>, StorePlayerStats)>)
        requires
            self.wf(),
        ensures
            r@.len() == if self.leaderboards.tourney.leaderboard@.len() < 10 {
                self.leaderboards.tourney.leaderboard@.len() as int
            } else {
                10
            },
            forall|i: int|
                0 <= i < r@.len() ==> (#[trigger] r@[i]).0@ == self.leaderboards.tourney.leaderboard@[i].address@
                    && r@[i].1 == current_tourney(
                    tourney_entry(
                        self.tourney_stats.view_map(),
                        self.leaderboards.tourney.leaderboard@[i].address@,
                    ),
                    self.leaderboards.tourney.start,
                ),
    {
        let board = &self.leaderboards.tourney.leaderboard;
        let mut out: Vec<(Vec<u8>, StorePlayerStats)> = Vec::new();
        let mut i: usize = 0;
        while i < board.len() && i < LEADERBOARD_VIEW_LEN
            invariant
                self.wf(),
                board == &self.leaderboards.tourney.leaderboard,
                i <= board@.len(),
                i <= 10,
                out@.len() == i,
                forall|j: int|
                    0 <= j < i ==> (#[trigger] out@[j]).0@ == board@[j].address@ && out@[j].1
                        == current_tourney(
                        tourney_entry(self.tourney_stats.view_map(), board@[j].address@),
                        self.leaderboards.tourney.start,
                    ),
            decreases board@.len() - i,
        {
            let a = board[i].address.as_slice();
            out.push((copy_bytes(a), self.tourney_of(a)));
            i = i + 1;
        }
        out
    }

    /// Returns when the tournament started, and the top ten of the tournament
    /// and all-time leaderboards, each player with its stats.
    pub fn query_leaderboards(&self) -> (r: LeaderboardsView)
        requires
            self.wf(),
        ensures
            r.tournament_started == self.leaderboards.tourney.start,
            r.tournament@.len() == if self.leaderboards.tourney.leaderboard@.len() < 10 {
                self.leaderboards.tourney.leaderboard@.len() as int
            } else {
                10
            },
            forall|i: int|
                0 <= i < r.tournament@.len() ==> (#[trigger] r.tournament@[i]).0@
                    == self.leaderboards.tourney.leaderboard@[i].address@ && r.tournament@[i].1
                    == current_tourney(
                    tourney_entry(
                        self.tourney_stats.view_map(),
                        self.leaderboards.tourney.leaderboard@[i].address@,
                    ),
                    self.leaderboards.tourney.start,
                ),
            r.all_time@.len() == if self.leaderboards.all_time@.len() < 10 {
                self.leaderboards.all_time@.len() as int
            } else {
                10
            },
            forall|i: int|
                0 <= i < r.all_time@.len() ==> (#[trigger] r.all_time@[i]).0@
                    == self.leaderboards.all_time@[i].address@ && r.all_time@[i].1 == stats_or_zero(
                    self.all_stats.view_map(),
                    self.leaderboards.all_time@[i].address@,
                ),
    {
        LeaderboardsView {
            tournament_started: self.leaderboards.tourney.start,
            tournament: self.query_tournament(),
            all_time: self.all_time_leaders(),
        }
    }

    /// Returns the usage counters.
    pub fn query_usage(&self) -> (r: Usage)
        requires
            self.wf(),
        ensures
            r.player_count == self.players@.len(),
            r.arena_battle_count == self.config.battle_cnt,
            r.previous_arena_battles == self.config.previous_battles,
    {
        Usage {
            player_count: self.players.len() as u32,
            arena_battle_count: self.config.battle_cnt,
            previous_arena_battles: self.config.previous_battles,
        }
    }

    /// Checks that `admin` is the administrator and `key` its viewing key.
    pub fn check_admin_key(&self, admin: &[u8], key: String) -> (r: Result<(), ArenaError>)
        requires
            self.wf(),
        ensures
            admin@ != self.admin@ ==> r == Err::<(), ArenaError>(ArenaError::Unauthorized),
            admin@ == self.admin@ ==> (r is Ok <==> hashed_key(key@) == stored_key(
                self.viewing_keys.view_map(),
                admin@,
            )),
            admin@ == self.admin@ && r is Err ==> r == Err::<(), ArenaError>(ArenaError::WrongViewingKey),
    {
        if !self.is_admin(admin) {
            return Err(ArenaError::Unauthorized);
        }
        self.check_key(admin, key)
    }

    /// Returns the export cursor and the last registry page, where an export
    /// target is set; administrator only.
    pub fn query_export_status(&self, admin: &[u8], key: String) -> (r: Result<(Option<u32>, Option<u32>), ArenaError>)
        requires
            self.wf(),
        ensures
            r is Err <==> admin@ != self.admin@ || hashed_key(key@) != stored_key(
                self.viewing_keys.view_map(),
                admin@,
            ),
            r is Ok ==> match self.export_config {
                Some(e) => r->Ok_0 == (
                    Some(e.next),
                    Some(
                        (if self.players@.len() == 0 {
                            0
                        } else {
                            (self.players@.len() - 1) / (BLOCK_SIZE as int)
                        }) as u32,
                    ),
                ),
                None => r->Ok_0 == (None::<u32>, None::<u32>),
            },
    {
        match self.check_admin_key(admin, key) {
            Ok(()) => {},
            Err(e) => return Err(e),
        }
        match &self.export_config {
            Some(e) => {
                let n = self.players.len() as u32;
                let last = if n == 0 {
                    0
                } else {
                    (n - 1) / (BLOCK_SIZE as u32)
                };
                Ok((Some(e.next), Some(last)))
            },
            None => Ok((None, None)),
        }
    }

    /// Returns how many heroes wait in the bullpen and the index of
    /// `address`'s hero among them, if it has one there.
    pub fn query_bullpen(&self, address: &[u8], key: String) -> (r: Result<(u8, Option<usize>), ArenaError>)
        requires
            self.wf(),
        ensures
            r is Err <==> hashed_key(key@) != stored_key(self.viewing_keys.view_map(), address@),
            r is Ok ==> r->Ok_0.0 == self.config.heroes@.len(),
            r is Ok ==> match r->Ok_0.1 {
                Some(i) => i < self.config.heroes@.len() && self.config.heroes@[i as int].owner@
                    == address@,
                None => forall|i: int|
                    0 <= i < self.config.heroes@.len() ==> (#[trigger] self.config.heroes@[i]).owner@
                        != address@,
            },
    {
        match self.check_key(address, key) {
            Ok(()) => {},
            Err(e) => return Err(e),
        }
        let mut i: usize = 0;
        while i < self.config.heroes.len()
            invariant
                self.wf(),
                hashed_key(key@) == stored_key(self.viewing_keys.view_map(), address@),
                i <= self.config.heroes@.len(),
                forall|j: int| 0 <= j < i ==> (#[trigger] self.config.heroes@[j]).owner@ != address@,
            decreases self.config.heroes@.len() - i,
        {
            if bytes_eq(self.config.heroes[i].owner.as_slice(), address) {
                return Ok((self.config.heroes.len() as u8, Some(i)));
            }
            i = i + 1;
        }
        Ok((self.config.heroes.len() as u8, None))
    }

    /// Returns the registry indices, players and all-time stats from
    /// `start_from` (default 0), at most `limit` (default 256) of them;
    /// administrator only.
    pub fn query_dump_stats(&self, admin: &[u8], key: String, start_from: Option<u32>, limit: Option<u32>) -> (r:
        Result<Vec<(u32, Vec<u8>, StorePlayerStats)>, ArenaError>)
        requires
            self.wf(),
        ensures
            r is Err <==> admin@ != self.admin@ || hashed_key(key@) != stored_key(
                self.viewing_keys.view_map(),
                admin@,
            ),
            r is Ok ==> {
                let start = match start_from {
                    Some(s) => s as int,
                    None => 0,
                };
                let count = match limit {
                    Some(l) => l as int,
                    None => 256,
                };
                let end = if start + count < self.players@.len() {
                    start + count
                } else {
                    self.players@.len() as int
                };
                &&& r->Ok_0@.len() == if end > start {
                    end - start
                } else {
                    0
                }
                &&& forall|i: int|
                    0 <= i < r->Ok_0@.len() ==> {
                        &&& (#[trigger] r->Ok_0@[i]).0 == start + i
                        &&& r->Ok_0@[i].1@ == self.players@[start + i]@
                        &&& r->Ok_0@[i].2 == stats_or_zero(self.all_stats.view_map(), self.players@[start + i]@)
                    }
            },
    {
        match self.check_admin_key(admin, key) {
            Ok(()) => {},
            Err(e) => return Err(e),
        }
        let start: u32 = match start_from {
            Some(s) => s,
            None => 0,
        };
        let count: u32 = match limit {
            Some(l) => l,
            None => DUMP_DEFAULT_LIMIT,
        };
        let n = self.players.len() as u32;
        let mut out: Vec<(u32, Vec<u8>, StorePlayerStats)> = Vec::new();
        if start >= n {
            return Ok(out);
        }
        let end: u32 = if n - start > count {
            start + count
        } else {
            n
        };
        let mut i: u32 = start;
        while i < end
            invariant
                self.wf(),
                n == self.players@.len(),
                start <= i,
                i <= end <= n,
                out@.len() == i - start,
                forall|j: int|
                    0 <= j < out@.len() ==> {
                        &&& (#[trigger] out@[j]).0 == start + j
                        &&& out@[j].1@ == self.players@[start + j]@
                        &&& out@[j].2 == stats_or_zero(self.all_stats.view_map(), self.players@[start + j]@)
                    },
            decreases end - i,
        {
            let p = self.players[i as usize].as_slice();
            out.push((i, copy_bytes(p), self.all_time_of(p)));
            i = i + 1;
        }
        Ok(out)
    }
}

impl StoreBattle {
    /// Returns the index of `address`'s hero in this battle and whether it
    /// won; a record without that hero is corrupt.
    pub fn hero_of(&self, address: &[u8]) -> (r: Result<(usize, bool), ArenaError>)
        ensures
            match r {
                Ok((pos, won)) => {
                    &&& pos < self.heroes@.len()
                    &&& self.heroes@[pos as int].owner@ == address@
                    &&& forall|j: int| 0 <= j < pos ==> (#[trigger] self.heroes@[j]).owner@ != address@
                    &&& won == (self.winner == Some(pos as u8) && pos < 256)
                },
                Err(e) => e == ArenaError::CorruptHistory && forall|j: int|
                    0 <= j < self.heroes@.len() ==> (#[trigger] self.heroes@[j]).owner@ != address@,
            },
    {
        let mut i: usize = 0;
        while i < self.heroes.len()
            invariant
                i <= self.heroes@.len(),
                forall|j: int| 0 <= j < i ==> (#[trigger] self.heroes@[j]).owner@ != address@,
            decreases self.heroes@.len() - i,
        {
            if bytes_eq(self.heroes[i].owner.as_slice(), address) {
                let won = match self.winner {
                    Some(w) => i < 256 && w as usize == i,
                    None => false,
                };
                return Ok((i, won));
            }
            i = i + 1;
        }
        Err(ArenaError::CorruptHistory)
    }
}

/// Whether `a` fought in battle `b`.
pub open spec fn involves(b: StoreBattle, a: Seq<u8>) -> bool {
    exists|j: int| 0 <= j < b.heroes@.len() && (#[trigger] b.heroes@[j]).owner@ == a
}

/// Numbers of the battles in `lo..hi` that `a` fought in, most recent first.
pub open spec fn battles_of(h: Seq<StoreBattle>, a: Seq<u8>, lo: int, hi: int) -> Seq<u64>
    decreases hi - lo,
{
    if lo >= hi {
        Seq::empty()
    } else {
        let rest = battles_of(h, a, lo + 1, hi);
        if involves(h[lo], a) {
            rest.push(lo as u64)
        } else {
            rest
        }
    }
}

/// `n` clamped to at most `len`.
pub open spec fn clamp(n: int, len: int) -> int {
    if n < len {
        n
    } else {
        len
    }
}

impl Arena {
    /// Returns the numbers of the battles `address` fought in, most recent
    /// first, skipping `page * page_size` of them and keeping at most
    /// `page_size`, after checking its key.
    pub fn query_history(&self, address: &[u8], key: String, page: u32, page_size: u32) -> (r: Result<
        Vec<u64>,
        ArenaError,
    >)
        requires
            self.wf(),
        ensures
            r is Err <==> hashed_key(key@) != stored_key(self.viewing_keys.view_map(), address@),
            r is Ok ==> {
                let all = battles_of(self.history@, address@, 0, self.history@.len() as int);
                let skip = page as int * page_size as int;
                r->Ok_0@ == all.subrange(
                    clamp(skip, all.len() as int),
                    clamp(skip + page_size as int, all.len() as int),
                )
            },
    {
        match self.check_key(address, key) {
            Ok(()) => {},
            Err(e) => return Err(e),
        }
        let n = self.history.len();
        let mut all: Vec<u64> = Vec::new();
        let mut i: usize = n;
        while i > 0
            invariant
                self.wf(),
                n == self.history@.len(),
                i <= n,
                all@ == battles_of(self.history@, address@, i as int, n as int),
            decreases i,
        {
            i = i - 1;
            let b = &self.history[i];
            let found = match b.hero_of(address) {
                Ok(_) => true,
                Err(_) => false,
            };
            proof {
                if found {
                    assert(involves(*b, address@));
                } else {
                    assert(!involves(*b, address@));
                }
            }
            if found {
                all.push(i as u64);
            }
        }
        assert(page as int * page_size as int <= 4294967295 * 4294967295) by (nonlinear_arith)
            requires
                0 <= page <= 4294967295,
                0 <= page_size <= 4294967295,
        ;
        let skip: u64 = page as u64 * page_size as u64;
        let len: usize = all.len();
        let lo: usize = if skip < len as u64 {
            skip as usize
        } else {
            len
        };
        let hi: usize = if skip + (page_size as u64) < len as u64 {
            (skip + page_size as u64) as usize
        } else {
            len
        };
        let mut out: Vec<u64> = Vec::new();
        let mut k: usize = lo;
        while k < hi
            invariant
                lo <= k <= hi <= len == all@.len(),
                out@ == all@.subrange(lo as int, k as int),
            decreases hi - k,
        {
            out.push(all[k]);
            k = k + 1;
            assert(out@ =~= all@.subrange(lo as int, k as int));
        }
        Ok(out)
    }

    /// Returns the range of battle numbers from `start_from` (default 0), at
    /// most `limit` (default 256) of them and none past the last battle;
    /// administrator only.
    pub fn query_dump_history(&self, admin: &[u8], key: String, start_from: Option<u64>, limit: Option<u64>) -> (r:
        Result<(u64, u64), ArenaError>)
        requires
            self.wf(),
        ensures
            r is Err <==> admin@ != self.admin@ || hashed_key(key@) != stored_key(
                self.viewing_keys.view_map(),
                admin@,
            ),
            r is Ok ==> {
                let start = match start_from {
                    Some(s) => s as int,
                    None => 0,
                };
                let count = match limit {
                    Some(l) => l as int,
                    None => 256,
                };
                &&& r->Ok_0.0 == start
                &&& r->Ok_0.1 == clamp(start + count, self.config.battle_cnt as int)
            },
    {
        match self.check_admin_key(admin, key) {
            Ok(()) => {},
            Err(e) => return Err(e),
        }
        let start: u64 = match start_from {
            Some(s) => s,
            None => 0,
        };
        let count: u64 = match limit {
            Some(l) => l,
            None => DUMP_DEFAULT_LIMIT as u64,
        };
        let n = self.config.battle_cnt;
        let end: u64 = if start < n && n - start > count {
            start + count
        } else {
            n
        };
        Ok((start, end))
    }
}

} // verus!
