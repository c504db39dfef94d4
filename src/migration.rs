//! Moving the statistics ledger to a successor arena: paginated export and
//! additive import.
use vstd::prelude::*;

use crate::arena::{addr_in, addrs_distinct, contains_addr, Arena, ArenaError, BLOCK_SIZE};
use crate::bullpen::stats_or_zero;
use crate::bytes::copy_bytes;
use crate::leaderboard::{ranks_view, update_leaderboard, updated_board, Rank, LBOARD_MAX_LEN};
use crate::stats::{merge_fits, merged, StorePlayerStats};
use crate::store::{entries_map, ByAddress};

verus! {

/// One page of exported player stats.
#[derive(Debug)]
pub struct ExportBatch {
    /// each player of the page with its all-time stats, in registry order
    pub stats: Vec<(Vec<u8>, StorePlayerStats)>,
    /// the total battle count, sent with the last page only
    pub battle_count: Option<u64>,
    /// whether this page completed the pass
    pub completed: bool,
}

/// A batch seen as addresses and stats.
pub open spec fn batch_view(b: Seq<(Vec<u8>, StorePlayerStats)>) -> Seq<(Seq<u8>, StorePlayerStats)> {
    b.map_values(|e: (Vec<u8>, StorePlayerStats)| (e.0@, e.1))
}

/// The registry seen as addresses.
pub open spec fn registry_view(p: Seq<Vec<u8>>) -> Seq<Seq<u8>> {
    p.map_values(|a: Vec<u8>| a@)
}

/// Index of the last registry page of `n` players.
pub open spec fn last_page(n: nat) -> int {
    if n == 0 {
        0
    } else {
        (n - 1) / (BLOCK_SIZE as int)
    }
}

/// One past the last registry index on page `k` of `n` players.
pub open spec fn page_end(n: nat, k: int) -> int {
    if k * (BLOCK_SIZE as int) + (BLOCK_SIZE as int) < n {
        k * (BLOCK_SIZE as int) + (BLOCK_SIZE as int)
    } else {
        n as int
    }
}

/// The players at registry indices `lo..hi`, each with its all-time stats.
pub open spec fn export_entries(players: Seq<Seq<u8>>, m: Map<Seq<u8>, StorePlayerStats>, lo: int, hi: int) -> Seq<
    (Seq<u8>, StorePlayerStats),
> {
    Seq::new((hi - lo) as nat, |i: int| (players[lo + i], stats_or_zero(m, players[lo + i])))
}

/// What the import ledger holds: all-time stats, the all-time leaderboard and the registry.
pub type Ledger = (Map<Seq<u8>, StorePlayerStats>, Seq<(i32, Seq<u8>)>, Seq<Seq<u8>>);

/// The ledger after importing one entry: its stats are added to the player's,
/// the player moves on the leaderboard and is registered if new. `None` where
/// a counter or the registry would overflow.
pub open spec fn import_step(st: Ledger, e: (Seq<u8>, StorePlayerStats)) -> Option<Ledger> {
    let cur = stats_or_zero(st.0, e.0);
    if !merge_fits(cur, e.1) {
        None
    } else if !st.2.contains(e.0) && st.2.len() >= u32::MAX {
        None
    } else {
        let nv = merged(cur, e.1);
        Some(
            (
                st.0.insert(e.0, nv),
                updated_board(st.1, e.0, nv.score, 1, LBOARD_MAX_LEN as nat),
                if st.2.contains(e.0) {
                    st.2
                } else {
                    st.2.push(e.0)
                },
            ),
        )
    }
}

/// The ledger after importing each entry of `batch` in turn.
pub open spec fn import_fold(st: Ledger, batch: Seq<(Seq<u8>, StorePlayerStats)>) -> Option<Ledger>
    decreases batch.len(),
{
    if batch.len() == 0 {
        Some(st)
    } else {
        match import_step(st, batch[0]) {
            None => None,
            Some(st1) => import_fold(st1, batch.drop_first()),
        }
    }
}

/// The arena's ledger as the import sees it.
pub open spec fn ledger_of(a: Arena) -> Ledger {
    (a.all_stats.view_map(), ranks_view(a.leaderboards.all_time@), registry_view(a.players@))
}

/// Returns a copy of a leaderboard.
fn copy_ranks(v: &Vec<Rank>) -> (r: Vec<Rank>)
    ensures
        ranks_view(r@) == ranks_view(v@),
{
    let mut out: Vec<Rank> = Vec::new();
    let mut i: usize = 0;
    while i < v.len()
        invariant
            i <= v@.len(),
            out@.len() == i,
            forall|j: int|
                0 <= j < i ==> (#[trigger] out@[j]).score == v@[j].score && out@[j].address@
                    == v@[j].address@,
        decreases v@.len() - i,
    {
        out.push(Rank { score: v[i].score, address: copy_bytes(v[i].address.as_slice()) });
        i = i + 1;
    }
    assert(ranks_view(out@) =~= ranks_view(v@));
    out
}

/// Returns a copy of a list of addresses.
fn copy_addrs(v: &Vec<Vec<u8>>) -> (r: Vec<Vec<u8>>)
    ensures
        registry_view(r@) == registry_view(v@),
        r@.len() == v@.len(),
        forall|i: int| 0 <= i < v@.len() ==> (#[trigger] r@[i])@ == v@[i]@,
{
    let mut out: Vec<Vec<u8>> = Vec::new();
    let mut i: usize = 0;
    while i < v.len()
        invariant
            i <= v@.len(),
            out@.len() == i,
            forall|j: int| 0 <= j < i ==> (#[trigger] out@[j])@ == v@[j]@,
        decreases v@.len() - i,
    {
        out.push(copy_bytes(v[i].as_slice()));
        i = i + 1;
    }
    assert(registry_view(out@) =~= registry_view(v@));
    out
}

/// Returns a copy of a store of stats.
fn copy_store(s: &ByAddress<StorePlayerStats>) -> (r: ByAddress<StorePlayerStats>)
    requires
        s.wf(),
    ensures
        r.wf(),
        r.view_map() == s.view_map(),
{
    let mut out: Vec<(Vec<u8>, StorePlayerStats)> = Vec::new();
    let mut i: usize = 0;
    while i < s.entries.len()
        invariant
            i <= s.entries@.len(),
            out@.len() == i,
            forall|j: int|
                0 <= j < i ==> (#[trigger] out@[j]).0@ == s.entries@[j].0@ && out@[j].1 == s.entries@[j].1,
        decreases s.entries@.len() - i,
    {
        out.push((copy_bytes(s.entries[i].0.as_slice()), s.entries[i].1));
        i = i + 1;
    }
    let r = ByAddress { entries: out };
    proof {
        let e1 = r.entries@;
        let e2 = s.entries@;
        assert forall|a: int, b: int| 0 <= a < b < e1.len() implies (#[trigger] e1[a]).0@ != (#[trigger] e1[b]).0@ by {
            assert(e2[a].0@ != e2[b].0@);
        }
        assert forall|k: Seq<u8>| crate::store::has_key(e1, k) == crate::store::has_key(e2, k) by {
            if crate::store::has_key(e1, k) {
                let j = choose|j: int| 0 <= j < e1.len() && (#[trigger] e1[j]).0@ == k;
                assert(e2[j].0@ == k);
            }
            if crate::store::has_key(e2, k) {
                let j = choose|j: int| 0 <= j < e2.len() && (#[trigger] e2[j]).0@ == k;
                assert(e1[j].0@ == k);
            }
        }
        assert forall|k: Seq<u8>| crate::store::has_key(e1, k) implies e1[crate::store::key_pos(e1, k)].1
            == e2[crate::store::key_pos(e2, k)].1 by {
            let j = crate::store::key_pos(e1, k);
            crate::store::lemma_key_pos(e1, j);
            crate::store::lemma_key_pos(e2, j);
        }
        assert(entries_map(e1) =~= entries_map(e2));
    }
    r
}

impl Arena {
    /// Exports the registry page under the export cursor: each player on it
    /// with its all-time stats. The cursor then moves to the next page, or
    /// back to the first after the last page, whose batch also carries the
    /// total battle count (this arena's and those carried over). Only the
    /// administrator may, with battles halted, players registered and an
    /// export target set.
    pub fn try_export(&mut self, sender: &[u8]) -> (r: Result<ExportBatch, ArenaError>)
        requires
            old(self).wf(),
        ensures
            final(self).wf(),
            r is Err ==> *final(self) == *old(self),
            sender@ != old(self).admin@ ==> r == Err::<ExportBatch, ArenaError>(ArenaError::Unauthorized),
            sender@ == old(self).admin@ && !old(self).config.fight_halt ==> r == Err::<ExportBatch, ArenaError>(
                ArenaError::BattlesNotHalted,
            ),
            sender@ == old(self).admin@ && old(self).config.fight_halt && old(self).players@.len() == 0 ==> r
                == Err::<ExportBatch, ArenaError>(ArenaError::NoPlayers),
            sender@ == old(self).admin@ && old(self).config.fight_halt && old(self).players@.len() > 0
                && old(self).export_config is None ==> r == Err::<ExportBatch, ArenaError>(
                ArenaError::ExportTargetNotSet,
            ),
            sender@ == old(self).admin@ && old(self).config.fight_halt && old(self).players@.len() > 0
                && old(self).export_config is Some ==> ({
                let k = old(self).export_config->Some_0.next as int;
                let n = old(self).players@.len();
                let total = old(self).config.battle_cnt + old(self).config.previous_battles;
                if k == last_page(n) && total > u64::MAX {
                    r == Err::<ExportBatch, ArenaError>(ArenaError::CounterOverflow)
                } else {
                    &&& r is Ok
                    &&& batch_view(r->Ok_0.stats@) == export_entries(
                        registry_view(old(self).players@),
                        old(self).all_stats.view_map(),
                        k * (BLOCK_SIZE as int),
                        page_end(n, k),
                    )
                    &&& final(self).export_config is Some
                    &&& final(self).export_config->Some_0.new_arena == old(self).export_config->Some_0.new_arena
                    &&& if k == last_page(n) {
                        &&& r->Ok_0.battle_count == Some(total as u64)
                        &&& final(self).export_config->Some_0.next == 0
                        &&& r->Ok_0.completed
                    } else {
                        &&& r->Ok_0.battle_count is None
                        &&& final(self).export_config->Some_0.next == k + 1
                        &&& !r->Ok_0.completed
                    }
                    &&& crate::arena::same_ledger(*final(self), *old(self))
                    &&& final(self).config == old(self).config
                    &&& final(self).leaderboards.tourney.start == old(self).leaderboards.tourney.start
                    &&& final(self).bots == old(self).bots
                    &&& final(self).admin == old(self).admin
                    &&& final(self).import_from == old(self).import_from
                    &&& final(self).viewing_keys == old(self).viewing_keys
                }
            }),
    {
        if !self.is_admin(sender) {
            return Err(ArenaError::Unauthorized);
        }
        if !self.config.fight_halt {
            return Err(ArenaError::BattlesNotHalted);
        }
        if self.players.len() == 0 {
            return Err(ArenaError::NoPlayers);
        }
        let k: u32 = match &self.export_config {
            Some(e) => e.next,
            None => return Err(ArenaError::ExportTargetNotSet),
        };
        let n = self.players.len();
        let last: usize = (n - 1) / BLOCK_SIZE;
        let is_last = k as usize == last;
        let mut battle_count: Option<u64> = None;
        if is_last {
            match self.config.battle_cnt.checked_add(self.config.previous_battles) {
                Some(t) => battle_count = Some(t),
                None => return Err(ArenaError::CounterOverflow),
            }
        }
        let lo: usize = k as usize * BLOCK_SIZE;
        assert(lo < n);
        let hi: usize = if n - lo > BLOCK_SIZE {
            lo + BLOCK_SIZE
        } else {
            n
        };
        let ghost reg = registry_view(self.players@);
        let ghost m = self.all_stats.view_map();
        let mut stats: Vec<(Vec<u8>, StorePlayerStats)> = Vec::new();
        let mut i: usize = lo;
        while i < hi
            invariant
                self.wf(),
                lo <= i <= hi <= n == self.players@.len(),
                reg == registry_view(self.players@),
                m == self.all_stats.view_map(),
                batch_view(stats@) == export_entries(reg, m, lo as int, i as int),
            decreases hi - i,
        {
            let player = &self.players[i];
            let st = match self.all_stats.find(player.as_slice()) {
                Some(j) => self.all_stats.entries[j].1,
                None => StorePlayerStats::default(),
            };
            assert(reg[i as int] == player@);
            assert(st == stats_or_zero(m, player@));
            let ghost before = stats@;
            stats.push((copy_bytes(player.as_slice()), st));
            proof {
                let want = export_entries(reg, m, lo as int, i + 1);
                let prev = export_entries(reg, m, lo as int, i as int);
                assert(batch_view(before) == prev);
                assert(before.len() == batch_view(before).len());
                assert(before.len() == i - lo);
                assert(stats@.len() == i - lo + 1);
                assert forall|j: int| 0 <= j < want.len() implies #[trigger] batch_view(stats@)[j] == want[j] by {
                    if j < before.len() {
                        assert(stats@[j] == before[j]);
                        assert(batch_view(before)[j] == prev[j]);
                    } else {
                        assert(stats@[j].0@ == player@);
                    }
                }
                assert(batch_view(stats@) =~= want);
            }
            i = i + 1;
        }
        let next: u32 = if is_last {
            0
        } else {
            k + 1
        };
        if let Some(e) = &mut self.export_config {
            e.next = next;
        }
        proof {
            if !is_last {
                assert(k as int * 256 < n as int || k == 0);
                assert(k as int <= (n as int - 1) / 256) by (nonlinear_arith)
                    requires
                        k as int * 256 < n as int || k == 0,
                        n as int >= 1,
                ;
                assert((k as int + 1) * 256 < n as int) by (nonlinear_arith)
                    requires
                        k as int <= (n as int - 1) / 256,
                        k as int != (n as int - 1) / 256,
                        n as int >= 1,
                ;
            }
        }
        Ok(ExportBatch { stats, battle_count, completed: next == 0 })
    }

    /// Imports a batch of player stats sent by the authorized source: for each
    /// entry in turn the player is registered if new, its stats are added to
    /// its all-time stats and it moves on the all-time leaderboard; a battle
    /// count that comes with the batch is added to the carried-over battles.
    pub fn try_import(
        &mut self,
        sender: &[u8],
        stats: &Vec<(Vec<u8>, StorePlayerStats)>,
        battle_count: Option<u64>,
    ) -> (r: Result<(), ArenaError>)
        requires
            old(self).wf(),
        ensures
            final(self).wf(),
            r is Err ==> *final(self) == *old(self),
            old(self).import_from is None ==> r == Err::<(), ArenaError>(ArenaError::ImportSourceNotSet),
            (old(self).import_from matches Some(a) && a@ != sender@) ==> r == Err::<(), ArenaError>(
                ArenaError::ImportSourceMismatch,
            ),
            (old(self).import_from matches Some(a) && a@ == sender@) ==> match import_fold(
                ledger_of(*old(self)),
                batch_view(stats@),
            ) {
                None => r == Err::<(), ArenaError>(ArenaError::CounterOverflow),
                Some(l) => if old(self).config.previous_battles + carried(battle_count) > u64::MAX {
                    r == Err::<(), ArenaError>(ArenaError::CounterOverflow)
                } else {
                    &&& r is Ok
                    &&& ledger_of(*final(self)) == l
                    &&& final(self).config.previous_battles == old(self).config.previous_battles
                        + carried(battle_count)
                },
            },
            r is Ok ==> {
                &&& final(self).tourney_stats == old(self).tourney_stats
                &&& final(self).leaderboards.tourney == old(self).leaderboards.tourney
                &&& final(self).history == old(self).history
                &&& final(self).config.heroes == old(self).config.heroes
                &&& final(self).config.battle_cnt == old(self).config.battle_cnt
                &&& final(self).config.fight_halt == old(self).config.fight_halt
                &&& final(self).export_config == old(self).export_config
                &&& final(self).import_from == old(self).import_from
                &&& final(self).admin == old(self).admin
            },
    {
        match &self.import_from {
            None => return Err(ArenaError::ImportSourceNotSet),
            Some(a) => if !crate::bytes::bytes_eq(a.as_slice(), sender) {
                return Err(ArenaError::ImportSourceMismatch);
            },
        }
        let mut m = copy_store(&self.all_stats);
        let mut b = copy_ranks(&self.leaderboards.all_time);
        let mut reg = copy_addrs(&self.players);
        let ghost batch = batch_view(stats@);
        let ghost st0 = ledger_of(*self);
        assert(batch.skip(0) =~= batch);
        let mut i: usize = 0;
        while i < stats.len()
            invariant
                *self == *old(self),
                self.wf(),
                (self.import_from matches Some(a) && a@ == sender@),
                batch == batch_view(stats@),
                st0 == ledger_of(*old(self)),
                i <= stats@.len(),
                m.wf(),
                crate::leaderboard::board_wf(ranks_view(b@), LBOARD_MAX_LEN as nat),
                addrs_distinct(reg@),
                reg@.len() <= u32::MAX,
                reg@.len() >= self.players@.len(),
                import_fold((m.view_map(), ranks_view(b@), registry_view(reg@)), batch.skip(i as int))
                    == import_fold(st0, batch),
            decreases stats@.len() - i,
        {
            let a = &stats[i].0;
            let st = stats[i].1;
            let ghost cur_l = (m.view_map(), ranks_view(b@), registry_view(reg@));
            proof {
                assert(batch.skip(i as int)[0] == batch[i as int]);
                assert(batch.skip(i as int).drop_first() =~= batch.skip(i + 1));
                assert(batch[i as int] == (a@, st));
            }
            let cur = match m.find(a.as_slice()) {
                Some(j) => m.entries[j].1,
                None => StorePlayerStats::default(),
            };
            assert(cur == stats_or_zero(m.view_map(), a@));
            let nv = match cur.merge(&st) {
                Some(v) => v,
                None => {
                    assert(import_step(cur_l, batch[i as int]) is None);
                    assert(import_fold(cur_l, batch.skip(i as int)) is None);
                    return Err(ArenaError::CounterOverflow);
                },
            };
            let known = contains_addr(&reg, a.as_slice());
            proof {
                if known {
                    let j = choose|j: int| 0 <= j < reg@.len() && (#[trigger] reg@[j])@ == a@;
                    assert(registry_view(reg@)[j] == a@);
                    assert(registry_view(reg@).contains(a@));
                } else {
                    assert forall|j: int| 0 <= j < registry_view(reg@).len() implies registry_view(reg@)[j] != a@ by {
                        assert(registry_view(reg@)[j] == reg@[j]@);
                    }
                    assert(!registry_view(reg@).contains(a@));
                }
            }
            if !known && reg.len() >= u32::MAX as usize {
                assert(import_step(cur_l, batch[i as int]) is None);
                assert(import_fold(cur_l, batch.skip(i as int)) is None);
                return Err(ArenaError::CounterOverflow);
            }
            m.set(a.as_slice(), nv);
            update_leaderboard(&mut b, a.as_slice(), nv.score, 1, LBOARD_MAX_LEN);
            if !known {
                let ghost before = reg@;
                reg.push(copy_bytes(a.as_slice()));
                proof {
                    assert(registry_view(reg@) =~= registry_view(before).push(a@));
                    assert forall|x: int, y: int| 0 <= x < y < reg@.len() implies (#[trigger] reg@[x])@
                        != (#[trigger] reg@[y])@ by {
                        if y == reg@.len() - 1 {
                            assert(reg@[x] == before[x]);
                        } else {
                            assert(reg@[x] == before[x] && reg@[y] == before[y]);
                        }
                    }
                }
            }
            i = i + 1;
        }
        let prev = match battle_count {
            Some(c) => match self.config.previous_battles.checked_add(c) {
                Some(p) => p,
                None => return Err(ArenaError::CounterOverflow),
            },
            None => self.config.previous_battles,
        };
        proof {
            assert(batch.skip(stats@.len() as int) =~= Seq::<(Seq<u8>, StorePlayerStats)>::empty());
        }
        self.all_stats = m;
        self.leaderboards.all_time = b;
        self.players = reg;
        self.config.previous_battles = prev;
        Ok(())
    }
}

/// The battle count a batch carries, zero where it carries none.
pub open spec fn carried(battle_count: Option<u64>) -> int {
    match battle_count {
        Some(c) => c as int,
        None => 0,
    }
}

/// An empty ledger, as a fresh arena holds.
pub open spec fn fresh_ledger() -> Ledger {
    (Map::empty(), Seq::empty(), Seq::empty())
}

/// The ledger after importing, in order, pages `0..k` exported from a
/// registry `players` with all-time stats `m`.
pub open spec fn import_pages(st: Ledger, players: Seq<Seq<u8>>, m: Map<Seq<u8>, StorePlayerStats>, k: nat) -> Option<
    Ledger,
>
    decreases k,
{
    if k == 0 {
        Some(st)
    } else {
        match import_pages(st, players, m, (k - 1) as nat) {
            None => None,
            Some(s1) => import_fold(
                s1,
                export_entries(
                    players,
                    m,
                    (k - 1) * (BLOCK_SIZE as int),
                    page_end(players.len(), k - 1),
                ),
            ),
        }
    }
}

/// Importing two batches one after the other is importing their concatenation.
proof fn lemma_fold_concat(st: Ledger, b1: Seq<(Seq<u8>, StorePlayerStats)>, b2: Seq<(Seq<u8>, StorePlayerStats)>)
    ensures
        import_fold(st, b1 + b2) == match import_fold(st, b1) {
            Some(s1) => import_fold(s1, b2),
            None => None,
        },
    decreases b1.len(),
{
    if b1.len() == 0 {
        assert(b1 + b2 =~= b2);
    } else {
        assert((b1 + b2).drop_first() =~= b1.drop_first() + b2);
        assert((b1 + b2)[0] == b1[0]);
        match import_step(st, b1[0]) {
            Some(s1) => lemma_fold_concat(s1, b1.drop_first(), b2),
            None => {},
        }
    }
}

/// Players `0..j` of a registry with no repeats, imported into an empty
/// ledger: each is registered once, in order, with exactly its stats.
proof fn lemma_import_prefix(players: Seq<Seq<u8>>, m: Map<Seq<u8>, StorePlayerStats>, j: int)
    requires
        forall|x: int, y: int| 0 <= x < y < players.len() ==> players[x] != players[y],
        players.len() <= u32::MAX,
        0 <= j <= players.len(),
    ensures
        import_fold(fresh_ledger(), export_entries(players, m, 0, j)) matches Some(l) && {
            &&& l.2 == players.take(j)
            &&& l.0.dom() == players.take(j).to_set()
            &&& forall|a: Seq<u8>| #[trigger] l.0.contains_key(a) ==> l.0[a] == stats_or_zero(m, a)
        },
    decreases j,
{
    if j == 0 {
        assert(export_entries(players, m, 0, 0) =~= Seq::empty());
        assert(players.take(0) =~= Seq::<Seq<u8>>::empty());
        assert(players.take(0).to_set() =~= Set::<Seq<u8>>::empty());
        assert(fresh_ledger().0.dom() =~= Set::<Seq<u8>>::empty());
    } else {
        lemma_import_prefix(players, m, j - 1);
        let x = (players[j - 1], stats_or_zero(m, players[j - 1]));
        let pre = export_entries(players, m, 0, j - 1);
        assert(export_entries(players, m, 0, j) =~= pre + seq![x]);
        lemma_fold_concat(fresh_ledger(), pre, seq![x]);
        let l = import_fold(fresh_ledger(), pre)->Some_0;
        let a = players[j - 1];
        assert(!players.take(j - 1).contains(a)) by {
            if players.take(j - 1).contains(a) {
                let y = choose|y: int| 0 <= y < players.take(j - 1).len() && #[trigger] players.take(j - 1)[y] == a;
                assert(players[y] == players[j - 1]);
            }
        }
        assert(!l.0.contains_key(a)) by {
            assert(!players.take(j - 1).to_set().contains(a));
        }
        assert(stats_or_zero(l.0, a) == crate::stats::zero_stats());
        assert(merged(crate::stats::zero_stats(), x.1) == x.1);
        assert(seq![x].drop_first() =~= Seq::<(Seq<u8>, StorePlayerStats)>::empty());
        assert(seq![x][0] == x);
        assert(merge_fits(crate::stats::zero_stats(), x.1));
        assert(!l.2.contains(a));
        let l3 = (
            l.0.insert(a, x.1),
            updated_board(l.1, a, x.1.score, 1, LBOARD_MAX_LEN as nat),
            l.2.push(a),
        );
        assert(import_step(l, x) == Some(l3));
        assert(import_fold(l3, seq![x].drop_first()) == Some(l3));
        assert(import_fold(l, seq![x]) == Some(l3));
        let l2 = import_fold(fresh_ledger(), export_entries(players, m, 0, j))->Some_0;
        assert(l2 == l3);
        assert(players.take(j) =~= players.take(j - 1).push(a));
        assert(l2.2 =~= players.take(j));
        assert(l2.0.dom() =~= players.take(j).to_set()) by {
            assert(players.take(j) =~= players.take(j - 1).push(a));
            assert forall|b: Seq<u8>| players.take(j).to_set().contains(b) <==> (players.take(j - 1).to_set().contains(b)
                || b == a) by {
                if players.take(j).contains(b) && b != a {
                    let y = choose|y: int| 0 <= y < players.take(j).len() && #[trigger] players.take(j)[y] == b;
                    assert(players.take(j - 1)[y] == b);
                }
                if players.take(j - 1).contains(b) {
                    let y = choose|y: int| 0 <= y < players.take(j - 1).len() && #[trigger] players.take(j - 1)[y] == b;
                    assert(players.take(j)[y] == b);
                }
                if b == a {
                    assert(players.take(j)[j - 1] == a);
                }
            }
        }
    }
}

/// Importing pages `0..k` of an export pass is importing the first `k` pages'
/// players in one batch.
proof fn lemma_pages_are_prefix(players: Seq<Seq<u8>>, m: Map<Seq<u8>, StorePlayerStats>, k: nat, st: Ledger)
    requires
        k * (BLOCK_SIZE as int) <= players.len() + (BLOCK_SIZE as int),
    ensures
        import_pages(st, players, m, k) == import_fold(
            st,
            export_entries(
                players,
                m,
                0,
                if k * (BLOCK_SIZE as int) < players.len() {
                    k * (BLOCK_SIZE as int)
                } else {
                    players.len() as int
                },
            ),
        ),
    decreases k,
{
    if k == 0 {
        assert(export_entries(players, m, 0, 0) =~= Seq::empty());
    } else {
        let lo = (k - 1) * (BLOCK_SIZE as int);
        lemma_pages_are_prefix(players, m, (k - 1) as nat, st);
        let hi = page_end(players.len(), k - 1);
        let a = export_entries(players, m, 0, lo);
        let b = export_entries(players, m, lo, hi);
        assert(a + b =~= export_entries(players, m, 0, hi));
        lemma_fold_concat(st, a, b);
    }
}

/// Migration round trip: a full export pass of a registry without repeats,
/// each page imported in order into a fresh ledger, registers exactly the
/// exported players in the same order and gives each exactly the all-time
/// counters (score, battles, wins, ties, thirds, losses) it had.
pub proof fn lemma_export_import_round_trip(players: Seq<Seq<u8>>, m: Map<Seq<u8>, StorePlayerStats>)
    requires
        forall|x: int, y: int| 0 <= x < y < players.len() ==> players[x] != players[y],
        players.len() <= u32::MAX,
    ensures
        import_pages(fresh_ledger(), players, m, (last_page(players.len()) + 1) as nat) matches Some(l) && {
            &&& l.2 == players
            &&& l.0.dom() == players.to_set()
            &&& forall|a: Seq<u8>| #[trigger] l.0.contains_key(a) ==> l.0[a] == stats_or_zero(m, a)
        },
{
    let n = players.len() as int;
    let k = last_page(players.len()) + 1;
    assert(k * 256 >= n && k * 256 <= n + 256) by (nonlinear_arith)
        requires
            k == (if n == 0 { 0 } else { (n - 1) / 256 }) + 1,
            n >= 0,
    ;
    lemma_pages_are_prefix(players, m, k as nat, fresh_ledger());
    lemma_import_prefix(players, m, n);
    assert(players.take(n) =~= players);
}

} // verus!
