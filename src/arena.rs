//! The arena's state: bullpen, configuration, statistics ledger, leaderboards,
//! player registry and battle history, with the administrative commands.
use vstd::prelude::*;

use vstd::utf8::encode_utf8;

use crate::battle::{StoreBattle, StoreWaitingHero};
use crate::bytes::{bytes_eq, copy_bytes};
use crate::leaderboard::{board_wf, ranks_view, Rank, LBOARD_MAX_LEN};
use crate::rng::{base64_encode, base64_of, sha256_of, sha_256};
use crate::stats::{skills_wf, StorePlayerStats, TourneyStats};
use crate::store::ByAddress;

verus! {

/// Number of players in one page of the player registry.
pub const BLOCK_SIZE: usize = 256;

/// Most card contract versions an arena accepts fighters from.
pub const MAX_CARD_VERSIONS: usize = 256;

/// Why a command was refused. Nothing changes when a command is refused.
#[derive(Clone, Copy, Debug, PartialEq, Eq, Structural)]
pub enum ArenaError {
    /// an administrator command from another address
    Unauthorized,
    /// other than exactly one token sent at a time
    WrongTokenCount,
    /// battles are halted
    BattlesHalted,
    /// the token comes from a card contract the arena does not know
    UnknownCardContract,
    /// the owner already has a fighter in the bullpen
    AlreadyInBullpen,
    /// no entropy came with the fighter
    MissingEntropy,
    /// the owner has no fighter in the bullpen
    NotInBullpen,
    /// battles cannot resume while an export pass is under way
    ExportInProgress,
    /// no export target has been set
    ExportTargetNotSet,
    /// battles must be halted before player stats are exported
    BattlesNotHalted,
    /// there are no players to export
    NoPlayers,
    /// no import source has been set
    ImportSourceNotSet,
    /// the import comes from another address than the one set
    ImportSourceMismatch,
    /// the card's skills were missing from its metadata
    MissingStats,
    /// the card's skills are not four values with 1 <= base <= current <= 100
    InvalidStats,
    /// a stored battle does not contain the player asking for it
    CorruptHistory,
    /// a counter would leave its range
    CounterOverflow,
    /// no four usable random bytes could be drawn
    RandomnessExhausted,
    /// the arena already knows the most card contract versions it can
    TooManyCardContracts,
    /// the viewing key is wrong for the address, or none was set
    WrongViewingKey,
}

/// Code hash and address of a contract.
#[derive(Clone, Debug)]
pub struct StoreContractInfo {
    /// contract's code hash string
    pub code_hash: String,
    /// contract's address
    pub address: Vec<u8>,
}

/// Where player stats are exported to, and which registry page goes next.
#[derive(Clone, Debug)]
pub struct ExportConfig {
    /// new arena contract info
    pub new_arena: StoreContractInfo,
    /// next registry page to export
    pub next: u32,
}

/// Tournament data.
#[derive(Debug)]
pub struct Tourney {
    /// tournament start time
    pub start: u64,
    /// tournament leaderboard
    pub leaderboard: Vec<Rank>,
}

/// The two leaderboards.
#[derive(Debug)]
pub struct Leaderboards {
    /// tournament leaderboard
    pub tourney: Tourney,
    /// all time leaderboard
    pub all_time: Vec<Rank>,
}

/// Arena configuration.
pub struct Config {
    /// heroes waiting to fight
    pub heroes: Vec<StoreWaitingHero>,
    /// prng seed
    pub prng_seed: Vec<u8>,
    /// entropy supplied with the waiting heroes, each piece Base64-encoded
    pub entropy: Vec<u8>,
    /// current battle count in this arena
    pub battle_cnt: u64,
    /// battle count from previous arenas
    pub previous_battles: u64,
    /// viewing key used with the card contracts
    pub viewing_key: String,
    /// contract info of all the card versions
    pub card_versions: Vec<StoreContractInfo>,
    /// true if battles are halted
    pub fight_halt: bool,
}

/// The whole state of an arena.
pub struct Arena {
    /// configuration and bullpen
    pub config: Config,
    /// administrator address
    pub admin: Vec<u8>,
    /// leaderboards
    pub leaderboards: Leaderboards,
    /// all-time stats of each player
    pub all_stats: ByAddress<StorePlayerStats>,
    /// tournament stats of each player
    pub tourney_stats: ByAddress<TourneyStats>,
    /// registered players, in order of registration
    pub players: Vec<Vec<u8>>,
    /// addresses of automated fillers, whose battles are not counted
    pub bots: Vec<Vec<u8>>,
    /// battle records; battle `n` is at index `n`
    pub history: Vec<StoreBattle>,
    /// the only address allowed to import player stats
    pub import_from: Option<Vec<u8>>,
    /// export target and cursor
    pub export_config: Option<ExportConfig>,
    /// hashed viewing key of each address that set one
    pub viewing_keys: ByAddress<Vec<u8>>,
}

/// No address occurs twice.
pub open spec fn addrs_distinct(s: Seq<Vec<u8>>) -> bool {
    forall|i: int, j: int| 0 <= i < j < s.len() ==> (#[trigger] s[i])@ != (#[trigger] s[j])@
}

/// Whether `a` occurs in `s`.
pub open spec fn addr_in(s: Seq<Vec<u8>>, a: Seq<u8>) -> bool {
    exists|i: int| 0 <= i < s.len() && (#[trigger] s[i])@ == a
}

/// The addresses in `s`, as a set.
pub open spec fn addr_set(s: Seq<Vec<u8>>) -> Set<Seq<u8>> {
    Set::new(|a: Seq<u8>| addr_in(s, a))
}

/// At most two waiting heroes, with distinct owners, battle-ready skills and
/// known card versions.
pub open spec fn bullpen_wf(h: Seq<StoreWaitingHero>, n_versions: int) -> bool {
    &&& h.len() <= 2
    &&& forall|i: int|
        0 <= i < h.len() ==> skills_wf(#[trigger] h[i].stats.base@, h[i].stats.current@)
            && h[i].token_info.version < n_versions
    &&& forall|i: int, j: int| 0 <= i < j < h.len() ==> (#[trigger] h[i]).owner@ != (#[trigger] h[j]).owner@
}

/// The parts of the state that only battles and imports change.
pub open spec fn same_ledger(a: Arena, b: Arena) -> bool {
    &&& a.all_stats == b.all_stats
    &&& a.tourney_stats == b.tourney_stats
    &&& a.leaderboards.all_time == b.leaderboards.all_time
    &&& a.leaderboards.tourney.leaderboard == b.leaderboards.tourney.leaderboard
    &&& a.players == b.players
    &&& a.history == b.history
    &&& a.config.battle_cnt == b.config.battle_cnt
    &&& a.config.previous_battles == b.config.previous_battles
}

impl Arena {
    /// The arena's invariant.
    pub open spec fn wf(&self) -> bool {
        &&& self.all_stats.wf()
        &&& self.tourney_stats.wf()
        &&& self.viewing_keys.wf()
        &&& board_wf(ranks_view(self.leaderboards.all_time@), LBOARD_MAX_LEN as nat)
        &&& board_wf(ranks_view(self.leaderboards.tourney.leaderboard@), LBOARD_MAX_LEN as nat)
        &&& addrs_distinct(self.players@)
        &&& self.players@.len() <= u32::MAX
        &&& self.config.card_versions@.len() <= MAX_CARD_VERSIONS
        &&& bullpen_wf(self.config.heroes@, self.config.card_versions@.len() as int)
        &&& self.history@.len() == self.config.battle_cnt
        &&& cursor_in_range(self.export_config, self.players@.len())
    }

    /// Sets up an arena run by `admin` that takes fighters from
    /// `card_contract`. The seed is the SHA-256 digest of the Base64 text of
    /// `entropy`; the viewing key used with card contracts is the Base64 text
    /// of the seed. The tournament starts at `time`.
    pub fn init(admin: Vec<u8>, entropy: &[u8], card_contract: StoreContractInfo, time: u64) -> (r: Arena)
        ensures
            r.wf(),
            r.admin == admin,
            r.config.prng_seed@ == sha256_of(base64_of(entropy@)),
            encode_utf8(r.config.viewing_key@) == base64_of(r.config.prng_seed@),
            r.config.card_versions@ == seq![card_contract],
            r.config.heroes@.len() == 0,
            r.config.entropy@.len() == 0,
            r.config.battle_cnt == 0,
            r.config.previous_battles == 0,
            !r.config.fight_halt,
            r.leaderboards.tourney.start == time,
            r.leaderboards.tourney.leaderboard@.len() == 0,
            r.leaderboards.all_time@.len() == 0,
            r.all_stats.view_map().is_empty(),
            r.tourney_stats.view_map().is_empty(),
            r.players@.len() == 0,
            r.bots@.len() == 0,
            r.history@.len() == 0,
            r.import_from is None,
            r.export_config is None,
    {
        let text = base64_encode(entropy);
        let prng_seed = sha_256(text.as_str().as_bytes());
        let viewing_key = base64_encode(prng_seed.as_slice());
        let mut card_versions: Vec<StoreContractInfo> = Vec::new();
        card_versions.push(card_contract);
        let all_stats = ByAddress::new();
        let tourney_stats = ByAddress::new();
        let r = Arena {
            config: Config {
                heroes: Vec::new(),
                prng_seed,
                entropy: Vec::new(),
                battle_cnt: 0,
                previous_battles: 0,
                viewing_key,
                card_versions,
                fight_halt: false,
            },
            admin,
            leaderboards: Leaderboards {
                tourney: Tourney { start: time, leaderboard: Vec::new() },
                all_time: Vec::new(),
            },
            all_stats,
            tourney_stats,
            players: Vec::new(),
            bots: Vec::new(),
            history: Vec::new(),
            import_from: None,
            export_config: None,
            viewing_keys: ByAddress::new(),
        };
        assert(r.config.card_versions@ =~= seq![card_contract]);
        assert(r.all_stats.view_map().is_empty()) by {
            assert(r.all_stats.view_map().dom() =~= Set::empty());
        }
        assert(r.tourney_stats.view_map().is_empty()) by {
            assert(r.tourney_stats.view_map().dom() =~= Set::empty());
        }
        r
    }

    /// Returns whether `sender` is the administrator.
    pub fn is_admin(&self, sender: &[u8]) -> (r: bool)
        ensures
            r == (sender@ == self.admin@),
    {
        bytes_eq(self.admin.as_slice(), sender)
    }

    /// Makes `new_admin` the administrator; only the administrator may.
    pub fn try_change_admin(&mut self, sender: &[u8], new_admin: &[u8]) -> (r: Result<(), ArenaError>)
        requires
            old(self).wf(),
        ensures
            final(self).wf(),
            r is Err <==> sender@ != old(self).admin@,
            r is Err ==> r == Err::<(), ArenaError>(ArenaError::Unauthorized) && *final(self) == *old(self),
            r is Ok ==> final(self).admin@ == new_admin@ && same_ledger(*final(self), *old(self))
                && final(self).config == old(self).config,
    {
        if !self.is_admin(sender) {
            return Err(ArenaError::Unauthorized);
        }
        self.admin = copy_bytes(new_admin);
        Ok(())
    }

    /// Adds automated fillers; only the administrator may.
    pub fn try_add_bots(&mut self, sender: &[u8], new_bots: &Vec<Vec<u8>>) -> (r: Result<(), ArenaError>)
        requires
            old(self).wf(),
        ensures
            final(self).wf(),
            r is Err <==> sender@ != old(self).admin@,
            r is Err ==> r == Err::<(), ArenaError>(ArenaError::Unauthorized) && *final(self) == *old(self),
            r is Ok ==> addr_set(final(self).bots@) == addr_set(old(self).bots@).union(
                addr_set(new_bots@),
            ) && same_ledger(*final(self), *old(self)) && final(self).config == old(self).config,
    {
        if !self.is_admin(sender) {
            return Err(ArenaError::Unauthorized);
        }
        let ghost old_bots = self.bots@;
        let mut i: usize = 0;
        while i < new_bots.len()
            invariant
                self.wf(),
                same_ledger(*self, *old(self)),
                self.config == old(self).config,
                i <= new_bots@.len(),
                addr_set(self.bots@) == addr_set(old_bots).union(
                    addr_set(new_bots@.subrange(0, i as int)),
                ),
            decreases new_bots@.len() - i,
        {
            let ghost before = self.bots@;
            let b = &new_bots[i];
            if !contains_addr(&self.bots, b.as_slice()) {
                let c = copy_bytes(b.as_slice());
                self.bots.push(c);
            }
            proof {
                let pre = new_bots@.subrange(0, i as int);
                let post = new_bots@.subrange(0, i + 1);
                assert forall|a: Seq<u8>| addr_set(self.bots@).contains(a) == addr_set(old_bots).union(
                    addr_set(post),
                ).contains(a) by {
                    if addr_in(self.bots@, a) {
                        let k = choose|k: int| 0 <= k < self.bots@.len() && (#[trigger] self.bots@[k])@ == a;
                        if k < before.len() {
                            assert(self.bots@[k] == before[k]);
                            assert(addr_in(before, a));
                            assert(addr_set(before).contains(a));
                            if addr_in(pre, a) {
                                let m = choose|m: int| 0 <= m < pre.len() && (#[trigger] pre[m])@ == a;
                                assert(post[m] == pre[m]);
                            }
                        } else {
                            assert(post[i as int] == new_bots@[i as int]);
                        }
                    }
                    if addr_in(old_bots, a) {
                        assert(addr_set(old_bots).union(addr_set(pre)).contains(a));
                        let k = choose|k: int| 0 <= k < before.len() && (#[trigger] before[k])@ == a;
                        assert(self.bots@[k] == before[k]);
                    }
                    if addr_in(post, a) {
                        let m = choose|m: int| 0 <= m < post.len() && (#[trigger] post[m])@ == a;
                        if m < i {
                            assert(post[m] == pre[m]);
                            assert(addr_set(old_bots).union(addr_set(pre)).contains(a));
                            let k = choose|k: int| 0 <= k < before.len() && (#[trigger] before[k])@ == a;
                            assert(self.bots@[k] == before[k]);
                        } else {
                            if addr_in(before, a) {
                                let k = choose|k: int| 0 <= k < before.len() && (#[trigger] before[k])@ == a;
                                assert(self.bots@[k] == before[k]);
                            } else {
                                assert(self.bots@[before.len() as int]@ == a);
                            }
                        }
                    }
                }
                assert(addr_set(self.bots@) =~= addr_set(old_bots).union(addr_set(post)));
            }
            i = i + 1;
        }
        assert(new_bots@.subrange(0, new_bots@.len() as int) =~= new_bots@);
        Ok(())
    }

    /// Removes automated fillers; only the administrator may.
    pub fn try_remove_bots(&mut self, sender: &[u8], no_bots: &Vec<Vec<u8>>) -> (r: Result<(), ArenaError>)
        requires
            old(self).wf(),
        ensures
            final(self).wf(),
            r is Err <==> sender@ != old(self).admin@,
            r is Err ==> r == Err::<(), ArenaError>(ArenaError::Unauthorized) && *final(self) == *old(self),
            r is Ok ==> addr_set(final(self).bots@) == addr_set(old(self).bots@).difference(
                addr_set(no_bots@),
            ) && same_ledger(*final(self), *old(self)) && final(self).config == old(self).config,
    {
        if !self.is_admin(sender) {
            return Err(ArenaError::Unauthorized);
        }
        let mut kept: Vec<Vec<u8>> = Vec::new();
        let mut i: usize = 0;
        while i < self.bots.len()
            invariant
                *self == *old(self),
                self.wf(),
                i <= self.bots@.len(),
                forall|a: Seq<u8>|
                    addr_in(kept@, a) == (addr_in(self.bots@.subrange(0, i as int), a) && !addr_in(
                        no_bots@,
                        a,
                    )),
            decreases self.bots@.len() - i,
        {
            let ghost before = kept@;
            let b = &self.bots[i];
            let drop = contains_addr(no_bots, b.as_slice());
            if !drop {
                kept.push(copy_bytes(b.as_slice()));
            }
            proof {
                let pre = self.bots@.subrange(0, i as int);
                let post = self.bots@.subrange(0, i + 1);
                assert forall|a: Seq<u8>|
                    addr_in(kept@, a) == (addr_in(post, a) && !addr_in(no_bots@, a)) by {
                    if addr_in(kept@, a) {
                        let k = choose|k: int| 0 <= k < kept@.len() && (#[trigger] kept@[k])@ == a;
                        if k < before.len() {
                            assert(kept@[k] == before[k]);
                            assert(addr_in(before, a));
                            let m = choose|m: int| 0 <= m < pre.len() && (#[trigger] pre[m])@ == a;
                            assert(post[m] == pre[m]);
                        } else {
                            assert(post[i as int] == self.bots@[i as int]);
                        }
                    }
                    if addr_in(post, a) && !addr_in(no_bots@, a) {
                        let m = choose|m: int| 0 <= m < post.len() && (#[trigger] post[m])@ == a;
                        if m < i {
                            assert(post[m] == pre[m]);
                            assert(addr_in(pre, a));
                            assert(addr_in(before, a));
                            let k = choose|k: int| 0 <= k < before.len() && (#[trigger] before[k])@ == a;
                            assert(kept@[k] == before[k]);
                        } else {
                            assert(post[m] == self.bots@[i as int]);
                            assert(kept@[before.len() as int]@ == a);
                        }
                    }
                }
            }
            i = i + 1;
        }
        assert(self.bots@.subrange(0, self.bots@.len() as int) =~= self.bots@);
        let ghost old_bots = self.bots@;
        self.bots = kept;
        assert(addr_set(self.bots@) =~= addr_set(old_bots).difference(addr_set(no_bots@)));
        Ok(())
    }

    /// Adds a card contract version unless its address is already known;
    /// returns whether it was added. Only the administrator may.
    pub fn try_add_card_contract(&mut self, sender: &[u8], card_contract: StoreContractInfo) -> (r: Result<
        bool,
        ArenaError,
    >)
        requires
            old(self).wf(),
        ensures
            final(self).wf(),
            sender@ != old(self).admin@ ==> r == Err::<bool, ArenaError>(ArenaError::Unauthorized),
            (sender@ == old(self).admin@ && (exists|i: int|
                0 <= i < old(self).config.card_versions@.len()
                    && (#[trigger] old(self).config.card_versions@[i]).address@
                    == card_contract.address@)) ==> r == Ok::<bool, ArenaError>(false),
            (sender@ == old(self).admin@ && (forall|i: int|
                0 <= i < old(self).config.card_versions@.len()
                    ==> (#[trigger] old(self).config.card_versions@[i]).address@
                    != card_contract.address@)) ==> if old(self).config.card_versions@.len()
                < MAX_CARD_VERSIONS {
                r == Ok::<bool, ArenaError>(true)
            } else {
                r == Err::<bool, ArenaError>(ArenaError::TooManyCardContracts)
            },
            r != Ok::<bool, ArenaError>(true) ==> *final(self) == *old(self),
            r == Ok::<bool, ArenaError>(true) ==> final(self).config.card_versions@
                == old(self).config.card_versions@.push(card_contract) && same_ledger(*final(self), *old(self))
                && final(self).config.heroes == old(self).config.heroes,
    {
        if !self.is_admin(sender) {
            return Err(ArenaError::Unauthorized);
        }
        let mut i: usize = 0;
        while i < self.config.card_versions.len()
            invariant
                *self == *old(self),
                self.wf(),
                sender@ == self.admin@,
                i <= self.config.card_versions@.len(),
                forall|j: int|
                    0 <= j < i ==> (#[trigger] self.config.card_versions@[j]).address@
                        != card_contract.address@,
            decreases self.config.card_versions@.len() - i,
        {
            if bytes_eq(self.config.card_versions[i].address.as_slice(), card_contract.address.as_slice()) {
                return Ok(false);
            }
            i = i + 1;
        }
        if self.config.card_versions.len() >= MAX_CARD_VERSIONS {
            return Err(ArenaError::TooManyCardContracts);
        }
        self.config.card_versions.push(card_contract);
        Ok(true)
    }

    /// Halts (`stop`) or resumes battles; only the administrator may, and
    /// battles cannot resume while an export pass is under way. Halting sends
    /// the waiting heroes home: they are returned, in bullpen order.
    pub fn try_set_battle_status(&mut self, sender: &[u8], stop: bool) -> (r: Result<
        Vec<StoreWaitingHero>,
        ArenaError,
    >)
        requires
            old(self).wf(),
        ensures
            final(self).wf(),
            sender@ != old(self).admin@ ==> r == Err::<Vec<StoreWaitingHero>, ArenaError>(
                ArenaError::Unauthorized,
            ),
            sender@ == old(self).admin@ && !stop && export_in_progress(*old(self)) ==> r == Err::<
                Vec<StoreWaitingHero>,
                ArenaError,
            >(ArenaError::ExportInProgress),
            r is Err ==> *final(self) == *old(self),
            sender@ == old(self).admin@ && (stop || !export_in_progress(*old(self))) ==> r is Ok,
            r is Ok ==> {
                &&& final(self).config.fight_halt == stop
                &&& same_ledger(*final(self), *old(self))
                &&& if stop && !old(self).config.fight_halt {
                    &&& r->Ok_0@ == old(self).config.heroes@
                    &&& final(self).config.heroes@.len() == 0
                } else {
                    &&& r->Ok_0@.len() == 0
                    &&& final(self).config.heroes == old(self).config.heroes
                }
            },
    {
        if !self.is_admin(sender) {
            return Err(ArenaError::Unauthorized);
        }
        if !stop {
            if let Some(e) = &self.export_config {
                if e.next != 0 {
                    return Err(ArenaError::ExportInProgress);
                }
            }
        }
        let mut returned: Vec<StoreWaitingHero> = Vec::new();
        if self.config.fight_halt != stop {
            if stop {
                returned.append(&mut self.config.heroes);
            }
            self.config.fight_halt = stop;
        }
        Ok(returned)
    }

    /// Starts a new tournament at `time` with an empty leaderboard; only the
    /// administrator may.
    pub fn try_reset_leaderboard(&mut self, sender: &[u8], time: u64) -> (r: Result<(), ArenaError>)
        requires
            old(self).wf(),
        ensures
            final(self).wf(),
            r is Err <==> sender@ != old(self).admin@,
            r is Err ==> *final(self) == *old(self),
            r is Ok ==> {
                &&& final(self).leaderboards.tourney.start == time
                &&& final(self).leaderboards.tourney.leaderboard@.len() == 0
                &&& final(self).leaderboards.all_time == old(self).leaderboards.all_time
                &&& final(self).all_stats == old(self).all_stats
                &&& final(self).tourney_stats == old(self).tourney_stats
                &&& final(self).config == old(self).config
            },
    {
        if !self.is_admin(sender) {
            return Err(ArenaError::Unauthorized);
        }
        self.leaderboards.tourney.start = time;
        self.leaderboards.tourney.leaderboard = Vec::new();
        Ok(())
    }

    /// Sets the only address allowed to import player stats; only the
    /// administrator may.
    pub fn try_set_import_from_addr(&mut self, sender: &[u8], old_arena: &[u8]) -> (r: Result<(), ArenaError>)
        requires
            old(self).wf(),
        ensures
            final(self).wf(),
            r is Err <==> sender@ != old(self).admin@,
            r is Err ==> *final(self) == *old(self),
            r is Ok ==> (final(self).import_from matches Some(a) && a@ == old_arena@),
            r is Ok ==> same_ledger(*final(self), *old(self)) && final(self).config == old(self).config,
    {
        if !self.is_admin(sender) {
            return Err(ArenaError::Unauthorized);
        }
        self.import_from = Some(copy_bytes(old_arena));
        Ok(())
    }

    /// Sets the arena that player stats are exported to and rewinds the export
    /// cursor; only the administrator may.
    pub fn try_set_export_to(&mut self, sender: &[u8], new_arena: StoreContractInfo) -> (r: Result<
        (),
        ArenaError,
    >)
        requires
            old(self).wf(),
        ensures
            final(self).wf(),
            r is Err <==> sender@ != old(self).admin@,
            r is Err ==> *final(self) == *old(self),
            r is Ok ==> final(self).export_config == Some(ExportConfig { new_arena, next: 0 }),
            r is Ok ==> same_ledger(*final(self), *old(self)) && final(self).config == old(self).config,
    {
        if !self.is_admin(sender) {
            return Err(ArenaError::Unauthorized);
        }
        self.export_config = Some(ExportConfig { new_arena, next: 0 });
        Ok(())
    }

    /// Takes `owner`'s hero out of the bullpen and returns it.
    pub fn try_chicken(&mut self, owner: &[u8]) -> (r: Result<StoreWaitingHero, ArenaError>)
        requires
            old(self).wf(),
        ensures
            final(self).wf(),
            r is Err <==> !(exists|i: int|
                0 <= i < old(self).config.heroes@.len() && (#[trigger] old(self).config.heroes@[i]).owner@
                    == owner@),
            r is Err ==> r == Err::<StoreWaitingHero, ArenaError>(ArenaError::NotInBullpen),
            r is Err ==> *final(self) == *old(self),
            r is Ok ==> exists|i: int|
                0 <= i < old(self).config.heroes@.len() && r->Ok_0 == old(self).config.heroes@[i]
                    && r->Ok_0.owner@ == owner@ && final(self).config.heroes@
                    == old(self).config.heroes@.update(i, old(self).config.heroes@.last()).drop_last(),
            r is Ok ==> same_ledger(*final(self), *old(self)),
    {
        let mut i: usize = 0;
        while i < self.config.heroes.len()
            invariant
                *self == *old(self),
                self.wf(),
                i <= self.config.heroes@.len(),
                forall|j: int| 0 <= j < i ==> (#[trigger] self.config.heroes@[j]).owner@ != owner@,
            decreases self.config.heroes@.len() - i,
        {
            if bytes_eq(self.config.heroes[i].owner.as_slice(), owner) {
                let ghost h = self.config.heroes@;
                let hero = self.config.heroes.swap_remove(i);
                proof {
                    let h2 = self.config.heroes@;
                    assert forall|a: int| 0 <= a < h2.len() implies #[trigger] h2[a] == h[a] || (a == i
                        && h2[a] == h[h.len() - 1]) by {}
                    assert forall|a: int, b: int| 0 <= a < b < h2.len() implies (#[trigger] h2[a]).owner@
                        != (#[trigger] h2[b]).owner@ by {
                        let a0 = if a == i { h.len() - 1 } else { a };
                        let b0 = if b == i { h.len() - 1 } else { b };
                        assert(h2[a] == h[a0] && h2[b] == h[b0]);
                        assert(a0 != b0);
                        if a0 < b0 {
                            assert(h[a0].owner@ != h[b0].owner@);
                        } else {
                            assert(h[b0].owner@ != h[a0].owner@);
                        }
                    }
                    assert forall|a: int| 0 <= a < h2.len() implies skills_wf(
                        #[trigger] h2[a].stats.base@,
                        h2[a].stats.current@,
                    ) && h2[a].token_info.version < self.config.card_versions@.len() by {
                        let a0 = if a == i { h.len() - 1 } else { a };
                        assert(h2[a] == h[a0]);
                        assert(skills_wf(h[a0].stats.base@, h[a0].stats.current@));
                    }
                }
                return Ok(hero);
            }
            i = i + 1;
        }
        Err(ArenaError::NotInBullpen)
    }
}

/// The export cursor points at a registry page that exists, or at the first.
pub open spec fn cursor_in_range(e: Option<ExportConfig>, n_players: nat) -> bool {
    e matches Some(c) ==> c.next == 0 || (c.next as int) * (BLOCK_SIZE as int) < n_players
}

/// An export pass is under way: an export target is set and its cursor is
/// past the first page.
pub open spec fn export_in_progress(a: Arena) -> bool {
    a.export_config matches Some(e) && e.next != 0
}

/// Returns whether `a` occurs in `v`.
pub fn contains_addr(v: &Vec<Vec<u8>>, a: &[u8]) -> (r: bool)
    ensures
        r == addr_in(v@, a@),
{
    let mut i: usize = 0;
    while i < v.len()
        invariant
            i <= v@.len(),
            forall|j: int| 0 <= j < i ==> (#[trigger] v@[j])@ != a@,
        decreases v@.len() - i,
    {
        if bytes_eq(v[i].as_slice(), a) {
            return true;
        }
        i = i + 1;
    }
    false
}

} // verus!
