//! Arrivals in the bullpen, and the battle that the third arrival starts.
use vstd::prelude::*;

use crate::arena::{addr_in, contains_addr, Arena, ArenaError};
use crate::battle::{
    best_value, outcome_of, resolve, skills_after, trio, winner_of, StoreBattle, StoreHero,
    StoreTokenInfo, StoreWaitingHero,
};
use crate::bytes::{append_bytes, bytes_eq, copy_bytes};
use crate::leaderboard::{ranks_view, update_leaderboard, updated_board, LBOARD_MAX_LEN};
use crate::rng::{base64_encode, base64_of, battle_draw, draw_battle_randomness, BlockEnv};
use crate::stats::{
    current_tourney, outcome_delta, outcome_fits, skills_wf, tourney_stats_since, with_outcome,
    zero_stats, Outcome, Stats, StorePlayerStats, TourneyStats,
};

verus! {

/// What became of an arrival.
#[derive(Clone, Copy, Debug, PartialEq, Eq, Structural)]
pub enum Arrival {
    /// the hero waits in the bullpen
    Waiting,
    /// the hero was the third and the battle was fought; its record is the
    /// last one in the history
    Fought,
}

/// A player's all-time counters, zero where it has none.
pub open spec fn stats_or_zero(m: Map<Seq<u8>, StorePlayerStats>, a: Seq<u8>) -> StorePlayerStats {
    if m.contains_key(a) {
        m[a]
    } else {
        zero_stats()
    }
}

/// A player's stored tournament entry, if any.
pub open spec fn tourney_entry(m: Map<Seq<u8>, TourneyStats>, a: Seq<u8>) -> Option<TourneyStats> {
    if m.contains_key(a) {
        Some(m[a])
    } else {
        None
    }
}

/// All-time counters after `a`'s battle ended in `o`, where the battle counts.
pub open spec fn bump_all(m: Map<Seq<u8>, StorePlayerStats>, a: Seq<u8>, o: Outcome, counted: bool) -> Map<
    Seq<u8>,
    StorePlayerStats,
> {
    if counted {
        m.insert(a, with_outcome(stats_or_zero(m, a), o))
    } else {
        m
    }
}

/// Tournament counters after `a`'s battle at `time` ended in `o`, where the
/// battle counts; counters last touched before `start` count as zero.
pub open spec fn bump_tourney(
    m: Map<Seq<u8>, TourneyStats>,
    a: Seq<u8>,
    o: Outcome,
    counted: bool,
    start: u64,
    time: u64,
) -> Map<Seq<u8>, TourneyStats> {
    if counted {
        m.insert(
            a,
            TourneyStats {
                last_seen: time,
                stats: with_outcome(current_tourney(tourney_entry(m, a), start), o),
            },
        )
    } else {
        m
    }
}

/// A leaderboard after `a` reached `score` through outcome `o`, where the battle counts.
pub open spec fn bump_board(b: Seq<(i32, Seq<u8>)>, a: Seq<u8>, score: i32, o: Outcome, counted: bool) -> Seq<
    (i32, Seq<u8>),
> {
    if counted {
        updated_board(b, a, score, outcome_delta(o) as i8, LBOARD_MAX_LEN as nat)
    } else {
        b
    }
}

/// The registry after `a` arrives: registered at the end if it is new.
pub open spec fn registered(players: Seq<Vec<u8>>, a: Seq<u8>) -> Seq<Seq<u8>> {
    let v = players.map_values(|p: Vec<u8>| p@);
    if addr_in(players, a) {
        v
    } else {
        v.push(a)
    }
}

/// Why an arrival is refused before the card's skills are read, if it is.
pub open spec fn arrival_error(
    a: Arena,
    sender_contract: Seq<u8>,
    from: Seq<u8>,
    token_count: int,
    has_entropy: bool,
) -> Option<ArenaError> {
    if token_count != 1 {
        Some(ArenaError::WrongTokenCount)
    } else if a.config.fight_halt {
        Some(ArenaError::BattlesHalted)
    } else if !(exists|i: int|
        0 <= i < a.config.card_versions@.len() && (#[trigger] a.config.card_versions@[i]).address@
            == sender_contract) {
        Some(ArenaError::UnknownCardContract)
    } else if exists|i: int|
        0 <= i < a.config.heroes@.len() && (#[trigger] a.config.heroes@[i]).owner@ == from {
        Some(ArenaError::AlreadyInBullpen)
    } else if !has_entropy {
        Some(ArenaError::MissingEntropy)
    } else {
        None
    }
}

/// `v` is the first card version whose contract is `sender_contract`.
pub open spec fn is_version_of(a: Arena, sender_contract: Seq<u8>, v: int) -> bool {
    &&& 0 <= v < a.config.card_versions@.len()
    &&& a.config.card_versions@[v].address@ == sender_contract
    &&& forall|j: int| 0 <= j < v ==> (#[trigger] a.config.card_versions@[j]).address@ != sender_contract
}

/// The owners of the two waiting heroes and the newcomer `from`.
pub open spec fn battle_owners(a: Arena, from: Seq<u8>) -> Seq<Seq<u8>> {
    seq![a.config.heroes@[0].owner@, a.config.heroes@[1].owner@, from]
}

/// The current skills of the two waiting heroes and the newcomer's.
pub open spec fn battle_currents(a: Arena, s: Stats) -> Seq<Seq<u8>> {
    trio(a.config.heroes@[0].stats.current@, a.config.heroes@[1].stats.current@, s.current@)
}

/// The base skills of the two waiting heroes and the newcomer's.
pub open spec fn battle_bases(a: Arena, s: Stats) -> Seq<Seq<u8>> {
    trio(a.config.heroes@[0].stats.base@, a.config.heroes@[1].stats.base@, s.base@)
}

/// The entropy a battle draws from: what the waiting heroes brought and the
/// Base64 text of the newcomer's.
pub open spec fn battle_entropy(a: Arena, entropy: Seq<u8>) -> Seq<u8> {
    a.config.entropy@ + base64_of(entropy)
}

/// Whether the battle's fighter `i` counts for stats (it is no filler).
pub open spec fn counts(a: Arena, from: Seq<u8>, i: int) -> bool {
    !addr_in(a.bots@, battle_owners(a, from)[i])
}

/// Outcome of fighter `i` in the battle on skill `idx`.
pub open spec fn fighter_outcome(a: Arena, s: Stats, idx: int, i: int) -> Outcome {
    outcome_of(battle_currents(a, s), idx, i)
}

/// Whether every counter the battle touches stays in range.
pub open spec fn battle_fits(a: Arena, from: Seq<u8>, s: Stats, idx: int) -> bool {
    &&& a.config.battle_cnt < u64::MAX
    &&& forall|i: int|
        0 <= i < 3 && counts(a, from, i) ==> {
            &&& outcome_fits(
                stats_or_zero(a.all_stats.view_map(), #[trigger] battle_owners(a, from)[i]),
                fighter_outcome(a, s, idx, i),
            )
            &&& outcome_fits(
                current_tourney(
                    tourney_entry(a.tourney_stats.view_map(), battle_owners(a, from)[i]),
                    a.leaderboards.tourney.start,
                ),
                fighter_outcome(a, s, idx, i),
            )
        }
}

/// Fighter `i`'s all-time counters after the battle.
pub open spec fn new_all_stats(a: Arena, from: Seq<u8>, s: Stats, idx: int, i: int) -> StorePlayerStats {
    with_outcome(
        stats_or_zero(a.all_stats.view_map(), battle_owners(a, from)[i]),
        fighter_outcome(a, s, idx, i),
    )
}

/// Fighter `i`'s tournament counters after the battle.
pub open spec fn new_tourney_stats(a: Arena, from: Seq<u8>, s: Stats, idx: int, i: int) -> StorePlayerStats {
    with_outcome(
        current_tourney(
            tourney_entry(a.tourney_stats.view_map(), battle_owners(a, from)[i]),
            a.leaderboards.tourney.start,
        ),
        fighter_outcome(a, s, idx, i),
    )
}

/// The ledger after the battle: each counted fighter's counters, in bullpen
/// order, and the leaderboards updated with its new scores.
pub open spec fn ledger_after_battle(a: Arena, b: Arena, from: Seq<u8>, s: Stats, idx: int, time: u64) -> bool {
    let ow = battle_owners(a, from);
    let start = a.leaderboards.tourney.start;
    &&& b.all_stats.view_map() == bump_all(
        bump_all(
            bump_all(a.all_stats.view_map(), ow[0], fighter_outcome(a, s, idx, 0), counts(a, from, 0)),
            ow[1],
            fighter_outcome(a, s, idx, 1),
            counts(a, from, 1),
        ),
        ow[2],
        fighter_outcome(a, s, idx, 2),
        counts(a, from, 2),
    )
    &&& b.tourney_stats.view_map() == bump_tourney(
        bump_tourney(
            bump_tourney(
                a.tourney_stats.view_map(),
                ow[0],
                fighter_outcome(a, s, idx, 0),
                counts(a, from, 0),
                start,
                time,
            ),
            ow[1],
            fighter_outcome(a, s, idx, 1),
            counts(a, from, 1),
            start,
            time,
        ),
        ow[2],
        fighter_outcome(a, s, idx, 2),
        counts(a, from, 2),
        start,
        time,
    )
    &&& ranks_view(b.leaderboards.all_time@) == bump_board(
        bump_board(
            bump_board(
                ranks_view(a.leaderboards.all_time@),
                ow[0],
                new_all_stats(a, from, s, idx, 0).score,
                fighter_outcome(a, s, idx, 0),
                counts(a, from, 0),
            ),
            ow[1],
            new_all_stats(a, from, s, idx, 1).score,
            fighter_outcome(a, s, idx, 1),
            counts(a, from, 1),
        ),
        ow[2],
        new_all_stats(a, from, s, idx, 2).score,
        fighter_outcome(a, s, idx, 2),
        counts(a, from, 2),
    )
    &&& ranks_view(b.leaderboards.tourney.leaderboard@) == bump_board(
        bump_board(
            bump_board(
                ranks_view(a.leaderboards.tourney.leaderboard@),
                ow[0],
                new_tourney_stats(a, from, s, idx, 0).score,
                fighter_outcome(a, s, idx, 0),
                counts(a, from, 0),
            ),
            ow[1],
            new_tourney_stats(a, from, s, idx, 1).score,
            fighter_outcome(a, s, idx, 1),
            counts(a, from, 1),
        ),
        ow[2],
        new_tourney_stats(a, from, s, idx, 2).score,
        fighter_outcome(a, s, idx, 2),
        counts(a, from, 2),
    )
    &&& b.leaderboards.tourney.start == start
}

/// The battle record: numbered after the battles before it, on skill `idx`,
/// each hero with its skills before and after.
pub open spec fn record_as_fought(
    a: Arena,
    rec: StoreBattle,
    from: Seq<u8>,
    s: Stats,
    idx: int,
    up: Seq<u8>,
    time: u64,
) -> bool {
    let cur = battle_currents(a, s);
    &&& rec.battle_number == a.config.battle_cnt
    &&& rec.timestamp == time
    &&& rec.skill_used as int == idx
    &&& rec.winner == match winner_of(cur, idx) {
        Some(w) => Some(w as u8),
        None => None::<u8>,
    }
    &&& rec.winning_skill_value as int == best_value(cur, idx)
    &&& rec.heroes@.len() == 3
    &&& forall|i: int|
        0 <= i < 3 ==> {
            &&& (#[trigger] rec.heroes@[i]).owner@ == battle_owners(a, from)[i]
            &&& rec.heroes@[i].pre_battle_skills@ == cur[i]
            &&& rec.heroes@[i].post_battle_skills@ == skills_after(
                cur,
                battle_bases(a, s),
                idx,
                up,
                i,
            )
        }
    &&& forall|i: int|
        0 <= i < 2 ==> {
            &&& (#[trigger] rec.heroes@[i]).name == a.config.heroes@[i].name
            &&& rec.heroes@[i].token_info == a.config.heroes@[i].token_info
        }
}

impl Arena {
    /// Checks an arrival of `token_count` tokens sent by `from` through the
    /// card contract `sender_contract`; returns the index of that contract's
    /// version.
    pub fn arrival_version(&self, sender_contract: &[u8], from: &[u8], token_count: usize, has_entropy: bool) -> (r:
        Result<u8, ArenaError>)
        requires
            self.wf(),
        ensures
            match arrival_error(*self, sender_contract@, from@, token_count as int, has_entropy) {
                Some(e) => r == Err::<u8, ArenaError>(e),
                None => r is Ok && is_version_of(*self, sender_contract@, r->Ok_0 as int),
            },
    {
        if token_count != 1 {
            return Err(ArenaError::WrongTokenCount);
        }
        if self.config.fight_halt {
            return Err(ArenaError::BattlesHalted);
        }
        let v = match self.find_version(sender_contract) {
            Some(v) => v,
            None => return Err(ArenaError::UnknownCardContract),
        };
        let mut i: usize = 0;
        while i < self.config.heroes.len()
            invariant
                self.wf(),
                token_count == 1,
                !self.config.fight_halt,
                is_version_of(*self, sender_contract@, v as int),
                i <= self.config.heroes@.len(),
                forall|j: int| 0 <= j < i ==> (#[trigger] self.config.heroes@[j]).owner@ != from@,
            decreases self.config.heroes@.len() - i,
        {
            if bytes_eq(self.config.heroes[i].owner.as_slice(), from) {
                return Err(ArenaError::AlreadyInBullpen);
            }
            i = i + 1;
        }
        if !has_entropy {
            return Err(ArenaError::MissingEntropy);
        }
        Ok(v as u8)
    }

    /// Returns the first card version whose contract is `sender_contract`.
    fn find_version(&self, sender_contract: &[u8]) -> (r: Option<usize>)
        requires
            self.wf(),
        ensures
            match r {
                Some(v) => is_version_of(*self, sender_contract@, v as int),
                None => forall|j: int|
                    0 <= j < self.config.card_versions@.len() ==> (#[trigger] self.config.card_versions@[j]).address@
                        != sender_contract@,
            },
    {
        let mut v: usize = 0;
        while v < self.config.card_versions.len()
            invariant
                v <= self.config.card_versions@.len(),
                forall|j: int|
                    0 <= j < v ==> (#[trigger] self.config.card_versions@[j]).address@ != sender_contract@,
            decreases self.config.card_versions@.len() - v,
        {
            if bytes_eq(self.config.card_versions[v].address.as_slice(), sender_contract) {
                return Some(v);
            }
            v = v + 1;
        }
        None
    }

    /// Returns `owner`'s all-time and tournament counters after a battle that
    /// ended in `o`, or `None` where a counter would leave its range.
    fn counters_after(&self, owner: &[u8], o: Outcome) -> (r: Option<(StorePlayerStats, StorePlayerStats)>)
        requires
            self.wf(),
        ensures
            match r {
                Some((all, tour)) => {
                    &&& outcome_fits(stats_or_zero(self.all_stats.view_map(), owner@), o)
                    &&& outcome_fits(
                        current_tourney(
                            tourney_entry(self.tourney_stats.view_map(), owner@),
                            self.leaderboards.tourney.start,
                        ),
                        o,
                    )
                    &&& all == with_outcome(stats_or_zero(self.all_stats.view_map(), owner@), o)
                    &&& tour == with_outcome(
                        current_tourney(
                            tourney_entry(self.tourney_stats.view_map(), owner@),
                            self.leaderboards.tourney.start,
                        ),
                        o,
                    )
                },
                None => !(outcome_fits(stats_or_zero(self.all_stats.view_map(), owner@), o)
                    && outcome_fits(
                    current_tourney(
                        tourney_entry(self.tourney_stats.view_map(), owner@),
                        self.leaderboards.tourney.start,
                    ),
                    o,
                )),
            },
    {
        let all = match self.all_stats.find(owner) {
            Some(i) => self.all_stats.entries[i].1,
            None => StorePlayerStats::default(),
        };
        let entry = match self.tourney_stats.find(owner) {
            Some(i) => Some(self.tourney_stats.entries[i].1),
            None => None,
        };
        let tour = tourney_stats_since(entry, self.leaderboards.tourney.start);
        match (all.with_outcome(o), tour.with_outcome(o)) {
            (Some(a), Some(t)) => Some((a, t)),
            _ => None,
        }
    }

    /// Records `owner`'s new counters after a battle at `time` ending in `o`,
    /// and moves it on both leaderboards.
    fn record_outcome(&mut self, owner: &[u8], o: Outcome, all: StorePlayerStats, tour: StorePlayerStats, time: u64)
        requires
            old(self).wf(),
        ensures
            final(self).wf(),
            final(self).all_stats.view_map() == old(self).all_stats.view_map().insert(owner@, all),
            final(self).tourney_stats.view_map() == old(self).tourney_stats.view_map().insert(
                owner@,
                TourneyStats { last_seen: time, stats: tour },
            ),
            ranks_view(final(self).leaderboards.all_time@) == updated_board(
                ranks_view(old(self).leaderboards.all_time@),
                owner@,
                all.score,
                outcome_delta(o) as i8,
                LBOARD_MAX_LEN as nat,
            ),
            ranks_view(final(self).leaderboards.tourney.leaderboard@) == updated_board(
                ranks_view(old(self).leaderboards.tourney.leaderboard@),
                owner@,
                tour.score,
                outcome_delta(o) as i8,
                LBOARD_MAX_LEN as nat,
            ),
            final(self).leaderboards.tourney.start == old(self).leaderboards.tourney.start,
            final(self).config == old(self).config,
            final(self).players == old(self).players,
            final(self).bots == old(self).bots,
            final(self).history == old(self).history,
            final(self).admin == old(self).admin,
            final(self).import_from == old(self).import_from,
            final(self).export_config == old(self).export_config,
    {
        let d = o.delta();
        self.all_stats.set(owner, all);
        update_leaderboard(&mut self.leaderboards.all_time, owner, all.score, d, LBOARD_MAX_LEN);
        self.tourney_stats.set(owner, TourneyStats { last_seen: time, stats: tour });
        update_leaderboard(&mut self.leaderboards.tourney.leaderboard, owner, tour.score, d, LBOARD_MAX_LEN);
    }

    /// Takes in `from`'s hero, sent through the card contract
    /// `sender_contract` with the hero's `token_id`, `name`, caller entropy and
    /// skills read from the card. The first two heroes wait; the third starts
    /// a battle: randomness is drawn, the battle resolved, counted fighters'
    /// stats and both leaderboards updated, the record appended, the bullpen
    /// and entropy cleared and the seed advanced to the last block drawn.
    /// A new player is registered. A refused arrival changes nothing.
    pub fn try_receive(
        &mut self,
        env: &BlockEnv,
        sender_contract: &[u8],
        from: &[u8],
        token_count: usize,
        token_id: String,
        name: String,
        entropy: Option<Vec<u8>>,
        stats: Option<Stats>,
    ) -> (r: Result<Arrival, ArenaError>)
        requires
            old(self).wf(),
        ensures
            final(self).wf(),
            r is Err ==> *final(self) == *old(self),
            arrival_error(*old(self), sender_contract@, from@, token_count as int, entropy is Some) matches Some(e)
                ==> r == Err::<Arrival, ArenaError>(e),
            arrival_error(*old(self), sender_contract@, from@, token_count as int, entropy is Some) is None
                ==> match stats {
                None => r == Err::<Arrival, ArenaError>(ArenaError::MissingStats),
                Some(s) => if !skills_wf(s.base@, s.current@) {
                    r == Err::<Arrival, ArenaError>(ArenaError::InvalidStats)
                } else if !addr_in(old(self).players@, from@) && old(self).players@.len() == u32::MAX {
                    r == Err::<Arrival, ArenaError>(ArenaError::CounterOverflow)
                } else if old(self).config.heroes@.len() < 2 {
                    r == Ok::<Arrival, ArenaError>(Arrival::Waiting)
                } else {
                    match battle_draw(
                        old(self).config.prng_seed@,
                        env.height,
                        env.time,
                        env.sender@,
                        battle_entropy(*old(self), entropy->Some_0@),
                    ) {
                        None => r == Err::<Arrival, ArenaError>(ArenaError::RandomnessExhausted),
                        Some((idx, up, next)) => if battle_fits(*old(self), from@, s, idx) {
                            r == Ok::<Arrival, ArenaError>(Arrival::Fought)
                        } else {
                            r == Err::<Arrival, ArenaError>(ArenaError::CounterOverflow)
                        },
                    }
                },
            },
            r is Ok ==> final(self).players@.map_values(|p: Vec<u8>| p@) == registered(
                old(self).players@,
                from@,
            ),
            r is Ok ==> final(self).bots == old(self).bots && final(self).admin == old(self).admin,
            r == Ok::<Arrival, ArenaError>(Arrival::Waiting) ==> {
                &&& final(self).config.heroes@.drop_last() == old(self).config.heroes@
                &&& final(self).config.heroes@.len() == old(self).config.heroes@.len() + 1
                &&& final(self).config.heroes@.last().owner@ == from@
                &&& final(self).config.heroes@.last().name == name
                &&& final(self).config.heroes@.last().token_info.token_id == token_id
                &&& is_version_of(
                    *old(self),
                    sender_contract@,
                    final(self).config.heroes@.last().token_info.version as int,
                )
                &&& stats == Some(final(self).config.heroes@.last().stats)
                &&& final(self).config.entropy@ == battle_entropy(*old(self), entropy->Some_0@)
                &&& final(self).config.prng_seed == old(self).config.prng_seed
                &&& final(self).config.battle_cnt == old(self).config.battle_cnt
                &&& final(self).all_stats == old(self).all_stats
                &&& final(self).tourney_stats == old(self).tourney_stats
                &&& final(self).leaderboards.all_time == old(self).leaderboards.all_time
                &&& final(self).leaderboards.tourney.leaderboard == old(
                    self,
                ).leaderboards.tourney.leaderboard
                &&& final(self).history == old(self).history
            },
            r == Ok::<Arrival, ArenaError>(Arrival::Fought) ==> {
                &&& stats is Some
                &&& battle_draw(
                    old(self).config.prng_seed@,
                    env.height,
                    env.time,
                    env.sender@,
                    battle_entropy(*old(self), entropy->Some_0@),
                ) matches Some((idx, up, next)) && {
                    &&& ledger_after_battle(*old(self), *final(self), from@, stats->Some_0, idx, env.time)
                    &&& record_as_fought(
                        *old(self),
                        final(self).history@.last(),
                        from@,
                        stats->Some_0,
                        idx,
                        up,
                        env.time,
                    )
                    &&& final(self).config.prng_seed@ == next
                }
                &&& final(self).history@.drop_last() == old(self).history@
                &&& final(self).history@.len() == old(self).history@.len() + 1
                &&& final(self).history@.last().heroes@[2].name == name
                &&& final(self).history@.last().heroes@[2].token_info.token_id == token_id
                &&& is_version_of(
                    *old(self),
                    sender_contract@,
                    final(self).history@.last().heroes@[2].token_info.version as int,
                )
                &&& final(self).config.battle_cnt == old(self).config.battle_cnt + 1
                &&& final(self).config.heroes@.len() == 0
                &&& final(self).config.entropy@.len() == 0
            },
    {
        let v = match self.arrival_version(sender_contract, from, token_count, entropy.is_some()) {
            Ok(v) => v,
            Err(e) => return Err(e),
        };
        let s = match stats {
            Some(s) => s,
            None => return Err(ArenaError::MissingStats),
        };
        if !s.is_valid() {
            return Err(ArenaError::InvalidStats);
        }
        let ent = match entropy {
            Some(e) => e,
            None => return Err(ArenaError::MissingEntropy),
        };
        let is_new = !contains_addr(&self.players, from);
        if is_new && self.players.len() >= u32::MAX as usize {
            return Err(ArenaError::CounterOverflow);
        }
        let mut new_entropy = copy_bytes(self.config.entropy.as_slice());
        let text = base64_encode(ent.as_slice());
        append_bytes(&mut new_entropy, text.as_str().as_bytes());
        let hero = StoreWaitingHero {
            owner: copy_bytes(from),
            name,
            token_info: StoreTokenInfo { token_id, version: v },
            stats: s,
        };
        if self.config.heroes.len() < 2 {
            self.enter_bullpen(hero, new_entropy, is_new);
            return Ok(Arrival::Waiting);
        }
        self.fight(env, hero, new_entropy, is_new)
    }

    /// Puts `hero` in the bullpen, with `new_entropy` as the accumulated
    /// entropy, registering its owner if `is_new`.
    fn enter_bullpen(&mut self, hero: StoreWaitingHero, new_entropy: Vec<u8>, is_new: bool)
        requires
            old(self).wf(),
            old(self).config.heroes@.len() < 2,
            skills_wf(hero.stats.base@, hero.stats.current@),
            hero.token_info.version < old(self).config.card_versions@.len(),
            forall|i: int|
                0 <= i < old(self).config.heroes@.len() ==> (#[trigger] old(self).config.heroes@[i]).owner@
                    != hero.owner@,
            is_new == !addr_in(old(self).players@, hero.owner@),
            is_new ==> old(self).players@.len() < u32::MAX,
        ensures
            final(self).wf(),
            final(self).players@.map_values(|p: Vec<u8>| p@) == registered(old(self).players@, hero.owner@),
            final(self).config.heroes@ == old(self).config.heroes@.push(hero),
            final(self).config.entropy == new_entropy,
            final(self).config.prng_seed == old(self).config.prng_seed,
            final(self).config.battle_cnt == old(self).config.battle_cnt,
            final(self).config.card_versions == old(self).config.card_versions,
            final(self).all_stats == old(self).all_stats,
            final(self).tourney_stats == old(self).tourney_stats,
            final(self).leaderboards.all_time == old(self).leaderboards.all_time,
            final(self).leaderboards.tourney.leaderboard == old(self).leaderboards.tourney.leaderboard,
            final(self).history == old(self).history,
            final(self).bots == old(self).bots,
            final(self).admin == old(self).admin,
    {
        let ghost pre = *self;
        let ghost from = hero.owner@;
        if is_new {
            let c = copy_bytes(hero.owner.as_slice());
            self.players.push(c);
        }
        self.config.entropy = new_entropy;
        self.config.heroes.push(hero);
        proof {
            if is_new {
                assert(self.players@.drop_last() =~= pre.players@);
            }
            lemma_registered(pre.players@, self.players@, from, is_new);
            let h = self.config.heroes@;
            assert(h.drop_last() =~= pre.config.heroes@);
            assert forall|a: int, b: int| 0 <= a < b < h.len() implies (#[trigger] h[a]).owner@
                != (#[trigger] h[b]).owner@ by {
                if b == h.len() - 1 {
                    assert(h[a] == pre.config.heroes@[a]);
                } else {
                    assert(h[a] == pre.config.heroes@[a] && h[b] == pre.config.heroes@[b]);
                }
            }
            assert forall|a: int| 0 <= a < h.len() implies skills_wf(
                #[trigger] h[a].stats.base@,
                h[a].stats.current@,
            ) && h[a].token_info.version < self.config.card_versions@.len() by {
                if a < h.len() - 1 {
                    assert(h[a] == pre.config.heroes@[a]);
                    assert(skills_wf(pre.config.heroes@[a].stats.base@, pre.config.heroes@[a].stats.current@));
                }
            }
        }
    }


    /// Fights the battle that `hero`, the third arrival, starts; `new_entropy`
    /// is the entropy accumulated with it. Registers its owner if `is_new`.
    #[verifier::rlimit(40)]
    fn fight(&mut self, env: &BlockEnv, hero: StoreWaitingHero, new_entropy: Vec<u8>, is_new: bool) -> (r: Result<
        Arrival,
        ArenaError,
    >)
        requires
            old(self).wf(),
            old(self).config.heroes@.len() == 2,
            skills_wf(hero.stats.base@, hero.stats.current@),
            hero.token_info.version < old(self).config.card_versions@.len(),
            forall|i: int|
                0 <= i < old(self).config.heroes@.len() ==> (#[trigger] old(self).config.heroes@[i]).owner@
                    != hero.owner@,
            is_new == !addr_in(old(self).players@, hero.owner@),
            is_new ==> old(self).players@.len() < u32::MAX,
        ensures
            final(self).wf(),
            r is Err ==> *final(self) == *old(self),
            match battle_draw(old(self).config.prng_seed@, env.height, env.time, env.sender@, new_entropy@) {
                None => r == Err::<Arrival, ArenaError>(ArenaError::RandomnessExhausted),
                Some((idx, up, next)) => if battle_fits(*old(self), hero.owner@, hero.stats, idx) {
                    r == Ok::<Arrival, ArenaError>(Arrival::Fought)
                } else {
                    r == Err::<Arrival, ArenaError>(ArenaError::CounterOverflow)
                },
            },
            r is Ok ==> {
                &&& final(self).players@.map_values(|p: Vec<u8>| p@) == registered(
                    old(self).players@,
                    hero.owner@,
                )
                &&& final(self).bots == old(self).bots
                &&& final(self).admin == old(self).admin
                &&& battle_draw(old(self).config.prng_seed@, env.height, env.time, env.sender@, new_entropy@)
                    matches Some((idx, up, next)) && {
                    &&& ledger_after_battle(*old(self), *final(self), hero.owner@, hero.stats, idx, env.time)
                    &&& record_as_fought(
                        *old(self),
                        final(self).history@.last(),
                        hero.owner@,
                        hero.stats,
                        idx,
                        up,
                        env.time,
                    )
                    &&& final(self).config.prng_seed@ == next
                }
                &&& final(self).history@.drop_last() == old(self).history@
                &&& final(self).history@.len() == old(self).history@.len() + 1
                &&& final(self).history@.last().heroes@[2].name == hero.name
                &&& final(self).history@.last().heroes@[2].token_info == hero.token_info
                &&& final(self).config.battle_cnt == old(self).config.battle_cnt + 1
                &&& final(self).config.heroes@.len() == 0
                &&& final(self).config.entropy@.len() == 0
            },
    {
        let ghost pre = *self;
        let ghost s = hero.stats;
        let ghost from = hero.owner@;
        let draw = match draw_battle_randomness(env, self.config.prng_seed.as_slice(), new_entropy.as_slice()) {
            Some(d) => d,
            None => return Err(ArenaError::RandomnessExhausted),
        };
        let ghost idx = draw.fight_idx as int;
        proof {
            assert(skills_wf(self.config.heroes@[0].stats.base@, self.config.heroes@[0].stats.current@));
            assert(skills_wf(self.config.heroes@[1].stats.base@, self.config.heroes@[1].stats.current@));
        }
        let res = resolve(
            &self.config.heroes[0].stats,
            &self.config.heroes[1].stats,
            &hero.stats,
            draw.fight_idx as usize,
            &draw.upgrade_rand,
        );
        let ow0 = copy_bytes(self.config.heroes[0].owner.as_slice());
        let ow1 = copy_bytes(self.config.heroes[1].owner.as_slice());
        let ow2 = copy_bytes(hero.owner.as_slice());
        let c0 = !contains_addr(&self.bots, ow0.as_slice());
        let c1 = !contains_addr(&self.bots, ow1.as_slice());
        let c2 = !contains_addr(&self.bots, ow2.as_slice());
        let o0 = res.outcomes[0];
        let o1 = res.outcomes[1];
        let o2 = res.outcomes[2];
        proof {
            assert(battle_owners(pre, from) =~= seq![ow0@, ow1@, ow2@]);
            assert(battle_currents(pre, s) == trio(
                self.config.heroes@[0].stats.current@,
                self.config.heroes@[1].stats.current@,
                hero.stats.current@,
            ));
            assert(o0 == fighter_outcome(pre, s, idx, 0));
            assert(o1 == fighter_outcome(pre, s, idx, 1));
            assert(o2 == fighter_outcome(pre, s, idx, 2));
            assert(c0 == counts(pre, from, 0));
            assert(c1 == counts(pre, from, 1));
            assert(c2 == counts(pre, from, 2));
        }
        if self.config.battle_cnt == u64::MAX {
            return Err(ArenaError::CounterOverflow);
        }
        let n0 = if c0 {
            match self.counters_after(ow0.as_slice(), o0) {
                Some(p) => p,
                None => return Err(ArenaError::CounterOverflow),
            }
        } else {
            (StorePlayerStats::default(), StorePlayerStats::default())
        };
        let n1 = if c1 {
            match self.counters_after(ow1.as_slice(), o1) {
                Some(p) => p,
                None => return Err(ArenaError::CounterOverflow),
            }
        } else {
            (StorePlayerStats::default(), StorePlayerStats::default())
        };
        let n2 = if c2 {
            match self.counters_after(ow2.as_slice(), o2) {
                Some(p) => p,
                None => return Err(ArenaError::CounterOverflow),
            }
        } else {
            (StorePlayerStats::default(), StorePlayerStats::default())
        };
        proof {
            assert(battle_fits(pre, from, s, idx)) by {
                assert forall|i: int| 0 <= i < 3 && counts(pre, from, i) implies {
                    &&& outcome_fits(
                        stats_or_zero(pre.all_stats.view_map(), #[trigger] battle_owners(pre, from)[i]),
                        fighter_outcome(pre, s, idx, i),
                    )
                    &&& outcome_fits(
                        current_tourney(
                            tourney_entry(pre.tourney_stats.view_map(), battle_owners(pre, from)[i]),
                            pre.leaderboards.tourney.start,
                        ),
                        fighter_outcome(pre, s, idx, i),
                    )
                } by {}
            }
            assert(pre.config.heroes@[0].owner@ != pre.config.heroes@[1].owner@);
            assert(ow0@ != ow2@ && ow1@ != ow2@);
        }
        // from here on nothing fails
        if is_new {
            self.players.push(copy_bytes(hero.owner.as_slice()));
        }
        proof {
            if is_new {
                assert(self.players@.drop_last() =~= pre.players@);
            }
            lemma_registered(pre.players@, self.players@, from, is_new);
        }
        self.record_fighters(
            ow0.as_slice(),
            ow1.as_slice(),
            ow2.as_slice(),
            [c0, c1, c2],
            [o0, o1, o2],
            [n0, n1, n2],
            env.time,
        );
        self.append_record(env.time, hero, draw.fight_idx, res.winner, res.winning_skill_value, res.post_skills);
        self.config.entropy = Vec::new();
        self.config.prng_seed = draw.next_seed;
        proof {
            let rec = self.history@.last();
            assert forall|i: int| 0 <= i < 3 implies {
                &&& (#[trigger] rec.heroes@[i]).owner@ == battle_owners(pre, from)[i]
                &&& rec.heroes@[i].pre_battle_skills@ == battle_currents(pre, s)[i]
                &&& rec.heroes@[i].post_battle_skills@ == skills_after(
                    battle_currents(pre, s),
                    battle_bases(pre, s),
                    idx,
                    draw.upgrade_rand@,
                    i,
                )
            } by {
                assert(battle_bases(pre, s) == trio(
                    pre.config.heroes@[0].stats.base@,
                    pre.config.heroes@[1].stats.base@,
                    s.base@,
                ));
            }
        }
        Ok(Arrival::Fought)
    }
}

impl Arena {
    /// Records the counted fighters' new counters, in bullpen order, and moves
    /// them on both leaderboards.
    fn record_fighters(
        &mut self,
        ow0: &[u8],
        ow1: &[u8],
        ow2: &[u8],
        counted: [bool; 3],
        outcomes: [Outcome; 3],
        next: [(StorePlayerStats, StorePlayerStats); 3],
        time: u64,
    )
        requires
            old(self).wf(),
            ow0@ != ow1@,
            ow0@ != ow2@,
            ow1@ != ow2@,
            forall|i: int|
                0 <= i < 3 && #[trigger] counted@[i] ==> next@[i] == (
                    with_outcome(
                        stats_or_zero(old(self).all_stats.view_map(), seq![ow0@, ow1@, ow2@][i]),
                        outcomes@[i],
                    ),
                    with_outcome(
                        current_tourney(
                            tourney_entry(old(self).tourney_stats.view_map(), seq![ow0@, ow1@, ow2@][i]),
                            old(self).leaderboards.tourney.start,
                        ),
                        outcomes@[i],
                    ),
                ),
        ensures
            final(self).wf(),
            final(self).all_stats.view_map() == bump_all(
                bump_all(
                    bump_all(old(self).all_stats.view_map(), ow0@, outcomes@[0], counted@[0]),
                    ow1@,
                    outcomes@[1],
                    counted@[1],
                ),
                ow2@,
                outcomes@[2],
                counted@[2],
            ),
            final(self).tourney_stats.view_map() == bump_tourney(
                bump_tourney(
                    bump_tourney(
                        old(self).tourney_stats.view_map(),
                        ow0@,
                        outcomes@[0],
                        counted@[0],
                        old(self).leaderboards.tourney.start,
                        time,
                    ),
                    ow1@,
                    outcomes@[1],
                    counted@[1],
                    old(self).leaderboards.tourney.start,
                    time,
                ),
                ow2@,
                outcomes@[2],
                counted@[2],
                old(self).leaderboards.tourney.start,
                time,
            ),
            ranks_view(final(self).leaderboards.all_time@) == bump_board(
                bump_board(
                    bump_board(
                        ranks_view(old(self).leaderboards.all_time@),
                        ow0@,
                        next@[0].0.score,
                        outcomes@[0],
                        counted@[0],
                    ),
                    ow1@,
                    next@[1].0.score,
                    outcomes@[1],
                    counted@[1],
                ),
                ow2@,
                next@[2].0.score,
                outcomes@[2],
                counted@[2],
            ),
            ranks_view(final(self).leaderboards.tourney.leaderboard@) == bump_board(
                bump_board(
                    bump_board(
                        ranks_view(old(self).leaderboards.tourney.leaderboard@),
                        ow0@,
                        next@[0].1.score,
                        outcomes@[0],
                        counted@[0],
                    ),
                    ow1@,
                    next@[1].1.score,
                    outcomes@[1],
                    counted@[1],
                ),
                ow2@,
                next@[2].1.score,
                outcomes@[2],
                counted@[2],
            ),
            final(self).leaderboards.tourney.start == old(self).leaderboards.tourney.start,
            final(self).config == old(self).config,
            final(self).players == old(self).players,
            final(self).bots == old(self).bots,
            final(self).history == old(self).history,
            final(self).admin == old(self).admin,
            final(self).import_from == old(self).import_from,
            final(self).export_config == old(self).export_config,
    {
        if counted[0] {
            self.record_outcome(ow0, outcomes[0], next[0].0, next[0].1, time);
        }
        if counted[1] {
            self.record_outcome(ow1, outcomes[1], next[1].0, next[1].1, time);
        }
        if counted[2] {
            self.record_outcome(ow2, outcomes[2], next[2].0, next[2].1, time);
        }
    }

    /// Appends the record of the battle between the two waiting heroes and
    /// `hero`, and empties the bullpen.
    fn append_record(
        &mut self,
        time: u64,
        hero: StoreWaitingHero,
        skill_used: u8,
        winner: Option<u8>,
        winning_skill_value: u8,
        post_skills: Vec<Vec<u8>>,
    )
        requires
            old(self).wf(),
            old(self).config.heroes@.len() == 2,
            post_skills@.len() == 3,
            old(self).config.battle_cnt < u64::MAX,
        ensures
            final(self).wf(),
            final(self).history@ == old(self).history@.push(final(self).history@.last()),
            final(self).history@.last().battle_number == old(self).config.battle_cnt,
            final(self).history@.last().timestamp == time,
            final(self).history@.last().skill_used == skill_used,
            final(self).history@.last().winner == winner,
            final(self).history@.last().winning_skill_value == winning_skill_value,
            final(self).history@.last().heroes@.len() == 3,
            forall|i: int|
                0 <= i < 2 ==> {
                    &&& (#[trigger] final(self).history@.last().heroes@[i]).owner
                        == old(self).config.heroes@[i].owner
                    &&& final(self).history@.last().heroes@[i].name == old(self).config.heroes@[i].name
                    &&& final(self).history@.last().heroes@[i].token_info
                        == old(self).config.heroes@[i].token_info
                    &&& final(self).history@.last().heroes@[i].pre_battle_skills
                        == old(self).config.heroes@[i].stats.current
                },
            final(self).history@.last().heroes@[2].owner == hero.owner,
            final(self).history@.last().heroes@[2].name == hero.name,
            final(self).history@.last().heroes@[2].token_info == hero.token_info,
            final(self).history@.last().heroes@[2].pre_battle_skills == hero.stats.current,
            forall|i: int|
                0 <= i < 3 ==> (#[trigger] final(self).history@.last().heroes@[i]).post_battle_skills
                    == post_skills@[i],
            final(self).config.heroes@.len() == 0,
            final(self).config.battle_cnt == old(self).config.battle_cnt + 1,
            final(self).config.prng_seed == old(self).config.prng_seed,
            final(self).config.card_versions == old(self).config.card_versions,
            final(self).all_stats == old(self).all_stats,
            final(self).tourney_stats == old(self).tourney_stats,
            final(self).leaderboards == old(self).leaderboards,
            final(self).players == old(self).players,
            final(self).bots == old(self).bots,
            final(self).admin == old(self).admin,
    {
        let mut waiting: Vec<StoreWaitingHero> = Vec::new();
        waiting.append(&mut self.config.heroes);
        let mut posts = post_skills;
        let post2 = posts.remove(2);
        let post1 = posts.remove(1);
        let post0 = posts.remove(0);
        let w1 = waiting.remove(1);
        let w0 = waiting.remove(0);
        let mut heroes: Vec<StoreHero> = Vec::new();
        heroes.push(
            StoreHero {
                owner: w0.owner,
                name: w0.name,
                token_info: w0.token_info,
                pre_battle_skills: w0.stats.current,
                post_battle_skills: post0,
            },
        );
        heroes.push(
            StoreHero {
                owner: w1.owner,
                name: w1.name,
                token_info: w1.token_info,
                pre_battle_skills: w1.stats.current,
                post_battle_skills: post1,
            },
        );
        heroes.push(
            StoreHero {
                owner: hero.owner,
                name: hero.name,
                token_info: hero.token_info,
                pre_battle_skills: hero.stats.current,
                post_battle_skills: post2,
            },
        );
        let battle = StoreBattle {
            battle_number: self.config.battle_cnt,
            timestamp: time,
            heroes,
            skill_used,
            winner,
            winning_skill_value,
        };
        self.history.push(battle);
        self.config.battle_cnt = self.config.battle_cnt + 1;
    }
}

/// How the registry grows when `a` arrives.
proof fn lemma_registered(before: Seq<Vec<u8>>, after: Seq<Vec<u8>>, a: Seq<u8>, is_new: bool)
    requires
        is_new == !addr_in(before, a),
        is_new ==> after.drop_last() == before && after.len() == before.len() + 1 && after.last()@ == a,
        !is_new ==> after == before,
    ensures
        after.map_values(|p: Vec<u8>| p@) == registered(before, a),
{
    if is_new {
        assert(after.map_values(|p: Vec<u8>| p@) =~= before.map_values(|p: Vec<u8>| p@).push(a)) by {
            assert forall|i: int| 0 <= i < before.len() implies after[i] == before[i] by {
                assert(after.drop_last()[i] == after[i]);
            }
        }
    }
}

/// In a fought battle each counted fighter's all-time and tournament
/// counters gain exactly one battle and one outcome of the kind it had, and
/// its score moves by that outcome's delta (+3 win, +1 tie, 0 third, -1 loss).
pub proof fn lemma_battle_counts(a: Arena, from: Seq<u8>, s: Stats, idx: int, i: int)
    requires
        battle_fits(a, from, s, idx),
        0 <= i < 3,
        counts(a, from, i),
    ensures
        ({
            let before = stats_or_zero(a.all_stats.view_map(), battle_owners(a, from)[i]);
            let after = new_all_stats(a, from, s, idx, i);
            let o = fighter_outcome(a, s, idx, i);
            &&& after.battles == before.battles + 1
            &&& after.score == before.score + outcome_delta(o)
            &&& after.wins + after.ties + after.third_in_two_way_ties + after.losses == before.wins
                + before.ties + before.third_in_two_way_ties + before.losses + 1
        }),
        ({
            let before = current_tourney(
                tourney_entry(a.tourney_stats.view_map(), battle_owners(a, from)[i]),
                a.leaderboards.tourney.start,
            );
            let after = new_tourney_stats(a, from, s, idx, i);
            let o = fighter_outcome(a, s, idx, i);
            &&& after.battles == before.battles + 1
            &&& after.score == before.score + outcome_delta(o)
            &&& after.wins + after.ties + after.third_in_two_way_ties + after.losses == before.wins
                + before.ties + before.third_in_two_way_ties + before.losses + 1
        }),
{
    let ow = battle_owners(a, from)[i];
    let o = fighter_outcome(a, s, idx, i);
    crate::stats::lemma_outcome_counts(stats_or_zero(a.all_stats.view_map(), ow), o);
    crate::stats::lemma_outcome_counts(
        current_tourney(tourney_entry(a.tourney_stats.view_map(), ow), a.leaderboards.tourney.start),
        o,
    );
}

} // verus!
