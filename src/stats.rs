//! Per-player aggregate counters and card skills.
use vstd::prelude::*;

verus! {

/// A player's aggregate counters.
#[derive(Clone, Copy, Debug, PartialEq, Eq, Structural)]
pub struct StorePlayerStats {
    /// player's score
    pub score: i32,
    /// number of battles
    pub battles: u32,
    /// number of wins
    pub wins: u32,
    /// number of ties
    pub ties: u32,
    /// number of times took 3rd place in a 2-way tie
    pub third_in_two_way_ties: u32,
    /// number of losses
    pub losses: u32,
}

/// Counters of a player who has not fought yet.
pub open spec fn zero_stats() -> StorePlayerStats {
    StorePlayerStats { score: 0, battles: 0, wins: 0, ties: 0, third_in_two_way_ties: 0, losses: 0 }
}

impl Default for StorePlayerStats {
    fn default() -> (r: Self)
        ensures
            r == zero_stats(),
    {
        StorePlayerStats { score: 0, battles: 0, wins: 0, ties: 0, third_in_two_way_ties: 0, losses: 0 }
    }
}

/// A player's counters for the current tournament.
#[derive(Clone, Copy, Debug, PartialEq, Eq, Structural)]
pub struct TourneyStats {
    /// time of last update
    pub last_seen: u64,
    /// player's stats for this tournament
    pub stats: StorePlayerStats,
}

/// How a participant fared in a battle.
#[derive(Clone, Copy, Debug, PartialEq, Eq, Structural)]
pub enum Outcome {
    /// the sole winner
    Win,
    /// one of the participants tied for first
    Tie,
    /// the one participant left out of a two-way tie
    ThirdInTwoWayTie,
    /// a loser of a decisive battle
    Loss,
}

/// The score change that goes with an outcome.
pub open spec fn outcome_delta(o: Outcome) -> int {
    match o {
        Outcome::Win => 3,
        Outcome::Tie => 1,
        Outcome::ThirdInTwoWayTie => 0,
        Outcome::Loss => -1,
    }
}

impl Outcome {
    /// Returns the score change for this outcome.
    pub fn delta(&self) -> (r: i8)
        ensures
            r as int == outcome_delta(*self),
    {
        match self {
            Outcome::Win => 3,
            Outcome::Tie => 1,
            Outcome::ThirdInTwoWayTie => 0,
            Outcome::Loss => -1,
        }
    }
}

/// Whether recording `o` on `s` keeps every counter in range.
pub open spec fn outcome_fits(s: StorePlayerStats, o: Outcome) -> bool {
    &&& i32::MIN <= s.score + outcome_delta(o) <= i32::MAX
    &&& s.battles < u32::MAX
    &&& match o {
        Outcome::Win => s.wins < u32::MAX,
        Outcome::Tie => s.ties < u32::MAX,
        Outcome::ThirdInTwoWayTie => s.third_in_two_way_ties < u32::MAX,
        Outcome::Loss => s.losses < u32::MAX,
    }
}

/// `s` after one more battle that ended in `o`.
pub open spec fn with_outcome(s: StorePlayerStats, o: Outcome) -> StorePlayerStats {
    StorePlayerStats {
        score: (s.score + outcome_delta(o)) as i32,
        battles: (s.battles + 1) as u32,
        wins: if o == Outcome::Win { (s.wins + 1) as u32 } else { s.wins },
        ties: if o == Outcome::Tie { (s.ties + 1) as u32 } else { s.ties },
        third_in_two_way_ties: if o == Outcome::ThirdInTwoWayTie {
            (s.third_in_two_way_ties + 1) as u32
        } else {
            s.third_in_two_way_ties
        },
        losses: if o == Outcome::Loss { (s.losses + 1) as u32 } else { s.losses },
    }
}

/// Whether every sum of two counter sets is in range.
pub open spec fn merge_fits(a: StorePlayerStats, b: StorePlayerStats) -> bool {
    &&& i32::MIN <= a.score + b.score <= i32::MAX
    &&& a.battles + b.battles <= u32::MAX
    &&& a.wins + b.wins <= u32::MAX
    &&& a.ties + b.ties <= u32::MAX
    &&& a.third_in_two_way_ties + b.third_in_two_way_ties <= u32::MAX
    &&& a.losses + b.losses <= u32::MAX
}

/// The field-by-field sum of two counter sets.
pub open spec fn merged(a: StorePlayerStats, b: StorePlayerStats) -> StorePlayerStats {
    StorePlayerStats {
        score: (a.score + b.score) as i32,
        battles: (a.battles + b.battles) as u32,
        wins: (a.wins + b.wins) as u32,
        ties: (a.ties + b.ties) as u32,
        third_in_two_way_ties: (a.third_in_two_way_ties + b.third_in_two_way_ties) as u32,
        losses: (a.losses + b.losses) as u32,
    }
}

impl StorePlayerStats {
    /// Returns these counters after one more battle ending in `o`, or `None`
    /// where a counter would leave its range.
    pub fn with_outcome(&self, o: Outcome) -> (r: Option<StorePlayerStats>)
        ensures
            r == (if outcome_fits(*self, o) {
                Some(with_outcome(*self, o))
            } else {
                None::<StorePlayerStats>
            }),
    {
        let d = o.delta();
        let score = match self.score.checked_add(d as i32) {
            Some(v) => v,
            None => return None,
        };
        let battles = match self.battles.checked_add(1) {
            Some(v) => v,
            None => return None,
        };
        let mut r = StorePlayerStats { score, battles, ..*self };
        match o {
            Outcome::Win => match self.wins.checked_add(1) {
                Some(v) => r.wins = v,
                None => return None,
            },
            Outcome::Tie => match self.ties.checked_add(1) {
                Some(v) => r.ties = v,
                None => return None,
            },
            Outcome::ThirdInTwoWayTie => match self.third_in_two_way_ties.checked_add(1) {
                Some(v) => r.third_in_two_way_ties = v,
                None => return None,
            },
            Outcome::Loss => match self.losses.checked_add(1) {
                Some(v) => r.losses = v,
                None => return None,
            },
        }
        Some(r)
    }

    /// Returns the field-by-field sum of these counters and `other`, or `None`
    /// where a sum would leave its range.
    pub fn merge(&self, other: &StorePlayerStats) -> (r: Option<StorePlayerStats>)
        ensures
            r == (if merge_fits(*self, *other) {
                Some(merged(*self, *other))
            } else {
                None::<StorePlayerStats>
            }),
    {
        let score = match self.score.checked_add(other.score) {
            Some(v) => v,
            None => return None,
        };
        let battles = match self.battles.checked_add(other.battles) {
            Some(v) => v,
            None => return None,
        };
        let wins = match self.wins.checked_add(other.wins) {
            Some(v) => v,
            None => return None,
        };
        let ties = match self.ties.checked_add(other.ties) {
            Some(v) => v,
            None => return None,
        };
        let third_in_two_way_ties = match self.third_in_two_way_ties.checked_add(
            other.third_in_two_way_ties,
        ) {
            Some(v) => v,
            None => return None,
        };
        let losses = match self.losses.checked_add(other.losses) {
            Some(v) => v,
            None => return None,
        };
        Some(StorePlayerStats { score, battles, wins, ties, third_in_two_way_ties, losses })
    }
}

/// Tournament counters as they count now: those last touched before the
/// tournament started are zero.
pub open spec fn current_tourney(t: Option<TourneyStats>, start: u64) -> StorePlayerStats {
    match t {
        Some(ts) => if ts.last_seen >= start {
            ts.stats
        } else {
            zero_stats()
        },
        None => zero_stats(),
    }
}

/// Returns the tournament counters that count for a tournament that started at `start`.
pub fn tourney_stats_since(t: Option<TourneyStats>, start: u64) -> (r: StorePlayerStats)
    ensures
        r == current_tourney(t, start),
{
    match t {
        Some(ts) => if ts.last_seen >= start {
            ts.stats
        } else {
            StorePlayerStats::default()
        },
        None => StorePlayerStats::default(),
    }
}

/// A card's skills.
#[derive(Clone, Debug)]
pub struct Stats {
    /// the card's skills at time of minting
    pub base: Vec<u8>,
    /// the card's current skills
    pub current: Vec<u8>,
}

/// Number of skills a card has.
pub const SKILL_COUNT: usize = 4;

/// Highest value a skill reaches.
pub const MAX_SKILL: u8 = 100;

/// Skills a battle can work on: four of each, every base skill at least 1 and
/// at most the current one, every current skill at most 100.
pub open spec fn skills_wf(base: Seq<u8>, current: Seq<u8>) -> bool {
    &&& base.len() == 4
    &&& current.len() == 4
    &&& forall|k: int| 0 <= k < 4 ==> 1 <= #[trigger] base[k] <= current[k] <= 100
}

impl Stats {
    /// Returns whether these skills are ones a battle can work on.
    pub fn is_valid(&self) -> (r: bool)
        ensures
            r == skills_wf(self.base@, self.current@),
    {
        if self.base.len() != SKILL_COUNT || self.current.len() != SKILL_COUNT {
            return false;
        }
        let mut k: usize = 0;
        while k < SKILL_COUNT
            invariant
                k <= 4,
                self.base@.len() == 4,
                self.current@.len() == 4,
                forall|j: int| 0 <= j < k ==> 1 <= #[trigger] self.base@[j] <= self.current@[j] <= 100,
            decreases 4 - k,
        {
            if self.base[k] < 1 || self.base[k] > self.current[k] || self.current[k] > MAX_SKILL {
                return false;
            }
            k = k + 1;
        }
        true
    }
}

/// Recording an outcome adds one battle, adds one to exactly the counter that
/// matches it and adds its delta (+3 win, +1 tie, 0 third, -1 loss) to the score.
pub proof fn lemma_outcome_counts(s: StorePlayerStats, o: Outcome)
    requires
        outcome_fits(s, o),
    ensures
        with_outcome(s, o).battles == s.battles + 1,
        with_outcome(s, o).score == s.score + outcome_delta(o),
        with_outcome(s, o).wins + with_outcome(s, o).ties + with_outcome(s, o).third_in_two_way_ties
            + with_outcome(s, o).losses == s.wins + s.ties + s.third_in_two_way_ties + s.losses + 1,
        (with_outcome(s, o).wins == s.wins + 1) == (o == Outcome::Win),
        (with_outcome(s, o).ties == s.ties + 1) == (o == Outcome::Tie),
        (with_outcome(s, o).third_in_two_way_ties == s.third_in_two_way_ties + 1) == (o
            == Outcome::ThirdInTwoWayTie),
        (with_outcome(s, o).losses == s.losses + 1) == (o == Outcome::Loss),
{
}

} // verus!
