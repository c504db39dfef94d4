//! Battle resolution: picking the winner among three fighters and working out
//! each fighter's outcome and new skills.
use vstd::prelude::*;

use crate::stats::{skills_wf, Outcome, Stats};

verus! {

/// A hero's token info.
#[derive(Clone, Debug)]
pub struct StoreTokenInfo {
    /// hero's token id
    pub token_id: String,
    /// index of the card contract version
    pub version: u8,
}

/// A hero waiting in the bullpen.
#[derive(Clone, Debug)]
pub struct StoreWaitingHero {
    /// hero's owner
    pub owner: Vec<u8>,
    /// name of the hero
    pub name: String,
    /// hero's token info
    pub token_info: StoreTokenInfo,
    /// hero's skills
    pub stats: Stats,
}

/// A hero as recorded in a battle.
#[derive(Clone, Debug)]
pub struct StoreHero {
    /// hero's owner
    pub owner: Vec<u8>,
    /// name of the hero
    pub name: String,
    /// hero's token info
    pub token_info: StoreTokenInfo,
    /// hero's skills before the battle
    pub pre_battle_skills: Vec<u8>,
    /// hero's skills after the battle
    pub post_battle_skills: Vec<u8>,
}

/// A battle record.
#[derive(Clone, Debug)]
pub struct StoreBattle {
    /// battle id number
    pub battle_number: u64,
    /// seconds since the epoch at which the battle took place
    pub timestamp: u64,
    /// heroes that fought
    pub heroes: Vec<StoreHero>,
    /// skill used to determine the winner
    pub skill_used: u8,
    /// index of winning hero
    pub winner: Option<u8>,
    /// winning skill value
    pub winning_skill_value: u8,
}

/// Sum of a fighter's four skills.
pub open spec fn skill_sum(s: Seq<u8>) -> int {
    s[0] as int + s[1] as int + s[2] as int + s[3] as int
}

/// The highest value of skill `idx` among the three fighters.
pub open spec fn best_value(cur: Seq<Seq<u8>>, idx: int) -> int {
    let a = cur[0][idx] as int;
    let b = cur[1][idx] as int;
    let c = cur[2][idx] as int;
    if a >= b && a >= c {
        a
    } else if b >= c {
        b
    } else {
        c
    }
}

/// Whether fighter `i` has the highest value of skill `idx`.
pub open spec fn is_candidate(cur: Seq<Seq<u8>>, idx: int, i: int) -> bool {
    cur[i][idx] as int == best_value(cur, idx)
}

/// A fighter's skill sum where it is a candidate, else -1.
pub open spec fn candidate_total(cur: Seq<Seq<u8>>, idx: int, i: int) -> int {
    if is_candidate(cur, idx, i) {
        skill_sum(cur[i])
    } else {
        -1
    }
}

/// The highest skill sum among the candidates.
pub open spec fn best_total(cur: Seq<Seq<u8>>, idx: int) -> int {
    let a = candidate_total(cur, idx, 0);
    let b = candidate_total(cur, idx, 1);
    let c = candidate_total(cur, idx, 2);
    if a >= b && a >= c {
        a
    } else if b >= c {
        b
    } else {
        c
    }
}

/// Whether fighter `i` is a candidate with the highest skill sum among candidates.
pub open spec fn is_top(cur: Seq<Seq<u8>>, idx: int, i: int) -> bool {
    is_candidate(cur, idx, i) && skill_sum(cur[i]) == best_total(cur, idx)
}

/// How many fighters share first place.
pub open spec fn top_count(cur: Seq<Seq<u8>>, idx: int) -> int {
    (if is_top(cur, idx, 0) { 1int } else { 0 }) + (if is_top(cur, idx, 1) { 1int } else { 0 }) + (
    if is_top(cur, idx, 2) { 1int } else { 0 })
}

/// The sole winner, if first place is not shared.
pub open spec fn winner_of(cur: Seq<Seq<u8>>, idx: int) -> Option<int> {
    if top_count(cur, idx) != 1 {
        None
    } else if is_top(cur, idx, 0) {
        Some(0)
    } else if is_top(cur, idx, 1) {
        Some(1)
    } else {
        Some(2)
    }
}

/// How fighter `i` fares in a battle fought on skill `idx`.
pub open spec fn outcome_of(cur: Seq<Seq<u8>>, idx: int, i: int) -> Outcome {
    if top_count(cur, idx) == 1 {
        if is_top(cur, idx, i) {
            Outcome::Win
        } else {
            Outcome::Loss
        }
    } else if is_top(cur, idx, i) {
        Outcome::Tie
    } else {
        Outcome::ThirdInTwoWayTie
    }
}

/// Twice the winner's skill sum less the skill sums of the two others.
pub open spec fn power_diff(cur: Seq<Seq<u8>>, w: int) -> int {
    2 * skill_sum(cur[w]) - (skill_sum(cur[0]) + skill_sum(cur[1]) + skill_sum(cur[2]) - skill_sum(
        cur[w],
    ))
}

/// The winner's base upgrade for a power differential.
pub open spec fn base_upgrade(pd: int) -> int {
    if pd > 160 {
        -1
    } else if pd > 80 {
        0
    } else if pd > 0 {
        1
    } else if pd >= -80 {
        2
    } else if pd >= -200 {
        3
    } else {
        4
    }
}

/// Entry `k` of the adjustment table
/// `[-2, -1 (five times), 0 (eleven times), 1 (five times), 2]`.
pub open spec fn adjust_value(k: int) -> int {
    if k == 0 {
        -2
    } else if k <= 5 {
        -1
    } else if k <= 16 {
        0
    } else if k <= 21 {
        1
    } else {
        2
    }
}

/// A winner's skill `u` after an upgrade of `bu` with random byte `r`.
pub open spec fn upgraded_skill(u: u8, bu: int, r: u8) -> u8 {
    let m = bu + adjust_value(r as int % 23);
    if m > 0 {
        if u + m > 100 {
            100
        } else {
            (u + m) as u8
        }
    } else {
        u
    }
}

/// A winner's four skills after the upgrade.
pub open spec fn upgraded_skills(cur: Seq<u8>, bu: int, rand: Seq<u8>) -> Seq<u8> {
    Seq::new(4, |k: int| upgraded_skill(cur[k], bu, rand[k]))
}

/// A loser's four skills, each regressing halfway (rounded down) toward its base.
pub open spec fn fractured_skills(cur: Seq<u8>, base: Seq<u8>) -> Seq<u8> {
    Seq::new(4, |k: int| (cur[k] - (cur[k] - base[k]) / 2) as u8)
}

/// Fighter `i`'s skills after a battle on skill `idx`, with upgrade bytes `rand`.
pub open spec fn skills_after(
    cur: Seq<Seq<u8>>,
    base: Seq<Seq<u8>>,
    idx: int,
    rand: Seq<u8>,
    i: int,
) -> Seq<u8> {
    match outcome_of(cur, idx, i) {
        Outcome::Win => upgraded_skills(cur[i], base_upgrade(power_diff(cur, i)), rand),
        Outcome::Loss => fractured_skills(cur[i], base[i]),
        _ => cur[i],
    }
}

/// Three skill vectors, in bullpen order.
pub open spec fn trio(a: Seq<u8>, b: Seq<u8>, c: Seq<u8>) -> Seq<Seq<u8>> {
    seq![a, b, c]
}

/// What a battle decides.
#[derive(Debug)]
pub struct Resolution {
    /// each fighter's outcome, in bullpen order
    pub outcomes: Vec<Outcome>,
    /// each fighter's skills after the battle, in bullpen order
    pub post_skills: Vec<Vec<u8>>,
    /// index of the sole winner, if any
    pub winner: Option<u8>,
    /// the highest value of the skill fought on
    pub winning_skill_value: u8,
}

fn sum_of_skills(s: &Vec<u8>) -> (r: i32)
    requires
        s@.len() == 4,
    ensures
        r == skill_sum(s@),
{
    s[0] as i32 + s[1] as i32 + s[2] as i32 + s[3] as i32
}

fn max3(a: i32, b: i32, c: i32) -> (r: i32)
    ensures
        r == (if a >= b && a >= c {
            a
        } else if b >= c {
            b
        } else {
            c
        }),
{
    if a >= b && a >= c {
        a
    } else if b >= c {
        b
    } else {
        c
    }
}

/// Returns entry `k` of the adjustment table.
fn adjust(k: u8) -> (r: i8)
    requires
        k < 23,
    ensures
        r as int == adjust_value(k as int),
{
    if k == 0 {
        -2
    } else if k <= 5 {
        -1
    } else if k <= 16 {
        0
    } else if k <= 21 {
        1
    } else {
        2
    }
}

/// Returns the base upgrade for a power differential.
fn base_upgrade_for(pd: i32) -> (r: i8)
    ensures
        r as int == base_upgrade(pd as int),
{
    if pd > 160 {
        -1
    } else if pd > 80 {
        0
    } else if pd > 0 {
        1
    } else if pd >= -80 {
        2
    } else if pd >= -200 {
        3
    } else {
        4
    }
}

/// Returns a winner's skills after an upgrade of `bu` with the random bytes `rand`.
fn upgrade_skills(cur: &Vec<u8>, bu: i8, rand: &Vec<u8>) -> (r: Vec<u8>)
    requires
        cur@.len() == 4,
        rand@.len() >= 4,
        forall|k: int| 0 <= k < 4 ==> #[trigger] cur@[k] <= 100,
        -1 <= bu <= 4,
    ensures
        r@ == upgraded_skills(cur@, bu as int, rand@),
{
    let mut out: Vec<u8> = Vec::new();
    let mut k: usize = 0;
    while k < 4
        invariant
            k <= 4,
            cur@.len() == 4,
            rand@.len() >= 4,
            forall|j: int| 0 <= j < 4 ==> #[trigger] cur@[j] <= 100,
            -1 <= bu <= 4,
            out@.len() == k,
            forall|j: int| 0 <= j < k ==> out@[j] == upgraded_skill(cur@[j], bu as int, rand@[j]),
        decreases 4 - k,
    {
        let u = cur[k];
        let m: i8 = bu + adjust(rand[k] % 23);
        let v: u8 = if m > 0 {
            let n: u8 = u + m as u8;
            if n > 100 {
                100
            } else {
                n
            }
        } else {
            u
        };
        out.push(v);
        k = k + 1;
    }
    assert(out@ =~= upgraded_skills(cur@, bu as int, rand@));
    out
}

/// Returns a loser's skills, each regressed halfway toward its base.
fn fracture_skills(cur: &Vec<u8>, base: &Vec<u8>) -> (r: Vec<u8>)
    requires
        skills_wf(base@, cur@),
    ensures
        r@ == fractured_skills(cur@, base@),
{
    let mut out: Vec<u8> = Vec::new();
    let mut k: usize = 0;
    while k < 4
        invariant
            k <= 4,
            skills_wf(base@, cur@),
            out@.len() == k,
            forall|j: int| 0 <= j < k ==> out@[j] == (cur@[j] - (cur@[j] - base@[j]) / 2) as u8,
        decreases 4 - k,
    {
        let u = cur[k];
        let b = base[k];
        assert(1 <= base@[k as int] <= cur@[k as int]);
        out.push(u - (u - b) / 2);
        k = k + 1;
    }
    assert(out@ =~= fractured_skills(cur@, base@));
    out
}

/// Resolves a battle among three fighters with skills `s0`, `s1`, `s2` on
/// skill `fight_idx`: the fighters with the highest value of that skill are
/// candidates, ties among them are broken by skill sum, and a tie that
/// remains is a true tie. Returns each fighter's outcome and new skills, the
/// winner if there is a sole one, and the highest value of the skill fought on.
pub fn resolve(s0: &Stats, s1: &Stats, s2: &Stats, fight_idx: usize, upgrade_rand: &Vec<u8>) -> (r:
    Resolution)
    requires
        skills_wf(s0.base@, s0.current@),
        skills_wf(s1.base@, s1.current@),
        skills_wf(s2.base@, s2.current@),
        fight_idx < 4,
        upgrade_rand@.len() >= 4,
    ensures
        r.outcomes@.len() == 3,
        r.post_skills@.len() == 3,
        forall|i: int|
            0 <= i < 3 ==> #[trigger] r.outcomes@[i] == outcome_of(
                trio(s0.current@, s1.current@, s2.current@),
                fight_idx as int,
                i,
            ),
        forall|i: int|
            0 <= i < 3 ==> (#[trigger] r.post_skills@[i])@ == skills_after(
                trio(s0.current@, s1.current@, s2.current@),
                trio(s0.base@, s1.base@, s2.base@),
                fight_idx as int,
                upgrade_rand@,
                i,
            ),
        r.winner == match winner_of(trio(s0.current@, s1.current@, s2.current@), fight_idx as int) {
            Some(w) => Some(w as u8),
            None => None::<u8>,
        },
        r.winning_skill_value as int == best_value(
            trio(s0.current@, s1.current@, s2.current@),
            fight_idx as int,
        ),
{
    let ghost cur = trio(s0.current@, s1.current@, s2.current@);
    let ghost bs = trio(s0.base@, s1.base@, s2.base@);
    let ghost idx = fight_idx as int;
    let c0 = &s0.current;
    let c1 = &s1.current;
    let c2 = &s2.current;
    let best = max3(c0[fight_idx] as i32, c1[fight_idx] as i32, c2[fight_idx] as i32);
    let cand0 = c0[fight_idx] as i32 == best;
    let cand1 = c1[fight_idx] as i32 == best;
    let cand2 = c2[fight_idx] as i32 == best;
    let sum0 = sum_of_skills(c0);
    let sum1 = sum_of_skills(c1);
    let sum2 = sum_of_skills(c2);
    let t0 = if cand0 { sum0 } else { -1 };
    let t1 = if cand1 { sum1 } else { -1 };
    let t2 = if cand2 { sum2 } else { -1 };
    let best_t = max3(t0, t1, t2);
    let top0 = cand0 && sum0 == best_t;
    let top1 = cand1 && sum1 == best_t;
    let top2 = cand2 && sum2 == best_t;
    assert(top0 == is_top(cur, idx, 0));
    assert(top1 == is_top(cur, idx, 1));
    assert(top2 == is_top(cur, idx, 2));
    let count: u8 = (if top0 { 1u8 } else { 0 }) + (if top1 { 1u8 } else { 0 }) + (if top2 {
        1u8
    } else {
        0
    });
    let tops = [top0, top1, top2];
    let sums = [sum0, sum1, sum2];
    let total = sum0 + sum1 + sum2;
    let mut outcomes: Vec<Outcome> = Vec::new();
    let mut post_skills: Vec<Vec<u8>> = Vec::new();
    let mut winner: Option<u8> = None;
    let mut i: usize = 0;
    while i < 3
        invariant
            i <= 3,
            skills_wf(s0.base@, s0.current@),
            skills_wf(s1.base@, s1.current@),
            skills_wf(s2.base@, s2.current@),
            fight_idx < 4,
            upgrade_rand@.len() >= 4,
            cur == trio(s0.current@, s1.current@, s2.current@),
            bs == trio(s0.base@, s1.base@, s2.base@),
            idx == fight_idx as int,
            forall|j: int| 0 <= j < 3 ==> #[trigger] tops@[j] == is_top(cur, idx, j),
            forall|j: int| 0 <= j < 3 ==> #[trigger] sums@[j] == skill_sum(cur[j]),
            total == skill_sum(cur[0]) + skill_sum(cur[1]) + skill_sum(cur[2]),
            count == top_count(cur, idx),
            outcomes@.len() == i,
            post_skills@.len() == i,
            forall|j: int| 0 <= j < i ==> #[trigger] outcomes@[j] == outcome_of(cur, idx, j),
            forall|j: int|
                0 <= j < i ==> (#[trigger] post_skills@[j])@ == skills_after(
                    cur,
                    bs,
                    idx,
                    upgrade_rand@,
                    j,
                ),
            winner == (match winner_of(cur, idx) {
                Some(w) => if w < i {
                    Some(w as u8)
                } else {
                    None::<u8>
                },
                None => None::<u8>,
            }),
        decreases 3 - i,
    {
        let h = if i == 0 {
            s0
        } else if i == 1 {
            s1
        } else {
            s2
        };
        assert(h.current@ == cur[i as int] && h.base@ == bs[i as int]);
        assert(skills_wf(h.base@, h.current@));
        if count == 1 {
            if tops[i] {
                let pd = 2 * sums[i] - (total - sums[i]);
                let bu = base_upgrade_for(pd);
                assert forall|k: int| 0 <= k < 4 implies #[trigger] h.current@[k] <= 100 by {
                    assert(1 <= h.base@[k] <= h.current@[k] <= 100);
                }
                let post = upgrade_skills(&h.current, bu, upgrade_rand);
                outcomes.push(Outcome::Win);
                post_skills.push(post);
                winner = Some(i as u8);
            } else {
                let post = fracture_skills(&h.current, &h.base);
                outcomes.push(Outcome::Loss);
                post_skills.push(post);
            }
        } else {
            let post = crate::bytes::copy_bytes(h.current.as_slice());
            if tops[i] {
                outcomes.push(Outcome::Tie);
            } else {
                outcomes.push(Outcome::ThirdInTwoWayTie);
            }
            post_skills.push(post);
        }
        i = i + 1;
    }
    Resolution { outcomes, post_skills, winner, winning_skill_value: best as u8 }
}

/// The outcomes of one battle agree with one another: either one fighter wins
/// and the two others lose, or two or three fighters tie for first and a
/// fighter left out of a two-way tie takes third; no other mix occurs.
pub proof fn lemma_outcomes_consistent(cur: Seq<Seq<u8>>, idx: int)
    requires
        cur.len() == 3,
        0 <= idx < 4,
        forall|j: int| 0 <= j < 3 ==> (#[trigger] cur[j]).len() == 4,
    ensures
        1 <= top_count(cur, idx) <= 3,
        match winner_of(cur, idx) {
            Some(w) => {
                &&& 0 <= w < 3
                &&& outcome_of(cur, idx, w) == Outcome::Win
                &&& forall|j: int| 0 <= j < 3 && j != w ==> outcome_of(cur, idx, j) == Outcome::Loss
            },
            None => {
                &&& top_count(cur, idx) >= 2
                &&& forall|j: int|
                    0 <= j < 3 ==> (outcome_of(cur, idx, j) == Outcome::Tie) == is_top(cur, idx, j)
                &&& forall|j: int|
                    0 <= j < 3 ==> (outcome_of(cur, idx, j) == Outcome::ThirdInTwoWayTie) == !is_top(
                        cur,
                        idx,
                        j,
                    )
                &&& top_count(cur, idx) == 3 ==> forall|j: int|
                    0 <= j < 3 ==> outcome_of(cur, idx, j) == Outcome::Tie
            },
        },
{
    assert(skill_sum(cur[0]) >= 0 && skill_sum(cur[1]) >= 0 && skill_sum(cur[2]) >= 0);
}

/// Skills move only as a battle allows: a winner's skills never drop and stay
/// at most 100, a decisive loser's skills never rise and never fall below its
/// base, tied fighters and a third in a two-way tie keep their skills, and
/// every skill stays within 1..=100.
pub proof fn lemma_skill_changes_bounded(
    cur: Seq<Seq<u8>>,
    base: Seq<Seq<u8>>,
    idx: int,
    rand: Seq<u8>,
    i: int,
)
    requires
        cur.len() == 3,
        base.len() == 3,
        0 <= idx < 4,
        rand.len() >= 4,
        forall|j: int| 0 <= j < 3 ==> skills_wf(#[trigger] base[j], cur[j]),
        0 <= i < 3,
    ensures
        skills_after(cur, base, idx, rand, i).len() == 4,
        forall|k: int|
            0 <= k < 4 ==> 1 <= #[trigger] skills_after(cur, base, idx, rand, i)[k] <= 100,
        outcome_of(cur, idx, i) == Outcome::Win ==> forall|k: int|
            0 <= k < 4 ==> cur[i][k] <= #[trigger] skills_after(cur, base, idx, rand, i)[k],
        outcome_of(cur, idx, i) == Outcome::Loss ==> forall|k: int|
            0 <= k < 4 ==> base[i][k] <= #[trigger] skills_after(cur, base, idx, rand, i)[k]
                <= cur[i][k],
        outcome_of(cur, idx, i) == Outcome::Tie || outcome_of(cur, idx, i)
            == Outcome::ThirdInTwoWayTie ==> skills_after(cur, base, idx, rand, i) == cur[i],
{
    assert(skills_wf(base[i], cur[i]));
    let after = skills_after(cur, base, idx, rand, i);
    assert forall|k: int| 0 <= k < 4 implies 1 <= #[trigger] after[k] <= 100 by {
        assert(1 <= base[i][k] <= cur[i][k] <= 100);
    }
    if outcome_of(cur, idx, i) == Outcome::Win {
        assert forall|k: int| 0 <= k < 4 implies cur[i][k] <= #[trigger] after[k] by {
            assert(1 <= base[i][k] <= cur[i][k] <= 100);
        }
    }
    if outcome_of(cur, idx, i) == Outcome::Loss {
        assert forall|k: int| 0 <= k < 4 implies base[i][k] <= #[trigger] after[k] <= cur[i][k] by {
            assert(1 <= base[i][k] <= cur[i][k] <= 100);
        }
    }
}

/// The heroes going back through one card contract version.
#[derive(Debug)]
pub struct VersionTransfer {
    /// index of the card contract version
    pub version: u8,
    /// indices of the heroes of that version, ascending
    pub heroes: Vec<usize>,
}

/// The distinct values of `s`, in order of first appearance.
pub open spec fn first_appearances(s: Seq<u8>) -> Seq<u8>
    decreases s.len(),
{
    if s.len() == 0 {
        Seq::empty()
    } else {
        let d = first_appearances(s.drop_last());
        if d.contains(s.last()) {
            d
        } else {
            d.push(s.last())
        }
    }
}

/// The indices below `n` at which `s` holds `v`, ascending.
pub open spec fn indices_of(s: Seq<u8>, v: u8, n: int) -> Seq<usize>
    decreases n,
{
    if n <= 0 {
        Seq::empty()
    } else {
        let p = indices_of(s, v, n - 1);
        if s[n - 1] == v {
            p.push((n - 1) as usize)
        } else {
            p
        }
    }
}

/// Groups hero indices by the card version of each hero (`versions[i]` is
/// hero `i`'s), one group per version in order of first appearance.
pub fn group_by_version(versions: &Vec<u8>) -> (r: Vec<VersionTransfer>)
    ensures
        r@.len() == first_appearances(versions@).len(),
        forall|g: int|
            0 <= g < r@.len() ==> (#[trigger] r@[g]).version == first_appearances(versions@)[g]
                && r@[g].heroes@ == indices_of(versions@, r@[g].version, versions@.len() as int),
{
    let mut order: Vec<u8> = Vec::new();
    let mut i: usize = 0;
    while i < versions.len()
        invariant
            i <= versions@.len(),
            order@ == first_appearances(versions@.take(i as int)),
        decreases versions@.len() - i,
    {
        let v = versions[i];
        let mut seen = false;
        let mut j: usize = 0;
        while j < order.len()
            invariant
                j <= order@.len(),
                seen == (exists|k: int| 0 <= k < j && order@[k] == v),
            decreases order@.len() - j,
        {
            if order[j] == v {
                seen = true;
            }
            j = j + 1;
        }
        proof {
            assert(versions@.take(i + 1).drop_last() =~= versions@.take(i as int));
            assert(versions@.take(i + 1).last() == v);
            if seen {
                let k = choose|k: int| 0 <= k < j && order@[k] == v;
                assert(order@.contains(v));
            } else {
                assert(!order@.contains(v));
            }
        }
        if !seen {
            order.push(v);
        }
        i = i + 1;
    }
    assert(versions@.take(versions@.len() as int) =~= versions@);
    let mut groups: Vec<VersionTransfer> = Vec::new();
    let mut g: usize = 0;
    while g < order.len()
        invariant
            order@ == first_appearances(versions@),
            g <= order@.len(),
            groups@.len() == g,
            forall|h: int|
                0 <= h < g ==> (#[trigger] groups@[h]).version == order@[h] && groups@[h].heroes@
                    == indices_of(versions@, groups@[h].version, versions@.len() as int),
        decreases order@.len() - g,
    {
        let v = order[g];
        let mut heroes: Vec<usize> = Vec::new();
        let mut k: usize = 0;
        while k < versions.len()
            invariant
                k <= versions@.len(),
                heroes@ == indices_of(versions@, v, k as int),
            decreases versions@.len() - k,
        {
            if versions[k] == v {
                heroes.push(k);
            }
            k = k + 1;
        }
        groups.push(VersionTransfer { version: v, heroes });
        g = g + 1;
    }
    groups
}

/// The indices below `n` of the heroes whose skills a battle changed, ascending.
pub open spec fn changed_indices(h: Seq<StoreHero>, n: int) -> Seq<usize>
    decreases n,
{
    if n <= 0 {
        Seq::empty()
    } else {
        let p = changed_indices(h, n - 1);
        if h[n - 1].pre_battle_skills@ != h[n - 1].post_battle_skills@ {
            p.push((n - 1) as usize)
        } else {
            p
        }
    }
}

impl StoreBattle {
    /// Returns the indices of the heroes whose skills this battle changed,
    /// ascending: the cards whose stored skills must be rewritten.
    pub fn changed_heroes(&self) -> (r: Vec<usize>)
        ensures
            r@ == changed_indices(self.heroes@, self.heroes@.len() as int),
    {
        let mut out: Vec<usize> = Vec::new();
        let mut i: usize = 0;
        while i < self.heroes.len()
            invariant
                i <= self.heroes@.len(),
                out@ == changed_indices(self.heroes@, i as int),
            decreases self.heroes@.len() - i,
        {
            let h = &self.heroes[i];
            if !crate::bytes::bytes_eq(h.pre_battle_skills.as_slice(), h.post_battle_skills.as_slice()) {
                out.push(i);
            }
            i = i + 1;
        }
        out
    }
}

} // verus!
