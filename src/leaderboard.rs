//! A bounded, score-descending leaderboard updated in place.
use vstd::prelude::*;

use crate::bytes::{bytes_eq, copy_bytes};

verus! {

/// Number of entries a leaderboard keeps.
pub const LBOARD_MAX_LEN: usize = 20;

/// A leaderboard entry.
#[derive(Clone, Debug)]
pub struct Rank {
    /// player's score
    pub score: i32,
    /// player's address
    pub address: Vec<u8>,
}

/// An entry seen as its score and player address.
pub open spec fn rank_view(r: Rank) -> (i32, Seq<u8>) {
    (r.score, r.address@)
}

/// A leaderboard seen as scores and player addresses.
pub open spec fn ranks_view(lb: Seq<Rank>) -> Seq<(i32, Seq<u8>)> {
    lb.map_values(|r: Rank| rank_view(r))
}

/// Scores never increase from one entry to the next.
pub open spec fn scores_descending(b: Seq<(i32, Seq<u8>)>) -> bool {
    forall|i: int, j: int| 0 <= i < j < b.len() ==> #[trigger] b[j].0 <= #[trigger] b[i].0
}

/// No player has two entries.
pub open spec fn players_distinct(b: Seq<(i32, Seq<u8>)>) -> bool {
    forall|i: int, j: int| 0 <= i < j < b.len() ==> #[trigger] b[i].1 != #[trigger] b[j].1
}

/// A leaderboard holds at most `max_len` entries, sorted by score, one per player.
pub open spec fn board_wf(b: Seq<(i32, Seq<u8>)>, max_len: nat) -> bool {
    &&& b.len() <= max_len
    &&& scores_descending(b)
    &&& players_distinct(b)
}

/// Whether an entry with `entry` as its score stays above a player who now has
/// `score`; entries with the same score stay above when `ties_above` holds.
pub open spec fn stays_above(entry: i32, score: i32, ties_above: bool) -> bool {
    if ties_above {
        entry >= score
    } else {
        entry > score
    }
}

/// Where a player with `score` is placed: after every leading entry that stays above.
pub open spec fn slot(b: Seq<(i32, Seq<u8>)>, score: i32, ties_above: bool) -> nat
    decreases b.len(),
{
    if b.len() == 0 {
        0
    } else if stays_above(b[0].0, score, ties_above) {
        1 + slot(b.drop_first(), score, ties_above)
    } else {
        0
    }
}

/// Whether `player` has an entry.
pub open spec fn has_player(b: Seq<(i32, Seq<u8>)>, player: Seq<u8>) -> bool {
    exists|i: int| 0 <= i < b.len() && #[trigger] b[i].1 == player
}

/// The index of `player`'s entry, where it has one.
pub open spec fn player_pos(b: Seq<(i32, Seq<u8>)>, player: Seq<u8>) -> int {
    choose|i: int| 0 <= i < b.len() && #[trigger] b[i].1 == player
}

/// The first `n` entries of `b`, or `b` where it is shorter.
pub open spec fn truncated(b: Seq<(i32, Seq<u8>)>, n: nat) -> Seq<(i32, Seq<u8>)> {
    if b.len() <= n {
        b
    } else {
        b.take(n as int)
    }
}

/// The leaderboard after `player` reaches `score` by a change of `delta`.
/// A player goes after every entry with a higher score; within the group of
/// entries with its new score, a non-decreasing update (`delta >= 0`) goes to
/// the top of the group and a decreasing one (`delta < 0`) to its bottom.
/// A ranked player keeps its place when `delta` is zero; otherwise it is taken
/// out and put back at that place among the others. An unranked player is put
/// at that place if it lies within `max_len`, and the board is cut to `max_len`.
pub open spec fn updated_board(
    b: Seq<(i32, Seq<u8>)>,
    player: Seq<u8>,
    score: i32,
    delta: i8,
    max_len: nat,
) -> Seq<(i32, Seq<u8>)> {
    if has_player(b, player) {
        if delta == 0 {
            b
        } else {
            let rest = b.remove(player_pos(b, player));
            rest.insert(slot(rest, score, delta < 0) as int, (score, player))
        }
    } else {
        let at = slot(b, score, delta < 0);
        if at < max_len {
            truncated(b.insert(at as int, (score, player)), max_len)
        } else {
            b
        }
    }
}

/// Returns the place for a player with `score`: the number of leading entries
/// that stay above it.
fn find_slot(leaderboard: &Vec<Rank>, score: i32, ties_above: bool) -> (r: usize)
    ensures
        r == slot(ranks_view(leaderboard@), score, ties_above),
        r <= leaderboard@.len(),
        forall|j: int| 0 <= j < r ==> stays_above(#[trigger] leaderboard@[j].score, score, ties_above),
        r < leaderboard@.len() ==> !stays_above(leaderboard@[r as int].score, score, ties_above),
{
    let ghost b = ranks_view(leaderboard@);
    let mut i: usize = 0;
    assert(b.skip(0) =~= b);
    while i < leaderboard.len()
        invariant
            b == ranks_view(leaderboard@),
            i <= leaderboard@.len(),
            slot(b, score, ties_above) == i + slot(b.skip(i as int), score, ties_above),
            forall|j: int| 0 <= j < i ==> stays_above(#[trigger] leaderboard@[j].score, score, ties_above),
        decreases leaderboard@.len() - i,
    {
        let above = if ties_above {
            leaderboard[i].score >= score
        } else {
            leaderboard[i].score > score
        };
        if !above {
            assert(b.skip(i as int)[0] == b[i as int]);
            return i;
        }
        assert(b.skip(i as int).drop_first() =~= b.skip(i + 1));
        i = i + 1;
    }
    i
}

/// Returns the index of `player`'s entry, if it has one.
fn find_player(leaderboard: &Vec<Rank>, player: &[u8]) -> (r: Option<usize>)
    ensures
        match r {
            Some(i) => i < leaderboard@.len() && leaderboard@[i as int].address@ == player@,
            None => !has_player(ranks_view(leaderboard@), player@),
        },
{
    let mut i: usize = 0;
    while i < leaderboard.len()
        invariant
            i <= leaderboard@.len(),
            forall|j: int| 0 <= j < i ==> (#[trigger] leaderboard@[j]).address@ != player@,
        decreases leaderboard@.len() - i,
    {
        if bytes_eq(leaderboard[i].address.as_slice(), player) {
            return Some(i);
        }
        i = i + 1;
    }
    assert forall|j: int| 0 <= j < ranks_view(leaderboard@).len() implies #[trigger] ranks_view(
        leaderboard@,
    )[j].1 != player@ by {
        assert(leaderboard@[j].address@ != player@);
    }
    None
}

/// Taking an entry out of a well-formed board keeps it sorted and distinct.
proof fn lemma_remove_keeps_order(b: Seq<(i32, Seq<u8>)>, o: int)
    requires
        scores_descending(b),
        players_distinct(b),
        0 <= o < b.len(),
    ensures
        scores_descending(b.remove(o)),
        players_distinct(b.remove(o)),
        forall|j: int| 0 <= j < b.remove(o).len() ==> #[trigger] b.remove(o)[j].1 != b[o].1,
{
    let r = b.remove(o);
    assert forall|i: int, j: int| 0 <= i < j < r.len() implies #[trigger] r[j].0 <= #[trigger] r[i].0 by {
        let bi = if i < o { i } else { i + 1 };
        let bj = if j < o { j } else { j + 1 };
        assert(r[i] == b[bi] && r[j] == b[bj]);
    }
    assert forall|i: int, j: int| 0 <= i < j < r.len() implies #[trigger] r[i].1 != #[trigger] r[j].1 by {
        let bi = if i < o { i } else { i + 1 };
        let bj = if j < o { j } else { j + 1 };
        assert(r[i] == b[bi] && r[j] == b[bj]);
    }
    assert forall|j: int| 0 <= j < r.len() implies #[trigger] r[j].1 != b[o].1 by {
        let bj = if j < o { j } else { j + 1 };
        assert(r[j] == b[bj]);
    }
}

/// Putting an entry at its slot keeps a sorted board sorted.
proof fn lemma_insert_keeps_order(b: Seq<(i32, Seq<u8>)>, at: int, e: (i32, Seq<u8>), ties_above: bool)
    requires
        scores_descending(b),
        0 <= at <= b.len(),
        forall|j: int| 0 <= j < at ==> stays_above(#[trigger] b[j].0, e.0, ties_above),
        at < b.len() ==> !stays_above(b[at].0, e.0, ties_above),
    ensures
        scores_descending(b.insert(at, e)),
{
    let r = b.insert(at, e);
    assert forall|i: int, j: int| 0 <= i < j < r.len() implies #[trigger] r[j].0 <= #[trigger] r[i].0 by {
        if j < at {
            assert(r[i] == b[i] && r[j] == b[j]);
        } else if j == at {
            assert(r[i] == b[i]);
        } else if i < at {
            assert(r[i] == b[i] && r[j] == b[j - 1]);
            assert(b[at].0 <= e.0);
            assert(b[j - 1].0 <= b[at].0 || j - 1 == at);
        } else if i == at {
            assert(r[j] == b[j - 1]);
            assert(b[j - 1].0 <= b[at].0 || j - 1 == at);
        } else {
            assert(r[i] == b[i - 1] && r[j] == b[j - 1]);
        }
    }
}

/// Adding an entry for a player without one keeps players distinct.
proof fn lemma_insert_keeps_distinct(b: Seq<(i32, Seq<u8>)>, at: int, e: (i32, Seq<u8>))
    requires
        players_distinct(b),
        0 <= at <= b.len(),
        forall|j: int| 0 <= j < b.len() ==> #[trigger] b[j].1 != e.1,
    ensures
        players_distinct(b.insert(at, e)),
{
    let r = b.insert(at, e);
    assert forall|i: int, j: int| 0 <= i < j < r.len() implies #[trigger] r[i].1 != #[trigger] r[j].1 by {
        if j < at {
            assert(r[i] == b[i] && r[j] == b[j]);
        } else if j == at {
            assert(r[i] == b[i]);
        } else if i < at {
            assert(r[i] == b[i] && r[j] == b[j - 1]);
        } else if i == at {
            assert(r[j] == b[j - 1]);
        } else {
            assert(r[i] == b[i - 1] && r[j] == b[j - 1]);
        }
    }
}

/// Records that `player` now has `score`, reached by a change of `delta`, and
/// keeps the board sorted, bounded by `max_len` and free of duplicates.
pub fn update_leaderboard(
    leaderboard: &mut Vec<Rank>,
    player: &[u8],
    score: i32,
    delta: i8,
    max_len: usize,
)
    requires
        board_wf(ranks_view(old(leaderboard)@), max_len as nat),
    ensures
        ranks_view(final(leaderboard)@) == updated_board(
            ranks_view(old(leaderboard)@),
            player@,
            score,
            delta,
            max_len as nat,
        ),
        board_wf(ranks_view(final(leaderboard)@), max_len as nat),
{
    let ghost b = ranks_view(leaderboard@);
    match find_player(leaderboard, player) {
        Some(o) => {
            assert(b[o as int].1 == player@);
            assert(has_player(b, player@));
            let ghost p = player_pos(b, player@);
            assert(p == o as int) by {
                if p != o as int {
                    if p < o as int {
                        assert(b[p].1 != b[o as int].1);
                    } else {
                        assert(b[o as int].1 != b[p].1);
                    }
                }
            }
            if delta != 0 {
                let mut leader = leaderboard.remove(o);
                leader.score = score;
                let ghost rest = b.remove(o as int);
                assert(ranks_view(leaderboard@) =~= rest);
                proof {
                    lemma_remove_keeps_order(b, o as int);
                }
                let at = find_slot(leaderboard, score, delta < 0);
                leaderboard.insert(at, leader);
                assert(ranks_view(leaderboard@) =~= rest.insert(at as int, (score, player@)));
                proof {
                    lemma_insert_keeps_order(rest, at as int, (score, player@), delta < 0);
                    lemma_insert_keeps_distinct(rest, at as int, (score, player@));
                }
            }
        },
        None => {
            let at = find_slot(leaderboard, score, delta < 0);
            if at < max_len {
                let entry = Rank { score, address: copy_bytes(player) };
                leaderboard.insert(at, entry);
                let ghost ins = b.insert(at as int, (score, player@));
                assert(ranks_view(leaderboard@) =~= ins);
                proof {
                    lemma_insert_keeps_order(b, at as int, (score, player@), delta < 0);
                    assert forall|j: int| 0 <= j < b.len() implies #[trigger] b[j].1 != player@ by {
                        assert(!(0 <= j < b.len() && b[j].1 == player@));
                    }
                    lemma_insert_keeps_distinct(b, at as int, (score, player@));
                }
                leaderboard.truncate(max_len);
                assert(ranks_view(leaderboard@) =~= truncated(ins, max_len as nat));
            }
        },
    }
}

/// Where a player lands: every entry before its slot stays above it, and the
/// entry at its slot does not.
proof fn lemma_slot_bounds(b: Seq<(i32, Seq<u8>)>, score: i32, ties_above: bool)
    ensures
        slot(b, score, ties_above) <= b.len(),
        forall|j: int|
            0 <= j < slot(b, score, ties_above) ==> stays_above(#[trigger] b[j].0, score, ties_above),
        slot(b, score, ties_above) < b.len() ==> !stays_above(
            b[slot(b, score, ties_above) as int].0,
            score,
            ties_above,
        ),
    decreases b.len(),
{
    if b.len() > 0 && stays_above(b[0].0, score, ties_above) {
        let t = b.drop_first();
        lemma_slot_bounds(t, score, ties_above);
        assert forall|j: int| 0 <= j < slot(b, score, ties_above) implies stays_above(
            #[trigger] b[j].0,
            score,
            ties_above,
        ) by {
            if j > 0 {
                assert(b[j] == t[j - 1]);
            }
        }
        if slot(b, score, ties_above) < b.len() {
            assert(b[slot(b, score, ties_above) as int] == t[slot(t, score, ties_above) as int]);
        }
    }
}

/// One update keeps a board well formed: bounded by `max_len`, sorted by
/// score, with at most one entry per player.
pub proof fn lemma_update_keeps_board_wf(
    b: Seq<(i32, Seq<u8>)>,
    player: Seq<u8>,
    score: i32,
    delta: i8,
    max_len: nat,
)
    requires
        board_wf(b, max_len),
    ensures
        board_wf(updated_board(b, player, score, delta, max_len), max_len),
{
    if has_player(b, player) {
        if delta != 0 {
            let o = player_pos(b, player);
            let rest = b.remove(o);
            lemma_remove_keeps_order(b, o);
            lemma_slot_bounds(rest, score, delta < 0);
            let at = slot(rest, score, delta < 0) as int;
            lemma_insert_keeps_order(rest, at, (score, player), delta < 0);
            lemma_insert_keeps_distinct(rest, at, (score, player));
        }
    } else {
        let at = slot(b, score, delta < 0);
        if at < max_len {
            lemma_slot_bounds(b, score, delta < 0);
            assert forall|j: int| 0 <= j < b.len() implies #[trigger] b[j].1 != player by {
                assert(!(0 <= j < b.len() && b[j].1 == player));
            }
            lemma_insert_keeps_order(b, at as int, (score, player), delta < 0);
            lemma_insert_keeps_distinct(b, at as int, (score, player));
            let ins = b.insert(at as int, (score, player));
            let t = truncated(ins, max_len);
            assert forall|i: int, j: int| 0 <= i < j < t.len() implies #[trigger] t[j].0 <= #[trigger] t[i].0 by {
                assert(t[i] == ins[i] && t[j] == ins[j]);
            }
            assert forall|i: int, j: int| 0 <= i < j < t.len() implies #[trigger] t[i].1 != #[trigger] t[j].1 by {
                assert(t[i] == ins[i] && t[j] == ins[j]);
            }
        }
    }
}

/// The board after each `(player, score, delta)` update in turn.
pub open spec fn apply_updates(
    b: Seq<(i32, Seq<u8>)>,
    updates: Seq<(Seq<u8>, i32, i8)>,
    max_len: nat,
) -> Seq<(i32, Seq<u8>)>
    decreases updates.len(),
{
    if updates.len() == 0 {
        b
    } else {
        apply_updates(
            updated_board(b, updates[0].0, updates[0].1, updates[0].2, max_len),
            updates.drop_first(),
            max_len,
        )
    }
}

/// Any sequence of updates keeps a board well formed: at most `max_len`
/// entries, scores never increasing down the board, no player twice.
pub proof fn lemma_updates_keep_board_wf(
    b: Seq<(i32, Seq<u8>)>,
    updates: Seq<(Seq<u8>, i32, i8)>,
    max_len: nat,
)
    requires
        board_wf(b, max_len),
    ensures
        board_wf(apply_updates(b, updates, max_len), max_len),
    decreases updates.len(),
{
    if updates.len() > 0 {
        lemma_update_keeps_board_wf(b, updates[0].0, updates[0].1, updates[0].2, max_len);
        lemma_updates_keep_board_wf(
            updated_board(b, updates[0].0, updates[0].1, updates[0].2, max_len),
            updates.drop_first(),
            max_len,
        );
    }
}

} // verus!
