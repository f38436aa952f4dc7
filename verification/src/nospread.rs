//! The no-spread detector's end-of-demo filter: a player's detections are
//! kept only when the player has at least the configured number of them.
use vstd::prelude::*;

verus! {

/// How many of the first `n` detections are of `player`.
pub open spec fn count_of(players: Seq<u64>, player: u64, n: int) -> nat
    decreases n,
{
    if n <= 0 {
        0
    } else {
        count_of(players, player, n - 1) + if players[n - 1] == player {
            1nat
        } else {
            0nat
        }
    }
}

/// Whether a detection of `player` is kept: every detection is kept where
/// `min_detections` is at most 1, else those of players with at least
/// `min_detections` detections in all.
pub open spec fn kept(players: Seq<u64>, player: u64, min_detections: i32) -> bool {
    min_detections <= 1 || count_of(players, player, players.len() as int) >= min_detections
}

/// The positions, in order, of the kept detections among the first `n`.
pub open spec fn kept_positions(players: Seq<u64>, min_detections: i32, n: int) -> Seq<usize>
    decreases n,
{
    if n <= 0 {
        Seq::empty()
    } else {
        let before = kept_positions(players, min_detections, n - 1);
        if kept(players, players[n - 1], min_detections) {
            before.push((n - 1) as usize)
        } else {
            before
        }
    }
}

/// A position among the first `n` is kept exactly when its detection's
/// player is kept, and no other position is.
proof fn lemma_kept_positions_members(players: Seq<u64>, min_detections: i32, n: int)
    requires
        0 <= n <= players.len(),
        players.len() <= usize::MAX,
    ensures
        forall|k: int|
            0 <= k < n ==> (kept_positions(players, min_detections, n).contains(k as usize) <==> kept(
                players,
                #[trigger] players[k],
                min_detections,
            )),
        forall|x: usize| #[trigger] kept_positions(players, min_detections, n).contains(x) ==> x < n,
    decreases n,
{
    if n > 0 {
        lemma_kept_positions_members(players, min_detections, n - 1);
        let before = kept_positions(players, min_detections, n - 1);
        let now = kept_positions(players, min_detections, n);
        assert forall|k: int| 0 <= k < n implies (now.contains(k as usize) <==> kept(
            players,
            #[trigger] players[k],
            min_detections,
        )) by {
            if kept(players, players[n - 1], min_detections) {
                assert(now == before.push((n - 1) as usize));
                if now.contains(k as usize) && k < n - 1 {
                    let w = choose|w: int| 0 <= w < now.len() && now[w] == k as usize;
                    if w < before.len() {
                        assert(before[w] == k as usize);
                    }
                }
                if k < n - 1 && before.contains(k as usize) {
                    let w = choose|w: int| 0 <= w < before.len() && before[w] == k as usize;
                    assert(now[w] == k as usize);
                }
                if k == n - 1 {
                    assert(now[before.len() as int] == k as usize);
                }
            } else {
                assert(now == before);
                if k == n - 1 && before.contains(k as usize) {
                    assert((k as usize) < n - 1);
                }
            }
        }
        assert forall|x: usize| #[trigger] now.contains(x) implies x < n by {
            let w = choose|w: int| 0 <= w < now.len() && now[w] == x;
            if w < before.len() {
                assert(before[w] == x);
                assert(before.contains(x));
            }
        }
    }
}

/// The filter keeps or drops a player's detections all together: two
/// detections of one player are both kept or both dropped, and every kept
/// detection's player has at least `min_detections` detections where that
/// is more than 1.
pub proof fn lemma_filter_per_player(players: Seq<u64>, min_detections: i32, i: int, j: int)
    requires
        players.len() <= usize::MAX,
        0 <= i < players.len(),
        0 <= j < players.len(),
    ensures
        players[i] == players[j] ==> (kept_positions(players, min_detections, players.len() as int).contains(
            i as usize,
        ) <==> kept_positions(players, min_detections, players.len() as int).contains(j as usize)),
        kept_positions(players, min_detections, players.len() as int).contains(i as usize) && min_detections > 1
            ==> count_of(players, players[i], players.len() as int) >= min_detections,
{
    lemma_kept_positions_members(players, min_detections, players.len() as int);
    assert(kept(players, players[i], min_detections) == kept_positions(players, min_detections, players.len() as int).contains(i as usize));
    assert(kept(players, players[j], min_detections) == kept_positions(players, min_detections, players.len() as int).contains(j as usize));
}

/// How many detections are of `player`.
fn count_player(players: &Vec<u64>, player: u64) -> (c: usize)
    ensures
        c == count_of(players@, player, players.len() as int),
{
    let mut c: usize = 0;
    let mut i: usize = 0;
    while i < players.len()
        invariant
            i <= players.len(),
            c == count_of(players@, player, i as int),
            c <= i,
        decreases players.len() - i,
    {
        if players[i] == player {
            c += 1;
        }
        i += 1;
    }
    c
}

/// Given the player of each detection, in order, the positions of the
/// detections kept at the end of the demo.
pub fn min_detections_filter(players: &Vec<u64>, min_detections: i32) -> (kept_at: Vec<usize>)
    ensures
        kept_at@ == kept_positions(players@, min_detections, players.len() as int),
{
    let mut out: Vec<usize> = Vec::new();
    let mut i: usize = 0;
    while i < players.len()
        invariant
            i <= players.len(),
            out@ == kept_positions(players@, min_detections, i as int),
        decreases players.len() - i,
    {
        let keep = if min_detections <= 1 {
            true
        } else {
            count_player(players, players[i]) >= min_detections as usize
        };
        if keep {
            out.push(i);
        }
        i += 1;
    }
    out
}

} // verus!
