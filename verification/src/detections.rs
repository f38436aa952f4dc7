//! Putting a demo's detections in order for reading: grouped by player,
//! and counted by algorithm and player.
use crate::text::str_eq;
use vstd::prelude::*;

verus! {

/// Whether detection `a` comes before detection `b`: by tick, then by
/// position.
pub open spec fn tick_order(dets: Seq<(u32, u64)>, a: int, b: int) -> bool {
    dets[a].0 < dets[b].0 || (dets[a].0 == dets[b].0 && a < b)
}

/// Whether `g` groups, among the first `i` detections, those of player
/// `g.0`: it lists each of them once, by tick, then by position.
pub open spec fn groups_player(dets: Seq<(u32, u64)>, i: int, g: (u64, Vec<usize>)) -> bool {
    &&& g.1@.len() > 0
    &&& forall|m: int| 0 <= m < g.1@.len() ==> #[trigger] g.1@[m] < i && dets[g.1@[m] as int].1 == g.0
    &&& forall|m1: int, m2: int|
        0 <= m1 < m2 < g.1@.len() ==> tick_order(dets, #[trigger] g.1@[m1] as int, #[trigger] g.1@[m2] as int)
    &&& forall|j: int| 0 <= j < i && #[trigger] dets[j].1 == g.0 ==> g.1@.contains(j as usize)
}

/// Whether one of the groups is that of player `sid`.
pub open spec fn has_group(groups: Seq<(u64, Vec<usize>)>, sid: u64) -> bool {
    exists|k: int| 0 <= k < groups.len() && (#[trigger] groups[k]).0 == sid
}

/// What holds of the groups of the first `i` detections.
pub open spec fn grouped_upto(dets: Seq<(u32, u64)>, i: int, groups: Seq<(u64, Vec<usize>)>) -> bool {
    &&& forall|k: int| 0 <= k < groups.len() ==> groups_player(dets, i, #[trigger] groups[k])
    &&& forall|j: int| 0 <= j < i ==> has_group(groups, #[trigger] dets[j].1)
    &&& forall|k1: int, k2: int|
        0 <= k1 < k2 < groups.len() ==> (#[trigger] groups[k1]).0 != (#[trigger] groups[k2]).0
}

/// The index of the group of player `sid`, or the number of groups.
fn find_group(groups: &Vec<(u64, Vec<usize>)>, sid: u64) -> (k: usize)
    ensures
        k <= groups@.len(),
        k < groups@.len() ==> groups@[k as int].0 == sid,
        k == groups@.len() ==> !has_group(groups@, sid),
{
    let mut k: usize = 0;
    while k < groups.len()
        invariant
            k <= groups@.len(),
            forall|j: int| 0 <= j < k ==> (#[trigger] groups@[j]).0 != sid,
        decreases groups.len() - k,
    {
        if groups[k].0 == sid {
            return k;
        }
        k += 1;
    }
    k
}

/// Adds detection `i`, later than all in `g`, to group `g` in tick order.
fn add_to_group(dets: &Vec<(u32, u64)>, g: &mut (u64, Vec<usize>), i: usize)
    requires
        i < dets@.len(),
        dets@[i as int].1 == old(g).0,
        groups_player(dets@, i as int, *old(g)),
    ensures
        final(g).0 == old(g).0,
        groups_player(dets@, i + 1, *final(g)),
{
    let ghost before = g.1@;
    let t = dets[i].0;
    let mut p: usize = 0;
    while p < g.1.len() && dets[g.1[p]].0 <= t
        invariant
            p <= g.1@.len(),
            i < dets@.len(),
            g.1@ == before,
            forall|m: int| 0 <= m < before.len() ==> #[trigger] before[m] < i,
            forall|m: int| 0 <= m < p ==> dets@[(#[trigger] before[m]) as int].0 <= t,
        decreases g.1.len() - p,
    {
        p += 1;
    }
    g.1.insert(p, i);
    let ghost after = g.1@;
    assert(after =~= before.insert(p as int, i));
    assert forall|m1: int, m2: int| 0 <= m1 < m2 < after.len() implies tick_order(
        dets@,
        #[trigger] after[m1] as int,
        #[trigger] after[m2] as int,
    ) by {
        if m2 < p {
            assert(after[m1] == before[m1] && after[m2] == before[m2]);
        } else if m2 == p {
            assert(after[m1] == before[m1]);
        } else if m1 < p {
            assert(after[m1] == before[m1] && after[m2] == before[m2 - 1]);
        } else if m1 == p {
            assert(after[m2] == before[m2 - 1]);
            if m2 - 1 > p {
                assert(tick_order(dets@, before[p as int] as int, before[m2 - 1] as int));
            }
            assert(dets@[before[p as int] as int].0 > t);
        } else {
            assert(after[m1] == before[m1 - 1] && after[m2] == before[m2 - 1]);
        }
    }
    assert forall|m: int| 0 <= m < after.len() implies #[trigger] after[m] < i + 1 && dets@[after[m] as int].1
        == g.0 by {
        if m < p {
            assert(after[m] == before[m]);
        } else if m > p {
            assert(after[m] == before[m - 1]);
        }
    }
    assert forall|j: int| 0 <= j < i + 1 && #[trigger] dets@[j].1 == g.0 implies after.contains(
        j as usize,
    ) by {
        if j < i {
            assert(before.contains(j as usize));
            let m = choose|m: int| 0 <= m < before.len() && before[m] == j as usize;
            if m < p {
                assert(after[m] == j as usize);
            } else {
                assert(after[m + 1] == j as usize);
            }
        } else {
            assert(after[p as int] == i);
        }
    }
}

/// Counts detection `i` into the groups.
fn group_detection(groups: &mut Vec<(u64, Vec<usize>)>, dets: &Vec<(u32, u64)>, i: usize)
    requires
        i < dets@.len(),
        grouped_upto(dets@, i as int, old(groups)@),
    ensures
        grouped_upto(dets@, i + 1, final(groups)@),
{
    let sid = dets[i].1;
    let ghost old_groups = groups@;
    let k = find_group(groups, sid);
    if k == groups.len() {
        let mut idx: Vec<usize> = Vec::new();
        idx.push(i);
        groups.push((sid, idx));
        proof {
            let ng = groups@;
            assert forall|k1: int| 0 <= k1 < ng.len() implies groups_player(dets@, i + 1, #[trigger] ng[k1]) by {
                if k1 < old_groups.len() {
                    assert(ng[k1] == old_groups[k1]);
                    assert forall|j: int| 0 <= j < i + 1 && #[trigger] dets@[j].1 == ng[k1].0
                        implies ng[k1].1@.contains(j as usize) by {
                        if j == i {
                            assert(has_group(old_groups, sid));
                        }
                    }
                } else {
                    assert(ng[k1].1@ =~= seq![i]);
                    assert forall|j: int| 0 <= j < i + 1 && #[trigger] dets@[j].1 == sid
                        implies ng[k1].1@.contains(j as usize) by {
                        if j < i {
                            assert(has_group(old_groups, dets@[j].1));
                        }
                        assert(ng[k1].1@[0] == i);
                    }
                }
            }
            assert forall|j: int| 0 <= j < i + 1 implies has_group(ng, #[trigger] dets@[j].1) by {
                if j == i {
                    assert(ng[old_groups.len() as int].0 == sid);
                } else {
                    let kk = choose|kk: int| 0 <= kk < old_groups.len() && (#[trigger] old_groups[kk]).0 == dets@[j].1;
                    assert(ng[kk] == old_groups[kk]);
                }
            }
            assert forall|k1: int, k2: int| 0 <= k1 < k2 < ng.len() implies (#[trigger] ng[k1]).0 != (#[trigger] ng[k2]).0 by {
                if k2 == old_groups.len() {
                    assert(ng[k1] == old_groups[k1]);
                }
            }
        }
    } else {
        let mut g = groups.remove(k);
        proof {
            assert(g == old_groups[k as int]);
        }
        add_to_group(dets, &mut g, i);
        groups.insert(k, g);
        proof {
            let ng = groups@;
            assert(ng =~= old_groups.update(k as int, g));
            assert forall|k1: int| 0 <= k1 < ng.len() implies groups_player(dets@, i + 1, #[trigger] ng[k1]) by {
                if k1 != k {
                    assert(ng[k1] == old_groups[k1]);
                    assert(old_groups[k1].0 != sid);
                }
            }
            assert forall|j: int| 0 <= j < i + 1 implies has_group(ng, #[trigger] dets@[j].1) by {
                if j == i {
                    assert(ng[k as int].0 == sid);
                } else {
                    let kk = choose|kk: int| 0 <= kk < old_groups.len() && (#[trigger] old_groups[kk]).0 == dets@[j].1;
                    assert(ng[kk].0 == old_groups[kk].0);
                }
            }
            assert forall|k1: int, k2: int| 0 <= k1 < k2 < ng.len() implies (#[trigger] ng[k1]).0 != (#[trigger] ng[k2]).0 by {
                assert(ng[k1].0 == old_groups[k1].0 && ng[k2].0 == old_groups[k2].0);
            }
        }
    }
}

/// Orders groups by their number of detections, most first, keeping the
/// order of groups with as many.
fn order_by_size(groups: Vec<(u64, Vec<usize>)>, Ghost(dets): Ghost<Seq<(u32, u64)>>) -> (r: Vec<
    (u64, Vec<usize>),
>)
    requires
        grouped_upto(dets, dets.len() as int, groups@),
    ensures
        grouped_upto(dets, dets.len() as int, r@),
        forall|k1: int, k2: int|
            0 <= k1 < k2 < r@.len() ==> (#[trigger] r@[k1]).1@.len() >= (#[trigger] r@[k2]).1@.len(),
{
    let ghost n = dets.len() as int;
    let mut rest = groups;
    let mut out: Vec<(u64, Vec<usize>)> = Vec::new();
    while rest.len() > 0
        invariant
            forall|k: int| 0 <= k < out@.len() ==> groups_player(dets, n, #[trigger] out@[k]),
            forall|k: int| 0 <= k < rest@.len() ==> groups_player(dets, n, #[trigger] rest@[k]),
            forall|j: int|
                0 <= j < n ==> has_group(out@, #[trigger] dets[j].1) || has_group(rest@, dets[j].1),
            forall|k1: int, k2: int|
                0 <= k1 < k2 < out@.len() ==> (#[trigger] out@[k1]).0 != (#[trigger] out@[k2]).0,
            forall|k1: int, k2: int|
                0 <= k1 < k2 < rest@.len() ==> (#[trigger] rest@[k1]).0 != (#[trigger] rest@[k2]).0,
            forall|k1: int, k2: int|
                0 <= k1 < out@.len() && 0 <= k2 < rest@.len() ==> (#[trigger] out@[k1]).0
                    != (#[trigger] rest@[k2]).0,
            forall|k1: int, k2: int|
                0 <= k1 < k2 < out@.len() ==> (#[trigger] out@[k1]).1@.len() >= (#[trigger] out@[k2]).1@.len(),
        decreases rest.len(),
    {
        let ghost old_out = out@;
        let ghost old_rest = rest@;
        let x = rest.remove(0);
        let mut p: usize = 0;
        while p < out.len() && out[p].1.len() >= x.1.len()
            invariant
                p <= out@.len(),
                out@ == old_out,
                forall|k: int| 0 <= k < p ==> (#[trigger] out@[k]).1@.len() >= x.1@.len(),
            decreases out.len() - p,
        {
            p += 1;
        }
        out.insert(p, x);
        proof {
            let no = out@;
            let nr = rest@;
            assert(no =~= old_out.insert(p as int, x));
            assert(nr =~= old_rest.subrange(1, old_rest.len() as int));
            assert(x == old_rest[0]);
            assert forall|k: int| 0 <= k < no.len() implies groups_player(dets, n, #[trigger] no[k]) by {
                if k < p {
                    assert(no[k] == old_out[k]);
                } else if k > p {
                    assert(no[k] == old_out[k - 1]);
                }
            }
            assert forall|k: int| 0 <= k < nr.len() implies groups_player(dets, n, #[trigger] nr[k]) by {
                assert(nr[k] == old_rest[k + 1]);
            }
            assert forall|j: int| 0 <= j < n implies has_group(no, #[trigger] dets[j].1) || has_group(
                nr,
                dets[j].1,
            ) by {
                let s = dets[j].1;
                if has_group(old_out, s) {
                    let k = choose|k: int| 0 <= k < old_out.len() && (#[trigger] old_out[k]).0 == s;
                    if k < p {
                        assert(no[k] == old_out[k]);
                    } else {
                        assert(no[k + 1] == old_out[k]);
                    }
                } else {
                    let k = choose|k: int| 0 <= k < old_rest.len() && (#[trigger] old_rest[k]).0 == s;
                    if k == 0 {
                        assert(no[p as int] == x);
                    } else {
                        assert(nr[k - 1] == old_rest[k]);
                    }
                }
            }
            assert forall|k1: int, k2: int| 0 <= k1 < k2 < no.len() implies (#[trigger] no[k1]).0
                != (#[trigger] no[k2]).0 by {
                if k1 < p && k2 < p {
                    assert(no[k1] == old_out[k1] && no[k2] == old_out[k2]);
                } else if k1 < p && k2 == p {
                    assert(no[k1] == old_out[k1]);
                } else if k1 < p {
                    assert(no[k1] == old_out[k1] && no[k2] == old_out[k2 - 1]);
                } else if k1 == p {
                    assert(no[k2] == old_out[k2 - 1]);
                } else {
                    assert(no[k1] == old_out[k1 - 1] && no[k2] == old_out[k2 - 1]);
                }
            }
            assert forall|k1: int, k2: int| 0 <= k1 < k2 < nr.len() implies (#[trigger] nr[k1]).0
                != (#[trigger] nr[k2]).0 by {
                assert(nr[k1] == old_rest[k1 + 1] && nr[k2] == old_rest[k2 + 1]);
            }
            assert forall|k1: int, k2: int| 0 <= k1 < no.len() && 0 <= k2 < nr.len() implies (#[trigger] no[k1]).0
                != (#[trigger] nr[k2]).0 by {
                assert(nr[k2] == old_rest[k2 + 1]);
                if k1 < p {
                    assert(no[k1] == old_out[k1]);
                } else if k1 > p {
                    assert(no[k1] == old_out[k1 - 1]);
                }
            }
            assert forall|k1: int, k2: int| 0 <= k1 < k2 < no.len() implies (#[trigger] no[k1]).1@.len()
                >= (#[trigger] no[k2]).1@.len() by {
                if k1 < p && k2 < p {
                    assert(no[k1] == old_out[k1] && no[k2] == old_out[k2]);
                } else if k1 < p && k2 == p {
                    assert(no[k1] == old_out[k1]);
                } else if k1 < p {
                    assert(no[k1] == old_out[k1] && no[k2] == old_out[k2 - 1]);
                } else if k1 == p {
                    assert(no[k2] == old_out[k2 - 1]);
                    assert(old_out[p as int].1@.len() < x.1@.len());
                } else {
                    assert(no[k1] == old_out[k1 - 1] && no[k2] == old_out[k2 - 1]);
                }
            }
        }
    }
    proof {
        assert forall|j: int| 0 <= j < n implies has_group(out@, #[trigger] dets[j].1) by {
            if has_group(rest@, dets[j].1) {
                let k = choose|k: int| 0 <= k < rest@.len() && (#[trigger] rest@[k]).0 == dets[j].1;
                assert(false);
            }
        }
    }
    out
}

/// A demo's detections, given by tick and player, grouped by player: each
/// player once, with the positions of their detections ordered by tick
/// (then by position); the players with the most detections first, those
/// with as many in the order they first appear.
pub fn group_by_player(dets: &Vec<(u32, u64)>) -> (r: Vec<(u64, Vec<usize>)>)
    ensures
        grouped_upto(dets@, dets@.len() as int, r@),
        forall|k1: int, k2: int|
            0 <= k1 < k2 < r@.len() ==> (#[trigger] r@[k1]).1@.len() >= (#[trigger] r@[k2]).1@.len(),
{
    let mut groups: Vec<(u64, Vec<usize>)> = Vec::new();
    let mut i: usize = 0;
    while i < dets.len()
        invariant
            i <= dets@.len(),
            grouped_upto(dets@, i as int, groups@),
        decreases dets.len() - i,
    {
        group_detection(&mut groups, dets, i);
        i += 1;
    }
    order_by_size(groups, Ghost(dets@))
}

/// How many of the first `i` detections are by algorithm `alg` on player
/// `sid`.
pub open spec fn hits(dets: Seq<(String, u64)>, i: int, alg: Seq<char>, sid: u64) -> nat
    decreases i,
{
    if i <= 0 {
        0
    } else {
        hits(dets, i - 1, alg, sid) + if dets[i - 1].0@ == alg && dets[i - 1].1 == sid {
            1nat
        } else {
            0nat
        }
    }
}

/// How many of the first `i` detections are by algorithm `alg`.
pub open spec fn alg_hits(dets: Seq<(String, u64)>, i: int, alg: Seq<char>) -> nat
    decreases i,
{
    if i <= 0 {
        0
    } else {
        alg_hits(dets, i - 1, alg) + if dets[i - 1].0@ == alg {
            1nat
        } else {
            0nat
        }
    }
}

proof fn lemma_hits_bounded(dets: Seq<(String, u64)>, i: int, alg: Seq<char>, sid: u64)
    requires
        0 <= i,
    ensures
        hits(dets, i, alg, sid) <= i,
        alg_hits(dets, i, alg) <= i,
    decreases i,
{
    if i > 0 {
        lemma_hits_bounded(dets, i - 1, alg, sid);
    }
}

proof fn lemma_no_hits(dets: Seq<(String, u64)>, i: int, alg: Seq<char>, sid: u64)
    requires
        0 <= i <= dets.len(),
        forall|j: int| 0 <= j < i ==> !((#[trigger] dets[j]).0@ == alg && dets[j].1 == sid),
    ensures
        hits(dets, i, alg, sid) == 0,
    decreases i,
{
    if i > 0 {
        lemma_no_hits(dets, i - 1, alg, sid);
    }
}

proof fn lemma_no_alg_hits(dets: Seq<(String, u64)>, i: int, alg: Seq<char>)
    requires
        0 <= i <= dets.len(),
        forall|j: int| 0 <= j < i ==> (#[trigger] dets[j]).0@ != alg,
    ensures
        alg_hits(dets, i, alg) == 0,
    decreases i,
{
    if i > 0 {
        lemma_no_alg_hits(dets, i - 1, alg);
    }
}

/// The detections of one algorithm: on which players, how many each, and
/// how many in all.
pub struct AlgorithmCount {
    pub algorithm: String,
    pub players: Vec<(u64, usize)>,
    pub total: usize,
}

/// Whether one of the player counts is that of player `sid`.
pub open spec fn lists_player(ps: Seq<(u64, usize)>, sid: u64) -> bool {
    exists|m: int| 0 <= m < ps.len() && (#[trigger] ps[m]).0 == sid
}

/// Whether `a` counts, among the first `i` detections, those of its
/// algorithm: in all, and for each player once.
pub open spec fn counts_upto(dets: Seq<(String, u64)>, i: int, a: AlgorithmCount) -> bool {
    &&& a.total == alg_hits(dets, i, a.algorithm@)
    &&& a.total > 0
    &&& forall|m: int|
        0 <= m < a.players@.len() ==> (#[trigger] a.players@[m]).1 == hits(
            dets,
            i,
            a.algorithm@,
            a.players@[m].0,
        ) && a.players@[m].1 > 0
    &&& forall|j: int|
        0 <= j < i && (#[trigger] dets[j]).0@ == a.algorithm@ ==> lists_player(a.players@, dets[j].1)
    &&& forall|m1: int, m2: int|
        0 <= m1 < m2 < a.players@.len() ==> (#[trigger] a.players@[m1]).0 != (#[trigger] a.players@[m2]).0
}

/// Whether one of the counts is that of algorithm `alg`.
pub open spec fn has_algorithm(cs: Seq<AlgorithmCount>, alg: Seq<char>) -> bool {
    exists|k: int| 0 <= k < cs.len() && (#[trigger] cs[k]).algorithm@ == alg
}

/// What holds of the counts of the first `i` detections.
pub open spec fn counted_upto(dets: Seq<(String, u64)>, i: int, cs: Seq<AlgorithmCount>) -> bool {
    &&& forall|k: int| 0 <= k < cs.len() ==> counts_upto(dets, i, #[trigger] cs[k])
    &&& forall|j: int| 0 <= j < i ==> has_algorithm(cs, (#[trigger] dets[j]).0@)
    &&& forall|k1: int, k2: int|
        0 <= k1 < k2 < cs.len() ==> (#[trigger] cs[k1]).algorithm@ != (#[trigger] cs[k2]).algorithm@
}

proof fn lemma_count_step(dets: Seq<(String, u64)>, i: int, alg: Seq<char>, sid: u64)
    requires
        0 <= i < dets.len(),
    ensures
        alg_hits(dets, i + 1, alg) == alg_hits(dets, i, alg) + if dets[i].0@ == alg {
            1nat
        } else {
            0nat
        },
        hits(dets, i + 1, alg, sid) == hits(dets, i, alg, sid) + if dets[i].0@ == alg && dets[i].1
            == sid {
            1nat
        } else {
            0nat
        },
{
}

/// Counts detection `i` into the counts of its algorithm, where `a` is that
/// count so far.
fn count_into(a: &mut AlgorithmCount, dets: &Vec<(String, u64)>, i: usize)
    requires
        i < dets@.len(),
        dets@[i as int].0@ == old(a).algorithm@,
        counts_upto(dets@, i as int, *old(a)),
    ensures
        final(a).algorithm == old(a).algorithm,
        counts_upto(dets@, i + 1, *final(a)),
{
    let n = dets.len();
    let sid = dets[i].1;
    let ghost alg = a.algorithm@;
    let ghost before = a.players@;
    proof {
        lemma_hits_bounded(dets@, i as int, alg, sid);
        lemma_count_step(dets@, i as int, alg, sid);
        assert forall|m: int| 0 <= m < before.len() implies #[trigger] hits(dets@, i + 1, alg, before[m].0)
            == hits(dets@, i as int, alg, before[m].0) + if before[m].0 == sid {
            1nat
        } else {
            0nat
        } by {
            lemma_count_step(dets@, i as int, alg, before[m].0);
        }
    }
    let mut m: usize = 0;
    while m < a.players.len() && a.players[m].0 != sid
        invariant
            m <= a.players@.len(),
            a.players@ == before,
            forall|q: int| 0 <= q < m ==> (#[trigger] before[q]).0 != sid,
        decreases a.players.len() - m,
    {
        m += 1;
    }
    if m < a.players.len() {
        let c = a.players[m].1;
        proof {
            lemma_hits_bounded(dets@, i as int, alg, sid);
            assert(c == hits(dets@, i as int, alg, before[m as int].0));
            assert(c <= i);
        }
        a.players[m] = (sid, c + 1);
        proof {
            let after = a.players@;
            assert(after =~= before.update(m as int, (sid, (c + 1) as usize)));
            assert forall|q: int| 0 <= q < after.len() implies (#[trigger] after[q]).1 == hits(
                dets@,
                i + 1,
                alg,
                after[q].0,
            ) && after[q].1 > 0 by {
                assert(hits(dets@, i + 1, alg, before[q].0) == hits(dets@, i as int, alg, before[q].0)
                    + if before[q].0 == sid { 1nat } else { 0nat });
                if q != m {
                    assert(after[q] == before[q]);
                }
            }
            assert forall|j: int| 0 <= j < i + 1 && (#[trigger] dets@[j]).0@ == alg implies lists_player(
                after,
                dets@[j].1,
            ) by {
                if j == i {
                    assert(after[m as int].0 == sid);
                } else {
                    let q = choose|q: int| 0 <= q < before.len() && (#[trigger] before[q]).0 == dets@[j].1;
                    assert(after[q].0 == before[q].0);
                }
            }
            assert forall|m1: int, m2: int| 0 <= m1 < m2 < after.len() implies (#[trigger] after[m1]).0
                != (#[trigger] after[m2]).0 by {
                assert(after[m1].0 == before[m1].0 && after[m2].0 == before[m2].0);
            }
        }
    } else {
        proof {
            assert forall|j: int| 0 <= j < i implies !((#[trigger] dets@[j]).0@ == alg && dets@[j].1 == sid) by {
                if dets@[j].0@ == alg && dets@[j].1 == sid {
                    let q = choose|q: int| 0 <= q < before.len() && (#[trigger] before[q]).0 == dets@[j].1;
                }
            }
            lemma_no_hits(dets@, i as int, alg, sid);
        }
        a.players.push((sid, 1));
        proof {
            let after = a.players@;
            assert(after =~= before.push((sid, 1usize)));
            assert forall|q: int| 0 <= q < after.len() implies (#[trigger] after[q]).1 == hits(
                dets@,
                i + 1,
                alg,
                after[q].0,
            ) && after[q].1 > 0 by {
                if q < before.len() {
                    assert(after[q] == before[q]);
                    assert(hits(dets@, i + 1, alg, before[q].0) == hits(dets@, i as int, alg, before[q].0)
                        + if before[q].0 == sid { 1nat } else { 0nat });
                }
            }
            assert forall|j: int| 0 <= j < i + 1 && (#[trigger] dets@[j]).0@ == alg implies lists_player(
                after,
                dets@[j].1,
            ) by {
                if j == i {
                    assert(after[before.len() as int].0 == sid);
                } else {
                    let q = choose|q: int| 0 <= q < before.len() && (#[trigger] before[q]).0 == dets@[j].1;
                    assert(after[q] == before[q]);
                }
            }
            assert forall|m1: int, m2: int| 0 <= m1 < m2 < after.len() implies (#[trigger] after[m1]).0
                != (#[trigger] after[m2]).0 by {
                assert(after[m1] == before[m1]);
                if m2 < before.len() {
                    assert(after[m2] == before[m2]);
                }
            }
        }
    }
    proof {
        lemma_hits_bounded(dets@, i as int, alg, sid);
    }
    a.total = a.total + 1;
}

proof fn lemma_other_count(dets: Seq<(String, u64)>, i: int, a: AlgorithmCount)
    requires
        0 <= i < dets.len(),
        dets[i].0@ != a.algorithm@,
        counts_upto(dets, i, a),
    ensures
        counts_upto(dets, i + 1, a),
{
    lemma_count_step(dets, i, a.algorithm@, 0);
    assert forall|m: int| 0 <= m < a.players@.len() implies (#[trigger] a.players@[m]).1 == hits(
        dets,
        i + 1,
        a.algorithm@,
        a.players@[m].0,
    ) && a.players@[m].1 > 0 by {
        lemma_count_step(dets, i, a.algorithm@, a.players@[m].0);
    }
}

/// The index of the count of algorithm `alg`, or the number of counts.
fn find_algorithm(cs: &Vec<AlgorithmCount>, alg: &str) -> (k: usize)
    ensures
        k <= cs@.len(),
        k < cs@.len() ==> cs@[k as int].algorithm@ == alg@,
        k == cs@.len() ==> !has_algorithm(cs@, alg@),
{
    let mut k: usize = 0;
    while k < cs.len()
        invariant
            k <= cs@.len(),
            forall|j: int| 0 <= j < k ==> (#[trigger] cs@[j]).algorithm@ != alg@,
        decreases cs.len() - k,
    {
        if str_eq(cs[k].algorithm.as_str(), alg) {
            return k;
        }
        k += 1;
    }
    k
}

/// What holds of the player counts of algorithm `alg` over the first `i`
/// detections.
pub open spec fn players_counted(dets: Seq<(String, u64)>, i: int, alg: Seq<char>, ps: Seq<(u64, usize)>) -> bool {
    &&& forall|m: int| 0 <= m < ps.len() ==> (#[trigger] ps[m]).1 == hits(dets, i, alg, ps[m].0) && ps[m].1 > 0
    &&& forall|j: int| 0 <= j < i && (#[trigger] dets[j]).0@ == alg ==> lists_player(ps, dets[j].1)
    &&& forall|m1: int, m2: int| 0 <= m1 < m2 < ps.len() ==> (#[trigger] ps[m1]).0 != (#[trigger] ps[m2]).0
}

/// Orders player counts by count, most first, keeping the order of players
/// with as many.
fn order_players(
    ps: Vec<(u64, usize)>,
    Ghost(dets): Ghost<Seq<(String, u64)>>,
    Ghost(alg): Ghost<Seq<char>>,
) -> (r: Vec<(u64, usize)>)
    requires
        players_counted(dets, dets.len() as int, alg, ps@),
    ensures
        players_counted(dets, dets.len() as int, alg, r@),
        forall|m1: int, m2: int| 0 <= m1 < m2 < r@.len() ==> (#[trigger] r@[m1]).1 >= (#[trigger] r@[m2]).1,
{
    let ghost n = dets.len() as int;
    let mut rest = ps;
    let mut out: Vec<(u64, usize)> = Vec::new();
    while rest.len() > 0
        invariant
            forall|m: int| 0 <= m < out@.len() ==> (#[trigger] out@[m]).1 == hits(dets, n, alg, out@[m].0) && out@[m].1 > 0,
            forall|m: int| 0 <= m < rest@.len() ==> (#[trigger] rest@[m]).1 == hits(dets, n, alg, rest@[m].0) && rest@[m].1 > 0,
            forall|j: int|
                0 <= j < n && (#[trigger] dets[j]).0@ == alg ==> lists_player(out@, dets[j].1) || lists_player(rest@, dets[j].1),
            forall|m1: int, m2: int| 0 <= m1 < m2 < out@.len() ==> (#[trigger] out@[m1]).0 != (#[trigger] out@[m2]).0,
            forall|m1: int, m2: int| 0 <= m1 < m2 < rest@.len() ==> (#[trigger] rest@[m1]).0 != (#[trigger] rest@[m2]).0,
            forall|m1: int, m2: int|
                0 <= m1 < out@.len() && 0 <= m2 < rest@.len() ==> (#[trigger] out@[m1]).0 != (#[trigger] rest@[m2]).0,
            forall|m1: int, m2: int| 0 <= m1 < m2 < out@.len() ==> (#[trigger] out@[m1]).1 >= (#[trigger] out@[m2]).1,
        decreases rest.len(),
    {
        let ghost old_out = out@;
        let ghost old_rest = rest@;
        let x = rest.remove(0);
        let mut p: usize = 0;
        while p < out.len() && out[p].1 >= x.1
            invariant
                p <= out@.len(),
                out@ == old_out,
                forall|k: int| 0 <= k < p ==> (#[trigger] out@[k]).1 >= x.1,
            decreases out.len() - p,
        {
            p += 1;
        }
        out.insert(p, x);
        proof {
            let no = out@;
            let nr = rest@;
            assert(no =~= old_out.insert(p as int, x));
            assert(nr =~= old_rest.subrange(1, old_rest.len() as int));
            assert(x == old_rest[0]);
            assert forall|k: int| 0 <= k < no.len() implies (#[trigger] no[k]).1 == hits(dets, n, alg, no[k].0) && no[k].1 > 0 by {
                if k < p {
                    assert(no[k] == old_out[k]);
                } else if k > p {
                    assert(no[k] == old_out[k - 1]);
                }
            }
            assert forall|k: int| 0 <= k < nr.len() implies (#[trigger] nr[k]).1 == hits(dets, n, alg, nr[k].0) && nr[k].1 > 0 by {
                assert(nr[k] == old_rest[k + 1]);
            }
            assert forall|j: int| 0 <= j < n && (#[trigger] dets[j]).0@ == alg implies lists_player(no, dets[j].1)
                || lists_player(nr, dets[j].1) by {
                let s = dets[j].1;
                if lists_player(old_out, s) {
                    let k = choose|k: int| 0 <= k < old_out.len() && (#[trigger] old_out[k]).0 == s;
                    if k < p {
                        assert(no[k] == old_out[k]);
                    } else {
                        assert(no[k + 1] == old_out[k]);
                    }
                } else {
                    let k = choose|k: int| 0 <= k < old_rest.len() && (#[trigger] old_rest[k]).0 == s;
                    if k == 0 {
                        assert(no[p as int] == x);
                    } else {
                        assert(nr[k - 1] == old_rest[k]);
                    }
                }
            }
            assert forall|k1: int, k2: int| 0 <= k1 < k2 < no.len() implies (#[trigger] no[k1]).0 != (#[trigger] no[k2]).0 by {
                if k1 < p && k2 < p {
                    assert(no[k1] == old_out[k1] && no[k2] == old_out[k2]);
                } else if k1 < p && k2 == p {
                    assert(no[k1] == old_out[k1]);
                } else if k1 < p {
                    assert(no[k1] == old_out[k1] && no[k2] == old_out[k2 - 1]);
                } else if k1 == p {
                    assert(no[k2] == old_out[k2 - 1]);
                } else {
                    assert(no[k1] == old_out[k1 - 1] && no[k2] == old_out[k2 - 1]);
                }
            }
            assert forall|k1: int, k2: int| 0 <= k1 < k2 < nr.len() implies (#[trigger] nr[k1]).0 != (#[trigger] nr[k2]).0 by {
                assert(nr[k1] == old_rest[k1 + 1] && nr[k2] == old_rest[k2 + 1]);
            }
            assert forall|k1: int, k2: int| 0 <= k1 < no.len() && 0 <= k2 < nr.len() implies (#[trigger] no[k1]).0
                != (#[trigger] nr[k2]).0 by {
                assert(nr[k2] == old_rest[k2 + 1]);
                if k1 < p {
                    assert(no[k1] == old_out[k1]);
                } else if k1 > p {
                    assert(no[k1] == old_out[k1 - 1]);
                }
            }
            assert forall|k1: int, k2: int| 0 <= k1 < k2 < no.len() implies (#[trigger] no[k1]).1 >= (#[trigger] no[k2]).1 by {
                if k1 < p && k2 < p {
                    assert(no[k1] == old_out[k1] && no[k2] == old_out[k2]);
                } else if k1 < p && k2 == p {
                    assert(no[k1] == old_out[k1]);
                } else if k1 < p {
                    assert(no[k1] == old_out[k1] && no[k2] == old_out[k2 - 1]);
                } else if k1 == p {
                    assert(no[k2] == old_out[k2 - 1]);
                    assert(old_out[p as int].1 < x.1);
                } else {
                    assert(no[k1] == old_out[k1 - 1] && no[k2] == old_out[k2 - 1]);
                }
            }
        }
    }
    proof {
        assert forall|j: int| 0 <= j < n && (#[trigger] dets[j]).0@ == alg implies lists_player(out@, dets[j].1) by {
            if lists_player(rest@, dets[j].1) {
                let k = choose|k: int| 0 <= k < rest@.len() && (#[trigger] rest@[k]).0 == dets[j].1;
                assert(false);
            }
        }
    }
    out
}

/// A demo's detections, given by algorithm and player, counted: one count
/// per algorithm, in the order the algorithms first appear, each with its
/// number of detections and, most first, the number on each player.
pub fn count_by_algorithm(dets: &Vec<(String, u64)>) -> (r: Vec<AlgorithmCount>)
    ensures
        counted_upto(dets@, dets@.len() as int, r@),
        forall|k: int, m1: int, m2: int|
            0 <= k < r@.len() && 0 <= m1 < m2 < r@[k].players@.len() ==> (#[trigger] r@[k].players@[m1]).1
                >= (#[trigger] r@[k].players@[m2]).1,
{
    let mut cs: Vec<AlgorithmCount> = Vec::new();
    let mut i: usize = 0;
    while i < dets.len()
        invariant
            i <= dets@.len(),
            counted_upto(dets@, i as int, cs@),
        decreases dets.len() - i,
    {
        let ghost old_cs = cs@;
        let alg = &dets[i].0;
        let k = find_algorithm(&cs, alg.as_str());
        proof {
            assert forall|k1: int| 0 <= k1 < old_cs.len() && old_cs[k1].algorithm@ != alg@ implies counts_upto(
                dets@,
                i + 1,
                #[trigger] old_cs[k1],
            ) by {
                lemma_other_count(dets@, i as int, old_cs[k1]);
            }
        }
        if k == cs.len() {
            proof {
                assert forall|j: int| 0 <= j < i implies (#[trigger] dets@[j]).0@ != alg@ by {
                    if dets@[j].0@ == alg@ {
                        let kk = choose|kk: int| 0 <= kk < old_cs.len() && (#[trigger] old_cs[kk]).algorithm@ == dets@[j].0@;
                    }
                }
                lemma_no_alg_hits(dets@, i as int, alg@);
                lemma_count_step(dets@, i as int, alg@, dets@[i as int].1);
                assert forall|j: int| 0 <= j < i implies !((#[trigger] dets@[j]).0@ == alg@ && dets@[j].1 == dets@[i as int].1) by {}
                lemma_no_hits(dets@, i as int, alg@, dets@[i as int].1);
            }
            let mut players: Vec<(u64, usize)> = Vec::new();
            players.push((dets[i].1, 1));
            let a = AlgorithmCount { algorithm: alg.clone(), players, total: 1 };
            cs.push(a);
            proof {
                let nc = cs@;
                assert(nc =~= old_cs.push(a));
                assert(a.players@ =~= seq![(dets@[i as int].1, 1usize)]);
                assert forall|j: int| 0 <= j < i + 1 && (#[trigger] dets@[j]).0@ == a.algorithm@ implies lists_player(
                    a.players@,
                    dets@[j].1,
                ) by {
                    if j < i {
                        assert(false);
                    }
                    assert(a.players@[0].0 == dets@[j].1);
                }
                assert(counts_upto(dets@, i + 1, a));
                assert forall|k1: int| 0 <= k1 < nc.len() implies counts_upto(dets@, i + 1, #[trigger] nc[k1]) by {
                    if k1 < old_cs.len() {
                        assert(nc[k1] == old_cs[k1]);
                    }
                }
                assert forall|j: int| 0 <= j < i + 1 implies has_algorithm(nc, (#[trigger] dets@[j]).0@) by {
                    if j == i {
                        assert(nc[old_cs.len() as int].algorithm@ == alg@);
                    } else {
                        let kk = choose|kk: int| 0 <= kk < old_cs.len() && (#[trigger] old_cs[kk]).algorithm@ == dets@[j].0@;
                        assert(nc[kk] == old_cs[kk]);
                    }
                }
                assert forall|k1: int, k2: int| 0 <= k1 < k2 < nc.len() implies (#[trigger] nc[k1]).algorithm@
                    != (#[trigger] nc[k2]).algorithm@ by {
                    assert(nc[k1] == old_cs[k1]);
                    if k2 < old_cs.len() {
                        assert(nc[k2] == old_cs[k2]);
                    }
                }
            }
        } else {
            let mut a = cs.remove(k);
            proof {
                assert(a == old_cs[k as int]);
            }
            count_into(&mut a, dets, i);
            cs.insert(k, a);
            proof {
                let nc = cs@;
                assert(nc =~= old_cs.update(k as int, a));
                assert forall|k1: int| 0 <= k1 < nc.len() implies counts_upto(dets@, i + 1, #[trigger] nc[k1]) by {
                    if k1 != k {
                        assert(nc[k1] == old_cs[k1]);
                        assert(old_cs[k1].algorithm@ != old_cs[k as int].algorithm@);
                    }
                }
                assert forall|j: int| 0 <= j < i + 1 implies has_algorithm(nc, (#[trigger] dets@[j]).0@) by {
                    if j == i {
                        assert(nc[k as int].algorithm@ == alg@);
                    } else {
                        let kk = choose|kk: int| 0 <= kk < old_cs.len() && (#[trigger] old_cs[kk]).algorithm@ == dets@[j].0@;
                        assert(nc[kk].algorithm@ == old_cs[kk].algorithm@);
                    }
                }
                assert forall|k1: int, k2: int| 0 <= k1 < k2 < nc.len() implies (#[trigger] nc[k1]).algorithm@
                    != (#[trigger] nc[k2]).algorithm@ by {
                    assert(nc[k1].algorithm@ == old_cs[k1].algorithm@ && nc[k2].algorithm@ == old_cs[k2].algorithm@);
                }
            }
        }
        i += 1;
    }
    let ghost n = dets@.len() as int;
    let mut out: Vec<AlgorithmCount> = Vec::new();
    let mut k: usize = 0;
    let ghost all = cs@;
    let count = cs.len();
    while k < count
        invariant
            k <= count,
            count == all.len(),
            cs@ == all.subrange(k as int, all.len() as int),
            counted_upto(dets@, n, all),
            n == dets@.len(),
            out@.len() == k,
            forall|q: int| 0 <= q < k ==> (#[trigger] out@[q]).algorithm@ == all[q].algorithm@
                && out@[q].total == all[q].total
                && players_counted(dets@, n, all[q].algorithm@, out@[q].players@)
                && forall|m1: int, m2: int| 0 <= m1 < m2 < out@[q].players@.len() ==> (#[trigger] out@[q].players@[m1]).1
                    >= (#[trigger] out@[q].players@[m2]).1,
        decreases count - k,
    {
        let a = cs.remove(0);
        proof {
            assert(a == all[k as int]);
            assert(counts_upto(dets@, n, all[k as int]));
        }
        let ghost alg = a.algorithm@;
        let players = order_players(a.players, Ghost(dets@), Ghost(alg));
        out.push(AlgorithmCount { algorithm: a.algorithm, players, total: a.total });
        k += 1;
        proof {
            assert(cs@ =~= all.subrange(k as int, all.len() as int));
        }
    }
    proof {
        let o = out@;
        assert forall|q: int| 0 <= q < o.len() implies counts_upto(dets@, n, #[trigger] o[q]) by {}
        assert forall|j: int| 0 <= j < n implies has_algorithm(o, (#[trigger] dets@[j]).0@) by {
            let kk = choose|kk: int| 0 <= kk < all.len() && (#[trigger] all[kk]).algorithm@ == dets@[j].0@;
            assert(o[kk].algorithm@ == all[kk].algorithm@);
        }
        assert forall|k1: int, k2: int| 0 <= k1 < k2 < o.len() implies (#[trigger] o[k1]).algorithm@
            != (#[trigger] o[k2]).algorithm@ by {
            assert(o[k1].algorithm@ == all[k1].algorithm@ && o[k2].algorithm@ == all[k2].algorithm@);
        }
    }
    out
}

/// Grouping by player lists every detection exactly once: under the group
/// of its own player, and in no other group.
pub proof fn lemma_groups_partition(dets: Seq<(u32, u64)>, groups: Seq<(u64, Vec<usize>)>, j: int)
    requires
        grouped_upto(dets, dets.len() as int, groups),
        0 <= j < dets.len(),
    ensures
        exists|k: int| 0 <= k < groups.len() && (#[trigger] groups[k]).1@.contains(j as usize),
        forall|k1: int, k2: int|
            0 <= k1 < groups.len() && 0 <= k2 < groups.len() && (#[trigger] groups[k1]).1@.contains(j as usize)
                && (#[trigger] groups[k2]).1@.contains(j as usize) ==> k1 == k2,
        forall|k: int, m1: int, m2: int|
            0 <= k < groups.len() && 0 <= m1 < groups[k].1@.len() && 0 <= m2 < groups[k].1@.len()
                && #[trigger] groups[k].1@[m1] == #[trigger] groups[k].1@[m2] ==> m1 == m2,
{
    let sid = dets[j].1;
    assert(has_group(groups, sid));
    let k = choose|k: int| 0 <= k < groups.len() && (#[trigger] groups[k]).0 == sid;
    assert(groups_player(dets, dets.len() as int, groups[k]));
    assert(groups[k].1@.contains(j as usize));
    assert forall|k1: int, k2: int|
        0 <= k1 < groups.len() && 0 <= k2 < groups.len() && (#[trigger] groups[k1]).1@.contains(j as usize)
            && (#[trigger] groups[k2]).1@.contains(j as usize) implies k1 == k2 by {
        assert(groups_player(dets, dets.len() as int, groups[k1]));
        assert(groups_player(dets, dets.len() as int, groups[k2]));
        let m1 = choose|m: int| 0 <= m < groups[k1].1@.len() && groups[k1].1@[m] == j as usize;
        let m2 = choose|m: int| 0 <= m < groups[k2].1@.len() && groups[k2].1@[m] == j as usize;
        assert(groups[k1].0 == dets[j].1);
        assert(groups[k2].0 == dets[j].1);
        if k1 < k2 {
            assert(groups[k1].0 != groups[k2].0);
        } else if k2 < k1 {
            assert(groups[k2].0 != groups[k1].0);
        }
    }
    assert forall|k1: int, m1: int, m2: int|
        0 <= k1 < groups.len() && 0 <= m1 < groups[k1].1@.len() && 0 <= m2 < groups[k1].1@.len()
            && #[trigger] groups[k1].1@[m1] == #[trigger] groups[k1].1@[m2] implies m1 == m2 by {
        assert(groups_player(dets, dets.len() as int, groups[k1]));
        if m1 < m2 {
            assert(tick_order(dets, groups[k1].1@[m1] as int, groups[k1].1@[m2] as int));
        } else if m2 < m1 {
            assert(tick_order(dets, groups[k1].1@[m2] as int, groups[k1].1@[m1] as int));
        }
    }
}

/// The sum of the player counts.
pub open spec fn sum_counts(ps: Seq<(u64, usize)>) -> int
    decreases ps.len(),
{
    if ps.len() == 0 {
        0
    } else {
        sum_counts(ps.drop_last()) + ps.last().1
    }
}

/// The sum, over the players listed in `ps`, of their detections by `alg`
/// among the first `i`.
pub open spec fn sum_hits(dets: Seq<(String, u64)>, i: int, alg: Seq<char>, ps: Seq<(u64, usize)>) -> int
    decreases ps.len(),
{
    if ps.len() == 0 {
        0
    } else {
        sum_hits(dets, i, alg, ps.drop_last()) + hits(dets, i, alg, ps.last().0)
    }
}

/// How many times player `sid` is listed.
pub open spec fn times_listed(ps: Seq<(u64, usize)>, sid: u64) -> int
    decreases ps.len(),
{
    if ps.len() == 0 {
        0
    } else {
        times_listed(ps.drop_last(), sid) + if ps.last().0 == sid {
            1int
        } else {
            0int
        }
    }
}

proof fn lemma_sum_counts_is_sum_hits(dets: Seq<(String, u64)>, i: int, alg: Seq<char>, ps: Seq<(u64, usize)>)
    requires
        forall|m: int| 0 <= m < ps.len() ==> (#[trigger] ps[m]).1 == hits(dets, i, alg, ps[m].0),
    ensures
        sum_counts(ps) == sum_hits(dets, i, alg, ps),
    decreases ps.len(),
{
    if ps.len() > 0 {
        let q = ps.drop_last();
        assert forall|m: int| 0 <= m < q.len() implies (#[trigger] q[m]).1 == hits(dets, i, alg, q[m].0) by {
            assert(q[m] == ps[m]);
        }
        lemma_sum_counts_is_sum_hits(dets, i, alg, q);
        assert(ps.last() == ps[ps.len() - 1]);
    }
}

proof fn lemma_sum_hits_none(dets: Seq<(String, u64)>, alg: Seq<char>, ps: Seq<(u64, usize)>)
    ensures
        sum_hits(dets, 0, alg, ps) == 0,
    decreases ps.len(),
{
    if ps.len() > 0 {
        lemma_sum_hits_none(dets, alg, ps.drop_last());
    }
}

proof fn lemma_sum_hits_step(dets: Seq<(String, u64)>, i: int, alg: Seq<char>, ps: Seq<(u64, usize)>)
    requires
        0 <= i < dets.len(),
    ensures
        sum_hits(dets, i + 1, alg, ps) == sum_hits(dets, i, alg, ps) + if dets[i].0@ == alg {
            times_listed(ps, dets[i].1)
        } else {
            0
        },
    decreases ps.len(),
{
    if ps.len() > 0 {
        lemma_sum_hits_step(dets, i, alg, ps.drop_last());
        lemma_count_step(dets, i, alg, ps.last().0);
    }
}

proof fn lemma_listed_once(ps: Seq<(u64, usize)>, sid: u64)
    requires
        forall|m1: int, m2: int| 0 <= m1 < m2 < ps.len() ==> (#[trigger] ps[m1]).0 != (#[trigger] ps[m2]).0,
        lists_player(ps, sid),
    ensures
        times_listed(ps, sid) == 1,
    decreases ps.len(),
{
    let q = ps.drop_last();
    let m = choose|m: int| 0 <= m < ps.len() && (#[trigger] ps[m]).0 == sid;
    assert forall|m1: int, m2: int| 0 <= m1 < m2 < q.len() implies (#[trigger] q[m1]).0 != (#[trigger] q[m2]).0 by {
        assert(q[m1] == ps[m1] && q[m2] == ps[m2]);
    }
    if m == ps.len() - 1 {
        lemma_not_listed(q, sid, ps);
    } else {
        assert(q[m] == ps[m]);
        lemma_listed_once(q, sid);
        assert(ps.last().0 != sid) by {
            assert(ps.last() == ps[ps.len() - 1]);
        }
    }
}

proof fn lemma_not_listed(q: Seq<(u64, usize)>, sid: u64, ps: Seq<(u64, usize)>)
    requires
        ps.len() > 0,
        q == ps.drop_last(),
        ps.last().0 == sid,
        forall|m1: int, m2: int| 0 <= m1 < m2 < ps.len() ==> (#[trigger] ps[m1]).0 != (#[trigger] ps[m2]).0,
    ensures
        times_listed(q, sid) == 0,
{
    assert forall|m: int| 0 <= m < q.len() implies (#[trigger] q[m]).0 != sid by {
        assert(q[m] == ps[m]);
        assert(ps.last() == ps[ps.len() - 1]);
    }
    lemma_times_listed_zero(q, sid);
}

proof fn lemma_times_listed_zero(q: Seq<(u64, usize)>, sid: u64)
    requires
        forall|m: int| 0 <= m < q.len() ==> (#[trigger] q[m]).0 != sid,
    ensures
        times_listed(q, sid) == 0,
    decreases q.len(),
{
    if q.len() > 0 {
        let r = q.drop_last();
        assert forall|m: int| 0 <= m < r.len() implies (#[trigger] r[m]).0 != sid by {
            assert(r[m] == q[m]);
        }
        lemma_times_listed_zero(r, sid);
        assert(q.last() == q[q.len() - 1]);
    }
}

proof fn lemma_sum_hits_all(dets: Seq<(String, u64)>, i: int, alg: Seq<char>, ps: Seq<(u64, usize)>)
    requires
        0 <= i <= dets.len(),
        forall|m1: int, m2: int| 0 <= m1 < m2 < ps.len() ==> (#[trigger] ps[m1]).0 != (#[trigger] ps[m2]).0,
        forall|j: int| 0 <= j < i && (#[trigger] dets[j]).0@ == alg ==> lists_player(ps, dets[j].1),
    ensures
        sum_hits(dets, i, alg, ps) == alg_hits(dets, i, alg),
    decreases i,
{
    if i == 0 {
        lemma_sum_hits_none(dets, alg, ps);
    } else {
        lemma_sum_hits_all(dets, i - 1, alg, ps);
        lemma_sum_hits_step(dets, i - 1, alg, ps);
        lemma_count_step(dets, i - 1, alg, 0);
        if dets[i - 1].0@ == alg {
            lemma_listed_once(ps, dets[i - 1].1);
        }
    }
}

/// An algorithm's count of detections is the sum of its counts on each
/// player.
pub proof fn lemma_total_is_sum(dets: Seq<(String, u64)>, a: AlgorithmCount)
    requires
        counts_upto(dets, dets.len() as int, a),
    ensures
        sum_counts(a.players@) == a.total,
{
    let n = dets.len() as int;
    lemma_sum_counts_is_sum_hits(dets, n, a.algorithm@, a.players@);
    lemma_sum_hits_all(dets, n, a.algorithm@, a.players@);
}

} // verus!
