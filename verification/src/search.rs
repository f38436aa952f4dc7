//! Looking players up across demos: which name goes with a SteamID64, and
//! which players a search text finds.
use crate::decimal::{
    decimal_digits, lemma_decimal_round_trip, numeral_digits, parse_unsigned, parse_unsigned_max,
};
use crate::steamid::{
    lemma_steam3_account_nonneg, steam3_account, steamid_32_to_64, steamid_32_to_64_spec,
    STEAMID64_BASE,
};
use crate::text::{
    contains_seq, contains_str, lemma_seq_le_antisymmetric, lemma_seq_le_total,
    lemma_seq_le_transitive, seq_le, str_eq, str_le,
};
use crate::weapons::{lowercase, to_lowercase};
use std::collections::HashMap;
use vstd::prelude::*;

verus! {

/// Whether the SteamID64 of a Steam3 id's account fits in 64 bits.
pub open spec fn fits_id64(s: Seq<char>) -> bool {
    steam3_account(s) matches Some(a) ==> a + STEAMID64_BASE <= u64::MAX
}

/// The SteamID64 a Steam3 id (`[U:1:1234]`) stands for.
pub open spec fn steam3_to_id64_spec(s: Seq<char>) -> Option<u64> {
    match steam3_account(s) {
        Some(a) => Some((a + STEAMID64_BASE) as u64),
        None => None,
    }
}

/// The SteamID64 of a Steam3 id, by way of its decimal form.
pub fn steam3_to_id64(s: &str) -> (r: Option<u64>)
    requires
        fits_id64(s@),
    ensures
        r == steam3_to_id64_spec(s@),
{
    match steamid_32_to_64(s) {
        Some(t) => {
            proof {
                let a = match steam3_account(s@) {
                    Some(a) => a,
                    None => 0,
                };
                assert(steam3_account(s@) == Some(a));
                lemma_steam3_account_nonneg(s@);
                let n = (a + STEAMID64_BASE) as nat;
                assert(t@ == decimal_digits(n));
                lemma_decimal_round_trip(n);
                assert(numeral_digits(t@) == t@);
                assert(parse_unsigned(t@, u64::MAX as int) == Some(n as int));
            }
            parse_unsigned_max(t.as_str(), u64::MAX)
        },
        None => None,
    }
}

/// The names of a demo's player index laid into `m`: each non-empty name
/// under its Steam3 id's SteamID64, the first one standing.
pub open spec fn index_names(m: Map<u64, String>, es: Seq<(String, String)>) -> Map<u64, String>
    decreases es.len(),
{
    if es.len() == 0 {
        m
    } else {
        let before = index_names(m, es.drop_last());
        let (name, sid) = es.last();
        if name@.len() == 0 {
            before
        } else {
            match steam3_to_id64_spec(sid@) {
                Some(id) => if before.contains_key(id) {
                    before
                } else {
                    before.insert(id, name)
                },
                None => before,
            }
        }
    }
}

/// The names a full inspection of a demo found laid into `m`: each
/// non-empty name under its SteamID64, overriding what was there.
pub open spec fn inspection_names(m: Map<u64, String>, us: Seq<(Option<String>, Option<String>)>) -> Map<
    u64,
    String,
>
    decreases us.len(),
{
    if us.len() == 0 {
        m
    } else {
        let before = inspection_names(m, us.drop_last());
        let (sid, name) = us.last();
        match sid {
            Some(s) => match steam3_to_id64_spec(s@) {
                Some(id) => match name {
                    Some(n) => if n@.len() > 0 {
                        before.insert(id, n)
                    } else {
                        before
                    },
                    None => before,
                },
                None => before,
            },
            None => before,
        }
    }
}

/// Maps SteamID64s to names for a demo: the player index's names first (the
/// first name of each id standing), then the names a full inspection found,
/// which override them.
pub fn build_name_lookup(
    index: &Vec<(String, String)>,
    inspection: &Vec<(Option<String>, Option<String>)>,
) -> (r: HashMap<u64, String>)
    requires
        forall|i: int| 0 <= i < index@.len() ==> fits_id64((#[trigger] index@[i]).1@),
        forall|i: int|
            0 <= i < inspection@.len() ==> ((#[trigger] inspection@[i]).0 matches Some(s) ==> fits_id64(
                s@,
            )),
    ensures
        r@ == inspection_names(index_names(Map::empty(), index@), inspection@),
{
    broadcast use vstd::std_specs::hash::group_hash_axioms;

    let mut lookup: HashMap<u64, String> = HashMap::new();
    let mut i: usize = 0;
    while i < index.len()
        invariant
            i <= index@.len(),
            forall|k: int| 0 <= k < index@.len() ==> fits_id64((#[trigger] index@[k]).1@),
            lookup@ == index_names(Map::empty(), index@.subrange(0, i as int)),
        decreases index.len() - i,
    {
        assert(index@.subrange(0, i + 1).drop_last() == index@.subrange(0, i as int));
        let name = &index[i].0;
        if name.as_str().unicode_len() > 0 {
            match steam3_to_id64(index[i].1.as_str()) {
                Some(id) => {
                    if !lookup.contains_key(&id) {
                        lookup.insert(id, name.clone());
                    }
                },
                None => {},
            }
        }
        i += 1;
    }
    assert(index@.subrange(0, index@.len() as int) == index@);
    let ghost base = lookup@;
    let mut j: usize = 0;
    while j < inspection.len()
        invariant
            j <= inspection@.len(),
            forall|k: int|
                0 <= k < inspection@.len() ==> ((#[trigger] inspection@[k]).0 matches Some(s)
                    ==> fits_id64(s@)),
            lookup@ == inspection_names(base, inspection@.subrange(0, j as int)),
        decreases inspection.len() - j,
    {
        assert(inspection@.subrange(0, j + 1).drop_last() == inspection@.subrange(0, j as int));
        match &inspection[j].0 {
            Some(s) => match steam3_to_id64(s.as_str()) {
                Some(id) => match &inspection[j].1 {
                    Some(n) => {
                        if n.as_str().unicode_len() > 0 {
                            lookup.insert(id, n.clone());
                        }
                    },
                    None => {},
                },
                None => {},
            },
            None => {},
        }
        j += 1;
    }
    assert(inspection@.subrange(0, inspection@.len() as int) == inspection@);
    lookup
}

/// A player found across the demos: their Steam3 id, its SteamID64 in
/// decimal where it converts, and the names and demos they appear under.
pub struct PlayerAggregate {
    pub steamid: String,
    pub steamid64: Option<String>,
    pub names: Vec<String>,
    pub demos: Vec<String>,
}

/// Whether a search text, already lowercased, finds a player: an empty
/// search finds everyone; else one of the player's names or their Steam3 id
/// holds it, case aside, or their SteamID64 holds it.
pub open spec fn search_finds(
    search: Seq<char>,
    names: Seq<String>,
    steamid: Seq<char>,
    steamid64: Option<Seq<char>>,
) -> bool {
    ||| search.len() == 0
    ||| exists|i: int| 0 <= i < names.len() && contains_seq(lowercase((#[trigger] names[i])@), search)
    ||| contains_seq(lowercase(steamid), search)
    ||| steamid64 matches Some(s) && contains_seq(s, search)
}

/// Whether the search text `search` (as typed) finds player `agg`.
pub fn matches_search(agg: &PlayerAggregate, search: &str) -> (b: bool)
    ensures
        b == search_finds(
            lowercase(search@),
            agg.names@,
            agg.steamid@,
            match agg.steamid64 {
                Some(s) => Some(s@),
                None => None,
            },
        ),
{
    let lw = to_lowercase(search);
    if lw.as_str().unicode_len() == 0 {
        return true;
    }
    let mut i: usize = 0;
    while i < agg.names.len()
        invariant
            i <= agg.names@.len(),
            lw@ == lowercase(search@),
            forall|k: int| 0 <= k < i ==> !contains_seq(lowercase((#[trigger] agg.names@[k])@), lw@),
        decreases agg.names.len() - i,
    {
        let n = to_lowercase(agg.names[i].as_str());
        if contains_str(n.as_str(), lw.as_str()) {
            return true;
        }
        i += 1;
    }
    let sid = to_lowercase(agg.steamid.as_str());
    if contains_str(sid.as_str(), lw.as_str()) {
        return true;
    }
    match &agg.steamid64 {
        Some(s) => contains_str(s.as_str(), lw.as_str()),
        None => false,
    }
}


/// The players of the demos: each demo's file name beside its players, as
/// (name, Steam3 id) pairs.
pub open spec fn is_entry(demos: Seq<(String, Vec<(String, String)>)>, d: int, p: int) -> bool {
    0 <= d < demos.len() && 0 <= p < demos[d].1@.len()
}

/// The Steam3 id of player `p` of demo `d`.
pub open spec fn entry_sid(demos: Seq<(String, Vec<(String, String)>)>, d: int, p: int) -> Seq<
    char,
> {
    demos[d].1@[p].1@
}

/// The name of player `p` of demo `d`.
pub open spec fn entry_name(demos: Seq<(String, Vec<(String, String)>)>, d: int, p: int) -> Seq<
    char,
> {
    demos[d].1@[p].0@
}

/// Whether player entry (d2, p2) comes before (d, p), demo by demo.
pub open spec fn entry_precedes(d2: int, p2: int, d: int, p: int) -> bool {
    d2 < d || (d2 == d && p2 < p)
}

/// Whether `sid` is the id of some player entry before (d, p).
pub open spec fn seen_before(
    demos: Seq<(String, Vec<(String, String)>)>,
    d: int,
    p: int,
    sid: Seq<char>,
) -> bool {
    exists|d2: int, p2: int|
        is_entry(demos, d2, p2) && entry_precedes(d2, p2, d, p) && #[trigger] entry_sid(
            demos,
            d2,
            p2,
        ) == sid
}

/// The names that the player entries with id `sid` before (d, p) carry.
pub open spec fn names_before(
    demos: Seq<(String, Vec<(String, String)>)>,
    d: int,
    p: int,
    sid: Seq<char>,
) -> Set<Seq<char>> {
    Set::new(
        |n: Seq<char>|
            exists|d2: int, p2: int|
                is_entry(demos, d2, p2) && entry_precedes(d2, p2, d, p) && #[trigger] entry_sid(
                    demos,
                    d2,
                    p2,
                ) == sid && entry_name(demos, d2, p2) == n,
    )
}

/// The file names of the demos in which a player entry with id `sid` comes
/// before (d, p).
pub open spec fn files_before(
    demos: Seq<(String, Vec<(String, String)>)>,
    d: int,
    p: int,
    sid: Seq<char>,
) -> Set<Seq<char>> {
    Set::new(
        |f: Seq<char>|
            exists|d2: int, p2: int|
                is_entry(demos, d2, p2) && entry_precedes(d2, p2, d, p) && #[trigger] entry_sid(
                    demos,
                    d2,
                    p2,
                ) == sid && demos[d2].0@ == f,
    )
}

/// The characters of each string.
pub open spec fn views(s: Seq<String>) -> Seq<Seq<char>> {
    s.map_values(|x: String| x@)
}

/// Whether texts are in strictly increasing order.
pub open spec fn strictly_sorted(s: Seq<Seq<char>>) -> bool {
    forall|i: int, j: int| 0 <= i < j < s.len() ==> seq_le(#[trigger] s[i], #[trigger] s[j]) && s[i] != s[j]
}

/// The characters of an optional string.
pub open spec fn opt_view(o: Option<String>) -> Option<Seq<char>> {
    match o {
        Some(s) => Some(s@),
        None => None,
    }
}

/// Whether `a` sums up, over the player entries before (d, p), the player
/// whose id it holds.
#[verifier::opaque]
pub open spec fn summarizes_upto(
    demos: Seq<(String, Vec<(String, String)>)>,
    d: int,
    p: int,
    a: PlayerAggregate,
) -> bool {
    &&& seen_before(demos, d, p, a.steamid@)
    &&& strictly_sorted(views(a.names@))
    &&& views(a.names@).to_set() == names_before(demos, d, p, a.steamid@)
    &&& strictly_sorted(views(a.demos@))
    &&& views(a.demos@).to_set() == files_before(demos, d, p, a.steamid@)
    &&& opt_view(a.steamid64) == steamid_32_to_64_spec(a.steamid@)
}

/// Whether `a` sums up, over all the demos, the player whose id it holds:
/// the id occurs; its names and demos are the distinct names it was seen
/// under and the demos it was seen in, each list sorted; and its SteamID64.
pub open spec fn summarizes(demos: Seq<(String, Vec<(String, String)>)>, a: PlayerAggregate) -> bool {
    summarizes_upto(demos, demos.len() as int, 0, a)
}

proof fn lemma_entry_step(demos: Seq<(String, Vec<(String, String)>)>, d: int, p: int, sid: Seq<char>)
    requires
        is_entry(demos, d, p),
    ensures
        seen_before(demos, d, p + 1, sid) == (seen_before(demos, d, p, sid) || entry_sid(
            demos,
            d,
            p,
        ) == sid),
        names_before(demos, d, p + 1, sid) == (if entry_sid(demos, d, p) == sid {
            names_before(demos, d, p, sid).insert(entry_name(demos, d, p))
        } else {
            names_before(demos, d, p, sid)
        }),
        files_before(demos, d, p + 1, sid) == (if entry_sid(demos, d, p) == sid {
            files_before(demos, d, p, sid).insert(demos[d].0@)
        } else {
            files_before(demos, d, p, sid)
        }),
{
    let hit = entry_sid(demos, d, p) == sid;
    if seen_before(demos, d, p + 1, sid) {
        let (d2, p2) = choose|d2: int, p2: int|
            is_entry(demos, d2, p2) && entry_precedes(d2, p2, d, p + 1) && #[trigger] entry_sid(
                demos,
                d2,
                p2,
            ) == sid;
        if !(d2 == d && p2 == p) {
            assert(entry_precedes(d2, p2, d, p));
        }
    }
    if seen_before(demos, d, p, sid) {
        let (d2, p2) = choose|d2: int, p2: int|
            is_entry(demos, d2, p2) && entry_precedes(d2, p2, d, p) && #[trigger] entry_sid(
                demos,
                d2,
                p2,
            ) == sid;
        assert(entry_precedes(d2, p2, d, p + 1));
    }
    let nb = names_before(demos, d, p, sid);
    let na = names_before(demos, d, p + 1, sid);
    let ne = if hit { nb.insert(entry_name(demos, d, p)) } else { nb };
    assert forall|n: Seq<char>| na.contains(n) <==> ne.contains(n) by {
        if na.contains(n) {
            let (d2, p2) = choose|d2: int, p2: int|
                is_entry(demos, d2, p2) && entry_precedes(d2, p2, d, p + 1) && #[trigger] entry_sid(
                    demos,
                    d2,
                    p2,
                ) == sid && entry_name(demos, d2, p2) == n;
            if !(d2 == d && p2 == p) {
                assert(entry_precedes(d2, p2, d, p));
                assert(nb.contains(n));
            }
        }
        if nb.contains(n) {
            let (d2, p2) = choose|d2: int, p2: int|
                is_entry(demos, d2, p2) && entry_precedes(d2, p2, d, p) && #[trigger] entry_sid(
                    demos,
                    d2,
                    p2,
                ) == sid && entry_name(demos, d2, p2) == n;
            assert(entry_precedes(d2, p2, d, p + 1));
        }
        if hit && n == entry_name(demos, d, p) {
            assert(entry_precedes(d, p, d, p + 1));
            assert(entry_sid(demos, d, p) == sid);
        }
    }
    assert(na =~= ne);
    let fb = files_before(demos, d, p, sid);
    let fa = files_before(demos, d, p + 1, sid);
    let fe = if hit { fb.insert(demos[d].0@) } else { fb };
    assert forall|f: Seq<char>| fa.contains(f) <==> fe.contains(f) by {
        if fa.contains(f) {
            let (d2, p2) = choose|d2: int, p2: int|
                is_entry(demos, d2, p2) && entry_precedes(d2, p2, d, p + 1) && #[trigger] entry_sid(
                    demos,
                    d2,
                    p2,
                ) == sid && demos[d2].0@ == f;
            if !(d2 == d && p2 == p) {
                assert(entry_precedes(d2, p2, d, p));
                assert(fb.contains(f));
            }
        }
        if fb.contains(f) {
            let (d2, p2) = choose|d2: int, p2: int|
                is_entry(demos, d2, p2) && entry_precedes(d2, p2, d, p) && #[trigger] entry_sid(
                    demos,
                    d2,
                    p2,
                ) == sid && demos[d2].0@ == f;
            assert(entry_precedes(d2, p2, d, p + 1));
        }
        if hit && f == demos[d].0@ {
            assert(entry_precedes(d, p, d, p + 1));
            assert(entry_sid(demos, d, p) == sid);
        }
    }
    assert(fa =~= fe);
}

proof fn lemma_next_demo(demos: Seq<(String, Vec<(String, String)>)>, d: int, sid: Seq<char>)
    requires
        0 <= d < demos.len(),
    ensures
        seen_before(demos, d + 1, 0, sid) == seen_before(demos, d, demos[d].1@.len() as int, sid),
        names_before(demos, d + 1, 0, sid) == names_before(demos, d, demos[d].1@.len() as int, sid),
        files_before(demos, d + 1, 0, sid) == files_before(demos, d, demos[d].1@.len() as int, sid),
{
    let len = demos[d].1@.len() as int;
    assert forall|d2: int, p2: int| is_entry(demos, d2, p2) implies entry_precedes(d2, p2, d + 1, 0)
        == entry_precedes(d2, p2, d, len) by {}
    assert(seen_before(demos, d + 1, 0, sid) == seen_before(demos, d, len, sid));
    assert(names_before(demos, d + 1, 0, sid) =~= names_before(demos, d, len, sid));
    assert(files_before(demos, d + 1, 0, sid) =~= files_before(demos, d, len, sid));
}

#[verifier::spinoff_prover]
proof fn lemma_insert_strictly_sorted(before: Seq<Seq<char>>, p: int, x: Seq<char>)
    requires
        0 <= p <= before.len(),
        strictly_sorted(before),
        forall|k: int| 0 <= k < p ==> seq_le(#[trigger] before[k], x) && before[k] != x,
        p < before.len() ==> seq_le(x, before[p]) && x != before[p],
    ensures
        strictly_sorted(before.insert(p, x)),
{
    let after = before.insert(p, x);
    assert forall|a: int, b: int| 0 <= a < b < after.len() implies seq_le(after[a], after[b])
        && after[a] != after[b] by {
        if b < p {
            assert(after[a] == before[a] && after[b] == before[b]);
        } else if b == p {
            assert(after[a] == before[a] && after[b] == x);
        } else if a < p {
            assert(after[a] == before[a] && after[b] == before[b - 1]);
        } else if a == p {
            assert(after[a] == x && after[b] == before[b - 1]);
            assert(before[p] != x);
            if b - 1 > p {
                assert(seq_le(before[p], before[b - 1]) && before[p] != before[b - 1]);
                lemma_seq_le_transitive(x, before[p], before[b - 1]);
                if x == before[b - 1] {
                    lemma_seq_le_antisymmetric(before[p], before[b - 1]);
                }
            }
        } else {
            assert(after[a] == before[a - 1] && after[b] == before[b - 1]);
        }
    }
}

/// Adds `x` to strictly sorted strings `v` unless it is there already.
fn insert_unique_sorted(v: &mut Vec<String>, x: &String)
    requires
        strictly_sorted(views(old(v)@)),
    ensures
        strictly_sorted(views(final(v)@)),
        views(final(v)@).to_set() == views(old(v)@).to_set().insert(x@),
{
    broadcast use vstd::seq_lib::group_seq_properties;

    let ghost before = views(v@);
    let mut p: usize = 0;
    while p < v.len() && str_le(v[p].as_str(), x.as_str()) && !str_eq(v[p].as_str(), x.as_str())
        invariant
            p <= v@.len(),
            views(v@) == before,
            strictly_sorted(before),
            forall|k: int| 0 <= k < p ==> seq_le(#[trigger] before[k], x@) && before[k] != x@,
        decreases v.len() - p,
    {
        p += 1;
    }
    if p < v.len() && str_eq(v[p].as_str(), x.as_str()) {
        assert(before[p as int] == x@);
        assert(before.to_set() =~= before.to_set().insert(x@));
        return;
    }
    proof {
        if p < before.len() {
            assert(!seq_le(before[p as int], x@));
            lemma_seq_le_total(before[p as int], x@);
        }
    }
    v.insert(p, x.clone());
    let ghost after = views(v@);
    assert(after =~= before.insert(p as int, x@));
    proof {
        if p < before.len() {
            assert(before[p as int] != x@);
        }
        lemma_insert_strictly_sorted(before, p as int, x@);
    }
    assert forall|y: Seq<char>| after.contains(y) <==> before.contains(y) || y == x@ by {
        if after.contains(y) {
            let i = choose|i: int| 0 <= i < after.len() && after[i] == y;
            if i < p {
                assert(before[i] == y);
            } else if i > p {
                assert(before[i - 1] == y);
            }
        }
        if before.contains(y) {
            let i = choose|i: int| 0 <= i < before.len() && before[i] == y;
            if i < p {
                assert(after[i] == y);
            } else {
                assert(after[i + 1] == y);
            }
        }
        if y == x@ {
            assert(after[p as int] == y);
        }
    }
    assert(after.to_set() =~= before.to_set().insert(x@));
}

/// The index of the aggregate holding id `sid`, or the number of aggregates.
fn find_player(aggs: &Vec<PlayerAggregate>, sid: &str) -> (k: usize)
    ensures
        k <= aggs@.len(),
        k < aggs@.len() ==> aggs@[k as int].steamid@ == sid@,
        k == aggs@.len() ==> forall|j: int| 0 <= j < aggs@.len() ==> (#[trigger] aggs@[j]).steamid@ != sid@,
{
    let mut k: usize = 0;
    while k < aggs.len()
        invariant
            k <= aggs@.len(),
            forall|j: int| 0 <= j < k ==> (#[trigger] aggs@[j]).steamid@ != sid@,
        decreases aggs.len() - k,
    {
        if str_eq(aggs[k].steamid.as_str(), sid) {
            return k;
        }
        k += 1;
    }
    k
}

/// Whether one of the aggregates holds id `sid`.
pub open spec fn covers(aggs: Seq<PlayerAggregate>, sid: Seq<char>) -> bool {
    exists|k: int| 0 <= k < aggs.len() && (#[trigger] aggs[k]).steamid@ == sid
}

/// What holds of the aggregates built from the player entries before (d, p).
pub open spec fn built_upto(
    demos: Seq<(String, Vec<(String, String)>)>,
    d: int,
    p: int,
    aggs: Seq<PlayerAggregate>,
) -> bool {
    &&& forall|k: int| 0 <= k < aggs.len() ==> summarizes_upto(demos, d, p, #[trigger] aggs[k])
    &&& forall|d2: int, p2: int|
        is_entry(demos, d2, p2) && entry_precedes(d2, p2, d, p) ==> covers(
            aggs,
            #[trigger] entry_sid(demos, d2, p2),
        )
    &&& forall|k1: int, k2: int|
        0 <= k1 < k2 < aggs.len() ==> (#[trigger] aggs[k1]).steamid@ != (#[trigger] aggs[k2]).steamid@
}

/// Counts player entry `p` of demo `d` into the aggregates.
#[verifier::spinoff_prover]
#[verifier::rlimit(40)]
fn record_entry(
    aggs: &mut Vec<PlayerAggregate>,
    demos: &Vec<(String, Vec<(String, String)>)>,
    d: usize,
    p: usize,
)
    requires
        is_entry(demos@, d as int, p as int),
        fits_id64(entry_sid(demos@, d as int, p as int)),
        built_upto(demos@, d as int, p as int, old(aggs)@),
    ensures
        built_upto(demos@, d as int, p + 1, final(aggs)@),
{
    reveal(summarizes_upto);
    let ghost ds = demos@;
    let name = &demos[d].1[p].0;
    let sid = &demos[d].1[p].1;
    let file = &demos[d].0;
    assert(name@ == entry_name(ds, d as int, p as int));
    assert(sid@ == entry_sid(ds, d as int, p as int));
    let ghost old_aggs = aggs@;
    let k = find_player(aggs, sid.as_str());
    proof {
        assert forall|j: int| 0 <= j < old_aggs.len() && #[trigger] old_aggs[j].steamid@ != sid@
            implies summarizes_upto(ds, d as int, p + 1, old_aggs[j]) by {
            lemma_entry_step(ds, d as int, p as int, old_aggs[j].steamid@);
        }
    }
    if k == aggs.len() {
        proof {
            lemma_entry_step(ds, d as int, p as int, sid@);
            if seen_before(ds, d as int, p as int, sid@) {
                let (d2, p2) = choose|d2: int, p2: int|
                    is_entry(ds, d2, p2) && entry_precedes(d2, p2, d as int, p as int)
                        && #[trigger] entry_sid(ds, d2, p2) == sid@;
                assert(entry_sid(ds, d2, p2) == sid@);
                assert(covers(old_aggs, entry_sid(ds, d2, p2)));
                let kk = choose|kk: int|
                    0 <= kk < old_aggs.len() && (#[trigger] old_aggs[kk]).steamid@ == entry_sid(
                        ds,
                        d2,
                        p2,
                    );
                assert(old_aggs[kk].steamid@ != sid@);
            }
            assert(names_before(ds, d as int, p as int, sid@) =~= Set::empty());
            assert(files_before(ds, d as int, p as int, sid@) =~= Set::empty());
        }
        let mut names: Vec<String> = Vec::new();
        names.push(name.clone());
        let mut files: Vec<String> = Vec::new();
        files.push(file.clone());
        let a = PlayerAggregate {
            steamid: sid.clone(),
            steamid64: steamid_32_to_64(sid.as_str()),
            names,
            demos: files,
        };
        proof {
            assert(views(a.names@) =~= seq![name@]);
            assert(views(a.demos@) =~= seq![file@]);
            assert(seq![name@].to_set() =~= Set::<Seq<char>>::empty().insert(name@)) by {
                broadcast use vstd::seq_lib::group_seq_properties;
            }
            assert(seq![file@].to_set() =~= Set::<Seq<char>>::empty().insert(file@)) by {
                broadcast use vstd::seq_lib::group_seq_properties;
            }
        }
        aggs.push(a);
        proof {
            let na = aggs@;
            assert(na =~= old_aggs.push(a));
            assert forall|d2: int, p2: int|
                is_entry(ds, d2, p2) && entry_precedes(d2, p2, d as int, p + 1) implies covers(
                na,
                #[trigger] entry_sid(ds, d2, p2),
            ) by {
                if d2 == d && p2 == p {
                    assert(na[old_aggs.len() as int].steamid@ == entry_sid(ds, d2, p2));
                } else {
                    assert(entry_precedes(d2, p2, d as int, p as int));
                    assert(covers(old_aggs, entry_sid(ds, d2, p2)));
                    let kk = choose|kk: int|
                        0 <= kk < old_aggs.len() && (#[trigger] old_aggs[kk]).steamid@ == entry_sid(
                            ds,
                            d2,
                            p2,
                        );
                    assert(na[kk] == old_aggs[kk]);
                }
            }
            assert forall|k1: int| 0 <= k1 < na.len() implies summarizes_upto(
                ds,
                d as int,
                p + 1,
                #[trigger] na[k1],
            ) by {
                if k1 < old_aggs.len() {
                    assert(na[k1] == old_aggs[k1]);
                }
            }
        }
    } else {
        let ghost sid_v = sid@;
        let mut a = aggs.remove(k);
        let ghost a0 = a;
        insert_unique_sorted(&mut a.names, name);
        insert_unique_sorted(&mut a.demos, file);
        proof {
            lemma_entry_step(ds, d as int, p as int, sid_v);
            assert(a.steamid == a0.steamid);
            assert(a0 == old_aggs[k as int]);
        }
        aggs.insert(k, a);
        proof {
            let na = aggs@;
            assert(na =~= old_aggs.update(k as int, a));
            assert forall|d2: int, p2: int|
                is_entry(ds, d2, p2) && entry_precedes(d2, p2, d as int, p + 1) implies covers(
                na,
                #[trigger] entry_sid(ds, d2, p2),
            ) by {
                if d2 == d && p2 == p {
                    assert(na[k as int].steamid@ == entry_sid(ds, d2, p2));
                } else {
                    assert(entry_precedes(d2, p2, d as int, p as int));
                    assert(covers(old_aggs, entry_sid(ds, d2, p2)));
                    let kk = choose|kk: int|
                        0 <= kk < old_aggs.len() && (#[trigger] old_aggs[kk]).steamid@ == entry_sid(
                            ds,
                            d2,
                            p2,
                        );
                    assert(na[kk].steamid@ == old_aggs[kk].steamid@);
                }
            }
            assert forall|k1: int| 0 <= k1 < na.len() implies summarizes_upto(
                ds,
                d as int,
                p + 1,
                #[trigger] na[k1],
            ) by {
                if k1 != k {
                    assert(na[k1] == old_aggs[k1]);
                    assert(old_aggs[k1].steamid@ != old_aggs[k as int].steamid@);
                }
            }
            assert forall|k1: int, k2: int| 0 <= k1 < k2 < na.len() implies (#[trigger] na[k1]).steamid@
                != (#[trigger] na[k2]).steamid@ by {
                assert(na[k1].steamid@ == old_aggs[k1].steamid@);
                assert(na[k2].steamid@ == old_aggs[k2].steamid@);
            }
        }
    }
}

/// Orders aggregates by the number of demos they appear in, most first,
/// keeping the order of aggregates with as many demos.
fn order_by_demo_count(
    aggs: Vec<PlayerAggregate>,
    Ghost(demos): Ghost<Seq<(String, Vec<(String, String)>)>>,
) -> (r: Vec<PlayerAggregate>)
    requires
        built_upto(demos, demos.len() as int, 0, aggs@),
    ensures
        built_upto(demos, demos.len() as int, 0, r@),
        forall|k1: int, k2: int|
            0 <= k1 < k2 < r@.len() ==> (#[trigger] r@[k1]).demos@.len() >= (#[trigger] r@[k2]).demos@.len(),
{
    let ghost n = demos.len() as int;
    let mut rest = aggs;
    let mut out: Vec<PlayerAggregate> = Vec::new();
    proof {
        let r0 = rest@;
        assert forall|d2: int, p2: int| is_entry(demos, d2, p2) && entry_precedes(d2, p2, n, 0) implies covers(
            out@,
            #[trigger] entry_sid(demos, d2, p2),
        ) || covers(r0, entry_sid(demos, d2, p2)) by {}
    }
    while rest.len() > 0
        invariant
            forall|k: int| 0 <= k < out@.len() ==> summarizes_upto(demos, n, 0, #[trigger] out@[k]),
            forall|k: int| 0 <= k < rest@.len() ==> summarizes_upto(demos, n, 0, #[trigger] rest@[k]),
            forall|d2: int, p2: int|
                is_entry(demos, d2, p2) && entry_precedes(d2, p2, n, 0) ==> covers(
                    out@,
                    #[trigger] entry_sid(demos, d2, p2),
                ) || covers(rest@, entry_sid(demos, d2, p2)),
            forall|k1: int, k2: int|
                0 <= k1 < k2 < out@.len() ==> (#[trigger] out@[k1]).steamid@ != (#[trigger] out@[k2]).steamid@,
            forall|k1: int, k2: int|
                0 <= k1 < k2 < rest@.len() ==> (#[trigger] rest@[k1]).steamid@ != (#[trigger] rest@[k2]).steamid@,
            forall|k1: int, k2: int|
                0 <= k1 < out@.len() && 0 <= k2 < rest@.len() ==> (#[trigger] out@[k1]).steamid@
                    != (#[trigger] rest@[k2]).steamid@,
            forall|k1: int, k2: int|
                0 <= k1 < k2 < out@.len() ==> (#[trigger] out@[k1]).demos@.len() >= (#[trigger] out@[k2]).demos@.len(),
        decreases rest.len(),
    {
        let ghost old_out = out@;
        let ghost old_rest = rest@;
        let x = rest.remove(0);
        let mut p: usize = 0;
        while p < out.len() && out[p].demos.len() >= x.demos.len()
            invariant
                p <= out@.len(),
                out@ == old_out,
                forall|k: int| 0 <= k < p ==> (#[trigger] out@[k]).demos@.len() >= x.demos@.len(),
            decreases out.len() - p,
        {
            p += 1;
        }
        out.insert(p, x);
        proof {
            let no = out@;
            let nr = rest@;
            assert(no =~= old_out.insert(p as int, x));
            assert(nr =~= old_rest.subrange(1, old_rest.len() as int));
            assert(x == old_rest[0]);
            assert forall|k: int| 0 <= k < no.len() implies summarizes_upto(demos, n, 0, #[trigger] no[k]) by {
                if k < p {
                    assert(no[k] == old_out[k]);
                } else if k > p {
                    assert(no[k] == old_out[k - 1]);
                }
            }
            assert forall|k: int| 0 <= k < nr.len() implies summarizes_upto(demos, n, 0, #[trigger] nr[k]) by {
                assert(nr[k] == old_rest[k + 1]);
            }
            assert forall|d2: int, p2: int| is_entry(demos, d2, p2) && entry_precedes(d2, p2, n, 0) implies covers(
                no,
                #[trigger] entry_sid(demos, d2, p2),
            ) || covers(nr, entry_sid(demos, d2, p2)) by {
                let s = entry_sid(demos, d2, p2);
                if covers(old_out, s) {
                    let k = choose|k: int| 0 <= k < old_out.len() && (#[trigger] old_out[k]).steamid@ == s;
                    if k < p {
                        assert(no[k] == old_out[k]);
                    } else {
                        assert(no[k + 1] == old_out[k]);
                    }
                } else {
                    assert(covers(old_rest, s));
                    let k = choose|k: int| 0 <= k < old_rest.len() && (#[trigger] old_rest[k]).steamid@ == s;
                    if k == 0 {
                        assert(no[p as int] == x);
                    } else {
                        assert(nr[k - 1] == old_rest[k]);
                    }
                }
            }
            assert forall|k1: int, k2: int| 0 <= k1 < k2 < no.len() implies (#[trigger] no[k1]).steamid@
                != (#[trigger] no[k2]).steamid@ by {
                if k1 < p && k2 < p {
                    assert(no[k1] == old_out[k1] && no[k2] == old_out[k2]);
                } else if k1 < p && k2 == p {
                    assert(no[k1] == old_out[k1]);
                } else if k1 < p {
                    assert(no[k1] == old_out[k1] && no[k2] == old_out[k2 - 1]);
                } else if k1 == p {
                    assert(no[k2] == old_out[k2 - 1]);
                } else {
                    assert(no[k1] == old_out[k1 - 1] && no[k2] == old_out[k2 - 1]);
                }
            }
            assert forall|k1: int, k2: int| 0 <= k1 < k2 < nr.len() implies (#[trigger] nr[k1]).steamid@
                != (#[trigger] nr[k2]).steamid@ by {
                assert(nr[k1] == old_rest[k1 + 1] && nr[k2] == old_rest[k2 + 1]);
            }
            assert forall|k1: int, k2: int| 0 <= k1 < no.len() && 0 <= k2 < nr.len() implies (#[trigger] no[k1]).steamid@
                != (#[trigger] nr[k2]).steamid@ by {
                assert(nr[k2] == old_rest[k2 + 1]);
                if k1 < p {
                    assert(no[k1] == old_out[k1]);
                } else if k1 > p {
                    assert(no[k1] == old_out[k1 - 1]);
                }
            }
            assert forall|k1: int, k2: int| 0 <= k1 < k2 < no.len() implies (#[trigger] no[k1]).demos@.len()
                >= (#[trigger] no[k2]).demos@.len() by {
                if k1 < p && k2 < p {
                    assert(no[k1] == old_out[k1] && no[k2] == old_out[k2]);
                } else if k1 < p && k2 == p {
                    assert(no[k1] == old_out[k1]);
                } else if k1 < p {
                    assert(no[k1] == old_out[k1] && no[k2] == old_out[k2 - 1]);
                    if p < old_out.len() {
                        assert(old_out[p as int].demos@.len() < x.demos@.len());
                    }
                } else if k1 == p {
                    assert(no[k2] == old_out[k2 - 1]);
                    assert(old_out[p as int].demos@.len() < x.demos@.len());
                } else {
                    assert(no[k1] == old_out[k1 - 1] && no[k2] == old_out[k2 - 1]);
                }
            }
        }
    }
    proof {
        let o = out@;
        assert forall|d2: int, p2: int| is_entry(demos, d2, p2) && entry_precedes(d2, p2, n, 0) implies covers(
            o,
            #[trigger] entry_sid(demos, d2, p2),
        ) by {
            if covers(rest@, entry_sid(demos, d2, p2)) {
                let k = choose|k: int| 0 <= k < rest@.len() && (#[trigger] rest@[k]).steamid@ == entry_sid(demos, d2, p2);
                assert(false);
            }
        }
    }
    out
}

proof fn lemma_built_next_demo(
    ds: Seq<(String, Vec<(String, String)>)>,
    d: int,
    a: Seq<PlayerAggregate>,
)
    requires
        0 <= d < ds.len(),
        built_upto(ds, d, ds[d].1@.len() as int, a),
    ensures
        built_upto(ds, d + 1, 0, a),
{
    reveal(summarizes_upto);
    let len = ds[d].1@.len() as int;
    assert forall|k: int| 0 <= k < a.len() implies summarizes_upto(ds, d + 1, 0, #[trigger] a[k]) by {
        lemma_next_demo(ds, d, a[k].steamid@);
    }
    assert forall|d2: int, p2: int| is_entry(ds, d2, p2) && entry_precedes(d2, p2, d + 1, 0)
        implies covers(a, #[trigger] entry_sid(ds, d2, p2)) by {
        assert(entry_precedes(d2, p2, d, len));
    }
}

/// The players across the demos, one aggregate per Steam3 id, ordered by
/// the number of demos they appear in, most first.
pub fn aggregate_players(demos: &Vec<(String, Vec<(String, String)>)>) -> (r: Vec<PlayerAggregate>)
    requires
        forall|d: int, p: int| is_entry(demos@, d, p) ==> fits_id64(#[trigger] entry_sid(demos@, d, p)),
    ensures
        forall|k: int| 0 <= k < r@.len() ==> summarizes(demos@, #[trigger] r@[k]),
        forall|d: int, p: int| is_entry(demos@, d, p) ==> covers(r@, #[trigger] entry_sid(demos@, d, p)),
        forall|k1: int, k2: int|
            0 <= k1 < k2 < r@.len() ==> (#[trigger] r@[k1]).steamid@ != (#[trigger] r@[k2]).steamid@,
        forall|k1: int, k2: int|
            0 <= k1 < k2 < r@.len() ==> (#[trigger] r@[k1]).demos@.len() >= (#[trigger] r@[k2]).demos@.len(),
{
    let ghost ds = demos@;
    let mut aggs: Vec<PlayerAggregate> = Vec::new();
    let mut d: usize = 0;
    while d < demos.len()
        invariant
            d <= ds.len(),
            ds == demos@,
            forall|d1: int, p1: int| is_entry(ds, d1, p1) ==> fits_id64(#[trigger] entry_sid(ds, d1, p1)),
            built_upto(ds, d as int, 0, aggs@),
        decreases demos.len() - d,
    {
        let mut p: usize = 0;
        while p < demos[d].1.len()
            invariant
                d < ds.len(),
                p <= ds[d as int].1@.len(),
                ds == demos@,
                forall|d1: int, p1: int| is_entry(ds, d1, p1) ==> fits_id64(#[trigger] entry_sid(ds, d1, p1)),
                built_upto(ds, d as int, p as int, aggs@),
            decreases demos[d as int].1@.len() - p,
        {
            assert(is_entry(ds, d as int, p as int));
            record_entry(&mut aggs, demos, d, p);
            p += 1;
        }
        proof {
            lemma_built_next_demo(ds, d as int, aggs@);
        }
        d += 1;
    }
    order_by_demo_count(aggs, Ghost(ds))
}

/// The most players a search lists.
pub const MAX_VISIBLE_ROWS: usize = 200;

/// Whether the search text `search` (as typed) finds aggregate `a`.
pub open spec fn finds(search: Seq<char>, a: PlayerAggregate) -> bool {
    search_finds(lowercase(search), a.names@, a.steamid@, opt_view(a.steamid64))
}

/// The positions, among the first `i` aggregates, of those the search text
/// finds, in order.
pub open spec fn found_upto(aggs: Seq<PlayerAggregate>, search: Seq<char>, i: int) -> Seq<usize>
    decreases i,
{
    if i <= 0 {
        Seq::empty()
    } else if finds(search, aggs[i - 1]) {
        found_upto(aggs, search, i - 1).push((i - 1) as usize)
    } else {
        found_upto(aggs, search, i - 1)
    }
}

proof fn lemma_found_upto_len(aggs: Seq<PlayerAggregate>, search: Seq<char>, i: int)
    requires
        0 <= i,
    ensures
        found_upto(aggs, search, i).len() <= i,
    decreases i,
{
    if i > 0 {
        lemma_found_upto_len(aggs, search, i - 1);
    }
}

/// How many aggregates the search text finds, and the positions of the
/// first `MAX_VISIBLE_ROWS` of them, in order.
pub fn search_players(aggs: &Vec<PlayerAggregate>, search: &str) -> (r: (usize, Vec<usize>))
    ensures
        r.0 == found_upto(aggs@, search@, aggs@.len() as int).len(),
        r.1@ == found_upto(aggs@, search@, aggs@.len() as int).take(
            if r.0 < MAX_VISIBLE_ROWS { r.0 as int } else { MAX_VISIBLE_ROWS as int },
        ),
{
    let mut count: usize = 0;
    let mut shown: Vec<usize> = Vec::new();
    let mut i: usize = 0;
    while i < aggs.len()
        invariant
            i <= aggs@.len(),
            count == found_upto(aggs@, search@, i as int).len(),
            shown@ == found_upto(aggs@, search@, i as int).take(
                if count < MAX_VISIBLE_ROWS { count as int } else { MAX_VISIBLE_ROWS as int },
            ),
        decreases aggs.len() - i,
    {
        proof {
            lemma_found_upto_len(aggs@, search@, i as int);
        }
        let ghost before = found_upto(aggs@, search@, i as int);
        if matches_search(&aggs[i], search) {
            assert(found_upto(aggs@, search@, i + 1) == before.push(i));
            if count < MAX_VISIBLE_ROWS {
                shown.push(i);
                assert(shown@ =~= before.push(i).take(count + 1));
            } else {
                assert(before.push(i).take(MAX_VISIBLE_ROWS as int) =~= before.take(MAX_VISIBLE_ROWS as int));
            }
            count += 1;
        }
        i += 1;
    }
    (count, shown)
}

} // verus!
