//! SteamID conversions.
use crate::decimal::{
    all_digits, decimal_digits, digits_value, lemma_digits_value_nonneg, numeral_digits, parse_unsigned,
    parse_unsigned_max, to_decimal,
};
use crate::text::chars_of;
use vstd::prelude::*;

verus! {

/// The SteamID64 of account 0 in the public universe: a Steam3 account id
/// plus this base is the account's SteamID64.
pub const STEAMID64_BASE: u64 = 76561197960265728;

/// `s` with every trailing `c` removed.
pub open spec fn trim_end_char(s: Seq<char>, c: char) -> Seq<char>
    decreases s.len(),
{
    if s.len() > 0 && s.last() == c {
        trim_end_char(s.drop_last(), c)
    } else {
        s
    }
}

/// The index of the first `c` in `s` at or after `from`, or `s.len()`.
pub open spec fn find_char(s: Seq<char>, c: char, from: int) -> int
    decreases s.len() - from,
{
    if from < 0 || from >= s.len() {
        s.len() as int
    } else if s[from] == c {
        from
    } else {
        find_char(s, c, from + 1)
    }
}

proof fn lemma_find_char_bounds(s: Seq<char>, c: char, from: int)
    requires
        0 <= from <= s.len(),
    ensures
        from <= find_char(s, c, from) <= s.len(),
    decreases s.len() - from,
{
    if from < s.len() && s[from] != c {
        lemma_find_char_bounds(s, c, from + 1);
    }
}

/// The third `:`-separated field of `s`, if it has one.
pub open spec fn third_field(s: Seq<char>) -> Option<Seq<char>> {
    let p0 = find_char(s, ':', 0);
    let p1 = find_char(s, ':', p0 + 1);
    if p0 >= s.len() || p1 >= s.len() {
        None
    } else {
        Some(s.subrange(p1 + 1, find_char(s, ':', p1 + 1)))
    }
}

/// The account id of a Steam3 id such as `[U:1:1234567]`: its third field
/// once the closing brackets are dropped, read as an unsigned number.
pub open spec fn steam3_account(s: Seq<char>) -> Option<int> {
    match third_field(trim_end_char(s, ']')) {
        Some(f) => parse_unsigned(f, u64::MAX as int),
        None => None,
    }
}

/// A Steam3 id's account number is never negative.
pub proof fn lemma_steam3_account_nonneg(s: Seq<char>)
    ensures
        steam3_account(s) matches Some(a) ==> a >= 0,
{
    match third_field(trim_end_char(s, ']')) {
        Some(f) => {
            let d = numeral_digits(f);
            if d.len() > 0 && all_digits(d) {
                lemma_digits_value_nonneg(d);
            }
        },
        None => {},
    }
}

/// What `steamid_32_to_64` gives: the account id plus the base, in decimal.
pub open spec fn steamid_32_to_64_spec(s: Seq<char>) -> Option<Seq<char>> {
    match steam3_account(s) {
        Some(id) => Some(decimal_digits((id + STEAMID64_BASE) as nat)),
        None => None,
    }
}

fn find_char_exec(cs: &Vec<char>, end: usize, c: char, from: usize) -> (r: usize)
    requires
        end <= cs@.len(),
        from <= end,
    ensures
        r as int == find_char(cs@.subrange(0, end as int), c, from as int),
{
    let ghost t = cs@.subrange(0, end as int);
    let mut i = from;
    while i < end && cs[i] != c
        invariant
            from <= i <= end,
            end <= cs@.len(),
            t == cs@.subrange(0, end as int),
            find_char(t, c, i as int) == find_char(t, c, from as int),
        decreases end - i,
    {
        assert(t[i as int] == cs@[i as int]);
        i += 1;
    }
    if i < end {
        assert(t[i as int] == cs@[i as int]);
    }
    i
}

/// The account id of a Steam3 id, where it has one.
pub fn steam3_account_of(steamid32: &str) -> (r: Option<u64>)
    ensures
        match steam3_account(steamid32@) {
            Some(a) => r == Some(a as u64) && 0 <= a <= u64::MAX,
            None => r is None,
        },
{
    let cs = chars_of(steamid32);
    let mut end = cs.len();
    assert(cs@.subrange(0, end as int) == cs@);
    while end > 0 && cs[end - 1] == ']'
        invariant
            end <= cs@.len(),
            cs@ == steamid32@,
            trim_end_char(cs@.subrange(0, end as int), ']') == trim_end_char(steamid32@, ']'),
        decreases end,
    {
        assert(cs@.subrange(0, end as int).drop_last() == cs@.subrange(0, end - 1));
        end -= 1;
    }
    let ghost t = cs@.subrange(0, end as int);
    assert(trim_end_char(t, ']') == t);
    assert(t == trim_end_char(steamid32@, ']'));
    let p0 = find_char_exec(&cs, end, ':', 0);
    if p0 >= end {
        return None;
    }
    let p1 = find_char_exec(&cs, end, ':', p0 + 1);
    if p1 >= end {
        return None;
    }
    let p2 = find_char_exec(&cs, end, ':', p1 + 1);
    proof {
        lemma_find_char_bounds(t, ':', p1 + 1);
    }
    let field = steamid32.substring_char(p1 + 1, p2);
    assert(field@ == t.subrange(p1 + 1, p2 as int));
    assert(t.len() == end);
    assert(third_field(t) == Some(field@));
    assert(steam3_account(steamid32@) == parse_unsigned(field@, u64::MAX as int));
    proof {
        lemma_steam3_account_nonneg(steamid32@);
    }
    parse_unsigned_max(field, u64::MAX)
}

/// Converts a Steam3 id (`[U:1:1234567]`) to a SteamID64 string
/// (`76561197961499295`).
pub fn steamid_32_to_64(steamid32: &str) -> (r: Option<String>)
    requires
        steam3_account(steamid32@) matches Some(id) ==> id + STEAMID64_BASE <= u64::MAX,
    ensures
        match steamid_32_to_64_spec(steamid32@) {
            Some(s) => r matches Some(v) && v@ == s,
            None => r is None,
        },
{
    match steam3_account_of(steamid32) {
        Some(id) => Some(to_decimal(id + STEAMID64_BASE)),
        None => None,
    }
}

/// Whether converting the Steam3 id to a SteamID64 stays within 64 bits:
/// it has no account id, or one small enough.
pub fn fits_steamid64(steamid32: &str) -> (b: bool)
    ensures
        b == (steam3_account(steamid32@) matches Some(id) ==> id + STEAMID64_BASE <= u64::MAX),
{
    match steam3_account_of(steamid32) {
        Some(id) => id <= u64::MAX - STEAMID64_BASE,
        None => true,
    }
}

/// The SteamID64 that `steamid_ng::SteamID::from_steam3` reads from a Steam3
/// id such as `[U:1:1234]`, or `None` where the crate refuses the text.
pub uninterp spec fn steam3_id64(s: Seq<char>) -> Option<u64>;

/// The account id of a Steam3 id of the plain individual form
/// `[U:1:n]`, with `n` one or more decimal digits worth at most
/// `u32::MAX`.
pub open spec fn individual_account(s: Seq<char>) -> Option<int> {
    let digits = s.subrange(5, s.len() - 1);
    if s.len() >= 7 && s.subrange(0, 5) == "[U:1:"@ && s.last() == ']' && all_digits(digits)
        && digits_value(digits) <= u32::MAX {
        Some(digits_value(digits))
    } else {
        None
    }
}

/// Reads a Steam3 id with `steamid_ng::SteamID::from_steam3` and gives the
/// id's 64-bit form (`u64::from`). The crate refuses at once any text that
/// does not open with `[`. Of the plain individual form `[U:1:n]` it gives
/// account `n`, desktop instance, individual type, public universe: `n`
/// plus `STEAMID64_BASE`. What else it accepts, and how it packs the other
/// account types, universes and instances, is the crate's rule and is left
/// to `steam3_id64`.
#[verifier::external_body]
pub(crate) fn parse_steam3(s: &str) -> (r: Option<u64>)
    ensures
        r == steam3_id64(s@),
        s@.len() == 0 || s@[0] != '[' ==> r is None,
        individual_account(s@) matches Some(n) ==> r == Some((n + STEAMID64_BASE) as u64),
{
    match steamid_ng::SteamID::from_steam3(s) {
        Ok(id) => Some(u64::from(id)),
        Err(_) => None,
    }
}

} // verus!
