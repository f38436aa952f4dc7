//! Demo-level bookkeeping: how many ticks a demo spans, the record time a
//! replay entry stores, and a demo's bookmarks.
use crate::decimal::{decimal_digits, to_decimal};
use crate::steamid::find_char;
use crate::text::{chars_eq, chars_of, is_whitespace, skip_ws, string_of};
use vstd::prelude::*;

verus! {

/// The demo's length in ticks: the header's count, or the last tick reached
/// where that is later (or where there is no header).
pub fn tick_count(tick: u32, header_ticks: Option<u32>) -> (n: u32)
    ensures
        n == match header_ticks {
            Some(h) => if tick > h {
                tick
            } else {
                h
            },
            None => tick,
        },
{
    match header_ticks {
        Some(h) => if tick > h {
            tick
        } else {
            h
        },
        None => tick,
    }
}

/// The date and time a replay entry records, packed as the game's replay
/// files pack them: the date as day-1, month-1 and the years since 2009 in
/// bits 0-4, 5-8 and 9 up; the time as hour, minute and second in bits 0-4,
/// 5-10 and 11 up.
pub fn replay_record_time(year: i32, month: u32, day: u32, hour: u32, minute: u32, second: u32) -> (r: (
    u32,
    u32,
))
    requires
        2009 <= year <= 262143,
        1 <= month <= 12,
        1 <= day <= 31,
        hour < 24,
        minute < 60,
        second < 61,
    ensures
        r.0 == (day - 1) + (month - 1) * 32 + (year - 2009) * 512,
        r.1 == hour + minute * 32 + second * 2048,
{
    let d: u32 = day - 1;
    let m: u32 = month - 1;
    let y: u32 = (year - 2009) as u32;
    let date = d | (m << 5u32) | (y << 9u32);
    let time = hour | (minute << 5u32) | (second << 11u32);
    assert(d | (m << 5u32) | (y << 9u32) == d + m * 32 + y * 512) by (bit_vector)
        requires
            d < 31,
            m < 12,
            y < 262143,
    ;
    assert(hour | (minute << 5u32) | (second << 11u32) == hour + minute * 32 + second * 2048) by (bit_vector)
        requires
            hour < 24,
            minute < 60,
            second < 61,
    ;
    (date, time)
}

/// A bookmark in a demo: its tick, its text and its kind.
pub struct Event {
    pub tick: u32,
    pub title: String,
    pub ev_type: String,
}

/// The index of the first of `s` whose tick is past `tick`, or the length.
pub open spec fn insert_pos(s: Seq<Event>, tick: u32, from: int) -> int
    decreases s.len() - from,
{
    if from < 0 || from >= s.len() {
        s.len() as int
    } else if s[from].tick > tick {
        from
    } else {
        insert_pos(s, tick, from + 1)
    }
}

proof fn lemma_insert_pos(s: Seq<Event>, tick: u32, from: int)
    requires
        0 <= from <= s.len(),
    ensures
        from <= insert_pos(s, tick, from) <= s.len(),
        forall|j: int| from <= j < insert_pos(s, tick, from) ==> s[j].tick <= tick,
        insert_pos(s, tick, from) < s.len() ==> s[insert_pos(s, tick, from)].tick > tick,
    decreases s.len() - from,
{
    if from < s.len() && s[from].tick <= tick {
        lemma_insert_pos(s, tick, from + 1);
    }
}

/// The bookmarks ordered by tick, those with equal ticks kept in the order
/// they were given (a stable sort by tick).
pub open spec fn sorted_by_tick(s: Seq<Event>) -> Seq<Event>
    decreases s.len(),
{
    if s.len() == 0 {
        Seq::empty()
    } else {
        let r = sorted_by_tick(s.drop_last());
        r.insert(insert_pos(r, s.last().tick, 0), s.last())
    }
}

/// The bookmarks come out ordered by tick, and as many as went in.
pub proof fn lemma_sorted_by_tick(s: Seq<Event>)
    ensures
        sorted_by_tick(s).len() == s.len(),
        forall|i: int, j: int|
            0 <= i < j < s.len() ==> sorted_by_tick(s)[i].tick <= sorted_by_tick(s)[j].tick,
    decreases s.len(),
{
    if s.len() > 0 {
        let r = sorted_by_tick(s.drop_last());
        lemma_sorted_by_tick(s.drop_last());
        let e = s.last();
        lemma_insert_pos(r, e.tick, 0);
        let p = insert_pos(r, e.tick, 0);
        let out = r.insert(p, e);
        assert forall|i: int, j: int| 0 <= i < j < out.len() implies out[i].tick <= out[j].tick by {
            if j < p {
                assert(out[i] == r[i] && out[j] == r[j]);
            } else if j == p {
                assert(out[i] == r[i]);
            } else if i < p {
                assert(out[i] == r[i] && out[j] == r[j - 1]);
                assert(r[p].tick > e.tick);
            } else if i == p {
                assert(out[j] == r[j - 1]);
                assert(r[p].tick > e.tick);
            } else {
                assert(out[i] == r[i - 1] && out[j] == r[j - 1]);
            }
        }
    }
}

fn copy_event(e: &Event) -> (r: Event)
    ensures
        r == *e,
{
    Event { tick: e.tick, title: e.title.clone(), ev_type: e.ev_type.clone() }
}

/// The bookmarks sorted by tick, stably.
pub fn sort_events_by_tick(events: &Vec<Event>) -> (r: Vec<Event>)
    ensures
        r@ == sorted_by_tick(events@),
{
    let mut out: Vec<Event> = Vec::new();
    let mut i: usize = 0;
    while i < events.len()
        invariant
            i <= events@.len(),
            out@ == sorted_by_tick(events@.subrange(0, i as int)),
        decreases events.len() - i,
    {
        assert(events@.subrange(0, i + 1).drop_last() == events@.subrange(0, i as int));
        let e = copy_event(&events[i]);
        let mut p: usize = 0;
        while p < out.len() && out[p].tick <= e.tick
            invariant
                p <= out@.len(),
                insert_pos(out@, e.tick, p as int) == insert_pos(out@, e.tick, 0),
            decreases out.len() - p,
        {
            p += 1;
        }
        out.insert(p, e);
        i += 1;
    }
    assert(events@.subrange(0, events@.len() as int) == events@);
    out
}

/// What becomes of a demo's bookmark file when it is saved.
pub enum BookmarkWrite {
    /// Nothing to keep: the file goes.
    Remove,
    /// The file is written, with these notes (none where they were empty).
    Write(Option<String>),
}

/// Decides how a demo's bookmarks are saved: empty notes count as none, and
/// with no notes and no bookmarks the file is removed.
pub fn bookmark_write(notes: Option<&str>, has_events: bool) -> (w: BookmarkWrite)
    ensures
        match notes {
            Some(n) if n@.len() > 0 => w matches BookmarkWrite::Write(Some(s)) && s@ == n@,
            _ => if has_events {
                w matches BookmarkWrite::Write(None)
            } else {
                w is Remove
            },
        },
{
    let kept: Option<String> = match notes {
        Some(n) => if n.unicode_len() > 0 {
            Some(n.to_owned())
        } else {
            None
        },
        None => None,
    };
    match kept {
        Some(s) => BookmarkWrite::Write(Some(s)),
        None => if has_events {
            BookmarkWrite::Write(None)
        } else {
            BookmarkWrite::Remove
        },
    }
}

/// The text of a replay entry for the game's replay browser: its handle,
/// map, title, demo file, length (as written for the entry) and packed
/// record time.
pub open spec fn replay_entry_spec(
    handle: u32,
    map: Seq<char>,
    title: Seq<char>,
    file: Seq<char>,
    length: Seq<char>,
    date: u32,
    time: u32,
) -> Seq<char> {
    let h = decimal_digits(handle as nat);
    "replay_"@ + h + "\n{\n\t\"handle\"\t\""@ + h + "\"\n\t\"map\"\t\""@ + map
        + "\"\n\t\"complete\"\t\"1\"\n\t\"title\"\t\""@ + title + "\"\n\t\"recon_filename\"\t\""@ + file
        + "\"\n\t\"spawn_tick\"\t\"-1\"\n\t\"death_tick\"\t\"-1\"\n\t\"status\"\t\"3\"\n\t\"length\"\t\""@
        + length + "\"\n\t\"record_time\"\n\t{\n\t\t\"date\"\t\""@ + decimal_digits(date as nat)
        + "\"\n\t\t\"time\"\t\""@ + decimal_digits(time as nat) + "\"\n\t}\n}\n"@
}

/// Writes the replay entry for a demo.
pub fn replay_entry(
    handle: u32,
    map: &str,
    title: &str,
    file: &str,
    length: &str,
    date: u32,
    time: u32,
) -> (r: String)
    ensures
        r@ == replay_entry_spec(handle, map@, title@, file@, length@, date, time),
{
    let h = to_decimal(handle as u64);
    let mut s = String::from_str("replay_");
    s.append(h.as_str());
    s.append("\n{\n\t\"handle\"\t\"");
    s.append(h.as_str());
    s.append("\"\n\t\"map\"\t\"");
    s.append(map);
    s.append("\"\n\t\"complete\"\t\"1\"\n\t\"title\"\t\"");
    s.append(title);
    s.append("\"\n\t\"recon_filename\"\t\"");
    s.append(file);
    s.append("\"\n\t\"spawn_tick\"\t\"-1\"\n\t\"death_tick\"\t\"-1\"\n\t\"status\"\t\"3\"\n\t\"length\"\t\"");
    s.append(length);
    s.append("\"\n\t\"record_time\"\n\t{\n\t\t\"date\"\t\"");
    let d = to_decimal(date as u64);
    s.append(d.as_str());
    s.append("\"\n\t\t\"time\"\t\"");
    let tm = to_decimal(time as u64);
    s.append(tm.as_str());
    s.append("\"\n\t}\n}\n");
    s
}

/// The file name of replay entry `handle`.
pub fn replay_file_name(handle: u32) -> (r: String)
    ensures
        r@ == "replay_"@ + decimal_digits(handle as nat) + ".dmx"@,
{
    let h = to_decimal(handle as u64);
    let mut s = String::from_str("replay_");
    s.append(h.as_str());
    s.append(".dmx");
    s
}

/// The text of a fresh replay index.
pub fn replay_index() -> (r: String)
    ensures
        r@ == "\"root\"\n{\n\t\"version\"\t\"0\"\n}"@,
{
    String::from_str("\"root\"\n{\n\t\"version\"\t\"0\"\n}")
}

/// The key that names a replay entry's demo file, with its closing quote.
pub open spec fn recon_key() -> Seq<char> {
    seq!['r', 'e', 'c', 'o', 'n', '_', 'f', 'i', 'l', 'e', 'n', 'a', 'm', 'e', '"']
}

/// Whether a replay entry's demo file name is given at `i`: the key and its
/// quote, white space, a quote, then at least one character that is not a
/// quote.
pub open spec fn recon_at(t: Seq<char>, i: int) -> bool {
    let k = i + recon_key().len();
    let w = skip_ws(t, k);
    &&& 0 <= i
    &&& k <= t.len()
    &&& t.subrange(i, k) == recon_key()
    &&& w > k
    &&& w + 1 < t.len()
    &&& t[w] == '"'
    &&& t[w + 1] != '"'
}

/// The file name given at `i`: the characters after the opening quote, up
/// to the next quote or the end.
pub open spec fn recon_name_at(t: Seq<char>, i: int) -> Seq<char> {
    let w = skip_ws(t, i + recon_key().len());
    t.subrange(w + 1, find_char(t, '"', w + 1))
}

/// The file name of the first place from `from` on where one is given.
pub open spec fn first_recon(t: Seq<char>, from: int) -> Option<Seq<char>>
    decreases t.len() - from,
{
    if from < 0 || from >= t.len() {
        None
    } else if recon_at(t, from) {
        Some(recon_name_at(t, from))
    } else {
        first_recon(t, from + 1)
    }
}

/// The demo file a replay entry's text names: what its first
/// `recon_filename` key, white space and opening quote are followed by, up
/// to the next quote; `None` where no such key is followed by a name.
pub fn recon_filename(contents: &str) -> (r: Option<String>)
    ensures
        match first_recon(contents@, 0) {
            Some(n) => r matches Some(s) && s@ == n,
            None => r is None,
        },
{
    let cs = chars_of(contents);
    let key: Vec<char> = vec!['r', 'e', 'c', 'o', 'n', '_', 'f', 'i', 'l', 'e', 'n', 'a', 'm', 'e', '"'];
    assert(key@ =~= recon_key());
    let n = cs.len();
    let mut i: usize = 0;
    while i < n
        invariant
            i <= n,
            n == cs@.len(),
            cs@ == contents@,
            key@ == recon_key(),
            first_recon(cs@, i as int) == first_recon(cs@, 0),
        decreases n - i,
    {
        if n - i >= 15 {
            let (_, tail) = cs.as_slice().split_at(i);
            let (window, _) = tail.split_at(15);
            assert(window@ == cs@.subrange(i as int, i + 15));
            if chars_eq(window, key.as_slice()) {
                let k = i + 15;
                let mut w = k;
                while w < n && is_whitespace(cs[w])
                    invariant
                        k <= w <= n,
                        n == cs@.len(),
                        skip_ws(cs@, w as int) == skip_ws(cs@, k as int),
                    decreases n - w,
                {
                    w += 1;
                }
                if w > k && n - w > 1 && cs[w] == '"' && cs[w + 1] != '"' {
                    let start = w + 1;
                    let mut e = start;
                    while e < n && cs[e] != '"'
                        invariant
                            start <= e <= n,
                            n == cs@.len(),
                            find_char(cs@, '"', e as int) == find_char(cs@, '"', start as int),
                        decreases n - e,
                    {
                        e += 1;
                    }
                    let (_, rest) = cs.as_slice().split_at(start);
                    let (name, _) = rest.split_at(e - start);
                    assert(name@ =~= cs@.subrange(start as int, e as int));
                    return Some(string_of(name));
                }
            }
        }
        i += 1;
    }
    None
}

/// A number written with at least two digits.
pub open spec fn two_digits(n: u32) -> Seq<char> {
    if n < 10 {
        seq!['0'] + decimal_digits(n as nat)
    } else {
        decimal_digits(n as nat)
    }
}

fn two_digits_of(n: u32) -> (s: String)
    ensures
        s@ == two_digits(n),
{
    let d = to_decimal(n as u64);
    if n < 10 {
        let mut s = String::from_str("0");
        proof {
            reveal_strlit("0");
        }
        s.append(d.as_str());
        s
    } else {
        d
    }
}

/// A play time as `HH:MM:SS`, or `MM:SS` under an hour; each part has at
/// least two digits.
pub fn timestamp_text(hours: u32, minutes: u32, seconds: u32) -> (s: String)
    ensures
        s@ == if hours > 0 {
            two_digits(hours) + seq![':'] + two_digits(minutes) + seq![':'] + two_digits(seconds)
        } else {
            two_digits(minutes) + seq![':'] + two_digits(seconds)
        },
{
    proof {
        reveal_strlit(":");
    }
    let mut s = String::new();
    if hours > 0 {
        s.append(two_digits_of(hours).as_str());
        s.append(":");
    }
    s.append(two_digits_of(minutes).as_str());
    s.append(":");
    s.append(two_digits_of(seconds).as_str());
    s
}

} // verus!
