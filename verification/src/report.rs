//! The readable rendering of a detection's payload, and the plain-text
//! reports copied to the clipboard.
use crate::decimal::{decimal_digits, to_decimal};
use crate::text::{chars_of, string_of};
use vstd::prelude::*;

verus! {

/// The zero-width space that some detectors pad field names with to fix
/// their order.
pub open spec fn zero_width_space() -> char {
    '\u{200b}'
}

/// `key` without its zero-width spaces.
pub open spec fn clean_key_spec(key: Seq<char>) -> Seq<char>
    decreases key.len(),
{
    if key.len() == 0 {
        key
    } else {
        let rest = clean_key_spec(key.drop_last());
        if key.last() == zero_width_space() {
            rest
        } else {
            rest.push(key.last())
        }
    }
}

/// Strips the ordering padding from a field name.
pub fn clean_key(key: &str) -> (r: String)
    ensures
        r@ == clean_key_spec(key@),
{
    let cs = chars_of(key);
    let mut out: Vec<char> = Vec::new();
    let mut i: usize = 0;
    while i < cs.len()
        invariant
            i <= cs.len(),
            cs@ == key@,
            out@ == clean_key_spec(cs@.subrange(0, i as int)),
        decreases cs.len() - i,
    {
        assert(cs@.subrange(0, i + 1).drop_last() == cs@.subrange(0, i as int));
        if cs[i] != '\u{200b}' {
            out.push(cs[i]);
        }
        i += 1;
    }
    assert(cs@.subrange(0, cs@.len() as int) == cs@);
    string_of(out.as_slice())
}

/// `text` cut to at most `limit` characters, the cut marked by an ellipsis.
pub open spec fn truncate_spec(text: Seq<char>, limit: nat) -> Seq<char> {
    if text.len() <= limit {
        text
    } else {
        text.subrange(0, if limit >= 1 {
            limit - 1
        } else {
            0
        }) + seq!['\u{2026}']
    }
}

/// Cuts `text` to at most `limit` characters.
pub fn truncate_chars(text: &str, limit: usize) -> (r: String)
    ensures
        r@ == truncate_spec(text@, limit as nat),
{
    let cs = chars_of(text);
    if cs.len() <= limit {
        return string_of(cs.as_slice());
    }
    let keep = if limit >= 1 {
        limit - 1
    } else {
        0
    };
    let (head, _) = cs.as_slice().split_at(keep);
    let mut out: Vec<char> = Vec::new();
    let mut i: usize = 0;
    while i < head.len()
        invariant
            i <= head.len(),
            out@ == head@.subrange(0, i as int),
        decreases head.len() - i,
    {
        out.push(head[i]);
        i += 1;
    }
    out.push('\u{2026}');
    assert(head@.subrange(0, head@.len() as int) == head@);
    string_of(out.as_slice())
}

/// A truncated text is never longer than the limit, as long as the limit
/// leaves room for the ellipsis.
pub proof fn lemma_truncate_short(text: Seq<char>, limit: nat)
    requires
        limit >= 1,
    ensures
        truncate_spec(text, limit).len() <= limit,
{
}

/// `items` joined by `sep`.
pub open spec fn join(items: Seq<Seq<char>>, sep: Seq<char>) -> Seq<char>
    decreases items.len(),
{
    if items.len() == 0 {
        Seq::empty()
    } else if items.len() == 1 {
        items[0]
    } else {
        join(items.drop_last(), sep) + sep + items.last()
    }
}

/// The field/value pairs as `key<sep>value` texts.
pub open spec fn pair_texts(pairs: Seq<(String, String)>, sep: Seq<char>) -> Seq<Seq<char>> {
    pairs.map_values(|p: (String, String)| p.0@ + sep + p.1@)
}

/// Joins `key<kv>value` texts for the pairs `from..to`, separated by `sep`.
fn join_pairs(pairs: &Vec<(String, String)>, to: usize, kv: &str, sep: &str) -> (r: String)
    requires
        to <= pairs@.len(),
    ensures
        r@ == join(pair_texts(pairs@.subrange(0, to as int), kv@), sep@),
{
    let mut out = String::new();
    let mut i: usize = 0;
    while i < to
        invariant
            i <= to <= pairs@.len(),
            out@ == join(pair_texts(pairs@.subrange(0, i as int), kv@), sep@),
        decreases to - i,
    {
        let ghost before = pair_texts(pairs@.subrange(0, i as int), kv@);
        let ghost after = pair_texts(pairs@.subrange(0, i + 1), kv@);
        assert(after.drop_last() =~= before);
        assert(after.last() == pairs@[i as int].0@ + kv@ + pairs@[i as int].1@);
        if i > 0 {
            out.append(sep);
        } else {
            assert(after.len() == 1);
        }
        out.append(pairs[i].0.as_str());
        out.append(kv);
        out.append(pairs[i].1.as_str());
        i += 1;
    }
    out
}

/// The block shown for an expanded detection: one `key: value` per line, or
/// a note that there is nothing to show.
pub open spec fn detail_block_spec(pairs: Seq<(String, String)>) -> Seq<char> {
    if pairs.len() == 0 {
        "This algorithm reported no extra data for the tick."@
    } else {
        join(pair_texts(pairs, ": "@), "\n"@)
    }
}

/// Renders the expanded block of a detection's field/value pairs.
pub fn detail_block(pairs: &Vec<(String, String)>) -> (r: String)
    ensures
        r@ == detail_block_spec(pairs@),
{
    if pairs.len() == 0 {
        return String::from_str("This algorithm reported no extra data for the tick.");
    }
    let r = join_pairs(pairs, pairs.len(), ": ", "\n");
    assert(pairs@.subrange(0, pairs@.len() as int) == pairs@);
    r
}

/// The one-line gist of a collapsed detection: up to three `key value`
/// pairs, a marker when there are more, cut to 96 characters.
pub open spec fn summary_spec(pairs: Seq<(String, String)>) -> Seq<char> {
    if pairs.len() == 0 {
        "no extra data"@
    } else {
        let shown = if pairs.len() > 3 {
            pairs.subrange(0, 3)
        } else {
            pairs
        };
        let line = join(pair_texts(shown, " "@), "  \u{b7}  "@);
        let line = if pairs.len() > 3 {
            line + "  \u{b7}  ..."@
        } else {
            line
        };
        truncate_spec(line, 96)
    }
}

/// Renders the collapsed row of a detection.
pub fn summary(pairs: &Vec<(String, String)>) -> (r: String)
    ensures
        r@ == summary_spec(pairs@),
        r@.len() <= 96,
{
    if pairs.len() == 0 {
        proof {
            reveal_strlit("no extra data");
        }
        return String::from_str("no extra data");
    }
    let n = if pairs.len() > 3 {
        3
    } else {
        pairs.len()
    };
    let mut line = join_pairs(pairs, n, " ", "  \u{b7}  ");
    if pairs.len() > 3 {
        line.append("  \u{b7}  ...");
    } else {
        assert(pairs@.subrange(0, n as int) == pairs@);
    }
    let r = truncate_chars(line.as_str(), 96);
    proof {
        lemma_truncate_short(line@, 96);
    }
    r
}

/// One detection as it appears in a report.
pub struct ReportedDetection {
    pub tick: u32,
    pub algorithm: String,
    pub pairs: Vec<(String, String)>,
}

/// The lines of one detection in a report: its tick and algorithm, then one
/// indented `key: value` line per field.
pub open spec fn detection_lines(d: ReportedDetection) -> Seq<char> {
    "  tick "@ + decimal_digits(d.tick as nat) + "  "@ + d.algorithm@ + "\n"@ + pair_lines(d.pairs@)
}

pub open spec fn pair_lines(pairs: Seq<(String, String)>) -> Seq<char>
    decreases pairs.len(),
{
    if pairs.len() == 0 {
        Seq::empty()
    } else {
        pair_lines(pairs.drop_last()) + "    "@ + pairs.last().0@ + ": "@ + pairs.last().1@ + "\n"@
    }
}

pub open spec fn detections_lines(ds: Seq<ReportedDetection>) -> Seq<char>
    decreases ds.len(),
{
    if ds.len() == 0 {
        Seq::empty()
    } else {
        detections_lines(ds.drop_last()) + detection_lines(ds.last())
    }
}

/// The clipboard block for one player: the id, the name when there is one,
/// the count, then every detection.
pub open spec fn player_report_spec(
    steamid64: u64,
    name: Option<Seq<char>>,
    detections: Seq<ReportedDetection>,
) -> Seq<char> {
    let id = decimal_digits(steamid64 as nat);
    let header = match name {
        Some(n) => if n.len() > 0 {
            id + " ("@ + n + ")"@
        } else {
            id
        },
        None => id,
    };
    header + " - "@ + decimal_digits(detections.len()) + " detection(s)\n"@ + detections_lines(
        detections,
    )
}

fn append_pair_lines(out: &mut String, pairs: &Vec<(String, String)>)
    ensures
        final(out)@ == old(out)@ + pair_lines(pairs@),
{
    let mut i: usize = 0;
    while i < pairs.len()
        invariant
            i <= pairs.len(),
            out@ == old(out)@ + pair_lines(pairs@.subrange(0, i as int)),
        decreases pairs.len() - i,
    {
        assert(pairs@.subrange(0, i + 1).drop_last() == pairs@.subrange(0, i as int));
        out.append("    ");
        out.append(pairs[i].0.as_str());
        out.append(": ");
        out.append(pairs[i].1.as_str());
        out.append("\n");
        i += 1;
    }
    assert(pairs@.subrange(0, pairs@.len() as int) == pairs@);
}

/// Renders the clipboard block for one player.
pub fn player_report(steamid64: u64, name: Option<&str>, detections: &Vec<ReportedDetection>) -> (r:
    String)
    requires
        detections@.len() <= u64::MAX,
    ensures
        r@ == player_report_spec(
            steamid64,
            match name {
                Some(n) => Some(n@),
                None => None,
            },
            detections@,
        ),
{
    let mut out = to_decimal(steamid64);
    match name {
        Some(n) => {
            if n.unicode_len() > 0 {
                out.append(" (");
                out.append(n);
                out.append(")");
            }
        },
        None => {},
    }
    out.append(" - ");
    let count = to_decimal(detections.len() as u64);
    out.append(count.as_str());
    out.append(" detection(s)\n");
    let ghost head = out@;
    let mut i: usize = 0;
    while i < detections.len()
        invariant
            i <= detections.len(),
            out@ == head + detections_lines(detections@.subrange(0, i as int)),
        decreases detections.len() - i,
    {
        assert(detections@.subrange(0, i + 1).drop_last() == detections@.subrange(0, i as int));
        let d = &detections[i];
        out.append("  tick ");
        let t = to_decimal(d.tick as u64);
        out.append(t.as_str());
        out.append("  ");
        out.append(d.algorithm.as_str());
        out.append("\n");
        append_pair_lines(&mut out, &d.pairs);
        i += 1;
    }
    assert(detections@.subrange(0, detections@.len() as int) == detections@);
    out
}

/// One flagged player in a report.
pub struct ReportedPlayer {
    pub steamid64: u64,
    pub name: Option<String>,
    pub detections: Vec<ReportedDetection>,
}

pub open spec fn players_blocks(ps: Seq<ReportedPlayer>) -> Seq<char>
    decreases ps.len(),
{
    if ps.len() == 0 {
        Seq::empty()
    } else {
        let p = ps.last();
        players_blocks(ps.drop_last()) + "\n"@ + player_report_spec(
            p.steamid64,
            match p.name {
                Some(n) => Some(n@),
                None => None,
            },
            p.detections@,
        )
    }
}

/// Everything the cheater window found, for the "Copy all" button.
pub open spec fn full_report_spec(demo_name: Seq<char>, players: Seq<ReportedPlayer>) -> Seq<char> {
    "Cheater detection - "@ + demo_name + "\n"@ + decimal_digits(players.len()) + " player(s) flagged\n"@
        + players_blocks(players)
}

/// Renders the report of every flagged player.
pub fn full_report(demo_name: &str, players: &Vec<ReportedPlayer>) -> (r: String)
    requires
        players@.len() <= u64::MAX,
        forall|i: int| 0 <= i < players@.len() ==> (#[trigger] players@[i]).detections@.len() <= u64::MAX,
    ensures
        r@ == full_report_spec(demo_name@, players@),
{
    let mut out = String::from_str("Cheater detection - ");
    out.append(demo_name);
    out.append("\n");
    let n = to_decimal(players.len() as u64);
    out.append(n.as_str());
    out.append(" player(s) flagged\n");
    let ghost head = out@;
    let mut i: usize = 0;
    while i < players.len()
        invariant
            i <= players.len(),
            out@ == head + players_blocks(players@.subrange(0, i as int)),
            forall|j: int| 0 <= j < players@.len() ==> (#[trigger] players@[j]).detections@.len() <= u64::MAX,
        decreases players.len() - i,
    {
        assert(players@.subrange(0, i + 1).drop_last() == players@.subrange(0, i as int));
        let p = &players[i];
        out.append("\n");
        let name = match &p.name {
            Some(s) => Some(s.as_str()),
            None => None,
        };
        let block = player_report(p.steamid64, name, &p.detections);
        out.append(block.as_str());
        i += 1;
    }
    assert(players@.subrange(0, players@.len() as int) == players@);
    out
}

/// The most detections a player's row lists; the report carries them all.
pub const MAX_DETECTION_ROWS: usize = 200;

/// The subtitle of a player's row: the number of detections, and, where
/// the row cannot list them all, that it shows the first ones.
pub open spec fn subtitle_spec(count: nat) -> Seq<char> {
    if count <= MAX_DETECTION_ROWS {
        decimal_digits(count) + " detection(s)"@
    } else {
        decimal_digits(count) + " detection(s) - showing the first "@ + decimal_digits(
            MAX_DETECTION_ROWS as nat,
        ) + ", use Copy detections for the rest"@
    }
}

/// Renders the subtitle of a player's row with `count` detections.
pub fn detections_subtitle(count: u64) -> (s: String)
    ensures
        s@ == subtitle_spec(count as nat),
{
    let mut s = to_decimal(count);
    if count <= 200 {
        s.append(" detection(s)");
    } else {
        s.append(" detection(s) - showing the first ");
        let m = to_decimal(200);
        s.append(m.as_str());
        s.append(", use Copy detections for the rest");
    }
    s
}

} // verus!
