//! The readable text of a detection's payload: each value rendered, and the
//! payload's fields as name/value pairs.
use crate::decimal::{decimal_digits, to_decimal};
use crate::report::{clean_key, clean_key_spec};
use crate::steamid::trim_end_char;
use crate::text::{chars_of, string_of};
use vstd::prelude::*;

verus! {

/// A value of a detection's payload.
pub enum DetailValue {
    Null,
    Bool(bool),
    /// A whole number that fits in 64 signed bits.
    Int(i64),
    /// A larger whole number.
    UInt(u64),
    /// Any other number, already written out.
    Float(String),
    Text(String),
    List(Vec<DetailValue>),
    /// Named fields, in the payload's order.
    Fields(Vec<(String, DetailValue)>),
}

/// A signed number in decimal.
pub open spec fn int_text(i: i64) -> Seq<char> {
    if i < 0 {
        seq!['-'] + decimal_digits((-i) as nat)
    } else {
        decimal_digits(i as nat)
    }
}

/// The readable text of a value: `-` for nothing, `yes`/`no`, numbers as
/// they are, texts as they are, lists in brackets and fields as
/// `name: value`, each separated by `, `.
pub open spec fn render(v: DetailValue) -> Seq<char>
    decreases v,
{
    match v {
        DetailValue::Null => seq!['-'],
        DetailValue::Bool(b) => if b {
            seq!['y', 'e', 's']
        } else {
            seq!['n', 'o']
        },
        DetailValue::Int(i) => int_text(i),
        DetailValue::UInt(u) => decimal_digits(u as nat),
        DetailValue::Float(s) => s@,
        DetailValue::Text(s) => s@,
        DetailValue::List(items) => seq!['['] + render_list(items@) + seq![']'],
        DetailValue::Fields(fs) => render_fields(fs@),
    }
}

/// The values' texts joined by `, `.
pub open spec fn render_list(items: Seq<DetailValue>) -> Seq<char>
    decreases items,
{
    if items.len() == 0 {
        Seq::empty()
    } else if items.len() == 1 {
        render(items[0])
    } else {
        render_list(items.drop_last()) + seq![',', ' '] + render(items.last())
    }
}

/// The fields' `name: value` texts joined by `, `, the names without their
/// ordering padding.
pub open spec fn render_fields(fs: Seq<(String, DetailValue)>) -> Seq<char>
    decreases fs,
{
    if fs.len() == 0 {
        Seq::empty()
    } else if fs.len() == 1 {
        clean_key_spec(fs[0].0@) + seq![':', ' '] + render(fs[0].1)
    } else {
        render_fields(fs.drop_last()) + seq![',', ' '] + clean_key_spec(fs.last().0@) + seq![':', ' ']
            + render(fs.last().1)
    }
}

/// Writes a signed number in decimal.
fn int_to_text(i: i64) -> (s: String)
    ensures
        s@ == int_text(i),
{
    if i < 0 {
        let m: u64 = ((-(i + 1)) as u64) + 1;
        let digits = to_decimal(m);
        let mut s = String::from_str("-");
        proof {
            reveal_strlit("-");
        }
        s.append(digits.as_str());
        assert(s@ =~= seq!['-'] + decimal_digits((-i) as nat));
        s
    } else {
        to_decimal(i as u64)
    }
}

/// The readable text of a payload value.
pub fn format_value(v: &DetailValue) -> (s: String)
    ensures
        s@ == render(*v),
    decreases v,
{
    match v {
        DetailValue::Null => {
            proof {
                reveal_strlit("-");
            }
            String::from_str("-")
        },
        DetailValue::Bool(b) => {
            proof {
                reveal_strlit("yes");
                reveal_strlit("no");
            }
            if *b {
                String::from_str("yes")
            } else {
                String::from_str("no")
            }
        },
        DetailValue::Int(i) => int_to_text(*i),
        DetailValue::UInt(u) => to_decimal(*u),
        DetailValue::Float(t) => t.clone(),
        DetailValue::Text(t) => t.clone(),
        DetailValue::List(items) => {
            let mut out = String::from_str("[");
            proof {
                reveal_strlit("[");
                reveal_strlit(", ");
                reveal_strlit("]");
            }
            let mut i: usize = 0;
            while i < items.len()
                invariant
                    i <= items@.len(),
                    *v == DetailValue::List(*items),
                    out@ == seq!['['] + render_list(items@.subrange(0, i as int)),
                decreases items.len() - i,
            {
                let ghost sub = items@.subrange(0, i + 1);
                assert(sub.drop_last() =~= items@.subrange(0, i as int));
                assert(sub.last() == items@[i as int]);
                proof {
                    reveal_strlit(", ");
                    assert(decreases_to!(*v => (*v)->List_0));
                    assert(decreases_to!(*items => items@));
                    assert(decreases_to!(items@ => items@[i as int]));
                }
                let part = format_value(&items[i]);
                let ghost before = out@;
                if i > 0 {
                    out.append(", ");
                }
                out.append(part.as_str());
                proof {
                    if i > 0 {
                        assert(render_list(sub) == render_list(sub.drop_last()) + seq![',', ' '] + render(
                            sub.last(),
                        ));
                        assert(out@ =~= before + seq![',', ' '] + part@);
                    } else {
                        assert(render_list(sub) == render(sub[0]));
                        assert(out@ =~= before + part@);
                    }
                    assert(out@ =~= seq!['['] + render_list(sub));
                }
                i += 1;
            }
            assert(items@.subrange(0, items@.len() as int) =~= items@);
            out.append("]");
            out
        },
        DetailValue::Fields(fs) => {
            let mut out = String::new();
            proof {
                reveal_strlit(", ");
                reveal_strlit(": ");
            }
            let mut i: usize = 0;
            while i < fs.len()
                invariant
                    i <= fs@.len(),
                    *v == DetailValue::Fields(*fs),
                    out@ == render_fields(fs@.subrange(0, i as int)),
                decreases fs.len() - i,
            {
                let ghost sub = fs@.subrange(0, i + 1);
                assert(sub.drop_last() =~= fs@.subrange(0, i as int));
                assert(sub.last() == fs@[i as int]);
                proof {
                    reveal_strlit(", ");
                    reveal_strlit(": ");
                    assert(decreases_to!(*v => (*v)->Fields_0));
                    assert(decreases_to!(*fs => fs@));
                    assert(decreases_to!(fs@ => fs@[i as int]));
                    assert(decreases_to!(fs@[i as int] => fs@[i as int].1));
                }
                let key = clean_key(fs[i].0.as_str());
                let part = format_value(&fs[i].1);
                let ghost before = out@;
                if i > 0 {
                    out.append(", ");
                }
                out.append(key.as_str());
                out.append(": ");
                out.append(part.as_str());
                proof {
                    if i > 0 {
                        assert(render_fields(sub) == render_fields(sub.drop_last()) + seq![',', ' ']
                            + clean_key_spec(sub.last().0@) + seq![':', ' '] + render(sub.last().1));
                        assert(out@ =~= before + seq![',', ' '] + key@ + seq![':', ' '] + part@);
                    } else {
                        assert(render_fields(sub) == clean_key_spec(sub[0].0@) + seq![':', ' '] + render(
                            sub[0].1,
                        ));
                        assert(out@ =~= before + key@ + seq![':', ' '] + part@);
                    }
                    assert(out@ =~= render_fields(sub));
                }
                i += 1;
            }
            assert(fs@.subrange(0, fs@.len() as int) =~= fs@);
            out
        },
    }
}

/// The field name / value pairs of a payload: a payload of fields gives
/// one pair per field, in order, the names without their padding; an empty
/// payload gives none; any other value is one pair named `value`.
pub open spec fn detail_pairs_spec(data: DetailValue) -> Seq<(Seq<char>, Seq<char>)> {
    match data {
        DetailValue::Fields(fs) => Seq::new(
            fs@.len(),
            |i: int| (clean_key_spec(fs@[i].0@), render(fs@[i].1)),
        ),
        DetailValue::Null => Seq::empty(),
        _ => seq![("value"@, render(data))],
    }
}

/// The pairs' texts.
pub open spec fn pair_views(pairs: Seq<(String, String)>) -> Seq<(Seq<char>, Seq<char>)> {
    pairs.map_values(|p: (String, String)| (p.0@, p.1@))
}

/// Field name / value pairs of a detection's payload.
pub fn detail_pairs(data: &DetailValue) -> (r: Vec<(String, String)>)
    ensures
        pair_views(r@) == detail_pairs_spec(*data),
{
    match data {
        DetailValue::Fields(fs) => {
            let mut out: Vec<(String, String)> = Vec::new();
            let mut i: usize = 0;
            while i < fs.len()
                invariant
                    i <= fs@.len(),
                    pair_views(out@) == Seq::new(
                        i as nat,
                        |k: int| (clean_key_spec(fs@[k].0@), render(fs@[k].1)),
                    ),
                decreases fs.len() - i,
            {
                let ghost before = out@;
                let key = clean_key(fs[i].0.as_str());
                let value = format_value(&fs[i].1);
                out.push((key, value));
                proof {
                    let nv = pair_views(out@);
                    let want = Seq::new((i + 1) as nat, |k: int| (clean_key_spec(fs@[k].0@), render(fs@[k].1)));
                    assert(out@ == before.push((key, value)));
                    assert(pair_views(before).len() == before.len());
                    assert(before.len() == i);
                    assert(nv.len() == i + 1);
                    assert forall|k: int| 0 <= k < i + 1 implies nv[k] == want[k] by {
                        if k < i {
                            assert(out@[k] == before[k]);
                            assert(pair_views(before)[k] == (clean_key_spec(fs@[k].0@), render(fs@[k].1)));
                        }
                    }
                    assert(nv =~= want);
                }
                i += 1;
            }
            out
        },
        DetailValue::Null => {
            let out: Vec<(String, String)> = Vec::new();
            assert(pair_views(out@) =~= Seq::empty());
            out
        },
        _ => {
            let mut out: Vec<(String, String)> = Vec::new();
            proof {
                reveal_strlit("value");
            }
            out.push((String::from_str("value"), format_value(data)));
            assert(pair_views(out@) =~= seq![("value"@, render(*data))]);
            out
        },
    }
}

/// A number written with four decimals, less its trailing zeros and then
/// its trailing point.
pub fn trim_fraction(text: &str) -> (r: String)
    ensures
        r@ == trim_end_char(trim_end_char(text@, '0'), '.'),
{
    let cs = chars_of(text);
    let mut n = cs.len();
    assert(cs@.subrange(0, n as int) =~= cs@);
    while n > 0 && cs[n - 1] == '0'
        invariant
            n <= cs@.len(),
            cs@ == text@,
            trim_end_char(cs@.subrange(0, n as int), '0') == trim_end_char(text@, '0'),
        decreases n,
    {
        assert(cs@.subrange(0, n as int).drop_last() =~= cs@.subrange(0, n - 1));
        n -= 1;
    }
    assert(trim_end_char(cs@.subrange(0, n as int), '0') == cs@.subrange(0, n as int));
    let ghost t = cs@.subrange(0, n as int);
    while n > 0 && cs[n - 1] == '.'
        invariant
            n <= t.len(),
            t.len() <= cs@.len(),
            t == trim_end_char(text@, '0'),
            t == cs@.subrange(0, t.len() as int),
            trim_end_char(cs@.subrange(0, n as int), '.') == trim_end_char(t, '.'),
        decreases n,
    {
        assert(cs@.subrange(0, n as int).drop_last() =~= cs@.subrange(0, n - 1));
        n -= 1;
    }
    assert(trim_end_char(cs@.subrange(0, n as int), '.') == cs@.subrange(0, n as int));
    let (head, _) = cs.as_slice().split_at(n);
    string_of(head)
}

} // verus!
