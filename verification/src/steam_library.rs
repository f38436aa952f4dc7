//! Steam's list of library folders (`libraryfolders.vdf`): the folders it
//! names, in which the game is looked for.
use crate::steamid::find_char;
use crate::text::{chars_eq, chars_of, is_whitespace, skip_ws, string_of};
use vstd::prelude::*;

verus! {

/// The key that opens a library folder's path, with its quotes.
pub open spec fn path_key() -> Seq<char> {
    seq!['"', 'p', 'a', 't', 'h', '"']
}

/// The last quote of `t` in `from..end`, or `from - 1` where there is none.
pub open spec fn last_quote(t: Seq<char>, from: int, end: int) -> int
    decreases end - from,
{
    if end <= from {
        from - 1
    } else if t[end - 1] == '"' {
        end - 1
    } else {
        last_quote(t, from, end - 1)
    }
}

/// Where a path is given at `i`: the key, white space, a quote, then the
/// path up to the last quote of the line, at least one character long. The
/// path's start and end.
pub open spec fn path_at(t: Seq<char>, i: int) -> Option<(int, int)> {
    let k = i + path_key().len();
    let w = skip_ws(t, k);
    if 0 <= i && k <= t.len() && t.subrange(i, k) == path_key() && w > k && w < t.len() && t[w]
        == '"' {
        let start = w + 1;
        let q = last_quote(t, start + 1, find_char(t, '\n', start));
        if q >= start + 1 {
            Some((start, q))
        } else {
            None
        }
    } else {
        None
    }
}

/// The paths given in `t` from `from` on, each search going on after the
/// closing quote of the path before.
pub open spec fn paths_from(t: Seq<char>, from: int) -> Seq<Seq<char>>
    decreases t.len() - from,
{
    if from < 0 || from >= t.len() {
        Seq::empty()
    } else {
        match path_at(t, from) {
            Some((s, e)) => if s <= e && e < t.len() && from < e {
                seq![t.subrange(s, e)] + paths_from(t, e + 1)
            } else {
                Seq::empty()
            },
            None => paths_from(t, from + 1),
        }
    }
}

/// `s` with each doubled backslash, from the left, made single.
pub open spec fn unescape(s: Seq<char>) -> Seq<char>
    decreases s.len(),
{
    if s.len() >= 2 && s[0] == '\\' && s[1] == '\\' {
        seq!['\\'] + unescape(s.subrange(2, s.len() as int))
    } else if s.len() >= 1 {
        seq![s[0]] + unescape(s.subrange(1, s.len() as int))
    } else {
        s
    }
}

proof fn lemma_find_char_range(t: Seq<char>, c: char, from: int)
    requires
        0 <= from <= t.len(),
    ensures
        from <= find_char(t, c, from) <= t.len(),
        forall|i: int| from <= i < find_char(t, c, from) ==> t[i] != c,
    decreases t.len() - from,
{
    if from < t.len() && t[from] != c {
        lemma_find_char_range(t, c, from + 1);
    }
}

proof fn lemma_last_quote_range(t: Seq<char>, from: int, end: int)
    requires
        0 <= from,
        end <= t.len(),
    ensures
        from - 1 <= last_quote(t, from, end) < if end > from { end } else { from },
        last_quote(t, from, end) >= from ==> t[last_quote(t, from, end)] == '"',
    decreases end - from,
{
    if end > from && t[end - 1] != '"' {
        lemma_last_quote_range(t, from, end - 1);
    }
}

/// Makes doubled backslashes single.
fn unescape_of(cs: &[char]) -> (r: Vec<char>)
    ensures
        r@ == unescape(cs@),
{
    let mut out: Vec<char> = Vec::new();
    let mut i: usize = 0;
    assert(cs@.subrange(0, cs@.len() as int) =~= cs@);
    assert(out@ + cs@ =~= cs@);
    while i < cs.len()
        invariant
            i <= cs@.len(),
            out@ + unescape(cs@.subrange(i as int, cs@.len() as int)) == unescape(cs@),
        decreases cs.len() - i,
    {
        let ghost rest = cs@.subrange(i as int, cs@.len() as int);
        if cs.len() - i >= 2 && cs[i] == '\\' && cs[i + 1] == '\\' {
            assert(rest.subrange(2, rest.len() as int) =~= cs@.subrange(i + 2, cs@.len() as int));
            out.push('\\');
            i += 2;
        } else {
            assert(rest.subrange(1, rest.len() as int) =~= cs@.subrange(i + 1, cs@.len() as int));
            out.push(cs[i]);
            i += 1;
        }
    }
    assert(cs@.subrange(cs@.len() as int, cs@.len() as int) =~= Seq::<char>::empty());
    out
}

/// The library folder paths that Steam's `libraryfolders.vdf` text gives,
/// in order: each `"path"` key followed by white space and a quoted path
/// that ends at the last quote of its line, with doubled backslashes made
/// single.
pub fn library_folders(vdf: &str) -> (r: Vec<String>)
    ensures
        r@.map_values(|s: String| s@) == paths_from(vdf@, 0).map_values(|p: Seq<char>| unescape(p)),
{
    let cs = chars_of(vdf);
    let key: Vec<char> = vec!['"', 'p', 'a', 't', 'h', '"'];
    assert(key@ =~= path_key());
    let n = cs.len();
    let mut out: Vec<String> = Vec::new();
    let mut from: usize = 0;
    while from < n
        invariant
            from <= n,
            n == cs@.len(),
            cs@ == vdf@,
            key@ == path_key(),
            out@.map_values(|s: String| s@) + paths_from(cs@, from as int).map_values(
                |p: Seq<char>| unescape(p),
            ) == paths_from(cs@, 0).map_values(|p: Seq<char>| unescape(p)),
        decreases n - from,
    {
        let ghost t = cs@;
        let mut found: Option<(usize, usize)> = None;
        if n - from >= 6 {
            let (_, tail) = cs.as_slice().split_at(from);
            let (window, _) = tail.split_at(6);
            assert(window@ == t.subrange(from as int, from + 6));
            if chars_eq(window, key.as_slice()) {
                let k = from + 6;
                let mut w = k;
                while w < n && is_whitespace(cs[w])
                    invariant
                        k <= w <= n,
                        n == cs@.len(),
                        skip_ws(cs@, w as int) == skip_ws(cs@, k as int),
                    decreases n - w,
                {
                    w += 1;
                }
                if w > k && w < n && cs[w] == '"' {
                    let start = w + 1;
                    let mut le = start;
                    while le < n && cs[le] != '\n'
                        invariant
                            start <= le <= n,
                            n == cs@.len(),
                            find_char(cs@, '\n', le as int) == find_char(cs@, '\n', start as int),
                        decreases n - le,
                    {
                        le += 1;
                    }
                    let mut j = le;
                    while j - start > 1 && cs[j - 1] != '"'
                        invariant
                            start <= j <= le <= n,
                            n == cs@.len(),
                            last_quote(cs@, start + 1, j as int) == last_quote(
                                cs@,
                                start + 1,
                                le as int,
                            ),
                        decreases j,
                    {
                        j -= 1;
                    }
                    if j - start > 1 {
                        found = Some((start, j - 1));
                    }
                }
            }
        }
        match found {
            Some((s, e)) => {
                proof {
                    lemma_find_char_range(t, '\n', s as int);
                    lemma_last_quote_range(t, s + 1, find_char(t, '\n', s as int));
                    assert(path_at(t, from as int) == Some((s as int, e as int)));
                }
                let (_, rest) = cs.as_slice().split_at(s);
                let (path, _) = rest.split_at(e - s);
                assert(path@ =~= t.subrange(s as int, e as int));
                let p = unescape_of(path);
                let ghost before = out@;
                out.push(string_of(p.as_slice()));
                proof {
                    let f = |x: String| x@;
                    let g = |q: Seq<char>| unescape(q);
                    assert(out@.map_values(f) =~= before.map_values(f).push(unescape(path@)));
                    let tail = paths_from(t, e + 1);
                    assert(paths_from(t, from as int) == seq![t.subrange(s as int, e as int)] + tail);
                    assert((seq![t.subrange(s as int, e as int)] + tail).map_values(g) =~= seq![
                        unescape(path@),
                    ] + tail.map_values(g));
                    assert(before.map_values(f).push(unescape(path@)) + tail.map_values(g)
                        =~= before.map_values(f) + (seq![unescape(path@)] + tail.map_values(g)));
                }
                from = e + 1;
            },
            None => {
                proof {
                    if path_at(t, from as int) is Some {
                        lemma_find_char_range(t, '\n', (skip_ws(t, from + 6) + 1) as int);
                        assert(false);
                    }
                }
                from += 1;
            },
        }
    }
    assert(paths_from(cs@, n as int) =~= Seq::<Seq<char>>::empty());
    assert(out@.map_values(|s: String| s@) + Seq::<Seq<char>>::empty() =~= out@.map_values(
        |s: String| s@,
    ));
    out
}

} // verus!
