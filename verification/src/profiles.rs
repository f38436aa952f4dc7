//! Detection profiles: naming them, and reading a pasted or saved
//! configuration out of the text around it.
use crate::steamid::find_char;
use crate::text::{
    chars_le, chars_of, is_whitespace, is_ws, lemma_seq_le_total, lemma_seq_le_transitive, seq_le,
    string_of,
};
use vstd::prelude::*;

verus! {

/// A class of characters that trimming removes.
#[derive(Clone, Copy, Debug, PartialEq, Eq, Structural)]
pub enum Trim {
    /// White space in Unicode's sense.
    Space,
    /// One given character.
    Char(char),
}

pub open spec fn trims(k: Trim, c: char) -> bool {
    match k {
        Trim::Space => is_ws(c),
        Trim::Char(t) => c == t,
    }
}

/// `s` without its leading characters of class `k`.
pub open spec fn trim_start_by(s: Seq<char>, k: Trim) -> Seq<char>
    decreases s.len(),
{
    if s.len() > 0 && trims(k, s[0]) {
        trim_start_by(s.drop_first(), k)
    } else {
        s
    }
}

/// `s` without its trailing characters of class `k`.
pub open spec fn trim_end_by(s: Seq<char>, k: Trim) -> Seq<char>
    decreases s.len(),
{
    if s.len() > 0 && trims(k, s.last()) {
        trim_end_by(s.drop_last(), k)
    } else {
        s
    }
}

/// `s` without its leading and trailing characters of class `k`.
pub open spec fn trim_by(s: Seq<char>, k: Trim) -> Seq<char> {
    trim_end_by(trim_start_by(s, k), k)
}

fn matches_class(k: Trim, c: char) -> (b: bool)
    ensures
        b == trims(k, c),
{
    match k {
        Trim::Space => is_whitespace(c),
        Trim::Char(t) => c == t,
    }
}

/// Narrows `cs[lo..hi]` to what trimming class `k` from it leaves.
fn trim_range(cs: &Vec<char>, lo: usize, hi: usize, k: Trim) -> (r: (usize, usize))
    requires
        lo <= hi <= cs@.len(),
    ensures
        lo <= r.0 <= r.1 <= hi,
        cs@.subrange(r.0 as int, r.1 as int) == trim_by(cs@.subrange(lo as int, hi as int), k),
{
    let ghost t = cs@.subrange(lo as int, hi as int);
    let mut a = lo;
    while a < hi && matches_class(k, cs[a])
        invariant
            lo <= a <= hi <= cs@.len(),
            t == cs@.subrange(lo as int, hi as int),
            trim_start_by(cs@.subrange(a as int, hi as int), k) == trim_start_by(t, k),
        decreases hi - a,
    {
        assert(cs@.subrange(a as int, hi as int).drop_first() == cs@.subrange(a + 1, hi as int));
        a += 1;
    }
    let ghost u = cs@.subrange(a as int, hi as int);
    assert(trim_start_by(u, k) == u);
    let mut b = hi;
    assert(cs@.subrange(a as int, b as int) == u);
    while b > a && matches_class(k, cs[b - 1])
        invariant
            lo <= a <= b <= hi <= cs@.len(),
            u == cs@.subrange(a as int, hi as int),
            trim_end_by(cs@.subrange(a as int, b as int), k) == trim_end_by(u, k),
        decreases b,
    {
        assert(cs@.subrange(a as int, b as int).drop_last() == cs@.subrange(a as int, b - 1));
        b -= 1;
    }
    let ghost w = cs@.subrange(a as int, b as int);
    assert(trim_end_by(w, k) == w);
    (a, b)
}

/// What trimming white space from `name` leaves.
pub open spec fn trimmed(s: Seq<char>) -> Seq<char> {
    trim_by(s, Trim::Space)
}

/// `s` without its leading and trailing white space, as `str::trim` leaves it.
pub fn trim_whitespace(s: &str) -> (r: String)
    ensures
        r@ == trimmed(s@),
{
    let cs = chars_of(s);
    assert(cs@.subrange(0, cs@.len() as int) == cs@);
    let (lo, hi) = trim_range(&cs, 0, cs.len(), Trim::Space);
    let (_, kept) = cs.as_slice().split_at(lo);
    let (kept, _) = kept.split_at(hi - lo);
    assert(kept@ == cs@.subrange(lo as int, hi as int));
    string_of(kept)
}

/// Whether `s` holds two dots in a row.
pub open spec fn has_double_dot(s: Seq<char>) -> bool {
    exists|i: int| 0 <= i < s.len() - 1 && #[trigger] s[i] == '.' && s[i + 1] == '.'
}

/// Why a profile name was refused.
#[derive(Clone, Copy, Debug, PartialEq, Eq, Structural)]
pub enum ProfileNameError {
    /// Nothing but white space.
    Empty,
    /// A path separator or `..`, which could reach outside the profile folder.
    InvalidCharacters,
}

/// The profile name `name` stands for, or why it cannot be one.
pub open spec fn sanitized(name: Seq<char>) -> Result<Seq<char>, ProfileNameError> {
    let t = trimmed(name);
    if t.len() == 0 {
        Err(ProfileNameError::Empty)
    } else if t.contains('/') || t.contains('\\') || has_double_dot(t) {
        Err(ProfileNameError::InvalidCharacters)
    } else {
        Ok(t)
    }
}

/// Checks a profile name: trimmed, non-empty, and free of path separators
/// and `..`.
pub fn sanitize_name(name: &str) -> (r: Result<String, ProfileNameError>)
    ensures
        match sanitized(name@) {
            Ok(t) => r matches Ok(s) && s@ == t,
            Err(e) => r == Err::<String, ProfileNameError>(e),
        },
{
    let cs = chars_of(name);
    assert(cs@.subrange(0, cs@.len() as int) == cs@);
    let (lo, hi) = trim_range(&cs, 0, cs.len(), Trim::Space);
    let ghost t = cs@.subrange(lo as int, hi as int);
    if lo == hi {
        return Err(ProfileNameError::Empty);
    }
    let mut i = lo;
    while i < hi
        invariant
            lo <= i <= hi <= cs@.len(),
            t == cs@.subrange(lo as int, hi as int),
            t == trimmed(name@),
            t.len() > 0,
            forall|j: int| 0 <= j < i - lo ==> t[j] != '/' && t[j] != '\\',
            forall|j: int| 0 <= j < i - lo && j + 1 < t.len() ==> !(#[trigger] t[j] == '.' && t[j + 1]
                == '.'),
        decreases hi - i,
    {
        let c = cs[i];
        assert(t[i - lo] == c);
        if c == '/' || c == '\\' {
            assert(t.contains(c));
            return Err(ProfileNameError::InvalidCharacters);
        }
        if c == '.' && i + 1 < hi && cs[i + 1] == '.' {
            assert(t[i + 1 - lo] == '.');
            assert(has_double_dot(t));
            return Err(ProfileNameError::InvalidCharacters);
        }
        i += 1;
    }
    assert(!t.contains('/'));
    assert(!t.contains('\\'));
    assert(!has_double_dot(t));
    let (_, kept) = cs.as_slice().split_at(lo);
    let (kept, _) = kept.split_at(hi - lo);
    assert(kept@ == t);
    Ok(string_of(kept))
}

/// The index of the last `c` in `s` before `end`, or `-1`.
pub open spec fn rfind_char(s: Seq<char>, c: char, end: int) -> int
    decreases end,
{
    if end <= 0 || end > s.len() {
        -1
    } else if s[end - 1] == c {
        end - 1
    } else {
        rfind_char(s, c, end - 1)
    }
}

pub open spec fn json_word() -> Seq<char> {
    seq!['j', 's', 'o', 'n']
}

/// The text after a leading `json` language tag.
pub open spec fn after_json_tag(a: Seq<char>) -> Seq<char> {
    if a.len() >= 4 && a.subrange(0, 4) == json_word() {
        a.subrange(4, a.len() as int)
    } else {
        a
    }
}

/// The outermost braces of `e`, braces included, or all of `e` when it has none.
pub open spec fn outer_braces(e: Seq<char>) -> Seq<char> {
    let start = find_char(e, '{', 0);
    let end = rfind_char(e, '}', e.len() as int);
    if start < e.len() && end >= 0 && end > start {
        e.subrange(start, end + 1)
    } else {
        e
    }
}

/// The text of a pasted configuration: white space, the backticks of a
/// markdown fence and a `json` language tag are dropped, and then anything
/// outside the outermost braces.
pub open spec fn strip_fences_spec(text: Seq<char>) -> Seq<char> {
    let a = trim_by(trim_by(trim_by(text, Trim::Space), Trim::Char('`')), Trim::Space);
    outer_braces(trim_by(after_json_tag(a), Trim::Space))
}

/// Skips a `json` language tag at the start of `cs[lo..hi]`.
fn skip_json_tag(cs: &Vec<char>, lo: usize, hi: usize) -> (r: usize)
    requires
        lo <= hi <= cs@.len(),
    ensures
        lo <= r <= hi,
        cs@.subrange(r as int, hi as int) == after_json_tag(cs@.subrange(lo as int, hi as int)),
{
    let ghost a = cs@.subrange(lo as int, hi as int);
    if hi - lo >= 4 && cs[lo] == 'j' && cs[lo + 1] == 's' && cs[lo + 2] == 'o' && cs[lo + 3] == 'n' {
        assert(a.subrange(0, 4) =~= json_word());
        assert(a.subrange(4, a.len() as int) == cs@.subrange(lo + 4, hi as int));
        lo + 4
    } else {
        assert(!(a.len() >= 4 && a.subrange(0, 4) == json_word())) by {
            if a.len() >= 4 && a.subrange(0, 4) == json_word() {
                assert(a.subrange(0, 4)[0] == 'j');
                assert(a.subrange(0, 4)[1] == 's');
                assert(a.subrange(0, 4)[2] == 'o');
                assert(a.subrange(0, 4)[3] == 'n');
            }
        }
        lo
    }
}

/// Narrows `cs[lo..hi]` to its outermost braces.
fn brace_range(cs: &Vec<char>, lo: usize, hi: usize) -> (r: (usize, usize))
    requires
        lo <= hi <= cs@.len(),
    ensures
        lo <= r.0 <= r.1 <= hi,
        cs@.subrange(r.0 as int, r.1 as int) == outer_braces(cs@.subrange(lo as int, hi as int)),
{
    let ghost e = cs@.subrange(lo as int, hi as int);
    let mut start = lo;
    while start < hi && cs[start] != '{'
        invariant
            lo <= start <= hi <= cs@.len(),
            e == cs@.subrange(lo as int, hi as int),
            find_char(e, '{', start - lo) == find_char(e, '{', 0),
        decreases hi - start,
    {
        assert(e[start - lo] == cs@[start as int]);
        start += 1;
    }
    if start < hi {
        assert(e[start - lo] == cs@[start as int]);
    }
    let mut end = hi;
    while end > lo && cs[end - 1] != '}'
        invariant
            lo <= end <= hi <= cs@.len(),
            e == cs@.subrange(lo as int, hi as int),
            rfind_char(e, '}', end - lo) == rfind_char(e, '}', e.len() as int),
        decreases end,
    {
        assert(e[end - 1 - lo] == cs@[end - 1]);
        end -= 1;
    }
    if end > lo {
        assert(e[end - 1 - lo] == cs@[end - 1]);
    }
    if start < hi && end > lo && end - 1 > start {
        assert(e.subrange(start - lo, end - lo) == cs@.subrange(start as int, end as int));
        (start, end)
    } else {
        (lo, hi)
    }
}

/// Drops the fences and anything outside the outermost JSON object from a
/// pasted configuration.
pub fn strip_fences(text: &str) -> (r: String)
    ensures
        r@ == strip_fences_spec(text@),
{
    let cs = chars_of(text);
    assert(cs@.subrange(0, cs@.len() as int) == cs@);
    let (lo, hi) = trim_range(&cs, 0, cs.len(), Trim::Space);
    let (lo, hi) = trim_range(&cs, lo, hi, Trim::Char('`'));
    let (lo, hi) = trim_range(&cs, lo, hi, Trim::Space);
    let lo = skip_json_tag(&cs, lo, hi);
    let (lo, hi) = trim_range(&cs, lo, hi, Trim::Space);
    let (from, to) = brace_range(&cs, lo, hi);
    let (_, kept) = cs.as_slice().split_at(from);
    let (kept, _) = kept.split_at(to - from);
    assert(kept@ == cs@.subrange(from as int, to as int));
    string_of(kept)
}

/// The file a profile called `name` is saved in, inside the profile folder.
pub fn profile_file_name(name: &str) -> (f: String)
    ensures
        f@ == name@ + seq!['.', 'c', 'f', 'g'],
{
    let mut f = String::from_str(name);
    let ext = ".cfg";
    proof {
        reveal_strlit(".cfg");
    }
    f.append(ext);
    f
}

/// `name` joined onto the folder `dir` as a path joins: a name that is
/// itself absolute (begins with `/`) stands alone, an empty folder adds
/// nothing, and a `/` goes between the two unless the folder ends with one.
pub open spec fn join_path_spec(dir: Seq<char>, name: Seq<char>) -> Seq<char> {
    if name.len() > 0 && name[0] == '/' {
        name
    } else if dir.len() == 0 {
        name
    } else if dir.last() == '/' {
        dir + name
    } else {
        dir + seq!['/'] + name
    }
}

/// Joins `name` onto the folder `dir`.
pub fn join_path(dir: &str, name: &str) -> (r: String)
    ensures
        r@ == join_path_spec(dir@, name@),
{
    let n = name.unicode_len();
    if n > 0 && name.get_char(0) == '/' {
        return String::from_str(name);
    }
    let d = dir.unicode_len();
    if d == 0 {
        return String::from_str(name);
    }
    let mut r = String::from_str(dir);
    if dir.get_char(d - 1) != '/' {
        r.append("/");
        proof {
            reveal_strlit("/");
        }
    }
    r.append(name);
    r
}

/// Where one of the app's own files is: the copy in the working folder where
/// one exists (so that an older install keeps its files), else the one in
/// the folder of the app's executable.
pub fn app_file(name: &str, exists_in_working_dir: bool, app_dir: &str) -> (r: String)
    ensures
        r@ == if exists_in_working_dir {
            name@
        } else {
            join_path_spec(app_dir@, name@)
        },
{
    if exists_in_working_dir {
        String::from_str(name)
    } else {
        join_path(app_dir, name)
    }
}

/// The folder the detection profiles live in, found as the app's other
/// files are.
pub fn profiles_dir(exists_in_working_dir: bool, app_dir: &str) -> (r: String)
    ensures
        r@ == if exists_in_working_dir {
            "cdconfigs"@
        } else {
            join_path_spec(app_dir@, "cdconfigs"@)
        },
{
    app_file("cdconfigs", exists_in_working_dir, app_dir)
}

/// The file of the profile called `name` in the profile folder `dir`.
pub fn profile_path(dir: &str, name: &str) -> (r: String)
    ensures
        r@ == join_path_spec(dir@, name@ + seq!['.', 'c', 'f', 'g']),
{
    let f = profile_file_name(name);
    join_path(dir, f.as_str())
}

/// The profile a file in the profile folder holds: the file's stem where its
/// extension is `cfg` (the text after its last dot, a dot that does not open
/// the name).
pub open spec fn profile_name_of(file: Seq<char>) -> Option<Seq<char>> {
    let d = rfind_char(file, '.', file.len() as int);
    if d > 0 && file.subrange(d + 1, file.len() as int) == seq!['c', 'f', 'g'] {
        Some(file.subrange(0, d))
    } else {
        None
    }
}

/// The profile names among the files `files`, in order.
pub open spec fn profile_names_of(files: Seq<String>) -> Seq<Seq<char>>
    decreases files.len(),
{
    if files.len() == 0 {
        Seq::empty()
    } else {
        let rest = profile_names_of(files.drop_last());
        match profile_name_of(files.last()@) {
            Some(n) => rest.push(n),
            None => rest,
        }
    }
}

/// Whether names are in sorted order.
pub open spec fn sorted_names(s: Seq<Seq<char>>) -> bool {
    forall|i: int, j: int| 0 <= i < j < s.len() ==> seq_le(s[i], s[j])
}

fn profile_name_exec(file: &str) -> (r: Option<Vec<char>>)
    ensures
        match profile_name_of(file@) {
            Some(n) => r matches Some(v) && v@ == n,
            None => r is None,
        },
{
    let cs = chars_of(file);
    let mut d = cs.len();
    while d > 0 && cs[d - 1] != '.'
        invariant
            d <= cs@.len(),
            cs@ == file@,
            rfind_char(cs@, '.', d as int) == rfind_char(cs@, '.', cs@.len() as int),
        decreases d,
    {
        d -= 1;
    }
    if d <= 1 {
        return None;
    }
    let dot = d - 1;
    assert(rfind_char(cs@, '.', cs@.len() as int) == dot);
    if cs.len() - d == 3 && cs[d] == 'c' && cs[d + 1] == 'f' && cs[d + 2] == 'g' {
        assert(cs@.subrange(d as int, cs@.len() as int) =~= seq!['c', 'f', 'g']);
        let (stem, _) = cs.as_slice().split_at(dot);
        let mut v: Vec<char> = Vec::new();
        let mut i: usize = 0;
        while i < stem.len()
            invariant
                i <= stem@.len(),
                v@ == stem@.subrange(0, i as int),
            decreases stem.len() - i,
        {
            v.push(stem[i]);
            i += 1;
        }
        assert(stem@.subrange(0, stem@.len() as int) == stem@);
        Some(v)
    } else {
        proof {
            let t = cs@.subrange(d as int, cs@.len() as int);
            let e = seq!['c', 'f', 'g'];
            if t == e {
                assert(e.len() == 3);
                assert(t.len() == 3);
                assert(t[0] == cs@[d as int] && t[1] == cs@[d + 1] && t[2] == cs@[d + 2]);
                assert(e[0] == 'c' && e[1] == 'f' && e[2] == 'g');
            }
        }
        None
    }
}

/// The names of the profiles among the files of the profile folder, sorted:
/// each `.cfg` file's stem.
pub fn profile_names(files: &Vec<String>) -> (r: Vec<String>)
    ensures
        sorted_names(r@.map_values(|s: String| s@)),
        r@.map_values(|s: String| s@).to_multiset() == profile_names_of(files@).to_multiset(),
{
    let mut names: Vec<Vec<char>> = Vec::new();
    let mut i: usize = 0;
    assert(names@.map_values(|v: Vec<char>| v@) =~= Seq::<Seq<char>>::empty());
    assert(files@.subrange(0, 0) =~= Seq::<String>::empty());
    while i < files.len()
        invariant
            i <= files@.len(),
            sorted_names(names@.map_values(|v: Vec<char>| v@)),
            names@.map_values(|v: Vec<char>| v@).to_multiset() == profile_names_of(
                files@.subrange(0, i as int),
            ).to_multiset(),
        decreases files.len() - i,
    {
        assert(files@.subrange(0, i + 1).drop_last() == files@.subrange(0, i as int));
        match profile_name_exec(files[i].as_str()) {
            Some(n) => {
                let ghost before = names@.map_values(|v: Vec<char>| v@);
                let mut p: usize = 0;
                while p < names.len() && chars_le(&names[p], &n)
                    invariant
                        p <= names@.len(),
                        before == names@.map_values(|v: Vec<char>| v@),
                        forall|k: int| 0 <= k < p ==> seq_le(#[trigger] before[k], n@),
                    decreases names.len() - p,
                {
                    p += 1;
                }
                let ghost nv = n@;
                names.insert(p, n);
                let ghost after = names@.map_values(|v: Vec<char>| v@);
                assert(after =~= before.insert(p as int, nv));
                proof {
                    broadcast use vstd::seq_lib::to_multiset_insert;
                    broadcast use vstd::seq_lib::to_multiset_build;
                    assert forall|a: int, b: int| 0 <= a < b < after.len() implies seq_le(after[a], after[b]) by {
                        if b < p {
                        } else if b == p {
                            assert(seq_le(before[a], nv));
                        } else if a < p {
                            assert(after[b] == before[b - 1]);
                            if p < before.len() {
                                assert(!seq_le(before[p as int], nv));
                                lemma_seq_le_total(before[p as int], nv);
                                if b - 1 > p {
                                    assert(seq_le(before[p as int], before[b - 1]));
                                    lemma_seq_le_transitive(nv, before[p as int], before[b - 1]);
                                }
                                lemma_seq_le_transitive(before[a], nv, after[b]);
                            }
                        } else if a == p {
                            assert(after[b] == before[b - 1]);
                            lemma_seq_le_total(before[p as int], nv);
                            if b - 1 > p {
                                assert(seq_le(before[p as int], before[b - 1]));
                                lemma_seq_le_transitive(nv, before[p as int], before[b - 1]);
                            }
                        } else {
                            assert(after[a] == before[a - 1]);
                            assert(after[b] == before[b - 1]);
                        }
                    }
                    assert(after.to_multiset() =~= before.to_multiset().insert(nv));
                    assert(profile_names_of(files@.subrange(0, i + 1)) == profile_names_of(
                        files@.subrange(0, i as int),
                    ).push(nv));
                }
            },
            None => {},
        }
        i += 1;
    }
    assert(files@.subrange(0, files@.len() as int) == files@);
    let mut out: Vec<String> = Vec::new();
    let mut j: usize = 0;
    while j < names.len()
        invariant
            j <= names@.len(),
            out@.map_values(|s: String| s@) == names@.map_values(|v: Vec<char>| v@).subrange(0, j as int),
        decreases names.len() - j,
    {
        let ghost before = out@;
        let t = string_of(names[j].as_slice());
        assert(t@ == names@[j as int]@);
        out.push(t);
        assert(out@ == before.push(t));
        let ghost nm = names@.map_values(|v: Vec<char>| v@);
        assert(nm[j as int] == names@[j as int]@);
        assert(out@.map_values(|s: String| s@) =~= before.map_values(|s: String| s@).push(t@));
        assert(out@.map_values(|s: String| s@) =~= names@.map_values(|v: Vec<char>| v@).subrange(
            0,
            j + 1,
        ));
        j += 1;
    }
    assert(names@.map_values(|v: Vec<char>| v@).subrange(0, names@.len() as int) == names@.map_values(
        |v: Vec<char>| v@,
    ));
    out
}

} // verus!
