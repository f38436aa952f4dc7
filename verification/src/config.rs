//! Detector settings: the kinds of parameter values, and how a configuration
//! read from outside is checked against the parameters the detectors declare.
use crate::text::str_eq;
use vstd::prelude::*;

verus! {

/// The JSON shape a parameter is stored as. Two parameters with the same
/// kind can be swapped without changing how a reader sees them.
#[derive(Clone, Copy, Debug, PartialEq, Eq, Structural)]
pub enum ParameterKind {
    Float,
    Int,
    Bool,
}

/// Why a parameter cannot be read as asked.
#[derive(Clone, Copy, Debug, PartialEq, Eq, Structural)]
pub enum ParameterError {
    TypeMismatch,
}

/// The kind a value of kind `value` takes when reshaped like a parameter of
/// kind `template`: numbers of either kind become the template's number kind,
/// a bool stays a bool, and a bool and a number cannot be reconciled.
pub open spec fn coercion(value: ParameterKind, template: ParameterKind) -> Option<ParameterKind> {
    match (value, template) {
        (ParameterKind::Float, ParameterKind::Float) => Some(ParameterKind::Float),
        (ParameterKind::Int, ParameterKind::Float) => Some(ParameterKind::Float),
        (ParameterKind::Int, ParameterKind::Int) => Some(ParameterKind::Int),
        (ParameterKind::Float, ParameterKind::Int) => Some(ParameterKind::Int),
        (ParameterKind::Bool, ParameterKind::Bool) => Some(ParameterKind::Bool),
        _ => None,
    }
}

/// The kind a value takes when reshaped like `template`, if it can be.
pub fn coerced_kind(value: ParameterKind, template: ParameterKind) -> (r: Option<ParameterKind>)
    ensures
        r == coercion(value, template),
        r matches Some(k) ==> k == template,
{
    match (value, template) {
        (ParameterKind::Float, ParameterKind::Float) => Some(ParameterKind::Float),
        (ParameterKind::Int, ParameterKind::Float) => Some(ParameterKind::Float),
        (ParameterKind::Int, ParameterKind::Int) => Some(ParameterKind::Int),
        (ParameterKind::Float, ParameterKind::Int) => Some(ParameterKind::Int),
        (ParameterKind::Bool, ParameterKind::Bool) => Some(ParameterKind::Bool),
        _ => None,
    }
}

/// Reading a value of kind `value` as a `target`: numbers read as either
/// number kind, a bool only as a bool.
pub fn read_kind(value: ParameterKind, target: ParameterKind) -> (r: Result<ParameterKind, ParameterError>)
    ensures
        match coercion(value, target) {
            Some(k) => r == Ok::<ParameterKind, ParameterError>(k),
            None => r == Err::<ParameterKind, ParameterError>(ParameterError::TypeMismatch),
        },
{
    match coerced_kind(value, target) {
        Some(k) => Ok(k),
        None => Err(ParameterError::TypeMismatch),
    }
}

/// Reshaping is idempotent: a value reshaped like a template reshapes like
/// it again to the same kind, and a template's own kind always reshapes to
/// itself.
pub proof fn lemma_coercion_idempotent(value: ParameterKind, template: ParameterKind)
    ensures
        coercion(template, template) == Some(template),
        coercion(value, template) matches Some(k) ==> coercion(k, template) == Some(k),
{
}

/// A parameter a detector declares, with the kind of its default value.
pub struct DeclaredParam {
    pub algorithm: String,
    pub name: String,
    pub kind: ParameterKind,
}

/// One detector's part of a configuration read from outside: the values'
/// names and kinds, in order.
pub struct AlgorithmEntries {
    pub algorithm: String,
    pub params: Vec<(String, ParameterKind)>,
}

/// Whether some detector is called `alg`.
pub open spec fn algorithm_known(defaults: Seq<DeclaredParam>, alg: Seq<char>) -> bool {
    exists|i: int| 0 <= i < defaults.len() && (#[trigger] defaults[i]).algorithm@ == alg
}

/// The kind of the first declared parameter `name` of `alg`.
pub open spec fn declared_kind(defaults: Seq<DeclaredParam>, alg: Seq<char>, name: Seq<char>, from: int) -> Option<
    ParameterKind,
>
    decreases defaults.len() - from,
{
    if from < 0 || from >= defaults.len() {
        None
    } else if defaults[from].algorithm@ == alg && defaults[from].name@ == name {
        Some(defaults[from].kind)
    } else {
        declared_kind(defaults, alg, name, from + 1)
    }
}

pub open spec fn quoted(s: Seq<char>) -> Seq<char> {
    seq!['"'] + s + seq!['"']
}

pub open spec fn unknown_algorithm_note(alg: Seq<char>) -> Seq<char> {
    "unknown algorithm "@ + quoted(alg)
}

pub open spec fn unknown_parameter_note(alg: Seq<char>, name: Seq<char>) -> Seq<char> {
    "unknown parameter "@ + quoted(alg + seq!['/'] + name)
}

pub open spec fn wrong_type_note(alg: Seq<char>, name: Seq<char>) -> Seq<char> {
    quoted(alg + seq!['/'] + name) + " has the wrong type for this parameter"@
}

/// What checking one detector's values gives: the values kept (by index,
/// with the kind each takes) and the notes for those dropped, in order.
pub open spec fn check_params(
    defaults: Seq<DeclaredParam>,
    alg: Seq<char>,
    params: Seq<(String, ParameterKind)>,
) -> (Seq<(usize, ParameterKind)>, Seq<Seq<char>>)
    decreases params.len(),
{
    if params.len() == 0 {
        (Seq::empty(), Seq::empty())
    } else {
        let (kept, notes) = check_params(defaults, alg, params.drop_last());
        let i = (params.len() - 1) as usize;
        let (name, kind) = params.last();
        match declared_kind(defaults, alg, name@, 0) {
            None => (kept, notes.push(unknown_parameter_note(alg, name@))),
            Some(dk) => match coercion(kind, dk) {
                Some(c) => (kept.push((i, c)), notes),
                None => (kept, notes.push(wrong_type_note(alg, name@))),
            },
        }
    }
}

/// What checking a configuration gives: for each known detector with a value
/// kept, its index and the values kept; and a note for each unknown detector,
/// unknown parameter and value of the wrong type, in order.
pub open spec fn normalize_spec(defaults: Seq<DeclaredParam>, config: Seq<AlgorithmEntries>) -> (
    Seq<(usize, Seq<(usize, ParameterKind)>)>,
    Seq<Seq<char>>,
)
    decreases config.len(),
{
    if config.len() == 0 {
        (Seq::empty(), Seq::empty())
    } else {
        let (kept, notes) = normalize_spec(defaults, config.drop_last());
        let a = config.last();
        let i = (config.len() - 1) as usize;
        if !algorithm_known(defaults, a.algorithm@) {
            (kept, notes.push(unknown_algorithm_note(a.algorithm@)))
        } else {
            let (k, n) = check_params(defaults, a.algorithm@, a.params@);
            (
                if k.len() > 0 {
                    kept.push((i, k))
                } else {
                    kept
                },
                notes + n,
            )
        }
    }
}

fn algorithm_known_exec(defaults: &Vec<DeclaredParam>, alg: &str) -> (b: bool)
    ensures
        b == algorithm_known(defaults@, alg@),
{
    let mut i: usize = 0;
    while i < defaults.len()
        invariant
            i <= defaults@.len(),
            forall|k: int| 0 <= k < i ==> (#[trigger] defaults@[k]).algorithm@ != alg@,
        decreases defaults.len() - i,
    {
        if str_eq(defaults[i].algorithm.as_str(), alg) {
            return true;
        }
        i += 1;
    }
    false
}

fn declared_kind_exec(defaults: &Vec<DeclaredParam>, alg: &str, name: &str) -> (r: Option<ParameterKind>)
    ensures
        r == declared_kind(defaults@, alg@, name@, 0),
{
    let mut i: usize = 0;
    while i < defaults.len()
        invariant
            i <= defaults@.len(),
            declared_kind(defaults@, alg@, name@, i as int) == declared_kind(defaults@, alg@, name@, 0),
        decreases defaults.len() - i,
    {
        if str_eq(defaults[i].algorithm.as_str(), alg) && str_eq(defaults[i].name.as_str(), name) {
            return Some(defaults[i].kind);
        }
        i += 1;
    }
    None
}

fn quote_into(out: &mut String, s: &str)
    ensures
        final(out)@ == old(out)@ + quoted(s@),
{
    out.append("\"");
    out.append(s);
    out.append("\"");
    proof {
        reveal_strlit("\"");
    }
    assert(final(out)@ =~= old(out)@ + quoted(s@));
}

fn path_of(alg: &str, name: &str) -> (r: String)
    ensures
        r@ == alg@ + seq!['/'] + name@,
{
    let mut r = String::new();
    r.append(alg);
    r.append("/");
    r.append(name);
    proof {
        reveal_strlit("/");
    }
    assert(r@ =~= alg@ + seq!['/'] + name@);
    r
}

/// Checks a configuration read from outside against the parameters the
/// detectors declare: each value is reshaped to its parameter's kind, and
/// whatever matches no detector or parameter, or cannot be reshaped, is
/// dropped with a note saying so.
pub fn normalize_config(defaults: &Vec<DeclaredParam>, config: &Vec<AlgorithmEntries>) -> (r: (
    Vec<(usize, Vec<(usize, ParameterKind)>)>,
    Vec<String>,
))
    ensures
        r.0@.len() == normalize_spec(defaults@, config@).0.len(),
        forall|i: int|
            0 <= i < r.0@.len() ==> (#[trigger] r.0@[i]).0 == normalize_spec(defaults@, config@).0[i].0
                && r.0@[i].1@ == normalize_spec(defaults@, config@).0[i].1,
        r.1@.len() == normalize_spec(defaults@, config@).1.len(),
        forall|i: int|
            0 <= i < r.1@.len() ==> (#[trigger] r.1@[i])@ == normalize_spec(defaults@, config@).1[i],
{
    let mut kept: Vec<(usize, Vec<(usize, ParameterKind)>)> = Vec::new();
    let mut notes: Vec<String> = Vec::new();
    let mut a: usize = 0;
    while a < config.len()
        invariant
            a <= config@.len(),
            kept@.len() == normalize_spec(defaults@, config@.subrange(0, a as int)).0.len(),
            forall|i: int|
                0 <= i < kept@.len() ==> (#[trigger] kept@[i]).0 == normalize_spec(
                    defaults@,
                    config@.subrange(0, a as int),
                ).0[i].0 && kept@[i].1@ == normalize_spec(defaults@, config@.subrange(0, a as int)).0[i].1,
            notes@.len() == normalize_spec(defaults@, config@.subrange(0, a as int)).1.len(),
            forall|i: int|
                0 <= i < notes@.len() ==> (#[trigger] notes@[i])@ == normalize_spec(
                    defaults@,
                    config@.subrange(0, a as int),
                ).1[i],
        decreases config.len() - a,
    {
        assert(config@.subrange(0, a + 1).drop_last() == config@.subrange(0, a as int));
        let entry = &config[a];
        let alg = entry.algorithm.as_str();
        if !algorithm_known_exec(defaults, alg) {
            let mut note = String::new();
            note.append("unknown algorithm ");
            quote_into(&mut note, alg);
            notes.push(note);
        } else {
            let ghost notes_before = notes@.map_values(|s: String| s@);
            let mut k: Vec<(usize, ParameterKind)> = Vec::new();
            let mut p: usize = 0;
            let ghost start = notes@.len();
            while p < entry.params.len()
                invariant
                    p <= entry.params@.len(),
                    k@ == check_params(defaults@, alg@, entry.params@.subrange(0, p as int)).0,
                    notes@.len() == start + check_params(
                        defaults@,
                        alg@,
                        entry.params@.subrange(0, p as int),
                    ).1.len(),
                    forall|i: int| 0 <= i < start ==> (#[trigger] notes@[i])@ == notes_before[i],
                    notes_before.len() == start,
                    forall|i: int|
                        start <= i < notes@.len() ==> (#[trigger] notes@[i])@ == check_params(
                            defaults@,
                            alg@,
                            entry.params@.subrange(0, p as int),
                        ).1[i - start],
                decreases entry.params.len() - p,
            {
                assert(entry.params@.subrange(0, p + 1).drop_last() == entry.params@.subrange(
                    0,
                    p as int,
                ));
                let name = entry.params[p].0.as_str();
                let kind = entry.params[p].1;
                match declared_kind_exec(defaults, alg, name) {
                    None => {
                        let mut note = String::new();
                        note.append("unknown parameter ");
                        let path = path_of(alg, name);
                        quote_into(&mut note, path.as_str());
                        notes.push(note);
                    },
                    Some(dk) => match coerced_kind(kind, dk) {
                        Some(c) => k.push((p, c)),
                        None => {
                            let path = path_of(alg, name);
                            let mut note = String::new();
                            quote_into(&mut note, path.as_str());
                            note.append(" has the wrong type for this parameter");
                            notes.push(note);
                        },
                    },
                }
                p += 1;
            }
            assert(entry.params@.subrange(0, entry.params@.len() as int) == entry.params@);
            if k.len() > 0 {
                kept.push((a, k));
            }
        }
        a += 1;
    }
    assert(config@.subrange(0, config@.len() as int) == config@);
    (kept, notes)
}

/// The index of the first entry of `config` for detector `alg`, or `-1`.
pub open spec fn entry_of(config: Seq<AlgorithmEntries>, alg: Seq<char>, from: int) -> int
    decreases config.len() - from,
{
    if from < 0 || from >= config.len() {
        -1
    } else if config[from].algorithm@ == alg {
        from
    } else {
        entry_of(config, alg, from + 1)
    }
}

/// Among the first `n` values, the last one called `name` that reshapes like
/// a parameter of kind `kind`: its index and the kind it takes.
pub open spec fn last_override(params: Seq<(String, ParameterKind)>, name: Seq<char>, kind: ParameterKind, n: int) -> Option<
    (usize, ParameterKind),
>
    decreases n,
{
    if n <= 0 || n > params.len() {
        None
    } else if params[n - 1].0@ == name && coercion(params[n - 1].1, kind) is Some {
        Some(((n - 1) as usize, kind))
    } else {
        last_override(params, name, kind, n - 1)
    }
}

/// The value that stands for a declared parameter once `overrides` are laid
/// on top of the defaults: the override's entry and value index and the kind
/// it takes, or none where the default stands.
pub open spec fn override_spec(overrides: Seq<AlgorithmEntries>, d: DeclaredParam) -> Option<
    (usize, usize, ParameterKind),
> {
    let e = entry_of(overrides, d.algorithm@, 0);
    if e < 0 {
        None
    } else {
        match last_override(overrides[e].params@, d.name@, d.kind, overrides[e].params@.len() as int) {
            Some((i, k)) => Some((e as usize, i, k)),
            None => None,
        }
    }
}

fn override_for(overrides: &Vec<AlgorithmEntries>, d: &DeclaredParam) -> (r: Option<(usize, usize, ParameterKind)>)
    ensures
        r == override_spec(overrides@, *d),
{
    let mut e: usize = 0;
    while e < overrides.len() && !str_eq(overrides[e].algorithm.as_str(), d.algorithm.as_str())
        invariant
            e <= overrides@.len(),
            entry_of(overrides@, d.algorithm@, e as int) == entry_of(overrides@, d.algorithm@, 0),
        decreases overrides.len() - e,
    {
        e += 1;
    }
    if e == overrides.len() {
        return None;
    }
    assert(entry_of(overrides@, d.algorithm@, e as int) == e);
    let params = &overrides[e].params;
    let mut n = params.len();
    while n > 0
        invariant
            e < overrides@.len(),
            entry_of(overrides@, d.algorithm@, 0) == e,
            params@ == overrides@[e as int].params@,
            n <= params@.len(),
            last_override(params@, d.name@, d.kind, n as int) == last_override(
                params@,
                d.name@,
                d.kind,
                params@.len() as int,
            ),
        decreases n,
    {
        if str_eq(params[n - 1].0.as_str(), d.name.as_str()) && coerced_kind(params[n - 1].1, d.kind).is_some() {
            return Some((e, n - 1, d.kind));
        }
        n -= 1;
    }
    None
}

/// The declared parameters with `overrides` laid on top: for each declared
/// parameter, in order, the override that replaces its default (reshaped to
/// the parameter's kind), or none where the default stands.
pub fn effective_config(defaults: &Vec<DeclaredParam>, overrides: &Vec<AlgorithmEntries>) -> (r: Vec<
    Option<(usize, usize, ParameterKind)>,
>)
    ensures
        r@.len() == defaults@.len(),
        forall|i: int| 0 <= i < defaults@.len() ==> #[trigger] r@[i] == override_spec(overrides@, defaults@[i]),
{
    let mut r: Vec<Option<(usize, usize, ParameterKind)>> = Vec::new();
    let mut i: usize = 0;
    while i < defaults.len()
        invariant
            i <= defaults@.len(),
            r@.len() == i,
            forall|k: int| 0 <= k < i ==> #[trigger] r@[k] == override_spec(overrides@, defaults@[k]),
        decreases defaults.len() - i,
    {
        r.push(override_for(overrides, &defaults[i]));
        i += 1;
    }
    r
}

/// With nothing laid on top, every declared parameter keeps its default.
pub proof fn lemma_no_overrides_keep_defaults(d: DeclaredParam)
    ensures
        override_spec(Seq::<AlgorithmEntries>::empty(), d) is None,
{
}

/// A value laid on top for a declared parameter comes from that detector's
/// entry, is called like the parameter, and takes the parameter's kind.
pub proof fn lemma_override_matches(overrides: Seq<AlgorithmEntries>, d: DeclaredParam)
    requires
        overrides.len() <= usize::MAX,
        forall|j: int| 0 <= j < overrides.len() ==> (#[trigger] overrides[j]).params@.len() <= usize::MAX,
    ensures
        override_spec(overrides, d) matches Some((e, i, k)) ==> {
            &&& e < overrides.len()
            &&& overrides[e as int].algorithm@ == d.algorithm@
            &&& i < overrides[e as int].params@.len()
            &&& overrides[e as int].params@[i as int].0@ == d.name@
            &&& k == d.kind
            &&& coercion(overrides[e as int].params@[i as int].1, d.kind) == Some(d.kind)
        },
{
    let e = entry_of(overrides, d.algorithm@, 0);
    lemma_entry_of(overrides, d.algorithm@, 0);
    if e >= 0 {
        let ps = overrides[e].params@;
        lemma_last_override(ps, d.name@, d.kind, ps.len() as int);
    }
}

/// Whether value `p` overrides a parameter called `name` of kind `kind`.
pub open spec fn overrides_param(p: (String, ParameterKind), name: Seq<char>, kind: ParameterKind) -> bool {
    p.0@ == name && coercion(p.1, kind) is Some
}

proof fn lemma_last_override_exact(params: Seq<(String, ParameterKind)>, name: Seq<char>, kind: ParameterKind, n: int)
    requires
        0 <= n <= params.len(),
        params.len() <= usize::MAX,
    ensures
        last_override(params, name, kind, n) is None <==> forall|j: int|
            0 <= j < n ==> !overrides_param(#[trigger] params[j], name, kind),
        last_override(params, name, kind, n) matches Some((i, k)) ==> forall|j: int|
            i < j < n ==> !overrides_param(#[trigger] params[j], name, kind),
    decreases n,
{
    if n > 0 {
        lemma_last_override_exact(params, name, kind, n - 1);
        if !overrides_param(params[n - 1], name, kind) {
            assert(last_override(params, name, kind, n) == last_override(params, name, kind, n - 1));
            if let Some((i, k)) = last_override(params, name, kind, n) {
                assert forall|j: int| i < j < n implies !overrides_param(#[trigger] params[j], name, kind) by {
                    if j < n - 1 {
                    }
                }
            } else {
                assert forall|j: int| 0 <= j < n implies !overrides_param(#[trigger] params[j], name, kind) by {
                    if j < n - 1 {
                    }
                }
            }
        }
    }
}

proof fn lemma_entry_of_exact(config: Seq<AlgorithmEntries>, alg: Seq<char>, from: int)
    requires
        0 <= from <= config.len(),
    ensures
        entry_of(config, alg, from) < 0 <==> forall|j: int| from <= j < config.len() ==> (#[trigger] config[j]).algorithm@ != alg,
        entry_of(config, alg, from) >= 0 ==> forall|j: int|
            from <= j < entry_of(config, alg, from) ==> (#[trigger] config[j]).algorithm@ != alg,
    decreases config.len() - from,
{
    if from < config.len() && config[from].algorithm@ != alg {
        lemma_entry_of_exact(config, alg, from + 1);
    }
}

/// What the effective configuration holds for a declared parameter: it
/// reads the first entry for the parameter's detector, and there the last
/// value of the parameter's name that reshapes to the parameter's kind,
/// reshaped; the default stands exactly where there is no such entry or no
/// such value in it.
pub proof fn lemma_effective_config_entry(overrides: Seq<AlgorithmEntries>, d: DeclaredParam)
    requires
        overrides.len() <= usize::MAX,
        forall|j: int| 0 <= j < overrides.len() ==> (#[trigger] overrides[j]).params@.len() <= usize::MAX,
    ensures
        override_spec(overrides, d) is None <==> ((forall|j: int|
            0 <= j < overrides.len() ==> (#[trigger] overrides[j]).algorithm@ != d.algorithm@) || ({
            let e = entry_of(overrides, d.algorithm@, 0);
            e >= 0 && forall|j: int|
                0 <= j < overrides[e].params@.len() ==> !overrides_param(
                    #[trigger] overrides[e].params@[j],
                    d.name@,
                    d.kind,
                )
        })),
        override_spec(overrides, d) matches Some((e, i, k)) ==> {
            &&& e == entry_of(overrides, d.algorithm@, 0)
            &&& forall|j: int| 0 <= j < e ==> (#[trigger] overrides[j]).algorithm@ != d.algorithm@
            &&& overrides[e as int].algorithm@ == d.algorithm@
            &&& i < overrides[e as int].params@.len()
            &&& overrides_param(overrides[e as int].params@[i as int], d.name@, d.kind)
            &&& forall|j: int|
                i < j < overrides[e as int].params@.len() ==> !overrides_param(
                    #[trigger] overrides[e as int].params@[j],
                    d.name@,
                    d.kind,
                )
            &&& k == d.kind
            &&& coercion(overrides[e as int].params@[i as int].1, d.kind) == Some(k)
        },
{
    lemma_entry_of_exact(overrides, d.algorithm@, 0);
    lemma_override_matches(overrides, d);
    let e = entry_of(overrides, d.algorithm@, 0);
    if e >= 0 {
        lemma_entry_of(overrides, d.algorithm@, 0);
        let ps = overrides[e].params@;
        lemma_last_override_exact(ps, d.name@, d.kind, ps.len() as int);
    }
}

/// What a value of detector `alg` is kept as: the kind it takes when its
/// name is a declared parameter of `alg` and its kind reshapes to that
/// parameter's; none where it is dropped.
pub open spec fn kept_as(defaults: Seq<DeclaredParam>, alg: Seq<char>, p: (String, ParameterKind)) -> Option<
    ParameterKind,
> {
    match declared_kind(defaults, alg, p.0@, 0) {
        None => None,
        Some(dk) => coercion(p.1, dk),
    }
}

/// Checking a detector's values keeps, in order and by index, exactly the
/// values that name one of its declared parameters and reshape to its kind,
/// each with the kind it takes; every other value gets one note.
pub proof fn lemma_check_params_law(defaults: Seq<DeclaredParam>, alg: Seq<char>, params: Seq<(String, ParameterKind)>)
    requires
        params.len() <= usize::MAX,
    ensures
        ({
            let (kept, notes) = check_params(defaults, alg, params);
            &&& forall|t: int|
                0 <= t < kept.len() ==> (#[trigger] kept[t]).0 < params.len() && kept_as(
                    defaults,
                    alg,
                    params[kept[t].0 as int],
                ) == Some(kept[t].1)
            &&& forall|t: int, u: int| 0 <= t < u < kept.len() ==> (#[trigger] kept[t]).0 < (#[trigger] kept[u]).0
            &&& forall|j: int|
                0 <= j < params.len() && kept_as(defaults, alg, #[trigger] params[j]) is Some ==> exists|t: int|
                    0 <= t < kept.len() && kept[t].0 == j
            &&& notes.len() + kept.len() == params.len()
        }),
    decreases params.len(),
{
    if params.len() > 0 {
        let front = params.drop_last();
        lemma_check_params_law(defaults, alg, front);
        let (k0, n0) = check_params(defaults, alg, front);
        let (kept, notes) = check_params(defaults, alg, params);
        let last = (params.len() - 1) as int;
        assert forall|t: int| 0 <= t < k0.len() implies (#[trigger] k0[t]).0 < last && params[k0[t].0 as int]
            == front[k0[t].0 as int] by {}
        assert forall|j: int|
            0 <= j < params.len() && kept_as(defaults, alg, #[trigger] params[j]) is Some implies exists|t: int|
                0 <= t < kept.len() && kept[t].0 == j by {
            if j < last {
                assert(params[j] == front[j]);
                assert(kept_as(defaults, alg, front[j]) is Some);
                let t = choose|t: int| 0 <= t < k0.len() && k0[t].0 == j;
                assert(kept[t] == k0[t]);
            } else {
                assert(kept[k0.len() as int].0 == j);
            }
        }
    }
}

/// How many values a configuration has dropped: one for each unknown
/// detector, and, for each known one, each of its values not kept.
pub open spec fn dropped_count(defaults: Seq<DeclaredParam>, config: Seq<AlgorithmEntries>) -> nat
    decreases config.len(),
{
    if config.len() == 0 {
        0
    } else {
        let a = config.last();
        dropped_count(defaults, config.drop_last()) + if !algorithm_known(defaults, a.algorithm@) {
            1nat
        } else {
            (a.params@.len() - check_params(defaults, a.algorithm@, a.params@).0.len()) as nat
        }
    }
}

/// Checking a configuration keeps, in order, exactly the known detectors
/// with a value kept, each with its kept values and never with none, and
/// gives one note per unknown detector and per value dropped.
pub proof fn lemma_normalize_law(defaults: Seq<DeclaredParam>, config: Seq<AlgorithmEntries>)
    requires
        config.len() <= usize::MAX,
        forall|j: int| 0 <= j < config.len() ==> (#[trigger] config[j]).params@.len() <= usize::MAX,
    ensures
        ({
            let (kept, notes) = normalize_spec(defaults, config);
            &&& forall|t: int|
                0 <= t < kept.len() ==> {
                    let a = (#[trigger] kept[t]).0 as int;
                    &&& a < config.len()
                    &&& algorithm_known(defaults, config[a].algorithm@)
                    &&& kept[t].1 == check_params(defaults, config[a].algorithm@, config[a].params@).0
                    &&& kept[t].1.len() > 0
                }
            &&& forall|t: int, u: int| 0 <= t < u < kept.len() ==> (#[trigger] kept[t]).0 < (#[trigger] kept[u]).0
            &&& forall|a: int|
                0 <= a < config.len() && algorithm_known(defaults, (#[trigger] config[a]).algorithm@)
                    && check_params(defaults, config[a].algorithm@, config[a].params@).0.len() > 0 ==> exists|t: int|
                    0 <= t < kept.len() && kept[t].0 == a
            &&& notes.len() == dropped_count(defaults, config)
        }),
    decreases config.len(),
{
    if config.len() > 0 {
        let front = config.drop_last();
        lemma_normalize_law(defaults, front);
        let (k0, n0) = normalize_spec(defaults, front);
        let (kept, notes) = normalize_spec(defaults, config);
        let last = (config.len() - 1) as int;
        let a = config.last();
        if algorithm_known(defaults, a.algorithm@) {
            lemma_check_params_law(defaults, a.algorithm@, a.params@);
        }
        assert forall|t: int| 0 <= t < k0.len() implies (#[trigger] k0[t]).0 < last && config[k0[t].0 as int]
            == front[k0[t].0 as int] by {}
        assert forall|c: int|
            0 <= c < config.len() && algorithm_known(defaults, (#[trigger] config[c]).algorithm@) && check_params(
                defaults,
                config[c].algorithm@,
                config[c].params@,
            ).0.len() > 0 implies exists|t: int| 0 <= t < kept.len() && kept[t].0 == c by {
            if c < last {
                assert(config[c] == front[c]);
                let t = choose|t: int| 0 <= t < k0.len() && k0[t].0 == c;
                assert(kept[t] == k0[t]);
            } else {
                assert(kept[k0.len() as int].0 == c);
            }
        }
    }
}

proof fn lemma_coercion_gives_template(value: ParameterKind, template: ParameterKind)
    ensures
        coercion(value, template) is Some ==> coercion(value, template) == Some(template),
{
    match value {
        ParameterKind::Float => {},
        ParameterKind::Int => {},
        ParameterKind::Bool => {},
    }
    match template {
        ParameterKind::Float => {},
        ParameterKind::Int => {},
        ParameterKind::Bool => {},
    }
}

proof fn lemma_entry_of(config: Seq<AlgorithmEntries>, alg: Seq<char>, from: int)
    ensures
        entry_of(config, alg, from) >= 0 ==> {
            let e = entry_of(config, alg, from);
            &&& from <= e < config.len()
            &&& config[e].algorithm@ == alg
        },
    decreases config.len() - from,
{
    if 0 <= from < config.len() && config[from].algorithm@ != alg {
        lemma_entry_of(config, alg, from + 1);
    }
}

proof fn lemma_last_override(params: Seq<(String, ParameterKind)>, name: Seq<char>, kind: ParameterKind, n: int)
    requires
        params.len() <= usize::MAX,
    ensures
        last_override(params, name, kind, n) matches Some((i, k)) ==> {
            &&& i < n <= params.len()
            &&& params[i as int].0@ == name
            &&& k == kind
            &&& coercion(params[i as int].1, kind) == Some(kind)
        },
    decreases n,
{
    if 0 < n <= params.len() {
        if !(params[n - 1].0@ == name && coercion(params[n - 1].1, kind) is Some) {
            lemma_last_override(params, name, kind, n - 1);
        } else {
            lemma_coercion_gives_template(params[n - 1].1, kind);
        }
    }
}

} // verus!
