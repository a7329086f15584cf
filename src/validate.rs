//! Whether a proposed move of declarations leaves any reference dangling, and
//! the dependency markers shown when declarations are picked.

use crate::index::{lemma_index_map, ReferenceIndex};
use crate::text::{contains_name, name_set, str_eq};
use vstd::prelude::*;

verus! {

/// How declarations are moved.
#[derive(Debug, Clone, Copy, PartialEq, Eq, Structural)]
pub enum Mode {
    /// Renamed in place, within one stack.
    SameScopeRename,
    /// Moved to another stack by one atomic refactor.
    CrossScopeRefactor,
    /// Moved to another stack by removing and importing them.
    CrossScopeImport,
}

/// A reference that a move would break.
#[derive(Debug, PartialEq)]
pub enum Violation {
    /// The outputs refer to a declaration that moves.
    OutputsCoupling { target: String },
    /// A declaration that stays refers to one that moves.
    StayerDependsOnMover { declarant: String, target: String },
    /// A declaration that moves refers to one that stays.
    MoverDependsOnStayer { declarant: String, target: String },
}

/// The model of a violation.
pub enum Breach {
    Outputs(Seq<char>),
    Stayer(Seq<char>, Seq<char>),
    Mover(Seq<char>, Seq<char>),
}

impl View for Violation {
    type V = Breach;

    open spec fn view(&self) -> Breach {
        match self {
            Violation::OutputsCoupling { target } => Breach::Outputs(target@),
            Violation::StayerDependsOnMover { declarant, target } => Breach::Stayer(
                declarant@,
                target@,
            ),
            Violation::MoverDependsOnStayer { declarant, target } => Breach::Mover(
                declarant@,
                target@,
            ),
        }
    }
}

/// Whether `b` is broken by moving `moving`, for a declarant `d` that refers
/// to the names `ts`.
pub open spec fn entry_breach(
    d: Seq<char>,
    ts: Set<Seq<char>>,
    moving: Set<Seq<char>>,
    params: Set<Seq<char>>,
    mode: Mode,
    b: Breach,
) -> bool {
    match b {
        Breach::Outputs(t) => d == "Outputs"@ && ts.contains(t) && moving.contains(t),
        Breach::Stayer(d2, t) => d != "Outputs"@ && d2 == d && ts.contains(t) && !params.contains(t)
            && !moving.contains(d) && moving.contains(t),
        Breach::Mover(d2, t) => d != "Outputs"@ && d2 == d && ts.contains(t) && !params.contains(t)
            && mode != Mode::SameScopeRename && moving.contains(d) && !moving.contains(t),
    }
}

/// Every reference that moving `moving` would break, given the reference
/// index `idx` and the stack's parameter names.
pub open spec fn violations(
    idx: Map<Seq<char>, Set<Seq<char>>>,
    moving: Set<Seq<char>>,
    params: Set<Seq<char>>,
    mode: Mode,
) -> Set<Breach> {
    Set::new(
        |b: Breach|
            {
                let d = match b {
                    Breach::Outputs(_) => "Outputs"@,
                    Breach::Stayer(d, _) => d,
                    Breach::Mover(d, _) => d,
                };
                idx.contains_key(d) && entry_breach(d, idx[d], moving, params, mode, b)
            },
    )
}

/// The models of a list of violations.
pub open spec fn breach_set(vs: Seq<Violation>) -> Set<Breach> {
    Set::new(|b: Breach| exists|i: int| 0 <= i < vs.len() && vs[i]@ == b)
}

proof fn lemma_breach_push(vs: Seq<Violation>, v: Violation)
    ensures
        breach_set(vs.push(v)) == breach_set(vs).insert(v@),
{
    let p = vs.push(v);
    assert forall|b: Breach| breach_set(p).contains(b) implies breach_set(vs).insert(v@).contains(
        b,
    ) by {
        let i = choose|i: int| 0 <= i < p.len() && p[i]@ == b;
        if i < vs.len() {
            assert(vs[i]@ == b);
        }
    }
    assert forall|b: Breach| breach_set(vs).insert(v@).contains(b) implies breach_set(p).contains(
        b,
    ) by {
        if b == v@ {
            assert(p[vs.len() as int]@ == b);
        } else {
            let i = choose|i: int| 0 <= i < vs.len() && vs[i]@ == b;
            assert(p[i]@ == b);
        }
    }
    assert(breach_set(p) =~= breach_set(vs).insert(v@));
}

/// No two violations of the list are the same.
pub open spec fn distinct_breaches(vs: Seq<Violation>) -> bool {
    forall|i: int, j: int| 0 <= i < j < vs.len() ==> vs[i]@ != vs[j]@
}

fn same_violation(a: &Violation, b: &Violation) -> (r: bool)
    ensures
        r == (a@ == b@),
{
    match (a, b) {
        (Violation::OutputsCoupling { target: x }, Violation::OutputsCoupling { target: y }) => *x
            == *y,
        (
            Violation::StayerDependsOnMover { declarant: d1, target: t1 },
            Violation::StayerDependsOnMover { declarant: d2, target: t2 },
        ) => *d1 == *d2 && *t1 == *t2,
        (
            Violation::MoverDependsOnStayer { declarant: d1, target: t1 },
            Violation::MoverDependsOnStayer { declarant: d2, target: t2 },
        ) => *d1 == *d2 && *t1 == *t2,
        _ => false,
    }
}

/// Adds `v` to the list unless the list holds it already.
fn push_violation(out: &mut Vec<Violation>, v: Violation)
    ensures
        breach_set(final(out)@) == breach_set(old(out)@).insert(v@),
        distinct_breaches(old(out)@) ==> distinct_breaches(final(out)@),
{
    let mut i: usize = 0;
    while i < out.len()
        invariant
            i <= out@.len(),
            forall|j: int| 0 <= j < i ==> out@[j]@ != v@,
        decreases out@.len() - i,
    {
        if same_violation(&out[i], &v) {
            assert(breach_set(out@).contains(v@));
            assert(breach_set(out@) =~= breach_set(out@).insert(v@));
            return;
        }
        i = i + 1;
    }
    proof {
        lemma_breach_push(out@, v);
    }
    let ghost before = out@;
    out.push(v);
    proof {
        if distinct_breaches(before) {
            assert forall|a: int, b: int| 0 <= a < b < out@.len() implies out@[a]@ != out@[b]@ by {
                if b < before.len() {
                    assert(out@[a] == before[a] && out@[b] == before[b]);
                } else {
                    assert(out@[a] == before[a]);
                }
            }
        }
    }
}

/// Adds the violations of one declarant `d` that refers to `ts`.
fn check_entry(
    d: &String,
    ts: &Vec<String>,
    moving: &Vec<String>,
    parameter_names: &Vec<String>,
    mode: Mode,
    out: &mut Vec<Violation>,
)
    requires
        distinct_breaches(old(out)@),
    ensures
        distinct_breaches(final(out)@),
        breach_set(final(out)@) == breach_set(old(out)@).union(
            Set::new(
                |b: Breach|
                    entry_breach(
                        d@,
                        name_set(ts@),
                        name_set(moving@),
                        name_set(parameter_names@),
                        mode,
                        b,
                    ),
            ),
        ),
{
    let ghost mv = name_set(moving@);
    let ghost ps = name_set(parameter_names@);
    let is_outputs = str_eq(d.as_str(), "Outputs");
    let d_moves = contains_name(moving, d.as_str());
    let mut j: usize = 0;
    assert(name_set(ts@.take(0)) =~= Set::<Seq<char>>::empty());
    assert(breach_set(out@) =~= breach_set(old(out)@).union(
        Set::new(|b: Breach| entry_breach(d@, name_set(ts@.take(0)), mv, ps, mode, b)),
    ));
    while j < ts.len()
        invariant
            j <= ts.len(),
            mv == name_set(moving@),
            ps == name_set(parameter_names@),
            is_outputs == (d@ == "Outputs"@),
            d_moves == mv.contains(d@),
            distinct_breaches(out@),
            breach_set(out@) == breach_set(old(out)@).union(
                Set::new(|b: Breach| entry_breach(d@, name_set(ts@.take(j as int)), mv, ps, mode, b)),
            ),
        decreases ts.len() - j,
    {
        let t = &ts[j];
        let ghost before = out@;
        let ghost s0 = name_set(ts@.take(j as int));
        let ghost s1 = name_set(ts@.take(j + 1));
        let ghost tk0 = ts@.take(j as int);
        let ghost tk1 = ts@.take(j + 1);
        assert(s1 =~= s0.insert(t@)) by {
            assert(tk1 =~= tk0.push(*t));
            assert forall|n: Seq<char>| s1.contains(n) implies s0.insert(t@).contains(n) by {
                let i = choose|i: int| 0 <= i < tk1.len() && #[trigger] tk1[i]@ == n;
                if i < j {
                    assert(tk0[i]@ == n);
                }
            }
            assert forall|n: Seq<char>| s0.insert(t@).contains(n) implies s1.contains(n) by {
                if n == t@ {
                    assert(tk1[j as int]@ == n);
                } else {
                    let i = choose|i: int| 0 <= i < tk0.len() && #[trigger] tk0[i]@ == n;
                    assert(tk1[i]@ == n);
                }
            }
        }
        let t_moves = contains_name(moving, t.as_str());
        let ghost added: Set<Breach>;
        if is_outputs {
            if t_moves {
                let v = Violation::OutputsCoupling { target: t.clone() };
                push_violation(out, v);
                proof {
                    added = set![Breach::Outputs(t@)];
                }
            } else {
                proof {
                    added = Set::empty();
                }
            }
        } else if !contains_name(parameter_names, t.as_str()) {
            if !d_moves && t_moves {
                let v = Violation::StayerDependsOnMover { declarant: d.clone(), target: t.clone() };
                push_violation(out, v);
                proof {
                    added = set![Breach::Stayer(d@, t@)];
                }
            } else if mode != Mode::SameScopeRename && d_moves && !t_moves {
                let v = Violation::MoverDependsOnStayer { declarant: d.clone(), target: t.clone() };
                push_violation(out, v);
                proof {
                    added = set![Breach::Mover(d@, t@)];
                }
            } else {
                proof {
                    added = Set::empty();
                }
            }
        } else {
            proof {
                added = Set::empty();
            }
        }
        assert(breach_set(out@) =~= breach_set(before).union(added));
        assert(Set::new(|b: Breach| entry_breach(d@, s1, mv, ps, mode, b)) =~= Set::new(
            |b: Breach| entry_breach(d@, s0, mv, ps, mode, b),
        ).union(added));
        assert(breach_set(out@) =~= breach_set(old(out)@).union(
            Set::new(|b: Breach| entry_breach(d@, name_set(ts@.take(j + 1)), mv, ps, mode, b)),
        ));
        j = j + 1;
    }
    assert(ts@.take(ts.len() as int) =~= ts@);
}

/// Checks a proposed move: every reference that it would break is reported,
/// none is left out, and the move is accepted exactly when there is none.
pub fn validate(
    index: &ReferenceIndex,
    moving: &Vec<String>,
    parameter_names: &Vec<String>,
    mode: Mode,
) -> (r: Result<(), Vec<Violation>>)
    requires
        index.wf(),
    ensures
        r is Ok <==> violations(index@, name_set(moving@), name_set(parameter_names@), mode)
            == Set::<Breach>::empty(),
        r matches Err(vs) ==> breach_set(vs@) == violations(
            index@,
            name_set(moving@),
            name_set(parameter_names@),
            mode,
        ),
        r matches Err(vs) ==> distinct_breaches(vs@),
{
    let ghost mv = name_set(moving@);
    let ghost ps = name_set(parameter_names@);
    let ghost e = index.entries@;
    let mut out: Vec<Violation> = Vec::new();
    let mut i: usize = 0;
    assert(breach_set(out@) =~= Set::<Breach>::empty());
    while i < index.entries.len()
        invariant
            i <= e.len(),
            e == index.entries@,
            mv == name_set(moving@),
            ps == name_set(parameter_names@),
            distinct_breaches(out@),
            breach_set(out@) == Set::new(
                |b: Breach|
                    exists|k: int|
                        0 <= k < i && entry_breach(e[k].0@, name_set(e[k].1@), mv, ps, mode, b),
            ),
        decreases e.len() - i,
    {
        let ghost before = out@;
        check_entry(&index.entries[i].0, &index.entries[i].1, moving, parameter_names, mode, &mut out);
        assert(breach_set(out@) =~= Set::new(
            |b: Breach|
                exists|k: int|
                    0 <= k < i + 1 && entry_breach(e[k].0@, name_set(e[k].1@), mv, ps, mode, b),
        ));
        i = i + 1;
    }
    proof {
        lemma_index_map(e);
        let idx = index@;
        assert forall|b: Breach| violations(idx, mv, ps, mode).contains(b) implies breach_set(
            out@,
        ).contains(b) by {
            let d = match b {
                Breach::Outputs(_) => "Outputs"@,
                Breach::Stayer(d, _) => d,
                Breach::Mover(d, _) => d,
            };
            assert(idx.contains_key(d));
            let k = choose|k: int| 0 <= k < e.len() && e[k].0@ == d;
            assert(idx[e[k].0@] == name_set(e[k].1@));
            assert(entry_breach(e[k].0@, name_set(e[k].1@), mv, ps, mode, b));
        }
        assert forall|b: Breach| breach_set(out@).contains(b) implies violations(
            idx,
            mv,
            ps,
            mode,
        ).contains(b) by {
            let k = choose|k: int|
                0 <= k < e.len() && entry_breach(e[k].0@, name_set(e[k].1@), mv, ps, mode, b);
            assert(idx.contains_key(e[k].0@));
            assert(idx[e[k].0@] == name_set(e[k].1@));
        }
        assert(breach_set(out@) =~= violations(idx, mv, ps, mode));
    }
    if out.len() == 0 {
        assert(breach_set(out@) =~= Set::<Breach>::empty());
        Ok(())
    } else {
        assert(breach_set(out@).contains(out@[0]@));
        Err(out)
    }
}


/// A declaration that the outputs refer to can never be part of an accepted
/// move, in any mode.
pub proof fn lemma_outputs_pin_declarations(
    idx: Map<Seq<char>, Set<Seq<char>>>,
    moving: Set<Seq<char>>,
    params: Set<Seq<char>>,
    mode: Mode,
    t: Seq<char>,
)
    requires
        idx.contains_key("Outputs"@),
        idx["Outputs"@].contains(t),
        moving.contains(t),
    ensures
        violations(idx, moving, params, mode).contains(Breach::Outputs(t)),
        violations(idx, moving, params, mode) != Set::<Breach>::empty(),
{
    assert(violations(idx, moving, params, mode).contains(Breach::Outputs(t)));
}

/// What the picker shows of a declaration.
#[derive(Debug, Clone, Copy, PartialEq, Eq, Structural)]
pub struct DependencyMarkers {
    /// Another declaration refers to it.
    pub has_incoming: bool,
    /// It refers to another declaration.
    pub has_outgoing: bool,
    /// The outputs refer to it.
    pub referenced_by_outputs: bool,
    /// It refers to a parameter of the stack.
    pub depends_on_parameters: bool,
}

pub open spec fn has_incoming(idx: Map<Seq<char>, Set<Seq<char>>>, r: Seq<char>) -> bool {
    exists|d: Seq<char>|
        d != r && d != "Outputs"@ && #[trigger] idx.contains_key(d) && idx[d].contains(r)
}

pub open spec fn refers_into(
    idx: Map<Seq<char>, Set<Seq<char>>>,
    r: Seq<char>,
    names: Set<Seq<char>>,
) -> bool {
    idx.contains_key(r) && exists|t: Seq<char>| #[trigger] idx[r].contains(t) && names.contains(t)
}

pub open spec fn referenced_by_outputs(idx: Map<Seq<char>, Set<Seq<char>>>, r: Seq<char>) -> bool {
    idx.contains_key("Outputs"@) && idx["Outputs"@].contains(r)
}

/// Whether some name of `v` is in `names`.
fn any_in(v: &Vec<String>, names: &Vec<String>, excluded: &Vec<String>) -> (r: bool)
    ensures
        r == exists|t: Seq<char>|
            #[trigger] name_set(v@).contains(t) && name_set(names@).contains(t) && !name_set(
                excluded@,
            ).contains(t),
{
    let mut i: usize = 0;
    while i < v.len()
        invariant
            i <= v.len(),
            forall|k: int|
                0 <= k < i ==> !(name_set(names@).contains(#[trigger] v@[k]@) && !name_set(
                    excluded@,
                ).contains(v@[k]@)),
        decreases v.len() - i,
    {
        if contains_name(names, v[i].as_str()) && !contains_name(excluded, v[i].as_str()) {
            assert(name_set(v@).contains(v@[i as int]@));
            return true;
        }
        i = i + 1;
    }
    assert forall|t: Seq<char>| #[trigger] name_set(v@).contains(t) && name_set(names@).contains(
        t,
    ) implies name_set(excluded@).contains(t) by {
        let k = choose|k: int| 0 <= k < v@.len() && v@[k]@ == t;
        assert(name_set(names@).contains(v@[k]@));
    }
    false
}

/// The markers of `resource`: `declared` are the declaration names of the
/// template, `parameter_names` its parameters.
pub fn dependency_markers(
    index: &ReferenceIndex,
    resource: &str,
    declared: &Vec<String>,
    parameter_names: &Vec<String>,
) -> (r: DependencyMarkers)
    requires
        index.wf(),
    ensures
        r.has_incoming == has_incoming(index@, resource@),
        r.has_outgoing == refers_into(
            index@,
            resource@,
            name_set(declared@).difference(name_set(parameter_names@)),
        ),
        r.referenced_by_outputs == referenced_by_outputs(index@, resource@),
        r.depends_on_parameters == refers_into(index@, resource@, name_set(parameter_names@)),
{
    proof {
        lemma_index_map(index.entries@);
    }
    let ghost e = index.entries@;
    let mut incoming = false;
    let mut i: usize = 0;
    while i < index.entries.len()
        invariant
            i <= e.len(),
            e == index.entries@,
            incoming == exists|k: int|
                0 <= k < i && e[k].0@ != resource@ && e[k].0@ != "Outputs"@ && #[trigger] name_set(
                    e[k].1@,
                ).contains(resource@),
        decreases e.len() - i,
    {
        let d = &index.entries[i].0;
        if !str_eq(d.as_str(), resource) && !str_eq(d.as_str(), "Outputs") && contains_name(
            &index.entries[i].1,
            resource,
        ) {
            incoming = true;
        }
        i = i + 1;
    }
    proof {
        let idx = index@;
        if incoming {
            let k = choose|k: int|
                0 <= k < e.len() && e[k].0@ != resource@ && e[k].0@ != "Outputs"@ && #[trigger] name_set(
                    e[k].1@,
                ).contains(resource@);
            assert(idx.contains_key(e[k].0@));
        }
        if has_incoming(idx, resource@) {
            let d = choose|d: Seq<char>|
                d != resource@ && d != "Outputs"@ && #[trigger] idx.contains_key(d)
                    && idx[d].contains(resource@);
            let k = choose|k: int| 0 <= k < e.len() && e[k].0@ == d;
            assert(name_set(e[k].1@).contains(resource@));
        }
    }
    let empty: Vec<String> = Vec::new();
    assert(name_set(empty@) =~= Set::<Seq<char>>::empty());
    let (outgoing, on_params) = match index.get(resource) {
        Some(ts) => (any_in(ts, declared, parameter_names), any_in(ts, parameter_names, &empty)),
        None => (false, false),
    };
    let by_outputs = index.contains("Outputs", resource);
    DependencyMarkers {
        has_incoming: incoming,
        has_outgoing: outgoing,
        referenced_by_outputs: by_outputs,
        depends_on_parameters: on_params,
    }
}

/// Whether `resource` may not be picked for a move to another stack: the
/// outputs refer to it, or it refers to a parameter of the source stack that
/// the target stack lacks.
pub fn blocked_for_cross_scope(
    index: &ReferenceIndex,
    resource: &str,
    source_parameters: &Vec<String>,
    target_parameters: &Vec<String>,
) -> (r: bool)
    requires
        index.wf(),
    ensures
        r == (referenced_by_outputs(index@, resource@) || refers_into(
            index@,
            resource@,
            name_set(source_parameters@).difference(name_set(target_parameters@)),
        )),
{
    if index.contains("Outputs", resource) {
        return true;
    }
    match index.get(resource) {
        Some(ts) => any_in(ts, source_parameters, target_parameters),
        None => false,
    }
}

/// The moving declarations that refer to a parameter of the source stack:
/// the import workflow cannot carry parameters across, so any of them blocks
/// the whole move.
pub fn parameter_crossings(
    index: &ReferenceIndex,
    moving: &Vec<String>,
    parameter_names: &Vec<String>,
) -> (r: Vec<String>)
    requires
        index.wf(),
    ensures
        name_set(r@) == name_set(moving@).filter(
            |d: Seq<char>| refers_into(index@, d, name_set(parameter_names@)),
        ),
{
    let empty: Vec<String> = Vec::new();
    assert(name_set(empty@) =~= Set::<Seq<char>>::empty());
    let ghost ps = name_set(parameter_names@);
    let mut out: Vec<String> = Vec::new();
    let mut i: usize = 0;
    assert(name_set(out@) =~= name_set(moving@.take(0)).filter(
        |d: Seq<char>| refers_into(index@, d, ps),
    ));
    while i < moving.len()
        invariant
            i <= moving.len(),
            ps == name_set(parameter_names@),
            name_set(empty@) == Set::<Seq<char>>::empty(),
            index.wf(),
            name_set(out@) == name_set(moving@.take(i as int)).filter(
                |d: Seq<char>| refers_into(index@, d, ps),
            ),
        decreases moving.len() - i,
    {
        let ghost before = out@;
        let d = &moving[i];
        let crosses = match index.get(d.as_str()) {
            Some(ts) => any_in(ts, parameter_names, &empty),
            None => false,
        };
        if crosses {
            crate::text::add_name(&mut out, d.clone());
        }
        let ghost tk0 = moving@.take(i as int);
        let ghost tk1 = moving@.take(i + 1);
        assert(name_set(tk1) =~= name_set(tk0).insert(d@)) by {
            assert forall|n: Seq<char>| name_set(tk1).contains(n) implies name_set(tk0).insert(
                d@,
            ).contains(n) by {
                let k = choose|k: int| 0 <= k < tk1.len() && #[trigger] tk1[k]@ == n;
                if k < i {
                    assert(tk0[k]@ == n);
                }
            }
            assert forall|n: Seq<char>| name_set(tk0).insert(d@).contains(n) implies name_set(
                tk1,
            ).contains(n) by {
                if n == d@ {
                    assert(tk1[i as int]@ == n);
                } else {
                    let k = choose|k: int| 0 <= k < tk0.len() && #[trigger] tk0[k]@ == n;
                    assert(tk1[k]@ == n);
                }
            }
        }
        assert(name_set(out@) =~= name_set(tk1).filter(|d: Seq<char>| refers_into(index@, d, ps)));
        i = i + 1;
    }
    assert(moving@.take(moving.len() as int) =~= moving@);
    out
}

} // verus!
