//! Properties that relate the library's functions, proved once for all
//! inputs.

use crate::index::{
    construct_refs, depends_refs, getatt_refs, ref_refs, refs_of, refs_of_entries, refs_of_list,
    resource_index, section, sub_refs, template_index,
};
use crate::text::is_pseudo;
use crate::ops::{default_policy, defaulted, names_cluster};
use crate::rewrite::{
    depends_items, kept_vars, moved_vars, rename_vars, renamed, rewrite, rewrite_depends,
    rewrite_entries, rewrite_entry, rewrite_getatt, rewrite_list, rewrite_ref, rewrite_sub,
    rewrite_vars, sub_rewrite_from,
};
use crate::value::{field, key_index, lemma_key_index, lemma_with_field, Entry, Tree};
use vstd::prelude::*;

verus! {

pub open spec fn no_renames() -> Map<Seq<char>, Seq<char>> {
    Map::empty()
}

proof fn lemma_sub_identity(t: Seq<char>, i: int)
    requires
        0 <= i <= t.len(),
    ensures
        sub_rewrite_from(t, i, no_renames()) == t.skip(i),
    decreases t.len() - i,
{
    if i < t.len() {
        lemma_sub_identity(t, i + 1);
        assert(t.skip(i) =~= seq![t[i]] + t.skip(i + 1));
    } else {
        assert(t.skip(i) =~= Seq::<char>::empty());
    }
}

proof fn lemma_identity(t: Tree)
    ensures
        rewrite(t, no_renames()) == t,
    decreases t, 0int,
{
    match t {
        Tree::List(items) => {
            lemma_identity_list(items);
        },
        Tree::Dict(es) => {
            lemma_identity_entries(es);
        },
        _ => {},
    }
}

proof fn lemma_identity_list(s: Seq<Tree>)
    ensures
        rewrite_list(s, no_renames()) == s,
    decreases s, 0int,
{
    if s.len() > 0 {
        let p = s.subrange(0, s.len() - 1);
        lemma_identity_list(p);
        lemma_identity(s[s.len() - 1]);
        assert(s =~= p.push(s[s.len() - 1]));
    }
}

proof fn lemma_identity_entries(es: Seq<Entry>)
    ensures
        rewrite_entries(es, no_renames()) == es,
    decreases es, 0int,
{
    if es.len() > 0 {
        let p = es.subrange(0, es.len() - 1);
        lemma_identity_entries(p);
        let v = es[es.len() - 1].1;
        lemma_identity_entry(es[es.len() - 1].0, v);
        assert(es =~= p.push(es[es.len() - 1]));
    }
}

proof fn lemma_identity_entry(k: Seq<char>, v: Tree)
    ensures
        rewrite_entry(k, v, no_renames()) == v,
    decreases v, 2int,
{
    lemma_identity(v);
    lemma_identity_ref(v);
    lemma_identity_getatt(v);
    lemma_identity_sub(v);
    lemma_identity_depends(v);
}

proof fn lemma_identity_ref(v: Tree)
    ensures
        rewrite_ref(v, no_renames()) == v,
    decreases v, 1int,
{
    match v {
        Tree::Text(_) => {},
        _ => {
            lemma_identity(v);
        },
    }
}

proof fn lemma_identity_getatt(v: Tree)
    ensures
        rewrite_getatt(v, no_renames()) == v,
    decreases v, 1int,
{
    match v {
        Tree::List(a) => {
            if a.len() > 0 && a[0] is Text {
                lemma_identity_list(a.subrange(1, a.len() as int));
                assert(a =~= seq![a[0]] + a.subrange(1, a.len() as int));
            } else {
                lemma_identity_list(a);
            }
        },
        _ => {
            lemma_identity(v);
        },
    }
}

proof fn lemma_identity_sub(v: Tree)
    ensures
        rewrite_sub(v, no_renames()) == v,
    decreases v, 1int,
{
    match v {
        Tree::Text(s) => {
            lemma_sub_identity(s, 0);
            assert(s.skip(0) =~= s);
        },
        Tree::List(a) => {
            if a.len() > 0 {
                match a[0] {
                    Tree::Text(s) => {
                        lemma_sub_identity(s, 0);
                        assert(s.skip(0) =~= s);
                    },
                    _ => {
                        lemma_identity(a[0]);
                    },
                }
                if a.len() > 1 {
                    lemma_identity_vars(a[1]);
                    lemma_identity_list(a.subrange(2, a.len() as int));
                    assert(a =~= seq![a[0], a[1]] + a.subrange(2, a.len() as int));
                } else {
                    assert(a =~= seq![a[0]]);
                }
            }
        },
        _ => {
            lemma_identity(v);
        },
    }
}

proof fn lemma_identity_vars(v: Tree)
    ensures
        rewrite_vars(v, no_renames()) == v,
    decreases v, 2int,
{
    match v {
        Tree::Dict(es) => {
            lemma_identity_rename(es);
        },
        _ => {
            lemma_identity(v);
        },
    }
}

proof fn lemma_identity_kept(es: Seq<Entry>)
    ensures
        kept_vars(es, no_renames()) == es,
        moved_vars(es, no_renames(), es) == es,
    decreases es, 0int,
{
    if es.len() > 0 {
        let p = es.subrange(0, es.len() - 1);
        lemma_identity_kept(p);
        lemma_identity(es[es.len() - 1].1);
        assert(es =~= p.push(es[es.len() - 1]));
        lemma_moved_none(p, es);
    }
}

proof fn lemma_moved_none(es: Seq<Entry>, base: Seq<Entry>)
    ensures
        moved_vars(es, no_renames(), base) == base,
    decreases es.len(),
{
    if es.len() > 0 {
        lemma_moved_none(es.subrange(0, es.len() - 1), base);
    }
}

proof fn lemma_identity_rename(es: Seq<Entry>)
    ensures
        rename_vars(es, no_renames()) == es,
    decreases es, 1int,
{
    lemma_identity_kept(es);
    lemma_moved_none(es, es);
}

proof fn lemma_identity_depends(v: Tree)
    ensures
        rewrite_depends(v, no_renames()) == v,
    decreases v, 1int,
{
    match v {
        Tree::List(a) => {
            lemma_identity_depends_items(a);
        },
        Tree::Text(_) => {},
        _ => {
            lemma_identity(v);
        },
    }
}

proof fn lemma_identity_depends_items(s: Seq<Tree>)
    ensures
        depends_items(s, no_renames()) == s,
    decreases s, 0int,
{
    if s.len() > 0 {
        let p = s.subrange(0, s.len() - 1);
        lemma_identity_depends_items(p);
        lemma_identity(s[s.len() - 1]);
        assert(s =~= p.push(s[s.len() - 1]));
    }
}

/// Rewriting with an empty mapping leaves every document as it is.
pub proof fn lemma_empty_mapping_is_identity(t: Tree)
    ensures
        rewrite(t, Map::empty()) == t,
{
    lemma_identity(t);
}


/// No two entries share a key.
pub open spec fn distinct_keys(es: Seq<Entry>) -> bool {
    forall|i: int, j: int| 0 <= i < j < es.len() ==> es[i].0 != es[j].0
}

proof fn lemma_resource_index(rs: Seq<Entry>)
    requires
        distinct_keys(rs),
    ensures
        forall|k: Seq<char>|
            #[trigger] resource_index(rs).contains_key(k) <==> exists|i: int|
                0 <= i < rs.len() && rs[i].0 == k && refs_of(rs[i].1) != Set::<Seq<char>>::empty(),
        forall|i: int|
            0 <= i < rs.len() && refs_of(rs[i].1) != Set::<Seq<char>>::empty() ==> #[trigger] resource_index(
                rs,
            )[rs[i].0] == refs_of(rs[i].1),
    decreases rs.len(),
{
    if rs.len() > 0 {
        let p = rs.drop_last();
        assert(distinct_keys(p)) by {
            assert forall|i: int, j: int| 0 <= i < j < p.len() implies p[i].0 != p[j].0 by {
                assert(p[i] == rs[i] && p[j] == rs[j]);
            }
        }
        lemma_resource_index(p);
        let l = rs.len() - 1;
        assert forall|k: Seq<char>| #[trigger] resource_index(rs).contains_key(k) implies exists|i: int|
            0 <= i < rs.len() && rs[i].0 == k && refs_of(rs[i].1) != Set::<Seq<char>>::empty() by {
            if k == rs[l].0 && refs_of(rs[l].1) != Set::<Seq<char>>::empty() {
            } else {
                assert(resource_index(p).contains_key(k));
                let i = choose|i: int|
                    0 <= i < p.len() && p[i].0 == k && refs_of(p[i].1) != Set::<Seq<char>>::empty();
                assert(rs[i] == p[i]);
            }
        }
        assert forall|k: Seq<char>|
            (exists|i: int|
                0 <= i < rs.len() && rs[i].0 == k && refs_of(rs[i].1) != Set::<
                    Seq<char>,
                >::empty()) implies #[trigger] resource_index(rs).contains_key(k) by {
            let i = choose|i: int|
                0 <= i < rs.len() && rs[i].0 == k && refs_of(rs[i].1) != Set::<Seq<char>>::empty();
            if i < l {
                assert(p[i] == rs[i]);
                assert(resource_index(p).contains_key(k));
            }
        }
        assert forall|i: int|
            0 <= i < rs.len() && refs_of(rs[i].1) != Set::<Seq<char>>::empty() implies #[trigger] resource_index(
            rs,
        )[rs[i].0] == refs_of(rs[i].1) by {
            if i < l {
                assert(p[i] == rs[i]);
                assert(rs[i].0 != rs[l].0);
                assert(resource_index(p)[p[i].0] == refs_of(p[i].1));
            }
        }
    }
}

/// With distinct declaration names: the reference index holds a declaration
/// exactly when its body refers to at least one name, and then holds just
/// those names.
pub proof fn lemma_index_reports_declaration_body(t: Tree, d: Seq<char>)
    requires
        section(t, "Resources"@) is Some,
        distinct_keys(section(t, "Resources"@)->0),
        d != "Outputs"@,
    ensures
        ({
            let rs = section(t, "Resources"@)->0;
            match field(rs, d) {
                Some(body) => {
                    &&& template_index(t).contains_key(d) == (refs_of(body) != Set::<
                        Seq<char>,
                    >::empty())
                    &&& template_index(t).contains_key(d) ==> template_index(t)[d] == refs_of(body)
                },
                None => !template_index(t).contains_key(d),
            }
        }),
{
    let rs = section(t, "Resources"@)->0;
    lemma_resource_index(rs);
    lemma_key_index(rs, d);
    let base = resource_index(rs);
    assert(template_index(t).contains_key(d) == base.contains_key(d));
    assert(template_index(t).contains_key(d) ==> template_index(t)[d] == base[d]);
    match field(rs, d) {
        Some(body) => {
            let i = key_index(rs, d);
            if base.contains_key(d) {
                let j = choose|j: int|
                    0 <= j < rs.len() && rs[j].0 == d && refs_of(rs[j].1) != Set::<
                        Seq<char>,
                    >::empty();
                assert(i == j);
            }
        },
        None => {
            if base.contains_key(d) {
                let j = choose|j: int|
                    0 <= j < rs.len() && rs[j].0 == d && refs_of(rs[j].1) != Set::<
                        Seq<char>,
                    >::empty();
                assert(rs[j].0 != d);
            }
        },
    }
}


/// The default deletion policies. Of a named declaration (an object) with no
/// deletion policy: a relational cluster gets `Snapshot`; a relational
/// instance gets `Delete` when it names its parent cluster and `Snapshot`
/// when it does not; any other type gets `Delete`. A declaration that already
/// has a policy is left as it is.
pub proof fn lemma_default_retention_rules(rs: Seq<Entry>, ids: Set<Seq<char>>, i: int)
    requires
        0 <= i < rs.len(),
        ids.contains(rs[i].0),
        rs[i].1 is Dict,
    ensures
        ({
            let es = rs[i].1->Dict_0;
            let out = defaulted(rs, ids)[i];
            let policy = field(out.1->Dict_0, "DeletionPolicy"@);
            &&& out.0 == rs[i].0
            &&& field(es, "DeletionPolicy"@) is Some ==> out == rs[i]
            &&& field(es, "DeletionPolicy"@) is None ==> {
                &&& out.1 is Dict
                &&& field(es, "Type"@) == Some(Tree::Text("AWS::RDS::DBCluster"@)) ==> policy
                    == Some(Tree::Text("Snapshot"@))
                &&& field(es, "Type"@) == Some(Tree::Text("AWS::RDS::DBInstance"@)) && names_cluster(
                    es,
                ) ==> policy == Some(Tree::Text("Delete"@))
                &&& field(es, "Type"@) == Some(Tree::Text("AWS::RDS::DBInstance"@)) && !names_cluster(
                    es,
                ) ==> policy == Some(Tree::Text("Snapshot"@))
                &&& !(field(es, "Type"@) == Some(Tree::Text("AWS::RDS::DBCluster"@)))
                    && !(field(es, "Type"@) == Some(Tree::Text("AWS::RDS::DBInstance"@)))
                    ==> policy == Some(Tree::Text("Delete"@))
            }
        }),
{
    let es = rs[i].1->Dict_0;
    reveal_strlit("AWS::RDS::DBCluster");
    reveal_strlit("AWS::RDS::DBInstance");
    assert("AWS::RDS::DBCluster"@[12] != "AWS::RDS::DBInstance"@[12]);
    lemma_with_field(es, "DeletionPolicy"@, Tree::Text(default_policy(es)));
}


/// The keys that mark a reference construct.
pub open spec fn construct_key(k: Seq<char>) -> bool {
    k == "Ref"@ || k == "Fn::GetAtt"@ || k == "Fn::Sub"@ || k == "DependsOn"@
}

/// A document whose only reference constructs are direct references
/// `{"Ref": name}`, each an object of that one entry.
pub open spec fn ref_only(t: Tree) -> bool
    decreases t, 0int,
{
    match t {
        Tree::List(items) => ref_only_list(items),
        Tree::Dict(es) => if es.len() == 1 && es[0].0 == "Ref"@ && es[0].1 is Text {
            true
        } else {
            (forall|i: int| 0 <= i < es.len() ==> !construct_key(#[trigger] es[i].0))
                && ref_only_entries(es)
        },
        _ => true,
    }
}

pub open spec fn ref_only_list(s: Seq<Tree>) -> bool
    decreases s, 0int,
{
    if s.len() == 0 {
        true
    } else {
        ref_only_list(s.subrange(0, s.len() - 1)) && ref_only(s[s.len() - 1])
    }
}

pub open spec fn ref_only_entries(es: Seq<Entry>) -> bool
    decreases es, 0int,
{
    if es.len() == 0 {
        true
    } else {
        ref_only_entries(es.subrange(0, es.len() - 1)) && ref_only(es[es.len() - 1].1)
    }
}

/// The names of `s` after the mapping.
pub open spec fn renamed_set(s: Set<Seq<char>>, m: Map<Seq<char>, Seq<char>>) -> Set<Seq<char>> {
    Set::new(|y: Seq<char>| exists|x: Seq<char>| s.contains(x) && renamed(m, x) == y)
}

/// No new name is a pseudo parameter.
pub open spec fn plain_targets(m: Map<Seq<char>, Seq<char>>) -> bool {
    forall|k: Seq<char>| m.contains_key(k) ==> !is_pseudo(#[trigger] m[k])
}

proof fn lemma_no_key(es: Seq<Entry>, k: Seq<char>)
    requires
        forall|i: int| 0 <= i < es.len() ==> #[trigger] es[i].0 != k,
    ensures
        field(es, k) is None,
{
    lemma_key_index(es, k);
}

proof fn lemma_no_constructs(es: Seq<Entry>)
    requires
        forall|i: int| 0 <= i < es.len() ==> !construct_key(#[trigger] es[i].0),
    ensures
        construct_refs(es) == Set::<Seq<char>>::empty(),
{
    lemma_no_key(es, "Ref"@);
    lemma_no_key(es, "Fn::GetAtt"@);
    lemma_no_key(es, "Fn::Sub"@);
    lemma_no_key(es, "DependsOn"@);
    assert(construct_refs(es) =~= Set::<Seq<char>>::empty());
}

proof fn lemma_rewrite_entries_keys(es: Seq<Entry>, m: Map<Seq<char>, Seq<char>>)
    requires
        forall|i: int| 0 <= i < es.len() ==> !construct_key(#[trigger] es[i].0),
    ensures
        rewrite_entries(es, m).len() == es.len(),
        forall|i: int|
            0 <= i < es.len() ==> #[trigger] rewrite_entries(es, m)[i] == (
                es[i].0,
                rewrite(es[i].1, m),
            ),
    decreases es.len(),
{
    if es.len() > 0 {
        let p = es.subrange(0, es.len() - 1);
        lemma_rewrite_entries_keys(p, m);
        let r = rewrite_entries(es, m);
        let l = es.len() - 1;
        assert(rewrite_entry(es[l].0, es[l].1, m) == rewrite(es[l].1, m));
        assert forall|i: int| 0 <= i < es.len() implies #[trigger] r[i] == (
            es[i].0,
            rewrite(es[i].1, m),
        ) by {
            if i < es.len() - 1 {
                assert(p[i] == es[i]);
            }
        }
    }
}

proof fn lemma_ref_only_rewrite(t: Tree, m: Map<Seq<char>, Seq<char>>)
    requires
        ref_only(t),
        plain_targets(m),
    ensures
        refs_of(rewrite(t, m)) == renamed_set(refs_of(t), m),
    decreases t, 0int,
{
    match t {
        Tree::List(items) => {
            lemma_ref_only_list(items, m);
        },
        Tree::Dict(es) => {
            if es.len() == 1 && es[0].0 == "Ref"@ && es[0].1 is Text {
                let x = es[0].1->Text_0;
                lemma_key_index(es, "Ref"@);
                assert(key_index(es, "Ref"@) == 0);
                reveal_strlit("Ref");
                reveal_strlit("Fn::GetAtt");
                reveal_strlit("Fn::Sub");
                reveal_strlit("DependsOn");
                reveal_strlit("Type");
                lemma_key_index(es, "Fn::GetAtt"@);
                lemma_key_index(es, "Fn::Sub"@);
                lemma_key_index(es, "DependsOn"@);
                lemma_key_index(es, "Type"@);
                assert("Ref"@ != "Fn::GetAtt"@ && "Ref"@ != "Fn::Sub"@ && "Ref"@ != "DependsOn"@
                    && "Ref"@ != "Type"@) by {
                    assert("Ref"@.len() == 3);
                    assert("Type"@.len() == 4);
                }
                assert(field(es, "Fn::GetAtt"@) is None);
                assert(field(es, "Fn::Sub"@) is None);
                assert(field(es, "Type"@) is None);
                assert(getatt_refs(es) =~= Set::<Seq<char>>::empty());
                assert(sub_refs(es) =~= Set::<Seq<char>>::empty());
                assert(depends_refs(es) =~= Set::<Seq<char>>::empty());
                assert(refs_of_entries(es) =~= Set::<Seq<char>>::empty()) by {
                    assert(es.subrange(0, 0) =~= Seq::<Entry>::empty());
                    assert(refs_of_entries(es.subrange(0, 0)) == Set::<Seq<char>>::empty());
                    assert(refs_of(es[0].1) == Set::<Seq<char>>::empty());
                }
                let r = rewrite(t, m);
                let y = if is_pseudo(x) {
                    x
                } else {
                    renamed(m, x)
                };
                let es2 = rewrite_entries(es, m);
                assert(es.subrange(0, 0) =~= Seq::<Entry>::empty());
                assert(rewrite_entries(es.subrange(0, 0), m) == Seq::<Entry>::empty());
                assert(rewrite_entry("Ref"@, Tree::Text(x), m) == Tree::Text(y));
                assert(es2 =~= seq![("Ref"@, Tree::Text(y))]);
                lemma_key_index(es2, "Ref"@);
                lemma_key_index(es2, "Fn::GetAtt"@);
                lemma_key_index(es2, "Fn::Sub"@);
                lemma_key_index(es2, "DependsOn"@);
                lemma_key_index(es2, "Type"@);
                assert(field(es2, "Fn::GetAtt"@) is None);
                assert(field(es2, "Fn::Sub"@) is None);
                assert(field(es2, "Type"@) is None);
                assert(getatt_refs(es2) =~= Set::<Seq<char>>::empty());
                assert(sub_refs(es2) =~= Set::<Seq<char>>::empty());
                assert(depends_refs(es2) =~= Set::<Seq<char>>::empty());
                assert(refs_of_entries(es2) =~= Set::<Seq<char>>::empty()) by {
                    assert(es2.subrange(0, 0) =~= Seq::<Entry>::empty());
                    assert(refs_of_entries(es2.subrange(0, 0)) == Set::<Seq<char>>::empty());
                    assert(refs_of(es2[0].1) == Set::<Seq<char>>::empty());
                }
                if is_pseudo(x) {
                    assert(refs_of(t) =~= Set::<Seq<char>>::empty());
                    assert(refs_of(r) =~= Set::<Seq<char>>::empty());
                    assert(renamed_set(Set::<Seq<char>>::empty(), m) =~= Set::<Seq<char>>::empty());
                } else {
                    assert(!is_pseudo(y));
                    assert(ref_refs(es2) =~= set![y]);
                    assert(ref_refs(es) =~= set![x]);
                    assert(refs_of(r) =~= set![y]);
                    assert(refs_of(t) =~= set![x]);
                    assert(renamed_set(set![x], m) =~= set![y]);
                }
            } else {
                lemma_no_key(es, "Ref"@);
                lemma_no_key(es, "Fn::GetAtt"@);
                lemma_no_constructs(es);
                lemma_rewrite_entries_keys(es, m);
                let es2 = rewrite_entries(es, m);
                assert forall|i: int| 0 <= i < es2.len() implies !construct_key(#[trigger] es2[i].0) by {
                    assert(es2[i].0 == es[i].0);
                }
                lemma_no_constructs(es2);
                lemma_ref_only_entries(es, m);
                assert(refs_of(t) =~= refs_of_entries(es));
                assert(refs_of(rewrite(t, m)) =~= refs_of_entries(es2));
            }
        },
        _ => {
            assert(renamed_set(Set::<Seq<char>>::empty(), m) =~= Set::<Seq<char>>::empty());
        },
    }
}

proof fn lemma_renamed_union(a: Set<Seq<char>>, b: Set<Seq<char>>, m: Map<Seq<char>, Seq<char>>)
    ensures
        renamed_set(a.union(b), m) == renamed_set(a, m).union(renamed_set(b, m)),
{
    assert forall|y: Seq<char>| renamed_set(a.union(b), m).contains(y) implies renamed_set(a, m).union(
        renamed_set(b, m),
    ).contains(y) by {
        let x = choose|x: Seq<char>| a.union(b).contains(x) && renamed(m, x) == y;
        if a.contains(x) {
            assert(renamed_set(a, m).contains(y));
        } else {
            assert(renamed_set(b, m).contains(y));
        }
    }
    assert forall|y: Seq<char>| renamed_set(a, m).union(renamed_set(b, m)).contains(y) implies renamed_set(
        a.union(b),
        m,
    ).contains(y) by {
        if renamed_set(a, m).contains(y) {
            let x = choose|x: Seq<char>| a.contains(x) && renamed(m, x) == y;
            assert(a.union(b).contains(x));
        } else {
            let x = choose|x: Seq<char>| b.contains(x) && renamed(m, x) == y;
            assert(a.union(b).contains(x));
        }
    }
    assert(renamed_set(a.union(b), m) =~= renamed_set(a, m).union(renamed_set(b, m)));
}

proof fn lemma_ref_only_list(s: Seq<Tree>, m: Map<Seq<char>, Seq<char>>)
    requires
        ref_only_list(s),
        plain_targets(m),
    ensures
        refs_of_list(rewrite_list(s, m)) == renamed_set(refs_of_list(s), m),
    decreases s, 0int,
{
    if s.len() == 0 {
        assert(renamed_set(Set::<Seq<char>>::empty(), m) =~= Set::<Seq<char>>::empty());
    } else {
        let p = s.subrange(0, s.len() - 1);
        lemma_ref_only_list(p, m);
        lemma_ref_only_rewrite(s[s.len() - 1], m);
        let r = rewrite_list(s, m);
        assert(r.subrange(0, r.len() - 1) =~= rewrite_list(p, m));
        lemma_renamed_union(refs_of_list(p), refs_of(s[s.len() - 1]), m);
    }
}

proof fn lemma_ref_only_entries(es: Seq<Entry>, m: Map<Seq<char>, Seq<char>>)
    requires
        ref_only_entries(es),
        plain_targets(m),
        forall|i: int| 0 <= i < es.len() ==> !construct_key(#[trigger] es[i].0),
    ensures
        refs_of_entries(rewrite_entries(es, m)) == renamed_set(refs_of_entries(es), m),
    decreases es, 0int,
{
    if es.len() == 0 {
        assert(renamed_set(Set::<Seq<char>>::empty(), m) =~= Set::<Seq<char>>::empty());
    } else {
        let p = es.subrange(0, es.len() - 1);
        assert forall|i: int| 0 <= i < p.len() implies !construct_key(#[trigger] p[i].0) by {
            assert(p[i] == es[i]);
        }
        lemma_ref_only_entries(p, m);
        let last = es[es.len() - 1];
        assert(!construct_key(last.0));
        lemma_ref_only_rewrite(last.1, m);
        assert(rewrite_entry(last.0, last.1, m) == rewrite(last.1, m));
        let r = rewrite_entries(es, m);
        assert(r.subrange(0, r.len() - 1) =~= rewrite_entries(p, m));
        lemma_renamed_union(refs_of_entries(p), refs_of(last.1), m);
    }
}

/// Renaming `b` to `c` in a declaration body that refers to `b` alone, and
/// only through direct references, leaves a body that refers to `c` and
/// never to `b`. The new name is no pseudo parameter.
pub proof fn lemma_rename_redirects_single_reference(body: Tree, b: Seq<char>, c: Seq<char>)
    requires
        ref_only(body),
        refs_of(body) == set![b],
        !is_pseudo(c),
    ensures
        refs_of(rewrite(body, map![b => c])) == set![c],
        !refs_of(rewrite(body, map![b => c])).contains(b) || b == c,
{
    let m = map![b => c];
    assert(plain_targets(m));
    lemma_ref_only_rewrite(body, m);
    assert(renamed_set(set![b], m) =~= set![c]) by {
        assert(renamed(m, b) == c);
    }
}


proof fn lemma_key_index_same_keys(e1: Seq<Entry>, e2: Seq<Entry>, k: Seq<char>)
    requires
        e1.len() == e2.len(),
        forall|i: int| 0 <= i < e1.len() ==> #[trigger] e1[i].0 == e2[i].0,
    ensures
        key_index(e1, k) == key_index(e2, k),
    decreases e1.len(),
{
    if e1.len() > 0 {
        let p1 = e1.drop_last();
        let p2 = e2.drop_last();
        assert forall|i: int| 0 <= i < p1.len() implies #[trigger] p1[i].0 == p2[i].0 by {
            assert(p1[i] == e1[i] && p2[i] == e2[i]);
        }
        lemma_key_index_same_keys(p1, p2, k);
    }
}

/// The entries of an object without construct keys, rewritten: same keys,
/// each value rewritten.
proof fn lemma_plain_object_rewrite(es: Seq<Entry>, m: Map<Seq<char>, Seq<char>>, k: Seq<char>)
    requires
        forall|i: int| 0 <= i < es.len() ==> !construct_key(#[trigger] es[i].0),
    ensures
        rewrite(Tree::Dict(es), m) == Tree::Dict(rewrite_entries(es, m)),
        match field(es, k) {
            Some(v) => field(rewrite_entries(es, m), k) == Some(rewrite(v, m)),
            None => field(rewrite_entries(es, m), k) is None,
        },
{
    lemma_no_key(es, "Ref"@);
    lemma_no_key(es, "Fn::GetAtt"@);
    lemma_rewrite_entries_keys(es, m);
    let r = rewrite_entries(es, m);
    assert forall|i: int| 0 <= i < es.len() implies #[trigger] es[i].0 == r[i].0 by {}
    lemma_key_index_same_keys(es, r, k);
    lemma_key_index(es, k);
}

/// Renaming `b` to `c` in a template whose declaration `a` refers to `b`
/// alone, and only through direct references, and re-indexing it: `a` is
/// reported as referring to `c`, and to nothing else. The template's top
/// level and its `Resources` object hold no reference construct keys and
/// the declarations have distinct names; `c` is no pseudo parameter.
pub proof fn lemma_rename_then_reindex(t: Tree, a: Seq<char>, b: Seq<char>, c: Seq<char>)
    requires
        t is Dict,
        forall|i: int| 0 <= i < (t->Dict_0).len() ==> !construct_key(#[trigger] (t->Dict_0)[i].0),
        section(t, "Resources"@) is Some,
        distinct_keys(section(t, "Resources"@)->0),
        forall|i: int|
            0 <= i < (section(t, "Resources"@)->0).len() ==> !construct_key(
                #[trigger] (section(t, "Resources"@)->0)[i].0,
            ),
        field(section(t, "Resources"@)->0, a) is Some,
        ref_only(field(section(t, "Resources"@)->0, a)->0),
        refs_of(field(section(t, "Resources"@)->0, a)->0) == set![b],
        !is_pseudo(c),
        a != "Outputs"@,
    ensures
        template_index(rewrite(t, map![b => c])).contains_key(a),
        template_index(rewrite(t, map![b => c]))[a] == set![c],
{
    let m = map![b => c];
    let es = t->Dict_0;
    let rs = section(t, "Resources"@)->0;
    let body = field(rs, a)->0;
    lemma_plain_object_rewrite(es, m, "Resources"@);
    lemma_plain_object_rewrite(rs, m, a);
    let t2 = rewrite(t, m);
    let rs2 = rewrite_entries(rs, m);
    assert(section(t2, "Resources"@) == Some(rs2));
    lemma_rewrite_entries_keys(rs, m);
    assert(distinct_keys(rs2)) by {
        assert forall|i: int, j: int| 0 <= i < j < rs2.len() implies rs2[i].0 != rs2[j].0 by {
            assert(rs2[i].0 == rs[i].0 && rs2[j].0 == rs[j].0);
        }
    }
    assert(field(rs2, a) == Some(rewrite(body, m)));
    lemma_rename_redirects_single_reference(body, b, c);
    lemma_index_reports_declaration_body(t2, a);
    assert(set![c].contains(c));
}


proof fn lemma_resource_index_any(rs: Seq<Entry>)
    ensures
        forall|k: Seq<char>|
            #[trigger] resource_index(rs).contains_key(k) <==> exists|i: int|
                0 <= i < rs.len() && rs[i].0 == k && refs_of(rs[i].1) != Set::<Seq<char>>::empty(),
        forall|k: Seq<char>|
            #[trigger] resource_index(rs).contains_key(k) ==> resource_index(rs)[k] != Set::<
                Seq<char>,
            >::empty(),
        forall|i: int|
            0 <= i < rs.len() && refs_of(rs[i].1) != Set::<Seq<char>>::empty() && (forall|j: int|
                i < j < rs.len() && rs[j].0 == rs[i].0 ==> #[trigger] refs_of(rs[j].1) == Set::<
                    Seq<char>,
                >::empty()) ==> #[trigger] resource_index(rs)[rs[i].0] == refs_of(rs[i].1),
    decreases rs.len(),
{
    if rs.len() > 0 {
        let p = rs.drop_last();
        lemma_resource_index_any(p);
        let l = rs.len() - 1;
        assert forall|k: Seq<char>| #[trigger] resource_index(rs).contains_key(k) implies exists|i: int|
            0 <= i < rs.len() && rs[i].0 == k && refs_of(rs[i].1) != Set::<Seq<char>>::empty() by {
            if k == rs[l].0 && refs_of(rs[l].1) != Set::<Seq<char>>::empty() {
            } else {
                assert(resource_index(p).contains_key(k));
                let i = choose|i: int|
                    0 <= i < p.len() && p[i].0 == k && refs_of(p[i].1) != Set::<Seq<char>>::empty();
                assert(rs[i] == p[i]);
            }
        }
        assert forall|k: Seq<char>|
            (exists|i: int|
                0 <= i < rs.len() && rs[i].0 == k && refs_of(rs[i].1) != Set::<
                    Seq<char>,
                >::empty()) implies #[trigger] resource_index(rs).contains_key(k) by {
            let i = choose|i: int|
                0 <= i < rs.len() && rs[i].0 == k && refs_of(rs[i].1) != Set::<Seq<char>>::empty();
            if i < l {
                assert(p[i] == rs[i]);
                assert(resource_index(p).contains_key(k));
            }
        }
        assert forall|k: Seq<char>| #[trigger] resource_index(rs).contains_key(k) implies resource_index(
            rs,
        )[k] != Set::<Seq<char>>::empty() by {
            if k != rs[l].0 || refs_of(rs[l].1) == Set::<Seq<char>>::empty() {
                assert(resource_index(p).contains_key(k));
            }
        }
        assert forall|i: int|
            0 <= i < rs.len() && refs_of(rs[i].1) != Set::<Seq<char>>::empty() && (forall|j: int|
                i < j < rs.len() && rs[j].0 == rs[i].0 ==> #[trigger] refs_of(rs[j].1) == Set::<
                    Seq<char>,
                >::empty()) implies #[trigger] resource_index(rs)[rs[i].0] == refs_of(rs[i].1) by {
            if i < l {
                assert(p[i] == rs[i]);
                assert forall|j: int|
                    i < j < p.len() && p[j].0 == p[i].0 implies #[trigger] refs_of(p[j].1) == Set::<
                        Seq<char>,
                    >::empty() by {
                    assert(p[j] == rs[j]);
                }
                assert(resource_index(p)[p[i].0] == refs_of(p[i].1));
                if rs[l].0 == rs[i].0 {
                    assert(refs_of(rs[l].1) == Set::<Seq<char>>::empty());
                }
            }
        }
    }
}

proof fn lemma_nonempty_witness(s: Set<Seq<char>>)
    requires
        s != Set::<Seq<char>>::empty(),
    ensures
        exists|x: Seq<char>| s.contains(x),
{
    if !exists|x: Seq<char>| s.contains(x) {
        assert(s =~= Set::<Seq<char>>::empty());
    }
}

proof fn lemma_refs_of_entries_nonempty(es: Seq<Entry>)
    ensures
        (refs_of_entries(es) != Set::<Seq<char>>::empty()) <==> exists|i: int|
            0 <= i < es.len() && #[trigger] refs_of(es[i].1) != Set::<Seq<char>>::empty(),
    decreases es.len(),
{
    if es.len() > 0 {
        let p = es.subrange(0, es.len() - 1);
        lemma_refs_of_entries_nonempty(p);
        let l = es.len() - 1;
        if refs_of_entries(es) != Set::<Seq<char>>::empty() {
            lemma_nonempty_witness(refs_of_entries(es));
            let x = choose|x: Seq<char>| refs_of_entries(es).contains(x);
            if !refs_of(es[l].1).contains(x) {
                assert(refs_of_entries(p).contains(x));
                assert(refs_of_entries(p) != Set::<Seq<char>>::empty());
                let i = choose|i: int| 0 <= i < p.len() && #[trigger] refs_of(p[i].1) != Set::<Seq<char>>::empty();
                assert(p[i] == es[i]);
            } else {
                assert(refs_of(es[l].1) != Set::<Seq<char>>::empty());
            }
        } else {
            assert(refs_of_entries(es) =~= Set::<Seq<char>>::empty());
        }
        if exists|i: int| 0 <= i < es.len() && #[trigger] refs_of(es[i].1) != Set::<Seq<char>>::empty() {
            let i = choose|i: int| 0 <= i < es.len() && #[trigger] refs_of(es[i].1) != Set::<Seq<char>>::empty();
            lemma_nonempty_witness(refs_of(es[i].1));
            let x = choose|x: Seq<char>| refs_of(es[i].1).contains(x);
            if i < l {
                assert(p[i] == es[i]);
                assert(refs_of_entries(p) != Set::<Seq<char>>::empty());
                lemma_nonempty_witness(refs_of_entries(p));
                let y = choose|y: Seq<char>| refs_of_entries(p).contains(y);
                assert(refs_of_entries(es).contains(y));
            } else {
                assert(refs_of(es[l].1).contains(x));
                assert(refs_of_entries(es).contains(x));
            }
        }
    }
}

/// The reference index holds a declaration exactly when some entry of the
/// `Resources` object under its name has a body that refers to at least one
/// name through a reference construct (a direct reference that is no pseudo
/// parameter, an attribute reference, an interpolation placeholder, or an
/// ordering on a declaration). It then holds the names of the last such
/// entry. Declaration names need not be distinct; `Outputs` stands for the
/// outputs.
pub proof fn lemma_index_reports_referencing_declarations(t: Tree, d: Seq<char>)
    requires
        section(t, "Resources"@) is Some,
        d != "Outputs"@,
    ensures
        ({
            let rs = section(t, "Resources"@)->0;
            &&& template_index(t).contains_key(d) <==> exists|i: int|
                0 <= i < rs.len() && rs[i].0 == d && refs_of(rs[i].1) != Set::<Seq<char>>::empty()
            &&& forall|i: int|
                0 <= i < rs.len() && rs[i].0 == d && refs_of(rs[i].1) != Set::<Seq<char>>::empty() && (
                forall|j: int|
                    i < j < rs.len() && rs[j].0 == d ==> #[trigger] refs_of(rs[j].1) == Set::<
                        Seq<char>,
                    >::empty()) ==> #[trigger] template_index(t)[rs[i].0] == refs_of(rs[i].1)
        }),
{
    let rs = section(t, "Resources"@)->0;
    lemma_resource_index_any(rs);
    assert(template_index(t).contains_key(d) == resource_index(rs).contains_key(d));
}

/// The keys of the reference index are `Outputs` and names of declarations;
/// no name in it refers to nothing. When no declaration is named `Outputs`,
/// the index holds `Outputs` exactly when some output refers to a name, and
/// then holds every name that the outputs refer to, pooled.
pub proof fn lemma_index_shape(t: Tree)
    ensures
        forall|k: Seq<char>|
            #[trigger] template_index(t).contains_key(k) ==> k == "Outputs"@ || (section(
                t,
                "Resources"@,
            ) is Some && exists|i: int|
                0 <= i < (section(t, "Resources"@)->0).len() && (section(t, "Resources"@)->0)[i].0
                    == k),
        forall|k: Seq<char>|
            #[trigger] template_index(t).contains_key(k) ==> template_index(t)[k] != Set::<
                Seq<char>,
            >::empty(),
        (section(t, "Resources"@) is None || forall|i: int|
            0 <= i < (section(t, "Resources"@)->0).len() ==> #[trigger] (section(
                t,
                "Resources"@,
            )->0)[i].0 != "Outputs"@) ==> {
            &&& template_index(t).contains_key("Outputs"@) <==> (section(t, "Outputs"@) is Some
                && exists|i: int|
                0 <= i < (section(t, "Outputs"@)->0).len() && #[trigger] refs_of(
                    (section(t, "Outputs"@)->0)[i].1,
                ) != Set::<Seq<char>>::empty())
            &&& template_index(t).contains_key("Outputs"@) ==> template_index(t)["Outputs"@]
                == refs_of_entries(section(t, "Outputs"@)->0)
        },
{
    let base = match section(t, "Resources"@) {
        Some(rs) => resource_index(rs),
        None => Map::<Seq<char>, Set<Seq<char>>>::empty(),
    };
    match section(t, "Resources"@) {
        Some(rs) => {
            lemma_resource_index_any(rs);
            assert forall|k: Seq<char>| #[trigger] base.contains_key(k) implies exists|i: int|
                0 <= i < rs.len() && rs[i].0 == k by {
                let i = choose|i: int|
                    0 <= i < rs.len() && rs[i].0 == k && refs_of(rs[i].1) != Set::<Seq<char>>::empty();
            }
        },
        None => {},
    }
    match section(t, "Outputs"@) {
        Some(os) => {
            lemma_refs_of_entries_nonempty(os);
        },
        None => {},
    }
    if section(t, "Resources"@) is None || forall|i: int|
        0 <= i < (section(t, "Resources"@)->0).len() ==> #[trigger] (section(t, "Resources"@)->0)[i].0
            != "Outputs"@ {
        if base.contains_key("Outputs"@) {
            let rs = section(t, "Resources"@)->0;
            let i = choose|i: int| 0 <= i < rs.len() && rs[i].0 == "Outputs"@;
            assert(rs[i].0 != "Outputs"@);
        }
    }
}


/// Renaming `b` to `c` in a template whose only reference is from `a` to
/// `b` (its index is exactly `{a: {b}}`), where every declaration refers by
/// direct references alone and there is no outputs section: the re-indexed
/// template has exactly `{a: {c}}`. The template's top level and its
/// `Resources` object hold no reference construct keys and the declarations
/// have distinct names; `c` is no pseudo parameter.
pub proof fn lemma_rename_then_reindex_whole(t: Tree, a: Seq<char>, b: Seq<char>, c: Seq<char>)
    requires
        t is Dict,
        forall|i: int| 0 <= i < (t->Dict_0).len() ==> !construct_key(#[trigger] (t->Dict_0)[i].0),
        section(t, "Resources"@) is Some,
        section(t, "Outputs"@) is None,
        distinct_keys(section(t, "Resources"@)->0),
        forall|i: int|
            0 <= i < (section(t, "Resources"@)->0).len() ==> !construct_key(
                #[trigger] (section(t, "Resources"@)->0)[i].0,
            ),
        forall|i: int|
            0 <= i < (section(t, "Resources"@)->0).len() ==> ref_only(
                #[trigger] (section(t, "Resources"@)->0)[i].1,
            ),
        template_index(t) == map![a => set![b]],
        !is_pseudo(c),
    ensures
        template_index(rewrite(t, map![b => c])) == map![a => set![c]],
{
    let m = map![b => c];
    assert(plain_targets(m));
    let es = t->Dict_0;
    let rs = section(t, "Resources"@)->0;
    lemma_plain_object_rewrite(es, m, "Resources"@);
    lemma_plain_object_rewrite(es, m, "Outputs"@);
    lemma_plain_object_rewrite(rs, m, a);
    let t2 = rewrite(t, m);
    let rs2 = rewrite_entries(rs, m);
    assert(section(t2, "Resources"@) == Some(rs2));
    match field(es, "Outputs"@) {
        Some(o) => {
            assert(!(o is Dict));
            assert(!(rewrite(o, m) is Dict));
        },
        None => {},
    }
    assert(section(t2, "Outputs"@) is None);
    lemma_rewrite_entries_keys(rs, m);
    assert(distinct_keys(rs2)) by {
        assert forall|i: int, j: int| 0 <= i < j < rs2.len() implies rs2[i].0 != rs2[j].0 by {
            assert(rs2[i].0 == rs[i].0 && rs2[j].0 == rs[j].0);
        }
    }
    lemma_resource_index(rs);
    lemma_resource_index(rs2);
    assert(template_index(t) == resource_index(rs));
    assert(template_index(t2) == resource_index(rs2));
    assert forall|i: int| 0 <= i < rs.len() implies #[trigger] refs_of(rs2[i].1) == renamed_set(
        refs_of(rs[i].1),
        m,
    ) by {
        lemma_ref_only_rewrite(rs[i].1, m);
    }
    assert(resource_index(rs).contains_key(a));
    let ia = choose|i: int|
        0 <= i < rs.len() && rs[i].0 == a && refs_of(rs[i].1) != Set::<Seq<char>>::empty();
    assert(resource_index(rs)[rs[ia].0] == refs_of(rs[ia].1));
    assert(map![a => set![b]][a] == set![b]);
    assert(refs_of(rs[ia].1) == set![b]);
    assert(renamed_set(set![b], m) =~= set![c]) by {
        assert(renamed(m, b) == c);
    }
    assert(refs_of(rs2[ia].1) == set![c]);
    assert(set![c].contains(c));
    assert forall|k: Seq<char>| #[trigger] resource_index(rs2).contains_key(k) implies k == a by {
        let i = choose|i: int|
            0 <= i < rs2.len() && rs2[i].0 == k && refs_of(rs2[i].1) != Set::<Seq<char>>::empty();
        if refs_of(rs[i].1) == Set::<Seq<char>>::empty() {
            assert(renamed_set(Set::<Seq<char>>::empty(), m) =~= Set::<Seq<char>>::empty());
        }
        assert(resource_index(rs).contains_key(rs[i].0));
    }
    assert(resource_index(rs2).contains_key(rs2[ia].0));
    assert(resource_index(rs2) =~= map![a => set![c]]);
}

} // verus!
