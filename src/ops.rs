//! Operators that retain, remove, copy and default declarations of templates.

use crate::index::section;
use crate::rewrite::IdMapping;
use crate::text::{contains_name, name_set, str_eq};
use crate::value::{
    field, lemma_tree_entries, lemma_tree_entries_push, set_field, tree_entries, with_field, Entry,
    Tree, Value,
};
use vstd::prelude::*;

verus! {

/// `t` with its declarations section replaced by `rs`.
pub open spec fn with_resources(t: Tree, rs: Seq<Entry>) -> Tree {
    match t {
        Tree::Dict(es) => Tree::Dict(with_field(es, "Resources"@, Tree::Dict(rs))),
        _ => t,
    }
}

/// `t` with its declarations section transformed by `f`; a template without
/// one is left as it is.
pub open spec fn map_resources(t: Tree, f: spec_fn(Seq<Entry>) -> Seq<Entry>) -> Tree {
    match section(t, "Resources"@) {
        Some(rs) => with_resources(t, f(rs)),
        None => t,
    }
}

/// The declarations with `DeletionPolicy: Retain` set on those named in `ids`.
pub open spec fn retained(rs: Seq<Entry>, ids: Set<Seq<char>>) -> Seq<Entry> {
    Seq::new(
        rs.len(),
        |i: int|
            if ids.contains(rs[i].0) && rs[i].1 is Dict {
                (rs[i].0, Tree::Dict(with_field(rs[i].1->Dict_0, "DeletionPolicy"@, Tree::Text("Retain"@))))
            } else {
                rs[i]
            },
    )
}

/// The declarations without those named in `ids`.
pub open spec fn removed(rs: Seq<Entry>, ids: Set<Seq<char>>) -> Seq<Entry>
    decreases rs.len(),
{
    if rs.len() == 0 {
        rs
    } else if ids.contains(rs.last().0) {
        removed(rs.drop_last(), ids)
    } else {
        removed(rs.drop_last(), ids).push(rs.last())
    }
}

/// Whether a relational instance names the cluster it belongs to.
pub open spec fn names_cluster(es: Seq<Entry>) -> bool {
    match field(es, "Properties"@) {
        Some(Tree::Dict(ps)) => field(ps, "DBClusterIdentifier"@) is Some,
        _ => false,
    }
}

/// The deletion policy a declaration gets when it has none: a relational
/// cluster is snapshotted, a relational instance is snapshotted unless it
/// belongs to a cluster, and anything else is deleted.
pub open spec fn default_policy(es: Seq<Entry>) -> Seq<char> {
    match field(es, "Type"@) {
        Some(Tree::Text(ty)) => if ty == "AWS::RDS::DBCluster"@ {
            "Snapshot"@
        } else if ty == "AWS::RDS::DBInstance"@ {
            if names_cluster(es) {
                "Delete"@
            } else {
                "Snapshot"@
            }
        } else {
            "Delete"@
        },
        _ => "Delete"@,
    }
}

/// The declarations with a default deletion policy on those named in `ids`
/// that have none.
pub open spec fn defaulted(rs: Seq<Entry>, ids: Set<Seq<char>>) -> Seq<Entry> {
    Seq::new(
        rs.len(),
        |i: int|
            if ids.contains(rs[i].0) && rs[i].1 is Dict && field(
                rs[i].1->Dict_0,
                "DeletionPolicy"@,
            ) is None {
                (
                    rs[i].0,
                    Tree::Dict(
                        with_field(
                            rs[i].1->Dict_0,
                            "DeletionPolicy"@,
                            Tree::Text(default_policy(rs[i].1->Dict_0)),
                        ),
                    ),
                )
            } else {
                rs[i]
            },
    )
}

/// The target's declarations after copying, for each pair in order, the
/// source declaration named by the first element under the second.
pub open spec fn copied(
    trs: Seq<Entry>,
    srs: Seq<Entry>,
    pairs: Seq<(String, String)>,
) -> Seq<Entry>
    decreases pairs.len(),
{
    if pairs.len() == 0 {
        trs
    } else {
        let acc = copied(trs, srs, pairs.drop_last());
        match field(srs, pairs.last().0@) {
            Some(b) => with_field(acc, pairs.last().1@, b),
            None => acc,
        }
    }
}

/// A template with the named declarations retained.
pub open spec fn retain_spec(t: Tree, ids: Set<Seq<char>>) -> Tree {
    map_resources(t, |rs: Seq<Entry>| retained(rs, ids))
}

/// A template without the named declarations.
pub open spec fn remove_spec(t: Tree, ids: Set<Seq<char>>) -> Tree {
    map_resources(t, |rs: Seq<Entry>| removed(rs, ids))
}

/// A template with default deletion policies on the named declarations.
pub open spec fn default_spec(t: Tree, ids: Set<Seq<char>>) -> Tree {
    map_resources(t, |rs: Seq<Entry>| defaulted(rs, ids))
}

/// The target template with the source declarations copied in, pair by pair;
/// a template without a declarations section is left as it is.
pub open spec fn add_spec(target: Tree, source: Tree, pairs: Seq<(String, String)>) -> Tree {
    match (section(target, "Resources"@), section(source, "Resources"@)) {
        (Some(trs), Some(srs)) => with_resources(target, copied(trs, srs, pairs)),
        _ => target,
    }
}

/// The declarations section of a template, when it has one.
fn resources_of(template: &Value) -> (r: Option<&Vec<(String, Value)>>)
    ensures
        match r {
            Some(rs) => section(template@, "Resources"@) == Some(tree_entries(rs@)),
            None => section(template@, "Resources"@) is None,
        },
{
    match template.get("Resources") {
        Some(Value::Object(rs)) => Some(rs),
        _ => None,
    }
}

/// A copy of `template` whose declarations section is `rs`.
fn replace_resources(template: &Value, rs: Vec<(String, Value)>) -> (r: Value)
    requires
        template@ is Dict,
    ensures
        r@ == with_resources(template@, tree_entries(rs@)),
{
    match template.copy() {
        Value::Object(mut es) => {
            set_field(&mut es, "Resources", Value::Object(rs));
            Value::Object(es)
        },
        other => other,
    }
}

/// Sets `DeletionPolicy: Retain` on each named declaration; names that the
/// template does not declare are ignored.
pub fn retain_resources(template: Value, resource_ids: &Vec<String>) -> (r: Value)
    ensures
        r@ == retain_spec(template@, name_set(resource_ids@)),
{
    let ghost ids = name_set(resource_ids@);
    match resources_of(&template) {
        Some(rs) => {
            proof {
                lemma_tree_entries(rs@);
            }
            let ghost model = tree_entries(rs@);
            let mut out: Vec<(String, Value)> = Vec::new();
            let mut i: usize = 0;
            while i < rs.len()
                invariant
                    i <= rs.len(),
                    model == tree_entries(rs@),
                    model.len() == rs.len(),
                    ids == name_set(resource_ids@),
                    forall|j: int| 0 <= j < rs.len() ==> #[trigger] model[j] == (rs@[j].0@, rs@[j].1@),
                    tree_entries(out@) == retained(model, ids).take(i as int),
                decreases rs.len() - i,
            {
                let body = if contains_name(resource_ids, rs[i].0.as_str()) {
                    match rs[i].1.copy() {
                        Value::Object(mut es) => {
                            set_field(&mut es, "DeletionPolicy", Value::String("Retain".to_owned()));
                            Value::Object(es)
                        },
                        other => other,
                    }
                } else {
                    rs[i].1.copy()
                };
                let x = (rs[i].0.clone(), body);
                proof {
                    lemma_tree_entries_push(out@, x);
                }
                out.push(x);
                assert(tree_entries(out@) =~= retained(model, ids).take(i + 1));
                i = i + 1;
            }
            assert(retained(model, ids).take(rs.len() as int) =~= retained(model, ids));
            replace_resources(&template, out)
        },
        None => template,
    }
}

/// Deletes each named declaration.
pub fn remove_resources(template: Value, resource_ids: &Vec<String>) -> (r: Value)
    ensures
        r@ == remove_spec(template@, name_set(resource_ids@)),
{
    let ghost ids = name_set(resource_ids@);
    match resources_of(&template) {
        Some(rs) => {
            proof {
                lemma_tree_entries(rs@);
            }
            let ghost model = tree_entries(rs@);
            let mut out: Vec<(String, Value)> = Vec::new();
            let mut i: usize = 0;
            assert(model.take(0) =~= Seq::<Entry>::empty());
            while i < rs.len()
                invariant
                    i <= rs.len(),
                    model == tree_entries(rs@),
                    model.len() == rs.len(),
                    ids == name_set(resource_ids@),
                    forall|j: int| 0 <= j < rs.len() ==> #[trigger] model[j] == (rs@[j].0@, rs@[j].1@),
                    tree_entries(out@) == removed(model.take(i as int), ids),
                decreases rs.len() - i,
            {
                assert(model.take(i + 1).drop_last() =~= model.take(i as int));
                if !contains_name(resource_ids, rs[i].0.as_str()) {
                    let x = (rs[i].0.clone(), rs[i].1.copy());
                    proof {
                        lemma_tree_entries_push(out@, x);
                    }
                    out.push(x);
                }
                i = i + 1;
            }
            assert(model.take(rs.len() as int) =~= model);
            replace_resources(&template, out)
        },
        None => template,
    }
}

/// A copy of a list of entries.
fn copy_entries(es: &Vec<(String, Value)>) -> (r: Vec<(String, Value)>)
    ensures
        tree_entries(r@) == tree_entries(es@),
{
    proof {
        lemma_tree_entries(es@);
    }
    let mut out: Vec<(String, Value)> = Vec::new();
    let mut i: usize = 0;
    while i < es.len()
        invariant
            i <= es.len(),
            tree_entries(es@).len() == es.len(),
            forall|j: int|
                0 <= j < es.len() ==> #[trigger] tree_entries(es@)[j] == (es@[j].0@, es@[j].1@),
            tree_entries(out@) == tree_entries(es@).take(i as int),
        decreases es.len() - i,
    {
        let x = (es[i].0.clone(), es[i].1.copy());
        proof {
            lemma_tree_entries_push(out@, x);
        }
        out.push(x);
        assert(tree_entries(out@) =~= tree_entries(es@).take(i + 1));
        i = i + 1;
    }
    assert(tree_entries(es@).take(es.len() as int) =~= tree_entries(es@));
    out
}

/// Copies into the target, for each pair of the mapping in order, the source
/// declaration named by the old identifier, under the new one. A declaration
/// of the target with that name is overwritten.
pub fn add_resources(target_template: Value, source_template: &Value, resource_id_map: &IdMapping) -> (r: Value)
    ensures
        r@ == add_spec(target_template@, source_template@, resource_id_map.pairs@),
{
    let merged = match (resources_of(&target_template), resources_of(source_template)) {
        (Some(trs), Some(srs)) => {
            proof {
                lemma_tree_entries(srs@);
            }
            let ghost tmodel = tree_entries(trs@);
            let ghost smodel = tree_entries(srs@);
            let pairs = &resource_id_map.pairs;
            let mut acc = copy_entries(trs);
            let mut k: usize = 0;
            assert(pairs@.take(0) =~= Seq::<(String, String)>::empty());
            while k < pairs.len()
                invariant
                    k <= pairs@.len(),
                    *pairs == resource_id_map.pairs,
                    smodel == tree_entries(srs@),
                    smodel.len() == srs.len(),
                    forall|j: int| 0 <= j < srs.len() ==> #[trigger] smodel[j] == (srs@[j].0@, srs@[j].1@),
                    tree_entries(acc@) == copied(tmodel, smodel, pairs@.take(k as int)),
                decreases pairs@.len() - k,
            {
                assert(pairs@.take(k + 1).drop_last() =~= pairs@.take(k as int));
                proof {
                    crate::value::lemma_key_index(smodel, pairs@[k as int].0@);
                }
                match crate::value::find_key(srs, pairs[k].0.as_str()) {
                    Some(p) => {
                        set_field(&mut acc, pairs[k].1.as_str(), srs[p].1.copy());
                    },
                    None => {},
                }
                k = k + 1;
            }
            assert(pairs@.take(pairs@.len() as int) =~= pairs@);
            Some(replace_resources(&target_template, acc))
        },
        _ => None,
    };
    match merged {
        Some(r) => r,
        None => target_template,
    }
}

/// Gives each named declaration that has no deletion policy the default one
/// for its type.
pub fn apply_default_retention(template: Value, resource_ids: &Vec<String>) -> (r: Value)
    ensures
        r@ == default_spec(template@, name_set(resource_ids@)),
{
    let ghost ids = name_set(resource_ids@);
    let result = match resources_of(&template) {
        Some(rs) => {
            proof {
                lemma_tree_entries(rs@);
            }
            let ghost model = tree_entries(rs@);
            let mut out: Vec<(String, Value)> = Vec::new();
            let mut i: usize = 0;
            while i < rs.len()
                invariant
                    i <= rs.len(),
                    model == tree_entries(rs@),
                    model.len() == rs.len(),
                    ids == name_set(resource_ids@),
                    forall|j: int| 0 <= j < rs.len() ==> #[trigger] model[j] == (rs@[j].0@, rs@[j].1@),
                    tree_entries(out@) == defaulted(model, ids).take(i as int),
                decreases rs.len() - i,
            {
                let body = &rs[i].1;
                let nb = if contains_name(resource_ids, rs[i].0.as_str()) && body.get(
                    "DeletionPolicy",
                ).is_none() {
                    match body.copy() {
                        Value::Object(mut es) => {
                            let policy = default_deletion_policy(body);
                            set_field(&mut es, "DeletionPolicy", Value::String(policy));
                            Value::Object(es)
                        },
                        other => other,
                    }
                } else {
                    body.copy()
                };
                let x = (rs[i].0.clone(), nb);
                proof {
                    lemma_tree_entries_push(out@, x);
                }
                out.push(x);
                assert(tree_entries(out@) =~= defaulted(model, ids).take(i + 1));
                i = i + 1;
            }
            assert(defaulted(model, ids).take(rs.len() as int) =~= defaulted(model, ids));
            Some(replace_resources(&template, out))
        },
        None => None,
    };
    match result {
        Some(r) => r,
        None => template,
    }
}

/// The default deletion policy of a declaration (an object).
pub fn default_deletion_policy(body: &Value) -> (r: String)
    requires
        body@ is Dict,
    ensures
        r@ == default_policy(body@->Dict_0),
{
    match body.get("Type") {
        Some(Value::String(ty)) => {
            if str_eq(ty.as_str(), "AWS::RDS::DBCluster") {
                "Snapshot".to_owned()
            } else if str_eq(ty.as_str(), "AWS::RDS::DBInstance") {
                let in_cluster = match body.get("Properties") {
                    Some(props) => match props {
                        Value::Object(_) => props.get("DBClusterIdentifier").is_some(),
                        _ => false,
                    },
                    None => false,
                };
                if in_cluster {
                    "Delete".to_owned()
                } else {
                    "Snapshot".to_owned()
                }
            } else {
                "Delete".to_owned()
            }
        },
        _ => "Delete".to_owned(),
    }
}

} // verus!
