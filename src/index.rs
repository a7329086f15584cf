//! The reference index: which names each declaration of a template refers to.

use crate::text::{
    add_name, chars_of, dot_end, extract_sub_references, is_pseudo, is_pseudo_parameter,
    name_set, str_eq, sub_names,
};
use crate::value::{field, lemma_tree_entries, lemma_trees, tree_entries, Entry, Tree, Value};
use vstd::prelude::*;

verus! {

/// The names that the string items of a list hold.
pub open spec fn text_items(s: Seq<Tree>) -> Set<Seq<char>>
    decreases s.len(),
{
    if s.len() == 0 {
        Set::empty()
    } else {
        let rest = text_items(s.drop_last());
        match s.last() {
            Tree::Text(d) => rest.insert(d),
            _ => rest,
        }
    }
}

/// A direct reference `{"Ref": name}`, unless the name is a pseudo parameter.
pub open spec fn ref_refs(es: Seq<Entry>) -> Set<Seq<char>> {
    match field(es, "Ref"@) {
        Some(Tree::Text(s)) => if is_pseudo(s) {
            Set::empty()
        } else {
            set![s]
        },
        _ => Set::empty(),
    }
}

/// An attribute reference: `{"Fn::GetAtt": [name, attr]}` or
/// `{"Fn::GetAtt": "name.attr"}`.
pub open spec fn getatt_refs(es: Seq<Entry>) -> Set<Seq<char>> {
    match field(es, "Fn::GetAtt"@) {
        Some(Tree::List(a)) => if a.len() > 0 && a[0] is Text {
            set![a[0]->Text_0]
        } else {
            Set::empty()
        },
        Some(Tree::Text(s)) => set![s.take(dot_end(s, 0))],
        _ => Set::empty(),
    }
}

/// An interpolation: `{"Fn::Sub": template}` or
/// `{"Fn::Sub": [template, variables]}`.
pub open spec fn sub_refs(es: Seq<Entry>) -> Set<Seq<char>> {
    match field(es, "Fn::Sub"@) {
        Some(Tree::Text(s)) => sub_names(s),
        Some(Tree::List(a)) => if a.len() > 0 && a[0] is Text {
            sub_names(a[0]->Text_0)
        } else {
            Set::empty()
        },
        _ => Set::empty(),
    }
}

/// An explicit ordering, `DependsOn`, counted only on a declaration (an
/// object with a `Type`).
pub open spec fn depends_refs(es: Seq<Entry>) -> Set<Seq<char>> {
    if field(es, "Type"@) is Some {
        match field(es, "DependsOn"@) {
            Some(Tree::Text(d)) => set![d],
            Some(Tree::List(a)) => text_items(a),
            _ => Set::empty(),
        }
    } else {
        Set::empty()
    }
}

/// The names that the reference constructs of one object name.
pub open spec fn construct_refs(es: Seq<Entry>) -> Set<Seq<char>> {
    ref_refs(es).union(getatt_refs(es)).union(sub_refs(es)).union(depends_refs(es))
}

/// Every name referred to anywhere inside `t`.
pub open spec fn refs_of(t: Tree) -> Set<Seq<char>>
    decreases t,
{
    match t {
        Tree::List(items) => refs_of_list(items),
        Tree::Dict(es) => construct_refs(es).union(refs_of_entries(es)),
        _ => Set::empty(),
    }
}

/// Every name referred to inside the items of a list.
pub open spec fn refs_of_list(s: Seq<Tree>) -> Set<Seq<char>>
    decreases s,
{
    if s.len() == 0 {
        Set::empty()
    } else {
        refs_of_list(s.subrange(0, s.len() - 1)).union(refs_of(s[s.len() - 1]))
    }
}

/// Every name referred to inside the values of an object.
pub open spec fn refs_of_entries(es: Seq<Entry>) -> Set<Seq<char>>
    decreases es,
{
    if es.len() == 0 {
        Set::empty()
    } else {
        refs_of_entries(es.subrange(0, es.len() - 1)).union(refs_of(es[es.len() - 1].1))
    }
}

fn collect_text_items(items: &Vec<Value>, references: &mut Vec<String>)
    ensures
        name_set(final(references)@) == name_set(old(references)@).union(
            text_items(crate::value::trees(items@)),
        ),
{
    proof {
        lemma_trees(items@);
    }
    let ghost m = crate::value::trees(items@);
    let mut i: usize = 0;
    assert(m.take(0) =~= Seq::<Tree>::empty());
    assert(name_set(references@) =~= name_set(references@).union(Set::empty()));
    while i < items.len()
        invariant
            i <= items.len(),
            m == crate::value::trees(items@),
            m.len() == items.len(),
            forall|j: int| 0 <= j < items.len() ==> #[trigger] m[j] == items@[j]@,
            name_set(references@) == name_set(old(references)@).union(text_items(m.take(i as int))),
        decreases items.len() - i,
    {
        assert(m.take(i + 1).drop_last() =~= m.take(i as int));
        let ghost before = references@;
        match &items[i] {
            Value::String(d) => {
                add_name(references, d.clone());
            },
            _ => {},
        }
        assert(name_set(references@) =~= name_set(old(references)@).union(
            text_items(m.take(i + 1)),
        ));
        i = i + 1;
    }
    assert(m.take(items.len() as int) =~= m);
}

/// Adds the names that the reference constructs of `obj` (an object) name.
fn collect_construct_refs(obj: &Value, references: &mut Vec<String>)
    requires
        obj@ is Dict,
    ensures
        name_set(final(references)@) == name_set(old(references)@).union(
            construct_refs(obj@->Dict_0),
        ),
{
    let ghost es = obj@->Dict_0;
    let ghost r0 = references@;
    match obj.get("Ref") {
        Some(Value::String(s)) => {
            if !is_pseudo_parameter(s.as_str()) {
                add_name(references, s.clone());
            }
        },
        _ => {},
    }
    assert(name_set(references@) =~= name_set(r0).union(ref_refs(es)));
    let ghost r1 = references@;
    match obj.get("Fn::GetAtt") {
        Some(Value::Array(a)) => {
            proof {
                lemma_trees(a@);
            }
            if a.len() > 0 {
                match &a[0] {
                    Value::String(s) => {
                        add_name(references, s.clone());
                    },
                    _ => {},
                }
            }
        },
        Some(Value::String(s)) => {
            let cs = chars_of(s.as_str());
            let mut j: usize = 0;
            while j < cs.len() && cs[j] != '.'
                invariant
                    cs@ == s@,
                    j <= cs.len(),
                    dot_end(s@, 0) == dot_end(s@, j as int),
                decreases cs.len() - j,
            {
                j = j + 1;
            }
            let name = s.as_str().substring_char(0, j).to_owned();
            assert(name@ =~= s@.take(dot_end(s@, 0)));
            add_name(references, name);
        },
        _ => {},
    }
    assert(name_set(references@) =~= name_set(r1).union(getatt_refs(es)));
    let ghost r2 = references@;
    match obj.get("Fn::Sub") {
        Some(Value::String(s)) => {
            extract_sub_references(s.as_str(), references);
        },
        Some(Value::Array(a)) => {
            proof {
                lemma_trees(a@);
            }
            if a.len() > 0 {
                match &a[0] {
                    Value::String(s) => {
                        extract_sub_references(s.as_str(), references);
                    },
                    _ => {},
                }
            }
        },
        _ => {},
    }
    assert(name_set(references@) =~= name_set(r2).union(sub_refs(es)));
    let ghost r3 = references@;
    if obj.get("Type").is_some() {
        match obj.get("DependsOn") {
            Some(Value::String(d)) => {
                add_name(references, d.clone());
            },
            Some(Value::Array(a)) => {
                collect_text_items(a, references);
            },
            _ => {},
        }
    }
    assert(name_set(references@) =~= name_set(r3).union(depends_refs(es)));
    assert(name_set(references@) =~= name_set(r0).union(construct_refs(es)));
}

/// Adds every name that `value` refers to, at any depth.
pub fn collect_references(value: &Value, references: &mut Vec<String>)
    ensures
        name_set(final(references)@) == name_set(old(references)@).union(refs_of(value@)),
    decreases value,
{
    match value {
        Value::Object(es) => {
            collect_construct_refs(value, references);
            let ghost after_constructs = references@;
            proof {
                lemma_tree_entries(es@);
            }
            let ghost m = tree_entries(es@);
            let mut i: usize = 0;
            assert(m.take(0) =~= Seq::<Entry>::empty());
            assert(name_set(references@) =~= name_set(references@).union(Set::empty()));
            while i < es.len()
                invariant
                    i <= es.len(),
                    m == tree_entries(es@),
                    m.len() == es.len(),
                    *value is Object,
                    value->Object_0 == *es,
                    forall|j: int|
                        0 <= j < es.len() ==> #[trigger] m[j] == (es@[j].0@, es@[j].1@),
                    name_set(references@) == name_set(after_constructs).union(
                        refs_of_entries(m.take(i as int)),
                    ),
                decreases es.len() - i,
            {
                assert(m.take(i + 1).subrange(0, i as int) =~= m.take(i as int));
                proof {
                    assert(decreases_to!(*value => value->Object_0));
                    assert(decreases_to!(es => es@));
                    assert(decreases_to!(es@ => es@[i as int]));
                    assert(decreases_to!(es@[i as int] => es@[i as int].1));
                    assert(decreases_to!(value => es@[i as int].1));
                }
                collect_references(&es[i].1, references);
                assert(name_set(references@) =~= name_set(after_constructs).union(
                    refs_of_entries(m.take(i + 1)),
                ));
                i = i + 1;
            }
            assert(m.take(es.len() as int) =~= m);
            assert(name_set(references@) =~= name_set(old(references)@).union(refs_of(value@)));
        },
        Value::Array(items) => {
            proof {
                lemma_trees(items@);
            }
            let ghost m = crate::value::trees(items@);
            let mut i: usize = 0;
            assert(m.take(0) =~= Seq::<Tree>::empty());
            assert(name_set(references@) =~= name_set(references@).union(Set::empty()));
            while i < items.len()
                invariant
                    i <= items.len(),
                    m == crate::value::trees(items@),
                    m.len() == items.len(),
                    *value is Array,
                    value->Array_0 == *items,
                    forall|j: int| 0 <= j < items.len() ==> #[trigger] m[j] == items@[j]@,
                    name_set(references@) == name_set(old(references)@).union(
                        refs_of_list(m.take(i as int)),
                    ),
                decreases items.len() - i,
            {
                assert(m.take(i + 1).subrange(0, i as int) =~= m.take(i as int));
                proof {
                    assert(decreases_to!(*value => value->Array_0));
                    assert(decreases_to!(items => items@));
                    assert(decreases_to!(items@ => items@[i as int]));
                    assert(decreases_to!(value => items@[i as int]));
                }
                collect_references(&items[i], references);
                assert(name_set(references@) =~= name_set(old(references)@).union(
                    refs_of_list(m.take(i + 1)),
                ));
                i = i + 1;
            }
            assert(m.take(items.len() as int) =~= m);
        },
        _ => {
            assert(name_set(references@) =~= name_set(references@).union(refs_of(value@)));
        },
    }
}


/// Declarant name to referenced names; a later entry wins over an earlier one
/// with the same name.
pub open spec fn index_map(s: Seq<(String, Vec<String>)>) -> Map<Seq<char>, Set<Seq<char>>>
    decreases s.len(),
{
    if s.len() == 0 {
        Map::empty()
    } else {
        index_map(s.drop_last()).insert(s.last().0@, name_set(s.last().1@))
    }
}

/// No two entries share a declarant name.
pub open spec fn unique_names(s: Seq<(String, Vec<String>)>) -> bool {
    forall|i: int, j: int| 0 <= i < j < s.len() ==> s[i].0@ != s[j].0@
}

pub proof fn lemma_index_map(s: Seq<(String, Vec<String>)>)
    requires
        unique_names(s),
    ensures
        forall|k: Seq<char>|
            #[trigger] index_map(s).contains_key(k) <==> exists|i: int|
                0 <= i < s.len() && s[i].0@ == k,
        forall|i: int| 0 <= i < s.len() ==> #[trigger] index_map(s)[s[i].0@] == name_set(s[i].1@),
    decreases s.len(),
{
    if s.len() > 0 {
        let p = s.drop_last();
        assert(unique_names(p)) by {
            assert forall|i: int, j: int| 0 <= i < j < p.len() implies p[i].0@ != p[j].0@ by {
                assert(p[i] == s[i] && p[j] == s[j]);
            }
        }
        lemma_index_map(p);
        assert forall|k: Seq<char>| #[trigger] index_map(s).contains_key(k) implies exists|i: int|
            0 <= i < s.len() && s[i].0@ == k by {
            if k != s.last().0@ {
                assert(index_map(p).contains_key(k));
                let i = choose|i: int| 0 <= i < p.len() && p[i].0@ == k;
                assert(s[i].0@ == k);
            }
        }
        assert forall|k: Seq<char>|
            (exists|i: int| 0 <= i < s.len() && s[i].0@ == k) implies #[trigger] index_map(
            s,
        ).contains_key(k) by {
            let i = choose|i: int| 0 <= i < s.len() && s[i].0@ == k;
            if i < s.len() - 1 {
                assert(p[i].0@ == k);
            }
        }
        assert forall|i: int| 0 <= i < s.len() implies #[trigger] index_map(s)[s[i].0@] == name_set(
            s[i].1@,
        ) by {
            if i < s.len() - 1 {
                assert(p[i] == s[i]);
                assert(s[i].0@ != s.last().0@);
            }
        }
    }
}

proof fn lemma_index_map_update(s: Seq<(String, Vec<String>)>, i: int, x: (String, Vec<String>))
    requires
        unique_names(s),
        0 <= i < s.len(),
        s[i].0@ == x.0@,
    ensures
        index_map(s.update(i, x)) == index_map(s).insert(x.0@, name_set(x.1@)),
    decreases s.len(),
{
    let u = s.update(i, x);
    if i == s.len() - 1 {
        assert(u.drop_last() =~= s.drop_last());
        assert(index_map(u) =~= index_map(s).insert(x.0@, name_set(x.1@)));
    } else {
        let p = s.drop_last();
        assert(unique_names(p)) by {
            assert forall|a: int, b: int| 0 <= a < b < p.len() implies p[a].0@ != p[b].0@ by {
                assert(p[a] == s[a] && p[b] == s[b]);
            }
        }
        assert(u.drop_last() =~= p.update(i, x));
        lemma_index_map_update(p, i, x);
        assert(s.last().0@ != x.0@);
        assert(index_map(u) =~= index_map(s).insert(x.0@, name_set(x.1@)));
    }
}

/// The references of a template, by declarant.
pub struct ReferenceIndex {
    pub entries: Vec<(String, Vec<String>)>,
}

impl View for ReferenceIndex {
    type V = Map<Seq<char>, Set<Seq<char>>>;

    open spec fn view(&self) -> Map<Seq<char>, Set<Seq<char>>> {
        index_map(self.entries@)
    }
}

impl ReferenceIndex {
    pub open spec fn wf(&self) -> bool {
        unique_names(self.entries@)
    }

    /// An index with no declarant.
    pub fn new() -> (r: ReferenceIndex)
        ensures
            r.wf(),
            r@ == Map::<Seq<char>, Set<Seq<char>>>::empty(),
    {
        ReferenceIndex { entries: Vec::new() }
    }

    fn position(&self, name: &str) -> (r: Option<usize>)
        ensures
            match r {
                Some(i) => i < self.entries@.len() && self.entries@[i as int].0@ == name@,
                None => forall|i: int|
                    0 <= i < self.entries@.len() ==> #[trigger] self.entries@[i].0@ != name@,
            },
    {
        let mut i: usize = 0;
        while i < self.entries.len()
            invariant
                i <= self.entries@.len(),
                forall|j: int| 0 <= j < i ==> #[trigger] self.entries@[j].0@ != name@,
            decreases self.entries@.len() - i,
        {
            if str_eq(self.entries[i].0.as_str(), name) {
                return Some(i);
            }
            i = i + 1;
        }
        None
    }

    /// Records that `name` refers to exactly the names in `targets`.
    pub fn insert(&mut self, name: String, targets: Vec<String>)
        requires
            old(self).wf(),
        ensures
            final(self).wf(),
            final(self)@ == old(self)@.insert(name@, name_set(targets@)),
    {
        match self.position(name.as_str()) {
            Some(i) => {
                proof {
                    lemma_index_map_update(self.entries@, i as int, (name, targets));
                }
                self.entries.set(i, (name, targets));
            },
            None => {
                let ghost before = self.entries@;
                self.entries.push((name, targets));
                assert(self.entries@.drop_last() =~= before);
            },
        }
    }

    /// The names that `name` refers to, if it refers to any.
    pub fn get(&self, name: &str) -> (r: Option<&Vec<String>>)
        requires
            self.wf(),
        ensures
            match r {
                Some(v) => self@.contains_key(name@) && self@[name@] == name_set(v@),
                None => !self@.contains_key(name@),
            },
    {
        proof {
            lemma_index_map(self.entries@);
        }
        match self.position(name) {
            Some(i) => Some(&self.entries[i].1),
            None => None,
        }
    }

    /// Whether `declarant` refers to `target`.
    pub fn contains(&self, declarant: &str, target: &str) -> (r: bool)
        requires
            self.wf(),
        ensures
            r == (self@.contains_key(declarant@) && self@[declarant@].contains(target@)),
    {
        match self.get(declarant) {
            Some(v) => crate::text::contains_name(v, target),
            None => false,
        }
    }
}

/// The object stored under `name` in the top level of a template.
pub open spec fn section(t: Tree, name: Seq<char>) -> Option<Seq<Entry>> {
    match t {
        Tree::Dict(es) => match field(es, name) {
            Some(Tree::Dict(s)) => Some(s),
            _ => None,
        },
        _ => None,
    }
}

/// Each declaration that refers to something, with what it refers to.
pub open spec fn resource_index(rs: Seq<Entry>) -> Map<Seq<char>, Set<Seq<char>>>
    decreases rs.len(),
{
    if rs.len() == 0 {
        Map::empty()
    } else {
        let m = resource_index(rs.drop_last());
        let r = refs_of(rs.last().1);
        if r == Set::<Seq<char>>::empty() {
            m
        } else {
            m.insert(rs.last().0, r)
        }
    }
}

/// The reference index of a template: its declarations, and the outputs
/// together under `Outputs`.
pub open spec fn template_index(t: Tree) -> Map<Seq<char>, Set<Seq<char>>> {
    let base = match section(t, "Resources"@) {
        Some(rs) => resource_index(rs),
        None => Map::empty(),
    };
    match section(t, "Outputs"@) {
        Some(os) => if refs_of_entries(os) == Set::<Seq<char>>::empty() {
            base
        } else {
            base.insert("Outputs"@, refs_of_entries(os))
        },
        None => base,
    }
}

proof fn lemma_nonempty_names(v: Seq<String>)
    ensures
        (v.len() > 0) == (name_set(v) != Set::<Seq<char>>::empty()),
{
    if v.len() > 0 {
        assert(name_set(v).contains(v[0]@));
    } else {
        assert(name_set(v) =~= Set::<Seq<char>>::empty());
    }
}

/// Builds the reference index of a template.
pub fn find_all_references(template: &Value) -> (r: ReferenceIndex)
    ensures
        r.wf(),
        r@ == template_index(template@),
{
    let mut index = ReferenceIndex::new();
    match template.get("Resources") {
        Some(Value::Object(rs)) => {
            proof {
                lemma_tree_entries(rs@);
            }
            let ghost m = tree_entries(rs@);
            let mut i: usize = 0;
            assert(m.take(0) =~= Seq::<Entry>::empty());
            while i < rs.len()
                invariant
                    i <= rs.len(),
                    m == tree_entries(rs@),
                    m.len() == rs.len(),
                    forall|j: int|
                        0 <= j < rs.len() ==> #[trigger] m[j] == (rs@[j].0@, rs@[j].1@),
                    index.wf(),
                    index@ == resource_index(m.take(i as int)),
                decreases rs.len() - i,
            {
                assert(m.take(i + 1).drop_last() =~= m.take(i as int));
                let mut refs: Vec<String> = Vec::new();
                assert(name_set(refs@) =~= Set::<Seq<char>>::empty());
                collect_references(&rs[i].1, &mut refs);
                assert(name_set(refs@) =~= refs_of(m[i as int].1));
                proof {
                    lemma_nonempty_names(refs@);
                }
                if refs.len() > 0 {
                    index.insert(rs[i].0.clone(), refs);
                }
                i = i + 1;
            }
            assert(m.take(rs.len() as int) =~= m);
        },
        _ => {},
    }
    match template.get("Outputs") {
        Some(Value::Object(os)) => {
            proof {
                lemma_tree_entries(os@);
            }
            let ghost m = tree_entries(os@);
            let mut refs: Vec<String> = Vec::new();
            let mut i: usize = 0;
            assert(m.take(0) =~= Seq::<Entry>::empty());
            assert(name_set(refs@) =~= Set::<Seq<char>>::empty());
            while i < os.len()
                invariant
                    i <= os.len(),
                    m == tree_entries(os@),
                    m.len() == os.len(),
                    forall|j: int|
                        0 <= j < os.len() ==> #[trigger] m[j] == (os@[j].0@, os@[j].1@),
                    name_set(refs@) == refs_of_entries(m.take(i as int)),
                decreases os.len() - i,
            {
                assert(m.take(i + 1).subrange(0, i as int) =~= m.take(i as int));
                collect_references(&os[i].1, &mut refs);
                assert(name_set(refs@) =~= refs_of_entries(m.take(i + 1)));
                i = i + 1;
            }
            assert(m.take(os.len() as int) =~= m);
            proof {
                lemma_nonempty_names(refs@);
            }
            if refs.len() > 0 {
                index.insert("Outputs".to_owned(), refs);
            }
        },
        _ => {},
    }
    index
}

} // verus!
