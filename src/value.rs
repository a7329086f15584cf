//! The document tree that templates are made of, and its mathematical model.

use vstd::prelude::*;

verus! {

/// A JSON-like document. Numbers are kept as their decimal text; an object is
/// a list of key/value entries.
#[derive(Debug, PartialEq)]
pub enum Value {
    Null,
    Bool(bool),
    Number(String),
    String(String),
    Array(Vec<Value>),
    Object(Vec<(String, Value)>),
}

/// The model of a `Value`: strings become character sequences, vectors become
/// sequences.
pub enum Tree {
    Null,
    Bool(bool),
    Number(Seq<char>),
    Text(Seq<char>),
    List(Seq<Tree>),
    Dict(Seq<(Seq<char>, Tree)>),
}

/// An object entry's model.
pub type Entry = (Seq<char>, Tree);

impl Value {
    pub open spec fn tree(self) -> Tree
        decreases self,
    {
        match self {
            Value::Null => Tree::Null,
            Value::Bool(b) => Tree::Bool(b),
            Value::Number(n) => Tree::Number(n@),
            Value::String(s) => Tree::Text(s@),
            Value::Array(items) => Tree::List(trees(items@)),
            Value::Object(es) => Tree::Dict(tree_entries(es@)),
        }
    }
}

impl View for Value {
    type V = Tree;

    open spec fn view(&self) -> Tree {
        self.tree()
    }
}

/// Models of a sequence of values.
pub open spec fn trees(s: Seq<Value>) -> Seq<Tree>
    decreases s,
{
    if s.len() == 0 {
        Seq::empty()
    } else {
        trees(s.subrange(0, s.len() - 1)).push(s[s.len() - 1].tree())
    }
}

/// Models of a sequence of object entries.
pub open spec fn tree_entries(s: Seq<(String, Value)>) -> Seq<Entry>
    decreases s,
{
    if s.len() == 0 {
        Seq::empty()
    } else {
        tree_entries(s.subrange(0, s.len() - 1)).push((s[s.len() - 1].0@, s[s.len() - 1].1.tree()))
    }
}


pub proof fn lemma_trees(s: Seq<Value>)
    ensures
        trees(s).len() == s.len(),
        forall|i: int| 0 <= i < s.len() ==> #[trigger] trees(s)[i] == s[i].tree(),
    decreases s.len(),
{
    if s.len() > 0 {
        let p = s.subrange(0, s.len() - 1);
        lemma_trees(p);
        assert forall|i: int| 0 <= i < s.len() implies #[trigger] trees(s)[i] == s[i].tree() by {
            if i < s.len() - 1 {
                assert(p[i] == s[i]);
            }
        }
    }
}

pub proof fn lemma_tree_entries(s: Seq<(String, Value)>)
    ensures
        tree_entries(s).len() == s.len(),
        forall|i: int|
            0 <= i < s.len() ==> #[trigger] tree_entries(s)[i] == (s[i].0@, s[i].1.tree()),
    decreases s.len(),
{
    if s.len() > 0 {
        let p = s.subrange(0, s.len() - 1);
        lemma_tree_entries(p);
        assert forall|i: int| 0 <= i < s.len() implies #[trigger] tree_entries(s)[i] == (
        s[i].0@, s[i].1.tree()) by {
            if i < s.len() - 1 {
                assert(p[i] == s[i]);
            }
        }
    }
}

/// Position of the last entry whose key is `k`, or -1 when there is none.
pub open spec fn key_index(es: Seq<Entry>, k: Seq<char>) -> int
    decreases es.len(),
{
    if es.len() == 0 {
        -1
    } else if es.last().0 == k {
        es.len() - 1
    } else {
        key_index(es.drop_last(), k)
    }
}

/// What an object holds under `k`.
pub open spec fn field(es: Seq<Entry>, k: Seq<char>) -> Option<Tree> {
    if key_index(es, k) >= 0 {
        Some(es[key_index(es, k)].1)
    } else {
        None
    }
}

/// The entries after storing `t` under `k`: the entry that holds `k` gets the
/// new value, or a new entry is added at the end.
pub open spec fn with_field(es: Seq<Entry>, k: Seq<char>, t: Tree) -> Seq<Entry> {
    if key_index(es, k) >= 0 {
        es.update(key_index(es, k), (k, t))
    } else {
        es.push((k, t))
    }
}

/// The entries without any entry under `k`.
pub open spec fn without_key(es: Seq<Entry>, k: Seq<char>) -> Seq<Entry>
    decreases es.len(),
{
    if es.len() == 0 {
        es
    } else if es.last().0 == k {
        without_key(es.drop_last(), k)
    } else {
        without_key(es.drop_last(), k).push(es.last())
    }
}

pub proof fn lemma_key_index(es: Seq<Entry>, k: Seq<char>)
    ensures
        -1 <= key_index(es, k) < es.len(),
        key_index(es, k) >= 0 ==> es[key_index(es, k)].0 == k,
        key_index(es, k) < 0 <==> forall|i: int| 0 <= i < es.len() ==> #[trigger] es[i].0 != k,
        forall|i: int| key_index(es, k) < i < es.len() ==> #[trigger] es[i].0 != k,
    decreases es.len(),
{
    if es.len() > 0 {
        lemma_key_index(es.drop_last(), k);
        if es.last().0 != k {
            assert forall|i: int| 0 <= i < es.len() - 1 implies #[trigger] es[i].0 == es.drop_last()[i].0 by {}
        }
    }
}

proof fn lemma_key_index_at(es: Seq<Entry>, k: Seq<char>, i: int)
    requires
        0 <= i < es.len(),
        es[i].0 == k,
        forall|j: int| i < j < es.len() ==> #[trigger] es[j].0 != k,
    ensures
        key_index(es, k) == i,
    decreases es.len(),
{
    if i < es.len() - 1 {
        let p = es.drop_last();
        assert forall|j: int| i < j < p.len() implies #[trigger] p[j].0 != k by {
            assert(p[j] == es[j]);
        }
        lemma_key_index_at(p, k, i);
    }
}

/// What is stored under a key is what is read back under it.
pub proof fn lemma_with_field(es: Seq<Entry>, k: Seq<char>, v: Tree)
    ensures
        field(with_field(es, k, v), k) == Some(v),
{
    lemma_key_index(es, k);
    let i = key_index(es, k);
    if i >= 0 {
        let u = es.update(i, (k, v));
        assert forall|j: int| i < j < u.len() implies #[trigger] u[j].0 != k by {
            assert(u[j] == es[j]);
        }
        lemma_key_index_at(u, k, i);
    } else {
        assert(es.push((k, v)).drop_last() =~= es);
    }
}

/// Position of the last entry with key `k`.
pub fn find_key(es: &Vec<(String, Value)>, k: &str) -> (r: Option<usize>)
    ensures
        match r {
            Some(i) => i as int == key_index(tree_entries(es@), k@),
            None => key_index(tree_entries(es@), k@) < 0,
        },
{
    proof {
        lemma_tree_entries(es@);
    }
    let ghost m = tree_entries(es@);
    let mut i: usize = es.len();
    assert(m.take(i as int) =~= m);
    while i > 0
        invariant
            i <= es.len(),
            m == tree_entries(es@),
            m.len() == es.len(),
            key_index(m, k@) == key_index(m.take(i as int), k@),
            forall|j: int| 0 <= j < es.len() ==> #[trigger] m[j] == (es@[j].0@, es@[j].1.tree()),
        decreases i,
    {
        assert(m.take(i as int).drop_last() =~= m.take(i - 1));
        if crate::text::str_eq(es[i - 1].0.as_str(), k) {
            return Some(i - 1);
        }
        i = i - 1;
    }
    None
}

impl Value {
    /// The value stored under `key`, when `self` is an object that has it.
    pub fn get(&self, key: &str) -> (r: Option<&Value>)
        ensures
            match r {
                Some(x) => self@ is Dict && field(self@->Dict_0, key@) == Some(x@),
                None => !(self@ is Dict) || field(self@->Dict_0, key@) is None,
            },
    {
        match self {
            Value::Object(es) => {
                proof {
                    lemma_tree_entries(es@);
                    lemma_key_index(tree_entries(es@), key@);
                }
                match find_key(es, key) {
                    Some(i) => Some(&es[i].1),
                    None => None,
                }
            },
            _ => None,
        }
    }

    /// The element at `i`, when `self` is an array that long.
    pub fn at(&self, i: usize) -> (r: Option<&Value>)
        ensures
            match r {
                Some(x) => self@ is List && i < (self@->List_0).len() && (self@->List_0)[i as int] == x@,
                None => !(self@ is List) || i >= (self@->List_0).len(),
            },
    {
        match self {
            Value::Array(items) => {
                proof {
                    lemma_trees(items@);
                }
                if i < items.len() {
                    Some(&items[i])
                } else {
                    None
                }
            },
            _ => None,
        }
    }
}


/// Stores `v` under `key`: the entry that holds `key` gets the new value, or a
/// new entry is added at the end.
pub fn set_field(es: &mut Vec<(String, Value)>, key: &str, v: Value)
    ensures
        tree_entries(final(es)@) == with_field(tree_entries(old(es)@), key@, v@),
{
    proof {
        lemma_tree_entries(es@);
        lemma_key_index(tree_entries(es@), key@);
    }
    let ghost before = es@;
    let ghost m = tree_entries(es@);
    match find_key(es, key) {
        Some(i) => {
            let k = es[i].0.clone();
            es.set(i, (k, v));
            proof {
                lemma_tree_entries(es@);
            }
            assert(tree_entries(es@) =~= m.update(i as int, (key@, v@)));
        },
        None => {
            es.push((key.to_owned(), v));
            proof {
                lemma_tree_entries(es@);
            }
            assert(tree_entries(es@) =~= m.push((key@, v@)));
        },
    }
}

/// The list of the models of `items` after one more item.
pub proof fn lemma_trees_push(s: Seq<Value>, x: Value)
    ensures
        trees(s.push(x)) == trees(s).push(x@),
{
    assert(s.push(x).subrange(0, s.len() as int) =~= s);
}

/// The models of entries after one more entry.
pub proof fn lemma_tree_entries_push(s: Seq<(String, Value)>, x: (String, Value))
    ensures
        tree_entries(s.push(x)) == tree_entries(s).push((x.0@, x.1@)),
{
    assert(s.push(x).subrange(0, s.len() as int) =~= s);
}

impl Value {
    /// Whether two documents are equal.
    pub fn same(&self, other: &Value) -> (r: bool)
        ensures
            r == (self@ == other@),
        decreases self,
    {
        match (self, other) {
            (Value::Null, Value::Null) => true,
            (Value::Bool(a), Value::Bool(b)) => *a == *b,
            (Value::Number(a), Value::Number(b)) => *a == *b,
            (Value::String(a), Value::String(b)) => *a == *b,
            (Value::Array(x), Value::Array(y)) => {
                proof {
                    lemma_trees(x@);
                    lemma_trees(y@);
                }
                if x.len() != y.len() {
                    return false;
                }
                let mut i: usize = 0;
                while i < x.len()
                    invariant
                        i <= x.len(),
                        x.len() == y.len(),
                        *self is Array,
                        self->Array_0 == *x,
                        *other is Array,
                        other->Array_0 == *y,
                        trees(x@).len() == x.len(),
                        trees(y@).len() == y.len(),
                        forall|j: int| 0 <= j < x.len() ==> #[trigger] trees(x@)[j] == x@[j]@,
                        forall|j: int| 0 <= j < y.len() ==> #[trigger] trees(y@)[j] == y@[j]@,
                        forall|j: int| 0 <= j < i ==> #[trigger] trees(x@)[j] == trees(y@)[j],
                    decreases x.len() - i,
                {
                    proof {
                        assert(decreases_to!(*self => self->Array_0));
                        assert(decreases_to!(x => x@));
                        assert(decreases_to!(x@ => x@[i as int]));
                    }
                    if !x[i].same(&y[i]) {
                        assert(trees(x@)[i as int] != trees(y@)[i as int]);
                        return false;
                    }
                    i = i + 1;
                }
                assert(trees(x@) =~= trees(y@));
                true
            },
            (Value::Object(x), Value::Object(y)) => {
                proof {
                    lemma_tree_entries(x@);
                    lemma_tree_entries(y@);
                }
                if x.len() != y.len() {
                    return false;
                }
                let mut i: usize = 0;
                while i < x.len()
                    invariant
                        i <= x.len(),
                        x.len() == y.len(),
                        *self is Object,
                        self->Object_0 == *x,
                        *other is Object,
                        other->Object_0 == *y,
                        tree_entries(x@).len() == x.len(),
                        tree_entries(y@).len() == y.len(),
                        forall|j: int|
                            0 <= j < x.len() ==> #[trigger] tree_entries(x@)[j] == (x@[j].0@, x@[j].1@),
                        forall|j: int|
                            0 <= j < y.len() ==> #[trigger] tree_entries(y@)[j] == (y@[j].0@, y@[j].1@),
                        forall|j: int| 0 <= j < i ==> #[trigger] tree_entries(x@)[j] == tree_entries(y@)[j],
                    decreases x.len() - i,
                {
                    proof {
                        assert(decreases_to!(*self => self->Object_0));
                        assert(decreases_to!(x => x@));
                        assert(decreases_to!(x@ => x@[i as int]));
                        assert(decreases_to!(x@[i as int] => x@[i as int].1));
                    }
                    if x[i].0 != y[i].0 || !x[i].1.same(&y[i].1) {
                        assert(tree_entries(x@)[i as int] != tree_entries(y@)[i as int]);
                        return false;
                    }
                    i = i + 1;
                }
                assert(tree_entries(x@) =~= tree_entries(y@));
                true
            },
            _ => false,
        }
    }

    /// A deep copy.
    pub fn copy(&self) -> (r: Value)
        ensures
            r@ == self@,
        decreases self,
    {
        match self {
            Value::Null => Value::Null,
            Value::Bool(b) => Value::Bool(*b),
            Value::Number(n) => Value::Number(n.clone()),
            Value::String(s) => Value::String(s.clone()),
            Value::Array(items) => {
                let mut out: Vec<Value> = Vec::new();
                let mut i: usize = 0;
                proof {
                    lemma_trees(items@);
                }
                assert(trees(out@) =~= trees(items@).take(0));
                while i < items.len()
                    invariant
                        i <= items.len(),
                        *self is Array,
                        self->Array_0 == *items,
                        trees(items@).len() == items.len(),
                        forall|j: int| 0 <= j < items.len() ==> #[trigger] trees(items@)[j] == items@[j]@,
                        trees(out@) == trees(items@).take(i as int),
                    decreases items.len() - i,
                {
                    proof {
                        assert(decreases_to!(*self => self->Array_0));
                        assert(decreases_to!(items => items@));
                        assert(decreases_to!(items@ => items@[i as int]));
                    }
                    let x = items[i].copy();
                    proof {
                        lemma_trees_push(out@, x);
                    }
                    out.push(x);
                    assert(trees(out@) =~= trees(items@).take(i + 1));
                    i = i + 1;
                }
                assert(trees(items@).take(items.len() as int) =~= trees(items@));
                Value::Array(out)
            },
            Value::Object(es) => {
                let mut out: Vec<(String, Value)> = Vec::new();
                let mut i: usize = 0;
                proof {
                    lemma_tree_entries(es@);
                }
                assert(tree_entries(out@) =~= tree_entries(es@).take(0));
                while i < es.len()
                    invariant
                        i <= es.len(),
                        *self is Object,
                        self->Object_0 == *es,
                        tree_entries(es@).len() == es.len(),
                        forall|j: int|
                            0 <= j < es.len() ==> #[trigger] tree_entries(es@)[j] == (
                            es@[j].0@,
                            es@[j].1@,
                        ),
                        tree_entries(out@) == tree_entries(es@).take(i as int),
                    decreases es.len() - i,
                {
                    proof {
                        assert(decreases_to!(*self => self->Object_0));
                        assert(decreases_to!(es => es@));
                        assert(decreases_to!(es@ => es@[i as int]));
                        assert(decreases_to!(es@[i as int] => es@[i as int].1));
                    }
                    let x = (es[i].0.clone(), es[i].1.copy());
                    proof {
                        lemma_tree_entries_push(out@, x);
                    }
                    out.push(x);
                    assert(tree_entries(out@) =~= tree_entries(es@).take(i + 1));
                    i = i + 1;
                }
                assert(tree_entries(es@).take(es.len() as int) =~= tree_entries(es@));
                Value::Object(out)
            },
        }
    }
}

} // verus!
