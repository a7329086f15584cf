//! The values that the dialect's parser produces, each with its position in
//! the text, and their conversion to the document tree.

use crate::intrinsics::Location;
use crate::text::{decimal, decimal_spec, push_char, str_eq};
use crate::value::{
    lemma_trees_push, set_field, tree_entries, trees, with_field, Entry, Tree,
    Value,
};
use vstd::prelude::*;

verus! {

/// A range of values: with its end, or without it.
#[derive(Debug, PartialEq)]
pub enum RangeType<T> {
    Range(T, T),
    OpenRange(T, T),
}

/// A parsed value with its position. A floating-point number is held as the
/// text that the parser read; a mapping as its entries in the order read.
#[derive(Debug, PartialEq)]
pub enum MarkedValue {
    Null(Location),
    BadValue(String, Location),
    String(String, Location),
    Regex(String, Location),
    Bool(bool, Location),
    Int(i64, Location),
    Float(String, Location),
    Char(char, Location),
    List(Vec<MarkedValue>, Location),
    Mapping(Vec<((String, Location), MarkedValue)>, Location),
    RangeInt(RangeType<i64>, Location),
    RangeFloat(RangeType<String>, Location),
    RangeChar(RangeType<char>, Location),
}

impl MarkedValue {
    pub open spec fn loc(self) -> Location {
        match self {
            MarkedValue::Null(l) => l,
            MarkedValue::BadValue(_, l) => l,
            MarkedValue::String(_, l) => l,
            MarkedValue::Regex(_, l) => l,
            MarkedValue::Bool(_, l) => l,
            MarkedValue::Int(_, l) => l,
            MarkedValue::Float(_, l) => l,
            MarkedValue::Char(_, l) => l,
            MarkedValue::List(_, l) => l,
            MarkedValue::Mapping(_, l) => l,
            MarkedValue::RangeInt(_, l) => l,
            MarkedValue::RangeFloat(_, l) => l,
            MarkedValue::RangeChar(_, l) => l,
        }
    }

    /// Where the value stands in the text.
    pub fn location(&self) -> (r: &Location)
        ensures
            *r == self.loc(),
    {
        match self {
            MarkedValue::Null(l) => l,
            MarkedValue::BadValue(_, l) => l,
            MarkedValue::String(_, l) => l,
            MarkedValue::Regex(_, l) => l,
            MarkedValue::Bool(_, l) => l,
            MarkedValue::Int(_, l) => l,
            MarkedValue::Float(_, l) => l,
            MarkedValue::Char(_, l) => l,
            MarkedValue::List(_, l) => l,
            MarkedValue::Mapping(_, l) => l,
            MarkedValue::RangeInt(_, l) => l,
            MarkedValue::RangeFloat(_, l) => l,
            MarkedValue::RangeChar(_, l) => l,
        }
    }
}

/// An integer in decimal, with a minus sign when it is negative.
pub open spec fn int_text(i: int) -> Seq<char> {
    if i < 0 {
        seq!['-'] + decimal_spec((-i) as nat)
    } else {
        decimal_spec(i as nat)
    }
}

/// A floating-point number read as `t`: a number, unless it is not finite.
pub open spec fn float_tree(t: Seq<char>) -> Tree {
    if t == "NaN"@ || t == "inf"@ || t == "-inf"@ {
        Tree::Null
    } else {
        Tree::Number(t)
    }
}

/// The object that stands for a range.
pub open spec fn range_tree(start: Tree, end: Tree, inclusive: bool) -> Tree {
    Tree::Dict(
        seq![
            ("type"@, Tree::Text("range"@)),
            ("start"@, start),
            ("end"@, end),
            ("inclusive"@, Tree::Bool(inclusive)),
        ],
    )
}

/// The document tree of a parsed value; positions are dropped, and a later
/// mapping entry with a key already seen replaces the earlier value.
pub open spec fn marked_tree(v: MarkedValue) -> Tree
    decreases v,
{
    match v {
        MarkedValue::Null(_) => Tree::Null,
        MarkedValue::BadValue(s, _) => Tree::Text(s@),
        MarkedValue::String(s, _) => Tree::Text(s@),
        MarkedValue::Regex(s, _) => Tree::Text(s@),
        MarkedValue::Bool(b, _) => Tree::Bool(b),
        MarkedValue::Int(i, _) => Tree::Number(int_text(i as int)),
        MarkedValue::Float(t, _) => float_tree(t@),
        MarkedValue::Char(c, _) => Tree::Text(seq![c]),
        MarkedValue::List(items, _) => Tree::List(marked_list(items@)),
        MarkedValue::Mapping(es, _) => Tree::Dict(marked_entries(es@)),
        MarkedValue::RangeInt(r, _) => match r {
            RangeType::Range(a, b) => range_tree(
                Tree::Number(int_text(a as int)),
                Tree::Number(int_text(b as int)),
                true,
            ),
            RangeType::OpenRange(a, b) => range_tree(
                Tree::Number(int_text(a as int)),
                Tree::Number(int_text(b as int)),
                false,
            ),
        },
        MarkedValue::RangeFloat(r, _) => match r {
            RangeType::Range(a, b) => range_tree(float_tree(a@), float_tree(b@), true),
            RangeType::OpenRange(a, b) => range_tree(float_tree(a@), float_tree(b@), false),
        },
        MarkedValue::RangeChar(r, _) => match r {
            RangeType::Range(a, b) => range_tree(Tree::Text(seq![a]), Tree::Text(seq![b]), true),
            RangeType::OpenRange(a, b) => range_tree(
                Tree::Text(seq![a]),
                Tree::Text(seq![b]),
                false,
            ),
        },
    }
}

pub open spec fn marked_list(s: Seq<MarkedValue>) -> Seq<Tree>
    decreases s,
{
    if s.len() == 0 {
        Seq::empty()
    } else {
        marked_list(s.subrange(0, s.len() - 1)).push(marked_tree(s[s.len() - 1]))
    }
}

pub open spec fn marked_entries(s: Seq<((String, Location), MarkedValue)>) -> Seq<Entry>
    decreases s,
{
    if s.len() == 0 {
        Seq::empty()
    } else {
        with_field(
            marked_entries(s.subrange(0, s.len() - 1)),
            s[s.len() - 1].0.0@,
            marked_tree(s[s.len() - 1].1),
        )
    }
}

fn int_number(i: i64) -> (r: String)
    ensures
        r@ == int_text(i as int),
{
    if i < 0 {
        let magnitude: u64 = ((-(i + 1)) as u64) + 1;
        let mut s = String::new();
        push_char(&mut s, '-');
        let d = decimal(magnitude);
        s.append(d.as_str());
        s
    } else {
        decimal(i as u64)
    }
}

fn float_value(t: &String) -> (r: Value)
    ensures
        r@ == float_tree(t@),
{
    if str_eq(t.as_str(), "NaN") || str_eq(t.as_str(), "inf") || str_eq(t.as_str(), "-inf") {
        Value::Null
    } else {
        Value::Number(t.clone())
    }
}

fn range_value(start: Value, end: Value, inclusive: bool) -> (r: Value)
    ensures
        r@ == range_tree(start@, end@, inclusive),
{
    let mut es: Vec<(String, Value)> = Vec::new();
    let ghost s0 = start@;
    let ghost e0 = end@;
    es.push(("type".to_owned(), Value::String("range".to_owned())));
    es.push(("start".to_owned(), start));
    es.push(("end".to_owned(), end));
    es.push(("inclusive".to_owned(), Value::Bool(inclusive)));
    proof {
        crate::value::lemma_tree_entries(es@);
    }
    assert(tree_entries(es@) =~= seq![
        ("type"@, Tree::Text("range"@)),
        ("start"@, s0),
        ("end"@, e0),
        ("inclusive"@, Tree::Bool(inclusive)),
    ]);
    Value::Object(es)
}

impl MarkedValue {
    /// The document tree of this value, without positions.
    pub fn to_json_value(&self) -> (r: Value)
        ensures
            r@ == marked_tree(*self),
        decreases self,
    {
        match self {
            MarkedValue::Null(_) => Value::Null,
            MarkedValue::BadValue(s, _) => Value::String(s.clone()),
            MarkedValue::String(s, _) => Value::String(s.clone()),
            MarkedValue::Regex(s, _) => Value::String(s.clone()),
            MarkedValue::Bool(b, _) => Value::Bool(*b),
            MarkedValue::Int(i, _) => Value::Number(int_number(*i)),
            MarkedValue::Float(t, _) => float_value(t),
            MarkedValue::Char(c, _) => {
                let mut s = String::new();
                push_char(&mut s, *c);
                assert(s@ =~= seq![*c]);
                Value::String(s)
            },
            MarkedValue::List(items, _) => {
                let mut out: Vec<Value> = Vec::new();
                let mut i: usize = 0;
                assert(items@.take(0) =~= Seq::<MarkedValue>::empty());
                assert(trees(out@) =~= Seq::<Tree>::empty());
                while i < items.len()
                    invariant
                        i <= items.len(),
                        *self is List,
                        self->List_0 == *items,
                        trees(out@) == marked_list(items@.take(i as int)),
                    decreases items.len() - i,
                {
                    proof {
                        assert(decreases_to!(*self => self->List_0));
                        assert(decreases_to!(items => items@));
                        assert(decreases_to!(items@ => items@[i as int]));
                        assert(items@.take(i + 1).subrange(0, i as int) =~= items@.take(i as int));
                    }
                    let x = items[i].to_json_value();
                    proof {
                        lemma_trees_push(out@, x);
                    }
                    out.push(x);
                    i = i + 1;
                }
                assert(items@.take(items.len() as int) =~= items@);
                Value::Array(out)
            },
            MarkedValue::Mapping(es, _) => {
                let mut out: Vec<(String, Value)> = Vec::new();
                let mut i: usize = 0;
                assert(es@.take(0) =~= Seq::<((String, Location), MarkedValue)>::empty());
                assert(tree_entries(out@) =~= Seq::<Entry>::empty());
                while i < es.len()
                    invariant
                        i <= es.len(),
                        *self is Mapping,
                        self->Mapping_0 == *es,
                        tree_entries(out@) == marked_entries(es@.take(i as int)),
                    decreases es.len() - i,
                {
                    proof {
                        assert(decreases_to!(*self => self->Mapping_0));
                        assert(decreases_to!(es => es@));
                        assert(decreases_to!(es@ => es@[i as int]));
                        assert(decreases_to!(es@[i as int] => es@[i as int].1));
                        assert(es@.take(i + 1).subrange(0, i as int) =~= es@.take(i as int));
                    }
                    let x = es[i].1.to_json_value();
                    set_field(&mut out, es[i].0.0.as_str(), x);
                    i = i + 1;
                }
                assert(es@.take(es.len() as int) =~= es@);
                Value::Object(out)
            },
            MarkedValue::RangeInt(r, _) => match r {
                RangeType::Range(a, b) => range_value(
                    Value::Number(int_number(*a)),
                    Value::Number(int_number(*b)),
                    true,
                ),
                RangeType::OpenRange(a, b) => range_value(
                    Value::Number(int_number(*a)),
                    Value::Number(int_number(*b)),
                    false,
                ),
            },
            MarkedValue::RangeFloat(r, _) => match r {
                RangeType::Range(a, b) => range_value(float_value(a), float_value(b), true),
                RangeType::OpenRange(a, b) => range_value(float_value(a), float_value(b), false),
            },
            MarkedValue::RangeChar(r, _) => {
                let (a, b, inclusive) = match r {
                    RangeType::Range(a, b) => (*a, *b, true),
                    RangeType::OpenRange(a, b) => (*a, *b, false),
                };
                let mut sa = String::new();
                push_char(&mut sa, a);
                let mut sb = String::new();
                push_char(&mut sb, b);
                assert(sa@ =~= seq![a]);
                assert(sb@ =~= seq![b]);
                range_value(Value::String(sa), Value::String(sb), inclusive)
            },
        }
    }
}

} // verus!
