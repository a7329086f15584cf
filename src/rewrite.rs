//! Renaming declarations: every reference to an old name is rewritten to the
//! new one, for a whole mapping in a single pass.

use crate::text::{chars_of, is_pseudo, is_pseudo_parameter, push_char, str_eq};
use crate::value::{
    lemma_tree_entries, lemma_tree_entries_push, lemma_trees, lemma_trees_push, set_field,
    tree_entries, trees, with_field, Entry, Tree, Value,
};
use vstd::prelude::*;

verus! {

/// Old name to new name; a later pair wins over an earlier one with the same
/// old name.
pub open spec fn pair_map(s: Seq<(String, String)>) -> Map<Seq<char>, Seq<char>>
    decreases s.len(),
{
    if s.len() == 0 {
        Map::empty()
    } else {
        pair_map(s.drop_last()).insert(s.last().0@, s.last().1@)
    }
}

/// A mapping from old identifiers to new ones.
pub struct IdMapping {
    pub pairs: Vec<(String, String)>,
}

impl View for IdMapping {
    type V = Map<Seq<char>, Seq<char>>;

    open spec fn view(&self) -> Map<Seq<char>, Seq<char>> {
        pair_map(self.pairs@)
    }
}

impl IdMapping {
    /// The empty mapping.
    pub fn new() -> (r: IdMapping)
        ensures
            r@ == Map::<Seq<char>, Seq<char>>::empty(),
            r.pairs@.len() == 0,
    {
        IdMapping { pairs: Vec::new() }
    }

    /// Maps `old_id` to `new_id`.
    pub fn insert(&mut self, old_id: String, new_id: String)
        ensures
            final(self)@ == old(self)@.insert(old_id@, new_id@),
            final(self).pairs@ == old(self).pairs@.push((old_id, new_id)),
    {
        let ghost before = self.pairs@;
        self.pairs.push((old_id, new_id));
        assert(self.pairs@.drop_last() =~= before);
    }

    /// The new name of `old_id`, if the mapping has one.
    pub fn lookup(&self, old_id: &str) -> (r: Option<&String>)
        ensures
            match r {
                Some(n) => self@.contains_key(old_id@) && self@[old_id@] == n@,
                None => !self@.contains_key(old_id@),
            },
    {
        let ghost s = self.pairs@;
        let mut i: usize = self.pairs.len();
        assert(s.take(i as int) =~= s);
        while i > 0
            invariant
                i <= s.len(),
                s == self.pairs@,
                pair_map(s).contains_key(old_id@) == pair_map(s.take(i as int)).contains_key(
                    old_id@,
                ),
                pair_map(s).contains_key(old_id@) ==> pair_map(s)[old_id@] == pair_map(
                    s.take(i as int),
                )[old_id@],
            decreases i,
        {
            assert(s.take(i as int).drop_last() =~= s.take(i - 1));
            if str_eq(self.pairs[i - 1].0.as_str(), old_id) {
                return Some(&self.pairs[i - 1].1);
            }
            i = i - 1;
        }
        None
    }
}

/// `s` after the mapping: its new name, or itself.
pub open spec fn renamed(m: Map<Seq<char>, Seq<char>>, s: Seq<char>) -> Seq<char> {
    if m.contains_key(s) {
        m[s]
    } else {
        s
    }
}

/// Whether `${k}` or `${k.` stands at position `i` of `t`.
pub open spec fn placeholder_at(t: Seq<char>, i: int, k: Seq<char>) -> bool {
    &&& 0 <= i
    &&& i + 2 + k.len() < t.len()
    &&& t[i] == '$'
    &&& t[i + 1] == '{'
    &&& t.subrange(i + 2, i + 2 + k.len()) == k
    &&& (t[i + 2 + k.len()] == '}' || t[i + 2 + k.len()] == '.')
}

/// Some old name of the mapping stands as a placeholder at `i`.
pub open spec fn has_placeholder(t: Seq<char>, i: int, m: Map<Seq<char>, Seq<char>>) -> bool {
    exists|k: Seq<char>| m.contains_key(k) && #[trigger] placeholder_at(t, i, k)
}

/// `k` is the longest old name of the mapping that stands at `i`.
pub open spec fn is_best_key(t: Seq<char>, i: int, m: Map<Seq<char>, Seq<char>>, k: Seq<char>) -> bool {
    &&& m.contains_key(k)
    &&& placeholder_at(t, i, k)
    &&& forall|k2: Seq<char>|
        m.contains_key(k2) && #[trigger] placeholder_at(t, i, k2) ==> k2.len() <= k.len()
}

/// The interpolation template `t` from position `i` on, with every literal
/// `${old}` or `${old.` whose old name the mapping holds replaced by `${new}`
/// or `${new.`. Where several old names match at one position, the longest
/// is taken; the scan goes on after the replaced text.
pub open spec fn sub_rewrite_from(t: Seq<char>, i: int, m: Map<Seq<char>, Seq<char>>) -> Seq<char>
    decreases t.len() - i,
{
    if i < 0 || i >= t.len() {
        Seq::empty()
    } else if has_placeholder(t, i, m) {
        let k = choose|k: Seq<char>| is_best_key(t, i, m, k);
        let n = i + 2 + k.len();
        if i < n < t.len() {
            seq!['$', '{'] + m[k] + seq![t[n]] + sub_rewrite_from(t, n + 1, m)
        } else {
            Seq::empty()
        }
    } else {
        seq![t[i]] + sub_rewrite_from(t, i + 1, m)
    }
}

pub open spec fn sub_rewrite(t: Seq<char>, m: Map<Seq<char>, Seq<char>>) -> Seq<char> {
    sub_rewrite_from(t, 0, m)
}

/// `t` with every reference renamed by the mapping: every value of an object
/// and every item of a list is rewritten, the reference constructs by their
/// own rules.
pub open spec fn rewrite(t: Tree, m: Map<Seq<char>, Seq<char>>) -> Tree
    decreases t, 0int,
{
    match t {
        Tree::List(items) => Tree::List(rewrite_list(items, m)),
        Tree::Dict(es) => Tree::Dict(rewrite_entries(es, m)),
        _ => t,
    }
}

pub open spec fn rewrite_list(s: Seq<Tree>, m: Map<Seq<char>, Seq<char>>) -> Seq<Tree>
    decreases s, 0int,
{
    if s.len() == 0 {
        Seq::empty()
    } else {
        rewrite_list(s.subrange(0, s.len() - 1), m).push(rewrite(s[s.len() - 1], m))
    }
}

/// The value stored under key `k` of an object, rewritten.
pub open spec fn rewrite_entry(k: Seq<char>, v: Tree, m: Map<Seq<char>, Seq<char>>) -> Tree
    decreases v, 2int,
{
    if k == "Ref"@ {
        rewrite_ref(v, m)
    } else if k == "Fn::GetAtt"@ {
        rewrite_getatt(v, m)
    } else if k == "Fn::Sub"@ {
        rewrite_sub(v, m)
    } else if k == "DependsOn"@ {
        rewrite_depends(v, m)
    } else {
        rewrite(v, m)
    }
}

/// The values of an object rewritten, each under its key.
pub open spec fn rewrite_entries(es: Seq<Entry>, m: Map<Seq<char>, Seq<char>>) -> Seq<Entry>
    decreases es, 0int,
{
    if es.len() == 0 {
        Seq::empty()
    } else {
        let k = es[es.len() - 1].0;
        rewrite_entries(es.subrange(0, es.len() - 1), m).push(
            (k, rewrite_entry(k, es[es.len() - 1].1, m)),
        )
    }
}

/// A direct reference: its name is renamed, unless it is a pseudo parameter.
pub open spec fn rewrite_ref(v: Tree, m: Map<Seq<char>, Seq<char>>) -> Tree
    decreases v, 1int,
{
    match v {
        Tree::Text(s) => Tree::Text(
            if is_pseudo(s) {
                s
            } else {
                renamed(m, s)
            },
        ),
        _ => rewrite(v, m),
    }
}

/// An attribute reference: in the list form, the head is renamed and the
/// other items rewritten.
pub open spec fn rewrite_getatt(v: Tree, m: Map<Seq<char>, Seq<char>>) -> Tree
    decreases v, 1int,
{
    match v {
        Tree::List(a) => if a.len() > 0 && a[0] is Text {
            Tree::List(
                seq![Tree::Text(renamed(m, a[0]->Text_0))] + rewrite_list(
                    a.subrange(1, a.len() as int),
                    m,
                ),
            )
        } else {
            Tree::List(rewrite_list(a, m))
        },
        _ => rewrite(v, m),
    }
}

/// An interpolation: the template string has its placeholders renamed; in the
/// list form the variable map has its keys renamed and its values rewritten.
pub open spec fn rewrite_sub(v: Tree, m: Map<Seq<char>, Seq<char>>) -> Tree
    decreases v, 1int,
{
    match v {
        Tree::Text(s) => Tree::Text(sub_rewrite(s, m)),
        Tree::List(a) => if a.len() == 0 {
            v
        } else {
            let first = match a[0] {
                Tree::Text(s) => Tree::Text(sub_rewrite(s, m)),
                _ => rewrite(a[0], m),
            };
            if a.len() == 1 {
                Tree::List(seq![first])
            } else {
                Tree::List(
                    seq![first, rewrite_vars(a[1], m)] + rewrite_list(a.subrange(2, a.len() as int), m),
                )
            }
        },
        _ => rewrite(v, m),
    }
}

/// The variable map of an interpolation.
pub open spec fn rewrite_vars(v: Tree, m: Map<Seq<char>, Seq<char>>) -> Tree
    decreases v, 2int,
{
    match v {
        Tree::Dict(es) => Tree::Dict(rename_vars(es, m)),
        _ => rewrite(v, m),
    }
}

/// The variables whose names the mapping keeps, their values rewritten.
pub open spec fn kept_vars(es: Seq<Entry>, m: Map<Seq<char>, Seq<char>>) -> Seq<Entry>
    decreases es, 0int,
{
    if es.len() == 0 {
        Seq::empty()
    } else {
        let acc = kept_vars(es.subrange(0, es.len() - 1), m);
        let k = es[es.len() - 1].0;
        if m.contains_key(k) {
            acc
        } else {
            acc.push((k, rewrite(es[es.len() - 1].1, m)))
        }
    }
}

/// `base` with the renamed variables stored under their new names, each
/// replacing what the name held.
pub open spec fn moved_vars(es: Seq<Entry>, m: Map<Seq<char>, Seq<char>>, base: Seq<Entry>) -> Seq<
    Entry,
>
    decreases es, 0int,
{
    if es.len() == 0 {
        base
    } else {
        let acc = moved_vars(es.subrange(0, es.len() - 1), m, base);
        let k = es[es.len() - 1].0;
        if m.contains_key(k) {
            with_field(acc, m[k], rewrite(es[es.len() - 1].1, m))
        } else {
            acc
        }
    }
}

/// The variable map with its keys renamed: a renamed variable replaces one
/// that already had its new name.
pub open spec fn rename_vars(es: Seq<Entry>, m: Map<Seq<char>, Seq<char>>) -> Seq<Entry>
    decreases es, 1int,
{
    moved_vars(es, m, kept_vars(es, m))
}

/// An ordering: a name or the names of a list are renamed.
pub open spec fn rewrite_depends(v: Tree, m: Map<Seq<char>, Seq<char>>) -> Tree
    decreases v, 1int,
{
    match v {
        Tree::Text(d) => Tree::Text(renamed(m, d)),
        Tree::List(a) => Tree::List(depends_items(a, m)),
        _ => rewrite(v, m),
    }
}

pub open spec fn depends_items(s: Seq<Tree>, m: Map<Seq<char>, Seq<char>>) -> Seq<Tree>
    decreases s, 0int,
{
    if s.len() == 0 {
        Seq::empty()
    } else {
        let x = s[s.len() - 1];
        let nx = match x {
            Tree::Text(d) => Tree::Text(renamed(m, d)),
            _ => rewrite(x, m),
        };
        depends_items(s.subrange(0, s.len() - 1), m).push(nx)
    }
}

proof fn lemma_pair_map_keys(s: Seq<(String, String)>, k: Seq<char>)
    ensures
        pair_map(s).contains_key(k) <==> exists|q: int| 0 <= q < s.len() && #[trigger] s[q].0@ == k,
    decreases s.len(),
{
    if s.len() > 0 {
        let p = s.drop_last();
        lemma_pair_map_keys(p, k);
        if pair_map(p).contains_key(k) {
            let q = choose|q: int| 0 <= q < p.len() && #[trigger] p[q].0@ == k;
            assert(s[q].0@ == k);
        }
        if exists|q: int| 0 <= q < s.len() && #[trigger] s[q].0@ == k {
            let q = choose|q: int| 0 <= q < s.len() && #[trigger] s[q].0@ == k;
            if q < s.len() - 1 {
                assert(p[q].0@ == k);
            }
        }
    }
}

proof fn lemma_best_key_unique(t: Seq<char>, i: int, m: Map<Seq<char>, Seq<char>>, k: Seq<char>)
    requires
        is_best_key(t, i, m, k),
    ensures
        has_placeholder(t, i, m),
        (choose|k2: Seq<char>| is_best_key(t, i, m, k2)) == k,
{
    assert(placeholder_at(t, i, k));
    let c = choose|k2: Seq<char>| is_best_key(t, i, m, k2);
    assert(is_best_key(t, i, m, c));
    assert(placeholder_at(t, i, c));
    assert(c.len() <= k.len());
    assert(k.len() <= c.len());
    assert(c =~= t.subrange(i + 2, i + 2 + k.len()));
}

/// Whether `${k}` or `${k.` stands at position `i` of `cs`.
fn placeholder_matches(cs: &Vec<char>, i: usize, k: &Vec<char>) -> (r: bool)
    ensures
        r == placeholder_at(cs@, i as int, k@),
{
    let n = cs.len();
    if n < 3 || i > n - 3 || k.len() > n - 3 - i {
        return false;
    }
    if cs[i] != '$' || cs[i + 1] != '{' {
        return false;
    }
    let mut j: usize = 0;
    while j < k.len()
        invariant
            n == cs@.len(),
            i + 2 + k@.len() < n,
            j <= k@.len(),
            forall|l: int| 0 <= l < j ==> cs@[i + 2 + l] == #[trigger] k@[l],
        decreases k@.len() - j,
    {
        if cs[i + 2 + j] != k[j] {
            assert(cs@.subrange(i + 2, i + 2 + k@.len())[j as int] != k@[j as int]);
            return false;
        }
        j = j + 1;
    }
    assert(cs@.subrange(i + 2, i + 2 + k@.len()) =~= k@);
    let c = cs[i + 2 + k.len()];
    c == '}' || c == '.'
}

/// Renames the placeholders of an interpolation template.
pub fn rewrite_sub_text(t: &str, m: &IdMapping) -> (r: String)
    ensures
        r@ == sub_rewrite(t@, m@),
{
    let cs = chars_of(t);
    let n = cs.len();
    let pairs = &m.pairs;
    let mut out = String::new();
    let mut i: usize = 0;
    while i < n
        invariant
            cs@ == t@,
            n == t@.len(),
            i <= n,
            *pairs == m.pairs,
            out@ + sub_rewrite_from(t@, i as int, m@) == sub_rewrite_from(t@, 0, m@),
        decreases n - i,
    {
        let ghost before = out@;
        // the longest old name that stands here
        let mut best: Option<usize> = None;
        let mut best_len: usize = 0;
        let mut p: usize = 0;
        while p < pairs.len()
            invariant
                cs@ == t@,
                n == t@.len(),
                i < n,
                *pairs == m.pairs,
                p <= pairs@.len(),
                match best {
                    Some(b) => b < pairs@.len() && placeholder_at(t@, i as int, pairs@[b as int].0@)
                        && best_len == pairs@[b as int].0@.len(),
                    None => true,
                },
                forall|q: int|
                    0 <= q < p && #[trigger] placeholder_at(t@, i as int, pairs@[q].0@) ==> match best {
                        Some(_) => pairs@[q].0@.len() <= best_len,
                        None => false,
                    },
            decreases pairs@.len() - p,
        {
            let k = chars_of(pairs[p].0.as_str());
            if placeholder_matches(&cs, i, &k) {
                let better = match best {
                    Some(_) => k.len() > best_len,
                    None => true,
                };
                if better {
                    best = Some(p);
                    best_len = k.len();
                }
            }
            p = p + 1;
        }
        match best {
            Some(b) => {
                let ghost key = pairs@[b as int].0@;
                proof {
                    lemma_pair_map_keys(pairs@, key);
                    assert(m@.contains_key(key));
                    assert forall|k2: Seq<char>|
                        m@.contains_key(k2) && #[trigger] placeholder_at(t@, i as int, k2) implies k2.len()
                        <= key.len() by {
                        lemma_pair_map_keys(pairs@, k2);
                        let q = choose|q: int| 0 <= q < pairs@.len() && #[trigger] pairs@[q].0@ == k2;
                        assert(placeholder_at(t@, i as int, pairs@[q].0@));
                    }
                    lemma_best_key_unique(t@, i as int, m@, key);
                }
                let end = i + 2 + best_len;
                match m.lookup(pairs[b].0.as_str()) {
                    Some(new_name) => {
                        push_char(&mut out, '$');
                        push_char(&mut out, '{');
                        out.append(new_name.as_str());
                        push_char(&mut out, cs[end]);
                        assert(out@ =~= before + (seq!['$', '{'] + m@[key] + seq![t@[end as int]]));
                    },
                    None => {},
                }
                i = end + 1;
            },
            None => {
                proof {
                    assert forall|k2: Seq<char>|
                        m@.contains_key(k2) implies !#[trigger] placeholder_at(t@, i as int, k2) by {
                        lemma_pair_map_keys(pairs@, k2);
                        let q = choose|q: int| 0 <= q < pairs@.len() && #[trigger] pairs@[q].0@ == k2;
                        assert(!placeholder_at(t@, i as int, pairs@[q].0@));
                    }
                }
                push_char(&mut out, cs[i]);
                assert(out@ =~= before + seq![t@[i as int]]);
                i = i + 1;
            },
        }
    }
    assert(out@ =~= out@ + sub_rewrite_from(t@, i as int, m@));
    out
}

proof fn lemma_rewrite_list_step(s: Seq<Tree>, i: int, m: Map<Seq<char>, Seq<char>>)
    requires
        0 <= i < s.len(),
    ensures
        rewrite_list(s.take(i + 1), m) == rewrite_list(s.take(i), m).push(rewrite(s[i], m)),
{
    assert(s.take(i + 1).subrange(0, i) =~= s.take(i));
}

/// Rewrites the items of a list.
pub fn rewrite_items(items: &Vec<Value>, m: &IdMapping) -> (r: Vec<Value>)
    ensures
        trees(r@) == rewrite_list(trees(items@), m@),
    decreases items, 0int,
{
    proof {
        lemma_trees(items@);
    }
    let ghost model = trees(items@);
    let mut out: Vec<Value> = Vec::new();
    let mut i: usize = 0;
    assert(model.take(0) =~= Seq::<Tree>::empty());
    while i < items.len()
        invariant
            i <= items.len(),
            model == trees(items@),
            model.len() == items.len(),
            forall|j: int| 0 <= j < items.len() ==> #[trigger] model[j] == items@[j]@,
            trees(out@) == rewrite_list(model.take(i as int), m@),
        decreases items.len() - i,
    {
        proof {
            assert(decreases_to!(items => items@));
            assert(decreases_to!(items@ => items@[i as int]));
            lemma_rewrite_list_step(model, i as int, m@);
        }
        let x = rewrite_value(&items[i], m);
        proof {
            lemma_trees_push(out@, x);
        }
        out.push(x);
        i = i + 1;
    }
    assert(model.take(items.len() as int) =~= model);
    out
}

/// Rewrites every value of an object and every item of a list.
pub fn rewrite_value(v: &Value, m: &IdMapping) -> (r: Value)
    ensures
        r@ == rewrite(v@, m@),
    decreases v, 0int,
{
    match v {
        Value::Array(items) => {
            proof {
                assert(decreases_to!(*v => v->Array_0));
            }
            Value::Array(rewrite_items(items, m))
        },
        Value::Object(es) => {
            proof {
                assert(decreases_to!(*v => v->Object_0));
            }
            Value::Object(rewrite_object(es, m))
        },
        _ => v.copy(),
    }
}

/// Rewrites a value stored under `k`.
pub fn rewrite_entry_value(k: &str, v: &Value, m: &IdMapping) -> (r: Value)
    ensures
        r@ == rewrite_entry(k@, v@, m@),
    decreases v, 2int,
{
    if str_eq(k, "Ref") {
        rewrite_ref_value(v, m)
    } else if str_eq(k, "Fn::GetAtt") {
        rewrite_getatt_value(v, m)
    } else if str_eq(k, "Fn::Sub") {
        rewrite_sub_value(v, m)
    } else if str_eq(k, "DependsOn") {
        rewrite_depends_value(v, m)
    } else {
        rewrite_value(v, m)
    }
}

/// Rewrites the value of a direct reference.
pub fn rewrite_ref_value(v: &Value, m: &IdMapping) -> (r: Value)
    ensures
        r@ == rewrite_ref(v@, m@),
    decreases v, 1int,
{
    match v {
        Value::String(s) => {
            if is_pseudo_parameter(s.as_str()) {
                Value::String(s.clone())
            } else {
                match m.lookup(s.as_str()) {
                    Some(n) => Value::String(n.clone()),
                    None => Value::String(s.clone()),
                }
            }
        },
        _ => rewrite_value(v, m),
    }
}

/// Rewrites the value of an attribute reference.
pub fn rewrite_getatt_value(v: &Value, m: &IdMapping) -> (r: Value)
    ensures
        r@ == rewrite_getatt(v@, m@),
    decreases v, 1int,
{
    match v {
        Value::Array(a) => {
            proof {
                lemma_trees(a@);
                assert(decreases_to!(*v => v->Array_0));
            }
            let ghost model = trees(a@);
            if a.len() > 0 {
                match &a[0] {
                    Value::String(head) => {
                        let nh = match m.lookup(head.as_str()) {
                            Some(n) => n.clone(),
                            None => head.clone(),
                        };
                        let mut out: Vec<Value> = Vec::new();
                        let first = Value::String(nh);
                        proof {
                            lemma_trees_push(out@, first);
                        }
                        out.push(first);
                        let mut j: usize = 1;
                        assert(model.subrange(1, 1) =~= Seq::<Tree>::empty());
                        assert(trees(out@) =~= seq![first@] + rewrite_list(model.subrange(1, 1), m@));
                        while j < a.len()
                            invariant
                                1 <= j <= a.len(),
                                *v is Array,
                                v->Array_0 == *a,
                                model == trees(a@),
                                model.len() == a.len(),
                                forall|l: int| 0 <= l < a.len() ==> #[trigger] model[l] == a@[l]@,
                                trees(out@) == seq![first@] + rewrite_list(model.subrange(1, j as int), m@),
                            decreases a.len() - j,
                        {
                            proof {
                                assert(decreases_to!(*v => v->Array_0));
                                assert(decreases_to!(a => a@));
                                assert(decreases_to!(a@ => a@[j as int]));
                                assert(model.subrange(1, j + 1).subrange(0, j - 1) =~= model.subrange(1, j as int));
                            }
                            let x = rewrite_value(&a[j], m);
                            proof {
                                lemma_trees_push(out@, x);
                            }
                            out.push(x);
                            assert(trees(out@) =~= seq![first@] + rewrite_list(model.subrange(1, j + 1), m@));
                            j = j + 1;
                        }
                        return Value::Array(out);
                    },
                    _ => {},
                }
            }
            Value::Array(rewrite_items(a, m))
        },
        _ => rewrite_value(v, m),
    }
}

/// Rewrites the values of an object.
pub fn rewrite_object(es: &Vec<(String, Value)>, m: &IdMapping) -> (r: Vec<(String, Value)>)
    ensures
        tree_entries(r@) == rewrite_entries(tree_entries(es@), m@),
    decreases es, 0int,
{
    proof {
        lemma_tree_entries(es@);
    }
    let ghost model = tree_entries(es@);
    let mut out: Vec<(String, Value)> = Vec::new();
    let mut i: usize = 0;
    assert(model.take(0) =~= Seq::<Entry>::empty());
    while i < es.len()
        invariant
            i <= es.len(),
            model == tree_entries(es@),
            model.len() == es.len(),
            forall|j: int| 0 <= j < es.len() ==> #[trigger] model[j] == (es@[j].0@, es@[j].1@),
            tree_entries(out@) == rewrite_entries(model.take(i as int), m@),
        decreases es.len() - i,
    {
        proof {
            assert(decreases_to!(es => es@));
            assert(decreases_to!(es@ => es@[i as int]));
            assert(decreases_to!(es@[i as int] => es@[i as int].1));
            assert(model.take(i + 1).subrange(0, i as int) =~= model.take(i as int));
        }
        let k = &es[i].0;
        let nv = rewrite_entry_value(k.as_str(), &es[i].1, m);
        let x = (k.clone(), nv);
        proof {
            lemma_tree_entries_push(out@, x);
        }
        out.push(x);
        i = i + 1;
    }
    assert(model.take(es.len() as int) =~= model);
    out
}

/// Rewrites the value of an interpolation.
pub fn rewrite_sub_value(v: &Value, m: &IdMapping) -> (r: Value)
    ensures
        r@ == rewrite_sub(v@, m@),
    decreases v, 1int,
{
    match v {
        Value::String(s) => Value::String(rewrite_sub_text(s.as_str(), m)),
        Value::Array(a) => {
            proof {
                lemma_trees(a@);
            }
            let ghost model = trees(a@);
            if a.len() == 0 {
                return v.copy();
            }
            proof {
                assert(decreases_to!(*v => v->Array_0));
                assert(decreases_to!(a => a@));
                assert(decreases_to!(a@ => a@[0]));
            }
            let first = match &a[0] {
                Value::String(s) => Value::String(rewrite_sub_text(s.as_str(), m)),
                other => rewrite_value(other, m),
            };
            let mut out: Vec<Value> = Vec::new();
            proof {
                lemma_trees_push(out@, first);
            }
            out.push(first);
            if a.len() == 1 {
                assert(trees(out@) =~= seq![first@]);
                return Value::Array(out);
            }
            proof {
                assert(decreases_to!(a@ => a@[1]));
            }
            let vars = rewrite_vars_value(&a[1], m);
            proof {
                lemma_trees_push(out@, vars);
            }
            out.push(vars);
            let mut j: usize = 2;
            assert(model.subrange(2, 2) =~= Seq::<Tree>::empty());
            assert(trees(out@) =~= seq![first@, vars@] + rewrite_list(model.subrange(2, 2), m@));
            while j < a.len()
                invariant
                    2 <= j <= a.len(),
                    *v is Array,
                    v->Array_0 == *a,
                    model == trees(a@),
                    model.len() == a.len(),
                    forall|l: int| 0 <= l < a.len() ==> #[trigger] model[l] == a@[l]@,
                    trees(out@) == seq![first@, vars@] + rewrite_list(model.subrange(2, j as int), m@),
                decreases a.len() - j,
            {
                proof {
                    assert(decreases_to!(*v => v->Array_0));
                    assert(decreases_to!(a => a@));
                    assert(decreases_to!(a@ => a@[j as int]));
                    assert(model.subrange(2, j + 1).subrange(0, j - 2) =~= model.subrange(2, j as int));
                }
                let x = rewrite_value(&a[j], m);
                proof {
                    lemma_trees_push(out@, x);
                }
                out.push(x);
                assert(trees(out@) =~= seq![first@, vars@] + rewrite_list(model.subrange(2, j + 1), m@));
                j = j + 1;
            }
            Value::Array(out)
        },
        _ => rewrite_value(v, m),
    }
}

/// Renames the keys of a variable map and rewrites its values.
pub fn rename_vars_entries(es: &Vec<(String, Value)>, m: &IdMapping) -> (r: Vec<(String, Value)>)
    ensures
        tree_entries(r@) == rename_vars(tree_entries(es@), m@),
    decreases es, 1int,
{
    proof {
        lemma_tree_entries(es@);
    }
    let ghost model = tree_entries(es@);
    let mut out: Vec<(String, Value)> = Vec::new();
    let mut i: usize = 0;
    assert(model.take(0) =~= Seq::<Entry>::empty());
    assert(tree_entries(out@) =~= Seq::<Entry>::empty());
    while i < es.len()
        invariant
            i <= es.len(),
            model == tree_entries(es@),
            model.len() == es.len(),
            forall|j: int| 0 <= j < es.len() ==> #[trigger] model[j] == (es@[j].0@, es@[j].1@),
            tree_entries(out@) == kept_vars(model.take(i as int), m@),
        decreases es.len() - i,
    {
        proof {
            assert(decreases_to!(es => es@));
            assert(decreases_to!(es@ => es@[i as int]));
            assert(decreases_to!(es@[i as int] => es@[i as int].1));
            assert(model.take(i + 1).subrange(0, i as int) =~= model.take(i as int));
        }
        if m.lookup(es[i].0.as_str()).is_none() {
            let x = (es[i].0.clone(), rewrite_value(&es[i].1, m));
            proof {
                lemma_tree_entries_push(out@, x);
            }
            out.push(x);
        }
        i = i + 1;
    }
    assert(model.take(es.len() as int) =~= model);
    let ghost base = tree_entries(out@);
    i = 0;
    while i < es.len()
        invariant
            i <= es.len(),
            model == tree_entries(es@),
            model.len() == es.len(),
            base == kept_vars(model, m@),
            forall|j: int| 0 <= j < es.len() ==> #[trigger] model[j] == (es@[j].0@, es@[j].1@),
            tree_entries(out@) == moved_vars(model.take(i as int), m@, base),
        decreases es.len() - i,
    {
        proof {
            assert(decreases_to!(es => es@));
            assert(decreases_to!(es@ => es@[i as int]));
            assert(decreases_to!(es@[i as int] => es@[i as int].1));
            assert(model.take(i + 1).subrange(0, i as int) =~= model.take(i as int));
        }
        match m.lookup(es[i].0.as_str()) {
            Some(n) => {
                let x = rewrite_value(&es[i].1, m);
                set_field(&mut out, n.as_str(), x);
            },
            None => {},
        }
        i = i + 1;
    }
    out
}

/// Rewrites the variable map of an interpolation.
pub fn rewrite_vars_value(v: &Value, m: &IdMapping) -> (r: Value)
    ensures
        r@ == rewrite_vars(v@, m@),
    decreases v, 2int,
{
    match v {
        Value::Object(es) => {
            proof {
                assert(decreases_to!(*v => v->Object_0));
            }
            Value::Object(rename_vars_entries(es, m))
        },
        _ => rewrite_value(v, m),
    }
}

/// Rewrites the value of an ordering.
pub fn rewrite_depends_value(v: &Value, m: &IdMapping) -> (r: Value)
    ensures
        r@ == rewrite_depends(v@, m@),
    decreases v, 1int,
{
    match v {
        Value::String(d) => match m.lookup(d.as_str()) {
            Some(n) => Value::String(n.clone()),
            None => Value::String(d.clone()),
        },
        Value::Array(a) => {
            proof {
                lemma_trees(a@);
            }
            let ghost model = trees(a@);
            let mut out: Vec<Value> = Vec::new();
            let mut i: usize = 0;
            assert(model.take(0) =~= Seq::<Tree>::empty());
            while i < a.len()
                invariant
                    i <= a.len(),
                    *v is Array,
                    v->Array_0 == *a,
                    model == trees(a@),
                    model.len() == a.len(),
                    forall|j: int| 0 <= j < a.len() ==> #[trigger] model[j] == a@[j]@,
                    trees(out@) == depends_items(model.take(i as int), m@),
                decreases a.len() - i,
            {
                proof {
                    assert(decreases_to!(*v => v->Array_0));
                    assert(decreases_to!(a => a@));
                    assert(decreases_to!(a@ => a@[i as int]));
                    assert(model.take(i + 1).subrange(0, i as int) =~= model.take(i as int));
                }
                let x = match &a[i] {
                    Value::String(d) => match m.lookup(d.as_str()) {
                        Some(n) => Value::String(n.clone()),
                        None => Value::String(d.clone()),
                    },
                    other => rewrite_value(other, m),
                };
                proof {
                    lemma_trees_push(out@, x);
                }
                out.push(x);
                i = i + 1;
            }
            assert(model.take(a.len() as int) =~= model);
            Value::Array(out)
        },
        _ => rewrite_value(v, m),
    }
}

/// Rewrites every reference of a template by the mapping, each reference once.
pub fn update_template_references(template: Value, id_mapping: &IdMapping) -> (r: Value)
    ensures
        r@ == rewrite(template@, id_mapping@),
{
    rewrite_value(&template, id_mapping)
}

/// Rewrites every reference to `old_id` into one to `new_id`.
pub fn traverse_and_update(value: Value, old_id: &str, new_id: &str) -> (r: Value)
    ensures
        r@ == rewrite(value@, map![old_id@ => new_id@]),
{
    let mut m = IdMapping::new();
    m.insert(old_id.to_owned(), new_id.to_owned());
    assert(m@ =~= map![old_id@ => new_id@]);
    rewrite_value(&value, &m)
}

} // verus!
