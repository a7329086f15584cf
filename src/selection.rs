//! Choosing what moves: identifier pairs from the command line or a mapping
//! document, checks of a mapping against the source template, the listing of
//! declarations, and the import request.

use crate::index::section;
use crate::rewrite::{renamed, IdMapping};
use crate::text::{chars_of, push_char, str_eq};
use crate::value::{field, lemma_tree_entries, tree_entries, Entry, Tree, Value};
use vstd::prelude::*;

verus! {

/// First position at or after `i` that holds `:`, or the length.
pub open spec fn colon_end(t: Seq<char>, i: int) -> int
    decreases t.len() - i,
{
    if i >= t.len() {
        t.len() as int
    } else if t[i] == ':' {
        i
    } else {
        colon_end(t, i + 1)
    }
}

/// The pair a token `id` or `id:new_id` stands for; a missing or empty new
/// identifier keeps the old one.
pub open spec fn token_pair(t: Seq<char>) -> (Seq<char>, Seq<char>) {
    let c = colon_end(t, 0);
    let old_id = t.take(c);
    if c + 1 < t.len() {
        (old_id, t.skip(c + 1))
    } else {
        (old_id, old_id)
    }
}

/// Reads a token `id` or `id:new_id`.
pub fn parse_mapping_token(token: &str) -> (r: (String, String))
    ensures
        (r.0@, r.1@) == token_pair(token@),
{
    let cs = chars_of(token);
    let n = cs.len();
    let mut c: usize = 0;
    while c < n && cs[c] != ':'
        invariant
            cs@ == token@,
            n == token@.len(),
            c <= n,
            colon_end(token@, 0) == colon_end(token@, c as int),
        decreases n - c,
    {
        c = c + 1;
    }
    let old_id = token.substring_char(0, c).to_owned();
    if n - c > 1 {
        let new_id = token.substring_char(c + 1, n).to_owned();
        assert(new_id@ =~= token@.skip(c + 1));
        (old_id, new_id)
    } else {
        let again = token.substring_char(0, c).to_owned();
        (old_id, again)
    }
}

/// The old identifiers of the pairs that keep their identifier.
pub open spec fn unrenamed_set(s: Seq<(String, String)>) -> Set<Seq<char>> {
    Set::new(|n: Seq<char>| exists|j: int| 0 <= j < s.len() && #[trigger] s[j].0@ == n && s[j].1@ == n)
}

/// The old identifiers of the pairs.
pub open spec fn old_ids(s: Seq<(String, String)>) -> Set<Seq<char>> {
    Set::new(|n: Seq<char>| exists|j: int| 0 <= j < s.len() && #[trigger] s[j].0@ == n)
}

proof fn lemma_pairs_step(s: Seq<(String, String)>, k: int)
    requires
        0 <= k < s.len(),
    ensures
        old_ids(s.take(k + 1)) == old_ids(s.take(k)).insert(s[k].0@),
        unrenamed_set(s.take(k + 1)) == (if s[k].0@ == s[k].1@ {
            unrenamed_set(s.take(k)).insert(s[k].0@)
        } else {
            unrenamed_set(s.take(k))
        }),
{
    let a = s.take(k);
    let b = s.take(k + 1);
    assert forall|j: int| 0 <= j < k implies #[trigger] b[j] == a[j] by {}
    assert(b[k] == s[k]);
    assert(old_ids(b) =~= old_ids(a).insert(s[k].0@)) by {
        assert forall|n: Seq<char>| old_ids(b).contains(n) implies old_ids(a).insert(s[k].0@).contains(n) by {
            let j = choose|j: int| 0 <= j < b.len() && #[trigger] b[j].0@ == n;
            if j < k {
                assert(a[j].0@ == n);
            }
        }
        assert forall|n: Seq<char>| old_ids(a).insert(s[k].0@).contains(n) implies old_ids(b).contains(n) by {
            if n == s[k].0@ {
                assert(b[k].0@ == n);
            } else {
                let j = choose|j: int| 0 <= j < a.len() && #[trigger] a[j].0@ == n;
                assert(b[j].0@ == n);
            }
        }
    }
    let want = if s[k].0@ == s[k].1@ {
        unrenamed_set(a).insert(s[k].0@)
    } else {
        unrenamed_set(a)
    };
    assert(unrenamed_set(b) =~= want) by {
        assert forall|n: Seq<char>| unrenamed_set(b).contains(n) implies want.contains(n) by {
            let j = choose|j: int| 0 <= j < b.len() && #[trigger] b[j].0@ == n && b[j].1@ == n;
            if j < k {
                assert(a[j].0@ == n && a[j].1@ == n);
            }
        }
        assert forall|n: Seq<char>| want.contains(n) implies unrenamed_set(b).contains(n) by {
            if s[k].0@ == s[k].1@ && n == s[k].0@ {
                assert(b[k].0@ == n && b[k].1@ == n);
            } else {
                let j = choose|j: int| 0 <= j < a.len() && #[trigger] a[j].0@ == n && a[j].1@ == n;
                assert(b[j].0@ == n && b[j].1@ == n);
            }
        }
    }
}

/// The old identifiers that a mapping leaves unchanged; a rename within one
/// stack needs a new identifier for each.
pub fn unrenamed_ids(mapping: &IdMapping) -> (r: Vec<String>)
    ensures
        crate::text::name_set(r@) == unrenamed_set(mapping.pairs@),
{
    let pairs = &mapping.pairs;
    let mut out: Vec<String> = Vec::new();
    let mut k: usize = 0;
    assert(crate::text::name_set(out@) =~= unrenamed_set(pairs@.take(0)));
    while k < pairs.len()
        invariant
            k <= pairs@.len(),
            *pairs == mapping.pairs,
            crate::text::name_set(out@) == unrenamed_set(pairs@.take(k as int)),
        decreases pairs@.len() - k,
    {
        proof {
            lemma_pairs_step(pairs@, k as int);
        }
        if pairs[k].0 == pairs[k].1 {
            crate::text::add_name(&mut out, pairs[k].0.clone());
        }
        k = k + 1;
    }
    assert(pairs@.take(pairs@.len() as int) =~= pairs@);
    out
}

/// Whether the template declares `name`.
pub open spec fn declares(t: Tree, name: Seq<char>) -> bool {
    match section(t, "Resources"@) {
        Some(rs) => field(rs, name) is Some,
        None => false,
    }
}

/// The old identifiers of a mapping that the template does not declare; a
/// run may only start when there is none.
pub fn undeclared_ids(template: &Value, mapping: &IdMapping) -> (r: Vec<String>)
    ensures
        crate::text::name_set(r@) == old_ids(mapping.pairs@).filter(
            |n: Seq<char>| !declares(template@, n),
        ),
{
    let pairs = &mapping.pairs;
    let mut out: Vec<String> = Vec::new();
    let resources = template.get("Resources");
    let mut k: usize = 0;
    assert(crate::text::name_set(out@) =~= old_ids(pairs@.take(0)).filter(
        |n: Seq<char>| !declares(template@, n),
    ));
    while k < pairs.len()
        invariant
            k <= pairs@.len(),
            *pairs == mapping.pairs,
            match resources {
                Some(x) => template@ is Dict && field(template@->Dict_0, "Resources"@) == Some(
                    x@,
                ),
                None => !(template@ is Dict) || field(template@->Dict_0, "Resources"@) is None,
            },
            crate::text::name_set(out@) == old_ids(pairs@.take(k as int)).filter(
                |n: Seq<char>| !declares(template@, n),
            ),
        decreases pairs@.len() - k,
    {
        proof {
            lemma_pairs_step(pairs@, k as int);
        }
        let name = &pairs[k].0;
        let known = match resources {
            Some(rs) => match rs {
                Value::Object(_) => rs.get(name.as_str()).is_some(),
                _ => false,
            },
            None => false,
        };
        assert(known == declares(template@, name@));
        if !known {
            crate::text::add_name(&mut out, name.clone());
        }
        assert(crate::text::name_set(out@) =~= old_ids(pairs@.take(k + 1)).filter(
            |n: Seq<char>| !declares(template@, n),
        ));
        k = k + 1;
    }
    assert(pairs@.take(pairs@.len() as int) =~= pairs@);
    out
}

/// Why a mapping document was refused.
#[derive(Debug, Clone, Copy, PartialEq, Eq, Structural)]
pub enum MappingError {
    /// The document has no `resources` object.
    MissingResources,
    /// A new identifier is not a string.
    NotAString,
}

/// Whether every value of the entries is a string.
pub open spec fn all_text(es: Seq<Entry>) -> bool {
    forall|i: int| 0 <= i < es.len() ==> (#[trigger] es[i]).1 is Text
}

/// The pairs of a mapping document `{"resources": {"old": "new", ...}}`.
pub open spec fn document_pairs(es: Seq<Entry>) -> Seq<(Seq<char>, Seq<char>)> {
    Seq::new(es.len(), |i: int| (es[i].0, es[i].1->Text_0))
}

/// Reads a mapping document `{"resources": {"<old-id>": "<new-id>", ...}}`,
/// keeping the order of its entries.
pub fn mapping_from_document(doc: &Value) -> (r: Result<IdMapping, MappingError>)
    ensures
        match section(doc@, "resources"@) {
            None => r == Err::<IdMapping, MappingError>(MappingError::MissingResources),
            Some(es) => if all_text(es) {
                r is Ok && r->Ok_0.pairs@.len() == es.len() && forall|i: int|
                    0 <= i < es.len() ==> ((#[trigger] r->Ok_0.pairs@[i]).0@, r->Ok_0.pairs@[i].1@)
                        == document_pairs(es)[i]
            } else {
                r == Err::<IdMapping, MappingError>(MappingError::NotAString)
            },
        },
{
    match doc.get("resources") {
        Some(Value::Object(es)) => {
            proof {
                lemma_tree_entries(es@);
            }
            let ghost model = tree_entries(es@);
            let mut m = IdMapping::new();
            let mut i: usize = 0;
            assert(section(doc@, "resources"@) == Some(model));
            while i < es.len()
                invariant
                    section(doc@, "resources"@) == Some(model),
                    i <= es.len(),
                    model == tree_entries(es@),
                    model.len() == es.len(),
                    forall|j: int| 0 <= j < es.len() ==> #[trigger] model[j] == (es@[j].0@, es@[j].1@),
                    forall|j: int| 0 <= j < i ==> (#[trigger] model[j]).1 is Text,
                    m.pairs@.len() == i,
                    forall|j: int|
                        0 <= j < i ==> ((#[trigger] m.pairs@[j]).0@, m.pairs@[j].1@)
                            == document_pairs(model)[j],
                decreases es.len() - i,
            {
                match &es[i].1 {
                    Value::String(n) => {
                        assert(model[i as int] == (es@[i as int].0@, es@[i as int].1@));
                        let ghost before = m.pairs@;
                        m.insert(es[i].0.clone(), n.clone());
                        assert forall|j: int| 0 <= j < i + 1 implies ((#[trigger] m.pairs@[j]).0@, m.pairs@[j].1@)
                            == document_pairs(model)[j] by {
                            if j < i {
                                assert(m.pairs@[j] == before[j]);
                            }
                        }
                    },
                    _ => {
                        assert(model[i as int] == (es@[i as int].0@, es@[i as int].1@));
                        assert(!(model[i as int].1 is Text));
                        assert(!all_text(model));
                        return Err(MappingError::NotAString);
                    },
                }
                i = i + 1;
            }
            assert(all_text(model));
            Ok(m)
        },
        _ => Err(MappingError::MissingResources),
    }
}

/// A declaration as the control plane lists it.
#[derive(Debug, PartialEq)]
pub struct ResourceSummary {
    pub resource_type: String,
    pub logical_id: String,
    pub physical_id: String,
}

/// `n` spaces.
pub open spec fn spaces(n: nat) -> Seq<char> {
    Seq::new(n, |i: int| ' ')
}

/// The length of the logical identifier, or of the type.
pub open spec fn field_len(r: ResourceSummary, logical: bool) -> nat {
    if logical {
        r.logical_id@.len()
    } else {
        r.resource_type@.len()
    }
}

/// The largest of the lengths of the chosen field.
pub open spec fn widest(rows: Seq<ResourceSummary>, logical: bool) -> nat
    decreases rows.len(),
{
    if rows.len() == 0 {
        0
    } else {
        let l = field_len(rows.last(), logical);
        let w = widest(rows.drop_last(), logical);
        if l > w {
            l
        } else {
            w
        }
    }
}

proof fn lemma_widest(rows: Seq<ResourceSummary>, logical: bool)
    ensures
        forall|i: int| 0 <= i < rows.len() ==> #[trigger] field_len(rows[i], logical) <= widest(rows, logical),
    decreases rows.len(),
{
    if rows.len() > 0 {
        lemma_widest(rows.drop_last(), logical);
        assert forall|i: int| 0 <= i < rows.len() - 1 implies #[trigger] rows[i] == rows.drop_last()[i] by {}
    }
}

/// One listing line: the type and the logical identifier padded to the
/// widest of their column plus two, two spaces apart, then the physical
/// identifier.
pub open spec fn listing_line(r: ResourceSummary, w1: nat, w2: nat) -> Seq<char> {
    r.resource_type@ + spaces((w1 + 2 - r.resource_type@.len()) as nat) + "  "@ + r.logical_id@
        + spaces((w2 + 2 - r.logical_id@.len()) as nat) + "  "@ + r.physical_id@
}

fn pad(out: &mut String, n: usize)
    ensures
        final(out)@ == old(out)@ + spaces(n as nat),
{
    let mut i: usize = 0;
    while i < n
        invariant
            i <= n,
            out@ == old(out)@ + spaces(i as nat),
        decreases n - i,
    {
        push_char(out, ' ');
        assert(out@ =~= old(out)@ + spaces((i + 1) as nat));
        i = i + 1;
    }
}

/// The listing of declarations, one aligned line each.
pub fn format_resources(resources: &Vec<ResourceSummary>) -> (r: Vec<String>)
    ensures
        r@.len() == resources@.len(),
        forall|i: int|
            0 <= i < resources@.len() ==> #[trigger] r@[i]@ == listing_line(
                resources@[i],
                widest(resources@, false),
                widest(resources@, true),
            ),
{
    let mut w1: usize = 0;
    let mut w2: usize = 0;
    let mut i: usize = 0;
    assert(resources@.take(0) =~= Seq::<ResourceSummary>::empty());
    while i < resources.len()
        invariant
            i <= resources@.len(),
            w1 as nat == widest(resources@.take(i as int), false),
            w2 as nat == widest(resources@.take(i as int), true),
        decreases resources@.len() - i,
    {
        assert(resources@.take(i + 1).drop_last() =~= resources@.take(i as int));
        let a = resources[i].resource_type.as_str().unicode_len();
        let b = resources[i].logical_id.as_str().unicode_len();
        if a > w1 {
            w1 = a;
        }
        if b > w2 {
            w2 = b;
        }
        i = i + 1;
    }
    assert(resources@.take(resources@.len() as int) =~= resources@);
    proof {
        lemma_widest(resources@, false);
        lemma_widest(resources@, true);
    }
    let mut out: Vec<String> = Vec::new();
    let mut k: usize = 0;
    while k < resources.len()
        invariant
            k <= resources@.len(),
            w1 as nat == widest(resources@, false),
            w2 as nat == widest(resources@, true),
            forall|j: int|
                0 <= j < resources@.len() ==> #[trigger] field_len(resources@[j], false) <= w1,
            forall|j: int|
                0 <= j < resources@.len() ==> #[trigger] field_len(resources@[j], true) <= w2,
            out@.len() == k,
            forall|j: int|
                0 <= j < k ==> #[trigger] out@[j]@ == listing_line(resources@[j], w1 as nat, w2 as nat),
        decreases resources@.len() - k,
    {
        let r = &resources[k];
        assert(field_len(resources@[k as int], false) <= w1);
        assert(field_len(resources@[k as int], true) <= w2);
        let mut line = String::new();
        line.append(r.resource_type.as_str());
        pad(&mut line, w1 - r.resource_type.as_str().unicode_len());
        line.append("    ");
        line.append(r.logical_id.as_str());
        pad(&mut line, w2 - r.logical_id.as_str().unicode_len());
        line.append("    ");
        line.append(r.physical_id.as_str());
        proof {
            reveal_strlit("    ");
            reveal_strlit("  ");
            let t = r.resource_type@;
            let l = r.logical_id@;
            assert(spaces((w1 - t.len()) as nat) + "    "@ =~= spaces((w1 + 2 - t.len()) as nat) + "  "@);
            assert(spaces((w2 - l.len()) as nat) + "    "@ =~= spaces((w2 + 2 - l.len()) as nat) + "  "@);
        }
        assert(line@ =~= listing_line(*r, w1 as nat, w2 as nat));
        out.push(line);
        k = k + 1;
    }
    out
}

/// Whether a stack with this status is listed: deleted stacks are not.
pub open spec fn live_status(s: Seq<char>) -> bool {
    !(s.len() >= 6 && s.take(6) == "DELETE"@)
}

pub fn is_live_stack(status: &str) -> (r: bool)
    ensures
        r == live_status(status@),
{
    if status.unicode_len() < 6 {
        return true;
    }
    let head = status.substring_char(0, 6);
    !str_eq(head, "DELETE")
}

/// The listed declarations whose type is one of `supported`, in order.
pub open spec fn supported_rows(rows: Seq<ResourceSummary>, supported: Set<Seq<char>>) -> Seq<
    ResourceSummary,
>
    decreases rows.len(),
{
    if rows.len() == 0 {
        rows
    } else if supported.contains(rows.last().resource_type@) {
        supported_rows(rows.drop_last(), supported).push(rows.last())
    } else {
        supported_rows(rows.drop_last(), supported)
    }
}

/// Keeps the declarations whose type can be moved.
pub fn filter_supported(resources: &Vec<ResourceSummary>, supported: &Vec<String>) -> (r: Vec<
    ResourceSummary,
>)
    ensures
        r@ == supported_rows(resources@, crate::text::name_set(supported@)),
{
    let ghost names = crate::text::name_set(supported@);
    let mut out: Vec<ResourceSummary> = Vec::new();
    let mut i: usize = 0;
    assert(resources@.take(0) =~= Seq::<ResourceSummary>::empty());
    while i < resources.len()
        invariant
            i <= resources@.len(),
            names == crate::text::name_set(supported@),
            out@ == supported_rows(resources@.take(i as int), names),
        decreases resources@.len() - i,
    {
        assert(resources@.take(i + 1).drop_last() =~= resources@.take(i as int));
        let r = &resources[i];
        if crate::text::contains_name(supported, r.resource_type.as_str()) {
            out.push(
                ResourceSummary {
                    resource_type: r.resource_type.clone(),
                    logical_id: r.logical_id.clone(),
                    physical_id: r.physical_id.clone(),
                },
            );
        }
        i = i + 1;
    }
    assert(resources@.take(resources@.len() as int) =~= resources@);
    out
}

/// One declaration of an import request.
#[derive(Debug, PartialEq)]
pub struct ImportEntry {
    pub resource_type: String,
    pub logical_id: String,
    pub identifier_key: String,
    pub physical_id: String,
}

/// `e` imports `r` under its new identifier, with the identifier property
/// that `keys` gives for it.
pub open spec fn import_matches(
    e: ImportEntry,
    r: ResourceSummary,
    mapping: Map<Seq<char>, Seq<char>>,
    keys: Map<Seq<char>, Seq<char>>,
) -> bool {
    let n = renamed(mapping, r.logical_id@);
    &&& keys.contains_key(n)
    &&& e.logical_id@ == n
    &&& e.identifier_key@ == keys[n]
    &&& e.resource_type@ == r.resource_type@
    &&& e.physical_id@ == r.physical_id@
}

/// The import request for the moved declarations: each under its new
/// identifier, with the name of the identifier property that the target's
/// template summary gives for that identifier. It fails on the first
/// declaration whose new identifier has none, naming it.
pub fn import_entries(
    resources: &Vec<ResourceSummary>,
    mapping: &IdMapping,
    identifier_keys: &IdMapping,
) -> (r: Result<Vec<ImportEntry>, String>)
    ensures
        match r {
            Ok(v) => v@.len() == resources@.len() && forall|i: int|
                0 <= i < v@.len() ==> import_matches(#[trigger] v@[i], resources@[i], mapping@, identifier_keys@),
            Err(missing) => exists|i: int|
                0 <= i < resources@.len() && missing@ == renamed(
                    mapping@,
                    #[trigger] resources@[i].logical_id@,
                ) && !identifier_keys@.contains_key(missing@) && forall|j: int|
                    0 <= j < i ==> identifier_keys@.contains_key(
                        renamed(mapping@, #[trigger] resources@[j].logical_id@),
                    ),
        },
        r is Ok <==> forall|i: int|
            0 <= i < resources@.len() ==> identifier_keys@.contains_key(
                renamed(mapping@, #[trigger] resources@[i].logical_id@),
            ),
{
    let mut out: Vec<ImportEntry> = Vec::new();
    let mut i: usize = 0;
    while i < resources.len()
        invariant
            i <= resources@.len(),
            out@.len() == i,
            forall|j: int|
                0 <= j < i ==> import_matches(#[trigger] out@[j], resources@[j], mapping@, identifier_keys@),
        decreases resources@.len() - i,
    {
        let r = &resources[i];
        let new_id = match mapping.lookup(r.logical_id.as_str()) {
            Some(n) => n.clone(),
            None => r.logical_id.clone(),
        };
        match identifier_keys.lookup(new_id.as_str()) {
            Some(key) => {
                let ghost before = out@;
                out.push(
                    ImportEntry {
                        resource_type: r.resource_type.clone(),
                        logical_id: new_id,
                        identifier_key: key.clone(),
                        physical_id: r.physical_id.clone(),
                    },
                );
                assert forall|j: int| 0 <= j < i + 1 implies import_matches(#[trigger] out@[j], resources@[j], mapping@, identifier_keys@) by {
                    if j < i {
                        assert(out@[j] == before[j]);
                    }
                }
            },
            None => {
                assert forall|j: int| 0 <= j < i implies identifier_keys@.contains_key(
                    renamed(mapping@, #[trigger] resources@[j].logical_id@),
                ) by {
                    assert(import_matches(out@[j], resources@[j], mapping@, identifier_keys@));
                }
                assert(new_id@ == renamed(mapping@, resources@[i as int].logical_id@));
                return Err(new_id);
            },
        }
        i = i + 1;
    }
    assert forall|j: int| 0 <= j < resources@.len() implies identifier_keys@.contains_key(
        renamed(mapping@, #[trigger] resources@[j].logical_id@),
    ) by {
        assert(import_matches(out@[j], resources@[j], mapping@, identifier_keys@));
    }
    Ok(out)
}

} // verus!
