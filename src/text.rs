//! Character-level helpers on strings.

use vstd::prelude::*;

verus! {

/// Relies on `<str as PartialEq>::eq`: two slices compare equal exactly when
/// they hold the same characters.
#[verifier::external_body]
pub(crate) fn str_eq(a: &str, b: &str) -> (r: bool)
    ensures
        r == (a@ == b@),
{
    a == b
}

/// Relies on `String::push`: the character is appended at the end.
#[verifier::external_body]
pub(crate) fn push_char(s: &mut String, c: char)
    ensures
        final(s)@ == old(s)@.push(c),
{
    s.push(c)
}

/// The characters of `s`, in order.
pub fn chars_of(s: &str) -> (r: Vec<char>)
    ensures
        r@ == s@,
{
    let mut out: Vec<char> = Vec::new();
    for c in iter: s.chars()
        invariant
            out@ == iter.seq().take(iter.index() as int),
    {
        out.push(c);
    }
    out
}


/// Names that start with `AWS::` are built-in pseudo parameters, never
/// declarations of a template.
pub open spec fn is_pseudo(s: Seq<char>) -> bool {
    s.len() >= 5 && s[0] == 'A' && s[1] == 'W' && s[2] == 'S' && s[3] == ':' && s[4] == ':'
}

/// Whether `name` is a pseudo parameter (it starts with `AWS::`).
pub fn is_pseudo_parameter(name: &str) -> (r: bool)
    ensures
        r == is_pseudo(name@),
{
    let n = name.unicode_len();
    if n < 5 {
        return false;
    }
    name.get_char(0) == 'A' && name.get_char(1) == 'W' && name.get_char(2) == 'S'
        && name.get_char(3) == ':' && name.get_char(4) == ':'
}

/// The set of names that a list of strings holds.
pub open spec fn name_set(v: Seq<String>) -> Set<Seq<char>> {
    Set::new(|n: Seq<char>| exists|i: int| 0 <= i < v.len() && v[i]@ == n)
}

/// Whether the list holds `s`.
pub fn contains_name(v: &Vec<String>, s: &str) -> (r: bool)
    ensures
        r == name_set(v@).contains(s@),
{
    let mut i: usize = 0;
    while i < v.len()
        invariant
            i <= v.len(),
            forall|j: int| 0 <= j < i ==> v@[j]@ != s@,
        decreases v.len() - i,
    {
        if str_eq(v[i].as_str(), s) {
            return true;
        }
        i = i + 1;
    }
    false
}

/// Adds `s` to the list unless it is there already.
pub fn add_name(v: &mut Vec<String>, s: String)
    ensures
        name_set(final(v)@) == name_set(old(v)@).insert(s@),
{
    if !contains_name(v, s.as_str()) {
        let ghost before = v@;
        v.push(s);
        assert(name_set(v@) =~= name_set(before).insert(s@)) by {
            assert forall|n: Seq<char>| name_set(before).insert(s@).contains(n) implies name_set(
                v@,
            ).contains(n) by {
                if n == s@ {
                    assert(v@[before.len() as int]@ == n);
                } else {
                    let i = choose|i: int| 0 <= i < before.len() && before[i]@ == n;
                    assert(v@[i]@ == n);
                }
            }
            assert forall|n: Seq<char>| name_set(v@).contains(n) implies name_set(
                before,
            ).insert(s@).contains(n) by {
                let i = choose|i: int| 0 <= i < v@.len() && v@[i]@ == n;
                if i < before.len() {
                    assert(before[i]@ == n);
                }
            }
        }
    } else {
        assert(name_set(v@) =~= name_set(v@).insert(s@));
    }
}

/// First position at or after `i` that holds `}` or `.`, or the length.
pub open spec fn name_end(t: Seq<char>, i: int) -> int
    decreases t.len() - i,
{
    if i >= t.len() {
        t.len() as int
    } else if t[i] == '}' || t[i] == '.' {
        i
    } else {
        name_end(t, i + 1)
    }
}

/// Position just after the first `}` at or after `i`, or the length.
pub open spec fn close_end(t: Seq<char>, i: int) -> int
    decreases t.len() - i,
{
    if i >= t.len() {
        t.len() as int
    } else if t[i] == '}' {
        i + 1
    } else {
        close_end(t, i + 1)
    }
}

/// First position at or after `i` that holds `.`, or the length.
pub open spec fn dot_end(t: Seq<char>, i: int) -> int
    decreases t.len() - i,
{
    if i >= t.len() {
        t.len() as int
    } else if t[i] == '.' {
        i
    } else {
        dot_end(t, i + 1)
    }
}

/// The name that a placeholder yields: itself, unless it is empty or a
/// pseudo parameter.
pub open spec fn placeholder_name(name: Seq<char>) -> Set<Seq<char>> {
    if name.len() > 0 && !is_pseudo(name) {
        set![name]
    } else {
        Set::empty()
    }
}

/// The names of the `${name}` and `${name.attr}` placeholders of `t` from
/// position `i` on. A placeholder opens at `${`; its name runs to the first
/// `}` or `.`, and the scan goes on after the next `}`.
pub open spec fn sub_names_from(t: Seq<char>, i: int) -> Set<Seq<char>>
    decreases t.len() - i,
{
    if i < 0 || i + 1 >= t.len() {
        Set::empty()
    } else if t[i] == '$' && t[i + 1] == '{' {
        let n = name_end(t, i + 2);
        let next = close_end(t, n);
        let here = placeholder_name(t.subrange(i + 2, n));
        if i < next <= t.len() {
            here.union(sub_names_from(t, next))
        } else {
            here
        }
    } else {
        sub_names_from(t, i + 1)
    }
}

/// The names that the interpolation template `t` refers to.
pub open spec fn sub_names(t: Seq<char>) -> Set<Seq<char>> {
    sub_names_from(t, 0)
}

/// Adds to `references` the names of the placeholders of an interpolation
/// template, leaving out pseudo parameters.
pub fn extract_sub_references(template: &str, references: &mut Vec<String>)
    ensures
        name_set(final(references)@) == name_set(old(references)@).union(sub_names(template@)),
{
    let cs = chars_of(template);
    let n = cs.len();
    let ghost t = template@;
    let mut i: usize = 0;
    while n > 0 && i < n - 1
        invariant
            t == template@,
            cs@ == t,
            n == t.len(),
            i <= n,
            name_set(references@).union(sub_names_from(t, i as int)) == name_set(
                old(references)@,
            ).union(sub_names_from(t, 0)),
        decreases n - i,
    {
        if cs[i] == '$' && cs[i + 1] == '{' {
            let mut j: usize = i + 2;
            while j < n && cs[j] != '}' && cs[j] != '.'
                invariant
                    cs@ == t,
                    n == t.len(),
                    i + 2 <= j <= n,
                    name_end(t, i + 2) == name_end(t, j as int),
                decreases n - j,
            {
                j = j + 1;
            }
            let mut k: usize = j;
            while k < n && cs[k] != '}'
                invariant
                    cs@ == t,
                    n == t.len(),
                    j <= k <= n,
                    close_end(t, j as int) == close_end(t, k as int),
                decreases n - k,
            {
                k = k + 1;
            }
            let next: usize = if k < n {
                k + 1
            } else {
                n
            };
            let ghost before = references@;
            let ghost here = placeholder_name(t.subrange(i + 2, j as int));
            if j > i + 2 {
                let name = template.substring_char(i + 2, j).to_owned();
                if !is_pseudo_parameter(name.as_str()) {
                    add_name(references, name);
                }
            }
            assert(name_set(references@) =~= name_set(before).union(here));
            assert(sub_names_from(t, i as int) == here.union(sub_names_from(t, next as int)));
            assert(name_set(references@).union(sub_names_from(t, next as int)) =~= name_set(
                before,
            ).union(sub_names_from(t, i as int)));
            i = next;
        } else {
            i = i + 1;
        }
    }
    assert(sub_names_from(t, i as int) =~= Set::<Seq<char>>::empty());
    assert(name_set(references@) =~= name_set(references@).union(sub_names_from(t, i as int)));
}

pub open spec fn digit_char(d: nat) -> char {
    if d == 0 {
        '0'
    } else if d == 1 {
        '1'
    } else if d == 2 {
        '2'
    } else if d == 3 {
        '3'
    } else if d == 4 {
        '4'
    } else if d == 5 {
        '5'
    } else if d == 6 {
        '6'
    } else if d == 7 {
        '7'
    } else if d == 8 {
        '8'
    } else {
        '9'
    }
}

/// The decimal digits of `n`.
pub open spec fn decimal_spec(n: nat) -> Seq<char>
    decreases n,
{
    if n < 10 {
        seq![digit_char(n)]
    } else {
        decimal_spec(n / 10).push(digit_char(n % 10))
    }
}

fn digit(d: u64) -> (c: char)
    requires
        d < 10,
    ensures
        c == digit_char(d as nat),
{
    if d == 0 {
        '0'
    } else if d == 1 {
        '1'
    } else if d == 2 {
        '2'
    } else if d == 3 {
        '3'
    } else if d == 4 {
        '4'
    } else if d == 5 {
        '5'
    } else if d == 6 {
        '6'
    } else if d == 7 {
        '7'
    } else if d == 8 {
        '8'
    } else {
        '9'
    }
}

/// `n` written in decimal.
pub fn decimal(n: u64) -> (r: String)
    ensures
        r@ == decimal_spec(n as nat),
    decreases n,
{
    if n < 10 {
        let mut s = String::new();
        push_char(&mut s, digit(n));
        assert(s@ =~= seq![digit_char(n as nat)]);
        s
    } else {
        let mut s = decimal(n / 10);
        push_char(&mut s, digit(n % 10));
        s
    }
}


/// Whether `needle` occurs in `hay`.
pub open spec fn text_contains(hay: Seq<char>, needle: Seq<char>) -> bool {
    exists|i: int| 0 <= i <= hay.len() - needle.len() && #[trigger] hay.subrange(i, i + needle.len()) == needle
}

/// Whether `needle` occurs in `hay`.
pub fn contains_text(hay: &str, needle: &str) -> (r: bool)
    ensures
        r == text_contains(hay@, needle@),
{
    let h = chars_of(hay);
    let n = chars_of(needle);
    if n.len() > h.len() {
        return false;
    }
    let last = h.len() - n.len();
    let mut i: usize = 0;
    while i <= last
        invariant
            h@ == hay@,
            n@ == needle@,
            last == h@.len() - n@.len(),
            i <= last + 1,
            forall|k: int| 0 <= k < i ==> #[trigger] h@.subrange(k, k + n@.len()) != n@,
        decreases last + 1 - i,
    {
        let mut j: usize = 0;
        let mut matching = true;
        while matching && j < n.len()
            invariant
                h@ == hay@,
                n@ == needle@,
                last == h@.len() - n@.len(),
                i <= last,
                i + n@.len() <= h@.len(),
                j <= n@.len(),
                forall|l: int| 0 <= l < j ==> h@[i + l] == #[trigger] n@[l],
                !matching ==> j < n@.len() && h@[i + j] != n@[j as int],
            decreases n@.len() - j, if matching { 1int } else { 0int },
        {
            assert(i + j < h.len());
            if h[i + j] == n[j] {
                j = j + 1;
            } else {
                matching = false;
            }
        }
        if matching {
            assert(h@.subrange(i as int, i + n@.len()) =~= n@);
            return true;
        }
        assert(h@.subrange(i as int, i + n@.len())[j as int] != n@[j as int]);
        if i == last {
            return false;
        }
        i = i + 1;
    }
    false
}

} // verus!
