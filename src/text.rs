//! Rendering of the pieces that violation messages and anchors are made of.
use vstd::prelude::*;

use crate::model::{SchemaType, TypeSet, TypeSetView};

verus! {

/// A nested property path: `name` under `path`, joined by a dot.
pub open spec fn join_path(path: Seq<char>, name: Seq<char>) -> Seq<char> {
    if path.len() == 0 {
        name
    } else {
        path + "."@ + name
    }
}

/// Optional text, with `(none)` for a missing value.
pub open spec fn opt_text(o: Option<Seq<char>>) -> Seq<char> {
    match o {
        Some(s) => s,
        None => "(none)"@,
    }
}

/// The view of an optional string.
pub open spec fn opt_view(o: Option<String>) -> Option<Seq<char>> {
    match o {
        Some(s) => Some(s@),
        None => None,
    }
}

pub open spec fn bool_text(b: bool) -> Seq<char> {
    if b {
        "true"@
    } else {
        "false"@
    }
}

/// The items of `vs` separated by `, `.
pub open spec fn join_list(vs: Seq<Seq<char>>) -> Seq<char>
    decreases vs.len(),
{
    if vs.len() == 0 {
        Seq::empty()
    } else if vs.len() == 1 {
        vs[0]
    } else {
        join_list(vs.drop_last()) + ", "@ + vs.last()
    }
}

pub open spec fn schema_type_text(t: SchemaType) -> Seq<char> {
    match t {
        SchemaType::Boolean => "Boolean"@,
        SchemaType::Integer => "Integer"@,
        SchemaType::Number => "Number"@,
        SchemaType::String => "String"@,
        SchemaType::Array => "Array"@,
        SchemaType::Object => "Object"@,
        SchemaType::Null => "Null"@,
    }
}

/// The text of a type set, such as `Single(String)`.
pub open spec fn type_set_text(t: TypeSetView) -> Seq<char> {
    match t {
        TypeSetView::Single(s) => "Single("@ + schema_type_text(s) + ")"@,
        TypeSetView::Multiple(ts) => "Multiple(["@ + join_list(
            ts.map_values(|x: SchemaType| schema_type_text(x)),
        ) + "])"@,
    }
}

/// The text of an optional type set, such as `Some(Single(String))`.
pub open spec fn types_text(t: Option<TypeSetView>) -> Seq<char> {
    match t {
        None => "None"@,
        Some(ts) => "Some("@ + type_set_text(ts) + ")"@,
    }
}

/// Whether `a` comes before `b` in the lexicographic order of their
/// characters, which is the order of their UTF-8 bytes.
pub open spec fn text_lt(a: Seq<char>, b: Seq<char>) -> bool
    decreases a.len(),
{
    if a.len() == 0 {
        b.len() > 0
    } else if b.len() == 0 {
        false
    } else if a[0] != b[0] {
        (a[0] as u32) < (b[0] as u32)
    } else {
        text_lt(a.skip(1), b.skip(1))
    }
}

/// Whether `a` comes before `b` in lexicographic order.
pub fn text_less(a: &str, b: &str) -> (r: bool)
    ensures
        r == text_lt(a@, b@),
{
    let n = a.unicode_len();
    let m = b.unicode_len();
    let mut i: usize = 0;
    assert(a@.skip(0) =~= a@);
    assert(b@.skip(0) =~= b@);
    while i < n && i < m
        invariant
            i <= n,
            i <= m,
            n == a@.len(),
            m == b@.len(),
            text_lt(a@, b@) == text_lt(a@.skip(i as int), b@.skip(i as int)),
        decreases n - i,
    {
        let x = a.get_char(i);
        let y = b.get_char(i);
        assert(a@.skip(i as int)[0] == x);
        assert(b@.skip(i as int)[0] == y);
        if x != y {
            return (x as u32) < (y as u32);
        }
        assert(a@.skip(i as int).skip(1) =~= a@.skip(i + 1));
        assert(b@.skip(i as int).skip(1) =~= b@.skip(i + 1));
        i += 1;
    }
    i == n && i < m
}

/// What `str::to_uppercase` returns for a text.
pub uninterp spec fn upper_of(s: Seq<char>) -> Seq<char>;

/// Whether every character of `s` is ASCII.
pub open spec fn all_ascii(s: Seq<char>) -> bool {
    forall|i: int| 0 <= i < s.len() ==> (#[trigger] s[i] as u32) < 128
}

/// An ASCII lower-case letter in upper case; any other character unchanged.
pub open spec fn ascii_upper(c: char) -> char {
    if 'a' <= c && c <= 'z' {
        ((c as u32) - 32) as char
    } else {
        c
    }
}

/// Relies on `str::to_uppercase`: its result depends on the characters
/// alone, and on ASCII text it maps `a`-`z` to `A`-`Z` and keeps every other
/// character.
#[verifier::external_body]
pub(crate) fn uppercase(s: &str) -> (r: String)
    ensures
        r@ == upper_of(s@),
        all_ascii(s@) ==> r@ == s@.map_values(|c: char| ascii_upper(c)),
{
    s.to_uppercase()
}

/// `a` followed by `b`.
pub fn cat(a: &str, b: &str) -> (r: String)
    ensures
        r@ == a@ + b@,
{
    String::from_str(a).concat(b)
}

/// `a`, then `b`, then `c`.
pub fn cat3(a: &str, b: &str, c: &str) -> (r: String)
    ensures
        r@ == a@ + b@ + c@,
{
    String::from_str(a).concat(b).concat(c)
}

pub fn join_path_text(path: &str, name: &str) -> (r: String)
    ensures
        r@ == join_path(path@, name@),
{
    if path.unicode_len() == 0 {
        String::from_str(name)
    } else {
        cat3(path, ".", name)
    }
}

/// Whether two optional strings are equal.
pub fn same_opt_text(a: &Option<String>, b: &Option<String>) -> (r: bool)
    ensures
        r == (opt_view(*a) == opt_view(*b)),
{
    match (a, b) {
        (None, None) => true,
        (Some(x), Some(y)) => *x == *y,
        _ => false,
    }
}

pub fn opt_text_of(o: &Option<String>) -> (r: &str)
    ensures
        r@ == opt_text(opt_view(*o)),
{
    match o {
        Some(s) => s.as_str(),
        None => "(none)",
    }
}

pub fn bool_text_of(b: bool) -> (r: &'static str)
    ensures
        r@ == bool_text(b),
{
    if b {
        "true"
    } else {
        "false"
    }
}

pub fn join_list_text(vs: &Vec<String>) -> (r: String)
    ensures
        r@ == join_list(vs@.map_values(|s: String| s@)),
{
    let ghost views = vs@.map_values(|s: String| s@);
    let mut out = String::new();
    let mut i: usize = 0;
    while i < vs.len()
        invariant
            i <= vs@.len(),
            views == vs@.map_values(|s: String| s@),
            out@ == join_list(views.take(i as int)),
        decreases vs.len() - i,
    {
        assert(views.take(i + 1).drop_last() =~= views.take(i as int));
        if i == 0 {
            assert(views.take(1) =~= seq![views[0]]);
            out = vs[i].clone();
        } else {
            out.append(", ");
            out.append(vs[i].as_str());
        }
        i += 1;
    }
    assert(views.take(vs@.len() as int) =~= views);
    out
}

pub fn schema_type_text_of(t: SchemaType) -> (r: &'static str)
    ensures
        r@ == schema_type_text(t),
{
    match t {
        SchemaType::Boolean => "Boolean",
        SchemaType::Integer => "Integer",
        SchemaType::Number => "Number",
        SchemaType::String => "String",
        SchemaType::Array => "Array",
        SchemaType::Object => "Object",
        SchemaType::Null => "Null",
    }
}

/// The text of an optional type set.
pub fn types_text_of(t: &Option<TypeSet>) -> (r: String)
    ensures
        r@ == types_text(crate::model::types_view(*t)),
{
    match t {
        None => String::from_str("None"),
        Some(ts) => cat3("Some(", type_set_text_of(ts).as_str(), ")"),
    }
}

/// The text of a type set.
pub fn type_set_text_of(t: &TypeSet) -> (r: String)
    ensures
        r@ == type_set_text(t@),
{
    match t {
        TypeSet::Single(s) => cat3("Single(", schema_type_text_of(*s), ")"),
        TypeSet::Multiple(ts) => {
            let mut names: Vec<String> = Vec::new();
            let mut i: usize = 0;
            while i < ts.len()
                invariant
                    i <= ts@.len(),
                    names@.len() == i,
                    forall|j: int| 0 <= j < i ==> names@[j]@ == schema_type_text(ts@[j]),
                decreases ts.len() - i,
            {
                names.push(String::from_str(schema_type_text_of(ts[i])));
                i += 1;
            }
            assert(names@.map_values(|s: String| s@) =~= ts@.map_values(
                |x: SchemaType| schema_type_text(x),
            ));
            let list = join_list_text(&names);
            cat3("Multiple([", list.as_str(), "])")
        },
    }
}

} // verus!
