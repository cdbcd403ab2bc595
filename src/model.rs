//! The library's own model of an API description document: named schemas and
//! path/method operations, held as plain values.
use vstd::prelude::*;

verus! {

/// A JSON schema type.
#[derive(Debug, Clone, Copy, PartialEq, Eq, Structural)]
pub enum SchemaType {
    Boolean,
    Integer,
    Number,
    String,
    Array,
    Object,
    Null,
}

/// The `type` keyword of a schema: one type or several.
#[derive(Debug, Clone)]
pub enum TypeSet {
    Single(SchemaType),
    Multiple(Vec<SchemaType>),
}

/// The mathematical value of a [`TypeSet`].
pub enum TypeSetView {
    Single(SchemaType),
    Multiple(Seq<SchemaType>),
}

impl View for TypeSet {
    type V = TypeSetView;

    open spec fn view(&self) -> TypeSetView {
        match self {
            TypeSet::Single(t) => TypeSetView::Single(*t),
            TypeSet::Multiple(ts) => TypeSetView::Multiple(ts@),
        }
    }
}

/// The view of an optional type set.
pub open spec fn types_view(t: Option<TypeSet>) -> Option<TypeSetView> {
    match t {
        Some(ts) => Some(ts@),
        None => None,
    }
}

/// Whether a type set admits null; `None` when no type is given.
pub open spec fn spec_is_nullable(t: Option<TypeSetView>) -> Option<bool> {
    match t {
        Some(TypeSetView::Single(s)) => Some(s == SchemaType::Null),
        Some(TypeSetView::Multiple(ts)) => Some(ts.contains(SchemaType::Null)),
        None => None,
    }
}

/// A resolved schema node.
#[derive(Debug)]
pub struct SchemaNode {
    pub schema_type: Option<TypeSet>,
    /// Property names with their schemas.
    pub properties: Vec<(String, SchemaRef)>,
    /// Names of the required properties.
    pub required: Vec<String>,
    pub description: Option<String>,
    /// The enumerated values, each as its JSON text.
    pub enum_values: Vec<String>,
    pub format: Option<String>,
    /// The schema of array items.
    pub items: Option<Box<SchemaRef>>,
}

/// A schema given inline, or a pointer such as `#/components/schemas/User`.
#[derive(Debug)]
pub enum SchemaRef {
    Inline(Box<SchemaNode>),
    Pointer(String),
}

/// Where a parameter is passed.
#[derive(Debug, Clone, Copy, PartialEq, Eq, Structural)]
pub enum ParameterLocation {
    Path,
    Query,
    Header,
    Cookie,
}

/// An operation parameter.
#[derive(Debug, Clone)]
pub struct Parameter {
    pub name: String,
    pub location: ParameterLocation,
    pub required: Option<bool>,
}

/// A body schema for one content type.
#[derive(Debug)]
pub struct MediaEntry {
    pub content_type: String,
    pub schema: Option<SchemaRef>,
}

/// A response for one status code; `content` is `None` where the response
/// is given by reference.
#[derive(Debug)]
pub struct ResponseEntry {
    pub status_code: String,
    pub content: Option<Vec<MediaEntry>>,
}

/// One HTTP method handler under one path.
#[derive(Debug)]
pub struct Operation {
    pub summary: Option<String>,
    pub description: Option<String>,
    pub parameters: Vec<Parameter>,
    /// The request body's content, where the body is given inline.
    pub request_body: Option<Vec<MediaEntry>>,
    pub responses: Option<Vec<ResponseEntry>>,
}

/// The operations under one path.
#[derive(Debug)]
pub struct PathItem {
    pub get: Option<Operation>,
    pub put: Option<Operation>,
    pub post: Option<Operation>,
    pub delete: Option<Operation>,
    pub options: Option<Operation>,
    pub head: Option<Operation>,
    pub patch: Option<Operation>,
}

/// An API description: named schemas and path items. Where a name or a path
/// occurs twice, its first entry counts (see `wf`).
#[derive(Debug)]
pub struct Document {
    pub schemas: Vec<(String, SchemaRef)>,
    pub paths: Vec<(String, PathItem)>,
}

impl Document {
    /// Schema names and paths are each distinct, as the keys of the maps
    /// that a parsed description holds.
    pub open spec fn wf(&self) -> bool {
        keys_unique(self.schemas@) && keys_unique(self.paths@)
    }
}

impl SchemaNode {
    /// Property names are distinct.
    pub open spec fn wf(&self) -> bool {
        keys_unique(self.properties@)
    }
}

/// The referenced value of an optional reference.
pub open spec fn deref_opt<T>(o: Option<&T>) -> Option<T> {
    match o {
        Some(x) => Some(*x),
        None => None,
    }
}

/// The value stored under key `k` in `s`: the first entry with that key.
pub open spec fn lookup<V>(s: Seq<(String, V)>, k: Seq<char>) -> Option<V>
    decreases s.len(),
{
    if s.len() == 0 {
        None
    } else if s[0].0@ == k {
        Some(s[0].1)
    } else {
        lookup(s.skip(1), k)
    }
}

/// No key occurs twice in `s`: the entries form a map, as in a parsed
/// description.
pub open spec fn keys_unique<V>(s: Seq<(String, V)>) -> bool {
    forall|i: int, j: int| 0 <= i < j < s.len() ==> s[i].0@ != s[j].0@
}

/// Where keys are unique, `lookup` finds the one entry with the key.
pub proof fn lemma_lookup_unique<V>(s: Seq<(String, V)>, i: int)
    requires
        keys_unique(s),
        0 <= i < s.len(),
    ensures
        lookup(s, s[i].0@) == Some(s[i].1),
    decreases s.len(),
{
    if i > 0 {
        let t = s.skip(1);
        assert forall|a: int, b: int| 0 <= a < b < t.len() implies t[a].0@ != t[b].0@ by {
            assert(t[a] == s[a + 1] && t[b] == s[b + 1]);
        }
        assert(t[i - 1] == s[i]);
        lemma_lookup_unique(t, i - 1);
    }
}

/// Whether `s` holds an entry with key `k`.
pub open spec fn has_key<V>(s: Seq<(String, V)>, k: Seq<char>) -> bool {
    exists|i: int| 0 <= i < s.len() && s[i].0@ == k
}

/// The keys of `s`.
pub open spec fn keys<V>(s: Seq<(String, V)>) -> Seq<Seq<char>> {
    s.map_values(|e: (String, V)| e.0@)
}

/// The views of a list of strings.
pub open spec fn string_views(s: Seq<String>) -> Seq<Seq<char>> {
    s.map_values(|e: String| e@)
}

pub proof fn lemma_lookup_has_key<V>(s: Seq<(String, V)>, k: Seq<char>)
    ensures
        lookup(s, k) is Some <==> has_key(s, k),
    decreases s.len(),
{
    if s.len() > 0 {
        lemma_lookup_has_key(s.skip(1), k);
        if has_key(s, k) && s[0].0@ != k {
            let i = choose|i: int| 0 <= i < s.len() && s[i].0@ == k;
            assert(s.skip(1)[i - 1].0@ == k);
        }
        if has_key(s.skip(1), k) {
            let i = choose|i: int| 0 <= i < s.skip(1).len() && s.skip(1)[i].0@ == k;
            assert(s[i + 1].0@ == k);
        }
    }
}

/// Finds the value stored under `k`.
pub fn find<'a, V>(s: &'a Vec<(String, V)>, k: &str) -> (r: Option<&'a V>)
    ensures
        lookup(s@, k@) == match r {
            Some(v) => Some(*v),
            None => None,
        },
{
    let key = String::from_str(k);
    let mut i: usize = 0;
    assert(s@.skip(0) =~= s@);
    while i < s.len()
        invariant
            i <= s@.len(),
            key@ == k@,
            lookup(s@, k@) == lookup(s@.skip(i as int), k@),
        decreases s.len() - i,
    {
        assert(s@.skip(i as int).skip(1) =~= s@.skip(i + 1));
        if s[i].0 == key {
            return Some(&s[i].1);
        }
        i += 1;
    }
    None
}

/// The names of `ks` that `other` lacks, each once, in order of first
/// appearance in `ks`.
pub open spec fn fresh_names(ks: Seq<Seq<char>>, other: Seq<Seq<char>>) -> Seq<Seq<char>>
    decreases ks.len(),
{
    if ks.len() == 0 {
        Seq::empty()
    } else {
        let rest = fresh_names(ks.drop_last(), other);
        if other.contains(ks.last()) || ks.drop_last().contains(ks.last()) {
            rest
        } else {
            rest.push(ks.last())
        }
    }
}

/// A name is in `fresh_names(ks, other)` exactly when `ks` has it and
/// `other` does not; no name is there twice.
pub proof fn lemma_fresh_names(ks: Seq<Seq<char>>, other: Seq<Seq<char>>)
    ensures
        forall|x: Seq<char>|
            #[trigger] fresh_names(ks, other).contains(x) <==> (ks.contains(x) && !other.contains(x)),
        forall|i: int, j: int|
            0 <= i < j < fresh_names(ks, other).len() ==> fresh_names(ks, other)[i] != fresh_names(
                ks,
                other,
            )[j],
    decreases ks.len(),
{
    if ks.len() > 0 {
        let init = ks.drop_last();
        lemma_fresh_names(init, other);
        let rest = fresh_names(init, other);
        assert forall|x: Seq<char>| ks.contains(x) <==> (init.contains(x) || x == ks.last()) by {
            if ks.contains(x) {
                let i = choose|i: int| 0 <= i < ks.len() && ks[i] == x;
                if i < ks.len() - 1 {
                    assert(init[i] == x);
                }
            }
            if init.contains(x) {
                let i = choose|i: int| 0 <= i < init.len() && init[i] == x;
                assert(ks[i] == x);
            }
            if x == ks.last() {
                assert(ks[ks.len() - 1] == x);
            }
        }
        if !(other.contains(ks.last()) || init.contains(ks.last())) {
            let f = rest.push(ks.last());
            assert forall|x: Seq<char>| f.contains(x) <==> (rest.contains(x) || x == ks.last()) by {
                if f.contains(x) {
                    let i = choose|i: int| 0 <= i < f.len() && f[i] == x;
                    if i < rest.len() {
                        assert(rest[i] == x);
                    }
                }
                if rest.contains(x) {
                    let i = choose|i: int| 0 <= i < rest.len() && rest[i] == x;
                    assert(f[i] == x);
                }
                if x == ks.last() {
                    assert(f[rest.len() as int] == x);
                }
            }
            assert forall|i: int, j: int| 0 <= i < j < f.len() implies f[i] != f[j] by {
                if j == rest.len() {
                    assert(rest.contains(rest[i]));
                } else {
                    assert(f[i] == rest[i] && f[j] == rest[j]);
                }
            }
        }
    }
}

/// Whether one of the first `upto` strings of `v` equals `x`.
pub fn contains_text(v: &Vec<String>, upto: usize, x: &String) -> (r: bool)
    requires
        upto <= v@.len(),
    ensures
        r == string_views(v@).take(upto as int).contains(x@),
{
    let ghost vs = string_views(v@);
    let mut i: usize = 0;
    while i < upto
        invariant
            i <= upto <= v@.len(),
            vs == string_views(v@),
            forall|j: int| 0 <= j < i ==> vs[j] != x@,
        decreases upto - i,
    {
        if v[i] == *x {
            assert(vs.take(upto as int)[i as int] == x@);
            return true;
        }
        i += 1;
    }
    assert forall|j: int| 0 <= j < upto implies vs.take(upto as int)[j] != x@ by {
        assert(vs.take(upto as int)[j] == vs[j]);
    }
    false
}

/// The names of `ks` that `other` lacks, each once.
pub fn names_not_in(ks: &Vec<String>, other: &Vec<String>) -> (r: Vec<String>)
    ensures
        string_views(r@) == fresh_names(string_views(ks@), string_views(other@)),
{
    let ghost kv = string_views(ks@);
    let ghost ov = string_views(other@);
    let mut out: Vec<String> = Vec::new();
    let mut i: usize = 0;
    while i < ks.len()
        invariant
            i <= ks@.len(),
            kv == string_views(ks@),
            ov == string_views(other@),
            string_views(out@) == fresh_names(kv.take(i as int), ov),
        decreases ks.len() - i,
    {
        let ghost pre = kv.take(i as int);
        assert(kv.take(i + 1).drop_last() =~= pre);
        assert(kv.take(i + 1).last() == ks@[i as int]@);
        assert(ov.take(other@.len() as int) =~= ov);
        let in_other = contains_text(other, other.len(), &ks[i]);
        let seen = contains_text(ks, i, &ks[i]);
        if !in_other && !seen {
            let ghost before = out@;
            out.push(ks[i].clone());
            assert(string_views(out@) =~= string_views(before).push(ks@[i as int]@));
        }
        i += 1;
    }
    assert(kv.take(ks@.len() as int) =~= kv);
    out
}

/// The keys of a list of entries.
pub fn key_list<V>(s: &Vec<(String, V)>) -> (r: Vec<String>)
    ensures
        string_views(r@) == keys(s@),
{
    let mut out: Vec<String> = Vec::new();
    let mut i: usize = 0;
    while i < s.len()
        invariant
            i <= s@.len(),
            string_views(out@) == keys(s@.take(i as int)),
        decreases s.len() - i,
    {
        let ghost before = out@;
        out.push(s[i].0.clone());
        assert(string_views(out@) =~= string_views(before).push(s@[i as int].0@));
        assert(keys(s@.take(i + 1)) =~= keys(s@.take(i as int)).push(s@[i as int].0@));
        i += 1;
    }
    assert(s@.take(s@.len() as int) =~= s@);
    out
}

/// The text that opens a pointer to a named schema.
pub open spec fn schema_pointer_prefix() -> Seq<char> {
    "#/components/schemas/"@
}

/// The schema name a pointer names, if it has the form
/// `#/components/schemas/<Name>`.
pub open spec fn pointer_name(p: Seq<char>) -> Option<Seq<char>> {
    let n = schema_pointer_prefix().len();
    if p.len() >= n && p.subrange(0, n as int) == schema_pointer_prefix() {
        Some(p.skip(n as int))
    } else {
        None
    }
}

/// The schema name a pointer names.
pub fn schema_name_of_pointer(p: &str) -> (r: Option<String>)
    ensures
        match r {
            Some(name) => pointer_name(p@) == Some(name@),
            None => pointer_name(p@) is None,
        },
{
    let prefix = "#/components/schemas/";
    let n = prefix.unicode_len();
    let m = p.unicode_len();
    if m < n {
        return None;
    }
    let head = String::from_str(p.substring_char(0, n));
    if head == String::from_str(prefix) {
        Some(String::from_str(p.substring_char(n, m)))
    } else {
        None
    }
}

/// Resolution of a schema reference against a document's schemas: an inline
/// schema is itself; a named pointer is looked up, and a pointer to a pointer
/// resolves to nothing.
pub open spec fn resolve(r: SchemaRef, schemas: Seq<(String, SchemaRef)>) -> Option<SchemaNode> {
    match r {
        SchemaRef::Inline(node) => Some(*node),
        SchemaRef::Pointer(p) => match pointer_name(p@) {
            Some(name) => match lookup(schemas, name) {
                Some(SchemaRef::Inline(node)) => Some(*node),
                _ => None,
            },
            None => None,
        },
    }
}

/// Whether two optional type sets are equal.
pub fn same_types(a: &Option<TypeSet>, b: &Option<TypeSet>) -> (r: bool)
    ensures
        r == (types_view(*a) == types_view(*b)),
{
    match (a, b) {
        (None, None) => true,
        (Some(TypeSet::Single(x)), Some(TypeSet::Single(y))) => *x == *y,
        (Some(TypeSet::Multiple(xs)), Some(TypeSet::Multiple(ys))) => {
            if xs.len() != ys.len() {
                return false;
            }
            let mut i: usize = 0;
            while i < xs.len()
                invariant
                    i <= xs@.len(),
                    xs@.len() == ys@.len(),
                    types_view(*a) == Some(TypeSetView::Multiple(xs@)),
                    types_view(*b) == Some(TypeSetView::Multiple(ys@)),
                    forall|j: int| 0 <= j < i ==> xs@[j] == ys@[j],
                decreases xs.len() - i,
            {
                if xs[i] != ys[i] {
                    assert(xs@ != ys@);
                    return false;
                }
                i += 1;
            }
            assert(xs@ =~= ys@);
            true
        },
        _ => false,
    }
}

impl TypeSet {
    /// Whether the set is, or contains, the null type.
    pub fn admits_null(&self) -> (r: bool)
        ensures
            spec_is_nullable(Some(self@)) == Some(r),
    {
        match self {
            TypeSet::Single(t) => *t == SchemaType::Null,
            TypeSet::Multiple(ts) => {
                let mut i: usize = 0;
                while i < ts.len()
                    invariant
                        i <= ts@.len(),
                        self@ == TypeSetView::Multiple(ts@),
                        forall|j: int| 0 <= j < i ==> ts@[j] != SchemaType::Null,
                    decreases ts.len() - i,
                {
                    if ts[i] == SchemaType::Null {
                        assert(ts@[i as int] == SchemaType::Null);
                        return true;
                    }
                    i += 1;
                }
                false
            },
        }
    }
}

impl SchemaNode {
    /// Whether the node's types admit null; `None` when it gives no type.
    pub fn is_nullable(&self) -> (r: Option<bool>)
        ensures
            r == spec_is_nullable(types_view(self.schema_type)),
    {
        match &self.schema_type {
            Some(t) => Some(t.admits_null()),
            None => None,
        }
    }
}

impl Document {
    /// Resolves `r` against this document's schemas.
    pub fn resolve<'a>(&'a self, r: &'a SchemaRef) -> (res: Option<&'a SchemaNode>)
        ensures
            resolve(*r, self.schemas@) == match res {
                Some(n) => Some(*n),
                None => None,
            },
    {
        match r {
            SchemaRef::Inline(node) => Some(node),
            SchemaRef::Pointer(p) => match schema_name_of_pointer(p.as_str()) {
                Some(name) => match find(&self.schemas, name.as_str()) {
                    Some(SchemaRef::Inline(node)) => Some(node),
                    _ => None,
                },
                None => None,
            },
        }
    }
}

} // verus!
