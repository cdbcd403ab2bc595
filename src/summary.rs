//! A display view of each changed schema: its properties in the current
//! version, each with the violations found at it.
use vstd::prelude::*;

use crate::model::{Document, SchemaNode, SchemaRef, find, lookup, resolve, string_views, types_view};
use crate::rules::schema::nullable_flag;
use crate::rules::{
    AnchorView, ChangeAnchor, MatchResult, RuleViolation, ViolationView, aggregate, levels, views,
};
use crate::text::{cat3, opt_view, text_less, text_lt, type_set_text, type_set_text_of};
use crate::ChangeLevel;

verus! {

pub open spec fn level_text(l: ChangeLevel) -> Seq<char> {
    match l {
        ChangeLevel::Breaking => "Breaking"@,
        ChangeLevel::Warning => "Warning"@,
        ChangeLevel::Change => "Change"@,
    }
}

pub open spec fn level_class(l: ChangeLevel) -> Seq<char> {
    match l {
        ChangeLevel::Breaking => "breaking"@,
        ChangeLevel::Warning => "warning"@,
        ChangeLevel::Change => "change"@,
    }
}

fn level_text_of(l: ChangeLevel) -> (r: (&'static str, &'static str))
    ensures
        r.0@ == level_text(l),
        r.1@ == level_class(l),
{
    match l {
        ChangeLevel::Breaking => ("Breaking", "breaking"),
        ChangeLevel::Warning => ("Warning", "warning"),
        ChangeLevel::Change => ("Change", "change"),
    }
}

/// An anchor as text, such as `Property("address.street")`.
pub open spec fn anchor_text(a: AnchorView) -> Seq<char> {
    match a {
        AnchorView::Schema => "Schema"@,
        AnchorView::Property(p) => "Property(\""@ + p + "\")"@,
        AnchorView::PropertyType(p) => "PropertyType(\""@ + p + "\")"@,
        AnchorView::Required => "Required"@,
        AnchorView::EnumValues(p) => "EnumValues(\""@ + p + "\")"@,
        AnchorView::Format(p) => "Format(\""@ + p + "\")"@,
        AnchorView::Nullable(p) => "Nullable(\""@ + p + "\")"@,
        AnchorView::ArrayItems(p) => "ArrayItems(\""@ + p + "\")"@,
        AnchorView::Description(p) => "Description(\""@ + p + "\")"@,
        AnchorView::Route => "Route"@,
        AnchorView::Parameter(p) => "Parameter(\""@ + p + "\")"@,
        AnchorView::ResponseStatus(p) => "ResponseStatus(\""@ + p + "\")"@,
    }
}

fn anchor_text_of(a: &ChangeAnchor) -> (r: String)
    ensures
        r@ == anchor_text(a@),
{
    match a {
        ChangeAnchor::Schema => String::from_str("Schema"),
        ChangeAnchor::Property(p) => cat3("Property(\"", p.as_str(), "\")"),
        ChangeAnchor::PropertyType(p) => cat3("PropertyType(\"", p.as_str(), "\")"),
        ChangeAnchor::Required => String::from_str("Required"),
        ChangeAnchor::EnumValues(p) => cat3("EnumValues(\"", p.as_str(), "\")"),
        ChangeAnchor::Format(p) => cat3("Format(\"", p.as_str(), "\")"),
        ChangeAnchor::Nullable(p) => cat3("Nullable(\"", p.as_str(), "\")"),
        ChangeAnchor::ArrayItems(p) => cat3("ArrayItems(\"", p.as_str(), "\")"),
        ChangeAnchor::Description(p) => cat3("Description(\"", p.as_str(), "\")"),
        ChangeAnchor::Route => String::from_str("Route"),
        ChangeAnchor::Parameter(p) => cat3("Parameter(\"", p.as_str(), "\")"),
        ChangeAnchor::ResponseStatus(p) => cat3("ResponseStatus(\"", p.as_str(), "\")"),
    }
}

/// A violation as display text.
#[derive(Debug, Clone)]
pub struct ViolationInfo {
    pub rule_name: String,
    pub description: String,
    pub change_level: String,
    pub anchor: String,
}

pub struct InfoView {
    pub rule_name: Seq<char>,
    pub description: Seq<char>,
    pub change_level: Seq<char>,
    pub anchor: Seq<char>,
}

impl View for ViolationInfo {
    type V = InfoView;

    open spec fn view(&self) -> InfoView {
        InfoView {
            rule_name: self.rule_name@,
            description: self.description@,
            change_level: self.change_level@,
            anchor: self.anchor@,
        }
    }
}

pub open spec fn info_views(s: Seq<ViolationInfo>) -> Seq<InfoView> {
    s.map_values(|i: ViolationInfo| i@)
}

/// The display text of a violation.
pub open spec fn info_view(v: ViolationView) -> InfoView {
    InfoView {
        rule_name: v.name,
        description: v.description,
        change_level: level_text(v.change_level),
        anchor: anchor_text(v.context),
    }
}

/// The display text of the violations of `vs` that satisfy `keep`, in order.
pub open spec fn infos_where(vs: Seq<ViolationView>, keep: spec_fn(AnchorView) -> bool) -> Seq<
    InfoView,
>
    decreases vs.len(),
{
    if vs.len() == 0 {
        Seq::empty()
    } else {
        let rest = infos_where(vs.drop_last(), keep);
        if keep(vs.last().context) {
            rest.push(info_view(vs.last()))
        } else {
            rest
        }
    }
}

/// Whether an anchor is the schema itself or its required list.
pub open spec fn at_schema_level(a: AnchorView) -> bool {
    a is Schema || a is Required
}

/// Whether an anchor's property path is `name`.
pub open spec fn at_property(name: Seq<char>, a: AnchorView) -> bool {
    a.property_path() == Some(name)
}

fn info_of(v: &RuleViolation) -> (r: ViolationInfo)
    ensures
        r@ == info_view(v@),
{
    let (level, _) = level_text_of(v.change_level());
    ViolationInfo {
        rule_name: String::from_str(v.name()),
        description: v.description(),
        change_level: String::from_str(level),
        anchor: anchor_text_of(&v.context()),
    }
}

/// The display text of the violations at the schema level, or at the
/// property `name` when it is given.
fn infos_of(vs: &Vec<RuleViolation>, name: Option<&String>) -> (r: Vec<ViolationInfo>)
    ensures
        info_views(r@) == match name {
            None => infos_where(views(vs@), |a: AnchorView| at_schema_level(a)),
            Some(n) => infos_where(views(vs@), |a: AnchorView| at_property(n@, a)),
        },
{
    let ghost keep = match name {
        None => |a: AnchorView| at_schema_level(a),
        Some(n) => |a: AnchorView| at_property(n@, a),
    };
    let ghost vv = views(vs@);
    let mut out: Vec<ViolationInfo> = Vec::new();
    let mut i: usize = 0;
    while i < vs.len()
        invariant
            i <= vs@.len(),
            vv == views(vs@),
            keep == match name {
                None => |a: AnchorView| at_schema_level(a),
                Some(n) => |a: AnchorView| at_property(n@, a),
            },
            info_views(out@) == infos_where(vv.take(i as int), keep),
        decreases vs.len() - i,
    {
        assert(vv.take(i + 1).drop_last() =~= vv.take(i as int));
        assert(vv.take(i + 1).last() == vs@[i as int]@);
        let anchor = vs[i].context();
        let wanted = match name {
            None => anchor.is_schema_level(),
            Some(n) => match anchor.property_path() {
                Some(p) => String::from_str(p) == *n,
                None => false,
            },
        };
        if wanted {
            let ghost before = out@;
            out.push(info_of(&vs[i]));
            assert(info_views(out@) =~= info_views(before).push(info_view(vs@[i as int]@)));
        }
        i += 1;
    }
    assert(vv.take(vs@.len() as int) =~= vv);
    out
}

/// A property of a schema in the current version, for display.
#[derive(Debug, Clone)]
pub struct SchemaProperty {
    pub name: String,
    pub property_type: Option<String>,
    pub format: Option<String>,
    pub description: Option<String>,
    pub required: bool,
    pub nullable: bool,
    /// The enumerated values, each as its JSON text.
    pub enum_values: Vec<String>,
    /// The violations found at this property.
    pub violations: Vec<ViolationInfo>,
}

pub struct PropertyView {
    pub name: Seq<char>,
    pub property_type: Option<Seq<char>>,
    pub format: Option<Seq<char>>,
    pub description: Option<Seq<char>>,
    pub required: bool,
    pub nullable: bool,
    pub enum_values: Seq<Seq<char>>,
    pub violations: Seq<InfoView>,
}

impl View for SchemaProperty {
    type V = PropertyView;

    open spec fn view(&self) -> PropertyView {
        PropertyView {
            name: self.name@,
            property_type: opt_view(self.property_type),
            format: opt_view(self.format),
            description: opt_view(self.description),
            required: self.required,
            nullable: self.nullable,
            enum_values: string_views(self.enum_values@),
            violations: info_views(self.violations@),
        }
    }
}

pub open spec fn property_views(s: Seq<SchemaProperty>) -> Seq<PropertyView> {
    s.map_values(|p: SchemaProperty| p@)
}

/// The display of property `name`, whose schema is `r`, of a node that
/// requires `required`; `vs` are the violations of the whole schema.
pub open spec fn property_view(
    name: Seq<char>,
    r: SchemaRef,
    required: Seq<Seq<char>>,
    cd: Seq<(String, SchemaRef)>,
    vs: Seq<ViolationView>,
) -> PropertyView {
    let n = resolve(r, cd);
    PropertyView {
        name,
        property_type: match n {
            Some(x) => match types_view(x.schema_type) {
                Some(t) => Some(type_set_text(t)),
                None => None,
            },
            None => None,
        },
        format: match n {
            Some(x) => opt_view(x.format),
            None => None,
        },
        description: match n {
            Some(x) => opt_view(x.description),
            None => None,
        },
        required: required.contains(name),
        nullable: match n {
            Some(x) => nullable_flag(x),
            None => false,
        },
        enum_values: match n {
            Some(x) => string_views(x.enum_values@),
            None => Seq::empty(),
        },
        violations: infos_where(vs, |a: AnchorView| at_property(name, a)),
    }
}

/// Whether `a` is listed before `b`: required properties first, then by name.
pub open spec fn listed_before(a: PropertyView, b: PropertyView) -> bool {
    (a.required && !b.required) || (a.required == b.required && text_lt(a.name, b.name))
}

/// Where `x` goes in `s`: before the first element it is listed before.
pub open spec fn insert_pos(s: Seq<PropertyView>, x: PropertyView) -> int
    decreases s.len(),
{
    if s.len() == 0 {
        0
    } else if listed_before(x, s[0]) {
        0
    } else {
        1 + insert_pos(s.skip(1), x)
    }
}

/// `s` in display order; elements that neither precedes keep their order.
pub open spec fn sorted_properties(s: Seq<PropertyView>) -> Seq<PropertyView>
    decreases s.len(),
{
    if s.len() == 0 {
        Seq::empty()
    } else {
        let t = sorted_properties(s.drop_last());
        t.insert(insert_pos(t, s.last()), s.last())
    }
}

proof fn lemma_insert_pos(s: Seq<PropertyView>, x: PropertyView, j: int)
    requires
        0 <= j <= s.len(),
        forall|i: int| 0 <= i < j ==> !listed_before(x, #[trigger] s[i]),
        j == s.len() || listed_before(x, s[j]),
    ensures
        insert_pos(s, x) == j,
    decreases s.len(),
{
    if s.len() > 0 && j > 0 {
        assert(!listed_before(x, s[0]));
        assert forall|i: int| 0 <= i < j - 1 implies !listed_before(x, #[trigger] s.skip(1)[i]) by {
            assert(s.skip(1)[i] == s[i + 1]);
        }
        if j < s.len() {
            assert(s.skip(1)[j - 1] == s[j]);
        }
        lemma_insert_pos(s.skip(1), x, j - 1);
    }
}

proof fn lemma_insert_pos_bounds(s: Seq<PropertyView>, x: PropertyView)
    ensures
        0 <= insert_pos(s, x) <= s.len(),
        forall|i: int| 0 <= i < insert_pos(s, x) ==> !listed_before(x, #[trigger] s[i]),
        insert_pos(s, x) < s.len() ==> listed_before(x, s[insert_pos(s, x)]),
    decreases s.len(),
{
    if s.len() > 0 && !listed_before(x, s[0]) {
        lemma_insert_pos_bounds(s.skip(1), x);
        assert forall|i: int| 0 <= i < insert_pos(s, x) implies !listed_before(x, #[trigger] s[i]) by {
            if i > 0 {
                assert(s[i] == s.skip(1)[i - 1]);
            }
        }
        if insert_pos(s, x) < s.len() {
            assert(s[insert_pos(s, x)] == s.skip(1)[insert_pos(s, x) - 1]);
        }
    }
}

/// The display order holds the same properties as `s`, and no property is
/// listed before the one ahead of it.
#[verifier::rlimit(80)]
pub proof fn lemma_sorted_properties(s: Seq<PropertyView>)
    ensures
        sorted_properties(s).len() == s.len(),
        forall|e: PropertyView| #[trigger] sorted_properties(s).contains(e) <==> s.contains(e),
        forall|i: int|
            0 <= i < s.len() - 1 ==> !listed_before(
                #[trigger] sorted_properties(s)[i + 1],
                sorted_properties(s)[i],
            ),
    decreases s.len(),
{
    if s.len() > 0 {
        let init = s.drop_last();
        let x = s.last();
        lemma_sorted_properties(init);
        let t = sorted_properties(init);
        let j = insert_pos(t, x);
        lemma_insert_pos_bounds(t, x);
        let u = t.insert(j, x);
        assert(sorted_properties(s) == u);
        assert forall|e: PropertyView| u.contains(e) <==> (t.contains(e) || e == x) by {
            if u.contains(e) {
                let i = choose|i: int| 0 <= i < u.len() && u[i] == e;
                if i < j {
                    assert(t[i] == e);
                } else if i > j {
                    assert(t[i - 1] == e);
                }
            }
            if t.contains(e) {
                let i = choose|i: int| 0 <= i < t.len() && t[i] == e;
                if i < j {
                    assert(u[i] == e);
                } else {
                    assert(u[i + 1] == e);
                }
            }
            if e == x {
                assert(u[j] == e);
            }
        }
        assert forall|e: PropertyView| s.contains(e) <==> (init.contains(e) || e == x) by {
            if s.contains(e) {
                let i = choose|i: int| 0 <= i < s.len() && s[i] == e;
                if i < s.len() - 1 {
                    assert(init[i] == e);
                }
            }
            if init.contains(e) {
                let i = choose|i: int| 0 <= i < init.len() && init[i] == e;
                assert(s[i] == e);
            }
            if e == x {
                assert(s[s.len() - 1] == e);
            }
        }
        assert forall|i: int| 0 <= i < u.len() - 1 implies !listed_before(#[trigger] u[i + 1], u[i]) by {
            if i + 1 < j {
                assert(u[i] == t[i] && u[i + 1] == t[i + 1]);
                assert(!listed_before(t[i + 1], t[i]));
            } else if i + 1 == j {
                assert(u[i] == t[i] && u[i + 1] == x);
                assert(!listed_before(x, t[i]));
            } else if i == j {
                assert(u[i] == x && u[i + 1] == t[j]);
                crate::matcher::lemma_text_lt_asymmetric(x.name, t[j].name);
            } else {
                let h = i - 1;
                assert(u[i] == t[h] && u[i + 1] == t[h + 1]);
                assert(!listed_before(t[h + 1], t[h]));
            }
        }
    }
}

fn is_listed_before(a: &SchemaProperty, b: &SchemaProperty) -> (r: bool)
    ensures
        r == listed_before(a@, b@),
{
    (a.required && !b.required) || (a.required == b.required && text_less(
        a.name.as_str(),
        b.name.as_str(),
    ))
}

/// The properties in display order.
fn sort_properties(props: Vec<SchemaProperty>) -> (r: Vec<SchemaProperty>)
    ensures
        property_views(r@) == sorted_properties(property_views(props@)),
{
    let ghost pv = property_views(props@);
    let total = props.len();
    let mut rest = props;
    let mut out: Vec<SchemaProperty> = Vec::new();
    let mut k: usize = 0;
    assert(pv.skip(0) =~= pv);
    while rest.len() > 0
        invariant
            k <= pv.len(),
            pv.len() == total,
            rest@.len() == pv.len() - k,
            property_views(rest@) == pv.skip(k as int),
            property_views(out@) == sorted_properties(pv.take(k as int)),
        decreases rest.len(),
    {
        assert(pv.take(k + 1).drop_last() =~= pv.take(k as int));
        assert(pv.take(k + 1).last() == pv[k as int]);
        let ghost before_rest = rest@;
        let x = rest.remove(0);
        assert(property_views(before_rest)[0] == before_rest[0]@);
        assert(pv.skip(k as int)[0] == pv[k as int]);
        assert(x@ == pv[k as int]);
        assert forall|i: int| 0 <= i < rest@.len() implies property_views(rest@)[i] == pv.skip(
            k + 1,
        )[i] by {
            assert(rest@[i] == before_rest[i + 1]);
            assert(property_views(before_rest)[i + 1] == pv.skip(k as int)[i + 1]);
        }
        assert(property_views(rest@) =~= pv.skip(k + 1));
        let ghost ov = property_views(out@);
        let mut j: usize = 0;
        while j < out.len() && !is_listed_before(&x, &out[j])
            invariant
                j <= out@.len(),
                ov == property_views(out@),
                forall|i: int| 0 <= i < j ==> !listed_before(x@, #[trigger] ov[i]),
            decreases out.len() - j,
        {
            j += 1;
        }
        proof {
            lemma_insert_pos(ov, x@, j as int);
        }
        let ghost xv = x@;
        out.insert(j, x);
        assert(property_views(out@) =~= ov.insert(j as int, xv));
        k += 1;
    }
    assert(pv.take(pv.len() as int) =~= pv);
    out
}

/// The display of each property of `node` in display order.
pub open spec fn node_properties(
    node: SchemaNode,
    cd: Seq<(String, SchemaRef)>,
    vs: Seq<ViolationView>,
) -> Seq<PropertyView> {
    sorted_properties(
        node.properties@.map_values(
            |e: (String, SchemaRef)| property_view(e.0@, e.1, string_views(node.required@), cd, vs),
        ),
    )
}

fn property_of(
    name: &String,
    r: &SchemaRef,
    node: &SchemaNode,
    doc: &Document,
    vs: &Vec<RuleViolation>,
) -> (p: SchemaProperty)
    ensures
        p@ == property_view(name@, *r, string_views(node.required@), doc.schemas@, views(vs@)),
{
    let resolved = doc.resolve(r);
    let ghost req = string_views(node.required@);
    assert(req.take(node.required@.len() as int) =~= req);
    let required = crate::model::contains_text(&node.required, node.required.len(), name);
    match resolved {
        Some(x) => SchemaProperty {
            name: name.clone(),
            property_type: match &x.schema_type {
                Some(t) => Some(type_set_text_of(t)),
                None => None,
            },
            format: x.format.clone(),
            description: x.description.clone(),
            required,
            nullable: match x.is_nullable() {
                Some(b) => b,
                None => false,
            },
            enum_values: clone_texts(&x.enum_values),
            violations: infos_of(vs, Some(name)),
        },
        None => {
            let none: Vec<String> = Vec::new();
            assert(string_views(none@) =~= Seq::empty());
            SchemaProperty {
                name: name.clone(),
                property_type: None,
                format: None,
                description: None,
                required,
                nullable: false,
                enum_values: none,
                violations: infos_of(vs, Some(name)),
            }
        },
    }
}

fn clone_texts(v: &Vec<String>) -> (r: Vec<String>)
    ensures
        string_views(r@) == string_views(v@),
{
    let mut out: Vec<String> = Vec::new();
    let mut i: usize = 0;
    while i < v.len()
        invariant
            i <= v@.len(),
            string_views(out@) == string_views(v@.take(i as int)),
        decreases v.len() - i,
    {
        let ghost before = out@;
        out.push(v[i].clone());
        assert(string_views(out@) =~= string_views(before).push(v@[i as int]@));
        assert(string_views(v@.take(i + 1)) =~= string_views(v@.take(i as int)).push(v@[i as int]@));
        i += 1;
    }
    assert(v@.take(v@.len() as int) =~= v@);
    out
}

/// A changed schema as it stands in the current version, for display.
#[derive(Debug, Clone)]
pub struct FullSchemaInfo {
    pub name: String,
    pub description: Option<String>,
    /// Required properties first, then by name.
    pub properties: Vec<SchemaProperty>,
    /// The violations at the schema itself or at its required list.
    pub schema_level_violations: Vec<ViolationInfo>,
    pub change_level: String,
    pub change_level_class: String,
}

pub struct FullView {
    pub name: Seq<char>,
    pub description: Option<Seq<char>>,
    pub properties: Seq<PropertyView>,
    pub schema_level_violations: Seq<InfoView>,
    pub change_level: Seq<char>,
    pub change_level_class: Seq<char>,
}

impl View for FullSchemaInfo {
    type V = FullView;

    open spec fn view(&self) -> FullView {
        FullView {
            name: self.name@,
            description: opt_view(self.description),
            properties: property_views(self.properties@),
            schema_level_violations: info_views(self.schema_level_violations@),
            change_level: self.change_level@,
            change_level_class: self.change_level_class@,
        }
    }
}

/// The display of schema `name`, resolved to `node` in the current version,
/// with the violations `vs` found for it.
pub open spec fn full_info(
    name: Seq<char>,
    node: SchemaNode,
    vs: Seq<ViolationView>,
    cd: Seq<(String, SchemaRef)>,
) -> FullView {
    FullView {
        name,
        description: opt_view(node.description),
        properties: node_properties(node, cd, vs),
        schema_level_violations: infos_where(vs, |a: AnchorView| at_schema_level(a)),
        change_level: level_text(aggregate(levels(vs))),
        change_level_class: level_class(aggregate(levels(vs))),
    }
}

/// The display of one changed schema.
pub fn build_full_schema_info(
    schema_name: &String,
    schema: &SchemaNode,
    violations: &Vec<RuleViolation>,
    doc: &Document,
) -> (r: FullSchemaInfo)
    ensures
        r@ == full_info(schema_name@, *schema, views(violations@), doc.schemas@),
{
    let ghost vv = views(violations@);
    let ghost req = string_views(schema.required@);
    let ghost unsorted = schema.properties@.map_values(
        |e: (String, SchemaRef)| property_view(e.0@, e.1, req, doc.schemas@, vv),
    );
    let mut props: Vec<SchemaProperty> = Vec::new();
    let mut i: usize = 0;
    while i < schema.properties.len()
        invariant
            i <= schema.properties@.len(),
            vv == views(violations@),
            req == string_views(schema.required@),
            unsorted == schema.properties@.map_values(
                |e: (String, SchemaRef)| property_view(e.0@, e.1, req, doc.schemas@, vv),
            ),
            property_views(props@) == unsorted.take(i as int),
        decreases schema.properties.len() - i,
    {
        let ghost before = props@;
        props.push(
            property_of(&schema.properties[i].0, &schema.properties[i].1, schema, doc, violations),
        );
        assert(property_views(props@) =~= property_views(before).push(unsorted[i as int]));
        assert(unsorted.take(i + 1) =~= unsorted.take(i as int).push(unsorted[i as int]));
        i += 1;
    }
    assert(unsorted.take(schema.properties@.len() as int) =~= unsorted);
    let properties = sort_properties(props);
    let level = crate::rules::calculate_overall_change_level(violations.as_slice());
    let (text, class) = level_text_of(level);
    FullSchemaInfo {
        name: schema_name.clone(),
        description: schema.description.clone(),
        properties,
        schema_level_violations: infos_of(violations, None),
        change_level: String::from_str(text),
        change_level_class: String::from_str(class),
    }
}

/// The display of each result whose schema the current version defines and
/// resolves, in the order of the results.
pub open spec fn full_infos(
    results: Seq<crate::rules::MatchView>,
    cs: Seq<(String, SchemaRef)>,
    cd: Seq<(String, SchemaRef)>,
) -> Seq<FullView>
    decreases results.len(),
{
    if results.len() == 0 {
        Seq::empty()
    } else {
        let rest = full_infos(results.drop_last(), cs, cd);
        let r = results.last();
        match lookup(cs, r.name) {
            Some(x) => match resolve(x, cd) {
                Some(node) => rest.push(full_info(r.name, node, r.violations, cd)),
                None => rest,
            },
            None => rest,
        }
    }
}

pub open spec fn full_views(s: Seq<FullSchemaInfo>) -> Seq<FullView> {
    s.map_values(|f: FullSchemaInfo| f@)
}

/// The display of each result whose schema `current_schemas` defines and
/// `doc` resolves.
pub fn full_schema_infos(
    current_schemas: &Vec<(String, SchemaRef)>,
    doc: &Document,
    results: &[MatchResult],
) -> (r: Vec<FullSchemaInfo>)
    ensures
        full_views(r@) == full_infos(
            crate::matcher::match_views(results@),
            current_schemas@,
            doc.schemas@,
        ),
{
    let ghost mv = crate::matcher::match_views(results@);
    let mut out: Vec<FullSchemaInfo> = Vec::new();
    let mut i: usize = 0;
    while i < results.len()
        invariant
            i <= results@.len(),
            mv == crate::matcher::match_views(results@),
            full_views(out@) == full_infos(mv.take(i as int), current_schemas@, doc.schemas@),
        decreases results.len() - i,
    {
        assert(mv.take(i + 1).drop_last() =~= mv.take(i as int));
        assert(mv.take(i + 1).last() == results@[i as int]@);
        let result = &results[i];
        if let Some(r) = find(current_schemas, result.name.as_str()) {
            if let Some(node) = doc.resolve(r) {
                let ghost before = out@;
                out.push(build_full_schema_info(&result.name, node, &result.violations, doc));
                assert(full_views(out@) =~= full_views(before).push(out@.last()@));
            }
        }
        i += 1;
    }
    assert(mv.take(results@.len() as int) =~= mv);
    out
}

} // verus!
