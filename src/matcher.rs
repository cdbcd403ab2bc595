//! The schema comparator, the route comparator and the cross-linker.
use vstd::prelude::*;

use crate::model::{
    Document, Operation, PathItem, SchemaNode, SchemaRef, deref_opt, find, fresh_names, key_list, keys, lookup, names_not_in,
    resolve, string_views,
};
use crate::rules::schema::{
    DescriptionChangedRule, EnumValuesAddedRule, EnumValuesRemovedRule, FormatChangedRule,
    NullableChangedRule, PropertyAddedRule, PropertyRemovedRule, RequiredPropertyAddedRule,
    SchemaAddedRule, SchemaRemovedRule, SchemaRule, TypeChangedRule, description_changes, enum_additions,
    enum_removals, format_changes, newly_required, nullable_changes, property_additions,
    property_removed_view, relaxed_properties, removed_properties, required_added_view,
    schema_added_view, schema_removed_view, type_changes,
};
use crate::rules::route::{
    ParameterRemovedRule, RequestSchemaChangedRule, RequiredParameterAddedRule, RouteRule,
    ResponseSchemaChangedRule, ResponseStatusAddedRule, ResponseStatusRemovedRule,
    RouteAddedRule, RouteDescriptionChangedRule, RouteRemovedRule, RouteSummaryChangedRule,
    new_required_params, removed_params, request_refs, request_refs_of, request_schema_changes,
    response_refs, response_refs_of_op, response_schema_changes, route_added_view,
    route_description_changes, route_label, route_removed_view, route_summary_changes,
    route_text, statuses_not_in,
};
use crate::rules::{
    AnchorView, ChangeAnchor, MatchResult, MatchView, RuleCategory, RuleViolation, ViolationView,
    aggregate, extend_with, levels, record_all, views,
};
use crate::summary::{FullSchemaInfo, full_infos, full_schema_infos, full_views};
use crate::text::{all_ascii, ascii_upper, cat3, join_path, join_path_text, text_less, text_lt};

verus! {

/// How deep the schema walk goes before it stops.
pub const MAX_DEPTH: usize = 30;

/// What the rules find at one pair of resolved nodes before the walk goes
/// into their common properties.
pub open spec fn node_head(
    schema: Seq<char>,
    path: Seq<char>,
    b: SchemaNode,
    c: SchemaNode,
) -> Seq<ViolationView> {
    type_changes(schema, path, b, c) + newly_required(b, c).map_values(
        |n: Seq<char>| required_added_view(schema, path, n),
    ) + property_additions(schema, path, b, c) + removed_properties(b, c).map_values(
        |n: Seq<char>|
            property_removed_view(schema, path, n, string_views(b.required@).contains(n), true),
    ) + relaxed_properties(b, c).map_values(
        |n: Seq<char>| property_removed_view(schema, path, n, true, false),
    )
}

/// What the rules find at one pair of resolved nodes after the walk into
/// their common properties.
pub open spec fn node_tail(
    schema: Seq<char>,
    path: Seq<char>,
    b: SchemaNode,
    c: SchemaNode,
) -> Seq<ViolationView> {
    description_changes(schema, path, b, c) + enum_additions(schema, path, b, c) + enum_removals(
        schema,
        path,
        b,
        c,
    ) + format_changes(schema, path, b, c) + nullable_changes(schema, path, b, c)
}

/// The findings of the walk at `path`, `depth` levels down. A reference that
/// does not resolve, or a depth at the cap, contributes nothing.
pub open spec fn details(
    schema: Seq<char>,
    path: Seq<char>,
    base: SchemaRef,
    current: SchemaRef,
    depth: int,
    base_schemas: Seq<(String, SchemaRef)>,
    current_schemas: Seq<(String, SchemaRef)>,
) -> Seq<ViolationView>
    decreases MAX_DEPTH - depth + 1, 0int,
{
    if depth >= MAX_DEPTH || depth < 0 {
        Seq::empty()
    } else {
        match (resolve(base, base_schemas), resolve(current, current_schemas)) {
            (Some(b), Some(c)) => node_head(schema, path, b, c) + children(
                schema,
                path,
                b.properties@,
                c.properties@,
                depth,
                base_schemas,
                current_schemas,
            ) + node_tail(schema, path, b, c),
            _ => Seq::empty(),
        }
    }
}

/// The findings of the walk into each property of `cprops` that `bprops`
/// also has, in the order of `cprops`.
pub open spec fn children(
    schema: Seq<char>,
    path: Seq<char>,
    bprops: Seq<(String, SchemaRef)>,
    cprops: Seq<(String, SchemaRef)>,
    depth: int,
    base_schemas: Seq<(String, SchemaRef)>,
    current_schemas: Seq<(String, SchemaRef)>,
) -> Seq<ViolationView>
    decreases MAX_DEPTH - depth, cprops.len(),
{
    if depth >= MAX_DEPTH || depth < 0 || cprops.len() == 0 {
        Seq::empty()
    } else {
        let rest = children(
            schema,
            path,
            bprops,
            cprops.drop_last(),
            depth,
            base_schemas,
            current_schemas,
        );
        let name = cprops.last().0@;
        match lookup(bprops, name) {
            Some(bp) => rest + details(
                schema,
                join_path(path, name),
                bp,
                cprops.last().1,
                depth + 1,
                base_schemas,
                current_schemas,
            ),
            None => rest,
        }
    }
}

/// Resolution of an optional reference.
pub open spec fn resolve_opt(r: Option<SchemaRef>, schemas: Seq<(String, SchemaRef)>) -> Option<
    SchemaNode,
> {
    match r {
        Some(x) => resolve(x, schemas),
        None => None,
    }
}

/// What the comparison of one schema name finds: whether it was added or
/// removed, then the walk from its root when both versions have it.
pub open spec fn schema_findings(
    name: Seq<char>,
    base: Option<SchemaRef>,
    current: Option<SchemaRef>,
    base_schemas: Seq<(String, SchemaRef)>,
    current_schemas: Seq<(String, SchemaRef)>,
) -> Seq<ViolationView> {
    let b = resolve_opt(base, base_schemas);
    let c = resolve_opt(current, current_schemas);
    (if b is None && c is Some {
        seq![schema_added_view(name)]
    } else {
        Seq::empty()
    }) + (if b is Some && c is None {
        seq![schema_removed_view(name)]
    } else {
        Seq::empty()
    }) + match (base, current) {
        (Some(x), Some(y)) => details(
            name,
            Seq::empty(),
            x,
            y,
            0,
            base_schemas,
            current_schemas,
        ),
        _ => Seq::empty(),
    }
}

/// Every schema name of either version, each once: the base names first.
pub open spec fn schema_names(
    base: Seq<(String, SchemaRef)>,
    current: Seq<(String, SchemaRef)>,
) -> Seq<Seq<char>> {
    fresh_names(keys(base) + keys(current), Seq::empty())
}

/// One result for each name of `names` whose comparison finds something.
pub open spec fn schema_results(
    names: Seq<Seq<char>>,
    base: Seq<(String, SchemaRef)>,
    current: Seq<(String, SchemaRef)>,
    base_schemas: Seq<(String, SchemaRef)>,
    current_schemas: Seq<(String, SchemaRef)>,
) -> Seq<MatchView>
    decreases names.len(),
{
    if names.len() == 0 {
        Seq::empty()
    } else {
        let rest = schema_results(names.drop_last(), base, current, base_schemas, current_schemas);
        let n = names.last();
        let found = schema_findings(
            n,
            lookup(base, n),
            lookup(current, n),
            base_schemas,
            current_schemas,
        );
        if found.len() > 0 {
            rest.push(MatchView { name: n, violations: found })
        } else {
            rest
        }
    }
}

/// The views of a list of match results.
pub open spec fn match_views(s: Seq<MatchResult>) -> Seq<MatchView> {
    s.map_values(|m: MatchResult| m@)
}

/// Each result's level is the aggregate of its violations.
pub open spec fn levels_agree(s: Seq<MatchResult>) -> bool {
    forall|i: int|
        0 <= i < s.len() ==> #[trigger] s[i].change_level == aggregate(levels(s[i]@.violations))
}

/// Compares the named schemas of two documents.
pub struct SchemaMatcher<'a> {
    base_schemas: &'a Vec<(String, SchemaRef)>,
    current_schemas: &'a Vec<(String, SchemaRef)>,
    base_spec: &'a Document,
    current_spec: &'a Document,
}

impl<'a> SchemaMatcher<'a> {
    pub closed spec fn spec_base_schemas(&self) -> Seq<(String, SchemaRef)> {
        self.base_schemas@
    }

    pub closed spec fn spec_current_schemas(&self) -> Seq<(String, SchemaRef)> {
        self.current_schemas@
    }

    pub closed spec fn spec_base_doc(&self) -> Seq<(String, SchemaRef)> {
        self.base_spec.schemas@
    }

    pub closed spec fn spec_current_doc(&self) -> Seq<(String, SchemaRef)> {
        self.current_spec.schemas@
    }

    pub fn new(
        base_schemas: &'a Vec<(String, SchemaRef)>,
        current_schemas: &'a Vec<(String, SchemaRef)>,
        base_spec: &'a Document,
        current_spec: &'a Document,
    ) -> (r: Self)
        ensures
            r.spec_base_schemas() == base_schemas@,
            r.spec_current_schemas() == current_schemas@,
            r.spec_base_doc() == base_spec.schemas@,
            r.spec_current_doc() == current_spec.schemas@,
    {
        SchemaMatcher { base_schemas, current_schemas, base_spec, current_spec }
    }

    /// Compares all schema names of either version; one result for each
    /// name with a finding, sorted by name.
    pub fn match_schemas(&self) -> (r: Vec<MatchResult>)
        ensures
            match_views(r@) == sort_by_name(
                schema_results(
                    schema_names(self.spec_base_schemas(), self.spec_current_schemas()),
                    self.spec_base_schemas(),
                    self.spec_current_schemas(),
                    self.spec_base_doc(),
                    self.spec_current_doc(),
                ),
            ),
            names_ascending(match_views(r@)),
            levels_agree(r@),
    {
        let ghost bs = self.spec_base_schemas();
        let ghost cs = self.spec_current_schemas();
        let ghost bd = self.spec_base_doc();
        let ghost cd = self.spec_current_doc();
        let mut all = key_list(self.base_schemas);
        let mut more = key_list(self.current_schemas);
        let ghost a = all@;
        let ghost m = more@;
        all.append(&mut more);
        assert(string_views(a + m) =~= string_views(a) + string_views(m));
        let names = names_not_in(&all, &Vec::new());
        assert(string_views(Seq::<String>::empty()) =~= Seq::<Seq<char>>::empty());
        let ghost nv = string_views(names@);
        let mut results: Vec<MatchResult> = Vec::new();
        let mut i: usize = 0;
        while i < names.len()
            invariant
                i <= names@.len(),
                nv == string_views(names@),
                bs == self.spec_base_schemas(),
                cs == self.spec_current_schemas(),
                bd == self.spec_base_doc(),
                cd == self.spec_current_doc(),
                match_views(results@) == schema_results(nv.take(i as int), bs, cs, bd, cd),
                levels_agree(results@),
            decreases names.len() - i,
        {
            assert(nv.take(i + 1).drop_last() =~= nv.take(i as int));
            assert(nv.take(i + 1).last() == names@[i as int]@);
            let name = &names[i];
            let base = find(self.base_schemas, name.as_str());
            let current = find(self.current_schemas, name.as_str());
            let violations = self.compare_schemas(name.as_str(), base, current);
            if violations.len() > 0 {
                let ghost before = results@;
                results.push(MatchResult::new(name.clone(), violations));
                assert(match_views(results@) =~= match_views(before).push(results@.last()@));
            }
            i += 1;
        }
        assert(nv.take(names@.len() as int) =~= nv);
        proof {
            crate::model::lemma_fresh_names(keys(bs) + keys(cs), Seq::empty());
            crate::laws::lemma_schema_results(nv, bs, cs, bd, cd);
            lemma_sort_by_name(match_views(results@));
        }
        sort_results(results)
    }

    /// The display of each result whose schema the current version defines,
    /// with its properties and the violations found at each.
    pub fn build_full_schema_infos(&self, results: &[MatchResult]) -> (r: Vec<FullSchemaInfo>)
        ensures
            full_views(r@) == full_infos(
                match_views(results@),
                self.spec_current_schemas(),
                self.spec_current_doc(),
            ),
    {
        full_schema_infos(self.current_schemas, self.current_spec, results)
    }

    /// Compares one schema name: added, removed, or the walk from its root.
    fn compare_schemas(
        &self,
        schema_name: &str,
        base: Option<&SchemaRef>,
        current: Option<&SchemaRef>,
    ) -> (r: Vec<RuleViolation>)
        ensures
            views(r@) == schema_findings(
                schema_name@,
                deref_opt(base),
                deref_opt(current),
                self.spec_base_doc(),
                self.spec_current_doc(),
            ),
    {
        let base_node = match base {
            Some(x) => self.base_spec.resolve(x),
            None => None,
        };
        let current_node = match current {
            Some(x) => self.current_spec.resolve(x),
            None => None,
        };
        let mut out: Vec<RuleViolation> = Vec::new();
        record_all(&mut out, &SchemaAddedRule::detect(schema_name, "", base_node, current_node));
        record_all(&mut out, &SchemaRemovedRule::detect(schema_name, "", base_node, current_node));
        let ghost added_removed = views(out@);
        if let (Some(x), Some(y)) = (base, current) {
            let root = String::new();
            extend_with(
                &mut out,
                self.compare_schema_details_with_depth(schema_name, root.as_str(), x, y, 0),
            );
        } else {
            assert(views(out@) =~= added_removed + Seq::<ViolationView>::empty());
        }
        out
    }

    /// The findings at a pair of resolved nodes that precede the walk into
    /// their properties.
    fn head_findings(schema_name: &str, property_path: &str, b: &SchemaNode, c: &SchemaNode) -> (r:
        Vec<RuleViolation>)
        ensures
            views(r@) == node_head(schema_name@, property_path@, *b, *c),
    {
        let mut out: Vec<RuleViolation> = Vec::new();
        record_all(&mut out, &TypeChangedRule::detect(schema_name, property_path, Some(b), Some(c)));
        record_all(
            &mut out,
            &RequiredPropertyAddedRule::detect(schema_name, property_path, Some(b), Some(c)),
        );
        record_all(
            &mut out,
            &PropertyAddedRule::detect(schema_name, property_path, Some(b), Some(c)),
        );
        record_all(
            &mut out,
            &PropertyRemovedRule::detect(schema_name, property_path, Some(b), Some(c)),
        );
        record_all(&mut out, &PropertyRemovedRule::detect_relaxed(schema_name, property_path, b, c));
        assert(views(out@) =~= node_head(schema_name@, property_path@, *b, *c));
        out
    }

    /// The findings at a pair of resolved nodes that follow the walk into
    /// their properties.
    fn tail_findings(schema_name: &str, property_path: &str, b: &SchemaNode, c: &SchemaNode) -> (r:
        Vec<RuleViolation>)
        ensures
            views(r@) == node_tail(schema_name@, property_path@, *b, *c),
    {
        let mut out: Vec<RuleViolation> = Vec::new();
        record_all(
            &mut out,
            &DescriptionChangedRule::detect(schema_name, property_path, Some(b), Some(c)),
        );
        record_all(
            &mut out,
            &EnumValuesAddedRule::detect(schema_name, property_path, Some(b), Some(c)),
        );
        record_all(
            &mut out,
            &EnumValuesRemovedRule::detect(schema_name, property_path, Some(b), Some(c)),
        );
        record_all(
            &mut out,
            &FormatChangedRule::detect(schema_name, property_path, Some(b), Some(c)),
        );
        record_all(
            &mut out,
            &NullableChangedRule::detect(schema_name, property_path, Some(b), Some(c)),
        );
        assert(views(out@) =~= node_tail(schema_name@, property_path@, *b, *c));
        out
    }

    /// The walk into each property of `c` that `b` also has.
    fn compare_children(
        &self,
        schema_name: &str,
        property_path: &str,
        b: &SchemaNode,
        c: &SchemaNode,
        depth: usize,
    ) -> (r: Vec<RuleViolation>)
        requires
            depth < MAX_DEPTH,
        ensures
            views(r@) == children(
                schema_name@,
                property_path@,
                b.properties@,
                c.properties@,
                depth as int,
                self.spec_base_doc(),
                self.spec_current_doc(),
            ),
        decreases MAX_DEPTH - depth, 0int,
    {
        let ghost bd = self.spec_base_doc();
        let ghost cd = self.spec_current_doc();
        let mut out: Vec<RuleViolation> = Vec::new();
        let mut i: usize = 0;
        while i < c.properties.len()
            invariant
                i <= c.properties@.len(),
                depth < MAX_DEPTH,
                bd == self.spec_base_doc(),
                cd == self.spec_current_doc(),
                views(out@) == children(
                    schema_name@,
                    property_path@,
                    b.properties@,
                    c.properties@.take(i as int),
                    depth as int,
                    bd,
                    cd,
                ),
            decreases c.properties.len() - i,
        {
            proof {
                lemma_children_step(
                    schema_name@,
                    property_path@,
                    b.properties@,
                    c.properties@,
                    i as int,
                    depth as int,
                    bd,
                    cd,
                );
            }
            let name = &c.properties[i].0;
            match find(&b.properties, name.as_str()) {
                Some(bprop) => {
                    let nested = join_path_text(property_path, name.as_str());
                    let sub = self.compare_schema_details_with_depth(
                        schema_name,
                        nested.as_str(),
                        bprop,
                        &c.properties[i].1,
                        depth + 1,
                    );
                    extend_with(&mut out, sub);
                },
                None => {},
            }
            i += 1;
        }
        assert(c.properties@.take(c.properties@.len() as int) =~= c.properties@);
        out
    }

    /// The walk over one pair of schema references, `depth` levels down.
    fn compare_schema_details_with_depth(
        &self,
        schema_name: &str,
        property_path: &str,
        base: &SchemaRef,
        current: &SchemaRef,
        depth: usize,
    ) -> (r: Vec<RuleViolation>)
        ensures
            views(r@) == details(
                schema_name@,
                property_path@,
                *base,
                *current,
                depth as int,
                self.spec_base_doc(),
                self.spec_current_doc(),
            ),
        decreases MAX_DEPTH - depth, 1int,
    {
        let mut out: Vec<RuleViolation> = Vec::new();
        if depth >= MAX_DEPTH {
            return out;
        }
        let b = match self.base_spec.resolve(base) {
            Some(n) => n,
            None => return out,
        };
        let c = match self.current_spec.resolve(current) {
            Some(n) => n,
            None => return out,
        };
        out = Self::head_findings(schema_name, property_path, b, c);
        extend_with(&mut out, self.compare_children(schema_name, property_path, b, c, depth));
        extend_with(&mut out, Self::tail_findings(schema_name, property_path, b, c));
        out
    }
}

/// One more property of `cprops` extends the walk into children by the walk
/// into that property, if `bprops` has it.
pub proof fn lemma_children_step(
    schema: Seq<char>,
    path: Seq<char>,
    bprops: Seq<(String, SchemaRef)>,
    cprops: Seq<(String, SchemaRef)>,
    i: int,
    depth: int,
    bd: Seq<(String, SchemaRef)>,
    cd: Seq<(String, SchemaRef)>,
)
    requires
        0 <= i < cprops.len(),
        0 <= depth < MAX_DEPTH,
    ensures
        children(schema, path, bprops, cprops.take(i + 1), depth, bd, cd) == children(
            schema,
            path,
            bprops,
            cprops.take(i),
            depth,
            bd,
            cd,
        ) + match lookup(bprops, cprops[i].0@) {
            Some(bp) => details(
                schema,
                join_path(path, cprops[i].0@),
                bp,
                cprops[i].1,
                depth + 1,
                bd,
                cd,
            ),
            None => Seq::empty(),
        },
{
    assert(cprops.take(i + 1).drop_last() =~= cprops.take(i));
    assert(cprops.take(i + 1).last() == cprops[i]);
    let rest = children(schema, path, bprops, cprops.take(i), depth, bd, cd);
    assert(rest + Seq::<ViolationView>::empty() =~= rest);
}

// ===========================================================================
// Routes
// ===========================================================================

/// Where a route uses a schema.
#[derive(Debug, Clone)]
pub enum SchemaLocation {
    RequestBody,
    /// A response, with its status code.
    Response(String),
}

/// A named schema that a route uses.
#[derive(Debug, Clone)]
pub struct SchemaReference {
    pub schema_name: String,
    pub content_type: String,
    pub location: SchemaLocation,
}

/// A route with the named schemas of its bodies.
#[derive(Debug, Clone)]
pub struct RouteInfo {
    pub path: String,
    pub method: String,
    pub request_schemas: Vec<SchemaReference>,
    pub response_schemas: Vec<SchemaReference>,
}

/// What a schema reference says, as mathematical values; `location` is the
/// status code of a response, `None` for a request body.
pub struct ReferenceView {
    pub name: Seq<char>,
    pub content_type: Seq<char>,
    pub location: Option<Seq<char>>,
}

impl View for SchemaReference {
    type V = ReferenceView;

    open spec fn view(&self) -> ReferenceView {
        ReferenceView {
            name: self.schema_name@,
            content_type: self.content_type@,
            location: match self.location {
                SchemaLocation::RequestBody => None,
                SchemaLocation::Response(c) => Some(c@),
            },
        }
    }
}

pub open spec fn reference_views(s: Seq<SchemaReference>) -> Seq<ReferenceView> {
    s.map_values(|r: SchemaReference| r@)
}

/// The request-body references of an operation.
pub open spec fn request_references(op: Operation) -> Seq<ReferenceView> {
    request_refs(op).map_values(
        |e: (Seq<char>, Seq<char>)| ReferenceView { name: e.1, content_type: e.0, location: None },
    )
}

/// The response references of an operation.
pub open spec fn response_references(op: Operation) -> Seq<ReferenceView> {
    response_refs(op).map_values(
        |e: (Seq<char>, Seq<char>, Seq<char>)|
            ReferenceView { name: e.2, content_type: e.1, location: Some(e.0) },
    )
}

/// The violations that `results` hold for schema `name`, in order.
pub open spec fn violations_named(results: Seq<MatchView>, name: Seq<char>) -> Seq<ViolationView>
    decreases results.len(),
{
    if results.len() == 0 {
        Seq::empty()
    } else {
        violations_named(results.drop_last(), name) + if results.last().name == name {
            results.last().violations
        } else {
            Seq::empty()
        }
    }
}

/// A schema violation seen from a route that uses the schema: the severity
/// is kept, the message names the schema and where the route uses it.
pub open spec fn link_view(request: bool, r: ReferenceView, v: ViolationView) -> ViolationView {
    if request {
        ViolationView {
            name: "RequestSchemaViolation"@,
            description: "Request schema '"@ + r.name + "' ("@ + r.content_type + ") - "@
                + v.description,
            change_level: v.change_level,
            context: AnchorView::Route,
            category: RuleCategory::RequestBody,
        }
    } else {
        let code = match r.location {
            Some(c) => c,
            None => "unknown"@,
        };
        ViolationView {
            name: "ResponseSchemaViolation"@,
            description: "Response schema '"@ + r.name + "' ("@ + r.content_type + ") for status "@
                + code + " - "@ + v.description,
            change_level: v.change_level,
            context: AnchorView::ResponseStatus(code),
            category: RuleCategory::Response,
        }
    }
}

/// The linked violations of one reference.
pub open spec fn links_of(request: bool, r: ReferenceView, results: Seq<MatchView>) -> Seq<
    ViolationView,
> {
    violations_named(results, r.name).map_values(|v: ViolationView| link_view(request, r, v))
}

/// The linked violations of a list of references.
pub open spec fn links(request: bool, refs: Seq<ReferenceView>, results: Seq<MatchView>) -> Seq<
    ViolationView,
>
    decreases refs.len(),
{
    if refs.len() == 0 {
        Seq::empty()
    } else {
        links(request, refs.drop_last(), results) + links_of(request, refs.last(), results)
    }
}

/// What an operation pair's own rules find.
pub open spec fn operation_findings(
    path: Seq<char>,
    method: Seq<char>,
    base: Option<Operation>,
    current: Option<Operation>,
) -> Seq<ViolationView> {
    (if base is None && current is Some {
        seq![route_added_view(path, method)]
    } else {
        Seq::empty()
    }) + (if base is Some && current is None {
        seq![route_removed_view(path, method)]
    } else {
        Seq::empty()
    }) + match (base, current) {
        (Some(b), Some(c)) => both_findings(path, method, b, c),
        _ => Seq::empty(),
    }
}

/// What the rules find when both versions have the operation.
pub open spec fn both_findings(
    path: Seq<char>,
    method: Seq<char>,
    b: Operation,
    c: Operation,
) -> Seq<ViolationView> {
    route_description_changes(path, method, b, c) + route_summary_changes(path, method, b, c)
        + new_required_params(b.parameters@, c.parameters@) + removed_params(
        b.parameters@,
        c.parameters@,
    ) + status_findings(b, c) + request_schema_changes(request_refs(b), request_refs(c))
        + response_schema_changes(response_refs(b), response_refs(c))
}

/// Status codes added, then status codes removed, when both operations list
/// their responses.
pub open spec fn status_findings(b: Operation, c: Operation) -> Seq<ViolationView> {
    match (b.responses, c.responses) {
        (Some(br), Some(cr)) => statuses_not_in(cr@, br@, true) + statuses_not_in(br@, cr@, false),
        _ => Seq::empty(),
    }
}

/// Everything reported for one route: its own findings, then the violations
/// of the schemas its current operation uses.
pub open spec fn route_findings(
    path: Seq<char>,
    method: Seq<char>,
    base: Option<Operation>,
    current: Option<Operation>,
    results: Seq<MatchView>,
) -> Seq<ViolationView> {
    operation_findings(path, method, base, current) + match current {
        Some(c) => links(true, request_references(c), results) + links(
            false,
            response_references(c),
            results,
        ),
        None => Seq::empty(),
    }
}

/// The operation of `item` for a lower-case method name.
pub open spec fn operation_for(item: PathItem, method: Seq<char>) -> Option<Operation> {
    if method == "get"@ {
        item.get
    } else if method == "post"@ {
        item.post
    } else if method == "put"@ {
        item.put
    } else if method == "delete"@ {
        item.delete
    } else if method == "patch"@ {
        item.patch
    } else if method == "head"@ {
        item.head
    } else if method == "options"@ {
        item.options
    } else {
        None
    }
}

pub open spec fn operation_in(item: Option<PathItem>, method: Seq<char>) -> Option<Operation> {
    match item {
        Some(it) => operation_for(it, method),
        None => None,
    }
}

/// The seven methods that are compared, in order.
pub open spec fn method_text(k: int) -> Seq<char> {
    if k == 0 {
        "get"@
    } else if k == 1 {
        "post"@
    } else if k == 2 {
        "put"@
    } else if k == 3 {
        "delete"@
    } else if k == 4 {
        "patch"@
    } else if k == 5 {
        "head"@
    } else {
        "options"@
    }
}

fn method_at(k: usize) -> (r: &'static str)
    requires
        k < 7,
    ensures
        r@ == method_text(k as int),
{
    if k == 0 {
        "get"
    } else if k == 1 {
        "post"
    } else if k == 2 {
        "put"
    } else if k == 3 {
        "delete"
    } else if k == 4 {
        "patch"
    } else if k == 5 {
        "head"
    } else {
        "options"
    }
}

/// The results of the first `k` methods under one path.
pub open spec fn method_results(
    path: Seq<char>,
    base: Option<PathItem>,
    current: Option<PathItem>,
    results: Seq<MatchView>,
    k: int,
) -> Seq<MatchView>
    decreases k,
{
    if k <= 0 {
        Seq::empty()
    } else {
        let rest = method_results(path, base, current, results, k - 1);
        let m = method_text(k - 1);
        let found = route_findings(
            path,
            m,
            operation_in(base, m),
            operation_in(current, m),
            results,
        );
        if found.len() > 0 {
            rest.push(MatchView { name: route_text(m, path), violations: found })
        } else {
            rest
        }
    }
}

/// The results of every method under each path of `paths`.
pub open spec fn route_results(
    paths: Seq<Seq<char>>,
    base: Seq<(String, PathItem)>,
    current: Seq<(String, PathItem)>,
    results: Seq<MatchView>,
) -> Seq<MatchView>
    decreases paths.len(),
{
    if paths.len() == 0 {
        Seq::empty()
    } else {
        let p = paths.last();
        route_results(paths.drop_last(), base, current, results) + method_results(
            p,
            lookup(base, p),
            lookup(current, p),
            results,
            7,
        )
    }
}

/// Every path of either version, each once: the base paths first.
pub open spec fn route_paths(
    base: Seq<(String, PathItem)>,
    current: Seq<(String, PathItem)>,
) -> Seq<Seq<char>> {
    fresh_names(keys(base) + keys(current), Seq::empty())
}

/// Compares the operations of two documents.
pub struct RouteMatcher<'a> {
    base_spec: &'a Document,
    current_spec: &'a Document,
}

impl<'a> RouteMatcher<'a> {
    pub closed spec fn spec_base_paths(&self) -> Seq<(String, PathItem)> {
        self.base_spec.paths@
    }

    pub closed spec fn spec_current_paths(&self) -> Seq<(String, PathItem)> {
        self.current_spec.paths@
    }

    pub fn new(base_spec: &'a Document, current_spec: &'a Document) -> (r: Self)
        ensures
            r.spec_base_paths() == base_spec.paths@,
            r.spec_current_paths() == current_spec.paths@,
    {
        RouteMatcher { base_spec, current_spec }
    }

    /// The operation of a path item for a lower-case method name.
    fn get_operation<'b>(&self, path_item: &'b PathItem, method: &str) -> (r: Option<&'b Operation>)
        ensures
            deref_opt(r) == operation_for(*path_item, method@),
    {
        let m = String::from_str(method);
        if m == String::from_str("get") {
            path_item.get.as_ref()
        } else if m == String::from_str("post") {
            path_item.post.as_ref()
        } else if m == String::from_str("put") {
            path_item.put.as_ref()
        } else if m == String::from_str("delete") {
            path_item.delete.as_ref()
        } else if m == String::from_str("patch") {
            path_item.patch.as_ref()
        } else if m == String::from_str("head") {
            path_item.head.as_ref()
        } else if m == String::from_str("options") {
            path_item.options.as_ref()
        } else {
            None
        }
    }

    /// The named schemas that an operation's bodies use.
    pub fn extract_route_schemas(&self, path: &str, method: &str, operation: &Operation) -> (r:
        RouteInfo)
        ensures
            r.path@ == path@,
            r.method@ == method@,
            reference_views(r.request_schemas@) == request_references(*operation),
            reference_views(r.response_schemas@) == response_references(*operation),
    {
        let req = request_refs_of(operation);
        let mut request_schemas: Vec<SchemaReference> = Vec::new();
        let mut i: usize = 0;
        while i < req.len()
            invariant
                i <= req@.len(),
                crate::rules::route::pair_views(req@) == request_refs(*operation),
                reference_views(request_schemas@) == request_references(*operation).take(i as int),
            decreases req.len() - i,
        {
            let ghost before = request_schemas@;
            request_schemas.push(
                SchemaReference {
                    schema_name: req[i].1.clone(),
                    content_type: req[i].0.clone(),
                    location: SchemaLocation::RequestBody,
                },
            );
            assert(reference_views(request_schemas@) =~= reference_views(before).push(
                request_references(*operation)[i as int],
            ));
            assert(request_references(*operation).take(i + 1) =~= request_references(
                *operation,
            ).take(i as int).push(request_references(*operation)[i as int]));
            i += 1;
        }
        assert(request_references(*operation).take(req@.len() as int) =~= request_references(
            *operation,
        ));
        let resp = response_refs_of_op(operation);
        let mut response_schemas: Vec<SchemaReference> = Vec::new();
        let mut j: usize = 0;
        while j < resp.len()
            invariant
                j <= resp@.len(),
                crate::rules::route::triple_views(resp@) == response_refs(*operation),
                reference_views(response_schemas@) == response_references(*operation).take(
                    j as int,
                ),
            decreases resp.len() - j,
        {
            let ghost before = response_schemas@;
            response_schemas.push(
                SchemaReference {
                    schema_name: resp[j].2.clone(),
                    content_type: resp[j].1.clone(),
                    location: SchemaLocation::Response(resp[j].0.clone()),
                },
            );
            assert(reference_views(response_schemas@) =~= reference_views(before).push(
                response_references(*operation)[j as int],
            ));
            assert(response_references(*operation).take(j + 1) =~= response_references(
                *operation,
            ).take(j as int).push(response_references(*operation)[j as int]));
            j += 1;
        }
        assert(response_references(*operation).take(resp@.len() as int) =~= response_references(
            *operation,
        ));
        RouteInfo {
            path: String::from_str(path),
            method: String::from_str(method),
            request_schemas,
            response_schemas,
        }
    }
}

/// What a route record says, as mathematical values.
pub struct RouteInfoView {
    pub path: Seq<char>,
    pub method: Seq<char>,
    pub request: Seq<ReferenceView>,
    pub response: Seq<ReferenceView>,
}

impl View for RouteInfo {
    type V = RouteInfoView;

    open spec fn view(&self) -> RouteInfoView {
        RouteInfoView {
            path: self.path@,
            method: self.method@,
            request: reference_views(self.request_schemas@),
            response: reference_views(self.response_schemas@),
        }
    }
}

/// The record of one route of the current version.
pub open spec fn route_info_of(path: Seq<char>, method: Seq<char>, op: Operation) -> RouteInfoView {
    RouteInfoView {
        path,
        method,
        request: request_references(op),
        response: response_references(op),
    }
}

/// The records of the first `k` methods of one path item.
pub open spec fn item_routes(path: Seq<char>, item: PathItem, k: int) -> Seq<RouteInfoView>
    decreases k,
{
    if k <= 0 {
        Seq::empty()
    } else {
        let m = method_text(k - 1);
        item_routes(path, item, k - 1) + match operation_for(item, m) {
            Some(op) => seq![route_info_of(path, m, op)],
            None => Seq::empty(),
        }
    }
}

/// The records of every operation of `paths`.
pub open spec fn all_routes(paths: Seq<(String, PathItem)>) -> Seq<RouteInfoView>
    decreases paths.len(),
{
    if paths.len() == 0 {
        Seq::empty()
    } else {
        all_routes(paths.drop_last()) + item_routes(paths.last().0@, paths.last().1, 7)
    }
}

pub open spec fn route_info_views(s: Seq<RouteInfo>) -> Seq<RouteInfoView> {
    s.map_values(|r: RouteInfo| r@)
}

/// A schema violation seen from a route that uses the schema.
fn link(request: bool, r: &SchemaReference, v: &RuleViolation) -> (out: RuleViolation)
    ensures
        out@ == link_view(request, r@, v@),
{
    if request {
        let d = cat3("Request schema '", r.schema_name.as_str(), "' (").concat(
            r.content_type.as_str(),
        ).concat(") - ").concat(v.description().as_str());
        RuleViolation::from_parts(
            String::from_str("RequestSchemaViolation"),
            d,
            v.change_level(),
            ChangeAnchor::Route,
            RuleCategory::RequestBody,
        )
    } else {
        let code = match &r.location {
            SchemaLocation::Response(c) => c.clone(),
            SchemaLocation::RequestBody => String::from_str("unknown"),
        };
        let d = cat3("Response schema '", r.schema_name.as_str(), "' (").concat(
            r.content_type.as_str(),
        ).concat(") for status ").concat(code.as_str()).concat(" - ").concat(
            v.description().as_str(),
        );
        RuleViolation::from_parts(
            String::from_str("ResponseSchemaViolation"),
            d,
            v.change_level(),
            ChangeAnchor::ResponseStatus(code),
            RuleCategory::Response,
        )
    }
}

/// The linked violations of one reference.
fn links_of_reference(request: bool, r: &SchemaReference, schema_results: &[MatchResult]) -> (out:
    Vec<RuleViolation>)
    ensures
        views(out@) == links_of(request, r@, match_views(schema_results@)),
{
    let ghost mv = match_views(schema_results@);
    let mut out: Vec<RuleViolation> = Vec::new();
    let mut k: usize = 0;
    while k < schema_results.len()
        invariant
            k <= schema_results@.len(),
            mv == match_views(schema_results@),
            views(out@) == violations_named(mv.take(k as int), r@.name).map_values(
                |v: ViolationView| link_view(request, r@, v),
            ),
        decreases schema_results.len() - k,
    {
        assert(mv.take(k + 1).drop_last() =~= mv.take(k as int));
        assert(mv.take(k + 1).last() == schema_results@[k as int]@);
        let result = &schema_results[k];
        if result.name == r.schema_name {
            let ghost start = views(out@);
            let ghost vs = views(result.violations@);
            let mut j: usize = 0;
            while j < result.violations.len()
                invariant
                    j <= result.violations@.len(),
                    vs == views(result.violations@),
                    views(out@) == start + vs.take(j as int).map_values(
                        |v: ViolationView| link_view(request, r@, v),
                    ),
                decreases result.violations.len() - j,
            {
                let ghost before = views(out@);
                out.push(link(request, r, &result.violations[j]));
                assert(views(out@) =~= before.push(link_view(request, r@, vs[j as int])));
                assert(vs.take(j + 1) =~= vs.take(j as int).push(vs[j as int]));
                j += 1;
            }
            assert(vs.take(result.violations@.len() as int) =~= vs);
            assert(views(out@) =~= violations_named(mv.take(k + 1), r@.name).map_values(
                |v: ViolationView| link_view(request, r@, v),
            ));
        } else {
            assert(violations_named(mv.take(k + 1), r@.name) =~= violations_named(
                mv.take(k as int),
                r@.name,
            ));
        }
        k += 1;
    }
    assert(mv.take(schema_results@.len() as int) =~= mv);
    out
}

/// The linked violations of a list of references.
fn links_of_references(
    request: bool,
    refs: &Vec<SchemaReference>,
    schema_results: &[MatchResult],
) -> (out: Vec<RuleViolation>)
    ensures
        views(out@) == links(request, reference_views(refs@), match_views(schema_results@)),
{
    let ghost rv = reference_views(refs@);
    let mut out: Vec<RuleViolation> = Vec::new();
    let mut i: usize = 0;
    while i < refs.len()
        invariant
            i <= refs@.len(),
            rv == reference_views(refs@),
            views(out@) == links(request, rv.take(i as int), match_views(schema_results@)),
        decreases refs.len() - i,
    {
        assert(rv.take(i + 1).drop_last() =~= rv.take(i as int));
        assert(rv.take(i + 1).last() == refs@[i as int]@);
        extend_with(&mut out, links_of_reference(request, &refs[i], schema_results));
        i += 1;
    }
    assert(rv.take(refs@.len() as int) =~= rv);
    out
}

impl<'a> RouteMatcher<'a> {
    /// For each schema a route uses, a route-scoped copy of each violation
    /// that `schema_results` hold for that schema, with its severity kept.
    fn get_schema_violations_for_route(
        &self,
        route_schemas: &RouteInfo,
        schema_results: &[MatchResult],
    ) -> (r: Vec<RuleViolation>)
        ensures
            views(r@) == links(true, route_schemas@.request, match_views(schema_results@)) + links(
                false,
                route_schemas@.response,
                match_views(schema_results@),
            ),
    {
        let mut out = links_of_references(true, &route_schemas.request_schemas, schema_results);
        extend_with(
            &mut out,
            links_of_references(false, &route_schemas.response_schemas, schema_results),
        );
        out
    }

    /// The rules that apply when both versions have the operation.
    fn compare_both(path: &str, method: &str, b: &Operation, c: &Operation) -> (r: Vec<
        RuleViolation,
    >)
        ensures
            views(r@) == both_findings(path@, method@, *b, *c),
    {
        let mut out: Vec<RuleViolation> = Vec::new();
        record_all(&mut out, &RouteDescriptionChangedRule::detect(path, method, Some(b), Some(c)));
        record_all(&mut out, &RouteSummaryChangedRule::detect(path, method, Some(b), Some(c)));
        record_all(&mut out, &RequiredParameterAddedRule::detect(path, method, Some(b), Some(c)));
        record_all(&mut out, &ParameterRemovedRule::detect(path, method, Some(b), Some(c)));
        let ghost before_status = views(out@);
        record_all(&mut out, &ResponseStatusAddedRule::detect(path, method, Some(b), Some(c)));
        record_all(&mut out, &ResponseStatusRemovedRule::detect(path, method, Some(b), Some(c)));
        assert(views(out@) =~= before_status + status_findings(*b, *c));
        record_all(&mut out, &RequestSchemaChangedRule::detect(path, method, Some(b), Some(c)));
        record_all(&mut out, &ResponseSchemaChangedRule::detect(path, method, Some(b), Some(c)));
        assert(views(out@) =~= both_findings(path@, method@, *b, *c));
        out
    }

    /// The rules of one operation pair: added, removed, or compared.
    fn compare_operations(
        &self,
        path: &str,
        method: &str,
        base: Option<&Operation>,
        current: Option<&Operation>,
    ) -> (r: Vec<RuleViolation>)
        ensures
            views(r@) == operation_findings(path@, method@, deref_opt(base), deref_opt(current)),
    {
        let mut out: Vec<RuleViolation> = Vec::new();
        record_all(&mut out, &RouteAddedRule::detect(path, method, base, current));
        record_all(&mut out, &RouteRemovedRule::detect(path, method, base, current));
        if let (Some(b), Some(c)) = (base, current) {
            extend_with(&mut out, Self::compare_both(path, method, b, c));
        } else {
            assert(views(out@) =~= views(out@) + Seq::<ViolationView>::empty());
        }
        out
    }

    /// Compares every method under one path and appends a result for each
    /// route with a finding.
    fn match_path(
        &self,
        path: &str,
        schema_results: &[MatchResult],
        results: &mut Vec<MatchResult>,
    )
        requires
            levels_agree(old(results)@),
        ensures
            match_views(final(results)@) == match_views(old(results)@) + method_results(
                path@,
                lookup(self.spec_base_paths(), path@),
                lookup(self.spec_current_paths(), path@),
                match_views(schema_results@),
                7,
            ),
            levels_agree(final(results)@),
    {
        let ghost mv = match_views(schema_results@);
        let ghost bi = lookup(self.spec_base_paths(), path@);
        let ghost ci = lookup(self.spec_current_paths(), path@);
        let ghost start = match_views(results@);
        let base_item = find(&self.base_spec.paths, path);
        let current_item = find(&self.current_spec.paths, path);
        let mut k: usize = 0;
        while k < 7
            invariant
                k <= 7,
                mv == match_views(schema_results@),
                bi == deref_opt(base_item),
                ci == deref_opt(current_item),
                match_views(results@) == start + method_results(path@, bi, ci, mv, k as int),
                levels_agree(results@),
            decreases 7 - k,
        {
            let method = method_at(k);
            let base_op = match base_item {
                Some(it) => self.get_operation(it, method),
                None => None,
            };
            let current_op = match current_item {
                Some(it) => self.get_operation(it, method),
                None => None,
            };
            let mut violations = self.compare_operations(path, method, base_op, current_op);
            if let Some(c) = current_op {
                let info = self.extract_route_schemas(path, method, c);
                extend_with(&mut violations, self.get_schema_violations_for_route(&info, schema_results));
            } else {
                assert(views(violations@) =~= views(violations@) + Seq::<ViolationView>::empty());
            }
            assert(views(violations@) == route_findings(
                path@,
                method_text(k as int),
                operation_in(bi, method_text(k as int)),
                operation_in(ci, method_text(k as int)),
                mv,
            ));
            if violations.len() > 0 {
                let ghost before = results@;
                results.push(MatchResult::new(route_label(method, path), violations));
                assert(match_views(results@) =~= match_views(before).push(results@.last()@));
            }
            k += 1;
        }
    }

    /// Compares every path and method of either version, and links the
    /// violations of `schema_results` to the routes whose bodies use them;
    /// one result for each route with a finding, sorted by name.
    pub fn match_routes_with_schema_violations(&self, schema_results: &[MatchResult]) -> (r: Vec<
        MatchResult,
    >)
        ensures
            match_views(r@) == sort_by_name(
                route_results(
                    route_paths(self.spec_base_paths(), self.spec_current_paths()),
                    self.spec_base_paths(),
                    self.spec_current_paths(),
                    match_views(schema_results@),
                ),
            ),
            names_ascending(match_views(r@)),
            levels_agree(r@),
    {
        let ghost bp = self.spec_base_paths();
        let ghost cp = self.spec_current_paths();
        let ghost mv = match_views(schema_results@);
        let mut all = key_list(&self.base_spec.paths);
        let mut more = key_list(&self.current_spec.paths);
        let ghost a = all@;
        let ghost m = more@;
        all.append(&mut more);
        assert(string_views(a + m) =~= string_views(a) + string_views(m));
        let paths = names_not_in(&all, &Vec::new());
        assert(string_views(Seq::<String>::empty()) =~= Seq::<Seq<char>>::empty());
        let ghost pv = string_views(paths@);
        let mut results: Vec<MatchResult> = Vec::new();
        let mut i: usize = 0;
        while i < paths.len()
            invariant
                i <= paths@.len(),
                pv == string_views(paths@),
                bp == self.spec_base_paths(),
                cp == self.spec_current_paths(),
                mv == match_views(schema_results@),
                match_views(results@) == route_results(pv.take(i as int), bp, cp, mv),
                levels_agree(results@),
            decreases paths.len() - i,
        {
            assert(pv.take(i + 1).drop_last() =~= pv.take(i as int));
            assert(pv.take(i + 1).last() == paths@[i as int]@);
            self.match_path(paths[i].as_str(), schema_results, &mut results);
            i += 1;
        }
        assert(pv.take(paths@.len() as int) =~= pv);
        proof {
            crate::model::lemma_fresh_names(keys(bp) + keys(cp), Seq::empty());
            crate::laws::lemma_route_results_names(pv, bp, cp, mv);
            lemma_sort_by_name(match_views(results@));
        }
        sort_results(results)
    }

    /// Compares the routes alone, with no schema results to link.
    pub fn match_routes(&self) -> (r: Vec<MatchResult>)
        ensures
            match_views(r@) == sort_by_name(
                route_results(
                    route_paths(self.spec_base_paths(), self.spec_current_paths()),
                    self.spec_base_paths(),
                    self.spec_current_paths(),
                    Seq::empty(),
                ),
            ),
            names_ascending(match_views(r@)),
            levels_agree(r@),
    {
        let none: Vec<MatchResult> = Vec::new();
        assert(match_views(none@) =~= Seq::empty());
        self.match_routes_with_schema_violations(none.as_slice())
    }

    /// A record of every operation of the current version.
    pub fn get_all_routes_with_schemas(&self) -> (r: Vec<RouteInfo>)
        ensures
            route_info_views(r@) == all_routes(self.spec_current_paths()),
    {
        let ghost cp = self.spec_current_paths();
        let paths = &self.current_spec.paths;
        let mut routes: Vec<RouteInfo> = Vec::new();
        let mut i: usize = 0;
        while i < paths.len()
            invariant
                i <= paths@.len(),
                cp == self.spec_current_paths(),
                *paths == self.current_spec.paths,
                cp == paths@,
                route_info_views(routes@) == all_routes(cp.take(i as int)),
            decreases paths.len() - i,
        {
            assert(cp.take(i + 1).drop_last() =~= cp.take(i as int));
            assert(cp.take(i + 1).last() == cp[i as int]);
            let ghost start = route_info_views(routes@);
            let (path, item) = (&paths[i].0, &paths[i].1);
            let mut k: usize = 0;
            while k < 7
                invariant
                    k <= 7,
                    route_info_views(routes@) == start + item_routes(path@, *item, k as int),
                decreases 7 - k,
            {
                let method = method_at(k);
                let ghost before = route_info_views(routes@);
                match self.get_operation(item, method) {
                    Some(op) => {
                        routes.push(self.extract_route_schemas(path.as_str(), method, op));
                        assert(route_info_views(routes@) =~= before.push(routes@.last()@));
                    },
                    None => {
                        assert(before + Seq::<RouteInfoView>::empty() =~= before);
                    },
                }
                k += 1;
            }
            i += 1;
        }
        assert(cp.take(paths@.len() as int) =~= cp);
        routes
    }
}

/// The labels of the seven compared methods.
pub proof fn lemma_method_labels()
    ensures
        route_method_upper(0) == "GET"@,
        route_method_upper(1) == "POST"@,
        route_method_upper(2) == "PUT"@,
        route_method_upper(3) == "DELETE"@,
        route_method_upper(4) == "PATCH"@,
        route_method_upper(5) == "HEAD"@,
        route_method_upper(6) == "OPTIONS"@,
{
    reveal_strlit("get");
    reveal_strlit("post");
    reveal_strlit("put");
    reveal_strlit("delete");
    reveal_strlit("patch");
    reveal_strlit("head");
    reveal_strlit("options");
    reveal_strlit("GET");
    reveal_strlit("POST");
    reveal_strlit("PUT");
    reveal_strlit("DELETE");
    reveal_strlit("PATCH");
    reveal_strlit("HEAD");
    reveal_strlit("OPTIONS");
    assert(all_ascii("get"@));
    assert(all_ascii("post"@));
    assert(all_ascii("put"@));
    assert(all_ascii("delete"@));
    assert(all_ascii("patch"@));
    assert(all_ascii("head"@));
    assert(all_ascii("options"@));
    assert("get"@.map_values(|c: char| ascii_upper(c)) =~= "GET"@);
    assert("post"@.map_values(|c: char| ascii_upper(c)) =~= "POST"@);
    assert("put"@.map_values(|c: char| ascii_upper(c)) =~= "PUT"@);
    assert("delete"@.map_values(|c: char| ascii_upper(c)) =~= "DELETE"@);
    assert("patch"@.map_values(|c: char| ascii_upper(c)) =~= "PATCH"@);
    assert("head"@.map_values(|c: char| ascii_upper(c)) =~= "HEAD"@);
    assert("options"@.map_values(|c: char| ascii_upper(c)) =~= "OPTIONS"@);
}

/// The upper-case label of the `k`-th compared method.
pub open spec fn route_method_upper(k: int) -> Seq<char> {
    crate::rules::route::method_upper(method_text(k))
}

// ===========================================================================
// Order of results
// ===========================================================================

/// Where `x` goes in `s`: before the first result whose name it precedes.
pub open spec fn name_pos(s: Seq<MatchView>, x: MatchView) -> int
    decreases s.len(),
{
    if s.len() == 0 {
        0
    } else if text_lt(x.name, s[0].name) {
        0
    } else {
        1 + name_pos(s.skip(1), x)
    }
}

/// `s` sorted by name; results with equal names keep their order.
pub open spec fn sort_by_name(s: Seq<MatchView>) -> Seq<MatchView>
    decreases s.len(),
{
    if s.len() == 0 {
        Seq::empty()
    } else {
        let t = sort_by_name(s.drop_last());
        t.insert(name_pos(t, s.last()), s.last())
    }
}

/// No result's name comes before the name of the result ahead of it.
pub open spec fn names_ordered(s: Seq<MatchView>) -> bool {
    forall|i: int| 0 <= i < s.len() - 1 ==> !text_lt(#[trigger] s[i + 1].name, s[i].name)
}

/// Each result's name comes strictly before the next one's.
pub open spec fn names_ascending(s: Seq<MatchView>) -> bool {
    forall|i: int| 0 <= i < s.len() - 1 ==> text_lt(#[trigger] s[i].name, s[i + 1].name)
}

/// No two results share a name.
pub open spec fn names_distinct(s: Seq<MatchView>) -> bool {
    forall|i: int, j: int| 0 <= i < j < s.len() ==> s[i].name != s[j].name
}

pub proof fn lemma_text_lt_asymmetric(a: Seq<char>, b: Seq<char>)
    ensures
        !(text_lt(a, b) && text_lt(b, a)),
    decreases a.len(),
{
    if a.len() > 0 && b.len() > 0 && a[0] == b[0] {
        lemma_text_lt_asymmetric(a.skip(1), b.skip(1));
    }
}

proof fn lemma_char_code(x: char, y: char)
    ensures
        x != y ==> (x as u32) != (y as u32),
{
}

pub proof fn lemma_text_lt_total(a: Seq<char>, b: Seq<char>)
    ensures
        a != b ==> text_lt(a, b) || text_lt(b, a),
    decreases a.len(),
{
    if a.len() > 0 && b.len() > 0 && a[0] == b[0] {
        lemma_text_lt_total(a.skip(1), b.skip(1));
        if a.skip(1) == b.skip(1) {
            assert(a =~= seq![a[0]] + a.skip(1));
            assert(b =~= seq![b[0]] + b.skip(1));
        }
    }
    if a.len() > 0 && b.len() > 0 && a[0] != b[0] {
        lemma_char_code(a[0], b[0]);
    }
    if a.len() == 0 && b.len() == 0 {
        assert(a =~= b);
    }
}

proof fn lemma_name_pos(s: Seq<MatchView>, x: MatchView, j: int)
    requires
        0 <= j <= s.len(),
        forall|i: int| 0 <= i < j ==> !text_lt(x.name, #[trigger] s[i].name),
        j == s.len() || text_lt(x.name, s[j].name),
    ensures
        name_pos(s, x) == j,
    decreases s.len(),
{
    if s.len() > 0 && j > 0 {
        assert(!text_lt(x.name, s[0].name));
        assert forall|i: int| 0 <= i < j - 1 implies !text_lt(x.name, #[trigger] s.skip(1)[i].name) by {
            assert(s.skip(1)[i] == s[i + 1]);
        }
        if j < s.len() {
            assert(s.skip(1)[j - 1] == s[j]);
        }
        lemma_name_pos(s.skip(1), x, j - 1);
    }
}

proof fn lemma_name_pos_bounds(s: Seq<MatchView>, x: MatchView)
    ensures
        0 <= name_pos(s, x) <= s.len(),
        forall|i: int| 0 <= i < name_pos(s, x) ==> !text_lt(x.name, #[trigger] s[i].name),
        name_pos(s, x) < s.len() ==> text_lt(x.name, s[name_pos(s, x)].name),
    decreases s.len(),
{
    if s.len() > 0 && !text_lt(x.name, s[0].name) {
        lemma_name_pos_bounds(s.skip(1), x);
        assert forall|i: int| 0 <= i < name_pos(s, x) implies !text_lt(x.name, #[trigger] s[i].name) by {
            if i > 0 {
                assert(s[i] == s.skip(1)[i - 1]);
            }
        }
        if name_pos(s, x) < s.len() {
            assert(s[name_pos(s, x)] == s.skip(1)[name_pos(s, x) - 1]);
        }
    }
}

/// Sorting by name keeps the results, orders them by name, and keeps names
/// distinct where they were.
#[verifier::rlimit(80)]
pub proof fn lemma_sort_by_name(s: Seq<MatchView>)
    ensures
        sort_by_name(s).len() == s.len(),
        forall|e: MatchView| #[trigger] sort_by_name(s).contains(e) <==> s.contains(e),
        names_ordered(sort_by_name(s)),
        names_distinct(s) ==> names_distinct(sort_by_name(s)),
        names_distinct(s) ==> names_ascending(sort_by_name(s)),
    decreases s.len(),
{
    if s.len() > 0 {
        let init = s.drop_last();
        let x = s.last();
        lemma_sort_by_name(init);
        let t = sort_by_name(init);
        let j = name_pos(t, x);
        lemma_name_pos_bounds(t, x);
        let u = t.insert(j, x);
        assert(sort_by_name(s) == u);
        assert forall|e: MatchView| u.contains(e) <==> (t.contains(e) || e == x) by {
            if u.contains(e) {
                let i = choose|i: int| 0 <= i < u.len() && u[i] == e;
                if i < j {
                    assert(t[i] == e);
                } else if i > j {
                    assert(t[i - 1] == e);
                }
            }
            if t.contains(e) {
                let i = choose|i: int| 0 <= i < t.len() && t[i] == e;
                if i < j {
                    assert(u[i] == e);
                } else {
                    assert(u[i + 1] == e);
                }
            }
            if e == x {
                assert(u[j] == e);
            }
        }
        assert forall|e: MatchView| s.contains(e) <==> (init.contains(e) || e == x) by {
            if s.contains(e) {
                let i = choose|i: int| 0 <= i < s.len() && s[i] == e;
                if i < s.len() - 1 {
                    assert(init[i] == e);
                }
            }
            if init.contains(e) {
                let i = choose|i: int| 0 <= i < init.len() && init[i] == e;
                assert(s[i] == e);
            }
            if e == x {
                assert(s[s.len() - 1] == e);
            }
        }
        assert forall|i: int| 0 <= i < u.len() - 1 implies !text_lt(#[trigger] u[i + 1].name, u[i].name) by {
            if i + 1 < j {
                assert(u[i] == t[i] && u[i + 1] == t[i + 1]);
                assert(!text_lt(t[i + 1].name, t[i].name));
            } else if i + 1 == j {
                assert(u[i] == t[i] && u[i + 1] == x);
                assert(!text_lt(x.name, t[i].name));
            } else if i == j {
                assert(u[i] == x && u[i + 1] == t[j]);
                lemma_text_lt_asymmetric(x.name, t[j].name);
            } else {
                let h = i - 1;
                assert(u[i] == t[h] && u[i + 1] == t[h + 1]);
                assert(!text_lt(t[h + 1].name, t[h].name));
            }
        }
        if names_distinct(s) {
            assert forall|a: int, b: int| 0 <= a < b < init.len() implies init[a].name
                != init[b].name by {
                assert(init[a] == s[a] && init[b] == s[b]);
            }
            assert forall|k: int| 0 <= k < t.len() implies #[trigger] t[k].name != x.name by {
                assert(t.contains(t[k]));
                let i = choose|i: int| 0 <= i < init.len() && init[i] == t[k];
                assert(s[i] == init[i]);
            }
            assert forall|a: int, b: int| 0 <= a < b < u.len() implies u[a].name != u[b].name by {
                if b < j {
                    assert(u[a] == t[a] && u[b] == t[b]);
                } else if b == j {
                    assert(u[a] == t[a] && u[b] == x);
                } else if a < j {
                    assert(u[a] == t[a] && u[b] == t[b - 1]);
                } else if a == j {
                    assert(u[a] == x && u[b] == t[b - 1]);
                } else {
                    assert(u[a] == t[a - 1] && u[b] == t[b - 1]);
                }
            }
            assert forall|i: int| 0 <= i < u.len() - 1 implies text_lt(#[trigger] u[i].name, u[i + 1].name) by {
                assert(!text_lt(u[i + 1].name, u[i].name));
                lemma_text_lt_total(u[i].name, u[i + 1].name);
            }
        }
    }
}

/// The results sorted by name, keeping the order of equal names.
fn sort_results(results: Vec<MatchResult>) -> (r: Vec<MatchResult>)
    requires
        levels_agree(results@),
    ensures
        match_views(r@) == sort_by_name(match_views(results@)),
        levels_agree(r@),
{
    let ghost mv = match_views(results@);
    let total = results.len();
    let mut rest = results;
    let mut out: Vec<MatchResult> = Vec::new();
    let mut k: usize = 0;
    assert(mv.skip(0) =~= mv);
    while rest.len() > 0
        invariant
            k <= mv.len(),
            mv.len() == total,
            rest@.len() == mv.len() - k,
            match_views(rest@) == mv.skip(k as int),
            match_views(out@) == sort_by_name(mv.take(k as int)),
            levels_agree(rest@),
            levels_agree(out@),
        decreases rest.len(),
    {
        assert(mv.take(k + 1).drop_last() =~= mv.take(k as int));
        assert(mv.take(k + 1).last() == mv[k as int]);
        let ghost before_rest = rest@;
        let x = rest.remove(0);
        assert(match_views(before_rest)[0] == before_rest[0]@);
        assert(mv.skip(k as int)[0] == mv[k as int]);
        assert(x@ == mv[k as int]);
        assert(x.change_level == aggregate(levels(x@.violations)));
        assert forall|i: int| 0 <= i < rest@.len() implies match_views(rest@)[i] == mv.skip(k + 1)[i]
            by {
            assert(rest@[i] == before_rest[i + 1]);
            assert(match_views(before_rest)[i + 1] == mv.skip(k as int)[i + 1]);
        }
        assert(match_views(rest@) =~= mv.skip(k + 1));
        assert forall|i: int| 0 <= i < rest@.len() implies #[trigger] rest@[i].change_level
            == aggregate(levels(rest@[i]@.violations)) by {
            assert(rest@[i] == before_rest[i + 1]);
        }
        let ghost ov = match_views(out@);
        let ghost before_out = out@;
        let mut j: usize = 0;
        while j < out.len() && !text_less(x.name.as_str(), out[j].name.as_str())
            invariant
                j <= out@.len(),
                ov == match_views(out@),
                forall|i: int| 0 <= i < j ==> !text_lt(x@.name, #[trigger] ov[i].name),
            decreases out.len() - j,
        {
            j += 1;
        }
        proof {
            lemma_name_pos(ov, x@, j as int);
        }
        let ghost xv = x@;
        out.insert(j, x);
        assert(match_views(out@) =~= ov.insert(j as int, xv));
        assert forall|i: int| 0 <= i < out@.len() implies #[trigger] out@[i].change_level
            == aggregate(levels(out@[i]@.violations)) by {
            if i < j {
                assert(out@[i] == before_out[i]);
            } else if i > j {
                assert(out@[i] == before_out[i - 1]);
            }
        }
        k += 1;
    }
    assert(mv.take(mv.len() as int) =~= mv);
    out
}

} // verus!
