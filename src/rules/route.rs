//! Rules that compare two versions of one operation.
use vstd::prelude::*;

use crate::model::{
    MediaEntry, Operation, Parameter, ParameterLocation, ResponseEntry, SchemaRef, deref_opt,
    pointer_name,
    schema_name_of_pointer,
};
use crate::rules::{AnchorView, ChangeAnchor, Rule, RuleCategory, ViolationView, rule_views};
use crate::text::{all_ascii, ascii_upper, cat, cat3, upper_of, uppercase};
use crate::ChangeLevel;

verus! {

/// A check on the two versions of the operation at one path and method.
pub trait RouteRule: Rule {
    /// What the rule finds between the two operations.
    spec fn spec_detect(
        path: Seq<char>,
        method: Seq<char>,
        base: Option<Operation>,
        current: Option<Operation>,
    ) -> Seq<ViolationView>;

    /// The instances of the rule between `base` and `current`, none where it
    /// does not apply.
    fn detect(
        path: &str,
        method: &str,
        base: Option<&Operation>,
        current: Option<&Operation>,
    ) -> (r: Vec<Self>)
        ensures
            rule_views(r@) == Self::spec_detect(path@, method@, deref_opt(base), deref_opt(current)),
    ;
}

/// A method name in upper case.
pub open spec fn method_upper(method: Seq<char>) -> Seq<char> {
    if all_ascii(method) {
        method.map_values(|c: char| ascii_upper(c))
    } else {
        upper_of(method)
    }
}

/// The route label `METHOD path`.
pub open spec fn route_text(method: Seq<char>, path: Seq<char>) -> Seq<char> {
    method_upper(method) + " "@ + path
}

/// The route label `METHOD path`.
pub fn route_label(method: &str, path: &str) -> (r: String)
    ensures
        r@ == route_text(method@, path@),
{
    let upper = uppercase(method);
    cat3(upper.as_str(), " ", path)
}

/// The name of a parameter location.
pub open spec fn location_text(l: ParameterLocation) -> Seq<char> {
    match l {
        ParameterLocation::Path => "Path"@,
        ParameterLocation::Query => "Query"@,
        ParameterLocation::Header => "Header"@,
        ParameterLocation::Cookie => "Cookie"@,
    }
}

pub fn location_text_of(l: ParameterLocation) -> (r: &'static str)
    ensures
        r@ == location_text(l),
{
    match l {
        ParameterLocation::Path => "Path",
        ParameterLocation::Query => "Query",
        ParameterLocation::Header => "Header",
        ParameterLocation::Cookie => "Cookie",
    }
}

/// A text that is absent counts as the empty text.
pub open spec fn text_or_empty(o: Option<String>) -> Seq<char> {
    match o {
        Some(s) => s@,
        None => Seq::empty(),
    }
}

fn text_or_empty_of(o: &Option<String>) -> (r: String)
    ensures
        r@ == text_or_empty(*o),
{
    match o {
        Some(s) => s.clone(),
        None => String::new(),
    }
}

/// A textual field was replaced: old and new are both non-empty and differ.
pub open spec fn text_replaced(old: Seq<char>, new: Seq<char>) -> bool {
    old != new && old.len() > 0 && new.len() > 0
}

fn is_replaced(old: &String, new: &String) -> (r: bool)
    ensures
        r == text_replaced(old@, new@),
{
    *old != *new && old.as_str().unicode_len() > 0 && new.as_str().unicode_len() > 0
}

pub open spec fn route_added_view(
    path: Seq<char>,
    method: Seq<char>,
) -> ViolationView {
    ViolationView {
        name: "RouteAdded"@,
        description: "Route Added: "@ + route_text(method, path),
        change_level: ChangeLevel::Change,
        context: AnchorView::Route,
        category: RuleCategory::Endpoint,
    }
}

/// An operation that only the current version has.
#[derive(Debug, Clone)]
pub struct RouteAddedRule {
    pub path: String,
    pub method: String,
}

impl RouteAddedRule {
    pub open spec fn view_of(&self) -> ViolationView {
        route_added_view(self.path@, self.method@)
    }
}

impl Rule for RouteAddedRule {
    open spec fn spec_name(&self) -> Seq<char> {
        self.view_of().name
    }

    open spec fn spec_description(&self) -> Seq<char> {
        self.view_of().description
    }

    open spec fn spec_change_level(&self) -> ChangeLevel {
        self.view_of().change_level
    }

    open spec fn spec_context(&self) -> AnchorView {
        self.view_of().context
    }

    open spec fn spec_category(&self) -> RuleCategory {
        self.view_of().category
    }

    fn name(&self) -> (r: &str) {
        "RouteAdded"
    }

    fn description(&self) -> (r: String) {
        cat("Route Added: ", route_label(self.method.as_str(), self.path.as_str()).as_str())
    }

    fn change_level(&self) -> (r: ChangeLevel) {
        ChangeLevel::Change
    }

    fn context(&self) -> (r: ChangeAnchor) {
        ChangeAnchor::Route
    }

    fn category(&self) -> (r: RuleCategory) {
        RuleCategory::Endpoint
    }
}

impl RouteRule for RouteAddedRule {
    open spec fn spec_detect(
        path: Seq<char>,
        method: Seq<char>,
        base: Option<Operation>,
        current: Option<Operation>,
    ) -> Seq<ViolationView> {
        if base is None && current is Some {
            seq![route_added_view(path, method)]
        } else {
            Seq::empty()
        }
    }

    fn detect(
        path: &str,
        method: &str,
        base: Option<&Operation>,
        current: Option<&Operation>,
    ) -> (r: Vec<Self>)
        ensures
            forall|k: int|
                #![trigger r@[k]]
                0 <= k < r@.len() ==> r@[k].path@ == path@ && r@[k].method@ == method@,
    {
        let mut r: Vec<Self> = Vec::new();
        if base.is_none() && current.is_some() {
            r.push(RouteAddedRule { path: String::from_str(path), method: String::from_str(method) });
            assert(rule_views(r@) =~= seq![route_added_view(path@, method@)]);
        } else {
            assert(rule_views(r@) =~= Seq::empty());
        }
        r
    }
}

pub open spec fn route_removed_view(
    path: Seq<char>,
    method: Seq<char>,
) -> ViolationView {
    ViolationView {
        name: "RouteRemoved"@,
        description: "Route Removed: "@ + route_text(method, path),
        change_level: ChangeLevel::Breaking,
        context: AnchorView::Route,
        category: RuleCategory::Endpoint,
    }
}

/// An operation that only the base version has.
#[derive(Debug, Clone)]
pub struct RouteRemovedRule {
    pub path: String,
    pub method: String,
}

impl RouteRemovedRule {
    pub open spec fn view_of(&self) -> ViolationView {
        route_removed_view(self.path@, self.method@)
    }
}

impl Rule for RouteRemovedRule {
    open spec fn spec_name(&self) -> Seq<char> {
        self.view_of().name
    }

    open spec fn spec_description(&self) -> Seq<char> {
        self.view_of().description
    }

    open spec fn spec_change_level(&self) -> ChangeLevel {
        self.view_of().change_level
    }

    open spec fn spec_context(&self) -> AnchorView {
        self.view_of().context
    }

    open spec fn spec_category(&self) -> RuleCategory {
        self.view_of().category
    }

    fn name(&self) -> (r: &str) {
        "RouteRemoved"
    }

    fn description(&self) -> (r: String) {
        cat("Route Removed: ", route_label(self.method.as_str(), self.path.as_str()).as_str())
    }

    fn change_level(&self) -> (r: ChangeLevel) {
        ChangeLevel::Breaking
    }

    fn context(&self) -> (r: ChangeAnchor) {
        ChangeAnchor::Route
    }

    fn category(&self) -> (r: RuleCategory) {
        RuleCategory::Endpoint
    }
}

impl RouteRule for RouteRemovedRule {
    open spec fn spec_detect(
        path: Seq<char>,
        method: Seq<char>,
        base: Option<Operation>,
        current: Option<Operation>,
    ) -> Seq<ViolationView> {
        if base is Some && current is None {
            seq![route_removed_view(path, method)]
        } else {
            Seq::empty()
        }
    }

    fn detect(
        path: &str,
        method: &str,
        base: Option<&Operation>,
        current: Option<&Operation>,
    ) -> (r: Vec<Self>)
        ensures
            forall|k: int|
                #![trigger r@[k]]
                0 <= k < r@.len() ==> r@[k].path@ == path@ && r@[k].method@ == method@,
    {
        let mut r: Vec<Self> = Vec::new();
        if base.is_some() && current.is_none() {
            r.push(RouteRemovedRule { path: String::from_str(path), method: String::from_str(method) });
            assert(rule_views(r@) =~= seq![route_removed_view(path@, method@)]);
        } else {
            assert(rule_views(r@) =~= Seq::empty());
        }
        r
    }
}

pub open spec fn route_description_changed_view(
    path: Seq<char>,
    method: Seq<char>,
) -> ViolationView {
    ViolationView {
        name: "RouteDescriptionChanged"@,
        description: "Description Changed: "@ + route_text(method, path),
        change_level: ChangeLevel::Change,
        context: AnchorView::Route,
        category: RuleCategory::Endpoint,
    }
}

/// What the description rule finds between two operations.
pub open spec fn route_description_changes(
    path: Seq<char>,
    method: Seq<char>,
    b: Operation,
    c: Operation,
) -> Seq<ViolationView> {
    if text_replaced(text_or_empty(b.description), text_or_empty(c.description)) {
        seq![route_description_changed_view(path, method)]
    } else {
        Seq::empty()
    }
}

/// The operation's description was replaced by another non-empty text.
#[derive(Debug, Clone)]
pub struct RouteDescriptionChangedRule {
    pub path: String,
    pub method: String,
    pub old_description: String,
    pub new_description: String,
}

impl RouteDescriptionChangedRule {
    pub open spec fn view_of(&self) -> ViolationView {
        route_description_changed_view(self.path@, self.method@)
    }
}

impl Rule for RouteDescriptionChangedRule {
    open spec fn spec_name(&self) -> Seq<char> {
        self.view_of().name
    }

    open spec fn spec_description(&self) -> Seq<char> {
        self.view_of().description
    }

    open spec fn spec_change_level(&self) -> ChangeLevel {
        self.view_of().change_level
    }

    open spec fn spec_context(&self) -> AnchorView {
        self.view_of().context
    }

    open spec fn spec_category(&self) -> RuleCategory {
        self.view_of().category
    }

    fn name(&self) -> (r: &str) {
        "RouteDescriptionChanged"
    }

    fn description(&self) -> (r: String) {
        cat("Description Changed: ", route_label(self.method.as_str(), self.path.as_str()).as_str())
    }

    fn change_level(&self) -> (r: ChangeLevel) {
        ChangeLevel::Change
    }

    fn context(&self) -> (r: ChangeAnchor) {
        ChangeAnchor::Route
    }

    fn category(&self) -> (r: RuleCategory) {
        RuleCategory::Endpoint
    }
}

impl RouteRule for RouteDescriptionChangedRule {
    open spec fn spec_detect(
        path: Seq<char>,
        method: Seq<char>,
        base: Option<Operation>,
        current: Option<Operation>,
    ) -> Seq<ViolationView> {
        match (base, current) {
            (Some(b), Some(c)) => route_description_changes(path, method, b, c),
            _ => Seq::empty(),
        }
    }

    /// Fires when both operations have a non-empty description and they differ;
    /// a description that appears or disappears is not reported.
    fn detect(
        path: &str,
        method: &str,
        base: Option<&Operation>,
        current: Option<&Operation>,
    ) -> (r: Vec<Self>)
        ensures
            match (base, current) {
                (Some(b), Some(c)) => forall|k: int|
                    #![trigger r@[k]]
                    0 <= k < r@.len() ==> {
                        &&& r@[k].path@ == path@
                        &&& r@[k].method@ == method@
                        &&& r@[k].old_description@ == text_or_empty(b.description)
                        &&& r@[k].new_description@ == text_or_empty(c.description)
                    },
                _ => true,
            },
    {
        let mut r: Vec<Self> = Vec::new();
        if let (Some(b), Some(c)) = (base, current) {
            let old = text_or_empty_of(&b.description);
            let new = text_or_empty_of(&c.description);
            if is_replaced(&old, &new) {
                r.push(
                    RouteDescriptionChangedRule {
                        path: String::from_str(path),
                        method: String::from_str(method),
                        old_description: old,
                        new_description: new,
                    },
                );
            }
            assert(rule_views(r@) =~= route_description_changes(path@, method@, *b, *c));
            return r;
        }
        assert(rule_views(r@) =~= Seq::empty());
        r
    }
}

pub open spec fn route_summary_changed_view(
    path: Seq<char>,
    method: Seq<char>,
) -> ViolationView {
    ViolationView {
        name: "RouteSummaryChanged"@,
        description: "Summary Changed: "@ + route_text(method, path),
        change_level: ChangeLevel::Change,
        context: AnchorView::Route,
        category: RuleCategory::Endpoint,
    }
}

/// What the summary rule finds between two operations.
pub open spec fn route_summary_changes(
    path: Seq<char>,
    method: Seq<char>,
    b: Operation,
    c: Operation,
) -> Seq<ViolationView> {
    if text_replaced(text_or_empty(b.summary), text_or_empty(c.summary)) {
        seq![route_summary_changed_view(path, method)]
    } else {
        Seq::empty()
    }
}

/// The operation's summary was replaced by another non-empty text.
#[derive(Debug, Clone)]
pub struct RouteSummaryChangedRule {
    pub path: String,
    pub method: String,
    pub old_summary: String,
    pub new_summary: String,
}

impl RouteSummaryChangedRule {
    pub open spec fn view_of(&self) -> ViolationView {
        route_summary_changed_view(self.path@, self.method@)
    }
}

impl Rule for RouteSummaryChangedRule {
    open spec fn spec_name(&self) -> Seq<char> {
        self.view_of().name
    }

    open spec fn spec_description(&self) -> Seq<char> {
        self.view_of().description
    }

    open spec fn spec_change_level(&self) -> ChangeLevel {
        self.view_of().change_level
    }

    open spec fn spec_context(&self) -> AnchorView {
        self.view_of().context
    }

    open spec fn spec_category(&self) -> RuleCategory {
        self.view_of().category
    }

    fn name(&self) -> (r: &str) {
        "RouteSummaryChanged"
    }

    fn description(&self) -> (r: String) {
        cat("Summary Changed: ", route_label(self.method.as_str(), self.path.as_str()).as_str())
    }

    fn change_level(&self) -> (r: ChangeLevel) {
        ChangeLevel::Change
    }

    fn context(&self) -> (r: ChangeAnchor) {
        ChangeAnchor::Route
    }

    fn category(&self) -> (r: RuleCategory) {
        RuleCategory::Endpoint
    }
}

impl RouteRule for RouteSummaryChangedRule {
    open spec fn spec_detect(
        path: Seq<char>,
        method: Seq<char>,
        base: Option<Operation>,
        current: Option<Operation>,
    ) -> Seq<ViolationView> {
        match (base, current) {
            (Some(b), Some(c)) => route_summary_changes(path, method, b, c),
            _ => Seq::empty(),
        }
    }

    /// Fires when both operations have a non-empty summary and they differ;
    /// a summary that appears or disappears is not reported.
    fn detect(
        path: &str,
        method: &str,
        base: Option<&Operation>,
        current: Option<&Operation>,
    ) -> (r: Vec<Self>)
        ensures
            match (base, current) {
                (Some(b), Some(c)) => forall|k: int|
                    #![trigger r@[k]]
                    0 <= k < r@.len() ==> {
                        &&& r@[k].path@ == path@
                        &&& r@[k].method@ == method@
                        &&& r@[k].old_summary@ == text_or_empty(b.summary)
                        &&& r@[k].new_summary@ == text_or_empty(c.summary)
                    },
                _ => true,
            },
    {
        let mut r: Vec<Self> = Vec::new();
        if let (Some(b), Some(c)) = (base, current) {
            let old = text_or_empty_of(&b.summary);
            let new = text_or_empty_of(&c.summary);
            if is_replaced(&old, &new) {
                r.push(
                    RouteSummaryChangedRule {
                        path: String::from_str(path),
                        method: String::from_str(method),
                        old_summary: old,
                        new_summary: new,
                    },
                );
            }
            assert(rule_views(r@) =~= route_summary_changes(path@, method@, *b, *c));
            return r;
        }
        assert(rule_views(r@) =~= Seq::empty());
        r
    }
}

// ---------------------------------------------------------------------------
// Parameters
// ---------------------------------------------------------------------------

/// Whether `ps` has a parameter with this name at this location.
pub open spec fn has_param(ps: Seq<Parameter>, name: Seq<char>, loc: ParameterLocation) -> bool {
    exists|i: int| 0 <= i < ps.len() && ps[i].name@ == name && ps[i].location == loc
}

fn has_param_of(ps: &Vec<Parameter>, name: &String, loc: ParameterLocation) -> (r: bool)
    ensures
        r == has_param(ps@, name@, loc),
{
    let mut i: usize = 0;
    while i < ps.len()
        invariant
            i <= ps@.len(),
            forall|j: int| 0 <= j < i ==> !(ps@[j].name@ == name@ && ps@[j].location == loc),
        decreases ps.len() - i,
    {
        if ps[i].name == *name && ps[i].location == loc {
            return true;
        }
        i += 1;
    }
    false
}

pub open spec fn required_parameter_view(
    name: Seq<char>,
    location: Seq<char>,
) -> ViolationView {
    ViolationView {
        name: "RequiredParameterAdded"@,
        description: "Required Parameter Added: "@ + name + " (in: "@ + location + ")"@,
        change_level: ChangeLevel::Breaking,
        context: AnchorView::Parameter(name),
        category: RuleCategory::Parameter,
    }
}

/// One finding for each parameter of `cps` that is required and whose
/// (name, location) pair `bps` lacks.
pub open spec fn new_required_params(bps: Seq<Parameter>, cps: Seq<Parameter>) -> Seq<ViolationView>
    decreases cps.len(),
{
    if cps.len() == 0 {
        Seq::empty()
    } else {
        let rest = new_required_params(bps, cps.drop_last());
        let p = cps.last();
        if p.required == Some(true) && !has_param(bps, p.name@, p.location) {
            rest.push(required_parameter_view(p.name@, location_text(p.location)))
        } else {
            rest
        }
    }
}

/// The parameters of `cps` that are required and whose (name, location)
/// pair `bps` lacks.
pub open spec fn new_required_list(bps: Seq<Parameter>, cps: Seq<Parameter>) -> Seq<Parameter>
    decreases cps.len(),
{
    if cps.len() == 0 {
        Seq::empty()
    } else {
        let rest = new_required_list(bps, cps.drop_last());
        let p = cps.last();
        if p.required == Some(true) && !has_param(bps, p.name@, p.location) {
            rest.push(p)
        } else {
            rest
        }
    }
}

/// A required parameter that the base operation did not have.
#[derive(Debug, Clone)]
pub struct RequiredParameterAddedRule {
    pub path: String,
    pub method: String,
    pub parameter_name: String,
    /// The location's name, such as `Query`.
    pub parameter_in: String,
}

impl RequiredParameterAddedRule {
    pub open spec fn view_of(&self) -> ViolationView {
        required_parameter_view(self.parameter_name@, self.parameter_in@)
    }
}

impl Rule for RequiredParameterAddedRule {
    open spec fn spec_name(&self) -> Seq<char> {
        self.view_of().name
    }

    open spec fn spec_description(&self) -> Seq<char> {
        self.view_of().description
    }

    open spec fn spec_change_level(&self) -> ChangeLevel {
        self.view_of().change_level
    }

    open spec fn spec_context(&self) -> AnchorView {
        self.view_of().context
    }

    open spec fn spec_category(&self) -> RuleCategory {
        self.view_of().category
    }

    fn name(&self) -> (r: &str) {
        "RequiredParameterAdded"
    }

    fn description(&self) -> (r: String) {
        cat3("Required Parameter Added: ", self.parameter_name.as_str(), " (in: ").concat(
            self.parameter_in.as_str(),
        ).concat(")")
    }

    fn change_level(&self) -> (r: ChangeLevel) {
        ChangeLevel::Breaking
    }

    fn context(&self) -> (r: ChangeAnchor) {
        ChangeAnchor::Parameter(self.parameter_name.clone())
    }

    fn category(&self) -> (r: RuleCategory) {
        RuleCategory::Parameter
    }
}

impl RouteRule for RequiredParameterAddedRule {
    open spec fn spec_detect(
        path: Seq<char>,
        method: Seq<char>,
        base: Option<Operation>,
        current: Option<Operation>,
    ) -> Seq<ViolationView> {
        match (base, current) {
            (Some(b), Some(c)) => new_required_params(b.parameters@, c.parameters@),
            _ => Seq::empty(),
        }
    }

    /// Fires for each required parameter of the current operation whose
    /// (name, location) pair the base operation lacks. A parameter that only
    /// became required is not reported.
    fn detect(
        path: &str,
        method: &str,
        base: Option<&Operation>,
        current: Option<&Operation>,
    ) -> (r: Vec<Self>)
        ensures
            match (base, current) {
                (Some(b), Some(c)) => forall|k: int|
                    #![trigger r@[k]]
                    0 <= k < r@.len() ==> {
                        &&& r@[k].path@ == path@
                        &&& r@[k].method@ == method@
                        &&& r@[k].parameter_name@ == new_required_list(b.parameters@, c.parameters@)[k].name@
                        &&& r@[k].parameter_in@ == location_text(
                            new_required_list(b.parameters@, c.parameters@)[k].location,
                        )
                    },
                _ => true,
            },
    {
        let mut r: Vec<Self> = Vec::new();
        if let (Some(b), Some(c)) = (base, current) {
            let mut i: usize = 0;
            while i < c.parameters.len()
                invariant
                    i <= c.parameters@.len(),
                    rule_views(r@) == new_required_params(b.parameters@, c.parameters@.take(i as int)),
                    r@.len() == new_required_list(b.parameters@, c.parameters@.take(i as int)).len(),
                    forall|k: int|
                        #![trigger r@[k]]
                        0 <= k < r@.len() ==> {
                            &&& r@[k].path@ == path@
                            &&& r@[k].method@ == method@
                            &&& r@[k].parameter_name@ == new_required_list(b.parameters@, c.parameters@.take(i as int))[k].name@
                            &&& r@[k].parameter_in@ == location_text(new_required_list(b.parameters@, c.parameters@.take(i as int))[k].location)
                        },

                decreases c.parameters.len() - i,
            {
                assert(c.parameters@.take(i + 1).drop_last() =~= c.parameters@.take(i as int));
                let p = &c.parameters[i];
                if matches!(p.required, Some(true)) && !has_param_of(&b.parameters, &p.name, p.location) {
                    let ghost before = r@;
                    r.push(
                        RequiredParameterAddedRule {
                            path: String::from_str(path),
                            method: String::from_str(method),
                            parameter_name: p.name.clone(),
                            parameter_in: String::from_str(location_text_of(p.location)),
                        },
                    );
                    assert(rule_views(r@) =~= rule_views(before).push(
                        required_parameter_view(p.name@, location_text(p.location)),
                    ));
                    assert(new_required_list(b.parameters@, c.parameters@.take(i + 1)) == new_required_list(b.parameters@, c.parameters@.take(i as int)).push(*p));
                    assert forall|k: int| 0 <= k < r@.len() implies {
                        &&& r@[k].path@ == path@
                        &&& r@[k].method@ == method@
                        &&& r@[k].parameter_name@ == new_required_list(b.parameters@, c.parameters@.take(i + 1))[k].name@
                        &&& r@[k].parameter_in@ == location_text(new_required_list(b.parameters@, c.parameters@.take(i + 1))[k].location)
                    } by {
                        if k < before.len() {
                            assert(r@[k] == before[k]);
                        }
                    }

                }
                i += 1;
            }
            assert(c.parameters@.take(c.parameters@.len() as int) =~= c.parameters@);
            return r;
        }
        assert(rule_views(r@) =~= Seq::empty());
        r
    }
}

pub open spec fn parameter_removed_view(
    name: Seq<char>,
    location: Seq<char>,
) -> ViolationView {
    ViolationView {
        name: "ParameterRemoved"@,
        description: "Parameter Removed: "@ + name + " (in: "@ + location + ")"@,
        change_level: ChangeLevel::Breaking,
        context: AnchorView::Parameter(name),
        category: RuleCategory::Parameter,
    }
}

/// One finding for each parameter of `bps` whose (name, location) pair `cps`
/// lacks.
pub open spec fn removed_params(bps: Seq<Parameter>, cps: Seq<Parameter>) -> Seq<ViolationView>
    decreases bps.len(),
{
    if bps.len() == 0 {
        Seq::empty()
    } else {
        let rest = removed_params(bps.drop_last(), cps);
        let p = bps.last();
        if !has_param(cps, p.name@, p.location) {
            rest.push(parameter_removed_view(p.name@, location_text(p.location)))
        } else {
            rest
        }
    }
}

/// The parameters of `bps` whose (name, location) pair `cps` lacks.
pub open spec fn removed_list(bps: Seq<Parameter>, cps: Seq<Parameter>) -> Seq<Parameter>
    decreases bps.len(),
{
    if bps.len() == 0 {
        Seq::empty()
    } else {
        let rest = removed_list(bps.drop_last(), cps);
        let p = bps.last();
        if !has_param(cps, p.name@, p.location) {
            rest.push(p)
        } else {
            rest
        }
    }
}

/// A parameter of the base operation that the current one lacks.
#[derive(Debug, Clone)]
pub struct ParameterRemovedRule {
    pub path: String,
    pub method: String,
    pub parameter_name: String,
    /// The location's name, such as `Query`.
    pub parameter_in: String,
}

impl ParameterRemovedRule {
    pub open spec fn view_of(&self) -> ViolationView {
        parameter_removed_view(self.parameter_name@, self.parameter_in@)
    }
}

impl Rule for ParameterRemovedRule {
    open spec fn spec_name(&self) -> Seq<char> {
        self.view_of().name
    }

    open spec fn spec_description(&self) -> Seq<char> {
        self.view_of().description
    }

    open spec fn spec_change_level(&self) -> ChangeLevel {
        self.view_of().change_level
    }

    open spec fn spec_context(&self) -> AnchorView {
        self.view_of().context
    }

    open spec fn spec_category(&self) -> RuleCategory {
        self.view_of().category
    }

    fn name(&self) -> (r: &str) {
        "ParameterRemoved"
    }

    fn description(&self) -> (r: String) {
        cat3("Parameter Removed: ", self.parameter_name.as_str(), " (in: ").concat(
            self.parameter_in.as_str(),
        ).concat(")")
    }

    fn change_level(&self) -> (r: ChangeLevel) {
        ChangeLevel::Breaking
    }

    fn context(&self) -> (r: ChangeAnchor) {
        ChangeAnchor::Parameter(self.parameter_name.clone())
    }

    fn category(&self) -> (r: RuleCategory) {
        RuleCategory::Parameter
    }
}

impl RouteRule for ParameterRemovedRule {
    open spec fn spec_detect(
        path: Seq<char>,
        method: Seq<char>,
        base: Option<Operation>,
        current: Option<Operation>,
    ) -> Seq<ViolationView> {
        match (base, current) {
            (Some(b), Some(c)) => removed_params(b.parameters@, c.parameters@),
            _ => Seq::empty(),
        }
    }

    /// Fires for each parameter of the base operation whose (name, location)
    /// pair the current operation lacks.
    fn detect(
        path: &str,
        method: &str,
        base: Option<&Operation>,
        current: Option<&Operation>,
    ) -> (r: Vec<Self>)
        ensures
            match (base, current) {
                (Some(b), Some(c)) => forall|k: int|
                    #![trigger r@[k]]
                    0 <= k < r@.len() ==> {
                        &&& r@[k].path@ == path@
                        &&& r@[k].method@ == method@
                        &&& r@[k].parameter_name@ == removed_list(b.parameters@, c.parameters@)[k].name@
                        &&& r@[k].parameter_in@ == location_text(
                            removed_list(b.parameters@, c.parameters@)[k].location,
                        )
                    },
                _ => true,
            },
    {
        let mut r: Vec<Self> = Vec::new();
        if let (Some(b), Some(c)) = (base, current) {
            let mut i: usize = 0;
            while i < b.parameters.len()
                invariant
                    i <= b.parameters@.len(),
                    rule_views(r@) == removed_params(b.parameters@.take(i as int), c.parameters@),
                    r@.len() == removed_list(b.parameters@.take(i as int), c.parameters@).len(),
                    forall|k: int|
                        #![trigger r@[k]]
                        0 <= k < r@.len() ==> {
                            &&& r@[k].path@ == path@
                            &&& r@[k].method@ == method@
                            &&& r@[k].parameter_name@ == removed_list(b.parameters@.take(i as int), c.parameters@)[k].name@
                            &&& r@[k].parameter_in@ == location_text(removed_list(b.parameters@.take(i as int), c.parameters@)[k].location)
                        },

                decreases b.parameters.len() - i,
            {
                assert(b.parameters@.take(i + 1).drop_last() =~= b.parameters@.take(i as int));
                let p = &b.parameters[i];
                if !has_param_of(&c.parameters, &p.name, p.location) {
                    let ghost before = r@;
                    r.push(
                        ParameterRemovedRule {
                            path: String::from_str(path),
                            method: String::from_str(method),
                            parameter_name: p.name.clone(),
                            parameter_in: String::from_str(location_text_of(p.location)),
                        },
                    );
                    assert(rule_views(r@) =~= rule_views(before).push(
                        parameter_removed_view(p.name@, location_text(p.location)),
                    ));
                    assert(removed_list(b.parameters@.take(i + 1), c.parameters@) == removed_list(b.parameters@.take(i as int), c.parameters@).push(*p));
                    assert forall|k: int| 0 <= k < r@.len() implies {
                        &&& r@[k].path@ == path@
                        &&& r@[k].method@ == method@
                        &&& r@[k].parameter_name@ == removed_list(b.parameters@.take(i + 1), c.parameters@)[k].name@
                        &&& r@[k].parameter_in@ == location_text(removed_list(b.parameters@.take(i + 1), c.parameters@)[k].location)
                    } by {
                        if k < before.len() {
                            assert(r@[k] == before[k]);
                        }
                    }

                }
                i += 1;
            }
            assert(b.parameters@.take(b.parameters@.len() as int) =~= b.parameters@);
            return r;
        }
        assert(rule_views(r@) =~= Seq::empty());
        r
    }
}

// ---------------------------------------------------------------------------
// Response status codes
// ---------------------------------------------------------------------------

/// The status codes of a list of responses.
pub open spec fn status_codes(rs: Seq<ResponseEntry>) -> Seq<Seq<char>> {
    rs.map_values(|r: ResponseEntry| r.status_code@)
}

fn has_status(rs: &Vec<ResponseEntry>, code: &String) -> (r: bool)
    ensures
        r == status_codes(rs@).contains(code@),
{
    let mut i: usize = 0;
    while i < rs.len()
        invariant
            i <= rs@.len(),
            forall|j: int| 0 <= j < i ==> rs@[j].status_code@ != code@,
        decreases rs.len() - i,
    {
        if rs[i].status_code == *code {
            assert(status_codes(rs@)[i as int] == code@);
            return true;
        }
        i += 1;
    }
    assert forall|j: int| 0 <= j < status_codes(rs@).len() implies status_codes(rs@)[j]
        != code@ by {
        assert(status_codes(rs@)[j] == rs@[j].status_code@);
    }
    false
}

/// The status codes of `rs` that `others` lacks, in order.
pub open spec fn missing_statuses(rs: Seq<ResponseEntry>, others: Seq<ResponseEntry>) -> Seq<
    Seq<char>,
>
    decreases rs.len(),
{
    if rs.len() == 0 {
        Seq::empty()
    } else {
        let rest = missing_statuses(rs.drop_last(), others);
        let code = rs.last().status_code@;
        if !status_codes(others).contains(code) {
            rest.push(code)
        } else {
            rest
        }
    }
}

/// The statuses of `rs` that `others` lacks, as findings of the added rule
/// or of the removed rule.
pub open spec fn statuses_not_in(
    rs: Seq<ResponseEntry>,
    others: Seq<ResponseEntry>,
    added: bool,
) -> Seq<ViolationView>
    decreases rs.len(),
{
    if rs.len() == 0 {
        Seq::empty()
    } else {
        let rest = statuses_not_in(rs.drop_last(), others, added);
        let code = rs.last().status_code@;
        if !status_codes(others).contains(code) {
            rest.push(
                if added {
                    status_added_view(code)
                } else {
                    status_removed_view(code)
                },
            )
        } else {
            rest
        }
    }
}

/// The findings of the statuses of `rs` that `others` lacks.
fn statuses_not_in_of(rs: &Vec<ResponseEntry>, others: &Vec<ResponseEntry>, added: bool) -> (r: Vec<
    String,
>)
    ensures
        r@.len() == statuses_not_in(rs@, others@, added).len(),
        crate::model::string_views(r@) == missing_statuses(rs@, others@),
        forall|i: int|
            0 <= i < r@.len() ==> (if added {
                status_added_view(r@[i]@)
            } else {
                status_removed_view(r@[i]@)
            }) == #[trigger] statuses_not_in(rs@, others@, added)[i],
{
    let mut out: Vec<String> = Vec::new();
    let mut i: usize = 0;
    while i < rs.len()
        invariant
            i <= rs@.len(),
            out@.len() == statuses_not_in(rs@.take(i as int), others@, added).len(),
            crate::model::string_views(out@) == missing_statuses(rs@.take(i as int), others@),
            forall|j: int|
                0 <= j < out@.len() ==> (if added {
                    status_added_view(out@[j]@)
                } else {
                    status_removed_view(out@[j]@)
                }) == #[trigger] statuses_not_in(rs@.take(i as int), others@, added)[j],
        decreases rs.len() - i,
    {
        assert(rs@.take(i + 1).drop_last() =~= rs@.take(i as int));
        if !has_status(others, &rs[i].status_code) {
            let ghost before = out@;
            out.push(rs[i].status_code.clone());
            assert(crate::model::string_views(out@) =~= crate::model::string_views(before).push(
                rs@[i as int].status_code@,
            ));
        }
        i += 1;
    }
    assert(rs@.take(rs@.len() as int) =~= rs@);
    out
}

pub open spec fn status_added_view(
    code: Seq<char>,
) -> ViolationView {
    ViolationView {
        name: "ResponseStatusAdded"@,
        description: "Response Status Added: "@ + code,
        change_level: ChangeLevel::Change,
        context: AnchorView::ResponseStatus(code),
        category: RuleCategory::Response,
    }
}

pub open spec fn status_removed_view(
    code: Seq<char>,
) -> ViolationView {
    ViolationView {
        name: "ResponseStatusRemoved"@,
        description: "Response Status Removed: "@ + code,
        change_level: ChangeLevel::Warning,
        context: AnchorView::ResponseStatus(code),
        category: RuleCategory::Response,
    }
}

/// A status code that only the current operation answers with.
#[derive(Debug, Clone)]
pub struct ResponseStatusAddedRule {
    pub path: String,
    pub method: String,
    pub status_code: String,
}

impl ResponseStatusAddedRule {
    pub open spec fn view_of(&self) -> ViolationView {
        status_added_view(self.status_code@)
    }
}

impl Rule for ResponseStatusAddedRule {
    open spec fn spec_name(&self) -> Seq<char> {
        self.view_of().name
    }

    open spec fn spec_description(&self) -> Seq<char> {
        self.view_of().description
    }

    open spec fn spec_change_level(&self) -> ChangeLevel {
        self.view_of().change_level
    }

    open spec fn spec_context(&self) -> AnchorView {
        self.view_of().context
    }

    open spec fn spec_category(&self) -> RuleCategory {
        self.view_of().category
    }

    fn name(&self) -> (r: &str) {
        "ResponseStatusAdded"
    }

    fn description(&self) -> (r: String) {
        cat("Response Status Added: ", self.status_code.as_str())
    }

    fn change_level(&self) -> (r: ChangeLevel) {
        ChangeLevel::Change
    }

    fn context(&self) -> (r: ChangeAnchor) {
        ChangeAnchor::ResponseStatus(self.status_code.clone())
    }

    fn category(&self) -> (r: RuleCategory) {
        RuleCategory::Response
    }
}

impl RouteRule for ResponseStatusAddedRule {
    open spec fn spec_detect(
        path: Seq<char>,
        method: Seq<char>,
        base: Option<Operation>,
        current: Option<Operation>,
    ) -> Seq<ViolationView> {
        match (base, current) {
            (Some(b), Some(c)) => match (b.responses, c.responses) {
                (Some(br), Some(cr)) => statuses_not_in(cr@, br@, true),
                _ => Seq::empty(),
            },
            _ => Seq::empty(),
        }
    }

    /// Fires for each status code of the current operation that the other
    /// lacks, when both operations list their responses.
    fn detect(
        path: &str,
        method: &str,
        base: Option<&Operation>,
        current: Option<&Operation>,
    ) -> (r: Vec<Self>)
        ensures
            match (base, current) {
                (Some(b), Some(c)) => forall|k: int|
                    #![trigger r@[k]]
                    0 <= k < r@.len() ==> {
                        &&& r@[k].path@ == path@
                        &&& r@[k].method@ == method@
                        &&& match (b.responses, c.responses) {
                            (Some(br), Some(cr)) => r@[k].status_code@ == missing_statuses(
                                cr@,
                                br@,
                            )[k],
                            _ => true,
                        }
                    },
                _ => true,
            },
    {
        let mut r: Vec<Self> = Vec::new();
        if let (Some(b), Some(c)) = (base, current) {
            if let (Some(br), Some(cr)) = (&b.responses, &c.responses) {
                let codes = statuses_not_in_of(cr, br, true);
                let ghost expected = statuses_not_in(cr@, br@, true);
                let mut i: usize = 0;
                while i < codes.len()
                    invariant
                        i <= codes@.len(),
                        codes@.len() == expected.len(),
                        forall|j: int|
                            0 <= j < codes@.len() ==> status_added_view(codes@[j]@) == #[trigger] expected[j],
                        rule_views(r@) == expected.take(i as int),
                        r@.len() == i,
                        forall|k: int|
                            #![trigger r@[k]]
                            0 <= k < i ==> {
                                &&& r@[k].path@ == path@
                                &&& r@[k].method@ == method@
                                &&& r@[k].status_code@ == codes@[k]@
                            },
                    decreases codes.len() - i,
                {
                    let ghost before = r@;
                    r.push(
                        ResponseStatusAddedRule {
                            path: String::from_str(path),
                            method: String::from_str(method),
                            status_code: codes[i].clone(),
                        },
                    );
                    assert(expected.take(i + 1) =~= expected.take(i as int).push(expected[i as int]));
                    assert forall|k: int| 0 <= k <= i implies {
                        &&& r@[k].path@ == path@
                        &&& r@[k].method@ == method@
                        &&& r@[k].status_code@ == codes@[k]@
                    } by {
                        if k < i {
                            assert(r@[k] == before[k]);
                        }
                    }
                    assert(rule_views(r@) =~= rule_views(before).push(status_added_view(codes@[i as int]@)));
                    i += 1;
                }
                assert(expected.take(codes@.len() as int) =~= expected);
                assert(forall|k: int| 0 <= k < codes@.len() ==> crate::model::string_views(codes@)[k] == codes@[k]@);
                return r;
            }
        }
        assert(rule_views(r@) =~= Seq::empty());
        r
    }
}

/// A status code that only the base operation answered with.
#[derive(Debug, Clone)]
pub struct ResponseStatusRemovedRule {
    pub path: String,
    pub method: String,
    pub status_code: String,
}

impl ResponseStatusRemovedRule {
    pub open spec fn view_of(&self) -> ViolationView {
        status_removed_view(self.status_code@)
    }
}

impl Rule for ResponseStatusRemovedRule {
    open spec fn spec_name(&self) -> Seq<char> {
        self.view_of().name
    }

    open spec fn spec_description(&self) -> Seq<char> {
        self.view_of().description
    }

    open spec fn spec_change_level(&self) -> ChangeLevel {
        self.view_of().change_level
    }

    open spec fn spec_context(&self) -> AnchorView {
        self.view_of().context
    }

    open spec fn spec_category(&self) -> RuleCategory {
        self.view_of().category
    }

    fn name(&self) -> (r: &str) {
        "ResponseStatusRemoved"
    }

    fn description(&self) -> (r: String) {
        cat("Response Status Removed: ", self.status_code.as_str())
    }

    fn change_level(&self) -> (r: ChangeLevel) {
        ChangeLevel::Warning
    }

    fn context(&self) -> (r: ChangeAnchor) {
        ChangeAnchor::ResponseStatus(self.status_code.clone())
    }

    fn category(&self) -> (r: RuleCategory) {
        RuleCategory::Response
    }
}

impl RouteRule for ResponseStatusRemovedRule {
    open spec fn spec_detect(
        path: Seq<char>,
        method: Seq<char>,
        base: Option<Operation>,
        current: Option<Operation>,
    ) -> Seq<ViolationView> {
        match (base, current) {
            (Some(b), Some(c)) => match (b.responses, c.responses) {
                (Some(br), Some(cr)) => statuses_not_in(br@, cr@, false),
                _ => Seq::empty(),
            },
            _ => Seq::empty(),
        }
    }

    /// Fires for each status code of the base operation that the other
    /// lacks, when both operations list their responses.
    fn detect(
        path: &str,
        method: &str,
        base: Option<&Operation>,
        current: Option<&Operation>,
    ) -> (r: Vec<Self>)
        ensures
            match (base, current) {
                (Some(b), Some(c)) => forall|k: int|
                    #![trigger r@[k]]
                    0 <= k < r@.len() ==> {
                        &&& r@[k].path@ == path@
                        &&& r@[k].method@ == method@
                        &&& match (b.responses, c.responses) {
                            (Some(br), Some(cr)) => r@[k].status_code@ == missing_statuses(
                                br@,
                                cr@,
                            )[k],
                            _ => true,
                        }
                    },
                _ => true,
            },
    {
        let mut r: Vec<Self> = Vec::new();
        if let (Some(b), Some(c)) = (base, current) {
            if let (Some(br), Some(cr)) = (&b.responses, &c.responses) {
                let codes = statuses_not_in_of(br, cr, false);
                let ghost expected = statuses_not_in(br@, cr@, false);
                let mut i: usize = 0;
                while i < codes.len()
                    invariant
                        i <= codes@.len(),
                        codes@.len() == expected.len(),
                        forall|j: int|
                            0 <= j < codes@.len() ==> status_removed_view(codes@[j]@) == #[trigger] expected[j],
                        rule_views(r@) == expected.take(i as int),
                        r@.len() == i,
                        forall|k: int|
                            #![trigger r@[k]]
                            0 <= k < i ==> {
                                &&& r@[k].path@ == path@
                                &&& r@[k].method@ == method@
                                &&& r@[k].status_code@ == codes@[k]@
                            },
                    decreases codes.len() - i,
                {
                    let ghost before = r@;
                    r.push(
                        ResponseStatusRemovedRule {
                            path: String::from_str(path),
                            method: String::from_str(method),
                            status_code: codes[i].clone(),
                        },
                    );
                    assert(expected.take(i + 1) =~= expected.take(i as int).push(expected[i as int]));
                    assert forall|k: int| 0 <= k <= i implies {
                        &&& r@[k].path@ == path@
                        &&& r@[k].method@ == method@
                        &&& r@[k].status_code@ == codes@[k]@
                    } by {
                        if k < i {
                            assert(r@[k] == before[k]);
                        }
                    }
                    assert(rule_views(r@) =~= rule_views(before).push(status_removed_view(codes@[i as int]@)));
                    i += 1;
                }
                assert(expected.take(codes@.len() as int) =~= expected);
                assert(forall|k: int| 0 <= k < codes@.len() ==> crate::model::string_views(codes@)[k] == codes@[k]@);
                return r;
            }
        }
        assert(rule_views(r@) =~= Seq::empty());
        r
    }
}

// ---------------------------------------------------------------------------
// Named body schemas
// ---------------------------------------------------------------------------

/// The schema name of a body entry whose schema is a named pointer.
pub open spec fn media_name(m: MediaEntry) -> Option<Seq<char>> {
    match m.schema {
        Some(SchemaRef::Pointer(p)) => pointer_name(p@),
        _ => None,
    }
}

/// (content type, schema name) for each entry whose schema is a named pointer.
pub open spec fn media_refs(ms: Seq<MediaEntry>) -> Seq<(Seq<char>, Seq<char>)>
    decreases ms.len(),
{
    if ms.len() == 0 {
        Seq::empty()
    } else {
        let rest = media_refs(ms.drop_last());
        match media_name(ms.last()) {
            Some(n) => rest.push((ms.last().content_type@, n)),
            None => rest,
        }
    }
}

/// The named schemas of an operation's request body, by content type.
pub open spec fn request_refs(op: Operation) -> Seq<(Seq<char>, Seq<char>)> {
    match op.request_body {
        Some(ms) => media_refs(ms@),
        None => Seq::empty(),
    }
}

/// (status code, content type, schema name) for each named schema of `rs`.
pub open spec fn response_refs_of(rs: Seq<ResponseEntry>) -> Seq<(Seq<char>, Seq<char>, Seq<char>)>
    decreases rs.len(),
{
    if rs.len() == 0 {
        Seq::empty()
    } else {
        let code = rs.last().status_code@;
        response_refs_of(rs.drop_last()) + match rs.last().content {
            Some(ms) => media_refs(ms@).map_values(
                |e: (Seq<char>, Seq<char>)| (code, e.0, e.1),
            ),
            None => Seq::empty(),
        }
    }
}

/// The named schemas of an operation's responses.
pub open spec fn response_refs(op: Operation) -> Seq<(Seq<char>, Seq<char>, Seq<char>)> {
    match op.responses {
        Some(rs) => response_refs_of(rs@),
        None => Seq::empty(),
    }
}

pub open spec fn pair_views(s: Seq<(String, String)>) -> Seq<(Seq<char>, Seq<char>)> {
    s.map_values(|e: (String, String)| (e.0@, e.1@))
}

pub open spec fn triple_views(s: Seq<(String, String, String)>) -> Seq<
    (Seq<char>, Seq<char>, Seq<char>),
> {
    s.map_values(|e: (String, String, String)| (e.0@, e.1@, e.2@))
}

/// The schema name a reference names, if it is a pointer to a named schema.
pub fn extract_schema_name(schema: &SchemaRef) -> (r: Option<String>)
    ensures
        match schema {
            SchemaRef::Pointer(p) => match r {
                Some(n) => pointer_name(p@) == Some(n@),
                None => pointer_name(p@) is None,
            },
            SchemaRef::Inline(_) => r is None,
        },
{
    match schema {
        SchemaRef::Pointer(p) => schema_name_of_pointer(p.as_str()),
        SchemaRef::Inline(_) => None,
    }
}

fn media_refs_of(ms: &Vec<MediaEntry>) -> (r: Vec<(String, String)>)
    ensures
        pair_views(r@) == media_refs(ms@),
{
    let mut out: Vec<(String, String)> = Vec::new();
    let mut i: usize = 0;
    while i < ms.len()
        invariant
            i <= ms@.len(),
            pair_views(out@) == media_refs(ms@.take(i as int)),
        decreases ms.len() - i,
    {
        assert(ms@.take(i + 1).drop_last() =~= ms@.take(i as int));
        if let Some(schema) = &ms[i].schema {
            if let Some(name) = extract_schema_name(schema) {
                let ghost before = out@;
                out.push((ms[i].content_type.clone(), name));
                assert(pair_views(out@) =~= pair_views(before).push(
                    (ms@[i as int].content_type@, out@.last().1@),
                ));
            }
        }
        i += 1;
    }
    assert(ms@.take(ms@.len() as int) =~= ms@);
    out
}

/// The named schemas of an operation's request body, by content type.
pub fn request_refs_of(op: &Operation) -> (r: Vec<(String, String)>)
    ensures
        pair_views(r@) == request_refs(*op),
{
    match &op.request_body {
        Some(ms) => media_refs_of(ms),
        None => {
            let r: Vec<(String, String)> = Vec::new();
            assert(pair_views(r@) =~= Seq::empty());
            r
        },
    }
}

/// The named schemas of an operation's responses, with their status codes.
pub fn response_refs_of_op(op: &Operation) -> (r: Vec<(String, String, String)>)
    ensures
        triple_views(r@) == response_refs(*op),
{
    let mut out: Vec<(String, String, String)> = Vec::new();
    match &op.responses {
        Some(rs) => {
            let mut i: usize = 0;
            while i < rs.len()
                invariant
                    i <= rs@.len(),
                    triple_views(out@) == response_refs_of(rs@.take(i as int)),
                decreases rs.len() - i,
            {
                assert(rs@.take(i + 1).drop_last() =~= rs@.take(i as int));
                if let Some(ms) = &rs[i].content {
                    let refs = media_refs_of(ms);
                    let ghost code = rs@[i as int].status_code@;
                    let ghost start = out@;
                    let mut j: usize = 0;
                    while j < refs.len()
                        invariant
                            j <= refs@.len(),
                            i < rs@.len(),
                            code == rs@[i as int].status_code@,
                            triple_views(out@) == triple_views(start) + pair_views(refs@).take(
                                j as int,
                            ).map_values(|e: (Seq<char>, Seq<char>)| (code, e.0, e.1)),
                        decreases refs.len() - j,
                    {
                        let ghost before = out@;
                        out.push((rs[i].status_code.clone(), refs[j].0.clone(), refs[j].1.clone()));
                        assert(triple_views(out@) =~= triple_views(before).push(
                            (code, refs@[j as int].0@, refs@[j as int].1@),
                        ));
                        assert(pair_views(refs@).take(j + 1) =~= pair_views(refs@).take(
                            j as int,
                        ).push((refs@[j as int].0@, refs@[j as int].1@)));
                        j += 1;
                    }
                    assert(pair_views(refs@).take(refs@.len() as int) =~= pair_views(refs@));
                } else {
                    assert(triple_views(out@) =~= triple_views(out@) + Seq::empty());
                }
                i += 1;
            }
            assert(rs@.take(rs@.len() as int) =~= rs@);
        },
        None => {
            assert(triple_views(out@) =~= Seq::empty());
        },
    }
    out
}

/// The schema name bound to `ct` in `s`: the first entry for it.
pub open spec fn find_content(s: Seq<(Seq<char>, Seq<char>)>, ct: Seq<char>) -> Option<Seq<char>>
    decreases s.len(),
{
    if s.len() == 0 {
        None
    } else if s[0].0 == ct {
        Some(s[0].1)
    } else {
        find_content(s.skip(1), ct)
    }
}

fn find_content_of<'a>(s: &'a Vec<(String, String)>, ct: &String) -> (r: Option<&'a String>)
    ensures
        find_content(pair_views(s@), ct@) == match r {
            Some(n) => Some(n@),
            None => None,
        },
{
    let ghost v = pair_views(s@);
    let mut i: usize = 0;
    assert(v.skip(0) =~= v);
    while i < s.len()
        invariant
            i <= s@.len(),
            v == pair_views(s@),
            find_content(v, ct@) == find_content(v.skip(i as int), ct@),
        decreases s.len() - i,
    {
        assert(v.skip(i as int).skip(1) =~= v.skip(i + 1));
        if s[i].0 == *ct {
            return Some(&s[i].1);
        }
        i += 1;
    }
    None
}

/// The schema name bound to (`code`, `ct`) in `s`: the first entry for it.
pub open spec fn find_status_content(
    s: Seq<(Seq<char>, Seq<char>, Seq<char>)>,
    code: Seq<char>,
    ct: Seq<char>,
) -> Option<Seq<char>>
    decreases s.len(),
{
    if s.len() == 0 {
        None
    } else if s[0].0 == code && s[0].1 == ct {
        Some(s[0].2)
    } else {
        find_status_content(s.skip(1), code, ct)
    }
}

fn find_status_content_of<'a>(
    s: &'a Vec<(String, String, String)>,
    code: &String,
    ct: &String,
) -> (r: Option<&'a String>)
    ensures
        find_status_content(triple_views(s@), code@, ct@) == match r {
            Some(n) => Some(n@),
            None => None,
        },
{
    let ghost v = triple_views(s@);
    let mut i: usize = 0;
    assert(v.skip(0) =~= v);
    while i < s.len()
        invariant
            i <= s@.len(),
            v == triple_views(s@),
            find_status_content(v, code@, ct@) == find_status_content(v.skip(i as int), code@, ct@),
        decreases s.len() - i,
    {
        assert(v.skip(i as int).skip(1) =~= v.skip(i + 1));
        if s[i].0 == *code && s[i].1 == *ct {
            return Some(&s[i].2);
        }
        i += 1;
    }
    None
}

pub open spec fn request_schema_changed_view(
    schema: Seq<char>,
    content_type: Seq<char>,
) -> ViolationView {
    ViolationView {
        name: "RequestSchemaChanged"@,
        description: "Request schema '"@ + schema + "' changed"@,
        change_level: ChangeLevel::Breaking,
        context: AnchorView::Route,
        category: RuleCategory::RequestBody,
    }
}

/// One finding for each content type of `crefs` that `brefs` binds to
/// another schema name.
pub open spec fn request_schema_changes(
    brefs: Seq<(Seq<char>, Seq<char>)>,
    crefs: Seq<(Seq<char>, Seq<char>)>,
) -> Seq<ViolationView>
    decreases crefs.len(),
{
    if crefs.len() == 0 {
        Seq::empty()
    } else {
        let rest = request_schema_changes(brefs, crefs.drop_last());
        let e = crefs.last();
        match find_content(brefs, e.0) {
            Some(bn) => if bn != e.1 {
                rest.push(request_schema_changed_view(e.1, e.0))
            } else {
                rest
            },
            None => rest,
        }
    }
}

/// (content type, schema name) for each content type of `crefs` that
/// `brefs` binds to another schema name.
pub open spec fn request_change_keys(
    brefs: Seq<(Seq<char>, Seq<char>)>,
    crefs: Seq<(Seq<char>, Seq<char>)>,
) -> Seq<(Seq<char>, Seq<char>)>
    decreases crefs.len(),
{
    if crefs.len() == 0 {
        Seq::empty()
    } else {
        let rest = request_change_keys(brefs, crefs.drop_last());
        let e = crefs.last();
        match find_content(brefs, e.0) {
            Some(bn) => if bn != e.1 {
                rest.push(e)
            } else {
                rest
            },
            None => rest,
        }
    }
}

/// The request body binds a content type to another named schema.
#[derive(Debug, Clone)]
pub struct RequestSchemaChangedRule {
    pub path: String,
    pub method: String,
    pub schema_name: String,
    pub content_type: String,
}

impl RequestSchemaChangedRule {
    pub open spec fn view_of(&self) -> ViolationView {
        request_schema_changed_view(self.schema_name@, self.content_type@)
    }
}

impl Rule for RequestSchemaChangedRule {
    open spec fn spec_name(&self) -> Seq<char> {
        self.view_of().name
    }

    open spec fn spec_description(&self) -> Seq<char> {
        self.view_of().description
    }

    open spec fn spec_change_level(&self) -> ChangeLevel {
        self.view_of().change_level
    }

    open spec fn spec_context(&self) -> AnchorView {
        self.view_of().context
    }

    open spec fn spec_category(&self) -> RuleCategory {
        self.view_of().category
    }

    fn name(&self) -> (r: &str) {
        "RequestSchemaChanged"
    }

    fn description(&self) -> (r: String) {
        cat3("Request schema '", self.schema_name.as_str(), "' changed")
    }

    fn change_level(&self) -> (r: ChangeLevel) {
        ChangeLevel::Breaking
    }

    fn context(&self) -> (r: ChangeAnchor) {
        ChangeAnchor::Route
    }

    fn category(&self) -> (r: RuleCategory) {
        RuleCategory::RequestBody
    }
}

impl RouteRule for RequestSchemaChangedRule {
    open spec fn spec_detect(
        path: Seq<char>,
        method: Seq<char>,
        base: Option<Operation>,
        current: Option<Operation>,
    ) -> Seq<ViolationView> {
        match (base, current) {
            (Some(b), Some(c)) => request_schema_changes(request_refs(b), request_refs(c)),
            _ => Seq::empty(),
        }
    }

    /// Fires for each content type of the current request body that the base
    /// body binds to a different schema name.
    fn detect(
        path: &str,
        method: &str,
        base: Option<&Operation>,
        current: Option<&Operation>,
    ) -> (r: Vec<Self>)
        ensures
            match (base, current) {
                (Some(b), Some(c)) => forall|k: int|
                    #![trigger r@[k]]
                    0 <= k < r@.len() ==> {
                        &&& r@[k].path@ == path@
                        &&& r@[k].method@ == method@
                        &&& r@[k].content_type@ == request_change_keys(
                            request_refs(*b),
                            request_refs(*c),
                        )[k].0
                        &&& r@[k].schema_name@ == request_change_keys(
                            request_refs(*b),
                            request_refs(*c),
                        )[k].1
                    },
                _ => true,
            },
    {
        let mut r: Vec<Self> = Vec::new();
        if let (Some(b), Some(c)) = (base, current) {
            let brefs = request_refs_of(b);
            let crefs = request_refs_of(c);
            let ghost cv = pair_views(crefs@);
            let mut i: usize = 0;
            while i < crefs.len()
                invariant
                    i <= crefs@.len(),
                    cv == pair_views(crefs@),
                    pair_views(brefs@) == request_refs(*b),
                    rule_views(r@) == request_schema_changes(request_refs(*b), cv.take(i as int)),
                    r@.len() == request_change_keys(request_refs(*b), cv.take(i as int)).len(),
                    forall|k: int|
                        #![trigger r@[k]]
                        0 <= k < r@.len() ==> {
                            &&& r@[k].path@ == path@
                            &&& r@[k].method@ == method@
                            &&& r@[k].content_type@ == request_change_keys(request_refs(*b), cv.take(i as int))[k].0
                            &&& r@[k].schema_name@ == request_change_keys(request_refs(*b), cv.take(i as int))[k].1
                        },

                decreases crefs.len() - i,
            {
                assert(cv.take(i + 1).drop_last() =~= cv.take(i as int));
                assert(cv.take(i + 1).last() == (crefs@[i as int].0@, crefs@[i as int].1@));
                match find_content_of(&brefs, &crefs[i].0) {
                    Some(bn) => {
                        if *bn != crefs[i].1 {
                            let ghost before = r@;
                            r.push(
                                RequestSchemaChangedRule {
                                    path: String::from_str(path),
                                    method: String::from_str(method),
                                    schema_name: crefs[i].1.clone(),
                                    content_type: crefs[i].0.clone(),
                                },
                            );
                            assert(rule_views(r@) =~= rule_views(before).push(
                                request_schema_changed_view(crefs@[i as int].1@, crefs@[i as int].0@),
                            ));
                            assert(request_change_keys(request_refs(*b), cv.take(i + 1)) == request_change_keys(request_refs(*b), cv.take(i as int)).push(cv[i as int]));
                            assert forall|k: int| 0 <= k < r@.len() implies {
                                &&& r@[k].path@ == path@
                                &&& r@[k].method@ == method@
                                &&& r@[k].content_type@ == request_change_keys(request_refs(*b), cv.take(i + 1))[k].0
                                &&& r@[k].schema_name@ == request_change_keys(request_refs(*b), cv.take(i + 1))[k].1
                            } by {
                                if k < before.len() {
                                    assert(r@[k] == before[k]);
                                }
                            }

                        }
                    },
                    None => {},
                }
                i += 1;
            }
            assert(cv.take(crefs@.len() as int) =~= cv);
            return r;
        }
        assert(rule_views(r@) =~= Seq::empty());
        r
    }
}

pub open spec fn response_schema_changed_view(
    schema: Seq<char>,
    content_type: Seq<char>,
    status_code: Seq<char>,
) -> ViolationView {
    ViolationView {
        name: "ResponseSchemaChanged"@,
        description: "Response schema '"@ + schema + "' changed for status "@ + status_code,
        change_level: ChangeLevel::Breaking,
        context: AnchorView::ResponseStatus(status_code),
        category: RuleCategory::Response,
    }
}

/// One finding for each (status, content type) of `crefs` that `brefs` binds
/// to another schema name.
pub open spec fn response_schema_changes(
    brefs: Seq<(Seq<char>, Seq<char>, Seq<char>)>,
    crefs: Seq<(Seq<char>, Seq<char>, Seq<char>)>,
) -> Seq<ViolationView>
    decreases crefs.len(),
{
    if crefs.len() == 0 {
        Seq::empty()
    } else {
        let rest = response_schema_changes(brefs, crefs.drop_last());
        let e = crefs.last();
        match find_status_content(brefs, e.0, e.1) {
            Some(bn) => if bn != e.2 {
                rest.push(response_schema_changed_view(e.2, e.1, e.0))
            } else {
                rest
            },
            None => rest,
        }
    }
}

/// (status code, content type, schema name) for each entry of `crefs` that
/// `brefs` binds to another schema name.
pub open spec fn response_change_keys(
    brefs: Seq<(Seq<char>, Seq<char>, Seq<char>)>,
    crefs: Seq<(Seq<char>, Seq<char>, Seq<char>)>,
) -> Seq<(Seq<char>, Seq<char>, Seq<char>)>
    decreases crefs.len(),
{
    if crefs.len() == 0 {
        Seq::empty()
    } else {
        let rest = response_change_keys(brefs, crefs.drop_last());
        let e = crefs.last();
        match find_status_content(brefs, e.0, e.1) {
            Some(bn) => if bn != e.2 {
                rest.push(e)
            } else {
                rest
            },
            None => rest,
        }
    }
}

/// A response binds a (status, content type) to another named schema.
#[derive(Debug, Clone)]
pub struct ResponseSchemaChangedRule {
    pub path: String,
    pub method: String,
    pub schema_name: String,
    pub content_type: String,
    pub status_code: String,
}

impl ResponseSchemaChangedRule {
    pub open spec fn view_of(&self) -> ViolationView {
        response_schema_changed_view(self.schema_name@, self.content_type@, self.status_code@)
    }
}

impl Rule for ResponseSchemaChangedRule {
    open spec fn spec_name(&self) -> Seq<char> {
        self.view_of().name
    }

    open spec fn spec_description(&self) -> Seq<char> {
        self.view_of().description
    }

    open spec fn spec_change_level(&self) -> ChangeLevel {
        self.view_of().change_level
    }

    open spec fn spec_context(&self) -> AnchorView {
        self.view_of().context
    }

    open spec fn spec_category(&self) -> RuleCategory {
        self.view_of().category
    }

    fn name(&self) -> (r: &str) {
        "ResponseSchemaChanged"
    }

    fn description(&self) -> (r: String) {
        cat3("Response schema '", self.schema_name.as_str(), "' changed for status ").concat(
            self.status_code.as_str(),
        )
    }

    fn change_level(&self) -> (r: ChangeLevel) {
        ChangeLevel::Breaking
    }

    fn context(&self) -> (r: ChangeAnchor) {
        ChangeAnchor::ResponseStatus(self.status_code.clone())
    }

    fn category(&self) -> (r: RuleCategory) {
        RuleCategory::Response
    }
}

impl RouteRule for ResponseSchemaChangedRule {
    open spec fn spec_detect(
        path: Seq<char>,
        method: Seq<char>,
        base: Option<Operation>,
        current: Option<Operation>,
    ) -> Seq<ViolationView> {
        match (base, current) {
            (Some(b), Some(c)) => response_schema_changes(response_refs(b), response_refs(c)),
            _ => Seq::empty(),
        }
    }

    /// Fires for each (status, content type) of the current responses that
    /// the base responses bind to a different schema name.
    fn detect(
        path: &str,
        method: &str,
        base: Option<&Operation>,
        current: Option<&Operation>,
    ) -> (r: Vec<Self>)
        ensures
            match (base, current) {
                (Some(b), Some(c)) => forall|k: int|
                    #![trigger r@[k]]
                    0 <= k < r@.len() ==> {
                        &&& r@[k].path@ == path@
                        &&& r@[k].method@ == method@
                        &&& r@[k].status_code@ == response_change_keys(
                            response_refs(*b),
                            response_refs(*c),
                        )[k].0
                        &&& r@[k].content_type@ == response_change_keys(
                            response_refs(*b),
                            response_refs(*c),
                        )[k].1
                        &&& r@[k].schema_name@ == response_change_keys(
                            response_refs(*b),
                            response_refs(*c),
                        )[k].2
                    },
                _ => true,
            },
    {
        let mut r: Vec<Self> = Vec::new();
        if let (Some(b), Some(c)) = (base, current) {
            let brefs = response_refs_of_op(b);
            let crefs = response_refs_of_op(c);
            let ghost cv = triple_views(crefs@);
            let mut i: usize = 0;
            while i < crefs.len()
                invariant
                    i <= crefs@.len(),
                    cv == triple_views(crefs@),
                    triple_views(brefs@) == response_refs(*b),
                    rule_views(r@) == response_schema_changes(response_refs(*b), cv.take(i as int)),
                    r@.len() == response_change_keys(response_refs(*b), cv.take(i as int)).len(),
                    forall|k: int|
                        #![trigger r@[k]]
                        0 <= k < r@.len() ==> {
                            &&& r@[k].path@ == path@
                            &&& r@[k].method@ == method@
                            &&& r@[k].status_code@ == response_change_keys(response_refs(*b), cv.take(i as int))[k].0
                            &&& r@[k].content_type@ == response_change_keys(response_refs(*b), cv.take(i as int))[k].1
                            &&& r@[k].schema_name@ == response_change_keys(response_refs(*b), cv.take(i as int))[k].2
                        },

                decreases crefs.len() - i,
            {
                assert(cv.take(i + 1).drop_last() =~= cv.take(i as int));
                assert(cv.take(i + 1).last() == (
                    crefs@[i as int].0@,
                    crefs@[i as int].1@,
                    crefs@[i as int].2@,
                ));
                match find_status_content_of(&brefs, &crefs[i].0, &crefs[i].1) {
                    Some(bn) => {
                        if *bn != crefs[i].2 {
                            let ghost before = r@;
                            r.push(
                                ResponseSchemaChangedRule {
                                    path: String::from_str(path),
                                    method: String::from_str(method),
                                    schema_name: crefs[i].2.clone(),
                                    content_type: crefs[i].1.clone(),
                                    status_code: crefs[i].0.clone(),
                                },
                            );
                            assert(rule_views(r@) =~= rule_views(before).push(
                                response_schema_changed_view(
                                    crefs@[i as int].2@,
                                    crefs@[i as int].1@,
                                    crefs@[i as int].0@,
                                ),
                            ));
                            assert(response_change_keys(response_refs(*b), cv.take(i + 1)) == response_change_keys(response_refs(*b), cv.take(i as int)).push(cv[i as int]));
                            assert forall|k: int| 0 <= k < r@.len() implies {
                                &&& r@[k].path@ == path@
                                &&& r@[k].method@ == method@
                                &&& r@[k].status_code@ == response_change_keys(response_refs(*b), cv.take(i + 1))[k].0
                                &&& r@[k].content_type@ == response_change_keys(response_refs(*b), cv.take(i + 1))[k].1
                                &&& r@[k].schema_name@ == response_change_keys(response_refs(*b), cv.take(i + 1))[k].2
                            } by {
                                if k < before.len() {
                                    assert(r@[k] == before[k]);
                                }
                            }

                        }
                    },
                    None => {},
                }
                i += 1;
            }
            assert(cv.take(crefs@.len() as int) =~= cv);
            return r;
        }
        assert(rule_views(r@) =~= Seq::empty());
        r
    }
}

} // verus!
