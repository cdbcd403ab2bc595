//! Severity aggregation, change anchors, the rule interface and violations.
use vstd::prelude::*;

use crate::ChangeLevel;

pub mod route;
pub mod schema;

verus! {

/// True when some element of `levels` equals `l`.
pub open spec fn has_level(levels: Seq<ChangeLevel>, l: ChangeLevel) -> bool {
    exists|i: int| 0 <= i < levels.len() && levels[i] == l
}

/// The overall verdict of a list of severities: Breaking if any is Breaking,
/// else Warning if any is Warning, else Change (also for the empty list).
pub open spec fn aggregate(levels: Seq<ChangeLevel>) -> ChangeLevel {
    if has_level(levels, ChangeLevel::Breaking) {
        ChangeLevel::Breaking
    } else if has_level(levels, ChangeLevel::Warning) {
        ChangeLevel::Warning
    } else {
        ChangeLevel::Change
    }
}

/// Where in the structure a change was found.
#[derive(Debug, Clone, PartialEq, Eq)]
pub enum ChangeAnchor {
    /// The schema itself (added or removed).
    Schema,
    /// A dotted property path, such as `address.street`.
    Property(String),
    /// The type of the property at a path.
    PropertyType(String),
    /// The list of required properties.
    Required,
    /// The enumerated values at a path.
    EnumValues(String),
    /// The format at a path.
    Format(String),
    /// The nullable flag at a path.
    Nullable(String),
    /// The array items at a path.
    ArrayItems(String),
    /// The description at a path.
    Description(String),
    /// A whole route.
    Route,
    /// A named route parameter.
    Parameter(String),
    /// A response status code.
    ResponseStatus(String),
}

/// The mathematical value of a [`ChangeAnchor`].
pub enum AnchorView {
    Schema,
    Property(Seq<char>),
    PropertyType(Seq<char>),
    Required,
    EnumValues(Seq<char>),
    Format(Seq<char>),
    Nullable(Seq<char>),
    ArrayItems(Seq<char>),
    Description(Seq<char>),
    Route,
    Parameter(Seq<char>),
    ResponseStatus(Seq<char>),
}

impl View for ChangeAnchor {
    type V = AnchorView;

    open spec fn view(&self) -> AnchorView {
        match self {
            ChangeAnchor::Schema => AnchorView::Schema,
            ChangeAnchor::Property(p) => AnchorView::Property(p@),
            ChangeAnchor::PropertyType(p) => AnchorView::PropertyType(p@),
            ChangeAnchor::Required => AnchorView::Required,
            ChangeAnchor::EnumValues(p) => AnchorView::EnumValues(p@),
            ChangeAnchor::Format(p) => AnchorView::Format(p@),
            ChangeAnchor::Nullable(p) => AnchorView::Nullable(p@),
            ChangeAnchor::ArrayItems(p) => AnchorView::ArrayItems(p@),
            ChangeAnchor::Description(p) => AnchorView::Description(p@),
            ChangeAnchor::Route => AnchorView::Route,
            ChangeAnchor::Parameter(p) => AnchorView::Parameter(p@),
            ChangeAnchor::ResponseStatus(p) => AnchorView::ResponseStatus(p@),
        }
    }
}

impl AnchorView {
    /// The property path of a property-related anchor.
    pub open spec fn property_path(self) -> Option<Seq<char>> {
        match self {
            AnchorView::Property(p) => Some(p),
            AnchorView::PropertyType(p) => Some(p),
            AnchorView::EnumValues(p) => Some(p),
            AnchorView::Format(p) => Some(p),
            AnchorView::Nullable(p) => Some(p),
            AnchorView::ArrayItems(p) => Some(p),
            AnchorView::Description(p) => Some(p),
            _ => None,
        }
    }
}

impl ChangeAnchor {
    /// The property path, if this anchor is property-related.
    pub fn property_path(&self) -> (r: Option<&str>)
        ensures
            r matches Some(p) ==> self@.property_path() == Some(p@),
            r is None ==> self@.property_path() is None,
    {
        match self {
            ChangeAnchor::Property(path)
            | ChangeAnchor::PropertyType(path)
            | ChangeAnchor::EnumValues(path)
            | ChangeAnchor::Format(path)
            | ChangeAnchor::Nullable(path)
            | ChangeAnchor::ArrayItems(path)
            | ChangeAnchor::Description(path) => Some(path.as_str()),
            _ => None,
        }
    }

    /// Whether the anchor is the schema itself or its required list.
    pub fn is_schema_level(&self) -> (r: bool)
        ensures
            r == (self@ is Schema || self@ is Required),
    {
        matches!(self, ChangeAnchor::Schema | ChangeAnchor::Required)
    }

    /// Whether the anchor names a property path.
    pub fn is_property_level(&self) -> (r: bool)
        ensures
            r == self@.property_path() is Some,
    {
        self.property_path().is_some()
    }

    /// A copy with the same value.
    pub fn duplicate(&self) -> (r: ChangeAnchor)
        ensures
            r@ == self@,
    {
        match self {
            ChangeAnchor::Schema => ChangeAnchor::Schema,
            ChangeAnchor::Property(p) => ChangeAnchor::Property(p.clone()),
            ChangeAnchor::PropertyType(p) => ChangeAnchor::PropertyType(p.clone()),
            ChangeAnchor::Required => ChangeAnchor::Required,
            ChangeAnchor::EnumValues(p) => ChangeAnchor::EnumValues(p.clone()),
            ChangeAnchor::Format(p) => ChangeAnchor::Format(p.clone()),
            ChangeAnchor::Nullable(p) => ChangeAnchor::Nullable(p.clone()),
            ChangeAnchor::ArrayItems(p) => ChangeAnchor::ArrayItems(p.clone()),
            ChangeAnchor::Description(p) => ChangeAnchor::Description(p.clone()),
            ChangeAnchor::Route => ChangeAnchor::Route,
            ChangeAnchor::Parameter(p) => ChangeAnchor::Parameter(p.clone()),
            ChangeAnchor::ResponseStatus(p) => ChangeAnchor::ResponseStatus(p.clone()),
        }
    }
}

/// The aspect of the interface a rule looks at.
#[derive(Debug, Clone, Copy, PartialEq, Eq, Structural)]
pub enum RuleCategory {
    Schema,
    Endpoint,
    Parameter,
    Response,
    RequestBody,
}

/// What a violation says, as mathematical values.
pub struct ViolationView {
    pub name: Seq<char>,
    pub description: Seq<char>,
    pub change_level: ChangeLevel,
    pub context: AnchorView,
    pub category: RuleCategory,
}

/// A comparison check that fired. Each concrete rule states its name, its
/// message, its severity, where it applies and its category.
pub trait Rule: Sized {
    spec fn spec_name(&self) -> Seq<char>;

    spec fn spec_description(&self) -> Seq<char>;

    spec fn spec_change_level(&self) -> ChangeLevel;

    spec fn spec_context(&self) -> AnchorView;

    spec fn spec_category(&self) -> RuleCategory;

    /// The name of the rule, such as `SchemaRemoved`.
    fn name(&self) -> (r: &str)
        ensures
            r@ == self.spec_name(),
    ;

    /// The message that describes what was found.
    fn description(&self) -> (r: String)
        ensures
            r@ == self.spec_description(),
    ;

    /// The severity of what was found.
    fn change_level(&self) -> (r: ChangeLevel)
        ensures
            r == self.spec_change_level(),
    ;

    /// Where in the structure the change is.
    fn context(&self) -> (r: ChangeAnchor)
        ensures
            r@ == self.spec_context(),
    ;

    /// The aspect of the interface the rule looks at.
    fn category(&self) -> (r: RuleCategory)
        ensures
            r == self.spec_category(),
    ;
}

/// Everything a rule states, gathered in one value.
pub open spec fn rule_view<R: Rule>(r: R) -> ViolationView {
    ViolationView {
        name: r.spec_name(),
        description: r.spec_description(),
        change_level: r.spec_change_level(),
        context: r.spec_context(),
        category: r.spec_category(),
    }
}

/// The views of a list of rules.
pub open spec fn rule_views<R: Rule>(s: Seq<R>) -> Seq<ViolationView> {
    s.map_values(|x: R| rule_view(x))
}

/// What a rule stated when it fired, kept independent of the rule's type.
#[derive(Debug)]
pub struct RecordedRule {
    name: String,
    description: String,
    change_level: ChangeLevel,
    context: ChangeAnchor,
    category: RuleCategory,
}

impl RecordedRule {
    pub closed spec fn view_of(&self) -> ViolationView {
        ViolationView {
            name: self.name@,
            description: self.description@,
            change_level: self.change_level,
            context: self.context@,
            category: self.category,
        }
    }
}

impl Rule for RecordedRule {
    open spec fn spec_name(&self) -> Seq<char> {
        self.view_of().name
    }

    open spec fn spec_description(&self) -> Seq<char> {
        self.view_of().description
    }

    open spec fn spec_change_level(&self) -> ChangeLevel {
        self.view_of().change_level
    }

    open spec fn spec_context(&self) -> AnchorView {
        self.view_of().context
    }

    open spec fn spec_category(&self) -> RuleCategory {
        self.view_of().category
    }

    fn name(&self) -> (r: &str) {
        self.name.as_str()
    }

    fn description(&self) -> (r: String) {
        self.description.clone()
    }

    fn change_level(&self) -> (r: ChangeLevel) {
        self.change_level
    }

    fn context(&self) -> (r: ChangeAnchor) {
        self.context.duplicate()
    }

    fn category(&self) -> (r: RuleCategory) {
        self.category
    }
}

/// A violation: the record of a rule that fired.
#[derive(Debug)]
pub struct RuleViolation {
    rule: RecordedRule,
}

impl View for RuleViolation {
    type V = ViolationView;

    closed spec fn view(&self) -> ViolationView {
        self.rule.view_of()
    }
}

/// The views of a list of violations.
pub open spec fn views(s: Seq<RuleViolation>) -> Seq<ViolationView> {
    s.map_values(|v: RuleViolation| v@)
}

/// The severities of a list of violations.
pub open spec fn levels(s: Seq<ViolationView>) -> Seq<ChangeLevel> {
    s.map_values(|v: ViolationView| v.change_level)
}

impl RuleViolation {
    /// Records what `rule` states.
    pub fn new<R: Rule>(rule: &R) -> (r: RuleViolation)
        ensures
            r@ == rule_view(*rule),
    {
        RuleViolation::from_parts(
            String::from_str(rule.name()),
            rule.description(),
            rule.change_level(),
            rule.context(),
            rule.category(),
        )
    }

    /// A record with the given parts.
    pub fn from_parts(
        name: String,
        description: String,
        change_level: ChangeLevel,
        context: ChangeAnchor,
        category: RuleCategory,
    ) -> (r: RuleViolation)
        ensures
            r@ == (ViolationView {
                name: name@,
                description: description@,
                change_level,
                context: context@,
                category,
            }),
    {
        RuleViolation { rule: RecordedRule { name, description, change_level, context, category } }
    }

    /// The recorded rule.
    pub fn rule(&self) -> (r: &RecordedRule)
        ensures
            rule_view(*r) == self@,
    {
        &self.rule
    }

    pub fn name(&self) -> (r: &str)
        ensures
            r@ == self@.name,
    {
        self.rule.name()
    }

    pub fn description(&self) -> (r: String)
        ensures
            r@ == self@.description,
    {
        self.rule.description()
    }

    pub fn change_level(&self) -> (r: ChangeLevel)
        ensures
            r == self@.change_level,
    {
        self.rule.change_level()
    }

    pub fn context(&self) -> (r: ChangeAnchor)
        ensures
            r@ == self@.context,
    {
        self.rule.context()
    }

    pub fn category(&self) -> (r: RuleCategory)
        ensures
            r == self@.category,
    {
        self.rule.category()
    }
}

/// Appends a record of each rule in `rules` to `out`.
pub fn record_all<R: Rule>(out: &mut Vec<RuleViolation>, rules: &Vec<R>)
    ensures
        views(final(out)@) == views(old(out)@) + rule_views(rules@),
{
    let ghost start = views(out@);
    let mut i: usize = 0;
    while i < rules.len()
        invariant
            i <= rules@.len(),
            views(out@) == start + rule_views(rules@.take(i as int)),
        decreases rules.len() - i,
    {
        let ghost before = out@;
        out.push(RuleViolation::new(&rules[i]));
        assert(views(out@) =~= views(before).push(rule_view(rules@[i as int])));
        assert(rule_views(rules@.take(i + 1)) =~= rule_views(rules@.take(i as int)).push(
            rule_view(rules@[i as int]),
        ));
        i += 1;
    }
    assert(rules@.take(rules@.len() as int) =~= rules@);
}

/// Appends `more` to `out`.
pub fn extend_with(out: &mut Vec<RuleViolation>, more: Vec<RuleViolation>)
    ensures
        views(final(out)@) == views(old(out)@) + views(more@),
{
    let mut more = more;
    let ghost a = out@;
    let ghost b = more@;
    out.append(&mut more);
    assert(views(a + b) =~= views(a) + views(b));
}

/// The violations found for one schema or one route.
#[derive(Debug)]
pub struct MatchResult {
    pub name: String,
    pub violations: Vec<RuleViolation>,
    pub change_level: ChangeLevel,
}

/// What a match result says, as mathematical values.
pub struct MatchView {
    pub name: Seq<char>,
    pub violations: Seq<ViolationView>,
}

impl View for MatchResult {
    type V = MatchView;

    open spec fn view(&self) -> MatchView {
        MatchView { name: self.name@, violations: views(self.violations@) }
    }
}

impl MatchResult {
    /// A result whose overall level is the aggregate of its violations.
    pub fn new(name: String, violations: Vec<RuleViolation>) -> (r: MatchResult)
        ensures
            r.name == name,
            r.violations == violations,
            r.change_level == aggregate(levels(views(violations@))),
    {
        let change_level = calculate_overall_change_level(violations.as_slice());
        MatchResult { name, violations, change_level }
    }
}

/// The aggregate severity of a list of violations.
pub fn calculate_overall_change_level(violations: &[RuleViolation]) -> (r: ChangeLevel)
    ensures
        r == aggregate(levels(views(violations@))),
{
    let ghost ls = levels(views(violations@));
    let mut has_breaking = false;
    let mut has_warning = false;
    let mut i: usize = 0;
    while i < violations.len()
        invariant
            i <= violations@.len(),
            ls == levels(views(violations@)),
            ls.len() == violations@.len(),
            has_breaking == exists|j: int| 0 <= j < i && ls[j] == ChangeLevel::Breaking,
            has_warning == exists|j: int| 0 <= j < i && ls[j] == ChangeLevel::Warning,
        decreases violations.len() - i,
    {
        assert(ls[i as int] == violations@[i as int]@.change_level);
        match violations[i].change_level() {
            ChangeLevel::Breaking => has_breaking = true,
            ChangeLevel::Warning => has_warning = true,
            ChangeLevel::Change => {},
        }
        i += 1;
    }
    if has_breaking {
        ChangeLevel::Breaking
    } else if has_warning {
        ChangeLevel::Warning
    } else {
        ChangeLevel::Change
    }
}

} // verus!
