//! Rules that compare two versions of a schema node.
use vstd::prelude::*;

use crate::model::{
    SchemaNode, contains_text, deref_opt, fresh_names, spec_is_nullable, key_list, keys, names_not_in, same_types, string_views, types_view,
};
use crate::rules::{AnchorView, ChangeAnchor, Rule, RuleCategory, ViolationView, rule_views};
use crate::text::{
    bool_text, bool_text_of, cat, cat3, join_list, join_list_text, join_path, join_path_text, opt_text,
    opt_text_of, opt_view, same_opt_text, types_text, types_text_of,
};
use crate::ChangeLevel;

verus! {

/// A check on a pair of schema nodes found at one path of one schema.
pub trait SchemaRule: Rule {
    /// What the rule finds between the two nodes.
    spec fn spec_detect(
        schema_name: Seq<char>,
        property_path: Seq<char>,
        base: Option<SchemaNode>,
        current: Option<SchemaNode>,
    ) -> Seq<ViolationView>;

    /// The instances of the rule between `base` and `current`, none where it
    /// does not apply.
    fn detect(
        schema_name: &str,
        property_path: &str,
        base: Option<&SchemaNode>,
        current: Option<&SchemaNode>,
    ) -> (r: Vec<Self>)
        ensures
            rule_views(r@) == Self::spec_detect(
                schema_name@,
                property_path@,
                deref_opt(base),
                deref_opt(current),
            ),
    ;
}

/// The anchor at `path`: the schema itself at the root, else `at`.
pub open spec fn root_or(path: Seq<char>, at: AnchorView) -> AnchorView {
    if path.len() == 0 {
        AnchorView::Schema
    } else {
        at
    }
}

/// The anchor of a change to the required list at `path`.
pub open spec fn required_at(path: Seq<char>) -> AnchorView {
    if path.len() == 0 {
        AnchorView::Required
    } else {
        AnchorView::Property(path)
    }
}

fn is_root(path: &String) -> (r: bool)
    ensures
        r == (path@.len() == 0),
{
    path.as_str().unicode_len() == 0
}

fn required_anchor(path: &String) -> (r: ChangeAnchor)
    ensures
        r@ == required_at(path@),
{
    if is_root(path) {
        ChangeAnchor::Required
    } else {
        ChangeAnchor::Property(path.clone())
    }
}

// ---------------------------------------------------------------------------
// Schema added / removed
// ---------------------------------------------------------------------------

pub open spec fn schema_added_view(schema: Seq<char>) -> ViolationView {
    ViolationView {
        name: "SchemaAdded"@,
        description: "Schema '"@ + schema + "' was added"@,
        change_level: ChangeLevel::Change,
        context: AnchorView::Schema,
        category: RuleCategory::Schema,
    }
}

/// A schema that only the current version has.
#[derive(Debug, Clone)]
pub struct SchemaAddedRule {
    pub schema_name: String,
}

impl Rule for SchemaAddedRule {
    open spec fn spec_name(&self) -> Seq<char> {
        schema_added_view(self.schema_name@).name
    }

    open spec fn spec_description(&self) -> Seq<char> {
        schema_added_view(self.schema_name@).description
    }

    open spec fn spec_change_level(&self) -> ChangeLevel {
        schema_added_view(self.schema_name@).change_level
    }

    open spec fn spec_context(&self) -> AnchorView {
        schema_added_view(self.schema_name@).context
    }

    open spec fn spec_category(&self) -> RuleCategory {
        schema_added_view(self.schema_name@).category
    }

    fn name(&self) -> (r: &str) {
        "SchemaAdded"
    }

    fn description(&self) -> (r: String) {
        cat3("Schema '", self.schema_name.as_str(), "' was added")
    }

    fn change_level(&self) -> (r: ChangeLevel) {
        ChangeLevel::Change
    }

    fn context(&self) -> (r: ChangeAnchor) {
        ChangeAnchor::Schema
    }

    fn category(&self) -> (r: RuleCategory) {
        RuleCategory::Schema
    }
}

impl SchemaRule for SchemaAddedRule {
    open spec fn spec_detect(
        schema_name: Seq<char>,
        property_path: Seq<char>,
        base: Option<SchemaNode>,
        current: Option<SchemaNode>,
    ) -> Seq<ViolationView> {
        if base is None && current is Some {
            seq![schema_added_view(schema_name)]
        } else {
            Seq::empty()
        }
    }

    /// Fires when the schema is absent before and present now.
    fn detect(
        schema_name: &str,
        property_path: &str,
        base: Option<&SchemaNode>,
        current: Option<&SchemaNode>,
    ) -> (r: Vec<Self>)
        ensures
            forall|k: int| 0 <= k < r@.len() ==> #[trigger] r@[k].schema_name@ == schema_name@,
    {
        let mut r: Vec<Self> = Vec::new();
        if base.is_none() && current.is_some() {
            r.push(SchemaAddedRule { schema_name: String::from_str(schema_name) });
        }
        proof {
            if r@.len() == 1 {
                assert(rule_views(r@) =~= seq![schema_added_view(schema_name@)]);
            } else {
                assert(rule_views(r@) =~= Seq::empty());
            }
        }
        r
    }
}

pub open spec fn schema_removed_view(schema: Seq<char>) -> ViolationView {
    ViolationView {
        name: "SchemaRemoved"@,
        description: "Schema '"@ + schema + "' was removed"@,
        change_level: ChangeLevel::Breaking,
        context: AnchorView::Schema,
        category: RuleCategory::Schema,
    }
}

/// A schema that only the base version has.
#[derive(Debug, Clone)]
pub struct SchemaRemovedRule {
    pub schema_name: String,
}

impl Rule for SchemaRemovedRule {
    open spec fn spec_name(&self) -> Seq<char> {
        schema_removed_view(self.schema_name@).name
    }

    open spec fn spec_description(&self) -> Seq<char> {
        schema_removed_view(self.schema_name@).description
    }

    open spec fn spec_change_level(&self) -> ChangeLevel {
        schema_removed_view(self.schema_name@).change_level
    }

    open spec fn spec_context(&self) -> AnchorView {
        schema_removed_view(self.schema_name@).context
    }

    open spec fn spec_category(&self) -> RuleCategory {
        schema_removed_view(self.schema_name@).category
    }

    fn name(&self) -> (r: &str) {
        "SchemaRemoved"
    }

    fn description(&self) -> (r: String) {
        cat3("Schema '", self.schema_name.as_str(), "' was removed")
    }

    fn change_level(&self) -> (r: ChangeLevel) {
        ChangeLevel::Breaking
    }

    fn context(&self) -> (r: ChangeAnchor) {
        ChangeAnchor::Schema
    }

    fn category(&self) -> (r: RuleCategory) {
        RuleCategory::Schema
    }
}

impl SchemaRule for SchemaRemovedRule {
    open spec fn spec_detect(
        schema_name: Seq<char>,
        property_path: Seq<char>,
        base: Option<SchemaNode>,
        current: Option<SchemaNode>,
    ) -> Seq<ViolationView> {
        if base is Some && current is None {
            seq![schema_removed_view(schema_name)]
        } else {
            Seq::empty()
        }
    }

    /// Fires when the schema is present before and absent now.
    fn detect(
        schema_name: &str,
        property_path: &str,
        base: Option<&SchemaNode>,
        current: Option<&SchemaNode>,
    ) -> (r: Vec<Self>)
        ensures
            forall|k: int| 0 <= k < r@.len() ==> #[trigger] r@[k].schema_name@ == schema_name@,
    {
        let mut r: Vec<Self> = Vec::new();
        if base.is_some() && current.is_none() {
            r.push(SchemaRemovedRule { schema_name: String::from_str(schema_name) });
        }
        proof {
            if r@.len() == 1 {
                assert(rule_views(r@) =~= seq![schema_removed_view(schema_name@)]);
            } else {
                assert(rule_views(r@) =~= Seq::empty());
            }
        }
        r
    }
}

// ---------------------------------------------------------------------------
// Type changed
// ---------------------------------------------------------------------------

pub open spec fn type_changed_view(
    schema: Seq<char>,
    path: Seq<char>,
    old_type: Seq<char>,
    new_type: Seq<char>,
) -> ViolationView {
    ViolationView {
        name: "TypeChanged"@,
        description: "Type changed from '"@ + old_type + "' to '"@ + new_type + "'"@,
        change_level: ChangeLevel::Breaking,
        context: root_or(path, AnchorView::PropertyType(path)),
        category: RuleCategory::Schema,
    }
}

/// What the type rule finds between two nodes.
pub open spec fn type_changes(
    schema: Seq<char>,
    path: Seq<char>,
    b: SchemaNode,
    c: SchemaNode,
) -> Seq<ViolationView> {
    if types_view(b.schema_type) != types_view(c.schema_type) {
        seq![
            type_changed_view(
                schema,
                path,
                types_text(types_view(b.schema_type)),
                types_text(types_view(c.schema_type)),
            ),
        ]
    } else {
        Seq::empty()
    }
}

/// The type keyword differs.
#[derive(Debug, Clone)]
pub struct TypeChangedRule {
    pub schema_name: String,
    pub property_path: String,
    pub old_type: String,
    pub new_type: String,
}

impl TypeChangedRule {
    pub open spec fn view_of(&self) -> ViolationView {
        type_changed_view(
            self.schema_name@,
            self.property_path@,
            self.old_type@,
            self.new_type@,
        )
    }
}

impl Rule for TypeChangedRule {
    open spec fn spec_name(&self) -> Seq<char> {
        self.view_of().name
    }

    open spec fn spec_description(&self) -> Seq<char> {
        self.view_of().description
    }

    open spec fn spec_change_level(&self) -> ChangeLevel {
        self.view_of().change_level
    }

    open spec fn spec_context(&self) -> AnchorView {
        self.view_of().context
    }

    open spec fn spec_category(&self) -> RuleCategory {
        self.view_of().category
    }

    fn name(&self) -> (r: &str) {
        "TypeChanged"
    }

    fn description(&self) -> (r: String) {
        cat3("Type changed from '", self.old_type.as_str(), "' to '").concat(
            self.new_type.as_str(),
        ).concat("'")
    }

    fn change_level(&self) -> (r: ChangeLevel) {
        ChangeLevel::Breaking
    }

    fn context(&self) -> (r: ChangeAnchor) {
        if is_root(&self.property_path) {
            ChangeAnchor::Schema
        } else {
            ChangeAnchor::PropertyType(self.property_path.clone())
        }
    }

    fn category(&self) -> (r: RuleCategory) {
        RuleCategory::Schema
    }
}

impl SchemaRule for TypeChangedRule {
    open spec fn spec_detect(
        schema_name: Seq<char>,
        property_path: Seq<char>,
        base: Option<SchemaNode>,
        current: Option<SchemaNode>,
    ) -> Seq<ViolationView> {
        match (base, current) {
            (Some(b), Some(c)) => type_changes(schema_name, property_path, b, c),
            _ => Seq::empty(),
        }
    }

    /// Fires when both nodes exist and their types differ.
    fn detect(
        schema_name: &str,
        property_path: &str,
        base: Option<&SchemaNode>,
        current: Option<&SchemaNode>,
    ) -> (r: Vec<Self>)
        ensures
            match (base, current) {
                (Some(b), Some(c)) => forall|k: int|
                    #![trigger r@[k]]
                    0 <= k < r@.len() ==> {
                        &&& r@[k].schema_name@ == schema_name@
                        &&& r@[k].property_path@ == property_path@
                        &&& r@[k].old_type@ == types_text(types_view(b.schema_type))
                        &&& r@[k].new_type@ == types_text(types_view(c.schema_type))
                    },
                _ => true,
            },
    {
        let mut r: Vec<Self> = Vec::new();
        if let (Some(b), Some(c)) = (base, current) {
            if !same_types(&b.schema_type, &c.schema_type) {
                r.push(
                    TypeChangedRule {
                        schema_name: String::from_str(schema_name),
                        property_path: String::from_str(property_path),
                        old_type: types_text_of(&b.schema_type),
                        new_type: types_text_of(&c.schema_type),
                    },
                );
                assert(rule_views(r@) =~= type_changes(schema_name@, property_path@, *b, *c));
                return r;
            }
            assert(rule_views(r@) =~= type_changes(schema_name@, property_path@, *b, *c));
        }
        assert(rule_views(r@) =~= Seq::empty());
        r
    }
}

// ---------------------------------------------------------------------------
// Property added
// ---------------------------------------------------------------------------

pub open spec fn property_added_view(
    schema: Seq<char>,
    path: Seq<char>,
    property: Seq<char>,
) -> ViolationView {
    ViolationView {
        name: "PropertyAdded"@,
        description: "Property '"@ + property + "' was added"@,
        change_level: ChangeLevel::Change,
        context: AnchorView::Property(join_path(path, property)),
        category: RuleCategory::Schema,
    }
}

/// The property names that only `c` has.
pub open spec fn added_properties(b: SchemaNode, c: SchemaNode) -> Seq<Seq<char>> {
    fresh_names(keys(c.properties@), keys(b.properties@))
}

/// What the property-added rule finds between two nodes.
pub open spec fn property_additions(
    schema: Seq<char>,
    path: Seq<char>,
    b: SchemaNode,
    c: SchemaNode,
) -> Seq<ViolationView> {
    added_properties(b, c).map_values(|n: Seq<char>| property_added_view(schema, path, n))
}

/// A property that only the current node has.
#[derive(Debug, Clone)]
pub struct PropertyAddedRule {
    pub schema_name: String,
    pub property_path: String,
    pub property_name: String,
}

impl PropertyAddedRule {
    pub open spec fn view_of(&self) -> ViolationView {
        property_added_view(self.schema_name@, self.property_path@, self.property_name@)
    }
}

impl Rule for PropertyAddedRule {
    open spec fn spec_name(&self) -> Seq<char> {
        self.view_of().name
    }

    open spec fn spec_description(&self) -> Seq<char> {
        self.view_of().description
    }

    open spec fn spec_change_level(&self) -> ChangeLevel {
        self.view_of().change_level
    }

    open spec fn spec_context(&self) -> AnchorView {
        self.view_of().context
    }

    open spec fn spec_category(&self) -> RuleCategory {
        self.view_of().category
    }

    fn name(&self) -> (r: &str) {
        "PropertyAdded"
    }

    fn description(&self) -> (r: String) {
        cat3("Property '", self.property_name.as_str(), "' was added")
    }

    fn change_level(&self) -> (r: ChangeLevel) {
        ChangeLevel::Change
    }

    fn context(&self) -> (r: ChangeAnchor) {
        ChangeAnchor::Property(
            join_path_text(self.property_path.as_str(), self.property_name.as_str()),
        )
    }

    fn category(&self) -> (r: RuleCategory) {
        RuleCategory::Schema
    }
}

impl SchemaRule for PropertyAddedRule {
    open spec fn spec_detect(
        schema_name: Seq<char>,
        property_path: Seq<char>,
        base: Option<SchemaNode>,
        current: Option<SchemaNode>,
    ) -> Seq<ViolationView> {
        match (base, current) {
            (Some(b), Some(c)) => property_additions(schema_name, property_path, b, c),
            _ => Seq::empty(),
        }
    }

    /// Fires once for each property name that only the current node has.
    fn detect(
        schema_name: &str,
        property_path: &str,
        base: Option<&SchemaNode>,
        current: Option<&SchemaNode>,
    ) -> (r: Vec<Self>)
        ensures
            match (base, current) {
                (Some(b), Some(c)) => forall|k: int|
                    #![trigger r@[k]]
                    0 <= k < r@.len() ==> {
                        &&& r@[k].schema_name@ == schema_name@
                        &&& r@[k].property_path@ == property_path@
                        &&& r@[k].property_name@ == added_properties(*b, *c)[k]
                    },
                _ => true,
            },
    {
        let mut r: Vec<Self> = Vec::new();
        if let (Some(b), Some(c)) = (base, current) {
            let names = names_not_in(&key_list(&c.properties), &key_list(&b.properties));
            let ghost nv = string_views(names@);
            let mut i: usize = 0;
            while i < names.len()
                invariant
                    i <= names@.len(),
                    nv == string_views(names@),
                    nv == added_properties(*b, *c),
                    r@.len() == i,
                    forall|k: int|
                        #![trigger r@[k]]
                        0 <= k < i ==> {
                            &&& r@[k].schema_name@ == schema_name@
                            &&& r@[k].property_path@ == property_path@
                            &&& r@[k].property_name@ == nv[k]
                        },
                    rule_views(r@) == nv.take(i as int).map_values(
                        |n: Seq<char>| property_added_view(schema_name@, property_path@, n),
                    ),
                decreases names.len() - i,
            {
                let ghost before = r@;
                r.push(
                    PropertyAddedRule {
                        schema_name: String::from_str(schema_name),
                        property_path: String::from_str(property_path),
                        property_name: names[i].clone(),
                    },
                );
                assert(rule_views(r@) =~= rule_views(before).push(
                    property_added_view(schema_name@, property_path@, nv[i as int]),
                ));
                assert(nv[i as int] == names@[i as int]@);
                assert forall|k: int| 0 <= k <= i implies {
                    &&& r@[k].schema_name@ == schema_name@
                    &&& r@[k].property_path@ == property_path@
                    &&& r@[k].property_name@ == nv[k]
                } by {
                    if k < i {
                        assert(r@[k] == before[k]);
                    }
                }
                assert(nv.take(i + 1) =~= nv.take(i as int).push(nv[i as int]));
                i += 1;
            }
            assert(nv.take(names@.len() as int) =~= nv);
            return r;
        }
        assert(rule_views(r@) =~= Seq::empty());
        r
    }
}

// ---------------------------------------------------------------------------
// Property removed, and required property made optional
// ---------------------------------------------------------------------------

pub open spec fn property_removed_view(
    schema: Seq<char>,
    path: Seq<char>,
    property: Seq<char>,
    was_required: bool,
    totally_removed: bool,
) -> ViolationView {
    ViolationView {
        name: if was_required {
            "RequiredPropertyRemoved"@
        } else {
            "PropertyRemoved"@
        },
        description: if was_required {
            "Required property '"@ + property + "' was removed"@
        } else {
            "Property '"@ + property + "' was removed"@
        },
        change_level: if totally_removed {
            ChangeLevel::Breaking
        } else {
            ChangeLevel::Change
        },
        context: if was_required {
            required_at(path)
        } else {
            AnchorView::Property(join_path(path, property))
        },
        category: RuleCategory::Schema,
    }
}

/// The property names that only `b` has.
pub open spec fn removed_properties(b: SchemaNode, c: SchemaNode) -> Seq<Seq<char>> {
    fresh_names(keys(b.properties@), keys(c.properties@))
}

/// The names of `ns` that `allowed` holds, in order.
pub open spec fn keep_in(ns: Seq<Seq<char>>, allowed: Seq<Seq<char>>) -> Seq<Seq<char>>
    decreases ns.len(),
{
    if ns.len() == 0 {
        Seq::empty()
    } else {
        let rest = keep_in(ns.drop_last(), allowed);
        if allowed.contains(ns.last()) {
            rest.push(ns.last())
        } else {
            rest
        }
    }
}

/// The names dropped from the required list that are still properties of `c`.
pub open spec fn relaxed_properties(b: SchemaNode, c: SchemaNode) -> Seq<Seq<char>> {
    keep_in(
        fresh_names(string_views(b.required@), string_views(c.required@)),
        keys(c.properties@),
    )
}

/// A removed property, or a required property that became optional.
#[derive(Debug, Clone)]
pub struct PropertyRemovedRule {
    pub schema_name: String,
    pub property_path: String,
    pub property_name: String,
    pub was_required: bool,
    /// Whether the property is gone entirely, not only from the required list.
    pub totally_removed: bool,
}

impl PropertyRemovedRule {
    pub open spec fn view_of(&self) -> ViolationView {
        property_removed_view(
            self.schema_name@,
            self.property_path@,
            self.property_name@,
            self.was_required,
            self.totally_removed,
        )
    }
}

impl Rule for PropertyRemovedRule {
    open spec fn spec_name(&self) -> Seq<char> {
        self.view_of().name
    }

    open spec fn spec_description(&self) -> Seq<char> {
        self.view_of().description
    }

    open spec fn spec_change_level(&self) -> ChangeLevel {
        self.view_of().change_level
    }

    open spec fn spec_context(&self) -> AnchorView {
        self.view_of().context
    }

    open spec fn spec_category(&self) -> RuleCategory {
        self.view_of().category
    }

    fn name(&self) -> (r: &str) {
        if self.was_required {
            "RequiredPropertyRemoved"
        } else {
            "PropertyRemoved"
        }
    }

    fn description(&self) -> (r: String) {
        if self.was_required {
            cat3("Required property '", self.property_name.as_str(), "' was removed")
        } else {
            cat3("Property '", self.property_name.as_str(), "' was removed")
        }
    }

    fn change_level(&self) -> (r: ChangeLevel) {
        if self.totally_removed {
            ChangeLevel::Breaking
        } else {
            ChangeLevel::Change
        }
    }

    fn context(&self) -> (r: ChangeAnchor) {
        if self.was_required {
            required_anchor(&self.property_path)
        } else {
            ChangeAnchor::Property(
                join_path_text(self.property_path.as_str(), self.property_name.as_str()),
            )
        }
    }

    fn category(&self) -> (r: RuleCategory) {
        RuleCategory::Schema
    }
}

impl PropertyRemovedRule {
    /// Fires once for each name dropped from the required list whose
    /// property still exists: the property was made optional.
    pub fn detect_relaxed(
        schema_name: &str,
        property_path: &str,
        b: &SchemaNode,
        c: &SchemaNode,
    ) -> (r: Vec<Self>)
        ensures
            rule_views(r@) == relaxed_properties(*b, *c).map_values(
                |n: Seq<char>| property_removed_view(schema_name@, property_path@, n, true, false),
            ),
            forall|k: int|
                #![trigger r@[k]]
                0 <= k < r@.len() ==> {
                    &&& r@[k].schema_name@ == schema_name@
                    &&& r@[k].property_path@ == property_path@
                    &&& r@[k].property_name@ == relaxed_properties(*b, *c)[k]
                    &&& r@[k].was_required
                    &&& !r@[k].totally_removed
                },
    {
        let mut r: Vec<Self> = Vec::new();
        let names = names_not_in(&b.required, &c.required);
        let props = key_list(&c.properties);
        let ghost nv = string_views(names@);
        let ghost pv = string_views(props@);
        assert(pv.take(props@.len() as int) =~= pv);
        let mut i: usize = 0;
        while i < names.len()
            invariant
                i <= names@.len(),
                nv == string_views(names@),
                pv == string_views(props@),
                pv.take(props@.len() as int) == pv,
                r@.len() == keep_in(nv.take(i as int), pv).len(),
                forall|k: int|
                    #![trigger r@[k]]
                    0 <= k < r@.len() ==> {
                        &&& r@[k].schema_name@ == schema_name@
                        &&& r@[k].property_path@ == property_path@
                        &&& r@[k].property_name@ == keep_in(nv.take(i as int), pv)[k]
                        &&& r@[k].was_required
                        &&& !r@[k].totally_removed
                    },
                rule_views(r@) == keep_in(nv.take(i as int), pv).map_values(
                    |n: Seq<char>| property_removed_view(schema_name@, property_path@, n, true, false),
                ),
            decreases names.len() - i,
        {
            let ghost before = r@;
            assert(nv.take(i + 1).drop_last() =~= nv.take(i as int));
            if contains_text(&props, props.len(), &names[i]) {
                r.push(
                    PropertyRemovedRule {
                        schema_name: String::from_str(schema_name),
                        property_path: String::from_str(property_path),
                        property_name: names[i].clone(),
                        was_required: true,
                        totally_removed: false,
                    },
                );
                assert(rule_views(r@) =~= rule_views(before).push(
                    property_removed_view(schema_name@, property_path@, nv[i as int], true, false),
                ));
                assert(keep_in(nv.take(i + 1), pv) =~= keep_in(nv.take(i as int), pv).push(
                    nv[i as int],
                ));
            }
            i += 1;
        }
        assert(nv.take(names@.len() as int) =~= nv);
        r
    }
}

impl SchemaRule for PropertyRemovedRule {
    open spec fn spec_detect(
        schema_name: Seq<char>,
        property_path: Seq<char>,
        base: Option<SchemaNode>,
        current: Option<SchemaNode>,
    ) -> Seq<ViolationView> {
        match (base, current) {
            (Some(b), Some(c)) => removed_properties(b, c).map_values(
                |n: Seq<char>|
                    property_removed_view(
                        schema_name,
                        property_path,
                        n,
                        string_views(b.required@).contains(n),
                        true,
                    ),
            ),
            _ => Seq::empty(),
        }
    }

    /// Fires once for each property name that only the base node has; such a
    /// property is gone entirely.
    fn detect(
        schema_name: &str,
        property_path: &str,
        base: Option<&SchemaNode>,
        current: Option<&SchemaNode>,
    ) -> (r: Vec<Self>)
        ensures
            match (base, current) {
                (Some(b), Some(c)) => forall|k: int|
                    #![trigger r@[k]]
                    0 <= k < r@.len() ==> {
                        &&& r@[k].schema_name@ == schema_name@
                        &&& r@[k].property_path@ == property_path@
                        &&& r@[k].property_name@ == removed_properties(*b, *c)[k]
                        &&& r@[k].was_required == string_views(b.required@).contains(
                            r@[k].property_name@,
                        )
                        &&& r@[k].totally_removed
                    },
                _ => true,
            },
    {
        let mut r: Vec<Self> = Vec::new();
        if let (Some(b), Some(c)) = (base, current) {
            let names = names_not_in(&key_list(&b.properties), &key_list(&c.properties));
            let ghost nv = string_views(names@);
            let ghost req = string_views(b.required@);
            assert(req.take(b.required@.len() as int) =~= req);
            let mut i: usize = 0;
            while i < names.len()
                invariant
                    i <= names@.len(),
                    nv == string_views(names@),
                    req == string_views(b.required@),
                    req.take(b.required@.len() as int) == req,
                    nv == removed_properties(*b, *c),
                    r@.len() == i,
                    forall|k: int|
                        #![trigger r@[k]]
                        0 <= k < i ==> {
                            &&& r@[k].schema_name@ == schema_name@
                            &&& r@[k].property_path@ == property_path@
                            &&& r@[k].property_name@ == nv[k]
                            &&& r@[k].was_required == req.contains(nv[k])
                            &&& r@[k].totally_removed
                        },
                    rule_views(r@) == nv.take(i as int).map_values(
                        |n: Seq<char>|
                            property_removed_view(
                                schema_name@,
                                property_path@,
                                n,
                                req.contains(n),
                                true,
                            ),
                    ),
                decreases names.len() - i,
            {
                let ghost before = r@;
                let was_required = contains_text(&b.required, b.required.len(), &names[i]);
                r.push(
                    PropertyRemovedRule {
                        schema_name: String::from_str(schema_name),
                        property_path: String::from_str(property_path),
                        property_name: names[i].clone(),
                        was_required,
                        totally_removed: true,
                    },
                );
                assert(rule_views(r@) =~= rule_views(before).push(
                    property_removed_view(
                        schema_name@,
                        property_path@,
                        nv[i as int],
                        req.contains(nv[i as int]),
                        true,
                    ),
                ));
                assert(nv[i as int] == names@[i as int]@);
                assert forall|k: int| 0 <= k <= i implies {
                    &&& r@[k].schema_name@ == schema_name@
                    &&& r@[k].property_path@ == property_path@
                    &&& r@[k].property_name@ == nv[k]
                    &&& r@[k].was_required == req.contains(nv[k])
                    &&& r@[k].totally_removed
                } by {
                    if k < i {
                        assert(r@[k] == before[k]);
                    }
                }
                assert(nv.take(i + 1) =~= nv.take(i as int).push(nv[i as int]));
                i += 1;
            }
            assert(nv.take(names@.len() as int) =~= nv);
            return r;
        }
        assert(rule_views(r@) =~= Seq::empty());
        r
    }
}

// ---------------------------------------------------------------------------
// Required property added
// ---------------------------------------------------------------------------

pub open spec fn required_added_view(
    schema: Seq<char>,
    path: Seq<char>,
    property: Seq<char>,
) -> ViolationView {
    ViolationView {
        name: "RequiredPropertyAdded"@,
        description: "Required property '"@ + property + "' was added"@,
        change_level: ChangeLevel::Breaking,
        context: required_at(path),
        category: RuleCategory::Schema,
    }
}

/// The names that only `c` requires.
pub open spec fn newly_required(b: SchemaNode, c: SchemaNode) -> Seq<Seq<char>> {
    fresh_names(string_views(c.required@), string_views(b.required@))
}

/// A name that the current node requires and the base node did not.
#[derive(Debug, Clone)]
pub struct RequiredPropertyAddedRule {
    pub schema_name: String,
    pub property_path: String,
    pub property_name: String,
}

impl RequiredPropertyAddedRule {
    pub open spec fn view_of(&self) -> ViolationView {
        required_added_view(self.schema_name@, self.property_path@, self.property_name@)
    }
}

impl Rule for RequiredPropertyAddedRule {
    open spec fn spec_name(&self) -> Seq<char> {
        self.view_of().name
    }

    open spec fn spec_description(&self) -> Seq<char> {
        self.view_of().description
    }

    open spec fn spec_change_level(&self) -> ChangeLevel {
        self.view_of().change_level
    }

    open spec fn spec_context(&self) -> AnchorView {
        self.view_of().context
    }

    open spec fn spec_category(&self) -> RuleCategory {
        self.view_of().category
    }

    fn name(&self) -> (r: &str) {
        "RequiredPropertyAdded"
    }

    fn description(&self) -> (r: String) {
        cat3("Required property '", self.property_name.as_str(), "' was added")
    }

    fn change_level(&self) -> (r: ChangeLevel) {
        ChangeLevel::Breaking
    }

    fn context(&self) -> (r: ChangeAnchor) {
        required_anchor(&self.property_path)
    }

    fn category(&self) -> (r: RuleCategory) {
        RuleCategory::Schema
    }
}

impl SchemaRule for RequiredPropertyAddedRule {
    open spec fn spec_detect(
        schema_name: Seq<char>,
        property_path: Seq<char>,
        base: Option<SchemaNode>,
        current: Option<SchemaNode>,
    ) -> Seq<ViolationView> {
        match (base, current) {
            (Some(b), Some(c)) => newly_required(b, c).map_values(
                |n: Seq<char>| required_added_view(schema_name, property_path, n),
            ),
            _ => Seq::empty(),
        }
    }

    /// Fires once for each name that only the current node requires.
    fn detect(
        schema_name: &str,
        property_path: &str,
        base: Option<&SchemaNode>,
        current: Option<&SchemaNode>,
    ) -> (r: Vec<Self>)
        ensures
            match (base, current) {
                (Some(b), Some(c)) => forall|k: int|
                    #![trigger r@[k]]
                    0 <= k < r@.len() ==> {
                        &&& r@[k].schema_name@ == schema_name@
                        &&& r@[k].property_path@ == property_path@
                        &&& r@[k].property_name@ == newly_required(*b, *c)[k]
                    },
                _ => true,
            },
    {
        let mut r: Vec<Self> = Vec::new();
        if let (Some(b), Some(c)) = (base, current) {
            let names = names_not_in(&c.required, &b.required);
            let ghost nv = string_views(names@);
            let mut i: usize = 0;
            while i < names.len()
                invariant
                    i <= names@.len(),
                    nv == string_views(names@),
                    nv == newly_required(*b, *c),
                    r@.len() == i,
                    forall|k: int|
                        #![trigger r@[k]]
                        0 <= k < i ==> {
                            &&& r@[k].schema_name@ == schema_name@
                            &&& r@[k].property_path@ == property_path@
                            &&& r@[k].property_name@ == nv[k]
                        },
                    rule_views(r@) == nv.take(i as int).map_values(
                        |n: Seq<char>| required_added_view(schema_name@, property_path@, n),
                    ),
                decreases names.len() - i,
            {
                let ghost before = r@;
                r.push(
                    RequiredPropertyAddedRule {
                        schema_name: String::from_str(schema_name),
                        property_path: String::from_str(property_path),
                        property_name: names[i].clone(),
                    },
                );
                assert(rule_views(r@) =~= rule_views(before).push(
                    required_added_view(schema_name@, property_path@, nv[i as int]),
                ));
                assert(nv[i as int] == names@[i as int]@);
                assert forall|k: int| 0 <= k <= i implies {
                    &&& r@[k].schema_name@ == schema_name@
                    &&& r@[k].property_path@ == property_path@
                    &&& r@[k].property_name@ == nv[k]
                } by {
                    if k < i {
                        assert(r@[k] == before[k]);
                    }
                }
                assert(nv.take(i + 1) =~= nv.take(i as int).push(nv[i as int]));
                i += 1;
            }
            assert(nv.take(names@.len() as int) =~= nv);
            return r;
        }
        assert(rule_views(r@) =~= Seq::empty());
        r
    }
}

// ---------------------------------------------------------------------------
// Description changed
// ---------------------------------------------------------------------------

pub open spec fn description_changed_view(
    schema: Seq<char>,
    path: Seq<char>,
    old_description: Option<Seq<char>>,
    new_description: Option<Seq<char>>,
) -> ViolationView {
    ViolationView {
        name: "DescriptionChanged"@,
        description: "Description changed from '"@ + opt_text(old_description) + "' to '"@
            + opt_text(new_description) + "'"@,
        change_level: ChangeLevel::Change,
        context: root_or(path, AnchorView::Description(path)),
        category: RuleCategory::Schema,
    }
}

/// What the description rule finds between two nodes.
pub open spec fn description_changes(
    schema: Seq<char>,
    path: Seq<char>,
    b: SchemaNode,
    c: SchemaNode,
) -> Seq<ViolationView> {
    if opt_view(b.description) != opt_view(c.description) {
        seq![
            description_changed_view(
                schema,
                path,
                opt_view(b.description),
                opt_view(c.description),
            ),
        ]
    } else {
        Seq::empty()
    }
}

/// The description text differs.
#[derive(Debug, Clone)]
pub struct DescriptionChangedRule {
    pub schema_name: String,
    pub property_path: String,
    pub old_description: Option<String>,
    pub new_description: Option<String>,
}

impl DescriptionChangedRule {
    pub open spec fn view_of(&self) -> ViolationView {
        description_changed_view(
            self.schema_name@,
            self.property_path@,
            opt_view(self.old_description),
            opt_view(self.new_description),
        )
    }
}

impl Rule for DescriptionChangedRule {
    open spec fn spec_name(&self) -> Seq<char> {
        self.view_of().name
    }

    open spec fn spec_description(&self) -> Seq<char> {
        self.view_of().description
    }

    open spec fn spec_change_level(&self) -> ChangeLevel {
        self.view_of().change_level
    }

    open spec fn spec_context(&self) -> AnchorView {
        self.view_of().context
    }

    open spec fn spec_category(&self) -> RuleCategory {
        self.view_of().category
    }

    fn name(&self) -> (r: &str) {
        "DescriptionChanged"
    }

    fn description(&self) -> (r: String) {
        cat3("Description changed from '", opt_text_of(&self.old_description), "' to '").concat(
            opt_text_of(&self.new_description),
        ).concat("'")
    }

    fn change_level(&self) -> (r: ChangeLevel) {
        ChangeLevel::Change
    }

    fn context(&self) -> (r: ChangeAnchor) {
        if is_root(&self.property_path) {
            ChangeAnchor::Schema
        } else {
            ChangeAnchor::Description(self.property_path.clone())
        }
    }

    fn category(&self) -> (r: RuleCategory) {
        RuleCategory::Schema
    }
}

impl SchemaRule for DescriptionChangedRule {
    open spec fn spec_detect(
        schema_name: Seq<char>,
        property_path: Seq<char>,
        base: Option<SchemaNode>,
        current: Option<SchemaNode>,
    ) -> Seq<ViolationView> {
        match (base, current) {
            (Some(b), Some(c)) => description_changes(schema_name, property_path, b, c),
            _ => Seq::empty(),
        }
    }

    fn detect(
        schema_name: &str,
        property_path: &str,
        base: Option<&SchemaNode>,
        current: Option<&SchemaNode>,
    ) -> (r: Vec<Self>)
        ensures
            match (base, current) {
                (Some(b), Some(c)) => forall|k: int|
                    #![trigger r@[k]]
                    0 <= k < r@.len() ==> {
                        &&& r@[k].schema_name@ == schema_name@
                        &&& r@[k].property_path@ == property_path@
                        &&& opt_view(r@[k].old_description) == opt_view(b.description)
                        &&& opt_view(r@[k].new_description) == opt_view(c.description)
                    },
                _ => true,
            },
    {
        let mut r: Vec<Self> = Vec::new();
        if let (Some(b), Some(c)) = (base, current) {
            if !same_opt_text(&b.description, &c.description) {
                r.push(
                    DescriptionChangedRule {
                        schema_name: String::from_str(schema_name),
                        property_path: String::from_str(property_path),
                        old_description: b.description.clone(),
                        new_description: c.description.clone(),
                    },
                );
            }
            assert(rule_views(r@) =~= description_changes(schema_name@, property_path@, *b, *c));
            return r;
        }
        assert(rule_views(r@) =~= Seq::empty());
        r
    }
}

// ---------------------------------------------------------------------------
// Enum values added / removed
// ---------------------------------------------------------------------------

pub open spec fn enum_added_view(
    schema: Seq<char>,
    path: Seq<char>,
    values: Seq<Seq<char>>,
) -> ViolationView {
    ViolationView {
        name: "EnumValuesAdded"@,
        description: "Enum values added: ["@ + join_list(values) + "]"@,
        change_level: ChangeLevel::Change,
        context: root_or(path, AnchorView::EnumValues(path)),
        category: RuleCategory::Schema,
    }
}

/// The enumerated values that only `c` has.
pub open spec fn added_values(b: SchemaNode, c: SchemaNode) -> Seq<Seq<char>> {
    fresh_names(string_views(c.enum_values@), string_views(b.enum_values@))
}

/// What the enum-added rule finds between two nodes.
pub open spec fn enum_additions(
    schema: Seq<char>,
    path: Seq<char>,
    b: SchemaNode,
    c: SchemaNode,
) -> Seq<ViolationView> {
    if added_values(b, c).len() > 0 {
        seq![enum_added_view(schema, path, added_values(b, c))]
    } else {
        Seq::empty()
    }
}

/// Values that only the current node enumerates; each value is its JSON text.
#[derive(Debug, Clone)]
pub struct EnumValuesAddedRule {
    pub schema_name: String,
    pub property_path: String,
    pub values: Vec<String>,
}

impl EnumValuesAddedRule {
    pub open spec fn view_of(&self) -> ViolationView {
        enum_added_view(self.schema_name@, self.property_path@, string_views(self.values@))
    }
}

impl Rule for EnumValuesAddedRule {
    open spec fn spec_name(&self) -> Seq<char> {
        self.view_of().name
    }

    open spec fn spec_description(&self) -> Seq<char> {
        self.view_of().description
    }

    open spec fn spec_change_level(&self) -> ChangeLevel {
        self.view_of().change_level
    }

    open spec fn spec_context(&self) -> AnchorView {
        self.view_of().context
    }

    open spec fn spec_category(&self) -> RuleCategory {
        self.view_of().category
    }

    fn name(&self) -> (r: &str) {
        "EnumValuesAdded"
    }

    fn description(&self) -> (r: String) {
        cat3("Enum values added: [", join_list_text(&self.values).as_str(), "]")
    }

    fn change_level(&self) -> (r: ChangeLevel) {
        ChangeLevel::Change
    }

    fn context(&self) -> (r: ChangeAnchor) {
        if is_root(&self.property_path) {
            ChangeAnchor::Schema
        } else {
            ChangeAnchor::EnumValues(self.property_path.clone())
        }
    }

    fn category(&self) -> (r: RuleCategory) {
        RuleCategory::Schema
    }
}

impl SchemaRule for EnumValuesAddedRule {
    open spec fn spec_detect(
        schema_name: Seq<char>,
        property_path: Seq<char>,
        base: Option<SchemaNode>,
        current: Option<SchemaNode>,
    ) -> Seq<ViolationView> {
        match (base, current) {
            (Some(b), Some(c)) => enum_additions(schema_name, property_path, b, c),
            _ => Seq::empty(),
        }
    }

    fn detect(
        schema_name: &str,
        property_path: &str,
        base: Option<&SchemaNode>,
        current: Option<&SchemaNode>,
    ) -> (r: Vec<Self>)
        ensures
            match (base, current) {
                (Some(b), Some(c)) => forall|k: int|
                    #![trigger r@[k]]
                    0 <= k < r@.len() ==> {
                        &&& r@[k].schema_name@ == schema_name@
                        &&& r@[k].property_path@ == property_path@
                        &&& string_views(r@[k].values@) == added_values(*b, *c)
                    },
                _ => true,
            },
    {
        let mut r: Vec<Self> = Vec::new();
        if let (Some(b), Some(c)) = (base, current) {
            let values = names_not_in(&c.enum_values, &b.enum_values);
            if values.len() > 0 {
                r.push(
                    EnumValuesAddedRule {
                        schema_name: String::from_str(schema_name),
                        property_path: String::from_str(property_path),
                        values,
                    },
                );
            }
            assert(rule_views(r@) =~= enum_additions(schema_name@, property_path@, *b, *c));
            return r;
        }
        assert(rule_views(r@) =~= Seq::empty());
        r
    }
}

pub open spec fn enum_removed_view(
    schema: Seq<char>,
    path: Seq<char>,
    values: Seq<Seq<char>>,
) -> ViolationView {
    ViolationView {
        name: "EnumValuesRemoved"@,
        description: "Enum values removed: ["@ + join_list(values) + "]"@,
        change_level: ChangeLevel::Breaking,
        context: root_or(path, AnchorView::EnumValues(path)),
        category: RuleCategory::Schema,
    }
}

/// The enumerated values that only `b` has.
pub open spec fn removed_values(b: SchemaNode, c: SchemaNode) -> Seq<Seq<char>> {
    fresh_names(string_views(b.enum_values@), string_views(c.enum_values@))
}

/// What the enum-removed rule finds between two nodes.
pub open spec fn enum_removals(
    schema: Seq<char>,
    path: Seq<char>,
    b: SchemaNode,
    c: SchemaNode,
) -> Seq<ViolationView> {
    if removed_values(b, c).len() > 0 {
        seq![enum_removed_view(schema, path, removed_values(b, c))]
    } else {
        Seq::empty()
    }
}

/// Values that only the base node enumerates; each value is its JSON text.
#[derive(Debug, Clone)]
pub struct EnumValuesRemovedRule {
    pub schema_name: String,
    pub property_path: String,
    pub values: Vec<String>,
}

impl EnumValuesRemovedRule {
    pub open spec fn view_of(&self) -> ViolationView {
        enum_removed_view(self.schema_name@, self.property_path@, string_views(self.values@))
    }
}

impl Rule for EnumValuesRemovedRule {
    open spec fn spec_name(&self) -> Seq<char> {
        self.view_of().name
    }

    open spec fn spec_description(&self) -> Seq<char> {
        self.view_of().description
    }

    open spec fn spec_change_level(&self) -> ChangeLevel {
        self.view_of().change_level
    }

    open spec fn spec_context(&self) -> AnchorView {
        self.view_of().context
    }

    open spec fn spec_category(&self) -> RuleCategory {
        self.view_of().category
    }

    fn name(&self) -> (r: &str) {
        "EnumValuesRemoved"
    }

    fn description(&self) -> (r: String) {
        cat3("Enum values removed: [", join_list_text(&self.values).as_str(), "]")
    }

    fn change_level(&self) -> (r: ChangeLevel) {
        ChangeLevel::Breaking
    }

    fn context(&self) -> (r: ChangeAnchor) {
        if is_root(&self.property_path) {
            ChangeAnchor::Schema
        } else {
            ChangeAnchor::EnumValues(self.property_path.clone())
        }
    }

    fn category(&self) -> (r: RuleCategory) {
        RuleCategory::Schema
    }
}

impl SchemaRule for EnumValuesRemovedRule {
    open spec fn spec_detect(
        schema_name: Seq<char>,
        property_path: Seq<char>,
        base: Option<SchemaNode>,
        current: Option<SchemaNode>,
    ) -> Seq<ViolationView> {
        match (base, current) {
            (Some(b), Some(c)) => enum_removals(schema_name, property_path, b, c),
            _ => Seq::empty(),
        }
    }

    fn detect(
        schema_name: &str,
        property_path: &str,
        base: Option<&SchemaNode>,
        current: Option<&SchemaNode>,
    ) -> (r: Vec<Self>)
        ensures
            match (base, current) {
                (Some(b), Some(c)) => forall|k: int|
                    #![trigger r@[k]]
                    0 <= k < r@.len() ==> {
                        &&& r@[k].schema_name@ == schema_name@
                        &&& r@[k].property_path@ == property_path@
                        &&& string_views(r@[k].values@) == removed_values(*b, *c)
                    },
                _ => true,
            },
    {
        let mut r: Vec<Self> = Vec::new();
        if let (Some(b), Some(c)) = (base, current) {
            let values = names_not_in(&b.enum_values, &c.enum_values);
            if values.len() > 0 {
                r.push(
                    EnumValuesRemovedRule {
                        schema_name: String::from_str(schema_name),
                        property_path: String::from_str(property_path),
                        values,
                    },
                );
            }
            assert(rule_views(r@) =~= enum_removals(schema_name@, property_path@, *b, *c));
            return r;
        }
        assert(rule_views(r@) =~= Seq::empty());
        r
    }
}

// ---------------------------------------------------------------------------
// Format changed
// ---------------------------------------------------------------------------

pub open spec fn format_changed_view(
    schema: Seq<char>,
    path: Seq<char>,
    old_format: Option<Seq<char>>,
    new_format: Option<Seq<char>>,
) -> ViolationView {
    ViolationView {
        name: "FormatChanged"@,
        description: "Format changed from '"@ + opt_text(old_format) + "' to '"@ + opt_text(
            new_format,
        ) + "'"@,
        change_level: ChangeLevel::Warning,
        context: root_or(path, AnchorView::Format(path)),
        category: RuleCategory::Schema,
    }
}

/// What the format rule finds between two nodes.
pub open spec fn format_changes(
    schema: Seq<char>,
    path: Seq<char>,
    b: SchemaNode,
    c: SchemaNode,
) -> Seq<ViolationView> {
    if opt_view(b.format) != opt_view(c.format) {
        seq![format_changed_view(schema, path, opt_view(b.format), opt_view(c.format))]
    } else {
        Seq::empty()
    }
}

/// The format string differs.
#[derive(Debug, Clone)]
pub struct FormatChangedRule {
    pub schema_name: String,
    pub property_path: String,
    pub old_format: Option<String>,
    pub new_format: Option<String>,
}

impl FormatChangedRule {
    pub open spec fn view_of(&self) -> ViolationView {
        format_changed_view(
            self.schema_name@,
            self.property_path@,
            opt_view(self.old_format),
            opt_view(self.new_format),
        )
    }
}

impl Rule for FormatChangedRule {
    open spec fn spec_name(&self) -> Seq<char> {
        self.view_of().name
    }

    open spec fn spec_description(&self) -> Seq<char> {
        self.view_of().description
    }

    open spec fn spec_change_level(&self) -> ChangeLevel {
        self.view_of().change_level
    }

    open spec fn spec_context(&self) -> AnchorView {
        self.view_of().context
    }

    open spec fn spec_category(&self) -> RuleCategory {
        self.view_of().category
    }

    fn name(&self) -> (r: &str) {
        "FormatChanged"
    }

    fn description(&self) -> (r: String) {
        cat3("Format changed from '", opt_text_of(&self.old_format), "' to '").concat(
            opt_text_of(&self.new_format),
        ).concat("'")
    }

    fn change_level(&self) -> (r: ChangeLevel) {
        ChangeLevel::Warning
    }

    fn context(&self) -> (r: ChangeAnchor) {
        if is_root(&self.property_path) {
            ChangeAnchor::Schema
        } else {
            ChangeAnchor::Format(self.property_path.clone())
        }
    }

    fn category(&self) -> (r: RuleCategory) {
        RuleCategory::Schema
    }
}

impl SchemaRule for FormatChangedRule {
    open spec fn spec_detect(
        schema_name: Seq<char>,
        property_path: Seq<char>,
        base: Option<SchemaNode>,
        current: Option<SchemaNode>,
    ) -> Seq<ViolationView> {
        match (base, current) {
            (Some(b), Some(c)) => format_changes(schema_name, property_path, b, c),
            _ => Seq::empty(),
        }
    }

    fn detect(
        schema_name: &str,
        property_path: &str,
        base: Option<&SchemaNode>,
        current: Option<&SchemaNode>,
    ) -> (r: Vec<Self>)
        ensures
            match (base, current) {
                (Some(b), Some(c)) => forall|k: int|
                    #![trigger r@[k]]
                    0 <= k < r@.len() ==> {
                        &&& r@[k].schema_name@ == schema_name@
                        &&& r@[k].property_path@ == property_path@
                        &&& opt_view(r@[k].old_format) == opt_view(b.format)
                        &&& opt_view(r@[k].new_format) == opt_view(c.format)
                    },
                _ => true,
            },
    {
        let mut r: Vec<Self> = Vec::new();
        if let (Some(b), Some(c)) = (base, current) {
            if !same_opt_text(&b.format, &c.format) {
                r.push(
                    FormatChangedRule {
                        schema_name: String::from_str(schema_name),
                        property_path: String::from_str(property_path),
                        old_format: b.format.clone(),
                        new_format: c.format.clone(),
                    },
                );
            }
            assert(rule_views(r@) =~= format_changes(schema_name@, property_path@, *b, *c));
            return r;
        }
        assert(rule_views(r@) =~= Seq::empty());
        r
    }
}

// ---------------------------------------------------------------------------
// Nullable changed
// ---------------------------------------------------------------------------

/// The severity of a nullable transition: losing null breaks clients that
/// send it, gaining null may surprise clients that read it.
pub open spec fn nullable_level(old_nullable: bool, new_nullable: bool) -> ChangeLevel {
    if old_nullable && !new_nullable {
        ChangeLevel::Breaking
    } else if !old_nullable && new_nullable {
        ChangeLevel::Warning
    } else {
        ChangeLevel::Change
    }
}

pub open spec fn nullable_changed_view(
    schema: Seq<char>,
    path: Seq<char>,
    old_nullable: bool,
    new_nullable: bool,
) -> ViolationView {
    ViolationView {
        name: "NullableChanged"@,
        description: "Nullable changed from "@ + bool_text(old_nullable) + " to "@ + bool_text(
            new_nullable,
        ),
        change_level: nullable_level(old_nullable, new_nullable),
        context: root_or(path, AnchorView::Nullable(path)),
        category: RuleCategory::Schema,
    }
}

/// Whether a node admits null, taking a node without a type as not nullable.
pub open spec fn nullable_flag(n: SchemaNode) -> bool {
    match spec_is_nullable(types_view(n.schema_type)) {
        Some(x) => x,
        None => false,
    }
}

/// What the nullable rule finds between two nodes.
pub open spec fn nullable_changes(
    schema: Seq<char>,
    path: Seq<char>,
    b: SchemaNode,
    c: SchemaNode,
) -> Seq<ViolationView> {
    if nullable_flag(b) != nullable_flag(c) {
        seq![nullable_changed_view(schema, path, nullable_flag(b), nullable_flag(c))]
    } else {
        Seq::empty()
    }
}

/// The nullable flag differs.
#[derive(Debug, Clone)]
pub struct NullableChangedRule {
    pub schema_name: String,
    pub property_path: String,
    pub old_nullable: bool,
    pub new_nullable: bool,
}

impl NullableChangedRule {
    pub open spec fn view_of(&self) -> ViolationView {
        nullable_changed_view(
            self.schema_name@,
            self.property_path@,
            self.old_nullable,
            self.new_nullable,
        )
    }
}

fn nullable_of(n: &SchemaNode) -> (r: bool)
    ensures
        r == nullable_flag(*n),
{
    match n.is_nullable() {
        Some(x) => x,
        None => false,
    }
}

impl Rule for NullableChangedRule {
    open spec fn spec_name(&self) -> Seq<char> {
        self.view_of().name
    }

    open spec fn spec_description(&self) -> Seq<char> {
        self.view_of().description
    }

    open spec fn spec_change_level(&self) -> ChangeLevel {
        self.view_of().change_level
    }

    open spec fn spec_context(&self) -> AnchorView {
        self.view_of().context
    }

    open spec fn spec_category(&self) -> RuleCategory {
        self.view_of().category
    }

    fn name(&self) -> (r: &str) {
        "NullableChanged"
    }

    fn description(&self) -> (r: String) {
        cat3("Nullable changed from ", bool_text_of(self.old_nullable), " to ").concat(
            bool_text_of(self.new_nullable),
        )
    }

    fn change_level(&self) -> (r: ChangeLevel) {
        if self.old_nullable && !self.new_nullable {
            ChangeLevel::Breaking
        } else if !self.old_nullable && self.new_nullable {
            ChangeLevel::Warning
        } else {
            ChangeLevel::Change
        }
    }

    fn context(&self) -> (r: ChangeAnchor) {
        if is_root(&self.property_path) {
            ChangeAnchor::Schema
        } else {
            ChangeAnchor::Nullable(self.property_path.clone())
        }
    }

    fn category(&self) -> (r: RuleCategory) {
        RuleCategory::Schema
    }
}

impl SchemaRule for NullableChangedRule {
    open spec fn spec_detect(
        schema_name: Seq<char>,
        property_path: Seq<char>,
        base: Option<SchemaNode>,
        current: Option<SchemaNode>,
    ) -> Seq<ViolationView> {
        match (base, current) {
            (Some(b), Some(c)) => nullable_changes(schema_name, property_path, b, c),
            _ => Seq::empty(),
        }
    }

    fn detect(
        schema_name: &str,
        property_path: &str,
        base: Option<&SchemaNode>,
        current: Option<&SchemaNode>,
    ) -> (r: Vec<Self>)
        ensures
            match (base, current) {
                (Some(b), Some(c)) => forall|k: int|
                    #![trigger r@[k]]
                    0 <= k < r@.len() ==> {
                        &&& r@[k].schema_name@ == schema_name@
                        &&& r@[k].property_path@ == property_path@
                        &&& r@[k].old_nullable == nullable_flag(*b)
                        &&& r@[k].new_nullable == nullable_flag(*c)
                    },
                _ => true,
            },
    {
        let mut r: Vec<Self> = Vec::new();
        if let (Some(b), Some(c)) = (base, current) {
            let old_nullable = nullable_of(b);
            let new_nullable = nullable_of(c);
            if old_nullable != new_nullable {
                r.push(
                    NullableChangedRule {
                        schema_name: String::from_str(schema_name),
                        property_path: String::from_str(property_path),
                        old_nullable,
                        new_nullable,
                    },
                );
            }
            assert(rule_views(r@) =~= nullable_changes(schema_name@, property_path@, *b, *c));
            return r;
        }
        assert(rule_views(r@) =~= Seq::empty());
        r
    }
}

// ---------------------------------------------------------------------------
// Array items changed
// ---------------------------------------------------------------------------

pub open spec fn array_items_view(
    schema: Seq<char>,
    path: Seq<char>,
    change: Seq<char>,
) -> ViolationView {
    ViolationView {
        name: "ArrayItemsChanged"@,
        description: "Array items changed: "@ + change,
        change_level: ChangeLevel::Warning,
        context: root_or(path, AnchorView::ArrayItems(path)),
        category: RuleCategory::Schema,
    }
}

/// The array item schema changed. The comparison of item schemas is not
/// performed, so this rule never fires on its own.
#[derive(Debug, Clone)]
pub struct ArrayItemsChangedRule {
    pub schema_name: String,
    pub property_path: String,
    pub change_description: String,
}

impl ArrayItemsChangedRule {
    pub open spec fn view_of(&self) -> ViolationView {
        array_items_view(self.schema_name@, self.property_path@, self.change_description@)
    }
}

impl Rule for ArrayItemsChangedRule {
    open spec fn spec_name(&self) -> Seq<char> {
        self.view_of().name
    }

    open spec fn spec_description(&self) -> Seq<char> {
        self.view_of().description
    }

    open spec fn spec_change_level(&self) -> ChangeLevel {
        self.view_of().change_level
    }

    open spec fn spec_context(&self) -> AnchorView {
        self.view_of().context
    }

    open spec fn spec_category(&self) -> RuleCategory {
        self.view_of().category
    }

    fn name(&self) -> (r: &str) {
        "ArrayItemsChanged"
    }

    fn description(&self) -> (r: String) {
        cat("Array items changed: ", self.change_description.as_str())
    }

    fn change_level(&self) -> (r: ChangeLevel) {
        ChangeLevel::Warning
    }

    fn context(&self) -> (r: ChangeAnchor) {
        if is_root(&self.property_path) {
            ChangeAnchor::Schema
        } else {
            ChangeAnchor::ArrayItems(self.property_path.clone())
        }
    }

    fn category(&self) -> (r: RuleCategory) {
        RuleCategory::Schema
    }
}

impl SchemaRule for ArrayItemsChangedRule {
    open spec fn spec_detect(
        schema_name: Seq<char>,
        property_path: Seq<char>,
        base: Option<SchemaNode>,
        current: Option<SchemaNode>,
    ) -> Seq<ViolationView> {
        Seq::empty()
    }

    /// Item schemas are not compared: nothing is reported.
    fn detect(
        schema_name: &str,
        property_path: &str,
        base: Option<&SchemaNode>,
        current: Option<&SchemaNode>,
    ) -> (r: Vec<Self>) {
        let r: Vec<Self> = Vec::new();
        assert(rule_views(r@) =~= Seq::empty());
        r
    }
}

} // verus!
