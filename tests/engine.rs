use apidrift::format::{detect_format, format_for_extension};
use apidrift::matcher::{RouteMatcher, SchemaLocation, SchemaMatcher};
use apidrift::model::{
    Document, MediaEntry, Operation, Parameter, ParameterLocation, PathItem, ResponseEntry,
    SchemaNode, SchemaRef, SchemaType, TypeSet,
};
use apidrift::rules::route::{
    RequestSchemaChangedRule, ResponseSchemaChangedRule, RouteDescriptionChangedRule, RouteRule,
};
use apidrift::rules::schema::{PropertyRemovedRule, SchemaAddedRule, TypeChangedRule};
use apidrift::rules::{calculate_overall_change_level, ChangeAnchor, MatchResult, RuleViolation};
use apidrift::rules::Rule;
use apidrift::ChangeLevel;

fn node(t: Option<TypeSet>) -> SchemaNode {
    SchemaNode {
        schema_type: t,
        properties: vec![],
        required: vec![],
        description: None,
        enum_values: vec![],
        format: None,
        items: None,
    }
}

fn typed(t: SchemaType) -> SchemaNode {
    node(Some(TypeSet::Single(t)))
}

fn inline(n: SchemaNode) -> SchemaRef {
    SchemaRef::Inline(Box::new(n))
}

fn pointer(name: &str) -> SchemaRef {
    SchemaRef::Pointer(format!("#/components/schemas/{}", name))
}

fn object(props: Vec<(&str, SchemaRef)>, required: &[&str]) -> SchemaNode {
    let mut n = typed(SchemaType::Object);
    n.properties = props.into_iter().map(|(k, v)| (k.to_string(), v)).collect();
    n.required = required.iter().map(|r| r.to_string()).collect();
    n
}

fn doc(schemas: Vec<(&str, SchemaRef)>, paths: Vec<(&str, PathItem)>) -> Document {
    Document {
        schemas: schemas.into_iter().map(|(k, v)| (k.to_string(), v)).collect(),
        paths: paths.into_iter().map(|(k, v)| (k.to_string(), v)).collect(),
    }
}

fn empty_item() -> PathItem {
    PathItem { get: None, put: None, post: None, delete: None, options: None, head: None, patch: None }
}

fn get_item(op: Operation) -> PathItem {
    let mut item = empty_item();
    item.get = Some(op);
    item
}

fn operation(responses: &[&str]) -> Operation {
    Operation {
        summary: None,
        description: None,
        parameters: vec![],
        request_body: None,
        responses: Some(
            responses
                .iter()
                .map(|s| ResponseEntry { status_code: s.to_string(), content: Some(vec![]) })
                .collect(),
        ),
    }
}

fn schema_results(base: &Document, current: &Document) -> Vec<MatchResult> {
    SchemaMatcher::new(&base.schemas, &current.schemas, base, current).match_schemas()
}

fn names_of(r: &MatchResult) -> Vec<String> {
    r.violations.iter().map(|v| v.name().to_string()).collect()
}

#[test]
fn added_schema_has_one_change_violation() {
    let base = doc(vec![], vec![]);
    let current = doc(vec![("User", inline(object(vec![("id", inline(typed(SchemaType::Integer)))], &["id"])))], vec![]);
    let results = schema_results(&base, &current);
    assert_eq!(results.len(), 1);
    assert_eq!(results[0].name, "User");
    assert_eq!(names_of(&results[0]), vec!["SchemaAdded"]);
    assert_eq!(results[0].change_level, ChangeLevel::Change);
    assert_eq!(results[0].violations[0].description(), "Schema 'User' was added");
    assert_eq!(results[0].violations[0].context(), ChangeAnchor::Schema);
}

#[test]
fn removed_schema_has_one_breaking_violation() {
    let base = doc(vec![("User", inline(typed(SchemaType::Object)))], vec![]);
    let current = doc(vec![], vec![]);
    let results = schema_results(&base, &current);
    assert_eq!(results.len(), 1);
    assert_eq!(names_of(&results[0]), vec!["SchemaRemoved"]);
    assert_eq!(results[0].change_level, ChangeLevel::Breaking);
    assert_eq!(results[0].violations[0].description(), "Schema 'User' was removed");
}

#[test]
fn unchanged_schemas_give_no_result() {
    let base = doc(vec![("User", inline(object(vec![("id", inline(typed(SchemaType::Integer)))], &["id"])))], vec![]);
    let current = doc(vec![("User", inline(object(vec![("id", inline(typed(SchemaType::Integer)))], &["id"])))], vec![]);
    assert!(schema_results(&base, &current).is_empty());
}

#[test]
fn property_fully_removed_is_breaking() {
    // base {User: {properties: {id, name}, required: [id]}}, current {User: {properties: {id}, required: [id]}}
    let base = doc(
        vec![(
            "User",
            inline(object(
                vec![("id", inline(typed(SchemaType::Integer))), ("name", inline(typed(SchemaType::String)))],
                &["id"],
            )),
        )],
        vec![],
    );
    let current = doc(
        vec![("User", inline(object(vec![("id", inline(typed(SchemaType::Integer)))], &["id"])))],
        vec![],
    );
    let results = schema_results(&base, &current);
    assert_eq!(results.len(), 1);
    assert_eq!(names_of(&results[0]), vec!["PropertyRemoved"]);
    let v = &results[0].violations[0];
    assert_eq!(v.description(), "Property 'name' was removed");
    assert_eq!(v.change_level(), ChangeLevel::Breaking);
    assert_eq!(v.context(), ChangeAnchor::Property("name".to_string()));
    assert_eq!(results[0].change_level, ChangeLevel::Breaking);
}

#[test]
fn required_property_removed_entirely_is_breaking() {
    let base = doc(
        vec![("User", inline(object(vec![("email", inline(typed(SchemaType::String)))], &["email"])))],
        vec![],
    );
    let current = doc(vec![("User", inline(object(vec![], &[])))], vec![]);
    let results = schema_results(&base, &current);
    assert_eq!(names_of(&results[0]), vec!["RequiredPropertyRemoved"]);
    assert_eq!(results[0].violations[0].change_level(), ChangeLevel::Breaking);
    assert_eq!(results[0].violations[0].context(), ChangeAnchor::Required);
}

#[test]
fn property_made_optional_is_change() {
    let base = doc(
        vec![("User", inline(object(vec![("email", inline(typed(SchemaType::String)))], &["email"])))],
        vec![],
    );
    let current = doc(
        vec![("User", inline(object(vec![("email", inline(typed(SchemaType::String)))], &[])))],
        vec![],
    );
    let results = schema_results(&base, &current);
    assert_eq!(names_of(&results[0]), vec!["RequiredPropertyRemoved"]);
    assert_eq!(results[0].violations[0].change_level(), ChangeLevel::Change);
    assert_eq!(results[0].violations[0].description(), "Required property 'email' was removed");
    assert_eq!(results[0].change_level, ChangeLevel::Change);
}

fn nullable_doc(nullable: bool) -> Document {
    let age = if nullable {
        node(Some(TypeSet::Multiple(vec![SchemaType::Integer, SchemaType::Null])))
    } else {
        node(None)
    };
    doc(vec![("User", inline(object(vec![("age", inline(age))], &[])))], vec![])
}

#[test]
fn nullable_true_to_false_is_breaking() {
    let results = schema_results(&nullable_doc(true), &nullable_doc(false));
    let v = results[0].violations.iter().find(|v| v.name() == "NullableChanged").unwrap();
    assert_eq!(v.change_level(), ChangeLevel::Breaking);
    assert_eq!(v.description(), "Nullable changed from true to false");
    assert_eq!(v.context(), ChangeAnchor::Nullable("age".to_string()));
}

#[test]
fn nullable_false_to_true_is_warning() {
    let results = schema_results(&nullable_doc(false), &nullable_doc(true));
    let v = results[0].violations.iter().find(|v| v.name() == "NullableChanged").unwrap();
    assert_eq!(v.change_level(), ChangeLevel::Warning);
    assert_eq!(v.description(), "Nullable changed from false to true");
}

#[test]
fn nullable_unchanged_gives_no_violation() {
    let results = schema_results(&nullable_doc(true), &nullable_doc(true));
    assert!(results.is_empty());
}

#[test]
fn type_change_message_names_both_type_sets() {
    let base = doc(vec![("T", inline(typed(SchemaType::String)))], vec![]);
    let current = doc(
        vec![("T", inline(node(Some(TypeSet::Multiple(vec![SchemaType::String, SchemaType::Null])))))],
        vec![],
    );
    let results = schema_results(&base, &current);
    let v = results[0].violations.iter().find(|v| v.name() == "TypeChanged").unwrap();
    assert_eq!(
        v.description(),
        "Type changed from 'Some(Single(String))' to 'Some(Multiple([String, Null]))'"
    );
    assert_eq!(v.context(), ChangeAnchor::Schema);
}

#[test]
fn enum_and_format_messages() {
    let mut b = typed(SchemaType::String);
    b.enum_values = vec!["\"a\"".to_string()];
    b.format = Some("email".to_string());
    let mut c = typed(SchemaType::String);
    c.enum_values = vec!["\"a\"".to_string(), "\"b\"".to_string(), "\"c\"".to_string()];
    let results = schema_results(&doc(vec![("E", inline(b))], vec![]), &doc(vec![("E", inline(c))], vec![]));
    let descs: Vec<String> = results[0].violations.iter().map(|v| v.description()).collect();
    assert!(descs.contains(&"Enum values added: [\"b\", \"c\"]".to_string()));
    assert!(descs.contains(&"Format changed from 'email' to '(none)'".to_string()));
    assert_eq!(results[0].change_level, ChangeLevel::Warning);
}

#[test]
fn nested_property_paths_are_dotted() {
    let street = |t| inline(object(vec![("street", inline(typed(t)))], &[]));
    let base = doc(vec![("User", inline(object(vec![("address", street(SchemaType::String))], &[])))], vec![]);
    let current = doc(vec![("User", inline(object(vec![("address", street(SchemaType::Integer))], &[])))], vec![]);
    let results = schema_results(&base, &current);
    let v = &results[0].violations[0];
    assert_eq!(v.name(), "TypeChanged");
    assert_eq!(v.context(), ChangeAnchor::PropertyType("address.street".to_string()));
    assert_eq!(v.context().property_path(), Some("address.street"));
    assert!(v.context().is_property_level());
    assert!(!v.context().is_schema_level());
}

#[test]
fn self_referential_schema_stops_at_the_depth_cap() {
    let make = |format: &str| {
        let mut n = object(vec![("next", pointer("Node"))], &[]);
        n.format = Some(format.to_string());
        doc(vec![("Node", inline(n))], vec![])
    };
    let results = schema_results(&make("a"), &make("b"));
    assert_eq!(results.len(), 1);
    let formats = results[0].violations.iter().filter(|v| v.name() == "FormatChanged").count();
    assert_eq!(formats, 30);
    assert_eq!(results[0].violations.len(), 30);
}

#[test]
fn pointer_to_pointer_does_not_resolve() {
    let base = doc(vec![("A", pointer("B")), ("B", inline(typed(SchemaType::String)))], vec![]);
    let current = doc(vec![("A", pointer("B")), ("B", inline(typed(SchemaType::Integer)))], vec![]);
    let results = schema_results(&base, &current);
    // B is compared; A refers to B, which resolves, so A is compared too.
    assert_eq!(results.len(), 2);
    let chained = doc(vec![("A", pointer("C")), ("C", pointer("B")), ("B", inline(typed(SchemaType::String)))], vec![]);
    let chained_now = doc(vec![("A", pointer("C")), ("C", pointer("B")), ("B", inline(typed(SchemaType::String)))], vec![]);
    assert!(schema_results(&chained, &chained_now).is_empty());
    let gone = doc(vec![("A", pointer("C")), ("C", pointer("B"))], vec![]);
    // A points to a pointer and never resolves; C stops resolving once B is gone.
    let results = schema_results(&chained, &gone);
    let names: Vec<&str> = results.iter().map(|r| r.name.as_str()).collect();
    assert_eq!(names, vec!["B", "C"]);
    assert_eq!(names_of(&results[1]), vec!["SchemaRemoved"]);
}

#[test]
fn malformed_pointer_is_skipped() {
    let base = doc(vec![("A", SchemaRef::Pointer("#/definitions/B".to_string()))], vec![]);
    let current = doc(vec![("A", inline(typed(SchemaType::String)))], vec![]);
    let results = schema_results(&base, &current);
    assert_eq!(names_of(&results[0]), vec!["SchemaAdded"]);
}

#[test]
fn aggregate_of_levels() {
    assert_eq!(calculate_overall_change_level(&[]), ChangeLevel::Change);
    let change = RuleViolation::new(&SchemaAddedRule { schema_name: "A".to_string() });
    let breaking = RuleViolation::new(&TypeChangedRule {
        schema_name: "A".to_string(),
        property_path: "".to_string(),
        old_type: "x".to_string(),
        new_type: "y".to_string(),
    });
    let warning = RuleViolation::from_parts(
        "FormatChanged".to_string(),
        "d".to_string(),
        ChangeLevel::Warning,
        ChangeAnchor::Schema,
        apidrift::rules::RuleCategory::Schema,
    );
    assert_eq!(calculate_overall_change_level(&[change]), ChangeLevel::Change);
    let change = RuleViolation::new(&SchemaAddedRule { schema_name: "A".to_string() });
    assert_eq!(calculate_overall_change_level(&[change, warning]), ChangeLevel::Warning);
    let change = RuleViolation::new(&SchemaAddedRule { schema_name: "A".to_string() });
    assert_eq!(calculate_overall_change_level(&[change, breaking]), ChangeLevel::Breaking);
}

#[test]
fn made_optional_rule_record() {
    let rule = PropertyRemovedRule {
        schema_name: "User".to_string(),
        property_path: "address".to_string(),
        property_name: "zip".to_string(),
        was_required: true,
        totally_removed: false,
    };
    let v = RuleViolation::new(&rule);
    assert_eq!(v.name(), "RequiredPropertyRemoved");
    assert_eq!(v.rule().name(), "RequiredPropertyRemoved");
    assert_eq!(v.rule().change_level(), ChangeLevel::Change);
    assert_eq!(v.rule().description(), "Required property 'zip' was removed");
    assert_eq!(v.context(), ChangeAnchor::Property("address".to_string()));
    assert_eq!(rule.category(), apidrift::rules::RuleCategory::Schema);
}

fn user_ref_op() -> Operation {
    let mut op = operation(&["200"]);
    op.request_body = Some(vec![MediaEntry {
        content_type: "application/json".to_string(),
        schema: Some(pointer("User")),
    }]);
    op.responses = Some(vec![ResponseEntry {
        status_code: "200".to_string(),
        content: Some(vec![MediaEntry {
            content_type: "application/json".to_string(),
            schema: Some(pointer("User")),
        }]),
    }]);
    op
}

#[test]
fn unchanged_route_reports_breaking_request_schema() {
    let base = doc(
        vec![("User", inline(object(vec![("id", inline(typed(SchemaType::Integer)))], &[])))],
        vec![("/users", get_item(user_ref_op()))],
    );
    let current = doc(vec![("User", inline(object(vec![], &[])))], vec![("/users", get_item(user_ref_op()))]);
    let schema = schema_results(&base, &current);
    assert_eq!(schema[0].change_level, ChangeLevel::Breaking);
    let routes = RouteMatcher::new(&base, &current).match_routes_with_schema_violations(&schema);
    assert_eq!(routes.len(), 1);
    assert_eq!(routes[0].name, "GET /users");
    assert_eq!(routes[0].change_level, ChangeLevel::Breaking);
    assert_eq!(routes[0].violations.len(), 2);
    let req = &routes[0].violations[0];
    assert_eq!(req.name(), "RequestSchemaViolation");
    assert_eq!(
        req.description(),
        "Request schema 'User' (application/json) - Property 'id' was removed"
    );
    assert_eq!(req.context(), ChangeAnchor::Route);
    let resp = &routes[0].violations[1];
    assert_eq!(resp.name(), "ResponseSchemaViolation");
    assert_eq!(
        resp.description(),
        "Response schema 'User' (application/json) for status 200 - Property 'id' was removed"
    );
    assert_eq!(resp.context(), ChangeAnchor::ResponseStatus("200".to_string()));
    // Without schema results the unchanged route reports nothing.
    assert!(RouteMatcher::new(&base, &current).match_routes().is_empty());
}

#[test]
fn new_required_query_parameter_is_breaking() {
    let base = doc(vec![], vec![("/users", get_item(operation(&["200"])))]);
    let mut op = operation(&["200"]);
    op.parameters = vec![Parameter {
        name: "sort".to_string(),
        location: ParameterLocation::Query,
        required: Some(true),
    }];
    let current = doc(vec![], vec![("/users", get_item(op))]);
    let routes = RouteMatcher::new(&base, &current).match_routes();
    assert_eq!(routes.len(), 1);
    assert_eq!(routes[0].name, "GET /users");
    assert_eq!(names_of(&routes[0]), vec!["RequiredParameterAdded"]);
    assert_eq!(routes[0].violations[0].description(), "Required Parameter Added: sort (in: Query)");
    assert_eq!(routes[0].violations[0].change_level(), ChangeLevel::Breaking);
    assert_eq!(routes[0].change_level, ChangeLevel::Breaking);
}

#[test]
fn removed_response_status_is_warning() {
    let base = doc(vec![], vec![("/users", get_item(operation(&["200", "404"])))]);
    let current = doc(vec![], vec![("/users", get_item(operation(&["200"])))]);
    let routes = RouteMatcher::new(&base, &current).match_routes();
    assert_eq!(routes.len(), 1);
    assert_eq!(names_of(&routes[0]), vec!["ResponseStatusRemoved"]);
    let v = &routes[0].violations[0];
    assert_eq!(v.description(), "Response Status Removed: 404");
    assert_eq!(v.change_level(), ChangeLevel::Warning);
    assert_eq!(v.context(), ChangeAnchor::ResponseStatus("404".to_string()));
    assert_eq!(routes[0].change_level, ChangeLevel::Warning);
}

#[test]
fn route_messages_use_upper_case_methods() {
    let base = doc(vec![], vec![]);
    let mut item = empty_item();
    item.options = Some(operation(&[]));
    let current = doc(vec![], vec![("/ping", item)]);
    let routes = RouteMatcher::new(&base, &current).match_routes();
    assert_eq!(routes[0].name, "OPTIONS /ping");
    assert_eq!(routes[0].violations[0].description(), "Route Added: OPTIONS /ping");
}

#[test]
fn changed_body_schema_names_are_breaking() {
    let mut b = user_ref_op();
    let mut c = user_ref_op();
    b.summary = Some("List".to_string());
    c.request_body = Some(vec![MediaEntry {
        content_type: "application/json".to_string(),
        schema: Some(pointer("Account")),
    }]);
    c.responses = Some(vec![ResponseEntry {
        status_code: "200".to_string(),
        content: Some(vec![MediaEntry {
            content_type: "application/json".to_string(),
            schema: Some(pointer("Account")),
        }]),
    }]);
    let base = doc(vec![], vec![("/users", get_item(b))]);
    let current = doc(vec![], vec![("/users", get_item(c))]);
    let routes = RouteMatcher::new(&base, &current).match_routes();
    let descs: Vec<String> = routes[0].violations.iter().map(|v| v.description()).collect();
    assert_eq!(
        descs,
        vec![
            "Request schema 'Account' changed".to_string(),
            "Response schema 'Account' changed for status 200".to_string(),
        ]
    );
    assert_eq!(routes[0].change_level, ChangeLevel::Breaking);
}

#[test]
fn all_routes_list_their_schemas() {
    let mut item = get_item(user_ref_op());
    item.post = Some(operation(&["201"]));
    let current = doc(vec![], vec![("/users", item)]);
    let base = doc(vec![], vec![]);
    let infos = RouteMatcher::new(&base, &current).get_all_routes_with_schemas();
    assert_eq!(infos.len(), 2);
    assert_eq!(infos[0].method, "get");
    assert_eq!(infos[0].path, "/users");
    assert_eq!(infos[0].request_schemas.len(), 1);
    assert_eq!(infos[0].request_schemas[0].schema_name, "User");
    assert!(matches!(infos[0].request_schemas[0].location, SchemaLocation::RequestBody));
    assert!(matches!(&infos[0].response_schemas[0].location, SchemaLocation::Response(c) if c == "200"));
    assert_eq!(infos[1].method, "post");
    assert!(infos[1].request_schemas.is_empty());
}

#[test]
fn input_format_from_extension() {
    assert_eq!(detect_format("specs/base.json"), Ok("json"));
    assert_eq!(detect_format("SPEC.YML"), Ok("yaml"));
    assert_eq!(detect_format("api.Yaml"), Ok("yaml"));
    assert_eq!(
        detect_format("spec.txt"),
        Err("Unsupported file format 'txt'. Supported formats: json, yaml, yml".to_string())
    );
    assert_eq!(
        detect_format("spec"),
        Err("Unable to determine file format for: spec".to_string())
    );
    assert_eq!(format_for_extension("yml"), Some("yaml"));
    assert_eq!(format_for_extension("YML"), None);
}

#[test]
fn full_schema_info_lists_required_properties_first() {
    let base = doc(
        vec![(
            "User",
            inline(object(
                vec![
                    ("zeta", inline(typed(SchemaType::String))),
                    ("name", inline(typed(SchemaType::String))),
                    ("id", inline(typed(SchemaType::Integer))),
                ],
                &["id"],
            )),
        )],
        vec![],
    );
    let mut email = typed(SchemaType::String);
    email.format = Some("email".to_string());
    let current = doc(
        vec![(
            "User",
            inline(object(
                vec![
                    ("zeta", inline(typed(SchemaType::Integer))),
                    ("email", inline(email)),
                    ("name", inline(typed(SchemaType::String))),
                    ("id", inline(typed(SchemaType::Integer))),
                ],
                &["name", "id"],
            )),
        )],
        vec![],
    );
    let matcher = SchemaMatcher::new(&base.schemas, &current.schemas, &base, &current);
    let results = matcher.match_schemas();
    let infos = matcher.build_full_schema_infos(&results);
    assert_eq!(infos.len(), 1);
    let info = &infos[0];
    assert_eq!(info.name, "User");
    assert_eq!(info.change_level, "Breaking");
    assert_eq!(info.change_level_class, "breaking");
    let order: Vec<&str> = info.properties.iter().map(|p| p.name.as_str()).collect();
    assert_eq!(order, vec!["id", "name", "email", "zeta"]);
    assert!(info.properties[0].required && info.properties[1].required);
    assert_eq!(info.properties[2].format, Some("email".to_string()));
    assert_eq!(info.properties[3].property_type, Some("Single(Integer)".to_string()));
    assert_eq!(info.properties[3].violations.len(), 1);
    assert_eq!(info.properties[3].violations[0].rule_name, "TypeChanged");
    assert_eq!(info.properties[3].violations[0].anchor, "PropertyType(\"zeta\")");
    assert_eq!(info.properties[3].violations[0].change_level, "Breaking");
    let schema_level: Vec<&str> =
        info.schema_level_violations.iter().map(|v| v.rule_name.as_str()).collect();
    assert_eq!(schema_level, vec!["RequiredPropertyAdded"]);
    assert_eq!(info.schema_level_violations[0].anchor, "Required");
    // The added property's violation is anchored at its path.
    assert_eq!(info.properties[2].violations[0].rule_name, "PropertyAdded");
}

#[test]
fn schema_results_are_sorted_by_name() {
    let base = doc(vec![("Zed", inline(typed(SchemaType::String)))], vec![]);
    let current = doc(
        vec![
            ("Beta", inline(typed(SchemaType::String))),
            ("Alpha", inline(typed(SchemaType::String))),
            ("alpha", inline(typed(SchemaType::String))),
        ],
        vec![],
    );
    let names: Vec<String> = schema_results(&base, &current).into_iter().map(|r| r.name).collect();
    assert_eq!(names, vec!["Alpha", "Beta", "Zed", "alpha"]);
}

#[test]
fn route_results_are_sorted_by_name() {
    let mut users = empty_item();
    users.post = Some(operation(&[]));
    users.get = Some(operation(&[]));
    let current = doc(vec![], vec![("/users", users), ("/accounts", get_item(operation(&[])))]);
    let base = doc(vec![], vec![]);
    let names: Vec<String> = RouteMatcher::new(&base, &current)
        .match_routes()
        .into_iter()
        .map(|r| r.name)
        .collect();
    assert_eq!(names, vec!["GET /accounts", "GET /users", "POST /users"]);
}

#[test]
fn rule_records_carry_their_fields() {
    let mut b = user_ref_op();
    let mut c = user_ref_op();
    b.description = Some("old".to_string());
    c.description = Some("new".to_string());
    c.request_body = Some(vec![MediaEntry {
        content_type: "application/xml".to_string(),
        schema: Some(pointer("Other")),
    }]);
    c.responses = Some(vec![ResponseEntry {
        status_code: "200".to_string(),
        content: Some(vec![MediaEntry {
            content_type: "application/json".to_string(),
            schema: Some(pointer("Account")),
        }]),
    }]);
    let req = RequestSchemaChangedRule::detect("/u", "get", Some(&b), Some(&c));
    assert!(req.is_empty());
    let resp = ResponseSchemaChangedRule::detect("/u", "get", Some(&b), Some(&c));
    assert_eq!(resp.len(), 1);
    assert_eq!(resp[0].content_type, "application/json");
    assert_eq!(resp[0].status_code, "200");
    assert_eq!(resp[0].schema_name, "Account");
    assert_eq!(resp[0].path, "/u");
    assert_eq!(resp[0].method, "get");
    let d = RouteDescriptionChangedRule::detect("/u", "get", Some(&b), Some(&c));
    assert_eq!(d[0].old_description, "old");
    assert_eq!(d[0].new_description, "new");
}
