use apidrift::matcher::RouteMatcher;
use apidrift::model::{Document, Operation, Parameter, ParameterLocation, PathItem, ResponseEntry};
use apidrift::rules::route::{
    ParameterRemovedRule, RequiredParameterAddedRule, ResponseStatusAddedRule,
    ResponseStatusRemovedRule, RouteAddedRule, RouteDescriptionChangedRule, RouteRemovedRule,
    RouteRule, RouteSummaryChangedRule,
};
use apidrift::ChangeLevel;

fn param(name: &str, location: ParameterLocation, required: bool) -> Parameter {
    Parameter { name: name.to_string(), location, required: Some(required) }
}

fn response(status: &str) -> ResponseEntry {
    ResponseEntry { status_code: status.to_string(), content: Some(vec![]) }
}

fn operation() -> Operation {
    Operation {
        summary: None,
        description: None,
        parameters: vec![],
        request_body: None,
        responses: Some(vec![]),
    }
}

fn create_spec() -> Document {
    Document { schemas: vec![], paths: vec![] }
}

fn add_path(spec: &mut Document, path: &str, method: &str, op: Operation) {
    let index = match spec.paths.iter().position(|(p, _)| p == path) {
        Some(i) => i,
        None => {
            spec.paths.push((
                path.to_string(),
                PathItem {
                    get: None,
                    put: None,
                    post: None,
                    delete: None,
                    options: None,
                    head: None,
                    patch: None,
                },
            ));
            spec.paths.len() - 1
        }
    };
    let item = &mut spec.paths[index].1;
    match method {
        "get" => item.get = Some(op),
        "post" => item.post = Some(op),
        "put" => item.put = Some(op),
        "delete" => item.delete = Some(op),
        "patch" => item.patch = Some(op),
        "head" => item.head = Some(op),
        "options" => item.options = Some(op),
        _ => panic!("Unsupported HTTP method: {}", method),
    }
}

fn get_op<'a>(spec: &'a Document, path: &str) -> Option<&'a Operation> {
    spec.paths.iter().find(|(p, _)| p == path).and_then(|(_, item)| item.get.as_ref())
}

#[test]
fn test_route_added_rule_detection() {
    let base = create_spec();
    let mut current = create_spec();
    let mut op = operation();
    op.responses = Some(vec![response("200")]);
    add_path(&mut current, "/users", "get", op);

    let matcher = RouteMatcher::new(&base, &current);
    let results = matcher.match_routes();

    let route_result = results.iter().find(|r| r.name == "GET /users");
    assert!(route_result.is_some(), "Should detect new route");
    let route = route_result.unwrap();
    assert_eq!(route.change_level, ChangeLevel::Change);
    let has_route_added = route.violations.iter().any(|v| v.name() == "RouteAdded");
    assert!(has_route_added, "Should have RouteAdded violation");
}

#[test]
fn test_route_added_rule_no_detection() {
    let mut base = create_spec();
    let mut current = create_spec();
    add_path(&mut base, "/users", "get", operation());
    add_path(&mut current, "/users", "get", operation());

    let violations =
        RouteAddedRule::detect("/users", "get", get_op(&base, "/users"), get_op(&current, "/users"));

    assert_eq!(violations.len(), 0, "Should not detect route as added");
}

#[test]
fn test_route_removed_rule_detection() {
    let mut base = create_spec();
    let current = create_spec();
    let mut op = operation();
    op.responses = Some(vec![response("204")]);
    add_path(&mut base, "/users/{id}", "delete", op);

    let matcher = RouteMatcher::new(&base, &current);
    let results = matcher.match_routes();

    let route_result = results.iter().find(|r| r.name == "DELETE /users/{id}");
    assert!(route_result.is_some(), "Should detect removed route");
    let route = route_result.unwrap();
    assert_eq!(route.change_level, ChangeLevel::Breaking);
    let has_route_removed = route.violations.iter().any(|v| v.name() == "RouteRemoved");
    assert!(has_route_removed, "Should have RouteRemoved violation");
}

#[test]
fn test_route_removed_rule_no_detection() {
    let mut base = create_spec();
    let mut current = create_spec();
    add_path(&mut base, "/users", "get", operation());
    add_path(&mut current, "/users", "get", operation());

    let violations = RouteRemovedRule::detect(
        "/users",
        "get",
        get_op(&base, "/users"),
        get_op(&current, "/users"),
    );

    assert_eq!(violations.len(), 0, "Should not detect route as removed");
}

#[test]
fn test_route_summary_changed_rule_detection() {
    let mut base = create_spec();
    let mut current = create_spec();
    let mut base_op = operation();
    base_op.summary = Some("Get users".to_string());
    base_op.responses = Some(vec![response("200")]);
    let mut current_op = operation();
    current_op.summary = Some("Get all users".to_string());
    current_op.responses = Some(vec![response("200")]);
    add_path(&mut base, "/users", "get", base_op);
    add_path(&mut current, "/users", "get", current_op);

    let matcher = RouteMatcher::new(&base, &current);
    let results = matcher.match_routes();

    let route_result = results.iter().find(|r| r.name == "GET /users");
    assert!(route_result.is_some());
    let route = route_result.unwrap();
    let has_summary_changed = route.violations.iter().any(|v| v.name() == "RouteSummaryChanged");
    assert!(has_summary_changed, "Should detect summary change in GET /users");
    assert_eq!(route.change_level, ChangeLevel::Change);
}

#[test]
fn test_route_summary_changed_rule_no_detection() {
    let mut base_op = operation();
    base_op.summary = Some("Same".to_string());
    let mut current_op = operation();
    current_op.summary = Some("Same".to_string());

    let violations =
        RouteSummaryChangedRule::detect("/users", "get", Some(&base_op), Some(&current_op));

    assert_eq!(
        violations.len(),
        0,
        "Should not detect change when summaries are identical"
    );
}

#[test]
fn test_route_description_changed_rule_detection() {
    let mut base = create_spec();
    let mut current = create_spec();
    let mut base_op = operation();
    base_op.description = Some("Returns a list of users".to_string());
    base_op.responses = Some(vec![response("200")]);
    let mut current_op = operation();
    current_op.description = Some("Returns a paginated list of users".to_string());
    current_op.responses = Some(vec![response("200")]);
    add_path(&mut base, "/users", "get", base_op);
    add_path(&mut current, "/users", "get", current_op);

    let matcher = RouteMatcher::new(&base, &current);
    let results = matcher.match_routes();

    let route_result = results.iter().find(|r| r.name == "GET /users");
    assert!(route_result.is_some());
    let route = route_result.unwrap();
    let has_description_changed =
        route.violations.iter().any(|v| v.name() == "RouteDescriptionChanged");
    assert!(has_description_changed, "Should detect description change");
    assert_eq!(route.change_level, ChangeLevel::Change);
}

#[test]
fn test_route_description_changed_rule_no_detection_when_empty() {
    let mut base_op = operation();
    base_op.summary = Some("Summary".to_string());
    let mut current_op = operation();
    current_op.summary = Some("Summary".to_string());
    current_op.description = Some("New description added".to_string());

    let violations =
        RouteDescriptionChangedRule::detect("/test", "get", Some(&base_op), Some(&current_op));

    assert_eq!(violations.len(), 0, "Should not detect adding a description from empty");
}

#[test]
fn test_required_parameter_added_rule_detection() {
    let mut base = create_spec();
    let mut current = create_spec();
    let mut base_op = operation();
    base_op.parameters = vec![param("page", ParameterLocation::Query, false)];
    base_op.responses = Some(vec![response("200")]);
    let mut current_op = operation();
    current_op.parameters = vec![
        param("page", ParameterLocation::Query, false),
        param("sort", ParameterLocation::Query, true),
    ];
    current_op.responses = Some(vec![response("200")]);
    add_path(&mut base, "/users", "get", base_op);
    add_path(&mut current, "/users", "get", current_op);

    let matcher = RouteMatcher::new(&base, &current);
    let results = matcher.match_routes();

    let route_result = results.iter().find(|r| r.name == "GET /users");
    assert!(route_result.is_some());
    let route = route_result.unwrap();
    let required_violations: Vec<_> =
        route.violations.iter().filter(|v| v.name() == "RequiredParameterAdded").collect();
    assert!(!required_violations.is_empty(), "Should detect required parameter added");
    assert_eq!(route.change_level, ChangeLevel::Breaking);
}

#[test]
fn test_required_parameter_added_rule_optional_to_required() {
    let mut base_op = operation();
    base_op.parameters = vec![param("filter", ParameterLocation::Query, false)];
    let mut current_op = operation();
    current_op.parameters = vec![param("filter", ParameterLocation::Query, true)];

    let violations =
        RequiredParameterAddedRule::detect("/test", "get", Some(&base_op), Some(&current_op));

    assert_eq!(
        violations.len(),
        0,
        "Current implementation: only detects truly new required parameters, not optional->required transitions"
    );
}

#[test]
fn test_required_parameter_added_rule_no_false_positive() {
    let mut base_op = operation();
    base_op.parameters = vec![param("id", ParameterLocation::Path, true)];
    let mut current_op = operation();
    current_op.parameters = vec![param("id", ParameterLocation::Path, true)];

    let violations =
        RequiredParameterAddedRule::detect("/test/{id}", "get", Some(&base_op), Some(&current_op));

    assert_eq!(violations.len(), 0, "Should not detect existing required parameters");
}

#[test]
fn test_parameter_removed_rule_detection() {
    let mut base = create_spec();
    let mut current = create_spec();
    let mut base_op = operation();
    base_op.parameters = vec![
        param("page", ParameterLocation::Query, false),
        param("category", ParameterLocation::Query, false),
    ];
    base_op.responses = Some(vec![response("200")]);
    let mut current_op = operation();
    current_op.parameters = vec![param("page", ParameterLocation::Query, false)];
    current_op.responses = Some(vec![response("200")]);
    add_path(&mut base, "/products", "get", base_op);
    add_path(&mut current, "/products", "get", current_op);

    let matcher = RouteMatcher::new(&base, &current);
    let results = matcher.match_routes();

    let route_result = results.iter().find(|r| r.name == "GET /products");
    assert!(route_result.is_some());
    let route = route_result.unwrap();
    let has_param_removed = route
        .violations
        .iter()
        .any(|v| v.name() == "ParameterRemoved" && v.description().contains("category"));
    assert!(has_param_removed, "Should detect parameter removal");
    assert_eq!(route.change_level, ChangeLevel::Breaking);
}

#[test]
fn test_parameter_removed_rule_no_detection() {
    let mut base_op = operation();
    base_op.parameters = vec![param("id", ParameterLocation::Path, true)];
    let mut current_op = operation();
    current_op.parameters = vec![param("id", ParameterLocation::Path, true)];

    let violations =
        ParameterRemovedRule::detect("/test/{id}", "get", Some(&base_op), Some(&current_op));

    assert_eq!(violations.len(), 0, "Should not detect when parameters are unchanged");
}

#[test]
fn test_parameter_location_distinction() {
    let mut base_op = operation();
    base_op.parameters = vec![
        param("id", ParameterLocation::Query, false),
        param("id", ParameterLocation::Header, false),
        param("filter", ParameterLocation::Query, false),
    ];
    let mut current_op = operation();
    current_op.parameters = vec![
        param("id", ParameterLocation::Query, true),
        param("id", ParameterLocation::Header, false),
        param("id", ParameterLocation::Path, true),
    ];

    let added_violations =
        RequiredParameterAddedRule::detect("/test/{id}", "get", Some(&base_op), Some(&current_op));
    let has_path_param = added_violations
        .iter()
        .any(|v| v.parameter_name == "id" && v.parameter_in.contains("Path"));
    assert!(has_path_param, "Should detect 'id' in path as new parameter");

    let removed_violations =
        ParameterRemovedRule::detect("/test/{id}", "get", Some(&base_op), Some(&current_op));
    let has_filter_removed = removed_violations.iter().any(|v| v.parameter_name == "filter");
    assert!(has_filter_removed, "Should detect 'filter' parameter removal");
}

#[test]
fn test_response_status_added_rule_detection() {
    let mut base = create_spec();
    let mut current = create_spec();
    let mut base_op = operation();
    base_op.responses = Some(vec![response("200")]);
    let mut current_op = operation();
    current_op.responses = Some(vec![response("200"), response("400")]);
    add_path(&mut base, "/users", "get", base_op);
    add_path(&mut current, "/users", "get", current_op);

    let matcher = RouteMatcher::new(&base, &current);
    let results = matcher.match_routes();

    let route_result = results.iter().find(|r| r.name == "GET /users");
    assert!(route_result.is_some());
    let route = route_result.unwrap();
    let has_status_added = route
        .violations
        .iter()
        .any(|v| v.name() == "ResponseStatusAdded" && v.description().contains("400"));
    assert!(has_status_added, "Should detect 400 status added");
    assert_eq!(route.change_level, ChangeLevel::Change);
}

#[test]
fn test_response_status_added_rule_no_detection() {
    let mut base_op = operation();
    base_op.responses = Some(vec![response("200")]);
    let mut current_op = operation();
    current_op.responses = Some(vec![response("200")]);

    let violations =
        ResponseStatusAddedRule::detect("/users", "get", Some(&base_op), Some(&current_op));

    assert_eq!(violations.len(), 0, "Should not detect when responses unchanged");
}

#[test]
fn test_response_status_removed_rule_detection() {
    let mut base = create_spec();
    let mut current = create_spec();
    let mut base_op = operation();
    base_op.responses = Some(vec![response("200"), response("404")]);
    let mut current_op = operation();
    current_op.responses = Some(vec![response("200")]);
    add_path(&mut base, "/users/{id}", "get", base_op);
    add_path(&mut current, "/users/{id}", "get", current_op);

    let matcher = RouteMatcher::new(&base, &current);
    let results = matcher.match_routes();

    let route_result = results.iter().find(|r| r.name == "GET /users/{id}");
    assert!(route_result.is_some());
    let route = route_result.unwrap();
    let has_status_removed = route
        .violations
        .iter()
        .any(|v| v.name() == "ResponseStatusRemoved" && v.description().contains("404"));
    assert!(has_status_removed, "Should detect 404 status removed");
    assert_eq!(route.change_level, ChangeLevel::Warning);
}

#[test]
fn test_response_status_removed_rule_no_detection() {
    let mut base_op = operation();
    base_op.responses = Some(vec![response("200")]);
    let mut current_op = operation();
    current_op.responses = Some(vec![response("200")]);

    let violations =
        ResponseStatusRemovedRule::detect("/users", "get", Some(&base_op), Some(&current_op));

    assert_eq!(violations.len(), 0, "Should not detect when responses unchanged");
}

#[test]
fn test_multiple_violations_in_single_route() {
    let mut base = create_spec();
    let mut current = create_spec();
    let mut base_op = operation();
    base_op.summary = Some("Get users".to_string());
    base_op.description = Some("Returns users".to_string());
    base_op.parameters = vec![param("page", ParameterLocation::Query, false)];
    base_op.responses = Some(vec![response("200"), response("500")]);
    let mut current_op = operation();
    current_op.summary = Some("Get all users".to_string());
    current_op.description = Some("Returns paginated users".to_string());
    current_op.parameters = vec![
        param("page", ParameterLocation::Query, false),
        param("sort", ParameterLocation::Query, true),
    ];
    current_op.responses = Some(vec![response("200"), response("400")]);
    add_path(&mut base, "/users", "get", base_op);
    add_path(&mut current, "/users", "get", current_op);

    let matcher = RouteMatcher::new(&base, &current);
    let results = matcher.match_routes();

    let route_result = results.iter().find(|r| r.name == "GET /users");
    assert!(route_result.is_some());
    let route = route_result.unwrap();
    assert!(
        route.violations.len() >= 4,
        "Should have multiple violations (summary, description, parameter, response)"
    );
}

#[test]
fn route_rules_tests_test_change_level_hierarchy() {
    let mut base = create_spec();
    let mut current = create_spec();
    let mut base_op = operation();
    base_op.summary = Some("Get user".to_string());
    base_op.parameters = vec![param("id", ParameterLocation::Path, true)];
    base_op.responses = Some(vec![response("200"), response("404")]);
    let mut current_op = operation();
    current_op.summary = Some("Get user by ID".to_string());
    current_op.parameters = vec![];
    current_op.responses = Some(vec![response("200")]);
    add_path(&mut base, "/users/{id}", "get", base_op);
    add_path(&mut current, "/users/{id}", "get", current_op);

    let matcher = RouteMatcher::new(&base, &current);
    let results = matcher.match_routes();

    let route_result = results.iter().find(|r| r.name == "GET /users/{id}");
    assert!(route_result.is_some());
    let route = route_result.unwrap();
    assert_eq!(route.change_level, ChangeLevel::Breaking, "Breaking should take precedence");
    let has_breaking =
        route.violations.iter().any(|v| matches!(v.change_level(), ChangeLevel::Breaking));
    assert!(has_breaking, "Should have breaking violation");
}

fn listing_operation() -> Operation {
    let mut op = operation();
    op.summary = Some("Get users".to_string());
    op.description = Some("Returns all users".to_string());
    op.parameters = vec![param("page", ParameterLocation::Query, false)];
    op.responses = Some(vec![response("200")]);
    op
}

#[test]
fn test_no_false_positives_for_identical_routes() {
    let mut base = create_spec();
    let mut current = create_spec();
    add_path(&mut base, "/users", "get", listing_operation());
    add_path(&mut current, "/users", "get", listing_operation());

    let matcher = RouteMatcher::new(&base, &current);
    let results = matcher.match_routes();

    let route_result = results.iter().find(|r| r.name == "GET /users");
    if let Some(route) = route_result {
        assert_eq!(route.violations.len(), 0, "Identical routes should have no violations");
    }
}

#[test]
fn test_all_http_methods_supported() {
    let mut base = create_spec();
    let mut current = create_spec();
    add_path(&mut base, "/users", "get", operation());
    add_path(&mut base, "/users", "post", operation());
    add_path(&mut base, "/users/{id}", "put", operation());
    add_path(&mut base, "/users/{id}", "delete", operation());
    add_path(&mut base, "/users/{id}", "patch", operation());
    add_path(&mut current, "/users", "get", operation());
    add_path(&mut current, "/users", "post", operation());

    let matcher = RouteMatcher::new(&base, &current);
    let results = matcher.match_routes();

    assert!(results.iter().any(|r| r.name.contains("DELETE")));
    assert!(results.iter().any(|r| r.name.contains("PUT")));
    assert!(results.iter().any(|r| r.name.contains("PATCH")));
}
