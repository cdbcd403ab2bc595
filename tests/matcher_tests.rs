use apidrift::matcher::SchemaMatcher;
use apidrift::model::{Document, SchemaNode, SchemaRef, SchemaType, TypeSet};
use apidrift::rules::ChangeAnchor;
use apidrift::ChangeLevel;

fn node(t: Option<TypeSet>) -> SchemaNode {
    SchemaNode {
        schema_type: t,
        properties: vec![],
        required: vec![],
        description: None,
        enum_values: vec![],
        format: None,
        items: None,
    }
}

fn typed(t: SchemaType) -> SchemaNode {
    node(Some(TypeSet::Single(t)))
}

fn inline(n: SchemaNode) -> SchemaRef {
    SchemaRef::Inline(Box::new(n))
}

fn prop(name: &str, n: SchemaNode) -> (String, SchemaRef) {
    (name.to_string(), inline(n))
}

fn json_texts(values: &[&str]) -> Vec<String> {
    values.iter().map(|v| serde_json::Value::String(v.to_string()).to_string()).collect()
}

fn object(props: Vec<(String, SchemaRef)>, required: &[&str]) -> SchemaNode {
    let mut n = typed(SchemaType::Object);
    n.properties = props;
    n.required = required.iter().map(|r| r.to_string()).collect();
    n
}

fn order(items: &str) -> SchemaNode {
    let mut list = typed(SchemaType::Array);
    list.items = Some(Box::new(SchemaRef::Pointer(format!("#/components/schemas/{}", items))));
    object(vec![prop("id", typed(SchemaType::Integer)), prop("items", list)], &["id"])
}

fn category(values: &[&str]) -> SchemaNode {
    let mut c = typed(SchemaType::String);
    c.enum_values = json_texts(values);
    c
}

fn status(values: &[&str]) -> SchemaNode {
    let mut s = typed(SchemaType::String);
    s.enum_values = json_texts(values);
    s
}

/// The base version: User, Product, Order and StatusEnum.
fn base_document() -> Document {
    let user = object(
        vec![
            prop("id", typed(SchemaType::Integer)),
            prop("name", typed(SchemaType::String)),
            prop("email", typed(SchemaType::String)),
            prop("age", typed(SchemaType::Integer)),
        ],
        &["id"],
    );
    let mut product = object(
        vec![
            prop("id", typed(SchemaType::Integer)),
            prop("price", typed(SchemaType::Number)),
            prop("category", category(&["electronics", "books"])),
        ],
        &["id", "price"],
    );
    product.description = Some("A product".to_string());
    Document {
        schemas: vec![
            ("User".to_string(), inline(user)),
            ("Product".to_string(), inline(product)),
            ("Order".to_string(), inline(order("Product"))),
            ("StatusEnum".to_string(), inline(status(&["active", "inactive", "pending"]))),
        ],
        paths: vec![],
    }
}

/// The current version: User gains a required `username`, loses `name` and
/// makes `age` nullable; Product no longer requires `price`, gains a
/// category value and a `tags` property, and changes its description;
/// StatusEnum loses `pending`; NewModel is new.
fn current_document() -> Document {
    let user = object(
        vec![
            prop("id", typed(SchemaType::Integer)),
            prop("username", typed(SchemaType::String)),
            prop("email", typed(SchemaType::String)),
            prop(
                "age",
                node(Some(TypeSet::Multiple(vec![SchemaType::Integer, SchemaType::Null]))),
            ),
        ],
        &["id", "username"],
    );
    let mut product = object(
        vec![
            prop("id", typed(SchemaType::Integer)),
            prop("price", typed(SchemaType::Number)),
            prop("category", category(&["electronics", "books", "toys"])),
            prop("tags", typed(SchemaType::Array)),
        ],
        &["id"],
    );
    product.description = Some("A product for sale".to_string());
    Document {
        schemas: vec![
            ("User".to_string(), inline(user)),
            ("Product".to_string(), inline(product)),
            ("Order".to_string(), inline(order("Product"))),
            ("StatusEnum".to_string(), inline(status(&["active", "inactive"]))),
            (
                "NewModel".to_string(),
                inline(object(vec![prop("id", typed(SchemaType::Integer))], &["id"])),
            ),
        ],
        paths: vec![],
    }
}

#[test]
fn test_schema_matcher_with_test_schemas() {
    let base = base_document();
    let current = current_document();
    let matcher = SchemaMatcher::new(&base.schemas, &current.schemas, &base, &current);
    let results = matcher.match_schemas();

    assert!(results.len() >= 4);
    for result in &results {
        println!("\n=== Schema: {} ===", result.name);
        println!("Change Level: {:?}", result.change_level);
        for violation in &result.violations {
            println!("  - {}: {}", violation.name(), violation.description());
        }
    }
}

#[test]
fn test_user_schema_changes() {
    let base = base_document();
    let current = current_document();
    let matcher = SchemaMatcher::new(&base.schemas, &current.schemas, &base, &current);
    let results = matcher.match_schemas();

    let user_result = results.iter().find(|r| r.name == "User").unwrap();
    assert_eq!(user_result.change_level, ChangeLevel::Breaking);

    let has_required_added = user_result
        .violations
        .iter()
        .any(|v| v.name() == "RequiredPropertyAdded" && v.description().contains("username"));
    assert!(has_required_added, "Should detect added required property");

    let has_property_removed = user_result
        .violations
        .iter()
        .any(|v| v.name() == "PropertyRemoved" && v.description().contains("name"));
    assert!(has_property_removed, "Should detect removed property");
}

#[test]
fn test_product_schema_changes() {
    let base = base_document();
    let current = current_document();
    let matcher = SchemaMatcher::new(&base.schemas, &current.schemas, &base, &current);
    let results = matcher.match_schemas();

    let product_result = results.iter().find(|r| r.name == "Product").unwrap();

    let has_required_removed = product_result
        .violations
        .iter()
        .any(|v| v.name() == "RequiredPropertyRemoved" && v.description().contains("price"));
    assert!(has_required_removed, "Should detect removed required property");

    let has_enum_added = product_result.violations.iter().any(|v| {
        v.name() == "EnumValuesAdded"
            && matches!(v.context(), ChangeAnchor::EnumValues(p) if p.contains("category"))
    });
    assert!(has_enum_added, "Should detect enum changes");
}

#[test]
fn test_status_enum_breaking_change() {
    let base = base_document();
    let current = current_document();
    let matcher = SchemaMatcher::new(&base.schemas, &current.schemas, &base, &current);
    let results = matcher.match_schemas();

    let status_result = results.iter().find(|r| r.name == "StatusEnum").unwrap();
    assert_eq!(status_result.change_level, ChangeLevel::Breaking);
    let has_enum_removed =
        status_result.violations.iter().any(|v| v.name() == "EnumValuesRemoved");
    assert!(has_enum_removed, "Should detect removed enum values");
}

#[test]
fn test_new_model_added() {
    let base = base_document();
    let current = current_document();
    let matcher = SchemaMatcher::new(&base.schemas, &current.schemas, &base, &current);
    let results = matcher.match_schemas();

    let new_model_result = results.iter().find(|r| r.name == "NewModel");
    assert!(new_model_result.is_some(), "Should detect new model");
    let new_model = new_model_result.unwrap();
    assert_eq!(new_model.change_level, ChangeLevel::Change);
    let has_added = new_model.violations.iter().any(|v| v.name() == "SchemaAdded");
    assert!(has_added, "Should mark new model as Added");
}

#[test]
fn test_order_array_items_changes() {
    let base = base_document();
    let current = current_document();
    let matcher = SchemaMatcher::new(&base.schemas, &current.schemas, &base, &current);
    let _results = matcher.match_schemas();

    let order_exists_in_base = base.schemas.iter().any(|(n, _)| n == "Order");
    let order_exists_in_current = current.schemas.iter().any(|(n, _)| n == "Order");
    assert!(order_exists_in_base, "Order should exist in base schema");
    assert!(order_exists_in_current, "Order should exist in current schema");
}

#[test]
fn matcher_tests_test_change_level_hierarchy() {
    let base = base_document();
    let current = current_document();
    let matcher = SchemaMatcher::new(&base.schemas, &current.schemas, &base, &current);
    let results = matcher.match_schemas();

    for result in results {
        if result.change_level == ChangeLevel::Breaking {
            let has_breaking =
                result.violations.iter().any(|v| matches!(v.change_level(), ChangeLevel::Breaking));
            assert!(
                has_breaking,
                "Breaking change level should have at least one breaking violation in {}",
                result.name
            );
        }
    }
}
