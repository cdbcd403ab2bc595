use apidrift::model::{SchemaNode, SchemaRef, SchemaType, TypeSet};
use apidrift::rules::schema::{
    DescriptionChangedRule, EnumValuesAddedRule, EnumValuesRemovedRule, FormatChangedRule,
    NullableChangedRule, PropertyAddedRule, PropertyRemovedRule, RequiredPropertyAddedRule,
    SchemaAddedRule, SchemaRemovedRule, SchemaRule, TypeChangedRule,
};
use apidrift::rules::Rule;
use apidrift::ChangeLevel;

fn create_test_schema(schema_type: Option<TypeSet>) -> SchemaNode {
    SchemaNode {
        schema_type,
        properties: vec![],
        required: vec![],
        description: None,
        enum_values: vec![],
        format: None,
        items: None,
    }
}

fn create_nullable_schema(nullable: bool) -> SchemaNode {
    if nullable {
        create_test_schema(Some(TypeSet::Single(SchemaType::Null)))
    } else {
        create_test_schema(Some(TypeSet::Single(SchemaType::Object)))
    }
}

fn string_property(name: &str, t: SchemaType) -> (String, SchemaRef) {
    (
        name.to_string(),
        SchemaRef::Inline(Box::new(create_test_schema(Some(TypeSet::Single(t))))),
    )
}

fn json_text(s: &str) -> String {
    serde_json::Value::String(s.to_string()).to_string()
}

#[test]
fn test_change_level_detection() {
    let removed_rule = SchemaRemovedRule { schema_name: "Test".to_string() };
    assert!(matches!(removed_rule.change_level(), ChangeLevel::Breaking));

    let type_changed_rule = TypeChangedRule {
        schema_name: "Test".to_string(),
        property_path: "".to_string(),
        old_type: "String".to_string(),
        new_type: "Number".to_string(),
    };
    assert!(matches!(type_changed_rule.change_level(), ChangeLevel::Breaking));

    let format_changed_rule = FormatChangedRule {
        schema_name: "Test".to_string(),
        property_path: "".to_string(),
        old_format: Some("email".to_string()),
        new_format: Some("uri".to_string()),
    };
    assert!(matches!(format_changed_rule.change_level(), ChangeLevel::Warning));

    let added_rule = SchemaAddedRule { schema_name: "Test".to_string() };
    assert!(matches!(added_rule.change_level(), ChangeLevel::Change));
}

#[test]
fn test_schema_added_rule_detection() {
    let current = create_test_schema(None);
    let detected = SchemaAddedRule::detect("User", "", None, Some(&current));

    assert_eq!(detected.len(), 1);
    assert_eq!(detected[0].name(), "SchemaAdded");
    assert_eq!(detected[0].change_level(), ChangeLevel::Change);
    assert!(detected[0].description().contains("User"));
}

#[test]
fn test_schema_added_rule_no_detection() {
    let base = create_test_schema(None);
    let current = create_test_schema(None);
    let detected = SchemaAddedRule::detect("User", "", Some(&base), Some(&current));

    assert_eq!(detected.len(), 0);
}

#[test]
fn test_schema_removed_rule_detection() {
    let base = create_test_schema(None);
    let detected = SchemaRemovedRule::detect("User", "", Some(&base), None);

    assert_eq!(detected.len(), 1);
    assert_eq!(detected[0].name(), "SchemaRemoved");
    assert_eq!(detected[0].change_level(), ChangeLevel::Breaking);
    assert!(detected[0].description().contains("User"));
}

#[test]
fn test_schema_removed_rule_no_detection() {
    let base = create_test_schema(None);
    let current = create_test_schema(None);
    let detected = SchemaRemovedRule::detect("User", "", Some(&base), Some(&current));

    assert_eq!(detected.len(), 0);
}

#[test]
fn test_type_changed_rule_detection() {
    let base = create_test_schema(Some(TypeSet::Single(SchemaType::String)));
    let current = create_test_schema(Some(TypeSet::Single(SchemaType::Number)));
    let detected = TypeChangedRule::detect("User", "email", Some(&base), Some(&current));

    assert_eq!(detected.len(), 1);
    assert_eq!(detected[0].name(), "TypeChanged");
    assert_eq!(detected[0].change_level(), ChangeLevel::Breaking);
    assert!(detected[0].description().contains("String"));
    assert!(detected[0].description().contains("Number"));
}

#[test]
fn test_type_changed_rule_no_detection() {
    let base = create_test_schema(Some(TypeSet::Single(SchemaType::String)));
    let current = create_test_schema(Some(TypeSet::Single(SchemaType::String)));
    let detected = TypeChangedRule::detect("User", "", Some(&base), Some(&current));

    assert_eq!(detected.len(), 0);
}

#[test]
fn test_property_added_rule_detection() {
    let base = create_test_schema(None);
    let mut current = create_test_schema(None);
    current.properties.push(string_property("email", SchemaType::String));

    let detected = PropertyAddedRule::detect("User", "", Some(&base), Some(&current));

    assert_eq!(detected.len(), 1);
    assert_eq!(detected[0].name(), "PropertyAdded");
    assert_eq!(detected[0].property_name, "email");
    assert_eq!(detected[0].change_level(), ChangeLevel::Change);
}

#[test]
fn test_property_removed_rule_detection_optional() {
    let mut base = create_test_schema(None);
    let current = create_test_schema(None);
    base.properties.push(string_property("email", SchemaType::String));

    let detected = PropertyRemovedRule::detect("User", "", Some(&base), Some(&current));

    assert_eq!(detected.len(), 1);
    assert_eq!(detected[0].name(), "PropertyRemoved");
    assert_eq!(detected[0].property_name, "email");
    assert_eq!(detected[0].was_required, false);
    assert_eq!(detected[0].totally_removed, true);
    assert_eq!(detected[0].change_level(), ChangeLevel::Breaking);
}

#[test]
fn test_property_removed_rule_detection_required() {
    let mut base = create_test_schema(None);
    let current = create_test_schema(None);
    base.properties.push(string_property("email", SchemaType::String));
    base.required.push("email".to_string());

    let detected = PropertyRemovedRule::detect("User", "", Some(&base), Some(&current));

    assert_eq!(detected.len(), 1);
    assert_eq!(detected[0].name(), "RequiredPropertyRemoved");
    assert_eq!(detected[0].property_name, "email");
    assert_eq!(detected[0].was_required, true);
    assert_eq!(detected[0].totally_removed, true);
    assert_eq!(detected[0].change_level(), ChangeLevel::Breaking);
}

#[test]
fn test_property_made_optional() {
    let rule = PropertyRemovedRule {
        schema_name: "User".to_string(),
        property_path: "".to_string(),
        property_name: "email".to_string(),
        was_required: true,
        totally_removed: false,
    };

    assert_eq!(rule.name(), "RequiredPropertyRemoved");
    assert_eq!(rule.change_level(), ChangeLevel::Change);
    assert_eq!(rule.description(), "Required property 'email' was removed");
}

#[test]
fn test_property_still_exists_but_not_required() {
    let mut base = create_test_schema(None);
    let mut current = create_test_schema(None);
    base.properties.push(string_property("email", SchemaType::String));
    current.properties.push(string_property("email", SchemaType::String));
    base.required.push("email".to_string());

    let detected = PropertyRemovedRule::detect("User", "", Some(&base), Some(&current));

    assert_eq!(
        detected.len(),
        0,
        "Property still exists, should not be detected as removed"
    );
}

#[test]
fn test_multiple_properties_removed() {
    let mut base = create_test_schema(None);
    let current = create_test_schema(None);
    base.properties.push(string_property("email", SchemaType::String));
    base.properties.push(string_property("phone", SchemaType::String));
    base.properties.push(string_property("address", SchemaType::String));
    base.required.push("email".to_string());
    base.required.push("phone".to_string());

    let detected = PropertyRemovedRule::detect("User", "", Some(&base), Some(&current));

    assert_eq!(detected.len(), 3, "Should detect all 3 removed properties");
    for rule in &detected {
        assert_eq!(
            rule.totally_removed, true,
            "All removed properties should be marked as totally_removed"
        );
        assert_eq!(
            rule.change_level(),
            ChangeLevel::Breaking,
            "Removing properties should be breaking"
        );
    }

    let email_rule = detected.iter().find(|r| r.property_name == "email").unwrap();
    assert_eq!(email_rule.was_required, true);
    let phone_rule = detected.iter().find(|r| r.property_name == "phone").unwrap();
    assert_eq!(phone_rule.was_required, true);
    let address_rule = detected.iter().find(|r| r.property_name == "address").unwrap();
    assert_eq!(address_rule.was_required, false);
}

#[test]
fn test_totally_removed_true_breaking_change() {
    let rule = PropertyRemovedRule {
        schema_name: "User".to_string(),
        property_path: "".to_string(),
        property_name: "email".to_string(),
        was_required: false,
        totally_removed: true,
    };

    assert_eq!(rule.change_level(), ChangeLevel::Breaking);
    assert_eq!(rule.name(), "PropertyRemoved");
}

#[test]
fn test_totally_removed_false_change_level() {
    let rule = PropertyRemovedRule {
        schema_name: "User".to_string(),
        property_path: "".to_string(),
        property_name: "email".to_string(),
        was_required: true,
        totally_removed: false,
    };

    assert_eq!(rule.change_level(), ChangeLevel::Change);
    assert_eq!(rule.name(), "RequiredPropertyRemoved");
}

#[test]
fn test_property_removed_with_nested_path() {
    let mut base = create_test_schema(None);
    let current = create_test_schema(None);
    base.properties.push(string_property("nested_field", SchemaType::String));

    let detected = PropertyRemovedRule::detect("User", "address", Some(&base), Some(&current));

    assert_eq!(detected.len(), 1);
    assert_eq!(detected[0].property_path, "address");
    assert_eq!(detected[0].property_name, "nested_field");
    assert_eq!(detected[0].totally_removed, true);
}

#[test]
fn test_required_property_added_rule_detection() {
    let base = create_test_schema(None);
    let mut current = create_test_schema(None);
    current.required.push("email".to_string());

    let detected = RequiredPropertyAddedRule::detect("User", "", Some(&base), Some(&current));

    assert_eq!(detected.len(), 1);
    assert_eq!(detected[0].name(), "RequiredPropertyAdded");
    assert_eq!(detected[0].property_name, "email");
    assert_eq!(detected[0].change_level(), ChangeLevel::Breaking);
}

#[test]
fn test_description_changed_rule_detection() {
    let mut base = create_test_schema(None);
    let mut current = create_test_schema(None);
    base.description = Some("Old description".to_string());
    current.description = Some("New description".to_string());

    let detected = DescriptionChangedRule::detect("User", "", Some(&base), Some(&current));

    assert_eq!(detected.len(), 1);
    assert_eq!(detected[0].name(), "DescriptionChanged");
    assert!(detected[0].description().contains("Old description"));
    assert!(detected[0].description().contains("New description"));
    assert_eq!(detected[0].change_level(), ChangeLevel::Change);
}

#[test]
fn test_enum_values_added_rule_detection() {
    let mut base = create_test_schema(None);
    let mut current = create_test_schema(None);
    base.enum_values = vec![json_text("active")];
    current.enum_values = vec![json_text("active"), json_text("inactive")];

    let detected = EnumValuesAddedRule::detect("Status", "", Some(&base), Some(&current));

    assert_eq!(detected.len(), 1);
    assert_eq!(detected[0].name(), "EnumValuesAdded");
    assert!(detected[0].description().contains("inactive"));
    assert_eq!(detected[0].change_level(), ChangeLevel::Change);
}

#[test]
fn test_enum_values_removed_rule_detection() {
    let mut base = create_test_schema(None);
    let mut current = create_test_schema(None);
    base.enum_values = vec![json_text("active"), json_text("pending")];
    current.enum_values = vec![json_text("active")];

    let detected = EnumValuesRemovedRule::detect("Status", "", Some(&base), Some(&current));

    assert_eq!(detected.len(), 1);
    assert_eq!(detected[0].name(), "EnumValuesRemoved");
    assert!(detected[0].description().contains("pending"));
    assert_eq!(detected[0].change_level(), ChangeLevel::Breaking);
}

#[test]
fn test_format_changed_rule_detection() {
    let mut base = create_test_schema(None);
    let mut current = create_test_schema(None);
    base.format = Some("email".to_string());
    current.format = Some("uri".to_string());

    let detected = FormatChangedRule::detect("User", "email", Some(&base), Some(&current));

    assert_eq!(detected.len(), 1);
    assert_eq!(detected[0].name(), "FormatChanged");
    assert!(detected[0].description().contains("email"));
    assert!(detected[0].description().contains("uri"));
    assert_eq!(detected[0].change_level(), ChangeLevel::Warning);
}

#[test]
fn test_nullable_changed_rule_detection_breaking() {
    let base = create_nullable_schema(true);
    let current = create_nullable_schema(false);

    let detected = NullableChangedRule::detect("User", "email", Some(&base), Some(&current));

    assert_eq!(detected.len(), 1);
    assert_eq!(detected[0].name(), "NullableChanged");
    assert_eq!(detected[0].old_nullable, true);
    assert_eq!(detected[0].new_nullable, false);
    assert_eq!(detected[0].change_level(), ChangeLevel::Breaking);
}

#[test]
fn test_nullable_changed_rule_detection_warning() {
    let base = create_nullable_schema(false);
    let current = create_nullable_schema(true);

    let detected = NullableChangedRule::detect("User", "email", Some(&base), Some(&current));

    assert_eq!(detected.len(), 1);
    assert_eq!(detected[0].old_nullable, false);
    assert_eq!(detected[0].new_nullable, true);
    assert_eq!(detected[0].change_level(), ChangeLevel::Warning);
}

#[test]
fn test_multiple_properties_added() {
    let base = create_test_schema(None);
    let mut current = create_test_schema(None);
    current.properties.push(string_property("email", SchemaType::String));
    current.properties.push(string_property("age", SchemaType::Number));

    let detected = PropertyAddedRule::detect("User", "", Some(&base), Some(&current));

    assert_eq!(detected.len(), 2);
    let prop_names: Vec<_> = detected.iter().map(|r| r.property_name.as_str()).collect();
    assert!(prop_names.contains(&"email"));
    assert!(prop_names.contains(&"age"));
}
