use schemas::schema::{Field, FieldType, Schema, TableDefinition, TableDefinitions};

fn set_with_version(name: &str, version: u32) -> TableDefinitions {
    let mut set = TableDefinitions::new(name);
    set.add_table_definition(TableDefinition::new(version));
    set
}

#[test]
fn new_schema_is_empty() {
    let schema = Schema::new(String::from("wh2"));
    assert_eq!(schema.game, "wh2");
    assert_eq!(schema.version, 1);
    assert!(schema.tables_definitions.is_empty());
}

#[test]
fn upsert_table_appends_new_names() {
    let mut schema = Schema::new(String::from("wh2"));
    schema.add_table_definitions(TableDefinitions::new("a_tables"));
    schema.add_table_definitions(TableDefinitions::new("b_tables"));
    assert_eq!(schema.tables_definitions.len(), 2);
    assert_eq!(schema.tables_definitions[0].name, "a_tables");
    assert_eq!(schema.tables_definitions[1].name, "b_tables");
}

#[test]
fn upsert_table_replaces_in_place() {
    let mut schema = Schema::new(String::from("wh2"));
    schema.add_table_definitions(set_with_version("a_tables", 1));
    schema.add_table_definitions(set_with_version("b_tables", 1));
    schema.add_table_definitions(set_with_version("c_tables", 1));

    let replacement = set_with_version("b_tables", 7);
    schema.add_table_definitions(replacement.clone());

    assert_eq!(schema.tables_definitions.len(), 3);
    assert_eq!(schema.tables_definitions[0].name, "a_tables");
    assert_eq!(schema.tables_definitions[1], replacement);
    assert_eq!(schema.tables_definitions[2].name, "c_tables");
}

#[test]
fn upsert_table_twice_equals_once() {
    let mut once = Schema::new(String::from("wh2"));
    once.add_table_definitions(set_with_version("a_tables", 1));
    once.add_table_definitions(set_with_version("a_tables", 2));

    let mut twice = Schema::new(String::from("wh2"));
    twice.add_table_definitions(set_with_version("a_tables", 1));
    twice.add_table_definitions(set_with_version("a_tables", 2));
    twice.add_table_definitions(set_with_version("a_tables", 2));

    assert_eq!(once, twice);
    assert_eq!(once.tables_definitions.len(), 1);
}

#[test]
fn find_table_returns_first_match() {
    let mut schema = Schema::new(String::from("wh2"));
    schema.add_table_definitions(TableDefinitions::new("a_tables"));
    schema.add_table_definitions(TableDefinitions::new("b_tables"));
    assert_eq!(schema.get_table_definitions("a_tables"), Some(0));
    assert_eq!(schema.get_table_definitions("b_tables"), Some(1));
    assert_eq!(schema.get_table_definitions("c_tables"), None);
}

#[test]
fn upsert_version_appends_new_versions() {
    let mut set = TableDefinitions::new("a_tables");
    set.add_table_definition(TableDefinition::new(0));
    set.add_table_definition(TableDefinition::new(3));
    assert_eq!(set.versions.len(), 2);
    assert_eq!(set.versions[0].version, 0);
    assert_eq!(set.versions[1].version, 3);
}

#[test]
fn upsert_version_replaces_in_place() {
    let mut set = TableDefinitions::new("a_tables");
    set.add_table_definition(TableDefinition::new(0));
    set.add_table_definition(TableDefinition::new(3));
    set.add_table_definition(TableDefinition::new(5));

    let mut replacement = TableDefinition::new(3);
    replacement.add_field(String::from("key"), FieldType::StringU8, true, None);
    set.add_table_definition(replacement.clone());

    assert_eq!(set.versions.len(), 3);
    assert_eq!(set.versions[0].version, 0);
    assert_eq!(set.versions[1], replacement);
    assert_eq!(set.versions[2].version, 5);
}

#[test]
fn upsert_version_twice_equals_once() {
    let mut once = TableDefinitions::new("a_tables");
    once.add_table_definition(TableDefinition::new(2));

    let mut twice = TableDefinitions::new("a_tables");
    twice.add_table_definition(TableDefinition::new(2));
    twice.add_table_definition(TableDefinition::new(2));

    assert_eq!(once, twice);
}

#[test]
fn find_version_scans_by_value() {
    let mut set = TableDefinitions::new("a_tables");
    set.add_table_definition(TableDefinition::new(4));
    set.add_table_definition(TableDefinition::new(2));
    assert_eq!(set.get_table_version(2), Some(1));
    assert_eq!(set.get_table_version(4), Some(0));
    assert_eq!(set.get_table_version(9), None);
}

#[test]
fn add_field_appends_in_order_with_empty_description() {
    let mut def = TableDefinition::new(1);
    def.add_field(String::from("key"), FieldType::StringU8, true, None);
    def.add_field(
        String::from("unit"),
        FieldType::StringU8,
        false,
        Some((String::from("units_tables"), String::from("key"))),
    );
    assert_eq!(def.fields.len(), 2);
    assert_eq!(def.fields[0].field_name, "key");
    assert!(def.fields[0].field_is_key);
    assert_eq!(def.fields[0].field_description, "");
    assert_eq!(def.fields[1].field_name, "unit");
    assert_eq!(
        def.fields[1].field_is_reference,
        Some((String::from("units_tables"), String::from("key")))
    );
}

#[test]
fn field_new_keeps_all_parts() {
    let field = Field::new(
        String::from("mass"),
        FieldType::Float,
        false,
        None,
        String::from("unit mass"),
    );
    assert_eq!(field.field_name, "mass");
    assert_eq!(field.field_type, FieldType::Float);
    assert!(!field.field_is_key);
    assert_eq!(field.field_is_reference, None);
    assert_eq!(field.field_description, "unit mass");
}
