use schemas::codec::DecodeError;
use schemas::import::{RawField, RawTable};
use schemas::schema::{FieldType, Schema, TableDefinition, TableDefinitions};

fn raw(name: &str, field_type: &str, required: &str) -> RawField {
    RawField {
        name: String::from(name),
        primary_key: String::from("0"),
        column_source_table: None,
        column_source_column: None,
        field_type: String::from(field_type),
        required: String::from(required),
        field_description: None,
    }
}

fn import_one(table_name: &str, field: RawField) -> TableDefinition {
    let table = RawTable { field: vec![field] };
    TableDefinition::new_from_assembly_kit(&table, 0, table_name)
}

fn chars(s: &str) -> Vec<char> {
    s.chars().collect()
}

#[test]
fn denylisted_names_are_dropped() {
    let names = [
        "game_expansion_key",
        "localised_text",
        "localised_name",
        "localised_tooltip",
        "description",
        "objectives_team_1",
        "objectives_team_2",
        "short_description_text",
        "historical_description_text",
        "strengths_weaknesses_text",
        "onscreen_name",
        "onscreen_description",
        "on_screen_name",
        "on_screen_description",
        "on_screen_target",
    ];
    for name in names.iter() {
        let def = import_one("units_tables", raw(name, "text", "1"));
        assert!(def.fields.is_empty(), "{} should be dropped", name);
    }
}

#[test]
fn kv_prefix_turns_integer_into_float() {
    let def = import_one("_kv_example_table", raw("count", "integer", "1"));
    assert_eq!(def.fields[0].field_type, FieldType::Float);
    let def = import_one("example_table", raw("count", "integer", "1"));
    assert_eq!(def.fields[0].field_type, FieldType::Integer);
}

#[test]
fn kv_prefix_applies_to_autonumber_too() {
    let def = import_one("_kv_example_table", raw("id", "autonumber", "1"));
    assert_eq!(def.fields[0].field_type, FieldType::Float);
    let def = import_one("example_table", raw("id", "autonumber", "1"));
    assert_eq!(def.fields[0].field_type, FieldType::Integer);
}

#[test]
fn key_named_text_field_is_never_optional() {
    let def = import_one("units_tables", raw("key", "text", "0"));
    assert_eq!(def.fields[0].field_type, FieldType::StringU8);
}

#[test]
fn winds_of_magic_value_field_is_float() {
    let def = import_one("_kv_winds_of_magic_params_tables", raw("value", "text", "1"));
    assert_eq!(def.fields[0].field_type, FieldType::Float);
}

#[test]
fn required_flag_decides_text_fields() {
    let def = import_one("units_tables", raw("label", "text", "1"));
    assert_eq!(def.fields[0].field_type, FieldType::StringU8);
    let def = import_one("units_tables", raw("label", "text", "0"));
    assert_eq!(def.fields[0].field_type, FieldType::OptionalStringU8);
    let def = import_one("units_tables", raw("label", "text", "maybe"));
    assert_eq!(def.fields[0].field_type, FieldType::Integer);
}

#[test]
fn basic_type_tags_map_to_variants() {
    let def = import_one("units_tables", raw("flag", "yesno", "1"));
    assert_eq!(def.fields[0].field_type, FieldType::Boolean);
    for tag in ["single", "decimal", "double"].iter() {
        let def = import_one("units_tables", raw("mass", tag, "1"));
        assert_eq!(def.fields[0].field_type, FieldType::Float);
    }
    let def = import_one("units_tables", raw("weird", "blob", "1"));
    assert_eq!(def.fields[0].field_type, FieldType::Integer);
}

#[test]
fn primary_key_marker_sets_key_flag() {
    let mut field = raw("key", "text", "1");
    field.primary_key = String::from("1");
    let def = import_one("units_tables", field);
    assert!(def.fields[0].field_is_key);
    let def = import_one("units_tables", raw("key", "text", "1"));
    assert!(!def.fields[0].field_is_key);
}

#[test]
fn source_table_becomes_reference_with_first_column() {
    let mut field = raw("unit", "text", "1");
    field.column_source_table = Some(String::from("units_tables"));
    field.column_source_column = Some(vec![String::from("key"), String::from("other")]);
    let def = import_one("officers_tables", field);
    assert_eq!(
        def.fields[0].field_is_reference,
        Some((String::from("units_tables"), String::from("key")))
    );
}

#[test]
fn description_is_copied_or_empty() {
    let mut field = raw("mass", "single", "1");
    field.field_description = Some(String::from("unit mass"));
    let def = import_one("units_tables", field);
    assert_eq!(def.fields[0].field_description, "unit mass");
    let def = import_one("units_tables", raw("mass", "single", "1"));
    assert_eq!(def.fields[0].field_description, "");
}

#[test]
fn land_units_scenario_keeps_key_and_mass_in_order() {
    let table = RawTable {
        field: vec![
            raw("key", "text", "1"),
            raw("onscreen_name", "text", "1"),
            raw("mass", "single", "1"),
        ],
    };
    let def = TableDefinition::new_from_assembly_kit(&table, 1, "land_units");
    let mut schema = Schema::new(String::from("wh2"));
    let mut set = TableDefinitions::new("land_units");
    set.add_table_definition(def);
    schema.add_table_definitions(set);

    let def = &schema.tables_definitions[0].versions[0];
    assert_eq!(def.version, 1);
    assert_eq!(def.fields.len(), 2);
    assert_eq!(def.fields[0].field_name, "key");
    assert_eq!(def.fields[0].field_type, FieldType::StringU8);
    assert_eq!(def.fields[1].field_name, "mass");
    assert_eq!(def.fields[1].field_type, FieldType::Float);
}

#[test]
fn render_of_small_registry_is_exact() {
    let mut schema = Schema::new(String::from("wh2"));
    let mut set = TableDefinitions::new("land_units");
    let mut def = TableDefinition::new(1);
    def.add_field(String::from("key"), FieldType::StringU8, true, None);
    set.add_table_definition(def);
    schema.add_table_definitions(set);

    let text: String = schema.render().into_iter().collect();
    assert_eq!(
        text,
        "{\"game\":\"wh2\",\"version\":1,\"tables\":[{\"name\":\"land_units\",\
         \"definitions\":[{\"version\":1,\"fields\":[{\"field_name\":\"key\",\
         \"field_type\":\"StringU8\",\"field_is_key\":true,\"field_is_reference\":null,\
         \"field_description\":\"\"}]}]}]}"
    );
}

#[test]
fn render_escapes_quotes_and_backslashes() {
    let schema = Schema::new(String::from("a\"b\\c"));
    let text: String = schema.render().into_iter().collect();
    assert_eq!(text, "{\"game\":\"a\\\"b\\\\c\",\"version\":1,\"tables\":[]}");
    let parsed = Schema::parse(&text.chars().collect()).unwrap();
    assert_eq!(parsed, schema);
}

#[test]
fn round_trip_preserves_everything() {
    let mut schema = Schema::new(String::from("wh2"));
    schema.version = 4294967295;

    let mut empty_set = TableDefinitions::new("empty_tables");
    empty_set.add_table_definition(TableDefinition::new(0));
    schema.add_table_definitions(empty_set);

    let mut set = TableDefinitions::new("land_units");
    let mut def = TableDefinition::new(1);
    def.add_field(String::from("key"), FieldType::StringU8, true, None);
    def.add_field(
        String::from("unit \"quoted\" name\\path"),
        FieldType::OptionalStringU16,
        false,
        Some((String::from("units_tables"), String::from("key"))),
    );
    set.add_table_definition(def);
    let mut def2 = TableDefinition::new(2);
    def2.add_field(String::from("flag"), FieldType::Boolean, false, None);
    set.add_table_definition(def2);
    schema.add_table_definitions(set);

    let rendered = schema.render();
    let parsed = Schema::parse(&rendered).expect("rendered registry must parse");
    assert_eq!(parsed, schema);
}

#[test]
fn round_trip_of_empty_registry() {
    let schema = Schema::new(String::from(""));
    let rendered = schema.render();
    let parsed = Schema::parse(&rendered).unwrap();
    assert_eq!(parsed, schema);
}

#[test]
fn every_field_type_survives_the_round_trip() {
    let types = [
        FieldType::Boolean,
        FieldType::Float,
        FieldType::Integer,
        FieldType::StringU8,
        FieldType::StringU16,
        FieldType::OptionalStringU8,
        FieldType::OptionalStringU16,
    ];
    let mut def = TableDefinition::new(3);
    for (i, t) in types.iter().enumerate() {
        def.add_field(format!("col_{}", i), t.clone(), false, None);
    }
    let mut set = TableDefinitions::new("all_types_tables");
    set.add_table_definition(def);
    let mut schema = Schema::new(String::from("wh2"));
    schema.add_table_definitions(set);

    let parsed = Schema::parse(&schema.render()).unwrap();
    assert_eq!(parsed, schema);
}

#[test]
fn malformed_documents_are_rejected() {
    assert_eq!(Schema::parse(&chars("")), Err(DecodeError::Malformed));
    assert_eq!(Schema::parse(&chars("{}")), Err(DecodeError::Malformed));
    assert_eq!(
        Schema::parse(&chars("{\"game\":\"wh2\",\"version\":1,\"tables\":[]")),
        Err(DecodeError::Malformed)
    );
    assert_eq!(
        Schema::parse(&chars("{\"game\":\"wh2\",\"version\":x,\"tables\":[]}")),
        Err(DecodeError::Malformed)
    );
    assert_eq!(
        Schema::parse(&chars("{\"game\":\"wh2\",\"version\":1,\"tables\":[]}trailing")),
        Err(DecodeError::Malformed)
    );
    assert_eq!(
        Schema::parse(&chars("{\"game\":\"wh2\",\"version\":99999999999,\"tables\":[]}")),
        Err(DecodeError::Malformed)
    );
}

#[test]
fn parse_rejects_unknown_field_type_tag() {
    let text = "{\"game\":\"wh2\",\"version\":1,\"tables\":[{\"name\":\"t\",\
                \"definitions\":[{\"version\":1,\"fields\":[{\"field_name\":\"a\",\
                \"field_type\":\"Decimal\",\"field_is_key\":false,\"field_is_reference\":null,\
                \"field_description\":\"\"}]}]}]}";
    assert_eq!(Schema::parse(&chars(text)), Err(DecodeError::Malformed));
}
