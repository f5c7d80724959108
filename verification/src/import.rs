//! The assembly-kit importer: heuristic translation of a vendor-exported
//! table description into the internal field model.
//!
//! The translation applies, per raw field and in this order: a denylist of
//! localisation/meta fields that are not part of the binary layout; the
//! primary-key flag; the optional (source table, first source column)
//! reference; type inference from the raw type tag with the documented
//! per-game overrides; and the optional description.

use crate::schema::{Field, FieldType, FieldView, TableDefinition};
use crate::text::str_eq;
use vstd::prelude::*;
use vstd::string::StrSliceExecFns;

verus! {

broadcast use vstd::string::group_string_axioms;

/// One raw field descriptor as the external assembly-kit parser hands it in.
#[derive(Clone, Debug, PartialEq)]
pub struct RawField {
    pub name: String,
    pub primary_key: String,
    pub column_source_table: Option<String>,
    pub column_source_column: Option<Vec<String>>,
    pub field_type: String,
    pub required: String,
    pub field_description: Option<String>,
}

/// The raw table description: the list of raw field descriptors.
#[derive(Clone, Debug, PartialEq)]
pub struct RawTable {
    pub field: Vec<RawField>,
}

/// Mathematical value of a `RawField`.
#[verifier::ext_equal]
pub ghost struct RawFieldView {
    pub name: Seq<char>,
    pub primary_key: Seq<char>,
    pub column_source_table: Option<Seq<char>>,
    pub column_source_column: Option<Seq<Seq<char>>>,
    pub field_type: Seq<char>,
    pub required: Seq<char>,
    pub field_description: Option<Seq<char>>,
}

impl View for RawField {
    type V = RawFieldView;

    open spec fn view(&self) -> RawFieldView {
        RawFieldView {
            name: self.name@,
            primary_key: self.primary_key@,
            column_source_table: match self.column_source_table {
                Some(t) => Some(t@),
                None => None,
            },
            column_source_column: match self.column_source_column {
                Some(cs) => Some(cs@.map_values(|c: String| c@)),
                None => None,
            },
            field_type: self.field_type@,
            required: self.required@,
            field_description: match self.field_description {
                Some(d) => Some(d@),
                None => None,
            },
        }
    }
}

impl View for RawTable {
    type V = Seq<RawFieldView>;

    open spec fn view(&self) -> Seq<RawFieldView> {
        self.field@.map_values(|f: RawField| f@)
    }
}

/// Raw fields the importer drops: localisation/meta columns that the
/// assembly kit lists but that are absent from the final binary layout.
pub open spec fn spec_excluded(name: Seq<char>) -> bool {
    ||| name == "game_expansion_key"@
    ||| name == "localised_text"@
    ||| name == "localised_name"@
    ||| name == "localised_tooltip"@
    ||| name == "description"@
    ||| name == "objectives_team_1"@
    ||| name == "objectives_team_2"@
    ||| name == "short_description_text"@
    ||| name == "historical_description_text"@
    ||| name == "strengths_weaknesses_text"@
    ||| name == "onscreen_name"@
    ||| name == "onscreen_description"@
    ||| name == "on_screen_name"@
    ||| name == "on_screen_description"@
    ||| name == "on_screen_target"@
}

/// True when the table name carries the key/value config-table prefix.
pub open spec fn spec_kv_prefixed(table_name: Seq<char>) -> bool {
    table_name.len() >= 3 && table_name[0] == '_' && table_name[1] == 'k' && table_name[2] == 'v'
}

/// Type inference from the raw type tag, with the documented overrides: the
/// key/value config tables declare integer columns that hold floats; key
/// columns are never optional; one named table has a text column that holds
/// floats; unrecognised type or required tags fall back to `Integer`.
pub open spec fn spec_field_type(
    table_name: Seq<char>,
    name: Seq<char>,
    type_tag: Seq<char>,
    required: Seq<char>,
) -> FieldType {
    if type_tag == "yesno"@ {
        FieldType::Boolean
    } else if type_tag == "single"@ || type_tag == "decimal"@ || type_tag == "double"@ {
        FieldType::Float
    } else if type_tag == "integer"@ || type_tag == "autonumber"@ {
        if spec_kv_prefixed(table_name) {
            FieldType::Float
        } else {
            FieldType::Integer
        }
    } else if type_tag == "text"@ {
        if name == "key"@ {
            FieldType::StringU8
        } else if required == "1"@ {
            if table_name == "_kv_winds_of_magic_params_tables"@ && name == "value"@ {
                FieldType::Float
            } else {
                FieldType::StringU8
            }
        } else if required == "0"@ {
            FieldType::OptionalStringU8
        } else {
            FieldType::Integer
        }
    } else {
        FieldType::Integer
    }
}

/// The field the importer builds from one raw descriptor.
pub open spec fn spec_import_field(f: RawFieldView, table_name: Seq<char>) -> FieldView {
    FieldView {
        name: f.name,
        ty: spec_field_type(table_name, f.name, f.field_type, f.required),
        is_key: f.primary_key == "1"@,
        reference: match (f.column_source_table, f.column_source_column) {
            (Some(t), Some(cs)) => if cs.len() > 0 {
                Some((t, cs[0]))
            } else {
                None
            },
            _ => None,
        },
        description: match f.field_description {
            Some(d) => d,
            None => Seq::<char>::empty(),
        },
    }
}

/// The whole imported field list: raw fields in order, denylisted names
/// dropped, every other field translated by `spec_import_field`.
pub open spec fn spec_import_fields(fs: Seq<RawFieldView>, table_name: Seq<char>) -> Seq<FieldView>
    decreases fs.len(),
{
    if fs.len() == 0 {
        Seq::<FieldView>::empty()
    } else {
        let front = spec_import_fields(fs.drop_last(), table_name);
        if spec_excluded(fs.last().name) {
            front
        } else {
            front.push(spec_import_field(fs.last(), table_name))
        }
    }
}

/// A raw field that declares a source table also carries a non-empty source
/// column list; the importer reads its first element.
pub open spec fn raw_field_wf(f: RawFieldView) -> bool {
    f.column_source_table is Some ==> f.column_source_column is Some
        && f.column_source_column->0.len() > 0
}

/// Every field the importer emits keeps the name of the raw field it came
/// from, so a denylisted name never appears in an imported definition.
pub proof fn lemma_denylist_complete(fs: Seq<RawFieldView>, table_name: Seq<char>, name: Seq<char>)
    requires
        spec_excluded(name),
    ensures
        forall|j: int| 0 <= j < spec_import_fields(fs, table_name).len()
            ==> spec_import_fields(fs, table_name)[j].name != name,
    decreases fs.len(),
{
    if fs.len() == 0 {
    } else {
        lemma_denylist_complete(fs.drop_last(), table_name, name);
    }
}

/// The first character and length of each raw tag literal the importer
/// distinguishes, so that the tags are provably distinct from one another.
proof fn lemma_tag_literals()
    ensures
        "yesno"@.len() == 5 && "yesno"@[0] == 'y',
        "single"@.len() == 6 && "single"@[0] == 's',
        "decimal"@.len() == 7 && "decimal"@[0] == 'd',
        "double"@.len() == 6 && "double"@[0] == 'd',
        "integer"@.len() == 7 && "integer"@[0] == 'i',
        "autonumber"@.len() == 10 && "autonumber"@[0] == 'a',
        "text"@.len() == 4 && "text"@[0] == 't',
        "1"@.len() == 1 && "1"@[0] == '1',
        "0"@.len() == 1 && "0"@[0] == '0',
{
    reveal_strlit("yesno");
    reveal_strlit("single");
    reveal_strlit("decimal");
    reveal_strlit("double");
    reveal_strlit("integer");
    reveal_strlit("autonumber");
    reveal_strlit("text");
    reveal_strlit("1");
    reveal_strlit("0");
}

/// On a table with the key/value prefix, integer-tagged columns import as
/// `Float`; on any other table they import as `Integer`.
pub proof fn lemma_kv_override(table_name: Seq<char>, name: Seq<char>, required: Seq<char>)
    ensures
        spec_kv_prefixed(table_name) ==> spec_field_type(table_name, name, "integer"@, required)
            == FieldType::Float,
        !spec_kv_prefixed(table_name) ==> spec_field_type(table_name, name, "integer"@, required)
            == FieldType::Integer,
{
    lemma_tag_literals();
}

/// A text column named `key` imports as `StringU8` whatever its required
/// flag says: required-flag detection is unreliable for key columns.
pub proof fn lemma_key_name_override(table_name: Seq<char>, required: Seq<char>)
    ensures
        spec_field_type(table_name, "key"@, "text"@, required) == FieldType::StringU8,
{
    lemma_tag_literals();
}

/// The required flag decides what a text column becomes — `"1"` a mandatory
/// string, `"0"` an optional one, anything else the documented `Integer`
/// fallback — outside the two name-specific overrides.
pub proof fn lemma_required_flag(table_name: Seq<char>, name: Seq<char>, required: Seq<char>)
    requires
        name != "key"@,
        !(table_name == "_kv_winds_of_magic_params_tables"@ && name == "value"@),
    ensures
        spec_field_type(table_name, name, "text"@, "1"@) == FieldType::StringU8,
        spec_field_type(table_name, name, "text"@, "0"@) == FieldType::OptionalStringU8,
        required != "1"@ && required != "0"@ ==> spec_field_type(table_name, name, "text"@, required)
            == FieldType::Integer,
{
    lemma_tag_literals();
}

/// True iff the name is on the importer's denylist.
fn is_excluded_name(name: &str) -> (r: bool)
    ensures
        r == spec_excluded(name@),
{
    str_eq(name, "game_expansion_key") || str_eq(name, "localised_text") || str_eq(
        name,
        "localised_name",
    ) || str_eq(name, "localised_tooltip") || str_eq(name, "description") || str_eq(
        name,
        "objectives_team_1",
    ) || str_eq(name, "objectives_team_2") || str_eq(name, "short_description_text") || str_eq(
        name,
        "historical_description_text",
    ) || str_eq(name, "strengths_weaknesses_text") || str_eq(name, "onscreen_name") || str_eq(
        name,
        "onscreen_description",
    ) || str_eq(name, "on_screen_name") || str_eq(name, "on_screen_description") || str_eq(
        name,
        "on_screen_target",
    )
}

/// True iff the table name starts with the key/value prefix.
fn has_kv_prefix(table_name: &str) -> (r: bool)
    ensures
        r == spec_kv_prefixed(table_name@),
{
    let n = table_name.unicode_len();
    if n < 3 {
        return false;
    }
    table_name.get_char(0) == '_' && table_name.get_char(1) == 'k' && table_name.get_char(2) == 'v'
}

/// Infers the field type for one raw field, as `spec_field_type` says.
fn infer_field_type(table_name: &str, name: &str, type_tag: &str, required: &str) -> (t: FieldType)
    ensures
        t == spec_field_type(table_name@, name@, type_tag@, required@),
{
    if str_eq(type_tag, "yesno") {
        FieldType::Boolean
    } else if str_eq(type_tag, "single") || str_eq(type_tag, "decimal") || str_eq(
        type_tag,
        "double",
    ) {
        FieldType::Float
    } else if str_eq(type_tag, "integer") || str_eq(type_tag, "autonumber") {
        if has_kv_prefix(table_name) {
            FieldType::Float
        } else {
            FieldType::Integer
        }
    } else if str_eq(type_tag, "text") {
        if str_eq(name, "key") {
            FieldType::StringU8
        } else if str_eq(required, "1") {
            if str_eq(table_name, "_kv_winds_of_magic_params_tables") && str_eq(name, "value") {
                FieldType::Float
            } else {
                FieldType::StringU8
            }
        } else if str_eq(required, "0") {
            FieldType::OptionalStringU8
        } else {
            FieldType::Integer
        }
    } else {
        FieldType::Integer
    }
}

impl TableDefinition {
    /// Builds a definition from an assembly-kit table description.  The
    /// version is the caller's; the fields are the raw fields in order, the
    /// denylisted ones dropped and the rest translated field by field.
    pub fn new_from_assembly_kit(
        imported_table_definition: &RawTable,
        version: u32,
        table_name: &str,
    ) -> (r: TableDefinition)
        requires
            forall|i: int| 0 <= i < imported_table_definition@.len() ==> raw_field_wf(
                #[trigger] imported_table_definition@[i],
            ),
        ensures
            r@.version == version,
            r@.fields == spec_import_fields(imported_table_definition@, table_name@),
    {
        let ghost raws = imported_table_definition@;
        let mut fields: Vec<Field> = Vec::new();
        let n = imported_table_definition.field.len();
        let mut i: usize = 0;
        proof {
            assert(fields@.map_values(|f: Field| f@) =~= spec_import_fields(
                raws.take(0),
                table_name@,
            ));
        }
        while i < n
            invariant
                n == imported_table_definition.field.len(),
                raws == imported_table_definition@,
                forall|k: int| 0 <= k < raws.len() ==> raw_field_wf(#[trigger] raws[k]),
                0 <= i <= n,
                fields@.map_values(|f: Field| f@) == spec_import_fields(
                    raws.take(i as int),
                    table_name@,
                ),
            decreases n - i,
        {
            let raw = &imported_table_definition.field[i];
            proof {
                assert(raws[i as int] == raw@);
                assert(raws.take(i + 1).drop_last() =~= raws.take(i as int));
                assert(raws.take(i + 1).last() == raws[i as int]);
            }
            if !is_excluded_name(raw.name.as_str()) {
                let field_name = raw.name.clone();
                let field_is_key = str_eq(raw.primary_key.as_str(), "1");
                proof {
                    assert(raw_field_wf(raws[i as int]));
                }
                let field_is_reference: Option<(String, String)> = match (
                    &raw.column_source_table,
                    &raw.column_source_column,
                ) {
                    (Some(t), Some(cols)) => Some((t.clone(), cols[0].clone())),
                    _ => None,
                };
                let field_type = infer_field_type(
                    table_name,
                    raw.name.as_str(),
                    raw.field_type.as_str(),
                    raw.required.as_str(),
                );
                let field_description = match &raw.field_description {
                    Some(description) => description.clone(),
                    None => String::new(),
                };
                let new_field = Field::new(
                    field_name,
                    field_type,
                    field_is_key,
                    field_is_reference,
                    field_description,
                );
                proof {
                    assert(new_field@ == spec_import_field(raws[i as int], table_name@));
                }
                let ghost fields_before = fields@.map_values(|f: Field| f@);
                fields.push(new_field);
                proof {
                    assert(fields@.map_values(|f: Field| f@) =~= fields_before.push(new_field@));
                }
            }
            i += 1;
        }
        proof {
            assert(raws.take(n as int) =~= raws);
        }
        let r = TableDefinition { version, fields };
        r
    }
}

} // verus!
