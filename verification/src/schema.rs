//! The schema registry: field layouts per game, table and version.
//!
//! A `Schema` owns one `TableDefinitions` per table name; each set owns one
//! `TableDefinition` per version; a definition is an ordered list of `Field`.
//! Both collections are updated through upsert operations that replace a
//! matching entry in place (keeping its position) or append a new one.

use crate::text::str_eq;
use vstd::prelude::*;

verus! {

/// The primitive encodings a table column can have.  String variants record
/// whether the column may be absent on disk.
#[derive(Clone, Debug, PartialEq)]
pub enum FieldType {
    Boolean,
    Float,
    Integer,
    StringU8,
    StringU16,
    OptionalStringU8,
    OptionalStringU16,
}

/// One column of a table: name, encoding, key/reference/description metadata.
#[derive(Clone, Debug, PartialEq)]
pub struct Field {
    pub field_name: String,
    pub field_type: FieldType,
    pub field_is_key: bool,
    pub field_is_reference: Option<(String, String)>,
    pub field_description: String,
}

/// The ordered field layout for one (table, version) pair.
#[derive(Clone, Debug, PartialEq)]
pub struct TableDefinition {
    pub version: u32,
    pub fields: Vec<Field>,
}

/// A named table's layouts across versions.
#[derive(Clone, Debug, PartialEq)]
pub struct TableDefinitions {
    pub name: String,
    pub versions: Vec<TableDefinition>,
}

/// A game's schema: every table definition set known for that game.
#[derive(Clone, Debug, PartialEq)]
pub struct Schema {
    pub game: String,
    pub version: u32,
    pub tables_definitions: Vec<TableDefinitions>,
}

/// Mathematical value of a `Field`.
#[verifier::ext_equal]
pub ghost struct FieldView {
    pub name: Seq<char>,
    pub ty: FieldType,
    pub is_key: bool,
    pub reference: Option<(Seq<char>, Seq<char>)>,
    pub description: Seq<char>,
}

/// Mathematical value of a `TableDefinition`.
#[verifier::ext_equal]
pub ghost struct DefinitionView {
    pub version: u32,
    pub fields: Seq<FieldView>,
}

/// Mathematical value of a `TableDefinitions`.
#[verifier::ext_equal]
pub ghost struct TableSetView {
    pub name: Seq<char>,
    pub versions: Seq<DefinitionView>,
}

/// Mathematical value of a `Schema`.
#[verifier::ext_equal]
pub ghost struct SchemaView {
    pub game: Seq<char>,
    pub version: u32,
    pub tables: Seq<TableSetView>,
}

/// Value of an optional (table, column) reference.
pub open spec fn spec_reference_view(r: Option<(String, String)>) -> Option<(Seq<char>, Seq<char>)> {
    match r {
        Some(p) => Some((p.0@, p.1@)),
        None => None,
    }
}

impl View for Field {
    type V = FieldView;

    open spec fn view(&self) -> FieldView {
        FieldView {
            name: self.field_name@,
            ty: self.field_type,
            is_key: self.field_is_key,
            reference: spec_reference_view(self.field_is_reference),
            description: self.field_description@,
        }
    }
}

impl View for TableDefinition {
    type V = DefinitionView;

    open spec fn view(&self) -> DefinitionView {
        DefinitionView {
            version: self.version,
            fields: self.fields@.map_values(|f: Field| f@),
        }
    }
}

impl View for TableDefinitions {
    type V = TableSetView;

    open spec fn view(&self) -> TableSetView {
        TableSetView {
            name: self.name@,
            versions: self.versions@.map_values(|d: TableDefinition| d@),
        }
    }
}

impl View for Schema {
    type V = SchemaView;

    open spec fn view(&self) -> SchemaView {
        SchemaView {
            game: self.game@,
            version: self.version,
            tables: self.tables_definitions@.map_values(|t: TableDefinitions| t@),
        }
    }
}

/// Index of the first table set with the given name, if any.
pub open spec fn spec_find_table(tables: Seq<TableSetView>, name: Seq<char>) -> Option<int>
    decreases tables.len(),
{
    if tables.len() == 0 {
        None
    } else if tables[0].name == name {
        Some(0)
    } else {
        match spec_find_table(tables.drop_first(), name) {
            Some(i) => Some(i + 1),
            None => None,
        }
    }
}

/// Index of the first definition with the given version, if any.
pub open spec fn spec_find_version(defs: Seq<DefinitionView>, version: u32) -> Option<int>
    decreases defs.len(),
{
    if defs.len() == 0 {
        None
    } else if defs[0].version == version {
        Some(0)
    } else {
        match spec_find_version(defs.drop_first(), version) {
            Some(i) => Some(i + 1),
            None => None,
        }
    }
}

/// Replace-in-place-or-append, keyed on the set's name.
pub open spec fn spec_upsert_table(tables: Seq<TableSetView>, t: TableSetView) -> Seq<TableSetView> {
    match spec_find_table(tables, t.name) {
        Some(i) => tables.update(i, t),
        None => tables.push(t),
    }
}

/// Replace-in-place-or-append, keyed on the definition's version.
pub open spec fn spec_upsert_version(defs: Seq<DefinitionView>, d: DefinitionView) -> Seq<DefinitionView> {
    match spec_find_version(defs, d.version) {
        Some(i) => defs.update(i, d),
        None => defs.push(d),
    }
}

/// No two table sets share a name.
pub open spec fn table_names_unique(tables: Seq<TableSetView>) -> bool {
    forall|i: int, j: int| 0 <= i < j < tables.len() ==> tables[i].name != tables[j].name
}

/// No two definitions share a version.
pub open spec fn versions_unique(defs: Seq<DefinitionView>) -> bool {
    forall|i: int, j: int| 0 <= i < j < defs.len() ==> defs[i].version != defs[j].version
}

/// `spec_find_table` returns the first index whose name matches, or reports
/// that none does.
pub proof fn lemma_find_table_props(tables: Seq<TableSetView>, name: Seq<char>)
    ensures
        match spec_find_table(tables, name) {
            Some(i) => 0 <= i < tables.len() && tables[i].name == name && forall|j: int|
                0 <= j < i ==> tables[j].name != name,
            None => forall|j: int| 0 <= j < tables.len() ==> tables[j].name != name,
        },
    decreases tables.len(),
{
    if tables.len() == 0 {
    } else if tables[0].name == name {
    } else {
        lemma_find_table_props(tables.drop_first(), name);
        assert forall|j: int| 1 <= j < tables.len() implies tables[j]
            == tables.drop_first()[j - 1] by {}
    }
}

/// Conversely, the first matching index is what `spec_find_table` returns.
pub proof fn lemma_find_table_first(tables: Seq<TableSetView>, name: Seq<char>, i: int)
    requires
        0 <= i < tables.len(),
        tables[i].name == name,
        forall|j: int| 0 <= j < i ==> tables[j].name != name,
    ensures
        spec_find_table(tables, name) == Some(i),
    decreases tables.len(),
{
    if i == 0 {
    } else {
        assert(tables[0].name != name);
        assert forall|j: int| 0 <= j < i - 1 implies tables.drop_first()[j].name != name by {
            assert(tables.drop_first()[j] == tables[j + 1]);
        }
        assert(tables.drop_first()[i - 1] == tables[i]);
        lemma_find_table_first(tables.drop_first(), name, i - 1);
    }
}

/// `spec_find_version` returns the first index whose version matches, or
/// reports that none does.
pub proof fn lemma_find_version_props(defs: Seq<DefinitionView>, version: u32)
    ensures
        match spec_find_version(defs, version) {
            Some(i) => 0 <= i < defs.len() && defs[i].version == version && forall|j: int|
                0 <= j < i ==> defs[j].version != version,
            None => forall|j: int| 0 <= j < defs.len() ==> defs[j].version != version,
        },
    decreases defs.len(),
{
    if defs.len() == 0 {
    } else if defs[0].version == version {
    } else {
        lemma_find_version_props(defs.drop_first(), version);
        assert forall|j: int| 1 <= j < defs.len() implies defs[j]
            == defs.drop_first()[j - 1] by {}
    }
}

/// Conversely, the first matching index is what `spec_find_version` returns.
pub proof fn lemma_find_version_first(defs: Seq<DefinitionView>, version: u32, i: int)
    requires
        0 <= i < defs.len(),
        defs[i].version == version,
        forall|j: int| 0 <= j < i ==> defs[j].version != version,
    ensures
        spec_find_version(defs, version) == Some(i),
    decreases defs.len(),
{
    if i == 0 {
    } else {
        assert(defs[0].version != version);
        assert forall|j: int| 0 <= j < i - 1 implies defs.drop_first()[j].version != version by {
            assert(defs.drop_first()[j] == defs[j + 1]);
        }
        assert(defs.drop_first()[i - 1] == defs[i]);
        lemma_find_version_first(defs.drop_first(), version, i - 1);
    }
}

/// Upserting a table set whose name is already present replaces that entry in
/// place: the length and every other entry are unchanged.  Upserting a new
/// name appends.  Repeating the same upsert changes nothing further.
pub proof fn lemma_upsert_table_idempotent(tables: Seq<TableSetView>, t: TableSetView)
    ensures
        spec_find_table(tables, t.name) is Some ==> spec_upsert_table(tables, t).len()
            == tables.len(),
        spec_find_table(tables, t.name) is None ==> spec_upsert_table(tables, t)
            == tables.push(t),
        spec_upsert_table(spec_upsert_table(tables, t), t) == spec_upsert_table(tables, t),
{
    lemma_find_table_props(tables, t.name);
    match spec_find_table(tables, t.name) {
        Some(i) => {
            let u = tables.update(i, t);
            assert forall|j: int| 0 <= j < i implies u[j].name != t.name by {
                assert(u[j] == tables[j]);
            }
            lemma_find_table_first(u, t.name, i);
            assert(u.update(i, t) =~= u);
        },
        None => {
            let u = tables.push(t);
            let n = tables.len() as int;
            assert forall|j: int| 0 <= j < n implies u[j].name != t.name by {
                assert(u[j] == tables[j]);
            }
            assert(u[n] == t);
            lemma_find_table_first(u, t.name, n);
            assert(u.update(n, t) =~= u);
        },
    }
}

/// The same in-place replacement and idempotence, for version-keyed upserts.
pub proof fn lemma_upsert_version_idempotent(defs: Seq<DefinitionView>, d: DefinitionView)
    ensures
        spec_find_version(defs, d.version) is Some ==> spec_upsert_version(defs, d).len()
            == defs.len(),
        spec_find_version(defs, d.version) is None ==> spec_upsert_version(defs, d)
            == defs.push(d),
        spec_upsert_version(spec_upsert_version(defs, d), d) == spec_upsert_version(defs, d),
{
    lemma_find_version_props(defs, d.version);
    match spec_find_version(defs, d.version) {
        Some(i) => {
            let u = defs.update(i, d);
            assert forall|j: int| 0 <= j < i implies u[j].version != d.version by {
                assert(u[j] == defs[j]);
            }
            lemma_find_version_first(u, d.version, i);
            assert(u.update(i, d) =~= u);
        },
        None => {
            let u = defs.push(d);
            let n = defs.len() as int;
            assert forall|j: int| 0 <= j < n implies u[j].version != d.version by {
                assert(u[j] == defs[j]);
            }
            assert(u[n] == d);
            lemma_find_version_first(u, d.version, n);
            assert(u.update(n, d) =~= u);
        },
    }
}

impl Schema {
    /// Creates an empty registry for one game.
    pub fn new(game: String) -> (r: Schema)
        ensures
            r@.game == game@,
            r@.version == 1u32,
            r@.tables == Seq::<TableSetView>::empty(),
    {
        let version = 1u32;
        let tables_definitions: Vec<TableDefinitions> = Vec::new();
        let r = Schema { game, version, tables_definitions };
        proof {
            assert(r@.tables =~= Seq::<TableSetView>::empty());
        }
        r
    }

    /// Returns the index of the table set with the given name, if any.
    pub fn get_table_definitions(&self, table_name: &str) -> (r: Option<usize>)
        ensures
            self@.tables.len() <= usize::MAX,
            match spec_find_table(self@.tables, table_name@) {
                Some(i) => r == Some(i as usize),
                None => r is None,
            },
    {
        let n = self.tables_definitions.len();
        let mut idx: usize = 0;
        while idx < n
            invariant
                n == self.tables_definitions.len(),
                0 <= idx <= n,
                forall|j: int| 0 <= j < idx ==> self@.tables[j].name != table_name@,
            decreases n - idx,
        {
            if str_eq(self.tables_definitions[idx].name.as_str(), table_name) {
                proof {
                    lemma_find_table_first(self@.tables, table_name@, idx as int);
                }
                return Some(idx);
            }
            idx += 1;
        }
        proof {
            lemma_find_table_props(self@.tables, table_name@);
        }
        None
    }

    /// Upserts a table set: if one with the same name exists, it is replaced
    /// at the same position; otherwise the new set is appended.  With unique
    /// names before the call, names stay unique after it.
    pub fn add_table_definitions(&mut self, table_definitions: TableDefinitions)
        ensures
            final(self)@.game == old(self)@.game,
            final(self)@.version == old(self)@.version,
            final(self)@.tables == spec_upsert_table(old(self)@.tables, table_definitions@),
            table_names_unique(old(self)@.tables) ==> table_names_unique(final(self)@.tables),
    {
        let ghost old_tables = self@.tables;
        let ghost tv = table_definitions@;
        proof {
            lemma_find_table_props(old_tables, tv.name);
        }
        let found = self.get_table_definitions(table_definitions.name.as_str());
        match found {
            Some(i) => {
                self.tables_definitions.remove(i);
                self.tables_definitions.insert(i, table_definitions);
                proof {
                    assert(final(self)@.tables =~= old_tables.update(i as int, tv));
                    assert forall|p: int, q: int|
                        table_names_unique(old_tables) && 0 <= p < q
                            < final(self)@.tables.len() implies final(self)@.tables[p].name
                        != final(self)@.tables[q].name by {
                        assert(old_tables[i as int].name == tv.name);
                    }
                }
            },
            None => {
                self.tables_definitions.push(table_definitions);
                proof {
                    assert(final(self)@.tables =~= old_tables.push(tv));
                    assert forall|p: int, q: int|
                        table_names_unique(old_tables) && 0 <= p < q
                            < final(self)@.tables.len() implies final(self)@.tables[p].name
                        != final(self)@.tables[q].name by {}
                }
            },
        }
    }
}

impl TableDefinitions {
    /// Creates an empty definition set for one table name.
    pub fn new(name: &str) -> (r: TableDefinitions)
        ensures
            r@.name == name@,
            r@.versions == Seq::<DefinitionView>::empty(),
    {
        let name = name.to_owned();
        let versions: Vec<TableDefinition> = Vec::new();
        let r = TableDefinitions { name, versions };
        proof {
            assert(r@.versions =~= Seq::<DefinitionView>::empty());
        }
        r
    }

    /// Returns the index of the definition with the given version, if any.
    pub fn get_table_version(&self, table_version: u32) -> (r: Option<usize>)
        ensures
            self@.versions.len() <= usize::MAX,
            match spec_find_version(self@.versions, table_version) {
                Some(i) => r == Some(i as usize),
                None => r is None,
            },
    {
        let n = self.versions.len();
        let mut idx: usize = 0;
        while idx < n
            invariant
                n == self.versions.len(),
                0 <= idx <= n,
                forall|j: int| 0 <= j < idx ==> self@.versions[j].version != table_version,
            decreases n - idx,
        {
            if self.versions[idx].version == table_version {
                proof {
                    lemma_find_version_first(self@.versions, table_version, idx as int);
                }
                return Some(idx);
            }
            idx += 1;
        }
        proof {
            lemma_find_version_props(self@.versions, table_version);
        }
        None
    }

    /// Upserts a definition: if one with the same version exists, it is
    /// replaced at the same position; otherwise the new definition is
    /// appended.  With unique versions before the call, they stay unique.
    pub fn add_table_definition(&mut self, table_definition: TableDefinition)
        ensures
            final(self)@.name == old(self)@.name,
            final(self)@.versions == spec_upsert_version(old(self)@.versions, table_definition@),
            versions_unique(old(self)@.versions) ==> versions_unique(final(self)@.versions),
    {
        let ghost old_versions = self@.versions;
        let ghost dv = table_definition@;
        proof {
            lemma_find_version_props(old_versions, dv.version);
        }
        let found = self.get_table_version(table_definition.version);
        match found {
            Some(i) => {
                self.versions.remove(i);
                self.versions.insert(i, table_definition);
                proof {
                    assert(final(self)@.versions =~= old_versions.update(i as int, dv));
                    assert forall|p: int, q: int|
                        versions_unique(old_versions) && 0 <= p < q
                            < final(self)@.versions.len() implies final(self)@.versions[p].version
                        != final(self)@.versions[q].version by {
                        assert(old_versions[i as int].version == dv.version);
                    }
                }
            },
            None => {
                self.versions.push(table_definition);
                proof {
                    assert(final(self)@.versions =~= old_versions.push(dv));
                    assert forall|p: int, q: int|
                        versions_unique(old_versions) && 0 <= p < q
                            < final(self)@.versions.len() implies final(self)@.versions[p].version
                        != final(self)@.versions[q].version by {}
                }
            },
        }
    }
}

impl TableDefinition {
    /// Creates an empty field layout for one table version.
    pub fn new(version: u32) -> (r: TableDefinition)
        ensures
            r@.version == version,
            r@.fields == Seq::<FieldView>::empty(),
    {
        let fields: Vec<Field> = Vec::new();
        let r = TableDefinition { version, fields };
        proof {
            assert(r@.fields =~= Seq::<FieldView>::empty());
        }
        r
    }

    /// Appends a field with an empty description.  Duplicate names are not
    /// checked; callers keep them unique where downstream consumers need it.
    pub fn add_field(
        &mut self,
        field_name: String,
        field_type: FieldType,
        field_is_key: bool,
        field_is_reference: Option<(String, String)>,
    )
        ensures
            final(self)@.version == old(self)@.version,
            final(self)@.fields == old(self)@.fields.push(
                FieldView {
                    name: field_name@,
                    ty: field_type,
                    is_key: field_is_key,
                    reference: spec_reference_view(field_is_reference),
                    description: Seq::<char>::empty(),
                },
            ),
    {
        let ghost old_fields = self@.fields;
        let f = Field::new(field_name, field_type, field_is_key, field_is_reference, String::new());
        let ghost fv = f@;
        self.fields.push(f);
        proof {
            assert(final(self)@.fields =~= old_fields.push(fv));
        }
    }
}

impl Field {
    /// Creates a field value from its parts.
    pub fn new(
        field_name: String,
        field_type: FieldType,
        field_is_key: bool,
        field_is_reference: Option<(String, String)>,
        field_description: String,
    ) -> (r: Field)
        ensures
            r@ == (FieldView {
                name: field_name@,
                ty: field_type,
                is_key: field_is_key,
                reference: spec_reference_view(field_is_reference),
                description: field_description@,
            }),
    {
        Field { field_name, field_type, field_is_key, field_is_reference, field_description }
    }
}

} // verus!
