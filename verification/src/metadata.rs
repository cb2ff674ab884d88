//! The store's metadata: named values, of which `version` tells whether the
//! store can be used as it is.

use crate::database::{Store, StoreView};
use crate::schema::{Field, FieldView, Schema, SchemaView};
use crate::text::same_text;
use vstd::prelude::*;
use vstd::string::*;

verus! {

/// The schema version that a store must carry to be used as it is.
pub const VERSION: &'static str = "1";

/// One row of the metadata table.
#[derive(Debug, PartialEq, Eq)]
pub struct Metadata {
    pub name: String,
    pub value: String,
}

/// What a `Metadata` holds, as mathematical values.
pub struct MetadataView {
    pub name: Seq<char>,
    pub value: Seq<char>,
}

impl View for Metadata {
    type V = MetadataView;

    open spec fn view(&self) -> MetadataView {
        MetadataView { name: self.name@, value: self.value@ }
    }
}

impl DeepView for Metadata {
    type V = MetadataView;

    open spec fn deep_view(&self) -> MetadataView {
        self@
    }
}

impl Clone for Metadata {
    fn clone(&self) -> (copy: Self)
        ensures
            copy == *self,
    {
        Metadata { name: self.name.clone(), value: self.value.clone() }
    }
}

/// The row that carries the current version.
pub open spec fn current_row() -> MetadataView {
    MetadataView { name: "version"@, value: VERSION@ }
}

/// The first row named `version`, if there is one.
pub open spec fn version_row(rows: Seq<MetadataView>) -> Option<MetadataView>
    decreases rows.len(),
{
    if rows.len() == 0 {
        None
    } else if rows[0].name == "version"@ {
        Some(rows[0])
    } else {
        version_row(rows.drop_first())
    }
}

/// The version row of a store, if its metadata table exists and holds one.
pub open spec fn stored_version(store: StoreView) -> Option<MetadataView> {
    match store.metadata {
        Some(rows) => version_row(rows),
        None => None,
    }
}

/// Whether a store carries the current version.
pub open spec fn up_to_date(store: StoreView) -> bool {
    stored_version(store) matches Some(row) && row.value == VERSION@
}

/// The schema of the metadata table.
pub open spec fn metadata_schema() -> SchemaView {
    SchemaView {
        table_name: "metadata"@,
        primary_key: (FieldView { name: "name"@, nullable: false, field_type: "TEXT"@ }, false),
        fields: seq![FieldView { name: "value"@, nullable: false, field_type: "TEXT"@ }],
    }
}

/// The statement that writes the current version.
pub open spec fn version_statement() -> Seq<char> {
    "INSERT INTO metadata (name, value) VALUES ('version', '"@ + VERSION@ + "')"@
}

impl Metadata {
    /// The name of the metadata table.
    pub fn table() -> (name: String)
        ensures
            name@ == metadata_schema().table_name,
    {
        String::from_str("metadata")
    }

    /// The primary key of the metadata table, which the store does not
    /// assign.
    pub fn primary_key() -> (key: (Field, bool))
        ensures
            (key.0@, key.1) == metadata_schema().primary_key,
    {
        (
            Field {
                name: String::from_str("name"),
                nullable: false,
                field_type: String::from_str("TEXT"),
            },
            false,
        )
    }

    /// The other columns of the metadata table.
    pub fn fields() -> (fields: Vec<Field>)
        ensures
            fields.deep_view() == metadata_schema().fields,
    {
        let mut fields: Vec<Field> = Vec::new();
        fields.push(
            Field {
                name: String::from_str("value"),
                nullable: false,
                field_type: String::from_str("TEXT"),
            },
        );
        assert(fields.deep_view() =~= metadata_schema().fields);
        fields
    }

    /// The schema of the metadata table.
    pub fn schema() -> (schema: Schema)
        ensures
            schema@ == metadata_schema(),
    {
        Schema {
            table_name: Metadata::table(),
            primary_key: Metadata::primary_key(),
            fields: Metadata::fields(),
        }
    }

    /// The version row of the store, if it has one.
    pub fn current_version(store: &Store) -> (row: Option<Metadata>)
        ensures
            row.deep_view() == stored_version(store@),
    {
        let rows = match &store.metadata {
            None => {
                return None;
            },
            Some(rows) => rows,
        };
        let mut i: usize = 0;
        assert(rows.deep_view().skip(0) =~= rows.deep_view());
        while i < rows.len()
            invariant
                i <= rows.len(),
                stored_version(store@) == version_row(rows.deep_view()),
                version_row(rows.deep_view()) == version_row(rows.deep_view().skip(i as int)),
            decreases rows.len() - i,
        {
            proof {
                let rest = rows.deep_view().skip(i as int);
                assert(rest[0] == rows@[i as int]@);
                assert(rest.drop_first() =~= rows.deep_view().skip(i + 1));
            }
            if same_text(rows[i].name.as_str(), "version") {
                return Some(rows[i].clone());
            }
            i += 1;
        }
        None
    }

    /// Writes the current version into the metadata table, which must exist
    /// and hold no version yet. Returns the statement that does the same to a
    /// persisted store.
    pub fn insert_version(store: &mut Store) -> (statement: String)
        requires
            old(store)@.metadata is Some,
            stored_version(old(store)@) is None,
        ensures
            final(store)@.metadata == Some(old(store)@.metadata->0.push(current_row())),
            final(store)@.entries == old(store)@.entries,
            statement@ == version_statement(),
            old(store)@.is_consistent() ==> final(store)@.is_consistent(),
    {
        proof {
            lemma_no_version_row(old(store)@.metadata->0);
        }
        let row = Metadata { name: String::from_str("version"), value: String::from_str(VERSION) };
        let ghost before = store.metadata->0.deep_view();
        match &mut store.metadata {
            Some(rows) => {
                rows.push(row);
            },
            None => {},
        }
        assert(store.metadata->0.deep_view() =~= before.push(current_row()));
        String::from_str("INSERT INTO metadata (name, value) VALUES ('version', '").concat(
            VERSION,
        ).concat("')")
    }

    /// Whether the store carries the current version.
    pub fn is_up_to_date(store: &Store) -> (r: bool)
        ensures
            r == up_to_date(store@),
    {
        match Metadata::current_version(store) {
            Some(row) => same_text(row.value.as_str(), VERSION),
            None => false,
        }
    }
}

/// Rows without a version row hold no row named `version`.
pub proof fn lemma_no_version_row(rows: Seq<MetadataView>)
    requires
        version_row(rows) is None,
    ensures
        forall|i: int| 0 <= i < rows.len() ==> (#[trigger] rows[i]).name != "version"@,
    decreases rows.len(),
{
    if rows.len() > 0 {
        let rest = rows.drop_first();
        lemma_no_version_row(rest);
        assert forall|i: int| 0 <= i < rows.len() implies (#[trigger] rows[i]).name
            != "version"@ by {
            if i > 0 {
                assert(rows[i] == rest[i - 1]);
            }
        }
    }
}

} // verus!
