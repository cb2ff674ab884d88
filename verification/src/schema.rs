//! The schema layer: a table's definition as data, and the statements that
//! create and drop the table.

use vstd::prelude::*;
use vstd::string::*;

verus! {

/// One column of a table.
#[derive(Debug, PartialEq, Eq)]
pub struct Field {
    pub name: String,
    pub nullable: bool,
    /// The column's type tag, such as `TEXT`.
    pub field_type: String,
}

/// What a `Field` holds, as mathematical values.
pub struct FieldView {
    pub name: Seq<char>,
    pub nullable: bool,
    pub field_type: Seq<char>,
}

impl View for Field {
    type V = FieldView;

    open spec fn view(&self) -> FieldView {
        FieldView { name: self.name@, nullable: self.nullable, field_type: self.field_type@ }
    }
}

impl DeepView for Field {
    type V = FieldView;

    open spec fn deep_view(&self) -> FieldView {
        self@
    }
}

/// A table's definition: its name, its primary key and whether the store
/// assigns that key, and its other columns in order.
#[derive(Debug, PartialEq, Eq)]
pub struct Schema {
    pub table_name: String,
    pub primary_key: (Field, bool),
    pub fields: Vec<Field>,
}

/// What a `Schema` holds, as mathematical values.
pub struct SchemaView {
    pub table_name: Seq<char>,
    pub primary_key: (FieldView, bool),
    pub fields: Seq<FieldView>,
}

impl View for Schema {
    type V = SchemaView;

    open spec fn view(&self) -> SchemaView {
        SchemaView {
            table_name: self.table_name@,
            primary_key: (self.primary_key.0@, self.primary_key.1),
            fields: self.fields.deep_view(),
        }
    }
}

/// A column's definition: its name and its type tag, and `NOT NULL` unless
/// it is nullable.
pub open spec fn column_definition(field: FieldView) -> Seq<char> {
    if field.nullable {
        field.name + " "@ + field.field_type
    } else {
        field.name + " "@ + field.field_type + " NOT NULL"@
    }
}

/// The primary key's definition: its name and its type tag, and
/// `PRIMARY KEY`.
pub open spec fn key_definition(field: FieldView) -> Seq<char> {
    field.name + " "@ + field.field_type + " PRIMARY KEY"@
}

/// The columns' definitions, each behind a comma and a space.
pub open spec fn column_definitions(fields: Seq<FieldView>) -> Seq<char>
    decreases fields.len(),
{
    if fields.len() == 0 {
        Seq::empty()
    } else {
        column_definitions(fields.drop_last()) + ", "@ + column_definition(fields.last())
    }
}

/// The statement that creates a table unless it exists.
pub open spec fn create_statement(schema: SchemaView) -> Seq<char> {
    "CREATE TABLE IF NOT EXISTS "@ + schema.table_name + " ("@ + key_definition(
        schema.primary_key.0,
    ) + column_definitions(schema.fields) + ")"@
}

/// The statement that drops a table if it exists.
pub open spec fn drop_statement(schema: SchemaView) -> Seq<char> {
    "DROP TABLE IF EXISTS "@ + schema.table_name
}

impl Field {
    /// The column's definition, as it stands in a statement that creates a
    /// table.
    pub fn to_insert_statement(&self) -> (definition: String)
        ensures
            definition@ == column_definition(self@),
    {
        let definition = self.name.clone().concat(" ").concat(self.field_type.as_str());
        if self.nullable {
            definition
        } else {
            definition.concat(" NOT NULL")
        }
    }

    /// The definition of a primary key of this name and type.
    pub fn to_key_statement(&self) -> (definition: String)
        ensures
            definition@ == key_definition(self@),
    {
        self.name.clone().concat(" ").concat(self.field_type.as_str()).concat(" PRIMARY KEY")
    }
}

/// The statement that creates the table unless it exists.
pub fn create_table(schema: &Schema) -> (statement: String)
    ensures
        statement@ == create_statement(schema@),
{
    let mut statement = String::from_str("CREATE TABLE IF NOT EXISTS ").concat(
        schema.table_name.as_str(),
    ).concat(" (").concat(schema.primary_key.0.to_key_statement().as_str());
    let ghost head = statement@;
    let mut i: usize = 0;
    assert(schema.fields.deep_view().take(0) =~= Seq::empty());
    assert(statement@ =~= head + column_definitions(schema.fields.deep_view().take(0)));
    while i < schema.fields.len()
        invariant
            i <= schema.fields.len(),
            statement@ == head + column_definitions(schema.fields.deep_view().take(i as int)),
        decreases schema.fields.len() - i,
    {
        let ghost before = statement@;
        let ghost upto = schema.fields.deep_view().take(i + 1);
        proof {
            assert(upto.drop_last() =~= schema.fields.deep_view().take(i as int));
            assert(upto.last() == schema.fields@[i as int]@);
        }
        statement.append(", ");
        statement.append(schema.fields[i].to_insert_statement().as_str());
        assert(statement@ =~= head + column_definitions(upto));
        i += 1;
    }
    assert(schema.fields.deep_view().take(schema.fields.len() as int)
        =~= schema.fields.deep_view());
    statement.append(")");
    assert(statement@ =~= create_statement(schema@));
    statement
}

/// The statement that drops the table if it exists.
pub fn drop_table(schema: &Schema) -> (statement: String)
    ensures
        statement@ == drop_statement(schema@),
{
    String::from_str("DROP TABLE IF EXISTS ").concat(schema.table_name.as_str())
}

} // verus!
