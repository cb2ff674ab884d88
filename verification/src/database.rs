//! The store as the values it holds, and the migration that makes a store
//! current.

use crate::entry::{entries_schema, Entry, EntryView};
use crate::metadata::{
    current_row, metadata_schema, up_to_date, version_statement, Metadata, MetadataView,
};
use crate::schema::{create_statement, create_table, drop_statement, drop_table};
use vstd::prelude::*;

verus! {

/// The two tables of a store, each with its rows in the order in which they
/// were written. A table that does not exist is `None`.
#[derive(Debug, PartialEq, Eq)]
pub struct Store {
    pub metadata: Option<Vec<Metadata>>,
    pub entries: Option<Vec<Entry>>,
}

/// What a `Store` holds, as mathematical values.
pub struct StoreView {
    pub metadata: Option<Seq<MetadataView>>,
    pub entries: Option<Seq<EntryView>>,
}

impl View for Store {
    type V = StoreView;

    open spec fn view(&self) -> StoreView {
        StoreView { metadata: self.metadata.deep_view(), entries: self.entries.deep_view() }
    }
}

impl StoreView {
    /// Whether the rows respect the tables' primary keys: no two metadata
    /// rows share a name, and no two entries share a number.
    pub open spec fn is_consistent(self) -> bool {
        &&& self.metadata matches Some(rows) ==> forall|i: int, j: int|
            0 <= i < j < rows.len() ==> (#[trigger] rows[i]).name != (#[trigger] rows[j]).name
        &&& self.entries matches Some(rows) ==> forall|i: int, j: int|
            0 <= i < j < rows.len() ==> (#[trigger] rows[i]).id != (#[trigger] rows[j]).id
    }
}

/// A store without tables.
pub open spec fn unversioned() -> StoreView {
    StoreView { metadata: None, entries: None }
}

/// A store that was just rebuilt: it carries the current version and no
/// entry.
pub open spec fn rebuilt() -> StoreView {
    StoreView { metadata: Some(seq![current_row()]), entries: Some(Seq::empty()) }
}

/// The statements that drop both tables.
pub open spec fn drop_statements() -> Seq<Seq<char>> {
    seq![drop_statement(entries_schema()), drop_statement(metadata_schema())]
}

/// The statements that create both tables and write the current version.
pub open spec fn create_statements() -> Seq<Seq<char>> {
    seq![
        create_statement(metadata_schema()),
        create_statement(entries_schema()),
        version_statement(),
    ]
}

impl Store {
    /// A store without tables.
    pub fn new() -> (store: Store)
        ensures
            store@ == unversioned(),
            store@.is_consistent(),
    {
        Store { metadata: None, entries: None }
    }
}

/// Drops both tables. Returns the statements that do the same to a persisted
/// store.
fn drop_database(store: &mut Store) -> (statements: Vec<String>)
    ensures
        final(store)@ == unversioned(),
        statements.deep_view() == drop_statements(),
{
    store.entries = None;
    store.metadata = None;
    let mut statements: Vec<String> = Vec::new();
    statements.push(drop_table(&Entry::schema()));
    statements.push(drop_table(&Metadata::schema()));
    assert(statements.deep_view() =~= drop_statements());
    statements
}

/// Creates both tables in a store that has none, and writes the current
/// version. Returns the statements that do the same to a persisted store.
fn initialize_database(store: &mut Store) -> (statements: Vec<String>)
    requires
        old(store)@ == unversioned(),
    ensures
        final(store)@ == rebuilt(),
        statements.deep_view() == create_statements(),
{
    let mut statements: Vec<String> = Vec::new();
    store.metadata = Some(Vec::new());
    statements.push(create_table(&Metadata::schema()));
    store.entries = Some(Vec::new());
    statements.push(create_table(&Entry::schema()));
    assert(store.metadata->0.deep_view() =~= Seq::empty());
    assert(store.entries->0.deep_view() =~= Seq::empty());
    statements.push(Metadata::insert_version(store));
    assert(store@.metadata->0 =~= seq![current_row()]);
    assert(statements.deep_view() =~= create_statements());
    statements
}

/// Makes the store current. A store that carries the current version is
/// left as it is. Any other store is rebuilt: both tables are dropped and
/// created anew, and the current version is written; nothing that it held is
/// kept. Returns the statements that do the same to a persisted store, in
/// order.
pub fn initialize(store: &mut Store) -> (statements: Vec<String>)
    ensures
        up_to_date(final(store)@),
        up_to_date(old(store)@) ==> final(store)@ == old(store)@ && statements.deep_view()
            == Seq::<Seq<char>>::empty(),
        !up_to_date(old(store)@) ==> final(store)@ == rebuilt() && statements.deep_view()
            == drop_statements() + create_statements(),
        old(store)@.is_consistent() ==> final(store)@.is_consistent(),
{
    if Metadata::is_up_to_date(store) {
        let statements: Vec<String> = Vec::new();
        assert(statements.deep_view() =~= Seq::<Seq<char>>::empty());
        return statements;
    }
    let mut statements = drop_database(store);
    let mut created = initialize_database(store);
    let ghost first = statements.deep_view();
    let ghost second = created.deep_view();
    statements.append(&mut created);
    assert(statements.deep_view() =~= first + second);
    proof {
        lemma_rebuilt_is_up_to_date();
    }
    statements
}

/// A store that was just rebuilt carries the current version and holds no
/// entry.
pub proof fn lemma_rebuilt_is_up_to_date()
    ensures
        up_to_date(rebuilt()),
        rebuilt().entries == Some(Seq::<EntryView>::empty()),
        rebuilt().is_consistent(),
{
}

} // verus!
