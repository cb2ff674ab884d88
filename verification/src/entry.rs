//! The entries of the store: resolvable items with what running them takes.

use crate::database::{Store, StoreView};
use crate::schema::{Field, FieldView, Schema, SchemaView};
use crate::text::{contains, fold_case, folded, lemma_folded_occurrence, occurs_in};
use vstd::prelude::*;
use vstd::string::*;

verus! {

/// What launching an application takes.
#[derive(Debug, PartialEq, Eq)]
pub struct ApplicationConfiguration {
    /// The command line to spawn.
    pub command: String,
    pub terminal: bool,
}

/// What an `ApplicationConfiguration` holds, as mathematical values.
pub struct ApplicationConfigurationView {
    pub command: Seq<char>,
    pub terminal: bool,
}

impl View for ApplicationConfiguration {
    type V = ApplicationConfigurationView;

    open spec fn view(&self) -> ApplicationConfigurationView {
        ApplicationConfigurationView { command: self.command@, terminal: self.terminal }
    }
}

impl Clone for ApplicationConfiguration {
    fn clone(&self) -> (copy: Self)
        ensures
            copy == *self,
    {
        ApplicationConfiguration { command: self.command.clone(), terminal: self.terminal }
    }
}

/// What running a custom command takes.
#[derive(Debug, PartialEq, Eq)]
pub struct CustomCommandConfiguration {
    pub name: String,
    pub command: String,
    pub description: Option<String>,
    pub accepts_arguments: bool,
    pub tty: bool,
}

/// What a `CustomCommandConfiguration` holds, as mathematical values.
pub struct CustomCommandConfigurationView {
    pub name: Seq<char>,
    pub command: Seq<char>,
    pub description: Option<Seq<char>>,
    pub accepts_arguments: bool,
    pub tty: bool,
}

impl View for CustomCommandConfiguration {
    type V = CustomCommandConfigurationView;

    open spec fn view(&self) -> CustomCommandConfigurationView {
        CustomCommandConfigurationView {
            name: self.name@,
            command: self.command@,
            description: self.description.deep_view(),
            accepts_arguments: self.accepts_arguments,
            tty: self.tty,
        }
    }
}

impl Clone for CustomCommandConfiguration {
    fn clone(&self) -> (copy: Self)
        ensures
            copy == *self,
    {
        CustomCommandConfiguration {
            name: self.name.clone(),
            command: self.command.clone(),
            description: self.description.clone(),
            accepts_arguments: self.accepts_arguments,
            tty: self.tty,
        }
    }
}

/// How to run an entry: as an application or as a custom command.
#[derive(Debug, PartialEq, Eq)]
pub enum Actionable {
    Application(ApplicationConfiguration),
    CustomCommand(CustomCommandConfiguration),
}

/// What an `Actionable` holds, as mathematical values.
pub enum ActionableView {
    Application(ApplicationConfigurationView),
    CustomCommand(CustomCommandConfigurationView),
}

impl View for Actionable {
    type V = ActionableView;

    open spec fn view(&self) -> ActionableView {
        match self {
            Actionable::Application(configuration) => ActionableView::Application(
                configuration@,
            ),
            Actionable::CustomCommand(configuration) => ActionableView::CustomCommand(
                configuration@,
            ),
        }
    }
}

impl DeepView for Actionable {
    type V = ActionableView;

    open spec fn deep_view(&self) -> ActionableView {
        self@
    }
}

impl Clone for Actionable {
    fn clone(&self) -> (copy: Self)
        ensures
            copy == *self,
    {
        match self {
            Actionable::Application(configuration) => Actionable::Application(
                configuration.clone(),
            ),
            Actionable::CustomCommand(configuration) => Actionable::CustomCommand(
                configuration.clone(),
            ),
        }
    }
}

/// One row of the entries table. A row whose stored action cannot be read
/// has none.
#[derive(Debug, PartialEq, Eq)]
pub struct Entry {
    /// The row's number, which the store assigns.
    pub id: u16,
    pub name: String,
    pub description: Option<String>,
    pub actionable: Option<Actionable>,
}

/// What an `Entry` holds, as mathematical values.
pub struct EntryView {
    pub id: u16,
    pub name: Seq<char>,
    pub description: Option<Seq<char>>,
    pub actionable: Option<ActionableView>,
}

impl View for Entry {
    type V = EntryView;

    open spec fn view(&self) -> EntryView {
        EntryView {
            id: self.id,
            name: self.name@,
            description: self.description.deep_view(),
            actionable: self.actionable.deep_view(),
        }
    }
}

impl DeepView for Entry {
    type V = EntryView;

    open spec fn deep_view(&self) -> EntryView {
        self@
    }
}

impl Clone for Entry {
    fn clone(&self) -> (copy: Self)
        ensures
            copy == *self,
    {
        Entry {
            id: self.id,
            name: self.name.clone(),
            description: self.description.clone(),
            actionable: self.actionable.clone(),
        }
    }
}

/// The schema of the entries table.
pub open spec fn entries_schema() -> SchemaView {
    SchemaView {
        table_name: "entries"@,
        primary_key: (FieldView { name: "id"@, nullable: false, field_type: "INTEGER"@ }, true),
        fields: seq![
            FieldView { name: "name"@, nullable: false, field_type: "TEXT"@ },
            FieldView { name: "description"@, nullable: true, field_type: "TEXT"@ },
            FieldView { name: "actionable"@, nullable: true, field_type: "TEXT"@ },
        ],
    }
}

/// Whether `input` is part of a text, without regard to the case of ASCII
/// letters.
pub open spec fn is_part(input: Seq<char>, text: Seq<char>) -> bool {
    occurs_in(folded(input), folded(text))
}

/// Whether a row is selected by `input`: by its name or by its description.
pub open spec fn is_selected(row: EntryView, input: Seq<char>) -> bool {
    is_part(input, row.name) || (row.description matches Some(text) && is_part(input, text))
}

/// The rows that `input` selects, in table order.
pub open spec fn selected(rows: Seq<EntryView>, input: Seq<char>) -> Seq<EntryView>
    decreases rows.len(),
{
    if rows.len() == 0 {
        Seq::empty()
    } else if is_selected(rows.last(), input) {
        selected(rows.drop_last(), input).push(rows.last())
    } else {
        selected(rows.drop_last(), input)
    }
}

/// The largest number of any row, and 0 where there is no row.
pub open spec fn largest_id(rows: Seq<EntryView>) -> nat
    decreases rows.len(),
{
    if rows.len() == 0 {
        0
    } else if rows.last().id > largest_id(rows.drop_last()) {
        rows.last().id as nat
    } else {
        largest_id(rows.drop_last())
    }
}

/// Whether the store can take one more entry: the entries table exists and
/// has a number left.
pub open spec fn has_room(store: StoreView) -> bool {
    store.entries matches Some(rows) && largest_id(rows) < u16::MAX
}

/// The row that an entry becomes when it is written behind `rows`: the entry
/// under the next number.
pub open spec fn row_of(entry: EntryView, rows: Seq<EntryView>) -> EntryView {
    EntryView {
        id: (largest_id(rows) + 1) as u16,
        name: entry.name,
        description: entry.description,
        actionable: entry.actionable,
    }
}

fn is_part_of(folded_input: &Vec<char>, text: &str) -> (r: bool)
    ensures
        r == occurs_in(folded_input@, folded(text@)),
{
    contains(&fold_case(text), folded_input)
}

fn selects(folded_input: &Vec<char>, row: &Entry) -> (r: bool)
    ensures
        r == (occurs_in(folded_input@, folded(row@.name)) || (row@.description matches Some(text)
            && occurs_in(folded_input@, folded(text)))),
{
    if is_part_of(folded_input, row.name.as_str()) {
        return true;
    }
    match &row.description {
        Some(text) => is_part_of(folded_input, text.as_str()),
        None => false,
    }
}

fn largest(rows: &Vec<Entry>) -> (id: u16)
    ensures
        id == largest_id(rows.deep_view()),
{
    let mut id: u16 = 0;
    let mut i: usize = 0;
    assert(rows.deep_view().take(0) =~= Seq::empty());
    while i < rows.len()
        invariant
            i <= rows.len(),
            id == largest_id(rows.deep_view().take(i as int)),
        decreases rows.len() - i,
    {
        proof {
            let upto = rows.deep_view().take(i + 1);
            assert(upto.drop_last() =~= rows.deep_view().take(i as int));
            assert(upto.last() == rows@[i as int]@);
        }
        if rows[i].id > id {
            id = rows[i].id;
        }
        i += 1;
    }
    assert(rows.deep_view().take(rows.len() as int) =~= rows.deep_view());
    id
}

impl Entry {
    /// The name of the entries table.
    pub fn table() -> (name: String)
        ensures
            name@ == entries_schema().table_name,
    {
        String::from_str("entries")
    }

    /// The primary key of the entries table, which the store assigns.
    pub fn primary_key() -> (key: (Field, bool))
        ensures
            (key.0@, key.1) == entries_schema().primary_key,
    {
        (
            Field {
                name: String::from_str("id"),
                nullable: false,
                field_type: String::from_str("INTEGER"),
            },
            true,
        )
    }

    /// The other columns of the entries table.
    pub fn fields() -> (fields: Vec<Field>)
        ensures
            fields.deep_view() == entries_schema().fields,
    {
        let mut fields: Vec<Field> = Vec::new();
        fields.push(
            Field {
                name: String::from_str("name"),
                nullable: false,
                field_type: String::from_str("TEXT"),
            },
        );
        fields.push(
            Field {
                name: String::from_str("description"),
                nullable: true,
                field_type: String::from_str("TEXT"),
            },
        );
        fields.push(
            Field {
                name: String::from_str("actionable"),
                nullable: true,
                field_type: String::from_str("TEXT"),
            },
        );
        assert(fields.deep_view() =~= entries_schema().fields);
        fields
    }

    /// The schema of the entries table.
    pub fn schema() -> (schema: Schema)
        ensures
            schema@ == entries_schema(),
    {
        Schema {
            table_name: Entry::table(),
            primary_key: Entry::primary_key(),
            fields: Entry::fields(),
        }
    }

    /// The rows whose name or description holds `input`, without regard to
    /// the case of ASCII letters, in table order; `None` where the store has
    /// no entries table.
    pub fn select(store: &Store, input: String) -> (rows: Option<Vec<Entry>>)
        ensures
            rows.deep_view() == match store@.entries {
                Some(all) => Some(selected(all, input@)),
                None => None,
            },
    {
        let all = match &store.entries {
            None => {
                return None;
            },
            Some(all) => all,
        };
        let folded_input = fold_case(input.as_str());
        let mut rows: Vec<Entry> = Vec::new();
        let mut i: usize = 0;
        proof {
            assert(all.deep_view().take(0) =~= Seq::empty());
            assert(rows.deep_view() =~= Seq::empty());
        }
        while i < all.len()
            invariant
                i <= all.len(),
                folded_input@ == folded(input@),
                rows.deep_view() == selected(all.deep_view().take(i as int), input@),
            decreases all.len() - i,
        {
            proof {
                let upto = all.deep_view().take(i + 1);
                assert(upto.drop_last() =~= all.deep_view().take(i as int));
                assert(upto.last() == all@[i as int]@);
            }
            if selects(&folded_input, &all[i]) {
                let ghost before = rows.deep_view();
                rows.push(all[i].clone());
                assert(rows.deep_view() =~= before.push(all@[i as int]@));
            }
            i += 1;
        }
        assert(all.deep_view().take(all.len() as int) =~= all.deep_view());
        Some(rows)
    }

    /// Whether the store can take one more entry.
    pub fn can_insert(store: &Store) -> (r: bool)
        ensures
            r == has_room(store@),
    {
        match &store.entries {
            None => false,
            Some(rows) => largest(rows) < u16::MAX,
        }
    }

    /// Writes the entry behind the rows of the entries table, under the next
    /// number; the entry's own number is not read. Returns whether the entry
    /// was written: it is not where the table does not exist or has no
    /// number left, and the store is then left as it is.
    pub fn insert(&self, store: &mut Store) -> (written: bool)
        ensures
            written == has_room(old(store)@),
            written ==> final(store)@ == (StoreView {
                metadata: old(store)@.metadata,
                entries: Some(
                    old(store)@.entries->0.push(row_of(self@, old(store)@.entries->0)),
                ),
            }),
            !written ==> final(store)@ == old(store)@,
            old(store)@.is_consistent() ==> final(store)@.is_consistent(),
    {
        proof {
            if old(store)@.entries is Some {
                let rows = old(store)@.entries->0;
                assert forall|i: int| 0 <= i < rows.len() implies (#[trigger] rows[i]).id
                    <= largest_id(rows) by {
                    lemma_written_number_is_new(rows, i);
                }
            }
        }
        match &mut store.entries {
            None => false,
            Some(rows) => {
                let last = largest(rows);
                if last == u16::MAX {
                    return false;
                }
                let ghost before = rows.deep_view();
                let row = Entry {
                    id: last + 1,
                    name: self.name.clone(),
                    description: self.description.clone(),
                    actionable: self.actionable.clone(),
                };
                rows.push(row);
                assert(rows.deep_view() =~= before.push(row_of(self@, before)));
                true
            },
        }
    }

    /// The statement that writes an entry to a persisted store, with a
    /// parameter for each column that the store does not assign.
    pub fn insert_statement() -> (statement: String)
        ensures
            statement@
                == "INSERT INTO entries (name, description, actionable) VALUES (:name, :description, :actionable)"@,
    {
        String::from_str(
            "INSERT INTO entries (name, description, actionable) VALUES (:name, :description, :actionable)",
        )
    }

    /// The statement that reads all entries of a persisted store, in table
    /// order.
    pub fn select_statement() -> (statement: String)
        ensures
            statement@ == "SELECT id, name, description, actionable FROM entries ORDER BY id"@,
    {
        String::from_str("SELECT id, name, description, actionable FROM entries ORDER BY id")
    }
}

/// An entry that was written behind any rows is selected by every text that
/// its name holds: the selection is what it was before, with the written row
/// behind it, and that row has the entry's name, description and action.
pub proof fn lemma_written_entry_is_selected(
    rows: Seq<EntryView>,
    entry: EntryView,
    input: Seq<char>,
)
    requires
        occurs_in(input, entry.name),
    ensures
        selected(rows.push(row_of(entry, rows)), input) == selected(rows, input).push(
            row_of(entry, rows),
        ),
        row_of(entry, rows).name == entry.name,
        row_of(entry, rows).description == entry.description,
        row_of(entry, rows).actionable == entry.actionable,
{
    lemma_folded_occurrence(input, entry.name);
    let after = rows.push(row_of(entry, rows));
    assert(after.drop_last() =~= rows);
    assert(after.last() == row_of(entry, rows));
}

/// The number under which an entry is written is larger than the number of
/// every row before it, so no two rows written this way share a number.
pub proof fn lemma_written_number_is_new(rows: Seq<EntryView>, i: int)
    requires
        0 <= i < rows.len(),
    ensures
        rows[i].id <= largest_id(rows),
    decreases rows.len(),
{
    if i < rows.len() - 1 {
        lemma_written_number_is_new(rows.drop_last(), i);
    }
}

} // verus!
