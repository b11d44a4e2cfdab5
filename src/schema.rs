use vstd::prelude::*;

verus! {

/// The tables of a project file.
#[derive(Debug, Clone, Copy, PartialEq, Eq, Structural)]
pub enum Table {
    Category,
    Entity,
    State,
    Frame,
}

/// The table whose rows a table's rows refer to.
pub open spec fn parent_of(t: Table) -> Option<Table> {
    match t {
        Table::Category => None,
        Table::Entity => Some(Table::Category),
        Table::State => Some(Table::Entity),
        Table::Frame => Some(Table::State),
    }
}

/// The order in which the tables are created and written.
pub open spec fn table_order() -> Seq<Table> {
    seq![Table::Category, Table::Entity, Table::State, Table::Frame]
}

/// The words that open every table creation: creating a table that exists
/// is a no-op, so the schema can be created on every open.
pub open spec fn create_if_absent() -> Seq<char> {
    "CREATE TABLE IF NOT EXISTS "@
}

/// The definition of a table's columns, after its creation words.
pub open spec fn table_definition(t: Table) -> Seq<char> {
    match t {
        Table::Category => "category (id INTEGER PRIMARY KEY, name TEXT NOT NULL, width INTEGER, height INTEGER)"@,
        Table::Entity => "entity (id INTEGER PRIMARY KEY, category_id INTEGER NOT NULL, name TEXT NOT NULL, width INTEGER, height INTEGER, FOREIGN KEY (category_id) REFERENCES category(id))"@,
        Table::State => "state (id INTEGER PRIMARY KEY, entity_id INTEGER NOT NULL, name TEXT NOT NULL, FOREIGN KEY (entity_id) REFERENCES entity(id))"@,
        Table::Frame => "frame (id INTEGER PRIMARY KEY, state_id INTEGER NOT NULL, position INTEGER NOT NULL, width INTEGER NOT NULL, height INTEGER NOT NULL, img BLOB NOT NULL, FOREIGN KEY (state_id) REFERENCES state(id))"@,
    }
}

impl Table {
    /// The table that this table's rows refer to, if any.
    pub fn parent(self) -> (r: Option<Table>)
        ensures
            r == parent_of(self),
    {
        match self {
            Table::Category => None,
            Table::Entity => Some(Table::Category),
            Table::State => Some(Table::Entity),
            Table::Frame => Some(Table::State),
        }
    }

    /// The statement that creates the table where it is absent.
    pub fn create_statement(self) -> (r: String)
        ensures
            r@ == create_if_absent() + table_definition(self),
    {
        let head = String::from_str("CREATE TABLE IF NOT EXISTS ");
        let body = match self {
            Table::Category => "category (id INTEGER PRIMARY KEY, name TEXT NOT NULL, width INTEGER, height INTEGER)",
            Table::Entity => "entity (id INTEGER PRIMARY KEY, category_id INTEGER NOT NULL, name TEXT NOT NULL, width INTEGER, height INTEGER, FOREIGN KEY (category_id) REFERENCES category(id))",
            Table::State => "state (id INTEGER PRIMARY KEY, entity_id INTEGER NOT NULL, name TEXT NOT NULL, FOREIGN KEY (entity_id) REFERENCES entity(id))",
            Table::Frame => "frame (id INTEGER PRIMARY KEY, state_id INTEGER NOT NULL, position INTEGER NOT NULL, width INTEGER NOT NULL, height INTEGER NOT NULL, img BLOB NOT NULL, FOREIGN KEY (state_id) REFERENCES state(id))",
        };
        head.concat(body)
    }
}

/// The tables in creation order: every table comes after the table its rows
/// refer to.
pub fn schema_tables() -> (r: Vec<Table>)
    ensures
        r@ == table_order(),
        forall|i: int|
            0 <= i < r@.len() && (#[trigger] parent_of(r@[i])) is Some ==> exists|j: int|
                0 <= j < i && r@[j] == parent_of(r@[i])->0,
{
    let r = vec![Table::Category, Table::Entity, Table::State, Table::Frame];
    assert(r@ =~= table_order());
    assert forall|i: int|
        0 <= i < r@.len() && (#[trigger] parent_of(r@[i])) is Some implies exists|j: int|
            0 <= j < i && r@[j] == parent_of(r@[i])->0 by {
        assert(r@[i - 1] == parent_of(r@[i])->0);
    }
    r
}

/// The statements that create the schema, in table order.
pub fn schema_statements() -> (r: Vec<String>)
    ensures
        r@.len() == table_order().len(),
        forall|i: int| 0 <= i < r@.len() ==> #[trigger] r@[i]@ == create_if_absent() + table_definition(table_order()[i]),
{
    let tables = schema_tables();
    let mut r: Vec<String> = Vec::new();
    let mut i: usize = 0;
    while i < tables.len()
        invariant
            0 <= i <= tables.len(),
            tables@ == table_order(),
            r@.len() == i,
            forall|k: int| 0 <= k < i ==> #[trigger] r@[k]@ == create_if_absent() + table_definition(table_order()[k]),
        decreases tables.len() - i,
    {
        r.push(tables[i].create_statement());
        i = i + 1;
    }
    r
}

} // verus!
