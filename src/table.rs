//! Tables and columns as learned from the `CREATE TABLE` statements of a dump.
use vstd::prelude::*;
use crate::text::{chars_of, concat_str, split_on, split_row, string_of};

verus! {

/// A column: its place in the table, its unquoted name and its declared type.
#[derive(Debug)]
pub struct PgColumn {
    pub position: usize,
    pub name: String,
    pub data_type: String,
    pub inner_type: Option<u32>,
}

/// A table: its qualified name and its ordered columns.
#[derive(Debug)]
pub struct PgTable {
    pub tablename: String,
    pub schemaname: String,
    pub columns: Vec<PgColumn>,
}

/// A table name with more than one dot in it.
#[derive(Debug)]
pub struct InvalidTableName {
    pub name: String,
}

pub open spec fn dotted(a: Seq<char>, b: Seq<char>) -> Seq<char> {
    a + seq!['.'] + b
}

pub open spec fn quoted(a: Seq<char>) -> Seq<char> {
    seq!['"'] + a + seq!['"']
}

/// A table name in double quotes, each part of a `schema.name` on its own.
pub open spec fn quote_table_name_spec(name: Seq<char>) -> Option<Seq<char>> {
    let parts = split_on(name, '.');
    if parts.len() == 1 {
        Some(quoted(parts[0]))
    } else if parts.len() == 2 {
        Some(dotted(quoted(parts[0]), quoted(parts[1])))
    } else {
        None
    }
}

/// The names of `cols`, in order.
pub open spec fn names_of(cols: Seq<PgColumn>) -> Seq<Seq<char>> {
    cols.map_values(|c: PgColumn| c.name@)
}

/// Positions run from 0 without gaps and no two columns share a name.
pub open spec fn columns_wf(cols: Seq<PgColumn>) -> bool {
    &&& forall|i: int| 0 <= i < cols.len() ==> (#[trigger] cols[i]).position == i
    &&& forall|i: int, j: int|
        0 <= i < j < cols.len() ==> (#[trigger] cols[i]).name@ != (#[trigger] cols[j]).name@
}

impl PgTable {
    pub open spec fn columns_spec(&self) -> Seq<PgColumn> {
        self.columns@
    }

    pub open spec fn full_name_spec(&self) -> Seq<char> {
        dotted(self.schemaname@, self.tablename@)
    }

    pub open spec fn wf(&self) -> bool {
        columns_wf(self.columns_spec())
    }

    pub fn new(tablename: String, schemaname: String) -> (r: Self)
        ensures
            r.tablename == tablename,
            r.schemaname == schemaname,
            r.columns_spec().len() == 0,
            r.wf(),
    {
        PgTable { tablename, schemaname, columns: Vec::new() }
    }

    /// `schema.name`.
    pub fn get_full_name(&self) -> (r: String)
        ensures
            r@ == self.full_name_spec(),
    {
        let s = concat_str(self.schemaname.as_str(), ".");
        proof { reveal_strlit("."); }
        let r = concat_str(s.as_str(), self.tablename.as_str());
        assert(r@ =~= self.full_name_spec());
        r
    }

    /// The names a configuration may use for this table: `schema.name` and `name`.
    pub fn get_names(&self) -> (r: Vec<String>)
        ensures
            r@.len() == 2,
            r@[0]@ == self.full_name_spec(),
            r@[1]@ == self.tablename@,
    {
        let mut r: Vec<String> = Vec::new();
        r.push(self.get_full_name());
        r.push(self.tablename.clone());
        r
    }

    pub fn get_columns(&self) -> (r: &Vec<PgColumn>)
        ensures
            r@ == self.columns_spec(),
    {
        &self.columns
    }

    pub fn column_count(&self) -> (r: usize)
        ensures
            r == self.columns_spec().len(),
    {
        self.columns.len()
    }

    /// The column names, in order.
    pub fn get_columns_names(&self) -> (r: Vec<String>)
        ensures
            r.deep_view() == names_of(self.columns_spec()),
    {
        let mut r: Vec<String> = Vec::new();
        let mut i: usize = 0;
        while i < self.columns.len()
            invariant
                i <= self.columns@.len(),
                r@.len() == i,
                forall|k: int| 0 <= k < i ==> #[trigger] r@[k]@ == self.columns@[k].name@,
            decreases self.columns@.len() - i,
        {
            r.push(self.columns[i].name.clone());
            i = i + 1;
        }
        assert forall|k: int| 0 <= k < r@.len() implies #[trigger] r.deep_view()[k]
            == names_of(self.columns_spec())[k] by {
            assert(r.deep_view()[k] == r@[k]@);
        }
        assert(r.deep_view() =~= names_of(self.columns_spec()));
        r
    }

    /// Whether both tables have the same qualified name.
    pub fn same_table(&self, other: &PgTable) -> (r: bool)
        ensures
            r == (self.schemaname@ == other.schemaname@ && self.tablename@ == other.tablename@),
    {
        self.schemaname == other.schemaname && self.tablename == other.tablename
    }

    /// Puts a table name, or each part of a `schema.name`, in double quotes.
    pub fn quote_table_name(name: &str) -> (r: Result<String, InvalidTableName>)
        ensures
            match quote_table_name_spec(name@) {
                Some(q) => r matches Ok(s) && s@ == q,
                None => r matches Err(e) && e.name@ == name@,
            },
    {
        let parts = split_row(&chars_of(name), '.');
        let mut out: Vec<char> = Vec::new();
        if parts.len() > 2 {
            return Err(InvalidTableName { name: String::from_str(name) });
        }
        let mut i: usize = 0;
        while i < parts.len()
            invariant
                i <= parts@.len() <= 2,
                parts@.len() == split_on(name@, '.').len(),
                forall|k: int| 0 <= k < parts@.len() ==> #[trigger] parts@[k]@ == split_on(name@, '.')[k],
                i == 0 ==> out@ == Seq::<char>::empty(),
                i == 1 ==> out@ == quoted(parts@[0]@),
                i == 2 ==> out@ == dotted(quoted(parts@[0]@), quoted(parts@[1]@)),
            decreases parts@.len() - i,
        {
            let ghost before = out@;
            if i > 0 {
                out.push('.');
            }
            out.push('"');
            let p = &parts[i];
            let mut j: usize = 0;
            let ghost mid = out@;
            while j < p.len()
                invariant
                    j <= p@.len(),
                    out@ == mid + p@.subrange(0, j as int),
                decreases p@.len() - j,
            {
                out.push(p[j]);
                j = j + 1;
                assert(out@ =~= mid + p@.subrange(0, j as int));
            }
            out.push('"');
            assert(p@.subrange(0, j as int) =~= p@);
            if i == 0 {
                assert(out@ =~= quoted(parts@[0]@));
            } else {
                assert(out@ =~= dotted(quoted(parts@[0]@), quoted(parts@[1]@)));
            }
            i = i + 1;
        }
        proof { crate::text::lemma_split_on_nonempty(name@, '.'); }
        Ok(string_of(out.as_slice()))
    }
}

/// Builds the column list of one table from its definition.
pub struct TableBuilder {
    table: PgTable,
}

/// A second column of the same name in one table definition.
#[derive(Debug)]
pub struct DuplicateColumn {
    pub column: String,
}

impl TableBuilder {
    pub closed spec fn table_spec(&self) -> PgTable {
        self.table
    }

    pub open spec fn wf(&self) -> bool {
        self.table_spec().wf()
    }

    /// Starts an empty table.
    pub fn begin(schemaname: String, tablename: String) -> (r: Self)
        ensures
            r.wf(),
            r.table_spec().schemaname == schemaname,
            r.table_spec().tablename == tablename,
            r.table_spec().columns_spec().len() == 0,
    {
        TableBuilder { table: PgTable::new(tablename, schemaname) }
    }

    /// Appends a column at the next position; a name already present is refused.
    pub fn push_column(&mut self, name: String, data_type: String) -> (r: Result<(), DuplicateColumn>)
        requires
            old(self).wf(),
        ensures
            final(self).wf(),
            final(self).table_spec().schemaname == old(self).table_spec().schemaname,
            final(self).table_spec().tablename == old(self).table_spec().tablename,
            names_of(old(self).table_spec().columns_spec()).contains(name@) <==> r is Err,
            r is Err ==> *final(self) == *old(self),
            r matches Err(e) ==> e.column == name,
            r is Ok ==> final(self).table_spec().columns_spec() == old(self).table_spec().columns_spec().push(
                PgColumn {
                    position: old(self).table_spec().columns_spec().len() as usize,
                    name,
                    data_type,
                    inner_type: None,
                },
            ),
    {
        let n = self.table.columns.len();
        let mut i: usize = 0;
        while i < n
            invariant
                i <= n,
                n == self.table.columns@.len(),
                self.wf(),
                *self == *old(self),
                forall|k: int| 0 <= k < i ==> self.table.columns@[k].name@ != name@,
            decreases n - i,
        {
            if self.table.columns[i].name == name {
                assert(names_of(self.table.columns@)[i as int] == name@);
                return Err(DuplicateColumn { column: name });
            }
            i = i + 1;
        }
        assert(!names_of(self.table.columns@).contains(name@)) by {
            if names_of(self.table.columns@).contains(name@) {
                let k = choose|k: int| 0 <= k < n && names_of(self.table.columns@)[k] == name@;
                assert(self.table.columns@[k].name@ == name@);
            }
        }
        self.table.columns.push(PgColumn { position: n, name, data_type, inner_type: None });
        Ok(())
    }

    /// The finished table.
    pub fn seal(self) -> (r: PgTable)
        requires
            self.wf(),
        ensures
            r == self.table_spec(),
            r.wf(),
    {
        self.table
    }
}

/// Column positions of a table built by the builder run from 0 without gaps,
/// and its column names are unique.
pub proof fn lemma_sealed_columns(t: PgTable)
    requires
        t.wf(),
    ensures
        forall|i: int| 0 <= i < t.columns_spec().len() ==> (#[trigger] t.columns_spec()[i]).position == i,
        names_of(t.columns_spec()).no_duplicates(),
{
    let ns = names_of(t.columns_spec());
    assert forall|i: int, j: int| 0 <= i < ns.len() && 0 <= j < ns.len() && i != j implies ns[i] != ns[j] by {
        if i < j {
            assert(t.columns_spec()[i].name@ != t.columns_spec()[j].name@);
        } else {
            assert(t.columns_spec()[j].name@ != t.columns_spec()[i].name@);
        }
    }
}

/// A table as plain values: schema, name, and each column's name and declared type.
pub struct TableM {
    pub schema: Seq<char>,
    pub name: Seq<char>,
    pub columns: Seq<(Seq<char>, Seq<char>)>,
}

pub open spec fn column_names(t: TableM) -> Seq<Seq<char>> {
    t.columns.map_values(|c: (Seq<char>, Seq<char>)| c.0)
}

impl PgTable {
    pub open spec fn view(&self) -> TableM {
        TableM {
            schema: self.schemaname@,
            name: self.tablename@,
            columns: self.columns@.map_values(|c: PgColumn| (c.name@, c.data_type@)),
        }
    }
}

impl TableBuilder {
    /// The table built so far, and the table it becomes once sealed.
    pub fn table(&self) -> (r: &PgTable)
        ensures
            *r == self.table_spec(),
    {
        &self.table
    }
}

} // verus!
