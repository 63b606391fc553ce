//! The streaming filter over the lines of a plain-text dump.
use vstd::prelude::*;
use crate::connector::SqlTextConnection;
use crate::engine::{Engine, Settings, TableConfig, find_table_spec};
use crate::schema_inspector::SqlTextSchemaInspector;
use crate::indicator::Indicator;
use crate::lines::{
    column_decl, copy_header, create_header, equals_literal, parse_column_decl, parse_copy_header,
    parse_create_header,
};
use crate::row::{RowError, RowFail, row_outcome, transform_row};
use crate::table::{
    PgTable, TableBuilder, TableM, column_names, columns_wf, dotted, names_of, DuplicateColumn,
};
use crate::text::{chars_of, concat_str, string_of};
use crate::transform::seed_of;

verus! {

/// Where the filter stands in the dump.
#[derive(PartialEq, Eq, Structural, Clone, Copy, Debug)]
pub enum ParseState {
    Passthrough,
    TableDefinition,
    TableData,
}

/// Why the run stopped.
pub enum DumpFail {
    /// A table definition declares this column twice.
    DuplicateColumn(Seq<char>),
    /// The `COPY` column list (second) differs from the table's columns (first).
    ColumnsMismatch(Seq<Seq<char>>, Seq<Seq<char>>),
    /// A data row could not be rewritten.
    Row(RowFail),
}

/// Why the run stopped, as returned.
#[derive(Debug)]
pub enum DumpErrorKind {
    DuplicateColumn { column: String },
    ColumnsMismatch { create_table: Vec<String>, copy_into: Vec<String> },
    Row(RowError),
}

/// A failure with the number of the input line (from 1) and the table it concerns.
#[derive(Debug)]
pub struct DumpError {
    pub line: usize,
    pub table: String,
    pub kind: DumpErrorKind,
}

impl DumpError {
    pub open spec fn fail(&self) -> DumpFail {
        match &self.kind {
            DumpErrorKind::DuplicateColumn { column } => DumpFail::DuplicateColumn(column@),
            DumpErrorKind::ColumnsMismatch { create_table, copy_into } => DumpFail::ColumnsMismatch(
                create_table.deep_view(),
                copy_into.deep_view(),
            ),
            DumpErrorKind::Row(e) => DumpFail::Row(e.fail()),
        }
    }
}

/// The filter's state as plain values: the parse state, the sealed tables,
/// the table being defined, the table whose data is being read, and the
/// progress counters (configured tables seen, data blocks begun, rows of the
/// current block).
pub struct FilterModel {
    pub state: ParseState,
    pub tables: Seq<TableM>,
    pub current: TableM,
    pub data_table: int,
    pub tot: u64,
    pub cur: u64,
    pub rows: u64,
}

/// A progress event handed to the indicator.
pub enum Event {
    /// `start_pb_stream(cur, tot, name, "starting ...")`.
    Start { cur: u64, tot: u64, name: Seq<char> },
    /// `inc_pb_stream(rows)`.
    Row(u64),
    /// `finish_pb_stream(rows)`.
    Finish(u64),
    /// `debug_msg(message)`.
    Debug(Seq<char>),
}

/// A counter moved on by one, held at the largest `u64`.
pub open spec fn next_count(n: u64) -> u64 {
    if n < u64::MAX {
        (n + 1) as u64
    } else {
        n
    }
}

/// The names a configuration may use for `schema.name`.
pub open spec fn table_names(schema: Seq<char>, name: Seq<char>) -> Seq<Seq<char>> {
    seq![dotted(schema, name), name]
}

pub open spec fn configured(cfg: Seq<TableConfig>, schema: Seq<char>, name: Seq<char>) -> bool {
    find_table_spec(cfg, table_names(schema, name)) is Some
}

/// The first sealed table named `schema.name`.
pub open spec fn registered(tables: Seq<TableM>, schema: Seq<char>, name: Seq<char>) -> Option<int> {
    if exists|i: int| 0 <= i < tables.len() && (#[trigger] tables[i]).schema == schema && tables[i].name == name {
        Some(
            choose|i: int|
                0 <= i < tables.len() && (#[trigger] tables[i]).schema == schema && tables[i].name == name
                    && forall|j: int|
                    0 <= j < i ==> !((#[trigger] tables[j]).schema == schema && tables[j].name == name),
        )
    } else {
        None
    }
}

/// The comment block written before the data of a rewritten table.
pub open spec fn annotation(schema: Seq<char>, name: Seq<char>) -> Seq<Seq<char>> {
    seq!["---"@, "--- pg_datanymizer: ANON TABLE; Name: "@ + name + "; Schema: "@ + schema, "---"@]
}

/// The comment block written at the head of the output.
pub open spec fn banner() -> Seq<Seq<char>> {
    log_block("pg_datanymizer anonymized database dump"@)
}

/// What the filter does with one line: the next state and the lines written.
#[verifier::opaque]
pub open spec fn step(cfg: Seq<TableConfig>, m: FilterModel, line: Seq<char>, seed: u64) -> Result<
    (FilterModel, Seq<Seq<char>>),
    DumpFail,
> {
    match m.state {
        ParseState::Passthrough => match create_header(line) {
            Some((sc, tn)) => if configured(cfg, sc, tn) && registered(m.tables, sc, tn) is None {
                Ok(
                    (
                        FilterModel {
                            state: ParseState::TableDefinition,
                            current: TableM { schema: sc, name: tn, columns: Seq::empty() },
                            tot: next_count(m.tot),
                            ..m
                        },
                        seq![line],
                    ),
                )
            } else {
                Ok((m, seq![line]))
            },
            None => match copy_header(line) {
                Some((sc, tn, cols)) => match registered(m.tables, sc, tn) {
                    Some(t) => if column_names(m.tables[t]) == cols {
                        Ok(
                            (
                                FilterModel {
                                    state: ParseState::TableData,
                                    data_table: t,
                                    cur: next_count(m.cur),
                                    rows: 0,
                                    ..m
                                },
                                annotation(sc, tn) + seq![line],
                            ),
                        )
                    } else {
                        Err(DumpFail::ColumnsMismatch(column_names(m.tables[t]), cols))
                    },
                    None => Ok((m, seq![line])),
                },
                None => Ok((m, seq![line])),
            },
        },
        ParseState::TableDefinition => if line == ");"@ {
            Ok(
                (
                    FilterModel {
                        state: ParseState::Passthrough,
                        tables: m.tables.push(m.current),
                        current: TableM { schema: Seq::empty(), name: Seq::empty(), columns: Seq::empty() },
                        ..m
                    },
                    seq![line],
                ),
            )
        } else {
            match column_decl(line) {
                Some((n, ty)) => if column_names(m.current).contains(n) {
                    Err(DumpFail::DuplicateColumn(n))
                } else {
                    Ok(
                        (
                            FilterModel {
                                current: TableM { columns: m.current.columns.push((n, ty)), ..m.current },
                                ..m
                            },
                            seq![line],
                        ),
                    )
                },
                None => Ok((m, seq![line])),
            }
        },
        ParseState::TableData => if line == "\\."@ {
            Ok((FilterModel { state: ParseState::Passthrough, ..m }, seq![line]))
        } else {
            let t = m.tables[m.data_table];
            match find_table_spec(cfg, table_names(t.schema, t.name)) {
                Some(ci) => match row_outcome(column_names(t), cfg[ci].rules@, line, seed) {
                    Ok(out) => Ok((FilterModel { rows: next_count(m.rows), ..m }, seq![out])),
                    Err(f) => Err(DumpFail::Row(f)),
                },
                None => Ok((m, seq![line])),
            }
        },
    }
}

/// What the filter does with a run of lines: the final state and all lines
/// written; or the failure, the position of the line that caused it, and the
/// lines written for the lines before it.
pub open spec fn run(cfg: Seq<TableConfig>, m: FilterModel, lines: Seq<Seq<char>>, seed: u64) -> Result<
    (FilterModel, Seq<Seq<char>>),
    (DumpFail, int, Seq<Seq<char>>),
>
    decreases lines.len(),
{
    if lines.len() == 0 {
        Ok((m, Seq::empty()))
    } else {
        match step(cfg, m, lines[0], seed) {
            Err(f) => Err((f, 0, Seq::empty())),
            Ok((m2, out)) => match run(cfg, m2, lines.drop_first(), seed) {
                Ok((m3, rest)) => Ok((m3, out + rest)),
                Err((f, k, w)) => Err((f, k + 1, out + w)),
            },
        }
    }
}

pub open spec fn initial_model() -> FilterModel {
    FilterModel {
        state: ParseState::Passthrough,
        tables: Seq::empty(),
        current: TableM { schema: Seq::empty(), name: Seq::empty(), columns: Seq::empty() },
        data_table: 0,
        tot: 0,
        cur: 0,
        rows: 0,
    }
}

/// The progress events for one line.
#[verifier::opaque]
pub open spec fn step_events(cfg: Seq<TableConfig>, m: FilterModel, line: Seq<char>, seed: u64) -> Seq<Event> {
    match m.state {
        ParseState::Passthrough => match create_header(line) {
            Some(_) => Seq::empty(),
            None => match copy_header(line) {
                Some((sc, tn, cols)) => match registered(m.tables, sc, tn) {
                    Some(t) => if column_names(m.tables[t]) == cols {
                        seq![Event::Start { cur: next_count(m.cur), tot: m.tot, name: dotted(sc, tn) }]
                    } else {
                        Seq::empty()
                    },
                    None => Seq::empty(),
                },
                None => Seq::empty(),
            },
        },
        ParseState::TableDefinition => Seq::empty(),
        ParseState::TableData => if line == "\\."@ {
            seq![Event::Finish(m.rows)]
        } else {
            let t = m.tables[m.data_table];
            match find_table_spec(cfg, table_names(t.schema, t.name)) {
                Some(ci) => match row_outcome(column_names(t), cfg[ci].rules@, line, seed) {
                    Ok(_) => seq![Event::Row(next_count(m.rows))],
                    Err(_) => Seq::empty(),
                },
                None => Seq::empty(),
            }
        },
    }
}

/// The progress events for a run of lines, up to the end or to the line that fails.
pub open spec fn run_events(cfg: Seq<TableConfig>, m: FilterModel, lines: Seq<Seq<char>>, seed: u64) -> Seq<Event>
    decreases lines.len(),
{
    if lines.len() == 0 {
        Seq::empty()
    } else {
        match step(cfg, m, lines[0], seed) {
            Err(_) => Seq::empty(),
            Ok((m2, _)) => step_events(cfg, m, lines[0], seed) + run_events(cfg, m2, lines.drop_first(), seed),
        }
    }
}

/// Reads a plain-text dump line by line and rewrites the data rows of the
/// configured tables.
pub struct SqlTextDumper<I: Indicator> {
    engine: Engine,
    indicator: I,
    state: ParseState,
    tables: Vec<PgTable>,
    builder: TableBuilder,
    data_table: usize,
    line_no: usize,
    tot_tables: u64,
    cur_table: u64,
    num_rows: u64,
    dump_writer: Vec<String>,
    events: Ghost<Seq<Event>>,
}

fn bump(n: u64) -> (r: u64)
    ensures
        r == if n < u64::MAX { n + 1 } else { n as int },
{
    if n < u64::MAX {
        n + 1
    } else {
        n
    }
}

fn one_line(line: &str) -> (r: Vec<String>)
    ensures
        r.deep_view() == seq![line@],
{
    let mut r: Vec<String> = Vec::new();
    r.push(String::from_str(line));
    assert(r.deep_view() =~= seq![line@]);
    r
}

fn strings_of(v: &Vec<Vec<char>>) -> (r: Vec<String>)
    ensures
        r.deep_view() == v.deep_view(),
{
    let mut r: Vec<String> = Vec::new();
    let mut i: usize = 0;
    while i < v.len()
        invariant
            i <= v@.len(),
            r@.len() == i,
            forall|k: int| 0 <= k < i ==> #[trigger] r@[k]@ == v@[k]@,
        decreases v@.len() - i,
    {
        r.push(string_of(v[i].as_slice()));
        i = i + 1;
    }
    assert forall|k: int| 0 <= k < r@.len() implies #[trigger] r.deep_view()[k] == v.deep_view()[k] by {
        assert(r.deep_view()[k] == r@[k]@);
        assert(v.deep_view()[k] == v@[k]@);
    }
    assert(r.deep_view() =~= v.deep_view());
    r
}

fn same_strings(a: &Vec<String>, b: &Vec<String>) -> (r: bool)
    ensures
        r == (a.deep_view() == b.deep_view()),
{
    if a.len() != b.len() {
        assert(a.deep_view().len() != b.deep_view().len());
        return false;
    }
    let mut i: usize = 0;
    while i < a.len()
        invariant
            i <= a@.len(),
            a@.len() == b@.len(),
            forall|k: int| 0 <= k < i ==> a@[k]@ == b@[k]@,
        decreases a@.len() - i,
    {
        if a[i] != b[i] {
            assert(a.deep_view()[i as int] != b.deep_view()[i as int]);
            return false;
        }
        i = i + 1;
    }
    assert forall|k: int| 0 <= k < a@.len() implies #[trigger] a.deep_view()[k] == b.deep_view()[k] by {
        assert(a.deep_view()[k] == a@[k]@);
        assert(b.deep_view()[k] == b@[k]@);
    }
    assert(a.deep_view() =~= b.deep_view());
    true
}

/// The comment block written before the data of a rewritten table.
fn annotation_lines(schema: &String, name: &String) -> (r: Vec<String>)
    ensures
        r.deep_view() == annotation(schema@, name@),
{
    let mut r: Vec<String> = Vec::new();
    r.push(String::from_str("---"));
    let a = concat_str("--- pg_datanymizer: ANON TABLE; Name: ", name.as_str());
    let b = concat_str(a.as_str(), "; Schema: ");
    let c = concat_str(b.as_str(), schema.as_str());
    r.push(c);
    r.push(String::from_str("---"));
    assert(r.deep_view() =~= annotation(schema@, name@));
    r
}

/// A message framed as a comment block.
pub open spec fn log_block(message: Seq<char>) -> Seq<Seq<char>> {
    seq!["---"@, "--- "@ + message, "---"@]
}

proof fn lemma_column_names(t: PgTable)
    ensures
        column_names(t.view()) == names_of(t.columns_spec()),
{
    assert(column_names(t.view()) =~= names_of(t.columns_spec()));
}

impl<I: Indicator> SqlTextDumper<I> {
    /// The filter's state as plain values.
    pub closed spec fn model(&self) -> FilterModel {
        FilterModel {
            state: self.state,
            tables: self.tables@.map_values(|t: PgTable| t.view()),
            current: self.builder.table_spec().view(),
            data_table: self.data_table as int,
            tot: self.tot_tables,
            cur: self.cur_table,
            rows: self.num_rows,
        }
    }

    /// The sealed tables.
    pub closed spec fn registry(&self) -> Seq<PgTable> {
        self.tables@
    }

    /// The progress events handed to the indicator so far.
    pub closed spec fn events(&self) -> Seq<Event> {
        self.events@
    }

    pub closed spec fn wf(&self) -> bool {
        &&& self.builder.wf()
        &&& self.state == ParseState::TableData ==> self.data_table < self.tables@.len()
        &&& forall|i: int| 0 <= i < self.tables@.len() ==> (#[trigger] self.tables@[i]).wf()
    }

    /// The configured tables.
    pub closed spec fn settings_spec(&self) -> Seq<TableConfig> {
        self.engine.settings.tables@
    }

    /// How many input lines were handed to the filter, counted up to the largest `usize`.
    pub closed spec fn lines_read(&self) -> int {
        self.line_no as int
    }

    /// The lines written so far and not yet taken.
    pub closed spec fn written(&self) -> Seq<Seq<char>> {
        self.dump_writer.deep_view()
    }

    /// The seed that the rules are given.
    pub closed spec fn seed(&self) -> u64 {
        seed_of(self.engine.ctx)
    }

    pub fn new(engine: Engine, indicator: I) -> (r: Self)
        ensures
            r.wf(),
            r.model() == initial_model(),
            r.settings_spec() == engine.settings.tables@,
            r.seed() == seed_of(engine.ctx),
            r.written() == Seq::<Seq<char>>::empty(),
            r.events() == Seq::<Event>::empty(),
    {
        let r = SqlTextDumper {
            engine,
            indicator,
            state: ParseState::Passthrough,
            tables: Vec::new(),
            builder: TableBuilder::begin(String::new(), String::new()),
            data_table: 0,
            line_no: 0,
            tot_tables: 0,
            cur_table: 0,
            num_rows: 0,
            dump_writer: Vec::new(),
            events: Ghost(Seq::empty()),
        };
        assert(r.model().tables =~= Seq::<TableM>::empty());
        assert(r.written() =~= Seq::<Seq<char>>::empty());
        assert(r.model().current.columns =~= Seq::<(Seq<char>, Seq<char>)>::empty());
        r
    }

    fn find_registered(&self, sc: &String, tn: &String) -> (r: Option<usize>)
        ensures
            match registered(self.model().tables, sc@, tn@) {
                Some(i) => r matches Some(k) && k as int == i,
                None => r is None,
            },
            r matches Some(k) ==> k < self.tables@.len() && self.tables@[k as int].schemaname@ == sc@
                && self.tables@[k as int].tablename@ == tn@,
    {
        let ghost ts = self.model().tables;
        let mut i: usize = 0;
        while i < self.tables.len()
            invariant
                i <= self.tables@.len(),
                ts == self.model().tables,
                ts.len() == self.tables@.len(),
                forall|j: int| 0 <= j < i ==> !((#[trigger] ts[j]).schema == sc@ && ts[j].name == tn@),
            decreases self.tables@.len() - i,
        {
            assert(ts[i as int] == self.tables@[i as int].view());
            if self.tables[i].schemaname == *sc && self.tables[i].tablename == *tn {
                assert(0 <= i < ts.len() && ts[i as int].schema == sc@ && ts[i as int].name == tn@
                    && forall|j: int| 0 <= j < i ==> !((#[trigger] ts[j]).schema == sc@ && ts[j].name == tn@));
                let ghost c = choose|c: int|
                    0 <= c < ts.len() && (#[trigger] ts[c]).schema == sc@ && ts[c].name == tn@ && forall|j: int|
                        0 <= j < c ==> !((#[trigger] ts[j]).schema == sc@ && ts[j].name == tn@);
                assert(c == i) by {
                    if c < i {
                        assert(!(ts[c].schema == sc@ && ts[c].name == tn@));
                    } else if c > i {
                        assert(!(ts[i as int].schema == sc@ && ts[i as int].name == tn@));
                    }
                }
                return Some(i);
            }
            i = i + 1;
        }
        None
    }

    fn passthrough_line(&mut self, line: &str, chars: &Vec<char>) -> (r: Result<Vec<String>, DumpError>)
        requires
            old(self).wf(),
            old(self).state == ParseState::Passthrough,
            chars@ == line@,
        ensures
            final(self).wf(),
            final(self).engine == old(self).engine,
            final(self).dump_writer == old(self).dump_writer,
            final(self).line_no == old(self).line_no,
            r matches Err(e) ==> e.line == old(self).line_no,
            final(self).events() == old(self).events() + step_events(
                old(self).settings_spec(),
                old(self).model(),
                line@,
                old(self).seed(),
            ),
            match step(old(self).settings_spec(), old(self).model(), line@, old(self).seed()) {
                Ok((m, out)) => r matches Ok(o) && o.deep_view() == out && final(self).model() == m,
                Err(f) => r matches Err(e) && e.fail() == f,
            },
    {
        reveal(step);
        reveal(step_events);
        assert(old(self).events() + Seq::<Event>::empty() =~= old(self).events());
        match parse_create_header(chars) {
            Some((a, b)) => {
                let sc = string_of(a.as_slice());
                let tn = string_of(b.as_slice());
                let probe = PgTable::new(tn.clone(), sc.clone());
                let names = probe.get_names();
                assert(names.deep_view() =~= table_names(sc@, tn@));
                let cfg = self.engine.settings.find_table_index(&names);
                let reg = self.find_registered(&sc, &tn);
                if cfg.is_some() && reg.is_none() {
                    self.state = ParseState::TableDefinition;
                    self.builder = TableBuilder::begin(sc, tn);
                    self.tot_tables = bump(self.tot_tables);
                    assert(self.model().current.columns =~= Seq::<(Seq<char>, Seq<char>)>::empty());
                }
                Ok(one_line(line))
            },
            None => {
                match parse_copy_header(chars) {
                    Some((a, b, cols)) => {
                        let sc = string_of(a.as_slice());
                        let tn = string_of(b.as_slice());
                        match self.find_registered(&sc, &tn) {
                            Some(t) => {
                                let tnames = self.tables[t].get_columns_names();
                                let copy_cols = strings_of(&cols);
                                proof {
                                    lemma_column_names(self.tables@[t as int]);
                                    assert(self.model().tables[t as int] == self.tables@[t as int].view());
                                }
                                let full = self.tables[t].get_full_name();
                                if same_strings(&tnames, &copy_cols) {
                                    self.state = ParseState::TableData;
                                    self.data_table = t;
                                    self.cur_table = bump(self.cur_table);
                                    self.num_rows = 0;
                                    self.indicator.start_pb_stream(
                                        self.cur_table,
                                        self.tot_tables,
                                        full.as_str(),
                                        "starting ...",
                                    );
                                    self.events = Ghost(
                                        self.events@.push(
                                            Event::Start { cur: self.cur_table, tot: self.tot_tables, name: full@ },
                                        ),
                                    );
                                    assert(self.events() =~= old(self).events() + seq![
                                        Event::Start { cur: self.cur_table, tot: self.tot_tables, name: full@ },
                                    ]);
                                    let mut out = annotation_lines(&sc, &tn);
                                    let ghost before = out.deep_view();
                                    out.push(String::from_str(line));
                                    assert(out.deep_view() =~= before + seq![line@]) by {
                                        assert forall|k: int| 0 <= k < out@.len() implies #[trigger] out.deep_view()[k] == (before + seq![line@])[k] by {
                                            assert(out.deep_view()[k] == out@[k]@);
                                        }
                                    }
                                    Ok(out)
                                } else {
                                    Err(
                                        DumpError {
                                            line: self.line_no,
                                            table: full,
                                            kind: DumpErrorKind::ColumnsMismatch {
                                                create_table: tnames,
                                                copy_into: copy_cols,
                                            },
                                        },
                                    )
                                }
                            },
                            None => Ok(one_line(line)),
                        }
                    },
                    None => Ok(one_line(line)),
                }
            },
        }
    }

    fn definition_line(&mut self, line: &str, chars: &Vec<char>) -> (r: Result<Vec<String>, DumpError>)
        requires
            old(self).wf(),
            old(self).state == ParseState::TableDefinition,
            chars@ == line@,
        ensures
            final(self).wf(),
            final(self).engine == old(self).engine,
            final(self).dump_writer == old(self).dump_writer,
            final(self).line_no == old(self).line_no,
            r matches Err(e) ==> e.line == old(self).line_no,
            final(self).events() == old(self).events() + step_events(
                old(self).settings_spec(),
                old(self).model(),
                line@,
                old(self).seed(),
            ),
            match step(old(self).settings_spec(), old(self).model(), line@, old(self).seed()) {
                Ok((m, out)) => r matches Ok(o) && o.deep_view() == out && final(self).model() == m,
                Err(f) => r matches Err(e) && e.fail() == f,
            },
    {
        reveal(step);
        reveal(step_events);
        if equals_literal(chars, ");") {
            let mut done = TableBuilder::begin(String::new(), String::new());
            std::mem::swap(&mut self.builder, &mut done);
            let ghost old_tables = self.tables@;
            let t = done.seal();
            self.tables.push(t);
            self.state = ParseState::Passthrough;
            assert(self.model().tables =~= old(self).model().tables.push(old(self).model().current));
            assert(self.model().current.columns =~= Seq::<(Seq<char>, Seq<char>)>::empty());
            assert(self.model().current =~= TableM { schema: Seq::empty(), name: Seq::empty(), columns: Seq::empty() });
            assert forall|i: int| 0 <= i < self.tables@.len() implies (#[trigger] self.tables@[i]).wf() by {
                if i < old_tables.len() {
                    assert(self.tables@[i] == old_tables[i]);
                }
            }
            return Ok(one_line(line));
        }
        match parse_column_decl(chars) {
            Some((n, ty)) => {
                let name = string_of(n.as_slice());
                let data_type = string_of(ty.as_slice());
                proof {
                    lemma_column_names(self.builder.table_spec());
                }
                let ghost before = self.builder.table_spec();
                match self.builder.push_column(name, data_type) {
                    Ok(()) => {
                        assert(self.model().current.columns =~= old(self).model().current.columns.push((n@, ty@)));
                        Ok(one_line(line))
                    },
                    Err(DuplicateColumn { column }) => {
                        let full = self.builder.table().get_full_name();
                        Err(
                            DumpError {
                                line: self.line_no,
                                table: full,
                                kind: DumpErrorKind::DuplicateColumn { column },
                            },
                        )
                    },
                }
            },
            None => Ok(one_line(line)),
        }
    }

    #[verifier::rlimit(40)]
    fn data_line(&mut self, line: &str, chars: &Vec<char>) -> (r: Result<Vec<String>, DumpError>)
        requires
            old(self).wf(),
            old(self).state == ParseState::TableData,
            chars@ == line@,
        ensures
            final(self).wf(),
            final(self).engine == old(self).engine,
            final(self).dump_writer == old(self).dump_writer,
            final(self).line_no == old(self).line_no,
            r matches Err(e) ==> e.line == old(self).line_no,
            final(self).events() == old(self).events() + step_events(
                old(self).settings_spec(),
                old(self).model(),
                line@,
                old(self).seed(),
            ),
            match step(old(self).settings_spec(), old(self).model(), line@, old(self).seed()) {
                Ok((m, out)) => r matches Ok(o) && o.deep_view() == out && final(self).model() == m,
                Err(f) => r matches Err(e) && e.fail() == f,
            },
    {
        reveal(step);
        reveal(step_events);
        if equals_literal(chars, "\\.") {
            self.indicator.finish_pb_stream(self.num_rows);
            self.events = Ghost(self.events@.push(Event::Finish(self.num_rows)));
            self.state = ParseState::Passthrough;
            return Ok(one_line(line));
        }
        let t = self.data_table;
        let names = self.tables[t].get_names();
        proof {
            lemma_column_names(self.tables@[t as int]);
            assert(self.model().tables[t as int] == self.tables@[t as int].view());
        }
        assert(names.deep_view() =~= table_names(self.tables@[t as int].schemaname@, self.tables@[t as int].tablename@));
        match self.engine.settings.find_table_index(&names) {
            Some(ci) => {
                match transform_row(&self.tables[t], &self.engine.settings.tables[ci], chars, &self.engine.ctx) {
                    Ok(out) => {
                        self.num_rows = bump(self.num_rows);
                        self.indicator.inc_pb_stream(self.num_rows);
                        self.events = Ghost(self.events@.push(Event::Row(self.num_rows)));
                        let s = string_of(out.as_slice());
                        let mut r: Vec<String> = Vec::new();
                        r.push(s);
                        assert(r.deep_view() =~= seq![out@]);
                        Ok(r)
                    },
                    Err(e) => {
                        let full = self.tables[t].get_full_name();
                        Err(DumpError { line: self.line_no, table: full, kind: DumpErrorKind::Row(e) })
                    },
                }
            },
            None => Ok(one_line(line)),
        }
    }

    /// Handles one input line: the lines to write in its place, or the failure.
    pub fn process_line(&mut self, line: &str) -> (r: Result<Vec<String>, DumpError>)
        requires
            old(self).wf(),
        ensures
            final(self).wf(),
            final(self).settings_spec() == old(self).settings_spec(),
            final(self).seed() == old(self).seed(),
            final(self).written() == old(self).written(),
            final(self).lines_read() == saturating(old(self).lines_read() + 1),
            r matches Err(e) ==> e.line == final(self).lines_read(),
            final(self).events() == old(self).events() + step_events(
                old(self).settings_spec(),
                old(self).model(),
                line@,
                old(self).seed(),
            ),
            match step(old(self).settings_spec(), old(self).model(), line@, old(self).seed()) {
                Ok((m, out)) => r matches Ok(o) && o.deep_view() == out && final(self).model() == m,
                Err(f) => r matches Err(e) && e.fail() == f,
            },
    {
        let chars = chars_of(line);
        if self.line_no < usize::MAX {
            self.line_no = self.line_no + 1;
        }
        match self.state {
            ParseState::Passthrough => self.passthrough_line(line, &chars),
            ParseState::TableDefinition => self.definition_line(line, &chars),
            ParseState::TableData => self.data_line(line, &chars),
        }
    }

    /// Writes one line.
    pub fn dump_writer_all(&mut self, line: &str)
        ensures
            final(self).written() == old(self).written().push(line@),
            final(self).model() == old(self).model(),
            final(self).wf() == old(self).wf(),
            final(self).settings_spec() == old(self).settings_spec(),
            final(self).seed() == old(self).seed(),
            final(self).lines_read() == old(self).lines_read(),
            final(self).events() == old(self).events(),
    {
        let ghost before = self.dump_writer@;
        self.dump_writer.push(String::from_str(line));
        assert forall|k: int| 0 <= k < self.dump_writer@.len() implies #[trigger] self.written()[k]
            == old(self).written().push(line@)[k] by {
            assert(self.written()[k] == self.dump_writer@[k]@);
            if k < before.len() {
                assert(old(self).written()[k] == before[k]@);
            }
        }
        assert(self.written() =~= old(self).written().push(line@));
    }

    fn write_lines(&mut self, lines: &Vec<String>)
        ensures
            final(self).written() == old(self).written() + lines.deep_view(),
            final(self).model() == old(self).model(),
            final(self).wf() == old(self).wf(),
            final(self).settings_spec() == old(self).settings_spec(),
            final(self).seed() == old(self).seed(),
            final(self).lines_read() == old(self).lines_read(),
            final(self).events() == old(self).events(),
    {
        let mut i: usize = 0;
        while i < lines.len()
            invariant
                i <= lines@.len(),
                self.written() == old(self).written() + lines.deep_view().subrange(0, i as int),
                self.model() == old(self).model(),
                self.wf() == old(self).wf(),
                self.settings_spec() == old(self).settings_spec(),
                self.seed() == old(self).seed(),
                self.lines_read() == old(self).lines_read(),
                self.events() == old(self).events(),
            decreases lines@.len() - i,
        {
            self.dump_writer_all(lines[i].as_str());
            assert(lines.deep_view()[i as int] == lines@[i as int]@);
            assert(lines.deep_view().subrange(0, i + 1) =~= lines.deep_view().subrange(0, i as int).push(
                lines@[i as int]@,
            ));
            i = i + 1;
        }
        assert(lines.deep_view().subrange(0, i as int) =~= lines.deep_view());
    }

    /// Writes a message as a comment block.
    pub fn write_log(&mut self, message: &str)
        ensures
            final(self).written() == old(self).written() + log_block(message@),
            final(self).model() == old(self).model(),
            final(self).wf() == old(self).wf(),
            final(self).settings_spec() == old(self).settings_spec(),
            final(self).seed() == old(self).seed(),
            final(self).lines_read() == old(self).lines_read(),
            final(self).events() == old(self).events(),
    {
        let mut b: Vec<String> = Vec::new();
        b.push(String::from_str("---"));
        b.push(concat_str("--- ", message));
        b.push(String::from_str("---"));
        assert(b.deep_view() =~= log_block(message@));
        self.write_lines(&b);
    }

    /// Writes the banner at the head of the output.
    pub fn pre_data(&mut self)
        ensures
            final(self).written() == old(self).written() + banner(),
            final(self).model() == old(self).model(),
            final(self).wf() == old(self).wf(),
            final(self).settings_spec() == old(self).settings_spec(),
            final(self).seed() == old(self).seed(),
            final(self).lines_read() == old(self).lines_read(),
            final(self).events() == old(self).events().push(
                Event::Debug("No pre-data schema analysis required..."@),
            ),
    {
        self.write_log("pg_datanymizer anonymized database dump");
        self.note("No pre-data schema analysis required...");
    }

    /// Hands a message to the indicator and records it.
    fn note(&mut self, message: &str)
        ensures
            final(self).events() == old(self).events().push(Event::Debug(message@)),
            final(self).written() == old(self).written(),
            final(self).model() == old(self).model(),
            final(self).wf() == old(self).wf(),
            final(self).settings_spec() == old(self).settings_spec(),
            final(self).seed() == old(self).seed(),
            final(self).lines_read() == old(self).lines_read(),
    {
        self.indicator.debug_msg(message);
        self.events = Ghost(self.events@.push(Event::Debug(message@)));
    }

    /// Runs the filter over every line of the dump, writing what it makes of each.
    pub fn dump_stream(&mut self, lines: &Vec<String>) -> (r: Result<(), DumpError>)
        requires
            old(self).wf(),
        ensures
            final(self).wf(),
            match run(old(self).settings_spec(), old(self).model(), lines.deep_view(), old(self).seed()) {
                Ok((m, out)) => r is Ok && final(self).written() == old(self).written() + out
                    && final(self).model() == m,
                Err((f, k, w)) => r matches Err(e) && e.fail() == f && final(self).written() == old(
                    self,
                ).written() + w && e.line == saturating(old(self).lines_read() + k + 1),
            },
            final(self).events() == old(self).events() + run_events(
                old(self).settings_spec(),
                old(self).model(),
                lines.deep_view(),
                old(self).seed(),
            ),
    {
        let ghost cfg = self.settings_spec();
        let ghost seed = self.seed();
        let ghost all = lines.deep_view();
        let ghost m0 = self.model();
        let mut i: usize = 0;
        assert(all.subrange(0, all.len() as int) =~= all);
        while i < lines.len()
            invariant
                i <= all.len(),
                all == lines.deep_view(),
                self.wf(),
                cfg == self.settings_spec(),
                seed == self.seed(),
                cfg == old(self).settings_spec(),
                seed == old(self).seed(),
                m0 == old(self).model(),
                continue_run(self.written().subrange(old(self).written().len() as int, self.written().len() as int), i as int, run(cfg, self.model(), all.subrange(i as int, all.len() as int), seed))
                    == run(cfg, m0, all, seed),
                old(self).written().len() <= self.written().len(),
                self.written().subrange(0, old(self).written().len() as int) == old(self).written(),
                self.lines_read() == saturating(old(self).lines_read() + i),
                old(self).events() + run_events(cfg, m0, all, seed) == self.events() + run_events(
                    cfg,
                    self.model(),
                    all.subrange(i as int, all.len() as int),
                    seed,
                ),
                old(self).lines_read() <= usize::MAX,
            decreases all.len() - i,
        {
            let ghost rest = all.subrange(i as int, all.len() as int);
            let ghost before = self.written();
            let ghost m = self.model();
            let ghost ev0 = self.events();
            assert(rest[0] == lines@[i as int]@);
            assert(rest.drop_first() =~= all.subrange(i + 1, all.len() as int));
            match self.process_line(lines[i].as_str()) {
                Ok(out) => {
                    self.write_lines(&out);
                    proof {
                        let ev = step_events(cfg, m, rest[0], seed);
                        let nxe = run_events(cfg, self.model(), all.subrange(i + 1, all.len() as int), seed);
                        assert(run_events(cfg, m, rest, seed) == ev + nxe);
                        assert((ev0 + ev) + nxe =~= ev0 + (ev + nxe));
                        let o = out.deep_view();
                        let w0 = old(self).written().len() as int;
                        assert(self.written().subrange(w0, self.written().len() as int) =~= before.subrange(
                            w0,
                            before.len() as int,
                        ) + o);
                        assert(self.written().subrange(0, w0) =~= before.subrange(0, w0));
                        let nxt = run(cfg, self.model(), all.subrange(i + 1, all.len() as int), seed);
                        if nxt is Ok {
                            let (m3, r3) = nxt->Ok_0;
                            assert(before.subrange(w0, before.len() as int) + (o + r3) =~= (before.subrange(
                                w0,
                                before.len() as int,
                            ) + o) + r3);
                        } else {
                            let (f3, k3, w3) = nxt->Err_0;
                            assert(before.subrange(w0, before.len() as int) + (o + w3) =~= (before.subrange(
                                w0,
                                before.len() as int,
                            ) + o) + w3);
                        }
                    }
                },
                Err(e) => {
                    proof {
                        lemma_failing_step_no_events(cfg, m, rest[0], seed);
                        assert(self.events() =~= self.events() + Seq::<Event>::empty());
                    }
                    assert(run(cfg, m, rest, seed) == Err::<(FilterModel, Seq<Seq<char>>), (DumpFail, int, Seq<Seq<char>>)>(
                        (e.fail(), 0int, Seq::empty()),
                    ));
                    assert(self.written() =~= old(self).written() + self.written().subrange(
                        old(self).written().len() as int,
                        self.written().len() as int,
                    ) + Seq::<Seq<char>>::empty());
                    return Err(e);
                },
            }
            i = i + 1;
        }
        proof {
            let w0 = old(self).written().len() as int;
            assert(all.subrange(i as int, all.len() as int) =~= Seq::<Seq<char>>::empty());
            assert(self.written() =~= old(self).written() + self.written().subrange(w0, self.written().len() as int));
        }
        Ok(())
    }

    /// Takes the lines written so far.
    pub fn take_output(&mut self) -> (r: Vec<String>)
        ensures
            r.deep_view() == old(self).written(),
            final(self).written() == Seq::<Seq<char>>::empty(),
            final(self).model() == old(self).model(),
            final(self).wf() == old(self).wf(),
            final(self).settings_spec() == old(self).settings_spec(),
            final(self).seed() == old(self).seed(),
            final(self).lines_read() == old(self).lines_read(),
            final(self).events() == old(self).events(),
    {
        let mut r: Vec<String> = Vec::new();
        std::mem::swap(&mut r, &mut self.dump_writer);
        assert(self.written() =~= Seq::<Seq<char>>::empty());
        r
    }

    /// The configuration the filter runs with.
    pub fn settings(&self) -> (r: &Settings)
        ensures
            r.tables@ == self.settings_spec(),
    {
        &self.engine.settings
    }

    /// Runs the filter over the lines of an opened dump.
    pub fn data(&mut self, connection: &SqlTextConnection) -> (r: Result<(), DumpError>)
        requires
            old(self).wf(),
        ensures
            final(self).wf(),
            match run(old(self).settings_spec(), old(self).model(), connection.lines(), old(self).seed()) {
                Ok((m, out)) => r is Ok && final(self).written() == old(self).written() + out
                    && final(self).model() == m,
                Err((f, k, w)) => r matches Err(e) && e.fail() == f && final(self).written() == old(
                    self,
                ).written() + w && e.line == saturating(old(self).lines_read() + k + 1),
            },
            final(self).events() == old(self).events().push(Event::Debug("Start filtering .sql text stream..."@))
                + run_events(old(self).settings_spec(), old(self).model(), connection.lines(), old(self).seed()),
    {
        self.note("Start filtering .sql text stream...");
        self.dump_stream(connection.reader())
    }

    /// Nothing follows the data: the whole dump was filtered by `data`.
    pub fn post_data(&mut self)
        ensures
            final(self).events() == old(self).events().push(
                Event::Debug("No post-data schema analysis required..."@),
            ),
            final(self).written() == old(self).written(),
            final(self).model() == old(self).model(),
            final(self).wf() == old(self).wf(),
            final(self).settings_spec() == old(self).settings_spec(),
            final(self).seed() == old(self).seed(),
            final(self).lines_read() == old(self).lines_read(),
    {
        self.note("No post-data schema analysis required...");
    }

    /// The banner, then the filtered dump.
    pub fn dump(&mut self, connection: &SqlTextConnection) -> (r: Result<(), DumpError>)
        requires
            old(self).wf(),
        ensures
            final(self).wf(),
            match run(old(self).settings_spec(), old(self).model(), connection.lines(), old(self).seed()) {
                Ok((m, out)) => r is Ok && final(self).written() == old(self).written() + banner() + out
                    && final(self).model() == m,
                Err((f, k, w)) => r matches Err(e) && e.fail() == f && final(self).written() == old(
                    self,
                ).written() + banner() + w && e.line == saturating(old(self).lines_read() + k + 1),
            },
            final(self).events() == old(self).events().push(
                Event::Debug("No pre-data schema analysis required..."@),
            ).push(Event::Debug("Start filtering .sql text stream..."@)) + run_events(
                old(self).settings_spec(),
                old(self).model(),
                connection.lines(),
                old(self).seed(),
            ).push(Event::Debug("No post-data schema analysis required..."@)),
    {
        self.pre_data();
        let ghost e1 = self.events();
        let r = self.data(connection);
        let ghost e2 = self.events();
        self.post_data();
        proof {
            let re = run_events(old(self).settings_spec(), old(self).model(), connection.lines(), old(self).seed());
            assert((e1.push(Event::Debug("Start filtering .sql text stream..."@)) + re).push(
                Event::Debug("No post-data schema analysis required..."@),
            ) =~= e1.push(Event::Debug("Start filtering .sql text stream..."@)) + re.push(
                Event::Debug("No post-data schema analysis required..."@),
            ));
        }
        r
    }

    /// The schema inspector of a streamed dump.
    pub fn schema_inspector(&self) -> SqlTextSchemaInspector {
        SqlTextSchemaInspector
    }

    /// Hands a message to the indicator.
    pub fn debug(&self, message: &str) {
        self.indicator.debug_msg(message);
    }
}

/// A run's result after `i` lines that wrote `front`: the rest's result with
/// `front` in front of its lines and `i` added to a failing line's position.
/// The number of lines read, counted up to the largest `usize`.
pub open spec fn saturating(n: int) -> int {
    if n > usize::MAX {
        usize::MAX as int
    } else {
        n
    }
}

pub open spec fn continue_run(
    front: Seq<Seq<char>>,
    i: int,
    r: Result<(FilterModel, Seq<Seq<char>>), (DumpFail, int, Seq<Seq<char>>)>,
) -> Result<(FilterModel, Seq<Seq<char>>), (DumpFail, int, Seq<Seq<char>>)> {
    match r {
        Ok((m, out)) => Ok((m, front + out)),
        Err((f, k, w)) => Err((f, k + i, front + w)),
    }
}


/// The state a run keeps: a table being defined is a configured one.
pub open spec fn defining_configured(cfg: Seq<TableConfig>, m: FilterModel) -> bool {
    m.state == ParseState::TableDefinition ==> configured(cfg, m.current.schema, m.current.name)
}

/// Tables sealed by a run keep those sealed before it, and each new one is configured.
pub open spec fn grows_by_configured(cfg: Seq<TableConfig>, before: Seq<TableM>, after: Seq<TableM>) -> bool {
    &&& before.len() <= after.len()
    &&& forall|k: int| 0 <= k < before.len() ==> #[trigger] after[k] == before[k]
    &&& forall|k: int|
        before.len() <= k < after.len() ==> configured(cfg, (#[trigger] after[k]).schema, after[k].name)
}

proof fn lemma_step_seals_configured(cfg: Seq<TableConfig>, m: FilterModel, line: Seq<char>, seed: u64)
    requires
        defining_configured(cfg, m),
    ensures
        step(cfg, m, line, seed) matches Ok((m2, out)) ==> defining_configured(cfg, m2) && grows_by_configured(
            cfg,
            m.tables,
            m2.tables,
        ),
{
    reveal(step);
}

/// A `CREATE TABLE` for a table that is not configured seals nothing: every
/// table a run seals is configured, and the tables sealed before stay.
pub proof fn lemma_only_configured_tables_sealed(
    cfg: Seq<TableConfig>,
    m: FilterModel,
    lines: Seq<Seq<char>>,
    seed: u64,
)
    requires
        defining_configured(cfg, m),
    ensures
        run(cfg, m, lines, seed) matches Ok((m2, out)) ==> grows_by_configured(cfg, m.tables, m2.tables),
    decreases lines.len(),
{
    if lines.len() > 0 {
        lemma_step_seals_configured(cfg, m, lines[0], seed);
        if step(cfg, m, lines[0], seed) is Ok {
            let (m1, o) = step(cfg, m, lines[0], seed)->Ok_0;
            lemma_only_configured_tables_sealed(cfg, m1, lines.drop_first(), seed);
        }
    }
}

/// For each line up to the end or to the line that fails: the state the
/// filter is in when the line comes, and the lines written for it.
pub open spec fn trace(cfg: Seq<TableConfig>, m: FilterModel, lines: Seq<Seq<char>>, seed: u64) -> Seq<
    (FilterModel, Seq<Seq<char>>),
>
    decreases lines.len(),
{
    if lines.len() == 0 {
        Seq::empty()
    } else {
        match step(cfg, m, lines[0], seed) {
            Err(_) => Seq::empty(),
            Ok((m2, out)) => seq![(m, out)] + trace(cfg, m2, lines.drop_first(), seed),
        }
    }
}

/// Whether a line is outside a transformed data block: any line met outside
/// a data block, and the `\.` that ends one.
pub open spec fn kept_line(m: FilterModel, line: Seq<char>) -> bool {
    m.state != ParseState::TableData || line == "\\."@
}

/// What a run writes for a line outside a data block: the line itself, after
/// an annotation block where the line opens a data block.
pub open spec fn written_for_kept(piece: Seq<Seq<char>>, line: Seq<char>) -> bool {
    &&& piece.len() >= 1
    &&& piece.last() == line
    &&& (piece.len() == 1 || exists|sc: Seq<char>, tn: Seq<char>| piece.drop_last() == #[trigger] annotation(sc, tn))
}

/// A whole run writes, line after line, what each line gives, and for every
/// line outside a transformed data block that is the line itself, unchanged,
/// in its place (after the annotation block where it opens a data block).
pub proof fn lemma_run_keeps_lines(cfg: Seq<TableConfig>, m: FilterModel, lines: Seq<Seq<char>>, seed: u64)
    ensures
        run(cfg, m, lines, seed) matches Ok((m2, out)) ==> ({
            let t = trace(cfg, m, lines, seed);
            &&& t.len() == lines.len()
            &&& out == t.map_values(|p: (FilterModel, Seq<Seq<char>>)| p.1).flatten()
            &&& forall|i: int|
                0 <= i < lines.len() && kept_line(t[i].0, lines[i]) ==> written_for_kept(
                    #[trigger] t[i].1,
                    lines[i],
                )
        }),
    decreases lines.len(),
{
    if lines.len() > 0 && step(cfg, m, lines[0], seed) is Ok {
        let (m1, o) = step(cfg, m, lines[0], seed)->Ok_0;
        lemma_run_keeps_lines(cfg, m1, lines.drop_first(), seed);
        if run(cfg, m, lines, seed) is Ok {
            let t = trace(cfg, m, lines, seed);
            let rest = trace(cfg, m1, lines.drop_first(), seed);
            assert(t == seq![(m, o)] + rest);
            let f = |p: (FilterModel, Seq<Seq<char>>)| p.1;
            assert(t.map_values(f).drop_first() =~= rest.map_values(f));
            assert(t.map_values(f).first() == o);
            reveal(step);
            assert forall|i: int|
                0 <= i < lines.len() && kept_line(t[i].0, lines[i]) implies written_for_kept(
                    #[trigger] t[i].1,
                    lines[i],
                ) by {
                if i == 0 {
                    lemma_line_kept(cfg, m, lines[0], seed);
                    if o.len() > 1 {
                        let (sc, tn, cols) = copy_header(lines[0])->Some_0;
                        assert(o.drop_last() =~= annotation(sc, tn));
                    }
                } else {
                    assert(t[i] == rest[i - 1]);
                    assert(lines[i] == lines.drop_first()[i - 1]);
                }
            }
        }
    }
}

/// What a run writes for a data row: the row rewritten by its table's rules
/// (so, by `lemma_row_field_count`, the join of one field per column).
pub open spec fn written_for_row(cfg: Seq<TableConfig>, m: FilterModel, line: Seq<char>, piece: Seq<Seq<char>>, seed: u64) -> bool {
    let t = m.tables[m.data_table];
    &&& piece.len() == 1
    &&& match find_table_spec(cfg, table_names(t.schema, t.name)) {
        Some(ci) => row_outcome(column_names(t), cfg[ci].rules@, line, seed) == Ok::<Seq<char>, RowFail>(piece[0]),
        None => piece[0] == line,
    }
}

/// In a whole run, each data row of a data block is written as one line: the
/// row as its table's rules rewrite it.
pub proof fn lemma_run_rows(cfg: Seq<TableConfig>, m: FilterModel, lines: Seq<Seq<char>>, seed: u64)
    ensures
        trace(cfg, m, lines, seed).len() <= lines.len(),
        ({
            let t = trace(cfg, m, lines, seed);
            forall|i: int|
                0 <= i < t.len() && !kept_line(t[i].0, lines[i]) ==> written_for_row(
                    cfg,
                    t[i].0,
                    lines[i],
                    #[trigger] t[i].1,
                    seed,
                )
        }),
    decreases lines.len(),
{
    if lines.len() > 0 && step(cfg, m, lines[0], seed) is Ok {
        let (m1, o) = step(cfg, m, lines[0], seed)->Ok_0;
        lemma_run_rows(cfg, m1, lines.drop_first(), seed);
        let t = trace(cfg, m, lines, seed);
        let rest = trace(cfg, m1, lines.drop_first(), seed);
        assert(t == seq![(m, o)] + rest);
        reveal(step);
        assert forall|i: int|
            0 <= i < t.len() && !kept_line(t[i].0, lines[i]) implies written_for_row(
                cfg,
                t[i].0,
                lines[i],
                #[trigger] t[i].1,
                seed,
            ) by {
            if i > 0 {
                assert(t[i] == rest[i - 1]);
                assert(lines[i] == lines.drop_first()[i - 1]);
            }
        }
    }
}

/// A line that stops the run hands no event to the indicator.
pub proof fn lemma_failing_step_no_events(cfg: Seq<TableConfig>, m: FilterModel, line: Seq<char>, seed: u64)
    requires
        step(cfg, m, line, seed) is Err,
    ensures
        step_events(cfg, m, line, seed) == Seq::<Event>::empty(),
{
    reveal(step);
    reveal(step_events);
}

/// Outside a data block, and for the line that ends one, the line is written
/// unchanged, as the last of the lines written for it.
pub proof fn lemma_line_kept(cfg: Seq<TableConfig>, m: FilterModel, line: Seq<char>, seed: u64)
    requires
        m.state != ParseState::TableData || line == "\\."@,
    ensures
        step(cfg, m, line, seed) matches Ok((m2, out)) ==> out.len() >= 1 && out.last() == line,
{
    reveal(step);
}

/// With no table configured, the filter writes every line unchanged.
pub proof fn lemma_empty_config_identity(m: FilterModel, lines: Seq<Seq<char>>, seed: u64)
    requires
        m.state == ParseState::Passthrough,
        m.tables.len() == 0,
    ensures
        run(Seq::empty(), m, lines, seed) == Ok::<(FilterModel, Seq<Seq<char>>), (DumpFail, int, Seq<Seq<char>>)>((m, lines)),
    decreases lines.len(),
{
    reveal(step);
    if lines.len() > 0 {
        lemma_empty_config_identity(m, lines.drop_first(), seed);
        assert(step(Seq::empty(), m, lines[0], seed) == Ok::<(FilterModel, Seq<Seq<char>>), DumpFail>((m, seq![lines[0]])));
        assert(seq![lines[0]] + lines.drop_first() =~= lines);
    } else {
        assert(lines =~= Seq::<Seq<char>>::empty());
    }
}

/// Every sealed table of a filter, at any point of a run, has column
/// positions `0..len-1` in declaration order and no two columns of one name;
/// the model's tables are the sealed tables.
pub proof fn lemma_sealed_positions<I: Indicator>(d: &SqlTextDumper<I>)
    requires
        d.wf(),
    ensures
        d.model().tables.len() == d.registry().len(),
        forall|k: int| 0 <= k < d.registry().len() ==> #[trigger] d.model().tables[k] == d.registry()[k].view(),
        forall|k: int| 0 <= k < d.registry().len() ==> columns_wf(#[trigger] d.registry()[k].columns_spec()),
{
    assert forall|k: int| 0 <= k < d.registry().len() implies columns_wf(#[trigger] d.registry()[k].columns_spec()) by {
        assert(d.tables@[k].wf());
    }
}

/// The sealed tables' columns have unique names.
pub proof fn lemma_sealed_names_unique<I: Indicator>(d: &SqlTextDumper<I>, t: int)
    requires
        d.wf(),
        0 <= t < d.model().tables.len(),
    ensures
        column_names(d.model().tables[t]).no_duplicates(),
{
    let pt = d.tables@[t];
    assert(d.model().tables[t] == pt.view());
    assert(pt.wf());
    lemma_column_names(pt);
    crate::table::lemma_sealed_columns(pt);
}

} // verus!
