//! Rewriting one data row of a `COPY` block.
use vstd::prelude::*;
use crate::engine::{ColumnRule, TableConfig, rule_for_spec};
use crate::table::{PgColumn, PgTable, names_of};
use crate::text::{TAB, join_on, join_row, lacks, lemma_split_join, split_on, split_row, string_of, chars_of};
use crate::transform::{TransformContext, TransformError, TransformErrorKind, seed_of};

verus! {

/// Why a row could not be rewritten.
pub enum RowFail {
    /// The row has `found` fields where the table has `expected` columns.
    FieldCount { expected: nat, found: nat },
    /// A rule names a column that the table does not have.
    UnknownColumn(Seq<char>),
    /// A rule failed on the value given, in the column named.
    Transform(TransformErrorKind, Seq<char>, Seq<char>),
}

/// Why a row could not be rewritten, as returned.
#[derive(Debug)]
pub enum RowError {
    FieldCount { expected: usize, found: usize },
    UnknownColumn { column: String },
    Transform { column: String, error: TransformError },
}

impl RowError {
    pub open spec fn fail(&self) -> RowFail {
        match self {
            RowError::FieldCount { expected, found } => RowFail::FieldCount {
                expected: *expected as nat,
                found: *found as nat,
            },
            RowError::UnknownColumn { column } => RowFail::UnknownColumn(column@),
            RowError::Transform { column, error } => RowFail::Transform(error.kind, error.field_value@, column@),
        }
    }
}

/// The first rule bound to a column that `cols` does not hold.
pub open spec fn unknown_rule(rules: Seq<ColumnRule>, cols: Seq<Seq<char>>) -> Option<int> {
    if exists|i: int| 0 <= i < rules.len() && !cols.contains(#[trigger] rules[i].column@) {
        Some(
            choose|i: int|
                0 <= i < rules.len() && !cols.contains(#[trigger] rules[i].column@) && forall|j: int|
                    0 <= j < i ==> cols.contains(#[trigger] rules[j].column@),
        )
    } else {
        None
    }
}

/// The new value of one field: the bound rule's replacement, or the value kept.
pub open spec fn field_outcome(rules: Seq<ColumnRule>, col: Seq<char>, value: Seq<char>, seed: u64) -> Result<
    Seq<char>,
    (TransformErrorKind, Seq<char>),
> {
    match rule_for_spec(rules, col) {
        None => Ok(value),
        Some(i) => match rules[i].rule.outcome(col, value, seed) {
            Ok(Some(v)) => Ok(v),
            Ok(None) => Ok(value),
            Err(e) => Err(e),
        },
    }
}

/// The new values of the fields from `i` on; the first failure ends the row.
#[verifier::opaque]
pub open spec fn fields_outcome(
    rules: Seq<ColumnRule>,
    cols: Seq<Seq<char>>,
    fields: Seq<Seq<char>>,
    i: int,
    seed: u64,
) -> Result<Seq<Seq<char>>, RowFail>
    decreases fields.len() - i,
{
    if i < 0 || i >= fields.len() {
        Ok(Seq::empty())
    } else {
        match field_outcome(rules, cols[i], fields[i], seed) {
            Err((k, v)) => Err(RowFail::Transform(k, v, cols[i])),
            Ok(v) => match fields_outcome(rules, cols, fields, i + 1, seed) {
                Ok(rest) => Ok(seq![v] + rest),
                Err(e) => Err(e),
            },
        }
    }
}

/// The rewritten row for a table with columns `cols` under `rules`.
pub open spec fn row_outcome(cols: Seq<Seq<char>>, rules: Seq<ColumnRule>, line: Seq<char>, seed: u64) -> Result<
    Seq<char>,
    RowFail,
> {
    let fields = split_on(line, TAB);
    if fields.len() != cols.len() {
        Err(RowFail::FieldCount { expected: cols.len(), found: fields.len() })
    } else {
        match unknown_rule(rules, cols) {
            Some(i) => Err(RowFail::UnknownColumn(rules[i].column@)),
            None => match fields_outcome(rules, cols, fields, 0, seed) {
                Ok(fs) => Ok(join_on(fs, TAB)),
                Err(e) => Err(e),
            },
        }
    }
}

pub open spec fn prepend_fields(front: Seq<Seq<char>>, r: Result<Seq<Seq<char>>, RowFail>) -> Result<Seq<Seq<char>>, RowFail> {
    match r {
        Ok(s) => Ok(front + s),
        Err(e) => Err(e),
    }
}

fn find_unknown_rule(rules: &Vec<ColumnRule>, table: &PgTable) -> (r: Option<usize>)
    ensures
        match unknown_rule(rules@, names_of(table.columns_spec())) {
            Some(i) => r matches Some(k) && k as int == i,
            None => r is None,
        },
        r matches Some(k) ==> k < rules@.len(),
{
    let names = table.get_columns_names();
    let ghost cols = names_of(table.columns_spec());
    let mut i: usize = 0;
    while i < rules.len()
        invariant
            i <= rules@.len(),
            names.deep_view() == cols,
            forall|j: int| 0 <= j < i ==> cols.contains(#[trigger] rules@[j].column@),
            cols == names_of(table.columns_spec()),
        decreases rules@.len() - i,
    {
        let mut found = false;
        let mut k: usize = 0;
        while k < names.len() && !found
            invariant
                k <= names@.len(),
                names.deep_view() == cols,
                found ==> cols.contains(rules@[i as int].column@),
                !found ==> forall|t: int| 0 <= t < k ==> names@[t]@ != rules@[i as int].column@,
                i < rules@.len(),
            decreases names@.len() - k + (if found { 0int } else { 1 }),
        {
            if names[k] == rules[i].column {
                assert(cols[k as int] == names@[k as int]@);
                found = true;
            } else {
                k = k + 1;
            }
        }
        if !found {
            assert(!cols.contains(rules@[i as int].column@)) by {
                if cols.contains(rules@[i as int].column@) {
                    let t = choose|t: int| 0 <= t < cols.len() && cols[t] == rules@[i as int].column@;
                    assert(names.deep_view()[t] == names@[t]@);
                }
            }
            assert(0 <= i < rules@.len() && !cols.contains(rules@[i as int].column@) && forall|j: int|
                0 <= j < i ==> cols.contains(#[trigger] rules@[j].column@));
            let ghost c = choose|c: int|
                0 <= c < rules@.len() && !cols.contains(#[trigger] rules@[c].column@) && forall|j: int|
                    0 <= j < c ==> cols.contains(#[trigger] rules@[j].column@);
            assert(c == i) by {
                if c < i {
                    assert(cols.contains(rules@[c].column@));
                } else if c > i {
                    assert(!cols.contains(rules@[i as int].column@));
                }
            }
            return Some(i);
        }
        i = i + 1;
    }
    None
}

fn transform_field(cfg: &TableConfig, col: &String, field: &Vec<char>, ctx: &Option<TransformContext>) -> (r:
    Result<Vec<char>, RowError>)
    ensures
        match field_outcome(cfg.rules@, col@, field@, seed_of(*ctx)) {
            Ok(v) => r matches Ok(x) && x@ == v,
            Err((k, v)) => r matches Err(e) && e.fail() == RowFail::Transform(k, v, col@),
        },
{
    let value = string_of(field.as_slice());
    match cfg.rule_for(col) {
        None => Ok(chars_of(value.as_str())),
        Some(rule) => {
            match rule.transform(col.as_str(), value.as_str(), ctx) {
                Ok(Some(s)) => Ok(chars_of(s.as_str())),
                Ok(None) => Ok(chars_of(value.as_str())),
                Err(e) => Err(RowError::Transform { column: col.clone(), error: e }),
            }
        },
    }
}

/// Rewrites one data row of `table` with the rules of `cfg`.
pub fn transform_row(table: &PgTable, cfg: &TableConfig, line: &Vec<char>, ctx: &Option<TransformContext>) -> (r:
    Result<Vec<char>, RowError>)
    ensures
        match row_outcome(names_of(table.columns_spec()), cfg.rules@, line@, seed_of(*ctx)) {
            Ok(out) => r matches Ok(v) && v@ == out,
            Err(f) => r matches Err(e) && e.fail() == f,
        },
{
    let ghost cols = names_of(table.columns_spec());
    let fields = split_row(line, TAB);
    let columns = table.get_columns();
    assert(split_on(line@, TAB).len() == fields@.len());
    if fields.len() != columns.len() {
        return Err(RowError::FieldCount { expected: columns.len(), found: fields.len() });
    }
    match find_unknown_rule(&cfg.rules, table) {
        Some(i) => {
            return Err(RowError::UnknownColumn { column: cfg.rules[i].column.clone() });
        },
        None => {},
    }
    let ghost parts = split_on(line@, TAB);
    assert(fields.deep_view() =~= parts) by {
        assert forall|q: int| 0 <= q < parts.len() implies #[trigger] fields.deep_view()[q] == parts[q] by {
            assert(fields.deep_view()[q] == fields@[q]@);
        }
    }
    let out = transform_fields(cfg, columns, &fields, ctx)?;
    Ok(join_row(&out, TAB))
}

fn transform_fields(
    cfg: &TableConfig,
    columns: &Vec<PgColumn>,
    fields: &Vec<Vec<char>>,
    ctx: &Option<TransformContext>,
) -> (r: Result<Vec<Vec<char>>, RowError>)
    requires
        fields@.len() == columns@.len(),
    ensures
        match fields_outcome(cfg.rules@, names_of(columns@), fields.deep_view(), 0, seed_of(*ctx)) {
            Ok(fs) => r matches Ok(v) && v.deep_view() == fs,
            Err(f) => r matches Err(e) && e.fail() == f,
        },
{
    let ghost cols = names_of(columns@);
    let ghost parts = fields.deep_view();
    let ghost seed = seed_of(*ctx);
    let mut out: Vec<Vec<char>> = Vec::new();
    let mut i: usize = 0;
    while i < fields.len()
        invariant
            i <= fields@.len(),
            fields@.len() == columns@.len(),
            parts == fields.deep_view(),
            cols == names_of(columns@),
            seed == seed_of(*ctx),
            prepend_fields(out.deep_view(), fields_outcome(cfg.rules@, cols, parts, i as int, seed))
                == fields_outcome(cfg.rules@, cols, parts, 0, seed),
        decreases fields@.len() - i,
    {
        let col = &columns[i].name;
        assert(cols[i as int] == col@);
        assert(parts[i as int] == fields@[i as int]@);
        let ghost fo_next = fields_outcome(cfg.rules@, cols, parts, i + 1, seed);
        let nv = match transform_field(cfg, col, &fields[i], ctx) {
            Ok(v) => v,
            Err(e) => {
                assert(fields_outcome(cfg.rules@, cols, parts, i as int, seed) == Err::<Seq<Seq<char>>, RowFail>(e.fail())) by {
                    reveal(fields_outcome);
                }
                return Err(e);
            },
        };
        assert(fields_outcome(cfg.rules@, cols, parts, i as int, seed) == prepend_fields(seq![nv@], fo_next)) by {
            reveal(fields_outcome);
        }
        let ghost before = out.deep_view();
        let ghost old_out = out@;
        out.push(nv);
        assert forall|q: int| 0 <= q < out@.len() implies #[trigger] out.deep_view()[q] == (before + seq![nv@])[q] by {
            assert(out.deep_view()[q] == out@[q]@);
            if q < before.len() {
                assert(before[q] == old_out[q]@);
            }
        }
        assert(out.deep_view() =~= before + seq![nv@]);
        proof {
            if fo_next is Ok {
                let rest = fo_next->Ok_0;
                assert(before + (seq![nv@] + rest) =~= out.deep_view() + rest);
            }
        }
        i = i + 1;
    }
    assert(out.deep_view() + Seq::empty() =~= out.deep_view());
    assert(fields_outcome(cfg.rules@, cols, parts, i as int, seed) == Ok::<Seq<Seq<char>>, RowFail>(Seq::empty())) by {
        reveal(fields_outcome);
    }
    Ok(out)
}

proof fn lemma_fields_outcome_len(
    rules: Seq<ColumnRule>,
    cols: Seq<Seq<char>>,
    fields: Seq<Seq<char>>,
    i: int,
    seed: u64,
)
    requires
        0 <= i <= fields.len(),
    ensures
        fields_outcome(rules, cols, fields, i, seed) matches Ok(fs) ==> fs.len() == fields.len() - i,
    decreases fields.len() - i,
{
    reveal(fields_outcome);
    if i < fields.len() {
        lemma_fields_outcome_len(rules, cols, fields, i + 1, seed);
    }
}

/// A rewritten row is the join of exactly as many fields as the table has
/// columns; where no new value holds a tab, splitting it gives that many fields.
pub proof fn lemma_row_field_count(cols: Seq<Seq<char>>, rules: Seq<ColumnRule>, line: Seq<char>, seed: u64)
    requires
        row_outcome(cols, rules, line, seed) is Ok,
    ensures
        ({
            let fs = fields_outcome(rules, cols, split_on(line, TAB), 0, seed)->Ok_0;
            &&& fields_outcome(rules, cols, split_on(line, TAB), 0, seed) is Ok
            &&& fs.len() == cols.len()
            &&& row_outcome(cols, rules, line, seed)->Ok_0 == join_on(fs, TAB)
            &&& (forall|i: int| 0 <= i < fs.len() ==> lacks(#[trigger] fs[i], TAB)) ==> split_on(
                row_outcome(cols, rules, line, seed)->Ok_0,
                TAB,
            ).len() == cols.len()
        }),
{
    let fields = split_on(line, TAB);
    crate::text::lemma_split_on_nonempty(line, TAB);
    lemma_fields_outcome_len(rules, cols, fields, 0, seed);
    let fs = fields_outcome(rules, cols, fields, 0, seed)->Ok_0;
    if forall|i: int| 0 <= i < fs.len() ==> lacks(#[trigger] fs[i], TAB) {
        lemma_split_join(fs, TAB);
    }
}

/// A `\N` field under a bound rule is handed to the rule as the two
/// characters `\N`; where the rule keeps the value, `\N` stays.
pub proof fn lemma_null_marker_to_rule(rules: Seq<ColumnRule>, col: Seq<char>, seed: u64)
    requires
        rule_for_spec(rules, col) is Some,
    ensures
        ({
            let i = rule_for_spec(rules, col)->Some_0;
            match rules[i].rule.outcome(col, "\\N"@, seed) {
                Ok(Some(v)) => field_outcome(rules, col, "\\N"@, seed) == Ok::<
                    Seq<char>,
                    (TransformErrorKind, Seq<char>),
                >(v),
                Ok(None) => field_outcome(rules, col, "\\N"@, seed) == Ok::<
                    Seq<char>,
                    (TransformErrorKind, Seq<char>),
                >("\\N"@),
                Err(e) => field_outcome(rules, col, "\\N"@, seed) == Err::<
                    Seq<char>,
                    (TransformErrorKind, Seq<char>),
                >(e),
            }
        }),
{
}

} // verus!
