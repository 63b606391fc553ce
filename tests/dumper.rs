use pg_datanymizer::lines::parse_column_decl;
use pg_datanymizer::{
    ColumnRule, DumpError, DumpErrorKind, Engine, ScalarRule, Settings, SilentIndicator,
    SqlTextConnection, SqlTextDumper, TableBuilder, TableConfig, TransformErrorKind, Transformers,
};
use pg_datanymizer::row::RowError;

fn engine_with(table: &str, column: &str, rule: ScalarRule) -> Engine {
    Engine::new(Settings::new(vec![TableConfig {
        name: table.to_string(),
        rules: vec![ColumnRule {
            column: column.to_string(),
            rule: Transformers::Scalar(rule),
        }],
    }]))
}

fn actor_engine() -> Engine {
    engine_with(
        "public.actor",
        "first_name",
        ScalarRule::Template {
            format: "X".to_string(),
        },
    )
}

fn lines(input: &[&str]) -> Vec<String> {
    input.iter().map(|s| s.to_string()).collect()
}

fn run(engine: Engine, input: &[&str]) -> Result<Vec<String>, DumpError> {
    let mut d = SqlTextDumper::new(engine, SilentIndicator);
    let conn = SqlTextConnection::new(lines(input));
    d.dump(&conn)?;
    Ok(d.take_output())
}

fn banner() -> Vec<String> {
    lines(&["---", "--- pg_datanymizer anonymized database dump", "---"])
}

const DDL: [&str; 4] = [
    "CREATE TABLE public.actor (",
    "    actor_id integer NOT NULL,",
    "    first_name text NOT NULL",
    ");",
];

#[test]
fn anonymizes_configured_column() {
    let mut input: Vec<&str> = DDL.to_vec();
    input.extend_from_slice(&[
        "COPY public.actor (actor_id, first_name) FROM STDIN;",
        "1\tAlice",
        "2\tBob",
        "\\.",
    ]);
    let out = run(actor_engine(), &input).unwrap();
    let mut expected = banner();
    expected.extend(lines(&DDL));
    expected.extend(lines(&[
        "---",
        "--- pg_datanymizer: ANON TABLE; Name: actor; Schema: public",
        "---",
        "COPY public.actor (actor_id, first_name) FROM STDIN;",
        "1\tX",
        "2\tX",
        "\\.",
    ]));
    assert_eq!(out, expected);
}

#[test]
fn copy_columns_in_other_order_fail() {
    let mut input: Vec<&str> = DDL.to_vec();
    input.extend_from_slice(&[
        "COPY public.actor (first_name, actor_id) FROM STDIN;",
        "Alice\t1",
        "\\.",
    ]);
    let e = run(actor_engine(), &input).unwrap_err();
    assert_eq!(e.line, 5);
    match e.kind {
        DumpErrorKind::ColumnsMismatch {
            create_table,
            copy_into,
        } => {
            assert_eq!(create_table, lines(&["actor_id", "first_name"]));
            assert_eq!(copy_into, lines(&["first_name", "actor_id"]));
        }
        other => panic!("unexpected error {:?}", other),
    }
}

#[test]
fn unconfigured_table_passes_through() {
    let input = [
        "CREATE TABLE public.other (",
        "    id integer NOT NULL",
        ");",
        "COPY public.other (id) FROM STDIN;",
        "1\tfoo",
        "\\.",
    ];
    let out = run(actor_engine(), &input).unwrap();
    let mut expected = banner();
    expected.extend(lines(&input));
    assert_eq!(out, expected);
}

#[test]
fn row_with_too_many_fields_fails() {
    let mut input: Vec<&str> = DDL.to_vec();
    input.extend_from_slice(&[
        "COPY public.actor (actor_id, first_name) FROM STDIN;",
        "1\tAlice\textra",
        "\\.",
    ]);
    let e = run(actor_engine(), &input).unwrap_err();
    assert_eq!(e.line, 6);
    assert!(matches!(
        e.kind,
        DumpErrorKind::Row(RowError::FieldCount {
            expected: 2,
            found: 3
        })
    ));
}

#[test]
fn empty_data_block_writes_only_annotation() {
    let mut input: Vec<&str> = DDL.to_vec();
    input.extend_from_slice(&["COPY public.actor (actor_id, first_name) FROM STDIN;", "\\."]);
    let out = run(actor_engine(), &input).unwrap();
    let mut expected = banner();
    expected.extend(lines(&DDL));
    expected.extend(lines(&[
        "---",
        "--- pg_datanymizer: ANON TABLE; Name: actor; Schema: public",
        "---",
        "COPY public.actor (actor_id, first_name) FROM STDIN;",
        "\\.",
    ]));
    assert_eq!(out, expected);
}

#[test]
fn null_marker_is_given_to_the_rule() {
    let engine = engine_with(
        "actor",
        "first_name",
        ScalarRule::Template {
            format: "[{{_0}}]".to_string(),
        },
    );
    let mut input: Vec<&str> = DDL.to_vec();
    input.extend_from_slice(&[
        "COPY public.actor (actor_id, first_name) FROM STDIN;",
        "1\t\\N",
        "\\.",
    ]);
    let out = run(engine, &input).unwrap();
    assert_eq!(out[out.len() - 2], "1\t[\\N]".to_string());
}

#[test]
fn empty_configuration_changes_no_line() {
    let mut input: Vec<&str> = DDL.to_vec();
    input.extend_from_slice(&[
        "COPY public.actor (actor_id, first_name) FROM STDIN;",
        "1\tAlice",
        "\\.",
        "-- trailing comment",
    ]);
    let mut d = SqlTextDumper::new(Engine::new(Settings::new(vec![])), SilentIndicator);
    d.dump_stream(&lines(&input)).unwrap();
    let first = d.take_output();
    assert_eq!(first, lines(&input));
    let mut again = SqlTextDumper::new(Engine::new(Settings::new(vec![])), SilentIndicator);
    again.dump_stream(&first).unwrap();
    assert_eq!(again.take_output(), first);
}

#[test]
fn column_declaration_drops_trailing_comma() {
    let line: Vec<char> = "    price numeric(10,2),".chars().collect();
    let (name, ty) = parse_column_decl(&line).unwrap();
    assert_eq!(name.iter().collect::<String>(), "price");
    assert_eq!(ty.iter().collect::<String>(), "numeric(10,2)");
}

#[test]
fn constraint_line_is_not_a_column() {
    let line: Vec<char> = "    CONSTRAINT actor_pkey PRIMARY KEY (actor_id)".chars().collect();
    assert!(parse_column_decl(&line).is_none());
}

#[test]
fn columns_get_consecutive_positions() {
    let mut b = TableBuilder::begin("public".to_string(), "actor".to_string());
    b.push_column("actor_id".to_string(), "integer NOT NULL".to_string())
        .unwrap();
    b.push_column("first_name".to_string(), "text".to_string())
        .unwrap();
    let dup = b.push_column("actor_id".to_string(), "text".to_string());
    assert_eq!(dup.unwrap_err().column, "actor_id".to_string());
    let t = b.seal();
    let cols = t.get_columns();
    assert_eq!(cols.len(), 2);
    assert_eq!(cols[0].position, 0);
    assert_eq!(cols[1].position, 1);
    assert_eq!(cols[0].data_type, "integer NOT NULL".to_string());
    assert_eq!(t.get_columns_names(), lines(&["actor_id", "first_name"]));
}

#[test]
fn duplicate_column_in_definition_fails() {
    let input = [
        "CREATE TABLE public.actor (",
        "    actor_id integer,",
        "    actor_id text",
        ");",
    ];
    let e = run(actor_engine(), &input).unwrap_err();
    assert_eq!(e.line, 3);
    match e.kind {
        DumpErrorKind::DuplicateColumn { column } => assert_eq!(column, "actor_id".to_string()),
        other => panic!("unexpected error {:?}", other),
    }
}

#[test]
fn rule_for_missing_column_fails() {
    let engine = engine_with(
        "public.actor",
        "last_name",
        ScalarRule::Template {
            format: "X".to_string(),
        },
    );
    let mut input: Vec<&str> = DDL.to_vec();
    input.extend_from_slice(&[
        "COPY public.actor (actor_id, first_name) FROM STDIN;",
        "1\tAlice",
        "\\.",
    ]);
    let e = run(engine, &input).unwrap_err();
    match e.kind {
        DumpErrorKind::Row(RowError::UnknownColumn { column }) => {
            assert_eq!(column, "last_name".to_string())
        }
        other => panic!("unexpected error {:?}", other),
    }
}

#[test]
fn failing_rule_stops_the_run() {
    let engine = engine_with(
        "public.actor",
        "first_name",
        ScalarRule::Choice { values: vec![] },
    );
    let mut input: Vec<&str> = DDL.to_vec();
    input.extend_from_slice(&[
        "COPY public.actor (actor_id, first_name) FROM STDIN;",
        "1\tAlice",
        "\\.",
    ]);
    let e = run(engine, &input).unwrap_err();
    match e.kind {
        DumpErrorKind::Row(RowError::Transform { column, error }) => {
            assert_eq!(column, "first_name".to_string());
            assert_eq!(error.kind, TransformErrorKind::EmptyChoice);
            assert_eq!(error.field_value, "Alice".to_string());
        }
        other => panic!("unexpected error {:?}", other),
    }
}

#[test]
fn second_definition_of_a_table_is_ignored() {
    let mut input: Vec<&str> = DDL.to_vec();
    input.extend_from_slice(&[
        "CREATE TABLE public.actor (",
        "    only_column text",
        ");",
        "COPY public.actor (actor_id, first_name) FROM STDIN;",
        "7\tZed",
        "\\.",
    ]);
    let out = run(actor_engine(), &input).unwrap();
    assert_eq!(out[out.len() - 2], "7\tX".to_string());
}

#[test]
fn quoted_identifiers_are_unquoted() {
    let input = [
        "CREATE TABLE \"public\".\"actor\" (",
        "    \"actor_id\" integer NOT NULL,",
        "    first_name text NOT NULL",
        ");",
        "COPY public.actor (\"actor_id\", first_name) FROM STDIN;",
        "1\tAlice",
        "\\.",
    ];
    let out = run(actor_engine(), &input).unwrap();
    assert_eq!(out[out.len() - 2], "1\tX".to_string());
}

#[test]
fn failure_keeps_lines_written_before_it() {
    let mut input: Vec<&str> = DDL.to_vec();
    input.extend_from_slice(&[
        "COPY public.actor (actor_id, first_name) FROM STDIN;",
        "1\tAlice",
        "2\tBob\textra",
        "3\tCarol",
        "\\.",
    ]);
    let mut d = SqlTextDumper::new(actor_engine(), SilentIndicator);
    let e = d.dump(&SqlTextConnection::new(lines(&input))).unwrap_err();
    assert_eq!(e.line, 7);
    let mut expected = banner();
    expected.extend(lines(&DDL));
    expected.extend(lines(&[
        "---",
        "--- pg_datanymizer: ANON TABLE; Name: actor; Schema: public",
        "---",
        "COPY public.actor (actor_id, first_name) FROM STDIN;",
        "1\tX",
    ]));
    assert_eq!(d.take_output(), expected);
}

#[test]
fn template_gets_the_column_name() {
    let engine = engine_with(
        "public.actor",
        "first_name",
        ScalarRule::Template {
            format: "{{_name}}".to_string(),
        },
    );
    let mut input: Vec<&str> = DDL.to_vec();
    input.extend_from_slice(&[
        "COPY public.actor (actor_id, first_name) FROM STDIN;",
        "1\tAlice",
        "\\.",
    ]);
    let out = run(engine, &input).unwrap();
    assert_eq!(out[out.len() - 2], "1\tfirst_name".to_string());
}
