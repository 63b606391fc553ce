use pg_datanymizer::{sort_tables, table_args, Filter, PgTable, TableList};

#[test]
fn test_table_args() {
    let tables = vec![String::from("table1"), String::from("table2")];

    let empty: Vec<String> = vec![];
    assert_eq!(table_args(&None).unwrap(), empty);

    let mut filter = Filter::new(
        TableList::Except(vec![String::from("table1")]),
        TableList::default(),
    );
    filter.load_tables(tables.clone());
    assert_eq!(
        table_args(&Some(filter)).unwrap(),
        vec![String::from("-T"), String::from("\"table1\"")]
    );

    let mut filter = Filter::new(
        TableList::default(),
        TableList::Except(vec![String::from("table1")]),
    );
    filter.load_tables(tables.clone());
    assert_eq!(table_args(&Some(filter)).unwrap(), empty);

    let mut filter = Filter::new(
        TableList::Only(vec![String::from("table1"), String::from("table2")]),
        TableList::default(),
    );
    filter.load_tables(tables.clone());
    assert_eq!(
        table_args(&Some(filter)).unwrap(),
        vec![
            String::from("-t"),
            String::from("\"table1\""),
            String::from("-t"),
            String::from("\"table2\"")
        ]
    );

    let mut filter = Filter::new(
        TableList::Only(vec![String::from("table*")]),
        TableList::default(),
    );
    filter.load_tables(tables);
    assert_eq!(
        table_args(&Some(filter)).unwrap(),
        vec![
            String::from("-t"),
            String::from("\"table1\""),
            String::from("-t"),
            String::from("\"table2\"")
        ]
    );
}

#[test]
fn test_sort_tables() {
    let order = vec!["table2".to_string(), "public.table1".to_string()];

    let mut tables = vec![
        (PgTable::new("table1".to_string(), "public".to_string()), 0),
        (PgTable::new("table2".to_string(), "public".to_string()), 1),
        (PgTable::new("table3".to_string(), "public".to_string()), 2),
        (PgTable::new("table4".to_string(), "public".to_string()), 3),
        (PgTable::new("table1".to_string(), "other".to_string()), 4),
        (PgTable::new("table2".to_string(), "other".to_string()), 5),
    ];

    sort_tables(&mut tables, &order);

    let ordered_names: Vec<_> = tables
        .iter()
        .map(|(t, w)| (t.get_full_name(), *w))
        .collect();
    assert_eq!(
        ordered_names,
        vec![
            ("other.table1".to_string(), 4),
            ("public.table4".to_string(), 3),
            ("public.table3".to_string(), 2),
            ("other.table2".to_string(), 5),
            ("public.table2".to_string(), 1),
            ("public.table1".to_string(), 0),
        ]
    )
}

#[test]
fn quote_schema_qualified_name() {
    assert_eq!(
        PgTable::quote_table_name("public.actor").unwrap(),
        "\"public\".\"actor\"".to_string()
    );
}

#[test]
fn quote_name_with_two_dots_fails() {
    let e = PgTable::quote_table_name("a.b.c").unwrap_err();
    assert_eq!(e.name, "a.b.c".to_string());
}

#[test]
fn wildcard_in_the_middle_matches() {
    let mut filter = Filter::new(
        TableList::Only(vec![String::from("t*2")]),
        TableList::default(),
    );
    filter.load_tables(vec![
        String::from("table1"),
        String::from("table2"),
        String::from("t2"),
    ]);
    assert_eq!(
        filter.schema_match_list().tables().clone(),
        vec![String::from("table2"), String::from("t2")]
    );
}

#[test]
fn full_and_short_names() {
    let t = PgTable::new("actor".to_string(), "public".to_string());
    assert_eq!(t.get_full_name(), "public.actor".to_string());
    assert_eq!(
        t.get_names(),
        vec!["public.actor".to_string(), "actor".to_string()]
    );
}
