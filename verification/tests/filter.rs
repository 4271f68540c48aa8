use dblint::filter::{
    compile, item_to_sql, quote_text, serialize_name, value_to_sql, Error, FilterField,
    FilterItem, FilterList, FilterValue, WhereClause,
};

fn field(name: &str, value: FilterValue) -> FilterField {
    FilterField { name: name.to_string(), value }
}

#[test]
fn config() {
    let f = WhereClause {
        fields: vec![field("limit", FilterValue::Int(10))],
        only: Some(FilterList {
            items: vec![
                FilterItem {
                    fields: vec![
                        field("namespace", FilterValue::Text("public".to_string())),
                        field("table_name", FilterValue::Absent),
                        field("column_names", FilterValue::Absent),
                    ],
                },
                FilterItem {
                    fields: vec![
                        field("namespace", FilterValue::Absent),
                        field("table_name", FilterValue::Text("users".to_string())),
                        field("column_names", FilterValue::Absent),
                    ],
                },
            ],
        }),
        except: Some(FilterList {
            items: vec![FilterItem {
                fields: vec![
                    field("namespace", FilterValue::Absent),
                    field("table_name", FilterValue::Text("messages".to_string())),
                    field(
                        "column_names",
                        FilterValue::Sequence(vec![FilterValue::Text("user_id".to_string())]),
                    ),
                ],
            }],
        }),
    };

    let sql = String::from(
        " WHERE limit = 10 \
          AND (namespace = 'public' OR table_name = 'users') \
          AND NOT (table_name = 'messages' AND column_names = ARRAY['user_id'])",
    );

    assert_eq!(sql, compile(&f).unwrap());
}

#[test]
fn name_serialization() {
    // A word-character name passes through unchanged; anything else is
    // double quoted; empty names and names holding a quote are refused.
    assert_eq!(serialize_name("users_2").unwrap(), "users_2");
    assert_eq!(serialize_name("two words").unwrap(), "\"two words\"");
    assert_eq!(serialize_name("café").unwrap(), "\"café\"");
    assert!(matches!(serialize_name(""), Err(Error::Name(_))));
    assert!(matches!(serialize_name("a\"b"), Err(Error::Name(_))));
}

#[test]
fn text_quoting() {
    // No single quote: plain quotes.  A single quote: dollar quotes.  Both:
    // the first numbered delimiter not contained in the text.
    assert_eq!(quote_text("public"), "'public'");
    assert_eq!(quote_text("it's"), "$$it's$$");
    assert_eq!(quote_text("it's $$"), "$0$it's $$$0$");
    assert_eq!(quote_text("it's $$ $0$"), "$1$it's $$ $0$$1$");
    assert_eq!(quote_text(""), "''");
}

#[test]
fn value_serialization() {
    assert_eq!(value_to_sql(&FilterValue::Bool(true)).unwrap(), "TRUE");
    assert_eq!(value_to_sql(&FilterValue::Bool(false)).unwrap(), "FALSE");
    assert_eq!(value_to_sql(&FilterValue::Int(-42)).unwrap(), "-42");
    assert_eq!(
        value_to_sql(&FilterValue::Int(i64::MIN)).unwrap(),
        "-9223372036854775808"
    );
    assert_eq!(
        value_to_sql(&FilterValue::Uint(u64::MAX)).unwrap(),
        "18446744073709551615"
    );
    assert_eq!(value_to_sql(&FilterValue::Char('x')).unwrap(), "'x'");
    assert_eq!(value_to_sql(&FilterValue::Absent).unwrap(), "");
    assert_eq!(
        value_to_sql(&FilterValue::Number("-12.5".to_string())).unwrap(),
        "-12.5"
    );
    assert!(matches!(
        value_to_sql(&FilterValue::Number("1.2.3".to_string())),
        Err(Error::Value(_))
    ));
    assert!(matches!(
        value_to_sql(&FilterValue::Number("DROP TABLE".to_string())),
        Err(Error::Value(_))
    ));
    assert!(matches!(
        value_to_sql(&FilterValue::Bytes(vec![1, 2])),
        Err(Error::Value(_))
    ));
}

#[test]
fn sequence_serialization() {
    let v = FilterValue::Sequence(vec![
        FilterValue::Int(1),
        FilterValue::Sequence(vec![FilterValue::Int(2), FilterValue::Int(3)]),
    ]);
    assert_eq!(value_to_sql(&v).unwrap(), "ARRAY[1,ARRAY[2,3]]");

    // An absent element writes nothing, but a comma is still written when
    // the text no longer ends with the opening bracket.
    let v = FilterValue::Sequence(vec![
        FilterValue::Absent,
        FilterValue::Int(1),
        FilterValue::Absent,
        FilterValue::Int(2),
    ]);
    assert_eq!(value_to_sql(&v).unwrap(), "ARRAY[1,,2]");

    let v = FilterValue::Sequence(vec![FilterValue::Bytes(vec![0])]);
    assert!(matches!(value_to_sql(&v), Err(Error::Value(_))));
}

#[test]
fn absent_item_compiles_to_nothing() {
    let item = FilterItem {
        fields: vec![
            field("namespace", FilterValue::Absent),
            field("table_name", FilterValue::Absent),
        ],
    };
    assert_eq!(item_to_sql(&item).unwrap(), "");

    // An item whose every field is absent disappears from its list.
    let clause = WhereClause {
        fields: vec![],
        only: Some(FilterList { items: vec![item] }),
        except: None,
    };
    assert_eq!(compile(&clause).unwrap(), "");
}

#[test]
fn empty_clause_compiles_to_empty_string() {
    assert_eq!(compile(&WhereClause::default()).unwrap(), "");
}

#[test]
fn item_joins_with_and() {
    let item = FilterItem {
        fields: vec![
            field("a", FilterValue::Int(1)),
            field("b", FilterValue::Absent),
            field("c", FilterValue::Text("x".to_string())),
        ],
    };
    assert_eq!(item_to_sql(&item).unwrap(), "a = 1 AND c = 'x'");
}

#[test]
fn nested_structure_errors() {
    // A nested structure in item position is a filter error; in plain value
    // position it is a value error.
    let nested = FilterValue::Nested(vec![field("x", FilterValue::Int(1))]);
    let item = FilterItem {
        fields: vec![field("a", nested)],
    };
    assert!(matches!(item_to_sql(&item), Err(Error::Filter(_))));

    let nested = FilterValue::Nested(vec![field("x", FilterValue::Int(1))]);
    let clause = WhereClause {
        fields: vec![field("a", nested)],
        only: None,
        except: None,
    };
    assert!(matches!(compile(&clause), Err(Error::Value(_))));
}

#[test]
fn bad_name_in_item_is_skipped_when_value_absent() {
    // The value is serialized first: a field whose value is absent is
    // skipped before its name is ever looked at.
    let item = FilterItem {
        fields: vec![field("", FilterValue::Absent)],
    };
    assert_eq!(item_to_sql(&item).unwrap(), "");

    // With a present value the bad name is reported.
    let item = FilterItem {
        fields: vec![field("", FilterValue::Int(1))],
    };
    assert!(matches!(item_to_sql(&item), Err(Error::Name(_))));
}

#[test]
fn single_only_item_is_unwrapped() {
    let clause = WhereClause {
        fields: vec![],
        only: Some(FilterList {
            items: vec![FilterItem {
                fields: vec![field("a", FilterValue::Int(1))],
            }],
        }),
        except: None,
    };
    assert_eq!(compile(&clause).unwrap(), " WHERE a = 1");
}

#[test]
fn except_without_and_is_not_wrapped() {
    let clause = WhereClause {
        fields: vec![],
        only: None,
        except: Some(FilterList {
            items: vec![FilterItem {
                fields: vec![field("a", FilterValue::Int(1))],
            }],
        }),
    };
    assert_eq!(compile(&clause).unwrap(), " WHERE NOT a = 1");
}

#[test]
fn except_or_group_keeps_its_own_parens() {
    let clause = WhereClause {
        fields: vec![],
        only: None,
        except: Some(FilterList {
            items: vec![
                FilterItem {
                    fields: vec![field("a", FilterValue::Int(1))],
                },
                FilterItem {
                    fields: vec![field("b", FilterValue::Int(2))],
                },
            ],
        }),
    };
    assert_eq!(compile(&clause).unwrap(), " WHERE NOT (a = 1 OR b = 2)");
}

#[test]
fn error_descriptions() {
    let err = serialize_name("").unwrap_err();
    let text = err.describe();
    assert!(text.contains("column name"));

    let err = value_to_sql(&FilterValue::Bytes(vec![])).unwrap_err();
    assert!(err.describe().contains("column value"));
}

#[test]
fn bad_root_name_is_reported_even_when_value_absent() {
    // At the root the name is serialized before the value, so a bad name
    // is reported even for a field that would have been skipped.
    let clause = WhereClause {
        fields: vec![field("", FilterValue::Absent)],
        only: None,
        except: None,
    };
    assert!(matches!(compile(&clause), Err(Error::Name(_))));
}
