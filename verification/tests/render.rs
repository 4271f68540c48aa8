use dblint::definition::{Definition, Field, TaggedField};
use dblint::error::Error;
use dblint::filter::{FilterField, FilterItem, FilterList, FilterValue, WhereClause};
use dblint::inspector::{build_query, normalize_query};
use dblint::problem::Problem;
use dblint::registry::Registry;

fn column_limit_definition() -> Definition {
    Definition {
        client: "PostgresClient".to_string(),
        fields: vec![
            Field { name: "scope_name".to_string(), ty: "String".to_string() },
            Field { name: "table_name".to_string(), ty: "String".to_string() },
            Field { name: "column_name".to_string(), ty: "String".to_string() },
            Field { name: "limit".to_string(), ty: "i32".to_string() },
        ],
        filters: vec![
            TaggedField {
                name: "scope_name".to_string(),
                ty: "Option < String >".to_string(),
                desc: "The scope of the database table".to_string(),
            },
            TaggedField {
                name: "table_name".to_string(),
                ty: "Option < String >".to_string(),
                desc: "The name of the table".to_string(),
            },
        ],
        limits: vec![TaggedField {
            name: "limit".to_string(),
            ty: "i32".to_string(),
            desc: "The max number of chars allowed in the column".to_string(),
        }],
        message: "The column {{ scope_name }}.{{ table_name }} ({{ column_name }}) \
                  is not limited to {{ limit }} chars"
            .to_string(),
        migration: Some(
            "ALTER TABLE {{ scope_name }}.{{ table_name }} \
             ADD CONSTRAINT {{ table_name }}_{{ column_name }}_limit \
             CHECK (LENGTH({{ column_name }}) <= {{ limit }});"
                .to_string(),
        ),
        name: "ColumnLimitMissed".to_string(),
        query: "SELECT * FROM table WHERE limit = {{ limit }};".to_string(),
        rollback: Some(
            "ALTER TABLE {{ scope_name }}.{{ table_name }} \
             DROP CONSTRAINT {{ table_name }}_{{ column_name }}_limit;"
                .to_string(),
        ),
    }
}

fn row_values() -> Vec<(String, String)> {
    vec![
        ("scope_name".to_string(), "public".to_string()),
        ("table_name".to_string(), "users".to_string()),
        ("column_name".to_string(), "email".to_string()),
        ("limit".to_string(), "40".to_string()),
    ]
}

#[test]
fn test_problem() {
    let def = column_limit_definition();
    let problem = Problem::render(&def, &row_values()).unwrap();

    assert_eq!(problem.kind(), "ColumnLimitMissed");
    assert_eq!(
        problem.message().unwrap(),
        "The column public.users (email) is not limited to 40 chars"
    );
    assert_eq!(
        problem.migration().unwrap().unwrap(),
        "ALTER TABLE public.users ADD CONSTRAINT users_email_limit CHECK (LENGTH(email) <= 40);"
    );
    assert_eq!(
        problem.rollback().unwrap().unwrap(),
        "ALTER TABLE public.users DROP CONSTRAINT users_email_limit;"
    );
}

#[test]
fn render_without_migration_template() {
    // Even with a rollback template present, a definition without a
    // migration template yields neither artifact.
    let mut def = column_limit_definition();
    def.migration = None;
    let problem = Problem::render(&def, &row_values()).unwrap();
    assert!(problem.migration().is_none());
    assert!(problem.rollback().is_none());
}

#[test]
fn render_failure_is_tagged() {
    let mut def = column_limit_definition();
    def.message = "{{ broken".to_string();
    match Problem::render(&def, &row_values()) {
        Err(Error::Template(tag, _)) => assert_eq!(tag, "message"),
        other => panic!("expected a tagged template error, got {:?}", other),
    }
}

#[test]
fn normalize_query_strips_semicolon() {
    assert_eq!(
        normalize_query("SELECT * FROM table WHERE limit = {{ limit }};"),
        "SELECT * FROM table WHERE limit = {{ limit }}"
    );
}

#[test]
fn normalize_query_collapses_newlines() {
    assert_eq!(normalize_query("SELECT a \n\n\n FROM t"), "SELECT a  FROM t");
}

#[test]
fn normalize_query_drops_leading_space() {
    assert_eq!(normalize_query(" SELECT a FROM t"), "SELECT a FROM t");
}

#[test]
fn query_composition() {
    let def = column_limit_definition();
    let vars = vec![("limit".to_string(), "40".to_string())];
    let config = WhereClause {
        fields: vec![],
        only: Some(FilterList {
            items: vec![FilterItem {
                fields: vec![FilterField {
                    name: "table_name".to_string(),
                    value: FilterValue::Text("users".to_string()),
                }],
            }],
        }),
        except: None,
    };
    let query = build_query(&def, &vars, &config).unwrap();
    assert_eq!(
        query,
        "SELECT * FROM table WHERE limit = 40 WHERE table_name = 'users';"
    );
}

#[test]
fn query_composition_without_filters() {
    let def = column_limit_definition();
    let vars = vec![("limit".to_string(), "10".to_string())];
    let config = WhereClause { fields: vec![], only: None, except: None };
    let query = build_query(&def, &vars, &config).unwrap();
    assert_eq!(query, "SELECT * FROM table WHERE limit = 10;");
}

#[test]
fn registry_lookup() {
    let mut registry = Registry::new();
    assert!(registry.insert(column_limit_definition()));
    assert_eq!(registry.len(), 1);

    // A second definition under the same kind name is refused.
    assert!(!registry.insert(column_limit_definition()));
    assert_eq!(registry.len(), 1);

    assert!(registry.lookup("ColumnLimitMissed").is_some());
    assert!(registry.lookup("Unknown").is_none());
}

#[test]
fn expand_problem() {
    // The two sample rules, assembled and registered: the column-limit rule
    // keeps all its templates, the primary-key rule drops migration and
    // rollback.
    let mut registry = Registry::new();
    assert!(registry.insert(column_limit_definition()));

    let pk = Definition {
        client: "PostgresClient".to_string(),
        fields: vec![
            Field { name: "scope_name".to_string(), ty: "String".to_string() },
            Field { name: "table_name".to_string(), ty: "String".to_string() },
        ],
        filters: vec![
            TaggedField {
                name: "scope_name".to_string(),
                ty: "Option < String >".to_string(),
                desc: "The scope of the database table".to_string(),
            },
            TaggedField {
                name: "table_name".to_string(),
                ty: "Option < String >".to_string(),
                desc: "The name of the table".to_string(),
            },
        ],
        limits: vec![],
        message: "Index {{ scope_name }}.{{ table_name }} is missed.".to_string(),
        migration: None,
        name: "TestPrimaryKeyMissed".to_string(),
        query: "SELECT 1;".to_string(),
        rollback: None,
    };
    assert!(registry.insert(pk));
    assert_eq!(registry.len(), 2);

    let d = registry.lookup("TestPrimaryKeyMissed").unwrap();
    assert_eq!(d.message, "Index {{ scope_name }}.{{ table_name }} is missed.");
    assert!(d.migration.is_none());
    assert!(d.rollback.is_none());
    assert_eq!(d.filters.len(), 2);
    assert_eq!(d.filters[0].desc, "The scope of the database table");
}
