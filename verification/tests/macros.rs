use dblint::attrs::{AttrToken, Attrs, Client, Flag};
use dblint::definition::{squash_whitespace, Definition};
use dblint::field::{Field, FieldAttr, FieldDecl, Item, ItemDecl, Kind, TyShape};

fn entry(key: &str, token: AttrToken) -> (String, AttrToken) {
    (key.to_string(), token)
}

fn quoted(text: &str) -> AttrToken {
    AttrToken::Str(text.to_string())
}

#[test]
fn attrs_default() {
    let attrs = Attrs::parse(&vec![]).unwrap();

    assert_eq!(attrs.client(), "PostgresClient");
    assert_eq!(attrs.migration(), true);
    assert_eq!(attrs.rollback(), true);
}

#[test]
fn postgres_without_rollback() {
    let input = vec![
        entry("client", quoted("postgres")),
        entry("rollback", AttrToken::Bool(false)),
    ];
    let attrs = Attrs::parse(&input).unwrap();

    assert_eq!(attrs.client(), "PostgresClient");
    assert_eq!(attrs.migration(), true);
    assert_eq!(attrs.rollback(), false);
}

#[test]
fn postgres_without_migration() {
    let input = vec![
        entry("client", quoted("postgres")),
        entry("migration", AttrToken::Bool(false)),
    ];
    let attrs = Attrs::parse(&input).unwrap();

    assert_eq!(attrs.client(), "PostgresClient");
    assert_eq!(attrs.migration(), false);
    assert_eq!(attrs.rollback(), false);
}

#[test]
fn attrs_unknown_attribute() {
    let input = vec![entry("foo", quoted("bar"))];
    assert!(Attrs::parse(&input).is_err());
}

#[test]
fn non_boolean_migration() {
    let input = vec![entry("migration", quoted("bar"))];
    assert!(Attrs::parse(&input).is_err());
}

#[test]
fn non_postgres_client() {
    let input = vec![entry("client", quoted("mysql"))];
    assert!(Attrs::parse(&input).is_err());
}

#[test]
fn client_default() {
    let client: &str = Client::default().name();

    assert_eq!(client, "PostgresClient");
}

#[test]
fn postgres() {
    let client = Client::parse(&quoted("postgres")).unwrap();

    assert_eq!(client.name(), "PostgresClient");
}

#[test]
fn unquoted_postgres() {
    let client = Client::parse(&AttrToken::Ident("postgres".to_string())).unwrap();

    assert_eq!(client.name(), "PostgresClient");
}

#[test]
fn client_unknown() {
    assert!(Client::parse(&quoted("unknown")).is_err());
}

#[test]
fn flag_default() {
    let flag: bool = Flag::default().value();

    assert_eq!(flag, true);
}

#[test]
fn quoted_true() {
    let flag: bool = Flag::parse(&quoted("true")).unwrap().value();

    assert_eq!(flag, true);
}

#[test]
fn unquoted_true() {
    let flag: bool = Flag::parse(&AttrToken::Bool(true)).unwrap().value();

    assert_eq!(flag, true);
}

#[test]
fn quoted_false() {
    let flag: bool = Flag::parse(&quoted("false")).unwrap().value();

    assert_eq!(flag, false);
}

#[test]
fn unquoted_false() {
    let flag: bool = Flag::parse(&AttrToken::Bool(false)).unwrap().value();

    assert_eq!(flag, false);
}

#[test]
fn flag_unknown() {
    assert!(Flag::parse(&quoted("unknown")).is_err());
}

fn plain_field(name: &str, ty: &str) -> FieldDecl {
    FieldDecl {
        attrs: vec![],
        name: Some(name.to_string()),
        ty: TyShape::Path {
            text: ty.to_string(),
            first_is_option: ty.starts_with("Option"),
        },
    }
}

fn tagged_field(tag: &str, desc: &str, name: &str, ty: &str) -> FieldDecl {
    FieldDecl {
        attrs: vec![FieldAttr {
            path_ident: Some(tag.to_string()),
            str_arg: Some(desc.to_string()),
        }],
        name: Some(name.to_string()),
        ty: TyShape::Path {
            text: ty.to_string(),
            first_is_option: ty.starts_with("Option"),
        },
    }
}

#[test]
fn plain() {
    let input = plain_field("name", "String");
    let output = Field::from_decl(&input).unwrap();

    assert!(matches!(output.kind, Kind::Plain));
    assert_eq!(output.name, "name");
    assert_eq!(output.optional_ty, "Option < String >");
    assert_eq!(output.ty, "String");
}

#[test]
fn optional() {
    let input = plain_field("name", "Option < String >");
    let output = Field::from_decl(&input).unwrap();

    assert!(matches!(output.kind, Kind::Plain));
    assert_eq!(output.name, "name");
    assert_eq!(output.optional_ty, "Option < String >");
    assert_eq!(output.ty, "Option < String >");
}

#[test]
fn valid_filter() {
    let input = tagged_field("filter", "name description", "name", "String");
    let output = Field::from_decl(&input).unwrap();

    assert!(matches!(output.kind, Kind::Filter(ref d) if d == "name description"));
    assert_eq!(output.name, "name");
    assert_eq!(output.optional_ty, "Option < String >");
    assert_eq!(output.ty, "String");
}

#[test]
fn valid_limit() {
    let input = tagged_field("limit", "name description", "name", "String");
    let output = Field::from_decl(&input).unwrap();

    assert!(matches!(output.kind, Kind::Limit(ref d) if d == "name description"));
    assert_eq!(output.name, "name");
    assert_eq!(output.optional_ty, "Option < String >");
    assert_eq!(output.ty, "String");
}

#[test]
fn limit_without_description() {
    let mut input = plain_field("name", "String");
    input.attrs = vec![FieldAttr {
        path_ident: Some("limit".to_string()),
        str_arg: None,
    }];
    assert!(Field::from_decl(&input).is_err());
}

#[test]
fn double_filter() {
    let mut input = plain_field("name", "String");
    input.attrs = vec![
        FieldAttr {
            path_ident: Some("filter".to_string()),
            str_arg: Some("name description".to_string()),
        },
        FieldAttr {
            path_ident: Some("filter".to_string()),
            str_arg: Some("another description".to_string()),
        },
    ];
    assert!(Field::from_decl(&input).is_err());
}

#[test]
fn field_unknown_attribute() {
    let mut input = plain_field("name", "String");
    input.attrs = vec![FieldAttr {
        path_ident: Some("foo".to_string()),
        str_arg: None,
    }];
    assert!(Field::from_decl(&input).is_err());
}

fn test_item_decl() -> ItemDecl {
    ItemDecl {
        is_struct: true,
        name: "Test".to_string(),
        fields: vec![
            tagged_field("filter", "Table name", "table_name", "String"),
            plain_field("column_name", "String"),
            tagged_field("limit", "Max size of the column", "max_size", "i32"),
        ],
    }
}

#[test]
fn valid_item() {
    let input = ItemDecl {
        is_struct: true,
        name: "Foo".to_string(),
        fields: vec![
            tagged_field("limit", "the a message", "a", "i32"),
            tagged_field("filter", "the b message", "b", "String"),
            tagged_field("filter", "the c message", "c", "Option < String >"),
            plain_field("d", "bool"),
        ],
    };
    let output = Item::parse(&input).unwrap();

    assert_eq!(output.name, "Foo");
}

#[test]
fn not_a_struct() {
    let input = ItemDecl {
        is_struct: false,
        name: "Foo".to_string(),
        fields: vec![],
    };
    assert!(Item::parse(&input).is_err());
}

fn assemble(attr_entries: Vec<(String, AttrToken)>) -> Definition {
    let attrs = Attrs::parse(&attr_entries).unwrap();
    let item = Item::parse(&test_item_decl()).unwrap();
    Definition::assemble(
        &attrs,
        &item,
        "./message.txt".to_string(),
        "./query.sql".to_string(),
        "./migration.sql".to_string(),
        "./rollback.sql".to_string(),
    )
}

fn check_test_metadata(def: &Definition) {
    assert_eq!(def.client, "PostgresClient");
    assert_eq!(def.name, "Test");
    assert_eq!(def.message, "./message.txt");
    assert_eq!(def.query, "./query.sql");

    assert_eq!(def.fields.len(), 3);
    assert_eq!(def.fields[0].name, "table_name");
    assert_eq!(def.fields[0].ty, "String");
    assert_eq!(def.fields[1].name, "column_name");
    assert_eq!(def.fields[1].ty, "String");
    assert_eq!(def.fields[2].name, "max_size");
    assert_eq!(def.fields[2].ty, "i32");

    assert_eq!(def.filters.len(), 1);
    assert_eq!(def.filters[0].name, "table_name");
    assert_eq!(def.filters[0].ty, "Option < String >");
    assert_eq!(def.filters[0].desc, "Table name");

    assert_eq!(def.limits.len(), 1);
    assert_eq!(def.limits[0].name, "max_size");
    assert_eq!(def.limits[0].ty, "i32");
    assert_eq!(def.limits[0].desc, "Max size of the column");
}

#[test]
fn expand_default() {
    let def = assemble(vec![]);
    check_test_metadata(&def);
    assert_eq!(def.migration.as_deref(), Some("./migration.sql"));
    assert_eq!(def.rollback.as_deref(), Some("./rollback.sql"));
}

#[test]
fn without_rollback() {
    let def = assemble(vec![("rollback".to_string(), AttrToken::Bool(false))]);
    check_test_metadata(&def);
    assert_eq!(def.migration.as_deref(), Some("./migration.sql"));
    assert_eq!(def.rollback, None);
}

#[test]
fn without_migration() {
    let def = assemble(vec![("migration".to_string(), AttrToken::Bool(false))]);
    check_test_metadata(&def);
    assert_eq!(def.migration, None);
    assert_eq!(def.rollback, None);
}

#[test]
fn filter_without_description() {
    let mut input = plain_field("name", "String");
    input.attrs = vec![FieldAttr {
        path_ident: Some("filter".to_string()),
        str_arg: None,
    }];
    assert!(Field::from_decl(&input).is_err());
}

#[test]
fn double_limit() {
    let mut input = plain_field("name", "String");
    input.attrs = vec![
        FieldAttr {
            path_ident: Some("limit".to_string()),
            str_arg: Some("name description".to_string()),
        },
        FieldAttr {
            path_ident: Some("limit".to_string()),
            str_arg: Some("another description".to_string()),
        },
    ];
    assert!(Field::from_decl(&input).is_err());
}

#[test]
fn filter_and_limit() {
    let mut input = plain_field("name", "String");
    input.attrs = vec![
        FieldAttr {
            path_ident: Some("filter".to_string()),
            str_arg: Some("name description".to_string()),
        },
        FieldAttr {
            path_ident: Some("limit".to_string()),
            str_arg: Some("another description".to_string()),
        },
    ];
    assert!(Field::from_decl(&input).is_err());
}

#[test]
fn squash_template_text() {
    assert_eq!(
        squash_whitespace("  SELECT a\n    FROM t\n  "),
        "SELECT a FROM t"
    );
    assert_eq!(squash_whitespace("\n\t \n"), "");
    assert_eq!(squash_whitespace("one"), "one");
}
