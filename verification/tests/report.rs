use dblint::problem::Problem;
use dblint::report::Report;

fn item(
    kind: &str,
    message: &str,
    migration: Option<&str>,
    rollback: Option<&str>,
) -> Problem {
    Problem::new(
        kind.to_string(),
        message.to_string(),
        migration.map(|m| m.to_string()),
        rollback.map(|r| r.to_string()),
    )
}

#[test]
fn iter() {
    let mut report = Report::default();
    report.insert(item("foo", "some foo", None, None));
    report.insert(item("bar", "some bar", None, None));

    let mut iter = report.iter();
    assert_eq!(iter.next().unwrap().kind(), "foo".to_string());
    assert_eq!(iter.next().unwrap().kind(), "bar".to_string());
    assert!(iter.next().is_none());
}

#[test]
fn into_iter() {
    let mut report = Report::default();
    report.insert(item("foo", "some foo", None, None));
    report.insert(item("bar", "some bar", None, None));

    let mut iter = report.iter();
    assert_eq!(iter.next().unwrap().kind(), "foo".to_string());
    assert_eq!(iter.next().unwrap().kind(), "bar".to_string());
    assert!(iter.next().is_none());
}

#[test]
fn compact() {
    let mut report = Report::default();
    report.insert(item("foo", "some foo", None, None));
    report.insert(item("bar", "some bar", None, None));
    report.insert(item("foo", "some foo", None, None));

    let report = report.compact();

    let mut iter = report.iter();
    assert_eq!(iter.next().unwrap().kind(), "bar".to_string());
    assert_eq!(iter.next().unwrap().kind(), "foo".to_string());
    assert!(iter.next().is_none());
}

#[test]
fn insert() {
    let mut report = Report::default();
    report.insert(item("foo", "some foo", None, None));

    let new_item = item("bar", "some bar", None, None);

    report.insert(new_item);

    let mut iter = report.iter();
    assert_eq!(iter.next().unwrap().kind(), "foo".to_string());
    assert_eq!(iter.next().unwrap().kind(), "bar".to_string());
    assert!(iter.next().is_none());
}

#[test]
fn message() {
    let mut report = Report::default();
    report.insert(item("foo", "some foo", None, None));
    report.insert(item("bar", "some bar", None, None));

    assert_eq!(report.message().unwrap(), "some foo\nsome bar");
}

#[test]
fn migration() {
    let mut report = Report::default();
    report.insert(item("foo", "some foo", Some("foo migration"), Some("foo rollback")));
    report.insert(item("bar", "some bar", None, None));
    report.insert(item("baz", "some baz", Some("baz migration"), None));
    report.insert(item("qux", "some qux", Some("qux migration"), Some("qux rollback")));

    assert_eq!(
        report.migration().unwrap(),
        "foo migration\nbaz migration\nqux migration"
    );
}

#[test]
fn rollback() {
    let mut report = Report::default();
    report.insert(item("foo", "some foo", Some("foo migration"), Some("foo rollback")));
    report.insert(item("bar", "some bar", None, None));
    report.insert(item("baz", "some baz", Some("baz migration"), None));
    report.insert(item("qux", "some qux", Some("qux migration"), Some("qux rollback")));

    assert_eq!(report.rollback().unwrap(), "foo rollback\nqux rollback");
}

#[test]
fn counters() {
    let mut report = Report::default();
    report.insert(item("foo", "some foo", Some("foo migration"), Some("foo rollback")));
    report.insert(item("bar", "some bar", None, None));
    report.insert(item("baz", "some baz", Some("baz migration"), None));
    report.insert(item("qux", "some qux", Some("qux migration"), Some("qux rollback")));

    assert_eq!(report.is_empty(), false);
    assert_eq!(report.count(), 4);
    assert_eq!(report.count_migrations(), 3);
}

#[test]
fn compact_is_idempotent() {
    let mut report = Report::default();
    report.insert(item("foo", "some foo", None, None));
    report.insert(item("bar", "some bar", None, None));
    report.insert(item("foo", "some foo", None, None));
    report.insert(item("baz", "some baz", Some("baz migration"), None));

    let once = report.compact();
    let once_ids: Vec<String> = {
        let mut v = Vec::new();
        let mut it = once.iter();
        while let Some(p) = it.next() {
            v.push(p.id().unwrap());
        }
        v
    };
    let twice = once.compact();
    let twice_ids: Vec<String> = {
        let mut v = Vec::new();
        let mut it = twice.iter();
        while let Some(p) = it.next() {
            v.push(p.id().unwrap());
        }
        v
    };
    assert_eq!(once_ids, twice_ids);
}

#[test]
fn compact_dedups_by_identity() {
    let mut report = Report::default();
    report.insert(item("foo", "same text", None, None));
    report.insert(item("bar", "same text", None, None));
    report.insert(item("foo", "same text", None, None));

    let report = report.compact();
    assert_eq!(report.count(), 2);

    let mut iter = report.iter();
    let first = iter.next().unwrap();
    let second = iter.next().unwrap();
    assert_eq!(first.kind(), "bar");
    assert_eq!(second.kind(), "foo");
    assert!(first.id().unwrap() < second.id().unwrap());
    assert!(iter.next().is_none());
}

#[test]
fn rollback_needs_migration() {
    // A rollback text handed in without a migration is dropped by the
    // constructor, so the aggregate rollback script never includes it.
    let orphan = item("foo", "some foo", None, Some("foo rollback"));
    assert!(orphan.migration().is_none());
    assert!(orphan.rollback().is_none());

    let mut report = Report::default();
    report.insert(orphan);
    report.insert(item("bar", "some bar", Some("bar migration"), Some("bar rollback")));
    assert_eq!(report.rollback().unwrap(), "bar rollback");
}

#[test]
fn problem_identity_repeats_migration() {
    let p = item("k", "m", Some("mig"), Some("rb"));
    assert_eq!(p.id().unwrap(), "kmmigmig");
    let q = item("k", "m", None, None);
    assert_eq!(q.id().unwrap(), "km");
}

#[test]
fn empty_texts_are_skipped_in_joins() {
    // Only the non-empty texts are joined: an empty message, migration or
    // rollback contributes neither text nor separator.
    let mut report = Report::default();
    report.insert(item("foo", "", Some(""), Some("")));
    report.insert(item("bar", "some bar", Some("bar migration"), Some("bar rollback")));
    report.insert(item("baz", "", Some("baz migration"), Some("")));

    assert_eq!(report.message().unwrap(), "some bar");
    assert_eq!(report.migration().unwrap(), "bar migration\nbaz migration");
    assert_eq!(report.rollback().unwrap(), "bar rollback");

    // An empty migration text still counts as a present migration.
    assert_eq!(report.count_migrations(), 3);
}
