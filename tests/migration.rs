use migration_rs::collections::{Collection, Collections};
use migration_rs::error::MigrationError;
use migration_rs::migrate::{shards_to_visit, Failure, Migration, Outcome, Phase, Step};
use migration_rs::records::{Bso, User};
use migration_rs::spanner::Spanner;
use migration_rs::sql::{build_insert, SqlValue};
use migration_rs::text::parse_u16;

fn row(id: &str, name: &str) -> Vec<String> {
    vec![id.to_string(), name.to_string()]
}

fn spanner() -> Spanner {
    Spanner::new(
        &Some("spanner://projects/p/instances/i/databases/d".to_string()),
        &Some("mysql://u@localhost/db".to_string()),
    )
    .unwrap()
}

fn user() -> User {
    User { fxa_uid: "uid1".to_string(), fxa_kid: "kid1".to_string(), bso: 5 }
}

fn bso(col_name: &str, col_id: u16, id: &str, sort_index: Option<i32>) -> Bso {
    Bso {
        col_name: col_name.to_string(),
        col_id,
        bso_id: id.to_string(),
        expiry: 100,
        modify: 50,
        payload: "p".to_string(),
        sort_index,
    }
}

fn tuple_count(statement: &str) -> usize {
    let values = statement.split(" VALUES ").nth(1).unwrap();
    values.matches('(').count()
}

fn ids(c: &Collections) -> Vec<(String, u16)> {
    c.items().iter().map(|c| (c.name.clone(), c.collection)).collect()
}

#[test]
fn parses_decimal_ids() {
    assert_eq!(parse_u16("7"), Some(7));
    assert_eq!(parse_u16("+12"), Some(12));
    assert_eq!(parse_u16("007"), Some(7));
    assert_eq!(parse_u16("65535"), Some(65535));
    assert_eq!(parse_u16("65536"), None);
    assert_eq!(parse_u16("123456"), None);
    assert_eq!(parse_u16(""), None);
    assert_eq!(parse_u16("+"), None);
    assert_eq!(parse_u16("-1"), None);
    assert_eq!(parse_u16("1a"), None);
}

#[test]
fn builds_insert_with_escaped_strings() {
    let rows = vec![
        vec![SqlValue::Int(-5), SqlValue::Text("x\"y\\z\nw".to_string())],
        vec![SqlValue::Int(i64::MIN), SqlValue::Text(String::new())],
    ];
    let s = build_insert("t", &vec!["a", "b"], &rows).unwrap();
    assert_eq!(
        s,
        "INSERT INTO t (a, b) VALUES (-5, \"x\\\"y\\\\z\\nw\"), (-9223372036854775808, \"\")"
    );
}

#[test]
fn empty_rows_build_no_statement() {
    assert!(build_insert("t", &vec!["a"], &Vec::new()).is_none());
    let s = spanner();
    assert!(s.load_user_collections(&user(), &Vec::new()).is_none());
    assert!(s.add_user_bsos(&user(), &Vec::new(), &Collections::default()).is_none());
}

#[test]
fn one_tuple_per_row() {
    for n in 1..6i64 {
        let rows: Vec<Vec<SqlValue>> = (0..n).map(|i| vec![SqlValue::Int(i)]).collect();
        let s = build_insert("t", &vec!["a"], &rows).unwrap();
        assert_eq!(tuple_count(&s), n as usize);
    }
}

#[test]
fn defaults_hold_known_collections() {
    let c = Collections::default();
    assert_eq!(c.get("bookmarks").unwrap().collection, 7);
    assert_eq!(c.get("clients").unwrap().collection, 1);
    assert!(c.get("unknown").is_none());
    assert_eq!(c.items().len(), 13);
}

#[test]
fn destination_collection_is_added() {
    let c = spanner().get_collections(&vec![row("7", "addons")]).unwrap();
    let addons = c.get("addons").unwrap();
    assert_eq!(addons.name, "addons");
    assert_eq!(addons.collection, 7);
    assert_eq!(addons.last_modified, 0);
    let defaults = Collections::default();
    for d in defaults.items() {
        if d.name != "addons" {
            assert_eq!(c.get(&d.name).unwrap().collection, d.collection);
        }
    }
}

#[test]
fn destination_ids_override_defaults() {
    let rows = vec![row("20", "bookmarks"), row("21", "custom"), row("22", "custom")];
    let c = spanner().get_collections(&rows).unwrap();
    assert_eq!(c.get("bookmarks").unwrap().collection, 20);
    assert_eq!(c.get("custom").unwrap().collection, 21);
    assert_eq!(c.get("history").unwrap().collection, 4);
    assert_eq!(c.items().len(), 14);
}

#[test]
fn reconciliation_is_idempotent() {
    let rows = vec![row("3", "forms"), row("30", "extra"), row("31", "more")];
    let once = spanner().get_collections(&rows).unwrap();
    let twice = spanner().get_collections(&rows).unwrap();
    assert_eq!(ids(&once), ids(&twice));
    let mut again = spanner().get_collections(&rows).unwrap();
    again.merge_rows(&rows).unwrap();
    assert_eq!(ids(&again), ids(&once));
}

#[test]
fn empty_destination_keeps_defaults() {
    let c = spanner().get_collections(&Vec::new()).unwrap();
    assert_eq!(ids(&c), ids(&Collections::default()));
}

#[test]
fn bad_collection_rows_are_rejected() {
    let r = spanner().get_collections(&vec![row("x", "a")]);
    assert!(matches!(r, Err(MigrationError::InvalidCollectionRow { row: 0 })));
    let r = spanner().get_collections(&vec![row("1", "a"), vec!["2".to_string()], row("y", "b")]);
    assert!(matches!(r, Err(MigrationError::InvalidCollectionRow { row: 1 })));
    let r = spanner().get_collections(&vec![row("1", "a"), row("70000", "b")]);
    assert!(matches!(r, Err(MigrationError::InvalidCollectionRow { row: 1 })));
}

#[test]
fn unknown_collection_uses_carried_id() {
    let c = Collections::default();
    assert_eq!(c.resolve_id(&bso("mystery", 42, "a", None)), 42);
    assert_eq!(c.resolve_id(&bso("history", 42, "a", None)), 4);
}

#[test]
fn dsn_must_be_set() {
    let r = Spanner::new(&None, &Some("mysql://x/y".to_string()));
    assert!(matches!(r, Err(MigrationError::MissingDsn)));
    let r = Spanner::new(&Some("spanner://a/b".to_string()), &None);
    assert!(matches!(r, Err(MigrationError::MissingDsn)));
}

#[test]
fn dsn_gives_database_name() {
    assert_eq!(spanner().database_name(), "projects/p/instances/i/databases/d");
}

#[test]
fn invalid_dsn_is_named() {
    let r = Spanner::new(&Some("not a url".to_string()), &Some("m".to_string()));
    match r {
        Err(MigrationError::InvalidDsn { dsn, reason }) => {
            assert_eq!(dsn, "not a url");
            assert!(!reason.is_empty());
        }
        _ => panic!("expected an invalid DSN"),
    }
    let r = Spanner::new(&Some("unix:/run/foo.socket".to_string()), &Some("m".to_string()));
    match r {
        Err(MigrationError::InvalidDsn { dsn, reason }) => {
            assert_eq!(dsn, "unix:/run/foo.socket");
            assert_eq!(reason, "the URL has no host");
        }
        _ => panic!("expected a DSN without host"),
    }
}

#[test]
fn new_collections_statement() {
    let mut c = Collections::default();
    let s = spanner().add_new_collections(&c).unwrap();
    assert_eq!(tuple_count(&s), 13);
    assert!(s.starts_with("INSERT INTO collections (collection_id, name) VALUES (1, \"clients\"), (2, \"crypto\")"));
    c.set(Collection { name: "clients".to_string(), collection: 99, last_modified: 3 });
    let s = spanner().add_new_collections(&c).unwrap();
    assert!(s.contains("(99, \"clients\"), (2, \"crypto\")"));
}

#[test]
fn user_collections_statement() {
    let cs = vec![Collection { name: "tabs".to_string(), collection: 9, last_modified: 1234 }];
    let s = spanner().load_user_collections(&user(), &cs).unwrap();
    assert_eq!(
        s,
        "INSERT INTO user_collections (collection_id, fxa_kid, fxa_uid, modified) VALUES (9, \"kid1\", \"uid1\", 1234)"
    );
}

#[test]
fn user_bsos_statement() {
    let bsos = vec![bso("history", 77, "b1", Some(3)), bso("mystery", 42, "b\"2", None)];
    let s = spanner().add_user_bsos(&user(), &bsos, &Collections::default()).unwrap();
    assert_eq!(
        s,
        "INSERT INTO bso (collection_id, fxa_kid, fxa_uid, bso_id, expiry, modified, payload, sortindex) VALUES \
         (4, \"kid1\", \"uid1\", \"b1\", 100, 50, \"p\", 3), (42, \"kid1\", \"uid1\", \"b\\\"2\", 100, 50, \"p\", 0)"
    );
}

#[test]
fn pinned_user_visits_only_its_shard() {
    assert_eq!(shards_to_visit(None, None, Some(5)), vec![5]);
    assert_eq!(shards_to_visit(Some(0), Some(19), Some(5)), vec![5]);
    let m = Migration::new(None, None, Some(5));
    assert_eq!(m.step(), Step::FetchUsers { shard: 5 });
    let mut m = m;
    m.advance(Outcome::Users(0));
    assert_eq!(m.step(), Step::Done);
}

#[test]
fn default_shard_range() {
    assert_eq!(shards_to_visit(None, None, None), (0..19).collect::<Vec<u32>>());
    assert_eq!(shards_to_visit(Some(3), Some(6), None), vec![3, 4, 5]);
    assert!(shards_to_visit(Some(6), Some(6), None).is_empty());
    assert!(shards_to_visit(Some(7), Some(2), None).is_empty());
    assert_eq!(Migration::new(Some(4), Some(4), None).step(), Step::Done);
}

#[test]
fn user_migrates_collections_then_records() {
    let s = spanner();
    let cs: Vec<Collection> = (1..4)
        .map(|i| Collection { name: format!("c{}", i), collection: i, last_modified: 0 })
        .collect();
    let bsos: Vec<Bso> = (0..10).map(|i| bso("c1", 1, &format!("b{}", i), None)).collect();
    let first = s.load_user_collections(&user(), &cs).unwrap();
    let second = s.add_user_bsos(&user(), &bsos, &Collections::default()).unwrap();
    assert_eq!(tuple_count(&first), 3);
    assert_eq!(tuple_count(&second), 10);
    let mut m = Migration::new(Some(2), Some(3), None);
    assert_eq!(m.step(), Step::FetchUsers { shard: 2 });
    m.advance(Outcome::Users(1));
    assert_eq!(m.step(), Step::InsertCollections { shard: 2, user: 0 });
    m.advance(Outcome::Succeeded);
    assert_eq!(m.step(), Step::InsertBsos { shard: 2, user: 0 });
    m.advance(Outcome::Succeeded);
    assert_eq!(m.step(), Step::Done);
    assert!(m.failures().is_empty());
}

#[test]
fn failed_records_do_not_stop_the_shard() {
    let mut m = Migration::new(Some(0), Some(2), None);
    m.advance(Outcome::Users(2));
    m.advance(Outcome::Succeeded);
    assert_eq!(m.step(), Step::InsertBsos { shard: 0, user: 0 });
    m.advance(Outcome::Failed);
    assert_eq!(m.step(), Step::InsertCollections { shard: 0, user: 1 });
    assert_eq!(
        m.failures(),
        &vec![Failure { shard: 0, user: Some(0), phase: Phase::InsertBsos }]
    );
    m.advance(Outcome::Failed);
    assert_eq!(m.step(), Step::FetchUsers { shard: 1 });
    m.advance(Outcome::Failed);
    assert_eq!(m.step(), Step::Done);
    assert_eq!(
        m.failures(),
        &vec![
            Failure { shard: 0, user: Some(0), phase: Phase::InsertBsos },
            Failure { shard: 0, user: Some(1), phase: Phase::InsertCollections },
            Failure { shard: 1, user: None, phase: Phase::FetchUsers },
        ]
    );
}

fn top_level_opens(values: &str) -> usize {
    let mut count = 0;
    let mut inside = false;
    let mut escape = false;
    for c in values.chars() {
        if inside {
            if escape {
                escape = false;
            } else if c == '\\' {
                escape = true;
            } else if c == '"' {
                inside = false;
            }
        } else if c == '"' {
            inside = true;
        } else if c == '(' {
            count += 1;
        }
    }
    count
}

#[test]
fn hostile_payloads_keep_one_tuple_per_row() {
    let nasty = ["a\"), (\"b", "(((", "\\\"", "x\ny\r", ")"];
    let bsos: Vec<Bso> = nasty
        .iter()
        .map(|p| Bso { payload: p.to_string(), ..bso("tabs", 9, p, Some(-1)) })
        .collect();
    let s = spanner().add_user_bsos(&user(), &bsos, &Collections::default()).unwrap();
    let values = s.split(" VALUES ").nth(1).unwrap();
    assert_eq!(top_level_opens(values), nasty.len());
    assert!(!s.contains('\n'));
}

#[test]
fn missing_collections_are_those_no_row_names() {
    let rows = vec![row("1", "clients"), row("30", "extra"), row("7", "bookmarks")];
    let c = spanner().get_collections(&rows).unwrap();
    let missing = c.missing_from(&rows);
    let names: Vec<String> = missing.items().iter().map(|c| c.name.clone()).collect();
    assert_eq!(
        names,
        vec![
            "crypto", "forms", "history", "keys", "meta", "prefs", "tabs", "passwords", "addons",
            "addresses", "creditcards",
        ]
    );
    assert!(c.missing_from(&Vec::new()).items().len() == 14);
}
