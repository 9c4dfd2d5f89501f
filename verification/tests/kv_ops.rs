use multidb::db::{AuthContext, Db};
use multidb::jsonops::auth;
use multidb::reply::{ESValue, ErrorKind, Reply};

fn s(t: &str) -> String {
    t.to_string()
}

#[test]
fn set_then_get_returns_value() {
    let mut db = Db::new();
    assert_eq!(db.set(&s("a"), ESValue::String(s("hello")), 0, 0), Reply::Okay);
    assert_eq!(db.get(&s("a")), Reply::Bulk(s("hello")));
}

#[test]
fn set_twice_get_sees_latest() {
    let mut db = Db::new();
    db.set(&s("a"), ESValue::String(s("v1")), 0, 0);
    db.set(&s("a"), ESValue::String(s("v2")), 0, 0);
    assert_eq!(db.get(&s("a")), Reply::Bulk(s("v2")));
}

#[test]
fn get_missing_key_not_found() {
    let db = Db::new();
    assert_eq!(db.get(&s("nope")), Reply::Error(ErrorKind::KeyNotFound));
}

#[test]
fn incr_by_on_text_number() {
    let mut db = Db::new();
    db.set(&s("k"), ESValue::String(s("10")), 0, 0);
    assert_eq!(db.incr_by(&s("k"), 5), Reply::Bulk(s("15")));
    assert_eq!(db.get(&s("k")), Reply::Bulk(s("15")));
}

#[test]
fn incr_by_creates_missing_key() {
    let mut db = Db::new();
    assert_eq!(db.incr_by(&s("n"), 7), Reply::Int(7));
    assert_eq!(db.get(&s("n")), Reply::Int(7));
}

#[test]
fn incr_by_zero_is_noop_on_int() {
    let mut db = Db::new();
    db.set(&s("n"), ESValue::Int(42), 0, 0);
    assert_eq!(db.incr_by(&s("n"), 0), Reply::Int(42));
    assert_eq!(db.get(&s("n")), Reply::Int(42));
}

#[test]
fn incr_by_zero_creates_zero() {
    let mut db = Db::new();
    assert_eq!(db.incr_by(&s("z"), 0), Reply::Int(0));
    assert_eq!(db.get(&s("z")), Reply::Int(0));
}

#[test]
fn incr_by_rejects_non_numeric_text() {
    let mut db = Db::new();
    db.set(&s("t"), ESValue::String(s("hello")), 0, 0);
    assert_eq!(db.incr_by(&s("t"), 1), Reply::Error(ErrorKind::NotInteger));
    assert_eq!(db.get(&s("t")), Reply::Bulk(s("hello")));
}

#[test]
fn get_set_returns_prior() {
    let mut db = Db::new();
    assert_eq!(db.get_set(&s("g"), ESValue::String(s("one"))), Reply::Bulk(s("")));
    assert_eq!(db.get_set(&s("g"), ESValue::String(s("two"))), Reply::Bulk(s("one")));
    assert_eq!(db.get(&s("g")), Reply::Bulk(s("two")));
}

#[test]
fn del_removes_and_reports_missing() {
    let mut db = Db::new();
    db.set(&s("d"), ESValue::Int(1), 0, 0);
    assert_eq!(db.del(&s("d")), Reply::Okay);
    assert_eq!(db.get(&s("d")), Reply::Error(ErrorKind::KeyNotFound));
    assert_eq!(db.del(&s("d")), Reply::Error(ErrorKind::KeyNotFound));
}

#[test]
fn exists_counts_present_keys() {
    let mut db = Db::new();
    db.set(&s("a"), ESValue::Int(1), 0, 0);
    db.set(&s("b"), ESValue::Int(2), 0, 0);
    let keys = vec![s("a"), s("b"), s("c"), s("a")];
    assert_eq!(db.exists_count(&keys), Reply::Int(3));
}

#[test]
fn expire_and_sweep_drop_key() {
    let mut db = Db::new();
    db.set(&s("a"), ESValue::String(s("1")), 1, 1000);
    assert_eq!(db.get(&s("a")), Reply::Bulk(s("1")));
    db.expire_tick(1002);
    assert_eq!(db.get(&s("a")), Reply::Error(ErrorKind::KeyNotFound));
    db.remove_expired_keys();
    db.tombstone_tick();
    assert_eq!(db.ttl(&s("a")), Reply::Int(-1));
}

#[test]
fn ttl_reports_stored_epoch() {
    let mut db = Db::new();
    db.set(&s("a"), ESValue::Int(1), 0, 0);
    assert_eq!(db.ttl(&s("a")), Reply::Int(-1));
    assert_eq!(db.expire(&s("a"), 10, 1000), Reply::Int(1));
    assert_eq!(db.ttl(&s("a")), Reply::Int(1010));
    assert_eq!(db.persist(&s("a")), Reply::Int(1));
    assert_eq!(db.persist(&s("a")), Reply::Int(0));
    assert_eq!(db.ttl(&s("a")), Reply::Int(-1));
}

#[test]
fn expire_on_missing_key_is_zero() {
    let mut db = Db::new();
    assert_eq!(db.expire(&s("nope"), 10, 1000), Reply::Int(0));
    assert_eq!(db.expire_at(&s("nope"), 2000), Reply::Int(0));
}

#[test]
fn info_and_db_size() {
    let mut db = Db::new();
    db.set(&s("a"), ESValue::Int(1), 0, 0);
    db.set(&s("b"), ESValue::Int(2), 0, 0);
    assert_eq!(db.info(), Reply::Bulk(s("db0:keys=2\r\n")));
    assert_eq!(db.db_size(), Reply::Int(2));
}

#[test]
fn flush_db_clears_everything() {
    let mut db = Db::new();
    db.set(&s("a"), ESValue::Int(1), 0, 0);
    assert_eq!(db.flush_db(), Reply::Okay);
    assert_eq!(db.get(&s("a")), Reply::Error(ErrorKind::KeyNotFound));
    assert_eq!(db.db_size(), Reply::Int(0));
}

#[test]
fn keys_filters_by_glob() {
    let mut db = Db::new();
    db.set(&s("apple"), ESValue::Int(1), 0, 0);
    db.set(&s("apricot"), ESValue::Int(2), 0, 0);
    db.set(&s("banana"), ESValue::Int(3), 0, 0);
    assert_eq!(db.keys(&s("ap*")), Reply::Arr(vec![s("apple"), s("apricot")]));
    assert_eq!(db.keys(&s("*")), Reply::Arr(vec![s("apple"), s("apricot"), s("banana")]));
    assert_eq!(db.keys(&s("[")), Reply::Error(ErrorKind::InvalidPattern));
}

#[test]
fn random_key_is_25_chars() {
    let db = Db::new();
    match db.random_key() {
        Reply::Bulk(t) => assert_eq!(t.chars().count(), 25),
        other => panic!("unexpected reply: {:?}", other),
    }
}

#[test]
fn auth_checks_keys() {
    let mut ctx = AuthContext {
        auth_is_required: true,
        auth_key: Some(s("sesame")),
        client_auth_key: None,
        client_authenticated: false,
    };
    assert_eq!(auth(&mut ctx, &s("wrong")), Reply::Error(ErrorKind::AuthFailed));
    assert!(!ctx.client_authenticated);
    assert_eq!(auth(&mut ctx, &s("sesame")), Reply::Okay);
    assert!(ctx.client_authenticated);
    let mut open = AuthContext {
        auth_is_required: false,
        auth_key: None,
        client_auth_key: None,
        client_authenticated: false,
    };
    assert_eq!(auth(&mut open, &s("anything")), Reply::Okay);
}

#[test]
fn last_save_and_mark_saved() {
    let mut db = Db::new();
    db.set(&s("a"), ESValue::Int(1), 0, 0);
    assert!(db.should_save(1));
    db.mark_saved(555, 3);
    assert_eq!(db.last_save(), Reply::Int(555));
    assert_eq!(db.get_mutation_count(), 0);
}

#[test]
fn mutation_counter_tracks_writes() {
    let mut db = Db::new();
    assert_eq!(db.get_mutation_count(), 0);
    db.set(&s("a"), ESValue::Int(1), 0, 0);
    assert_eq!(db.get_mutation_count(), 1);
    db.incr_by(&s("a"), 1);
    assert_eq!(db.get_mutation_count(), 2);
    let _ = db.get(&s("a"));
    let _ = db.ttl(&s("a"));
    assert_eq!(db.get_mutation_count(), 2);
    db.expire(&s("a"), 10, 0);
    assert_eq!(db.get_mutation_count(), 2);
}

#[test]
fn flush_db_counts_cleared_entries() {
    let mut db = Db::new();
    db.set(&s("a"), ESValue::Int(1), 5, 0);
    db.set(&s("b"), ESValue::Int(2), 0, 0);
    db.jset_raw(&s("d"), &s("{}"));
    // Three writes so far; the flush clears two KV entries, one expiry
    // entry and one document, so the counter rises by four.
    assert_eq!(db.get_mutation_count(), 3);
    db.flush_db();
    assert_eq!(db.get_mutation_count(), 7);
}
