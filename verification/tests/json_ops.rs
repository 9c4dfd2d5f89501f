use multidb::db::Db;
use multidb::json::Json;
use multidb::jsonops::NumOutcome;
use multidb::reply::{ESValue, ErrorKind, Reply};

fn s(t: &str) -> String {
    t.to_string()
}

#[test]
fn jset_builds_nested_document() {
    let mut db = Db::new();
    let items = vec![
        (s("user.name"), Json::Str(s("ada"))),
        (s("user.age"), Json::Int(36)),
    ];
    assert_eq!(db.jset(&s("d"), &items), Reply::Okay);
    assert_eq!(db.jget(&s("d"), Some(&s("user.name"))), Reply::Bulk(s("ada")));
    let user = db.jget(&s("d"), Some(&s("user")));
    assert!(
        user == Reply::Bulk(s("{\"name\":\"ada\",\"age\":36}"))
            || user == Reply::Bulk(s("{\"age\":36,\"name\":\"ada\"}"))
    );
}

#[test]
fn jset_is_idempotent() {
    let mut db = Db::new();
    let items = vec![(s("a.b"), Json::Int(1))];
    db.jset(&s("d"), &items);
    let first = db.jget(&s("d"), None);
    db.jset(&s("d"), &items);
    assert_eq!(db.jget(&s("d"), None), first);
}

#[test]
fn jset_on_kv_key_is_wrongtype() {
    let mut db = Db::new();
    db.set(&s("a"), ESValue::String(s("hello")), 0, 0);
    let items = vec![(s("x"), Json::Int(1))];
    assert_eq!(db.jset(&s("a"), &items), Reply::Error(ErrorKind::WrongType));
    assert_eq!(db.get(&s("a")), Reply::Bulk(s("hello")));
}

#[test]
fn jset_raw_parses_and_stores() {
    let mut db = Db::new();
    assert_eq!(db.jset_raw(&s("d"), &s("{\"x\":[1,2]}")), Reply::Okay);
    assert_eq!(db.jget(&s("d"), Some(&s("x.1"))), Reply::Bulk(s("2")));
    assert_eq!(db.jset_raw(&s("e"), &s("{oops")), Reply::Error(ErrorKind::InvalidJson));
}

#[test]
fn jget_missing_key_is_empty() {
    let db = Db::new();
    assert_eq!(db.jget(&s("none"), None), Reply::Bulk(s("")));
}

#[test]
fn jget_missing_path_is_null() {
    let mut db = Db::new();
    db.jset_raw(&s("d"), &s("{\"a\":1}"));
    assert_eq!(db.jget(&s("d"), Some(&s("zzz"))), Reply::Bulk(s("null")));
}

#[test]
fn jdel_removes_document() {
    let mut db = Db::new();
    db.jset_raw(&s("d"), &s("{\"a\":1}"));
    assert_eq!(db.jdel(&s("d")), Reply::Okay);
    assert_eq!(db.jget(&s("d"), None), Reply::Bulk(s("")));
}

#[test]
fn jrem_counts_removed_paths() {
    let mut db = Db::new();
    db.jset_raw(&s("d"), &s("{\"a\":1,\"b\":2}"));
    let paths = vec![s("a"), s("missing"), s("b")];
    assert_eq!(db.jrem(&s("d"), &paths), Reply::Int(2));
    assert_eq!(db.jget(&s("d"), None), Reply::Bulk(s("{}")));
}

#[test]
fn jincr_by_integer_path() {
    let mut db = Db::new();
    db.jset_raw(&s("d"), &s("{\"n\":5}"));
    assert_eq!(db.jincr_by(&s("d"), &s("n"), 3), NumOutcome::Done(Reply::Int(8)));
    assert_eq!(db.jget(&s("d"), Some(&s("n"))), Reply::Bulk(s("8")));
}

#[test]
fn jincr_by_missing_path_sets_value() {
    let mut db = Db::new();
    db.jset_raw(&s("d"), &s("{}"));
    assert_eq!(db.jincr_by(&s("d"), &s("fresh"), 4), NumOutcome::Done(Reply::Int(4)));
}

#[test]
fn jincr_by_missing_key_errors() {
    let mut db = Db::new();
    assert_eq!(
        db.jincr_by(&s("none"), &s("n"), 1),
        NumOutcome::Done(Reply::Error(ErrorKind::JsonKeyNotFound))
    );
}

#[test]
fn jincr_by_non_number_errors() {
    let mut db = Db::new();
    db.jset_raw(&s("d"), &s("{\"t\":\"text\"}"));
    assert_eq!(
        db.jincr_by(&s("d"), &s("t"), 1),
        NumOutcome::Done(Reply::Error(ErrorKind::NotNumber))
    );
}

#[test]
fn jincr_by_float_path_is_pending() {
    let mut db = Db::new();
    db.jset_raw(&s("d"), &s("{\"f\":1.5}"));
    match db.jincr_by(&s("d"), &s("f"), 2) {
        NumOutcome::FloatPending(t) => {
            let new_text = format!("{}", t.parse::<f64>().unwrap() + 2.0);
            assert_eq!(db.jset_number(&s("d"), &s("f"), new_text.clone()), Reply::Bulk(new_text));
            assert_eq!(db.jget(&s("d"), Some(&s("f"))), Reply::Bulk(s("3.5")));
        },
        other => panic!("unexpected outcome: {:?}", other),
    }
}

#[test]
fn jincr_by_float_rejects_integers() {
    let mut db = Db::new();
    db.jset_raw(&s("d"), &s("{\"n\":5}"));
    assert_eq!(
        db.jincr_by_float(&s("d"), &s("n"), &s("1.5")),
        NumOutcome::Done(Reply::Error(ErrorKind::NotFloat))
    );
}

#[test]
fn jincr_by_float_sets_missing_path() {
    let mut db = Db::new();
    db.jset_raw(&s("d"), &s("{}"));
    assert_eq!(
        db.jincr_by_float(&s("d"), &s("f"), &s("2.5")),
        NumOutcome::Done(Reply::Bulk(s("2.5")))
    );
    assert_eq!(db.jget(&s("d"), Some(&s("f"))), Reply::Bulk(s("2.5")));
}

fn json_from_value(v: serde_json::Value) -> Json {
    match v {
        serde_json::Value::Null => Json::Null,
        serde_json::Value::Bool(b) => Json::Bool(b),
        serde_json::Value::Number(n) => {
            if let Some(i) = n.as_i64() {
                Json::Int(i)
            } else if let Some(u) = n.as_u64() {
                Json::UInt(u)
            } else {
                Json::Num(n.to_string())
            }
        },
        serde_json::Value::String(x) => Json::Str(x),
        serde_json::Value::Array(a) => Json::Arr(a.into_iter().map(json_from_value).collect()),
        serde_json::Value::Object(o) => {
            Json::Obj(o.into_iter().map(|(k, x)| (k, json_from_value(x))).collect())
        },
    }
}

fn select_outcome(doc_text: &str, selector: &str) -> Option<Vec<Json>> {
    let value: serde_json::Value = serde_json::from_str(doc_text).unwrap();
    jsonpath_lib::select(&value, selector)
        .ok()
        .map(|found| found.into_iter().map(|v| json_from_value(v.clone())).collect())
}

#[test]
fn jpath_selects_nodes() {
    let mut db = Db::new();
    let text = s("{\"a\":{\"b\":1},\"c\":[2,3]}");
    db.jset_raw(&s("d"), &text);
    assert_eq!(db.jpath(&s("d"), select_outcome(&text, "$.a.b")), Reply::Arr(vec![s("1")]));
    assert_eq!(
        db.jpath(&s("d"), select_outcome(&text, "$.c[*]")),
        Reply::Arr(vec![s("2"), s("3")])
    );
    assert_eq!(db.jpath(&s("none"), Some(vec![])), Reply::Bulk(s("")));
    assert_eq!(db.jpath(&s("d"), None), Reply::Bulk(s("")));
}

#[test]
fn jmerge_prefers_fresh_values() {
    let mut db = Db::new();
    db.jset_raw(&s("d"), &s("{\"a\":1,\"b\":{\"x\":1}}"));
    assert_eq!(db.jmerge(&s("d"), &s("{\"b\":{\"y\":2},\"c\":3}")), Reply::Okay);
    assert_eq!(db.jget(&s("d"), Some(&s("a"))), Reply::Bulk(s("1")));
    assert_eq!(db.jget(&s("d"), Some(&s("b.x"))), Reply::Bulk(s("1")));
    assert_eq!(db.jget(&s("d"), Some(&s("b.y"))), Reply::Bulk(s("2")));
    assert_eq!(db.jget(&s("d"), Some(&s("c"))), Reply::Bulk(s("3")));
}

#[test]
fn jmerge_on_missing_key_stores_document() {
    let mut db = Db::new();
    assert_eq!(db.jmerge(&s("m"), &s("{\"a\":1}")), Reply::Okay);
    assert_eq!(db.jget(&s("m"), Some(&s("a"))), Reply::Bulk(s("1")));
    assert_eq!(db.jmerge(&s("m"), &s("{nope")), Reply::Error(ErrorKind::InvalidJson));
}
