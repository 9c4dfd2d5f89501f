use multidb::db::Db;
use multidb::geo::GeoPoint;
use multidb::reply::{ErrorKind, Reply};
use multidb::snapshot::Database;

fn s(t: &str) -> String {
    t.to_string()
}

fn point(tag: &str, lat_e6: i64, lng_e6: i64) -> GeoPoint {
    let hash = geohash::encode(
        geohash::Coord { x: lng_e6 as f64 / 1e6, y: lat_e6 as f64 / 1e6 },
        10,
    )
    .unwrap();
    GeoPoint::new(s(tag), lat_e6, lng_e6, hash)
}

#[test]
fn geo_add_and_pos() {
    let mut db = Db::new();
    let pts = vec![point("Palermo", 13361389, 38115556)];
    assert_eq!(db.geo_add(&s("g"), pts), Reply::Okay);
    assert_eq!(
        db.geo_pos(&s("g"), &vec![s("Palermo"), s("nope")]),
        Reply::NestedArr(vec![vec![s("13.361389"), s("38.115556")], vec![]])
    );
}

#[test]
fn geo_add_replaces_same_tag() {
    let mut db = Db::new();
    db.geo_add(&s("g"), vec![point("a", 1_000_000, 2_000_000)]);
    db.geo_add(&s("g"), vec![point("a", 3_000_000, 4_000_000)]);
    assert_eq!(
        db.geo_pos(&s("g"), &vec![s("a")]),
        Reply::NestedArr(vec![vec![s("3"), s("4")]])
    );
}

#[test]
fn geo_hash_reads_stored_hash() {
    let mut db = Db::new();
    let p = point("a", 13361389, 38115556);
    let hash = p.hash.clone();
    db.geo_add(&s("g"), vec![p]);
    assert_eq!(db.geo_hash(&s("g"), &vec![s("a"), s("b")]), Reply::Arr(vec![hash, s("")]));
    assert_eq!(db.geo_hash(&s("x"), &vec![s("a")]), Reply::Error(ErrorKind::KeyNotFound));
}

#[test]
fn geo_dist_resolves_members() {
    let mut db = Db::new();
    db.geo_add(
        &s("g"),
        vec![point("Palermo", 13361389, 38115556), point("Catania", 15087269, 37502669)],
    );
    let (a, b) = db.geo_dist(&s("g"), &s("Palermo"), &s("Catania")).unwrap();
    assert_eq!(a.lat_e6, 13361389);
    assert_eq!(b.lng_e6, 37502669);
    assert_eq!(
        db.geo_dist(&s("g"), &s("nope"), &s("Catania")),
        Err(ErrorKind::Member1NotFound)
    );
    assert_eq!(
        db.geo_dist(&s("g"), &s("Palermo"), &s("nope")),
        Err(ErrorKind::Member2NotFound)
    );
}

#[test]
fn geo_remove_last_tag_drops_key() {
    let mut db = Db::new();
    db.geo_add(&s("g"), vec![point("t", 1_000_000, 1_000_000)]);
    assert_eq!(db.geo_remove(&s("g"), &vec![s("t")]), Reply::Okay);
    assert_eq!(db.geo_hash(&s("g"), &vec![s("t")]), Reply::Error(ErrorKind::KeyNotFound));
    assert_eq!(db.geo_radius(&s("g")), Err(ErrorKind::KeyNotFound));
}

#[test]
fn geo_remove_keeps_other_tags() {
    let mut db = Db::new();
    db.geo_add(
        &s("g"),
        vec![point("a", 1_000_000, 1_000_000), point("b", 2_000_000, 2_000_000)],
    );
    assert_eq!(db.geo_remove(&s("g"), &vec![s("a")]), Reply::Okay);
    let left = db.geo_radius(&s("g")).unwrap();
    assert_eq!(left.len(), 1);
    assert_eq!(left[0].tag, s("b"));
}

#[test]
fn geo_del_removes_key() {
    let mut db = Db::new();
    db.geo_add(&s("g"), vec![point("a", 1_000_000, 1_000_000)]);
    assert_eq!(db.geo_del(&s("g")), Reply::Okay);
    assert_eq!(db.geo_del(&s("g")), Reply::Error(ErrorKind::KeyNotFound));
}

#[test]
fn snapshot_round_trip_keeps_geo_members() {
    let mut db = Db::new();
    db.geo_add(
        &s("g"),
        vec![
            point("a", 1_000_000, 1_000_000),
            point("b", 2_000_000, 2_000_000),
            point("c", 3_000_000, 3_000_000),
        ],
    );
    db.set(&s("k"), multidb::reply::ESValue::Int(9), 0, 0);
    db.jset_raw(&s("d"), &s("{\"x\":1}"));
    let snap = db.take_snapshot();
    let restored = Db::from_snapshot(&snap);
    let pts = restored.geo_radius(&s("g")).unwrap();
    let mut tags: Vec<String> = pts.iter().map(|p| p.tag.clone()).collect();
    tags.sort();
    assert_eq!(tags, vec![s("a"), s("b"), s("c")]);
    assert_eq!(restored.get(&s("k")), Reply::Int(9));
    assert_eq!(restored.jget(&s("d"), Some(&s("x"))), Reply::Bulk(s("1")));
}

#[test]
fn validate_refuses_cross_store_key() {
    let mut a = Db::new();
    a.set(&s("k"), multidb::reply::ESValue::Int(1), 0, 0);
    let snap_a = a.take_snapshot();
    assert!(snap_a.validate());
    let mut b = Db::new();
    b.jset_raw(&s("k"), &s("{}"));
    let snap_b = b.take_snapshot();
    let broken = Database { kv: snap_a.kv, json: snap_b.json, geo: snap_a.geo };
    assert!(!broken.validate());
}

#[test]
fn wrong_family_set_is_rejected() {
    let mut db = Db::new();
    db.geo_add(&s("g"), vec![point("a", 1_000_000, 1_000_000)]);
    assert_eq!(
        db.set(&s("g"), multidb::reply::ESValue::Int(1), 0, 0),
        Reply::Error(ErrorKind::WrongType)
    );
    assert_eq!(db.get(&s("g")), Reply::Error(ErrorKind::WrongType));
}

#[test]
fn geo_json_builds_feature_collection() {
    let mut db = Db::new();
    let p = GeoPoint::new(s("a"), 1_500_000, 2_000_000, s("h"));
    db.geo_add(&s("g"), vec![p]);
    let expected = s(
        "{\"type\":\"FeatureCollection\",\"features\":[{\"type\":\"Feature\",\"geometry\":{\"type\":\"Point\",\"coordinates\":[2,1.5]},\"properties\":{\"tag\":\"a\",\"hash\":\"h\"}}]}",
    );
    assert_eq!(db.geo_json(&s("g"), &vec![s("a"), s("missing")]), Reply::Bulk(expected));
    assert_eq!(db.geo_json(&s("x"), &vec![s("a")]), Reply::Error(ErrorKind::KeyNotFound));
}

#[test]
fn random_key_is_alphanumeric() {
    let db = Db::new();
    match db.random_key() {
        Reply::Bulk(t) => {
            assert_eq!(t.chars().count(), 25);
            assert!(t.chars().all(|c| c.is_ascii_alphanumeric()));
        },
        other => panic!("unexpected reply: {:?}", other),
    }
}
