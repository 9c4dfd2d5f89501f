//! The snapshot envelope: a logical copy of the three stores, taken under
//! the lock and serialized outside it. The spatial index is not part of
//! the envelope; loading rebuilds it from each point set.

use vstd::prelude::*;

use crate::table::{Table, map_of, lemma_map_of_index, lemma_map_of_contains};
use crate::reply::{ESValue, ESValueV, KeyType};
use crate::json::{Json, JsonV};
use crate::geo::{GeoPoint, GeoPointV, points_view, unique_tags, duplicate_points};
use crate::db::{Db, view_map, lemma_view_map_insert};

verus! {

/// The snapshot envelope.
pub struct Database {
    pub kv: Table<ESValue>,
    pub json: Table<Json>,
    pub geo: Table<Vec<GeoPoint>>,
}

impl Database {
    pub open spec fn kv_view(&self) -> Map<Seq<char>, ESValueV> {
        view_map(self.kv@, |v: ESValue| v@)
    }

    pub open spec fn json_view(&self) -> Map<Seq<char>, JsonV> {
        view_map(self.json@, |v: Json| v@)
    }

    pub open spec fn geo_view(&self) -> Map<Seq<char>, Seq<GeoPointV>> {
        view_map(self.geo@, |v: Vec<GeoPoint>| points_view(v@))
    }

    /// No key is in two stores.
    pub open spec fn consistent(&self) -> bool {
        &&& forall|k: Seq<char>|
            #[trigger] self.kv@.contains_key(k) ==> !self.json@.contains_key(k)
                && !self.geo@.contains_key(k)
        &&& forall|k: Seq<char>| #[trigger] self.json@.contains_key(k) ==> !self.geo@.contains_key(k)
    }

    /// Every stored point set keys its members by tag.
    pub open spec fn tags_ok(&self) -> bool {
        forall|k: Seq<char>|
            #[trigger] self.geo@.contains_key(k) ==> unique_tags(points_view(self.geo@[k]@))
    }

    pub open spec fn wf(&self) -> bool {
        &&& self.kv.wf()
        &&& self.json.wf()
        &&& self.geo.wf()
        &&& self.consistent()
        &&& self.tags_ok()
    }

    /// Whether a decoded envelope can be installed: no key in two
    /// stores, and every point set keyed by tag.
    pub fn validate(&self) -> (r: bool)
        requires
            self.kv.wf(),
            self.json.wf(),
            self.geo.wf(),
        ensures
            r == (self.consistent() && self.tags_ok()),
    {
        let n = self.kv.entry_count();
        let mut i: usize = 0;
        while i < n
            invariant
                self.kv.wf(),
                self.json.wf(),
                self.geo.wf(),
                0 <= i <= n,
                n == self.kv.entries@.len(),
                forall|j: int|
                    0 <= j < i ==> !self.json@.contains_key(#[trigger] self.kv.entries@[j].0@)
                        && !self.geo@.contains_key(self.kv.entries@[j].0@),
            decreases n - i,
        {
            let (k, _v) = self.kv.entry_at(i);
            if self.json.contains_key(k) || self.geo.contains_key(k) {
                proof {
                    lemma_map_of_index(self.kv.entries@, i as int);
                    assert(self.kv@.contains_key(k@));
                    assert(!self.consistent());
                }
                return false;
            }
            i = i + 1;
        }
        let m = self.json.entry_count();
        let mut j: usize = 0;
        while j < m
            invariant
                self.kv.wf(),
                self.json.wf(),
                self.geo.wf(),
                0 <= j <= m,
                m == self.json.entries@.len(),
                forall|t: int|
                    0 <= t < j ==> !self.geo@.contains_key(#[trigger] self.json.entries@[t].0@),
                forall|jj: int|
                    0 <= jj < self.kv.entries@.len() ==> !self.json@.contains_key(
                        #[trigger] self.kv.entries@[jj].0@,
                    ) && !self.geo@.contains_key(self.kv.entries@[jj].0@),
            decreases m - j,
        {
            let (k, _v) = self.json.entry_at(j);
            if self.geo.contains_key(k) {
                proof {
                    lemma_map_of_index(self.json.entries@, j as int);
                    assert(self.json@.contains_key(k@));
                    assert(!self.consistent());
                }
                return false;
            }
            j = j + 1;
        }
        let g = self.geo.entry_count();
        let mut t: usize = 0;
        while t < g
            invariant
                self.kv.wf(),
                self.json.wf(),
                self.geo.wf(),
                0 <= t <= g,
                g == self.geo.entries@.len(),
                forall|x: int|
                    0 <= x < t ==> unique_tags(
                        points_view(#[trigger] self.geo.entries@[x].1@),
                    ),
                forall|jj: int|
                    0 <= jj < self.kv.entries@.len() ==> !self.json@.contains_key(
                        #[trigger] self.kv.entries@[jj].0@,
                    ) && !self.geo@.contains_key(self.kv.entries@[jj].0@),
                forall|x: int|
                    0 <= x < self.json.entries@.len() ==> !self.geo@.contains_key(
                        #[trigger] self.json.entries@[x].0@,
                    ),
            decreases g - t,
        {
            let (_k, pts) = self.geo.entry_at(t);
            if !tags_all_unique(pts) {
                proof {
                    lemma_map_of_index(self.geo.entries@, t as int);
                    assert(self.geo@.contains_key(self.geo.entries@[t as int].0@));
                    assert(self.geo@[self.geo.entries@[t as int].0@] == *pts);
                    assert(!self.tags_ok());
                }
                return false;
            }
            t = t + 1;
        }
        proof {
            lemma_map_of_contains(self.kv.entries@);
            lemma_map_of_contains(self.json.entries@);
            lemma_map_of_contains(self.geo.entries@);
            assert forall|k: Seq<char>| #[trigger] self.geo@.contains_key(k) implies unique_tags(
                points_view(self.geo@[k]@),
            ) by {
                let x = choose|x: int|
                    0 <= x < self.geo.entries@.len() && self.geo.entries@[x].0@ == k;
                lemma_map_of_index(self.geo.entries@, x);
            }
        }
        true
    }
}

/// Whether no two points of the list share a tag.
fn tags_all_unique(pts: &Vec<GeoPoint>) -> (r: bool)
    ensures
        r == unique_tags(points_view(pts@)),
{
    let n = pts.len();
    let mut i: usize = 0;
    while i < n
        invariant
            0 <= i <= n,
            n == pts@.len(),
            forall|a: int, b: int| 0 <= a < b < i ==> pts@[a].tag@ != pts@[b].tag@,
        decreases n - i,
    {
        let mut j: usize = 0;
        while j < i
            invariant
                0 <= j <= i < n == pts@.len(),
                forall|a: int, b: int| 0 <= a < b < i ==> pts@[a].tag@ != pts@[b].tag@,
                forall|a: int| 0 <= a < j ==> pts@[a].tag@ != pts@[i as int].tag@,
            decreases i - j,
        {
            if pts[j].tag == pts[i].tag {
                proof {
                    assert(points_view(pts@)[j as int].tag == points_view(pts@)[i as int].tag);
                }
                return false;
            }
            j = j + 1;
        }
        i = i + 1;
    }
    true
}

impl Db {
    /// The logical copy the snapshotter serializes: the three stores,
    /// deep-copied; the spatial index and the expiry index stay behind.
    pub fn take_snapshot(&self) -> (r: Database)
        requires
            self.inv(),
        ensures
            r.wf(),
            r.kv_view() =~= self.kv_view(),
            r.json_view() =~= self.json_view(),
            r.geo_view() =~= self.geo_view(),
    {
        let kv = copy_kv(&self.kv);
        let json = copy_json(&self.json);
        let geo = copy_geo(&self.geo);
        let r = Database { kv, json, geo };
        proof {
            assert forall|k: Seq<char>| #[trigger] r.kv@.contains_key(k) implies !r.json@.contains_key(
                k,
            ) && !r.geo@.contains_key(k) by {
                assert(self.kv@.contains_key(k));
            }
            assert forall|k: Seq<char>| #[trigger] r.json@.contains_key(k) implies !r.geo@.contains_key(
                k,
            ) by {
                assert(self.json@.contains_key(k));
            }
            assert forall|k: Seq<char>| #[trigger] r.geo@.contains_key(k) implies unique_tags(
                points_view(r.geo@[k]@),
            ) by {
                assert(self.geo@.contains_key(k));
                assert(points_view(r.geo@[k]@) == r.geo_view()[k]);
                assert(points_view(self.geo@[k]@) == self.geo_view()[k]);
            }
        }
        r
    }

    /// Install a consistent envelope into a fresh database; the spatial
    /// index is rebuilt from each point set, and the expiration index,
    /// the tombstones and the counters start empty.
    pub fn from_snapshot(snap: &Database) -> (r: Db)
        requires
            snap.wf(),
        ensures
            r.inv(),
            r.kv_view() =~= snap.kv_view(),
            r.json_view() =~= snap.json_view(),
            r.geo_view() =~= snap.geo_view(),
            r.rtree_view() =~= r.geo_view(),
            r.expiry_view() =~= Map::<Seq<char>, i64>::empty(),
            r.tombstones_view() =~= Seq::<Seq<char>>::empty(),
            r.mutation_count == 0,
    {
        let mut db = Db::new();
        let n = snap.kv.entry_count();
        let mut i: usize = 0;
        while i < n
            invariant
                snap.wf(),
                db.inv(),
                0 <= i <= n,
                n == snap.kv.entries@.len(),
                db.kv_view() =~= view_map(map_of(snap.kv.entries@.take(i as int)), |v: ESValue| v@),
                db.dir_view().dom() =~= db.kv_view().dom(),
                db.json_view() =~= Map::<Seq<char>, JsonV>::empty(),
                db.geo_view() =~= Map::<Seq<char>, Seq<GeoPointV>>::empty(),
                db.rtree_view() =~= Map::<Seq<char>, Seq<GeoPointV>>::empty(),
                db.expiry_view() =~= Map::<Seq<char>, i64>::empty(),
                db.tombstones_view() =~= Seq::<Seq<char>>::empty(),
                db.mutation_count == 0,
            decreases n - i,
        {
            let (k, v) = snap.kv.entry_at(i);
            let ghost kv0 = db.kv@;
            let ghost pre = snap.kv.entries@.take(i as int);
            let key = k.clone();
            let dup = v.duplicate();
            proof {
                assert(snap.kv.entries@.take(i + 1).drop_last() =~= pre);
            }
            db.kv.insert(&key, dup);
            db.dir.insert(&key, KeyType::KV);
            proof {
                lemma_view_map_insert(kv0, |v: ESValue| v@, key@, db.kv@[key@]);
            }
            i = i + 1;
        }
        proof {
            assert(snap.kv.entries@.take(n as int) =~= snap.kv.entries@);
        }
        let m = snap.json.entry_count();
        let mut j: usize = 0;
        while j < m
            invariant
                snap.wf(),
                db.inv(),
                0 <= j <= m,
                m == snap.json.entries@.len(),
                db.kv_view() =~= snap.kv_view(),
                db.json_view() =~= view_map(
                    map_of(snap.json.entries@.take(j as int)),
                    |v: Json| v@,
                ),
                db.dir_view().dom() =~= db.kv_view().dom() + db.json_view().dom(),
                db.geo_view() =~= Map::<Seq<char>, Seq<GeoPointV>>::empty(),
                db.rtree_view() =~= Map::<Seq<char>, Seq<GeoPointV>>::empty(),
                db.expiry_view() =~= Map::<Seq<char>, i64>::empty(),
                db.tombstones_view() =~= Seq::<Seq<char>>::empty(),
                db.mutation_count == 0,
            decreases m - j,
        {
            let (k, v) = snap.json.entry_at(j);
            let ghost json0 = db.json@;
            let ghost pre = snap.json.entries@.take(j as int);
            let key = k.clone();
            let dup = v.duplicate();
            proof {
                assert(snap.json.entries@.take(j + 1).drop_last() =~= pre);
                lemma_map_of_index(snap.json.entries@, j as int);
                assert(snap.json@.contains_key(key@));
                assert(!snap.kv@.contains_key(key@));
                assert(!db.kv_view().contains_key(key@));
            }
            db.json.insert(&key, dup);
            db.dir.insert(&key, KeyType::JSON);
            proof {
                lemma_view_map_insert(json0, |v: Json| v@, key@, db.json@[key@]);
            }
            j = j + 1;
        }
        proof {
            assert(snap.json.entries@.take(m as int) =~= snap.json.entries@);
        }
        let g = snap.geo.entry_count();
        let mut t: usize = 0;
        while t < g
            invariant
                snap.wf(),
                db.inv(),
                0 <= t <= g,
                g == snap.geo.entries@.len(),
                db.kv_view() =~= snap.kv_view(),
                db.json_view() =~= snap.json_view(),
                db.geo_view() =~= view_map(
                    map_of(snap.geo.entries@.take(t as int)),
                    |v: Vec<GeoPoint>| points_view(v@),
                ),
                db.rtree_view() =~= db.geo_view(),
                db.dir_view().dom() =~= db.kv_view().dom() + db.json_view().dom()
                    + db.geo_view().dom(),
                db.expiry_view() =~= Map::<Seq<char>, i64>::empty(),
                db.tombstones_view() =~= Seq::<Seq<char>>::empty(),
                db.mutation_count == 0,
            decreases g - t,
        {
            let (k, v) = snap.geo.entry_at(t);
            let ghost geo0 = db.geo@;
            let ghost rt0 = db.rtree@;
            let ghost pre = snap.geo.entries@.take(t as int);
            let key = k.clone();
            let dup = duplicate_points(v);
            let dup2 = duplicate_points(&dup);
            proof {
                assert(snap.geo.entries@.take(t + 1).drop_last() =~= pre);
                lemma_map_of_index(snap.geo.entries@, t as int);
                assert(snap.geo@.contains_key(key@));
                assert(!snap.kv@.contains_key(key@));
                assert(!snap.json@.contains_key(key@));
                assert(!db.kv_view().contains_key(key@));
                assert(!db.json_view().contains_key(key@));
                assert(unique_tags(points_view(snap.geo@[key@]@)));
                assert(points_view(dup@) =~= points_view(snap.geo@[key@]@));
            }
            db.geo.insert(&key, dup);
            db.rtree.insert(&key, dup2);
            db.dir.insert(&key, KeyType::GEO);
            proof {
                lemma_view_map_insert(geo0, |v: Vec<GeoPoint>| points_view(v@), key@, db.geo@[key@]);
                lemma_view_map_insert(rt0, |v: Vec<GeoPoint>| points_view(v@), key@, db.rtree@[key@]);
            }
            t = t + 1;
        }
        proof {
            assert(snap.geo.entries@.take(g as int) =~= snap.geo.entries@);
        }
        db
    }
}

/// A deep copy of the KV store.
fn copy_kv(t: &Table<ESValue>) -> (r: Table<ESValue>)
    requires
        t.wf(),
    ensures
        r.wf(),
        view_map(r@, |v: ESValue| v@) =~= view_map(t@, |v: ESValue| v@),
        forall|k: Seq<char>| #[trigger] r@.contains_key(k) <==> t@.contains_key(k),
{
    let n = t.entry_count();
    let mut out: Table<ESValue> = Table::new();
    let mut i: usize = 0;
    while i < n
        invariant
            t.wf(),
            out.wf(),
            0 <= i <= n,
            n == t.entries@.len(),
            view_map(out@, |v: ESValue| v@) =~= view_map(
                map_of(t.entries@.take(i as int)),
                |v: ESValue| v@,
            ),
            forall|k: Seq<char>| #[trigger]
                out@.contains_key(k) <==> map_of(t.entries@.take(i as int)).contains_key(k),
        decreases n - i,
    {
        let (k, v) = t.entry_at(i);
        let ghost o0 = out@;
        let key = k.clone();
        let dup = v.duplicate();
        proof {
            assert(t.entries@.take(i + 1).drop_last() =~= t.entries@.take(i as int));
        }
        out.insert(&key, dup);
        proof {
            lemma_view_map_insert(o0, |v: ESValue| v@, key@, out@[key@]);
        }
        i = i + 1;
    }
    proof {
        assert(t.entries@.take(n as int) =~= t.entries@);
    }
    out
}

/// A deep copy of the document store.
fn copy_json(t: &Table<Json>) -> (r: Table<Json>)
    requires
        t.wf(),
    ensures
        r.wf(),
        view_map(r@, |v: Json| v@) =~= view_map(t@, |v: Json| v@),
        forall|k: Seq<char>| #[trigger] r@.contains_key(k) <==> t@.contains_key(k),
{
    let n = t.entry_count();
    let mut out: Table<Json> = Table::new();
    let mut i: usize = 0;
    while i < n
        invariant
            t.wf(),
            out.wf(),
            0 <= i <= n,
            n == t.entries@.len(),
            view_map(out@, |v: Json| v@) =~= view_map(
                map_of(t.entries@.take(i as int)),
                |v: Json| v@,
            ),
            forall|k: Seq<char>| #[trigger]
                out@.contains_key(k) <==> map_of(t.entries@.take(i as int)).contains_key(k),
        decreases n - i,
    {
        let (k, v) = t.entry_at(i);
        let ghost o0 = out@;
        let key = k.clone();
        let dup = v.duplicate();
        proof {
            assert(t.entries@.take(i + 1).drop_last() =~= t.entries@.take(i as int));
        }
        out.insert(&key, dup);
        proof {
            lemma_view_map_insert(o0, |v: Json| v@, key@, out@[key@]);
        }
        i = i + 1;
    }
    proof {
        assert(t.entries@.take(n as int) =~= t.entries@);
    }
    out
}

/// A deep copy of the geo store.
fn copy_geo(t: &Table<Vec<GeoPoint>>) -> (r: Table<Vec<GeoPoint>>)
    requires
        t.wf(),
    ensures
        r.wf(),
        view_map(r@, |v: Vec<GeoPoint>| points_view(v@)) =~= view_map(
            t@,
            |v: Vec<GeoPoint>| points_view(v@),
        ),
        forall|k: Seq<char>| #[trigger] r@.contains_key(k) <==> t@.contains_key(k),
{
    let n = t.entry_count();
    let mut out: Table<Vec<GeoPoint>> = Table::new();
    let mut i: usize = 0;
    while i < n
        invariant
            t.wf(),
            out.wf(),
            0 <= i <= n,
            n == t.entries@.len(),
            view_map(out@, |v: Vec<GeoPoint>| points_view(v@)) =~= view_map(
                map_of(t.entries@.take(i as int)),
                |v: Vec<GeoPoint>| points_view(v@),
            ),
            forall|k: Seq<char>| #[trigger]
                out@.contains_key(k) <==> map_of(t.entries@.take(i as int)).contains_key(k),
        decreases n - i,
    {
        let (k, v) = t.entry_at(i);
        let ghost o0 = out@;
        let key = k.clone();
        let dup = duplicate_points(v);
        proof {
            assert(t.entries@.take(i + 1).drop_last() =~= t.entries@.take(i as int));
        }
        out.insert(&key, dup);
        proof {
            lemma_view_map_insert(o0, |v: Vec<GeoPoint>| points_view(v@), key@, out@[key@]);
        }
        i = i + 1;
    }
    proof {
        assert(t.entries@.take(n as int) =~= t.entries@);
    }
    out
}

/// Snapshot then load gives back the database, up to the spatial index,
/// which the load recomputes to the same geometry as the point sets.
pub proof fn lemma_snapshot_round_trip(db: &Db, snap: &Database, out: &Db)
    requires
        db.inv(),
        snap.kv_view() =~= db.kv_view(),
        snap.json_view() =~= db.json_view(),
        snap.geo_view() =~= db.geo_view(),
        out.kv_view() =~= snap.kv_view(),
        out.json_view() =~= snap.json_view(),
        out.geo_view() =~= snap.geo_view(),
        out.rtree_view() =~= out.geo_view(),
    ensures
        out.kv_view() == db.kv_view(),
        out.json_view() == db.json_view(),
        out.geo_view() == db.geo_view(),
        out.rtree_view() == db.geo_view(),
{
}

} // verus!
