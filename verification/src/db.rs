//! The database: the typed keyspace with its three stores, the keyspace
//! directory, the expiration index with its tombstone set, the derived
//! spatial index, and the counters driving the snapshot scheduler.
//!
//! The invariant `inv` carries the cross-store rules: a key lives in at
//! most one store and the directory names that store, and the spatial
//! index holds exactly the points of each point set.

use vstd::prelude::*;

use crate::table::Table;
use crate::reply::{ESValue, ESValueV, KeyType, ErrorKind, Reply};
use crate::json::{Json, JsonV};
use crate::geo::{GeoPoint, GeoPointV, points_view, unique_tags};

verus! {

/// A finite map, each value seen through `f`.
pub open spec fn view_map<A, B>(m: Map<Seq<char>, A>, f: spec_fn(A) -> B) -> Map<Seq<char>, B> {
    Map::new(|k: Seq<char>| m.contains_key(k), |k: Seq<char>| f(m[k]))
}

pub proof fn lemma_view_map_insert<A, B>(m: Map<Seq<char>, A>, f: spec_fn(A) -> B, k: Seq<char>, v: A)
    ensures
        view_map(m.insert(k, v), f) =~= view_map(m, f).insert(k, f(v)),
{
}

pub proof fn lemma_view_map_remove<A, B>(m: Map<Seq<char>, A>, f: spec_fn(A) -> B, k: Seq<char>)
    ensures
        view_map(m.remove(k), f) =~= view_map(m, f).remove(k),
{
}

/// The reply a stored KV value produces: text as a bulk string, an
/// integer as an integer.
pub open spec fn reply_matches_value(v: ESValueV, r: Reply) -> bool {
    match v {
        ESValueV::Str(s) => r matches Reply::Bulk(t) && t@ == s,
        ESValueV::Int(i) => r == Reply::Int(i),
    }
}

/// An empty bulk-string reply.
pub open spec fn is_empty_bulk(r: Reply) -> bool {
    r matches Reply::Bulk(t) && t@ == Seq::<char>::empty()
}

/// The save clock (last save time and duration, the in-progress flag) is
/// untouched; only the snapshotter moves it.
pub open spec fn same_save_clock(a: &Db, b: &Db) -> bool {
    &&& a.last_save_time == b.last_save_time
    &&& a.last_save_duration == b.last_save_duration
    &&& a.save_in_progress == b.save_in_progress
}

/// The mutation counter went up by one, saturating at the top.
pub open spec fn counter_bumped(a: &Db, b: &Db) -> bool {
    b.mutation_count == spec_sat_add_u64(a.mutation_count, 1)
}

/// How many entries `FLUSHDB` clears: the counter rises by this much.
pub open spec fn flush_total(db: &Db) -> int {
    db.kv_view().dom().len() as int + db.expiry_view().dom().len() + db.rtree_view().dom().len()
        + db.geo_view().dom().len() + db.json_view().dom().len()
}

/// The per-connection authentication state.
pub struct AuthContext {
    pub auth_is_required: bool,
    pub auth_key: Option<String>,
    pub client_auth_key: Option<String>,
    pub client_authenticated: bool,
}

/// The whole in-memory database.
pub struct Db {
    pub dir: Table<KeyType>,
    pub kv: Table<ESValue>,
    pub json: Table<Json>,
    pub geo: Table<Vec<GeoPoint>>,
    pub rtree: Table<Vec<GeoPoint>>,
    pub expiry: Table<i64>,
    pub tombstones: Vec<String>,
    pub mutation_count: u64,
    pub last_save_time: i64,
    pub last_save_duration: u64,
    pub save_in_progress: bool,
}

impl Db {
    /// The KV store, as a map to value shapes.
    pub open spec fn kv_view(&self) -> Map<Seq<char>, ESValueV> {
        view_map(self.kv@, |v: ESValue| v@)
    }

    /// The document store, as a map to document shapes.
    pub open spec fn json_view(&self) -> Map<Seq<char>, JsonV> {
        view_map(self.json@, |v: Json| v@)
    }

    /// The geo store, as a map to point lists.
    pub open spec fn geo_view(&self) -> Map<Seq<char>, Seq<GeoPointV>> {
        view_map(self.geo@, |v: Vec<GeoPoint>| points_view(v@))
    }

    /// The spatial index, as a map to point lists.
    pub open spec fn rtree_view(&self) -> Map<Seq<char>, Seq<GeoPointV>> {
        view_map(self.rtree@, |v: Vec<GeoPoint>| points_view(v@))
    }

    /// The keyspace directory.
    pub open spec fn dir_view(&self) -> Map<Seq<char>, KeyType> {
        self.dir@
    }

    /// The expiration index.
    pub open spec fn expiry_view(&self) -> Map<Seq<char>, i64> {
        self.expiry@
    }

    /// The tombstone set: keys deleted since the last sweep.
    pub open spec fn tombstones_view(&self) -> Seq<Seq<char>> {
        self.tombstones@.map_values(|s: String| s@)
    }

    /// The single-family rule: a key is in a store exactly when the
    /// directory claims it for that family.
    pub open spec fn dir_matches(&self) -> bool {
        &&& forall|k: Seq<char>|
            #[trigger] self.kv@.contains_key(k) <==> (self.dir@.contains_key(k) && self.dir@[k]
                is KV)
        &&& forall|k: Seq<char>|
            #[trigger] self.json@.contains_key(k) <==> (self.dir@.contains_key(k) && self.dir@[k]
                is JSON)
        &&& forall|k: Seq<char>|
            #[trigger] self.geo@.contains_key(k) <==> (self.dir@.contains_key(k) && self.dir@[k]
                is GEO)
    }

    /// The spatial index mirrors the point sets exactly.
    pub open spec fn spatial_matches(&self) -> bool {
        &&& forall|k: Seq<char>|
            #[trigger] self.rtree@.contains_key(k) <==> self.geo@.contains_key(k)
        &&& forall|k: Seq<char>|
            #[trigger] self.geo@.contains_key(k) ==> points_view(self.rtree@[k]@) =~= points_view(
                self.geo@[k]@,
            )
    }

    /// Every point set keys its members by tag.
    pub open spec fn tags_unique(&self) -> bool {
        forall|k: Seq<char>|
            #[trigger] self.geo@.contains_key(k) ==> unique_tags(points_view(self.geo@[k]@))
    }

    /// The database invariant.
    pub open spec fn inv(&self) -> bool {
        &&& self.dir.wf()
        &&& self.kv.wf()
        &&& self.json.wf()
        &&& self.geo.wf()
        &&& self.rtree.wf()
        &&& self.expiry.wf()
        &&& self.dir_matches()
        &&& self.spatial_matches()
        &&& self.tags_unique()
    }

    /// The directory entry of a key, if any.
    pub open spec fn family_of(&self, k: Seq<char>) -> Option<KeyType> {
        if self.dir@.contains_key(k) {
            Some(self.dir@[k])
        } else {
            None
        }
    }

    /// A write of family `fam` to `k` must be refused.
    pub open spec fn wrong_family(&self, k: Seq<char>, fam: KeyType) -> bool {
        self.dir@.contains_key(k) && self.dir@[k] != fam
    }

    /// An empty database.
    pub fn new() -> (r: Db)
        ensures
            r.inv(),
            r.kv_view() =~= Map::<Seq<char>, ESValueV>::empty(),
            r.json_view() =~= Map::<Seq<char>, JsonV>::empty(),
            r.geo_view() =~= Map::<Seq<char>, Seq<GeoPointV>>::empty(),
            r.dir_view() =~= Map::<Seq<char>, KeyType>::empty(),
            r.expiry_view() =~= Map::<Seq<char>, i64>::empty(),
            r.tombstones_view() =~= Seq::<Seq<char>>::empty(),
            r.mutation_count == 0,
            r.last_save_time == 0,
            r.last_save_duration == 0,
            !r.save_in_progress,
    {
        Db {
            dir: Table::new(),
            kv: Table::new(),
            json: Table::new(),
            geo: Table::new(),
            rtree: Table::new(),
            expiry: Table::new(),
            tombstones: Vec::new(),
            mutation_count: 0,
            last_save_time: 0,
            last_save_duration: 0,
            save_in_progress: false,
        }
    }

    pub(crate) fn bump_mutations(&mut self)
        ensures
            final(self).mutation_count == spec_sat_add_u64(old(self).mutation_count, 1),
            *final(self) == (Db { mutation_count: final(self).mutation_count, ..*old(self) }),
    {
        self.mutation_count = if self.mutation_count < u64::MAX {
            self.mutation_count + 1
        } else {
            u64::MAX
        };
    }

    /// `SET key value [EX seconds]`: store unconditionally within the KV
    /// family; a cross-family write is refused untouched. A positive
    /// expiry registers `now + ex` in the expiration index.
    pub fn set(&mut self, key: &String, value: ESValue, ex: u64, now: i64) -> (r: Reply)
        requires
            old(self).inv(),
        ensures
            final(self).inv(),
            old(self).wrong_family(key@, KeyType::KV) ==> r == Reply::Error(ErrorKind::WrongType)
                && *final(self) == *old(self),
            !old(self).wrong_family(key@, KeyType::KV) ==> {
                &&& r == Reply::Okay
                &&& final(self).kv_view() =~= old(self).kv_view().insert(key@, value@)
                &&& final(self).dir_view() =~= old(self).dir_view().insert(key@, KeyType::KV)
                &&& final(self).expiry_view() =~= if ex > 0 {
                    old(self).expiry_view().insert(key@, sat_add(now, ex))
                } else {
                    old(self).expiry_view()
                }
                &&& final(self).json_view() =~= old(self).json_view()
                &&& final(self).geo_view() =~= old(self).geo_view()
                &&& final(self).tombstones_view() =~= old(self).tombstones_view()
                &&& counter_bumped(old(self), final(self))
            },
            same_save_clock(old(self), final(self)),
    {
        if let Some(fam) = self.dir.get(key) {
            if !matches!(fam, KeyType::KV) {
                return Reply::Error(ErrorKind::WrongType);
            }
        }
        if ex > 0 {
            let when = saturating_add_expiry(now, ex);
            self.expiry.insert(key, when);
        }
        let ghost kv0 = self.kv@;
        self.kv.insert(key, value);
        self.dir.insert(key, KeyType::KV);
        self.bump_mutations();
        proof {
            lemma_view_map_insert(kv0, |v: ESValue| v@, key@, value);
        }
        Reply::Okay
    }

    /// `GET key`: the stored value, `KEY_NOT_FOUND` when absent,
    /// `WRONGTYPE` when the key belongs to another family.
    pub fn get(&self, key: &String) -> (r: Reply)
        requires
            self.inv(),
        ensures
            self.wrong_family(key@, KeyType::KV) ==> r == Reply::Error(ErrorKind::WrongType),
            !self.wrong_family(key@, KeyType::KV) && self.kv_view().contains_key(key@)
                ==> reply_matches_value(self.kv_view()[key@], r),
            !self.wrong_family(key@, KeyType::KV) && !self.kv_view().contains_key(key@) ==> r
                == Reply::Error(ErrorKind::KeyNotFound),
    {
        if let Some(fam) = self.dir.get(key) {
            if !matches!(fam, KeyType::KV) {
                return Reply::Error(ErrorKind::WrongType);
            }
        }
        match self.kv.get(key) {
            Some(v) => match v {
                ESValue::String(s) => Reply::Bulk(s.clone()),
                ESValue::Int(i) => Reply::Int(*i),
            },
            None => Reply::Error(ErrorKind::KeyNotFound),
        }
    }

    /// `GETSET key value`: replace within the KV family and hand back the
    /// prior value, the empty string where there was none.
    pub fn get_set(&mut self, key: &String, value: ESValue) -> (r: Reply)
        requires
            old(self).inv(),
        ensures
            final(self).inv(),
            old(self).wrong_family(key@, KeyType::KV) ==> r == Reply::Error(ErrorKind::WrongType)
                && *final(self) == *old(self),
            !old(self).wrong_family(key@, KeyType::KV) ==> {
                &&& final(self).kv_view() =~= old(self).kv_view().insert(key@, value@)
                &&& final(self).dir_view() =~= old(self).dir_view().insert(key@, KeyType::KV)
                &&& final(self).json_view() =~= old(self).json_view()
                &&& final(self).geo_view() =~= old(self).geo_view()
                &&& final(self).expiry_view() =~= old(self).expiry_view()
                &&& counter_bumped(old(self), final(self))
                &&& (old(self).kv_view().contains_key(key@) ==> reply_matches_value(
                    old(self).kv_view()[key@],
                    r,
                ))
                &&& (!old(self).kv_view().contains_key(key@) ==> is_empty_bulk(r))
            },
            same_save_clock(old(self), final(self)),
    {
        if let Some(fam) = self.dir.get(key) {
            if !matches!(fam, KeyType::KV) {
                return Reply::Error(ErrorKind::WrongType);
            }
        }
        let prior = match self.kv.get(key) {
            Some(v) => match v {
                ESValue::String(s) => Reply::Bulk(s.clone()),
                ESValue::Int(i) => Reply::Int(*i),
            },
            None => Reply::Bulk(String::new()),
        };
        let ghost kv0 = self.kv@;
        self.kv.insert(key, value);
        self.dir.insert(key, KeyType::KV);
        self.bump_mutations();
        proof {
            lemma_view_map_insert(kv0, |v: ESValue| v@, key@, value);
        }
        prior
    }

    /// `DEL key`: remove a KV key, leave a tombstone, and report
    /// `KEY_NOT_FOUND` for an absent key.
    pub fn del(&mut self, key: &String) -> (r: Reply)
        requires
            old(self).inv(),
        ensures
            final(self).inv(),
            old(self).wrong_family(key@, KeyType::KV) ==> r == Reply::Error(ErrorKind::WrongType)
                && *final(self) == *old(self),
            !old(self).wrong_family(key@, KeyType::KV) ==> {
                &&& final(self).kv_view() =~= old(self).kv_view().remove(key@)
                &&& final(self).dir_view() =~= old(self).dir_view().remove(key@)
                &&& final(self).json_view() =~= old(self).json_view()
                &&& final(self).geo_view() =~= old(self).geo_view()
                &&& final(self).expiry_view() =~= old(self).expiry_view()
                &&& (old(self).kv_view().contains_key(key@) ==> r == Reply::Okay && final(self).tombstones_view() =~= old(self).tombstones_view().push(key@)
                    && counter_bumped(old(self), final(self)))
                &&& (!old(self).kv_view().contains_key(key@) ==> r == Reply::Error(
                    ErrorKind::KeyNotFound,
                ) && final(self).tombstones_view() =~= old(self).tombstones_view() && final(self).mutation_count == old(self).mutation_count)
            },
            same_save_clock(old(self), final(self)),
    {
        if let Some(fam) = self.dir.get(key) {
            if !matches!(fam, KeyType::KV) {
                return Reply::Error(ErrorKind::WrongType);
            }
        }
        let ghost kv0 = self.kv@;
        match self.kv.remove(key) {
            Some(_) => {
                self.dir.remove(key);
                self.tombstones.push(key.clone());
                self.bump_mutations();
                proof {
                    lemma_view_map_remove(kv0, |v: ESValue| v@, key@);
                }
                Reply::Okay
            },
            None => {
                self.dir.remove(key);
                proof {
                    lemma_view_map_remove(kv0, |v: ESValue| v@, key@);
                }
                Reply::Error(ErrorKind::KeyNotFound)
            },
        }
    }

    /// `EXISTS key...`: how many of the named keys the KV store holds.
    pub fn exists_count(&self, keys: &Vec<String>) -> (r: Reply)
        requires
            self.inv(),
            keys@.len() <= i64::MAX,
        ensures
            r == Reply::Int(count_present(self.kv_view(), keys@.map_values(|s: String| s@)) as i64),
    {
        let n = keys.len();
        let mut found: i64 = 0;
        let mut i: usize = 0;
        proof {
            assert(keys@.map_values(|s: String| s@).take(0) =~= Seq::<Seq<char>>::empty());
        }
        while i < n
            invariant
                self.inv(),
                0 <= i <= n,
                n == keys@.len() <= i64::MAX,
                0 <= found <= i,
                found == count_present(
                    self.kv_view(),
                    keys@.map_values(|s: String| s@).take(i as int),
                ),
            decreases n - i,
        {
            let ghost pre = keys@.map_values(|s: String| s@).take(i as int);
            let ghost post = keys@.map_values(|s: String| s@).take(i + 1);
            proof {
                assert(post.drop_last() =~= pre);
                assert(post.last() == keys@[i as int]@);
            }
            if self.kv.contains_key(&keys[i]) {
                found = found + 1;
            }
            i = i + 1;
        }
        proof {
            assert(keys@.map_values(|s: String| s@).take(n as int) =~= keys@.map_values(
                |s: String| s@,
            ));
        }
        Reply::Int(found)
    }

    /// `DBSIZE`: how many keys the three stores hold together.
    pub fn db_size(&self) -> (r: Reply)
        requires
            self.inv(),
            self.kv_view().dom().len() + self.json_view().dom().len()
                + self.geo_view().dom().len() <= i64::MAX,
        ensures
            r == Reply::Int(
                (self.kv_view().dom().len() + self.json_view().dom().len()
                    + self.geo_view().dom().len()) as i64,
            ),
    {
        proof {
            assert(self.kv_view().dom() =~= self.kv@.dom());
            assert(self.json_view().dom() =~= self.json@.dom());
            assert(self.geo_view().dom() =~= self.geo@.dom());
        }
        let a = self.kv.len() as u64;
        let b = self.json.len() as u64;
        let c = self.geo.len() as u64;
        Reply::Int((a + b + c) as i64)
    }

    /// `PERSIST key`: drop any expiry; the reply says whether one was
    /// there.
    pub fn persist(&mut self, key: &String) -> (r: Reply)
        requires
            old(self).inv(),
        ensures
            final(self).inv(),
            final(self).expiry_view() =~= old(self).expiry_view().remove(key@),
            r == Reply::Int(
                if old(self).expiry_view().contains_key(key@) {
                    1int as i64
                } else {
                    0int as i64
                },
            ),
            final(self).kv_view() =~= old(self).kv_view(),
            final(self).json_view() =~= old(self).json_view(),
            final(self).geo_view() =~= old(self).geo_view(),
            final(self).dir_view() =~= old(self).dir_view(),
            final(self).mutation_count == old(self).mutation_count,
            same_save_clock(old(self), final(self)),
    {
        match self.expiry.remove(key) {
            Some(_) => Reply::Int(1),
            None => Reply::Int(0),
        }
    }

    /// `TTL key`: `-1` for a key of another family or one without an
    /// expiry; otherwise the stored absolute expiry epoch.
    pub fn ttl(&self, key: &String) -> (r: Reply)
        requires
            self.inv(),
        ensures
            self.wrong_family(key@, KeyType::KV) ==> r == Reply::Int((-1) as i64),
            !self.wrong_family(key@, KeyType::KV) ==> r == Reply::Int(
                if self.expiry_view().contains_key(key@) {
                    self.expiry_view()[key@]
                } else {
                    (-1int) as i64
                },
            ),
    {
        if let Some(fam) = self.dir.get(key) {
            if !matches!(fam, KeyType::KV) {
                return Reply::Int(-1);
            }
        }
        match self.expiry.get(key) {
            Some(t) => Reply::Int(*t),
            None => Reply::Int(-1),
        }
    }

    /// `EXPIRE key seconds`: set the expiry `now + seconds` on a present
    /// KV key; the reply says whether it was set.
    pub fn expire(&mut self, key: &String, seconds: i64, now: i64) -> (r: Reply)
        requires
            old(self).inv(),
        ensures
            final(self).inv(),
            final(self).kv_view() =~= old(self).kv_view(),
            final(self).json_view() =~= old(self).json_view(),
            final(self).geo_view() =~= old(self).geo_view(),
            final(self).dir_view() =~= old(self).dir_view(),
            old(self).kv_view().contains_key(key@) && !old(self).wrong_family(key@, KeyType::KV)
                ==> r == Reply::Int(1) && final(self).expiry_view() =~= old(self).expiry_view().insert(key@, sat_add_i64(now, seconds as int)),
            !(old(self).kv_view().contains_key(key@) && !old(self).wrong_family(
                key@,
                KeyType::KV,
            )) ==> r == Reply::Int(0) && final(self).expiry_view() =~= old(self).expiry_view(),
            final(self).mutation_count == old(self).mutation_count,
            same_save_clock(old(self), final(self)),
    {
        if let Some(fam) = self.dir.get(key) {
            if !matches!(fam, KeyType::KV) {
                return Reply::Int(0);
            }
        }
        if !self.kv.contains_key(key) {
            return Reply::Int(0);
        }
        let when = if seconds >= 0 {
            saturating_add_expiry(now, seconds as u64)
        } else {
            saturating_sub_expiry(now, (-(seconds as i128)) as u64)
        };
        self.expiry.insert(key, when);
        Reply::Int(1)
    }

    /// `EXPIREAT key epoch`: set an absolute expiry on a present KV key;
    /// the reply says whether it was set.
    pub fn expire_at(&mut self, key: &String, epoch: i64) -> (r: Reply)
        requires
            old(self).inv(),
        ensures
            final(self).inv(),
            final(self).kv_view() =~= old(self).kv_view(),
            final(self).json_view() =~= old(self).json_view(),
            final(self).geo_view() =~= old(self).geo_view(),
            final(self).dir_view() =~= old(self).dir_view(),
            old(self).kv_view().contains_key(key@) && !old(self).wrong_family(key@, KeyType::KV)
                ==> r == Reply::Int(1) && final(self).expiry_view() =~= old(self).expiry_view().insert(key@, epoch),
            !(old(self).kv_view().contains_key(key@) && !old(self).wrong_family(
                key@,
                KeyType::KV,
            )) ==> r == Reply::Int(0) && final(self).expiry_view() =~= old(self).expiry_view(),
            final(self).mutation_count == old(self).mutation_count,
            same_save_clock(old(self), final(self)),
    {
        if let Some(fam) = self.dir.get(key) {
            if !matches!(fam, KeyType::KV) {
                return Reply::Int(0);
            }
        }
        if !self.kv.contains_key(key) {
            return Reply::Int(0);
        }
        self.expiry.insert(key, epoch);
        Reply::Int(1)
    }


    /// `INCRBY key n`: an absent key becomes the integer `n`; an integer
    /// adds with wrapping; numeric text is re-written as the sum's text;
    /// other text is refused. Integer replies carry the sum.
    pub fn incr_by(&mut self, key: &String, n: i64) -> (r: Reply)
        requires
            old(self).inv(),
        ensures
            final(self).inv(),
            old(self).wrong_family(key@, KeyType::KV) ==> r == Reply::Error(ErrorKind::WrongType)
                && *final(self) == *old(self),
            !old(self).wrong_family(key@, KeyType::KV) ==> {
                &&& final(self).dir_view() =~= old(self).dir_view().insert(key@, KeyType::KV)
                &&& final(self).json_view() =~= old(self).json_view()
                &&& final(self).geo_view() =~= old(self).geo_view()
                &&& final(self).expiry_view() =~= old(self).expiry_view()
                &&& (!old(self).kv_view().contains_key(key@) ==> r == Reply::Int(n) && final(self).kv_view() =~= old(self).kv_view().insert(key@, ESValueV::Int(n))
                    && counter_bumped(old(self), final(self)))
                &&& (old(self).kv_view().contains_key(key@) ==> match old(self).kv_view()[key@] {
                    ESValueV::Int(i) => r == Reply::Int(wrap_add(i, n)) && final(self).kv_view()
                        =~= old(self).kv_view().insert(key@, ESValueV::Int(wrap_add(i, n)))
                        && counter_bumped(old(self), final(self)),
                    ESValueV::Str(s) => match crate::numtext::spec_parse_i64(s) {
                        Some(d) => (r matches Reply::Bulk(t) && t@ == crate::numtext::spec_format_i64(
                            wrap_add(d, n) as int,
                        )) && final(self).kv_view() =~= old(self).kv_view().insert(
                            key@,
                            ESValueV::Str(crate::numtext::spec_format_i64(wrap_add(d, n) as int)),
                        ) && counter_bumped(old(self), final(self)),
                        None => r == Reply::Error(ErrorKind::NotInteger) && final(self).kv_view()
                            =~= old(self).kv_view() && final(self).mutation_count == old(self).mutation_count,
                    },
                })
            },
            same_save_clock(old(self), final(self)),
    {
        if let Some(fam) = self.dir.get(key) {
            if !matches!(fam, KeyType::KV) {
                return Reply::Error(ErrorKind::WrongType);
            }
        }
        let ghost kv0 = self.kv@;
        let current = self.kv.get(key);
        match current {
            None => {
                self.kv.insert(key, ESValue::Int(n));
                self.dir.insert(key, KeyType::KV);
                self.bump_mutations();
                proof {
                    lemma_view_map_insert(kv0, |v: ESValue| v@, key@, ESValue::Int(n));
                }
                Reply::Int(n)
            },
            Some(v) => match v {
                ESValue::Int(i) => {
                    let sum = i.wrapping_add(n);
                    self.kv.insert(key, ESValue::Int(sum));
                    self.dir.insert(key, KeyType::KV);
                    self.bump_mutations();
                    proof {
                        lemma_view_map_insert(kv0, |v: ESValue| v@, key@, ESValue::Int(sum));
                    }
                    Reply::Int(sum)
                },
                ESValue::String(text) => {
                    match crate::numtext::parse_i64(text.as_str()) {
                        Some(d) => {
                            let sum = d.wrapping_add(n);
                            let new_text = crate::numtext::format_i64(sum);
                            let stored = ESValue::String(new_text.clone());
                            self.kv.insert(key, stored);
                            self.dir.insert(key, KeyType::KV);
                            self.bump_mutations();
                            proof {
                                lemma_view_map_insert(
                                    kv0,
                                    |v: ESValue| v@,
                                    key@,
                                    ESValue::String(new_text),
                                );
                            }
                            Reply::Bulk(new_text)
                        },
                        None => {
                            self.dir.insert(key, KeyType::KV);
                            Reply::Error(ErrorKind::NotInteger)
                        },
                    }
                },
            },
        }
    }

    /// `INFO`: the key count of the KV store, as protocol text.
    pub fn info(&self) -> (r: Reply)
        requires
            self.inv(),
        ensures
            r matches Reply::Bulk(t) && t@ == "db0:keys="@ + crate::numtext::spec_format_nat(
                self.kv_view().dom().len(),
            ) + "\r\n"@,
    {
        proof {
            assert(self.kv_view().dom() =~= self.kv@.dom());
        }
        let count = self.kv.len() as u64;
        let mut out = "db0:keys=".to_owned();
        let digits = crate::numtext::format_u64(count);
        out.append(digits.as_str());
        out.append("\r\n");
        Reply::Bulk(out)
    }

    /// `FLUSHDB`: clear every store and raise the mutation counter by the
    /// total number of entries dropped, so the next scheduled snapshot
    /// captures the empty state.
    pub fn flush_db(&mut self) -> (r: Reply)
        requires
            old(self).inv(),
        ensures
            final(self).inv(),
            r == Reply::Okay,
            final(self).kv_view() =~= Map::<Seq<char>, ESValueV>::empty(),
            final(self).json_view() =~= Map::<Seq<char>, JsonV>::empty(),
            final(self).geo_view() =~= Map::<Seq<char>, Seq<GeoPointV>>::empty(),
            final(self).dir_view() =~= Map::<Seq<char>, KeyType>::empty(),
            final(self).expiry_view() =~= Map::<Seq<char>, i64>::empty(),
            final(self).tombstones_view() =~= Seq::<Seq<char>>::empty(),
            final(self).mutation_count == (if old(self).mutation_count + flush_total(old(self))
                <= u64::MAX {
                (old(self).mutation_count + flush_total(old(self))) as u64
            } else {
                u64::MAX
            }),
            same_save_clock(old(self), final(self)),
    {
        proof {
            crate::table::lemma_map_of_dom_len(self.kv.entries@);
            crate::table::lemma_map_of_dom_len(self.expiry.entries@);
            crate::table::lemma_map_of_dom_len(self.rtree.entries@);
            crate::table::lemma_map_of_dom_len(self.geo.entries@);
            crate::table::lemma_map_of_dom_len(self.json.entries@);
            assert(self.kv_view().dom() =~= self.kv@.dom());
            assert(self.expiry_view().dom() =~= self.expiry@.dom());
            assert(self.rtree_view().dom() =~= self.rtree@.dom());
            assert(self.geo_view().dom() =~= self.geo@.dom());
            assert(self.json_view().dom() =~= self.json@.dom());
        }
        let a = self.kv.len() as u64;
        let b = self.expiry.len() as u64;
        let c = self.rtree.len() as u64;
        let d = self.geo.len() as u64;
        let e = self.json.len() as u64;
        let total: u64 = saturating_add_u64(
            saturating_add_u64(saturating_add_u64(saturating_add_u64(a, b), c), d),
            e,
        );
        proof {
            assert(total == (if a + b + c + d + e <= u64::MAX {
                (a + b + c + d + e) as u64
            } else {
                u64::MAX
            }));
        }
        self.mutation_count = saturating_add_u64(self.mutation_count, total);
        self.dir.clear();
        self.kv.clear();
        self.json.clear();
        self.geo.clear();
        self.rtree.clear();
        self.expiry.clear();
        self.tombstones.clear();
        Reply::Okay
    }

    /// One expiration sweep: delete from the KV store every key whose
    /// registered expiry is not after `now`. The expiration index itself
    /// is purged separately, by `remove_expired_keys`.
    #[verifier::loop_isolation(false)]
    pub fn expire_tick(&mut self, now: i64)
        requires
            old(self).inv(),
        ensures
            final(self).inv(),
            forall|k: Seq<char>|
                old(self).expiry_view().contains_key(k) && old(self).expiry_view()[k] <= now
                    ==> !final(self).kv_view().contains_key(k),
            forall|k: Seq<char>|
                #[trigger] final(self).kv_view().contains_key(k) ==> old(self).kv_view().contains_key(k) && final(self).kv_view()[k] == old(self).kv_view()[k],
            forall|k: Seq<char>|
                old(self).kv_view().contains_key(k) && !(old(self).expiry_view().contains_key(k)
                    && old(self).expiry_view()[k] <= now) ==> final(self).kv_view().contains_key(
                    k,
                ),
            forall|k: Seq<char>|
                old(self).tombstones_view().contains(k) ==> final(self).tombstones_view().contains(
                    k,
                ),
            forall|k: Seq<char>|
                old(self).kv_view().contains_key(k) && old(self).expiry_view().contains_key(k)
                    && old(self).expiry_view()[k] <= now ==> final(self).tombstones_view().contains(k),
            forall|k: Seq<char>|
                #[trigger] final(self).tombstones_view().contains(k) ==> old(self).tombstones_view().contains(k) || (old(self).kv_view().contains_key(k) && old(self).expiry_view().contains_key(k) && old(self).expiry_view()[k] <= now),
            final(self).mutation_count >= old(self).mutation_count,
            same_save_clock(old(self), final(self)),
            final(self).json_view() =~= old(self).json_view(),
            final(self).geo_view() =~= old(self).geo_view(),
            final(self).expiry_view() =~= old(self).expiry_view(),
    {
        let ghost ent0 = self.expiry.entries@;
        let n = self.expiry.entry_count();
        let mut due: Vec<String> = Vec::new();
        let mut i: usize = 0;
        while i < n
            invariant
                self.inv(),
                0 <= i <= n,
                *self == *old(self),
                self.expiry.entries@ == ent0,
                n == self.expiry.entries@.len(),
                self.expiry.wf(),
                forall|j: int|
                    0 <= j < due@.len() ==> self.expiry_view().contains_key(#[trigger] due@[j]@)
                        && self.expiry_view()[due@[j]@] <= now,
                forall|m: int|
                    0 <= m < due@.len() ==> exists|j: int|
                        0 <= j < i && #[trigger] due@[m]@ == ent0[j].0@,
                forall|a: int, b: int| 0 <= a < b < due@.len() ==> due@[a]@ != due@[b]@,
                forall|j: int|
                    0 <= j < i ==> (self.expiry.entries@[j].1 <= now ==> exists|m: int|
                        0 <= m < due@.len() && #[trigger] due@[m]@ == self.expiry.entries@[j].0@),
            decreases n - i,
        {
            let (k, t) = self.expiry.entry_at(i);
            if *t <= now {
                proof {
                    crate::table::lemma_map_of_index(self.expiry.entries@, i as int);
                }
                let ghost due0 = due@;
                let kc = k.clone();
                due.push(kc);
                proof {
                    assert(due@.drop_last() =~= due0);
                    assert(due@.last()@ == ent0[i as int].0@);
                    assert forall|j: int|
                        0 <= j < i + 1 && ent0[j].1 <= now implies exists|m: int|
                        0 <= m < due@.len() && #[trigger] due@[m]@ == ent0[j].0@ by {
                        if j < i {
                            let m = choose|m: int|
                                0 <= m < due0.len() && #[trigger] due0[m]@ == ent0[j].0@;
                            assert(due@[m]@ == ent0[j].0@);
                        } else {
                            assert(due@[due@.len() - 1]@ == ent0[j].0@);
                        }
                    }
                    assert forall|m: int| 0 <= m < due@.len() implies exists|j: int|
                        0 <= j < i + 1 && #[trigger] due@[m]@ == ent0[j].0@ by {
                        if m < due0.len() {
                            assert(due@[m] == due0[m]);
                            let j = choose|j: int| 0 <= j < i && #[trigger] due0[m]@ == ent0[j].0@;
                            assert(due@[m]@ == ent0[j].0@);
                        } else {
                            assert(due@[m]@ == ent0[i as int].0@);
                        }
                    }
                    assert forall|a: int, b: int|
                        0 <= a < b < due@.len() implies due@[a]@ != due@[b]@ by {
                        if b < due0.len() {
                            assert(due@[a] == due0[a] && due@[b] == due0[b]);
                        } else {
                            assert(due@[a] == due0[a]);
                            let ja = choose|j: int|
                                0 <= j < i && #[trigger] due0[a]@ == ent0[j].0@;
                            assert(due@[b]@ == ent0[i as int].0@);
                            assert(ent0[ja].0@ != ent0[i as int].0@);
                        }
                    }
                }
            }
            i = i + 1;
        }
        let m = due.len();
        let ghost exp0 = self.expiry@;
        let ghost due_facts = due@;
        let ghost tomb0 = self.tombstones_view();
        let mut idx: usize = 0;
        while idx < m
            invariant
                self.inv(),
                0 <= idx <= m,
                m == due@.len(),
                due@ == due_facts,
                forall|j: int|
                    0 <= j < ent0.len() ==> (ent0[j].1 <= now ==> exists|mm: int|
                        0 <= mm < due@.len() && #[trigger] due@[mm]@ == ent0[j].0@),
                forall|j: int|
                    0 <= j < due@.len() ==> exp0.contains_key(#[trigger] due@[j]@)
                        && exp0[due@[j]@] <= now,
                forall|a: int, b: int| 0 <= a < b < due@.len() ==> due@[a]@ != due@[b]@,
                forall|j: int|
                    0 <= j < idx ==> !self.kv_view().contains_key(#[trigger] due@[j]@),
                forall|k: Seq<char>|
                    #[trigger] self.kv_view().contains_key(k) ==> old(self).kv_view().contains_key(k) && self.kv_view()[k] == old(self).kv_view()[k],
                forall|k: Seq<char>|
                    old(self).kv_view().contains_key(k) && !(exists|j: int|
                        0 <= j < idx && #[trigger] due@[j]@ == k) ==> self.kv_view().contains_key(
                        k,
                    ),
                forall|k: Seq<char>| tomb0.contains(k) ==> self.tombstones_view().contains(k),
                forall|j: int|
                    0 <= j < idx ==> (old(self).kv_view().contains_key(#[trigger] due@[j]@)
                        ==> self.tombstones_view().contains(due@[j]@)),
                forall|k: Seq<char>|
                    #[trigger] self.tombstones_view().contains(k) ==> tomb0.contains(k) || (exists|
                        j: int,
                    |
                        0 <= j < idx && #[trigger] due@[j]@ == k && old(self).kv_view().contains_key(k)),
                self.mutation_count >= old(self).mutation_count,
                same_save_clock(old(self), self),
                self.json_view() =~= old(self).json_view(),
                self.geo_view() =~= old(self).geo_view(),
                self.expiry_view() =~= old(self).expiry_view(),
            decreases m - idx,
        {
            let ghost prev_tombs = self.tombstones_view();
            let ghost prev_kv = self.kv_view();
            let ghost prev_mc = self.mutation_count;
            let key = &due[idx];
            let _ = self.del(key);
            proof {
                let kk = due@[idx as int]@;
                if prev_kv.contains_key(kk) {
                    assert(self.tombstones_view() =~= prev_tombs.push(kk));
                    assert forall|k: Seq<char>| #[trigger]
                        self.tombstones_view().contains(k) implies prev_tombs.contains(k) || k
                        == kk by {
                        let ix = choose|ix: int|
                            0 <= ix < self.tombstones_view().len()
                                && self.tombstones_view()[ix] == k;
                        if ix < prev_tombs.len() {
                            assert(prev_tombs[ix] == k);
                        }
                    }
                    assert forall|k: Seq<char>| prev_tombs.contains(k) implies #[trigger]
                        self.tombstones_view().contains(k) by {
                        let ix = choose|ix: int|
                            0 <= ix < prev_tombs.len() && prev_tombs[ix] == k;
                        assert(self.tombstones_view()[ix] == k);
                    }
                    assert(self.tombstones_view()[prev_tombs.len() as int] == kk);
                    assert(self.tombstones_view().contains(kk));
                } else {
                    assert(self.tombstones_view() =~= prev_tombs);
                    assert forall|j: int|
                        0 <= j < idx + 1 implies (old(self).kv_view().contains_key(
                        #[trigger] due@[j]@,
                    ) ==> self.tombstones_view().contains(due@[j]@)) by {
                        if j == idx && old(self).kv_view().contains_key(due@[j]@) {
                            assert(!(exists|x: int| 0 <= x < idx && #[trigger] due@[x]@ == kk));
                            assert(prev_kv.contains_key(kk));
                        }
                    }
                }
            }
            idx = idx + 1;
        }
        proof {
            assert forall|k: Seq<char>|
                old(self).expiry_view().contains_key(k) && old(self).expiry_view()[k]
                    <= now implies !self.kv_view().contains_key(k) by {
                crate::table::lemma_map_of_contains(ent0);
                let j = choose|j: int| 0 <= j < ent0.len() && ent0[j].0@ == k;
                crate::table::lemma_map_of_index(ent0, j);
                assert(ent0[j].1 <= now);
                let mm = choose|mm: int| 0 <= mm < due@.len() && #[trigger] due@[mm]@
                    == ent0[j].0@;
                assert(!self.kv_view().contains_key(due@[mm]@));
            }
            assert forall|k: Seq<char>|
                old(self).kv_view().contains_key(k) && old(self).expiry_view().contains_key(k)
                    && old(self).expiry_view()[k] <= now implies self.tombstones_view().contains(
                k,
            ) by {
                crate::table::lemma_map_of_contains(ent0);
                let j = choose|j: int| 0 <= j < ent0.len() && ent0[j].0@ == k;
                crate::table::lemma_map_of_index(ent0, j);
                assert(ent0[j].1 <= now);
                let mm = choose|mm: int| 0 <= mm < due@.len() && #[trigger] due@[mm]@
                    == ent0[j].0@;
                assert(self.tombstones_view().contains(due@[mm]@));
            }
            assert forall|k: Seq<char>| #[trigger]
                self.tombstones_view().contains(k) implies old(self).tombstones_view().contains(k)
                || (old(self).kv_view().contains_key(k) && old(self).expiry_view().contains_key(k)
                && old(self).expiry_view()[k] <= now) by {
                if !old(self).tombstones_view().contains(k) {
                    let j = choose|j: int|
                        0 <= j < m && #[trigger] due@[j]@ == k && old(self).kv_view().contains_key(k);
                    assert(exp0.contains_key(k) && exp0[k] <= now);
                }
            }
        }
    }

    /// Purge from the expiration index every key deleted this tick.
    #[verifier::loop_isolation(false)]
    pub fn remove_expired_keys(&mut self)
        requires
            old(self).inv(),
        ensures
            final(self).inv(),
            forall|k: Seq<char>|
                #[trigger] final(self).expiry_view().contains_key(k) ==> old(self).expiry_view().contains_key(k) && final(self).expiry_view()[k] == old(self).expiry_view()[k],
            forall|k: Seq<char>|
                old(self).tombstones_view().contains(k) ==> !final(self).expiry_view().contains_key(k),
            forall|k: Seq<char>|
                old(self).expiry_view().contains_key(k) && !old(self).tombstones_view().contains(
                    k,
                ) ==> final(self).expiry_view().contains_key(k),
            final(self).kv_view() =~= old(self).kv_view(),
            final(self).json_view() =~= old(self).json_view(),
            final(self).geo_view() =~= old(self).geo_view(),
            final(self).dir_view() =~= old(self).dir_view(),
            final(self).tombstones_view() =~= old(self).tombstones_view(),
            final(self).mutation_count == old(self).mutation_count,
            same_save_clock(old(self), final(self)),
    {
        let ghost exp_base = self.expiry@;
        let ghost tomb_base = self.tombstones@;
        let n = self.tombstones.len();
        let mut i: usize = 0;
        while i < n
            invariant
                self.inv(),
                0 <= i <= n,
                n == self.tombstones@.len(),
                self.tombstones@ == tomb_base,
                forall|k: Seq<char>|
                    #[trigger] self.expiry@.contains_key(k) ==> exp_base.contains_key(k)
                        && self.expiry@[k] == exp_base[k],
                forall|j: int|
                    0 <= j < i ==> !self.expiry@.contains_key(#[trigger] tomb_base[j]@),
                forall|k: Seq<char>|
                    exp_base.contains_key(k) && !(exists|j: int|
                        0 <= j < i && #[trigger] tomb_base[j]@ == k) ==> self.expiry@.contains_key(
                        k,
                    ),
                self.kv_view() =~= old(self).kv_view(),
                self.json_view() =~= old(self).json_view(),
                self.geo_view() =~= old(self).geo_view(),
                self.dir_view() =~= old(self).dir_view(),
                self.mutation_count == old(self).mutation_count,
                same_save_clock(old(self), self),
            decreases n - i,
        {
            let key = self.tombstones[i].clone();
            let ghost prev = self.expiry@;
            self.expiry.remove(&key);
            proof {
                assert(key@ == tomb_base[i as int]@);
                assert(self.expiry@ =~= prev.remove(key@));
            }
            i = i + 1;
        }
        proof {
            assert forall|k: Seq<char>|
                old(self).tombstones_view().contains(k) implies !self.expiry_view().contains_key(
                k,
            ) by {
                let j = choose|j: int|
                    0 <= j < old(self).tombstones_view().len() && old(self).tombstones_view()[j]
                        == k;
                assert(tomb_base[j]@ == k);
            }
            assert forall|k: Seq<char>|
                old(self).expiry_view().contains_key(k) && !old(self).tombstones_view().contains(
                    k,
                ) implies self.expiry_view().contains_key(k) by {
                if exists|j: int| 0 <= j < n && #[trigger] tomb_base[j]@ == k {
                    let j = choose|j: int| 0 <= j < n && #[trigger] tomb_base[j]@ == k;
                    assert(old(self).tombstones_view()[j] == k);
                    assert(old(self).tombstones_view().contains(k));
                }
            }
        }
    }

    /// Clear the tombstone set, as the slow tick does.
    pub fn tombstone_tick(&mut self)
        requires
            old(self).inv(),
        ensures
            final(self).inv(),
            final(self).tombstones_view() =~= Seq::<Seq<char>>::empty(),
            final(self).kv_view() =~= old(self).kv_view(),
            final(self).json_view() =~= old(self).json_view(),
            final(self).geo_view() =~= old(self).geo_view(),
            final(self).dir_view() =~= old(self).dir_view(),
            final(self).expiry_view() =~= old(self).expiry_view(),
            final(self).mutation_count == old(self).mutation_count,
            same_save_clock(old(self), final(self)),
    {
        self.tombstones.clear();
    }

    /// Whether the scheduled snapshot should run.
    pub fn should_save(&self, threshold: u64) -> (r: bool)
        ensures
            r == (self.mutation_count >= threshold),
    {
        self.mutation_count >= threshold
    }

    pub fn get_mutation_count(&self) -> (r: u64)
        ensures
            r == self.mutation_count,
    {
        self.mutation_count
    }

    pub fn is_save_in_progress(&self) -> (r: bool)
        ensures
            r == self.save_in_progress,
    {
        self.save_in_progress
    }

    pub fn set_save_in_progress(&mut self, b: bool)
        ensures
            *final(self) == (Db { save_in_progress: b, ..*old(self) }),
    {
        self.save_in_progress = b;
    }

    /// Record a completed snapshot: the mutation counter restarts and the
    /// save clock advances.
    pub fn mark_saved(&mut self, now: i64, duration_ms: u64)
        ensures
            *final(self) == (Db {
                mutation_count: 0,
                last_save_time: now,
                last_save_duration: duration_ms,
                ..*old(self)
            }),
    {
        self.mutation_count = 0;
        self.last_save_time = now;
        self.last_save_duration = duration_ms;
    }

    /// `LASTSAVE`: the epoch of the last completed snapshot.
    pub fn last_save(&self) -> (r: Reply)
        ensures
            r == Reply::Int(self.last_save_time),
    {
        Reply::Int(self.last_save_time)
    }
}

/// `a + b` with the top value as the ceiling.
pub open spec fn spec_sat_add_u64(a: u64, b: u64) -> u64 {
    if a + b <= u64::MAX {
        (a + b) as u64
    } else {
        u64::MAX
    }
}

fn saturating_add_u64(a: u64, b: u64) -> (r: u64)
    ensures
        r == spec_sat_add_u64(a, b),
{
    if a <= u64::MAX - b {
        a + b
    } else {
        u64::MAX
    }
}

/// Wrapping 64-bit addition, the arithmetic `INCRBY` uses.
pub open spec fn wrap_add(a: i64, n: i64) -> i64 {
    if a + n > i64::MAX {
        (a + n - 0x1_0000_0000_0000_0000) as i64
    } else if a + n < i64::MIN {
        (a + n + 0x1_0000_0000_0000_0000) as i64
    } else {
        (a + n) as i64
    }
}

/// `now + ex` seconds, capped at the far future.
pub open spec fn sat_add(now: i64, ex: u64) -> i64 {
    if now + ex <= i64::MAX {
        (now + ex) as i64
    } else {
        i64::MAX
    }
}

/// `now + seconds`, capped at both ends.
pub open spec fn sat_add_i64(now: i64, seconds: int) -> i64 {
    if now + seconds > i64::MAX {
        i64::MAX
    } else if now + seconds < i64::MIN {
        i64::MIN
    } else {
        (now + seconds) as i64
    }
}

/// How many of the listed keys are in the map.
pub open spec fn count_present(m: Map<Seq<char>, ESValueV>, keys: Seq<Seq<char>>) -> int
    decreases keys.len(),
{
    if keys.len() == 0 {
        0
    } else {
        count_present(m, keys.drop_last()) + if m.contains_key(keys.last()) {
            1int
        } else {
            0int
        }
    }
}

fn saturating_add_expiry(now: i64, ex: u64) -> (r: i64)
    ensures
        r == sat_add(now, ex),
{
    let wide: i128 = now as i128 + ex as i128;
    if wide > i64::MAX as i128 {
        i64::MAX
    } else {
        wide as i64
    }
}

fn saturating_sub_expiry(now: i64, back: u64) -> (r: i64)
    requires
        back <= 9223372036854775808u64,
    ensures
        r == sat_add_i64(now, -(back as int)),
{
    let wide: i128 = now as i128 - back as i128;
    if wide < i64::MIN as i128 {
        i64::MIN
    } else {
        wide as i64
    }
}


/// `SET K V; GET K` observes `V`, and a second `SET K V2` makes `GET`
/// observe `V2`: the write is the value the read reports.
pub proof fn lemma_set_then_get(before: &Db, after: &Db, k: Seq<char>, v: ESValueV, r: Reply)
    requires
        after.kv_view() == before.kv_view().insert(k, v),
        after.dir_view() == before.dir_view().insert(k, KeyType::KV),
        !after.wrong_family(k, KeyType::KV) && after.kv_view().contains_key(k)
            ==> reply_matches_value(after.kv_view()[k], r),
    ensures
        reply_matches_value(v, r),
{
    assert(after.kv_view().contains_key(k));
    assert(after.kv_view()[k] == v);
    assert(!after.wrong_family(k, KeyType::KV));
}

/// `INCRBY K 0` is a no-op on a stored integer, and on an absent key it
/// only creates `K = 0`; a textual numeric value is re-written in
/// canonical form, so non-canonical text such as a leading zero falls
/// outside this law.
pub proof fn lemma_incr_by_zero(m: Map<Seq<char>, ESValueV>, k: Seq<char>)
    requires
        m.contains_key(k) ==> m[k] is Int,
    ensures
        m.contains_key(k) ==> m.insert(k, ESValueV::Int(wrap_add(m[k]->Int_0, 0))) =~= m,
        !m.contains_key(k) ==> m.insert(k, ESValueV::Int(0)).remove(k) =~= m,
{
    if m.contains_key(k) {
        assert(wrap_add(m[k]->Int_0, 0) == m[k]->Int_0);
    }
}



/// At most one of the three stores holds any key, and the directory entry
/// names exactly the store that does: the single-family rule, spelled out
/// for one key from the invariant every handler maintains.
pub proof fn lemma_single_family(db: &Db, k: Seq<char>)
    requires
        db.inv(),
    ensures
        !(db.kv_view().contains_key(k) && db.json_view().contains_key(k)),
        !(db.kv_view().contains_key(k) && db.geo_view().contains_key(k)),
        !(db.json_view().contains_key(k) && db.geo_view().contains_key(k)),
        db.kv_view().contains_key(k) <==> (db.dir_view().contains_key(k) && db.dir_view()[k]
            is KV),
        db.json_view().contains_key(k) <==> (db.dir_view().contains_key(k) && db.dir_view()[k]
            is JSON),
        db.geo_view().contains_key(k) <==> (db.dir_view().contains_key(k) && db.dir_view()[k]
            is GEO),
        db.dir_view().contains_key(k) ==> db.kv_view().contains_key(k)
            || db.json_view().contains_key(k) || db.geo_view().contains_key(k),
{
    assert(db.kv_view().contains_key(k) == db.kv@.contains_key(k));
    assert(db.json_view().contains_key(k) == db.json@.contains_key(k));
    assert(db.geo_view().contains_key(k) == db.geo@.contains_key(k));
}


} // verus!
