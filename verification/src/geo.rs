//! Geospatial points. Coordinates are fixed-point micro-degrees, so the
//! stored values are exact integers; the geohash is a derived attribute
//! computed by the caller at insertion and read-only afterwards.

use vstd::prelude::*;

verus! {

broadcast use vstd::seq::group_seq_axioms;

/// A tagged point of a per-key point set. The tag is the member's
/// identity within its set.
#[derive(Debug, PartialEq, Eq)]
pub struct GeoPoint {
    pub tag: String,
    pub lat_e6: i64,
    pub lng_e6: i64,
    pub hash: String,
}

/// The mathematical shape of a point.
#[verifier::ext_equal]
pub struct GeoPointV {
    pub tag: Seq<char>,
    pub lat_e6: i64,
    pub lng_e6: i64,
    pub hash: Seq<char>,
}

impl View for GeoPoint {
    type V = GeoPointV;

    open spec fn view(&self) -> GeoPointV {
        GeoPointV { tag: self.tag@, lat_e6: self.lat_e6, lng_e6: self.lng_e6, hash: self.hash@ }
    }
}

impl GeoPoint {
    pub fn new(tag: String, lat_e6: i64, lng_e6: i64, hash: String) -> (r: GeoPoint)
        ensures
            r@ == (GeoPointV { tag: tag@, lat_e6, lng_e6, hash: hash@ }),
    {
        GeoPoint { tag, lat_e6, lng_e6, hash }
    }

    /// A verified deep copy.
    pub fn duplicate(&self) -> (r: GeoPoint)
        ensures
            r@ == self@,
    {
        GeoPoint {
            tag: self.tag.clone(),
            lat_e6: self.lat_e6,
            lng_e6: self.lng_e6,
            hash: self.hash.clone(),
        }
    }
}

/// The views of a point list.
pub open spec fn points_view(s: Seq<GeoPoint>) -> Seq<GeoPointV> {
    s.map_values(|p: GeoPoint| p@)
}

/// No two points of one set share a tag.
pub open spec fn unique_tags(s: Seq<GeoPointV>) -> bool {
    forall|i: int, j: int| 0 <= i < j < s.len() ==> s[i].tag != s[j].tag
}

/// The index of the first point with this tag, or -1.
pub open spec fn tag_index_of(s: Seq<GeoPointV>, tag: Seq<char>) -> int
    decreases s.len(),
{
    if s.len() == 0 {
        -1
    } else if s[0].tag == tag {
        0
    } else {
        let r = tag_index_of(s.skip(1), tag);
        if r == -1 {
            -1
        } else {
            r + 1
        }
    }
}

pub proof fn lemma_tag_index_of(s: Seq<GeoPointV>, tag: Seq<char>)
    ensures
        tag_index_of(s, tag) == -1 ==> forall|i: int| 0 <= i < s.len() ==> s[i].tag != tag,
        tag_index_of(s, tag) != -1 ==> {
            let k = tag_index_of(s, tag);
            &&& 0 <= k < s.len()
            &&& s[k].tag == tag
            &&& forall|i: int| 0 <= i < k ==> s[i].tag != tag
        },
    decreases s.len(),
{
    if s.len() > 0 && s[0].tag != tag {
        lemma_tag_index_of(s.skip(1), tag);
        let r = tag_index_of(s.skip(1), tag);
        if r == -1 {
            assert forall|i: int| 0 <= i < s.len() implies s[i].tag != tag by {
                if i > 0 {
                    assert(s.skip(1)[i - 1] == s[i]);
                }
            }
        } else {
            assert(s.skip(1)[r] == s[r + 1]);
            assert forall|i: int| 0 <= i < r + 1 implies s[i].tag != tag by {
                if i > 0 {
                    assert(s.skip(1)[i - 1] == s[i]);
                }
            }
        }
    }
}

/// The first point with this tag, as the handlers look it up.
pub fn find_tag(points: &Vec<GeoPoint>, tag: &String) -> (r: Option<usize>)
    ensures
        match r {
            Some(k) => 0 <= k < points@.len() && tag_index_of(points_view(points@), tag@)
                == k as int,
            None => tag_index_of(points_view(points@), tag@) == -1,
        },
{
    let n = points.len();
    let mut i: usize = 0;
    while i < n
        invariant
            0 <= i <= n,
            n == points@.len(),
            forall|j: int| 0 <= j < i ==> points@[j].tag@ != tag@,
        decreases n - i,
    {
        if points[i].tag == *tag {
            proof {
                lemma_tag_index_of(points_view(points@), tag@);
                assert(points_view(points@)[i as int].tag == tag@);
            }
            return Some(i);
        }
        i = i + 1;
    }
    proof {
        lemma_tag_index_of(points_view(points@), tag@);
        let d = tag_index_of(points_view(points@), tag@);
        if d != -1 {
            assert(points_view(points@)[d].tag == tag@);
            assert(points@[d].tag@ == tag@);
        }
    }
    None
}

/// A verified deep copy of a point list.
pub fn duplicate_points(points: &Vec<GeoPoint>) -> (r: Vec<GeoPoint>)
    ensures
        points_view(r@) =~= points_view(points@),
{
    let n = points.len();
    let mut out: Vec<GeoPoint> = Vec::new();
    let mut i: usize = 0;
    while i < n
        invariant
            0 <= i <= n,
            n == points@.len(),
            out@.len() == i,
            forall|j: int| 0 <= j < i ==> out@[j]@ == points@[j]@,
        decreases n - i,
    {
        out.push(points[i].duplicate());
        i = i + 1;
    }
    out
}

use crate::db::{Db, lemma_view_map_insert, counter_bumped, same_save_clock};
use crate::reply::{ErrorKind, KeyType, Reply};
use crate::json::{Json, JsonV};

impl Db {
    /// `GEOADD key (point)...`: merge the points into the key's set — a
    /// tag already present is replaced — and rebuild the spatial index
    /// from the new set. The key is claimed for the geo family.
    pub fn geo_add(&mut self, key: &String, points: Vec<GeoPoint>) -> (r: Reply)
        requires
            old(self).inv(),
        ensures
            final(self).inv(),
            old(self).wrong_family(key@, KeyType::GEO) ==> r == Reply::Error(ErrorKind::WrongType)
                && *final(self) == *old(self),
            !old(self).wrong_family(key@, KeyType::GEO) ==> {
                &&& r == Reply::Okay
                &&& final(self).geo_view() =~= old(self).geo_view().insert(
                    key@,
                    merge_points(
                        if old(self).geo_view().contains_key(key@) {
                            old(self).geo_view()[key@]
                        } else {
                            Seq::empty()
                        },
                        points_view(points@),
                    ),
                )
                &&& final(self).rtree_view() =~= final(self).geo_view()
                &&& final(self).dir_view() =~= old(self).dir_view().insert(key@, KeyType::GEO)
                &&& final(self).kv_view() =~= old(self).kv_view()
                &&& final(self).json_view() =~= old(self).json_view()
                &&& final(self).expiry_view() =~= old(self).expiry_view()
                &&& counter_bumped(old(self), final(self))
            },
            same_save_clock(old(self), final(self)),
    {
        if let Some(fam) = self.dir.get(key) {
            if !matches!(fam, KeyType::GEO) {
                return Reply::Error(ErrorKind::WrongType);
            }
        }
        let mut set: Vec<GeoPoint> = match self.geo.get(key) {
            Some(existing) => duplicate_points(existing),
            None => Vec::new(),
        };
        let ghost base = points_view(set@);
        proof {
            if old(self).geo_view().contains_key(key@) {
                assert(base =~= old(self).geo_view()[key@]);
            } else {
                assert(base =~= Seq::<GeoPointV>::empty());
            }
            assert(merge_points(base, points_view(points@).take(0)) =~= base);
        }
        let n = points.len();
        let mut i: usize = 0;
        while i < n
            invariant
                0 <= i <= n,
                n == points@.len(),
                unique_tags(base) ==> unique_tags(points_view(set@)),
                points_view(set@) =~= merge_points(base, points_view(points@).take(i as int)),
            decreases n - i,
        {
            let ghost pre = points_view(points@).take(i as int);
            let ghost post = points_view(points@).take(i + 1);
            proof {
                assert(post.drop_last() =~= pre);
                assert(post.last() == points@[i as int]@);
            }
            let p = points[i].duplicate();
            replace_point(&mut set, p);
            i = i + 1;
        }
        proof {
            assert(points_view(points@).take(n as int) =~= points_view(points@));
        }
        let copy = duplicate_points(&set);
        let ghost g0 = self.geo@;
        let ghost r0 = self.rtree@;
        self.geo.insert(key, set);
        self.rtree.insert(key, copy);
        self.dir.insert(key, KeyType::GEO);
        self.bump_mutations();
        proof {
            lemma_view_map_insert(g0, |v: Vec<GeoPoint>| points_view(v@), key@, self.geo@[key@]);
            lemma_view_map_insert(r0, |v: Vec<GeoPoint>| points_view(v@), key@, self.rtree@[key@]);
            assert(self.rtree_view() =~= self.geo_view());
        }
        Reply::Okay
    }
}

/// The set after inserting each new point in order, a matching tag
/// replacing the old point in place.
pub open spec fn merge_points(base: Seq<GeoPointV>, incoming: Seq<GeoPointV>) -> Seq<GeoPointV>
    decreases incoming.len(),
{
    if incoming.len() == 0 {
        base
    } else {
        let done = merge_points(base, incoming.drop_last());
        let p = incoming.last();
        let k = tag_index_of(done, p.tag);
        if k == -1 {
            done.push(p)
        } else {
            done.update(k, p)
        }
    }
}

/// Insert one point, replacing the point with its tag if one is there.
fn replace_point(set: &mut Vec<GeoPoint>, p: GeoPoint)
    ensures
        points_view(final(set)@) =~= {
            let k = tag_index_of(points_view(old(set)@), p@.tag);
            if k == -1 {
                points_view(old(set)@).push(p@)
            } else {
                points_view(old(set)@).update(k, p@)
            }
        },
        unique_tags(points_view(old(set)@)) ==> unique_tags(points_view(final(set)@)),
{
    let ghost before = points_view(set@);
    proof {
        lemma_tag_index_of(before, p@.tag);
    }
    match find_tag(set, &p.tag) {
        Some(k) => {
            set[k] = p;
            proof {
                assert forall|m: int| 0 <= m < before.len() implies points_view(set@)[m]
                    == before.update(tag_index_of(before, p@.tag), p@)[m] by {}
                assert(points_view(set@) =~= before.update(tag_index_of(before, p@.tag), p@));
                assert(unique_tags(before) ==> unique_tags(points_view(set@)));
            }
        },
        None => {
            set.push(p);
            proof {
                assert forall|m: int| 0 <= m < before.len() + 1 implies points_view(set@)[m]
                    == before.push(p@)[m] by {}
                assert(points_view(set@) =~= before.push(p@));
                assert(unique_tags(before) ==> unique_tags(points_view(set@)));
            }
        },
    }
}


impl Db {
    /// `GEOREM key tag...`: drop the named tags; an emptied set removes
    /// the key from both geo structures and the directory, otherwise the
    /// spatial index is rebuilt.
    pub fn geo_remove(&mut self, key: &String, tags: &Vec<String>) -> (r: Reply)
        requires
            old(self).inv(),
        ensures
            final(self).inv(),
            !old(self).geo_view().contains_key(key@) ==> r == Reply::Error(ErrorKind::KeyNotFound)
                && *final(self) == *old(self),
            old(self).geo_view().contains_key(key@) ==> {
                let left = remove_tags(
                    old(self).geo_view()[key@],
                    tags@.map_values(|t: String| t@),
                );
                &&& r == Reply::Okay
                &&& (left.len() == 0 ==> final(self).geo_view() =~= old(self).geo_view().remove(
                    key@,
                ) && final(self).dir_view() =~= old(self).dir_view().remove(key@))
                &&& (left.len() > 0 ==> final(self).geo_view() =~= old(self).geo_view().insert(
                    key@,
                    left,
                ) && final(self).dir_view() =~= old(self).dir_view())
                &&& final(self).rtree_view() =~= final(self).geo_view()
                &&& final(self).kv_view() =~= old(self).kv_view()
                &&& final(self).json_view() =~= old(self).json_view()
                &&& final(self).expiry_view() =~= old(self).expiry_view()
                &&& counter_bumped(old(self), final(self))
            },
            same_save_clock(old(self), final(self)),
    {
        if !self.geo.contains_key(key) {
            return Reply::Error(ErrorKind::KeyNotFound);
        }
        let mut set: Vec<GeoPoint> = match self.geo.get(key) {
            Some(existing) => duplicate_points(existing),
            None => Vec::new(),
        };
        let ghost base = points_view(set@);
        proof {
            assert(base =~= old(self).geo_view()[key@]);
            assert(remove_tags(base, tags@.map_values(|t: String| t@).take(0)) =~= base);
            assert(unique_tags(base));
        }
        let n = tags.len();
        let mut i: usize = 0;
        while i < n
            invariant
                0 <= i <= n,
                n == tags@.len(),
                unique_tags(points_view(set@)),
                points_view(set@) =~= remove_tags(base, tags@.map_values(|t: String| t@).take(i as int)),
            decreases n - i,
        {
            let ghost pre = tags@.map_values(|t: String| t@).take(i as int);
            let ghost post = tags@.map_values(|t: String| t@).take(i + 1);
            proof {
                assert(post.drop_last() =~= pre);
                assert(post.last() == tags@[i as int]@);
            }
            let ghost before = points_view(set@);
            match find_tag(&set, &tags[i]) {
                Some(k) => {
                    set.remove(k);
                    proof {
                        assert forall|m: int| 0 <= m < before.len() - 1 implies points_view(set@)[m]
                            == before.remove(tag_index_of(before, tags@[i as int]@))[m] by {}
                        assert(points_view(set@) =~= before.remove(
                            tag_index_of(before, tags@[i as int]@),
                        ));
                        let kk = tag_index_of(before, tags@[i as int]@);
                        assert forall|a: int, b: int|
                            0 <= a < b < points_view(set@).len() implies points_view(set@)[a].tag
                            != points_view(set@)[b].tag by {
                            if b < kk {
                            } else if a < kk {
                                assert(points_view(set@)[b] == before[b + 1]);
                            } else {
                                assert(points_view(set@)[a] == before[a + 1]);
                                assert(points_view(set@)[b] == before[b + 1]);
                            }
                        }
                    }
                },
                None => {},
            }
            i = i + 1;
        }
        proof {
            assert(tags@.map_values(|t: String| t@).take(n as int) =~= tags@.map_values(
                |t: String| t@,
            ));
        }
        let ghost g0 = self.geo@;
        let ghost r0 = self.rtree@;
        if set.is_empty() {
            self.geo.remove(key);
            self.rtree.remove(key);
            self.dir.remove(key);
            self.bump_mutations();
            proof {
                crate::db::lemma_view_map_remove(g0, |v: Vec<GeoPoint>| points_view(v@), key@);
                crate::db::lemma_view_map_remove(r0, |v: Vec<GeoPoint>| points_view(v@), key@);
                assert(self.rtree_view() =~= self.geo_view());
            }
            Reply::Okay
        } else {
            let copy = duplicate_points(&set);
            self.geo.insert(key, set);
            self.rtree.insert(key, copy);
            self.bump_mutations();
            proof {
                lemma_view_map_insert(g0, |v: Vec<GeoPoint>| points_view(v@), key@, self.geo@[key@]);
                lemma_view_map_insert(r0, |v: Vec<GeoPoint>| points_view(v@), key@, self.rtree@[key@]);
                assert(self.rtree_view() =~= self.geo_view());
            }
            Reply::Okay
        }
    }

    /// `GEODEL key`: remove both geo structures and the directory entry.
    pub fn geo_del(&mut self, key: &String) -> (r: Reply)
        requires
            old(self).inv(),
        ensures
            final(self).inv(),
            !old(self).geo_view().contains_key(key@) ==> r == Reply::Error(ErrorKind::KeyNotFound)
                && *final(self) == *old(self),
            old(self).geo_view().contains_key(key@) ==> {
                &&& r == Reply::Okay
                &&& final(self).geo_view() =~= old(self).geo_view().remove(key@)
                &&& final(self).rtree_view() =~= final(self).geo_view()
                &&& final(self).dir_view() =~= old(self).dir_view().remove(key@)
                &&& final(self).kv_view() =~= old(self).kv_view()
                &&& final(self).json_view() =~= old(self).json_view()
                &&& final(self).expiry_view() =~= old(self).expiry_view()
                &&& counter_bumped(old(self), final(self))
            },
            same_save_clock(old(self), final(self)),
    {
        if !self.geo.contains_key(key) {
            return Reply::Error(ErrorKind::KeyNotFound);
        }
        let ghost g0 = self.geo@;
        let ghost r0 = self.rtree@;
        self.geo.remove(key);
        self.rtree.remove(key);
        self.dir.remove(key);
        self.bump_mutations();
        proof {
            crate::db::lemma_view_map_remove(g0, |v: Vec<GeoPoint>| points_view(v@), key@);
            crate::db::lemma_view_map_remove(r0, |v: Vec<GeoPoint>| points_view(v@), key@);
            assert(self.rtree_view() =~= self.geo_view());
        }
        Reply::Okay
    }

    /// `GEOHASH key tag...`: each member's stored geohash, the empty
    /// string for a missing tag; `KEY_NOT_FOUND` for an absent key.
    pub fn geo_hash(&self, key: &String, tags: &Vec<String>) -> (r: Reply)
        requires
            self.inv(),
        ensures
            !self.geo_view().contains_key(key@) ==> r == Reply::Error(ErrorKind::KeyNotFound),
            self.geo_view().contains_key(key@) ==> (r matches Reply::Arr(v) && v@.len()
                == tags@.len() && forall|j: int|
                0 <= j < tags@.len() ==> #[trigger] v@[j]@ == {
                    let pts = self.geo_view()[key@];
                    let k = tag_index_of(pts, tags@[j]@);
                    if k == -1 {
                        Seq::<char>::empty()
                    } else {
                        pts[k].hash
                    }
                }),
    {
        let set = match self.geo.get(key) {
            Some(s) => s,
            None => {
                return Reply::Error(ErrorKind::KeyNotFound);
            },
        };
        let n = tags.len();
        let mut out: Vec<String> = Vec::new();
        let mut i: usize = 0;
        while i < n
            invariant
                0 <= i <= n,
                n == tags@.len(),
                out@.len() == i,
                points_view(set@) =~= self.geo_view()[key@],
                self.geo_view().contains_key(key@),
                forall|j: int|
                    0 <= j < i ==> #[trigger] out@[j]@ == {
                        let pts = self.geo_view()[key@];
                        let k = tag_index_of(pts, tags@[j]@);
                        if k == -1 {
                            Seq::<char>::empty()
                        } else {
                            pts[k].hash
                        }
                    },
            decreases n - i,
        {
            match find_tag(set, &tags[i]) {
                Some(k) => {
                    out.push(set[k].hash.clone());
                },
                None => {
                    out.push(String::new());
                },
            }
            i = i + 1;
        }
        Reply::Arr(out)
    }

    /// `GEOPOS key tag...`: `[lat, lng]` pairs as fixed-point decimal
    /// text, an empty pair for a missing tag.
    pub fn geo_pos(&self, key: &String, tags: &Vec<String>) -> (r: Reply)
        requires
            self.inv(),
        ensures
            !self.geo_view().contains_key(key@) ==> r == Reply::Error(ErrorKind::KeyNotFound),
            self.geo_view().contains_key(key@) ==> (r matches Reply::NestedArr(v) && v@.len()
                == tags@.len() && forall|j: int|
                0 <= j < tags@.len() ==> (#[trigger] v@[j])@.map_values(|s: String| s@) == {
                    let pts = self.geo_view()[key@];
                    let k = tag_index_of(pts, tags@[j]@);
                    if k == -1 {
                        Seq::<Seq<char>>::empty()
                    } else {
                        seq![
                            crate::numtext::spec_format_e6(pts[k].lat_e6 as int),
                            crate::numtext::spec_format_e6(pts[k].lng_e6 as int),
                        ]
                    }
                }),
    {
        let set = match self.geo.get(key) {
            Some(s) => s,
            None => {
                return Reply::Error(ErrorKind::KeyNotFound);
            },
        };
        let n = tags.len();
        let mut out: Vec<Vec<String>> = Vec::new();
        let mut i: usize = 0;
        while i < n
            invariant
                0 <= i <= n,
                n == tags@.len(),
                out@.len() == i,
                points_view(set@) =~= self.geo_view()[key@],
                self.geo_view().contains_key(key@),
                forall|j: int|
                    0 <= j < i ==> (#[trigger] out@[j])@.map_values(|s: String| s@) == {
                        let pts = self.geo_view()[key@];
                        let k = tag_index_of(pts, tags@[j]@);
                        if k == -1 {
                            Seq::<Seq<char>>::empty()
                        } else {
                            seq![
                                crate::numtext::spec_format_e6(pts[k].lat_e6 as int),
                                crate::numtext::spec_format_e6(pts[k].lng_e6 as int),
                            ]
                        }
                    },
            decreases n - i,
        {
            match find_tag(set, &tags[i]) {
                Some(k) => {
                    let lat = crate::numtext::format_e6(set[k].lat_e6);
                    let lng = crate::numtext::format_e6(set[k].lng_e6);
                    let mut pair: Vec<String> = Vec::new();
                    pair.push(lat);
                    pair.push(lng);
                    proof {
                        assert(pair@.map_values(|s: String| s@) =~= seq![
                            crate::numtext::spec_format_e6(points_view(set@)[tag_index_of(
                                points_view(set@),
                                tags@[i as int]@,
                            )].lat_e6 as int),
                            crate::numtext::spec_format_e6(points_view(set@)[tag_index_of(
                                points_view(set@),
                                tags@[i as int]@,
                            )].lng_e6 as int),
                        ]);
                    }
                    out.push(pair);
                },
                None => {
                    let pair: Vec<String> = Vec::new();
                    proof {
                        assert(pair@.map_values(|s: String| s@) =~= Seq::<Seq<char>>::empty());
                    }
                    out.push(pair);
                },
            }
            i = i + 1;
        }
        Reply::NestedArr(out)
    }

    /// `GEODIST key m1 m2`: resolve both members; the caller computes the
    /// great-circle distance from the points. The errors say exactly
    /// which member is absent.
    pub fn geo_dist(&self, key: &String, m1: &String, m2: &String) -> (r: Result<
        (GeoPoint, GeoPoint),
        ErrorKind,
    >)
        requires
            self.inv(),
        ensures
            !self.geo_view().contains_key(key@) ==> r == Result::<(GeoPoint, GeoPoint), ErrorKind>::Err(ErrorKind::KeyNotFound),
            self.geo_view().contains_key(key@) ==> {
                let pts = self.geo_view()[key@];
                let k1 = tag_index_of(pts, m1@);
                let k2 = tag_index_of(pts, m2@);
                if k1 == -1 {
                    r == Result::<(GeoPoint, GeoPoint), ErrorKind>::Err(ErrorKind::Member1NotFound)
                } else if k2 == -1 {
                    r == Result::<(GeoPoint, GeoPoint), ErrorKind>::Err(ErrorKind::Member2NotFound)
                } else {
                    r matches Result::Ok(pair) && pair.0@ == pts[k1] && pair.1@ == pts[k2]
                }
            },
    {
        let set = match self.geo.get(key) {
            Some(s) => s,
            None => {
                return Err(ErrorKind::KeyNotFound);
            },
        };
        let a = match find_tag(set, m1) {
            Some(k) => set[k].duplicate(),
            None => {
                return Err(ErrorKind::Member1NotFound);
            },
        };
        let b = match find_tag(set, m2) {
            Some(k) => set[k].duplicate(),
            None => {
                return Err(ErrorKind::Member2NotFound);
            },
        };
        Ok((a, b))
    }

    /// `GEORADIUS key ...`: the spatial index's points for the key; the
    /// caller filters them by great-circle distance and formats the
    /// replies. Reading the index, not the point set, is what the
    /// spatial invariant licenses.
    pub fn geo_radius(&self, key: &String) -> (r: Result<Vec<GeoPoint>, ErrorKind>)
        requires
            self.inv(),
        ensures
            !self.rtree_view().contains_key(key@) ==> r == Result::<Vec<GeoPoint>, ErrorKind>::Err(ErrorKind::KeyNotFound),
            self.rtree_view().contains_key(key@) ==> (r matches Result::Ok(v) && points_view(v@)
                == self.rtree_view()[key@] && points_view(v@) == self.geo_view()[key@]),
    {
        proof {
            assert(self.rtree_view().contains_key(key@) == self.rtree@.contains_key(key@));
        }
        match self.rtree.get(key) {
            Some(points) => {
                let out = duplicate_points(points);
                proof {
                    assert(self.geo@.contains_key(key@));
                    assert(points_view(self.rtree@[key@]@) =~= points_view(self.geo@[key@]@));
                }
                Ok(out)
            },
            None => Err(ErrorKind::KeyNotFound),
        }
    }
}

/// The set after removing each listed tag.
pub open spec fn remove_tags(base: Seq<GeoPointV>, tags: Seq<Seq<char>>) -> Seq<GeoPointV>
    decreases tags.len(),
{
    if tags.len() == 0 {
        base
    } else {
        let done = remove_tags(base, tags.drop_last());
        let k = tag_index_of(done, tags.last());
        if k == -1 {
            done
        } else {
            done.remove(k)
        }
    }
}



/// `GEOADD K (p); GEOREM K p.tag` empties the set, so the key leaves both
/// geo structures and the directory.
pub proof fn lemma_add_then_remove_tag(p: GeoPointV)
    ensures
        remove_tags(merge_points(Seq::empty(), seq![p]), seq![p.tag]).len() == 0,
{
    let one = seq![p];
    assert(one.drop_last() =~= Seq::<GeoPointV>::empty());
    assert(merge_points(Seq::empty(), one.drop_last()) =~= Seq::<GeoPointV>::empty());
    assert(tag_index_of(Seq::<GeoPointV>::empty(), p.tag) == -1);
    assert(merge_points(Seq::empty(), one) =~= one);
    let tags = seq![p.tag];
    assert(tags.drop_last() =~= Seq::<Seq<char>>::empty());
    assert(remove_tags(one, tags.drop_last()) =~= one);
    assert(tag_index_of(one, p.tag) == 0);
    assert(remove_tags(one, tags) =~= one.remove(0));
    assert(one.remove(0).len() == 0);
}



/// One GeoJSON feature for a stored point: a `Point` geometry in
/// `[longitude, latitude]` order with the tag and the stored geohash as
/// properties.
pub open spec fn feature_of(p: GeoPointV) -> JsonV {
    JsonV::Obj(
        seq![
            ("type"@, JsonV::Str("Feature"@)),
            (
                "geometry"@,
                JsonV::Obj(
                    seq![
                        ("type"@, JsonV::Str("Point"@)),
                        (
                            "coordinates"@,
                            JsonV::Arr(
                                seq![
                                    JsonV::Num(crate::numtext::spec_format_e6(p.lng_e6 as int)),
                                    JsonV::Num(crate::numtext::spec_format_e6(p.lat_e6 as int)),
                                ],
                            ),
                        ),
                    ],
                ),
            ),
            ("properties"@, JsonV::Obj(seq![("tag"@, JsonV::Str(p.tag)), ("hash"@, JsonV::Str(p.hash))])),
        ],
    )
}

/// The listed tags resolved against a point set, in order, missing tags
/// silently skipped.
pub open spec fn selected_points(pts: Seq<GeoPointV>, tags: Seq<Seq<char>>) -> Seq<GeoPointV>
    decreases tags.len(),
{
    if tags.len() == 0 {
        Seq::empty()
    } else {
        let done = selected_points(pts, tags.drop_last());
        let k = tag_index_of(pts, tags.last());
        if k == -1 {
            done
        } else {
            done.push(pts[k])
        }
    }
}

/// The GeoJSON `FeatureCollection` over the selected points.
pub open spec fn geo_json_of(pts: Seq<GeoPointV>, tags: Seq<Seq<char>>) -> JsonV {
    JsonV::Obj(
        seq![
            ("type"@, JsonV::Str("FeatureCollection"@)),
            (
                "features"@,
                JsonV::Arr(selected_points(pts, tags).map_values(|p: GeoPointV| feature_of(p))),
            ),
        ],
    )
}

/// Build the feature document for one stored point.
fn feature_json(p: &GeoPoint) -> (r: Json)
    ensures
        r@ == feature_of(p@),
{
    let lng_text = Json::Num(crate::numtext::format_e6(p.lng_e6));
    let lat_text = Json::Num(crate::numtext::format_e6(p.lat_e6));
    proof {
        crate::json::lemma_view_variant(&lng_text);
        crate::json::lemma_view_variant(&lat_text);
    }
    let mut coord_items: Vec<Json> = Vec::new();
    coord_items.push(lng_text);
    coord_items.push(lat_text);
    let coords = Json::Arr(coord_items);
    proof {
        crate::json::lemma_view_arr(&coords);
        assert(coords@->Arr_0 =~= seq![
            JsonV::Num(crate::numtext::spec_format_e6(p@.lng_e6 as int)),
            JsonV::Num(crate::numtext::spec_format_e6(p@.lat_e6 as int)),
        ]);
        assert(coords@ =~~= feature_of(p@)->Obj_0[1].1->Obj_0[1].1);
    }
    let point_tag = Json::Str("Point".to_owned());
    proof {
        crate::json::lemma_view_variant(&point_tag);
    }
    let mut geom_entries: Vec<(String, Json)> = Vec::new();
    geom_entries.push(("type".to_owned(), point_tag));
    geom_entries.push(("coordinates".to_owned(), coords));
    let geometry = Json::Obj(geom_entries);
    proof {
        crate::json::lemma_view_obj(&geometry);
        assert(geometry@->Obj_0 =~= feature_of(p@)->Obj_0[1].1->Obj_0);
        assert(geometry@ =~~= feature_of(p@)->Obj_0[1].1);
    }
    let tag_node = Json::Str(p.tag.clone());
    let hash_node = Json::Str(p.hash.clone());
    proof {
        crate::json::lemma_view_variant(&tag_node);
        crate::json::lemma_view_variant(&hash_node);
    }
    let mut prop_entries: Vec<(String, Json)> = Vec::new();
    prop_entries.push(("tag".to_owned(), tag_node));
    prop_entries.push(("hash".to_owned(), hash_node));
    let properties = Json::Obj(prop_entries);
    proof {
        crate::json::lemma_view_obj(&properties);
        assert(properties@->Obj_0 =~= feature_of(p@)->Obj_0[2].1->Obj_0);
        assert(properties@ =~~= feature_of(p@)->Obj_0[2].1);
    }
    let kind = Json::Str("Feature".to_owned());
    proof {
        crate::json::lemma_view_variant(&kind);
    }
    let mut entries: Vec<(String, Json)> = Vec::new();
    entries.push(("type".to_owned(), kind));
    entries.push(("geometry".to_owned(), geometry));
    entries.push(("properties".to_owned(), properties));
    let r = Json::Obj(entries);
    proof {
        crate::json::lemma_view_obj(&r);
        assert(r@->Obj_0 =~= feature_of(p@)->Obj_0);
        assert(r@ =~~= feature_of(p@));
    }
    r
}

impl Db {
    /// `GEOJSON key tag...`: a GeoJSON `FeatureCollection` over the named
    /// members, missing tags silently skipped, serialized as one string.
    #[verifier::loop_isolation(false)]
    pub fn geo_json(&self, key: &String, tags: &Vec<String>) -> (r: Reply)
        requires
            self.inv(),
        ensures
            !self.geo_view().contains_key(key@) ==> r == Reply::Error(ErrorKind::KeyNotFound),
            self.geo_view().contains_key(key@) ==> (r matches Reply::Bulk(t) && t@
                == crate::bridge::text_of_json(
                geo_json_of(self.geo_view()[key@], tags@.map_values(|s: String| s@)),
            )),
    {
        let set = match self.geo.get(key) {
            Some(s) => s,
            None => {
                return Reply::Error(ErrorKind::KeyNotFound);
            },
        };
        let ghost pts = self.geo_view()[key@];
        let ghost tags_v = tags@.map_values(|s: String| s@);
        proof {
            assert(points_view(set@) =~= pts);
            assert(selected_points(pts, tags_v.take(0)) =~= Seq::<GeoPointV>::empty());
        }
        let n = tags.len();
        let mut features: Vec<Json> = Vec::new();
        let mut i: usize = 0;
        while i < n
            invariant
                self.inv(),
                0 <= i <= n,
                n == tags@.len(),
                points_view(set@) =~= pts,
                self.geo_view().contains_key(key@),
                crate::json::arr_view(features@) =~= selected_points(
                    pts,
                    tags_v.take(i as int),
                ).map_values(|p: GeoPointV| feature_of(p)),
            decreases n - i,
        {
            let ghost pre = tags_v.take(i as int);
            let ghost post = tags_v.take(i + 1);
            proof {
                assert(post.drop_last() =~= pre);
                assert(post.last() == tags@[i as int]@);
            }
            let ghost f0 = crate::json::arr_view(features@);
            match find_tag(set, &tags[i]) {
                Some(k) => {
                    proof {
                        assert(pts[k as int] == set@[k as int]@);
                    }
                    let f = feature_json(&set[k]);
                    features.push(f);
                    proof {
                        assert(crate::json::arr_view(features@) =~= f0.push(
                            feature_of(pts[tag_index_of(pts, tags@[i as int]@)]),
                        ));
                        assert(selected_points(pts, post).map_values(
                            |p: GeoPointV| feature_of(p),
                        ) =~= f0.push(feature_of(pts[tag_index_of(pts, tags@[i as int]@)])));
                    }
                },
                None => {},
            }
            i = i + 1;
        }
        proof {
            assert(tags_v.take(n as int) =~= tags_v);
        }
        let body = Json::Arr(features);
        proof {
            crate::json::lemma_view_arr(&body);
            assert(body@->Arr_0 =~= selected_points(pts, tags_v).map_values(
                |p: GeoPointV| feature_of(p),
            ));
            assert(body@ =~~= geo_json_of(pts, tags_v)->Obj_0[1].1);
        }
        let kind = Json::Str("FeatureCollection".to_owned());
        proof {
            crate::json::lemma_view_variant(&kind);
        }
        let mut entries: Vec<(String, Json)> = Vec::new();
        entries.push(("type".to_owned(), kind));
        entries.push(("features".to_owned(), body));
        let doc = Json::Obj(entries);
        proof {
            crate::json::lemma_view_obj(&doc);
            assert(doc@->Obj_0 =~= geo_json_of(pts, tags_v)->Obj_0);
            assert(doc@ =~~= geo_json_of(pts, tags_v));
        }
        Reply::Bulk(crate::bridge::json_to_text(&doc))
    }
}


} // verus!
