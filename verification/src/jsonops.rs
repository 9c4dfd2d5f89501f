//! The document-store commands, the glob key listing, the nonce command
//! and authentication: the handlers that ride on the dotted-path module
//! and the trusted edge.

use vstd::prelude::*;

use crate::db::{Db, AuthContext, lemma_view_map_insert, lemma_view_map_remove, counter_bumped, same_save_clock};
use crate::reply::{ErrorKind, KeyType, Reply};
use crate::json::{
    Json,
    JsonV,
    spec_dot_set,
    spec_dot_get,
    spec_dot_remove,
    spec_split,
    split_path,
    path_view,
    dot_set_at,
    dot_get_at,
    dot_remove_at,
};
use crate::bridge;

verus! {

/// The parsed segments of a path text; the empty text addresses the root.
pub open spec fn spec_split_path(s: Seq<char>) -> Seq<Seq<char>> {
    if s.len() == 0 {
        Seq::empty()
    } else {
        spec_split(s)
    }
}

/// The view of a `JSET` item list.
pub open spec fn set_items_view(items: Seq<(String, Json)>) -> Seq<(Seq<char>, JsonV)> {
    items.map_values(|e: (String, Json)| (e.0@, e.1@))
}

/// The document after applying each `(path, value)` pair in order, and
/// whether every single write succeeded; a failed write changes nothing
/// and the rest still apply.
pub open spec fn apply_sets(doc: JsonV, items: Seq<(Seq<char>, JsonV)>) -> (JsonV, bool)
    decreases items.len(),
{
    if items.len() == 0 {
        (doc, true)
    } else {
        let prev = apply_sets(doc, items.drop_last());
        match spec_dot_set(prev.0, spec_split_path(items.last().0), items.last().1) {
            Some(d) => (d, prev.1),
            None => (prev.0, false),
        }
    }
}

/// The document after removing each listed path in order, and how many
/// removals succeeded.
pub open spec fn apply_removes(doc: JsonV, paths: Seq<Seq<char>>) -> (JsonV, int)
    decreases paths.len(),
{
    if paths.len() == 0 {
        (doc, 0)
    } else {
        let prev = apply_removes(doc, paths.drop_last());
        match spec_dot_remove(prev.0, spec_split_path(paths.last())) {
            Some(d) => (d, prev.1 + 1),
            None => (prev.0, prev.1),
        }
    }
}

/// Split a path text into segments; the empty text addresses the root.
fn split_segments(p: &str) -> (r: Vec<String>)
    ensures
        path_view(r@) =~= spec_split_path(p@),
{
    if p.unicode_len() == 0 {
        let r: Vec<String> = Vec::new();
        proof {
            assert(path_view(r@) =~= Seq::<Seq<char>>::empty());
        }
        r
    } else {
        split_path(p)
    }
}

/// The text `JGET` prints for a value at a path: strings unquoted,
/// numbers as their text, anything else serialized.
pub open spec fn jget_text(v: JsonV) -> Seq<char> {
    match v {
        JsonV::Str(s) => s,
        JsonV::Int(i) => crate::numtext::spec_format_i64(i as int),
        JsonV::UInt(u) => crate::numtext::spec_format_nat(u as nat),
        JsonV::Num(s) => s,
        _ => bridge::text_of_json(v),
    }
}

/// The outcome of a numeric path increment: either a finished reply, or
/// the stored non-integer number's text, handed out for the caller to add
/// to and write back with `jset_number`.
#[derive(Debug, PartialEq, Eq)]
pub enum NumOutcome {
    Done(Reply),
    FloatPending(String),
}

impl Db {
    /// `JSET key (path, value)...`: build a fresh document from `null` or
    /// mutate the stored one; each pair applies in order, failures are
    /// reported but do not roll the others back. On a fresh key a failure
    /// stores nothing.
    pub fn jset(&mut self, key: &String, items: &Vec<(String, Json)>) -> (r: Reply)
        requires
            old(self).inv(),
        ensures
            final(self).inv(),
            old(self).wrong_family(key@, KeyType::JSON) ==> r == Reply::Error(ErrorKind::WrongType)
                && *final(self) == *old(self),
            !old(self).wrong_family(key@, KeyType::JSON) ==> {
                let base: JsonV = if old(self).json_view().contains_key(key@) {
                    old(self).json_view()[key@]
                } else {
                    JsonV::Null
                };
                let outcome = apply_sets(base, set_items_view(items@));
                &&& final(self).kv_view() =~= old(self).kv_view()
                &&& final(self).geo_view() =~= old(self).geo_view()
                &&& final(self).expiry_view() =~= old(self).expiry_view()
                &&& (outcome.1 ==> r == Reply::Okay && final(self).json_view() =~= old(self).json_view().insert(key@, outcome.0) && final(self).dir_view() =~= old(self).dir_view().insert(key@, KeyType::JSON) && counter_bumped(old(self), final(self)))
                &&& (!outcome.1 ==> r == Reply::Error(ErrorKind::SaveFailed) && final(self).mutation_count == old(self).mutation_count)
                &&& (!outcome.1 && old(self).json_view().contains_key(key@) ==> final(self).json_view() =~= old(self).json_view().insert(key@, outcome.0) && final(self).dir_view() =~= old(self).dir_view())
                &&& (!outcome.1 && !old(self).json_view().contains_key(key@) ==> final(self).json_view() =~= old(self).json_view() && final(self).dir_view() =~= old(self).dir_view())
            },
            same_save_clock(old(self), final(self)),
    {
        if let Some(fam) = self.dir.get(key) {
            if !matches!(fam, KeyType::JSON) {
                return Reply::Error(ErrorKind::WrongType);
            }
        }
        let existed = self.json.contains_key(key);
        let mut doc: Json = match self.json.get(key) {
            Some(d) => d.duplicate(),
            None => Json::Null,
        };
        let ghost base = doc@;
        let mut ok = true;
        let n = items.len();
        let mut i: usize = 0;
        proof {
            assert(set_items_view(items@).take(0) =~= Seq::<(Seq<char>, JsonV)>::empty());
        }
        while i < n
            invariant
                0 <= i <= n,
                n == items@.len(),
                doc@ == apply_sets(base, set_items_view(items@).take(i as int)).0,
                ok == apply_sets(base, set_items_view(items@).take(i as int)).1,
            decreases n - i,
        {
            let ghost pre = set_items_view(items@).take(i as int);
            let ghost post = set_items_view(items@).take(i + 1);
            proof {
                assert(post.drop_last() =~= pre);
                assert(post.last() == (items@[i as int].0@, items@[i as int].1@));
            }
            let segs = split_segments(items[i].0.as_str());
            let value = items[i].1.duplicate();
            match dot_set_at(&doc, &segs, 0, value) {
                Some(nd) => {
                    proof {
                        assert(path_view(segs@).skip(0) =~= path_view(segs@));
                    }
                    doc = nd;
                },
                None => {
                    proof {
                        assert(path_view(segs@).skip(0) =~= path_view(segs@));
                    }
                    ok = false;
                },
            }
            i = i + 1;
        }
        proof {
            assert(set_items_view(items@).take(n as int) =~= set_items_view(items@));
        }
        if ok || existed {
            let ghost j0 = self.json@;
            self.json.insert(key, doc);
            proof {
                lemma_view_map_insert(j0, |v: Json| v@, key@, self.json@[key@]);
            }
            if ok {
                self.dir.insert(key, KeyType::JSON);
                self.bump_mutations();
                Reply::Okay
            } else {
                Reply::Error(ErrorKind::SaveFailed)
            }
        } else {
            Reply::Error(ErrorKind::SaveFailed)
        }
    }

    /// `JSET.RAW key text`: parse and store the document as given.
    pub fn jset_raw(&mut self, key: &String, text: &String) -> (r: Reply)
        requires
            old(self).inv(),
        ensures
            final(self).inv(),
            old(self).wrong_family(key@, KeyType::JSON) ==> r == Reply::Error(ErrorKind::WrongType)
                && *final(self) == *old(self),
            !old(self).wrong_family(key@, KeyType::JSON) && !bridge::json_text_ok(text@) ==> r
                == Reply::Error(ErrorKind::InvalidJson) && *final(self) == *old(self),
            !old(self).wrong_family(key@, KeyType::JSON) && bridge::json_text_ok(text@) ==> {
                &&& r == Reply::Okay
                &&& final(self).json_view() =~= old(self).json_view().insert(
                    key@,
                    bridge::json_doc_of_text(text@),
                )
                &&& final(self).dir_view() =~= old(self).dir_view().insert(key@, KeyType::JSON)
                &&& final(self).kv_view() =~= old(self).kv_view()
                &&& final(self).geo_view() =~= old(self).geo_view()
                &&& final(self).expiry_view() =~= old(self).expiry_view()
                &&& counter_bumped(old(self), final(self))
            },
            same_save_clock(old(self), final(self)),
    {
        if let Some(fam) = self.dir.get(key) {
            if !matches!(fam, KeyType::JSON) {
                return Reply::Error(ErrorKind::WrongType);
            }
        }
        match bridge::parse_json_text(text.as_str()) {
            Some(doc) => {
                let ghost j0 = self.json@;
                self.json.insert(key, doc);
                self.dir.insert(key, KeyType::JSON);
                self.bump_mutations();
                proof {
                    lemma_view_map_insert(j0, |v: Json| v@, key@, self.json@[key@]);
                }
                Reply::Okay
            },
            None => Reply::Error(ErrorKind::InvalidJson),
        }
    }

    /// `JGET key [path]`: the whole document serialized, or the value at
    /// the path — strings unquoted, numbers as their text, anything else
    /// serialized; a missing key or a `null` document is the empty string.
    pub fn jget(&self, key: &String, path: Option<&String>) -> (r: Reply)
        requires
            self.inv(),
        ensures
            ({
                let absent = !self.json_view().contains_key(key@) || self.json_view()[key@]
                    is Null;
                &&& (absent ==> crate::db::is_empty_bulk(r))
                &&& (!absent && path is None ==> (r matches Reply::Bulk(t) && t@
                    == bridge::text_of_json(self.json_view()[key@])))
                &&& (!absent && path is Some ==> {
                    let got = spec_dot_get(
                        self.json_view()[key@],
                        spec_split_path(path.unwrap()@),
                    );
                    let v: JsonV = match got {
                        Some(x) => x,
                        None => JsonV::Null,
                    };
                    (r matches Reply::Bulk(t) && t@ == jget_text(v))
                })
            }),
    {
        let doc = match self.json.get(key) {
            Some(d) => d,
            None => {
                return Reply::Bulk(String::new());
            },
        };
        proof {
            crate::json::lemma_view_variant(doc);
        }
        if matches!(doc, Json::Null) {
            return Reply::Bulk(String::new());
        }
        match path {
            None => Reply::Bulk(bridge::json_to_text(doc)),
            Some(p) => {
                let segs = split_segments(p.as_str());
                proof {
                    assert(path_view(segs@).skip(0) =~= path_view(segs@));
                }
                match dot_get_at(doc, &segs, 0) {
                    Some(v) => {
                        proof {
                            crate::json::lemma_view_variant(v);
                        }
                        match v {
                            Json::Str(s) => Reply::Bulk(s.clone()),
                            Json::Int(i) => Reply::Bulk(crate::numtext::format_i64(*i)),
                            Json::UInt(u) => Reply::Bulk(crate::numtext::format_u64(*u)),
                            Json::Num(s) => Reply::Bulk(s.clone()),
                            other => Reply::Bulk(bridge::json_to_text(other)),
                        }
                    },
                    None => {
                        let null_doc = Json::Null;
                        proof {
                            crate::json::lemma_view_variant(&null_doc);
                        }
                        Reply::Bulk(bridge::json_to_text(&null_doc))
                    },
                }
            },
        }
    }

    /// The stored document under a key, for the caller to evaluate a
    /// JSONPath selector against; the evaluation itself lives with the
    /// caller because the selector library can abort on some selectors it
    /// parses, which no verified function may do.
    pub fn json_doc(&self, key: &String) -> (r: Option<&Json>)
        requires
            self.inv(),
        ensures
            r is Some <==> self.json_view().contains_key(key@),
            r matches Some(d) ==> d@ == self.json_view()[key@],
    {
        self.json.get(key)
    }

    /// `JPATH key selector`, given the selector library's outcome on the
    /// stored document: every selected node serialized; an absent key, a
    /// `null` document or a failed evaluation is the empty string.
    pub fn jpath(&self, key: &String, found: Option<Vec<Json>>) -> (r: Reply)
        requires
            self.inv(),
        ensures
            ({
                let absent = !self.json_view().contains_key(key@) || self.json_view()[key@]
                    is Null;
                &&& (absent ==> crate::db::is_empty_bulk(r))
                &&& (!absent && found is None ==> crate::db::is_empty_bulk(r))
                &&& (!absent ==> (found matches Some(v) ==> (r matches Reply::Arr(out)
                    && out@.len() == v@.len() && (forall|m: int|
                    0 <= m < v@.len() ==> (#[trigger] out@[m])@ == bridge::text_of_json(
                        v@[m]@,
                    )))))
            }),
    {
        let doc = match self.json.get(key) {
            Some(d) => d,
            None => {
                return Reply::Bulk(String::new());
            },
        };
        proof {
            crate::json::lemma_view_variant(doc);
        }
        if matches!(doc, Json::Null) {
            return Reply::Bulk(String::new());
        }
        match found {
            Some(nodes) => {
                let n = nodes.len();
                let mut out: Vec<String> = Vec::new();
                let mut i: usize = 0;
                while i < n
                    invariant
                        0 <= i <= n,
                        n == nodes@.len(),
                        out@.len() == i,
                        forall|m: int|
                            0 <= m < i ==> (#[trigger] out@[m])@ == bridge::text_of_json(
                                nodes@[m]@,
                            ),
                    decreases n - i,
                {
                    out.push(bridge::json_to_text(&nodes[i]));
                    i = i + 1;
                }
                Reply::Arr(out)
            },
            None => Reply::Bulk(String::new()),
        }
    }

    /// `JDEL key`: drop the whole document; dropping nothing is still OK.
    pub fn jdel(&mut self, key: &String) -> (r: Reply)
        requires
            old(self).inv(),
        ensures
            final(self).inv(),
            r == Reply::Okay,
            final(self).json_view() =~= old(self).json_view().remove(key@),
            old(self).json_view().contains_key(key@) ==> final(self).dir_view() =~= old(self).dir_view().remove(key@) && counter_bumped(old(self), final(self)),
            !old(self).json_view().contains_key(key@) ==> final(self).dir_view() =~= old(self).dir_view() && final(self).mutation_count == old(self).mutation_count,
            same_save_clock(old(self), final(self)),
            final(self).kv_view() =~= old(self).kv_view(),
            final(self).geo_view() =~= old(self).geo_view(),
            final(self).expiry_view() =~= old(self).expiry_view(),
    {
        let ghost j0 = self.json@;
        match self.json.remove(key) {
            Some(_) => {
                self.dir.remove(key);
                self.bump_mutations();
            },
            None => {},
        }
        proof {
            lemma_view_map_remove(j0, |v: Json| v@, key@);
        }
        Reply::Okay
    }

    /// `JREM key path...`: remove each path; the reply counts the paths
    /// that were actually removed.
    pub fn jrem(&mut self, key: &String, paths: &Vec<String>) -> (r: Reply)
        requires
            old(self).inv(),
            paths@.len() <= i64::MAX,
        ensures
            final(self).inv(),
            final(self).kv_view() =~= old(self).kv_view(),
            final(self).geo_view() =~= old(self).geo_view(),
            final(self).expiry_view() =~= old(self).expiry_view(),
            final(self).dir_view() =~= old(self).dir_view(),
            !old(self).json_view().contains_key(key@) ==> r == Reply::Int(0) && final(self).json_view() =~= old(self).json_view() && final(self).mutation_count == old(self).mutation_count,
            old(self).json_view().contains_key(key@) ==> {
                let outcome = apply_removes(
                    old(self).json_view()[key@],
                    paths@.map_values(|p: String| p@),
                );
                &&& r == Reply::Int(outcome.1 as i64)
                &&& final(self).json_view() =~= old(self).json_view().insert(key@, outcome.0)
                &&& (outcome.1 > 0 ==> counter_bumped(old(self), final(self)))
                &&& (outcome.1 == 0 ==> final(self).mutation_count == old(self).mutation_count)
            },
            same_save_clock(old(self), final(self)),
    {
        let mut doc: Json = match self.json.get(key) {
            Some(d) => d.duplicate(),
            None => {
                return Reply::Int(0);
            },
        };
        let ghost base = doc@;
        let mut count: i64 = 0;
        let n = paths.len();
        let mut i: usize = 0;
        proof {
            assert(paths@.map_values(|p: String| p@).take(0) =~= Seq::<Seq<char>>::empty());
        }
        while i < n
            invariant
                0 <= i <= n,
                n == paths@.len() <= i64::MAX,
                0 <= count <= i,
                doc@ == apply_removes(base, paths@.map_values(|p: String| p@).take(i as int)).0,
                count == apply_removes(base, paths@.map_values(|p: String| p@).take(i as int)).1,
            decreases n - i,
        {
            let ghost pre = paths@.map_values(|p: String| p@).take(i as int);
            let ghost post = paths@.map_values(|p: String| p@).take(i + 1);
            proof {
                assert(post.drop_last() =~= pre);
                assert(post.last() == paths@[i as int]@);
            }
            let segs = split_segments(paths[i].as_str());
            proof {
                assert(path_view(segs@).skip(0) =~= path_view(segs@));
            }
            match dot_remove_at(&doc, &segs, 0) {
                Some(nd) => {
                    doc = nd;
                    count = count + 1;
                },
                None => {},
            }
            i = i + 1;
        }
        proof {
            assert(paths@.map_values(|p: String| p@).take(n as int) =~= paths@.map_values(
                |p: String| p@,
            ));
        }
        let ghost j0 = self.json@;
        self.json.insert(key, doc);
        if count > 0 {
            self.bump_mutations();
        }
        proof {
            lemma_view_map_insert(j0, |v: Json| v@, key@, self.json@[key@]);
        }
        Reply::Int(count)
    }
}


impl Db {
    /// Write a number's text at a path, the write-back half of a float
    /// increment; the caller computed the new text from the stored one.
    pub fn jset_number(&mut self, key: &String, path: &String, num_text: String) -> (r: Reply)
        requires
            old(self).inv(),
        ensures
            final(self).inv(),
            final(self).kv_view() =~= old(self).kv_view(),
            final(self).geo_view() =~= old(self).geo_view(),
            final(self).expiry_view() =~= old(self).expiry_view(),
            final(self).dir_view() =~= old(self).dir_view(),
            !old(self).json_view().contains_key(key@) ==> r == Reply::Error(
                ErrorKind::JsonKeyNotFound,
            ) && final(self).json_view() =~= old(self).json_view() && final(self).mutation_count
                == old(self).mutation_count,
            old(self).json_view().contains_key(key@) ==> {
                let set = spec_dot_set(
                    old(self).json_view()[key@],
                    spec_split_path(path@),
                    JsonV::Num(num_text@),
                );
                &&& (set matches Some(d) ==> (r matches Reply::Bulk(t) && t@ == num_text@)
                    && final(self).json_view() =~= old(self).json_view().insert(key@, d)
                    && counter_bumped(old(self), final(self)))
                &&& (set is None ==> r == Reply::Error(ErrorKind::ValueNotSet) && final(self).json_view() =~= old(self).json_view() && final(self).mutation_count == old(self).mutation_count)
            },
            same_save_clock(old(self), final(self)),
    {
        let doc = match self.json.get(key) {
            Some(d) => d,
            None => {
                return Reply::Error(ErrorKind::JsonKeyNotFound);
            },
        };
        let segs = split_segments(path.as_str());
        proof {
            assert(path_view(segs@).skip(0) =~= path_view(segs@));
        }
        let out = Reply::Bulk(num_text.clone());
        match dot_set_at(doc, &segs, 0, Json::Num(num_text)) {
            Some(nd) => {
                let ghost j0 = self.json@;
                self.json.insert(key, nd);
                self.bump_mutations();
                proof {
                    lemma_view_map_insert(j0, |v: Json| v@, key@, self.json@[key@]);
                }
                out
            },
            None => Reply::Error(ErrorKind::ValueNotSet),
        }
    }

    /// `JINCRBY key path n`: a missing or `null` node becomes `n`; an
    /// integer node adds with wrapping; a non-integer number is handed out
    /// for the caller to add to; anything else is not a number.
    pub fn jincr_by(&mut self, key: &String, path: &String, n: i64) -> (r: NumOutcome)
        requires
            old(self).inv(),
        ensures
            final(self).inv(),
            final(self).kv_view() =~= old(self).kv_view(),
            final(self).geo_view() =~= old(self).geo_view(),
            final(self).expiry_view() =~= old(self).expiry_view(),
            final(self).dir_view() =~= old(self).dir_view(),
            !old(self).json_view().contains_key(key@) ==> r == NumOutcome::Done(
                Reply::Error(ErrorKind::JsonKeyNotFound),
            ) && final(self).json_view() =~= old(self).json_view() && final(self).mutation_count
                == old(self).mutation_count,
            old(self).json_view().contains_key(key@) ==> {
                let doc = old(self).json_view()[key@];
                let segs = spec_split_path(path@);
                let got: JsonV = match spec_dot_get(doc, segs) {
                    Some(x) => x,
                    None => JsonV::Null,
                };
                &&& (got is Null ==> (match spec_dot_set(doc, segs, JsonV::Int(n)) {
                    Some(d) => r == NumOutcome::Done(Reply::Int(n)) && final(self).json_view()
                        =~= old(self).json_view().insert(key@, d) && counter_bumped(old(self), final(self)),
                    None => r == NumOutcome::Done(Reply::Error(ErrorKind::ValueNotSet)) && final(self).json_view() =~= old(self).json_view() && final(self).mutation_count == old(self).mutation_count,
                }))
                &&& (got matches JsonV::Int(i) ==> (match spec_dot_set(
                    doc,
                    segs,
                    JsonV::Int(crate::db::wrap_add(i, n)),
                ) {
                    Some(d) => r == NumOutcome::Done(Reply::Int(crate::db::wrap_add(i, n)))
                        && final(self).json_view() =~= old(self).json_view().insert(key@, d)
                        && counter_bumped(old(self), final(self)),
                    None => r == NumOutcome::Done(Reply::Error(ErrorKind::ValueNotSet)) && final(self).json_view() =~= old(self).json_view() && final(self).mutation_count == old(self).mutation_count,
                }))
                &&& (got matches JsonV::UInt(u) ==> (match spec_dot_set(
                    doc,
                    segs,
                    JsonV::UInt(wrap_add_u64(u, n)),
                ) {
                    Some(d) => r == NumOutcome::Done(
                        Reply::Int(wrap_add_u64(u, n) as i64),
                    ) && final(self).json_view() =~= old(self).json_view().insert(key@, d)
                        && counter_bumped(old(self), final(self)),
                    None => r == NumOutcome::Done(Reply::Error(ErrorKind::ValueNotSet)) && final(self).json_view() =~= old(self).json_view() && final(self).mutation_count == old(self).mutation_count,
                }))
                &&& (got matches JsonV::Num(s) ==> (r matches NumOutcome::FloatPending(t) && t@
                    == s) && final(self).json_view() =~= old(self).json_view() && final(self).mutation_count == old(self).mutation_count)
                &&& (!(got is Null) && !(got is Int) && !(got is UInt) && !(got is Num) ==> r
                    == NumOutcome::Done(Reply::Error(ErrorKind::NotNumber)) && final(self).json_view() =~= old(self).json_view() && final(self).mutation_count == old(self).mutation_count)
            },
            same_save_clock(old(self), final(self)),
    {
        let doc = match self.json.get(key) {
            Some(d) => d,
            None => {
                return NumOutcome::Done(Reply::Error(ErrorKind::JsonKeyNotFound));
            },
        };
        let segs = split_segments(path.as_str());
        proof {
            assert(path_view(segs@).skip(0) =~= path_view(segs@));
        }
        let null_node = Json::Null;
        let node: &Json = match dot_get_at(doc, &segs, 0) {
            Some(v) => v,
            None => &null_node,
        };
        proof {
            crate::json::lemma_view_variant(node);
        }
        let new_value: Json = match node {
            Json::Null => Json::Int(n),
            Json::Int(i) => Json::Int(i.wrapping_add(n)),
            Json::UInt(u) => Json::UInt(wrap_add_u64_exec(*u, n)),
            Json::Num(s) => {
                return NumOutcome::FloatPending(s.clone());
            },
            _ => {
                return NumOutcome::Done(Reply::Error(ErrorKind::NotNumber));
            },
        };
        let reply = match &new_value {
            Json::Int(i) => Reply::Int(*i),
            Json::UInt(u) => Reply::Int(*u as i64),
            _ => Reply::Int(0),
        };
        match dot_set_at(doc, &segs, 0, new_value) {
            Some(nd) => {
                let ghost j0 = self.json@;
                self.json.insert(key, nd);
                self.bump_mutations();
                proof {
                    lemma_view_map_insert(j0, |v: Json| v@, key@, self.json@[key@]);
                }
                NumOutcome::Done(reply)
            },
            None => NumOutcome::Done(Reply::Error(ErrorKind::ValueNotSet)),
        }
    }

    /// `JINCRBYFLOAT key path x`: only a missing node (which becomes the
    /// given number) or a non-integer number (handed out for the caller to
    /// add to) is accepted; integers are refused.
    pub fn jincr_by_float(&mut self, key: &String, path: &String, incr_text: &String) -> (r:
        NumOutcome)
        requires
            old(self).inv(),
        ensures
            final(self).inv(),
            final(self).kv_view() =~= old(self).kv_view(),
            final(self).geo_view() =~= old(self).geo_view(),
            final(self).expiry_view() =~= old(self).expiry_view(),
            final(self).dir_view() =~= old(self).dir_view(),
            !old(self).json_view().contains_key(key@) ==> r == NumOutcome::Done(
                Reply::Error(ErrorKind::JsonKeyNotFound),
            ) && final(self).json_view() =~= old(self).json_view() && final(self).mutation_count
                == old(self).mutation_count,
            old(self).json_view().contains_key(key@) ==> {
                let doc = old(self).json_view()[key@];
                let segs = spec_split_path(path@);
                let got: JsonV = match spec_dot_get(doc, segs) {
                    Some(x) => x,
                    None => JsonV::Null,
                };
                &&& (got is Null ==> (match spec_dot_set(doc, segs, JsonV::Num(incr_text@)) {
                    Some(d) => (r matches NumOutcome::Done(rr) && rr matches Reply::Bulk(t) && t@
                        == incr_text@) && final(self).json_view() =~= old(self).json_view().insert(key@, d) && counter_bumped(old(self), final(self)),
                    None => r == NumOutcome::Done(Reply::Error(ErrorKind::ValueNotSet)) && final(self).json_view() =~= old(self).json_view() && final(self).mutation_count == old(self).mutation_count,
                }))
                &&& ((got is Int || got is UInt) ==> r == NumOutcome::Done(
                    Reply::Error(ErrorKind::NotFloat),
                ) && final(self).json_view() =~= old(self).json_view() && final(self).mutation_count == old(self).mutation_count)
                &&& (got matches JsonV::Num(s) ==> (r matches NumOutcome::FloatPending(t) && t@
                    == s) && final(self).json_view() =~= old(self).json_view() && final(self).mutation_count == old(self).mutation_count)
                &&& (!(got is Null) && !(got is Int) && !(got is UInt) && !(got is Num) ==> r
                    == NumOutcome::Done(Reply::Error(ErrorKind::NotNumber)) && final(self).json_view() =~= old(self).json_view() && final(self).mutation_count == old(self).mutation_count)
            },
            same_save_clock(old(self), final(self)),
    {
        let doc = match self.json.get(key) {
            Some(d) => d,
            None => {
                return NumOutcome::Done(Reply::Error(ErrorKind::JsonKeyNotFound));
            },
        };
        let segs = split_segments(path.as_str());
        proof {
            assert(path_view(segs@).skip(0) =~= path_view(segs@));
        }
        let null_node = Json::Null;
        let node: &Json = match dot_get_at(doc, &segs, 0) {
            Some(v) => v,
            None => &null_node,
        };
        proof {
            crate::json::lemma_view_variant(node);
        }
        match node {
            Json::Null => {
                match dot_set_at(doc, &segs, 0, Json::Num(incr_text.clone())) {
                    Some(nd) => {
                        let ghost j0 = self.json@;
                        self.json.insert(key, nd);
                        self.bump_mutations();
                        proof {
                            lemma_view_map_insert(j0, |v: Json| v@, key@, self.json@[key@]);
                        }
                        NumOutcome::Done(Reply::Bulk(incr_text.clone()))
                    },
                    None => NumOutcome::Done(Reply::Error(ErrorKind::ValueNotSet)),
                }
            },
            Json::Int(_) => NumOutcome::Done(Reply::Error(ErrorKind::NotFloat)),
            Json::UInt(_) => NumOutcome::Done(Reply::Error(ErrorKind::NotFloat)),
            Json::Num(s) => NumOutcome::FloatPending(s.clone()),
            _ => NumOutcome::Done(Reply::Error(ErrorKind::NotNumber)),
        }
    }

    /// `KEYS pattern`: every directory key the glob pattern matches, in
    /// directory order; a malformed pattern is refused.
    pub fn keys(&self, pattern: &String) -> (r: Reply)
        requires
            self.inv(),
        ensures
            !bridge::glob_ok(pattern@) ==> r == Reply::Error(ErrorKind::InvalidPattern),
            bridge::glob_ok(pattern@) ==> (r matches Reply::Arr(v) && v@.map_values(
                |s: String| s@,
            ) == self.dir.key_seq().filter(|k: Seq<char>| bridge::glob_matches(pattern@, k))),
    {
        match bridge::glob_match_text(pattern.as_str(), pattern.as_str()) {
            Some(_) => {},
            None => {
                return Reply::Error(ErrorKind::InvalidPattern);
            },
        }
        let n = self.dir.entry_count();
        let mut out: Vec<String> = Vec::new();
        let mut i: usize = 0;
        proof {
            reveal_with_fuel(Seq::<Seq<char>>::filter, 2);
            assert(self.dir.key_seq().take(0).filter(
                |k: Seq<char>| bridge::glob_matches(pattern@, k),
            ) =~= Seq::<Seq<char>>::empty());
            assert(out@.map_values(|s: String| s@) =~= Seq::<Seq<char>>::empty());
        }
        while i < n
            invariant
                self.inv(),
                0 <= i <= n,
                n == self.dir.entries@.len(),
                bridge::glob_ok(pattern@),
                out@.map_values(|s: String| s@) =~= self.dir.key_seq().take(i as int).filter(
                    |k: Seq<char>| bridge::glob_matches(pattern@, k),
                ),
            decreases n - i,
        {
            let ghost pre = self.dir.key_seq().take(i as int);
            let ghost post = self.dir.key_seq().take(i + 1);
            proof {
                assert(post.drop_last() =~= pre);
                assert(post.last() == self.dir.entries@[i as int].0@);
                reveal_with_fuel(Seq::<Seq<char>>::filter, 2);
            }
            let (k, _fam) = self.dir.entry_at(i);
            let ghost out0 = out@;
            match bridge::glob_match_text(pattern.as_str(), k.as_str()) {
                Some(true) => {
                    out.push(k.clone());
                    proof {
                        assert(out@.map_values(|s: String| s@) =~= out0.map_values(
                            |s: String| s@,
                        ).push(k@));
                    }
                },
                _ => {},
            }
            i = i + 1;
        }
        proof {
            reveal_with_fuel(Seq::<Seq<char>>::filter, 2);
            assert(self.dir.key_seq().take(n as int) =~= self.dir.key_seq());
        }
        Reply::Arr(out)
    }

    /// `RANDOMKEY`: a fresh 25-character alphanumeric nonce, not a key of
    /// the store.
    pub fn random_key(&self) -> (r: Reply)
        ensures
            r matches Reply::Bulk(t) && t@.len() == 25 && (forall|i: int|
                0 <= i < t@.len() ==> bridge::is_nonce_char(t@[i])),
    {
        Reply::Bulk(bridge::generate_nonce())
    }
}

/// `AUTH password`: record the client's key; where authentication is not
/// demanded the reply is OK regardless, otherwise the keys must agree.
pub fn auth(context: &mut AuthContext, password: &String) -> (r: Reply)
    ensures
        final(context).client_auth_key matches Some(p) && p@ == password@,
        final(context).auth_is_required == old(context).auth_is_required,
        final(context).auth_key == old(context).auth_key,
        !old(context).auth_is_required ==> r == Reply::Okay && final(context).client_authenticated
            == old(context).client_authenticated,
        old(context).auth_is_required && old(context).auth_key is None ==> r == Reply::Error(
            ErrorKind::InternalError,
        ),
        old(context).auth_is_required && (old(context).auth_key matches Some(k) && k@ == password@)
            ==> r == Reply::Okay && final(context).client_authenticated,
        old(context).auth_is_required && (old(context).auth_key matches Some(k) && k@ != password@)
            ==> r == Reply::Error(ErrorKind::AuthFailed) && !final(context).client_authenticated,
{
    context.client_auth_key = Some(password.clone());
    if !context.auth_is_required {
        return Reply::Okay;
    }
    let server_key = match &context.auth_key {
        Some(k) => k,
        None => {
            return Reply::Error(ErrorKind::InternalError);
        },
    };
    if *server_key == *password {
        context.client_authenticated = true;
        Reply::Okay
    } else {
        context.client_authenticated = false;
        Reply::Error(ErrorKind::AuthFailed)
    }
}

fn wrap_add_u64_exec(u: u64, n: i64) -> (r: u64)
    ensures
        r == wrap_add_u64(u, n),
{
    if n >= 0 {
        let d = n as u64;
        if u <= u64::MAX - d {
            u + d
        } else {
            (u - (u64::MAX - d)) - 1
        }
    } else {
        let d = (-(n as i128)) as u64;
        if u >= d {
            u - d
        } else {
            u + (u64::MAX - d) + 1
        }
    }
}

/// Wrapping addition of a signed step to an unsigned number, the
/// arithmetic a `u64`-shaped JSON number adds with.
pub open spec fn wrap_add_u64(u: u64, n: i64) -> u64 {
    if u + n > u64::MAX {
        (u + n - 0x1_0000_0000_0000_0000) as u64
    } else if u + n < 0 {
        (u + n + 0x1_0000_0000_0000_0000) as u64
    } else {
        (u + n) as u64
    }
}



impl Db {
    /// `JMERGE key text`: deep-merge the parsed document into the stored
    /// one, the new value winning at conflicts; an absent key or a `null`
    /// document simply takes the new one.
    pub fn jmerge(&mut self, key: &String, text: &String) -> (r: Reply)
        requires
            old(self).inv(),
        ensures
            final(self).inv(),
            old(self).wrong_family(key@, KeyType::JSON) ==> r == Reply::Error(ErrorKind::WrongType)
                && *final(self) == *old(self),
            !old(self).wrong_family(key@, KeyType::JSON) && !bridge::json_text_ok(text@) ==> r
                == Reply::Error(ErrorKind::InvalidJson) && *final(self) == *old(self),
            !old(self).wrong_family(key@, KeyType::JSON) && bridge::json_text_ok(text@) ==> {
                let fresh = bridge::json_doc_of_text(text@);
                let absent = !old(self).json_view().contains_key(key@) || old(
                    self,
                ).json_view()[key@] is Null;
                &&& r == Reply::Okay
                &&& (absent ==> final(self).json_view() =~= old(self).json_view().insert(
                    key@,
                    fresh,
                ))
                &&& (!absent ==> final(self).json_view() =~= old(self).json_view().insert(
                    key@,
                    crate::json::spec_merge(fresh, old(self).json_view()[key@]),
                ))
                &&& final(self).dir_view() =~= old(self).dir_view().insert(key@, KeyType::JSON)
                &&& final(self).kv_view() =~= old(self).kv_view()
                &&& final(self).geo_view() =~= old(self).geo_view()
                &&& final(self).expiry_view() =~= old(self).expiry_view()
                &&& counter_bumped(old(self), final(self))
            },
            same_save_clock(old(self), final(self)),
    {
        if let Some(fam) = self.dir.get(key) {
            if !matches!(fam, KeyType::JSON) {
                return Reply::Error(ErrorKind::WrongType);
            }
        }
        let fresh = match bridge::parse_json_text(text.as_str()) {
            Some(d) => d,
            None => {
                return Reply::Error(ErrorKind::InvalidJson);
            },
        };
        let stored: Json = match self.json.get(key) {
            Some(prev) => {
                proof {
                    crate::json::lemma_view_variant(prev);
                }
                if matches!(prev, Json::Null) {
                    fresh
                } else {
                    crate::json::merge_json(&fresh, prev)
                }
            },
            None => fresh,
        };
        let ghost j0 = self.json@;
        self.json.insert(key, stored);
        self.dir.insert(key, KeyType::JSON);
        self.bump_mutations();
        proof {
            lemma_view_map_insert(j0, |v: Json| v@, key@, self.json@[key@]);
        }
        Reply::Okay
    }
}


} // verus!
