//! JSON documents and the dotted-path module: a segment parser and a
//! tree walker over object keys and array indices, used by the document
//! store for set, get, remove and merge.
//!
//! `Json` is the stored document; `JsonV` is its mathematical shape, and
//! every contract speaks in `JsonV`. Numbers keep their stored form:
//! `Int` and `UInt` for integers, `Num` for any other numeric text.

use vstd::prelude::*;

use crate::numtext::{is_digits, digits_val, is_digit_char, lemma_digits_val_prefix};

verus! {

broadcast use vstd::std_specs::vec::axiom_vec_index_decreases, vstd::seq::group_seq_axioms;

/// A JSON document tree.
#[derive(Debug, PartialEq, Eq)]
pub enum Json {
    Null,
    Bool(bool),
    Int(i64),
    UInt(u64),
    /// A number that is neither an `i64` nor a `u64`, kept as its text.
    Num(String),
    Str(String),
    Arr(Vec<Json>),
    Obj(Vec<(String, Json)>),
}

/// The mathematical shape of a document.
#[verifier::ext_equal]
pub enum JsonV {
    Null,
    Bool(bool),
    Int(i64),
    UInt(u64),
    Num(Seq<char>),
    Str(Seq<char>),
    Arr(Seq<JsonV>),
    Obj(Seq<(Seq<char>, JsonV)>),
}

impl View for Json {
    type V = JsonV;

    open spec fn view(&self) -> JsonV
        decreases self,
    {
        match self {
            Json::Null => JsonV::Null,
            Json::Bool(b) => JsonV::Bool(*b),
            Json::Int(i) => JsonV::Int(*i),
            Json::UInt(u) => JsonV::UInt(*u),
            Json::Num(s) => JsonV::Num(s@),
            Json::Str(s) => JsonV::Str(s@),
            Json::Arr(items) => JsonV::Arr(
                Seq::new(
                    items@.len(),
                    |i: int|
                        if 0 <= i < items@.len() {
                            items[i]@
                        } else {
                            JsonV::Null
                        },
                ),
            ),
            Json::Obj(entries) => JsonV::Obj(
                Seq::new(
                    entries@.len(),
                    |i: int|
                        if 0 <= i < entries@.len() {
                            (entries[i].0@, entries[i].1@)
                        } else {
                            (Seq::empty(), JsonV::Null)
                        },
                ),
            ),
        }
    }
}

/// Which shape the view takes, and the scalar payloads, spelled out for
/// callers.
pub proof fn lemma_view_variant(j: &Json)
    ensures
        j is Null <==> j@ is Null,
        j is Bool <==> j@ is Bool,
        j is Int <==> j@ is Int,
        j is UInt <==> j@ is UInt,
        j is Num <==> j@ is Num,
        j is Str <==> j@ is Str,
        j is Arr <==> j@ is Arr,
        j is Obj <==> j@ is Obj,
        j is Bool ==> j@->Bool_0 == j->Bool_0,
        j is Int ==> j@->Int_0 == j->Int_0,
        j is UInt ==> j@->UInt_0 == j->UInt_0,
        j is Num ==> j@->Num_0 == (j->Num_0)@,
        j is Str ==> j@->Str_0 == (j->Str_0)@,
{
    reveal_with_fuel(<Json as vstd::prelude::View>::view, 2);
}

/// The object arm of the view, spelled out for callers.
pub proof fn lemma_view_obj(j: &Json)
    requires
        j is Obj,
    ensures
        j@ is Obj,
        j@->Obj_0 =~= obj_view((j->Obj_0)@),
        j@->Obj_0.len() == (j->Obj_0)@.len(),
        forall|m: int|
            0 <= m < (j->Obj_0)@.len() ==> j@->Obj_0[m] == ((j->Obj_0)@[m].0@, (j->Obj_0)@[m].1@),
{
    reveal_with_fuel(<Json as vstd::prelude::View>::view, 2);
    assert forall|m: int| 0 <= m < (j->Obj_0)@.len() implies j@->Obj_0[m] == obj_view(
        (j->Obj_0)@,
    )[m] by {}
    assert(j@->Obj_0 =~= obj_view((j->Obj_0)@));
}

/// The array arm of the view, spelled out for callers.
pub proof fn lemma_view_arr(j: &Json)
    requires
        j is Arr,
    ensures
        j@ is Arr,
        j@->Arr_0 =~= arr_view((j->Arr_0)@),
        j@->Arr_0.len() == (j->Arr_0)@.len(),
        forall|m: int| 0 <= m < (j->Arr_0)@.len() ==> j@->Arr_0[m] == (j->Arr_0)@[m]@,
{
    reveal_with_fuel(<Json as vstd::prelude::View>::view, 2);
    assert forall|m: int| 0 <= m < (j->Arr_0)@.len() implies j@->Arr_0[m] == arr_view(
        (j->Arr_0)@,
    )[m] by {}
    assert(j@->Arr_0 =~= arr_view((j->Arr_0)@));
}

/// The index of the first entry with this key, or -1.
pub open spec fn obj_index_of(es: Seq<(Seq<char>, JsonV)>, key: Seq<char>) -> int
    decreases es.len(),
{
    if es.len() == 0 {
        -1
    } else if es[0].0 == key {
        0
    } else {
        let r = obj_index_of(es.skip(1), key);
        if r == -1 {
            -1
        } else {
            r + 1
        }
    }
}

proof fn lemma_obj_index_of(es: Seq<(Seq<char>, JsonV)>, key: Seq<char>)
    ensures
        obj_index_of(es, key) == -1 ==> forall|i: int| 0 <= i < es.len() ==> es[i].0 != key,
        obj_index_of(es, key) != -1 ==> {
            let k = obj_index_of(es, key);
            &&& 0 <= k < es.len()
            &&& es[k].0 == key
            &&& forall|i: int| 0 <= i < k ==> es[i].0 != key
        },
    decreases es.len(),
{
    if es.len() > 0 && es[0].0 != key {
        lemma_obj_index_of(es.skip(1), key);
        let r = obj_index_of(es.skip(1), key);
        if r == -1 {
            assert forall|i: int| 0 <= i < es.len() implies es[i].0 != key by {
                if i > 0 {
                    assert(es.skip(1)[i - 1] == es[i]);
                }
            }
        } else {
            assert(es.skip(1)[r] == es[r + 1]);
            assert forall|i: int| 0 <= i < r + 1 implies es[i].0 != key by {
                if i > 0 {
                    assert(es.skip(1)[i - 1] == es[i]);
                }
            }
        }
    }
}

/// A segment that addresses an array element.
pub open spec fn seg_is_index(seg: Seq<char>) -> bool {
    is_digits(seg)
}

pub open spec fn seg_index(seg: Seq<char>) -> int {
    digits_val(seg)
}

/// Read the value a dotted path addresses, if the path exists.
pub open spec fn spec_dot_get(j: JsonV, path: Seq<Seq<char>>) -> Option<JsonV>
    decreases path.len(),
{
    if path.len() == 0 {
        Some(j)
    } else {
        let seg = path[0];
        match j {
            JsonV::Obj(es) => {
                let k = obj_index_of(es, seg);
                if k == -1 {
                    None
                } else {
                    spec_dot_get(es[k].1, path.skip(1))
                }
            },
            JsonV::Arr(items) => {
                if seg_is_index(seg) && seg_index(seg) < items.len() {
                    spec_dot_get(items[seg_index(seg)], path.skip(1))
                } else {
                    None
                }
            },
            _ => None,
        }
    }
}

/// Write `v` at a dotted path. Missing intermediate nodes are created: an
/// object for a name segment, an array for the index 0. An index may also
/// extend an array by exactly one slot. `None` is a path error and means
/// no change.
pub open spec fn spec_dot_set(j: JsonV, path: Seq<Seq<char>>, v: JsonV) -> Option<JsonV>
    decreases path.len(),
{
    if path.len() == 0 {
        Some(v)
    } else {
        let seg = path[0];
        let rest = path.skip(1);
        match j {
            JsonV::Obj(es) => {
                let k = obj_index_of(es, seg);
                if k == -1 {
                    match spec_dot_set(JsonV::Null, rest, v) {
                        Some(c) => Some(JsonV::Obj(es.push((seg, c)))),
                        None => None,
                    }
                } else {
                    match spec_dot_set(es[k].1, rest, v) {
                        Some(c) => Some(JsonV::Obj(es.update(k, (seg, c)))),
                        None => None,
                    }
                }
            },
            JsonV::Arr(items) => {
                if seg_is_index(seg) && seg_index(seg) < items.len() {
                    match spec_dot_set(items[seg_index(seg)], rest, v) {
                        Some(c) => Some(JsonV::Arr(items.update(seg_index(seg), c))),
                        None => None,
                    }
                } else if seg_is_index(seg) && seg_index(seg) == items.len() {
                    match spec_dot_set(JsonV::Null, rest, v) {
                        Some(c) => Some(JsonV::Arr(items.push(c))),
                        None => None,
                    }
                } else {
                    None
                }
            },
            JsonV::Null => {
                if seg_is_index(seg) {
                    if seg_index(seg) == 0 {
                        match spec_dot_set(JsonV::Null, rest, v) {
                            Some(c) => Some(JsonV::Arr(seq![c])),
                            None => None,
                        }
                    } else {
                        None
                    }
                } else {
                    match spec_dot_set(JsonV::Null, rest, v) {
                        Some(c) => Some(JsonV::Obj(seq![(seg, c)])),
                        None => None,
                    }
                }
            },
            _ => None,
        }
    }
}

/// Remove the node a dotted path addresses. `None` is a path error (the
/// node is absent or the path walks through the wrong shape); removing
/// the root yields `Null`.
pub open spec fn spec_dot_remove(j: JsonV, path: Seq<Seq<char>>) -> Option<JsonV>
    decreases path.len(),
{
    if path.len() == 0 {
        Some(JsonV::Null)
    } else {
        let seg = path[0];
        let rest = path.skip(1);
        match j {
            JsonV::Obj(es) => {
                let k = obj_index_of(es, seg);
                if k == -1 {
                    None
                } else if rest.len() == 0 {
                    Some(JsonV::Obj(es.remove(k)))
                } else {
                    match spec_dot_remove(es[k].1, rest) {
                        Some(c) => Some(JsonV::Obj(es.update(k, (seg, c)))),
                        None => None,
                    }
                }
            },
            JsonV::Arr(items) => {
                if seg_is_index(seg) && seg_index(seg) < items.len() {
                    if rest.len() == 0 {
                        Some(JsonV::Arr(items.remove(seg_index(seg))))
                    } else {
                        match spec_dot_remove(items[seg_index(seg)], rest) {
                            Some(c) => Some(JsonV::Arr(items.update(seg_index(seg), c))),
                            None => None,
                        }
                    }
                } else {
                    None
                }
            },
            _ => None,
        }
    }
}

/// Deep merge, the fresh document taking precedence: where both sides are
/// objects the keys are united and common keys merge recursively;
/// anywhere else the fresh side wins.
pub open spec fn spec_merge(fresh: JsonV, old: JsonV) -> JsonV
    decreases fresh, 2int,
{
    match fresh {
        JsonV::Obj(fs) => match old {
            JsonV::Obj(os) => JsonV::Obj(spec_merge_entries(fs, os)),
            _ => JsonV::Obj(fs),
        },
        _ => fresh,
    }
}

/// The old entries the fresh side does not name, in their order.
pub open spec fn merge_keep(
    fs: Seq<(Seq<char>, JsonV)>,
    os: Seq<(Seq<char>, JsonV)>,
) -> Seq<(Seq<char>, JsonV)>
    decreases os.len(),
{
    if os.len() == 0 {
        Seq::empty()
    } else if obj_index_of(fs, os[0].0) == -1 {
        seq![os[0]] + merge_keep(fs, os.skip(1))
    } else {
        merge_keep(fs, os.skip(1))
    }
}

/// The old entries that the fresh side does not name, then the fresh
/// entries, common keys merged recursively.
pub open spec fn spec_merge_entries(
    fs: Seq<(Seq<char>, JsonV)>,
    os: Seq<(Seq<char>, JsonV)>,
) -> Seq<(Seq<char>, JsonV)>
    decreases fs, 1int,
{
    merge_keep(fs, os) + Seq::new(fs.len(), |i: int| spec_merge_entry(fs, os, i))
}

/// One merged entry of the fresh side.
pub open spec fn spec_merge_entry(
    fs: Seq<(Seq<char>, JsonV)>,
    os: Seq<(Seq<char>, JsonV)>,
    i: int,
) -> (Seq<char>, JsonV)
    decreases fs, 0int,
{
    let k = obj_index_of(os, fs[i].0);
    if 0 <= i < fs.len() && k != -1 {
        (fs[i].0, spec_merge(fs[i].1, os[k].1))
    } else {
        (fs[i].0, fs[i].1)
    }
}



/// The view of an entry list of an object node.
pub open spec fn obj_view(es: Seq<(String, Json)>) -> Seq<(Seq<char>, JsonV)> {
    Seq::new(
        es.len(),
        |i: int|
            if 0 <= i < es.len() {
                (es[i].0@, es[i].1@)
            } else {
                (Seq::empty(), JsonV::Null)
            },
    )
}

/// The view of an item list of an array node.
pub open spec fn arr_view(items: Seq<Json>) -> Seq<JsonV> {
    Seq::new(
        items.len(),
        |i: int|
            if 0 <= i < items.len() {
                items[i]@
            } else {
                JsonV::Null
            },
    )
}

/// The segment sequence a parsed path denotes.
pub open spec fn path_view(p: Seq<String>) -> Seq<Seq<char>> {
    p.map_values(|s: String| s@)
}

impl Json {
    /// A verified deep copy of a document.
    #[verifier::loop_isolation(false)]
    pub fn duplicate(&self) -> (r: Json)
        ensures
            r@ == self@,
        decreases self,
    {
        match self {
            Json::Null => Json::Null,
            Json::Bool(b) => Json::Bool(*b),
            Json::Int(i) => Json::Int(*i),
            Json::UInt(u) => Json::UInt(*u),
            Json::Num(s) => Json::Num(s.clone()),
            Json::Str(s) => Json::Str(s.clone()),
            Json::Arr(items) => {
                let n = items.len();
                let mut out: Vec<Json> = Vec::new();
                let mut i: usize = 0;
                while i < n
                    invariant
                        n == items@.len(),
                        0 <= i <= n,
                        out@.len() == i,
                        forall|j: int| 0 <= j < i ==> out@[j]@ == items@[j]@,
                    decreases n - i,
                {
                    proof {
                        assert(decreases_to!(*items => items@[i as int]));
                        assert(decreases_to!(*self => *items));
                    }
                    out.push(items[i].duplicate());
                    i = i + 1;
                }
                let r = Json::Arr(out);
                proof {
                    assert(*self == Json::Arr(*items));
                    assert(self@ is Arr);
                    assert(r@ is Arr);
                    assert(r@->Arr_0.len() == self@->Arr_0.len());
                    assert forall|j: int| 0 <= j < self@->Arr_0.len() implies r@->Arr_0[j]
                        == self@->Arr_0[j] by {
                        assert(out@[j]@ == items@[j]@);
                    }
                    assert(r@->Arr_0 =~= self@->Arr_0);
                    assert(r@ =~~= self@);
                }
                r
            },
            Json::Obj(entries) => {
                let n = entries.len();
                let mut out: Vec<(String, Json)> = Vec::new();
                let mut i: usize = 0;
                while i < n
                    invariant
                        n == entries@.len(),
                        0 <= i <= n,
                        out@.len() == i,
                        forall|j: int|
                            0 <= j < i ==> out@[j].0@ == entries@[j].0@ && out@[j].1@
                                == entries@[j].1@,
                    decreases n - i,
                {
                    proof {
                        assert(decreases_to!(*entries => entries@[i as int]));
                        assert(decreases_to!(*self => *entries));
                    }
                    out.push((entries[i].0.clone(), entries[i].1.duplicate()));
                    i = i + 1;
                }
                let r = Json::Obj(out);
                proof {
                    assert(r@ is Obj);
                    assert(self@ is Obj);
                    assert forall|j: int| 0 <= j < self@->Obj_0.len() implies r@->Obj_0[j]
                        == self@->Obj_0[j] by {
                        assert(out@[j].0@ == entries@[j].0@ && out@[j].1@ == entries@[j].1@);
                    }
                    assert(r@->Obj_0 =~= self@->Obj_0);
                    assert(r@ =~~= self@);
                }
                r
            },
        }
    }
}

/// The first dot in the text, or -1.
pub open spec fn first_dot(s: Seq<char>) -> int
    decreases s.len(),
{
    if s.len() == 0 {
        -1
    } else if s[0] == '.' {
        0
    } else {
        let r = first_dot(s.skip(1));
        if r == -1 {
            -1
        } else {
            r + 1
        }
    }
}

/// Dotted-path text split at every dot; empty segments are kept.
pub open spec fn spec_split(s: Seq<char>) -> Seq<Seq<char>>
    decreases s.len(),
{
    let d = first_dot(s);
    if 0 <= d < s.len() {
        seq![s.subrange(0, d)] + spec_split(s.skip(d + 1))
    } else {
        seq![s]
    }
}

proof fn lemma_first_dot(s: Seq<char>)
    ensures
        first_dot(s) == -1 ==> forall|i: int| 0 <= i < s.len() ==> s[i] != '.',
        first_dot(s) != -1 ==> {
            let d = first_dot(s);
            &&& 0 <= d < s.len()
            &&& s[d] == '.'
            &&& forall|i: int| 0 <= i < d ==> s[i] != '.'
        },
    decreases s.len(),
{
    if s.len() > 0 && s[0] != '.' {
        lemma_first_dot(s.skip(1));
        let r = first_dot(s.skip(1));
        if r == -1 {
            assert forall|i: int| 0 <= i < s.len() implies s[i] != '.' by {
                if i > 0 {
                    assert(s.skip(1)[i - 1] == s[i]);
                }
            }
        } else {
            assert(s.skip(1)[r] == s[r + 1]);
            assert forall|i: int| 0 <= i < r + 1 implies s[i] != '.' by {
                if i > 0 {
                    assert(s.skip(1)[i - 1] == s[i]);
                }
            }
        }
    }
}

/// The converse: a witness first dot pins `first_dot` down.
proof fn lemma_first_dot_at(s: Seq<char>, d: int)
    requires
        0 <= d < s.len(),
        s[d] == '.',
        forall|i: int| 0 <= i < d ==> s[i] != '.',
    ensures
        first_dot(s) == d,
{
    lemma_first_dot(s);
}

/// Split dotted-path text into its segments.
pub fn split_path(p: &str) -> (r: Vec<String>)
    ensures
        path_view(r@) =~= spec_split(p@),
{
    let n = p.unicode_len();
    let mut out: Vec<String> = Vec::new();
    let mut start: usize = 0;
    let mut i: usize = 0;
    proof {
        assert(p@.subrange(0, n as int) =~= p@);
    }
    while i < n
        invariant
            0 <= start <= i <= n,
            n == p@.len(),
            forall|j: int| start <= j < i ==> p@[j] != '.',
            spec_split(p@) =~= path_view(out@) + spec_split(p@.subrange(start as int, n as int)),
        decreases n - i,
    {
        let c = p.get_char(i);
        if c as u32 == 46 {
            let seg = p.substring_char(start, i).to_owned();
            let ghost tail = p@.subrange(start as int, n as int);
            out.push(seg);
            proof {
                assert(tail[i - start] == '.');
                assert(forall|j: int| 0 <= j < i - start ==> tail[j] != '.');
                lemma_first_dot_at(tail, i - start);
                assert(tail.subrange(0, i - start) =~= p@.subrange(start as int, i as int));
                assert(tail.skip(i - start + 1) =~= p@.subrange(i + 1, n as int));
                assert(path_view(out@) =~= path_view(out@.drop_last()) + seq![p@.subrange(
                    start as int,
                    i as int,
                )]);
            }
            start = i + 1;
        }
        i = i + 1;
    }
    let seg = p.substring_char(start, n).to_owned();
    let ghost tail = p@.subrange(start as int, n as int);
    out.push(seg);
    proof {
        lemma_first_dot(tail);
        if first_dot(tail) != -1 {
            assert(tail[first_dot(tail)] == '.');
            assert(p@[start + first_dot(tail)] == '.');
            assert(false);
        }
        assert(path_view(out@) =~= path_view(out@.drop_last()) + seq![tail]);
    }
    out
}

/// Whether a segment is all digits.
fn is_index_seg(s: &str) -> (r: bool)
    ensures
        r == is_digits(s@),
{
    let n = s.unicode_len();
    if n == 0 {
        return false;
    }
    let mut i: usize = 0;
    while i < n
        invariant
            0 <= i <= n,
            n == s@.len(),
            forall|j: int| 0 <= j < i ==> is_digit_char(s@[j]),
        decreases n - i,
    {
        let c = s.get_char(i);
        let cu = c as u32;
        if !(48 <= cu && cu <= 57) {
            return false;
        }
        i = i + 1;
    }
    true
}

/// The value of an all-digit segment, where it fits.
fn parse_index(s: &str) -> (r: Option<u64>)
    requires
        is_digits(s@),
    ensures
        match r {
            Some(v) => digits_val(s@) == v,
            None => digits_val(s@) > u64::MAX,
        },
{
    let n = s.unicode_len();
    let mut acc: u64 = 0;
    let mut i: usize = 0;
    proof {
        assert(s@.subrange(0, 0) =~= Seq::<char>::empty());
    }
    while i < n
        invariant
            0 <= i <= n,
            n == s@.len(),
            is_digits(s@),
            acc == digits_val(s@.subrange(0, i as int)),
        decreases n - i,
    {
        let c = s.get_char(i);
        let cu = c as u32;
        proof {
            assert(is_digit_char(s@[i as int]));
        }
        let d: u64 = (cu - 48) as u64;
        proof {
            let p = s@.subrange(0, i + 1);
            assert(p.drop_last() =~= s@.subrange(0, i as int));
            assert(p.last() == s@[i as int]);
            assert(digits_val(p) == acc * 10 + d);
        }
        if acc > (u64::MAX - d) / 10 {
            proof {
                assert(acc * 10 + d > u64::MAX) by (nonlinear_arith)
                    requires
                        acc > (u64::MAX - d) / 10,
                        d <= 9,
                ;
                lemma_digits_val_prefix(s@, i + 1);
            }
            return None;
        }
        proof {
            assert(acc * 10 + d <= u64::MAX) by (nonlinear_arith)
                requires
                    acc <= (u64::MAX - d) / 10,
                    d <= 9,
            ;
        }
        acc = acc * 10 + d;
        i = i + 1;
    }
    proof {
        assert(s@.subrange(0, n as int) =~= s@);
    }
    Some(acc)
}

/// The first entry with this key, as the walker finds it.
fn obj_position(entries: &Vec<(String, Json)>, key: &String) -> (r: Option<usize>)
    ensures
        match r {
            Some(k) => 0 <= k < entries@.len() && obj_index_of(obj_view(entries@), key@)
                == k as int,
            None => obj_index_of(obj_view(entries@), key@) == -1,
        },
{
    let n = entries.len();
    let mut i: usize = 0;
    while i < n
        invariant
            0 <= i <= n,
            n == entries@.len(),
            forall|j: int| 0 <= j < i ==> entries@[j].0@ != key@,
        decreases n - i,
    {
        if entries[i].0 == *key {
            proof {
                lemma_obj_index_of(obj_view(entries@), key@);
                assert(obj_view(entries@)[i as int].0 == key@);
            }
            return Some(i);
        }
        i = i + 1;
    }
    proof {
        lemma_obj_index_of(obj_view(entries@), key@);
        let d = obj_index_of(obj_view(entries@), key@);
        if d != -1 {
            assert(obj_view(entries@)[d].0 == key@);
            assert(entries@[d].0@ == key@);
        }
    }
    None
}

/// Removing an entry and inserting another at the same place is an update.
proof fn lemma_remove_insert<T>(s: Seq<T>, k: int, e: T)
    requires
        0 <= k < s.len(),
    ensures
        s.remove(k).insert(k, e) =~= s.update(k, e),
{
    assert forall|m: int| 0 <= m < s.len() implies s.remove(k).insert(k, e)[m] == s.update(
        k,
        e,
    )[m] by {
        if m < k {
        } else if m == k {
        } else {
            assert(s.remove(k)[m - 1] == s[m]);
        }
    }
}

/// Read the value at a dotted path, walking from segment `i`.
#[verifier::rlimit(50)]
pub fn dot_get_at<'a>(j: &'a Json, path: &Vec<String>, i: usize) -> (r: Option<&'a Json>)
    requires
        i <= path@.len(),
    ensures
        match r {
            Some(v) => spec_dot_get(j@, path_view(path@).skip(i as int)) == Some(v@),
            None => spec_dot_get(j@, path_view(path@).skip(i as int)) is None,
        },
    decreases path@.len() - i,
{
    let ghost tail = path_view(path@).skip(i as int);
    proof {
        lemma_view_variant(j);
    }
    if i == path.len() {
        proof {
            assert(tail.len() == 0);
        }
        return Some(j);
    }
    let seg = &path[i];
    proof {
        assert(tail[0] == seg@);
        assert(tail.skip(1) =~= path_view(path@).skip(i + 1));
    }
    match j {
        Json::Obj(entries) => {
            proof {
                lemma_view_obj(j);
                assert(*entries == j->Obj_0);
            }
            match obj_position(entries, seg) {
                Some(k) => {
                    proof {
                        assert(obj_view(entries@)[k as int].1 == entries@[k as int].1@);
                    }
                    match dot_get_at(&entries[k].1, path, i + 1) {
                        Some(v) => {
                            proof {
                                assert(spec_dot_get(j@, tail) == Some(v@));
                            }
                            Some(v)
                        },
                        None => {
                            proof {
                                assert(j@->Obj_0 == obj_view(entries@));
                                assert(obj_index_of(j@->Obj_0, seg@) == k as int);
                                assert(spec_dot_get(entries@[k as int].1@, tail.skip(1)) is None);
                                assert(spec_dot_get(j@, tail) is None);
                            }
                            None
                        },
                    }
                },
                None => {
                    proof {
                        assert(obj_index_of(j@->Obj_0, seg@) == -1);
                        assert(spec_dot_get(j@, tail) is None);
                    }
                    None
                },
            }
        },
        Json::Arr(items) => {
            proof {
                lemma_view_arr(j);
                assert(*items == j->Arr_0);
            }
            if !is_index_seg(seg.as_str()) {
                proof {
                    assert(spec_dot_get(j@, tail) is None);
                }
                return None;
            }
            let nn: u64 = items.len() as u64;
            match parse_index(seg.as_str()) {
                Some(ix) => {
                    if ix < nn {
                        proof {
                            assert(arr_view(items@)[ix as int] == items@[ix as int]@);
                        }
                        match dot_get_at(&items[ix as usize], path, i + 1) {
                            Some(v) => {
                                proof {
                                    assert(spec_dot_get(j@, tail) == Some(v@));
                                }
                                Some(v)
                            },
                            None => {
                                proof {
                                    assert(spec_dot_get(items@[ix as int]@, tail.skip(1)) is None);
                                    assert(spec_dot_get(j@, tail) is None);
                                }
                                None
                            },
                        }
                    } else {
                        proof {
                            assert(seg_index(seg@) >= j@->Arr_0.len());
                            assert(spec_dot_get(j@, tail) is None);
                        }
                        None
                    }
                },
                None => {
                    proof {
                        assert(seg_index(seg@) >= j@->Arr_0.len());
                        assert(spec_dot_get(j@, tail) is None);
                    }
                    None
                },
            }
        },
        _ => {
            proof {
                assert(spec_dot_get(j@, tail) is None);
            }
            None
        },
    }
}

/// A verified copy of an object's entry list.
fn duplicate_entries(entries: &Vec<(String, Json)>) -> (r: Vec<(String, Json)>)
    ensures
        r@.len() == entries@.len(),
        forall|m: int|
            0 <= m < entries@.len() ==> r@[m].0@ == entries@[m].0@ && r@[m].1@ == entries@[m].1@,
{
    let n = entries.len();
    let mut out: Vec<(String, Json)> = Vec::new();
    let mut i: usize = 0;
    while i < n
        invariant
            n == entries@.len(),
            0 <= i <= n,
            out@.len() == i,
            forall|j: int| 0 <= j < i ==> out@[j].0@ == entries@[j].0@ && out@[j].1@ == entries@[j].1@,
        decreases n - i,
    {
        out.push((entries[i].0.clone(), entries[i].1.duplicate()));
        i = i + 1;
    }
    out
}

/// A verified copy of an array's item list.
fn duplicate_items(items: &Vec<Json>) -> (r: Vec<Json>)
    ensures
        r@.len() == items@.len(),
        forall|m: int| 0 <= m < items@.len() ==> r@[m]@ == items@[m]@,
{
    let n = items.len();
    let mut out: Vec<Json> = Vec::new();
    let mut i: usize = 0;
    while i < n
        invariant
            n == items@.len(),
            0 <= i <= n,
            out@.len() == i,
            forall|j: int| 0 <= j < i ==> out@[j]@ == items@[j]@,
        decreases n - i,
    {
        out.push(items[i].duplicate());
        i = i + 1;
    }
    out
}

/// Write `v` at a dotted path, walking from segment `i`; `None` is a path
/// error and the document is handed back unchanged by the caller.
pub fn dot_set_at(j: &Json, path: &Vec<String>, i: usize, v: Json) -> (r: Option<Json>)
    requires
        i <= path@.len(),
    ensures
        match r {
            Some(out) => spec_dot_set(j@, path_view(path@).skip(i as int), v@) == Some(out@),
            None => spec_dot_set(j@, path_view(path@).skip(i as int), v@) is None,
        },
    decreases path@.len() - i,
{
    let ghost tail = path_view(path@).skip(i as int);
    let ghost vv = v@;
    proof {
        lemma_view_variant(j);
        reveal_with_fuel(spec_dot_set, 2);
    }
    if i == path.len() {
        proof {
            assert(tail.len() == 0);
        }
        return Some(v);
    }
    let seg = &path[i];
    proof {
        assert(tail[0] == seg@);
        assert(tail.skip(1) =~= path_view(path@).skip(i + 1));
    }
    match j {
        Json::Obj(entries) => {
            let ghost es = j@->Obj_0;
            proof {
                lemma_view_obj(j);
                assert(*entries == j->Obj_0);
                lemma_obj_index_of(es, seg@);
            }
            match obj_position(entries, seg) {
                Some(k) => {
                    proof {
                        assert(es[k as int] == (entries@[k as int].0@, entries@[k as int].1@));
                    }
                    match dot_set_at(&entries[k].1, path, i + 1, v) {
                        Some(c) => {
                            let ghost cv = c@;
                            let mut out = duplicate_entries(entries);
                            let key = entries[k].0.clone();
                            out[k] = (key, c);
                            let r = Json::Obj(out);
                            proof {
                                assert forall|m: int| 0 <= m < es.len() implies r@->Obj_0[m]
                                    == es.update(k as int, (seg@, cv))[m] by {
                                    assert(es[m] == (entries@[m].0@, entries@[m].1@));
                                }
                                assert(r@->Obj_0 =~= es.update(k as int, (seg@, cv)));
                                assert(r@ =~~= JsonV::Obj(es.update(k as int, (seg@, cv))));
                            }
                            Some(r)
                        },
                        None => {
                            proof {
                                assert(obj_index_of(j@->Obj_0, seg@) == k as int);
                                assert(spec_dot_set(entries@[k as int].1@, tail.skip(1), vv)
                                    is None);
                                assert(spec_dot_set(j@, tail, vv) is None);
                            }
                            None
                        },
                    }
                },
                None => {
                    match dot_set_at(&Json::Null, path, i + 1, v) {
                        Some(c) => {
                            let ghost cv = c@;
                            let mut out = duplicate_entries(entries);
                            out.push((seg.clone(), c));
                            let r = Json::Obj(out);
                            proof {
                                assert forall|m: int| 0 <= m < es.len() + 1 implies r@->Obj_0[m]
                                    == es.push((seg@, cv))[m] by {
                                    if m < es.len() {
                                        assert(es[m] == (entries@[m].0@, entries@[m].1@));
                                    }
                                }
                                assert(r@->Obj_0 =~= es.push((seg@, cv)));
                                assert(r@ =~~= JsonV::Obj(es.push((seg@, cv))));
                            }
                            Some(r)
                        },
                        None => {
                            proof {
                                assert(obj_index_of(j@->Obj_0, seg@) == -1);
                                assert(spec_dot_set(JsonV::Null, tail.skip(1), vv) is None);
                                assert(spec_dot_set(j@, tail, vv) is None);
                            }
                            None
                        },
                    }
                },
            }
        },
        Json::Arr(items) => {
            let ghost its = j@->Arr_0;
            proof {
                lemma_view_arr(j);
                assert(*items == j->Arr_0);
            }
            if !is_index_seg(seg.as_str()) {
                proof {
                    assert(spec_dot_set(j@, tail, vv) is None);
                }
                return None;
            }
            let nn: u64 = items.len() as u64;
            match parse_index(seg.as_str()) {
                Some(ix) => {
                    if ix < items.len() as u64 {
                        let k = ix as usize;
                        proof {
                            assert(its[k as int] == items@[k as int]@);
                        }
                        match dot_set_at(&items[k], path, i + 1, v) {
                            Some(c) => {
                                let ghost cv = c@;
                                let mut out = duplicate_items(items);
                                out[k] = c;
                                let r = Json::Arr(out);
                                proof {
                                    assert forall|m: int| 0 <= m < its.len() implies r@->Arr_0[m]
                                        == its.update(k as int, cv)[m] by {
                                        assert(its[m] == items@[m]@);
                                    }
                                    assert(r@->Arr_0 =~= its.update(k as int, cv));
                                    assert(r@ =~~= JsonV::Arr(its.update(k as int, cv)));
                                }
                                Some(r)
                            },
                            None => {
                                proof {
                                    assert(spec_dot_set(items@[k as int]@, tail.skip(1), vv)
                                        is None);
                                    assert(spec_dot_set(j@, tail, vv) is None);
                                }
                                None
                            },
                        }
                    } else if ix == items.len() as u64 {
                        match dot_set_at(&Json::Null, path, i + 1, v) {
                            Some(c) => {
                                let ghost cv = c@;
                                let mut out = duplicate_items(items);
                                out.push(c);
                                let r = Json::Arr(out);
                                proof {
                                    assert forall|m: int| 0 <= m < its.len() + 1 implies r@
                                        ->Arr_0[m] == its.push(cv)[m] by {
                                        if m < its.len() {
                                            assert(its[m] == items@[m]@);
                                        }
                                    }
                                    assert(r@->Arr_0 =~= its.push(cv));
                                    assert(r@ =~~= JsonV::Arr(its.push(cv)));
                                }
                                Some(r)
                            },
                            None => {
                                proof {
                                    assert(spec_dot_set(JsonV::Null, tail.skip(1), vv) is None);
                                    assert(spec_dot_set(j@, tail, vv) is None);
                                }
                                None
                            },
                        }
                    } else {
                        proof {
                            assert(seg_index(seg@) > its.len());
                            assert(spec_dot_set(j@, tail, vv) is None);
                        }
                        None
                    }
                },
                None => {
                    proof {
                        assert(seg_index(seg@) > its.len());
                        assert(spec_dot_set(j@, tail, vv) is None);
                    }
                    None
                },
            }
        },
        Json::Null => {
            if is_index_seg(seg.as_str()) {
                let want_zero = match parse_index(seg.as_str()) {
                    Some(ix) => ix == 0,
                    None => false,
                };
                if want_zero {
                    match dot_set_at(&Json::Null, path, i + 1, v) {
                        Some(c) => {
                            let ghost cv = c@;
                            let r = Json::Arr(vec![c]);
                            proof {
                                assert(r@->Arr_0 =~= seq![cv]);
                                assert(r@ =~~= JsonV::Arr(seq![cv]));
                            }
                            Some(r)
                        },
                        None => {
                            proof {
                                assert(spec_dot_set(j@, tail, vv) is None);
                            }
                            None
                        },
                    }
                } else {
                    proof {
                        assert(seg_index(seg@) != 0);
                        assert(spec_dot_set(j@, tail, vv) is None);
                    }
                    None
                }
            } else {
                match dot_set_at(&Json::Null, path, i + 1, v) {
                    Some(c) => {
                        let ghost cv = c@;
                        let r = Json::Obj(vec![(seg.clone(), c)]);
                        proof {
                            assert(r@->Obj_0 =~= seq![(seg@, cv)]);
                            assert(r@ =~~= JsonV::Obj(seq![(seg@, cv)]));
                        }
                        Some(r)
                    },
                    None => {
                        proof {
                            assert(spec_dot_set(j@, tail, vv) is None);
                        }
                        None
                    },
                }
            }
        },
        _ => {
            proof {
                assert(spec_dot_set(j@, tail, vv) is None);
            }
            None
        },
    }
}

/// Remove the node at a dotted path, walking from segment `i`; `None` is
/// a path error.
pub fn dot_remove_at(j: &Json, path: &Vec<String>, i: usize) -> (r: Option<Json>)
    requires
        i <= path@.len(),
    ensures
        match r {
            Some(out) => spec_dot_remove(j@, path_view(path@).skip(i as int)) == Some(out@),
            None => spec_dot_remove(j@, path_view(path@).skip(i as int)) is None,
        },
    decreases path@.len() - i,
{
    let ghost tail = path_view(path@).skip(i as int);
    proof {
        lemma_view_variant(j);
    }
    if i == path.len() {
        proof {
            assert(tail.len() == 0);
        }
        return Some(Json::Null);
    }
    let seg = &path[i];
    let last = i + 1 == path.len();
    proof {
        assert(tail[0] == seg@);
        assert(tail.skip(1) =~= path_view(path@).skip(i + 1));
        assert(last == (tail.skip(1).len() == 0));
    }
    match j {
        Json::Obj(entries) => {
            let ghost es = j@->Obj_0;
            proof {
                lemma_view_obj(j);
                assert(*entries == j->Obj_0);
                lemma_obj_index_of(es, seg@);
            }
            match obj_position(entries, seg) {
                Some(k) => {
                    proof {
                        assert(es[k as int] == (entries@[k as int].0@, entries@[k as int].1@));
                    }
                    if last {
                        let mut out = duplicate_entries(entries);
                        let _e = out.remove(k);
                        let r = Json::Obj(out);
                        proof {
                            assert forall|m: int| 0 <= m < es.len() - 1 implies r@->Obj_0[m]
                                == es.remove(k as int)[m] by {
                                if m < k {
                                    assert(es[m] == (entries@[m].0@, entries@[m].1@));
                                } else {
                                    assert(es[m + 1] == (entries@[m + 1].0@, entries@[m + 1].1@));
                                }
                            }
                            assert(r@->Obj_0 =~= es.remove(k as int));
                            assert(r@ =~~= JsonV::Obj(es.remove(k as int)));
                        }
                        Some(r)
                    } else {
                        match dot_remove_at(&entries[k].1, path, i + 1) {
                            Some(c) => {
                                let ghost cv = c@;
                                let mut out = duplicate_entries(entries);
                                let key = entries[k].0.clone();
                                out[k] = (key, c);
                                let r = Json::Obj(out);
                                proof {
                                    assert forall|m: int| 0 <= m < es.len() implies r@->Obj_0[m]
                                        == es.update(k as int, (seg@, cv))[m] by {
                                        assert(es[m] == (entries@[m].0@, entries@[m].1@));
                                    }
                                    assert(r@->Obj_0 =~= es.update(k as int, (seg@, cv)));
                                    assert(r@ =~~= JsonV::Obj(es.update(k as int, (seg@, cv))));
                                }
                                Some(r)
                            },
                            None => {
                                proof {
                                    assert(obj_index_of(j@->Obj_0, seg@) == k as int);
                                    assert(spec_dot_remove(entries@[k as int].1@, tail.skip(1))
                                        is None);
                                    assert(spec_dot_remove(j@, tail) is None);
                                }
                                None
                            },
                        }
                    }
                },
                None => {
                    proof {
                        assert(obj_index_of(j@->Obj_0, seg@) == -1);
                        assert(spec_dot_remove(j@, tail) is None);
                    }
                    None
                },
            }
        },
        Json::Arr(items) => {
            let ghost its = j@->Arr_0;
            proof {
                lemma_view_arr(j);
                assert(*items == j->Arr_0);
            }
            if !is_index_seg(seg.as_str()) {
                proof {
                    assert(spec_dot_remove(j@, tail) is None);
                }
                return None;
            }
            let nn: u64 = items.len() as u64;
            match parse_index(seg.as_str()) {
                Some(ix) => {
                    if ix < items.len() as u64 {
                        let k = ix as usize;
                        proof {
                            assert(its[k as int] == items@[k as int]@);
                        }
                        if last {
                            let mut out = duplicate_items(items);
                            let _c = out.remove(k);
                            let r = Json::Arr(out);
                            proof {
                                assert forall|m: int| 0 <= m < its.len() - 1 implies r@->Arr_0[m]
                                    == its.remove(k as int)[m] by {
                                    if m < k {
                                        assert(its[m] == items@[m]@);
                                    } else {
                                        assert(its[m + 1] == items@[m + 1]@);
                                    }
                                }
                                assert(r@->Arr_0 =~= its.remove(k as int));
                                assert(r@ =~~= JsonV::Arr(its.remove(k as int)));
                            }
                            Some(r)
                        } else {
                            match dot_remove_at(&items[k], path, i + 1) {
                                Some(c) => {
                                    let ghost cv = c@;
                                    let mut out = duplicate_items(items);
                                    out[k] = c;
                                    let r = Json::Arr(out);
                                    proof {
                                        assert forall|m: int| 0 <= m < its.len() implies r@
                                            ->Arr_0[m] == its.update(k as int, cv)[m] by {
                                            assert(its[m] == items@[m]@);
                                        }
                                        assert(r@->Arr_0 =~= its.update(k as int, cv));
                                        assert(r@ =~~= JsonV::Arr(its.update(k as int, cv)));
                                    }
                                    Some(r)
                                },
                                None => {
                                    proof {
                                        assert(spec_dot_remove(items@[k as int]@, tail.skip(1))
                                            is None);
                                        assert(spec_dot_remove(j@, tail) is None);
                                    }
                                    None
                                },
                            }
                        }
                    } else {
                        proof {
                            assert(seg_index(seg@) >= its.len());
                            assert(spec_dot_remove(j@, tail) is None);
                        }
                        None
                    }
                },
                None => {
                    proof {
                        assert(seg_index(seg@) > its.len());
                        assert(spec_dot_remove(j@, tail) is None);
                    }
                    None
                },
            }
        },
        _ => {
            proof {
                assert(spec_dot_remove(j@, tail) is None);
            }
            None
        },
    }
}


/// Writing the same value at the same path twice leaves the document as
/// after the first write: `JSET` is idempotent per pair.
pub proof fn lemma_dot_set_idempotent(j: JsonV, path: Seq<Seq<char>>, v: JsonV)
    ensures
        spec_dot_set(j, path, v) matches Some(c) ==> spec_dot_set(c, path, v) == Some(c),
    decreases path.len(),
{
    if path.len() == 0 {
    } else if spec_dot_set(j, path, v) is Some {
        let c = spec_dot_set(j, path, v).unwrap();
        let seg = path[0];
        let rest = path.skip(1);
        match j {
            JsonV::Obj(es) => {
                lemma_obj_index_of(es, seg);
                let k = obj_index_of(es, seg);
                if k == -1 {
                    let inner = spec_dot_set(JsonV::Null, rest, v).unwrap();
                    lemma_dot_set_idempotent(JsonV::Null, rest, v);
                    let es2 = es.push((seg, inner));
                    lemma_obj_index_of(es2, seg);
                    assert(obj_index_of(es2, seg) == es.len()) by {
                        lemma_obj_index_of(es2, seg);
                        assert(es2[es.len() as int].0 == seg);
                        if obj_index_of(es2, seg) < es.len() {
                            assert(es2[obj_index_of(es2, seg)] == es[obj_index_of(es2, seg)]);
                        }
                    }
                    assert(spec_dot_set(c, path, v) == Some(
                        JsonV::Obj(es2.update(es.len() as int, (seg, inner))),
                    ));
                    assert(es2.update(es.len() as int, (seg, inner)) =~= es2);
                } else {
                    let inner = spec_dot_set(es[k].1, rest, v).unwrap();
                    lemma_dot_set_idempotent(es[k].1, rest, v);
                    let es2 = es.update(k, (seg, inner));
                    lemma_obj_index_of(es2, seg);
                    assert(obj_index_of(es2, seg) == k) by {
                        assert(es2[k].0 == seg);
                        let k2 = obj_index_of(es2, seg);
                        if k2 != -1 && k2 < k {
                            assert(es2[k2] == es[k2]);
                        }
                        if k2 != -1 && k2 > k {
                            assert(es2[k].0 == seg);
                        }
                    }
                    assert(spec_dot_set(c, path, v) == Some(
                        JsonV::Obj(es2.update(k, (seg, inner))),
                    ));
                    assert(es2.update(k, (seg, inner)) =~= es2);
                }
            },
            JsonV::Arr(items) => {
                if seg_is_index(seg) && seg_index(seg) < items.len() {
                    let ix = seg_index(seg);
                    crate::numtext::lemma_digits_val_nonneg(seg);
                    let inner = spec_dot_set(items[ix], rest, v).unwrap();
                    lemma_dot_set_idempotent(items[ix], rest, v);
                    let is2 = items.update(ix, inner);
                    assert(is2.len() == items.len());
                    assert(is2[ix] == inner);
                    assert(spec_dot_set(c, path, v) == Some(JsonV::Arr(is2.update(ix, inner))));
                    assert(is2.update(ix, inner) =~= is2);
                    assert(c == JsonV::Arr(is2));
                } else {
                    let ix = seg_index(seg);
                    crate::numtext::lemma_digits_val_nonneg(seg);
                    let inner = spec_dot_set(JsonV::Null, rest, v).unwrap();
                    lemma_dot_set_idempotent(JsonV::Null, rest, v);
                    let is2 = items.push(inner);
                    assert(is2.len() == items.len() + 1);
                    assert(is2[ix] == inner);
                    assert(spec_dot_set(c, path, v) == Some(JsonV::Arr(is2.update(ix, inner))));
                    assert(is2.update(ix, inner) =~= is2);
                    assert(c == JsonV::Arr(is2));
                }
            },
            JsonV::Null => {
                let inner = spec_dot_set(JsonV::Null, rest, v).unwrap();
                lemma_dot_set_idempotent(JsonV::Null, rest, v);
                if seg_is_index(seg) {
                    assert(spec_dot_set(c, path, v) == Some(
                        JsonV::Arr(seq![inner].update(0, inner)),
                    ));
                    assert(seq![inner].update(0, inner) =~= seq![inner]);
                } else {
                    let es2 = seq![(seg, inner)];
                    lemma_obj_index_of(es2, seg);
                    assert(spec_dot_set(c, path, v) == Some(
                        JsonV::Obj(es2.update(0, (seg, inner))),
                    ));
                    assert(es2.update(0, (seg, inner)) =~= es2);
                }
            },
            _ => {},
        }
    }
}



/// Deep merge, the fresh document taking precedence; see `spec_merge`.
#[verifier::loop_isolation(false)]
pub fn merge_json(fresh: &Json, old_doc: &Json) -> (r: Json)
    ensures
        r@ == spec_merge(fresh@, old_doc@),
    decreases fresh,
{
    proof {
        lemma_view_variant(fresh);
        lemma_view_variant(old_doc);
    }
    match fresh {
        Json::Obj(fs) => {
            match old_doc {
                Json::Obj(os) => {
                    proof {
                        lemma_view_obj(fresh);
                        lemma_view_obj(old_doc);
                    }
                    let ghost fsv = fresh@->Obj_0;
                    let ghost osv = old_doc@->Obj_0;
                    let mut out: Vec<(String, Json)> = Vec::new();
                    let n = os.len();
                    let mut i: usize = 0;
                    proof {
                        assert(osv.skip(0) =~= osv);
                        assert(obj_view(out@) =~= Seq::<(Seq<char>, JsonV)>::empty());
                    }
                    while i < n
                        invariant
                            0 <= i <= n,
                            merge_keep(fsv, osv) =~= obj_view(out@) + merge_keep(
                                fsv,
                                osv.skip(i as int),
                            ),
                        decreases n - i,
                    {
                        let ghost out0 = obj_view(out@);
                        proof {
                            assert(osv.skip(i as int)[0] == osv[i as int]);
                            assert(osv.skip(i as int).skip(1) =~= osv.skip(i + 1));
                            assert(osv[i as int] == (os@[i as int].0@, os@[i as int].1@));
                        }
                        match obj_position(fs, &os[i].0) {
                            Some(_) => {},
                            None => {
                                out.push((os[i].0.clone(), os[i].1.duplicate()));
                                proof {
                                    assert(obj_view(out@) =~= out0.push(osv[i as int]));
                                    assert(out0.push(osv[i as int]) =~= out0 + seq![
                                        osv[i as int],
                                    ]);
                                }
                            },
                        }
                        i = i + 1;
                    }
                    proof {
                        assert(osv.skip(n as int) =~= Seq::<(Seq<char>, JsonV)>::empty());
                        assert(obj_view(out@) =~= merge_keep(fsv, osv));
                    }
                    let ghost keep = merge_keep(fsv, osv);
                    let m = fs.len();
                    let mut t: usize = 0;
                    while t < m
                        invariant
                            0 <= t <= m,
                            out@.len() == keep.len() + t,
                            forall|x: int| 0 <= x < keep.len() ==> obj_view(out@)[x] == keep[x],
                            forall|x: int|
                                0 <= x < t ==> obj_view(out@)[keep.len() + x]
                                    == spec_merge_entry(fsv, osv, x),
                        decreases m - t,
                    {
                        let ghost out0 = out@;
                        proof {
                            assert(fsv[t as int] == (fs@[t as int].0@, fs@[t as int].1@));
                            lemma_obj_index_of(osv, fsv[t as int].0);
                        }
                        let merged: Json = match obj_position(os, &fs[t].0) {
                            Some(k) => {
                                proof {
                                    assert(osv[k as int].1 == os@[k as int].1@);
                                    assert(decreases_to!(*fs => fs@[t as int]));
                                    assert(decreases_to!(*fresh => *fs));
                                }
                                merge_json(&fs[t].1, &os[k].1)
                            },
                            None => fs[t].1.duplicate(),
                        };
                        out.push((fs[t].0.clone(), merged));
                        proof {
                            assert forall|x: int| 0 <= x < out0.len() implies obj_view(out@)[x]
                                == obj_view(out0)[x] by {}
                            assert(obj_view(out@)[out0.len() as int] == spec_merge_entry(
                                fsv,
                                osv,
                                t as int,
                            ));
                        }
                        t = t + 1;
                    }
                    let r = Json::Obj(out);
                    proof {
                        lemma_view_obj(&r);
                        assert forall|x: int|
                            0 <= x < keep.len() + fsv.len() implies r@->Obj_0[x]
                            == spec_merge_entries(fsv, osv)[x] by {
                            assert(r@->Obj_0[x] == obj_view((r->Obj_0)@)[x]);
                            if x < keep.len() {
                                assert(obj_view((r->Obj_0)@)[x] == keep[x]);
                                assert(spec_merge_entries(fsv, osv)[x] == keep[x]);
                            } else {
                                let mm = x - keep.len();
                                assert(obj_view((r->Obj_0)@)[keep.len() + mm] == spec_merge_entry(
                                    fsv,
                                    osv,
                                    mm,
                                ));
                                assert(spec_merge_entries(fsv, osv)[x] == spec_merge_entry(
                                    fsv,
                                    osv,
                                    mm,
                                ));
                            }
                        }
                        assert(r@->Obj_0.len() == keep.len() + fsv.len());
                        assert(r@->Obj_0 =~= spec_merge_entries(fsv, osv));
                        assert(r@ =~~= JsonV::Obj(spec_merge_entries(fsv, osv)));
                    }
                    r
                },
                _ => fresh.duplicate(),
            }
        },
        _ => fresh.duplicate(),
    }
}


} // verus!
