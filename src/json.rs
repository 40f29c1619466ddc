//! JSON values: the mathematical model that contracts speak of, the
//! executable form that the CRDT edits, and their text.

use vstd::prelude::*;

verus! {

broadcast use vstd::std_specs::vec::axiom_vec_index_decreases;

/// A JSON value as mathematics sees it. Object members keep their order.
pub enum Json {
    Null,
    Bool(bool),
    Num(Seq<char>),
    Str(Seq<char>),
    Arr(Seq<Json>),
    Obj(Seq<(Seq<char>, Json)>),
}

/// A JSON value in memory. Numbers keep their JSON text.
#[derive(Debug)]
pub enum JsonValue {
    Null,
    Bool(bool),
    Number(String),
    Str(String),
    Array(Vec<JsonValue>),
    Object(Vec<(String, JsonValue)>),
}

/// The model of a value.
pub open spec fn jv(v: JsonValue) -> Json
    decreases v,
{
    match v {
        JsonValue::Null => Json::Null,
        JsonValue::Bool(b) => Json::Bool(b),
        JsonValue::Number(n) => Json::Num(n@),
        JsonValue::Str(s) => Json::Str(s@),
        JsonValue::Array(a) => Json::Arr(
            Seq::new(
                a@.len(),
                |i: int|
                    if 0 <= i < a@.len() {
                        jv(a@[i])
                    } else {
                        Json::Null
                    },
            ),
        ),
        JsonValue::Object(o) => Json::Obj(
            Seq::new(
                o@.len(),
                |i: int|
                    if 0 <= i < o@.len() {
                        (o@[i].0@, jv(o@[i].1))
                    } else {
                        (Seq::empty(), Json::Null)
                    },
            ),
        ),
    }
}

/// The model of an object's members.
pub open spec fn obj_model(o: Seq<(String, JsonValue)>) -> Seq<(Seq<char>, Json)> {
    Seq::new(o.len(), |i: int| (o[i].0@, jv(o[i].1)))
}

/// The model of an array's elements.
pub open spec fn arr_model(a: Seq<JsonValue>) -> Seq<Json> {
    Seq::new(a.len(), |i: int| jv(a[i]))
}

pub proof fn lemma_jv_obj(o: Vec<(String, JsonValue)>)
    ensures
        jv(JsonValue::Object(o)) == Json::Obj(obj_model(o@)),
{
    let s = match jv(JsonValue::Object(o)) {
        Json::Obj(s) => s,
        _ => Seq::empty(),
    };
    assert(s.len() == o@.len());
    assert forall|i: int| 0 <= i < s.len() implies s[i] == obj_model(o@)[i] by {}
    assert(s =~= obj_model(o@));
}

pub proof fn lemma_jv_arr(a: Vec<JsonValue>)
    ensures
        jv(JsonValue::Array(a)) == Json::Arr(arr_model(a@)),
{
    let s = match jv(JsonValue::Array(a)) {
        Json::Arr(s) => s,
        _ => Seq::empty(),
    };
    assert(s.len() == a@.len());
    assert forall|i: int| 0 <= i < s.len() implies s[i] == arr_model(a@)[i] by {}
    assert(s =~= arr_model(a@));
}

/// Strict lexicographic order of texts by character code: the order in
/// which JSON object members are kept.
pub open spec fn key_lt(a: Seq<char>, b: Seq<char>) -> bool
    decreases a.len(),
{
    if a.len() == 0 {
        b.len() > 0
    } else if b.len() == 0 {
        false
    } else if a[0] != b[0] {
        (a[0] as u32) < (b[0] as u32)
    } else {
        key_lt(a.drop_first(), b.drop_first())
    }
}

/// Where key `k` stands or belongs among members `e`: the first member whose
/// key is `k` or comes after `k`, else the end.
pub open spec fn put_pos(e: Seq<(Seq<char>, Json)>, k: Seq<char>) -> int
    decreases e.len(),
{
    if e.len() == 0 {
        0
    } else if e[0].0 == k || key_lt(k, e[0].0) {
        0
    } else {
        1 + put_pos(e.drop_first(), k)
    }
}

/// The member value for key `k`.
pub open spec fn obj_get(e: Seq<(Seq<char>, Json)>, k: Seq<char>) -> Option<Json> {
    let j = put_pos(e, k);
    if 0 <= j < e.len() && e[j].0 == k {
        Some(e[j].1)
    } else {
        None
    }
}

/// The members with `k` bound to `v`: replaced in place, or inserted where
/// it belongs in key order.
pub open spec fn obj_put(e: Seq<(Seq<char>, Json)>, k: Seq<char>, v: Json) -> Seq<(Seq<char>, Json)> {
    let j = put_pos(e, k);
    if 0 <= j < e.len() && e[j].0 == k {
        e.update(j, (k, v))
    } else {
        e.insert(j, (k, v))
    }
}

/// The members without key `k`.
pub open spec fn obj_remove(e: Seq<(Seq<char>, Json)>, k: Seq<char>) -> Seq<(Seq<char>, Json)> {
    let j = put_pos(e, k);
    if 0 <= j < e.len() && e[j].0 == k {
        e.remove(j)
    } else {
        e
    }
}

/// Setting `x` at `path`: every step but the last must be an object or
/// missing (a missing one becomes an empty object); the last key is bound
/// to `x`. `None` where the path runs through something other than an
/// object.
pub open spec fn set_path(v: Json, path: Seq<Seq<char>>, x: Json) -> Option<Json>
    decreases path.len(),
{
    match v {
        Json::Obj(e) => if path.len() == 0 {
            None
        } else if path.len() == 1 {
            Some(Json::Obj(obj_put(e, path[0], x)))
        } else {
            let child = match obj_get(e, path[0]) {
                Some(c) => c,
                None => Json::Obj(Seq::empty()),
            };
            match set_path(child, path.drop_first(), x) {
                Some(c2) => Some(Json::Obj(obj_put(e, path[0], c2))),
                None => None,
            }
        },
        _ => None,
    }
}

/// Deleting the member at `path`. `None` where a step of the path is a
/// missing key, in which case nothing changes; a step that is not an
/// object leaves the value as it is.
pub open spec fn delete_path(v: Json, path: Seq<Seq<char>>) -> Option<Json>
    decreases path.len(),
{
    match v {
        Json::Obj(e) => if path.len() == 0 {
            Some(v)
        } else if path.len() == 1 {
            Some(Json::Obj(obj_remove(e, path[0])))
        } else {
            match obj_get(e, path[0]) {
                Some(c) => match delete_path(c, path.drop_first()) {
                    Some(c2) => Some(Json::Obj(obj_put(e, path[0], c2))),
                    None => None,
                },
                None => None,
            }
        },
        _ => Some(v),
    }
}

/// Appending `x` to the array or text found at the end of `path`. Steps
/// that reach a non-object stay where they are; a missing key, or a target
/// that is neither an array nor a text, gives `None`. A text only grows by
/// a text.
pub open spec fn append_path(v: Json, path: Seq<Seq<char>>, x: Json) -> Option<Json>
    decreases path.len(),
{
    match v {
        Json::Obj(e) => if path.len() == 0 {
            None
        } else {
            match obj_get(e, path[0]) {
                Some(c) => match append_path(c, path.drop_first(), x) {
                    Some(c2) => Some(Json::Obj(obj_put(e, path[0], c2))),
                    None => None,
                },
                None => None,
            }
        },
        Json::Arr(a) => Some(Json::Arr(a.push(x))),
        Json::Str(s) => match x {
            Json::Str(t) => Some(Json::Str(s + t)),
            _ => Some(v),
        },
        _ => None,
    }
}

/// The members of `a` with every member of `b` put in, in `b`'s order.
pub open spec fn obj_put_all(a: Seq<(Seq<char>, Json)>, b: Seq<(Seq<char>, Json)>) -> Seq<
    (Seq<char>, Json),
>
    decreases b.len(),
{
    if b.len() == 0 {
        a
    } else {
        obj_put_all(obj_put(a, b[0].0, b[0].1), b.drop_first())
    }
}

/// Two objects merge member by member, the new one's members winning; two
/// arrays concatenate; otherwise the new value replaces the old.
pub open spec fn merge_values(old: Json, new: Json) -> Json {
    match (old, new) {
        (Json::Obj(a), Json::Obj(b)) => Json::Obj(obj_put_all(a, b)),
        (Json::Arr(a), Json::Arr(b)) => Json::Arr(a + b),
        _ => new,
    }
}

/// Merging `x` into the value at `path`, found the way `set_path` finds
/// it; a missing value counts as null.
pub open spec fn merge_path(v: Json, path: Seq<Seq<char>>, x: Json) -> Option<Json>
    decreases path.len(),
{
    match v {
        Json::Obj(e) => if path.len() == 0 {
            None
        } else if path.len() == 1 {
            let old = match obj_get(e, path[0]) {
                Some(c) => c,
                None => Json::Null,
            };
            Some(Json::Obj(obj_put(e, path[0], merge_values(old, x))))
        } else {
            let child = match obj_get(e, path[0]) {
                Some(c) => c,
                None => Json::Obj(Seq::empty()),
            };
            match merge_path(child, path.drop_first(), x) {
                Some(c2) => Some(Json::Obj(obj_put(e, path[0], c2))),
                None => None,
            }
        },
        _ => None,
    }
}

/// The models of an optional value.
pub open spec fn opt_jv(r: Option<JsonValue>) -> Option<Json> {
    match r {
        Some(v) => Some(jv(v)),
        None => None,
    }
}

/// The texts of a path.
pub open spec fn keys_of(p: Seq<String>) -> Seq<Seq<char>> {
    Seq::new(p.len(), |i: int| p[i]@)
}

/// Whether `a` comes before `b`.
pub fn key_less(a: &str, b: &str) -> (r: bool)
    ensures
        r == key_lt(a@, b@),
{
    let x = crate::text::chars_of(a);
    let y = crate::text::chars_of(b);
    let mut i: usize = 0;
    assert(a@.subrange(0, a@.len() as int) =~= a@);
    assert(b@.subrange(0, b@.len() as int) =~= b@);
    while i < x.len() && i < y.len() && x[i] == y[i]
        invariant
            x@ == a@,
            y@ == b@,
            i <= x@.len(),
            i <= y@.len(),
            key_lt(a@, b@) == key_lt(a@.subrange(i as int, a@.len() as int), b@.subrange(i as int, b@.len() as int)),
        decreases x@.len() - i,
    {
        proof {
            let sa = a@.subrange(i as int, a@.len() as int);
            let sb = b@.subrange(i as int, b@.len() as int);
            assert(sa.drop_first() =~= a@.subrange(i + 1, a@.len() as int));
            assert(sb.drop_first() =~= b@.subrange(i + 1, b@.len() as int));
        }
        i = i + 1;
    }
    if i == x.len() {
        i < y.len()
    } else if i == y.len() {
        false
    } else {
        (x[i] as u32) < (y[i] as u32)
    }
}

proof fn lemma_put_pos_at(e: Seq<(Seq<char>, Json)>, k: Seq<char>, i: int)
    requires
        0 <= i <= e.len(),
        forall|j: int| 0 <= j < i ==> !(e[j].0 == k || key_lt(k, e[j].0)),
        i == e.len() || (e[i].0 == k || key_lt(k, e[i].0)),
    ensures
        put_pos(e, k) == i,
    decreases i,
{
    if i > 0 {
        assert forall|j: int| 0 <= j < i - 1 implies !(e.drop_first()[j].0 == k || key_lt(
            k,
            e.drop_first()[j].0,
        )) by {
            assert(e.drop_first()[j] == e[j + 1]);
        }
        lemma_put_pos_at(e.drop_first(), k, i - 1);
    }
}

/// Where `key` stands or belongs among the members `o`.
fn put_position(o: &Vec<(String, JsonValue)>, key: &String) -> (r: usize)
    ensures
        r as int == put_pos(obj_model(o@), key@),
        r <= o@.len(),
{
    let ghost e = obj_model(o@);
    let mut i: usize = 0;
    while i < o.len()
        invariant
            e == obj_model(o@),
            i <= o@.len(),
            forall|j: int| 0 <= j < i ==> !(e[j].0 == key@ || key_lt(key@, e[j].0)),
        decreases o@.len() - i,
    {
        if o[i].0 == *key || key_less(key.as_str(), o[i].0.as_str()) {
            proof {
                lemma_put_pos_at(e, key@, i as int);
            }
            return i;
        }
        i = i + 1;
    }
    proof {
        lemma_put_pos_at(e, key@, i as int);
    }
    i
}

proof fn lemma_model_update(o: Seq<(String, JsonValue)>, j: int, m: (String, JsonValue))
    requires
        0 <= j < o.len(),
    ensures
        obj_model(o.update(j, m)) == obj_model(o).update(j, (m.0@, jv(m.1))),
{
    assert(obj_model(o.update(j, m)) =~= obj_model(o).update(j, (m.0@, jv(m.1))));
}

proof fn lemma_model_insert(o: Seq<(String, JsonValue)>, j: int, m: (String, JsonValue))
    requires
        0 <= j <= o.len(),
    ensures
        obj_model(o.insert(j, m)) == obj_model(o).insert(j, (m.0@, jv(m.1))),
{
    assert(obj_model(o.insert(j, m)) =~= obj_model(o).insert(j, (m.0@, jv(m.1))));
}

proof fn lemma_model_remove(o: Seq<(String, JsonValue)>, j: int)
    requires
        0 <= j < o.len(),
    ensures
        obj_model(o.remove(j)) == obj_model(o).remove(j),
{
    assert(obj_model(o.remove(j)) =~= obj_model(o).remove(j));
}

/// Binds `key` to `x` among the members `o`.
pub fn obj_insert(o: &mut Vec<(String, JsonValue)>, key: String, x: JsonValue)
    ensures
        obj_model(final(o)@) == obj_put(obj_model(old(o)@), key@, jv(x)),
{
    let pos = put_position(o, &key);
    let ghost before = o@;
    if pos < o.len() && o[pos].0 == key {
        o.set(pos, (key, x));
        proof {
            lemma_model_update(before, pos as int, o@[pos as int]);
            assert(o@ == before.update(pos as int, o@[pos as int]));
        }
    } else {
        o.insert(pos, (key, x));
        proof {
            lemma_model_insert(before, pos as int, o@[pos as int]);
            assert(o@ == before.insert(pos as int, o@[pos as int]));
        }
    }
}

/// Takes the member for `key` out of `o`, if any; `o` keeps its order.
/// Returns the position the key stands or belongs at, and the value.
fn obj_take(o: &mut Vec<(String, JsonValue)>, key: &String) -> (r: (usize, Option<JsonValue>))
    ensures
        r.0 as int == put_pos(obj_model(old(o)@), key@),
        opt_jv(r.1) == obj_get(obj_model(old(o)@), key@),
        r.1 is Some ==> final(o)@ == old(o)@.remove(r.0 as int),
        r.1 is None ==> final(o)@ == old(o)@,
        r.0 <= final(o)@.len(),
{
    let pos = put_position(o, key);
    if pos < o.len() && o[pos].0 == *key {
        let (_, v) = o.remove(pos);
        (pos, Some(v))
    } else {
        (pos, None)
    }
}

/// Sets `x` at `path[i..]` inside `v`.
pub fn set_at(v: JsonValue, path: &Vec<String>, i: usize, x: JsonValue) -> (r: Option<JsonValue>)
    requires
        i < path@.len(),
    ensures
        opt_jv(r) == set_path(jv(v), keys_of(path@).subrange(i as int, path@.len() as int), jv(x)),
    decreases path@.len() - i,
{
    let ghost p = keys_of(path@).subrange(i as int, path@.len() as int);
    assert(p[0] == path@[i as int]@);
    assert(p.drop_first() =~= keys_of(path@).subrange(i + 1, path@.len() as int));
    match v {
        JsonValue::Object(mut entries) => {
            proof {
                lemma_jv_obj(entries);
            }
            let ghost e = obj_model(entries@);
            let key = path[i].clone();
            if i == path.len() - 1 {
                obj_insert(&mut entries, key, x);
                proof {
                    lemma_jv_obj(entries);
                }
                Some(JsonValue::Object(entries))
            } else {
                let ghost before = entries@;
                let (pos, taken) = obj_take(&mut entries, &key);
                let child = match taken {
                    Some(c) => c,
                    None => {
                        let fresh: Vec<(String, JsonValue)> = Vec::new();
                        proof {
                            lemma_jv_obj(fresh);
                            assert(obj_model(fresh@) =~= Seq::empty());
                        }
                        JsonValue::Object(fresh)
                    },
                };
                match set_at(child, path, i + 1, x) {
                    Some(c2) => {
                        let ghost mid = entries@;
                        entries.insert(pos, (key, c2));
                        proof {
                            lemma_model_insert(mid, pos as int, entries@[pos as int]);
                            assert(entries@ == mid.insert(pos as int, entries@[pos as int]));
                            if taken is Some {
                                lemma_model_remove(before, pos as int);
                                assert(obj_model(entries@) =~= e.update(
                                    pos as int,
                                    (key@, jv(entries@[pos as int].1)),
                                ));
                            }
                            lemma_jv_obj(entries);
                        }
                        Some(JsonValue::Object(entries))
                    },
                    None => None,
                }
            }
        },
        _ => None,
    }
}

/// Deletes the member at `path[i..]` inside `v`.
pub fn delete_at(v: JsonValue, path: &Vec<String>, i: usize) -> (r: Option<JsonValue>)
    requires
        i < path@.len(),
    ensures
        opt_jv(r) == delete_path(jv(v), keys_of(path@).subrange(i as int, path@.len() as int)),
    decreases path@.len() - i,
{
    let ghost p = keys_of(path@).subrange(i as int, path@.len() as int);
    assert(p[0] == path@[i as int]@);
    assert(p.drop_first() =~= keys_of(path@).subrange(i + 1, path@.len() as int));
    match v {
        JsonValue::Object(mut entries) => {
            proof {
                lemma_jv_obj(entries);
            }
            let ghost e = obj_model(entries@);
            let ghost before = entries@;
            let key = path[i].clone();
            let (pos, taken) = obj_take(&mut entries, &key);
            if i == path.len() - 1 {
                proof {
                    if taken is Some {
                        lemma_model_remove(before, pos as int);
                    }
                    lemma_jv_obj(entries);
                }
                Some(JsonValue::Object(entries))
            } else {
                match taken {
                    Some(child) => match delete_at(child, path, i + 1) {
                        Some(c2) => {
                            let ghost mid = entries@;
                            entries.insert(pos, (key, c2));
                            proof {
                                lemma_model_insert(mid, pos as int, entries@[pos as int]);
                                assert(entries@ == mid.insert(pos as int, entries@[pos as int]));
                                lemma_model_remove(before, pos as int);
                                assert(obj_model(entries@) =~= e.update(
                                    pos as int,
                                    (key@, jv(entries@[pos as int].1)),
                                ));
                                lemma_jv_obj(entries);
                            }
                            Some(JsonValue::Object(entries))
                        },
                        None => None,
                    },
                    None => None,
                }
            }
        },
        other => Some(other),
    }
}

/// Appends `x` to the array or text at `path[i..]` inside `v`.
pub fn append_at(v: JsonValue, path: &Vec<String>, i: usize, x: JsonValue) -> (r: Option<JsonValue>)
    requires
        i <= path@.len(),
    ensures
        opt_jv(r) == append_path(jv(v), keys_of(path@).subrange(i as int, path@.len() as int), jv(x)),
    decreases path@.len() - i,
{
    let ghost p = keys_of(path@).subrange(i as int, path@.len() as int);
    match v {
        JsonValue::Object(mut entries) => {
            proof {
                lemma_jv_obj(entries);
            }
            if i == path.len() {
                return None;
            }
            assert(p[0] == path@[i as int]@);
            assert(p.drop_first() =~= keys_of(path@).subrange(i + 1, path@.len() as int));
            let ghost e = obj_model(entries@);
            let ghost before = entries@;
            let key = path[i].clone();
            let (pos, taken) = obj_take(&mut entries, &key);
            match taken {
                Some(child) => match append_at(child, path, i + 1, x) {
                    Some(c2) => {
                        let ghost mid = entries@;
                        entries.insert(pos, (key, c2));
                        proof {
                            lemma_model_insert(mid, pos as int, entries@[pos as int]);
                            assert(entries@ == mid.insert(pos as int, entries@[pos as int]));
                            lemma_model_remove(before, pos as int);
                            assert(obj_model(entries@) =~= e.update(
                                pos as int,
                                (key@, jv(entries@[pos as int].1)),
                            ));
                            lemma_jv_obj(entries);
                        }
                        Some(JsonValue::Object(entries))
                    },
                    None => None,
                },
                None => None,
            }
        },
        JsonValue::Array(mut items) => {
            proof {
                lemma_jv_arr(items);
            }
            let ghost before = items@;
            items.push(x);
            proof {
                assert(arr_model(items@) =~= arr_model(before).push(jv(items@.last())));
                lemma_jv_arr(items);
            }
            Some(JsonValue::Array(items))
        },
        JsonValue::Str(mut text) => {
            match x {
                JsonValue::Str(t) => {
                    text.append(t.as_str());
                    Some(JsonValue::Str(text))
                },
                _ => Some(JsonValue::Str(text)),
            }
        },
        _ => None,
    }
}

/// Merges the members of `b` into `a`, in `b`'s order.
fn put_all(a: &mut Vec<(String, JsonValue)>, b: Vec<(String, JsonValue)>)
    ensures
        obj_model(final(a)@) == obj_put_all(obj_model(old(a)@), obj_model(b@)),
{
    let ghost bm = obj_model(b@);
    let ghost start = obj_model(a@);
    let mut rest = b;
    let mut done: usize = 0;
    let n = rest.len();
    assert(bm.subrange(0, n as int) =~= bm);
    while rest.len() > 0
        invariant
            n == bm.len(),
            done + rest@.len() == n,
            obj_model(rest@) == bm.subrange(done as int, n as int),
            obj_put_all(start, bm) == obj_put_all(obj_model(a@), bm.subrange(done as int, n as int)),
        decreases rest@.len(),
    {
        let ghost tail = bm.subrange(done as int, n as int);
        let ghost r0 = rest@;
        let (k, v) = rest.remove(0);
        proof {
            assert(tail[0] == (k@, jv(v)));
            assert(tail.drop_first() =~= bm.subrange(done + 1, n as int));
            assert(rest@ == r0.remove(0));
            assert(obj_model(rest@) =~= bm.subrange(done + 1, n as int));
        }
        obj_insert(a, k, v);
        done = done + 1;
    }
    proof {
        assert(bm.subrange(n as int, n as int) =~= Seq::<(Seq<char>, Json)>::empty());
    }
}

/// The value that merging `new` into `old` gives.
pub fn merge_json_values(old: JsonValue, new: JsonValue) -> (r: JsonValue)
    ensures
        jv(r) == merge_values(jv(old), jv(new)),
{
    match (old, new) {
        (JsonValue::Object(mut a), JsonValue::Object(b)) => {
            proof {
                lemma_jv_obj(a);
                lemma_jv_obj(b);
            }
            put_all(&mut a, b);
            proof {
                lemma_jv_obj(a);
            }
            JsonValue::Object(a)
        },
        (JsonValue::Array(mut a), JsonValue::Array(b)) => {
            proof {
                lemma_jv_arr(a);
                lemma_jv_arr(b);
            }
            let ghost a0 = a@;
            let mut bb = b;
            a.append(&mut bb);
            proof {
                assert(arr_model(a@) =~= arr_model(a0) + arr_model(b@));
                lemma_jv_arr(a);
            }
            JsonValue::Array(a)
        },
        (_, n) => n,
    }
}

/// Merges `x` into the value at `path[i..]` inside `v`.
pub fn merge_at(v: JsonValue, path: &Vec<String>, i: usize, x: JsonValue) -> (r: Option<JsonValue>)
    requires
        i < path@.len(),
    ensures
        opt_jv(r) == merge_path(jv(v), keys_of(path@).subrange(i as int, path@.len() as int), jv(x)),
    decreases path@.len() - i,
{
    let ghost p = keys_of(path@).subrange(i as int, path@.len() as int);
    assert(p[0] == path@[i as int]@);
    assert(p.drop_first() =~= keys_of(path@).subrange(i + 1, path@.len() as int));
    match v {
        JsonValue::Object(mut entries) => {
            proof {
                lemma_jv_obj(entries);
            }
            let ghost e = obj_model(entries@);
            let ghost before = entries@;
            let key = path[i].clone();
            let (pos, taken) = obj_take(&mut entries, &key);
            let is_last = i == path.len() - 1;
            let child = match taken {
                Some(c) => c,
                None => if is_last {
                    JsonValue::Null
                } else {
                    let fresh: Vec<(String, JsonValue)> = Vec::new();
                    proof {
                        lemma_jv_obj(fresh);
                        assert(obj_model(fresh@) =~= Seq::empty());
                    }
                    JsonValue::Object(fresh)
                },
            };
            let next = if is_last {
                Some(merge_json_values(child, x))
            } else {
                merge_at(child, path, i + 1, x)
            };
            match next {
                Some(c2) => {
                    let ghost mid = entries@;
                    entries.insert(pos, (key, c2));
                    proof {
                        lemma_model_insert(mid, pos as int, entries@[pos as int]);
                        assert(entries@ == mid.insert(pos as int, entries@[pos as int]));
                        if taken is Some {
                            lemma_model_remove(before, pos as int);
                            assert(obj_model(entries@) =~= e.update(
                                pos as int,
                                (key@, jv(entries@[pos as int].1)),
                            ));
                        }
                        lemma_jv_obj(entries);
                    }
                    Some(JsonValue::Object(entries))
                },
                None => None,
            }
        },
        _ => None,
    }
}

/// A copy of `v`.
pub fn copy_json(v: &JsonValue) -> (r: JsonValue)
    ensures
        jv(r) == jv(*v),
    decreases v,
{
    match v {
        JsonValue::Null => JsonValue::Null,
        JsonValue::Bool(b) => JsonValue::Bool(*b),
        JsonValue::Number(n) => JsonValue::Number(n.clone()),
        JsonValue::Str(t) => JsonValue::Str(t.clone()),
        JsonValue::Array(a) => {
            let mut out: Vec<JsonValue> = Vec::new();
            let mut i: usize = 0;
            while i < a.len()
                invariant
                    *v == JsonValue::Array(*a),
                    i <= a@.len(),
                    arr_model(out@) == arr_model(a@).subrange(0, i as int),
                decreases a@.len() - i,
            {
                let ghost before = out@;
                proof {
                    assert(decreases_to!(*v => (*v)->Array_0));
                    assert(decreases_to!(*a => a[i as int]));
                    assert(decreases_to!(*v => a[i as int]));
                }
                let c = copy_json(&a[i]);
                out.push(c);
                proof {
                    assert(arr_model(out@) =~= arr_model(before).push(jv(c)));
                    assert(arr_model(out@) =~= arr_model(a@).subrange(0, i + 1));
                }
                i = i + 1;
            }
            proof {
                assert(arr_model(a@).subrange(0, a@.len() as int) =~= arr_model(a@));
                lemma_jv_arr(out);
                lemma_jv_arr(*a);
            }
            JsonValue::Array(out)
        },
        JsonValue::Object(o) => {
            let mut out: Vec<(String, JsonValue)> = Vec::new();
            let mut i: usize = 0;
            while i < o.len()
                invariant
                    *v == JsonValue::Object(*o),
                    i <= o@.len(),
                    obj_model(out@) == obj_model(o@).subrange(0, i as int),
                decreases o@.len() - i,
            {
                let ghost before = out@;
                proof {
                    assert(decreases_to!(*v => (*v)->Object_0));
                    assert(decreases_to!(*o => o[i as int]));
                    assert(decreases_to!(o[i as int] => o[i as int].1));
                    assert(decreases_to!(*v => o[i as int].1));
                }
                let c = copy_json(&o[i].1);
                let k = o[i].0.clone();
                out.push((k, c));
                proof {
                    assert(obj_model(out@) =~= obj_model(before).push((k@, jv(c))));
                    assert(obj_model(out@) =~= obj_model(o@).subrange(0, i + 1));
                }
                i = i + 1;
            }
            proof {
                assert(obj_model(o@).subrange(0, o@.len() as int) =~= obj_model(o@));
                lemma_jv_obj(out);
                lemma_jv_obj(*o);
            }
            JsonValue::Object(out)
        },
    }
}

fn arrays_eq(a: &JsonValue, x: &Vec<JsonValue>, y: &Vec<JsonValue>) -> (r: bool)
    requires
        *a == JsonValue::Array(*x),
    ensures
        r == (arr_model(x@) == arr_model(y@)),
    decreases a, 0nat,
{
    if x.len() != y.len() {
        assert(arr_model(x@).len() != arr_model(y@).len());
        return false;
    }
    let mut i: usize = 0;
    while i < x.len()
        invariant
            *a == JsonValue::Array(*x),
            x@.len() == y@.len(),
            i <= x@.len(),
            forall|m: int| 0 <= m < i ==> jv(x@[m]) == jv(y@[m]),
        decreases x@.len() - i,
    {
        proof {
            assert(decreases_to!(*a => (*a)->Array_0));
            assert(decreases_to!(*x => x[i as int]));
            assert(decreases_to!(*a => x[i as int]));
        }
        if !json_eq(&x[i], &y[i]) {
            assert(arr_model(x@)[i as int] != arr_model(y@)[i as int]);
            return false;
        }
        i = i + 1;
    }
    assert(arr_model(x@) =~= arr_model(y@));
    true
}

fn objects_eq(a: &JsonValue, x: &Vec<(String, JsonValue)>, y: &Vec<(String, JsonValue)>) -> (r: bool)
    requires
        *a == JsonValue::Object(*x),
    ensures
        r == (obj_model(x@) == obj_model(y@)),
    decreases a, 0nat,
{
    if x.len() != y.len() {
        assert(obj_model(x@).len() != obj_model(y@).len());
        return false;
    }
    let mut i: usize = 0;
    while i < x.len()
        invariant
            *a == JsonValue::Object(*x),
            x@.len() == y@.len(),
            i <= x@.len(),
            forall|m: int| 0 <= m < i ==> x@[m].0@ == y@[m].0@ && jv(x@[m].1) == jv(y@[m].1),
        decreases x@.len() - i,
    {
        proof {
            assert(decreases_to!(*a => (*a)->Object_0));
            assert(decreases_to!(*x => x[i as int]));
            assert(decreases_to!(x[i as int] => x[i as int].1));
            assert(decreases_to!(*a => x[i as int].1));
        }
        if x[i].0 != y[i].0 || !json_eq(&x[i].1, &y[i].1) {
            assert(obj_model(x@)[i as int] != obj_model(y@)[i as int]);
            return false;
        }
        i = i + 1;
    }
    assert(obj_model(x@) =~= obj_model(y@));
    true
}

/// Whether `a` and `b` are the same JSON value.
pub fn json_eq(a: &JsonValue, b: &JsonValue) -> (r: bool)
    ensures
        r == (jv(*a) == jv(*b)),
    decreases a, 1nat,
{
    match a {
        JsonValue::Null => match b {
            JsonValue::Null => true,
            _ => false,
        },
        JsonValue::Bool(x) => match b {
            JsonValue::Bool(y) => *x == *y,
            _ => false,
        },
        JsonValue::Number(x) => match b {
            JsonValue::Number(y) => crate::text::str_eq(x.as_str(), y.as_str()),
            _ => false,
        },
        JsonValue::Str(x) => match b {
            JsonValue::Str(y) => crate::text::str_eq(x.as_str(), y.as_str()),
            _ => false,
        },
        JsonValue::Array(x) => match b {
            JsonValue::Array(y) => {
                proof {
                    lemma_jv_arr(*x);
                    lemma_jv_arr(*y);
                }
                arrays_eq(a, x, y)
            },
            _ => false,
        },
        JsonValue::Object(x) => match b {
            JsonValue::Object(y) => {
                proof {
                    lemma_jv_obj(*x);
                    lemma_jv_obj(*y);
                }
                objects_eq(a, x, y)
            },
            _ => false,
        },
    }
}

/// What serde_json makes of a text: the value, or `None` where the text is
/// not JSON.
pub uninterp spec fn json_parse(s: Seq<char>) -> Option<Json>;

/// The compact text that serde_json writes for a value.
pub uninterp spec fn json_text(v: Json) -> Seq<char>;

/// Relies on serde_json::from_str into a `serde_json::Value`, carried over
/// here variant by variant.
#[verifier::external_body]
pub(crate) fn parse_json(s: &str) -> (r: Option<JsonValue>)
    ensures
        opt_jv(r) == json_parse(s@),
{
    serde_json::from_str::<serde_json::Value>(s).ok().map(from_serde)
}

/// Relies on serde_json's `Value::to_string`, after the value is carried
/// over variant by variant.
#[verifier::external_body]
pub(crate) fn json_to_string(v: &JsonValue) -> (r: String)
    ensures
        r@ == json_text(jv(*v)),
{
    to_serde(v).to_string()
}

impl JsonValue {
    /// The value a JSON text holds, or `None` where the text is not JSON.
    pub fn parse(text: &str) -> (r: Option<JsonValue>)
        ensures
            opt_jv(r) == json_parse(text@),
    {
        parse_json(text)
    }

    /// The compact JSON text of the value.
    pub fn to_text(&self) -> (r: String)
        ensures
            r@ == json_text(jv(*self)),
    {
        json_to_string(self)
    }
}

#[verifier::external_type_specification]
#[verifier::external_body]
pub struct ExJsonValue(serde_json::Value);

/// Carries a serde_json value over, variant by variant.
#[verifier::external_body]
fn from_serde(v: serde_json::Value) -> JsonValue {
    match v {
        serde_json::Value::Null => JsonValue::Null,
        serde_json::Value::Bool(b) => JsonValue::Bool(b),
        serde_json::Value::Number(n) => JsonValue::Number(n.to_string()),
        serde_json::Value::String(s) => JsonValue::Str(s),
        serde_json::Value::Array(a) => JsonValue::Array(a.into_iter().map(from_serde).collect()),
        serde_json::Value::Object(o) => JsonValue::Object(o.into_iter().map(|(k, x)| (k, from_serde(x))).collect()),
    }
}

/// Carries a value over to serde_json, variant by variant.
#[verifier::external_body]
fn to_serde(v: &JsonValue) -> serde_json::Value {
    match v {
        JsonValue::Null => serde_json::Value::Null,
        JsonValue::Bool(b) => serde_json::Value::Bool(*b),
        JsonValue::Number(n) => n.parse::<serde_json::Number>().map_or(serde_json::Value::Null, serde_json::Value::Number),
        JsonValue::Str(s) => serde_json::Value::String(s.clone()),
        JsonValue::Array(a) => serde_json::Value::Array(a.iter().map(to_serde).collect()),
        JsonValue::Object(o) => serde_json::Value::Object(o.iter().map(|(k, x)| (k.clone(), to_serde(x))).collect()),
    }
}

/// The pieces of `s` between the occurrences of `c`.
pub open spec fn split_on(s: Seq<char>, c: char) -> Seq<Seq<char>>
    decreases s.len(),
{
    if s.len() == 0 {
        seq![Seq::empty()]
    } else {
        let rest = split_on(s.drop_last(), c);
        if s.last() == c {
            rest.push(Seq::empty())
        } else {
            rest.update(rest.len() - 1, rest.last().push(s.last()))
        }
    }
}

proof fn lemma_split_nonempty(s: Seq<char>, c: char)
    ensures
        split_on(s, c).len() >= 1,
    decreases s.len(),
{
    if s.len() > 0 {
        lemma_split_nonempty(s.drop_last(), c);
    }
}

/// Splits a dot-separated field path into its keys.
pub fn split_path(path: &str) -> (r: Vec<String>)
    ensures
        keys_of(r@) == split_on(path@, '.'),
        r@.len() >= 1,
{
    let cs = crate::text::chars_of(path);
    let mut parts: Vec<String> = Vec::new();
    let mut cur = String::new();
    let mut i: usize = 0;
    while i < cs.len()
        invariant
            cs@ == path@,
            i <= cs@.len(),
            keys_of(parts@).push(cur@) == split_on(cs@.subrange(0, i as int), '.'),
        decreases cs@.len() - i,
    {
        let ghost pre = cs@.subrange(0, i + 1);
        proof {
            assert(pre.drop_last() =~= cs@.subrange(0, i as int));
            lemma_split_nonempty(cs@.subrange(0, i as int), '.');
        }
        let ghost old_parts = parts@;
        let ghost old_cur = cur@;
        if cs[i] == '.' {
            let done = cur;
            parts.push(done);
            cur = String::new();
            proof {
                assert(keys_of(parts@) =~= keys_of(old_parts).push(old_cur));
                assert(keys_of(parts@).push(cur@) =~= split_on(pre, '.'));
            }
        } else {
            crate::text::push_char(&mut cur, cs[i]);
            proof {
                assert(keys_of(parts@).push(cur@) =~= split_on(pre, '.'));
            }
        }
        i = i + 1;
    }
    let ghost old_parts = parts@;
    let ghost last = cur@;
    parts.push(cur);
    proof {
        assert(cs@.subrange(0, cs@.len() as int) =~= cs@);
        assert(keys_of(parts@) =~= keys_of(old_parts).push(last));
    }
    parts
}

proof fn lemma_key_lt_irreflexive(a: Seq<char>)
    ensures
        !key_lt(a, a),
    decreases a.len(),
{
    if a.len() > 0 {
        lemma_key_lt_irreflexive(a.drop_first());
    }
}

proof fn lemma_key_lt_asymmetric(a: Seq<char>, b: Seq<char>)
    ensures
        key_lt(a, b) ==> !key_lt(b, a),
    decreases a.len(),
{
    if a.len() > 0 && b.len() > 0 && a[0] == b[0] {
        lemma_key_lt_asymmetric(a.drop_first(), b.drop_first());
    }
}

proof fn lemma_key_lt_total(a: Seq<char>, b: Seq<char>)
    ensures
        a != b ==> key_lt(a, b) || key_lt(b, a),
    decreases a.len(),
{
    if a.len() > 0 && b.len() > 0 && a[0] == b[0] {
        lemma_key_lt_total(a.drop_first(), b.drop_first());
        if a.drop_first() == b.drop_first() {
            assert(a =~= seq![a[0]] + a.drop_first());
            assert(b =~= seq![b[0]] + b.drop_first());
        }
    } else if a.len() > 0 && b.len() > 0 {
        assert((a[0] as u32) != (b[0] as u32)) by {
            vstd::utf8::char_u32_cast(a[0], a[0] as u32);
            vstd::utf8::char_u32_cast(b[0], b[0] as u32);
        }
    } else if a.len() == 0 && b.len() == 0 {
        assert(a =~= b);
    }
}

proof fn lemma_key_lt_transitive(a: Seq<char>, b: Seq<char>, c: Seq<char>)
    ensures
        key_lt(a, b) && key_lt(b, c) ==> key_lt(a, c),
    decreases a.len(),
{
    if a.len() > 0 && b.len() > 0 && c.len() > 0 {
        lemma_key_lt_transitive(a.drop_first(), b.drop_first(), c.drop_first());
    }
}

proof fn lemma_keys(a: Seq<char>, b: Seq<char>, c: Seq<char>)
    ensures
        !key_lt(a, a),
        key_lt(a, b) ==> !key_lt(b, a),
        a != b ==> key_lt(a, b) || key_lt(b, a),
        key_lt(a, b) && key_lt(b, c) ==> key_lt(a, c),
        key_lt(b, a) && key_lt(a, c) ==> key_lt(b, c),
        key_lt(a, c) && key_lt(c, b) ==> key_lt(a, b),
        key_lt(b, c) && key_lt(c, a) ==> key_lt(b, a),
        key_lt(c, a) && key_lt(a, b) ==> key_lt(c, b),
        key_lt(c, b) && key_lt(b, a) ==> key_lt(c, a),
        key_lt(b, c) ==> !key_lt(c, b),
        key_lt(a, c) ==> !key_lt(c, a),
        b != c ==> key_lt(b, c) || key_lt(c, b),
        a != c ==> key_lt(a, c) || key_lt(c, a),
{
    lemma_key_lt_irreflexive(a);
    lemma_key_lt_asymmetric(a, b);
    lemma_key_lt_asymmetric(b, c);
    lemma_key_lt_asymmetric(a, c);
    lemma_key_lt_total(a, b);
    lemma_key_lt_total(b, c);
    lemma_key_lt_total(a, c);
    lemma_key_lt_transitive(a, b, c);
    lemma_key_lt_transitive(b, a, c);
    lemma_key_lt_transitive(a, c, b);
    lemma_key_lt_transitive(b, c, a);
    lemma_key_lt_transitive(c, a, b);
    lemma_key_lt_transitive(c, b, a);
}

/// Order facts of `key_lt` on three texts: irreflexive, asymmetric, total
/// and transitive.
pub proof fn lemma_keys_pub(a: Seq<char>, b: Seq<char>, c: Seq<char>)
    ensures
        !key_lt(a, a),
        key_lt(a, b) ==> !key_lt(b, a),
        a != b ==> key_lt(a, b) || key_lt(b, a),
        key_lt(a, b) && key_lt(b, c) ==> key_lt(a, c),
        key_lt(b, a) && key_lt(a, c) ==> key_lt(b, c),
        key_lt(a, c) && key_lt(c, b) ==> key_lt(a, b),
        key_lt(b, c) && key_lt(c, a) ==> key_lt(b, a),
        key_lt(c, a) && key_lt(a, b) ==> key_lt(c, b),
        key_lt(c, b) && key_lt(b, a) ==> key_lt(c, a),
        key_lt(b, c) ==> !key_lt(c, b),
        key_lt(a, c) ==> !key_lt(c, a),
        b != c ==> key_lt(b, c) || key_lt(c, b),
        a != c ==> key_lt(a, c) || key_lt(c, a),
{
    lemma_keys(a, b, c);
}

/// `obj_put`, member by member from the front.
pub open spec fn ins(e: Seq<(Seq<char>, Json)>, k: Seq<char>, v: Json) -> Seq<(Seq<char>, Json)>
    decreases e.len(),
{
    if e.len() == 0 {
        seq![(k, v)]
    } else if e[0].0 == k {
        e.update(0, (k, v))
    } else if key_lt(k, e[0].0) {
        seq![(k, v)] + e
    } else {
        seq![e[0]] + ins(e.drop_first(), k, v)
    }
}

/// `obj_get`, member by member from the front.
pub open spec fn get_rec(e: Seq<(Seq<char>, Json)>, k: Seq<char>) -> Option<Json>
    decreases e.len(),
{
    if e.len() == 0 {
        None
    } else if e[0].0 == k {
        Some(e[0].1)
    } else if key_lt(k, e[0].0) {
        None
    } else {
        get_rec(e.drop_first(), k)
    }
}

proof fn lemma_put_is_ins(e: Seq<(Seq<char>, Json)>, k: Seq<char>, v: Json)
    ensures
        obj_put(e, k, v) == ins(e, k, v),
        obj_get(e, k) == get_rec(e, k),
    decreases e.len(),
{
    if e.len() == 0 {
        assert(obj_put(e, k, v) =~= seq![(k, v)]);
    } else if e[0].0 == k || key_lt(k, e[0].0) {
        if e[0].0 != k {
            assert(obj_put(e, k, v) =~= seq![(k, v)] + e);
        }
    } else {
        let r = e.drop_first();
        lemma_put_is_ins(r, k, v);
        let j = put_pos(r, k);
        lemma_put_pos_bounds(r, k);
        if 0 <= j < r.len() && r[j].0 == k {
            assert(obj_put(e, k, v) =~= seq![e[0]] + r.update(j, (k, v)));
        } else {
            assert(obj_put(e, k, v) =~= seq![e[0]] + r.insert(j, (k, v)));
        }
    }
}

proof fn lemma_put_pos_bounds(e: Seq<(Seq<char>, Json)>, k: Seq<char>)
    ensures
        0 <= put_pos(e, k) <= e.len(),
    decreases e.len(),
{
    if e.len() > 0 {
        lemma_put_pos_bounds(e.drop_first(), k);
    }
}

proof fn lemma_ins_get_same(e: Seq<(Seq<char>, Json)>, k: Seq<char>, v: Json)
    ensures
        get_rec(ins(e, k, v), k) == Some(v),
    decreases e.len(),
{
    lemma_key_lt_irreflexive(k);
    if e.len() > 0 && e[0].0 != k && !key_lt(k, e[0].0) {
        lemma_ins_get_same(e.drop_first(), k, v);
        assert((seq![e[0]] + ins(e.drop_first(), k, v)).drop_first() =~= ins(e.drop_first(), k, v));
    }
}

proof fn lemma_ins_get_other(e: Seq<(Seq<char>, Json)>, k: Seq<char>, v: Json, k2: Seq<char>)
    requires
        k != k2,
    ensures
        get_rec(ins(e, k, v), k2) == get_rec(e, k2),
    decreases e.len(),
{
    if e.len() == 0 {
        let a = ins(e, k, v);
        assert(a =~= seq![(k, v)]);
        assert(a.drop_first() =~= Seq::<(Seq<char>, Json)>::empty());
        assert(get_rec(a.drop_first(), k2) is None);
    } else {
        let h = e[0].0;
        lemma_keys(k, k2, h);
        if h == k {
            assert(ins(e, k, v).drop_first() =~= e.drop_first());
        } else if key_lt(k, h) {
            assert((seq![(k, v)] + e).drop_first() =~= e);
        } else {
            lemma_ins_get_other(e.drop_first(), k, v, k2);
            assert((seq![e[0]] + ins(e.drop_first(), k, v)).drop_first() =~= ins(e.drop_first(), k, v));
        }
    }
}

proof fn lemma_ins_twice(e: Seq<(Seq<char>, Json)>, k: Seq<char>, v: Json, w: Json)
    ensures
        ins(ins(e, k, v), k, w) == ins(e, k, w),
    decreases e.len(),
{
    lemma_key_lt_irreflexive(k);
    if e.len() == 0 {
        assert(ins(ins(e, k, v), k, w) =~= seq![(k, w)]);
    } else if e[0].0 == k {
        assert(ins(ins(e, k, v), k, w) =~= e.update(0, (k, w)));
    } else if key_lt(k, e[0].0) {
        assert(ins(ins(e, k, v), k, w) =~= (seq![(k, v)] + e).update(0, (k, w)));
        assert((seq![(k, v)] + e).update(0, (k, w)) =~= seq![(k, w)] + e);
    } else {
        let r = e.drop_first();
        lemma_ins_twice(r, k, v, w);
        let t = seq![e[0]] + ins(r, k, v);
        assert(t.drop_first() =~= ins(r, k, v));
        assert(ins(t, k, w) =~= seq![e[0]] + ins(ins(r, k, v), k, w));
    }
}

proof fn lemma_ins_commute(e: Seq<(Seq<char>, Json)>, k1: Seq<char>, v1: Json, k2: Seq<char>, v2: Json)
    requires
        k1 != k2,
    ensures
        ins(ins(e, k1, v1), k2, v2) == ins(ins(e, k2, v2), k1, v1),
    decreases e.len(),
{
    if e.len() == 0 {
        lemma_keys(k1, k2, k1);
        assert(ins(e, k1, v1) =~= seq![(k1, v1)]);
        assert(ins(e, k2, v2) =~= seq![(k2, v2)]);
        let a = seq![(k1, v1)];
        let b = seq![(k2, v2)];
        assert(a.drop_first() =~= Seq::<(Seq<char>, Json)>::empty());
        assert(b.drop_first() =~= Seq::<(Seq<char>, Json)>::empty());
        assert(ins(a.drop_first(), k2, v2) =~= seq![(k2, v2)]);
        assert(ins(b.drop_first(), k1, v1) =~= seq![(k1, v1)]);
        if key_lt(k1, k2) {
            assert(ins(a, k2, v2) =~= seq![a[0]] + ins(a.drop_first(), k2, v2));
            assert(ins(b, k1, v1) =~= seq![(k1, v1)] + b);
            assert(ins(ins(e, k1, v1), k2, v2) =~= seq![(k1, v1), (k2, v2)]);
            assert(ins(ins(e, k2, v2), k1, v1) =~= seq![(k1, v1), (k2, v2)]);
        } else {
            assert(ins(b, k1, v1) =~= seq![b[0]] + ins(b.drop_first(), k1, v1));
            assert(ins(a, k2, v2) =~= seq![(k2, v2)] + a);
            assert(ins(ins(e, k1, v1), k2, v2) =~= seq![(k2, v2), (k1, v1)]);
            assert(ins(ins(e, k2, v2), k1, v1) =~= seq![(k2, v2), (k1, v1)]);
        }
    } else {
        let h = e[0].0;
        let r = e.drop_first();
        lemma_keys(k1, k2, h);
        if h == k1 {
            let a = e.update(0, (k1, v1));
            assert(a.drop_first() =~= r);
            if key_lt(k2, h) {
                let b = seq![(k2, v2)] + e;
                assert(b.drop_first() =~= e);
                assert(ins(b, k1, v1) =~= seq![(k2, v2)] + ins(e, k1, v1));
                assert(ins(a, k2, v2) =~= seq![(k2, v2)] + a);
            } else {
                let b = seq![e[0]] + ins(r, k2, v2);
                assert(b.drop_first() =~= ins(r, k2, v2));
                assert(ins(b, k1, v1) =~= b.update(0, (k1, v1)));
                assert(ins(a, k2, v2) =~= seq![a[0]] + ins(r, k2, v2));
                assert(b.update(0, (k1, v1)) =~= seq![a[0]] + ins(r, k2, v2));
            }
        } else if h == k2 {
            let b = e.update(0, (k2, v2));
            assert(b.drop_first() =~= r);
            if key_lt(k1, h) {
                let a = seq![(k1, v1)] + e;
                assert(a.drop_first() =~= e);
                assert(ins(a, k2, v2) =~= seq![(k1, v1)] + ins(e, k2, v2));
                assert(ins(b, k1, v1) =~= seq![(k1, v1)] + b);
            } else {
                let a = seq![e[0]] + ins(r, k1, v1);
                assert(a.drop_first() =~= ins(r, k1, v1));
                assert(ins(a, k2, v2) =~= a.update(0, (k2, v2)));
                assert(ins(b, k1, v1) =~= seq![b[0]] + ins(r, k1, v1));
                assert(a.update(0, (k2, v2)) =~= seq![b[0]] + ins(r, k1, v1));
            }
        } else if key_lt(k1, h) && key_lt(k2, h) {
            let a = seq![(k1, v1)] + e;
            let b = seq![(k2, v2)] + e;
            assert(a.drop_first() =~= e);
            assert(b.drop_first() =~= e);
            if key_lt(k1, k2) {
                assert(ins(a, k2, v2) =~= seq![(k1, v1)] + ins(e, k2, v2));
                assert(ins(e, k2, v2) =~= b);
                assert(ins(b, k1, v1) =~= seq![(k1, v1)] + b);
            } else {
                assert(ins(b, k1, v1) =~= seq![(k2, v2)] + ins(e, k1, v1));
                assert(ins(e, k1, v1) =~= a);
                assert(ins(a, k2, v2) =~= seq![(k2, v2)] + a);
            }
        } else if key_lt(k1, h) {
            let a = seq![(k1, v1)] + e;
            let b = seq![e[0]] + ins(r, k2, v2);
            assert(a.drop_first() =~= e);
            assert(b.drop_first() =~= ins(r, k2, v2));
            assert(ins(a, k2, v2) =~= seq![(k1, v1)] + ins(e, k2, v2));
            assert(ins(b, k1, v1) =~= seq![(k1, v1)] + b);
        } else if key_lt(k2, h) {
            let a = seq![e[0]] + ins(r, k1, v1);
            let b = seq![(k2, v2)] + e;
            assert(a.drop_first() =~= ins(r, k1, v1));
            assert(b.drop_first() =~= e);
            assert(ins(b, k1, v1) =~= seq![(k2, v2)] + ins(e, k1, v1));
            assert(ins(a, k2, v2) =~= seq![(k2, v2)] + a);
        } else {
            let a = seq![e[0]] + ins(r, k1, v1);
            let b = seq![e[0]] + ins(r, k2, v2);
            assert(a.drop_first() =~= ins(r, k1, v1));
            assert(b.drop_first() =~= ins(r, k2, v2));
            lemma_ins_commute(r, k1, v1, k2, v2);
            assert(ins(a, k2, v2) =~= seq![e[0]] + ins(ins(r, k1, v1), k2, v2));
            assert(ins(b, k1, v1) =~= seq![e[0]] + ins(ins(r, k2, v2), k1, v1));
        }
    }
}

/// Two paths that part somewhere: neither is a prefix of the other.
pub open spec fn disjoint_paths(pa: Seq<Seq<char>>, pb: Seq<Seq<char>>) -> bool
    decreases pa.len(),
{
    pa.len() > 0 && pb.len() > 0 && (pa[0] != pb[0] || disjoint_paths(
        pa.drop_first(),
        pb.drop_first(),
    ))
}

/// Setting `x` at `p` after a step that may have failed.
pub open spec fn then_set(r: Option<Json>, p: Seq<Seq<char>>, x: Json) -> Option<Json> {
    match r {
        Some(w) => set_path(w, p, x),
        None => None,
    }
}

proof fn lemma_get_after_put_other(e: Seq<(Seq<char>, Json)>, k: Seq<char>, a: Json, k2: Seq<char>)
    requires
        k != k2,
    ensures
        obj_get(obj_put(e, k, a), k2) == obj_get(e, k2),
{
    lemma_put_is_ins(e, k, a);
    lemma_put_is_ins(e, k2, a);
    lemma_put_is_ins(obj_put(e, k, a), k2, a);
    lemma_ins_get_other(e, k, a, k2);
}

proof fn lemma_get_after_put_same(e: Seq<(Seq<char>, Json)>, k: Seq<char>, a: Json)
    ensures
        obj_get(obj_put(e, k, a), k) == Some(a),
{
    lemma_put_is_ins(e, k, a);
    lemma_put_is_ins(obj_put(e, k, a), k, a);
    lemma_ins_get_same(e, k, a);
}

proof fn lemma_put_twice(e: Seq<(Seq<char>, Json)>, k: Seq<char>, a: Json, w: Json)
    ensures
        obj_put(obj_put(e, k, a), k, w) == obj_put(e, k, w),
{
    lemma_put_is_ins(e, k, a);
    lemma_put_is_ins(e, k, w);
    lemma_put_is_ins(obj_put(e, k, a), k, w);
    lemma_ins_twice(e, k, a, w);
}

proof fn lemma_put_commute(e: Seq<(Seq<char>, Json)>, k1: Seq<char>, a: Json, k2: Seq<char>, b: Json)
    requires
        k1 != k2,
    ensures
        obj_put(obj_put(e, k1, a), k2, b) == obj_put(obj_put(e, k2, b), k1, a),
{
    lemma_put_is_ins(e, k1, a);
    lemma_put_is_ins(e, k2, b);
    lemma_put_is_ins(obj_put(e, k1, a), k2, b);
    lemma_put_is_ins(obj_put(e, k2, b), k1, a);
    lemma_ins_commute(e, k1, a, k2, b);
}

/// The value that setting `x` at `p` gives the member found under the
/// first key of `p` (or an empty object where there is none).
pub open spec fn child_step(e: Seq<(Seq<char>, Json)>, p: Seq<Seq<char>>, x: Json) -> Option<Json> {
    if p.len() == 1 {
        Some(x)
    } else {
        set_path(
            match obj_get(e, p[0]) {
                Some(c) => c,
                None => Json::Obj(Seq::empty()),
            },
            p.drop_first(),
            x,
        )
    }
}

proof fn lemma_set_unfold(e: Seq<(Seq<char>, Json)>, p: Seq<Seq<char>>, x: Json)
    requires
        p.len() > 0,
    ensures
        set_path(Json::Obj(e), p, x) == match child_step(e, p, x) {
            Some(c) => Some(Json::Obj(obj_put(e, p[0], c))),
            None => None,
        },
{
}

/// Sets at two paths that part somewhere give the same value in either
/// order, and fail in either order alike.
pub proof fn lemma_disjoint_sets_commute(v: Json, pa: Seq<Seq<char>>, x1: Json, pb: Seq<Seq<char>>, x2: Json)
    requires
        disjoint_paths(pa, pb),
    ensures
        then_set(set_path(v, pa, x1), pb, x2) == then_set(set_path(v, pb, x2), pa, x1),
    decreases pa.len(),
{
    match v {
        Json::Obj(e) => {
            let k1 = pa[0];
            let k2 = pb[0];
            lemma_set_unfold(e, pa, x1);
            lemma_set_unfold(e, pb, x2);
            if k1 != k2 {
                if let Some(a) = child_step(e, pa, x1) {
                    let e1 = obj_put(e, k1, a);
                    lemma_get_after_put_other(e, k1, a, k2);
                    assert(child_step(e1, pb, x2) == child_step(e, pb, x2));
                    lemma_set_unfold(e1, pb, x2);
                }
                if let Some(b) = child_step(e, pb, x2) {
                    let e2 = obj_put(e, k2, b);
                    lemma_get_after_put_other(e, k2, b, k1);
                    assert(child_step(e2, pa, x1) == child_step(e, pa, x1));
                    lemma_set_unfold(e2, pa, x1);
                    if let Some(a) = child_step(e, pa, x1) {
                        lemma_put_commute(e, k1, a, k2, b);
                    }
                }
            } else {
                let k = k1;
                let c = match obj_get(e, k) {
                    Some(c) => c,
                    None => Json::Obj(Seq::empty()),
                };
                let q1 = pa.drop_first();
                let q2 = pb.drop_first();
                assert(disjoint_paths(q1, q2));
                assert(pa.len() > 1 && pb.len() > 1);
                lemma_disjoint_sets_commute(c, q1, x1, q2, x2);
                if let Some(a) = set_path(c, q1, x1) {
                    let e1 = obj_put(e, k, a);
                    lemma_get_after_put_same(e, k, a);
                    lemma_set_unfold(e1, pb, x2);
                    assert(child_step(e1, pb, x2) == set_path(a, q2, x2));
                    if let Some(w) = set_path(a, q2, x2) {
                        lemma_put_twice(e, k, a, w);
                    }
                }
                if let Some(b) = set_path(c, q2, x2) {
                    let e2 = obj_put(e, k, b);
                    lemma_get_after_put_same(e, k, b);
                    lemma_set_unfold(e2, pa, x1);
                    assert(child_step(e2, pa, x1) == set_path(b, q1, x1));
                    if let Some(w) = set_path(b, q1, x1) {
                        lemma_put_twice(e, k, b, w);
                    }
                }
            }
        },
        _ => {},
    }
}

} // verus!
