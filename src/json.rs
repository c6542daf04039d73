use vstd::prelude::*;

verus! {

/// The mathematical model of a JSON value: numbers keep their decimal text,
/// objects keep their entries in order.
pub enum Json {
    Null,
    Bool(bool),
    Number(Seq<char>),
    Str(Seq<char>),
    Array(Seq<Json>),
    Object(Seq<(Seq<char>, Json)>),
}

/// A JSON value. A number holds its decimal text as JSON writes it; an object
/// holds its entries in order, each key once.
#[derive(Debug, PartialEq, Eq)]
pub enum JsonValue {
    Null,
    Bool(bool),
    Number(String),
    Str(String),
    Array(Vec<JsonValue>),
    Object(Vec<(String, JsonValue)>),
}

pub open spec fn json_view(v: JsonValue) -> Json
    decreases v,
{
    match v {
        JsonValue::Null => Json::Null,
        JsonValue::Bool(b) => Json::Bool(b),
        JsonValue::Number(n) => Json::Number(n@),
        JsonValue::Str(s) => Json::Str(s@),
        JsonValue::Array(items) => Json::Array(
            Seq::new(
                items@.len(),
                |i: int|
                    if 0 <= i < items@.len() {
                        json_view(items@[i])
                    } else {
                        Json::Null
                    },
            ),
        ),
        JsonValue::Object(entries) => Json::Object(
            Seq::new(
                entries@.len(),
                |i: int|
                    if 0 <= i < entries@.len() {
                        (entries@[i].0@, json_view(entries@[i].1))
                    } else {
                        (Seq::empty(), Json::Null)
                    },
            ),
        ),
    }
}

impl View for JsonValue {
    type V = Json;

    open spec fn view(&self) -> Json {
        json_view(*self)
    }
}

/// The models of a sequence of values.
pub open spec fn items_view(items: Seq<JsonValue>) -> Seq<Json> {
    Seq::new(items.len(), |i: int| items[i]@)
}

/// The models of a sequence of object entries.
pub open spec fn entries_view(entries: Seq<(String, JsonValue)>) -> Seq<(Seq<char>, Json)> {
    Seq::new(entries.len(), |i: int| (entries[i].0@, entries[i].1@))
}

pub proof fn lemma_array_view(items: Vec<JsonValue>)
    ensures
        JsonValue::Array(items)@ == Json::Array(items_view(items@)),
{
    assert(JsonValue::Array(items)@->Array_0 =~= items_view(items@));
}

pub proof fn lemma_object_view(entries: Vec<(String, JsonValue)>)
    ensures
        JsonValue::Object(entries)@ == Json::Object(entries_view(entries@)),
{
    assert(JsonValue::Object(entries)@->Object_0 =~= entries_view(entries@));
}

pub proof fn lemma_item_decreases(v: JsonValue, i: int)
    requires
        v is Array,
        0 <= i < v->Array_0@.len(),
    ensures
        decreases_to!(v => v->Array_0@[i]),
{
    let items = v->Array_0;
    assert(decreases_to!(v => v->Array_0));
    assert(decreases_to!(items => items@));
    assert(decreases_to!(items@ => items@[i]));
}

pub proof fn lemma_entry_decreases(v: JsonValue, i: int)
    requires
        v is Object,
        0 <= i < v->Object_0@.len(),
    ensures
        decreases_to!(v => v->Object_0@[i].1),
{
    let entries = v->Object_0;
    assert(decreases_to!(v => v->Object_0));
    assert(decreases_to!(entries => entries@));
    assert(decreases_to!(entries@ => entries@[i]));
    assert(decreases_to!(entries@[i] => entries@[i].1));
}

// ---------------------------------------------------------------------------
// Objects as ordered entry lists
// ---------------------------------------------------------------------------

/// Position of the first entry at or after `i` whose key is `k`, or -1.
pub open spec fn key_pos_from(e: Seq<(Seq<char>, Json)>, k: Seq<char>, i: int) -> int
    decreases e.len() - i,
{
    if i < 0 || i >= e.len() {
        -1
    } else if e[i].0 == k {
        i
    } else {
        key_pos_from(e, k, i + 1)
    }
}

/// Position of the entry with key `k`, or -1.
pub open spec fn key_pos(e: Seq<(Seq<char>, Json)>, k: Seq<char>) -> int {
    key_pos_from(e, k, 0)
}

/// The value stored under `k`, if any.
pub open spec fn field_of(e: Seq<(Seq<char>, Json)>, k: Seq<char>) -> Option<Json> {
    let p = key_pos(e, k);
    if p >= 0 {
        Some(e[p].1)
    } else {
        None
    }
}

/// The entries with `k` set to `v`: replaced in place when present, added at the end otherwise.
pub open spec fn set_field(e: Seq<(Seq<char>, Json)>, k: Seq<char>, v: Json) -> Seq<(Seq<char>, Json)> {
    let p = key_pos(e, k);
    if p >= 0 {
        e.update(p, (k, v))
    } else {
        e.push((k, v))
    }
}

/// Shallow merge: every entry of `src`, in order, set into `target`.
pub open spec fn merge_entries(target: Seq<(Seq<char>, Json)>, src: Seq<(Seq<char>, Json)>) -> Seq<
    (Seq<char>, Json),
>
    decreases src.len(),
{
    if src.len() == 0 {
        target
    } else {
        set_field(merge_entries(target, src.drop_last()), src.last().0, src.last().1)
    }
}

/// Does `elem` hold `id` under `id_field`?
pub open spec fn record_has_id(elem: Json, id_field: Seq<char>, id: Json) -> bool {
    match elem {
        Json::Object(e) => field_of(e, id_field) == Some(id),
        _ => false,
    }
}

/// Position of the first element at or after `i` holding `id` under `id_field`, or -1.
pub open spec fn record_pos_from(items: Seq<Json>, id_field: Seq<char>, id: Json, i: int) -> int
    decreases items.len() - i,
{
    if i < 0 || i >= items.len() {
        -1
    } else if record_has_id(items[i], id_field, id) {
        i
    } else {
        record_pos_from(items, id_field, id, i + 1)
    }
}

/// Upsert of one record into an array: merged into the first element with the
/// same identifier, appended when there is none.
pub open spec fn upsert(items: Seq<Json>, id_field: Seq<char>, rec: Seq<(Seq<char>, Json)>) -> Seq<
    Json,
> {
    match field_of(rec, id_field) {
        Some(id) => {
            let p = record_pos_from(items, id_field, id, 0);
            if p >= 0 {
                items.update(p, Json::Object(merge_entries(items[p]->Object_0, rec)))
            } else {
                items.push(Json::Object(rec))
            }
        },
        None => items.push(Json::Object(rec)),
    }
}

/// The result of merging `new` into `target`.
pub open spec fn merged(target: Json, new: Json, id_field: Seq<char>) -> Json {
    match (target, new) {
        (Json::Object(t), Json::Object(n)) => Json::Object(merge_entries(t, n)),
        (Json::Array(t), Json::Array(n)) => Json::Array(t + n),
        (Json::Array(t), Json::Object(n)) => Json::Array(upsert(t, id_field, n)),
        _ => new,
    }
}


// ---------------------------------------------------------------------------
// Executable operations
// ---------------------------------------------------------------------------

impl JsonValue {
    /// A copy of the value.
    pub fn duplicate(&self) -> (r: JsonValue)
        ensures
            r@ == self@,
        decreases self,
    {
        match self {
            JsonValue::Null => JsonValue::Null,
            JsonValue::Bool(b) => JsonValue::Bool(*b),
            JsonValue::Number(n) => JsonValue::Number(n.clone()),
            JsonValue::Str(s) => JsonValue::Str(s.clone()),
            JsonValue::Array(items) => {
                let mut out: Vec<JsonValue> = Vec::new();
                let mut i: usize = 0;
                while i < items.len()
                    invariant
                        *self == JsonValue::Array(*items),
                        0 <= i <= items.len(),
                        out@.len() == i,
                        forall|j: int| 0 <= j < i ==> out@[j]@ == items@[j]@,
                    decreases items.len() - i,
                {
                    proof {
                        lemma_item_decreases(*self, i as int);
                    }
                    let c = items[i].duplicate();
                    out.push(c);
                    i += 1;
                }
                proof {
                    lemma_array_view(*items);
                    lemma_array_view(out);
                    assert(items_view(out@) =~= items_view(items@));
                }
                JsonValue::Array(out)
            },
            JsonValue::Object(entries) => {
                let mut out: Vec<(String, JsonValue)> = Vec::new();
                let mut i: usize = 0;
                while i < entries.len()
                    invariant
                        *self == JsonValue::Object(*entries),
                        0 <= i <= entries.len(),
                        out@.len() == i,
                        forall|j: int|
                            0 <= j < i ==> out@[j].0@ == entries@[j].0@ && out@[j].1@
                                == entries@[j].1@,
                    decreases entries.len() - i,
                {
                    proof {
                        lemma_entry_decreases(*self, i as int);
                    }
                    let k = entries[i].0.clone();
                    let v = entries[i].1.duplicate();
                    out.push((k, v));
                    i += 1;
                }
                proof {
                    lemma_object_view(*entries);
                    lemma_object_view(out);
                    assert(entries_view(out@) =~= entries_view(entries@));
                }
                JsonValue::Object(out)
            },
        }
    }

    /// Is this value null?
    pub fn is_null(&self) -> (r: bool)
        ensures
            r == (self@ is Null),
    {
        match self {
            JsonValue::Null => true,
            _ => false,
        }
    }

    /// Is this value an object?
    pub fn is_object(&self) -> (r: bool)
        ensures
            r == (self@ is Object),
    {
        match self {
            JsonValue::Object(_) => true,
            _ => false,
        }
    }

    /// Is this value an array?
    pub fn is_array(&self) -> (r: bool)
        ensures
            r == (self@ is Array),
    {
        match self {
            JsonValue::Array(_) => true,
            _ => false,
        }
    }

    /// The value stored under `key`, when this value is an object that has it.
    pub fn get(&self, key: &String) -> (r: Option<&JsonValue>)
        ensures
            match self@ {
                Json::Object(e) => match r {
                    Some(v) => field_of(e, key@) == Some(v@),
                    None => field_of(e, key@) is None,
                },
                _ => r is None,
            },
    {
        match self {
            JsonValue::Object(entries) => {
                proof {
                    lemma_object_view(*entries);
                }
                match find_key(entries, key) {
                    Some(p) => Some(&entries[p].1),
                    None => None,
                }
            },
            _ => None,
        }
    }
}

/// Equality of two values: same variant, same text, same elements, same entries in the same order.
pub fn json_equal(a: &JsonValue, b: &JsonValue) -> (r: bool)
    ensures
        r == (a@ == b@),
    decreases a,
{
    match a {
        JsonValue::Null => b.is_null(),
        JsonValue::Bool(x) => match b {
            JsonValue::Bool(y) => *x == *y,
            _ => false,
        },
        JsonValue::Number(x) => match b {
            JsonValue::Number(y) => *x == *y,
            _ => false,
        },
        JsonValue::Str(x) => match b {
            JsonValue::Str(y) => *x == *y,
            _ => false,
        },
        JsonValue::Array(x) => match b {
            JsonValue::Array(y) => {
                proof {
                    lemma_array_view(*x);
                    lemma_array_view(*y);
                }
                if x.len() != y.len() {
                    proof {
                        assert(items_view(x@).len() != items_view(y@).len());
                    }
                    return false;
                }
                let mut i: usize = 0;
                while i < x.len()
                    invariant
                        *a == JsonValue::Array(*x),
                        *b == JsonValue::Array(*y),
                        a@ == Json::Array(items_view(x@)),
                        b@ == Json::Array(items_view(y@)),
                        0 <= i <= x.len(),
                        x.len() == y.len(),
                        forall|j: int| 0 <= j < i ==> x@[j]@ == y@[j]@,
                    decreases x.len() - i,
                {
                    proof {
                        lemma_item_decreases(*a, i as int);
                    }
                    if !json_equal(&x[i], &y[i]) {
                        proof {
                            assert(items_view(x@)[i as int] != items_view(y@)[i as int]);
                        }
                        return false;
                    }
                    i += 1;
                }
                proof {
                    assert(items_view(x@) =~= items_view(y@));
                }
                true
            },
            _ => false,
        },
        JsonValue::Object(x) => match b {
            JsonValue::Object(y) => {
                proof {
                    lemma_object_view(*x);
                    lemma_object_view(*y);
                }
                if x.len() != y.len() {
                    proof {
                        assert(entries_view(x@).len() != entries_view(y@).len());
                    }
                    return false;
                }
                let mut i: usize = 0;
                while i < x.len()
                    invariant
                        *a == JsonValue::Object(*x),
                        *b == JsonValue::Object(*y),
                        a@ == Json::Object(entries_view(x@)),
                        b@ == Json::Object(entries_view(y@)),
                        0 <= i <= x.len(),
                        x.len() == y.len(),
                        forall|j: int| 0 <= j < i ==> x@[j].0@ == y@[j].0@ && x@[j].1@ == y@[j].1@,
                    decreases x.len() - i,
                {
                    proof {
                        lemma_entry_decreases(*a, i as int);
                    }
                    if x[i].0 != y[i].0 || !json_equal(&x[i].1, &y[i].1) {
                        proof {
                            assert(entries_view(x@)[i as int] != entries_view(y@)[i as int]);
                        }
                        return false;
                    }
                    i += 1;
                }
                proof {
                    assert(entries_view(x@) =~= entries_view(y@));
                }
                true
            },
            _ => false,
        },
    }
}

/// Position of the entry with key `key`.
pub fn find_key(entries: &Vec<(String, JsonValue)>, key: &String) -> (r: Option<usize>)
    ensures
        match r {
            Some(p) => p < entries.len() && key_pos(entries_view(entries@), key@) == p,
            None => key_pos(entries_view(entries@), key@) == -1,
        },
{
    let ghost ev = entries_view(entries@);
    let mut i: usize = 0;
    while i < entries.len()
        invariant
            0 <= i <= entries.len(),
            ev == entries_view(entries@),
            key_pos(ev, key@) == key_pos_from(ev, key@, i as int),
        decreases entries.len() - i,
    {
        if entries[i].0 == *key {
            return Some(i);
        }
        i += 1;
    }
    None
}

/// Sets `key` to `value`: replaced in place when present, added at the end otherwise.
pub fn set_entry(entries: &mut Vec<(String, JsonValue)>, key: String, value: JsonValue)
    ensures
        entries_view(final(entries)@) == set_field(entries_view(old(entries)@), key@, value@),
{
    let ghost ev = entries_view(entries@);
    let ghost kv = (key@, value@);
    match find_key(entries, &key) {
        Some(p) => {
            entries.remove(p);
            entries.insert(p, (key, value));
            proof {
                assert(entries_view(entries@) =~= ev.update(p as int, kv));
            }
        },
        None => {
            entries.push((key, value));
            proof {
                assert(entries_view(entries@) =~= ev.push(kv));
            }
        },
    }
}

/// Shallow merge of `src` into `target`: each entry of `src` overwrites or adds.
pub fn merge_into(target: &mut Vec<(String, JsonValue)>, src: &Vec<(String, JsonValue)>)
    ensures
        entries_view(final(target)@) == merge_entries(
            entries_view(old(target)@),
            entries_view(src@),
        ),
{
    let ghost t0 = entries_view(target@);
    let ghost sv = entries_view(src@);
    let mut i: usize = 0;
    proof {
        assert(sv.subrange(0, 0) =~= Seq::empty());
    }
    while i < src.len()
        invariant
            0 <= i <= src.len(),
            sv == entries_view(src@),
            entries_view(target@) == merge_entries(t0, sv.subrange(0, i as int)),
        decreases src.len() - i,
    {
        let k = src[i].0.clone();
        let v = src[i].1.duplicate();
        set_entry(target, k, v);
        proof {
            assert(sv.subrange(0, i + 1).drop_last() =~= sv.subrange(0, i as int));
        }
        i += 1;
    }
    proof {
        assert(sv.subrange(0, src.len() as int) =~= sv);
    }
}

/// Upsert of the record `rec` into `items`, keyed by `id_field`.
pub fn upsert_record(items: &mut Vec<JsonValue>, id_field: &String, rec: &Vec<(String, JsonValue)>)
    ensures
        items_view(final(items)@) == upsert(items_view(old(items)@), id_field@, entries_view(rec@)),
{
    let ghost iv = items_view(items@);
    let ghost rv = entries_view(rec@);
    let rec_value = JsonValue::Object(duplicate_entries(rec));
    proof {
        lemma_object_view(rec_value->Object_0);
    }
    match find_key(rec, id_field) {
        Some(q) => {
            let id = &rec[q].1;
            proof {
                assert(rv[q as int].1 == id@);
            }
            let mut i: usize = 0;
            while i < items.len()
                invariant
                    0 <= i <= items.len(),
                    iv == items_view(items@),
                    iv == items_view(old(items)@),
                    rv == entries_view(rec@),
                    field_of(rv, id_field@) == Some(id@),
                    rec_value@ == Json::Object(rv),
                    record_pos_from(iv, id_field@, id@, 0) == record_pos_from(iv, id_field@, id@, i as int),
                decreases items.len() - i,
            {
                let hit = match &items[i] {
                    JsonValue::Object(e) => {
                        proof {
                            lemma_object_view(*e);
                        }
                        match find_key(e, id_field) {
                            Some(k) => json_equal(&e[k].1, id),
                            None => false,
                        }
                    },
                    _ => false,
                };
                proof {
                    assert(iv[i as int] == items@[i as int]@);
                    assert(hit == record_has_id(iv[i as int], id_field@, id@));
                }
                if hit {
                    let old_item = items.remove(i);
                    proof {
                        assert(old_item@ == iv[i as int]);
                    }
                    match old_item {
                        JsonValue::Object(mut e) => {
                            proof {
                                lemma_object_view(e);
                            }
                            merge_into(&mut e, rec);
                            let ghost ev = e;
                            items.insert(i, JsonValue::Object(e));
                            proof {
                                lemma_object_view(ev);
                                assert(items_view(items@) =~= upsert(iv, id_field@, rv));
                            }
                        },
                        other => {
                            items.insert(i, other);
                        },
                    }
                    return;
                }
                i += 1;
            }
            items.push(rec_value);
            proof {
                assert(items_view(items@) =~= iv.push(Json::Object(rv)));
            }
        },
        None => {
            items.push(rec_value);
            proof {
                assert(items_view(items@) =~= iv.push(Json::Object(rv)));
            }
        },
    }
}

/// A copy of a list of entries.
pub fn duplicate_entries(entries: &Vec<(String, JsonValue)>) -> (r: Vec<(String, JsonValue)>)
    ensures
        entries_view(r@) == entries_view(entries@),
{
    let mut out: Vec<(String, JsonValue)> = Vec::new();
    let mut i: usize = 0;
    while i < entries.len()
        invariant
            0 <= i <= entries.len(),
            out@.len() == i,
            forall|j: int| 0 <= j < i ==> out@[j].0@ == entries@[j].0@ && out@[j].1@ == entries@[j].1@,
        decreases entries.len() - i,
    {
        out.push((entries[i].0.clone(), entries[i].1.duplicate()));
        i += 1;
    }
    proof {
        assert(entries_view(out@) =~= entries_view(entries@));
    }
    out
}

/// Merges `new` into `target`: objects merge shallowly, arrays append, an
/// object upserts into an array by `id_field`, any other pair gives `new`.
pub fn merge_value(target: JsonValue, new: JsonValue, id_field: &String) -> (r: JsonValue)
    ensures
        r@ == merged(target@, new@, id_field@),
{
    match (target, new) {
        (JsonValue::Object(mut t), JsonValue::Object(n)) => {
            proof {
                lemma_object_view(t);
                lemma_object_view(n);
            }
            merge_into(&mut t, &n);
            proof {
                lemma_object_view(t);
            }
            JsonValue::Object(t)
        },
        (JsonValue::Array(mut t), JsonValue::Array(mut n)) => {
            proof {
                lemma_array_view(t);
                lemma_array_view(n);
            }
            let ghost t0 = t@;
            let ghost n0 = n@;
            t.append(&mut n);
            proof {
                lemma_array_view(t);
                assert(items_view(t@) =~= items_view(t0) + items_view(n0));
            }
            JsonValue::Array(t)
        },
        (JsonValue::Array(mut t), JsonValue::Object(n)) => {
            proof {
                lemma_array_view(t);
                lemma_object_view(n);
            }
            upsert_record(&mut t, id_field, &n);
            proof {
                lemma_array_view(t);
            }
            JsonValue::Array(t)
        },
        (_, new) => new,
    }
}

// ---------------------------------------------------------------------------
// JSON text, through serde_json
// ---------------------------------------------------------------------------

/// serde_json's `Value`, carried opaquely between the decoder, the encoder
/// and the conversions below.
#[verifier::external_type_specification]
#[verifier::external_body]
pub struct ExSerdeJsonValue(serde_json::Value);

/// The value that a JSON text holds, or `None` when the text is not JSON.
pub uninterp spec fn decoded_json(bytes: Seq<u8>) -> Option<Json>;

/// The compact JSON text of a value.
pub uninterp spec fn json_text(v: Json) -> Seq<char>;

/// Moves a serde_json value into a library value, node for node.
#[verifier::external_body]
fn from_serde(v: serde_json::Value) -> JsonValue {
    match v {
        serde_json::Value::Null => JsonValue::Null,
        serde_json::Value::Bool(b) => JsonValue::Bool(b),
        serde_json::Value::Number(n) => JsonValue::Number(n.to_string()),
        serde_json::Value::String(s) => JsonValue::Str(s),
        serde_json::Value::Array(a) => JsonValue::Array(a.into_iter().map(from_serde).collect()),
        serde_json::Value::Object(m) => JsonValue::Object(
            m.into_iter().map(|(k, v)| (k, from_serde(v))).collect(),
        ),
    }
}

/// Copies a library value into a serde_json value, node for node; a number
/// whose text serde_json does not read as a number becomes null.
#[verifier::external_body]
fn to_serde(v: &JsonValue) -> serde_json::Value {
    match v {
        JsonValue::Null => serde_json::Value::Null,
        JsonValue::Bool(b) => serde_json::Value::Bool(*b),
        JsonValue::Number(n) => n.parse::<serde_json::Number>().map_or(serde_json::Value::Null, serde_json::Value::Number),
        JsonValue::Str(s) => serde_json::Value::String(s.clone()),
        JsonValue::Array(a) => serde_json::Value::Array(a.iter().map(to_serde).collect()),
        JsonValue::Object(e) => serde_json::Value::Object(
            e.iter().map(|(k, v)| (k.clone(), to_serde(v))).collect(),
        ),
    }
}

/// Relies on serde_json::from_slice into a `Value`: the outcome depends on the bytes alone.
#[verifier::external_body]
fn decode_json(bytes: &[u8]) -> (r: Result<JsonValue, String>)
    ensures
        r is Ok <==> decoded_json(bytes@) is Some,
        r matches Ok(v) ==> decoded_json(bytes@) == Some(v@),
{
    match serde_json::from_slice::<serde_json::Value>(bytes) {
        Ok(v) => Ok(from_serde(v)),
        Err(e) => Err(e.to_string()),
    }
}

/// Relies on serde_json's `Display` for `Value`: the compact JSON text, which
/// depends on the value alone.
#[verifier::external_body]
fn encode_json(v: &JsonValue) -> (r: String)
    ensures
        r@ == json_text(v@),
{
    to_serde(v).to_string()
}

impl JsonValue {
    /// Reads a JSON text; the error carries the decoder's message.
    pub fn parse(bytes: &[u8]) -> (r: Result<JsonValue, String>)
        ensures
            r is Ok <==> decoded_json(bytes@) is Some,
            r matches Ok(v) ==> decoded_json(bytes@) == Some(v@),
    {
        decode_json(bytes)
    }

    /// The compact JSON text of this value.
    pub fn to_text(&self) -> (r: String)
        ensures
            r@ == json_text(self@),
    {
        encode_json(self)
    }
}

} // verus!
