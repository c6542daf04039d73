use vstd::prelude::*;

use crate::json::{
    field_of, key_pos, key_pos_from, merge_entries, merged, record_has_id, record_pos_from, set_field,
    upsert, Json,
};
use crate::model::{projection, updated_body, updated_value};
use crate::config::{keys_unique, route_pos_from, BodyView, ConfigView, ResponseSource, RouteView};
use crate::loader::{
    config_from_json, digits_value, headers_opt, is_digit, response_of, route_from_json, routes_from_json,
    text_opt, text_req, u16_of_text, u16_opt,
};
use crate::writer::{
    config_json, decimal_text, digit_char, headers_json, opt_text_json, opt_u16_json, response_json,
    route_json, routes_json,
};
use crate::database::{canonical_key, lemma_route_pos, put_route};
use crate::manager::{effective_method, normalized_route, normalized_routes, split_key};
use crate::text::{char_pos_from, is_white, lead_from, trail_from, trimmed, upper_of};

verus! {

// ---------------------------------------------------------------------------
// Entry lists
// ---------------------------------------------------------------------------

/// The value that `src` gives `k` last, if it gives one.
pub open spec fn latest_of(src: Seq<(Seq<char>, Json)>, k: Seq<char>) -> Option<Json>
    decreases src.len(),
{
    if src.len() == 0 {
        None
    } else if src.last().0 == k {
        Some(src.last().1)
    } else {
        latest_of(src.drop_last(), k)
    }
}

proof fn lemma_key_pos_found(e: Seq<(Seq<char>, Json)>, k: Seq<char>, i: int)
    requires
        0 <= i,
    ensures
        key_pos_from(e, k, i) == -1 || (i <= key_pos_from(e, k, i) < e.len() && e[key_pos_from(e, k, i)].0 == k
            && forall|j: int| i <= j < key_pos_from(e, k, i) ==> e[j].0 != k),
        key_pos_from(e, k, i) == -1 ==> forall|j: int| i <= j < e.len() ==> e[j].0 != k,
    decreases e.len() - i,
{
    if i < e.len() && e[i].0 != k {
        lemma_key_pos_found(e, k, i + 1);
    }
}

/// Two lists with the same keys at every position find a key at the same position.
proof fn lemma_key_pos_same_keys(a: Seq<(Seq<char>, Json)>, b: Seq<(Seq<char>, Json)>, k: Seq<char>, i: int)
    requires
        0 <= i,
        a.len() == b.len(),
        forall|j: int| 0 <= j < a.len() ==> a[j].0 == b[j].0,
    ensures
        key_pos_from(a, k, i) == key_pos_from(b, k, i),
    decreases a.len() - i,
{
    if i < a.len() {
        lemma_key_pos_same_keys(a, b, k, i + 1);
    }
}

/// Adding an entry at the end leaves the positions of the keys already there.
proof fn lemma_key_pos_push(e: Seq<(Seq<char>, Json)>, x: (Seq<char>, Json), k: Seq<char>, i: int)
    requires
        0 <= i <= e.len(),
    ensures
        key_pos_from(e.push(x), k, i) == if key_pos_from(e, k, i) >= 0 {
            key_pos_from(e, k, i)
        } else if x.0 == k {
            e.len() as int
        } else {
            -1
        },
    decreases e.len() - i,
{
    if i < e.len() {
        assert(e.push(x)[i] == e[i]);
        lemma_key_pos_push(e, x, k, i + 1);
    } else {
        assert(e.push(x)[i] == x);
        assert(key_pos_from(e.push(x), k, i + 1) == -1);
    }
}

/// Setting `k` to `v` gives `k` the value `v` and leaves every other key as it was.
pub proof fn lemma_set_field(e: Seq<(Seq<char>, Json)>, k: Seq<char>, v: Json, k2: Seq<char>)
    ensures
        field_of(set_field(e, k, v), k2) == if k2 == k {
            Some(v)
        } else {
            field_of(e, k2)
        },
{
    let p = key_pos(e, k);
    lemma_key_pos_found(e, k, 0);
    lemma_key_pos_found(e, k2, 0);
    if p >= 0 {
        let e2 = e.update(p, (k, v));
        lemma_key_pos_same_keys(e, e2, k2, 0);
    } else {
        lemma_key_pos_push(e, (k, v), k2, 0);
    }
}

/// Shallow merge: each key takes the value that `src` gives it last, and keeps
/// its value when `src` gives it none.
pub proof fn lemma_merge_entries(t: Seq<(Seq<char>, Json)>, src: Seq<(Seq<char>, Json)>, k: Seq<char>)
    ensures
        field_of(merge_entries(t, src), k) == match latest_of(src, k) {
            Some(v) => Some(v),
            None => field_of(t, k),
        },
    decreases src.len(),
{
    if src.len() > 0 {
        lemma_merge_entries(t, src.drop_last(), k);
        lemma_set_field(merge_entries(t, src.drop_last()), src.last().0, src.last().1, k);
    }
}

// ---------------------------------------------------------------------------
// Merge laws
// ---------------------------------------------------------------------------

/// Merging an empty object into an object leaves it as it is.
pub proof fn lemma_merge_empty_object(t: Seq<(Seq<char>, Json)>, id_field: Seq<char>)
    ensures
        merged(Json::Object(t), Json::Object(Seq::empty()), id_field) == Json::Object(t),
{
}

/// Merging an object into an object: every key of the new object takes its
/// new value, every other key keeps its value.
pub proof fn lemma_merge_objects(t: Seq<(Seq<char>, Json)>, n: Seq<(Seq<char>, Json)>, id_field: Seq<char>, k: Seq<char>)
    ensures
        merged(Json::Object(t), Json::Object(n), id_field) matches Json::Object(r) && field_of(r, k)
            == match latest_of(n, k) {
            Some(v) => Some(v),
            None => field_of(t, k),
        },
{
    lemma_merge_entries(t, n, k);
}

/// Merging an array into an array appends its elements, in order.
pub proof fn lemma_merge_arrays(t: Seq<Json>, n: Seq<Json>, id_field: Seq<char>)
    ensures
        merged(Json::Array(t), Json::Array(n), id_field) == Json::Array(t + n),
{
}

proof fn lemma_record_pos_found(items: Seq<Json>, id_field: Seq<char>, id: Json, i: int, j: int)
    requires
        0 <= i <= j < items.len(),
        record_has_id(items[j], id_field, id),
    ensures
        i <= record_pos_from(items, id_field, id, i) <= j,
        record_has_id(items[record_pos_from(items, id_field, id, i)], id_field, id),
    decreases j - i,
{
    if !record_has_id(items[i], id_field, id) {
        lemma_record_pos_found(items, id_field, id, i + 1, j);
    }
}

proof fn lemma_record_pos_absent(items: Seq<Json>, id_field: Seq<char>, id: Json, i: int)
    requires
        0 <= i <= items.len(),
        forall|j: int| i <= j < items.len() ==> !record_has_id(#[trigger] items[j], id_field, id),
    ensures
        record_pos_from(items, id_field, id, i) == -1,
    decreases items.len() - i,
{
    if i < items.len() {
        lemma_record_pos_absent(items, id_field, id, i + 1);
    }
}

/// A record whose identifier matches an element's is merged into that
/// element in place: the array keeps its length.
pub proof fn lemma_upsert_matching(items: Seq<Json>, id_field: Seq<char>, rec: Seq<(Seq<char>, Json)>, j: int)
    requires
        0 <= j < items.len(),
        field_of(rec, id_field) is Some,
        record_has_id(items[j], id_field, field_of(rec, id_field)->0),
    ensures
        ({
            let id = field_of(rec, id_field)->0;
            let p = record_pos_from(items, id_field, id, 0);
            let r = merged(Json::Array(items), Json::Object(rec), id_field);
            &&& 0 <= p <= j
            &&& r == Json::Array(items.update(p, Json::Object(merge_entries(items[p]->Object_0, rec))))
            &&& r->Array_0.len() == items.len()
        }),
{
    lemma_record_pos_found(items, id_field, field_of(rec, id_field)->0, 0, j);
}

/// A record whose identifier matches no element is appended: the array grows by one.
pub proof fn lemma_upsert_new(items: Seq<Json>, id_field: Seq<char>, rec: Seq<(Seq<char>, Json)>)
    requires
        forall|j: int| 0 <= j < items.len() ==> match field_of(rec, id_field) {
            Some(id) => !record_has_id(#[trigger] items[j], id_field, id),
            None => true,
        },
    ensures
        merged(Json::Array(items), Json::Object(rec), id_field) == Json::Array(items.push(Json::Object(rec))),
        upsert(items, id_field, rec).len() == items.len() + 1,
{
    match field_of(rec, id_field) {
        Some(id) => {
            assert forall|j: int| 0 <= j < items.len() implies !record_has_id(#[trigger] items[j], id_field, id) by {}
            lemma_record_pos_absent(items, id_field, id, 0);
        },
        None => {},
    }
}

// ---------------------------------------------------------------------------
// Updates through a results field
// ---------------------------------------------------------------------------

/// An update through the results field `f` of an object body changes the
/// value under `f` alone, and reads then return the merged value.
pub proof fn lemma_update_through_results_field(
    e: Seq<(Seq<char>, Json)>,
    f: Seq<char>,
    id_field: Seq<char>,
    new: Json,
    k: Seq<char>,
)
    ensures
        ({
            let slice = match field_of(e, f) {
                Some(t) => merged(t, new, id_field),
                None => new,
            };
            let b = updated_value(Json::Object(e), Some(f), id_field, new);
            &&& b matches Json::Object(e2) && (k != f ==> field_of(e2, k) == field_of(e, k))
            &&& projection(BodyView::Value(b), Some(f)) == BodyView::Value(slice)
        }),
{
    let slice = match field_of(e, f) {
        Some(t) => merged(t, new, id_field),
        None => new,
    };
    lemma_set_field(e, f, slice, k);
    lemma_set_field(e, f, slice, f);
}

/// A plain-text body takes no update: every merge into it fails, and the
/// model keeps its body (see `Model::update_data`).
pub proof fn lemma_text_body_refuses_updates(
    s: Seq<char>,
    results_field: Option<Seq<char>>,
    id_field: Seq<char>,
    new: Json,
)
    ensures
        updated_body(BodyView::Str(s), results_field, id_field, new) is None,
{
}

// ---------------------------------------------------------------------------
// Route keys
// ---------------------------------------------------------------------------

proof fn lemma_char_pos_skip(s: Seq<char>, c: char, i: int, j: int)
    requires
        0 <= i <= j <= s.len(),
        forall|t: int| i <= t < j ==> s[t] != c,
    ensures
        char_pos_from(s, c, i) == char_pos_from(s, c, j),
    decreases j - i,
{
    if i < j {
        lemma_char_pos_skip(s, c, i + 1, j);
    }
}

proof fn lemma_lead_shift(p: Seq<char>, i: int)
    requires
        0 <= i <= p.len(),
    ensures
        lead_from(seq![' '] + p, i + 1) == 1 + lead_from(p, i),
    decreases p.len() - i,
{
    let s = seq![' '] + p;
    if i < p.len() {
        assert(s[i + 1] == p[i]);
        lemma_lead_shift(p, i + 1);
    }
}

proof fn lemma_trail_shift(p: Seq<char>, j: int, lo: int)
    requires
        0 <= lo <= j <= p.len(),
    ensures
        trail_from(seq![' '] + p, j + 1, lo + 1) == 1 + trail_from(p, j, lo),
    decreases j,
{
    let s = seq![' '] + p;
    if lo < j {
        assert(s[j] == p[j - 1]);
        lemma_trail_shift(p, j - 1, lo);
    }
}

/// A leading space does not change the trimmed text.
proof fn lemma_trim_leading_space(p: Seq<char>)
    ensures
        trimmed(seq![' '] + p) == trimmed(p),
{
    let s = seq![' '] + p;
    assert(is_white(' '));
    assert(s[0] == ' ');
    assert(lead_from(s, 0) == lead_from(s, 1));
    lemma_lead_shift(p, 0);
    crate::text::lemma_lead_bounds(p, 0);
    let lo = lead_from(p, 0);
    assert(s.len() == p.len() + 1);
    lemma_trail_shift(p, p.len() as int, lo);
    crate::text::lemma_trail_bounds(p, p.len() as int, lo);
    let hi = trail_from(p, p.len() as int, lo);
    assert(s.subrange(lo + 1, hi + 1) =~= p.subrange(lo, hi));
}

/// Normalizing a key that is already `[M] p` gives the key back, for a route
/// that names the method `M` itself, or that names none when `M` needs no
/// trimming and is its own uppercase form. `M` holds no `]` and `p` needs no
/// trimming, as in every key that normalization writes.
pub proof fn lemma_normalization_keeps_canonical_key(m: Seq<char>, p: Seq<char>, route: RouteView)
    requires
        forall|i: int| 0 <= i < m.len() ==> m[i] != ']',
        trimmed(p) == p,
        route.method == Some(m) || (route.method is None && trimmed(m) == m && upper_of(m) == m),
    ensures
        normalized_route(canonical_key(m, p), route).0 == canonical_key(m, p),
{
    let k = canonical_key(m, p);
    let l = m.len() as int;
    assert(k[0] == '[');
    assert forall|t: int| 0 <= t < l + 1 implies k[t] != ']' by {
        if t > 0 {
            assert(k[t] == m[t - 1]);
        }
    }
    lemma_char_pos_skip(k, ']', 0, l + 1);
    assert(k[l + 1] == ']');
    assert(char_pos_from(k, ']', 0) == l + 1);
    assert(k.subrange(1, l + 1) =~= m);
    assert(k.subrange(l + 2, k.len() as int) =~= seq![' '] + p);
    lemma_trim_leading_space(p);
    assert(split_key(k).1 == p);
}

proof fn lemma_lead_stops(s: Seq<char>, i: int)
    requires
        0 <= i <= s.len(),
    ensures
        i <= lead_from(s, i) <= s.len(),
        lead_from(s, i) < s.len() ==> !is_white(s[lead_from(s, i)]),
    decreases s.len() - i,
{
    if i < s.len() && is_white(s[i]) {
        lemma_lead_stops(s, i + 1);
    }
}

proof fn lemma_trail_stops(s: Seq<char>, j: int, lo: int)
    requires
        0 <= lo <= j <= s.len(),
    ensures
        lo <= trail_from(s, j, lo) <= j,
        trail_from(s, j, lo) > lo ==> !is_white(s[trail_from(s, j, lo) - 1]),
    decreases j,
{
    if lo < j && is_white(s[j - 1]) {
        lemma_trail_stops(s, j - 1, lo);
    }
}

/// Trimming trimmed text changes nothing.
pub proof fn lemma_trimmed_idempotent(s: Seq<char>)
    ensures
        trimmed(trimmed(s)) == trimmed(s),
{
    lemma_lead_stops(s, 0);
    let lo = lead_from(s, 0);
    lemma_trail_stops(s, s.len() as int, lo);
    let hi = trail_from(s, s.len() as int, lo);
    let t = s.subrange(lo, hi);
    if t.len() > 0 {
        assert(t[0] == s[lo]);
        assert(lead_from(t, 0) == 0);
        assert(t[t.len() - 1] == s[hi - 1]);
        assert(trail_from(t, t.len() as int, 0) == t.len());
    } else {
        assert(lead_from(t, 0) == 0);
        assert(trail_from(t, t.len() as int, 0) == 0);
    }
    assert(t.subrange(0, t.len() as int) =~= t);
}

/// A route whose key normalizes to a key that normalizes to itself: its
/// method holds no `]`, and a key without a method in brackets needs no
/// trimming.
pub open spec fn normalizes_stably(k: Seq<char>, v: RouteView) -> bool {
    &&& forall|i: int| 0 <= i < effective_method(k, v).len() ==> effective_method(k, v)[i] != ']'
    &&& split_key(k).0 is None ==> trimmed(k) == k
}

proof fn lemma_normalized_route_fixed(k: Seq<char>, v: RouteView)
    requires
        normalizes_stably(k, v),
    ensures
        normalized_route(normalized_route(k, v).0, normalized_route(k, v).1) == normalized_route(k, v),
{
    let m = effective_method(k, v);
    let p = split_key(k).1;
    let n = normalized_route(k, v);
    if split_key(k).0 is Some {
        let q = char_pos_from(k, ']', 0);
        lemma_trimmed_idempotent(k.subrange(q + 1, k.len() as int));
    }
    assert(trimmed(p) == p);
    lemma_normalization_keeps_canonical_key(m, p, n.1);
    assert(effective_method(n.0, n.1) == m);
    assert(n.1.method == Some(m));
    assert(RouteView { method: Some(m), ..n.1 } == n.1);
}

proof fn lemma_normalized_entries(r: Seq<(Seq<char>, RouteView)>)
    ensures
        forall|j: int| 0 <= j < normalized_routes(r).len() ==> exists|i: int| 0 <= i < r.len()
            && #[trigger] normalized_routes(r)[j] == normalized_route(r[i].0, r[i].1),
    decreases r.len(),
{
    if r.len() > 0 {
        let prev = normalized_routes(r.drop_last());
        lemma_normalized_entries(r.drop_last());
        let n = normalized_route(r.last().0, r.last().1);
        let t = normalized_routes(r);
        assert(t == put_route(prev, n.0, n.1));
        assert forall|j: int| 0 <= j < t.len() implies exists|i: int| 0 <= i < r.len()
            && #[trigger] t[j] == normalized_route(r[i].0, r[i].1) by {
            if j < prev.len() && t[j] == prev[j] {
                let i = choose|i: int| 0 <= i < r.drop_last().len() && prev[j] == normalized_route(
                    r.drop_last()[i].0,
                    r.drop_last()[i].1,
                );
                assert(r.drop_last()[i] == r[i]);
            } else {
                let p = route_pos_from(prev, n.0, 0);
                lemma_route_pos(prev, n.0, 0);
                if p >= 0 {
                    assert(t == prev.update(p, (n.0, n.1)));
                } else {
                    assert(t == prev.push((n.0, n.1)));
                }
                assert(t[j] == n);
                assert(r.last() == r[r.len() - 1]);
            }
        }
    }
}

proof fn lemma_fixed_table(t: Seq<(Seq<char>, RouteView)>)
    requires
        keys_unique(t),
        forall|j: int| 0 <= j < t.len() ==> normalized_route(t[j].0, t[j].1) == #[trigger] t[j],
    ensures
        normalized_routes(t) == t,
    decreases t.len(),
{
    if t.len() > 0 {
        let prev = t.drop_last();
        assert forall|j: int| 0 <= j < prev.len() implies normalized_route(prev[j].0, prev[j].1)
            == #[trigger] prev[j] by {
            assert(prev[j] == t[j]);
        }
        lemma_fixed_table(prev);
        assert(normalized_route(t.last().0, t.last().1) == t[t.len() - 1]);
        lemma_route_pos(prev, t.last().0, 0);
        if route_pos_from(prev, t.last().0, 0) != -1 {
            let q = route_pos_from(prev, t.last().0, 0);
            assert(t[q].0 == t[t.len() - 1].0);
        }
        assert(prev.push(t.last()) =~= t);
    } else {
        assert(normalized_routes(t) == t);
    }
}

/// Normalizing routes twice gives what normalizing them once gives, when
/// every route normalizes stably.
pub proof fn lemma_normalization_idempotent(r: Seq<(Seq<char>, RouteView)>)
    requires
        forall|i: int| 0 <= i < r.len() ==> normalizes_stably(#[trigger] r[i].0, r[i].1),
    ensures
        normalized_routes(normalized_routes(r)) == normalized_routes(r),
{
    let t = normalized_routes(r);
    crate::manager::lemma_normalized_unique(r);
    lemma_normalized_entries(r);
    assert forall|j: int| 0 <= j < t.len() implies normalized_route(t[j].0, t[j].1) == #[trigger] t[j] by {
        let i = choose|i: int| 0 <= i < r.len() && t[j] == normalized_route(r[i].0, r[i].1);
        lemma_normalized_route_fixed(r[i].0, r[i].1);
    }
    lemma_fixed_table(t);
}

// ---------------------------------------------------------------------------
// Writing a document and reading it back
// ---------------------------------------------------------------------------

proof fn lemma_decimal_digits(n: nat)
    ensures
        decimal_text(n).len() > 0,
        forall|i: int| 0 <= i < decimal_text(n).len() ==> is_digit(#[trigger] decimal_text(n)[i]),
        digits_value(decimal_text(n)) == n,
    decreases n,
{
    if n < 10 {
        assert(decimal_text(n).drop_last() =~= Seq::<char>::empty());
        assert(digit_char(n) as int == n + 48);
        assert(is_digit(digit_char(n)));
        assert('0' as int == 48);
        assert(digits_value(decimal_text(n)) == digits_value(Seq::<char>::empty()) * 10 + (digit_char(n) as int - '0' as int));
    } else {
        lemma_decimal_digits(n / 10);
        let d = digit_char(n % 10);
        assert(d as int == n % 10 + 48);
        assert(is_digit(d));
        assert(decimal_text(n).drop_last() =~= decimal_text(n / 10));
        assert(decimal_text(n).last() == d);
        assert('0' as int == 48);
        assert(digits_value(decimal_text(n)) == digits_value(decimal_text(n / 10)) * 10 + (d as int - '0' as int));
        assert forall|i: int| 0 <= i < decimal_text(n).len() implies is_digit(#[trigger] decimal_text(n)[i]) by {
            if i < decimal_text(n).len() - 1 {
                assert(decimal_text(n)[i] == decimal_text(n / 10)[i]);
            }
        }
    }
}

proof fn lemma_u16_round_trip(o: Option<u16>)
    ensures
        match opt_u16_json(o) {
            Json::Number(t) => o is Some && u16_of_text(t) == o,
            Json::Null => o is None,
            _ => false,
        },
{
    if let Some(n) = o {
        lemma_decimal_digits(n as nat);
    }
}

/// Does every inline response of `r` have a JSON value as body?
pub open spec fn bodies_are_values(r: RouteView) -> bool {
    match r.response {
        ResponseSource::Inline(x) => x.body is Value,
        ResponseSource::File(_) => true,
    }
}

proof fn lemma_route_round_trip(r: RouteView)
    requires
        bodies_are_values(r),
    ensures
        route_from_json(route_json(r)) == Some(r),
{
    reveal_strlit("method");
    reveal_strlit("description");
    reveal_strlit("headers");
    reveal_strlit("id_field");
    reveal_strlit("results_field");
    reveal_strlit("response");
    reveal_strlit("status");
    reveal_strlit("body");
    reveal_with_fuel(key_pos_from, 7);
    assert("method"@.len() == 6);
    assert("description"@.len() == 11);
    assert("headers"@.len() == 7);
    assert("id_field"@.len() == 8 && "id_field"@[0] == 'i');
    assert("results_field"@.len() == 13);
    assert("response"@.len() == 8 && "response"@[0] == 'r');
    assert("status"@.len() == 6);
    assert("body"@.len() == 4);
    let o = route_json(r)->Object_0;
    assert(field_of(o, "method"@) == Some(opt_text_json(r.method)));
    assert(field_of(o, "description"@) == Some(opt_text_json(r.description)));
    assert(field_of(o, "headers"@) == Some(headers_json(r.headers)));
    assert(field_of(o, "id_field"@) == Some(opt_text_json(r.id_field)));
    assert(field_of(o, "results_field"@) == Some(opt_text_json(r.results_field)));
    assert(field_of(o, "response"@) == Some(response_json(r.response)));
    match r.headers {
        Some(p) => {
            let h = headers_json(r.headers)->Object_0;
            assert(Seq::new(h.len(), |i: int| (h[i].0, h[i].1->Str_0)) =~= p);
        },
        None => {},
    }
    match r.response {
        ResponseSource::Inline(x) => {
            let ro = response_json(r.response)->Object_0;
            assert(field_of(ro, "status"@) == Some(opt_u16_json(x.status)));
            assert(field_of(ro, "body"@) is Some);
            lemma_u16_round_trip(x.status);
            assert(response_of(ro) == Some(x));
        },
        ResponseSource::File(_) => {},
    }
}

proof fn lemma_routes_round_trip(rs: Seq<(Seq<char>, RouteView)>)
    requires
        forall|i: int| 0 <= i < rs.len() ==> bodies_are_values(#[trigger] rs[i].1),
    ensures
        routes_from_json(routes_json(rs)) == Some(rs),
    decreases rs.len(),
{
    if rs.len() > 0 {
        assert(routes_json(rs).drop_last() =~= routes_json(rs.drop_last()));
        lemma_routes_round_trip(rs.drop_last());
        lemma_route_round_trip(rs.last().1);
        assert(rs.drop_last().push((rs.last().0, rs.last().1)) =~= rs);
    } else {
        assert(rs =~= Seq::empty());
    }
}

/// Reading back the JSON form of a document gives the document, when every
/// inline body is a JSON value (a plain-text body is written as a JSON string
/// and read back as one).
pub proof fn lemma_config_json_round_trip(c: ConfigView)
    requires
        forall|i: int| 0 <= i < c.routes.len() ==> bodies_are_values(#[trigger] c.routes[i].1),
    ensures
        config_from_json(config_json(c)) == Some(c),
{
    reveal_strlit("port");
    reveal_strlit("hostname");
    reveal_strlit("static_folder");
    reveal_strlit("static_route");
    reveal_strlit("routes");
    reveal_with_fuel(key_pos_from, 6);
    assert("port"@.len() == 4);
    assert("hostname"@.len() == 8);
    assert("static_folder"@.len() == 13);
    assert("static_route"@.len() == 12);
    assert("routes"@.len() == 6);
    let o = config_json(c)->Object_0;
    assert(field_of(o, "port"@) == Some(opt_u16_json(c.port)));
    assert(field_of(o, "hostname"@) == Some(opt_text_json(c.hostname)));
    assert(field_of(o, "static_folder"@) == Some(opt_text_json(c.static_folder)));
    assert(field_of(o, "static_route"@) == Some(Json::Str(c.static_route)));
    assert(field_of(o, "routes"@) == Some(Json::Object(routes_json(c.routes))));
    lemma_u16_round_trip(c.port);
    lemma_routes_round_trip(c.routes);
}

} // verus!
