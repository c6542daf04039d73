use vstd::prelude::*;
use vstd::string::{StrSliceExecFns, StringExecFns};

use crate::config::{
    opt_view, pairs_view, routes_view, BodyResponse, BodyView, Config, ConfigResponse, ConfigRoute,
    ConfigRouteResponse, ConfigView, ResponseSource, ResponseView, RouteView,
};
use crate::json::{entries_view, field_of, find_key, lemma_object_view, Json, JsonValue};

verus! {

// ---------------------------------------------------------------------------
// The shape of a configuration document in JSON
// ---------------------------------------------------------------------------

/// An optional text field: `absent` when missing, nothing when null, the text
/// when a string; `None` when it holds anything else.
pub open spec fn text_opt(e: Seq<(Seq<char>, Json)>, k: Seq<char>, absent: Option<Seq<char>>) -> Option<
    Option<Seq<char>>,
> {
    match field_of(e, k) {
        None => Some(absent),
        Some(Json::Null) => Some(None),
        Some(Json::Str(s)) => Some(Some(s)),
        Some(_) => None,
    }
}

/// A text field that must not be null: `absent` when missing.
pub open spec fn text_req(e: Seq<(Seq<char>, Json)>, k: Seq<char>, absent: Seq<char>) -> Option<Seq<char>> {
    match field_of(e, k) {
        None => Some(absent),
        Some(Json::Str(s)) => Some(s),
        Some(_) => None,
    }
}

pub open spec fn is_digit(c: char) -> bool {
    '0' <= c && c <= '9'
}

/// The value of a text of decimal digits.
pub open spec fn digits_value(t: Seq<char>) -> int
    decreases t.len(),
{
    if t.len() == 0 {
        0
    } else {
        digits_value(t.drop_last()) * 10 + (t.last() as int - '0' as int)
    }
}

/// The 16-bit number that a JSON number text holds, if it holds one.
pub open spec fn u16_of_text(t: Seq<char>) -> Option<u16> {
    if t.len() > 0 && (forall|i: int| 0 <= i < t.len() ==> is_digit(#[trigger] t[i])) && digits_value(
        t,
    ) <= 65535 {
        Some(digits_value(t) as u16)
    } else {
        None
    }
}

/// An optional 16-bit number field: `absent` when missing, nothing when null.
pub open spec fn u16_opt(e: Seq<(Seq<char>, Json)>, k: Seq<char>, absent: Option<u16>) -> Option<
    Option<u16>,
> {
    match field_of(e, k) {
        None => Some(absent),
        Some(Json::Null) => Some(None),
        Some(Json::Number(t)) => match u16_of_text(t) {
            Some(n) => Some(Some(n)),
            None => None,
        },
        Some(_) => None,
    }
}

/// Does every entry of `h` hold a string?
pub open spec fn all_strings(h: Seq<(Seq<char>, Json)>) -> bool {
    forall|i: int| 0 <= i < h.len() ==> (#[trigger] h[i]).1 is Str
}

/// The headers field: nothing when missing or null, the pairs when an object of strings.
pub open spec fn headers_opt(e: Seq<(Seq<char>, Json)>) -> Option<Option<Seq<(Seq<char>, Seq<char>)>>> {
    match field_of(e, "headers"@) {
        None => Some(None),
        Some(Json::Null) => Some(None),
        Some(Json::Object(h)) => if all_strings(h) {
            Some(Some(Seq::new(h.len(), |i: int| (h[i].0, h[i].1->Str_0))))
        } else {
            None
        },
        Some(_) => None,
    }
}

/// A structured response read from an object: status 200 and an empty object
/// as body when missing.
pub open spec fn response_of(o: Seq<(Seq<char>, Json)>) -> Option<ResponseView> {
    match u16_opt(o, "status"@, Some(200u16)) {
        Some(status) => Some(
            ResponseView {
                status,
                body: match field_of(o, "body"@) {
                    Some(b) => BodyView::Value(b),
                    None => BodyView::Value(Json::Object(Seq::empty())),
                },
            },
        ),
        None => None,
    }
}

/// A route's response: an object is a structured response, a string names a file.
pub open spec fn response_source_of(j: Json) -> Option<ResponseSource> {
    match j {
        Json::Object(o) => match response_of(o) {
            Some(r) => Some(ResponseSource::Inline(r)),
            None => None,
        },
        Json::Str(s) => Some(ResponseSource::File(s)),
        _ => None,
    }
}

/// A route read from JSON; `None` when the shape does not fit.
pub open spec fn route_from_json(j: Json) -> Option<RouteView> {
    match j {
        Json::Object(o) => {
            let method = text_opt(o, "method"@, Some("GET"@));
            let description = text_opt(o, "description"@, None);
            let headers = headers_opt(o);
            let id_field = text_opt(o, "id_field"@, Some("id"@));
            let results_field = text_opt(o, "results_field"@, None);
            let response = match field_of(o, "response"@) {
                Some(r) => response_source_of(r),
                None => None,
            };
            if method is Some && description is Some && headers is Some && id_field is Some
                && results_field is Some && response is Some {
                Some(
                    RouteView {
                        method: method->0,
                        description: description->0,
                        headers: headers->0,
                        id_field: id_field->0,
                        results_field: results_field->0,
                        response: response->0,
                    },
                )
            } else {
                None
            }
        },
        _ => None,
    }
}

/// The routes of a `routes` object, in order; `None` when one does not fit.
pub open spec fn routes_from_json(e: Seq<(Seq<char>, Json)>) -> Option<Seq<(Seq<char>, RouteView)>>
    decreases e.len(),
{
    if e.len() == 0 {
        Some(Seq::empty())
    } else {
        match (routes_from_json(e.drop_last()), route_from_json(e.last().1)) {
            (Some(rs), Some(r)) => Some(rs.push((e.last().0, r))),
            _ => None,
        }
    }
}

/// A configuration document read from JSON, before its route keys are
/// normalized; `None` when the shape does not fit.
pub open spec fn config_from_json(j: Json) -> Option<ConfigView> {
    match j {
        Json::Object(o) => {
            let port = u16_opt(o, "port"@, Some(3001u16));
            let hostname = text_opt(o, "hostname"@, Some("localhost"@));
            let static_folder = text_opt(o, "static_folder"@, None);
            let static_route = text_req(o, "static_route"@, "/static"@);
            let routes = match field_of(o, "routes"@) {
                None => Some(Seq::empty()),
                Some(Json::Object(r)) => routes_from_json(r),
                Some(_) => None,
            };
            if port is Some && hostname is Some && static_folder is Some && static_route is Some
                && routes is Some {
                Some(
                    ConfigView {
                        port: port->0,
                        hostname: hostname->0,
                        static_folder: static_folder->0,
                        static_route: static_route->0,
                        routes: routes->0,
                    },
                )
            } else {
                None
            }
        },
        _ => None,
    }
}

// ---------------------------------------------------------------------------
// Reading fields
// ---------------------------------------------------------------------------

fn shape_error(key: &str) -> (r: String) {
    let mut m = String::from_str("invalid type for field `");
    m.append(key);
    m.append("`");
    m
}

fn read_text_opt(o: &Vec<(String, JsonValue)>, key: &str, absent: Option<String>) -> (r: Result<Option<String>, String>)
    ensures
        match text_opt(entries_view(o@), key@, opt_view(absent)) {
            Some(v) => r matches Ok(x) && opt_view(x) == v,
            None => r is Err,
        },
{
    let k = String::from_str(key);
    match find_key(o, &k) {
        None => Ok(absent),
        Some(p) => match &o[p].1 {
            JsonValue::Null => Ok(None),
            JsonValue::Str(s) => Ok(Some(s.clone())),
            _ => Err(shape_error(key)),
        },
    }
}

fn read_text_req(o: &Vec<(String, JsonValue)>, key: &str, absent: String) -> (r: Result<String, String>)
    ensures
        match text_req(entries_view(o@), key@, absent@) {
            Some(v) => r matches Ok(x) && x@ == v,
            None => r is Err,
        },
{
    let k = String::from_str(key);
    match find_key(o, &k) {
        None => Ok(absent),
        Some(p) => match &o[p].1 {
            JsonValue::Str(s) => Ok(s.clone()),
            _ => Err(shape_error(key)),
        },
    }
}

pub proof fn lemma_digits_grow(t: Seq<char>, i: int)
    requires
        0 <= i <= t.len(),
        forall|j: int| 0 <= j < t.len() ==> is_digit(#[trigger] t[j]),
    ensures
        digits_value(t.subrange(0, i)) <= digits_value(t),
        0 <= digits_value(t.subrange(0, i)),
    decreases t.len() - i,
{
    if i < t.len() {
        lemma_digits_grow(t, i + 1);
        assert(t.subrange(0, i + 1).drop_last() =~= t.subrange(0, i));
    } else {
        assert(t.subrange(0, i) =~= t);
    }
    lemma_digits_nonneg(t.subrange(0, i));
}

pub proof fn lemma_digits_nonneg(t: Seq<char>)
    requires
        forall|j: int| 0 <= j < t.len() ==> is_digit(#[trigger] t[j]),
    ensures
        0 <= digits_value(t),
    decreases t.len(),
{
    if t.len() > 0 {
        lemma_digits_nonneg(t.drop_last());
    }
}

/// The 16-bit number that a JSON number text holds.
pub fn parse_u16(t: &str) -> (r: Option<u16>)
    ensures
        r == u16_of_text(t@),
{
    let n = t.unicode_len();
    if n == 0 {
        return None;
    }
    let mut acc: u32 = 0;
    let mut i: usize = 0;
    proof {
        assert(t@.subrange(0, 0) =~= Seq::<char>::empty());
    }
    while i < n
        invariant
            n == t@.len(),
            0 < n,
            0 <= i <= n,
            acc as int == digits_value(t@.subrange(0, i as int)),
            acc <= 65535,
            forall|j: int| 0 <= j < i ==> is_digit(#[trigger] t@[j]),
        decreases n - i,
    {
        let c = t.get_char(i);
        if !('0' <= c && c <= '9') {
            return None;
        }
        proof {
            assert(t@.subrange(0, i + 1).drop_last() =~= t@.subrange(0, i as int));
        }
        let next = acc * 10 + (c as u32 - '0' as u32);
        if next > 65535 {
            proof {
                assert(digits_value(t@.subrange(0, i + 1)) > 65535);
                if forall|j: int| 0 <= j < t@.len() ==> is_digit(#[trigger] t@[j]) {
                    lemma_digits_grow(t@, i + 1);
                }
            }
            return None;
        }
        acc = next;
        i += 1;
    }
    proof {
        assert(t@.subrange(0, n as int) =~= t@);
    }
    Some(acc as u16)
}

fn read_u16_opt(o: &Vec<(String, JsonValue)>, key: &str, absent: Option<u16>) -> (r: Result<Option<u16>, String>)
    ensures
        match u16_opt(entries_view(o@), key@, absent) {
            Some(v) => r == Ok::<Option<u16>, String>(v),
            None => r is Err,
        },
{
    let k = String::from_str(key);
    match find_key(o, &k) {
        None => Ok(absent),
        Some(p) => match &o[p].1 {
            JsonValue::Null => Ok(None),
            JsonValue::Number(t) => match parse_u16(t.as_str()) {
                Some(v) => Ok(Some(v)),
                None => Err(shape_error(key)),
            },
            _ => Err(shape_error(key)),
        },
    }
}

fn read_headers(o: &Vec<(String, JsonValue)>) -> (r: Result<Option<Vec<(String, String)>>, String>)
    ensures
        match headers_opt(entries_view(o@)) {
            Some(v) => r matches Ok(x) && v == match x {
                Some(p) => Some(pairs_view(p@)),
                None => None::<Seq<(Seq<char>, Seq<char>)>>,
            },
            None => r is Err,
        },
{
    let k = String::from_str("headers");
    proof {
        reveal_strlit("headers");
    }
    match find_key(o, &k) {
        None => Ok(None),
        Some(p) => match &o[p].1 {
            JsonValue::Null => Ok(None),
            JsonValue::Object(h) => {
                proof {
                    lemma_object_view(*h);
                    lemma_object_view(*o);
                }
                let ghost hv = entries_view(h@);
                proof {
                    assert(entries_view(o@)[p as int].1 == Json::Object(hv));
                }
                let mut out: Vec<(String, String)> = Vec::new();
                let mut i: usize = 0;
                while i < h.len()
                    invariant
                        0 <= i <= h.len(),
                        hv == entries_view(h@),
                        field_of(entries_view(o@), "headers"@) == Some(Json::Object(hv)),
                        out@.len() == i,
                        forall|j: int| 0 <= j < i ==> hv[j].1 is Str,
                        forall|j: int| 0 <= j < i ==> (#[trigger] out@[j]).0@ == hv[j].0 && out@[j].1@ == hv[j].1->Str_0,
                    decreases h.len() - i,
                {
                    match &h[i].1 {
                        JsonValue::Str(s) => {
                            out.push((h[i].0.clone(), s.clone()));
                        },
                        _ => {
                            proof {
                                assert(!(hv[i as int].1 is Str));
                            }
                            return Err(shape_error("headers"));
                        },
                    }
                    i += 1;
                }
                proof {
                    assert(pairs_view(out@) =~= Seq::new(hv.len(), |j: int| (hv[j].0, hv[j].1->Str_0)));
                }
                Ok(Some(out))
            },
            _ => Err(shape_error("headers")),
        },
    }
}

/// Reads a structured response from the entries of an object.
pub fn read_response(o: &Vec<(String, JsonValue)>) -> (r: Result<ConfigRouteResponse, String>)
    ensures
        match response_of(entries_view(o@)) {
            Some(v) => r matches Ok(x) && x@ == v,
            None => r is Err,
        },
{
    let status = read_u16_opt(o, "status", Some(200))?;
    let k = String::from_str("body");
    let body = match find_key(o, &k) {
        Some(p) => BodyResponse::Value(o[p].1.duplicate()),
        None => crate::config::default_body(),
    };
    Ok(ConfigRouteResponse { status, body })
}

fn read_response_source(j: &JsonValue) -> (r: Result<ConfigResponse, String>)
    ensures
        match response_source_of(j@) {
            Some(v) => r matches Ok(x) && x@ == v,
            None => r is Err,
        },
{
    match j {
        JsonValue::Object(o) => {
            proof {
                lemma_object_view(*o);
            }
            let resp = read_response(o)?;
            Ok(ConfigResponse::ConfigRouteResponse(resp))
        },
        JsonValue::Str(s) => Ok(ConfigResponse::File(s.clone())),
        _ => Err(shape_error("response")),
    }
}

/// Reads a route from JSON.
pub fn read_route(j: &JsonValue) -> (r: Result<ConfigRoute, String>)
    ensures
        match route_from_json(j@) {
            Some(v) => r matches Ok(x) && x@ == v,
            None => r is Err,
        },
{
    match j {
        JsonValue::Object(o) => {
            proof {
                lemma_object_view(*o);
            }
            let method = read_text_opt(o, "method", Some(String::from_str("GET")))?;
            let description = read_text_opt(o, "description", None)?;
            let headers = read_headers(o)?;
            let id_field = read_text_opt(o, "id_field", Some(String::from_str("id")))?;
            let results_field = read_text_opt(o, "results_field", None)?;
            let k = String::from_str("response");
            let response = match find_key(o, &k) {
                Some(p) => read_response_source(&o[p].1)?,
                None => {
                    return Err(shape_error("response"));
                },
            };
            Ok(ConfigRoute { method, description, headers, id_field, results_field, response })
        },
        _ => Err(shape_error("route")),
    }
}

/// Reads a configuration document from JSON; route keys stay as written.
pub fn read_config(j: &JsonValue) -> (r: Result<Config, String>)
    ensures
        match config_from_json(j@) {
            Some(v) => r matches Ok(x) && x@ == v,
            None => r is Err,
        },
{
    match j {
        JsonValue::Object(o) => {
            proof {
                lemma_object_view(*o);
            }
            let port = read_u16_opt(o, "port", Some(3001))?;
            let hostname = read_text_opt(o, "hostname", Some(String::from_str("localhost")))?;
            let static_folder = read_text_opt(o, "static_folder", None)?;
            let static_route = read_text_req(o, "static_route", String::from_str("/static"))?;
            let k = String::from_str("routes");
            let routes = match find_key(o, &k) {
                None => Vec::new(),
                Some(p) => match &o[p].1 {
                    JsonValue::Object(r) => {
                        proof {
                            lemma_object_view(*r);
                        }
                        read_routes(r)?
                    },
                    _ => {
                        return Err(shape_error("routes"));
                    },
                },
            };
            let c = Config { port, hostname, static_folder, static_route, routes };
            proof {
                if field_of(entries_view(o@), "routes"@) is None {
                    assert(routes_view(c.routes@) =~= Seq::empty());
                }
            }
            Ok(c)
        },
        _ => Err(shape_error("config")),
    }
}

fn read_routes(r: &Vec<(String, JsonValue)>) -> (out: Result<Vec<(String, ConfigRoute)>, String>)
    ensures
        match routes_from_json(entries_view(r@)) {
            Some(v) => out matches Ok(x) && routes_view(x@) == v,
            None => out is Err,
        },
{
    let ghost rv = entries_view(r@);
    let mut acc: Vec<(String, ConfigRoute)> = Vec::new();
    let mut i: usize = 0;
    proof {
        assert(rv.subrange(0, 0) =~= Seq::empty());
        assert(routes_view(acc@) =~= Seq::empty());
    }
    while i < r.len()
        invariant
            0 <= i <= r.len(),
            rv == entries_view(r@),
            routes_from_json(rv.subrange(0, i as int)) == Some(routes_view(acc@)),
        decreases r.len() - i,
    {
        proof {
            assert(rv.subrange(0, i + 1).drop_last() =~= rv.subrange(0, i as int));
        }
        match read_route(&r[i].1) {
            Ok(route) => {
                let ghost before = routes_view(acc@);
                acc.push((r[i].0.clone(), route));
                proof {
                    assert(routes_view(acc@) =~= before.push((rv[i as int].0, route@)));
                }
            },
            Err(e) => {
                proof {
                    lemma_routes_prefix_fails(rv, i as int + 1);
                }
                return Err(e);
            },
        }
        i += 1;
    }
    proof {
        assert(rv.subrange(0, r.len() as int) =~= rv);
    }
    Ok(acc)
}

/// Once a prefix of the routes fails to read, the whole list fails.
pub proof fn lemma_routes_prefix_fails(e: Seq<(Seq<char>, Json)>, i: int)
    requires
        0 <= i <= e.len(),
        routes_from_json(e.subrange(0, i)) is None,
    ensures
        routes_from_json(e) is None,
    decreases e.len() - i,
{
    if i < e.len() {
        assert(e.subrange(0, i + 1).drop_last() =~= e.subrange(0, i));
        lemma_routes_prefix_fails(e, i + 1);
    } else {
        assert(e.subrange(0, i) =~= e);
    }
}

impl Config {
    /// Reads a document from JSON; route keys stay as written. The error names
    /// the field whose value does not fit.
    pub fn from_json(j: &JsonValue) -> (r: Result<Config, String>)
        ensures
            match config_from_json(j@) {
                Some(v) => r matches Ok(x) && x@ == v,
                None => r is Err,
            },
    {
        read_config(j)
    }
}

impl ConfigRoute {
    /// Reads a route from JSON.
    pub fn from_json(j: &JsonValue) -> (r: Result<ConfigRoute, String>)
        ensures
            match route_from_json(j@) {
                Some(v) => r matches Ok(x) && x@ == v,
                None => r is Err,
            },
    {
        read_route(j)
    }
}

} // verus!
