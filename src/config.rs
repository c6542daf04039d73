use vstd::prelude::*;
use vstd::string::StringExecFns;

use crate::json::{entries_view, field_of, lemma_object_view, Json, JsonValue};

verus! {

// ---------------------------------------------------------------------------
// Types and their models
// ---------------------------------------------------------------------------

/// The body of a response: a JSON value, or plain text served as it is.
#[derive(Debug, PartialEq, Eq)]
pub enum BodyResponse {
    Value(JsonValue),
    Str(String),
}

/// Model of a response body.
pub enum BodyView {
    Value(Json),
    Str(Seq<char>),
}

impl View for BodyResponse {
    type V = BodyView;

    open spec fn view(&self) -> BodyView {
        match self {
            BodyResponse::Value(v) => BodyView::Value(v@),
            BodyResponse::Str(s) => BodyView::Str(s@),
        }
    }
}

/// A structured response: a status and a body.
#[derive(Debug, PartialEq, Eq)]
pub struct ConfigRouteResponse {
    pub status: Option<u16>,
    pub body: BodyResponse,
}

/// Model of a structured response.
pub struct ResponseView {
    pub status: Option<u16>,
    pub body: BodyView,
}

impl View for ConfigRouteResponse {
    type V = ResponseView;

    open spec fn view(&self) -> ResponseView {
        ResponseView { status: self.status, body: self.body@ }
    }
}

/// The response of a route: given inline, or named by the file that holds it.
#[derive(Debug, PartialEq, Eq)]
pub enum ConfigResponse {
    ConfigRouteResponse(ConfigRouteResponse),
    File(String),
}

/// Model of a route's response.
pub enum ResponseSource {
    Inline(ResponseView),
    File(Seq<char>),
}

impl View for ConfigResponse {
    type V = ResponseSource;

    open spec fn view(&self) -> ResponseSource {
        match self {
            ConfigResponse::ConfigRouteResponse(r) => ResponseSource::Inline(r@),
            ConfigResponse::File(f) => ResponseSource::File(f@),
        }
    }
}

/// One configured route.
#[derive(Debug, PartialEq, Eq)]
pub struct ConfigRoute {
    pub method: Option<String>,
    pub description: Option<String>,
    pub headers: Option<Vec<(String, String)>>,
    pub id_field: Option<String>,
    pub results_field: Option<String>,
    pub response: ConfigResponse,
}

/// Model of a route.
pub struct RouteView {
    pub method: Option<Seq<char>>,
    pub description: Option<Seq<char>>,
    pub headers: Option<Seq<(Seq<char>, Seq<char>)>>,
    pub id_field: Option<Seq<char>>,
    pub results_field: Option<Seq<char>>,
    pub response: ResponseSource,
}

pub open spec fn opt_view(o: Option<String>) -> Option<Seq<char>> {
    match o {
        Some(s) => Some(s@),
        None => None,
    }
}

pub open spec fn pairs_view(p: Seq<(String, String)>) -> Seq<(Seq<char>, Seq<char>)> {
    Seq::new(p.len(), |i: int| (p[i].0@, p[i].1@))
}

pub open spec fn headers_view(h: Option<Vec<(String, String)>>) -> Option<Seq<(Seq<char>, Seq<char>)>> {
    match h {
        Some(p) => Some(pairs_view(p@)),
        None => None,
    }
}

impl View for ConfigRoute {
    type V = RouteView;

    open spec fn view(&self) -> RouteView {
        RouteView {
            method: opt_view(self.method),
            description: opt_view(self.description),
            headers: headers_view(self.headers),
            id_field: opt_view(self.id_field),
            results_field: opt_view(self.results_field),
            response: self.response@,
        }
    }
}

/// The configuration document: server settings and the routes by key, each key once.
#[derive(Debug, PartialEq, Eq)]
pub struct Config {
    pub port: Option<u16>,
    pub hostname: Option<String>,
    pub static_folder: Option<String>,
    pub static_route: String,
    pub routes: Vec<(String, ConfigRoute)>,
}

/// Model of a configuration document.
pub struct ConfigView {
    pub port: Option<u16>,
    pub hostname: Option<Seq<char>>,
    pub static_folder: Option<Seq<char>>,
    pub static_route: Seq<char>,
    pub routes: Seq<(Seq<char>, RouteView)>,
}

pub open spec fn routes_view(r: Seq<(String, ConfigRoute)>) -> Seq<(Seq<char>, RouteView)> {
    Seq::new(r.len(), |i: int| (r[i].0@, r[i].1@))
}

impl View for Config {
    type V = ConfigView;

    open spec fn view(&self) -> ConfigView {
        ConfigView {
            port: self.port,
            hostname: opt_view(self.hostname),
            static_folder: opt_view(self.static_folder),
            static_route: self.static_route@,
            routes: routes_view(self.routes@),
        }
    }
}

/// Position of the route with key `k` at or after `i`, or -1.
pub open spec fn route_pos_from(r: Seq<(Seq<char>, RouteView)>, k: Seq<char>, i: int) -> int
    decreases r.len() - i,
{
    if i < 0 || i >= r.len() {
        -1
    } else if r[i].0 == k {
        i
    } else {
        route_pos_from(r, k, i + 1)
    }
}

/// Are the keys of `r` pairwise distinct?
pub open spec fn keys_unique(r: Seq<(Seq<char>, RouteView)>) -> bool {
    forall|i: int, j: int| 0 <= i < j < r.len() ==> r[i].0 != r[j].0
}

// ---------------------------------------------------------------------------
// Copies
// ---------------------------------------------------------------------------

pub fn copy_opt(o: &Option<String>) -> (r: Option<String>)
    ensures
        opt_view(r) == opt_view(*o),
{
    match o {
        Some(s) => Some(s.clone()),
        None => None,
    }
}

pub fn copy_pairs(p: &Vec<(String, String)>) -> (r: Vec<(String, String)>)
    ensures
        pairs_view(r@) == pairs_view(p@),
{
    let mut out: Vec<(String, String)> = Vec::new();
    let mut i: usize = 0;
    while i < p.len()
        invariant
            0 <= i <= p.len(),
            out@.len() == i,
            forall|j: int| 0 <= j < i ==> out@[j].0@ == p@[j].0@ && out@[j].1@ == p@[j].1@,
        decreases p.len() - i,
    {
        out.push((p[i].0.clone(), p[i].1.clone()));
        i += 1;
    }
    proof {
        assert(pairs_view(out@) =~= pairs_view(p@));
    }
    out
}

impl BodyResponse {
    /// A copy of the body.
    pub fn duplicate(&self) -> (r: BodyResponse)
        ensures
            r@ == self@,
    {
        match self {
            BodyResponse::Value(v) => BodyResponse::Value(v.duplicate()),
            BodyResponse::Str(s) => BodyResponse::Str(s.clone()),
        }
    }

    /// The body as a JSON value: plain text becomes a JSON string.
    pub fn as_value(&self) -> (r: JsonValue)
        ensures
            match self@ {
                BodyView::Value(v) => r@ == v,
                BodyView::Str(s) => r@ == Json::Str(s),
            },
    {
        match self {
            BodyResponse::Value(v) => v.duplicate(),
            BodyResponse::Str(s) => JsonValue::Str(s.clone()),
        }
    }

    /// The plain text of the body; empty for a JSON value.
    pub fn as_str(&self) -> (r: &str)
        ensures
            match self@ {
                BodyView::Value(_) => r@ == Seq::<char>::empty(),
                BodyView::Str(s) => r@ == s,
            },
    {
        match self {
            BodyResponse::Str(s) => s.as_str(),
            BodyResponse::Value(_) => {
                let e = "";
                proof {
                    reveal_strlit("");
                }
                e
            },
        }
    }

    /// Is the body a JSON value?
    pub fn is_value(&self) -> (r: bool)
        ensures
            r == (self@ is Value),
    {
        match self {
            BodyResponse::Value(_) => true,
            BodyResponse::Str(_) => false,
        }
    }

    /// Is the body plain text?
    pub fn is_str(&self) -> (r: bool)
        ensures
            r == (self@ is Str),
    {
        match self {
            BodyResponse::Value(_) => false,
            BodyResponse::Str(_) => true,
        }
    }
}

impl ConfigRouteResponse {
    /// A copy of the response.
    pub fn duplicate(&self) -> (r: ConfigRouteResponse)
        ensures
            r@ == self@,
    {
        ConfigRouteResponse { status: self.status, body: self.body.duplicate() }
    }
}

impl ConfigResponse {
    /// A copy of the response.
    pub fn duplicate(&self) -> (r: ConfigResponse)
        ensures
            r@ == self@,
    {
        match self {
            ConfigResponse::ConfigRouteResponse(r) => ConfigResponse::ConfigRouteResponse(
                r.duplicate(),
            ),
            ConfigResponse::File(f) => ConfigResponse::File(f.clone()),
        }
    }
}

impl ConfigRoute {
    /// A copy of the route.
    pub fn duplicate(&self) -> (r: ConfigRoute)
        ensures
            r@ == self@,
    {
        let headers = match &self.headers {
            Some(h) => Some(copy_pairs(h)),
            None => None,
        };
        ConfigRoute {
            method: copy_opt(&self.method),
            description: copy_opt(&self.description),
            headers,
            id_field: copy_opt(&self.id_field),
            results_field: copy_opt(&self.results_field),
            response: self.response.duplicate(),
        }
    }
}

/// A copy of a list of routes.
pub fn copy_routes(r: &Vec<(String, ConfigRoute)>) -> (out: Vec<(String, ConfigRoute)>)
    ensures
        routes_view(out@) == routes_view(r@),
{
    let mut out: Vec<(String, ConfigRoute)> = Vec::new();
    let mut i: usize = 0;
    while i < r.len()
        invariant
            0 <= i <= r.len(),
            out@.len() == i,
            forall|j: int| 0 <= j < i ==> out@[j].0@ == r@[j].0@ && out@[j].1@ == r@[j].1@,
        decreases r.len() - i,
    {
        out.push((r[i].0.clone(), r[i].1.duplicate()));
        i += 1;
    }
    proof {
        assert(routes_view(out@) =~= routes_view(r@));
    }
    out
}

impl Config {
    /// A copy of the document.
    pub fn duplicate(&self) -> (r: Config)
        ensures
            r@ == self@,
    {
        Config {
            port: self.port,
            hostname: copy_opt(&self.hostname),
            static_folder: copy_opt(&self.static_folder),
            static_route: self.static_route.clone(),
            routes: copy_routes(&self.routes),
        }
    }
}

// ---------------------------------------------------------------------------
// Defaults
// ---------------------------------------------------------------------------

/// The port when none is configured.
pub fn default_port() -> (r: Option<u16>)
    ensures
        r == Some(3001u16),
{
    Some(3001)
}

/// The route under which static files are served when none is configured.
pub fn default_static_route() -> (r: String)
    ensures
        r@ == "/static"@,
{
    String::from_str("/static")
}

/// The host name when none is configured.
pub fn default_host() -> (r: Option<String>)
    ensures
        opt_view(r) == Some("localhost"@),
{
    Some(String::from_str("localhost"))
}

/// The method of a route that names none.
pub fn default_method() -> (r: Option<String>)
    ensures
        opt_view(r) == Some("GET"@),
{
    Some(String::from_str("GET"))
}

/// The identifier field of a route that names none.
pub fn default_id_field() -> (r: Option<String>)
    ensures
        opt_view(r) == Some("id"@),
{
    Some(String::from_str("id"))
}

/// The status of a response that gives none.
pub fn default_status() -> (r: Option<u16>)
    ensures
        r == Some(200u16),
{
    Some(200)
}

/// The body of a response that gives none: an empty object.
pub fn default_body() -> (r: BodyResponse)
    ensures
        r@ == BodyView::Value(Json::Object(Seq::empty())),
{
    let entries: Vec<(String, JsonValue)> = Vec::new();
    proof {
        lemma_object_view(entries);
        assert(entries_view(entries@) =~= Seq::empty());
    }
    BodyResponse::Value(JsonValue::Object(entries))
}

impl Default for Config {
    fn default() -> (r: Self)
        ensures
            r@.port == Some(3001u16),
            r@.hostname == Some("localhost"@),
            r@.static_folder is None,
            r@.static_route == "/static"@,
            r@.routes.len() == 0,
    {
        let r = Config {
            port: default_port(),
            hostname: default_host(),
            static_folder: None,
            static_route: default_static_route(),
            routes: Vec::new(),
        };
        proof {
            assert(routes_view(r.routes@) =~= Seq::empty());
        }
        r
    }
}

impl Default for ConfigRoute {
    fn default() -> (r: Self)
        ensures
            r@.method == Some("GET"@),
            r@.description is None,
            r@.headers is None,
            r@.id_field == Some("id"@),
            r@.results_field is None,
            r@.response == ResponseSource::Inline(
                ResponseView { status: Some(200u16), body: BodyView::Value(Json::Object(Seq::empty())) },
            ),
    {
        ConfigRoute {
            method: default_method(),
            id_field: default_id_field(),
            description: None,
            results_field: None,
            headers: None,
            response: ConfigResponse::ConfigRouteResponse(
                ConfigRouteResponse { status: default_status(), body: default_body() },
            ),
        }
    }
}

} // verus!
