use vstd::prelude::*;
use vstd::string::StringExecFns;

use crate::config::{
    opt_view, pairs_view, routes_view, BodyResponse, BodyView, Config, ConfigResponse, ConfigRoute,
    ConfigView, ResponseSource, RouteView,
};
use crate::json::{entries_view, json_text, lemma_object_view, Json, JsonValue};

verus! {

/// The character of a decimal digit.
pub open spec fn digit_char(d: nat) -> char {
    ((d + 48) as u8) as char
}

/// The decimal text of a number, as JSON writes it.
pub open spec fn decimal_text(n: nat) -> Seq<char>
    decreases n,
{
    if n < 10 {
        seq![digit_char(n)]
    } else {
        decimal_text(n / 10).push(digit_char(n % 10))
    }
}

pub open spec fn opt_u16_json(o: Option<u16>) -> Json {
    match o {
        Some(n) => Json::Number(decimal_text(n as nat)),
        None => Json::Null,
    }
}

pub open spec fn opt_text_json(o: Option<Seq<char>>) -> Json {
    match o {
        Some(s) => Json::Str(s),
        None => Json::Null,
    }
}

pub open spec fn body_json(b: BodyView) -> Json {
    match b {
        BodyView::Value(v) => v,
        BodyView::Str(s) => Json::Str(s),
    }
}

pub open spec fn response_json(r: ResponseSource) -> Json {
    match r {
        ResponseSource::Inline(x) => Json::Object(
            seq![("status"@, opt_u16_json(x.status)), ("body"@, body_json(x.body))],
        ),
        ResponseSource::File(f) => Json::Str(f),
    }
}

pub open spec fn headers_json(h: Option<Seq<(Seq<char>, Seq<char>)>>) -> Json {
    match h {
        Some(p) => Json::Object(Seq::new(p.len(), |i: int| (p[i].0, Json::Str(p[i].1)))),
        None => Json::Null,
    }
}

/// The JSON form of a route.
pub open spec fn route_json(r: RouteView) -> Json {
    Json::Object(
        seq![
            ("method"@, opt_text_json(r.method)),
            ("description"@, opt_text_json(r.description)),
            ("headers"@, headers_json(r.headers)),
            ("id_field"@, opt_text_json(r.id_field)),
            ("results_field"@, opt_text_json(r.results_field)),
            ("response"@, response_json(r.response)),
        ],
    )
}

pub open spec fn routes_json(rs: Seq<(Seq<char>, RouteView)>) -> Seq<(Seq<char>, Json)> {
    Seq::new(rs.len(), |i: int| (rs[i].0, route_json(rs[i].1)))
}

/// The JSON form of a configuration document.
pub open spec fn config_json(c: ConfigView) -> Json {
    Json::Object(
        seq![
            ("port"@, opt_u16_json(c.port)),
            ("hostname"@, opt_text_json(c.hostname)),
            ("static_folder"@, opt_text_json(c.static_folder)),
            ("static_route"@, Json::Str(c.static_route)),
            ("routes"@, Json::Object(routes_json(c.routes))),
        ],
    )
}

/// The decimal text of a number.
pub fn decimal(n: u16) -> (r: String)
    ensures
        r@ == decimal_text(n as nat),
    decreases n,
{
    if n < 10 {
        digit_text(n as u8)
    } else {
        let mut s = decimal(n / 10);
        let d = digit_text((n % 10) as u8);
        s.append(d.as_str());
        proof {
            assert(s@ =~= decimal_text((n / 10) as nat).push(digit_char((n % 10) as nat)));
        }
        s
    }
}

/// The text of one decimal digit.
fn digit_text(d: u8) -> (r: String)
    requires
        d < 10,
    ensures
        r@ == seq![digit_char(d as nat)],
{
    let t = match d {
        0 => "0",
        1 => "1",
        2 => "2",
        3 => "3",
        4 => "4",
        5 => "5",
        6 => "6",
        7 => "7",
        8 => "8",
        _ => "9",
    };
    proof {
        reveal_strlit("0");
        reveal_strlit("1");
        reveal_strlit("2");
        reveal_strlit("3");
        reveal_strlit("4");
        reveal_strlit("5");
        reveal_strlit("6");
        reveal_strlit("7");
        reveal_strlit("8");
        reveal_strlit("9");
    }
    let r = String::from_str(t);
    proof {
        assert(r@ =~= seq![digit_char(d as nat)]);
    }
    r
}

fn text_json(o: &Option<String>) -> (r: JsonValue)
    ensures
        r@ == opt_text_json(opt_view(*o)),
{
    match o {
        Some(s) => JsonValue::Str(s.clone()),
        None => JsonValue::Null,
    }
}

fn number_json(o: Option<u16>) -> (r: JsonValue)
    ensures
        r@ == opt_u16_json(o),
{
    match o {
        Some(n) => JsonValue::Number(decimal(n)),
        None => JsonValue::Null,
    }
}

fn object_of(entries: Vec<(String, JsonValue)>) -> (r: JsonValue)
    ensures
        r@ == Json::Object(entries_view(entries@)),
{
    proof {
        lemma_object_view(entries);
    }
    JsonValue::Object(entries)
}

impl ConfigRoute {
    /// The JSON form of the route.
    pub fn to_json(&self) -> (r: JsonValue)
        ensures
            r@ == route_json(self@),
    {
        let headers = match &self.headers {
            Some(h) => {
                let mut e: Vec<(String, JsonValue)> = Vec::new();
                let mut i: usize = 0;
                while i < h.len()
                    invariant
                        0 <= i <= h.len(),
                        e@.len() == i,
                        forall|j: int| 0 <= j < i ==> (#[trigger] e@[j]).0@ == h@[j].0@ && e@[j].1@ == Json::Str(h@[j].1@),
                    decreases h.len() - i,
                {
                    e.push((h[i].0.clone(), JsonValue::Str(h[i].1.clone())));
                    i += 1;
                }
                let r = object_of(e);
                proof {
                    let p = pairs_view(h@);
                    assert(entries_view(e@) =~= Seq::new(p.len(), |j: int| (p[j].0, Json::Str(p[j].1))));
                }
                r
            },
            None => JsonValue::Null,
        };
        let response = match &self.response {
            ConfigResponse::ConfigRouteResponse(x) => {
                let body = match &x.body {
                    BodyResponse::Value(v) => v.duplicate(),
                    BodyResponse::Str(s) => JsonValue::Str(s.clone()),
                };
                let mut e: Vec<(String, JsonValue)> = Vec::new();
                e.push((String::from_str("status"), number_json(x.status)));
                e.push((String::from_str("body"), body));
                let r = object_of(e);
                proof {
                    assert(entries_view(e@) =~= seq![("status"@, opt_u16_json(x.status)), ("body"@, body_json(x.body@))]);
                }
                r
            },
            ConfigResponse::File(f) => JsonValue::Str(f.clone()),
        };
        let mut e: Vec<(String, JsonValue)> = Vec::new();
        e.push((String::from_str("method"), text_json(&self.method)));
        e.push((String::from_str("description"), text_json(&self.description)));
        e.push((String::from_str("headers"), headers));
        e.push((String::from_str("id_field"), text_json(&self.id_field)));
        e.push((String::from_str("results_field"), text_json(&self.results_field)));
        e.push((String::from_str("response"), response));
        let r = object_of(e);
        proof {
            assert(entries_view(e@) =~= route_json(self@)->Object_0);
        }
        r
    }
}

impl Config {
    /// The JSON form of the document.
    pub fn to_json(&self) -> (r: JsonValue)
        ensures
            r@ == config_json(self@),
    {
        let mut routes: Vec<(String, JsonValue)> = Vec::new();
        let mut i: usize = 0;
        while i < self.routes.len()
            invariant
                0 <= i <= self.routes.len(),
                routes@.len() == i,
                forall|j: int| 0 <= j < i ==> (#[trigger] routes@[j]).0@ == self.routes@[j].0@ && routes@[j].1@ == route_json(self.routes@[j].1@),
            decreases self.routes.len() - i,
        {
            routes.push((self.routes[i].0.clone(), self.routes[i].1.to_json()));
            i += 1;
        }
        let routes_value = object_of(routes);
        proof {
            assert(entries_view(routes@) =~= routes_json(routes_view(self.routes@)));
        }
        let mut e: Vec<(String, JsonValue)> = Vec::new();
        e.push((String::from_str("port"), number_json(self.port)));
        e.push((String::from_str("hostname"), text_json(&self.hostname)));
        e.push((String::from_str("static_folder"), text_json(&self.static_folder)));
        e.push((String::from_str("static_route"), JsonValue::Str(self.static_route.clone())));
        e.push((String::from_str("routes"), routes_value));
        let r = object_of(e);
        proof {
            assert(entries_view(e@) =~= config_json(self@)->Object_0);
        }
        r
    }

    /// The document as compact JSON text.
    pub fn to_text(&self) -> (r: String)
        ensures
            r@ == json_text(config_json(self@)),
    {
        self.to_json().to_text()
    }
}

} // verus!
