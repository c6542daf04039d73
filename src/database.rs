use vstd::prelude::*;
use vstd::string::{StrSliceExecFns, StringExecFns};

use crate::config::{
    copy_opt, keys_unique, opt_view, default_body, default_status, route_pos_from, routes_view, BodyView, ConfigResponse,
    ConfigRoute, ConfigRouteResponse, ResponseSource, RouteView,
};
use crate::json::{Json, JsonValue};
use crate::text::{char_pos_from, find_char};
use crate::model::{text_merge_error, updated_body, Model, ModelView};

verus! {

/// The route key `[METHOD] path`.
pub open spec fn canonical_key(method: Seq<char>, path: Seq<char>) -> Seq<char> {
    seq!['['] + method + seq![']', ' '] + path
}

/// Builds the route key `[METHOD] path`.
pub fn route_key(method: &str, path: &str) -> (r: String)
    ensures
        r@ == canonical_key(method@, path@),
{
    let mut k = String::from_str("[");
    k.append(method);
    k.append("] ");
    k.append(path);
    proof {
        reveal_strlit("[");
        reveal_strlit("] ");
        assert(k@ =~= canonical_key(method@, path@));
    }
    k
}

/// The key that a lookup by path and method reads: a path already in `[METHOD]
/// path` form (a leading `[` and a `]` after it) is the key itself; otherwise
/// the method, `GET` when none is given, is put in front.
pub open spec fn lookup_key(path: Seq<char>, method: Option<Seq<char>>) -> Seq<char> {
    if path.len() > 0 && path[0] == '[' && char_pos_from(path, ']', 0) >= 0 {
        path
    } else {
        canonical_key(
            match method {
                Some(m) => m,
                None => "GET"@,
            },
            path,
        )
    }
}

/// The table with the route `v` under `k`: replaced in place when `k` is
/// present, added at the end otherwise.
pub open spec fn put_route(r: Seq<(Seq<char>, RouteView)>, k: Seq<char>, v: RouteView) -> Seq<
    (Seq<char>, RouteView),
> {
    let p = route_pos_from(r, k, 0);
    if p >= 0 {
        r.update(p, (k, v))
    } else {
        r.push((k, v))
    }
}

/// The route table that a list of routes gives: each key once, the last route
/// given under a key winning.
pub open spec fn route_table(input: Seq<(Seq<char>, RouteView)>) -> Seq<(Seq<char>, RouteView)>
    decreases input.len(),
{
    if input.len() == 0 {
        input
    } else {
        put_route(route_table(input.drop_last()), input.last().0, input.last().1)
    }
}

/// The model that a route gives. A route whose response is still a file
/// reference gets status 200 and an empty object.
pub open spec fn model_of(key: Seq<char>, route: RouteView) -> ModelView {
    ModelView {
        identifier: key,
        id_field: match route.id_field {
            Some(f) => f,
            None => "id"@,
        },
        results_field: route.results_field,
        description: route.description,
        status: match route.response {
            ResponseSource::Inline(r) => r.status,
            ResponseSource::File(_) => Some(200u16),
        },
        body: match route.response {
            ResponseSource::Inline(r) => r.body,
            ResponseSource::File(_) => BodyView::Value(Json::Object(Seq::empty())),
        },
    }
}

/// The models of a route table, one per route, in table order.
pub open spec fn models_of(table: Seq<(Seq<char>, RouteView)>) -> Seq<ModelView> {
    Seq::new(table.len(), |i: int| model_of(table[i].0, table[i].1))
}

pub open spec fn models_view(m: Seq<Model>) -> Seq<ModelView> {
    Seq::new(m.len(), |i: int| m[i]@)
}

/// Position of the first model at or after `i` with identifier `id`, or -1.
pub open spec fn model_pos_from(m: Seq<ModelView>, id: Seq<char>, i: int) -> int
    decreases m.len() - i,
{
    if i < 0 || i >= m.len() {
        -1
    } else if m[i].identifier == id {
        i
    } else {
        model_pos_from(m, id, i + 1)
    }
}

pub proof fn lemma_route_pos(r: Seq<(Seq<char>, RouteView)>, k: Seq<char>, i: int)
    requires
        0 <= i,
    ensures
        route_pos_from(r, k, i) == -1 ==> forall|j: int| i <= j < r.len() ==> r[j].0 != k,
        route_pos_from(r, k, i) != -1 ==> i <= route_pos_from(r, k, i) < r.len() && r[route_pos_from(r, k, i)].0 == k,
    decreases r.len() - i,
{
    if i < r.len() && r[i].0 != k {
        lemma_route_pos(r, k, i + 1);
    }
}

/// A route table holds each key once.
pub proof fn lemma_route_table_unique(input: Seq<(Seq<char>, RouteView)>)
    ensures
        keys_unique(route_table(input)),
    decreases input.len(),
{
    if input.len() > 0 {
        let t = route_table(input.drop_last());
        lemma_route_table_unique(input.drop_last());
        lemma_put_route_unique(t, input.last().0, input.last().1);
    }
}

/// Putting a route into a table that holds each key once keeps it so.
pub proof fn lemma_put_route_unique(r: Seq<(Seq<char>, RouteView)>, k: Seq<char>, v: RouteView)
    requires
        keys_unique(r),
    ensures
        keys_unique(put_route(r, k, v)),
{
    lemma_route_pos(r, k, 0);
}

/// The store after merging `value` into the first model with identifier
/// `id`, or `None` when there is no such model or its body is plain text.
pub open spec fn store_updated(d: DatabaseView, id: Seq<char>, value: Json) -> Option<DatabaseView> {
    let p = model_pos_from(d.models, id, 0);
    if p < 0 {
        None
    } else {
        let m = d.models[p];
        match updated_body(m.body, m.results_field, m.id_field, value) {
            Some(b) => Some(DatabaseView { models: d.models.update(p, ModelView { body: b, ..m }), ..d }),
            None => None,
        }
    }
}

/// The store after a write to the route at `path`: `None` when neither the
/// `GET` nor the `POST` model of the path exists. Otherwise the value is
/// merged into the `POST` model and, when that succeeds, into the `GET` model
/// too, whose failure leaves the first write standing.
pub open spec fn store_posted(d: DatabaseView, path: Seq<char>, value: Json) -> Option<DatabaseView> {
    let get_id = canonical_key("GET"@, path);
    let post_id = canonical_key("POST"@, path);
    if model_pos_from(d.models, get_id, 0) < 0 && model_pos_from(d.models, post_id, 0) < 0 {
        None
    } else {
        Some(
            match store_updated(d, post_id, value) {
                Some(d1) => match store_updated(d1, get_id, value) {
                    Some(d2) => d2,
                    None => d1,
                },
                None => d,
            },
        )
    }
}

/// Is the store well formed: each key once in its route table?
pub open spec fn well_formed(d: DatabaseView) -> bool {
    keys_unique(d.routes)
}

/// The in-memory store: the route table of the latest population, and the
/// models of every population so far.
#[derive(Debug)]
pub struct Database {
    routes: Vec<(String, ConfigRoute)>,
    models: Vec<Model>,
}

/// Model of the store.
pub struct DatabaseView {
    pub routes: Seq<(Seq<char>, RouteView)>,
    pub models: Seq<ModelView>,
}

impl View for Database {
    type V = DatabaseView;

    closed spec fn view(&self) -> DatabaseView {
        DatabaseView { routes: routes_view(self.routes@), models: models_view(self.models@) }
    }
}

/// Position of the route with key `key` in `r`.
pub(crate) fn find_route(r: &Vec<(String, ConfigRoute)>, key: &String) -> (p: Option<usize>)
    ensures
        match p {
            Some(i) => i < r.len() && route_pos_from(routes_view(r@), key@, 0) == i,
            None => route_pos_from(routes_view(r@), key@, 0) == -1,
        },
{
    let ghost rv = routes_view(r@);
    let mut i: usize = 0;
    while i < r.len()
        invariant
            0 <= i <= r.len(),
            rv == routes_view(r@),
            route_pos_from(rv, key@, 0) == route_pos_from(rv, key@, i as int),
        decreases r.len() - i,
    {
        if r[i].0 == *key {
            return Some(i);
        }
        i += 1;
    }
    None
}

/// The model that the route `route` under `key` gives.
fn model_for(key: &String, route: &ConfigRoute) -> (m: Model)
    ensures
        m@ == model_of(key@, route@),
{
    let id_field = match &route.id_field {
        Some(f) => f.clone(),
        None => String::from_str("id"),
    };
    let data = match &route.response {
        ConfigResponse::ConfigRouteResponse(r) => r.duplicate(),
        ConfigResponse::File(_) => ConfigRouteResponse { status: default_status(), body: default_body() },
    };
    Model::new(key.clone(), id_field, copy_opt(&route.results_field), copy_opt(&route.description), data)
}

impl Database {
    /// An empty store.
    pub fn new() -> (r: Self)
        ensures
            r@.routes.len() == 0,
            r@.models.len() == 0,
            well_formed(r@),
    {
        let r = Database { routes: Vec::new(), models: Vec::new() };
        proof {
            assert(r@.routes.len() == 0);
        }
        r
    }

    /// Replaces the route table with `routes` and appends one model per route
    /// of the new table; the models of earlier populations stay.
    pub fn populate(&mut self, routes: Vec<(String, ConfigRoute)>)
        ensures
            final(self)@.routes == route_table(routes_view(routes@)),
            final(self)@.models == old(self)@.models + models_of(final(self)@.routes),
            well_formed(final(self)@),
    {
        let ghost input = routes_view(routes@);
        let mut table: Vec<(String, ConfigRoute)> = Vec::new();
        let mut i: usize = 0;
        proof {
            assert(input.subrange(0, 0) =~= Seq::empty());
            assert(routes_view(table@) =~= Seq::empty());
        }
        while i < routes.len()
            invariant
                0 <= i <= routes.len(),
                input == routes_view(routes@),
                routes_view(table@) == route_table(input.subrange(0, i as int)),
            decreases routes.len() - i,
        {
            let key = routes[i].0.clone();
            let route = routes[i].1.duplicate();
            let ghost tv = routes_view(table@);
            let ghost kv = (key@, route@);
            match find_route(&table, &key) {
                Some(p) => {
                    table.remove(p);
                    table.insert(p, (key, route));
                    proof {
                        assert(routes_view(table@) =~= tv.update(p as int, kv));
                    }
                },
                None => {
                    table.push((key, route));
                    proof {
                        assert(routes_view(table@) =~= tv.push(kv));
                    }
                },
            }
            proof {
                assert(input.subrange(0, i + 1).drop_last() =~= input.subrange(0, i as int));
            }
            i += 1;
        }
        proof {
            assert(input.subrange(0, routes.len() as int) =~= input);
        }
        let ghost old_models = models_view(self.models@);
        let ghost tv = routes_view(table@);
        let mut j: usize = 0;
        while j < table.len()
            invariant
                0 <= j <= table.len(),
                tv == routes_view(table@),
                models_view(self.models@) == old_models + models_of(tv).subrange(0, j as int),
            decreases table.len() - j,
        {
            let m = model_for(&table[j].0, &table[j].1);
            let ghost before = self.models@;
            proof {
                assert(models_of(tv)[j as int] == m@);
            }
            self.models.push(m);
            proof {
                assert(self.models@ == before.push(m));
                assert(models_view(self.models@) =~= models_view(before).push(m@));
                assert(models_view(self.models@) =~= old_models + models_of(tv).subrange(0, j + 1));
            }
            j += 1;
        }
        proof {
            assert(models_of(tv).subrange(0, table.len() as int) =~= models_of(tv));
        }
        self.routes = table;
        proof {
            lemma_route_table_unique(input);
        }
    }

    /// The route under the key that `path` and `method` give (see `lookup_key`).
    pub fn get_route(&self, path: &str, method: Option<String>) -> (r: Option<&ConfigRoute>)
        ensures
            match r {
                Some(route) => {
                    let p = route_pos_from(self@.routes, lookup_key(path@, opt_view(method)), 0);
                    p >= 0 && self@.routes[p].1 == route@
                },
                None => route_pos_from(self@.routes, lookup_key(path@, opt_view(method)), 0) == -1,
            },
    {
        let bracketed = path.unicode_len() > 0 && path.get_char(0) == '[' && find_char(path, ']').is_some();
        let key = if bracketed {
            String::from_str(path)
        } else {
            match &method {
                Some(m) => route_key(m.as_str(), path),
                None => route_key("GET", path),
            }
        };
        match find_route(&self.routes, &key) {
            Some(p) => Some(&self.routes[p].1),
            None => None,
        }
    }

    /// The keys of the route table.
    pub fn get_routes(&self) -> (r: Vec<String>)
        ensures
            r@.len() == self@.routes.len(),
            forall|i: int| 0 <= i < r@.len() ==> r@[i]@ == self@.routes[i].0,
    {
        let mut out: Vec<String> = Vec::new();
        let mut i: usize = 0;
        while i < self.routes.len()
            invariant
                0 <= i <= self.routes.len(),
                out@.len() == i,
                forall|j: int| 0 <= j < i ==> out@[j]@ == self.routes@[j].0@,
            decreases self.routes.len() - i,
        {
            out.push(self.routes[i].0.clone());
            i += 1;
        }
        out
    }

    /// All models, oldest population first.
    pub fn get_models(&self) -> (r: &Vec<Model>)
        ensures
            models_view(r@) == self@.models,
    {
        &self.models
    }

    /// The first model with identifier `identifier`.
    pub fn get_model(&self, identifier: &str) -> (r: Option<&Model>)
        ensures
            match r {
                Some(m) => {
                    let p = model_pos_from(self@.models, identifier@, 0);
                    p >= 0 && self@.models[p] == m@
                },
                None => model_pos_from(self@.models, identifier@, 0) == -1,
            },
    {
        match self.find_model(identifier) {
            Some(p) => Some(&self.models[p]),
            None => None,
        }
    }

    fn find_model(&self, identifier: &str) -> (r: Option<usize>)
        ensures
            match r {
                Some(p) => p < self.models.len() && model_pos_from(self@.models, identifier@, 0) == p,
                None => model_pos_from(self@.models, identifier@, 0) == -1,
            },
    {
        let id = String::from_str(identifier);
        let ghost mv = self@.models;
        let mut i: usize = 0;
        while i < self.models.len()
            invariant
                0 <= i <= self.models.len(),
                mv == models_view(self.models@),
                id@ == identifier@,
                model_pos_from(mv, identifier@, 0) == model_pos_from(mv, identifier@, i as int),
            decreases self.models.len() - i,
        {
            let same = String::from_str(self.models[i].get_identifier()) == id;
            if same {
                return Some(i);
            }
            i += 1;
        }
        None
    }

    /// A write to the route at `path`: merges `value` into the `POST` model of
    /// the path and, when that succeeds, into its `GET` model too, so that
    /// reads see the write. Fails, changing nothing, when the path has neither
    /// model; otherwise returns whether the `POST` model took the write.
    pub fn post_update(&mut self, path: &str, value: JsonValue) -> (r: Result<bool, String>)
        ensures
            match store_posted(old(self)@, path@, value@) {
                None => r is Err && final(self)@ == old(self)@,
                Some(d) => r matches Ok(b) && final(self)@ == d && b == (store_updated(
                    old(self)@,
                    canonical_key("POST"@, path@),
                    value@,
                ) is Some),
            },
    {
        let get_id = route_key("GET", path);
        let post_id = route_key("POST", path);
        if self.find_model(get_id.as_str()).is_none() && self.find_model(post_id.as_str()).is_none() {
            return Err(String::from_str("Model not found"));
        }
        let copy = value.duplicate();
        match self.update_model_data(post_id.as_str(), value) {
            Ok(()) => {
                let _ = self.update_model_data(get_id.as_str(), copy);
                Ok(true)
            },
            Err(_) => Ok(false),
        }
    }

    /// Merges `value` into the data of the first model with identifier
    /// `identifier` (see `Model::update_data`); fails, changing nothing, when
    /// there is no such model or its body is plain text.
    pub fn update_model_data(&mut self, identifier: &str, value: JsonValue) -> (r: Result<(), String>)
        ensures
            match store_updated(old(self)@, identifier@, value@) {
                Some(d) => r is Ok && final(self)@ == d,
                None => r matches Err(e) && final(self)@ == old(self)@ && e@ == if model_pos_from(
                    old(self)@.models,
                    identifier@,
                    0,
                ) < 0 {
                    "Model "@ + identifier@ + " not found"@
                } else {
                    text_merge_error()
                },
            },
    {
        match self.find_model(identifier) {
            Some(p) => {
                let ghost mv = self@.models;
                let mut m = self.models.remove(p);
                let r = m.update_data(value);
                self.models.insert(p, m);
                proof {
                    assert(models_view(self.models@) =~= mv.update(p as int, models_view(self.models@)[p as int]));
                    if r is Err {
                        assert(models_view(self.models@) =~= mv);
                    }
                }
                r
            },
            None => {
                let mut msg = String::from_str("Model ");
                msg.append(identifier);
                msg.append(" not found");
                proof {
                    assert(msg@ =~= "Model "@ + identifier@ + " not found"@);
                }
                Err(msg)
            },
        }
    }
}

} // verus!
