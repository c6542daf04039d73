use vstd::prelude::*;
use vstd::string::{StrSliceExecFns, StringExecFns};

use crate::config::{
    keys_unique, opt_view, route_pos_from, routes_view, Config, ConfigResponse, ConfigRoute, ConfigView,
    ResponseSource, RouteView,
};
use crate::database::{canonical_key, find_route, lemma_put_route_unique, put_route, route_key};
use crate::errors::FileSystemError;
use crate::filesystem::{first_true, first_true_from, join_path, joined, marker_names, PathUtils};
use crate::writer::config_json;
use crate::json::{decoded_json, json_text, lemma_object_view, Json, JsonValue};
use crate::loader::{config_from_json, read_config, read_response, response_of};
use crate::text::{char_pos_from, find_char, lemma_char_pos_bounds, trim, trimmed, upper_of, uppercase};

verus! {

// ---------------------------------------------------------------------------
// Route keys
// ---------------------------------------------------------------------------

/// A route key split into the method in brackets, if any, and the path. The
/// method is trimmed and uppercased, the path trimmed; a key without a leading
/// `[` or without a `]` is all path.
pub open spec fn split_key(k: Seq<char>) -> (Option<Seq<char>>, Seq<char>) {
    let p = char_pos_from(k, ']', 0);
    if k.len() > 0 && k[0] == '[' && p >= 0 {
        (Some(upper_of(trimmed(k.subrange(1, p)))), trimmed(k.subrange(p + 1, k.len() as int)))
    } else {
        (None, k)
    }
}

/// The method that a route under key `k` answers: its own when it names one,
/// else the one in the key's brackets, else `GET`.
pub open spec fn effective_method(k: Seq<char>, route: RouteView) -> Seq<char> {
    match route.method {
        Some(m) => m,
        None => match split_key(k).0 {
            Some(m) => m,
            None => "GET"@,
        },
    }
}

/// A route under key `k` with its key in canonical form and its method set.
pub open spec fn normalized_route(k: Seq<char>, route: RouteView) -> (Seq<char>, RouteView) {
    let m = effective_method(k, route);
    (canonical_key(m, split_key(k).1), RouteView { method: Some(m), ..route })
}

/// The routes with their keys in canonical form; when two keys become one,
/// the later route wins.
pub open spec fn normalized_routes(r: Seq<(Seq<char>, RouteView)>) -> Seq<(Seq<char>, RouteView)>
    decreases r.len(),
{
    if r.len() == 0 {
        r
    } else {
        let n = normalized_route(r.last().0, r.last().1);
        put_route(normalized_routes(r.drop_last()), n.0, n.1)
    }
}

/// The path of a route key: what follows the first `]`, trimmed, or the
/// whole key when it has none.
pub open spec fn path_of_key(k: Seq<char>) -> Seq<char> {
    let p = char_pos_from(k, ']', 0);
    if p >= 0 {
        trimmed(k.subrange(p + 1, k.len() as int))
    } else {
        k
    }
}

/// The path of a route key.
pub fn extract_path(pattern: &str) -> (r: String)
    ensures
        r@ == path_of_key(pattern@),
{
    let n = pattern.unicode_len();
    match find_char(pattern, ']') {
        Some(end) => {
            proof {
                lemma_char_pos_bounds(pattern@, ']', 0);
            }
            trim(pattern.substring_char(end + 1, n))
        },
        None => String::from_str(pattern),
    }
}

/// Splits a route key into the method in brackets, if any, and the path.
pub fn split_route_key(key: &str) -> (r: (Option<String>, String))
    ensures
        opt_view(r.0) == split_key(key@).0,
        r.1@ == split_key(key@).1,
{
    let n = key.unicode_len();
    if n > 0 && key.get_char(0) == '[' {
        match find_char(key, ']') {
            Some(p) => {
                proof {
                    lemma_char_pos_bounds(key@, ']', 0);
                }
                let inner = trim(key.substring_char(1, p));
                let method = uppercase(inner.as_str());
                let path = trim(key.substring_char(p + 1, n));
                (Some(method), path)
            },
            None => (None, String::from_str(key)),
        }
    } else {
        (None, String::from_str(key))
    }
}

/// The route with its key in canonical form `[METHOD] path` and its method set.
pub fn normalize_route(key: &String, route: ConfigRoute) -> (r: (String, ConfigRoute))
    ensures
        (r.0@, r.1@) == normalized_route(key@, route@),
{
    let (bracketed, path) = split_route_key(key.as_str());
    let method = match &route.method {
        Some(m) => m.clone(),
        None => match bracketed {
            Some(m) => m,
            None => String::from_str("GET"),
        },
    };
    let k = route_key(method.as_str(), path.as_str());
    let mut route = route;
    route.method = Some(method);
    (k, route)
}

/// Routes with their keys in canonical form.
pub fn normalize_routes(routes: Vec<(String, ConfigRoute)>) -> (r: Vec<(String, ConfigRoute)>)
    ensures
        routes_view(r@) == normalized_routes(routes_view(routes@)),
{
    let ghost input = routes_view(routes@);
    let mut table: Vec<(String, ConfigRoute)> = Vec::new();
    let mut i: usize = 0;
    proof {
        assert(input.subrange(0, 0) =~= Seq::empty());
        assert(routes_view(table@) =~= Seq::empty());
    }
    while i < routes.len()
        invariant
            0 <= i <= routes.len(),
            input == routes_view(routes@),
            routes_view(table@) == normalized_routes(input.subrange(0, i as int)),
        decreases routes.len() - i,
    {
        let (key, route) = normalize_route(&routes[i].0, routes[i].1.duplicate());
        let ghost tv = routes_view(table@);
        let ghost kv = (key@, route@);
        match find_route(&table, &key) {
            Some(p) => {
                table.remove(p);
                table.insert(p, (key, route));
                proof {
                    assert(routes_view(table@) =~= tv.update(p as int, kv));
                }
            },
            None => {
                table.push((key, route));
                proof {
                    assert(routes_view(table@) =~= tv.push(kv));
                }
            },
        }
        proof {
            assert(input.subrange(0, i + 1).drop_last() =~= input.subrange(0, i as int));
        }
        i += 1;
    }
    proof {
        assert(input.subrange(0, routes.len() as int) =~= input);
    }
    table
}

// ---------------------------------------------------------------------------
// Loading
// ---------------------------------------------------------------------------

/// Why a load failed.
pub enum LoadFailure {
    /// The document is not JSON, or not of the configuration's shape.
    Decode,
    /// The route (key, then file name) names a response file that was not supplied.
    Missing(Seq<char>, Seq<char>),
    /// The response file of the route (key, then file name) is not JSON, or
    /// not a structured response.
    Invalid(Seq<char>, Seq<char>),
    /// The document has no routes.
    Empty,
}

pub open spec fn files_view(f: Seq<(String, Vec<u8>)>) -> Seq<(Seq<char>, Seq<u8>)> {
    Seq::new(f.len(), |i: int| (f[i].0@, f[i].1@))
}

/// Position of the first file named `name` at or after `i`, or -1.
pub open spec fn file_pos_from(files: Seq<(Seq<char>, Seq<u8>)>, name: Seq<char>, i: int) -> int
    decreases files.len() - i,
{
    if i < 0 || i >= files.len() {
        -1
    } else if files[i].0 == name {
        i
    } else {
        file_pos_from(files, name, i + 1)
    }
}

/// A route with its response file, if it names one, read into a structured response.
pub open spec fn resolved_route(key: Seq<char>, r: RouteView, files: Seq<(Seq<char>, Seq<u8>)>) -> Result<RouteView, LoadFailure> {
    match r.response {
        ResponseSource::Inline(_) => Ok(r),
        ResponseSource::File(f) => {
            let p = file_pos_from(files, f, 0);
            if p < 0 {
                Err(LoadFailure::Missing(key, f))
            } else {
                match decoded_json(files[p].1) {
                    Some(Json::Object(o)) => match response_of(o) {
                        Some(resp) => Ok(RouteView { response: ResponseSource::Inline(resp), ..r }),
                        None => Err(LoadFailure::Invalid(key, f)),
                    },
                    _ => Err(LoadFailure::Invalid(key, f)),
                }
            }
        },
    }
}

/// All routes resolved, or the failure of the first one that fails.
pub open spec fn resolved_routes(rs: Seq<(Seq<char>, RouteView)>, files: Seq<(Seq<char>, Seq<u8>)>) -> Result<
    Seq<(Seq<char>, RouteView)>,
    LoadFailure,
>
    decreases rs.len(),
{
    if rs.len() == 0 {
        Ok(rs)
    } else {
        match resolved_routes(rs.drop_last(), files) {
            Err(e) => Err(e),
            Ok(done) => match resolved_route(rs.last().0, rs.last().1, files) {
                Ok(r) => Ok(done.push((rs.last().0, r))),
                Err(e) => Err(e),
            },
        }
    }
}

/// The document that a load installs, given the document's text and the
/// response files by name.
pub open spec fn loaded_config(content: Seq<u8>, files: Seq<(Seq<char>, Seq<u8>)>) -> Result<ConfigView, LoadFailure> {
    match decoded_json(content) {
        None => Err(LoadFailure::Decode),
        Some(j) => match config_from_json(j) {
            None => Err(LoadFailure::Decode),
            Some(c) => match resolved_routes(normalized_routes(c.routes), files) {
                Err(e) => Err(e),
                Ok(rs) => if rs.len() == 0 {
                    Err(LoadFailure::Empty)
                } else {
                    Ok(ConfigView { routes: rs, ..c })
                },
            },
        },
    }
}

/// Does the error `e` report the failure `f` of loading the document at `path`?
pub open spec fn reports(e: FileSystemError, f: LoadFailure, path: Seq<char>) -> bool {
    match f {
        LoadFailure::Decode => e matches FileSystemError::Utf8Decode { path: p, .. } && p@ == path,
        LoadFailure::Missing(key, name) => e matches FileSystemError::Io { path: p, message: m } && p@
            == name && m@ == "no response file was supplied for route "@ + key,
        LoadFailure::Invalid(key, name) => e matches FileSystemError::Utf8Decode { path: p, message: m }
            && p@ == name && m@ == "the response file does not hold a response, for route "@ + key,
        LoadFailure::Empty => e matches FileSystemError::Validation { path: p, .. } && p@ == path,
    }
}

/// Where the project lives: the directory that file names are relative to.
#[derive(Debug)]
pub struct FileSystemManager {
    pub root: String,
}

impl FileSystemManager {
    /// A manager rooted at `root`.
    pub fn new(root: String) -> (r: Self)
        ensures
            r.root@ == root@,
    {
        FileSystemManager { root }
    }
}

/// Holds the configuration document in force.
#[derive(Debug)]
pub struct ConfigManager {
    pub file_system_manager: FileSystemManager,
    pub config: Config,
}

impl ConfigManager {
    /// A manager with the default document.
    pub fn new(file_system_manager: FileSystemManager) -> (r: Self)
        ensures
            r.file_system_manager.root@ == file_system_manager.root@,
            r.config@.port == Some(3001u16),
            r.config@.hostname == Some("localhost"@),
            r.config@.static_folder is None,
            r.config@.static_route == "/static"@,
            r.config@.routes.len() == 0,
    {
        ConfigManager { file_system_manager, config: Config::default() }
    }

    /// The directory that file names are relative to.
    pub fn get_root(&self) -> (r: &str)
        ensures
            r@ == self.file_system_manager.root@,
    {
        self.file_system_manager.root.as_str()
    }

    /// The JSON text of `config`, to be saved.
    pub fn save_config(&self, config: &Config) -> (r: String)
        ensures
            r@ == json_text(config_json(config@)),
    {
        config.to_text()
    }

    /// The path of the configuration file in the root: the first marker file,
    /// in order of preference, that `present` says exists there.
    pub fn get_config_file_path(&self, present: &Vec<bool>) -> (r: Option<String>)
        requires
            present.len() == 3,
        ensures
            ({
                let p = first_true_from(present@, 0);
                match r {
                    Some(path) => p >= 0 && path@ == joined(self.file_system_manager.root@, marker_names()[p]),
                    None => p == -1,
                }
            }),
    {
        let names = PathUtils::marker_files();
        match first_true(present) {
            Some(p) => Some(join_path(self.file_system_manager.root.as_str(), names[p].as_str())),
            None => None,
        }
    }

    /// Reads a document: decodes the JSON text, reads the configuration's
    /// shape, and puts every route key in canonical form. Response files are
    /// not read.
    pub fn parse_config(relative_file_path: &str, content: &[u8]) -> (r: Result<Config, FileSystemError>)
        ensures
            match decoded_json(content@) {
                Some(j) => match config_from_json(j) {
                    Some(c) => r matches Ok(x) && x@ == (ConfigView { routes: normalized_routes(c.routes), ..c }),
                    None => r matches Err(e) && reports(e, LoadFailure::Decode, relative_file_path@),
                },
                None => r matches Err(e) && reports(e, LoadFailure::Decode, relative_file_path@),
            },
    {
        let doc = match JsonValue::parse(content) {
            Ok(d) => d,
            Err(message) => {
                return Err(FileSystemError::Utf8Decode { path: String::from_str(relative_file_path), message });
            },
        };
        let config = match read_config(&doc) {
            Ok(c) => c,
            Err(message) => {
                return Err(FileSystemError::Utf8Decode { path: String::from_str(relative_file_path), message });
            },
        };
        let routes = normalize_routes(config.routes);
        Ok(Config { routes, ..config })
    }

    /// Loads the document at `relative_file_path`, whose text is `content`,
    /// with `files` holding the text of each response file by name. On
    /// success the document, with every response file read in, is installed;
    /// on failure nothing changes.
    pub fn load_config(&mut self, relative_file_path: &str, content: &[u8], files: &Vec<(String, Vec<u8>)>) -> (r: Result<(), FileSystemError>)
        ensures
            final(self).file_system_manager.root@ == old(self).file_system_manager.root@,
            match loaded_config(content@, files_view(files@)) {
                Ok(c) => r is Ok && final(self).config@ == c && keys_unique(c.routes),
                Err(f) => r matches Err(e) && reports(e, f, relative_file_path@) && final(self).config@ == old(self).config@,
            },
    {
        let config = Self::parse_config(relative_file_path, content)?;
        let routes = resolve_routes(&config.routes, files, relative_file_path)?;
        if routes.len() == 0 {
            return Err(FileSystemError::Validation {
                path: String::from_str(relative_file_path),
                reason: String::from_str("Configuration routes are empty or invalid"),
            });
        }
        proof {
            lemma_resolved_keys(config@.routes, files_view(files@));
            let out = routes_view(routes@);
            let rs = config@.routes;
            assert(rs == normalized_routes(config_from_json(decoded_json(content@)->0)->0.routes));
            lemma_normalized_unique(config_from_json(decoded_json(content@)->0)->0.routes);
            assert forall|i: int, j: int| 0 <= i < j < out.len() implies out[i].0 != out[j].0 by {
                assert(out[i].0 == rs[i].0);
                assert(out[j].0 == rs[j].0);
            }
        }
        self.config = Config { routes, ..config };
        Ok(())
    }
}

/// The response files that the routes name, in route order.
pub open spec fn file_refs(rs: Seq<(Seq<char>, RouteView)>) -> Seq<Seq<char>>
    decreases rs.len(),
{
    if rs.len() == 0 {
        Seq::empty()
    } else {
        match rs.last().1.response {
            ResponseSource::File(f) => file_refs(rs.drop_last()).push(f),
            ResponseSource::Inline(_) => file_refs(rs.drop_last()),
        }
    }
}

impl Config {
    /// The response files that the routes name, in route order.
    pub fn external_files(&self) -> (r: Vec<String>)
        ensures
            Seq::new(r@.len(), |i: int| r@[i]@) == file_refs(self@.routes),
    {
        let ghost rv = self@.routes;
        let mut out: Vec<String> = Vec::new();
        let mut i: usize = 0;
        proof {
            assert(rv.subrange(0, 0) =~= Seq::empty());
            assert(Seq::new(out@.len(), |j: int| out@[j]@) =~= Seq::<Seq<char>>::empty());
        }
        while i < self.routes.len()
            invariant
                0 <= i <= self.routes.len(),
                rv == routes_view(self.routes@),
                Seq::new(out@.len(), |j: int| out@[j]@) == file_refs(rv.subrange(0, i as int)),
            decreases self.routes.len() - i,
        {
            proof {
                assert(rv.subrange(0, i + 1).drop_last() =~= rv.subrange(0, i as int));
            }
            match &self.routes[i].1.response {
                ConfigResponse::File(f) => {
                    let ghost before = Seq::new(out@.len(), |j: int| out@[j]@);
                    out.push(f.clone());
                    proof {
                        assert(Seq::new(out@.len(), |j: int| out@[j]@) =~= before.push(f@));
                    }
                },
                ConfigResponse::ConfigRouteResponse(_) => {},
            }
            i += 1;
        }
        proof {
            assert(rv.subrange(0, self.routes.len() as int) =~= rv);
        }
        out
    }
}

/// Position of the file named `name`.
fn file_position(files: &Vec<(String, Vec<u8>)>, name: &String) -> (p: Option<usize>)
    ensures
        match p {
            Some(i) => i < files.len() && file_pos_from(files_view(files@), name@, 0) == i,
            None => file_pos_from(files_view(files@), name@, 0) == -1,
        },
{
    let ghost fv = files_view(files@);
    let mut i: usize = 0;
    while i < files.len()
        invariant
            0 <= i <= files.len(),
            fv == files_view(files@),
            file_pos_from(fv, name@, 0) == file_pos_from(fv, name@, i as int),
        decreases files.len() - i,
    {
        if files[i].0 == *name {
            return Some(i);
        }
        i += 1;
    }
    None
}

/// The route with its response file, if it names one, read in.
fn resolve_route(key: &String, route: &ConfigRoute, files: &Vec<(String, Vec<u8>)>, path: &str) -> (r: Result<ConfigRoute, FileSystemError>)
    ensures
        match resolved_route(key@, route@, files_view(files@)) {
            Ok(v) => r matches Ok(x) && x@ == v,
            Err(f) => r matches Err(e) && reports(e, f, path@),
        },
{
    match &route.response {
        ConfigResponse::ConfigRouteResponse(_) => Ok(route.duplicate()),
        ConfigResponse::File(name) => match file_position(files, name) {
            None => {
                let mut message = String::from_str("no response file was supplied for route ");
                message.append(key.as_str());
                Err(FileSystemError::Io { path: name.clone(), message })
            },
            Some(p) => {
                let mut message = String::from_str("the response file does not hold a response, for route ");
                message.append(key.as_str());
                let doc = match JsonValue::parse(files[p].1.as_slice()) {
                    Ok(d) => d,
                    Err(_) => {
                        return Err(FileSystemError::Utf8Decode { path: name.clone(), message });
                    },
                };
                match &doc {
                    JsonValue::Object(o) => {
                        proof {
                            lemma_object_view(*o);
                        }
                        match read_response(o) {
                            Ok(resp) => {
                                let mut out = route.duplicate();
                                out.response = ConfigResponse::ConfigRouteResponse(resp);
                                Ok(out)
                            },
                            Err(_) => Err(FileSystemError::Utf8Decode { path: name.clone(), message }),
                        }
                    },
                    _ => Err(FileSystemError::Utf8Decode { path: name.clone(), message }),
                }
            },
        },
    }
}

/// Every route with its response file read in, or the error of the first
/// route that fails.
fn resolve_routes(routes: &Vec<(String, ConfigRoute)>, files: &Vec<(String, Vec<u8>)>, path: &str) -> (r: Result<Vec<(String, ConfigRoute)>, FileSystemError>)
    ensures
        match resolved_routes(routes_view(routes@), files_view(files@)) {
            Ok(v) => r matches Ok(x) && routes_view(x@) == v,
            Err(f) => r matches Err(e) && reports(e, f, path@),
        },
{
    let ghost rv = routes_view(routes@);
    let ghost fv = files_view(files@);
    let mut out: Vec<(String, ConfigRoute)> = Vec::new();
    let mut i: usize = 0;
    proof {
        assert(rv.subrange(0, 0) =~= Seq::empty());
        assert(routes_view(out@) =~= Seq::empty());
    }
    while i < routes.len()
        invariant
            0 <= i <= routes.len(),
            rv == routes_view(routes@),
            fv == files_view(files@),
            resolved_routes(rv.subrange(0, i as int), fv) == Ok::<_, LoadFailure>(routes_view(out@)),
        decreases routes.len() - i,
    {
        proof {
            assert(rv.subrange(0, i + 1).drop_last() =~= rv.subrange(0, i as int));
        }
        match resolve_route(&routes[i].0, &routes[i].1, files, path) {
            Ok(route) => {
                let ghost before = routes_view(out@);
                out.push((routes[i].0.clone(), route));
                proof {
                    assert(routes_view(out@) =~= before.push((rv[i as int].0, route@)));
                }
            },
            Err(e) => {
                proof {
                    lemma_resolution_fails(rv, fv, i as int + 1);
                }
                return Err(e);
            },
        }
        i += 1;
    }
    proof {
        assert(rv.subrange(0, routes.len() as int) =~= rv);
    }
    Ok(out)
}

/// The failure of a prefix is the failure of the whole list.
pub proof fn lemma_resolution_fails(rs: Seq<(Seq<char>, RouteView)>, files: Seq<(Seq<char>, Seq<u8>)>, i: int)
    requires
        0 <= i <= rs.len(),
        resolved_routes(rs.subrange(0, i), files) is Err,
    ensures
        resolved_routes(rs, files) == resolved_routes(rs.subrange(0, i), files),
    decreases rs.len() - i,
{
    if i < rs.len() {
        assert(rs.subrange(0, i + 1).drop_last() =~= rs.subrange(0, i));
        lemma_resolution_fails(rs, files, i + 1);
    } else {
        assert(rs.subrange(0, i) =~= rs);
    }
}

/// Normalized routes hold each key once.
pub proof fn lemma_normalized_unique(r: Seq<(Seq<char>, RouteView)>)
    ensures
        keys_unique(normalized_routes(r)),
    decreases r.len(),
{
    if r.len() > 0 {
        lemma_normalized_unique(r.drop_last());
        let n = normalized_route(r.last().0, r.last().1);
        lemma_put_route_unique(normalized_routes(r.drop_last()), n.0, n.1);
    }
}

/// Resolution keeps the keys, in order.
pub proof fn lemma_resolved_keys(rs: Seq<(Seq<char>, RouteView)>, files: Seq<(Seq<char>, Seq<u8>)>)
    ensures
        resolved_routes(rs, files) matches Ok(out) ==> out.len() == rs.len() && forall|i: int|
            0 <= i < rs.len() ==> #[trigger] out[i].0 == rs[i].0,
    decreases rs.len(),
{
    if rs.len() > 0 {
        lemma_resolved_keys(rs.drop_last(), files);
    }
}

} // verus!
