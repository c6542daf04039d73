use vstd::prelude::*;
use vstd::string::StringExecFns;

use crate::config::{opt_view, BodyResponse, BodyView, ConfigRouteResponse, copy_opt};
use crate::json::{
    entries_view, field_of, find_key, items_view, json_text, lemma_array_view, lemma_object_view,
    merge_value, merged, set_field, Json, JsonValue,
};
use crate::text::{contains_text, occurs_in, strip_colons, without_colons};

verus! {

/// The live data of one route: its identity, its settings, and a body that
/// updates change in place.
#[derive(Debug)]
pub struct Model {
    identifier: String,
    id_field: String,
    results_field: Option<String>,
    description: Option<String>,
    data: ConfigRouteResponse,
}

/// Model of a `Model`.
pub struct ModelView {
    pub identifier: Seq<char>,
    pub id_field: Seq<char>,
    pub results_field: Option<Seq<char>>,
    pub description: Option<Seq<char>>,
    pub status: Option<u16>,
    pub body: BodyView,
}

impl View for Model {
    type V = ModelView;

    closed spec fn view(&self) -> ModelView {
        ModelView {
            identifier: self.identifier@,
            id_field: self.id_field@,
            results_field: opt_view(self.results_field),
            description: opt_view(self.description),
            status: self.data.status,
            body: self.data.body@,
        }
    }
}

// ---------------------------------------------------------------------------
// Reading and updating the body
// ---------------------------------------------------------------------------

/// What a read of the data returns: the value under the results field when the
/// body is an object that has it, the whole body otherwise.
pub open spec fn projection(body: BodyView, results_field: Option<Seq<char>>) -> BodyView {
    match (results_field, body) {
        (Some(f), BodyView::Value(Json::Object(e))) => match field_of(e, f) {
            Some(v) => BodyView::Value(v),
            None => body,
        },
        _ => body,
    }
}

/// The JSON body after merging `new` into it: into the value under the results
/// field when the body is an object (the field is created when absent), into
/// the whole body otherwise.
pub open spec fn updated_value(
    b: Json,
    results_field: Option<Seq<char>>,
    id_field: Seq<char>,
    new: Json,
) -> Json {
    match (results_field, b) {
        (Some(f), Json::Object(e)) => Json::Object(
            set_field(
                e,
                f,
                match field_of(e, f) {
                    Some(t) => merged(t, new, id_field),
                    None => new,
                },
            ),
        ),
        _ => merged(b, new, id_field),
    }
}

/// The error of an update of a plain-text body.
pub open spec fn text_merge_error() -> Seq<char> {
    "Cannot merge data with string-based responses"@
}

/// The body after an update, or `None` when the body is plain text, which
/// cannot be merged into.
pub open spec fn updated_body(
    body: BodyView,
    results_field: Option<Seq<char>>,
    id_field: Seq<char>,
    new: Json,
) -> Option<BodyView> {
    match body {
        BodyView::Str(_) => None,
        BodyView::Value(b) => Some(BodyView::Value(updated_value(b, results_field, id_field, new))),
    }
}

// ---------------------------------------------------------------------------
// Searching the data
// ---------------------------------------------------------------------------

/// Does the field value `val`, found under the criterion key `key`, satisfy the
/// criterion `expected`? Under a key that mentions the identifier field, the
/// JSON text of the value may equal `expected`; under any key, the value may be
/// the JSON string `expected`.
pub open spec fn criterion_hit(key: Seq<char>, expected: Seq<char>, id_field: Seq<char>, val: Json) -> bool {
    (occurs_in(id_field, key) && json_text(val) == expected) || val == Json::Str(expected)
}

/// Does the criterion `c` hit a field of the object `e`?
pub open spec fn entry_hit(e: Seq<(Seq<char>, Json)>, c: (Seq<char>, Seq<char>), id_field: Seq<char>) -> bool {
    match field_of(e, without_colons(c.0)) {
        Some(v) => criterion_hit(c.0, c.1, id_field, v),
        None => false,
    }
}

/// Position of the first criterion at or after `i` that hits the object `e`, or -1.
pub open spec fn hit_pos_from(
    e: Seq<(Seq<char>, Json)>,
    crit: Seq<(Seq<char>, Seq<char>)>,
    id_field: Seq<char>,
    i: int,
) -> int
    decreases crit.len() - i,
{
    if i < 0 || i >= crit.len() {
        -1
    } else if entry_hit(e, crit[i], id_field) {
        i
    } else {
        hit_pos_from(e, crit, id_field, i + 1)
    }
}

/// Does some criterion hit the element `elem`, an object?
pub open spec fn element_hit(elem: Json, crit: Seq<(Seq<char>, Seq<char>)>, id_field: Seq<char>) -> bool {
    match elem {
        Json::Object(e) => hit_pos_from(e, crit, id_field, 0) >= 0,
        _ => false,
    }
}

/// Position of the first element at or after `i` that some criterion hits, or -1.
pub open spec fn element_pos_from(
    items: Seq<Json>,
    crit: Seq<(Seq<char>, Seq<char>)>,
    id_field: Seq<char>,
    i: int,
) -> int
    decreases items.len() - i,
{
    if i < 0 || i >= items.len() {
        -1
    } else if element_hit(items[i], crit, id_field) {
        i
    } else {
        element_pos_from(items, crit, id_field, i + 1)
    }
}

/// The entry that a search by criteria finds in `data`: in an object, the
/// field that the first hitting criterion names; in an array, the first
/// object element that some criterion hits.
pub open spec fn found_entry(data: BodyView, crit: Seq<(Seq<char>, Seq<char>)>, id_field: Seq<char>) -> Option<Json> {
    match data {
        BodyView::Value(Json::Object(e)) => {
            let c = hit_pos_from(e, crit, id_field, 0);
            if c >= 0 {
                field_of(e, without_colons(crit[c].0))
            } else {
                None
            }
        },
        BodyView::Value(Json::Array(items)) => {
            let p = element_pos_from(items, crit, id_field, 0);
            if p >= 0 {
                Some(items[p])
            } else {
                None
            }
        },
        _ => None,
    }
}

pub open spec fn criteria_view(c: Seq<(String, String)>) -> Seq<(Seq<char>, Seq<char>)> {
    Seq::new(c.len(), |i: int| (c[i].0@, c[i].1@))
}

/// Does the field value `value`, whose JSON text is `value_text`, satisfy the
/// criterion `key` = `expected`?
pub fn criterion_matches(
    key: &String,
    expected: &String,
    id_field: &String,
    value: &JsonValue,
    value_text: &String,
) -> (r: bool)
    ensures
        r == ((occurs_in(id_field@, key@) && value_text@ == expected@) || value@ == Json::Str(
            expected@,
        )),
{
    if contains_text(key.as_str(), id_field.as_str()) && *value_text == *expected {
        return true;
    }
    match value {
        JsonValue::Str(s) => *s == *expected,
        _ => false,
    }
}

/// Does `crit` hit a field of the object `e`? Returns the position of that field.
fn hit_field(e: &Vec<(String, JsonValue)>, key: &String, expected: &String, id_field: &String) -> (r: Option<usize>)
    ensures
        match r {
            Some(p) => p < e.len() && entry_hit(entries_view(e@), (key@, expected@), id_field@)
                && field_of(entries_view(e@), without_colons(key@)) == Some(e@[p as int].1@),
            None => !entry_hit(entries_view(e@), (key@, expected@), id_field@),
        },
{
    let name = strip_colons(key.as_str());
    match find_key(e, &name) {
        Some(p) => {
            let val = &e[p].1;
            let text = val.to_text();
            if criterion_matches(key, expected, id_field, val, &text) {
                Some(p)
            } else {
                None
            }
        },
        None => None,
    }
}

/// Position of the first criterion that hits the object `e`.
fn first_hit(e: &Vec<(String, JsonValue)>, crit: &Vec<(String, String)>, id_field: &String) -> (r: Option<(usize, usize)>)
    ensures
        match r {
            Some((c, p)) => c < crit.len() && p < e.len() && hit_pos_from(entries_view(e@), criteria_view(crit@), id_field@, 0) == c
                && field_of(entries_view(e@), without_colons(crit@[c as int].0@)) == Some(e@[p as int].1@),
            None => hit_pos_from(entries_view(e@), criteria_view(crit@), id_field@, 0) == -1,
        },
{
    let ghost ev = entries_view(e@);
    let ghost cv = criteria_view(crit@);
    let mut i: usize = 0;
    while i < crit.len()
        invariant
            0 <= i <= crit.len(),
            ev == entries_view(e@),
            cv == criteria_view(crit@),
            hit_pos_from(ev, cv, id_field@, 0) == hit_pos_from(ev, cv, id_field@, i as int),
        decreases crit.len() - i,
    {
        match hit_field(e, &crit[i].0, &crit[i].1, id_field) {
            Some(p) => {
                return Some((i, p));
            },
            None => {},
        }
        i += 1;
    }
    None
}

impl Model {
    /// A model with the given identity, settings and data.
    pub fn new(
        identifier: String,
        id_field: String,
        results_field: Option<String>,
        description: Option<String>,
        data: ConfigRouteResponse,
    ) -> (r: Self)
        ensures
            r@ == (ModelView {
                identifier: identifier@,
                id_field: id_field@,
                results_field: opt_view(results_field),
                description: opt_view(description),
                status: data.status,
                body: data.body@,
            }),
    {
        Model { identifier, id_field, results_field, description, data }
    }

    pub fn get_identifier(&self) -> (r: &str)
        ensures
            r@ == self@.identifier,
    {
        self.identifier.as_str()
    }

    pub fn get_description(&self) -> (r: Option<&String>)
        ensures
            match r {
                Some(d) => self@.description == Some(d@),
                None => self@.description is None,
            },
    {
        self.description.as_ref()
    }

    pub fn get_status(&self) -> (r: Option<u16>)
        ensures
            r == self@.status,
    {
        self.data.status
    }

    pub fn get_id_field(&self) -> (r: &str)
        ensures
            r@ == self@.id_field,
    {
        self.id_field.as_str()
    }

    pub fn get_results_field(&self) -> (r: Option<&String>)
        ensures
            match r {
                Some(f) => self@.results_field == Some(f@),
                None => self@.results_field is None,
            },
    {
        self.results_field.as_ref()
    }

    /// The whole body, as stored.
    pub fn get_body(&self) -> (r: &BodyResponse)
        ensures
            r@ == self@.body,
    {
        &self.data.body
    }

    /// A copy of the model.
    pub fn duplicate(&self) -> (r: Model)
        ensures
            r@ == self@,
    {
        Model {
            identifier: self.identifier.clone(),
            id_field: self.id_field.clone(),
            results_field: copy_opt(&self.results_field),
            description: copy_opt(&self.description),
            data: self.data.duplicate(),
        }
    }

    /// The data that reads return: the value under the results field when the
    /// body is an object that has it, the whole body otherwise.
    pub fn get_data(&self) -> (r: BodyResponse)
        ensures
            r@ == projection(self@.body, self@.results_field),
    {
        match &self.results_field {
            Some(f) => match &self.data.body {
                BodyResponse::Value(b) => match b.get(f) {
                    Some(v) => BodyResponse::Value(v.duplicate()),
                    None => self.data.body.duplicate(),
                },
                BodyResponse::Str(_) => self.data.body.duplicate(),
            },
            None => self.data.body.duplicate(),
        }
    }

    /// What a read with the given path parameters returns: the entry that
    /// they find when there are some and they find one, the data otherwise.
    pub fn query(&self, criteria: &Vec<(String, String)>) -> (r: JsonValue)
        ensures
            ({
                let found = found_entry(projection(self@.body, self@.results_field), criteria_view(criteria@), self@.id_field);
                if criteria@.len() > 0 && found is Some {
                    r@ == found->0
                } else {
                    r@ == match projection(self@.body, self@.results_field) {
                        BodyView::Value(v) => v,
                        BodyView::Str(s) => Json::Str(s),
                    }
                }
            }),
    {
        if criteria.len() > 0 {
            match self.find_entry_by_hashmap(criteria) {
                Some(v) => {
                    return v;
                },
                None => {},
            }
        }
        self.get_data().as_value()
    }

    /// Merges `new_value` into the data; fails, changing nothing, when the body
    /// is plain text.
    pub fn update_data(&mut self, new_value: JsonValue) -> (r: Result<(), String>)
        ensures
            match updated_body(old(self)@.body, old(self)@.results_field, old(self)@.id_field, new_value@) {
                Some(b) => r is Ok && final(self)@ == (ModelView { body: b, ..old(self)@ }),
                None => r matches Err(e) && e@ == text_merge_error() && final(self)@ == old(self)@,
            },
    {
        let mut body = BodyResponse::Value(JsonValue::Null);
        core::mem::swap(&mut self.data.body, &mut body);
        match body {
            BodyResponse::Value(b) => {
                let nb = update_value(b, &self.results_field, &self.id_field, new_value);
                self.data.body = BodyResponse::Value(nb);
                Ok(())
            },
            BodyResponse::Str(s) => {
                self.data.body = BodyResponse::Str(s);
                let e = String::from_str("Cannot merge data with string-based responses");
                proof {
                    assert(e@ == text_merge_error());
                }
                Err(e)
            },
        }
    }

    /// Searches the data that reads return for an entry that one of the
    /// criteria (field name, expected text) hits. A `:` in a field name is
    /// ignored.
    pub fn find_entry_by_hashmap(&self, criteria: &Vec<(String, String)>) -> (r: Option<JsonValue>)
        ensures
            match r {
                Some(v) => found_entry(projection(self@.body, self@.results_field), criteria_view(criteria@), self@.id_field) == Some(v@),
                None => found_entry(projection(self@.body, self@.results_field), criteria_view(criteria@), self@.id_field) is None,
            },
    {
        let data = self.get_data();
        let ghost cv = criteria_view(criteria@);
        match &data {
            BodyResponse::Value(JsonValue::Object(e)) => {
                proof {
                    lemma_object_view(*e);
                }
                match first_hit(e, criteria, &self.id_field) {
                    Some((c, p)) => {
                        proof {
                            assert(cv[c as int].0 == criteria@[c as int].0@);
                        }
                        Some(e[p].1.duplicate())
                    },
                    None => None,
                }
            },
            BodyResponse::Value(JsonValue::Array(items)) => {
                proof {
                    lemma_array_view(*items);
                }
                let ghost iv = items_view(items@);
                let mut i: usize = 0;
                while i < items.len()
                    invariant
                        0 <= i <= items.len(),
                        iv == items_view(items@),
                        cv == criteria_view(criteria@),
                        data@ == projection(self@.body, self@.results_field),
                        data@ == BodyView::Value(Json::Array(iv)),
                        element_pos_from(iv, cv, self@.id_field, 0) == element_pos_from(iv, cv, self@.id_field, i as int),
                    decreases items.len() - i,
                {
                    match &items[i] {
                        JsonValue::Object(e) => {
                            proof {
                                lemma_object_view(*e);
                            }
                            match first_hit(e, criteria, &self.id_field) {
                                Some(_) => {
                                    proof {
                                        assert(iv[i as int] == items@[i as int]@);
                                        assert(element_hit(iv[i as int], cv, self@.id_field));
                                    }
                                    return Some(items[i].duplicate());
                                },
                                None => {},
                            }
                        },
                        _ => {},
                    }
                    i += 1;
                }
                None
            },
            _ => None,
        }
    }
}

/// Merges `new` into the JSON body `b` as an update addresses it.
fn update_value(b: JsonValue, results_field: &Option<String>, id_field: &String, new: JsonValue) -> (r: JsonValue)
    ensures
        r@ == updated_value(b@, opt_view(*results_field), id_field@, new@),
{
    match results_field {
        Some(f) => match b {
            JsonValue::Object(mut e) => {
                proof {
                    lemma_object_view(e);
                }
                let ghost ev = entries_view(e@);
                match find_key(&e, f) {
                    Some(p) => {
                        let (_, t) = e.remove(p);
                        let m = merge_value(t, new, id_field);
                        e.insert(p, (f.clone(), m));
                        proof {
                            assert(entries_view(e@) =~= set_field(ev, f@, merged(ev[p as int].1, new@, id_field@)));
                        }
                    },
                    None => {
                        let ghost nv = new@;
                        e.push((f.clone(), new));
                        proof {
                            assert(entries_view(e@) =~= set_field(ev, f@, nv));
                        }
                    },
                }
                proof {
                    lemma_object_view(e);
                }
                JsonValue::Object(e)
            },
            other => merge_value(other, new, id_field),
        },
        None => merge_value(b, new, id_field),
    }
}

} // verus!
