//! The endpoint table built from a document's `paths`.
use vstd::prelude::*;
use itertools::Itertools;
use crate::order::{lemma_sorts_stably_map, sorts_stably, stable_sort, stable_sort_of, strict_weak_order};
use crate::refs::{fetch_all_references, refs_in, strip_path_from_references};
use crate::text::{after_last, bytes_lt, bytes_of, lemma_bytes_order, lemma_texts_push, lemma_texts_take, str_eq, str_less, texts};
use crate::value::{find_key, lookup, lookup_entries, Entries, Value};

verus! {

/// Whether an endpoint is chosen for the output document.
#[derive(PartialEq, Eq, Structural, Clone, Copy, Debug)]
pub enum Status {
    Unselected,
    Selected,
}

impl Default for Status {
    fn default() -> (r: Status)
        ensures
            r == Status::Unselected,
    {
        Status::Unselected
    }
}

/// A document whose shape does not allow an endpoint table.
#[derive(PartialEq, Eq, Structural, Clone, Copy, Debug)]
pub enum StructuralError {
    /// There is no `paths` entry, or it is not a mapping.
    MissingPaths,
    /// A path key is not a string, or its value is not a mapping.
    InvalidPathItem,
    /// An operation key under a path is not a string.
    InvalidMethodKey,
}

/// One operation of a path: its verb and a one-line description.
pub struct Method {
    pub method: String,
    pub description: String,
}

/// One path of the document, with its operations and selection status.
pub struct Endpoint {
    pub methods: Vec<Method>,
    pub path: String,
    pub description: String,
    /// Names of the components that the operations point to directly.
    pub refs: Vec<String>,
    pub status: Status,
    /// Operation parameter names, prefixed by where they go (`/`, `?`, `body:`).
    pub parameters: Vec<String>,
}

/// The content of an endpoint, as characters.
pub struct EndpointView {
    pub methods: Seq<(Seq<char>, Seq<char>)>,
    pub path: Seq<char>,
    pub description: Seq<char>,
    pub refs: Seq<Seq<char>>,
    pub status: Status,
    pub parameters: Seq<Seq<char>>,
}

impl View for Method {
    type V = (Seq<char>, Seq<char>);

    open spec fn view(&self) -> (Seq<char>, Seq<char>) {
        (self.method@, self.description@)
    }
}

/// The content of each method of a list.
pub open spec fn method_views(v: Seq<Method>) -> Seq<(Seq<char>, Seq<char>)> {
    v.map_values(|m: Method| m@)
}

impl View for Endpoint {
    type V = EndpointView;

    open spec fn view(&self) -> EndpointView {
        EndpointView {
            methods: method_views(self.methods@),
            path: self.path@,
            description: self.description@,
            refs: texts(self.refs@),
            status: self.status,
            parameters: texts(self.parameters@),
        }
    }
}

/// The content of each endpoint of a list.
pub open spec fn endpoint_views(v: Seq<Endpoint>) -> Seq<EndpointView> {
    v.map_values(|e: Endpoint| e@)
}

impl Clone for Method {
    fn clone(&self) -> (r: Self)
        ensures
            r@ == self@,
    {
        Method { method: self.method.clone(), description: self.description.clone() }
    }
}

fn clone_strings(v: &Vec<String>) -> (r: Vec<String>)
    ensures
        texts(r@) == texts(v@),
{
    let mut out: Vec<String> = Vec::new();
    let mut i: usize = 0;
    while i < v.len()
        invariant
            0 <= i <= v@.len(),
            out@.len() == i,
            texts(out@) == texts(v@.take(i as int)),
        decreases v@.len() - i,
    {
        let ghost before = out@;
        out.push(v[i].clone());
        proof {
            lemma_texts_push(before, v@[i as int]);
            lemma_texts_take(v@, i as int);
        }
        i = i + 1;
    }
    assert(v@.take(i as int) =~= v@);
    out
}

impl Clone for Endpoint {
    fn clone(&self) -> (r: Self)
        ensures
            r@ == self@,
    {
        let mut methods: Vec<Method> = Vec::new();
        let mut i: usize = 0;
        while i < self.methods.len()
            invariant
                0 <= i <= self.methods@.len(),
                methods@.len() == i,
                method_views(methods@) == method_views(self.methods@.take(i as int)),
            decreases self.methods@.len() - i,
        {
            let ghost before = methods@;
            let m = self.methods[i].clone();
            methods.push(m);
            proof {
                assert(self.methods@.take(i + 1) =~= self.methods@.take(i as int).push(self.methods@[i as int]));
                assert(methods@ =~= before.push(m));
                assert(method_views(methods@) =~= method_views(before).push(m@));
                assert(method_views(self.methods@.take(i + 1)) =~= method_views(self.methods@.take(i as int)).push(self.methods@[i as int]@));
            }
            i = i + 1;
        }
        assert(self.methods@.take(i as int) =~= self.methods@);
        Endpoint {
            methods,
            path: self.path.clone(),
            description: self.description.clone(),
            refs: clone_strings(&self.refs),
            status: self.status,
            parameters: clone_strings(&self.parameters),
        }
    }
}

/// The characters of a string value; nothing for any other value.
pub open spec fn str_or_empty(v: Value) -> Seq<char> {
    match v {
        Value::Str(s) => s@,
        _ => Seq::empty(),
    }
}

/// The string stored under `key` in a mapping value, if any.
pub open spec fn text_entry(v: Value, key: Seq<char>) -> Option<Seq<char>> {
    match v {
        Value::Mapping(m) => match lookup(m@, key) {
            Some(Value::Str(s)) => Some(s@),
            _ => None,
        },
        _ => None,
    }
}

/// Whether a key of a path item names an operation rather than the path's own text.
pub open spec fn is_verb_key(k: Value) -> bool {
    !k.is_text("summary"@) && !k.is_text("description"@) && !k.is_text("parameters"@)
}

/// An operation's description: its non-empty summary, else its description, else a fixed text.
pub open spec fn method_description(op: Value) -> Seq<char> {
    match text_entry(op, "summary"@) {
        Some(s) if s.len() > 0 => s,
        _ => match text_entry(op, "description"@) {
            Some(d) => d,
            None => "No description"@,
        },
    }
}

/// The path's own description after its first `n` entries: a summary always sets it,
/// a description only while it is still empty.
pub open spec fn path_description(ops: Entries, n: int) -> Seq<char>
    decreases n,
{
    if 0 < n <= ops.len() {
        let prev = path_description(ops, n - 1);
        if ops[n - 1].0.is_text("summary"@) {
            str_or_empty(ops[n - 1].1)
        } else if ops[n - 1].0.is_text("description"@) && prev.len() == 0 {
            str_or_empty(ops[n - 1].1)
        } else {
            prev
        }
    } else {
        Seq::empty()
    }
}

/// The number of operation keys among the first `n` entries of a path item.
pub open spec fn verb_count(ops: Entries, n: int) -> nat
    decreases n,
{
    if 0 < n <= ops.len() {
        verb_count(ops, n - 1) + if is_verb_key(ops[n - 1].0) { 1nat } else { 0nat }
    } else {
        0
    }
}

/// The operations among the first `n` entries of a path item, as (verb, description).
pub open spec fn path_methods(ops: Entries, n: int) -> Seq<(Seq<char>, Seq<char>)>
    decreases n,
{
    if 0 < n <= ops.len() {
        let prev = path_methods(ops, n - 1);
        if is_verb_key(ops[n - 1].0) {
            prev.push((str_or_empty(ops[n - 1].0), method_description(ops[n - 1].1)))
        } else {
            prev
        }
    } else {
        Seq::empty()
    }
}

/// How a parameter's location is written in front of its name.
pub open spec fn location_prefix(loc: Option<Seq<char>>) -> Seq<char> {
    match loc {
        Some(l) => if l == "path"@ {
            "/"@
        } else if l == "body"@ {
            "body:"@
        } else if l == "query"@ {
            "?"@
        } else {
            Seq::empty()
        },
        None => Seq::empty(),
    }
}

/// The prefixed names of the named parameters among the first `n` items.
pub open spec fn parameter_names(items: Seq<Value>, n: int) -> Seq<Seq<char>>
    decreases n,
{
    if 0 < n <= items.len() {
        parameter_names(items, n - 1) + match text_entry(items[n - 1], "name"@) {
            Some(name) => seq![location_prefix(text_entry(items[n - 1], "in"@)) + name],
            None => Seq::empty(),
        }
    } else {
        Seq::empty()
    }
}

/// The prefixed parameter names of one operation.
pub open spec fn operation_parameters(op: Value) -> Seq<Seq<char>> {
    match op {
        Value::Mapping(m) => match lookup(m@, "parameters"@) {
            Some(Value::Sequence(items)) => parameter_names(items@, items@.len() as int),
            _ => Seq::empty(),
        },
        _ => Seq::empty(),
    }
}

/// The parameters of the operations among the first `n` entries.
pub open spec fn path_parameters(ops: Entries, n: int) -> Seq<Seq<char>>
    decreases n,
{
    if 0 < n <= ops.len() {
        path_parameters(ops, n - 1) + if is_verb_key(ops[n - 1].0) {
            operation_parameters(ops[n - 1].1)
        } else {
            Seq::empty()
        }
    } else {
        Seq::empty()
    }
}

/// The pointers inside the operations among the first `n` entries.
pub open spec fn path_refs(ops: Entries, n: int) -> Seq<Seq<char>>
    decreases n,
{
    if 0 < n <= ops.len() {
        path_refs(ops, n - 1) + if is_verb_key(ops[n - 1].0) {
            refs_in(ops[n - 1].1)
        } else {
            Seq::empty()
        }
    } else {
        Seq::empty()
    }
}

/// Each string at its first occurrence, in order.
pub open spec fn first_occurrences(s: Seq<Seq<char>>) -> Seq<Seq<char>>
    decreases s.len(),
{
    if s.len() == 0 {
        Seq::empty()
    } else if s.drop_last().contains(s.last()) {
        first_occurrences(s.drop_last())
    } else {
        first_occurrences(s.drop_last()).push(s.last())
    }
}

/// The endpoint that one entry of `paths` describes, unselected.
pub open spec fn endpoint_of(entry: (Value, Value)) -> EndpointView {
    let ops = entries_of(entry.1);
    EndpointView {
        methods: path_methods(ops, ops.len() as int),
        path: str_or_empty(entry.0),
        description: path_description(ops, ops.len() as int),
        refs: first_occurrences(path_refs(ops, ops.len() as int).map_values(|r: Seq<char>| after_last(r, '/'))),
        status: Status::Unselected,
        parameters: path_parameters(ops, ops.len() as int),
    }
}

/// The entries of a mapping value; none for any other value.
pub open spec fn entries_of(v: Value) -> Entries {
    match v {
        Value::Mapping(m) => m@,
        _ => Seq::empty(),
    }
}

/// Whether every key of a mapping is a string.
pub open spec fn all_string_keys(m: Entries) -> bool {
    forall|i: int| 0 <= i < m.len() ==> (#[trigger] m[i]).0 is Str
}

/// What is wrong with one entry of `paths`, if anything.
pub open spec fn entry_error(entry: (Value, Value)) -> Option<StructuralError> {
    if !(entry.0 is Str) || !(entry.1 is Mapping) {
        Some(StructuralError::InvalidPathItem)
    } else if !all_string_keys(entries_of(entry.1)) {
        Some(StructuralError::InvalidMethodKey)
    } else {
        None
    }
}

/// The first fault among the first `n` entries of `paths`.
pub open spec fn paths_error(pm: Entries, n: int) -> Option<StructuralError>
    decreases n,
{
    if 0 < n <= pm.len() {
        match paths_error(pm, n - 1) {
            Some(e) => Some(e),
            None => entry_error(pm[n - 1]),
        }
    } else {
        None
    }
}

/// Why a document has no endpoint table, if it has none.
pub open spec fn catalog_error(doc: Entries) -> Option<StructuralError> {
    match lookup_entries(doc, "paths"@) {
        Some(pm) => paths_error(pm, pm.len() as int),
        None => Some(StructuralError::MissingPaths),
    }
}

/// `a` comes before `b` by path, byte-wise.
pub open spec fn path_before(a: EndpointView, b: EndpointView) -> bool {
    bytes_lt(bytes_of(a.path), bytes_of(b.path))
}

/// The path order on endpoints.
pub open spec fn by_path() -> spec_fn(EndpointView, EndpointView) -> bool {
    |a: EndpointView, b: EndpointView| path_before(a, b)
}

/// The endpoints of a document's `paths`, one per entry, in document order.
pub open spec fn path_endpoints(doc: Entries) -> Seq<EndpointView> {
    let pm = match lookup_entries(doc, "paths"@) {
        Some(pm) => pm,
        None => Seq::empty(),
    };
    pm.map_values(|e: (Value, Value)| endpoint_of(e))
}

/// Relies on itertools' `unique`: keeps the first occurrence of each string, in order.
#[verifier::external_body]
fn unique_strings(v: Vec<String>) -> (r: Vec<String>)
    ensures
        texts(r@) == first_occurrences(texts(v@)),
{
    v.into_iter().unique().collect()
}

/// The string stored under `key` in a mapping value, if any.
fn text_entry_of<'a>(v: &'a Value, key: &str) -> (r: Option<&'a String>)
    ensures
        match r {
            Some(s) => text_entry(*v, key@) == Some(s@),
            None => text_entry(*v, key@) is None,
        },
{
    match v {
        Value::Mapping(m) => match find_key(m, key) {
            Some(j) => match &m[j].1 {
                Value::Str(s) => Some(s),
                _ => None,
            },
            None => None,
        },
        _ => None,
    }
}

/// Appends the prefixed name of each named parameter of `params_array`.
fn extract_parameters(params_array: &[Value], parameters: &mut Vec<String>)
    ensures
        texts(final(parameters)@) == texts(old(parameters)@) + parameter_names(params_array@, params_array@.len() as int),
{
    let ghost start = texts(parameters@);
    let mut i: usize = 0;
    while i < params_array.len()
        invariant
            0 <= i <= params_array@.len(),
            texts(parameters@) == start + parameter_names(params_array@, i as int),
        decreases params_array@.len() - i,
    {
        let param = &params_array[i];
        let ghost before = parameters@;
        match text_entry_of(param, "name") {
            Some(name) => {
                let prefix: &str = match text_entry_of(param, "in") {
                    Some(loc) => if str_eq(loc.as_str(), "path") {
                        "/"
                    } else if str_eq(loc.as_str(), "body") {
                        "body:"
                    } else if str_eq(loc.as_str(), "query") {
                        "?"
                    } else {
                        proof {
                            reveal_strlit("");
                        }
                        ""
                    },
                    None => {
                        proof {
                            reveal_strlit("");
                        }
                        ""
                    },
                };
                assert(prefix@ == location_prefix(text_entry(*param, "in"@)));
                let entry = prefix.to_owned().concat(name.as_str());
                parameters.push(entry);
                proof {
                    lemma_texts_push(before, entry);
                }
            },
            None => {},
        }
        assert(texts(parameters@) =~= start + parameter_names(params_array@, i + 1));
        i = i + 1;
    }
}

/// An operation's description: its non-empty summary, else its description, else a fixed text.
fn method_description_of(op: &Value) -> (r: String)
    ensures
        r@ == method_description(*op),
{
    match text_entry_of(op, "summary") {
        Some(s) if !s.as_str().is_empty() => {
            return s.clone();
        },
        _ => {},
    }
    match text_entry_of(op, "description") {
        Some(d) => d.clone(),
        None => "No description".to_owned(),
    }
}

proof fn lemma_paths_error_stays(pm: Entries, n: int, m: int)
    requires
        0 <= n <= m <= pm.len(),
        paths_error(pm, n) is Some,
    ensures
        paths_error(pm, m) == paths_error(pm, n),
    decreases m - n,
{
    if n < m {
        lemma_paths_error_stays(pm, n, m - 1);
    }
}

/// Builds the endpoint that one entry of `paths` describes.
fn build_endpoint(entry: &(Value, Value)) -> (r: Result<Endpoint, StructuralError>)
    ensures
        match r {
            Ok(e) => entry_error(*entry) is None && e@ == endpoint_of(*entry),
            Err(x) => entry_error(*entry) == Some(x),
        },
{
    let path = match &entry.0 {
        Value::Str(p) => p,
        _ => {
            return Err(StructuralError::InvalidPathItem);
        },
    };
    let ops = match &entry.1 {
        Value::Mapping(m) => m,
        _ => {
            return Err(StructuralError::InvalidPathItem);
        },
    };
    let mut description = String::new();
    let mut methods: Vec<Method> = Vec::new();
    let mut parameters: Vec<String> = Vec::new();
    let mut refs: Vec<String> = Vec::new();
    let mut i: usize = 0;
    while i < ops.len()
        invariant
            *entry == (Value::Str(*path), Value::Mapping(*ops)),
            0 <= i <= ops@.len(),
            forall|t: int| 0 <= t < i ==> (#[trigger] ops@[t]).0 is Str,
            description@ == path_description(ops@, i as int),
            method_views(methods@) == path_methods(ops@, i as int),
            texts(parameters@) == path_parameters(ops@, i as int),
            texts(refs@) == path_refs(ops@, i as int),
        decreases ops@.len() - i,
    {
        let key = match &ops[i].0 {
            Value::Str(k) => k,
            _ => {
                assert(!all_string_keys(ops@));
                return Err(StructuralError::InvalidMethodKey);
            },
        };
        let op = &ops[i].1;
        let ghost methods0 = methods@;
        let ghost params0 = texts(parameters@);
        let ghost refs0 = texts(refs@);
        if str_eq(key.as_str(), "summary") {
            description = match op {
                Value::Str(s) => s.clone(),
                _ => String::new(),
            };
        } else if str_eq(key.as_str(), "description") {
            if description.as_str().is_empty() {
                description = match op {
                    Value::Str(s) => s.clone(),
                    _ => String::new(),
                };
            }
        } else if str_eq(key.as_str(), "parameters") {
        } else {
            match op {
                Value::Mapping(op_map) => match find_key(op_map, "parameters") {
                    Some(j) => match &op_map[j].1 {
                        Value::Sequence(params) => extract_parameters(params.as_slice(), &mut parameters),
                        _ => {},
                    },
                    None => {},
                },
                _ => {},
            }
            let m = Method { method: key.clone(), description: method_description_of(op) };
            methods.push(m);
            let mut found = fetch_all_references(op);
            let ghost r0 = refs@;
            let ghost f0 = found@;
            refs.append(&mut found);
            assert(texts(refs@) =~= texts(r0) + texts(f0));
            assert(method_views(methods@) =~= method_views(methods0).push(m@));
        }
        assert(texts(parameters@) =~= path_parameters(ops@, i + 1));
        assert(texts(refs@) =~= path_refs(ops@, i + 1));
        assert(method_views(methods@) =~= path_methods(ops@, i + 1));
        i = i + 1;
    }
    let stripped = strip_path_from_references(refs.as_slice());
    let unique = unique_strings(stripped);
    Ok(Endpoint {
        methods,
        path: path.clone(),
        description,
        refs: unique,
        status: Status::Unselected,
        parameters,
    })
}

/// Whether `a`'s path sorts strictly before `b`'s.
fn endpoint_path_less(a: &Endpoint, b: &Endpoint) -> (r: bool)
    ensures
        r == path_before(a@, b@),
{
    str_less(a.path.as_str(), b.path.as_str())
}

/// The path order on endpoints, through their views.
pub open spec fn endpoint_by_path(a: Endpoint, b: Endpoint) -> bool {
    path_before(a@, b@)
}

/// The path order on endpoints, as a relation.
pub open spec fn by_endpoint_path() -> spec_fn(Endpoint, Endpoint) -> bool {
    |a: Endpoint, b: Endpoint| endpoint_by_path(a, b)
}

proof fn lemma_path_order()
    ensures
        strict_weak_order(by_endpoint_path()),
        strict_weak_order(by_path()),
{
    assert forall|a: Endpoint, b: Endpoint, c: Endpoint| true implies {
        &&& !endpoint_by_path(a, a)
        &&& endpoint_by_path(a, b) && endpoint_by_path(b, c) ==> endpoint_by_path(a, c)
        &&& !endpoint_by_path(a, b) && !endpoint_by_path(b, c) ==> !endpoint_by_path(a, c)
    } by {
        lemma_bytes_order(a.path@, b.path@, c.path@);
    }
    assert forall|a: EndpointView, b: EndpointView, c: EndpointView| true implies {
        &&& !path_before(a, a)
        &&& path_before(a, b) && path_before(b, c) ==> path_before(a, c)
        &&& !path_before(a, b) && !path_before(b, c) ==> !path_before(a, c)
    } by {
        lemma_bytes_order(a.path, b.path, c.path);
    }
}

/// Builds the endpoint table of a document: one endpoint per entry of `paths`,
/// sorted by path (byte-wise, equal paths in document order), all unselected.
pub fn fetch_endpoints_from_spec(spec: &Vec<(Value, Value)>) -> (r: Result<Vec<Endpoint>, StructuralError>)
    ensures
        match r {
            Ok(items) => catalog_error(spec@) is None && stable_sort_of(path_endpoints(spec@), endpoint_views(items@), by_path()),
            Err(e) => catalog_error(spec@) == Some(e),
        },
{
    let paths = match find_key(spec, "paths") {
        Some(j) => match &spec[j].1 {
            Value::Mapping(m) => m,
            _ => {
                return Err(StructuralError::MissingPaths);
            },
        },
        None => {
            return Err(StructuralError::MissingPaths);
        },
    };
    let ghost pm = paths@;
    assert(lookup_entries(spec@, "paths"@) == Some(pm));
    let mut table_items: Vec<Endpoint> = Vec::new();
    let mut i: usize = 0;
    while i < paths.len()
        invariant
            pm == paths@,
            lookup_entries(spec@, "paths"@) == Some(pm),
            0 <= i <= pm.len(),
            paths_error(pm, i as int) is None,
            endpoint_views(table_items@) == pm.take(i as int).map_values(|e: (Value, Value)| endpoint_of(e)),
        decreases pm.len() - i,
    {
        match build_endpoint(&paths[i]) {
            Ok(item) => {
                let ghost t0 = table_items@;
                table_items.push(item);
                assert(pm.take(i + 1) =~= pm.take(i as int).push(pm[i as int]));
                assert(endpoint_views(table_items@) =~= endpoint_views(t0).push(item@));
                assert(endpoint_views(table_items@) =~= pm.take(i + 1).map_values(|e: (Value, Value)| endpoint_of(e)));
            },
            Err(e) => {
                proof {
                    assert(paths_error(pm, i + 1) == Some(e));
                    lemma_paths_error_stays(pm, i + 1, pm.len() as int);
                }
                return Err(e);
            },
        }
        i = i + 1;
    }
    assert(pm.take(i as int) =~= pm);
    let ghost unsorted = table_items@;
    proof {
        lemma_path_order();
    }
    let sorted = stable_sort(table_items, &endpoint_path_less, Ghost(by_endpoint_path()));
    proof {
        let p = choose|p: Seq<int>| #[trigger] sorts_stably(unsorted, sorted@, p, by_endpoint_path());
        lemma_sorts_stably_map(unsorted, sorted@, p, by_endpoint_path(), |e: Endpoint| e@, by_path());
        assert(unsorted.map_values(|e: Endpoint| e@) =~= endpoint_views(unsorted));
        assert(sorted@.map_values(|e: Endpoint| e@) =~= endpoint_views(sorted@));
    }
    Ok(sorted)
}

} // verus!
