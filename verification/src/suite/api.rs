//! The apiserver, as the suites use it: create, read, replace and delete
//! HTTPRoutes, Services and Endpoints in the run's namespace, every object
//! labelled `storm.io/test-run=<run id>`, and read the node's capacity.
//!
//! The requests are the caller's to send. Here stand their paths and bodies,
//! and what is made of the answers.

use crate::json::{self, Json, JsonTree};
use crate::router::{self, BackendRefView};
use crate::suite::env::Env;
use crate::text;
use vstd::prelude::*;
use vstd::slice::slice_subrange;
use vstd::utf8::*;

verus! {

/// How long the apiserver may take to answer, in nanoseconds.
pub const CALL_WAIT: u128 = 20_000_000_000;

/// The apiserver, and the run that uses it.
pub struct Api {
    /// The apiserver's address, without slashes at its end.
    pub base: String,
    pub token: Option<String>,
    pub ns: String,
    pub run: String,
}

/// A text without the slashes at its end.
pub open spec fn unslashed(s: Seq<char>) -> Seq<char>
    decreases s.len(),
{
    if s.len() > 0 && s.last() == '/' {
        unslashed(s.drop_last())
    } else {
        s
    }
}

/// A text without the slashes at its end.
fn cut_slashes(s: &str) -> (r: String)
    ensures
        r@ == unslashed(s@),
{
    let c = text::chars_of(s);
    let mut j: usize = c.len();
    assert(c@.take(c@.len() as int) =~= c@);
    while j > 0 && c[j - 1] == '/'
        invariant
            j <= c@.len(),
            c@ == s@,
            unslashed(s@) == unslashed(c@.take(j as int)),
        decreases j,
    {
        assert(c@.take(j as int).drop_last() =~= c@.take(j - 1));
        j -= 1;
    }
    let p = slice_subrange(c.as_slice(), 0, j);
    assert(p@ =~= c@.take(j as int));
    text::text_of(p)
}

// ---------------------------------------------------------------------------
// What the apiserver answered
// ---------------------------------------------------------------------------

/// The body of an answer.
pub struct Body {
    /// What it holds: a text, where it is not JSON.
    pub value: Json,
    /// The same, as JSON on one line.
    pub shown: String,
}

/// Reads the body of an answer.
pub fn read_body(s: &str) -> (r: Body)
    ensures
        r.value@ == json::tree_or_text(s@),
        r.shown@ == json::json_text(json::tree_or_text(s@)),
{
    let (value, shown) = json::read_shown(s);
    Body { value, shown }
}

/// Whether a status is a success.
pub open spec fn is_ok(status: u16) -> bool {
    200 <= status < 300
}

/// Whether a status is a success.
pub fn accepted(status: u16) -> (r: bool)
    ensures
        r == is_ok(status),
{
    200 <= status && status < 300
}

/// What the apiserver says of a refusal: its message, or the whole body.
pub open spec fn message_in(value: JsonTree, shown: Seq<char>) -> Seq<char> {
    match json::text_in(json::member(value, "message"@)) {
        Some(m) => m,
        None => shown,
    }
}

/// What the apiserver says of a refusal.
pub fn message(body: &Body) -> (r: String)
    ensures
        r@ == message_in(body.value@, body.shown@),
{
    match json::as_text(json::get(Some(&body.value), "message")) {
        Some(m) => String::from_str(m),
        None => String::from_str(body.shown.as_str()),
    }
}

/// The first `n` bytes of some bytes, or all of them.
pub open spec fn first_bytes(b: Seq<u8>, n: int) -> Seq<u8> {
    if b.len() > n {
        b.take(n)
    } else {
        b
    }
}

/// What is said of a refused request.
pub open spec fn refusal_text(
    method: Seq<char>,
    path: Seq<char>,
    status: u16,
    msg: Seq<char>,
) -> Seq<char> {
    method + " "@ + path + ": "@ + text::decimal(status as nat) + " "@ + msg
}

/// What is said of a refused request.
fn refused(method: &str, path: &str, status: u16, msg: &str) -> (r: String)
    ensures
        r@ == refusal_text(method@, path@, status, msg@),
{
    String::from_str(method).concat(" ").concat(path).concat(": ").concat(
        text::decimal_text(status as u128).as_str(),
    ).concat(" ").concat(msg)
}

/// What is said of a refused request: no more than 300 bytes of the
/// apiserver's own words, which must end with a character.
pub fn refusal(method: &str, path: &str, status: u16, msg: &str) -> (r: String)
    requires
        valid_utf8(first_bytes(encode_utf8(msg@), 300)),
    ensures
        r@ == refusal_text(
            method@,
            path@,
            status,
            decode_utf8(first_bytes(encode_utf8(msg@), 300)),
        ),
{
    let b = msg.as_bytes();
    let p = if b.len() > 300 {
        slice_subrange(b, 0, 300)
    } else {
        b
    };
    assert(p@ =~= first_bytes(encode_utf8(msg@), 300));
    let words = match text::utf8(p) {
        Some(w) => w,
        None => "",
    };
    refused(method, path, status, words)
}

/// What becomes of an object that is read.
pub enum Found {
    /// It is there.
    There,
    /// There is none.
    Missing,
    /// It could not be read, and why.
    Refused(String),
}

/// What is known of an object that was read: nothing where there is none,
/// that it is there, or why it could not be read.
pub open spec fn read_as(path: Seq<char>, status: u16, shown: Seq<char>) -> Option<
    Result<(), Seq<char>>,
> {
    if status == 404 {
        None
    } else if is_ok(status) {
        Some(Ok(()))
    } else {
        Some(Err(refusal_text("GET"@, path, status, shown)))
    }
}

/// What is known of an object that was deleted: that it is gone, or why it
/// could not be deleted.
pub open spec fn deleted_as(path: Seq<char>, status: u16, shown: Seq<char>) -> Result<
    (),
    Seq<char>,
> {
    if status == 404 || is_ok(status) {
        Ok(())
    } else {
        Err(refusal_text("DELETE"@, path, status, shown))
    }
}

/// Reading an object: a 404 is none.
pub fn found(path: &str, status: u16, shown: &str) -> (r: Found)
    ensures
        read_as(path@, status, shown@) == (match r {
            Found::Missing => None,
            Found::There => Some(Ok::<(), Seq<char>>(())),
            Found::Refused(e) => Some(Err::<(), Seq<char>>(e@)),
        }),
        match r {
            Found::Missing => status == 404,
            Found::There => is_ok(status),
            Found::Refused(e) => status != 404 && !is_ok(status) && e@ == refusal_text(
                "GET"@,
                path@,
                status,
                shown@,
            ),
        },
{
    if status == 404 {
        Found::Missing
    } else if accepted(status) {
        Found::There
    } else {
        Found::Refused(refused("GET", path, status, shown))
    }
}

/// Deleting an object: already gone is fine.
pub fn deleted(path: &str, status: u16, shown: &str) -> (r: Result<(), String>)
    ensures
        deleted_as(path@, status, shown@) == (match r {
            Ok(_) => Ok::<(), Seq<char>>(()),
            Err(e) => Err::<(), Seq<char>>(e@),
        }),
        match r {
            Ok(_) => status == 404 || is_ok(status),
            Err(e) => status != 404 && !is_ok(status) && e@ == refusal_text(
                "DELETE"@,
                path@,
                status,
                shown@,
            ),
        },
{
    if status == 404 || accepted(status) {
        Ok(())
    } else {
        Err(refused("DELETE", path, status, shown))
    }
}

// ---------------------------------------------------------------------------
// Lists
// ---------------------------------------------------------------------------

/// The objects of a list.
pub open spec fn items_of(list: JsonTree) -> Seq<JsonTree> {
    json::elements(json::member(list, "items"@))
}

/// The name of an object.
pub open spec fn name_of(o: JsonTree) -> Option<Seq<char>> {
    json::text_in(json::member(json::member(o, "metadata"@), "name"@))
}

/// The names of some objects, of those that have one.
pub open spec fn names_of(items: Seq<JsonTree>) -> Seq<Seq<char>>
    decreases items.len(),
{
    if items.len() == 0 {
        seq![]
    } else {
        match name_of(items.last()) {
            Some(n) => names_of(items.drop_last()).push(n),
            None => names_of(items.drop_last()),
        }
    }
}

/// How many objects a list holds.
pub fn count(list: &Json) -> (r: usize)
    ensures
        r == items_of(list@).len(),
{
    match json::array(json::get(Some(list), "items")) {
        Some(v) => v.len(),
        None => 0,
    }
}

/// The path of an object in a collection.
pub open spec fn path_in(coll: Seq<char>, name: Seq<char>) -> Seq<char> {
    coll + "/"@ + name
}

/// The path of an object in a collection.
pub fn object_path(coll: &str, name: &str) -> (r: String)
    ensures
        r@ == path_in(coll@, name@),
{
    String::from_str(coll).concat("/").concat(name)
}

/// The paths of the objects of a list, of those that have a name.
pub fn object_paths(coll: &str, list: &Json) -> (r: Vec<String>)
    ensures
        text::texts(r@) == names_of(items_of(list@)).map_values(
            |n: Seq<char>| path_in(coll@, n),
        ),
{
    let mut r: Vec<String> = Vec::new();
    let ghost path = |n: Seq<char>| path_in(coll@, n);
    assert(text::texts(r@) =~= seq![]);
    let items = match json::array(json::get(Some(list), "items")) {
        Some(v) => v,
        None => {
            assert(text::texts(r@) =~= names_of(items_of(list@)).map_values(path));
            return r;
        },
    };
    let ghost all = items_of(list@);
    let mut i: usize = 0;
    assert(all.take(0) =~= seq![]);
    assert(text::texts(r@) =~= names_of(all.take(0)).map_values(path));
    while i < items.len()
        invariant
            i <= items@.len(),
            items@.len() == all.len(),
            path == |n: Seq<char>| path_in(coll@, n),
            forall|k: int| 0 <= k < items@.len() ==> (#[trigger] items@[k])@ == all[k],
            text::texts(r@) == names_of(all.take(i as int)).map_values(path),
        decreases items.len() - i,
    {
        let ghost t = all.take(i + 1);
        assert(t.drop_last() =~= all.take(i as int));
        assert(t.last() == items@[i as int]@);
        let ghost before = r@;
        match json::as_text(json::get(json::get(Some(&items[i]), "metadata"), "name")) {
            Some(n) => {
                r.push(object_path(coll, n));
                assert(text::texts(r@) =~= text::texts(before).push(path_in(coll@, n@)));
                assert(names_of(t).map_values(path) =~= names_of(all.take(i as int)).map_values(
                    path,
                ).push(path_in(coll@, n@)));
            },
            None => {},
        }
        i += 1;
    }
    assert(all.take(i as int) =~= all);
    r
}

// ---------------------------------------------------------------------------
// The node
// ---------------------------------------------------------------------------

/// Whether one of some addresses is `node`.
pub open spec fn addressed(addresses: Seq<JsonTree>, node: Seq<char>) -> bool {
    exists|i: int|
        0 <= i < addresses.len() && json::text_in(
            json::member(#[trigger] addresses[i], "address"@),
        ) == Some(node)
}

/// Whether an object is the node `node`, by its name or an address.
pub open spec fn is_node(n: JsonTree, node: Seq<char>) -> bool {
    name_of(n) == Some(node) || addressed(
        json::elements(json::member(json::member(n, "status"@), "addresses"@)),
        node,
    )
}

/// The first of some objects that is the node `node`.
pub open spec fn node_at(items: Seq<JsonTree>, node: Seq<char>) -> Option<JsonTree>
    decreases items.len(),
{
    if items.len() == 0 {
        None
    } else if is_node(items[0], node) {
        Some(items[0])
    } else {
        node_at(items.drop_first(), node)
    }
}

/// The node that `node` names, else the only node.
pub open spec fn node_among(items: Seq<JsonTree>, node: Seq<char>) -> Option<JsonTree> {
    match node_at(items, node) {
        Some(n) => Some(n),
        None => if items.len() == 1 {
            Some(items[0])
        } else {
            None
        },
    }
}

/// What a node is called.
pub open spec fn node_name(n: JsonTree) -> Seq<char> {
    match name_of(n) {
        Some(s) => s,
        None => "?"@,
    }
}

/// The allocatable CPUs of a node, as the apiserver writes them.
pub open spec fn node_quantity(n: JsonTree) -> Option<Seq<char>> {
    json::text_in(json::member(json::member(json::member(n, "status"@), "allocatable"@), "cpu"@))
}

/// A Kubernetes CPU quantity in whole CPUs, at least 1. `whole` is the whole
/// part of the quantity read as a decimal fraction, where it is one.
pub open spec fn cpus_of(q: Seq<char>, whole: Option<u64>) -> Option<u64> {
    let n = if q.len() > 0 && q.last() == 'm' {
        match text::number(q.drop_last(), u64::MAX as nat) {
            Some(m) => Some((m / 1000) as u64),
            None => None,
        }
    } else {
        whole
    };
    match n {
        Some(k) => Some(
            if k == 0 {
                1
            } else {
                k
            },
        ),
        None => None,
    }
}

/// A Kubernetes CPU quantity in whole CPUs, at least 1: `"8"`, `"7500m"`.
/// `whole` is the whole part of the quantity read as a decimal fraction, where
/// it is one.
pub fn cpus(q: &str, whole: Option<u64>) -> (r: Option<u64>)
    ensures
        r == cpus_of(q@, whole),
{
    let c = text::chars_of(q);
    let n = if c.len() > 0 && c[c.len() - 1] == 'm' {
        let m = slice_subrange(c.as_slice(), 0, c.len() - 1);
        assert(m@ =~= q@.drop_last());
        match text::parse_number(m, u64::MAX) {
            Some(m) => Some(m / 1000),
            None => None,
        }
    } else {
        whole
    };
    match n {
        Some(k) => Some(
            if k == 0 {
                1
            } else {
                k
            },
        ),
        None => None,
    }
}

/// Whether an object is the node `node`.
fn is_it(n: &Json, node: &str) -> (r: bool)
    ensures
        r == is_node(n@, node@),
{
    if let Some(s) = json::as_text(json::get(json::get(Some(n), "metadata"), "name")) {
        if text::same(s, node) {
            return true;
        }
    }
    let a = match json::array(json::get(json::get(Some(n), "status"), "addresses")) {
        Some(a) => a,
        None => {
            return false;
        },
    };
    let ghost all = json::elements(json::member(json::member(n@, "status"@), "addresses"@));
    let mut i: usize = 0;
    while i < a.len()
        invariant
            i <= a@.len(),
            a@.len() == all.len(),
            all == json::elements(json::member(json::member(n@, "status"@), "addresses"@)),
            forall|k: int| 0 <= k < a@.len() ==> (#[trigger] a@[k])@ == all[k],
            name_of(n@) != Some(node@),
            forall|k: int|
                0 <= k < i ==> json::text_in(json::member(#[trigger] all[k], "address"@)) != Some(
                    node@,
                ),
        decreases a.len() - i,
    {
        assert(a@[i as int]@ == all[i as int]);
        if let Some(s) = json::as_text(json::get(Some(&a[i]), "address")) {
            if text::same(s, node) {
                assert(json::text_in(json::member(all[i as int], "address"@)) == Some(node@));
                return true;
            }
        }
        i += 1;
    }
    false
}

/// The node that `node` names, else the only node.
fn pick_node<'a>(list: &'a Json, node: &str) -> (r: Option<&'a Json>)
    ensures
        match r {
            Some(n) => node_among(items_of(list@), node@) == Some(n@),
            None => node_among(items_of(list@), node@) is None,
        },
{
    let items = match json::array(json::get(Some(list), "items")) {
        Some(v) => v,
        None => {
            return None;
        },
    };
    let ghost all = items_of(list@);
    let mut i: usize = 0;
    assert(all.skip(0) =~= all);
    while i < items.len()
        invariant
            i <= items@.len(),
            items@.len() == all.len(),
            all == items_of(list@),
            forall|k: int| 0 <= k < items@.len() ==> (#[trigger] items@[k])@ == all[k],
            node_at(all, node@) == node_at(all.skip(i as int), node@),
        decreases items.len() - i,
    {
        assert(all.skip(i as int)[0] == items@[i as int]@);
        assert(all.skip(i as int).drop_first() =~= all.skip(i + 1));
        if is_it(&items[i], node) {
            return Some(&items[i]);
        }
        i += 1;
    }
    assert(all.skip(i as int) =~= seq![]);
    if items.len() == 1 {
        assert(items@[0]@ == all[0]);
        Some(&items[0])
    } else {
        None
    }
}

/// The allocatable CPUs of the node that `node` names, as the apiserver
/// writes them.
pub open spec fn quantity_in(list: JsonTree, node: Seq<char>) -> Option<Seq<char>> {
    match node_among(items_of(list), node) {
        Some(n) => node_quantity(n),
        None => None,
    }
}

/// The allocatable CPUs of the node that `node` names, as the apiserver
/// writes them.
pub fn allocatable(list: &Json, node: &str) -> (r: Option<String>)
    ensures
        text::opt_string(r) == quantity_in(list@, node@),
        text::opt_string(r) == (match node_among(items_of(list@), node@) {
            Some(n) => node_quantity(n),
            None => None,
        }),
{
    match pick_node(list, node) {
        Some(n) => match json::as_text(
            json::get(json::get(json::get(Some(n), "status"), "allocatable"), "cpu"),
        ) {
            Some(q) => Some(String::from_str(q)),
            None => None,
        },
        None => None,
    }
}

/// A node's CPUs and its name, or why there are none to be had.
pub open spec fn node_cpus_of(
    list: JsonTree,
    node: Seq<char>,
    whole: Option<u64>,
) -> Result<(u64, Seq<char>), Seq<char>> {
    match node_among(items_of(list), node) {
        None => Err(
            "no node named or addressed "@ + text::quoted(node) + " among "@ + text::decimal(
                items_of(list).len(),
            ),
        ),
        Some(n) => match node_quantity(n) {
            None => Err("node "@ + node_name(n) + " has no allocatable cpu"@),
            Some(q) => match cpus_of(q, whole) {
                Some(k) => Ok((k, node_name(n))),
                None => Err(
                    "node "@ + node_name(n) + ": allocatable cpu "@ + text::quoted(q),
                ),
            },
        },
    }
}

/// The node's allocatable CPUs, read from the list of nodes: the node whose
/// name or one of whose addresses is `node`, else the only node. `whole` is
/// the whole part of what `allocatable` gives, read as a decimal fraction,
/// where it is one.
pub fn node_cpus(list: &Json, node: &str, whole: Option<u64>) -> (r: Result<
    (u64, String),
    String,
>)
    ensures
        match r {
            Ok(x) => node_cpus_of(list@, node@, whole) == Ok::<(u64, Seq<char>), Seq<char>>(
                (x.0, x.1@),
            ),
            Err(e) => node_cpus_of(list@, node@, whole) == Err::<(u64, Seq<char>), Seq<char>>(e@),
        },
{
    let n = match pick_node(list, node) {
        Some(n) => n,
        None => {
            return Err(
                String::from_str("no node named or addressed ").concat(
                    text::quote(node).as_str(),
                ).concat(" among ").concat(text::decimal_text(count(list) as u128).as_str()),
            );
        },
    };
    let name = match json::as_text(json::get(json::get(Some(n), "metadata"), "name")) {
        Some(s) => s,
        None => "?",
    };
    let q = match json::as_text(
        json::get(json::get(json::get(Some(n), "status"), "allocatable"), "cpu"),
    ) {
        Some(q) => q,
        None => {
            return Err(
                String::from_str("node ").concat(name).concat(" has no allocatable cpu"),
            );
        },
    };
    match cpus(q, whole) {
        Some(k) => Ok((k, String::from_str(name))),
        None => Err(
            String::from_str("node ").concat(name).concat(": allocatable cpu ").concat(
                text::quote(q).as_str(),
            ),
        ),
    }
}

// ---------------------------------------------------------------------------
// Objects
// ---------------------------------------------------------------------------

/// What some texts are as values.
pub open spec fn text_trees(v: Seq<Seq<char>>) -> Seq<JsonTree> {
    Seq::new(v.len(), |i: int| JsonTree::Text(v[i]))
}

/// The annotation that names a backend.
pub open spec fn annotations_tree(backend: Seq<char>) -> JsonTree {
    JsonTree::Object(seq![("storm.io/backend"@, JsonTree::Text(backend))])
}

/// The annotation that names a backend.
pub fn annotations(backend: &str) -> (r: Json)
    ensures
        r@ == annotations_tree(backend@),
{
    let mut m: Vec<(String, Json)> = Vec::new();
    m.push((String::from_str("storm.io/backend"), json::text_value(backend)));
    assert(json::members(m@) =~= seq![("storm.io/backend"@, JsonTree::Text(backend@))]);
    json::object_value(m)
}

/// The rules of a route to a Service; none without one.
pub open spec fn rules_tree(svc: Option<(Seq<char>, u16)>) -> JsonTree {
    match svc {
        Some(s) => JsonTree::Array(
            seq![
                JsonTree::Object(
                    seq![
                        (
                            "backendRefs"@,
                            JsonTree::Array(
                                seq![
                                    JsonTree::Object(
                                        seq![
                                            ("name"@, JsonTree::Text(s.0)),
                                            ("port"@, json::whole(s.1 as u64)),
                                        ],
                                    ),
                                ],
                            ),
                        ),
                    ],
                ),
            ],
        ),
        None => JsonTree::Array(seq![]),
    }
}

/// The rules of a route to a Service; none without one.
fn rules(svc: Option<(&str, u16)>) -> (r: Json)
    ensures
        r@ == rules_tree(
            match svc {
                Some(s) => Some((s.0@, s.1)),
                None => None,
            },
        ),
{
    let mut all: Vec<Json> = Vec::new();
    if let Some((name, port)) = svc {
        let mut target: Vec<(String, Json)> = Vec::new();
        target.push((String::from_str("name"), json::text_value(name)));
        target.push((String::from_str("port"), json::number_value(port as u64)));
        let ghost t = seq![
            ("name"@, JsonTree::Text(name@)),
            ("port"@, json::whole(port as u64)),
        ];
        assert(json::members(target@) =~= t);
        let mut refs: Vec<Json> = Vec::new();
        refs.push(json::object_value(target));
        assert(json::trees(refs@) =~= seq![JsonTree::Object(t)]);
        let mut rule: Vec<(String, Json)> = Vec::new();
        rule.push((String::from_str("backendRefs"), json::list_value(refs)));
        let ghost u = seq![("backendRefs"@, JsonTree::Array(seq![JsonTree::Object(t)]))];
        assert(json::members(rule@) =~= u);
        all.push(json::object_value(rule));
        assert(json::trees(all@) =~= seq![JsonTree::Object(u)]);
    } else {
        assert(json::trees(all@) =~= seq![]);
    }
    json::list_value(all)
}

/// Whether `r` is the apiserver that the environment names.
pub open spec fn is_api_of(env: Env, r: Result<Api, String>) -> bool {
    match r {
        Ok(a) => {
            &&& env.api@.len() > 0
            &&& a.base@ == unslashed(env.api@)
            &&& text::opt_string(a.token) == text::opt_string(env.token)
            &&& a.ns@ == env.namespace@
            &&& a.run@ == env.run_id@
        },
        Err(e) => env.api@.len() == 0 && e@ == "STORM_API is not set"@,
    }
}

impl Api {
    /// The apiserver that the environment names; an error where it names none.
    pub fn new(env: &Env) -> (r: Result<Api, String>)
        ensures
            match r {
                Ok(a) => {
                    &&& env.api@.len() > 0
                    &&& a.base@ == unslashed(env.api@)
                    &&& text::opt_string(a.token) == text::opt_string(env.token)
                    &&& a.ns@ == env.namespace@
                    &&& a.run@ == env.run_id@
                },
                Err(e) => env.api@.len() == 0 && e@ == "STORM_API is not set"@,
            },
            is_api_of(*env, r),
    {
        if env.api.as_str().is_empty() {
            return Err(String::from_str("STORM_API is not set"));
        }
        Ok(
            Api {
                base: cut_slashes(env.api.as_str()),
                token: match &env.token {
                    Some(t) => Some(String::from_str(t.as_str())),
                    None => None,
                },
                ns: String::from_str(env.namespace.as_str()),
                run: String::from_str(env.run_id.as_str()),
            },
        )
    }

    /// The address of a path.
    pub open spec fn url_of(self, path: Seq<char>) -> Seq<char> {
        self.base@ + path
    }

    /// The path of this run's objects in a collection.
    pub open spec fn mine_of(self, coll: Seq<char>) -> Seq<char> {
        coll + "?labelSelector=storm.io%2Ftest-run%3D"@ + self.run@
    }

    /// The address of a path.
    pub fn url(&self, path: &str) -> (r: String)
        ensures
            r@ == self.base@ + path@,
            r@ == self.url_of(path@),
    {
        String::from_str(self.base.as_str()).concat(path)
    }

    /// The path of this run's objects in a collection.
    pub fn mine(&self, coll: &str) -> (r: String)
        ensures
            r@ == coll@ + "?labelSelector=storm.io%2Ftest-run%3D"@ + self.run@,
            r@ == self.mine_of(coll@),
    {
        String::from_str(coll).concat("?labelSelector=storm.io%2Ftest-run%3D").concat(
            self.run.as_str(),
        )
    }

    /// The path of the routes.
    pub open spec fn routes_path(self) -> Seq<char> {
        "/apis/gateway.networking.k8s.io/v1/namespaces/"@ + self.ns@ + "/httproutes"@
    }

    /// The path of the Services.
    pub open spec fn services_path(self) -> Seq<char> {
        "/api/v1/namespaces/"@ + self.ns@ + "/services"@
    }

    /// The path of the Endpoints.
    pub open spec fn endpoints_path(self) -> Seq<char> {
        "/api/v1/namespaces/"@ + self.ns@ + "/endpoints"@
    }

    /// The path of the routes.
    pub fn routes(&self) -> (r: String)
        ensures
            r@ == self.routes_path(),
    {
        String::from_str("/apis/gateway.networking.k8s.io/v1/namespaces/").concat(
            self.ns.as_str(),
        ).concat("/httproutes")
    }

    /// The path of the Services.
    pub fn services(&self) -> (r: String)
        ensures
            r@ == self.services_path(),
    {
        String::from_str("/api/v1/namespaces/").concat(self.ns.as_str()).concat("/services")
    }

    /// The path of the Endpoints.
    pub fn endpoints(&self) -> (r: String)
        ensures
            r@ == self.endpoints_path(),
    {
        String::from_str("/api/v1/namespaces/").concat(self.ns.as_str()).concat("/endpoints")
    }

    /// Where this run makes objects, in the order in which they are deleted.
    pub fn collections(&self) -> (r: Vec<String>)
        ensures
            text::texts(r@) == seq![
                self.routes_path(),
                self.endpoints_path(),
                self.services_path(),
            ],
    {
        let mut r: Vec<String> = Vec::new();
        r.push(self.routes());
        r.push(self.endpoints());
        r.push(self.services());
        assert(text::texts(r@) =~= seq![
            self.routes_path(),
            self.endpoints_path(),
            self.services_path(),
        ]);
        r
    }

    /// The metadata of an object of this run, member by member.
    pub open spec fn meta_members(self, name: Seq<char>) -> Seq<(Seq<char>, JsonTree)> {
        seq![
            ("name"@, JsonTree::Text(name)),
            ("namespace"@, JsonTree::Text(self.ns@)),
            (
                "labels"@,
                JsonTree::Object(seq![("storm.io/test-run"@, JsonTree::Text(self.run@))]),
            ),
        ]
    }

    fn meta_parts(&self, name: &str) -> (r: Vec<(String, Json)>)
        ensures
            json::members(r@) == self.meta_members(name@),
    {
        let mut labels: Vec<(String, Json)> = Vec::new();
        labels.push((String::from_str("storm.io/test-run"), json::text_value(self.run.as_str())));
        assert(json::members(labels@) =~= seq![("storm.io/test-run"@, JsonTree::Text(self.run@))]);
        let mut m: Vec<(String, Json)> = Vec::new();
        m.push((String::from_str("name"), json::text_value(name)));
        m.push((String::from_str("namespace"), json::text_value(self.ns.as_str())));
        m.push((String::from_str("labels"), json::object_value(labels)));
        assert(json::members(m@) =~= self.meta_members(name@));
        m
    }

    /// The metadata of an object of this run: it carries the run's label.
    pub fn meta(&self, name: &str) -> (r: Json)
        ensures
            r@ == JsonTree::Object(self.meta_members(name@)),
    {
        json::object_value(self.meta_parts(name))
    }

    /// The metadata of a route.
    pub open spec fn route_meta(self, name: Seq<char>, backend: Option<Seq<char>>) -> JsonTree {
        match backend {
            Some(b) => JsonTree::Object(
                self.meta_members(name).push(("annotations"@, annotations_tree(b))),
            ),
            None => JsonTree::Object(self.meta_members(name)),
        }
    }

    /// A route.
    pub open spec fn route_tree(
        self,
        name: Seq<char>,
        hosts: Seq<Seq<char>>,
        backend: Option<Seq<char>>,
        svc: Option<(Seq<char>, u16)>,
    ) -> JsonTree {
        JsonTree::Object(
            seq![
                ("apiVersion"@, JsonTree::Text("gateway.networking.k8s.io/v1"@)),
                ("kind"@, JsonTree::Text("HTTPRoute"@)),
                ("metadata"@, self.route_meta(name, backend)),
                (
                    "spec"@,
                    JsonTree::Object(
                        seq![
                            ("hostnames"@, JsonTree::Array(text_trees(hosts))),
                            ("rules"@, rules_tree(svc)),
                        ],
                    ),
                ),
            ],
        )
    }

    /// An HTTPRoute for `hosts`: to `backend` (the annotation, the node
    /// service path) or to a Service (`backendRefs`, the cluster path).
    pub fn route(
        &self,
        name: &str,
        hosts: &[String],
        backend: Option<&str>,
        svc: Option<(&str, u16)>,
    ) -> (r: Json)
        ensures
            r@ == self.route_tree(
                name@,
                text::texts(hosts@),
                text::opt_str(backend),
                match svc {
                    Some(s) => Some((s.0@, s.1)),
                    None => None,
                },
            ),
    {
        let ghost s = match svc {
            Some(s) => Some((s.0@, s.1)),
            None => None,
        };
        let mut meta = self.meta_parts(name);
        if let Some(b) = backend {
            let ghost before = meta@;
            meta.push((String::from_str("annotations"), annotations(b)));
            assert(json::members(meta@) =~= json::members(before).push(
                ("annotations"@, annotations_tree(b@)),
            ));
        }
        let mut names: Vec<Json> = Vec::new();
        let mut i: usize = 0;
        while i < hosts.len()
            invariant
                i <= hosts@.len(),
                names@.len() == i,
                forall|k: int| 0 <= k < i ==> (#[trigger] names@[k])@ == JsonTree::Text(hosts@[k]@),
            decreases hosts.len() - i,
        {
            names.push(json::text_value(hosts[i].as_str()));
            i += 1;
        }
        assert(json::trees(names@) =~= text_trees(text::texts(hosts@)));
        let mut spec_part: Vec<(String, Json)> = Vec::new();
        spec_part.push((String::from_str("hostnames"), json::list_value(names)));
        spec_part.push((String::from_str("rules"), rules(svc)));
        let ghost sp = seq![
            ("hostnames"@, JsonTree::Array(text_trees(text::texts(hosts@)))),
            ("rules"@, rules_tree(s)),
        ];
        assert(json::members(spec_part@) =~= sp);
        let mut m: Vec<(String, Json)> = Vec::new();
        m.push(
            (String::from_str("apiVersion"), json::text_value("gateway.networking.k8s.io/v1")),
        );
        m.push((String::from_str("kind"), json::text_value("HTTPRoute")));
        m.push((String::from_str("metadata"), json::object_value(meta)));
        m.push((String::from_str("spec"), json::object_value(spec_part)));
        assert(json::members(m@) =~= seq![
            ("apiVersion"@, JsonTree::Text("gateway.networking.k8s.io/v1"@)),
            ("kind"@, JsonTree::Text("HTTPRoute"@)),
            ("metadata"@, self.route_meta(name@, text::opt_str(backend))),
            ("spec"@, JsonTree::Object(sp)),
        ]);
        json::object_value(m)
    }
}

/// A route that leads to another backend: its annotations are the backend's,
/// and all else is as it was.
pub open spec fn annotated(route: JsonTree, backend: Seq<char>) -> JsonTree {
    json::with_member(
        route,
        "metadata"@,
        json::with_member(
            json::member(route, "metadata"@),
            "annotations"@,
            annotations_tree(backend),
        ),
    )
}

/// Whether a route can be given annotations: it is an object, and so is its
/// metadata, or they are not there.
pub open spec fn takes_annotations(route: JsonTree) -> bool {
    json::takes_members(route) && json::takes_members(json::member(route, "metadata"@))
}

/// Whether a route can be given annotations.
pub fn can_annotate(route: &Json) -> (r: bool)
    ensures
        r == takes_annotations(route@),
{
    json::is_open(Some(route)) && json::is_open(json::get(Some(route), "metadata"))
}

/// A route with the annotations that lead to `backend` in place of its own.
pub fn with_annotations(route: Json, backend: &str) -> (r: Json)
    requires
        takes_annotations(route@),
    ensures
        r@ == annotated(route@, backend@),
{
    let (rest, metadata) = json::take_member(route, "metadata");
    let metadata = json::set_member(metadata, "annotations", annotations(backend));
    json::set_member(rest, "metadata", metadata)
}

// ---------------------------------------------------------------------------
// Laws
// ---------------------------------------------------------------------------

/// What stands under the first, second, third or fourth key of an object.
proof fn lemma_entries(m: Seq<(Seq<char>, JsonTree)>)
    ensures
        m.len() > 0 ==> json::entry(m, m[0].0) == m[0].1,
        m.len() > 1 && m[0].0 != m[1].0 ==> json::entry(m, m[1].0) == m[1].1,
        m.len() > 2 && m[0].0 != m[2].0 && m[1].0 != m[2].0 ==> json::entry(m, m[2].0) == m[2].1,
        m.len() > 3 && m[0].0 != m[3].0 && m[1].0 != m[3].0 && m[2].0 != m[3].0 ==> json::entry(
            m,
            m[3].0,
        ) == m[3].1,
{
    reveal_with_fuel(json::entry, 5);
}

/// The keys of a route and of its metadata are told apart.
proof fn lemma_keys()
    ensures
        "apiVersion"@ != "metadata"@,
        "kind"@ != "metadata"@,
        "apiVersion"@ != "spec"@,
        "kind"@ != "spec"@,
        "metadata"@ != "spec"@,
        "name"@ != "namespace"@,
        "name"@ != "labels"@,
        "namespace"@ != "labels"@,
        "name"@ != "annotations"@,
        "namespace"@ != "annotations"@,
        "labels"@ != "annotations"@,
        "hostnames"@ != "rules"@,
        "name"@ != "port"@,
{
    reveal_strlit("apiVersion");
    reveal_strlit("kind");
    reveal_strlit("metadata");
    reveal_strlit("spec");
    reveal_strlit("name");
    reveal_strlit("namespace");
    reveal_strlit("labels");
    reveal_strlit("annotations");
    reveal_strlit("hostnames");
    reveal_strlit("rules");
    reveal_strlit("port");
    assert("apiVersion"@.len() == 10 && "kind"@.len() == 4 && "metadata"@.len() == 8);
    assert("spec"@.len() == 4 && "name"@.len() == 4 && "namespace"@.len() == 9);
    assert("labels"@.len() == 6 && "annotations"@.len() == 11 && "port"@.len() == 4);
    assert("hostnames"@.len() == 9 && "rules"@.len() == 5);
    assert("kind"@[0] == 'k' && "spec"@[0] == 's' && "name"@[0] == 'n' && "port"@[0] == 'p');
}

/// Every route of a run carries the run's label, under which it is found
/// again and deleted, and is in the run's namespace.
pub proof fn routes_carry_the_label_of_the_run(
    api: Api,
    name: Seq<char>,
    hosts: Seq<Seq<char>>,
    backend: Option<Seq<char>>,
    svc: Option<(Seq<char>, u16)>,
)
    ensures
        name_of(api.route_tree(name, hosts, backend, svc)) == Some(name),
        json::text_in(
            json::member(
                json::member(
                    json::member(api.route_tree(name, hosts, backend, svc), "metadata"@),
                    "labels"@,
                ),
                "storm.io/test-run"@,
            ),
        ) == Some(api.run@),
        json::text_in(
            json::member(
                json::member(api.route_tree(name, hosts, backend, svc), "metadata"@),
                "namespace"@,
            ),
        ) == Some(api.ns@),
{
    lemma_keys();
    let r = api.route_tree(name, hosts, backend, svc);
    lemma_entries(json::pairs(r));
    assert(json::member(r, "metadata"@) == api.route_meta(name, backend));
    lemma_entries(json::pairs(api.route_meta(name, backend)));
    let l = seq![("storm.io/test-run"@, JsonTree::Text(api.run@))];
    assert(json::member(api.route_meta(name, backend), "labels"@) == JsonTree::Object(l));
    lemma_entries(l);
}

/// What the suites create is what the router reads: a route for some hosts
/// names those hosts, and leads to the backend it was made for, or else to
/// the Service, in the run's namespace.
pub proof fn created_routes_are_what_the_router_reads(
    api: Api,
    name: Seq<char>,
    hosts: Seq<Seq<char>>,
    backend: Option<Seq<char>>,
    svc: Option<(Seq<char>, u16)>,
)
    ensures
        router::hostnames_of(api.route_tree(name, hosts, backend, svc)) == text_trees(hosts),
        router::backend_ref_of(api.route_tree(name, hosts, backend, svc)) == (match (
            backend,
            svc,
        ) {
            (Some(b), _) => BackendRefView::Ready(b),
            (None, Some(s)) => BackendRefView::Service {
                namespace: api.ns@,
                name: s.0,
                port: s.1 as u64,
            },
            (None, None) => BackendRefView::Missing,
        }),
{
    lemma_keys();
    routes_carry_the_label_of_the_run(api, name, hosts, backend, svc);
    let r = api.route_tree(name, hosts, backend, svc);
    let meta = api.route_meta(name, backend);
    lemma_entries(json::pairs(r));
    assert(json::member(r, "metadata"@) == meta);
    lemma_entries(json::pairs(meta));
    let sp = seq![
        ("hostnames"@, JsonTree::Array(text_trees(hosts))),
        ("rules"@, rules_tree(svc)),
    ];
    lemma_entries(sp);
    assert(json::member(r, "spec"@) == JsonTree::Object(sp));
    match backend {
        Some(b) => {
            lemma_entries(json::pairs(annotations_tree(b)));
            assert(json::member(meta, "annotations"@) == annotations_tree(b));
        },
        None => {
            reveal_with_fuel(json::entry, 5);
            assert(json::member(meta, "annotations"@) == JsonTree::Null);
        },
    }
    match svc {
        Some(s) => {
            let t = seq![
                ("name"@, JsonTree::Text(s.0)),
                ("port"@, json::whole(s.1 as u64)),
            ];
            let u = seq![("backendRefs"@, JsonTree::Array(seq![JsonTree::Object(t)]))];
            lemma_entries(t);
            lemma_entries(u);
            reveal_strlit("namespace");
            reveal_strlit("name");
            reveal_strlit("port");
            assert("namespace"@.len() == 9);
            reveal_with_fuel(json::entry, 5);
            assert(json::member(JsonTree::Object(t), "namespace"@) == JsonTree::Null);
        },
        None => {},
    }
}

/// A route that is updated leads the router to its new backend, for the
/// hosts that it had, and nothing else of it changes.
pub proof fn updated_routes_change_their_backend_alone(
    route: JsonTree,
    backend: Seq<char>,
    other: Seq<char>,
)
    requires
        takes_annotations(route),
    ensures
        router::backend_ref_of(annotated(route, backend)) == BackendRefView::Ready(backend),
        router::hostnames_of(annotated(route, backend)) == router::hostnames_of(route),
        other != "metadata"@ ==> json::member(annotated(route, backend), other) == json::member(
            route,
            other,
        ),
        other != "annotations"@ ==> json::member(
            json::member(annotated(route, backend), "metadata"@),
            other,
        ) == json::member(json::member(route, "metadata"@), other),
{
    let metadata = json::member(route, "metadata"@);
    let new = json::with_member(metadata, "annotations"@, annotations_tree(backend));
    lemma_keys();
    json::changing_a_member_leaves_the_others(route, "metadata"@, new, other);
    json::changing_a_member_leaves_the_others(route, "metadata"@, new, "spec"@);
    json::changing_a_member_leaves_the_others(
        metadata,
        "annotations"@,
        annotations_tree(backend),
        other,
    );
    lemma_entries(json::pairs(annotations_tree(backend)));
}

/// The apiserver's address is the one that is set, without the slashes at its
/// end; the namespace, the run and the token are those of the environment.
/// Without an address there is no apiserver.
pub proof fn the_apiserver_is_that_of_the_environment(env: Env, r: Result<Api, String>)
    requires
        is_api_of(env, r),
    ensures
        r is Ok <==> env.api@.len() > 0,
        r matches Ok(a) ==> {
            &&& a.ns@ == env.namespace@
            &&& a.run@ == env.run_id@
            &&& a.token is Some <==> env.token is Some
            &&& env.token matches Some(t) ==> a.token->0@ == t@
            &&& a.base@.len() > 0 ==> a.base@.last() != '/'
            &&& a.base@.len() <= env.api@.len()
            &&& a.base@ == env.api@.take(a.base@.len() as int)
            &&& forall|i: int| a.base@.len() <= i < env.api@.len() ==> #[trigger] env.api@[i] == '/'
        },
        r matches Err(e) ==> e@ == "STORM_API is not set"@,
{
    if r is Ok {
        lemma_unslashed(env.api@);
    }
}

proof fn lemma_unslashed(s: Seq<char>)
    ensures
        unslashed(s).len() <= s.len(),
        unslashed(s) == s.take(unslashed(s).len() as int),
        unslashed(s).len() > 0 ==> unslashed(s).last() != '/',
        forall|i: int| unslashed(s).len() <= i < s.len() ==> #[trigger] s[i] == '/',
    decreases s.len(),
{
    if s.len() > 0 && s.last() == '/' {
        let t = s.drop_last();
        lemma_unslashed(t);
        assert(t.take(unslashed(s).len() as int) =~= s.take(unslashed(s).len() as int));
        assert forall|i: int| unslashed(s).len() <= i < s.len() implies #[trigger] s[i] == '/' by {
            if i < t.len() {
                assert(t[i] == s[i]);
            }
        }
    } else {
        assert(s.take(s.len() as int) =~= s);
    }
}

/// A status is a success where it is in the two hundreds. An object is missing
/// where it is a 404, and only there; a delete of a missing object succeeds.
/// Everything else is a refusal that names the request, the status and what
/// was said.
pub proof fn statuses_are_told_apart(path: Seq<char>, status: u16, shown: Seq<char>)
    ensures
        is_ok(status) <==> status / 100 == 2,
        read_as(path, status, shown) is None <==> status == 404,
        read_as(path, status, shown) == Some(Ok::<(), Seq<char>>(())) <==> 200 <= status <= 299,
        deleted_as(path, status, shown) is Ok <==> status == 404 || 200 <= status <= 299,
        status != 404 && !(200 <= status <= 299) ==> {
            let end = " "@ + path + ": "@ + text::decimal(status as nat) + " "@ + shown;
            &&& read_as(path, status, shown) == Some(Err::<(), Seq<char>>("GET"@ + end))
            &&& deleted_as(path, status, shown) == Err::<(), Seq<char>>("DELETE"@ + end)
        },
{
    let end = " "@ + path + ": "@ + text::decimal(status as nat) + " "@ + shown;
    assert(refusal_text("GET"@, path, status, shown) =~= "GET"@ + end);
    assert(refusal_text("DELETE"@, path, status, shown) =~= "DELETE"@ + end);
}

/// A refusal is told by the apiserver's message where there is one, and by the
/// whole body otherwise; no more than so many bytes of it are kept.
pub proof fn refusals_are_told_by_their_message(
    value: JsonTree,
    shown: Seq<char>,
    b: Seq<u8>,
    n: nat,
)
    ensures
        json::member(value, "message"@) matches JsonTree::Text(m) ==> message_in(value, shown) == m,
        !(json::member(value, "message"@) is Text) ==> message_in(value, shown) == shown,
        first_bytes(b, n as int).len() <= n,
        b.len() <= n ==> first_bytes(b, n as int) == b,
        b.len() >= n ==> first_bytes(b, n as int) == b.subrange(0, n as int),
{
    if b.len() >= n {
        assert(first_bytes(b, n as int) =~= b.subrange(0, n as int));
    }
}

/// The names of a list stand in its order; an object without a name is left
/// out.
pub proof fn names_stand_in_the_order_of_the_list(items: Seq<JsonTree>, o: JsonTree)
    ensures
        names_of(seq![]) == Seq::<Seq<char>>::empty(),
        json::member(json::member(o, "metadata"@), "name"@) matches JsonTree::Text(n) ==> names_of(
            items.push(o),
        ) == names_of(items).push(n),
        !(json::member(json::member(o, "metadata"@), "name"@) is Text) ==> names_of(items.push(o))
            == names_of(items),
{
    assert(items.push(o).drop_last() =~= items);
    assert(items.push(o).last() == o);
}

/// An object stands below its collection; the run's own objects are asked for
/// by the run's label; an address is the apiserver's and a path.
pub proof fn objects_stand_below_their_collections(api: Api, coll: Seq<char>, name: Seq<char>)
    ensures
        path_in(coll, name) == coll + ("/"@ + name),
        api.url_of(coll) == api.base@ + coll,
        api.mine_of(coll) == coll + ("?labelSelector=storm.io%2Ftest-run%3D"@ + api.run@),
        api.routes_path() == "/apis/gateway.networking.k8s.io/v1/namespaces/"@ + (api.ns@
            + "/httproutes"@),
        api.services_path() == "/api/v1/namespaces/"@ + (api.ns@ + "/services"@),
        api.endpoints_path() == "/api/v1/namespaces/"@ + (api.ns@ + "/endpoints"@),
{
    assert(path_in(coll, name) =~= coll + ("/"@ + name));
    assert(api.mine_of(coll) =~= coll + ("?labelSelector=storm.io%2Ftest-run%3D"@ + api.run@));
    assert(api.routes_path() =~= "/apis/gateway.networking.k8s.io/v1/namespaces/"@ + (api.ns@
        + "/httproutes"@));
    assert(api.services_path() =~= "/api/v1/namespaces/"@ + (api.ns@ + "/services"@));
    assert(api.endpoints_path() =~= "/api/v1/namespaces/"@ + (api.ns@ + "/endpoints"@));
}

/// An object is the node where its name is the node's, or one of its addresses
/// is.
pub proof fn a_node_goes_by_its_name_or_an_address(n: JsonTree, node: Seq<char>)
    ensures
        ({
            let name = json::member(json::member(n, "metadata"@), "name"@);
            let addresses = json::elements(json::member(json::member(n, "status"@), "addresses"@));
            is_node(n, node) <==> name == JsonTree::Text(node) || exists|i: int|
                0 <= i < addresses.len() && json::member(#[trigger] addresses[i], "address"@)
                    == JsonTree::Text(node)
        }),
{
    let addresses = json::elements(json::member(json::member(n, "status"@), "addresses"@));
    if addressed(addresses, node) {
        let i = choose|i: int|
            0 <= i < addresses.len() && json::text_in(
                json::member(#[trigger] addresses[i], "address"@),
            ) == Some(node);
        assert(json::member(addresses[i], "address"@) == JsonTree::Text(node));
    }
    if exists|i: int|
        0 <= i < addresses.len() && json::member(#[trigger] addresses[i], "address"@)
            == JsonTree::Text(node) {
        let i = choose|i: int|
            0 <= i < addresses.len() && json::member(#[trigger] addresses[i], "address"@)
                == JsonTree::Text(node);
        assert(json::text_in(json::member(addresses[i], "address"@)) == Some(node));
    }
}

/// The node is the first object that is it; where none is, it is the only
/// object, and no node where there are others.
pub proof fn the_node_is_the_first_that_is_it(items: Seq<JsonTree>, node: Seq<char>, i: int)
    requires
        0 <= i <= items.len(),
        forall|j: int| 0 <= j < i ==> !is_node(#[trigger] items[j], node),
    ensures
        i < items.len() && is_node(items[i], node) ==> node_among(items, node) == Some(items[i]),
        i == items.len() && i == 1 ==> node_among(items, node) == Some(items[0]),
        i == items.len() && i != 1 ==> node_among(items, node) is None,
{
    lemma_node_at(items, node, i);
}

proof fn lemma_node_at(items: Seq<JsonTree>, node: Seq<char>, i: int)
    requires
        0 <= i <= items.len(),
        forall|j: int| 0 <= j < i ==> !is_node(#[trigger] items[j], node),
    ensures
        i < items.len() && is_node(items[i], node) ==> node_at(items, node) == Some(items[i]),
        i == items.len() ==> node_at(items, node) is None,
    decreases items.len(),
{
    if i > 0 {
        let t = items.drop_first();
        assert(!is_node(items[0], node));
        assert forall|j: int| 0 <= j < i - 1 implies !is_node(#[trigger] t[j], node) by {
            assert(t[j] == items[j + 1]);
        }
        lemma_node_at(t, node, i - 1);
        if i < items.len() {
            assert(t[i - 1] == items[i]);
        }
    }
}

/// A quantity that ends in `m` is in thousandths of a CPU, any other is in
/// whole ones; parts are cut off, but a node has one CPU at least.
pub proof fn quantities_are_whole_cpus(d: Seq<char>, n: nat, q: Seq<char>, whole: Option<u64>)
    ensures
        text::number(d, u64::MAX as nat) == Some(n) ==> (cpus_of(d + seq!['m'], whole) matches Some(k)
            && k >= 1 && (n >= 1000 ==> 1000 * k <= n < 1000 * k + 1000) && (n < 1000 ==> k == 1)),
        text::number(d, u64::MAX as nat) is None ==> cpus_of(d + seq!['m'], whole) is None,
        q.len() == 0 || q.last() != 'm' ==> {
            &&& cpus_of(q, None) is None
            &&& whole matches Some(k) ==> cpus_of(q, whole) == Some(
                if k >= 1 {
                    k
                } else {
                    1
                },
            )
        },
{
    let s = d + seq!['m'];
    assert(s.last() == 'm');
    assert(s.drop_last() =~= d);
    if text::number(d, u64::MAX as nat) == Some(n) {
        assert(n <= u64::MAX);
        assert((n / 1000) as u64 == n / 1000);
    }
}

/// A node's CPUs are those of its quantity, under its name or a question mark;
/// without a node, without a quantity or with one that cannot be read there
/// are none.
pub proof fn a_node_has_the_cpus_of_its_quantity(
    list: JsonTree,
    node: Seq<char>,
    whole: Option<u64>,
)
    ensures
        ({
            let found = node_among(json::elements(json::member(list, "items"@)), node);
            let cpu = json::member(
                json::member(json::member(found->0, "status"@), "allocatable"@),
                "cpu"@,
            );
            let name = json::member(json::member(found->0, "metadata"@), "name"@);
            &&& found is None ==> node_cpus_of(list, node, whole) is Err && quantity_in(
                list,
                node,
            ) is None
            &&& found is Some && !(cpu is Text) ==> node_cpus_of(list, node, whole) is Err
                && quantity_in(list, node) is None
            &&& found is Some ==> (cpu matches JsonTree::Text(q) ==> {
                &&& quantity_in(list, node) == Some(q)
                &&& cpus_of(q, whole) is None ==> node_cpus_of(list, node, whole) is Err
                &&& cpus_of(q, whole) matches Some(k) ==> (node_cpus_of(list, node, whole) matches Ok(
                    x,
                ) && x.0 == k && (name matches JsonTree::Text(s) ==> x.1 == s) && (!(name is Text)
                    ==> x.1 == "?"@))
            })
        }),
{
}

/// A route that is made is an HTTPRoute of the gateway API; annotations can be
/// given to it, as to anything that has members or is not there.
pub proof fn routes_are_of_the_gateway_api(
    api: Api,
    name: Seq<char>,
    hosts: Seq<Seq<char>>,
    backend: Option<Seq<char>>,
    svc: Option<(Seq<char>, u16)>,
    route: JsonTree,
)
    ensures
        ({
            let r = api.route_tree(name, hosts, backend, svc);
            &&& json::member(r, "apiVersion"@) == JsonTree::Text("gateway.networking.k8s.io/v1"@)
            &&& json::member(r, "kind"@) == JsonTree::Text("HTTPRoute"@)
        }),
        takes_annotations(route) <==> (route is Object || route is Null) && (json::member(
            route,
            "metadata"@,
        ) is Object || json::member(route, "metadata"@) is Null),
{
    lemma_keys();
    lemma_entries(json::pairs(api.route_tree(name, hosts, backend, svc)));
    reveal_strlit("apiVersion");
    reveal_strlit("kind");
    assert("apiVersion"@[0] == 'a' && "kind"@[0] == 'k');
}

/// Why a node has no CPUs to be had: it is not listed, says none, or says
/// something that cannot be read.
pub proof fn a_node_without_cpus_says_why(list: JsonTree, node: Seq<char>, n: JsonTree, q: Seq<char>)
    ensures
        node_among(items_of(list), node) is None ==> node_cpus_of(list, node, None) == Err::<
            (u64, Seq<char>),
            Seq<char>,
        >(
            "no node named or addressed "@ + text::quoted(node) + " among "@ + text::decimal(
                json::elements(json::member(list, "items"@)).len(),
            ),
        ),
        node_among(items_of(list), node) == Some(n) && node_quantity(n) is None ==> node_cpus_of(
            list,
            node,
            None,
        ) == Err::<(u64, Seq<char>), Seq<char>>(
            "node "@ + node_name(n) + " has no allocatable cpu"@,
        ),
        node_among(items_of(list), node) == Some(n) && node_quantity(n) == Some(q) && cpus_of(
            q,
            None,
        ) is None ==> node_cpus_of(list, node, None) == Err::<(u64, Seq<char>), Seq<char>>(
            "node "@ + node_name(n) + ": allocatable cpu "@ + text::quoted(q),
        ),
{
}

} // verus!
