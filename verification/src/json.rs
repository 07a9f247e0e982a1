//! JSON values, as far as the rules read them.

use crate::text;
use vstd::prelude::*;
use vstd::utf8::*;

verus! {

/// A JSON value.
pub enum Json {
    Null,
    Bool(bool),
    /// A number as it is written, and its value where it is a whole one that
    /// fits.
    Number(String, Option<u64>),
    Text(String),
    Array(Vec<Json>),
    Object(Vec<(String, Json)>),
}

/// What a JSON value holds.
pub enum JsonTree {
    Null,
    Bool(bool),
    Number(Seq<char>, Option<u64>),
    Text(Seq<char>),
    Array(Seq<JsonTree>),
    Object(Seq<(Seq<char>, JsonTree)>),
}

impl View for Json {
    type V = JsonTree;

    open spec fn view(&self) -> JsonTree {
        self.tree()
    }
}

impl Json {
    /// What this value holds.
    pub open spec fn tree(self) -> JsonTree
        decreases self,
    {
        match self {
            Json::Null => JsonTree::Null,
            Json::Bool(b) => JsonTree::Bool(b),
            Json::Number(t, n) => JsonTree::Number(t@, n),
            Json::Text(s) => JsonTree::Text(s@),
            Json::Array(a) => JsonTree::Array(
                Seq::new(
                    a@.len(),
                    |i: int|
                        if 0 <= i < a@.len() {
                            a@[i].tree()
                        } else {
                            JsonTree::Null
                        },
                ),
            ),
            Json::Object(m) => JsonTree::Object(
                Seq::new(
                    m@.len(),
                    |i: int|
                        if 0 <= i < m@.len() {
                            (m@[i].0@, m@[i].1.tree())
                        } else {
                            (seq![], JsonTree::Null)
                        },
                ),
            ),
        }
    }
}

/// What stands at an optional value: nothing is `Null`.
pub open spec fn tree_of(j: Option<&Json>) -> JsonTree {
    match j {
        Some(v) => v@,
        None => JsonTree::Null,
    }
}

/// The first entry under `key`, or `Null`.
pub open spec fn entry(m: Seq<(Seq<char>, JsonTree)>, key: Seq<char>) -> JsonTree
    decreases m.len(),
{
    if m.len() == 0 {
        JsonTree::Null
    } else if m[0].0 == key {
        m[0].1
    } else {
        entry(m.drop_first(), key)
    }
}

/// The member `key` of an object; `Null` where there is none, or no object.
pub open spec fn member(t: JsonTree, key: Seq<char>) -> JsonTree {
    match t {
        JsonTree::Object(m) => entry(m, key),
        _ => JsonTree::Null,
    }
}

/// The elements of an array; none where it is no array.
pub open spec fn elements(t: JsonTree) -> Seq<JsonTree> {
    match t {
        JsonTree::Array(a) => a,
        _ => seq![],
    }
}

/// The members of an object; none where it is no object.
pub open spec fn pairs(t: JsonTree) -> Seq<(Seq<char>, JsonTree)> {
    match t {
        JsonTree::Object(m) => m,
        _ => seq![],
    }
}

/// The first element of an array, or `Null`.
pub open spec fn first_element(t: JsonTree) -> JsonTree {
    if elements(t).len() > 0 {
        elements(t)[0]
    } else {
        JsonTree::Null
    }
}

/// The text of a value, where it is one.
pub open spec fn text_in(t: JsonTree) -> Option<Seq<char>> {
    match t {
        JsonTree::Text(s) => Some(s),
        _ => None,
    }
}

/// The number of a value, where it is a whole one.
pub open spec fn number_in(t: JsonTree) -> Option<u64> {
    match t {
        JsonTree::Number(_, n) => n,
        _ => None,
    }
}

/// The member `key` of `j`.
pub fn get<'a>(j: Option<&'a Json>, key: &str) -> (r: Option<&'a Json>)
    ensures
        tree_of(r) == member(tree_of(j), key@),
{
    match j {
        Some(Json::Object(m)) => {
            let ghost all = match j.unwrap()@ {
                JsonTree::Object(x) => x,
                _ => seq![],
            };
            assert(all.len() == m@.len());
            assert(all.skip(0) =~= all);
            let mut i: usize = 0;
            while i < m.len()
                invariant
                    i <= m@.len(),
                    tree_of(j) == JsonTree::Object(all),
                    all.len() == m@.len(),
                    forall|k: int|
                        0 <= k < m@.len() ==> #[trigger] all[k] == (m@[k].0@, m@[k].1.tree()),
                    entry(all, key@) == entry(all.skip(i as int), key@),
                decreases m.len() - i,
            {
                assert(all.skip(i as int)[0] == all[i as int]);
                if text::same(m[i].0.as_str(), key) {
                    return Some(&m[i].1);
                }
                assert(all.skip(i as int).drop_first() =~= all.skip(i + 1));
                i += 1;
            }
            None
        },
        _ => None,
    }
}

/// The elements of `j`, where it is an array.
pub fn array<'a>(j: Option<&'a Json>) -> (r: Option<&'a Vec<Json>>)
    ensures
        match r {
            Some(v) => {
                &&& v@.len() == elements(tree_of(j)).len()
                &&& forall|i: int| 0 <= i < v@.len() ==> (#[trigger] v@[i])@ == elements(tree_of(j))[i]
            },
            None => elements(tree_of(j)).len() == 0,
        },
{
    match j {
        Some(Json::Array(a)) => Some(a),
        _ => None,
    }
}

/// The first element of `j`.
pub fn first<'a>(j: Option<&'a Json>) -> (r: Option<&'a Json>)
    ensures
        tree_of(r) == first_element(tree_of(j)),
{
    match array(j) {
        Some(a) => if a.len() > 0 {
            Some(&a[0])
        } else {
            None
        },
        None => None,
    }
}

/// The text of `j`, where it is one.
pub fn as_text<'a>(j: Option<&'a Json>) -> (r: Option<&'a str>)
    ensures
        text::opt_str(r) == text_in(tree_of(j)),
{
    match j {
        Some(Json::Text(s)) => Some(s.as_str()),
        _ => None,
    }
}

/// The number of `j`, where it is a whole one.
pub fn as_number(j: Option<&Json>) -> (r: Option<u64>)
    ensures
        r == number_in(tree_of(j)),
{
    match j {
        Some(Json::Number(_, n)) => *n,
        _ => None,
    }
}

// ---------------------------------------------------------------------------
// Making values
// ---------------------------------------------------------------------------

/// What some values hold.
pub open spec fn trees(v: Seq<Json>) -> Seq<JsonTree> {
    Seq::new(v.len(), |i: int| v[i]@)
}

/// What some members hold.
pub open spec fn members(v: Seq<(String, Json)>) -> Seq<(Seq<char>, JsonTree)> {
    Seq::new(v.len(), |i: int| (v[i].0@, v[i].1@))
}

/// A text as a value.
pub fn text_value(s: &str) -> (r: Json)
    ensures
        r@ == JsonTree::Text(s@),
{
    Json::Text(String::from_str(s))
}

/// A whole number as a value holds it.
pub open spec fn whole(n: u64) -> JsonTree {
    JsonTree::Number(text::decimal(n as nat), Some(n))
}

/// A whole number as a value.
pub fn number_value(n: u64) -> (r: Json)
    ensures
        r@ == whole(n),
{
    Json::Number(text::decimal_text(n as u128), Some(n))
}

/// A list of values.
pub fn list_value(v: Vec<Json>) -> (r: Json)
    ensures
        r@ == JsonTree::Array(trees(v@)),
{
    let ghost s = v@;
    let r = Json::Array(v);
    assert(elements(r@) =~= trees(s));
    r
}

/// An object of some members.
pub fn object_value(v: Vec<(String, Json)>) -> (r: Json)
    ensures
        r@ == JsonTree::Object(members(v@)),
{
    let ghost s = v@;
    let r = Json::Object(v);
    assert(pairs(r@) =~= members(s));
    r
}

// ---------------------------------------------------------------------------
// Changing values
// ---------------------------------------------------------------------------

/// Where the first entry under `key` stands; the length where there is none.
pub open spec fn place(m: Seq<(Seq<char>, JsonTree)>, key: Seq<char>) -> nat
    decreases m.len(),
{
    if m.len() == 0 || m[0].0 == key {
        0
    } else {
        1 + place(m.drop_first(), key)
    }
}

/// Entries with `v` under `key`: in the place of the first one under it, or
/// behind the others where there is none.
pub open spec fn with_entry(
    m: Seq<(Seq<char>, JsonTree)>,
    key: Seq<char>,
    v: JsonTree,
) -> Seq<(Seq<char>, JsonTree)> {
    let i = place(m, key) as int;
    if i < m.len() {
        m.update(i, (key, v))
    } else {
        m.push((key, v))
    }
}

/// An object with `v` as its member `key`; `Null` is an object without
/// members.
pub open spec fn with_member(t: JsonTree, key: Seq<char>, v: JsonTree) -> JsonTree {
    JsonTree::Object(with_entry(pairs(t), key, v))
}

/// Whether a value can be given members: an object, or `Null`.
pub open spec fn takes_members(t: JsonTree) -> bool {
    t is Object || t is Null
}

/// Whether `j` can be given members.
pub fn is_open(j: Option<&Json>) -> (r: bool)
    ensures
        r == takes_members(tree_of(j)),
{
    match j {
        None => true,
        Some(Json::Null) => true,
        Some(Json::Object(_)) => true,
        _ => false,
    }
}

/// What the first entry under `key` is, by its place.
pub proof fn lemma_place(m: Seq<(Seq<char>, JsonTree)>, key: Seq<char>)
    ensures
        place(m, key) <= m.len(),
        forall|i: int| 0 <= i < place(m, key) ==> (#[trigger] m[i]).0 != key,
        place(m, key) < m.len() ==> m[place(m, key) as int].0 == key,
        entry(m, key) == (if place(m, key) < m.len() {
            m[place(m, key) as int].1
        } else {
            JsonTree::Null
        }),
    decreases m.len(),
{
    if m.len() > 0 && m[0].0 != key {
        let t = m.drop_first();
        lemma_place(t, key);
        assert forall|i: int| 0 <= i < place(m, key) implies (#[trigger] m[i]).0 != key by {
            if i > 0 {
                assert(t[i - 1] == m[i]);
            }
        }
    }
}

/// The place that has the properties of `place` is `place`.
proof fn lemma_place_is(m: Seq<(Seq<char>, JsonTree)>, key: Seq<char>, k: int)
    requires
        0 <= k <= m.len(),
        forall|i: int| 0 <= i < k ==> (#[trigger] m[i]).0 != key,
        k < m.len() ==> m[k].0 == key,
    ensures
        place(m, key) == k,
{
    lemma_place(m, key);
    let p = place(m, key) as int;
    if p < k {
        assert(m[p].0 != key);
    }
}

/// A changed member is read back, and no other is changed.
pub proof fn changing_a_member_leaves_the_others(
    t: JsonTree,
    key: Seq<char>,
    v: JsonTree,
    other: Seq<char>,
)
    requires
        takes_members(t),
    ensures
        member(with_member(t, key, v), key) == v,
        other != key ==> member(with_member(t, key, v), other) == member(t, other),
{
    let m = pairs(t);
    let w = with_entry(m, key, v);
    let p = place(m, key) as int;
    lemma_place(m, key);
    lemma_place(w, key);
    assert forall|i: int| 0 <= i < p implies (#[trigger] w[i]).0 != key by {
        assert(w[i] == m[i]);
    }
    lemma_place_is(w, key, p);
    if other != key {
        lemma_place(m, other);
        lemma_place(w, other);
        let q = place(m, other) as int;
        assert forall|i: int| 0 <= i < q implies (#[trigger] w[i]).0 != other by {
            if i < m.len() && i != p {
                assert(w[i] == m[i]);
            }
        }
        if q < m.len() {
            assert(w[q] == m[q]);
            lemma_place_is(w, other, q);
        } else {
            lemma_place_is(w, other, w.len() as int);
        }
    }
}

/// `j` with `v` as its member `key`.
pub fn set_member(j: Json, key: &str, v: Json) -> (r: Json)
    requires
        takes_members(j@),
    ensures
        r@ == with_member(j@, key@, v@),
{
    let ghost all = pairs(j@);
    let ghost value = v@;
    let mut m: Vec<(String, Json)> = match j {
        Json::Object(m) => m,
        _ => Vec::new(),
    };
    assert(members(m@) =~= all);
    let mut i: usize = 0;
    while i < m.len() && !text::same(m[i].0.as_str(), key)
        invariant
            i <= m@.len(),
            all == members(m@),
            forall|k: int| 0 <= k < i ==> (#[trigger] all[k]).0 != key@,
        decreases m.len() - i,
    {
        i += 1;
    }
    proof {
        lemma_place_is(all, key@, i as int);
    }
    if i < m.len() {
        m.set(i, (String::from_str(key), v));
    } else {
        m.push((String::from_str(key), v));
    }
    assert(members(m@) =~= with_entry(all, key@, value));
    object_value(m)
}

/// The member `key` of `j`, taken out of it; `Null` where there is none.
pub fn take_member(j: Json, key: &str) -> (r: (Json, Json))
    requires
        takes_members(j@),
    ensures
        r.1@ == member(j@, key@),
        takes_members(r.0@),
        forall|v: JsonTree| #[trigger] with_member(r.0@, key@, v) == with_member(j@, key@, v),
{
    let ghost all = pairs(j@);
    let mut m: Vec<(String, Json)> = match j {
        Json::Object(m) => m,
        _ => Vec::new(),
    };
    assert(members(m@) =~= all);
    let mut i: usize = 0;
    while i < m.len() && !text::same(m[i].0.as_str(), key)
        invariant
            i <= m@.len(),
            all == members(m@),
            forall|k: int| 0 <= k < i ==> (#[trigger] all[k]).0 != key@,
        decreases m.len() - i,
    {
        i += 1;
    }
    proof {
        lemma_place_is(all, key@, i as int);
        lemma_place(all, key@);
    }
    if i == m.len() {
        return (object_value(m), Json::Null);
    }
    let (k, old) = m.remove(i);
    m.insert(i, (k, Json::Null));
    let ghost left = members(m@);
    proof {
        assert(left =~= all.update(i as int, (key@, JsonTree::Null)));
        lemma_place_is(left, key@, i as int);
        assert forall|v: JsonTree|
            #[trigger] with_entry(left, key@, v) == with_entry(all, key@, v) by {
            assert(with_entry(left, key@, v) =~= with_entry(all, key@, v));
        }
    }
    (object_value(m), old)
}

// ---------------------------------------------------------------------------
// Reading JSON
// ---------------------------------------------------------------------------

/// The parser's own value type.
#[verifier::external_type_specification]
#[verifier::external_body]
pub struct ExValue(serde_json::Value);

/// The parser's error.
#[verifier::external_type_specification]
#[verifier::external_body]
pub struct ExError(serde_json::Error);

/// What a value of the parser holds.
pub uninterp spec fn value_tree(v: serde_json::Value) -> JsonTree;

/// What some bytes are as JSON; nothing where they are not JSON.
pub uninterp spec fn json_bytes(b: Seq<u8>) -> Option<JsonTree>;

/// Calls `serde_json::from_slice` for a `serde_json::Value`. The contract
/// names the outcome: whether the bytes are JSON, and what they then hold,
/// follows from the bytes alone.
#[verifier::external_body]
fn read_value(b: &[u8]) -> (r: Result<serde_json::Value, serde_json::Error>)
    ensures
        match r {
            Ok(v) => json_bytes(b@) == Some(value_tree(v)),
            Err(_) => json_bytes(b@) is None,
        },
{
    serde_json::from_slice(b)
}

/// Takes a `serde_json::Value` apart, variant by variant, with
/// `serde_json::Number::to_string` and `serde_json::Number::as_u64` for the
/// numbers. The contract says that the result holds what the value holds.
#[verifier::external_body]
fn open_value(v: serde_json::Value) -> (r: Json)
    ensures
        r@ == value_tree(v),
{
    match v {
        serde_json::Value::Null => Json::Null,
        serde_json::Value::Bool(b) => Json::Bool(b),
        serde_json::Value::Number(n) => Json::Number(n.to_string(), n.as_u64()),
        serde_json::Value::String(s) => Json::Text(s),
        serde_json::Value::Array(a) => Json::Array(a.into_iter().map(open_value).collect()),
        serde_json::Value::Object(m) => Json::Object(m.into_iter().map(|(k, x)| (k, open_value(x))).collect()),
    }
}

/// Calls `serde_json::Value::from` for a text. The contract says that the
/// value is that text.
#[verifier::external_body]
fn value_of_text(s: &str) -> (r: serde_json::Value)
    ensures
        value_tree(r) == JsonTree::Text(s@),
{
    serde_json::Value::from(s)
}

/// Calls `index` on a `serde_json::Value` with a key. The contract says that
/// this is the member under the key, or `Null` where there is none or the
/// value is no object.
#[verifier::external_body]
fn value_member<'a>(v: &'a serde_json::Value, key: &str) -> (r: &'a serde_json::Value)
    ensures
        value_tree(*r) == member(value_tree(*v), key@),
{
    &v[key]
}

/// What a value is as JSON on one line.
pub uninterp spec fn json_text(t: JsonTree) -> Seq<char>;

/// A hexadecimal digit, in lower case.
pub open spec fn hex_digit(n: u32) -> char {
    if n < 10 {
        ('0' as u32 + n) as char
    } else {
        ('a' as u32 + n - 10) as char
    }
}

/// How a character is written in a JSON text: quotes, backslashes and control
/// characters are escaped.
pub open spec fn json_char(c: char) -> Seq<char> {
    let n = c as u32;
    if c == '"' || c == '\\' {
        seq!['\\', c]
    } else if n == 8 {
        seq!['\\', 'b']
    } else if n == 9 {
        seq!['\\', 't']
    } else if n == 10 {
        seq!['\\', 'n']
    } else if n == 12 {
        seq!['\\', 'f']
    } else if n == 13 {
        seq!['\\', 'r']
    } else if n < 32 {
        seq!['\\', 'u', '0', '0', hex_digit(n / 16), hex_digit(n % 16)]
    } else {
        seq![c]
    }
}

/// How characters are written in a JSON text.
pub open spec fn json_chars(s: Seq<char>) -> Seq<char>
    decreases s.len(),
{
    if s.len() == 0 {
        seq![]
    } else {
        json_chars(s.drop_last()) + json_char(s.last())
    }
}

/// A text as JSON: in quotes, with escapes.
pub open spec fn json_quoted(s: Seq<char>) -> Seq<char> {
    seq!['"'] + json_chars(s) + seq!['"']
}

/// Calls `serde_json::Value::to_string`. The contract names its result, which
/// follows from what the value holds, and says what is printed for a text: it
/// stands in quotes, character by character, with the escapes of JSON where it
/// needs them.
#[verifier::external_body]
fn print_value(v: &serde_json::Value) -> (r: String)
    ensures
        r@ == json_text(value_tree(*v)),
        value_tree(*v) matches JsonTree::Text(s) ==> r@ == json_quoted(s),
{
    v.to_string()
}

/// A text as JSON.
pub fn quote(s: &str) -> (r: String)
    ensures
        r@ == json_quoted(s@),
{
    print_value(&value_of_text(s))
}

/// What a text holds as JSON; the text itself where it is not JSON.
pub open spec fn tree_or_text(s: Seq<char>) -> JsonTree {
    match json_bytes(encode_utf8(s)) {
        Some(t) => t,
        None => JsonTree::Text(s),
    }
}

/// Reads JSON, or takes a text that is none as it stands.
fn read_or_text(s: &str) -> (r: serde_json::Value)
    ensures
        value_tree(r) == tree_or_text(s@),
{
    match read_value(s.as_bytes()) {
        Ok(v) => v,
        Err(_) => value_of_text(s),
    }
}

/// Reads JSON, or takes a text that is none as it stands: what it holds, and
/// the same as JSON on one line.
pub fn read_shown(s: &str) -> (r: (Json, String))
    ensures
        r.0@ == tree_or_text(s@),
        r.1@ == json_text(tree_or_text(s@)),
{
    let v = read_or_text(s);
    let shown = print_value(&v);
    (open_value(v), shown)
}

/// The member `key` of what a text holds, as JSON on one line.
pub fn member_shown(s: &str, key: &str) -> (r: String)
    ensures
        r@ == json_text(member(tree_or_text(s@), key@)),
{
    let v = read_or_text(s);
    print_value(value_member(&v, key))
}

/// Reads JSON. `None` where the bytes are not JSON.
pub fn parse(b: &[u8]) -> (r: Option<Json>)
    ensures
        match r {
            Some(j) => json_bytes(b@) == Some(j@),
            None => json_bytes(b@) is None,
        },
{
    match read_value(b) {
        Ok(v) => Some(open_value(v)),
        Err(_) => None,
    }
}

/// A text as JSON is one line, whatever the text holds: there is no control
/// character in it.
pub proof fn quoted_texts_are_one_line(s: Seq<char>)
    ensures
        forall|i: int| 0 <= i < json_quoted(s).len() ==> (#[trigger] json_quoted(s)[i]) as u32 >= 32,
{
    lemma_no_control(s);
}

proof fn lemma_no_control(s: Seq<char>)
    ensures
        forall|i: int| 0 <= i < json_chars(s).len() ==> (#[trigger] json_chars(s)[i]) as u32 >= 32,
    decreases s.len(),
{
    if s.len() > 0 {
        let t = json_chars(s.drop_last());
        let e = json_char(s.last());
        lemma_no_control(s.drop_last());
        assert forall|i: int| 0 <= i < json_chars(s).len() implies (#[trigger] json_chars(
            s,
        )[i]) as u32 >= 32 by {
            if i < t.len() {
                assert(json_chars(s)[i] == t[i]);
            } else {
                assert(json_chars(s)[i] == e[i - t.len()]);
            }
        }
    }
}

/// A member of an object is the value of the first entry under its key; there
/// is none without such an entry, or without an object.
pub proof fn a_member_is_the_first_entry_under_its_key(
    m: Seq<(Seq<char>, JsonTree)>,
    key: Seq<char>,
    i: int,
)
    ensures
        0 <= i < m.len() && m[i].0 == key && (forall|j: int|
            0 <= j < i ==> (#[trigger] m[j]).0 != key) ==> member(JsonTree::Object(m), key) == m[i].1,
        (forall|j: int| 0 <= j < m.len() ==> (#[trigger] m[j]).0 != key) ==> member(
            JsonTree::Object(m),
            key,
        ) == JsonTree::Null,
{
    lemma_place(m, key);
    let p = place(m, key) as int;
    if 0 <= i < m.len() && m[i].0 == key && forall|j: int| 0 <= j < i ==> (#[trigger] m[j]).0 != key {
        lemma_place_is(m, key, i);
    }
    if forall|j: int| 0 <= j < m.len() ==> (#[trigger] m[j]).0 != key {
        if p < m.len() {
            assert(m[p].0 != key);
        }
    }
}

/// What a value that is something else holds is nothing: a text has no
/// members, an object no elements, a number is no text.
pub proof fn values_hold_what_they_are(t: JsonTree, key: Seq<char>)
    ensures
        !(t is Object) ==> member(t, key) == JsonTree::Null,
        t matches JsonTree::Array(a) ==> elements(t) == a && (a.len() > 0 ==> first_element(t)
            == a[0]),
        !(t is Array) ==> elements(t).len() == 0,
        elements(t).len() == 0 ==> first_element(t) == JsonTree::Null,
        t matches JsonTree::Text(s) ==> text_in(t) == Some(s),
        !(t is Text) ==> text_in(t) is None,
        t matches JsonTree::Number(_, n) ==> number_in(t) == n,
        !(t is Number) ==> number_in(t) is None,
{
}

/// A character of a JSON text can be told from how it is written: two
/// characters are never written in the same way.
pub proof fn characters_are_told_apart_in_json(c: char, d: char)
    requires
        json_char(c) == json_char(d),
    ensures
        c == d,
{
    let a = json_char(c);
    let b = json_char(d);
    assert(a.len() == b.len());
    assert(a[0] == b[0]);
    if a.len() > 1 {
        assert(a[1] == b[1]);
    }
    if a.len() > 2 {
        assert(a[4] == b[4] && a[5] == b[5]);
        let m = c as u32;
        let n = d as u32;
        assert(m / 16 == n / 16);
        assert(m % 16 == n % 16);
        assert(m == n);
    }
}

/// How a text is written: between quotes, one character after the other. Every
/// character from the space on stands for itself but the quote and the
/// backslash, which have a backslash before them; the five that have a letter
/// of their own are written with it, and the other control characters by their
/// number in hexadecimal.
pub proof fn characters_stand_for_themselves_or_are_escaped(s: Seq<char>, c: char)
    ensures
        json_quoted(seq![]) == seq!['"', '"'],
        json_quoted(s.push(c)) == json_quoted(s).drop_last() + json_char(c) + seq!['"'],
        c as u32 >= 32 && c != '"' && c != '\\' ==> json_char(c) == seq![c],
        c == '"' || c == '\\' ==> json_char(c) == seq!['\\', c],
        c as u32 == 8 ==> json_char(c) == seq!['\\', 'b'],
        c == '\t' ==> json_char(c) == seq!['\\', 't'],
        c == '\n' ==> json_char(c) == seq!['\\', 'n'],
        c as u32 == 12 ==> json_char(c) == seq!['\\', 'f'],
        c == '\r' ==> json_char(c) == seq!['\\', 'r'],
        c as u32 == 0 ==> json_char(c) == seq!['\\', 'u', '0', '0', '0', '0'],
        c as u32 == 31 ==> json_char(c) == seq!['\\', 'u', '0', '0', '1', 'f'],
        (c as u32) < 32 ==> json_char(c)[0] == '\\' && json_char(c).len() >= 2,
{
    assert(s.push(c).drop_last() =~= s);
    let none: Seq<char> = seq![];
    assert(json_quoted(none) =~= seq!['"', '"']);
    assert(json_quoted(s).drop_last() =~= seq!['"'] + json_chars(s));
    assert(json_quoted(s.push(c)) =~= json_quoted(s).drop_last() + json_char(c) + seq!['"']);
}

} // verus!
