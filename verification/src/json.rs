//! JSON: trees that replies are made of, and reading members out of a body.

use vstd::prelude::*;

use crate::message::opt_text;
use crate::text::{decimal, joined, to_decimal};

verus! {

// ---------------------------------------------------------------------------
// Trees
// ---------------------------------------------------------------------------

/// A JSON value to be sent. A single-precision number is kept as its bit
/// pattern.
pub enum Json {
    Bool(bool),
    Number(u64),
    Single(u32),
    Text(String),
    List(Vec<Json>),
    Object(Vec<(String, Json)>),
}

/// What a [`Json`] holds; the members of an object in the order in which they
/// were added.
pub enum JsonView {
    Bool(bool),
    Number(u64),
    Single(u32),
    Text(Seq<char>),
    List(Seq<JsonView>),
    Object(Seq<(Seq<char>, JsonView)>),
}

impl JsonView {
    /// An object without members.
    pub open spec fn object() -> JsonView {
        JsonView::Object(seq![])
    }

    /// An object with one more member.
    pub open spec fn with(self, key: Seq<char>, value: JsonView) -> JsonView {
        match self {
            JsonView::Object(members) => JsonView::Object(members.push((key, value))),
            _ => self,
        }
    }

    /// An object with one more text member.
    pub open spec fn with_text(self, key: Seq<char>, value: Seq<char>) -> JsonView {
        self.with(key, JsonView::Text(value))
    }

    /// Whether the tree is an object that has a value under a key, and no
    /// other value under it.
    pub open spec fn has(self, key: Seq<char>, value: JsonView) -> bool {
        &&& self is Object
        &&& exists|i: int|
            0 <= i < self->Object_0.len() && #[trigger] self->Object_0[i] == (key, value)
        &&& forall|i: int|
            0 <= i < self->Object_0.len() && (#[trigger] self->Object_0[i]).0 == key
                ==> self->Object_0[i].1 == value
    }

    /// Whether the tree is an object without a key.
    pub open spec fn lacks(self, key: Seq<char>) -> bool {
        &&& self is Object
        &&& forall|i: int| 0 <= i < self->Object_0.len() ==> (#[trigger] self->Object_0[i]).0 != key
    }
}

/// A new member is had under its key, and the other keys are had or lacked as
/// before.
pub proof fn lemma_with(tree: JsonView, key: Seq<char>, value: JsonView)
    requires
        tree is Object,
    ensures
        tree.with(key, value) is Object,
        tree.lacks(key) || tree == JsonView::object() ==> tree.with(key, value).has(key, value),
        forall|k: Seq<char>, v: JsonView|
            k != key && tree.has(k, v) ==> #[trigger] tree.with(key, value).has(k, v),
        forall|k: Seq<char>|
            k != key && (tree.lacks(k) || tree == JsonView::object()) ==> #[trigger] tree.with(
                key,
                value,
            ).lacks(k),
{
    let old_members = tree->Object_0;
    let members = tree.with(key, value)->Object_0;
    assert(members[old_members.len() as int] == (key, value));
    assert forall|k: Seq<char>, v: JsonView| k != key && tree.has(k, v) implies #[trigger] tree.with(
        key,
        value,
    ).has(k, v) by {
        let i = choose|i: int|
            0 <= i < old_members.len() && #[trigger] old_members[i] == (k, v);
        assert(members[i] == (k, v));
    }
}

impl Json {
    /// What the tree holds.
    pub open spec fn tree(self) -> JsonView
        decreases self,
    {
        match self {
            Json::Bool(b) => JsonView::Bool(b),
            Json::Number(n) => JsonView::Number(n),
            Json::Single(bits) => JsonView::Single(bits),
            Json::Text(s) => JsonView::Text(s@),
            Json::List(items) => JsonView::List(
                Seq::new(
                    items@.len(),
                    |i: int|
                        if 0 <= i < items@.len() {
                            items@[i].tree()
                        } else {
                            arbitrary()
                        },
                ),
            ),
            Json::Object(members) => JsonView::Object(
                Seq::new(
                    members@.len(),
                    |i: int|
                        if 0 <= i < members@.len() {
                            (members@[i].0@, members@[i].1.tree())
                        } else {
                            arbitrary()
                        },
                ),
            ),
        }
    }
}

impl View for Json {
    type V = JsonView;

    open spec fn view(&self) -> JsonView {
        self.tree()
    }
}

/// What the trees of a list hold.
pub open spec fn json_views(items: Seq<Json>) -> Seq<JsonView> {
    items.map_values(|j: Json| j@)
}

impl Json {
    /// An object without members.
    pub fn object() -> (r: Json)
        ensures
            r@ == JsonView::object(),
    {
        let r = Json::Object(Vec::new());
        assert(r@->Object_0 =~= seq![]);
        r
    }

    /// An object with one more member.
    pub fn with(self, key: &str, value: Json) -> (r: Json)
        ensures
            r@ == self@.with(key@, value@),
    {
        match self {
            Json::Object(members) => {
                let ghost before = Json::Object(members)@->Object_0;
                let mut members = members;
                members.push((key.to_string(), value));
                let r = Json::Object(members);
                reveal_with_fuel(Json::tree, 2);
                assert(r@->Object_0 =~= before.push((key@, value@)));
                r
            },
            other => other,
        }
    }

    /// An object with one more text member.
    pub fn with_text(self, key: &str, value: &str) -> (r: Json)
        ensures
            r@ == self@.with_text(key@, value@),
    {
        self.with(key, Json::Text(value.to_string()))
    }

    /// A list of trees.
    pub fn list(items: Vec<Json>) -> (r: Json)
        ensures
            r@ == JsonView::List(json_views(items@)),
    {
        let r = Json::List(items);
        reveal_with_fuel(Json::tree, 2);
        assert(r@->List_0 =~= json_views(items@));
        r
    }
}

// ---------------------------------------------------------------------------
// Reading
// ---------------------------------------------------------------------------

/// One value of a JSON text, without what lies below it.
pub enum JsonNode {
    Null,
    Bool(bool),
    /// The number as a whole one, if it is one that fits, and as the bit
    /// pattern of the double-precision number.
    Number(Option<u64>, Option<u64>),
    Text(String),
    /// How many items the array has.
    Array(usize),
    Object,
}

/// What a [`JsonNode`] holds.
pub enum JsonNodeView {
    Null,
    Bool(bool),
    Number(Option<u64>, Option<u64>),
    Text(Seq<char>),
    Array(usize),
    Object,
}

impl View for JsonNode {
    type V = JsonNodeView;

    open spec fn view(&self) -> JsonNodeView {
        match self {
            JsonNode::Null => JsonNodeView::Null,
            JsonNode::Bool(b) => JsonNodeView::Bool(*b),
            JsonNode::Number(whole, double) => JsonNodeView::Number(*whole, *double),
            JsonNode::Text(s) => JsonNodeView::Text(s@),
            JsonNode::Array(n) => JsonNodeView::Array(*n),
            JsonNode::Object => JsonNodeView::Object,
        }
    }
}

/// What `serde_json` reads at a JSON pointer of a text; nothing where the text
/// is no JSON or has no such place. The empty pointer is the whole text.
pub uninterp spec fn json_node(body: Seq<u8>, pointer: Seq<char>) -> Option<JsonNodeView>;

/// Calls `serde_json::from_slice` for a `Value`, then `Value::pointer`, and
/// tells the kinds of values apart. The result is only named: it takes the
/// whole grammar of JSON to state it.
#[verifier::external_body]
pub(crate) fn json_at(body: &[u8], pointer: &str) -> (r: Option<JsonNode>)
    ensures
        (match r {
            Some(node) => Some(node@),
            None => None,
        }) == json_node(body@, pointer@),
{
    let value = serde_json::from_slice::<serde_json::Value>(body).ok()?;
    Some(match value.pointer(pointer)? {
        serde_json::Value::Null => JsonNode::Null,
        serde_json::Value::Bool(b) => JsonNode::Bool(*b),
        serde_json::Value::Number(n) => JsonNode::Number(n.as_u64(), n.as_f64().map(|x| x.to_bits())),
        serde_json::Value::String(s) => JsonNode::Text(s.clone()),
        serde_json::Value::Array(items) => JsonNode::Array(items.len()),
        serde_json::Value::Object(_) => JsonNode::Object,
    })
}

/// What a list of texts that may be missing holds.
pub open spec fn opt_texts(v: Seq<Option<String>>) -> Seq<Option<Seq<char>>> {
    v.map_values(|s: Option<String>| opt_text(s))
}

/// Whether `serde_json` takes the text for JSON.
pub open spec fn json_valid(body: Seq<u8>) -> bool {
    json_node(body, ""@) is Some
}

/// The text at a pointer, if there is one.
pub open spec fn text_at(body: Seq<u8>, pointer: Seq<char>) -> Option<Seq<char>> {
    match json_node(body, pointer) {
        Some(JsonNodeView::Text(s)) => Some(s),
        _ => None,
    }
}

/// The whole number at a pointer, if there is one.
pub open spec fn whole_at(body: Seq<u8>, pointer: Seq<char>) -> Option<u64> {
    match json_node(body, pointer) {
        Some(JsonNodeView::Number(whole, _)) => whole,
        _ => None,
    }
}

/// The bit pattern of the double-precision number at a pointer, if there is
/// one.
pub open spec fn double_at(body: Seq<u8>, pointer: Seq<char>) -> Option<u64> {
    match json_node(body, pointer) {
        Some(JsonNodeView::Number(_, double)) => double,
        _ => None,
    }
}

/// The place of a member of an item of the array at a pointer.
pub open spec fn member_pointer(pointer: Seq<char>, i: int, key: Seq<char>) -> Seq<char> {
    pointer + "/"@ + decimal(i as nat) + "/"@ + key
}

/// The texts under a key in the items of the array at a pointer, each as far
/// as it is there; nothing where there is no array.
pub open spec fn texts_at(body: Seq<u8>, pointer: Seq<char>, key: Seq<char>) -> Option<
    Seq<Option<Seq<char>>>,
> {
    match json_node(body, pointer) {
        Some(JsonNodeView::Array(n)) => Some(
            Seq::new(n as nat, |i: int| text_at(body, member_pointer(pointer, i, key))),
        ),
        _ => None,
    }
}

/// Whether the text is JSON.
pub fn is_json(body: &[u8]) -> (r: bool)
    ensures
        r == json_valid(body@),
{
    json_at(body, "").is_some()
}

/// The text at a pointer, if there is one.
pub fn read_text(body: &[u8], pointer: &str) -> (r: Option<String>)
    ensures
        opt_text(r) == text_at(body@, pointer@),
{
    match json_at(body, pointer) {
        Some(JsonNode::Text(s)) => Some(s),
        _ => None,
    }
}

/// The place of a member of an item of the array at a pointer.
fn member_pointer_at(pointer: &str, i: usize, key: &str) -> (r: String)
    ensures
        r@ == member_pointer(pointer@, i as int, key@),
{
    let digits = to_decimal(i as u64);
    let mut out = joined(pointer, "/");
    out.append(digits.as_str());
    out.append("/");
    out.append(key);
    out
}

/// What a list of texts that may not be there holds.
pub open spec fn opt_list(list: Option<Vec<Option<String>>>) -> Option<Seq<Option<Seq<char>>>> {
    match list {
        Some(items) => Some(opt_texts(items@)),
        None => None,
    }
}

/// The texts under a key in the items of the array at a pointer.
pub fn read_texts(body: &[u8], pointer: &str, key: &str) -> (r: Option<Vec<Option<String>>>)
    ensures
        opt_list(r) == texts_at(body@, pointer@, key@),
{
    let n: usize = match json_at(body, pointer) {
        Some(JsonNode::Array(n)) => n,
        _ => {
            return None;
        },
    };
    let mut out: Vec<Option<String>> = Vec::new();
    for i in 0..n
        invariant
            out@.len() == i,
            forall|j: int|
                0 <= j < i ==> opt_text(#[trigger] out@[j]) == text_at(
                    body@,
                    member_pointer(pointer@, j, key@),
                ),
    {
        let place = member_pointer_at(pointer, i, key);
        out.push(read_text(body, place.as_str()));
    }
    assert(opt_texts(out@) =~= texts_at(body@, pointer@, key@)->0);
    Some(out)
}

/// The whole number at a pointer, if there is one.
pub fn read_whole(body: &[u8], pointer: &str) -> (r: Option<u64>)
    ensures
        r == whole_at(body@, pointer@),
{
    match json_at(body, pointer) {
        Some(JsonNode::Number(whole, _)) => whole,
        _ => None,
    }
}

/// The bit pattern of the double-precision number at a pointer, if there is
/// one.
pub fn read_double(body: &[u8], pointer: &str) -> (r: Option<u64>)
    ensures
        r == double_at(body@, pointer@),
{
    match json_at(body, pointer) {
        Some(JsonNode::Number(_, double)) => double,
        _ => None,
    }
}

/// Of an array as many texts are read as it has items, each from under the key
/// of its own item.
pub proof fn lemma_texts_at(body: Seq<u8>, pointer: Seq<char>, key: Seq<char>)
    ensures
        texts_at(body, pointer, key) is Some <==> json_node(body, pointer) is Some && json_node(
            body,
            pointer,
        )->0 is Array,
        texts_at(body, pointer, key) matches Some(list) ==> {
            &&& json_node(body, pointer) == Some(JsonNodeView::Array(list.len() as usize))
            &&& forall|i: int|
                0 <= i < list.len() ==> #[trigger] list[i] == text_at(
                    body,
                    pointer + "/"@ + decimal(i as nat) + "/"@ + key,
                )
        },
{
}

/// A text, a whole number and a double-precision number are read where they
/// are and nowhere else, and a body is JSON if it can be read at all.
pub proof fn lemma_reads(body: Seq<u8>, pointer: Seq<char>)
    ensures
        text_at(body, pointer) is Some <==> json_node(body, pointer) is Some && json_node(
            body,
            pointer,
        )->0 is Text,
        text_at(body, pointer) is Some ==> text_at(body, pointer) == Some(
            json_node(body, pointer)->0->Text_0,
        ),
        whole_at(body, pointer) is Some <==> json_node(body, pointer) is Some && json_node(
            body,
            pointer,
        )->0 is Number && json_node(body, pointer)->0->Number_0 is Some,
        whole_at(body, pointer) is Some ==> whole_at(body, pointer) == json_node(
            body,
            pointer,
        )->0->Number_0,
        double_at(body, pointer) is Some <==> json_node(body, pointer) is Some && json_node(
            body,
            pointer,
        )->0 is Number && json_node(body, pointer)->0->Number_1 is Some,
        double_at(body, pointer) is Some ==> double_at(body, pointer) == json_node(
            body,
            pointer,
        )->0->Number_1,
        json_valid(body) <==> json_node(body, ""@) is Some,
{
}

} // verus!
