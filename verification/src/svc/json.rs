//! JSON documents as text. serde_json parses one level at a time: a value's
//! kind, its scalar, or the JSON text of each of its elements and members;
//! everything deeper is read by parsing those texts in turn.

use serde_json::Value;
use vstd::prelude::*;

use crate::strmap::{lookup, str_eq};
use crate::text::opt_view;

verus! {

/// One level of a parsed JSON value: scalars, and the elements and members
/// of arrays and objects as their own JSON text.
#[derive(Debug)]
pub enum JsonNode {
    Null,
    Bool(bool),
    /// The number as serde_json writes it back.
    Number(String),
    Str(String),
    Array(Vec<String>),
    /// Members in serde_json's map order, each key once.
    Object(Vec<(String, String)>),
}

/// A [`JsonNode`] as the contracts see it.
pub enum NodeView {
    Null,
    Bool(bool),
    Number(Seq<char>),
    Str(Seq<char>),
    Array(Seq<Seq<char>>),
    Object(Seq<(Seq<char>, Seq<char>)>),
}

pub open spec fn node_view(n: JsonNode) -> NodeView {
    match n {
        JsonNode::Null => NodeView::Null,
        JsonNode::Bool(b) => NodeView::Bool(b),
        JsonNode::Number(s) => NodeView::Number(s@),
        JsonNode::Str(s) => NodeView::Str(s@),
        JsonNode::Array(v) => NodeView::Array(v@.map_values(|x: String| x@)),
        JsonNode::Object(v) => NodeView::Object(v@.map_values(|p: (String, String)| (p.0@, p.1@))),
    }
}

/// What `serde_json::from_str::<serde_json::Value>` makes of a text: its top
/// level, each element and member written back with `to_string`, or the
/// parse error's message.
pub uninterp spec fn json_node_of(text: Seq<char>) -> Result<NodeView, Seq<char>>;

/// The exact texts of the elements of a JSON array, as
/// `serde_json::from_str::<Vec<&RawValue>>` borrows them, or the parse
/// error's message.
pub uninterp spec fn json_raw_items_of(text: Seq<char>) -> Result<Seq<Seq<char>>, Seq<char>>;

/// `serde_json::from_str::<serde_json::Value>`: the top level of the value,
/// each element and member written back as JSON text with `to_string`;
/// `Err` with the error's `Display` when the text is no JSON.
#[verifier::external_body]
pub(crate) fn json_node(text: &str) -> (r: Result<JsonNode, String>)
    ensures
        match (r, json_node_of(text@)) {
            (Ok(n), Ok(v)) => node_view(n) == v,
            (Err(e), Err(m)) => e@ == m,
            _ => false,
        },
{
    serde_json::from_str::<Value>(text).map(|v| match v {
        Value::Null => JsonNode::Null,
        Value::Bool(b) => JsonNode::Bool(b),
        Value::Number(n) => JsonNode::Number(n.to_string()),
        Value::String(s) => JsonNode::Str(s),
        Value::Array(a) => JsonNode::Array(a.iter().map(|x| x.to_string()).collect()),
        Value::Object(o) => JsonNode::Object(o.iter().map(|(k, x)| (k.clone(), x.to_string())).collect()),
    }).map_err(|e| e.to_string())
}

/// `serde_json::from_str::<Vec<&RawValue>>`: the exact text of each element
/// of a JSON array; `Err` with the error's `Display` when the text is no
/// JSON array.
#[verifier::external_body]
pub(crate) fn json_raw_items(text: &str) -> (r: Result<Vec<String>, String>)
    ensures
        match (r, json_raw_items_of(text@)) {
            (Ok(v), Ok(items)) => v@.map_values(|x: String| x@) == items,
            (Err(e), Err(m)) => e@ == m,
            _ => false,
        },
{
    serde_json::from_str::<Vec<&serde_json::value::RawValue>>(text).map(
        |items| items.iter().map(|i| i.get().to_string()).collect(),
    ).map_err(|e| e.to_string())
}

/// The top level of `text`, when it is JSON.
pub open spec fn json_node_spec(text: Seq<char>) -> Option<NodeView> {
    match json_node_of(text) {
        Ok(v) => Some(v),
        Err(_) => None,
    }
}

/// The members of `text`, when it is a JSON object.
pub open spec fn json_object(text: Seq<char>) -> Option<Seq<(Seq<char>, Seq<char>)>> {
    match json_node_spec(text) {
        Some(NodeView::Object(es)) => Some(es),
        _ => None,
    }
}

/// The elements of `text`, when it is a JSON array.
pub open spec fn json_array(text: Seq<char>) -> Option<Seq<Seq<char>>> {
    match json_node_spec(text) {
        Some(NodeView::Array(xs)) => Some(xs),
        _ => None,
    }
}

/// The string `text` holds, when it is a JSON string.
pub open spec fn json_str(text: Seq<char>) -> Option<Seq<char>> {
    match json_node_spec(text) {
        Some(NodeView::Str(s)) => Some(s),
        _ => None,
    }
}

/// Member `key` of `text`, when `text` is a JSON object that has it.
pub open spec fn json_field(text: Seq<char>, key: Seq<char>) -> Option<Seq<char>> {
    match json_object(text) {
        Some(es) => lookup(es, key),
        None => None,
    }
}

/// Member `key` of an optional document.
pub open spec fn opt_field(text: Option<Seq<char>>, key: Seq<char>) -> Option<Seq<char>> {
    match text {
        Some(t) => json_field(t, key),
        None => None,
    }
}

/// The string an optional document holds.
pub open spec fn opt_str(text: Option<Seq<char>>) -> Option<Seq<char>> {
    match text {
        Some(t) => json_str(t),
        None => None,
    }
}

/// The elements of an optional document that is an array.
pub open spec fn opt_array(text: Option<Seq<char>>) -> Option<Seq<Seq<char>>> {
    match text {
        Some(t) => json_array(t),
        None => None,
    }
}

/// The members of an optional document that is an object.
pub open spec fn opt_object(text: Option<Seq<char>>) -> Option<Seq<(Seq<char>, Seq<char>)>> {
    match text {
        Some(t) => json_object(t),
        None => None,
    }
}

pub open spec fn pair_views(v: Seq<(String, String)>) -> Seq<(Seq<char>, Seq<char>)> {
    v.map_values(|p: (String, String)| (p.0@, p.1@))
}

pub open spec fn string_views(v: Seq<String>) -> Seq<Seq<char>> {
    v.map_values(|x: String| x@)
}

proof fn lemma_lookup_first(e: Seq<(Seq<char>, Seq<char>)>, k: Seq<char>, i: int)
    requires
        0 <= i < e.len(),
        e[i].0 == k,
        forall|j: int| 0 <= j < i ==> #[trigger] e[j].0 != k,
    ensures
        lookup(e, k) == Some(e[i].1),
    decreases i,
{
    if i > 0 {
        let t = e.drop_first();
        assert forall|j: int| 0 <= j < i - 1 implies #[trigger] t[j].0 != k by {
            assert(t[j] == e[j + 1]);
        }
        assert(e[0].0 != k);
        lemma_lookup_first(t, k, i - 1);
    }
}

proof fn lemma_lookup_none(e: Seq<(Seq<char>, Seq<char>)>, k: Seq<char>)
    requires
        forall|j: int| 0 <= j < e.len() ==> #[trigger] e[j].0 != k,
    ensures
        lookup(e, k) is None,
    decreases e.len(),
{
    if e.len() > 0 {
        let t = e.drop_first();
        assert forall|j: int| 0 <= j < t.len() implies #[trigger] t[j].0 != k by {
            assert(t[j] == e[j + 1]);
        }
        assert(e[0].0 != k);
        lemma_lookup_none(t, k);
    }
}

/// The value of the first member named `key`.
pub fn member(es: &Vec<(String, String)>, key: &str) -> (r: Option<String>)
    ensures
        opt_view(r) == lookup(pair_views(es@), key@),
{
    let ghost v = pair_views(es@);
    let mut i: usize = 0;
    while i < es.len()
        invariant
            i <= es.len(),
            v == pair_views(es@),
            forall|j: int| 0 <= j < i ==> #[trigger] v[j].0 != key@,
        decreases es.len() - i,
    {
        assert(v[i as int] == (es@[i as int].0@, es@[i as int].1@));
        if str_eq(es[i].0.as_str(), key) {
            proof {
                lemma_lookup_first(v, key@, i as int);
            }
            return Some(es[i].1.clone());
        }
        i = i + 1;
    }
    proof {
        lemma_lookup_none(v, key@);
    }
    None
}

/// The members of `text`, when it is a JSON object.
pub fn object_of(text: &str) -> (r: Option<Vec<(String, String)>>)
    ensures
        match r {
            Some(es) => json_object(text@) == Some(pair_views(es@)),
            None => json_object(text@) is None,
        },
{
    match json_node(text) {
        Ok(JsonNode::Object(es)) => Some(es),
        _ => None,
    }
}

/// The elements of `text`, when it is a JSON array.
pub fn array_of(text: &str) -> (r: Option<Vec<String>>)
    ensures
        match r {
            Some(xs) => json_array(text@) == Some(string_views(xs@)),
            None => json_array(text@) is None,
        },
{
    match json_node(text) {
        Ok(JsonNode::Array(xs)) => Some(xs),
        _ => None,
    }
}

/// The string `text` holds, when it is a JSON string.
pub fn str_of(text: &str) -> (r: Option<String>)
    ensures
        opt_view(r) == json_str(text@),
{
    match json_node(text) {
        Ok(JsonNode::Str(s)) => Some(s),
        _ => None,
    }
}

/// Member `key` of `text`, when `text` is a JSON object that has it.
pub fn field_of(text: &str, key: &str) -> (r: Option<String>)
    ensures
        opt_view(r) == json_field(text@, key@),
{
    match object_of(text) {
        Some(es) => member(&es, key),
        None => None,
    }
}

/// Member `key` of an optional document.
pub fn opt_field_of(text: &Option<String>, key: &str) -> (r: Option<String>)
    ensures
        opt_view(r) == opt_field(opt_view(*text), key@),
{
    match text {
        Some(t) => field_of(t.as_str(), key),
        None => None,
    }
}

/// The string an optional document holds.
pub fn opt_str_of(text: &Option<String>) -> (r: Option<String>)
    ensures
        opt_view(r) == opt_str(opt_view(*text)),
{
    match text {
        Some(t) => str_of(t.as_str()),
        None => None,
    }
}

/// The elements of an optional document that is an array.
pub fn opt_array_of(text: &Option<String>) -> (r: Option<Vec<String>>)
    ensures
        match r {
            Some(xs) => opt_array(opt_view(*text)) == Some(string_views(xs@)),
            None => opt_array(opt_view(*text)) is None,
        },
{
    match text {
        Some(t) => array_of(t.as_str()),
        None => None,
    }
}

/// The members of an optional document that is an object.
pub fn opt_object_of(text: &Option<String>) -> (r: Option<Vec<(String, String)>>)
    ensures
        match r {
            Some(es) => opt_object(opt_view(*text)) == Some(pair_views(es@)),
            None => opt_object(opt_view(*text)) is None,
        },
{
    match text {
        Some(t) => object_of(t.as_str()),
        None => None,
    }
}

} // verus!
