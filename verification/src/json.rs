//! JSON documents as plain values.
//!
//! The text is parsed by `serde_json`; what it yields is taken apart here into a
//! tree that the rest of the library reads.

use crate::binary64::Binary64;
use vstd::prelude::*;

verus! {

/// A JSON number as it can be read: as an unsigned integer, when it is one that
/// fits 64 bits, and as the binary64 value nearest to it.
#[derive(Clone, Copy, Debug)]
pub struct JsonNumber {
    pub unsigned: Option<u64>,
    pub float: Option<Binary64>,
}

/// A JSON value. The members of an object stand in the order in which the parsed
/// object is walked.
#[derive(Debug)]
pub enum Json {
    Null,
    Bool(bool),
    Number(JsonNumber),
    Text(String),
    Array(Vec<Json>),
    Object(Vec<(String, Json)>),
}

/// The mathematical content of a JSON value.
pub enum JsonTree {
    Null,
    Bool(bool),
    Number(JsonNumber),
    Text(Seq<char>),
    Array(Seq<JsonTree>),
    Object(Seq<(Seq<char>, JsonTree)>),
}

impl View for Json {
    type V = JsonTree;

    open spec fn view(&self) -> JsonTree {
        self.tree()
    }
}

impl Json {
    /// The content of a value, all the way down.
    pub open spec fn tree(&self) -> JsonTree
        decreases self,
    {
        match self {
            Json::Null => JsonTree::Null,
            Json::Bool(b) => JsonTree::Bool(*b),
            Json::Number(n) => JsonTree::Number(*n),
            Json::Text(s) => JsonTree::Text(s@),
            Json::Array(items) => JsonTree::Array(
                Seq::new(
                    items@.len(),
                    |i: int|
                        if 0 <= i < items@.len() {
                            items@[i].tree()
                        } else {
                            JsonTree::Null
                        },
                ),
            ),
            Json::Object(members) => JsonTree::Object(
                Seq::new(
                    members@.len(),
                    |i: int|
                        if 0 <= i < members@.len() {
                            (members@[i].0@, members@[i].1.tree())
                        } else {
                            (Seq::empty(), JsonTree::Null)
                        },
                ),
            ),
        }
    }
}

/// The value of the first member with this name.
pub open spec fn lookup(members: Seq<(Seq<char>, JsonTree)>, key: Seq<char>) -> Option<JsonTree>
    decreases members.len(),
{
    if members.len() == 0 {
        None
    } else if members[0].0 == key {
        Some(members[0].1)
    } else {
        lookup(members.skip(1), key)
    }
}

/// Whether no name occurs twice.
pub open spec fn distinct_keys(members: Seq<(Seq<char>, JsonTree)>) -> bool {
    forall|i: int, j: int|
        0 <= i < j < members.len() ==> (#[trigger] members[i]).0 != (#[trigger] members[j]).0
}

/// The contents of a list of values.
pub open spec fn trees(items: Seq<Json>) -> Seq<JsonTree> {
    items.map_values(|x: Json| x@)
}

/// The contents of a list of members.
pub open spec fn member_trees(members: Seq<(String, Json)>) -> Seq<(Seq<char>, JsonTree)> {
    members.map_values(|x: (String, Json)| (x.0@, x.1@))
}

impl JsonTree {
    /// What an object holds under a name; nothing for another kind of value.
    pub open spec fn member(self, key: Seq<char>) -> Option<JsonTree> {
        match self {
            JsonTree::Object(members) => lookup(members, key),
            _ => None,
        }
    }

    pub open spec fn text(self) -> Option<Seq<char>> {
        match self {
            JsonTree::Text(s) => Some(s),
            _ => None,
        }
    }

    pub open spec fn unsigned(self) -> Option<u64> {
        match self {
            JsonTree::Number(n) => n.unsigned,
            _ => None,
        }
    }

    pub open spec fn float(self) -> Option<Binary64> {
        match self {
            JsonTree::Number(n) => n.float,
            _ => None,
        }
    }

    /// The text that an object holds under a name.
    pub open spec fn member_text(self, key: Seq<char>) -> Option<Seq<char>> {
        match self.member(key) {
            Some(v) => v.text(),
            None => None,
        }
    }

    /// The number that an object holds under a name.
    pub open spec fn member_float(self, key: Seq<char>) -> Option<Binary64> {
        match self.member(key) {
            Some(v) => v.float(),
            None => None,
        }
    }
}

/// An array is seen as the contents of its items.
pub proof fn lemma_array_view(items: Vec<Json>)
    ensures
        Json::Array(items)@ == JsonTree::Array(trees(items@)),
{
    match Json::Array(items)@ {
        JsonTree::Array(t) => {
            assert forall|i: int| 0 <= i < items@.len() implies t[i] == trees(items@)[i] by {
                assert(trees(items@)[i] == items@[i]@);
            }
            assert(t =~= trees(items@));
        },
        _ => {},
    }
}

/// An object is seen as the contents of its members.
pub proof fn lemma_object_view(members: Vec<(String, Json)>)
    ensures
        Json::Object(members)@ == JsonTree::Object(member_trees(members@)),
{
    match Json::Object(members)@ {
        JsonTree::Object(t) => {
            assert(t =~= member_trees(members@));
        },
        _ => {},
    }
}

impl Json {
    /// The value of the first member with this name; nothing for a value that is
    /// no object.
    pub fn get(&self, key: &str) -> (r: Option<&Json>)
        ensures
            match r {
                Some(v) => self@.member(key@) == Some(v@),
                None => self@.member(key@) is None,
            },
    {
        match self {
            Json::Object(members) => {
                proof {
                    lemma_object_view(*members);
                }
                let ghost all = member_trees(members@);
                assert(all.skip(0) =~= all);
                for i in 0..members.len()
                    invariant
                        all == member_trees(members@),
                        self@.member(key@) == lookup(all, key@),
                        lookup(all, key@) == lookup(all.skip(i as int), key@),
                {
                    if crate::text::same_text(members[i].0.as_str(), key) {
                        return Some(&members[i].1);
                    }
                    assert(all.skip(i as int).skip(1) =~= all.skip(i + 1));
                }
                None
            },
            _ => None,
        }
    }

    pub fn as_str(&self) -> (r: Option<&str>)
        ensures
            match r {
                Some(s) => self@.text() == Some(s@),
                None => self@.text() is None,
            },
    {
        match self {
            Json::Text(s) => Some(s.as_str()),
            _ => None,
        }
    }

    pub fn as_u64(&self) -> (r: Option<u64>)
        ensures
            r == self@.unsigned(),
    {
        match self {
            Json::Number(n) => n.unsigned,
            _ => None,
        }
    }

    pub fn as_float(&self) -> (r: Option<Binary64>)
        ensures
            r == self@.float(),
    {
        match self {
            Json::Number(n) => n.float,
            _ => None,
        }
    }

    pub fn as_array(&self) -> (r: Option<&Vec<Json>>)
        ensures
            match r {
                Some(items) => self@ == JsonTree::Array(trees(items@)),
                None => !(self@ is Array),
            },
    {
        match self {
            Json::Array(items) => {
                proof {
                    lemma_array_view(*items);
                }
                Some(items)
            },
            _ => None,
        }
    }

    pub fn as_object(&self) -> (r: Option<&Vec<(String, Json)>>)
        ensures
            match r {
                Some(members) => self@ == JsonTree::Object(member_trees(members@)),
                None => !(self@ is Object),
            },
    {
        match self {
            Json::Object(members) => {
                proof {
                    lemma_object_view(*members);
                }
                Some(members)
            },
            _ => None,
        }
    }

    /// The text under a name, for members that hold one.
    pub fn get_str(&self, key: &str) -> (r: Option<&str>)
        ensures
            match r {
                Some(s) => self@.member_text(key@) == Some(s@),
                None => self@.member_text(key@) is None,
            },
    {
        match self.get(key) {
            Some(v) => v.as_str(),
            None => None,
        }
    }

    /// The number under a name, for members that hold one.
    pub fn get_float(&self, key: &str) -> (r: Option<Binary64>)
        ensures
            r == self@.member_float(key@),
    {
        match self.get(key) {
            Some(v) => v.as_float(),
            None => None,
        }
    }
}

/// `serde_json::Value`, opaque: it is only opened one level at a time.
#[verifier::external_type_specification]
#[verifier::external_body]
pub struct ExValue(serde_json::Value);

/// `serde_json::Error`, opaque.
#[verifier::external_type_specification]
#[verifier::external_body]
pub struct ExError(serde_json::Error);

/// What a `serde_json::Value` holds, all the way down.
pub uninterp spec fn contents(v: serde_json::Value) -> JsonTree;

/// What `serde_json::from_slice` reads a byte sequence as, at type `Value`; nothing
/// where it reports an error.
pub uninterp spec fn document(bytes: Seq<u8>) -> Option<JsonTree>;

/// `serde_json::from_slice` at type `Value`: its result is determined by the bytes.
#[verifier::external_body]
fn from_slice(bytes: &[u8]) -> (r: Result<serde_json::Value, serde_json::Error>)
    ensures
        match r {
            Ok(v) => document(bytes@) == Some(contents(v)),
            Err(_) => document(bytes@) is None,
        },
{
    serde_json::from_slice(bytes)
}

/// One level of a `serde_json::Value`.
enum Node {
    Null,
    Bool(bool),
    Number(JsonNumber),
    Text(String),
    Array(Vec<serde_json::Value>),
    Object(Vec<(String, serde_json::Value)>),
}

/// Tells the variants of `serde_json::Value` apart. A number is read by
/// `Number::as_u64` and `Number::as_f64`, the float by its bits. An object is the
/// list of its members as `Map::into_iter` walks them; no name occurs twice in it.
#[verifier::external_body]
fn open_value(v: serde_json::Value) -> (r: Node)
    ensures
        match r {
            Node::Null => contents(v) == JsonTree::Null,
            Node::Bool(b) => contents(v) == JsonTree::Bool(b),
            Node::Number(n) => contents(v) == JsonTree::Number(n),
            Node::Text(s) => contents(v) == JsonTree::Text(s@),
            Node::Array(items) => contents(v) == JsonTree::Array(
                items@.map_values(|x: serde_json::Value| contents(x)),
            ),
            Node::Object(members) => {
                let m = members@.map_values(
                    |x: (String, serde_json::Value)| (x.0@, contents(x.1)),
                );
                contents(v) == JsonTree::Object(m) && distinct_keys(m)
            },
        },
{
    match v {
        serde_json::Value::Null => Node::Null,
        serde_json::Value::Bool(b) => Node::Bool(b),
        serde_json::Value::Number(n) => Node::Number(JsonNumber {
            unsigned: n.as_u64(),
            float: n.as_f64().map(|x| Binary64 { bits: x.to_bits() }),
        }),
        serde_json::Value::String(s) => Node::Text(s),
        serde_json::Value::Array(items) => Node::Array(items),
        serde_json::Value::Object(members) => Node::Object(members.into_iter().collect()),
    }
}

/// Takes a parsed value apart, all the way down.
fn convert(v: serde_json::Value) -> (r: Json)
    ensures
        r@ == contents(v),
        r@ matches JsonTree::Object(m) ==> distinct_keys(m),
    decreases contents(v),
{
    let ghost whole = contents(v);
    match open_value(v) {
        Node::Null => Json::Null,
        Node::Bool(b) => Json::Bool(b),
        Node::Number(n) => Json::Number(n),
        Node::Text(s) => Json::Text(s),
        Node::Array(items) => {
            let ghost all = items@;
            let ghost inner = all.map_values(|x: serde_json::Value| contents(x));
            let mut out: Vec<Json> = Vec::new();
            for x in it: items
                invariant
                    it.seq() == all,
                    out@.len() == it.index(),
                    whole == contents(v),
                    whole == JsonTree::Array(inner),
                    inner == all.map_values(|x: serde_json::Value| contents(x)),
                    forall|i: int| 0 <= i < out@.len() ==> (#[trigger] out@[i])@ == inner[i],
            {
                proof {
                    assert(inner[it.index()] == contents(x));
                    assert(decreases_to!(whole => whole->Array_0));
                    assert(decreases_to!(whole => whole->Array_0[it.index()]));
                }
                out.push(convert(x));
            }
            proof {
                lemma_array_view(out);
                assert(trees(out@) =~= inner);
            }
            Json::Array(out)
        },
        Node::Object(members) => {
            let ghost all = members@;
            let ghost inner = all.map_values(
                |x: (String, serde_json::Value)| (x.0@, contents(x.1)),
            );
            let mut out: Vec<(String, Json)> = Vec::new();
            for x in it: members
                invariant
                    it.seq() == all,
                    out@.len() == it.index(),
                    whole == contents(v),
                    whole == JsonTree::Object(inner),
                    inner == all.map_values(
                        |x: (String, serde_json::Value)| (x.0@, contents(x.1)),
                    ),
                    forall|i: int|
                        0 <= i < out@.len() ==> (#[trigger] out@[i]).0@ == inner[i].0 && out@[i].1@
                            == inner[i].1,
            {
                proof {
                    assert(inner[it.index()] == (x.0@, contents(x.1)));
                    assert(decreases_to!(whole => whole->Object_0));
                    assert(decreases_to!(whole => whole->Object_0[it.index()]));
                    assert(decreases_to!(whole => whole->Object_0[it.index()].1));
                }
                out.push((x.0, convert(x.1)));
            }
            proof {
                lemma_object_view(out);
                assert(member_trees(out@) =~= inner);
            }
            Json::Object(out)
        },
    }
}

/// Reads a JSON document.
pub fn parse(bytes: &[u8]) -> (r: Option<Json>)
    ensures
        match r {
            Some(j) => document(bytes@) == Some(j@),
            None => document(bytes@) is None,
        },
        r matches Some(j) ==> (j@ matches JsonTree::Object(m) ==> distinct_keys(m)),
{
    match from_slice(bytes) {
        Ok(v) => Some(convert(v)),
        Err(_) => None,
    }
}

} // verus!
