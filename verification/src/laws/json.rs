//! Laws of JSON values.

use crate::binary64::Binary64;
use crate::json;
use crate::json::Json;
use crate::json::JsonNumber;
use crate::json::JsonTree;
use vstd::prelude::*;

verus! {

/// A member is the first one of its name, and only objects have any.
pub proof fn law_member(v: JsonTree, name: Seq<char>)
    ensures
        match v {
            JsonTree::Object(members) => match v.member(name) {
                Some(x) => exists|i: int|
                    {
                        &&& 0 <= i < members.len()
                        &&& #[trigger] members[i] == (name, x)
                        &&& forall|j: int| 0 <= j < i ==> (#[trigger] members[j]).0 != name
                    },
                None => forall|i: int| 0 <= i < members.len() ==> (#[trigger] members[i]).0 != name,
            },
            _ => v.member(name) is None,
        },
{
    if let JsonTree::Object(members) = v {
        lemma_lookup(members, name);
    }
}

proof fn lemma_lookup(members: Seq<(Seq<char>, JsonTree)>, name: Seq<char>)
    ensures
        match json::lookup(members, name) {
            Some(x) => exists|i: int|
                {
                    &&& 0 <= i < members.len()
                    &&& #[trigger] members[i] == (name, x)
                    &&& forall|j: int| 0 <= j < i ==> (#[trigger] members[j]).0 != name
                },
            None => forall|i: int| 0 <= i < members.len() ==> (#[trigger] members[i]).0 != name,
        },
    decreases members.len(),
{
    if members.len() > 0 {
        if members[0].0 == name {
            assert(members[0] == (name, members[0].1));
        } else {
            let rest = members.skip(1);
            lemma_lookup(rest, name);
            assert forall|i: int| 0 < i < members.len() implies #[trigger] members[i] == rest[i
                - 1] by {}
            if let Some(x) = json::lookup(rest, name) {
                let i = choose|i: int|
                    {
                        &&& 0 <= i < rest.len()
                        &&& #[trigger] rest[i] == (name, x)
                        &&& forall|j: int| 0 <= j < i ==> (#[trigger] rest[j]).0 != name
                    };
                assert(members[i + 1] == (name, x));
                assert forall|j: int| 0 <= j < i + 1 implies (#[trigger] members[j]).0 != name by {
                    if j > 0 {
                        assert(members[j] == rest[j - 1]);
                    }
                }
            }
        }
    }
}

/// Each kind of value is read as what it is, and as nothing else.
pub proof fn law_kinds(v: JsonTree, name: Seq<char>, s: Seq<char>, n: u64, x: Binary64)
    ensures
        v.text() == Some(s) <==> v == JsonTree::Text(s),
        v.unsigned() == Some(n) <==> (v matches JsonTree::Number(k) && k.unsigned == Some(n)),
        v.float() == Some(x) <==> (v matches JsonTree::Number(k) && k.float == Some(x)),
        v.member_text(name) == Some(s) <==> v.member(name) == Some(JsonTree::Text(s)),
        v.member_float(name) == Some(x) <==> (v.member(name) matches Some(JsonTree::Number(k))
            && k.float == Some(x)),
{
}

/// A value holds what its parts hold, in their order.
pub proof fn law_contents(
    items: Vec<Json>,
    members: Vec<(String, Json)>,
    s: String,
    n: JsonNumber,
    b: bool,
)
    ensures
        Json::Null@ == JsonTree::Null,
        Json::Bool(b)@ == JsonTree::Bool(b),
        Json::Number(n)@ == JsonTree::Number(n),
        Json::Text(s)@ == JsonTree::Text(s@),
        Json::Array(items)@ matches JsonTree::Array(a) && a.len() == items@.len() && forall|i: int|
            0 <= i < a.len() ==> #[trigger] a[i] == items@[i]@,
        Json::Object(members)@ matches JsonTree::Object(m) && m.len() == members@.len() && forall|
            i: int,
        |
            0 <= i < m.len() ==> (#[trigger] m[i]).0 == members@[i].0@ && m[i].1
                == members@[i].1@,
{
    json::lemma_array_view(items);
    json::lemma_object_view(members);
}

} // verus!
