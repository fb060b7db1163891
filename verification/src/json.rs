//! JSON values as plain data.
//!
//! Reading JSON text is the work of `serde_json`; everything else in this
//! crate looks at the [`Json`] tree that a `serde_json::Value` is turned into.
//! A number is carried along as it is: nothing here looks inside one.

use vstd::prelude::*;

use crate::text::same_text;

verus! {

/// The outside type of a JSON number, carried through without being read.
#[verifier::external_type_specification]
#[verifier::external_body]
pub struct ExNumber(serde_json::Number);

/// The outside type of a parsed JSON value.
#[verifier::external_type_specification]
#[verifier::external_body]
pub struct ExValue(serde_json::Value);

/// The outside type of a parse failure.
#[verifier::external_type_specification]
#[verifier::external_body]
pub struct ExError(serde_json::Error);

/// What a JSON value is: a finite tree. The members of an object stand in
/// some order.
pub enum JsonView {
    Null,
    Bool(bool),
    Number(serde_json::Number),
    String(Seq<char>),
    Array(Seq<JsonView>),
    Object(Seq<(Seq<char>, JsonView)>),
}

/// The value of the first member of `members` that has the key `key`.
pub open spec fn lookup(members: Seq<(Seq<char>, JsonView)>, key: Seq<char>) -> Option<JsonView>
    decreases members.len(),
{
    if members.len() == 0 {
        None
    } else if members[0].0 == key {
        Some(members[0].1)
    } else {
        lookup(members.drop_first(), key)
    }
}

impl JsonView {
    /// The member `key` of an object; nothing else has members.
    pub open spec fn get(self, key: Seq<char>) -> Option<JsonView> {
        match self {
            JsonView::Object(members) => lookup(members, key),
            _ => None,
        }
    }

    /// The characters of a string.
    pub open spec fn as_str(self) -> Option<Seq<char>> {
        match self {
            JsonView::String(s) => Some(s),
            _ => None,
        }
    }

    /// The items of an array.
    pub open spec fn as_array(self) -> Option<Seq<JsonView>> {
        match self {
            JsonView::Array(items) => Some(items),
            _ => None,
        }
    }

    /// No object in the tree has two members with one key.
    pub open spec fn distinct_keys(self) -> bool
        decreases self,
    {
        match self {
            JsonView::Array(items) => forall|i: int|
                0 <= i < items.len() ==> #[trigger] items[i].distinct_keys(),
            JsonView::Object(members) => {
                &&& forall|i: int, j: int|
                    0 <= i < j < members.len() ==> (#[trigger] members[i]).0 != (
                    #[trigger] members[j]).0
                &&& forall|i: int|
                    0 <= i < members.len() ==> (#[trigger] members[i]).1.distinct_keys()
            },
            _ => true,
        }
    }
}

/// The member `key` of `value`, where there is a value at all.
pub open spec fn member(value: Option<JsonView>, key: Seq<char>) -> Option<JsonView> {
    match value {
        Some(v) => v.get(key),
        None => None,
    }
}

/// The characters of `value`, where there is one and it is a string.
pub open spec fn string_of(value: Option<JsonView>) -> Option<Seq<char>> {
    match value {
        Some(v) => v.as_str(),
        None => None,
    }
}

/// The items of `value`, where there is one and it is an array; else none.
pub open spec fn items_of(value: Option<JsonView>) -> Seq<JsonView> {
    match value {
        Some(JsonView::Array(items)) => items,
        _ => Seq::empty(),
    }
}

/// Every member of an object whose keys are distinct is found by its key,
/// wherever it stands.
pub proof fn lemma_lookup_any_position(members: Seq<(Seq<char>, JsonView)>, at: int)
    requires
        JsonView::Object(members).distinct_keys(),
        0 <= at < members.len(),
    ensures
        JsonView::Object(members).get(members[at].0) == Some(members[at].1),
    decreases members.len(),
{
    if at != 0 {
        let rest = members.drop_first();
        assert(members[0].0 != members[at].0);
        assert(rest[at - 1] == members[at]);
        assert forall|i: int, j: int| 0 <= i < j < rest.len() implies (#[trigger] rest[i]).0 != (
        #[trigger] rest[j]).0 by {
            assert(members[i + 1].0 != members[j + 1].0);
        }
        assert forall|i: int| 0 <= i < rest.len() implies (
        #[trigger] rest[i]).1.distinct_keys() by {
            assert(members[i + 1].1.distinct_keys());
        }
        lemma_lookup_any_position(rest, at - 1);
    }
}

/// A JSON value.
#[derive(Debug, PartialEq)]
pub enum Json {
    Null,
    Bool(bool),
    Number(serde_json::Number),
    String(String),
    Array(Vec<Json>),
    /// The members of an object. Where a key stands twice, the first one counts.
    Object(Vec<(String, Json)>),
}

impl Json {
    /// The tree that this value is.
    pub open spec fn view(&self) -> JsonView
        decreases self,
    {
        match self {
            Json::Null => JsonView::Null,
            Json::Bool(b) => JsonView::Bool(*b),
            Json::Number(n) => JsonView::Number(*n),
            Json::String(s) => JsonView::String(s@),
            Json::Array(items) => JsonView::Array(
                Seq::new(
                    items@.len(),
                    |i: int|
                        if 0 <= i < items@.len() {
                            items@[i].view()
                        } else {
                            arbitrary()
                        },
                ),
            ),
            Json::Object(members) => JsonView::Object(
                Seq::new(
                    members@.len(),
                    |i: int|
                        if 0 <= i < members@.len() {
                            (members@[i].0@, members@[i].1.view())
                        } else {
                            arbitrary()
                        },
                ),
            ),
        }
    }

    /// The member `key` of an object, `None` where there is none or where this
    /// is no object.
    pub fn get(&self, key: &str) -> (r: Option<&Json>)
        ensures
            match r {
                Some(v) => self@.get(key@) == Some(v@),
                None => self@.get(key@) is None,
            },
    {
        match self {
            Json::Object(members) => {
                let ghost all = self@->Object_0;
                assert(all.skip(0) =~= all);
                for i in 0..members.len()
                    invariant
                        all == self@->Object_0,
                        *self == Json::Object(*members),
                        all.len() == members@.len(),
                        self@.get(key@) == lookup(all.skip(i as int), key@),
                {
                    assert(all.skip(i as int)[0] == all[i as int]);
                    if same_text(members[i].0.as_str(), key) {
                        return Some(&members[i].1);
                    }
                    assert(all.skip(i as int).drop_first() =~= all.skip(i + 1));
                }
                None
            },
            _ => None,
        }
    }

    /// The characters of a string, `None` for anything else.
    pub fn as_str(&self) -> (r: Option<&str>)
        ensures
            match r {
                Some(s) => self@.as_str() == Some(s@),
                None => self@.as_str() is None,
            },
    {
        match self {
            Json::String(s) => Some(s.as_str()),
            _ => None,
        }
    }

    /// The items of an array, `None` for anything else.
    pub fn as_array(&self) -> (r: Option<&Vec<Json>>)
        ensures
            match r {
                Some(items) => self@.as_array() == Some(views(items@)),
                None => self@.as_array() is None,
            },
    {
        match self {
            Json::Array(items) => {
                assert(self@->Array_0 =~= views(items@));
                Some(items)
            },
            _ => None,
        }
    }
}

/// The trees that `items` are.
pub open spec fn views(items: Seq<Json>) -> Seq<JsonView> {
    items.map_values(|item: Json| item@)
}

/// The tree of an optional JSON value.
pub open spec fn json_view(value: Option<Json>) -> Option<JsonView> {
    match value {
        Some(v) => Some(v@),
        None => None,
    }
}

/// The tree of a value that may be missing.
pub open spec fn seen(value: Option<&Json>) -> Option<JsonView> {
    match value {
        Some(v) => Some(v@),
        None => None,
    }
}

/// `serde_json::Number::clone` gives back the number it was called on.
pub assume_specification[ <serde_json::Number as Clone>::clone ](
    n: &serde_json::Number,
) -> (r: serde_json::Number)
    ensures
        r == *n,
;

impl Clone for Json {
    /// A copy that is the same tree.
    fn clone(&self) -> (r: Self)
        ensures
            r@ == self@,
        decreases self,
    {
        match self {
            Json::Null => Json::Null,
            Json::Bool(b) => Json::Bool(*b),
            Json::Number(n) => Json::Number(n.clone()),
            Json::String(s) => Json::String(s.clone()),
            Json::Array(items) => {
                let mut out: Vec<Json> = Vec::new();
                for i in 0..items.len()
                    invariant
                        *self == Json::Array(*items),
                        out@.len() == i,
                        forall|j: int| 0 <= j < i ==> (#[trigger] out@[j])@ == items@[j]@,
                {
                    assert(decreases_to!(*self => self->Array_0));
                    assert(decreases_to!(items@ => items@[i as int]));
                    out.push(items[i].clone());
                }
                let r: Json = Json::Array(out);
                assert(r@->Array_0 =~= self@->Array_0);
                r
            },
            Json::Object(members) => {
                let mut out: Vec<(String, Json)> = Vec::new();
                for i in 0..members.len()
                    invariant
                        *self == Json::Object(*members),
                        out@.len() == i,
                        forall|j: int|
                            0 <= j < i ==> (#[trigger] out@[j]).0@ == members@[j].0@ && out@[j].1@
                                == members@[j].1@,
                {
                    assert(decreases_to!(*self => self->Object_0));
                    assert(decreases_to!(members@ => members@[i as int]));
                    out.push((members[i].0.clone(), members[i].1.clone()));
                }
                let r: Json = Json::Object(out);
                assert(r@->Object_0 =~= self@->Object_0);
                r
            },
        }
    }
}

/// One level of a `serde_json::Value`: its variant, with what the variant
/// holds.
enum Node {
    Null,
    Bool(bool),
    Number(serde_json::Number),
    String(String),
    Array(Vec<serde_json::Value>),
    Object(Vec<(String, serde_json::Value)>),
}

/// The tree that a `serde_json::Value` holds, the members of each object in
/// the order in which its map is walked.
pub uninterp spec fn value_view(value: serde_json::Value) -> JsonView;

impl Node {
    /// The tree of the value that was taken apart.
    spec fn view(&self) -> JsonView {
        match self {
            Node::Null => JsonView::Null,
            Node::Bool(b) => JsonView::Bool(*b),
            Node::Number(n) => JsonView::Number(*n),
            Node::String(s) => JsonView::String(s@),
            Node::Array(items) => JsonView::Array(
                items@.map_values(|v: serde_json::Value| value_view(v)),
            ),
            Node::Object(members) => JsonView::Object(
                members@.map_values(|m: (String, serde_json::Value)| (m.0@, value_view(m.1))),
            ),
        }
    }

    /// The keys of an object are pairwise distinct.
    spec fn distinct_keys(&self) -> bool {
        match self {
            Node::Object(members) => forall|i: int, j: int|
                0 <= i < j < members@.len() ==> (#[trigger] members@[i]).0@ != (
                #[trigger] members@[j]).0@,
            _ => true,
        }
    }
}

/// Takes a `serde_json::Value` apart by its variant. Trusted: the variant says
/// what the value is, and a `serde_json::Map` holds each of its keys once.
#[verifier::external_body]
fn node(value: serde_json::Value) -> (r: Node)
    ensures
        r@ == value_view(value),
        r.distinct_keys(),
{
    match value {
        serde_json::Value::Null => Node::Null,
        serde_json::Value::Bool(b) => Node::Bool(b),
        serde_json::Value::Number(n) => Node::Number(n),
        serde_json::Value::String(s) => Node::String(s),
        serde_json::Value::Array(items) => Node::Array(items),
        serde_json::Value::Object(map) => Node::Object(map.into_iter().collect()),
    }
}

/// The same tree as plain data. No object in it has a key twice.
pub fn from_value(value: serde_json::Value) -> (r: Json)
    ensures
        r@ == value_view(value),
        r@.distinct_keys(),
    decreases value_view(value),
{
    let ghost whole = value_view(value);
    match node(value) {
        Node::Null => Json::Null,
        Node::Bool(b) => Json::Bool(b),
        Node::Number(n) => Json::Number(n),
        Node::String(s) => Json::String(s),
        Node::Array(items) => {
            let ghost all = items@;
            let mut out: Vec<Json> = Vec::new();
            for item in it: items
                invariant
                    it.seq() == all,
                    whole == value_view(value),
                    whole == JsonView::Array(
                        all.map_values(|v: serde_json::Value| value_view(v)),
                    ),
                    out@.len() == it.index(),
                    forall|i: int|
                        0 <= i < out@.len() ==> (#[trigger] out@[i])@ == value_view(all[i])
                            && out@[i]@.distinct_keys(),
            {
                assert(value_view(item) == whole->Array_0[it.index() as int]);
                out.push(from_value(item));
            }
            let r: Json = Json::Array(out);
            assert(r@->Array_0 =~= whole->Array_0);
            r
        },
        Node::Object(members) => {
            let ghost all = members@;
            let mut out: Vec<(String, Json)> = Vec::new();
            for m in it: members
                invariant
                    it.seq() == all,
                    whole == value_view(value),
                    whole == JsonView::Object(
                        all.map_values(|m: (String, serde_json::Value)| (m.0@, value_view(m.1))),
                    ),
                    out@.len() == it.index(),
                    forall|i: int|
                        0 <= i < out@.len() ==> (#[trigger] out@[i]).0@ == all[i].0@ && out@[i].1@
                            == value_view(all[i].1) && out@[i].1@.distinct_keys(),
            {
                assert(value_view(m.1) == whole->Object_0[it.index() as int].1);
                out.push((m.0, from_value(m.1)));
            }
            let r: Json = Json::Object(out);
            assert(r@->Object_0 =~= whole->Object_0);
            r
        },
    }
}

/// What `serde_json::from_slice` reads from `bytes` as a `Value`; `None` where
/// it fails.
pub uninterp spec fn json_from_slice(bytes: Seq<u8>) -> Option<JsonView>;

/// Calls `serde_json::from_slice`. Trusted: what comes back, or that nothing
/// does, is decided by the bytes alone.
#[verifier::external_body]
fn value_from_slice(bytes: &[u8]) -> (r: Result<serde_json::Value, serde_json::Error>)
    ensures
        match r {
            Ok(value) => json_from_slice(bytes@) == Some(value_view(value)),
            Err(_) => json_from_slice(bytes@) is None,
        },
{
    serde_json::from_slice(bytes)
}

/// Reads one JSON value from bytes; `None` where they are not one.
pub fn parse_bytes(bytes: &[u8]) -> (r: Option<Json>)
    ensures
        match r {
            Some(json) => json_from_slice(bytes@) == Some(json@) && json@.distinct_keys(),
            None => json_from_slice(bytes@) is None,
        },
{
    match value_from_slice(bytes) {
        Ok(value) => Some(from_value(value)),
        Err(_) => None,
    }
}

/// What `serde_json::from_str` reads from `text` as a `Value`; `None` where it
/// fails.
pub uninterp spec fn json_from_str(text: Seq<char>) -> Option<JsonView>;

/// Calls `serde_json::from_str`. Trusted: what comes back, or that nothing
/// does, is decided by the text alone.
#[verifier::external_body]
fn value_from_str(text: &str) -> (r: Result<serde_json::Value, serde_json::Error>)
    ensures
        match r {
            Ok(value) => json_from_str(text@) == Some(value_view(value)),
            Err(_) => json_from_str(text@) is None,
        },
{
    serde_json::from_str(text)
}

/// Reads one JSON value from a text; `None` where it is not one.
pub fn parse_text(text: &str) -> (r: Option<Json>)
    ensures
        match r {
            Some(json) => json_from_str(text@) == Some(json@) && json@.distinct_keys(),
            None => json_from_str(text@) is None,
        },
{
    match value_from_str(text) {
        Ok(value) => Some(from_value(value)),
        Err(_) => None,
    }
}

/// A key finds the member that has it, the first one where there are several.
pub proof fn lemma_key_finds_its_first_member(
    members: Seq<(Seq<char>, JsonView)>,
    key: Seq<char>,
    at: int,
)
    requires
        0 <= at < members.len(),
        members[at].0 == key,
        forall|j: int| 0 <= j < at ==> (#[trigger] members[j]).0 != key,
    ensures
        JsonView::Object(members).get(key) == Some(members[at].1),
    decreases at,
{
    if at > 0 {
        assert(members[0].0 != key);
        let rest = members.drop_first();
        assert forall|j: int| 0 <= j < at - 1 implies (#[trigger] rest[j]).0 != key by {
            assert(members[j + 1].0 != key);
        }
        lemma_key_finds_its_first_member(rest, key, at - 1);
    }
}

/// A key that no member has finds nothing.
pub proof fn lemma_unknown_key_finds_nothing(members: Seq<(Seq<char>, JsonView)>, key: Seq<char>)
    requires
        forall|j: int| 0 <= j < members.len() ==> (#[trigger] members[j]).0 != key,
    ensures
        JsonView::Object(members).get(key) is None,
    decreases members.len(),
{
    if members.len() > 0 {
        assert(members[0].0 != key);
        let rest = members.drop_first();
        assert forall|j: int| 0 <= j < rest.len() implies (#[trigger] rest[j]).0 != key by {
            assert(members[j + 1].0 != key);
        }
        lemma_unknown_key_finds_nothing(rest, key);
    }
}

/// Only an object has members, only a string is text, only an array has items.
pub proof fn lemma_values_are_what_they_are(
    value: JsonView,
    key: Seq<char>,
    text: Seq<char>,
    items: Seq<JsonView>,
)
    ensures
        value.get(key) is Some ==> value is Object,
        value.as_str() == Some(text) <==> value == JsonView::String(text),
        value.as_array() == Some(items) <==> value == JsonView::Array(items),
{
}

/// What is missing has no member, no text and no items, and what is there has
/// its own.
pub proof fn lemma_missing_value_has_nothing(
    value: Option<JsonView>,
    key: Seq<char>,
    text: Seq<char>,
)
    ensures
        member(None, key) is None,
        value is Some ==> member(value, key) == value->0.get(key),
        string_of(value) == Some(text) <==> value == Some(JsonView::String(text)),
        value matches Some(JsonView::Array(items)) ==> items_of(value) == items,
        !(value matches Some(JsonView::Array(_))) ==> items_of(value).len() == 0,
{
}

/// The tree of a value is the value: each of its parts stands in the tree, as
/// often as it is there and in its place.
pub proof fn lemma_tree_is_the_value(value: Json)
    ensures
        value is Null <==> value@ is Null,
        value matches Json::Bool(b) ==> value@ == JsonView::Bool(b),
        value matches Json::Number(n) ==> value@ == JsonView::Number(n),
        value matches Json::String(s) ==> value@ == JsonView::String(s@),
        value matches Json::Array(items) ==> {
            &&& value@ matches JsonView::Array(trees)
            &&& trees.len() == items@.len()
            &&& trees == views(items@)
            &&& forall|i: int| 0 <= i < items@.len() ==> #[trigger] trees[i] == items@[i]@
        },
        value matches Json::Object(members) ==> {
            &&& value@ matches JsonView::Object(trees)
            &&& trees.len() == members@.len()
            &&& forall|i: int|
                0 <= i < members@.len() ==> (#[trigger] trees[i]).0 == members@[i].0@ && trees[i].1
                    == members@[i].1@
        },
        json_view(Some(value)) == Some(value@),
        json_view(None) is None,
        seen(Some(&value)) == Some(value@),
        seen(None) is None,
{
    if let Json::Array(items) = value {
        assert(value@->Array_0 =~= views(items@));
    }
}

} // verus!
