//! JSON documents.

use vstd::prelude::*;

use crate::seconds::Seconds;
use crate::text;

verus! {

/// A JSON value. A number is held by the bits of the double that stands for it.
#[derive(PartialEq, Eq, Debug)]
pub enum Json {
    Null,
    Bool(bool),
    Number(Option<u64>),
    Text(String),
    Array(Vec<Json>),
    Object(Vec<(String, Json)>),
}

/// The view of a [`Json`] value.
pub enum JsonTree {
    Null,
    Bool(bool),
    Number(Option<u64>),
    Text(Seq<char>),
    Array(Seq<JsonTree>),
    Object(Seq<(Seq<char>, JsonTree)>),
}

impl View for Json {
    type V = JsonTree;

    open spec fn view(&self) -> JsonTree {
        self.tree()
    }
}

impl Json {
    /// The view, by cases.
    pub open spec fn tree(self) -> JsonTree
        decreases self,
    {
        match self {
            Json::Null => JsonTree::Null,
            Json::Bool(value) => JsonTree::Bool(value),
            Json::Number(bits) => JsonTree::Number(bits),
            Json::Text(value) => JsonTree::Text(value@),
            Json::Array(items) => JsonTree::Array(
                Seq::new(
                    items@.len(),
                    |i: int|
                        if 0 <= i < items@.len() {
                            items@[i].tree()
                        } else {
                            arbitrary()
                        },
                ),
            ),
            Json::Object(fields) => JsonTree::Object(
                Seq::new(
                    fields@.len(),
                    |i: int|
                        if 0 <= i < fields@.len() {
                            (fields@[i].0@, fields@[i].1.tree())
                        } else {
                            arbitrary()
                        },
                ),
            ),
        }
    }
}

/// A value of the JSON reader.
#[verifier::external_type_specification]
#[verifier::external_body]
pub struct ExValue(serde_json::Value);

/// What a value of the JSON reader holds.
pub uninterp spec fn value_tree(value: serde_json::Value) -> JsonTree;

/// The document that `bytes` write, or what is wrong with them.
pub uninterp spec fn json_document(bytes: Seq<u8>) -> Result<JsonTree, Seq<char>>;

/// `serde_json::from_slice`, read as a `serde_json::Value`, its fault as the text that it is shown
/// by: whether it succeeds, and what it yields, depends on the bytes alone.
#[verifier::external_body]
fn read_value(bytes: &[u8]) -> (result: Result<serde_json::Value, String>)
    ensures
        json_document(bytes@) == match result {
            Ok(value) => Ok(value_tree(value)),
            Err(fault) => Err(fault@),
        },
{
    match serde_json::from_slice(bytes) {
        Ok(value) => Ok(value),
        Err(error) => Err(error.to_string()),
    }
}

/// One level of a `serde_json::Value`.
enum Level {
    Null,
    Bool(bool),
    Number(Option<u64>),
    Text(String),
    Array(Vec<serde_json::Value>),
    Object(Vec<(String, serde_json::Value)>),
}

/// Takes a `serde_json::Value` apart by its variant. The items of an array and the fields of an
/// object come in the order in which the value lists them, and `serde_json::Number::as_f64` gives
/// a number.
#[verifier::external_body]
fn open_value(value: serde_json::Value) -> (result: Level)
    ensures
        match result {
            Level::Null => value_tree(value) is Null,
            Level::Bool(b) => value_tree(value) == JsonTree::Bool(b),
            Level::Number(bits) => value_tree(value) == JsonTree::Number(bits),
            Level::Text(t) => value_tree(value) == JsonTree::Text(t@),
            Level::Array(items) => value_tree(value) == JsonTree::Array(
                Seq::new(items@.len(), |i: int| value_tree(items@[i])),
            ),
            Level::Object(fields) => value_tree(value) == JsonTree::Object(
                Seq::new(fields@.len(), |i: int| (fields@[i].0@, value_tree(fields@[i].1))),
            ),
        },
{
    match value {
        serde_json::Value::Null => Level::Null,
        serde_json::Value::Bool(b) => Level::Bool(b),
        serde_json::Value::Number(n) => Level::Number(n.as_f64().map(|n| n.to_bits())),
        serde_json::Value::String(t) => Level::Text(t),
        serde_json::Value::Array(items) => Level::Array(items),
        serde_json::Value::Object(fields) => Level::Object(fields.into_iter().collect()),
    }
}

/// Rebuilds a value of the reader as a [`Json`].
fn rebuild(value: serde_json::Value) -> (result: Json)
    ensures
        result@ == value_tree(value),
    decreases value_tree(value),
{
    let ghost tree = value_tree(value);
    match open_value(value) {
        Level::Null => Json::Null,
        Level::Bool(b) => Json::Bool(b),
        Level::Number(bits) => Json::Number(bits),
        Level::Text(t) => Json::Text(t),
        Level::Array(items) => {
            let ghost list = items@;
            let ghost trees = tree->Array_0;
            let mut result: Vec<Json> = Vec::new();
            for item in iter: items
                invariant
                    iter.seq() == list,
                    tree == JsonTree::Array(trees),
                    trees == Seq::new(list.len(), |i: int| value_tree(list[i])),
                    result@.len() == iter.index(),
                    forall|k: int|
                        0 <= k < iter.index() ==> (#[trigger] result@[k])@ == value_tree(list[k]),
                    tree == value_tree(value),
            {
                proof {
                    assert(trees[iter.index()] == value_tree(item));
                    assert(decreases_to!(tree => tree->Array_0));
                    assert(decreases_to!(trees => trees[iter.index()]));
                }
                result.push(rebuild(item));
            }
            proof {
                assert(Json::Array(result)@->Array_0 =~= trees);
            }
            Json::Array(result)
        },
        Level::Object(fields) => {
            let ghost list = fields@;
            let ghost trees = tree->Object_0;
            let mut result: Vec<(String, Json)> = Vec::new();
            for field in iter: fields
                invariant
                    iter.seq() == list,
                    tree == JsonTree::Object(trees),
                    trees == Seq::new(list.len(), |i: int| (list[i].0@, value_tree(list[i].1))),
                    result@.len() == iter.index(),
                    forall|k: int|
                        0 <= k < iter.index() ==> (#[trigger] result@[k]).0@ == list[k].0@
                            && result@[k].1@ == value_tree(list[k].1),
                    tree == value_tree(value),
            {
                let (key, inner) = field;
                proof {
                    assert(trees[iter.index()].1 == value_tree(inner));
                    assert(decreases_to!(tree => tree->Object_0));
                    assert(decreases_to!(trees => trees[iter.index()]));
                    assert(decreases_to!(trees[iter.index()] => trees[iter.index()].1));
                }
                result.push((key, rebuild(inner)));
            }
            proof {
                assert(Json::Object(result)@->Object_0 =~= trees);
            }
            Json::Object(result)
        },
    }
}

/// Reads a JSON document, or tells what is wrong with it.
pub fn parse(bytes: &[u8]) -> (result: Result<Json, String>)
    ensures
        json_document(bytes@) == match result {
            Ok(value) => Ok(value@),
            Err(fault) => Err(fault@),
        },
{
    match read_value(bytes) {
        Ok(value) => Ok(rebuild(value)),
        Err(fault) => Err(fault),
    }
}

/// The value of the first field named `key`.
pub open spec fn field(fields: Seq<(Seq<char>, JsonTree)>, key: Seq<char>) -> Option<JsonTree>
    decreases fields.len(),
{
    if fields.len() == 0 {
        None
    } else if fields[0].0 == key {
        Some(fields[0].1)
    } else {
        field(fields.skip(1), key)
    }
}

impl JsonTree {
    /// The field of an object named `key`.
    pub open spec fn member(self, key: Seq<char>) -> Option<JsonTree> {
        match self {
            JsonTree::Object(fields) => field(fields, key),
            _ => None,
        }
    }

    /// The field named `key`, where it is an array.
    pub open spec fn items(self, key: Seq<char>) -> Option<Seq<JsonTree>> {
        match self.member(key) {
            Some(JsonTree::Array(items)) => Some(items),
            _ => None,
        }
    }

    /// The field named `key`, where it is a text that is not empty.
    pub open spec fn text(self, key: Seq<char>) -> Option<Seq<char>> {
        match self.member(key) {
            Some(JsonTree::Text(value)) => if value.len() == 0 {
                None
            } else {
                Some(value)
            },
            _ => None,
        }
    }

    /// The field named `key`, where it is a finite number.
    pub open spec fn number(self, key: Seq<char>) -> Option<Seconds> {
        match self.member(key) {
            Some(JsonTree::Number(Some(bits))) => if (Seconds { bits }).finite() {
                Some(Seconds { bits })
            } else {
                None
            },
            _ => None,
        }
    }
}

impl Json {
    /// The field of an object named `key`.
    pub fn get(&self, key: &str) -> (result: Option<&Json>)
        ensures
            match result {
                Some(value) => self@.member(key@) == Some(value@),
                None => self@.member(key@) is None,
            },
    {
        match self {
            Json::Object(fields) => {
                let ghost trees = self@->Object_0;
                let mut i: usize = 0;
                assert(trees.skip(0) =~= trees);
                while i < fields.len()
                    invariant
                        *self == Json::Object(*fields),
                        self@ == JsonTree::Object(trees),
                        trees.len() == fields@.len(),
                        forall|k: int|
                            0 <= k < trees.len() ==> #[trigger] trees[k] == (
                                fields@[k].0@,
                                fields@[k].1@,
                            ),
                        i <= fields@.len(),
                        field(trees, key@) == field(trees.skip(i as int), key@),
                    decreases fields@.len() - i,
                {
                    assert(trees[i as int] == (fields@[i as int].0@, fields@[i as int].1@));
                    if text::same_text(fields[i].0.as_str(), key) {
                        return Some(&fields[i].1);
                    }
                    assert(trees.skip(i as int).skip(1) =~= trees.skip(i + 1));
                    i += 1;
                }
                None
            },
            _ => None,
        }
    }

    /// The field named `key`, where it is an array.
    pub fn get_items(&self, key: &str) -> (result: Option<&Vec<Json>>)
        ensures
            match result {
                Some(items) => self@.items(key@) == Some(text::views(items@)),
                None => self@.items(key@) is None,
            },
    {
        match self.get(key) {
            Some(Json::Array(items)) => {
                assert(Json::Array(*items)@->Array_0 =~= text::views(items@));
                Some(items)
            },
            _ => None,
        }
    }

    /// The field named `key`, where it is a text that is not empty.
    pub fn get_text(&self, key: &str) -> (result: Option<&str>)
        ensures
            match result {
                Some(value) => self@.text(key@) == Some(value@),
                None => self@.text(key@) is None,
            },
    {
        match self.get(key) {
            Some(Json::Text(value)) => {
                if value.as_str().is_empty() {
                    assert(value@.len() == 0);
                    None
                } else {
                    Some(value.as_str())
                }
            },
            _ => None,
        }
    }

    /// The field named `key`, where it is a finite number.
    pub fn get_number(&self, key: &str) -> (result: Option<Seconds>)
        ensures
            result == self@.number(key@),
    {
        match self.get(key) {
            Some(Json::Number(Some(bits))) => {
                let value = Seconds { bits: *bits };
                if value.is_finite() {
                    Some(value)
                } else {
                    None
                }
            },
            _ => None,
        }
    }
}

/// Whether an object has a field with this name and this value, and none of the same name before.
pub open spec fn has_field(tree: JsonTree, key: Seq<char>, value: JsonTree) -> bool {
    tree matches JsonTree::Object(fields) && exists|i: int|
        0 <= i < fields.len() && #[trigger] fields[i] == (key, value) && forall|j: int|
            0 <= j < i ==> (#[trigger] fields[j]).0 != key
}

/// Whether a value has no field of this name.
pub open spec fn lacks_field(tree: JsonTree, key: Seq<char>) -> bool {
    tree matches JsonTree::Object(fields) ==> forall|j: int|
        0 <= j < fields.len() ==> (#[trigger] fields[j]).0 != key
}

proof fn lemma_field(fields: Seq<(Seq<char>, JsonTree)>, key: Seq<char>, i: int)
    requires
        0 <= i <= fields.len(),
        forall|j: int| 0 <= j < i ==> (#[trigger] fields[j]).0 != key,
        i < fields.len() ==> fields[i].0 == key,
    ensures
        field(fields, key) == if i < fields.len() {
            Some(fields[i].1)
        } else {
            None
        },
    decreases fields.len(),
{
    if fields.len() > 0 && i > 0 {
        let rest = fields.skip(1);
        assert(fields[0].0 != key);
        assert forall|j: int| 0 <= j < i - 1 implies (#[trigger] rest[j]).0 != key by {
            assert(rest[j] == fields[j + 1]);
        }
        if i < fields.len() {
            assert(rest[i - 1] == fields[i]);
        }
        lemma_field(rest, key, i - 1);
    }
}

/// What is read of an object is what stands in it: a text as a text unless it is empty, a list as a
/// list, a finite number as a number, nothing as another kind, and nothing where there is no field
/// of the name.
pub proof fn lemma_fields_read(tree: JsonTree, key: Seq<char>, value: JsonTree)
    ensures
        has_field(tree, key, value) ==> tree.member(key) == Some(value) && tree.text(key)
            == match value {
            JsonTree::Text(t) => if t.len() > 0 {
                Some(t)
            } else {
                None
            },
            _ => None,
        } && tree.items(key) == match value {
            JsonTree::Array(list) => Some(list),
            _ => None,
        } && tree.number(key) == match value {
            JsonTree::Number(Some(bits)) => if (Seconds { bits }).finite() {
                Some(Seconds { bits })
            } else {
                None
            },
            _ => None,
        },
        lacks_field(tree, key) ==> tree.member(key) is None && tree.text(key) is None && tree.items(
            key,
        ) is None && tree.number(key) is None,
{
    if let JsonTree::Object(fields) = tree {
        if has_field(tree, key, value) {
            let i = choose|i: int|
                0 <= i < fields.len() && #[trigger] fields[i] == (key, value) && forall|j: int|
                    0 <= j < i ==> (#[trigger] fields[j]).0 != key;
            lemma_field(fields, key, i);
        }
        if lacks_field(tree, key) {
            lemma_field(fields, key, fields.len() as int);
        }
    }
}

} // verus!
