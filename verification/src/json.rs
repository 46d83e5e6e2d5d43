//! JSON values as the broker, the tool registry and the memory layer hold
//! them: tool inputs and outputs, schemas and stored memories.

use vstd::prelude::*;
use crate::search::{first_index_of, lemma_first_index_of};
use crate::text::str_eq;

verus! {

/// A JSON value. A number is held as its decimal text, as it was written; an
/// object holds its members in order. JSON text read by a parser has distinct
/// keys; a lookup finds the first member with the key.
#[derive(Debug, PartialEq)]
pub enum JsonValue {
    Null,
    Bool(bool),
    Number(String),
    Str(String),
    Array(Vec<JsonValue>),
    Object(Vec<(String, JsonValue)>),
}

/// The content of a JSON value as mathematical values: two values hold the
/// same JSON exactly when their trees are equal.
pub enum JsonTree {
    Null,
    Bool(bool),
    Number(Seq<char>),
    Str(Seq<char>),
    Array(Seq<JsonTree>),
    Object(Seq<(Seq<char>, JsonTree)>),
}

impl JsonValue {
    /// The content of the value.
    pub open spec fn tree(self) -> JsonTree
        decreases self,
    {
        match self {
            JsonValue::Null => JsonTree::Null,
            JsonValue::Bool(b) => JsonTree::Bool(b),
            JsonValue::Number(n) => JsonTree::Number(n@),
            JsonValue::Str(t) => JsonTree::Str(t@),
            JsonValue::Array(items) => JsonTree::Array(
                Seq::new(
                    items@.len(),
                    |i: int|
                        if 0 <= i < items@.len() {
                            proof {
                                assert(decreases_to!(self => items));
                                assert(decreases_to!(items => items@));
                                assert(decreases_to!(items@ => items@[i]));
                            }
                            items@[i].tree()
                        } else {
                            JsonTree::Null
                        },
                ),
            ),
            JsonValue::Object(members) => JsonTree::Object(
                Seq::new(
                    members@.len(),
                    |i: int|
                        if 0 <= i < members@.len() {
                            proof {
                                assert(decreases_to!(self => members));
                                assert(decreases_to!(members => members@));
                                assert(decreases_to!(members@ => members@[i]));
                                assert(decreases_to!(members@[i] => members@[i].1));
                            }
                            (members@[i].0@, members@[i].1.tree())
                        } else {
                            (Seq::empty(), JsonTree::Null)
                        },
                ),
            ),
        }
    }
}

impl Clone for JsonValue {
    /// A deep copy of the value: it holds the same JSON.
    fn clone(&self) -> (r: Self)
        ensures
            r.tree() == self.tree(),
        decreases self,
    {
        match self {
            JsonValue::Null => JsonValue::Null,
            JsonValue::Bool(b) => JsonValue::Bool(*b),
            JsonValue::Number(n) => JsonValue::Number(n.clone()),
            JsonValue::Str(s) => JsonValue::Str(s.clone()),
            JsonValue::Array(items) => {
                let mut out: Vec<JsonValue> = Vec::new();
                let mut i: usize = 0;
                while i < items.len()
                    invariant
                        *self == JsonValue::Array(*items),
                        i <= items.len(),
                        out@.len() == i,
                        forall|j: int| 0 <= j < i ==> (#[trigger] out@[j]).tree() == items@[j].tree(),
                    decreases items.len() - i,
                {
                    assert((*self)->Array_0 == *items);
                    assert(decreases_to!(*self => (*self)->Array_0));
                    assert(decreases_to!(*items => items@));
                    assert(decreases_to!(items@ => items@[i as int]));
                    out.push(items[i].clone());
                    i = i + 1;
                }
                let r = JsonValue::Array(out);
                assert(r.tree() == self.tree()) by {
                    if let JsonTree::Array(a) = r.tree() {
                        if let JsonTree::Array(b) = self.tree() {
                            assert(a =~= b);
                        }
                    }
                }
                r
            },
            JsonValue::Object(members) => {
                let mut out: Vec<(String, JsonValue)> = Vec::new();
                let mut i: usize = 0;
                while i < members.len()
                    invariant
                        *self == JsonValue::Object(*members),
                        i <= members.len(),
                        out@.len() == i,
                        forall|j: int|
                            0 <= j < i ==> (#[trigger] out@[j]).0@ == members@[j].0@ && out@[j].1.tree()
                                == members@[j].1.tree(),
                    decreases members.len() - i,
                {
                    assert((*self)->Object_0 == *members);
                    assert(decreases_to!(*self => (*self)->Object_0));
                    assert(decreases_to!(*members => members@));
                    assert(decreases_to!(members@ => members@[i as int]));
                    assert(decreases_to!(members@[i as int] => members@[i as int].1));
                    out.push((members[i].0.clone(), members[i].1.clone()));
                    i = i + 1;
                }
                let r = JsonValue::Object(out);
                assert(r.tree() == self.tree()) by {
                    if let JsonTree::Object(a) = r.tree() {
                        if let JsonTree::Object(b) = self.tree() {
                            assert(a =~= b);
                        }
                    }
                }
                r
            },
        }
    }
}

/// The keys of the members of an object, in order.
pub open spec fn member_keys(members: Seq<(String, JsonValue)>) -> Seq<Seq<char>> {
    members.map_values(|m: (String, JsonValue)| m.0@)
}

impl JsonValue {
    /// The value of the member `key` of an object; `None` for a missing key
    /// and for a value that is not an object.
    pub open spec fn spec_get(self, key: Seq<char>) -> Option<JsonValue> {
        match self {
            JsonValue::Object(members) => {
                let i = first_index_of(member_keys(members@), key);
                if i >= 0 {
                    Some(members@[i].1)
                } else {
                    None
                }
            },
            _ => None,
        }
    }

    /// Whether the value is an object.
    pub fn is_object(&self) -> (r: bool)
        ensures
            r == (*self is Object),
    {
        match self {
            JsonValue::Object(_) => true,
            _ => false,
        }
    }

    /// The value of the member `key` of an object; `None` for a missing key
    /// and for a value that is not an object.
    pub fn get(&self, key: &str) -> (r: Option<&JsonValue>)
        ensures
            match r {
                Some(v) => self.spec_get(key@) == Some(*v),
                None => self.spec_get(key@) is None,
            },
    {
        match self {
            JsonValue::Object(members) => {
                let ghost keys = member_keys(members@);
                let mut i: usize = 0;
                while i < members.len()
                    invariant
                        *self == JsonValue::Object(*members),
                        keys == member_keys(members@),
                        i <= members.len(),
                        forall|j: int| 0 <= j < i ==> keys[j] != key@,
                    decreases members.len() - i,
                {
                    if str_eq(members[i].0.as_str(), key) {
                        proof {
                            lemma_first_index_of(keys, key@);
                            assert(keys[i as int] == key@);
                            assert(keys.contains(key@));
                            let fi = first_index_of(keys, key@);
                            if fi < i {
                                assert(keys[fi] != key@);
                            }
                            if fi > i {
                                assert(keys[i as int] != key@);
                            }
                            assert(fi == i);
                        }
                        return Some(&members[i].1);
                    }
                    i = i + 1;
                }
                proof {
                    lemma_first_index_of(keys, key@);
                    if keys.contains(key@) {
                        let j = choose|j: int| 0 <= j < keys.len() && keys[j] == key@;
                        assert(false);
                    }
                }
                None
            },
            _ => None,
        }
    }
}

} // verus!
