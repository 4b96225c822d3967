//! JSON as `serde_json` reads it, held in a tree of the library's own.
use vstd::prelude::*;
use crate::text::{same, trim, trimmed};

verus! {

/// A JSON value. Numbers are kept as their texts.
#[derive(Debug)]
pub enum Json {
    Null,
    Bool(bool),
    Number(String),
    Text(String),
    Array(Vec<Json>),
    Object(Vec<(String, Json)>),
}

pub enum Tree {
    Null,
    Bool(bool),
    Number(Seq<char>),
    Text(Seq<char>),
    Array(Seq<Tree>),
    Object(Seq<(Seq<char>, Tree)>),
}

/// The tree of a JSON value.
pub open spec fn tree(j: Json) -> Tree
    decreases j,
{
    match j {
        Json::Null => Tree::Null,
        Json::Bool(b) => Tree::Bool(b),
        Json::Number(s) => Tree::Number(s@),
        Json::Text(s) => Tree::Text(s@),
        Json::Array(v) => Tree::Array(
            Seq::new(
                v@.len(),
                |i: int|
                    if 0 <= i < v@.len() {
                        tree(v@[i])
                    } else {
                        Tree::Null
                    },
            ),
        ),
        Json::Object(v) => Tree::Object(
            Seq::new(
                v@.len(),
                |i: int|
                    if 0 <= i < v@.len() {
                        (v@[i].0@, tree(v@[i].1))
                    } else {
                        (Seq::empty(), Tree::Null)
                    },
            ),
        ),
    }
}

impl View for Json {
    type V = Tree;

    open spec fn view(&self) -> Tree {
        tree(*self)
    }
}

/// The members of an object, one by one.
pub proof fn lemma_object_view(j: Json, m: Vec<(String, Json)>)
    requires
        j == Json::Object(m),
    ensures
        j@ is Object,
        j@->Object_0.len() == m@.len(),
        forall|i: int| 0 <= i < m@.len() ==> #[trigger] j@->Object_0[i] == (m@[i].0@, m@[i].1@),
{
    reveal_with_fuel(tree, 2);
}

/// `serde_json::Value`, carried from its parser to its conversion.
#[verifier::external_type_specification]
#[verifier::external_body]
pub struct ExValue(serde_json::Value);

/// What a `serde_json::Value` holds.
pub uninterp spec fn tree_of(v: serde_json::Value) -> Tree;

/// What `serde_json` reads a text as; nothing where it is not JSON.
pub uninterp spec fn json_of(text: Seq<char>) -> Option<Tree>;

/// `serde_json::from_str`: the value that a text holds, a function of the text
/// alone; nothing where the text is not JSON.
#[verifier::external_body]
fn read_value(text: &str) -> (r: Option<serde_json::Value>)
    ensures
        match r {
            Some(v) => json_of(text@) == Some(tree_of(v)),
            None => json_of(text@) is None,
        },
{
    serde_json::from_str(text).ok()
}

/// The contents of a `serde_json::Value`, variant by variant; the members of
/// an object in the order in which `serde_json::Map` walks them.
#[verifier::external_body]
fn from_value(v: serde_json::Value) -> (r: Json)
    ensures
        r@ == tree_of(v),
{
    match v {
        serde_json::Value::Null => Json::Null,
        serde_json::Value::Bool(b) => Json::Bool(b),
        serde_json::Value::Number(n) => Json::Number(n.to_string()),
        serde_json::Value::String(s) => Json::Text(s),
        serde_json::Value::Array(a) => Json::Array(a.into_iter().map(from_value).collect()),
        serde_json::Value::Object(o) => Json::Object(
            o.into_iter().map(|(k, v)| (k, from_value(v))).collect(),
        ),
    }
}

/// Reads a text as JSON; `None` where it is not.
pub fn parse_json(text: &str) -> (r: Option<Json>)
    ensures
        match r {
            Some(j) => json_of(text@) == Some(j@),
            None => json_of(text@) is None,
        },
{
    match read_value(text) {
        Some(v) => Some(from_value(v)),
        None => None,
    }
}

/// The value of the first entry under a key.
pub open spec fn entry(m: Seq<(Seq<char>, Tree)>, key: Seq<char>) -> Option<Tree>
    decreases m.len(),
{
    if m.len() == 0 {
        None
    } else if m[0].0 == key {
        Some(m[0].1)
    } else {
        entry(m.skip(1), key)
    }
}

/// The member of an object; nothing where there is none or it is no object.
pub open spec fn member(t: Tree, key: Seq<char>) -> Option<Tree> {
    match t {
        Tree::Object(m) => entry(m, key),
        _ => None,
    }
}

impl Json {
    /// The member of an object under a key.
    pub fn get<'a>(&'a self, key: &str) -> (r: Option<&'a Json>)
        ensures
            match r {
                Some(j) => member(self@, key@) == Some(j@),
                None => member(self@, key@) is None,
            },
    {
        match self {
            Json::Object(m) => {
                let ghost all = self@->Object_0;
                proof {
                    lemma_object_view(*self, *m);
                }
                let mut i: usize = 0;
                assert(all.skip(0) =~= all);
                while i < m.len()
                    invariant
                        i <= m@.len(),
                        self@ == Tree::Object(all),
                        all.len() == m@.len(),
                        forall|k: int| 0 <= k < m@.len() ==> #[trigger] all[k] == (m@[k].0@, m@[k].1@),
                        entry(all.skip(i as int), key@) == entry(all, key@),
                    decreases m.len() - i,
                {
                    assert(all.skip(i as int)[0] == (m@[i as int].0@, m@[i as int].1@));
                    assert(all.skip(i as int).skip(1) =~= all.skip(i + 1));
                    if same(m[i].0.as_str(), key) {
                        return Some(&m[i].1);
                    }
                    i += 1;
                }
                None
            },
            _ => None,
        }
    }
}

/// The text of a number, or a string's text without the white space at its
/// ends.
pub open spec fn atom(t: Tree) -> Option<Seq<char>> {
    match t {
        Tree::Number(s) => Some(s),
        Tree::Text(s) => Some(trim(s)),
        _ => None,
    }
}

/// The text that may read as a number.
pub fn atom_of(j: &Json) -> (r: Option<String>)
    ensures
        crate::outside::opt_text(r) == atom(j@),
{
    match j {
        Json::Number(s) => Some(s.clone()),
        Json::Text(s) => Some(trimmed(s.as_str())),
        _ => None,
    }
}

} // verus!
