//! JSON texts as plain values.
use crate::text;
use vstd::prelude::*;

verus! {

/// A JSON value. A number is kept as the `serde_json` crate prints it.
#[derive(Debug, PartialEq, Eq)]
pub enum Json {
    Null,
    Bool(bool),
    Number(String),
    Text(String),
    List(Vec<Json>),
    Object(Vec<(String, Json)>),
}

/// What a JSON value says.
#[verifier::ext_equal]
pub enum JsonTree {
    Null,
    Bool(bool),
    Number(Seq<char>),
    Text(Seq<char>),
    List(Seq<JsonTree>),
    Object(Seq<(Seq<char>, JsonTree)>),
}

/// What each of the first `n` values of a list says.
pub open spec fn trees(v: Seq<Json>, n: nat) -> Seq<JsonTree>
    decreases v, n,
{
    if n == 0 || n > v.len() {
        Seq::empty()
    } else {
        trees(v, (n - 1) as nat).push(v[n - 1].tree())
    }
}

/// The first `n` entries of an object, each key with what its value says.
pub open spec fn branches(v: Seq<(String, Json)>, n: nat) -> Seq<(Seq<char>, JsonTree)>
    decreases v, n,
{
    if n == 0 || n > v.len() {
        Seq::empty()
    } else {
        branches(v, (n - 1) as nat).push((v[n - 1].0@, v[n - 1].1.tree()))
    }
}

proof fn lemma_trees(v: Seq<Json>, n: nat)
    requires
        n <= v.len(),
    ensures
        trees(v, n).len() == n,
        forall|i: int| 0 <= i < n ==> #[trigger] trees(v, n)[i] == v[i].tree(),
    decreases n,
{
    if n > 0 {
        lemma_trees(v, (n - 1) as nat);
    }
}

proof fn lemma_branches(v: Seq<(String, Json)>, n: nat)
    requires
        n <= v.len(),
    ensures
        branches(v, n).len() == n,
        forall|i: int|
            0 <= i < n ==> #[trigger] branches(v, n)[i] == (v[i].0@, v[i].1.tree()),
    decreases n,
{
    if n > 0 {
        lemma_branches(v, (n - 1) as nat);
    }
}

/// A JSON value of the `serde_json` crate.
#[verifier::external_type_specification]
#[verifier::external_body]
pub struct ExValue(serde_json::Value);

/// What a value of the `serde_json` crate holds.
pub uninterp spec fn held_by(v: serde_json::Value) -> JsonTree;

/// What the `serde_json` crate reads from a text: a value, or the words in
/// which it says why there is none.
pub uninterp spec fn json_of(text: Seq<char>) -> Result<JsonTree, Seq<char>>;

/// `serde_json::from_str` into a `serde_json::Value`. What the value holds,
/// and the words of the error, depend on the text alone.
#[verifier::external_body]
fn read(text: &str) -> (r: Result<serde_json::Value, String>)
    ensures
        match r {
            Ok(v) => json_of(text@) == Ok::<JsonTree, Seq<char>>(held_by(v)),
            Err(e) => json_of(text@) == Err::<JsonTree, Seq<char>>(e@),
        },
{
    serde_json::from_str::<serde_json::Value>(text).map_err(|e| e.to_string())
}

/// A `serde_json::Value` as plain values, variant by variant, which says what
/// the value holds.
#[verifier::external_body]
fn plain(v: serde_json::Value) -> (j: Json)
    ensures
        j.tree() == held_by(v),
{
    match v {
        serde_json::Value::Null => Json::Null,
        serde_json::Value::Bool(b) => Json::Bool(b),
        serde_json::Value::Number(n) => Json::Number(n.to_string()),
        serde_json::Value::String(s) => Json::Text(s),
        serde_json::Value::Array(a) => Json::List(a.into_iter().map(plain).collect()),
        serde_json::Value::Object(o) => {
            Json::Object(o.into_iter().map(|(k, v)| (k, plain(v))).collect())
        },
    }
}

/// Read a JSON text.
pub fn parse(text: &str) -> (r: Result<Json, String>)
    ensures
        match r {
            Ok(j) => json_of(text@) == Ok::<JsonTree, Seq<char>>(j.tree()),
            Err(e) => json_of(text@) == Err::<JsonTree, Seq<char>>(e@),
        },
{
    match read(text) {
        Ok(v) => Ok(plain(v)),
        Err(e) => Err(e),
    }
}

/// The value at a key of an object, of the first entry that has it.
pub open spec fn field(
    entries: Seq<(Seq<char>, JsonTree)>,
    key: Seq<char>,
    from: int,
) -> Option<JsonTree>
    decreases entries.len() - from,
{
    if from < 0 || from >= entries.len() {
        None
    } else if entries[from].0 == key {
        Some(entries[from].1)
    } else {
        field(entries, key, from + 1)
    }
}

impl JsonTree {
    /// The value at a key, where this is an object that has it.
    pub open spec fn at(self, key: Seq<char>) -> Option<JsonTree> {
        match self {
            JsonTree::Object(entries) => field(entries, key, 0),
            _ => None,
        }
    }

    /// The characters, where this is a text.
    pub open spec fn chars(self) -> Option<Seq<char>> {
        match self {
            JsonTree::Text(s) => Some(s),
            _ => None,
        }
    }

    /// The elements, where this is a list; none otherwise.
    pub open spec fn elements(self) -> Seq<JsonTree> {
        match self {
            JsonTree::List(v) => v,
            _ => Seq::empty(),
        }
    }
}

impl Json {
    /// What this value says.
    pub open spec fn tree(self) -> JsonTree
        decreases self, 0nat,
    {
        match self {
            Json::Null => JsonTree::Null,
            Json::Bool(b) => JsonTree::Bool(b),
            Json::Number(s) => JsonTree::Number(s@),
            Json::Text(s) => JsonTree::Text(s@),
            Json::List(v) => JsonTree::List(trees(v@, v@.len())),
            Json::Object(v) => JsonTree::Object(branches(v@, v@.len())),
        }
    }

    /// The value at a key, where this is an object that has it.
    pub fn get(&self, key: &str) -> (r: Option<&Json>)
        ensures
            match r {
                Some(j) => self.tree().at(key@) == Some(j.tree()),
                None => self.tree().at(key@) is None,
            },
    {
        match self {
            Json::Object(entries) => {
                let ghost said = branches(entries@, entries@.len());
                proof {
                    lemma_branches(entries@, entries@.len());
                }
                let mut i: usize = 0;
                while i < entries.len()
                    invariant
                        i <= entries.len(),
                        said.len() == entries@.len(),
                        forall|k: int|
                            0 <= k < said.len() ==> #[trigger] said[k] == (
                                entries@[k].0@,
                                entries@[k].1.tree(),
                            ),
                        field(said, key@, 0) == field(said, key@, i as int),
                        self.tree() == JsonTree::Object(said),
                    decreases entries.len() - i,
                {
                    assert(said[i as int] == (entries@[i as int].0@, entries@[i as int].1.tree()));
                    if text::same(&entries[i].0, key) {
                        return Some(&entries[i].1);
                    }
                    i += 1;
                }
                None
            },
            _ => None,
        }
    }

    /// The elements, where this is a list; none otherwise.
    pub fn list(&self) -> (r: Option<&Vec<Json>>)
        ensures
            match r {
                Some(v) => self.tree() is List && self.tree().elements().len() == v@.len()
                    && forall|i: int|
                    0 <= i < v@.len() ==> #[trigger] self.tree().elements()[i] == v@[i].tree(),
                None => self.tree() !is List,
            },
    {
        match self {
            Json::List(v) => {
                proof {
                    lemma_trees(v@, v@.len());
                }
                Some(v)
            },
            _ => None,
        }
    }

    /// The characters, where this is a text.
    pub fn as_text(&self) -> (r: Option<&String>)
        ensures
            match r {
                Some(s) => self.tree().chars() == Some(s@),
                None => self.tree().chars() is None,
            },
    {
        match self {
            Json::Text(s) => Some(s),
            _ => None,
        }
    }
}

// ---------------------------------------------------------------------------
// Laws
// ---------------------------------------------------------------------------

/// Law: a key's value is the first that stands under it in an object; there is
/// none where none stands there, and none in anything but an object.
pub proof fn law_a_key_gives_its_first_value(
    entries: Seq<(Seq<char>, JsonTree)>,
    key: Seq<char>,
    i: int,
    t: JsonTree,
)
    ensures
        0 <= i < entries.len() && entries[i].0 == key && (forall|k: int|
            0 <= k < i ==> (#[trigger] entries[k]).0 != key) ==> JsonTree::Object(entries).at(key)
            == Some(entries[i].1),
        (forall|k: int| 0 <= k < entries.len() ==> (#[trigger] entries[k]).0 != key)
            ==> JsonTree::Object(entries).at(key) is None,
        !(t is Object) ==> t.at(key) is None,
        t.chars() == (if t is Text {
            Some(t->Text_0)
        } else {
            None
        }),
{
    if 0 <= i < entries.len() && entries[i].0 == key && (forall|k: int|
        0 <= k < i ==> (#[trigger] entries[k]).0 != key) {
        lemma_field_first(entries, key, 0, i);
    }
    if forall|k: int| 0 <= k < entries.len() ==> (#[trigger] entries[k]).0 != key {
        lemma_no_field(entries, key, 0);
    }
}

proof fn lemma_field_first(
    entries: Seq<(Seq<char>, JsonTree)>,
    key: Seq<char>,
    from: int,
    i: int,
)
    requires
        0 <= from <= i < entries.len(),
        entries[i].0 == key,
        forall|k: int| 0 <= k < i ==> (#[trigger] entries[k]).0 != key,
    ensures
        field(entries, key, from) == Some(entries[i].1),
    decreases i - from,
{
    if from < i {
        lemma_field_first(entries, key, from + 1, i);
    }
}

proof fn lemma_no_field(entries: Seq<(Seq<char>, JsonTree)>, key: Seq<char>, from: int)
    requires
        0 <= from <= entries.len(),
        forall|k: int| 0 <= k < entries.len() ==> (#[trigger] entries[k]).0 != key,
    ensures
        field(entries, key, from) is None,
    decreases entries.len() - from,
{
    if from < entries.len() {
        lemma_no_field(entries, key, from + 1);
    }
}

} // verus!
