//! JSON values: reading them, changing one member, and rendering them.
//!
//! Parsing and rendering are done by `serde_json`; everything between is a
//! tree that the rest of the library can inspect.

use crate::order::{lex_less, text_before, text_rank};
use crate::text::same_text;
use vstd::prelude::*;

verus! {

/// A number as `serde_json` holds it.
#[verifier::external_type_specification]
#[verifier::external_body]
pub struct ExNumber(serde_json::Number);

/// A value as `serde_json` holds it.
#[verifier::external_type_specification]
#[verifier::external_body]
pub struct ExValue(serde_json::Value);

/// `Number::clone` gives back the same number.
pub assume_specification[ <serde_json::Number as Clone>::clone ](
    number: &serde_json::Number,
) -> (r: serde_json::Number)
    ensures
        r == *number,
;

pub enum Json {
    Null,
    Bool(bool),
    Number(serde_json::Number),
    Text(String),
    List(Vec<Json>),
    Object(Vec<(String, Json)>),
}

/// What a JSON value says, independent of how it is stored.
pub enum JsonTree {
    Null,
    Bool(bool),
    Number(serde_json::Number),
    Text(Seq<char>),
    List(Seq<JsonTree>),
    Object(Seq<(Seq<char>, JsonTree)>),
}

impl Json {
    pub open spec fn tree(&self) -> JsonTree
        decreases self,
    {
        match self {
            Json::Null => JsonTree::Null,
            Json::Bool(value) => JsonTree::Bool(*value),
            Json::Number(number) => JsonTree::Number(*number),
            Json::Text(text) => JsonTree::Text(text@),
            Json::List(items) => JsonTree::List(
                Seq::new(
                    items@.len(),
                    |i: int|
                        if 0 <= i < items@.len() {
                            items@[i].tree()
                        } else {
                            JsonTree::Null
                        },
                ),
            ),
            Json::Object(members) => JsonTree::Object(
                Seq::new(
                    members@.len(),
                    |i: int|
                        if 0 <= i < members@.len() {
                            (members@[i].0@, members@[i].1.tree())
                        } else {
                            (Seq::empty(), JsonTree::Null)
                        },
                ),
            ),
        }
    }
}

impl View for Json {
    type V = JsonTree;

    open spec fn view(&self) -> JsonTree {
        self.tree()
    }
}

/// The values of `list`, as trees.
pub open spec fn trees(list: Seq<Json>) -> Seq<JsonTree> {
    Seq::new(list.len(), |i: int| list[i]@)
}

/// The members of an object, as names with trees.
pub open spec fn member_trees(members: Seq<(String, Json)>) -> Seq<(Seq<char>, JsonTree)> {
    Seq::new(members.len(), |i: int| (members[i].0@, members[i].1@))
}

pub broadcast proof fn lemma_list_tree(items: Vec<Json>)
    ensures
        #[trigger] Json::List(items)@ == JsonTree::List(trees(items@)),
{
    let tree = Json::List(items)@;
    assert(tree->List_0 =~= trees(items@));
}

pub broadcast proof fn lemma_object_tree(members: Vec<(String, Json)>)
    ensures
        #[trigger] Json::Object(members)@ == JsonTree::Object(member_trees(members@)),
{
    let tree = Json::Object(members)@;
    assert(tree->Object_0 =~= member_trees(members@));
}

/// The value of the first member called `key`.
pub open spec fn member_of(members: Seq<(Seq<char>, JsonTree)>, key: Seq<char>) -> Option<JsonTree>
    decreases members.len(),
{
    if members.len() == 0 {
        None
    } else if members[0].0 == key {
        Some(members[0].1)
    } else {
        member_of(members.skip(1), key)
    }
}

/// The value of the member called `key`, where `tree` is an object that has one.
pub open spec fn tree_member(tree: JsonTree, key: Seq<char>) -> Option<JsonTree> {
    match tree {
        JsonTree::Object(members) => member_of(members, key),
        _ => None,
    }
}

/// The value of the first member called `key`.
pub fn find_member<'a>(members: &'a Vec<(String, Json)>, key: &str) -> (r: Option<&'a Json>)
    ensures
        (match r {
            Some(value) => member_of(member_trees(members@), key@) == Some(value@),
            None => member_of(member_trees(members@), key@) is None,
        }),
{
    let ghost all = member_trees(members@);
    let mut i: usize = 0;
    assert(all.skip(0) =~= all);
    while i < members.len()
        invariant
            i <= members@.len(),
            all == member_trees(members@),
            member_of(all, key@) == member_of(all.skip(i as int), key@),
        decreases members@.len() - i,
    {
        assert(all.skip(i as int)[0] == all[i as int]);
        assert(all.skip(i as int).skip(1) =~= all.skip(i + 1));
        if same_text(members[i].0.as_str(), key) {
            return Some(&members[i].1);
        }
        i += 1;
    }
    None
}

impl Json {
    /// The value of the member called `key`, where this is an object that has one.
    pub fn member(&self, key: &str) -> (r: Option<&Json>)
        ensures
            (match r {
                Some(value) => tree_member(self@, key@) == Some(value@),
                None => tree_member(self@, key@) is None,
            }),
    {
        broadcast use lemma_object_tree;

        match self {
            Json::Object(members) => find_member(members, key),
            _ => None,
        }
    }

    pub fn as_text(&self) -> (r: Option<&String>)
        ensures
            (match r {
                Some(text) => self@ == JsonTree::Text(text@),
                None => !(self@ is Text),
            }),
    {
        match self {
            Json::Text(text) => Some(text),
            _ => None,
        }
    }

    /// An equal value that shares nothing with this one.
    pub fn duplicate(&self) -> (r: Json)
        ensures
            r@ == self@,
        decreases self,
    {
        broadcast use lemma_list_tree, lemma_object_tree;

        match self {
            Json::Null => Json::Null,
            Json::Bool(value) => Json::Bool(*value),
            Json::Number(number) => Json::Number(number.clone()),
            Json::Text(text) => Json::Text(text.clone()),
            Json::List(items) => {
                let mut copy: Vec<Json> = Vec::new();
                let mut i: usize = 0;
                while i < items.len()
                    invariant
                        *self == Json::List(*items),
                        i <= items@.len(),
                        copy@.len() == i,
                        forall|j: int| 0 <= j < i ==> (#[trigger] copy@[j])@ == items@[j]@,
                    decreases items@.len() - i,
                {
                    assert(decreases_to!(self => self->List_0));
                    assert(decreases_to!(items => items@));
                    assert(decreases_to!(items@ => items@[i as int]));
                    let item = items[i].duplicate();
                    copy.push(item);
                    i += 1;
                }
                assert(trees(copy@) =~= trees(items@));
                Json::List(copy)
            },
            Json::Object(members) => {
                let mut copy: Vec<(String, Json)> = Vec::new();
                let mut i: usize = 0;
                while i < members.len()
                    invariant
                        *self == Json::Object(*members),
                        i <= members@.len(),
                        copy@.len() == i,
                        forall|j: int|
                            0 <= j < i ==> (#[trigger] copy@[j]).0@ == members@[j].0@
                                && copy@[j].1@ == members@[j].1@,
                    decreases members@.len() - i,
                {
                    assert(decreases_to!(self => self->Object_0));
                    assert(decreases_to!(members => members@));
                    assert(decreases_to!(members@ => members@[i as int]));
                    assert(decreases_to!(members@[i as int] => members@[i as int].1));
                    let member = (members[i].0.clone(), members[i].1.duplicate());
                    copy.push(member);
                    i += 1;
                }
                assert(member_trees(copy@) =~= member_trees(members@));
                Json::Object(copy)
            },
        }
    }
}

/// `members` with `key` set to `value`: the member of that name changes, or a
/// new one takes its place in the order of names.
pub open spec fn with_member(
    members: Seq<(Seq<char>, JsonTree)>,
    key: Seq<char>,
    value: JsonTree,
) -> Seq<(Seq<char>, JsonTree)>
    decreases members.len(),
{
    if members.len() == 0 {
        seq![(key, value)]
    } else if members[0].0 == key {
        seq![(key, value)] + members.skip(1)
    } else if lex_less(text_rank(key), text_rank(members[0].0)) {
        seq![(key, value)] + members
    } else {
        seq![members[0]] + with_member(members.skip(1), key, value)
    }
}

/// Setting a member gives that member the value and leaves every other alone.
pub proof fn lemma_with_member_reads_back(
    members: Seq<(Seq<char>, JsonTree)>,
    key: Seq<char>,
    value: JsonTree,
    asked: Seq<char>,
)
    ensures
        member_of(with_member(members, key, value), asked) == (if asked == key {
            Some(value)
        } else {
            member_of(members, asked)
        }),
    decreases members.len(),
{
    let changed = with_member(members, key, value);
    if members.len() == 0 {
        assert(changed.skip(1) =~= members);
    } else if members[0].0 == key {
        assert(changed.skip(1) =~= members.skip(1));
    } else if lex_less(text_rank(key), text_rank(members[0].0)) {
        assert(changed.skip(1) =~= members);
    } else {
        assert(changed.skip(1) =~= with_member(members.skip(1), key, value));
        lemma_with_member_reads_back(members.skip(1), key, value, asked);
    }
}

/// Sets the member called `key`.
pub fn set_member(members: Vec<(String, Json)>, key: &str, value: Json) -> (r: Vec<(String, Json)>)
    ensures
        member_trees(r@) == with_member(member_trees(members@), key@, value@),
{
    let mut list = members;
    let ghost all = member_trees(list@);
    let mut i: usize = 0;
    assert(all.take(0) + with_member(all.skip(0), key@, value@) =~= with_member(
        all,
        key@,
        value@,
    )) by {
        assert(all.skip(0) =~= all);
    }
    while i < list.len()
        invariant
            i <= list@.len(),
            all == member_trees(list@),
            all == member_trees(members@),
            with_member(all, key@, value@) == all.take(i as int) + with_member(
                all.skip(i as int),
                key@,
                value@,
            ),
        decreases list@.len() - i,
    {
        let ghost rest = all.skip(i as int);
        assert(rest[0] == all[i as int]);
        assert(rest.skip(1) =~= all.skip(i + 1));
        if same_text(list[i].0.as_str(), key) {
            list.remove(i);
            list.insert(i, (key.to_owned(), value));
            assert(member_trees(list@) =~= all.take(i as int) + (seq![(key@, value@)]
                + all.skip(i + 1)));
            return list;
        }
        if text_before(key, list[i].0.as_str()) {
            list.insert(i, (key.to_owned(), value));
            assert(member_trees(list@) =~= all.take(i as int) + (seq![(key@, value@)] + rest));
            return list;
        }
        assert(all.take(i as int) + (seq![rest[0]] + with_member(rest.skip(1), key@, value@))
            =~= all.take(i + 1) + with_member(all.skip(i + 1), key@, value@));
        i += 1;
    }
    assert(all.skip(i as int).len() == 0);
    list.push((key.to_owned(), value));
    assert(member_trees(list@) =~= all.take(i as int) + seq![(key@, value@)]);
    list
}

/// The value is one that comes back unchanged when its rendering is read:
/// it holds no number, each object lists its members in the order of their
/// names, and lists and objects are nested at most `depth` deep.
pub open spec fn reads_back(tree: JsonTree, depth: nat) -> bool
    decreases tree,
{
    match tree {
        JsonTree::Null => true,
        JsonTree::Bool(_) => true,
        JsonTree::Number(_) => false,
        JsonTree::Text(_) => true,
        JsonTree::List(items) => depth > 0 && forall|i: int|
            0 <= i < items.len() ==> reads_back(#[trigger] items[i], (depth - 1) as nat),
        JsonTree::Object(members) => {
            &&& depth > 0
            &&& forall|i: int, j: int|
                0 <= i < j < members.len() ==> lex_less(
                    text_rank((#[trigger] members[i]).0),
                    text_rank((#[trigger] members[j]).0),
                )
            &&& forall|i: int|
                0 <= i < members.len() ==> reads_back(
                    (#[trigger] members[i]).1,
                    (depth - 1) as nat,
                )
        },
    }
}

/// What `serde_json::from_str` makes of a text: a value, or the words of its
/// error.
pub uninterp spec fn json_parsed(text: Seq<char>) -> Result<JsonTree, Seq<char>>;

/// The text is JSON for `tree`.
pub open spec fn parses_to(text: Seq<char>, tree: JsonTree) -> bool {
    json_parsed(text) == Ok::<JsonTree, Seq<char>>(tree)
}

/// How `serde_json` renders a value on one line.
pub uninterp spec fn json_compact(tree: JsonTree) -> Seq<char>;

/// How `serde_json` renders a value over indented lines.
pub uninterp spec fn json_pretty(tree: JsonTree) -> Seq<char>;

/// The tree of a `serde_json::Value`, node for node.
#[verifier::external_body]
fn json_of(value: serde_json::Value) -> Json {
    match value {
        serde_json::Value::Null => Json::Null,
        serde_json::Value::Bool(value) => Json::Bool(value),
        serde_json::Value::Number(number) => Json::Number(number),
        serde_json::Value::String(text) => Json::Text(text),
        serde_json::Value::Array(items) => Json::List(items.into_iter().map(json_of).collect()),
        serde_json::Value::Object(members) => Json::Object(
            members.into_iter().map(|member| (member.0, json_of(member.1))).collect(),
        ),
    }
}

/// The `serde_json::Value` of a tree, node for node.
#[verifier::external_body]
fn value_of(json: &Json) -> serde_json::Value {
    match json {
        Json::Null => serde_json::Value::Null,
        Json::Bool(value) => serde_json::Value::Bool(*value),
        Json::Number(number) => serde_json::Value::Number(number.clone()),
        Json::Text(text) => serde_json::Value::String(text.clone()),
        Json::List(items) => serde_json::Value::Array(items.iter().map(value_of).collect()),
        Json::Object(members) => serde_json::Value::Object(
            members.iter().map(|member| (member.0.clone(), value_of(&member.1))).collect(),
        ),
    }
}

/// Reads a JSON text with `serde_json::from_str`. The outcome depends on the
/// text alone: the value it denotes, or the words of the error.
#[verifier::external_body]
pub(crate) fn parse_json(text: &str) -> (r: Result<Json, String>)
    ensures
        (match r {
            Ok(value) => json_parsed(text@) == Ok::<JsonTree, Seq<char>>(value@),
            Err(message) => json_parsed(text@) == Err::<JsonTree, Seq<char>>(message@),
        }),
{
    match serde_json::from_str::<serde_json::Value>(text) {
        Ok(value) => Ok(json_of(value)),
        Err(error) => Err(error.to_string()),
    }
}

/// Renders a value on one line, as `Value`'s `Display` does. What it says is
/// what `serde_json` reads back, up to the nesting that its parser accepts; of
/// numbers nothing is said.
#[verifier::external_body]
pub(crate) fn compact_json(json: &Json) -> (r: String)
    ensures
        r@ == json_compact(json@),
        reads_back(json@, 127) ==> parses_to(r@, json@),
{
    format!("{}", value_of(json))
}

/// Renders a value over indented lines, as `serde_json::to_vec_pretty` does.
/// What it says is what `serde_json` reads back, up to the nesting that its
/// parser accepts; of numbers nothing is said.
#[verifier::external_body]
pub(crate) fn pretty_json(json: &Json) -> (r: String)
    ensures
        r@ == json_pretty(json@),
        reads_back(json@, 127) ==> parses_to(r@, json@),
{
    format!("{:#}", value_of(json))
}

} // verus!
