//! The boundary to `serde_json`: reading and writing JSON text.
//!
//! `serde_json` reads and writes its own type of values. Here such a value is opened one level at
//! a time, and the recursion over the levels is verified.
use crate::json::{self, Decimal, Json, Members, Tree};
use serde_json::Value;
use vstd::prelude::*;

verus! {

/// Declares `serde_json::Value`, of which nothing is seen but what [`contents`] names.
#[verifier::external_type_specification]
#[verifier::external_body]
pub struct ExValue(serde_json::Value);

/// What a value of `serde_json` holds.
pub uninterp spec fn contents(value: serde_json::Value) -> Tree;

/// What reading a text comes to: the value read, or the text of the error.
pub enum Reading {
    Read(Tree),
    Refused(Seq<char>),
}

/// What `serde_json::from_str` makes of a text: the value that it reads, or the text of its error.
pub uninterp spec fn parsed(text: Seq<char>) -> Reading;

/// What `serde_json::from_slice` makes of bytes: the value that it reads, or the text of its
/// error.
pub uninterp spec fn parsed_bytes(bytes: Seq<u8>) -> Reading;

/// The text of the error of `serde_json::from_slice` for bytes that it does not read as a list of
/// values.
pub uninterp spec fn list_refusal(bytes: Seq<u8>) -> Seq<char>;

/// The text that `serde_json::to_string` writes for a value.
pub uninterp spec fn compact(tree: Tree) -> Seq<char>;

/// The text that `serde_json::to_string_pretty` writes for a value.
pub uninterp spec fn pretty(tree: Tree) -> Seq<char>;

/// The text that `serde_json` writes for the finite 64-bit float that a text stands for; `None`
/// where the text stands for none.
pub uninterp spec fn decimal_form(text: Seq<char>) -> Option<Seq<char>>;

/// How deep arrays and objects may nest in a text that `serde_json` reads.
pub const DEPTH_LIMIT: u32 = 127;

/// Arrays and objects nest at most `depth` deep.
pub open spec fn nested(tree: Tree, depth: nat) -> bool
    decreases depth,
{
    match tree {
        Tree::Array(items) => depth > 0 && forall|i: int|
            0 <= i < items.len() ==> nested(#[trigger] items[i], (depth - 1) as nat),
        Tree::Object(members) => depth > 0 && forall|key: Seq<char>| #[trigger]
            members.contains_key(key) ==> nested(members[key], (depth - 1) as nat),
        _ => true,
    }
}

/// Every decimal in the value, alone, is read back from the text that it is written as.
pub open spec fn exact(tree: Tree) -> bool
    decreases tree,
{
    match tree {
        Tree::Decimal(text) => parsed(text) == Reading::Read(tree),
        Tree::Array(items) => forall|i: int| 0 <= i < items.len() ==> exact(#[trigger] items[i]),
        Tree::Object(members) => forall|key: Seq<char>| #[trigger]
            members.contains_key(key) ==> exact(members[key]),
        _ => true,
    }
}

/// Every decimal in the value, alone, is read as some value from the text that it is written as.
pub open spec fn legible(tree: Tree) -> bool
    decreases tree,
{
    match tree {
        Tree::Decimal(text) => parsed(text) is Read,
        Tree::Array(items) => forall|i: int| 0 <= i < items.len() ==> legible(#[trigger] items[i]),
        Tree::Object(members) => forall|key: Seq<char>| #[trigger]
            members.contains_key(key) ==> legible(members[key]),
        _ => true,
    }
}

/// A value nested at most `depth` deep, in which every decimal is read as some value.
pub open spec fn readable(tree: Tree, depth: nat) -> bool {
    nested(tree, depth) && legible(tree)
}

/// The value with each decimal replaced by what its own text is read as.
pub open spec fn reread(tree: Tree) -> Tree
    decreases tree,
{
    match tree {
        Tree::Decimal(text) => match parsed(text) {
            Reading::Read(again) => again,
            Reading::Refused(_) => tree,
        },
        Tree::Array(items) => Tree::Array(
            Seq::new(
                items.len(),
                |i: int|
                    if 0 <= i < items.len() {
                        reread(items[i])
                    } else {
                        Tree::Null
                    },
            ),
        ),
        Tree::Object(members) => Tree::Object(
            Map::new(
                |key: Seq<char>| members.contains_key(key),
                |key: Seq<char>|
                    if members.contains_key(key) {
                        reread(members[key])
                    } else {
                        Tree::Null
                    },
            ),
        ),
        _ => tree,
    }
}

/// The values, each with its decimals replaced by what their own texts are read as.
pub open spec fn reread_all(items: Seq<Tree>) -> Seq<Tree> {
    Seq::new(items.len(), |i: int| reread(items[i]))
}

/// What is read of a written value has the same members and items, in the same order, each read
/// in the same way, and the same texts.
pub proof fn rereading_keeps_the_rest(tree: Tree, key: Seq<char>, i: int)
    requires
        !(tree is Decimal),
    ensures
        reread(tree).has_member(key) <==> tree.has_member(key),
        reread(tree).member(key) == reread(tree.member(key)),
        reread(tree).has_item(i) <==> tree.has_item(i),
        reread(tree).item(i) == reread(tree.item(i)),
        tree.items() matches Some(items) ==> reread(tree).items() == Some(reread_all(items)),
        reread(tree).text() == tree.text(),
{
    if tree is Array {
        assert(reread(tree)->Array_0 =~= reread_all(tree->Array_0));
    }
}

/// A value whose decimals are read back is read as itself.
pub proof fn exact_values_reread_as_themselves(tree: Tree)
    requires
        exact(tree),
    ensures
        legible(tree),
        reread(tree) == tree,
    decreases tree,
{
    match tree {
        Tree::Array(items) => {
            assert forall|i: int| 0 <= i < items.len() implies legible(#[trigger] items[i])
                && reread(items[i]) == items[i] by {
                exact_values_reread_as_themselves(items[i]);
            }
            assert(reread(tree)->Array_0 =~= items);
        },
        Tree::Object(members) => {
            assert forall|key: Seq<char>| #[trigger] members.contains_key(key) implies legible(
                members[key],
            ) && reread(members[key]) == members[key] by {
                exact_values_reread_as_themselves(members[key]);
            }
            assert(reread(tree)->Object_0 =~= members);
        },
        _ => {},
    }
}

/// The removal of null members keeps a value readable, and its decimals read back if they were.
pub proof fn removal_keeps_readable(tree: Tree, depth: nat)
    requires
        readable(tree, depth),
    ensures
        readable(tree.without_nulls(), depth),
        exact(tree) ==> exact(tree.without_nulls()),
    decreases depth,
{
    match tree {
        Tree::Array(items) => {
            let kept = tree.without_nulls()->Array_0;
            assert forall|i: int| 0 <= i < kept.len() implies readable(
                #[trigger] kept[i],
                (depth - 1) as nat,
            ) && (exact(tree) ==> exact(kept[i])) by {
                assert(legible(items[i]));
                removal_keeps_readable(items[i], (depth - 1) as nat);
            }
        },
        Tree::Object(members) => {
            let kept = tree.without_nulls()->Object_0;
            assert forall|key: Seq<char>| #[trigger] kept.contains_key(key) implies readable(
                kept[key],
                (depth - 1) as nat,
            ) && (exact(tree) ==> exact(kept[key])) by {
                assert(members.contains_key(key));
                removal_keeps_readable(members[key], (depth - 1) as nat);
            }
        },
        _ => {},
    }
}

/// What values of `serde_json` hold.
pub open spec fn all_contents(values: Seq<Value>) -> Seq<Tree> {
    Seq::new(values.len(), |i: int| contents(values[i]))
}

/// One level of a value of `serde_json`.
pub(crate) enum Level {
    Null,
    Bool(bool),
    Unsigned(u64),
    Signed(i64),
    Decimal(String),
    Text(String),
    Array(Vec<Value>),
    Object(Vec<(String, Value)>),
}

/// What a list of named values maps each name to.
pub(crate) open spec fn level_map(entries: Seq<(String, Value)>) -> Map<Seq<char>, Tree>
    decreases entries.len(),
{
    if entries.len() == 0 {
        Map::empty()
    } else {
        level_map(entries.drop_last()).insert(entries.last().0@, contents(entries.last().1))
    }
}

/// No two entries have the same name.
pub(crate) open spec fn names_differ(entries: Seq<(String, Value)>) -> bool {
    forall|i: int, j: int| 0 <= i < j < entries.len() ==> entries[i].0@ != entries[j].0@
}

impl Level {
    /// What the level holds, down to the last.
    pub(crate) open spec fn tree(self) -> Tree {
        match self {
            Level::Null => Tree::Null,
            Level::Bool(b) => Tree::Bool(b),
            Level::Unsigned(n) => Tree::Integer(n as int),
            Level::Signed(n) => Tree::Integer(n as int),
            Level::Decimal(text) => Tree::Decimal(text@),
            Level::Text(text) => Tree::Text(text@),
            Level::Array(items) => Tree::Array(all_contents(items@)),
            Level::Object(entries) => Tree::Object(level_map(entries@)),
        }
    }

    /// A decimal is in its written form, and names are distinct.
    pub(crate) open spec fn proper(self) -> bool {
        match self {
            Level::Decimal(text) => decimal_form(text@) == Some(text@),
            Level::Object(entries) => names_differ(entries@),
            _ => true,
        }
    }
}

/// Calls `serde_json::Number::from_f64` on the float that the standard library reads from the
/// text, and writes the number by its `Display`. The result depends on the text alone.
#[verifier::external_body]
pub(crate) fn write_decimal(text: &str) -> (res: Option<String>)
    ensures
        match res {
            Some(written) => decimal_form(text@) == Some(written@),
            None => decimal_form(text@) is None,
        },
{
    let number = serde_json::Number::from_f64(text.parse().ok()?)?;
    Some(number.to_string())
}

/// Tells the variants of `serde_json::Value` apart, and those of a number by
/// `serde_json::Number::as_u64` and `as_i64`. Each variant holds what it is named for: a number
/// that is neither is a finite float, written by its `Display` in a form that reads back as the
/// same float, and an object is a map, in which no name occurs twice.
#[verifier::external_body]
pub(crate) fn open_value(value: Value) -> (level: Level)
    ensures
        level.tree() == contents(value),
        level.proper(),
{
    match value {
        Value::Null => Level::Null,
        Value::Bool(b) => Level::Bool(b),
        Value::Number(n) => match (n.as_u64(), n.as_i64()) {
            (Some(u), _) => Level::Unsigned(u),
            (None, Some(i)) => Level::Signed(i),
            (None, None) => Level::Decimal(n.to_string()),
        },
        Value::String(text) => Level::Text(text),
        Value::Array(items) => Level::Array(items),
        Value::Object(map) => Level::Object(map.into_iter().collect()),
    }
}

/// Makes the `serde_json::Value` of the variant that the level names: a number by the conversions
/// from `u64` and `i64` and by `serde_json::Number::from_f64`, an object by collecting the named
/// values into a map.
#[verifier::external_body]
pub(crate) fn close_value(level: Level) -> (value: Value)
    requires
        level.proper(),
    ensures
        contents(value) == level.tree(),
{
    match level {
        Level::Null => Value::Null,
        Level::Bool(b) => Value::Bool(b),
        Level::Unsigned(n) => Value::from(n),
        Level::Signed(n) => Value::from(n),
        Level::Decimal(t) => Value::Number(
            serde_json::Number::from_f64(t.parse().unwrap()).unwrap(),
        ),
        Level::Text(text) => Value::String(text),
        Level::Array(items) => Value::Array(items),
        Level::Object(entries) => Value::Object(entries.into_iter().collect()),
    }
}

/// Calls `serde_json::from_str` for a `Value`. What it returns depends on the text alone; an error
/// is handed on as the text of its `Display`. A text whose arrays and objects nest deeper than the
/// limit is refused.
#[verifier::external_body]
pub(crate) fn read_text(text: &str) -> (res: Result<Value, String>)
    ensures
        match res {
            Ok(value) => parsed(text@) == Reading::Read(contents(value)) && nested(
                contents(value),
                DEPTH_LIMIT as nat,
            ),
            Err(reason) => parsed(text@) == Reading::Refused(reason@),
        },
{
    serde_json::from_str(text).map_err(|e| e.to_string())
}

/// Calls `serde_json::from_slice` for a `Value`. What it returns depends on the bytes alone; an
/// error is handed on as the text of its `Display`. Bytes whose arrays and objects nest deeper than
/// the limit are refused.
#[verifier::external_body]
pub(crate) fn read_bytes(bytes: &[u8]) -> (res: Result<Value, String>)
    ensures
        match res {
            Ok(value) => parsed_bytes(bytes@) == Reading::Read(contents(value)) && nested(
                contents(value),
                DEPTH_LIMIT as nat,
            ),
            Err(reason) => parsed_bytes(bytes@) == Reading::Refused(reason@),
        },
{
    serde_json::from_slice(bytes).map_err(|e| e.to_string())
}

/// Calls `serde_json::from_slice` for a `Vec<Value>`. It reads the bytes exactly where it reads them
/// as a `Value` that is an array, and then gives the items of that array. The text of its error
/// depends on the bytes alone.
#[verifier::external_body]
pub(crate) fn read_list(bytes: &[u8]) -> (res: Result<Vec<Value>, String>)
    ensures
        match res {
            Ok(values) => parsed_bytes(bytes@) == Reading::Read(Tree::Array(all_contents(values@))),
            Err(reason) => !(parsed_bytes(bytes@) matches Reading::Read(tree) && tree is Array)
                && list_refusal(bytes@) == reason@,
        },
{
    serde_json::from_slice(bytes).map_err(|e| e.to_string())
}

/// Calls `serde_json::to_string`, which fails for no `Value`. What it writes depends on the
/// contents alone. `serde_json::from_str` reads it, and `serde_json::from_slice` its bytes, unless
/// arrays and objects nest deeper than their limit or a float is one that they refuse; they read
/// the value again, with each float as they read it alone, which may not be the same float.
#[verifier::external_body]
pub(crate) fn write_compact(value: &Value) -> (text: String)
    ensures
        text@ == compact(contents(*value)),
        readable(contents(*value), DEPTH_LIMIT as nat) ==> parsed(text@) == Reading::Read(
            reread(contents(*value)),
        ) && parsed_bytes(vstd::utf8::encode_utf8(text@)) == Reading::Read(
            reread(contents(*value)),
        ),
{
    serde_json::to_string(value).unwrap()
}

/// Calls `serde_json::to_string_pretty`, which fails for no `Value`. What it writes depends on
/// the contents alone, and `serde_json::from_str` reads it as it does compact text.
#[verifier::external_body]
pub(crate) fn write_pretty(value: &Value) -> (text: String)
    ensures
        text@ == pretty(contents(*value)),
        readable(contents(*value), DEPTH_LIMIT as nat) ==> parsed(text@) == Reading::Read(
            reread(contents(*value)),
        ),
{
    serde_json::to_string_pretty(value).unwrap()
}

/// The models of entries, read level by level, are the models of the entries that they become.
proof fn lemma_same_map(entries: Seq<(String, Value)>, read: Seq<(String, Json)>)
    requires
        entries.len() == read.len(),
        forall|i: int|
            0 <= i < entries.len() ==> (#[trigger] entries[i]).0@ == read[i].0@ && contents(
                entries[i].1,
            ) == read[i].1@,
    ensures
        level_map(entries) == json::entries_map(read),
        names_differ(entries) == json::distinct(read),
    decreases entries.len(),
{
    json::lemma_unfold_entries_map(read);
    if entries.len() > 0 {
        assert forall|i: int| 0 <= i < entries.drop_last().len() implies (
        #[trigger] entries.drop_last()[i]).0@ == read.drop_last()[i].0@ && contents(
            entries.drop_last()[i].1,
        ) == read.drop_last()[i].1@ by {
            assert(entries.drop_last()[i] == entries[i]);
        }
        lemma_same_map(entries.drop_last(), read.drop_last());
        assert(entries[entries.len() - 1].0@ == read[entries.len() - 1].0@);
    }
    assert forall|i: int| 0 <= i < read.len() implies #[trigger] read[i].0@ == entries[i].0@ by {
        assert(entries[i].0@ == read[i].0@);
    }
}

/// The library's own value for a value of `serde_json`.
fn import(value: Value) -> (res: Json)
    ensures
        res@ == contents(value),
    decreases contents(value),
{
    let level = open_value(value);
    let ghost tree = contents(value);
    assert(level.tree() == tree);
    match level {
        Level::Null => Json::Null,
        Level::Bool(b) => Json::Bool(b),
        Level::Unsigned(n) => Json::Unsigned(n),
        Level::Signed(n) => Json::Signed(n),
        Level::Decimal(text) => Json::Decimal(Decimal::from_written(text)),
        Level::Text(text) => Json::Text(text),
        Level::Array(items) => {
            let mut read: Vec<Json> = Vec::new();
            let ghost all = items@;
            let ghost trees = tree->Array_0;
            for item in it: items
                invariant
                    it.seq() == all,
                    tree == contents(value),
                    tree == Tree::Array(trees),
                    trees == all_contents(all),
                    read@.len() == it.index(),
                    forall|j: int| 0 <= j < it.index() ==> (#[trigger] read@[j])@ == trees[j],
            {
                assert(trees[it.index() as int] == contents(item));
                assert(decreases_to!(tree => tree->Array_0));
                assert(decreases_to!(trees => trees[it.index() as int]));
                read.push(import(item));
            }
            let res = Json::Array(read);
            assert(res@->Array_0 =~= trees);
            res
        },
        Level::Object(entries) => {
            let mut read: Vec<(String, Json)> = Vec::new();
            let ghost all = entries@;
            for entry in it: entries
                invariant
                    it.seq() == all,
                    tree == contents(value),
                    tree == Tree::Object(level_map(all)),
                    names_differ(all),
                    read@.len() == it.index(),
                    forall|j: int|
                        0 <= j < it.index() ==> (#[trigger] all[j]).0@ == read@[j].0@ && contents(
                            all[j].1,
                        ) == read@[j].1@,
            {
                let (name, inner) = entry;
                proof {
                    let i = it.index() as int;
                    lemma_level_map_entry(all, i);
                    assert(all[i] == entry);
                    assert(decreases_to!(tree => tree->Object_0));
                    assert(decreases_to!(tree->Object_0 => tree->Object_0[name@]));
                }
                read.push((name, import(inner)));
            }
            proof {
                lemma_same_map(all, read@);
            }
            Json::Object(Members::from_entries(read))
        },
    }
}

/// Entries of distinct names map each name to its own value.
proof fn lemma_level_map_entry(entries: Seq<(String, Value)>, i: int)
    requires
        names_differ(entries),
        0 <= i < entries.len(),
    ensures
        level_map(entries).contains_key(entries[i].0@),
        level_map(entries)[entries[i].0@] == contents(entries[i].1),
        level_map(entries).dom().finite(),
    decreases entries.len(),
{
    lemma_level_map_finite(entries);
    if i < entries.len() - 1 {
        assert(entries.drop_last()[i] == entries[i]);
        lemma_level_map_entry(entries.drop_last(), i);
        assert(entries[i].0@ != entries.last().0@);
    }
}

proof fn lemma_level_map_finite(entries: Seq<(String, Value)>)
    ensures
        level_map(entries).dom().finite(),
    decreases entries.len(),
{
    if entries.len() > 0 {
        lemma_level_map_finite(entries.drop_last());
    }
}

/// The value of `serde_json` for one of the library's own.
fn export(json: &Json) -> (res: Value)
    ensures
        contents(res) == json@,
    decreases json,
{
    let level = match json {
        Json::Null => Level::Null,
        Json::Bool(b) => Level::Bool(*b),
        Json::Unsigned(n) => Level::Unsigned(*n),
        Json::Signed(n) => Level::Signed(*n),
        Json::Decimal(decimal) => Level::Decimal(decimal.text()),
        Json::Text(text) => Level::Text(text.clone()),
        Json::Array(items) => {
            let mut made: Vec<Value> = Vec::new();
            assert(decreases_to!(json => items));
            assert(decreases_to!(items => items@));
            for i in 0..items.len()
                invariant
                    decreases_to!(json => items@),
                    made@.len() == i,
                    forall|j: int| 0 <= j < i ==> contents(#[trigger] made@[j]) == items@[j]@,
            {
                assert(decreases_to!(items@ => items@[i as int]));
                made.push(export(&items[i]));
            }
            let level = Level::Array(made);
            assert(level.tree()->Array_0 =~= json@->Array_0);
            level
        },
        Json::Object(members) => {
            let mut made: Vec<(String, Value)> = Vec::new();
            assert(decreases_to!(json => members));
            let entries = members.entries();
            for i in 0..entries.len()
                invariant
                    decreases_to!(json => entries@),
                    made@.len() == i,
                    forall|j: int|
                        0 <= j < i ==> (#[trigger] made@[j]).0@ == entries@[j].0@ && contents(
                            made@[j].1,
                        ) == entries@[j].1@,
            {
                assert(decreases_to!(entries@ => entries@[i as int]));
                made.push((entries[i].0.clone(), export(&entries[i].1)));
            }
            proof {
                lemma_same_map(made@, entries@);
            }
            Level::Object(made)
        },
    };
    close_value(level)
}

/// Reads a text as one JSON value. The error is the text of the reader's own.
pub fn parse(text: &str) -> (res: Result<Json, String>)
    ensures
        match res {
            Ok(json) => parsed(text@) == Reading::Read(json@) && nested(json@, DEPTH_LIMIT as nat),
            Err(reason) => parsed(text@) == Reading::Refused(reason@),
        },
{
    match read_text(text) {
        Ok(value) => Ok(import(value)),
        Err(reason) => Err(reason),
    }
}

/// Reads bytes as one JSON value. The error is the text of the reader's own.
pub fn parse_bytes(bytes: &[u8]) -> (res: Result<Json, String>)
    ensures
        match res {
            Ok(json) => parsed_bytes(bytes@) == Reading::Read(json@) && nested(
                json@,
                DEPTH_LIMIT as nat,
            ),
            Err(reason) => parsed_bytes(bytes@) == Reading::Refused(reason@),
        },
{
    match read_bytes(bytes) {
        Ok(value) => Ok(import(value)),
        Err(reason) => Err(reason),
    }
}

/// Reads bytes as a list of JSON values. The error is the text of the reader's own.
pub fn parse_list(bytes: &[u8]) -> (res: Result<Vec<Json>, String>)
    ensures
        match res {
            Ok(items) => parsed_bytes(bytes@) == Reading::Read(Tree::Array(json::trees(items@))),
            Err(reason) => !(parsed_bytes(bytes@) matches Reading::Read(tree) && tree is Array)
                && list_refusal(bytes@) == reason@,
        },
{
    let values = match read_list(bytes) {
        Ok(values) => values,
        Err(reason) => {
            return Err(reason);
        },
    };
    let ghost all = values@;
    let mut items: Vec<Json> = Vec::new();
    for value in it: values
        invariant
            it.seq() == all,
            items@.len() == it.index(),
            forall|j: int| 0 <= j < it.index() ==> (#[trigger] items@[j])@ == contents(all[j]),
    {
        items.push(import(value));
    }
    assert(json::trees(items@) =~= all_contents(all));
    Ok(items)
}

/// Writes a value without any space between its parts. [`parse`] reads the text, and
/// [`parse_bytes`] its bytes, unless arrays and objects nest deeper than the reader's limit or a
/// decimal is one that it refuses. They give the value back, with each decimal as its own text is
/// read.
pub fn to_compact(json: &Json) -> (text: String)
    ensures
        text@ == compact(json@),
        readable(json@, DEPTH_LIMIT as nat) ==> parsed(text@) == Reading::Read(reread(json@))
            && parsed_bytes(vstd::utf8::encode_utf8(text@)) == Reading::Read(reread(json@)),
{
    write_compact(&export(json))
}

/// Writes a value over several lines, each indented to its depth. [`parse`] reads the text as it
/// does compact text.
pub fn to_pretty(json: &Json) -> (text: String)
    ensures
        text@ == pretty(json@),
        readable(json@, DEPTH_LIMIT as nat) ==> parsed(text@) == Reading::Read(reread(json@)),
{
    write_pretty(&export(json))
}

/// Values nest one deeper than what they hold, are legible and exact exactly where all that they
/// hold is, and a decimal is where its own text says so.
pub proof fn readable_values_have_readable_parts(tree: Tree, depth: nat)
    ensures
        tree is Array || tree is Object ==> (nested(tree, depth) <==> depth > 0 && (forall|
            key: Seq<char>,
        | #[trigger]
            tree.has_member(key) ==> nested(tree.member(key), (depth - 1) as nat)) && (forall|
            i: int,
        | #[trigger] tree.has_item(i) ==> nested(tree.item(i), (depth - 1) as nat))),
        !(tree is Array) && !(tree is Object) ==> nested(tree, depth),
        !(tree is Decimal) ==> (legible(tree) <==> (forall|key: Seq<char>| #[trigger]
            tree.has_member(key) ==> legible(tree.member(key))) && (forall|i: int| #[trigger]
            tree.has_item(i) ==> legible(tree.item(i)))),
        !(tree is Decimal) ==> (exact(tree) <==> (forall|key: Seq<char>| #[trigger]
            tree.has_member(key) ==> exact(tree.member(key))) && (forall|i: int| #[trigger]
            tree.has_item(i) ==> exact(tree.item(i)))),
        tree matches Tree::Decimal(text) ==> (legible(tree) <==> parsed(text) is Read) && (exact(
            tree,
        ) <==> parsed(text) == Reading::Read(tree)),
        tree matches Tree::Decimal(text) ==> (parsed(text) matches Reading::Read(again) ==> reread(
            tree,
        ) == again),
{
    match tree {
        Tree::Array(items) => {
            assert forall|i: int| 0 <= i < items.len() implies tree.has_item(i)
                && #[trigger] items[i] == tree.item(i) by {}
            assert forall|i: int| #[trigger] tree.has_item(i) implies tree.item(i) == items[i] by {}
        },
        Tree::Object(members) => {
            assert forall|key: Seq<char>| #[trigger] members.contains_key(key) implies tree.has_member(
                key,
            ) && members[key] == tree.member(key) by {}
        },
        _ => {},
    }
}

/// A level is told by its variant and by what it holds.
pub(crate) proof fn levels_are_told_by_what_they_hold(level: Level)
    ensures
        level is Null ==> level.tree() == Tree::Null,
        level matches Level::Bool(b) ==> level.tree() == Tree::Bool(b),
        level matches Level::Unsigned(n) ==> level.tree() == Tree::Integer(n as int),
        level matches Level::Signed(n) ==> level.tree() == Tree::Integer(n as int),
        level matches Level::Decimal(text) ==> level.tree() == Tree::Decimal(text@),
        level matches Level::Text(text) ==> level.tree() == Tree::Text(text@),
        level matches Level::Array(items) ==> level.tree() is Array && level.tree()->Array_0.len()
            == items@.len() && forall|i: int|
            0 <= i < items@.len() ==> #[trigger] level.tree()->Array_0[i] == contents(items@[i]),
        level matches Level::Object(entries) ==> level.tree() is Object && (names_differ(entries@)
            ==> forall|i: int|
            0 <= i < entries@.len() ==> level.tree().member((#[trigger] entries@[i]).0@) == contents(
                entries@[i].1,
            )),
{
    if let Level::Object(entries) = level {
        if names_differ(entries@) {
            assert forall|i: int| 0 <= i < entries@.len() implies level.tree().member(
                (#[trigger] entries@[i]).0@,
            ) == contents(entries@[i].1) by {
                lemma_level_map_entry(entries@, i);
            }
        }
    }
}

} // verus!
