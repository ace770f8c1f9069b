//! JSON values, their mathematical model, and the removal of null members.
use vstd::prelude::*;

verus! {

/// The model of a JSON value. An integer is a number that was written as one and fits 64 bits;
/// any other number is a decimal, told by the text that it is written as.
pub enum Tree {
    Null,
    Bool(bool),
    Integer(int),
    Decimal(Seq<char>),
    Text(Seq<char>),
    Array(Seq<Tree>),
    Object(Map<Seq<char>, Tree>),
}

impl Tree {
    /// Whether this is an object with a member of that name.
    pub open spec fn has_member(self, key: Seq<char>) -> bool {
        self is Object && self->Object_0.contains_key(key)
    }

    /// The member of that name; null where there is none, or where this is no object.
    pub open spec fn member(self, key: Seq<char>) -> Tree {
        if self.has_member(key) {
            self->Object_0[key]
        } else {
            Tree::Null
        }
    }

    /// Whether this is an array that reaches to position `i`.
    pub open spec fn has_item(self, i: int) -> bool {
        self is Array && 0 <= i < self->Array_0.len()
    }

    /// The item at position `i`; null where there is none, or where this is no array.
    pub open spec fn item(self, i: int) -> Tree {
        if self.has_item(i) {
            self->Array_0[i]
        } else {
            Tree::Null
        }
    }

    /// The text that this is, if it is one.
    pub open spec fn text(self) -> Option<Seq<char>> {
        match self {
            Tree::Text(text) => Some(text),
            _ => None,
        }
    }

    /// The items, if this is an array.
    pub open spec fn items(self) -> Option<Seq<Tree>> {
        match self {
            Tree::Array(items) => Some(items),
            _ => None,
        }
    }

    /// The number that this is, if it is an integer that 64 bits hold without a sign.
    pub open spec fn unsigned(self) -> Option<u64> {
        match self {
            Tree::Integer(n) => if 0 <= n <= u64::MAX {
                Some(n as u64)
            } else {
                None
            },
            _ => None,
        }
    }

    /// This value with every member of an object that is null taken out, at every depth. Nulls
    /// that are items of an array stay, and so does a value that is itself null.
    pub open spec fn without_nulls(self) -> Tree
        decreases self,
    {
        match self {
            Tree::Array(items) => Tree::Array(
                Seq::new(
                    items.len(),
                    |i: int|
                        if 0 <= i < items.len() {
                            items[i].without_nulls()
                        } else {
                            Tree::Null
                        },
                ),
            ),
            Tree::Object(members) => Tree::Object(
                Map::new(
                    |key: Seq<char>| members.contains_key(key) && members[key] != Tree::Null,
                    |key: Seq<char>|
                        if members.contains_key(key) {
                            members[key].without_nulls()
                        } else {
                            Tree::Null
                        },
                ),
            ),
            _ => self,
        }
    }

    /// No object in this value, at any depth, has a member that is null.
    pub open spec fn null_free(self) -> bool
        decreases self,
    {
        match self {
            Tree::Array(items) => forall|i: int|
                0 <= i < items.len() ==> (#[trigger] items[i]).null_free(),
            Tree::Object(members) => forall|key: Seq<char>|
                #[trigger] members.contains_key(key) ==> members[key] != Tree::Null
                    && members[key].null_free(),
            _ => true,
        }
    }
}

/// Whatever the value, no null member is left once nulls were removed.
pub proof fn removal_leaves_no_null_member(tree: Tree)
    ensures
        tree.without_nulls().null_free(),
    decreases tree,
{
    match tree {
        Tree::Array(items) => {
            let kept = tree.without_nulls()->Array_0;
            assert forall|i: int| 0 <= i < kept.len() implies (#[trigger] kept[i]).null_free() by {
                removal_leaves_no_null_member(items[i]);
            }
        },
        Tree::Object(members) => {
            let kept = tree.without_nulls()->Object_0;
            assert forall|key: Seq<char>| #[trigger] kept.contains_key(key) implies kept[key]
                != Tree::Null && kept[key].null_free() by {
                removal_leaves_no_null_member(members[key]);
                assert(kept[key] == members[key].without_nulls());
            }
        },
        _ => {},
    }
}

/// A value that has no null member is left as it is.
pub proof fn removal_keeps_null_free(tree: Tree)
    requires
        tree.null_free(),
    ensures
        tree.without_nulls() == tree,
    decreases tree,
{
    match tree {
        Tree::Array(items) => {
            let kept = tree.without_nulls()->Array_0;
            assert forall|i: int| 0 <= i < items.len() implies kept[i] == items[i] by {
                removal_keeps_null_free(items[i]);
            }
            assert(kept =~= items);
        },
        Tree::Object(members) => {
            let kept = tree.without_nulls()->Object_0;
            assert forall|key: Seq<char>| #[trigger] members.contains_key(key) implies kept[key]
                == members[key] by {
                removal_keeps_null_free(members[key]);
            }
            assert(kept =~= members);
        },
        _ => {},
    }
}

/// Removing nulls a second time changes nothing.
pub proof fn removal_is_idempotent(tree: Tree)
    ensures
        tree.without_nulls().without_nulls() == tree.without_nulls(),
{
    removal_leaves_no_null_member(tree);
    removal_keeps_null_free(tree.without_nulls());
}

/// A member stays exactly where it is not null, and what stays of it is what removal leaves of
/// it; an array keeps its length, an object stays one, and any other value stays as it is.
pub proof fn removal_keeps_the_rest(tree: Tree, key: Seq<char>, i: int)
    ensures
        tree.without_nulls().has_member(key) <==> tree.has_member(key) && tree.member(key)
            != Tree::Null,
        tree.without_nulls().member(key) == tree.member(key).without_nulls(),
        tree.without_nulls().has_item(i) <==> tree.has_item(i),
        tree.without_nulls().item(i) == tree.item(i).without_nulls(),
        tree.without_nulls() is Object <==> tree is Object,
        tree.without_nulls() is Array <==> tree is Array,
        tree is Array ==> tree.without_nulls()->Array_0.len() == tree->Array_0.len(),
        !(tree is Object) && !(tree is Array) ==> tree.without_nulls() == tree,
{
}

/// A value has no null member at any depth exactly where none of its members is null, and neither
/// its members nor its items have one at any depth.
pub proof fn null_free_values_have_null_free_parts(tree: Tree)
    ensures
        tree.null_free() <==> (forall|key: Seq<char>| #[trigger]
            tree.has_member(key) ==> tree.member(key) != Tree::Null && tree.member(
                key,
            ).null_free()) && (forall|i: int| #[trigger]
            tree.has_item(i) ==> tree.item(i).null_free()),
{
    match tree {
        Tree::Array(items) => {
            assert forall|i: int| 0 <= i < items.len() implies tree.has_item(i) && #[trigger] items[i]
                == tree.item(i) by {}
            if forall|i: int| #[trigger] tree.has_item(i) ==> tree.item(i).null_free() {
                assert forall|i: int| 0 <= i < items.len() implies (
                #[trigger] items[i]).null_free() by {
                    assert(tree.has_item(i));
                }
            }
        },
        Tree::Object(members) => {
            if forall|key: Seq<char>| #[trigger]
                tree.has_member(key) ==> tree.member(key) != Tree::Null && tree.member(
                    key,
                ).null_free() {
                assert forall|key: Seq<char>| #[trigger] members.contains_key(key) implies members[key]
                    != Tree::Null && members[key].null_free() by {
                    assert(tree.has_member(key));
                }
            }
        },
        _ => {},
    }
}

/// A member is what was last put under its name, and what is put under one name leaves every other
/// member as it is; what has no members has null under every name.
pub proof fn a_member_is_what_was_put_there(
    members: Map<Seq<char>, Tree>,
    name: Seq<char>,
    value: Tree,
    other: Seq<char>,
    tree: Tree,
)
    ensures
        Tree::Object(members.insert(name, value)).has_member(name),
        Tree::Object(members.insert(name, value)).member(name) == value,
        other != name ==> Tree::Object(members.insert(name, value)).has_member(other)
            == Tree::Object(members).has_member(other) && Tree::Object(
            members.insert(name, value),
        ).member(other) == Tree::Object(members).member(other),
        !Tree::Object(members.remove(name)).has_member(name),
        Tree::Object(members.remove(name)).member(name) == Tree::Null,
        !(tree is Object) ==> !tree.has_member(name) && tree.member(name) == Tree::Null,
{
}

/// An item is what was put at its position, and null stands at every position that is not reached.
pub proof fn an_item_is_what_was_put_there(items: Seq<Tree>, value: Tree, i: int, tree: Tree)
    ensures
        Tree::Array(items.push(value)).has_item(items.len() as int),
        Tree::Array(items.push(value)).item(items.len() as int) == value,
        i != items.len() ==> Tree::Array(items.push(value)).has_item(i) == Tree::Array(
            items,
        ).has_item(i) && Tree::Array(items.push(value)).item(i) == Tree::Array(items).item(i),
        i < 0 || items.len() <= i ==> !Tree::Array(items).has_item(i) && Tree::Array(items).item(i)
            == Tree::Null,
        !(tree is Array) ==> !tree.has_item(i) && tree.item(i) == Tree::Null,
{
}

/// What is taken of a value as a text, as items or as a number is all of it, and it is taken
/// wherever the value is one.
pub proof fn a_value_is_taken_by_its_kind(tree: Tree)
    ensures
        tree.text() matches Some(text) ==> tree == Tree::Text(text),
        tree.text() is Some <==> tree is Text,
        tree.items() matches Some(items) ==> tree == Tree::Array(items),
        tree.items() is Some <==> tree is Array,
        tree.unsigned() matches Some(n) ==> tree == Tree::Integer(n as int),
        tree.unsigned() is Some <==> tree is Integer && 0 <= tree->Integer_0 <= u64::MAX,
{
}

/// A JSON value.
#[derive(Debug)]
pub enum Json {
    Null,
    Bool(bool),
    Unsigned(u64),
    Signed(i64),
    Decimal(Decimal),
    Text(String),
    Array(Vec<Json>),
    Object(Members),
}

/// A number that is no 64-bit integer, held as the text that it is written as.
#[derive(Debug)]
pub struct Decimal {
    text: String,
}

/// The members of an object. No two have the same name.
#[derive(Debug)]
pub struct Members {
    entries: Vec<(String, Json)>,
}

/// The model of a value.
pub open spec fn tree_of(json: Json) -> Tree
    decreases json,
{
    match json {
        Json::Null => Tree::Null,
        Json::Bool(b) => Tree::Bool(b),
        Json::Unsigned(n) => Tree::Integer(n as int),
        Json::Signed(n) => Tree::Integer(n as int),
        Json::Decimal(decimal) => Tree::Decimal(decimal.written()),
        Json::Text(text) => Tree::Text(text@),
        Json::Array(items) => Tree::Array(
            Seq::new(
                items@.len(),
                |i: int|
                    if 0 <= i < items@.len() {
                        tree_of(items@[i])
                    } else {
                        Tree::Null
                    },
            ),
        ),
        Json::Object(members) => Tree::Object(members.map()),
    }
}

/// The models of the values in a list.
pub open spec fn trees(items: Seq<Json>) -> Seq<Tree> {
    Seq::new(items.len(), |i: int| tree_of(items[i]))
}

/// What a list of named values maps each name to.
pub(crate) closed spec fn entries_map(entries: Seq<(String, Json)>) -> Map<Seq<char>, Tree>
    decreases entries,
{
    if entries.len() == 0 {
        Map::empty()
    } else {
        entries_map(entries.drop_last()).insert(
            entries.last().0@,
            tree_of(entries.last().1),
        )
    }
}

impl View for Json {
    type V = Tree;

    open spec fn view(&self) -> Tree {
        tree_of(*self)
    }
}

/// No two entries have the same name.
pub(crate) open spec fn distinct(entries: Seq<(String, Json)>) -> bool {
    forall|i: int, j: int| 0 <= i < j < entries.len() ==> entries[i].0@ != entries[j].0@
}

/// How the map of a list of entries comes from that of all but the last.
pub(crate) proof fn lemma_unfold_entries_map(entries: Seq<(String, Json)>)
    ensures
        entries.len() == 0 ==> entries_map(entries) == Map::<Seq<char>, Tree>::empty(),
        entries.len() > 0 ==> entries_map(entries) == entries_map(entries.drop_last()).insert(
            entries.last().0@,
            tree_of(entries.last().1),
        ),
{
}

/// Entries of distinct names map each name to its own value, and no other name.
proof fn lemma_entries_map(entries: Seq<(String, Json)>)
    requires
        distinct(entries),
    ensures
        forall|i: int|
            #![trigger entries[i]]
            0 <= i < entries.len() ==> entries_map(entries).contains_key(entries[i].0@)
                && entries_map(entries)[entries[i].0@] == tree_of(entries[i].1),
        forall|key: Seq<char>| #[trigger]
            entries_map(entries).contains_key(key) ==> exists|i: int|
                0 <= i < entries.len() && #[trigger] entries[i].0@ == key,
    decreases entries.len(),
{
    if entries.len() > 0 {
        let front = entries.drop_last();
        lemma_entries_map(front);
        assert forall|i: int| #![trigger entries[i]] 0 <= i < entries.len() implies entries_map(
            entries,
        ).contains_key(entries[i].0@) && entries_map(entries)[entries[i].0@] == tree_of(
            entries[i].1,
        ) by {
            if i < front.len() {
                assert(front[i] == entries[i]);
            }
        }
        assert forall|key: Seq<char>| #[trigger]
            entries_map(entries).contains_key(key) implies exists|i: int|
            0 <= i < entries.len() && #[trigger] entries[i].0@ == key by {
            if key == entries.last().0@ {
                assert(entries[entries.len() - 1].0@ == key);
            } else {
                let i = choose|i: int| 0 <= i < front.len() && #[trigger] front[i].0@ == key;
                assert(entries[i].0@ == key);
            }
        }
    }
}

impl Decimal {
    /// The text that the number is written as.
    pub closed spec fn written(self) -> Seq<char> {
        self.text@
    }

    #[verifier::type_invariant]
    closed spec fn is_written(self) -> bool {
        crate::wire::decimal_form(self.text@) == Some(self.text@)
    }

    /// The decimal that is written as `text`, where there is one.
    pub fn new(text: &str) -> (res: Option<Decimal>)
        ensures
            match res {
                Some(decimal) => decimal.written() == text@ && crate::wire::decimal_form(text@)
                    == Some(text@),
                None => crate::wire::decimal_form(text@) != Some(text@),
            },
    {
        let text = text.to_string();
        match crate::wire::write_decimal(text.as_str()) {
            Some(written) => if written == text {
                Some(Decimal { text })
            } else {
                None
            },
            None => None,
        }
    }

    /// A decimal whose text is known to be its written form.
    pub(crate) fn from_written(text: String) -> (res: Decimal)
        requires
            crate::wire::decimal_form(text@) == Some(text@),
        ensures
            res.written() == text@,
    {
        Decimal { text }
    }

    /// The text that the number is written as.
    pub fn text(&self) -> (res: String)
        ensures
            res@ == self.written(),
            crate::wire::decimal_form(res@) == Some(res@),
    {
        proof {
            use_type_invariant(self);
        }
        self.text.clone()
    }
}

impl Members {
    /// What each name stands for.
    pub closed spec fn map(self) -> Map<Seq<char>, Tree>
        decreases self,
    {
        entries_map(self.entries@)
    }

    #[verifier::type_invariant]
    closed spec fn has_distinct_names(self) -> bool {
        distinct(self.entries@)
    }

    /// The members that a list of entries gives.
    pub(crate) fn from_entries(entries: Vec<(String, Json)>) -> (res: Members)
        requires
            distinct(entries@),
        ensures
            res.map() == entries_map(entries@),
    {
        Members { entries }
    }

    /// The members, each with its name.
    pub(crate) fn entries(&self) -> (res: &Vec<(String, Json)>)
        ensures
            distinct(res@),
            self.map() == entries_map(res@),
            decreases_to!(*self => res@),
    {
        proof {
            use_type_invariant(self);
            assert(decreases_to!(self => self.entries));
            assert(decreases_to!(self.entries => self.entries@));
        }
        &self.entries
    }

    /// No members.
    pub fn new() -> (res: Members)
        ensures
            res.map() == Map::<Seq<char>, Tree>::empty(),
    {
        Members { entries: Vec::new() }
    }

    /// The position of the member of that name.
    fn find(&self, key: &str) -> (res: Option<usize>)
        ensures
            match res {
                Some(i) => i < self.entries@.len() && self.entries@[i as int].0@ == key@,
                None => forall|i: int|
                    0 <= i < self.entries@.len() ==> #[trigger] self.entries@[i].0@ != key@,
            },
    {
        let name = key.to_string();
        for i in 0..self.entries.len()
            invariant
                name@ == key@,
                forall|j: int| 0 <= j < i ==> #[trigger] self.entries@[j].0@ != key@,
        {
            if self.entries[i].0 == name {
                return Some(i);
            }
        }
        None
    }

    /// The value of the member of that name.
    pub fn get(&self, key: &str) -> (res: Option<&Json>)
        ensures
            match res {
                Some(value) => self.map().contains_key(key@) && self.map()[key@] == value@,
                None => !self.map().contains_key(key@),
            },
    {
        proof {
            use_type_invariant(self);
            lemma_entries_map(self.entries@);
        }
        match self.find(key) {
            Some(i) => Some(&self.entries[i].1),
            None => None,
        }
    }

    /// These members with one more, or with another value for the name if it is there already.
    pub fn with(self, key: &str, value: Json) -> (res: Members)
        ensures
            res.map() == self.map().insert(key@, value@),
    {
        proof {
            use_type_invariant(&self);
            lemma_entries_map(self.entries@);
        }
        let found = self.find(key);
        let Members { mut entries } = self;
        let ghost before = entries@;
        match found {
            None => {
                entries.push((key.to_string(), value));
                assert(entries@.drop_last() =~= before);
            },
            Some(i) => {
                entries.set(i, (key.to_string(), value));
                proof {
                    lemma_entries_map(entries@);
                    let after = entries_map(entries@);
                    let wanted = entries_map(before).insert(key@, value@);
                    assert forall|name: Seq<char>| after.contains_key(name)
                        <==> wanted.contains_key(name) by {
                        if after.contains_key(name) {
                            let j = choose|j: int|
                                0 <= j < entries@.len() && #[trigger] entries@[j].0@ == name;
                            assert(before[j].0@ == name);
                        }
                        if entries_map(before).contains_key(name) {
                            let j = choose|j: int|
                                0 <= j < before.len() && #[trigger] before[j].0@ == name;
                            assert(entries@[j].0@ == name);
                        }
                        assert(entries@[i as int].0@ == key@);
                    }
                    assert forall|name: Seq<char>| #[trigger]
                        after.contains_key(name) implies after[name] == wanted[name] by {
                        let j = choose|j: int|
                            0 <= j < entries@.len() && #[trigger] entries@[j].0@ == name;
                        assert(before[j].0@ == name);
                    }
                    assert(after =~= wanted);
                }
            },
        }
        Members { entries }
    }
}

/// The items of an array are the models of the values that it holds.
pub proof fn lemma_array_trees(items: Vec<Json>)
    ensures
        Json::Array(items)@ == Tree::Array(trees(items@)),
{
    assert(Json::Array(items)@->Array_0 =~= trees(items@));
}

impl Json {
    /// The value of the member of that name, where this is an object that has one.
    pub fn member(&self, key: &str) -> (res: Option<&Json>)
        ensures
            match res {
                Some(value) => self@.has_member(key@) && value@ == self@.member(key@),
                None => !self@.has_member(key@),
            },
    {
        match self {
            Json::Object(members) => members.get(key),
            _ => None,
        }
    }

    /// The item at position `i`, where this is an array that has one.
    pub fn item(&self, i: usize) -> (res: Option<&Json>)
        ensures
            match res {
                Some(value) => self@.has_item(i as int) && value@ == self@.item(i as int),
                None => !self@.has_item(i as int),
            },
    {
        match self {
            Json::Array(items) => if i < items.len() {
                Some(&items[i])
            } else {
                None
            },
            _ => None,
        }
    }

    /// The text that this is, if it is one.
    pub fn text(&self) -> (res: Option<&String>)
        ensures
            match res {
                Some(text) => self@.text() == Some(text@),
                None => self@.text() is None,
            },
    {
        match self {
            Json::Text(text) => Some(text),
            _ => None,
        }
    }

    /// The items, if this is an array.
    pub fn items(&self) -> (res: Option<&Vec<Json>>)
        ensures
            match res {
                Some(items) => self@.items() == Some(trees(items@)),
                None => self@.items() is None,
            },
    {
        match self {
            Json::Array(items) => {
                proof {
                    lemma_array_trees(*items);
                }
                Some(items)
            },
            _ => None,
        }
    }

    /// The number that this is, if it is an integer that 64 bits hold without a sign.
    pub fn unsigned(&self) -> (res: Option<u64>)
        ensures
            res == self@.unsigned(),
    {
        match self {
            Json::Unsigned(n) => Some(*n),
            Json::Signed(n) => if *n >= 0 {
                Some(*n as u64)
            } else {
                None
            },
            _ => None,
        }
    }

    /// The text of the member of that name, where it is one.
    pub fn member_text(&self, key: &str) -> (res: Option<String>)
        ensures
            match res {
                Some(text) => self@.member(key@).text() == Some(text@),
                None => self@.member(key@).text() is None,
            },
    {
        match self.member(key) {
            Some(value) => match value.text() {
                Some(text) => Some(text.clone()),
                None => None,
            },
            None => None,
        }
    }

    /// A copy of the member of that name; null where there is none.
    pub fn member_or_null(&self, key: &str) -> (res: Json)
        ensures
            res@ == self@.member(key@),
    {
        match self.member(key) {
            Some(value) => value.clone(),
            None => Json::Null,
        }
    }
}

/// The texts of the members of that name, of those items where it is a text.
pub open spec fn member_texts(items: Seq<Tree>, key: Seq<char>) -> Seq<Seq<char>>
    decreases items.len(),
{
    if items.len() == 0 {
        Seq::empty()
    } else {
        let before = member_texts(items.drop_last(), key);
        match items.last().member(key).text() {
            Some(text) => before.push(text),
            None => before,
        }
    }
}

/// The texts of the members of that name, of those items where it is a text.
pub fn collect_member_texts(items: &Vec<Json>, key: &str) -> (res: Vec<String>)
    ensures
        crate::text::views(res@) == member_texts(trees(items@), key@),
{
    let mut res: Vec<String> = Vec::new();
    let ghost all = trees(items@);
    assert(crate::text::views(res@) =~= member_texts(all.take(0), key@));
    for i in 0..items.len()
        invariant
            all == trees(items@),
            crate::text::views(res@) == member_texts(all.take(i as int), key@),
    {
        assert(all.take(i + 1).drop_last() =~= all.take(i as int));
        let ghost before = res@;
        match items[i].member_text(key) {
            Some(text) => {
                res.push(text);
                assert(crate::text::views(res@) =~= crate::text::views(before).push(text@));
            },
            None => {},
        }
    }
    assert(all.take(items@.len() as int) =~= all);
    res
}

impl Clone for Decimal {
    fn clone(&self) -> (res: Decimal)
        ensures
            res.written() == self.written(),
    {
        Decimal::from_written(self.text())
    }
}

impl Clone for Members {
    fn clone(&self) -> (res: Members)
        ensures
            res.map() == self.map(),
        decreases self,
    {
        proof {
            use_type_invariant(self);
            assert(decreases_to!(self => self.entries));
            assert(decreases_to!(self.entries => self.entries@));
        }
        let mut entries: Vec<(String, Json)> = Vec::new();
        for i in 0..self.entries.len()
            invariant
                decreases_to!(self => self.entries@),
                distinct(self.entries@),
                entries@.len() == i,
                forall|j: int|
                    0 <= j < i ==> (#[trigger] entries@[j]).0@ == self.entries@[j].0@,
                entries_map(entries@) == entries_map(self.entries@.take(i as int)),
        {
            assert(decreases_to!(self.entries@ => self.entries@[i as int]));
            assert(self.entries@.take(i + 1).drop_last() =~= self.entries@.take(i as int));
            let ghost before = entries@;
            entries.push((self.entries[i].0.clone(), self.entries[i].1.clone()));
            assert(entries@.drop_last() =~= before);
        }
        assert(self.entries@.take(self.entries@.len() as int) =~= self.entries@);
        assert(distinct(entries@)) by {
            assert forall|j: int, k: int| 0 <= j < k < entries@.len() implies entries@[j].0@
                != entries@[k].0@ by {
                assert(self.entries@[j].0@ != self.entries@[k].0@);
            }
        }
        Members::from_entries(entries)
    }
}

impl Clone for Json {
    fn clone(&self) -> (res: Json)
        ensures
            res@ == self@,
        decreases self,
    {
        match self {
            Json::Null => Json::Null,
            Json::Bool(b) => Json::Bool(*b),
            Json::Unsigned(n) => Json::Unsigned(*n),
            Json::Signed(n) => Json::Signed(*n),
            Json::Decimal(decimal) => Json::Decimal(decimal.clone()),
            Json::Text(text) => Json::Text(text.clone()),
            Json::Array(items) => {
                let mut copy: Vec<Json> = Vec::new();
                assert(decreases_to!(self => items));
                assert(decreases_to!(items => items@));
                for i in 0..items.len()
                    invariant
                        decreases_to!(self => items@),
                        copy@.len() == i,
                        forall|j: int|
                            0 <= j < i ==> tree_of(#[trigger] copy@[j]) == tree_of(items@[j]),
                {
                    assert(decreases_to!(items@ => items@[i as int]));
                    copy.push(items[i].clone());
                }
                let res = Json::Array(copy);
                assert(res@->Array_0 =~= self@->Array_0);
                res
            },
            Json::Object(members) => Json::Object(members.clone()),
        }
    }
}

/// What one more entry, of a new name, adds to what is left once nulls are removed.
proof fn lemma_removal_of_one_more(
    members: Map<Seq<char>, Tree>,
    name: Seq<char>,
    value: Tree,
)
    requires
        !members.contains_key(name),
    ensures
        value == Tree::Null ==> Tree::Object(members.insert(name, value)).without_nulls()
            == Tree::Object(members).without_nulls(),
        value != Tree::Null ==> Tree::Object(members.insert(name, value)).without_nulls()
            == Tree::Object(
            Tree::Object(members).without_nulls()->Object_0.insert(name, value.without_nulls()),
        ),
{
    let more = Tree::Object(members.insert(name, value)).without_nulls()->Object_0;
    let less = Tree::Object(members).without_nulls()->Object_0;
    if value == Tree::Null {
        assert(more =~= less);
    } else {
        assert(more =~= less.insert(name, value.without_nulls()));
    }
}

/// A value with every null member taken out.
fn cleaned(value: Json) -> (res: Json)
    ensures
        res@ == value@.without_nulls(),
    decreases value,
{
    match value {
        Json::Array(items) => {
            let mut kept: Vec<Json> = Vec::new();
            let ghost all = items@;
            assert(decreases_to!(value => items));
            assert(decreases_to!(items => items@));
            for item in it: items
                invariant
                    it.seq() == all,
                    decreases_to!(value => all),
                    kept@.len() == it.index(),
                    forall|j: int|
                        0 <= j < it.index() ==> tree_of(#[trigger] kept@[j]) == tree_of(
                            all[j],
                        ).without_nulls(),
            {
                assert(decreases_to!(all => all[it.index() as int]));
                kept.push(cleaned(item));
            }
            let res = Json::Array(kept);
            assert(res@->Array_0 =~= value@.without_nulls()->Array_0);
            res
        },
        Json::Object(members) => {
            proof {
                use_type_invariant(&members);
                assert(decreases_to!(value => members));
                assert(decreases_to!(members => members.entries));
                assert(decreases_to!(members.entries => members.entries@));
                assert(members.map() == entries_map(members.entries@));
            }
            let Members { entries } = members;
            let mut kept: Vec<(String, Json)> = Vec::new();
            let ghost all = entries@;
            assert(entries_map(all.take(0)) =~= Map::empty());
            assert(Tree::Object(entries_map(kept@)).without_nulls()->Object_0 =~= entries_map(
                kept@,
            ));
            for entry in it: entries
                invariant
                    it.seq() == all,
                    decreases_to!(value => all),
                    distinct(all),
                    distinct(kept@),
                    Tree::Object(entries_map(kept@)) == Tree::Object(
                        entries_map(all.take(it.index() as int)),
                    ).without_nulls(),
            {
                let ghost i = it.index() as int;
                proof {
                    assert(decreases_to!(all => all[i]));
                    let front = all.take(i);
                    assert(all.take(i + 1).drop_last() =~= front);
                    lemma_entries_map(front);
                    if entries_map(front).contains_key(all[i].0@) {
                        let j = choose|j: int|
                            0 <= j < front.len() && #[trigger] front[j].0@ == all[i].0@;
                        assert(all[j].0@ == all[i].0@);
                    }
                    lemma_removal_of_one_more(
                        entries_map(front),
                        all[i].0@,
                        tree_of(all[i].1),
                    );
                    lemma_entries_map(kept@);
                }
                let (name, inner) = entry;
                match inner {
                    Json::Null => {},
                    inner => {
                        let ghost before = kept@;
                        kept.push((name, cleaned(inner)));
                        assert(kept@.drop_last() =~= before);
                    },
                }
            }
            assert(all.take(all.len() as int) =~= all);
            Json::Object(Members::from_entries(kept))
        },
        other => other,
    }
}

/// Takes every null member out of a value, at every depth. Items of arrays stay, null or not,
/// and so does a value that is itself null.
pub fn remove_null_values(value: &mut Json)
    ensures
        final(value)@ == old(value)@.without_nulls(),
{
    let mut taken = Json::Null;
    std::mem::swap(value, &mut taken);
    *value = cleaned(taken);
}

/// The texts of members of the items of two lists, one after the other, are those of the one and
/// then those of the other, and an item alone has the text that it has.
pub proof fn texts_of_members_are_taken_in_order(
    items: Seq<Tree>,
    more: Seq<Tree>,
    item: Tree,
    key: Seq<char>,
)
    ensures
        member_texts(items + more, key) == member_texts(items, key) + member_texts(more, key),
        item.member(key) matches Tree::Text(text) ==> member_texts(seq![item], key) == seq![text],
        !(item.member(key) is Text) ==> member_texts(seq![item], key).len() == 0,
    decreases more.len(),
{
    assert(seq![item].drop_last() =~= Seq::empty());
    assert(member_texts(Seq::empty(), key) =~= Seq::empty());
    if more.len() == 0 {
        assert(items + more =~= items);
        assert(member_texts(items, key) + member_texts(more, key) =~= member_texts(items, key));
    } else {
        texts_of_members_are_taken_in_order(items, more.drop_last(), item, key);
        assert((items + more).drop_last() =~= items + more.drop_last());
        assert(member_texts(items + more, key) =~= member_texts(items, key) + member_texts(
            more,
            key,
        ));
    }
}

/// A value is told by its kind and by what it holds, and a list of values value by value.
pub proof fn values_are_told_by_what_they_hold(json: Json, list: Seq<Json>, i: int)
    ensures
        json is Null <==> json@ is Null,
        json matches Json::Bool(b) ==> json@ == Tree::Bool(b),
        json matches Json::Unsigned(n) ==> json@ == Tree::Integer(n as int),
        json matches Json::Signed(n) ==> json@ == Tree::Integer(n as int),
        json matches Json::Decimal(decimal) ==> json@ == Tree::Decimal(decimal.written()),
        json matches Json::Text(text) ==> json@ == Tree::Text(text@),
        json matches Json::Array(items) ==> json@ is Array && json@->Array_0.len() == items@.len()
            && forall|j: int| 0 <= j < items@.len() ==> #[trigger] json@->Array_0[j] == items@[j]@,
        json matches Json::Object(members) ==> json@ == Tree::Object(members.map()),
        trees(list).len() == list.len(),
        0 <= i < list.len() ==> trees(list)[i] == list[i]@,
{
}

} // verus!
