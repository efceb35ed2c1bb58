//! A response of the source as a tree of plain values, and the text of a
//! value in it.

use serde_json::Value;
use vstd::prelude::*;

verus! {

/// One value of a response. A number is held as the text in which the
/// source wrote it; the members of an object stand in the order in which
/// a reader of the response walks them.
#[derive(Debug, PartialEq, Eq)]
pub enum Json {
    Null,
    Bool(bool),
    Number(String),
    Text(String),
    Array(Vec<Json>),
    Object(Vec<Member>),
}

/// A member of an object: its name and its value.
#[derive(Debug, PartialEq, Eq)]
pub struct Member {
    pub name: String,
    pub value: Json,
}

/// The string literal that stands for a text in a response: the text in
/// double quotes, with the escapes of the JSON grammar.
pub uninterp spec fn json_quoted(text: Seq<char>) -> Seq<char>;

/// Writes a text as a string literal: a `serde_json::Value::String` of
/// it, rendered by that type's `to_string`.
#[verifier::external_body]
fn quoted(text: &str) -> (literal: String)
    ensures
        literal@ == json_quoted(text@),
{
    Value::String(text.to_owned()).to_string()
}

/// What stands before the value at place `i` of a list: nothing before
/// the first, a comma before the others.
pub open spec fn separator(i: int) -> Seq<char> {
    if i == 0 {
        Seq::empty()
    } else {
        ","@
    }
}

/// The texts of the first `n` values of an array, commas between them.
pub open spec fn items_text(items: Vec<Json>, n: nat) -> Seq<char>
    decreases items, n,
{
    if n == 0 || n > items@.len() {
        Seq::empty()
    } else {
        items_text(items, (n - 1) as nat) + separator(n - 1) + items@[n - 1].spec_text()
    }
}

/// The texts of the first `n` members of an object, each a quoted name,
/// a colon and the value, commas between them.
pub open spec fn members_text(members: Vec<Member>, n: nat) -> Seq<char>
    decreases members, n,
{
    if n == 0 || n > members@.len() {
        Seq::empty()
    } else {
        members_text(members, (n - 1) as nat) + separator(n - 1) + json_quoted(
            members@[n - 1].name@,
        ) + ":"@ + members@[n - 1].value.spec_text()
    }
}

/// The first of `members` that is named `name`.
pub open spec fn find_member(members: Seq<Member>, name: Seq<char>) -> Option<Json>
    decreases members.len(),
{
    if members.len() == 0 {
        None
    } else if members[0].name@ == name {
        Some(members[0].value)
    } else {
        find_member(members.drop_first(), name)
    }
}

impl Json {
    /// The compact text of a value: `null`, `true` or `false`, a number
    /// as it was written, a string as a literal, an array in square and
    /// an object in curly brackets.
    pub open spec fn spec_text(self) -> Seq<char>
        decreases self, 0nat,
    {
        match self {
            Json::Null => "null"@,
            Json::Bool(b) => if b {
                "true"@
            } else {
                "false"@
            },
            Json::Number(digits) => digits@,
            Json::Text(text) => json_quoted(text@),
            Json::Array(items) => "["@ + items_text(items, items@.len()) + "]"@,
            Json::Object(members) => "{"@ + members_text(members, members@.len()) + "}"@,
        }
    }

    /// The values of an array; of any other value, nothing.
    pub open spec fn spec_items(self) -> Option<Seq<Json>> {
        match self {
            Json::Array(items) => Some(items@),
            _ => None,
        }
    }

    /// The members of an object; of any other value, nothing.
    pub open spec fn spec_members(self) -> Option<Seq<Member>> {
        match self {
            Json::Object(members) => Some(members@),
            _ => None,
        }
    }

    /// The values of an array; of any other value, nothing.
    pub fn items(&self) -> (items: Option<&Vec<Json>>)
        ensures
            items is Some <==> self.spec_items() is Some,
            items is Some ==> items->Some_0@ == self.spec_items()->Some_0,
    {
        match self {
            Json::Array(items) => Some(items),
            _ => None,
        }
    }

    /// The members of an object; of any other value, nothing.
    pub fn members(&self) -> (members: Option<&Vec<Member>>)
        ensures
            members is Some <==> self.spec_members() is Some,
            members is Some ==> members->Some_0@ == self.spec_members()->Some_0,
    {
        match self {
            Json::Object(members) => Some(members),
            _ => None,
        }
    }

    /// The compact text of a value.
    pub fn text(&self) -> (text: String)
        ensures
            text@ == self.spec_text(),
        decreases self, 0nat,
    {
        match self {
            Json::Null => String::from_str("null"),
            Json::Bool(b) => if *b {
                String::from_str("true")
            } else {
                String::from_str("false")
            },
            Json::Number(digits) => digits.clone(),
            Json::Text(text) => quoted(text.as_str()),
            Json::Array(items) => {
                let mut text = String::from_str("[");
                let mut i: usize = 0;
                while i < items.len()
                    invariant
                        i <= items.len(),
                        decreases_to!(self => items),
                        text@ == "["@ + items_text(*items, i as nat),
                    decreases items.len() - i,
                {
                    if i > 0 {
                        text.append(",");
                    }
                    assert(decreases_to!(*items => (*items)[i as int]));
                    let item = items[i].text();
                    text.append(item.as_str());
                    assert(text@ =~= "["@ + items_text(*items, (i + 1) as nat));
                    i += 1;
                }
                text.append("]");
                text
            },
            Json::Object(members) => {
                let mut text = String::from_str("{");
                let mut i: usize = 0;
                while i < members.len()
                    invariant
                        i <= members.len(),
                        decreases_to!(self => members),
                        text@ == "{"@ + members_text(*members, i as nat),
                    decreases members.len() - i,
                {
                    if i > 0 {
                        text.append(",");
                    }
                    let name = quoted(members[i].name.as_str());
                    text.append(name.as_str());
                    text.append(":");
                    assert(decreases_to!(*members => (*members)[i as int]));
                    assert(decreases_to!((*members)[i as int] => (*members)[i as int].value));
                    let value = members[i].value.text();
                    text.append(value.as_str());
                    assert(text@ =~= "{"@ + members_text(*members, (i + 1) as nat));
                    i += 1;
                }
                text.append("}");
                text
            },
        }
    }
}

/// The first of `members` that is named `name`.
pub fn member<'a>(members: &'a Vec<Member>, name: &str) -> (found: Option<&'a Json>)
    ensures
        found is Some <==> find_member(members@, name@) is Some,
        found is Some ==> *found->Some_0 == find_member(members@, name@)->Some_0,
{
    let wanted = String::from_str(name);
    let mut i: usize = 0;
    assert(members@.skip(0) =~= members@);
    while i < members.len()
        invariant
            i <= members.len(),
            wanted@ == name@,
            find_member(members@, name@) == find_member(members@.skip(i as int), name@),
        decreases members.len() - i,
    {
        assert(members@.skip(i as int)[0] == members@[i as int]);
        assert(members@.skip(i as int).drop_first() =~= members@.skip(i + 1));
        if members[i].name == wanted {
            return Some(&members[i].value);
        }
        i += 1;
    }
    None
}

} // verus!
