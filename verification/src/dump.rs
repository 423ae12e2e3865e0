//! Writing out a script value for a person to read.
//!
//! A table whose keys are all whole numbers above zero is written as a
//! list; another table is written key by key, or not at all unless asked
//! to.

use crate::text::{signed_digits, signed_text};
use vstd::prelude::*;

verus! {

/// A value of a script, as far as writing it out looks at it.
#[derive(Debug)]
pub enum LuaValue {
    Nil,
    Boolean(bool),
    Integer(i64),
    /// A number with a fraction, as the interpreter writes it.
    Number(String),
    /// Text; `None` where its bytes are no UTF-8.
    Text(Option<String>),
    /// The pairs of a table, in the order in which the table hands them
    /// out.
    Table(Vec<(LuaValue, LuaValue)>),
    Function,
    Thread,
    UserData,
    LightUserData,
    Other,
    /// An error, with its message.
    Error(String),
}

/// Every key of `pairs` is a whole number above zero.
pub open spec fn is_array(pairs: Seq<(LuaValue, LuaValue)>) -> bool {
    forall|k: int|
        0 <= k < pairs.len() ==> ((#[trigger] pairs[k]).0 matches LuaValue::Integer(i) && i > 0)
}

/// How a key is written.
pub open spec fn key_text(key: LuaValue) -> Seq<char> {
    match key {
        LuaValue::Text(Some(text)) => text@,
        LuaValue::Text(None) => "invalid utf8"@,
        LuaValue::Integer(i) => signed_digits(i as int),
        LuaValue::Number(n) => n@,
        _ => "<unknown key>"@,
    }
}

/// How `value` is written. Tables inside tables are written out where
/// `recursive` is set, and as `<table>` where it is not; lists always are.
pub open spec fn rendered(value: LuaValue, recursive: bool) -> Seq<char>
    decreases value, 0nat,
{
    match value {
        LuaValue::Nil => "nil"@,
        LuaValue::Boolean(b) => if b {
            "true"@
        } else {
            "false"@
        },
        LuaValue::Integer(i) => signed_digits(i as int),
        LuaValue::Number(n) => n@,
        LuaValue::Text(Some(text)) => text@,
        LuaValue::Text(None) => "invalid utf8"@,
        LuaValue::Table(pairs) => if is_array(pairs@) {
            "["@ + joined(pairs@, pairs@.len(), recursive) + "]"@
        } else if !recursive {
            "<table>"@
        } else {
            dumped(pairs@, pairs@.len(), recursive)
        },
        LuaValue::Function => "<function>"@,
        LuaValue::Thread => "<thread>"@,
        LuaValue::UserData => "<userdata>"@,
        LuaValue::LightUserData => "<lightuserdata>"@,
        LuaValue::Other => "<other>"@,
        LuaValue::Error(message) => "<error: "@ + message@ + ">"@,
    }
}

/// The values of the first `upto` pairs, written one after the other with
/// a comma and a blank between them.
pub open spec fn joined(pairs: Seq<(LuaValue, LuaValue)>, upto: nat, recursive: bool) -> Seq<char>
    decreases pairs, upto,
{
    if upto == 0 || upto > pairs.len() {
        Seq::empty()
    } else if upto == 1 {
        rendered(pairs[0].1, recursive)
    } else {
        joined(pairs, (upto - 1) as nat, recursive) + ", "@ + rendered(
            pairs[upto - 1].1,
            recursive,
        )
    }
}

/// The first `upto` pairs, each on a line of its own: the key, a colon and
/// a blank, the value.
pub open spec fn dumped(pairs: Seq<(LuaValue, LuaValue)>, upto: nat, recursive: bool) -> Seq<char>
    decreases pairs, upto,
{
    if upto == 0 || upto > pairs.len() {
        Seq::empty()
    } else {
        dumped(pairs, (upto - 1) as nat, recursive) + key_text(pairs[upto - 1].0) + ": "@
            + rendered(pairs[upto - 1].1, recursive) + "\n"@
    }
}

/// Whether every key of `pairs` is a whole number above zero.
fn all_keys_count(pairs: &Vec<(LuaValue, LuaValue)>) -> (r: bool)
    ensures
        r == is_array(pairs@),
{
    let mut i: usize = 0;
    while i < pairs.len()
        invariant
            i <= pairs.len(),
            forall|k: int|
                0 <= k < i ==> ((#[trigger] pairs[k]).0 matches LuaValue::Integer(n) && n > 0),
        decreases pairs.len() - i,
    {
        match &pairs[i].0 {
            LuaValue::Integer(n) => {
                if *n <= 0 {
                    return false;
                }
            },
            _ => {
                return false;
            },
        }
        i += 1;
    }
    true
}

/// Writes a key: see [`key_text`].
fn key_to_string(key: &LuaValue) -> (r: String)
    ensures
        r@ == key_text(*key),
{
    match key {
        LuaValue::Text(Some(text)) => text.clone(),
        LuaValue::Text(None) => String::from_str("invalid utf8"),
        LuaValue::Integer(i) => signed_text(*i),
        LuaValue::Number(n) => n.clone(),
        _ => String::from_str("<unknown key>"),
    }
}

/// Writes `value`: see [`rendered`].
pub fn value_to_string(value: &LuaValue, recursive: bool) -> (r: String)
    ensures
        r@ == rendered(*value, recursive),
    decreases *value, 0nat,
{
    match value {
        LuaValue::Nil => String::from_str("nil"),
        LuaValue::Boolean(b) => if *b {
            String::from_str("true")
        } else {
            String::from_str("false")
        },
        LuaValue::Integer(i) => signed_text(*i),
        LuaValue::Number(n) => n.clone(),
        LuaValue::Text(Some(text)) => text.clone(),
        LuaValue::Text(None) => String::from_str("invalid utf8"),
        LuaValue::Table(pairs) => {
            if all_keys_count(pairs) {
                let mut text = String::from_str("[");
                text.append(join_values(pairs, recursive).as_str());
                text.append("]");
                text
            } else if !recursive {
                String::from_str("<table>")
            } else {
                dump_table(pairs, recursive)
            }
        },
        LuaValue::Function => String::from_str("<function>"),
        LuaValue::Thread => String::from_str("<thread>"),
        LuaValue::UserData => String::from_str("<userdata>"),
        LuaValue::LightUserData => String::from_str("<lightuserdata>"),
        LuaValue::Other => String::from_str("<other>"),
        LuaValue::Error(message) => {
            let mut text = String::from_str("<error: ");
            text.append(message.as_str());
            text.append(">");
            text
        },
    }
}

/// Writes the values of `pairs` one after the other, with a comma and a
/// blank between them: see [`joined`].
fn join_values(pairs: &Vec<(LuaValue, LuaValue)>, recursive: bool) -> (r: String)
    ensures
        r@ == joined(pairs@, pairs@.len(), recursive),
    decreases *pairs, 1nat,
{
    let mut text = String::new();
    let mut i: usize = 0;
    while i < pairs.len()
        invariant
            i <= pairs.len(),
            text@ == joined(pairs@, i as nat, recursive),
        decreases pairs.len() - i,
    {
        if i > 0 {
            text.append(", ");
        }
        let item = value_to_string(&pairs[i].1, recursive);
        text.append(item.as_str());
        assert(text@ =~= joined(pairs@, (i + 1) as nat, recursive));
        i += 1;
    }
    text
}

/// Writes the pairs of a table, each on a line of its own: see [`dumped`].
pub fn dump_table(pairs: &Vec<(LuaValue, LuaValue)>, recursive: bool) -> (r: String)
    ensures
        r@ == dumped(pairs@, pairs@.len(), recursive),
    decreases *pairs, 1nat,
{
    let mut text = String::new();
    let mut i: usize = 0;
    while i < pairs.len()
        invariant
            i <= pairs.len(),
            text@ == dumped(pairs@, i as nat, recursive),
        decreases pairs.len() - i,
    {
        let key = key_to_string(&pairs[i].0);
        let value = value_to_string(&pairs[i].1, recursive);
        text.append(key.as_str());
        text.append(": ");
        text.append(value.as_str());
        text.append("\n");
        assert(text@ =~= dumped(pairs@, (i + 1) as nat, recursive));
        i += 1;
    }
    text
}

} // verus!
