//! Name rules for new bricks and projects.
use vstd::prelude::*;

use crate::text::{chars_of, owned};

verus! {

/// ASCII letter.
pub open spec fn is_ascii_alpha(c: char) -> bool {
    ('a' <= c && c <= 'z') || ('A' <= c && c <= 'Z')
}

/// ASCII letter or digit.
pub open spec fn is_ascii_alnum(c: char) -> bool {
    is_ascii_alpha(c) || ('0' <= c && c <= '9')
}

/// Characters allowed anywhere in a brick name.
pub open spec fn is_name_char(c: char) -> bool {
    is_ascii_alnum(c) || c == '_' || c == '-'
}

/// Every character of `s` is allowed in a brick name.
pub open spec fn all_name_chars(s: Seq<char>) -> bool {
    forall|i: int| 0 <= i < s.len() ==> is_name_char(#[trigger] s[i])
}

pub open spec fn msg_empty_name() -> Seq<char> {
    "name cannot be empty"@
}

pub open spec fn msg_bad_chars() -> Seq<char> {
    "name must contain only alphanumeric characters, underscores, or hyphens"@
}

pub open spec fn msg_bad_start() -> Seq<char> {
    "name must start with a letter or underscore"@
}

pub open spec fn msg_empty_component_name() -> Seq<char> {
    "component name cannot be empty"@
}

pub open spec fn msg_bad_component_chars() -> Seq<char> {
    "component name must contain only alphanumeric characters, underscores, or hyphens"@
}

/// The first failed rule for a brick name, if any.
pub open spec fn brick_name_error(name: Seq<char>) -> Option<Seq<char>> {
    if name.len() == 0 {
        Some(msg_empty_name())
    } else if !all_name_chars(name) {
        Some(msg_bad_chars())
    } else if !(is_ascii_alpha(name[0]) || name[0] == '_') {
        Some(msg_bad_start())
    } else {
        None
    }
}

/// The first failed rule for a component name given on the command line, if any.
pub open spec fn component_name_error(name: Seq<char>) -> Option<Seq<char>> {
    if name.len() == 0 {
        Some(msg_empty_component_name())
    } else if !all_name_chars(name) {
        Some(msg_bad_component_chars())
    } else {
        None
    }
}

/// Law: a brick name is accepted exactly when it is not empty, every character
/// is an ASCII letter, an ASCII digit, `_` or `-`, and it starts with an ASCII
/// letter or `_`. A name with any other character (such as `.`, `/` or a space)
/// is refused with the message about allowed characters.
pub proof fn law_brick_name_rule(name: Seq<char>)
    ensures
        brick_name_error(name) is None <==> {
            &&& name.len() > 0
            &&& forall|i: int|
                0 <= i < name.len() ==> ('a' <= #[trigger] name[i] <= 'z') || ('A' <= name[i] <= 'Z') || ('0'
                    <= name[i] <= '9') || name[i] == '_' || name[i] == '-'
            &&& ('a' <= name[0] <= 'z') || ('A' <= name[0] <= 'Z') || name[0] == '_'
        },
        forall|i: int|
            0 <= i < name.len() && !(('a' <= #[trigger] name[i] <= 'z') || ('A' <= name[i] <= 'Z') || ('0' <= name[i]
                <= '9') || name[i] == '_' || name[i] == '-') ==> brick_name_error(name) == Some(
                "name must contain only alphanumeric characters, underscores, or hyphens"@,
            ),
{
}

/// Law: a component name given on the command line is accepted exactly when it
/// is not empty and every character is an ASCII letter, an ASCII digit, `_` or `-`.
pub proof fn law_component_name_rule(name: Seq<char>)
    ensures
        component_name_error(name) is None <==> {
            &&& name.len() > 0
            &&& forall|i: int|
                0 <= i < name.len() ==> ('a' <= #[trigger] name[i] <= 'z') || ('A' <= name[i] <= 'Z') || ('0'
                    <= name[i] <= '9') || name[i] == '_' || name[i] == '-'
        },
{
}

/// Checks whether every character of `cs` is allowed in a brick name.
fn check_name_chars(cs: &Vec<char>) -> (r: bool)
    ensures
        r == all_name_chars(cs@),
{
    let mut i: usize = 0;
    while i < cs.len()
        invariant
            i <= cs.len(),
            forall|k: int| 0 <= k < i ==> is_name_char(#[trigger] cs@[k]),
        decreases cs.len() - i,
    {
        let c = cs[i];
        let ok = ('a' <= c && c <= 'z') || ('A' <= c && c <= 'Z') || ('0' <= c && c <= '9')
            || c == '_' || c == '-';
        if !ok {
            return false;
        }
        i += 1;
    }
    true
}

/// Validates the name of a new brick or project: non-empty, only ASCII letters,
/// digits, `_` and `-`, starting with a letter or `_`.
pub fn validate_brick_name(name: &str) -> (r: Result<(), String>)
    ensures
        match brick_name_error(name@) {
            Some(msg) => r matches Err(e) && e@ == msg,
            None => r is Ok,
        },
{
    let cs = chars_of(name);
    if cs.len() == 0 {
        return Err(owned("name cannot be empty"));
    }
    if !check_name_chars(&cs) {
        return Err(owned("name must contain only alphanumeric characters, underscores, or hyphens"));
    }
    let c = cs[0];
    if !(('a' <= c && c <= 'z') || ('A' <= c && c <= 'Z') || c == '_') {
        return Err(owned("name must start with a letter or underscore"));
    }
    Ok(())
}

/// Validates a component name given to `component new` or `component update`:
/// non-empty and only ASCII letters, digits, `_` and `-`.
pub fn validate_name(name: &str) -> (r: Result<(), String>)
    ensures
        match component_name_error(name@) {
            Some(msg) => r matches Err(e) && e@ == msg,
            None => r is Ok,
        },
{
    let cs = chars_of(name);
    if cs.len() == 0 {
        return Err(owned("component name cannot be empty"));
    }
    if !check_name_chars(&cs) {
        return Err(
            owned("component name must contain only alphanumeric characters, underscores, or hyphens"),
        );
    }
    Ok(())
}

} // verus!
