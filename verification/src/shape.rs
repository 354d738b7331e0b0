//! The forms a value may be written in, told apart by their shape before they are read.
//!
//! A value that fits no form is answered with what the forms are, and a table is taken for the
//! form its keys say, so that a misspelled option is reported by its name.

use crate::config::Cpus;
use crate::text::{cat2, error, same, Error};
use crate::value::{
    group_json, group_value, json_shown, json_sound, json_text, ordered, to_toml, toml_holds, Json, JsonTree, Toml, Tree,
};
use vstd::prelude::*;

verus! {

broadcast use {group_value, group_json};

/// A count of vCPUs, where the number is one.
pub fn cpus_of_count(n: i64) -> (r: Option<Cpus>)
    ensures
        r == if 0 <= n <= u32::MAX {
            Some(Cpus::Count(n as u32))
        } else {
            None
        },
{
    if 0 <= n && n <= 4294967295 {
        Some(Cpus::Count(n as u32))
    } else {
        None
    }
}

/// As many vCPUs as the host has, where the text says so.
pub fn cpus_of_text(s: &str) -> (r: Option<Cpus>)
    ensures
        r == if s@ == "host"@ {
            Some(Cpus::Host)
        } else {
            None
        },
{
    if same(s, "host") {
        Some(Cpus::Host)
    } else {
        None
    }
}

/// What a number of vCPUs may be written as, for the error that says so.
pub const CPUS_FORMS: &'static str = "a whole number of vCPUs or \"host\"";

/// The form a hook is written in.
#[derive(Debug, Clone, Copy, PartialEq, Eq, Structural)]
pub enum HookForm {
    Shell,
    Argv,
    /// a table that holds any of the options
    Detailed,
    /// a table of named hooks
    Group,
}

/// A key that makes a table the option form rather than a group.
pub open spec fn is_hook_option(k: Seq<char>) -> bool {
    k == "run"@ || k == "cwd"@ || k == "timeout"@ || k == "required"@
}

/// Any of the table's keys is an option of a hook.
pub open spec fn has_option(t: Seq<(Seq<char>, Tree)>) -> bool {
    exists|i: int| 0 <= i < t.len() && is_hook_option((#[trigger] t[i]).0)
}

/// The type a configuration value has, by the name `toml` gives it.
pub open spec fn variant_name(v: Tree) -> Seq<char> {
    match v {
        Tree::Text(_) => "string"@,
        Tree::Integer(_) => "integer"@,
        Tree::Float(_) => "float"@,
        Tree::Boolean(_) => "boolean"@,
        Tree::Date(..) => "datetime"@,
        Tree::Array(_) => "array"@,
        Tree::Table(_) => "table"@,
    }
}

/// `toml::Value::type_str`: the name of the value's variant.
#[verifier::external_body]
fn toml_type_str(v: &toml::Value) -> (r: &'static str)
    ensures
        r@ == variant_name(toml_holds(*v)),
{
    v.type_str()
}

/// The form of the hook, or what a hook is.
pub open spec fn hook_shape(v: Tree) -> Result<HookForm, Seq<char>> {
    match v {
        Tree::Text(_) => Ok(HookForm::Shell),
        Tree::Array(_) => Ok(HookForm::Argv),
        Tree::Table(t) => if has_option(t) {
            Ok(HookForm::Detailed)
        } else {
            Ok(HookForm::Group)
        },
        _ => Err(
            "a hook is a command string, an argv list, a table with `run`, or a table of named hooks, not "@ + variant_name(
                v,
            ),
        ),
    }
}

/// The form a hook is written in, by its shape and, for a table, by its keys.
pub fn hook_form(v: &Toml) -> (r: Result<HookForm, Error>)
    requires
        ordered(v.deep_view()),
    ensures
        match r {
            Ok(f) => hook_shape(v.deep_view()) == Ok::<HookForm, Seq<char>>(f),
            Err(e) => hook_shape(v.deep_view()) == Err::<HookForm, Seq<char>>(e.deep_view()),
        },
{
    match v {
        Toml::Text(_) => Ok(HookForm::Shell),
        Toml::Array(_) => Ok(HookForm::Argv),
        Toml::Table(t) => {
            let ghost s = t.deep_view();
            let mut i: usize = 0;
            while i < t.len()
                invariant
                    i <= t@.len(),
                    s == t.deep_view(),
                    v.deep_view() == Tree::Table(s),
                    forall|j: int| 0 <= j < i ==> !is_hook_option((#[trigger] s[j]).0),
                decreases t@.len() - i,
            {
                let k = t[i].0.as_str();
                assert(s[i as int].0 == k@);
                if same(k, "run") || same(k, "cwd") || same(k, "timeout") || same(k, "required") {
                    assert(0 <= i < s.len() && is_hook_option(s[i as int].0));
                    assert(has_option(s));
                    return Ok(HookForm::Detailed);
                }
                i = i + 1;
            }
            Ok(HookForm::Group)
        },
        _ => Err(
            error(
                cat2(
                    "a hook is a command string, an argv list, a table with `run`, or a table of named hooks, not ",
                    toml_type_str(&to_toml(v)),
                ),
            ),
        ),
    }
}

/// The form a devcontainer mount is written in.
#[derive(Debug, Clone, Copy, PartialEq, Eq, Structural)]
pub enum MountForm {
    Str,
    Obj,
}

/// The form of the mount, or what a mount is.
pub open spec fn mount_shape(v: JsonTree) -> Result<MountForm, Seq<char>> {
    match v {
        JsonTree::Text(_) => Ok(MountForm::Str),
        JsonTree::Object(_) => Ok(MountForm::Obj),
        _ => Err("a mount is a string or an object, not "@ + json_shown(v)),
    }
}

/// The form a devcontainer mount is written in, by its shape.
pub fn mount_form(v: &Json) -> (r: Result<MountForm, Error>)
    requires
        json_sound(v.deep_view()),
    ensures
        match r {
            Ok(f) => mount_shape(v.deep_view()) == Ok::<MountForm, Seq<char>>(f),
            Err(e) => mount_shape(v.deep_view()) == Err::<MountForm, Seq<char>>(e.deep_view()),
        },
{
    match v {
        Json::Text(_) => Ok(MountForm::Str),
        Json::Object(_) => Ok(MountForm::Obj),
        _ => Err(error(cat2("a mount is a string or an object, not ", json_text(v).as_str()))),
    }
}

} // verus!
