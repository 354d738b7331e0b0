//! What a merged config must satisfy.

use crate::config::Command;
use crate::config::Cpus;
use crate::config::Egress;
use crate::config::Endpoint;
use crate::config::Environment;
use crate::config::Hook;
use crate::config::HookSpec;
use crate::config::Mount;
use crate::config::Schema;
use crate::config::Task;
use crate::config::SCHEMA;
use crate::text::{
    alnum, blank, cat2, cat3, cat4, cat5, cat7, chars_of, debug_text, decimal_int, error, is_alnum, is_blank,
    is_letter, is_one_of, letter, outcome, quoted, same, within, Error,
};
use crate::units::duration;
use crate::units::duration_error;
use crate::units::mem_mib;
use crate::units::parse_duration;
use crate::units::parse_mem_mib;
use crate::units::parse_version;
use crate::units::version_error;
use crate::units::version_of;
use vstd::prelude::*;

verus! {

/// The outcome of a validation: fine, or the error's text.
pub open spec fn verdict(e: Option<Seq<char>>) -> Result<(), Seq<char>> {
    match e {
        Some(m) => Err(m),
        None => Ok(()),
    }
}

/// The first of the two errors that is there.
pub open spec fn first(a: Option<Seq<char>>, b: Option<Seq<char>>) -> Option<Seq<char>> {
    if a is Some {
        a
    } else {
        b
    }
}

/// The error where the condition holds.
pub open spec fn flagged(cond: bool, e: Seq<char>) -> Option<Seq<char>> {
    if cond {
        Some(e)
    } else {
        None
    }
}

/// An error under a heading.
pub open spec fn headed(heading: Seq<char>, e: Option<Seq<char>>) -> Option<Seq<char>> {
    match e {
        Some(m) => Some(heading + ": "@ + m),
        None => None,
    }
}

/// What has to be known besides the config itself to check it.
#[derive(Debug)]
pub struct Known {
    /// the features `vk check` answers for
    pub features: Vec<String>,
    /// the endpoint addresses that are IP addresses
    pub addresses: Vec<String>,
}

/// A name a shell can export.
pub open spec fn is_env_name(s: Seq<char>) -> bool {
    &&& s.len() > 0
    &&& is_letter(s[0]) || s[0] == '_'
    &&& forall|i: int| 0 <= i < s.len() ==> is_alnum(#[trigger] s[i]) || s[i] == '_'
}

/// A name usable in a file name and an ssh alias.
pub open spec fn is_name(s: Seq<char>) -> bool {
    &&& s.len() > 0
    &&& forall|i: int| 0 <= i < s.len() ==> is_alnum(#[trigger] s[i]) || s[i] == '.' || s[i] == '_' || s[i] == '-'
}

pub fn env_name(s: &str) -> (r: bool)
    ensures
        r == is_env_name(s@),
{
    let v = chars_of(s);
    if v.len() == 0 || !(letter(v[0]) || v[0] == '_') {
        return false;
    }
    let mut i: usize = 0;
    while i < v.len()
        invariant
            i <= v@.len(),
            v@ == s@,
            forall|j: int| 0 <= j < i ==> is_alnum(#[trigger] s@[j]) || s@[j] == '_',
        decreases v@.len() - i,
    {
        if !(alnum(v[i]) || v[i] == '_') {
            assert(!is_alnum(s@[i as int]));
            return false;
        }
        i = i + 1;
    }
    true
}

pub fn plain_name(s: &str) -> (r: bool)
    ensures
        r == is_name(s@),
{
    let v = chars_of(s);
    if v.len() == 0 {
        return false;
    }
    let mut i: usize = 0;
    while i < v.len()
        invariant
            i <= v@.len(),
            v@ == s@,
            forall|j: int|
                0 <= j < i ==> is_alnum(#[trigger] s@[j]) || s@[j] == '.' || s@[j] == '_' || s@[j] == '-',
        decreases v@.len() - i,
    {
        if !(alnum(v[i]) || v[i] == '.' || v[i] == '_' || v[i] == '-') {
            assert(!is_alnum(s@[i as int]));
            return false;
        }
        i = i + 1;
    }
    true
}

pub open spec fn env_name_error(s: Seq<char>) -> Option<Seq<char>> {
    flagged(
        !is_env_name(s),
        debug_text(s) + " is not a variable name (a letter or `_`, then letters, digits and `_`)"@,
    )
}

/// A name a shell can export: one holding `=` would reach the guest as a different variable.
pub fn valid_env_name(name: &str) -> (r: Result<(), Error>)
    ensures
        outcome(r) == verdict(env_name_error(name@)),
{
    if !env_name(name) {
        return Err(
            error(
                cat2(
                    quoted(name).as_str(),
                    " is not a variable name (a letter or `_`, then letters, digits and `_`)",
                ),
            ),
        );
    }
    Ok(())
}

pub open spec fn name_error(s: Seq<char>) -> Option<Seq<char>> {
    flagged(!is_name(s), debug_text(s) + " is not a name (letters, digits, `.`, `_` and `-` only)"@)
}

/// A name usable in a file name and an ssh alias: letters, digits, `.`, `_`, `-`.
pub fn valid_name(name: &str) -> (r: Result<(), Error>)
    ensures
        outcome(r) == verdict(name_error(name@)),
{
    if !plain_name(name) {
        return Err(error(cat2(quoted(name).as_str(), " is not a name (letters, digits, `.`, `_` and `-` only)")));
    }
    Ok(())
}

/// The first bad variable name among the first `n` entries.
pub open spec fn env_names_error(env: Seq<(String, String)>, heading: Seq<char>, n: int) -> Option<Seq<char>>
    decreases n,
{
    if n <= 0 {
        None
    } else {
        first(env_names_error(env, heading, n - 1), headed(heading, env_name_error(env[n - 1].0@)))
    }
}

pub fn check_env_names(env: &Vec<(String, String)>, heading: &str) -> (r: Result<(), Error>)
    ensures
        outcome(r) == verdict(env_names_error(env@, heading@, env@.len() as int)),
{
    let mut i: usize = 0;
    while i < env.len()
        invariant
            i <= env@.len(),
            env_names_error(env@, heading@, i as int) is None,
        decreases env@.len() - i,
    {
        if let Err(e) = valid_env_name(env[i].0.as_str()) {
            proof {
                lemma_env_names_kept(env@, heading@, i + 1, env@.len() as int);
            }
            return Err(within(heading, e));
        }
        i = i + 1;
    }
    Ok(())
}

proof fn lemma_env_names_kept(env: Seq<(String, String)>, heading: Seq<char>, n: int, m: int)
    requires
        0 <= n <= m,
        env_names_error(env, heading, n) is Some,
    ensures
        env_names_error(env, heading, m) == env_names_error(env, heading, n),
    decreases m - n,
{
    if n < m {
        lemma_env_names_kept(env, heading, n, m - 1);
    }
}

pub open spec fn spec_error(h: HookSpec) -> Option<Seq<char>> {
    match h.run {
        None => Some("needs `run`: the command"@),
        Some(Command::Argv(a)) if a@.len() == 0 => Some("the argv list is empty"@),
        Some(Command::Shell(s)) if blank(s@) => Some("the command is empty"@),
        Some(_) => match h.timeout {
            Some(t) => flagged(
                duration(t@) is None,
                "timeout "@ + debug_text(t@) + ": "@ + duration_error(),
            ),
            None => None,
        },
    }
}

/// What a hook has wrong with it.
pub open spec fn hook_error(h: Hook) -> Option<Seq<char>>
    decreases h, 1int, 0int,
{
    match h {
        Hook::Shell(s) => flagged(blank(s@), "the command is empty"@),
        Hook::Argv(a) => flagged(a@.len() == 0, "the argv list is empty"@),
        Hook::Detailed(d) => spec_error(d),
        Hook::Group(g) => if g@.len() == 0 {
            Some("the group is empty"@)
        } else {
            members_error(h, g@.len() as int)
        },
    }
}

/// The first thing wrong among the first `n` members of a group.
pub open spec fn members_error(h: Hook, n: int) -> Option<Seq<char>>
    decreases h, 0int, n,
{
    match h {
        Hook::Group(g) => if n <= 0 || n > g@.len() {
            None
        } else {
            first(
                members_error(h, n - 1),
                first(name_error(g@[n - 1].0@), headed(g@[n - 1].0@, hook_error(g@[n - 1].1))),
            )
        },
        _ => None,
    }
}

proof fn lemma_members_kept(h: Hook, n: int, m: int)
    requires
        h is Group,
        0 <= n <= m <= h->Group_0@.len(),
        members_error(h, n) is Some,
    ensures
        members_error(h, m) == members_error(h, n),
    decreases m - n,
{
    if n < m {
        lemma_members_kept(h, n, m - 1);
    }
}

impl Hook {
    /// A hook names a command, and a group of hooks at least one.
    pub fn validate(&self) -> (r: Result<(), Error>)
        ensures
            outcome(r) == verdict(hook_error(*self)),
        decreases self,
    {
        match self {
            Hook::Shell(s) => {
                if is_blank(s.as_str()) {
                    return Err(error("the command is empty".to_owned()));
                }
                Ok(())
            },
            Hook::Argv(a) => {
                if a.len() == 0 {
                    return Err(error("the argv list is empty".to_owned()));
                }
                Ok(())
            },
            Hook::Detailed(d) => check_spec(d),
            Hook::Group(g) => {
                if g.len() == 0 {
                    return Err(error("the group is empty".to_owned()));
                }
                let mut i: usize = 0;
                while i < g.len()
                    invariant
                        i <= g@.len(),
                        *self == Hook::Group(*g),
                        members_error(*self, i as int) is None,
                    decreases g@.len() - i,
                {
                    if let Err(e) = valid_name(g[i].0.as_str()) {
                        proof {
                            lemma_members_kept(*self, i + 1, g@.len() as int);
                        }
                        return Err(e);
                    }
                    assert(decreases_to!(*self => g@));
                    assert(decreases_to!(g@ => g@[i as int]));
                    if let Err(e) = g[i].1.validate() {
                        proof {
                            lemma_members_kept(*self, i + 1, g@.len() as int);
                        }
                        return Err(within(g[i].0.as_str(), e));
                    }
                    i = i + 1;
                }
                Ok(())
            },
        }
    }
}

fn check_spec(h: &HookSpec) -> (r: Result<(), Error>)
    ensures
        outcome(r) == verdict(spec_error(*h)),
{
    match &h.run {
        None => return Err(error("needs `run`: the command".to_owned())),
        Some(Command::Argv(a)) => {
            if a.len() == 0 {
                return Err(error("the argv list is empty".to_owned()));
            }
        },
        Some(Command::Shell(s)) => {
            if is_blank(s.as_str()) {
                return Err(error("the command is empty".to_owned()));
            }
        },
    }
    if let Some(t) = &h.timeout {
        if let Err(e) = parse_duration(t.as_str()) {
            let heading = cat2("timeout ", quoted(t.as_str()).as_str());
            return Err(within(heading.as_str(), e));
        }
    }
    Ok(())
}

/// Nothing, where there is no text.
pub open spec fn text_or_empty(s: Option<String>) -> Seq<char> {
    match s {
        Some(t) => t@,
        None => Seq::empty(),
    }
}

pub open spec fn starts_at_root(s: Seq<char>) -> bool {
    s.len() > 0 && s[0] == '/'
}

pub fn is_guest_absolute(s: &str) -> (r: bool)
    ensures
        r == starts_at_root(s@),
{
    let v = chars_of(s);
    v.len() > 0 && v[0] == '/'
}

fn is_unset(s: &Option<String>) -> (r: bool)
    ensures
        r == (text_or_empty(*s).len() == 0),
{
    match s {
        Some(t) => t.as_str().is_empty(),
        None => true,
    }
}

/// How many sources the environment names.
pub open spec fn sources(e: Environment) -> int {
    (if e.compose is Some {
        1int
    } else {
        0
    }) + (if e.image is Some {
        1int
    } else {
        0
    }) + (if e.build is Some {
        1int
    } else {
        0
    })
}

pub open spec fn source_error(e: Environment, at: Seq<char>) -> Option<Seq<char>> {
    if sources(e) == 0 {
        Some("["@ + at + "] names no source: set one of compose, image or build"@)
    } else if sources(e) > 1 {
        Some(
            "["@ + at
                + "] names more than one source; set exactly one of compose, image or build (a local layer switching source must `remove` the inherited one)"@,
        )
    } else if e.compose is Some && e.service is None {
        Some("["@ + at + "] compose needs `service`: which one you work in"@)
    } else if e.compose is None && e.service is Some {
        Some("["@ + at + "] service only applies to a compose source"@)
    } else if e.compose is None && e.profiles@.len() > 0 {
        Some("["@ + at + "] profiles are compose profiles, and this is not a compose source"@)
    } else if e.compose is None {
        endpoint_services_error(e.endpoints@, at, e.endpoints@.len() as int)
    } else {
        None
    }
}

pub open spec fn endpoint_services_error(s: Seq<(String, Endpoint)>, at: Seq<char>, n: int) -> Option<Seq<char>>
    decreases n,
{
    if n <= 0 {
        None
    } else {
        first(
            endpoint_services_error(s, at, n - 1),
            flagged(
                s[n - 1].1.enabled && s[n - 1].1.service is Some,
                "["@ + at + ".endpoints."@ + s[n - 1].0@ + "] names a service, and this is not a compose source"@,
            ),
        )
    }
}

proof fn lemma_endpoint_services_kept(s: Seq<(String, Endpoint)>, at: Seq<char>, n: int, m: int)
    requires
        0 <= n <= m,
        endpoint_services_error(s, at, n) is Some,
    ensures
        endpoint_services_error(s, at, m) == endpoint_services_error(s, at, n),
    decreases m - n,
{
    if n < m {
        lemma_endpoint_services_kept(s, at, n, m - 1);
    }
}

fn check_source(e: &Environment, at: &str) -> (r: Result<(), Error>)
    ensures
        outcome(r) == verdict(source_error(*e, at@)),
{
    let count: u8 = (if e.compose.is_some() {
        1u8
    } else {
        0u8
    }) + (if e.image.is_some() {
        1u8
    } else {
        0u8
    }) + (if e.build.is_some() {
        1u8
    } else {
        0u8
    });
    if count == 0 {
        return Err(error(cat3("[", at, "] names no source: set one of compose, image or build")));
    }
    if count > 1 {
        return Err(
            error(
                cat3(
                    "[",
                    at,
                    "] names more than one source; set exactly one of compose, image or build (a local layer switching source must `remove` the inherited one)",
                ),
            ),
        );
    }
    if e.compose.is_some() {
        if e.service.is_none() {
            return Err(error(cat3("[", at, "] compose needs `service`: which one you work in")));
        }
        return Ok(());
    }
    if e.service.is_some() {
        return Err(error(cat3("[", at, "] service only applies to a compose source")));
    }
    if e.profiles.len() > 0 {
        return Err(error(cat3("[", at, "] profiles are compose profiles, and this is not a compose source")));
    }
    let mut i: usize = 0;
    while i < e.endpoints.len()
        invariant
            i <= e.endpoints@.len(),
            endpoint_services_error(e.endpoints@, at@, i as int) is None,
            source_error(*e, at@) == endpoint_services_error(e.endpoints@, at@, e.endpoints@.len() as int),
        decreases e.endpoints@.len() - i,
    {
        if e.endpoints[i].1.enabled && e.endpoints[i].1.service.is_some() {
            proof {
                lemma_endpoint_services_kept(e.endpoints@, at@, i + 1, e.endpoints@.len() as int);
            }
            return Err(
                error(
                    cat5(
                        "[",
                        at,
                        ".endpoints.",
                        e.endpoints[i].0.as_str(),
                        "] names a service, and this is not a compose source",
                    ),
                ),
            );
        }
        i = i + 1;
    }
    Ok(())
}

pub open spec fn stage_error(e: Environment, at: Seq<char>) -> Option<Seq<char>> {
    let of_build = match e.build {
        Some(b) => first(
            flagged(
                text_or_empty(b.context).len() == 0,
                "["@ + at + "] build needs `context`: the directory it builds from"@,
            ),
            flagged(
                b.target is Some && text_or_empty(b.target).len() == 0,
                "["@ + at + "] build target is empty: name the stage to boot, or drop the key"@,
            ),
        ),
        None => first(
            flagged(
                e.cached_only,
                "["@ + at
                    + "] cached-only applies to a build source: there is no stage to take from the cache"@,
            ),
            flagged(
                e.fallback is Some,
                "["@ + at + "] fallback names a build target, and this is not a build source"@,
            ),
        ),
    };
    let of_fallback = match e.fallback {
        Some(f) => first(
            flagged(
                !e.cached_only,
                "["@ + at
                    + "] fallback is what `cached-only` builds on a cache miss; set cached-only = true or drop it"@,
            ),
            flagged(
                text_or_empty(f.target).len() == 0,
                "["@ + at + ".fallback] needs `target`: the stage a cache miss builds instead"@,
            ),
        ),
        None => None,
    };
    first(of_build, of_fallback)
}

fn check_stage(e: &Environment, at: &str) -> (r: Result<(), Error>)
    ensures
        outcome(r) == verdict(stage_error(*e, at@)),
{
    match &e.build {
        Some(b) => {
            if is_unset(&b.context) {
                return Err(error(cat3("[", at, "] build needs `context`: the directory it builds from")));
            }
            if b.target.is_some() && is_unset(&b.target) {
                return Err(
                    error(cat3("[", at, "] build target is empty: name the stage to boot, or drop the key")),
                );
            }
        },
        None => {
            if e.cached_only {
                return Err(
                    error(
                        cat3(
                            "[",
                            at,
                            "] cached-only applies to a build source: there is no stage to take from the cache",
                        ),
                    ),
                );
            }
            if e.fallback.is_some() {
                return Err(
                    error(cat3("[", at, "] fallback names a build target, and this is not a build source")),
                );
            }
        },
    }
    if let Some(f) = &e.fallback {
        if !e.cached_only {
            return Err(
                error(
                    cat3(
                        "[",
                        at,
                        "] fallback is what `cached-only` builds on a cache miss; set cached-only = true or drop it",
                    ),
                ),
            );
        }
        if is_unset(&f.target) {
            return Err(error(cat3("[", at, ".fallback] needs `target`: the stage a cache miss builds instead")));
        }
    }
    Ok(())
}

pub open spec fn task_error(name: Seq<char>, t: Task, at: Seq<char>) -> Option<Seq<char>> {
    if !t.enabled {
        None
    } else {
        first(
            headed("["@ + at + ".tasks]"@, name_error(name)),
            first(
                match t.run {
                    Some(Command::Shell(s)) => flagged(
                        blank(s@),
                        "["@ + at + ".tasks."@ + name + "] the command is empty"@,
                    ),
                    Some(Command::Argv(a)) => flagged(
                        a@.len() == 0,
                        "["@ + at + ".tasks."@ + name + "] the argv list is empty"@,
                    ),
                    None => Some("["@ + at + ".tasks."@ + name + "] needs `run`: the command"@),
                },
                env_names_error(t.env@, "["@ + at + ".tasks."@ + name + ".env]"@, t.env@.len() as int),
            ),
        )
    }
}

fn check_task(name: &str, t: &Task, at: &str) -> (r: Result<(), Error>)
    ensures
        outcome(r) == verdict(task_error(name@, *t, at@)),
{
    if !t.enabled {
        return Ok(());
    }
    if let Err(e) = valid_name(name) {
        return Err(within(cat3("[", at, ".tasks]").as_str(), e));
    }
    match &t.run {
        Some(Command::Shell(s)) => {
            if is_blank(s.as_str()) {
                return Err(error(cat5("[", at, ".tasks.", name, "] the command is empty")));
            }
        },
        Some(Command::Argv(a)) => {
            if a.len() == 0 {
                return Err(error(cat5("[", at, ".tasks.", name, "] the argv list is empty")));
            }
        },
        None => return Err(error(cat5("[", at, ".tasks.", name, "] needs `run`: the command"))),
    }
    check_env_names(&t.env, cat5("[", at, ".tasks.", name, ".env]").as_str())
}

pub open spec fn tasks_error(s: Seq<(String, Task)>, at: Seq<char>, n: int) -> Option<Seq<char>>
    decreases n,
{
    if n <= 0 {
        None
    } else {
        first(tasks_error(s, at, n - 1), task_error(s[n - 1].0@, s[n - 1].1, at))
    }
}

proof fn lemma_tasks_kept(s: Seq<(String, Task)>, at: Seq<char>, n: int, m: int)
    requires
        0 <= n <= m,
        tasks_error(s, at, n) is Some,
    ensures
        tasks_error(s, at, m) == tasks_error(s, at, n),
    decreases m - n,
{
    if n < m {
        lemma_tasks_kept(s, at, n, m - 1);
    }
}

fn check_tasks(s: &Vec<(String, Task)>, at: &str) -> (r: Result<(), Error>)
    ensures
        outcome(r) == verdict(tasks_error(s@, at@, s@.len() as int)),
{
    let mut i: usize = 0;
    while i < s.len()
        invariant
            i <= s@.len(),
            tasks_error(s@, at@, i as int) is None,
        decreases s@.len() - i,
    {
        if let Err(e) = check_task(s[i].0.as_str(), &s[i].1, at) {
            proof {
                lemma_tasks_kept(s@, at@, i + 1, s@.len() as int);
            }
            return Err(e);
        }
        i = i + 1;
    }
    Ok(())
}

pub open spec fn mount_error(name: Seq<char>, m: Mount, at: Seq<char>) -> Option<Seq<char>> {
    if !m.enabled {
        None
    } else {
        first(
            headed("["@ + at + ".mounts]"@, name_error(name)),
            first(
                flagged(
                    text_or_empty(m.source).len() == 0,
                    "["@ + at + ".mounts."@ + name + "] needs `source`: the host path"@,
                ),
                match m.to {
                    Some(to) => flagged(
                        !starts_at_root(to@),
                        "["@ + at + ".mounts."@ + name + "] to "@ + debug_text(to@)
                            + " must be an absolute guest path"@,
                    ),
                    None => Some("["@ + at + ".mounts."@ + name + "] needs `to`: the guest path"@),
                },
            ),
        )
    }
}

fn check_mount(name: &str, m: &Mount, at: &str) -> (r: Result<(), Error>)
    ensures
        outcome(r) == verdict(mount_error(name@, *m, at@)),
{
    if !m.enabled {
        return Ok(());
    }
    if let Err(e) = valid_name(name) {
        return Err(within(cat3("[", at, ".mounts]").as_str(), e));
    }
    if is_unset(&m.source) {
        return Err(error(cat5("[", at, ".mounts.", name, "] needs `source`: the host path")));
    }
    match &m.to {
        Some(to) => {
            if !is_guest_absolute(to.as_str()) {
                return Err(
                    error(
                        cat7(
                            "[",
                            at,
                            ".mounts.",
                            name,
                            "] to ",
                            quoted(to.as_str()).as_str(),
                            " must be an absolute guest path",
                        ),
                    ),
                );
            }
            Ok(())
        },
        None => Err(error(cat5("[", at, ".mounts.", name, "] needs `to`: the guest path"))),
    }
}

pub open spec fn mounts_error(s: Seq<(String, Mount)>, at: Seq<char>, n: int) -> Option<Seq<char>>
    decreases n,
{
    if n <= 0 {
        None
    } else {
        first(mounts_error(s, at, n - 1), mount_error(s[n - 1].0@, s[n - 1].1, at))
    }
}

proof fn lemma_mounts_kept(s: Seq<(String, Mount)>, at: Seq<char>, n: int, m: int)
    requires
        0 <= n <= m,
        mounts_error(s, at, n) is Some,
    ensures
        mounts_error(s, at, m) == mounts_error(s, at, n),
    decreases m - n,
{
    if n < m {
        lemma_mounts_kept(s, at, n, m - 1);
    }
}

fn check_mounts(s: &Vec<(String, Mount)>, at: &str) -> (r: Result<(), Error>)
    ensures
        outcome(r) == verdict(mounts_error(s@, at@, s@.len() as int)),
{
    let mut i: usize = 0;
    while i < s.len()
        invariant
            i <= s@.len(),
            mounts_error(s@, at@, i as int) is None,
        decreases s@.len() - i,
    {
        if let Err(e) = check_mount(s[i].0.as_str(), &s[i].1, at) {
            proof {
                lemma_mounts_kept(s@, at@, i + 1, s@.len() as int);
            }
            return Err(e);
        }
        i = i + 1;
    }
    Ok(())
}

pub open spec fn endpoint_error(name: Seq<char>, e: Endpoint, at: Seq<char>, known: Known) -> Option<Seq<char>> {
    if !e.enabled {
        None
    } else {
        first(
            headed("["@ + at + ".endpoints]"@, name_error(name)),
            first(
                match e.target {
                    Some(t) => flagged(t == 0, "["@ + at + ".endpoints."@ + name + "] target 0 is not a port"@),
                    None => Some("["@ + at + ".endpoints."@ + name + "] needs `target`: the guest port"@),
                },
                first(
                    flagged(
                        e.host_port == Some(0u16),
                        "["@ + at + ".endpoints."@ + name + "] host-port 0 is not a port"@,
                    ),
                    match e.address {
                        Some(a) => flagged(
                            a@ != "auto"@ && !known.addresses.deep_view().contains(a@),
                            "["@ + at + ".endpoints."@ + name + "] address "@ + debug_text(a@)
                                + ": expected \"auto\" or an IP address"@,
                        ),
                        None => None,
                    },
                ),
            ),
        )
    }
}

fn check_endpoint(name: &str, e: &Endpoint, at: &str, known: &Known) -> (r: Result<(), Error>)
    ensures
        outcome(r) == verdict(endpoint_error(name@, *e, at@, *known)),
{
    if !e.enabled {
        return Ok(());
    }
    if let Err(e) = valid_name(name) {
        return Err(within(cat3("[", at, ".endpoints]").as_str(), e));
    }
    match e.target {
        Some(t) => {
            if t == 0 {
                return Err(error(cat5("[", at, ".endpoints.", name, "] target 0 is not a port")));
            }
        },
        None => return Err(error(cat5("[", at, ".endpoints.", name, "] needs `target`: the guest port"))),
    }
    if let Some(p) = e.host_port {
        if p == 0 {
            return Err(error(cat5("[", at, ".endpoints.", name, "] host-port 0 is not a port")));
        }
    }
    if let Some(a) = &e.address {
        if !same(a.as_str(), "auto") && !is_one_of(a.as_str(), &known.addresses) {
            return Err(
                error(
                    cat7(
                        "[",
                        at,
                        ".endpoints.",
                        name,
                        "] address ",
                        quoted(a.as_str()).as_str(),
                        ": expected \"auto\" or an IP address",
                    ),
                ),
            );
        }
    }
    Ok(())
}

pub open spec fn endpoints_error(s: Seq<(String, Endpoint)>, at: Seq<char>, known: Known, n: int) -> Option<Seq<char>>
    decreases n,
{
    if n <= 0 {
        None
    } else {
        first(endpoints_error(s, at, known, n - 1), endpoint_error(s[n - 1].0@, s[n - 1].1, at, known))
    }
}

proof fn lemma_endpoints_kept(s: Seq<(String, Endpoint)>, at: Seq<char>, known: Known, n: int, m: int)
    requires
        0 <= n <= m,
        endpoints_error(s, at, known, n) is Some,
    ensures
        endpoints_error(s, at, known, m) == endpoints_error(s, at, known, n),
    decreases m - n,
{
    if n < m {
        lemma_endpoints_kept(s, at, known, n, m - 1);
    }
}

fn check_endpoints(s: &Vec<(String, Endpoint)>, at: &str, known: &Known) -> (r: Result<(), Error>)
    ensures
        outcome(r) == verdict(endpoints_error(s@, at@, *known, s@.len() as int)),
{
    let mut i: usize = 0;
    while i < s.len()
        invariant
            i <= s@.len(),
            endpoints_error(s@, at@, *known, i as int) is None,
        decreases s@.len() - i,
    {
        if let Err(e) = check_endpoint(s[i].0.as_str(), &s[i].1, at, known) {
            proof {
                lemma_endpoints_kept(s@, at@, *known, i + 1, s@.len() as int);
            }
            return Err(e);
        }
        i = i + 1;
    }
    Ok(())
}

/// What is wrong with the machine the environment asks for.
pub open spec fn machine_error(e: Environment, at: Seq<char>) -> Option<Seq<char>> {
    first(
        match e.workspace {
            Some(w) => flagged(
                !starts_at_root(w@),
                "["@ + at + "] workspace "@ + debug_text(w@) + " is a guest path and must be absolute"@,
            ),
            None => None,
        },
        first(
            flagged(e.cpus == Some(Cpus::Count(0)), "["@ + at + "] cpus must be at least 1"@),
            match e.mem {
                Some(m) => flagged(
                    mem_mib(m@) is None,
                    "["@ + at + "] mem "@ + debug_text(m@) + ": expected a non-zero <n>G, <n>M or MiB"@,
                ),
                None => None,
            },
        ),
    )
}

fn check_machine(e: &Environment, at: &str) -> (r: Result<(), Error>)
    ensures
        outcome(r) == verdict(machine_error(*e, at@)),
{
    if let Some(w) = &e.workspace {
        if !is_guest_absolute(w.as_str()) {
            return Err(
                error(
                    cat5(
                        "[",
                        at,
                        "] workspace ",
                        quoted(w.as_str()).as_str(),
                        " is a guest path and must be absolute",
                    ),
                ),
            );
        }
    }
    if let Some(Cpus::Count(n)) = e.cpus {
        if n == 0 {
            return Err(error(cat3("[", at, "] cpus must be at least 1")));
        }
    }
    if let Some(m) = &e.mem {
        if parse_mem_mib(m.as_str()).is_none() {
            return Err(
                error(
                    cat5("[", at, "] mem ", quoted(m.as_str()).as_str(), ": expected a non-zero <n>G, <n>M or MiB"),
                ),
            );
        }
    }
    Ok(())
}

pub open spec fn opt_hook_error(h: Option<Hook>, heading: Seq<char>) -> Option<Seq<char>> {
    match h {
        Some(c) => headed(heading, hook_error(c)),
        None => None,
    }
}

fn check_opt_hook(h: &Option<Hook>, heading: &str) -> (r: Result<(), Error>)
    ensures
        outcome(r) == verdict(opt_hook_error(*h, heading@)),
{
    if let Some(c) = h {
        if let Err(e) = c.validate() {
            return Err(within(heading, e));
        }
    }
    Ok(())
}

pub open spec fn hooks_error(e: Environment, at: Seq<char>) -> Option<Seq<char>> {
    first(
        opt_hook_error(e.hooks.init, "["@ + at + ".hooks] init"@),
        first(
            opt_hook_error(e.hooks.create, "["@ + at + ".hooks] create"@),
            first(
                opt_hook_error(e.hooks.start, "["@ + at + ".hooks] start"@),
                match e.editor.vscode {
                    Some(vs) => first(
                        opt_hook_error(vs.reconcile, "["@ + at + ".editor.vscode] reconcile"@),
                        match vs.home {
                            Some(h) => flagged(
                                !starts_at_root(h@),
                                "["@ + at + ".editor.vscode] home "@ + debug_text(h@)
                                    + " must be an absolute guest path"@,
                            ),
                            None => None,
                        },
                    ),
                    None => None,
                },
            ),
        ),
    )
}

fn check_hooks(e: &Environment, at: &str) -> (r: Result<(), Error>)
    ensures
        outcome(r) == verdict(hooks_error(*e, at@)),
{
    check_opt_hook(&e.hooks.init, cat3("[", at, ".hooks] init").as_str())?;
    check_opt_hook(&e.hooks.create, cat3("[", at, ".hooks] create").as_str())?;
    check_opt_hook(&e.hooks.start, cat3("[", at, ".hooks] start").as_str())?;
    if let Some(vs) = &e.editor.vscode {
        check_opt_hook(&vs.reconcile, cat3("[", at, ".editor.vscode] reconcile").as_str())?;
        if let Some(h) = &vs.home {
            if !is_guest_absolute(h.as_str()) {
                return Err(
                    error(
                        cat5(
                            "[",
                            at,
                            ".editor.vscode] home ",
                            quoted(h.as_str()).as_str(),
                            " must be an absolute guest path",
                        ),
                    ),
                );
            }
        }
    }
    Ok(())
}

/// What one environment has wrong with it: the first thing, in the order in which its parts
/// are checked.
pub open spec fn environment_error(e: Environment, at: Seq<char>, known: Known) -> Option<Seq<char>> {
    first(
        source_error(e, at),
        first(
            stage_error(e, at),
            first(
                tasks_error(e.tasks@, at, e.tasks@.len() as int),
                first(
                    machine_error(e, at),
                    first(
                        env_names_error(e.exec_env@, "["@ + at + ".exec-env]"@, e.exec_env@.len() as int),
                        first(
                            env_names_error(
                                e.container_env@,
                                "["@ + at + ".container-env]"@,
                                e.container_env@.len() as int,
                            ),
                            first(
                                mounts_error(e.mounts@, at, e.mounts@.len() as int),
                                first(
                                    endpoints_error(e.endpoints@, at, known, e.endpoints@.len() as int),
                                    first(
                                        flagged(
                                            e.network.egress == Some(Egress::Restricted),
                                            "["@ + at
                                                + ".network] egress = \"restricted\" is not implemented: the guest reaches what the host reaches"@,
                                        ),
                                        hooks_error(e, at),
                                    ),
                                ),
                            ),
                        ),
                    ),
                ),
            ),
        ),
    )
}

impl Environment {
    /// What one environment must satisfy. An entry that is switched off is skipped: what is
    /// not there does not have to be complete.
    pub fn validate(&self, at: &str, known: &Known) -> (r: Result<(), Error>)
        ensures
            outcome(r) == verdict(environment_error(*self, at@, *known)),
    {
        check_source(self, at)?;
        check_stage(self, at)?;
        check_tasks(&self.tasks, at)?;
        check_machine(self, at)?;
        check_env_names(&self.exec_env, cat3("[", at, ".exec-env]").as_str())?;
        check_env_names(&self.container_env, cat3("[", at, ".container-env]").as_str())?;
        check_mounts(&self.mounts, at)?;
        check_endpoints(&self.endpoints, at, known)?;
        if let Some(Egress::Restricted) = self.network.egress {
            return Err(
                error(
                    cat3(
                        "[",
                        at,
                        ".network] egress = \"restricted\" is not implemented: the guest reaches what the host reaches",
                    ),
                ),
            );
        }
        check_hooks(self, at)
    }
}

pub open spec fn features_error(s: Seq<String>, known: Known, n: int) -> Option<Seq<char>>
    decreases n,
{
    if n <= 0 {
        None
    } else {
        first(
            features_error(s, known, n - 1),
            flagged(
                !known.features.deep_view().contains(s[n - 1]@),
                "requires.features names "@ + debug_text(s[n - 1]@)
                    + ", which is not a feature `vk check` knows (see `vk check --help`)"@,
            ),
        )
    }
}

proof fn lemma_features_kept(s: Seq<String>, known: Known, n: int, m: int)
    requires
        0 <= n <= m,
        features_error(s, known, n) is Some,
    ensures
        features_error(s, known, m) == features_error(s, known, n),
    decreases m - n,
{
    if n < m {
        lemma_features_kept(s, known, n, m - 1);
    }
}

pub open spec fn environments_error(s: Seq<(String, Environment)>, known: Known, n: int) -> Option<Seq<char>>
    decreases n,
{
    if n <= 0 {
        None
    } else {
        first(
            environments_error(s, known, n - 1),
            first(
                flagged(
                    s[n - 1].0@ == "dev"@,
                    "[environments.dev] clashes with [dev]: name it something else"@,
                ),
                first(
                    headed("[environments."@ + s[n - 1].0@ + "]"@, name_error(s[n - 1].0@)),
                    environment_error(s[n - 1].1, "environments."@ + s[n - 1].0@, known),
                ),
            ),
        )
    }
}

proof fn lemma_environments_kept(s: Seq<(String, Environment)>, known: Known, n: int, m: int)
    requires
        0 <= n <= m,
        environments_error(s, known, n) is Some,
    ensures
        environments_error(s, known, m) == environments_error(s, known, n),
    decreases m - n,
{
    if n < m {
        lemma_environments_kept(s, known, n, m - 1);
    }
}

pub open spec fn schema_number_error(schema: Option<i64>) -> Option<Seq<char>> {
    match schema {
        None => Some("`schema = "@ + decimal_int(SCHEMA as int) + "` is required at the top of config.toml"@),
        Some(n) => flagged(
            n != SCHEMA,
            "schema "@ + decimal_int(n as int) + " is not one this vk reads (it reads "@ + decimal_int(SCHEMA as int)
                + ")"@,
        ),
    }
}

/// What a merged config has wrong with it: the first thing, in the order in which its parts
/// are checked.
pub open spec fn schema_error(s: Schema, known: Known) -> Option<Seq<char>> {
    first(
        schema_number_error(s.schema),
        first(
            match s.requires.min_version {
                Some(v) => flagged(
                    version_of(v@) is None,
                    "requires.min-version "@ + debug_text(v@) + ": "@ + version_error(),
                ),
                None => None,
            },
            first(
                features_error(s.requires.features@, known, s.requires.features@.len() as int),
                match s.dev {
                    None => Some(
                        "config.toml has no [dev] table: which environment is the one you work in?"@,
                    ),
                    Some(dev) => first(
                        environment_error(dev, "dev"@, known),
                        environments_error(s.environments@, known, s.environments@.len() as int),
                    ),
                },
            ),
        ),
    )
}

/// A signed number in decimal.
pub fn to_decimal_int(n: i64) -> (r: String)
    ensures
        r@ == decimal_int(n as int),
{
    if n < 0 {
        let m: u64 = if n == i64::MIN {
            9223372036854775808
        } else {
            (-n) as u64
        };
        let d = crate::text::to_decimal(m);
        let mut out = String::new();
        out.push('-');
        out.append(d.as_str());
        assert(out@ =~= decimal_int(n as int));
        out
    } else {
        crate::text::to_decimal(n as u64)
    }
}

fn check_schema_number(schema: Option<i64>) -> (r: Result<(), Error>)
    ensures
        outcome(r) == verdict(schema_number_error(schema)),
{
    let own = to_decimal_int(SCHEMA);
    match schema {
        None => Err(error(cat3("`schema = ", own.as_str(), "` is required at the top of config.toml"))),
        Some(n) => {
            if n != SCHEMA {
                let shown = to_decimal_int(n);
                return Err(
                    error(
                        cat5("schema ", shown.as_str(), " is not one this vk reads (it reads ", own.as_str(), ")"),
                    ),
                );
            }
            Ok(())
        },
    }
}

fn check_features(s: &Vec<String>, known: &Known) -> (r: Result<(), Error>)
    ensures
        outcome(r) == verdict(features_error(s@, *known, s@.len() as int)),
{
    let mut i: usize = 0;
    while i < s.len()
        invariant
            i <= s@.len(),
            features_error(s@, *known, i as int) is None,
        decreases s@.len() - i,
    {
        if !is_one_of(s[i].as_str(), &known.features) {
            proof {
                lemma_features_kept(s@, *known, i + 1, s@.len() as int);
            }
            return Err(
                error(
                    cat3(
                        "requires.features names ",
                        quoted(s[i].as_str()).as_str(),
                        ", which is not a feature `vk check` knows (see `vk check --help`)",
                    ),
                ),
            );
        }
        i = i + 1;
    }
    Ok(())
}

fn check_named(name: &str, e: &Environment, known: &Known) -> (r: Result<(), Error>)
    ensures
        outcome(r) == verdict(
            first(
                flagged(name@ == "dev"@, "[environments.dev] clashes with [dev]: name it something else"@),
                first(
                    headed("[environments."@ + name@ + "]"@, name_error(name@)),
                    environment_error(*e, "environments."@ + name@, *known),
                ),
            ),
        ),
{
    if same(name, "dev") {
        return Err(error("[environments.dev] clashes with [dev]: name it something else".to_owned()));
    }
    if let Err(e) = valid_name(name) {
        return Err(within(cat3("[environments.", name, "]").as_str(), e));
    }
    e.validate(cat2("environments.", name).as_str(), known)
}

fn check_environments(s: &Vec<(String, Environment)>, known: &Known) -> (r: Result<(), Error>)
    ensures
        outcome(r) == verdict(environments_error(s@, *known, s@.len() as int)),
{
    let mut i: usize = 0;
    while i < s.len()
        invariant
            i <= s@.len(),
            environments_error(s@, *known, i as int) is None,
        decreases s@.len() - i,
    {
        if let Err(e) = check_named(s[i].0.as_str(), &s[i].1, known) {
            proof {
                lemma_environments_kept(s@, *known, i + 1, s@.len() as int);
            }
            return Err(e);
        }
        i = i + 1;
    }
    Ok(())
}

impl Schema {
    /// What the merged config must satisfy: one source, a schema this build reads, values that
    /// mean something.
    pub fn validate(&self, known: &Known) -> (r: Result<(), Error>)
        ensures
            outcome(r) == verdict(schema_error(*self, *known)),
    {
        check_schema_number(self.schema)?;
        if let Some(v) = &self.requires.min_version {
            if parse_version(v.as_str()).is_none() {
                return Err(
                    error(
                        cat4(
                            "requires.min-version ",
                            quoted(v.as_str()).as_str(),
                            ": ",
                            "expected a version such as 0.64.0",
                        ),
                    ),
                );
            }
        }
        check_features(&self.requires.features, known)?;
        match &self.dev {
            None => {
                Err(error("config.toml has no [dev] table: which environment is the one you work in?".to_owned()))
            },
            Some(dev) => {
                dev.validate("dev", known)?;
                check_environments(&self.environments, known)
            },
        }
    }
}

/// A config that passes names exactly one source for each of its environments, a service
/// exactly where that is a compose file, and a fallback only where a cached stage is built.
pub proof fn law_one_source(e: Environment, at: Seq<char>, known: Known)
    requires
        environment_error(e, at, known) is None,
    ensures
        sources(e) == 1,
        e.compose is Some <==> e.service is Some,
        e.fallback is Some ==> e.cached_only && e.build is Some,
        e.cached_only ==> e.build is Some,
        e.compose is None ==> e.profiles@.len() == 0,
{
}

/// The mounts among the first `n` that are not switched off.
pub open spec fn live_mounts(s: Seq<(String, Mount)>, n: int) -> Seq<(String, Mount)>
    decreases n,
{
    if n <= 0 {
        Seq::empty()
    } else if s[n - 1].1.enabled {
        live_mounts(s, n - 1).push(s[n - 1])
    } else {
        live_mounts(s, n - 1)
    }
}

/// The endpoints among the first `n` that are not switched off.
pub open spec fn live_endpoints(s: Seq<(String, Endpoint)>, n: int) -> Seq<(String, Endpoint)>
    decreases n,
{
    if n <= 0 {
        Seq::empty()
    } else if s[n - 1].1.enabled {
        live_endpoints(s, n - 1).push(s[n - 1])
    } else {
        live_endpoints(s, n - 1)
    }
}

/// The tasks among the first `n` that are not switched off.
pub open spec fn live_tasks(s: Seq<(String, Task)>, n: int) -> Seq<(String, Task)>
    decreases n,
{
    if n <= 0 {
        Seq::empty()
    } else if s[n - 1].1.enabled {
        live_tasks(s, n - 1).push(s[n - 1])
    } else {
        live_tasks(s, n - 1)
    }
}

proof fn lemma_mounts_error_prefix(a: Seq<(String, Mount)>, b: Seq<(String, Mount)>, at: Seq<char>, n: int)
    requires
        n <= a.len() <= b.len(),
        forall|i: int| 0 <= i < a.len() ==> a[i] == b[i],
    ensures
        mounts_error(a, at, n) == mounts_error(b, at, n),
    decreases n,
{
    if n > 0 {
        lemma_mounts_error_prefix(a, b, at, n - 1);
    }
}

proof fn lemma_mounts_error_live(s: Seq<(String, Mount)>, at: Seq<char>, n: int)
    requires
        0 <= n <= s.len(),
    ensures
        mounts_error(s, at, n) == mounts_error(live_mounts(s, n), at, live_mounts(s, n).len() as int),
    decreases n,
{
    if n > 0 {
        lemma_mounts_error_live(s, at, n - 1);
        let had = live_mounts(s, n - 1);
        let now = live_mounts(s, n);
        if s[n - 1].1.enabled {
            lemma_mounts_error_prefix(had, now, at, had.len() as int);
        }
    }
}

proof fn lemma_endpoints_error_prefix(a: Seq<(String, Endpoint)>, b: Seq<(String, Endpoint)>, at: Seq<char>, known: Known, n: int)
    requires
        n <= a.len() <= b.len(),
        forall|i: int| 0 <= i < a.len() ==> a[i] == b[i],
    ensures
        endpoints_error(a, at, known, n) == endpoints_error(b, at, known, n),
    decreases n,
{
    if n > 0 {
        lemma_endpoints_error_prefix(a, b, at, known, n - 1);
    }
}

proof fn lemma_endpoints_error_live(s: Seq<(String, Endpoint)>, at: Seq<char>, known: Known, n: int)
    requires
        0 <= n <= s.len(),
    ensures
        endpoints_error(s, at, known, n) == endpoints_error(live_endpoints(s, n), at, known, live_endpoints(s, n).len() as int),
    decreases n,
{
    if n > 0 {
        lemma_endpoints_error_live(s, at, known, n - 1);
        let had = live_endpoints(s, n - 1);
        let now = live_endpoints(s, n);
        if s[n - 1].1.enabled {
            lemma_endpoints_error_prefix(had, now, at, known, had.len() as int);
        }
    }
}

proof fn lemma_endpoint_services_error_prefix(a: Seq<(String, Endpoint)>, b: Seq<(String, Endpoint)>, at: Seq<char>, n: int)
    requires
        n <= a.len() <= b.len(),
        forall|i: int| 0 <= i < a.len() ==> a[i] == b[i],
    ensures
        endpoint_services_error(a, at, n) == endpoint_services_error(b, at, n),
    decreases n,
{
    if n > 0 {
        lemma_endpoint_services_error_prefix(a, b, at, n - 1);
    }
}

proof fn lemma_endpoint_services_error_live(s: Seq<(String, Endpoint)>, at: Seq<char>, n: int)
    requires
        0 <= n <= s.len(),
    ensures
        endpoint_services_error(s, at, n) == endpoint_services_error(live_endpoints(s, n), at, live_endpoints(s, n).len() as int),
    decreases n,
{
    if n > 0 {
        lemma_endpoint_services_error_live(s, at, n - 1);
        let had = live_endpoints(s, n - 1);
        let now = live_endpoints(s, n);
        if s[n - 1].1.enabled {
            lemma_endpoint_services_error_prefix(had, now, at, had.len() as int);
        }
    }
}

proof fn lemma_tasks_error_prefix(a: Seq<(String, Task)>, b: Seq<(String, Task)>, at: Seq<char>, n: int)
    requires
        n <= a.len() <= b.len(),
        forall|i: int| 0 <= i < a.len() ==> a[i] == b[i],
    ensures
        tasks_error(a, at, n) == tasks_error(b, at, n),
    decreases n,
{
    if n > 0 {
        lemma_tasks_error_prefix(a, b, at, n - 1);
    }
}

proof fn lemma_tasks_error_live(s: Seq<(String, Task)>, at: Seq<char>, n: int)
    requires
        0 <= n <= s.len(),
    ensures
        tasks_error(s, at, n) == tasks_error(live_tasks(s, n), at, live_tasks(s, n).len() as int),
    decreases n,
{
    if n > 0 {
        lemma_tasks_error_live(s, at, n - 1);
        let had = live_tasks(s, n - 1);
        let now = live_tasks(s, n);
        if s[n - 1].1.enabled {
            lemma_tasks_error_prefix(had, now, at, had.len() as int);
        }
    }
}

/// The two environments are the same but for mounts, endpoints and tasks that are switched off,
/// whatever those say and whether they are there at all.
pub open spec fn same_but_off(a: Environment, b: Environment) -> bool {
    &&& live_mounts(a.mounts@, a.mounts@.len() as int) == live_mounts(b.mounts@, b.mounts@.len() as int)
    &&& live_endpoints(a.endpoints@, a.endpoints@.len() as int) == live_endpoints(
        b.endpoints@,
        b.endpoints@.len() as int,
    )
    &&& live_tasks(a.tasks@, a.tasks@.len() as int) == live_tasks(b.tasks@, b.tasks@.len() as int)
    &&& a == (Environment { mounts: a.mounts, endpoints: a.endpoints, tasks: a.tasks, ..b })
}

/// What is switched off is not held to the rules of what runs: two environments that differ
/// only in mounts, endpoints and tasks that are switched off get the same verdict.
pub proof fn law_switched_off(a: Environment, b: Environment, at: Seq<char>, known: Known)
    requires
        same_but_off(a, b),
    ensures
        environment_error(a, at, known) == environment_error(b, at, known),
{
    lemma_mounts_error_live(a.mounts@, at, a.mounts@.len() as int);
    lemma_mounts_error_live(b.mounts@, at, b.mounts@.len() as int);
    lemma_endpoints_error_live(a.endpoints@, at, known, a.endpoints@.len() as int);
    lemma_endpoints_error_live(b.endpoints@, at, known, b.endpoints@.len() as int);
    lemma_endpoint_services_error_live(a.endpoints@, at, a.endpoints@.len() as int);
    lemma_endpoint_services_error_live(b.endpoints@, at, b.endpoints@.len() as int);
    lemma_tasks_error_live(a.tasks@, at, a.tasks@.len() as int);
    lemma_tasks_error_live(b.tasks@, at, b.tasks@.len() as int);
}

/// A named environment that passes is not called `dev`, and its name is one a file and an ssh
/// alias can carry.
pub proof fn law_environment_names(s: Schema, known: Known, i: int)
    requires
        schema_error(s, known) is None,
        0 <= i < s.environments@.len(),
    ensures
        s.environments@[i].0@ != "dev"@,
        is_name(s.environments@[i].0@),
{
    lemma_environment_at(s.environments@, known, s.environments@.len() as int, i);
}

proof fn lemma_environment_at(s: Seq<(String, Environment)>, known: Known, n: int, i: int)
    requires
        environments_error(s, known, n) is None,
        0 <= i < n,
    ensures
        s[i].0@ != "dev"@,
        is_name(s[i].0@),
    decreases n,
{
    if i < n - 1 {
        lemma_environment_at(s, known, n - 1, i);
    }
}

} // verus!
