//! What an environment says, for a reader to check that it was read as meant.

use crate::config::Endpoint;
use crate::config::Environment;
use crate::config::Mount;
use crate::config::Policy;
use crate::config::Task;
use crate::config::EditorState;
use crate::text::{cat2, cat3, cat4, cat6, cat7, decimal, join, joined, pad, padded, put, to_decimal};
use crate::validate::{live_endpoints, live_mounts, live_tasks, same_but_off};
use vstd::prelude::*;

verus! {

/// One aligned line on one subject.
pub open spec fn line(k: Seq<char>, v: Seq<char>) -> Seq<char> {
    "  "@ + padded(k, 12) + v + "\n"@
}

/// The line, where there is something to say.
pub open spec fn line_if(said: bool, k: Seq<char>, v: Seq<char>) -> Seq<char> {
    if said {
        line(k, v)
    } else {
        Seq::empty()
    }
}

fn add_line(out: &mut String, k: &str, v: &str)
    ensures
        final(out)@ == old(out)@ + line(k@, v@),
{
    let l = cat4("  ", pad(k, 12).as_str(), v, "\n");
    out.append(l.as_str());
}

pub open spec fn or_text(s: Option<String>, other: Seq<char>) -> Seq<char> {
    match s {
        Some(t) => t@,
        None => other,
    }
}

fn or_str(s: &Option<String>, other: &str) -> (r: String)
    ensures
        r@ == or_text(*s, other@),
{
    match s {
        Some(t) => t.clone(),
        None => other.to_owned(),
    }
}

/// The text after `lead`, where there is one.
pub open spec fn led(lead: Seq<char>, s: Option<String>) -> Seq<char> {
    match s {
        Some(t) => lead + t@,
        None => Seq::empty(),
    }
}

fn led_by(lead: &str, s: &Option<String>) -> (r: String)
    ensures
        r@ == led(lead@, *s),
{
    match s {
        Some(t) => cat2(lead, t.as_str()),
        None => String::new(),
    }
}

/// The text, where the condition holds.
pub open spec fn text_if(cond: bool, s: Seq<char>) -> Seq<char> {
    if cond {
        s
    } else {
        Seq::empty()
    }
}

fn str_if(cond: bool, s: &str) -> (r: String)
    ensures
        r@ == text_if(cond, s@),
{
    if cond {
        s.to_owned()
    } else {
        String::new()
    }
}

pub open spec fn source_said(e: Environment) -> Seq<char> {
    match (e.compose, e.image, e.build) {
        (Some(c), _, _) => "compose "@ + c@ + ", service "@ + or_text(e.service, "?"@),
        (None, Some(i), _) => "image "@ + i@,
        (None, None, Some(b)) => "build "@ + or_text(b.context, "?"@) + led(", "@, b.dockerfile) + led(
            ", target "@,
            b.target,
        ),
        (None, None, None) => "none"@,
    }
}

fn say_source(e: &Environment) -> (r: String)
    ensures
        r@ == source_said(*e),
{
    if let Some(c) = &e.compose {
        return cat4("compose ", c.as_str(), ", service ", or_str(&e.service, "?").as_str());
    }
    if let Some(i) = &e.image {
        return cat2("image ", i.as_str());
    }
    if let Some(b) = &e.build {
        return cat4(
            "build ",
            or_str(&b.context, "?").as_str(),
            led_by(", ", &b.dockerfile).as_str(),
            led_by(", target ", &b.target).as_str(),
        );
    }
    "none".to_owned()
}

pub open spec fn cached_said(e: Environment) -> Seq<char> {
    match e.fallback {
        Some(f) => "yes, falling back to "@ + or_text(f.target, "?"@),
        None => "yes, with no fallback"@,
    }
}

pub open spec fn size_said(e: Environment) -> Seq<char> {
    "cpus "@ + (match e.cpus {
        Some(c) => c.spelling(),
        None => "inherited"@,
    }) + ", mem "@ + or_text(e.mem, "inherited"@)
}

pub open spec fn mount_said(name: Seq<char>, m: Mount) -> Seq<char> {
    name + " -> "@ + or_text(m.to, "?"@) + text_if(m.read_only, " (ro)"@)
}

/// The mounts that are on among the first `n`.
pub open spec fn mounts_said(s: Seq<(String, Mount)>, n: int) -> Seq<Seq<char>>
    decreases n,
{
    if n <= 0 {
        Seq::empty()
    } else if s[n - 1].1.enabled {
        mounts_said(s, n - 1).push(mount_said(s[n - 1].0@, s[n - 1].1))
    } else {
        mounts_said(s, n - 1)
    }
}

fn say_mounts(s: &Vec<(String, Mount)>) -> (r: Vec<String>)
    ensures
        r.deep_view() == mounts_said(s@, s@.len() as int),
{
    let mut out: Vec<String> = Vec::new();
    let mut i: usize = 0;
    assert(out.deep_view() =~= mounts_said(s@, 0));
    while i < s.len()
        invariant
            i <= s@.len(),
            out.deep_view() == mounts_said(s@, i as int),
        decreases s@.len() - i,
    {
        let m = &s[i].1;
        if m.enabled {
            put(
                &mut out,
                cat4(
                    s[i].0.as_str(),
                    " -> ",
                    or_str(&m.to, "?").as_str(),
                    str_if(m.read_only, " (ro)").as_str(),
                ),
            );
        }
        i = i + 1;
    }
    out
}

pub open spec fn endpoint_said(name: Seq<char>, e: Endpoint) -> Seq<char> {
    name + " ("@ + or_text(e.service, "primary"@) + ":"@ + (match e.target {
        Some(t) => decimal(t as nat),
        None => "?"@,
    }) + text_if(e.required, ", required"@) + ")"@
}

/// The endpoints that are on among the first `n`.
pub open spec fn endpoints_said(s: Seq<(String, Endpoint)>, n: int) -> Seq<Seq<char>>
    decreases n,
{
    if n <= 0 {
        Seq::empty()
    } else if s[n - 1].1.enabled {
        endpoints_said(s, n - 1).push(endpoint_said(s[n - 1].0@, s[n - 1].1))
    } else {
        endpoints_said(s, n - 1)
    }
}

fn say_endpoints(s: &Vec<(String, Endpoint)>) -> (r: Vec<String>)
    ensures
        r.deep_view() == endpoints_said(s@, s@.len() as int),
{
    let mut out: Vec<String> = Vec::new();
    let mut i: usize = 0;
    assert(out.deep_view() =~= endpoints_said(s@, 0));
    while i < s.len()
        invariant
            i <= s@.len(),
            out.deep_view() == endpoints_said(s@, i as int),
        decreases s@.len() - i,
    {
        let e = &s[i].1;
        if e.enabled {
            let target = match e.target {
                Some(t) => to_decimal(t as u64),
                None => "?".to_owned(),
            };
            put(
                &mut out,
                cat7(
                    s[i].0.as_str(),
                    " (",
                    or_str(&e.service, "primary").as_str(),
                    ":",
                    target.as_str(),
                    str_if(e.required, ", required").as_str(),
                    ")",
                ),
            );
        }
        i = i + 1;
    }
    out
}

pub open spec fn task_said(name: Seq<char>, t: Task) -> Seq<char> {
    name + " ("@ + (match t.policy {
        Some(p) => p.spelling(),
        None => Policy::ReuseOrEphemeral.spelling(),
    }) + " in "@ + or_text(t.environment, "dev"@) + ")"@
}

/// The tasks that are on among the first `n`.
pub open spec fn tasks_said(s: Seq<(String, Task)>, n: int) -> Seq<Seq<char>>
    decreases n,
{
    if n <= 0 {
        Seq::empty()
    } else if s[n - 1].1.enabled {
        tasks_said(s, n - 1).push(task_said(s[n - 1].0@, s[n - 1].1))
    } else {
        tasks_said(s, n - 1)
    }
}

fn say_tasks(s: &Vec<(String, Task)>) -> (r: Vec<String>)
    ensures
        r.deep_view() == tasks_said(s@, s@.len() as int),
{
    let mut out: Vec<String> = Vec::new();
    let mut i: usize = 0;
    assert(out.deep_view() =~= tasks_said(s@, 0));
    while i < s.len()
        invariant
            i <= s@.len(),
            out.deep_view() == tasks_said(s@, i as int),
        decreases s@.len() - i,
    {
        let t = &s[i].1;
        if t.enabled {
            let policy = match t.policy {
                Some(p) => p.as_str(),
                None => Policy::ReuseOrEphemeral.as_str(),
            };
            put(
                &mut out,
                cat6(s[i].0.as_str(), " (", policy, " in ", or_str(&t.environment, "dev").as_str(), ")"),
            );
        }
        i = i + 1;
    }
    out
}

/// The items that are there, in order.
pub open spec fn those(a: Option<Seq<char>>, b: Option<Seq<char>>, c: Option<Seq<char>>) -> Seq<Seq<char>> {
    let x = match a {
        Some(t) => seq![t],
        None => Seq::empty(),
    };
    let y = match b {
        Some(t) => x.push(t),
        None => x,
    };
    match c {
        Some(t) => y.push(t),
        None => y,
    }
}

fn gather(a: Option<String>, b: Option<String>, c: Option<String>) -> (r: Vec<String>)
    ensures
        r.deep_view() == those(a.deep_view(), b.deep_view(), c.deep_view()),
{
    let mut out: Vec<String> = Vec::new();
    assert(out.deep_view() =~= Seq::<Seq<char>>::empty());
    if let Some(t) = a {
        put(&mut out, t);
        assert(out.deep_view() =~= seq![t@]);
    }
    if let Some(t) = b {
        put(&mut out, t);
    }
    if let Some(t) = c {
        put(&mut out, t);
    }
    out
}

/// The text, where the condition holds.
pub open spec fn some_if(cond: bool, s: Seq<char>) -> Option<Seq<char>> {
    if cond {
        Some(s)
    } else {
        None
    }
}

fn give_if(cond: bool, s: &str) -> (r: Option<String>)
    ensures
        r.deep_view() == some_if(cond, s@),
{
    if cond {
        Some(s.to_owned())
    } else {
        None
    }
}

pub open spec fn host_said(e: Environment) -> Seq<Seq<char>> {
    those(
        some_if(e.host.git_gui, "git-gui"@),
        some_if(e.host.ssh_agent, "ssh-agent"@),
        match e.host.wrapper {
            Some(w) => Some("wrapper "@ + w@),
            None => None,
        },
    )
}

pub open spec fn hooks_said(e: Environment) -> Seq<Seq<char>> {
    those(
        some_if(e.hooks.init is Some, "init"@),
        some_if(e.hooks.create is Some, "create"@),
        some_if(e.hooks.start is Some, "start"@),
    )
}

pub open spec fn vscode_said(e: Environment) -> Seq<char> {
    match e.editor.vscode {
        Some(vs) => (match vs.state {
            Some(s) => s.spelling(),
            None => EditorState::Persistent.spelling(),
        }) + " state"@ + text_if(vs.reconcile is Some, ", reconcile hook"@) + text_if(
            vs.extensions@.len() > 0,
            ", "@ + decimal(vs.extensions@.len()) + " extension(s)"@,
        ),
        None => Seq::empty(),
    }
}

/// What the environment is made from.
pub open spec fn origin_said(e: Environment) -> Seq<char> {
    line("source"@, source_said(e)) + line_if(
        e.cached_only || e.fallback is Some,
        "cached-only"@,
        cached_said(e),
    ) + line_if(e.profiles@.len() > 0, "profiles"@, joined(e.profiles.deep_view(), ", "@))
}

/// How one is in it.
pub open spec fn being_said(e: Environment) -> Seq<char> {
    line_if(e.workspace is Some, "workspace"@, or_text(e.workspace, Seq::empty())) + line_if(
        e.user is Some,
        "user"@,
        or_text(e.user, Seq::empty()),
    ) + line_if(e.freshness is Some, "freshness"@, e.freshness->0.spelling()) + line_if(
        e.cpus is Some || e.mem is Some,
        "size"@,
        size_said(e),
    ) + line_if(
        e.exec_env@.len() > 0 || e.container_env@.len() > 0,
        "env"@,
        decimal(e.exec_env@.len()) + " for sessions, "@ + decimal(e.container_env@.len()) + " for the guest"@,
    )
}

/// What it has of the host.
pub open spec fn reach_said(e: Environment) -> Seq<char> {
    let mounts = mounts_said(e.mounts@, e.mounts@.len() as int);
    let endpoints = endpoints_said(e.endpoints@, e.endpoints@.len() as int);
    line_if(mounts.len() > 0, "mounts"@, joined(mounts, ", "@)) + line_if(
        endpoints.len() > 0,
        "endpoints"@,
        joined(endpoints, ", "@),
    ) + line_if(
        e.cache.registry is Some,
        "cache"@,
        or_text(e.cache.registry, Seq::empty()) + text_if(e.cache.insecure, " (insecure)"@),
    ) + line_if(host_said(e).len() > 0, "host"@, joined(host_said(e), ", "@))
}

/// What runs in it.
pub open spec fn work_said(e: Environment) -> Seq<char> {
    let tasks = tasks_said(e.tasks@, e.tasks@.len() as int);
    line_if(hooks_said(e).len() > 0, "hooks"@, joined(hooks_said(e), ", "@)) + line_if(
        tasks.len() > 0,
        "tasks"@,
        joined(tasks, ", "@),
    ) + line_if(e.editor.vscode is Some, "vscode"@, vscode_said(e))
}

/// What the environment says, one line per subject that it says something on.
pub open spec fn description(e: Environment) -> Seq<char> {
    origin_said(e) + being_said(e) + reach_said(e) + work_said(e)
}

fn add_list(out: &mut String, k: &str, items: &Vec<String>)
    ensures
        final(out)@ == old(out)@ + line_if(
            items.deep_view().len() > 0,
            k@,
            joined(items.deep_view(), ", "@),
        ),
{
    assert(items@.len() == items.deep_view().len());
    if items.len() > 0 {
        add_line(out, k, join(items, ", ").as_str());
    } else {
        assert(out@ + Seq::<char>::empty() =~= out@);
    }
}

fn add_opt(out: &mut String, k: &str, v: Option<String>)
    ensures
        final(out)@ == old(out)@ + line_if(
            v is Some,
            k@,
            match v {
                Some(t) => t@,
                None => Seq::empty(),
            },
        ),
{
    match v {
        Some(t) => add_line(out, k, t.as_str()),
        None => {
            assert(out@ + Seq::<char>::empty() =~= out@);
        },
    }
}

fn say_vscode(e: &Environment) -> (r: Option<String>)
    ensures
        r is Some == e.editor.vscode is Some,
        r matches Some(t) ==> t@ == vscode_said(*e),
{
    match &e.editor.vscode {
        Some(vs) => {
            let state = match vs.state {
                Some(s) => s.as_str(),
                None => EditorState::Persistent.as_str(),
            };
            let n = to_decimal(vs.extensions.len() as u64);
            let extensions = cat3(", ", n.as_str(), " extension(s)");
            Some(
                cat4(
                    state,
                    " state",
                    str_if(vs.reconcile.is_some(), ", reconcile hook").as_str(),
                    str_if(vs.extensions.len() > 0, extensions.as_str()).as_str(),
                ),
            )
        },
        None => None,
    }
}

fn say_origin(e: &Environment) -> (r: String)
    ensures
        r@ == origin_said(*e),
{
    let mut out = String::new();
    assert(out@ + line("source"@, source_said(*e)) =~= line("source"@, source_said(*e)));
    add_line(&mut out, "source", say_source(e).as_str());
    let cached = if e.cached_only || e.fallback.is_some() {
        Some(
            match &e.fallback {
                Some(f) => cat2("yes, falling back to ", or_str(&f.target, "?").as_str()),
                None => "yes, with no fallback".to_owned(),
            },
        )
    } else {
        None
    };
    add_opt(&mut out, "cached-only", cached);
    assert(e.profiles@.len() == e.profiles.deep_view().len());
    add_list(&mut out, "profiles", &e.profiles);
    out
}

fn say_being(e: &Environment) -> (r: String)
    ensures
        r@ == being_said(*e),
{
    let mut out = String::new();
    let ghost none = Seq::<char>::empty();
    let ghost first = line_if(e.workspace is Some, "workspace"@, or_text(e.workspace, Seq::empty()));
    add_opt(&mut out, "workspace", crate::text::copy_opt(&e.workspace));
    assert(out@ =~= first);
    add_opt(&mut out, "user", crate::text::copy_opt(&e.user));
    let freshness = match e.freshness {
        Some(f) => Some(f.as_str().to_owned()),
        None => None,
    };
    add_opt(&mut out, "freshness", freshness);
    let size = if e.cpus.is_some() || e.mem.is_some() {
        let cpus = match e.cpus {
            Some(c) => c.to_text(),
            None => "inherited".to_owned(),
        };
        Some(cat4("cpus ", cpus.as_str(), ", mem ", or_str(&e.mem, "inherited").as_str()))
    } else {
        None
    };
    add_opt(&mut out, "size", size);
    let env = if e.exec_env.len() > 0 || e.container_env.len() > 0 {
        let a = to_decimal(e.exec_env.len() as u64);
        let b = to_decimal(e.container_env.len() as u64);
        Some(cat4(a.as_str(), " for sessions, ", b.as_str(), " for the guest"))
    } else {
        None
    };
    add_opt(&mut out, "env", env);
    out
}

fn say_reach(e: &Environment) -> (r: String)
    ensures
        r@ == reach_said(*e),
{
    let mut out = String::new();
    let mounts = say_mounts(&e.mounts);
    add_list(&mut out, "mounts", &mounts);
    assert(out@ =~= line_if(mounts.deep_view().len() > 0, "mounts"@, joined(mounts.deep_view(), ", "@)));
    add_list(&mut out, "endpoints", &say_endpoints(&e.endpoints));
    let cache = match &e.cache.registry {
        Some(r) => Some(cat2(r.as_str(), str_if(e.cache.insecure, " (insecure)").as_str())),
        None => None,
    };
    add_opt(&mut out, "cache", cache);
    let wrapper = match &e.host.wrapper {
        Some(w) => Some(cat2("wrapper ", w.as_str())),
        None => None,
    };
    let host = gather(give_if(e.host.git_gui, "git-gui"), give_if(e.host.ssh_agent, "ssh-agent"), wrapper);
    add_list(&mut out, "host", &host);
    out
}

fn say_work(e: &Environment) -> (r: String)
    ensures
        r@ == work_said(*e),
{
    let mut out = String::new();
    let hooks = gather(
        give_if(e.hooks.init.is_some(), "init"),
        give_if(e.hooks.create.is_some(), "create"),
        give_if(e.hooks.start.is_some(), "start"),
    );
    add_list(&mut out, "hooks", &hooks);
    assert(out@ =~= line_if(hooks.deep_view().len() > 0, "hooks"@, joined(hooks.deep_view(), ", "@)));
    add_list(&mut out, "tasks", &say_tasks(&e.tasks));
    add_opt(&mut out, "vscode", say_vscode(e));
    out
}

impl Environment {
    /// What this environment says, one aligned line per subject.
    pub fn describe(&self) -> (r: String)
        ensures
            r@ == description(*self),
    {
        cat4(
            say_origin(self).as_str(),
            say_being(self).as_str(),
            say_reach(self).as_str(),
            say_work(self).as_str(),
        )
    }
}

proof fn lemma_mounts_said_prefix(a: Seq<(String, Mount)>, b: Seq<(String, Mount)>, n: int)
    requires
        n <= a.len() <= b.len(),
        forall|i: int| 0 <= i < a.len() ==> a[i] == b[i],
    ensures
        mounts_said(a, n) == mounts_said(b, n),
    decreases n,
{
    if n > 0 {
        lemma_mounts_said_prefix(a, b, n - 1);
    }
}

proof fn lemma_mounts_said_live(s: Seq<(String, Mount)>, n: int)
    requires
        0 <= n <= s.len(),
    ensures
        mounts_said(s, n) == mounts_said(live_mounts(s, n), live_mounts(s, n).len() as int),
    decreases n,
{
    if n > 0 {
        lemma_mounts_said_live(s, n - 1);
        let had = live_mounts(s, n - 1);
        if s[n - 1].1.enabled {
            lemma_mounts_said_prefix(had, live_mounts(s, n), had.len() as int);
        }
    }
}

proof fn lemma_endpoints_said_prefix(a: Seq<(String, Endpoint)>, b: Seq<(String, Endpoint)>, n: int)
    requires
        n <= a.len() <= b.len(),
        forall|i: int| 0 <= i < a.len() ==> a[i] == b[i],
    ensures
        endpoints_said(a, n) == endpoints_said(b, n),
    decreases n,
{
    if n > 0 {
        lemma_endpoints_said_prefix(a, b, n - 1);
    }
}

proof fn lemma_endpoints_said_live(s: Seq<(String, Endpoint)>, n: int)
    requires
        0 <= n <= s.len(),
    ensures
        endpoints_said(s, n) == endpoints_said(live_endpoints(s, n), live_endpoints(s, n).len() as int),
    decreases n,
{
    if n > 0 {
        lemma_endpoints_said_live(s, n - 1);
        let had = live_endpoints(s, n - 1);
        if s[n - 1].1.enabled {
            lemma_endpoints_said_prefix(had, live_endpoints(s, n), had.len() as int);
        }
    }
}

proof fn lemma_tasks_said_prefix(a: Seq<(String, Task)>, b: Seq<(String, Task)>, n: int)
    requires
        n <= a.len() <= b.len(),
        forall|i: int| 0 <= i < a.len() ==> a[i] == b[i],
    ensures
        tasks_said(a, n) == tasks_said(b, n),
    decreases n,
{
    if n > 0 {
        lemma_tasks_said_prefix(a, b, n - 1);
    }
}

proof fn lemma_tasks_said_live(s: Seq<(String, Task)>, n: int)
    requires
        0 <= n <= s.len(),
    ensures
        tasks_said(s, n) == tasks_said(live_tasks(s, n), live_tasks(s, n).len() as int),
    decreases n,
{
    if n > 0 {
        lemma_tasks_said_live(s, n - 1);
        let had = live_tasks(s, n - 1);
        if s[n - 1].1.enabled {
            lemma_tasks_said_prefix(had, live_tasks(s, n), had.len() as int);
        }
    }
}

proof fn lemma_same_origin(a: Environment, b: Environment)
    requires
        a == (Environment { mounts: a.mounts, endpoints: a.endpoints, tasks: a.tasks, ..b }),
    ensures
        origin_said(a) == origin_said(b),
{
    assert(source_said(a) == source_said(b));
    assert(cached_said(a) == cached_said(b));
}

proof fn lemma_same_being(a: Environment, b: Environment)
    requires
        a == (Environment { mounts: a.mounts, endpoints: a.endpoints, tasks: a.tasks, ..b }),
    ensures
        being_said(a) == being_said(b),
{
    assert(size_said(a) == size_said(b));
}

proof fn lemma_same_reach(a: Environment, b: Environment)
    requires
        a == (Environment { mounts: a.mounts, endpoints: a.endpoints, tasks: a.tasks, ..b }),
        mounts_said(a.mounts@, a.mounts@.len() as int) == mounts_said(b.mounts@, b.mounts@.len() as int),
        endpoints_said(a.endpoints@, a.endpoints@.len() as int) == endpoints_said(
            b.endpoints@,
            b.endpoints@.len() as int,
        ),
    ensures
        reach_said(a) == reach_said(b),
{
    assert(host_said(a) == host_said(b));
}

proof fn lemma_same_work(a: Environment, b: Environment)
    requires
        a == (Environment { mounts: a.mounts, endpoints: a.endpoints, tasks: a.tasks, ..b }),
        tasks_said(a.tasks@, a.tasks@.len() as int) == tasks_said(b.tasks@, b.tasks@.len() as int),
    ensures
        work_said(a) == work_said(b),
{
    assert(hooks_said(a) == hooks_said(b));
    assert(vscode_said(a) == vscode_said(b));
}

/// What is switched off is not mentioned at all: an environment reads the same with it taken out.
#[verifier::spinoff_prover]
pub proof fn law_switched_off_is_not_said(a: Environment, b: Environment)
    requires
        same_but_off(a, b),
    ensures
        description(a) == description(b),
{
    lemma_mounts_said_live(a.mounts@, a.mounts@.len() as int);
    lemma_mounts_said_live(b.mounts@, b.mounts@.len() as int);
    lemma_endpoints_said_live(a.endpoints@, a.endpoints@.len() as int);
    lemma_endpoints_said_live(b.endpoints@, b.endpoints@.len() as int);
    lemma_tasks_said_live(a.tasks@, a.tasks@.len() as int);
    lemma_tasks_said_live(b.tasks@, b.tasks@.len() as int);
    lemma_same_origin(a, b);
    lemma_same_being(a, b);
    lemma_same_reach(a, b);
    lemma_same_work(a, b);
}

} // verus!
