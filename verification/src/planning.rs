//! Resolving an environment of a loaded config against a host.

use crate::config::{
    Cache, CheckoutMode, EditorState, Endpoint, Environment, Freshness, Hook, Policy, Requires, Task,
};
use crate::entries::{entry, get, keys, keys_of};
use crate::loaded::{selected, Loaded};
use crate::names::{derived_state_dir, dev_state_base, state_base, state_dir_under};
use crate::path::{is_listed, joined_path, lossy_text, HostPath};
use crate::plan::{
    argv_of, command_argv, mount_spec, EndpointPlan, EndpointView, HookView, HooksPlan, HooksView, HostExecPlan, HostExecView,
    MountPlan, MountView, Plan, PlanView, Source, SourceView, TaskPlan, TaskView, VsCodePlan, VsCodeView,
};
use crate::planjson::{hook_sound, hooks_sound, opt_hook_sound, plan_sound};
use crate::resolve::{
    checked_command, command_error, guest_folded, guest_home, guest_path, home_of, hook_planned, in_workspace, managed_storage,
    members_planned, mounts_of, mounts_planned, opt_hook_planned, project_path, resolve_opt_hook, source_of, source_planned,
    storage_planned, Facts, Share, ShareView, VolumeView,
};
use crate::text::{
    alnum, before, cat2, cat3, cat4, cat5, chars_of, copy_list, copy_opt, debug_text, decimal, error, is_alnum,
    is_before, outcome, parse_upto, parsed_signed, put, quoted, same, to_decimal, trim, trimmed, within, Error,
};
use crate::validate::{flagged, is_guest_absolute, starts_at_root, verdict};
use crate::value::{as_json, json_made, json_sound, ordered_entries, Toml, Tree};
use crate::vars::{env_vars, met_upto, vars_of, Vars, VarsView};
use vstd::prelude::*;
use vstd::utf8::encode_utf8;

verus! {

/// What a port this user cannot bind says.
pub open spec fn privileged_error(host_port: u16, floor: u16) -> Option<Seq<char>> {
    flagged(
        host_port < floor,
        "host-port "@ + decimal(host_port as nat) + ": this user cannot bind a port below "@ + decimal(floor as nat)
            + " — publish an unprivileged port instead"@,
    )
}

/// A host port this user cannot bind: it fails once the VM is already up, so refuse it while
/// there is still a config key to name.
pub fn refuse_privileged(host_port: u16, floor: u16) -> (r: Result<(), Error>)
    ensures
        outcome(r) == verdict(privileged_error(host_port, floor)),
{
    if host_port < floor {
        return Err(
            error(
                cat5(
                    "host-port ",
                    to_decimal(host_port as u64).as_str(),
                    ": this user cannot bind a port below ",
                    to_decimal(floor as u64).as_str(),
                    " — publish an unprivileged port instead",
                ),
            ),
        );
    }
    Ok(())
}

pub open spec fn is_scheme(s: Seq<char>) -> bool {
    forall|i: int| 0 <= i < s.len() ==> is_alnum(#[trigger] s[i]) || s[i] == '+' || s[i] == '-' || s[i] == '.'
}

fn url_scheme(s: &str) -> (r: bool)
    ensures
        r == is_scheme(s@),
{
    let v = chars_of(s);
    let mut i: usize = 0;
    while i < v.len()
        invariant
            i <= v@.len(),
            v@ == s@,
            forall|j: int| 0 <= j < i ==> is_alnum(#[trigger] s@[j]) || s@[j] == '+' || s@[j] == '-' || s@[j] == '.',
        decreases v@.len() - i,
    {
        if !(alnum(v[i]) || v[i] == '+' || v[i] == '-' || v[i] == '.') {
            assert(!is_alnum(s@[i as int]));
            return false;
        }
        i = i + 1;
    }
    true
}

/// The endpoint as it is published, given its guest port.
pub open spec fn endpoint_of(name: Seq<char>, e: Endpoint, target: u16) -> EndpointView {
    let host_port = match e.host_port {
        Some(p) => p,
        None => target,
    };
    let address = match e.address {
        Some(a) => a@,
        None => "auto"@,
    };
    EndpointView {
        name,
        service: e.service.deep_view(),
        host_port,
        address,
        listen: "tcp://"@ + address + ":"@ + decimal(host_port as nat),
        to: match e.service {
            Some(s) => "tcp://"@ + s@ + ":"@ + decimal(target as nat),
            None => "tcp://127.0.0.1:"@ + decimal(target as nat),
        },
        scheme: e.scheme.deep_view(),
        path: e.path.deep_view(),
        required: e.required,
    }
}

/// The service and address an endpoint takes. `auto` is one loopback address per environment
/// and service, so two auto endpoints of one service on one port collide as surely as two fixed
/// ones.
pub open spec fn slot_of(e: EndpointView) -> (Option<Seq<char>>, Seq<char>) {
    (e.service, e.listen)
}

pub open spec fn slots_of(v: Seq<EndpointView>) -> Seq<(Option<Seq<char>>, Seq<char>)> {
    Seq::new(v.len(), |i: int| slot_of(v[i]))
}

/// One more endpoint, or why it cannot be published.
pub open spec fn with_endpoint(
    done: Seq<EndpointView>,
    name: Seq<char>,
    e: Endpoint,
    at: Seq<char>,
    floor: u16,
    refused: Seq<(Seq<char>, Seq<char>)>,
) -> Result<Seq<EndpointView>, Seq<char>> {
    let key = at + ".endpoints."@ + name;
    match (entry(refused, name), e.target) {
        (Some(m), _) => Err("["@ + key + "]"@ + ": "@ + m),
        (None, None) => Err("["@ + key + "] needs `target`"@),
        (None, Some(target)) => {
            let p = endpoint_of(name, e, target);
            match privileged_error(p.host_port, floor) {
                Some(m) => Err("["@ + key + "]"@ + ": "@ + m),
                None => if slots_of(done).contains(slot_of(p)) {
                    Err("["@ + key + "] publishes "@ + p.listen + ", which another endpoint already takes"@)
                } else if p.scheme is Some && !is_scheme(p.scheme->0) {
                    Err("["@ + key + "] scheme "@ + debug_text(p.scheme->0) + " is not a URL scheme"@)
                } else if p.path is Some && !starts_at_root(p.path->0) {
                    Err("["@ + key + "] path "@ + debug_text(p.path->0) + " must start with '/'"@)
                } else {
                    Ok(done.push(p))
                },
            }
        },
    }
}

/// The endpoints that are on among the first `n`.
pub open spec fn endpoints_upto(
    v: Seq<(String, Endpoint)>,
    at: Seq<char>,
    floor: u16,
    refused: Seq<(Seq<char>, Seq<char>)>,
    n: int,
) -> Result<Seq<EndpointView>, Seq<char>>
    decreases n,
{
    if n <= 0 {
        Ok(Seq::empty())
    } else {
        match endpoints_upto(v, at, floor, refused, n - 1) {
            Err(e) => Err(e),
            Ok(done) => if v[n - 1].1.enabled {
                with_endpoint(done, v[n - 1].0@, v[n - 1].1, at, floor, refused)
            } else {
                Ok(done)
            },
        }
    }
}

proof fn lemma_endpoints_kept(
    v: Seq<(String, Endpoint)>,
    at: Seq<char>,
    floor: u16,
    refused: Seq<(Seq<char>, Seq<char>)>,
    n: int,
    m: int,
)
    requires
        0 <= n <= m,
        endpoints_upto(v, at, floor, refused, n) is Err,
    ensures
        endpoints_upto(v, at, floor, refused, m) == endpoints_upto(v, at, floor, refused, n),
    decreases m - n,
{
    if n < m {
        lemma_endpoints_kept(v, at, floor, refused, n, m - 1);
    }
}

fn plan_endpoint(name: &str, e: &Endpoint, target: u16) -> (r: EndpointPlan)
    ensures
        r.deep_view() == endpoint_of(name@, *e, target),
{
    let host_port = match e.host_port {
        Some(p) => p,
        None => target,
    };
    let address = match &e.address {
        Some(a) => a.clone(),
        None => "auto".to_owned(),
    };
    let listen = cat4("tcp://", address.as_str(), ":", to_decimal(host_port as u64).as_str());
    let to = match &e.service {
        Some(s) => cat4("tcp://", s.as_str(), ":", to_decimal(target as u64).as_str()),
        None => cat2("tcp://127.0.0.1:", to_decimal(target as u64).as_str()),
    };
    EndpointPlan {
        name: name.to_owned(),
        service: copy_opt(&e.service),
        host_port,
        address,
        listen,
        to,
        scheme: copy_opt(&e.scheme),
        path: copy_opt(&e.path),
        required: e.required,
    }
}

fn same_opt(a: &Option<String>, b: &Option<String>) -> (r: bool)
    ensures
        r == (a.deep_view() == b.deep_view()),
{
    match (a, b) {
        (Some(x), Some(y)) => same(x.as_str(), y.as_str()),
        (None, None) => true,
        _ => false,
    }
}

fn slot_taken(done: &Vec<EndpointPlan>, p: &EndpointPlan) -> (r: bool)
    ensures
        r == slots_of(done.deep_view()).contains(slot_of(p.deep_view())),
{
    let ghost s = slots_of(done.deep_view());
    let mut i: usize = 0;
    while i < done.len()
        invariant
            i <= done@.len(),
            s == slots_of(done.deep_view()),
            forall|j: int| 0 <= j < i ==> s[j] != slot_of(p.deep_view()),
        decreases done@.len() - i,
    {
        assert(done.deep_view()[i as int] == done@[i as int].deep_view());
        if same_opt(&done[i].service, &p.service) && same(done[i].listen.as_str(), p.listen.as_str()) {
            assert(s[i as int] == slot_of(p.deep_view()));
            return true;
        }
        i = i + 1;
    }
    false
}

fn add_endpoint(
    done: &mut Vec<EndpointPlan>,
    name: &str,
    e: &Endpoint,
    at: &str,
    floor: u16,
    refused: &Vec<(String, String)>,
) -> (r: Result<(), Error>)
    ensures
        match with_endpoint(old(done).deep_view(), name@, *e, at@, floor, refused.deep_view()) {
            Ok(s) => r is Ok && final(done).deep_view() == s,
            Err(m) => outcome(r) == Err::<(), Seq<char>>(m),
        },
{
    let key = cat3(at, ".endpoints.", name);
    if let Some(m) = get(refused, name) {
        return Err(within(cat3("[", key.as_str(), "]").as_str(), error(m.clone())));
    }
    let target = match e.target {
        Some(t) => t,
        None => return Err(error(cat3("[", key.as_str(), "] needs `target`"))),
    };
    let p = plan_endpoint(name, e, target);
    if let Err(m) = refuse_privileged(p.host_port, floor) {
        return Err(within(cat3("[", key.as_str(), "]").as_str(), m));
    }
    if slot_taken(done, &p) {
        return Err(
            error(
                cat5(
                    "[",
                    key.as_str(),
                    "] publishes ",
                    p.listen.as_str(),
                    ", which another endpoint already takes",
                ),
            ),
        );
    }
    if let Some(s) = &p.scheme {
        if !url_scheme(s.as_str()) {
            return Err(
                error(cat5("[", key.as_str(), "] scheme ", quoted(s.as_str()).as_str(), " is not a URL scheme")),
            );
        }
    }
    if let Some(s) = &p.path {
        if !is_guest_absolute(s.as_str()) {
            return Err(
                error(cat5("[", key.as_str(), "] path ", quoted(s.as_str()).as_str(), " must start with '/'")),
            );
        }
    }
    put(done, p);
    Ok(())
}

/// The endpoints to publish, in name order: one host address and port each, checked here for
/// what only fails once the VM is up, a privileged port or an address two of them share.
pub fn endpoints_of(e: &Environment, at: &str, floor: u16, refused: &Vec<(String, String)>) -> (r: Result<
    Vec<EndpointPlan>,
    Error,
>)
    ensures
        outcome(r) == endpoints_upto(e.endpoints@, at@, floor, refused.deep_view(), e.endpoints@.len() as int),
{
    let mut out: Vec<EndpointPlan> = Vec::new();
    let ghost v = e.endpoints@;
    let ghost rs = refused.deep_view();
    let mut i: usize = 0;
    assert(out.deep_view() =~= Seq::<EndpointView>::empty());
    while i < e.endpoints.len()
        invariant
            i <= e.endpoints@.len(),
            v == e.endpoints@,
            rs == refused.deep_view(),
            endpoints_upto(v, at@, floor, rs, i as int) == Ok::<Seq<EndpointView>, Seq<char>>(out.deep_view()),
        decreases e.endpoints@.len() - i,
    {
        if e.endpoints[i].1.enabled {
            if let Err(m) = add_endpoint(&mut out, e.endpoints[i].0.as_str(), &e.endpoints[i].1, at, floor, refused) {
                proof {
                    lemma_endpoints_kept(v, at@, floor, rs, i + 1, v.len() as int);
                }
                return Err(m);
            }
        }
        i = i + 1;
    }
    Ok(out)
}

/// No two of the endpoints take the same slot, and every one is on a port this user may bind.
pub open spec fn endpoints_sound(v: Seq<EndpointView>, floor: u16) -> bool {
    &&& forall|i: int, j: int| 0 <= i < j < v.len() ==> slot_of(#[trigger] v[i]) != slot_of(#[trigger] v[j])
    &&& forall|i: int| 0 <= i < v.len() ==> (#[trigger] v[i]).host_port >= floor
}

/// The lowest port a user may bind: any for root, and else what the kernel answers. One that
/// answers nothing that can be read has named no lower floor than 1024.
pub open spec fn port_floor(root: bool, answer: Option<Seq<char>>) -> u16 {
    if root {
        0
    } else {
        match answer {
            Some(t) => match parsed_signed(trimmed(t), 65535) {
                Some(n) => n as u16,
                None => 1024,
            },
            None => 1024,
        }
    }
}

/// The lowest port this user may bind, given what the kernel answers of
/// `net.ipv4.ip_unprivileged_port_start`: a host can lower it, and several do.
pub fn lowest_bindable_port(root: bool, answer: &Option<String>) -> (r: u16)
    ensures
        r == port_floor(root, answer.deep_view()),
{
    if root {
        return 0;
    }
    match answer {
        Some(t) => match parse_upto(trim(t.as_str()).as_str(), 65535) {
            Some(n) => n as u16,
            None => 1024,
        },
        None => 1024,
    }
}

/// Endpoints that are published take a host address and port each, none below the lowest this
/// user may bind.
pub proof fn law_endpoints_apart(
    v: Seq<(String, Endpoint)>,
    at: Seq<char>,
    floor: u16,
    refused: Seq<(Seq<char>, Seq<char>)>,
    n: int,
)
    requires
        0 <= n <= v.len(),
        endpoints_upto(v, at, floor, refused, n) is Ok,
    ensures
        endpoints_sound(endpoints_upto(v, at, floor, refused, n)->Ok_0, floor),
    decreases n,
{
    if n > 0 {
        law_endpoints_apart(v, at, floor, refused, n - 1);
        let a = endpoints_upto(v, at, floor, refused, n - 1)->Ok_0;
        let b = endpoints_upto(v, at, floor, refused, n)->Ok_0;
        assert forall|i: int, j: int| 0 <= i < j < b.len() implies slot_of(#[trigger] b[i]) != slot_of(#[trigger] b[j]) by {
            assert(b[i] == a[i]);
            if j < a.len() {
                assert(b[j] == a[j]);
            } else {
                assert(slots_of(a)[i] == slot_of(a[i]));
            }
        }
        assert forall|i: int| 0 <= i < b.len() implies (#[trigger] b[i]).host_port >= floor by {
            if i < a.len() {
                assert(b[i] == a[i]);
            }
        }
    }
}

/// Where a task runs, and what a reusing policy attaches to.
pub open spec fn task_environment(t: Task) -> Seq<char> {
    match t.environment {
        Some(e) => e@,
        None => "dev"@,
    }
}

pub open spec fn task_reuse(t: Task) -> Seq<char> {
    match t.reuse {
        Some(e) => e@,
        None => task_environment(t),
    }
}

/// One task, resolved, or what is wrong with it.
pub open spec fn task_planned(name: Seq<char>, t: Task, at: Seq<char>, l: Loaded, v: VarsView) -> Result<
    (TaskView, VarsView),
    Seq<char>,
> {
    let heading = "["@ + (at + ".tasks."@ + name) + "]"@;
    match selected(l, task_environment(t)) {
        Err(e) => Err(heading + ": "@ + e),
        Ok(_) => match selected(l, task_reuse(t)) {
            Err(e) => Err(heading + ": "@ + e),
            Ok(_) => match t.run {
                None => Err("["@ + (at + ".tasks."@ + name) + "] needs `run`"@),
                Some(c) => match command_error(c.deep_view()) {
                    Some(e) => Err(heading + ": "@ + e),
                    None => match vars_of(v, t.env.deep_view()) {
                        Err(e) => Err(heading + ": "@ + e),
                        Ok((env, w)) => Ok(
                            (
                                TaskView {
                                    name,
                                    argv: argv_of(c.deep_view()),
                                    environment: task_environment(t),
                                    reuse: task_reuse(t),
                                    policy: match t.policy {
                                        Some(p) => p,
                                        None => Policy::ReuseOrEphemeral,
                                    },
                                    checkout: match t.checkout {
                                        Some(c) => c,
                                        None => CheckoutMode::Shared,
                                    },
                                    env,
                                },
                                w,
                            ),
                        ),
                    },
                },
            },
        },
    }
}

/// The tasks that are on among the first `n`.
pub open spec fn tasks_upto(s: Seq<(String, Task)>, at: Seq<char>, l: Loaded, v: VarsView, n: int) -> Result<
    (Seq<TaskView>, VarsView),
    Seq<char>,
>
    decreases n,
{
    if n <= 0 {
        Ok((Seq::empty(), v))
    } else {
        match tasks_upto(s, at, l, v, n - 1) {
            Err(e) => Err(e),
            Ok((done, w)) => if s[n - 1].1.enabled {
                match task_planned(s[n - 1].0@, s[n - 1].1, at, l, w) {
                    Err(e) => Err(e),
                    Ok((t, x)) => Ok((done.push(t), x)),
                }
            } else {
                Ok((done, w))
            },
        }
    }
}

/// What has been met once a task is resolved, or as far as it could be.
pub open spec fn task_met(t: Task, l: Loaded, v: VarsView) -> VarsView {
    if selected(l, task_environment(t)) is Ok && selected(l, task_reuse(t)) is Ok && (t.run matches Some(c)
        && command_error(c.deep_view()) is None) {
        met_upto(v, t.env.deep_view(), t.env@.len() as int)
    } else {
        v
    }
}

/// What has been met once the first `n` tasks are resolved, or as far as they could be.
pub open spec fn tasks_met(s: Seq<(String, Task)>, at: Seq<char>, l: Loaded, v: VarsView, n: int) -> VarsView
    decreases n,
{
    if n <= 0 {
        v
    } else {
        match tasks_upto(s, at, l, v, n - 1) {
            Err(_) => tasks_met(s, at, l, v, n - 1),
            Ok((_, w)) => if s[n - 1].1.enabled {
                task_met(s[n - 1].1, l, w)
            } else {
                w
            },
        }
    }
}

proof fn lemma_tasks_kept(s: Seq<(String, Task)>, at: Seq<char>, l: Loaded, v: VarsView, n: int, m: int)
    requires
        0 <= n <= m,
        tasks_upto(s, at, l, v, n) is Err,
    ensures
        tasks_upto(s, at, l, v, m) == tasks_upto(s, at, l, v, n),
        tasks_met(s, at, l, v, m) == tasks_met(s, at, l, v, n),
    decreases m - n,
{
    if n < m {
        lemma_tasks_kept(s, at, l, v, n, m - 1);
    }
}

fn plan_task(name: &str, t: &Task, at: &str, loaded: &Loaded, vars: &mut Vars) -> (r: Result<TaskPlan, Error>)
    ensures
        match task_planned(name@, *t, at@, *loaded, old(vars).deep_view()) {
            Ok((p, w)) => {
                &&& r matches Ok(x) && x.deep_view() == p
                &&& final(vars).deep_view() == w
            },
            Err(e) => r matches Err(f) && f.deep_view() == e,
        },
        final(vars).deep_view() == task_met(*t, *loaded, old(vars).deep_view()),
{
    let key = cat3(at, ".tasks.", name);
    let heading = cat3("[", key.as_str(), "]");
    let environment = match &t.environment {
        Some(e) => e.clone(),
        None => "dev".to_owned(),
    };
    let reuse = match &t.reuse {
        Some(e) => e.clone(),
        None => environment.clone(),
    };
    if let Err(e) = loaded.environment(environment.as_str()) {
        return Err(within(heading.as_str(), e));
    }
    if let Err(e) = loaded.environment(reuse.as_str()) {
        return Err(within(heading.as_str(), e));
    }
    let run = match &t.run {
        None => return Err(error(cat3("[", key.as_str(), "] needs `run`"))),
        Some(c) => match checked_command(c) {
            Ok(x) => x,
            Err(e) => return Err(within(heading.as_str(), e)),
        },
    };
    let env = match env_vars(&t.env, vars) {
        Ok(v) => v,
        Err(e) => return Err(within(heading.as_str(), e)),
    };
    Ok(
        TaskPlan {
            name: name.to_owned(),
            argv: command_argv(&run),
            environment,
            reuse,
            policy: match t.policy {
                Some(p) => p,
                None => Policy::ReuseOrEphemeral,
            },
            checkout: match t.checkout {
                Some(c) => c,
                None => CheckoutMode::Shared,
            },
            env,
        },
    )
}

/// What `vk dev task` runs, in name order, with the environment each names checked against the
/// config that declares it.
pub fn tasks_of(e: &Environment, at: &str, loaded: &Loaded, vars: &mut Vars) -> (r: Result<Vec<TaskPlan>, Error>)
    ensures
        match tasks_upto(e.tasks@, at@, *loaded, old(vars).deep_view(), e.tasks@.len() as int) {
            Ok((p, w)) => {
                &&& r matches Ok(x) && x.deep_view() == p
                &&& final(vars).deep_view() == w
            },
            Err(m) => r matches Err(f) && f.deep_view() == m,
        },
        final(vars).deep_view() == tasks_met(
            e.tasks@,
            at@,
            *loaded,
            old(vars).deep_view(),
            e.tasks@.len() as int,
        ),
{
    let mut out: Vec<TaskPlan> = Vec::new();
    let ghost s = e.tasks@;
    let ghost v0 = vars.deep_view();
    let mut i: usize = 0;
    assert(out.deep_view() =~= Seq::<TaskView>::empty());
    while i < e.tasks.len()
        invariant
            i <= e.tasks@.len(),
            s == e.tasks@,
            v0 == old(vars).deep_view(),
            tasks_upto(s, at@, *loaded, v0, i as int) == Ok::<(Seq<TaskView>, VarsView), Seq<char>>(
                (out.deep_view(), vars.deep_view()),
            ),
            tasks_met(s, at@, *loaded, v0, i as int) == vars.deep_view(),
        decreases e.tasks@.len() - i,
    {
        if e.tasks[i].1.enabled {
            match plan_task(e.tasks[i].0.as_str(), &e.tasks[i].1, at, loaded, vars) {
                Ok(t) => put(&mut out, t),
                Err(m) => {
                    proof {
                        lemma_tasks_kept(s, at@, *loaded, v0, i + 1, s.len() as int);
                    }
                    return Err(m);
                },
            }
        }
        i = i + 1;
    }
    Ok(out)
}

/// The name vk gives the mount it makes for a persistent editor server, reserved so a
/// configured mount cannot claim it.
pub const EDITOR_MOUNT: &'static str = "vscode-server";

/// The editor settings can be written out: every table of them is in key order.
pub open spec fn settings_ordered(e: Environment) -> bool {
    e.editor.vscode matches Some(vs) ==> ordered_entries(vs.settings.deep_view())
}

/// The managed VS Code remote, or what is wrong with it.
pub open spec fn vscode_planned(v: VarsView, e: Environment, at: Seq<char>) -> Result<
    (Option<VsCodeView>, VarsView),
    Seq<char>,
> {
    match e.editor.vscode {
        None => Ok((None, v)),
        Some(vs) => match opt_hook_planned(v, vs.reconcile, "["@ + at + ".editor.vscode] reconcile"@) {
            Err(m) => Err(m),
            Ok((reconcile, w)) => match json_made(Tree::Table(vs.settings.deep_view())) {
                None => Err("["@ + at + ".editor.vscode] settings: no JSON"@),
                Some(settings) => Ok(
                    (
                        Some(
                            VsCodeView {
                                persistent: match vs.state {
                                    Some(s) => s == EditorState::Persistent,
                                    None => true,
                                },
                                home: match vs.home {
                                    Some(h) => h@,
                                    None => home_of(e.user.deep_view()),
                                },
                                reconcile,
                                extensions: vs.extensions.deep_view(),
                                settings,
                            },
                        ),
                        w,
                    ),
                ),
            },
        },
    }
}

fn plan_vscode(e: &Environment, at: &str, vars: &mut Vars) -> (r: Result<Option<VsCodePlan>, Error>)
    requires
        settings_ordered(*e),
    ensures
        match vscode_planned(old(vars).deep_view(), *e, at@) {
            Ok((p, w)) => {
                &&& r matches Ok(x) && x.deep_view() == p
                &&& final(vars).deep_view() == w
            },
            Err(m) => r matches Err(f) && f.deep_view() == m,
        },
        r matches Ok(Some(v)) ==> json_sound(v.settings.deep_view()),
{
    match &e.editor.vscode {
        None => Ok(None),
        Some(vs) => {
            let heading = cat3("[", at, ".editor.vscode] reconcile");
            let reconcile = resolve_opt_hook(&vs.reconcile, vars, heading.as_str())?;
            let table = Toml::Table(crate::value::copy_table(&vs.settings));
            proof {
                crate::value::lemma_table(table);
                crate::value::lemma_table_is_ordered(vs.settings.deep_view());
            }
            let settings = match as_json(&table) {
                None => return Err(error(cat3("[", at, ".editor.vscode] settings: no JSON"))),
                Some(j) => j,
            };
            let persistent = match vs.state {
                Some(s) => s == EditorState::Persistent,
                None => true,
            };
            let home = match &vs.home {
                Some(h) => h.clone(),
                None => guest_home(&e.user),
            };
            Ok(Some(VsCodePlan { persistent, home, reconcile, extensions: copy_list(&vs.extensions), settings }))
        },
    }
}

/// vk's own mount for a persistent editor server, where the source has no compose file to
/// declare one: managed storage under the state directory, at the server's data directory.
pub open spec fn editor_mount_planned(
    vscode: Option<VsCodeView>,
    source: SourceView,
    at: Seq<char>,
    state: Seq<u8>,
    shares: Seq<(Seq<char>, ShareView)>,
) -> Result<Option<MountView>, Seq<char>> {
    if vscode is Some && vscode->0.persistent && !(source is Compose) {
        let key = at + ".editor.vscode"@;
        match guest_folded(vscode->0.home + "/.vscode-server"@) {
            Err(e) => Err("["@ + key + "] home"@ + ": "@ + e),
            Ok(to) => {
                let m = MountView {
                    name: EDITOR_MOUNT@,
                    source: joined_path(state, encode_utf8("editor/vscode-server"@)),
                    to,
                    read_only: false,
                    optional: false,
                };
                match mount_spec(m) {
                    Err(e) => Err("["@ + key + "]"@ + ": "@ + e),
                    Ok(spec) => match entry(shares, spec) {
                        Some(ShareView::Refused(e)) => Err("["@ + key + "]"@ + ": "@ + e),
                        _ => Ok(Some(m)),
                    },
                }
            },
        }
    } else {
        Ok(None)
    }
}

fn plan_editor_mount(
    vscode: &Option<VsCodePlan>,
    source: &Source,
    at: &str,
    state: &HostPath,
    shares: &Vec<(String, Share)>,
) -> (r: Result<Option<MountPlan>, Error>)
    ensures
        outcome(r) == editor_mount_planned(
            vscode.deep_view(),
            source.deep_view(),
            at@,
            state.deep_view(),
            shares.deep_view(),
        ),
{
    if let Source::Compose { .. } = source {
        return Ok(None);
    }
    let vs = match vscode {
        None => return Ok(None),
        Some(vs) => vs,
    };
    if !vs.persistent {
        return Ok(None);
    }
    let key = cat2(at, ".editor.vscode");
    let to = match guest_path(cat2(vs.home.as_str(), "/.vscode-server").as_str()) {
        Ok(t) => t,
        Err(e) => return Err(within(cat3("[", key.as_str(), "] home").as_str(), e)),
    };
    let m = MountPlan {
        name: EDITOR_MOUNT.to_owned(),
        source: state.join_text("editor/vscode-server"),
        to,
        read_only: false,
        optional: false,
    };
    let spec = match m.spec() {
        Ok(s) => s,
        Err(e) => return Err(within(cat3("[", key.as_str(), "]").as_str(), e)),
    };
    if let Some(Share::Refused(e)) = get(shares, spec.as_str()) {
        return Err(within(cat3("[", key.as_str(), "]").as_str(), error(e.clone())));
    }
    Ok(Some(m))
}

/// What the guest may run on the host, or why that cannot be.
pub open spec fn host_exec_planned(
    e: Environment,
    at: Seq<char>,
    workspace: Seq<u8>,
    state: Seq<u8>,
    files: Seq<Seq<u8>>,
) -> Result<Option<HostExecView>, Seq<char>> {
    match (e.host.git_gui, e.host.wrapper) {
        (true, Some(_)) => Err(
            "["@ + at
                + ".host] choose one: git-gui = true or a wrapper, not both — a wrapper can call `vk host-policy git-gui` itself"@,
        ),
        (true, None) => Ok(
            Some(
                HostExecView {
                    wrapper: joined_path(state, encode_utf8("host-exec-wrapper"@)),
                    builtin: Some("git-gui"@),
                    env: Seq::empty(),
                },
            ),
        ),
        (false, Some(w)) => {
            let wrapper = project_path(workspace, w@);
            if files.contains(wrapper) {
                Ok(Some(HostExecView { wrapper, builtin: None, env: e.host.wrapper_env.deep_view() }))
            } else {
                Err("["@ + at + ".host] wrapper "@ + lossy_text(wrapper) + " does not exist"@)
            }
        },
        (false, None) => Ok(None),
    }
}

fn plan_host_exec(e: &Environment, at: &str, workspace: &HostPath, state: &HostPath, files: &Vec<HostPath>) -> (r:
    Result<Option<HostExecPlan>, Error>)
    ensures
        outcome(r) == host_exec_planned(
            *e,
            at@,
            workspace.deep_view(),
            state.deep_view(),
            files.deep_view(),
        ),
{
    match &e.host.wrapper {
        Some(w) => {
            if e.host.git_gui {
                return Err(
                    error(
                        cat3(
                            "[",
                            at,
                            ".host] choose one: git-gui = true or a wrapper, not both — a wrapper can call `vk host-policy git-gui` itself",
                        ),
                    ),
                );
            }
            let wrapper = in_workspace(workspace, w.as_str());
            if !is_listed(&wrapper, files) {
                return Err(
                    error(cat5("[", at, ".host] wrapper ", wrapper.display().as_str(), " does not exist")),
                );
            }
            Ok(Some(HostExecPlan { wrapper, builtin: None, env: copy_list(&e.host.wrapper_env) }))
        },
        None => {
            if e.host.git_gui {
                let none: Vec<String> = Vec::new();
                assert(none.deep_view() =~= Seq::<Seq<char>>::empty());
                return Ok(
                    Some(
                        HostExecPlan {
                            wrapper: state.join_text("host-exec-wrapper"),
                            builtin: Some("git-gui".to_owned()),
                            env: none,
                        },
                    ),
                );
            }
            Ok(None)
        },
    }
}

pub open spec fn hooks_planned(v: VarsView, e: Environment, at: Seq<char>) -> Result<(HooksView, VarsView), Seq<char>> {
    match opt_hook_planned(v, e.hooks.init, "["@ + at + ".hooks] init"@) {
        Err(m) => Err(m),
        Ok((init, v1)) => match opt_hook_planned(v1, e.hooks.create, "["@ + at + ".hooks] create"@) {
            Err(m) => Err(m),
            Ok((create, v2)) => match opt_hook_planned(v2, e.hooks.start, "["@ + at + ".hooks] start"@) {
                Err(m) => Err(m),
                Ok((start, v3)) => Ok((HooksView { init, create, start }, v3)),
            },
        },
    }
}

fn plan_hooks(e: &Environment, at: &str, vars: &mut Vars) -> (r: Result<HooksPlan, Error>)
    ensures
        match hooks_planned(old(vars).deep_view(), *e, at@) {
            Ok((p, w)) => {
                &&& r matches Ok(x) && x.deep_view() == p
                &&& final(vars).deep_view() == w
            },
            Err(m) => r matches Err(f) && f.deep_view() == m,
        },
{
    let init = resolve_opt_hook(&e.hooks.init, vars, cat3("[", at, ".hooks] init").as_str())?;
    let create = resolve_opt_hook(&e.hooks.create, vars, cat3("[", at, ".hooks] create").as_str())?;
    let start = resolve_opt_hook(&e.hooks.start, vars, cat3("[", at, ".hooks] start").as_str())?;
    Ok(HooksPlan { init, create, start })
}

/// The first place from `from` on that holds a mount whose name sorts after `name`, or the
/// length.
pub open spec fn later_from(v: Seq<MountView>, name: Seq<char>, from: int) -> int
    decreases v.len() - from,
{
    if from < 0 || from >= v.len() {
        v.len() as int
    } else if before(name, v[from].name) {
        from
    } else {
        later_from(v, name, from + 1)
    }
}

/// The first `n` mounts by name, those of one name in the order they came in.
pub open spec fn by_name(v: Seq<MountView>, n: int) -> Seq<MountView>
    decreases n,
{
    if n <= 0 {
        Seq::empty()
    } else {
        let done = by_name(v, n - 1);
        done.insert(later_from(done, v[n - 1].name, 0), v[n - 1])
    }
}

fn sort_mounts(v: &Vec<MountPlan>) -> (r: Vec<MountPlan>)
    ensures
        r.deep_view() == by_name(v.deep_view(), v@.len() as int),
{
    let mut out: Vec<MountPlan> = Vec::new();
    let ghost s = v.deep_view();
    let mut i: usize = 0;
    assert(out.deep_view() =~= by_name(s, 0));
    while i < v.len()
        invariant
            i <= v@.len(),
            s == v.deep_view(),
            out.deep_view() == by_name(s, i as int),
        decreases v@.len() - i,
    {
        let ghost done = out.deep_view();
        assert(s[i as int] == v@[i as int].deep_view());
        let mut at: usize = 0;
        while at < out.len() && !is_before(v[i].name.as_str(), out[at].name.as_str())
            invariant
                at <= out@.len(),
                i < v@.len(),
                done == out.deep_view(),
                later_from(done, v@[i as int].name@, at as int) == later_from(done, v@[i as int].name@, 0),
            decreases out@.len() - at,
        {
            assert(done[at as int] == out@[at as int].deep_view());
            at = at + 1;
        }
        if at < out.len() {
            assert(done[at as int] == out@[at as int].deep_view());
        }
        out.insert(at, v[i].copy());
        assert(out.deep_view() =~= done.insert(at as int, s[i as int]));
        i = i + 1;
    }
    out
}

/// The mounts among these, without their shares.
pub open spec fn mounts_alone(v: Seq<(MountView, Option<VolumeView>)>) -> Seq<MountView> {
    Seq::new(v.len(), |i: int| v[i].0)
}

/// The name and guest path vk mounts itself under.
pub open spec fn taken_by(m: Option<MountView>) -> Seq<(Seq<char>, Seq<char>)> {
    match m {
        Some(x) => seq![(x.name, x.to)],
        None => Seq::empty(),
    }
}

/// What a plan's variables stand for before anything is expanded.
pub open spec fn vars_at(l: Loaded, workspace: Seq<u8>, state: Seq<u8>, f: Facts) -> VarsView {
    VarsView {
        workspace,
        state,
        home: match f.home {
            Some(h) => if h.deep_view().len() > 0 {
                Some(h.deep_view())
            } else {
                None
            },
            None => None,
        },
        uid: f.uid,
        gid: f.gid,
        env: f.env.deep_view(),
        env_file: l.env_file.deep_view(),
        missing: Seq::empty(),
        secrets: Seq::empty(),
    }
}

/// The mounts and managed storage of a plan.
pub struct MountsPlanned {
    pub mounts: Seq<MountView>,
    pub managed: Seq<Seq<u8>>,
    pub vars: VarsView,
}

/// The mounts, vk's own among them, by name, and the sources the boot creates.
pub open spec fn all_mounts_planned(
    e: Environment,
    at: Seq<char>,
    workspace: Seq<u8>,
    state: Seq<u8>,
    v: VarsView,
    own: Option<MountView>,
    f: Facts,
) -> Result<MountsPlanned, Seq<char>> {
    match mounts_planned(e, at, workspace, v, taken_by(own), f.shares.deep_view()) {
        Err(m) => Err(m),
        Ok(s) => match storage_planned(s.done, state, f.canonical.deep_view(), f.state_check.deep_view()) {
            Err(m) => Err(m),
            Ok(managed) => {
                let all = match own {
                    Some(m) => mounts_alone(s.done).push(m),
                    None => mounts_alone(s.done),
                };
                Ok(
                    MountsPlanned {
                        mounts: by_name(all, all.len() as int),
                        managed: match own {
                            Some(m) => managed.push(m.source),
                            None => managed,
                        },
                        vars: s.vars,
                    },
                )
            },
        },
    }
}

fn plan_mounts(
    e: &Environment,
    at: &str,
    workspace: &HostPath,
    state: &HostPath,
    vars: &mut Vars,
    own: Option<MountPlan>,
    f: &Facts,
) -> (r: Result<(Vec<MountPlan>, Vec<HostPath>), Error>)
    ensures
        match all_mounts_planned(
            *e,
            at@,
            workspace.deep_view(),
            state.deep_view(),
            old(vars).deep_view(),
            own.deep_view(),
            *f,
        ) {
            Ok(p) => {
                &&& r matches Ok(x) && x.0.deep_view() == p.mounts && x.1.deep_view() == p.managed
                &&& final(vars).deep_view() == p.vars
            },
            Err(m) => r matches Err(g) && g.deep_view() == m,
        },
{
    let mut taken: Vec<(String, String)> = Vec::new();
    if let Some(m) = &own {
        put(&mut taken, (m.name.clone(), m.to.clone()));
    }
    assert(taken.deep_view() =~= taken_by(own.deep_view()));
    let found = mounts_of(e, at, workspace, vars, &taken, &f.shares)?;
    let mut managed = managed_storage(&found, state, &f.canonical, &f.state_check)?;
    let ghost all = found.deep_view();
    let mut mounts: Vec<MountPlan> = Vec::new();
    let mut i: usize = 0;
    assert(mounts.deep_view() =~= mounts_alone(all).take(0));
    while i < found.len()
        invariant
            i <= found@.len(),
            all == found.deep_view(),
            mounts.deep_view() == mounts_alone(all).take(i as int),
        decreases found@.len() - i,
    {
        assert(all[i as int] == found@[i as int].deep_view());
        put(&mut mounts, found[i].mount.copy());
        assert(mounts.deep_view() =~= mounts_alone(all).take(i + 1));
        i = i + 1;
    }
    assert(mounts.deep_view() =~= mounts_alone(all));
    if let Some(m) = own {
        put(&mut managed, m.source.copy());
        put(&mut mounts, m);
    }
    assert(mounts@.len() == mounts.deep_view().len());
    Ok((sort_mounts(&mounts), managed))
}

/// The environment `name` of a loaded config on this host, given where it and its state are.
pub open spec fn environment_planned(
    l: Loaded,
    e: Environment,
    name: Seq<char>,
    workspace: Seq<u8>,
    config: Seq<u8>,
    state: Seq<u8>,
    f: Facts,
) -> Result<PlanView, Seq<char>> {
    let at = if name == "dev"@ {
        "dev"@
    } else {
        "environments."@ + name
    };
    match source_planned(
        e,
        at,
        workspace,
        vars_at(l, workspace, state, f),
        f.files.deep_view(),
        f.dirs.deep_view(),
    ) {
        Err(m) => Err(m),
        Ok((source, v1)) => if !(source is Compose) && e.workspace is None {
            Err(
                "["@ + at + "] an image or build source needs `workspace`: where the checkout is mounted"@,
            )
        } else {
            match vscode_planned(v1, e, at) {
                Err(m) => Err(m),
                Ok((vscode, v2)) => match editor_mount_planned(vscode, source, at, state, f.shares.deep_view()) {
                    Err(m) => Err(m),
                    Ok(own) => match all_mounts_planned(e, at, workspace, state, v2, own, f) {
                        Err(m) => Err(m),
                        Ok(mounts) => rest_planned(l, e, name, at, workspace, config, state, f, source, vscode, mounts),
                    },
                },
            }
        },
    }
}

/// What is left of a plan once its source, editor and mounts are known.
pub open spec fn rest_planned(
    l: Loaded,
    e: Environment,
    name: Seq<char>,
    at: Seq<char>,
    workspace: Seq<u8>,
    config: Seq<u8>,
    state: Seq<u8>,
    f: Facts,
    source: SourceView,
    vscode: Option<VsCodeView>,
    mounts: MountsPlanned,
) -> Result<PlanView, Seq<char>> {
    match endpoints_upto(
        e.endpoints@,
        at,
        f.lowest_port,
        f.refused_names.deep_view(),
        e.endpoints@.len() as int,
    ) {
        Err(m) => Err(m),
        Ok(endpoints) => match host_exec_planned(e, at, workspace, state, f.files.deep_view()) {
            Err(m) => Err(m),
            Ok(host_exec) => match hooks_planned(mounts.vars, e, at) {
                Err(m) => Err(m),
                Ok((hooks, v1)) => match vars_of(v1, e.container_env.deep_view()) {
                    Err(m) => Err(m),
                    Ok((container_env, v2)) => match vars_of(v2, e.exec_env.deep_view()) {
                        Err(m) => Err(m),
                        Ok((exec_env, v3)) => match tasks_upto(e.tasks@, at, l, v3, e.tasks@.len() as int) {
                            Err(m) => Err(m),
                            Ok((tasks, v4)) => Ok(
                                PlanView {
                                    workspace,
                                    config,
                                    environment: name,
                                    state_dir: state,
                                    source,
                                    workspace_folder: e.workspace.deep_view(),
                                    user: e.user.deep_view(),
                                    freshness: match e.freshness {
                                        Some(x) => x,
                                        None => Freshness::Ask,
                                    },
                                    cpus: e.cpus,
                                    mem: e.mem.deep_view(),
                                    nested: e.nested,
                                    mounts: mounts.mounts,
                                    container_env,
                                    exec_env,
                                    endpoints,
                                    host_exec,
                                    ssh_agent: e.host.ssh_agent,
                                    cache: e.cache.deep_view(),
                                    requires: l.schema.requires.deep_view(),
                                    cached_only: e.cached_only,
                                    fallback_target: match e.fallback {
                                        Some(x) => x.target.deep_view(),
                                        None => None,
                                    },
                                    tasks,
                                    hooks,
                                    vscode,
                                    managed_dirs: mounts.managed,
                                    unresolved: keys_of(v4.missing),
                                    secrets: keys_of(v4.secrets),
                                },
                            ),
                        },
                    },
                },
            },
        },
    }
}

/// What the environment `name` of a loaded config resolves to on this host, or why it does not.
pub open spec fn resolved(l: Loaded, name: Seq<char>, f: Facts) -> Result<PlanView, Seq<char>> {
    match selected(l, name) {
        Err(m) => Err(m),
        Ok(e) => match f.workspace {
            Err(m) => Err("resolving "@ + lossy_text(l.files.workspace.deep_view()) + ": "@ + m@),
            Ok(workspace) => match f.config {
                Err(m) => Err("resolving "@ + lossy_text(l.files.config.deep_view()) + ": "@ + m@),
                Ok(config) => match state_base(f.state_home.deep_view(), f.home.deep_view()) {
                    Err(m) => Err(m),
                    Ok(base) => match state_dir_under(base, workspace.deep_view(), name) {
                        Err(m) => Err(m),
                        Ok(state) => environment_planned(
                            l,
                            e,
                            name,
                            workspace.deep_view(),
                            config.deep_view(),
                            state,
                            f,
                        ),
                    },
                },
            },
        },
    }
}

fn vars_for(loaded: &Loaded, workspace: &HostPath, state: &HostPath, f: &Facts) -> (r: Vars)
    ensures
        r.deep_view() == vars_at(*loaded, workspace.deep_view(), state.deep_view(), *f),
{
    let home = match &f.home {
        Some(h) => if h.bytes.len() > 0 {
            Some(h.copy())
        } else {
            None
        },
        None => None,
    };
    let r = Vars {
        workspace: workspace.copy(),
        state: state.copy(),
        home,
        uid: f.uid,
        gid: f.gid,
        env: copy_env(&f.env),
        env_file: crate::entries::copy_texts(&loaded.env_file),
        missing: Vec::new(),
        secrets: Vec::new(),
    };
    assert(r.missing.deep_view() =~= Seq::<(Seq<char>, ())>::empty());
    assert(r.secrets.deep_view() =~= Seq::<(Seq<char>, ())>::empty());
    r
}

fn copy_env(v: &Vec<(String, Option<String>)>) -> (r: Vec<(String, Option<String>)>)
    ensures
        r.deep_view() == v.deep_view(),
{
    let mut out: Vec<(String, Option<String>)> = Vec::new();
    let mut i: usize = 0;
    while i < v.len()
        invariant
            i <= v@.len(),
            out.deep_view() == v.deep_view().take(i as int),
        decreases v@.len() - i,
    {
        put(&mut out, (v[i].0.clone(), copy_opt(&v[i].1)));
        assert(out.deep_view() =~= v.deep_view().take(i + 1));
        i = i + 1;
    }
    assert(out.deep_view() =~= v.deep_view());
    out
}

fn plan_rest(
    loaded: &Loaded,
    e: &Environment,
    name: &str,
    at: &str,
    config: HostPath,
    f: &Facts,
    source: Source,
    vscode: Option<VsCodePlan>,
    mounts: Vec<MountPlan>,
    managed_dirs: Vec<HostPath>,
    vars: Vars,
    workspace: HostPath,
    state: HostPath,
) -> (r: Result<Plan, Error>)
    ensures
        outcome(r) == rest_planned(
            *loaded,
            *e,
            name@,
            at@,
            workspace.deep_view(),
            config.deep_view(),
            state.deep_view(),
            *f,
            source.deep_view(),
            vscode.deep_view(),
            (MountsPlanned {
                mounts: mounts.deep_view(),
                managed: managed_dirs.deep_view(),
                vars: vars.deep_view(),
            }),
        ),
        r matches Ok(p) ==> p.vscode == vscode,
{
    let mut vars = vars;
    let endpoints = endpoints_of(e, at, f.lowest_port, &f.refused_names)?;
    let host_exec = plan_host_exec(e, at, &workspace, &state, &f.files)?;
    let hooks = plan_hooks(e, at, &mut vars)?;
    let container_env = env_vars(&e.container_env, &mut vars)?;
    let exec_env = env_vars(&e.exec_env, &mut vars)?;
    let tasks = tasks_of(e, at, loaded, &mut vars)?;
    let fallback_target = match &e.fallback {
        Some(x) => copy_opt(&x.target),
        None => None,
    };
    let freshness = match e.freshness {
        Some(x) => x,
        None => Freshness::Ask,
    };
    Ok(
        Plan {
            workspace,
            config,
            environment: name.to_owned(),
            state_dir: state,
            source,
            workspace_folder: copy_opt(&e.workspace),
            user: copy_opt(&e.user),
            freshness,
            cpus: e.cpus,
            mem: copy_opt(&e.mem),
            nested: e.nested,
            mounts,
            container_env,
            exec_env,
            endpoints,
            host_exec,
            ssh_agent: e.host.ssh_agent,
            cache: Cache { registry: copy_opt(&e.cache.registry), insecure: e.cache.insecure },
            requires: Requires {
                min_version: copy_opt(&loaded.schema.requires.min_version),
                features: copy_list(&loaded.schema.requires.features),
            },
            cached_only: e.cached_only,
            fallback_target,
            tasks,
            hooks,
            vscode,
            managed_dirs,
            unresolved: keys(&vars.missing),
            secrets: keys(&vars.secrets),
        },
    )
}

fn plan_environment(
    loaded: &Loaded,
    e: &Environment,
    name: &str,
    workspace: HostPath,
    config: HostPath,
    state: HostPath,
    f: &Facts,
) -> (r: Result<Plan, Error>)
    requires
        settings_ordered(*e),
    ensures
        outcome(r) == environment_planned(
            *loaded,
            *e,
            name@,
            workspace.deep_view(),
            config.deep_view(),
            state.deep_view(),
            *f,
        ),
        r matches Ok(p) ==> (p.vscode matches Some(v) ==> json_sound(v.settings.deep_view())),
{
    let at = if same(name, "dev") {
        "dev".to_owned()
    } else {
        cat2("environments.", name)
    };
    let mut vars = vars_for(loaded, &workspace, &state, f);
    let source = source_of(e, at.as_str(), &workspace, &mut vars, &f.files, &f.dirs)?;
    let compose = match &source {
        Source::Compose { .. } => true,
        _ => false,
    };
    if !compose && e.workspace.is_none() {
        return Err(
            error(
                cat3(
                    "[",
                    at.as_str(),
                    "] an image or build source needs `workspace`: where the checkout is mounted",
                ),
            ),
        );
    }
    let vscode = plan_vscode(e, at.as_str(), &mut vars)?;
    let own = plan_editor_mount(&vscode, &source, at.as_str(), &state, &f.shares)?;
    let (mounts, managed) = plan_mounts(e, at.as_str(), &workspace, &state, &mut vars, own, f)?;
    plan_rest(
        loaded,
        e,
        name,
        at.as_str(),
        config,
        f,
        source,
        vscode,
        mounts,
        managed,
        vars,
        workspace,
        state,
    )
}

/// The members of every group have each its own name, as the keys of a table have.
pub open spec fn named_once(h: Hook) -> bool
    decreases h,
{
    match h {
        Hook::Group(g) => {
            &&& forall|i: int, j: int| 0 <= i < j < g@.len() ==> (#[trigger] g@[i]).0@ != (#[trigger] g@[j]).0@
            &&& forall|i: int|
                0 <= i < g@.len() ==> (if 0 <= i < g@.len() {
                    named_once((#[trigger] g@[i]).1)
                } else {
                    true
                })
        },
        _ => true,
    }
}

/// The members of every group of an environment's hooks have each its own name.
pub open spec fn hooks_named_once(e: Environment) -> bool {
    &&& e.hooks.init matches Some(h) ==> named_once(h)
    &&& e.hooks.create matches Some(h) ==> named_once(h)
    &&& e.hooks.start matches Some(h) ==> named_once(h)
    &&& e.editor.vscode matches Some(vs) ==> (vs.reconcile matches Some(h) ==> named_once(h))
}

proof fn lemma_members_planned(v: VarsView, h: Hook, n: int)
    requires
        h is Group,
        0 <= n <= h->Group_0@.len(),
        members_planned(v, h, n) is Ok,
    ensures
        members_planned(v, h, n)->Ok_0.0.len() == n,
        forall|i: int|
            0 <= i < n ==> (#[trigger] members_planned(v, h, n)->Ok_0.0[i]).0 == h->Group_0@[i].0@ && is_planned(
                h->Group_0@[i].1,
                members_planned(v, h, n)->Ok_0.0[i].1,
            ),
    decreases n,
{
    if n > 0 {
        lemma_members_planned(v, h, n - 1);
        let done = members_planned(v, h, n - 1)->Ok_0.0;
        let w = members_planned(v, h, n - 1)->Ok_0.1;
        let now = members_planned(v, h, n)->Ok_0.0;
        assert forall|i: int| 0 <= i < n implies (#[trigger] now[i]).0 == h->Group_0@[i].0@ && is_planned(
            h->Group_0@[i].1,
            now[i].1,
        ) by {
            if i < n - 1 {
                assert(now[i] == done[i]);
                assert(is_planned(h->Group_0@[i].1, members_planned(v, h, n - 1)->Ok_0.0[i].1));
            } else {
                assert(hook_planned(w, h->Group_0@[i].1)->Ok_0.0 == now[i].1);
            }
        }
    }
}

/// The hook resolves to that, under some variables.
spec fn is_planned(h: Hook, p: HookView) -> bool {
    exists|v: VarsView| (#[trigger] hook_planned(v, h)) is Ok && hook_planned(v, h)->Ok_0.0 == p
}

proof fn lemma_hook_planned_sound(h: Hook, p: HookView)
    requires
        named_once(h),
        is_planned(h, p),
    ensures
        hook_sound(p),
    decreases h,
{
    let v = choose|v: VarsView| (#[trigger] hook_planned(v, h)) is Ok && hook_planned(v, h)->Ok_0.0 == p;
    if let Hook::Group(g) = h {
        let n = g@.len() as int;
        lemma_members_planned(v, h, n);
        let m = members_planned(v, h, n)->Ok_0.0;
        assert forall|i: int| 0 <= i < m.len() implies hook_sound((#[trigger] m[i]).1) by {
            assert(decreases_to!(h => g@));
            assert(decreases_to!(g@ => g@[i]));
            assert(named_once(g@[i].1));
            assert(is_planned(g@[i].1, members_planned(v, h, n)->Ok_0.0[i].1));
            lemma_hook_planned_sound(g@[i].1, m[i].1);
        }
        assert forall|i: int, j: int| 0 <= i < j < m.len() implies (#[trigger] m[i]).0 != (#[trigger] m[j]).0 by {
            assert(members_planned(v, h, n)->Ok_0.0[i].0 == g@[i].0@);
            assert(members_planned(v, h, n)->Ok_0.0[j].0 == g@[j].0@);
        }
    }
}

proof fn lemma_opt_hook_planned(v: VarsView, h: Option<Hook>, heading: Seq<char>)
    requires
        h matches Some(x) ==> named_once(x),
        opt_hook_planned(v, h, heading) is Ok,
    ensures
        opt_hook_sound(opt_hook_planned(v, h, heading)->Ok_0.0),
{
    if let Some(x) = h {
        let p = hook_planned(v, x)->Ok_0.0;
        assert(is_planned(x, p));
        lemma_hook_planned_sound(x, p);
    }
}

/// The hooks of a plan name each member of a group once, where the config does.
proof fn lemma_hooks_of_plan(l: Loaded, name: Seq<char>, f: Facts)
    requires
        selected(l, name) is Ok,
        hooks_named_once(selected(l, name)->Ok_0),
        resolved(l, name, f) is Ok,
    ensures
        hooks_sound(resolved(l, name, f)->Ok_0.hooks),
        resolved(l, name, f)->Ok_0.vscode matches Some(v) ==> opt_hook_sound(v.reconcile),
{
    let e = selected(l, name)->Ok_0;
    assert forall|v: VarsView, h: Option<Hook>, heading: Seq<char>|
        (h matches Some(x) ==> named_once(x)) && (#[trigger] opt_hook_planned(v, h, heading)) is Ok implies opt_hook_sound(
        opt_hook_planned(v, h, heading)->Ok_0.0,
    ) by {
        lemma_opt_hook_planned(v, h, heading);
    }
}

/// Resolve the environment `name` of a loaded config against this host: paths made absolute
/// against the workspace root, `${…}` substituted, the state directory derived, mounts and
/// endpoints spelled the way `vk run` takes them.
pub fn resolve(loaded: &Loaded, name: &str, f: &Facts) -> (r: Result<Plan, Error>)
    requires
        selected(*loaded, name@) matches Ok(e) ==> settings_ordered(e),
    ensures
        outcome(r) == resolved(*loaded, name@, *f),
        r matches Ok(p) ==> (p.vscode matches Some(v) ==> json_sound(v.settings.deep_view())),
        r is Ok && hooks_named_once(selected(*loaded, name@)->Ok_0) ==> plan_sound(r->Ok_0.deep_view()),
{
    let e = loaded.environment(name)?;
    let workspace = match &f.workspace {
        Ok(w) => w.copy(),
        Err(m) => {
            return Err(
                error(cat4("resolving ", loaded.files.workspace.display().as_str(), ": ", m.as_str())),
            );
        },
    };
    let config = match &f.config {
        Ok(c) => c.copy(),
        Err(m) => {
            return Err(error(cat4("resolving ", loaded.files.config.display().as_str(), ": ", m.as_str())));
        },
    };
    let base = dev_state_base(&f.state_home, &f.home)?;
    let state = derived_state_dir(&base, &workspace, name)?;
    let r = plan_environment(loaded, e, name, workspace, config, state, f);
    proof {
        if r is Ok && hooks_named_once(*e) {
            lemma_hooks_of_plan(*loaded, name@, *f);
        }
    }
    r
}

} // verus!
