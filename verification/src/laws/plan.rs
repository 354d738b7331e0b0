//! What a plan says is what the config says, on this host.

use crate::config::{
    Build, CheckoutMode, Command, EditorState, Endpoint, Environment, Freshness, Hook, Mount, Policy, Task,
};
use crate::loaded::{named_at, selected, Loaded};
use crate::path::{is_abs, joined_path, normal};
use crate::plan::{
    CommandView, EndpointView, EnvVarView, HookCommandView, HookView, MountView, PlanView, SourceView, TaskView,
};
use crate::planning::{
    all_mounts_planned, by_name, editor_mount_planned, endpoints_upto, later_from, mounts_alone, resolved, rest_planned,
    tasks_upto, vars_at, vscode_planned, EDITOR_MOUNT,
};
use crate::resolve::{
    args_upto, hook_planned, members_planned, mounts_planned, mounts_upto, no_mounts, opt_hook_planned, opt_or_empty,
    source_planned, with_mount, Facts, MountsSoFar, ShareView, VolumeView,
};
use crate::text::{contains, decimal};
use crate::validate::{live_endpoints, live_mounts, live_tasks};
use crate::vars::{
    begins_at_home, expansion, home_text, law_expansion_keeps, law_plain_text, vars_of, vars_upto, Expansion, VarsView,
};
use vstd::prelude::*;
use vstd::utf8::{decode_utf8, encode_utf8};

verus! {

/// The variables stand for the same on both.
pub open spec fn same_host(a: VarsView, b: VarsView) -> bool {
    b == (VarsView { missing: b.missing, secrets: b.secrets, ..a })
}

/// A configured text comes to a value on this host: what its variables stand for, and itself where
/// it has none.
pub open spec fn comes_to(v: VarsView, text: Seq<char>, value: Seq<char>) -> bool {
    &&& exists|w: VarsView| same_host(v, w) && (#[trigger] expansion(w, text) matches Ok(x) && x.value == value)
    &&& !contains(text, "${"@) && !begins_at_home(text) ==> value == text
}

proof fn lemma_expansion(v: VarsView, text: Seq<char>)
    requires
        expansion(v, text) is Ok,
    ensures
        same_host(v, expansion(v, text)->Ok_0.vars),
        comes_to(v, text, expansion(v, text)->Ok_0.value),
        !contains(text, "${"@) && !begins_at_home(text) ==> !expansion(v, text)->Ok_0.sensitive,
{
    let none = Expansion { value: Seq::empty(), sensitive: false, vars: v };
    if begins_at_home(text) {
        let h = Expansion { value: Seq::<char>::empty() + home_text(v)->Ok_0, ..none };
        law_expansion_keeps(h, text, 1);
    } else {
        law_expansion_keeps(none, text, 0);
    }
    assert(same_host(v, v));
    if !contains(text, "${"@) && !begins_at_home(text) {
        law_plain_text(v, text);
    }
}

proof fn lemma_comes_to(v: VarsView, w: VarsView, text: Seq<char>, value: Seq<char>)
    requires
        same_host(v, w),
        comes_to(w, text, value),
    ensures
        comes_to(v, text, value),
{
    let x = choose|x: VarsView| same_host(w, x) && (#[trigger] expansion(x, text) matches Ok(y) && y.value == value);
    assert(same_host(v, x));
}

/// The variables of a plan are those of the config's map, each name with what its value comes to.
pub open spec fn variables_of(v: VarsView, env: Seq<EnvVarView>, map: Seq<(Seq<char>, Seq<char>)>) -> bool {
    &&& env.len() == map.len()
    &&& forall|i: int| 0 <= i < map.len() ==> (#[trigger] env[i]).name == map[i].0 && comes_to(v, map[i].1, env[i].value)
}

proof fn lemma_vars(v: VarsView, map: Seq<(Seq<char>, Seq<char>)>, n: int)
    requires
        0 <= n <= map.len(),
        vars_upto(v, map, n) is Ok,
    ensures
        same_host(v, vars_upto(v, map, n)->Ok_0.1),
        variables_of(v, vars_upto(v, map, n)->Ok_0.0, map.take(n)),
    decreases n,
{
    if n > 0 {
        lemma_vars(v, map, n - 1);
        let (had, w) = vars_upto(v, map, n - 1)->Ok_0;
        lemma_expansion(w, map[n - 1].1);
        let now = vars_upto(v, map, n)->Ok_0.0;
        assert forall|i: int| 0 <= i < n implies (#[trigger] now[i]).name == map.take(n)[i].0 && comes_to(
            v,
            map.take(n)[i].1,
            now[i].value,
        ) by {
            if i < n - 1 {
                assert(now[i] == had[i]);
                assert(map.take(n)[i] == map.take(n - 1)[i]);
            } else {
                lemma_comes_to(v, w, map[n - 1].1, now[i].value);
            }
        }
    }
}

/// An endpoint is published where the config says: at its address, or on an allocated loopback
/// where it names none; on its host port, or the guest's own; to the guest port of its service, or
/// of the primary.
pub open spec fn publishes(v: EndpointView, name: Seq<char>, e: Endpoint) -> bool {
    &&& v.name == name
    &&& e.target is Some
    &&& v.service == e.service.deep_view()
    &&& v.host_port == (if e.host_port is Some {
        e.host_port->0
    } else {
        e.target->0
    })
    &&& e.address matches Some(a) ==> v.address == a@
    &&& e.address is None ==> v.address == "auto"@
    &&& v.listen == "tcp://"@ + v.address + ":"@ + decimal(v.host_port as nat)
    &&& e.service matches Some(s) ==> v.to == "tcp://"@ + s@ + ":"@ + decimal(e.target->0 as nat)
    &&& e.service is None ==> v.to == "tcp://127.0.0.1:"@ + decimal(e.target->0 as nat)
    &&& v.scheme == e.scheme.deep_view() && v.path == e.path.deep_view()
    &&& v.required == e.required
}

/// The planned endpoints are the configured ones that are on, in their order, each published where
/// the config says.
pub open spec fn endpoints_match(p: Seq<EndpointView>, c: Seq<(String, Endpoint)>) -> bool {
    let on = live_endpoints(c, c.len() as int);
    &&& p.len() == on.len()
    &&& forall|j: int| 0 <= j < p.len() ==> publishes(#[trigger] p[j], on[j].0@, on[j].1)
}

proof fn lemma_endpoints(
    c: Seq<(String, Endpoint)>,
    at: Seq<char>,
    floor: u16,
    refused: Seq<(Seq<char>, Seq<char>)>,
    n: int,
)
    requires
        0 <= n <= c.len(),
        endpoints_upto(c, at, floor, refused, n) is Ok,
    ensures
        ({
            let p = endpoints_upto(c, at, floor, refused, n)->Ok_0;
            let on = live_endpoints(c, n);
            &&& p.len() == on.len()
            &&& forall|j: int| 0 <= j < p.len() ==> publishes(#[trigger] p[j], on[j].0@, on[j].1)
        }),
    decreases n,
{
    if n > 0 {
        lemma_endpoints(c, at, floor, refused, n - 1);
        let had = endpoints_upto(c, at, floor, refused, n - 1)->Ok_0;
        let now = endpoints_upto(c, at, floor, refused, n)->Ok_0;
        let on = live_endpoints(c, n);
        assert forall|j: int| 0 <= j < now.len() implies publishes(#[trigger] now[j], on[j].0@, on[j].1) by {
            if j < had.len() {
                assert(now[j] == had[j]);
                assert(on[j] == live_endpoints(c, n - 1)[j]);
            } else {
                assert(on[j] == c[n - 1]);
            }
        }
    }
}

/// What a configured command runs: a text through the shell, a list as it stands.
pub open spec fn runs(argv: Seq<Seq<char>>, c: Command) -> bool {
    match c {
        Command::Shell(s) => argv == seq!["/bin/sh"@, "-c"@, s@],
        Command::Argv(a) => argv == a.deep_view() && argv.len() > 0,
    }
}

/// A planned task is the configured one: what it runs, where, how it is obtained, how the checkout
/// reaches it and what it adds to the environment.
pub open spec fn task_matches(v: VarsView, p: TaskView, name: Seq<char>, t: Task) -> bool {
    &&& p.name == name
    &&& t.run matches Some(c) && runs(p.argv, c)
    &&& t.environment matches Some(e) ==> p.environment == e@
    &&& t.environment is None ==> p.environment == "dev"@
    &&& t.reuse matches Some(e) ==> p.reuse == e@
    &&& t.reuse is None ==> p.reuse == p.environment
    &&& t.policy matches Some(x) ==> p.policy == x
    &&& t.policy is None ==> p.policy == Policy::ReuseOrEphemeral
    &&& t.checkout matches Some(x) ==> p.checkout == x
    &&& t.checkout is None ==> p.checkout == CheckoutMode::Shared
    &&& variables_of(v, p.env, t.env.deep_view())
}

/// The planned tasks are the configured ones that are on, in their order.
pub open spec fn tasks_match(v: VarsView, p: Seq<TaskView>, c: Seq<(String, Task)>) -> bool {
    tasks_are(v, p, live_tasks(c, c.len() as int))
}

pub open spec fn tasks_are(v: VarsView, p: Seq<TaskView>, on: Seq<(String, Task)>) -> bool {
    &&& p.len() == on.len()
    &&& forall|j: int| 0 <= j < p.len() ==> task_matches(v, #[trigger] p[j], on[j].0@, on[j].1)
}

proof fn lemma_variables(v: VarsView, w: VarsView, env: Seq<EnvVarView>, map: Seq<(Seq<char>, Seq<char>)>)
    requires
        same_host(v, w),
        variables_of(w, env, map),
    ensures
        variables_of(v, env, map),
{
    assert forall|i: int| 0 <= i < map.len() implies (#[trigger] env[i]).name == map[i].0 && comes_to(
        v,
        map[i].1,
        env[i].value,
    ) by {
        lemma_comes_to(v, w, map[i].1, env[i].value);
    }
}

proof fn lemma_tasks(c: Seq<(String, Task)>, at: Seq<char>, l: Loaded, v: VarsView, n: int)
    requires
        0 <= n <= c.len(),
        tasks_upto(c, at, l, v, n) is Ok,
    ensures
        same_host(v, tasks_upto(c, at, l, v, n)->Ok_0.1),
        tasks_are(v, tasks_upto(c, at, l, v, n)->Ok_0.0, live_tasks(c, n)),
    decreases n,
{
    if n > 0 {
        lemma_tasks(c, at, l, v, n - 1);
        let (had, w) = tasks_upto(c, at, l, v, n - 1)->Ok_0;
        let now = tasks_upto(c, at, l, v, n)->Ok_0.0;
        let on = live_tasks(c, n);
        let t = c[n - 1].1;
        if t.enabled {
            let map = t.env.deep_view();
            lemma_vars(w, map, map.len() as int);
            assert(map.take(map.len() as int) =~= map);
            lemma_variables(v, w, now[had.len() as int].env, map);
        }
        assert forall|j: int| 0 <= j < now.len() implies task_matches(v, #[trigger] now[j], on[j].0@, on[j].1) by {
            if j < had.len() {
                assert(now[j] == had[j]);
                assert(on[j] == live_tasks(c, n - 1)[j]);
            } else {
                assert(on[j] == c[n - 1]);
            }
        }
    }
}

proof fn lemma_tasks_match(v: VarsView, w: VarsView, p: Seq<TaskView>, c: Seq<(String, Task)>)
    requires
        same_host(v, w),
        tasks_match(w, p, c),
    ensures
        tasks_match(v, p, c),
{
    let on = live_tasks(c, c.len() as int);
    assert forall|j: int| 0 <= j < p.len() implies task_matches(v, #[trigger] p[j], on[j].0@, on[j].1) by {
        assert(task_matches(w, p[j], on[j].0@, on[j].1));
        lemma_variables(v, w, p[j].env, on[j].1.env.deep_view());
    }
}

/// A planned mount is the configured one: the place its source names, relative to the project
/// unless it is absolute, at its folded place in the guest, with its mode.
pub open spec fn mount_matches(v: VarsView, workspace: Seq<u8>, p: MountView, name: Seq<char>, m: Mount) -> bool {
    &&& p.name == name && p.read_only == m.read_only && p.optional == m.optional
    &&& m.source is Some && m.to is Some
    &&& exists|s: Seq<char>| #[trigger]
        comes_to(v, m.source->0@, s) && s.len() > 0 && p.source == (if is_abs(encode_utf8(s)) {
            normal(encode_utf8(s))
        } else {
            normal(normal(joined_path(workspace, encode_utf8(s))))
        })
    &&& exists|t: Seq<char>| #[trigger]
        comes_to(v, m.to->0@, t) && t.len() > 0 && p.to == decode_utf8(normal(encode_utf8(t)))
}

/// The mounts made are the configured ones that are on, in their order.
pub open spec fn mounts_are(
    v: VarsView,
    workspace: Seq<u8>,
    p: Seq<(MountView, Option<VolumeView>)>,
    on: Seq<(String, Mount)>,
) -> bool {
    &&& p.len() == on.len()
    &&& forall|j: int| 0 <= j < p.len() ==> mount_matches(v, workspace, (#[trigger] p[j]).0, on[j].0@, on[j].1)
}

proof fn lemma_one_mount(
    v: VarsView,
    s: MountsSoFar,
    name: Seq<char>,
    m: Mount,
    at: Seq<char>,
    workspace: Seq<u8>,
    shares: Seq<(Seq<char>, ShareView)>,
)
    requires
        same_host(v, s.vars),
        with_mount(s, name, m, at, workspace, shares) is Ok,
    ensures
        ({
            let r = with_mount(s, name, m, at, workspace, shares)->Ok_0;
            &&& same_host(v, r.vars)
            &&& r.done.len() == s.done.len() + 1
            &&& forall|j: int| 0 <= j < s.done.len() ==> r.done[j] == s.done[j]
            &&& mount_matches(v, workspace, r.done[s.done.len() as int].0, name, m)
        }),
{
    reveal_strlit("");
    let from = opt_or_empty(m.source);
    let to = opt_or_empty(m.to);
    lemma_expansion(s.vars, from);
    let x = expansion(s.vars, from)->Ok_0;
    lemma_expansion(x.vars, to);
    let y = expansion(x.vars, to)->Ok_0;
    lemma_comes_to(v, s.vars, from, x.value);
    lemma_comes_to(v, x.vars, to, y.value);
    lemma_empty(s.vars);
    lemma_empty(x.vars);
    assert(m.source is Some && m.to is Some);
    assert(comes_to(v, m.source->0@, x.value));
    assert(comes_to(v, m.to->0@, y.value));
}

proof fn lemma_empty(v: VarsView)
    ensures
        expansion(v, ""@) matches Ok(x) ==> x.value.len() == 0,
{
    reveal_strlit("");
    reveal_strlit("${");
    if contains(""@, "${"@) {
        assert("${"@.len() == 2);
        assert(""@.len() == 0);
        lemma_nothing_holds(""@, "${"@);
    }
    law_plain_text(v, ""@);
}

proof fn lemma_nothing_holds(h: Seq<char>, n: Seq<char>)
    requires
        h.len() < n.len(),
    ensures
        !contains(h, n),
{
    crate::text::lemma_find_from(h, n, 0);
}

proof fn lemma_mounts(
    v: VarsView,
    start: MountsSoFar,
    c: Seq<(String, Mount)>,
    at: Seq<char>,
    workspace: Seq<u8>,
    shares: Seq<(Seq<char>, ShareView)>,
    n: int,
)
    requires
        0 <= n <= c.len(),
        same_host(v, start.vars),
        start.done.len() == 0,
        mounts_upto(start, c, at, workspace, shares, n) is Ok,
    ensures
        same_host(v, mounts_upto(start, c, at, workspace, shares, n)->Ok_0.vars),
        mounts_are(
            v,
            workspace,
            mounts_upto(start, c, at, workspace, shares, n)->Ok_0.done,
            live_mounts(c, n),
        ),
    decreases n,
{
    if n > 0 {
        lemma_mounts(v, start, c, at, workspace, shares, n - 1);
        let s = mounts_upto(start, c, at, workspace, shares, n - 1)->Ok_0;
        let had = s.done;
        let now = mounts_upto(start, c, at, workspace, shares, n)->Ok_0.done;
        let on = live_mounts(c, n);
        if c[n - 1].1.enabled {
            lemma_one_mount(v, s, c[n - 1].0@, c[n - 1].1, at, workspace, shares);
        }
        assert forall|j: int| 0 <= j < now.len() implies mount_matches(
            v,
            workspace,
            (#[trigger] now[j]).0,
            on[j].0@,
            on[j].1,
        ) by {
            if j < had.len() {
                assert(now[j] == had[j]);
                assert(on[j] == live_mounts(c, n - 1)[j]);
            } else {
                assert(on[j] == c[n - 1]);
            }
        }
    }
}

proof fn lemma_later(v: Seq<MountView>, name: Seq<char>, from: int)
    requires
        0 <= from <= v.len(),
    ensures
        from <= later_from(v, name, from) <= v.len(),
    decreases v.len() - from,
{
    if from < v.len() && !crate::text::before(name, v[from].name) {
        lemma_later(v, name, from + 1);
    }
}

proof fn lemma_by_name(v: Seq<MountView>, n: int)
    requires
        0 <= n <= v.len(),
    ensures
        by_name(v, n).len() == n,
        forall|i: int| 0 <= i < n ==> by_name(v, n).contains(#[trigger] v[i]),
        forall|j: int| 0 <= j < n ==> v.take(n).contains(#[trigger] by_name(v, n)[j]),
    decreases n,
{
    if n > 0 {
        lemma_by_name(v, n - 1);
        let had = by_name(v, n - 1);
        let x = v[n - 1];
        lemma_later(had, x.name, 0);
        let k = later_from(had, x.name, 0);
        let now = by_name(v, n);
        assert(now == had.insert(k, x));
        assert(now[k] == x);
        assert forall|i: int| 0 <= i < n implies now.contains(#[trigger] v[i]) by {
            if i < n - 1 {
                assert(had.contains(v[i]));
                let j = choose|j: int| 0 <= j < had.len() && had[j] == v[i];
                assert(now[if j < k { j } else { j + 1 }] == v[i]);
            }
        }
        assert forall|j: int| 0 <= j < n implies v.take(n).contains(#[trigger] now[j]) by {
            if j == k {
                assert(v.take(n)[n - 1] == x);
            } else {
                let o = if j < k { j } else { j - 1 };
                assert(now[j] == had[o]);
                let first = v.take(n - 1);
                assert(first.contains(had[o]));
                let i = choose|i: int| 0 <= i < n - 1 && #[trigger] first[i] == had[o];
                assert(v.take(n)[i] == had[o]);
            }
        }
    }
}

/// What a hook of the plan is: the command or the group of the config, with its own options.
pub open spec fn hook_matches(v: VarsView, p: HookView, h: Hook) -> bool
    decreases h,
{
    match h {
        Hook::Shell(s) => p == HookView::Command(
            HookCommandView { run: CommandView::Shell(s@), cwd: None, timeout_secs: None, required: true },
        ),
        Hook::Argv(a) => a@.len() > 0 && p == HookView::Command(
            HookCommandView { run: CommandView::Argv(a.deep_view()), cwd: None, timeout_secs: None, required: true },
        ),
        Hook::Detailed(s) => {
            &&& p matches HookView::Command(c) && c.required == s.required
            &&& s.run matches Some(r) && p->Command_0.run == r.deep_view()
            &&& s.cwd is None ==> p->Command_0.cwd is None
            &&& s.cwd matches Some(d) ==> (p->Command_0.cwd matches Some(x) && comes_to(v, d@, x))
            &&& s.timeout is None ==> p->Command_0.timeout_secs is None
            &&& s.timeout matches Some(t) ==> (p->Command_0.timeout_secs matches Some(n) && crate::units::duration(t@)
                == Some(n as nat))
        },
        Hook::Group(g) => {
            &&& p matches HookView::Group(m) && m.len() == g@.len()
            &&& forall|i: int|
                0 <= i < g@.len() ==> (#[trigger] p->Group_0[i]).0 == g@[i].0@ && hook_matches(
                    v,
                    p->Group_0[i].1,
                    g@[i].1,
                )
        },
    }
}

proof fn lemma_hook(v: VarsView, w: VarsView, h: Hook)
    requires
        same_host(v, w),
        hook_planned(w, h) is Ok,
    ensures
        same_host(v, hook_planned(w, h)->Ok_0.1),
        hook_matches(v, hook_planned(w, h)->Ok_0.0, h),
    decreases h, 1int, 0int,
{
    match h {
        Hook::Detailed(s) => {
            if let Some(d) = s.cwd {
                lemma_expansion(w, d@);
                lemma_comes_to(v, w, d@, expansion(w, d@)->Ok_0.value);
            }
        },
        Hook::Group(g) => {
            lemma_members(v, w, h, g@.len() as int);
            let p = hook_planned(w, h)->Ok_0.0;
            assert(p->Group_0 == members_planned(w, h, g@.len() as int)->Ok_0.0);
        },
        _ => {},
    }
}

proof fn lemma_members(v: VarsView, w: VarsView, h: Hook, n: int)
    requires
        h is Group,
        0 <= n <= h->Group_0@.len(),
        same_host(v, w),
        members_planned(w, h, n) is Ok,
    ensures
        same_host(v, members_planned(w, h, n)->Ok_0.1),
        members_planned(w, h, n)->Ok_0.0.len() == n,
        forall|i: int|
            0 <= i < n ==> (#[trigger] members_planned(w, h, n)->Ok_0.0[i]).0 == h->Group_0@[i].0@ && hook_matches(
                v,
                members_planned(w, h, n)->Ok_0.0[i].1,
                h->Group_0@[i].1,
            ),
    decreases h, 0int, n,
{
    if n > 0 {
        lemma_members(v, w, h, n - 1);
        let g = h->Group_0@;
        let (had, x) = members_planned(w, h, n - 1)->Ok_0;
        assert(decreases_to!(h => g));
        assert(decreases_to!(g => g[n - 1]));
        lemma_hook(v, x, g[n - 1].1);
        let now = members_planned(w, h, n)->Ok_0.0;
        assert forall|i: int| 0 <= i < n implies (#[trigger] now[i]).0 == g[i].0@ && hook_matches(
            v,
            now[i].1,
            g[i].1,
        ) by {
            if i < n - 1 {
                assert(now[i] == had[i]);
            }
        }
    }
}

/// A hook is planned exactly where the config has one.
pub open spec fn opt_hook_matches(v: VarsView, p: Option<HookView>, h: Option<Hook>) -> bool {
    match h {
        None => p is None,
        Some(x) => p matches Some(y) && hook_matches(v, y, x),
    }
}

proof fn lemma_opt_hook(v: VarsView, w: VarsView, h: Option<Hook>, heading: Seq<char>)
    requires
        same_host(v, w),
        opt_hook_planned(w, h, heading) is Ok,
    ensures
        same_host(v, opt_hook_planned(w, h, heading)->Ok_0.1),
        opt_hook_matches(v, opt_hook_planned(w, h, heading)->Ok_0.0, h),
{
    if let Some(x) = h {
        lemma_hook(v, w, x);
    }
}

/// What the environment boots from is what the config names, its paths taken from the project.
pub open spec fn source_matches(v: VarsView, workspace: Seq<u8>, p: SourceView, e: Environment) -> bool {
    &&& e.compose matches Some(c) ==> p == (SourceView::Compose {
        file: normal(joined_path(workspace, encode_utf8(c@))),
        service: e.service->0@,
        profiles: e.profiles.deep_view(),
    }) && e.service is Some
    &&& e.compose is None ==> (e.image matches Some(i) ==> p == SourceView::Image { reference: i@ })
    &&& e.compose is None && e.image is None ==> (e.build matches Some(b) && build_matches(v, workspace, p, b))
}

pub open spec fn build_matches(v: VarsView, workspace: Seq<u8>, p: SourceView, b: Build) -> bool {
    p matches SourceView::Build { context, dockerfile, target, args } && {
        &&& b.context matches Some(c) && context == normal(joined_path(workspace, encode_utf8(c@)))
        &&& b.dockerfile matches Some(d) ==> dockerfile == normal(joined_path(context, encode_utf8(d@)))
        &&& b.dockerfile is None ==> dockerfile == normal(joined_path(context, encode_utf8("Dockerfile"@)))
        &&& target == b.target.deep_view()
        &&& args.len() == b.args@.len()
        &&& forall|i: int|
            0 <= i < args.len() ==> (#[trigger] args[i]).0 == b.args@[i].0@ && comes_to(v, b.args@[i].1@, args[i].1)
    }
}

proof fn lemma_args(v: VarsView, map: Seq<(Seq<char>, Seq<char>)>, at: Seq<char>, n: int)
    requires
        0 <= n <= map.len(),
        args_upto(v, map, at, n) is Ok,
    ensures
        same_host(v, args_upto(v, map, at, n)->Ok_0.1),
        args_upto(v, map, at, n)->Ok_0.0.len() == n,
        forall|i: int|
            0 <= i < n ==> (#[trigger] args_upto(v, map, at, n)->Ok_0.0[i]).0 == map[i].0 && comes_to(
                v,
                map[i].1,
                args_upto(v, map, at, n)->Ok_0.0[i].1,
            ),
    decreases n,
{
    if n > 0 {
        lemma_args(v, map, at, n - 1);
        let (had, w) = args_upto(v, map, at, n - 1)->Ok_0;
        lemma_expansion(w, map[n - 1].1);
        let now = args_upto(v, map, at, n)->Ok_0.0;
        assert forall|i: int| 0 <= i < n implies (#[trigger] now[i]).0 == map[i].0 && comes_to(v, map[i].1, now[i].1) by {
            if i < n - 1 {
                assert(now[i] == had[i]);
            } else {
                lemma_comes_to(v, w, map[i].1, now[i].1);
            }
        }
    }
}

proof fn lemma_source(
    e: Environment,
    at: Seq<char>,
    workspace: Seq<u8>,
    v: VarsView,
    files: Seq<Seq<u8>>,
    dirs: Seq<Seq<u8>>,
)
    requires
        source_planned(e, at, workspace, v, files, dirs) is Ok,
    ensures
        same_host(v, source_planned(e, at, workspace, v, files, dirs)->Ok_0.1),
        source_matches(v, workspace, source_planned(e, at, workspace, v, files, dirs)->Ok_0.0, e),
{
    if e.compose is None && e.image is None {
        let b = e.build->0;
        let map = b.args.deep_view();
        lemma_args(v, map, at, map.len() as int);
        let args = args_upto(v, map, at, map.len() as int)->Ok_0.0;
        assert forall|i: int| 0 <= i < args.len() implies (#[trigger] args[i]).0 == b.args@[i].0@ && comes_to(
            v,
            b.args@[i].1@,
            args[i].1,
        ) by {
            assert(map[i] == (b.args@[i].0@, b.args@[i].1@));
        }
    }
}

/// The environment a name selects is the one the config has under that name, and no other.
pub proof fn law_name_selects(l: Loaded, name: Seq<char>)
    ensures
        name == "dev"@ ==> match l.schema.dev {
            Some(e) => selected(l, name) == Ok::<Environment, Seq<char>>(e),
            None => selected(l, name) is Err,
        },
        name != "dev"@ ==> match selected(l, name) {
            Ok(e) => exists|i: int|
                0 <= i < l.schema.environments@.len() && (#[trigger] l.schema.environments@[i]).0@ == name && e
                    == l.schema.environments@[i].1,
            Err(_) => forall|i: int|
                0 <= i < l.schema.environments@.len() ==> (#[trigger] l.schema.environments@[i]).0@ != name,
        },
{
    lemma_named(l.schema.environments@, name, 0);
}

proof fn lemma_named(s: Seq<(String, Environment)>, name: Seq<char>, from: int)
    requires
        0 <= from <= s.len(),
    ensures
        from <= named_at(s, name, from) <= s.len(),
        named_at(s, name, from) < s.len() ==> s[named_at(s, name, from)].0@ == name,
        forall|i: int| from <= i < named_at(s, name, from) ==> (#[trigger] s[i]).0@ != name,
    decreases s.len() - from,
{
    if from < s.len() && s[from].0@ != name {
        lemma_named(s, name, from + 1);
    }
}

/// What a plan takes from the config as it stands.
pub open spec fn carries(p: PlanView, l: Loaded, e: Environment, name: Seq<char>) -> bool {
    &&& p.environment == name
    &&& p.workspace_folder == e.workspace.deep_view()
    &&& p.user == e.user.deep_view()
    &&& e.freshness matches Some(x) ==> p.freshness == x
    &&& e.freshness is None ==> p.freshness == Freshness::Ask
    &&& p.cpus == e.cpus && p.mem == e.mem.deep_view() && p.nested == e.nested
    &&& p.ssh_agent == e.host.ssh_agent
    &&& p.cache.registry == e.cache.registry.deep_view() && p.cache.insecure == e.cache.insecure
    &&& p.cached_only == e.cached_only
    &&& e.fallback matches Some(x) ==> p.fallback_target == x.target.deep_view()
    &&& e.fallback is None ==> p.fallback_target is None
    &&& p.requires.min_version == l.schema.requires.min_version.deep_view()
    &&& p.requires.features == l.schema.requires.features.deep_view()
}

/// The host commands a plan lets through are those the config asks for: vk's own policy, or the
/// project's wrapper with the variables it passes, or none.
pub open spec fn host_matches(p: PlanView, e: Environment, workspace: Seq<u8>) -> bool {
    &&& !e.host.git_gui && e.host.wrapper is None ==> p.host_exec is None
    &&& e.host.git_gui ==> e.host.wrapper is None && (p.host_exec matches Some(h) && h.builtin == Some("git-gui"@)
        && h.env.len() == 0 && h.wrapper == joined_path(p.state_dir, encode_utf8("host-exec-wrapper"@)))
    &&& e.host.wrapper matches Some(w) ==> (p.host_exec matches Some(h) && h.builtin is None && h.wrapper == normal(
        joined_path(workspace, encode_utf8(w@)),
    ) && h.env == e.host.wrapper_env.deep_view())
}

/// The editor of a plan is the config's, in the home it names or the user's.
pub open spec fn editor_matches(v: VarsView, p: PlanView, e: Environment) -> bool {
    match e.editor.vscode {
        None => p.vscode is None,
        Some(c) => p.vscode matches Some(x) && {
            &&& x.persistent == !(c.state == Some(EditorState::Ephemeral))
            &&& x.extensions == c.extensions.deep_view()
            &&& c.home matches Some(h) ==> x.home == h@
            &&& c.home is None && (e.user is None || e.user->0@ == "root"@) ==> x.home == "/root"@
            &&& c.home is None && e.user is Some && e.user->0@ != "root"@ ==> x.home == "/home/"@ + e.user->0@
            &&& opt_hook_matches(v, x.reconcile, c.reconcile)
        },
    }
}

/// The mount is among those of a plan.
pub open spec fn has_mount(v: VarsView, workspace: Seq<u8>, p: Seq<MountView>, name: Seq<char>, m: Mount) -> bool {
    exists|j: int| 0 <= j < p.len() && mount_matches(v, workspace, #[trigger] p[j], name, m)
}

/// vk mounts a place of its own for an editor that is kept, where no compose file can.
pub open spec fn keeps_editor(p: PlanView) -> bool {
    p.vscode is Some && p.vscode->0.persistent && !(p.source is Compose)
}

/// The mounts of a plan are the configured ones that are on, and vk's own for an editor that is
/// kept, and no other.
pub open spec fn plan_mounts_match(v: VarsView, p: PlanView, e: Environment, workspace: Seq<u8>) -> bool {
    let on = live_mounts(e.mounts@, e.mounts@.len() as int);
    &&& forall|i: int| 0 <= i < on.len() ==> has_mount(v, workspace, p.mounts, (#[trigger] on[i]).0@, on[i].1)
    &&& p.mounts.len() == on.len() + (if keeps_editor(p) {
        1int
    } else {
        0int
    })
    &&& keeps_editor(p) ==> exists|j: int|
        0 <= j < p.mounts.len() && (#[trigger] p.mounts[j]).name == EDITOR_MOUNT@ && p.mounts[j].source == joined_path(
            p.state_dir,
            encode_utf8("editor/vscode-server"@),
        ) && !p.mounts[j].read_only && !p.mounts[j].optional
}

proof fn lemma_plan_mounts(
    v: VarsView,
    w: VarsView,
    e: Environment,
    at: Seq<char>,
    workspace: Seq<u8>,
    state: Seq<u8>,
    own: Option<MountView>,
    f: Facts,
)
    requires
        same_host(v, w),
        all_mounts_planned(e, at, workspace, state, w, own, f) is Ok,
    ensures
        ({
            let r = all_mounts_planned(e, at, workspace, state, w, own, f)->Ok_0;
            let on = live_mounts(e.mounts@, e.mounts@.len() as int);
            &&& same_host(v, r.vars)
            &&& forall|i: int| 0 <= i < on.len() ==> has_mount(v, workspace, r.mounts, (#[trigger] on[i]).0@, on[i].1)
            &&& r.mounts.len() == on.len() + (if own is Some {
                1int
            } else {
                0int
            })
            &&& own matches Some(m) ==> r.mounts.contains(m)
        }),
{
    let taken = crate::planning::taken_by(own);
    let start = no_mounts(w, taken);
    let c = e.mounts@;
    let on = live_mounts(c, c.len() as int);
    lemma_mounts(v, start, c, at, workspace, f.shares.deep_view(), c.len() as int);
    let s = mounts_planned(e, at, workspace, w, taken, f.shares.deep_view())->Ok_0;
    let alone = mounts_alone(s.done);
    let all = match own {
        Some(m) => alone.push(m),
        None => alone,
    };
    let r = all_mounts_planned(e, at, workspace, state, w, own, f)->Ok_0;
    lemma_by_name(all, all.len() as int);
    assert forall|i: int| 0 <= i < on.len() implies has_mount(v, workspace, r.mounts, (#[trigger] on[i]).0@, on[i].1) by {
        assert(mount_matches(v, workspace, s.done[i].0, on[i].0@, on[i].1));
        assert(all[i] == s.done[i].0);
        assert(r.mounts.contains(all[i]));
        let j = choose|j: int| 0 <= j < r.mounts.len() && r.mounts[j] == all[i];
        assert(mount_matches(v, workspace, r.mounts[j], on[i].0@, on[i].1));
    }
    if let Some(m) = own {
        assert(all[alone.len() as int] == m);
    }
}

/// A plan is the config's environment on this host: its source, its size, its user, where it is
/// mounted, what it sets, mounts, publishes, runs and hooks, each as the config says it.
#[verifier::rlimit(40)]
#[verifier::spinoff_prover]
pub proof fn law_plan_says_what_the_config_says(l: Loaded, name: Seq<char>, f: Facts)
    requires
        resolved(l, name, f) is Ok,
    ensures
        ({
            let p = resolved(l, name, f)->Ok_0;
            let e = selected(l, name)->Ok_0;
            let workspace = f.workspace->Ok_0.deep_view();
            let v = vars_at(l, workspace, p.state_dir, f);
            &&& selected(l, name) is Ok && f.workspace is Ok && f.config is Ok
            &&& p.workspace == workspace && p.config == f.config->Ok_0.deep_view()
            &&& carries(p, l, e, name)
            &&& source_matches(v, workspace, p.source, e)
            &&& p.source is Compose || p.workspace_folder is Some
            &&& variables_of(v, p.container_env, e.container_env.deep_view())
            &&& variables_of(v, p.exec_env, e.exec_env.deep_view())
            &&& endpoints_match(p.endpoints, e.endpoints@)
            &&& tasks_match(v, p.tasks, e.tasks@)
            &&& plan_mounts_match(v, p, e, workspace)
            &&& opt_hook_matches(v, p.hooks.init, e.hooks.init)
            &&& opt_hook_matches(v, p.hooks.create, e.hooks.create)
            &&& opt_hook_matches(v, p.hooks.start, e.hooks.start)
            &&& host_matches(p, e, workspace)
            &&& editor_matches(v, p, e)
        }),
{
    let p = resolved(l, name, f)->Ok_0;
    let e = selected(l, name)->Ok_0;
    let workspace = f.workspace->Ok_0.deep_view();
    let state = p.state_dir;
    let v = vars_at(l, workspace, state, f);
    let at = if name == "dev"@ {
        "dev"@
    } else {
        "environments."@ + name
    };
    assert(same_host(v, v));
    lemma_source(e, at, workspace, v, f.files.deep_view(), f.dirs.deep_view());
    let (source, v1) = source_planned(e, at, workspace, v, f.files.deep_view(), f.dirs.deep_view())->Ok_0;
    let (vscode, v2) = vscode_planned(v1, e, at)->Ok_0;
    if let Some(vs) = e.editor.vscode {
        lemma_opt_hook(v, v1, vs.reconcile, "["@ + at + ".editor.vscode] reconcile"@);
    }
    let own = editor_mount_planned(vscode, source, at, state, f.shares.deep_view())->Ok_0;
    lemma_plan_mounts(v, v2, e, at, workspace, state, own, f);
    let mounts = all_mounts_planned(e, at, workspace, state, v2, own, f)->Ok_0;
    if let Some(m) = own {
        let j = choose|j: int| 0 <= j < mounts.mounts.len() && mounts.mounts[j] == m;
        assert(mounts.mounts[j].name == EDITOR_MOUNT@);
    }
    lemma_rest(l, e, name, at, workspace, p.config, state, f, source, vscode, mounts, v);
}

#[verifier::rlimit(40)]
#[verifier::spinoff_prover]
proof fn lemma_rest(
    l: Loaded,
    e: Environment,
    name: Seq<char>,
    at: Seq<char>,
    workspace: Seq<u8>,
    config: Seq<u8>,
    state: Seq<u8>,
    f: Facts,
    source: SourceView,
    vscode: Option<crate::plan::VsCodeView>,
    mounts: crate::planning::MountsPlanned,
    v: VarsView,
)
    requires
        same_host(v, mounts.vars),
        rest_planned(l, e, name, at, workspace, config, state, f, source, vscode, mounts) is Ok,
    ensures
        ({
            let p = rest_planned(l, e, name, at, workspace, config, state, f, source, vscode, mounts)->Ok_0;
            &&& p.workspace == workspace && p.config == config && p.state_dir == state
            &&& p.source == source && p.vscode == vscode && p.mounts == mounts.mounts
            &&& carries(p, l, e, name)
            &&& variables_of(v, p.container_env, e.container_env.deep_view())
            &&& variables_of(v, p.exec_env, e.exec_env.deep_view())
            &&& endpoints_match(p.endpoints, e.endpoints@)
            &&& tasks_match(v, p.tasks, e.tasks@)
            &&& opt_hook_matches(v, p.hooks.init, e.hooks.init)
            &&& opt_hook_matches(v, p.hooks.create, e.hooks.create)
            &&& opt_hook_matches(v, p.hooks.start, e.hooks.start)
            &&& host_matches(p, e, workspace)
        }),
{
    let c = e.endpoints@;
    lemma_endpoints(c, at, f.lowest_port, f.refused_names.deep_view(), c.len() as int);
    assert(c.take(c.len() as int) =~= c);
    let w = mounts.vars;
    lemma_opt_hook(v, w, e.hooks.init, "["@ + at + ".hooks] init"@);
    let w1 = opt_hook_planned(w, e.hooks.init, "["@ + at + ".hooks] init"@)->Ok_0.1;
    lemma_opt_hook(v, w1, e.hooks.create, "["@ + at + ".hooks] create"@);
    let w2 = opt_hook_planned(w1, e.hooks.create, "["@ + at + ".hooks] create"@)->Ok_0.1;
    lemma_opt_hook(v, w2, e.hooks.start, "["@ + at + ".hooks] start"@);
    let w3 = opt_hook_planned(w2, e.hooks.start, "["@ + at + ".hooks] start"@)->Ok_0.1;
    let m = e.container_env.deep_view();
    lemma_vars(w3, m, m.len() as int);
    assert(m.take(m.len() as int) =~= m);
    let (container_env, w4) = vars_of(w3, m)->Ok_0;
    lemma_variables(v, w3, container_env, m);
    let x = e.exec_env.deep_view();
    lemma_vars(w4, x, x.len() as int);
    assert(x.take(x.len() as int) =~= x);
    let (exec_env, w5) = vars_of(w4, x)->Ok_0;
    lemma_variables(v, w4, exec_env, x);
    let t = e.tasks@;
    lemma_tasks(t, at, l, w5, t.len() as int);
    assert(t.take(t.len() as int) =~= t);
    let tasks = tasks_upto(t, at, l, w5, t.len() as int)->Ok_0.0;
    lemma_tasks_match(v, w5, tasks, t);
}

} // verus!
