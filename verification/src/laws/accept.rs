//! What a config has to be for it to be accepted, and that all of it that is so is accepted.

use crate::config::{Command, Cpus, Egress, Endpoint, Environment, Hook, Mount, Schema, Task, SCHEMA};
use crate::text::blank;
use crate::units::{duration, mem_mib, version_of};
use crate::validate::{
    endpoint_services_error, endpoints_error, env_names_error, environment_error, environments_error, features_error,
    hook_error, hooks_error, machine_error, members_error, mounts_error, opt_hook_error, schema_error, source_error,
    stage_error, tasks_error, Known,
};
use vstd::prelude::*;

verus! {

pub open spec fn letter(c: char) -> bool {
    ('a' <= c && c <= 'z') || ('A' <= c && c <= 'Z')
}

pub open spec fn letter_or_digit(c: char) -> bool {
    letter(c) || ('0' <= c && c <= '9')
}

/// The name of a variable.
pub open spec fn names_variable(s: Seq<char>) -> bool {
    s.len() > 0 && (letter(s[0]) || s[0] == '_') && forall|i: int|
        0 <= i < s.len() ==> letter_or_digit(#[trigger] s[i]) || s[i] == '_'
}

/// The name of an entry of the config.
pub open spec fn names_entry(s: Seq<char>) -> bool {
    s.len() > 0 && forall|i: int|
        0 <= i < s.len() ==> letter_or_digit(#[trigger] s[i]) || s[i] == '.' || s[i] == '_' || s[i] == '-'
}

/// Every name of the map is a variable's.
pub open spec fn variables_named(env: Seq<(String, String)>, n: int) -> bool {
    forall|i: int| 0 <= i < n ==> names_variable((#[trigger] env[i]).0@)
}

proof fn lemma_variables(env: Seq<(String, String)>, heading: Seq<char>, n: int)
    requires
        0 <= n <= env.len(),
    ensures
        env_names_error(env, heading, n) is None <==> variables_named(env, n),
    decreases n,
{
    if n > 0 {
        lemma_variables(env, heading, n - 1);
        let s = env[n - 1].0@;
        assert(crate::validate::is_env_name(s) == names_variable(s));
        if env_names_error(env, heading, n) is None {
            assert forall|i: int| 0 <= i < n implies names_variable((#[trigger] env[i]).0@) by {
                if i < n - 1 {
                    assert(variables_named(env, n - 1));
                }
            }
        }
    }
}

/// The text is there and says something.
pub open spec fn given(s: Option<String>) -> bool {
    s is Some && s->0@.len() > 0
}

/// A path in the guest is absolute.
pub open spec fn rooted(s: Seq<char>) -> bool {
    s.len() > 0 && s[0] == '/'
}

/// There is something to run.
pub open spec fn runnable(c: Option<Command>) -> bool {
    match c {
        Some(Command::Shell(s)) => !blank(s@),
        Some(Command::Argv(a)) => a@.len() > 0,
        None => false,
    }
}

/// A hook runs something, within a time that can be read, and a group has members, each under a
/// name, that do.
pub open spec fn hook_runs(h: Hook) -> bool
    decreases h,
{
    match h {
        Hook::Shell(s) => !blank(s@),
        Hook::Argv(a) => a@.len() > 0,
        Hook::Detailed(d) => runnable(d.run) && (d.timeout matches Some(t) ==> duration(t@) is Some),
        Hook::Group(g) => g@.len() > 0 && forall|i: int|
            0 <= i < g@.len() ==> names_entry((#[trigger] g@[i]).0@) && hook_runs(g@[i].1),
    }
}

proof fn lemma_hook(h: Hook)
    ensures
        hook_error(h) is None <==> hook_runs(h),
    decreases h, 1int, 0int,
{
    if let Hook::Group(g) = h {
        lemma_members(h, g@.len() as int);
    }
}

proof fn lemma_members(h: Hook, n: int)
    requires
        h is Group,
        0 <= n <= h->Group_0@.len(),
    ensures
        members_error(h, n) is None <==> forall|i: int|
            0 <= i < n ==> names_entry((#[trigger] h->Group_0@[i]).0@) && hook_runs(h->Group_0@[i].1),
    decreases h, 0int, n,
{
    if n > 0 {
        let g = h->Group_0@;
        lemma_members(h, n - 1);
        assert(decreases_to!(h => g));
        assert(decreases_to!(g => g[n - 1]));
        lemma_hook(g[n - 1].1);
        assert(crate::validate::is_name(g[n - 1].0@) == names_entry(g[n - 1].0@));
        if members_error(h, n) is None {
            assert forall|i: int| 0 <= i < n implies names_entry((#[trigger] h->Group_0@[i]).0@) && hook_runs(
                h->Group_0@[i].1,
            ) by {
                if i == n - 1 {
                    assert(names_entry(g[i].0@));
                }
            }
        } else {
            assert(h->Group_0@[n - 1] == g[n - 1]);
        }
    }
}

pub open spec fn opt_hook_runs(h: Option<Hook>) -> bool {
    h matches Some(x) ==> hook_runs(x)
}

proof fn lemma_opt_hook(h: Option<Hook>, heading: Seq<char>)
    ensures
        opt_hook_error(h, heading) is None <==> opt_hook_runs(h),
{
    if let Some(x) = h {
        lemma_hook(x);
    }
}

/// A task that is on has a name, runs something, and sets variables.
pub open spec fn task_fine(name: Seq<char>, t: Task) -> bool {
    t.enabled ==> names_entry(name) && runnable(t.run) && variables_named(t.env@, t.env@.len() as int)
}

/// A mount that is on has a name, a source, and an absolute place in the guest.
pub open spec fn mount_fine(name: Seq<char>, m: Mount) -> bool {
    m.enabled ==> names_entry(name) && given(m.source) && (m.to matches Some(t) && rooted(t@))
}

/// An endpoint that is on has a name, ports that are ports, and an address that is one.
pub open spec fn endpoint_fine(name: Seq<char>, e: Endpoint, known: Known) -> bool {
    e.enabled ==> {
        &&& names_entry(name)
        &&& e.target matches Some(t) && t != 0
        &&& e.host_port matches Some(p) ==> p != 0
        &&& e.address matches Some(a) ==> a@ == "auto"@ || known.addresses.deep_view().contains(a@)
    }
}

proof fn lemma_tasks(s: Seq<(String, Task)>, at: Seq<char>, n: int)
    requires
        0 <= n <= s.len(),
    ensures
        tasks_error(s, at, n) is None <==> forall|i: int| 0 <= i < n ==> task_fine((#[trigger] s[i]).0@, s[i].1),
    decreases n,
{
    if n > 0 {
        lemma_tasks(s, at, n - 1);
        let (name, t) = (s[n - 1].0@, s[n - 1].1);
        assert(crate::validate::is_name(name) == names_entry(name));
        lemma_variables(t.env@, "["@ + at + ".tasks."@ + name + ".env]"@, t.env@.len() as int);
        assert(crate::validate::task_error(name, t, at) is None <==> task_fine(name, t));
        if tasks_error(s, at, n) is None {
            assert forall|i: int| 0 <= i < n implies task_fine((#[trigger] s[i]).0@, s[i].1) by {
                if i == n - 1 {
                    assert(task_fine(name, t));
                }
            }
        }
    }
}

proof fn lemma_mounts(s: Seq<(String, Mount)>, at: Seq<char>, n: int)
    requires
        0 <= n <= s.len(),
    ensures
        mounts_error(s, at, n) is None <==> forall|i: int| 0 <= i < n ==> mount_fine((#[trigger] s[i]).0@, s[i].1),
    decreases n,
{
    if n > 0 {
        lemma_mounts(s, at, n - 1);
        let (name, m) = (s[n - 1].0@, s[n - 1].1);
        assert(crate::validate::is_name(name) == names_entry(name));
        assert(crate::validate::mount_error(name, m, at) is None <==> mount_fine(name, m));
        if mounts_error(s, at, n) is None {
            assert forall|i: int| 0 <= i < n implies mount_fine((#[trigger] s[i]).0@, s[i].1) by {
                if i == n - 1 {
                    assert(mount_fine(name, m));
                }
            }
        }
    }
}

proof fn lemma_endpoints(s: Seq<(String, Endpoint)>, at: Seq<char>, known: Known, n: int)
    requires
        0 <= n <= s.len(),
    ensures
        endpoints_error(s, at, known, n) is None <==> forall|i: int|
            0 <= i < n ==> endpoint_fine((#[trigger] s[i]).0@, s[i].1, known),
    decreases n,
{
    if n > 0 {
        lemma_endpoints(s, at, known, n - 1);
        let (name, e) = (s[n - 1].0@, s[n - 1].1);
        assert(crate::validate::is_name(name) == names_entry(name));
        assert(crate::validate::endpoint_error(name, e, at, known) is None <==> endpoint_fine(name, e, known));
        if endpoints_error(s, at, known, n) is None {
            assert forall|i: int| 0 <= i < n implies endpoint_fine((#[trigger] s[i]).0@, s[i].1, known) by {
                if i == n - 1 {
                    assert(endpoint_fine(name, e, known));
                }
            }
        }
    }
}

proof fn lemma_services(s: Seq<(String, Endpoint)>, at: Seq<char>, n: int)
    requires
        0 <= n <= s.len(),
    ensures
        endpoint_services_error(s, at, n) is None <==> forall|i: int|
            0 <= i < n ==> !((#[trigger] s[i]).1.enabled && s[i].1.service is Some),
    decreases n,
{
    if n > 0 {
        lemma_services(s, at, n - 1);
        if endpoint_services_error(s, at, n) is None {
            assert forall|i: int| 0 <= i < n implies !((#[trigger] s[i]).1.enabled && s[i].1.service is Some) by {
                if i == n - 1 {
                    assert(!(s[n - 1].1.enabled && s[n - 1].1.service is Some));
                }
            }
        }
    }
}

/// An environment has exactly one source, and what only belongs to a compose source only there.
pub open spec fn source_fine(e: Environment) -> bool {
    &&& (e.compose is Some && e.image is None && e.build is None) || (e.compose is None && e.image is Some && e.build
        is None) || (e.compose is None && e.image is None && e.build is Some)
    &&& e.compose is Some ==> e.service is Some
    &&& e.compose is None ==> e.service is None && e.profiles@.len() == 0 && forall|i: int|
        0 <= i < e.endpoints@.len() ==> !((#[trigger] e.endpoints@[i]).1.enabled && e.endpoints@[i].1.service is Some)
}

/// A build says what it builds from, and only a build is cached or falls back to another stage.
pub open spec fn stage_fine(e: Environment) -> bool {
    &&& e.build matches Some(b) ==> given(b.context) && (b.target is Some ==> given(b.target))
    &&& e.build is None ==> !e.cached_only && e.fallback is None
    &&& e.fallback matches Some(f) ==> e.cached_only && given(f.target)
}

/// The guest can be made as it is described.
pub open spec fn machine_fine(e: Environment) -> bool {
    &&& e.workspace matches Some(w) ==> rooted(w@)
    &&& e.cpus != Some(Cpus::Count(0))
    &&& e.mem matches Some(m) ==> mem_mib(m@) is Some
    &&& e.network.egress != Some(Egress::Restricted)
}

/// The environment is one that is accepted.
pub open spec fn environment_fine(e: Environment, known: Known) -> bool {
    &&& source_fine(e)
    &&& stage_fine(e)
    &&& machine_fine(e)
    &&& variables_named(e.exec_env@, e.exec_env@.len() as int)
    &&& variables_named(e.container_env@, e.container_env@.len() as int)
    &&& forall|i: int| 0 <= i < e.tasks@.len() ==> task_fine((#[trigger] e.tasks@[i]).0@, e.tasks@[i].1)
    &&& forall|i: int| 0 <= i < e.mounts@.len() ==> mount_fine((#[trigger] e.mounts@[i]).0@, e.mounts@[i].1)
    &&& forall|i: int|
        0 <= i < e.endpoints@.len() ==> endpoint_fine((#[trigger] e.endpoints@[i]).0@, e.endpoints@[i].1, known)
    &&& opt_hook_runs(e.hooks.init) && opt_hook_runs(e.hooks.create) && opt_hook_runs(e.hooks.start)
    &&& e.editor.vscode matches Some(v) ==> opt_hook_runs(v.reconcile) && (v.home matches Some(h) ==> rooted(h@))
}

/// An environment is accepted exactly where nothing is wrong with it.
pub proof fn law_environment_is_accepted(e: Environment, at: Seq<char>, known: Known)
    ensures
        environment_error(e, at, known) is None <==> environment_fine(e, known),
{
    lemma_services(e.endpoints@, at, e.endpoints@.len() as int);
    assert(source_error(e, at) is None <==> source_fine(e));
    assert(stage_error(e, at) is None <==> stage_fine(e));
    lemma_tasks(e.tasks@, at, e.tasks@.len() as int);
    lemma_mounts(e.mounts@, at, e.mounts@.len() as int);
    lemma_endpoints(e.endpoints@, at, known, e.endpoints@.len() as int);
    lemma_variables(e.exec_env@, "["@ + at + ".exec-env]"@, e.exec_env@.len() as int);
    lemma_variables(e.container_env@, "["@ + at + ".container-env]"@, e.container_env@.len() as int);
    assert(machine_error(e, at) is None && e.network.egress != Some(Egress::Restricted) <==> machine_fine(e));
    lemma_opt_hook(e.hooks.init, "["@ + at + ".hooks] init"@);
    lemma_opt_hook(e.hooks.create, "["@ + at + ".hooks] create"@);
    lemma_opt_hook(e.hooks.start, "["@ + at + ".hooks] start"@);
    if let Some(v) = e.editor.vscode {
        lemma_opt_hook(v.reconcile, "["@ + at + ".editor.vscode] reconcile"@);
    }
    assert(hooks_error(e, at) is None <==> (opt_hook_runs(e.hooks.init) && opt_hook_runs(e.hooks.create)
        && opt_hook_runs(e.hooks.start) && (e.editor.vscode matches Some(v) ==> opt_hook_runs(v.reconcile) && (v.home
        matches Some(h) ==> rooted(h@)))));
}

proof fn lemma_features(s: Seq<String>, known: Known, n: int)
    requires
        0 <= n <= s.len(),
    ensures
        features_error(s, known, n) is None <==> forall|i: int|
            0 <= i < n ==> known.features.deep_view().contains((#[trigger] s[i])@),
    decreases n,
{
    if n > 0 {
        lemma_features(s, known, n - 1);
        if features_error(s, known, n) is None {
            assert forall|i: int| 0 <= i < n implies known.features.deep_view().contains((#[trigger] s[i])@) by {
                if i == n - 1 {
                    assert(known.features.deep_view().contains(s[n - 1]@));
                }
            }
        }
    }
}

proof fn lemma_environments(s: Seq<(String, Environment)>, known: Known, n: int)
    requires
        0 <= n <= s.len(),
    ensures
        environments_error(s, known, n) is None <==> forall|i: int|
            0 <= i < n ==> (#[trigger] s[i]).0@ != "dev"@ && names_entry(s[i].0@) && environment_fine(s[i].1, known),
    decreases n,
{
    if n > 0 {
        lemma_environments(s, known, n - 1);
        let (name, e) = (s[n - 1].0@, s[n - 1].1);
        assert(crate::validate::is_name(name) == names_entry(name));
        law_environment_is_accepted(e, "environments."@ + name, known);
        if environments_error(s, known, n) is None {
            assert forall|i: int| 0 <= i < n implies (#[trigger] s[i]).0@ != "dev"@ && names_entry(s[i].0@)
                && environment_fine(s[i].1, known) by {
                if i == n - 1 {
                    assert(environment_fine(e, known));
                }
            }
        }
    }
}

/// A config is accepted exactly where it is of the schema that this `vk` reads, requires a release
/// and features that can be told, and has an environment to work in, all of its environments fine.
pub proof fn law_config_is_accepted(s: Schema, known: Known)
    ensures
        schema_error(s, known) is None <==> {
            &&& s.schema == Some(SCHEMA)
            &&& s.requires.min_version matches Some(v) ==> version_of(v@) is Some
            &&& forall|i: int|
                0 <= i < s.requires.features@.len() ==> known.features.deep_view().contains(
                    (#[trigger] s.requires.features@[i])@,
                )
            &&& s.dev matches Some(e) && environment_fine(e, known)
            &&& forall|i: int|
                0 <= i < s.environments@.len() ==> (#[trigger] s.environments@[i]).0@ != "dev"@ && names_entry(
                    s.environments@[i].0@,
                ) && environment_fine(s.environments@[i].1, known)
        },
{
    lemma_features(s.requires.features@, known, s.requires.features@.len() as int);
    lemma_environments(s.environments@, known, s.environments@.len() as int);
    if let Some(e) = s.dev {
        law_environment_is_accepted(e, "dev"@, known);
    }
}

} // verus!
