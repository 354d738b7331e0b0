//! What an environment is described as.

use crate::config::{Endpoint, Environment, Mount, Policy, Task};
use crate::describe::{
    being_said, description, endpoint_said, endpoints_said, hooks_said, host_said, line, mount_said, mounts_said,
    origin_said, reach_said, source_said, task_said, tasks_said, work_said,
};
use crate::laws::show::{lemma_itself, lemma_seven, lemma_sides, lemma_within};
use crate::laws::words::law_joined;
use crate::loaded::{paragraphs, report, Loaded};
use crate::path::lossy_text;
use crate::text::{contains, decimal, joined, padded};
use vstd::prelude::*;

verus! {

proof fn lemma_four(e: Environment, s: Seq<char>)
    ensures
        contains(origin_said(e), s) || contains(being_said(e), s) || contains(reach_said(e), s) || contains(
            work_said(e),
            s,
        ) ==> contains(description(e), s),
{
    lemma_sides(origin_said(e), being_said(e), s);
    lemma_sides(origin_said(e) + being_said(e), reach_said(e), s);
    lemma_sides(origin_said(e) + being_said(e) + reach_said(e), work_said(e), s);
}

proof fn lemma_line(k: Seq<char>, v: Seq<char>, s: Seq<char>)
    requires
        contains(v, s),
    ensures
        contains(line(k, v), s),
{
    let a = "  "@ + padded(k, 12);
    lemma_sides(a, v, s);
    lemma_sides(a + v, "\n"@, s);
}

/// The text has a line that says this of that.
pub open spec fn tells(t: Seq<char>, k: Seq<char>, v: Seq<char>) -> bool {
    contains(t, "  "@ + padded(k, 12) + v + "\n"@)
}

/// What an environment is made from is described, whole.
pub proof fn law_source_is_described(e: Environment)
    ensures
        ({
            let t = description(e);
            &&& e.compose matches Some(c) ==> (e.service matches Some(s) ==> tells(
                t,
                "source"@,
                "compose "@ + c@ + ", service "@ + s@,
            ))
            &&& e.compose is None ==> (e.image matches Some(i) ==> tells(t, "source"@, "image "@ + i@))
            &&& e.compose is None && e.image is None ==> (e.build matches Some(b) ==> {
                &&& b.context matches Some(c) ==> contains(t, "build "@ + c@)
                &&& b.dockerfile matches Some(d) ==> contains(t, ", "@ + d@)
                &&& b.target matches Some(g) ==> contains(t, ", target "@ + g@)
            })
        }),
{
    let v = source_said(e);
    let l = line("source"@, v);
    lemma_itself(l);
    lemma_origin(e, l);
    lemma_four(e, l);
    if e.compose is None && e.image is None {
        if let Some(b) = e.build {
            let x = "build "@ + crate::describe::or_text(b.context, "?"@);
            let y = crate::describe::led(", "@, b.dockerfile);
            let z = crate::describe::led(", target "@, b.target);
            assert(v == x + y + z);
            lemma_itself(x);
            lemma_itself(y);
            lemma_itself(z);
            lemma_sides(x, y, x);
            lemma_sides(x, y, y);
            lemma_sides(x + y, z, x);
            lemma_sides(x + y, z, y);
            lemma_sides(x + y, z, z);
            lemma_line("source"@, v, x);
            lemma_line("source"@, v, y);
            lemma_line("source"@, v, z);
            lemma_within(description(e), l, x);
            lemma_within(description(e), l, y);
            lemma_within(description(e), l, z);
        }
    }
}

proof fn lemma_origin(e: Environment, s: Seq<char>)
    requires
        contains(line("source"@, source_said(e)), s),
    ensures
        contains(origin_said(e), s),
{
    let a = line("source"@, source_said(e));
    let b = crate::describe::line_if(
        e.cached_only || e.fallback is Some,
        "cached-only"@,
        crate::describe::cached_said(e),
    );
    let c = crate::describe::line_if(e.profiles@.len() > 0, "profiles"@, joined(e.profiles.deep_view(), ", "@));
    lemma_sides(a, b, s);
    lemma_sides(a + b, c, s);
}

/// Who an environment works as, where, and on what is described wherever the config says so.
pub proof fn law_machine_is_described(e: Environment)
    ensures
        ({
            let t = description(e);
            &&& e.workspace matches Some(w) ==> tells(t, "workspace"@, w@)
            &&& e.user matches Some(u) ==> tells(t, "user"@, u@)
            &&& e.cpus is Some || e.mem is Some ==> tells(
                t,
                "size"@,
                "cpus "@ + (match e.cpus {
                    Some(c) => c.spelling(),
                    None => "inherited"@,
                }) + ", mem "@ + (match e.mem {
                    Some(m) => m@,
                    None => "inherited"@,
                }),
            )
            &&& e.exec_env@.len() > 0 || e.container_env@.len() > 0 ==> tells(
                t,
                "env"@,
                decimal(e.exec_env@.len()) + " for sessions, "@ + decimal(e.container_env@.len()) + " for the guest"@,
            )
        }),
{
    let a = crate::describe::line_if(
        e.workspace is Some,
        "workspace"@,
        crate::describe::or_text(e.workspace, Seq::empty()),
    );
    let b = crate::describe::line_if(e.user is Some, "user"@, crate::describe::or_text(e.user, Seq::empty()));
    let c = crate::describe::line_if(e.freshness is Some, "freshness"@, e.freshness->0.spelling());
    let d = crate::describe::line_if(e.cpus is Some || e.mem is Some, "size"@, crate::describe::size_said(e));
    let f = crate::describe::line_if(
        e.exec_env@.len() > 0 || e.container_env@.len() > 0,
        "env"@,
        decimal(e.exec_env@.len()) + " for sessions, "@ + decimal(e.container_env@.len()) + " for the guest"@,
    );
    crate::laws::show::lemma_five(a, b, c, d, f);
    lemma_four(e, a);
    lemma_four(e, b);
    lemma_four(e, d);
    lemma_four(e, f);
}

proof fn lemma_mounts(s: Seq<(String, Mount)>, n: int, i: int)
    requires
        0 <= i < n <= s.len(),
        s[i].1.enabled,
    ensures
        mounts_said(s, n).contains(mount_said(s[i].0@, s[i].1)),
    decreases n,
{
    let had = mounts_said(s, n - 1);
    let now = mounts_said(s, n);
    if i < n - 1 {
        lemma_mounts(s, n - 1, i);
        let x = mount_said(s[i].0@, s[i].1);
        let j = choose|j: int| 0 <= j < had.len() && had[j] == x;
        assert(now[j] == x);
    } else {
        assert(now[had.len() as int] == mount_said(s[i].0@, s[i].1));
    }
}

proof fn lemma_endpoints(s: Seq<(String, Endpoint)>, n: int, i: int)
    requires
        0 <= i < n <= s.len(),
        s[i].1.enabled,
    ensures
        endpoints_said(s, n).contains(endpoint_said(s[i].0@, s[i].1)),
    decreases n,
{
    let had = endpoints_said(s, n - 1);
    let now = endpoints_said(s, n);
    if i < n - 1 {
        lemma_endpoints(s, n - 1, i);
        let x = endpoint_said(s[i].0@, s[i].1);
        let j = choose|j: int| 0 <= j < had.len() && had[j] == x;
        assert(now[j] == x);
    } else {
        assert(now[had.len() as int] == endpoint_said(s[i].0@, s[i].1));
    }
}

proof fn lemma_tasks(s: Seq<(String, Task)>, n: int, i: int)
    requires
        0 <= i < n <= s.len(),
        s[i].1.enabled,
    ensures
        tasks_said(s, n).contains(task_said(s[i].0@, s[i].1)),
    decreases n,
{
    let had = tasks_said(s, n - 1);
    let now = tasks_said(s, n);
    if i < n - 1 {
        lemma_tasks(s, n - 1, i);
        let x = task_said(s[i].0@, s[i].1);
        let j = choose|j: int| 0 <= j < had.len() && had[j] == x;
        assert(now[j] == x);
    } else {
        assert(now[had.len() as int] == task_said(s[i].0@, s[i].1));
    }
}

proof fn lemma_listed(v: Seq<Seq<char>>, k: Seq<char>, x: Seq<char>)
    requires
        v.contains(x),
    ensures
        v.len() > 0,
        contains(line(k, joined(v, ", "@)), x),
{
    let j = choose|j: int| 0 <= j < v.len() && v[j] == x;
    law_joined(v, ", "@, j);
    lemma_line(k, joined(v, ", "@), x);
}

proof fn lemma_reach(e: Environment, s: Seq<char>)
    ensures
        ({
            let m = mounts_said(e.mounts@, e.mounts@.len() as int);
            let p = endpoints_said(e.endpoints@, e.endpoints@.len() as int);
            let t = tasks_said(e.tasks@, e.tasks@.len() as int);
            &&& m.len() > 0 && contains(line("mounts"@, joined(m, ", "@)), s) ==> contains(description(e), s)
            &&& p.len() > 0 && contains(line("endpoints"@, joined(p, ", "@)), s) ==> contains(description(e), s)
            &&& t.len() > 0 && contains(line("tasks"@, joined(t, ", "@)), s) ==> contains(description(e), s)
            &&& hooks_said(e).len() > 0 && contains(line("hooks"@, joined(hooks_said(e), ", "@)), s) ==> contains(
                description(e),
                s,
            )
            &&& host_said(e).len() > 0 && contains(line("host"@, joined(host_said(e), ", "@)), s) ==> contains(
                description(e),
                s,
            )
            &&& e.cache.registry is Some && contains(
                line(
                    "cache"@,
                    e.cache.registry->0@ + crate::describe::text_if(e.cache.insecure, " (insecure)"@),
                ),
                s,
            ) ==> contains(description(e), s)
        }),
{
    let m = mounts_said(e.mounts@, e.mounts@.len() as int);
    let p = endpoints_said(e.endpoints@, e.endpoints@.len() as int);
    let t = tasks_said(e.tasks@, e.tasks@.len() as int);
    let a = crate::describe::line_if(m.len() > 0, "mounts"@, joined(m, ", "@));
    let b = crate::describe::line_if(p.len() > 0, "endpoints"@, joined(p, ", "@));
    let c = crate::describe::line_if(
        e.cache.registry is Some,
        "cache"@,
        crate::describe::or_text(e.cache.registry, Seq::empty()) + crate::describe::text_if(
            e.cache.insecure,
            " (insecure)"@,
        ),
    );
    let d = crate::describe::line_if(host_said(e).len() > 0, "host"@, joined(host_said(e), ", "@));
    lemma_sides(a, b, s);
    lemma_sides(a + b, c, s);
    lemma_sides(a + b + c, d, s);
    let f = crate::describe::line_if(hooks_said(e).len() > 0, "hooks"@, joined(hooks_said(e), ", "@));
    let g = crate::describe::line_if(t.len() > 0, "tasks"@, joined(t, ", "@));
    let h = crate::describe::line_if(e.editor.vscode is Some, "vscode"@, crate::describe::vscode_said(e));
    lemma_sides(f, g, s);
    lemma_sides(f + g, h, s);
    lemma_four(e, s);
}

/// Everything that is switched on is described: each mount with where it goes, each endpoint with
/// what it reaches, each task with where it runs, each hook, and what the guest has of this host.
pub proof fn law_what_is_on_is_described(e: Environment, i: int)
    ensures
        ({
            let t = description(e);
            &&& 0 <= i < e.mounts@.len() && e.mounts@[i].1.enabled ==> (e.mounts@[i].1.to matches Some(to) ==> contains(
                t,
                e.mounts@[i].0@ + " -> "@ + to@ + (if e.mounts@[i].1.read_only {
                    " (ro)"@
                } else {
                    Seq::empty()
                }),
            ))
            &&& 0 <= i < e.endpoints@.len() && e.endpoints@[i].1.enabled ==> (e.endpoints@[i].1.target matches Some(n)
                ==> contains(
                t,
                e.endpoints@[i].0@ + " ("@ + (match e.endpoints@[i].1.service {
                    Some(s) => s@,
                    None => "primary"@,
                }) + ":"@ + decimal(n as nat) + (if e.endpoints@[i].1.required {
                    ", required"@
                } else {
                    Seq::empty()
                }) + ")"@,
            ))
            &&& 0 <= i < e.tasks@.len() && e.tasks@[i].1.enabled ==> contains(
                t,
                e.tasks@[i].0@ + " ("@ + (match e.tasks@[i].1.policy {
                    Some(Policy::Reuse) => "reuse"@,
                    Some(Policy::Require) => "require"@,
                    Some(Policy::Ephemeral) => "ephemeral"@,
                    _ => "reuse-or-ephemeral"@,
                }) + " in "@ + (match e.tasks@[i].1.environment {
                    Some(n) => n@,
                    None => "dev"@,
                }) + ")"@,
            )
            &&& e.hooks.init is Some ==> contains(t, "init"@)
            &&& e.hooks.create is Some ==> contains(t, "create"@)
            &&& e.hooks.start is Some ==> contains(t, "start"@)
            &&& e.host.git_gui ==> contains(t, "git-gui"@)
            &&& e.host.ssh_agent ==> contains(t, "ssh-agent"@)
            &&& e.host.wrapper matches Some(w) ==> contains(t, "wrapper "@ + w@)
            &&& e.cache.registry matches Some(r) ==> contains(t, r@)
        }),
{
    let m = e.mounts@;
    let p = e.endpoints@;
    let k = e.tasks@;
    if 0 <= i < m.len() && m[i].1.enabled {
        let x = mount_said(m[i].0@, m[i].1);
        lemma_mounts(m, m.len() as int, i);
        lemma_listed(mounts_said(m, m.len() as int), "mounts"@, x);
        lemma_reach(e, x);
    }
    if 0 <= i < p.len() && p[i].1.enabled {
        let x = endpoint_said(p[i].0@, p[i].1);
        lemma_endpoints(p, p.len() as int, i);
        lemma_listed(endpoints_said(p, p.len() as int), "endpoints"@, x);
        lemma_reach(e, x);
    }
    if 0 <= i < k.len() && k[i].1.enabled {
        let x = task_said(k[i].0@, k[i].1);
        lemma_tasks(k, k.len() as int, i);
        lemma_listed(tasks_said(k, k.len() as int), "tasks"@, x);
        lemma_reach(e, x);
    }
    let h = hooks_said(e);
    let o = host_said(e);
    if e.hooks.init is Some {
        assert(h[0] == "init"@);
        lemma_listed(h, "hooks"@, "init"@);
        lemma_reach(e, "init"@);
    }
    if e.hooks.create is Some {
        assert(h[if e.hooks.init is Some { 1int } else { 0int }] == "create"@);
        lemma_listed(h, "hooks"@, "create"@);
        lemma_reach(e, "create"@);
    }
    if e.hooks.start is Some {
        assert(h[h.len() - 1] == "start"@);
        lemma_listed(h, "hooks"@, "start"@);
        lemma_reach(e, "start"@);
    }
    if e.host.git_gui {
        assert(o[0] == "git-gui"@);
        lemma_listed(o, "host"@, "git-gui"@);
        lemma_reach(e, "git-gui"@);
    }
    if e.host.ssh_agent {
        assert(o[if e.host.git_gui { 1int } else { 0int }] == "ssh-agent"@);
        lemma_listed(o, "host"@, "ssh-agent"@);
        lemma_reach(e, "ssh-agent"@);
    }
    if let Some(w) = e.host.wrapper {
        assert(o[o.len() - 1] == "wrapper "@ + w@);
        lemma_listed(o, "host"@, "wrapper "@ + w@);
        lemma_reach(e, "wrapper "@ + w@);
    }
    if let Some(r) = e.cache.registry {
        let v = r@ + crate::describe::text_if(e.cache.insecure, " (insecure)"@);
        lemma_itself(r@);
        lemma_sides(r@, crate::describe::text_if(e.cache.insecure, " (insecure)"@), r@);
        lemma_line("cache"@, v, r@);
        lemma_reach(e, r@);
    }
}

proof fn lemma_paragraphs(s: Seq<(String, Environment)>, n: int, i: int)
    requires
        0 <= i < n <= s.len(),
    ensures
        contains(paragraphs(s, n), "\n["@ + s[i].0@ + "]\n"@ + description(s[i].1)),
    decreases n,
{
    let x = "\n["@ + s[i].0@ + "]\n"@ + description(s[i].1);
    let last = "\n["@ + s[n - 1].0@ + "]\n"@ + description(s[n - 1].1);
    lemma_sides(paragraphs(s, n - 1), last, x);
    if i < n - 1 {
        lemma_paragraphs(s, n - 1, i);
    } else {
        lemma_itself(x);
    }
}

/// A config that is sound is reported with what it requires and a description of every environment
/// it has.
pub proof fn law_report_describes_each(l: Loaded, i: int)
    ensures
        ({
            let t = report(l);
            &&& contains(t, lossy_text(l.files.config.deep_view()) + ": ok\n"@)
            &&& l.files.local matches Some(p) ==> contains(t, "  with "@ + lossy_text(p.deep_view()) + "\n"@)
            &&& l.schema.requires.min_version matches Some(v) ==> contains(t, "  requires vk "@ + v@ + "\n"@)
            &&& l.schema.dev matches Some(e) ==> contains(t, "\n["@ + "dev"@ + "]\n"@ + description(e))
            &&& 0 <= i < l.schema.environments@.len() ==> contains(
                t,
                "\n["@ + l.schema.environments@[i].0@ + "]\n"@ + description(l.schema.environments@[i].1),
            )
        }),
{
    let a = lossy_text(l.files.config.deep_view()) + ": ok\n"@;
    let b = match l.files.local {
        Some(p) => "  with "@ + lossy_text(p.deep_view()) + "\n"@,
        None => Seq::empty(),
    };
    let c = if l.env_file@.len() > 0 {
        "  "@ + decimal(l.env_file@.len()) + " local value(s) for ${localEnv:…}\n"@
    } else {
        Seq::empty()
    };
    let d = match l.schema.requires.min_version {
        Some(v) => "  requires vk "@ + v@ + "\n"@,
        None => Seq::empty(),
    };
    let e = if l.schema.requires.features@.len() > 0 {
        "  requires features "@ + joined(l.schema.requires.features.deep_view(), ", "@) + "\n"@
    } else {
        Seq::empty()
    };
    let f = match l.schema.dev {
        Some(e) => "\n["@ + "dev"@ + "]\n"@ + description(e),
        None => Seq::empty(),
    };
    let s = l.schema.environments@;
    let g = paragraphs(s, s.len() as int);
    lemma_itself(a);
    lemma_itself(b);
    lemma_itself(d);
    lemma_itself(f);
    lemma_seven(a, b, c, d, e, f, g, a);
    lemma_seven(a, b, c, d, e, f, g, b);
    lemma_seven(a, b, c, d, e, f, g, d);
    lemma_seven(a, b, c, d, e, f, g, f);
    if 0 <= i < s.len() {
        lemma_paragraphs(s, s.len() as int, i);
        lemma_seven(a, b, c, d, e, f, g, "\n["@ + s[i].0@ + "]\n"@ + description(s[i].1));
    }
}

} // verus!
