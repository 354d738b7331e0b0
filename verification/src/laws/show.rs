//! What a plan's command says.

use crate::config::{Cpus, Nested, Policy};
use crate::draft::comment_lines;
use crate::path::text_of_bytes;
use crate::plan::{
    hook_said, mount_spec, words_shown, CommandView, EndpointView, EnvVarView, HookCommandView, HookView, MountView,
    PlanView, SourceView, TaskView,
};
use crate::render::{
    arg_line, build_arg_lines, comment_block, comment_part, endpoint_comment, endpoint_comments, env_lines, flag_lines,
    hook_comment, machine_lines, mount_lines, opt_line, profile_lines, shell_text, source_lines, task_comment,
    task_comments, without_breaks, wrapper_lines,
};
use crate::shell::word;
use crate::text::{begins, contains, decimal, joined_upto, lemma_next_char, next_char, occurs_at, pieces};
use vstd::prelude::*;

verus! {

/// The text has a line with this flag and this value, quoted for a shell.
pub open spec fn passes(t: Seq<char>, flag: Seq<char>, value: Seq<char>) -> bool {
    contains(t, "  "@ + flag + " "@ + word(value) + " \\\n"@)
}

pub proof fn lemma_part(a: Seq<char>, s: Seq<char>, b: Seq<char>)
    ensures
        contains(a + s + b, s),
{
    assert((a + s + b).subrange(a.len() as int, a.len() as int + s.len()) =~= s);
    assert(occurs_at(a + s + b, s, a.len() as int));
}

pub proof fn lemma_within(t: Seq<char>, m: Seq<char>, s: Seq<char>)
    requires
        contains(t, m),
        contains(m, s),
    ensures
        contains(t, s),
{
    let i = choose|i: int| occurs_at(t, m, i);
    let j = choose|j: int| occurs_at(m, s, j);
    assert(t.subrange(i + j, i + j + s.len()) =~= t.subrange(i, i + m.len()).subrange(j, j + s.len()));
    assert(occurs_at(t, s, i + j));
}

pub proof fn lemma_sides(a: Seq<char>, b: Seq<char>, s: Seq<char>)
    ensures
        contains(a, s) ==> contains(a + b, s),
        contains(b, s) ==> contains(a + b, s),
{
    let e = Seq::<char>::empty();
    lemma_part(e, a, b);
    lemma_part(a, b, e);
    assert(e + a + b =~= a + b);
    assert(a + b + e =~= a + b);
    if contains(a, s) {
        lemma_within(a + b, a, s);
    }
    if contains(b, s) {
        lemma_within(a + b, b, s);
    }
}

pub proof fn lemma_itself(s: Seq<char>)
    ensures
        contains(s, s),
{
    let e = Seq::<char>::empty();
    lemma_part(e, s, e);
    assert(e + s + e =~= s);
}

proof fn lemma_env(v: Seq<EnvVarView>, n: int, i: int)
    requires
        0 <= i < n <= v.len(),
    ensures
        passes(env_lines(v, n), "--env"@, v[i].name + "="@ + v[i].value),
    decreases n,
{
    let s = arg_line("--env"@, v[i].name + "="@ + v[i].value);
    let last = arg_line("--env"@, v[n - 1].name + "="@ + v[n - 1].value);
    lemma_sides(env_lines(v, n - 1), last, s);
    if i < n - 1 {
        lemma_env(v, n - 1, i);
    } else {
        lemma_itself(s);
    }
}

proof fn lemma_mounts(m: Seq<MountView>, n: int, i: int)
    requires
        0 <= i < n <= m.len(),
        mount_lines(m, n) is Ok,
    ensures
        mount_spec(m[i]) is Ok,
        passes(mount_lines(m, n)->Ok_0, "-v"@, mount_spec(m[i])->Ok_0),
    decreases n,
{
    if i < n - 1 {
        lemma_mounts(m, n - 1, i);
    } else {
        lemma_itself(arg_line("-v"@, mount_spec(m[i])->Ok_0));
    }
    let s = arg_line("-v"@, mount_spec(m[i])->Ok_0);
    let last = arg_line("-v"@, mount_spec(m[n - 1])->Ok_0);
    lemma_sides(mount_lines(m, n - 1)->Ok_0, last, s);
}

proof fn lemma_profiles(p: Seq<Seq<char>>, n: int, i: int)
    requires
        0 <= i < n <= p.len(),
    ensures
        passes(profile_lines(p, n), "--profile"@, p[i]),
    decreases n,
{
    let s = arg_line("--profile"@, p[i]);
    lemma_sides(profile_lines(p, n - 1), arg_line("--profile"@, p[n - 1]), s);
    if i < n - 1 {
        lemma_profiles(p, n - 1, i);
    } else {
        lemma_itself(s);
    }
}

proof fn lemma_build_args(a: Seq<(Seq<char>, Seq<char>)>, n: int, i: int)
    requires
        0 <= i < n <= a.len(),
    ensures
        passes(build_arg_lines(a, n), "--build-arg"@, a[i].0 + "="@ + a[i].1),
    decreases n,
{
    let s = arg_line("--build-arg"@, a[i].0 + "="@ + a[i].1);
    lemma_sides(build_arg_lines(a, n - 1), arg_line("--build-arg"@, a[n - 1].0 + "="@ + a[n - 1].1), s);
    if i < n - 1 {
        lemma_build_args(a, n - 1, i);
    } else {
        lemma_itself(s);
    }
}

/// The parts a command is made of all stand in it.
proof fn lemma_parts(p: PlanView, host_offers: bool, s: Seq<char>)
    requires
        shell_text(p, host_offers) is Ok,
    ensures
        ({
            let t = shell_text(p, host_offers)->Ok_0;
            let workspace = text_of_bytes(p.workspace);
            let state = text_of_bytes(p.state_dir);
            &&& workspace is Some && state is Some
            &&& source_lines(p.source) is Ok && contains(source_lines(p.source)->Ok_0, s) ==> contains(t, s)
            &&& contains(machine_lines(p, workspace->0, state->0), s) ==> contains(t, s)
            &&& mount_lines(p.mounts, p.mounts.len() as int) is Ok
            &&& contains(mount_lines(p.mounts, p.mounts.len() as int)->Ok_0, s) ==> contains(t, s)
            &&& contains(env_lines(p.container_env, p.container_env.len() as int), s) ==> contains(t, s)
            &&& wrapper_lines(p.host_exec) is Ok
            &&& contains(wrapper_lines(p.host_exec)->Ok_0, s) ==> contains(t, s)
            &&& contains(flag_lines(p, host_offers), s) ==> contains(t, s)
            &&& contains(comment_part(p, state->0), s) ==> contains(t, s)
        }),
{
    let workspace = text_of_bytes(p.workspace)->0;
    let state = text_of_bytes(p.state_dir)->0;
    let a = "vk run \\\n"@;
    let b = source_lines(p.source)->Ok_0;
    let c = machine_lines(p, workspace, state);
    let d = mount_lines(p.mounts, p.mounts.len() as int)->Ok_0;
    let e = env_lines(p.container_env, p.container_env.len() as int);
    let f = wrapper_lines(p.host_exec)->Ok_0;
    let g = flag_lines(p, host_offers);
    let h = comment_part(p, state);
    lemma_sides(a, b, s);
    lemma_sides(a + b, c, s);
    lemma_sides(a + b + c, d, s);
    lemma_sides(a + b + c + d, e, s);
    lemma_sides(f, g, s);
    lemma_sides(f + g, h, s);
    lemma_sides(a + b + c + d + e, f + g + h, s);
}

/// How a mount is spelled: where it is, where it goes, and how.
pub open spec fn spelled_mount(m: MountView) -> Seq<char> {
    text_of_bytes(m.source)->0 + ":"@ + m.to + (if m.read_only && m.optional {
        ":ro,optional"@
    } else if m.read_only {
        ":ro"@
    } else if m.optional {
        ":rw,optional"@
    } else {
        ""@
    })
}

/// Every variable of the guest and every mount of a plan is in its command.
pub proof fn law_command_carries_each(p: PlanView, host_offers: bool, i: int)
    ensures
        shell_text(p, host_offers) matches Ok(t) ==> {
            &&& 0 <= i < p.container_env.len() ==> passes(
                t,
                "--env"@,
                p.container_env[i].name + "="@ + p.container_env[i].value,
            )
            &&& 0 <= i < p.mounts.len() ==> text_of_bytes(p.mounts[i].source) is Some && passes(
                t,
                "-v"@,
                spelled_mount(p.mounts[i]),
            )
        },
{
    if shell_text(p, host_offers) is Ok {
        let e = p.container_env;
        let m = p.mounts;
        if 0 <= i < e.len() {
            lemma_env(e, e.len() as int, i);
            lemma_parts(p, host_offers, arg_line("--env"@, e[i].name + "="@ + e[i].value));
        }
        if 0 <= i < m.len() {
            lemma_parts(p, host_offers, Seq::empty());
            lemma_mounts(m, m.len() as int, i);
            assert(mount_spec(m[i])->Ok_0 == spelled_mount(m[i]));
            lemma_parts(p, host_offers, arg_line("-v"@, mount_spec(m[i])->Ok_0));
        }
    }
}

/// What an environment is made from is in its command, whole.
pub proof fn law_command_names_its_source(p: PlanView, host_offers: bool, i: int)
    ensures
        shell_text(p, host_offers) matches Ok(t) ==> match p.source {
            SourceView::Image { reference } => passes(t, "--image"@, reference),
            SourceView::Compose { file, service, profiles } => {
                &&& text_of_bytes(file) matches Some(f) && passes(t, "--compose"@, f)
                &&& passes(t, "--primary"@, service)
                &&& 0 <= i < profiles.len() ==> passes(t, "--profile"@, profiles[i])
            },
            SourceView::Build { context, dockerfile, target, args } => {
                &&& text_of_bytes(dockerfile) matches Some(d) && passes(t, "--file"@, d)
                &&& text_of_bytes(context) matches Some(c) && passes(t, "--context"@, c)
                &&& target matches Some(s) ==> passes(t, "--target"@, s)
                &&& 0 <= i < args.len() ==> passes(t, "--build-arg"@, args[i].0 + "="@ + args[i].1)
            },
        },
{
    if shell_text(p, host_offers) is Ok {
        match p.source {
            SourceView::Image { reference } => {
                let s = arg_line("--image"@, reference);
                lemma_itself(s);
                lemma_parts(p, host_offers, s);
            },
            SourceView::Compose { file, service, profiles } => {
                let a = arg_line("--compose"@, text_of_bytes(file)->0);
                let b = arg_line("--primary"@, service);
                let c = profile_lines(profiles, profiles.len() as int);
                lemma_itself(a);
                lemma_itself(b);
                lemma_sides(a, b, a);
                lemma_sides(a, b, b);
                lemma_sides(a + b, c, a);
                lemma_sides(a + b, c, b);
                lemma_parts(p, host_offers, a);
                lemma_parts(p, host_offers, b);
                if 0 <= i < profiles.len() {
                    let s = arg_line("--profile"@, profiles[i]);
                    lemma_profiles(profiles, profiles.len() as int, i);
                    lemma_sides(a + b, c, s);
                    lemma_parts(p, host_offers, s);
                }
            },
            SourceView::Build { context, dockerfile, target, args } => {
                let a = arg_line("--file"@, text_of_bytes(dockerfile)->0);
                let b = arg_line("--context"@, text_of_bytes(context)->0);
                let c = opt_line("--target"@, target);
                let d = build_arg_lines(args, args.len() as int);
                lemma_itself(a);
                lemma_itself(b);
                lemma_itself(c);
                lemma_sides(a, b, a);
                lemma_sides(a, b, b);
                lemma_sides(a + b, c, a);
                lemma_sides(a + b, c, b);
                lemma_sides(a + b, c, c);
                lemma_sides(a + b + c, d, a);
                lemma_sides(a + b + c, d, b);
                lemma_sides(a + b + c, d, c);
                lemma_parts(p, host_offers, a);
                lemma_parts(p, host_offers, b);
                lemma_parts(p, host_offers, c);
                if 0 <= i < args.len() {
                    let s = arg_line("--build-arg"@, args[i].0 + "="@ + args[i].1);
                    lemma_build_args(args, args.len() as int, i);
                    lemma_sides(a + b + c, d, s);
                    lemma_parts(p, host_offers, s);
                }
            },
        }
    }
}

/// The machine a plan asks for is in its command: its directories, its size, the checkout where no
/// compose file places it, and the user, registry and wrapper where the plan has them.
pub proof fn law_command_describes_the_machine(p: PlanView, host_offers: bool)
    ensures
        shell_text(p, host_offers) matches Ok(t) ==> {
            &&& text_of_bytes(p.workspace) matches Some(w) && passes(t, "--workspace"@, w) && (
            p.workspace_folder is Some && !(p.source is Compose) ==> passes(
                t,
                "-v"@,
                w + ":"@ + p.workspace_folder->0,
            ))
            &&& text_of_bytes(p.state_dir) matches Some(s) && passes(t, "--state-dir"@, s)
            &&& p.mem matches Some(m) ==> passes(t, "--mem"@, m)
            &&& p.cpus matches Some(Cpus::Count(n)) ==> passes(t, "--cpus"@, decimal(n as nat))
            &&& p.cpus == Some(Cpus::Host) ==> passes(t, "--cpus"@, "host"@)
            &&& p.user matches Some(u) ==> passes(t, "--ssh-user"@, u)
            &&& p.cache.registry matches Some(r) ==> passes(t, "--cache-registry"@, r)
            &&& p.host_exec matches Some(h) ==> text_of_bytes(h.wrapper) is Some && passes(
                t,
                "--host-exec-wrapper"@,
                text_of_bytes(h.wrapper)->0,
            )
            &&& p.ssh_agent ==> contains(t, "  --ssh-agent \\\n"@)
            &&& p.cached_only ==> contains(t, "  --require-cached \\\n"@)
            &&& p.nested == Nested::Required || p.nested == Nested::Auto && host_offers ==> contains(
                t,
                "  --nested \\\n"@,
            )
        },
{
    if shell_text(p, host_offers) is Ok {
        lemma_parts(p, host_offers, Seq::empty());
        let w = text_of_bytes(p.workspace)->0;
        let st = text_of_bytes(p.state_dir)->0;
        let a = arg_line("--workspace"@, w);
        let b = arg_line("--state-dir"@, st);
        let c = match p.cpus {
            Some(c) => arg_line("--cpus"@, c.spelling()),
            None => ""@,
        };
        let d = opt_line("--mem"@, p.mem);
        let e = if p.source is Compose || p.workspace_folder is None {
            ""@
        } else {
            arg_line("-v"@, w + ":"@ + p.workspace_folder->0)
        };
        assert(machine_lines(p, w, st) == a + b + c + d + e);
        lemma_five(a, b, c, d, e);
        lemma_parts(p, host_offers, a);
        lemma_parts(p, host_offers, b);
        lemma_parts(p, host_offers, c);
        lemma_parts(p, host_offers, d);
        lemma_parts(p, host_offers, e);
        let f = opt_line("--cache-registry"@, p.cache.registry);
        let g = opt_line("--ssh-user"@, p.user);
        let h = if p.ssh_agent {
            "  --ssh-agent \\\n"@
        } else {
            ""@
        };
        let i = if crate::plan::nests(p.nested, host_offers) {
            "  --nested \\\n"@
        } else {
            ""@
        };
        let j = if p.cached_only {
            "  --require-cached \\\n"@
        } else {
            ""@
        };
        let k = "  --ssh-client\n"@;
        assert(flag_lines(p, host_offers) == f + g + h + i + j + k);
        lemma_five(f, g, h, i, j);
        lemma_sides(f + g + h + i + j, k, f);
        lemma_sides(f + g + h + i + j, k, g);
        lemma_sides(f + g + h + i + j, k, h);
        lemma_sides(f + g + h + i + j, k, i);
        lemma_sides(f + g + h + i + j, k, j);
        lemma_parts(p, host_offers, f);
        lemma_parts(p, host_offers, g);
        lemma_parts(p, host_offers, h);
        lemma_parts(p, host_offers, i);
        lemma_parts(p, host_offers, j);
        if let Some(x) = p.host_exec {
            let l = arg_line("--host-exec-wrapper"@, text_of_bytes(x.wrapper)->0);
            lemma_itself(l);
            lemma_parts(p, host_offers, l);
        }
    }
}

pub proof fn lemma_five(a: Seq<char>, b: Seq<char>, c: Seq<char>, d: Seq<char>, e: Seq<char>)
    ensures
        contains(a + b + c + d + e, a),
        contains(a + b + c + d + e, b),
        contains(a + b + c + d + e, c),
        contains(a + b + c + d + e, d),
        contains(a + b + c + d + e, e),
{
    let n = Seq::<char>::empty();
    lemma_part(n, a, b + c + d + e);
    lemma_part(a, b, c + d + e);
    lemma_part(a + b, c, d + e);
    lemma_part(a + b + c, d, e);
    lemma_part(a + b + c + d, e, n);
    let t = a + b + c + d + e;
    assert(n + a + (b + c + d + e) =~= t);
    assert(a + b + (c + d + e) =~= t);
    assert(a + b + c + (d + e) =~= t);
    assert(t + n =~= t);
}

/// A plan that asks for nothing but an image gets a command that passes nothing else.
pub proof fn law_command_of_a_bare_image(p: PlanView, host_offers: bool)
    requires
        p.source is Image,
        p.cpus is None && p.mem is None && p.workspace_folder is None && p.user is None && p.cache.registry is None,
        p.mounts.len() == 0 && p.container_env.len() == 0 && p.tasks.len() == 0 && p.endpoints.len() == 0,
        p.host_exec is None && !p.ssh_agent && !p.cached_only && p.fallback_target is None,
        p.hooks.init is None && p.hooks.create is None && p.hooks.start is None,
        p.nested == Nested::Off || p.nested == Nested::Auto && !host_offers,
        text_of_bytes(p.workspace) is Some && text_of_bytes(p.state_dir) is Some,
    ensures
        shell_text(p, host_offers) == Ok::<Seq<char>, Seq<char>>(
            "vk run \\\n"@ + ("  "@ + "--image"@ + " "@ + word(p.source->Image_reference) + " \\\n"@) + ("  "@
                + "--workspace"@ + " "@ + word(text_of_bytes(p.workspace)->0) + " \\\n"@) + ("  "@ + "--state-dir"@
                + " "@ + word(text_of_bytes(p.state_dir)->0) + " \\\n"@) + "  --ssh-client\n"@,
        ),
{
    reveal_strlit("");
    let t = shell_text(p, host_offers)->Ok_0;
    assert(comment_part(p, text_of_bytes(p.state_dir)->0) =~= ""@);
    assert(flag_lines(p, host_offers) =~= "  --ssh-client\n"@);
    assert(t =~= "vk run \\\n"@ + arg_line("--image"@, p.source->Image_reference) + arg_line(
        "--workspace"@,
        text_of_bytes(p.workspace)->0,
    ) + arg_line("--state-dir"@, text_of_bytes(p.state_dir)->0) + "  --ssh-client\n"@);
}

/// A command that is shown is owed wherever every path in the plan is text.
pub proof fn law_command_is_owed(p: PlanView, host_offers: bool)
    requires
        text_of_bytes(p.workspace) is Some,
        text_of_bytes(p.state_dir) is Some,
        p.source matches SourceView::Compose { file, .. } ==> text_of_bytes(file) is Some,
        p.source matches SourceView::Build { context, dockerfile, .. } ==> text_of_bytes(context) is Some
            && text_of_bytes(dockerfile) is Some,
        forall|i: int| 0 <= i < p.mounts.len() ==> text_of_bytes((#[trigger] p.mounts[i]).source) is Some,
        p.host_exec matches Some(h) ==> text_of_bytes(h.wrapper) is Some,
    ensures
        shell_text(p, host_offers) is Ok,
{
    lemma_mounts_owed(p.mounts, p.mounts.len() as int);
}

proof fn lemma_mounts_owed(m: Seq<MountView>, n: int)
    requires
        0 <= n <= m.len(),
        forall|i: int| 0 <= i < m.len() ==> text_of_bytes((#[trigger] m[i]).source) is Some,
    ensures
        mount_lines(m, n) is Ok,
    decreases n,
{
    if n > 0 {
        lemma_mounts_owed(m, n - 1);
        assert(text_of_bytes(m[n - 1].source) is Some);
    }
}

proof fn lemma_one_line(s: Seq<char>)
    requires
        !s.contains('\n'),
    ensures
        comment_block(s) == "# "@ + s + "\n"@,
{
    if s.len() > 0 && s.last() == '\n' {
        assert(s.contains(s[s.len() - 1]));
    }
    assert(without_breaks(s) == s);
    lemma_next_char(s, '\n', 0);
    let at = next_char(s, '\n', 0);
    if at < s.len() {
        assert(s.contains(s[at]));
    }
    assert(s.subrange(0, s.len() as int) =~= s);
    assert(pieces(s, '\n') =~= seq![s]);
    reveal_with_fuel(comment_lines, 2);
    reveal_strlit("");
    assert(comment_lines(seq![s], 1) =~= "# "@ + s + "\n"@);
}

/// Words are shown in order, each quoted for a shell, with a space between.
pub proof fn law_words_in_order(a: Seq<Seq<char>>, x: Seq<char>)
    ensures
        words_shown(seq![x]) == word(x),
        a.len() > 0 ==> words_shown(a.push(x)) == words_shown(a) + " "@ + word(x),
{
    let one = seq![x];
    assert(Seq::new(one.len(), |i: int| word(one[i])) =~= seq![word(x)]);
    reveal_with_fuel(joined_upto, 3);
    let w = Seq::new(a.len(), |i: int| word(a[i]));
    let b = a.push(x);
    assert(Seq::new(b.len(), |i: int| word(b[i])) =~= w.push(word(x)));
    lemma_joined_kept(w, w.push(word(x)), " "@, a.len() as int);
}

proof fn lemma_joined_kept(a: Seq<Seq<char>>, b: Seq<Seq<char>>, sep: Seq<char>, n: int)
    requires
        0 <= n <= a.len() <= b.len(),
        forall|i: int| 0 <= i < a.len() ==> a[i] == #[trigger] b[i],
    ensures
        joined_upto(a, sep, n) == joined_upto(b, sep, n),
    decreases n,
{
    if n > 0 {
        lemma_joined_kept(a, b, sep, n - 1);
        assert(a[n - 1] == b[n - 1]);
    }
}

/// How a task is told of: its command, and where it runs.
pub open spec fn told_task(t: TaskView) -> Seq<char> {
    "vk dev task "@ + word(t.name) + ": "@ + words_shown(t.argv) + (" ("@ + (match t.policy {
        Policy::Reuse => "reuse"@,
        Policy::Require => "require"@,
        Policy::Ephemeral => "ephemeral"@,
        Policy::ReuseOrEphemeral => "reuse-or-ephemeral"@,
    }) + " in "@ + word(t.environment) + ")"@)
}

/// How an endpoint is told of: as what publishes it.
pub open spec fn told_endpoint(e: EndpointView, state: Seq<char>) -> Seq<char> {
    "vk publish ensure "@ + word(state) + " --name "@ + word(e.name) + (" --listen "@ + word(e.listen) + " --to "@ + word(
        e.to,
    )) + (if e.required {
        "  # required"@
    } else {
        ""@
    })
}

/// The text has this line, as a comment; where it is one line.
pub open spec fn remarks(t: Seq<char>, line: Seq<char>) -> bool {
    !line.contains('\n') ==> contains(t, "# "@ + line + "\n"@)
}

proof fn lemma_tasks(v: Seq<TaskView>, n: int, i: int)
    requires
        0 <= i < n <= v.len(),
    ensures
        contains(task_comments(v, n), task_comment(v[i])),
    decreases n,
{
    lemma_sides(task_comments(v, n - 1), task_comment(v[n - 1]), task_comment(v[i]));
    if i < n - 1 {
        lemma_tasks(v, n - 1, i);
    } else {
        lemma_itself(task_comment(v[i]));
    }
}

proof fn lemma_endpoints(v: Seq<EndpointView>, state: Seq<char>, n: int, i: int)
    requires
        0 <= i < n <= v.len(),
    ensures
        contains(endpoint_comments(v, state, n), endpoint_comment(v[i], state)),
    decreases n,
{
    lemma_sides(endpoint_comments(v, state, n - 1), endpoint_comment(v[n - 1], state), endpoint_comment(v[i], state));
    if i < n - 1 {
        lemma_endpoints(v, state, n - 1, i);
    } else {
        lemma_itself(endpoint_comment(v[i], state));
    }
}

pub proof fn lemma_seven(
    a: Seq<char>,
    b: Seq<char>,
    c: Seq<char>,
    d: Seq<char>,
    e: Seq<char>,
    f: Seq<char>,
    g: Seq<char>,
    s: Seq<char>,
)
    ensures
        contains(a, s) || contains(b, s) || contains(c, s) || contains(d, s) || contains(e, s) || contains(f, s)
            || contains(g, s) ==> contains(a + b + c + d + e + f + g, s),
{
    lemma_sides(a, b, s);
    lemma_sides(a + b, c, s);
    lemma_sides(a + b + c, d, s);
    lemma_sides(a + b + c + d, e, s);
    lemma_sides(a + b + c + d + e, f, s);
    lemma_sides(a + b + c + d + e + f, g, s);
}

/// A comment's part of the command.
proof fn lemma_remark(p: PlanView, host_offers: bool, s: Seq<char>)
    requires
        shell_text(p, host_offers) is Ok,
    ensures
        ({
            let t = shell_text(p, host_offers)->Ok_0;
            let state = text_of_bytes(p.state_dir)->0;
            &&& contains(task_comments(p.tasks, p.tasks.len() as int), s) ==> contains(t, s)
            &&& contains(endpoint_comments(p.endpoints, state, p.endpoints.len() as int), s) ==> contains(t, s)
            &&& contains(hook_comment("hooks.init (host, before the boot)"@, p.hooks.init), s) ==> contains(t, s)
            &&& contains(hook_comment("hooks.create (guest, once per generation)"@, p.hooks.create), s) ==> contains(t, s)
            &&& contains(hook_comment("hooks.start (guest, each start)"@, p.hooks.start), s) ==> contains(t, s)
            &&& p.fallback_target matches Some(x) ==> (contains(
                comment_block("on a cache miss: the same, --target "@ + x),
                s,
            ) ==> contains(t, s))
        }),
{
    let state = text_of_bytes(p.state_dir)->0;
    let a = match p.host_exec {
        Some(h) => match h.builtin {
            Some(b) => comment_block("the wrapper is generated at boot: vk's built-in "@ + b + " policy"@),
            None => ""@,
        },
        None => ""@,
    };
    let b = match p.fallback_target {
        Some(t) => comment_block("on a cache miss: the same, --target "@ + t),
        None => ""@,
    };
    lemma_seven(
        a,
        b,
        task_comments(p.tasks, p.tasks.len() as int),
        endpoint_comments(p.endpoints, state, p.endpoints.len() as int),
        hook_comment("hooks.init (host, before the boot)"@, p.hooks.init),
        hook_comment("hooks.create (guest, once per generation)"@, p.hooks.create),
        hook_comment("hooks.start (guest, each start)"@, p.hooks.start),
        s,
    );
    lemma_parts(p, host_offers, s);
}

/// The steps around the boot follow the command as comments: each task, each endpoint, each hook,
/// and what a missed cache falls back to.
pub proof fn law_command_tells_the_steps(p: PlanView, host_offers: bool, i: int)
    ensures
        shell_text(p, host_offers) matches Ok(t) ==> {
            &&& 0 <= i < p.tasks.len() ==> remarks(t, told_task(p.tasks[i]))
            &&& 0 <= i < p.endpoints.len() ==> remarks(t, told_endpoint(p.endpoints[i], text_of_bytes(p.state_dir)->0))
            &&& p.fallback_target matches Some(x) ==> remarks(t, "on a cache miss: the same, --target "@ + x)
            &&& p.hooks.init matches Some(h) ==> remarks(t, "hooks.init (host, before the boot)"@ + ": "@ + hook_said(h))
            &&& p.hooks.create matches Some(h) ==> remarks(
                t,
                "hooks.create (guest, once per generation)"@ + ": "@ + hook_said(h),
            )
            &&& p.hooks.start matches Some(h) ==> remarks(t, "hooks.start (guest, each start)"@ + ": "@ + hook_said(h))
        },
{
    if shell_text(p, host_offers) is Ok {
        let state = text_of_bytes(p.state_dir)->0;
        if 0 <= i < p.tasks.len() {
            let s = told_task(p.tasks[i]);
            lemma_tasks(p.tasks, p.tasks.len() as int, i);
            lemma_remark(p, host_offers, task_comment(p.tasks[i]));
            if !s.contains('\n') {
                lemma_one_line(s);
            }
        }
        if 0 <= i < p.endpoints.len() {
            let s = told_endpoint(p.endpoints[i], state);
            lemma_endpoints(p.endpoints, state, p.endpoints.len() as int, i);
            lemma_remark(p, host_offers, endpoint_comment(p.endpoints[i], state));
            if !s.contains('\n') {
                lemma_one_line(s);
            }
        }
        if let Some(x) = p.fallback_target {
            lemma_step(p, host_offers, "on a cache miss: the same, --target "@ + x);
        }
        if let Some(h) = p.hooks.init {
            lemma_step(p, host_offers, "hooks.init (host, before the boot)"@ + ": "@ + hook_said(h));
        }
        if let Some(h) = p.hooks.create {
            lemma_step(p, host_offers, "hooks.create (guest, once per generation)"@ + ": "@ + hook_said(h));
        }
        if let Some(h) = p.hooks.start {
            lemma_step(p, host_offers, "hooks.start (guest, each start)"@ + ": "@ + hook_said(h));
        }
    }
}

proof fn lemma_step(p: PlanView, host_offers: bool, s: Seq<char>)
    requires
        shell_text(p, host_offers) is Ok,
    ensures
        ({
            let t = shell_text(p, host_offers)->Ok_0;
            let here = (p.fallback_target matches Some(x) && s == "on a cache miss: the same, --target "@ + x) || (
            p.hooks.init matches Some(h) && s == "hooks.init (host, before the boot)"@ + ": "@ + hook_said(h)) || (
            p.hooks.create matches Some(h) && s == "hooks.create (guest, once per generation)"@ + ": "@ + hook_said(h))
                || (p.hooks.start matches Some(h) && s == "hooks.start (guest, each start)"@ + ": "@ + hook_said(h));
            here ==> remarks(t, s)
        }),
{
    lemma_itself(comment_block(s));
    lemma_remark(p, host_offers, comment_block(s));
    if !s.contains('\n') {
        lemma_one_line(s);
    }
}

/// A hook is told of by what it runs, where and for how long, and that it may fail where it may.
pub proof fn law_hook_is_told(c: HookCommandView)
    ensures
        ({
            let t = hook_said(HookView::Command(c));
            &&& c.run matches CommandView::Shell(l) ==> begins(t, l)
            &&& c.run matches CommandView::Argv(a) ==> begins(t, words_shown(a))
            &&& c.cwd matches Some(d) ==> contains(t, " (in "@ + word(d) + ")"@)
            &&& c.timeout_secs matches Some(n) ==> contains(t, " (within "@ + decimal(n as nat) + "s)"@)
            &&& !c.required ==> contains(t, " (best effort)"@)
            &&& c.required && c.cwd is None && c.timeout_secs is None ==> t == (match c.run {
                CommandView::Shell(l) => l,
                CommandView::Argv(a) => words_shown(a),
            })
        }),
{
    reveal_strlit("");
    let a = match c.run {
        CommandView::Shell(l) => l,
        CommandView::Argv(a) => words_shown(a),
    };
    let b = match c.cwd {
        Some(d) => " (in "@ + word(d) + ")"@,
        None => ""@,
    };
    let d = match c.timeout_secs {
        Some(t) => " (within "@ + decimal(t as nat) + "s)"@,
        None => ""@,
    };
    let e = if c.required {
        ""@
    } else {
        " (best effort)"@
    };
    let n = Seq::<char>::empty();
    let t = hook_said(HookView::Command(c));
    lemma_five(a, b, d, e, n);
    assert(a + b + d + e + n =~= t);
    assert(t.take(a.len() as int) =~= a);
    assert(t.subrange(0, a.len() as int) =~= a);
    if c.required && c.cwd is None && c.timeout_secs is None {
        assert(t =~= a);
    }
}

} // verus!
