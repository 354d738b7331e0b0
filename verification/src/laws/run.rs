//! What a run asks for is what the plan says, and nothing else.

use crate::config::{CheckoutMode, Cpus, Nested};
use crate::path::{joined_path, lossy_text, name_of, text_of_bytes};
use crate::plan::{EnvVarView, MountView, PlanView, SourceView, TaskView};
use crate::runargs::{build_of, run_of, task_of, volumes_upto, HostView, OverridesView, RunArgsView};
use crate::shell::word;
use vstd::prelude::*;
use vstd::utf8::{decode_utf8, encode_utf8, valid_utf8};

verus! {

/// The pairs from `from` on are the variables, each with its value, in their order.
pub open spec fn sets(env: Seq<(Seq<char>, Seq<char>)>, from: int, v: Seq<EnvVarView>) -> bool {
    &&& 0 <= from
    &&& from + v.len() <= env.len()
    &&& forall|i: int| 0 <= i < v.len() ==> #[trigger] env[from + i] == (v[i].name, v[i].value)
}

/// Every variable that the plan sets for the guest is set by the run, and no other. A task's
/// environment begins with the same, goes on with what a session would get, and ends with its own.
pub proof fn law_environment_reaches_the_guest(
    p: PlanView,
    wrapper: Option<Seq<u8>>,
    over: OverridesView,
    host: HostView,
    share: CheckoutMode,
    task: TaskView,
    extra: Seq<Seq<char>>,
    target: Option<Seq<char>>,
    state_dir: Seq<u8>,
    service: Option<Seq<char>>,
)
    ensures
        run_of(p, wrapper, over, host, share) matches Ok(a) ==> a.env.len() == p.container_env.len() && sets(
            a.env,
            0,
            p.container_env,
        ),
        build_of(p, over, host, service) matches Ok(a) ==> a.env.len() == p.container_env.len() && sets(
            a.env,
            0,
            p.container_env,
        ),
        task_of(p, over, host, task, extra, target, state_dir) matches Ok(a) ==> {
            &&& a.env.len() == p.container_env.len() + p.exec_env.len() + task.env.len()
            &&& sets(a.env, 0, p.container_env)
            &&& sets(a.env, p.container_env.len() as int, p.exec_env)
            &&& sets(a.env, (p.container_env.len() + p.exec_env.len()) as int, task.env)
        },
{
}

/// A mount as `vk run` takes it: its source and its place in the guest, and what it says over the
/// plain mode.
pub open spec fn spells_mount(text: Seq<char>, m: MountView) -> bool {
    let plain = decode_utf8(m.source) + seq![':'] + m.to;
    &&& valid_utf8(m.source)
    &&& !m.read_only && !m.optional ==> text == plain
    &&& m.read_only && !m.optional ==> text == plain + ":ro"@
    &&& m.optional && m.read_only ==> text == plain + ":ro,optional"@
    &&& m.optional && !m.read_only ==> text == plain + ":rw,optional"@
}

proof fn lemma_volumes(mounts: Seq<MountView>, n: int)
    requires
        0 <= n <= mounts.len(),
        volumes_upto(mounts, n) is Ok,
    ensures
        volumes_upto(mounts, n)->Ok_0.len() == n,
        forall|i: int| 0 <= i < n ==> spells_mount(#[trigger] volumes_upto(mounts, n)->Ok_0[i], mounts[i]),
    decreases n,
{
    if n > 0 {
        lemma_volumes(mounts, n - 1);
        let m = mounts[n - 1];
        reveal_strlit(":");
        reveal_strlit("");
        assert(":"@ =~= seq![':']);
        let plain = decode_utf8(m.source) + seq![':'] + m.to;
        assert(plain + ""@ =~= plain);
        let had = volumes_upto(mounts, n - 1)->Ok_0;
        let now = volumes_upto(mounts, n)->Ok_0;
        assert forall|i: int| 0 <= i < n implies spells_mount(#[trigger] now[i], mounts[i]) by {
            if i < n - 1 {
                assert(now[i] == had[i]);
            }
        }
    }
}

/// How many volumes a run has besides the plan's mounts: the git directory of a linked worktree,
/// and the checkout where no compose service mounts it itself.
pub open spec fn added_volumes(p: PlanView, host: HostView) -> int {
    (if host.git_dir is Some {
        1int
    } else {
        0int
    }) + (if !(p.source is Compose) && p.workspace_folder is Some {
        1int
    } else {
        0int
    })
}

/// The volumes are the plan's mounts in their order, then the git directory at its own path, then
/// the checkout at the workspace folder: behind `overlay` exactly where that was asked for, so that
/// what is to be thrown away is never written through.
pub open spec fn volumes_hold(a: RunArgsView, p: PlanView, host: HostView, share: CheckoutMode) -> bool {
    let n = p.mounts.len() as int;
    let v = a.volumes;
    &&& v.len() == n + added_volumes(p, host)
    &&& forall|i: int| 0 <= i < n ==> spells_mount(#[trigger] v[i], p.mounts[i])
    &&& host.git_dir matches Some(d) ==> v[n] == lossy_text(d) + ":"@ + lossy_text(d)
    &&& !(p.source is Compose) ==> (p.workspace_folder matches Some(f) ==> {
        &&& share == CheckoutMode::Overlay ==> v.last() == lossy_text(p.workspace) + ":"@ + f + ":overlay"@
        &&& share == CheckoutMode::Shared ==> v.last() == lossy_text(p.workspace) + ":"@ + f
    })
}

/// A run mounts what the plan mounts, and the checkout as it was asked for: a boot's and a build's
/// as the caller says, a task's as the task says.
pub proof fn law_volumes(
    p: PlanView,
    wrapper: Option<Seq<u8>>,
    over: OverridesView,
    host: HostView,
    share: CheckoutMode,
    task: TaskView,
    extra: Seq<Seq<char>>,
    target: Option<Seq<char>>,
    state_dir: Seq<u8>,
    service: Option<Seq<char>>,
)
    ensures
        run_of(p, wrapper, over, host, share) matches Ok(a) ==> volumes_hold(a, p, host, share),
        build_of(p, over, host, service) matches Ok(a) ==> volumes_hold(a, p, host, CheckoutMode::Shared),
        task_of(p, over, host, task, extra, target, state_dir) matches Ok(a) ==> volumes_hold(
            a,
            p,
            host,
            task.checkout,
        ),
{
    if volumes_upto(p.mounts, p.mounts.len() as int) is Ok {
        lemma_volumes(p.mounts, p.mounts.len() as int);
        let mounts = volumes_upto(p.mounts, p.mounts.len() as int)->Ok_0;
        if let Ok(a) = run_of(p, wrapper, over, host, share) {
            assert forall|i: int| 0 <= i < p.mounts.len() implies spells_mount(#[trigger] a.volumes[i], p.mounts[i]) by {
                assert(a.volumes[i] == mounts[i]);
            }
        }
        if let Ok(a) = build_of(p, over, host, service) {
            assert forall|i: int| 0 <= i < p.mounts.len() implies spells_mount(#[trigger] a.volumes[i], p.mounts[i]) by {
                assert(a.volumes[i] == mounts[i]);
            }
        }
        if let Ok(a) = task_of(p, over, host, task, extra, target, state_dir) {
            assert forall|i: int| 0 <= i < p.mounts.len() implies spells_mount(#[trigger] a.volumes[i], p.mounts[i]) by {
                assert(a.volumes[i] == mounts[i]);
            }
        }
    }
}

/// The run boots from what the plan names and from nothing else: one of a compose service, an
/// image and a build, with all that belongs to it.
pub open spec fn boots_from(a: RunArgsView, p: PlanView) -> bool {
    &&& p.source matches SourceView::Compose { file, service, profiles } ==> a.compose == Some(file) && a.primary
        == Some(service) && a.profiles == profiles
    &&& p.source matches SourceView::Image { reference } ==> a.image == reference
    &&& p.source matches SourceView::Build { context, dockerfile, target, args } ==> a.contexts == seq![context]
        && a.dockerfiles == seq![dockerfile] && a.target == target && a.build_args == args
    &&& !(p.source is Compose) ==> a.compose is None && a.primary is None && a.profiles.len() == 0
    &&& !(p.source is Image) ==> a.image.len() == 0
    &&& !(p.source is Build) ==> a.contexts.len() == 0 && a.dockerfiles.len() == 0 && a.target is None
        && a.build_args.len() == 0 && !a.require_cached
}

/// The size of the guest is the plan's: as many CPUs as it says, the host's own count where it says
/// that, its memory, and nesting where it is required, or wanted and to be had.
pub open spec fn sized(a: RunArgsView, p: PlanView, host: HostView) -> bool {
    &&& p.cpus is None ==> a.cpus is None
    &&& p.cpus matches Some(Cpus::Count(n)) ==> a.cpus == Some(n)
    &&& p.cpus == Some(Cpus::Host) ==> a.cpus is Some && a.cpus == host.cpus
    &&& a.mem == p.mem
    &&& p.nested == Nested::Off ==> !a.nested
    &&& p.nested == Nested::Required ==> a.nested
    &&& p.nested == Nested::Auto ==> a.nested == host.nests
    &&& a.net
}

/// A boot is the plan's: its source, its size, its directories, the user that sessions log in as,
/// the client that reaches it, and the host commands that its allowlist lets through, none without
/// one. It runs no command of its own, and one with none to live by waits for a stop.
pub proof fn law_boot_is_the_plans(
    p: PlanView,
    wrapper: Option<Seq<u8>>,
    over: OverridesView,
    host: HostView,
    share: CheckoutMode,
)
    ensures
        run_of(p, wrapper, over, host, share) matches Ok(a) ==> {
            &&& boots_from(a, p)
            &&& sized(a, p, host)
            &&& a.workspace == p.workspace && a.state_dir == p.state_dir
            &&& a.ssh && a.ssh_client && a.detach
            &&& p.user matches Some(u) ==> a.ssh_user == u
            &&& p.user is None ==> a.ssh_user == "root"@
            &&& name_of(p.state_dir) matches Some(n) ==> text_of_bytes(n) is Some && a.ssh_alias == "vk-"@
                + lossy_text(n)
            &&& a.detach_log == Some(joined_path(p.state_dir, encode_utf8("boot.log"@)))
            &&& a.host_exec_wrapper == wrapper && a.host_exec == (wrapper is Some)
            &&& p.host_exec matches Some(h) ==> a.host_exec_env == h.env
            &&& p.host_exec is None ==> a.host_exec_env.len() == 0
            &&& a.command.len() == 0
            &&& p.source is Compose ==> a.inactivity_timeout_secs is None
            &&& !(p.source is Compose) ==> a.inactivity_timeout_secs == Some(0u64)
        },
{
    reveal_strlit("");
}

/// A boot is refused only where it cannot be asked for: the host's CPUs cannot be counted though
/// they are all wanted, a mount's source is not text, or the state directory's name is not.
pub proof fn law_boot_is_owed(
    p: PlanView,
    wrapper: Option<Seq<u8>>,
    over: OverridesView,
    host: HostView,
    share: CheckoutMode,
)
    ensures
        run_of(p, wrapper, over, host, share) is Ok <==> {
            &&& !(p.cpus == Some(Cpus::Host) && host.cpus is None)
            &&& forall|i: int| 0 <= i < p.mounts.len() ==> valid_utf8((#[trigger] p.mounts[i]).source)
            &&& name_of(p.state_dir) matches Some(n) ==> valid_utf8(n)
        },
{
    lemma_volumes_owed(p.mounts, p.mounts.len() as int);
}

proof fn lemma_volumes_owed(mounts: Seq<MountView>, n: int)
    requires
        0 <= n <= mounts.len(),
    ensures
        volumes_upto(mounts, n) is Ok <==> forall|i: int|
            0 <= i < n ==> valid_utf8((#[trigger] mounts[i]).source),
    decreases n,
{
    if n > 0 {
        lemma_volumes_owed(mounts, n - 1);
        if volumes_upto(mounts, n) is Ok {
            assert forall|i: int| 0 <= i < n implies valid_utf8((#[trigger] mounts[i]).source) by {
                if i == n - 1 {
                    assert(text_of_bytes(mounts[i].source) is Some);
                }
            }
        } else if volumes_upto(mounts, n - 1) is Ok {
            assert(!valid_utf8(mounts[n - 1].source));
        }
    }
}

/// A task runs in the environment that its plan describes, sized and built as a boot would be, and
/// runs exactly its own command with what was given behind it, in the workspace folder where there
/// is one. The stage it is built from is the plan's unless another was asked for.
pub proof fn law_task_runs_its_command(
    p: PlanView,
    over: OverridesView,
    host: HostView,
    task: TaskView,
    extra: Seq<Seq<char>>,
    target: Option<Seq<char>>,
    state_dir: Seq<u8>,
)
    ensures
        task_of(p, over, host, task, extra, target, state_dir) is Ok <==> run_of(
            p,
            None,
            over,
            host,
            task.checkout,
        ) is Ok,
        task_of(p, over, host, task, extra, target, state_dir) matches Ok(a) ==> {
            let behind = a.command.skip(a.command.len() - task.argv.len() - extra.len());
            &&& a.command.len() >= task.argv.len() + extra.len()
            &&& behind.take(task.argv.len() as int) == task.argv
            &&& behind.skip(task.argv.len() as int) == extra
            &&& p.workspace_folder is None ==> a.command.len() == task.argv.len() + extra.len()
            &&& p.workspace_folder matches Some(f) ==> a.command.len() == task.argv.len() + extra.len() + 4
                && a.command[0] == "sh"@ && a.command[1] == "-c"@ && a.command[2] == "cd "@ + word(f)
                + " && exec \"$@\""@ && a.command[3] == "sh"@
            &&& sized(a, p, host)
            &&& a.workspace == p.workspace
            &&& target matches Some(t) ==> a.target == target && !a.require_cached
            &&& target is None ==> boots_from(a, p)
            &&& p.source matches SourceView::Compose { file, service, profiles } ==> a.compose == Some(file)
                && a.primary == Some(service) && a.profiles == profiles
            &&& p.source matches SourceView::Image { reference } ==> a.image == reference
            &&& p.source matches SourceView::Build { context, dockerfile, args, .. } ==> a.contexts == seq![context]
                && a.dockerfiles == seq![dockerfile] && a.build_args == args
        },
{
    reveal_strlit("");
    if let Ok(a) = task_of(p, over, host, task, extra, target, state_dir) {
        let n = task.argv.len() as int;
        let behind = a.command.skip(a.command.len() - n - extra.len());
        assert(behind =~= task.argv + extra);
        assert(behind.take(n) =~= task.argv);
        assert(behind.skip(n) =~= extra);
    }
}

/// A build of one service builds that service in the primary's place and changes nothing else; it
/// is refused where there is no compose file to name one of.
pub proof fn law_build_of_a_service(p: PlanView, over: OverridesView, host: HostView, name: Seq<char>)
    ensures
        match build_of(p, over, host, Some(name)) {
            Ok(a) => {
                &&& p.source is Compose
                &&& a.primary == Some(name)
                &&& build_of(p, over, host, None) matches Ok(b) && a == (RunArgsView { primary: Some(name), ..b })
            },
            Err(_) => !(p.source is Compose) || build_of(p, over, host, None) is Err,
        },
        build_of(p, over, host, None) matches Ok(b) ==> boots_from(b, p) && sized(b, p, host) && b.workspace
            == p.workspace && b.state_dir == p.state_dir,
{
    reveal_strlit("");
}

} // verus!
