//! What a plan asks of `vk run`: the arguments of a boot, of an ephemeral task, and of a build.

use crate::config::{CheckoutMode, Cpus, Freshness};
use crate::entries::copy_texts;
use crate::path::{joined_path, lossy_text, name_of, parent_of, text_of_bytes, under, HostPath};
use crate::plan::{
    mount_spec, nests, EnvVar, EnvVarView, MountPlan, MountView, Plan, PlanView, Source, SourceView, TaskPlan,
    TaskView,
};
use crate::shell::{quote_word, word};
use crate::text::{
    cat2, cat3, cat4, cat5, copy_list, copy_opt, debug_text, error, first_chars, is_one_of, join, joined, outcome,
    put, quoted, shorten, Error,
};
use vstd::prelude::*;
use vstd::utf8::encode_utf8;

verus! {

/// What a command says over the config.
#[derive(Debug)]
pub struct Overrides {
    pub cache_registry: Option<String>,
    pub cache_insecure: bool,
    pub freshness: Option<Freshness>,
}

pub struct OverridesView {
    pub cache_registry: Option<Seq<char>>,
    pub cache_insecure: bool,
    pub freshness: Option<Freshness>,
}

impl DeepView for Overrides {
    type V = OverridesView;

    open spec fn deep_view(&self) -> OverridesView {
        OverridesView {
            cache_registry: self.cache_registry.deep_view(),
            cache_insecure: self.cache_insecure,
            freshness: self.freshness,
        }
    }
}

/// Where stages cache.
#[derive(Debug)]
pub struct CacheOpts {
    pub registry: Option<String>,
    pub insecure: bool,
    /// who the registry knows this host as; empty for nobody
    pub username: String,
}

pub struct CacheOptsView {
    pub registry: Option<Seq<char>>,
    pub insecure: bool,
    pub username: Seq<char>,
}

impl DeepView for CacheOpts {
    type V = CacheOptsView;

    open spec fn deep_view(&self) -> CacheOptsView {
        CacheOptsView { registry: self.registry.deep_view(), insecure: self.insecure, username: self.username@ }
    }
}

/// The cache a build uses where one is asked for, and else the one of every other build on this
/// host, with what that destination needs.
pub open spec fn cache_resolved(asked: Option<Seq<char>>, insecure: bool, host: CacheOptsView) -> CacheOptsView {
    match asked {
        Some(r) => CacheOptsView { registry: Some(r), insecure: insecure || host.insecure, username: ""@ },
        None => CacheOptsView {
            registry: host.registry,
            insecure: insecure || host.insecure,
            username: host.username,
        },
    }
}

impl CacheOpts {
    pub fn resolve(asked: &Option<String>, insecure: bool, host: &CacheOpts) -> (r: CacheOpts)
        ensures
            r.deep_view() == cache_resolved(asked.deep_view(), insecure, host.deep_view()),
    {
        match asked {
            Some(a) => CacheOpts {
                registry: Some(a.clone()),
                insecure: insecure || host.insecure,
                username: "".to_owned(),
            },
            None => CacheOpts {
                registry: copy_opt(&host.registry),
                insecure: insecure || host.insecure,
                username: host.username.clone(),
            },
        }
    }
}

/// What this host has, as far as the arguments of a run need it.
#[derive(Debug)]
pub struct Host {
    /// how many CPUs it has, where that can be told
    pub cpus: Option<u32>,
    /// it offers nested virtualization
    pub nests: bool,
    /// the git directory a linked worktree points at, outside the workspace
    pub git_dir: Option<HostPath>,
    /// where its builds cache
    pub cache: CacheOpts,
}

pub struct HostView {
    pub cpus: Option<u32>,
    pub nests: bool,
    pub git_dir: Option<Seq<u8>>,
    pub cache: CacheOptsView,
}

impl DeepView for Host {
    type V = HostView;

    open spec fn deep_view(&self) -> HostView {
        HostView {
            cpus: self.cpus,
            nests: self.nests,
            git_dir: self.git_dir.deep_view(),
            cache: self.cache.deep_view(),
        }
    }
}

/// The arguments of a `vk run`. What is not here is left as `vk run` has it.
#[derive(Debug)]
pub struct RunArgs {
    pub workspace: HostPath,
    pub state_dir: HostPath,
    pub net: bool,
    pub cpus: Option<u32>,
    pub mem: Option<String>,
    pub env: Vec<(String, String)>,
    pub cache: CacheOpts,
    pub host_exec: bool,
    pub host_exec_wrapper: Option<HostPath>,
    pub host_exec_env: Vec<String>,
    pub nested: bool,
    pub ssh: bool,
    pub ssh_client: bool,
    pub ssh_alias: String,
    pub ssh_user: String,
    pub detach: bool,
    pub detach_log: Option<HostPath>,
    pub compose: Option<HostPath>,
    pub primary: Option<String>,
    pub profiles: Vec<String>,
    pub image: String,
    pub dockerfiles: Vec<HostPath>,
    pub contexts: Vec<HostPath>,
    pub target: Option<String>,
    pub build_args: Vec<(String, String)>,
    pub require_cached: bool,
    pub inactivity_timeout_secs: Option<u64>,
    /// each as `source:to`, with its mode behind another colon
    pub volumes: Vec<String>,
    pub command: Vec<String>,
}

pub struct RunArgsView {
    pub workspace: Seq<u8>,
    pub state_dir: Seq<u8>,
    pub net: bool,
    pub cpus: Option<u32>,
    pub mem: Option<Seq<char>>,
    pub env: Seq<(Seq<char>, Seq<char>)>,
    pub cache: CacheOptsView,
    pub host_exec: bool,
    pub host_exec_wrapper: Option<Seq<u8>>,
    pub host_exec_env: Seq<Seq<char>>,
    pub nested: bool,
    pub ssh: bool,
    pub ssh_client: bool,
    pub ssh_alias: Seq<char>,
    pub ssh_user: Seq<char>,
    pub detach: bool,
    pub detach_log: Option<Seq<u8>>,
    pub compose: Option<Seq<u8>>,
    pub primary: Option<Seq<char>>,
    pub profiles: Seq<Seq<char>>,
    pub image: Seq<char>,
    pub dockerfiles: Seq<Seq<u8>>,
    pub contexts: Seq<Seq<u8>>,
    pub target: Option<Seq<char>>,
    pub build_args: Seq<(Seq<char>, Seq<char>)>,
    pub require_cached: bool,
    pub inactivity_timeout_secs: Option<u64>,
    pub volumes: Seq<Seq<char>>,
    pub command: Seq<Seq<char>>,
}

impl DeepView for RunArgs {
    type V = RunArgsView;

    open spec fn deep_view(&self) -> RunArgsView {
        RunArgsView {
            workspace: self.workspace.deep_view(),
            state_dir: self.state_dir.deep_view(),
            net: self.net,
            cpus: self.cpus,
            mem: self.mem.deep_view(),
            env: self.env.deep_view(),
            cache: self.cache.deep_view(),
            host_exec: self.host_exec,
            host_exec_wrapper: self.host_exec_wrapper.deep_view(),
            host_exec_env: self.host_exec_env.deep_view(),
            nested: self.nested,
            ssh: self.ssh,
            ssh_client: self.ssh_client,
            ssh_alias: self.ssh_alias@,
            ssh_user: self.ssh_user@,
            detach: self.detach,
            detach_log: self.detach_log.deep_view(),
            compose: self.compose.deep_view(),
            primary: self.primary.deep_view(),
            profiles: self.profiles.deep_view(),
            image: self.image@,
            dockerfiles: self.dockerfiles.deep_view(),
            contexts: self.contexts.deep_view(),
            target: self.target.deep_view(),
            build_args: self.build_args.deep_view(),
            require_cached: self.require_cached,
            inactivity_timeout_secs: self.inactivity_timeout_secs,
            volumes: self.volumes.deep_view(),
            command: self.command.deep_view(),
        }
    }
}

/// The git directory lies outside the workspace.
pub open spec fn outside(workspace: Seq<u8>, git_dir: Seq<u8>) -> Option<Seq<u8>> {
    if under(git_dir, workspace) {
        None
    } else {
        Some(git_dir)
    }
}

/// The mount a common git directory needs, or none when it is already inside the workspace.
pub fn outside_workspace(workspace: &HostPath, git_dir: HostPath) -> (r: Option<HostPath>)
    ensures
        r.deep_view() == outside(workspace.deep_view(), git_dir.deep_view()),
{
    if git_dir.starts_with(workspace) {
        None
    } else {
        Some(git_dir)
    }
}

/// What `git rev-parse --git-common-dir` printed names a directory outside the workspace.
pub open spec fn git_dir_printed(workspace: Seq<u8>, printed: Seq<u8>) -> Option<Seq<u8>> {
    match text_of_bytes(printed) {
        Some(t) => outside(workspace, encode_utf8(crate::text::trimmed(t))),
        None => None,
    }
}

/// The git directory a linked worktree points at, when the workspace is one and that directory
/// lies outside it: from what `git rev-parse --git-common-dir` printed there, none where it
/// failed. A main checkout's is inside the workspace and already shared.
pub fn worktree_git_dir(workspace: &HostPath, printed: Option<Vec<u8>>) -> (r: Option<HostPath>)
    ensures
        match printed {
            Some(b) => r.deep_view() == git_dir_printed(workspace.deep_view(), b@),
            None => r is None,
        },
{
    match printed {
        Some(b) => {
            let out = HostPath { bytes: b };
            match out.to_str() {
                Some(t) => outside_workspace(
                    workspace,
                    HostPath::from_text(crate::text::trim(t.as_str()).as_str()),
                ),
                None => None,
            }
        },
        None => None,
    }
}

/// The ssh host alias of an environment: its state directory's own name, which is already a
/// readable workspace name plus a digest.
pub open spec fn alias_of(state_dir: Seq<u8>) -> Seq<char> {
    "vk-"@ + match name_of(state_dir) {
        Some(n) => lossy_text(n),
        None => "workspace"@,
    }
}

/// The ssh host alias for this environment: two workspaces never answer to one alias, and the
/// name survives a reboot.
pub fn alias(state_dir: &HostPath) -> (r: String)
    ensures
        r@ == alias_of(state_dir.deep_view()),
{
    match state_dir.file_name() {
        Some(n) => cat2("vk-", crate::path::lossy(&n).as_str()),
        None => cat2("vk-", "workspace"),
    }
}

/// The name of a state directory is text.
pub open spec fn name_is_text(state_dir: Seq<u8>) -> bool {
    name_of(state_dir) matches Some(n) ==> text_of_bytes(n) is Some
}

/// The alias, or why there is none.
pub open spec fn alias_checked(state_dir: Seq<u8>) -> Result<Seq<char>, Seq<char>> {
    if name_is_text(state_dir) {
        Ok(alias_of(state_dir))
    } else {
        Err("the state directory name ("@ + lossy_text(state_dir) + ") is not valid UTF-8"@)
    }
}

/// As [`alias`], with a state directory whose name is not text refused: the alias is written
/// into an ssh_config and passed to ssh as text, where a replacement character would quietly
/// name a different host.
pub fn checked_alias(state_dir: &HostPath) -> (r: Result<String, Error>)
    ensures
        outcome(r) == alias_checked(state_dir.deep_view()),
{
    let fine = match state_dir.file_name() {
        Some(n) => {
            let name = HostPath { bytes: n };
            name.to_str().is_some()
        },
        None => true,
    };
    if fine {
        Ok(alias(state_dir))
    } else {
        Err(
            error(
                cat3("the state directory name (", state_dir.display().as_str(), ") is not valid UTF-8"),
            ),
        )
    }
}

/// The variables as pairs.
pub open spec fn env_pairs(v: Seq<EnvVarView>) -> Seq<(Seq<char>, Seq<char>)> {
    Seq::new(v.len(), |i: int| (v[i].name, v[i].value))
}

fn add_env(out: &mut Vec<(String, String)>, v: &Vec<EnvVar>)
    ensures
        final(out).deep_view() == old(out).deep_view() + env_pairs(v.deep_view()),
{
    let ghost had = out.deep_view();
    let ghost all = env_pairs(v.deep_view());
    let mut i: usize = 0;
    assert(out.deep_view() =~= had + all.take(0));
    while i < v.len()
        invariant
            i <= v@.len(),
            all == env_pairs(v.deep_view()),
            out.deep_view() == had + all.take(i as int),
        decreases v@.len() - i,
    {
        assert(v.deep_view()[i as int] == v@[i as int].deep_view());
        put(out, (v[i].name.clone(), v[i].value.clone()));
        assert(out.deep_view() =~= had + all.take(i + 1));
        i = i + 1;
    }
    assert(all.take(all.len() as int) =~= all);
}

/// The volumes of the first `n` mounts.
pub open spec fn volumes_upto(mounts: Seq<MountView>, n: int) -> Result<Seq<Seq<char>>, Seq<char>>
    decreases n,
{
    if n <= 0 {
        Ok(Seq::empty())
    } else {
        match volumes_upto(mounts, n - 1) {
            Err(e) => Err(e),
            Ok(had) => match mount_spec(mounts[n - 1]) {
                Ok(s) => Ok(had.push(s)),
                Err(e) => Err(e),
            },
        }
    }
}

proof fn lemma_volumes_kept(mounts: Seq<MountView>, n: int, m: int)
    requires
        0 < n <= m,
        volumes_upto(mounts, n) is Err,
    ensures
        volumes_upto(mounts, m) == volumes_upto(mounts, n),
    decreases m - n,
{
    if n < m {
        lemma_volumes_kept(mounts, n, m - 1);
    }
}

fn mount_volumes(mounts: &Vec<MountPlan>) -> (r: Result<Vec<String>, Error>)
    ensures
        outcome(r) == volumes_upto(mounts.deep_view(), mounts@.len() as int),
{
    let ghost d = mounts.deep_view();
    let mut out: Vec<String> = Vec::new();
    let mut i: usize = 0;
    assert(out.deep_view() =~= Seq::empty());
    while i < mounts.len()
        invariant
            i <= mounts@.len(),
            d == mounts.deep_view(),
            volumes_upto(d, i as int) == Ok::<Seq<Seq<char>>, Seq<char>>(out.deep_view()),
        decreases mounts@.len() - i,
    {
        assert(d[i as int] == mounts@[i as int].deep_view());
        match mounts[i].spec() {
            Ok(s) => put(&mut out, s),
            Err(e) => {
                proof {
                    lemma_volumes_kept(d, i + 1, d.len() as int);
                }
                return Err(e);
            },
        }
        i = i + 1;
    }
    Ok(out)
}

/// The checkout as it reaches the guest: shared, or read-only under a tmpfs the guest writes to.
pub open spec fn checkout_volume(workspace: Seq<u8>, folder: Seq<char>, share: CheckoutMode) -> Seq<char> {
    match share {
        CheckoutMode::Shared => lossy_text(workspace) + ":"@ + folder,
        CheckoutMode::Overlay => lossy_text(workspace) + ":"@ + folder + ":overlay"@,
    }
}

/// The source is a compose service.
pub open spec fn composed(s: SourceView) -> bool {
    s is Compose
}

/// The volumes of a run: those of the plan, the git directory at the path its pointer names, and
/// the checkout where no compose service mounts it.
pub open spec fn run_volumes(p: PlanView, host: HostView, share: CheckoutMode, mounts: Seq<Seq<char>>) -> Seq<
    Seq<char>,
> {
    let with_git = match host.git_dir {
        Some(d) => mounts.push(lossy_text(d) + ":"@ + lossy_text(d)),
        None => mounts,
    };
    if !composed(p.source) && p.workspace_folder is Some {
        with_git.push(checkout_volume(p.workspace, p.workspace_folder->0, share))
    } else {
        with_git
    }
}

/// The arguments of a run, given its CPUs, its volumes and its alias.
pub open spec fn run_with(
    p: PlanView,
    wrapper: Option<Seq<u8>>,
    over: OverridesView,
    host: HostView,
    cpus: Option<u32>,
    volumes: Seq<Seq<char>>,
    ssh_alias: Seq<char>,
) -> RunArgsView {
    RunArgsView {
        workspace: p.workspace,
        state_dir: p.state_dir,
        net: true,
        cpus,
        mem: p.mem,
        env: env_pairs(p.container_env),
        cache: cache_resolved(
            if over.cache_registry is Some {
                over.cache_registry
            } else {
                p.cache.registry
            },
            over.cache_insecure || p.cache.insecure,
            host.cache,
        ),
        host_exec: wrapper is Some,
        host_exec_wrapper: wrapper,
        host_exec_env: match p.host_exec {
            Some(h) => h.env,
            None => Seq::empty(),
        },
        nested: nests(p.nested, host.nests),
        ssh: true,
        ssh_client: true,
        ssh_alias,
        ssh_user: match p.user {
            Some(u) => u,
            None => "root"@,
        },
        detach: true,
        detach_log: Some(joined_path(p.state_dir, encode_utf8("boot.log"@))),
        compose: match p.source {
            SourceView::Compose { file, .. } => Some(file),
            _ => None,
        },
        primary: match p.source {
            SourceView::Compose { service, .. } => Some(service),
            _ => None,
        },
        profiles: match p.source {
            SourceView::Compose { profiles, .. } => profiles,
            _ => Seq::empty(),
        },
        image: match p.source {
            SourceView::Image { reference } => reference,
            _ => ""@,
        },
        dockerfiles: match p.source {
            SourceView::Build { dockerfile, .. } => seq![dockerfile],
            _ => Seq::empty(),
        },
        contexts: match p.source {
            SourceView::Build { context, .. } => seq![context],
            _ => Seq::empty(),
        },
        target: match p.source {
            SourceView::Build { target, .. } => target,
            _ => None,
        },
        build_args: match p.source {
            SourceView::Build { args, .. } => args,
            _ => Seq::empty(),
        },
        require_cached: p.source is Build && p.cached_only,
        inactivity_timeout_secs: if composed(p.source) {
            None
        } else {
            Some(0u64)
        },
        volumes,
        command: Seq::empty(),
    }
}

/// The arguments of a run, or why there are none.
pub open spec fn run_of(
    p: PlanView,
    wrapper: Option<Seq<u8>>,
    over: OverridesView,
    host: HostView,
    share: CheckoutMode,
) -> Result<RunArgsView, Seq<char>> {
    if p.cpus == Some(Cpus::Host) && host.cpus is None {
        Err("detecting the host CPU count"@)
    } else {
        match volumes_upto(p.mounts, p.mounts.len() as int) {
            Err(e) => Err(e),
            Ok(mounts) => match alias_checked(p.state_dir) {
                Err(e) => Err(e),
                Ok(ssh_alias) => Ok(
                    run_with(
                        p,
                        wrapper,
                        over,
                        host,
                        match p.cpus {
                            None => None,
                            Some(Cpus::Host) => host.cpus,
                            Some(Cpus::Count(n)) => Some(n),
                        },
                        run_volumes(p, host, share, mounts),
                        ssh_alias,
                    ),
                ),
            },
        }
    }
}

/// Convert the plan to the arguments of a `vk run`, leaving what it does not settle as `vk run`
/// has it. `wrapper` is the host-command allowlist that was put into the state directory.
#[verifier::rlimit(60)]
#[verifier::spinoff_prover]
pub fn run_args(
    plan: &Plan,
    wrapper: &Option<HostPath>,
    over: &Overrides,
    host: &Host,
    share: CheckoutMode,
) -> (r: Result<RunArgs, Error>)
    ensures
        outcome(r) == run_of(
            plan.deep_view(),
            wrapper.deep_view(),
            over.deep_view(),
            host.deep_view(),
            share,
        ),
{
    let ghost p = plan.deep_view();
    let ghost hv = host.deep_view();
    let cpus = match plan.cpus {
        None => None,
        Some(Cpus::Host) => match host.cpus {
            Some(n) => Some(n),
            None => {
                return Err(error("detecting the host CPU count".to_owned()));
            },
        },
        Some(Cpus::Count(n)) => Some(n),
    };
    let asked = if over.cache_registry.is_some() {
        copy_opt(&over.cache_registry)
    } else {
        copy_opt(&plan.cache.registry)
    };
    let cache = CacheOpts::resolve(&asked, over.cache_insecure || plan.cache.insecure, &host.cache);
    let mut volumes = mount_volumes(&plan.mounts)?;
    let ghost mounts = volumes.deep_view();
    if let Some(d) = &host.git_dir {
        let at = d.display();
        put(&mut volumes, cat3(at.as_str(), ":", at.as_str()));
    }
    let ssh_alias = checked_alias(&plan.state_dir)?;
    let compose = match &plan.source {
        Source::Compose { .. } => true,
        _ => false,
    };
    if !compose {
        if let Some(folder) = &plan.workspace_folder {
            let at = plan.workspace.display();
            let spec = match share {
                CheckoutMode::Shared => cat3(at.as_str(), ":", folder.as_str()),
                CheckoutMode::Overlay => cat4(at.as_str(), ":", folder.as_str(), ":overlay"),
            };
            put(&mut volumes, spec);
        }
    }
    assert(volumes.deep_view() == run_volumes(p, hv, share, mounts));
    let mut env: Vec<(String, String)> = Vec::new();
    add_env(&mut env, &plan.container_env);
    assert(env.deep_view() =~= env_pairs(p.container_env));
    let no_texts: Vec<String> = Vec::new();
    assert(no_texts.deep_view() =~= Seq::empty());
    let no_paths: Vec<HostPath> = Vec::new();
    assert(no_paths.deep_view() =~= Seq::empty());
    let mut args = RunArgs {
        workspace: plan.workspace.copy(),
        state_dir: plan.state_dir.copy(),
        net: true,
        cpus,
        mem: copy_opt(&plan.mem),
        env,
        cache,
        host_exec: wrapper.is_some(),
        host_exec_wrapper: match wrapper {
            Some(w) => Some(w.copy()),
            None => None,
        },
        host_exec_env: match &plan.host_exec {
            Some(h) => copy_list(&h.env),
            None => no_texts,
        },
        nested: plan.nests_here(host.nests),
        ssh: true,
        ssh_client: true,
        ssh_alias,
        ssh_user: match &plan.user {
            Some(u) => u.clone(),
            None => "root".to_owned(),
        },
        detach: true,
        detach_log: Some(plan.state_dir.join_text("boot.log")),
        compose: None,
        primary: None,
        profiles: Vec::new(),
        image: "".to_owned(),
        dockerfiles: no_paths,
        contexts: Vec::new(),
        target: None,
        build_args: Vec::new(),
        require_cached: false,
        inactivity_timeout_secs: if compose {
            None
        } else {
            Some(0)
        },
        volumes,
        command: Vec::new(),
    };
    assert(args.profiles.deep_view() =~= Seq::empty());
    assert(args.contexts.deep_view() =~= Seq::empty());
    assert(args.build_args.deep_view() =~= Seq::empty());
    assert(args.command.deep_view() =~= Seq::empty());
    match &plan.source {
        Source::Compose { file, service, profiles } => {
            args.compose = Some(file.copy());
            args.primary = Some(service.clone());
            args.profiles = copy_list(profiles);
        },
        Source::Image { reference } => {
            args.image = reference.clone();
        },
        Source::Build { context, dockerfile, target, args: build_args } => {
            args.dockerfiles = vec![dockerfile.copy()];
            args.contexts = vec![context.copy()];
            args.target = copy_opt(target);
            args.build_args = copy_texts(build_args);
            args.require_cached = plan.cached_only;
            assert(args.dockerfiles.deep_view() =~= seq![dockerfile.deep_view()]);
            assert(args.contexts.deep_view() =~= seq![context.deep_view()]);
        },
    }
    Ok(args)
}

/// The command of an ephemeral task: in the workspace folder, where there is one.
pub open spec fn task_command(folder: Option<Seq<char>>, argv: Seq<Seq<char>>) -> Seq<Seq<char>> {
    match folder {
        Some(f) => seq!["sh"@, "-c"@, "cd "@ + word(f) + " && exec \"$@\""@, "sh"@] + argv,
        None => argv,
    }
}

/// A run as an ephemeral task is: minus everything that belongs to an environment somebody works
/// in, plus the command itself.
pub open spec fn as_task(
    a: RunArgsView,
    p: PlanView,
    task: TaskView,
    extra: Seq<Seq<char>>,
    target: Option<Seq<char>>,
    state_dir: Seq<u8>,
) -> RunArgsView {
    RunArgsView {
        state_dir,
        ssh: false,
        ssh_client: false,
        host_exec: false,
        host_exec_wrapper: None,
        host_exec_env: Seq::empty(),
        detach: false,
        detach_log: None,
        inactivity_timeout_secs: None,
        target: if target is Some {
            target
        } else {
            a.target
        },
        require_cached: target is None && a.require_cached,
        env: a.env + env_pairs(p.exec_env) + env_pairs(task.env),
        command: task_command(p.workspace_folder, task.argv + extra),
        ..a
    }
}

pub open spec fn task_of(
    p: PlanView,
    over: OverridesView,
    host: HostView,
    task: TaskView,
    extra: Seq<Seq<char>>,
    target: Option<Seq<char>>,
    state_dir: Seq<u8>,
) -> Result<RunArgsView, Seq<char>> {
    match run_of(p, None, over, host, task.checkout) {
        Err(e) => Err(e),
        Ok(a) => Ok(as_task(a, p, task, extra, target, state_dir)),
    }
}

fn add_texts(out: &mut Vec<String>, v: &Vec<String>)
    ensures
        final(out).deep_view() == old(out).deep_view() + v.deep_view(),
{
    let ghost had = out.deep_view();
    let mut i: usize = 0;
    assert(out.deep_view() =~= had + v.deep_view().take(0));
    while i < v.len()
        invariant
            i <= v@.len(),
            out.deep_view() == had + v.deep_view().take(i as int),
        decreases v@.len() - i,
    {
        assert(v.deep_view()[i as int] == v@[i as int]@);
        put(out, v[i].clone());
        assert(out.deep_view() =~= had + v.deep_view().take(i + 1));
        i = i + 1;
    }
    assert(v.deep_view().take(v@.len() as int) =~= v.deep_view());
}

/// The `vk run` an ephemeral task is: the environment's own arguments without a session, a host
/// command channel, endpoints, detaching or an idle wait, plus the command itself. The VM lives
/// exactly as long as that command, in a state directory of its own. `target` is the stage built
/// because the configured one was not cached.
pub fn task_args(
    plan: &Plan,
    over: &Overrides,
    host: &Host,
    task: &TaskPlan,
    extra: &Vec<String>,
    target: &Option<String>,
    state_dir: &HostPath,
) -> (r: Result<RunArgs, Error>)
    ensures
        outcome(r) == task_of(
            plan.deep_view(),
            over.deep_view(),
            host.deep_view(),
            task.deep_view(),
            extra.deep_view(),
            target.deep_view(),
            state_dir.deep_view(),
        ),
{
    let mut args = run_args(plan, &None, over, host, task.checkout)?;
    let ghost a = args.deep_view();
    args.state_dir = state_dir.copy();
    args.ssh = false;
    args.ssh_client = false;
    args.host_exec = false;
    args.host_exec_wrapper = None;
    args.host_exec_env = Vec::new();
    assert(args.host_exec_env.deep_view() =~= Seq::empty());
    args.detach = false;
    args.detach_log = None;
    args.inactivity_timeout_secs = None;
    if let Some(t) = target {
        args.target = Some(t.clone());
        args.require_cached = false;
    }
    add_env(&mut args.env, &plan.exec_env);
    add_env(&mut args.env, &task.env);
    let mut command: Vec<String> = Vec::new();
    if let Some(folder) = &plan.workspace_folder {
        put(&mut command, "sh".to_owned());
        put(&mut command, "-c".to_owned());
        let at = quote_word(folder.as_str());
        put(&mut command, cat3("cd ", at.as_str(), " && exec \"$@\""));
        put(&mut command, "sh".to_owned());
    }
    add_texts(&mut command, &task.argv);
    add_texts(&mut command, extra);
    assert(command.deep_view() =~= task_command(
        plan.deep_view().workspace_folder,
        task.deep_view().argv + extra.deep_view(),
    ));
    args.command = command;
    Ok(args)
}

/// Why a build of one service is refused.
pub open spec fn service_refused(config: Seq<u8>) -> Seq<char> {
    "--service needs a compose source; "@ + lossy_text(config)
        + " builds the environment's own image, which `vk dev build` builds without it"@
}

/// The arguments a build reads: those of the boot, with a named service for the primary.
pub open spec fn build_of(p: PlanView, over: OverridesView, host: HostView, service: Option<Seq<char>>) -> Result<
    RunArgsView,
    Seq<char>,
> {
    match run_of(p, None, over, host, CheckoutMode::Shared) {
        Err(e) => Err(e),
        Ok(a) => match service {
            None => Ok(a),
            Some(name) => if composed(p.source) {
                Ok(RunArgsView { primary: Some(name), ..a })
            } else {
                Err(service_refused(p.config))
            },
        },
    }
}

/// The boot's own arguments, with a named service in the primary's place so that it uses the
/// environment's cache and build arguments.
pub fn build_args(plan: &Plan, over: &Overrides, host: &Host, service: &Option<String>) -> (r: Result<RunArgs, Error>)
    ensures
        outcome(r) == build_of(plan.deep_view(), over.deep_view(), host.deep_view(), service.deep_view()),
{
    let mut args = run_args(plan, &None, over, host, CheckoutMode::Shared)?;
    if let Some(name) = service {
        match &plan.source {
            Source::Compose { .. } => {
                args.primary = Some(name.clone());
            },
            _ => {
                return Err(
                    error(
                        cat3(
                            "--service needs a compose source; ",
                            plan.config.display().as_str(),
                            " builds the environment's own image, which `vk dev build` builds without it",
                        ),
                    ),
                );
            },
        }
    }
    Ok(args)
}

/// Reject a service the compose file does not declare, listing those it does. Otherwise an
/// empty selection would build only image services and appear to satisfy the request.
pub fn check_service(declared: &Vec<String>, service: &str) -> (r: Result<(), Error>)
    ensures
        if declared.deep_view().contains(service@) {
            r is Ok
        } else {
            r matches Err(e) && e.deep_view() == "--service "@ + debug_text(service@)
                + ": no such compose service (declared: "@ + joined(declared.deep_view(), ", "@) + ")"@
        },
{
    if is_one_of(service, declared) {
        return Ok(());
    }
    let named = quoted(service);
    let list = join(declared, ", ");
    Err(
        error(
            cat5("--service ", named.as_str(), ": no such compose service (declared: ", list.as_str(), ")"),
        ),
    )
}

/// The label of a stage that is built.
pub fn stage_label(target: &Option<String>) -> (r: String)
    ensures
        r@ == match target.deep_view() {
            Some(t) => t,
            None => "build"@,
        },
{
    match target {
        Some(t) => t.clone(),
        None => "build".to_owned(),
    }
}

/// How often a free state directory for a task is looked for.
pub const TASK_DIR_TRIES: u32 = 8;

/// The path with another name for its last component.
pub open spec fn renamed(b: Seq<u8>, name: Seq<char>) -> Seq<u8> {
    match parent_of(b) {
        Some(p) => joined_path(p, encode_utf8(name)),
        None => encode_utf8(name),
    }
}

/// The state directory to try for a task, or why there is none to try.
pub open spec fn task_dir_tried(p: PlanView, task: Seq<char>, tried: u32, token: Seq<char>) -> Result<
    Seq<u8>,
    Seq<char>,
> {
    if tried >= TASK_DIR_TRIES {
        Err("no free state directory for task "@ + task + " next to "@ + lossy_text(p.state_dir))
    } else {
        match crate::names::task_state_name(p.state_dir, p.workspace, p.environment, task, first_chars(token, 8)) {
            Err(e) => Err(e),
            Ok(name) => Ok(renamed(p.state_dir, name)),
        }
    }
}

/// Where an ephemeral task's VM keeps its sockets and scratch: a sibling of the environment's own
/// directory, named with the head of a random token so that a leaked directory is never adopted
/// by a later run. `tried` counts the names that were taken already.
pub fn task_state_dir(plan: &Plan, task: &str, tried: u32, token: &str) -> (r: Result<HostPath, Error>)
    ensures
        outcome(r) == task_dir_tried(plan.deep_view(), task@, tried, token@),
{
    if tried >= TASK_DIR_TRIES {
        return Err(
            error(
                cat4(
                    "no free state directory for task ",
                    task,
                    " next to ",
                    plan.state_dir.display().as_str(),
                ),
            ),
        );
    }
    let head = shorten(token, 8);
    let name = crate::names::task_state_dir_name(
        &plan.state_dir,
        &plan.workspace,
        plan.environment.as_str(),
        task,
        head.as_str(),
    )?;
    match plan.state_dir.parent() {
        Some(p) => Ok(p.join_text(name.as_str())),
        None => Ok(HostPath::from_text(name.as_str())),
    }
}

/// The head of a digest, by characters: digests are read back from a file that a hand can have
/// made anything at all.
pub fn short(digest: &str) -> (r: String)
    ensures
        r@ == first_chars(digest@, 12),
{
    shorten(digest, 12)
}

/// An ephemeral task has nothing of an environment that somebody works in, whatever the plan
/// and the host say.
pub proof fn law_task_has_no_session(
    p: PlanView,
    over: OverridesView,
    host: HostView,
    task: TaskView,
    extra: Seq<Seq<char>>,
    target: Option<Seq<char>>,
    state_dir: Seq<u8>,
)
    ensures
        task_of(p, over, host, task, extra, target, state_dir) matches Ok(a) ==> {
            &&& !a.ssh && !a.ssh_client
            &&& !a.host_exec && a.host_exec_wrapper is None && a.host_exec_env.len() == 0
            &&& !a.detach && a.detach_log is None
            &&& a.inactivity_timeout_secs is None
            &&& a.state_dir == state_dir
        },
{
}

/// A build and the boot after it ask for the same images and the same cache: they differ in
/// nothing but the host-command allowlist, which no build reads.
pub proof fn law_build_warms_the_boot(
    p: PlanView,
    wrapper: Option<Seq<u8>>,
    over: OverridesView,
    host: HostView,
)
    ensures
        match (build_of(p, over, host, None), run_of(p, wrapper, over, host, CheckoutMode::Shared)) {
            (Ok(b), Ok(a)) => b == (RunArgsView { host_exec: false, host_exec_wrapper: None, ..a }),
            (Err(b), Err(a)) => a == b,
            _ => false,
        },
{
}

/// The command line is the last word on where stages cache, then the config, then this host.
pub proof fn law_cache_order(
    p: PlanView,
    wrapper: Option<Seq<u8>>,
    over: OverridesView,
    host: HostView,
    share: CheckoutMode,
)
    ensures
        run_of(p, wrapper, over, host, share) matches Ok(a) ==> {
            &&& over.cache_registry is Some ==> a.cache.registry == over.cache_registry
            &&& over.cache_registry is None && p.cache.registry is Some ==> a.cache.registry == p.cache.registry
            &&& over.cache_registry is None && p.cache.registry is None ==> a.cache.registry == host.cache.registry
            &&& a.cache.insecure == (over.cache_insecure || p.cache.insecure || host.cache.insecure)
        },
{
}

impl Default for Overrides {
    fn default() -> (r: Overrides)
        ensures
            r.cache_registry is None,
            !r.cache_insecure,
            r.freshness is None,
    {
        Overrides {
            cache_registry: None,
            cache_insecure: false,
            freshness: None,
        }
    }
}

/// Nothing is ever built behind a policy that says it must not be: a boot and a build of an
/// environment that is taken from the cache only ask for nothing else, and so does its task unless
/// it is the fallback stage that is built.
pub proof fn law_cached_only(
    p: PlanView,
    wrapper: Option<Seq<u8>>,
    over: OverridesView,
    host: HostView,
    share: CheckoutMode,
    service: Option<Seq<char>>,
    task: TaskView,
    extra: Seq<Seq<char>>,
    target: Option<Seq<char>>,
    state_dir: Seq<u8>,
)
    requires
        p.source is Build,
    ensures
        run_of(p, wrapper, over, host, share) matches Ok(a) ==> a.require_cached == p.cached_only,
        build_of(p, over, host, service) matches Ok(a) ==> a.require_cached == p.cached_only,
        task_of(p, over, host, task, extra, target, state_dir) matches Ok(a) ==> a.require_cached == (p.cached_only
            && target is None),
{
}

} // verus!
