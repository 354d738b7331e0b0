//! The run plan a `.virtkit/config.toml` resolves to on this host.
//!
//! The plan is the seam between configuration and execution: it is printed, compared, recorded
//! and run from. Values that came from the host environment, where a token would come from,
//! are marked and redacted when a plan is printed or recorded.

use crate::config::{Cache, CheckoutMode, Command, Cpus, Freshness, Nested, Policy, Requires};
use crate::path::{lossy_text, text_of_bytes, HostPath};
use crate::shell::{quote_word, word};
use crate::text::{
    cat2, cat3, cat4, cat5, copy_list, copy_opt, decimal, error, join, joined, outcome, put, same, to_decimal, Error,
};
use crate::value::{Json, JsonTree};
use vstd::prelude::*;

verus! {

/// A command by what it holds.
pub enum CommandView {
    Shell(Seq<char>),
    Argv(Seq<Seq<char>>),
}

impl DeepView for Command {
    type V = CommandView;

    open spec fn deep_view(&self) -> CommandView {
        match *self {
            Command::Shell(s) => CommandView::Shell(s@),
            Command::Argv(a) => CommandView::Argv(a.deep_view()),
        }
    }
}

pub fn copy_command(c: &Command) -> (r: Command)
    ensures
        r.deep_view() == c.deep_view(),
{
    match c {
        Command::Shell(s) => Command::Shell(s.clone()),
        Command::Argv(a) => Command::Argv(copy_list(a)),
    }
}

pub struct CacheView {
    pub registry: Option<Seq<char>>,
    pub insecure: bool,
}

impl DeepView for Cache {
    type V = CacheView;

    open spec fn deep_view(&self) -> CacheView {
        CacheView { registry: self.registry.deep_view(), insecure: self.insecure }
    }
}

pub struct RequiresView {
    pub min_version: Option<Seq<char>>,
    pub features: Seq<Seq<char>>,
}

impl DeepView for Requires {
    type V = RequiresView;

    open spec fn deep_view(&self) -> RequiresView {
        RequiresView { min_version: self.min_version.deep_view(), features: self.features.deep_view() }
    }
}

/// What the primary VM boots from.
#[derive(Debug)]
pub enum Source {
    /// a compose service, with its siblings on the run's LAN
    Compose {
        file: HostPath,
        service: String,
        /// profiles activated eagerly, besides the service's dependencies
        profiles: Vec<String>,
    },
    /// an image, alone
    Image { reference: String },
    /// a Dockerfile target, alone
    Build {
        context: HostPath,
        /// absolute; inside `context` unless the config said otherwise
        dockerfile: HostPath,
        target: Option<String>,
        /// `--build-arg` values, in config order
        args: Vec<(String, String)>,
    },
}

pub enum SourceView {
    Compose { file: Seq<u8>, service: Seq<char>, profiles: Seq<Seq<char>> },
    Image { reference: Seq<char> },
    Build {
        context: Seq<u8>,
        dockerfile: Seq<u8>,
        target: Option<Seq<char>>,
        args: Seq<(Seq<char>, Seq<char>)>,
    },
}

impl DeepView for Source {
    type V = SourceView;

    open spec fn deep_view(&self) -> SourceView {
        match *self {
            Source::Compose { file, service, profiles } => SourceView::Compose {
                file: file.deep_view(),
                service: service@,
                profiles: profiles.deep_view(),
            },
            Source::Image { reference } => SourceView::Image { reference: reference@ },
            Source::Build { context, dockerfile, target, args } => SourceView::Build {
                context: context.deep_view(),
                dockerfile: dockerfile.deep_view(),
                target: target.deep_view(),
                args: args.deep_view(),
            },
        }
    }
}

/// One `[dev.tasks.<name>]`, resolved: what runs, where, and how the environment is obtained.
#[derive(Debug)]
pub struct TaskPlan {
    pub name: String,
    pub argv: Vec<String>,
    /// the environment an ephemeral or required run uses
    pub environment: String,
    /// the environment a reusing policy attaches to when it is running
    pub reuse: String,
    pub policy: Policy,
    /// what the task sees of the checkout
    pub checkout: CheckoutMode,
    /// added to the environment's `exec-env` while it runs
    pub env: Vec<EnvVar>,
}

pub struct TaskView {
    pub name: Seq<char>,
    pub argv: Seq<Seq<char>>,
    pub environment: Seq<char>,
    pub reuse: Seq<char>,
    pub policy: Policy,
    pub checkout: CheckoutMode,
    pub env: Seq<EnvVarView>,
}

impl DeepView for TaskPlan {
    type V = TaskView;

    open spec fn deep_view(&self) -> TaskView {
        TaskView {
            name: self.name@,
            argv: self.argv.deep_view(),
            environment: self.environment@,
            reuse: self.reuse@,
            policy: self.policy,
            checkout: self.checkout,
            env: self.env.deep_view(),
        }
    }
}

/// An environment variable with its host provenance. Host values may contain tokens or
/// passwords, so printed plans redact them.
#[derive(Debug)]
pub struct EnvVar {
    pub name: String,
    pub value: String,
    /// a redacted plan still says which values this host fed
    pub sensitive: bool,
}

pub struct EnvVarView {
    pub name: Seq<char>,
    pub value: Seq<char>,
    pub sensitive: bool,
}

impl DeepView for EnvVar {
    type V = EnvVarView;

    open spec fn deep_view(&self) -> EnvVarView {
        EnvVarView { name: self.name@, value: self.value@, sensitive: self.sensitive }
    }
}

/// One `[dev.mounts.<name>]`, resolved: a host path, where it goes in the guest, and how.
#[derive(Debug)]
pub struct MountPlan {
    /// the config's name for it, or vk's own for a mount it manages
    pub name: String,
    /// the host path, absolute
    pub source: HostPath,
    /// the guest path, folded lexically; no two mounts in a plan share one
    pub to: String,
    pub read_only: bool,
    /// an absent source is skipped rather than a failure
    pub optional: bool,
}

pub struct MountView {
    pub name: Seq<char>,
    pub source: Seq<u8>,
    pub to: Seq<char>,
    pub read_only: bool,
    pub optional: bool,
}

impl DeepView for MountPlan {
    type V = MountView;

    open spec fn deep_view(&self) -> MountView {
        MountView {
            name: self.name@,
            source: self.source.deep_view(),
            to: self.to@,
            read_only: self.read_only,
            optional: self.optional,
        }
    }
}

/// How a mount is written: `source:to`, and its mode where it is not the plain one.
pub open spec fn mount_spec(m: MountView) -> Result<Seq<char>, Seq<char>> {
    match text_of_bytes(m.source) {
        None => Err("mount "@ + m.name + " ("@ + lossy_text(m.source) + ") is not valid UTF-8"@),
        Some(s) => Ok(
            s + ":"@ + m.to + match (m.read_only, m.optional) {
                (true, true) => ":ro,optional"@,
                (true, false) => ":ro"@,
                (false, true) => ":rw,optional"@,
                (false, false) => ""@,
            },
        ),
    }
}

impl MountPlan {
    /// The `vk run -v` spec this mount is.
    pub fn spec(&self) -> (r: Result<String, Error>)
        ensures
            outcome(r) == mount_spec(self.deep_view()),
    {
        match self.source.to_str() {
            None => Err(
                error(
                    cat5(
                        "mount ",
                        self.name.as_str(),
                        " (",
                        self.source.display().as_str(),
                        ") is not valid UTF-8",
                    ),
                ),
            ),
            Some(s) => {
                let mode = if self.read_only {
                    if self.optional {
                        ":ro,optional"
                    } else {
                        ":ro"
                    }
                } else if self.optional {
                    ":rw,optional"
                } else {
                    ""
                };
                Ok(cat4(s.as_str(), ":", self.to.as_str(), mode))
            },
        }
    }

    pub fn copy(&self) -> (r: MountPlan)
        ensures
            r.deep_view() == self.deep_view(),
    {
        MountPlan {
            name: self.name.clone(),
            source: self.source.copy(),
            to: self.to.clone(),
            read_only: self.read_only,
            optional: self.optional,
        }
    }
}

/// A guest port published on the host: the primary's once the environment is up, a service's
/// while that service runs.
#[derive(Debug)]
pub struct EndpointPlan {
    /// the publisher's name
    pub name: String,
    /// the compose service that listens; none for the primary
    pub service: Option<String>,
    /// the host port
    pub host_port: u16,
    /// the host address as configured: an address, or `auto` for the stable loopback
    /// allocation made when publishing
    pub address: String,
    /// `tcp://<address>:<host_port>` as configured
    pub listen: String,
    pub to: String,
    /// the URL's scheme and path
    pub scheme: Option<String>,
    pub path: Option<String>,
    /// the environment (or its service) is not ready until this is published
    pub required: bool,
}

pub struct EndpointView {
    pub name: Seq<char>,
    pub service: Option<Seq<char>>,
    pub host_port: u16,
    pub address: Seq<char>,
    pub listen: Seq<char>,
    pub to: Seq<char>,
    pub scheme: Option<Seq<char>>,
    pub path: Option<Seq<char>>,
    pub required: bool,
}

impl DeepView for EndpointPlan {
    type V = EndpointView;

    open spec fn deep_view(&self) -> EndpointView {
        EndpointView {
            name: self.name@,
            service: self.service.deep_view(),
            host_port: self.host_port,
            address: self.address@,
            listen: self.listen@,
            to: self.to@,
            scheme: self.scheme.deep_view(),
            path: self.path.deep_view(),
            required: self.required,
        }
    }
}

impl EndpointPlan {
    /// Whether the host address is allocated rather than configured.
    pub fn auto(&self) -> (r: bool)
        ensures
            r == (self.deep_view().address == "auto"@),
    {
        same(self.address.as_str(), "auto")
    }

    pub fn copy(&self) -> (r: EndpointPlan)
        ensures
            r.deep_view() == self.deep_view(),
    {
        EndpointPlan {
            name: self.name.clone(),
            service: copy_opt(&self.service),
            host_port: self.host_port,
            address: self.address.clone(),
            listen: self.listen.clone(),
            to: self.to.clone(),
            scheme: copy_opt(&self.scheme),
            path: copy_opt(&self.path),
            required: self.required,
        }
    }
}

#[derive(Debug)]
pub struct HostExecPlan {
    /// absolute: a project wrapper, or for a `builtin` policy the state-dir path the boot
    /// generates it at
    pub wrapper: HostPath,
    /// the built-in policy vk generates the wrapper for, if any (`git-gui`)
    pub builtin: Option<String>,
    pub env: Vec<String>,
}

pub struct HostExecView {
    pub wrapper: Seq<u8>,
    pub builtin: Option<Seq<char>>,
    pub env: Seq<Seq<char>>,
}

impl DeepView for HostExecPlan {
    type V = HostExecView;

    open spec fn deep_view(&self) -> HostExecView {
        HostExecView {
            wrapper: self.wrapper.deep_view(),
            builtin: self.builtin.deep_view(),
            env: self.env.deep_view(),
        }
    }
}

/// A hook, resolved: what runs, where, for how long, and whether its failure is the
/// operation's.
#[derive(Debug)]
pub enum HookPlan {
    Command(HookCommand),
    /// the named hooks run in turn; the group fails if a required member does
    Group(Vec<(String, HookPlan)>),
}

/// What a hook holds.
pub enum HookView {
    Command(HookCommandView),
    Group(Seq<(Seq<char>, HookView)>),
}

pub open spec fn hook_view(h: HookPlan) -> HookView
    decreases h,
{
    match h {
        HookPlan::Command(c) => HookView::Command(c.deep_view()),
        HookPlan::Group(g) => HookView::Group(
            Seq::new(
                g@.len(),
                |i: int|
                    if 0 <= i < g@.len() {
                        (g@[i].0@, hook_view(g@[i].1))
                    } else {
                        arbitrary()
                    },
            ),
        ),
    }
}

impl DeepView for HookPlan {
    type V = HookView;

    open spec fn deep_view(&self) -> HookView {
        hook_view(*self)
    }
}

/// A group holds what its members hold.
pub broadcast proof fn lemma_group(h: HookPlan)
    ensures
        #![trigger hook_view(h)]
        #![trigger h.deep_view()]
        h is Group ==> h.deep_view() == HookView::Group(h->Group_0.deep_view()),
{
    if h is Group {
        assert(hook_view(h)->Group_0 =~= h->Group_0.deep_view());
    }
}

#[derive(Debug)]
pub struct HookCommand {
    /// as the config wrote it: a shell line, or an argv list
    pub run: Command,
    /// relative to the workspace (host) or the workspace folder (guest) unless absolute
    pub cwd: Option<String>,
    pub timeout_secs: Option<u64>,
    pub required: bool,
}

pub struct HookCommandView {
    pub run: CommandView,
    pub cwd: Option<Seq<char>>,
    pub timeout_secs: Option<u64>,
    pub required: bool,
}

impl DeepView for HookCommand {
    type V = HookCommandView;

    open spec fn deep_view(&self) -> HookCommandView {
        HookCommandView {
            run: self.run.deep_view(),
            cwd: self.cwd.deep_view(),
            timeout_secs: self.timeout_secs,
            required: self.required,
        }
    }
}

/// The argv that runs: a string goes through a shell, a list is itself.
pub open spec fn argv_of(c: CommandView) -> Seq<Seq<char>> {
    match c {
        CommandView::Shell(s) => seq!["/bin/sh"@, "-c"@, s],
        CommandView::Argv(a) => a,
    }
}

/// A configured command as the argv that runs. A string is what a config means when it writes
/// `a && b`, so it goes through a shell; a list is written as a list to avoid one.
pub fn command_argv(c: &Command) -> (r: Vec<String>)
    ensures
        r.deep_view() == argv_of(c.deep_view()),
{
    match c {
        Command::Shell(s) => crate::draft::three("/bin/sh", "-c", s.as_str()),
        Command::Argv(a) => copy_list(a),
    }
}

impl HookCommand {
    /// The argv that runs.
    pub fn argv(&self) -> (r: Vec<String>)
        ensures
            r.deep_view() == argv_of(self.deep_view().run),
    {
        command_argv(&self.run)
    }
}

#[derive(Debug)]
pub struct HooksPlan {
    pub init: Option<HookPlan>,
    pub create: Option<HookPlan>,
    pub start: Option<HookPlan>,
}

pub struct HooksView {
    pub init: Option<HookView>,
    pub create: Option<HookView>,
    pub start: Option<HookView>,
}

impl DeepView for HooksPlan {
    type V = HooksView;

    open spec fn deep_view(&self) -> HooksView {
        HooksView {
            init: self.init.deep_view(),
            create: self.create.deep_view(),
            start: self.start.deep_view(),
        }
    }
}

/// The managed VS Code remote: kept across refreshes or not, and how it is reconciled.
#[derive(Debug)]
pub struct VsCodePlan {
    pub persistent: bool,
    /// the guest home the server data directory lives under
    pub home: String,
    pub reconcile: Option<HookPlan>,
    pub extensions: Vec<String>,
    pub settings: Json,
}

pub struct VsCodeView {
    pub persistent: bool,
    pub home: Seq<char>,
    pub reconcile: Option<HookView>,
    pub extensions: Seq<Seq<char>>,
    pub settings: JsonTree,
}

impl DeepView for VsCodePlan {
    type V = VsCodeView;

    open spec fn deep_view(&self) -> VsCodeView {
        VsCodeView {
            persistent: self.persistent,
            home: self.home@,
            reconcile: self.reconcile.deep_view(),
            extensions: self.extensions.deep_view(),
            settings: self.settings.deep_view(),
        }
    }
}

/// What a config resolves to on this host.
#[derive(Debug)]
pub struct Plan {
    /// the checkout, absolute
    pub workspace: HostPath,
    /// the config it was read from, absolute
    pub config: HostPath,
    /// `dev`, or a name under `[environments]`
    pub environment: String,
    pub state_dir: HostPath,
    pub source: Source,
    /// where the checkout is in the guest
    pub workspace_folder: Option<String>,
    /// who exec, shell and SSH sessions run as
    pub user: Option<String>,
    pub freshness: Freshness,
    pub cpus: Option<Cpus>,
    pub mem: Option<String>,
    pub nested: Nested,
    /// extra binds, in name order, vk's own among them
    pub mounts: Vec<MountPlan>,
    pub container_env: Vec<EnvVar>,
    pub exec_env: Vec<EnvVar>,
    pub endpoints: Vec<EndpointPlan>,
    pub host_exec: Option<HostExecPlan>,
    pub ssh_agent: bool,
    pub cache: Cache,
    pub requires: Requires,
    /// the image is restored from the cache and never built (a `build` source only)
    pub cached_only: bool,
    /// the stage `cached_only` builds instead when the cache misses
    pub fallback_target: Option<String>,
    /// what `vk dev task` runs, in name order
    pub tasks: Vec<TaskPlan>,
    pub hooks: HooksPlan,
    pub vscode: Option<VsCodePlan>,
    /// mount sources under the state dir that the boot creates before the VM mounts them
    pub managed_dirs: Vec<HostPath>,
    /// `${localEnv:…}` references this host could not fill, one message each
    pub unresolved: Vec<String>,
    /// what this host fed the config through `${localEnv:…}`, wherever it expanded: what a
    /// printed plan must not spell out
    pub secrets: Vec<String>,
}

pub struct PlanView {
    pub workspace: Seq<u8>,
    pub config: Seq<u8>,
    pub environment: Seq<char>,
    pub state_dir: Seq<u8>,
    pub source: SourceView,
    pub workspace_folder: Option<Seq<char>>,
    pub user: Option<Seq<char>>,
    pub freshness: Freshness,
    pub cpus: Option<Cpus>,
    pub mem: Option<Seq<char>>,
    pub nested: Nested,
    pub mounts: Seq<MountView>,
    pub container_env: Seq<EnvVarView>,
    pub exec_env: Seq<EnvVarView>,
    pub endpoints: Seq<EndpointView>,
    pub host_exec: Option<HostExecView>,
    pub ssh_agent: bool,
    pub cache: CacheView,
    pub requires: RequiresView,
    pub cached_only: bool,
    pub fallback_target: Option<Seq<char>>,
    pub tasks: Seq<TaskView>,
    pub hooks: HooksView,
    pub vscode: Option<VsCodeView>,
    pub managed_dirs: Seq<Seq<u8>>,
    pub unresolved: Seq<Seq<char>>,
    pub secrets: Seq<Seq<char>>,
}

impl DeepView for Plan {
    type V = PlanView;

    open spec fn deep_view(&self) -> PlanView {
        PlanView {
            workspace: self.workspace.deep_view(),
            config: self.config.deep_view(),
            environment: self.environment@,
            state_dir: self.state_dir.deep_view(),
            source: self.source.deep_view(),
            workspace_folder: self.workspace_folder.deep_view(),
            user: self.user.deep_view(),
            freshness: self.freshness,
            cpus: self.cpus,
            mem: self.mem.deep_view(),
            nested: self.nested,
            mounts: self.mounts.deep_view(),
            container_env: self.container_env.deep_view(),
            exec_env: self.exec_env.deep_view(),
            endpoints: self.endpoints.deep_view(),
            host_exec: self.host_exec.deep_view(),
            ssh_agent: self.ssh_agent,
            cache: self.cache.deep_view(),
            requires: self.requires.deep_view(),
            cached_only: self.cached_only,
            fallback_target: self.fallback_target.deep_view(),
            tasks: self.tasks.deep_view(),
            hooks: self.hooks.deep_view(),
            vscode: self.vscode.deep_view(),
            managed_dirs: self.managed_dirs.deep_view(),
            unresolved: self.unresolved.deep_view(),
            secrets: self.secrets.deep_view(),
        }
    }
}

/// Whether a run asks for nested virtualization, on a host that offers it or does not.
pub open spec fn nests(nested: Nested, host_offers: bool) -> bool {
    match nested {
        Nested::Off => false,
        Nested::Auto => host_offers,
        Nested::Required => true,
    }
}

/// What a plan with references this host could not fill says.
pub open spec fn unresolved_error(unresolved: Seq<Seq<char>>) -> Option<Seq<char>> {
    if unresolved.len() == 0 {
        None
    } else {
        Some(
            "the config refers to host variables this shell does not have:\n  "@ + joined(unresolved, "\n  "@),
        )
    }
}

impl Plan {
    /// Whether the run asks for nested virtualization on this host: always where it is
    /// required, only where the host offers it for `"auto"`.
    pub fn nests_here(&self, host_offers: bool) -> (r: bool)
        ensures
            r == nests(self.nested, host_offers),
    {
        match self.nested {
            Nested::Off => false,
            Nested::Auto => host_offers,
            Nested::Required => true,
        }
    }

    /// Fail unless every `${localEnv:…}` was filled: what stands before a boot or a session,
    /// where an empty token would be worse than a refusal.
    pub fn require_resolved(&self) -> (r: Result<(), Error>)
        ensures
            outcome(r) == crate::validate::verdict(unresolved_error(self.deep_view().unresolved)),
    {
        assert(self.unresolved@.len() == self.unresolved.deep_view().len());
        if self.unresolved.len() == 0 {
            return Ok(());
        }
        Err(
            error(
                cat2(
                    "the config refers to host variables this shell does not have:\n  ",
                    join(&self.unresolved, "\n  ").as_str(),
                ),
            ),
        )
    }
}

/// The words as a shell takes them, with a space between them.
pub open spec fn words_shown(a: Seq<Seq<char>>) -> Seq<char> {
    joined(Seq::new(a.len(), |i: int| word(a[i])), " "@)
}

pub fn show_words(a: &Vec<String>) -> (r: String)
    ensures
        r@ == words_shown(a.deep_view()),
{
    let ghost all = Seq::new(a.deep_view().len(), |i: int| word(a.deep_view()[i]));
    let mut out: Vec<String> = Vec::new();
    let mut i: usize = 0;
    while i < a.len()
        invariant
            i <= a@.len(),
            all == Seq::new(a.deep_view().len(), |i: int| word(a.deep_view()[i])),
            out.deep_view() == all.take(i as int),
        decreases a@.len() - i,
    {
        assert(a.deep_view()[i as int] == a@[i as int]@);
        put(&mut out, quote_word(a[i].as_str()));
        assert(out.deep_view() =~= all.take(i + 1));
        i = i + 1;
    }
    assert(out.deep_view() =~= all);
    join(&out, " ")
}

/// One command as a reader sees it.
pub open spec fn command_said(c: HookCommandView) -> Seq<char> {
    (match c.run {
        CommandView::Shell(l) => l,
        CommandView::Argv(a) => words_shown(a),
    }) + (match c.cwd {
        Some(d) => " (in "@ + word(d) + ")"@,
        None => ""@,
    }) + (match c.timeout_secs {
        Some(t) => " (within "@ + decimal(t as nat) + "s)"@,
        None => ""@,
    }) + (if c.required {
        ""@
    } else {
        " (best effort)"@
    })
}

/// What would run, on one line.
pub open spec fn hook_said(h: HookView) -> Seq<char>
    decreases h, 1int, 0int,
{
    match h {
        HookView::Command(c) => command_said(c),
        HookView::Group(g) => members_said(h, g.len() as int),
    }
}

/// What the first `n` members of a group would run.
pub open spec fn members_said(h: HookView, n: int) -> Seq<char>
    decreases h, 0int, n,
{
    match h {
        HookView::Group(g) => if n <= 0 || n > g.len() {
            Seq::empty()
        } else if n == 1 {
            g[0].0 + ": "@ + hook_said(g[0].1)
        } else {
            members_said(h, n - 1) + "; "@ + (g[n - 1].0 + ": "@ + hook_said(g[n - 1].1))
        },
        _ => Seq::empty(),
    }
}

impl HookPlan {
    /// One line saying what would run: a shell line reads as itself, and an argv list as the
    /// words it is.
    pub fn describe(&self) -> (r: String)
        ensures
            r@ == hook_said(self.deep_view()),
        decreases self.deep_view(),
    {
        match self {
            HookPlan::Command(c) => {
                let run = match &c.run {
                    Command::Shell(l) => l.clone(),
                    Command::Argv(a) => show_words(a),
                };
                let cwd = match &c.cwd {
                    Some(d) => cat3(" (in ", quote_word(d.as_str()).as_str(), ")"),
                    None => "".to_owned(),
                };
                let within = match c.timeout_secs {
                    Some(t) => cat3(" (within ", to_decimal(t).as_str(), "s)"),
                    None => "".to_owned(),
                };
                let effort = if c.required {
                    ""
                } else {
                    " (best effort)"
                };
                cat4(run.as_str(), cwd.as_str(), within.as_str(), effort)
            },
            HookPlan::Group(g) => {
                let ghost s = g.deep_view();
                let ghost h = self.deep_view();
                proof {
                    lemma_group(*self);
                }
                let mut out = String::new();
                let mut i: usize = 0;
                while i < g.len()
                    invariant
                        i <= g@.len(),
                        s == g.deep_view(),
                        h == self.deep_view(),
                        h == HookView::Group(s),
                        out@ == members_said(h, i as int),
                    decreases g@.len() - i,
                {
                    assert(s[i as int] == (g@[i as int].0@, g@[i as int].1.deep_view()));
                    assert(decreases_to!(s => s[i as int]));
                    assert(decreases_to!(s[i as int] => s[i as int].1));
                    assert(decreases_to!(h => h->Group_0));
                    let one = cat3(g[i].0.as_str(), ": ", g[i].1.describe().as_str());
                    if i > 0 {
                        out.append("; ");
                    }
                    assert(i == 0 ==> out@ + one@ =~= one@);
                    out.append(one.as_str());
                    i = i + 1;
                }
                out
            },
        }
    }

    pub fn copy(&self) -> (r: HookPlan)
        ensures
            r.deep_view() == self.deep_view(),
        decreases self.deep_view(),
    {
        match self {
            HookPlan::Command(c) => HookPlan::Command(
                HookCommand {
                    run: copy_command(&c.run),
                    cwd: copy_opt(&c.cwd),
                    timeout_secs: c.timeout_secs,
                    required: c.required,
                },
            ),
            HookPlan::Group(g) => {
                let ghost s = g.deep_view();
                let ghost h = self.deep_view();
                proof {
                    lemma_group(*self);
                }
                let mut out: Vec<(String, HookPlan)> = Vec::new();
                let mut i: usize = 0;
                while i < g.len()
                    invariant
                        i <= g@.len(),
                        s == g.deep_view(),
                        h == self.deep_view(),
                        h == HookView::Group(s),
                        out.deep_view() == s.take(i as int),
                    decreases g@.len() - i,
                {
                    assert(s[i as int] == (g@[i as int].0@, g@[i as int].1.deep_view()));
                    assert(decreases_to!(s => s[i as int]));
                    assert(decreases_to!(s[i as int] => s[i as int].1));
                    assert(decreases_to!(h => h->Group_0));
                    put(&mut out, (g[i].0.clone(), g[i].1.copy()));
                    assert(out.deep_view() =~= s.take(i + 1));
                    i = i + 1;
                }
                assert(out.deep_view() =~= s);
                let r = HookPlan::Group(out);
                proof {
                    lemma_group(r);
                }
                r
            },
        }
    }
}

} // verus!
