//! `.virtkit/config.toml`: a project's description of its development environments.
//!
//! A project states its environment once, in a tracked file, and every `vk dev` command works
//! from that. Compose stays the description of a service LAN; the config names which service
//! is the one you work in, or an image or Dockerfile when there is no LAN, and adds what
//! compose cannot say: who you are inside, what the host mounts and publishes, which hooks
//! run and when.
//!
//! A map from names is the list of its entries, in key order.

use crate::path::HostPath;
use crate::value::Toml;
use vstd::prelude::*;

verus! {

/// The tracked config, relative to the workspace root.
pub const CONFIG_FILE: &'static str = ".virtkit/config.toml";

/// This machine's overrides, under the workspace root.
pub const LOCAL_FILE: &'static str = ".virtkit/local.toml";

/// Local values for `${localEnv:…}`, under the workspace root.
pub const LOCAL_ENV_FILE: &'static str = ".virtkit/local.env";

/// The schema version this build reads.
pub const SCHEMA: i64 = 1;

/// What a written config pins as `requires.min-version`.
pub const MIN_VERSION: &'static str = "0.64.0";

/// One layer as written, or the layers merged.
#[derive(Debug)]
pub struct Schema {
    /// the schema version; required in the tracked file
    pub schema: Option<i64>,
    /// local overrides only: dotted paths to drop from the inherited config
    pub remove: Vec<String>,
    /// local overrides only: further env files, relative to the workspace root
    pub env_files: Vec<String>,
    pub requires: Requires,
    /// the development environment
    pub dev: Option<Environment>,
    /// further named environments; each stands alone and inherits nothing from `dev`
    pub environments: Vec<(String, Environment)>,
}

/// What this project needs of the `vk` reading it.
#[derive(Debug)]
pub struct Requires {
    /// the oldest release that implements everything the config uses
    pub min_version: Option<String>,
    /// `vk check --feature` names the build must answer for
    pub features: Vec<String>,
}

/// One environment: exactly one source, and how to be in it.
#[derive(Debug)]
pub struct Environment {
    /// a compose file, relative to the workspace root; the environment is one of its services
    pub compose: Option<String>,
    /// the compose service to work in
    pub service: Option<String>,
    /// an image reference, for an environment with no service LAN
    pub image: Option<String>,
    /// a Dockerfile target, for an environment built from the project
    pub build: Option<Build>,
    /// take the image from the build cache and never build it
    pub cached_only: bool,
    /// what to build when `cached-only` misses the cache
    pub fallback: Option<Fallback>,
    /// where the workspace is mounted in the guest
    pub workspace: Option<String>,
    /// the user exec, shell and SSH sessions run as
    pub user: Option<String>,
    /// what to do when the running environment no longer matches the config
    pub freshness: Option<Freshness>,
    /// compose profiles activated eagerly, besides the primary's dependencies
    pub profiles: Vec<String>,
    /// vCPUs for the primary
    pub cpus: Option<Cpus>,
    /// memory for the primary (`16G`)
    pub mem: Option<String>,
    /// whether the guest may run virtual machines of its own
    pub nested: Nested,
    /// environment for development sessions: exec, shell, SSH and editor processes
    pub exec_env: Vec<(String, String)>,
    /// environment for the guest's own processes, set at boot
    pub container_env: Vec<(String, String)>,
    /// extra host directories or files in the guest, by name
    pub mounts: Vec<(String, Mount)>,
    pub editor: Editor,
    pub host: Host,
    pub cache: Cache,
    /// guest ports published on the host, by name
    pub endpoints: Vec<(String, Endpoint)>,
    pub network: Network,
    pub hooks: Hooks,
    /// project commands `vk dev task <name>` runs, by name
    pub tasks: Vec<(String, Task)>,
}

/// `build = { context = "docker/x", dockerfile = "Dockerfile", target = "dev" }`.
#[derive(Debug)]
pub struct Build {
    /// the build context, relative to the workspace root; required once layered
    pub context: Option<String>,
    /// the Dockerfile, relative to the context (default `Dockerfile`)
    pub dockerfile: Option<String>,
    /// the stage to boot (default: the last one)
    pub target: Option<String>,
    /// `--build-arg` values for the build, by name
    pub args: Vec<(String, String)>,
}

/// The smaller stage a `cached-only` environment builds when its own is not in the cache.
#[derive(Debug)]
pub struct Fallback {
    /// the Dockerfile stage to build instead; required once layered
    pub target: Option<String>,
}

/// `[dev.tasks.<name>]`: a project command, and where and how it is executed.
#[derive(Debug)]
pub struct Task {
    /// a shell string or an argv list, run in the workspace folder; required once layered
    pub run: Option<Command>,
    /// where it runs: `dev` (default), or a name under `[environments]`
    pub environment: Option<String>,
    /// which running environment the reusing policies attach to (default: `environment`)
    pub reuse: Option<String>,
    /// how the environment is obtained (default `reuse-or-ephemeral`)
    pub policy: Option<Policy>,
    /// how the checkout reaches the guest while it runs
    pub checkout: Option<CheckoutMode>,
    /// added to the environment's `exec-env` while it runs
    pub env: Vec<(String, String)>,
    /// `false` in a local layer switches an inherited task off
    pub enabled: bool,
}

/// What a task does about the environment it needs.
#[derive(Debug, Clone, Copy, PartialEq, Eq, Structural)]
pub enum Policy {
    /// attach to a running environment, and fail when none runs
    Reuse,
    /// boot it first
    Require,
    /// boot a throwaway VM for the command and tear it down
    Ephemeral,
    /// the running one when there is one, a throwaway otherwise
    ReuseOrEphemeral,
}

impl Policy {
    pub open spec fn spelling(self) -> Seq<char> {
        match self {
            Policy::Reuse => "reuse"@,
            Policy::Require => "require"@,
            Policy::Ephemeral => "ephemeral"@,
            Policy::ReuseOrEphemeral => "reuse-or-ephemeral"@,
        }
    }

    /// The spelling the config uses.
    pub fn as_str(self) -> (r: &'static str)
        ensures
            r@ == self.spelling(),
    {
        match self {
            Policy::Reuse => "reuse",
            Policy::Require => "require",
            Policy::Ephemeral => "ephemeral",
            Policy::ReuseOrEphemeral => "reuse-or-ephemeral",
        }
    }
}

/// What a task sees of the checkout.
#[derive(Debug, Clone, Copy, PartialEq, Eq, Structural)]
pub enum CheckoutMode {
    /// the host's tree, written through
    Shared,
    /// a tmpfs overlay over it: the task's writes go with the VM
    Overlay,
}

impl CheckoutMode {
    pub open spec fn spelling(self) -> Seq<char> {
        match self {
            CheckoutMode::Shared => "shared"@,
            CheckoutMode::Overlay => "overlay"@,
        }
    }

    /// The spelling the config uses.
    pub fn as_str(self) -> (r: &'static str)
        ensures
            r@ == self.spelling(),
    {
        match self {
            CheckoutMode::Shared => "shared",
            CheckoutMode::Overlay => "overlay",
        }
    }
}

/// What `vk dev` does when the environment that is running was booted from something other
/// than what the config now says.
#[derive(Debug, Clone, Copy, PartialEq, Eq, Structural)]
pub enum Freshness {
    /// offer a refresh on a terminal; declining, or having no terminal, reuses with a note
    Ask,
    /// attach to the recorded running environment and report the differences
    Reuse,
    /// rebuild and replace it
    Refresh,
    /// fail, naming the differences and the command that reconciles them
    RequireCurrent,
}

impl Freshness {
    pub open spec fn spelling(self) -> Seq<char> {
        match self {
            Freshness::Ask => "ask"@,
            Freshness::Reuse => "reuse"@,
            Freshness::Refresh => "refresh"@,
            Freshness::RequireCurrent => "require-current"@,
        }
    }

    /// The spelling the config uses.
    pub fn as_str(self) -> (r: &'static str)
        ensures
            r@ == self.spelling(),
    {
        match self {
            Freshness::Ask => "ask",
            Freshness::Reuse => "reuse",
            Freshness::Refresh => "refresh",
            Freshness::RequireCurrent => "require-current",
        }
    }
}

/// `cpus = 4` or `cpus = "host"`.
#[derive(Debug, Clone, Copy, PartialEq, Eq, Structural)]
pub enum Cpus {
    Count(u32),
    /// as many as the host has
    Host,
}

impl Cpus {
    pub open spec fn spelling(self) -> Seq<char> {
        match self {
            Cpus::Count(n) => crate::text::decimal(n as nat),
            Cpus::Host => "host"@,
        }
    }

    /// As the config spells it.
    pub fn to_text(self) -> (r: String)
        ensures
            r@ == self.spelling(),
    {
        match self {
            Cpus::Count(n) => crate::text::to_decimal(n as u64),
            Cpus::Host => "host".to_owned(),
        }
    }
}

/// Whether the guest may run virtual machines of its own.
#[derive(Debug, Clone, Copy, PartialEq, Eq, Structural)]
pub enum Nested {
    Off,
    /// where the host offers it
    Auto,
    /// asked for whatever the host says
    Required,
}

/// `[dev.mounts.<name>]`.
#[derive(Debug)]
pub struct Mount {
    /// the host path, with its variables expanded; required once layered
    pub source: Option<String>,
    /// the guest path; required once layered
    pub to: Option<String>,
    pub read_only: bool,
    /// skip the mount when the source does not exist, rather than failing the boot
    pub optional: bool,
    /// `false` in a local layer switches an inherited mount off
    pub enabled: bool,
}

#[derive(Debug)]
pub struct Editor {
    pub vscode: Option<VsCode>,
}

/// `[dev.editor.vscode]`: the managed VS Code server state and how it is reconciled.
#[derive(Debug)]
pub struct VsCode {
    /// whether the server and its extensions are kept across refreshes
    pub state: Option<EditorState>,
    /// the user's home in the guest; default `/root` for root and `/home/<user>` otherwise
    pub home: Option<String>,
    /// a project command run in the guest once the editor server is up
    pub reconcile: Option<Hook>,
    /// extensions to install in the remote
    pub extensions: Vec<String>,
    /// remote settings to apply, without touching unrelated user preferences
    pub settings: Vec<(String, Toml)>,
}

#[derive(Debug, Clone, Copy, PartialEq, Eq, Structural)]
pub enum EditorState {
    Persistent,
    Ephemeral,
}

impl EditorState {
    pub open spec fn spelling(self) -> Seq<char> {
        match self {
            EditorState::Persistent => "persistent"@,
            EditorState::Ephemeral => "ephemeral"@,
        }
    }

    /// The spelling the config uses.
    pub fn as_str(self) -> (r: &'static str)
        ensures
            r@ == self.spelling(),
    {
        match self {
            EditorState::Persistent => "persistent",
            EditorState::Ephemeral => "ephemeral",
        }
    }
}

/// `[dev.host]`: what the guest may reach on the host. Everything here is off by default.
#[derive(Debug)]
pub struct Host {
    /// the built-in Git GUI policy
    pub git_gui: bool,
    /// forward the host's SSH agent into the guest
    pub ssh_agent: bool,
    /// a project's own host-command dispatcher, relative to the workspace root
    pub wrapper: Option<String>,
    /// environment variable patterns passed through to the wrapper
    pub wrapper_env: Vec<String>,
}

/// `[dev.cache]`: where built stages are cached.
#[derive(Debug)]
pub struct Cache {
    pub registry: Option<String>,
    pub insecure: bool,
}

/// `[dev.endpoints.<name>]`: one guest port, published on the host.
#[derive(Debug)]
pub struct Endpoint {
    /// the compose service that listens (default: the primary)
    pub service: Option<String>,
    /// the guest port; required once layered
    pub target: Option<u16>,
    /// the preferred host port (default: the same number)
    pub host_port: Option<u16>,
    /// the host address: `auto` for a stable loopback allocation, or an address
    pub address: Option<String>,
    /// the URL scheme to open it with, and the path
    pub scheme: Option<String>,
    pub path: Option<String>,
    /// the environment is not ready until this is published
    pub required: bool,
    pub enabled: bool,
}

/// `[dev.network]`.
#[derive(Debug)]
pub struct Network {
    /// `unrestricted` (default)
    pub egress: Option<Egress>,
}

#[derive(Debug, Clone, Copy, PartialEq, Eq, Structural)]
pub enum Egress {
    Unrestricted,
    /// read so that a config asking for it is refused by name
    Restricted,
}

/// `[dev.hooks]`: when project commands run around the environment.
#[derive(Debug)]
pub struct Hooks {
    /// on the host, from the workspace, before every build or start attempt
    pub init: Option<Hook>,
    /// in the guest, once per materialized environment generation
    pub create: Option<Hook>,
    /// in the guest, on each actual start
    pub start: Option<Hook>,
}

/// A hook in any of its forms: a shell string, an argv array, a table with `run` and its
/// options, or a table of named hooks that run as a group.
#[derive(Debug)]
pub enum Hook {
    /// through a shell
    Shell(String),
    /// argv, run directly
    Argv(Vec<String>),
    /// a command with options
    Detailed(HookSpec),
    /// the named hooks run in turn; the group fails if any required member does
    Group(Vec<(String, Hook)>),
}

#[derive(Debug)]
pub struct HookSpec {
    /// a shell string or an argv array; required once layered
    pub run: Option<Command>,
    /// the working directory (default: the workspace)
    pub cwd: Option<String>,
    /// how long it may take (`10m`, `90s`)
    pub timeout: Option<String>,
    /// a failure fails the operation, or is reported and lets it continue
    pub required: bool,
}

#[derive(Debug)]
pub enum Command {
    Shell(String),
    Argv(Vec<String>),
}

/// The files one environment description is read from.
#[derive(Debug)]
pub struct Files {
    /// the project root: what paths in the config are relative to
    pub workspace: HostPath,
    pub config: HostPath,
    /// present when the file exists
    pub local: Option<HostPath>,
    pub local_env: Option<HostPath>,
}

/// Where a configured value came from.
#[derive(Debug, Clone, Copy, PartialEq, Eq, Structural)]
pub enum Layer {
    Project,
    Local,
}

impl Default for Schema {
    fn default() -> (r: Schema)
        ensures
            r.schema is None,
            r.remove@.len() == 0,
            r.env_files@.len() == 0,
            r.requires.min_version is None,
            r.requires.features@.len() == 0,
            r.dev is None,
            r.environments@.len() == 0,
    {
        Schema {
            schema: None,
            remove: Vec::new(),
            env_files: Vec::new(),
            requires: Requires::default(),
            dev: None,
            environments: Vec::new(),
        }
    }
}

impl Default for Requires {
    fn default() -> (r: Requires)
        ensures
            r.min_version is None,
            r.features@.len() == 0,
    {
        Requires {
            min_version: None,
            features: Vec::new(),
        }
    }
}

impl Default for Environment {
    fn default() -> (r: Environment)
        ensures
            r.compose is None,
            r.service is None,
            r.image is None,
            r.build is None,
            !r.cached_only,
            r.fallback is None,
            r.workspace is None,
            r.user is None,
            r.freshness is None,
            r.profiles@.len() == 0,
            r.cpus is None,
            r.mem is None,
            r.nested == Nested::Off,
            r.exec_env@.len() == 0,
            r.container_env@.len() == 0,
            r.mounts@.len() == 0,
            r.editor.vscode is None,
            !r.host.git_gui,
            !r.host.ssh_agent,
            r.host.wrapper is None,
            r.host.wrapper_env@.len() == 0,
            r.cache.registry is None,
            !r.cache.insecure,
            r.endpoints@.len() == 0,
            r.network.egress is None,
            r.hooks.init is None,
            r.hooks.create is None,
            r.hooks.start is None,
            r.tasks@.len() == 0,
    {
        Environment {
            compose: None,
            service: None,
            image: None,
            build: None,
            cached_only: false,
            fallback: None,
            workspace: None,
            user: None,
            freshness: None,
            profiles: Vec::new(),
            cpus: None,
            mem: None,
            nested: Nested::Off,
            exec_env: Vec::new(),
            container_env: Vec::new(),
            mounts: Vec::new(),
            editor: Editor::default(),
            host: Host::default(),
            cache: Cache::default(),
            endpoints: Vec::new(),
            network: Network::default(),
            hooks: Hooks::default(),
            tasks: Vec::new(),
        }
    }
}

impl Default for Build {
    fn default() -> (r: Build)
        ensures
            r.context is None,
            r.dockerfile is None,
            r.target is None,
            r.args@.len() == 0,
    {
        Build {
            context: None,
            dockerfile: None,
            target: None,
            args: Vec::new(),
        }
    }
}

impl Default for Editor {
    fn default() -> (r: Editor)
        ensures
            r.vscode is None,
    {
        Editor {
            vscode: None,
        }
    }
}

impl Default for VsCode {
    fn default() -> (r: VsCode)
        ensures
            r.state is None,
            r.home is None,
            r.reconcile is None,
            r.extensions@.len() == 0,
            r.settings@.len() == 0,
    {
        VsCode {
            state: None,
            home: None,
            reconcile: None,
            extensions: Vec::new(),
            settings: Vec::new(),
        }
    }
}

impl Default for Host {
    fn default() -> (r: Host)
        ensures
            !r.git_gui,
            !r.ssh_agent,
            r.wrapper is None,
            r.wrapper_env@.len() == 0,
    {
        Host {
            git_gui: false,
            ssh_agent: false,
            wrapper: None,
            wrapper_env: Vec::new(),
        }
    }
}

impl Default for Cache {
    fn default() -> (r: Cache)
        ensures
            r.registry is None,
            !r.insecure,
    {
        Cache {
            registry: None,
            insecure: false,
        }
    }
}

impl Default for Network {
    fn default() -> (r: Network)
        ensures
            r.egress is None,
    {
        Network {
            egress: None,
        }
    }
}

impl Default for Hooks {
    fn default() -> (r: Hooks)
        ensures
            r.init is None,
            r.create is None,
            r.start is None,
    {
        Hooks {
            init: None,
            create: None,
            start: None,
        }
    }
}

} // verus!
