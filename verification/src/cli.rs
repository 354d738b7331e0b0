//! `vk dev`: what its commands are, which of them bring the environment up, and what they print.
//!
//! Parsing a command line and doing what it says are the caller's. Here is what is decided on the
//! way: [`Dev::boots`] says whether a fork is needed before anything runs, [`stage`] what has to
//! be resolved first, [`brings_up`] whether the environment is brought up before the action, and
//! the rest what is printed and with which code a command exits.

use crate::boot::answer_given;
use crate::config::{Freshness, Layer};
use crate::discover::FilesView;
use crate::endpoints::{EndpointState, EndpointStateView, Which, WhichView};
use crate::list::{preview, preview_upto, Entry, EntryView, Row, RowView};
use crate::layers::{leaves_of, lemma_leaves_ordered};
use crate::loaded::{origins_of, Loaded, MergedView, OriginView};
use crate::path::{joined_path, lossy_text, relative_to, HostPath};
use crate::plan::Plan;
use crate::planjson::{path_error, plan_json, plan_paths_text, plan_sound};
use crate::redact::redacted;
use crate::render::shell_text;
use crate::text::{cat2, cat3, cat6, debug_text, decimal, error, pad, padded, quoted, same, to_decimal, Error};
use crate::value::{
    json_pretty_shown, lemma_table_is_ordered, ordered, ordered_entries, toml_text, written, Tree,
};
use vstd::prelude::*;
use vstd::utf8::encode_utf8;

verus! {

/// A `vk dev` command line.
#[derive(Debug)]
pub struct Dev {
    pub action: DevAction,
    /// the workspace, instead of finding it from the current directory
    pub workspace: Option<HostPath>,
    /// the config file to read, instead of `.virtkit/config.toml`
    pub dev_config: Option<HostPath>,
    /// the environment to work in: `dev`, or a name under `[environments]`
    pub environment: String,
    /// what to do about a running environment that no longer matches the config
    pub freshness: Option<Freshness>,
    /// where built stages are cached, over the config's own
    pub cache_registry: Option<String>,
    /// the cache registry speaks plain HTTP
    pub cache_insecure: bool,
}

/// What `vk dev` is asked to do.
#[derive(Debug)]
pub enum DevAction {
    /// write a first config, or validate the one that exists
    Init { from: Option<crate::init::Source>, image: Option<String>, force: bool },
    /// bring the environment up, or confirm it already is
    Up { no_wait: bool },
    /// run a command in the environment, bringing it up first
    Exec { dir: Option<String>, tty: bool, service: Option<String>, user: Option<String>, command: Vec<String> },
    /// open an interactive shell in the environment, bringing it up first
    Shell,
    /// open the workspace in VS Code, bringing the environment up first
    Code { editor: Option<String> },
    /// follow or retry the editor reconciliation
    Editor { action: EditorAction },
    /// list the environment's endpoints
    Endpoints { service: Option<String>, primary: bool, json: bool },
    /// open an endpoint's URL
    Open { name: String, print: bool },
    /// control the environment's compose services
    Service { action: DevServiceAction },
    /// run a project task where its policy says
    Task { name: String, args: Vec<String> },
    /// build the environment's images into the cache
    Build { service: Option<String> },
    /// list the environment's storage, and reset one item of it
    Storage { action: DevStorageAction },
    /// the detached reconciliation `code` starts
    EditorReconcile { editor: String },
    /// SSH into the environment, which must be up
    Ssh { args: Vec<String> },
    /// print the environment's ssh_config stanza
    SshConfig,
    /// rebuild the environment and restart it into the result
    Refresh { dry_run: bool },
    /// say whether the environment is running, and whether it still matches its config
    Status { json: bool },
    /// show the environment's console log, or a service's
    Logs {
        service: Option<String>,
        lines: usize,
        level: Option<String>,
        kernel: bool,
        agent: bool,
        guest: bool,
        follow: bool,
    },
    /// check that this host can run the environment
    Doctor,
    /// stop the environment and everything published from it
    Stop { timeout: u64 },
    /// list every dev environment this host keeps state for
    List { json: bool, sizes: bool },
    /// remove the state of environments that are finished with
    Gc { yes: bool, all_stale: bool, names: Vec<String> },
    /// print what the config resolves to
    Plan { format: PlanFormat, show_secrets: bool, explain: bool, diff: bool },
    /// print the JSON schema of the config
    Schema,
}

/// `vk dev editor`: the reconciliation that follows `vk dev code`.
#[derive(Debug)]
pub enum EditorAction {
    Status { json: bool },
    Log,
    Retry { editor: Option<String> },
}

/// `vk dev service`: one operation on one service, or the state of all.
#[derive(Debug)]
pub enum DevServiceAction {
    Up { name: String },
    Down { name: String },
    Reboot { name: String },
    Status { name: Option<String> },
}

/// `vk dev storage`: what the environment keeps, and the one operation that removes it.
#[derive(Debug)]
pub enum DevStorageAction {
    List { json: bool, sizes: bool },
    Reset { name: String, yes: bool },
}

#[derive(Debug, Clone, Copy, PartialEq, Eq, Structural)]
pub enum PlanFormat {
    /// every resolved value, as JSON
    Json,
    /// the `vk run` the plan stands for, for reading rather than running
    Shell,
}

/// The action may bring the environment up.
pub open spec fn may_boot(a: DevAction) -> bool {
    match a {
        DevAction::Up { .. } | DevAction::Shell | DevAction::Code { .. } | DevAction::Task { .. } => true,
        DevAction::Exec { service, .. } => service is None,
        DevAction::Service { action } => action is Up,
        DevAction::Refresh { dry_run } => !dry_run,
        _ => false,
    }
}

impl DevAction {
    /// Whether this action needs the environment running, and so boots it. Every arm is spelled
    /// out, so an action added without a decision here does not compile. A task boots only under
    /// one policy, which is in the config: the fork is where a boot may happen. A service exec
    /// reaches a running service, and a dry run only reports.
    pub fn boots(&self) -> (r: bool)
        ensures
            r == may_boot(*self),
    {
        match self {
            DevAction::Up { .. } | DevAction::Shell | DevAction::Code { .. } | DevAction::Task { .. } => true,
            DevAction::Exec { service, .. } => service.is_none(),
            DevAction::Service { action } => match action {
                DevServiceAction::Up { .. } => true,
                DevServiceAction::Down { .. }
                | DevServiceAction::Reboot { .. }
                | DevServiceAction::Status { .. } => false,
            },
            DevAction::Refresh { dry_run } => !*dry_run,
            DevAction::Init { .. }
            | DevAction::Editor { .. }
            | DevAction::Endpoints { .. }
            | DevAction::Open { .. }
            | DevAction::Build { .. }
            | DevAction::Storage { .. }
            | DevAction::EditorReconcile { .. }
            | DevAction::Ssh { .. }
            | DevAction::SshConfig
            | DevAction::Status { .. }
            | DevAction::Logs { .. }
            | DevAction::Doctor
            | DevAction::Stop { .. }
            | DevAction::List { .. }
            | DevAction::Gc { .. }
            | DevAction::Plan { .. }
            | DevAction::Schema => false,
        }
    }
}

impl Dev {
    /// Whether this command brings the environment up, which decides the fork that comes before
    /// anything else.
    pub fn boots(&self) -> (r: bool)
        ensures
            r == may_boot(self.action),
    {
        self.action.boots()
    }
}

/// What has to be there before an action can be taken.
#[derive(Debug, Clone, Copy, PartialEq, Eq, Structural)]
pub enum Stage {
    /// nothing, not even a current directory
    Nothing,
    /// the current directory
    Directory,
    /// the config, and the plan it resolves to
    Plan,
}

pub open spec fn stage_of(a: DevAction) -> Stage {
    match a {
        DevAction::Schema => Stage::Nothing,
        DevAction::Init { .. } | DevAction::List { .. } | DevAction::Gc { .. } => Stage::Directory,
        _ => Stage::Plan,
    }
}

/// What has to be resolved before an action: `init` writes a config rather than reading one, and
/// the host-wide commands read the state base and need none.
pub fn stage(a: &DevAction) -> (r: Stage)
    ensures
        r == stage_of(*a),
{
    match a {
        DevAction::Schema => Stage::Nothing,
        DevAction::Init { .. } | DevAction::List { .. } | DevAction::Gc { .. } => Stage::Directory,
        _ => Stage::Plan,
    }
}

/// Whether the environment is brought up before an action.
#[derive(Debug, Clone, Copy, PartialEq, Eq, Structural)]
pub enum BringsUp {
    Never,
    /// where the task's policy says so
    ByPolicy,
    /// rebuilt and restarted under `refresh`; joining a boot that is in flight under `wait`
    Always { refresh: bool, wait: bool },
}

pub open spec fn brought_up(a: DevAction) -> BringsUp {
    match a {
        DevAction::Up { no_wait } => BringsUp::Always { refresh: false, wait: !no_wait },
        DevAction::Refresh { dry_run } => if dry_run {
            BringsUp::Never
        } else {
            BringsUp::Always { refresh: true, wait: true }
        },
        DevAction::Exec { service, .. } => if service is None {
            BringsUp::Always { refresh: false, wait: true }
        } else {
            BringsUp::Never
        },
        DevAction::Service { action } => if action is Up {
            BringsUp::Always { refresh: false, wait: true }
        } else {
            BringsUp::Never
        },
        DevAction::Shell | DevAction::Code { .. } => BringsUp::Always { refresh: false, wait: true },
        DevAction::Task { .. } => BringsUp::ByPolicy,
        _ => BringsUp::Never,
    }
}

/// Whether the environment is brought up before an action, and how. `refresh` is the one
/// unconditional rebuild and restart.
pub fn brings_up(a: &DevAction) -> (r: BringsUp)
    ensures
        r == brought_up(*a),
{
    match a {
        DevAction::Up { no_wait } => BringsUp::Always { refresh: false, wait: !*no_wait },
        DevAction::Refresh { dry_run } => if *dry_run {
            BringsUp::Never
        } else {
            BringsUp::Always { refresh: true, wait: true }
        },
        DevAction::Exec { service, .. } => if service.is_none() {
            BringsUp::Always { refresh: false, wait: true }
        } else {
            BringsUp::Never
        },
        DevAction::Service { action } => match action {
            DevServiceAction::Up { .. } => BringsUp::Always { refresh: false, wait: true },
            _ => BringsUp::Never,
        },
        DevAction::Shell | DevAction::Code { .. } => BringsUp::Always { refresh: false, wait: true },
        DevAction::Task { .. } => BringsUp::ByPolicy,
        _ => BringsUp::Never,
    }
}

/// The fork and the dispatch agree: a command forks exactly where the environment may be brought
/// up, and nothing that runs without a plan does.
pub proof fn law_forks_where_it_may_boot(a: DevAction)
    ensures
        may_boot(a) <==> brought_up(a) != BringsUp::Never,
        stage_of(a) != Stage::Plan ==> !may_boot(a),
{
}

/// What a command failed on.
#[derive(Debug, Clone, Copy, PartialEq, Eq, Structural)]
pub enum FailedOn {
    /// the config, or how the command was used: the caller's to fix
    Usage,
    /// a build that a policy says must not happen
    NotCached,
    /// anything else
    Running,
}

/// The code a command that failed exits with.
pub fn failure_code(f: FailedOn) -> (r: u8)
    ensures
        r == match f {
            FailedOn::Usage => 2u8,
            FailedOn::NotCached => 3u8,
            FailedOn::Running => 1u8,
        },
{
    match f {
        FailedOn::Usage => 2,
        FailedOn::NotCached => 3,
        FailedOn::Running => 1,
    }
}

/// The code of a command whose report was written, with that code, and whose verdict is `ok`: a
/// report that could not be written keeps its own code.
pub fn verdict_code(written: u8, ok: bool) -> (r: u8)
    ensures
        r == if written == 0 && !ok {
            1u8
        } else {
            written
        },
{
    if written == 0 && !ok {
        1
    } else {
        written
    }
}

/// One unit, as the service manager reports it.
#[derive(Debug)]
pub struct UnitStatus {
    pub name: String,
    pub state: String,
    pub ip: String,
}

pub struct UnitStatusView {
    pub name: Seq<char>,
    pub state: Seq<char>,
    pub ip: Seq<char>,
}

impl DeepView for UnitStatus {
    type V = UnitStatusView;

    open spec fn deep_view(&self) -> UnitStatusView {
        UnitStatusView { name: self.name@, state: self.state@, ip: self.ip@ }
    }
}

/// What the service manager answers.
#[derive(Debug)]
pub struct Reply {
    pub ok: bool,
    pub message: String,
    pub units: Vec<UnitStatus>,
}

pub struct ReplyView {
    pub ok: bool,
    pub message: Seq<char>,
    pub units: Seq<UnitStatusView>,
}

impl DeepView for Reply {
    type V = ReplyView;

    open spec fn deep_view(&self) -> ReplyView {
        ReplyView { ok: self.ok, message: self.message@, units: self.units.deep_view() }
    }
}

/// The lines of the first `n` units.
pub open spec fn units_shown(v: Seq<UnitStatusView>, n: int) -> Seq<char>
    decreases n,
{
    if n <= 0 {
        Seq::empty()
    } else {
        units_shown(v, n - 1) + (padded(v[n - 1].name, 16) + " "@ + padded(v[n - 1].state, 9) + " "@ + v[n - 1].ip
            + "\n"@)
    }
}

/// What goes to standard output: the units, and the message of a success.
pub open spec fn reply_shown(r: ReplyView) -> Seq<char> {
    let units = units_shown(r.units, r.units.len() as int);
    if r.ok && r.message.len() > 0 {
        units + r.message + "\n"@
    } else {
        units
    }
}

/// What goes to standard error: the message of a failure, which is never silent.
pub open spec fn reply_note(r: ReplyView) -> Option<Seq<char>> {
    if r.ok {
        None
    } else if r.message.len() == 0 {
        Some("the service manager reported a failure with no detail"@)
    } else {
        Some(r.message)
    }
}

/// A service manager's answer as it is printed: a line for each unit and the message on standard
/// output for success, on standard error for failure.
pub fn render_service_reply(reply: &Reply) -> (r: (String, Option<String>))
    ensures
        r.0@ == reply_shown(reply.deep_view()),
        r.1.deep_view() == reply_note(reply.deep_view()),
{
    let ghost u = reply.units.deep_view();
    let mut out = String::new();
    let mut i: usize = 0;
    assert(out@ =~= units_shown(u, 0));
    while i < reply.units.len()
        invariant
            i <= reply.units@.len(),
            u == reply.units.deep_view(),
            out@ == units_shown(u, i as int),
        decreases reply.units@.len() - i,
    {
        let x = &reply.units[i];
        assert(u[i as int] == x.deep_view());
        let name = pad(x.name.as_str(), 16);
        let state = pad(x.state.as_str(), 9);
        out.append(cat6(name.as_str(), " ", state.as_str(), " ", x.ip.as_str(), "\n").as_str());
        i = i + 1;
    }
    let note = if reply.message.as_str().is_empty() {
        if reply.ok {
            None
        } else {
            Some("the service manager reported a failure with no detail".to_owned())
        }
    } else if reply.ok {
        out.append(reply.message.as_str());
        out.append("\n");
        None
    } else {
        Some(reply.message.clone())
    };
    (out, note)
}

/// What the service manager is asked.
#[derive(Debug)]
pub enum Request {
    Start(String),
    Stop(String),
    Reboot(String),
    Status(String),
    List,
}

pub enum RequestView {
    Start(Seq<char>),
    Stop(Seq<char>),
    Reboot(Seq<char>),
    Status(Seq<char>),
    List,
}

impl DeepView for Request {
    type V = RequestView;

    open spec fn deep_view(&self) -> RequestView {
        match *self {
            Request::Start(u) => RequestView::Start(u@),
            Request::Stop(u) => RequestView::Stop(u@),
            Request::Reboot(u) => RequestView::Reboot(u@),
            Request::Status(u) => RequestView::Status(u@),
            Request::List => RequestView::List,
        }
    }
}

/// What a service operation asks of the service manager.
pub fn service_request(a: &DevServiceAction) -> (r: Request)
    ensures
        r.deep_view() == match *a {
            DevServiceAction::Up { name } => RequestView::Start(name@),
            DevServiceAction::Down { name } => RequestView::Stop(name@),
            DevServiceAction::Reboot { name } => RequestView::Reboot(name@),
            DevServiceAction::Status { name } => match name {
                Some(u) => RequestView::Status(u@),
                None => RequestView::List,
            },
        },
{
    match a {
        DevServiceAction::Up { name } => Request::Start(name.clone()),
        DevServiceAction::Down { name } => Request::Stop(name.clone()),
        DevServiceAction::Reboot { name } => Request::Reboot(name.clone()),
        DevServiceAction::Status { name } => match name {
            Some(u) => Request::Status(u.clone()),
            None => Request::List,
        },
    }
}

/// Which endpoints `vk dev endpoints` lists.
pub fn endpoints_asked(service: &Option<String>, primary: bool) -> (r: Which)
    ensures
        r.deep_view() == match service.deep_view() {
            Some(name) => WhichView::Service(name),
            None => if primary {
                WhichView::Primary
            } else {
                WhichView::All
            },
        },
{
    match service {
        Some(name) => Which::Service(name.clone()),
        None => if primary {
            Which::Primary
        } else {
            Which::All
        },
    }
}

/// The first endpoint of that name from `from` on, or the length.
pub open spec fn endpoint_named(v: Seq<EndpointStateView>, name: Seq<char>, from: int) -> int
    decreases v.len() - from,
{
    if from < 0 || from >= v.len() {
        v.len() as int
    } else if v[from].name == name {
        from
    } else {
        endpoint_named(v, name, from + 1)
    }
}

/// The URL an endpoint is opened at, and what is said of one that is not published; or why there
/// is none.
pub open spec fn opened(v: Seq<EndpointStateView>, name: Seq<char>) -> Result<
    (Seq<char>, Option<Seq<char>>),
    Seq<char>,
> {
    let at = endpoint_named(v, name, 0);
    if at >= v.len() {
        Err("no endpoint "@ + debug_text(name) + " in the config"@)
    } else {
        match v[at].url {
            Some(url) => Ok(
                (
                    url,
                    if v[at].published {
                        None
                    } else {
                        Some("virtkit: note: "@ + name + " is not published right now"@)
                    },
                ),
            ),
            None => Err(
                if v[at].listen is Some {
                    "endpoint "@ + name + " names no `scheme`, so it has no URL"@
                } else {
                    "endpoint "@ + name + " has no address yet — it is allocated when published"@
                },
            ),
        }
    }
}

/// The URL to open for an endpoint, and what is said of one that is not published.
pub fn open_url(views: &Vec<EndpointState>, name: &str) -> (r: Result<(String, Option<String>), Error>)
    ensures
        match r {
            Ok((url, note)) => opened(views.deep_view(), name@) == Ok::<(Seq<char>, Option<Seq<char>>), Seq<char>>(
                (url@, note.deep_view()),
            ),
            Err(e) => opened(views.deep_view(), name@) == Err::<(Seq<char>, Option<Seq<char>>), Seq<char>>(
                e.deep_view(),
            ),
        },
{
    let ghost v = views.deep_view();
    let mut i: usize = 0;
    while i < views.len()
        invariant
            i <= views@.len(),
            v == views.deep_view(),
            endpoint_named(v, name@, i as int) == endpoint_named(v, name@, 0),
        decreases views@.len() - i,
    {
        let x = &views[i];
        assert(v[i as int] == x.deep_view());
        if same(x.name.as_str(), name) {
            return match &x.url {
                Some(url) => {
                    let note = if x.published {
                        None
                    } else {
                        Some(cat3("virtkit: note: ", name, " is not published right now"))
                    };
                    Ok((url.clone(), note))
                },
                None => if x.listen.is_some() {
                    Err(error(cat3("endpoint ", name, " names no `scheme`, so it has no URL")))
                } else {
                    Err(
                        error(
                            cat3("endpoint ", name, " has no address yet — it is allocated when published"),
                        ),
                    )
                },
            };
        }
        i = i + 1;
    }
    Err(error(cat3("no endpoint ", quoted(name).as_str(), " in the config")))
}

/// What `plan --diff` and `refresh --dry-run` say when there is no environment to compare the
/// config against. One sentence, so the two read alike.
pub const NOTHING_RUNNING: &'static str =
    "not running: a refresh would build the image and boot the environment\n";

/// What `plan --diff` prints, and `refresh --dry-run` with one line more.
pub fn diff_report(diff: &Option<String>, refresh: bool) -> (r: String)
    ensures
        r@ == match diff.deep_view() {
            None => NOTHING_RUNNING@,
            Some(d) => if refresh {
                d + "a refresh rebuilds the image and restarts the environment\n"@
            } else {
                d
            },
        },
{
    match diff {
        None => NOTHING_RUNNING.to_owned(),
        Some(d) => if refresh {
            cat2(d.as_str(), "a refresh rebuilds the image and restarts the environment\n")
        } else {
            d.clone()
        },
    }
}

/// The file an origin names, from the workspace where it stands there.
pub open spec fn origin_file(files: FilesView, layer: Layer) -> Seq<u8> {
    let file = match layer {
        Layer::Project => files.config,
        Layer::Local => match files.local {
            Some(l) => l,
            None => files.config,
        },
    };
    match relative_to(file, files.workspace) {
        Some(rel) => rel,
        None => file,
    }
}

/// A configured value as it is listed; none for a date that cannot be written.
pub open spec fn value_shown(o: OriginView, show_secrets: bool) -> Option<Seq<char>> {
    if o.secret && !show_secrets {
        Some("<redacted>"@)
    } else {
        written(o.value)
    }
}

/// The lines of the first `n` origins; none where one of the values cannot be written.
pub open spec fn origins_shown(v: Seq<OriginView>, files: FilesView, show_secrets: bool, n: int) -> Option<Seq<char>>
    decreases n,
{
    if n <= 0 {
        Some(Seq::empty())
    } else {
        let o = v[n - 1];
        match (origins_shown(v, files, show_secrets, n - 1), value_shown(o, show_secrets)) {
            (Some(t), Some(x)) => Some(
                t + (o.key + " = "@ + x + "  # "@ + lossy_text(origin_file(files, o.layer)) + "\n"@),
            ),
            _ => None,
        }
    }
}

proof fn lemma_origins_none(v: Seq<OriginView>, files: FilesView, show_secrets: bool, n: int, m: int)
    requires
        n <= m,
        origins_shown(v, files, show_secrets, n) is None,
    ensures
        origins_shown(v, files, show_secrets, m) is None,
    decreases m - n,
{
    if n < m {
        lemma_origins_none(v, files, show_secrets, n, m - 1);
    }
}

proof fn lemma_origins_ordered(m: MergedView)
    requires
        ordered_entries(m.merged),
    ensures
        forall|i: int| 0 <= i < origins_of(m).len() ==> ordered((#[trigger] origins_of(m)[i]).value),
{
    lemma_table_is_ordered(m.merged);
    lemma_leaves_ordered(Tree::Table(m.merged), Seq::empty(), m.merged.len() as int);
    assert forall|i: int| 0 <= i < origins_of(m).len() implies ordered((#[trigger] origins_of(m)[i]).value) by {
        assert(ordered(leaves_of(m.merged, Seq::empty())[i].1));
    }
}

/// The two lists of values differ at most in what the secret ones are.
pub open spec fn same_but_secrets(v: Seq<OriginView>, w: Seq<OriginView>) -> bool {
    &&& v.len() == w.len()
    &&& forall|i: int|
        0 <= i < v.len() ==> (#[trigger] v[i]).key == w[i].key && v[i].layer == w[i].layer && v[i].secret == w[i].secret
            && (v[i].secret || v[i].value == w[i].value)
}

/// What a config hands to a command or an image does not reach what is printed, unless it is asked
/// for: two configs that differ in nothing else are listed alike.
pub proof fn law_explained_without_secrets(v: Seq<OriginView>, w: Seq<OriginView>, files: FilesView, n: int)
    requires
        same_but_secrets(v, w),
        0 <= n <= v.len(),
    ensures
        origins_shown(v, files, false, n) == origins_shown(w, files, false, n),
    decreases n,
{
    if n > 0 {
        law_explained_without_secrets(v, w, files, n - 1);
        assert(v[n - 1].key == w[n - 1].key);
    }
}

/// Each configured value with the file it came from, one per line. The two files sit side by
/// side, so their names tell them apart.
pub fn origins(loaded: &Loaded, show_secrets: bool) -> (r: Option<String>)
    requires
        ordered_entries(loaded.layers.merged.deep_view()),
    ensures
        r.deep_view() == origins_shown(
            origins_of(loaded.layers.deep_view()),
            loaded.files.deep_view(),
            show_secrets,
            origins_of(loaded.layers.deep_view()).len() as int,
        ),
{
    let all = loaded.origins();
    let ghost v = all.deep_view();
    let ghost f = loaded.files.deep_view();
    proof {
        lemma_origins_ordered(loaded.layers.deep_view());
    }
    let mut out = String::new();
    let mut i: usize = 0;
    while i < all.len()
        invariant
            i <= all@.len(),
            v == all.deep_view(),
            f == loaded.files.deep_view(),
            forall|i: int| 0 <= i < v.len() ==> ordered((#[trigger] v[i]).value),
            origins_shown(v, f, show_secrets, i as int) == Some(out@),
            v == origins_of(loaded.layers.deep_view()),
        decreases all@.len() - i,
    {
        let o = &all[i];
        assert(v[i as int] == o.deep_view());
        let file = match o.layer {
            Layer::Project => &loaded.files.config,
            Layer::Local => match &loaded.files.local {
                Some(l) => l,
                None => &loaded.files.config,
            },
        };
        let name = match file.strip_prefix(&loaded.files.workspace) {
            Some(rel) => rel.display(),
            None => file.display(),
        };
        let value = if o.secret && !show_secrets {
            "<redacted>".to_owned()
        } else {
            match toml_text(&o.value) {
                Some(t) => t,
                None => {
                    proof {
                        lemma_origins_none(v, f, show_secrets, i + 1, v.len() as int);
                    }
                    return None;
                },
            }
        };
        out.append(cat6(o.key.as_str(), " = ", value.as_str(), "  # ", name.as_str(), "\n").as_str());
        i = i + 1;
    }
    Some(out)
}

/// What `vk dev plan` prints: the plan in the format asked for, behind where each value came from
/// where that is asked for too.
pub fn plan_report(
    loaded: &Loaded,
    plan: &Plan,
    format: PlanFormat,
    show_secrets: bool,
    explain: bool,
    host_offers: bool,
) -> (r: Result<String, Error>)
    requires
        plan_sound(plan.deep_view()),
        ordered_entries(loaded.layers.merged.deep_view()),
    ensures
        ({
            let p = if show_secrets {
                plan.deep_view()
            } else {
                redacted(plan.deep_view())
            };
            let all = origins_of(loaded.layers.deep_view());
            let head = origins_shown(all, loaded.files.deep_view(), show_secrets, all.len() as int);
            let body = match format {
                PlanFormat::Json => if plan_paths_text(p) {
                    Ok::<Seq<char>, Seq<char>>(json_pretty_shown(plan_json(p)) + "\n"@)
                } else {
                    Err("serializing the plan: "@ + path_error())
                },
                PlanFormat::Shell => shell_text(p, host_offers),
            };
            match body {
                Err(e) => r matches Err(x) && x.deep_view() == e,
                Ok(b) => if !explain {
                    r matches Ok(t) && t@ == b
                } else {
                    match head {
                        Some(h) => r matches Ok(t) && t@ == h + "\n"@ + b,
                        None => r matches Err(x) && x.deep_view() == "a configured date cannot be written"@,
                    }
                },
            }
        }),
{
    let body = match format {
        PlanFormat::Json => plan.to_json(show_secrets)?,
        PlanFormat::Shell => plan.to_shell(show_secrets, host_offers)?,
    };
    if explain {
        match origins(loaded, show_secrets) {
            Some(head) => Ok(cat3(head.as_str(), "\n", body.as_str())),
            None => Err(error("a configured date cannot be written".to_owned())),
        }
    } else {
        Ok(body)
    }
}

/// What `vk dev gc` does with what was selected.
#[derive(Debug)]
pub enum GcStep {
    /// nothing is removed: print this, and exit with this code
    Report(String, u8),
    /// print this, and ask that
    Ask(String, String),
    /// remove what was selected
    Remove,
    Refuse(Error),
}

pub enum GcStepView {
    Report(Seq<char>, u8),
    Ask(Seq<char>, Seq<char>),
    Remove,
    Refuse(Seq<char>),
}

impl DeepView for GcStep {
    type V = GcStepView;

    open spec fn deep_view(&self) -> GcStepView {
        match *self {
            GcStep::Report(t, c) => GcStepView::Report(t@, c),
            GcStep::Ask(t, q) => GcStepView::Ask(t@, q@),
            GcStep::Remove => GcStepView::Remove,
            GcStep::Refuse(e) => GcStepView::Refuse(e.deep_view()),
        }
    }
}

/// What `vk dev gc` does with what was selected. A run that only showed what would go did not do
/// what it was asked, and exits 1.
pub open spec fn gc_next(
    sel: Seq<RowView>,
    contents: Seq<Seq<EntryView>>,
    yes: bool,
    on_terminal: bool,
    answer: Option<Result<bool, Seq<char>>>,
) -> GcStepView {
    let shown = preview_upto(sel, contents, sel.len() as int);
    if sel.len() == 0 {
        GcStepView::Report("nothing to remove\n"@, 0)
    } else if yes {
        GcStepView::Remove
    } else if !on_terminal {
        GcStepView::Report(shown + "nothing was removed: --yes removes it\n"@, 1)
    } else {
        match answer {
            None => GcStepView::Ask(shown, "remove "@ + decimal(sel.len()) + " environment(s)?"@),
            Some(Ok(true)) => GcStepView::Remove,
            Some(Ok(false)) => GcStepView::Report("nothing was removed\n"@, 0),
            Some(Err(e)) => GcStepView::Refuse(e),
        }
    }
}

/// What `vk dev gc` does with what was selected, given what each of the directories holds.
/// `answer` is what was said to the question this function asked for.
pub fn dev_gc(
    selected: &Vec<Row>,
    contents: &Vec<Vec<Entry>>,
    yes: bool,
    on_terminal: bool,
    answer: Option<Result<bool, Error>>,
) -> (r: GcStep)
    requires
        contents@.len() == selected@.len(),
    ensures
        r.deep_view() == gc_next(
            selected.deep_view(),
            contents.deep_view(),
            yes,
            on_terminal,
            answer_given(answer),
        ),
{
    assert(selected.deep_view().len() == selected@.len());
    if selected.is_empty() {
        return GcStep::Report("nothing to remove\n".to_owned(), 0);
    }
    if yes {
        return GcStep::Remove;
    }
    let shown = preview(selected, contents);
    if !on_terminal {
        return GcStep::Report(cat2(shown.as_str(), "nothing was removed: --yes removes it\n"), 1);
    }
    match answer {
        None => {
            let n: usize = selected.len();
            let count = to_decimal(n as u64);
            GcStep::Ask(shown, cat3("remove ", count.as_str(), " environment(s)?"))
        },
        Some(Ok(true)) => GcStep::Remove,
        Some(Ok(false)) => GcStep::Report("nothing was removed\n".to_owned(), 0),
        Some(Err(e)) => GcStep::Refuse(e),
    }
}

/// Nothing is collected without a yes, on the command line or to the question.
pub proof fn law_gc_needs_consent(
    sel: Seq<RowView>,
    contents: Seq<Seq<EntryView>>,
    yes: bool,
    on_terminal: bool,
    answer: Option<Result<bool, Seq<char>>>,
)
    ensures
        gc_next(sel, contents, yes, on_terminal, answer) is Remove ==> sel.len() > 0 && (yes || (on_terminal && answer
            == Some(Ok::<bool, Seq<char>>(true)))),
{
}

/// What a forked process does once the environment is up.
#[derive(Debug, Clone, Copy, PartialEq, Eq, Structural)]
pub enum Ready {
    /// it is the one that acts on the environment
    Act,
    /// nothing more to do: exit with this code
    Done(u8),
}

/// What the bringing up came to, in one of the two processes.
#[derive(Debug, Clone, Copy, PartialEq, Eq, Structural)]
pub enum BroughtUp {
    /// in the parent: the environment is ready
    Parent,
    /// in the child, which has nothing more to do
    Child,
    Failed(FailedOn),
}

/// What a process does once the environment is up: the parent, which holds the terminal, acts;
/// the child is finished either way.
pub fn ready(b: BroughtUp) -> (r: Ready)
    ensures
        r == match b {
            BroughtUp::Parent => Ready::Act,
            BroughtUp::Child => Ready::Done(0),
            BroughtUp::Failed(FailedOn::Usage) => Ready::Done(2),
            BroughtUp::Failed(FailedOn::NotCached) => Ready::Done(3),
            BroughtUp::Failed(FailedOn::Running) => Ready::Done(1),
        },
{
    match b {
        BroughtUp::Parent => Ready::Act,
        BroughtUp::Child => Ready::Done(0),
        BroughtUp::Failed(f) => Ready::Done(failure_code(f)),
    }
}

/// How the work an action stands for went.
#[derive(Debug, Clone, Copy, PartialEq, Eq, Structural)]
pub enum Performed {
    /// its report was written, with that code, and this is its verdict
    Reported { written: u8, ok: bool },
    /// a command ran and ended with that code
    Exited(u8),
    /// it cannot be done at all: there is no project to write a config for, or no such console
    Refused,
    Failed,
}

/// What an action has come to.
#[derive(Debug, Clone, Copy, PartialEq, Eq, Structural)]
pub enum Event {
    Started,
    /// the current directory is known, or not
    Directory(bool),
    /// the config was found and read and resolves to a plan, or not
    Resolved(bool),
    /// the task is one, and boots the environment or not
    Placed(Option<bool>),
    /// nothing is booted: this process is the parent of the fork, or its child
    Forked { parent: bool },
    Up(BroughtUp),
    Performed(Performed),
}

/// What is to be done next for an action.
#[derive(Debug, Clone, Copy, PartialEq, Eq, Structural)]
pub enum Act {
    FindDirectory,
    /// find, read and resolve the config
    Resolve,
    /// find where the task runs
    Place,
    /// bring the environment up
    BringUp { refresh: bool, wait: bool },
    /// tell the two processes of the fork apart
    AfterFork,
    /// the work itself
    Perform,
    Exit(u8),
}

/// The action is done once the environment is up.
pub open spec fn only_brings_up(a: DevAction) -> bool {
    a is Up || a is Refresh
}

/// What the work of an action that cannot be done at all failed on: a project that `init` cannot
/// read and a console that is not there are the caller's to fix.
pub open spec fn refused_on(a: DevAction) -> FailedOn {
    match a {
        DevAction::Init { .. } | DevAction::Logs { .. } => FailedOn::Usage,
        _ => FailedOn::Running,
    }
}

pub open spec fn code_of(f: FailedOn) -> u8 {
    match f {
        FailedOn::Usage => 2u8,
        FailedOn::NotCached => 3u8,
        FailedOn::Running => 1u8,
    }
}

/// The code of an action whose report was written with a code: a bad verdict of `init` or
/// `doctor` is 1 whatever came of the writing, that of another leaves a report that could not be
/// written its own code.
pub open spec fn report_code(a: DevAction, written: u8, ok: bool) -> u8 {
    if ok {
        written
    } else if a is Init || a is Doctor {
        1u8
    } else if written == 0 {
        1u8
    } else {
        written
    }
}

/// What is done next for an action, given what it has come to.
pub open spec fn next_act(a: DevAction, e: Event) -> Act {
    match e {
        Event::Started => if stage_of(a) == Stage::Nothing {
            Act::Perform
        } else {
            Act::FindDirectory
        },
        Event::Directory(known) => if !known {
            Act::Exit(1)
        } else if stage_of(a) == Stage::Plan {
            Act::Resolve
        } else {
            Act::Perform
        },
        Event::Resolved(done) => if !done {
            Act::Exit(2)
        } else {
            match brought_up(a) {
                BringsUp::Never => Act::Perform,
                BringsUp::ByPolicy => Act::Place,
                BringsUp::Always { refresh, wait } => Act::BringUp { refresh, wait },
            }
        },
        Event::Placed(p) => match p {
            None => Act::Exit(2),
            Some(boots) => if boots {
                Act::BringUp { refresh: false, wait: true }
            } else {
                Act::AfterFork
            },
        },
        Event::Forked { parent } => if parent {
            Act::Perform
        } else {
            Act::Exit(0)
        },
        Event::Up(b) => match b {
            BroughtUp::Parent => if only_brings_up(a) {
                Act::Exit(0)
            } else {
                Act::Perform
            },
            BroughtUp::Child => Act::Exit(0),
            BroughtUp::Failed(f) => Act::Exit(code_of(f)),
        },
        Event::Performed(p) => match p {
            Performed::Reported { written, ok } => Act::Exit(report_code(a, written, ok)),
            Performed::Exited(code) => Act::Exit(code),
            Performed::Refused => Act::Exit(code_of(refused_on(a))),
            Performed::Failed => Act::Exit(1),
        },
    }
}

/// What is done next for an action, given what it has come to: the config is resolved, the
/// environment brought up where the action needs it, and the work done by the process that is
/// to do it.
pub fn dev_action(a: &DevAction, e: Event) -> (r: Act)
    ensures
        r == next_act(*a, e),
{
    match e {
        Event::Started => match stage(a) {
            Stage::Nothing => Act::Perform,
            _ => Act::FindDirectory,
        },
        Event::Directory(known) => {
            if !known {
                return Act::Exit(failure_code(FailedOn::Running));
            }
            match stage(a) {
                Stage::Plan => Act::Resolve,
                _ => Act::Perform,
            }
        },
        Event::Resolved(done) => {
            if !done {
                return Act::Exit(failure_code(FailedOn::Usage));
            }
            match brings_up(a) {
                BringsUp::Never => Act::Perform,
                BringsUp::ByPolicy => Act::Place,
                BringsUp::Always { refresh, wait } => Act::BringUp { refresh, wait },
            }
        },
        Event::Placed(None) => Act::Exit(failure_code(FailedOn::Usage)),
        Event::Placed(Some(true)) => Act::BringUp { refresh: false, wait: true },
        Event::Placed(Some(false)) => Act::AfterFork,
        Event::Forked { parent } => match ready(
            if parent {
                BroughtUp::Parent
            } else {
                BroughtUp::Child
            },
        ) {
            Ready::Act => Act::Perform,
            Ready::Done(code) => Act::Exit(code),
        },
        Event::Up(b) => match ready(b) {
            Ready::Act => match a {
                DevAction::Up { .. } | DevAction::Refresh { .. } => Act::Exit(0),
                _ => Act::Perform,
            },
            Ready::Done(code) => Act::Exit(code),
        },
        Event::Performed(p) => match p {
            Performed::Reported { written, ok } => match a {
                DevAction::Init { .. } | DevAction::Doctor => Act::Exit(
                    if ok {
                        written
                    } else {
                        failure_code(FailedOn::Running)
                    },
                ),
                _ => Act::Exit(verdict_code(written, ok)),
            },
            Performed::Exited(code) => Act::Exit(code),
            Performed::Refused => match a {
                DevAction::Init { .. } | DevAction::Logs { .. } => Act::Exit(failure_code(FailedOn::Usage)),
                _ => Act::Exit(failure_code(FailedOn::Running)),
            },
            Performed::Failed => Act::Exit(failure_code(FailedOn::Running)),
        },
    }
}

/// Whether the event can follow the one before it, for the action: each answers what was to be
/// done.
pub open spec fn answers(did: Act, e: Event) -> bool {
    match did {
        Act::FindDirectory => e is Directory,
        Act::Resolve => e is Resolved,
        Act::Place => e is Placed,
        Act::BringUp { .. } => e is Up,
        Act::AfterFork => e is Forked,
        Act::Perform => e is Performed,
        Act::Exit(_) => false,
    }
}

/// A course an action takes: it starts, and each event answers what was to be done.
pub open spec fn is_course(a: DevAction, events: Seq<Event>) -> bool {
    &&& events.len() > 0
    &&& events[0] == Event::Started
    &&& forall|i: int| 0 <= i < events.len() - 1 ==> answers(next_act(a, #[trigger] events[i]), events[i + 1])
}

/// What an action does in the environment it does only once that is up, in the process that the
/// boot released: an action that brings it up is performed after that and not before, a task's
/// too unless its policy boots nothing.
pub proof fn law_performed_once_it_is_up(a: DevAction, events: Seq<Event>, i: int)
    requires
        is_course(a, events),
        0 <= i < events.len(),
        next_act(a, events[i]) == Act::Perform,
        may_boot(a),
    ensures
        events[i] == Event::Up(BroughtUp::Parent) || (a is Task && events[i] == Event::Forked { parent: true }),
{
    if i > 0 {
        assert(answers(next_act(a, events[i - 1]), events[i - 1 + 1]));
    }
    if i > 1 {
        assert(answers(next_act(a, events[i - 2]), events[i - 2 + 1]));
    }
    if i > 2 {
        assert(answers(next_act(a, events[i - 3]), events[i - 3 + 1]));
    }
}

/// A command that fails before its work is done exits with a code of its own for what failed: 2
/// where it is the caller's to fix, which is a config that does not resolve or a task that is
/// not one, and 3 for a build that must not happen.
pub proof fn law_exit_codes(a: DevAction, e: Event)
    requires
        !(e is Performed),
    ensures
        next_act(a, e) == Act::Exit(2) <==> (e == Event::Resolved(false) || e == Event::Placed(None) || e == Event::Up(
            BroughtUp::Failed(FailedOn::Usage),
        )),
        next_act(a, e) == Act::Exit(3) <==> e == Event::Up(BroughtUp::Failed(FailedOn::NotCached)),
{
}

/// The child of a fork never does an action's work: it boots, or has nothing to do.
pub proof fn law_child_never_acts(a: DevAction)
    ensures
        next_act(a, Event::Up(BroughtUp::Child)) == Act::Exit(0),
        next_act(a, Event::Forked { parent: false }) == Act::Exit(0),
{
}

/// Every course ends: no action goes on past a few steps.
pub proof fn law_courses_end(a: DevAction, events: Seq<Event>)
    requires
        is_course(a, events),
    ensures
        events.len() <= 6,
{
    if events.len() > 6 {
        assert(answers(next_act(a, events[0]), events[1]));
        assert(answers(next_act(a, events[1]), events[2]));
        assert(answers(next_act(a, events[2]), events[3]));
        assert(answers(next_act(a, events[3]), events[4]));
        assert(answers(next_act(a, events[4]), events[5]));
        assert(answers(next_act(a, events[5]), events[6]));
    }
}

/// Where a service of an environment that is down kept its console.
pub fn service_console(state_dir: &HostPath, service: &str) -> (r: HostPath)
    ensures
        r.deep_view() == joined_path(
            joined_path(state_dir.deep_view(), encode_utf8("svc-"@ + service@)),
            encode_utf8("console.log"@),
        ),
{
    state_dir.join_text(cat2("svc-", service).as_str()).join_text("console.log")
}

} // verus!
