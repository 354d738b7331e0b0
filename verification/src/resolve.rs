//! What the parts of a config mean on this host: sources, mounts, endpoints, tasks and hooks,
//! with their paths made absolute and their variables expanded.

use crate::config::{Build, Command, Environment, Hook, HookSpec, Mount};
use crate::entries::{entry, get};
use crate::path::{
    comps, dot_dot, is_abs, is_listed, joined_path, lemma_normal_utf8, lemma_parent, lossy_text, name_of, normal,
    parent_of, relative_to, same_bytes, under, HostPath,
};
use crate::plan::{
    copy_command, lemma_group, mount_spec, CommandView, HookCommand, HookCommandView, HookPlan, HookView, MountPlan,
    MountView, Source, SourceView,
};
use crate::text::{
    cat2, cat3, cat4, cat5, copy_list, copy_opt, debug_text, error, has_char, is_one_of, outcome, put, quoted, same,
    within, Error,
};
use crate::units::{duration, duration_error, parse_duration};
use crate::validate::{flagged, first};
use crate::vars::{expansion, met, Vars, VarsView};
use vstd::prelude::*;
use vstd::utf8::{decode_utf8, encode_utf8, encode_utf8_valid_utf8};

verus! {

broadcast use lemma_group;

/// A share as `vk run` would make of a mount.
#[derive(Debug)]
pub struct Volume {
    pub host: HostPath,
    pub read_only: bool,
    pub overlay: bool,
    pub disk: bool,
    pub socket: bool,
}

pub struct VolumeView {
    pub host: Seq<u8>,
    pub read_only: bool,
    pub overlay: bool,
    pub disk: bool,
    pub socket: bool,
}

impl DeepView for Volume {
    type V = VolumeView;

    open spec fn deep_view(&self) -> VolumeView {
        VolumeView {
            host: self.host.deep_view(),
            read_only: self.read_only,
            overlay: self.overlay,
            disk: self.disk,
            socket: self.socket,
        }
    }
}

impl Volume {
    pub fn copy(&self) -> (r: Volume)
        ensures
            r.deep_view() == self.deep_view(),
    {
        Volume {
            host: self.host.copy(),
            read_only: self.read_only,
            overlay: self.overlay,
            disk: self.disk,
            socket: self.socket,
        }
    }
}

/// What a mount's spec parses to: a share, none for an `optional` source that is absent, or an
/// error.
#[derive(Debug)]
pub enum Share {
    Made(Volume),
    Absent,
    Refused(String),
}

pub enum ShareView {
    Made(VolumeView),
    Absent,
    Refused(Seq<char>),
}

impl DeepView for Share {
    type V = ShareView;

    open spec fn deep_view(&self) -> ShareView {
        match *self {
            Share::Made(v) => ShareView::Made(v.deep_view()),
            Share::Absent => ShareView::Absent,
            Share::Refused(e) => ShareView::Refused(e@),
        }
    }
}

/// What a plan has to know of the host.
#[derive(Debug)]
pub struct Facts {
    /// the workspace and the config, resolved, or why they could not be
    pub workspace: Result<HostPath, String>,
    pub config: Result<HostPath, String>,
    /// `XDG_STATE_HOME` and `HOME`
    pub state_home: Option<HostPath>,
    pub home: Option<HostPath>,
    pub uid: u32,
    pub gid: u32,
    /// the process environment: a variable set to something that is not text has no value
    pub env: Vec<(String, Option<String>)>,
    /// the paths that are files, and those that are directories
    pub files: Vec<HostPath>,
    pub dirs: Vec<HostPath>,
    /// what the mounts' specs parse to
    pub shares: Vec<(String, Share)>,
    /// paths that exist, each with what it resolves to
    pub canonical: Vec<(HostPath, HostPath)>,
    /// the lowest port this user may bind
    pub lowest_port: u16,
    /// endpoint names a publisher refuses, and why
    pub refused_names: Vec<(String, String)>,
    /// what checking the shares that exist against the state directory found
    pub state_check: Option<String>,
}

/// A path a config wrote, relative to the project like every other path in the file.
pub open spec fn project_path(workspace: Seq<u8>, rel: Seq<char>) -> Seq<u8> {
    normal(joined_path(workspace, encode_utf8(rel)))
}

/// A path a config wrote, relative to the project like every other path in the file.
pub fn in_workspace(workspace: &HostPath, rel: &str) -> (r: HostPath)
    ensures
        r.deep_view() == project_path(workspace.deep_view(), rel@),
{
    workspace.join_text(rel).lexical_normalize()
}

/// A guest path folded: `/home/dev/.config`, `/home/dev/.config/` and `/home/dev/./.config`
/// name the same mount target.
pub open spec fn guest_folded(to: Seq<char>) -> Result<Seq<char>, Seq<char>> {
    if to.contains(':') {
        Err("guest path "@ + debug_text(to) + " contains ':', which separates a mount's fields"@)
    } else {
        Ok(decode_utf8(normal(encode_utf8(to))))
    }
}

/// Normalize guest paths lexically; the host cannot canonicalize them.
pub fn guest_path(to: &str) -> (r: Result<String, Error>)
    ensures
        outcome(r) == guest_folded(to@),
{
    if has_char(to, ':') {
        return Err(
            error(cat3("guest path ", quoted(to).as_str(), " contains ':', which separates a mount's fields")),
        );
    }
    let folded = HostPath::from_text(to).lexical_normalize();
    proof {
        encode_utf8_valid_utf8(to@);
        lemma_normal_utf8(encode_utf8(to@));
    }
    match folded.to_str() {
        Some(t) => Ok(t),
        None => Err(error(String::new())),
    }
}

/// The guest home for a user.
pub open spec fn home_of(user: Option<Seq<char>>) -> Seq<char> {
    match user {
        None => "/root"@,
        Some(u) => if u == "root"@ {
            "/root"@
        } else {
            "/home/"@ + u
        },
    }
}

/// The guest home for a user, overridable as `editor.vscode.home`.
pub fn guest_home(user: &Option<String>) -> (r: String)
    ensures
        r@ == home_of(user.deep_view()),
{
    match user {
        None => "/root".to_owned(),
        Some(u) => if same(u.as_str(), "root") {
            "/root".to_owned()
        } else {
            cat2("/home/", u.as_str())
        },
    }
}

pub open spec fn command_error(c: CommandView) -> Option<Seq<char>> {
    match c {
        CommandView::Argv(a) => flagged(a.len() == 0, "the argv list is empty"@),
        _ => None,
    }
}

/// Reject an empty argv list.
pub fn checked_command(c: &Command) -> (r: Result<Command, Error>)
    ensures
        match r {
            Ok(x) => command_error(c.deep_view()) is None && x.deep_view() == c.deep_view(),
            Err(e) => command_error(c.deep_view()) == Some(e.deep_view()),
        },
{
    if let Command::Argv(a) = c {
        assert(a@.len() == a.deep_view().len());
        if a.len() == 0 {
            return Err(error("the argv list is empty".to_owned()));
        }
    }
    Ok(copy_command(c))
}

/// A hook in a plain form takes the defaults.
pub open spec fn plain_hook(run: CommandView) -> HookView {
    HookView::Command(HookCommandView { run, cwd: None, timeout_secs: None, required: true })
}

/// The directory a hook's command runs in, its variables expanded.
pub open spec fn cwd_planned(v: VarsView, cwd: Option<Seq<char>>) -> Result<(Option<Seq<char>>, VarsView), Seq<char>> {
    match cwd {
        None => Ok((None, v)),
        Some(t) => match expansion(v, t) {
            Err(e) => Err("cwd"@ + ": "@ + e),
            Ok(x) => Ok((Some(x.value), x.vars)),
        },
    }
}

pub open spec fn spec_planned(v: VarsView, s: HookSpec) -> Result<(HookView, VarsView), Seq<char>> {
    match s.run {
        None => Err("needs `run`"@),
        Some(c) => match command_error(c.deep_view()) {
            Some(e) => Err(e),
            None => match time_limit(s.timeout.deep_view()) {
                Err(e) => Err(e),
                Ok(timeout_secs) => match cwd_planned(v, s.cwd.deep_view()) {
                    Err(e) => Err(e),
                    Ok((cwd, w)) => Ok(
                        (
                            HookView::Command(
                                HookCommandView { run: c.deep_view(), cwd, timeout_secs, required: s.required },
                            ),
                            w,
                        ),
                    ),
                },
            },
        },
    }
}

/// How long a command may take, where that is said.
pub open spec fn time_limit(t: Option<Seq<char>>) -> Result<Option<u64>, Seq<char>> {
    match t {
        None => Ok(None),
        Some(x) => match duration(x) {
            None => Err(duration_error()),
            Some(n) => Ok(Some(n as u64)),
        },
    }
}

/// What has been met once a command is resolved, or as far as it could be.
pub open spec fn spec_met(v: VarsView, s: HookSpec) -> VarsView {
    match (s.run, s.cwd) {
        (Some(c), Some(t)) => if command_error(c.deep_view()) is None && time_limit(s.timeout.deep_view()) is Ok {
            met(v, t@)
        } else {
            v
        },
        _ => v,
    }
}

/// A hook as written, resolved to what runs, and what its variables have met.
pub open spec fn hook_planned(v: VarsView, h: Hook) -> Result<(HookView, VarsView), Seq<char>>
    decreases h, 1int, 0int,
{
    match h {
        Hook::Shell(s) => Ok((plain_hook(CommandView::Shell(s@)), v)),
        Hook::Argv(a) => if a@.len() == 0 {
            Err("the argv list is empty"@)
        } else {
            Ok((plain_hook(CommandView::Argv(a.deep_view())), v))
        },
        Hook::Detailed(s) => spec_planned(v, s),
        Hook::Group(g) => match members_planned(v, h, g@.len() as int) {
            Ok((m, w)) => Ok((HookView::Group(m), w)),
            Err(e) => Err(e),
        },
    }
}

/// The first `n` members of a group, resolved.
pub open spec fn members_planned(v: VarsView, h: Hook, n: int) -> Result<
    (Seq<(Seq<char>, HookView)>, VarsView),
    Seq<char>,
>
    decreases h, 0int, n,
{
    match h {
        Hook::Group(g) => if n <= 0 || n > g@.len() {
            Ok((Seq::empty(), v))
        } else {
            match members_planned(v, h, n - 1) {
                Err(e) => Err(e),
                Ok((done, w)) => match hook_planned(w, g@[n - 1].1) {
                    Err(e) => Err(g@[n - 1].0@ + ": "@ + e),
                    Ok((x, y)) => Ok((done.push((g@[n - 1].0@, x)), y)),
                },
            }
        },
        _ => Ok((Seq::empty(), v)),
    }
}

/// What has been met once a hook is resolved, or as far as it could be.
pub open spec fn hook_met(v: VarsView, h: Hook) -> VarsView
    decreases h, 1int, 0int,
{
    match h {
        Hook::Detailed(s) => spec_met(v, s),
        Hook::Group(g) => members_met(v, h, g@.len() as int),
        _ => v,
    }
}

/// What has been met once the first `n` members of a group are resolved, or as far as they could
/// be.
pub open spec fn members_met(v: VarsView, h: Hook, n: int) -> VarsView
    decreases h, 0int, n,
{
    match h {
        Hook::Group(g) => if n <= 0 || n > g@.len() {
            v
        } else {
            match members_planned(v, h, n - 1) {
                Err(_) => members_met(v, h, n - 1),
                Ok((_, w)) => hook_met(w, g@[n - 1].1),
            }
        },
        _ => v,
    }
}

proof fn lemma_members_planned_kept(v: VarsView, h: Hook, n: int, m: int)
    requires
        h is Group,
        0 <= n <= m <= h->Group_0@.len(),
        members_planned(v, h, n) is Err,
    ensures
        members_planned(v, h, m) == members_planned(v, h, n),
        members_met(v, h, m) == members_met(v, h, n),
    decreases m - n,
{
    if n < m {
        lemma_members_planned_kept(v, h, n, m - 1);
    }
}

fn resolve_spec(s: &HookSpec, vars: &mut Vars) -> (r: Result<HookPlan, Error>)
    ensures
        match spec_planned(old(vars).deep_view(), *s) {
            Ok((p, w)) => {
                &&& r matches Ok(x) && x.deep_view() == p
                &&& final(vars).deep_view() == w
            },
            Err(e) => r matches Err(f) && f.deep_view() == e,
        },
        final(vars).deep_view() == spec_met(old(vars).deep_view(), *s),
{
    let run = match &s.run {
        None => return Err(error("needs `run`".to_owned())),
        Some(c) => checked_command(c)?,
    };
    let timeout_secs = match &s.timeout {
        None => None,
        Some(t) => match parse_duration(t.as_str()) {
            Ok(n) => Some(n),
            Err(e) => return Err(e),
        },
    };
    let cwd = match &s.cwd {
        None => None,
        Some(t) => match vars.expand(t.as_str()) {
            Ok(x) => Some(x.value),
            Err(e) => return Err(within("cwd", e)),
        },
    };
    Ok(HookPlan::Command(HookCommand { run, cwd, timeout_secs, required: s.required }))
}

/// A hook as written, resolved to what runs.
pub fn resolve_hook(h: &Hook, vars: &mut Vars) -> (r: Result<HookPlan, Error>)
    ensures
        match hook_planned(old(vars).deep_view(), *h) {
            Ok((p, w)) => {
                &&& r matches Ok(x) && x.deep_view() == p
                &&& final(vars).deep_view() == w
            },
            Err(e) => r matches Err(f) && f.deep_view() == e,
        },
        final(vars).deep_view() == hook_met(old(vars).deep_view(), *h),
    decreases h,
{
    match h {
        Hook::Shell(s) => Ok(
            HookPlan::Command(
                HookCommand { run: Command::Shell(s.clone()), cwd: None, timeout_secs: None, required: true },
            ),
        ),
        Hook::Argv(a) => {
            if a.len() == 0 {
                return Err(error("the argv list is empty".to_owned()));
            }
            Ok(
                HookPlan::Command(
                    HookCommand { run: Command::Argv(copy_list(a)), cwd: None, timeout_secs: None, required: true },
                ),
            )
        },
        Hook::Detailed(s) => resolve_spec(s, vars),
        Hook::Group(g) => {
            let ghost v0 = vars.deep_view();
            let mut out: Vec<(String, HookPlan)> = Vec::new();
            let mut i: usize = 0;
            assert(out.deep_view() =~= Seq::<(Seq<char>, HookView)>::empty());
            while i < g.len()
                invariant
                    i <= g@.len(),
                    *h == Hook::Group(*g),
                    v0 == old(vars).deep_view(),
                    members_planned(v0, *h, i as int) == Ok::<(Seq<(Seq<char>, HookView)>, VarsView), Seq<char>>(
                        (out.deep_view(), vars.deep_view()),
                    ),
                    members_met(v0, *h, i as int) == vars.deep_view(),
                decreases g@.len() - i,
            {
                assert(decreases_to!(*h => g@));
                assert(decreases_to!(g@ => g@[i as int]));
                match resolve_hook(&g[i].1, vars) {
                    Ok(x) => put(&mut out, (g[i].0.clone(), x)),
                    Err(e) => {
                        proof {
                            lemma_members_planned_kept(v0, *h, i + 1, g@.len() as int);
                        }
                        return Err(within(g[i].0.as_str(), e));
                    },
                }
                i = i + 1;
            }
            Ok(HookPlan::Group(out))
        },
    }
}

/// A hook that is there, resolved, its errors under a heading.
pub open spec fn opt_hook_planned(v: VarsView, h: Option<Hook>, heading: Seq<char>) -> Result<
    (Option<HookView>, VarsView),
    Seq<char>,
> {
    match h {
        None => Ok((None, v)),
        Some(x) => match hook_planned(v, x) {
            Ok((p, w)) => Ok((Some(p), w)),
            Err(e) => Err(heading + ": "@ + e),
        },
    }
}

/// What has been met once a hook that may be there is resolved, or as far as it could be.
pub open spec fn opt_hook_met(v: VarsView, h: Option<Hook>) -> VarsView {
    match h {
        None => v,
        Some(x) => hook_met(v, x),
    }
}

pub fn resolve_opt_hook(h: &Option<Hook>, vars: &mut Vars, heading: &str) -> (r: Result<Option<HookPlan>, Error>)
    ensures
        match opt_hook_planned(old(vars).deep_view(), *h, heading@) {
            Ok((p, w)) => {
                &&& r matches Ok(x) && x.deep_view() == p
                &&& final(vars).deep_view() == w
            },
            Err(e) => r matches Err(f) && f.deep_view() == e,
        },
        final(vars).deep_view() == opt_hook_met(old(vars).deep_view(), *h),
{
    match h {
        None => Ok(None),
        Some(x) => match resolve_hook(x, vars) {
            Ok(p) => Ok(Some(p)),
            Err(e) => Err(within(heading, e)),
        },
    }
}

/// The first `n` build arguments, expanded.
pub open spec fn args_upto(v: VarsView, args: Seq<(Seq<char>, Seq<char>)>, at: Seq<char>, n: int) -> Result<
    (Seq<(Seq<char>, Seq<char>)>, VarsView),
    Seq<char>,
>
    decreases n,
{
    if n <= 0 {
        Ok((Seq::empty(), v))
    } else {
        match args_upto(v, args, at, n - 1) {
            Err(e) => Err(e),
            Ok((done, w)) => match expansion(w, args[n - 1].1) {
                Err(e) => Err("["@ + at + "] build arg "@ + args[n - 1].0 + ": "@ + e),
                Ok(x) => Ok((done.push((args[n - 1].0, x.value)), x.vars)),
            },
        }
    }
}

/// What has been met once the first `n` build arguments are expanded, or as far as they could be.
pub open spec fn args_met(v: VarsView, args: Seq<(Seq<char>, Seq<char>)>, at: Seq<char>, n: int) -> VarsView
    decreases n,
{
    if n <= 0 {
        v
    } else {
        match args_upto(v, args, at, n - 1) {
            Err(_) => args_met(v, args, at, n - 1),
            Ok((_, w)) => met(w, args[n - 1].1),
        }
    }
}

proof fn lemma_args_kept(v: VarsView, args: Seq<(Seq<char>, Seq<char>)>, at: Seq<char>, n: int, m: int)
    requires
        0 <= n <= m,
        args_upto(v, args, at, n) is Err,
    ensures
        args_upto(v, args, at, m) == args_upto(v, args, at, n),
        args_met(v, args, at, m) == args_met(v, args, at, n),
    decreases m - n,
{
    if n < m {
        lemma_args_kept(v, args, at, n, m - 1);
    }
}

fn expand_args(args: &Vec<(String, String)>, at: &str, vars: &mut Vars) -> (r: Result<Vec<(String, String)>, Error>)
    ensures
        match args_upto(old(vars).deep_view(), args.deep_view(), at@, args@.len() as int) {
            Ok((done, w)) => {
                &&& r matches Ok(x) && x.deep_view() == done
                &&& final(vars).deep_view() == w
            },
            Err(e) => r matches Err(f) && f.deep_view() == e,
        },
        final(vars).deep_view() == args_met(old(vars).deep_view(), args.deep_view(), at@, args@.len() as int),
{
    let mut out: Vec<(String, String)> = Vec::new();
    let mut i: usize = 0;
    let ghost v0 = vars.deep_view();
    let ghost s = args.deep_view();
    assert(out.deep_view() =~= Seq::<(Seq<char>, Seq<char>)>::empty());
    while i < args.len()
        invariant
            i <= args@.len(),
            s == args.deep_view(),
            v0 == old(vars).deep_view(),
            args_upto(v0, s, at@, i as int) == Ok::<(Seq<(Seq<char>, Seq<char>)>, VarsView), Seq<char>>(
                (out.deep_view(), vars.deep_view()),
            ),
            args_met(v0, s, at@, i as int) == vars.deep_view(),
        decreases args@.len() - i,
    {
        assert(s[i as int] == (args@[i as int].0@, args@[i as int].1@));
        match vars.expand(args[i].1.as_str()) {
            Ok(e) => put(&mut out, (args[i].0.clone(), e.value)),
            Err(e) => {
                proof {
                    lemma_args_kept(v0, s, at@, i + 1, s.len() as int);
                }
                let heading = cat4("[", at, "] build arg ", args[i].0.as_str());
                return Err(within(heading.as_str(), e));
            },
        }
        i = i + 1;
    }
    Ok(out)
}

/// What the environment boots from, with its paths made absolute, and found where it has to
/// be.
pub open spec fn source_planned(
    e: Environment,
    at: Seq<char>,
    workspace: Seq<u8>,
    v: VarsView,
    files: Seq<Seq<u8>>,
    dirs: Seq<Seq<u8>>,
) -> Result<(SourceView, VarsView), Seq<char>> {
    match (e.compose, e.image, e.build) {
        (Some(c), _, _) => {
            let file = project_path(workspace, c@);
            if !files.contains(file) {
                Err("["@ + at + "] compose "@ + lossy_text(file) + " does not exist"@)
            } else {
                match e.service {
                    None => Err("["@ + at + "] compose needs `service`"@),
                    Some(s) => Ok((SourceView::Compose { file, service: s@, profiles: e.profiles.deep_view() }, v)),
                }
            }
        },
        (None, Some(i), _) => Ok((SourceView::Image { reference: i@ }, v)),
        (None, None, Some(b)) => match b.context {
            None => Err("["@ + at + "] build needs `context`"@),
            Some(c) => {
                let context = project_path(workspace, c@);
                let dockerfile = dockerfile_at(context, b);
                if !dirs.contains(context) {
                    Err("["@ + at + "] build.context "@ + lossy_text(context) + " is not a directory"@)
                } else if !files.contains(dockerfile) {
                    Err("["@ + at + "] build.dockerfile "@ + lossy_text(dockerfile) + " does not exist"@)
                } else {
                    match args_upto(v, b.args.deep_view(), at, b.args@.len() as int) {
                        Err(e) => Err(e),
                        Ok((args, w)) => Ok(
                            (SourceView::Build { context, dockerfile, target: b.target.deep_view(), args }, w),
                        ),
                    }
                }
            },
        },
        (None, None, None) => Err("["@ + at + "] names no source"@),
    }
}

/// Where the Dockerfile of a build stands.
pub open spec fn dockerfile_at(context: Seq<u8>, b: Build) -> Seq<u8> {
    normal(
        joined_path(
            context,
            encode_utf8(
                match b.dockerfile {
                    Some(d) => d@,
                    None => "Dockerfile"@,
                },
            ),
        ),
    )
}

/// What has been met once the source is resolved, or as far as it could be: only the arguments of
/// a build that is found where it has to be hold variables.
pub open spec fn source_met(
    e: Environment,
    at: Seq<char>,
    workspace: Seq<u8>,
    v: VarsView,
    files: Seq<Seq<u8>>,
    dirs: Seq<Seq<u8>>,
) -> VarsView {
    match (e.compose, e.image, e.build) {
        (None, None, Some(b)) => match b.context {
            None => v,
            Some(c) => {
                let context = project_path(workspace, c@);
                if dirs.contains(context) && files.contains(dockerfile_at(context, b)) {
                    args_met(v, b.args.deep_view(), at, b.args@.len() as int)
                } else {
                    v
                }
            },
        },
        _ => v,
    }
}

/// Resolve source paths against the workspace and check that they exist, catching missing
/// compose files and Dockerfiles before boot.
pub fn source_of(
    e: &Environment,
    at: &str,
    workspace: &HostPath,
    vars: &mut Vars,
    files: &Vec<HostPath>,
    dirs: &Vec<HostPath>,
) -> (r: Result<Source, Error>)
    ensures
        match source_planned(
            *e,
            at@,
            workspace.deep_view(),
            old(vars).deep_view(),
            files.deep_view(),
            dirs.deep_view(),
        ) {
            Ok((s, w)) => {
                &&& r matches Ok(x) && x.deep_view() == s
                &&& final(vars).deep_view() == w
            },
            Err(m) => r matches Err(f) && f.deep_view() == m,
        },
        final(vars).deep_view() == source_met(
            *e,
            at@,
            workspace.deep_view(),
            old(vars).deep_view(),
            files.deep_view(),
            dirs.deep_view(),
        ),
{
    if let Some(c) = &e.compose {
        let file = in_workspace(workspace, c.as_str());
        if !is_listed(&file, files) {
            return Err(error(cat5("[", at, "] compose ", file.display().as_str(), " does not exist")));
        }
        return match &e.service {
            None => Err(error(cat3("[", at, "] compose needs `service`"))),
            Some(s) => Ok(Source::Compose { file, service: s.clone(), profiles: copy_list(&e.profiles) }),
        };
    }
    if let Some(i) = &e.image {
        return Ok(Source::Image { reference: i.clone() });
    }
    if let Some(b) = &e.build {
        let c = match &b.context {
            None => return Err(error(cat3("[", at, "] build needs `context`"))),
            Some(c) => c,
        };
        let context = in_workspace(workspace, c.as_str());
        if !is_listed(&context, dirs) {
            return Err(error(cat5("[", at, "] build.context ", context.display().as_str(), " is not a directory")));
        }
        let name = match &b.dockerfile {
            Some(d) => d.clone(),
            None => "Dockerfile".to_owned(),
        };
        let dockerfile = context.join_text(name.as_str()).lexical_normalize();
        if !is_listed(&dockerfile, files) {
            return Err(
                error(cat5("[", at, "] build.dockerfile ", dockerfile.display().as_str(), " does not exist")),
            );
        }
        let args = expand_args(&b.args, at, vars)?;
        return Ok(Source::Build { context, dockerfile, target: copy_opt(&b.target), args });
    }
    Err(error(cat3("[", at, "] names no source")))
}

/// What the mounts resolved so far come to.
pub struct MountsSoFar {
    /// the names and guest paths taken
    pub names: Seq<Seq<char>>,
    pub targets: Seq<Seq<char>>,
    /// each mount with the share it parses to
    pub done: Seq<(MountView, Option<VolumeView>)>,
    pub vars: VarsView,
}

/// The host path a mount's source means: relative to the project, like every other path in the
/// file, and folded either way.
pub open spec fn source_path(workspace: Seq<u8>, source: Seq<char>) -> Seq<u8> {
    normal(
        if is_abs(encode_utf8(source)) {
            encode_utf8(source)
        } else {
            project_path(workspace, source)
        },
    )
}

/// A source that walks out: one written relative to the project that is not in it, or one with a
/// climb that cannot be folded away.
pub open spec fn walks_out(workspace: Seq<u8>, given: Seq<char>) -> bool {
    let source = source_path(workspace, given);
    if is_abs(encode_utf8(given)) {
        comps(source).contains(dot_dot())
    } else {
        !under(source, normal(workspace))
    }
}

/// One more mount, or why it cannot be made.
pub open spec fn with_mount(
    s: MountsSoFar,
    name: Seq<char>,
    m: Mount,
    at: Seq<char>,
    workspace: Seq<u8>,
    shares: Seq<(Seq<char>, ShareView)>,
) -> Result<MountsSoFar, Seq<char>> {
    let key = at + ".mounts."@ + name;
    match expansion(s.vars, opt_or_empty(m.source)) {
        Err(e) => Err("["@ + key + "] source"@ + ": "@ + e),
        Ok(x) => match expansion(x.vars, opt_or_empty(m.to)) {
            Err(e) => Err("["@ + key + "] to"@ + ": "@ + e),
            Ok(y) => {
                let source = source_path(workspace, x.value);
                if x.value.len() == 0 || y.value.len() == 0 {
                    Err("["@ + key + "] needs both `source` and `to`"@)
                } else if x.value.contains(':') {
                    Err(
                        "["@ + key + "] source "@ + debug_text(x.value)
                            + " contains ':', which separates a mount's fields"@,
                    )
                } else if walks_out(workspace, x.value) {
                    Err("["@ + key + "] source "@ + lossy_text(source) + " escapes upward; write the path it means"@)
                } else {
                    match guest_folded(y.value) {
                        Err(e) => Err("["@ + key + "] to"@ + ": "@ + e),
                        Ok(to) => {
                            let mount = MountView {
                                name,
                                source,
                                to,
                                read_only: m.read_only,
                                optional: m.optional,
                            };
                            if s.names.contains(name) {
                                Err(
                                    "["@ + key + "] "@ + name
                                        + " is the name of a mount vk makes itself; choose another"@,
                                )
                            } else if s.targets.contains(to) {
                                Err(
                                    "["@ + key + "] mounts "@ + to
                                        + " a second time; one guest path takes one mount"@,
                                )
                            } else {
                                match mount_spec(mount) {
                                    Err(e) => Err("["@ + key + "]"@ + ": "@ + e),
                                    Ok(spec) => match entry(shares, spec) {
                                        Some(ShareView::Refused(e)) => Err("["@ + key + "]"@ + ": "@ + e),
                                        Some(ShareView::Made(v)) => Ok(
                                            MountsSoFar {
                                                names: s.names.push(name),
                                                targets: s.targets.push(to),
                                                done: s.done.push((mount, Some(v))),
                                                vars: y.vars,
                                            },
                                        ),
                                        _ => Ok(
                                            MountsSoFar {
                                                names: s.names.push(name),
                                                targets: s.targets.push(to),
                                                done: s.done.push((mount, None)),
                                                vars: y.vars,
                                            },
                                        ),
                                    },
                                }
                            }
                        },
                    }
                }
            },
        },
    }
}

pub open spec fn opt_or_empty(s: Option<String>) -> Seq<char> {
    match s {
        Some(t) => t@,
        None => ""@,
    }
}

/// The mounts that are on among the first `n`, resolved.
pub open spec fn mounts_upto(
    start: MountsSoFar,
    v: Seq<(String, Mount)>,
    at: Seq<char>,
    workspace: Seq<u8>,
    shares: Seq<(Seq<char>, ShareView)>,
    n: int,
) -> Result<MountsSoFar, Seq<char>>
    decreases n,
{
    if n <= 0 {
        Ok(start)
    } else {
        match mounts_upto(start, v, at, workspace, shares, n - 1) {
            Err(e) => Err(e),
            Ok(s) => if v[n - 1].1.enabled {
                with_mount(s, v[n - 1].0@, v[n - 1].1, at, workspace, shares)
            } else {
                Ok(s)
            },
        }
    }
}

/// What has been met once a mount's source and then its guest path are expanded, or as far as they
/// could be.
pub open spec fn mount_met(v: VarsView, m: Mount) -> VarsView {
    match expansion(v, opt_or_empty(m.source)) {
        Err(_) => met(v, opt_or_empty(m.source)),
        Ok(x) => met(x.vars, opt_or_empty(m.to)),
    }
}

/// What has been met once the first `n` mounts are resolved, or as far as they could be.
pub open spec fn mounts_met(
    start: MountsSoFar,
    v: Seq<(String, Mount)>,
    at: Seq<char>,
    workspace: Seq<u8>,
    shares: Seq<(Seq<char>, ShareView)>,
    n: int,
) -> VarsView
    decreases n,
{
    if n <= 0 {
        start.vars
    } else {
        match mounts_upto(start, v, at, workspace, shares, n - 1) {
            Err(_) => mounts_met(start, v, at, workspace, shares, n - 1),
            Ok(s) => if v[n - 1].1.enabled {
                mount_met(s.vars, v[n - 1].1)
            } else {
                s.vars
            },
        }
    }
}

proof fn lemma_mounts_kept(
    start: MountsSoFar,
    v: Seq<(String, Mount)>,
    at: Seq<char>,
    workspace: Seq<u8>,
    shares: Seq<(Seq<char>, ShareView)>,
    n: int,
    m: int,
)
    requires
        0 <= n <= m,
        mounts_upto(start, v, at, workspace, shares, n) is Err,
    ensures
        mounts_upto(start, v, at, workspace, shares, m) == mounts_upto(start, v, at, workspace, shares, n),
        mounts_met(start, v, at, workspace, shares, m) == mounts_met(start, v, at, workspace, shares, n),
    decreases m - n,
{
    if n < m {
        lemma_mounts_kept(start, v, at, workspace, shares, n, m - 1);
    }
}

/// A configured mount and the share it parses to: none for an `optional` source that is absent.
#[derive(Debug)]
pub struct Resolved {
    pub mount: MountPlan,
    pub share: Option<Volume>,
}

impl DeepView for Resolved {
    type V = (MountView, Option<VolumeView>);

    open spec fn deep_view(&self) -> (MountView, Option<VolumeView>) {
        (self.mount.deep_view(), self.share.deep_view())
    }
}

fn has_parent_component(p: &HostPath) -> (r: bool)
    ensures
        r == comps(p.deep_view()).contains(dot_dot()),
{
    let c = p.components();
    let ghost all = crate::path::all_bytes(c@);
    assert(all.len() == c@.len());
    let mut i: usize = 0;
    while i < c.len()
        invariant
            i <= c@.len(),
            all == crate::path::all_bytes(c@),
            all == comps(p.deep_view()),
            forall|j: int| 0 <= j < i ==> all[j] != dot_dot(),
        decreases c@.len() - i,
    {
        assert(all[i as int] == c@[i as int]@);
        if c[i].len() == 2 && c[i][0] == crate::path::DOT && c[i][1] == crate::path::DOT {
            assert(c@[i as int]@ =~= dot_dot());
            assert(all[i as int] == dot_dot());
            return true;
        }
        i = i + 1;
    }
    false
}

fn str_or_empty(s: &Option<String>) -> (r: String)
    ensures
        r@ == opt_or_empty(*s),
{
    match s {
        Some(t) => t.clone(),
        None => "".to_owned(),
    }
}

/// What the mounts resolved so far come to.
pub struct MountsMade {
    pub names: Vec<String>,
    pub targets: Vec<String>,
    pub done: Vec<Resolved>,
}

pub open spec fn made(m: MountsMade, v: VarsView) -> MountsSoFar {
    MountsSoFar {
        names: m.names.deep_view(),
        targets: m.targets.deep_view(),
        done: m.done.deep_view(),
        vars: v,
    }
}

fn add_mount(
    made_so_far: &mut MountsMade,
    vars: &mut Vars,
    name: &str,
    m: &Mount,
    at: &str,
    workspace: &HostPath,
    shares: &Vec<(String, Share)>,
) -> (r: Result<(), Error>)
    ensures
        match with_mount(
            made(*old(made_so_far), old(vars).deep_view()),
            name@,
            *m,
            at@,
            workspace.deep_view(),
            shares.deep_view(),
        ) {
            Ok(s) => r is Ok && made(*final(made_so_far), final(vars).deep_view()) == s,
            Err(e) => outcome(r) == Err::<(), Seq<char>>(e),
        },
        final(vars).deep_view() == mount_met(old(vars).deep_view(), *m),
{
    let key = cat3(at, ".mounts.", name);
    let source = match vars.expand(str_or_empty(&m.source).as_str()) {
        Ok(x) => x.value,
        Err(e) => return Err(within(cat3("[", key.as_str(), "] source").as_str(), e)),
    };
    let to = match vars.expand(str_or_empty(&m.to).as_str()) {
        Ok(x) => x.value,
        Err(e) => return Err(within(cat3("[", key.as_str(), "] to").as_str(), e)),
    };
    if source.as_str().is_empty() || to.as_str().is_empty() {
        return Err(error(cat3("[", key.as_str(), "] needs both `source` and `to`")));
    }
    if has_char(source.as_str(), ':') {
        return Err(
            error(
                cat5(
                    "[",
                    key.as_str(),
                    "] source ",
                    quoted(source.as_str()).as_str(),
                    " contains ':', which separates a mount's fields",
                ),
            ),
        );
    }
    let given = HostPath::from_text(source.as_str());
    let path = if given.is_absolute() {
        given.lexical_normalize()
    } else {
        in_workspace(workspace, source.as_str()).lexical_normalize()
    };
    let out = if given.is_absolute() {
        has_parent_component(&path)
    } else {
        !path.starts_with(&workspace.lexical_normalize())
    };
    if out {
        return Err(
            error(
                cat5(
                    "[",
                    key.as_str(),
                    "] source ",
                    path.display().as_str(),
                    " escapes upward; write the path it means",
                ),
            ),
        );
    }
    let target = match guest_path(to.as_str()) {
        Ok(t) => t,
        Err(e) => return Err(within(cat3("[", key.as_str(), "] to").as_str(), e)),
    };
    if is_one_of(name, &made_so_far.names) {
        return Err(
            error(
                cat5(
                    "[",
                    key.as_str(),
                    "] ",
                    name,
                    " is the name of a mount vk makes itself; choose another",
                ),
            ),
        );
    }
    if is_one_of(target.as_str(), &made_so_far.targets) {
        return Err(
            error(
                cat5(
                    "[",
                    key.as_str(),
                    "] mounts ",
                    target.as_str(),
                    " a second time; one guest path takes one mount",
                ),
            ),
        );
    }
    let mount = MountPlan {
        name: name.to_owned(),
        source: path,
        to: target.clone(),
        read_only: m.read_only,
        optional: m.optional,
    };
    let spec = match mount.spec() {
        Ok(s) => s,
        Err(e) => return Err(within(cat3("[", key.as_str(), "]").as_str(), e)),
    };
    let share = match get(shares, spec.as_str()) {
        Some(Share::Refused(e)) => {
            return Err(within(cat3("[", key.as_str(), "]").as_str(), error(e.clone())));
        },
        Some(Share::Made(v)) => Some(v.copy()),
        _ => None,
    };
    put(&mut made_so_far.names, name.to_owned());
    put(&mut made_so_far.targets, target);
    put(&mut made_so_far.done, Resolved { mount, share });
    Ok(())
}

/// The configured mounts, in name order, each with the share `vk run` will make of it. `taken`
/// holds the name and guest path vk mounts itself under, so that a config claiming either is
/// refused here rather than mounted twice.
pub fn mounts_of(
    e: &Environment,
    at: &str,
    workspace: &HostPath,
    vars: &mut Vars,
    taken: &Vec<(String, String)>,
    shares: &Vec<(String, Share)>,
) -> (r: Result<Vec<Resolved>, Error>)
    ensures
        match mounts_planned(
            *e,
            at@,
            workspace.deep_view(),
            old(vars).deep_view(),
            taken.deep_view(),
            shares.deep_view(),
        ) {
            Ok(s) => {
                &&& r matches Ok(x) && x.deep_view() == s.done
                &&& final(vars).deep_view() == s.vars
            },
            Err(m) => r matches Err(f) && f.deep_view() == m,
        },
        final(vars).deep_view() == mounts_met(
            no_mounts(old(vars).deep_view(), taken.deep_view()),
            e.mounts@,
            at@,
            workspace.deep_view(),
            shares.deep_view(),
            e.mounts@.len() as int,
        ),
{
    let mut so_far = MountsMade { names: Vec::new(), targets: Vec::new(), done: Vec::new() };
    let ghost t = taken.deep_view();
    let mut i: usize = 0;
    assert(so_far.names.deep_view() =~= firsts(t).take(0));
    assert(so_far.targets.deep_view() =~= seconds(t).take(0));
    while i < taken.len()
        invariant
            i <= taken@.len(),
            t == taken.deep_view(),
            so_far.names.deep_view() == firsts(t).take(i as int),
            so_far.targets.deep_view() == seconds(t).take(i as int),
            so_far.done@.len() == 0,
        decreases taken@.len() - i,
    {
        assert(t[i as int] == (taken@[i as int].0@, taken@[i as int].1@));
        put(&mut so_far.names, taken[i].0.clone());
        put(&mut so_far.targets, taken[i].1.clone());
        assert(so_far.names.deep_view() =~= firsts(t).take(i + 1));
        assert(so_far.targets.deep_view() =~= seconds(t).take(i + 1));
        i = i + 1;
    }
    assert(so_far.names.deep_view() =~= firsts(t));
    assert(so_far.targets.deep_view() =~= seconds(t));
    assert(so_far.done.deep_view() =~= Seq::<(MountView, Option<VolumeView>)>::empty());
    let ghost start = made(so_far, vars.deep_view());
    let ghost ws = workspace.deep_view();
    let ghost sh = shares.deep_view();
    i = 0;
    while i < e.mounts.len()
        invariant
            i <= e.mounts@.len(),
            ws == workspace.deep_view(),
            sh == shares.deep_view(),
            start == no_mounts(old(vars).deep_view(), t),
            t == taken.deep_view(),
            mounts_met(start, e.mounts@, at@, ws, sh, i as int) == vars.deep_view(),
            mounts_upto(start, e.mounts@, at@, ws, sh, i as int) == Ok::<MountsSoFar, Seq<char>>(
                made(so_far, vars.deep_view()),
            ),
        decreases e.mounts@.len() - i,
    {
        if e.mounts[i].1.enabled {
            if let Err(m) = add_mount(
                &mut so_far,
                vars,
                e.mounts[i].0.as_str(),
                &e.mounts[i].1,
                at,
                workspace,
                shares,
            ) {
                proof {
                    lemma_mounts_kept(start, e.mounts@, at@, ws, sh, i + 1, e.mounts@.len() as int);
                }
                return Err(m);
            }
        }
        i = i + 1;
    }
    Ok(so_far.done)
}

pub open spec fn firsts(t: Seq<(Seq<char>, Seq<char>)>) -> Seq<Seq<char>> {
    Seq::new(t.len(), |i: int| t[i].0)
}

pub open spec fn seconds(t: Seq<(Seq<char>, Seq<char>)>) -> Seq<Seq<char>> {
    Seq::new(t.len(), |i: int| t[i].1)
}

/// No mount yet, beside the names and guest paths that are taken.
pub open spec fn no_mounts(v: VarsView, taken: Seq<(Seq<char>, Seq<char>)>) -> MountsSoFar {
    MountsSoFar { names: firsts(taken), targets: seconds(taken), done: Seq::empty(), vars: v }
}

/// The configured mounts, beside the names and guest paths that are taken.
pub open spec fn mounts_planned(
    e: Environment,
    at: Seq<char>,
    workspace: Seq<u8>,
    v: VarsView,
    taken: Seq<(Seq<char>, Seq<char>)>,
    shares: Seq<(Seq<char>, ShareView)>,
) -> Result<MountsSoFar, Seq<char>> {
    mounts_upto(no_mounts(v, taken), e.mounts@, at, workspace, shares, e.mounts@.len() as int)
}

/// No text stands in the list twice.
pub open spec fn all_distinct(v: Seq<Seq<char>>) -> bool {
    forall|i: int, j: int| 0 <= i < j < v.len() ==> #[trigger] v[i] != #[trigger] v[j]
}

proof fn lemma_distinct_push(v: Seq<Seq<char>>, x: Seq<char>)
    requires
        all_distinct(v),
        !v.contains(x),
    ensures
        all_distinct(v.push(x)),
{
    let w = v.push(x);
    assert forall|i: int, j: int| 0 <= i < j < w.len() implies #[trigger] w[i] != #[trigger] w[j] by {
        assert(w[i] == v[i]);
        if j < v.len() {
            assert(w[j] == v[j]);
        } else {
            assert(v.contains(v[i]));
        }
    }
}

/// The last `done` of the names and guest paths taken are those of the mounts made.
pub open spec fn mounts_recorded(s: MountsSoFar, before: int) -> bool {
    &&& all_distinct(s.names)
    &&& all_distinct(s.targets)
    &&& s.names.len() == before + s.done.len()
    &&& s.targets.len() == before + s.done.len()
    &&& forall|i: int|
        0 <= i < s.done.len() ==> {
            &&& s.names[before + i] == (#[trigger] s.done[i]).0.name
            &&& s.targets[before + i] == s.done[i].0.to
        }
}

/// A mount source may not walk out of the project: one written relative to it is in it.
pub proof fn law_relative_source_stays(
    s: MountsSoFar,
    name: Seq<char>,
    m: Mount,
    at: Seq<char>,
    workspace: Seq<u8>,
    shares: Seq<(Seq<char>, ShareView)>,
)
    requires
        with_mount(s, name, m, at, workspace, shares) is Ok,
        !is_abs(encode_utf8(expansion(s.vars, opt_or_empty(m.source))->Ok_0.value)),
    ensures
        under(with_mount(s, name, m, at, workspace, shares)->Ok_0.done.last().0.source, normal(workspace)),
{
}

/// No two mounts share a guest path or a name, and none has one that vk itself mounts under.
pub proof fn law_mounts_distinct(
    start: MountsSoFar,
    v: Seq<(String, Mount)>,
    at: Seq<char>,
    workspace: Seq<u8>,
    shares: Seq<(Seq<char>, ShareView)>,
    n: int,
)
    requires
        start.done.len() == 0,
        start.names.len() == start.targets.len(),
        all_distinct(start.names),
        all_distinct(start.targets),
        0 <= n <= v.len(),
        mounts_upto(start, v, at, workspace, shares, n) is Ok,
    ensures
        mounts_recorded(mounts_upto(start, v, at, workspace, shares, n)->Ok_0, start.names.len() as int),
    decreases n,
{
    if n > 0 {
        law_mounts_distinct(start, v, at, workspace, shares, n - 1);
        let s = mounts_upto(start, v, at, workspace, shares, n - 1)->Ok_0;
        let t = mounts_upto(start, v, at, workspace, shares, n)->Ok_0;
        if v[n - 1].1.enabled {
            let m = t.done.last().0;
            assert(t.names == s.names.push(m.name));
            assert(t.targets == s.targets.push(m.to));
            lemma_distinct_push(s.names, m.name);
            lemma_distinct_push(s.targets, m.to);
            let before = start.names.len() as int;
            assert forall|i: int| 0 <= i < t.done.len() implies {
                &&& t.names[before + i] == (#[trigger] t.done[i]).0.name
                &&& t.targets[before + i] == t.done[i].0.to
            } by {
                if i < s.done.len() {
                    assert(t.done[i] == s.done[i]);
                }
            }
        }
    }
}

/// What a path resolves to, where the host says.
pub open spec fn canonical_of(c: Seq<(Seq<u8>, Seq<u8>)>, p: Seq<u8>, from: int) -> Option<Seq<u8>>
    decreases c.len() - from,
{
    if from < 0 || from >= c.len() {
        None
    } else if c[from].0 == p {
        Some(c[from].1)
    } else {
        canonical_of(c, p, from + 1)
    }
}

fn canonicalized(c: &Vec<(HostPath, HostPath)>, p: &HostPath) -> (r: Option<HostPath>)
    ensures
        r.deep_view() == canonical_of(c.deep_view(), p.deep_view(), 0),
{
    let mut i: usize = 0;
    let ghost s = c.deep_view();
    while i < c.len()
        invariant
            i <= c@.len(),
            s == c.deep_view(),
            canonical_of(s, p.deep_view(), i as int) == canonical_of(s, p.deep_view(), 0),
        decreases c@.len() - i,
    {
        assert(s[i as int] == (c@[i as int].0.deep_view(), c@[i as int].1.deep_view()));
        if same_bytes(&c[i].0.bytes, &p.bytes) {
            return Some(c[i].1.copy());
        }
        i = i + 1;
    }
    None
}

/// A path with the symlinks it does have resolved, keeping the tail that does not exist yet:
/// the nearest directory above it that resolves, with the names below that.
pub open spec fn symlinks_resolved(c: Seq<(Seq<u8>, Seq<u8>)>, at: Seq<u8>) -> Option<Seq<u8>>
    decreases comps(at).len(),
    via symlinks_decreases
{
    match canonical_of(c, at, 0) {
        Some(r) => Some(r),
        None => match (name_of(at), parent_of(at)) {
            (Some(n), Some(p)) => match symlinks_resolved(c, p) {
                Some(r) => Some(joined_path(r, n)),
                None => None,
            },
            _ => None,
        },
    }
}

#[via_fn]
proof fn symlinks_decreases(c: Seq<(Seq<u8>, Seq<u8>)>, at: Seq<u8>) {
    lemma_parent(at);
}

/// What a path means, for a comparison a symlink must not slip past; the path itself where
/// nothing of it resolves.
pub open spec fn meant(c: Seq<(Seq<u8>, Seq<u8>)>, p: Seq<u8>) -> Seq<u8> {
    match symlinks_resolved(c, p) {
        Some(r) => r,
        None => p,
    }
}

fn resolve_at(c: &Vec<(HostPath, HostPath)>, at: &HostPath) -> (r: Option<HostPath>)
    ensures
        r.deep_view() == symlinks_resolved(c.deep_view(), at.deep_view()),
    decreases comps(at.deep_view()).len(),
{
    if let Some(r) = canonicalized(c, at) {
        return Some(r);
    }
    proof {
        lemma_parent(at.deep_view());
    }
    match (at.file_name(), at.parent()) {
        (Some(n), Some(p)) => match resolve_at(c, &p) {
            Some(r) => Some(r.join(&HostPath { bytes: n })),
            None => None,
        },
        _ => None,
    }
}

/// `path` with the symlinks it does have resolved, keeping the tail that does not exist yet.
/// Neither the state directory nor a mount source is required to exist when a plan is made.
pub fn resolve_symlinks(c: &Vec<(HostPath, HostPath)>, path: &HostPath) -> (r: HostPath)
    ensures
        r.deep_view() == meant(c.deep_view(), path.deep_view()),
{
    match resolve_at(c, path) {
        Some(r) => r,
        None => path.copy(),
    }
}

/// What the state directory holds for the host's own use. A mount may not name these: a guest
/// that could write the key, the client config or the recorded identity would be steering the
/// host.
pub open spec fn is_host_entry(name: Seq<u8>) -> bool {
    ||| name == encode_utf8("editor"@)
    ||| name == encode_utf8("endpoints.json"@)
    ||| name == encode_utf8("id_ed25519"@)
    ||| name == encode_utf8("id_ed25519.pub"@)
    ||| name == encode_utf8("ssh-config"@)
    ||| name == encode_utf8("bin"@)
    ||| name == encode_utf8("dev.json"@)
    ||| name == encode_utf8("lifecycle"@)
    ||| name == encode_utf8("host-exec-wrapper"@)
    ||| name == encode_utf8("boot.log"@)
    ||| name == encode_utf8("publish"@)
}

/// As [`is_host_entry`], and every hidden name.
pub open spec fn is_reserved(name: Seq<u8>) -> bool {
    is_host_entry(name) || (name.len() > 0 && name[0] == crate::path::DOT)
}

pub fn spells(name: &Vec<u8>, text: &str) -> (r: bool)
    ensures
        r == (name@ == encode_utf8(text@)),
{
    let t = text.as_bytes_vec();
    same_bytes(name, &t)
}

pub fn host_entry(name: &Vec<u8>) -> (r: bool)
    ensures
        r == is_host_entry(name@),
{
    spells(name, "editor") || spells(name, "endpoints.json") || spells(name, "id_ed25519") || spells(
        name,
        "id_ed25519.pub",
    ) || spells(name, "ssh-config") || spells(name, "bin") || spells(name, "dev.json") || spells(name, "lifecycle")
        || spells(name, "host-exec-wrapper") || spells(name, "boot.log") || spells(name, "publish")
}

pub fn reserved_entry(name: &Vec<u8>) -> (r: bool)
    ensures
        r == is_reserved(name@),
{
    host_entry(name) || (name.len() > 0 && name[0] == crate::path::DOT)
}

/// Managed storage so far, and the shares that have nothing to do with the state directory.
pub struct StorageSoFar {
    pub managed: Seq<Seq<u8>>,
    /// the mount's name, its share and what the share's path means
    pub others: Seq<(Seq<char>, VolumeView, Seq<u8>)>,
}

/// One more share: managed storage where it stands under the state directory and is none of
/// the host's own entries.
pub open spec fn with_share(
    s: StorageSoFar,
    name: Seq<char>,
    v: VolumeView,
    state: Seq<u8>,
    canonical: Seq<(Seq<u8>, Seq<u8>)>,
) -> Result<StorageSoFar, Seq<char>> {
    let host = meant(canonical, v.host);
    match relative_to(host, state) {
        Some(rel) => if comps(rel).len() == 0 {
            Err(
                "mount "@ + name
                    + ": the state directory is the host's own — keys, logs, the recorded identity; mount a subdirectory of it instead"@,
            )
        } else if is_reserved(comps(rel)[0]) {
            Err(
                "mount "@ + name + ": "@ + lossy_text(comps(rel)[0])
                    + " under the state directory is the host's own; managed storage needs another name"@,
            )
        } else {
            Ok(StorageSoFar { managed: s.managed.push(v.host), ..s })
        },
        None => Ok(StorageSoFar { others: s.others.push((name, v, host)), ..s }),
    }
}

pub open spec fn shares_upto(
    mounts: Seq<(MountView, Option<VolumeView>)>,
    state: Seq<u8>,
    canonical: Seq<(Seq<u8>, Seq<u8>)>,
    n: int,
) -> Result<StorageSoFar, Seq<char>>
    decreases n,
{
    if n <= 0 {
        Ok(StorageSoFar { managed: Seq::empty(), others: Seq::empty() })
    } else {
        match shares_upto(mounts, state, canonical, n - 1) {
            Err(e) => Err(e),
            Ok(s) => match mounts[n - 1].1 {
                Some(v) => with_share(s, mounts[n - 1].0.name, v, state, canonical),
                None => Ok(s),
            },
        }
    }
}

proof fn lemma_shares_kept(
    mounts: Seq<(MountView, Option<VolumeView>)>,
    state: Seq<u8>,
    canonical: Seq<(Seq<u8>, Seq<u8>)>,
    n: int,
    m: int,
)
    requires
        0 <= n <= m,
        shares_upto(mounts, state, canonical, n) is Err,
    ensures
        shares_upto(mounts, state, canonical, m) == shares_upto(mounts, state, canonical, n),
    decreases m - n,
{
    if n < m {
        lemma_shares_kept(mounts, state, canonical, n, m - 1);
    }
}

/// The guest could write through the share.
pub open spec fn is_writable_share(v: VolumeView) -> bool {
    !(v.read_only || v.overlay || v.disk || v.socket)
}

/// What is wrong with the first share, among the first `n`, through which the guest could write
/// the state directory.
pub open spec fn holding_error(others: Seq<(Seq<char>, VolumeView, Seq<u8>)>, state: Seq<u8>, n: int) -> Option<
    Seq<char>,
>
    decreases n,
{
    if n <= 0 {
        None
    } else {
        first(
            holding_error(others, state, n - 1),
            flagged(
                is_writable_share(others[n - 1].1) && under(state, others[n - 1].2),
                "mount "@ + others[n - 1].0 + ": "@ + lossy_text(others[n - 1].2)
                    + " holds the state directory, which the guest would then mount read-write — mount something that does not contain it"@,
            ),
        )
    }
}

proof fn lemma_holding_kept(others: Seq<(Seq<char>, VolumeView, Seq<u8>)>, state: Seq<u8>, n: int, m: int)
    requires
        0 <= n <= m,
        holding_error(others, state, n) is Some,
    ensures
        holding_error(others, state, m) == holding_error(others, state, n),
    decreases m - n,
{
    if n < m {
        lemma_holding_kept(others, state, n, m - 1);
    }
}

/// The mount sources under the state directory, or why a mount may not be made: the state
/// directory is the host's alone.
pub open spec fn storage_planned(
    mounts: Seq<(MountView, Option<VolumeView>)>,
    state_dir: Seq<u8>,
    canonical: Seq<(Seq<u8>, Seq<u8>)>,
    state_check: Option<Seq<char>>,
) -> Result<Seq<Seq<u8>>, Seq<char>> {
    let state = meant(canonical, state_dir);
    match shares_upto(mounts, state, canonical, mounts.len() as int) {
        Err(e) => Err(e),
        Ok(s) => match holding_error(s.others, state, s.others.len() as int) {
            Some(e) => Err(e),
            None => match state_check {
                Some(e) => Err("checking the mounts against the state directory: "@ + e),
                None => Ok(s.managed),
            },
        },
    }
}

/// The mount sources under the state directory: managed storage, created by the boot and kept
/// across refreshes, and never one of the entries the host keeps there for itself. Every other
/// source is checked against the state directory as a whole.
///
/// Both sides are resolved first: a symlink whose name says nothing about the state directory
/// but which lands on one of its entries is that entry.
pub fn managed_storage(
    mounts: &Vec<Resolved>,
    state_dir: &HostPath,
    canonical: &Vec<(HostPath, HostPath)>,
    state_check: &Option<String>,
) -> (r: Result<Vec<HostPath>, Error>)
    ensures
        outcome(r) == storage_planned(
            mounts.deep_view(),
            state_dir.deep_view(),
            canonical.deep_view(),
            state_check.deep_view(),
        ),
{
    let state = resolve_symlinks(canonical, state_dir);
    let mut managed: Vec<HostPath> = Vec::new();
    let mut others: Vec<(String, Volume, HostPath)> = Vec::new();
    let ghost ms = mounts.deep_view();
    let ghost cs = canonical.deep_view();
    let ghost st = state.deep_view();
    let mut i: usize = 0;
    assert(managed.deep_view() =~= Seq::<Seq<u8>>::empty());
    assert(others.deep_view() =~= Seq::<(Seq<char>, VolumeView, Seq<u8>)>::empty());
    while i < mounts.len()
        invariant
            i <= mounts@.len(),
            ms == mounts.deep_view(),
            cs == canonical.deep_view(),
            st == state.deep_view(),
            st == meant(cs, state_dir.deep_view()),
            shares_upto(ms, st, cs, i as int) == Ok::<StorageSoFar, Seq<char>>(
                StorageSoFar { managed: managed.deep_view(), others: others.deep_view() },
            ),
        decreases mounts@.len() - i,
    {
        assert(ms[i as int] == (mounts@[i as int].mount.deep_view(), mounts@[i as int].share.deep_view()));
        if let Some(v) = &mounts[i].share {
            let name = mounts[i].mount.name.as_str();
            let host = resolve_symlinks(canonical, &v.host);
            match host.strip_prefix(&state) {
                Some(rel) => {
                    let c = rel.components();
                    let ghost all = crate::path::all_bytes(c@);
                    assert(all.len() == c@.len());
                    if c.len() == 0 {
                        proof {
                            lemma_shares_kept(ms, st, cs, i + 1, ms.len() as int);
                        }
                        return Err(
                            error(
                                cat3(
                                    "mount ",
                                    name,
                                    ": the state directory is the host's own — keys, logs, the recorded identity; mount a subdirectory of it instead",
                                ),
                            ),
                        );
                    }
                    assert(all[0] == c@[0]@);
                    if reserved_entry(&c[0]) {
                        proof {
                            lemma_shares_kept(ms, st, cs, i + 1, ms.len() as int);
                        }
                        let shown = crate::path::lossy(&c[0]);
                        return Err(
                            error(
                                cat5(
                                    "mount ",
                                    name,
                                    ": ",
                                    shown.as_str(),
                                    " under the state directory is the host's own; managed storage needs another name",
                                ),
                            ),
                        );
                    }
                    put(&mut managed, v.host.copy());
                },
                None => put(&mut others, (name.to_owned(), v.copy(), host)),
            }
        }
        i = i + 1;
    }
    let ghost os = others.deep_view();
    assert(os.len() == others@.len());
    i = 0;
    while i < others.len()
        invariant
            i <= others@.len(),
            os == others.deep_view(),
            os.len() == others@.len(),
            st == state.deep_view(),
            st == meant(canonical.deep_view(), state_dir.deep_view()),
            shares_upto(mounts.deep_view(), st, canonical.deep_view(), mounts.deep_view().len() as int) == Ok::<
                StorageSoFar,
                Seq<char>,
            >(StorageSoFar { managed: managed.deep_view(), others: os }),
            holding_error(os, st, i as int) is None,
        decreases others@.len() - i,
    {
        let (name, v, host) = &others[i];
        assert(os[i as int] == (name@, v.deep_view(), host.deep_view()));
        if !(v.read_only || v.overlay || v.disk || v.socket) && state.starts_with(host) {
            proof {
                lemma_holding_kept(os, st, i + 1, os.len() as int);
            }
            return Err(
                error(
                    cat5(
                        "mount ",
                        name.as_str(),
                        ": ",
                        host.display().as_str(),
                        " holds the state directory, which the guest would then mount read-write — mount something that does not contain it",
                    ),
                ),
            );
        }
        i = i + 1;
    }
    if let Some(e) = state_check {
        return Err(error(cat2("checking the mounts against the state directory: ", e.as_str())));
    }
    Ok(managed)
}

/// Every managed source stands under the state directory, at a name that is none of the host's
/// own; and no share through which the guest could write holds the state directory.
pub open spec fn storage_sound(s: StorageSoFar, state: Seq<u8>, canonical: Seq<(Seq<u8>, Seq<u8>)>) -> bool {
    &&& forall|i: int|
        0 <= i < s.managed.len() ==> {
            let rel = relative_to(meant(canonical, #[trigger] s.managed[i]), state);
            rel is Some && comps(rel->0).len() > 0 && !is_reserved(comps(rel->0)[0])
        }
    &&& forall|i: int| 0 <= i < s.others.len() ==> relative_to((#[trigger] s.others[i]).2, state) is None
}

/// What the guest mounts from the state directory is managed storage and never the host's own.
pub proof fn law_state_directory_is_the_hosts(
    mounts: Seq<(MountView, Option<VolumeView>)>,
    state: Seq<u8>,
    canonical: Seq<(Seq<u8>, Seq<u8>)>,
    n: int,
)
    requires
        0 <= n <= mounts.len(),
        shares_upto(mounts, state, canonical, n) is Ok,
    ensures
        storage_sound(shares_upto(mounts, state, canonical, n)->Ok_0, state, canonical),
    decreases n,
{
    if n > 0 {
        law_state_directory_is_the_hosts(mounts, state, canonical, n - 1);
        let s = shares_upto(mounts, state, canonical, n - 1)->Ok_0;
        let t = shares_upto(mounts, state, canonical, n)->Ok_0;
        assert forall|i: int| 0 <= i < t.managed.len() implies {
            let rel = relative_to(meant(canonical, #[trigger] t.managed[i]), state);
            rel is Some && comps(rel->0).len() > 0 && !is_reserved(comps(rel->0)[0])
        } by {
            if i < s.managed.len() {
                assert(t.managed[i] == s.managed[i]);
            }
        }
        assert forall|i: int| 0 <= i < t.others.len() implies relative_to((#[trigger] t.others[i]).2, state) is None by {
            if i < s.others.len() {
                assert(t.others[i] == s.others[i]);
            }
        }
    }
}

/// No share through which the guest could write holds the state directory.
pub proof fn law_no_share_holds_the_state(others: Seq<(Seq<char>, VolumeView, Seq<u8>)>, state: Seq<u8>, n: int, i: int)
    requires
        holding_error(others, state, n) is None,
        0 <= i < n,
    ensures
        is_writable_share(others[i].1) ==> !under(state, others[i].2),
    decreases n,
{
    if i < n - 1 {
        law_no_share_holds_the_state(others, state, n - 1, i);
    }
}

} // verus!
