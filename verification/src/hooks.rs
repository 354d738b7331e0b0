//! The lifecycle commands a config declares, and what has to hold before any of them run.
//!
//! Running a command is the caller's. A hook is a sequence of commands, [`commands`], each with
//! the label it is reported under; every one of them is attempted, and [`hook_outcome`] says
//! what the hook came to, given what each of them came to.

use crate::path::{joined_path, lossy_text, HostPath};
use crate::plan::{lemma_group, HookCommand, HookCommandView, HookPlan, HookView, Plan, PlanView};
use crate::text::{
    begins, begins_with, cat2, cat3, cat4, cat5, cat7, copy_opt, debug_text, decimal, error, is_one_of, join,
    joined, put, quoted, same, to_decimal, trim, trimmed, Error,
};
use crate::units::{parse_version, version_error, version_of};
use vstd::prelude::*;
use vstd::utf8::encode_utf8;

verus! {

broadcast use lemma_group;

/// Where a hook runs.
#[derive(Debug, Clone, Copy, PartialEq, Eq, Structural)]
pub enum Where {
    /// on this machine, from the workspace, before the environment exists
    Host,
    /// in the guest, as the configured user in the workspace folder
    Guest,
}

/// Where a hook's stamp is kept: written only once its command has succeeded, and holding the
/// generation it succeeded for.
pub fn stamp_path(state_dir: &HostPath, hook: &str) -> (r: HostPath)
    ensures
        r.deep_view() == joined_path(
            joined_path(state_dir.deep_view(), encode_utf8("lifecycle"@)),
            encode_utf8(hook@),
        ),
{
    state_dir.join_text("lifecycle").join_text(hook)
}

/// The stamp says that the hook succeeded for this generation.
pub open spec fn is_stamped(stamp: Option<Seq<char>>, generation: Seq<char>) -> bool {
    match stamp {
        Some(t) => trimmed(t) == generation,
        None => false,
    }
}

/// Whether a stamp file's text says that the hook succeeded for this generation.
pub fn stamped(stamp: &Option<String>, generation: &str) -> (r: bool)
    ensures
        r == is_stamped(stamp.deep_view(), generation@),
{
    match stamp {
        Some(t) => same(trim(t.as_str()).as_str(), generation),
        None => false,
    }
}

/// A command to run, with the label it is reported under.
#[derive(Debug)]
pub struct Labelled<'a> {
    pub label: String,
    pub command: &'a HookCommand,
}

pub struct LabelledView {
    pub label: Seq<char>,
    pub command: HookCommandView,
}

impl<'a> DeepView for Labelled<'a> {
    type V = LabelledView;

    open spec fn deep_view(&self) -> LabelledView {
        LabelledView { label: self.label@, command: self.command.deep_view() }
    }
}

/// The commands of a hook, in the order they run.
pub open spec fn commands_of(h: HookView, name: Seq<char>) -> Seq<LabelledView>
    decreases h, 1int, 0int,
{
    match h {
        HookView::Command(c) => seq![LabelledView { label: name, command: c }],
        HookView::Group(g) => members_of(h, name, g.len() as int),
    }
}

/// Those of the first `n` members of a group.
pub open spec fn members_of(h: HookView, name: Seq<char>, n: int) -> Seq<LabelledView>
    decreases h, 0int, n,
{
    match h {
        HookView::Group(g) => if n <= 0 || n > g.len() {
            Seq::empty()
        } else {
            members_of(h, name, n - 1) + commands_of(g[n - 1].1, name + "."@ + g[n - 1].0)
        },
        _ => Seq::empty(),
    }
}

fn add_commands<'a>(h: &'a HookPlan, name: &str, out: &mut Vec<Labelled<'a>>)
    ensures
        final(out).deep_view() == old(out).deep_view() + commands_of(h.deep_view(), name@),
    decreases h.deep_view(),
{
    let ghost had = out.deep_view();
    match h {
        HookPlan::Command(c) => {
            put(out, Labelled { label: name.to_owned(), command: c });
            assert(out.deep_view() =~= had + commands_of(h.deep_view(), name@));
        },
        HookPlan::Group(g) => {
            let ghost whole = h.deep_view();
            let ghost d = g.deep_view();
            let mut i: usize = 0;
            assert(had + members_of(whole, name@, 0) =~= had);
            while i < g.len()
                invariant
                    i <= g@.len(),
                    d == g.deep_view(),
                    whole == h.deep_view(),
                    whole == HookView::Group(d),
                    out.deep_view() == had + members_of(whole, name@, i as int),
                decreases g@.len() - i,
            {
                assert(d[i as int] == (g@[i as int].0@, g@[i as int].1.deep_view()));
                assert(decreases_to!(d => d[i as int]));
                assert(decreases_to!(d[i as int] => d[i as int].1));
                assert(decreases_to!(whole => whole->Group_0));
                add_commands(&g[i].1, cat3(name, ".", g[i].0.as_str()).as_str(), out);
                assert(out.deep_view() =~= had + members_of(whole, name@, i + 1));
                i = i + 1;
            }
        },
    }
}

/// The commands of a hook, in the order they run: a group's members one after another, in name
/// order, never concurrently, since they share one guest and build on each other.
pub fn commands<'a>(h: &'a HookPlan, name: &str) -> (r: Vec<Labelled<'a>>)
    ensures
        r.deep_view() == commands_of(h.deep_view(), name@),
{
    let mut out: Vec<Labelled<'a>> = Vec::new();
    add_commands(h, name, &mut out);
    assert(out.deep_view() =~= commands_of(h.deep_view(), name@));
    out
}

/// What a command came to: none where it succeeded, and else why it failed.
pub open spec fn failure_at(results: Seq<Option<Seq<char>>>, i: int) -> Option<Seq<char>> {
    if 0 <= i < results.len() {
        results[i]
    } else {
        None
    }
}

/// Why a hook failed, if it did, given what its commands came to, the first of them standing at
/// `from`. A best-effort command's failure is not the hook's; a required one's is.
pub open spec fn hook_failure(h: HookView, name: Seq<char>, results: Seq<Option<Seq<char>>>, from: int) -> Option<
    Seq<char>,
>
    decreases h, 1int, 0int,
{
    match h {
        HookView::Command(c) => if c.required {
            failure_at(results, from)
        } else {
            None
        },
        HookView::Group(g) => {
            let f = member_failures(h, name, results, from, g.len() as int).0;
            if f.len() == 0 {
                None
            } else {
                Some(name + ": "@ + joined(f, "; "@))
            }
        },
    }
}

/// The failures of the first `n` members of a group, and where the results of the next begin.
pub open spec fn member_failures(
    h: HookView,
    name: Seq<char>,
    results: Seq<Option<Seq<char>>>,
    from: int,
    n: int,
) -> (Seq<Seq<char>>, int)
    decreases h, 0int, n,
{
    match h {
        HookView::Group(g) => if n <= 0 || n > g.len() {
            (Seq::empty(), from)
        } else {
            let (had, at) = member_failures(h, name, results, from, n - 1);
            let label = name + "."@ + g[n - 1].0;
            let next = at + commands_of(g[n - 1].1, label).len();
            match hook_failure(g[n - 1].1, label, results, at) {
                Some(e) => (had.push(label + ": "@ + e), next),
                None => (had, next),
            }
        },
        _ => (Seq::empty(), from),
    }
}

fn failure(
    h: &HookPlan,
    name: &str,
    results: &Vec<Option<String>>,
    from: usize,
) -> (r: (Option<String>, usize))
    requires
        from + commands_of(h.deep_view(), name@).len() <= results@.len(),
    ensures
        r.0.deep_view() == hook_failure(h.deep_view(), name@, results.deep_view(), from as int),
        r.1 == from + commands_of(h.deep_view(), name@).len(),
    decreases h.deep_view(),
{
    match h {
        HookPlan::Command(c) => {
            assert(results.deep_view()[from as int] == results@[from as int].deep_view());
            let total: usize = results.len();
            assert(from < total);
            let next: usize = from + 1;
            if c.required {
                (copy_opt(&results[from]), next)
            } else {
                (None, next)
            }
        },
        HookPlan::Group(g) => {
            let ghost whole = h.deep_view();
            let ghost d = g.deep_view();
            let ghost rs = results.deep_view();
            let mut failures: Vec<String> = Vec::new();
            let mut at: usize = from;
            let mut i: usize = 0;
            assert(failures.deep_view() =~= Seq::empty());
            while i < g.len()
                invariant
                    i <= g@.len(),
                    d == g.deep_view(),
                    rs == results.deep_view(),
                    whole == h.deep_view(),
                    whole == HookView::Group(d),
                    from + commands_of(whole, name@).len() <= results@.len(),
                    member_failures(whole, name@, rs, from as int, i as int) == (failures.deep_view(), at as int),
                    at == from + members_of(whole, name@, i as int).len(),
                decreases g@.len() - i,
            {
                assert(d[i as int] == (g@[i as int].0@, g@[i as int].1.deep_view()));
                assert(decreases_to!(d => d[i as int]));
                assert(decreases_to!(d[i as int] => d[i as int].1));
                assert(decreases_to!(whole => whole->Group_0));
                proof {
                    lemma_members_grow(whole, name@, i + 1, d.len() as int);
                }
                let label = cat3(name, ".", g[i].0.as_str());
                let (e, next) = failure(&g[i].1, label.as_str(), results, at);
                if let Some(e) = e {
                    put(&mut failures, cat3(label.as_str(), ": ", e.as_str()));
                }
                at = next;
                i = i + 1;
            }
            assert(failures.deep_view().len() == failures@.len());
            if failures.is_empty() {
                (None, at)
            } else {
                (Some(cat3(name, ": ", join(&failures, "; ").as_str())), at)
            }
        },
    }
}

proof fn lemma_members_grow(h: HookView, name: Seq<char>, n: int, m: int)
    requires
        h is Group,
        0 <= n <= m <= h->Group_0.len(),
    ensures
        members_of(h, name, n).len() <= members_of(h, name, m).len(),
    decreases m - n,
{
    if n < m {
        lemma_members_grow(h, name, n, m - 1);
    }
}

/// What a hook came to, given what each of its commands came to.
pub fn hook_outcome(h: &HookPlan, name: &str, results: &Vec<Option<String>>) -> (r: Result<(), Error>)
    requires
        results@.len() == commands_of(h.deep_view(), name@).len(),
    ensures
        match hook_failure(h.deep_view(), name@, results.deep_view(), 0) {
            None => r is Ok,
            Some(e) => r matches Err(x) && x.deep_view() == e,
        },
{
    match failure(h, name, results, 0).0 {
        None => Ok(()),
        Some(e) => Err(error(e)),
    }
}

/// What is said of a command before it runs.
pub fn announce(label: &str, described: &str) -> (r: String)
    ensures
        r@ == "virtkit: "@ + label@ + ": "@ + described@,
{
    cat4("virtkit: ", label, ": ", described)
}

/// What is said of a best-effort command that failed.
pub fn best_effort(failure: &str) -> (r: String)
    ensures
        r@ == "virtkit: "@ + failure@ + " — best effort, continuing"@,
{
    cat3("virtkit: ", failure, " — best effort, continuing")
}

/// How a command ended.
#[derive(Debug)]
pub enum Ended {
    /// a guest command, with the code it exited with; none where it gave none
    Exited(Option<i32>),
    /// a host command that succeeded
    Succeeded,
    /// a host command that failed, with its status
    Failed(String),
    /// it did not finish in the time it was given
    TimedOut,
    /// it could not be run, and why
    NotRun(String),
}

pub enum EndedView {
    Exited(Option<i32>),
    Succeeded,
    Failed(Seq<char>),
    TimedOut,
    NotRun(Seq<char>),
}

impl DeepView for Ended {
    type V = EndedView;

    open spec fn deep_view(&self) -> EndedView {
        match *self {
            Ended::Exited(c) => EndedView::Exited(c),
            Ended::Succeeded => EndedView::Succeeded,
            Ended::Failed(s) => EndedView::Failed(s@),
            Ended::TimedOut => EndedView::TimedOut,
            Ended::NotRun(e) => EndedView::NotRun(e@),
        }
    }
}

/// Why a command failed, if it did.
pub open spec fn command_failure(c: HookCommandView, label: Seq<char>, e: EndedView) -> Option<Seq<char>> {
    match e {
        EndedView::Exited(None) => None,
        EndedView::Exited(Some(code)) => if code == 0 {
            None
        } else {
            Some(label + " exited "@ + crate::text::decimal_int(code as int))
        },
        EndedView::Succeeded => None,
        EndedView::Failed(status) => Some(label + " failed ("@ + status + ")"@),
        EndedView::TimedOut => Some(
            label + " did not finish within "@ + decimal(
                match c.timeout_secs {
                    Some(n) => n as nat,
                    None => 0,
                },
            ) + "s"@,
        ),
        EndedView::NotRun(why) => Some(why),
    }
}

/// Why a command failed, if it did.
pub fn ended(c: &HookCommand, label: &str, e: &Ended) -> (r: Option<String>)
    ensures
        r.deep_view() == command_failure(c.deep_view(), label@, e.deep_view()),
{
    match e {
        Ended::Exited(None) => None,
        Ended::Exited(Some(code)) => if *code == 0 {
            None
        } else {
            let n = crate::validate::to_decimal_int(*code as i64);
            Some(cat3(label, " exited ", n.as_str()))
        },
        Ended::Succeeded => None,
        Ended::Failed(status) => Some(cat4(label, " failed (", status.as_str(), ")")),
        Ended::TimedOut => {
            let n = to_decimal(
                match c.timeout_secs {
                    Some(n) => n,
                    None => 0,
                },
            );
            Some(cat4(label, " did not finish within ", n.as_str(), "s"))
        },
        Ended::NotRun(why) => Some(why.clone()),
    }
}

/// Where a host command runs: the workspace, or the directory it names under it.
pub fn host_dir(workspace: &HostPath, c: &HookCommand) -> (r: HostPath)
    ensures
        r.deep_view() == match c.deep_view().cwd {
            Some(d) => joined_path(workspace.deep_view(), encode_utf8(d)),
            None => workspace.deep_view(),
        },
{
    match &c.cwd {
        Some(d) => workspace.join_text(d.as_str()),
        None => workspace.copy(),
    }
}

/// Where a guest command runs: a relative directory is under the workspace folder.
pub open spec fn guest_dir_of(cwd: Option<Seq<char>>, folder: Option<Seq<char>>) -> Option<Seq<char>> {
    match (cwd, folder) {
        (Some(d), Some(f)) => if begins(d, "/"@) {
            Some(d)
        } else {
            Some(f + "/"@ + d)
        },
        (Some(d), None) => Some(d),
        (None, f) => f,
    }
}

pub fn guest_dir(c: &HookCommand, folder: &Option<String>) -> (r: Option<String>)
    ensures
        r.deep_view() == guest_dir_of(c.deep_view().cwd, folder.deep_view()),
{
    match (&c.cwd, folder) {
        (Some(d), Some(f)) => if begins_with(d.as_str(), "/") {
            Some(d.clone())
        } else {
            Some(cat3(f.as_str(), "/", d.as_str()))
        },
        (Some(d), None) => Some(d.clone()),
        (None, f) => copy_opt(f),
    }
}

/// What the hooks of a boot need next.
#[derive(Debug, Clone, Copy, PartialEq, Eq, Structural)]
pub enum StartStep {
    RunCreate,
    StampCreate,
    RunStart,
    Done,
}

/// The creation hook is due: there is one, and it is not stamped for this generation.
pub open spec fn create_due(p: PlanView, generation: Option<Seq<char>>, stamp: Option<Seq<char>>) -> bool {
    p.hooks.create is Some && !(generation matches Some(g) && is_stamped(stamp, g))
}

/// What comes after a step that succeeded; none stands before the first.
pub open spec fn start_after(
    p: PlanView,
    generation: Option<Seq<char>>,
    stamp: Option<Seq<char>>,
    last: Option<StartStep>,
) -> StartStep {
    let start = if p.hooks.start is Some {
        StartStep::RunStart
    } else {
        StartStep::Done
    };
    match last {
        None => if create_due(p, generation, stamp) {
            StartStep::RunCreate
        } else {
            start
        },
        Some(StartStep::RunCreate) => if generation is Some {
            StartStep::StampCreate
        } else {
            start
        },
        Some(StartStep::StampCreate) => start,
        Some(_) => StartStep::Done,
    }
}

/// The hooks that run once the environment is up after a boot: creation for a generation that
/// has not had it, then start. Given the step that succeeded last, none before the first, what
/// comes next; a failure ends the sequence and leaves no stamp. Without a generation, nothing to
/// read it off, creation runs and is not stamped, so that the next boot runs it rather than
/// skipping it.
pub fn next_start_step(
    plan: &Plan,
    generation: &Option<String>,
    stamp: &Option<String>,
    last: Option<StartStep>,
) -> (r: StartStep)
    ensures
        r == start_after(plan.deep_view(), generation.deep_view(), stamp.deep_view(), last),
{
    let start = if plan.hooks.start.is_some() {
        StartStep::RunStart
    } else {
        StartStep::Done
    };
    match last {
        None => {
            let done = match generation {
                Some(g) => stamped(stamp, g.as_str()),
                None => false,
            };
            if plan.hooks.create.is_some() && !done {
                StartStep::RunCreate
            } else {
                start
            }
        },
        Some(StartStep::RunCreate) => if generation.is_some() {
            StartStep::StampCreate
        } else {
            start
        },
        Some(StartStep::StampCreate) => start,
        Some(_) => StartStep::Done,
    }
}

/// A stamp is written only right behind a creation hook that succeeded, and once it stands the
/// next boot of the same generation does not run that hook again.
pub proof fn law_created_once_per_generation(p: PlanView, g: Seq<char>, stamp: Option<Seq<char>>, last: Option<StartStep>)
    requires
        trimmed(g) == g,
    ensures
        start_after(p, Some(g), stamp, last) == StartStep::StampCreate ==> last == Some(StartStep::RunCreate),
        start_after(p, Some(g), Some(g), None) != StartStep::RunCreate,
        p.hooks.create is Some && !is_stamped(stamp, g) ==> start_after(p, Some(g), stamp, None)
            == StartStep::RunCreate,
{
}

/// A best-effort command never fails its hook, and a required one always does.
pub proof fn law_required_decides(c: HookCommandView, name: Seq<char>, results: Seq<Option<Seq<char>>>)
    requires
        results.len() == 1,
    ensures
        hook_failure(HookView::Command(c), name, results, 0) is Some <==> c.required && results[0] is Some,
{
}

/// What a probe of a required feature found wrong.
#[derive(Debug)]
pub struct Lacking {
    pub feature: String,
    pub why: String,
}

pub struct LackingView {
    pub feature: Seq<char>,
    pub why: Seq<char>,
}

impl DeepView for Lacking {
    type V = LackingView;

    open spec fn deep_view(&self) -> LackingView {
        LackingView { feature: self.feature@, why: self.why@ }
    }
}

/// Why a feature is not provided, from the `from`th finding on.
pub open spec fn lacking_from(found: Seq<LackingView>, feature: Seq<char>, from: int) -> Option<Seq<char>>
    decreases found.len() - from,
{
    if from < 0 || from >= found.len() {
        None
    } else if found[from].feature == feature {
        Some(found[from].why)
    } else {
        lacking_from(found, feature, from + 1)
    }
}

fn why_lacking(found: &Vec<Lacking>, feature: &str) -> (r: Option<String>)
    ensures
        r.deep_view() == lacking_from(found.deep_view(), feature@, 0),
{
    let ghost f = found.deep_view();
    let mut i: usize = 0;
    while i < found.len()
        invariant
            i <= found@.len(),
            f == found.deep_view(),
            lacking_from(f, feature@, i as int) == lacking_from(f, feature@, 0),
        decreases found@.len() - i,
    {
        assert(f[i as int] == found@[i as int].deep_view());
        if same(found[i].feature.as_str(), feature) {
            return Some(found[i].why.clone());
        }
        i = i + 1;
    }
    None
}

/// What the first `n` required features lack, or the first that is not one.
pub open spec fn missing_upto(
    features: Seq<Seq<char>>,
    known: Seq<Seq<char>>,
    found: Seq<LackingView>,
    n: int,
) -> Result<Seq<Seq<char>>, Seq<char>>
    decreases n,
{
    if n <= 0 {
        Ok(Seq::empty())
    } else {
        match missing_upto(features, known, found, n - 1) {
            Err(e) => Err(e),
            Ok(had) => {
                let name = features[n - 1];
                if !known.contains(name) {
                    Err(
                        "requires.features names "@ + debug_text(name)
                            + ", which is not a feature `vk check` knows"@,
                    )
                } else {
                    match lacking_from(found, name, 0) {
                        Some(why) => Ok(had.push(name + ": "@ + why)),
                        None => Ok(had),
                    }
                }
            },
        }
    }
}

/// Why this `vk`, of this release, is not new enough for the config, if it is not.
pub open spec fn too_old(p: PlanView, exe: Seq<u8>, release: Seq<char>) -> Option<Seq<char>> {
    match p.requires.min_version {
        None => None,
        Some(min) => match (version_of(min), version_of(release)) {
            (None, _) => Some("requires.min-version "@ + debug_text(min) + ": "@ + version_error()),
            (Some(_), None) => Some(version_error()),
            (Some(v), Some(own)) => if own.older_than(v) {
                Some(
                    lossy_text(exe) + " is vk "@ + own.spelling() + ", and "@ + lossy_text(p.config)
                        + " requires at least "@ + v.spelling()
                        + " — `vk update`, or point VIRTKIT_VK at a newer build"@,
                )
            } else {
                None
            },
        },
    }
}

/// Why this `vk` does not meet what the config requires, if it does not.
pub open spec fn unmet(
    p: PlanView,
    exe: Seq<u8>,
    release: Seq<char>,
    known: Seq<Seq<char>>,
    found: Seq<LackingView>,
) -> Option<Seq<char>> {
    match too_old(p, exe, release) {
        Some(e) => Some(e),
        None => match missing_upto(p.requires.features, known, found, p.requires.features.len() as int) {
            Err(e) => Some(e),
            Ok(missing) => if missing.len() == 0 {
                None
            } else {
                Some(
                    lossy_text(exe) + " does not provide what "@ + lossy_text(p.config) + " requires:\n  "@ + joined(
                        missing,
                        "\n  "@,
                    ),
                )
            },
        },
    }
}

proof fn lemma_missing_kept(features: Seq<Seq<char>>, known: Seq<Seq<char>>, found: Seq<LackingView>, n: int, m: int)
    requires
        0 < n <= m,
        missing_upto(features, known, found, n) is Err,
    ensures
        missing_upto(features, known, found, m) == missing_upto(features, known, found, n),
    decreases m - n,
{
    if n < m {
        lemma_missing_kept(features, known, found, n, m - 1);
    }
}

fn meets_version(plan: &Plan, exe: &HostPath, release: &str) -> (r: Result<(), Error>)
    ensures
        match too_old(plan.deep_view(), exe.deep_view(), release@) {
            None => r is Ok,
            Some(m) => r matches Err(e) && e.deep_view() == m,
        },
{
    match &plan.requires.min_version {
        None => Ok(()),
        Some(min) => match parse_version(min.as_str()) {
            None => Err(
                error(
                    cat4(
                        "requires.min-version ",
                        quoted(min.as_str()).as_str(),
                        ": ",
                        "expected a version such as 0.64.0",
                    ),
                ),
            ),
            Some(v) => {
                let own = match parse_version(release) {
                    Some(own) => own,
                    None => return Err(error("expected a version such as 0.64.0".to_owned())),
                };
                if own.is_older_than(v) {
                    let who = exe.display();
                    let is = own.to_text();
                    let config = plan.config.display();
                    let least = v.to_text();
                    Err(
                        error(
                            cat7(
                                who.as_str(),
                                " is vk ",
                                is.as_str(),
                                ", and ",
                                config.as_str(),
                                " requires at least ",
                                cat2(
                                    least.as_str(),
                                    " — `vk update`, or point VIRTKIT_VK at a newer build",
                                ).as_str(),
                            ),
                        ),
                    )
                } else {
                    Ok(())
                }
            },
        },
    }
}

/// What the config requires of this `vk`, checked before anything is built or started so a
/// too-old binary fails with the executable and version it is, not halfway into a boot. `release`
/// is this `vk`'s own, `known` are the features there are, and `found` is what a probe of each
/// found wrong.
pub fn check_requirements(
    plan: &Plan,
    exe: &HostPath,
    release: &str,
    known: &Vec<String>,
    found: &Vec<Lacking>,
) -> (r: Result<(), Error>)
    ensures
        match unmet(plan.deep_view(), exe.deep_view(), release@, known.deep_view(), found.deep_view()) {
            None => r is Ok,
            Some(e) => r matches Err(x) && x.deep_view() == e,
        },
{
    let ghost p = plan.deep_view();
    let ghost fs = p.requires.features;
    let ghost k = known.deep_view();
    let ghost f = found.deep_view();
    let _ = meets_version(plan, exe, release)?;
    let mut missing: Vec<String> = Vec::new();
    let mut i: usize = 0;
    let features = &plan.requires.features;
    assert(missing.deep_view() =~= Seq::empty());
    while i < features.len()
        invariant
            i <= features@.len(),
            fs == features.deep_view(),
            k == known.deep_view(),
            f == found.deep_view(),
            p == plan.deep_view(),
            fs == p.requires.features,
            unmet(p, exe.deep_view(), release@, k, f) == match missing_upto(fs, k, f, fs.len() as int) {
                Err(e) => Some(e),
                Ok(missing) => if missing.len() == 0 {
                    None
                } else {
                    Some(
                        lossy_text(exe.deep_view()) + " does not provide what "@ + lossy_text(p.config)
                            + " requires:\n  "@ + joined(missing, "\n  "@),
                    )
                },
            },
            missing_upto(fs, k, f, i as int) == Ok::<Seq<Seq<char>>, Seq<char>>(missing.deep_view()),
        decreases features@.len() - i,
    {
        let name = features[i].as_str();
        assert(fs[i as int] == name@);
        if !is_one_of(name, known) {
            proof {
                lemma_missing_kept(fs, k, f, i + 1, fs.len() as int);
            }
            return Err(
                error(
                    cat3(
                        "requires.features names ",
                        quoted(name).as_str(),
                        ", which is not a feature `vk check` knows",
                    ),
                ),
            );
        }
        if let Some(why) = why_lacking(found, name) {
            put(&mut missing, cat3(name, ": ", why.as_str()));
        }
        i = i + 1;
    }
    assert(missing.deep_view().len() == missing@.len());
    if missing.is_empty() {
        return Ok(());
    }
    let who = exe.display();
    let config = plan.config.display();
    let list = join(&missing, "\n  ");
    Err(
        error(
            cat5(
                who.as_str(),
                " does not provide what ",
                config.as_str(),
                " requires:\n  ",
                list.as_str(),
            ),
        ),
    )
}

} // verus!
