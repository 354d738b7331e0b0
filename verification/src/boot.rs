//! Bringing the environment up: what a boot does about what is already there.
//!
//! What runs, what holds the lock and what a terminal answers are the caller's to find out;
//! here are the decisions taken on it. [`boot`] says what a boot does once the host hooks
//! have run, [`after_swap`] what is left to do once the environment was stopped to be replaced,
//! and [`wait_step`] how long to wait for a boot that someone else started.

use crate::config::Freshness;
use crate::digest::to_hex;
use crate::identity::{
    applied_on_attach, attachable, creator_note, drift, drifted, identity_of, manifest_digest, manifest_of,
    note_older_creator, Identity, IdentityView,
};
use crate::path::{joined_path, lossy_text, text_of_bytes, HostPath};
use crate::plan::{unresolved_error, Plan, PlanView, Source, SourceView};
use crate::planjson::{path_error, plan_paths_text};
use crate::runargs::short;
use crate::shell::{quote_word, word};
use crate::text::{
    cat2, cat3, cat4, cat5, cat6, cat7, decimal, error, first_chars, is_space, outcome, put, same, to_decimal, word_end,
    words, words_from, words_of, Error,
};
use vstd::prelude::*;
use vstd::utf8::encode_utf8;

verus! {

/// How long a refresh waits for the environment to stop, in seconds.
pub const STOP_TIMEOUT_SECS: u64 = 10;

/// How long a joined boot may sit with its VM up but nothing recorded, in seconds: it covers the
/// publishing of its endpoints and its start hook.
pub const READY_WAIT_SECS: u64 = 300;

/// Where a child tells its parent whether it booted the VM: named after the parent's pid.
pub fn transition_path(state_dir: &HostPath, parent_pid: u32) -> (r: HostPath)
    ensures
        r.deep_view() == joined_path(
            state_dir.deep_view(),
            encode_utf8(".transition."@ + decimal(parent_pid as nat)),
        ),
{
    let pid = to_decimal(parent_pid as u64);
    state_dir.join_text(cat2(".transition.", pid.as_str()).as_str())
}

/// What an invocation did about the VM.
#[derive(Debug, Clone, Copy, PartialEq, Eq, Structural)]
pub enum Transition {
    Booted,
    Reused,
}

impl Transition {
    pub open spec fn verb(self) -> Seq<char> {
        match self {
            Transition::Booted => "booted"@,
            Transition::Reused => "reused"@,
        }
    }
}

/// The note a child leaves: what happened, which process says so, and the invocation's nonce.
pub open spec fn note_text(t: Transition, pid: u32, nonce: Seq<char>) -> Seq<char> {
    t.verb() + " "@ + decimal(pid as nat) + " "@ + nonce + "\n"@
}

/// The note a child leaves for its parent to read back. The nonce is what makes the note this
/// boot's: the file is named after a pid, which the operating system hands out again.
pub fn transition_note(t: Transition, pid: u32, nonce: &str) -> (r: String)
    ensures
        r@ == note_text(t, pid, nonce@),
{
    let verb = match t {
        Transition::Booted => "booted",
        Transition::Reused => "reused",
    };
    let p = to_decimal(pid as u64);
    cat6(verb, " ", p.as_str(), " ", nonce, "\n")
}

/// What a note says to the invocation with this nonce.
pub open spec fn note_read(body: Seq<char>, nonce: Seq<char>) -> Option<Transition> {
    let w = words_of(body);
    if w.len() < 3 || w[2] != nonce {
        None
    } else if w[0] == "booted"@ {
        Some(Transition::Booted)
    } else if w[0] == "reused"@ {
        Some(Transition::Reused)
    } else {
        None
    }
}

/// What the child's note says. One that another invocation wrote says nothing: nothing that only
/// makes sense after a fresh boot runs on a guess.
pub fn read_transition(body: &str, nonce: &str) -> (r: Option<Transition>)
    ensures
        r == note_read(body@, nonce@),
{
    let w = words(body);
    let ghost d = w.deep_view();
    assert(w@.len() == d.len());
    if w.len() < 3 {
        return None;
    }
    assert(d[0] == w@[0]@ && d[2] == w@[2]@);
    if !same(w[2].as_str(), nonce) {
        None
    } else if same(w[0].as_str(), "booted") {
        Some(Transition::Booted)
    } else if same(w[0].as_str(), "reused") {
        Some(Transition::Reused)
    } else {
        None
    }
}

/// No character is white space, and there is one.
pub open spec fn one_word(s: Seq<char>) -> bool {
    s.len() > 0 && forall|i: int| 0 <= i < s.len() ==> !is_space(#[trigger] s[i])
}

proof fn lemma_word_end_at(s: Seq<char>, i: int, end: int)
    requires
        0 <= i <= end < s.len(),
        is_space(s[end]),
        forall|j: int| i <= j < end ==> !is_space(#[trigger] s[j]),
    ensures
        word_end(s, i) == end,
    decreases end - i,
{
    if i < end {
        lemma_word_end_at(s, i + 1, end);
    }
}

proof fn lemma_word_at(s: Seq<char>, i: int, w: Seq<char>)
    requires
        0 <= i,
        one_word(w),
        i + w.len() < s.len(),
        s.subrange(i, i + w.len()) == w,
        is_space(s[i + w.len()]),
    ensures
        words_from(s, i) == seq![w] + words_from(s, i + w.len() + 1),
{
    let end = i + w.len();
    assert forall|j: int| i <= j < end implies !is_space(#[trigger] s[j]) by {
        assert(s.subrange(i, end)[j - i] == s[j]);
    }
    lemma_word_end_at(s, i, end);
    assert(!is_space(s[i]));
    assert(words_from(s, end) == words_from(s, end + 1));
}

proof fn lemma_decimal_word(n: nat)
    ensures
        one_word(decimal(n)),
    decreases n,
{
    if n >= 10 {
        lemma_decimal_word(n / 10);
        let d = decimal(n);
        let h = decimal(n / 10);
        assert(d == h.push(crate::text::digit_of(n % 10)));
        assert forall|i: int| 0 <= i < d.len() implies !is_space(#[trigger] d[i]) by {
            if i < h.len() {
                assert(d[i] == h[i]);
            }
        }
    }
}

/// A note is read back by the invocation it was written for, and by no other.
pub proof fn law_note_is_read_back(t: Transition, pid: u32, nonce: Seq<char>, other: Seq<char>)
    requires
        one_word(nonce),
    ensures
        note_read(note_text(t, pid, nonce), nonce) == Some(t),
        other != nonce ==> note_read(note_text(t, pid, nonce), other) is None,
{
    reveal_strlit("booted");
    reveal_strlit("reused");
    reveal_strlit(" ");
    reveal_strlit("\n");
    let v = t.verb();
    let d = decimal(pid as nat);
    let s = note_text(t, pid, nonce);
    assert(one_word(v));
    lemma_decimal_word(pid as nat);
    assert(s.subrange(0, v.len() as int) =~= v);
    assert(s[v.len() as int] == ' ');
    lemma_word_at(s, 0, v);
    let i: int = v.len() as int + 1;
    assert(s.subrange(i, i + d.len()) =~= d);
    assert(s[i + d.len()] == ' ');
    lemma_word_at(s, i, d);
    let j: int = i + d.len() + 1;
    assert(s.subrange(j, j + nonce.len()) =~= nonce);
    assert(s[j + nonce.len()] == '\n');
    lemma_word_at(s, j, nonce);
    let w = words_of(s);
    assert(w =~= seq![v, d, nonce] + words_from(s, j + nonce.len() + 1));
    assert(w[0] == v && w[2] == nonce);
    assert("booted"@[0] != "reused"@[0]);
}

/// A token no other directory has: random bytes in hexadecimal, or the clock and a pid where
/// there are none.
pub fn generation_token(random: &Option<Vec<u8>>, nanos: u64, pid: u32) -> (r: String)
    ensures
        r@ == match *random {
            Some(b) => crate::digest::hex(b@),
            None => decimal(nanos as nat) + "-"@ + decimal(pid as nat),
        },
{
    match random {
        Some(b) => to_hex(b),
        None => {
            let n = to_decimal(nanos);
            let p = to_decimal(pid as u64);
            cat3(n.as_str(), "-", p.as_str())
        },
    }
}

/// The path quoted for the shell, or why it cannot be.
pub open spec fn shell_path(path: Seq<u8>, what: Seq<char>) -> Result<Seq<char>, Seq<char>> {
    match text_of_bytes(path) {
        Some(t) => Ok(word(t)),
        None => Err(what + " ("@ + lossy_text(path) + ") is not valid UTF-8"@),
    }
}

/// A path quoted for the shell; one that is not text is refused, since replacing the bytes it
/// cannot spell would name a different file.
pub fn shell_quote_utf8(path: &HostPath, what: &str) -> (r: Result<String, Error>)
    ensures
        outcome(r) == shell_path(path.deep_view(), what@),
{
    match path.to_str() {
        Some(t) => Ok(quote_word(t.as_str())),
        None => Err(error(cat4(what, " (", path.display().as_str(), ") is not valid UTF-8"))),
    }
}

/// The script a built-in policy is, or why there is none.
pub open spec fn policy_script(exe: Seq<u8>, workspace: Seq<u8>, policy: Seq<char>) -> Result<Seq<char>, Seq<char>> {
    match shell_path(exe, "this vk's own path"@) {
        Err(e) => Err(e),
        Ok(vk) => match shell_path(workspace, "the workspace"@) {
            Err(e) => Err(e),
            Ok(w) => Ok(
                "#!/bin/sh\nexec "@ + vk + " host-policy "@ + policy + " --workspace "@ + w + " -- \"$@\"\n"@,
            ),
        },
    }
}

/// The one-line script a built-in policy is: it hands the guest's argv straight to this `vk`,
/// which is where the policy lives. Its text names this `vk` and this workspace, so either one
/// moving reads as drift.
pub fn builtin_wrapper(exe: &HostPath, workspace: &HostPath, policy: &str) -> (r: Result<String, Error>)
    ensures
        outcome(r) == policy_script(exe.deep_view(), workspace.deep_view(), policy@),
{
    let vk = shell_quote_utf8(exe, "this vk's own path")?;
    let w = shell_quote_utf8(workspace, "the workspace")?;
    Ok(
        cat7(
            "#!/bin/sh\nexec ",
            vk.as_str(),
            " host-policy ",
            policy,
            " --workspace ",
            w.as_str(),
            " -- \"$@\"\n",
        ),
    )
}

/// Whether a project's wrapper may be run on this host, by what its descriptor says of it: the
/// host runs it, so one that another user owns is not one this operator vouched for.
pub fn wrapper_allowed(path: &HostPath, regular: bool, owned: bool, executable: bool) -> (r: Result<(), Error>)
    ensures
        if regular && owned && executable {
            r is Ok
        } else {
            r matches Err(e) && e.deep_view() == "host.wrapper "@ + lossy_text(path.deep_view()) + (if !regular {
                " is not a regular file"@
            } else if !owned {
                " is not owned by this user"@
            } else {
                " is not executable"@
            })
        },
{
    let why = if !regular {
        " is not a regular file"
    } else if !owned {
        " is not owned by this user"
    } else if !executable {
        " is not executable"
    } else {
        return Ok(());
    };
    Err(error(cat3("host.wrapper ", path.display().as_str(), why)))
}

/// Where the wrapper the host runs is kept, out of the guest's reach.
pub fn wrapper_path(state_dir: &HostPath) -> (r: HostPath)
    ensures
        r.deep_view() == joined_path(state_dir.deep_view(), encode_utf8("host-exec-wrapper"@)),
{
    state_dir.join_text("host-exec-wrapper")
}

/// What an `up` does about an environment that runs from a different configuration.
#[derive(Debug)]
pub enum Drifted {
    /// leave it alone and attach to it as recorded; the text says why
    Reuse(&'static str),
    /// rebuild and restart it into the configuration as it now reads
    Restart,
    /// do neither: the policy is that a running environment matches its config
    Refuse,
}

pub enum DriftedView {
    Reuse(Seq<char>),
    Restart,
    Refuse,
}

impl DeepView for Drifted {
    type V = DriftedView;

    open spec fn deep_view(&self) -> DriftedView {
        match *self {
            Drifted::Reuse(why) => DriftedView::Reuse(why@),
            Drifted::Restart => DriftedView::Restart,
            Drifted::Refuse => DriftedView::Refuse,
        }
    }
}

/// There is something to ask, and somebody to answer.
pub open spec fn to_ask(freshness: Freshness, terminal: bool) -> bool {
    freshness == Freshness::Ask && terminal
}

/// Whether the policy asks at all.
pub fn asks(freshness: Freshness, terminal: bool) -> (r: bool)
    ensures
        r == to_ask(freshness, terminal),
{
    match freshness {
        Freshness::Ask => terminal,
        _ => false,
    }
}

/// What the policy asks for.
pub open spec fn decided(freshness: Freshness, terminal: bool, answer: Result<bool, Seq<char>>) -> Result<
    DriftedView,
    Seq<char>,
> {
    match freshness {
        Freshness::Reuse => Ok(DriftedView::Reuse("freshness = reuse"@)),
        Freshness::RequireCurrent => Ok(DriftedView::Refuse),
        Freshness::Refresh => Ok(DriftedView::Restart),
        Freshness::Ask => if !terminal {
            Ok(DriftedView::Reuse("no terminal to ask on"@))
        } else {
            match answer {
                Ok(true) => Ok(DriftedView::Restart),
                Ok(false) => Ok(DriftedView::Reuse("not rebuilding"@)),
                Err(e) => Err(e),
            }
        },
    }
}

/// Which of those the freshness policy asks for. The answer counts only under `ask`, and only
/// where there is a terminal to ask on.
pub fn decide(freshness: Freshness, terminal: bool, answer: Result<bool, Error>) -> (r: Result<Drifted, Error>)
    ensures
        outcome(r) == decided(freshness, terminal, outcome(answer)),
{
    match freshness {
        Freshness::Reuse => Ok(Drifted::Reuse("freshness = reuse")),
        Freshness::RequireCurrent => Ok(Drifted::Refuse),
        Freshness::Refresh => Ok(Drifted::Restart),
        Freshness::Ask => if !terminal {
            Ok(Drifted::Reuse("no terminal to ask on"))
        } else {
            match answer {
                Ok(true) => Ok(Drifted::Restart),
                Ok(false) => Ok(Drifted::Reuse("not rebuilding")),
                Err(e) => Err(e),
            }
        },
    }
}

/// What a boot finds on this host.
#[derive(Debug)]
pub struct Found {
    /// what the running environment recorded; none where none is running
    pub live: Option<Identity>,
    /// the running image's sources have changed since it was built
    pub stale: bool,
    /// who holds the state directory's lock
    pub holder: Option<String>,
    /// there is a terminal to ask on
    pub terminal: bool,
    /// the digest of the wrapper that was put into the state directory
    pub wrapper: Option<String>,
    /// this `vk`'s release
    pub release: String,
}

pub struct FoundView {
    pub live: Option<IdentityView>,
    pub stale: bool,
    pub holder: Option<Seq<char>>,
    pub terminal: bool,
    pub wrapper: Option<Seq<char>>,
    pub release: Seq<char>,
}

impl DeepView for Found {
    type V = FoundView;

    open spec fn deep_view(&self) -> FoundView {
        FoundView {
            live: self.live.deep_view(),
            stale: self.stale,
            holder: self.holder.deep_view(),
            terminal: self.terminal,
            wrapper: self.wrapper.deep_view(),
            release: self.release@,
        }
    }
}

/// What the caller of a boot wants.
#[derive(Debug, Clone, Copy)]
pub struct Wanted {
    /// replace what is running, whatever it runs from
    pub refresh: bool,
    /// wait for a boot that is in flight
    pub wait: bool,
    /// say that a running environment is reused
    pub announce: bool,
    /// the freshness policy: the command's, else the plan's
    pub freshness: Freshness,
}

/// What a boot does.
#[derive(Debug)]
pub enum BootStep {
    /// attach to what is running
    Reuse,
    /// ask whether to rebuild and restart it, and come back with the answer
    Ask,
    /// build, stop what is running, and go on as [`after_swap`] says
    Swap,
    /// wait for the boot that is in flight
    Join,
    /// boot
    Boot,
    Refuse(Error),
}

pub enum BootStepView {
    Reuse,
    Ask,
    Swap,
    Join,
    Boot,
    Refuse(Seq<char>),
}

impl DeepView for BootStep {
    type V = BootStepView;

    open spec fn deep_view(&self) -> BootStepView {
        match *self {
            BootStep::Reuse => BootStepView::Reuse,
            BootStep::Ask => BootStepView::Ask,
            BootStep::Swap => BootStepView::Swap,
            BootStep::Join => BootStepView::Join,
            BootStep::Boot => BootStepView::Boot,
            BootStep::Refuse(e) => BootStepView::Refuse(e.deep_view()),
        }
    }
}

/// The text of a note, where there is one.
pub open spec fn noted(note: Option<Seq<char>>) -> Seq<Seq<char>> {
    match note {
        Some(n) => seq![n],
        None => Seq::empty(),
    }
}

/// What is said of a running environment that is reused.
pub open spec fn reuse_notes(
    state_dir: Seq<u8>,
    created_by: Seq<char>,
    release: Seq<char>,
    session_only: bool,
    stale: bool,
) -> Seq<Seq<char>> {
    seq!["virtkit: dev environment already running ("@ + lossy_text(state_dir) + ")"@] + (if session_only {
        seq![
            "virtkit: its config changed only in what attaching applies (exec-env, editor, endpoints, tasks) — no restart needed"@,
        ]
    } else {
        Seq::empty()
    }) + noted(creator_note(created_by, release)) + (if stale {
        seq![
            "virtkit: its image no longer matches the sources — `vk dev refresh` rebuilds and restarts it"@,
        ]
    } else {
        Seq::empty()
    })
}

/// What is said of the two configurations.
pub open spec fn drift_summary(booted: Seq<char>, now: Seq<char>) -> Seq<char> {
    "the running environment was booted from a different configuration (booted "@ + first_chars(booted, 12) + ", now "@
        + first_chars(now, 12) + ")"@
}

/// What a boot does about a running environment whose configuration differs.
pub open spec fn drift_step(
    live: IdentityView,
    release: Seq<char>,
    digest: Seq<char>,
    freshness: Freshness,
    terminal: bool,
    answer: Option<Result<bool, Seq<char>>>,
) -> (BootStepView, Seq<Seq<char>>) {
    let summary = drift_summary(live.digest, digest);
    if to_ask(freshness, terminal) && answer is None {
        (BootStepView::Ask, Seq::empty())
    } else {
        match decided(
            freshness,
            terminal,
            match answer {
                Some(a) => a,
                None => Ok(false),
            },
        ) {
            Err(e) => (BootStepView::Refuse(e), Seq::empty()),
            Ok(DriftedView::Reuse(why)) => (
                BootStepView::Reuse,
                seq![
                    "virtkit: "@ + summary + "; "@ + why
                        + " — attaching to it as recorded, `vk dev refresh` applies the config"@,
                ] + noted(creator_note(live.created_by, release)),
            ),
            Ok(DriftedView::Refuse) => (
                BootStepView::Refuse(
                    summary
                        + " — `vk dev refresh` reboots it into this one, `vk dev stop` ends it, or `--freshness reuse` attaches to it as it is"@,
                ),
                Seq::empty(),
            ),
            Ok(DriftedView::Restart) => (BootStepView::Swap, Seq::empty()),
        }
    }
}

/// What a boot does, and what it says, once the host hooks have run.
pub open spec fn boot_next(
    p: PlanView,
    found: FoundView,
    wanted: Wanted,
    answer: Option<Result<bool, Seq<char>>>,
) -> (BootStepView, Seq<Seq<char>>) {
    if !plan_paths_text(p) {
        (BootStepView::Refuse("serializing the plan"@ + ": "@ + path_error()), Seq::empty())
    } else {
        let manifest = manifest_of(p, found.wrapper);
        let digest = manifest_digest(manifest);
        match found.live {
            Some(live) => {
                let differs = live.digest != digest;
                let session_only = differs && attachable(drifted(live.manifest, manifest));
                if (!differs || session_only) && !wanted.refresh {
                    (
                        BootStepView::Reuse,
                        if wanted.announce {
                            reuse_notes(p.state_dir, live.created_by, found.release, session_only, found.stale)
                        } else {
                            Seq::empty()
                        },
                    )
                } else if differs && !wanted.refresh {
                    drift_step(live, found.release, digest, wanted.freshness, found.terminal, answer)
                } else {
                    (BootStepView::Swap, Seq::empty())
                }
            },
            None => match found.holder {
                Some(holder) => if !wanted.wait {
                    (
                        BootStepView::Refuse(
                            "another boot of this environment is already in flight ("@ + holder
                                + "); its output goes to the terminal that started it — wait for that one, or re-run without --no-wait"@,
                        ),
                        Seq::empty(),
                    )
                } else {
                    (BootStepView::Join, Seq::empty())
                },
                None => (BootStepView::Boot, Seq::empty()),
            },
        }
    }
}

fn note_creator(notes: &mut Vec<String>, created_by: &str, release: &str)
    ensures
        final(notes).deep_view() == old(notes).deep_view() + noted(creator_note(created_by@, release@)),
{
    let ghost had = notes.deep_view();
    match note_older_creator(created_by, release) {
        Some(n) => put(notes, n),
        None => {},
    }
    assert(notes.deep_view() =~= had + noted(creator_note(created_by@, release@)));
}

fn say_reuse(state_dir: &HostPath, created_by: &str, release: &str, session_only: bool, stale: bool) -> (r: Vec<String>)
    ensures
        r.deep_view() == reuse_notes(state_dir.deep_view(), created_by@, release@, session_only, stale),
{
    let mut notes: Vec<String> = Vec::new();
    put(
        &mut notes,
        cat3("virtkit: dev environment already running (", state_dir.display().as_str(), ")"),
    );
    if session_only {
        put(
            &mut notes,
            "virtkit: its config changed only in what attaching applies (exec-env, editor, endpoints, tasks) — no restart needed".to_owned(),
        );
    }
    note_creator(&mut notes, created_by, release);
    if stale {
        put(
            &mut notes,
            "virtkit: its image no longer matches the sources — `vk dev refresh` rebuilds and restarts it".to_owned(),
        );
    }
    assert(notes.deep_view() =~= reuse_notes(state_dir.deep_view(), created_by@, release@, session_only, stale));
    notes
}

/// What the answer to a question was, if it was put.
pub open spec fn answer_given(answer: Option<Result<bool, Error>>) -> Option<Result<bool, Seq<char>>> {
    match answer {
        Some(a) => Some(outcome(a)),
        None => None,
    }
}

fn drift_next(
    live: &Identity,
    release: &str,
    digest: &str,
    freshness: Freshness,
    terminal: bool,
    answer: Option<Result<bool, Error>>,
) -> (r: (BootStep, Vec<String>))
    ensures
        (r.0.deep_view(), r.1.deep_view()) == drift_step(
            live.deep_view(),
            release@,
            digest@,
            freshness,
            terminal,
            answer_given(answer),
        ),
{
    let no_notes: Vec<String> = Vec::new();
    assert(no_notes.deep_view() =~= Seq::empty());
    if asks(freshness, terminal) && answer.is_none() {
        return (BootStep::Ask, no_notes);
    }
    let was = short(live.digest.as_str());
    let is = short(digest);
    let summary = cat5(
        "the running environment was booted from a different configuration (booted ",
        was.as_str(),
        ", now ",
        is.as_str(),
        ")",
    );
    let given = match answer {
        Some(a) => a,
        None => Ok(false),
    };
    match decide(freshness, terminal, given) {
        Err(e) => (BootStep::Refuse(e), no_notes),
        Ok(Drifted::Reuse(why)) => {
            let mut notes: Vec<String> = Vec::new();
            put(
                &mut notes,
                cat5(
                    "virtkit: ",
                    summary.as_str(),
                    "; ",
                    why,
                    " — attaching to it as recorded, `vk dev refresh` applies the config",
                ),
            );
            let ghost first = notes.deep_view();
            note_creator(&mut notes, live.created_by.as_str(), release);
            assert(first =~= seq![first[0]]);
            (BootStep::Reuse, notes)
        },
        Ok(Drifted::Refuse) => (
            BootStep::Refuse(
                error(
                    cat2(
                        summary.as_str(),
                        " — `vk dev refresh` reboots it into this one, `vk dev stop` ends it, or `--freshness reuse` attaches to it as it is",
                    ),
                ),
            ),
            no_notes,
        ),
        Ok(Drifted::Restart) => (BootStep::Swap, no_notes),
    }
}

/// What a boot does, and what it says, once the host hooks have run. A change that the running
/// VM never sees is applied by attaching, not by a restart, so it is no reason to offer one.
/// `answer` is what was said to a question this function asked for.
pub fn boot(plan: &Plan, found: &Found, wanted: Wanted, answer: Option<Result<bool, Error>>) -> (r: (
    BootStep,
    Vec<String>,
))
    ensures
        (r.0.deep_view(), r.1.deep_view()) == boot_next(
            plan.deep_view(),
            found.deep_view(),
            wanted,
            answer_given(answer),
        ),
{
    let no_notes: Vec<String> = Vec::new();
    assert(no_notes.deep_view() =~= Seq::empty());
    let (digest, manifest) = match identity_of(plan, &found.wrapper) {
        Ok(x) => x,
        Err(e) => {
            return (BootStep::Refuse(e), no_notes);
        },
    };
    match &found.live {
        Some(live) => {
            let differs = !same(live.digest.as_str(), digest.as_str());
            let session_only = differs && applied_on_attach(&drift(&live.manifest, &manifest));
            if (!differs || session_only) && !wanted.refresh {
                let notes = if wanted.announce {
                    say_reuse(
                        &plan.state_dir,
                        live.created_by.as_str(),
                        found.release.as_str(),
                        session_only,
                        found.stale,
                    )
                } else {
                    no_notes
                };
                (BootStep::Reuse, notes)
            } else if differs && !wanted.refresh {
                drift_next(live, found.release.as_str(), digest.as_str(), wanted.freshness, found.terminal, answer)
            } else {
                (BootStep::Swap, no_notes)
            }
        },
        None => match &found.holder {
            Some(holder) => if !wanted.wait {
                (
                    BootStep::Refuse(
                        error(
                            cat3(
                                "another boot of this environment is already in flight (",
                                holder.as_str(),
                                "); its output goes to the terminal that started it — wait for that one, or re-run without --no-wait",
                            ),
                        ),
                    ),
                    no_notes,
                )
            } else {
                (BootStep::Join, no_notes)
            },
            None => (BootStep::Boot, no_notes),
        },
    }
}

/// What is left to do once the environment was stopped to be replaced.
#[derive(Debug, Clone, Copy, PartialEq, Eq, Structural)]
pub enum Swapped {
    /// another boot took over: wait for it
    Join,
    Boot,
}

/// What matters is the state now, not whether this stop found something to do: another refresh
/// may have swapped the environment while this one was building.
pub fn after_swap(running: bool, holder: &Option<String>, wait: bool) -> (r: Result<Swapped, Error>)
    ensures
        if running {
            r matches Err(e) && e.deep_view() == "the dev environment did not stop; not booting a new one"@
        } else {
            match holder.deep_view() {
                None => r matches Ok(s) && s == Swapped::Boot,
                Some(h) => if wait {
                    r matches Ok(s) && s == Swapped::Join
                } else {
                    r matches Err(e) && e.deep_view() == "another boot of this environment ("@ + h
                        + ") took over while this one was rebuilding — wait for that one, or re-run without --no-wait"@
                },
            }
        },
{
    if running {
        return Err(error("the dev environment did not stop; not booting a new one".to_owned()));
    }
    match holder {
        None => Ok(Swapped::Boot),
        Some(h) => if wait {
            Ok(Swapped::Join)
        } else {
            Err(
                error(
                    cat3(
                        "another boot of this environment (",
                        h.as_str(),
                        ") took over while this one was rebuilding — wait for that one, or re-run without --no-wait",
                    ),
                ),
            )
        },
    }
}

/// What a wait for a boot in flight found.
#[derive(Debug, Clone, Copy)]
pub struct InFlight {
    /// its VM is up
    pub up: bool,
    /// it recorded what it booted
    pub recorded: bool,
    /// somebody holds the lock
    pub held: bool,
    /// how long its VM has been seen up, in seconds
    pub up_secs: u64,
}

/// Whether to go on waiting for the boot that someone else started. It is over once its VM is up
/// and what it booted is recorded: waiting for the VM alone would set two writers on the same
/// endpoints at the same time.
pub fn wait_step(f: InFlight) -> (r: Result<bool, Error>)
    ensures
        if f.up && f.recorded {
            r matches Ok(more) && !more
        } else if !f.held {
            r matches Err(e) && e.deep_view()
                == "the boot that was in flight ended without leaving a running environment"@
        } else if f.up && f.up_secs >= READY_WAIT_SECS {
            r matches Err(e) && e.deep_view()
                == "the boot that was in flight brought the environment up but never recorded it as ready — `vk dev status` says where it stands"@
        } else {
            r matches Ok(more) && more
        },
{
    if f.up && f.recorded {
        Ok(false)
    } else if !f.held {
        Err(
            error(
                "the boot that was in flight ended without leaving a running environment".to_owned(),
            ),
        )
    } else if f.up && f.up_secs >= READY_WAIT_SECS {
        Err(
            error(
                "the boot that was in flight brought the environment up but never recorded it as ready — `vk dev status` says where it stands".to_owned(),
            ),
        )
    } else {
        Ok(true)
    }
}

/// Whether a build has anything to build: a primary that boots a prebuilt image has not, and then
/// this is what is said. Fails where the config refers to host variables there are not.
pub fn build(plan: &Plan, service: &Option<String>) -> (r: Result<Option<String>, Error>)
    ensures
        match unresolved_error(plan.deep_view().unresolved) {
            Some(e) => outcome(r) == Err::<Option<Seq<char>>, Seq<char>>(e),
            None => outcome(r) == Ok::<Option<Seq<char>>, Seq<char>>(
                match plan.deep_view().source {
                    SourceView::Image { reference } => if service.deep_view() is None {
                        Some("virtkit: nothing to build — the environment boots "@ + reference)
                    } else {
                        None
                    },
                    _ => None,
                },
            ),
        },
{
    let _ = plan.require_resolved()?;
    match &plan.source {
        Source::Image { reference } => if service.is_none() {
            Ok(Some(cat2("virtkit: nothing to build — the environment boots ", reference.as_str())))
        } else {
            Ok(None)
        },
        _ => Ok(None),
    }
}

/// An environment that matches its config, or differs only in what attaching applies, is
/// reused and never restarted without a refresh, whatever the policy.
pub proof fn law_matching_is_reused(
    p: PlanView,
    found: FoundView,
    wanted: Wanted,
    answer: Option<Result<bool, Seq<char>>>,
)
    requires
        plan_paths_text(p),
        found.live is Some,
        !wanted.refresh,
        found.live->0.digest == manifest_digest(manifest_of(p, found.wrapper)) || attachable(
            drifted(found.live->0.manifest, manifest_of(p, found.wrapper)),
        ),
    ensures
        boot_next(p, found, wanted, answer).0 == BootStepView::Reuse,
{
}

/// A refresh replaces what is running and never attaches to it.
pub proof fn law_refresh_replaces(
    p: PlanView,
    found: FoundView,
    wanted: Wanted,
    answer: Option<Result<bool, Seq<char>>>,
)
    requires
        plan_paths_text(p),
        found.live is Some,
        wanted.refresh,
    ensures
        boot_next(p, found, wanted, answer).0 == BootStepView::Swap,
{
}

/// Nothing that is running is stopped without a refresh, the policy `refresh`, or somebody's yes.
pub proof fn law_swap_was_asked_for(
    p: PlanView,
    found: FoundView,
    wanted: Wanted,
    answer: Option<Result<bool, Seq<char>>>,
)
    requires
        boot_next(p, found, wanted, answer).0 == BootStepView::Swap,
    ensures
        wanted.refresh || wanted.freshness == Freshness::Refresh || (wanted.freshness == Freshness::Ask
            && found.terminal && answer == Some(Ok::<bool, Seq<char>>(true))),
{
}

} // verus!
