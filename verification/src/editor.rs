//! The VS Code adapter for `vk dev code`: which editor, which server in the guest, and the
//! reconciliation that brings that server to what `[dev.editor.vscode]` describes.
//!
//! Remote-SSH installs its server into the guest home after the connection is up, so the work
//! is a separate operation, started behind the editor and joined by later attachments. Every
//! guest step is a command whose exit status is the answer. Running them is the caller's: here
//! is what to run, in what order, and what the answers come to.

use crate::digest::{sha256_hex, sha256_text};
use crate::entries::{entry, get};
use crate::path::{append_bytes, joined_path, lossy_text, name_of, parent_of, HostPath};
use crate::plan::{lemma_group, Plan, VsCodePlan, VsCodeView};
use crate::planjson::{lemma_opt_hook_sound, lemma_texts_sound, opt_hook_json, opt_hook_sound, opt_hook_value, texts_json, texts_value};
use crate::text::{
    cat2, cat3, cat4, cat5, cat6, cat7, chars_of, copy_list, cut, cut_at, debug_text, decimal, ends, ends_with, error,
    first_chars, has_char, is_digit, is_one_of, join, joined, lines, lines_of, outcome, put, quoted, same, shorten,
    text_between, to_decimal, trim, trimmed, within, Error,
};
use crate::value::{group_json, json_shown, json_sorted, json_text, sort_json, Json, JsonTree};
use vstd::prelude::*;
use vstd::utf8::{decode_utf8, encode_utf8, is_char_boundary};

verus! {

broadcast use {group_json, lemma_group};

/// How long a reconciliation waits for the server to be installed, in seconds.
pub const SERVER_WAIT_SECS: u64 = 900;

/// How much of a log is printed: it is the end that says how it went.
pub const LOG_TAIL_BYTES: usize = 65536;

/// A release channel, which fixes where the server keeps itself in the guest home.
#[derive(Debug, Clone, Copy, PartialEq, Eq, Structural)]
pub enum Channel {
    Stable,
    Insiders,
    Codium,
    Oss,
}

/// The channel a binary name stands for.
pub open spec fn channel_of(name: Seq<char>) -> Channel {
    if name == "code-insiders"@ {
        Channel::Insiders
    } else if name == "codium"@ || name == "vscodium"@ {
        Channel::Codium
    } else if name == "code-oss"@ {
        Channel::Oss
    } else {
        Channel::Stable
    }
}

impl Channel {
    /// The channel a binary name stands for; one that is not known is the stable build.
    pub fn of(binary_name: &str) -> (r: Channel)
        ensures
            r == channel_of(binary_name@),
    {
        if same(binary_name, "code-insiders") {
            Channel::Insiders
        } else if same(binary_name, "codium") || same(binary_name, "vscodium") {
            Channel::Codium
        } else if same(binary_name, "code-oss") {
            Channel::Oss
        } else {
            Channel::Stable
        }
    }

    pub open spec fn directory(self) -> Seq<char> {
        match self {
            Channel::Stable => ".vscode-server"@,
            Channel::Insiders => ".vscode-server-insiders"@,
            Channel::Codium => ".vscodium-server"@,
            Channel::Oss => ".vscode-server-oss"@,
        }
    }

    /// The server data directory, relative to the guest home.
    pub fn data_dir(self) -> (r: &'static str)
        ensures
            r@ == self.directory(),
    {
        match self {
            Channel::Stable => ".vscode-server",
            Channel::Insiders => ".vscode-server-insiders",
            Channel::Codium => ".vscodium-server",
            Channel::Oss => ".vscode-server-oss",
        }
    }

    pub open spec fn said(self) -> Seq<char> {
        match self {
            Channel::Stable => "stable"@,
            Channel::Insiders => "insiders"@,
            Channel::Codium => "codium"@,
            Channel::Oss => "oss"@,
        }
    }

    pub fn label(self) -> (r: &'static str)
        ensures
            r@ == self.said(),
    {
        match self {
            Channel::Stable => "stable",
            Channel::Insiders => "insiders",
            Channel::Codium => "codium",
            Channel::Oss => "oss",
        }
    }

    pub open spec fn attaching(self) -> Seq<Seq<char>> {
        match self {
            Channel::Stable | Channel::Insiders => seq!["ms-vscode-remote.remote-ssh"@],
            Channel::Codium | Channel::Oss => seq!["jeanp413.open-remote-ssh"@, "ms-vscode-remote.remote-ssh"@],
        }
    }

    /// The host extensions that make Remote-SSH work for this channel. Finding the editor is not
    /// evidence that it can attach; one of these is.
    pub fn remote_extensions(self) -> (r: Vec<String>)
        ensures
            r.deep_view() == self.attaching(),
    {
        match self {
            Channel::Stable | Channel::Insiders => crate::draft::one("ms-vscode-remote.remote-ssh"),
            Channel::Codium | Channel::Oss => crate::draft::two(
                "jeanp413.open-remote-ssh",
                "ms-vscode-remote.remote-ssh",
            ),
        }
    }
}

/// A host editor, identified well enough to find its server in the guest.
#[derive(Debug)]
pub struct Editor {
    pub binary: HostPath,
    pub channel: Channel,
    pub version: String,
    /// the build commit, which names the server directory
    pub commit: String,
}

pub struct EditorView {
    pub binary: Seq<u8>,
    pub channel: Channel,
    pub version: Seq<char>,
    pub commit: Seq<char>,
}

impl DeepView for Editor {
    type V = EditorView;

    open spec fn deep_view(&self) -> EditorView {
        EditorView {
            binary: self.binary.deep_view(),
            channel: self.channel,
            version: self.version@,
            commit: self.commit@,
        }
    }
}

/// The editors looked for, in order, when none is named.
pub open spec fn editors() -> Seq<Seq<char>> {
    seq!["code"@, "code-insiders"@, "codium"@, "vscodium"@, "code-oss"@]
}

/// The editors `vk dev code` looks for, in order, when none is named.
pub fn known_editors() -> (r: Vec<String>)
    ensures
        r.deep_view() == editors(),
{
    let mut v: Vec<String> = Vec::new();
    put(&mut v, "code".to_owned());
    put(&mut v, "code-insiders".to_owned());
    put(&mut v, "codium".to_owned());
    put(&mut v, "vscodium".to_owned());
    put(&mut v, "code-oss".to_owned());
    assert(v.deep_view() =~= editors());
    v
}

/// The first of the names from `from` on that is on PATH.
pub open spec fn first_on_path(names: Seq<Seq<char>>, on_path: Seq<(Seq<char>, Seq<u8>)>, from: int) -> Option<
    Seq<u8>,
>
    decreases names.len() - from,
{
    if from < 0 || from >= names.len() {
        None
    } else {
        match entry(on_path, names[from]) {
            Some(p) => Some(p),
            None => first_on_path(names, on_path, from + 1),
        }
    }
}

/// The editor's binary, or why there is none.
pub open spec fn binary_of(name: Option<Seq<char>>, executable: bool, on_path: Seq<(Seq<char>, Seq<u8>)>) -> Result<
    Seq<u8>,
    Seq<char>,
> {
    match name {
        Some(n) => if n.contains('/') {
            if executable {
                Ok(encode_utf8(n))
            } else {
                Err(n + " is not an executable file"@)
            }
        } else {
            match entry(on_path, n) {
                Some(p) => Ok(p),
                None => Err(n + " is not on PATH"@),
            }
        },
        None => match first_on_path(editors(), on_path, 0) {
            Some(p) => Ok(p),
            None => Err("no VS Code on PATH (looked for "@ + joined(editors(), ", "@) + ") — pass --editor"@),
        },
    }
}

/// The binary of the editor: the one named, else the first of those known that is on PATH. A name
/// with a separator in it is the editor itself, which has to be `executable`; any other is looked
/// up among what was found `on_path`.
pub fn select_binary(name: &Option<String>, executable: bool, on_path: &Vec<(String, HostPath)>) -> (r: Result<
    HostPath,
    Error,
>)
    ensures
        outcome(r) == binary_of(name.deep_view(), executable, on_path.deep_view()),
{
    match name {
        Some(n) => if has_char(n.as_str(), '/') {
            if executable {
                Ok(HostPath::from_text(n.as_str()))
            } else {
                Err(error(cat2(n.as_str(), " is not an executable file")))
            }
        } else {
            match get(on_path, n.as_str()) {
                Some(p) => Ok(p.copy()),
                None => Err(error(cat2(n.as_str(), " is not on PATH"))),
            }
        },
        None => {
            let names = known_editors();
            let ghost ns = names.deep_view();
            let ghost at = on_path.deep_view();
            let mut i: usize = 0;
            while i < names.len()
                invariant
                    i <= names@.len(),
                    ns == names.deep_view(),
                    ns == editors(),
                    at == on_path.deep_view(),
                    name.deep_view() is None,
                    first_on_path(ns, at, i as int) == first_on_path(ns, at, 0),
                decreases names@.len() - i,
            {
                assert(ns[i as int] == names@[i as int]@);
                if let Some(p) = get(on_path, names[i].as_str()) {
                    return Ok(p.copy());
                }
                i = i + 1;
            }
            Err(
                error(
                    cat3(
                        "no VS Code on PATH (looked for ",
                        join(&names, ", ").as_str(),
                        ") — pass --editor",
                    ),
                ),
            )
        },
    }
}

/// The lines of a text that hold something, each without the white space around it.
pub open spec fn told_lines(v: Seq<Seq<char>>, n: int) -> Seq<Seq<char>>
    decreases n,
{
    if n <= 0 {
        Seq::empty()
    } else {
        let had = told_lines(v, n - 1);
        let l = trimmed(v[n - 1]);
        if l.len() == 0 {
            had
        } else {
            had.push(l)
        }
    }
}

/// A digit of a hexadecimal number.
pub open spec fn is_hex(c: char) -> bool {
    is_digit(c) || ('a' <= c && c <= 'f') || ('A' <= c && c <= 'F')
}

pub open spec fn is_commit(s: Seq<char>) -> bool {
    s.len() == 40 && forall|i: int| 0 <= i < s.len() ==> is_hex(#[trigger] s[i])
}

fn all_hex(s: &str) -> (r: bool)
    ensures
        r == is_commit(s@),
{
    let v = chars_of(s);
    if v.len() != 40 {
        return false;
    }
    let mut i: usize = 0;
    while i < v.len()
        invariant
            i <= v@.len(),
            v@ == s@,
            forall|j: int| 0 <= j < i ==> is_hex(#[trigger] s@[j]),
        decreases v@.len() - i,
    {
        let c = v[i];
        if !(('0' <= c && c <= '9') || ('a' <= c && c <= 'f') || ('A' <= c && c <= 'F')) {
            assert(!is_hex(s@[i as int]));
            return false;
        }
        i = i + 1;
    }
    true
}

/// The version and the commit an editor printed, or what is wrong with it.
pub open spec fn version_printed(text: Seq<char>) -> Result<(Seq<char>, Seq<char>), Seq<char>> {
    let l = told_lines(lines_of(text), lines_of(text).len() as int);
    if l.len() == 0 {
        Err("printed nothing"@)
    } else if l.len() == 1 {
        Err("printed no commit"@)
    } else if !is_commit(l[1]) {
        Err("expected a commit hash on the second line, got "@ + debug_text(l[1]))
    } else {
        Ok((l[0], l[1]))
    }
}

/// What `code --version` prints: the version, the commit and the architecture, one per line.
pub fn parse_version(text: &str) -> (r: Result<(String, String), Error>)
    ensures
        match r {
            Ok((v, c)) => version_printed(text@) == Ok::<(Seq<char>, Seq<char>), Seq<char>>((v@, c@)),
            Err(e) => version_printed(text@) == Err::<(Seq<char>, Seq<char>), Seq<char>>(e.deep_view()),
        },
{
    let all = lines(text);
    let ghost ls = all.deep_view();
    let mut told: Vec<String> = Vec::new();
    let mut i: usize = 0;
    assert(told.deep_view() =~= Seq::empty());
    while i < all.len()
        invariant
            i <= all@.len(),
            ls == all.deep_view(),
            told.deep_view() == told_lines(ls, i as int),
        decreases all@.len() - i,
    {
        assert(ls[i as int] == all@[i as int]@);
        let l = trim(all[i].as_str());
        if !l.as_str().is_empty() {
            put(&mut told, l);
        }
        i = i + 1;
    }
    let ghost t = told.deep_view();
    assert(told@.len() == t.len());
    if told.len() == 0 {
        return Err(error("printed nothing".to_owned()));
    }
    if told.len() == 1 {
        return Err(error("printed no commit".to_owned()));
    }
    assert(t[0] == told@[0]@ && t[1] == told@[1]@);
    if !all_hex(told[1].as_str()) {
        return Err(
            error(
                cat2("expected a commit hash on the second line, got ", quoted(told[1].as_str()).as_str()),
            ),
        );
    }
    Ok((told[0].clone(), told[1].clone()))
}

/// An ASCII capital as the small letter it is.
pub open spec fn small(c: char) -> char {
    if 'A' <= c && c <= 'Z' {
        ((c as u32 + 32) as u32) as char
    } else {
        c
    }
}

pub open spec fn lowered(s: Seq<char>) -> Seq<char> {
    Seq::new(s.len(), |i: int| small(s[i]))
}

fn lower(s: &str) -> (r: String)
    ensures
        r@ == lowered(s@),
{
    let v = chars_of(s);
    let mut out: Vec<char> = Vec::new();
    let mut i: usize = 0;
    while i < v.len()
        invariant
            i <= v@.len(),
            v@ == s@,
            out@ == lowered(s@).take(i as int),
        decreases v@.len() - i,
    {
        let c = v[i];
        if 'A' <= c && c <= 'Z' {
            let n: u8 = c as u8 + 32;
            out.push(n as char);
        } else {
            out.push(c);
        }
        assert(out@ =~= lowered(s@).take(i + 1));
        i = i + 1;
    }
    let r = crate::text::text_of(&out);
    assert(r@ =~= lowered(s@));
    r
}

/// One of the lines is an extension that lets the channel attach.
pub open spec fn attaches(listed: Seq<char>, channel: Channel) -> bool {
    exists|i: int|
        0 <= i < lines_of(listed).len() && channel.attaching().contains(
            lowered(trimmed(#[trigger] lines_of(listed)[i])),
        )
}

/// Whether what an editor lists of its extensions lets it attach.
pub fn has_remote_extension(listed: &str, channel: Channel) -> (r: bool)
    ensures
        r == attaches(listed@, channel),
{
    let known = channel.remote_extensions();
    let all = lines(listed);
    let ghost ls = all.deep_view();
    let mut i: usize = 0;
    while i < all.len()
        invariant
            i <= all@.len(),
            ls == all.deep_view(),
            known.deep_view() == channel.attaching(),
            ls == lines_of(listed@),
            forall|j: int| 0 <= j < i ==> !channel.attaching().contains(lowered(trimmed(#[trigger] ls[j]))),
        decreases all@.len() - i,
    {
        assert(ls[i as int] == all@[i as int]@);
        let l = lower(trim(all[i].as_str()).as_str());
        if is_one_of(l.as_str(), &known) {
            return true;
        }
        i = i + 1;
    }
    false
}

/// The last component of a path, as text.
pub open spec fn last_name(path: Seq<u8>) -> Seq<char> {
    match name_of(path) {
        Some(n) => lossy_text(n),
        None => ""@,
    }
}

pub fn base_name(path: &HostPath) -> (r: String)
    ensures
        r@ == last_name(path.deep_view()),
{
    match path.file_name() {
        Some(n) => crate::path::lossy(&n),
        None => "".to_owned(),
    }
}

/// The editor a binary is, by what it printed, or why it cannot be used.
pub open spec fn editor_of(binary: Seq<u8>, version: Seq<char>, listed: Seq<char>) -> Result<EditorView, Seq<char>> {
    let channel = channel_of(last_name(binary));
    match version_printed(version) {
        Err(e) => Err(lossy_text(binary) + " --version"@ + ": "@ + e),
        Ok((v, commit)) => if attaches(listed, channel) {
            Ok(EditorView { binary, channel, version: v, commit })
        } else {
            Err(
                lossy_text(binary) + " ("@ + v + ") has no Remote-SSH extension ("@ + joined(
                    channel.attaching(),
                    " or "@,
                )
                    + "), so it cannot attach to the environment — install one, or name another editor with --editor"@,
            )
        },
    }
}

/// The editor a binary is: its version and commit as `--version` printed them, its ability to
/// attach as `--list-extensions` did, and its channel always by the resolved binary's own name,
/// never by what a caller typed.
pub fn select(binary: HostPath, version: &str, listed: &str) -> (r: Result<Editor, Error>)
    ensures
        outcome(r) == editor_of(binary.deep_view(), version@, listed@),
{
    let channel = Channel::of(base_name(&binary).as_str());
    let at = binary.display();
    let (v, commit) = match parse_version(version) {
        Ok(x) => x,
        Err(e) => {
            return Err(within(cat2(at.as_str(), " --version").as_str(), e));
        },
    };
    if !has_remote_extension(listed, channel) {
        let wanted = join(&channel.remote_extensions(), " or ");
        return Err(
            error(
                cat6(
                    at.as_str(),
                    " (",
                    v.as_str(),
                    ") has no Remote-SSH extension (",
                    wanted.as_str(),
                    "), so it cannot attach to the environment — install one, or name another editor with --editor",
                ),
            ),
        );
    }
    Ok(Editor { binary, channel, version: v, commit })
}

/// Where a reconciliation keeps its files.
pub open spec fn editor_dir_of(state_dir: Seq<u8>) -> Seq<u8> {
    joined_path(state_dir, encode_utf8("editor"@))
}

pub fn editor_dir(plan: &Plan) -> (r: HostPath)
    ensures
        r.deep_view() == editor_dir_of(plan.deep_view().state_dir),
{
    plan.state_dir.join_text("editor")
}

/// The lock a running reconciliation holds.
pub fn lock_path(plan: &Plan) -> (r: HostPath)
    ensures
        r.deep_view() == joined_path(editor_dir_of(plan.deep_view().state_dir), encode_utf8("lock"@)),
{
    editor_dir(plan).join_text("lock")
}

/// What names the server an editor uses.
pub open spec fn slug_of(e: EditorView) -> Seq<char> {
    e.channel.said() + "-"@ + e.commit
}

fn slug(e: &Editor) -> (r: String)
    ensures
        r@ == slug_of(e.deep_view()),
{
    cat3(e.channel.label(), "-", e.commit.as_str())
}

pub fn log_path(plan: &Plan, editor: &Editor) -> (r: HostPath)
    ensures
        r.deep_view() == joined_path(
            editor_dir_of(plan.deep_view().state_dir),
            encode_utf8(slug_of(editor.deep_view()) + ".log"@),
        ),
{
    editor_dir(plan).join_text(cat2(slug(editor).as_str(), ".log").as_str())
}

pub fn stamp_path(plan: &Plan, editor: &Editor) -> (r: HostPath)
    ensures
        r.deep_view() == joined_path(
            editor_dir_of(plan.deep_view().state_dir),
            encode_utf8(slug_of(editor.deep_view()) + ".done"@),
        ),
{
    editor_dir(plan).join_text(cat2(slug(editor).as_str(), ".done").as_str())
}

/// What a reconciliation applies, part behind part: the server it is applied to, the extensions,
/// the settings, and the project's command.
pub open spec fn applied_bytes(vs: VsCodeView, e: EditorView) -> Seq<u8> {
    encode_utf8(e.channel.said()) + seq![0u8] + encode_utf8(e.commit) + seq![0u8] + encode_utf8(
        json_shown(texts_json(vs.extensions)),
    ) + seq![0u8] + encode_utf8(json_shown(json_sorted(vs.settings))) + seq![0u8] + encode_utf8(
        json_shown(opt_hook_json(vs.reconcile)),
    )
}

/// The digest of what a reconciliation applies.
pub open spec fn applied_digest(vs: VsCodeView, e: EditorView) -> Seq<char> {
    sha256_text(applied_bytes(vs, e))
}

fn add_part(out: &mut Vec<u8>, text: &str)
    ensures
        final(out)@ == old(out)@ + seq![0u8] + encode_utf8(text@),
{
    out.push(0);
    let part = HostPath::from_text(text);
    append_bytes(out, &part.bytes);
    assert(out@ =~= old(out)@ + seq![0u8] + encode_utf8(text@));
}

/// What a reconciliation applies, digested: a changed digest is work to redo.
pub fn digest(vs: &VsCodePlan, editor: &Editor) -> (r: String)
    requires
        opt_hook_sound(vs.deep_view().reconcile),
    ensures
        r@ == applied_digest(vs.deep_view(), editor.deep_view()),
        r@.len() == 64,
{
    let ghost v = vs.deep_view();
    proof {
        lemma_texts_sound(v.extensions);
        lemma_opt_hook_sound(v.reconcile);
    }
    let first = HostPath::from_text(editor.channel.label());
    let mut bytes: Vec<u8> = first.bytes;
    add_part(&mut bytes, editor.commit.as_str());
    add_part(&mut bytes, json_text(&texts_value(&vs.extensions)).as_str());
    add_part(&mut bytes, json_text(&sort_json(&vs.settings)).as_str());
    add_part(&mut bytes, json_text(&opt_hook_value(&vs.reconcile)).as_str());
    assert(bytes@ =~= applied_bytes(v, editor.deep_view()));
    sha256_hex(bytes.as_slice())
}

/// What `vk dev code` does about the reconciliation.
#[derive(Debug)]
pub enum Started {
    /// a detached one is to be started, logging to this file
    Spawned { log: HostPath },
    /// one is already running
    Joined { holder: String },
    /// the config describes no editor state to reconcile
    Nothing,
}

pub enum StartedView {
    Spawned { log: Seq<u8> },
    Joined { holder: Seq<char> },
    Nothing,
}

impl DeepView for Started {
    type V = StartedView;

    open spec fn deep_view(&self) -> StartedView {
        match *self {
            Started::Spawned { log } => StartedView::Spawned { log: log.deep_view() },
            Started::Joined { holder } => StartedView::Joined { holder: holder@ },
            Started::Nothing => StartedView::Nothing,
        }
    }
}

/// Whether to start a reconciliation for the editor or to join the one whose lock somebody holds.
pub fn spawn(plan: &Plan, editor: &Editor, holder: &Option<String>) -> (r: Started)
    ensures
        r.deep_view() == if plan.deep_view().vscode is None {
            StartedView::Nothing
        } else {
            match holder.deep_view() {
                Some(h) => StartedView::Joined { holder: h },
                None => StartedView::Spawned {
                    log: joined_path(
                        editor_dir_of(plan.deep_view().state_dir),
                        encode_utf8(slug_of(editor.deep_view()) + ".log"@),
                    ),
                },
            }
        },
{
    if plan.vscode.is_none() {
        return Started::Nothing;
    }
    match holder {
        Some(h) => Started::Joined { holder: h.clone() },
        None => Started::Spawned { log: log_path(plan, editor) },
    }
}

/// How many settings an editor plan has.
pub open spec fn settings_count(v: JsonTree) -> nat {
    match v {
        JsonTree::Object(o) => o.len(),
        _ => 0,
    }
}

fn count_settings(v: &Json) -> (r: usize)
    ensures
        r == settings_count(v.deep_view()),
{
    match v {
        Json::Object(o) => o.len(),
        _ => 0,
    }
}

/// What a reconciliation works from.
#[derive(Debug)]
pub struct Began {
    /// the digest of what is to be applied
    pub want: String,
    /// where the server keeps its data, in the guest
    pub data: String,
    /// what is said at the start
    pub headline: String,
}

pub struct BeganView {
    pub want: Seq<char>,
    pub data: Seq<char>,
    pub headline: Seq<char>,
}

impl DeepView for Began {
    type V = BeganView;

    open spec fn deep_view(&self) -> BeganView {
        BeganView { want: self.want@, data: self.data@, headline: self.headline@ }
    }
}

/// Where the server of an editor keeps its data.
pub open spec fn data_of(vs: VsCodeView, e: EditorView) -> Seq<char> {
    vs.home + "/"@ + e.channel.directory()
}

/// What a reconciliation works from.
pub open spec fn begun(vs: VsCodeView, e: EditorView) -> BeganView {
    BeganView {
        want: applied_digest(vs, e),
        data: data_of(vs, e),
        headline: "virtkit: editor: "@ + e.channel.said() + " "@ + e.version + " ("@ + first_chars(e.commit, 12)
            + "), server data "@ + data_of(vs, e) + ", "@ + decimal(vs.extensions.len()) + " extension(s), "@ + decimal(
            settings_count(vs.settings),
        ) + " setting(s)"@ + (if vs.reconcile is Some {
            ", a reconcile command"@
        } else {
            ""@
        }),
    }
}

/// The beginning of a reconciliation.
pub fn begin(vs: &VsCodePlan, editor: &Editor) -> (r: Began)
    requires
        opt_hook_sound(vs.deep_view().reconcile),
    ensures
        r.deep_view() == begun(vs.deep_view(), editor.deep_view()),
{
    let want = digest(vs, editor);
    let data = cat3(vs.home.as_str(), "/", editor.channel.data_dir());
    let commit = shorten(editor.commit.as_str(), 12);
    let n: usize = vs.extensions.len();
    let extensions = to_decimal(n as u64);
    let m: usize = count_settings(&vs.settings);
    let settings = to_decimal(m as u64);
    let command = if vs.reconcile.is_some() {
        ", a reconcile command"
    } else {
        ""
    };
    let head = cat7(
        "virtkit: editor: ",
        editor.channel.label(),
        " ",
        editor.version.as_str(),
        " (",
        commit.as_str(),
        "), server data ",
    );
    let tail = cat6(data.as_str(), ", ", extensions.as_str(), " extension(s), ", settings.as_str(), " setting(s)");
    let headline = cat3(head.as_str(), tail.as_str(), command);
    assert(vs.deep_view().extensions.len() == vs.extensions@.len());
    assert(headline@ =~= begun(vs.deep_view(), editor.deep_view()).headline);
    Began { want, data, headline }
}

/// Where a server may be: the current layout for each quality, then the legacy one.
pub open spec fn candidates(data: Seq<char>, commit: Seq<char>) -> Seq<Seq<char>> {
    seq![
        data + "/cli/servers/"@ + "Stable"@ + "-"@ + commit + "/server/bin/code-server"@,
        data + "/cli/servers/"@ + "Insiders"@ + "-"@ + commit + "/server/bin/code-server"@,
        data + "/cli/servers/"@ + "Exploration"@ + "-"@ + commit + "/server/bin/code-server"@,
        data + "/bin/"@ + commit + "/bin/code-server"@,
    ]
}

/// Where a server of the commit may be: both layouts that Remote-SSH has used, for this commit
/// only.
pub fn server_candidates(data: &str, commit: &str) -> (r: Vec<String>)
    ensures
        r.deep_view() == candidates(data@, commit@),
{
    let mut out: Vec<String> = Vec::new();
    put(&mut out, cat6(data, "/cli/servers/", "Stable", "-", commit, "/server/bin/code-server"));
    put(&mut out, cat6(data, "/cli/servers/", "Insiders", "-", commit, "/server/bin/code-server"));
    put(&mut out, cat6(data, "/cli/servers/", "Exploration", "-", commit, "/server/bin/code-server"));
    put(&mut out, cat4(data, "/bin/", commit, "/bin/code-server"));
    assert(out.deep_view() =~= candidates(data@, commit@));
    out
}

/// The first candidate from `from` on that answered.
pub open spec fn answering(c: Seq<Seq<char>>, present: Seq<bool>, from: int) -> Option<Seq<char>>
    decreases c.len() - from,
{
    if from < 0 || from >= c.len() || from >= present.len() {
        None
    } else if present[from] {
        Some(c[from])
    } else {
        answering(c, present, from + 1)
    }
}

/// What a look for the server came to: the path of its CLI, none where to look again, or that it
/// was waited for long enough.
pub open spec fn server_found(
    data: Seq<char>,
    commit: Seq<char>,
    present: Seq<bool>,
    waited_secs: u64,
) -> Result<Option<Seq<char>>, Seq<char>> {
    match answering(candidates(data, commit), present, 0) {
        Some(cli) => Ok(Some(cli)),
        None => if waited_secs >= SERVER_WAIT_SECS {
            Err(
                "no server for commit "@ + first_chars(commit, 12) + " appeared under "@ + data + " within "@
                    + decimal(SERVER_WAIT_SECS as nat) + "s — is the editor connected to this environment?"@,
            )
        } else {
            Ok(None)
        },
    }
}

/// What a look for the server came to, given which of the candidates are there.
pub fn find_server(data: &str, commit: &str, present: &Vec<bool>, waited_secs: u64) -> (r: Result<
    Option<String>,
    Error,
>)
    ensures
        outcome(r) == server_found(data@, commit@, present@, waited_secs),
{
    let c = server_candidates(data, commit);
    let ghost cs = c.deep_view();
    let mut i: usize = 0;
    while i < c.len() && i < present.len()
        invariant
            i <= c@.len(),
            i <= present@.len(),
            cs == c.deep_view(),
            cs == candidates(data@, commit@),
            answering(cs, present@, i as int) == answering(cs, present@, 0),
        decreases c@.len() - i,
    {
        assert(cs[i as int] == c@[i as int]@);
        if present[i] {
            return Ok(Some(c[i].clone()));
        }
        i = i + 1;
    }
    if waited_secs >= SERVER_WAIT_SECS {
        let head = shorten(commit, 12);
        let secs = to_decimal(SERVER_WAIT_SECS);
        Err(
            error(
                cat7(
                    "no server for commit ",
                    head.as_str(),
                    " appeared under ",
                    data,
                    " within ",
                    secs.as_str(),
                    "s — is the editor connected to this environment?",
                ),
            ),
        )
    } else {
        Ok(None)
    }
}

/// The first `n` of the wanted extensions that are not there.
pub open spec fn absent(wanted: Seq<Seq<char>>, present: Seq<bool>, n: int) -> Seq<Seq<char>>
    decreases n,
{
    if n <= 0 {
        Seq::empty()
    } else {
        let had = absent(wanted, present, n - 1);
        if present[n - 1] {
            had
        } else {
            had.push(wanted[n - 1])
        }
    }
}

/// Which of the wanted extensions the server does not have. One question answers for all of them;
/// only a no costs a question for each to find out which: `present` is then one answer each, and
/// none where the first answer was yes.
pub fn missing_extensions(wanted: &Vec<String>, present: &Option<Vec<bool>>) -> (r: Vec<String>)
    requires
        present matches Some(p) ==> p@.len() == wanted@.len(),
    ensures
        r.deep_view() == match *present {
            None => Seq::empty(),
            Some(p) => absent(wanted.deep_view(), p@, wanted@.len() as int),
        },
{
    let mut out: Vec<String> = Vec::new();
    assert(out.deep_view() =~= Seq::empty());
    if let Some(p) = present {
        let mut i: usize = 0;
        while i < wanted.len()
            invariant
                i <= wanted@.len(),
                p@.len() == wanted@.len(),
                out.deep_view() == absent(wanted.deep_view(), p@, i as int),
            decreases wanted@.len() - i,
        {
            assert(wanted.deep_view()[i as int] == wanted@[i as int]@);
            if !p[i] {
                put(&mut out, wanted[i].clone());
            }
            i = i + 1;
        }
    }
    out
}

/// Nothing is left to do: the stamp is of what is wanted, and every extension is there.
pub fn is_current(stamp: &Option<String>, want: &str, missing: &Vec<String>) -> (r: bool)
    ensures
        r == (crate::hooks::is_stamped(stamp.deep_view(), want@) && missing.deep_view().len() == 0),
{
    crate::hooks::stamped(stamp, want) && missing.is_empty()
}

/// One thing a reconciliation does in the guest.
#[derive(Debug)]
pub enum Work {
    Install(String),
    Settings,
    Command,
}

pub enum WorkView {
    Install(Seq<char>),
    Settings,
    Command,
}

impl DeepView for Work {
    type V = WorkView;

    open spec fn deep_view(&self) -> WorkView {
        match *self {
            Work::Install(e) => WorkView::Install(e@),
            Work::Settings => WorkView::Settings,
            Work::Command => WorkView::Command,
        }
    }
}

/// How a failure of the work is named.
pub open spec fn work_named(w: WorkView) -> Seq<char> {
    match w {
        WorkView::Install(e) => e,
        WorkView::Settings => "settings"@,
        WorkView::Command => "reconcile"@,
    }
}

/// What a reconciliation does, in order: the extensions that are missing, then the settings, then
/// the project's own command.
pub open spec fn work_of(vs: VsCodeView, missing: Seq<Seq<char>>) -> Seq<WorkView> {
    Seq::new(missing.len(), |i: int| WorkView::Install(missing[i])) + (if settings_count(vs.settings) > 0 {
        seq![WorkView::Settings]
    } else {
        Seq::empty()
    }) + (if vs.reconcile is Some {
        seq![WorkView::Command]
    } else {
        Seq::empty()
    })
}

/// What a reconciliation does, in order. Each is attempted whatever the others came to.
pub fn work(vs: &VsCodePlan, missing: &Vec<String>) -> (r: Vec<Work>)
    ensures
        r.deep_view() == work_of(vs.deep_view(), missing.deep_view()),
{
    let ghost all = Seq::new(missing.deep_view().len(), |i: int| WorkView::Install(missing.deep_view()[i]));
    let mut out: Vec<Work> = Vec::new();
    let mut i: usize = 0;
    assert(out.deep_view() =~= all.take(0));
    while i < missing.len()
        invariant
            i <= missing@.len(),
            all == Seq::new(missing.deep_view().len(), |i: int| WorkView::Install(missing.deep_view()[i])),
            out.deep_view() == all.take(i as int),
        decreases missing@.len() - i,
    {
        assert(missing.deep_view()[i as int] == missing@[i as int]@);
        put(&mut out, Work::Install(missing[i].clone()));
        assert(out.deep_view() =~= all.take(i + 1));
        i = i + 1;
    }
    if count_settings(&vs.settings) > 0 {
        put(&mut out, Work::Settings);
    }
    if vs.reconcile.is_some() {
        put(&mut out, Work::Command);
    }
    assert(out.deep_view() =~= work_of(vs.deep_view(), missing.deep_view()));
    out
}

/// The names of the first `n` pieces of work that failed.
pub open spec fn failed_upto(work: Seq<WorkView>, failed: Seq<bool>, n: int) -> Seq<Seq<char>>
    decreases n,
{
    if n <= 0 {
        Seq::empty()
    } else {
        let had = failed_upto(work, failed, n - 1);
        if failed[n - 1] {
            had.push(work_named(work[n - 1]))
        } else {
            had
        }
    }
}

/// What is said of a reconciliation that did all it had to.
pub open spec fn reconciled_said(want: Seq<char>) -> Seq<char> {
    "virtkit: editor: reconciled ("@ + first_chars(want, 12) + ")"@
}

/// Whether a reconciliation is to be stamped, and then what is said; or what failed.
pub fn finish(work: &Vec<Work>, failed: &Vec<bool>, want: &str) -> (r: Result<String, Error>)
    requires
        failed@.len() == work@.len(),
    ensures
        ({
            let f = failed_upto(work.deep_view(), failed@, work@.len() as int);
            if f.len() == 0 {
                r matches Ok(t) && t@ == reconciled_said(want@)
            } else {
                r matches Err(e) && e.deep_view() == "editor reconciliation incomplete ("@ + joined(f, ", "@)
                    + "); the next `vk dev code` or `vk dev editor retry` tries again"@
            }
        }),
{
    let mut failures: Vec<String> = Vec::new();
    let mut i: usize = 0;
    assert(failures.deep_view() =~= Seq::empty());
    while i < work.len()
        invariant
            i <= work@.len(),
            failed@.len() == work@.len(),
            failures.deep_view() == failed_upto(work.deep_view(), failed@, i as int),
        decreases work@.len() - i,
    {
        assert(work.deep_view()[i as int] == work@[i as int].deep_view());
        if failed[i] {
            let name = match &work[i] {
                Work::Install(e) => e.clone(),
                Work::Settings => "settings".to_owned(),
                Work::Command => "reconcile".to_owned(),
            };
            put(&mut failures, name);
        }
        i = i + 1;
    }
    assert(failures.deep_view().len() == failures@.len());
    if failures.is_empty() {
        let head = shorten(want, 12);
        Ok(cat3("virtkit: editor: reconciled (", head.as_str(), ")"))
    } else {
        let list = join(&failures, ", ");
        Err(
            error(
                cat3(
                    "editor reconciliation incomplete (",
                    list.as_str(),
                    "); the next `vk dev code` or `vk dev editor retry` tries again",
                ),
            ),
        )
    }
}

/// How a reconciliation ended.
#[derive(Debug)]
pub enum Outcome {
    /// applied, and stamped
    Done,
    /// the stamp matched and every extension is present: nothing to do
    Current,
    /// another one holds the lock
    Joined { holder: String },
    /// the config describes no editor state
    Nothing,
}

pub enum OutcomeView {
    Done,
    Current,
    Joined { holder: Seq<char> },
    Nothing,
}

impl DeepView for Outcome {
    type V = OutcomeView;

    open spec fn deep_view(&self) -> OutcomeView {
        match *self {
            Outcome::Done => OutcomeView::Done,
            Outcome::Current => OutcomeView::Current,
            Outcome::Joined { holder } => OutcomeView::Joined { holder: holder@ },
            Outcome::Nothing => OutcomeView::Nothing,
        }
    }
}

/// How far a reconciliation has come: what is known of the lock, the server, its extensions, and
/// the work that was done.
#[derive(Debug)]
pub struct Progress {
    /// the lock is ours
    pub locked: bool,
    /// who holds it where it is not
    pub holder: Option<String>,
    /// which of the server candidates were there at the last look
    pub servers: Vec<bool>,
    /// how long they have been looked for, in seconds
    pub waited_secs: u64,
    /// the text of the completion stamp
    pub stamp: Option<String>,
    /// what the server answered of its extensions: none before it was asked, and else none where
    /// it has all of them, or one answer for each
    pub extensions: Option<Option<Vec<bool>>>,
    /// which pieces of the work failed, once it was done
    pub failed: Option<Vec<bool>>,
}

pub struct ProgressView {
    pub locked: bool,
    pub holder: Option<Seq<char>>,
    pub servers: Seq<bool>,
    pub waited_secs: u64,
    pub stamp: Option<Seq<char>>,
    pub extensions: Option<Option<Seq<bool>>>,
    pub failed: Option<Seq<bool>>,
}

impl DeepView for Progress {
    type V = ProgressView;

    open spec fn deep_view(&self) -> ProgressView {
        ProgressView {
            locked: self.locked,
            holder: self.holder.deep_view(),
            servers: self.servers@,
            waited_secs: self.waited_secs,
            stamp: self.stamp.deep_view(),
            extensions: match self.extensions {
                None => None,
                Some(None) => Some(None),
                Some(Some(v)) => Some(Some(v@)),
            },
            failed: match self.failed {
                None => None,
                Some(v) => Some(v@),
            },
        }
    }
}

/// What a reconciliation does next.
#[derive(Debug)]
pub enum ReconcileStep {
    End(Outcome),
    /// look for the server at these places, and again later
    Look(Vec<String>),
    /// ask this server CLI for its extensions
    AskExtensions(String),
    /// do this with this server CLI
    Apply(String, Vec<Work>),
    /// write the stamp, say this, and be done
    Stamp(String, String),
    Fail(Error),
}

pub enum ReconcileStepView {
    End(OutcomeView),
    Look(Seq<Seq<char>>),
    AskExtensions(Seq<char>),
    Apply(Seq<char>, Seq<WorkView>),
    Stamp(Seq<char>, Seq<char>),
    Fail(Seq<char>),
}

impl DeepView for ReconcileStep {
    type V = ReconcileStepView;

    open spec fn deep_view(&self) -> ReconcileStepView {
        match *self {
            ReconcileStep::End(o) => ReconcileStepView::End(o.deep_view()),
            ReconcileStep::Look(v) => ReconcileStepView::Look(v.deep_view()),
            ReconcileStep::AskExtensions(cli) => ReconcileStepView::AskExtensions(cli@),
            ReconcileStep::Apply(cli, w) => ReconcileStepView::Apply(cli@, w.deep_view()),
            ReconcileStep::Stamp(want, said) => ReconcileStepView::Stamp(want@, said@),
            ReconcileStep::Fail(e) => ReconcileStepView::Fail(e.deep_view()),
        }
    }
}

/// The extensions that are missing, by what the server answered.
pub open spec fn missing_of(vs: VsCodeView, answer: Option<Seq<bool>>) -> Seq<Seq<char>> {
    match answer {
        None => Seq::empty(),
        Some(p) => absent(vs.extensions, p, vs.extensions.len() as int),
    }
}

/// There is an answer for every extension, and an end for every piece of work.
pub open spec fn progress_fits(vs: VsCodeView, p: ProgressView) -> bool {
    &&& p.extensions matches Some(Some(a)) ==> a.len() == vs.extensions.len()
    &&& p.failed matches Some(f) ==> p.extensions is Some && f.len() == work_of(
        vs,
        missing_of(vs, p.extensions->0),
    ).len()
}

/// What a reconciliation that found its server does next.
pub open spec fn apply_next(vs: VsCodeView, want: Seq<char>, cli: Seq<char>, p: ProgressView) -> ReconcileStepView {
    match p.extensions {
        None => ReconcileStepView::AskExtensions(cli),
        Some(a) => {
            let missing = missing_of(vs, a);
            let todo = work_of(vs, missing);
            match p.failed {
                Some(f) => {
                    let names = failed_upto(todo, f, todo.len() as int);
                    if names.len() == 0 {
                        ReconcileStepView::Stamp(want, reconciled_said(want))
                    } else {
                        ReconcileStepView::Fail(
                            "editor reconciliation incomplete ("@ + joined(names, ", "@)
                                + "); the next `vk dev code` or `vk dev editor retry` tries again"@,
                        )
                    }
                },
                None => if crate::hooks::is_stamped(p.stamp, want) && missing.len() == 0 {
                    ReconcileStepView::End(OutcomeView::Current)
                } else {
                    ReconcileStepView::Apply(cli, todo)
                },
            }
        },
    }
}

/// What a reconciliation does next.
pub open spec fn reconcile_next(vs: Option<VsCodeView>, e: EditorView, p: ProgressView) -> ReconcileStepView {
    match vs {
        None => ReconcileStepView::End(OutcomeView::Nothing),
        Some(v) => if !p.locked {
            ReconcileStepView::End(
                OutcomeView::Joined {
                    holder: match p.holder {
                        Some(h) => h,
                        None => "unknown pid"@,
                    },
                },
            )
        } else {
            match server_found(data_of(v, e), e.commit, p.servers, p.waited_secs) {
                Err(why) => ReconcileStepView::Fail(why),
                Ok(None) => ReconcileStepView::Look(candidates(data_of(v, e), e.commit)),
                Ok(Some(cli)) => apply_next(v, applied_digest(v, e), cli, p),
            }
        },
    }
}

/// Bring the guest's server for an editor to what the config says: what to do next, given how far
/// it has come. A stamp is a claim; the extensions are the evidence.
pub fn reconcile(plan: &Plan, editor: &Editor, p: &Progress) -> (r: ReconcileStep)
    requires
        plan.deep_view().vscode matches Some(v) ==> opt_hook_sound(v.reconcile) && progress_fits(v, p.deep_view()),
    ensures
        r.deep_view() == reconcile_next(plan.deep_view().vscode, editor.deep_view(), p.deep_view()),
{
    let vs = match &plan.vscode {
        None => {
            return ReconcileStep::End(Outcome::Nothing);
        },
        Some(vs) => vs,
    };
    if !p.locked {
        let holder = match &p.holder {
            Some(h) => h.clone(),
            None => "unknown pid".to_owned(),
        };
        return ReconcileStep::End(Outcome::Joined { holder });
    }
    let began = begin(vs, editor);
    let cli = match find_server(began.data.as_str(), editor.commit.as_str(), &p.servers, p.waited_secs) {
        Err(e) => {
            return ReconcileStep::Fail(e);
        },
        Ok(None) => {
            return ReconcileStep::Look(server_candidates(began.data.as_str(), editor.commit.as_str()));
        },
        Ok(Some(cli)) => cli,
    };
    match &p.extensions {
        None => ReconcileStep::AskExtensions(cli),
        Some(a) => {
            let missing = missing_extensions(&vs.extensions, a);
            let todo = work(vs, &missing);
            match &p.failed {
                Some(f) => match finish(&todo, f, began.want.as_str()) {
                    Ok(said) => ReconcileStep::Stamp(began.want, said),
                    Err(e) => ReconcileStep::Fail(e),
                },
                None => if is_current(&p.stamp, began.want.as_str(), &missing) {
                    ReconcileStep::End(Outcome::Current)
                } else {
                    ReconcileStep::Apply(cli, todo)
                },
            }
        },
    }
}

/// A stamp is written only where every piece of the work succeeded, and trusted only where every
/// extension is there.
pub proof fn law_stamp_is_earned(vs: VsCodeView, e: EditorView, p: ProgressView)
    requires
        progress_fits(vs, p),
    ensures
        reconcile_next(Some(vs), e, p) is Stamp ==> p.failed is Some && forall|i: int|
            0 <= i < p.failed->0.len() ==> !#[trigger] p.failed->0[i],
        reconcile_next(Some(vs), e, p) == ReconcileStepView::End(OutcomeView::Current) ==> p.extensions is Some
            && missing_of(vs, p.extensions->0).len() == 0,
{
    if reconcile_next(Some(vs), e, p) is Stamp {
        let f = p.failed->0;
        let todo = work_of(vs, missing_of(vs, p.extensions->0));
        assert forall|i: int| 0 <= i < f.len() implies !#[trigger] f[i] by {
            lemma_failure_is_named(todo, f, todo.len() as int, i);
        }
    }
}

proof fn lemma_failure_is_named(work: Seq<WorkView>, failed: Seq<bool>, n: int, i: int)
    requires
        0 <= i < n,
        failed_upto(work, failed, n).len() == 0,
    ensures
        !failed[i],
    decreases n,
{
    if i < n - 1 {
        lemma_failure_is_named(work, failed, n - 1, i);
    }
}

/// Asks the server CLI, once, whether it has every extension named: the CLI is `$0`, and the
/// extensions are the arguments behind it.
pub const ALL_PRESENT: &'static str =
    "list=$(\"$0\" --list-extensions 2>/dev/null) || exit 1; for id do printf '%s\\n' \"$list\" | grep -qixF -- \"$id\" || exit 1; done";

/// Asks the server CLI whether it has one extension: the id is matched as text, not as a pattern.
pub const ONE_PRESENT: &'static str = "\"$0\" --list-extensions 2>/dev/null | grep -qixF -- \"$1\"";

/// Asks whether a server CLI can be run.
pub const CAN_RUN: &'static str = "test -x \"$0\"";

/// Runs an install under its own session where there is `setsid`: an attaching window's cleanup
/// kills the process group of an install in flight.
pub const INSTALL: &'static str =
    "if command -v setsid >/dev/null 2>&1; then exec setsid -w \"$0\" \"$@\"; fi; exec \"$0\" \"$@\"";

/// Runs the server's own `node` on a script.
pub const NODE: &'static str = "exec \"$0/node\" -e \"$1\" \"$2\" \"$3\"";

/// Merges JSON into a settings file, written whole and renamed into place. One level deep: a key
/// the config names replaces whatever was there, and every other is kept. A file that is not
/// plain JSON is left alone.
pub const MERGE_SETTINGS_JS: &'static str = "
const fs = require('fs'), path = require('path');
const [file, json] = process.argv.slice(1);
let cur = {};
try { cur = JSON.parse(fs.readFileSync(file, 'utf8')); }
catch (e) { if (e.code !== 'ENOENT') { console.error(file + ': not plain JSON, not touched: ' + e.message); process.exit(2); } }
Object.assign(cur, JSON.parse(json));
fs.mkdirSync(path.dirname(file), { recursive: true });
const tmp = file + '.vk-tmp';
try {
  fs.writeFileSync(tmp, JSON.stringify(cur, null, 2) + '\\n', { mode: 0o600 });
  fs.renameSync(tmp, file);
} catch (e) {
  try { fs.unlinkSync(tmp); } catch (_) {}
  throw e;
}
";

/// A script for the guest's shell, with what it is given.
pub open spec fn guest_argv(script: Seq<char>, args: Seq<Seq<char>>) -> Seq<Seq<char>> {
    seq!["/bin/sh"@, "-c"@, script] + args
}

/// The command line that runs a script in the guest.
pub fn in_guest(script: &str, args: Vec<String>) -> (r: Vec<String>)
    ensures
        r.deep_view() == guest_argv(script@, args.deep_view()),
{
    let ghost a = args.deep_view();
    let mut out = args;
    out.insert(0, script.to_owned());
    out.insert(0, "-c".to_owned());
    out.insert(0, "/bin/sh".to_owned());
    assert(out.deep_view() =~= guest_argv(script@, a));
    out
}

/// The command line that asks for all the extensions at once.
pub fn ask_all(cli: &str, wanted: &Vec<String>) -> (r: Vec<String>)
    ensures
        r.deep_view() == guest_argv(ALL_PRESENT@, seq![cli@] + wanted.deep_view()),
{
    let mut args = copy_list(wanted);
    args.insert(0, cli.to_owned());
    assert(args.deep_view() =~= seq![cli@] + wanted.deep_view());
    in_guest(ALL_PRESENT, args)
}

/// The command line that installs an extension.
pub fn install_argv(cli: &str, extension: &str) -> (r: Vec<String>)
    ensures
        r.deep_view() == guest_argv(INSTALL@, seq![cli@, "--install-extension"@, extension@, "--force"@]),
{
    let mut args: Vec<String> = Vec::new();
    put(&mut args, cli.to_owned());
    put(&mut args, "--install-extension".to_owned());
    put(&mut args, extension.to_owned());
    put(&mut args, "--force".to_owned());
    assert(args.deep_view() =~= seq![cli@, "--install-extension"@, extension@, "--force"@]);
    in_guest(INSTALL, args)
}

/// The directory a server's CLI belongs to: the one that holds its `bin`.
pub open spec fn server_of(cli: Seq<char>) -> Seq<char> {
    match parent_of(encode_utf8(cli)) {
        Some(bin) => match parent_of(bin) {
            Some(server) => lossy_text(server),
            None => ""@,
        },
        None => ""@,
    }
}

/// The command line that merges the settings.
pub fn settings_argv(cli: &str, data: &str, settings: &Json) -> (r: Vec<String>)
    ensures
        r.deep_view() == guest_argv(
            NODE@,
            seq![
                server_of(cli@),
                MERGE_SETTINGS_JS@,
                data@ + "/data/Machine/settings.json"@,
                json_shown(json_sorted(settings.deep_view())),
            ],
        ),
{
    let server = match HostPath::from_text(cli).parent() {
        Some(bin) => match bin.parent() {
            Some(server) => server.display(),
            None => "".to_owned(),
        },
        None => "".to_owned(),
    };
    let file = cat2(data, "/data/Machine/settings.json");
    let json = json_text(&sort_json(settings));
    let mut args: Vec<String> = Vec::new();
    put(&mut args, server);
    put(&mut args, MERGE_SETTINGS_JS.to_owned());
    put(&mut args, file);
    put(&mut args, json);
    assert(args.deep_view() =~= seq![
        server_of(cli@),
        MERGE_SETTINGS_JS@,
        data@ + "/data/Machine/settings.json"@,
        json_shown(json_sorted(settings.deep_view())),
    ]);
    in_guest(NODE, args)
}

/// What the project's own command is told of the server.
pub fn command_env(cli: &str, editor: &Editor, data: &str) -> (r: Vec<(String, String)>)
    ensures
        r.deep_view() == seq![
            ("VK_VSCODE_CLI"@, cli@),
            ("VK_VSCODE_COMMIT"@, editor.deep_view().commit),
            ("VK_VSCODE_CHANNEL"@, editor.deep_view().channel.said()),
            ("VK_VSCODE_DATA"@, data@),
        ],
{
    let mut env: Vec<(String, String)> = Vec::new();
    put(&mut env, ("VK_VSCODE_CLI".to_owned(), cli.to_owned()));
    put(&mut env, ("VK_VSCODE_COMMIT".to_owned(), editor.commit.clone()));
    put(&mut env, ("VK_VSCODE_CHANNEL".to_owned(), editor.channel.label().to_owned()));
    put(&mut env, ("VK_VSCODE_DATA".to_owned(), data.to_owned()));
    assert(env.deep_view() =~= seq![
        ("VK_VSCODE_CLI"@, cli@),
        ("VK_VSCODE_COMMIT"@, editor.deep_view().commit),
        ("VK_VSCODE_CHANNEL"@, editor.deep_view().channel.said()),
        ("VK_VSCODE_DATA"@, data@),
    ]);
    env
}

/// Why a guest step failed, if it did: its exit status is the answer.
pub fn guest_failure(code: Option<i32>, signal: i32) -> (r: Option<String>)
    ensures
        r.deep_view() == match code {
            Some(c) => if c == 0 {
                None
            } else {
                Some("exited "@ + crate::text::decimal_int(c as int))
            },
            None => Some("killed by signal "@ + crate::text::decimal_int(signal as int)),
        },
{
    match code {
        Some(c) => if c == 0 {
            None
        } else {
            Some(cat2("exited ", crate::validate::to_decimal_int(c as i64).as_str()))
        },
        None => Some(cat2("killed by signal ", crate::validate::to_decimal_int(signal as i64).as_str())),
    }
}

/// What `[dev.editor.vscode]` asks for.
#[derive(Debug, Clone, Copy)]
pub struct Configured {
    pub extensions: usize,
    pub settings: usize,
    pub reconcile_command: bool,
    /// whether the server's storage outlives the environment's image generation
    pub persistent: bool,
}

/// One completed reconciliation, named by the server it was applied to.
#[derive(Debug)]
pub struct Reconciled {
    pub server: String,
    /// how long ago it was stamped, when the stamp's time can be read
    pub age_secs: Option<u64>,
}

pub struct ReconciledView {
    pub server: Seq<char>,
    pub age_secs: Option<u64>,
}

impl DeepView for Reconciled {
    type V = ReconciledView;

    open spec fn deep_view(&self) -> ReconciledView {
        ReconciledView { server: self.server@, age_secs: self.age_secs }
    }
}

/// One reconciliation log kept under the state directory.
#[derive(Debug)]
pub struct Log {
    pub server: String,
    pub path: HostPath,
}

pub struct LogView {
    pub server: Seq<char>,
    pub path: Seq<u8>,
}

impl DeepView for Log {
    type V = LogView;

    open spec fn deep_view(&self) -> LogView {
        LogView { server: self.server@, path: self.path.deep_view() }
    }
}

/// `vk dev editor status` as data: what the config describes, whether an operation holds the
/// lock, and what has been reconciled.
#[derive(Debug)]
pub struct StatusView {
    /// absent when the config has no `[dev.editor.vscode]`, which is the whole answer
    pub configured: Option<Configured>,
    /// who holds the operation's lock, when anyone does
    pub running: Option<String>,
    /// one per completed reconciliation still stamped
    pub reconciled: Vec<Reconciled>,
    pub logs: Vec<Log>,
}

pub struct StatusModel {
    pub configured: Option<Configured>,
    pub running: Option<Seq<char>>,
    pub reconciled: Seq<ReconciledView>,
    pub logs: Seq<LogView>,
}

impl DeepView for StatusView {
    type V = StatusModel;

    open spec fn deep_view(&self) -> StatusModel {
        StatusModel {
            configured: self.configured,
            running: self.running.deep_view(),
            reconciled: self.reconciled.deep_view(),
            logs: self.logs.deep_view(),
        }
    }
}

/// A file in the directory a reconciliation keeps its files in.
#[derive(Debug)]
pub struct OwnFile {
    pub name: String,
    pub path: HostPath,
    /// how long ago it was written, when that can be read
    pub age_secs: Option<u64>,
}

pub struct OwnFileView {
    pub name: Seq<char>,
    pub path: Seq<u8>,
    pub age_secs: Option<u64>,
}

impl DeepView for OwnFile {
    type V = OwnFileView;

    open spec fn deep_view(&self) -> OwnFileView {
        OwnFileView { name: self.name@, path: self.path.deep_view(), age_secs: self.age_secs }
    }
}

/// A slug with its commit cut to twelve characters.
pub open spec fn slug_shown(slug: Seq<char>) -> Seq<char> {
    match cut(slug, '-') {
        Some((channel, commit)) => channel + "-"@ + first_chars(commit, 12),
        None => slug,
    }
}

/// A slug with its commit cut to the twelve characters everything else prints.
pub fn short_slug(slug: &str) -> (r: String)
    ensures
        r@ == slug_shown(slug@),
{
    match cut_at(slug, '-') {
        Some((channel, commit)) => cat3(channel.as_str(), "-", shorten(commit.as_str(), 12).as_str()),
        None => slug.to_owned(),
    }
}

/// The text without an end it has.
pub open spec fn without_end(s: Seq<char>, suffix: Seq<char>) -> Option<Seq<char>> {
    if ends(s, suffix) {
        Some(s.take(s.len() - suffix.len()))
    } else {
        None
    }
}

fn before_end(s: &str, suffix: &str) -> (r: Option<String>)
    ensures
        r.deep_view() == without_end(s@, suffix@),
{
    if !ends_with(s, suffix) {
        return None;
    }
    let v = chars_of(s);
    let n: usize = chars_of(suffix).len();
    let r = text_between(&v, 0, v.len() - n);
    assert(r@ =~= s@.take(s@.len() - suffix@.len()));
    Some(r)
}

/// The completed reconciliations among the first `n` files.
pub open spec fn stamps_upto(files: Seq<OwnFileView>, n: int) -> Seq<ReconciledView>
    decreases n,
{
    if n <= 0 {
        Seq::empty()
    } else {
        let had = stamps_upto(files, n - 1);
        match without_end(files[n - 1].name, ".done"@) {
            Some(slug) => had.push(ReconciledView { server: slug_shown(slug), age_secs: files[n - 1].age_secs }),
            None => had,
        }
    }
}

/// The logs among the first `n` files.
pub open spec fn logs_upto(files: Seq<OwnFileView>, n: int) -> Seq<LogView>
    decreases n,
{
    if n <= 0 {
        Seq::empty()
    } else {
        let had = logs_upto(files, n - 1);
        match (without_end(files[n - 1].name, ".done"@), without_end(files[n - 1].name, ".log"@)) {
            (None, Some(slug)) => had.push(LogView { server: slug_shown(slug), path: files[n - 1].path }),
            _ => had,
        }
    }
}

/// What a config asks for.
pub open spec fn configured_of(vs: Option<VsCodeView>) -> Option<Configured> {
    match vs {
        Some(v) => Some(
            Configured {
                extensions: v.extensions.len() as usize,
                settings: settings_count(v.settings) as usize,
                reconcile_command: v.reconcile is Some,
                persistent: v.persistent,
            },
        ),
        None => None,
    }
}

/// The status of an editor plan, given who holds the lock and the files there are, by name.
pub open spec fn status_of(vs: Option<VsCodeView>, running: Option<Seq<char>>, files: Seq<OwnFileView>) -> StatusModel {
    StatusModel {
        configured: configured_of(vs),
        running,
        reconciled: if vs is None {
            Seq::empty()
        } else {
            stamps_upto(files, files.len() as int)
        },
        logs: if vs is None {
            Seq::empty()
        } else {
            logs_upto(files, files.len() as int)
        },
    }
}

/// The status, read from the config and the operation's own files, which come by name.
pub fn status_view(vscode: &Option<VsCodePlan>, running: &Option<String>, files: &Vec<OwnFile>) -> (r: StatusView)
    ensures
        r.deep_view() == status_of(vscode.deep_view(), running.deep_view(), files.deep_view()),
{
    let configured = match vscode {
        Some(v) => {
            assert(v.extensions.deep_view().len() == v.extensions@.len());
            Some(
                Configured {
                    extensions: v.extensions.len(),
                    settings: count_settings(&v.settings),
                    reconcile_command: v.reconcile.is_some(),
                    persistent: v.persistent,
                },
            )
        },
        None => None,
    };
    let ghost f = files.deep_view();
    let mut reconciled: Vec<Reconciled> = Vec::new();
    let mut logs: Vec<Log> = Vec::new();
    assert(reconciled.deep_view() =~= Seq::empty());
    assert(logs.deep_view() =~= Seq::empty());
    if configured.is_some() {
        let mut i: usize = 0;
        while i < files.len()
            invariant
                i <= files@.len(),
                f == files.deep_view(),
                reconciled.deep_view() == stamps_upto(f, i as int),
                logs.deep_view() == logs_upto(f, i as int),
            decreases files@.len() - i,
        {
            assert(f[i as int] == files@[i as int].deep_view());
            if let Some(slug) = before_end(files[i].name.as_str(), ".done") {
                put(
                    &mut reconciled,
                    Reconciled { server: short_slug(slug.as_str()), age_secs: files[i].age_secs },
                );
            } else if let Some(slug) = before_end(files[i].name.as_str(), ".log") {
                put(&mut logs, Log { server: short_slug(slug.as_str()), path: files[i].path.copy() });
            }
            i = i + 1;
        }
    }
    StatusView { configured, running: crate::text::copy_opt(running), reconciled, logs }
}

/// The lines of the first `n` completed reconciliations.
pub open spec fn reconciled_shown(v: Seq<ReconciledView>, n: int) -> Seq<char>
    decreases n,
{
    if n <= 0 {
        Seq::empty()
    } else {
        reconciled_shown(v, n - 1) + ("reconciled  "@ + v[n - 1].server + " "@ + match v[n - 1].age_secs {
            Some(s) => decimal(s as nat) + "s ago"@,
            None => ""@,
        } + "\n"@)
    }
}

/// The lines of the first `n` logs.
pub open spec fn logs_shown(v: Seq<LogView>, n: int) -> Seq<char>
    decreases n,
{
    if n <= 0 {
        Seq::empty()
    } else {
        logs_shown(v, n - 1) + ("log         "@ + v[n - 1].server + ": "@ + lossy_text(v[n - 1].path) + "\n"@)
    }
}

/// `vk dev editor status` as text.
pub open spec fn status_shown(v: StatusModel) -> Seq<char> {
    match v.configured {
        None => "editor      no [dev.editor.vscode] in the config\n"@,
        Some(c) => ("editor      "@ + decimal(c.extensions as nat) + " extension(s), "@ + decimal(c.settings as nat)
            + " setting(s)"@ + (if c.reconcile_command {
            ", a reconcile command"@
        } else {
            ""@
        }) + ", state "@ + (if c.persistent {
            "persistent"@
        } else {
            "ephemeral"@
        }) + "\n"@) + match v.running {
            Some(holder) => "operation   running ("@ + holder + ")\n"@,
            None => "operation   idle\n"@,
        } + reconciled_shown(v.reconciled, v.reconciled.len() as int) + logs_shown(v.logs, v.logs.len() as int) + (
        if v.reconciled.len() == 0 {
            "reconciled  never — `vk dev code` starts it\n"@
        } else {
            Seq::empty()
        }),
    }
}

/// `vk dev editor status`: the operation's own state, apart from the VM's.
pub fn status(view: &StatusView) -> (r: String)
    ensures
        r@ == status_shown(view.deep_view()),
{
    let c = match &view.configured {
        None => {
            return "editor      no [dev.editor.vscode] in the config\n".to_owned();
        },
        Some(c) => *c,
    };
    let ghost d = view.deep_view();
    let extensions = to_decimal(c.extensions as u64);
    let settings = to_decimal(c.settings as u64);
    let command = if c.reconcile_command {
        ", a reconcile command"
    } else {
        ""
    };
    let kept = if c.persistent {
        "persistent"
    } else {
        "ephemeral"
    };
    let head = cat5("editor      ", extensions.as_str(), " extension(s), ", settings.as_str(), " setting(s)");
    let mut out = cat5(head.as_str(), command, ", state ", kept, "\n");
    match &view.running {
        Some(holder) => out.append(cat3("operation   running (", holder.as_str(), ")\n").as_str()),
        None => out.append("operation   idle\n"),
    }
    let ghost first = out@;
    let ghost rs = d.reconciled;
    let mut i: usize = 0;
    assert(out@ =~= first + reconciled_shown(rs, 0));
    while i < view.reconciled.len()
        invariant
            i <= view.reconciled@.len(),
            rs == view.reconciled.deep_view(),
            out@ == first + reconciled_shown(rs, i as int),
        decreases view.reconciled@.len() - i,
    {
        let x = &view.reconciled[i];
        assert(rs[i as int] == x.deep_view());
        let ago = match x.age_secs {
            Some(s) => cat2(to_decimal(s).as_str(), "s ago"),
            None => "".to_owned(),
        };
        out.append(cat5("reconciled  ", x.server.as_str(), " ", ago.as_str(), "\n").as_str());
        assert(out@ =~= first + reconciled_shown(rs, i + 1));
        i = i + 1;
    }
    let ghost second = out@;
    let ghost ls = d.logs;
    let mut j: usize = 0;
    assert(out@ =~= second + logs_shown(ls, 0));
    while j < view.logs.len()
        invariant
            j <= view.logs@.len(),
            ls == view.logs.deep_view(),
            out@ == second + logs_shown(ls, j as int),
        decreases view.logs@.len() - j,
    {
        let x = &view.logs[j];
        assert(ls[j as int] == x.deep_view());
        let at = x.path.display();
        out.append(cat5("log         ", x.server.as_str(), ": ", at.as_str(), "\n").as_str());
        assert(out@ =~= second + logs_shown(ls, j + 1));
        j = j + 1;
    }
    assert(rs.len() == view.reconciled@.len());
    if view.reconciled.is_empty() {
        out.append("reconciled  never — `vk dev code` starts it\n");
    }
    assert(out@ =~= status_shown(d));
    out
}

/// The first place from `from` on where a character begins.
pub open spec fn boundary_from(b: Seq<u8>, from: int) -> int
    decreases b.len() - from,
{
    if from < 0 || from >= b.len() || is_char_boundary(b, from) {
        from
    } else {
        boundary_from(b, from + 1)
    }
}

/// The end of a log that is printed: all of a short one, and else what begins at the first
/// character in its last bytes, behind how much is left out.
pub open spec fn log_tail(text: Seq<char>) -> Seq<char> {
    let b = encode_utf8(text);
    if b.len() > LOG_TAIL_BYTES {
        let cut = b.len() - LOG_TAIL_BYTES;
        "… "@ + decimal(cut as nat) + " earlier byte(s) not shown\n"@ + decode_utf8(
            b.subrange(boundary_from(b, cut), b.len() as int),
        )
    } else {
        text
    }
}

/// A log as it is printed: where it is, and its last bytes where it is longer.
fn show_log(path: &HostPath, text: &str) -> (r: String)
    ensures
        r@ == "== "@ + lossy_text(path.deep_view()) + "\n"@ + log_tail(text@),
{
    let at = path.display();
    let total: usize = text.as_bytes().len();
    let ghost b = encode_utf8(text@);
    if total > LOG_TAIL_BYTES {
        let cut: usize = total - LOG_TAIL_BYTES;
        let mut from: usize = cut;
        while from < total && !text.is_char_boundary(from)
            invariant
                cut <= from <= total,
                total == b.len(),
                b == encode_utf8(text@),
                boundary_from(b, from as int) == boundary_from(b, cut as int),
            decreases total - from,
        {
            from = from + 1;
        }
        proof {
            vstd::utf8::encode_utf8_valid_utf8(text@);
            vstd::utf8::is_char_boundary_start_end_of_seq(b);
        }
        let (_, tail) = text.split_at(from);
        proof {
            vstd::utf8::encode_utf8_decode_utf8(tail@);
        }
        let left = to_decimal(cut as u64);
        cat7("== ", at.as_str(), "\n", "… ", left.as_str(), " earlier byte(s) not shown\n", tail)
    } else {
        cat4("== ", at.as_str(), "\n", text)
    }
}

/// A file in the directory of the logs, with when it was written, when that can be read.
#[derive(Debug)]
pub struct LogFile {
    pub name: String,
    pub modified: Option<u64>,
}

pub struct LogFileView {
    pub name: Seq<char>,
    pub modified: Option<u64>,
}

impl DeepView for LogFile {
    type V = LogFileView;

    open spec fn deep_view(&self) -> LogFileView {
        LogFileView { name: self.name@, modified: self.modified }
    }
}

/// `a` was not written before `b`; a time that cannot be read is before every other.
pub open spec fn not_before(a: Option<u64>, b: Option<u64>) -> bool {
    match (a, b) {
        (_, None) => true,
        (None, Some(_)) => false,
        (Some(x), Some(y)) => x >= y,
    }
}

/// The newest log among the first `n` files, the last of those written at one time.
pub open spec fn newest_upto(files: Seq<LogFileView>, n: int) -> Option<int>
    decreases n,
{
    if n <= 0 {
        None
    } else {
        let best = newest_upto(files, n - 1);
        if !ends(files[n - 1].name, ".log"@) {
            best
        } else {
            match best {
                None => Some(n - 1),
                Some(b) => if not_before(files[n - 1].modified, files[b].modified) {
                    Some(n - 1)
                } else {
                    best
                },
            }
        }
    }
}

/// The place of the newest log.
pub fn newest_log(files: &Vec<LogFile>) -> (r: Option<usize>)
    ensures
        match r {
            Some(i) => newest_upto(files.deep_view(), files@.len() as int) == Some(i as int) && i < files@.len(),
            None => newest_upto(files.deep_view(), files@.len() as int) is None,
        },
{
    let ghost f = files.deep_view();
    let mut best: Option<usize> = None;
    let mut i: usize = 0;
    while i < files.len()
        invariant
            i <= files@.len(),
            f == files.deep_view(),
            match best {
                Some(b) => newest_upto(f, i as int) == Some(b as int) && b < i,
                None => newest_upto(f, i as int) is None,
            },
        decreases files@.len() - i,
    {
        assert(f[i as int] == files@[i as int].deep_view());
        if ends_with(files[i].name.as_str(), ".log") {
            let later = match best {
                None => true,
                Some(b) => {
                    assert(f[b as int] == files@[b as int].deep_view());
                    match (files[i].modified, files[b].modified) {
                        (_, None) => true,
                        (None, Some(_)) => false,
                        (Some(x), Some(y)) => x >= y,
                    }
                },
            };
            if later {
                best = Some(i);
            }
        }
        i = i + 1;
    }
    best
}

/// The newest log as it is printed, given where it is and what it holds; none where there is no
/// log under `dir`.
pub fn latest_log(dir: &HostPath, newest: &Option<(HostPath, String)>) -> (r: Result<String, Error>)
    ensures
        match *newest {
            Some(l) => r matches Ok(t) && t@ == "== "@ + lossy_text(l.0.deep_view()) + "\n"@ + log_tail(l.1@),
            None => r matches Err(e) && e.deep_view() == "no editor log under "@ + lossy_text(dir.deep_view())
                + " yet"@,
        },
{
    match newest {
        Some(l) => Ok(show_log(&l.0, l.1.as_str())),
        None => Err(error(cat3("no editor log under ", dir.display().as_str(), " yet"))),
    }
}

/// What is digested follows the server: one plan has different bytes to digest for two commits.
pub proof fn law_digest_follows_the_commit(vs: VsCodeView, a: EditorView, b: EditorView)
    requires
        a.channel == b.channel,
        a.commit.len() == b.commit.len(),
        is_commit(a.commit),
        is_commit(b.commit),
        a.commit != b.commit,
    ensures
        applied_bytes(vs, a) != applied_bytes(vs, b),
{
    let n: int = encode_utf8(a.channel.said()).len() as int + 1;
    let x = applied_bytes(vs, a);
    let y = applied_bytes(vs, b);
    lemma_commit_bytes(a.commit);
    lemma_commit_bytes(b.commit);
    assert(x.subrange(n, n + 40) =~= encode_utf8(a.commit));
    assert(y.subrange(n, n + 40) =~= encode_utf8(b.commit));
    if x == y {
        vstd::utf8::encode_utf8_decode_utf8(a.commit);
        vstd::utf8::encode_utf8_decode_utf8(b.commit);
    }
}

proof fn lemma_commit_bytes(c: Seq<char>)
    requires
        is_commit(c),
    ensures
        encode_utf8(c).len() == 40,
{
    assert(vstd::utf8::is_ascii_chars(c)) by {
        assert forall|i: int| 0 <= i < c.len() implies (#[trigger] c[i] as nat) < 128 by {
            assert(is_hex(c[i]));
        }
    }
    crate::names::lemma_ascii_len(c);
}

} // verus!
