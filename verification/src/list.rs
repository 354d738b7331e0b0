//! `vk dev list` and `vk dev gc`: every dev environment this host keeps state for, and which of
//! that state a `gc` removes.
//!
//! Deleting a worktree leaves its environment's storage behind with nothing to name it, and a
//! task that ran in a throwaway environment leaves a directory with no record in it. Both are
//! read here from the directories themselves rather than from any config: [`scan`] turns what
//! the directories hold into rows, [`select_gc`] decides which of them a `gc` takes, and
//! [`remove`] whether they can go.

use crate::entries::{entry, get};
use crate::identity::{Identity, IdentityView};
use crate::names::{dev_state_base, state_base};
use crate::path::{is_listed, lossy_text, name_of, parent_of, same_path, HostPath};
use crate::planjson::{
    lemma_array_sound, lemma_object_sound, lemma_texts_sound, lemma_told_apart, number_json, number_value, object,
    opt_json, opt_value, path_error, path_json, path_value, text_json, text_value, texts_json, texts_value,
};
use crate::text::{
    before, cat2, cat3, cat5, cat7, chars_of, copy_opt, decimal, ends, ends_with, error, is_before, join, joined,
    lemma_before_irreflexive, lemma_before_total, lemma_before_transitive, outcome, pad, padded, put, same,
    to_decimal, trim_end, trimmed_end, words, words_of, Error,
};
use crate::units::{bytes_shown, fmt_bytes, fmt_uptime, uptime_shown};
use crate::value::{group_json, json_pretty, json_pretty_shown, json_sound, Json, JsonTree};
use vstd::prelude::*;
use vstd::utf8::{encode_utf8, valid_utf8};

verus! {

broadcast use group_json;

/// Where an environment stands, from its state directory alone.
#[derive(Debug, Clone, Copy, PartialEq, Eq, Structural)]
pub enum Status {
    /// a VM is up on this state directory
    Running,
    /// booted at some point, nothing running now
    Stopped,
    /// no identity recorded: an ephemeral run, or a boot that never completed
    NeverBooted,
}

impl Status {
    pub open spec fn said(self) -> Seq<char> {
        match self {
            Status::Running => "running"@,
            Status::Stopped => "stopped"@,
            Status::NeverBooted => "never booted"@,
        }
    }

    pub fn label(self) -> (r: &'static str)
        ensures
            r@ == self.said(),
    {
        match self {
            Status::Running => "running",
            Status::Stopped => "stopped",
            Status::NeverBooted => "never booted",
        }
    }

    /// How the status is written in JSON.
    pub open spec fn spelling(self) -> Seq<char> {
        match self {
            Status::Running => "running"@,
            Status::Stopped => "stopped"@,
            Status::NeverBooted => "never-booted"@,
        }
    }

    fn as_str(self) -> (r: &'static str)
        ensures
            r@ == self.spelling(),
    {
        match self {
            Status::Running => "running",
            Status::Stopped => "stopped",
            Status::NeverBooted => "never-booted",
        }
    }
}

/// What makes an environment a candidate for `gc --all-stale`.
#[derive(Debug, Clone, Copy, PartialEq, Eq, Structural)]
pub enum Flag {
    /// the workspace the identity records is gone, and the directory that held it is still
    /// there: an unmounted share is not a deleted checkout
    WorkspaceMissing,
    /// no identity recorded: the shape a task run or an aborted boot leaves
    Ephemeral,
}

impl DeepView for Flag {
    type V = Flag;

    open spec fn deep_view(&self) -> Flag {
        *self
    }
}

impl Flag {
    pub open spec fn said(self) -> Seq<char> {
        match self {
            Flag::WorkspaceMissing => "workspace missing"@,
            Flag::Ephemeral => "ephemeral"@,
        }
    }

    pub fn label(self) -> (r: &'static str)
        ensures
            r@ == self.said(),
    {
        match self {
            Flag::WorkspaceMissing => "workspace missing",
            Flag::Ephemeral => "ephemeral",
        }
    }

    /// How the flag is written in JSON.
    pub open spec fn spelling(self) -> Seq<char> {
        match self {
            Flag::WorkspaceMissing => "workspace-missing"@,
            Flag::Ephemeral => "ephemeral"@,
        }
    }

    fn as_str(self) -> (r: &'static str)
        ensures
            r@ == self.spelling(),
    {
        match self {
            Flag::WorkspaceMissing => "workspace-missing",
            Flag::Ephemeral => "ephemeral",
        }
    }
}

/// One state directory, as `vk dev list` reports it.
#[derive(Debug)]
pub struct Row {
    /// the directory's own name, and what `vk dev gc` takes
    pub name: String,
    pub dir: HostPath,
    /// the workspace the identity records; none when nothing was recorded
    pub workspace: Option<HostPath>,
    pub environment: Option<String>,
    pub status: Status,
    /// the `vk` that booted it, as it recorded itself
    pub created_by: Option<String>,
    pub booted_secs: Option<u64>,
    /// how long ago that boot was, at the time of the scan
    pub age_secs: Option<u64>,
    /// what the directory holds, when the caller asked to measure it
    pub size_bytes: Option<u64>,
    pub flags: Vec<Flag>,
}

pub struct RowView {
    pub name: Seq<char>,
    pub dir: Seq<u8>,
    pub workspace: Option<Seq<u8>>,
    pub environment: Option<Seq<char>>,
    pub status: Status,
    pub created_by: Option<Seq<char>>,
    pub booted_secs: Option<u64>,
    pub age_secs: Option<u64>,
    pub size_bytes: Option<u64>,
    pub flags: Seq<Flag>,
}

impl DeepView for Row {
    type V = RowView;

    open spec fn deep_view(&self) -> RowView {
        RowView {
            name: self.name@,
            dir: self.dir.deep_view(),
            workspace: self.workspace.deep_view(),
            environment: self.environment.deep_view(),
            status: self.status,
            created_by: self.created_by.deep_view(),
            booted_secs: self.booted_secs,
            age_secs: self.age_secs,
            size_bytes: self.size_bytes,
            flags: self.flags.deep_view(),
        }
    }
}

impl RowView {
    /// Nothing is running on it, and either its checkout is gone or it never recorded what it
    /// was.
    pub open spec fn is_stale(self) -> bool {
        self.status != Status::Running && (self.flags.contains(Flag::WorkspaceMissing) || self.flags.contains(
            Flag::Ephemeral,
        ))
    }
}

impl Row {
    pub fn has(&self, flag: Flag) -> (r: bool)
        ensures
            r == self.deep_view().flags.contains(flag),
    {
        let mut i: usize = 0;
        while i < self.flags.len()
            invariant
                i <= self.flags@.len(),
                forall|j: int| 0 <= j < i ==> self.flags@[j] != flag,
            decreases self.flags@.len() - i,
        {
            if self.flags[i] == flag {
                assert(self.flags.deep_view()[i as int] == flag);
                return true;
            }
            i = i + 1;
        }
        assert(forall|j: int| 0 <= j < self.flags.deep_view().len() ==> self.flags.deep_view()[j] != flag);
        false
    }

    /// Removable by `--all-stale`.
    pub fn stale(&self) -> (r: bool)
        ensures
            r == self.deep_view().is_stale(),
    {
        self.status != Status::Running && (self.has(Flag::WorkspaceMissing) || self.has(Flag::Ephemeral))
    }

    pub fn copy(&self) -> (r: Row)
        ensures
            r.deep_view() == self.deep_view(),
    {
        let mut flags: Vec<Flag> = Vec::new();
        let mut i: usize = 0;
        while i < self.flags.len()
            invariant
                i <= self.flags@.len(),
                flags.deep_view() == self.flags.deep_view().take(i as int),
            decreases self.flags@.len() - i,
        {
            put(&mut flags, self.flags[i]);
            assert(flags.deep_view() =~= self.flags.deep_view().take(i + 1));
            i = i + 1;
        }
        assert(flags.deep_view() =~= self.flags.deep_view());
        Row {
            name: self.name.clone(),
            dir: self.dir.copy(),
            workspace: match &self.workspace {
                Some(w) => Some(w.copy()),
                None => None,
            },
            environment: copy_opt(&self.environment),
            status: self.status,
            created_by: copy_opt(&self.created_by),
            booted_secs: self.booted_secs,
            age_secs: self.age_secs,
            size_bytes: self.size_bytes,
            flags,
        }
    }
}

/// What a state directory holds, as far as a row needs it.
#[derive(Debug)]
pub struct StateDir {
    pub dir: HostPath,
    /// the directory's canonical path, where it has one
    pub canonical: Option<HostPath>,
    /// what its last boot recorded; none where nothing readable is recorded
    pub identity: Option<Identity>,
    /// of the recorded workspace and the directory that holds it, those that exist
    pub existing: Vec<HostPath>,
    /// what the directory holds, when it was measured
    pub size_bytes: Option<u64>,
}

pub struct StateDirView {
    pub dir: Seq<u8>,
    pub canonical: Option<Seq<u8>>,
    pub identity: Option<IdentityView>,
    pub existing: Seq<Seq<u8>>,
    pub size_bytes: Option<u64>,
}

impl DeepView for StateDir {
    type V = StateDirView;

    open spec fn deep_view(&self) -> StateDirView {
        StateDirView {
            dir: self.dir.deep_view(),
            canonical: self.canonical.deep_view(),
            identity: self.identity.deep_view(),
            existing: self.existing.deep_view(),
            size_bytes: self.size_bytes,
        }
    }
}

/// The text a manifest holds under a key.
pub open spec fn manifest_text(m: JsonTree, key: Seq<char>) -> Option<Seq<char>> {
    match m {
        JsonTree::Object(o) => match entry(o, key) {
            Some(JsonTree::Text(t)) => Some(t),
            _ => None,
        },
        _ => None,
    }
}

/// The text the recorded manifest holds under a key.
pub open spec fn recorded_text(identity: Option<IdentityView>, key: Seq<char>) -> Option<Seq<char>> {
    match identity {
        Some(i) => manifest_text(i.manifest, key),
        None => None,
    }
}

/// The text the recorded manifest holds under a key, if it holds one.
pub fn recorded(identity: &Option<Identity>, key: &str) -> (r: Option<String>)
    ensures
        r.deep_view() == recorded_text(identity.deep_view(), key@),
{
    match identity {
        Some(i) => match &i.manifest {
            Json::Object(o) => match get(o, key) {
                Some(Json::Text(t)) => Some(t.clone()),
                _ => None,
            },
            _ => None,
        },
        None => None,
    }
}

/// The workspace the identity records.
pub open spec fn workspace_of(identity: Option<IdentityView>) -> Option<Seq<u8>> {
    match recorded_text(identity, "workspace"@) {
        Some(t) => Some(encode_utf8(t)),
        None => None,
    }
}

/// One of the running state directories is this one, by either of its paths.
pub open spec fn runs_on(running: Seq<Seq<u8>>, dir: Seq<u8>, canonical: Option<Seq<u8>>) -> bool {
    exists|i: int|
        0 <= i < running.len() && (same_path(#[trigger] running[i], dir) || (canonical is Some && same_path(
            running[i],
            canonical->0,
        )))
}

fn is_running_on(running: &Vec<HostPath>, dir: &HostPath, canonical: &Option<HostPath>) -> (r: bool)
    ensures
        r == runs_on(running.deep_view(), dir.deep_view(), canonical.deep_view()),
{
    let ghost v = running.deep_view();
    let mut i: usize = 0;
    while i < running.len()
        invariant
            i <= running@.len(),
            v == running.deep_view(),
            forall|j: int|
                0 <= j < i ==> !same_path(#[trigger] v[j], dir.deep_view()) && !(canonical.deep_view() is Some
                    && same_path(v[j], canonical.deep_view()->0)),
        decreases running@.len() - i,
    {
        assert(v[i as int] == running@[i as int].deep_view());
        let by_canonical = match canonical {
            Some(c) => running[i].is_same(c),
            None => false,
        };
        if running[i].is_same(dir) || by_canonical {
            return true;
        }
        i = i + 1;
    }
    false
}

/// The workspace is gone, and the directory that held it is still there.
pub open spec fn workspace_gone(workspace: Option<Seq<u8>>, existing: Seq<Seq<u8>>) -> bool {
    match workspace {
        Some(w) => !existing.contains(w) && match parent_of(w) {
            Some(p) => existing.contains(p),
            None => false,
        },
        None => false,
    }
}

/// The flags of a state directory.
pub open spec fn flags_of(d: StateDirView) -> Seq<Flag> {
    (if workspace_gone(workspace_of(d.identity), d.existing) {
        seq![Flag::WorkspaceMissing]
    } else {
        Seq::empty()
    }) + (if d.identity is None {
        seq![Flag::Ephemeral]
    } else {
        Seq::empty()
    })
}

/// `a` less `b`, and nothing where that is less than nothing.
pub open spec fn less(a: u64, b: u64) -> u64 {
    if a < b {
        0
    } else {
        (a - b) as u64
    }
}

/// The row of a state directory, at `now` and with VMs up on `running`.
pub open spec fn row_of(d: StateDirView, running: Seq<Seq<u8>>, now: u64) -> RowView {
    RowView {
        name: match name_of(d.dir) {
            Some(n) => lossy_text(n),
            None => ""@,
        },
        dir: d.dir,
        workspace: workspace_of(d.identity),
        environment: recorded_text(d.identity, "environment"@),
        status: if runs_on(running, d.dir, d.canonical) {
            Status::Running
        } else if d.identity is Some {
            Status::Stopped
        } else {
            Status::NeverBooted
        },
        created_by: if d.identity is Some && d.identity->0.created_by.len() > 0 {
            Some(d.identity->0.created_by)
        } else {
            None
        },
        booted_secs: if d.identity is Some {
            Some(d.identity->0.booted_secs)
        } else {
            None
        },
        age_secs: if d.identity is Some {
            Some(less(now, d.identity->0.booted_secs))
        } else {
            None
        },
        size_bytes: d.size_bytes,
        flags: flags_of(d),
    }
}

/// The row of a state directory. A record that is absent or unreadable leaves the row saying so
/// rather than dropping it, since a directory with no record is exactly what `gc` is for.
pub fn row(d: &StateDir, running: &Vec<HostPath>, now: u64) -> (r: Row)
    ensures
        r.deep_view() == row_of(d.deep_view(), running.deep_view(), now),
{
    let workspace = match recorded(&d.identity, "workspace") {
        Some(t) => Some(HostPath::from_text(t.as_str())),
        None => None,
    };
    let ghost v = d.deep_view();
    assert(workspace.deep_view() == workspace_of(v.identity));
    let gone = match &workspace {
        Some(w) => !is_listed(w, &d.existing) && match w.parent() {
            Some(p) => is_listed(&p, &d.existing),
            None => false,
        },
        None => false,
    };
    let mut flags: Vec<Flag> = Vec::new();
    if gone {
        put(&mut flags, Flag::WorkspaceMissing);
    }
    if d.identity.is_none() {
        put(&mut flags, Flag::Ephemeral);
    }
    assert(flags.deep_view() =~= flags_of(v));
    let status = if is_running_on(running, &d.dir, &d.canonical) {
        Status::Running
    } else if d.identity.is_some() {
        Status::Stopped
    } else {
        Status::NeverBooted
    };
    let name = match d.dir.file_name() {
        Some(n) => crate::path::lossy(&n),
        None => "".to_owned(),
    };
    let environment = recorded(&d.identity, "environment");
    let (created_by, booted_secs, age_secs) = match &d.identity {
        Some(i) => {
            let by = if i.created_by.as_str().is_empty() {
                None
            } else {
                Some(i.created_by.clone())
            };
            let age: u64 = if now < i.booted_secs {
                0
            } else {
                now - i.booted_secs
            };
            (by, Some(i.booted_secs), Some(age))
        },
        None => (None, None, None),
    };
    Row {
        name,
        dir: d.dir.copy(),
        workspace,
        environment,
        status,
        created_by,
        booted_secs,
        age_secs,
        size_bytes: d.size_bytes,
        flags,
    }
}

/// The first place from `from` on whose name sorts after `name`, or the length.
pub open spec fn row_place(rows: Seq<RowView>, name: Seq<char>, from: int) -> int
    decreases rows.len() - from,
{
    if from < 0 || from >= rows.len() {
        rows.len() as int
    } else if before(name, rows[from].name) {
        from
    } else {
        row_place(rows, name, from + 1)
    }
}

/// The rows with one more, behind those whose name does not sort after its own.
pub open spec fn with_row(rows: Seq<RowView>, r: RowView) -> Seq<RowView> {
    rows.insert(row_place(rows, r.name, 0), r)
}

fn add_row(rows: &mut Vec<Row>, r: Row)
    ensures
        final(rows).deep_view() == with_row(old(rows).deep_view(), r.deep_view()),
{
    let ghost s = rows.deep_view();
    let ghost v = r.deep_view();
    let mut i: usize = 0;
    while i < rows.len() && !is_before(r.name.as_str(), rows[i].name.as_str())
        invariant
            i <= rows@.len(),
            s == rows.deep_view(),
            *rows == *old(rows),
            row_place(s, r.name@, i as int) == row_place(s, r.name@, 0),
        decreases rows@.len() - i,
    {
        assert(s[i as int].name == rows@[i as int].name@);
        i = i + 1;
    }
    if i < rows.len() {
        assert(s[i as int].name == rows@[i as int].name@);
    }
    rows.insert(i, r);
    assert(rows.deep_view() =~= s.insert(i as int, v));
}

/// The rows of the first `n` state directories, by name.
pub open spec fn scanned(dirs: Seq<StateDirView>, running: Seq<Seq<u8>>, now: u64, n: int) -> Seq<RowView>
    decreases n,
{
    if n <= 0 {
        Seq::empty()
    } else {
        with_row(scanned(dirs, running, now, n - 1), row_of(dirs[n - 1], running, now))
    }
}

/// Every state directory as a row, by name. `running` are the state directories VMs are up on.
pub fn scan(dirs: &Vec<StateDir>, running: &Vec<HostPath>, now: u64) -> (r: Vec<Row>)
    ensures
        r.deep_view() == scanned(dirs.deep_view(), running.deep_view(), now, dirs@.len() as int),
{
    let mut rows: Vec<Row> = Vec::new();
    let mut i: usize = 0;
    assert(rows.deep_view() =~= Seq::empty());
    while i < dirs.len()
        invariant
            i <= dirs@.len(),
            rows.deep_view() == scanned(dirs.deep_view(), running.deep_view(), now, i as int),
        decreases dirs@.len() - i,
    {
        assert(dirs.deep_view()[i as int] == dirs@[i as int].deep_view());
        add_row(&mut rows, row(&dirs[i], running, now));
        i = i + 1;
    }
    rows
}

/// Every environment this host keeps state for, given `XDG_STATE_HOME`, `HOME` and what is
/// under the state base they name.
pub fn state(
    state_home: &Option<HostPath>,
    home: &Option<HostPath>,
    dirs: &Vec<StateDir>,
    running: &Vec<HostPath>,
    now: u64,
) -> (r: Result<Vec<Row>, Error>)
    ensures
        match r {
            Ok(rows) => {
                &&& state_base(state_home.deep_view(), home.deep_view()) is Ok
                &&& rows.deep_view() == scanned(dirs.deep_view(), running.deep_view(), now, dirs@.len() as int)
            },
            Err(e) => state_base(state_home.deep_view(), home.deep_view()) == Err::<Seq<u8>, Seq<char>>(
                e.deep_view(),
            ),
        },
{
    let _ = dev_state_base(state_home, home)?;
    Ok(scan(dirs, running, now))
}

/// A top-level entry of a state directory, for the listing `gc` prints before it removes.
#[derive(Debug)]
pub struct Entry {
    pub name: String,
    pub size_bytes: u64,
}

pub struct EntryView {
    pub name: Seq<char>,
    pub size_bytes: u64,
}

impl DeepView for Entry {
    type V = EntryView;

    open spec fn deep_view(&self) -> EntryView {
        EntryView { name: self.name@, size_bytes: self.size_bytes }
    }
}

/// An entry as a directory lists it.
#[derive(Debug)]
pub struct Listed {
    pub name: Vec<u8>,
    pub socket: bool,
    pub size_bytes: u64,
}

pub struct ListedView {
    pub name: Seq<u8>,
    pub socket: bool,
    pub size_bytes: u64,
}

impl DeepView for Listed {
    type V = ListedView;

    open spec fn deep_view(&self) -> ListedView {
        ListedView { name: self.name@, socket: self.socket, size_bytes: self.size_bytes }
    }
}

/// The entry is one that a running VM owns: a log, or a socket it listens on.
pub open spec fn machine_owned(e: ListedView) -> bool {
    e.socket || ends(lossy_text(e.name), ".log"@)
}

/// The first place from `from` on whose name sorts after `name`, or the length.
pub open spec fn entry_place(v: Seq<EntryView>, name: Seq<char>, from: int) -> int
    decreases v.len() - from,
{
    if from < 0 || from >= v.len() {
        v.len() as int
    } else if before(name, v[from].name) {
        from
    } else {
        entry_place(v, name, from + 1)
    }
}

/// What removing a directory with the first `n` of these entries destroys, by name.
pub open spec fn contents_of(v: Seq<ListedView>, n: int) -> Seq<EntryView>
    decreases n,
{
    if n <= 0 {
        Seq::empty()
    } else {
        let had = contents_of(v, n - 1);
        if machine_owned(v[n - 1]) {
            had
        } else {
            let e = EntryView { name: lossy_text(v[n - 1].name), size_bytes: v[n - 1].size_bytes };
            had.insert(entry_place(had, e.name, 0), e)
        }
    }
}

/// A state directory's top-level entries, minus the ones a running VM owns rather than the
/// user. What is left is what removing the directory destroys.
pub fn contents(v: &Vec<Listed>) -> (r: Vec<Entry>)
    ensures
        r.deep_view() == contents_of(v.deep_view(), v@.len() as int),
{
    let mut out: Vec<Entry> = Vec::new();
    let mut i: usize = 0;
    assert(out.deep_view() =~= Seq::empty());
    while i < v.len()
        invariant
            i <= v@.len(),
            out.deep_view() == contents_of(v.deep_view(), i as int),
        decreases v@.len() - i,
    {
        assert(v.deep_view()[i as int] == v@[i as int].deep_view());
        let name = crate::path::lossy(&v[i].name);
        if !v[i].socket && !ends_with(name.as_str(), ".log") {
            let ghost had = out.deep_view();
            let mut at: usize = 0;
            while at < out.len() && !is_before(name.as_str(), out[at].name.as_str())
                invariant
                    at <= out@.len(),
                    had == out.deep_view(),
                    entry_place(had, name@, at as int) == entry_place(had, name@, 0),
                decreases out@.len() - at,
            {
                assert(had[at as int].name == out@[at as int].name@);
                at = at + 1;
            }
            if at < out.len() {
                assert(had[at as int].name == out@[at as int].name@);
            }
            let e = Entry { name, size_bytes: v[i].size_bytes };
            let ghost ev = e.deep_view();
            out.insert(at, e);
            assert(out.deep_view() =~= had.insert(at as int, ev));
        }
        i = i + 1;
    }
    out
}

/// The width the first `n` lines need for a column: that of the widest cell.
pub open spec fn widest(lines: Seq<Seq<Seq<char>>>, column: int, n: int) -> int
    decreases n,
{
    if n <= 0 {
        0
    } else {
        let w = widest(lines, column, n - 1);
        if column < lines[n - 1].len() && lines[n - 1][column].len() > w {
            lines[n - 1][column].len() as int
        } else {
            w
        }
    }
}

/// A line of a table: its cells, each as wide as its column, two spaces apart, with the
/// trailing padding trimmed.
pub open spec fn table_line(lines: Seq<Seq<Seq<char>>>, line: Seq<Seq<char>>) -> Seq<char> {
    trimmed_end(
        joined(Seq::new(line.len(), |i: int| padded(line[i], widest(lines, i, lines.len() as int))), "  "@),
    )
}

/// The first `n` lines of a table.
pub open spec fn table_upto(lines: Seq<Seq<Seq<char>>>, n: int) -> Seq<char>
    decreases n,
{
    if n <= 0 {
        Seq::empty()
    } else {
        table_upto(lines, n - 1) + table_line(lines, lines[n - 1]) + "\n"@
    }
}

/// A table under its headers.
pub open spec fn table_shown(headers: Seq<Seq<char>>, rows: Seq<Seq<Seq<char>>>) -> Seq<char> {
    let lines = seq![headers] + rows;
    table_upto(lines, lines.len() as int)
}

fn column_width(lines: &Vec<Vec<String>>, column: usize) -> (r: usize)
    ensures
        r == widest(lines.deep_view(), column as int, lines@.len() as int),
{
    let ghost d = lines.deep_view();
    let mut w: usize = 0;
    let mut i: usize = 0;
    while i < lines.len()
        invariant
            i <= lines@.len(),
            d == lines.deep_view(),
            w == widest(d, column as int, i as int),
        decreases lines@.len() - i,
    {
        assert(d[i as int] == lines@[i as int].deep_view());
        if column < lines[i].len() {
            assert(d[i as int][column as int] == lines@[i as int]@[column as int]@);
            let seen: usize = chars_of(lines[i][column].as_str()).len();
            if seen > w {
                w = seen;
            }
        }
        i = i + 1;
    }
    w
}

/// The padded columns the dev listings share: each column is as wide as its widest cell, header
/// included, columns are two spaces apart, and a line's trailing padding is trimmed. A row
/// shorter than the header keeps the columns it has; a longer one widens the table.
pub fn table(headers: Vec<String>, rows: Vec<Vec<String>>) -> (r: String)
    ensures
        r@ == table_shown(headers.deep_view(), rows.deep_view()),
{
    let ghost h = headers.deep_view();
    let ghost b = rows.deep_view();
    let ghost all = seq![h] + b;
    let mut lines: Vec<Vec<String>> = rows;
    lines.insert(0, headers);
    assert(lines.deep_view() =~= all);
    let mut widths: Vec<usize> = Vec::new();
    let mut out = String::new();
    let mut i: usize = 0;
    while i < lines.len()
        invariant
            i <= lines@.len(),
            all == lines.deep_view(),
            forall|j: int| 0 <= j < widths@.len() ==> widths@[j] == widest(all, j, all.len() as int),
            out@ == table_upto(all, i as int),
        decreases lines@.len() - i,
    {
        let line = &lines[i];
        assert(all[i as int] == line.deep_view());
        let ghost cells = Seq::new(
            line.deep_view().len(),
            |c: int| padded(line.deep_view()[c], widest(all, c, all.len() as int)),
        );
        let mut shown: Vec<String> = Vec::new();
        let mut c: usize = 0;
        assert(shown.deep_view() =~= cells.take(0));
        while c < line.len()
            invariant
                c <= line@.len(),
                all == lines.deep_view(),
                forall|j: int| 0 <= j < widths@.len() ==> widths@[j] == widest(all, j, all.len() as int),
                cells == Seq::new(
                    line.deep_view().len(),
                    |c: int| padded(line.deep_view()[c], widest(all, c, all.len() as int)),
                ),
                shown.deep_view() == cells.take(c as int),
            decreases line@.len() - c,
        {
            assert(line.deep_view()[c as int] == line@[c as int]@);
            let w: usize = if c < widths.len() {
                widths[c]
            } else {
                column_width(&lines, c)
            };
            if c == widths.len() {
                widths.push(w);
            }
            put(&mut shown, pad(line[c].as_str(), w));
            assert(shown.deep_view() =~= cells.take(c + 1));
            c = c + 1;
        }
        assert(shown.deep_view() =~= cells);
        out.append(trim_end(join(&shown, "  ").as_str()).as_str());
        out.append("\n");
        i = i + 1;
    }
    out
}

/// A size that was measured, or `-` where there is none to show.
pub open spec fn size_shown(size: Option<u64>) -> Seq<char> {
    match size {
        Some(n) => bytes_shown(n),
        None => "-"@,
    }
}

pub fn fmt_size(size: Option<u64>) -> (r: String)
    ensures
        r@ == size_shown(size),
{
    match size {
        Some(n) => fmt_bytes(n),
        None => "-".to_owned(),
    }
}

/// The first two words of what a creator recorded.
pub open spec fn creator_shown(created_by: Seq<char>) -> Seq<char> {
    let w = words_of(created_by);
    joined(
        if w.len() < 2 {
            w
        } else {
            w.take(2)
        },
        " "@,
    )
}

/// The creator, shortened to the release: what was recorded has a commit behind it, which would
/// double the column's width without telling the reader anything.
pub fn short_creator(created_by: &str) -> (r: String)
    ensures
        r@ == creator_shown(created_by@),
{
    let mut w = words(created_by);
    let ghost d = w.deep_view();
    assert(w@.len() == d.len());
    if w.len() > 2 {
        w.truncate(2);
        assert(w.deep_view() =~= d.take(2));
    }
    assert(d.len() == 2 ==> d.take(2) =~= d);
    join(&w, " ")
}

/// The labels of the flags.
pub open spec fn flag_labels(flags: Seq<Flag>) -> Seq<Seq<char>> {
    Seq::new(flags.len(), |i: int| flags[i].said())
}

/// The cells of a row.
pub open spec fn row_cells(r: RowView) -> Seq<Seq<char>> {
    seq![
        r.name,
        match r.workspace {
            Some(w) => lossy_text(w),
            None => "?"@,
        },
        match r.environment {
            Some(e) => e,
            None => "?"@,
        },
        r.status.said(),
        match r.created_by {
            Some(by) => creator_shown(by),
            None => ""@,
        },
        match r.age_secs {
            Some(n) => uptime_shown(n),
            None => ""@,
        },
        size_shown(r.size_bytes),
        joined(flag_labels(r.flags), ", "@),
    ]
}

fn workspace_or(workspace: &Option<HostPath>, none: &str) -> (r: String)
    ensures
        r@ == match workspace.deep_view() {
            Some(w) => lossy_text(w),
            None => none@,
        },
{
    match workspace {
        Some(w) => w.display(),
        None => none.to_owned(),
    }
}

fn cells(r: &Row) -> (v: Vec<String>)
    ensures
        v.deep_view() == row_cells(r.deep_view()),
{
    let ghost d = r.deep_view();
    let mut labels: Vec<String> = Vec::new();
    let mut i: usize = 0;
    let ghost all = flag_labels(d.flags);
    assert(labels.deep_view() =~= all.take(0));
    while i < r.flags.len()
        invariant
            i <= r.flags@.len(),
            all == flag_labels(r.flags.deep_view()),
            labels.deep_view() == all.take(i as int),
        decreases r.flags@.len() - i,
    {
        put(&mut labels, r.flags[i].label().to_owned());
        assert(labels.deep_view() =~= all.take(i + 1));
        i = i + 1;
    }
    assert(labels.deep_view() =~= all);
    let mut v: Vec<String> = Vec::new();
    put(&mut v, r.name.clone());
    put(&mut v, workspace_or(&r.workspace, "?"));
    put(
        &mut v,
        match &r.environment {
            Some(e) => e.clone(),
            None => "?".to_owned(),
        },
    );
    put(&mut v, r.status.label().to_owned());
    put(
        &mut v,
        match &r.created_by {
            Some(by) => short_creator(by.as_str()),
            None => "".to_owned(),
        },
    );
    put(
        &mut v,
        match r.age_secs {
            Some(n) => fmt_uptime(n),
            None => "".to_owned(),
        },
    );
    put(&mut v, fmt_size(r.size_bytes));
    put(&mut v, join(&labels, ", "));
    assert(v.deep_view() =~= row_cells(d));
    v
}

/// The headers of `vk dev list`.
pub open spec fn headers() -> Seq<Seq<char>> {
    seq!["NAME"@, "WORKSPACE"@, "ENV"@, "STATUS"@, "CREATED BY"@, "LAST BOOT"@, "ON DISK"@, "FLAGS"@]
}

/// `vk dev list` as text.
pub open spec fn rows_shown(rows: Seq<RowView>) -> Seq<char> {
    if rows.len() == 0 {
        "no dev environment state on this host\n"@
    } else {
        table_shown(headers(), Seq::new(rows.len(), |i: int| row_cells(rows[i])))
    }
}

/// `vk dev list` as text: one line per state directory.
pub fn render(rows: &Vec<Row>) -> (r: String)
    ensures
        r@ == rows_shown(rows.deep_view()),
{
    if rows.is_empty() {
        return "no dev environment state on this host\n".to_owned();
    }
    let ghost all = Seq::new(rows.deep_view().len(), |i: int| row_cells(rows.deep_view()[i]));
    let mut lines: Vec<Vec<String>> = Vec::new();
    let mut i: usize = 0;
    assert(lines.deep_view() =~= all.take(0));
    while i < rows.len()
        invariant
            i <= rows@.len(),
            all == Seq::new(rows.deep_view().len(), |i: int| row_cells(rows.deep_view()[i])),
            lines.deep_view() == all.take(i as int),
        decreases rows@.len() - i,
    {
        assert(rows.deep_view()[i as int] == rows@[i as int].deep_view());
        put(&mut lines, cells(&rows[i]));
        assert(lines.deep_view() =~= all.take(i + 1));
        i = i + 1;
    }
    assert(lines.deep_view() =~= all);
    let mut h: Vec<String> = Vec::new();
    put(&mut h, "NAME".to_owned());
    put(&mut h, "WORKSPACE".to_owned());
    put(&mut h, "ENV".to_owned());
    put(&mut h, "STATUS".to_owned());
    put(&mut h, "CREATED BY".to_owned());
    put(&mut h, "LAST BOOT".to_owned());
    put(&mut h, "ON DISK".to_owned());
    put(&mut h, "FLAGS".to_owned());
    assert(h.deep_view() =~= headers());
    table(h, lines)
}

/// The first place from `from` on whose row has that name, or the length.
pub open spec fn row_named(rows: Seq<RowView>, name: Seq<char>, from: int) -> int
    decreases rows.len() - from,
{
    if from < 0 || from >= rows.len() {
        rows.len() as int
    } else if rows[from].name == name {
        from
    } else {
        row_named(rows, name, from + 1)
    }
}

fn find_row(rows: &Vec<Row>, name: &str) -> (r: usize)
    ensures
        r == row_named(rows.deep_view(), name@, 0),
        r <= rows@.len(),
{
    let ghost s = rows.deep_view();
    let mut i: usize = 0;
    while i < rows.len()
        invariant
            i <= rows@.len(),
            s == rows.deep_view(),
            row_named(s, name@, i as int) == row_named(s, name@, 0),
        decreases rows@.len() - i,
    {
        assert(s[i as int].name == rows@[i as int].name@);
        if same(rows[i].name.as_str(), name) {
            return i;
        }
        i = i + 1;
    }
    i
}

/// The selection with one row more, in name order, unless one of that name is in it.
pub open spec fn selected_too(sel: Seq<RowView>, r: RowView) -> Seq<RowView> {
    if row_named(sel, r.name, 0) < sel.len() {
        sel
    } else {
        with_row(sel, r)
    }
}

fn select_too(sel: &mut Vec<Row>, r: &Row)
    ensures
        final(sel).deep_view() == selected_too(old(sel).deep_view(), r.deep_view()),
{
    let at: usize = find_row(sel, r.name.as_str());
    if at >= sel.len() {
        add_row(sel, r.copy());
    }
}

/// The rows of the first `n` names.
pub open spec fn named_rows(rows: Seq<RowView>, names: Seq<Seq<char>>, n: int) -> Result<Seq<RowView>, Seq<char>>
    decreases n,
{
    if n <= 0 {
        Ok(Seq::empty())
    } else {
        match named_rows(rows, names, n - 1) {
            Err(e) => Err(e),
            Ok(sel) => {
                let at = row_named(rows, names[n - 1], 0);
                if at < rows.len() {
                    Ok(selected_too(sel, rows[at]))
                } else {
                    Err("no dev environment state named "@ + names[n - 1] + " (`vk dev list` names them)"@)
                }
            },
        }
    }
}

/// The selection with the stale ones among the first `n` rows.
pub open spec fn with_stale(rows: Seq<RowView>, sel: Seq<RowView>, n: int) -> Seq<RowView>
    decreases n,
{
    if n <= 0 {
        sel
    } else {
        let had = with_stale(rows, sel, n - 1);
        if rows[n - 1].is_stale() {
            selected_too(had, rows[n - 1])
        } else {
            had
        }
    }
}

/// The first running row from `from` on, or the length.
pub open spec fn running_row(rows: Seq<RowView>, from: int) -> int
    decreases rows.len() - from,
{
    if from < 0 || from >= rows.len() {
        rows.len() as int
    } else if rows[from].status == Status::Running {
        from
    } else {
        running_row(rows, from + 1)
    }
}

/// What is said of a row that cannot go because it is running.
pub open spec fn is_up(r: RowView) -> Seq<char> {
    r.name + " is running — `vk dev stop` in "@ + match r.workspace {
        Some(w) => lossy_text(w),
        None => "its workspace"@,
    } + " first"@
}

fn up_error(r: &Row) -> (e: Error)
    ensures
        e.deep_view() == is_up(r.deep_view()),
{
    let w = workspace_or(&r.workspace, "its workspace");
    error(crate::text::cat4(r.name.as_str(), " is running — `vk dev stop` in ", w.as_str(), " first"))
}

/// Which rows a `gc` takes.
pub open spec fn gc_selected(rows: Seq<RowView>, names: Seq<Seq<char>>, all_stale: bool) -> Result<
    Seq<RowView>,
    Seq<char>,
> {
    if names.len() == 0 && !all_stale {
        Err("name an environment to remove (`vk dev list`), or pass --all-stale"@)
    } else {
        match named_rows(rows, names, names.len() as int) {
            Err(e) => Err(e),
            Ok(named) => {
                let sel = if all_stale {
                    with_stale(rows, named, rows.len() as int)
                } else {
                    named
                };
                let up = running_row(sel, 0);
                if up < sel.len() {
                    Err(is_up(sel[up]))
                } else {
                    Ok(sel)
                }
            },
        }
    }
}

proof fn lemma_named_kept(rows: Seq<RowView>, names: Seq<Seq<char>>, n: int, m: int)
    requires
        n <= m,
        named_rows(rows, names, n) is Err,
    ensures
        named_rows(rows, names, m) == named_rows(rows, names, n),
    decreases m - n,
{
    if n < m {
        if n <= 0 {
            assert(false);
        }
        lemma_named_kept(rows, names, n, m - 1);
    }
}

/// Which rows a `gc` takes: the ones named and, under `--all-stale`, every one whose checkout
/// is gone or that never recorded a boot. A running environment is never removed; naming it is
/// the caller's mistake to fix rather than something to skip quietly.
pub fn select_gc(rows: &Vec<Row>, names: &Vec<String>, all_stale: bool) -> (r: Result<Vec<Row>, Error>)
    ensures
        outcome(r) == gc_selected(rows.deep_view(), names.deep_view(), all_stale),
{
    let ghost d = rows.deep_view();
    let ghost ns = names.deep_view();
    if names.is_empty() && !all_stale {
        return Err(error("name an environment to remove (`vk dev list`), or pass --all-stale".to_owned()));
    }
    let mut sel: Vec<Row> = Vec::new();
    let mut i: usize = 0;
    assert(sel.deep_view() =~= Seq::empty());
    while i < names.len()
        invariant
            i <= names@.len(),
            d == rows.deep_view(),
            ns == names.deep_view(),
            names@.len() > 0 || all_stale,
            named_rows(d, ns, i as int) == Ok::<Seq<RowView>, Seq<char>>(sel.deep_view()),
        decreases names@.len() - i,
    {
        assert(ns[i as int] == names@[i as int]@);
        let at: usize = find_row(rows, names[i].as_str());
        if at >= rows.len() {
            let e = error(
                cat3("no dev environment state named ", names[i].as_str(), " (`vk dev list` names them)"),
            );
            proof {
                lemma_named_kept(d, ns, i + 1, ns.len() as int);
            }
            return Err(e);
        }
        assert(d[at as int] == rows@[at as int].deep_view());
        select_too(&mut sel, &rows[at]);
        i = i + 1;
    }
    if all_stale {
        let ghost named = sel.deep_view();
        let mut j: usize = 0;
        while j < rows.len()
            invariant
                j <= rows@.len(),
                d == rows.deep_view(),
                sel.deep_view() == with_stale(d, named, j as int),
            decreases rows@.len() - j,
        {
            assert(d[j as int] == rows@[j as int].deep_view());
            if rows[j].stale() {
                select_too(&mut sel, &rows[j]);
            }
            j = j + 1;
        }
    }
    let ghost s = sel.deep_view();
    let mut k: usize = 0;
    while k < sel.len()
        invariant
            k <= sel@.len(),
            s == sel.deep_view(),
            running_row(s, k as int) == running_row(s, 0),
            ns.len() > 0 || all_stale,
            named_rows(d, ns, ns.len() as int) is Ok,
            s == if all_stale {
                with_stale(d, named_rows(d, ns, ns.len() as int)->Ok_0, d.len() as int)
            } else {
                named_rows(d, ns, ns.len() as int)->Ok_0
            },
            d == rows.deep_view(),
            ns == names.deep_view(),
        decreases sel@.len() - k,
    {
        assert(s[k as int] == sel@[k as int].deep_view());
        if sel[k].status == Status::Running {
            return Err(up_error(&sel[k]));
        }
        k = k + 1;
    }
    Ok(sel)
}

/// The first `n` entries as a preview lists them.
pub open spec fn entries_shown(v: Seq<EntryView>, n: int) -> Seq<char>
    decreases n,
{
    if n <= 0 {
        Seq::empty()
    } else {
        entries_shown(v, n - 1) + ("    "@ + v[n - 1].name + "  "@ + bytes_shown(v[n - 1].size_bytes) + "\n"@)
    }
}

/// What a preview says of the first `n` rows.
pub open spec fn preview_upto(sel: Seq<RowView>, contents: Seq<Seq<EntryView>>, n: int) -> Seq<char>
    decreases n,
{
    if n <= 0 {
        "would remove "@ + decimal(sel.len()) + " environment(s):\n"@
    } else {
        preview_upto(sel, contents, n - 1) + ("  "@ + sel[n - 1].name + "  "@ + match sel[n - 1].workspace {
            Some(w) => lossy_text(w),
            None => "?"@,
        } + "  "@ + size_shown(sel[n - 1].size_bytes) + "\n"@) + entries_shown(
            contents[n - 1],
            contents[n - 1].len() as int,
        )
    }
}

/// What a `gc` would destroy: each environment, with the top-level entries of its state
/// directory and their sizes, so the durable ones are visible before anything goes.
pub fn preview(selected: &Vec<Row>, contents: &Vec<Vec<Entry>>) -> (r: String)
    requires
        contents@.len() == selected@.len(),
    ensures
        r@ == preview_upto(selected.deep_view(), contents.deep_view(), selected@.len() as int),
{
    let ghost s = selected.deep_view();
    let ghost c = contents.deep_view();
    let n: usize = selected.len();
    let count = to_decimal(n as u64);
    let mut out = cat3("would remove ", count.as_str(), " environment(s):\n");
    let mut i: usize = 0;
    while i < selected.len()
        invariant
            i <= selected@.len(),
            contents@.len() == selected@.len(),
            s == selected.deep_view(),
            c == contents.deep_view(),
            out@ == preview_upto(s, c, i as int),
        decreases selected@.len() - i,
    {
        let row = &selected[i];
        assert(s[i as int] == row.deep_view());
        let w = workspace_or(&row.workspace, "?");
        let size = fmt_size(row.size_bytes);
        let ghost had = out@;
        out.append(
            cat7("  ", row.name.as_str(), "  ", w.as_str(), "  ", size.as_str(), "\n").as_str(),
        );
        let list = &contents[i];
        let ghost l = list.deep_view();
        assert(c[i as int] == l);
        let ghost head = out@;
        assert(out@ =~= head + entries_shown(l, 0));
        let mut j: usize = 0;
        while j < list.len()
            invariant
                j <= list@.len(),
                l == list.deep_view(),
                out@ == head + entries_shown(l, j as int),
            decreases list@.len() - j,
        {
            assert(l[j as int] == list@[j as int].deep_view());
            let size = fmt_bytes(list[j].size_bytes);
            out.append(cat5("    ", list[j].name.as_str(), "  ", size.as_str(), "\n").as_str());
            assert(out@ =~= head + entries_shown(l, j + 1));
            j = j + 1;
        }
        i = i + 1;
    }
    out
}

/// What a removal found of one state directory: who holds its lock, where the lock could not be
/// taken, and its canonical path, where it has one.
#[derive(Debug)]
pub struct Held {
    pub locked: bool,
    pub holder: Option<String>,
    pub canonical: Option<HostPath>,
}

pub struct HeldView {
    pub locked: bool,
    pub holder: Option<Seq<char>>,
    pub canonical: Option<Seq<u8>>,
}

impl DeepView for Held {
    type V = HeldView;

    open spec fn deep_view(&self) -> HeldView {
        HeldView {
            locked: self.locked,
            holder: self.holder.deep_view(),
            canonical: self.canonical.deep_view(),
        }
    }
}

/// The first row from `from` on whose lock somebody else holds, or the length.
pub open spec fn held_row(held: Seq<HeldView>, from: int) -> int
    decreases held.len() - from,
{
    if from < 0 || from >= held.len() {
        held.len() as int
    } else if !held[from].locked {
        from
    } else {
        held_row(held, from + 1)
    }
}

/// The first row from `from` on that a VM is up on, or the length.
pub open spec fn up_row(sel: Seq<RowView>, held: Seq<HeldView>, running: Seq<Seq<u8>>, from: int) -> int
    decreases sel.len() - from,
{
    if from < 0 || from >= sel.len() {
        sel.len() as int
    } else if runs_on(running, sel[from].dir, held[from].canonical) {
        from
    } else {
        up_row(sel, held, running, from + 1)
    }
}

/// Why the selected directories cannot be removed, if they cannot.
pub open spec fn removal_refused(sel: Seq<RowView>, held: Seq<HeldView>, running: Seq<Seq<u8>>) -> Option<Seq<char>> {
    let h = held_row(held, 0);
    let u = up_row(sel, held, running, 0);
    if h < held.len() {
        Some(
            sel[h].name + " is in use by "@ + match held[h].holder {
                Some(who) => who,
                None => "another vk"@,
            } + " — try again when it is done"@,
        )
    } else if u < sel.len() {
        Some(is_up(sel[u]))
    } else {
        None
    }
}

/// The directories of the rows.
pub open spec fn row_dirs(sel: Seq<RowView>) -> Seq<Seq<u8>> {
    Seq::new(sel.len(), |i: int| sel[i].dir)
}

/// The state directories to remove, each with whatever it still publishes stopped first. Every directory is locked first: a
/// lock somebody else has is a boot in flight or a live VM, and the whole operation refuses
/// rather than removing what came before it. What is running is read again under the locks,
/// since a boot may have started after the selection was made.
pub fn remove(selected: &Vec<Row>, held: &Vec<Held>, running: &Vec<HostPath>) -> (r: Result<Vec<HostPath>, Error>)
    requires
        held@.len() == selected@.len(),
    ensures
        match r {
            Ok(dirs) => {
                &&& removal_refused(selected.deep_view(), held.deep_view(), running.deep_view()) is None
                &&& dirs.deep_view() == row_dirs(selected.deep_view())
            },
            Err(e) => removal_refused(selected.deep_view(), held.deep_view(), running.deep_view()) == Some(
                e.deep_view(),
            ),
        },
{
    let ghost s = selected.deep_view();
    let ghost h = held.deep_view();
    let mut i: usize = 0;
    while i < held.len()
        invariant
            i <= held@.len(),
            held@.len() == selected@.len(),
            s == selected.deep_view(),
            h == held.deep_view(),
            held_row(h, i as int) == held_row(h, 0),
        decreases held@.len() - i,
    {
        assert(h[i as int] == held@[i as int].deep_view());
        assert(s[i as int] == selected@[i as int].deep_view());
        if !held[i].locked {
            let who = match &held[i].holder {
                Some(w) => w.as_str(),
                None => "another vk",
            };
            return Err(
                error(
                    crate::text::cat4(
                        selected[i].name.as_str(),
                        " is in use by ",
                        who,
                        " — try again when it is done",
                    ),
                ),
            );
        }
        i = i + 1;
    }
    let mut j: usize = 0;
    while j < selected.len()
        invariant
            j <= selected@.len(),
            held@.len() == selected@.len(),
            s == selected.deep_view(),
            h == held.deep_view(),
            held_row(h, 0) >= h.len(),
            up_row(s, h, running.deep_view(), j as int) == up_row(s, h, running.deep_view(), 0),
        decreases selected@.len() - j,
    {
        assert(h[j as int] == held@[j as int].deep_view());
        assert(s[j as int] == selected@[j as int].deep_view());
        if is_running_on(running, &selected[j].dir, &held[j].canonical) {
            return Err(up_error(&selected[j]));
        }
        j = j + 1;
    }
    let ghost all = row_dirs(s);
    let mut dirs: Vec<HostPath> = Vec::new();
    let mut k: usize = 0;
    assert(dirs.deep_view() =~= all.take(0));
    while k < selected.len()
        invariant
            k <= selected@.len(),
            s == selected.deep_view(),
            all == row_dirs(s),
            dirs.deep_view() == all.take(k as int),
        decreases selected@.len() - k,
    {
        assert(s[k as int] == selected@[k as int].deep_view());
        put(&mut dirs, selected[k].dir.copy());
        assert(dirs.deep_view() =~= all.take(k + 1));
        k = k + 1;
    }
    assert(dirs.deep_view() =~= all);
    Ok(dirs)
}


/// What is said of a directory that was removed.
pub fn removed(row: &Row) -> (r: String)
    ensures
        r@ == "removed "@ + row.deep_view().name + " ("@ + size_shown(row.deep_view().size_bytes) + ")\n"@,
{
    let size = fmt_size(row.size_bytes);
    cat5("removed ", row.name.as_str(), " (", size.as_str(), ")\n")
}

/// The spellings of the flags.
pub open spec fn flag_spellings(flags: Seq<Flag>) -> Seq<Seq<char>> {
    Seq::new(flags.len(), |i: int| flags[i].spelling())
}

pub open spec fn opt_number_json(n: Option<u64>) -> JsonTree {
    match n {
        Some(n) => number_json(n),
        None => JsonTree::Null,
    }
}

pub open spec fn opt_path_json(p: Option<Seq<u8>>) -> JsonTree {
    match p {
        Some(p) => path_json(p),
        None => JsonTree::Null,
    }
}

/// A row as JSON: its size is absent rather than null where it was not measured.
pub open spec fn row_json(r: RowView) -> JsonTree {
    match r.size_bytes {
        Some(n) => object(
            seq![
                "name"@,
                "dir"@,
                "workspace"@,
                "environment"@,
                "status"@,
                "created_by"@,
                "booted_secs"@,
                "age_secs"@,
                "size_bytes"@,
                "flags"@,
            ],
            seq![
                text_json(r.name),
                path_json(r.dir),
                opt_path_json(r.workspace),
                opt_json(r.environment),
                text_json(r.status.spelling()),
                opt_json(r.created_by),
                opt_number_json(r.booted_secs),
                opt_number_json(r.age_secs),
                number_json(n),
                texts_json(flag_spellings(r.flags)),
            ],
        ),
        None => object(
            seq![
                "name"@,
                "dir"@,
                "workspace"@,
                "environment"@,
                "status"@,
                "created_by"@,
                "booted_secs"@,
                "age_secs"@,
                "flags"@,
            ],
            seq![
                text_json(r.name),
                path_json(r.dir),
                opt_path_json(r.workspace),
                opt_json(r.environment),
                text_json(r.status.spelling()),
                opt_json(r.created_by),
                opt_number_json(r.booted_secs),
                opt_number_json(r.age_secs),
                texts_json(flag_spellings(r.flags)),
            ],
        ),
    }
}

/// The paths of a row are text.
pub open spec fn row_paths_text(r: RowView) -> bool {
    valid_utf8(r.dir) && (r.workspace is Some ==> valid_utf8(r.workspace->0))
}

pub open spec fn rows_json(rows: Seq<RowView>) -> JsonTree {
    JsonTree::Array(Seq::new(rows.len(), |i: int| row_json(rows[i])))
}

proof fn lemma_rows_sound(rows: Seq<RowView>)
    ensures
        json_sound(rows_json(rows)),
{
    reveal_strlit("name");
    reveal_strlit("dir");
    reveal_strlit("workspace");
    reveal_strlit("environment");
    reveal_strlit("status");
    reveal_strlit("created_by");
    reveal_strlit("booted_secs");
    reveal_strlit("age_secs");
    reveal_strlit("size_bytes");
    reveal_strlit("flags");
    let with = seq![
        "name"@,
        "dir"@,
        "workspace"@,
        "environment"@,
        "status"@,
        "created_by"@,
        "booted_secs"@,
        "age_secs"@,
        "size_bytes"@,
        "flags"@,
    ];
    let bare = seq![
        "name"@,
        "dir"@,
        "workspace"@,
        "environment"@,
        "status"@,
        "created_by"@,
        "booted_secs"@,
        "age_secs"@,
        "flags"@,
    ];
    lemma_told_apart(with);
    lemma_told_apart(bare);
    let s = Seq::new(rows.len(), |i: int| row_json(rows[i]));
    assert forall|i: int| 0 <= i < s.len() implies json_sound(#[trigger] s[i]) by {
        let r = rows[i];
        lemma_texts_sound(flag_spellings(r.flags));
        match r.size_bytes {
            Some(n) => lemma_object_sound(
                with,
                seq![
                    text_json(r.name),
                    path_json(r.dir),
                    opt_path_json(r.workspace),
                    opt_json(r.environment),
                    text_json(r.status.spelling()),
                    opt_json(r.created_by),
                    opt_number_json(r.booted_secs),
                    opt_number_json(r.age_secs),
                    number_json(n),
                    texts_json(flag_spellings(r.flags)),
                ],
            ),
            None => lemma_object_sound(
                bare,
                seq![
                    text_json(r.name),
                    path_json(r.dir),
                    opt_path_json(r.workspace),
                    opt_json(r.environment),
                    text_json(r.status.spelling()),
                    opt_json(r.created_by),
                    opt_number_json(r.booted_secs),
                    opt_number_json(r.age_secs),
                    texts_json(flag_spellings(r.flags)),
                ],
            ),
        }
    }
    lemma_array_sound(s);
}

fn opt_number_value(n: Option<u64>) -> (r: Json)
    ensures
        r.deep_view() == opt_number_json(n),
{
    match n {
        Some(n) => number_value(n),
        None => Json::Null,
    }
}

fn row_value(r: &Row) -> (j: Result<Json, Error>)
    ensures
        match j {
            Ok(v) => row_paths_text(r.deep_view()) && v.deep_view() == row_json(r.deep_view()),
            Err(e) => !row_paths_text(r.deep_view()) && e.deep_view() == path_error(),
        },
{
    let ghost d = r.deep_view();
    let mut flags: Vec<String> = Vec::new();
    let mut i: usize = 0;
    let ghost all = flag_spellings(d.flags);
    assert(flags.deep_view() =~= all.take(0));
    while i < r.flags.len()
        invariant
            i <= r.flags@.len(),
            all == flag_spellings(r.flags.deep_view()),
            flags.deep_view() == all.take(i as int),
        decreases r.flags@.len() - i,
    {
        put(&mut flags, r.flags[i].as_str().to_owned());
        assert(flags.deep_view() =~= all.take(i + 1));
        i = i + 1;
    }
    assert(flags.deep_view() =~= all);
    let dir = path_value(&r.dir)?;
    let workspace = match &r.workspace {
        Some(w) => path_value(w)?,
        None => Json::Null,
    };
    let mut o: Vec<(String, Json)> = Vec::new();
    put(&mut o, ("name".to_owned(), text_value(r.name.as_str())));
    put(&mut o, ("dir".to_owned(), dir));
    put(&mut o, ("workspace".to_owned(), workspace));
    put(&mut o, ("environment".to_owned(), opt_value(&r.environment)));
    put(&mut o, ("status".to_owned(), text_value(r.status.as_str())));
    put(&mut o, ("created_by".to_owned(), opt_value(&r.created_by)));
    put(&mut o, ("booted_secs".to_owned(), opt_number_value(r.booted_secs)));
    put(&mut o, ("age_secs".to_owned(), opt_number_value(r.age_secs)));
    if let Some(n) = r.size_bytes {
        put(&mut o, ("size_bytes".to_owned(), number_value(n)));
    }
    put(&mut o, ("flags".to_owned(), texts_value(&flags)));
    assert(o.deep_view() =~= row_json(d)->Object_0);
    Ok(Json::Object(o))
}

/// The rows as `--json` prints them.
pub fn json(rows: &Vec<Row>) -> (r: Result<String, Error>)
    ensures
        match r {
            Ok(t) => {
                &&& forall|i: int| 0 <= i < rows@.len() ==> row_paths_text(#[trigger] rows.deep_view()[i])
                &&& t@ == json_pretty_shown(rows_json(rows.deep_view())) + "\n"@
            },
            Err(e) => {
                &&& exists|i: int| 0 <= i < rows@.len() && !row_paths_text(#[trigger] rows.deep_view()[i])
                &&& e.deep_view() == path_error()
            },
        },
{
    let ghost all = rows_json(rows.deep_view())->Array_0;
    let mut out: Vec<Json> = Vec::new();
    let mut i: usize = 0;
    assert(out.deep_view() =~= all.take(0));
    while i < rows.len()
        invariant
            i <= rows@.len(),
            all == rows_json(rows.deep_view())->Array_0,
            forall|j: int| 0 <= j < i ==> row_paths_text(#[trigger] rows.deep_view()[j]),
            out.deep_view() == all.take(i as int),
        decreases rows@.len() - i,
    {
        assert(rows.deep_view()[i as int] == rows@[i as int].deep_view());
        put(&mut out, row_value(&rows[i])?);
        assert(out.deep_view() =~= all.take(i + 1));
        i = i + 1;
    }
    assert(out.deep_view() =~= all);
    proof {
        lemma_rows_sound(rows.deep_view());
    }
    Ok(cat2(json_pretty(&Json::Array(out)).as_str(), "\n"))
}

/// The names stand in order.
pub open spec fn by_name(rows: Seq<RowView>) -> bool {
    forall|i: int, j: int| 0 <= i < j < rows.len() ==> !before((#[trigger] rows[j]).name, (#[trigger] rows[i]).name)
}

/// The names stand in order, none twice.
pub open spec fn by_name_once(rows: Seq<RowView>) -> bool {
    forall|i: int, j: int| 0 <= i < j < rows.len() ==> before((#[trigger] rows[i]).name, (#[trigger] rows[j]).name)
}

proof fn lemma_row_place(rows: Seq<RowView>, name: Seq<char>, from: int)
    requires
        0 <= from <= rows.len(),
    ensures
        from <= row_place(rows, name, from) <= rows.len(),
        row_place(rows, name, from) < rows.len() ==> before(name, rows[row_place(rows, name, from)].name),
        forall|j: int| from <= j < row_place(rows, name, from) ==> !before(name, (#[trigger] rows[j]).name),
    decreases rows.len() - from,
{
    if from < rows.len() && !before(name, rows[from].name) {
        lemma_row_place(rows, name, from + 1);
    }
}

proof fn lemma_row_named(rows: Seq<RowView>, name: Seq<char>, from: int)
    requires
        0 <= from <= rows.len(),
    ensures
        from <= row_named(rows, name, from) <= rows.len(),
        row_named(rows, name, from) < rows.len() ==> rows[row_named(rows, name, from)].name == name,
        forall|j: int| from <= j < row_named(rows, name, from) ==> (#[trigger] rows[j]).name != name,
    decreases rows.len() - from,
{
    if from < rows.len() && rows[from].name != name {
        lemma_row_named(rows, name, from + 1);
    }
}

proof fn lemma_with_row(rows: Seq<RowView>, r: RowView)
    ensures
        by_name(rows) ==> by_name(with_row(rows, r)),
        with_row(rows, r).to_multiset() == rows.to_multiset().insert(r),
        with_row(rows, r).contains(r),
        forall|x: RowView| with_row(rows, r).contains(x) <==> rows.contains(x) || x == r,
{
    let at = row_place(rows, r.name, 0);
    lemma_row_place(rows, r.name, 0);
    let w = with_row(rows, r);
    assert(w[at] == r);
    assert(w.remove(at) =~= rows);
    w.to_multiset_ensures();
    assert(rows.to_multiset().insert(r) =~= w.to_multiset());
    if by_name(rows) {
        assert forall|i: int, j: int| 0 <= i < j < w.len() implies !before(
            (#[trigger] w[j]).name,
            (#[trigger] w[i]).name,
        ) by {
            if j < at {
                assert(w[i] == rows[i] && w[j] == rows[j]);
            } else if j == at {
                assert(w[i] == rows[i]);
            } else if i < at {
                assert(w[i] == rows[i] && w[j] == rows[j - 1]);
            } else if i == at {
                assert(w[j] == rows[j - 1]);
                let first = rows[at];
                if before(rows[j - 1].name, r.name) {
                    lemma_before_transitive(rows[j - 1].name, r.name, first.name);
                    if j - 1 > at {
                        assert(!before(rows[j - 1].name, rows[at].name));
                    } else {
                        lemma_before_irreflexive(first.name);
                    }
                }
            } else {
                assert(w[i] == rows[i - 1] && w[j] == rows[j - 1]);
            }
        }
    }
    assert forall|x: RowView| w.contains(x) <==> rows.contains(x) || x == r by {
        if rows.contains(x) {
            let p = choose|p: int| 0 <= p < rows.len() && rows[p] == x;
            let q = if p < at { p } else { p + 1 };
            assert(w[q] == x);
        }
        if w.contains(x) {
            let q = choose|q: int| 0 <= q < w.len() && w[q] == x;
            if q < at {
                assert(rows[q] == x);
            } else if q > at {
                assert(rows[q - 1] == x);
            }
        }
    }
}

/// The rows of `n` state directories.
pub open spec fn rows_of(dirs: Seq<StateDirView>, running: Seq<Seq<u8>>, now: u64) -> Seq<RowView> {
    Seq::new(dirs.len(), |i: int| row_of(dirs[i], running, now))
}

/// A scan drops no state directory and adds none, and lists them by name.
pub proof fn law_scan_lists_every_directory(dirs: Seq<StateDirView>, running: Seq<Seq<u8>>, now: u64)
    ensures
        by_name(scanned(dirs, running, now, dirs.len() as int)),
        scanned(dirs, running, now, dirs.len() as int).to_multiset() == rows_of(dirs, running, now).to_multiset(),
{
    let all = rows_of(dirs, running, now);
    lemma_scanned(dirs, running, now, dirs.len() as int);
    assert(all.take(dirs.len() as int) =~= all);
}

proof fn lemma_scanned(dirs: Seq<StateDirView>, running: Seq<Seq<u8>>, now: u64, n: int)
    requires
        0 <= n <= dirs.len(),
    ensures
        by_name(scanned(dirs, running, now, n)),
        scanned(dirs, running, now, n).to_multiset() == rows_of(dirs, running, now).take(n).to_multiset(),
    decreases n,
{
    let all = rows_of(dirs, running, now);
    if n > 0 {
        lemma_scanned(dirs, running, now, n - 1);
        let r = row_of(dirs[n - 1], running, now);
        lemma_with_row(scanned(dirs, running, now, n - 1), r);
        assert(all.take(n) =~= all.take(n - 1).push(r));
        all.take(n - 1).to_multiset_ensures();
    } else {
        assert(scanned(dirs, running, now, n) =~= all.take(n));
    }
}

proof fn lemma_selected_too(sel: Seq<RowView>, r: RowView)
    requires
        by_name_once(sel),
    ensures
        by_name_once(selected_too(sel, r)),
        forall|x: RowView| sel.contains(x) ==> #[trigger] selected_too(sel, r).contains(x),
        forall|x: RowView| #[trigger] selected_too(sel, r).contains(x) ==> sel.contains(x) || x == r,
        exists|x: RowView| selected_too(sel, r).contains(x) && #[trigger] x.name == r.name,
{
    lemma_row_named(sel, r.name, 0);
    let p = row_named(sel, r.name, 0);
    let w = selected_too(sel, r);
    if p < sel.len() {
        assert(w.contains(sel[p]));
    } else {
        lemma_with_row(sel, r);
        let at = row_place(sel, r.name, 0);
        lemma_row_place(sel, r.name, 0);
        assert(w.contains(r));
        assert forall|i: int, j: int| 0 <= i < j < w.len() implies before(
            (#[trigger] w[i]).name,
            (#[trigger] w[j]).name,
        ) by {
            if j < at {
                assert(w[i] == sel[i] && w[j] == sel[j]);
            } else if j == at {
                assert(w[i] == sel[i]);
                lemma_before_total(sel[i].name, r.name);
            } else if i < at {
                assert(w[i] == sel[i] && w[j] == sel[j - 1]);
            } else if i == at {
                assert(w[j] == sel[j - 1]);
                if j - 1 > at {
                    lemma_before_transitive(r.name, sel[at].name, sel[j - 1].name);
                }
            } else {
                assert(w[i] == sel[i - 1] && w[j] == sel[j - 1]);
            }
        }
    }
}

/// The row is one of `rows` that the names, or `--all-stale`, ask for.
pub open spec fn asked_for(rows: Seq<RowView>, names: Seq<Seq<char>>, all_stale: bool, r: RowView) -> bool {
    rows.contains(r) && (names.contains(r.name) || (all_stale && r.is_stale()))
}

/// A row of that name is among those.
pub open spec fn has_named(sel: Seq<RowView>, name: Seq<char>) -> bool {
    exists|x: RowView| sel.contains(x) && #[trigger] x.name == name
}

proof fn lemma_named_rows(rows: Seq<RowView>, names: Seq<Seq<char>>, n: int)
    requires
        0 <= n <= names.len(),
        named_rows(rows, names, n) is Ok,
    ensures
        by_name_once(named_rows(rows, names, n)->Ok_0),
        forall|x: RowView| #[trigger] named_rows(rows, names, n)->Ok_0.contains(x) ==> asked_for(rows, names, false, x),
        forall|i: int| 0 <= i < n ==> has_named(named_rows(rows, names, n)->Ok_0, #[trigger] names[i]),
    decreases n,
{
    if n > 0 {
        lemma_named_rows(rows, names, n - 1);
        let had = named_rows(rows, names, n - 1)->Ok_0;
        let at = row_named(rows, names[n - 1], 0);
        lemma_row_named(rows, names[n - 1], 0);
        lemma_selected_too(had, rows[at]);
        let sel = named_rows(rows, names, n)->Ok_0;
        assert(sel == selected_too(had, rows[at]));
        assert(names.contains(names[n - 1]));
        assert(rows.contains(rows[at]));
        assert forall|i: int| 0 <= i < n implies has_named(sel, #[trigger] names[i]) by {
            if i < n - 1 {
                assert(has_named(had, names[i]));
                let x = choose|x: RowView| had.contains(x) && #[trigger] x.name == names[i];
                assert(sel.contains(x) && x.name == names[i]);
            }
        }
    }
}

proof fn lemma_with_stale(rows: Seq<RowView>, names: Seq<Seq<char>>, sel: Seq<RowView>, n: int)
    requires
        0 <= n <= rows.len(),
        by_name_once(sel),
        forall|x: RowView| #[trigger] sel.contains(x) ==> asked_for(rows, names, true, x),
    ensures
        by_name_once(with_stale(rows, sel, n)),
        forall|x: RowView| #[trigger] with_stale(rows, sel, n).contains(x) ==> asked_for(rows, names, true, x),
        forall|x: RowView| sel.contains(x) ==> #[trigger] with_stale(rows, sel, n).contains(x),
        forall|i: int|
            0 <= i < n && (#[trigger] rows[i]).is_stale() ==> has_named(with_stale(rows, sel, n), rows[i].name),
    decreases n,
{
    if n > 0 {
        lemma_with_stale(rows, names, sel, n - 1);
        let had = with_stale(rows, sel, n - 1);
        let now = with_stale(rows, sel, n);
        if rows[n - 1].is_stale() {
            lemma_selected_too(had, rows[n - 1]);
            assert(rows.contains(rows[n - 1]));
            assert(now == selected_too(had, rows[n - 1]));
        }
        assert forall|i: int| 0 <= i < n && (#[trigger] rows[i]).is_stale() implies has_named(now, rows[i].name) by {
            if i < n - 1 {
                assert(has_named(had, rows[i].name));
                let x = choose|x: RowView| had.contains(x) && #[trigger] x.name == rows[i].name;
                assert(now.contains(x) && x.name == rows[i].name);
            }
        }
    }
}

proof fn lemma_running_row(rows: Seq<RowView>, from: int)
    requires
        0 <= from <= rows.len(),
    ensures
        from <= running_row(rows, from) <= rows.len(),
        forall|j: int| from <= j < running_row(rows, from) ==> (#[trigger] rows[j]).status != Status::Running,
    decreases rows.len() - from,
{
    if from < rows.len() && rows[from].status != Status::Running {
        lemma_running_row(rows, from + 1);
    }
}

/// What a `gc` takes: never a running environment, nothing that was not asked for, a row for
/// every name and, under `--all-stale`, for every stale environment, in name order, none twice.
pub proof fn law_gc_takes_what_was_asked(rows: Seq<RowView>, names: Seq<Seq<char>>, all_stale: bool)
    ensures
        gc_selected(rows, names, all_stale) matches Ok(sel) ==> {
            &&& by_name_once(sel)
            &&& forall|i: int| 0 <= i < sel.len() ==> (#[trigger] sel[i]).status != Status::Running
            &&& forall|i: int| 0 <= i < sel.len() ==> asked_for(rows, names, all_stale, #[trigger] sel[i])
            &&& forall|i: int| 0 <= i < names.len() ==> has_named(sel, #[trigger] names[i])
            &&& all_stale ==> forall|i: int|
                0 <= i < rows.len() && (#[trigger] rows[i]).is_stale() ==> has_named(sel, rows[i].name)
        },
{
    if let Ok(sel) = gc_selected(rows, names, all_stale) {
        lemma_named_rows(rows, names, names.len() as int);
        let named = named_rows(rows, names, names.len() as int)->Ok_0;
        if all_stale {
            lemma_with_stale(rows, names, named, rows.len() as int);
            assert forall|i: int| 0 <= i < names.len() implies has_named(sel, #[trigger] names[i]) by {
                assert(has_named(named, names[i]));
                let x = choose|x: RowView| named.contains(x) && #[trigger] x.name == names[i];
                assert(sel.contains(x) && x.name == names[i]);
            }
        }
        lemma_running_row(sel, 0);
        assert forall|i: int| 0 <= i < sel.len() implies asked_for(rows, names, all_stale, #[trigger] sel[i]) by {
            assert(sel.contains(sel[i]));
        }
    }
}

/// An environment that recorded its boot, and whose workspace cannot be seen because the
/// directory that held it is gone too, is not stale: an unmounted share is not a deleted
/// checkout.
pub proof fn law_unmounted_is_not_stale(d: StateDirView, running: Seq<Seq<u8>>, now: u64)
    requires
        d.identity is Some,
        workspace_of(d.identity) matches Some(w) ==> (parent_of(w) matches Some(p) ==> !d.existing.contains(p)),
    ensures
        !row_of(d, running, now).is_stale(),
{
    assert(flags_of(d) =~= Seq::empty());
}

/// A directory with no record that no VM is up on is always collectable.
pub proof fn law_unrecorded_is_stale(d: StateDirView, running: Seq<Seq<u8>>, now: u64)
    requires
        d.identity is None,
        !runs_on(running, d.dir, d.canonical),
    ensures
        row_of(d, running, now).is_stale(),
{
    let f = flags_of(d);
    assert(f.last() == Flag::Ephemeral);
    assert(f.contains(Flag::Ephemeral));
}

} // verus!
