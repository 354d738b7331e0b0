//! What an editor is brought to have.

use crate::editor::{
    absent, answering, applied_digest, attaches, binary_of, boundary_from, candidates, channel_of, data_of, editor_of,
    editors, first_on_path, is_commit, last_name, log_tail, logs_upto, missing_of, newest_upto, reconcile_next,
    server_found, settings_count, slug_shown, stamps_upto, status_of, told_lines, version_printed, work_of, Channel,
    EditorView, LogFileView, LogView, OutcomeView, OwnFileView, ProgressView, ReconcileStepView, ReconciledView,
    WorkView, LOG_TAIL_BYTES, SERVER_WAIT_SECS,
};
use crate::entries::entry;
use crate::laws::words::{law_lines, law_trimmed};
use crate::plan::VsCodeView;
use crate::text::{decimal, ends, is_space, lines_of, trimmed};
use vstd::prelude::*;
use vstd::utf8::{decode_utf8, encode_utf8, is_char_boundary};

verus! {

proof fn lemma_absent(wanted: Seq<Seq<char>>, present: Seq<bool>, n: int, e: Seq<char>)
    requires
        0 <= n <= wanted.len(),
    ensures
        absent(wanted, present, n).contains(e) <==> exists|i: int| 0 <= i < n && #[trigger] wanted[i] == e && !present[i],
    decreases n,
{
    if n > 0 {
        lemma_absent(wanted, present, n - 1, e);
        let had = absent(wanted, present, n - 1);
        let now = absent(wanted, present, n);
        if now.contains(e) {
            let j = choose|j: int| 0 <= j < now.len() && now[j] == e;
            if j < had.len() {
                assert(had[j] == e);
            } else {
                assert(wanted[n - 1] == e);
            }
        }
        if had.contains(e) {
            let j = choose|j: int| 0 <= j < had.len() && had[j] == e;
            assert(now[j] == e);
        }
        if wanted[n - 1] == e && !present[n - 1] {
            assert(now[had.len() as int] == e);
        }
    }
}

/// What is done for an editor is what it lacks: every wanted extension that is not there is
/// installed and no other, settings are written where there are any, and the project's command is
/// run where there is one.
pub proof fn law_work_is_what_is_lacking(vs: VsCodeView, present: Seq<bool>, e: Seq<char>)
    requires
        present.len() == vs.extensions.len(),
    ensures
        ({
            let w = work_of(vs, missing_of(vs, Some(present)));
            &&& w.contains(WorkView::Install(e)) <==> exists|i: int|
                0 <= i < vs.extensions.len() && #[trigger] vs.extensions[i] == e && !present[i]
            &&& w.contains(WorkView::Settings) <==> settings_count(vs.settings) > 0
            &&& w.contains(WorkView::Command) <==> vs.reconcile is Some
        }),
{
    let m = missing_of(vs, Some(present));
    let w = work_of(vs, m);
    lemma_absent(vs.extensions, present, vs.extensions.len() as int, e);
    let n = m.len() as int;
    if m.contains(e) {
        let j = choose|j: int| 0 <= j < m.len() && m[j] == e;
        assert(w[j] == WorkView::Install(e));
    }
    if w.contains(WorkView::Install(e)) {
        let j = choose|j: int| 0 <= j < w.len() && w[j] == WorkView::Install(e);
        assert(j < n);
        assert(m[j] == e);
    }
    if settings_count(vs.settings) > 0 {
        assert(w[n] == WorkView::Settings);
    }
    if vs.reconcile is Some {
        assert(w.last() == WorkView::Command);
        assert(w[w.len() - 1] == WorkView::Command);
    }
}

proof fn lemma_answering(c: Seq<Seq<char>>, present: Seq<bool>, from: int)
    requires
        0 <= from,
        c.len() == present.len(),
    ensures
        match answering(c, present, from) {
            Some(x) => exists|i: int| from <= i < c.len() && #[trigger] present[i] && c[i] == x,
            None => forall|i: int| from <= i < c.len() ==> !#[trigger] present[i],
        },
    decreases c.len() - from,
{
    if from < c.len() && !present[from] {
        lemma_answering(c, present, from + 1);
    }
}

/// The server waited for is the one of the editor's own commit, taken where it is there, waited for
/// while there is time, and given up after.
pub proof fn law_server_of_the_commit(data: Seq<char>, commit: Seq<char>, present: Seq<bool>, waited_secs: u64)
    requires
        present.len() == 4,
    ensures
        match server_found(data, commit, present, waited_secs) {
            Ok(Some(cli)) => cli == data + "/bin/"@ + commit + "/bin/code-server"@ || cli == data + "/cli/servers/"@
                + "Stable"@ + "-"@ + commit + "/server/bin/code-server"@ || cli == data + "/cli/servers/"@ + "Insiders"@
                + "-"@ + commit + "/server/bin/code-server"@ || cli == data + "/cli/servers/"@ + "Exploration"@ + "-"@
                + commit + "/server/bin/code-server"@,
            Ok(None) => waited_secs < SERVER_WAIT_SECS,
            Err(_) => waited_secs >= SERVER_WAIT_SECS,
        },
        server_found(data, commit, present, waited_secs) matches Ok(Some(_)) <==> exists|i: int|
            0 <= i < 4 && #[trigger] present[i],
{
    lemma_answering(candidates(data, commit), present, 0);
    let c = candidates(data, commit);
    if let Some(x) = answering(c, present, 0) {
        let i = choose|i: int| 0 <= i < c.len() && #[trigger] present[i] && c[i] == x;
        assert(present[i]);
    }
}

/// A reconciliation has nothing to do where the config has no editor, joins one that is under way,
/// asks before it works, works where anything is lacking or the config has changed since, and is
/// done where neither is so.
pub proof fn law_reconciliation(vs: VsCodeView, e: EditorView, p: ProgressView, cli: Seq<char>)
    ensures
        reconcile_next(None, e, p) == ReconcileStepView::End(OutcomeView::Nothing),
        !p.locked ==> (reconcile_next(Some(vs), e, p) matches ReconcileStepView::End(OutcomeView::Joined { .. })),
        p.locked && server_found(data_of(vs, e), e.commit, p.servers, p.waited_secs) == Ok::<
            Option<Seq<char>>,
            Seq<char>,
        >(Some(cli)) ==> {
            let s = reconcile_next(Some(vs), e, p);
            &&& p.extensions is None ==> s == ReconcileStepView::AskExtensions(cli)
            &&& p.extensions is Some && p.failed is None ==> {
                let missing = missing_of(vs, p.extensions->0);
                let fresh = p.stamp is Some && trimmed(p.stamp->0) == applied_digest(vs, e);
                &&& fresh && missing.len() == 0 ==> s == ReconcileStepView::End(OutcomeView::Current)
                &&& !fresh || missing.len() > 0 ==> s == ReconcileStepView::Apply(cli, work_of(vs, missing))
            }
        },
{
}

/// The server's data is kept in the user's home, each kind of editor in a directory of its own.
pub proof fn law_data_directories(vs: VsCodeView, e: EditorView)
    ensures
        e.channel == Channel::Stable ==> data_of(vs, e) == vs.home + "/"@ + ".vscode-server"@,
        e.channel == Channel::Insiders ==> data_of(vs, e) == vs.home + "/"@ + ".vscode-server-insiders"@,
        e.channel == Channel::Codium ==> data_of(vs, e) == vs.home + "/"@ + ".vscodium-server"@,
        e.channel == Channel::Oss ==> data_of(vs, e) == vs.home + "/"@ + ".vscode-server-oss"@,
{
}

/// An editor is told by its own name, its version and its commit, and is taken only where it has
/// what it takes to attach.
pub proof fn law_editor_is_told(binary: Seq<u8>, version: Seq<char>, listed: Seq<char>)
    ensures
        editor_of(binary, version, listed) matches Ok(x) ==> {
            &&& x.binary == binary
            &&& x.channel == channel_of(last_name(binary))
            &&& version_printed(version) == Ok::<(Seq<char>, Seq<char>), Seq<char>>((x.version, x.commit))
            &&& attaches(listed, x.channel)
        },
        version_printed(version) is Ok && attaches(listed, channel_of(last_name(binary)))
            ==> editor_of(binary, version, listed) is Ok,
{
}

/// An editor that is named is that one: a path as it stands where it can be run, a name from the
/// search path.
pub proof fn law_named_editor(name: Seq<char>, executable: bool, on_path: Seq<(Seq<char>, Seq<u8>)>)
    ensures
        name.contains('/') ==> (binary_of(Some(name), executable, on_path) is Ok <==> executable),
        name.contains('/') && executable ==> binary_of(Some(name), executable, on_path) == Ok::<Seq<u8>, Seq<char>>(
            encode_utf8(name),
        ),
        !name.contains('/') ==> match entry(on_path, name) {
            Some(p) => binary_of(Some(name), executable, on_path) == Ok::<Seq<u8>, Seq<char>>(p),
            None => binary_of(Some(name), executable, on_path) is Err,
        },
{
}

proof fn lemma_first_on_path(names: Seq<Seq<char>>, on_path: Seq<(Seq<char>, Seq<u8>)>, from: int)
    requires
        0 <= from,
    ensures
        match first_on_path(names, on_path, from) {
            Some(p) => exists|i: int|
                from <= i < names.len() && entry(on_path, #[trigger] names[i]) == Some(p) && forall|j: int|
                    from <= j < i ==> entry(on_path, #[trigger] names[j]) is None,
            None => forall|i: int| from <= i < names.len() ==> entry(on_path, #[trigger] names[i]) is None,
        },
    decreases names.len() - from,
{
    if from < names.len() && entry(on_path, names[from]) is None {
        lemma_first_on_path(names, on_path, from + 1);
        if let Some(p) = first_on_path(names, on_path, from + 1) {
            let i = choose|i: int|
                from + 1 <= i < names.len() && entry(on_path, #[trigger] names[i]) == Some(p) && forall|j: int|
                    from + 1 <= j < i ==> entry(on_path, #[trigger] names[j]) is None;
            assert(entry(on_path, names[i]) == Some(p));
        }
    } else if from < names.len() {
        assert(entry(on_path, names[from]) is Some);
    }
}

/// Where no editor is named, one that is on the search path is taken, and there is none only where
/// none of them is.
pub proof fn law_any_editor(executable: bool, on_path: Seq<(Seq<char>, Seq<u8>)>)
    ensures
        binary_of(None, executable, on_path) matches Ok(p) ==> exists|i: int|
            0 <= i < editors().len() && entry(on_path, #[trigger] editors()[i]) == Some(p) && forall|j: int|
                0 <= j < i ==> entry(on_path, #[trigger] editors()[j]) is None,
        entry(on_path, "code"@) matches Some(p) ==> binary_of(None, executable, on_path) == Ok::<Seq<u8>, Seq<char>>(p),
        binary_of(None, executable, on_path) is Err ==> forall|i: int|
            0 <= i < editors().len() ==> entry(on_path, #[trigger] editors()[i]) is None,
{
    lemma_first_on_path(editors(), on_path, 0);
    assert(editors()[0] == "code"@);
}

proof fn lemma_stamps(files: Seq<OwnFileView>, n: int, i: int)
    requires
        0 <= i < n <= files.len(),
        ends(files[i].name, ".done"@),
    ensures
        stamps_upto(files, n).contains(
            ReconciledView {
                server: slug_shown(files[i].name.take(files[i].name.len() - ".done"@.len())),
                age_secs: files[i].age_secs,
            },
        ),
    decreases n,
{
    let x = ReconciledView {
        server: slug_shown(files[i].name.take(files[i].name.len() - ".done"@.len())),
        age_secs: files[i].age_secs,
    };
    let had = stamps_upto(files, n - 1);
    let now = stamps_upto(files, n);
    if i < n - 1 {
        lemma_stamps(files, n - 1, i);
        let j = choose|j: int| 0 <= j < had.len() && had[j] == x;
        assert(now[j] == x);
    } else {
        assert(now[had.len() as int] == x);
    }
}

proof fn lemma_logs(files: Seq<OwnFileView>, n: int, i: int)
    requires
        0 <= i < n <= files.len(),
        ends(files[i].name, ".log"@),
        !ends(files[i].name, ".done"@),
    ensures
        logs_upto(files, n).contains(
            LogView {
                server: slug_shown(files[i].name.take(files[i].name.len() - ".log"@.len())),
                path: files[i].path,
            },
        ),
    decreases n,
{
    let x = LogView {
        server: slug_shown(files[i].name.take(files[i].name.len() - ".log"@.len())),
        path: files[i].path,
    };
    let had = logs_upto(files, n - 1);
    let now = logs_upto(files, n);
    if i < n - 1 {
        lemma_logs(files, n - 1, i);
        let j = choose|j: int| 0 <= j < had.len() && had[j] == x;
        assert(now[j] == x);
    } else {
        assert(now[had.len() as int] == x);
    }
}

/// The editor's status has what is configured, whether it is being brought to it, and every stamp
/// and log there is.
pub proof fn law_editor_status(vs: Option<VsCodeView>, running: Option<Seq<char>>, files: Seq<OwnFileView>, i: int)
    ensures
        ({
            let s = status_of(vs, running, files);
            &&& s.running == running
            &&& vs is None ==> s.configured is None && s.reconciled.len() == 0 && s.logs.len() == 0
            &&& vs matches Some(v) ==> {
                &&& s.configured matches Some(c) && c.persistent == v.persistent && c.reconcile_command == (
                v.reconcile is Some) && (v.extensions.len() <= usize::MAX ==> c.extensions == v.extensions.len())
                &&& 0 <= i < files.len() && ends(files[i].name, ".done"@) ==> s.reconciled.contains(
                    ReconciledView {
                        server: slug_shown(files[i].name.take(files[i].name.len() - ".done"@.len())),
                        age_secs: files[i].age_secs,
                    },
                )
                &&& 0 <= i < files.len() && ends(files[i].name, ".log"@) && !ends(files[i].name, ".done"@)
                    ==> s.logs.contains(
                    LogView {
                        server: slug_shown(files[i].name.take(files[i].name.len() - ".log"@.len())),
                        path: files[i].path,
                    },
                )
            }
        }),
{
    if vs is Some && 0 <= i < files.len() {
        if ends(files[i].name, ".done"@) {
            lemma_stamps(files, files.len() as int, i);
        } else if ends(files[i].name, ".log"@) {
            lemma_logs(files, files.len() as int, i);
        }
    }
}

/// The newest log is a log, and none is newer; there is one wherever there is any.
pub proof fn law_newest_log(files: Seq<LogFileView>, n: int, i: int)
    requires
        0 <= n <= files.len(),
    ensures
        match newest_upto(files, n) {
            Some(b) => 0 <= b < n && ends(files[b].name, ".log"@) && (0 <= i < n && ends(files[i].name, ".log"@) ==> (
            files[i].modified matches Some(x) ==> files[b].modified matches Some(y) && x <= y)),
            None => 0 <= i < n ==> !ends(files[i].name, ".log"@),
        },
    decreases n,
{
    if n > 0 {
        law_newest_log(files, n - 1, i);
    }
}

/// A log that is short is shown whole; of a longer one the end is shown, no more of it than the
/// limit, behind how much is not.
pub proof fn law_log_tail(text: Seq<char>)
    ensures
        encode_utf8(text).len() <= LOG_TAIL_BYTES ==> log_tail(text) == text,
        encode_utf8(text).len() > LOG_TAIL_BYTES ==> exists|at: int|
            encode_utf8(text).len() - LOG_TAIL_BYTES <= at <= encode_utf8(text).len() && log_tail(text) == "… "@ + decimal(
                (encode_utf8(text).len() - LOG_TAIL_BYTES) as nat,
            ) + " earlier byte(s) not shown\n"@ + #[trigger] decode_utf8(
                encode_utf8(text).subrange(at, encode_utf8(text).len() as int),
            ),
{
    let b = encode_utf8(text);
    if b.len() > LOG_TAIL_BYTES {
        let from = b.len() - LOG_TAIL_BYTES;
        lemma_boundary(b, from);
        let at = boundary_from(b, from);
        assert(log_tail(text) == "… "@ + decimal(from as nat) + " earlier byte(s) not shown\n"@ + decode_utf8(
            b.subrange(at, b.len() as int),
        ));
    }
}

proof fn lemma_boundary(b: Seq<u8>, from: int)
    requires
        0 <= from <= b.len(),
    ensures
        from <= boundary_from(b, from) <= b.len(),
    decreases b.len() - from,
{
    if from < b.len() && !is_char_boundary(b, from) {
        lemma_boundary(b, from + 1);
    }
}

/// An editor is of the kind its name says, and a plain one else.
pub proof fn law_channels(name: Seq<char>)
    ensures
        channel_of(name) == Channel::Insiders <==> name == "code-insiders"@,
        channel_of(name) == Channel::Codium <==> name == "codium"@ || name == "vscodium"@,
        channel_of(name) == Channel::Oss <==> name == "code-oss"@,
{
    reveal_strlit("code-insiders");
    reveal_strlit("codium");
    reveal_strlit("vscodium");
    reveal_strlit("code-oss");
    assert("code-insiders"@.len() == 13 && "codium"@.len() == 6 && "vscodium"@.len() == 8 && "code-oss"@.len() == 8);
    assert("vscodium"@[0] == 'v' && "code-oss"@[0] == 'c');
}

/// What an editor prints of itself is read off its first two lines: its version and its commit.
pub proof fn law_version_is_read(version: Seq<char>, commit: Seq<char>, rest: Seq<char>)
    requires
        version.len() > 0 && trimmed(version) == version && !version.contains('\n'),
        commit.len() == 40,
        forall|i: int| 0 <= i < commit.len() ==> '0' <= (#[trigger] commit[i]) <= '9' || 'a' <= commit[i] <= 'f',
    ensures
        version_printed(version.push('\n') + (commit.push('\n') + rest)) == Ok::<(Seq<char>, Seq<char>), Seq<char>>(
            (version, commit),
        ),
{
    assert forall|i: int| 0 <= i < commit.len() implies !is_space(#[trigger] commit[i]) && commit[i] != '\n'
        && commit[i] != '\r' by {}
    assert(!commit.contains('\n'));
    let more = commit.push('\n') + rest;
    law_lines(version, more);
    law_lines(commit, rest);
    law_trimmed(version);
    if version.last() == '\r' {
        assert(is_space(version.last()));
    }
    lemma_trims_nothing(commit);
    let l = lines_of(version.push('\n') + more);
    assert(l == seq![version] + (seq![commit] + lines_of(rest)));
    assert(l[0] == version && l[1] == commit);
    lemma_told_first(l, l.len() as int);
    assert(is_commit(commit));
}

proof fn lemma_trims_nothing(s: Seq<char>)
    requires
        s.len() > 0 && !is_space(s[0]) && !is_space(s.last()),
    ensures
        trimmed(s) == s,
{
}

proof fn lemma_told_first(v: Seq<Seq<char>>, n: int)
    requires
        2 <= n <= v.len(),
        v[0].len() > 0 && trimmed(v[0]) == v[0],
        v[1].len() > 0 && trimmed(v[1]) == v[1],
    ensures
        told_lines(v, n).len() >= 2,
        told_lines(v, n)[0] == v[0],
        told_lines(v, n)[1] == v[1],
    decreases n,
{
    if n > 2 {
        lemma_told_first(v, n - 1);
    } else {
        assert(told_lines(v, 0).len() == 0);
        assert(told_lines(v, 1) =~= seq![v[0]]);
        assert(told_lines(v, 2) =~= seq![v[0], v[1]]);
    }
}

} // verus!
