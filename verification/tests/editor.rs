use vk_dev::config::{Cache, Command, Freshness, Nested, Requires};
use vk_dev::editor::{
    ask_all, base_name, begin, command_env, digest, find_server, guest_failure, has_remote_extension, in_guest,
    install_argv, is_current, known_editors, latest_log, lock_path, log_path, missing_extensions, newest_log,
    parse_version, reconcile, select, select_binary, server_candidates, settings_argv, short_slug, spawn, stamp_path,
    status, status_view, Channel, Editor, LogFile, Outcome, OwnFile, Progress, ReconcileStep, Started, Work,
    LOG_TAIL_BYTES, MERGE_SETTINGS_JS,
};
use vk_dev::hooks::stamped;
use vk_dev::path::HostPath;
use vk_dev::plan::{HookCommand, HookPlan, HooksPlan, Plan, Source, VsCodePlan};
use vk_dev::value::Json;

fn p(s: &str) -> HostPath {
    HostPath::from_text(s)
}

fn plan_in(dir: &str) -> Plan {
    Plan {
        workspace: p(&format!("{dir}/repo")),
        config: p(&format!("{dir}/repo/.virtkit/config.toml")),
        environment: "dev".into(),
        state_dir: p(&format!("{dir}/state")),
        source: Source::Compose {
            file: p(&format!("{dir}/repo/compose.yaml")),
            service: "devcontainer".into(),
            profiles: vec![],
        },
        workspace_folder: Some("/workdir".into()),
        user: Some("dev".into()),
        freshness: Freshness::Ask,
        cpus: None,
        mem: None,
        nested: Nested::Off,
        mounts: vec![],
        container_env: vec![],
        exec_env: vec![],
        endpoints: vec![],
        host_exec: None,
        ssh_agent: false,
        cache: Cache::default(),
        requires: Requires::default(),
        cached_only: false,
        fallback_target: None,
        tasks: vec![],
        hooks: HooksPlan { init: None, create: None, start: None },
        vscode: None,
        managed_dirs: vec![],
        unresolved: vec![],
        secrets: vec![],
    }
}

const COMMIT: &str = "abcdef0123456789abcdef0123456789abcdef01";

fn editor(commit: &str) -> Editor {
    Editor {
        binary: p("/usr/bin/code"),
        channel: Channel::Stable,
        version: "1.93.1".into(),
        commit: commit.into(),
    }
}

fn vs(extensions: &[&str]) -> VsCodePlan {
    VsCodePlan {
        persistent: true,
        home: "/home/dev".into(),
        reconcile: None,
        extensions: extensions.iter().map(|s| s.to_string()).collect(),
        settings: Json::Object(vec![("a".into(), Json::Number(serde_json::Number::from(1)))]),
    }
}

fn hook(line: &str) -> HookPlan {
    HookPlan::Command(HookCommand {
        run: Command::Shell(line.into()),
        cwd: None,
        timeout_secs: None,
        required: true,
    })
}

fn edited(extensions: &[&str]) -> Plan {
    let mut plan = plan_in("/d");
    plan.vscode = Some(vs(extensions));
    plan
}

#[test]
fn channels_follow_the_binary_name_and_name_their_server_directory() {
    assert_eq!(Channel::of("code"), Channel::Stable);
    assert_eq!(Channel::of("vscode"), Channel::Stable, "WAB's wrapper");
    assert_eq!(Channel::of("code-insiders"), Channel::Insiders);
    assert_eq!(Channel::of("codium"), Channel::Codium);
    assert_eq!(Channel::of("vscodium"), Channel::Codium);
    assert_eq!(Channel::of("code-oss"), Channel::Oss);
    assert_eq!(Channel::Stable.data_dir(), ".vscode-server");
    assert_eq!(Channel::Insiders.data_dir(), ".vscode-server-insiders");
    assert_eq!(Channel::Codium.data_dir(), ".vscodium-server");
    assert_eq!(Channel::Oss.data_dir(), ".vscode-server-oss");
    assert_eq!(Channel::Oss.label(), "oss");
}

#[test]
fn the_version_output_yields_the_commit_and_nothing_less_will_do() {
    let (v, c) = parse_version("1.93.1\n38c31bc77e0dd6ae88a4e9cc93428cc27a56ba40\nx64\n").unwrap();
    assert_eq!(v, "1.93.1");
    assert_eq!(c, "38c31bc77e0dd6ae88a4e9cc93428cc27a56ba40");
    assert!(parse_version("1.93.1\nnot-a-commit\nx64\n").is_err());
    assert!(parse_version("1.93.1\n").is_err());
    assert!(parse_version("").is_err());
}

#[test]
fn what_is_wrong_with_a_version_is_said() {
    assert_eq!(parse_version(" \n").unwrap_err().message, "printed nothing");
    assert_eq!(parse_version("1.93.1\n").unwrap_err().message, "printed no commit");
    assert_eq!(
        parse_version("1.93.1\nnope\n").unwrap_err().message,
        "expected a commit hash on the second line, got \"nope\""
    );
}

#[test]
fn attaching_needs_the_remote_extension_not_only_the_binary() {
    assert!(has_remote_extension("ms-python.python\nMS-vscode-remote.remote-ssh\n", Channel::Stable));
    assert!(!has_remote_extension("ms-python.python\n", Channel::Stable));
    assert!(has_remote_extension("jeanp413.open-remote-ssh\n", Channel::Codium));
    assert!(!has_remote_extension("jeanp413.open-remote-ssh\n", Channel::Stable));
}

#[test]
fn the_server_is_looked_for_by_commit_in_both_layouts() {
    let c = server_candidates("/home/dev/.vscode-server", "abc");
    assert_eq!(c[0], "/home/dev/.vscode-server/cli/servers/Stable-abc/server/bin/code-server");
    assert!(c.iter().any(|p| p == "/home/dev/.vscode-server/bin/abc/bin/code-server"));
    assert!(c.iter().all(|p| p.contains("abc")), "never another commit's server");
}

#[test]
fn the_digest_changes_with_what_is_applied_and_with_the_server() {
    let a = digest(&vs(&["x"]), &editor("1111"));
    assert_eq!(a, digest(&vs(&["x"]), &editor("1111")), "stable");
    assert_ne!(a, digest(&vs(&["x", "y"]), &editor("1111")));
    assert_ne!(a, digest(&vs(&["x"]), &editor("2222")), "another server, another job");
    let mut with_hook = vs(&["x"]);
    with_hook.reconcile = Some(hook("true"));
    assert_ne!(a, digest(&with_hook, &editor("1111")));
}

#[test]
fn the_digest_is_of_the_parts_with_nothing_between_them() {
    let bytes = b"stable\x001111\x00[\"x\"]\x00{\"a\":1}\x00null";
    assert_eq!(digest(&vs(&["x"]), &editor("1111")), vk_dev::digest::sha256_hex(bytes));
}

fn file(name: &str, age_secs: Option<u64>) -> OwnFile {
    OwnFile { name: name.into(), path: p(&format!("/d/state/editor/{name}")), age_secs }
}

#[test]
fn the_operation_has_a_lock_a_log_and_a_stamp_under_the_state_dir() {
    let plan = edited(&["x"]);
    let ed = editor(COMMIT);
    let none = status_view(&plan.vscode, &None, &vec![]);
    assert!(status(&none).contains("never"), "{}", status(&none));
    assert!(latest_log(&p("/d/state/editor"), &None).is_err());

    let held = status_view(&plan.vscode, &Some("pid 7".into()), &vec![]);
    assert!(status(&held).contains("running"), "{}", status(&held));

    // The files are named for the server they concern, beside the lock.
    assert_eq!(lock_path(&plan).display(), "/d/state/editor/lock");
    assert_eq!(
        log_path(&plan, &ed).display(),
        "/d/state/editor/stable-abcdef0123456789abcdef0123456789abcdef01.log"
    );
    let files = vec![
        file(&format!("stable-{COMMIT}.done"), Some(5)),
        file(&format!("stable-{COMMIT}.log"), None),
    ];
    let s = status(&status_view(&plan.vscode, &None, &files));
    assert!(s.contains("reconciled  stable-abcdef012345"), "{s}");
    let log = latest_log(
        &p("/d/state/editor"),
        &Some((log_path(&plan, &ed), "virtkit: editor: reconciled\n".into())),
    )
    .unwrap();
    assert!(log.contains("reconciled"));
}

#[test]
fn the_channel_follows_the_resolved_binary_even_when_it_is_a_path() {
    let path = "/opt/editors/code-insiders";
    let version = "1.93.1\nabcdef0123456789abcdef0123456789abcdef01\nx64\n";
    let listed = "ms-vscode-remote.remote-ssh\n";
    // The channel comes from the binary that was resolved, not from what was typed —
    // an absolute path to an insiders build is the insiders channel, and its server
    // lives under the insiders data directory.
    let binary = select_binary(&Some(path.into()), true, &vec![]).unwrap();
    let ed = select(binary, version, listed).unwrap();
    assert_eq!(ed.channel, Channel::Insiders);
    assert_eq!(ed.channel.data_dir(), ".vscode-server-insiders");
    assert_eq!(ed.binary.display(), path);
    assert_eq!(ed.version, "1.93.1");
    // Which is what the detached reconciliation is handed, and has to agree on.
    assert_eq!(Channel::of(&base_name(&ed.binary)), Channel::Insiders);

    // A path that is not an executable file is refused before anything is run.
    let e = select_binary(&Some("/opt/editors/nope".into()), false, &vec![]).unwrap_err();
    assert!(e.message.contains("not an executable file"), "{}", e.message);
}

#[test]
fn an_editor_is_the_one_named_or_the_first_that_is_there() {
    let found = vec![("codium".to_string(), p("/b/codium")), ("code-oss".to_string(), p("/b/code-oss"))];
    assert_eq!(select_binary(&None, false, &found).unwrap().display(), "/b/codium");
    assert_eq!(select_binary(&Some("code-oss".into()), false, &found).unwrap().display(), "/b/code-oss");
    assert_eq!(select_binary(&Some("code".into()), false, &found).unwrap_err().message, "code is not on PATH");
    assert_eq!(
        select_binary(&None, false, &vec![]).unwrap_err().message,
        "no VS Code on PATH (looked for code, code-insiders, codium, vscodium, code-oss) — pass --editor"
    );
    assert_eq!(known_editors().len(), 5);
}

#[test]
fn an_editor_that_cannot_attach_is_refused() {
    let version = "1.93.1\nabcdef0123456789abcdef0123456789abcdef01\nx64\n";
    let e = select(p("/b/codium"), version, "ms-python.python\n").unwrap_err();
    assert_eq!(
        e.message,
        "/b/codium (1.93.1) has no Remote-SSH extension (jeanp413.open-remote-ssh or ms-vscode-remote.remote-ssh), so it cannot attach to the environment — install one, or name another editor with --editor"
    );
    let e = select(p("/b/code"), "", "").unwrap_err();
    assert_eq!(e.message, "/b/code --version: printed nothing");
}

#[test]
fn a_stamp_is_only_believed_for_the_plan_and_server_it_names() {
    let plan = edited(&["x"]);
    let ed = editor(COMMIT);
    // What `reconcile` writes, and what it reads back to decide there is nothing to do.
    let want = digest(plan.vscode.as_ref().unwrap(), &ed);
    let stamp = Some(format!("{want}\n"));
    assert!(stamped(&stamp, &want), "the trailing newline is trimmed");

    // Another server is another job, stamped under a name of its own.
    let other = editor("1111111111111111111111111111111111111111");
    assert_ne!(stamp_path(&plan, &other).display(), stamp_path(&plan, &ed).display());
    assert!(!stamped(&None, &want));

    // And a changed plan no longer matches the stamp that is there.
    let now = digest(&vs(&["x", "y"]), &ed);
    assert_ne!(now, want);
    assert!(!stamped(&stamp, &now));
}

#[test]
fn the_status_view_is_what_the_text_renders() {
    let plan = edited(&["x"]);
    let files = vec![
        file(&format!("stable-{COMMIT}.done"), Some(5)),
        file(&format!("stable-{COMMIT}.log"), None),
    ];
    let view = status_view(&plan.vscode, &None, &files);
    let c = view.configured.as_ref().unwrap();
    assert_eq!((c.extensions, c.settings, c.persistent), (1, 1, true));
    assert!(!c.reconcile_command);
    assert_eq!(view.running, None);
    // The commit is cut to twelve characters, the same in the view and the text.
    assert_eq!(view.reconciled.len(), 1);
    assert_eq!(view.reconciled[0].server, "stable-abcdef012345");
    assert_eq!(view.logs.len(), 1);
    assert_eq!(view.logs[0].path.display(), log_path(&plan, &editor(COMMIT)).display());
    assert!(status(&view).contains("reconciled  stable-abcdef012345"));
    assert_eq!(
        status(&view),
        format!(
            "editor      1 extension(s), 1 setting(s), state persistent\noperation   idle\nreconciled  stable-abcdef012345 5s ago\nlog         stable-abcdef012345: /d/state/editor/stable-{COMMIT}.log\n"
        )
    );

    // With no `[dev.editor.vscode]` the view says only that, and reads no files.
    let view = status_view(&None, &None, &files);
    assert!(view.configured.is_none());
    assert!(view.reconciled.is_empty() && view.logs.is_empty());
}

#[test]
fn nothing_to_reconcile_without_an_editor_section() {
    let plan = plan_in("/d");
    let ed = editor(COMMIT);
    assert!(matches!(spawn(&plan, &ed, &None), Started::Nothing));
    assert!(matches!(reconcile(&plan, &ed, &fresh()), ReconcileStep::End(Outcome::Nothing)));
    assert!(status(&status_view(&plan.vscode, &None, &vec![])).contains("no [dev.editor.vscode]"));
}

fn fresh() -> Progress {
    Progress {
        locked: true,
        holder: None,
        servers: vec![],
        waited_secs: 0,
        stamp: None,
        extensions: None,
        failed: None,
    }
}

#[test]
fn a_reconciliation_goes_step_by_step() {
    let plan = edited(&["x", "y"]);
    let ed = editor(COMMIT);
    assert!(matches!(spawn(&plan, &ed, &Some("pid 7".into())), Started::Joined { holder } if holder == "pid 7"));
    assert!(matches!(spawn(&plan, &ed, &None), Started::Spawned { .. }));

    let mut at = fresh();
    at.locked = false;
    assert!(
        matches!(reconcile(&plan, &ed, &at), ReconcileStep::End(Outcome::Joined { holder }) if holder == "unknown pid")
    );
    let mut at = fresh();
    let places = match reconcile(&plan, &ed, &at) {
        ReconcileStep::Look(c) => c,
        other => panic!("{other:?}"),
    };
    assert_eq!(places.len(), 4);
    at.waited_secs = 900;
    assert!(matches!(reconcile(&plan, &ed, &at), ReconcileStep::Fail(_)));
    at.servers = vec![false, false, false, true];
    let legacy = format!("/home/dev/.vscode-server/bin/{COMMIT}/bin/code-server");
    assert!(matches!(reconcile(&plan, &ed, &at), ReconcileStep::AskExtensions(cli) if cli == legacy));

    // Everything is there, and the stamp is of what is wanted.
    let want = digest(plan.vscode.as_ref().unwrap(), &ed);
    at.extensions = Some(None);
    at.stamp = Some(want.clone());
    assert!(matches!(reconcile(&plan, &ed, &at), ReconcileStep::End(Outcome::Current)));

    // A stamp is a claim; a missing extension refutes it.
    at.extensions = Some(Some(vec![true, false]));
    let work = match reconcile(&plan, &ed, &at) {
        ReconcileStep::Apply(_, w) => w,
        other => panic!("{other:?}"),
    };
    assert!(matches!(&work[0], Work::Install(e) if e == "y"));
    assert!(matches!(&work[1], Work::Settings));
    assert_eq!(work.len(), 2);

    at.failed = Some(vec![true, false]);
    match reconcile(&plan, &ed, &at) {
        ReconcileStep::Fail(e) => assert_eq!(
            e.message,
            "editor reconciliation incomplete (y); the next `vk dev code` or `vk dev editor retry` tries again"
        ),
        other => panic!("{other:?}"),
    }
    at.failed = Some(vec![false, false]);
    match reconcile(&plan, &ed, &at) {
        ReconcileStep::Stamp(text, said) => {
            assert_eq!(text, want);
            assert_eq!(said, format!("virtkit: editor: reconciled ({})", &want[..12]));
        }
        other => panic!("{other:?}"),
    }
}

#[test]
fn the_headline_says_what_will_be_applied() {
    let b = begin(&vs(&["x"]), &editor(COMMIT));
    assert_eq!(b.data, "/home/dev/.vscode-server");
    assert_eq!(
        b.headline,
        "virtkit: editor: stable 1.93.1 (abcdef012345), server data /home/dev/.vscode-server, 1 extension(s), 1 setting(s)"
    );
}

#[test]
fn a_server_that_never_comes_is_given_up_on() {
    let e = find_server("/h/.vscode-server", COMMIT, &vec![false; 4], 900).unwrap_err();
    assert_eq!(
        e.message,
        "no server for commit abcdef012345 appeared under /h/.vscode-server within 900s — is the editor connected to this environment?"
    );
    assert_eq!(find_server("/h", COMMIT, &vec![false; 4], 899).unwrap(), None);
}

#[test]
fn what_is_missing_is_what_was_not_found() {
    let wanted = vec!["a".to_string(), "b".to_string(), "c".to_string()];
    assert_eq!(missing_extensions(&wanted, &Some(vec![true, false, false])), ["b", "c"]);
    assert!(missing_extensions(&wanted, &None).is_empty());
    assert!(is_current(&Some("d\n".into()), "d", &vec![]));
    assert!(!is_current(&Some("d\n".into()), "d", &vec!["b".to_string()]));
}

#[test]
fn guest_steps_are_scripts_with_their_arguments() {
    assert_eq!(in_guest("true", vec!["a".into()]), ["/bin/sh", "-c", "true", "a"]);
    assert_eq!(install_argv("/cli", "x")[3..], ["/cli", "--install-extension", "x", "--force"]);
    let all = ask_all("/cli", &vec!["x".into(), "y".into()]);
    assert_eq!(all[3..], ["/cli", "x", "y"]);
    // The CLI is `$0`, so every argument is an extension to look for.
    assert!(all[2].contains("; for id do ") && !all[2].contains("shift"), "{}", all[2]);
    let s = settings_argv("/srv/bin/code-server", "/data", &Json::Object(vec![("a".into(), Json::Bool(true))]));
    assert_eq!(s[3..], ["/srv", MERGE_SETTINGS_JS, "/data/data/Machine/settings.json", "{\"a\":true}"]);
    let env = command_env("/cli", &editor(COMMIT), "/data");
    assert_eq!(env[0], ("VK_VSCODE_CLI".to_string(), "/cli".to_string()));
    assert_eq!(env[2], ("VK_VSCODE_CHANNEL".to_string(), "stable".to_string()));
    assert_eq!(guest_failure(Some(0), 0), None);
    assert_eq!(guest_failure(Some(3), 0), Some("exited 3".into()));
    assert_eq!(guest_failure(None, 9), Some("killed by signal 9".into()));
}

#[test]
fn a_slug_is_cut_to_twelve_characters_of_its_commit() {
    assert_eq!(short_slug(&format!("stable-{COMMIT}")), "stable-abcdef012345");
    assert_eq!(short_slug("odd"), "odd");
}

#[test]
fn the_newest_log_is_printed_from_its_end() {
    let log = |name: &str, modified: Option<u64>| LogFile { name: name.into(), modified };
    let files = vec![log("a.log", Some(1)), log("b.done", Some(9)), log("c.log", Some(5)), log("d.log", None)];
    assert_eq!(newest_log(&files), Some(2));
    assert_eq!(newest_log(&vec![log("b.done", Some(9))]), None);

    let short = latest_log(&p("/e"), &Some((p("/e/a.log"), "all\n".into()))).unwrap();
    assert_eq!(short, "== /e/a.log\nall\n");
    // a character that straddles the cut is left out whole
    let long = format!("é{}", "x".repeat(LOG_TAIL_BYTES - 1));
    let shown = latest_log(&p("/e"), &Some((p("/e/a.log"), long))).unwrap();
    assert_eq!(shown, format!("== /e/a.log\n… 1 earlier byte(s) not shown\n{}", "x".repeat(LOG_TAIL_BYTES - 1)));
    assert_eq!(latest_log(&p("/e"), &None).unwrap_err().message, "no editor log under /e yet");
}
