use vk_dev::identity::Identity;
use vk_dev::list::{
    contents, fmt_size, json, preview, remove, removed, render, scan, select_gc, short_creator, state, table, Entry,
    Flag, Held, Listed, Row, StateDir, Status,
};
use vk_dev::path::HostPath;
use vk_dev::value::Json;

fn p(s: &str) -> HostPath {
    HostPath::from_text(s)
}

const NOW: u64 = 1_700_000_000;

/// A state directory whose record names `workspace`, of which `existing` paths exist.
fn booted(name: &str, workspace: &str, created_by: &str, existing: &[&str], size: Option<u64>) -> StateDir {
    let text = |s: &str| Json::Text(s.to_string());
    StateDir {
        dir: p(&format!("/base/{name}")),
        canonical: Some(p(&format!("/real/{name}"))),
        identity: Some(Identity {
            digest: "d".into(),
            booted_secs: NOW - 120,
            created_by: created_by.into(),
            generation: String::new(),
            manifest: Json::Object(vec![
                ("environment".into(), text("dev")),
                ("workspace".into(), text(workspace)),
            ]),
            storage_backings: None,
        }),
        existing: existing.iter().map(|e| p(e)).collect(),
        size_bytes: size,
    }
}

/// What an ephemeral task run leaves behind: a root image and console logs, no identity.
fn ephemeral(name: &str) -> StateDir {
    StateDir {
        dir: p(&format!("/base/{name}")),
        canonical: None,
        identity: None,
        existing: vec![],
        size_bytes: Some(4096),
    }
}

fn names(rows: &[Row]) -> Vec<&str> {
    rows.iter().map(|r| r.name.as_str()).collect()
}

fn live() -> StateDir {
    booted("repo-aaaa", "/t/repo", "vk 0.62.0 (abcdef)", &["/t/repo", "/t"], Some(9))
}

fn gone() -> StateDir {
    booted("gone-bbbb", "/t/removed", "vk 0.62.0 (abcdef)", &["/t"], Some(9))
}

#[test]
fn a_live_checkout_is_not_stale_and_a_deleted_one_is() {
    let rows = scan(&vec![live(), gone()], &vec![], NOW);
    assert_eq!(names(&rows), ["gone-bbbb", "repo-aaaa"]);
    let gone = &rows[0];
    assert_eq!(gone.flags, [Flag::WorkspaceMissing]);
    assert_eq!(gone.status, Status::Stopped);
    assert!(gone.stale());
    let live = &rows[1];
    assert_eq!(live.flags, []);
    assert_eq!(live.workspace.as_ref().map(|w| w.display()).as_deref(), Some("/t/repo"));
    assert_eq!(live.environment.as_deref(), Some("dev"));
    assert_eq!(live.created_by.as_deref(), Some("vk 0.62.0 (abcdef)"));
    assert!(!live.stale());
    assert!(live.size_bytes.is_some_and(|n| n > 0));
    assert_eq!((live.booted_secs, live.age_secs), (Some(NOW - 120), Some(120)));
}

#[test]
fn a_directory_with_no_identity_is_ephemeral_and_never_booted() {
    let rows = scan(&vec![ephemeral("repo-hook-cccc")], &vec![], NOW);
    assert_eq!(rows.len(), 1);
    assert_eq!(rows[0].status, Status::NeverBooted);
    assert_eq!(rows[0].flags, [Flag::Ephemeral]);
    assert!(rows[0].workspace.is_none());
    assert_eq!(rows[0].booted_secs, None);
    assert!(rows[0].stale());
}

#[test]
fn a_workspace_whose_whole_mount_is_gone_is_not_stale() {
    let dirs = vec![
        // The checkout was deleted out of a directory that is still there: stale.
        booted("gone-aaaa", "/t/removed", "vk 0.62.0 (abc)", &["/t"], None),
        // The directory that held it is gone too — an unmounted share or an unplugged
        // disk, not a deleted checkout — so its durable storage is nobody's to collect.
        booted("unmounted-bbbb", "/t/mnt/nas/repo", "vk 0.62.0 (abc)", &[], None),
    ];
    let rows = scan(&dirs, &vec![], NOW);
    let by = |n: &str| rows.iter().find(|r| r.name == n).unwrap();
    assert_eq!(by("gone-aaaa").flags, [Flag::WorkspaceMissing]);
    assert!(by("gone-aaaa").stale());
    assert_eq!(by("unmounted-bbbb").flags, []);
    assert!(!by("unmounted-bbbb").stale());
    // Nothing was measured either, and the JSON says so by leaving the field out.
    assert_eq!(by("gone-aaaa").size_bytes, None);
    let text = json(&rows).unwrap();
    assert!(!text.contains("size_bytes"), "{text}");
}

#[test]
fn an_unreadable_identity_is_as_collectable_as_a_missing_one() {
    let rows = scan(&vec![ephemeral("half-aaaa")], &vec![], NOW);
    assert_eq!(rows[0].status, Status::NeverBooted);
    assert_eq!(rows[0].flags, [Flag::Ephemeral], "a dev.json nothing can read records nothing");
    assert!(rows[0].stale(), "or `gc --all-stale` could never take it");
}

fn free() -> Held {
    Held { locked: true, holder: None, canonical: None }
}

#[test]
fn a_directory_somebody_is_booting_is_not_removed() {
    let rows = scan(&vec![gone()], &vec![], NOW);
    let selected = select_gc(&rows, &vec![], true).unwrap();

    // A boot that started while the caller was answering the prompt holds the lock.
    let held = vec![Held { locked: false, holder: Some("vk (pid 7)".into()), canonical: None }];
    let e = remove(&selected, &held, &vec![]).unwrap_err();
    assert_eq!(e.message, "gone-bbbb is in use by vk (pid 7) — try again when it is done");
    let held = vec![Held { locked: false, holder: None, canonical: None }];
    assert!(remove(&selected, &held, &vec![]).unwrap_err().message.contains("is in use by another vk"));
    // One that came up in the meantime, by either of its paths.
    for up in ["/base/gone-bbbb", "/real/gone-bbbb"] {
        let held = vec![Held { locked: true, holder: None, canonical: Some(p("/real/gone-bbbb")) }];
        let e = remove(&selected, &held, &vec![p(up)]).unwrap_err();
        assert_eq!(e.message, "gone-bbbb is running — `vk dev stop` in /t/removed first");
    }
    let dirs = remove(&selected, &vec![free()], &vec![]).unwrap();
    assert_eq!(dirs[0].display(), "/base/gone-bbbb");
    assert!(removed(&selected[0]).starts_with("removed gone-bbbb"));
}

#[test]
fn a_running_environment_is_reported_and_never_selected() {
    for up in ["/base/repo-aaaa", "/real/repo-aaaa"] {
        let rows = scan(&vec![live()], &vec![p(up)], NOW);
        assert_eq!(rows[0].status, Status::Running);
        assert!(!rows[0].stale());
        let e = select_gc(&rows, &vec!["repo-aaaa".into()], false).unwrap_err();
        assert!(e.message.contains("repo-aaaa is running"), "{}", e.message);
    }
    // an ephemeral one that runs is not stale either
    let rows = scan(&vec![ephemeral("x")], &vec![p("/base/x")], NOW);
    assert!(!rows[0].stale());
    assert_eq!(
        select_gc(&rows, &vec!["x".into()], false).unwrap_err().message,
        "x is running — `vk dev stop` in its workspace first"
    );
}

#[test]
fn selection_takes_names_and_all_stale_and_rejects_an_unknown_one() {
    let rows = scan(&vec![live(), gone(), ephemeral("repo-hook-cccc")], &vec![], NOW);
    let stale = select_gc(&rows, &vec![], true).unwrap();
    assert_eq!(names(&stale), ["gone-bbbb", "repo-hook-cccc"]);
    // A name is taken whether or not it is stale, and never twice.
    let named = select_gc(&rows, &vec!["repo-aaaa".into()], true).unwrap();
    assert_eq!(named.len(), 3);
    assert_eq!(names(&named), ["gone-bbbb", "repo-aaaa", "repo-hook-cccc"]);
    let both = select_gc(&rows, &vec!["gone-bbbb".into()], true).unwrap();
    assert_eq!(both.len(), 2);
    let e = select_gc(&rows, &vec!["nope".into()], false).unwrap_err();
    assert!(e.message.contains("no dev environment state named nope"), "{}", e.message);
    let e = select_gc(&rows, &vec![], false).unwrap_err();
    assert!(e.message.contains("--all-stale"), "{}", e.message);
}

#[test]
fn render_aligns_the_columns_and_names_what_is_missing() {
    let mut rows = scan(&vec![gone(), ephemeral("repo-hook-cccc")], &vec![], NOW);
    // Fixed, so the column reads the same on every run.
    rows[0].age_secs = Some(7200);

    let out = render(&rows);
    let lines: Vec<&str> = out.lines().collect();
    assert!(lines[0].starts_with("NAME"), "{out}");
    assert!(lines[0].contains("CREATED BY  LAST BOOT  ON DISK  FLAGS"), "{out}");
    assert!(lines[1].contains("stopped") && lines[1].contains("vk 0.62.0"), "{out}");
    assert!(lines[1].contains("2h0m") && lines[1].ends_with("workspace missing"), "{out}");
    // Nothing was recorded, so the workspace and environment columns say so.
    assert!(lines[2].starts_with("repo-hook-cccc  ?"), "{out}");
    assert!(lines[2].contains("never booted") && lines[2].ends_with("ephemeral"), "{out}");
    assert_eq!(render(&vec![]), "no dev environment state on this host\n");
}

fn listed(name: &str, size_bytes: u64) -> Listed {
    Listed { name: name.as_bytes().to_vec(), socket: false, size_bytes }
}

#[test]
fn gc_lists_the_storage_it_would_remove_and_then_removes_exactly_that() {
    let rows = scan(&vec![live(), gone()], &vec![], NOW);
    let selected = select_gc(&rows, &vec![], true).unwrap();
    let mut in_dir = vec![
        listed("vscode-server", 2048),
        listed("endpoints.json", 2),
        listed("dev.json", 100),
        listed("console.log", 5),
        listed("id_ed25519", 3),
    ];
    in_dir.push(Listed { name: b"vsock.sock".to_vec(), socket: true, size_bytes: 0 });
    let text = preview(&selected, &vec![contents(&in_dir)]);
    assert!(text.starts_with("would remove 1 environment(s):\n"), "{text}");
    assert!(text.contains("\n    vscode-server  2 KiB\n"), "{text}");
    assert!(text.contains("\n    endpoints.json  2 B\n"), "{text}");
    assert!(text.contains("\n    dev.json  "), "{text}");
    // Logs belong to the run, not the user: they are not offered as storage.
    assert!(!text.contains("console.log"), "{text}");
    assert!(!text.contains("vsock.sock"), "{text}");
    assert!(text.contains("  gone-bbbb  /t/removed  9 B\n    dev.json  100 B\n    endpoints.json"), "{text}");

    let dirs = remove(&selected, &vec![free()], &vec![]).unwrap();
    assert_eq!(dirs.iter().map(|d| d.display()).collect::<Vec<_>>(), ["/base/gone-bbbb"]);
    assert_eq!(removed(&selected[0]), "removed gone-bbbb (9 B)\n");
}

#[test]
fn rows_are_printed_as_json_with_stable_names() {
    let rows = scan(&vec![ephemeral("x")], &vec![], NOW);
    assert_eq!(
        json(&rows).unwrap(),
        "[\n  {\n    \"name\": \"x\",\n    \"dir\": \"/base/x\",\n    \"workspace\": null,\n    \"environment\": null,\n    \"status\": \"never-booted\",\n    \"created_by\": null,\n    \"booted_secs\": null,\n    \"age_secs\": null,\n    \"size_bytes\": 4096,\n    \"flags\": [\n      \"ephemeral\"\n    ]\n  }\n]\n"
    );
    assert_eq!(json(&vec![]).unwrap(), "[]\n");
    let odd = StateDir { dir: HostPath { bytes: b"/base/\xff".to_vec() }, ..ephemeral("x") };
    let rows = scan(&vec![odd], &vec![], NOW);
    assert_eq!(rows[0].name, "\u{fffd}");
    assert!(json(&rows).is_err());
}

#[test]
fn a_table_is_as_wide_as_its_cells() {
    let row = |v: &[&str]| -> Vec<String> { v.iter().map(|s| s.to_string()).collect() };
    let out = table(row(&["A", "LONG"]), vec![row(&["éé", "x"]), row(&["y"]), row(&["z", "w", "more"])]);
    assert_eq!(out, "A   LONG\néé  x\ny\nz   w     more\n");
}

#[test]
fn sizes_and_creators_are_shortened() {
    assert_eq!(fmt_size(None), "-");
    assert_eq!(fmt_size(Some(2048)), "2 KiB");
    assert_eq!(short_creator("vk 0.62.0 (abcdef)"), "vk 0.62.0");
    assert_eq!(short_creator(" vk "), "vk");
    assert_eq!(contents(&vec![]).len(), 0);
    let e = Entry { name: "a".into(), size_bytes: 1 };
    assert_eq!(e.name, "a");
}

#[test]
fn state_needs_a_base_to_be_under() {
    let rows = state(&Some(p("/s")), &None, &vec![live()], &vec![], NOW).unwrap();
    assert_eq!(names(&rows), ["repo-aaaa"]);
    assert!(state(&Some(p("rel")), &None, &vec![], &vec![], NOW).is_err());
    // a clock behind the record says no time has passed
    let rows = state(&None, &Some(p("/h")), &vec![live()], &vec![], 0).unwrap();
    assert_eq!(rows[0].age_secs, Some(0));
}
