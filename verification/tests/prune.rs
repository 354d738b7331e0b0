use vk_dev::identity::Identity;
use vk_dev::list::{scan, StateDir};
use vk_dev::path::HostPath;
use vk_dev::prune::{
    candidates, default_confirm, env_of_state, prune_step, removed, run_by_name, select, unchanged, unfinished,
    Category, Env, FileId, Kind, Options, PruneStep, Selection, Target,
};
use vk_dev::text::{error, Error};
use vk_dev::value::Json;

fn p(s: &str) -> HostPath {
    HostPath::from_text(s)
}

const STATE: &str = "/t/state";

/// A state directory: its files, as paths under it, and its links.
struct Dir {
    files: Vec<String>,
    links: Vec<String>,
    running: Vec<String>,
    canonical: String,
}

fn fixture() -> Dir {
    let files = [
        "root.qcow2",
        "root.qcow2.json",
        "overlay.qcow2",
        "initramfs.cpio",
        "svc-db/db-overlay.qcow2",
        "svc-db/initramfs.cpio",
        "svc-db/console.log",
        "roots/devcontainer.qcow2",
        "roots/devcontainer.qcow2.baseid",
        "roots/old-service.qcow2",
        "overlays/old-service/upper.qcow2",
        "editor/vscode-server/data",
        "cache/nested/data",
        "cache/.vk-generation",
        "data.qcow2",
        "id_ed25519",
        "dev.json",
        "endpoints.json",
        "lifecycle/create",
        "lifecycle/other",
        "console.log",
        "unrelated/data",
    ];
    Dir {
        files: files.iter().map(|f| f.to_string()).collect(),
        links: vec![],
        running: vec![],
        canonical: STATE.to_string(),
    }
}

impl Dir {
    fn has(&self, path: &str) -> bool {
        self.files.iter().any(|f| f == path || f.starts_with(&format!("{path}/")))
    }

    fn kind(&self, path: &str) -> Kind {
        let mut at = String::new();
        let parts: Vec<&str> = path.split('/').collect();
        for (i, part) in parts.iter().enumerate() {
            if i > 0 {
                at.push('/');
            }
            at.push_str(part);
            if self.links.contains(&at) {
                return match i + 1 == parts.len() {
                    true => Kind::Other,
                    false => Kind::Unreadable("prune path contains a symlink or unreadable directory".into()),
                };
            }
        }
        match (self.files.iter().any(|f| f == path), self.has(path)) {
            (true, _) => Kind::File,
            (false, true) => Kind::Dir,
            _ => Kind::Missing,
        }
    }

    fn entries(&self) -> Vec<HostPath> {
        let mut names: Vec<String> =
            self.files.iter().chain(&self.links).map(|f| f.split('/').next().unwrap().to_string()).collect();
        names.sort();
        names.dedup();
        names.iter().map(|n| p(n)).collect()
    }

    fn select(&self, env: &Env, opts: &Options) -> Result<Selection, Error> {
        let running: Vec<HostPath> = self.running.iter().map(|r| p(r)).collect();
        let c = candidates(env, opts, &p(&self.canonical), &running, &self.entries())?;
        let kinds = c.paths.iter().map(|t| self.kind(&t.path.display())).collect();
        select(env, c, &kinds, &self.kind("lifecycle/create"))
    }

    fn remove(&mut self, s: &Selection) {
        for t in &s.targets {
            let path = t.path.display();
            self.files.retain(|f| *f != path && !f.starts_with(&format!("{path}/")));
        }
    }

    /// What a prune prints, having done it.
    fn run(
        &mut self,
        env: &Env,
        opts: &Options,
        confirm: &dyn Fn() -> Result<bool, Error>,
    ) -> Result<String, String> {
        let s = self.select(env, opts).map_err(|e| e.message)?;
        let mut answer = None;
        loop {
            match prune_step(env, &s, opts, answer) {
                PruneStep::Report(t) => return Ok(t),
                PruneStep::Ask(_) => answer = Some(confirm()),
                PruneStep::Refuse(e) => return Err(e.message),
                PruneStep::Remove(_) => {
                    self.remove(&s);
                    return Ok(s.targets.iter().map(|t| removed(env, t)).collect());
                }
            }
        }
    }
}

fn never() -> Result<bool, Error> {
    panic!("must not ask")
}

fn env_with(backings: &[&str]) -> Env {
    Env {
        state_dir: p(STATE),
        environment: "dev".into(),
        backings: Some(backings.iter().map(|b| p(b)).collect()),
    }
}

/// What the compose file and the config declare.
fn declared() -> Env {
    env_with(&[
        "/t/state/roots/devcontainer.qcow2",
        "/t/state/data.qcow2",
        "/t/repo/external.qcow2",
        "/t/state/cache",
        "/t/state/cache/nested",
    ])
}

fn yes() -> Options {
    Options { yes: true, ..Options::default() }
}

#[test]
fn default_removes_only_boot_media_and_rearms_the_create_hook() {
    let mut d = fixture();
    let report = d.run(&declared(), &yes(), &never).unwrap();
    assert!(report.contains("root.qcow2"));
    for name in ["root.qcow2", "root.qcow2.json", "svc-db/db-overlay.qcow2", "lifecycle/create"] {
        assert!(!d.has(name), "{name}");
    }
    for name in [
        "roots/devcontainer.qcow2",
        "overlays/old-service/upper.qcow2",
        "cache/nested/data",
        "editor/vscode-server/data",
        "data.qcow2",
        "id_ed25519",
        "dev.json",
        "endpoints.json",
        "svc-db/console.log",
        "lifecycle/other",
        "unrelated/data",
    ] {
        assert!(d.has(name), "{name}");
    }
    assert!(d.run(&declared(), &yes(), &never).unwrap().contains("nothing to remove"));
}

#[test]
fn storage_removes_backings_and_sidecars_but_keeps_images_and_external_data() {
    let mut d = fixture();
    let e = declared();
    let selected = d.select(&e, &Options { storage: true, ..Options::default() }).unwrap();
    assert!(selected.preview(&e).contains("keep [external storage]"));
    d.remove(&selected);
    for name in ["roots", "overlays", "editor", "cache", "data.qcow2", "lifecycle/create"] {
        assert!(!d.has(name), "{name}");
    }
    assert!(d.has("root.qcow2"));
    assert!(d.has("dev.json"));
}

#[test]
fn storage_under_a_symlinked_state_base_is_still_local() {
    let mut d = fixture();
    d.canonical = "/real/state".into();
    let mut e = declared();
    e.backings = Some(vec![p("/real/state/data.qcow2"), p("/t/state/cache"), p("/t/repo/external.qcow2")]);
    let selected = d.select(&e, &Options { storage: true, ..Options::default() }).unwrap();
    let kept: Vec<String> = selected.external.iter().map(|x| x.display()).collect();
    assert_eq!(kept, ["/t/repo/external.qcow2"]);
    d.remove(&selected);
    assert!(!d.has("data.qcow2"));
    assert!(!d.has("cache"));
    assert!(d.has("dev.json"));
}

#[test]
fn all_combines_selections_but_never_selects_the_state_directory() {
    let mut d = fixture();
    d.run(&declared(), &Options { all: true, ..yes() }, &never).unwrap();
    assert!(!d.has("root.qcow2"));
    assert!(!d.has("roots"));
    assert!(d.has("id_ed25519"));
}

#[test]
fn recorded_backings_let_a_loose_disk_be_pruned_by_name() {
    let mut d = fixture();
    let recorded = env_with(&["/t/state/data.qcow2", "/t/repo/external.qcow2"]);
    d.run(&recorded, &Options { all: true, ..yes() }, &never).unwrap();
    assert!(!d.has("data.qcow2")); // the recorded loose disk
    assert!(!d.has("root.qcow2")); // images
    assert!(!d.has("roots")); // fixed storage
    assert!(d.has("id_ed25519")); // identity, kept
}

fn legacy() -> Env {
    Env { state_dir: p(STATE), environment: "dev".into(), backings: None }
}

#[test]
fn unrecorded_backings_keep_a_loose_disk_and_warn() {
    let mut d = fixture();
    let report = d.run(&legacy(), &Options { all: true, dry_run: true, ..Options::default() }, &never).unwrap();
    assert!(report.contains("declared storage was not recorded"));
    d.run(&legacy(), &Options { all: true, ..yes() }, &never).unwrap();
    assert!(d.has("data.qcow2")); // loose disk unidentified, kept
    assert!(!d.has("root.qcow2")); // images gone
    assert!(!d.has("roots")); // fixed storage gone
}

#[test]
fn dry_run_overrides_yes_and_refusal_preserves_everything() {
    let mut d = fixture();
    let opts = Options { all: true, dry_run: true, ..yes() };
    let e = declared();
    let report = d.run(&e, &opts, &never).unwrap();
    assert!(report.contains("dry run: nothing was removed"));
    assert!(report.contains("persistent storage contents will be lost"));
    assert!(d.run(&e, &Options::default(), &|| Ok(false)).is_err());
    assert!(d.run(&e, &Options::default(), &|| Err(error("no terminal".into()))).is_err());
    for name in ["root.qcow2", "data.qcow2", "lifecycle/create", "dev.json"] {
        assert!(d.has(name), "{name}");
    }
    d.run(&e, &Options::default(), &|| Ok(true)).unwrap();
    assert!(!d.has("root.qcow2"));
}

#[test]
fn declared_storage_overrides_a_boot_media_filename() {
    let mut d = fixture();
    d.run(&env_with(&["/t/state/root.qcow2"]), &yes(), &never).unwrap();
    assert!(d.has("root.qcow2"));
}

#[test]
fn options_default_to_images_and_allow_an_explicit_union() {
    let none = Options::default();
    for (opts, images, storage) in [
        (none, true, false),
        (Options { images: true, ..none }, true, false),
        (Options { storage: true, ..none }, false, true),
        (Options { images: true, storage: true, ..none }, true, true),
        (Options { all: true, ..none }, true, true),
    ] {
        assert_eq!((opts.images(), opts.storage()), (images, storage));
    }
}

#[test]
fn storage_cannot_select_identity_or_escape_above_state() {
    let mut d = fixture();
    for backing in ["/t/state", "/t/state/id_ed25519", "/t/state/lifecycle", "/t/state/../repo"] {
        assert!(d.run(&env_with(&[backing]), &Options { all: true, ..yes() }, &never).is_err(), "{backing}");
        assert!(d.has("root.qcow2"));
        assert!(d.has("id_ed25519"));
    }
    let said = |backing: &str| {
        fixture().run(&env_with(&[backing]), &Options { all: true, ..yes() }, &never).unwrap_err()
    };
    assert_eq!(said("/t/state"), "storage names the state directory");
    assert_eq!(
        said("/t/state/lifecycle/x"),
        "storage /t/state/lifecycle/x overlaps environment identity or control data; left alone"
    );
    assert_eq!(said("/t/state/../repo"), "selecting /t/state/../repo: invalid prune path ../repo");
}

#[test]
fn symlinked_selected_paths_are_refused_but_links_inside_storage_are_not_followed() {
    let mut d = fixture();
    d.files.retain(|f| f != "root.qcow2");
    d.links.push("root.qcow2".into());
    let e = d.run(&declared(), &yes(), &never).unwrap_err();
    assert_eq!(
        e,
        "selecting /t/state/root.qcow2: root.qcow2 is a symlink or an unexpected file type; left alone"
    );
    d.links = vec!["escape".into()];
    let e = env_with(&["/t/state/data.qcow2", "/t/state/escape/subdir"]);
    assert!(d.run(&e, &Options { storage: true, ..yes() }, &never).is_err());
    assert!(d.has("data.qcow2"));
    d.links = vec!["cache/link".into()];
    d.run(&declared(), &Options { storage: true, ..yes() }, &never).unwrap();
    assert!(!d.has("cache"));
}

#[test]
fn changed_selection_fails_before_removing_anything() {
    let t = Target { path: p("root.qcow2"), category: Category::Images };
    let then = FileId { dev: 1, ino: 2, mode: 0o644 };
    assert!(unchanged(&t, then, then).is_ok());
    for now in [FileId { dev: 9, ..then }, FileId { ino: 9, ..then }, FileId { mode: 9, ..then }] {
        assert_eq!(
            unchanged(&t, then, now).unwrap_err().message,
            "root.qcow2 changed while pruning; nothing further was removed"
        );
    }
    assert_eq!(
        unfinished("removed a\n", &legacy(), &t),
        "removed a\ncould not finish removing /t/state/root.qcow2; pruning may be partial"
    );
}

#[test]
fn a_running_service_refuses_the_prune() {
    let mut d = fixture();
    d.running = vec!["/t/state/svc-db".into()];
    assert_eq!(
        d.run(&declared(), &yes(), &never).unwrap_err(),
        "environment or one of its services is running; `vk dev stop` first"
    );
    d.running = vec!["/t/state-other".into()];
    assert!(d.run(&declared(), &yes(), &never).is_ok());
}

#[test]
fn missing_state_is_a_read_only_noop() {
    let step = prune_step(&declared(), &Selection::nothing(), &Options::default(), None);
    assert!(matches!(step, PruneStep::Report(t) if t.contains("nothing to remove")));
}

#[test]
fn unrecorded_backings_warn_even_on_a_default_images_prune() {
    let mut d = fixture();
    let report = d.run(&legacy(), &Options { dry_run: true, ..Options::default() }, &never).unwrap();
    assert!(report.contains("declared storage was not recorded"));
}

fn identity(environment: Option<&str>, backings: Option<Vec<HostPath>>) -> Option<Identity> {
    let fields = match environment {
        Some(e) => vec![("environment".to_string(), Json::Text(e.into()))],
        None => vec![],
    };
    Some(Identity {
        digest: "d".into(),
        booted_secs: 0,
        created_by: String::new(),
        generation: String::new(),
        manifest: Json::Object(fields),
        storage_backings: backings,
    })
}

#[test]
fn env_of_state_reads_the_recorded_label_and_backings() {
    let e = env_of_state(&p(STATE), &identity(Some("web"), Some(vec![p("/t/state/data.qcow2")])));
    assert_eq!(e.state_dir.display(), STATE);
    assert_eq!(e.environment, "web"); // the manifest's label, not the state-dir name
    let backings: Vec<String> = e.backings.unwrap().iter().map(|b| b.display()).collect();
    assert_eq!(backings, ["/t/state/data.qcow2"]);
}

#[test]
fn env_of_state_falls_back_without_a_recorded_environment_or_backings() {
    // A dev.json an older vk wrote: no environment in the manifest, no storage_backings.
    let e = env_of_state(&p(STATE), &identity(None, None));
    assert!(e.backings.is_none());
    assert_eq!(e.environment, "state");
    // A directory with no dev.json at all records nothing either.
    assert!(env_of_state(&p(STATE), &None).backings.is_none());
}

#[test]
fn prune_by_name_resolves_host_wide_state_and_reports_an_unknown_name() {
    let dir = StateDir {
        dir: p("/base/proj-1a2b"),
        canonical: None,
        identity: None,
        existing: vec![],
        size_bytes: None,
    };
    let rows = scan(&vec![dir], &vec![], 0);
    assert_eq!(run_by_name(&rows, "proj-1a2b").unwrap().display(), "/base/proj-1a2b");
    let err = run_by_name(&rows, "absent").unwrap_err().message;
    assert!(err.contains("no dev environment state named absent"), "{err}");
}

#[test]
fn nobody_is_asked_without_a_terminal() {
    assert_eq!(default_confirm(true).unwrap(), "remove the selected data?");
    assert_eq!(
        default_confirm(false).unwrap_err().message,
        "nothing was removed: use --yes to confirm, or --dry-run to preview"
    );
}

#[test]
fn a_preview_lists_what_goes_and_what_stays() {
    let d = fixture();
    let e = declared();
    let s = d.select(&e, &Options { storage: true, ..Options::default() }).unwrap();
    assert_eq!(
        s.preview(&e),
        "environment dev (/t/state)\n  remove [hook stamp] /t/state/lifecycle/create\n  remove [storage] /t/state/cache\n  remove [storage] /t/state/data.qcow2\n  remove [storage] /t/state/editor\n  remove [storage] /t/state/overlays\n  remove [storage] /t/state/roots\n  keep [external storage] /t/repo/external.qcow2\nselected persistent storage contents will be lost\nshared image/build caches, environment identity and SSH keys are kept\n"
    );
}

#[test]
fn what_stands_under_a_target_is_no_target_of_its_own() {
    let d = fixture();
    let e = env_with(&["/t/state/roots/devcontainer.qcow2", "/t/state/cache/nested", "/t/state/cache"]);
    let s = d.select(&e, &Options { all: true, ..Options::default() }).unwrap();
    let paths: Vec<&HostPath> = s.targets.iter().map(|t| &t.path).collect();
    assert_eq!(paths[0].display(), "lifecycle/create");
    assert!(paths.iter().any(|x| x.display() == "cache") && paths.iter().any(|x| x.display() == "roots"));
    for (i, a) in paths.iter().enumerate() {
        for (j, b) in paths.iter().enumerate() {
            assert!(i == j || !a.starts_with(b), "{} under {}", a.display(), b.display());
        }
    }
}
