use vk_dev::config::{Cache, Command, Freshness, Nested, Requires};
use vk_dev::hooks::{
    announce, best_effort, check_requirements, commands, ended, guest_dir, hook_outcome, host_dir, next_start_step,
    stamp_path, stamped, Ended, Lacking, StartStep,
};
use vk_dev::identity::{generation_of, identity_of};
use vk_dev::path::HostPath;
use vk_dev::plan::{HookCommand, HookPlan, HooksPlan, Plan, Source};

fn p(s: &str) -> HostPath {
    HostPath::from_text(s)
}

fn plan_in(dir: &str) -> Plan {
    Plan {
        workspace: p(&format!("{dir}/repo")),
        config: p(&format!("{dir}/repo/.virtkit/config.toml")),
        environment: "dev".into(),
        state_dir: p(&format!("{dir}/state")),
        source: Source::Compose {
            file: p(&format!("{dir}/repo/compose.yaml")),
            service: "devcontainer".into(),
            profiles: vec![],
        },
        workspace_folder: Some("/workdir".into()),
        user: Some("dev".into()),
        freshness: Freshness::Ask,
        cpus: None,
        mem: None,
        nested: Nested::Off,
        mounts: vec![],
        container_env: vec![],
        exec_env: vec![],
        endpoints: vec![],
        host_exec: None,
        ssh_agent: false,
        cache: Cache::default(),
        requires: Requires::default(),
        cached_only: false,
        fallback_target: None,
        tasks: vec![],
        hooks: HooksPlan { init: None, create: None, start: None },
        vscode: None,
        managed_dirs: vec![],
        unresolved: vec![],
        secrets: vec![],
    }
}

fn detailed(line: &str, cwd: Option<&str>, timeout: Option<u64>, required: bool) -> HookPlan {
    HookPlan::Command(HookCommand {
        run: Command::Shell(line.into()),
        cwd: cwd.map(str::to_string),
        timeout_secs: timeout,
        required,
    })
}

fn shell(line: &str) -> HookPlan {
    detailed(line, None, None, true)
}

fn command(h: &HookPlan) -> &HookCommand {
    match h {
        HookPlan::Command(c) => c,
        HookPlan::Group(_) => panic!("a group"),
    }
}

/// Run a hook whose commands end as `end` says of their lines.
fn run_hook(h: &HookPlan, name: &str, end: &dyn Fn(&str) -> Ended) -> Result<Vec<String>, String> {
    let mut ran = vec![];
    let mut results = vec![];
    for c in commands(h, name) {
        let line = c.command.argv().last().cloned().unwrap_or_default();
        results.push(ended(c.command, &c.label, &end(&line)));
        ran.push(line);
    }
    hook_outcome(h, name, &results).map(|_| ran).map_err(|e| e.message)
}

#[test]
fn a_host_hook_runs_from_the_workspace_and_its_failure_stops_the_boot() {
    let plan = plan_in("/t");
    // cwd is the workspace: what the hook prepares is what the boot then reads.
    let init = shell("pwd > where; echo prepared > marker");
    assert_eq!(host_dir(&plan.workspace, command(&init)).display(), "/t/repo");
    let fine = |_: &str| Ended::Succeeded;
    assert_eq!(run_hook(&init, "hooks.init", &fine).unwrap(), ["pwd > where; echo prepared > marker"]);

    let fails = |l: &str| match l.contains("exit") {
        true => Ended::Failed("exit status: 3".into()),
        false => Ended::Succeeded,
    };
    let failed = run_hook(&shell("exit 3"), "hooks.init", &fails);
    assert_eq!(failed.unwrap_err(), "hooks.init failed (exit status: 3)", "a failing hook must not be swallowed");

    // A named group runs every member and fails as a whole if any member does.
    let group = HookPlan::Group(vec![
        ("one".to_string(), shell("touch one")),
        ("two".to_string(), shell("touch two; exit 1")),
        ("three".to_string(), shell("touch three")),
    ]);
    let err = run_hook(&group, "hooks.create", &fails).unwrap_err();
    assert_eq!(err, "hooks.create: hooks.create.two: hooks.create.two failed (exit status: 3)");
    assert_eq!(run_hook(&group, "hooks.create", &fine).unwrap().len(), 3, "the whole group still ran");

    // The options: a working directory under the workspace, a failure that is reported
    // and not fatal, and a time limit that is.
    let sub = detailed("pwd > where", Some("sub"), None, true);
    assert_eq!(host_dir(&plan.workspace, command(&sub)).display(), "/t/repo/sub");
    run_hook(&detailed("exit 5", None, None, false), "hooks.init", &fails).expect("best effort: reported, not fatal");
    let slow = |_: &str| Ended::TimedOut;
    let err = run_hook(&detailed("sleep 5", None, Some(1), true), "hooks.init", &slow).unwrap_err();
    assert!(err.contains("within 1s"), "{err}");
}

#[test]
fn a_group_in_a_group_is_reported_by_its_path() {
    let group = HookPlan::Group(vec![
        ("a".to_string(), HookPlan::Group(vec![("x".to_string(), shell("exit")), ("y".to_string(), shell("true"))])),
        ("b".to_string(), shell("exit")),
    ]);
    let labels: Vec<String> = commands(&group, "h").into_iter().map(|c| c.label).collect();
    assert_eq!(labels, ["h.a.x", "h.a.y", "h.b"]);
    let fails = |l: &str| match l.contains("exit") {
        true => Ended::Exited(Some(2)),
        false => Ended::Exited(Some(0)),
    };
    assert_eq!(
        run_hook(&group, "h", &fails).unwrap_err(),
        "h: h.a: h.a: h.a.x: h.a.x exited 2; h.b: h.b exited 2"
    );
}

#[test]
fn the_create_stamp_is_per_generation_and_only_written_on_success() {
    let mut plan = plan_in("/t");
    assert!(!stamped(&None, "abc"), "nothing has run yet");
    let stamp = Some("abc".to_string());
    assert!(stamped(&stamp, "abc"), "a restart must not re-run it");
    // Materialized afresh — a rebuilt image, a reset directory: the hook that sets one
    // up runs again.
    assert!(!stamped(&stamp, "def"));
    // A stamp an older vk wrote holds a config digest, which is no generation, so the
    // first boot after an upgrade runs the hook once more.
    plan.managed_dirs = vec![p("/t/state/store")];
    let (digest, _) = identity_of(&plan, &None).unwrap();
    assert!(!stamped(&Some(digest), &generation_of(&plan, "ext4:aaaa", &vec![Some("m".into())])));
    assert_eq!(stamp_path(&plan.state_dir, "create").display(), "/t/state/lifecycle/create");
}

#[test]
fn the_start_hooks_run_in_turn() {
    let mut plan = plan_in("/t");
    let g = Some("gen".to_string());
    assert_eq!(next_start_step(&plan, &g, &None, None), StartStep::Done);
    plan.hooks.create = Some(shell("setup"));
    plan.hooks.start = Some(shell("serve"));
    // a generation that has not had it
    assert_eq!(next_start_step(&plan, &g, &None, None), StartStep::RunCreate);
    assert_eq!(next_start_step(&plan, &g, &None, Some(StartStep::RunCreate)), StartStep::StampCreate);
    assert_eq!(next_start_step(&plan, &g, &None, Some(StartStep::StampCreate)), StartStep::RunStart);
    assert_eq!(next_start_step(&plan, &g, &None, Some(StartStep::RunStart)), StartStep::Done);
    // one that has
    let stamp = Some("gen\n".to_string());
    assert_eq!(next_start_step(&plan, &g, &stamp, None), StartStep::RunStart);
    // nothing to read a generation off: it runs, and is not stamped
    assert_eq!(next_start_step(&plan, &None, &stamp, None), StartStep::RunCreate);
    assert_eq!(next_start_step(&plan, &None, &stamp, Some(StartStep::RunCreate)), StartStep::RunStart);
}

#[test]
fn a_guest_hook_runs_under_the_workspace_folder() {
    let folder = Some("/workdir".to_string());
    let dir = |cwd: Option<&str>, folder: &Option<String>| {
        guest_dir(command(&detailed("true", cwd, None, true)), folder)
    };
    assert_eq!(dir(Some("/abs"), &folder).as_deref(), Some("/abs"));
    assert_eq!(dir(Some("sub"), &folder).as_deref(), Some("/workdir/sub"));
    assert_eq!(dir(Some("sub"), &None).as_deref(), Some("sub"));
    assert_eq!(dir(None, &folder).as_deref(), Some("/workdir"));
}

#[test]
fn a_command_ends_as_its_place_says() {
    let h = detailed("true", None, Some(90), true);
    let c = command(&h);
    assert_eq!(ended(c, "h", &Ended::Exited(None)), None);
    assert_eq!(ended(c, "h", &Ended::Exited(Some(0))), None);
    assert_eq!(ended(c, "h", &Ended::Exited(Some(-1))).as_deref(), Some("h exited -1"));
    assert_eq!(ended(c, "h", &Ended::TimedOut).as_deref(), Some("h did not finish within 90s"));
    assert_eq!(ended(c, "h", &Ended::NotRun("h: running \"sh\"".into())).as_deref(), Some("h: running \"sh\""));
    assert_eq!(announce("hooks.init", "sh -c true"), "virtkit: hooks.init: sh -c true");
    assert_eq!(best_effort("h exited 1"), "virtkit: h exited 1 — best effort, continuing");
}

#[test]
fn requirements_are_met_or_the_boot_does_not_begin() {
    let mut plan = plan_in("/t");
    let exe = p("/usr/bin/vk");
    let known = vec!["nested".to_string(), "kvm".to_string()];
    let why = |plan: &Plan, found: &Vec<Lacking>| {
        check_requirements(plan, &exe, "0.64.0", &known, found).map_err(|e| e.message)
    };
    assert_eq!(why(&plan, &vec![]), Ok(()));
    plan.requires.min_version = Some("0.64.0".into());
    assert_eq!(why(&plan, &vec![]), Ok(()));
    plan.requires.min_version = Some("0.65.0".into());
    assert_eq!(
        why(&plan, &vec![]),
        Err("/usr/bin/vk is vk 0.64.0, and /t/repo/.virtkit/config.toml requires at least 0.65.0 — `vk update`, or point VIRTKIT_VK at a newer build".into())
    );
    plan.requires.min_version = Some("soon".into());
    assert!(why(&plan, &vec![]).unwrap_err().starts_with("requires.min-version \"soon\": "));
    plan.requires.min_version = None;
    plan.requires.features = vec!["kvm".into(), "nested".into()];
    let found = vec![Lacking { feature: "nested".into(), why: "off".into() }];
    assert_eq!(
        why(&plan, &found),
        Err("/usr/bin/vk does not provide what /t/repo/.virtkit/config.toml requires:\n  nested: off".into())
    );
    plan.requires.features = vec!["magic".into()];
    assert_eq!(
        why(&plan, &vec![]),
        Err("requires.features names \"magic\", which is not a feature `vk check` knows".into())
    );
}
