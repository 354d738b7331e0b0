use vk_dev::boot::{
    after_swap, asks, boot, build, builtin_wrapper, decide, generation_token, read_transition, shell_quote_utf8,
    transition_note, transition_path, wait_step, wrapper_allowed, wrapper_path, BootStep, Drifted, Found, InFlight,
    Swapped, Transition, Wanted,
};
use vk_dev::config::{Cache, CheckoutMode, Cpus, Freshness, Nested, Policy, Requires};
use vk_dev::identity::{identity_of, marker_of, Identity};
use vk_dev::init::service_names;
use vk_dev::path::HostPath;
use vk_dev::plan::{EnvVar, HooksPlan, MountPlan, Plan, Source, TaskPlan};
use vk_dev::runargs::{
    alias, build_args, check_service, checked_alias, outside_workspace, run_args, short, stage_label, task_args,
    task_state_dir, worktree_git_dir, CacheOpts, Host, Overrides, RunArgs,
};
use vk_dev::text::error;
use vk_dev::value::Json;

fn p(s: &str) -> HostPath {
    HostPath::from_text(s)
}

fn plan_in(dir: &str) -> Plan {
    Plan {
        workspace: p(&format!("{dir}/repo")),
        config: p(&format!("{dir}/repo/.virtkit/config.toml")),
        environment: "dev".into(),
        state_dir: p(&format!("{dir}/state")),
        source: Source::Compose {
            file: p(&format!("{dir}/repo/compose.yaml")),
            service: "devcontainer".into(),
            profiles: vec![],
        },
        workspace_folder: Some("/workdir".into()),
        user: Some("dev".into()),
        freshness: Freshness::Ask,
        cpus: None,
        mem: None,
        nested: Nested::Off,
        mounts: vec![],
        container_env: vec![],
        exec_env: vec![],
        endpoints: vec![],
        host_exec: None,
        ssh_agent: false,
        cache: Cache::default(),
        requires: Requires::default(),
        cached_only: false,
        fallback_target: None,
        tasks: vec![],
        hooks: HooksPlan { init: None, create: None, start: None },
        vscode: None,
        managed_dirs: vec![],
        unresolved: vec![],
        secrets: vec![],
    }
}

fn no_cache() -> CacheOpts {
    CacheOpts { registry: None, insecure: false, username: String::new() }
}

fn host() -> Host {
    Host { cpus: Some(8), nests: false, git_dir: None, cache: no_cache() }
}

fn shared(plan: &Plan, over: &Overrides, host: &Host) -> RunArgs {
    run_args(plan, &None, over, host, CheckoutMode::Shared).unwrap()
}

#[test]
fn an_environment_caches_where_the_rest_of_the_host_caches() {
    let mut plan = plan_in("/t");
    // What the config asks for wins.
    plan.cache = Cache { registry: Some("127.0.0.1:5000/cache".into()), insecure: true };
    let args = shared(&plan, &Overrides::default(), &host());
    assert_eq!(args.cache.registry.as_deref(), Some("127.0.0.1:5000/cache"));
    assert!(args.cache.insecure);

    // Saying nothing falls through to `[build]`, the same answer `vk run` gets, with the
    // credentials that destination needs — not the local store nothing else reads.
    plan.cache = Cache::default();
    let mut named = host();
    named.cache.registry = Some("registry.example/cache".into());
    named.cache.username = "ci".into();
    let args = shared(&plan, &Overrides::default(), &named);
    assert_eq!(args.cache.registry.as_deref(), Some("registry.example/cache"));
    assert_eq!(args.cache.username, "ci");
}

#[test]
fn the_run_is_the_plan_and_nothing_else() {
    let mut plan = plan_in("/t");
    plan.cpus = Some(Cpus::Count(4));
    plan.mem = Some("8G".into());
    plan.nested = Nested::Required;
    plan.source = Source::Compose {
        file: p("/t/repo/compose.yaml"),
        service: "devcontainer".into(),
        profiles: vec!["runner".into()],
    };
    let over = Overrides::default();
    let args = run_args(&plan, &Some(p("/state/wrapper")), &over, &host(), CheckoutMode::Shared).unwrap();

    assert_eq!(args.compose.as_ref().map(|f| f.display()).as_deref(), Some("/t/repo/compose.yaml"));
    assert_eq!(args.primary.as_deref(), Some("devcontainer"));
    assert_eq!(args.profiles, ["runner"]);
    assert!(args.image.is_empty() && args.dockerfiles.is_empty());
    assert_eq!(args.state_dir.display(), plan.state_dir.display());
    assert_eq!(args.workspace.display(), plan.workspace.display());
    assert_eq!(args.cpus, Some(4));
    assert_eq!(args.mem.as_deref(), Some("8G"));
    assert!(args.nested, "required nesting is asked for whatever the host says");
    assert!(args.net, "compose services need the run's LAN");
    assert!(args.inactivity_timeout_secs.is_none(), "the service's own command holds the VM");
    assert!(args.volumes.is_empty(), "a compose service mounts the checkout itself");
    assert!(args.ssh && args.ssh_client, "the managed client is how it is reached");
    assert_eq!(args.ssh_user, "dev");
    assert_eq!(args.ssh_alias, "vk-state");
    assert!(args.detach, "a dev environment outlives the command that started it");
    assert_eq!(args.detach_log.as_ref().map(|f| f.display()).as_deref(), Some("/t/state/boot.log"));
    assert!(args.host_exec);
    assert_eq!(args.host_exec_wrapper.as_ref().map(|f| f.display()).as_deref(), Some("/state/wrapper"));
    assert!(args.command.is_empty(), "the compose service's own command runs");

    // `host` asks this machine what it has.
    plan.cpus = Some(Cpus::Host);
    assert_eq!(shared(&plan, &over, &host()).cpus, Some(8));
    let mut blind = host();
    blind.cpus = None;
    let e = run_args(&plan, &None, &over, &blind, CheckoutMode::Shared).unwrap_err();
    assert_eq!(e.message, "detecting the host CPU count");
    plan.cpus = None;

    // Alone in its VM, an image or build source gets the checkout mounted where the
    // config says, and the source spelled the way `vk run` takes it.
    plan.source = Source::Image { reference: "debian:13".into() };
    let args = shared(&plan, &over, &host());
    assert_eq!(args.image, "debian:13");
    assert!(args.compose.is_none() && args.primary.is_none());
    assert_eq!(args.volumes, ["/t/repo:/workdir"]);
    assert!(args.net, "an image alone still needs egress");
    assert_eq!(
        args.inactivity_timeout_secs,
        Some(0),
        "nothing runs in it to hold it, so the run does, until stopped"
    );
    plan.source = Source::Build {
        context: p("/t/repo/docker"),
        dockerfile: p("/t/repo/docker/Dockerfile"),
        target: Some("dev".into()),
        args: vec![("DEVUSER_UID".into(), "1000".into())],
    };
    let args = shared(&plan, &over, &host());
    assert_eq!(args.dockerfiles[0].display(), "/t/repo/docker/Dockerfile");
    assert_eq!(args.contexts[0].display(), "/t/repo/docker");
    assert_eq!(args.target.as_deref(), Some("dev"));
    assert_eq!(args.build_args, [("DEVUSER_UID".to_string(), "1000".to_string())]);
    let overlay = run_args(&plan, &None, &over, &host(), CheckoutMode::Overlay).unwrap();
    assert_eq!(overlay.volumes, ["/t/repo:/workdir:overlay"]);
}

#[test]
fn the_prebuild_and_the_boot_ask_for_the_same_images_and_cache() {
    // Warming is only worth anything if the boot then restores what it cached, so both
    // sides read their build inputs off one `RunArgs`.
    let mut plan = plan_in("/t");
    plan.cache = Cache { registry: Some("127.0.0.1:5000/cache".into()), insecure: true };
    let args = shared(&plan, &Overrides::default(), &host());
    assert_eq!(args.cache.registry.as_deref(), Some("127.0.0.1:5000/cache"));
    assert!(args.cache.insecure);

    // The command line is the last word, over what the config says.
    let over = Overrides {
        cache_registry: Some("/var/cache/vk".into()),
        cache_insecure: false,
        freshness: None,
    };
    let args = shared(&plan, &over, &host());
    assert_eq!(args.cache.registry.as_deref(), Some("/var/cache/vk"));
    // …and only over what it speaks about: the config still asked for plain HTTP.
    assert!(args.cache.insecure);
    let built = build_args(&plan, &over, &host(), &None).unwrap();
    assert_eq!(built.cache.registry, args.cache.registry);
    assert_eq!(built.primary, args.primary);
}

#[test]
fn a_service_build_targets_that_service_and_needs_a_compose_source() {
    let mut plan = plan_in("/t");
    let over = Overrides::default();

    // Nothing named: the primary, exactly as the boot builds it.
    let args = build_args(&plan, &over, &host(), &None).unwrap();
    assert_eq!(args.primary.as_deref(), Some("devcontainer"));

    // A service takes the primary's place, off the same compose file — so the sibling
    // builds against what the environment builds against.
    let args = build_args(&plan, &over, &host(), &Some("runner".into())).unwrap();
    assert_eq!(args.primary.as_deref(), Some("runner"));
    assert_eq!(args.compose.as_ref().map(|f| f.display()).as_deref(), Some("/t/repo/compose.yaml"));

    // An environment that is one image has no sibling to name.
    plan.source = Source::Image { reference: "debian:13".into() };
    let e = build_args(&plan, &over, &host(), &Some("runner".into())).unwrap_err();
    assert!(e.message.starts_with("--service needs a compose source; /t/repo/.virtkit/config.toml builds"));
    assert!(build_args(&plan, &over, &host(), &None).is_ok());
}

#[test]
fn an_unknown_service_names_the_ones_the_compose_file_declares() {
    let yaml = "services:\n\
             \x20 dev:\n    build: ./dev\n\
             \x20 runner:\n    build: ./runner\n    profiles: [runner]\n";
    let units = service_names(&p("/base/compose.yaml"), yaml).unwrap();
    check_service(&units, "runner").unwrap();
    let err = check_service(&units, "runer").unwrap_err().message;
    assert!(err.contains("dev, runner"), "{err}");
    assert_eq!(err, "--service \"runer\": no such compose service (declared: dev, runner)");
}

#[test]
fn a_linked_worktrees_git_dir_is_mounted_and_a_main_checkouts_is_not() {
    let ws = p("/home/dev/repo-wip");
    // A linked worktree: git names a directory elsewhere, which the guest must see at
    // that same path — it is what the worktree's `.git` file points at.
    assert_eq!(
        outside_workspace(&ws, p("/home/dev/repo/.git")).map(|d| d.display()),
        Some("/home/dev/repo/.git".to_string())
    );
    // A main checkout: already inside what the guest has, so mounting it again would
    // shadow part of the workspace with itself.
    assert!(outside_workspace(&ws, p("/home/dev/repo-wip/.git")).is_none());
}

#[test]
fn what_git_prints_is_trimmed_and_mounted_at_its_own_path() {
    let ws = p("/t/repo");
    let found = worktree_git_dir(&ws, Some(b"/t/main/.git\n".to_vec()));
    assert_eq!(found.as_ref().map(|d| d.display()).as_deref(), Some("/t/main/.git"));
    assert!(worktree_git_dir(&ws, Some(vec![0xff])).is_none());
    assert!(worktree_git_dir(&ws, None).is_none());
    let mut h = host();
    h.git_dir = found;
    let mut plan = plan_in("/t");
    plan.mounts = vec![MountPlan {
        name: "m".into(),
        source: p("/m"),
        to: "/g".into(),
        read_only: true,
        optional: false,
    }];
    let args = shared(&plan, &Overrides::default(), &h);
    assert_eq!(args.volumes, ["/m:/g:ro", "/t/main/.git:/t/main/.git"]);
}

#[test]
fn a_workspace_that_is_no_repository_gets_no_git_mount() {
    let args = shared(&plan_in("/t"), &Overrides::default(), &host());
    // The mount is for a linked worktree's common directory; a directory git does not
    // call a repository has none.
    assert!(args.volumes.is_empty());
}

#[test]
fn the_freshness_policy_decides_what_a_drifted_environment_gets() {
    let never = || Err(error("asked without a terminal to ask on".into()));
    // The two policies that decide by themselves.
    assert!(matches!(decide(Freshness::Reuse, true, never()).unwrap(), Drifted::Reuse("freshness = reuse")));
    assert!(matches!(decide(Freshness::Refresh, false, never()).unwrap(), Drifted::Restart));
    // `require-current` refuses rather than choosing for the caller.
    assert!(matches!(decide(Freshness::RequireCurrent, true, never()).unwrap(), Drifted::Refuse));
    // `ask` off a terminal — a hook, a CI step — keeps what is running instead of
    // rebooting somebody's environment on an answer nobody gave.
    assert!(matches!(decide(Freshness::Ask, false, never()).unwrap(), Drifted::Reuse("no terminal to ask on")));
    assert!(matches!(decide(Freshness::Ask, true, Ok(true)).unwrap(), Drifted::Restart));
    assert!(matches!(decide(Freshness::Ask, true, Ok(false)).unwrap(), Drifted::Reuse("not rebuilding")));
    assert!(decide(Freshness::Ask, true, Err(error("no stdin".into()))).is_err());
    assert!(asks(Freshness::Ask, true));
    assert!(!asks(Freshness::Ask, false) && !asks(Freshness::Refresh, true));
}

#[test]
fn a_digest_read_back_from_the_state_dir_is_shortened_by_characters() {
    assert_eq!(short(&"a".repeat(64)), "a".repeat(12));
    // Whatever is in `dev.json`: indexing these bytes panicked on a truncated or
    // hand-edited file.
    assert_eq!(short("abc"), "abc");
    assert_eq!(short(""), "");
    assert_eq!(short("héllo-wörld-digest"), "héllo-wörld-");
}

#[test]
fn the_transition_is_passed_from_the_child_to_its_own_parent() {
    let state = p("/t/state");
    assert_eq!(transition_path(&state, 4242).display(), "/t/state/.transition.4242");
    assert_ne!(transition_path(&state, 4242).display(), transition_path(&state, 9999).display());
    let note = transition_note(Transition::Booted, 31337, "nonce");
    assert_eq!(note, "booted 31337 nonce\n");
    assert_eq!(read_transition(&note, "nonce"), Some(Transition::Booted));
    assert_eq!(
        read_transition(&transition_note(Transition::Reused, 1, "nonce"), "nonce"),
        Some(Transition::Reused)
    );
}

#[test]
fn a_note_from_another_run_is_not_this_ones() {
    // What a boot that died before this one left behind, under a pid the operating
    // system has since handed out again. It says "booted", and acting on it would
    // rewrite the identity and re-run the start hooks for a boot that never happened.
    assert_eq!(read_transition("booted 31337 stale\n", "nonce"), None);
    assert_eq!(read_transition("booted 31337\n", "nonce"), None);
    assert_eq!(read_transition("", "nonce"), None);
    assert_eq!(read_transition("odd 1 nonce\n", "nonce"), None);
}

fn task(name: &str) -> TaskPlan {
    TaskPlan {
        name: name.into(),
        argv: vec!["cargo".into(), "test".into()],
        env: vec![EnvVar { name: "FROM_TASK".into(), value: "task".into(), sensitive: false }],
        policy: Policy::Ephemeral,
        environment: "dev".into(),
        reuse: "dev".into(),
        checkout: CheckoutMode::Shared,
    }
}

#[test]
fn each_ephemeral_task_run_gets_a_directory_of_its_own() {
    let plan = plan_in("/t");
    let first = task_state_dir(&plan, "pre commit", 0, &generation_token(&Some(vec![1; 16]), 0, 0)).unwrap();
    let second = task_state_dir(&plan, "pre commit", 0, &generation_token(&Some(vec![2; 16]), 0, 0)).unwrap();
    assert_ne!(first.display(), second.display(), "a leaked directory is never inherited");
    let shown = first.display();
    let suffix = shown.rsplit('-').next().unwrap();
    assert_eq!(suffix.len(), 8, "short enough for the vsock socket path");
    // Named after the workspace, like the environment's own directory; a sibling of it,
    // so `vk dev list` shows one that leaked and `vk dev gc` removes it.
    assert_eq!(shown, "/t/repo-task-pre-commit-01010101");
    // a token that is taken is not tried for ever
    let e = task_state_dir(&plan, "pre commit", 8, "0").unwrap_err();
    assert_eq!(e.message, "no free state directory for task pre commit next to /t/state");
    assert_eq!(generation_token(&None, 5, 7), "5-7");
}

#[test]
fn a_long_task_name_cannot_overrun_the_socket_path() {
    let plan = plan_in("/t");
    let dir = task_state_dir(&plan, &"x".repeat(100), 0, "0123456789abcdef").unwrap();
    let shown = dir.display();
    let leaf = shown.rsplit('/').next().unwrap();
    // The whole point of the bound: every socket the VM binds under this directory has
    // to fit what `sun_path` holds.
    assert!(dir.join_text("vsock.sock_65535").bytes.len() <= 107, "{shown}");
    // `<workspace>-task-<name>-<8 hex>`: drop the fixed prefix and the trailing token to
    // read back the sanitized name.
    let name = leaf.strip_prefix("repo-task-").unwrap().rsplit_once('-').unwrap().0;
    assert!((1..=32).contains(&name.chars().count()), "a long name is truncated to fit: {leaf}");
}

#[test]
fn task_args_is_an_ephemeral_run_carrying_the_task_command_and_no_session() {
    let mut plan = plan_in("/t");
    plan.exec_env = vec![EnvVar { name: "FROM_ENV".into(), value: "env".into(), sensitive: false }];
    let scratch = p("/t/scratch");
    let over = Overrides::default();
    let args = task_args(
        &plan,
        &over,
        &host(),
        &task("check"),
        &vec!["--".to_string(), "--nocapture".to_string()],
        &None,
        &scratch,
    )
    .unwrap();

    // The caller's scratch directory is taken as is — none is created for this run.
    assert_eq!(args.state_dir.display(), "/t/scratch");
    // Nothing that belongs to an environment someone works in.
    assert!(!args.ssh && !args.ssh_client);
    assert!(!args.host_exec);
    assert!(args.host_exec_wrapper.is_none());
    assert!(args.host_exec_env.is_empty());
    assert!(!args.detach);
    assert!(args.detach_log.is_none());
    assert!(args.inactivity_timeout_secs.is_none());

    // The command runs in the workspace folder, its argv followed by the extra args.
    assert_eq!(
        args.command,
        ["sh", "-c", "cd /workdir && exec \"$@\"", "sh", "cargo", "test", "--", "--nocapture"]
    );
    // Both the environment's exec-env and the task's own reach the guest.
    assert!(args.env.contains(&("FROM_ENV".to_string(), "env".to_string())));
    assert!(args.env.contains(&("FROM_TASK".to_string(), "task".to_string())));

    // A fallback target is forced uncached, so the cache miss it stands in for rebuilds.
    let fallback =
        task_args(&plan, &over, &host(), &task("check"), &vec![], &Some("builder".into()), &scratch).unwrap();
    assert_eq!(fallback.target.as_deref(), Some("builder"));
    assert!(!fallback.require_cached);

    plan.workspace_folder = None;
    let bare = task_args(&plan, &over, &host(), &task("check"), &vec![], &None, &scratch).unwrap();
    assert_eq!(bare.command, ["cargo", "test"]);
}

#[test]
fn a_managed_directorys_generation_marker_is_written_once() {
    // A created directory carries a token; every later boot reads the one it has.
    let token = generation_token(&Some(vec![0xab; 16]), 0, 0);
    assert_eq!(token, "ab".repeat(16));
    assert_eq!(marker_of(&Some(format!("{token}\n"))), token);
    assert_ne!(generation_token(&Some(vec![0xac; 16]), 0, 0), token);
}

#[test]
fn the_ssh_alias_is_the_workspaces_own() {
    assert_eq!(alias(&p("/t/state")), "vk-state");
    assert_eq!(alias(&p("/")), "vk-workspace");
    assert_eq!(checked_alias(&p("/t/state")).unwrap(), "vk-state");

    // A state directory this host does not spell in UTF-8 is refused before the boot
    // rather than turned into an alias naming another host.
    let err = checked_alias(&HostPath { bytes: b"/tmp/st\xffate".to_vec() }).unwrap_err().message;
    assert!(err.contains("not valid UTF-8"), "{err}");
}

#[test]
fn a_builtin_policy_generates_its_own_wrapper() {
    let text = builtin_wrapper(&p("/usr/bin/vk"), &p("/t/my repo"), "git-gui").unwrap();
    assert_eq!(
        text,
        "#!/bin/sh\nexec /usr/bin/vk host-policy git-gui --workspace '/t/my repo' -- \"$@\"\n"
    );
    // A moved workspace is a different wrapper, so the environment reports drift.
    assert_ne!(builtin_wrapper(&p("/usr/bin/vk"), &p("/t/elsewhere"), "git-gui").unwrap(), text);
    // A path this host does not spell in UTF-8 is refused rather than written into the
    // script with the offending bytes replaced — that would name another file.
    let odd = HostPath { bytes: b"/tmp/w\xff".to_vec() };
    let err = builtin_wrapper(&p("/usr/bin/vk"), &odd, "git-gui").unwrap_err().message;
    assert_eq!(err, "the workspace (/tmp/w\u{fffd}) is not valid UTF-8");
    assert!(shell_quote_utf8(&odd, "it").is_err());
    assert_eq!(wrapper_path(&p("/t/state")).display(), "/t/state/host-exec-wrapper");
}

#[test]
fn a_wrapper_is_run_only_where_this_user_vouched_for_it() {
    let w = p("/t/w.sh");
    assert!(wrapper_allowed(&w, true, true, true).is_ok());
    assert_eq!(
        wrapper_allowed(&w, false, true, true).unwrap_err().message,
        "host.wrapper /t/w.sh is not a regular file"
    );
    assert_eq!(
        wrapper_allowed(&w, true, false, true).unwrap_err().message,
        "host.wrapper /t/w.sh is not owned by this user"
    );
    assert_eq!(
        wrapper_allowed(&w, true, true, false).unwrap_err().message,
        "host.wrapper /t/w.sh is not executable"
    );
}

fn live(digest: String, manifest: Json) -> Option<Identity> {
    Some(Identity {
        digest,
        booted_secs: 0,
        created_by: "vk 0.1.0 (abc)".into(),
        generation: String::new(),
        manifest,
        storage_backings: None,
    })
}

fn found(live: Option<Identity>, holder: Option<&str>) -> Found {
    Found { live, stale: true, holder: holder.map(String::from), terminal: true, wrapper: None, release: "0.64.0".into() }
}

fn wanted(freshness: Freshness) -> Wanted {
    Wanted { refresh: false, wait: true, announce: true, freshness }
}

#[test]
fn a_boot_reuses_what_matches_and_boots_what_is_not_there() {
    let plan = plan_in("/t");
    let (digest, manifest) = identity_of(&plan, &None).unwrap();
    let (step, notes) = boot(&plan, &found(live(digest, manifest), None), wanted(Freshness::Refresh), None);
    assert!(matches!(step, BootStep::Reuse));
    assert_eq!(notes[0], "virtkit: dev environment already running (/t/state)");
    assert!(notes[1].starts_with("it was created by vk 0.1.0"));
    assert!(notes[2].contains("no longer matches the sources"));

    assert!(matches!(boot(&plan, &found(None, None), wanted(Freshness::Ask), None).0, BootStep::Boot));
    assert!(matches!(boot(&plan, &found(None, Some("pid 7")), wanted(Freshness::Ask), None).0, BootStep::Join));
    let hasty = Wanted { wait: false, ..wanted(Freshness::Ask) };
    match boot(&plan, &found(None, Some("pid 7")), hasty, None).0 {
        BootStep::Refuse(e) => {
            assert!(e.message.starts_with("another boot of this environment is already in flight (pid 7);"))
        }
        other => panic!("{other:?}"),
    }
}

#[test]
fn a_boot_asks_refuses_or_swaps_what_drifted() {
    let plan = plan_in("/t");
    let mut before = plan_in("/t");
    before.mem = Some("8G".into());
    let (was, manifest) = identity_of(&before, &None).unwrap();
    let (is, _) = identity_of(&plan, &None).unwrap();
    let at = |terminal: bool| {
        let mut f = found(live(was.clone(), vk_dev::value::copy_json(&manifest)), None);
        f.terminal = terminal;
        f
    };
    assert!(matches!(boot(&plan, &at(true), wanted(Freshness::Ask), None).0, BootStep::Ask));
    assert!(matches!(boot(&plan, &at(true), wanted(Freshness::Ask), Some(Ok(true))).0, BootStep::Swap));
    let (step, notes) = boot(&plan, &at(false), wanted(Freshness::Ask), None);
    assert!(matches!(step, BootStep::Reuse));
    assert_eq!(
        notes[0],
        format!(
            "virtkit: the running environment was booted from a different configuration (booted {}, now {}); no terminal to ask on — attaching to it as recorded, `vk dev refresh` applies the config",
            &was[..12],
            &is[..12]
        )
    );
    match boot(&plan, &at(true), wanted(Freshness::RequireCurrent), None).0 {
        BootStep::Refuse(e) => assert!(e.message.contains("`vk dev refresh` reboots it into this one"), "{}", e.message),
        other => panic!("{other:?}"),
    }
    assert!(matches!(boot(&plan, &at(true), wanted(Freshness::Refresh), None).0, BootStep::Swap));
    let refresh = Wanted { refresh: true, ..wanted(Freshness::Reuse) };
    assert!(matches!(boot(&plan, &at(true), refresh, None).0, BootStep::Swap));
}

#[test]
fn a_change_that_attaching_applies_is_no_reason_to_restart() {
    let plan = plan_in("/t");
    let mut before = plan_in("/t");
    before.exec_env = vec![EnvVar { name: "A".into(), value: "b".into(), sensitive: false }];
    let (was, manifest) = identity_of(&before, &None).unwrap();
    let (step, notes) = boot(&plan, &found(live(was, manifest), None), wanted(Freshness::RequireCurrent), None);
    assert!(matches!(step, BootStep::Reuse));
    assert!(notes[1].contains("changed only in what attaching applies"), "{notes:?}");
}

#[test]
fn a_swap_looks_again_before_it_boots() {
    assert_eq!(after_swap(false, &None, true).unwrap(), Swapped::Boot);
    assert_eq!(after_swap(false, &Some("pid 7".into()), true).unwrap(), Swapped::Join);
    assert!(after_swap(false, &Some("pid 7".into()), false).unwrap_err().message.contains("(pid 7) took over"));
    assert_eq!(
        after_swap(true, &None, true).unwrap_err().message,
        "the dev environment did not stop; not booting a new one"
    );
}

#[test]
fn a_joined_boot_is_waited_for_until_it_is_ready_or_gone() {
    let f = InFlight { up: true, recorded: true, held: true, up_secs: 0 };
    assert!(!wait_step(f).unwrap());
    assert!(wait_step(InFlight { recorded: false, ..f }).unwrap());
    assert!(wait_step(InFlight { up: false, ..f }).unwrap());
    let gone = wait_step(InFlight { up: false, held: false, ..f }).unwrap_err().message;
    assert!(gone.contains("ended without leaving a running environment"), "{gone}");
    let stuck = wait_step(InFlight { recorded: false, up_secs: 300, ..f }).unwrap_err().message;
    assert!(stuck.contains("never recorded it as ready"), "{stuck}");
}

#[test]
fn a_prebuilt_image_has_nothing_to_build() {
    let mut plan = plan_in("/t");
    assert_eq!(build(&plan, &None).unwrap(), None);
    plan.source = Source::Image { reference: "debian:13".into() };
    assert_eq!(
        build(&plan, &None).unwrap().as_deref(),
        Some("virtkit: nothing to build — the environment boots debian:13")
    );
    assert_eq!(build(&plan, &Some("db".into())).unwrap(), None);
    plan.unresolved = vec!["TOKEN".into()];
    assert!(build(&plan, &None).is_err());
    assert_eq!(stage_label(&None), "build");
    assert_eq!(stage_label(&Some("dev".into())), "dev");
}
