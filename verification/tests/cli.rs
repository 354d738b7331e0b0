use vk_dev::cli::{
    brings_up, dev_action, dev_gc, diff_report, endpoints_asked, failure_code, open_url, origins, plan_report, ready,
    render_service_reply, service_console, service_request, stage, verdict_code, Act, BringsUp, BroughtUp, Dev,
    DevAction, DevServiceAction, DevStorageAction, EditorAction, Event, FailedOn, GcStep, Performed, PlanFormat, Ready,
    Reply, Request, Stage, UnitStatus, NOTHING_RUNNING,
};
use vk_dev::config::{Cache, Files, Freshness, Nested, Requires, Schema};
use vk_dev::endpoints::{EndpointState, Which};
use vk_dev::list::{Entry, Flag, Row, Status};
use vk_dev::loaded::{Loaded, Merged};
use vk_dev::path::HostPath;
use vk_dev::plan::{EnvVar, HooksPlan, Plan, Source};
use vk_dev::text::error;
use vk_dev::value::Toml;

fn p(s: &str) -> HostPath {
    HostPath::from_text(s)
}

fn plan_in(dir: &str) -> Plan {
    Plan {
        workspace: p(&format!("{dir}/repo")),
        config: p(&format!("{dir}/repo/.virtkit/config.toml")),
        environment: "dev".into(),
        state_dir: p(&format!("{dir}/state")),
        source: Source::Compose {
            file: p(&format!("{dir}/repo/compose.yaml")),
            service: "devcontainer".into(),
            profiles: vec![],
        },
        workspace_folder: Some("/workdir".into()),
        user: Some("dev".into()),
        freshness: Freshness::Ask,
        cpus: None,
        mem: None,
        nested: Nested::Off,
        mounts: vec![],
        container_env: vec![],
        exec_env: vec![],
        endpoints: vec![],
        host_exec: None,
        ssh_agent: false,
        cache: Cache::default(),
        requires: Requires::default(),
        cached_only: false,
        fallback_target: None,
        tasks: vec![],
        hooks: HooksPlan { init: None, create: None, start: None },
        vscode: None,
        managed_dirs: vec![],
        unresolved: vec![],
        secrets: vec![],
    }
}

fn dev(action: DevAction) -> Dev {
    Dev {
        action,
        workspace: None,
        dev_config: None,
        environment: "dev".into(),
        freshness: None,
        cache_registry: None,
        cache_insecure: false,
    }
}

fn exec(service: Option<&str>) -> DevAction {
    DevAction::Exec {
        dir: None,
        tty: false,
        service: service.map(String::from),
        user: None,
        command: vec!["true".into()],
    }
}

fn service(action: DevServiceAction) -> DevAction {
    DevAction::Service { action }
}

/// Every action, with whether it boots the environment.
fn actions() -> Vec<(DevAction, bool)> {
    let name = || "runner".to_string();
    vec![
        (DevAction::Init { from: None, image: None, force: false }, false),
        (DevAction::Up { no_wait: false }, true),
        (exec(None), true),
        (exec(Some("db")), false),
        (DevAction::Shell, true),
        (DevAction::Code { editor: None }, true),
        (DevAction::Editor { action: EditorAction::Status { json: false } }, false),
        (DevAction::Editor { action: EditorAction::Log }, false),
        (DevAction::Editor { action: EditorAction::Retry { editor: None } }, false),
        (DevAction::Endpoints { service: None, primary: true, json: false }, false),
        (DevAction::Open { name: "app".into(), print: false }, false),
        (service(DevServiceAction::Up { name: name() }), true),
        (service(DevServiceAction::Down { name: name() }), false),
        (service(DevServiceAction::Reboot { name: name() }), false),
        (service(DevServiceAction::Status { name: None }), false),
        (DevAction::Task { name: "pre-commit".into(), args: vec![] }, true),
        (DevAction::Build { service: None }, false),
        (DevAction::Storage { action: DevStorageAction::List { json: false, sizes: false } }, false),
        (
            DevAction::Storage { action: DevStorageAction::Reset { name: "runner:/var/wab".into(), yes: true } },
            false,
        ),
        (DevAction::EditorReconcile { editor: "code".into() }, false),
        (DevAction::Ssh { args: vec![] }, false),
        (DevAction::SshConfig, false),
        (DevAction::Refresh { dry_run: false }, true),
        (DevAction::Refresh { dry_run: true }, false),
        (DevAction::Status { json: false }, false),
        (
            DevAction::Logs {
                service: None,
                lines: 50,
                level: None,
                kernel: false,
                agent: false,
                guest: false,
                follow: true,
            },
            false,
        ),
        (DevAction::Doctor, false),
        (DevAction::Stop { timeout: 10 }, false),
        (DevAction::List { json: false, sizes: false }, false),
        (DevAction::Gc { yes: true, all_stale: true, names: vec![] }, false),
        (
            DevAction::Plan { format: PlanFormat::Json, show_secrets: false, explain: false, diff: true },
            false,
        ),
        (DevAction::Schema, false),
    ]
}

#[test]
fn every_action_says_whether_it_boots_the_environment() {
    for (action, boots) in actions() {
        let shown = format!("{action:?}");
        // the fork and the dispatch agree
        assert_eq!(brings_up(&action) != BringsUp::Never, boots, "{shown}");
        // what may boot is done by the process that the boot released
        let first = dev_action(&action, Event::Resolved(true));
        assert_eq!(first != Act::Perform, boots, "{shown}");
        assert_eq!(dev_action(&action, Event::Up(BroughtUp::Child)), Act::Exit(0), "{shown}");
        assert_eq!(dev(action).boots(), boots, "{shown}");
    }
}

#[test]
fn an_action_is_taken_once_what_it_needs_is_there() {
    let list = DevAction::List { json: false, sizes: false };
    let status = DevAction::Status { json: false };
    let task = DevAction::Task { name: "t".into(), args: vec![] };
    assert_eq!(stage(&DevAction::Schema), Stage::Nothing);
    assert_eq!(dev_action(&DevAction::Schema, Event::Started), Act::Perform);
    assert_eq!(dev_action(&list, Event::Started), Act::FindDirectory);
    assert_eq!(dev_action(&list, Event::Directory(false)), Act::Exit(1));
    assert_eq!(dev_action(&list, Event::Directory(true)), Act::Perform);
    assert_eq!(dev_action(&status, Event::Directory(true)), Act::Resolve);
    assert_eq!(dev_action(&status, Event::Resolved(false)), Act::Exit(2));
    assert_eq!(dev_action(&status, Event::Resolved(true)), Act::Perform);
    let up = DevAction::Up { no_wait: true };
    assert_eq!(dev_action(&up, Event::Resolved(true)), Act::BringUp { refresh: false, wait: false });
    assert_eq!(dev_action(&up, Event::Up(BroughtUp::Parent)), Act::Exit(0));
    let refresh = DevAction::Refresh { dry_run: false };
    assert_eq!(dev_action(&refresh, Event::Resolved(true)), Act::BringUp { refresh: true, wait: true });
    assert_eq!(dev_action(&DevAction::Shell, Event::Up(BroughtUp::Parent)), Act::Perform);
    assert_eq!(dev_action(&DevAction::Shell, Event::Up(BroughtUp::Failed(FailedOn::NotCached))), Act::Exit(3));
    // A task boots where its policy says so, and only the parent runs it.
    assert_eq!(dev_action(&task, Event::Resolved(true)), Act::Place);
    assert_eq!(dev_action(&task, Event::Placed(None)), Act::Exit(2));
    assert_eq!(dev_action(&task, Event::Placed(Some(true))), Act::BringUp { refresh: false, wait: true });
    assert_eq!(dev_action(&task, Event::Placed(Some(false))), Act::AfterFork);
    assert_eq!(dev_action(&task, Event::Forked { parent: true }), Act::Perform);
    assert_eq!(dev_action(&task, Event::Forked { parent: false }), Act::Exit(0));
    // How the work went is the code.
    let ended = |a: &DevAction, p: Performed| dev_action(a, Event::Performed(p));
    assert_eq!(ended(&status, Performed::Reported { written: 0, ok: true }), Act::Exit(0));
    assert_eq!(ended(&DevAction::Doctor, Performed::Reported { written: 0, ok: false }), Act::Exit(1));
    // A bad verdict of these is 1 whatever came of writing the report; a stop keeps the code.
    assert_eq!(ended(&DevAction::Doctor, Performed::Reported { written: 2, ok: false }), Act::Exit(1));
    assert_eq!(ended(&DevAction::Doctor, Performed::Reported { written: 2, ok: true }), Act::Exit(2));
    let stop = DevAction::Stop { timeout: 10 };
    assert_eq!(ended(&stop, Performed::Reported { written: 2, ok: false }), Act::Exit(2));
    assert_eq!(ended(&stop, Performed::Reported { written: 0, ok: false }), Act::Exit(1));
    assert_eq!(ended(&status, Performed::Failed), Act::Exit(1));
    assert_eq!(ended(&task, Performed::Exited(7)), Act::Exit(7));
    let init = DevAction::Init { from: None, image: None, force: false };
    assert_eq!(ended(&init, Performed::Refused), Act::Exit(2));
    assert_eq!(ended(&status, Performed::Refused), Act::Exit(1));
    assert_eq!(service_console(&p("/s"), "db").display(), "/s/svc-db/console.log");
}

#[test]
fn a_service_reply_renders_units_and_routes_the_message_by_verdict() {
    let unit = |name: &str, state: &str, ip: &str| UnitStatus {
        name: name.into(),
        state: state.into(),
        ip: ip.into(),
    };
    // Success with a message: the unit lines and then the message land on stdout, with
    // nothing on stderr.
    let (out, note) = render_service_reply(&Reply {
        ok: true,
        message: "runner is up".into(),
        units: vec![unit("runner", "running", "127.0.0.2")],
    });
    let line = format!("{:<16} {:<9} {}\n", "runner", "running", "127.0.0.2");
    assert_eq!(out, format!("{line}runner is up\n"));
    assert!(note.is_none());

    // Failure with a message: the message goes to stderr, not stdout.
    let (out, note) = render_service_reply(&Reply {
        ok: false,
        message: "no such service".into(),
        units: vec![],
    });
    assert_eq!(out, "");
    assert_eq!(note.as_deref(), Some("no such service"));

    // Failure with no message still says something, so the non-zero exit is not silent.
    let (_out, note) = render_service_reply(&Reply { ok: false, message: String::new(), units: vec![] });
    assert!(note.is_some());
}

#[test]
fn a_service_operation_asks_the_manager_one_thing() {
    let name = || "db".to_string();
    assert!(matches!(service_request(&DevServiceAction::Up { name: name() }), Request::Start(u) if u == "db"));
    assert!(matches!(service_request(&DevServiceAction::Down { name: name() }), Request::Stop(u) if u == "db"));
    assert!(matches!(service_request(&DevServiceAction::Reboot { name: name() }), Request::Reboot(u) if u == "db"));
    assert!(
        matches!(service_request(&DevServiceAction::Status { name: Some(name()) }), Request::Status(u) if u == "db")
    );
    assert!(matches!(service_request(&DevServiceAction::Status { name: None }), Request::List));
}

#[test]
fn a_command_exits_with_what_it_failed_on() {
    assert_eq!(failure_code(FailedOn::Usage), 2);
    assert_eq!(failure_code(FailedOn::NotCached), 3);
    assert_eq!(failure_code(FailedOn::Running), 1);
    assert_eq!(verdict_code(0, true), 0);
    assert_eq!(verdict_code(0, false), 1);
    assert_eq!(verdict_code(4, false), 4);
    assert_eq!(ready(BroughtUp::Parent), Ready::Act);
    assert_eq!(ready(BroughtUp::Child), Ready::Done(0));
    assert_eq!(ready(BroughtUp::Failed(FailedOn::NotCached)), Ready::Done(3));
}

fn endpoint(name: &str, listen: Option<&str>, url: Option<&str>, published: bool) -> EndpointState {
    EndpointState {
        name: name.into(),
        service: None,
        listen: listen.map(String::from),
        to: "tcp://127.0.0.1:1".into(),
        url: url.map(String::from),
        required: false,
        published,
    }
}

#[test]
fn an_endpoint_is_opened_at_its_url() {
    let views = vec![
        endpoint("web", Some("tcp://a:1"), Some("http://a:1"), true),
        endpoint("off", Some("tcp://a:2"), Some("http://a:2"), false),
        endpoint("bare", Some("tcp://a:3"), None, true),
        endpoint("new", None, None, false),
    ];
    assert_eq!(open_url(&views, "web").unwrap(), ("http://a:1".to_string(), None));
    let (url, note) = open_url(&views, "off").unwrap();
    assert_eq!(url, "http://a:2");
    assert_eq!(note.as_deref(), Some("virtkit: note: off is not published right now"));
    assert_eq!(
        open_url(&views, "bare").unwrap_err().message,
        "endpoint bare names no `scheme`, so it has no URL"
    );
    assert_eq!(
        open_url(&views, "new").unwrap_err().message,
        "endpoint new has no address yet — it is allocated when published"
    );
    assert_eq!(open_url(&views, "nope").unwrap_err().message, "no endpoint \"nope\" in the config");
    assert!(matches!(endpoints_asked(&Some("db".into()), true), Which::Service(s) if s == "db"));
    assert!(matches!(endpoints_asked(&None, true), Which::Primary));
    assert!(matches!(endpoints_asked(&None, false), Which::All));
}

#[test]
fn a_diff_is_printed_alike_by_both_commands() {
    assert_eq!(diff_report(&None, true), NOTHING_RUNNING);
    assert_eq!(diff_report(&None, false), NOTHING_RUNNING);
    assert_eq!(diff_report(&Some("d\n".into()), false), "d\n");
    assert_eq!(
        diff_report(&Some("d\n".into()), true),
        "d\na refresh rebuilds the image and restarts the environment\n"
    );
}

fn loaded() -> Loaded {
    let table = |entries: Vec<(&str, Toml)>| -> Vec<(String, Toml)> {
        entries.into_iter().map(|(k, v)| (k.to_string(), v)).collect()
    };
    let text = |s: &str| Toml::Text(s.to_string());
    Loaded {
        files: Files {
            workspace: p("/t/repo"),
            config: p("/t/repo/.virtkit/config.toml"),
            local: Some(p("/t/repo/.virtkit/local.toml")),
            local_env: None,
        },
        schema: Schema::default(),
        env_file: vec![],
        layers: Merged {
            merged: table(vec![
                (
                    "dev",
                    Toml::Table(table(vec![
                        ("exec-env", Toml::Table(table(vec![("TOKEN", text("s3cret"))]))),
                        ("mem", text("8G")),
                    ])),
                ),
                ("schema", Toml::Integer(1)),
            ]),
            local: Some(table(vec![("dev", Toml::Table(table(vec![("mem", text("8G"))])))])),
        },
    }
}

#[test]
fn each_value_is_listed_with_the_file_it_came_from() {
    assert_eq!(
        origins(&loaded(), false).unwrap(),
        "dev.exec-env.TOKEN = <redacted>  # .virtkit/config.toml\ndev.mem = \"8G\"  # .virtkit/local.toml\nschema = 1  # .virtkit/config.toml\n"
    );
    assert!(origins(&loaded(), true).unwrap().contains("dev.exec-env.TOKEN = \"s3cret\"  # "));
}

#[test]
fn a_plan_is_printed_in_the_format_asked_for() {
    let mut plan = plan_in("/t");
    plan.exec_env = vec![EnvVar { name: "TOKEN".into(), value: "s3cret".into(), sensitive: true }];
    let json = plan_report(&loaded(), &plan, PlanFormat::Json, false, false, false).unwrap();
    assert_eq!(json, plan.to_json(false).unwrap());
    let shell = plan_report(&loaded(), &plan, PlanFormat::Shell, true, true, false).unwrap();
    assert_eq!(shell, format!("{}\n{}", origins(&loaded(), true).unwrap(), plan.to_shell(true, false).unwrap()));
    plan.config = HostPath { bytes: vec![0xff] };
    assert!(plan_report(&loaded(), &plan, PlanFormat::Json, false, false, false).is_err());
}

fn stale_row() -> Row {
    Row {
        name: "x".into(),
        dir: p("/base/x"),
        workspace: None,
        environment: None,
        status: Status::NeverBooted,
        created_by: None,
        booted_secs: None,
        age_secs: None,
        size_bytes: None,
        flags: vec![Flag::Ephemeral],
    }
}

#[test]
fn a_collection_asks_before_it_removes() {
    let rows = vec![stale_row()];
    let held = vec![vec![Entry { name: "root.qcow2".into(), size_bytes: 1024 }]];
    let shown = "would remove 1 environment(s):\n  x  ?  -\n    root.qcow2  1 KiB\n";
    let step = |yes: bool, terminal: bool, answer| dev_gc(&rows, &held, yes, terminal, answer);
    assert!(matches!(step(true, false, None), GcStep::Remove));
    assert!(
        matches!(step(false, false, None), GcStep::Report(t, 1) if t == format!("{shown}nothing was removed: --yes removes it\n"))
    );
    assert!(
        matches!(step(false, true, None), GcStep::Ask(t, q) if t == shown && q == "remove 1 environment(s)?")
    );
    assert!(matches!(step(false, true, Some(Ok(true))), GcStep::Remove));
    assert!(matches!(step(false, true, Some(Ok(false))), GcStep::Report(t, 0) if t == "nothing was removed\n"));
    assert!(matches!(step(false, true, Some(Err(error("no stdin".into())))), GcStep::Refuse(_)));
    assert!(
        matches!(dev_gc(&vec![], &vec![], true, true, None), GcStep::Report(t, 0) if t == "nothing to remove\n")
    );
}

#[test]
fn a_date_no_text_can_spell_is_refused_rather_than_printed() {
    let mut l = loaded();
    let never = toml::Value::Datetime(toml::value::Datetime { date: None, time: None, offset: None });
    l.layers.merged.push(("when".into(), Toml::Array(vec![Toml::Date(never, None)])));
    assert!(origins(&l, true).is_none());
    let e = plan_report(&l, &plan_in("/t"), PlanFormat::Shell, true, true, false).unwrap_err();
    assert_eq!(e.message, "a configured date cannot be written");
}
