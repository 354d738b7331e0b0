use vk_dev::config::{
    Build, Cache, CheckoutMode, Command, Cpus, EditorState, Endpoint, Environment, Fallback, Files, Freshness, Hook,
    HookSpec, Host, Mount, Nested, Policy, Requires, Schema, Task, VsCode,
};
use vk_dev::loaded::{Loaded, Merged};
use vk_dev::names::{dev_state_base, state_dir_room, NameParts, SUN_PATH_MAX};
use vk_dev::path::HostPath;
use vk_dev::plan::{HookPlan, Plan, Source};
use vk_dev::planning::{lowest_bindable_port, refuse_privileged, resolve, EDITOR_MOUNT};
use vk_dev::redact::REDACTED;
use vk_dev::resolve::{Facts, Share, Volume};
use vk_dev::value::{Json, Toml};
use vk_dev::vars::Vars;

fn p(s: &str) -> HostPath {
    HostPath::from_text(s)
}

fn t(s: &str) -> Option<String> {
    Some(s.to_string())
}

fn pair(k: &str, v: &str) -> (String, String) {
    (k.to_string(), v.to_string())
}

fn mount(source: &str, to: &str) -> Mount {
    Mount { source: t(source), to: t(to), read_only: false, optional: false, enabled: true }
}

fn endpoint(target: u16) -> Endpoint {
    Endpoint {
        service: None,
        target: Some(target),
        host_port: None,
        address: None,
        scheme: None,
        path: None,
        required: false,
        enabled: true,
    }
}

fn task(run: Command) -> Task {
    Task { run: Some(run), environment: None, reuse: None, policy: None, checkout: None, env: vec![], enabled: true }
}

/// A host: its files, its directories, its links, its environment.
struct World {
    files: Vec<String>,
    dirs: Vec<String>,
    links: Vec<(String, String)>,
    env: Vec<(String, Option<String>)>,
    env_file: Vec<(String, String)>,
    state_home: Option<String>,
    home: Option<String>,
    lowest_port: u16,
}

/// A workspace at `/w/repo`, with the config under `.virtkit/`, a compose file beside it, and a
/// host-command dispatcher in the project's own tooling.
fn world() -> World {
    World {
        files: vec!["/w/repo/.virtkit/compose.yaml".into(), "/w/repo/virtkit/host-dispatch.sh".into()],
        dirs: vec!["/w/repo".into(), "/w/repo/virtkit".into(), "/w/repo/home-config".into()],
        links: vec![],
        env: vec![("VK_TEST_TOKEN".to_string(), t("s3cret"))],
        env_file: vec![],
        state_home: t("/s"),
        home: t("/home/me"),
        lowest_port: 1024,
    }
}

fn wab_env() -> Environment {
    Environment {
        compose: t(".virtkit/compose.yaml"),
        service: t("devcontainer"),
        workspace: t("/workdir"),
        user: t("dev"),
        freshness: Some(Freshness::RequireCurrent),
        profiles: vec!["runner".into()],
        cpus: Some(Cpus::Host),
        mem: t("16G"),
        nested: Nested::Required,
        container_env: vec![pair("WAB_IN_VM", "1")],
        exec_env: vec![pair("GITLAB_TOKEN", "${localEnv:VK_TEST_TOKEN}")],
        mounts: vec![
            ("config".to_string(), mount("home-config", "/home/dev/.config")),
            (
                "gitconfig".to_string(),
                Mount { read_only: true, optional: true, ..mount("~/.gitconfig", "/home/dev/.gitconfig") },
            ),
            ("state".to_string(), mount("${state}/vscode-server", "/home/dev/.vscode-server")),
        ],
        host: Host {
            git_gui: false,
            ssh_agent: true,
            wrapper: t("virtkit/host-dispatch.sh"),
            wrapper_env: vec!["LC_*".into()],
        },
        cache: Cache { registry: t("127.0.0.1:5000/cache"), insecure: true },
        endpoints: vec![
            (
                "runner.https".to_string(),
                Endpoint {
                    service: t("runner"),
                    host_port: Some(8443),
                    scheme: t("https"),
                    path: t("/ui"),
                    required: true,
                    ..endpoint(443)
                },
            ),
            ("web".to_string(), endpoint(8080)),
        ],
        hooks: vk_dev::config::Hooks {
            init: Some(Hook::Shell("./prepare.sh".into())),
            create: Some(Hook::Detailed(HookSpec {
                run: Some(Command::Argv(vec!["make".into(), "fixtures".into()])),
                cwd: t("tests"),
                timeout: t("10m"),
                required: false,
            })),
            start: Some(Hook::Group(vec![("redis".to_string(), Hook::Shell("redis-cli ping".into()))])),
        },
        editor: vk_dev::config::Editor {
            vscode: Some(VsCode {
                state: Some(EditorState::Persistent),
                home: None,
                reconcile: Some(Hook::Argv(vec![
                    "/workdir/.devcontainer/install-extensions.sh".into(),
                    "-postcreate".into(),
                ])),
                extensions: vec!["ms-python.python".into()],
                settings: vec![("extensions.autoUpdate".to_string(), Toml::Boolean(false))],
            }),
        },
        ..Environment::default()
    }
}

fn image_env() -> Environment {
    Environment { image: t("debian:13"), workspace: t("/src"), ..Environment::default() }
}

fn persistent() -> vk_dev::config::Editor {
    vk_dev::config::Editor {
        vscode: Some(VsCode { state: Some(EditorState::Persistent), ..VsCode::default() }),
    }
}

fn schema(dev: Environment, environments: Vec<(String, Environment)>) -> Schema {
    Schema {
        schema: Some(1),
        remove: vec![],
        env_files: vec![],
        requires: Requires { min_version: None, features: vec!["publish".into()] },
        dev: Some(dev),
        environments,
    }
}

impl World {
    fn facts(&self, shares: Vec<(String, Share)>) -> Facts {
        let mut canonical: Vec<(HostPath, HostPath)> =
            self.links.iter().map(|(from, to)| (p(from), p(to))).collect();
        for d in self.dirs.iter().chain(&self.files) {
            canonical.push((p(d), p(d)));
        }
        Facts {
            workspace: Ok(p("/w/repo")),
            config: Ok(p("/w/repo/.virtkit/config.toml")),
            state_home: self.state_home.as_deref().map(p),
            home: self.home.as_deref().map(p),
            uid: 1000,
            gid: 100,
            env: self.env.clone(),
            files: self.files.iter().map(|f| p(f)).collect(),
            dirs: self.dirs.iter().map(|d| p(d)).collect(),
            shares,
            canonical,
            lowest_port: self.lowest_port,
            refused_names: vec![],
            state_check: None,
        }
    }

    fn plan_of(&self, schema: Schema, name: &str) -> Result<Plan, String> {
        let loaded = Loaded {
            files: Files {
                workspace: p("/w/repo"),
                config: p("/w/repo/.virtkit/config.toml"),
                local: None,
                local_env: None,
            },
            schema,
            env_file: self.env_file.clone(),
            layers: Merged { merged: vec![], local: None },
        };
        let first = resolve(&loaded, name, &self.facts(vec![])).map_err(|e| e.message)?;
        // what `vk run` makes of each mount: every source is shared, whether it is there or not
        let shares = first
            .mounts
            .iter()
            .map(|m| {
                let host = m.source.copy();
                (
                    m.spec().unwrap(),
                    Share::Made(Volume { host, read_only: m.read_only, overlay: false, disk: false, socket: false }),
                )
            })
            .collect();
        resolve(&loaded, name, &self.facts(shares)).map_err(|e| e.message)
    }

    fn dev(&self, env: Environment) -> Result<Plan, String> {
        self.plan_of(schema(env, vec![]), "dev")
    }
}

fn shell_of(plan: &Plan) -> String {
    plan.to_shell(false, false).unwrap()
}

#[test]
fn a_workspace_config_resolves_to_the_run_it_describes() {
    let mut plan = world().dev(wab_env()).unwrap();
    assert_eq!(plan.workspace.display(), "/w/repo");
    match &plan.source {
        Source::Compose { file, service, profiles } => {
            assert_eq!(file.display(), "/w/repo/.virtkit/compose.yaml");
            assert_eq!(service, "devcontainer");
            assert_eq!(profiles, &["runner"]);
        }
        other => panic!("{other:?}"),
    }
    assert_eq!(plan.environment, "dev");
    assert_eq!(plan.workspace_folder.as_deref(), Some("/workdir"));
    assert_eq!(plan.user.as_deref(), Some("dev"));
    assert_eq!(plan.freshness, Freshness::RequireCurrent);
    assert_eq!(plan.cpus, Some(Cpus::Host));
    assert_eq!(plan.mem.as_deref(), Some("16G"));
    assert_eq!(plan.nested, Nested::Required);
    assert!(plan.nests_here(false), "required nesting is asked for whatever the host says");
    assert!(shell_of(&plan).contains("--nested"), "the run it describes carries --nested");
    plan.nested = Nested::Off;
    assert!(!plan.nests_here(true), "off never asks for nesting");
    assert_eq!(plan.requires.features, ["publish"]);

    // Mounts: a project-relative source, `~`, and `${state}`, parsed and in name order,
    // each rendering back to the `vk run -v` spec it stands for.
    let state = plan.state_dir.display();
    let mounts: Vec<(&str, String, &str)> =
        plan.mounts.iter().map(|m| (m.name.as_str(), m.source.display(), m.to.as_str())).collect();
    assert_eq!(
        mounts,
        [
            ("config", "/w/repo/home-config".to_string(), "/home/dev/.config"),
            ("gitconfig", "/home/me/.gitconfig".to_string(), "/home/dev/.gitconfig"),
            ("state", format!("{state}/vscode-server"), "/home/dev/.vscode-server"),
        ]
    );
    assert!(plan.mounts[1].read_only && plan.mounts[1].optional);
    assert_eq!(plan.mounts[1].spec().unwrap(), "/home/me/.gitconfig:/home/dev/.gitconfig:ro,optional");

    // The two environment scopes stay apart, and only host-fed values are sensitive.
    assert_eq!(plan.container_env.len(), 1);
    assert_eq!(plan.container_env[0].name, "WAB_IN_VM");
    assert!(!plan.container_env[0].sensitive);
    assert_eq!(plan.exec_env[0].value, "s3cret");
    assert!(plan.exec_env[0].sensitive);

    // Endpoints: the primary's own port, and a sibling's, in name order.
    let e = &plan.endpoints[0];
    assert_eq!((e.name.as_str(), e.service.as_deref(), e.host_port), ("runner.https", Some("runner"), 8443));
    assert_eq!((e.address.as_str(), e.listen.as_str()), ("auto", "tcp://auto:8443"));
    assert_eq!((e.to.as_str(), e.scheme.as_deref(), e.path.as_deref()), ("tcp://runner:443", Some("https"), Some("/ui")));
    assert!(e.required);
    let e = &plan.endpoints[1];
    assert_eq!((e.name.as_str(), e.service.as_deref(), e.host_port), ("web", None, 8080));
    assert_eq!((e.address.as_str(), e.listen.as_str()), ("auto", "tcp://auto:8080"));
    assert_eq!((e.to.as_str(), e.scheme.as_deref(), e.path.as_deref()), ("tcp://127.0.0.1:8080", None, None));
    assert!(!e.required);
    assert_eq!(plan.endpoints.len(), 2);

    let he = plan.host_exec.as_ref().unwrap();
    assert_eq!(he.wrapper.display(), "/w/repo/virtkit/host-dispatch.sh");
    assert_eq!(he.builtin, None);
    assert_eq!(he.env, ["LC_*"]);
    assert!(plan.ssh_agent);
    assert_eq!(plan.cache.registry.as_deref(), Some("127.0.0.1:5000/cache"));

    // Hooks: a string through a shell, a detailed command with its options, a group.
    match plan.hooks.init.as_ref().unwrap() {
        HookPlan::Command(c) => {
            assert!(matches!(&c.run, Command::Shell(s) if s == "./prepare.sh"));
            assert!(c.cwd.is_none() && c.timeout_secs.is_none() && c.required);
        }
        other => panic!("{other:?}"),
    }
    match plan.hooks.create.as_ref().unwrap() {
        HookPlan::Command(c) => {
            assert!(matches!(&c.run, Command::Argv(a) if *a == ["make", "fixtures"]));
            assert_eq!((c.cwd.as_deref(), c.timeout_secs, c.required), (Some("tests"), Some(600), false));
        }
        other => panic!("{other:?}"),
    }
    assert!(matches!(&plan.hooks.start, Some(HookPlan::Group(g)) if g.len() == 1));
    let managed: Vec<String> = plan.managed_dirs.iter().map(|d| d.display()).collect();
    assert_eq!(managed, [format!("{state}/vscode-server")], "created by the boot, not required to exist yet");
    let vs = plan.vscode.as_ref().unwrap();
    assert!(vs.persistent);
    assert_eq!(vs.home, "/home/dev");
    assert!(!plan.mounts.iter().any(|m| m.name == EDITOR_MOUNT), "a compose source declares its own server mount");
    assert_eq!(vs.extensions, ["ms-python.python"]);
    assert!(
        matches!(&vs.settings, Json::Object(o) if o.len() == 1 && o[0].0 == "extensions.autoUpdate" && matches!(o[0].1, Json::Bool(false)))
    );
}

#[test]
fn a_plan_redacts_every_value_a_config_hands_to_a_command_or_an_image() {
    let mut plan = world().dev(wab_env()).unwrap();
    let json = plan.to_json(false).unwrap();
    assert!(!json.contains("s3cret"), "a plan must be safe to paste anywhere");
    assert!(json.contains("<redacted"), "{json}");
    assert!(plan.to_json(true).unwrap().contains("s3cret"), "unless asked for");
    // A literal in the file is as much a secret as one this shell exported: which of
    // them carries a token is the project's business.
    assert!(!json.contains("WAB_IN_VM\": \"1"), "{json}");

    let shell = shell_of(&plan);
    assert!(!shell.contains("s3cret"));
    assert!(shell.contains("--compose") && shell.contains("--primary devcontainer"), "{shell}");
    assert!(shell.contains("--ssh-agent"), "{shell}");
    assert!(shell.contains("# vk publish ensure"), "{shell}");
    assert!(shell.contains("# hooks.start"), "{shell}");
    assert!(shell.contains("(best effort)"), "{shell}");

    // A path this host does not spell in UTF-8 is named rather than rendered with the
    // bytes it cannot encode: this is a command a reader may run.
    plan.state_dir = HostPath { bytes: b"/tmp/s\xff".to_vec() };
    let err = plan.to_shell(false, false).unwrap_err().message;
    assert!(err.contains("the state directory"), "{err}");
    assert!(err.contains("not valid UTF-8"), "{err}");
}

#[test]
fn local_env_comes_from_the_process_then_the_file_and_absent_is_noted() {
    let mut w = world();
    w.env = vec![];
    // Absent: the plan still resolves — `status` and `stop` need it — but says what is
    // missing, and refuses to be run.
    let plan = w.dev(wab_env()).unwrap();
    assert_eq!(plan.unresolved.len(), 1);
    assert!(
        plan.unresolved[0].contains("VK_TEST_TOKEN") && plan.unresolved[0].contains("local.env"),
        "{}",
        plan.unresolved[0]
    );
    assert_eq!(plan.exec_env[0].value, "");
    let msg = plan.require_resolved().unwrap_err().message;
    assert!(msg.contains("VK_TEST_TOKEN"), "{msg}");

    w.env_file = vec![pair("VK_TEST_TOKEN", "from-file")];
    let plan = w.dev(wab_env()).unwrap();
    assert_eq!(plan.exec_env[0].value, "from-file");
    assert!(plan.exec_env[0].sensitive, "a local value is still a secret");

    w.env = vec![("VK_TEST_TOKEN".to_string(), t("from-process"))];
    assert_eq!(w.dev(wab_env()).unwrap().exec_env[0].value, "from-process");
}

#[test]
fn the_state_dir_is_derived_per_workspace_and_environment() {
    let mut w = world();
    w.state_home = t("/x/xdg");
    let a = w.dev(wab_env()).unwrap();
    assert!(a.state_dir.starts_with(&p("/x/xdg/virtkit/dev")), "{}", a.state_dir.display());
    let name = a.state_dir.display().rsplit('/').next().unwrap().to_string();
    assert!(name.starts_with("repo"), "recognizable: {name}");
    // Stable for the same inputs …
    assert_eq!(a.state_dir.display(), w.dev(wab_env()).unwrap().state_dir.display());
    // … and different for a second environment of the same workspace.
    let both = schema(wab_env(), vec![("ci".to_string(), image_env())]);
    let b = w.plan_of(both, "ci").unwrap();
    assert_ne!(a.state_dir.display(), b.state_dir.display());
    assert!(b.state_dir.display().contains("-ci-"), "{}", b.state_dir.display());
    assert!(matches!(&b.source, Source::Image { reference } if reference == "debian:13"));
    assert!(b.mounts.is_empty(), "nothing is inherited from [dev]");
}

#[test]
fn the_builtin_git_gui_policy_is_a_wrapper_vk_generates_itself() {
    let mut env = wab_env();
    env.host = Host { git_gui: true, ssh_agent: true, wrapper: None, wrapper_env: vec![] };
    let plan = world().dev(env).unwrap();
    let he = plan.host_exec.as_ref().unwrap();
    assert_eq!(he.builtin.as_deref(), Some("git-gui"));
    // Not a project file: the state dir, which the guest cannot write.
    assert_eq!(he.wrapper.display(), format!("{}/host-exec-wrapper", plan.state_dir.display()));
    assert!(he.env.is_empty());
    assert!(shell_of(&plan).contains("built-in git-gui policy"), "{}", shell_of(&plan));
}

fn with_mount(name: &str, m: Mount) -> Environment {
    let mut env = wab_env();
    env.mounts.push((name.to_string(), m));
    env.mounts.sort_by(|a, b| a.0.cmp(&b.0));
    env
}

fn with_endpoint(name: &str, e: Endpoint) -> Environment {
    let mut env = wab_env();
    env.endpoints.push((name.to_string(), e));
    env.endpoints.sort_by(|a, b| a.0.cmp(&b.0));
    env
}

#[test]
fn what_the_host_cannot_do_is_refused_at_plan_time() {
    let refused = |w: &World, env: Environment| w.dev(env).unwrap_err();
    let w = world();

    // A state dir the guest could write hands it the host's keys and command wrapper —
    // whole, or by one of its own entries. Its other subdirectories are managed storage.
    let msg = refused(&w, with_mount("evil", mount("${state}", "/tmp/state")));
    assert!(msg.contains("host's own"), "{msg}");
    let msg = refused(&w, with_mount("evil", mount("${state}/bin", "/tmp/bin")));
    assert!(msg.contains("host's own"), "{msg}");
    // A `..` names what it folds to, wherever it sits: an absolute source is folded
    // like a relative one before either is checked.
    let msg = refused(&w, with_mount("evil", mount("${state}/x/../id_ed25519", "/tmp/k")));
    assert!(msg.contains("host's own") && msg.contains("id_ed25519"), "{msg}");

    // …including vk's own mount for the editor server, which is at a guest path a
    // config can name too.
    let mut env = image_env();
    env.editor = vk_dev::config::Editor {
        vscode: Some(VsCode {
            state: Some(EditorState::Persistent),
            home: t("/home/dev/"),
            ..VsCode::default()
        }),
    };
    env.mounts = vec![("server".to_string(), mount("home-config", "/home/dev/.vscode-server"))];
    let msg = refused(&w, env);
    assert!(msg.contains("second time"), "{msg}");

    // A symlink is what it points at: a source landing inside the state directory is
    // refused like one spelled there.
    let mut linked = world();
    let state = linked.dev(wab_env()).unwrap().state_dir.display();
    linked.dirs.push(state.clone());
    linked.dirs.push(format!("{state}/lifecycle"));
    linked.links.push(("/w/repo/link".to_string(), format!("{state}/lifecycle")));
    let msg = refused(&linked, with_mount("evil", mount("link", "/tmp/lifecycle")));
    assert!(msg.contains("host's own"), "{msg}");

    // Two mounts at one guest path is ambiguous, however the second one spells it.
    for to in ["/home/dev/.config", "/home/dev/.config/", "/home/dev//.config", "/home/dev/./.config"] {
        let msg = refused(&w, with_mount("again", mount("virtkit", to)));
        assert!(msg.contains("second time"), "{to}: {msg}");
    }

    // A `:` would set the volume's mode rather than name a path: in a guest path a
    // config wrote, in a host path, and in the home vk builds its own mount from.
    let msg = refused(&w, with_mount("bad", mount("virtkit", "/g:ro")));
    assert!(msg.contains("separates a mount's fields"), "{msg}");
    let msg = refused(&w, with_mount("bad", mount("virt:kit", "/g")));
    assert!(msg.contains("separates a mount's fields"), "{msg}");
    let mut env = image_env();
    env.editor = vk_dev::config::Editor {
        vscode: Some(VsCode {
            state: Some(EditorState::Persistent),
            home: t("/home/dev:x"),
            ..VsCode::default()
        }),
    };
    let msg = refused(&w, env);
    assert!(msg.contains("separates a mount's fields"), "{msg}");

    // A source `hooks.init` has yet to create is not resolvable, and still cannot be
    // one whose contents would hold the state directory.
    let mut later = world();
    later.state_home = t("/w/repo/later/state");
    let msg = refused(&later, with_mount("evil", mount("later", "/tmp/later")));
    assert!(msg.contains("holds the state directory"), "{msg}");

    // Two endpoints on one host address.
    let msg = refused(&w, with_endpoint("again", Endpoint { host_port: Some(8080), ..endpoint(9090) }));
    assert!(msg.contains("already takes"), "{msg}");

    // A built-in policy and a project wrapper are two answers to the same question.
    let mut env = wab_env();
    env.host.git_gui = true;
    let msg = refused(&w, env);
    assert!(msg.contains("choose one"), "{msg}");

    // A URL scheme and path are what `vk dev open` builds an address from.
    let bad = |scheme: Option<String>, path: Option<String>| Endpoint {
        host_port: Some(8081),
        scheme,
        path,
        ..endpoint(80)
    };
    let msg = refused(&w, with_endpoint("bad", bad(t("ht tp"), None)));
    assert!(msg.contains("URL scheme"), "{msg}");
    let msg = refused(&w, with_endpoint("bad", bad(None, t("ui"))));
    assert!(msg.contains("must start with"), "{msg}");

    // A port this user cannot bind is refused now, not once the VM is up.
    let msg = refused(&w, with_endpoint("low", Endpoint { host_port: Some(1023), ..endpoint(80) }));
    assert!(msg.contains("cannot bind"), "{msg}");

    // A compose file, wrapper or Dockerfile that is not there names its key.
    let mut nofile = world();
    nofile.files.retain(|f| !f.ends_with("compose.yaml"));
    let msg = refused(&nofile, wab_env());
    assert!(msg.contains("[dev] compose"), "{msg}");

    // An image alone needs to know where the checkout goes.
    let msg = refused(&w, Environment { image: t("debian:13"), ..Environment::default() });
    assert!(msg.contains("workspace"), "{msg}");
}

#[test]
fn what_a_local_layer_switches_off_is_not_in_the_plan() {
    let mut env = wab_env();
    env.mounts[0].1.enabled = false;
    env.endpoints[1].1.enabled = false;
    env.tasks = vec![("fmt".to_string(), Task { enabled: false, ..task(Command::Shell("cargo fmt".into())) })];
    let plan = world().dev(env).unwrap();
    assert!(!plan.mounts.iter().any(|m| m.name == "config"), "{:?}", plan.mounts);
    assert!(!plan.endpoints.iter().any(|e| e.name == "web"));
    assert!(plan.tasks.is_empty());
}

fn build_env() -> Environment {
    Environment {
        build: Some(Build { context: t("docker/dev"), dockerfile: None, target: t("dev"), args: vec![] }),
        workspace: t("/src"),
        ..Environment::default()
    }
}

#[test]
fn a_build_source_resolves_its_dockerfile_inside_the_context() {
    let mut w = world();
    w.dirs.push("/w/repo/docker/dev".into());
    w.files.push("/w/repo/docker/dev/Dockerfile".into());
    let plan = w.dev(build_env()).unwrap();
    match &plan.source {
        Source::Build { context, dockerfile, target, args } => {
            assert_eq!(context.display(), "/w/repo/docker/dev");
            assert_eq!(dockerfile.display(), "/w/repo/docker/dev/Dockerfile");
            assert_eq!(target.as_deref(), Some("dev"));
            assert!(args.is_empty());
        }
        other => panic!("{other:?}"),
    }
    let shell = shell_of(&plan);
    assert!(shell.contains("--file") && shell.contains("--target dev"), "{shell}");
    assert!(shell.contains("-v /w/repo:/src"), "the checkout is mounted where the config says: {shell}");
    assert!(plan.vscode.is_none() && plan.managed_dirs.is_empty());

    // A persistent editor on an image or build source gets vk's managed server mount at
    // the user's home — the default one, or the one the config names.
    let mut env = build_env();
    env.editor = persistent();
    let plan = w.dev(env).unwrap();
    let host = format!("{}/editor/vscode-server", plan.state_dir.display());
    let mounts: Vec<(String, &str)> = plan.mounts.iter().map(|m| (m.source.display(), m.to.as_str())).collect();
    assert_eq!(mounts, [(host.clone(), "/root/.vscode-server")]);
    assert_eq!(plan.managed_dirs.iter().map(|d| d.display()).collect::<Vec<_>>(), [host.clone()]);
    let mut env = build_env();
    env.editor = persistent();
    env.editor.vscode.as_mut().unwrap().home = t("/home/me");
    let plan = w.dev(env).unwrap();
    let mounts: Vec<(String, &str)> = plan.mounts.iter().map(|m| (m.source.display(), m.to.as_str())).collect();
    assert_eq!(mounts, [(host, "/home/me/.vscode-server")]);
}

fn hook_env() -> Environment {
    Environment {
        build: Some(Build {
            context: t("docker/wabbuilder"),
            dockerfile: None,
            target: t("builder"),
            args: vec![pair("DEVUSER_UID", "${VK_UID}")],
        }),
        cached_only: true,
        fallback: Some(Fallback { target: t("precommit") }),
        workspace: t("/workdir"),
        user: t("dev"),
        ..Environment::default()
    }
}

fn task_schema() -> Schema {
    let mut env = wab_env();
    env.tasks = vec![
        ("fmt".to_string(), task(Command::Shell("cargo fmt --check".into()))),
        (
            "pre-commit".to_string(),
            Task {
                environment: t("hook"),
                reuse: t("dev"),
                policy: Some(Policy::ReuseOrEphemeral),
                checkout: Some(CheckoutMode::Overlay),
                env: vec![pair("PRE_COMMIT_ISOLATED", "1")],
                ..task(Command::Argv(vec!["./dev/tools/git/hooks/pre-commit".into()]))
            },
        ),
    ];
    schema(env, vec![("hook".to_string(), hook_env())])
}

#[test]
fn tasks_resolve_to_what_runs_and_where() {
    let mut w = world();
    w.dirs.push("/w/repo/docker/wabbuilder".into());
    w.files.push("/w/repo/docker/wabbuilder/Dockerfile".into());
    let plan = w.plan_of(task_schema(), "dev").unwrap();
    assert_eq!(plan.tasks.iter().map(|t| t.name.as_str()).collect::<Vec<_>>(), ["fmt", "pre-commit"]);
    let t1 = &plan.tasks[1];
    assert_eq!(t1.argv, ["./dev/tools/git/hooks/pre-commit"]);
    assert_eq!((t1.environment.as_str(), t1.reuse.as_str()), ("hook", "dev"));
    assert_eq!(t1.policy, Policy::ReuseOrEphemeral);
    assert_eq!(t1.checkout, CheckoutMode::Overlay);
    assert_eq!(t1.env[0].name, "PRE_COMMIT_ISOLATED");
    // A shell string is a shell string here as it is in a hook, and the defaults are
    // the dev environment, shared, `reuse-or-ephemeral`.
    let t0 = &plan.tasks[0];
    assert_eq!(t0.argv, ["/bin/sh", "-c", "cargo fmt --check"]);
    assert_eq!((t0.environment.as_str(), t0.reuse.as_str()), ("dev", "dev"));
    assert_eq!(t0.checkout, CheckoutMode::Shared);
    // Tasks belong to the config, not to the environment they name.
    assert!(!plan.cached_only && plan.fallback_target.is_none());

    let h = w.plan_of(task_schema(), "hook").unwrap();
    assert!(h.cached_only);
    assert_eq!(h.fallback_target.as_deref(), Some("precommit"));
    match &h.source {
        Source::Build { context, dockerfile, target, args } => {
            assert_eq!(context.display(), "/w/repo/docker/wabbuilder");
            assert_eq!(dockerfile.display(), "/w/repo/docker/wabbuilder/Dockerfile");
            assert_eq!(target.as_deref(), Some("builder"));
            assert_eq!(args, &[pair("DEVUSER_UID", "1000")]);
        }
        other => panic!("{other:?}"),
    }
    let shell = shell_of(&h);
    // A build argument's value is where a token reaches an image, so it is redacted
    // like an environment value, in both formats.
    assert!(shell.contains("--build-arg 'DEVUSER_UID=<redacted"), "{shell}");
    assert!(h.to_shell(true, false).unwrap().contains("--build-arg DEVUSER_UID="), "unless asked for");
    assert!(shell.contains("--require-cached"), "{shell}");
    assert!(shell.contains("# on a cache miss"), "{shell}");
    assert!(plan.to_json(false).unwrap().contains("\"pre-commit\""), "the plan is what `vk dev plan` shows");
}

#[test]
fn a_task_names_an_environment_the_config_declares() {
    let mut env = wab_env();
    env.tasks =
        vec![("check".to_string(), Task { environment: t("hook"), ..task(Command::Argv(vec!["true".into()])) })];
    let msg = world().dev(env).unwrap_err();
    assert!(msg.contains("dev.tasks.check") && msg.contains("environments.hook"), "{msg}");
}

#[test]
fn variables_are_the_documented_few() {
    let mut vars = Vars {
        workspace: p("/w/repo"),
        state: p("/s"),
        home: Some(p("/home/me")),
        uid: 1000,
        gid: 100,
        env: vec![("VK_TEST_EMPTY".to_string(), t("")), ("VK_TEST_ODD".to_string(), None)],
        env_file: vec![pair("FROM_FILE", "f")],
        missing: vec![],
        secrets: vec![],
    };
    assert_eq!(vars.expand("${workspace}/x").unwrap().value, "/w/repo/x");
    assert_eq!(vars.expand("${state}/y").unwrap().value, "/s/y");
    assert_eq!(vars.expand("~/.gitconfig").unwrap().value, "/home/me/.gitconfig");
    assert_eq!(vars.expand("~").unwrap().value, "/home/me");
    assert_eq!(vars.expand("~user/x").unwrap().value, "~user/x", "not a home reference");
    assert_eq!(vars.expand("${HOME}/z").unwrap().value, "/home/me/z");
    assert_eq!(vars.expand("${VK_UID}:${VK_GID}").unwrap().value, "1000:100");
    let e = vars.expand("${localEnv:FROM_FILE}").unwrap();
    assert_eq!(e.value, "f");
    assert!(e.sensitive);
    assert_eq!(vars.expand("a${localEnv:VK_TEST_EMPTY}b").unwrap().value, "ab");
    assert_eq!(vars.expand("${localEnv:VK_TEST_ABSENT}").unwrap().value, "");
    assert_eq!(vars.missing.len(), 1, "noted, not failed");
    assert_eq!(vars.expand("${localEnv:VK_TEST_ABSENT:fallback}").unwrap().value, "fallback");
    // A default is a value, colons and all.
    assert_eq!(vars.expand("${localEnv:VK_TEST_ABSENT:https://h:8443/x}").unwrap().value, "https://h:8443/x");
    // The same variable, twice, with something else expanded in between: one message.
    vars.expand("${localEnv:VK_TEST_ABSENT}").unwrap();
    vars.expand("${workspace}").unwrap();
    vars.expand("${localEnv:VK_TEST_ABSENT}").unwrap();
    assert_eq!(vars.missing.len(), 1, "one message per variable");
    assert!(vars.expand("${localWorkspaceFolder}").is_err(), "the old spelling");
    assert!(vars.expand("${unterminated").is_err());
    // Set to bytes this host does not spell in UTF-8: an error, not a variable the user
    // is told to export.
    let err = vars.expand("${localEnv:VK_TEST_ODD}").unwrap_err().message;
    assert!(err.contains("VK_TEST_ODD") && err.contains("UTF-8"), "{err}");

    vars.home = None;
    assert!(vars.expand("~/x").is_err());
    assert_eq!(vars.expand("/plain").unwrap().value, "/plain");
}

#[test]
fn a_rendered_command_line_quotes_what_a_config_wrote() {
    let mut w = world();
    w.dirs.push("/w/repo/ctx".into());
    w.files.push("/w/repo/ctx/Dockerfile".into());
    let env = Environment {
        workspace: t("/src"),
        build: Some(Build { context: t("ctx"), dockerfile: None, target: None, args: vec![pair("ODD", "a b")] }),
        mounts: vec![("spaced".to_string(), mount("home-config", "/g/with space"))],
        tasks: vec![("odd".to_string(), task(Command::Argv(vec!["./it's".into()])))],
        ..Environment::default()
    };
    let plan = w.dev(env).unwrap();
    let shell = plan.to_shell(true, false).unwrap();
    assert!(shell.contains("-v '/w/repo/home-config:/g/with space'"), "{shell}");
    assert!(shell.contains("--build-arg 'ODD=a b'"), "{shell}");
    assert!(shell.contains(r"'./it'\''s'"), "{shell}");
}

#[test]
fn a_host_fed_mount_source_is_redacted_like_an_environment_value() {
    let mut w = world();
    w.dirs.push("/w/repo/home-config/s3cret-dir".into());
    w.env = vec![("VK_TEST_TOKEN".to_string(), t("s3cret-dir"))];
    let mut env = image_env();
    env.mounts = vec![("fed".to_string(), mount("home-config/${localEnv:VK_TEST_TOKEN}", "/g/fed"))];
    let plan = w.dev(env).unwrap();
    assert!(plan.secrets.contains(&"s3cret-dir".to_string()));
    // A mount source has no provenance of its own in the plan, so a value this host fed
    // it is found by what it is rather than by where it sits.
    for text in [plan.to_json(false).unwrap(), shell_of(&plan)] {
        assert!(!text.contains("s3cret-dir"), "{text}");
        assert!(text.contains(REDACTED), "{text}");
    }
    assert!(plan.to_json(true).unwrap().contains("s3cret-dir"), "unless asked for");
}

#[test]
fn a_multi_line_hook_stays_inside_the_comment_it_renders_as() {
    let mut env = image_env();
    env.hooks.init = Some(Hook::Shell("make fixtures\nrm -rf /\n".into()));
    let plan = world().dev(env).unwrap();
    let shell = shell_of(&plan);
    let (_, comments) = shell.split_once("--ssh-client\n").unwrap();
    assert!(comments.contains("rm -rf /"), "{shell}");
    for line in comments.lines() {
        assert!(line.starts_with('#'), "a config's second line ran off the comment: {line:?}\n{shell}");
    }
}

#[test]
fn a_source_a_hook_has_yet_to_create_still_plans() {
    let mut env = image_env();
    env.hooks.init = Some(Hook::Shell("mkdir -p build/out".into()));
    env.mounts = vec![("out".to_string(), mount("build/out", "/out"))];
    let plan = world().dev(env).unwrap();
    let mounts: Vec<(&str, String)> = plan.mounts.iter().map(|m| (m.name.as_str(), m.source.display())).collect();
    assert_eq!(mounts, [("out", "/w/repo/build/out".to_string())]);
}

#[test]
fn vks_own_editor_mount_sorts_among_the_configured_ones() {
    let mut env = image_env();
    env.mounts = vec![
        ("alpha".to_string(), mount("virtkit", "/g/a")),
        ("zed".to_string(), mount("home-config", "/g/z")),
    ];
    env.editor = persistent();
    let plan = world().dev(env).unwrap();
    assert_eq!(plan.mounts.iter().map(|m| m.name.as_str()).collect::<Vec<_>>(), ["alpha", EDITOR_MOUNT, "zed"]);
}

#[test]
fn a_host_port_below_the_floor_is_refused() {
    assert!(refuse_privileged(1024, 1024).is_ok());
    assert!(refuse_privileged(8080, 1024).is_ok());
    let err = refuse_privileged(80, 1024).unwrap_err().message;
    assert!(err.contains("cannot bind") && err.contains("below 1024"), "{err}");
    // A host that lowered the floor binds what a default one would not.
    assert!(refuse_privileged(80, 80).is_ok());
}

#[test]
fn the_floor_is_what_the_kernel_answers() {
    assert_eq!(lowest_bindable_port(true, &None), 0);
    assert_eq!(lowest_bindable_port(false, &t("80\n")), 80);
    assert_eq!(lowest_bindable_port(false, &t("odd")), 1024);
    assert_eq!(lowest_bindable_port(false, &t("70000")), 1024);
    assert_eq!(lowest_bindable_port(false, &None), 1024);
}

#[test]
fn the_state_base_needs_an_absolute_directory_to_put_state_under() {
    let err = dev_state_base(&Some(p("relative/state")), &Some(p("/home/me"))).unwrap_err().message;
    assert!(err.contains("not an absolute path"), "{err}");
    let err = dev_state_base(&None, &None).unwrap_err().message;
    assert!(err.contains("nowhere to keep VM state"), "{err}");
    assert_eq!(dev_state_base(&Some(p("/s")), &None).unwrap().display(), "/s/virtkit/dev");
    assert_eq!(dev_state_base(&None, &Some(p("/home/me"))).unwrap().display(), "/home/me/.local/state/virtkit/dev");
}

/// A state base of the length `$XDG_STATE_HOME` unset gives a `/home/<user>` account.
const BASE: &str = "/home/alice/.local/state/virtkit/dev";

/// The longest path the directory `name` under `base` ever has to bind.
fn socket_len(base: &HostPath, name: &str) -> usize {
    base.join_text(name).join_text("vsock.sock_65535").bytes.len()
}

#[test]
fn an_environment_directory_that_fits_keeps_its_whole_name() {
    let base = p(BASE);
    let parts = NameParts::of(&p("/home/alice/src/my-project"), "hook");
    let name = parts.environment_dir(&base).unwrap();
    assert_eq!(name, format!("my-project-hook-{}", parts.slug));
    assert!(socket_len(&base, &name) <= SUN_PATH_MAX);
}

#[test]
fn a_long_workspace_name_is_cut_to_what_the_base_leaves() {
    let base = p(BASE);
    let parts = NameParts::of(&p(&format!("/w/{}", "n".repeat(200))), "hook");
    let name = parts.environment_dir(&base).unwrap();
    assert_eq!(socket_len(&base, &name), SUN_PATH_MAX);
    // The digest still tells this workspace from another cut to the same prefix.
    assert!(name.ends_with(&format!("-hook-{}", parts.slug)), "{name}");
    assert!(name.starts_with("nnn"), "{name}");
}

#[test]
fn an_ephemeral_task_directory_leaves_room_for_its_sockets() {
    let base = p(BASE);
    let parts = NameParts::of(&p("/home/alice/src/my-project"), "hook");
    let name = parts.task_dir(&base, "pre-commit", "34e89283").unwrap();
    assert_eq!(name, "my-project-hook-task-pre-commit-34e89283");
    assert!(socket_len(&base, &name) <= SUN_PATH_MAX);
}

#[test]
fn a_task_directory_gives_up_the_workspace_name_before_the_task_name() {
    let base = p(BASE);
    let parts = NameParts::of(&p(&format!("/w/{}", "w".repeat(200))), "hook");
    let name = parts.task_dir(&base, "pre-commit", "34e89283").unwrap();
    assert_eq!(socket_len(&base, &name), SUN_PATH_MAX);
    assert!(name.starts_with("www"), "{name}");
    assert!(name.ends_with("-hook-task-pre-commit-34e89283"), "{name}");

    // A base that leaves less than the two names want: the workspace is down to a
    // single byte before the task name gives up anything.
    let tight = p(&format!("/{}", "b".repeat(59)));
    let name = parts.task_dir(&tight, "pre-commit", "34e89283").unwrap();
    assert_eq!(socket_len(&tight, &name), SUN_PATH_MAX);
    assert_eq!(name, "w-hook-task-pre-comm-34e89283");
}

#[test]
fn a_base_with_no_room_for_a_state_directory_says_what_to_do() {
    let long = format!("/{}", "b".repeat(120));
    let base = p(&long);
    let parts = NameParts::of(&p("/w/repo"), "dev");
    for err in [
        parts.environment_dir(&base).unwrap_err().message,
        parts.task_dir(&base, "check", "34e89283").unwrap_err().message,
    ] {
        assert!(err.contains(&long), "{err}");
        assert!(err.contains("XDG_STATE_HOME"), "{err}");
        assert!(err.contains(&SUN_PATH_MAX.to_string()), "{err}");
    }
}

#[test]
fn a_workspace_named_in_any_bytes_folds_to_an_ascii_readable_name() {
    // The byte-truncation of `readable` is safe only because it is ASCII whatever the
    // workspace is called — a multibyte, punctuation-laden basename included.
    let parts = NameParts::of(&p("/w/café münster+x"), "dev");
    assert!(parts.readable.is_ascii(), "{}", parts.readable);
    assert!(
        parts.readable.bytes().all(|b| b.is_ascii_alphanumeric() || b == b'.' || b == b'-'),
        "{}",
        parts.readable
    );
    // ASCII alphanumerics survive; every other byte becomes '-'.
    assert!(parts.readable.starts_with("caf"), "{}", parts.readable);
    assert!(parts.readable.ends_with("nster-x"), "{}", parts.readable);
}

#[test]
fn a_base_that_fits_a_state_dir_but_not_a_readable_name_is_refused() {
    // 68 bytes: `state_dir_room` still returns a positive budget, but the fixed parts of
    // each name — suffix and digest for an environment, suffix, `-task-` and token for a
    // task — leave no room for even one byte of the workspace name, so both directories
    // refuse rather than emit a name with nothing legible left.
    let base = p(&format!("/{}", "b".repeat(67)));
    assert!(state_dir_room(&base).is_ok());
    let parts = NameParts::of(&p("/w/repo"), "hook");
    assert!(parts.environment_dir(&base).is_err());
    assert!(parts.task_dir(&base, "pre-commit", "34e89283").is_err());
}

#[test]
fn a_hooks_directory_is_expanded_like_the_rest() {
    let hook = |cwd: &str| {
        Some(Hook::Detailed(HookSpec {
            run: Some(Command::Shell("make".into())),
            cwd: t(cwd),
            timeout: None,
            required: true,
        }))
    };
    let mut env = image_env();
    env.hooks.init = hook("${workspace}/${localEnv:VK_TEST_TOKEN}");
    let plan = world().dev(env).unwrap();
    match plan.hooks.init.as_ref().unwrap() {
        HookPlan::Command(c) => assert_eq!(c.cwd.as_deref(), Some("/w/repo/s3cret")),
        other => panic!("{other:?}"),
    }
    assert_eq!(plan.secrets, ["s3cret"]);
    let mut env = image_env();
    env.hooks.start = hook("${nonsense}");
    let msg = world().dev(env).unwrap_err();
    assert!(msg.starts_with("[dev.hooks] start: cwd: "), "{msg}");
}

#[test]
fn a_relative_mount_source_stays_in_the_workspace() {
    let w = world();
    let msg = w.dev(with_mount("up", mount("../x", "/x"))).unwrap_err();
    assert_eq!(msg, "[dev.mounts.up] source /w/x escapes upward; write the path it means");
    let msg = w.dev(with_mount("up", mount("virtkit/../../../x", "/x"))).unwrap_err();
    assert!(msg.contains("escapes upward"), "{msg}");
    // one that comes back, and one that says what it means
    let plan = w.dev(with_mount("in", mount("virtkit/../home-config", "/x"))).unwrap();
    assert!(plan.mounts.iter().any(|m| m.name == "in" && m.source.display() == "/w/repo/home-config"));
    let plan = w.dev(with_mount("abs", mount("/w/x", "/x"))).unwrap();
    assert!(plan.mounts.iter().any(|m| m.name == "abs" && m.source.display() == "/w/x"));
}

#[test]
fn nothing_but_comments_follows_the_command() {
    let mut env = wab_env();
    env.hooks.init = Some(Hook::Shell("one\n\nrm -rf /\n".into()));
    let shell = shell_of(&world().dev(env).unwrap());
    let after = shell.split("  --ssh-client\n").nth(1).unwrap();
    assert!(!after.is_empty());
    for line in after.lines() {
        assert!(line.starts_with("# "), "{line}");
    }
}
