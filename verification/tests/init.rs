use std::collections::BTreeMap;
use vk_dev::config::{
    Build, Cache, CheckoutMode, Command, Editor, EditorState, Egress, Endpoint, Environment, Fallback, Files, Freshness,
    Hook, HookSpec, Hooks, Host, Mount, Network, Policy, Requires, Schema, Task, VsCode, CONFIG_FILE,
};
use vk_dev::devcontainer::{
    discover, parse_for_import, Cache as DcCache, Config, Customizations, HostExec, Lifecycle, LocalUserBuildArgs,
    Mount as DcMount, MountObj, OneOrMany, Port, Virtkit,
};
use vk_dev::draft::{write_config, Draft, TEMPLATE};
use vk_dev::init::{
    compose_file, detect, docker_file, from_compose, from_dockerfile, from_image, import_outcome, run, service_names,
    template_outcome, Opts, Outcome, Source, Step,
};
use vk_dev::loaded::{load, merge_layers, parse_layer, LayerRead, Loaded};
use vk_dev::path::HostPath;
use vk_dev::shape::{cpus_of_count, cpus_of_text, hook_form, mount_form, HookForm, MountForm, CPUS_FORMS};
use vk_dev::text::{error, Error};
use vk_dev::translate::{dockerfile_wanted, translate};
use vk_dev::validate::Known;
use vk_dev::value::{copy_json, copy_table, Json, Toml};

type Table = Vec<(String, Toml)>;

fn p(s: &str) -> HostPath {
    HostPath::from_text(s)
}

// The values of a table, read by their keys.

fn at<'a>(t: &'a Table, k: &str) -> Option<&'a Toml> {
    t.iter().find(|e| e.0 == k).map(|e| &e.1)
}

fn text(t: &Table, k: &str) -> Option<String> {
    match at(t, k) {
        Some(Toml::Text(s)) => Some(s.clone()),
        None => None,
        other => panic!("{k}: {other:?}"),
    }
}

fn flag(t: &Table, k: &str, default: bool) -> bool {
    match at(t, k) {
        Some(Toml::Boolean(b)) => *b,
        None => default,
        other => panic!("{k}: {other:?}"),
    }
}

fn number(t: &Table, k: &str) -> Option<i64> {
    match at(t, k) {
        Some(Toml::Integer(n)) => Some(*n),
        None => None,
        other => panic!("{k}: {other:?}"),
    }
}

fn list_of(v: &Toml) -> Vec<String> {
    match v {
        Toml::Array(a) => a
            .iter()
            .map(|x| match x {
                Toml::Text(s) => s.clone(),
                other => panic!("{other:?}"),
            })
            .collect(),
        other => panic!("{other:?}"),
    }
}

fn list(t: &Table, k: &str) -> Vec<String> {
    at(t, k).map(list_of).unwrap_or_default()
}

fn table<'a>(v: &'a Toml) -> &'a Table {
    match v {
        Toml::Table(t) => t,
        other => panic!("{other:?}"),
    }
}

fn texts(t: &Table, k: &str) -> Vec<(String, String)> {
    match at(t, k) {
        Some(v) => table(v).iter().map(|(n, _)| (n.clone(), text(table(v), n).unwrap())).collect(),
        None => vec![],
    }
}

fn named<T>(t: &Table, k: &str, read: &dyn Fn(&Table) -> T) -> Vec<(String, T)> {
    match at(t, k) {
        Some(v) => table(v).iter().map(|(n, x)| (n.clone(), read(table(x)))).collect(),
        None => vec![],
    }
}

fn command(t: &Table, k: &str) -> Option<Command> {
    match at(t, k) {
        Some(Toml::Text(s)) => Some(Command::Shell(s.clone())),
        Some(v) => Some(Command::Argv(list_of(v))),
        None => None,
    }
}

fn hook_of(v: &Toml) -> Result<Hook, Error> {
    Ok(match hook_form(v)? {
        HookForm::Shell => match v {
            Toml::Text(s) => Hook::Shell(s.clone()),
            _ => unreachable!(),
        },
        HookForm::Argv => Hook::Argv(list_of(v)),
        HookForm::Detailed => {
            let t = table(v);
            Hook::Detailed(HookSpec {
                run: command(t, "run"),
                cwd: text(t, "cwd"),
                timeout: text(t, "timeout"),
                required: flag(t, "required", true),
            })
        }
        HookForm::Group => {
            let mut members = vec![];
            for (n, x) in table(v) {
                members.push((n.clone(), hook_of(x)?));
            }
            Hook::Group(members)
        }
    })
}

fn hook(t: &Table, k: &str) -> Result<Option<Hook>, Error> {
    match at(t, k) {
        Some(v) => Ok(Some(hook_of(v)?)),
        None => Ok(None),
    }
}

fn part<'a>(t: &'a Table, k: &str, empty: &'a Table) -> &'a Table {
    at(t, k).map(table).unwrap_or(empty)
}

fn environment(t: &Table) -> Result<Environment, Error> {
    let none: Table = vec![];
    let cpus = match at(t, "cpus") {
        Some(Toml::Integer(n)) => cpus_of_count(*n),
        Some(Toml::Text(s)) => cpus_of_text(s),
        _ => None,
    };
    if at(t, "cpus").is_some() && cpus.is_none() {
        return Err(error(format!("expected {CPUS_FORMS}")));
    }
    let vscode = match at(part(t, "editor", &none), "vscode") {
        Some(v) => {
            let v = table(v);
            Some(VsCode {
                state: text(v, "state").map(|s| match s.as_str() {
                    "persistent" => EditorState::Persistent,
                    _ => EditorState::Ephemeral,
                }),
                home: text(v, "home"),
                reconcile: hook(v, "reconcile")?,
                extensions: list(v, "extensions"),
                settings: copy_table(part(v, "settings", &none)),
            })
        }
        None => None,
    };
    let host = part(t, "host", &none);
    let cache = part(t, "cache", &none);
    let hooks = part(t, "hooks", &none);
    Ok(Environment {
        compose: text(t, "compose"),
        service: text(t, "service"),
        image: text(t, "image"),
        build: at(t, "build").map(table).map(|b| Build {
            context: text(b, "context"),
            dockerfile: text(b, "dockerfile"),
            target: text(b, "target"),
            args: texts(b, "args"),
        }),
        cached_only: flag(t, "cached-only", false),
        fallback: at(t, "fallback").map(table).map(|f| Fallback { target: text(f, "target") }),
        workspace: text(t, "workspace"),
        user: text(t, "user"),
        freshness: text(t, "freshness").map(|s| match s.as_str() {
            "ask" => Freshness::Ask,
            "reuse" => Freshness::Reuse,
            "refresh" => Freshness::Refresh,
            _ => Freshness::RequireCurrent,
        }),
        profiles: list(t, "profiles"),
        cpus,
        mem: text(t, "mem"),
        exec_env: texts(t, "exec-env"),
        container_env: texts(t, "container-env"),
        mounts: named(t, "mounts", &|m| Mount {
            source: text(m, "source"),
            to: text(m, "to"),
            read_only: flag(m, "read-only", false),
            optional: flag(m, "optional", false),
            enabled: flag(m, "enabled", true),
        }),
        editor: Editor { vscode },
        host: Host {
            git_gui: flag(host, "git-gui", false),
            ssh_agent: flag(host, "ssh-agent", false),
            wrapper: text(host, "wrapper"),
            wrapper_env: list(host, "wrapper-env"),
        },
        cache: Cache { registry: text(cache, "registry"), insecure: flag(cache, "insecure", false) },
        endpoints: named(t, "endpoints", &|e| Endpoint {
            service: text(e, "service"),
            target: number(e, "target").map(|n| n as u16),
            host_port: number(e, "host-port").map(|n| n as u16),
            address: text(e, "address"),
            scheme: text(e, "scheme"),
            path: text(e, "path"),
            required: flag(e, "required", false),
            enabled: flag(e, "enabled", true),
        }),
        network: Network {
            egress: text(part(t, "network", &none), "egress").map(|s| match s.as_str() {
                "unrestricted" => Egress::Unrestricted,
                _ => Egress::Restricted,
            }),
        },
        hooks: Hooks { init: hook(hooks, "init")?, create: hook(hooks, "create")?, start: hook(hooks, "start")? },
        tasks: named(t, "tasks", &|k| Task {
            run: command(k, "run"),
            environment: text(k, "environment"),
            reuse: text(k, "reuse"),
            policy: text(k, "policy").map(|s| match s.as_str() {
                "reuse" => Policy::Reuse,
                "require" => Policy::Require,
                "ephemeral" => Policy::Ephemeral,
                _ => Policy::ReuseOrEphemeral,
            }),
            checkout: text(k, "checkout").map(|s| match s.as_str() {
                "shared" => CheckoutMode::Shared,
                _ => CheckoutMode::Overlay,
            }),
            env: texts(k, "env"),
            enabled: flag(k, "enabled", true),
        }),
        ..Environment::default()
    })
}

fn schema(t: &Table) -> Result<Schema, Error> {
    let none: Table = vec![];
    let requires = part(t, "requires", &none);
    let mut environments = vec![];
    for (n, e) in part(t, "environments", &none) {
        environments.push((n.clone(), environment(table(e))?));
    }
    Ok(Schema {
        schema: number(t, "schema"),
        remove: list(t, "remove"),
        env_files: list(t, "env-files"),
        requires: Requires { min_version: text(requires, "min-version"), features: list(requires, "features") },
        dev: match at(t, "dev") {
            Some(d) => Some(environment(table(d))?),
            None => None,
        },
        environments,
    })
}

fn layer(path: &HostPath, text: &str) -> Result<LayerRead, Error> {
    let table = parse_layer(path, text)?;
    Ok(LayerRead { schema: schema(&table)?, table })
}

// The values of an object, read by their keys.

type Object = Vec<(String, Json)>;

fn field<'a>(o: &'a Object, k: &str) -> Option<&'a Json> {
    o.iter().find(|e| e.0 == k).map(|e| &e.1).filter(|v| !matches!(v, Json::Null))
}

fn object(v: &Json) -> &Object {
    match v {
        Json::Object(o) => o,
        other => panic!("{other:?}"),
    }
}

fn string(v: &Json) -> String {
    match v {
        Json::Text(s) => s.clone(),
        other => panic!("{other:?}"),
    }
}

fn opt_string(o: &Object, k: &str) -> Option<String> {
    field(o, k).map(string)
}

fn array(v: &Json) -> &Vec<Json> {
    match v {
        Json::Array(a) => a,
        other => panic!("{other:?}"),
    }
}

fn strings(v: &Json) -> Vec<String> {
    array(v).iter().map(string).collect()
}

fn pairs(o: &Object, k: &str) -> Option<Vec<(String, String)>> {
    field(o, k).map(|v| object(v).iter().map(|(n, x)| (n.clone(), string(x))).collect())
}

fn on(o: &Object, k: &str) -> bool {
    matches!(field(o, k), Some(Json::Bool(true)))
}

fn lifecycle_of(v: &Json) -> Lifecycle {
    match v {
        Json::Text(s) => Lifecycle::Shell(s.clone()),
        Json::Array(_) => Lifecycle::Argv(strings(v)),
        other => Lifecycle::Parallel(object(other).iter().map(|(n, x)| (n.clone(), lifecycle_of(x))).collect()),
    }
}

fn mount_of(v: &Json) -> Result<DcMount, Error> {
    Ok(match mount_form(v)? {
        MountForm::Str => DcMount::Str(string(v)),
        MountForm::Obj => {
            let o = object(v);
            DcMount::Obj(MountObj {
                kind: opt_string(o, "type"),
                source: opt_string(o, "source").unwrap(),
                target: opt_string(o, "target").unwrap(),
                readonly: on(o, "readonly"),
            })
        }
    })
}

fn port_of(v: &Json) -> Port {
    match v {
        Json::Number(n) => Port::Number(n.as_i64().unwrap()),
        other => Port::Named(string(other)),
    }
}

fn virtkit_of(o: &Object) -> Virtkit {
    Virtkit {
        docker_compose_file: opt_string(o, "dockerComposeFile"),
        service: opt_string(o, "service"),
        cpus: opt_string(o, "cpus"),
        mem: opt_string(o, "mem"),
        profiles: field(o, "profiles").map(strings).unwrap_or_default(),
        host_exec: field(o, "hostExec").map(object).map(|h| HostExec {
            wrapper: opt_string(h, "wrapper").unwrap(),
            env: field(h, "env").map(strings).unwrap_or_default(),
        }),
        cache: field(o, "cache").map(object).map(|c| DcCache {
            registry: opt_string(c, "registry"),
            insecure: on(c, "insecure"),
        }),
        state_dir: opt_string(o, "stateDir"),
        git_worktree_mount: on(o, "gitWorktreeMount"),
        local_user_build_args: field(o, "localUserBuildArgs").map(object).map(|a| LocalUserBuildArgs {
            uid: field(a, "uid").map(strings).unwrap_or_default(),
            gid: field(a, "gid").map(strings).unwrap_or_default(),
        }),
    }
}

/// The devcontainer file, read from its text.
fn devcontainer(text: &str) -> Result<Config, Error> {
    let v = parse_for_import(text)?;
    let o = object(&v);
    let mut mounts = None;
    if let Some(m) = field(o, "mounts") {
        let mut all = vec![];
        for x in array(m) {
            all.push(mount_of(x)?);
        }
        mounts = Some(all);
    }
    Ok(Config {
        name: opt_string(o, "name"),
        docker_compose_file: field(o, "dockerComposeFile").map(|v| match v {
            Json::Text(s) => OneOrMany::One(s.clone()),
            other => OneOrMany::Many(strings(other)),
        }),
        service: opt_string(o, "service"),
        run_services: field(o, "runServices").map(strings),
        workspace_folder: opt_string(o, "workspaceFolder"),
        mounts,
        container_env: pairs(o, "containerEnv"),
        remote_env: pairs(o, "remoteEnv"),
        remote_user: opt_string(o, "remoteUser"),
        forward_ports: field(o, "forwardPorts").map(|v| array(v).iter().map(port_of).collect()),
        initialize_command: field(o, "initializeCommand").map(lifecycle_of),
        post_create_command: field(o, "postCreateCommand").map(lifecycle_of),
        post_start_command: field(o, "postStartCommand").map(lifecycle_of),
        customizations: field(o, "customizations").map(object).map(|c| Customizations {
            virtkit: field(c, "virtkit").map(object).map(virtkit_of),
            others: c.iter().filter(|e| e.0 != "virtkit").map(|(n, x)| (n.clone(), copy_json(x))).collect(),
        }),
        image: field(o, "image").map(copy_json),
        build: field(o, "build").map(copy_json),
        docker_file: field(o, "dockerFile").map(copy_json),
        features: field(o, "features").is_some(),
        shutdown_action: field(o, "shutdownAction").is_some(),
        ..Config::default()
    })
}

/// A project's files, by their paths under `/w`.
#[derive(Default)]
struct Project {
    files: BTreeMap<String, String>,
}

impl Project {
    fn write(&mut self, name: &str, text: &str) {
        self.files.insert(name.into(), text.into());
    }

    fn config(&self) -> &str {
        &self.files[CONFIG_FILE]
    }

    fn load(&self) -> Result<Loaded, Error> {
        let files = Files {
            workspace: p("/w"),
            config: p("/w").join_text(CONFIG_FILE),
            local: None,
            local_env: None,
        };
        let project = layer(&files.config, self.config())?;
        let merged = merge_layers(&files, &project, &None)?;
        let merged_schema = schema(&merged.merged)?;
        load(files, merged, merged_schema, &vec![], &Known { features: vec![], addresses: vec![] })
    }

    /// The named stages of a Dockerfile.
    fn stages(&self, path: &HostPath) -> Option<Vec<String>> {
        let text = self.files.get(&path.strip_prefix(&p("/w")).unwrap().display())?;
        Some(text.lines().filter_map(|l| l.split(" AS ").nth(1)).map(String::from).collect())
    }

    fn put(&mut self, text: &str, force: bool) -> Result<HostPath, Error> {
        let w = write_config(&p("/w"), text, force);
        if self.files.contains_key(CONFIG_FILE) && !force {
            return Err(error(w.exists));
        }
        self.write(CONFIG_FILE, &w.text);
        Ok(w.path)
    }

    fn init(&mut self, o: &Opts) -> Result<Outcome, Error> {
        let ws = p("/w");
        let files: Vec<HostPath> = self.files.keys().map(|f| ws.join_text(f)).collect();
        let text = |path: &HostPath| self.files[&path.strip_prefix(&ws).unwrap().display()].clone();
        let (read, draft): (HostPath, Draft) = match run(o, self.files.contains_key(CONFIG_FILE), &ws, &files)? {
            Step::Describe => return Ok(Outcome { report: self.load()?.describe(), ok: true }),
            Step::Template => {
                let path = self.put(TEMPLATE, o.force)?;
                return Ok(template_outcome(&path));
            }
            Step::Import(Source::Devcontainer) => {
                let path = discover(&ws, &None, &files)?;
                let c = devcontainer(&text(&path))?;
                let stages = dockerfile_wanted(&c, &path, &ws).and_then(|d| self.stages(&d));
                let draft = translate(&c, &path, &ws, &stages);
                (path, draft)
            }
            Step::Import(Source::Compose) => {
                let path = compose_file(&ws, &files)?;
                let names = service_names(&path, &text(&path));
                let draft = from_compose(&path, &ws, names);
                (path, draft)
            }
            Step::Import(Source::Dockerfile) => {
                let path = docker_file(&ws, &files)?;
                let draft = from_dockerfile(&self.stages(&path).unwrap());
                (path, draft)
            }
            Step::Import(Source::Image) => {
                let image = o.image.clone().unwrap();
                (p(&image), from_image(&image))
            }
        };
        let path = self.put(&draft.render(), o.force)?;
        let failed = self.load().err().map(|e| e.message);
        Ok(import_outcome(&path, &read, &draft, &failed))
    }
}

fn opts() -> Opts {
    Opts { from: None, image: None, force: false }
}

#[test]
fn nothing_to_read_from_writes_the_template_and_an_existing_config_is_validated() {
    let mut f = Project::default();
    let out = f.init(&opts()).unwrap();
    assert!(out.ok && out.report.contains("wrote"), "{}", out.report);
    assert_eq!(f.config(), TEMPLATE);
    // Again: validated, not rewritten.
    let out = f.init(&opts()).unwrap();
    assert!(out.ok && out.report.contains("config.toml: ok"), "{}", out.report);
    // A source asked for explicitly is refused over an existing file, unless forced.
    f.write("Dockerfile", "FROM debian:13\n");
    let mut o = opts();
    o.from = Some(Source::Dockerfile);
    assert!(f.init(&o).is_err());
    o.force = true;
    let out = f.init(&o).unwrap();
    assert!(out.ok, "{}", out.report);
    assert!(f.config().contains("build = { context"), "{}", f.config());
}

/// The real shape this is for: a Docker devcontainer whose compose file and service are
/// not the VM's, beside a `customizations.virtkit` that names the VM's.
fn wab_like(f: &mut Project, with_virtkit: bool) {
    f.write("virtkit/host-dispatch.sh", "#!/bin/sh\n");
    f.write("compose.yaml", "services:\n  builder:\n    image: x\n");
    let virtkit = if with_virtkit {
        r#""virtkit": {
            "dockerComposeFile": "../virtkit/compose.yaml", "service": "devcontainer",
            "cpus": "host", "mem": "16G", "profiles": ["runner"],
            "hostExec": { "wrapper": "../virtkit/host-dispatch.sh", "env": ["LC_*"] },
            "cache": { "registry": "127.0.0.1:5000/cache", "insecure": true },
            "gitWorktreeMount": true,
            "localUserBuildArgs": { "uid": ["DEVUSER_UID"], "gid": ["DEVUSER_GID"] }
        },"#
    } else {
        ""
    };
    f.write(
        ".devcontainer/devcontainer.json",
        &format!(
            r#"{{
  "name": "WAB Dev (${{localWorkspaceFolderBasename}})",
  "dockerComposeFile": "../compose.yaml",
  "workspaceFolder": "/workdir",
  "service": "builder",
  "remoteUser": "dev",
  "mounts": [
    "source=${{localWorkspaceFolder}}/home-config,target=/home/dev/.config,type=bind,readonly",
    {{ "type": "bind", "source": "${{localEnv:HOME}}/.gitconfig", "target": "/home/dev/.gitconfig" }}
  ],
  "containerEnv": {{ "WAB_IN_VM": "1" }},
  "remoteEnv": {{ "GITLAB_WORKFLOW_TOKEN": "${{localEnv:GITLAB_WORKFLOW_TOKEN}}",
                 "WS_NAME": "${{localWorkspaceFolderBasename}}" }},
  "forwardPorts": [8080, "runner:8443"],
  "initializeCommand": ["./scripts/prepare.sh"],
  "postCreateCommand": "/workdir/.devcontainer/install-extensions.sh -postcreate",
  "postStartCommand": {{ "redis": "redis-cli ping", "db": ["mysqladmin", "ping"] }},
  "features": {{ "ghcr.io/devcontainers/features/node:1": {{}} }},
  "shutdownAction": "none",
  "customizations": {{
    {virtkit}
    "vscode": {{
      "extensions": ["ms-python.python"],
      "settings": {{
        "python.analysis.typeCheckingMode": "standard",
        "extensions.autoUpdate": false,
        "coverage-gutters.manualCoverageFilePaths": ["/workdir/coverage.xml"],
        "some.nullable": null
      }}
    }}
  }}
}}"#
        ),
    );
}

#[test]
fn a_devcontainer_is_translated_with_a_report_and_not_silently_the_docker_lan() {
    let mut f = Project::default();
    wab_like(&mut f, true);
    let out = f.init(&opts()).unwrap();
    let text = f.config();
    let report = &out.report;
    // The machine vk drives is the one customizations.virtkit named, rebased to the
    // project root, and the Docker one is reported rather than taken.
    assert!(text.contains("compose = \"virtkit/compose.yaml\""), "{text}");
    assert!(text.contains("service = \"devcontainer\""), "{text}");
    assert!(
        report.contains("../compose.yaml") || report.contains("compose.yaml\" was not taken"),
        "{report}"
    );
    for expect in [
        "workspace = \"/workdir\"",
        "user = \"dev\"",
        "cpus = \"host\"",
        "mem = \"16G\"",
        "profiles = [\"runner\"]",
        "[dev.container-env]\nWAB_IN_VM = \"1\"",
        "[dev.exec-env]\nGITLAB_WORKFLOW_TOKEN = \"${localEnv:GITLAB_WORKFLOW_TOKEN}\"",
        "[dev.mounts.config]\nsource = \"${workspace}/home-config\"\nto = \"/home/dev/.config\"\nread-only = true",
        "[dev.mounts.gitconfig]\nsource = \"${localEnv:HOME}/.gitconfig\"",
        "[dev.endpoints.port-8080]\ntarget = 8080\n",
        "[dev.endpoints.runner-8443]\nservice = \"runner\"\ntarget = 8443\n",
        "[dev.hooks]\ninit = [\"./scripts/prepare.sh\"]\ncreate = \"/workdir/.devcontainer/install-extensions.sh -postcreate\"\nstart = { db = [\"mysqladmin\", \"ping\"], redis = \"redis-cli ping\" }",
        "[dev.editor.vscode]\nstate = \"persistent\"\nextensions = [\"ms-python.python\"]",
        "[dev.editor.vscode.settings]\n\"coverage-gutters.manualCoverageFilePaths\" = [\"/workdir/coverage.xml\"]\n\"extensions.autoUpdate\" = false\n\"python.analysis.typeCheckingMode\" = \"standard\"",
        "[dev.host]\nwrapper = \"virtkit/host-dispatch.sh\"\nwrapper-env = [\"LC_*\"]",
        "[dev.cache]\nregistry = \"127.0.0.1:5000/cache\"\ninsecure = true",
    ] {
        assert!(text.contains(expect), "{expect:?} in:\n{text}");
    }
    // Features make the environment something else, so the draft is not done.
    assert!(!out.ok, "{report}");
    assert!(
        report.contains("requires action before the environment can start:\n  features"),
        "{report}"
    );
    for expect in [
        "localUserBuildArgs",
        "gitWorktreeMount",
        "some.nullable",
        "shutdownAction",
        "name: a display name",
        "localWorkspaceFolderBasename",
    ] {
        assert!(report.contains(expect), "{expect:?} in:\n{report}");
    }
    // The draft is itself a valid config, read the way every other command reads it.
    assert!(report.contains("finish the items above"), "{report}");
}

#[test]
fn without_a_virtkit_section_the_docker_compose_is_taken_and_flagged() {
    let mut f = Project::default();
    wab_like(&mut f, false);
    let out = f.init(&opts()).unwrap();
    let text = f.config();
    assert!(text.contains("compose = \"compose.yaml\"\nservice = \"builder\""), "{text}");
    assert!(
        out.report.contains("requires action:\n")
            && out.report.contains("compose: taken from dockerComposeFile as written"),
        "{}",
        out.report
    );
}

#[test]
fn a_compose_file_needs_the_service_named_unless_there_is_one() {
    let mut f = Project::default();
    f.write("compose.yaml", "services:\n  web:\n    image: x\n  db:\n    image: y\n");
    let out = f.init(&opts()).unwrap();
    assert!(!out.ok, "{}", out.report);
    assert!(out.report.contains("which of web, db"), "{}", out.report);
    assert!(f.config().contains("# service = \"\""), "{}", f.config());
    assert!(out.report.contains("does not validate yet"), "{}", out.report);

    f.write("compose.yaml", "services:\n  web:\n    image: x\n");
    let mut o = opts();
    o.force = true;
    let out = f.init(&o).unwrap();
    assert!(f.config().contains("service = \"web\""), "{}", f.config());
    assert!(out.ok, "{}", out.report);
}

#[test]
fn a_dockerfile_with_several_stages_does_not_get_the_last_one_guessed() {
    let mut f = Project::default();
    f.write("Dockerfile", "FROM debian:13 AS base\nRUN true\nFROM base AS dev\nFROM base AS release\n");
    let out = f.init(&opts()).unwrap();
    assert!(!out.ok, "{}", out.report);
    assert!(out.report.contains("base, dev, release"), "{}", out.report);
    assert!(f.config().contains("target = \"\""), "{}", f.config());
    // The empty stage is not a config that runs: the draft says so itself, not only
    // through the exit code.
    assert!(out.report.contains("does not validate yet"), "{}", out.report);

    f.write("Dockerfile", "FROM debian:13\n");
    let mut o = opts();
    o.force = true;
    let out = f.init(&o).unwrap();
    assert!(out.ok, "{}", out.report);
    assert!(!f.config().contains("target"), "{}", f.config());
}

#[test]
fn a_named_source_that_is_not_there_says_so_and_an_existing_config_is_read() {
    let mut f = Project::default();
    for (from, expect) in [
        (Source::Compose, "no compose file"),
        (Source::Devcontainer, "no devcontainer config"),
        (Source::Dockerfile, "no Dockerfile"),
    ] {
        let mut o = opts();
        o.from = Some(from);
        let msg = f.init(&o).unwrap_err().message;
        assert!(msg.contains(expect), "{msg}");
    }
    // An existing config is read, not replaced — so what is wrong with it is what the
    // command reports, rather than a translation written over it.
    f.write("Dockerfile", "FROM x\n");
    f.write(CONFIG_FILE, "schema = 1\n[dev]\nimage = \"x\"\nmem = \"nope\"\n");
    let msg = f.init(&opts()).unwrap_err().message;
    assert!(msg.contains("nope"), "{msg}");
}

#[test]
fn an_image_source_takes_an_explicit_reference() {
    let mut f = Project::default();
    let mut o = opts();
    o.from = Some(Source::Image);
    assert_eq!(f.init(&o).unwrap_err().message, "--from image needs --image REF");
    o.image = Some("docker.io/library/alpine:3".into());
    let out = f.init(&o).unwrap();
    assert!(out.ok, "{}", out.report);
    assert!(f.config().contains("image = \"docker.io/library/alpine:3\""));
    // Detection would have found a Dockerfile; the explicit source wins.
    f.write("Dockerfile", "FROM x\n");
    assert_eq!(detect(&p("/w"), &vec![p("/w/Dockerfile")]), Some(Source::Dockerfile));
    o.force = true;
    f.init(&o).unwrap();
    assert!(f.config().contains("image = "), "{}", f.config());
    // An image is no help to another source.
    o.from = Some(Source::Compose);
    assert!(f.init(&o).is_err());
}

#[test]
fn a_compose_file_lists_its_services_in_order() {
    let names = |text: &str| service_names(&p("/w/c.yaml"), text).map_err(|e| e.message);
    assert_eq!(names("services:\n  web: {}\n  db: {}\n").unwrap(), ["web", "db"]);
    assert_eq!(names("version: 1\n").unwrap_err(), "/w/c.yaml declares no services");
    assert_eq!(names("services: [a]\n").unwrap_err(), "/w/c.yaml declares no services");
    let e = names("services:\n  1: {}\n").unwrap_err();
    assert_eq!(e, "/w/c.yaml: Number(1) is not a service name");
    assert!(names("services: [").unwrap_err().starts_with("parsing /w/c.yaml: "));
}
