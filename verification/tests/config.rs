use std::collections::BTreeMap;
use vk_dev::config::{
    Build, Cache, CheckoutMode, Command, Cpus, Editor, EditorState, Egress, Endpoint, Environment, Fallback, Files,
    Freshness, Hook, HookSpec, Hooks, Host, Layer, Mount, Network, Policy, Requires, Schema, Task, VsCode, CONFIG_FILE,
    LOCAL_ENV_FILE, LOCAL_FILE,
};
use vk_dev::discover::{absolute, discover, discover_here, worktree_root, Found};
use vk_dev::draft::write_template;
use vk_dev::envfile::{parse_env_file, trailing_ok};
use vk_dev::layers::{join_path, lookup, merge_tables, quote_key, remove_path, secret_key, split_path};
use vk_dev::loaded::{
    env_file_paths, load, merge_layers, parse_layer, read_env_file, FileRead, LayerRead, Loaded,
};
use vk_dev::path::HostPath;
use vk_dev::shape::{cpus_of_count, cpus_of_text, hook_form, HookForm, CPUS_FORMS};
use vk_dev::text::{error, Error};
use vk_dev::units::{parse_duration, parse_mem_mib, parse_version, Version};
use vk_dev::validate::{env_name, is_guest_absolute, plain_name, Known};
use vk_dev::value::{copy_table, copy_toml, parse_toml, toml_text, Toml};

type Table = Vec<(String, Toml)>;

fn p(s: &str) -> HostPath {
    HostPath::from_text(s)
}

// The values of a table, read by their keys.

fn at<'a>(t: &'a Table, k: &str) -> Option<&'a Toml> {
    t.iter().find(|e| e.0 == k).map(|e| &e.1)
}

fn text(t: &Table, k: &str) -> Option<String> {
    match at(t, k) {
        Some(Toml::Text(s)) => Some(s.clone()),
        None => None,
        other => panic!("{k}: {other:?}"),
    }
}

fn flag(t: &Table, k: &str, default: bool) -> bool {
    match at(t, k) {
        Some(Toml::Boolean(b)) => *b,
        None => default,
        other => panic!("{k}: {other:?}"),
    }
}

fn number(t: &Table, k: &str) -> Option<i64> {
    match at(t, k) {
        Some(Toml::Integer(n)) => Some(*n),
        None => None,
        other => panic!("{k}: {other:?}"),
    }
}

fn list_of(v: &Toml) -> Vec<String> {
    match v {
        Toml::Array(a) => a
            .iter()
            .map(|x| match x {
                Toml::Text(s) => s.clone(),
                other => panic!("{other:?}"),
            })
            .collect(),
        other => panic!("{other:?}"),
    }
}

fn list(t: &Table, k: &str) -> Vec<String> {
    at(t, k).map(list_of).unwrap_or_default()
}

fn table<'a>(v: &'a Toml) -> &'a Table {
    match v {
        Toml::Table(t) => t,
        other => panic!("{other:?}"),
    }
}

fn texts(t: &Table, k: &str) -> Vec<(String, String)> {
    match at(t, k) {
        Some(v) => table(v).iter().map(|(n, _)| (n.clone(), text(table(v), n).unwrap())).collect(),
        None => vec![],
    }
}

fn named<T>(t: &Table, k: &str, read: &dyn Fn(&Table) -> T) -> Vec<(String, T)> {
    match at(t, k) {
        Some(v) => table(v).iter().map(|(n, x)| (n.clone(), read(table(x)))).collect(),
        None => vec![],
    }
}

fn command(t: &Table, k: &str) -> Option<Command> {
    match at(t, k) {
        Some(Toml::Text(s)) => Some(Command::Shell(s.clone())),
        Some(v) => Some(Command::Argv(list_of(v))),
        None => None,
    }
}

fn hook_of(v: &Toml) -> Result<Hook, Error> {
    Ok(match hook_form(v)? {
        HookForm::Shell => match v {
            Toml::Text(s) => Hook::Shell(s.clone()),
            _ => unreachable!(),
        },
        HookForm::Argv => Hook::Argv(list_of(v)),
        HookForm::Detailed => {
            let t = table(v);
            Hook::Detailed(HookSpec {
                run: command(t, "run"),
                cwd: text(t, "cwd"),
                timeout: text(t, "timeout"),
                required: flag(t, "required", true),
            })
        }
        HookForm::Group => {
            let mut members = vec![];
            for (n, x) in table(v) {
                members.push((n.clone(), hook_of(x)?));
            }
            Hook::Group(members)
        }
    })
}

fn hook(t: &Table, k: &str) -> Result<Option<Hook>, Error> {
    match at(t, k) {
        Some(v) => Ok(Some(hook_of(v)?)),
        None => Ok(None),
    }
}

fn part<'a>(t: &'a Table, k: &str, empty: &'a Table) -> &'a Table {
    at(t, k).map(table).unwrap_or(empty)
}

fn environment(t: &Table) -> Result<Environment, Error> {
    let none: Table = vec![];
    let cpus = match at(t, "cpus") {
        Some(Toml::Integer(n)) => cpus_of_count(*n),
        Some(Toml::Text(s)) => cpus_of_text(s),
        _ => None,
    };
    if at(t, "cpus").is_some() && cpus.is_none() {
        return Err(error(format!("expected {CPUS_FORMS}")));
    }
    let vscode = match at(part(t, "editor", &none), "vscode") {
        Some(v) => {
            let v = table(v);
            Some(VsCode {
                state: text(v, "state").map(|s| match s.as_str() {
                    "persistent" => EditorState::Persistent,
                    _ => EditorState::Ephemeral,
                }),
                home: text(v, "home"),
                reconcile: hook(v, "reconcile")?,
                extensions: list(v, "extensions"),
                settings: copy_table(part(v, "settings", &none)),
            })
        }
        None => None,
    };
    let host = part(t, "host", &none);
    let cache = part(t, "cache", &none);
    let hooks = part(t, "hooks", &none);
    Ok(Environment {
        compose: text(t, "compose"),
        service: text(t, "service"),
        image: text(t, "image"),
        build: at(t, "build").map(table).map(|b| Build {
            context: text(b, "context"),
            dockerfile: text(b, "dockerfile"),
            target: text(b, "target"),
            args: texts(b, "args"),
        }),
        cached_only: flag(t, "cached-only", false),
        fallback: at(t, "fallback").map(table).map(|f| Fallback { target: text(f, "target") }),
        workspace: text(t, "workspace"),
        user: text(t, "user"),
        freshness: text(t, "freshness").map(|s| match s.as_str() {
            "ask" => Freshness::Ask,
            "reuse" => Freshness::Reuse,
            "refresh" => Freshness::Refresh,
            _ => Freshness::RequireCurrent,
        }),
        profiles: list(t, "profiles"),
        cpus,
        mem: text(t, "mem"),
        exec_env: texts(t, "exec-env"),
        container_env: texts(t, "container-env"),
        mounts: named(t, "mounts", &|m| Mount {
            source: text(m, "source"),
            to: text(m, "to"),
            read_only: flag(m, "read-only", false),
            optional: flag(m, "optional", false),
            enabled: flag(m, "enabled", true),
        }),
        editor: Editor { vscode },
        host: Host {
            git_gui: flag(host, "git-gui", false),
            ssh_agent: flag(host, "ssh-agent", false),
            wrapper: text(host, "wrapper"),
            wrapper_env: list(host, "wrapper-env"),
        },
        cache: Cache { registry: text(cache, "registry"), insecure: flag(cache, "insecure", false) },
        endpoints: named(t, "endpoints", &|e| Endpoint {
            service: text(e, "service"),
            target: number(e, "target").map(|n| n as u16),
            host_port: number(e, "host-port").map(|n| n as u16),
            address: text(e, "address"),
            scheme: text(e, "scheme"),
            path: text(e, "path"),
            required: flag(e, "required", false),
            enabled: flag(e, "enabled", true),
        }),
        network: Network {
            egress: text(part(t, "network", &none), "egress").map(|s| match s.as_str() {
                "unrestricted" => Egress::Unrestricted,
                _ => Egress::Restricted,
            }),
        },
        hooks: Hooks { init: hook(hooks, "init")?, create: hook(hooks, "create")?, start: hook(hooks, "start")? },
        tasks: named(t, "tasks", &|k| Task {
            run: command(k, "run"),
            environment: text(k, "environment"),
            reuse: text(k, "reuse"),
            policy: text(k, "policy").map(|s| match s.as_str() {
                "reuse" => Policy::Reuse,
                "require" => Policy::Require,
                "ephemeral" => Policy::Ephemeral,
                _ => Policy::ReuseOrEphemeral,
            }),
            checkout: text(k, "checkout").map(|s| match s.as_str() {
                "shared" => CheckoutMode::Shared,
                _ => CheckoutMode::Overlay,
            }),
            env: texts(k, "env"),
            enabled: flag(k, "enabled", true),
        }),
        ..Environment::default()
    })
}

fn schema(t: &Table) -> Result<Schema, Error> {
    let none: Table = vec![];
    let requires = part(t, "requires", &none);
    let mut environments = vec![];
    for (n, e) in part(t, "environments", &none) {
        environments.push((n.clone(), environment(table(e))?));
    }
    Ok(Schema {
        schema: number(t, "schema"),
        remove: list(t, "remove"),
        env_files: list(t, "env-files"),
        requires: Requires { min_version: text(requires, "min-version"), features: list(requires, "features") },
        dev: match at(t, "dev") {
            Some(d) => Some(environment(table(d))?),
            None => None,
        },
        environments,
    })
}

fn layer(path: &HostPath, text: &str) -> Result<LayerRead, Error> {
    let table = parse_layer(path, text)?;
    Ok(LayerRead { schema: schema(&table)?, table })
}

/// The files of a workspace, by their paths under it.
#[derive(Default)]
struct Workspace {
    files: BTreeMap<String, String>,
}

impl Workspace {
    fn write(&mut self, name: &str, text: &str) {
        self.files.insert(name.into(), text.into());
    }

    fn load(&self) -> Result<Loaded, Error> {
        let root = p("/t/repo");
        let found = Found {
            checkouts: vec![p("/t/repo")],
            files: self.files.keys().map(|f| root.join_text(f)).collect(),
        };
        let files = discover(&root, &None, &None, &found)?;
        let project = layer(&files.config, &self.files[CONFIG_FILE])?;
        let local = match &files.local {
            Some(path) => Some(layer(path, &self.files[LOCAL_FILE])?),
            None => None,
        };
        let merged = merge_layers(&files, &project, &local)?;
        let named = local.map(|l| l.schema.env_files).unwrap_or_default();
        let env: Vec<FileRead> = env_file_paths(&files, &named)
            .into_iter()
            .map(|path| {
                let under = path.strip_prefix(&root).unwrap().display();
                let text = self.files.get(&under).cloned().ok_or("No such file".to_string());
                FileRead { path, text }
            })
            .collect();
        let merged_schema = schema(&merged.merged)?;
        let known = Known {
            features: ["compose", "entrypoint", "publish"].iter().map(|f| f.to_string()).collect(),
            addresses: vec!["127.0.0.5".into()],
        };
        load(files, merged, merged_schema, &env, &known)
    }

    fn refused(&self) -> String {
        self.load().unwrap_err().message
    }
}

fn workspace() -> Workspace {
    Workspace::default()
}

const WAB: &str = r#"
schema = 1

[requires]
features = ["entrypoint", "publish"]

[dev]
compose = ".virtkit/compose.yaml"
service = "devcontainer"
workspace = "/workdir"
user = "dev"
freshness = "ask"
profiles = []

[dev.exec-env]
GITLAB_WORKFLOW_INSTANCE_URL = "https://gitlab.corp.wallix.com"

[dev.mounts.gitconfig]
source = "~/.gitconfig"
to = "/home/dev/.gitconfig"
read-only = true
optional = true

[dev.editor.vscode]
state = "persistent"
reconcile = ["/workdir/.devcontainer/install-extensions.sh", "-postcreate"]

[dev.host]
git-gui = true
ssh-agent = false

[dev.cache]
registry = "https://vk-registry.corp:5000"
insecure = false

[dev.endpoints."runner.https"]
service = "runner"
target = 443
host-port = 8443
address = "auto"
scheme = "https"
path = "/ui"
required = true

[dev.endpoints."runner.ssh"]
service = "runner"
target = 22
host-port = 8022
address = "auto"

[dev.network]
egress = "unrestricted"

[dev.hooks]
init = "./scripts/prepare.sh"
create = { run = ["make", "fixtures"], timeout = "10m", required = false }
start = { redis = "redis-cli ping", db = ["mysqladmin", "ping"] }
"#;

fn dev_of(l: &Loaded) -> &Environment {
    l.schema.dev.as_ref().unwrap()
}

fn entry<'a, T>(v: &'a Vec<(String, T)>, k: &str) -> &'a T {
    &v.iter().find(|e| e.0 == k).unwrap().1
}

#[test]
fn the_illustrative_config_reads_as_written() {
    let mut f = workspace();
    f.write(CONFIG_FILE, WAB);
    let l = f.load().unwrap();
    let dev = dev_of(&l);
    assert_eq!(dev.compose.as_deref(), Some(".virtkit/compose.yaml"));
    assert_eq!(dev.service.as_deref(), Some("devcontainer"));
    assert_eq!(dev.freshness, Some(Freshness::Ask));
    assert_eq!(l.schema.requires.features, ["entrypoint", "publish"]);
    let m = entry(&dev.mounts, "gitconfig");
    assert!(m.read_only && m.optional && m.enabled);
    let e = entry(&dev.endpoints, "runner.https");
    assert_eq!((e.target, e.host_port, e.required), (Some(443), Some(8443), true));
    assert!(dev.host.git_gui);
    assert!(matches!(&dev.hooks.init, Some(Hook::Shell(s)) if s == "./scripts/prepare.sh"));
    match &dev.hooks.create {
        Some(Hook::Detailed(spec)) => {
            assert!(matches!(&spec.run, Some(Command::Argv(a)) if *a == ["make", "fixtures"]));
            assert_eq!(spec.timeout.as_deref(), Some("10m"));
            assert!(!spec.required);
        }
        other => panic!("{other:?}"),
    }
    match &dev.hooks.start {
        Some(Hook::Group(group)) => assert_eq!(group.len(), 2),
        other => panic!("{other:?}"),
    }
    match &dev.editor.vscode.as_ref().unwrap().reconcile {
        Some(Hook::Argv(argv)) => assert_eq!(argv[1], "-postcreate"),
        other => panic!("{other:?}"),
    }

    let report = l.describe();
    for expect in [
        "config.toml: ok",
        "requires features entrypoint, publish",
        "[dev]",
        "compose .virtkit/compose.yaml, service devcontainer",
        "gitconfig -> /home/dev/.gitconfig (ro)",
        "runner.https (runner:443, required)",
        "vk-registry.corp",
        "git-gui",
        "init, create, start",
        "persistent state, reconcile hook",
    ] {
        assert!(report.contains(expect), "{expect:?} in:\n{report}");
    }
}

#[test]
fn the_schema_version_and_a_source_are_required() {
    let mut f = workspace();
    for (config, expect) in [
        ("[dev]\nimage = \"x\"\n", "schema = 1"),
        ("schema = 2\n[dev]\nimage = \"x\"\n", "schema 2"),
        ("schema = 1\n", "[dev]"),
        ("schema = 1\n[dev]\nworkspace = \"/w\"\n", "no source"),
        ("schema = 1\n[dev]\ncompose = \"c.yaml\"\n", "service"),
        ("schema = 1\n[dev]\nimage = \"x\"\nservice = \"s\"\n", "compose source"),
    ] {
        f.write(CONFIG_FILE, config);
        let msg = f.refused();
        assert!(msg.contains(expect), "{msg}");
        assert!(msg.starts_with("in /t/repo/.virtkit/config.toml: "), "{msg}");
    }
}

#[test]
fn local_overrides_layer_scalars_tables_and_arrays_as_documented() {
    let mut f = workspace();
    f.write(CONFIG_FILE, WAB);
    f.write(
        LOCAL_FILE,
        r#"
[dev]
mem = "32G"
profiles = ["runner"]

[dev.exec-env]
EXTRA = "1"

[dev.mounts.gitconfig]
enabled = false

[dev.mounts.ssh]
source = "~/.ssh"
to = "/home/dev/.ssh"

[dev.endpoints."runner.https"]
host-port = 9443
"#,
    );
    let l = f.load().unwrap();
    let dev = dev_of(&l);
    // Scalars replace.
    assert_eq!(dev.mem.as_deref(), Some("32G"));
    assert_eq!(dev.freshness, Some(Freshness::Ask), "untouched");
    // Arrays replace.
    assert_eq!(dev.profiles, ["runner"]);
    // Tables merge: the inherited key stays, the new one joins.
    assert_eq!(dev.exec_env.len(), 2);
    assert_eq!(entry(&dev.exec_env, "EXTRA"), "1");
    // A named entry merges field by field, and can be switched off.
    assert!(!entry(&dev.mounts, "gitconfig").enabled);
    assert_eq!(entry(&dev.mounts, "gitconfig").to.as_deref(), Some("/home/dev/.gitconfig"));
    assert_eq!(entry(&dev.mounts, "ssh").to.as_deref(), Some("/home/dev/.ssh"));
    let e = entry(&dev.endpoints, "runner.https");
    assert_eq!(e.host_port, Some(9443));
    assert_eq!(e.target, Some(443), "the rest of the entry is inherited");
    let report = l.describe();
    assert!(report.contains("with ") && report.contains("local.toml"), "{report}");
    assert!(!report.contains("gitconfig ->"), "disabled: {report}");
    assert!(report.contains("ssh -> /home/dev/.ssh"), "{report}");

    // Each value knows its layer, down to one field of a merged entry.
    let origins: BTreeMap<String, Layer> = l.origins().into_iter().map(|o| (o.key, o.layer)).collect();
    assert_eq!(origins["dev.mem"], Layer::Local);
    assert_eq!(origins["dev.service"], Layer::Project);
    assert_eq!(origins["dev.mounts.gitconfig.to"], Layer::Project);
    assert_eq!(origins["dev.mounts.gitconfig.enabled"], Layer::Local);
    assert_eq!(origins["dev.endpoints.\"runner.https\".host-port"], Layer::Local);
    assert_eq!(origins["dev.endpoints.\"runner.https\".target"], Layer::Project);
    assert_eq!(origins["dev.exec-env.EXTRA"], Layer::Local);
    assert!(!origins.contains_key("remove"), "a directive, not a value");

    // What a config hands to a command or an image is marked, so `plan --explain`
    // prints it only when asked.
    let secret: BTreeMap<String, bool> = l.origins().into_iter().map(|o| (o.key, o.secret)).collect();
    assert!(secret["dev.exec-env.EXTRA"]);
    assert!(!secret["dev.mem"] && !secret["dev.service"]);
}

#[test]
fn a_value_whose_type_changes_across_layers_is_replaced_whole() {
    let mut f = workspace();
    let hook = |body: &str| format!("schema = 1\n[dev]\nimage = \"x\"\n[dev.hooks]\n{body}");
    // A shell string under a table of options …
    f.write(CONFIG_FILE, &hook("init = \"project\"\n"));
    f.write(LOCAL_FILE, "[dev.hooks]\ninit = { run = \"local\" }\n");
    match &dev_of(&f.load().unwrap()).hooks.init {
        Some(Hook::Detailed(spec)) => assert!(matches!(&spec.run, Some(Command::Shell(s)) if s == "local")),
        other => panic!("{other:?}"),
    }
    // … and a table of options under a shell string.
    f.write(CONFIG_FILE, &hook("init = { run = \"project\" }\n"));
    f.write(LOCAL_FILE, "[dev.hooks]\ninit = \"local\"\n");
    assert!(matches!(&dev_of(&f.load().unwrap()).hooks.init, Some(Hook::Shell(s)) if s == "local"));
}

#[test]
fn a_disabled_entry_is_not_held_to_the_rules_of_one_that_runs() {
    let mut f = workspace();
    f.write(CONFIG_FILE, WAB);
    // Off is off: an entry this machine does not have needs neither the fields a live
    // one needs nor a project entry to switch off.
    f.write(
        LOCAL_FILE,
        "[dev.mounts.gitconfig]\nenabled = false\nsource = \"\"\n\
         [dev.mounts.nothing]\nenabled = false\n\
         [dev.endpoints.gone]\nenabled = false\n\
         [dev.tasks.gone]\nenabled = false\n",
    );
    let l = f.load().unwrap();
    let dev = dev_of(&l);
    assert!(!entry(&dev.mounts, "nothing").enabled && !entry(&dev.endpoints, "gone").enabled);
    let report = l.describe();
    assert!(!report.contains("nothing") && !report.contains("gone"), "{report}");
}

#[test]
fn an_empty_array_clears_and_remove_drops_before_the_layer_applies() {
    let mut f = workspace();
    f.write(CONFIG_FILE, WAB);
    // Switching source locally: the inherited compose must go, or two sources remain.
    f.write(LOCAL_FILE, "[dev]\nimage = \"debian:13\"\n");
    let msg = f.refused();
    assert!(msg.contains("more than one source"), "{msg}");

    f.write(
        LOCAL_FILE,
        "remove = [\"dev.compose\", \"dev.service\", \"dev.endpoints\"]\n\
         [dev]\nimage = \"debian:13\"\n\n[requires]\nfeatures = []\n",
    );
    let l = f.load().unwrap();
    let dev = dev_of(&l);
    assert_eq!(dev.image.as_deref(), Some("debian:13"));
    assert!(dev.compose.is_none() && dev.service.is_none());
    assert!(dev.endpoints.is_empty(), "a whole table can go");
    assert!(l.schema.requires.features.is_empty(), "an empty array clears");

    // A remove that names nothing is a stale override, and says so.
    f.write(LOCAL_FILE, "remove = [\"dev.nope\"]\n");
    let msg = f.refused();
    assert!(msg.contains("dev.nope") && msg.contains("local.toml"), "{msg}");
    // A quoted key with a dot in it is one key.
    f.write(LOCAL_FILE, "remove = ['dev.endpoints.\"runner.ssh\"']\n");
    let l = f.load().unwrap();
    let dev = dev_of(&l);
    assert_eq!(dev.endpoints.len(), 1);
    assert_eq!(dev.endpoints[0].0, "runner.https");

    // The directives belong to the local layer.
    f.write(CONFIG_FILE, &format!("remove = [\"x\"]\n{WAB}"));
    f.files.remove(LOCAL_FILE);
    let msg = f.refused();
    assert!(msg.contains("remove") && msg.contains("local.toml"), "{msg}");
}

#[test]
fn named_environments_stand_alone_and_are_named_carefully() {
    let mut f = workspace();
    f.write(
        CONFIG_FILE,
        "schema = 1\n[dev]\nimage = \"a\"\nuser = \"dev\"\n\
         [environments.ci]\nimage = \"b\"\n",
    );
    let l = f.load().unwrap();
    let ci = l.environment("ci").unwrap();
    assert_eq!(ci.image.as_deref(), Some("b"));
    assert!(ci.user.is_none(), "nothing is inherited from [dev]");
    assert!(l.describe().contains("[ci]"), "{}", l.describe());
    let msg = l.environment("qa").unwrap_err().message;
    assert!(msg.contains("dev, ci"), "{msg}");

    f.write(CONFIG_FILE, "schema = 1\n[dev]\nimage = \"a\"\n[environments.dev]\nimage = \"b\"\n");
    assert!(f.refused().contains("clashes"));
    f.write(CONFIG_FILE, "schema = 1\n[dev]\nimage = \"a\"\n[environments.\"a b\"]\nimage = \"b\"\n");
    assert!(f.refused().contains("not a name"));
}

#[test]
fn values_are_checked_for_meaning_not_only_for_shape() {
    let mut f = workspace();
    let bad = [
        ("cpus = 0", "at least 1"),
        ("cpus = \"many\"", "\"host\""),
        ("cpus = -1", "\"host\""),
        ("cpus = 1.5", "\"host\""),
        ("mem = \"lots\"", "mem"),
        ("workspace = \"workdir\"", "absolute"),
        ("[dev.mounts.x]\nsource = \"/a\"\nto = \"b\"", "absolute"),
        ("[dev.mounts.x]\nsource = \"/a\"", "needs `to`"),
        ("[dev.mounts.x]\nto = \"/a\"", "needs `source`"),
        ("[dev.endpoints.x]\ntarget = 0", "not a port"),
        ("[dev.endpoints.x]\nhost-port = 80", "needs `target`"),
        ("[dev.hooks]\ninit = { cwd = \"x\" }", "needs `run`"),
        ("[dev.endpoints.x]\ntarget = 80\naddress = \"lo\"", "IP address"),
        ("[dev.network]\negress = \"restricted\"", "not implemented"),
        ("[dev.exec-env]\n\"A=B\" = \"x\"", "not a variable name"),
        ("[dev.container-env]\nA-B = \"x\"", "not a variable name"),
        ("[dev.tasks.t]\nrun = \"true\"\n[dev.tasks.t.env]\n\"1\" = \"x\"", "not a variable name"),
        ("[dev.hooks]\ninit = \"\"", "empty"),
        ("[dev.hooks]\ninit = []", "empty"),
        ("[dev.hooks]\ninit = { run = \"x\", timeout = \"soon\" }", "timeout"),
        ("[dev.hooks]\ninit = 3", "a hook is"),
        ("[dev.hooks]\ninit = { a = { run = \"\" } }", "empty"),
        ("[requires]\nmin-version = \"latest\"", "min-version"),
        ("[requires]\nfeatures = [\"warp\"]", "warp"),
    ];
    for (body, expect) in bad {
        let (top, rest) = match body.starts_with("[requires]") {
            true => (body, ""),
            false => ("", body),
        };
        f.write(CONFIG_FILE, &format!("schema = 1\n{top}\n[dev]\nimage = \"x\"\n{rest}\n"));
        let msg = f.refused();
        assert!(msg.contains(expect), "{body}: {msg}");
    }
    // A build source, whose keys are checked against each other rather than against
    // `image` above.
    for (body, expect) in [
        ("build = { target = \"x\" }", "needs `context`"),
        ("build = { context = \".\", target = \"\" }", "target is empty"),
        ("build = { context = \".\" }\nfallback = { target = \"x\" }", "cached-only"),
        (
            "build = { context = \".\" }\ncached-only = true\nfallback = { target = \"\" }",
            "needs `target`",
        ),
    ] {
        f.write(CONFIG_FILE, &format!("schema = 1\n[dev]\n{body}\n"));
        let msg = f.refused();
        assert!(msg.contains(expect), "{body}: {msg}");
    }
    f.write(
        CONFIG_FILE,
        "schema = 1\n[requires]\nmin-version = \"0.61.0\"\nfeatures = [\"publish\"]\n\
         [dev]\nimage = \"x\"\ncpus = \"host\"\nmem = \"8G\"\n",
    );
    f.load().unwrap();
}

#[test]
fn a_misspelled_option_is_one_of_the_option_form() {
    let form = |s: &str| hook_form(at(&parse_toml(s).unwrap(), "h").unwrap());
    assert_eq!(form("h = { run = \"x\", timout = \"1m\" }").unwrap(), HookForm::Detailed);
    assert_eq!(form("h = { timout = \"1m\" }").unwrap(), HookForm::Group);
    assert_eq!(form("h = {}").unwrap(), HookForm::Group);
    let said = |s: &str| form(s).unwrap_err().message;
    assert!(said("h = 3").ends_with("a table of named hooks, not integer"));
    assert!(said("h = true").ends_with(", not boolean"));
    assert!(said("h = 1.5").ends_with(", not float"));
    assert!(said("h = 2024-01-01").ends_with(", not datetime"));
    assert_eq!(cpus_of_count(4294967295), Some(Cpus::Count(4294967295)));
    assert_eq!(cpus_of_count(4294967296), None);
    assert_eq!(cpus_of_text("Host"), None);
}

#[test]
fn discovery_walks_up_to_the_checkout_root_and_no_further() {
    let config = p("/t/repo/.virtkit/config.toml");
    let host = |more: &[&str]| Found {
        checkouts: vec![p("/t/repo"), p("/t/repo/vendor/other")],
        files: more.iter().map(|m| p(m)).chain([config.copy(), p("/out/.virtkit/config.toml")]).collect(),
    };
    let found = host(&[]);
    let deep = p("/t/repo/src/a/b");
    let files = discover(&deep, &None, &None, &found).unwrap();
    assert_eq!(files.workspace.display(), "/t/repo");
    assert_eq!(files.config.display(), "/t/repo/.virtkit/config.toml");
    assert!(files.local.is_none() && files.local_env.is_none());

    // A nested checkout is its own project: the search stops at its `.git`.
    let sub = p("/t/repo/vendor/other");
    let msg = discover(&sub, &None, &None, &found).unwrap_err().message;
    assert!(msg.contains("vk dev init"), "{msg}");
    assert_eq!(worktree_root(&p("/t/repo/vendor/other/x"), &found.checkouts).unwrap().display(), "/t/repo/vendor/other");

    // Explicit forms.
    let files = discover(&sub, &Some(p("/t/repo")), &None, &found).unwrap();
    assert_eq!(files.workspace.display(), "/t/repo");
    let files = discover(&sub, &None, &Some(config.copy()), &found).unwrap();
    assert_eq!(files.workspace.display(), "/t/repo", "from the file's .virtkit/");
    assert!(discover(&sub, &None, &Some(p("/t/repo/nope.toml")), &found).is_err());

    // Outside any checkout the walk stops where it started: an ancestor's config
    // belongs to that project, not to this directory.
    assert!(discover(&p("/out/a/b"), &None, &None, &found).is_err());
    assert!(discover_here(&p("/out/a/b"), &found).is_none());
    assert!(discover(&p("/out"), &None, &None, &found).is_ok(), "its own directory");

    // The local files are found beside the config.
    let found = host(&["/t/repo/.virtkit/local.toml", "/t/repo/.virtkit/local.env"]);
    let files = discover(&deep, &None, &None, &found).unwrap();
    assert!(files.local.is_some() && files.local_env.is_some());
    let mut f = workspace();
    f.write(CONFIG_FILE, "schema = 1\n[dev]\nimage = \"x\"\n");
    f.write(LOCAL_FILE, "");
    f.write(LOCAL_ENV_FILE, "TOKEN=x\n");
    assert_eq!(entry(&f.load().unwrap().env_file, "TOKEN"), "x");
}

#[test]
fn a_path_is_made_absolute() {
    let cwd = Ok(p("/cwd"));
    let shown = |r: Result<HostPath, Error>| r.map(|x| x.display()).map_err(|e| e.message);
    assert_eq!(shown(absolute(&p("a"), &Some(p("/real/a")), &cwd)), Ok("/real/a".into()));
    assert_eq!(shown(absolute(&p("a"), &None, &cwd)), Ok("/cwd/a".into()));
    assert_eq!(shown(absolute(&p("/a"), &None, &Err("gone".into()))), Ok("/a".into()));
    assert_eq!(
        shown(absolute(&p("a"), &None, &Err("gone".into()))),
        Err("resolving a against the cwd: gone".into())
    );
}

#[test]
fn env_files_are_data_not_shell() {
    let parsed = parse_env_file(
        "# comment\n\
         PLAIN=value with spaces # trailing comment\n\
         export EXPORTED=1\n\
         SINGLE='a \"b\" $(rm -rf /) ${HOME}'\n\
         DOUBLE=\"say \\\"hi\\\" \\\\ $HOME\"\n\
         EMPTY=\n\
         \n\
         URL=https://example.com/#anchor\n",
    )
    .unwrap();
    assert_eq!(entry(&parsed, "PLAIN"), "value with spaces");
    assert_eq!(entry(&parsed, "EXPORTED"), "1");
    assert_eq!(entry(&parsed, "SINGLE"), "a \"b\" $(rm -rf /) ${HOME}");
    assert_eq!(entry(&parsed, "DOUBLE"), "say \"hi\" \\ $HOME", "no expansion");
    assert_eq!(entry(&parsed, "EMPTY"), "");
    assert_eq!(entry(&parsed, "URL"), "https://example.com/#anchor", "`#` needs a space before it");
    for bad in ["novalue\n", "1BAD=x\n", "A='open\n", "B=\"open\n", "C='x' junk\n"] {
        assert!(parse_env_file(bad).is_err(), "{bad:?}");
    }
    // Later files win; the local layer names them.
    let mut f = workspace();
    f.write(CONFIG_FILE, "schema = 1\n[dev]\nimage = \"x\"\n");
    f.write(LOCAL_ENV_FILE, "A=1\nB=1\n");
    f.write("extra.env", "B=2\nC=2\n");
    f.write(LOCAL_FILE, "env-files = [\"extra.env\"]\n");
    let l = f.load().unwrap();
    let set = |k: &str| entry(&l.env_file, k).as_str();
    assert_eq!((set("A"), set("B"), set("C")), ("1", "2", "2"));
    assert_eq!(l.env_file.len(), 3);
    // …and only the local layer.
    f.write(CONFIG_FILE, "schema = 1\nenv-files = [\"extra.env\"]\n[dev]\nimage = \"x\"\n");
    assert!(f.refused().contains("env-files"));
}

#[test]
fn an_env_file_that_cannot_be_read_says_which() {
    let read = |text: Result<&str, &str>| {
        let f = FileRead { path: p("/w/e"), text: text.map(String::from).map_err(String::from) };
        read_env_file(&f).unwrap_err().message
    };
    assert_eq!(read(Err("gone")), "reading /w/e: gone");
    assert!(read(Ok("A=1\nnovalue\n")).starts_with("in /w/e: "));
    // the last line that sets a name is the one that counts
    assert_eq!(parse_env_file("A=1\nA=2\n").unwrap(), vec![("A".to_string(), "2".to_string())]);
    assert!(trailing_ok(" # said", 1).is_ok());
    assert!(trailing_ok(" x", 1).is_err());
    let mut f = workspace();
    f.write(CONFIG_FILE, "schema = 1\n[dev]\nimage = \"x\"\n");
    f.write(LOCAL_FILE, "env-files = [\"extra.env\"]\n");
    assert!(f.refused().contains("extra.env"));
}

#[test]
fn the_template_is_a_valid_config_and_is_not_overwritten_by_accident() {
    let w = write_template(&p("/t/repo"), false);
    assert_eq!(w.path.display(), "/t/repo/.virtkit/config.toml");
    assert_eq!(w.at.display(), "/t/repo/.virtkit/config.toml");
    assert!(w.exists.contains("--force overwrites it"));
    let mut f = workspace();
    f.write(CONFIG_FILE, &w.text);
    let l = f.load().unwrap();
    assert_eq!(dev_of(&l).image.as_deref(), Some("docker.io/library/debian:13"));
    // A replacement is published whole, from a temporary name beside it.
    let forced = write_template(&p("/t/repo"), true);
    assert_eq!(forced.at.display(), "/t/repo/.virtkit/config.toml.tmp");
    assert_eq!(forced.path.display(), "/t/repo/.virtkit/config.toml");
    assert_eq!(forced.text, w.text);
}

#[test]
fn durations_and_paths_parse_as_expected() {
    assert_eq!(parse_duration("90s").unwrap(), 90);
    assert_eq!(parse_duration("10m").unwrap(), 600);
    assert_eq!(parse_duration("1h").unwrap(), 3600);
    assert_eq!(parse_duration("5").unwrap(), 5);
    assert!(parse_duration("5d").is_err() && parse_duration("").is_err());
    assert_eq!(split_path("a.b.c").unwrap(), ["a", "b", "c"]);
    assert_eq!(
        split_path("dev.endpoints.\"runner.https\".target").unwrap(),
        ["dev", "endpoints", "runner.https", "target"]
    );
    assert!(split_path("a..b").is_err() && split_path("").is_err());
    // A quoted key is the whole segment or a typo.
    for bad in [r#"a"b"c"#, r#""""#, r#""a"#, r#"a."b"c"#] {
        assert!(split_path(bad).is_err(), "{bad}");
    }
}

fn tree(s: &str) -> Table {
    parse_toml(s).unwrap()
}

fn shown(t: &Table) -> String {
    toml_text(&Toml::Table(copy_table(t))).unwrap()
}

#[test]
fn a_layer_over_another_replaces_what_is_no_table() {
    let mut base = tree("a = 1\nb = [1, 2]\n[t]\nx = 1\ny = 2\n");
    merge_tables(&mut base, &tree("b = []\nc = \"new\"\n[t]\ny = 3\nz = 4\n"));
    assert_eq!(shown(&base), shown(&tree("a = 1\nb = []\nc = \"new\"\n[t]\nx = 1\ny = 3\nz = 4\n")));
    // an empty layer changes nothing
    let before = shown(&base);
    merge_tables(&mut base, &vec![]);
    assert_eq!(shown(&base), before);
    // what is removed is gone, and cannot be removed twice
    let keys = vec!["t".to_string(), "y".to_string()];
    assert!(lookup(&base, &keys));
    remove_path(&mut base, "t.y").unwrap();
    assert!(!lookup(&base, &keys));
    assert!(remove_path(&mut base, "t.y").is_err());
    assert!(remove_path(&mut base, "a.b").is_err(), "a is no table");
    assert!(matches!(copy_toml(&base[0].1), Toml::Integer(1)));
}

#[test]
fn a_path_reads_back_as_its_keys() {
    let keys: Vec<String> = ["dev", "a b", "x.y", "z-1_2"].iter().map(|s| s.to_string()).collect();
    let path = join_path(&keys);
    assert_eq!(path, "dev.\"a b\".\"x.y\".z-1_2");
    assert_eq!(split_path(&path).unwrap(), keys);
    assert_eq!(quote_key("plain"), "plain");
    assert_eq!(quote_key("a.b"), "\"a.b\"");
    let secret = |s: &str| secret_key(&split_path(s).unwrap());
    assert!(secret("dev.exec-env.A") && secret("environments.ci.container-env.A"));
    assert!(secret("dev.build.args.A"));
    assert!(!secret("dev.user"));
}

#[test]
fn a_layer_that_does_not_parse_names_its_file() {
    let e = parse_layer(&p("/t/c.toml"), "a = \n").unwrap_err();
    assert!(e.message.starts_with("/t/c.toml:\n"), "{}", e.message);
    assert!(e.message.contains("line 1"), "{}", e.message);
}

#[test]
fn memory_and_versions_are_read() {
    assert_eq!(parse_mem_mib("8G"), Some(8192));
    assert_eq!(parse_mem_mib("512M"), Some(512));
    assert_eq!(parse_mem_mib("lots"), None);
    let v = parse_version("0.61.0").unwrap();
    assert_eq!(v.to_text(), "0.61.0");
    let later = Version { major: 0, minor: 61, patch: 1 };
    assert!(v.is_older_than(later) && !later.is_older_than(v) && !v.is_older_than(v));
    assert!(parse_version("latest").is_none());
}

#[test]
fn names_are_plain() {
    assert!(env_name("_A1") && !env_name("1A") && !env_name("A-B") && !env_name(""));
    assert!(plain_name("a.b_c-1") && !plain_name("a b") && !plain_name(""));
    assert!(is_guest_absolute("/a") && !is_guest_absolute("a"));
    let files = Files { workspace: p("/w"), config: p("/w/c"), local: None, local_env: Some(p("/w/e")) };
    let env: Vec<String> =
        env_file_paths(&files, &vec!["x.env".into(), "/abs".into()]).iter().map(|x| x.display()).collect();
    assert_eq!(env, ["/w/e", "/w/x.env", "/abs"]);
}

#[test]
fn an_explicit_config_names_the_project_over_its_directory() {
    let found = Found { checkouts: vec![], files: vec![p("/p/cfg/dev.toml"), p("/dev.toml")] };
    let files = discover(&p("/elsewhere"), &None, &Some(p("/p/cfg/dev.toml")), &found).unwrap();
    assert_eq!((files.workspace.display().as_str(), files.config.display().as_str()), ("/p", "/p/cfg/dev.toml"));
    let files = discover(&p("/elsewhere"), &None, &Some(p("/dev.toml")), &found).unwrap();
    assert_eq!(files.workspace.display(), "/");
}

#[test]
fn what_is_switched_off_is_not_described() {
    let mut f = workspace();
    f.write(CONFIG_FILE, "schema = 1\n[dev]\nimage = \"x\"\nworkspace = \"/src\"\n");
    let without = f.load().unwrap().describe();
    f.write(
        CONFIG_FILE,
        "schema = 1\n[dev]\nimage = \"x\"\nworkspace = \"/src\"\n\
         [dev.mounts.m]\nenabled = false\n[dev.endpoints.e]\nenabled = false\n[dev.tasks.t]\nenabled = false\n",
    );
    assert_eq!(f.load().unwrap().describe(), without);
}
