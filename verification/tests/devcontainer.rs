use vk_dev::devcontainer::{
    discover, json_to_toml, lifecycle_value, mount_fields, parse_for_import, rewrite_vars, Cache as DcCache, Config,
    Customizations, HostExec, Lifecycle, LocalUserBuildArgs, Mount as DcMount, MountObj, OneOrMany, Port, Virtkit,
};
use vk_dev::draft::{Draft, Fate};
use vk_dev::jsonc::{explain, strip_comments, strip_trailing_commas};
use vk_dev::path::{lexical_normalize, HostPath};
use vk_dev::shape::{mount_form, MountForm};
use vk_dev::text::Error;
use vk_dev::translate::{dockerfile_wanted, translate};
use vk_dev::value::{copy_json, parse_json, toml_text, Json, Toml};

fn p(s: &str) -> HostPath {
    HostPath::from_text(s)
}

// The values of an object, read by their keys.

type Object = Vec<(String, Json)>;

fn field<'a>(o: &'a Object, k: &str) -> Option<&'a Json> {
    o.iter().find(|e| e.0 == k).map(|e| &e.1).filter(|v| !matches!(v, Json::Null))
}

fn object(v: &Json) -> &Object {
    match v {
        Json::Object(o) => o,
        other => panic!("{other:?}"),
    }
}

fn string(v: &Json) -> String {
    match v {
        Json::Text(s) => s.clone(),
        other => panic!("{other:?}"),
    }
}

fn opt_string(o: &Object, k: &str) -> Option<String> {
    field(o, k).map(string)
}

fn array(v: &Json) -> &Vec<Json> {
    match v {
        Json::Array(a) => a,
        other => panic!("{other:?}"),
    }
}

fn strings(v: &Json) -> Vec<String> {
    array(v).iter().map(string).collect()
}

fn pairs(o: &Object, k: &str) -> Option<Vec<(String, String)>> {
    field(o, k).map(|v| object(v).iter().map(|(n, x)| (n.clone(), string(x))).collect())
}

fn on(o: &Object, k: &str) -> bool {
    matches!(field(o, k), Some(Json::Bool(true)))
}

fn lifecycle_of(v: &Json) -> Lifecycle {
    match v {
        Json::Text(s) => Lifecycle::Shell(s.clone()),
        Json::Array(_) => Lifecycle::Argv(strings(v)),
        other => Lifecycle::Parallel(object(other).iter().map(|(n, x)| (n.clone(), lifecycle_of(x))).collect()),
    }
}

fn mount_of(v: &Json) -> Result<DcMount, Error> {
    Ok(match mount_form(v)? {
        MountForm::Str => DcMount::Str(string(v)),
        MountForm::Obj => {
            let o = object(v);
            DcMount::Obj(MountObj {
                kind: opt_string(o, "type"),
                source: opt_string(o, "source").unwrap(),
                target: opt_string(o, "target").unwrap(),
                readonly: on(o, "readonly"),
            })
        }
    })
}

fn port_of(v: &Json) -> Port {
    match v {
        Json::Number(n) => Port::Number(n.as_i64().unwrap()),
        other => Port::Named(string(other)),
    }
}

fn virtkit_of(o: &Object) -> Virtkit {
    Virtkit {
        docker_compose_file: opt_string(o, "dockerComposeFile"),
        service: opt_string(o, "service"),
        cpus: opt_string(o, "cpus"),
        mem: opt_string(o, "mem"),
        profiles: field(o, "profiles").map(strings).unwrap_or_default(),
        host_exec: field(o, "hostExec").map(object).map(|h| HostExec {
            wrapper: opt_string(h, "wrapper").unwrap(),
            env: field(h, "env").map(strings).unwrap_or_default(),
        }),
        cache: field(o, "cache").map(object).map(|c| DcCache {
            registry: opt_string(c, "registry"),
            insecure: on(c, "insecure"),
        }),
        state_dir: opt_string(o, "stateDir"),
        git_worktree_mount: on(o, "gitWorktreeMount"),
        local_user_build_args: field(o, "localUserBuildArgs").map(object).map(|a| LocalUserBuildArgs {
            uid: field(a, "uid").map(strings).unwrap_or_default(),
            gid: field(a, "gid").map(strings).unwrap_or_default(),
        }),
    }
}

/// The devcontainer file, read from its text.
fn devcontainer(text: &str) -> Result<Config, Error> {
    let v = parse_for_import(text)?;
    let o = object(&v);
    let mut mounts = None;
    if let Some(m) = field(o, "mounts") {
        let mut all = vec![];
        for x in array(m) {
            all.push(mount_of(x)?);
        }
        mounts = Some(all);
    }
    Ok(Config {
        name: opt_string(o, "name"),
        schema: opt_string(o, "$schema"),
        docker_compose_file: field(o, "dockerComposeFile").map(|v| match v {
            Json::Text(s) => OneOrMany::One(s.clone()),
            other => OneOrMany::Many(strings(other)),
        }),
        service: opt_string(o, "service"),
        run_services: field(o, "runServices").map(strings),
        workspace_folder: opt_string(o, "workspaceFolder"),
        mounts,
        container_env: pairs(o, "containerEnv"),
        remote_env: pairs(o, "remoteEnv"),
        remote_user: opt_string(o, "remoteUser"),
        forward_ports: field(o, "forwardPorts").map(|v| array(v).iter().map(port_of).collect()),
        initialize_command: field(o, "initializeCommand").map(lifecycle_of),
        post_create_command: field(o, "postCreateCommand").map(lifecycle_of),
        post_start_command: field(o, "postStartCommand").map(lifecycle_of),
        customizations: field(o, "customizations").map(object).map(|c| Customizations {
            virtkit: field(c, "virtkit").map(object).map(virtkit_of),
            others: c.iter().filter(|e| e.0 != "virtkit").map(|(n, x)| (n.clone(), copy_json(x))).collect(),
        }),
        image: field(o, "image").map(copy_json),
        build: field(o, "build").map(copy_json),
        docker_file: field(o, "dockerFile").map(copy_json),
        features: field(o, "features").is_some(),
        shutdown_action: field(o, "shutdownAction").is_some(),
        ..Config::default()
    })
}

fn said(text: &str, k: &str) -> String {
    string(field(object(&parse_json(text).unwrap()), k).unwrap())
}

#[test]
fn comments_are_stripped_without_moving_anything_else() {
    let text = r#"{
  // a line comment
  "name": "x", /* and a block one */
  "service": "dev", // trailing
  /* multi
     line */
  "workspaceFolder": "/a//b"   // not a comment inside the string
}"#;
    let stripped = strip_comments(text);
    assert_eq!(stripped.len(), text.len(), "byte offsets must not move");
    assert_eq!(said(&stripped, "name"), "x");
    assert_eq!(said(&stripped, "workspaceFolder"), "/a//b");
    // A `//` inside a string is content, not a comment.
    assert!(stripped.contains("/a//b"));
}

#[test]
fn a_comment_in_any_alphabet_leaves_every_offset_where_it_was() {
    let text = "{\n  // caf\u{e9} \u{2014} \u{4e2d}\u{6587}\n  \"service\": \"dev\", /* \u{e9}\u{e9} */\n  \"name\": \"x\"\n}";
    let stripped = strip_comments(text);
    assert_eq!(stripped.len(), text.len(), "byte offsets must not move");
    assert_eq!(stripped.lines().count(), text.lines().count(), "and neither may the lines");
    assert_eq!(said(&stripped, "service"), "dev");
}

#[test]
fn the_object_mount_form_is_read_whole() {
    let ok = devcontainer(
        r#"{"image": "x", "mounts": [
            {"type": "bind", "source": "/a", "target": "/b", "readonly": true}]}"#,
    )
    .unwrap();
    let f = mount_fields(&ok.mounts.as_ref().unwrap()[0]).unwrap();
    assert_eq!((f.kind.as_str(), f.source.as_str(), f.target.as_str(), f.read_only), ("bind", "/a", "/b", true));
    // The text form.
    let f = mount_fields(&DcMount::Str("src=/a,dst=/b,ro".into())).unwrap();
    assert_eq!((f.kind.as_str(), f.source.as_str(), f.target.as_str(), f.read_only), ("bind", "/a", "/b", true));
    assert!(mount_fields(&DcMount::Str("target=/b".into())).is_err());
    assert!(mount_fields(&DcMount::Str("source=/a".into())).is_err());
    // Neither form.
    let e = devcontainer(r#"{"mounts": [[1,"x"]]}"#).unwrap_err();
    assert_eq!(e.message, "a mount is a string or an object, not [1,\"x\"]");
}

#[test]
fn a_trailing_comma_is_accepted_as_jsonc_allows() {
    // VS Code writes trailing commas; a devcontainer file with one must still import.
    let c = devcontainer("{\n  \"dockerComposeFile\": \"c.yaml\",\n  \"service\": \"dev\",\n}").unwrap();
    assert_eq!(c.service.as_deref(), Some("dev"));
    // Also before `]`, and after a comment the stripper already blanked.
    parse_for_import("{\"forwardPorts\": [1, 2, /* last */ ]}").unwrap();
    // A comma in a string stays, and so does every offset.
    assert_eq!(strip_trailing_commas("[\",]\", 1 ,\n]"), "[\",]\", 1  \n]");
}

#[test]
fn a_parse_error_comes_without_a_wall_of_alternatives() {
    assert_eq!(
        explain("unknown field `nonsense`, expected one of `a`, `b` at line 3 column 4"),
        "unknown field `nonsense` is not a supported devcontainer key at line 3 column 4"
    );
    let e = parse_for_import("{\n  \"a\": 1,\n  nonsense\n}").unwrap_err();
    assert!(e.message.contains("line 3"), "{}", e.message);
}

#[test]
fn another_tools_customizations_are_kept() {
    let ok = devcontainer(
        r#"{"dockerComposeFile": "c.yaml", "service": "dev",
            "customizations": {"vscode": {"settings": {"a": 1}, "extensions": ["x"]}}}"#,
    )
    .unwrap();
    let c = ok.customizations.unwrap();
    assert!(c.virtkit.is_none());
    assert!(field(&c.others, "vscode").is_some(), "carried for the draft");
}

#[test]
fn discovery_prefers_the_directory_form_then_the_dotfile() {
    let dir = p("/w");
    assert!(discover(&dir, &None, &vec![]).is_err(), "nothing to find yet");

    let dot = p("/w/.devcontainer.json");
    assert_eq!(discover(&dir, &None, &vec![dot.copy()]).unwrap().display(), "/w/.devcontainer.json");

    let nested = p("/w/.devcontainer/devcontainer.json");
    let files = vec![dot, nested.copy()];
    let found = discover(&dir, &None, &files).unwrap();
    assert_eq!(found.display(), "/w/.devcontainer/devcontainer.json", "the directory form wins");

    // An explicit path is used as given, and a missing one is an error rather than a
    // silent fall back to discovery.
    let found = discover(&dir, &Some(nested), &files).unwrap();
    assert_eq!(found.display(), "/w/.devcontainer/devcontainer.json");
    assert!(discover(&dir, &Some(p("/w/nope.json")), &files).is_err());
}

#[test]
fn paths_normalize_lexically_and_json_becomes_toml() {
    assert_eq!(
        lexical_normalize(&p("/w/.devcontainer/../virtkit/./compose.yaml")).display(),
        "/w/virtkit/compose.yaml"
    );
    assert_eq!(
        lexical_normalize(&p("a/../../b")).display(),
        "../b",
        "cannot climb above a relative root, so the climb is kept"
    );
    let v = parse_json(r#"{"a": 1, "b": [true, null, "s"], "c": null, "d": 1.5}"#).unwrap();
    let t = match json_to_toml(&v).unwrap() {
        Toml::Table(t) => t,
        other => panic!("{other:?}"),
    };
    assert_eq!(t.len(), 3, "null has no TOML spelling");
    assert!(matches!((&t[0].0[..], &t[0].1), ("a", Toml::Integer(1))));
    assert!(matches!((&t[1].0[..], &t[1].1), ("b", Toml::Array(a)) if a.len() == 2));
    assert_eq!(t[2].0, "d");
    assert!(matches!(&t[2].1, Toml::Float(toml::Value::Float(f)) if *f == 1.5));
    assert_eq!(toml_text(&t[2].1).unwrap(), "1.5");
    assert!(json_to_toml(&Json::Null).is_none());
}

/// Translate `json` as a `.devcontainer.json` at the root of `/w`.
fn translate_json(json: &str) -> Draft {
    let config = devcontainer(json).unwrap();
    translate(&config, &p("/w/.devcontainer.json"), &p("/w"), &None)
}

fn rendered(d: &Draft) -> toml::Value {
    let text = d.render();
    toml::from_str(&text).unwrap_or_else(|e| panic!("{e}\n{text}"))
}

fn translated(d: &Draft, key: &str) -> bool {
    d.items.iter().any(|i| i.key == key && i.fate == Fate::Translated)
}

fn actioned(d: &Draft, key: &str) -> bool {
    d.items.iter().any(|i| i.key == key && matches!(i.fate, Fate::Action { .. }))
}

#[test]
fn colliding_forward_ports_get_distinct_endpoint_names() {
    // `3000` and `"3000"` both name `port-3000`; without de-duping they render two
    // `target` keys in one section, which is not valid TOML.
    let d = translate_json(r#"{"image": "x", "forwardPorts": [3000, "3000"]}"#);
    let cfg = rendered(&d);
    let endpoints = cfg["dev"]["endpoints"].as_table().unwrap();
    assert_eq!(endpoints.len(), 2, "{}", d.render());
    assert_eq!(endpoints["port-3000"]["target"].as_integer(), Some(3000));
    assert_eq!(endpoints["port-3000-1"]["target"].as_integer(), Some(3000));
}

#[test]
fn block_comments_close_on_the_real_terminator() {
    let number = |text: &str| match field(object(&parse_json(text).unwrap()), "a").unwrap() {
        Json::Number(n) => n.as_i64().unwrap(),
        other => panic!("{other:?}"),
    };
    // `/*/` is not a whole comment: the opener's own `*` must not pair with the next `/`.
    // The whole `/*/ "b":2 */` is one comment, so `b` is inside it and drops out.
    let stripped = strip_comments(r#"{"a":1 /*/ "b":2 */ }"#);
    assert_eq!(number(&stripped), 1);
    assert!(field(object(&parse_json(&stripped).unwrap()), "b").is_none(), "b was inside the comment");

    // `/**/` still closes on its own trailing `*/`.
    assert_eq!(number(&strip_comments(r#"{"a": 1 /**/ }"#)), 1);

    // A `/* … */` and a bare `*/` inside a string are content, not comments.
    assert_eq!(said(&strip_comments(r#"{"a": "/* x */ y */ z"}"#), "a"), "/* x */ y */ z");

    // An escaped quote does not end the string, so the `*/` after it stays content.
    assert_eq!(said(&strip_comments(r#"{"a": "q \" */ r"}"#), "a"), "q \" */ r");

    // An unterminated block comment blanks to EOF, so the value never closes.
    assert!(parse_json(&strip_comments(r#"{"a": /*/ 1 }"#)).is_err());
}

#[test]
fn a_leading_bom_is_stripped_before_parsing() {
    let ok = devcontainer("\u{feff}{\"service\": \"dev\"}").unwrap();
    assert_eq!(ok.service.as_deref(), Some("dev"));
}

#[test]
fn translate_round_trips_a_representative_devcontainer() {
    let json = r#"{
        "image": "docker.io/library/debian:13",
        "workspaceFolder": "/work",
        "remoteUser": "dev",
        "forwardPorts": [3000, "db:5432"],
        "mounts": [
            "source=/host/cache,target=/cache,type=bind,readonly",
            {"type": "bind", "source": "/host/data", "target": "/data"}
        ],
        "remoteEnv": {"FOO": "bar"},
        "containerEnv": {"TZ": "UTC"},
        "postCreateCommand": "echo hi",
        "customizations": {
            "vscode": {"extensions": ["ms-python.python"], "settings": {"editor.tabSize": 4}},
            "virtkit": {"cpus": "4", "mem": "8G"}
        }
    }"#;
    let d = translate_json(json);
    let cfg = rendered(&d);
    let dev = &cfg["dev"];

    assert_eq!(dev["image"].as_str(), Some("docker.io/library/debian:13"));
    assert_eq!(dev["workspace"].as_str(), Some("/work"));
    assert_eq!(dev["user"].as_str(), Some("dev"));
    assert_eq!(dev["cpus"].as_integer(), Some(4));
    assert_eq!(dev["mem"].as_str(), Some("8G"));
    assert_eq!(dev["endpoints"]["port-3000"]["target"].as_integer(), Some(3000));
    assert_eq!(dev["endpoints"]["db-5432"]["target"].as_integer(), Some(5432));
    assert_eq!(dev["endpoints"]["db-5432"]["service"].as_str(), Some("db"));
    assert_eq!(dev["mounts"]["cache"]["source"].as_str(), Some("/host/cache"));
    assert_eq!(dev["mounts"]["cache"]["to"].as_str(), Some("/cache"));
    assert_eq!(dev["mounts"]["cache"]["read-only"].as_bool(), Some(true));
    assert_eq!(dev["mounts"]["data"]["source"].as_str(), Some("/host/data"));
    assert_eq!(dev["mounts"]["data"]["to"].as_str(), Some("/data"));
    assert_eq!(dev["exec-env"]["FOO"].as_str(), Some("bar"));
    assert_eq!(dev["container-env"]["TZ"].as_str(), Some("UTC"));
    assert_eq!(dev["hooks"]["create"].as_str(), Some("echo hi"));
    let vscode = &dev["editor"]["vscode"];
    assert_eq!(vscode["state"].as_str(), Some("persistent"));
    assert_eq!(vscode["extensions"][0].as_str(), Some("ms-python.python"));
    assert_eq!(vscode["settings"]["editor.tabSize"].as_integer(), Some(4));

    for key in [
        "image",
        "workspaceFolder",
        "remoteUser",
        "mounts[0]",
        "mounts[1]",
        "remoteEnv",
        "containerEnv",
        "postCreateCommand",
        "customizations.vscode.extensions",
        "customizations.vscode.settings",
        "customizations.virtkit.cpus",
        "customizations.virtkit.mem",
    ] {
        assert!(translated(&d, key), "expected {key} translated");
    }
    // A service-qualified port has no compose source to attach to here.
    assert!(actioned(&d, "forwardPorts"), "db:5432 needs a compose source");
}

#[test]
fn an_escaping_dockerfile_is_reported_and_never_read() {
    // A Dockerfile outside the workspace: reading it would set `target`.
    let json = r#"{"build": {"dockerfile": "/outside/Dockerfile"}}"#;
    let d = translate_json(json);
    assert!(
        dockerfile_wanted(&devcontainer(json).unwrap(), &p("/w/.devcontainer.json"), &p("/w")).is_none(),
        "the escaping Dockerfile must not be read to count its stages"
    );
    assert!(rendered(&d)["dev"]["build"].get("target").is_none());
    assert!(actioned(&d, "build.dockerfile"), "the escape must be reported");
    assert!(!d.items.iter().any(|i| i.key == "build.target"), "no stage count, so no build.target item");

    // What an editor's own settings call by that name is no stage.
    let d = translate_json(
        r#"{"build": {"dockerfile": "/outside/Dockerfile"},
            "customizations": {"vscode": {"settings": {"build": {"target": "x"}}}}}"#,
    );
    let cfg = rendered(&d);
    assert!(cfg["dev"]["build"].get("target").is_none());
    assert_eq!(cfg["dev"]["editor"]["vscode"]["settings"]["build"]["target"].as_str(), Some("x"));

    // A workspace-relative path that climbs out is reported the same way.
    let d = translate_json(r#"{"build": {"dockerfile": "../outside/Dockerfile"}}"#);
    assert!(actioned(&d, "build.dockerfile"), "a `..` escape must be reported");

    // One inside is read, and its stages counted.
    let c = devcontainer(r#"{"build": {"dockerfile": "docker/Dockerfile"}}"#).unwrap();
    let wanted = dockerfile_wanted(&c, &p("/w/.devcontainer.json"), &p("/w")).unwrap();
    assert_eq!(wanted.display(), "/w/docker/Dockerfile");
    let stages = Some(vec!["a".to_string(), "b".to_string()]);
    let d = translate(&c, &p("/w/.devcontainer.json"), &p("/w"), &stages);
    assert!(d.items.iter().any(|i| i.key == "build.target"));
}

#[test]
fn literal_build_args_carry_and_variable_ones_are_deferred() {
    let d = translate_json(
        r#"{"build": {"dockerfile": "Dockerfile", "target": "dev",
            "args": {"A": "1", "B": "${localWorkspaceFolderBasename}"}}}"#,
    );
    let cfg = rendered(&d);
    let args = &cfg["dev"]["build"]["args"];
    assert_eq!(args["A"].as_str(), Some("1"));
    assert!(args.get("B").is_none(), "a variable arg is not carried");
    let note = d.items.iter().find(|i| i.key == "build.args").map(|i| i.note.as_str()).unwrap_or_default();
    assert!(note.contains('B'), "the deferred arg is named: {note}");
    assert!(!note.contains("compose"), "no compose reference here: {note}");
}

#[test]
fn a_bare_string_port_is_forwarded() {
    let d = translate_json(r#"{"image": "x", "forwardPorts": ["3000"]}"#);
    assert_eq!(rendered(&d)["dev"]["endpoints"]["port-3000"]["target"].as_integer(), Some(3000));
    assert!(translated(&d, "forwardPorts"));
    assert!(!actioned(&d, "forwardPorts"));
}

#[test]
fn an_out_of_range_port_parses_then_is_reported() {
    // The whole-file parse must survive an out-of-range integer.
    let d = translate_json(r#"{"image": "x", "forwardPorts": [70000, -1]}"#);
    assert!(actioned(&d, "forwardPorts"), "70000 and -1 are out of range");
    assert!(rendered(&d)["dev"].get("endpoints").is_none(), "neither out-of-range port becomes an endpoint");
}

#[test]
fn a_non_object_vscode_is_reported() {
    let d = translate_json(r#"{"image": "x", "customizations": {"vscode": "oops"}}"#);
    assert!(actioned(&d, "customizations.vscode"), "a string vscode is not an object");
}

#[test]
fn a_containerenv_variable_is_reported() {
    let d = translate_json(r#"{"image": "x", "remoteEnv": {"P": "${containerEnv:PATH}"}}"#);
    assert!(actioned(&d, "remoteEnv"), "containerEnv var has no equivalent");
}

#[test]
fn variables_are_spelled_as_the_draft_spells_them() {
    let mut d = Draft::new();
    let out = rewrite_vars(&mut d, "k", "${localWorkspaceFolder}/${containerWorkspaceFolder}", &Some("/work".into()));
    assert_eq!(out, "${workspace}//work");
    assert!(d.items.is_empty());
    rewrite_vars(&mut d, "k", "${localWorkspaceFolderBasename}", &None);
    assert!(actioned(&d, "k"));
}

#[test]
fn a_lifecycle_command_keeps_its_form() {
    let group = Lifecycle::Parallel(vec![
        ("a".into(), Lifecycle::Shell("x y".into())),
        ("b".into(), Lifecycle::Argv(vec!["z".into()])),
    ]);
    assert_eq!(toml_text(&lifecycle_value(&group)).unwrap(), "{ a = \"x y\", b = [\"z\"] }");
}

#[test]
fn mounts_of_one_name_are_told_apart() {
    let d = translate_json(
        r#"{"image": "x", "mounts": ["source=/a,target=/x/cache", "source=/b,target=/y/cache", "source=/c,target=/"]}"#,
    );
    let cfg = rendered(&d);
    let mounts = cfg["dev"]["mounts"].as_table().unwrap();
    let names: Vec<&str> = mounts.keys().map(|k| k.as_str()).collect();
    assert_eq!(names, ["cache", "cache-1", "mount2"]);
    assert_eq!(mounts["cache-1"]["source"].as_str(), Some("/b"));
}

fn omitted(d: &Draft, key: &str) -> Option<String> {
    d.items.iter().find(|i| i.key == key && i.fate == Fate::Omitted).map(|i| i.note.clone())
}

#[test]
fn a_service_without_a_compose_file_is_reported() {
    let d = translate_json(r#"{"image": "x", "service": "app", "runServices": ["db"]}"#);
    assert!(actioned(&d, "service") && actioned(&d, "runServices"), "{}", d.report());
    assert!(rendered(&d)["dev"].get("service").is_none());
    let d = translate_json(r#"{"dockerComposeFile": "c.yaml", "service": "app"}"#);
    assert!(translated(&d, "service") && !actioned(&d, "service"), "{}", d.report());
}

#[test]
fn what_is_there_and_empty_is_reported() {
    let d = translate_json(
        r#"{"$schema": "s", "image": "x", "mounts": [], "forwardPorts": [], "remoteEnv": {}, "containerEnv": {}}"#,
    );
    for key in ["mounts", "forwardPorts", "remoteEnv", "containerEnv"] {
        assert_eq!(omitted(&d, key).as_deref(), Some("empty"), "{key} in:\n{}", d.report());
    }
    assert!(omitted(&d, "$schema").is_some(), "{}", d.report());
}

#[test]
fn editor_settings_in_another_form_are_reported() {
    let d = translate_json(
        r#"{"image": "x", "customizations": {"vscode": {"extensions": "one", "settings": [1]}}}"#,
    );
    let note = |key: &str| d.items.iter().find(|i| i.key == key).map(|i| i.note.clone()).unwrap();
    assert_eq!(note("customizations.vscode.extensions"), "\"one\": expected a list");
    assert_eq!(note("customizations.vscode.settings"), "[1]: expected an object");
    assert!(actioned(&d, "customizations.vscode.extensions") && actioned(&d, "customizations.vscode.settings"));
}

#[test]
fn a_dockerfile_that_is_not_built_from_is_reported() {
    let d = translate_json(r#"{"image": "x", "dockerFile": "Dockerfile"}"#);
    assert!(actioned(&d, "build"), "{}", d.report());
    assert_eq!(rendered(&d)["dev"]["image"].as_str(), Some("x"));
    let d = translate_json(r#"{"build": {"dockerfile": "a/Dockerfile"}, "dockerFile": "b/Dockerfile"}"#);
    assert!(actioned(&d, "dockerFile"), "{}", d.report());
    let d = translate_json(r#"{"dockerFile": "b/Dockerfile"}"#);
    assert!(!actioned(&d, "dockerFile"), "{}", d.report());
}
