use vk_dev::config::{Cache, CheckoutMode, Command, Freshness, Nested, Policy, Requires};
use vk_dev::identity::{
    applied_on_attach, drift, effect_of, flatten, generation_of, hook_argv, identity_of, identity_path, marker_of,
    note_older_creator, older_creator, own_version, plan_diff, root_identity, show_diff, wrapper_digest, Drift, Effect,
};
use vk_dev::path::HostPath;
use vk_dev::plan::{EnvVar, HookCommand, HookPlan, HooksPlan, HostExecPlan, MountPlan, Plan, Source, TaskPlan};
use vk_dev::value::{json_text, Json};

fn p(s: &str) -> HostPath {
    HostPath::from_text(s)
}

fn plan_in(dir: &str) -> Plan {
    Plan {
        workspace: p(&format!("{dir}/repo")),
        config: p(&format!("{dir}/repo/.virtkit/config.toml")),
        environment: "dev".into(),
        state_dir: p(&format!("{dir}/state")),
        source: Source::Compose {
            file: p(&format!("{dir}/repo/compose.yaml")),
            service: "devcontainer".into(),
            profiles: vec![],
        },
        workspace_folder: Some("/workdir".into()),
        user: Some("dev".into()),
        freshness: Freshness::Ask,
        cpus: None,
        mem: None,
        nested: Nested::Off,
        mounts: vec![],
        container_env: vec![],
        exec_env: vec![],
        endpoints: vec![],
        host_exec: None,
        ssh_agent: false,
        cache: Cache::default(),
        requires: Requires::default(),
        cached_only: false,
        fallback_target: None,
        tasks: vec![],
        hooks: HooksPlan { init: None, create: None, start: None },
        vscode: None,
        managed_dirs: vec![],
        unresolved: vec![],
        secrets: vec![],
    }
}

fn mount(name: &str, source: &str, to: &str) -> MountPlan {
    MountPlan { name: name.into(), source: p(source), to: to.into(), read_only: false, optional: false }
}

fn shell(line: &str) -> HookPlan {
    HookPlan::Command(HookCommand {
        run: Command::Shell(line.into()),
        cwd: None,
        timeout_secs: None,
        required: true,
    })
}

fn token(value: &str) -> EnvVar {
    EnvVar { name: "TOKEN".into(), value: value.into(), sensitive: true }
}

fn lines(d: &Drift) -> Vec<(Effect, String)> {
    let mut out = vec![];
    for (e, v) in [
        (Effect::Session, &d.session),
        (Effect::Host, &d.host),
        (Effect::Restart, &d.restart),
        (Effect::Rebuild, &d.rebuild),
    ] {
        for l in v {
            out.push((e, l.clone()));
        }
    }
    out
}

#[test]
fn the_identity_fingerprints_secrets_instead_of_recording_them() {
    let mut plan = plan_in("/t");
    plan.exec_env = vec![token("s3cret")];
    let (digest, manifest) = identity_of(&plan, &None).unwrap();
    let text = json_text(&manifest);
    assert!(!text.contains("s3cret"), "the manifest is written to disk: {text}");
    assert!(text.contains("sha256:"), "{text}");

    // A changed secret is still drift, even though its value is never stored.
    plan.exec_env[0].value = "other".into();
    let (changed, _) = identity_of(&plan, &None).unwrap();
    assert_ne!(digest, changed);
}

fn secret_plan(value: &str, secrets: &[&str]) -> Plan {
    let mut plan = plan_in("/t");
    plan.secrets = secrets.iter().map(|s| s.to_string()).collect();
    plan.mounts = vec![mount("cache", "/opt/s3cret/cache", "/c")];
    plan.tasks = vec![TaskPlan {
        name: "build".into(),
        argv: vec!["true".into()],
        environment: "dev".into(),
        reuse: "dev".into(),
        policy: Policy::Ephemeral,
        checkout: CheckoutMode::Shared,
        env: vec![token(value)],
    }];
    plan.source = Source::Build {
        context: p("/t/repo"),
        dockerfile: p("/t/repo/Dockerfile"),
        target: None,
        args: vec![("TOKEN".into(), "s3cret".into())],
    };
    plan
}

#[test]
fn a_value_this_host_supplied_is_fingerprinted_wherever_it_landed() {
    // `${localEnv:…}` expands in more than the two environment scopes: what it fed a
    // mount source, a build argument and a task's environment is written down too.
    let plan = secret_plan("s3cret", &["s3cret"]);
    let (_, manifest) = identity_of(&plan, &None).unwrap();
    let text = json_text(&manifest);
    assert!(!text.contains("\"s3cret\""), "{text}");
    // The mount source only *contains* the value, so it stays the config's own text.
    assert!(text.contains("\"/opt/s3cret/cache\""), "{text}");

    // A diff over it names the key and nothing else — not even the digests.
    let after = secret_plan("other", &["other", "s3cret"]);
    let (_, changed) = identity_of(&after, &None).unwrap();
    let told: Vec<String> = lines(&drift(&manifest, &changed)).into_iter().map(|(_, l)| l).collect();
    assert_eq!(told, ["tasks.build.env.TOKEN.value: changed (a value this host supplies)"]);
}

#[test]
fn the_identity_covers_the_host_command_allowlist() {
    let plan = plan_in("/t");
    let (a, _) = identity_of(&plan, &Some("aaa".into())).unwrap();
    let (b, _) = identity_of(&plan, &Some("bbb".into())).unwrap();
    assert_ne!(a, b, "a changed allowlist is a changed environment");
}

fn generation_plan(line: &str) -> Plan {
    let mut plan = plan_in("/t");
    plan.managed_dirs = vec![p("/t/state/store")];
    plan.hooks.create = Some(shell(line));
    plan
}

#[test]
fn the_generation_follows_the_image_the_storage_and_the_hook() {
    let marks = vec![Some("0123\n".to_string())];
    let plan = generation_plan("setup.sh");
    let base = generation_of(&plan, "ext4:aaaa", &marks);

    // A rebuilt image stamps another UUID into the root filesystem.
    assert_ne!(base, generation_of(&plan, "ext4:bbbb", &marks));

    // A config key the creation hook never sees is not a new generation.
    let mut unrelated = generation_plan("setup.sh");
    unrelated.mem = Some("8G".into());
    unrelated.freshness = Freshness::Reuse;
    assert_eq!(base, generation_of(&unrelated, "ext4:aaaa", &marks));

    // Editing what the hook runs does run it again.
    let edited = generation_plan("setup.sh --more");
    assert_ne!(base, generation_of(&edited, "ext4:aaaa", &marks));

    // `vk dev storage reset` removes the directory; the next boot recreates it with
    // another token, so what populated it runs again.
    assert_ne!(base, generation_of(&plan, "ext4:aaaa", &vec![Some("4567\n".to_string())]));
    assert_ne!(base, generation_of(&plan, "ext4:aaaa", &vec![None]));
}

fn diff_plan(value: &str, mounts: Vec<MountPlan>) -> Plan {
    let mut a = plan_in("/t");
    a.exec_env = vec![token(value)];
    a.mounts = mounts;
    a
}

#[test]
fn a_diff_names_each_change_by_what_it_takes_to_apply() {
    let a = diff_plan("one", vec![mount("a", "/a", "/a"), mount("b", "/b", "/b")]);
    let (_, before) = identity_of(&a, &None).unwrap();
    let mut b = diff_plan("two", vec![mount("b", "/b", "/b"), mount("c", "/c", "/c")]);
    b.mem = Some("8G".into());
    b.hooks.start = Some(shell("true"));
    b.source = Source::Build {
        context: p("/t/repo"),
        dockerfile: p("/t/repo/Dockerfile"),
        target: None,
        args: vec![],
    };
    let (_, after) = identity_of(&b, &None).unwrap();
    let effects: std::collections::BTreeMap<String, Effect> = lines(&drift(&before, &after))
        .into_iter()
        .map(|(e, l)| (l.split_once(": ").map(|(k, _)| k.to_string()).unwrap(), e))
        .collect();
    // Only the token changing is a drift new sessions absorb; nothing to restart for.
    let c = diff_plan("two", vec![mount("a", "/a", "/a"), mount("b", "/b", "/b")]);
    let (_, only_env) = identity_of(&c, &None).unwrap();
    let groups = drift(&before, &only_env);
    assert!(lines(&groups).iter().all(|(e, _)| *e == Effect::Session), "{groups:?}");
    assert!(!groups.is_empty());
    assert!(drift(&before, &before).is_empty());
    // A secret's value is fingerprinted, so a changed one still shows — as session-only.
    assert_eq!(effects["exec_env.TOKEN.value"], Effect::Session);
    // A mount is keyed by its name, so reordering is nothing; a new one is a restart.
    assert!(!effects.contains_key("mounts.b.source"), "{effects:?}");
    assert_eq!(effects["mounts.c.source"], Effect::Restart);
    assert_eq!(effects["mounts.a.source"], Effect::Restart);
    assert_eq!(effects["mem"], Effect::Restart);
    assert_eq!(effects["hooks.start.Command.run"], Effect::Restart);
    assert_eq!(effect_of("endpoints[\"web\"].host_port"), Effect::Host);
    assert_eq!(effect_of("managed_dirs[\"/s/data\"]"), Effect::Restart);
    // Endpoint-only drift is applied by attaching; a hook change is not.
    let mut d = Drift { session: vec![], host: vec!["endpoints".to_string()], restart: vec![], rebuild: vec![] };
    assert!(applied_on_attach(&d));
    d.restart.push("hooks".to_string());
    assert!(!applied_on_attach(&d));
    assert_eq!(effects["source.Build.context"], Effect::Rebuild);
    assert!(!effects.contains_key("user"), "unchanged: {effects:?}");
    // A `${localEnv:…}` that has become available is picked up by the next session,
    // together with the value it fills in — not a reason to restart.
    assert_eq!(effect_of("unresolved[\"${localEnv:TOKEN}\"]"), Effect::Session);
    // What only a build reads is a rebuild, not a restart.
    assert_eq!(effect_of("cache.registry"), Effect::Rebuild);
    assert_eq!(effect_of("cached_only"), Effect::Rebuild);
    assert_eq!(effect_of("fallback_target"), Effect::Rebuild);
}

#[test]
fn an_older_creator_is_named_and_a_current_or_odd_one_is_not() {
    for own in ["0.64.0", "0.65.3", "1.0.0"] {
        let older_creator = |created_by: &str| older_creator(created_by, own);
        assert_eq!(older_creator("vk 0.1.0 (abc)"), Some("0.1.0".into()));
        assert_eq!(older_creator(&own_version(own, "abc")), None);
        assert_eq!(older_creator("vk 999.0.0 (dev)"), None);
        assert_eq!(older_creator(""), None);
        assert_eq!(older_creator("something else"), None);
    }
    assert_eq!(older_creator("vk 0.64.0 (abc)", "0.65.0"), Some("0.64.0".into()));
    assert_eq!(older_creator("vk 0.1.0 (abc)", "unreleased"), None);
}

#[test]
fn a_note_names_the_older_release_and_this_one() {
    let note = note_older_creator("vk 0.1.0 (abc)", "0.64.0").unwrap();
    assert!(note.starts_with("it was created by vk 0.1.0; this is 0.64.0 — `vk dev refresh`"), "{note}");
    assert_eq!(note_older_creator("vk 0.64.0 (abc)", "0.64.0"), None);
    assert_eq!(own_version("0.64.0", "abc"), "vk 0.64.0 (abc)");
}

#[test]
fn the_digest_is_of_the_manifest_with_its_keys_in_order() {
    let (digest, manifest) = identity_of(&plan_in("/t"), &Some("aaa".into())).unwrap();
    let text = json_text(&manifest);
    assert_eq!(digest, vk_dev::digest::sha256_hex(text.as_bytes()));
    assert!(text.starts_with("{\"cache\":{\"insecure\":false,\"registry\":null},\"cached_only\":false,"), "{text}");
    assert!(text.contains("\"host_exec_wrapper_digest\":\"aaa\""), "{text}");
    let keys: Vec<String> = match &manifest {
        Json::Object(o) => o.iter().map(|(k, _)| k.clone()).collect(),
        _ => vec![],
    };
    let mut sorted = keys.clone();
    sorted.sort();
    assert_eq!(keys, sorted);
}

#[test]
fn a_fingerprint_is_the_digest_of_the_value() {
    let mut plan = plan_in("/t");
    plan.exec_env = vec![token("s3cret")];
    let (_, manifest) = identity_of(&plan, &None).unwrap();
    let want = format!("sha256:{}", vk_dev::digest::sha256_hex(b"s3cret"));
    assert!(json_text(&manifest).contains(&want));
    // sha256 of the empty string, as everybody knows it
    assert_eq!(
        vk_dev::digest::sha256_hex(b""),
        "e3b0c44298fc1c149afbf4c8996fb92427ae41e4649b934ca495991b7852b855"
    );
}

#[test]
fn a_path_that_is_not_text_has_no_identity() {
    let mut plan = plan_in("/t");
    plan.workspace = HostPath { bytes: vec![b'/', 0xff] };
    let e = identity_of(&plan, &None).unwrap_err();
    assert_eq!(e.message, "serializing the plan: path contains invalid UTF-8 characters");
}

#[test]
fn a_marker_is_trimmed_and_empty_where_there_is_none() {
    assert_eq!(marker_of(&Some(" abc \n".into())), "abc");
    assert_eq!(marker_of(&None), "");
    assert_eq!(identity_path(&p("/s")).display(), "/s/dev.json");
}

#[test]
fn a_root_is_named_by_its_uuid_its_path_its_reference_or_its_label() {
    let image = Source::Image { reference: "debian:13".into() };
    let compose = plan_in("/t").source;
    let root = Some(p("/r/root.ext4"));
    assert_eq!(root_identity(&root, &Some("aaaa".into()), &image, "l"), "ext4:aaaa");
    assert_eq!(root_identity(&root, &None, &image, "l"), "root:/r/root.ext4");
    assert_eq!(root_identity(&None, &None, &image, "l"), "image:debian:13");
    assert_eq!(root_identity(&None, &None, &compose, "l"), "label:l");
}

#[test]
fn the_wrapper_is_digested_only_where_there_is_one() {
    let mut plan = plan_in("/t");
    let body = Some(b"#!/bin/sh\n".to_vec());
    assert_eq!(wrapper_digest(&plan, &body), None);
    plan.host_exec = Some(HostExecPlan { wrapper: p("/w"), builtin: None, env: vec![] });
    assert_eq!(wrapper_digest(&plan, &body), Some(vk_dev::digest::sha256_hex(b"#!/bin/sh\n")));
    assert_eq!(wrapper_digest(&plan, &None), None);
}

#[test]
fn a_group_of_hooks_is_keyed_by_place() {
    let group = HookPlan::Group(vec![
        ("b".into(), shell("two")),
        ("a".into(), HookPlan::Group(vec![("x".into(), shell("one"))])),
    ]);
    let mut out = vec![];
    hook_argv(&group, "create", &mut out);
    let keys: Vec<&str> = out.iter().map(|(k, _)| k.as_str()).collect();
    assert_eq!(keys, ["create.a.x", "create.b"]);
    assert_eq!(out[1].1.last().map(String::as_str), Some("two"));
}

#[test]
fn leaves_are_keyed_by_name_by_value_and_by_place() {
    let text = |s: &str| Json::Text(s.into());
    let named = |n: &str, v: &str| Json::Object(vec![("name".into(), text(n)), ("v".into(), text(v))]);
    let v = Json::Object(vec![
        ("list".into(), Json::Array(vec![named("x", "1"), named("y", "2")])),
        ("tags".into(), Json::Array(vec![text("t"), Json::Bool(true)])),
        ("odd".into(), Json::Array(vec![Json::Array(vec![Json::Null])])),
        ("n".into(), Json::Null),
    ]);
    let mut out = vec![];
    flatten(&v, "", &mut out);
    let got: Vec<(&str, &str)> = out.iter().map(|(k, v)| (k.as_str(), v.as_str())).collect();
    assert_eq!(
        got,
        [
            ("list.x.v", "\"1\""),
            ("list.y.v", "\"2\""),
            ("n", "null"),
            ("odd[0][null]", "present"),
            ("tags[\"t\"]", "present"),
            ("tags[true]", "present"),
        ]
    );
    // reordering is no change
    let w = Json::Object(vec![
        ("list".into(), Json::Array(vec![named("y", "2"), named("x", "1")])),
        ("tags".into(), Json::Array(vec![Json::Bool(true), text("t")])),
        ("odd".into(), Json::Array(vec![Json::Array(vec![Json::Null])])),
        ("n".into(), Json::Null),
    ]);
    assert!(drift(&v, &w).is_empty());
}

#[test]
fn a_change_is_told_with_what_was_and_what_is() {
    let obj = |k: &str, v: &str| Json::Object(vec![(k.into(), Json::Text(v.into()))]);
    let changed = drift(&obj("mem", "4G"), &obj("mem", "8G"));
    assert_eq!(changed.restart, ["mem: \"4G\" -> \"8G\""]);
    let swapped = drift(&obj("mem", "4G"), &obj("user", "dev"));
    assert_eq!(swapped.restart, ["mem: \"4G\" -> (removed)", "user: (added) \"dev\""]);
}

#[test]
fn a_diff_says_what_applies_it() {
    let none = Drift { session: vec![], host: vec![], restart: vec![], rebuild: vec![] };
    assert_eq!(
        show_diff("0123456789abcdef", &none, false, true),
        "the running environment matches the plan (0123456789ab)\ncreate hook will run again on the next boot\n"
    );
    let session = Drift { session: vec!["exec_env".into()], host: vec![], restart: vec![], rebuild: vec![] };
    assert_eq!(
        show_diff("d", &session, false, false),
        "session-only (the next exec, shell or editor session picks it up):\n  exec_env\n`vk dev up` applies all of it, without a restart\n"
    );
    assert_eq!(
        show_diff("d", &none, true, false),
        "image rebuild:\n  the image's sources have changed since it was built\n`vk dev refresh` applies all of it\n"
    );
}

#[test]
fn a_plan_diff_needs_something_running_that_recorded_what_it_is() {
    let plan = plan_in("/t");
    assert_eq!(plan_diff(&plan, false, &None, &None, false, false).unwrap(), None);
    let e = plan_diff(&plan, true, &None, &None, false, false).unwrap_err();
    assert_eq!(e.message, "the running environment recorded no identity to compare against");
    let (digest, manifest) = identity_of(&plan, &None).unwrap();
    let same = plan_diff(&plan, true, &Some(manifest), &None, false, false).unwrap().unwrap();
    assert_eq!(same, format!("the running environment matches the plan ({})\n", &digest[..12]));
}

#[test]
fn a_changed_fingerprint_in_a_list_is_told_without_a_digest() {
    let text = |s: &str| Json::Text(s.into());
    let args = |d: &str| {
        Json::Object(vec![("args".into(), Json::Array(vec![Json::Array(vec![text("TOKEN"), text(d)])]))])
    };
    let d = drift(&args("sha256:aa"), &args("sha256:bb"));
    assert!(!d.is_empty());
    for (_, l) in lines(&d) {
        assert!(!l.contains("sha256:"), "{l}");
    }
    assert_eq!(d.restart, ["args[0][1]: changed (a value this host supplies)"]);
    assert!(drift(&args("sha256:aa"), &args("sha256:aa")).is_empty());
    // one that goes or comes is named by its place alone
    let gone = drift(&args("sha256:aa"), &args("plain"));
    assert!(!gone.is_empty());
    for (_, l) in lines(&gone) {
        assert!(!l.contains("sha256:"), "{l}");
    }
}
