//! What a translation says of a Dockerfile outside the project.

use crate::carried::{lemma_kept_absolute, mount_key, points_outside, told};
use crate::devcontainer::{
    fields_of, lifecycle_tree, rewritten, texts_tree, toml_of_json, Config, Lifecycle, Mount, Port, Virtkit,
};
use crate::draft::{DraftView, EntryView, ItemView, SectionView};
use crate::entries::{entry, lemma_with_entry, with_entry};
use crate::path::is_abs;
use crate::text::decimal;
use crate::translate::{
    action_if, begun, build_args, build_text, config_dir, dockerfile_of, env_set, has_compose, inside_context,
    mount_name, mounts_upto, omitted_if, port_of, ports_upto, rebased, settings_path, settings_upto,
    texts_among, told_apart, translated, virtkit_of, with_being, with_command_notes, with_cpus,
    with_docker_notes, with_dockerfile, with_editor, with_env, with_extensions, with_folder, with_hook,
    with_hooks, with_host, with_machine, with_mount, with_other_keys, with_other_tools, with_place, with_port,
    with_port_notes, with_service, with_settings, with_source,
};
use crate::value::{json_shown, JsonTree, Tree};
use vstd::prelude::*;
use vstd::utf8::encode_utf8;

verus! {

/// Nothing is said of the stage of a build.
pub open spec fn unstaged(items: Seq<ItemView>) -> bool {
    !told(items, "build.target"@)
}

broadcast proof fn lemma_noted(items: Seq<ItemView>, x: ItemView)
    requires
        unstaged(items),
        x.key != "build.target"@,
    ensures
        #![trigger items.push(x)]
        unstaged(items.push(x)),
{
    let now = items.push(x);
    if told(now, "build.target"@) {
        let i = choose|i: int| 0 <= i < now.len() && (#[trigger] now[i]).key == "build.target"@;
        assert(now[i] == items[i]);
    }
}

broadcast proof fn lemma_action_if(d: DraftView, cond: bool, key: Seq<char>, note: Seq<char>)
    requires
        unstaged(d.items),
        key != "build.target"@,
    ensures
        unstaged((#[trigger] action_if(d, cond, key, note)).items),
{
    broadcast use lemma_noted;

}

broadcast proof fn lemma_omitted_if(d: DraftView, cond: bool, key: Seq<char>, note: Seq<char>)
    requires
        unstaged(d.items),
        key != "build.target"@,
    ensures
        unstaged((#[trigger] omitted_if(d, cond, key, note)).items),
{
    broadcast use lemma_noted;

}

proof fn lemma_source_keys()
    ensures
        "build"@ != "build.target"@,
        "build.args"@ != "build.target"@,
        "build.cacheFrom"@ != "build.target"@,
        "build.context"@ != "build.target"@,
        "build.dockerfile"@ != "build.target"@,
        "build.options"@ != "build.target"@,
        "compose"@ != "build.target"@,
        "dockerComposeFile"@ != "build.target"@,
        "image"@ != "build.target"@,
        "runServices"@ != "build.target"@,
        "service"@ != "build.target"@,
        "source"@ != "build.target"@,
{
    reveal_strlit("build.target");
    assert("build.target"@.len() == 12 && "build.target"@[0] == 'b');
    reveal_strlit("build");
    assert("build"@.len() == 5);
    reveal_strlit("build.args");
    assert("build.args"@.len() == 10);
    reveal_strlit("build.cacheFrom");
    assert("build.cacheFrom"@.len() == 15);
    reveal_strlit("build.context");
    assert("build.context"@.len() == 13);
    reveal_strlit("build.dockerfile");
    assert("build.dockerfile"@.len() == 16);
    reveal_strlit("build.options");
    assert("build.options"@.len() == 13);
    reveal_strlit("compose");
    assert("compose"@.len() == 7);
    reveal_strlit("dockerComposeFile");
    assert("dockerComposeFile"@.len() == 17);
    reveal_strlit("image");
    assert("image"@.len() == 5);
    reveal_strlit("runServices");
    assert("runServices"@.len() == 11);
    reveal_strlit("service");
    assert("service"@.len() == 7);
    reveal_strlit("source");
}

proof fn lemma_being_keys()
    ensures
        "$schema"@ != "build.target"@,
        "appPort"@ != "build.target"@,
        "capAdd"@ != "build.target"@,
        "containerEnv"@ != "build.target"@,
        "containerUser"@ != "build.target"@,
        "dockerFile"@ != "build.target"@,
        "features"@ != "build.target"@,
        "forwardPorts"@ != "build.target"@,
        "hostRequirements"@ != "build.target"@,
        "init"@ != "build.target"@,
        "initializeCommand"@ != "build.target"@,
        "mounts"@ != "build.target"@,
        "name"@ != "build.target"@,
        "onCreateCommand"@ != "build.target"@,
        "otherPortsAttributes"@ != "build.target"@,
        "overrideCommand"@ != "build.target"@,
        "portsAttributes"@ != "build.target"@,
        "postAttachCommand"@ != "build.target"@,
        "postCreateCommand"@ != "build.target"@,
        "postStartCommand"@ != "build.target"@,
        "privileged"@ != "build.target"@,
        "remoteEnv"@ != "build.target"@,
        "remoteUser"@ != "build.target"@,
        "runArgs"@ != "build.target"@,
        "securityOpt"@ != "build.target"@,
        "shutdownAction"@ != "build.target"@,
        "updateContentCommand"@ != "build.target"@,
        "updateRemoteUserUID"@ != "build.target"@,
        "userEnvProbe"@ != "build.target"@,
        "waitFor"@ != "build.target"@,
        "workspace"@ != "build.target"@,
        "workspaceFolder"@ != "build.target"@,
        "workspaceMount"@ != "build.target"@,
{
    reveal_strlit("build.target");
    assert("build.target"@.len() == 12 && "build.target"@[0] == 'b');
    reveal_strlit("$schema");
    assert("$schema"@.len() == 7);
    reveal_strlit("appPort");
    assert("appPort"@.len() == 7);
    reveal_strlit("capAdd");
    assert("capAdd"@.len() == 6);
    reveal_strlit("containerEnv");
    assert("containerEnv"@[0] == 'c');
    reveal_strlit("containerUser");
    assert("containerUser"@.len() == 13);
    reveal_strlit("dockerFile");
    assert("dockerFile"@.len() == 10);
    reveal_strlit("features");
    assert("features"@.len() == 8);
    reveal_strlit("forwardPorts");
    assert("forwardPorts"@[0] == 'f');
    reveal_strlit("hostRequirements");
    assert("hostRequirements"@.len() == 16);
    reveal_strlit("init");
    assert("init"@.len() == 4);
    reveal_strlit("initializeCommand");
    assert("initializeCommand"@.len() == 17);
    reveal_strlit("mounts");
    assert("mounts"@.len() == 6);
    reveal_strlit("name");
    assert("name"@.len() == 4);
    reveal_strlit("onCreateCommand");
    assert("onCreateCommand"@.len() == 15);
    reveal_strlit("otherPortsAttributes");
    assert("otherPortsAttributes"@.len() == 20);
    reveal_strlit("overrideCommand");
    assert("overrideCommand"@.len() == 15);
    reveal_strlit("portsAttributes");
    assert("portsAttributes"@.len() == 15);
    reveal_strlit("postAttachCommand");
    assert("postAttachCommand"@.len() == 17);
    reveal_strlit("postCreateCommand");
    assert("postCreateCommand"@.len() == 17);
    reveal_strlit("postStartCommand");
    assert("postStartCommand"@.len() == 16);
    reveal_strlit("privileged");
    assert("privileged"@.len() == 10);
    reveal_strlit("remoteEnv");
    assert("remoteEnv"@.len() == 9);
    reveal_strlit("remoteUser");
    assert("remoteUser"@.len() == 10);
    reveal_strlit("runArgs");
    assert("runArgs"@.len() == 7);
    reveal_strlit("securityOpt");
    assert("securityOpt"@.len() == 11);
    reveal_strlit("shutdownAction");
    assert("shutdownAction"@.len() == 14);
    reveal_strlit("updateContentCommand");
    assert("updateContentCommand"@.len() == 20);
    reveal_strlit("updateRemoteUserUID");
    assert("updateRemoteUserUID"@.len() == 19);
    reveal_strlit("userEnvProbe");
    assert("userEnvProbe"@[0] == 'u');
    reveal_strlit("waitFor");
    assert("waitFor"@.len() == 7);
    reveal_strlit("workspace");
    assert("workspace"@.len() == 9);
    reveal_strlit("workspaceFolder");
    assert("workspaceFolder"@.len() == 15);
    reveal_strlit("workspaceMount");
}

proof fn lemma_customized_keys()
    ensures
        "customizations.virtkit.cache"@ != "build.target"@,
        "customizations.virtkit.cpus"@ != "build.target"@,
        "customizations.virtkit.dockerComposeFile"@ != "build.target"@,
        "customizations.virtkit.gitWorktreeMount"@ != "build.target"@,
        "customizations.virtkit.hostExec"@ != "build.target"@,
        "customizations.virtkit.hostExec.wrapper"@ != "build.target"@,
        "customizations.virtkit.localUserBuildArgs"@ != "build.target"@,
        "customizations.virtkit.mem"@ != "build.target"@,
        "customizations.virtkit.profiles"@ != "build.target"@,
        "customizations.virtkit.stateDir"@ != "build.target"@,
        "customizations.vscode"@ != "build.target"@,
        "customizations.vscode.extensions"@ != "build.target"@,
        "customizations.vscode.settings"@ != "build.target"@,
        "host.wrapper"@ != "build.target"@,
        forall|x: Seq<char>| #[trigger] ("customizations."@ + x) != "build.target"@,
        forall|x: Seq<char>| #[trigger] ("customizations.vscode."@ + x) != "build.target"@,
        forall|x: Seq<char>| #[trigger] ("customizations.vscode.settings."@ + x) != "build.target"@,
{
    reveal_strlit("build.target");
    assert("build.target"@.len() == 12 && "build.target"@[0] == 'b');
    reveal_strlit("customizations.virtkit.cache");
    assert("customizations.virtkit.cache"@.len() == 28);
    reveal_strlit("customizations.virtkit.cpus");
    assert("customizations.virtkit.cpus"@.len() == 27);
    reveal_strlit("customizations.virtkit.dockerComposeFile");
    assert("customizations.virtkit.dockerComposeFile"@.len() == 40);
    reveal_strlit("customizations.virtkit.gitWorktreeMount");
    assert("customizations.virtkit.gitWorktreeMount"@.len() == 39);
    reveal_strlit("customizations.virtkit.hostExec");
    assert("customizations.virtkit.hostExec"@.len() == 31);
    reveal_strlit("customizations.virtkit.hostExec.wrapper");
    assert("customizations.virtkit.hostExec.wrapper"@.len() == 39);
    reveal_strlit("customizations.virtkit.localUserBuildArgs");
    assert("customizations.virtkit.localUserBuildArgs"@.len() == 41);
    reveal_strlit("customizations.virtkit.mem");
    assert("customizations.virtkit.mem"@.len() == 26);
    reveal_strlit("customizations.virtkit.profiles");
    assert("customizations.virtkit.profiles"@.len() == 31);
    reveal_strlit("customizations.virtkit.stateDir");
    assert("customizations.virtkit.stateDir"@.len() == 31);
    reveal_strlit("customizations.vscode");
    assert("customizations.vscode"@.len() == 21);
    reveal_strlit("customizations.vscode.extensions");
    assert("customizations.vscode.extensions"@.len() == 32);
    reveal_strlit("customizations.vscode.settings");
    assert("customizations.vscode.settings"@.len() == 30);
    reveal_strlit("host.wrapper");
    assert("host.wrapper"@[0] == 'h');
    reveal_strlit("customizations.");
    reveal_strlit("customizations.vscode.");
    reveal_strlit("customizations.vscode.settings.");
    assert forall|x: Seq<char>| #[trigger] ("customizations."@ + x) != "build.target"@ by {
        assert(("customizations."@ + x)[0] == 'c');
    }
    assert forall|x: Seq<char>| #[trigger] ("customizations.vscode."@ + x) != "build.target"@ by {
        assert(("customizations.vscode."@ + x)[0] == 'c');
    }
    assert forall|x: Seq<char>| #[trigger] ("customizations.vscode.settings."@ + x) != "build.target"@ by {
        assert(("customizations.vscode.settings."@ + x)[0] == 'c');
    }
}

proof fn lemma_rebased(d: DraftView, dir: Seq<u8>, workspace: Seq<u8>, key: Seq<char>, p: Seq<char>)
    requires
        unstaged(d.items),
        key != "build.target"@,
    ensures
        unstaged(rebased(d, dir, workspace, key, p).0.items),
{
    broadcast use lemma_noted, lemma_action_if, lemma_omitted_if;

}

proof fn lemma_rewritten(d: DraftView, key: Seq<char>, s: Seq<char>, folder: Option<Seq<char>>)
    requires
        unstaged(d.items),
        key != "build.target"@,
    ensures
        unstaged(rewritten(d, key, s, folder).0.items),
{
    broadcast use lemma_noted, lemma_action_if, lemma_omitted_if;

}

proof fn lemma_dockerfile(
    d: DraftView,
    c: Config,
    dir: Seq<u8>,
    workspace: Seq<u8>,
    df: Seq<char>,
    stages: Option<Seq<Seq<char>>>,
)
    requires
        unstaged(d.items),
        build_text(c, "target"@) is None,
        is_abs(encode_utf8(rebased(d, dir, workspace, "build.dockerfile"@, df).1)),
    ensures
        unstaged(with_dockerfile(d, c, dir, workspace, df, stages).items),
{
    broadcast use lemma_noted, lemma_action_if, lemma_omitted_if;

    lemma_source_keys();
    let context = match build_text(c, "context"@) {
        Some(x) => x,
        None => "."@,
    };
    lemma_rebased(d, dir, workspace, "build.context"@, context);
    let (d1, at) = rebased(d, dir, workspace, "build.context"@, context);
    lemma_rebased(d1, dir, workspace, "build.dockerfile"@, df);
}

proof fn lemma_place(d: DraftView, c: Config)
    requires
        unstaged(d.items),
    ensures
        unstaged(with_place(d, c).items),
{
    broadcast use lemma_noted, lemma_action_if, lemma_omitted_if;

    lemma_being_keys();
    if let Some(w) = c.workspace_folder {
        lemma_rewritten(d, "workspaceFolder"@, w@, c.workspace_folder.deep_view());
    }
    assert(unstaged(with_folder(d, c).items));
}

proof fn lemma_machine(d: DraftView, v: Option<Virtkit>)
    requires
        unstaged(d.items),
    ensures
        unstaged(with_machine(d, v).items),
{
    broadcast use lemma_noted, lemma_action_if, lemma_omitted_if;

    lemma_customized_keys();
    if let Some(x) = v {
        assert(unstaged(with_cpus(d, x.cpus.deep_view()).items));
    }
}

proof fn lemma_env_set(
    d: DraftView,
    key: Seq<char>,
    env: Seq<(Seq<char>, Seq<char>)>,
    folder: Option<Seq<char>>,
    n: int,
)
    requires
        unstaged(d.items),
        key != "build.target"@,
    ensures
        unstaged(env_set(d, key, env, folder, n).items),
    decreases n,
{
    broadcast use lemma_noted, lemma_action_if, lemma_omitted_if;

    if n > 0 {
        lemma_env_set(d, key, env, folder, n - 1);
        lemma_rewritten(env_set(d, key, env, folder, n - 1), key, env[n - 1].1, folder);
    }
}

proof fn lemma_env(
    d: DraftView,
    key: Seq<char>,
    table: Seq<char>,
    env: Option<Seq<(Seq<char>, Seq<char>)>>,
    folder: Option<Seq<char>>,
)
    requires
        unstaged(d.items),
        key != "build.target"@,
    ensures
        unstaged(with_env(d, key, table, env, folder).items),
{
    broadcast use lemma_noted, lemma_action_if, lemma_omitted_if;

    if env is Some && env->0.len() > 0 {
        lemma_env_set(d.section(seq!["dev"@, table]), key, env->0, folder, env->0.len() as int);
    }
}

proof fn lemma_mount(d: DraftView, taken: Seq<Seq<char>>, m: Mount, i: int, folder: Option<Seq<char>>)
    requires
        unstaged(d.items),
    ensures
        unstaged(with_mount(d, taken, m, i, folder).0.items),
{
    broadcast use lemma_noted, lemma_action_if, lemma_omitted_if;

    reveal_strlit("build.target");
    reveal_strlit("mounts[");
    assert("build.target"@[0] == 'b');
    assert(mount_key(i)[0] == 'm');
    if let Ok(f) = fields_of(m) {
        lemma_rewritten(d, mount_key(i), f.source, folder);
        let d1 = rewritten(d, mount_key(i), f.source, folder).0;
        lemma_rewritten(d1, mount_key(i), f.target, folder);
    }
}

proof fn lemma_mounts(d: DraftView, v: Seq<Mount>, folder: Option<Seq<char>>, n: int)
    requires
        unstaged(d.items),
    ensures
        unstaged(mounts_upto(d, v, folder, n).0.items),
    decreases n,
{
    broadcast use lemma_noted, lemma_action_if, lemma_omitted_if;

    if n > 0 {
        lemma_mounts(d, v, folder, n - 1);
        let (e, taken) = mounts_upto(d, v, folder, n - 1);
        lemma_mount(e, taken, v[n - 1], n - 1, folder);
    }
}

proof fn lemma_ports(d: DraftView, v: Seq<Port>, compose: bool, n: int)
    requires
        unstaged(d.items),
    ensures
        unstaged(ports_upto(d, v, compose, n).0.items),
    decreases n,
{
    broadcast use lemma_noted, lemma_action_if, lemma_omitted_if;

    lemma_being_keys();
    if n > 0 {
        lemma_ports(d, v, compose, n - 1);
        let (e, taken) = ports_upto(d, v, compose, n - 1);
        assert(unstaged(with_port(e, taken, v[n - 1], n - 1, compose).0.items));
    }
}

proof fn lemma_port_notes(d: DraftView, c: Config)
    requires
        unstaged(d.items),
    ensures
        unstaged(with_port_notes(d, c).items),
{
    broadcast use lemma_noted, lemma_action_if, lemma_omitted_if;

    lemma_being_keys();
}

proof fn lemma_hooks(d: DraftView, c: Config)
    requires
        unstaged(d.items),
    ensures
        unstaged(with_hooks(d, c).items),
{
    broadcast use lemma_noted, lemma_action_if, lemma_omitted_if;

    lemma_being_keys();
}

proof fn lemma_command_notes(d: DraftView, c: Config)
    requires
        unstaged(d.items),
    ensures
        unstaged(with_command_notes(d, c).items),
{
    broadcast use lemma_noted, lemma_action_if, lemma_omitted_if;

    lemma_being_keys();
}

proof fn lemma_docker_notes(d: DraftView, c: Config)
    requires
        unstaged(d.items),
    ensures
        unstaged(with_docker_notes(d, c).items),
{
    broadcast use lemma_noted, lemma_action_if, lemma_omitted_if;

    lemma_being_keys();
}

proof fn lemma_being(d: DraftView, c: Config)
    requires
        unstaged(d.items),
    ensures
        unstaged(with_being(d, c).items),
{
    broadcast use lemma_noted, lemma_action_if, lemma_omitted_if;

    lemma_being_keys();
    let folder = c.workspace_folder.deep_view();
    let p = with_place(d, c);
    lemma_place(d, c);
    lemma_machine(p, virtkit_of(c));
    let d1 = with_machine(p, virtkit_of(c));
    lemma_env(d1, "remoteEnv"@, "exec-env"@, c.remote_env.deep_view(), folder);
    let d2 = with_env(d1, "remoteEnv"@, "exec-env"@, c.remote_env.deep_view(), folder);
    lemma_env(d2, "containerEnv"@, "container-env"@, c.container_env.deep_view(), folder);
    let d3 = with_env(d2, "containerEnv"@, "container-env"@, c.container_env.deep_view(), folder);
    if let Some(m) = c.mounts {
        lemma_mounts(d3, m@, folder, m@.len() as int);
    }
    let d4 = match c.mounts {
        Some(m) => omitted_if(mounts_upto(d3, m@, folder, m@.len() as int).0, m@.len() == 0, "mounts"@, "empty"@),
        None => d3,
    };
    assert(unstaged(d4.items));
    if let Some(f) = c.forward_ports {
        lemma_ports(d4, f@, has_compose(c), f@.len() as int);
    }
    let d5 = match c.forward_ports {
        Some(f) => omitted_if(
            ports_upto(d4, f@, has_compose(c), f@.len() as int).0,
            f@.len() == 0,
            "forwardPorts"@,
            "empty"@,
        ),
        None => d4,
    };
    assert(unstaged(d5.items));
    lemma_port_notes(d5, c);
    let d6 = with_port_notes(d5, c);
    lemma_hooks(d6, c);
    lemma_command_notes(with_hooks(d6, c), c);
    let d7 = with_command_notes(with_hooks(d6, c), c);
    lemma_docker_notes(d7, c);
}

proof fn lemma_settings_upto(d: DraftView, o: Seq<(Seq<char>, JsonTree)>, n: int)
    requires
        unstaged(d.items),
    ensures
        unstaged(settings_upto(d, o, n).0.items),
    decreases n,
{
    broadcast use lemma_noted, lemma_action_if, lemma_omitted_if;

    lemma_customized_keys();
    if n > 0 {
        lemma_settings_upto(d, o, n - 1);
    }
}

proof fn lemma_other_keys(d: DraftView, vs: Seq<(Seq<char>, JsonTree)>, n: int)
    requires
        unstaged(d.items),
    ensures
        unstaged(with_other_keys(d, vs, n).items),
    decreases n,
{
    broadcast use lemma_noted, lemma_action_if, lemma_omitted_if;

    lemma_customized_keys();
    if n > 0 {
        lemma_other_keys(d, vs, n - 1);
    }
}

proof fn lemma_other_tools(d: DraftView, others: Seq<(Seq<char>, JsonTree)>, n: int)
    requires
        unstaged(d.items),
    ensures
        unstaged(with_other_tools(d, others, n).items),
    decreases n,
{
    broadcast use lemma_noted, lemma_action_if, lemma_omitted_if;

    lemma_customized_keys();
    if n > 0 {
        lemma_other_tools(d, others, n - 1);
    }
}

proof fn lemma_editor(d: DraftView, others: Seq<(Seq<char>, JsonTree)>)
    requires
        unstaged(d.items),
    ensures
        unstaged(with_editor(d, others).items),
{
    broadcast use lemma_noted, lemma_action_if, lemma_omitted_if;

    lemma_customized_keys();
    let e = match entry(others, "vscode"@) {
        Some(JsonTree::Object(vs)) => {
            let d0 = d.section(seq!["dev"@, "editor"@, "vscode"@]).put("state"@, "persistent"@);
            let d1 = with_extensions(d0, vs);
            let d2 = with_settings(d1, vs);
            assert(unstaged(d1.items));
            if let Some(JsonTree::Object(o)) = entry(vs, "settings"@) {
                lemma_settings_upto(d1.section(settings_path()), o, o.len() as int);
            }
            assert(unstaged(d2.items));
            lemma_other_keys(d2, vs, vs.len() as int);
            with_other_keys(d2, vs, vs.len() as int)
        },
        Some(v) => d.action("customizations.vscode"@, json_shown(v) + ": expected an object"@),
        None => d,
    };
    lemma_other_tools(e, others, others.len() as int);
}

proof fn lemma_host(d: DraftView, v: Option<Virtkit>, dir: Seq<u8>, workspace: Seq<u8>)
    requires
        unstaged(d.items),
    ensures
        unstaged(with_host(d, v, dir, workspace).items),
{
    broadcast use lemma_noted, lemma_action_if, lemma_omitted_if;

    lemma_customized_keys();
    if let Some(x) = v {
        if let Some(h) = x.host_exec {
            lemma_rebased(d, dir, workspace, "customizations.virtkit.hostExec.wrapper"@, h.wrapper@);
        }
    }
}

/// The entry is no build table, or one that names no stage.
pub open spec fn names_no_stage(e: EntryView) -> bool {
    e matches EntryView::Value(k, Tree::Table(t)) ==> (k == "build"@ ==> entry(t, "target"@) is None)
}

/// The section is not `dev.build`, and has no build table that names a stage where it is `dev`.
pub open spec fn sets_no_stage(s: SectionView) -> bool {
    &&& s.path != seq!["dev"@, "build"@]
    &&& s.path == seq!["dev"@] ==> forall|j: int| 0 <= j < s.entries.len() ==> names_no_stage(#[trigger] s.entries[j])
}

/// `dev.build` has no `target` in the draft.
pub open spec fn no_stage_set(d: DraftView) -> bool {
    forall|i: int| 0 <= i < d.sections.len() ==> sets_no_stage(#[trigger] d.sections[i])
}

/// The build table of a Dockerfile that is kept absolute.
spec fn stageless_table(c: Config, place: Seq<char>, inside: Seq<char>) -> Seq<(Seq<char>, Tree)> {
    let t = with_entry(
        with_entry(Seq::empty(), "context"@, Tree::Text(place)),
        "dockerfile"@,
        Tree::Text(inside),
    );
    let carried = build_args(c).0;
    if carried.len() > 0 {
        with_entry(t, "args"@, Tree::Table(carried))
    } else {
        t
    }
}

proof fn lemma_stageless(c: Config, place: Seq<char>, inside: Seq<char>)
    ensures
        entry(stageless_table(c, place, inside), "target"@) is None,
{
    reveal_strlit("context");
    reveal_strlit("dockerfile");
    reveal_strlit("args");
    reveal_strlit("target");
    assert("context"@.len() == 7 && "dockerfile"@.len() == 10 && "args"@.len() == 4 && "target"@.len() == 6);
    let none = Seq::<(Seq<char>, Tree)>::empty();
    let t0 = with_entry(none, "context"@, Tree::Text(place));
    let t1 = with_entry(t0, "dockerfile"@, Tree::Text(inside));
    let carried = build_args(c).0;
    lemma_with_entry(none, "context"@, Tree::Text(place));
    lemma_with_entry(t0, "dockerfile"@, Tree::Text(inside));
    lemma_with_entry(t1, "args"@, Tree::Table(carried));
    assert(entry(none, "target"@) is None);
    assert(entry(t1, "target"@) is None);
}

proof fn lemma_rebased_only_notes(d: DraftView, dir: Seq<u8>, workspace: Seq<u8>, key: Seq<char>, p: Seq<char>)
    ensures
        rebased(d, dir, workspace, key, p).0.sections == d.sections,
        rebased(d, dir, workspace, key, p).1 == rebased(DraftView::empty(), dir, workspace, ""@, p).1,
{
}

/// A build whose Dockerfile is kept absolute is written without a stage.
proof fn lemma_table(
    d: DraftView,
    c: Config,
    dir: Seq<u8>,
    workspace: Seq<u8>,
    df: Seq<char>,
    stages: Option<Seq<Seq<char>>>,
)
    requires
        no_stage_set(d),
        build_text(c, "target"@) is None,
        is_abs(encode_utf8(rebased(d, dir, workspace, "build.dockerfile"@, df).1)),
    ensures
        no_stage_set(with_dockerfile(d, c, dir, workspace, df, stages)),
{
    let context = match build_text(c, "context"@) {
        Some(x) => x,
        None => "."@,
    };
    let (d1, place) = rebased(d, dir, workspace, "build.context"@, context);
    let (d2, rel) = rebased(d1, dir, workspace, "build.dockerfile"@, df);
    lemma_rebased_only_notes(d, dir, workspace, "build.context"@, context);
    lemma_rebased_only_notes(d1, dir, workspace, "build.dockerfile"@, df);
    lemma_rebased_only_notes(d, dir, workspace, "build.dockerfile"@, df);
    let (d3, inside) = inside_context(d2, rel, place);
    assert(d3.sections == d.sections);
    let made = with_dockerfile(d, c, dir, workspace, df, stages);
    let e = EntryView::Value("build"@, Tree::Table(stageless_table(c, place, inside)));
    assert(made.sections == d3.entry(e).sections);
    lemma_stageless(c, place, inside);
    lemma_entered(d3, e);
}

/// An entry that is no build table with a stage, or one outside `dev`, sets no stage.
broadcast proof fn lemma_entered(d: DraftView, e: EntryView)
    requires
        no_stage_set(d),
        names_no_stage(e) || d.sections.len() == 0 || d.sections.last().path != seq!["dev"@],
    ensures
        no_stage_set(#[trigger] d.entry(e)),
        d.entry(e).sections.len() == d.sections.len(),
        d.sections.len() > 0 ==> d.entry(e).sections.last().path == d.sections.last().path,
{
    let made = d.entry(e);
    if d.sections.len() > 0 {
        let last = d.sections.last();
        assert(sets_no_stage(d.sections[d.sections.len() - 1]));
        assert forall|i: int| 0 <= i < made.sections.len() implies sets_no_stage(#[trigger] made.sections[i]) by {
            if i < d.sections.len() - 1 {
                assert(made.sections[i] == d.sections[i]);
            } else if last.path == seq!["dev"@] {
                assert(made.sections[i].entries == last.entries.push(e));
                assert forall|j: int| 0 <= j < made.sections[i].entries.len() implies names_no_stage(
                    #[trigger] made.sections[i].entries[j],
                ) by {
                    if j < last.entries.len() {
                        assert(made.sections[i].entries[j] == last.entries[j]);
                    }
                }
            }
        }
    }
}

/// A section that is begun sets no stage, but for `dev.build`.
broadcast proof fn lemma_sectioned(d: DraftView, path: Seq<Seq<char>>)
    requires
        no_stage_set(d),
        path != seq!["dev"@, "build"@],
    ensures
        no_stage_set(#[trigger] d.section(path)),
        d.section(path).sections.len() > 0,
        d.section(path).sections.last().path == path,
{
    let made = d.section(path);
    assert forall|i: int| 0 <= i < made.sections.len() implies sets_no_stage(#[trigger] made.sections[i]) by {
        if i < d.sections.len() {
            assert(made.sections[i] == d.sections[i]);
        }
    }
}

/// A section one table below `dev`, by a name of its own.
proof fn lemma_below_dev(name: Seq<char>)
    requires
        name != "build"@,
    ensures
        seq!["dev"@, name] != seq!["dev"@, "build"@],
        seq!["dev"@, name] != seq!["dev"@],
{
    assert(seq!["dev"@, name][1] == name);
    assert(seq!["dev"@, "build"@][1] == "build"@);
    assert(seq!["dev"@, name].len() == 2 && seq!["dev"@].len() == 1);
}

/// The names of the tables below `dev` that a translation writes.
proof fn lemma_table_names()
    ensures
        "exec-env"@ != "build"@,
        "container-env"@ != "build"@,
        "hooks"@ != "build"@,
        "host"@ != "build"@,
        "cache"@ != "build"@,
{
    reveal_strlit("build");
    reveal_strlit("exec-env");
    reveal_strlit("container-env");
    reveal_strlit("hooks");
    reveal_strlit("host");
    reveal_strlit("cache");
    assert("build"@.len() == 5 && "build"@[0] == 'b');
    assert("exec-env"@.len() == 8);
    assert("container-env"@.len() == 13);
    assert("hooks"@[0] == 'h');
    assert("host"@.len() == 4);
    assert("cache"@[0] == 'c');
}

proof fn lemma_rewritten_only_notes(d: DraftView, key: Seq<char>, s: Seq<char>, folder: Option<Seq<char>>)
    ensures
        rewritten(d, key, s, folder).0.sections == d.sections,
{
}

proof fn lemma_place_tables(d: DraftView, c: Config)
    requires
        no_stage_set(d),
    ensures
        no_stage_set(with_place(d, c)),
{
    broadcast use lemma_entered;

    if let Some(w) = c.workspace_folder {
        lemma_rewritten_only_notes(d, "workspaceFolder"@, w@, c.workspace_folder.deep_view());
        let (e, t) = rewritten(d, "workspaceFolder"@, w@, c.workspace_folder.deep_view());
        assert(no_stage_set(e));
    }
    let f = with_folder(d, c);
    assert(no_stage_set(f));
    let d1 = match c.remote_user {
        Some(u) => f.put("user"@, u@),
        None => f,
    };
    assert(no_stage_set(d1));
    let d2 = d1.put("freshness"@, "ask"@);
    assert(no_stage_set(d2));
    assert(with_place(d, c).sections == d2.sections);
}

proof fn lemma_machine_tables(d: DraftView, v: Option<Virtkit>)
    requires
        no_stage_set(d),
    ensures
        no_stage_set(with_machine(d, v)),
{
    broadcast use lemma_entered;

    if let Some(x) = v {
        let d1 = with_cpus(d, x.cpus.deep_view());
        assert(no_stage_set(d1));
        let d2 = match x.mem {
            Some(m) => d1.put("mem"@, m@),
            None => d1,
        };
        assert(no_stage_set(d2));
        let d3 = if x.profiles@.len() > 0 {
            d2.set("profiles"@, texts_tree(x.profiles.deep_view()))
        } else {
            d2
        };
        assert(no_stage_set(d3));
        assert(with_machine(d, v).sections == d3.sections);
    }
}

proof fn lemma_env_set_tables(
    d: DraftView,
    key: Seq<char>,
    env: Seq<(Seq<char>, Seq<char>)>,
    folder: Option<Seq<char>>,
    n: int,
)
    requires
        no_stage_set(d),
    ensures
        no_stage_set(env_set(d, key, env, folder, n)),
    decreases n,
{
    if n > 0 {
        let e = env_set(d, key, env, folder, n - 1);
        lemma_env_set_tables(d, key, env, folder, n - 1);
        lemma_rewritten_only_notes(e, key, env[n - 1].1, folder);
        let (f, t) = rewritten(e, key, env[n - 1].1, folder);
        assert(no_stage_set(f));
        lemma_entered(f, EntryView::Value(env[n - 1].0, Tree::Text(t)));
    }
}

proof fn lemma_env_tables(
    d: DraftView,
    key: Seq<char>,
    table: Seq<char>,
    env: Option<Seq<(Seq<char>, Seq<char>)>>,
    folder: Option<Seq<char>>,
)
    requires
        no_stage_set(d),
        table != "build"@,
    ensures
        no_stage_set(with_env(d, key, table, env, folder)),
{
    if env is Some && env->0.len() > 0 {
        lemma_below_dev(table);
        lemma_sectioned(d, seq!["dev"@, table]);
        lemma_env_set_tables(d.section(seq!["dev"@, table]), key, env->0, folder, env->0.len() as int);
    }
}

proof fn lemma_mount_tables(d: DraftView, taken: Seq<Seq<char>>, m: Mount, i: int, folder: Option<Seq<char>>)
    requires
        no_stage_set(d),
    ensures
        no_stage_set(with_mount(d, taken, m, i, folder).0),
{
    broadcast use lemma_entered;

    if let Ok(f) = fields_of(m) {
        lemma_rewritten_only_notes(d, mount_key(i), f.source, folder);
        let (d1, source) = rewritten(d, mount_key(i), f.source, folder);
        lemma_rewritten_only_notes(d1, mount_key(i), f.target, folder);
        let (d2, target) = rewritten(d1, mount_key(i), f.target, folder);
        assert(no_stage_set(d2));
        let path = seq!["dev"@, "mounts"@, told_apart(mount_name(f.target, i), taken, i)];
        assert(path.len() == 3 && seq!["dev"@, "build"@].len() == 2);
        lemma_sectioned(d2, path);
        let d3 = d2.section(path).put("source"@, source).put("to"@, target);
        assert(no_stage_set(d2.section(path).put("source"@, source)));
        assert(no_stage_set(d3));
        assert(no_stage_set(d3.set("read-only"@, Tree::Boolean(true))));
    }
}

proof fn lemma_mounts_tables(d: DraftView, v: Seq<Mount>, folder: Option<Seq<char>>, n: int)
    requires
        no_stage_set(d),
    ensures
        no_stage_set(mounts_upto(d, v, folder, n).0),
    decreases n,
{
    if n > 0 {
        lemma_mounts_tables(d, v, folder, n - 1);
        let (e, taken) = mounts_upto(d, v, folder, n - 1);
        lemma_mount_tables(e, taken, v[n - 1], n - 1, folder);
    }
}

proof fn lemma_port_tables(d: DraftView, taken: Seq<Seq<char>>, p: Port, i: int, compose: bool)
    requires
        no_stage_set(d),
    ensures
        no_stage_set(with_port(d, taken, p, i, compose).0),
{
    if let Ok((service, port)) = port_of(p) {
        let base = match service {
            Some(s) => s + "-"@ + decimal(port as nat),
            None => "port-"@ + decimal(port as nat),
        };
        let path = seq!["dev"@, "endpoints"@, told_apart(base, taken, i)];
        assert(path.len() == 3 && seq!["dev"@, "build"@].len() == 2);
        lemma_sectioned(d, path);
        let d1 = d.section(path);
        let d2 = match service {
            Some(s) => d1.put("service"@, s),
            None => d1,
        };
        if let Some(s) = service {
            lemma_entered(d1, EntryView::Value("service"@, Tree::Text(s)));
        }
        assert(no_stage_set(d2));
        let e = EntryView::Value("target"@, Tree::Integer(port as i64));
        lemma_entered(d2, e);
        assert(with_port(d, taken, p, i, compose).0.sections == d2.entry(e).sections);
    }
}

proof fn lemma_ports_tables(d: DraftView, v: Seq<Port>, compose: bool, n: int)
    requires
        no_stage_set(d),
    ensures
        no_stage_set(ports_upto(d, v, compose, n).0),
    decreases n,
{
    if n > 0 {
        lemma_ports_tables(d, v, compose, n - 1);
        let (e, taken) = ports_upto(d, v, compose, n - 1);
        lemma_port_tables(e, taken, v[n - 1], n - 1, compose);
    }
}

proof fn lemma_hook_tables(d: DraftView, key: Seq<char>, name: Seq<char>, l: Option<Lifecycle>)
    requires
        no_stage_set(d),
        d.sections.len() > 0,
        d.sections.last().path != seq!["dev"@],
    ensures
        no_stage_set(with_hook(d, key, name, l)),
        with_hook(d, key, name, l).sections.len() > 0,
        with_hook(d, key, name, l).sections.last().path == d.sections.last().path,
{
    if let Some(x) = l {
        lemma_entered(d, EntryView::Value(name, lifecycle_tree(x)));
    }
}

proof fn lemma_hooks_tables(d: DraftView, c: Config)
    requires
        no_stage_set(d),
    ensures
        no_stage_set(with_hooks(d, c)),
{
    lemma_table_names();
    lemma_below_dev("hooks"@);
    let d0 = d.section(seq!["dev"@, "hooks"@]);
    lemma_sectioned(d, seq!["dev"@, "hooks"@]);
    let d1 = with_hook(d0, "initializeCommand"@, "init"@, c.initialize_command);
    lemma_hook_tables(d0, "initializeCommand"@, "init"@, c.initialize_command);
    let d2 = with_hook(d1, "postCreateCommand"@, "create"@, c.post_create_command);
    lemma_hook_tables(d1, "postCreateCommand"@, "create"@, c.post_create_command);
    lemma_hook_tables(d2, "postStartCommand"@, "start"@, c.post_start_command);
}

proof fn lemma_notes_tables(d: DraftView, c: Config)
    ensures
        with_port_notes(d, c).sections == d.sections,
        with_command_notes(d, c).sections == d.sections,
        with_docker_notes(d, c).sections == d.sections,
{
}

proof fn lemma_being_tables(d: DraftView, c: Config)
    requires
        no_stage_set(d),
    ensures
        no_stage_set(with_being(d, c)),
{
    lemma_table_names();
    let folder = c.workspace_folder.deep_view();
    let p = with_place(d, c);
    lemma_place_tables(d, c);
    lemma_machine_tables(p, virtkit_of(c));
    let d1 = with_machine(p, virtkit_of(c));
    lemma_env_tables(d1, "remoteEnv"@, "exec-env"@, c.remote_env.deep_view(), folder);
    let d2 = with_env(d1, "remoteEnv"@, "exec-env"@, c.remote_env.deep_view(), folder);
    lemma_env_tables(d2, "containerEnv"@, "container-env"@, c.container_env.deep_view(), folder);
    let d3 = with_env(d2, "containerEnv"@, "container-env"@, c.container_env.deep_view(), folder);
    if let Some(m) = c.mounts {
        lemma_mounts_tables(d3, m@, folder, m@.len() as int);
    }
    let d4 = match c.mounts {
        Some(m) => omitted_if(mounts_upto(d3, m@, folder, m@.len() as int).0, m@.len() == 0, "mounts"@, "empty"@),
        None => d3,
    };
    assert(no_stage_set(d4));
    if let Some(f) = c.forward_ports {
        lemma_ports_tables(d4, f@, has_compose(c), f@.len() as int);
    }
    let d5 = match c.forward_ports {
        Some(f) => omitted_if(
            ports_upto(d4, f@, has_compose(c), f@.len() as int).0,
            f@.len() == 0,
            "forwardPorts"@,
            "empty"@,
        ),
        None => d4,
    };
    assert(no_stage_set(d5));
    lemma_notes_tables(d5, c);
    let d6 = with_port_notes(d5, c);
    assert(no_stage_set(d6));
    lemma_hooks_tables(d6, c);
    let d7 = with_hooks(d6, c);
    lemma_notes_tables(d7, c);
    lemma_notes_tables(with_command_notes(d7, c), c);
}

proof fn lemma_settings_tables(d: DraftView, o: Seq<(Seq<char>, JsonTree)>, n: int)
    requires
        no_stage_set(d),
        d.sections.len() > 0,
        d.sections.last().path != seq!["dev"@],
    ensures
        no_stage_set(settings_upto(d, o, n).0),
        settings_upto(d, o, n).0.sections.len() > 0,
        settings_upto(d, o, n).0.sections.last().path == d.sections.last().path,
    decreases n,
{
    if n > 0 {
        lemma_settings_tables(d, o, n - 1);
        let e = settings_upto(d, o, n - 1).0;
        if let Some(t) = toml_of_json(o[n - 1].1) {
            lemma_entered(e, EntryView::Value(o[n - 1].0, t));
        }
    }
}

proof fn lemma_other_keys_only_note(d: DraftView, vs: Seq<(Seq<char>, JsonTree)>, n: int)
    ensures
        with_other_keys(d, vs, n).sections == d.sections,
        with_other_tools(d, vs, n).sections == d.sections,
    decreases n,
{
    if n > 0 {
        lemma_other_keys_only_note(d, vs, n - 1);
    }
}

proof fn lemma_editor_tables(d: DraftView, others: Seq<(Seq<char>, JsonTree)>)
    requires
        no_stage_set(d),
    ensures
        no_stage_set(with_editor(d, others)),
{
    let e = match entry(others, "vscode"@) {
        Some(JsonTree::Object(vs)) => {
            let path = seq!["dev"@, "editor"@, "vscode"@];
            assert(path.len() == 3 && seq!["dev"@, "build"@].len() == 2 && seq!["dev"@].len() == 1);
            lemma_sectioned(d, path);
            lemma_entered(d.section(path), EntryView::Value("state"@, Tree::Text("persistent"@)));
            let d0 = d.section(path).put("state"@, "persistent"@);
            let d1 = with_extensions(d0, vs);
            if let Some(JsonTree::Array(a)) = entry(vs, "extensions"@) {
                lemma_entered(d0, EntryView::Value("extensions"@, texts_tree(texts_among(a, a.len() as int))));
            }
            assert(no_stage_set(d1));
            let d2 = with_settings(d1, vs);
            if let Some(JsonTree::Object(o)) = entry(vs, "settings"@) {
                assert(settings_path().len() == 4);
                lemma_sectioned(d1, settings_path());
                lemma_settings_tables(d1.section(settings_path()), o, o.len() as int);
            }
            assert(no_stage_set(d2));
            lemma_other_keys_only_note(d2, vs, vs.len() as int);
            with_other_keys(d2, vs, vs.len() as int)
        },
        Some(v) => d.action("customizations.vscode"@, json_shown(v) + ": expected an object"@),
        None => d,
    };
    assert(no_stage_set(e));
    lemma_other_keys_only_note(e, others, others.len() as int);
}

proof fn lemma_host_tables(d: DraftView, v: Option<Virtkit>, dir: Seq<u8>, workspace: Seq<u8>)
    requires
        no_stage_set(d),
    ensures
        no_stage_set(with_host(d, v, dir, workspace)),
{
    broadcast use lemma_entered;

    lemma_table_names();
    lemma_below_dev("host"@);
    lemma_below_dev("cache"@);
    if let Some(x) = v {
        let d1 = match x.host_exec {
            Some(h) => {
                let key = "customizations.virtkit.hostExec.wrapper"@;
                let (e, rel) = rebased(d, dir, workspace, key, h.wrapper@);
                lemma_rebased_only_notes(d, dir, workspace, key, h.wrapper@);
                assert(no_stage_set(e));
                lemma_sectioned(e, seq!["dev"@, "host"@]);
                let f = e.section(seq!["dev"@, "host"@]).put("wrapper"@, rel);
                assert(no_stage_set(f));
                let g = if h.env@.len() > 0 {
                    f.set("wrapper-env"@, texts_tree(h.env.deep_view()))
                } else {
                    f
                };
                assert(no_stage_set(g));
                g.translated("customizations.virtkit.hostExec"@, "as `host.wrapper`"@).action(
                    "host.wrapper"@,
                    "if the wrapper only launches Git GUIs, `git-gui = true` replaces it"@,
                )
            },
            None => d,
        };
        assert(no_stage_set(d1));
        if let Some(y) = x.cache {
            lemma_sectioned(d1, seq!["dev"@, "cache"@]);
            let e = d1.section(seq!["dev"@, "cache"@]);
            let f = match y.registry {
                Some(r) => e.put("registry"@, r@),
                None => e,
            };
            assert(no_stage_set(f));
            assert(no_stage_set(f.set("insecure"@, Tree::Boolean(true))));
        }
    }
}

proof fn lemma_begun(config_path: Seq<u8>, workspace: Seq<u8>)
    ensures
        begun(config_path, workspace).items.len() == 0,
        begun(config_path, workspace).sections.len() == 2,
        no_stage_set(begun(config_path, workspace)),
{
    reveal_strlit("dev");
    reveal_strlit("requires");
    let d = begun(config_path, workspace);
    assert("dev"@.len() == 3 && "requires"@.len() == 8);
    assert(seq!["requires"@][0] != seq!["dev"@][0]);
    assert(seq!["requires"@].len() == 1 && seq!["dev"@].len() == 1 && seq!["dev"@, "build"@].len() == 2);
    assert(d.sections[0].path == seq!["requires"@]);
    assert(d.sections[1].path == seq!["dev"@]);
    assert(d.sections[1].entries.len() == 0);
}

/// Nothing is said of the stage of an escaping Dockerfile, and `dev.build` has no `target`.
pub proof fn law_outside_dockerfile_has_no_stage(
    c: Config,
    config_path: Seq<u8>,
    workspace: Seq<u8>,
    stages: Option<Seq<Seq<char>>>,
)
    requires
        !has_compose(c),
        c.image is None,
        build_text(c, "target"@) is None,
        dockerfile_of(c) is Some,
        points_outside(config_dir(config_path), workspace, dockerfile_of(c)->0),
    ensures
        unstaged(translated(c, config_path, workspace, stages).items),
        no_stage_set(translated(c, config_path, workspace, stages)),
{
    broadcast use lemma_noted;

    let dir = config_dir(config_path);
    let df = dockerfile_of(c)->0;
    let d0 = begun(config_path, workspace);
    let d1 = with_service(d0, c);
    lemma_begun(config_path, workspace);
    lemma_source_keys();
    assert(unstaged(d1.items));
    lemma_kept_absolute(d1, dir, workspace, "build.dockerfile"@, df);
    lemma_dockerfile(d1, c, dir, workspace, df, stages);
    lemma_table(d1, c, dir, workspace, df, stages);
    let made = with_dockerfile(d1, c, dir, workspace, df, stages);
    assert(with_source(d0, c, dir, workspace, stages) == made);
    let d2 = with_being(made, c);
    lemma_being(made, c);
    lemma_being_tables(made, c);
    let d3 = match c.customizations {
        Some(x) => with_editor(d2, x.others.deep_view()),
        None => d2,
    };
    if let Some(x) = c.customizations {
        lemma_editor(d2, x.others.deep_view());
        lemma_editor_tables(d2, x.others.deep_view());
    }
    lemma_host(d3, virtkit_of(c), dir, workspace);
    lemma_host_tables(d3, virtkit_of(c), dir, workspace);
}

} // verus!
