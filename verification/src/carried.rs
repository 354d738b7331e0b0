//! What a translation owes its reader: every known key of a devcontainer file is either carried
//! into the draft or reported.

use crate::devcontainer::{fields_of, rewritten, Config, Mount, Port, Virtkit};
use crate::draft::{DraftView, Fate, ItemView};
use crate::entries::entry;
use crate::path::{is_abs, joined_path, normal, relative_to, text_of_bytes};
use crate::text::{contains, decimal, digit_of, replaced};
use crate::translate::{
    begun, build_text, config_dir, dockerfile_asked, dockerfile_of, env_set, has_compose, inside_context,
    mount_name, mounts_upto, omitted_if, port_of, ports_upto, rebased, rebased_upto, settings_upto, taken_with,
    told_apart, translated, virtkit_of, with_being, with_build, with_command_notes, with_compose, with_cpus,
    with_docker_notes, with_dockerfile, with_editor, with_env, with_extensions, with_folder, with_hooks,
    with_host, with_image, with_machine, with_mount, with_other_keys, with_other_tools, with_place, with_port,
    with_port_notes, with_service, with_settings, with_source,
};
use crate::value::JsonTree;
use vstd::prelude::*;
use vstd::utf8::{decode_utf8_encode_utf8, encode_utf8};

verus! {

/// The report has an item under that key.
pub open spec fn told(items: Seq<ItemView>, key: Seq<char>) -> bool {
    exists|i: int| 0 <= i < items.len() && (#[trigger] items[i]).key == key
}

/// Something essential is missing, the report says.
pub open spec fn lacking(items: Seq<ItemView>) -> bool {
    exists|i: int| 0 <= i < items.len() && (#[trigger] items[i]).fate == Fate::Action { essential: true }
}

/// The report asks for something to be done under that key.
pub open spec fn acted(items: Seq<ItemView>, key: Seq<char>) -> bool {
    exists|i: int| 0 <= i < items.len() && (#[trigger] items[i]).key == key && items[i].fate is Action
}

/// Every key one report tells of or asks something under, the other does too, and what is
/// essential to one is to the other.
spec fn keeps(a: Seq<ItemView>, b: Seq<ItemView>) -> bool {
    &&& forall|key: Seq<char>|
        #![trigger told(a, key)]
        #![trigger told(b, key)]
        told(a, key) ==> told(b, key)
    &&& forall|key: Seq<char>|
        #![trigger acted(a, key)]
        #![trigger acted(b, key)]
        acted(a, key) ==> acted(b, key)
    &&& lacking(a) ==> lacking(b)
}

broadcast proof fn lemma_push(items: Seq<ItemView>, x: ItemView)
    ensures
        #![trigger items.push(x)]
        keeps(items, items.push(x)),
        told(items.push(x), x.key),
        x.fate is Action ==> acted(items.push(x), x.key),
        x.fate == (Fate::Action { essential: true }) ==> lacking(items.push(x)),
{
    let now = items.push(x);
    assert(now[items.len() as int] == x);
    assert forall|key: Seq<char>| told(items, key) implies told(now, key) by {
        let i = choose|i: int| 0 <= i < items.len() && (#[trigger] items[i]).key == key;
        assert(now[i] == items[i]);
    }
    assert forall|key: Seq<char>| acted(items, key) implies acted(now, key) by {
        let i = choose|i: int| 0 <= i < items.len() && (#[trigger] items[i]).key == key && items[i].fate is Action;
        assert(now[i] == items[i]);
    }
    if lacking(items) {
        let i = choose|i: int|
            0 <= i < items.len() && (#[trigger] items[i]).fate == Fate::Action { essential: true };
        assert(now[i] == items[i]);
    }
}

proof fn lemma_rebased(d: DraftView, dir: Seq<u8>, workspace: Seq<u8>, key: Seq<char>, p: Seq<char>)
    ensures
        keeps(d.items, rebased(d, dir, workspace, key, p).0.items),
{
    broadcast use lemma_push;

}

proof fn lemma_rebased_upto(d: DraftView, dir: Seq<u8>, workspace: Seq<u8>, files: Seq<Seq<char>>, n: int)
    ensures
        keeps(d.items, rebased_upto(d, dir, workspace, files, n).0.items),
    decreases n,
{
    broadcast use lemma_push;

    if n > 0 {
        lemma_rebased_upto(d, dir, workspace, files, n - 1);
        lemma_rebased(
            rebased_upto(d, dir, workspace, files, n - 1).0,
            dir,
            workspace,
            "dockerComposeFile"@,
            files[n - 1],
        );
    }
}

proof fn lemma_rewritten(d: DraftView, key: Seq<char>, s: Seq<char>, folder: Option<Seq<char>>)
    ensures
        keeps(d.items, rewritten(d, key, s, folder).0.items),
{
    broadcast use lemma_push;

}

proof fn lemma_compose(d: DraftView, c: Config, dir: Seq<u8>, workspace: Seq<u8>)
    ensures
        keeps(d.items, with_compose(d, c, dir, workspace).items),
        has_compose(c) ==> told(with_compose(d, c, dir, workspace).items, "compose"@) || told(
            with_compose(d, c, dir, workspace).items,
            "dockerComposeFile"@,
        ),
        (crate::translate::own_compose(c) is None && c.docker_compose_file matches Some(
            crate::devcontainer::OneOrMany::Many(_),
        )) ==> lacking(with_compose(d, c, dir, workspace).items),
{
    broadcast use lemma_push;

    match (crate::translate::own_compose(c), c.docker_compose_file) {
        (Some(vm), _) => lemma_rebased(d, dir, workspace, "customizations.virtkit.dockerComposeFile"@, vm),
        (None, Some(crate::devcontainer::OneOrMany::One(f))) => lemma_rebased(
            d,
            dir,
            workspace,
            "dockerComposeFile"@,
            f@,
        ),
        (None, Some(crate::devcontainer::OneOrMany::Many(f))) => lemma_rebased_upto(
            d,
            dir,
            workspace,
            f.deep_view(),
            f@.len() as int,
        ),
        (None, None) => {},
    }
}

proof fn lemma_service(d: DraftView, c: Config)
    ensures
        keeps(d.items, with_service(d, c).items),
        has_compose(c) || crate::translate::service_of(c) is Some ==> told(with_service(d, c).items, "service"@),
        c.run_services is Some ==> told(with_service(d, c).items, "runServices"@),
        has_compose(c) && crate::translate::service_of(c) is None ==> lacking(with_service(d, c).items),
{
    broadcast use lemma_push;

}

proof fn lemma_image(d: DraftView, c: Config)
    ensures
        keeps(d.items, with_image(d, c).items),
        c.image is Some ==> told(with_image(d, c).items, "image"@),
{
    broadcast use lemma_push;

}

proof fn lemma_dockerfile(
    d: DraftView,
    c: Config,
    dir: Seq<u8>,
    workspace: Seq<u8>,
    df: Seq<char>,
    stages: Option<Seq<Seq<char>>>,
)
    ensures
        keeps(d.items, with_dockerfile(d, c, dir, workspace, df, stages).items),
        told(with_dockerfile(d, c, dir, workspace, df, stages).items, "build"@),
{
    broadcast use lemma_push;

    let context = match crate::translate::build_text(c, "context"@) {
        Some(x) => x,
        None => "."@,
    };
    lemma_rebased(d, dir, workspace, "build.context"@, context);
    let (d1, at) = rebased(d, dir, workspace, "build.context"@, context);
    lemma_rebased(d1, dir, workspace, "build.dockerfile"@, df);
    let (d2, rel) = rebased(d1, dir, workspace, "build.dockerfile"@, df);
    let (d3, inside) = inside_context(d2, rel, at);
    assert(keeps(d2.items, d3.items));
}

proof fn lemma_build(
    d: DraftView,
    c: Config,
    dir: Seq<u8>,
    workspace: Seq<u8>,
    stages: Option<Seq<Seq<char>>>,
)
    ensures
        keeps(d.items, with_build(d, c, dir, workspace, stages).items),
        c.build is Some || dockerfile_of(c) is Some ==> told(
            with_build(d, c, dir, workspace, stages).items,
            "build"@,
        ),
        !has_compose(c) && c.image is None && dockerfile_of(c) is None ==> told(
            with_build(d, c, dir, workspace, stages).items,
            "source"@,
        ) && lacking(with_build(d, c, dir, workspace, stages).items),
{
    broadcast use lemma_push;

    if let Some(df) = dockerfile_of(c) {
        lemma_dockerfile(d, c, dir, workspace, df, stages);
    }
}

/// What stands for the environment's source is told.
pub open spec fn source_told(c: Config, r: Seq<ItemView>) -> bool {
    &&& has_compose(c) ==> told(r, "compose"@) || told(r, "dockerComposeFile"@)
    &&& has_compose(c) || crate::translate::service_of(c) is Some ==> told(r, "service"@)
    &&& c.run_services is Some ==> told(r, "runServices"@)
    &&& c.image is Some ==> told(r, "image"@)
    &&& c.build is Some || dockerfile_of(c) is Some ==> told(r, "build"@)
    &&& !has_compose(c) && c.image is None && dockerfile_of(c) is None ==> told(r, "source"@)
}

proof fn lemma_source(
    d: DraftView,
    c: Config,
    dir: Seq<u8>,
    workspace: Seq<u8>,
    stages: Option<Seq<Seq<char>>>,
)
    ensures
        keeps(d.items, with_source(d, c, dir, workspace, stages).items),
        source_told(c, with_source(d, c, dir, workspace, stages).items),
{
    broadcast use lemma_push;

    let d1 = with_compose(d, c, dir, workspace);
    let d2 = with_service(d1, c);
    let d3 = with_image(d2, c);
    lemma_compose(d, c, dir, workspace);
    lemma_service(d1, c);
    lemma_image(d2, c);
    lemma_build(d3, c, dir, workspace, stages);
}

/// Where and who one is inside is told.
pub open spec fn place_told(c: Config, r: Seq<ItemView>) -> bool {
    &&& c.workspace_folder is Some ==> told(r, "workspaceFolder"@)
    &&& c.workspace_mount ==> told(r, "workspaceMount"@)
    &&& c.remote_user is Some ==> told(r, "remoteUser"@)
    &&& c.container_user ==> told(r, "containerUser"@)
    &&& c.update_remote_user_uid ==> told(r, "updateRemoteUserUID"@)
}

proof fn lemma_place(d: DraftView, c: Config)
    ensures
        keeps(d.items, with_place(d, c).items),
        place_told(c, with_place(d, c).items),
{
    broadcast use lemma_push;

    if let Some(w) = c.workspace_folder {
        lemma_rewritten(d, "workspaceFolder"@, w@, c.workspace_folder.deep_view());
    }
    let f = with_folder(d, c);
    assert(keeps(d.items, f.items));
    assert(c.workspace_folder is Some ==> told(f.items, "workspaceFolder"@));
}

/// What the file says for `vk` of the machine is told.
pub open spec fn machine_told(v: Virtkit, r: Seq<ItemView>) -> bool {
    &&& v.cpus is Some ==> told(r, "customizations.virtkit.cpus"@)
    &&& v.mem is Some ==> told(r, "customizations.virtkit.mem"@)
    &&& v.profiles@.len() > 0 ==> told(r, "customizations.virtkit.profiles"@)
    &&& v.state_dir is Some ==> told(r, "customizations.virtkit.stateDir"@)
    &&& v.git_worktree_mount ==> told(r, "customizations.virtkit.gitWorktreeMount"@)
    &&& v.local_user_build_args is Some ==> told(r, "customizations.virtkit.localUserBuildArgs"@)
}

proof fn lemma_machine(d: DraftView, v: Option<Virtkit>)
    ensures
        keeps(d.items, with_machine(d, v).items),
        v matches Some(x) ==> machine_told(x, with_machine(d, v).items),
{
    broadcast use lemma_push;

    if let Some(x) = v {
        let d1 = with_cpus(d, x.cpus.deep_view());
        assert(keeps(d.items, d1.items));
        assert(x.cpus is Some ==> told(d1.items, "customizations.virtkit.cpus"@));
    }
}

proof fn lemma_env_set(
    d: DraftView,
    key: Seq<char>,
    env: Seq<(Seq<char>, Seq<char>)>,
    folder: Option<Seq<char>>,
    n: int,
)
    ensures
        keeps(d.items, env_set(d, key, env, folder, n).items),
    decreases n,
{
    broadcast use lemma_push;

    if n > 0 {
        lemma_env_set(d, key, env, folder, n - 1);
        lemma_rewritten(env_set(d, key, env, folder, n - 1), key, env[n - 1].1, folder);
    }
}

proof fn lemma_env(
    d: DraftView,
    key: Seq<char>,
    table: Seq<char>,
    env: Option<Seq<(Seq<char>, Seq<char>)>>,
    folder: Option<Seq<char>>,
)
    ensures
        keeps(d.items, with_env(d, key, table, env, folder).items),
        env is Some ==> told(with_env(d, key, table, env, folder).items, key),
{
    broadcast use lemma_push;

    if env is Some && env->0.len() > 0 {
        lemma_env_set(d.section(seq!["dev"@, table]), key, env->0, folder, env->0.len() as int);
    }
}

/// The key of the `i`th mount.
pub open spec fn mount_key(i: int) -> Seq<char> {
    "mounts["@ + decimal(i as nat) + "]"@
}

proof fn lemma_mount(d: DraftView, taken: Seq<Seq<char>>, m: Mount, i: int, folder: Option<Seq<char>>)
    ensures
        keeps(d.items, with_mount(d, taken, m, i, folder).0.items),
        told(with_mount(d, taken, m, i, folder).0.items, mount_key(i)),
{
    broadcast use lemma_push;

    if let Ok(f) = crate::devcontainer::fields_of(m) {
        lemma_rewritten(d, mount_key(i), f.source, folder);
        let d1 = rewritten(d, mount_key(i), f.source, folder).0;
        lemma_rewritten(d1, mount_key(i), f.target, folder);
    }
}

proof fn lemma_mounts(d: DraftView, v: Seq<Mount>, folder: Option<Seq<char>>, n: int)
    ensures
        keeps(d.items, mounts_upto(d, v, folder, n).0.items),
        forall|i: int| 0 <= i < n ==> told(mounts_upto(d, v, folder, n).0.items, #[trigger] mount_key(i)),
    decreases n,
{
    if n > 0 {
        lemma_mounts(d, v, folder, n - 1);
        let (e, taken) = mounts_upto(d, v, folder, n - 1);
        lemma_mount(e, taken, v[n - 1], n - 1, folder);
        let now = mounts_upto(d, v, folder, n).0.items;
        assert(now == with_mount(e, taken, v[n - 1], n - 1, folder).0.items);
        assert forall|i: int| 0 <= i < n implies told(now, #[trigger] mount_key(i)) by {
            if i < n - 1 {
                assert(told(e.items, mount_key(i)));
            }
        }
    }
}

proof fn lemma_port(d: DraftView, taken: Seq<Seq<char>>, p: Port, i: int, compose: bool)
    ensures
        keeps(d.items, with_port(d, taken, p, i, compose).0.items),
        told(with_port(d, taken, p, i, compose).0.items, "forwardPorts"@),
{
    broadcast use lemma_push;

}

proof fn lemma_ports(d: DraftView, v: Seq<Port>, compose: bool, n: int)
    ensures
        keeps(d.items, ports_upto(d, v, compose, n).0.items),
        n > 0 ==> told(ports_upto(d, v, compose, n).0.items, "forwardPorts"@),
    decreases n,
{
    broadcast use lemma_push;

    if n > 0 {
        lemma_ports(d, v, compose, n - 1);
        let (e, taken) = ports_upto(d, v, compose, n - 1);
        lemma_port(e, taken, v[n - 1], n - 1, compose);
    }
}

/// What the file says of ports besides forwarding them is told.
pub open spec fn port_notes_told(c: Config, r: Seq<ItemView>) -> bool {
    &&& c.app_port ==> told(r, "appPort"@)
    &&& c.ports_attributes ==> told(r, "portsAttributes"@)
    &&& c.other_ports_attributes ==> told(r, "otherPortsAttributes"@)
}

proof fn lemma_port_notes(d: DraftView, c: Config)
    ensures
        keeps(d.items, with_port_notes(d, c).items),
        port_notes_told(c, with_port_notes(d, c).items),
{
    broadcast use lemma_push;

}

/// The lifecycle commands are told.
pub open spec fn commands_told(c: Config, r: Seq<ItemView>) -> bool {
    &&& c.initialize_command is Some ==> told(r, "initializeCommand"@)
    &&& c.post_create_command is Some ==> told(r, "postCreateCommand"@)
    &&& c.post_start_command is Some ==> told(r, "postStartCommand"@)
    &&& c.on_create_command ==> told(r, "onCreateCommand"@)
    &&& c.update_content_command ==> told(r, "updateContentCommand"@)
    &&& c.post_attach_command ==> told(r, "postAttachCommand"@)
    &&& c.wait_for ==> told(r, "waitFor"@)
    &&& c.features ==> told(r, "features"@)
    &&& c.override_command ==> told(r, "overrideCommand"@)
    &&& c.host_requirements ==> told(r, "hostRequirements"@)
}

proof fn lemma_hooks(d: DraftView, c: Config)
    ensures
        keeps(d.items, with_hooks(d, c).items),
        c.initialize_command is Some ==> told(with_hooks(d, c).items, "initializeCommand"@),
        c.post_create_command is Some ==> told(with_hooks(d, c).items, "postCreateCommand"@),
        c.post_start_command is Some ==> told(with_hooks(d, c).items, "postStartCommand"@),
{
    broadcast use lemma_push;

}

proof fn lemma_commands(d: DraftView, c: Config)
    ensures
        keeps(d.items, with_command_notes(with_hooks(d, c), c).items),
        commands_told(c, with_command_notes(with_hooks(d, c), c).items),
        c.features ==> lacking(with_command_notes(with_hooks(d, c), c).items),
{
    broadcast use lemma_push;

    lemma_hooks(d, c);
}

/// What the file says to docker alone is told.
pub open spec fn docker_told(c: Config, r: Seq<ItemView>) -> bool {
    &&& c.shutdown_action ==> told(r, "shutdownAction"@)
    &&& c.privileged ==> told(r, "privileged"@)
    &&& c.init ==> told(r, "init"@)
    &&& c.cap_add ==> told(r, "capAdd"@)
    &&& c.security_opt ==> told(r, "securityOpt"@)
    &&& c.user_env_probe ==> told(r, "userEnvProbe"@)
    &&& c.run_args ==> told(r, "runArgs"@)
    &&& c.name is Some ==> told(r, "name"@)
    &&& c.schema is Some ==> told(r, "$schema"@)
    &&& crate::translate::spare_dockerfile(c) ==> told(r, "dockerFile"@)
}

proof fn lemma_docker(d: DraftView, c: Config)
    ensures
        keeps(d.items, with_docker_notes(d, c).items),
        docker_told(c, with_docker_notes(d, c).items),
{
    broadcast use lemma_push;

}

/// The environments, the mounts and the ports are told.
pub open spec fn lists_told(c: Config, r: Seq<ItemView>) -> bool {
    &&& c.remote_env is Some ==> told(r, "remoteEnv"@)
    &&& c.container_env is Some ==> told(r, "containerEnv"@)
    &&& c.mounts matches Some(m) ==> {
        &&& forall|i: int| 0 <= i < m@.len() ==> told(r, #[trigger] mount_key(i))
        &&& m@.len() == 0 ==> told(r, "mounts"@)
    }
    &&& c.forward_ports is Some ==> told(r, "forwardPorts"@)
}

/// How one is in the environment is told.
pub open spec fn being_told(c: Config, r: Seq<ItemView>) -> bool {
    &&& place_told(c, r)
    &&& virtkit_of(c) matches Some(v) ==> machine_told(v, r)
    &&& lists_told(c, r)
    &&& port_notes_told(c, r)
    &&& commands_told(c, r)
    &&& docker_told(c, r)
}

proof fn lemma_being(d: DraftView, c: Config)
    ensures
        keeps(d.items, with_being(d, c).items),
        being_told(c, with_being(d, c).items),
        c.features ==> lacking(with_being(d, c).items),
{
    broadcast use lemma_push;

    let folder = c.workspace_folder.deep_view();
    let p = with_place(d, c);
    lemma_place(d, c);
    lemma_machine(p, virtkit_of(c));
    let d1 = with_machine(p, virtkit_of(c));
    assert(c.remote_env matches Some(e) ==> c.remote_env.deep_view()->0.len() == e@.len());
    assert(c.container_env matches Some(e) ==> c.container_env.deep_view()->0.len() == e@.len());
    lemma_env(d1, "remoteEnv"@, "exec-env"@, c.remote_env.deep_view(), folder);
    let d2 = with_env(d1, "remoteEnv"@, "exec-env"@, c.remote_env.deep_view(), folder);
    lemma_env(d2, "containerEnv"@, "container-env"@, c.container_env.deep_view(), folder);
    let d3 = with_env(d2, "containerEnv"@, "container-env"@, c.container_env.deep_view(), folder);
    if let Some(m) = c.mounts {
        lemma_mounts(d3, m@, folder, m@.len() as int);
    }
    let d4 = match c.mounts {
        Some(m) => omitted_if(mounts_upto(d3, m@, folder, m@.len() as int).0, m@.len() == 0, "mounts"@, "empty"@),
        None => d3,
    };
    if let Some(f) = c.forward_ports {
        lemma_ports(d4, f@, has_compose(c), f@.len() as int);
    }
    let d5 = match c.forward_ports {
        Some(f) => omitted_if(
            ports_upto(d4, f@, has_compose(c), f@.len() as int).0,
            f@.len() == 0,
            "forwardPorts"@,
            "empty"@,
        ),
        None => d4,
    };
    lemma_port_notes(d5, c);
    let d6 = with_port_notes(d5, c);
    lemma_commands(d6, c);
    let d7 = with_command_notes(with_hooks(d6, c), c);
    lemma_docker(d7, c);
    let r = with_being(d, c).items;
    assert(r == with_docker_notes(d7, c).items);
    assert(keeps(d1.items, r));
    assert(keeps(d3.items, r));
    assert(keeps(d4.items, r));
    assert(keeps(d5.items, r));
}

/// What the file says for VS Code is told: its extensions, its settings, and every other key.
pub open spec fn vscode_told(vs: Seq<(Seq<char>, JsonTree)>, r: Seq<ItemView>) -> bool {
    &&& entry(vs, "extensions"@) is Some ==> told(r, "customizations.vscode.extensions"@)
    &&& entry(vs, "settings"@) is Some ==> told(r, "customizations.vscode.settings"@)
    &&& forall|i: int|
        0 <= i < vs.len() && (#[trigger] vs[i]).0 != "extensions"@ && vs[i].0 != "settings"@ ==> told(
            r,
            "customizations.vscode."@ + vs[i].0,
        )
}

/// What the file says for other tools is told.
pub open spec fn tools_told(others: Seq<(Seq<char>, JsonTree)>, r: Seq<ItemView>) -> bool {
    &&& match entry(others, "vscode"@) {
        Some(JsonTree::Object(vs)) => vscode_told(vs, r),
        Some(_) => told(r, "customizations.vscode"@),
        None => true,
    }
    &&& forall|i: int|
        0 <= i < others.len() && (#[trigger] others[i]).0 != "vscode"@ ==> told(r, "customizations."@ + others[i].0)
}

proof fn lemma_settings_upto(d: DraftView, o: Seq<(Seq<char>, JsonTree)>, n: int)
    ensures
        keeps(d.items, settings_upto(d, o, n).0.items),
    decreases n,
{
    broadcast use lemma_push;

    if n > 0 {
        lemma_settings_upto(d, o, n - 1);
    }
}

proof fn lemma_other_keys(d: DraftView, vs: Seq<(Seq<char>, JsonTree)>, n: int)
    requires
        n <= vs.len(),
    ensures
        keeps(d.items, with_other_keys(d, vs, n).items),
        forall|i: int|
            0 <= i < n && (#[trigger] vs[i]).0 != "extensions"@ && vs[i].0 != "settings"@ ==> told(
                with_other_keys(d, vs, n).items,
                "customizations.vscode."@ + vs[i].0,
            ),
    decreases n,
{
    broadcast use lemma_push;

    if n > 0 {
        lemma_other_keys(d, vs, n - 1);
    }
}

proof fn lemma_other_tools(d: DraftView, others: Seq<(Seq<char>, JsonTree)>, n: int)
    requires
        n <= others.len(),
    ensures
        keeps(d.items, with_other_tools(d, others, n).items),
        forall|i: int|
            0 <= i < n && (#[trigger] others[i]).0 != "vscode"@ ==> told(
                with_other_tools(d, others, n).items,
                "customizations."@ + others[i].0,
            ),
    decreases n,
{
    broadcast use lemma_push;

    if n > 0 {
        lemma_other_tools(d, others, n - 1);
    }
}

proof fn lemma_editor(d: DraftView, others: Seq<(Seq<char>, JsonTree)>)
    ensures
        keeps(d.items, with_editor(d, others).items),
        tools_told(others, with_editor(d, others).items),
{
    broadcast use lemma_push;

    let e = match entry(others, "vscode"@) {
        Some(JsonTree::Object(vs)) => {
            let d0 = d.section(seq!["dev"@, "editor"@, "vscode"@]).put("state"@, "persistent"@);
            let d1 = with_extensions(d0, vs);
            let d2 = with_settings(d1, vs);
            if let Some(JsonTree::Object(o)) = entry(vs, "settings"@) {
                lemma_settings_upto(d1.section(crate::translate::settings_path()), o, o.len() as int);
            }
            assert(keeps(d.items, d1.items));
            assert(keeps(d1.items, d2.items));
            lemma_other_keys(d2, vs, vs.len() as int);
            let d3 = with_other_keys(d2, vs, vs.len() as int);
            assert(vscode_told(vs, d3.items));
            d3
        },
        Some(v) => d.action("customizations.vscode"@, crate::value::json_shown(v) + ": expected an object"@),
        None => d,
    };
    lemma_other_tools(e, others, others.len() as int);
    let r = with_other_tools(e, others, others.len() as int).items;
    if let Some(JsonTree::Object(vs)) = entry(others, "vscode"@) {
        assert(vscode_told(vs, e.items));
        assert forall|i: int|
            0 <= i < vs.len() && (#[trigger] vs[i]).0 != "extensions"@ && vs[i].0 != "settings"@ implies told(
            r,
            "customizations.vscode."@ + vs[i].0,
        ) by {
            assert(told(e.items, "customizations.vscode."@ + vs[i].0));
        }
        assert(vscode_told(vs, r));
    }
}

/// What the file says for `vk` of the host and the cache is told.
pub open spec fn host_told(v: Virtkit, r: Seq<ItemView>) -> bool {
    &&& v.host_exec is Some ==> told(r, "customizations.virtkit.hostExec"@)
    &&& v.cache is Some ==> told(r, "customizations.virtkit.cache"@)
}

proof fn lemma_host(d: DraftView, v: Option<Virtkit>, dir: Seq<u8>, workspace: Seq<u8>)
    ensures
        keeps(d.items, with_host(d, v, dir, workspace).items),
        v matches Some(x) ==> host_told(x, with_host(d, v, dir, workspace).items),
{
    broadcast use lemma_push;

    if let Some(x) = v {
        if let Some(h) = x.host_exec {
            lemma_rebased(d, dir, workspace, "customizations.virtkit.hostExec.wrapper"@, h.wrapper@);
        }
    }
}

/// Every known key of a devcontainer file is either carried into the draft or reported: the
/// report has an item for it.
pub proof fn law_every_key_is_accounted_for(
    c: Config,
    config_path: Seq<u8>,
    workspace: Seq<u8>,
    stages: Option<Seq<Seq<char>>>,
)
    ensures
        ({
            let r = translated(c, config_path, workspace, stages).items;
            &&& source_told(c, r)
            &&& being_told(c, r)
            &&& c.customizations matches Some(x) ==> tools_told(x.others.deep_view(), r)
            &&& virtkit_of(c) matches Some(v) ==> host_told(v, r)
        }),
{
    broadcast use lemma_push;

    let dir = config_dir(config_path);
    let d0 = begun(config_path, workspace);
    let d1 = with_source(d0, c, dir, workspace, stages);
    lemma_source(d0, c, dir, workspace, stages);
    let d2 = with_being(d1, c);
    lemma_being(d1, c);
    let d3 = match c.customizations {
        Some(x) => with_editor(d2, x.others.deep_view()),
        None => d2,
    };
    if let Some(x) = c.customizations {
        lemma_editor(d2, x.others.deep_view());
    }
    lemma_host(d3, virtkit_of(c), dir, workspace);
    let r = translated(c, config_path, workspace, stages).items;
    assert(r == with_host(d3, virtkit_of(c), dir, workspace).items);
    assert(keeps(d3.items, r));
    assert(keeps(d2.items, r));
    assert(keeps(d1.items, r));
    if let Some(m) = c.mounts {
        assert forall|i: int| 0 <= i < m@.len() implies told(r, #[trigger] mount_key(i)) by {
            assert(told(d2.items, mount_key(i)));
        }
    }
    if let Some(x) = c.customizations {
        let others = x.others.deep_view();
        assert(tools_told(others, d3.items));
        assert forall|i: int| 0 <= i < others.len() && (#[trigger] others[i]).0 != "vscode"@ implies told(
            r,
            "customizations."@ + others[i].0,
        ) by {
            assert(told(d3.items, "customizations."@ + others[i].0));
        }
        if let Some(JsonTree::Object(vs)) = entry(others, "vscode"@) {
            assert forall|i: int|
                0 <= i < vs.len() && (#[trigger] vs[i]).0 != "extensions"@ && vs[i].0 != "settings"@ implies told(
                r,
                "customizations.vscode."@ + vs[i].0,
            ) by {
                assert(told(d3.items, "customizations.vscode."@ + vs[i].0));
            }
            assert(vscode_told(vs, r));
        }
    }
}

/// The file leaves a choice open that the environment cannot do without: it names no source, or
/// several compose files for one, or no service of the compose file, or asks for features.
pub open spec fn leaves_open(c: Config) -> bool {
    ||| !has_compose(c) && c.image is None && dockerfile_of(c) is None
    ||| crate::translate::own_compose(c) is None && c.docker_compose_file matches Some(
        crate::devcontainer::OneOrMany::Many(_),
    )
    ||| has_compose(c) && crate::translate::service_of(c) is None
    ||| c.features
}

/// A draft that misses an essential choice says so: it needs work before it can be used.
pub proof fn law_open_choices_need_work(
    c: Config,
    config_path: Seq<u8>,
    workspace: Seq<u8>,
    stages: Option<Seq<Seq<char>>>,
)
    requires
        leaves_open(c),
    ensures
        translated(c, config_path, workspace, stages).needs_work(),
{
    broadcast use lemma_push;

    let dir = config_dir(config_path);
    let d0 = begun(config_path, workspace);
    let a = with_compose(d0, c, dir, workspace);
    lemma_compose(d0, c, dir, workspace);
    let b = with_service(a, c);
    lemma_service(a, c);
    let e = with_image(b, c);
    lemma_image(b, c);
    let d1 = with_build(e, c, dir, workspace, stages);
    lemma_build(e, c, dir, workspace, stages);
    let d2 = with_being(d1, c);
    lemma_being(d1, c);
    let d3 = match c.customizations {
        Some(x) => with_editor(d2, x.others.deep_view()),
        None => d2,
    };
    if let Some(x) = c.customizations {
        lemma_editor(d2, x.others.deep_view());
    }
    lemma_host(d3, virtkit_of(c), dir, workspace);
    assert(lacking(d2.items));
    assert(lacking(translated(c, config_path, workspace, stages).items));
}

proof fn lemma_decimal_digits(n: nat, i: int)
    requires
        0 <= i < decimal(n).len(),
    ensures
        '0' <= decimal(n)[i] <= '9',
    decreases n,
{
    if n >= 10 {
        let h = decimal(n / 10);
        assert(decimal(n) == h.push(digit_of(n % 10)));
        if i < h.len() {
            lemma_decimal_digits(n / 10, i);
        }
    }
}

proof fn lemma_decimal_apart(m: nat, n: nat)
    requires
        decimal(m) == decimal(n),
    ensures
        m == n,
    decreases m,
{
    if m >= 10 && n >= 10 {
        let a = decimal(m / 10);
        let b = decimal(n / 10);
        let x = a.push(digit_of(m % 10));
        let y = b.push(digit_of(n % 10));
        assert(x == y);
        assert(x.drop_last() =~= a && y.drop_last() =~= b);
        assert(x.last() == y.last());
        lemma_digit_apart(m % 10, n % 10);
        lemma_decimal_apart((m / 10) as nat, (n / 10) as nat);
    } else if m >= 10 {
        lemma_decimal_len(m / 10);
        assert(decimal(m).len() == decimal(m / 10).len() + 1);
    } else if n >= 10 {
        lemma_decimal_len(n / 10);
        assert(decimal(n).len() == decimal(n / 10).len() + 1);
    } else {
        assert(decimal(m) == seq![digit_of(m)] && decimal(n) == seq![digit_of(n)]);
        assert(seq![digit_of(m)][0] == seq![digit_of(n)][0]);
        lemma_digit_apart(m, n);
    }
}

proof fn lemma_digit_apart(m: nat, n: nat)
    requires
        m < 10,
        n < 10,
        digit_of(m) == digit_of(n),
    ensures
        m == n,
{
    assert(digit_of(m) as int == 48 + m);
    assert(digit_of(n) as int == 48 + n);
}

proof fn lemma_decimal_len(n: nat)
    ensures
        decimal(n).len() > 0,
{
}

/// Two names with an index behind a dash are the same only where the indices are.
proof fn lemma_index_apart(x: Seq<char>, y: Seq<char>, m: nat, n: nat)
    requires
        x + "-"@ + decimal(m) == y + "-"@ + decimal(n),
    ensures
        m == n,
{
    reveal_strlit("-");
    let a = x + "-"@ + decimal(m);
    let b = y + "-"@ + decimal(n);
    assert(a == b && a.len() == x.len() + 1 + decimal(m).len() && b.len() == y.len() + 1 + decimal(n).len());
    lemma_decimal_len(m);
    lemma_decimal_len(n);
    assert(a[x.len() as int] == '-');
    assert(b[y.len() as int] == '-');
    if x.len() < y.len() {
        let i = y.len() - x.len() - 1;
        assert(a[y.len() as int] == decimal(m)[i]);
        lemma_decimal_digits(m, i);
    } else if y.len() < x.len() {
        let i = x.len() - y.len() - 1;
        assert(b[x.len() as int] == decimal(n)[i]);
        lemma_decimal_digits(n, i);
    } else {
        assert(a.skip(x.len() as int + 1) =~= decimal(m));
        assert(b.skip(y.len() as int + 1) =~= decimal(n));
        lemma_decimal_apart(m, n);
    }
}

/// Each of the names is one of the first `n` suggested, as it is or with its own index.
spec fn suggested(taken: Seq<Seq<char>>, names: Seq<Option<Seq<char>>>, n: int) -> bool {
    forall|t: int| 0 <= t < taken.len() ==> #[trigger] is_suggested(taken[t], names, n)
}

spec fn is_suggested(name: Seq<char>, names: Seq<Option<Seq<char>>>, n: int) -> bool {
    exists|a: int| 0 <= a < n && suggests(name, #[trigger] names[a], a)
}

spec fn suggests(name: Seq<char>, from: Option<Seq<char>>, a: int) -> bool {
    from matches Some(x) && (name == x || name == x + "-"@ + decimal(a as nat))
}

/// No name suggested before another is that other with the index it would be told apart by.
pub open spec fn indices_free(names: Seq<Option<Seq<char>>>) -> bool {
    forall|i: int, j: int|
        0 <= j < i < names.len() && (#[trigger] names[i]) is Some && (#[trigger] names[j]) is Some ==> names[j]->0
            != names[i]->0 + "-"@ + decimal(i as nat)
}

proof fn lemma_taken(taken: Seq<Seq<char>>, names: Seq<Option<Seq<char>>>, i: int)
    requires
        0 <= i < names.len(),
        names[i] is Some,
        indices_free(names),
        suggested(taken, names, i),
        taken.no_duplicates(),
    ensures
        suggested(taken_with(names[i]->0, taken, i), names, i + 1),
        taken_with(names[i]->0, taken, i).no_duplicates(),
{
    let x = names[i]->0;
    let name = told_apart(x, taken, i);
    let now = taken.push(name);
    assert(suggests(name, names[i], i));
    assert forall|t: int| 0 <= t < now.len() implies #[trigger] is_suggested(now[t], names, i + 1) by {
        if t < taken.len() {
            assert(now[t] == taken[t]);
            assert(is_suggested(taken[t], names, i));
            let a = choose|a: int| 0 <= a < i && suggests(taken[t], #[trigger] names[a], a);
            assert(suggests(now[t], names[a], a));
        } else {
            assert(suggests(now[t], names[i], i));
        }
    }
    assert forall|t: int| 0 <= t < taken.len() implies taken[t] != name by {
        if taken[t] == name {
            assert(taken.contains(name));
            assert(is_suggested(taken[t], names, i));
            let a = choose|a: int| 0 <= a < i && suggests(taken[t], #[trigger] names[a], a);
            let y = names[a]->0;
            if taken[t] == y + "-"@ + decimal(a as nat) {
                lemma_index_apart(x, y, i as nat, a as nat);
            } else {
                assert(names[i] is Some && names[a] is Some);
            }
        }
    }
    assert(now.no_duplicates()) by {
        assert forall|s: int, t: int| 0 <= s < now.len() && 0 <= t < now.len() && s != t implies now[s] != now[t] by {
            if s < taken.len() && t < taken.len() {
                assert(taken[s] != taken[t]);
            }
        }
    }
}

/// The name that each mount suggests, where it is carried over.
pub open spec fn mount_names(v: Seq<Mount>) -> Seq<Option<Seq<char>>> {
    Seq::new(
        v.len(),
        |i: int|
            match fields_of(v[i]) {
                Ok(f) => if f.kind == "bind"@ {
                    Some(mount_name(f.target, i))
                } else {
                    None
                },
                Err(_) => None,
            },
    )
}

proof fn lemma_mounts_taken(d: DraftView, v: Seq<Mount>, folder: Option<Seq<char>>, n: int)
    requires
        indices_free(mount_names(v)),
        0 <= n <= v.len(),
    ensures
        suggested(mounts_upto(d, v, folder, n).1, mount_names(v), n),
        mounts_upto(d, v, folder, n).1.no_duplicates(),
    decreases n,
{
    if n > 0 {
        lemma_mounts_taken(d, v, folder, n - 1);
        let taken = mounts_upto(d, v, folder, n - 1).1;
        lemma_suggested_grows(taken, mount_names(v), n - 1);
        if mount_names(v)[n - 1] is Some {
            lemma_taken(taken, mount_names(v), n - 1);
        }
    }
}

proof fn lemma_suggested_grows(taken: Seq<Seq<char>>, names: Seq<Option<Seq<char>>>, n: int)
    requires
        suggested(taken, names, n),
    ensures
        suggested(taken, names, n + 1),
{
    assert forall|t: int| 0 <= t < taken.len() implies #[trigger] is_suggested(taken[t], names, n + 1) by {
        assert(is_suggested(taken[t], names, n));
        let a = choose|a: int| 0 <= a < n && suggests(taken[t], #[trigger] names[a], a);
        assert(suggests(taken[t], names[a], a));
    }
}

/// The mounts carried over have each its own name, so that the draft has each section once. Left
/// out is a file that names one mount as another would be told apart: `a-2`, `a`, `a`.
pub proof fn law_mounts_told_apart(d: DraftView, v: Seq<Mount>, folder: Option<Seq<char>>)
    requires
        indices_free(mount_names(v)),
    ensures
        mounts_upto(d, v, folder, v.len() as int).1.no_duplicates(),
{
    lemma_mounts_taken(d, v, folder, v.len() as int);
}

/// The name that each forwarded port suggests, where it is one.
pub open spec fn port_names(v: Seq<Port>) -> Seq<Option<Seq<char>>> {
    Seq::new(
        v.len(),
        |i: int|
            match port_of(v[i]) {
                Ok((service, port)) => Some(
                    match service {
                        Some(s) => s + "-"@ + decimal(port as nat),
                        None => "port-"@ + decimal(port as nat),
                    },
                ),
                Err(_) => None,
            },
    )
}

proof fn lemma_ports_taken(d: DraftView, v: Seq<Port>, compose: bool, n: int)
    requires
        indices_free(port_names(v)),
        0 <= n <= v.len(),
    ensures
        suggested(ports_upto(d, v, compose, n).1, port_names(v), n),
        ports_upto(d, v, compose, n).1.no_duplicates(),
    decreases n,
{
    if n > 0 {
        lemma_ports_taken(d, v, compose, n - 1);
        let taken = ports_upto(d, v, compose, n - 1).1;
        lemma_suggested_grows(taken, port_names(v), n - 1);
        if port_names(v)[n - 1] is Some {
            lemma_taken(taken, port_names(v), n - 1);
        }
    }
}

/// The forwarded ports have each its own endpoint name, so that the draft has each section once.
/// Left out is a file in which a service's port is named as another would be told apart.
pub proof fn law_ports_told_apart(d: DraftView, v: Seq<Port>, compose: bool)
    requires
        indices_free(port_names(v)),
    ensures
        ports_upto(d, v, compose, v.len() as int).1.no_duplicates(),
{
    lemma_ports_taken(d, v, compose, v.len() as int);
}

/// Where a path of the file points, as far as that can be said.
pub open spec fn points_at(dir: Seq<u8>, workspace: Seq<u8>, p: Seq<char>) -> Option<Seq<u8>> {
    if !contains(p, "${localWorkspaceFolder}"@) {
        Some(normal(joined_path(dir, encode_utf8(p))))
    } else {
        match text_of_bytes(workspace) {
            Some(w) => Some(normal(joined_path(dir, encode_utf8(replaced(p, "${localWorkspaceFolder}"@, w))))),
            None => None,
        }
    }
}

/// The path points outside the project, at an absolute place that can be spelled.
pub open spec fn points_outside(dir: Seq<u8>, workspace: Seq<u8>, p: Seq<char>) -> bool {
    points_at(dir, workspace, p) matches Some(w) && is_abs(w) && relative_to(w, workspace) is None && text_of_bytes(
        w,
    ) is Some
}

/// A path that points outside the project is kept absolute.
pub proof fn lemma_kept_absolute(d: DraftView, dir: Seq<u8>, workspace: Seq<u8>, key: Seq<char>, p: Seq<char>)
    requires
        points_outside(dir, workspace, p),
    ensures
        is_abs(encode_utf8(rebased(d, dir, workspace, key, p).1)),
        acted(rebased(d, dir, workspace, key, p).0.items, key),
{
    broadcast use lemma_push;

    let at = points_at(dir, workspace, p)->0;
    let rel = rebased(d, dir, workspace, key, p).1;
    assert(Some(rel) == text_of_bytes(at));
    decode_utf8_encode_utf8(at);
    assert(encode_utf8(rel) == at);
}

/// What an escaping Dockerfile holds makes no difference to the build that is carried over, and
/// the escape is reported.
proof fn lemma_outside_build(
    d: DraftView,
    c: Config,
    dir: Seq<u8>,
    workspace: Seq<u8>,
    df: Seq<char>,
    stages: Option<Seq<Seq<char>>>,
    others: Option<Seq<Seq<char>>>,
)
    requires
        build_text(c, "target"@) is None,
        points_outside(dir, workspace, df),
    ensures
        with_dockerfile(d, c, dir, workspace, df, stages) == with_dockerfile(d, c, dir, workspace, df, others),
        acted(with_dockerfile(d, c, dir, workspace, df, stages).items, "build.dockerfile"@),
{
    broadcast use lemma_push;

    let context = match build_text(c, "context"@) {
        Some(x) => x,
        None => "."@,
    };
    let (d1, place) = rebased(d, dir, workspace, "build.context"@, context);
    let (d2, rel) = rebased(d1, dir, workspace, "build.dockerfile"@, df);
    lemma_kept_absolute(d1, dir, workspace, "build.dockerfile"@, df);
    let (d3, inside) = inside_context(d2, rel, place);
    assert(keeps(d2.items, d3.items));
    assert(acted(d3.items, "build.dockerfile"@));
}

/// An escaping Dockerfile is reported and never read: what it holds makes no difference to the
/// draft, and it is not asked for.
pub proof fn law_outside_dockerfile_is_never_read(
    c: Config,
    config_path: Seq<u8>,
    workspace: Seq<u8>,
    stages: Option<Seq<Seq<char>>>,
    others: Option<Seq<Seq<char>>>,
)
    requires
        !has_compose(c),
        c.image is None,
        build_text(c, "target"@) is None,
        dockerfile_of(c) is Some,
        points_outside(config_dir(config_path), workspace, dockerfile_of(c)->0),
    ensures
        translated(c, config_path, workspace, stages) == translated(c, config_path, workspace, others),
        dockerfile_asked(c, config_path, workspace) is None,
        acted(translated(c, config_path, workspace, stages).items, "build.dockerfile"@),
{
    let dir = config_dir(config_path);
    let df = dockerfile_of(c)->0;
    lemma_kept_absolute(DraftView::empty(), dir, workspace, ""@, df);
    let d0 = begun(config_path, workspace);
    let d1 = with_image(with_service(with_compose(d0, c, dir, workspace), c), c);
    lemma_outside_build(d1, c, dir, workspace, df, stages, others);
    let made = with_dockerfile(d1, c, dir, workspace, df, stages);
    assert(with_source(d0, c, dir, workspace, stages) == made);
    assert(with_source(d0, c, dir, workspace, others) == made);
    let d2 = with_being(made, c);
    lemma_being(made, c);
    let d3 = match c.customizations {
        Some(x) => with_editor(d2, x.others.deep_view()),
        None => d2,
    };
    if let Some(x) = c.customizations {
        lemma_editor(d2, x.others.deep_view());
    }
    lemma_host(d3, virtkit_of(c), dir, workspace);
    assert(acted(d2.items, "build.dockerfile"@));
    assert(acted(d3.items, "build.dockerfile"@));
}

} // verus!
