//! `devcontainer.json`, read for `vk dev init --from devcontainer`.
//!
//! Every known key is either carried into the draft or reported: a key silently dropped is a
//! setting silently lost.

use crate::draft::{Draft, DraftView};
use crate::entries::{put_entry, with_entry};
use crate::jsonc::{explain, explained, plain_json, to_plain_json};
use crate::path::{is_listed, joined_path, lossy_text, HostPath};
use crate::text::{
    cat2, cat3, cat4, contains, cut, cut_at, debug_text, error, holds, outcome, pieces, put, quoted, replace,
    replaced, same, split, Error,
};
use crate::value::{
    fit, fit_entries, group_json, group_value, json_read, json_sorted, json_sound, lemma_put_fit,
    lemma_table_is_fit, number_as_fraction, number_as_int, number_fraction, number_int, parse_json, sort_json, Json,
    JsonTree, Toml, Tree,
};
use vstd::prelude::*;
use vstd::utf8::encode_utf8;

verus! {

broadcast use {group_value, group_json};

/// A devcontainer config, as written. What the draft carries is typed; what it only reports is
/// kept as it came, so the report can quote it.
#[derive(Debug)]
pub struct Config {
    pub name: Option<String>,
    /// `$schema`
    pub schema: Option<String>,
    /// the compose file, resolved against this config's directory
    pub docker_compose_file: Option<OneOrMany>,
    /// the service to work in
    pub service: Option<String>,
    /// the exact set of services to start, rather than the primary's dependencies alone
    pub run_services: Option<Vec<String>>,
    /// the guest directory a session starts in
    pub workspace_folder: Option<String>,
    /// extra bind mounts
    pub mounts: Option<Vec<Mount>>,
    /// environment for everything in the container, set at boot
    pub container_env: Option<Vec<(String, String)>>,
    /// environment for what the dev tooling runs
    pub remote_env: Option<Vec<(String, String)>>,
    /// the user those sessions run as
    pub remote_user: Option<String>,
    /// guest ports to publish to the host
    pub forward_ports: Option<Vec<Port>>,
    /// run on the host before the environment starts
    pub initialize_command: Option<Lifecycle>,
    /// run in the guest once, when the environment is first created
    pub post_create_command: Option<Lifecycle>,
    /// run in the guest each time it starts
    pub post_start_command: Option<Lifecycle>,
    /// per-tool settings; only `virtkit` is read
    pub customizations: Option<Customizations>,
    pub image: Option<Json>,
    pub build: Option<Json>,
    pub docker_file: Option<Json>,
    pub workspace_mount: bool,
    pub app_port: bool,
    pub container_user: bool,
    pub update_remote_user_uid: bool,
    pub features: bool,
    pub on_create_command: bool,
    pub update_content_command: bool,
    pub post_attach_command: bool,
    pub wait_for: bool,
    pub ports_attributes: bool,
    pub other_ports_attributes: bool,
    pub shutdown_action: bool,
    pub privileged: bool,
    pub init: bool,
    pub cap_add: bool,
    pub security_opt: bool,
    pub run_args: bool,
    pub override_command: bool,
    pub user_env_probe: bool,
    pub host_requirements: bool,
}

/// A string or a list of them (`dockerComposeFile`).
#[derive(Debug)]
pub enum OneOrMany {
    One(String),
    Many(Vec<String>),
}

/// A `mounts` entry: the string form (`source=…,target=…,type=bind`) or the object form.
#[derive(Debug)]
pub enum Mount {
    Str(String),
    Obj(MountObj),
}

/// The object form.
#[derive(Debug)]
pub struct MountObj {
    pub kind: Option<String>,
    pub source: String,
    pub target: String,
    pub readonly: bool,
}

/// A `forwardPorts` entry: a guest port on the primary, or `"service:port"`.
#[derive(Debug)]
pub enum Port {
    Number(i64),
    Named(String),
}

/// A lifecycle command in any of its three forms.
#[derive(Debug)]
pub enum Lifecycle {
    /// run through a shell
    Shell(String),
    /// argv, run directly
    Argv(Vec<String>),
    /// named commands, run in parallel; all must succeed
    Parallel(Vec<(String, Lifecycle)>),
}

#[derive(Debug)]
pub struct Customizations {
    pub virtkit: Option<Virtkit>,
    /// every other tool's namespace
    pub others: Vec<(String, Json)>,
}

/// `customizations.virtkit`: what an earlier `vk dev` read from a devcontainer file, so a
/// project that adopted it is translated.
#[derive(Debug)]
pub struct Virtkit {
    /// the compose file to drive instead of the top-level `dockerComposeFile`
    pub docker_compose_file: Option<String>,
    /// the service to work in instead of the top-level `service`
    pub service: Option<String>,
    /// vCPUs for the primary (`host` for as many as the host has)
    pub cpus: Option<String>,
    /// memory for the primary
    pub mem: Option<String>,
    /// compose profiles to activate
    pub profiles: Vec<String>,
    /// the guest's host-command allowlist
    pub host_exec: Option<HostExec>,
    /// where built stages are cached
    pub cache: Option<Cache>,
    pub state_dir: Option<String>,
    /// mount a linked worktree's git common dir at its own absolute path
    pub git_worktree_mount: bool,
    /// build args to receive the host's uid/gid, for an image that builds its user
    pub local_user_build_args: Option<LocalUserBuildArgs>,
}

#[derive(Debug)]
pub struct HostExec {
    /// the dispatcher every host command goes through, relative to the config file
    pub wrapper: String,
    /// environment variable patterns passed through to it
    pub env: Vec<String>,
}

#[derive(Debug)]
pub struct Cache {
    pub registry: Option<String>,
    pub insecure: bool,
}

#[derive(Debug)]
pub struct LocalUserBuildArgs {
    pub uid: Vec<String>,
    pub gid: Vec<String>,
}

/// Where a workspace's devcontainer config is: an explicit path wins, else the standard names
/// in order.
pub open spec fn config_found(workspace: Seq<u8>, explicit: Option<Seq<u8>>, files: Seq<Seq<u8>>) -> Result<
    Seq<u8>,
    Seq<char>,
> {
    let a = joined_path(workspace, encode_utf8(".devcontainer/devcontainer.json"@));
    let b = joined_path(workspace, encode_utf8(".devcontainer.json"@));
    match explicit {
        Some(p) => if files.contains(p) {
            Ok(p)
        } else {
            Err(lossy_text(p) + " is not a file"@)
        },
        None => if files.contains(a) {
            Ok(a)
        } else if files.contains(b) {
            Ok(b)
        } else {
            Err(
                "no devcontainer config in "@ + lossy_text(workspace)
                    + " (looked for .devcontainer/devcontainer.json, .devcontainer.json)"@,
            )
        },
    }
}

/// Find the devcontainer config for `workspace`, given the paths that are files.
pub fn discover(workspace: &HostPath, explicit: &Option<HostPath>, files: &Vec<HostPath>) -> (r: Result<
    HostPath,
    Error,
>)
    ensures
        outcome(r) == config_found(workspace.deep_view(), explicit.deep_view(), files.deep_view()),
{
    if let Some(p) = explicit {
        if !is_listed(p, files) {
            return Err(error(cat2(p.display().as_str(), " is not a file")));
        }
        return Ok(p.copy());
    }
    let a = workspace.join_text(".devcontainer/devcontainer.json");
    if is_listed(&a, files) {
        return Ok(a);
    }
    let b = workspace.join_text(".devcontainer.json");
    if is_listed(&b, files) {
        return Ok(b);
    }
    Err(
        error(
            cat3(
                "no devcontainer config in ",
                workspace.display().as_str(),
                " (looked for .devcontainer/devcontainer.json, .devcontainer.json)",
            ),
        ),
    )
}

/// Parse the JSON with comments a devcontainer file is, the entries of every object in key
/// order.
pub fn parse_for_import(text: &str) -> (r: Result<Json, Error>)
    ensures
        match r {
            Ok(v) => {
                &&& json_read(plain_json(text@)) is Ok
                &&& v.deep_view() == json_sorted(json_read(plain_json(text@))->Ok_0)
                &&& json_sound(v.deep_view())
            },
            Err(e) => json_read(plain_json(text@)) is Err && e.deep_view() == explained(
                json_read(plain_json(text@))->Err_0,
            ),
        },
{
    match parse_json(to_plain_json(text).as_str()) {
        Ok(v) => Ok(sort_json(&v)),
        Err(e) => Err(error(explain(e.as_str()))),
    }
}

/// A devcontainer text with its variables spelled as the draft spells them, and the draft with
/// those that have no equivalent reported.
pub open spec fn rewritten(d: DraftView, key: Seq<char>, s: Seq<char>, folder: Option<Seq<char>>) -> (
    DraftView,
    Seq<char>,
) {
    let a = replaced(s, "${localWorkspaceFolder}"@, "${workspace}"@);
    let named = contains(a, "${containerWorkspaceFolder}"@);
    let b = if named && folder is Some {
        replaced(a, "${containerWorkspaceFolder}"@, folder->0)
    } else {
        a
    };
    let d1 = if named && folder is None {
        d.action(key, "${containerWorkspaceFolder} has no value without workspaceFolder"@)
    } else {
        d
    };
    let d2 = if contains(b, "${localWorkspaceFolderBasename}"@) {
        d1.action(key, "${localWorkspaceFolderBasename} has no equivalent; replace it by hand"@)
    } else {
        d1
    };
    let d3 = if contains(b, "${containerWorkspaceFolderBasename}"@) {
        d2.action(key, "${containerWorkspaceFolderBasename} has no equivalent; replace it by hand"@)
    } else {
        d2
    };
    let d4 = if contains(b, "${devcontainerId}"@) {
        d3.action(key, "${devcontainerId} has no equivalent; replace it by hand"@)
    } else {
        d3
    };
    let d5 = if contains(b, "${containerEnv:"@) {
        d4.action(key, "${containerEnv:…} has no equivalent; replace it by hand"@)
    } else {
        d4
    };
    (d5, b)
}

/// Rewrite devcontainer variables for the draft; report those with no equivalent.
pub fn rewrite_vars(d: &mut Draft, key: &str, s: &str, folder: &Option<String>) -> (r: String)
    ensures
        rewritten(old(d).deep_view(), key@, s@, folder.deep_view()) == (final(d).deep_view(), r@),
        old(d).deep_view().wf() ==> final(d).deep_view().wf(),
{
    proof {
        reveal_strlit("${localWorkspaceFolder}");
        reveal_strlit("${containerWorkspaceFolder}");
    }
    let mut out = replace(s, "${localWorkspaceFolder}", "${workspace}");
    if holds(out.as_str(), "${containerWorkspaceFolder}") {
        match folder {
            Some(w) => {
                out = replace(out.as_str(), "${containerWorkspaceFolder}", w.as_str());
            },
            None => d.action(key, "${containerWorkspaceFolder} has no value without workspaceFolder"),
        }
    }
    if holds(out.as_str(), "${localWorkspaceFolderBasename}") {
        d.action(key, "${localWorkspaceFolderBasename} has no equivalent; replace it by hand");
    }
    if holds(out.as_str(), "${containerWorkspaceFolderBasename}") {
        d.action(key, "${containerWorkspaceFolderBasename} has no equivalent; replace it by hand");
    }
    if holds(out.as_str(), "${devcontainerId}") {
        d.action(key, "${devcontainerId} has no equivalent; replace it by hand");
    }
    if holds(out.as_str(), "${containerEnv:") {
        d.action(key, "${containerEnv:…} has no equivalent; replace it by hand");
    }
    out
}

/// A mount's fields, in either spelling.
#[derive(Debug)]
pub struct MountFields {
    pub kind: String,
    pub source: String,
    pub target: String,
    pub read_only: bool,
}

pub struct FieldsView {
    pub kind: Seq<char>,
    pub source: Seq<char>,
    pub target: Seq<char>,
    pub read_only: bool,
}

impl DeepView for MountFields {
    type V = FieldsView;

    open spec fn deep_view(&self) -> FieldsView {
        FieldsView {
            kind: self.kind@,
            source: self.source@,
            target: self.target@,
            read_only: self.read_only,
        }
    }
}

/// The fields with one more `key=value` or flag taken in.
pub open spec fn with_field(f: FieldsView, s: Seq<char>, field: Seq<char>) -> Result<FieldsView, Seq<char>> {
    match cut(field, '=') {
        Some((k, v)) => if k == "type"@ {
            Ok(FieldsView { kind: v, ..f })
        } else if k == "source"@ || k == "src"@ {
            Ok(FieldsView { source: v, ..f })
        } else if k == "target"@ || k == "dst"@ || k == "destination"@ {
            Ok(FieldsView { target: v, ..f })
        } else if k == "consistency"@ {
            Ok(f)
        } else {
            Err("mount "@ + debug_text(s) + ": unsupported option "@ + debug_text(k))
        },
        None => if field == "readonly"@ || field == "ro"@ {
            Ok(FieldsView { read_only: true, ..f })
        } else if field.len() == 0 {
            Ok(f)
        } else {
            Err("mount "@ + debug_text(s) + ": expected key=value, got "@ + debug_text(field))
        },
    }
}

pub open spec fn fields_upto(s: Seq<char>, parts: Seq<Seq<char>>, n: int) -> Result<FieldsView, Seq<char>>
    decreases n,
{
    if n <= 0 {
        Ok(FieldsView { kind: "bind"@, source: ""@, target: ""@, read_only: false })
    } else {
        match fields_upto(s, parts, n - 1) {
            Err(e) => Err(e),
            Ok(f) => with_field(f, s, parts[n - 1]),
        }
    }
}

proof fn lemma_fields_kept(s: Seq<char>, parts: Seq<Seq<char>>, n: int, m: int)
    requires
        0 <= n <= m,
        fields_upto(s, parts, n) is Err,
    ensures
        fields_upto(s, parts, m) == fields_upto(s, parts, n),
    decreases m - n,
{
    if n < m {
        lemma_fields_kept(s, parts, n, m - 1);
    }
}

/// A mount's fields, or what is wrong with how it is written.
pub open spec fn fields_of(m: Mount) -> Result<FieldsView, Seq<char>> {
    match m {
        Mount::Obj(o) => Ok(
            FieldsView {
                kind: match o.kind {
                    Some(k) => k@,
                    None => "bind"@,
                },
                source: o.source@,
                target: o.target@,
                read_only: o.readonly,
            },
        ),
        Mount::Str(s) => match fields_upto(s@, pieces(s@, ','), pieces(s@, ',').len() as int) {
            Err(e) => Err(e),
            Ok(f) => if f.source.len() == 0 || f.target.len() == 0 {
                Err("mount "@ + debug_text(s@) + " needs both a source and a target"@)
            } else {
                Ok(f)
            },
        },
    }
}

fn add_field(f: &mut MountFields, s: &str, field: &str) -> (r: Result<(), Error>)
    ensures
        match with_field(old(f).deep_view(), s@, field@) {
            Ok(g) => r is Ok && final(f).deep_view() == g,
            Err(e) => outcome(r) == Err::<(), Seq<char>>(e),
        },
{
    match cut_at(field, '=') {
        Some((k, v)) => {
            let key = k.as_str();
            if same(key, "type") {
                f.kind = v;
            } else if same(key, "source") || same(key, "src") {
                f.source = v;
            } else if same(key, "target") || same(key, "dst") || same(key, "destination") {
                f.target = v;
            } else if same(key, "consistency") {
            } else {
                return Err(
                    error(cat4("mount ", quoted(s).as_str(), ": unsupported option ", quoted(key).as_str())),
                );
            }
        },
        None => {
            if same(field, "readonly") || same(field, "ro") {
                f.read_only = true;
            } else if field.is_empty() {
            } else {
                return Err(
                    error(cat4("mount ", quoted(s).as_str(), ": expected key=value, got ", quoted(field).as_str())),
                );
            }
        },
    }
    Ok(())
}

/// A mount's fields in either spelling.
pub fn mount_fields(m: &Mount) -> (r: Result<MountFields, Error>)
    ensures
        outcome(r) == fields_of(*m),
{
    match m {
        Mount::Obj(o) => Ok(
            MountFields {
                kind: match &o.kind {
                    Some(k) => k.clone(),
                    None => "bind".to_owned(),
                },
                source: o.source.clone(),
                target: o.target.clone(),
                read_only: o.readonly,
            },
        ),
        Mount::Str(s) => {
            let parts = split(s.as_str(), ',');
            let ghost p = parts.deep_view();
            let mut f = MountFields {
                kind: "bind".to_owned(),
                source: "".to_owned(),
                target: "".to_owned(),
                read_only: false,
            };
            let mut i: usize = 0;
            while i < parts.len()
                invariant
                    i <= parts@.len(),
                    p == parts.deep_view(),
                    p == pieces(s@, ','),
                    *m == Mount::Str(*s),
                    fields_upto(s@, p, i as int) == Ok::<FieldsView, Seq<char>>(f.deep_view()),
                decreases parts@.len() - i,
            {
                assert(p[i as int] == parts@[i as int]@);
                if let Err(e) = add_field(&mut f, s.as_str(), parts[i].as_str()) {
                    proof {
                        lemma_fields_kept(s@, p, i + 1, p.len() as int);
                    }
                    return Err(e);
                }
                i = i + 1;
            }
            if f.source.as_str().is_empty() || f.target.as_str().is_empty() {
                return Err(error(cat3("mount ", quoted(s.as_str()).as_str(), " needs both a source and a target")));
            }
            Ok(f)
        },
    }
}

/// The texts as an array.
pub open spec fn texts_tree(v: Seq<Seq<char>>) -> Tree {
    Tree::Array(Seq::new(v.len(), |i: int| Tree::Text(v[i])))
}

pub fn texts_toml(v: &Vec<String>) -> (r: Toml)
    ensures
        r.deep_view() == texts_tree(v.deep_view()),
        fit(r.deep_view()),
{
    let ghost all = texts_tree(v.deep_view())->Array_0;
    let mut out: Vec<Toml> = Vec::new();
    let mut i: usize = 0;
    assert(out.deep_view() =~= all.take(0));
    while i < v.len()
        invariant
            i <= v@.len(),
            all == texts_tree(v.deep_view())->Array_0,
            out.deep_view() == all.take(i as int),
        decreases v@.len() - i,
    {
        assert(v.deep_view()[i as int] == v@[i as int]@);
        put(&mut out, Toml::Text(v[i].clone()));
        assert(out.deep_view() =~= all.take(i + 1));
        i = i + 1;
    }
    assert(out.deep_view() =~= all);
    let r = Toml::Array(out);
    assert forall|j: int| 0 <= j < all.len() implies fit(#[trigger] all[j]) by {
        assert(all[j] is Text);
    }
    assert(Tree::Array(all)->Array_0 == all);
    r
}

/// A lifecycle command as the draft's hook value: a string, an array, or a table of them.
pub open spec fn lifecycle_tree(l: Lifecycle) -> Tree
    decreases l, 1int, 0int,
{
    match l {
        Lifecycle::Shell(s) => Tree::Text(s@),
        Lifecycle::Argv(a) => texts_tree(a.deep_view()),
        Lifecycle::Parallel(m) => Tree::Table(lifecycles_upto(l, m@.len() as int)),
    }
}

pub open spec fn lifecycles_upto(l: Lifecycle, n: int) -> Seq<(Seq<char>, Tree)>
    decreases l, 0int, n,
{
    match l {
        Lifecycle::Parallel(m) => if n <= 0 || n > m@.len() {
            Seq::empty()
        } else {
            with_entry(lifecycles_upto(l, n - 1), m@[n - 1].0@, lifecycle_tree(m@[n - 1].1))
        },
        _ => Seq::empty(),
    }
}

/// A lifecycle command as the draft's hook value.
pub fn lifecycle_value(l: &Lifecycle) -> (r: Toml)
    ensures
        r.deep_view() == lifecycle_tree(*l),
        fit(r.deep_view()),
    decreases l,
{
    match l {
        Lifecycle::Shell(s) => Toml::Text(s.clone()),
        Lifecycle::Argv(a) => texts_toml(a),
        Lifecycle::Parallel(m) => {
            let mut out: Vec<(String, Toml)> = Vec::new();
            let mut i: usize = 0;
            assert(out.deep_view() =~= Seq::<(Seq<char>, Tree)>::empty());
            while i < m.len()
                invariant
                    i <= m@.len(),
                    *l == Lifecycle::Parallel(*m),
                    out.deep_view() == lifecycles_upto(*l, i as int),
                    fit_entries(out.deep_view()),
                decreases m@.len() - i,
            {
                assert(decreases_to!(*l => m@));
                assert(decreases_to!(m@ => m@[i as int]));
                let v = lifecycle_value(&m[i].1);
                proof {
                    lemma_put_fit(out.deep_view(), m@[i as int].0@, v.deep_view());
                }
                put_entry(&mut out, m[i].0.clone(), v);
                i = i + 1;
            }
            proof {
                lemma_table_is_fit(out.deep_view());
            }
            Toml::Table(out)
        },
    }
}

/// JSON as a configuration value, where there is a spelling for it: none for `null`, nor for
/// what is `null` inside an array or an object.
pub open spec fn toml_of_json(v: JsonTree) -> Option<Tree>
    decreases v, 1int, 0int,
{
    match v {
        JsonTree::Null => None,
        JsonTree::Bool(b) => Some(Tree::Boolean(b)),
        JsonTree::Number(n) => match number_int(n) {
            Some(i) => Some(Tree::Integer(i)),
            None => match number_fraction(n) {
                Some(f) => Some(Tree::Float(f)),
                None => None,
            },
        },
        JsonTree::Text(s) => Some(Tree::Text(s)),
        JsonTree::Array(a) => Some(Tree::Array(items_upto(v, a.len() as int))),
        JsonTree::Object(o) => Some(Tree::Table(fields_of_json(v, o.len() as int))),
    }
}

pub open spec fn items_upto(v: JsonTree, n: int) -> Seq<Tree>
    decreases v, 0int, n,
{
    match v {
        JsonTree::Array(a) => if n <= 0 || n > a.len() {
            Seq::empty()
        } else {
            match toml_of_json(a[n - 1]) {
                Some(t) => items_upto(v, n - 1).push(t),
                None => items_upto(v, n - 1),
            }
        },
        _ => Seq::empty(),
    }
}

pub open spec fn fields_of_json(v: JsonTree, n: int) -> Seq<(Seq<char>, Tree)>
    decreases v, 0int, n,
{
    match v {
        JsonTree::Object(o) => if n <= 0 || n > o.len() {
            Seq::empty()
        } else {
            match toml_of_json(o[n - 1].1) {
                Some(t) => with_entry(fields_of_json(v, n - 1), o[n - 1].0, t),
                None => fields_of_json(v, n - 1),
            }
        },
        _ => Seq::empty(),
    }
}

/// JSON as TOML, where TOML has a spelling for it. None for `null`, which it does not.
pub fn json_to_toml(v: &Json) -> (r: Option<Toml>)
    ensures
        r.deep_view() == toml_of_json(v.deep_view()),
        r matches Some(t) ==> fit(t.deep_view()),
    decreases v.deep_view(),
{
    let ghost whole = v.deep_view();
    match v {
        Json::Null => None,
        Json::Bool(b) => Some(Toml::Boolean(*b)),
        Json::Number(n) => match number_as_int(n) {
            Some(i) => Some(Toml::Integer(i)),
            None => match number_as_fraction(n) {
                Some(f) => Some(Toml::Float(f)),
                None => None,
            },
        },
        Json::Text(s) => Some(Toml::Text(s.clone())),
        Json::Array(a) => {
            let ghost d = a.deep_view();
            let mut out: Vec<Toml> = Vec::new();
            let mut i: usize = 0;
            assert(out.deep_view() =~= Seq::<Tree>::empty());
            while i < a.len()
                invariant
                    i <= a@.len(),
                    d == a.deep_view(),
                    whole == v.deep_view(),
                    whole == JsonTree::Array(d),
                    out.deep_view() == items_upto(whole, i as int),
                    forall|j: int| 0 <= j < out.deep_view().len() ==> fit(#[trigger] out.deep_view()[j]),
                decreases a@.len() - i,
            {
                assert(d[i as int] == a@[i as int].deep_view());
                assert(decreases_to!(d => d[i as int]));
                assert(decreases_to!(whole => whole->Array_0));
                if let Some(t) = json_to_toml(&a[i]) {
                    put(&mut out, t);
                }
                i = i + 1;
            }
            proof {
                let w = Tree::Array(out.deep_view());
                assert(w->Array_0 == out.deep_view());
                assert(fit(w));
            }
            Some(Toml::Array(out))
        },
        Json::Object(o) => {
            let ghost d = o.deep_view();
            let mut out: Vec<(String, Toml)> = Vec::new();
            let mut i: usize = 0;
            assert(out.deep_view() =~= Seq::<(Seq<char>, Tree)>::empty());
            while i < o.len()
                invariant
                    i <= o@.len(),
                    d == o.deep_view(),
                    whole == v.deep_view(),
                    whole == JsonTree::Object(d),
                    out.deep_view() == fields_of_json(whole, i as int),
                    fit_entries(out.deep_view()),
                decreases o@.len() - i,
            {
                assert(d[i as int] == (o@[i as int].0@, o@[i as int].1.deep_view()));
                assert(decreases_to!(d => d[i as int]));
                assert(decreases_to!(d[i as int] => d[i as int].1));
                assert(decreases_to!(whole => whole->Object_0));
                if let Some(t) = json_to_toml(&o[i].1) {
                    proof {
                        lemma_put_fit(out.deep_view(), o@[i as int].0@, t.deep_view());
                    }
                    put_entry(&mut out, o[i].0.clone(), t);
                }
                i = i + 1;
            }
            proof {
                lemma_table_is_fit(out.deep_view());
            }
            Some(Toml::Table(out))
        },
    }
}

impl Default for Config {
    fn default() -> (r: Config)
        ensures
            r.name is None,
            r.schema is None,
            r.docker_compose_file is None,
            r.service is None,
            r.run_services is None,
            r.workspace_folder is None,
            r.mounts is None,
            r.container_env is None,
            r.remote_env is None,
            r.remote_user is None,
            r.forward_ports is None,
            r.initialize_command is None,
            r.post_create_command is None,
            r.post_start_command is None,
            r.customizations is None,
            r.image is None,
            r.build is None,
            r.docker_file is None,
            !r.workspace_mount,
            !r.app_port,
            !r.container_user,
            !r.update_remote_user_uid,
            !r.features,
            !r.on_create_command,
            !r.update_content_command,
            !r.post_attach_command,
            !r.wait_for,
            !r.ports_attributes,
            !r.other_ports_attributes,
            !r.shutdown_action,
            !r.privileged,
            !r.init,
            !r.cap_add,
            !r.security_opt,
            !r.run_args,
            !r.override_command,
            !r.user_env_probe,
            !r.host_requirements,
    {
        Config {
            name: None,
            schema: None,
            docker_compose_file: None,
            service: None,
            run_services: None,
            workspace_folder: None,
            mounts: None,
            container_env: None,
            remote_env: None,
            remote_user: None,
            forward_ports: None,
            initialize_command: None,
            post_create_command: None,
            post_start_command: None,
            customizations: None,
            image: None,
            build: None,
            docker_file: None,
            workspace_mount: false,
            app_port: false,
            container_user: false,
            update_remote_user_uid: false,
            features: false,
            on_create_command: false,
            update_content_command: false,
            post_attach_command: false,
            wait_for: false,
            ports_attributes: false,
            other_ports_attributes: false,
            shutdown_action: false,
            privileged: false,
            init: false,
            cap_add: false,
            security_opt: false,
            run_args: false,
            override_command: false,
            user_env_probe: false,
            host_requirements: false,
        }
    }
}

impl Default for Customizations {
    fn default() -> (r: Customizations)
        ensures
            r.virtkit is None,
            r.others@.len() == 0,
    {
        Customizations {
            virtkit: None,
            others: Vec::new(),
        }
    }
}

impl Default for Virtkit {
    fn default() -> (r: Virtkit)
        ensures
            r.docker_compose_file is None,
            r.service is None,
            r.cpus is None,
            r.mem is None,
            r.profiles@.len() == 0,
            r.host_exec is None,
            r.cache is None,
            r.state_dir is None,
            !r.git_worktree_mount,
            r.local_user_build_args is None,
    {
        Virtkit {
            docker_compose_file: None,
            service: None,
            cpus: None,
            mem: None,
            profiles: Vec::new(),
            host_exec: None,
            cache: None,
            state_dir: None,
            git_worktree_mount: false,
            local_user_build_args: None,
        }
    }
}

impl Default for LocalUserBuildArgs {
    fn default() -> (r: LocalUserBuildArgs)
        ensures
            r.uid@.len() == 0,
            r.gid@.len() == 0,
    {
        LocalUserBuildArgs {
            uid: Vec::new(),
            gid: Vec::new(),
        }
    }
}

} // verus!
