//! What an environment was booted from, and how a later plan differs from it.
//!
//! An identity is a manifest, the plan as JSON, and the digest of that. Values that came from
//! the host are reduced to a fingerprint: they still take part in drift detection, but a token
//! never reaches a file.

use crate::digest::{sha256_hex, sha256_text};
use crate::entries::{
    entry, get, keys, keys_of, lemma_with_entry, place_from, put_entry, slot_from, sorted, with_entry,
};
use crate::path::{lossy_text, HostPath};
use crate::plan::{
    argv_of, lemma_group, EnvVar, EnvVarView, HookPlan, HookView, Plan, PlanView, Source, SourceView,
};
use crate::planjson::{
    pairs_json, pairs_value, path_error, plan_json, plan_paths_text, texts_json, texts_value,
};
use crate::text::{
    begins, begins_with, cat2, cat3, cat4, cat5, decimal, error, first_chars, is_one_of, outcome, put, same, shorten,
    to_decimal, trim, trimmed, within, words, words_of, Error,
};
use crate::units::{parse_version, version_of};
use crate::value::{copy_json, group_json, json_shown, json_sorted, json_text, sort_json, sorted_upto, Json, JsonTree};
use vstd::prelude::*;
use vstd::utf8::encode_utf8;

verus! {

broadcast use {group_json, lemma_group};

/// What every fingerprint begins with.
pub const FINGERPRINT: &'static str = "sha256:";

/// What a boot records in the state directory once the environment is ready.
#[derive(Debug)]
pub struct Identity {
    /// of the manifest
    pub digest: String,
    /// when it was booted, in seconds since the epoch
    pub booted_secs: u64,
    /// the `vk` that booted it, as it names itself
    pub created_by: String,
    /// what the environment was materialized from
    pub generation: String,
    /// the plan it was booted from, host values fingerprinted
    pub manifest: Json,
    /// where its managed directories are kept, where that was recorded
    pub storage_backings: Option<Vec<HostPath>>,
}

pub struct IdentityView {
    pub digest: Seq<char>,
    pub booted_secs: u64,
    pub created_by: Seq<char>,
    pub generation: Seq<char>,
    pub manifest: JsonTree,
    pub storage_backings: Option<Seq<Seq<u8>>>,
}

impl DeepView for Identity {
    type V = IdentityView;

    open spec fn deep_view(&self) -> IdentityView {
        IdentityView {
            digest: self.digest@,
            booted_secs: self.booted_secs,
            created_by: self.created_by@,
            generation: self.generation@,
            manifest: self.manifest.deep_view(),
            storage_backings: self.storage_backings.deep_view(),
        }
    }
}

/// What this `vk`, of this release and built from this commit, records as an environment's creator.
pub fn own_version(release: &str, commit: &str) -> (r: String)
    ensures
        r@ == "vk "@ + release@ + " ("@ + commit@ + ")"@,
{
    cat5("vk ", release, " (", commit, ")")
}

/// The release a creator named, where it is older than this one.
pub open spec fn older_release(created_by: Seq<char>, release: Seq<char>) -> Option<Seq<char>> {
    let w = words_of(created_by);
    if w.len() < 2 {
        None
    } else {
        match (version_of(w[1]), version_of(release)) {
            (Some(v), Some(own)) => if v.older_than(own) {
                Some(v.spelling())
            } else {
                None
            },
            _ => None,
        }
    }
}

/// The release that created a running environment, when it is older than this one: a newer
/// host may not open what that release's guest side produces until the environment is
/// restarted. A record that names no release says nothing.
pub fn older_creator(created_by: &str, release: &str) -> (r: Option<String>)
    ensures
        r.deep_view() == older_release(created_by@, release@),
{
    let w = words(created_by);
    assert(w@.len() == w.deep_view().len());
    if w.len() < 2 {
        return None;
    }
    assert(w.deep_view()[1] == w@[1]@);
    match (parse_version(w[1].as_str()), parse_version(release)) {
        (Some(v), Some(own)) => if v.is_older_than(own) {
            Some(v.to_text())
        } else {
            None
        },
        _ => None,
    }
}

/// What `up` says of an environment that an older release created.
pub open spec fn creator_note(created_by: Seq<char>, release: Seq<char>) -> Option<Seq<char>> {
    match older_release(created_by, release) {
        Some(older) => Some(
            "it was created by vk "@ + older + "; this is "@ + release
                + " — `vk dev refresh` restarts it with this one (needed when the two disagree on image or protocol formats)"@,
        ),
        None => None,
    }
}

/// The note `up` prints when it reuses an environment that an older release created.
pub fn note_older_creator(created_by: &str, release: &str) -> (r: Option<String>)
    ensures
        r.deep_view() == creator_note(created_by@, release@),
{
    match older_creator(created_by, release) {
        Some(older) => Some(
            cat5(
                "it was created by vk ",
                older.as_str(),
                "; this is ",
                release,
                " — `vk dev refresh` restarts it with this one (needed when the two disagree on image or protocol formats)",
            ),
        ),
        None => None,
    }
}

/// The token a marker file holds, empty where there is no such file.
pub open spec fn marker(file: Option<Seq<char>>) -> Seq<char> {
    match file {
        Some(t) => trimmed(t),
        None => Seq::empty(),
    }
}

/// The token a managed directory carries, from the text of its marker file: empty for a
/// directory that has none.
pub fn marker_of(file: &Option<String>) -> (r: String)
    ensures
        r@ == marker(file.deep_view()),
{
    match file {
        Some(t) => trim(t.as_str()),
        None => String::new(),
    }
}

/// Where an environment's identity is recorded.
pub fn identity_path(state_dir: &HostPath) -> (r: HostPath)
    ensures
        r.deep_view() == crate::path::joined_path(state_dir.deep_view(), encode_utf8("dev.json"@)),
{
    state_dir.join_text("dev.json")
}

/// What stands in for a value this host supplied.
pub open spec fn fingerprint_of(value: Seq<char>) -> Seq<char> {
    FINGERPRINT@ + sha256_text(encode_utf8(value))
}

fn fingerprint(value: &str) -> (r: String)
    ensures
        r@ == fingerprint_of(value@),
{
    cat2(FINGERPRINT, sha256_hex(value.as_bytes()).as_str())
}

/// The variables with the sensitive values fingerprinted.
pub open spec fn marked_env(env: Seq<EnvVarView>) -> Seq<EnvVarView> {
    Seq::new(
        env.len(),
        |i: int|
            if env[i].sensitive {
                EnvVarView { value: fingerprint_of(env[i].value), ..env[i] }
            } else {
                env[i]
            },
    )
}

fn mark_env(env: &Vec<EnvVar>) -> (r: Vec<EnvVar>)
    ensures
        r.deep_view() == marked_env(env.deep_view()),
{
    let ghost all = marked_env(env.deep_view());
    let mut out: Vec<EnvVar> = Vec::new();
    let mut i: usize = 0;
    while i < env.len()
        invariant
            i <= env@.len(),
            all == marked_env(env.deep_view()),
            out.deep_view() == all.take(i as int),
        decreases env@.len() - i,
    {
        assert(env.deep_view()[i as int] == env@[i as int].deep_view());
        let value = if env[i].sensitive {
            fingerprint(env[i].value.as_str())
        } else {
            env[i].value.clone()
        };
        put(&mut out, EnvVar { name: env[i].name.clone(), value, sensitive: env[i].sensitive });
        assert(out.deep_view() =~= all.take(i + 1));
        i = i + 1;
    }
    assert(out.deep_view() =~= all);
    out
}

/// The value with every text that is one of `secrets` replaced by its fingerprint. Equality,
/// not containment: a path that merely has a secret inside it is still the config's own text.
pub open spec fn fingerprinted(v: JsonTree, secrets: Seq<Seq<char>>) -> JsonTree
    decreases v,
{
    match v {
        JsonTree::Text(t) => if secrets.contains(t) {
            JsonTree::Text(fingerprint_of(t))
        } else {
            v
        },
        JsonTree::Array(a) => JsonTree::Array(
            Seq::new(
                a.len(),
                |i: int|
                    if 0 <= i < a.len() {
                        fingerprinted(a[i], secrets)
                    } else {
                        arbitrary()
                    },
            ),
        ),
        JsonTree::Object(o) => JsonTree::Object(
            Seq::new(
                o.len(),
                |i: int|
                    if 0 <= i < o.len() {
                        (o[i].0, fingerprinted(o[i].1, secrets))
                    } else {
                        arbitrary()
                    },
            ),
        ),
        _ => v,
    }
}

/// Replace every text in the value that is one of `secrets` with a fingerprint of it.
pub fn fingerprint_secrets(v: &Json, secrets: &Vec<String>) -> (r: Json)
    ensures
        r.deep_view() == fingerprinted(v.deep_view(), secrets.deep_view()),
    decreases v.deep_view(),
{
    let ghost s = secrets.deep_view();
    match v {
        Json::Text(t) => if is_one_of(t.as_str(), secrets) {
            Json::Text(fingerprint(t.as_str()))
        } else {
            Json::Text(t.clone())
        },
        Json::Array(a) => {
            let ghost d = a.deep_view();
            let ghost whole = v.deep_view();
            let ghost all = fingerprinted(whole, s)->Array_0;
            let mut out: Vec<Json> = Vec::new();
            let mut i: usize = 0;
            while i < a.len()
                invariant
                    i <= a@.len(),
                    s == secrets.deep_view(),
                    d == a.deep_view(),
                    whole == v.deep_view(),
                    whole == JsonTree::Array(d),
                    fingerprinted(whole, s) == JsonTree::Array(all),
                    out.deep_view() == all.take(i as int),
                decreases a@.len() - i,
            {
                assert(d[i as int] == a@[i as int].deep_view());
                assert(decreases_to!(d => d[i as int]));
                assert(decreases_to!(whole => whole->Array_0));
                put(&mut out, fingerprint_secrets(&a[i], secrets));
                assert(out.deep_view() =~= all.take(i + 1));
                i = i + 1;
            }
            assert(out.deep_view() =~= all);
            Json::Array(out)
        },
        Json::Object(o) => {
            let ghost d = o.deep_view();
            let ghost whole = v.deep_view();
            let ghost all = fingerprinted(whole, s)->Object_0;
            let mut out: Vec<(String, Json)> = Vec::new();
            let mut i: usize = 0;
            while i < o.len()
                invariant
                    i <= o@.len(),
                    s == secrets.deep_view(),
                    d == o.deep_view(),
                    whole == v.deep_view(),
                    whole == JsonTree::Object(d),
                    fingerprinted(whole, s) == JsonTree::Object(all),
                    out.deep_view() == all.take(i as int),
                decreases o@.len() - i,
            {
                assert(d[i as int] == (o@[i as int].0@, o@[i as int].1.deep_view()));
                assert(decreases_to!(d => d[i as int]));
                assert(decreases_to!(d[i as int] => d[i as int].1));
                assert(decreases_to!(whole => whole->Object_0));
                put(&mut out, (o[i].0.clone(), fingerprint_secrets(&o[i].1, secrets)));
                assert(out.deep_view() =~= all.take(i + 1));
                i = i + 1;
            }
            assert(out.deep_view() =~= all);
            Json::Object(out)
        },
        _ => copy_json(v),
    }
}

/// The plan with the sensitive values of its two environment scopes fingerprinted.
pub open spec fn marked_plan(p: PlanView) -> PlanView {
    PlanView { container_env: marked_env(p.container_env), exec_env: marked_env(p.exec_env), ..p }
}

/// What the manifest holds before its entries are put in order: the plan without what this
/// host supplied, and the digest of the host-command allowlist.
pub open spec fn manifest_parts(p: PlanView, wrapper: Option<Seq<char>>) -> JsonTree {
    let v = fingerprinted(plan_json(marked_plan(p)), p.secrets);
    match wrapper {
        None => v,
        Some(d) => JsonTree::Object(v->Object_0.push(("host_exec_wrapper_digest"@, JsonTree::Text(d)))),
    }
}

/// The manifest of a plan, its keys in order.
pub open spec fn manifest_of(p: PlanView, wrapper: Option<Seq<char>>) -> JsonTree {
    json_sorted(manifest_parts(p, wrapper))
}

/// The digest of a manifest: of its one-line text.
pub open spec fn manifest_digest(m: JsonTree) -> Seq<char> {
    sha256_text(encode_utf8(json_shown(m)))
}

/// The identity a plan resolves to: a stable digest, and the manifest it digests. The two
/// environment scopes are fingerprinted by what is marked there, and then every text anywhere
/// in the manifest that is one of the values this host supplied. `wrapper` is the digest of
/// the host-command allowlist: policy the guest runs against, so a changed one is a changed
/// environment even though nothing in the config moved.
pub fn identity_of(plan: &Plan, wrapper: &Option<String>) -> (r: Result<(String, Json), Error>)
    ensures
        match r {
            Ok((digest, manifest)) => {
                &&& plan_paths_text(plan.deep_view())
                &&& manifest.deep_view() == manifest_of(plan.deep_view(), wrapper.deep_view())
                &&& digest@ == manifest_digest(manifest.deep_view())
                &&& digest@.len() == 64
            },
            Err(e) => {
                &&& !plan_paths_text(plan.deep_view())
                &&& e.deep_view() == "serializing the plan"@ + ": "@ + path_error()
            },
        },
{
    let ghost p = plan.deep_view();
    let container_env = mark_env(&plan.container_env);
    let exec_env = mark_env(&plan.exec_env);
    let value = match plan.value_with(&container_env, &exec_env) {
        Ok(v) => v,
        Err(e) => {
            return Err(within("serializing the plan", e));
        },
    };
    assert(value.deep_view() == plan_json(marked_plan(p)));
    let marked = fingerprint_secrets(&value, &plan.secrets);
    let parts = match (marked, wrapper) {
        (Json::Object(o), Some(d)) => {
            let mut o = o;
            put(&mut o, ("host_exec_wrapper_digest".to_owned(), Json::Text(d.clone())));
            Json::Object(o)
        },
        (v, _) => v,
    };
    assert(parts.deep_view() == manifest_parts(p, wrapper.deep_view()));
    let manifest = sort_json(&parts);
    let canonical = json_text(&manifest);
    Ok((sha256_hex(canonical.as_str().as_bytes()), manifest))
}

/// The digest the identity carries for the host-command allowlist, over the wrapper's body: the
/// project's own file for a plan, and the copy the host executes for a running environment. None
/// where no host exec is asked for, and where the wrapper cannot be read, which reads as a
/// difference rather than as a match.
pub fn wrapper_digest(plan: &Plan, body: &Option<Vec<u8>>) -> (r: Option<String>)
    ensures
        r.deep_view() == match *body {
            Some(b) => if plan.deep_view().host_exec is Some {
                Some(sha256_text(b@))
            } else {
                None
            },
            None => None,
        },
{
    match body {
        Some(b) => if plan.host_exec.is_some() {
            Some(sha256_hex(b.as_slice()))
        } else {
            None
        },
        None => None,
    }
}

/// The commands a hook runs, each under its place in it, added to those of `out`.
pub open spec fn hook_commands(h: HookView, at: Seq<char>, out: Seq<(Seq<char>, Seq<Seq<char>>)>) -> Seq<
    (Seq<char>, Seq<Seq<char>>),
>
    decreases h, 1int, 0int,
{
    match h {
        HookView::Command(c) => with_entry(out, at, argv_of(c.run)),
        HookView::Group(g) => member_commands(h, at, out, g.len() as int),
    }
}

/// Those of the first `n` members of a group.
pub open spec fn member_commands(
    h: HookView,
    at: Seq<char>,
    out: Seq<(Seq<char>, Seq<Seq<char>>)>,
    n: int,
) -> Seq<(Seq<char>, Seq<Seq<char>>)>
    decreases h, 0int, n,
{
    match h {
        HookView::Group(g) => if n <= 0 || n > g.len() {
            out
        } else {
            hook_commands(g[n - 1].1, at + "."@ + g[n - 1].0, member_commands(h, at, out, n - 1))
        },
        _ => out,
    }
}

/// The commands a hook runs, keyed by their place in it: what a generation takes from the
/// creation hook, so editing what it runs runs it again while changing its timeout does not.
pub fn hook_argv(h: &HookPlan, at: &str, out: &mut Vec<(String, Vec<String>)>)
    ensures
        final(out).deep_view() == hook_commands(h.deep_view(), at@, old(out).deep_view()),
    decreases h.deep_view(),
{
    match h {
        HookPlan::Command(c) => {
            put_entry(out, at.to_owned(), c.argv());
        },
        HookPlan::Group(g) => {
            let ghost whole = h.deep_view();
            let ghost d = g.deep_view();
            let ghost had = out.deep_view();
            let mut i: usize = 0;
            while i < g.len()
                invariant
                    i <= g@.len(),
                    d == g.deep_view(),
                    whole == h.deep_view(),
                    whole == HookView::Group(d),
                    out.deep_view() == member_commands(whole, at@, had, i as int),
                decreases g@.len() - i,
            {
                assert(d[i as int] == (g@[i as int].0@, g@[i as int].1.deep_view()));
                assert(decreases_to!(d => d[i as int]));
                assert(decreases_to!(d[i as int] => d[i as int].1));
                assert(decreases_to!(whole => whole->Group_0));
                hook_argv(&g[i].1, cat3(at, ".", g[i].0.as_str()).as_str(), out);
                i = i + 1;
            }
        },
    }
}

/// Lists of texts under their keys, as JSON.
pub open spec fn lists_json(v: Seq<(Seq<char>, Seq<Seq<char>>)>) -> JsonTree {
    JsonTree::Object(Seq::new(v.len(), |i: int| (v[i].0, texts_json(v[i].1))))
}

fn lists_value(v: &Vec<(String, Vec<String>)>) -> (r: Json)
    ensures
        r.deep_view() == lists_json(v.deep_view()),
{
    let ghost all = lists_json(v.deep_view())->Object_0;
    let mut out: Vec<(String, Json)> = Vec::new();
    let mut i: usize = 0;
    assert(out.deep_view() =~= all.take(0));
    while i < v.len()
        invariant
            i <= v@.len(),
            all == lists_json(v.deep_view())->Object_0,
            out.deep_view() == all.take(i as int),
        decreases v@.len() - i,
    {
        assert(v.deep_view()[i as int] == (v@[i as int].0@, v@[i as int].1.deep_view()));
        put(&mut out, (v[i].0.clone(), texts_value(&v[i].1)));
        assert(out.deep_view() =~= all.take(i + 1));
        i = i + 1;
    }
    assert(out.deep_view() =~= all);
    Json::Object(out)
}

/// Each managed directory with the token it carries.
pub open spec fn storage_marks(dirs: Seq<Seq<u8>>, marks: Seq<Option<Seq<char>>>) -> Seq<(Seq<char>, Seq<char>)> {
    Seq::new(dirs.len(), |i: int| (lossy_text(dirs[i]), marker(marks[i])))
}

/// The commands the creation hook runs.
pub open spec fn create_commands(p: PlanView) -> Seq<(Seq<char>, Seq<Seq<char>>)> {
    match p.hooks.create {
        Some(h) => hook_commands(h, "create"@, Seq::empty()),
        None => Seq::empty(),
    }
}

/// What a generation is the digest of.
pub open spec fn generation_parts(p: PlanView, root: Seq<char>, marks: Seq<Option<Seq<char>>>) -> JsonTree {
    json_sorted(
        JsonTree::Object(
            seq![
                ("root"@, JsonTree::Text(root)),
                ("storage"@, pairs_json(storage_marks(p.managed_dirs, marks))),
                ("create"@, lists_json(create_commands(p))),
            ],
        ),
    )
}

/// The environment as materialized, rather than as configured: the root image it booted, the
/// token each managed directory carries, and the commands the creation hook runs. Those three
/// are what a creation hook initializes, so its stamp is keyed on this and not on the config
/// digest. `marks` is the text of each managed directory's marker file.
pub fn generation_of(plan: &Plan, root: &str, marks: &Vec<Option<String>>) -> (r: String)
    requires
        marks@.len() == plan.managed_dirs@.len(),
    ensures
        r@ == manifest_digest(generation_parts(plan.deep_view(), root@, marks.deep_view())),
{
    let ghost p = plan.deep_view();
    let mut create: Vec<(String, Vec<String>)> = Vec::new();
    assert(create.deep_view() =~= Seq::empty());
    match &plan.hooks.create {
        Some(h) => {
            hook_argv(h, "create", &mut create);
        },
        None => {},
    }
    let ghost all = storage_marks(p.managed_dirs, marks.deep_view());
    let mut storage: Vec<(String, String)> = Vec::new();
    let mut i: usize = 0;
    assert(storage.deep_view() =~= all.take(0));
    while i < plan.managed_dirs.len()
        invariant
            i <= plan.managed_dirs@.len(),
            marks@.len() == plan.managed_dirs@.len(),
            p == plan.deep_view(),
            all == storage_marks(p.managed_dirs, marks.deep_view()),
            storage.deep_view() == all.take(i as int),
        decreases plan.managed_dirs@.len() - i,
    {
        assert(p.managed_dirs[i as int] == plan.managed_dirs@[i as int].deep_view());
        assert(marks.deep_view()[i as int] == marks@[i as int].deep_view());
        put(&mut storage, (plan.managed_dirs[i].display(), marker_of(&marks[i])));
        assert(storage.deep_view() =~= all.take(i + 1));
        i = i + 1;
    }
    assert(storage.deep_view() =~= all);
    let mut parts: Vec<(String, Json)> = Vec::new();
    put(&mut parts, ("root".to_owned(), Json::Text(root.to_owned())));
    put(&mut parts, ("storage".to_owned(), pairs_value(&storage)));
    put(&mut parts, ("create".to_owned(), lists_value(&create)));
    assert(parts.deep_view() =~= seq![
        ("root"@, JsonTree::Text(root@)),
        ("storage"@, pairs_json(storage_marks(p.managed_dirs, marks.deep_view()))),
        ("create"@, lists_json(create_commands(p))),
    ]);
    let text = json_text(&sort_json(&Json::Object(parts)));
    sha256_hex(text.as_str().as_bytes())
}

/// What identifies the root image: a built one by the UUID its build stamped into it, and
/// else by its path; a pulled one by its reference; any other by the VM's label.
pub open spec fn root_named(
    root_ext4: Option<Seq<u8>>,
    uuid: Option<Seq<char>>,
    source: SourceView,
    label: Seq<char>,
) -> Seq<char> {
    match root_ext4 {
        Some(root) => match uuid {
            Some(u) => "ext4:"@ + u,
            None => "root:"@ + lossy_text(root),
        },
        None => match source {
            SourceView::Image { reference } => "image:"@ + reference,
            _ => "label:"@ + label,
        },
    }
}

/// What identifies the root image a VM booted. `root_ext4` is the image of the recipe the
/// registry entry keeps, where it keeps one, and `uuid` what that image carries.
pub fn root_identity(
    root_ext4: &Option<HostPath>,
    uuid: &Option<String>,
    source: &Source,
    label: &str,
) -> (r: String)
    ensures
        r@ == root_named(root_ext4.deep_view(), uuid.deep_view(), source.deep_view(), label@),
{
    match root_ext4 {
        Some(root) => match uuid {
            Some(u) => cat2("ext4:", u.as_str()),
            None => cat2("root:", root.display().as_str()),
        },
        None => match source {
            Source::Image { reference } => cat2("image:", reference.as_str()),
            _ => cat2("label:", label),
        },
    }
}

/// What a difference between the plan and the running environment takes to apply.
#[derive(Debug, Clone, Copy, PartialEq, Eq, PartialOrd, Ord, Structural)]
pub enum Effect {
    Session,
    Host,
    Restart,
    Rebuild,
}

impl Effect {
    pub open spec fn said(self) -> Seq<char> {
        match self {
            Effect::Session => "session-only (the next exec, shell or editor session picks it up)"@,
            Effect::Host => "host-side (applied by the next up or attach, without a restart)"@,
            Effect::Restart => "restart-required"@,
            Effect::Rebuild => "image rebuild"@,
        }
    }

    pub fn describe(self) -> (r: &'static str)
        ensures
            r@ == self.said(),
    {
        match self {
            Effect::Session => "session-only (the next exec, shell or editor session picks it up)",
            Effect::Host => "host-side (applied by the next up or attach, without a restart)",
            Effect::Restart => "restart-required",
            Effect::Rebuild => "image rebuild",
        }
    }
}

/// The end of the field a manifest key begins with.
pub open spec fn field_end(key: Seq<char>, i: int) -> int
    decreases key.len() - i,
{
    if i < 0 || i >= key.len() || key[i] == '.' || key[i] == '[' {
        i
    } else {
        field_end(key, i + 1)
    }
}

/// The field of the plan a manifest key begins with.
pub open spec fn field_of(key: Seq<char>) -> Seq<char> {
    key.take(field_end(key, 0))
}

fn field(key: &str) -> (r: String)
    ensures
        r@ == field_of(key@),
{
    let v = crate::text::chars_of(key);
    let total: usize = v.len();
    let mut i: usize = 0;
    while i < total && v[i] != '.' && v[i] != '['
        invariant
            i <= total,
            total == v@.len(),
            v@ == key@,
            field_end(key@, i as int) == field_end(key@, 0),
        decreases total - i,
    {
        i = i + 1;
    }
    let r = crate::text::text_between(&v, 0, i);
    assert(r@ =~= field_of(key@));
    r
}

/// What a change under a manifest key takes to apply.
pub open spec fn effect_at(key: Seq<char>) -> Effect {
    let top = field_of(key);
    if top == "exec_env"@ || top == "vscode"@ || top == "freshness"@ || top == "config"@ || top == "environment"@
        || top == "tasks"@ || top == "unresolved"@ {
        Effect::Session
    } else if top == "endpoints"@ || top == "requires"@ {
        Effect::Host
    } else if top == "cache"@ || top == "cached_only"@ || top == "fallback_target"@ {
        Effect::Rebuild
    } else if top == "source"@ && begins(key, "source.Build"@) {
        Effect::Rebuild
    } else {
        Effect::Restart
    }
}

/// Which effect a manifest key has. The manifest is the plan's JSON, so the keys are the
/// plan's fields. Endpoints are republished and requirements rechecked on every attach; hooks
/// run at a start and managed directories are mounted at a boot, so those need the restart
/// they are classified under. What only a build reads is a rebuild, not a restart.
pub fn effect_of(key: &str) -> (r: Effect)
    ensures
        r == effect_at(key@),
{
    let top = field(key);
    let top = top.as_str();
    if same(top, "exec_env") || same(top, "vscode") || same(top, "freshness") || same(top, "config") || same(
        top,
        "environment",
    ) || same(top, "tasks") || same(top, "unresolved") {
        Effect::Session
    } else if same(top, "endpoints") || same(top, "requires") {
        Effect::Host
    } else if same(top, "cache") || same(top, "cached_only") || same(top, "fallback_target") {
        Effect::Rebuild
    } else if same(top, "source") && begins_with(key, "source.Build") {
        Effect::Rebuild
    } else {
        Effect::Restart
    }
}

/// The key of a field: its name, behind the path it stands under.
pub open spec fn field_key(path: Seq<char>, name: Seq<char>) -> Seq<char> {
    if path.len() == 0 {
        name
    } else {
        path + "."@ + name
    }
}

/// The value is a fingerprint.
pub open spec fn is_fingerprint(v: JsonTree) -> bool {
    v matches JsonTree::Text(t) && begins(t, FINGERPRINT@)
}

/// How a scalar is written as a leaf.
pub open spec fn leaf_text(v: JsonTree) -> Seq<char> {
    if is_fingerprint(v) {
        "\""@ + v->Text_0 + "\""@
    } else {
        json_shown(v)
    }
}

/// The leaves of the value under `path`, each as it is written, added to those of `out`.
/// Arrays of named objects are keyed by name, arrays of scalars by their value, so a reordering
/// is not a change and an addition names what was added. A fingerprint names nothing: what
/// would be keyed by one is keyed by its place.
pub open spec fn flat(v: JsonTree, path: Seq<char>, out: Seq<(Seq<char>, Seq<char>)>) -> Seq<(Seq<char>, Seq<char>)>
    decreases v, 1int, 0int,
{
    match v {
        JsonTree::Object(o) => flat_fields(v, path, false, out, o.len() as int),
        JsonTree::Array(a) => flat_items(v, path, out, a.len() as int),
        _ => with_entry(out, path, leaf_text(v)),
    }
}

/// Those of the first `n` fields of an object, but for its name where it is `named`.
pub open spec fn flat_fields(
    v: JsonTree,
    path: Seq<char>,
    named: bool,
    out: Seq<(Seq<char>, Seq<char>)>,
    n: int,
) -> Seq<(Seq<char>, Seq<char>)>
    decreases v, 0int, n,
{
    match v {
        JsonTree::Object(o) => if n <= 0 || n > o.len() {
            out
        } else {
            let had = flat_fields(v, path, named, out, n - 1);
            if named && o[n - 1].0 == "name"@ {
                had
            } else {
                flat(o[n - 1].1, field_key(path, o[n - 1].0), had)
            }
        },
        _ => out,
    }
}

/// The name of an item that has one it can be told by.
pub open spec fn item_name(v: JsonTree) -> Option<Seq<char>> {
    match v {
        JsonTree::Object(o) => match entry(o, "name"@) {
            Some(JsonTree::Text(t)) => if begins(t, FINGERPRINT@) {
                None
            } else {
                Some(t)
            },
            _ => None,
        },
        _ => None,
    }
}

/// Those of the first `n` items of an array.
pub open spec fn flat_items(v: JsonTree, path: Seq<char>, out: Seq<(Seq<char>, Seq<char>)>, n: int) -> Seq<
    (Seq<char>, Seq<char>),
>
    decreases v, 0int, n,
{
    match v {
        JsonTree::Array(a) => if n <= 0 || n > a.len() {
            out
        } else {
            let had = flat_items(v, path, out, n - 1);
            let item = a[n - 1];
            match item_name(item) {
                Some(name) => flat_fields(item, path + "."@ + name, true, had, item->Object_0.len() as int),
                None => if item is Object || item is Array || is_fingerprint(item) {
                    flat(item, path + "["@ + decimal((n - 1) as nat) + "]"@, had)
                } else {
                    with_entry(had, path + "["@ + json_shown(item) + "]"@, "present"@)
                },
            }
        },
        _ => out,
    }
}

fn fields_flattened(v: &Json, path: &str, named: bool, out: &mut Vec<(String, String)>)
    requires
        v is Object,
    ensures
        final(out).deep_view() == flat_fields(
            v.deep_view(),
            path@,
            named,
            old(out).deep_view(),
            v->Object_0@.len() as int,
        ),
    decreases v.deep_view(), 0int,
{
    let ghost had = out.deep_view();
    if let Json::Object(o) = v {
        let ghost whole = v.deep_view();
        let ghost d = o.deep_view();
        let mut i: usize = 0;
        while i < o.len()
            invariant
                i <= o@.len(),
                d == o.deep_view(),
                whole == v.deep_view(),
                whole == JsonTree::Object(d),
                out.deep_view() == flat_fields(whole, path@, named, had, i as int),
            decreases o@.len() - i,
        {
            assert(d[i as int] == (o@[i as int].0@, o@[i as int].1.deep_view()));
            assert(decreases_to!(d => d[i as int]));
            assert(decreases_to!(d[i as int] => d[i as int].1));
            assert(decreases_to!(whole => whole->Object_0));
            if !(named && same(o[i].0.as_str(), "name")) {
                let key = if path.is_empty() {
                    o[i].0.clone()
                } else {
                    cat3(path, ".", o[i].0.as_str())
                };
                assert(key@ == field_key(path@, o@[i as int].0@));
                flatten(&o[i].1, key.as_str(), out);
            }
            i = i + 1;
        }
    }
}

fn name_in(v: &Json) -> (r: Option<String>)
    ensures
        r.deep_view() == item_name(v.deep_view()),
{
    match v {
        Json::Object(o) => match get(o, "name") {
            Some(Json::Text(t)) => if begins_with(t.as_str(), FINGERPRINT) {
                None
            } else {
                Some(t.clone())
            },
            _ => None,
        },
        _ => None,
    }
}

fn scalar_text(v: &Json) -> (r: String)
    requires
        !(v is Object || v is Array),
    ensures
        r@ == leaf_text(v.deep_view()),
{
    if let Json::Text(t) = v {
        if begins_with(t.as_str(), FINGERPRINT) {
            return cat3("\"", t.as_str(), "\"");
        }
    }
    json_text(v)
}

/// The manifest as leaves under their paths, so two of them compare entry by entry.
pub fn flatten(v: &Json, path: &str, out: &mut Vec<(String, String)>)
    ensures
        final(out).deep_view() == flat(v.deep_view(), path@, old(out).deep_view()),
    decreases v.deep_view(), 1int,
{
    let ghost had = out.deep_view();
    match v {
        Json::Object(_) => {
            fields_flattened(v, path, false, out);
        },
        Json::Array(a) => {
            let ghost whole = v.deep_view();
            let ghost d = a.deep_view();
            let mut i: usize = 0;
            while i < a.len()
                invariant
                    i <= a@.len(),
                    d == a.deep_view(),
                    whole == v.deep_view(),
                    whole == JsonTree::Array(d),
                    out.deep_view() == flat_items(whole, path@, had, i as int),
                decreases a@.len() - i,
            {
                let item = &a[i];
                assert(d[i as int] == item.deep_view());
                assert(decreases_to!(d => d[i as int]));
                assert(decreases_to!(whole => whole->Array_0));
                match name_in(item) {
                    Some(name) => {
                        fields_flattened(item, cat3(path, ".", name.as_str()).as_str(), true, out);
                    },
                    None => {
                        let placed = match item {
                            Json::Object(_) | Json::Array(_) => true,
                            Json::Text(t) => begins_with(t.as_str(), FINGERPRINT),
                            _ => false,
                        };
                        if placed {
                            let at = to_decimal(i as u64);
                            flatten(item, cat4(path, "[", at.as_str(), "]").as_str(), out);
                        } else {
                            let shown = json_text(item);
                            put_entry(out, cat4(path, "[", shown.as_str(), "]"), "present".to_owned());
                        }
                    },
                }
                i = i + 1;
            }
        },
        _ => {
            let shown = scalar_text(v);
            put_entry(out, path.to_owned(), shown);
        },
    }
}

/// The leaves of a manifest.
pub open spec fn leaves_of(m: JsonTree) -> Seq<(Seq<char>, Seq<char>)> {
    flat(m, Seq::empty(), Seq::empty())
}

/// The texts as a set, in order.
pub open spec fn as_set(ks: Seq<Seq<char>>, n: int) -> Seq<(Seq<char>, ())>
    decreases n,
{
    if n <= 0 {
        Seq::empty()
    } else {
        with_entry(as_set(ks, n - 1), ks[n - 1], ())
    }
}

/// The keys of either manifest, in order.
pub open spec fn either_keys(before: Seq<(Seq<char>, Seq<char>)>, after: Seq<(Seq<char>, Seq<char>)>) -> Seq<
    Seq<char>,
> {
    let ks = keys_of(before) + keys_of(after);
    keys_of(as_set(ks, ks.len() as int))
}

/// The leaf is a fingerprint.
pub open spec fn hidden(v: Option<Seq<char>>) -> bool {
    match v {
        Some(t) => begins(t, "\""@ + FINGERPRINT@),
        None => false,
    }
}

/// What a diff says of a key, given what stands under it before and after. A fingerprint stands
/// for a value this host supplied, so the key is all that is said of one.
pub open spec fn change(key: Seq<char>, before: Option<Seq<char>>, after: Option<Seq<char>>) -> Option<Seq<char>> {
    if before == after {
        None
    } else if hidden(before) || hidden(after) {
        Some(key + ": changed (a value this host supplies)"@)
    } else {
        match (before, after) {
            (Some(a), Some(b)) => Some(key + ": "@ + a + " -> "@ + b),
            (Some(a), None) => Some(key + ": "@ + a + " -> (removed)"@),
            (None, Some(b)) => Some(key + ": (added) "@ + b),
            (None, None) => None,
        }
    }
}

fn is_hidden(v: Option<&String>) -> (r: bool)
    ensures
        r == hidden(v.deep_view()),
{
    match v {
        Some(t) => begins_with(t.as_str(), cat2("\"", FINGERPRINT).as_str()),
        None => false,
    }
}

fn said_change(key: &str, before: Option<&String>, after: Option<&String>) -> (r: Option<String>)
    ensures
        r.deep_view() == change(key@, before.deep_view(), after.deep_view()),
{
    match (before, after) {
        (Some(a), Some(b)) => if same(a.as_str(), b.as_str()) {
            None
        } else if is_hidden(before) || is_hidden(after) {
            Some(cat2(key, ": changed (a value this host supplies)"))
        } else {
            Some(cat5(key, ": ", a.as_str(), " -> ", b.as_str()))
        },
        (Some(a), None) => if is_hidden(before) {
            Some(cat2(key, ": changed (a value this host supplies)"))
        } else {
            Some(cat4(key, ": ", a.as_str(), " -> (removed)"))
        },
        (None, Some(b)) => if is_hidden(after) {
            Some(cat2(key, ": changed (a value this host supplies)"))
        } else {
            Some(cat3(key, ": (added) ", b.as_str()))
        },
        (None, None) => None,
    }
}

/// The differences between two manifests, one line each, grouped by what applying them takes.
#[derive(Debug)]
pub struct Drift {
    pub session: Vec<String>,
    pub host: Vec<String>,
    pub restart: Vec<String>,
    pub rebuild: Vec<String>,
}

pub struct DriftView {
    pub session: Seq<Seq<char>>,
    pub host: Seq<Seq<char>>,
    pub restart: Seq<Seq<char>>,
    pub rebuild: Seq<Seq<char>>,
}

impl DeepView for Drift {
    type V = DriftView;

    open spec fn deep_view(&self) -> DriftView {
        DriftView {
            session: self.session.deep_view(),
            host: self.host.deep_view(),
            restart: self.restart.deep_view(),
            rebuild: self.rebuild.deep_view(),
        }
    }
}

impl DriftView {
    /// Nothing changed.
    pub open spec fn is_none(self) -> bool {
        self.session.len() == 0 && self.host.len() == 0 && self.restart.len() == 0 && self.rebuild.len() == 0
    }

    /// The lines of one effect.
    pub open spec fn of(self, e: Effect) -> Seq<Seq<char>> {
        match e {
            Effect::Session => self.session,
            Effect::Host => self.host,
            Effect::Restart => self.restart,
            Effect::Rebuild => self.rebuild,
        }
    }
}

/// The changes under the first `n` keys that have this effect.
pub open spec fn changes(
    keys: Seq<Seq<char>>,
    before: Seq<(Seq<char>, Seq<char>)>,
    after: Seq<(Seq<char>, Seq<char>)>,
    effect: Effect,
    n: int,
) -> Seq<Seq<char>>
    decreases n,
{
    if n <= 0 {
        Seq::empty()
    } else {
        let had = changes(keys, before, after, effect, n - 1);
        let k = keys[n - 1];
        match change(k, entry(before, k), entry(after, k)) {
            Some(line) => if effect_at(k) == effect {
                had.push(line)
            } else {
                had
            },
            None => had,
        }
    }
}

/// All changes under the first `n` keys.
pub open spec fn drift_upto(
    keys: Seq<Seq<char>>,
    before: Seq<(Seq<char>, Seq<char>)>,
    after: Seq<(Seq<char>, Seq<char>)>,
    n: int,
) -> DriftView {
    DriftView {
        session: changes(keys, before, after, Effect::Session, n),
        host: changes(keys, before, after, Effect::Host, n),
        restart: changes(keys, before, after, Effect::Restart, n),
        rebuild: changes(keys, before, after, Effect::Rebuild, n),
    }
}

/// How the manifest of a plan differs from the recorded one.
pub open spec fn drifted(recorded: JsonTree, current: JsonTree) -> DriftView {
    let before = leaves_of(recorded);
    let after = leaves_of(current);
    let keys = either_keys(before, after);
    drift_upto(keys, before, after, keys.len() as int)
}

fn add_keys(v: &Vec<(String, String)>, out: &mut Vec<(String, ())>, Ghost(ks): Ghost<Seq<Seq<char>>>, Ghost(from): Ghost<int>)
    requires
        0 <= from,
        from + v@.len() <= ks.len(),
        forall|i: int| 0 <= i < v@.len() ==> ks[from + i] == #[trigger] v.deep_view()[i].0,
        old(out).deep_view() == as_set(ks, from),
    ensures
        final(out).deep_view() == as_set(ks, from + v@.len()),
{
    let mut i: usize = 0;
    while i < v.len()
        invariant
            0 <= from,
            i <= v@.len(),
            from + v@.len() <= ks.len(),
            forall|i: int| 0 <= i < v@.len() ==> ks[from + i] == #[trigger] v.deep_view()[i].0,
            out.deep_view() == as_set(ks, from + i),
        decreases v@.len() - i,
    {
        assert(v.deep_view()[i as int].0 == v@[i as int].0@);
        put_entry(out, v[i].0.clone(), ());
        i = i + 1;
    }
}

/// The differences between two manifests, one line each, grouped by what applying them takes.
pub fn drift(recorded: &Json, current: &Json) -> (r: Drift)
    ensures
        r.deep_view() == drifted(recorded.deep_view(), current.deep_view()),
{
    let mut before: Vec<(String, String)> = Vec::new();
    assert(before.deep_view() =~= Seq::empty());
    proof {
        reveal_strlit("");
        assert(""@ =~= Seq::<char>::empty());
    }
    flatten(recorded, "", &mut before);
    let mut after: Vec<(String, String)> = Vec::new();
    assert(after.deep_view() =~= Seq::empty());
    flatten(current, "", &mut after);
    let ghost b = before.deep_view();
    let ghost a = after.deep_view();
    let ghost ks = keys_of(b) + keys_of(a);
    let mut all: Vec<(String, ())> = Vec::new();
    assert(all.deep_view() =~= as_set(ks, 0));
    add_keys(&before, &mut all, Ghost(ks), Ghost(0));
    add_keys(&after, &mut all, Ghost(ks), Ghost(b.len() as int));
    let each = keys(&all);
    let ghost e = each.deep_view();
    assert(e == either_keys(b, a));
    let mut out = Drift { session: Vec::new(), host: Vec::new(), restart: Vec::new(), rebuild: Vec::new() };
    let mut i: usize = 0;
    assert(out.deep_view() == drift_upto(e, b, a, 0)) by {
        assert(out.session.deep_view() =~= Seq::empty());
        assert(out.host.deep_view() =~= Seq::empty());
        assert(out.restart.deep_view() =~= Seq::empty());
        assert(out.rebuild.deep_view() =~= Seq::empty());
    }
    while i < each.len()
        invariant
            i <= each@.len(),
            b == before.deep_view(),
            a == after.deep_view(),
            e == each.deep_view(),
            out.deep_view() == drift_upto(e, b, a, i as int),
        decreases each@.len() - i,
    {
        let key = each[i].as_str();
        assert(e[i as int] == key@);
        match said_change(key, get(&before, key), get(&after, key)) {
            Some(line) => match effect_of(key) {
                Effect::Session => put(&mut out.session, line),
                Effect::Host => put(&mut out.host, line),
                Effect::Restart => put(&mut out.restart, line),
                Effect::Rebuild => put(&mut out.rebuild, line),
            },
            None => {},
        }
        i = i + 1;
    }
    out
}

impl Drift {
    pub fn is_empty(&self) -> (r: bool)
        ensures
            r == self.deep_view().is_none(),
    {
        self.session.is_empty() && self.host.is_empty() && self.restart.is_empty() && self.rebuild.is_empty()
    }
}

/// Something changed, and all of it is session-level or host-side.
pub open spec fn attachable(d: DriftView) -> bool {
    !d.is_none() && d.restart.len() == 0 && d.rebuild.len() == 0
}

/// Whether a drift is one that `up` applies to a running environment without a restart.
pub fn applied_on_attach(groups: &Drift) -> (r: bool)
    ensures
        r == attachable(groups.deep_view()),
{
    !groups.is_empty() && groups.restart.is_empty() && groups.rebuild.is_empty()
}

/// The first `n` lines, each indented.
pub open spec fn indented(lines: Seq<Seq<char>>, n: int) -> Seq<char>
    decreases n,
{
    if n <= 0 {
        Seq::empty()
    } else {
        indented(lines, n - 1) + ("  "@ + lines[n - 1] + "\n"@)
    }
}

/// One group of changes under what it takes, or nothing where there are none.
pub open spec fn group_shown(e: Effect, lines: Seq<Seq<char>>) -> Seq<char> {
    if lines.len() == 0 {
        Seq::empty()
    } else {
        e.said() + ":\n"@ + indented(lines, lines.len() as int)
    }
}

fn add_group(out: &mut String, e: Effect, lines: &Vec<String>)
    ensures
        final(out)@ == old(out)@ + group_shown(e, lines.deep_view()),
{
    let ghost had = out@;
    assert(lines.deep_view().len() == lines@.len());
    if lines.is_empty() {
        assert(out@ =~= had + group_shown(e, lines.deep_view()));
        return ;
    }
    out.append(e.describe());
    out.append(":\n");
    let ghost head = had + (e.said() + ":\n"@);
    assert(out@ =~= head + indented(lines.deep_view(), 0));
    let mut i: usize = 0;
    while i < lines.len()
        invariant
            i <= lines@.len(),
            out@ == head + indented(lines.deep_view(), i as int),
        decreases lines@.len() - i,
    {
        assert(lines.deep_view()[i as int] == lines@[i as int]@);
        out.append(cat3("  ", lines[i].as_str(), "\n").as_str());
        assert(out@ =~= head + indented(lines.deep_view(), i + 1));
        i = i + 1;
    }
    assert(out@ =~= had + group_shown(e, lines.deep_view()));
}

/// What a diff says of the creation hook.
pub open spec fn pending_shown(create_pending: bool) -> Seq<char> {
    if create_pending {
        "create hook will run again on the next boot\n"@
    } else {
        Seq::empty()
    }
}

/// What applying a plan to the running environment would change, in words.
pub open spec fn diff_shown(digest: Seq<char>, d: DriftView, stale: bool, create_pending: bool) -> Seq<char> {
    if d.is_none() && !stale {
        "the running environment matches the plan ("@ + first_chars(digest, 12) + ")\n"@ + pending_shown(
            create_pending,
        )
    } else {
        group_shown(Effect::Session, d.session) + group_shown(Effect::Host, d.host) + group_shown(
            Effect::Restart,
            d.restart,
        ) + group_shown(Effect::Rebuild, d.rebuild) + (if stale {
            Effect::Rebuild.said() + ":\n  the image's sources have changed since it was built\n"@
        } else {
            Seq::empty()
        }) + pending_shown(create_pending) + (if !stale && attachable(d) {
            "`vk dev up` applies all of it, without a restart\n"@
        } else {
            "`vk dev refresh` applies all of it\n"@
        })
    }
}

pub fn show_diff(digest: &str, d: &Drift, stale: bool, create_pending: bool) -> (r: String)
    ensures
        r@ == diff_shown(digest@, d.deep_view(), stale, create_pending),
{
    let pending = if create_pending {
        "create hook will run again on the next boot\n".to_owned()
    } else {
        String::new()
    };
    assert(pending@ =~= pending_shown(create_pending));
    if d.is_empty() && !stale {
        return cat4(
            "the running environment matches the plan (",
            shorten(digest, 12).as_str(),
            ")\n",
            pending.as_str(),
        );
    }
    let mut out = String::new();
    add_group(&mut out, Effect::Session, &d.session);
    assert(out@ =~= group_shown(Effect::Session, d.deep_view().session));
    add_group(&mut out, Effect::Host, &d.host);
    add_group(&mut out, Effect::Restart, &d.restart);
    add_group(&mut out, Effect::Rebuild, &d.rebuild);
    let image = if stale {
        cat2(Effect::Rebuild.describe(), ":\n  the image's sources have changed since it was built\n")
    } else {
        String::new()
    };
    out.append(image.as_str());
    out.append(pending.as_str());
    if !stale && applied_on_attach(d) {
        out.append("`vk dev up` applies all of it, without a restart\n");
    } else {
        out.append("`vk dev refresh` applies all of it\n");
    }
    out
}

/// What `vk dev plan --diff` prints, given what is running and what its boot recorded.
pub open spec fn plan_diff_of(
    p: PlanView,
    running: bool,
    recorded: Option<JsonTree>,
    wrapper: Option<Seq<char>>,
    stale: bool,
    stamped: bool,
) -> Result<Option<Seq<char>>, Seq<char>> {
    if !running {
        Ok(None)
    } else {
        match recorded {
            None => Err("the running environment recorded no identity to compare against"@),
            Some(m) => if !plan_paths_text(p) {
                Err("serializing the plan"@ + ": "@ + path_error())
            } else {
                let now = manifest_of(p, wrapper);
                Ok(
                    Some(
                        diff_shown(manifest_digest(now), drifted(m, now), stale, p.hooks.create is Some && !stamped),
                    ),
                )
            },
        }
    }
}

/// What applying the current plan to the running environment would change, and what each
/// change takes. None when nothing is running to compare against. `stale` says that the
/// running image's sources have changed, `stamped` that the creation hook has run in the
/// generation that is running.
pub fn plan_diff(
    plan: &Plan,
    running: bool,
    recorded: &Option<Json>,
    wrapper: &Option<String>,
    stale: bool,
    stamped: bool,
) -> (r: Result<Option<String>, Error>)
    ensures
        outcome(r) == plan_diff_of(
            plan.deep_view(),
            running,
            recorded.deep_view(),
            wrapper.deep_view(),
            stale,
            stamped,
        ),
{
    if !running {
        return Ok(None);
    }
    match recorded {
        None => Err(error("the running environment recorded no identity to compare against".to_owned())),
        Some(m) => {
            let (digest, current) = identity_of(plan, wrapper)?;
            let groups = drift(m, &current);
            Ok(Some(show_diff(digest.as_str(), &groups, stale, plan.hooks.create.is_some() && !stamped)))
        },
    }
}

/// The value put over another where there is one.
pub open spec fn over<T>(top: Option<T>, below: Option<T>) -> Option<T> {
    match top {
        Some(x) => Some(x),
        None => below,
    }
}

/// `a` is `b` put over `c`, key by key.
pub open spec fn laid_over<T>(
    a: Seq<(Seq<char>, T)>,
    b: Seq<(Seq<char>, T)>,
    c: Seq<(Seq<char>, T)>,
) -> bool {
    forall|k: Seq<char>| #[trigger] entry(a, k) == over(entry(b, k), entry(c, k))
}

/// Leaves are put over what was there.
pub proof fn lemma_flat(v: JsonTree, path: Seq<char>, out: Seq<(Seq<char>, Seq<char>)>)
    requires
        sorted(out),
    ensures
        sorted(flat(v, path, out)),
        laid_over(flat(v, path, out), flat(v, path, Seq::empty()), out),
    decreases v, 1int, 0int,
{
    match v {
        JsonTree::Object(o) => lemma_flat_fields(v, path, false, out, o.len() as int),
        JsonTree::Array(a) => lemma_flat_items(v, path, out, a.len() as int),
        _ => lemma_one_over(out, path, leaf_text(v)),
    }
}

proof fn lemma_one_over(out: Seq<(Seq<char>, Seq<char>)>, k: Seq<char>, x: Seq<char>)
    requires
        sorted(out),
    ensures
        sorted(with_entry(out, k, x)),
        laid_over(with_entry(out, k, x), with_entry(Seq::empty(), k, x), out),
{
    let none = Seq::<(Seq<char>, Seq<char>)>::empty();
    lemma_with_entry(out, k, x);
    lemma_with_entry(none, k, x);
    assert forall|o: Seq<char>| #[trigger] entry(with_entry(out, k, x), o) == over(
        entry(with_entry(none, k, x), o),
        entry(out, o),
    ) by {
        assert(entry(none, o) is None);
    }
}

proof fn lemma_over_over(
    whole: Seq<(Seq<char>, Seq<char>)>,
    alone: Seq<(Seq<char>, Seq<char>)>,
    last: Seq<(Seq<char>, Seq<char>)>,
    had: Seq<(Seq<char>, Seq<char>)>,
    had_alone: Seq<(Seq<char>, Seq<char>)>,
    out: Seq<(Seq<char>, Seq<char>)>,
)
    requires
        laid_over(whole, last, had),
        laid_over(alone, last, had_alone),
        laid_over(had, had_alone, out),
    ensures
        laid_over(whole, alone, out),
{
    assert forall|k: Seq<char>| #[trigger] entry(whole, k) == over(entry(alone, k), entry(out, k)) by {
        assert(entry(had, k) == over(entry(had_alone, k), entry(out, k)));
    }
}

proof fn lemma_flat_fields(
    v: JsonTree,
    path: Seq<char>,
    named: bool,
    out: Seq<(Seq<char>, Seq<char>)>,
    n: int,
)
    requires
        sorted(out),
    ensures
        sorted(flat_fields(v, path, named, out, n)),
        laid_over(flat_fields(v, path, named, out, n), flat_fields(v, path, named, Seq::empty(), n), out),
    decreases v, 0int, n,
{
    let none = Seq::<(Seq<char>, Seq<char>)>::empty();
    assert(forall|k: Seq<char>| entry(none, k) is None);
    if v is Object && 0 < n <= v->Object_0.len() {
        let o = v->Object_0;
        lemma_flat_fields(v, path, named, out, n - 1);
        lemma_flat_fields(v, path, named, none, n - 1);
        if !(named && o[n - 1].0 == "name"@) {
            let had = flat_fields(v, path, named, out, n - 1);
            let had_alone = flat_fields(v, path, named, none, n - 1);
            let key = field_key(path, o[n - 1].0);
            assert(decreases_to!(o => o[n - 1]));
            assert(decreases_to!(o[n - 1] => o[n - 1].1));
            assert(decreases_to!(v => v->Object_0));
            lemma_flat(o[n - 1].1, key, had);
            lemma_flat(o[n - 1].1, key, had_alone);
            lemma_over_over(
                flat(o[n - 1].1, key, had),
                flat(o[n - 1].1, key, had_alone),
                flat(o[n - 1].1, key, none),
                had,
                had_alone,
                out,
            );
        }
    }
}

/// What one item of an array adds, where it is keyed by name or by value.
pub open spec fn item_leaves(item: JsonTree, path: Seq<char>) -> Seq<(Seq<char>, Seq<char>)> {
    match item_name(item) {
        Some(name) => flat_fields(item, path + "."@ + name, true, Seq::empty(), item->Object_0.len() as int),
        None => with_entry(Seq::empty(), path + "["@ + json_shown(item) + "]"@, "present"@),
    }
}

/// The item is keyed by name or by value, not by its place.
pub open spec fn placeless(item: JsonTree) -> bool {
    item_name(item) is Some || !(item is Object || item is Array || is_fingerprint(item))
}

proof fn lemma_flat_items(v: JsonTree, path: Seq<char>, out: Seq<(Seq<char>, Seq<char>)>, n: int)
    requires
        sorted(out),
    ensures
        sorted(flat_items(v, path, out, n)),
        laid_over(flat_items(v, path, out, n), flat_items(v, path, Seq::empty(), n), out),
        v is Array && 0 < n <= v->Array_0.len() && placeless(v->Array_0[n - 1]) ==> laid_over(
            flat_items(v, path, out, n),
            item_leaves(v->Array_0[n - 1], path),
            flat_items(v, path, out, n - 1),
        ),
    decreases v, 0int, n,
{
    let none = Seq::<(Seq<char>, Seq<char>)>::empty();
    assert(forall|k: Seq<char>| entry(none, k) is None);
    if v is Array && 0 < n <= v->Array_0.len() {
        let a = v->Array_0;
        lemma_flat_items(v, path, out, n - 1);
        lemma_flat_items(v, path, none, n - 1);
        let had = flat_items(v, path, out, n - 1);
        let had_alone = flat_items(v, path, none, n - 1);
        let item = a[n - 1];
        assert(decreases_to!(a => a[n - 1]));
        assert(decreases_to!(v => v->Array_0));
        let whole = flat_items(v, path, out, n);
        let alone = flat_items(v, path, none, n);
        match item_name(item) {
            Some(name) => {
                let at = path + "."@ + name;
                let len = item->Object_0.len() as int;
                lemma_flat_fields(item, at, true, had, len);
                lemma_flat_fields(item, at, true, had_alone, len);
                lemma_over_over(whole, alone, flat_fields(item, at, true, none, len), had, had_alone, out);
            },
            None => if item is Object || item is Array || is_fingerprint(item) {
                let at = path + "["@ + decimal((n - 1) as nat) + "]"@;
                lemma_flat(item, at, had);
                lemma_flat(item, at, had_alone);
                lemma_over_over(whole, alone, flat(item, at, none), had, had_alone, out);
            } else {
                let at = path + "["@ + json_shown(item) + "]"@;
                lemma_one_over(had, at, "present"@);
                lemma_one_over(had_alone, at, "present"@);
                lemma_over_over(whole, alone, with_entry(none, at, "present"@), had, had_alone, out);
            },
        }
    }
}

proof fn lemma_leaves_sorted(m: JsonTree)
    ensures
        sorted(leaves_of(m)),
{
    lemma_flat(m, Seq::empty(), Seq::empty());
}

/// Where two items both have a leaf under a key, it is one leaf.
pub open spec fn agreeing(a: Seq<JsonTree>, path: Seq<char>) -> bool {
    forall|i: int, j: int, k: Seq<char>|
        0 <= i < a.len() && 0 <= j < a.len() && (#[trigger] entry(item_leaves(a[i], path), k)) is Some && (
        #[trigger] entry(item_leaves(a[j], path), k)) is Some ==> entry(item_leaves(a[i], path), k) == entry(
            item_leaves(a[j], path),
            k,
        )
}

proof fn lemma_items_at(
    a: Seq<JsonTree>,
    path: Seq<char>,
    out: Seq<(Seq<char>, Seq<char>)>,
    n: int,
    k: Seq<char>,
)
    requires
        sorted(out),
        0 <= n <= a.len(),
        forall|i: int| 0 <= i < a.len() ==> placeless(#[trigger] a[i]),
        agreeing(a, path),
    ensures
        ({
            let r = entry(flat_items(JsonTree::Array(a), path, out, n), k);
            &&& (forall|i: int| 0 <= i < n ==> (#[trigger] entry(item_leaves(a[i], path), k)) is None) ==> r == entry(
                out,
                k,
            )
            &&& forall|i: int|
                0 <= i < n && (#[trigger] entry(item_leaves(a[i], path), k)) is Some ==> r == entry(
                    item_leaves(a[i], path),
                    k,
                )
        }),
    decreases n,
{
    if n > 0 {
        let v = JsonTree::Array(a);
        assert(v->Array_0 == a);
        lemma_items_at(a, path, out, n - 1, k);
        lemma_flat_items(v, path, out, n);
        assert(placeless(a[n - 1]));
        assert(entry(flat_items(v, path, out, n), k) == over(
            entry(item_leaves(a[n - 1], path), k),
            entry(flat_items(v, path, out, n - 1), k),
        ));
    }
}

/// Reordering an array whose items are keyed by name or by value, none of them writing over
/// what another says, changes no leaf.
pub proof fn law_reordering_is_no_change(
    a: Seq<JsonTree>,
    b: Seq<JsonTree>,
    path: Seq<char>,
    out: Seq<(Seq<char>, Seq<char>)>,
)
    requires
        sorted(out),
        forall|x: JsonTree| a.contains(x) <==> b.contains(x),
        forall|i: int| 0 <= i < a.len() ==> placeless(#[trigger] a[i]),
        agreeing(a, path),
    ensures
        flat(JsonTree::Array(a), path, out) == flat(JsonTree::Array(b), path, out),
{
    assert forall|i: int| 0 <= i < b.len() implies #[trigger] a.contains(b[i]) by {
        assert(b.contains(b[i]));
    }
    assert forall|i: int| 0 <= i < a.len() implies #[trigger] b.contains(a[i]) by {
        assert(a.contains(a[i]));
    }
    assert forall|i: int| 0 <= i < b.len() implies placeless(#[trigger] b[i]) by {
        assert(a.contains(b[i]));
        let p = choose|p: int| 0 <= p < a.len() && a[p] == b[i];
        assert(placeless(a[p]));
    }
    assert(agreeing(b, path)) by {
        assert forall|i: int, j: int, k: Seq<char>|
            0 <= i < b.len() && 0 <= j < b.len() && (#[trigger] entry(item_leaves(b[i], path), k)) is Some && (
            #[trigger] entry(item_leaves(b[j], path), k)) is Some implies entry(item_leaves(b[i], path), k) == entry(
            item_leaves(b[j], path),
            k,
        ) by {
            assert(a.contains(b[i]) && a.contains(b[j]));
            let p = choose|p: int| 0 <= p < a.len() && a[p] == b[i];
            let q = choose|q: int| 0 <= q < a.len() && a[q] == b[j];
            assert(entry(item_leaves(a[p], path), k) is Some && entry(item_leaves(a[q], path), k) is Some);
        }
    }
    let x = flat(JsonTree::Array(a), path, out);
    let y = flat(JsonTree::Array(b), path, out);
    lemma_flat(JsonTree::Array(a), path, out);
    lemma_flat(JsonTree::Array(b), path, out);
    assert forall|k: Seq<char>| #[trigger] entry(x, k) == entry(y, k) by {
        lemma_items_at(a, path, out, a.len() as int, k);
        lemma_items_at(b, path, out, b.len() as int, k);
        if exists|i: int| 0 <= i < a.len() && (#[trigger] entry(item_leaves(a[i], path), k)) is Some {
            let i = choose|i: int| 0 <= i < a.len() && (#[trigger] entry(item_leaves(a[i], path), k)) is Some;
            assert(b.contains(a[i]));
            let p = choose|p: int| 0 <= p < b.len() && b[p] == a[i];
            assert(entry(item_leaves(b[p], path), k) is Some);
        } else {
            assert forall|i: int| 0 <= i < b.len() implies (#[trigger] entry(item_leaves(b[i], path), k)) is None by {
                assert(a.contains(b[i]));
                let p = choose|p: int| 0 <= p < a.len() && a[p] == b[i];
                assert(entry(item_leaves(a[p], path), k) is None);
            }
        }
    }
    crate::entries::lemma_sorted_same(x, y);
}

proof fn lemma_as_set(ks: Seq<Seq<char>>, n: int)
    requires
        0 <= n <= ks.len(),
    ensures
        sorted(as_set(ks, n)),
        forall|i: int| 0 <= i < n ==> entry(as_set(ks, n), #[trigger] ks[i]) is Some,
    decreases n,
{
    if n > 0 {
        lemma_as_set(ks, n - 1);
        lemma_with_entry(as_set(ks, n - 1), ks[n - 1], ());
    }
}

proof fn lemma_changes_none(
    ks: Seq<Seq<char>>,
    before: Seq<(Seq<char>, Seq<char>)>,
    after: Seq<(Seq<char>, Seq<char>)>,
    e: Effect,
    n: int,
)
    requires
        forall|k: Seq<char>| #[trigger] entry(before, k) == entry(after, k),
    ensures
        changes(ks, before, after, e, n).len() == 0,
    decreases n,
{
    if n > 0 {
        lemma_changes_none(ks, before, after, e, n - 1);
        assert(entry(before, ks[n - 1]) == entry(after, ks[n - 1]));
    }
}

proof fn lemma_change_told(
    ks: Seq<Seq<char>>,
    before: Seq<(Seq<char>, Seq<char>)>,
    after: Seq<(Seq<char>, Seq<char>)>,
    n: int,
    i: int,
)
    requires
        0 <= i < n <= ks.len(),
        entry(before, ks[i]) != entry(after, ks[i]),
    ensures
        changes(ks, before, after, effect_at(ks[i]), n).contains(
            change(ks[i], entry(before, ks[i]), entry(after, ks[i]))->0,
        ),
    decreases n,
{
    let e = effect_at(ks[i]);
    let line = change(ks[i], entry(before, ks[i]), entry(after, ks[i]))->0;
    let r = changes(ks, before, after, e, n);
    let had = changes(ks, before, after, e, n - 1);
    if i == n - 1 {
        assert(r == had.push(line));
        assert(r[had.len() as int] == line);
    } else {
        lemma_change_told(ks, before, after, n - 1, i);
        let j = choose|j: int| 0 <= j < had.len() && had[j] == line;
        assert(r[j] == line);
    }
}

/// Every key under which two manifests differ is told, under what applying it takes.
pub proof fn law_every_change_is_told(recorded: JsonTree, current: JsonTree, key: Seq<char>)
    requires
        entry(leaves_of(recorded), key) != entry(leaves_of(current), key),
    ensures
        drifted(recorded, current).of(effect_at(key)).contains(
            change(key, entry(leaves_of(recorded), key), entry(leaves_of(current), key))->0,
        ),
{
    let before = leaves_of(recorded);
    let after = leaves_of(current);
    let kb = keys_of(before);
    let ka = keys_of(after);
    let ks = kb + ka;
    let all = as_set(ks, ks.len() as int);
    lemma_as_set(ks, ks.len() as int);
    crate::entries::lemma_place(before, key, 0);
    crate::entries::lemma_place(after, key, 0);
    let p = crate::entries::place_from(before, key, 0);
    let q = crate::entries::place_from(after, key, 0);
    let at = if p < before.len() {
        p
    } else {
        before.len() + q
    };
    assert(ks[at] == key);
    assert(entry(all, ks[at]) is Some);
    crate::entries::lemma_place(all, key, 0);
    let i = crate::entries::place_from(all, key, 0);
    let each = either_keys(before, after);
    assert(each[i] == key);
    lemma_change_told(each, before, after, each.len() as int, i);
}

/// There is no drift exactly where two manifests have the same leaves.
pub proof fn law_no_drift_iff_same_leaves(recorded: JsonTree, current: JsonTree)
    ensures
        drifted(recorded, current).is_none() <==> leaves_of(recorded) == leaves_of(current),
{
    let before = leaves_of(recorded);
    let after = leaves_of(current);
    let d = drifted(recorded, current);
    lemma_leaves_sorted(recorded);
    lemma_leaves_sorted(current);
    if before == after {
        let ks = either_keys(before, after);
        let n = ks.len() as int;
        lemma_changes_none(ks, before, after, Effect::Session, n);
        lemma_changes_none(ks, before, after, Effect::Host, n);
        lemma_changes_none(ks, before, after, Effect::Restart, n);
        lemma_changes_none(ks, before, after, Effect::Rebuild, n);
    }
    if d.is_none() {
        assert forall|k: Seq<char>| #[trigger] entry(before, k) == entry(after, k) by {
            if entry(before, k) != entry(after, k) {
                law_every_change_is_told(recorded, current, k);
            }
        }
        crate::entries::lemma_sorted_same(before, after);
    }
}

/// The value with every fingerprint in it the same one.
pub open spec fn masked(v: JsonTree) -> JsonTree
    decreases v,
{
    match v {
        JsonTree::Text(t) => if begins(t, FINGERPRINT@) {
            JsonTree::Text(FINGERPRINT@)
        } else {
            v
        },
        JsonTree::Array(a) => JsonTree::Array(
            Seq::new(
                a.len(),
                |i: int|
                    if 0 <= i < a.len() {
                        masked(a[i])
                    } else {
                        arbitrary()
                    },
            ),
        ),
        JsonTree::Object(o) => JsonTree::Object(
            Seq::new(
                o.len(),
                |i: int|
                    if 0 <= i < o.len() {
                        (o[i].0, masked(o[i].1))
                    } else {
                        arbitrary()
                    },
            ),
        ),
        _ => v,
    }
}

/// The same keys, with the same leaf under each or a fingerprint under it in both.
spec fn alike(a: Seq<(Seq<char>, Seq<char>)>, b: Seq<(Seq<char>, Seq<char>)>) -> bool {
    &&& a.len() == b.len()
    &&& forall|i: int| 0 <= i < a.len() ==> (#[trigger] a[i]).0 == b[i].0 && same_leaf(a[i].1, b[i].1)
}

spec fn same_leaf(x: Seq<char>, y: Seq<char>) -> bool {
    x == y || (hidden(Some(x)) && hidden(Some(y)))
}

proof fn lemma_alike_slot(a: Seq<(Seq<char>, Seq<char>)>, b: Seq<(Seq<char>, Seq<char>)>, k: Seq<char>, from: int)
    requires
        alike(a, b),
        0 <= from <= a.len(),
    ensures
        slot_from(a, k, from) == slot_from(b, k, from),
        place_from(a, k, from) == place_from(b, k, from),
        from <= slot_from(a, k, from) <= a.len(),
        from <= place_from(a, k, from) <= a.len(),
    decreases a.len() - from,
{
    if from < a.len() {
        assert(a[from].0 == b[from].0);
        lemma_alike_slot(a, b, k, from + 1);
    }
}

proof fn lemma_alike_put(
    a: Seq<(Seq<char>, Seq<char>)>,
    b: Seq<(Seq<char>, Seq<char>)>,
    k: Seq<char>,
    x: Seq<char>,
    y: Seq<char>,
)
    requires
        alike(a, b),
        same_leaf(x, y),
    ensures
        alike(with_entry(a, k, x), with_entry(b, k, y)),
{
    lemma_alike_slot(a, b, k, 0);
    let at = slot_from(a, k, 0);
    let p = with_entry(a, k, x);
    let q = with_entry(b, k, y);
    if at < a.len() {
        assert(a[at].0 == b[at].0);
    }
    assert forall|i: int| 0 <= i < p.len() implies (#[trigger] p[i]).0 == q[i].0 && same_leaf(p[i].1, q[i].1) by {
        if i < at {
            assert(p[i] == a[i] && q[i] == b[i]);
        } else if i > at {
            if p.len() == a.len() {
                assert(p[i] == a[i] && q[i] == b[i]);
            } else {
                assert(p[i] == a[i - 1] && q[i] == b[i - 1]);
            }
        }
    }
}

proof fn lemma_masked_entry(o: Seq<(Seq<char>, JsonTree)>, from: int)
    requires
        0 <= from <= o.len(),
    ensures
        place_from(o, "name"@, from) == place_from(masked(JsonTree::Object(o))->Object_0, "name"@, from),
    decreases o.len() - from,
{
    let m = masked(JsonTree::Object(o))->Object_0;
    assert(m.len() == o.len());
    if from < o.len() {
        assert(m[from].0 == o[from].0);
        lemma_masked_entry(o, from + 1);
    }
}

proof fn lemma_masked_name(v: JsonTree)
    ensures
        item_name(masked(v)) == item_name(v),
        is_fingerprint(masked(v)) == is_fingerprint(v),
        v is Object == masked(v) is Object,
        v is Array == masked(v) is Array,
{
    assert(FINGERPRINT@.take(FINGERPRINT@.len() as int) =~= FINGERPRINT@);
    if let JsonTree::Object(o) = v {
        let m = masked(v)->Object_0;
        lemma_masked_entry(o, 0);
        crate::entries::lemma_place(o, "name"@, 0);
        let i = place_from(o, "name"@, 0);
        if i < o.len() {
            assert(m[i] == (o[i].0, masked(o[i].1)));
        }
    }
}

proof fn lemma_leaf_hidden(v: JsonTree)
    requires
        is_fingerprint(v),
    ensures
        hidden(Some(leaf_text(v))),
{
    let f = "\""@ + FINGERPRINT@;
    let t = leaf_text(v);
    reveal_strlit("\"");
    assert(v->Text_0.take(FINGERPRINT@.len() as int) == FINGERPRINT@);
    assert(t.take(f.len() as int) =~= f);
}

proof fn lemma_flat_masked(
    v: JsonTree,
    path: Seq<char>,
    a: Seq<(Seq<char>, Seq<char>)>,
    b: Seq<(Seq<char>, Seq<char>)>,
)
    requires
        alike(a, b),
    ensures
        alike(flat(v, path, a), flat(masked(v), path, b)),
    decreases v, 1int, 0int,
{
    lemma_masked_name(v);
    match v {
        JsonTree::Object(o) => {
            assert(masked(v)->Object_0.len() == o.len());
            lemma_fields_masked(v, path, false, a, b, o.len() as int);
        },
        JsonTree::Array(items) => {
            assert(masked(v)->Array_0.len() == items.len());
            lemma_items_masked(v, path, a, b, items.len() as int);
        },
        _ => {
            if is_fingerprint(v) {
                lemma_leaf_hidden(v);
                lemma_leaf_hidden(masked(v));
            }
            lemma_alike_put(a, b, path, leaf_text(v), leaf_text(masked(v)));
        },
    }
}

proof fn lemma_fields_masked(
    v: JsonTree,
    path: Seq<char>,
    named: bool,
    a: Seq<(Seq<char>, Seq<char>)>,
    b: Seq<(Seq<char>, Seq<char>)>,
    n: int,
)
    requires
        alike(a, b),
        v is Object,
        0 <= n <= v->Object_0.len(),
    ensures
        alike(flat_fields(v, path, named, a, n), flat_fields(masked(v), path, named, b, n)),
    decreases v, 0int, n,
{
    let o = v->Object_0;
    let m = masked(v)->Object_0;
    assert(m.len() == o.len());
    if n > 0 {
        lemma_fields_masked(v, path, named, a, b, n - 1);
        assert(m[n - 1] == (o[n - 1].0, masked(o[n - 1].1)));
        assert(decreases_to!(o => o[n - 1]));
        assert(decreases_to!(o[n - 1] => o[n - 1].1));
        assert(decreases_to!(v => v->Object_0));
        lemma_flat_masked(
            o[n - 1].1,
            field_key(path, o[n - 1].0),
            flat_fields(v, path, named, a, n - 1),
            flat_fields(masked(v), path, named, b, n - 1),
        );
    }
}

proof fn lemma_items_masked(
    v: JsonTree,
    path: Seq<char>,
    a: Seq<(Seq<char>, Seq<char>)>,
    b: Seq<(Seq<char>, Seq<char>)>,
    n: int,
)
    requires
        alike(a, b),
        v is Array,
        0 <= n <= v->Array_0.len(),
    ensures
        alike(flat_items(v, path, a, n), flat_items(masked(v), path, b, n)),
    decreases v, 0int, n,
{
    let items = v->Array_0;
    let m = masked(v)->Array_0;
    assert(m.len() == items.len());
    if n > 0 {
        lemma_items_masked(v, path, a, b, n - 1);
        let p = flat_items(v, path, a, n - 1);
        let q = flat_items(masked(v), path, b, n - 1);
        let item = items[n - 1];
        assert(m[n - 1] == masked(item));
        assert(decreases_to!(items => items[n - 1]));
        assert(decreases_to!(v => v->Array_0));
        lemma_masked_name(item);
        match item_name(item) {
            Some(name) => {
                assert(masked(item)->Object_0.len() == item->Object_0.len());
                lemma_fields_masked(item, path + "."@ + name, true, p, q, item->Object_0.len() as int);
            },
            None => if item is Object || item is Array || is_fingerprint(item) {
                lemma_flat_masked(item, path + "["@ + decimal((n - 1) as nat) + "]"@, p, q);
            } else {
                assert(masked(item) == item);
                lemma_alike_put(p, q, path + "["@ + json_shown(item) + "]"@, "present"@, "present"@);
            },
        }
    }
}

proof fn lemma_change_of(
    ks: Seq<Seq<char>>,
    before: Seq<(Seq<char>, Seq<char>)>,
    after: Seq<(Seq<char>, Seq<char>)>,
    e: Effect,
    n: int,
    j: int,
) -> (i: int)
    requires
        0 <= j < changes(ks, before, after, e, n).len(),
        n <= ks.len(),
    ensures
        0 <= i < n,
        change(ks[i], entry(before, ks[i]), entry(after, ks[i])) == Some(changes(ks, before, after, e, n)[j]),
    decreases n,
{
    let had = changes(ks, before, after, e, n - 1);
    if j < had.len() {
        lemma_change_of(ks, before, after, e, n - 1, j)
    } else {
        n - 1
    }
}

/// What a diff says where no fingerprint in either manifest can be told from another: the key of
/// one that changed, or a change that does not concern one.
pub open spec fn said_masked(line: Seq<char>, recorded: JsonTree, current: JsonTree) -> bool {
    let before = leaves_of(masked(recorded));
    let after = leaves_of(masked(current));
    exists|key: Seq<char>| #[trigger]
        either_keys(before, after).contains(key) && (line == key + ": changed (a value this host supplies)"@ || change(
            key,
            entry(before, key),
            entry(after, key),
        ) == Some(line))
}

/// A host value is never spelled out in a diff, not even by its digest: every line is one that
/// could be written with all fingerprints blotted out, the key and a fixed text where one changed.
pub proof fn law_fingerprints_are_not_shown(recorded: JsonTree, current: JsonTree, e: Effect, j: int)
    requires
        0 <= j < drifted(recorded, current).of(e).len(),
    ensures
        said_masked(drifted(recorded, current).of(e)[j], recorded, current),
{
    let before = leaves_of(recorded);
    let after = leaves_of(current);
    let none = Seq::<(Seq<char>, Seq<char>)>::empty();
    lemma_flat_masked(recorded, Seq::empty(), none, none);
    lemma_flat_masked(current, Seq::empty(), none, none);
    let b = leaves_of(masked(recorded));
    let a = leaves_of(masked(current));
    assert(alike(before, b) && alike(after, a));
    assert(keys_of(before) =~= keys_of(b));
    assert(keys_of(after) =~= keys_of(a));
    let ks = either_keys(before, after);
    let line = drifted(recorded, current).of(e)[j];
    let i = lemma_change_of(ks, before, after, e, ks.len() as int, j);
    let key = ks[i];
    lemma_alike_slot(before, b, key, 0);
    lemma_alike_slot(after, a, key, 0);
    let x = place_from(before, key, 0);
    let y = place_from(after, key, 0);
    if x < before.len() {
        assert(same_leaf(before[x].1, b[x].1));
    }
    if y < after.len() {
        assert(same_leaf(after[y].1, a[y].1));
    }
    assert(either_keys(b, a).contains(key));
}

/// The line for a fingerprint that changed is its key and a fixed text.
pub proof fn law_changed_fingerprint(key: Seq<char>, before: Option<Seq<char>>, after: Option<Seq<char>>)
    requires
        hidden(before) || hidden(after),
        before != after,
    ensures
        change(key, before, after) == Some(key + ": changed (a value this host supplies)"@),
{
}

/// No text in the value, keys aside, is `s`.
pub open spec fn lacks_text(v: JsonTree, s: Seq<char>) -> bool
    decreases v,
{
    match v {
        JsonTree::Text(t) => t != s,
        JsonTree::Array(a) => forall|i: int| 0 <= i < a.len() ==> lacks_text(#[trigger] a[i], s),
        JsonTree::Object(o) => forall|i: int| 0 <= i < o.len() ==> lacks_text((#[trigger] o[i]).1, s),
        _ => true,
    }
}

proof fn lemma_fingerprinted_lacks(v: JsonTree, secrets: Seq<Seq<char>>, s: Seq<char>)
    requires
        secrets.contains(s),
        !begins(s, FINGERPRINT@),
    ensures
        lacks_text(fingerprinted(v, secrets), s),
    decreases v,
{
    let r = fingerprinted(v, secrets);
    match v {
        JsonTree::Text(t) => {
            if secrets.contains(t) {
                let f = fingerprint_of(t);
                assert(f.take(FINGERPRINT@.len() as int) =~= FINGERPRINT@);
                assert(begins(f, FINGERPRINT@));
            }
        },
        JsonTree::Array(a) => {
            assert forall|i: int| 0 <= i < a.len() implies lacks_text(#[trigger] r->Array_0[i], s) by {
                assert(decreases_to!(a => a[i]));
                assert(decreases_to!(v => v->Array_0));
                lemma_fingerprinted_lacks(a[i], secrets, s);
            }
        },
        JsonTree::Object(o) => {
            assert forall|i: int| 0 <= i < o.len() implies lacks_text((#[trigger] r->Object_0[i]).1, s) by {
                assert(decreases_to!(o => o[i]));
                assert(decreases_to!(o[i] => o[i].1));
                assert(decreases_to!(v => v->Object_0));
                lemma_fingerprinted_lacks(o[i].1, secrets, s);
            }
        },
        _ => {},
    }
}

proof fn lemma_sorted_lacks(v: JsonTree, s: Seq<char>)
    requires
        lacks_text(v, s),
    ensures
        lacks_text(json_sorted(v), s),
    decreases v, 1int, 0int,
{
    let r = json_sorted(v);
    match v {
        JsonTree::Array(a) => {
            let b = r->Array_0;
            assert(r == JsonTree::Array(b) && b.len() == a.len());
            assert forall|i: int| 0 <= i < b.len() implies lacks_text(#[trigger] b[i], s) by {
                assert(decreases_to!(a => a[i]));
                assert(decreases_to!(v => v->Array_0));
                lemma_sorted_lacks(a[i], s);
                assert(b[i] == json_sorted(a[i]));
            }
        },
        JsonTree::Object(o) => {
            lemma_sorted_upto_lacks(v, o.len() as int, s);
            assert(r->Object_0 == sorted_upto(v, o.len() as int));
        },
        _ => {},
    }
}

proof fn lemma_sorted_upto_lacks(v: JsonTree, n: int, s: Seq<char>)
    requires
        v is Object,
        n <= v->Object_0.len(),
        lacks_text(v, s),
    ensures
        forall|i: int| 0 <= i < sorted_upto(v, n).len() ==> lacks_text((#[trigger] sorted_upto(v, n)[i]).1, s),
    decreases v, 0int, n,
{
    if n > 0 {
        lemma_sorted_upto_lacks(v, n - 1, s);
        let o = v->Object_0;
        let b = sorted_upto(v, n - 1);
        let x = json_sorted(o[n - 1].1);
        assert(decreases_to!(o => o[n - 1]));
        assert(decreases_to!(o[n - 1] => o[n - 1].1));
        assert(decreases_to!(v => v->Object_0));
        lemma_sorted_lacks(o[n - 1].1, s);
        let r = sorted_upto(v, n);
        assert forall|i: int| 0 <= i < r.len() implies lacks_text((#[trigger] r[i]).1, s) by {
            crate::entries::lemma_with_entry_items(b, o[n - 1].0, x, i);
            if r[i] != (o[n - 1].0, x) {
                let j = choose|j: int| 0 <= j < b.len() && b[j] == r[i];
                assert(lacks_text(b[j].1, s));
            }
        }
    }
}

/// A value this host supplied is written nowhere in the manifest: no text in it is one, but
/// for a value that itself begins as a fingerprint does or is the digest of the wrapper.
pub proof fn law_manifest_holds_no_secret(p: PlanView, wrapper: Option<Seq<char>>, s: Seq<char>)
    requires
        p.secrets.contains(s),
        !begins(s, FINGERPRINT@),
        wrapper != Some(s),
    ensures
        lacks_text(manifest_of(p, wrapper), s),
{
    let v = fingerprinted(plan_json(marked_plan(p)), p.secrets);
    lemma_fingerprinted_lacks(plan_json(marked_plan(p)), p.secrets, s);
    let parts = manifest_parts(p, wrapper);
    if let Some(d) = wrapper {
        let o = v->Object_0;
        let r = parts->Object_0;
        assert forall|i: int| 0 <= i < r.len() implies lacks_text((#[trigger] r[i]).1, s) by {
            if i < o.len() {
                assert(r[i] == o[i]);
                assert(lacks_text(o[i].1, s));
            } else {
                assert(lacks_text(JsonTree::Text(d), s));
            }
        }
    }
    lemma_sorted_lacks(parts, s);
}

} // verus!
