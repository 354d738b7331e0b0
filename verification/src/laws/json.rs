//! What a plan's JSON and its manifest say.

use crate::config::{CheckoutMode, Cpus, Freshness, Nested, Policy};
use crate::entries::{entry, lemma_with_entry, with_entry};
use crate::identity::{
    create_commands, fingerprint_of, fingerprinted, generation_parts, lists_json, manifest_of, manifest_parts,
    marked_env, marked_plan, storage_marks,
};
use crate::path::lossy_text;
use crate::plan::{argv_of, CommandView, HookCommandView, HookView, PlanView, SourceView};
use crate::planjson::{
    env_var_json, hook_command_json, hook_json, lemma_plan_keys, number_json, object, pairs_json, plan_json, plan_keys,
    plan_values, texts_json,
};
use crate::text::trimmed;
use crate::value::{json_sorted, sorted_upto, JsonTree};
use vstd::prelude::*;
use vstd::utf8::decode_utf8;

verus! {

/// The object has this value under this key.
pub open spec fn says(j: JsonTree, k: Seq<char>, v: JsonTree) -> bool {
    j matches JsonTree::Object(o) && o.contains((k, v))
}

/// The object has this text under this key, or nothing where there is none.
pub open spec fn says_text(j: JsonTree, k: Seq<char>, v: Option<Seq<char>>) -> bool {
    match v {
        Some(t) => says(j, k, JsonTree::Text(t)),
        None => says(j, k, JsonTree::Null),
    }
}

/// The object has a list of so many under this key, and `v` is where the list is read from.
pub open spec fn lists(j: JsonTree, k: Seq<char>, v: Seq<JsonTree>) -> bool {
    says(j, k, JsonTree::Array(v))
}

proof fn lemma_says(keys: Seq<Seq<char>>, values: Seq<JsonTree>, i: int)
    requires
        0 <= i < keys.len(),
        values.len() == keys.len(),
    ensures
        says(object(keys, values), keys[i], values[i]),
{
    let o = object(keys, values)->Object_0;
    assert(o[i] == (keys[i], values[i]));
}

/// A plan's JSON has every field of the plan under the field's own name.
pub proof fn law_json_has_the_fields(p: PlanView)
    ensures
        ({
            let j = plan_json(p);
            &&& says(j, "workspace"@, JsonTree::Text(decode_utf8(p.workspace)))
            &&& says(j, "config"@, JsonTree::Text(decode_utf8(p.config)))
            &&& says(j, "state_dir"@, JsonTree::Text(decode_utf8(p.state_dir)))
            &&& says(j, "environment"@, JsonTree::Text(p.environment))
            &&& says_text(j, "workspace_folder"@, p.workspace_folder)
            &&& says_text(j, "user"@, p.user)
            &&& says_text(j, "mem"@, p.mem)
            &&& says_text(j, "fallback_target"@, p.fallback_target)
            &&& says(j, "ssh_agent"@, JsonTree::Bool(p.ssh_agent))
            &&& says(j, "cached_only"@, JsonTree::Bool(p.cached_only))
            &&& p.cpus is None ==> says(j, "cpus"@, JsonTree::Null)
            &&& p.cpus == Some(Cpus::Host) ==> says(j, "cpus"@, JsonTree::Text("host"@))
            &&& p.cpus matches Some(Cpus::Count(n)) ==> says(j, "cpus"@, number_json(n as u64))
            &&& p.nested == Nested::Off ==> says(j, "nested"@, JsonTree::Text("off"@))
            &&& p.nested == Nested::Auto ==> says(j, "nested"@, JsonTree::Text("auto"@))
            &&& p.nested == Nested::Required ==> says(j, "nested"@, JsonTree::Text("required"@))
            &&& p.freshness == Freshness::Ask ==> says(j, "freshness"@, JsonTree::Text("ask"@))
            &&& p.freshness == Freshness::Reuse ==> says(j, "freshness"@, JsonTree::Text("reuse"@))
            &&& p.freshness == Freshness::Refresh ==> says(j, "freshness"@, JsonTree::Text("refresh"@))
            &&& p.freshness == Freshness::RequireCurrent ==> says(j, "freshness"@, JsonTree::Text("require-current"@))
        }),
{
    let k = plan_keys();
    let v = plan_values(p);
    assert forall|i: int| 0 <= i < k.len() implies says(plan_json(p), #[trigger] k[i], v[i]) by {
        lemma_says(k, v, i);
    }
    assert(says(plan_json(p), k[0], v[0]));
    assert(says(plan_json(p), k[1], v[1]));
    assert(says(plan_json(p), k[2], v[2]));
    assert(says(plan_json(p), k[3], v[3]));
    assert(says(plan_json(p), k[5], v[5]));
    assert(says(plan_json(p), k[6], v[6]));
    assert(says(plan_json(p), k[7], v[7]));
    assert(says(plan_json(p), k[8], v[8]));
    assert(says(plan_json(p), k[9], v[9]));
    assert(says(plan_json(p), k[10], v[10]));
    assert(says(plan_json(p), k[16], v[16]));
    assert(says(plan_json(p), k[19], v[19]));
    assert(says(plan_json(p), k[20], v[20]));
}

proof fn lemma_field(p: PlanView, i: int)
    requires
        0 <= i < 26,
    ensures
        says(plan_json(p), plan_keys()[i], plan_values(p)[i]),
{
    lemma_says(plan_keys(), plan_values(p), i);
}

/// What an environment is made from, in a plan's JSON.
pub proof fn law_json_has_the_source(p: PlanView)
    ensures
        exists|s: JsonTree| #[trigger]
            says(plan_json(p), "source"@, s) && match p.source {
                SourceView::Image { reference } => exists|d: JsonTree| #[trigger]
                    says(s, "Image"@, d) && says(d, "reference"@, JsonTree::Text(reference)),
                SourceView::Compose { file, service, profiles } => exists|d: JsonTree| #[trigger]
                    says(s, "Compose"@, d) && says(d, "file"@, JsonTree::Text(decode_utf8(file))) && says(
                        d,
                        "service"@,
                        JsonTree::Text(service),
                    ) && says(
                        d,
                        "profiles"@,
                        JsonTree::Array(Seq::new(profiles.len(), |i: int| JsonTree::Text(profiles[i]))),
                    ),
                SourceView::Build { context, dockerfile, target, args } => exists|d: JsonTree| #[trigger]
                    says(s, "Build"@, d) && says(d, "context"@, JsonTree::Text(decode_utf8(context))) && says(
                        d,
                        "dockerfile"@,
                        JsonTree::Text(decode_utf8(dockerfile)),
                    ) && says_text(d, "target"@, target) && (exists|a: Seq<JsonTree>| #[trigger]
                        lists(d, "args"@, a) && a.len() == args.len() && forall|i: int|
                            0 <= i < args.len() ==> #[trigger] a[i] == JsonTree::Array(
                                seq![JsonTree::Text(args[i].0), JsonTree::Text(args[i].1)],
                            )),
            },
{
    lemma_field(p, 4);
    let s = crate::planjson::source_json(p.source);
    assert(says(plan_json(p), "source"@, s));
    match p.source {
        SourceView::Image { reference } => {
            let k = seq!["reference"@];
            let v = seq![JsonTree::Text(reference)];
            lemma_says(k, v, 0);
            lemma_says(seq!["Image"@], seq![object(k, v)], 0);
            assert(says(s, "Image"@, object(k, v)));
        },
        SourceView::Compose { file, service, profiles } => {
            let k = seq!["file"@, "service"@, "profiles"@];
            let l = Seq::new(profiles.len(), |i: int| JsonTree::Text(profiles[i]));
            assert(crate::planjson::texts_json(profiles)->Array_0 =~= l);
            let v = seq![JsonTree::Text(decode_utf8(file)), JsonTree::Text(service), JsonTree::Array(l)];
            lemma_says(k, v, 0);
            lemma_says(k, v, 1);
            lemma_says(k, v, 2);
            lemma_says(seq!["Compose"@], seq![object(k, v)], 0);
            assert(says(s, "Compose"@, object(k, v)));
        },
        SourceView::Build { context, dockerfile, target, args } => {
            let k = seq!["context"@, "dockerfile"@, "target"@, "args"@];
            let l = crate::planjson::pairs_json(args)->Array_0;
            let v = seq![
                JsonTree::Text(decode_utf8(context)),
                JsonTree::Text(decode_utf8(dockerfile)),
                crate::planjson::opt_json(target),
                JsonTree::Array(l),
            ];
            lemma_says(k, v, 0);
            lemma_says(k, v, 1);
            lemma_says(k, v, 2);
            lemma_says(k, v, 3);
            lemma_says(seq!["Build"@], seq![object(k, v)], 0);
            assert(says(s, "Build"@, object(k, v)));
            let d = object(k, v);
            assert forall|i: int| 0 <= i < args.len() implies #[trigger] l[i] == JsonTree::Array(
                seq![JsonTree::Text(args[i].0), JsonTree::Text(args[i].1)],
            ) by {
                assert(l[i]->Array_0 =~= seq![JsonTree::Text(args[i].0), JsonTree::Text(args[i].1)]);
            }
            assert(lists(d, "args"@, l));
        },
    }
}

/// Every mount, endpoint, task and variable of a plan stands in its JSON, in the plan's order, with
/// each of its parts under the part's name.
pub proof fn law_json_has_the_items(p: PlanView)
    ensures
        exists|a: Seq<JsonTree>| #[trigger]
            lists(plan_json(p), "mounts"@, a) && a.len() == p.mounts.len() && forall|i: int|
                0 <= i < a.len() ==> {
                    let m = p.mounts[i];
                    &&& says(#[trigger] a[i], "name"@, JsonTree::Text(m.name))
                    &&& says(a[i], "source"@, JsonTree::Text(decode_utf8(m.source)))
                    &&& says(a[i], "to"@, JsonTree::Text(m.to))
                    &&& says(a[i], "read_only"@, JsonTree::Bool(m.read_only))
                    &&& says(a[i], "optional"@, JsonTree::Bool(m.optional))
                },
        exists|a: Seq<JsonTree>| #[trigger]
            lists(plan_json(p), "endpoints"@, a) && a.len() == p.endpoints.len() && forall|i: int|
                0 <= i < a.len() ==> {
                    let e = p.endpoints[i];
                    &&& says(#[trigger] a[i], "name"@, JsonTree::Text(e.name))
                    &&& says_text(a[i], "service"@, e.service)
                    &&& says(a[i], "host_port"@, number_json(e.host_port as u64))
                    &&& says(a[i], "address"@, JsonTree::Text(e.address))
                    &&& says(a[i], "listen"@, JsonTree::Text(e.listen))
                    &&& says(a[i], "to"@, JsonTree::Text(e.to))
                    &&& says_text(a[i], "scheme"@, e.scheme)
                    &&& says_text(a[i], "path"@, e.path)
                    &&& says(a[i], "required"@, JsonTree::Bool(e.required))
                },
        exists|a: Seq<JsonTree>| #[trigger]
            lists(plan_json(p), "tasks"@, a) && a.len() == p.tasks.len() && forall|i: int|
                0 <= i < a.len() ==> {
                    let t = p.tasks[i];
                    &&& says(#[trigger] a[i], "name"@, JsonTree::Text(t.name))
                    &&& lists(a[i], "argv"@, Seq::new(t.argv.len(), |k: int| JsonTree::Text(t.argv[k])))
                    &&& says(a[i], "environment"@, JsonTree::Text(t.environment))
                    &&& says(a[i], "reuse"@, JsonTree::Text(t.reuse))
                    &&& t.policy == Policy::Reuse ==> says(a[i], "policy"@, JsonTree::Text("reuse"@))
                    &&& t.policy == Policy::Require ==> says(a[i], "policy"@, JsonTree::Text("require"@))
                    &&& t.policy == Policy::Ephemeral ==> says(a[i], "policy"@, JsonTree::Text("ephemeral"@))
                    &&& t.policy == Policy::ReuseOrEphemeral ==> says(
                        a[i],
                        "policy"@,
                        JsonTree::Text("reuse-or-ephemeral"@),
                    )
                    &&& t.checkout == CheckoutMode::Shared ==> says(a[i], "checkout"@, JsonTree::Text("shared"@))
                    &&& t.checkout == CheckoutMode::Overlay ==> says(a[i], "checkout"@, JsonTree::Text("overlay"@))
                },
        exists|a: Seq<JsonTree>| #[trigger]
            lists(plan_json(p), "container_env"@, a) && a.len() == p.container_env.len() && forall|i: int|
                0 <= i < a.len() ==> {
                    &&& says(#[trigger] a[i], "name"@, JsonTree::Text(p.container_env[i].name))
                    &&& says(a[i], "value"@, JsonTree::Text(p.container_env[i].value))
                    &&& says(a[i], "sensitive"@, JsonTree::Bool(p.container_env[i].sensitive))
                },
        exists|a: Seq<JsonTree>| #[trigger]
            lists(plan_json(p), "exec_env"@, a) && a.len() == p.exec_env.len() && forall|i: int|
                0 <= i < a.len() ==> {
                    &&& says(#[trigger] a[i], "name"@, JsonTree::Text(p.exec_env[i].name))
                    &&& says(a[i], "value"@, JsonTree::Text(p.exec_env[i].value))
                    &&& says(a[i], "sensitive"@, JsonTree::Bool(p.exec_env[i].sensitive))
                },
{
    lemma_field(p, 11);
    lemma_field(p, 12);
    lemma_field(p, 13);
    lemma_field(p, 14);
    lemma_field(p, 21);
    let j = plan_json(p);
    let a = crate::planjson::mounts_json(p.mounts)->Array_0;
    assert forall|i: int| 0 <= i < a.len() implies {
        let m = p.mounts[i];
        &&& says(#[trigger] a[i], "name"@, JsonTree::Text(m.name))
        &&& says(a[i], "source"@, JsonTree::Text(decode_utf8(m.source)))
        &&& says(a[i], "to"@, JsonTree::Text(m.to))
        &&& says(a[i], "read_only"@, JsonTree::Bool(m.read_only))
        &&& says(a[i], "optional"@, JsonTree::Bool(m.optional))
    } by {
        let o = a[i]->Object_0;
        let m = p.mounts[i];
        assert(o[0] == ("name"@, JsonTree::Text(m.name)));
        assert(o[1] == ("source"@, JsonTree::Text(decode_utf8(m.source))));
        assert(o[2] == ("to"@, JsonTree::Text(m.to)));
        assert(o[3] == ("read_only"@, JsonTree::Bool(m.read_only)));
        assert(o[4] == ("optional"@, JsonTree::Bool(m.optional)));
    }
    assert(lists(j, "mounts"@, a));
    let b = crate::planjson::endpoints_json(p.endpoints)->Array_0;
    assert forall|i: int| 0 <= i < b.len() implies {
        let e = p.endpoints[i];
        &&& says(#[trigger] b[i], "name"@, JsonTree::Text(e.name))
        &&& says_text(b[i], "service"@, e.service)
        &&& says(b[i], "host_port"@, number_json(e.host_port as u64))
        &&& says(b[i], "address"@, JsonTree::Text(e.address))
        &&& says(b[i], "listen"@, JsonTree::Text(e.listen))
        &&& says(b[i], "to"@, JsonTree::Text(e.to))
        &&& says_text(b[i], "scheme"@, e.scheme)
        &&& says_text(b[i], "path"@, e.path)
        &&& says(b[i], "required"@, JsonTree::Bool(e.required))
    } by {
        let o = b[i]->Object_0;
        let e = p.endpoints[i];
        assert(o[0] == ("name"@, JsonTree::Text(e.name)));
        assert(o[1] == ("service"@, crate::planjson::opt_json(e.service)));
        assert(o[2] == ("host_port"@, number_json(e.host_port as u64)));
        assert(o[3] == ("address"@, JsonTree::Text(e.address)));
        assert(o[4] == ("listen"@, JsonTree::Text(e.listen)));
        assert(o[5] == ("to"@, JsonTree::Text(e.to)));
        assert(o[6] == ("scheme"@, crate::planjson::opt_json(e.scheme)));
        assert(o[7] == ("path"@, crate::planjson::opt_json(e.path)));
        assert(o[8] == ("required"@, JsonTree::Bool(e.required)));
    }
    assert(lists(j, "endpoints"@, b));
    let c = crate::planjson::tasks_json(p.tasks)->Array_0;
    assert forall|i: int| 0 <= i < c.len() implies {
        let t = p.tasks[i];
        &&& says(#[trigger] c[i], "name"@, JsonTree::Text(t.name))
        &&& lists(c[i], "argv"@, Seq::new(t.argv.len(), |k: int| JsonTree::Text(t.argv[k])))
        &&& says(c[i], "environment"@, JsonTree::Text(t.environment))
        &&& says(c[i], "reuse"@, JsonTree::Text(t.reuse))
        &&& says(c[i], "policy"@, JsonTree::Text(t.policy.spelling()))
        &&& says(c[i], "checkout"@, JsonTree::Text(t.checkout.spelling()))
    } by {
        let o = c[i]->Object_0;
        let t = p.tasks[i];
        let l = Seq::new(t.argv.len(), |k: int| JsonTree::Text(t.argv[k]));
        assert(crate::planjson::texts_json(t.argv)->Array_0 =~= l);
        assert(o[0] == ("name"@, JsonTree::Text(t.name)));
        assert(o[1] == ("argv"@, JsonTree::Array(l)));
        assert(o[2] == ("environment"@, JsonTree::Text(t.environment)));
        assert(o[3] == ("reuse"@, JsonTree::Text(t.reuse)));
        assert(o[4] == ("policy"@, JsonTree::Text(t.policy.spelling())));
        assert(o[5] == ("checkout"@, JsonTree::Text(t.checkout.spelling())));
    }
    assert(lists(j, "tasks"@, c));
    let d = crate::planjson::env_json(p.container_env)->Array_0;
    let e = crate::planjson::env_json(p.exec_env)->Array_0;
    assert forall|i: int| 0 <= i < d.len() implies {
        &&& says(#[trigger] d[i], "name"@, JsonTree::Text(p.container_env[i].name))
        &&& says(d[i], "value"@, JsonTree::Text(p.container_env[i].value))
        &&& says(d[i], "sensitive"@, JsonTree::Bool(p.container_env[i].sensitive))
    } by {
        let o = d[i]->Object_0;
        assert(o[0] == ("name"@, JsonTree::Text(p.container_env[i].name)));
        assert(o[1] == ("value"@, JsonTree::Text(p.container_env[i].value)));
        assert(o[2] == ("sensitive"@, JsonTree::Bool(p.container_env[i].sensitive)));
    }
    assert(lists(j, "container_env"@, d));
    assert forall|i: int| 0 <= i < e.len() implies {
        &&& says(#[trigger] e[i], "name"@, JsonTree::Text(p.exec_env[i].name))
        &&& says(e[i], "value"@, JsonTree::Text(p.exec_env[i].value))
        &&& says(e[i], "sensitive"@, JsonTree::Bool(p.exec_env[i].sensitive))
    } by {
        let o = e[i]->Object_0;
        assert(o[0] == ("name"@, JsonTree::Text(p.exec_env[i].name)));
        assert(o[1] == ("value"@, JsonTree::Text(p.exec_env[i].value)));
        assert(o[2] == ("sensitive"@, JsonTree::Bool(p.exec_env[i].sensitive)));
    }
    assert(lists(j, "exec_env"@, e));
}

/// A hook in JSON: a command with its parts, or its members by name.
pub proof fn law_json_has_the_hook(c: HookCommandView, g: Seq<(Seq<char>, HookView)>, i: int)
    ensures
        exists|d: JsonTree| #[trigger]
            says(hook_json(HookView::Command(c)), "Command"@, d) && says_text(d, "cwd"@, c.cwd) && says(
                d,
                "required"@,
                JsonTree::Bool(c.required),
            ) && (c.timeout_secs matches Some(t) ==> says(d, "timeout_secs"@, number_json(t))) && (c.timeout_secs is None
                ==> says(d, "timeout_secs"@, JsonTree::Null)) && (c.run matches CommandView::Shell(l) ==> says(
                d,
                "run"@,
                JsonTree::Text(l),
            )) && (c.run matches CommandView::Argv(a) ==> lists(
                d,
                "run"@,
                Seq::new(a.len(), |k: int| JsonTree::Text(a[k])),
            )),
        0 <= i < g.len() ==> exists|d: JsonTree| #[trigger]
            says(hook_json(HookView::Group(g)), "Group"@, d) && says(d, g[i].0, hook_json(g[i].1)),
{
    let h = hook_json(HookView::Command(c));
    let d = hook_command_json(c);
    let o = d->Object_0;
    if let CommandView::Argv(a) = c.run {
        assert(crate::planjson::texts_json(a)->Array_0 =~= Seq::new(a.len(), |k: int| JsonTree::Text(a[k])));
    }
    assert(o[0].0 == "run"@ && o[0].1 == crate::planjson::command_json(c.run));
    assert(o[1] == ("cwd"@, crate::planjson::opt_json(c.cwd)));
    assert(o[2].0 == "timeout_secs"@);
    assert(o[3] == ("required"@, JsonTree::Bool(c.required)));
    assert(o.contains(o[0]) && o.contains(o[2]));
    lemma_says(seq!["Command"@], seq![d], 0);
    assert(says(h, "Command"@, d));
    if 0 <= i < g.len() {
        let w = hook_json(HookView::Group(g));
        let m = w->Object_0[0].1;
        assert(w->Object_0[0] == ("Group"@, m));
        assert(says(w, "Group"@, m));
        assert(m->Object_0[i] == (g[i].0, hook_json(g[i].1)));
        assert(says(m, g[i].0, hook_json(g[i].1)));
    }
}

proof fn lemma_sorted_entry(o: Seq<(Seq<char>, JsonTree)>, n: int, i: int)
    requires
        0 <= i < n <= o.len(),
        forall|a: int, b: int| 0 <= a < b < o.len() ==> (#[trigger] o[a]).0 != (#[trigger] o[b]).0,
    ensures
        entry(sorted_upto(JsonTree::Object(o), n), o[i].0) == Some(json_sorted(o[i].1)),
    decreases n,
{
    let v = JsonTree::Object(o);
    crate::value::lemma_sorted_upto(v, n - 1);
    lemma_with_entry(sorted_upto(v, n - 1), o[n - 1].0, json_sorted(o[n - 1].1));
    if i < n - 1 {
        lemma_sorted_entry(o, n - 1, i);
        assert(o[i].0 != o[n - 1].0);
    }
}

/// What the manifest has under a key.
pub open spec fn recorded(j: JsonTree, k: Seq<char>) -> Option<JsonTree> {
    match j {
        JsonTree::Object(o) => entry(o, k),
        _ => None,
    }
}

proof fn lemma_recorded(p: PlanView, wrapper: Option<Seq<char>>, i: int)
    requires
        0 <= i < 26,
    ensures
        recorded(manifest_of(p, wrapper), plan_keys()[i]) == Some(
            json_sorted(fingerprinted(plan_values(marked_plan(p))[i], p.secrets)),
        ),
        wrapper matches Some(d) ==> recorded(manifest_of(p, wrapper), "host_exec_wrapper_digest"@) == Some(
            JsonTree::Text(d),
        ),
{
    lemma_plan_keys();
    let k = plan_keys();
    let o = manifest_parts(p, wrapper)->Object_0;
    let plain = fingerprinted(plan_json(marked_plan(p)), p.secrets)->Object_0;
    assert(plain.len() == 26);
    assert forall|a: int| 0 <= a < 26 implies (#[trigger] o[a]).0 == k[a] && o[a].1 == fingerprinted(
        plan_values(marked_plan(p))[a],
        p.secrets,
    ) by {
        assert(plain[a].0 == k[a]);
    }
    lemma_digest_key();
    assert forall|a: int, b: int| 0 <= a < b < o.len() implies (#[trigger] o[a]).0 != (#[trigger] o[b]).0 by {
        if b < 26 {
            assert(k[a] != k[b]);
        } else {
            assert(k[a] != "host_exec_wrapper_digest"@);
        }
    }
    assert(manifest_parts(p, wrapper) == JsonTree::Object(o));
    lemma_sorted_entry(o, o.len() as int, i);
    if wrapper is Some {
        lemma_sorted_entry(o, o.len() as int, 26);
    }
}

proof fn lemma_digest_key()
    ensures
        forall|i: int| 0 <= i < plan_keys().len() ==> #[trigger] plan_keys()[i] != "host_exec_wrapper_digest"@,
{
    reveal_strlit("host_exec_wrapper_digest");
    reveal_strlit("workspace");
    reveal_strlit("config");
    reveal_strlit("environment");
    reveal_strlit("state_dir");
    reveal_strlit("source");
    reveal_strlit("workspace_folder");
    reveal_strlit("user");
    reveal_strlit("freshness");
    reveal_strlit("cpus");
    reveal_strlit("mem");
    reveal_strlit("nested");
    reveal_strlit("mounts");
    reveal_strlit("container_env");
    reveal_strlit("exec_env");
    reveal_strlit("endpoints");
    reveal_strlit("host_exec");
    reveal_strlit("ssh_agent");
    reveal_strlit("cache");
    reveal_strlit("requires");
    reveal_strlit("cached_only");
    reveal_strlit("fallback_target");
    reveal_strlit("tasks");
    reveal_strlit("hooks");
    reveal_strlit("vscode");
    reveal_strlit("managed_dirs");
    reveal_strlit("unresolved");
    assert("host_exec_wrapper_digest"@.len() == 24);
}

/// A text as the manifest has it: by its fingerprint where this host supplied it.
pub open spec fn kept(t: Seq<char>, secrets: Seq<Seq<char>>) -> JsonTree {
    if secrets.contains(t) {
        JsonTree::Text(fingerprint_of(t))
    } else {
        JsonTree::Text(t)
    }
}

/// The manifest has what the plan has, under the plan's own names: a text this host supplied, and a
/// variable marked as such, by its fingerprint, and the rest as it stands.
pub proof fn law_manifest_has_the_fields(p: PlanView, wrapper: Option<Seq<char>>, i: int)
    ensures
        ({
            let m = manifest_of(p, wrapper);
            &&& wrapper matches Some(d) ==> recorded(m, "host_exec_wrapper_digest"@) == Some(JsonTree::Text(d))
            &&& recorded(m, "environment"@) == Some(kept(p.environment, p.secrets))
            &&& recorded(m, "workspace"@) == Some(kept(decode_utf8(p.workspace), p.secrets))
            &&& p.user matches Some(t) ==> recorded(m, "user"@) == Some(kept(t, p.secrets))
            &&& p.user is None ==> recorded(m, "user"@) == Some(JsonTree::Null)
            &&& p.mem matches Some(t) ==> recorded(m, "mem"@) == Some(kept(t, p.secrets))
            &&& p.mem is None ==> recorded(m, "mem"@) == Some(JsonTree::Null)
            &&& p.workspace_folder matches Some(t) ==> recorded(m, "workspace_folder"@) == Some(kept(t, p.secrets))
            &&& p.fallback_target matches Some(t) ==> recorded(m, "fallback_target"@) == Some(kept(t, p.secrets))
            &&& recorded(m, "ssh_agent"@) == Some(JsonTree::Bool(p.ssh_agent))
            &&& recorded(m, "cached_only"@) == Some(JsonTree::Bool(p.cached_only))
            &&& p.source matches SourceView::Image { reference } ==> (recorded(m, "source"@) matches Some(s) && recorded(
                s,
                "Image"@,
            ) matches Some(d) && recorded(d, "reference"@) == Some(kept(reference, p.secrets)))
            &&& recorded(m, "container_env"@) matches Some(JsonTree::Array(a)) && a.len() == p.container_env.len() && (0
                <= i < a.len() ==> records(a[i], p.container_env[i].name, p.container_env[i].value, p.container_env[i].sensitive, p.secrets))
            &&& recorded(m, "exec_env"@) matches Some(JsonTree::Array(a)) && a.len() == p.exec_env.len() && (0 <= i
                < a.len() ==> records(a[i], p.exec_env[i].name, p.exec_env[i].value, p.exec_env[i].sensitive, p.secrets))
        }),
{
    lemma_recorded(p, wrapper, 0);
    lemma_recorded(p, wrapper, 2);
    lemma_recorded(p, wrapper, 4);
    lemma_recorded(p, wrapper, 5);
    lemma_recorded(p, wrapper, 6);
    lemma_recorded(p, wrapper, 9);
    lemma_recorded(p, wrapper, 12);
    lemma_recorded(p, wrapper, 13);
    lemma_recorded(p, wrapper, 16);
    lemma_recorded(p, wrapper, 19);
    lemma_recorded(p, wrapper, 20);
    if let SourceView::Image { reference } = p.source {
        let d = object(seq!["reference"@], seq![JsonTree::Text(reference)]);
        lemma_lone("reference"@, JsonTree::Text(reference), p.secrets);
        lemma_lone("Image"@, d, p.secrets);
    }
    if 0 <= i < p.container_env.len() {
        lemma_variable(marked_env(p.container_env)[i], p.secrets);
    }
    if 0 <= i < p.exec_env.len() {
        lemma_variable(marked_env(p.exec_env)[i], p.secrets);
    }
}

proof fn lemma_lone(k: Seq<char>, v: JsonTree, secrets: Seq<Seq<char>>)
    ensures
        recorded(json_sorted(fingerprinted(object(seq![k], seq![v]), secrets)), k) == Some(
            json_sorted(fingerprinted(v, secrets)),
        ),
{
    let w = fingerprinted(object(seq![k], seq![v]), secrets);
    let o = w->Object_0;
    let had = object(seq![k], seq![v])->Object_0;
    assert(had[0] == (k, v));
    assert(o.len() == 1 && o[0] == (k, fingerprinted(v, secrets)));
    assert(w == JsonTree::Object(o));
    lemma_sorted_entry(o, 1, 0);
}

/// A variable as the manifest has it.
pub open spec fn records(
    j: JsonTree,
    name: Seq<char>,
    value: Seq<char>,
    sensitive: bool,
    secrets: Seq<Seq<char>>,
) -> bool {
    &&& recorded(j, "name"@) == Some(kept(name, secrets))
    &&& recorded(j, "sensitive"@) == Some(JsonTree::Bool(sensitive))
    &&& recorded(j, "value"@) == Some(
        kept(
            if sensitive {
                fingerprint_of(value)
            } else {
                value
            },
            secrets,
        ),
    )
}

proof fn lemma_variable(e: crate::plan::EnvVarView, secrets: Seq<Seq<char>>)
    ensures
        ({
            let j = json_sorted(fingerprinted(env_var_json(e), secrets));
            &&& recorded(j, "name"@) == Some(kept(e.name, secrets))
            &&& recorded(j, "sensitive"@) == Some(JsonTree::Bool(e.sensitive))
            &&& recorded(j, "value"@) == Some(kept(e.value, secrets))
        }),
{
    reveal_strlit("name");
    reveal_strlit("value");
    reveal_strlit("sensitive");
    let w = fingerprinted(env_var_json(e), secrets);
    let o = w->Object_0;
    let had = env_var_json(e)->Object_0;
    assert(had[0] == ("name"@, JsonTree::Text(e.name)));
    assert(had[1] == ("value"@, JsonTree::Text(e.value)));
    assert(had[2] == ("sensitive"@, JsonTree::Bool(e.sensitive)));
    assert(o.len() == 3);
    assert(o[0] == ("name"@, fingerprinted(JsonTree::Text(e.name), secrets)));
    assert(o[1] == ("value"@, fingerprinted(JsonTree::Text(e.value), secrets)));
    assert(o[2] == ("sensitive"@, fingerprinted(JsonTree::Bool(e.sensitive), secrets)));
    assert(fingerprinted(JsonTree::Text(e.name), secrets) == kept(e.name, secrets));
    assert(fingerprinted(JsonTree::Text(e.value), secrets) == kept(e.value, secrets));
    assert("name"@.len() == 4 && "value"@.len() == 5 && "sensitive"@.len() == 9);
    assert(w == JsonTree::Object(o));
    lemma_sorted_entry(o, 3, 0);
    lemma_sorted_entry(o, 3, 1);
    lemma_sorted_entry(o, 3, 2);
}

/// What a generation is told by: the root it is made on, each managed directory with its marker, and
/// the commands of the creation hook.
pub proof fn law_generation_has_the_parts(p: PlanView, root: Seq<char>, marks: Seq<Option<Seq<char>>>, i: int)
    requires
        marks.len() == p.managed_dirs.len(),
    ensures
        ({
            let j = generation_parts(p, root, marks);
            &&& recorded(j, "root"@) == Some(JsonTree::Text(root))
            &&& recorded(j, "storage"@) matches Some(JsonTree::Array(a)) && a.len() == p.managed_dirs.len() && (0 <= i
                < a.len() ==> a[i] == JsonTree::Array(
                seq![
                    JsonTree::Text(lossy_text(p.managed_dirs[i])),
                    JsonTree::Text(
                        match marks[i] {
                            Some(t) => trimmed(t),
                            None => Seq::empty(),
                        },
                    ),
                ],
            ))
            &&& p.hooks.create is None ==> recorded(j, "create"@) == Some(JsonTree::Object(Seq::empty()))
            &&& p.hooks.create matches Some(HookView::Command(c)) ==> (recorded(j, "create"@) matches Some(d) && (
            c.run matches CommandView::Argv(a) ==> recorded(d, "create"@) == Some(
                JsonTree::Array(Seq::new(a.len(), |k: int| JsonTree::Text(a[k]))),
            )))
        }),
{
    reveal_strlit("root");
    reveal_strlit("storage");
    reveal_strlit("create");
    assert("root"@.len() == 4 && "storage"@.len() == 7 && "create"@.len() == 6);
    let s = pairs_json(storage_marks(p.managed_dirs, marks));
    let c = lists_json(create_commands(p));
    let o = seq![("root"@, JsonTree::Text(root)), ("storage"@, s), ("create"@, c)];
    lemma_sorted_entry(o, 3, 0);
    lemma_sorted_entry(o, 3, 1);
    lemma_sorted_entry(o, 3, 2);
    let j = generation_parts(p, root, marks);
    if 0 <= i < p.managed_dirs.len() {
        let a = s->Array_0[i];
        let m = storage_marks(p.managed_dirs, marks)[i];
        assert(a->Array_0 =~= seq![JsonTree::Text(m.0), JsonTree::Text(m.1)]);
        let r = json_sorted(a)->Array_0;
        assert(json_sorted(JsonTree::Text(m.0)) == JsonTree::Text(m.0));
        assert(json_sorted(JsonTree::Text(m.1)) == JsonTree::Text(m.1));
        assert(r =~= seq![JsonTree::Text(m.0), JsonTree::Text(m.1)]);
        assert(json_sorted(s)->Array_0[i] == json_sorted(a));
        assert(r =~= seq![
            JsonTree::Text(lossy_text(p.managed_dirs[i])),
            JsonTree::Text(
                match marks[i] {
                    Some(t) => trimmed(t),
                    None => Seq::empty(),
                },
            ),
        ]);
        assert(json_sorted(a) == JsonTree::Array(r));
    }
    if p.hooks.create is None {
        assert(c->Object_0 =~= Seq::<(Seq<char>, JsonTree)>::empty());
        assert(json_sorted(c) == JsonTree::Object(sorted_upto(c, 0)));
    }
    if let Some(HookView::Command(h)) = p.hooks.create {
        let w = create_commands(p);
        let e = Seq::<(Seq<char>, Seq<Seq<char>>)>::empty();
        assert(w == with_entry(e, "create"@, argv_of(h.run)));
        assert(w.len() == 1 && w[0] == ("create"@, argv_of(h.run)));
        let d = c->Object_0;
        assert(d[0].0 == "create"@);
        assert(c == JsonTree::Object(d));
        lemma_sorted_entry(d, 1, 0);
        if let CommandView::Argv(a) = h.run {
            let l = Seq::new(a.len(), |k: int| JsonTree::Text(a[k]));
            assert(texts_json(a)->Array_0 =~= l);
            assert forall|k: int| 0 <= k < l.len() implies json_sorted(#[trigger] l[k]) == l[k] by {
                assert(l[k] is Text);
            }
            assert(json_sorted(JsonTree::Array(l))->Array_0 =~= l);
            assert(argv_of(h.run) == a);
            assert(d[0].1 == JsonTree::Array(l));
        }
    }
}

} // verus!
