//! The plan as a JSON value: what is printed, recorded and compared.

use crate::config::{Cache, Command, Cpus, Nested, Requires};
use crate::path::HostPath;
use crate::plan::{
    lemma_group, CacheView, CommandView, EndpointPlan, EndpointView, EnvVar, EnvVarView, HookCommand, HookCommandView,
    HookPlan, HookView, HooksPlan, HooksView, HostExecPlan, HostExecView, MountPlan, MountView, Plan, PlanView,
    RequiresView, Source, SourceView, TaskPlan, TaskView, VsCodePlan, VsCodeView,
};
use crate::redact::redacted;
use crate::resolve::all_distinct;
use crate::text::{cat2, error, put, Error};
use crate::value::{
    copy_json, group_json, json_number, json_pretty, json_pretty_shown, json_sound, number_from, Json, JsonTree,
};
use vstd::prelude::*;
use vstd::utf8::{decode_utf8, valid_utf8};

verus! {

broadcast use {group_json, lemma_group};

/// An object with these keys and values, in order.
pub open spec fn object(keys: Seq<Seq<char>>, values: Seq<JsonTree>) -> JsonTree {
    JsonTree::Object(Seq::new(keys.len(), |i: int| (keys[i], values[i])))
}

/// An object whose keys are distinct and whose values are sound is sound.
pub proof fn lemma_object_sound(keys: Seq<Seq<char>>, values: Seq<JsonTree>)
    requires
        all_distinct(keys),
        values.len() == keys.len(),
        forall|i: int| 0 <= i < values.len() ==> json_sound(#[trigger] values[i]),
    ensures
        json_sound(object(keys, values)),
{
    let o = object(keys, values);
    let t = o->Object_0;
    assert forall|i: int, j: int| 0 <= i < j < t.len() implies (#[trigger] t[i]).0 != (#[trigger] t[j]).0 by {
        assert(keys[i] != keys[j]);
    }
    assert forall|i: int| 0 <= i < t.len() implies json_sound((#[trigger] t[i]).1) by {
        assert(json_sound(values[i]));
    }
}

/// Keys that differ in their length or in one of their first two characters.
pub open spec fn told_apart(keys: Seq<Seq<char>>) -> bool {
    forall|i: int, j: int|
        0 <= i < j < keys.len() ==> (#[trigger] keys[i]).len() != (#[trigger] keys[j]).len() || keys[i][0] != keys[j][0]
            || keys[i][1] != keys[j][1]
}

pub proof fn lemma_told_apart(keys: Seq<Seq<char>>)
    requires
        told_apart(keys),
    ensures
        all_distinct(keys),
{
}

/// An array of sound values is sound.
pub proof fn lemma_array_sound(a: Seq<JsonTree>)
    requires
        forall|i: int| 0 <= i < a.len() ==> json_sound(#[trigger] a[i]),
    ensures
        json_sound(JsonTree::Array(a)),
{
    let w = JsonTree::Array(a);
    assert(w->Array_0 == a);
}

pub open spec fn text_json(s: Seq<char>) -> JsonTree {
    JsonTree::Text(s)
}

pub open spec fn opt_json(s: Option<Seq<char>>) -> JsonTree {
    match s {
        Some(t) => JsonTree::Text(t),
        None => JsonTree::Null,
    }
}

pub open spec fn texts_json(v: Seq<Seq<char>>) -> JsonTree {
    JsonTree::Array(Seq::new(v.len(), |i: int| text_json(v[i])))
}

pub open spec fn path_json(b: Seq<u8>) -> JsonTree {
    JsonTree::Text(decode_utf8(b))
}

pub open spec fn number_json(n: u64) -> JsonTree {
    JsonTree::Number(json_number(n))
}

pub proof fn lemma_texts_sound(v: Seq<Seq<char>>)
    ensures
        json_sound(texts_json(v)),
{
    lemma_array_sound(Seq::new(v.len(), |i: int| text_json(v[i])));
}

pub fn text_value(s: &str) -> (r: Json)
    ensures
        r.deep_view() == text_json(s@),
{
    Json::Text(s.to_owned())
}

pub fn opt_value(s: &Option<String>) -> (r: Json)
    ensures
        r.deep_view() == opt_json(s.deep_view()),
{
    match s {
        Some(t) => Json::Text(t.clone()),
        None => Json::Null,
    }
}

pub fn texts_value(v: &Vec<String>) -> (r: Json)
    ensures
        r.deep_view() == texts_json(v.deep_view()),
{
    let ghost all = texts_json(v.deep_view())->Array_0;
    let mut out: Vec<Json> = Vec::new();
    let mut i: usize = 0;
    assert(out.deep_view() =~= all.take(0));
    while i < v.len()
        invariant
            i <= v@.len(),
            all == texts_json(v.deep_view())->Array_0,
            out.deep_view() == all.take(i as int),
        decreases v@.len() - i,
    {
        assert(v.deep_view()[i as int] == v@[i as int]@);
        put(&mut out, text_value(v[i].as_str()));
        assert(out.deep_view() =~= all.take(i + 1));
        i = i + 1;
    }
    assert(out.deep_view() =~= all);
    Json::Array(out)
}

/// What a path that is not text says.
pub open spec fn path_error() -> Seq<char> {
    "path contains invalid UTF-8 characters"@
}

pub fn path_value(p: &HostPath) -> (r: Result<Json, Error>)
    ensures
        match r {
            Ok(j) => valid_utf8(p.deep_view()) && j.deep_view() == path_json(p.deep_view()),
            Err(e) => !valid_utf8(p.deep_view()) && e.deep_view() == path_error(),
        },
{
    match p.to_str() {
        Some(t) => Ok(Json::Text(t)),
        None => Err(error("path contains invalid UTF-8 characters".to_owned())),
    }
}

pub fn number_value(n: u64) -> (r: Json)
    ensures
        r.deep_view() == number_json(n),
{
    Json::Number(number_from(n))
}

pub open spec fn pairs_json(a: Seq<(Seq<char>, Seq<char>)>) -> JsonTree {
    JsonTree::Array(Seq::new(a.len(), |i: int| texts_json(seq![a[i].0, a[i].1])))
}

pub proof fn lemma_pairs_sound(a: Seq<(Seq<char>, Seq<char>)>)
    ensures
        json_sound(pairs_json(a)),
{
    let s = Seq::new(a.len(), |i: int| texts_json(seq![a[i].0, a[i].1]));
    assert forall|i: int| 0 <= i < s.len() implies json_sound(#[trigger] s[i]) by {
        lemma_texts_sound(seq![a[i].0, a[i].1]);
    }
    lemma_array_sound(s);
}

pub fn pairs_value(a: &Vec<(String, String)>) -> (r: Json)
    ensures
        r.deep_view() == pairs_json(a.deep_view()),
{
    let ghost all = pairs_json(a.deep_view())->Array_0;
    let mut out: Vec<Json> = Vec::new();
    let mut i: usize = 0;
    assert(out.deep_view() =~= all.take(0));
    while i < a.len()
        invariant
            i <= a@.len(),
            all == pairs_json(a.deep_view())->Array_0,
            out.deep_view() == all.take(i as int),
        decreases a@.len() - i,
    {
        assert(a.deep_view()[i as int] == (a@[i as int].0@, a@[i as int].1@));
        put(&mut out, texts_value(&crate::draft::two(a[i].0.as_str(), a[i].1.as_str())));
        assert(out.deep_view() =~= all.take(i + 1));
        i = i + 1;
    }
    assert(out.deep_view() =~= all);
    Json::Array(out)
}

pub open spec fn source_paths_text(s: SourceView) -> bool {
    match s {
        SourceView::Compose { file, .. } => valid_utf8(file),
        SourceView::Image { .. } => true,
        SourceView::Build { context, dockerfile, .. } => valid_utf8(context) && valid_utf8(dockerfile),
    }
}

/// What the primary boots from, under the name of its kind.
pub open spec fn source_json(s: SourceView) -> JsonTree {
    match s {
        SourceView::Compose { file, service, profiles } => object(
            seq!["Compose"@],
            seq![
                object(
                    seq!["file"@, "service"@, "profiles"@],
                    seq![path_json(file), text_json(service), texts_json(profiles)],
                ),
            ],
        ),
        SourceView::Image { reference } => object(
            seq!["Image"@],
            seq![object(seq!["reference"@], seq![text_json(reference)])],
        ),
        SourceView::Build { context, dockerfile, target, args } => object(
            seq!["Build"@],
            seq![
                object(
                    seq!["context"@, "dockerfile"@, "target"@, "args"@],
                    seq![path_json(context), path_json(dockerfile), opt_json(target), pairs_json(args)],
                ),
            ],
        ),
    }
}

proof fn lemma_source_sound(s: SourceView)
    ensures
        json_sound(source_json(s)),
{
    match s {
        SourceView::Compose { file, service, profiles } => {
            reveal_strlit("file");
            reveal_strlit("service");
            reveal_strlit("profiles");
            lemma_texts_sound(profiles);
            lemma_told_apart(seq!["file"@, "service"@, "profiles"@]);
            let inner = object(
                seq!["file"@, "service"@, "profiles"@],
                seq![path_json(file), text_json(service), texts_json(profiles)],
            );
            lemma_object_sound(
                seq!["file"@, "service"@, "profiles"@],
                seq![path_json(file), text_json(service), texts_json(profiles)],
            );
            lemma_object_sound(seq!["Compose"@], seq![inner]);
        },
        SourceView::Image { reference } => {
            lemma_object_sound(seq!["reference"@], seq![text_json(reference)]);
            lemma_object_sound(seq!["Image"@], seq![object(seq!["reference"@], seq![text_json(reference)])]);
        },
        SourceView::Build { context, dockerfile, target, args } => {
            reveal_strlit("context");
            reveal_strlit("dockerfile");
            reveal_strlit("target");
            reveal_strlit("args");
            lemma_pairs_sound(args);
            let keys = seq!["context"@, "dockerfile"@, "target"@, "args"@];
            let values = seq![path_json(context), path_json(dockerfile), opt_json(target), pairs_json(args)];
            lemma_told_apart(keys);
            lemma_object_sound(keys, values);
            lemma_object_sound(seq!["Build"@], seq![object(keys, values)]);
        },
    }
}

/// An object of one entry.
pub fn single(k: &str, v: Json) -> (r: Json)
    ensures
        r.deep_view() == object(seq![k@], seq![v.deep_view()]),
{
    let mut o: Vec<(String, Json)> = Vec::new();
    put(&mut o, (k.to_owned(), v));
    assert(o.deep_view() =~= object(seq![k@], seq![v.deep_view()])->Object_0);
    Json::Object(o)
}

fn source_value(s: &Source) -> (r: Result<Json, Error>)
    ensures
        match r {
            Ok(j) => source_paths_text(s.deep_view()) && j.deep_view() == source_json(s.deep_view()),
            Err(e) => !source_paths_text(s.deep_view()) && e.deep_view() == path_error(),
        },
{
    match s {
        Source::Compose { file, service, profiles } => {
            let mut o: Vec<(String, Json)> = Vec::new();
            put(&mut o, ("file".to_owned(), path_value(file)?));
            put(&mut o, ("service".to_owned(), text_value(service.as_str())));
            put(&mut o, ("profiles".to_owned(), texts_value(profiles)));
            assert(o.deep_view() =~= object(
                seq!["file"@, "service"@, "profiles"@],
                seq![path_json(file.deep_view()), text_json(service@), texts_json(profiles.deep_view())],
            )->Object_0);
            Ok(single("Compose", Json::Object(o)))
        },
        Source::Image { reference } => Ok(single("Image", single("reference", text_value(reference.as_str())))),
        Source::Build { context, dockerfile, target, args } => {
            let mut o: Vec<(String, Json)> = Vec::new();
            put(&mut o, ("context".to_owned(), path_value(context)?));
            put(&mut o, ("dockerfile".to_owned(), path_value(dockerfile)?));
            put(&mut o, ("target".to_owned(), opt_value(target)));
            put(&mut o, ("args".to_owned(), pairs_value(args)));
            assert(o.deep_view() =~= object(
                seq!["context"@, "dockerfile"@, "target"@, "args"@],
                seq![
                    path_json(context.deep_view()),
                    path_json(dockerfile.deep_view()),
                    opt_json(target.deep_view()),
                    pairs_json(args.deep_view()),
                ],
            )->Object_0);
            Ok(single("Build", Json::Object(o)))
        },
    }
}

pub open spec fn env_var_json(e: EnvVarView) -> JsonTree {
    object(seq!["name"@, "value"@, "sensitive"@], seq![text_json(e.name), text_json(e.value), JsonTree::Bool(e.sensitive)])
}

pub open spec fn env_json(v: Seq<EnvVarView>) -> JsonTree {
    JsonTree::Array(Seq::new(v.len(), |i: int| env_var_json(v[i])))
}

pub proof fn lemma_env_sound(v: Seq<EnvVarView>)
    ensures
        json_sound(env_json(v)),
{
    reveal_strlit("name");
    reveal_strlit("value");
    reveal_strlit("sensitive");
    lemma_told_apart(seq!["name"@, "value"@, "sensitive"@]);
    let s = Seq::new(v.len(), |i: int| env_var_json(v[i]));
    assert forall|i: int| 0 <= i < s.len() implies json_sound(#[trigger] s[i]) by {
        let e = v[i];
        lemma_object_sound(
            seq!["name"@, "value"@, "sensitive"@],
            seq![text_json(e.name), text_json(e.value), JsonTree::Bool(e.sensitive)],
        );
    }
    lemma_array_sound(s);
}

fn env_value(v: &Vec<EnvVar>) -> (r: Json)
    ensures
        r.deep_view() == env_json(v.deep_view()),
{
    let ghost all = env_json(v.deep_view())->Array_0;
    let mut out: Vec<Json> = Vec::new();
    let mut i: usize = 0;
    assert(out.deep_view() =~= all.take(0));
    while i < v.len()
        invariant
            i <= v@.len(),
            all == env_json(v.deep_view())->Array_0,
            out.deep_view() == all.take(i as int),
        decreases v@.len() - i,
    {
        let e = &v[i];
        assert(v.deep_view()[i as int] == e.deep_view());
        let mut o: Vec<(String, Json)> = Vec::new();
        put(&mut o, ("name".to_owned(), text_value(e.name.as_str())));
        put(&mut o, ("value".to_owned(), text_value(e.value.as_str())));
        put(&mut o, ("sensitive".to_owned(), Json::Bool(e.sensitive)));
        assert(o.deep_view() =~= env_var_json(e.deep_view())->Object_0);
        put(&mut out, Json::Object(o));
        assert(out.deep_view() =~= all.take(i + 1));
        i = i + 1;
    }
    assert(out.deep_view() =~= all);
    Json::Array(out)
}

pub open spec fn mount_json(m: MountView) -> JsonTree {
    object(
        seq!["name"@, "source"@, "to"@, "read_only"@, "optional"@],
        seq![
            text_json(m.name),
            path_json(m.source),
            text_json(m.to),
            JsonTree::Bool(m.read_only),
            JsonTree::Bool(m.optional),
        ],
    )
}

pub open spec fn mounts_json(v: Seq<MountView>) -> JsonTree {
    JsonTree::Array(Seq::new(v.len(), |i: int| mount_json(v[i])))
}

pub open spec fn mounts_text(v: Seq<MountView>) -> bool {
    forall|i: int| 0 <= i < v.len() ==> valid_utf8((#[trigger] v[i]).source)
}

proof fn lemma_mounts_sound(v: Seq<MountView>)
    ensures
        json_sound(mounts_json(v)),
{
    reveal_strlit("name");
    reveal_strlit("source");
    reveal_strlit("to");
    reveal_strlit("read_only");
    reveal_strlit("optional");
    lemma_told_apart(seq!["name"@, "source"@, "to"@, "read_only"@, "optional"@]);
    let s = Seq::new(v.len(), |i: int| mount_json(v[i]));
    assert forall|i: int| 0 <= i < s.len() implies json_sound(#[trigger] s[i]) by {
        let m = v[i];
        lemma_object_sound(
            seq!["name"@, "source"@, "to"@, "read_only"@, "optional"@],
            seq![
                text_json(m.name),
                path_json(m.source),
                text_json(m.to),
                JsonTree::Bool(m.read_only),
                JsonTree::Bool(m.optional),
            ],
        );
    }
    lemma_array_sound(s);
}

fn mounts_value(v: &Vec<MountPlan>) -> (r: Result<Json, Error>)
    ensures
        match r {
            Ok(j) => mounts_text(v.deep_view()) && j.deep_view() == mounts_json(v.deep_view()),
            Err(e) => !mounts_text(v.deep_view()) && e.deep_view() == path_error(),
        },
{
    let ghost d = v.deep_view();
    let ghost all = mounts_json(d)->Array_0;
    let mut out: Vec<Json> = Vec::new();
    let mut i: usize = 0;
    assert(out.deep_view() =~= all.take(0));
    while i < v.len()
        invariant
            i <= v@.len(),
            d == v.deep_view(),
            all == mounts_json(d)->Array_0,
            out.deep_view() == all.take(i as int),
            forall|j: int| 0 <= j < i ==> valid_utf8((#[trigger] d[j]).source),
        decreases v@.len() - i,
    {
        let m = &v[i];
        assert(d[i as int] == m.deep_view());
        let mut o: Vec<(String, Json)> = Vec::new();
        put(&mut o, ("name".to_owned(), text_value(m.name.as_str())));
        put(&mut o, ("source".to_owned(), path_value(&m.source)?));
        put(&mut o, ("to".to_owned(), text_value(m.to.as_str())));
        put(&mut o, ("read_only".to_owned(), Json::Bool(m.read_only)));
        put(&mut o, ("optional".to_owned(), Json::Bool(m.optional)));
        assert(o.deep_view() =~= mount_json(m.deep_view())->Object_0);
        put(&mut out, Json::Object(o));
        assert(out.deep_view() =~= all.take(i + 1));
        i = i + 1;
    }
    assert(out.deep_view() =~= all);
    Ok(Json::Array(out))
}

pub open spec fn endpoint_json(e: EndpointView) -> JsonTree {
    object(
        seq![
            "name"@,
            "service"@,
            "host_port"@,
            "address"@,
            "listen"@,
            "to"@,
            "scheme"@,
            "path"@,
            "required"@,
        ],
        seq![
            text_json(e.name),
            opt_json(e.service),
            number_json(e.host_port as u64),
            text_json(e.address),
            text_json(e.listen),
            text_json(e.to),
            opt_json(e.scheme),
            opt_json(e.path),
            JsonTree::Bool(e.required),
        ],
    )
}

pub open spec fn endpoints_json(v: Seq<EndpointView>) -> JsonTree {
    JsonTree::Array(Seq::new(v.len(), |i: int| endpoint_json(v[i])))
}

proof fn lemma_endpoints_sound(v: Seq<EndpointView>)
    ensures
        json_sound(endpoints_json(v)),
{
    reveal_strlit("name");
    reveal_strlit("service");
    reveal_strlit("host_port");
    reveal_strlit("address");
    reveal_strlit("listen");
    reveal_strlit("to");
    reveal_strlit("scheme");
    reveal_strlit("path");
    reveal_strlit("required");
    let keys = seq!["name"@, "service"@, "host_port"@, "address"@, "listen"@, "to"@, "scheme"@, "path"@, "required"@];
    lemma_told_apart(keys);
    let s = Seq::new(v.len(), |i: int| endpoint_json(v[i]));
    assert forall|i: int| 0 <= i < s.len() implies json_sound(#[trigger] s[i]) by {
        let e = v[i];
        lemma_object_sound(
            keys,
            seq![
                text_json(e.name),
                opt_json(e.service),
                number_json(e.host_port as u64),
                text_json(e.address),
                text_json(e.listen),
                text_json(e.to),
                opt_json(e.scheme),
                opt_json(e.path),
                JsonTree::Bool(e.required),
            ],
        );
    }
    lemma_array_sound(s);
}

fn endpoints_value(v: &Vec<EndpointPlan>) -> (r: Json)
    ensures
        r.deep_view() == endpoints_json(v.deep_view()),
{
    let ghost all = endpoints_json(v.deep_view())->Array_0;
    let mut out: Vec<Json> = Vec::new();
    let mut i: usize = 0;
    assert(out.deep_view() =~= all.take(0));
    while i < v.len()
        invariant
            i <= v@.len(),
            all == endpoints_json(v.deep_view())->Array_0,
            out.deep_view() == all.take(i as int),
        decreases v@.len() - i,
    {
        let e = &v[i];
        assert(v.deep_view()[i as int] == e.deep_view());
        let mut o: Vec<(String, Json)> = Vec::new();
        put(&mut o, ("name".to_owned(), text_value(e.name.as_str())));
        put(&mut o, ("service".to_owned(), opt_value(&e.service)));
        put(&mut o, ("host_port".to_owned(), number_value(e.host_port as u64)));
        put(&mut o, ("address".to_owned(), text_value(e.address.as_str())));
        put(&mut o, ("listen".to_owned(), text_value(e.listen.as_str())));
        put(&mut o, ("to".to_owned(), text_value(e.to.as_str())));
        put(&mut o, ("scheme".to_owned(), opt_value(&e.scheme)));
        put(&mut o, ("path".to_owned(), opt_value(&e.path)));
        put(&mut o, ("required".to_owned(), Json::Bool(e.required)));
        assert(o.deep_view() =~= endpoint_json(e.deep_view())->Object_0);
        put(&mut out, Json::Object(o));
        assert(out.deep_view() =~= all.take(i + 1));
        i = i + 1;
    }
    assert(out.deep_view() =~= all);
    Json::Array(out)
}

pub open spec fn task_json(t: TaskView) -> JsonTree {
    object(
        seq!["name"@, "argv"@, "environment"@, "reuse"@, "policy"@, "checkout"@, "env"@],
        seq![
            text_json(t.name),
            texts_json(t.argv),
            text_json(t.environment),
            text_json(t.reuse),
            text_json(t.policy.spelling()),
            text_json(t.checkout.spelling()),
            env_json(t.env),
        ],
    )
}

pub open spec fn tasks_json(v: Seq<TaskView>) -> JsonTree {
    JsonTree::Array(Seq::new(v.len(), |i: int| task_json(v[i])))
}

proof fn lemma_tasks_sound(v: Seq<TaskView>)
    ensures
        json_sound(tasks_json(v)),
{
    reveal_strlit("name");
    reveal_strlit("argv");
    reveal_strlit("environment");
    reveal_strlit("reuse");
    reveal_strlit("policy");
    reveal_strlit("checkout");
    reveal_strlit("env");
    let keys = seq!["name"@, "argv"@, "environment"@, "reuse"@, "policy"@, "checkout"@, "env"@];
    lemma_told_apart(keys);
    let s = Seq::new(v.len(), |i: int| task_json(v[i]));
    assert forall|i: int| 0 <= i < s.len() implies json_sound(#[trigger] s[i]) by {
        let t = v[i];
        lemma_texts_sound(t.argv);
        lemma_env_sound(t.env);
        lemma_object_sound(
            keys,
            seq![
                text_json(t.name),
                texts_json(t.argv),
                text_json(t.environment),
                text_json(t.reuse),
                text_json(t.policy.spelling()),
                text_json(t.checkout.spelling()),
                env_json(t.env),
            ],
        );
    }
    lemma_array_sound(s);
}

fn tasks_value(v: &Vec<TaskPlan>) -> (r: Json)
    ensures
        r.deep_view() == tasks_json(v.deep_view()),
{
    let ghost all = tasks_json(v.deep_view())->Array_0;
    let mut out: Vec<Json> = Vec::new();
    let mut i: usize = 0;
    assert(out.deep_view() =~= all.take(0));
    while i < v.len()
        invariant
            i <= v@.len(),
            all == tasks_json(v.deep_view())->Array_0,
            out.deep_view() == all.take(i as int),
        decreases v@.len() - i,
    {
        let t = &v[i];
        assert(v.deep_view()[i as int] == t.deep_view());
        let mut o: Vec<(String, Json)> = Vec::new();
        put(&mut o, ("name".to_owned(), text_value(t.name.as_str())));
        put(&mut o, ("argv".to_owned(), texts_value(&t.argv)));
        put(&mut o, ("environment".to_owned(), text_value(t.environment.as_str())));
        put(&mut o, ("reuse".to_owned(), text_value(t.reuse.as_str())));
        put(&mut o, ("policy".to_owned(), text_value(t.policy.as_str())));
        put(&mut o, ("checkout".to_owned(), text_value(t.checkout.as_str())));
        put(&mut o, ("env".to_owned(), env_value(&t.env)));
        assert(o.deep_view() =~= task_json(t.deep_view())->Object_0);
        put(&mut out, Json::Object(o));
        assert(out.deep_view() =~= all.take(i + 1));
        i = i + 1;
    }
    assert(out.deep_view() =~= all);
    Json::Array(out)
}

pub open spec fn cpus_json(c: Option<Cpus>) -> JsonTree {
    match c {
        Some(Cpus::Count(n)) => number_json(n as u64),
        Some(Cpus::Host) => text_json("host"@),
        None => JsonTree::Null,
    }
}

fn cpus_value(c: Option<Cpus>) -> (r: Json)
    ensures
        r.deep_view() == cpus_json(c),
{
    match c {
        Some(Cpus::Count(n)) => number_value(n as u64),
        Some(Cpus::Host) => text_value("host"),
        None => Json::Null,
    }
}

pub open spec fn nested_json(n: Nested) -> JsonTree {
    match n {
        Nested::Off => text_json("off"@),
        Nested::Auto => text_json("auto"@),
        Nested::Required => text_json("required"@),
    }
}

fn nested_value(n: Nested) -> (r: Json)
    ensures
        r.deep_view() == nested_json(n),
{
    match n {
        Nested::Off => text_value("off"),
        Nested::Auto => text_value("auto"),
        Nested::Required => text_value("required"),
    }
}

pub open spec fn host_exec_json(h: Option<HostExecView>) -> JsonTree {
    match h {
        None => JsonTree::Null,
        Some(x) => object(
            seq!["wrapper"@, "builtin"@, "env"@],
            seq![path_json(x.wrapper), opt_json(x.builtin), texts_json(x.env)],
        ),
    }
}

pub open spec fn wrapper_text(h: Option<HostExecView>) -> bool {
    h matches Some(x) ==> valid_utf8(x.wrapper)
}

proof fn lemma_host_exec_sound(h: Option<HostExecView>)
    ensures
        json_sound(host_exec_json(h)),
{
    if let Some(x) = h {
        reveal_strlit("wrapper");
        reveal_strlit("builtin");
        reveal_strlit("env");
        lemma_texts_sound(x.env);
        let keys = seq!["wrapper"@, "builtin"@, "env"@];
        lemma_told_apart(keys);
        lemma_object_sound(keys, seq![path_json(x.wrapper), opt_json(x.builtin), texts_json(x.env)]);
    }
}

fn host_exec_value(h: &Option<HostExecPlan>) -> (r: Result<Json, Error>)
    ensures
        match r {
            Ok(j) => wrapper_text(h.deep_view()) && j.deep_view() == host_exec_json(h.deep_view()),
            Err(e) => !wrapper_text(h.deep_view()) && e.deep_view() == path_error(),
        },
{
    match h {
        None => Ok(Json::Null),
        Some(x) => {
            let mut o: Vec<(String, Json)> = Vec::new();
            put(&mut o, ("wrapper".to_owned(), path_value(&x.wrapper)?));
            put(&mut o, ("builtin".to_owned(), opt_value(&x.builtin)));
            put(&mut o, ("env".to_owned(), texts_value(&x.env)));
            assert(o.deep_view() =~= host_exec_json(h.deep_view())->Object_0);
            Ok(Json::Object(o))
        },
    }
}

pub open spec fn cache_json(c: CacheView) -> JsonTree {
    object(seq!["registry"@, "insecure"@], seq![opt_json(c.registry), JsonTree::Bool(c.insecure)])
}

pub open spec fn requires_json(c: RequiresView) -> JsonTree {
    object(seq!["min-version"@, "features"@], seq![opt_json(c.min_version), texts_json(c.features)])
}

proof fn lemma_cache_sound(c: CacheView, q: RequiresView)
    ensures
        json_sound(cache_json(c)),
        json_sound(requires_json(q)),
{
    reveal_strlit("registry");
    reveal_strlit("insecure");
    reveal_strlit("min-version");
    reveal_strlit("features");
    lemma_told_apart(seq!["registry"@, "insecure"@]);
    lemma_object_sound(seq!["registry"@, "insecure"@], seq![opt_json(c.registry), JsonTree::Bool(c.insecure)]);
    lemma_texts_sound(q.features);
    lemma_told_apart(seq!["min-version"@, "features"@]);
    lemma_object_sound(seq!["min-version"@, "features"@], seq![opt_json(q.min_version), texts_json(q.features)]);
}

fn cache_value(c: &Cache) -> (r: Json)
    ensures
        r.deep_view() == cache_json(c.deep_view()),
{
    let mut o: Vec<(String, Json)> = Vec::new();
    put(&mut o, ("registry".to_owned(), opt_value(&c.registry)));
    put(&mut o, ("insecure".to_owned(), Json::Bool(c.insecure)));
    assert(o.deep_view() =~= cache_json(c.deep_view())->Object_0);
    Json::Object(o)
}

fn requires_value(c: &Requires) -> (r: Json)
    ensures
        r.deep_view() == requires_json(c.deep_view()),
{
    let mut o: Vec<(String, Json)> = Vec::new();
    put(&mut o, ("min-version".to_owned(), opt_value(&c.min_version)));
    put(&mut o, ("features".to_owned(), texts_value(&c.features)));
    assert(o.deep_view() =~= requires_json(c.deep_view())->Object_0);
    Json::Object(o)
}

pub open spec fn command_json(c: CommandView) -> JsonTree {
    match c {
        CommandView::Shell(s) => text_json(s),
        CommandView::Argv(a) => texts_json(a),
    }
}

pub open spec fn hook_command_json(c: HookCommandView) -> JsonTree {
    object(
        seq!["run"@, "cwd"@, "timeout_secs"@, "required"@],
        seq![
            command_json(c.run),
            opt_json(c.cwd),
            match c.timeout_secs {
                Some(t) => number_json(t),
                None => JsonTree::Null,
            },
            JsonTree::Bool(c.required),
        ],
    )
}

/// A hook, under the name of its kind.
pub open spec fn hook_json(h: HookView) -> JsonTree
    decreases h,
{
    match h {
        HookView::Command(c) => object(seq!["Command"@], seq![hook_command_json(c)]),
        HookView::Group(g) => object(
            seq!["Group"@],
            seq![
                JsonTree::Object(
                    Seq::new(
                        g.len(),
                        |i: int|
                            if 0 <= i < g.len() {
                                (g[i].0, hook_json(g[i].1))
                            } else {
                                arbitrary()
                            },
                    ),
                ),
            ],
        ),
    }
}

/// The members of every group have each its own name.
pub open spec fn hook_sound(h: HookView) -> bool
    decreases h,
{
    match h {
        HookView::Command(_) => true,
        HookView::Group(g) => {
            &&& forall|i: int, j: int| 0 <= i < j < g.len() ==> (#[trigger] g[i]).0 != (#[trigger] g[j]).0
            &&& forall|i: int| 0 <= i < g.len() ==> hook_sound((#[trigger] g[i]).1)
        },
    }
}

pub open spec fn opt_hook_sound(h: Option<HookView>) -> bool {
    h matches Some(x) ==> hook_sound(x)
}

proof fn lemma_hook_command_sound(c: HookCommandView)
    ensures
        json_sound(hook_command_json(c)),
{
    reveal_strlit("run");
    reveal_strlit("cwd");
    reveal_strlit("timeout_secs");
    reveal_strlit("required");
    if let CommandView::Argv(a) = c.run {
        lemma_texts_sound(a);
    }
    let keys = seq!["run"@, "cwd"@, "timeout_secs"@, "required"@];
    lemma_told_apart(keys);
    lemma_object_sound(
        keys,
        seq![
            command_json(c.run),
            opt_json(c.cwd),
            match c.timeout_secs {
                Some(t) => number_json(t),
                None => JsonTree::Null,
            },
            JsonTree::Bool(c.required),
        ],
    );
}

/// The members of a group, by name.
pub open spec fn members_json(g: Seq<(Seq<char>, HookView)>) -> Seq<(Seq<char>, JsonTree)> {
    Seq::new(
        g.len(),
        |i: int|
            if 0 <= i < g.len() {
                (g[i].0, hook_json(g[i].1))
            } else {
                arbitrary()
            },
    )
}

proof fn lemma_group_json(g: Seq<(Seq<char>, HookView)>)
    ensures
        hook_json(HookView::Group(g)) == object(seq!["Group"@], seq![JsonTree::Object(members_json(g))]),
{
    let j = hook_json(HookView::Group(g));
    let t = object(seq!["Group"@], seq![JsonTree::Object(members_json(g))]);
    assert(j->Object_0[0].1->Object_0 =~= members_json(g));
    assert(j->Object_0 =~= t->Object_0);
}

pub proof fn lemma_hook_sound(h: HookView)
    requires
        hook_sound(h),
    ensures
        json_sound(hook_json(h)),
    decreases h,
{
    match h {
        HookView::Command(c) => {
            lemma_hook_command_sound(c);
            lemma_object_sound(seq!["Command"@], seq![hook_command_json(c)]);
        },
        HookView::Group(g) => {
            let o = members_json(g);
            assert(h->Group_0 == g);
            assert forall|i: int, j: int| 0 <= i < j < o.len() implies (#[trigger] o[i]).0 != (#[trigger] o[j]).0 by {
                assert(g[i].0 != g[j].0);
            }
            assert forall|i: int| 0 <= i < o.len() implies json_sound((#[trigger] o[i]).1) by {
                assert(decreases_to!(g => g[i]));
                assert(decreases_to!(g[i] => g[i].1));
                assert(decreases_to!(h => h->Group_0));
                assert(hook_sound(g[i].1));
                lemma_hook_sound(g[i].1);
            }
            let w = JsonTree::Object(o);
            assert(w->Object_0 == o);
            assert(json_sound(w));
            lemma_object_sound(seq!["Group"@], seq![w]);
            lemma_group_json(g);
        },
    }
}

fn hook_command_value(c: &HookCommand) -> (r: Json)
    ensures
        r.deep_view() == hook_command_json(c.deep_view()),
{
    let run = match &c.run {
        Command::Shell(s) => text_value(s.as_str()),
        Command::Argv(a) => texts_value(a),
    };
    let timeout = match c.timeout_secs {
        Some(t) => number_value(t),
        None => Json::Null,
    };
    let mut o: Vec<(String, Json)> = Vec::new();
    put(&mut o, ("run".to_owned(), run));
    put(&mut o, ("cwd".to_owned(), opt_value(&c.cwd)));
    put(&mut o, ("timeout_secs".to_owned(), timeout));
    put(&mut o, ("required".to_owned(), Json::Bool(c.required)));
    assert(o.deep_view() =~= hook_command_json(c.deep_view())->Object_0);
    Json::Object(o)
}

pub fn hook_value(h: &HookPlan) -> (r: Json)
    ensures
        r.deep_view() == hook_json(h.deep_view()),
    decreases h.deep_view(),
{
    match h {
        HookPlan::Command(c) => {
            single("Command", hook_command_value(c))
        },
        HookPlan::Group(g) => {
            let ghost d = g.deep_view();
            let ghost whole = h.deep_view();
            let ghost all = members_json(d);
            let mut out: Vec<(String, Json)> = Vec::new();
            let mut i: usize = 0;
            assert(out.deep_view() =~= all.take(0));
            while i < g.len()
                invariant
                    i <= g@.len(),
                    d == g.deep_view(),
                    whole == h.deep_view(),
                    whole == HookView::Group(d),
                    all == members_json(d),
                    out.deep_view() == all.take(i as int),
                decreases g@.len() - i,
            {
                assert(d[i as int] == (g@[i as int].0@, g@[i as int].1.deep_view()));
                assert(decreases_to!(d => d[i as int]));
                assert(decreases_to!(d[i as int] => d[i as int].1));
                assert(decreases_to!(whole => whole->Group_0));
                put(&mut out, (g[i].0.clone(), hook_value(&g[i].1)));
                assert(out.deep_view() =~= all.take(i + 1));
                i = i + 1;
            }
            assert(out.deep_view() =~= all);
            proof {
                lemma_group_json(d);
            }
            single("Group", Json::Object(out))
        },
    }
}

pub open spec fn opt_hook_json(h: Option<HookView>) -> JsonTree {
    match h {
        Some(x) => hook_json(x),
        None => JsonTree::Null,
    }
}

pub fn opt_hook_value(h: &Option<HookPlan>) -> (r: Json)
    ensures
        r.deep_view() == opt_hook_json(h.deep_view()),
{
    match h {
        Some(x) => hook_value(x),
        None => Json::Null,
    }
}

pub proof fn lemma_opt_hook_sound(h: Option<HookView>)
    requires
        opt_hook_sound(h),
    ensures
        json_sound(opt_hook_json(h)),
{
    if let Some(x) = h {
        lemma_hook_sound(x);
    }
}

pub open spec fn hooks_json(h: HooksView) -> JsonTree {
    object(
        seq!["init"@, "create"@, "start"@],
        seq![opt_hook_json(h.init), opt_hook_json(h.create), opt_hook_json(h.start)],
    )
}

pub open spec fn hooks_sound(h: HooksView) -> bool {
    opt_hook_sound(h.init) && opt_hook_sound(h.create) && opt_hook_sound(h.start)
}

proof fn lemma_hooks_sound(h: HooksView)
    requires
        hooks_sound(h),
    ensures
        json_sound(hooks_json(h)),
{
    reveal_strlit("init");
    reveal_strlit("create");
    reveal_strlit("start");
    lemma_opt_hook_sound(h.init);
    lemma_opt_hook_sound(h.create);
    lemma_opt_hook_sound(h.start);
    let keys = seq!["init"@, "create"@, "start"@];
    lemma_told_apart(keys);
    lemma_object_sound(keys, seq![opt_hook_json(h.init), opt_hook_json(h.create), opt_hook_json(h.start)]);
}

fn hooks_value(h: &HooksPlan) -> (r: Json)
    ensures
        r.deep_view() == hooks_json(h.deep_view()),
{
    let mut o: Vec<(String, Json)> = Vec::new();
    put(&mut o, ("init".to_owned(), opt_hook_value(&h.init)));
    put(&mut o, ("create".to_owned(), opt_hook_value(&h.create)));
    put(&mut o, ("start".to_owned(), opt_hook_value(&h.start)));
    assert(o.deep_view() =~= hooks_json(h.deep_view())->Object_0);
    Json::Object(o)
}

pub open spec fn vscode_json(v: Option<VsCodeView>) -> JsonTree {
    match v {
        None => JsonTree::Null,
        Some(x) => object(
            seq!["persistent"@, "home"@, "reconcile"@, "extensions"@, "settings"@],
            seq![
                JsonTree::Bool(x.persistent),
                text_json(x.home),
                opt_hook_json(x.reconcile),
                texts_json(x.extensions),
                x.settings,
            ],
        ),
    }
}

pub open spec fn vscode_sound(v: Option<VsCodeView>) -> bool {
    v matches Some(x) ==> opt_hook_sound(x.reconcile) && json_sound(x.settings)
}

proof fn lemma_vscode_sound(v: Option<VsCodeView>)
    requires
        vscode_sound(v),
    ensures
        json_sound(vscode_json(v)),
{
    if let Some(x) = v {
        reveal_strlit("persistent");
        reveal_strlit("home");
        reveal_strlit("reconcile");
        reveal_strlit("extensions");
        reveal_strlit("settings");
        lemma_opt_hook_sound(x.reconcile);
        lemma_texts_sound(x.extensions);
        let keys = seq!["persistent"@, "home"@, "reconcile"@, "extensions"@, "settings"@];
        lemma_told_apart(keys);
        lemma_object_sound(
            keys,
            seq![
                JsonTree::Bool(x.persistent),
                text_json(x.home),
                opt_hook_json(x.reconcile),
                texts_json(x.extensions),
                x.settings,
            ],
        );
    }
}

fn vscode_value(v: &Option<VsCodePlan>) -> (r: Json)
    ensures
        r.deep_view() == vscode_json(v.deep_view()),
{
    match v {
        None => Json::Null,
        Some(x) => {
            let mut o: Vec<(String, Json)> = Vec::new();
            put(&mut o, ("persistent".to_owned(), Json::Bool(x.persistent)));
            put(&mut o, ("home".to_owned(), text_value(x.home.as_str())));
            put(&mut o, ("reconcile".to_owned(), opt_hook_value(&x.reconcile)));
            put(&mut o, ("extensions".to_owned(), texts_value(&x.extensions)));
            put(&mut o, ("settings".to_owned(), copy_json(&x.settings)));
            assert(o.deep_view() =~= vscode_json(v.deep_view())->Object_0);
            Json::Object(o)
        },
    }
}

pub open spec fn paths_json(v: Seq<Seq<u8>>) -> JsonTree {
    JsonTree::Array(Seq::new(v.len(), |i: int| path_json(v[i])))
}

pub open spec fn paths_text(v: Seq<Seq<u8>>) -> bool {
    forall|i: int| 0 <= i < v.len() ==> valid_utf8(#[trigger] v[i])
}

fn paths_value(v: &Vec<HostPath>) -> (r: Result<Json, Error>)
    ensures
        match r {
            Ok(j) => paths_text(v.deep_view()) && j.deep_view() == paths_json(v.deep_view()),
            Err(e) => !paths_text(v.deep_view()) && e.deep_view() == path_error(),
        },
{
    let ghost d = v.deep_view();
    let ghost all = paths_json(d)->Array_0;
    let mut out: Vec<Json> = Vec::new();
    let mut i: usize = 0;
    assert(out.deep_view() =~= all.take(0));
    while i < v.len()
        invariant
            i <= v@.len(),
            d == v.deep_view(),
            all == paths_json(d)->Array_0,
            out.deep_view() == all.take(i as int),
            forall|j: int| 0 <= j < i ==> valid_utf8(#[trigger] d[j]),
        decreases v@.len() - i,
    {
        assert(d[i as int] == v@[i as int].deep_view());
        put(&mut out, path_value(&v[i])?);
        assert(out.deep_view() =~= all.take(i + 1));
        i = i + 1;
    }
    assert(out.deep_view() =~= all);
    Ok(Json::Array(out))
}

/// The keys of a plan, in order.
pub open spec fn plan_keys() -> Seq<Seq<char>> {
    seq![
        "workspace"@,
        "config"@,
        "environment"@,
        "state_dir"@,
        "source"@,
        "workspace_folder"@,
        "user"@,
        "freshness"@,
        "cpus"@,
        "mem"@,
        "nested"@,
        "mounts"@,
        "container_env"@,
        "exec_env"@,
        "endpoints"@,
        "host_exec"@,
        "ssh_agent"@,
        "cache"@,
        "requires"@,
        "cached_only"@,
        "fallback_target"@,
        "tasks"@,
        "hooks"@,
        "vscode"@,
        "managed_dirs"@,
        "unresolved"@,
    ]
}

pub open spec fn plan_values(p: PlanView) -> Seq<JsonTree> {
    seq![
        path_json(p.workspace),
        path_json(p.config),
        text_json(p.environment),
        path_json(p.state_dir),
        source_json(p.source),
        opt_json(p.workspace_folder),
        opt_json(p.user),
        text_json(p.freshness.spelling()),
        cpus_json(p.cpus),
        opt_json(p.mem),
        nested_json(p.nested),
        mounts_json(p.mounts),
        env_json(p.container_env),
        env_json(p.exec_env),
        endpoints_json(p.endpoints),
        host_exec_json(p.host_exec),
        JsonTree::Bool(p.ssh_agent),
        cache_json(p.cache),
        requires_json(p.requires),
        JsonTree::Bool(p.cached_only),
        opt_json(p.fallback_target),
        tasks_json(p.tasks),
        hooks_json(p.hooks),
        vscode_json(p.vscode),
        paths_json(p.managed_dirs),
        texts_json(p.unresolved),
    ]
}

/// The plan as a JSON value.
pub open spec fn plan_json(p: PlanView) -> JsonTree {
    object(plan_keys(), plan_values(p))
}

/// Every path the plan's JSON spells is text.
pub open spec fn plan_paths_text(p: PlanView) -> bool {
    &&& valid_utf8(p.workspace)
    &&& valid_utf8(p.config)
    &&& valid_utf8(p.state_dir)
    &&& source_paths_text(p.source)
    &&& mounts_text(p.mounts)
    &&& wrapper_text(p.host_exec)
    &&& paths_text(p.managed_dirs)
}

/// The plan can be written as JSON: the members of its hook groups and the keys of its editor
/// settings are distinct.
pub open spec fn plan_sound(p: PlanView) -> bool {
    hooks_sound(p.hooks) && vscode_sound(p.vscode)
}

pub proof fn lemma_plan_keys()
    ensures
        all_distinct(plan_keys()),
{
    reveal_strlit("workspace");
    reveal_strlit("config");
    reveal_strlit("environment");
    reveal_strlit("state_dir");
    reveal_strlit("source");
    reveal_strlit("workspace_folder");
    reveal_strlit("user");
    reveal_strlit("freshness");
    reveal_strlit("cpus");
    reveal_strlit("mem");
    reveal_strlit("nested");
    reveal_strlit("mounts");
    reveal_strlit("container_env");
    reveal_strlit("exec_env");
    reveal_strlit("endpoints");
    reveal_strlit("host_exec");
    reveal_strlit("ssh_agent");
    reveal_strlit("cache");
    reveal_strlit("requires");
    reveal_strlit("cached_only");
    reveal_strlit("fallback_target");
    reveal_strlit("tasks");
    reveal_strlit("hooks");
    reveal_strlit("vscode");
    reveal_strlit("managed_dirs");
    reveal_strlit("unresolved");
    lemma_told_apart(plan_keys());
}

/// A plan that can be written as JSON has each key once.
pub proof fn lemma_plan_sound(p: PlanView)
    requires
        plan_sound(p),
    ensures
        json_sound(plan_json(p)),
{
    lemma_plan_keys();
    lemma_source_sound(p.source);
    lemma_mounts_sound(p.mounts);
    lemma_env_sound(p.container_env);
    lemma_env_sound(p.exec_env);
    lemma_endpoints_sound(p.endpoints);
    lemma_host_exec_sound(p.host_exec);
    lemma_cache_sound(p.cache, p.requires);
    lemma_tasks_sound(p.tasks);
    lemma_hooks_sound(p.hooks);
    lemma_vscode_sound(p.vscode);
    lemma_texts_sound(p.unresolved);
    lemma_array_sound(Seq::new(p.managed_dirs.len(), |i: int| path_json(p.managed_dirs[i])));
    let v = plan_values(p);
    assert forall|i: int| 0 <= i < v.len() implies json_sound(#[trigger] v[i]) by {}
    lemma_object_sound(plan_keys(), v);
}

impl Plan {
    /// The plan as a JSON value with these variables for its own, where every path in it is
    /// text.
    pub fn value_with(&self, container_env: &Vec<EnvVar>, exec_env: &Vec<EnvVar>) -> (r: Result<Json, Error>)
        ensures
            ({
                let p = PlanView {
                    container_env: container_env.deep_view(),
                    exec_env: exec_env.deep_view(),
                    ..self.deep_view()
                };
                match r {
                    Ok(j) => plan_paths_text(p) && j.deep_view() == plan_json(p),
                    Err(e) => !plan_paths_text(p) && e.deep_view() == path_error(),
                }
            }),
    {
        let ghost p = PlanView {
            container_env: container_env.deep_view(),
            exec_env: exec_env.deep_view(),
            ..self.deep_view()
        };
        let mut o: Vec<(String, Json)> = Vec::new();
        put(&mut o, ("workspace".to_owned(), path_value(&self.workspace)?));
        put(&mut o, ("config".to_owned(), path_value(&self.config)?));
        put(&mut o, ("environment".to_owned(), text_value(self.environment.as_str())));
        put(&mut o, ("state_dir".to_owned(), path_value(&self.state_dir)?));
        put(&mut o, ("source".to_owned(), source_value(&self.source)?));
        put(&mut o, ("workspace_folder".to_owned(), opt_value(&self.workspace_folder)));
        put(&mut o, ("user".to_owned(), opt_value(&self.user)));
        put(&mut o, ("freshness".to_owned(), text_value(self.freshness.as_str())));
        put(&mut o, ("cpus".to_owned(), cpus_value(self.cpus)));
        put(&mut o, ("mem".to_owned(), opt_value(&self.mem)));
        put(&mut o, ("nested".to_owned(), nested_value(self.nested)));
        put(&mut o, ("mounts".to_owned(), mounts_value(&self.mounts)?));
        put(&mut o, ("container_env".to_owned(), env_value(container_env)));
        put(&mut o, ("exec_env".to_owned(), env_value(exec_env)));
        put(&mut o, ("endpoints".to_owned(), endpoints_value(&self.endpoints)));
        put(&mut o, ("host_exec".to_owned(), host_exec_value(&self.host_exec)?));
        put(&mut o, ("ssh_agent".to_owned(), Json::Bool(self.ssh_agent)));
        put(&mut o, ("cache".to_owned(), cache_value(&self.cache)));
        put(&mut o, ("requires".to_owned(), requires_value(&self.requires)));
        put(&mut o, ("cached_only".to_owned(), Json::Bool(self.cached_only)));
        put(&mut o, ("fallback_target".to_owned(), opt_value(&self.fallback_target)));
        put(&mut o, ("tasks".to_owned(), tasks_value(&self.tasks)));
        put(&mut o, ("hooks".to_owned(), hooks_value(&self.hooks)));
        put(&mut o, ("vscode".to_owned(), vscode_value(&self.vscode)));
        put(&mut o, ("managed_dirs".to_owned(), paths_value(&self.managed_dirs)?));
        put(&mut o, ("unresolved".to_owned(), texts_value(&self.unresolved)));
        assert(o.deep_view() =~= plan_json(p)->Object_0);
        Ok(Json::Object(o))
    }

    /// The plan as a JSON value, where every path in it is text.
    pub fn to_value(&self) -> (r: Result<Json, Error>)
        ensures
            match r {
                Ok(j) => plan_paths_text(self.deep_view()) && j.deep_view() == plan_json(self.deep_view()),
                Err(e) => !plan_paths_text(self.deep_view()) && e.deep_view() == path_error(),
            },
    {
        self.value_with(&self.container_env, &self.exec_env)
    }

    /// Render the canonical JSON plan. Unless `reveal`, every environment value and build
    /// argument is redacted: literals in `local.toml` may contain tokens just as exported
    /// values do.
    pub fn to_json(&self, reveal: bool) -> (r: Result<String, Error>)
        requires
            plan_sound(self.deep_view()),
        ensures
            ({
                let p = if reveal {
                    self.deep_view()
                } else {
                    redacted(self.deep_view())
                };
                match r {
                    Ok(t) => plan_paths_text(p) && t@ == json_pretty_shown(plan_json(p)) + "\n"@,
                    Err(e) => !plan_paths_text(p) && e.deep_view() == "serializing the plan: "@ + path_error(),
                }
            }),
    {
        let shown = if reveal {
            self.to_value()
        } else {
            proof {
                lemma_redacted_sound(self.deep_view());
            }
            self.redact().to_value()
        };
        match shown {
            Ok(j) => {
                proof {
                    if reveal {
                        lemma_plan_sound(self.deep_view());
                    } else {
                        lemma_plan_sound(redacted(self.deep_view()));
                    }
                }
                Ok(cat2(json_pretty(&j).as_str(), "\n"))
            },
            Err(e) => Err(error(cat2("serializing the plan: ", e.message.as_str()))),
        }
    }
}

proof fn lemma_scrubbed_hook_sound(s: Seq<Seq<char>>, h: HookView)
    requires
        hook_sound(h),
    ensures
        hook_sound(crate::redact::scrubbed_hook(s, h)),
    decreases h,
{
    let r = crate::redact::scrubbed_hook(s, h);
    if let HookView::Group(g) = h {
        assert(h->Group_0 == g);
        let q = r->Group_0;
        assert forall|i: int, j: int| 0 <= i < j < q.len() implies (#[trigger] q[i]).0 != (#[trigger] q[j]).0 by {
            assert(g[i].0 != g[j].0);
        }
        assert forall|i: int| 0 <= i < q.len() implies hook_sound((#[trigger] q[i]).1) by {
            assert(decreases_to!(g => g[i]));
            assert(decreases_to!(g[i] => g[i].1));
            assert(decreases_to!(h => h->Group_0));
            assert(hook_sound(g[i].1));
            lemma_scrubbed_hook_sound(s, g[i].1);
        }
    }
}

proof fn lemma_scrubbed_opt_hook_sound(s: Seq<Seq<char>>, h: Option<HookView>)
    requires
        opt_hook_sound(h),
    ensures
        opt_hook_sound(crate::redact::scrubbed_opt_hook(s, h)),
{
    if let Some(x) = h {
        lemma_scrubbed_hook_sound(s, x);
    }
}

proof fn lemma_scrubbed_json_sound(s: Seq<Seq<char>>, v: JsonTree)
    requires
        json_sound(v),
    ensures
        json_sound(crate::redact::scrubbed_json(s, v)),
    decreases v,
{
    let r = crate::redact::scrubbed_json(s, v);
    match v {
        JsonTree::Array(a) => {
            assert(v->Array_0 == a);
            assert forall|i: int| 0 <= i < a.len() implies json_sound(#[trigger] r->Array_0[i]) by {
                assert(decreases_to!(a => a[i]));
                assert(decreases_to!(v => v->Array_0));
                assert(json_sound(v->Array_0[i]));
                lemma_scrubbed_json_sound(s, a[i]);
            }
        },
        JsonTree::Object(o) => {
            assert(v->Object_0 == o);
            let q = r->Object_0;
            assert forall|i: int, j: int| 0 <= i < j < q.len() implies (#[trigger] q[i]).0 != (#[trigger] q[j]).0 by {
                assert(o[i].0 != o[j].0);
            }
            assert forall|i: int| 0 <= i < q.len() implies json_sound((#[trigger] q[i]).1) by {
                assert(decreases_to!(o => o[i]));
                assert(decreases_to!(o[i] => o[i].1));
                assert(decreases_to!(v => v->Object_0));
                assert(json_sound(v->Object_0[i].1));
                lemma_scrubbed_json_sound(s, o[i].1);
            }
        },
        _ => {},
    }
}

proof fn lemma_redacted_sound(p: PlanView)
    requires
        plan_sound(p),
    ensures
        plan_sound(redacted(p)),
{
    let s = crate::redact::longest_first(p.secrets, p.secrets.len() as int);
    lemma_scrubbed_opt_hook_sound(s, p.hooks.init);
    lemma_scrubbed_opt_hook_sound(s, p.hooks.create);
    lemma_scrubbed_opt_hook_sound(s, p.hooks.start);
    if let Some(x) = p.vscode {
        lemma_scrubbed_opt_hook_sound(s, x.reconcile);
        lemma_scrubbed_json_sound(s, x.settings);
    }
}

} // verus!
