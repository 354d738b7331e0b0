//! A plan with what this host fed it taken out, safe to print and to record.

use crate::config::{Cache, Command, Requires};
use crate::names::byte_len;
use crate::path::{text_of_bytes, HostPath};
use crate::plan::{
    lemma_group, CommandView, EndpointPlan, EndpointView, EnvVar, EnvVarView, HookCommand, HookCommandView, HookPlan,
    HookView, HooksPlan, HooksView, HostExecPlan, HostExecView, MountPlan, MountView, Plan, PlanView, Source,
    SourceView, TaskPlan, TaskView, VsCodePlan, VsCodeView,
};
use crate::text::{contains, copy_list, copy_opt, occurs_at, put, replace, replaced, replaced_from};
use crate::value::{group_json, Json, JsonTree};
use vstd::prelude::*;
use vstd::utf8::encode_utf8;

verus! {

broadcast use {group_json, lemma_group};

/// What a printed plan says in place of a value it does not print. Fixed text: a length is
/// itself something about the value.
pub const REDACTED: &'static str = "<redacted: --show-secrets prints it>";

/// The text with the first `n` secrets replaced, one after the other.
pub open spec fn scrubbed_upto(secrets: Seq<Seq<char>>, text: Seq<char>, n: int) -> Seq<char>
    decreases n,
{
    if n <= 0 {
        text
    } else {
        replaced(scrubbed_upto(secrets, text, n - 1), secrets[n - 1], REDACTED@)
    }
}

/// The text with every secret replaced.
pub open spec fn scrubbed(secrets: Seq<Seq<char>>, text: Seq<char>) -> Seq<char> {
    scrubbed_upto(secrets, text, secrets.len() as int)
}

/// Every text with every secret replaced.
pub open spec fn scrubbed_all(secrets: Seq<Seq<char>>, texts: Seq<Seq<char>>) -> Seq<Seq<char>> {
    Seq::new(texts.len(), |i: int| scrubbed(secrets, texts[i]))
}

pub open spec fn scrubbed_opt(secrets: Seq<Seq<char>>, text: Option<Seq<char>>) -> Option<Seq<char>> {
    match text {
        Some(t) => Some(scrubbed(secrets, t)),
        None => None,
    }
}

/// The path with every secret replaced. One that is not text is left alone: rewriting it would
/// name a different file.
pub open spec fn scrubbed_path(secrets: Seq<Seq<char>>, path: Seq<u8>) -> Seq<u8> {
    match text_of_bytes(path) {
        Some(t) => encode_utf8(scrubbed(secrets, t)),
        None => path,
    }
}

/// The JSON value with every secret replaced in every text it holds.
pub open spec fn scrubbed_json(secrets: Seq<Seq<char>>, v: JsonTree) -> JsonTree
    decreases v,
{
    match v {
        JsonTree::Text(t) => JsonTree::Text(scrubbed(secrets, t)),
        JsonTree::Array(a) => JsonTree::Array(
            Seq::new(
                a.len(),
                |i: int|
                    if 0 <= i < a.len() {
                        scrubbed_json(secrets, a[i])
                    } else {
                        arbitrary()
                    },
            ),
        ),
        JsonTree::Object(o) => JsonTree::Object(
            Seq::new(
                o.len(),
                |i: int|
                    if 0 <= i < o.len() {
                        (o[i].0, scrubbed_json(secrets, o[i].1))
                    } else {
                        arbitrary()
                    },
            ),
        ),
        _ => v,
    }
}

pub open spec fn scrubbed_command(secrets: Seq<Seq<char>>, c: HookCommandView) -> HookCommandView {
    HookCommandView {
        run: match c.run {
            CommandView::Shell(l) => CommandView::Shell(scrubbed(secrets, l)),
            CommandView::Argv(a) => CommandView::Argv(scrubbed_all(secrets, a)),
        },
        cwd: scrubbed_opt(secrets, c.cwd),
        ..c
    }
}

/// The hook with every secret replaced in what it runs, and where.
pub open spec fn scrubbed_hook(secrets: Seq<Seq<char>>, h: HookView) -> HookView
    decreases h,
{
    match h {
        HookView::Command(c) => HookView::Command(scrubbed_command(secrets, c)),
        HookView::Group(g) => HookView::Group(
            Seq::new(
                g.len(),
                |i: int|
                    if 0 <= i < g.len() {
                        (g[i].0, scrubbed_hook(secrets, g[i].1))
                    } else {
                        arbitrary()
                    },
            ),
        ),
    }
}

pub open spec fn scrubbed_opt_hook(secrets: Seq<Seq<char>>, h: Option<HookView>) -> Option<HookView> {
    match h {
        Some(x) => Some(scrubbed_hook(secrets, x)),
        None => None,
    }
}

/// Replace every secret in `text` with [`REDACTED`].
pub fn scrub(secrets: &Vec<String>, text: &str) -> (r: String)
    ensures
        r@ == scrubbed(secrets.deep_view(), text@),
{
    let mut out = text.to_owned();
    let mut i: usize = 0;
    let ghost s = secrets.deep_view();
    while i < secrets.len()
        invariant
            i <= secrets@.len(),
            s == secrets.deep_view(),
            out@ == scrubbed_upto(s, text@, i as int),
        decreases secrets@.len() - i,
    {
        assert(s[i as int] == secrets@[i as int]@);
        out = replace(out.as_str(), secrets[i].as_str(), REDACTED);
        i = i + 1;
    }
    out
}

fn scrub_list(secrets: &Vec<String>, texts: &Vec<String>) -> (r: Vec<String>)
    ensures
        r.deep_view() == scrubbed_all(secrets.deep_view(), texts.deep_view()),
{
    let mut out: Vec<String> = Vec::new();
    let mut i: usize = 0;
    let ghost all = scrubbed_all(secrets.deep_view(), texts.deep_view());
    while i < texts.len()
        invariant
            i <= texts@.len(),
            all == scrubbed_all(secrets.deep_view(), texts.deep_view()),
            out.deep_view() == all.take(i as int),
        decreases texts@.len() - i,
    {
        assert(texts.deep_view()[i as int] == texts@[i as int]@);
        put(&mut out, scrub(secrets, texts[i].as_str()));
        assert(out.deep_view() =~= all.take(i + 1));
        i = i + 1;
    }
    assert(out.deep_view() =~= all);
    out
}

fn scrub_opt(secrets: &Vec<String>, text: &Option<String>) -> (r: Option<String>)
    ensures
        r.deep_view() == scrubbed_opt(secrets.deep_view(), text.deep_view()),
{
    match text {
        Some(t) => Some(scrub(secrets, t.as_str())),
        None => None,
    }
}

/// As [`scrub`], for a path.
pub fn scrub_path(secrets: &Vec<String>, path: &HostPath) -> (r: HostPath)
    ensures
        r.deep_view() == scrubbed_path(secrets.deep_view(), path.deep_view()),
{
    match path.to_str() {
        Some(t) => HostPath::from_text(scrub(secrets, t.as_str()).as_str()),
        None => path.copy(),
    }
}

/// As [`scrub`], through the editor settings a config supplies as free-form JSON.
pub fn scrub_json(secrets: &Vec<String>, v: &Json) -> (r: Json)
    ensures
        r.deep_view() == scrubbed_json(secrets.deep_view(), v.deep_view()),
    decreases v.deep_view(),
{
    let ghost s = secrets.deep_view();
    match v {
        Json::Text(t) => Json::Text(scrub(secrets, t.as_str())),
        Json::Array(a) => {
            let ghost d = a.deep_view();
            let ghost whole = v.deep_view();
            let ghost all = scrubbed_json(s, whole)->Array_0;
            let mut out: Vec<Json> = Vec::new();
            let mut i: usize = 0;
            while i < a.len()
                invariant
                    i <= a@.len(),
                    s == secrets.deep_view(),
                    d == a.deep_view(),
                    whole == v.deep_view(),
                    whole == JsonTree::Array(d),
                    scrubbed_json(s, whole) == JsonTree::Array(all),
                    out.deep_view() == all.take(i as int),
                decreases a@.len() - i,
            {
                assert(d[i as int] == a@[i as int].deep_view());
                assert(decreases_to!(d => d[i as int]));
                assert(decreases_to!(whole => whole->Array_0));
                put(&mut out, scrub_json(secrets, &a[i]));
                assert(out.deep_view() =~= all.take(i + 1));
                i = i + 1;
            }
            assert(out.deep_view() =~= all);
            Json::Array(out)
        },
        Json::Object(o) => {
            let ghost d = o.deep_view();
            let ghost whole = v.deep_view();
            let ghost all = scrubbed_json(s, whole)->Object_0;
            let mut out: Vec<(String, Json)> = Vec::new();
            let mut i: usize = 0;
            while i < o.len()
                invariant
                    i <= o@.len(),
                    s == secrets.deep_view(),
                    d == o.deep_view(),
                    whole == v.deep_view(),
                    whole == JsonTree::Object(d),
                    scrubbed_json(s, whole) == JsonTree::Object(all),
                    out.deep_view() == all.take(i as int),
                decreases o@.len() - i,
            {
                assert(d[i as int] == (o@[i as int].0@, o@[i as int].1.deep_view()));
                assert(decreases_to!(d => d[i as int]));
                assert(decreases_to!(d[i as int] => d[i as int].1));
                assert(decreases_to!(whole => whole->Object_0));
                put(&mut out, (o[i].0.clone(), scrub_json(secrets, &o[i].1)));
                assert(out.deep_view() =~= all.take(i + 1));
                i = i + 1;
            }
            assert(out.deep_view() =~= all);
            Json::Object(out)
        },
        Json::Null => Json::Null,
        Json::Bool(b) => Json::Bool(*b),
        Json::Number(n) => Json::Number(n.clone()),
    }
}

impl HookPlan {
    /// This hook with every secret replaced in what it runs, and where.
    pub fn scrub(&self, secrets: &Vec<String>) -> (r: HookPlan)
        ensures
            r.deep_view() == scrubbed_hook(secrets.deep_view(), self.deep_view()),
        decreases self.deep_view(),
    {
        let ghost s = secrets.deep_view();
        match self {
            HookPlan::Command(c) => HookPlan::Command(
                HookCommand {
                    run: match &c.run {
                        Command::Shell(l) => Command::Shell(scrub(secrets, l.as_str())),
                        Command::Argv(a) => Command::Argv(scrub_list(secrets, a)),
                    },
                    cwd: scrub_opt(secrets, &c.cwd),
                    timeout_secs: c.timeout_secs,
                    required: c.required,
                },
            ),
            HookPlan::Group(g) => {
                let ghost d = g.deep_view();
                let ghost whole = self.deep_view();
                let ghost all = scrubbed_hook(s, whole)->Group_0;
                let mut out: Vec<(String, HookPlan)> = Vec::new();
                let mut i: usize = 0;
                while i < g.len()
                    invariant
                        i <= g@.len(),
                        s == secrets.deep_view(),
                        d == g.deep_view(),
                        whole == self.deep_view(),
                        whole == HookView::Group(d),
                        scrubbed_hook(s, whole) == HookView::Group(all),
                        out.deep_view() == all.take(i as int),
                    decreases g@.len() - i,
                {
                    assert(d[i as int] == (g@[i as int].0@, g@[i as int].1.deep_view()));
                    assert(decreases_to!(d => d[i as int]));
                    assert(decreases_to!(d[i as int] => d[i as int].1));
                    assert(decreases_to!(whole => whole->Group_0));
                    put(&mut out, (g[i].0.clone(), g[i].1.scrub(secrets)));
                    assert(out.deep_view() =~= all.take(i + 1));
                    i = i + 1;
                }
                assert(out.deep_view() =~= all);
                HookPlan::Group(out)
            },
        }
    }
}

fn scrub_opt_hook(secrets: &Vec<String>, h: &Option<HookPlan>) -> (r: Option<HookPlan>)
    ensures
        r.deep_view() == scrubbed_opt_hook(secrets.deep_view(), h.deep_view()),
{
    match h {
        Some(x) => Some(x.scrub(secrets)),
        None => None,
    }
}

/// The first place from `from` on that holds a text shorter than `t`, or the length.
pub open spec fn shorter_from(v: Seq<Seq<char>>, t: Seq<char>, from: int) -> int
    decreases v.len() - from,
{
    if from < 0 || from >= v.len() {
        v.len() as int
    } else if byte_len(v[from]) < byte_len(t) {
        from
    } else {
        shorter_from(v, t, from + 1)
    }
}

/// The first `n` texts, longest first, those of one length in the order they came in: a secret
/// that contains another must not be replaced piecemeal.
pub open spec fn longest_first(v: Seq<Seq<char>>, n: int) -> Seq<Seq<char>>
    decreases n,
{
    if n <= 0 {
        Seq::empty()
    } else {
        let done = longest_first(v, n - 1);
        done.insert(shorter_from(done, v[n - 1], 0), v[n - 1])
    }
}

pub proof fn lemma_shorter_from(v: Seq<Seq<char>>, t: Seq<char>, from: int)
    requires
        0 <= from <= v.len(),
    ensures
        from <= shorter_from(v, t, from) <= v.len(),
    decreases v.len() - from,
{
    if from < v.len() && byte_len(v[from]) >= byte_len(t) {
        lemma_shorter_from(v, t, from + 1);
    }
}

proof fn lemma_longest_members(v: Seq<Seq<char>>, n: int, s: Seq<char>)
    requires
        0 <= n <= v.len(),
    ensures
        longest_first(v, n).len() == n,
        longest_first(v, n).contains(s) <==> v.take(n).contains(s),
    decreases n,
{
    if n > 0 {
        lemma_longest_members(v, n - 1, s);
        let done = longest_first(v, n - 1);
        let at = shorter_from(done, v[n - 1], 0);
        lemma_shorter_from(done, v[n - 1], 0);
        let now = longest_first(v, n);
        assert(v.take(n) =~= v.take(n - 1).push(v[n - 1]));
        if now.contains(s) {
            let i = choose|i: int| 0 <= i < now.len() && now[i] == s;
            if i < at {
                assert(done[i] == s);
            } else if i > at {
                assert(done[i - 1] == s);
            } else {
                assert(v.take(n)[n - 1] == s);
            }
            if done.contains(s) {
                let j = choose|j: int| 0 <= j < n - 1 && #[trigger] v.take(n - 1)[j] == s;
                assert(v.take(n)[j] == s);
            }
        }
        if v.take(n).contains(s) {
            let j = choose|j: int| 0 <= j < n && #[trigger] v.take(n)[j] == s;
            if j == n - 1 {
                assert(now[at] == s);
            } else {
                assert(v.take(n - 1)[j] == s);
                let i = choose|i: int| 0 <= i < done.len() && done[i] == s;
                if i < at {
                    assert(now[i] == s);
                } else {
                    assert(now[i + 1] == s);
                }
            }
        }
    } else {
        assert(v.take(0) =~= Seq::<Seq<char>>::empty());
    }
}

fn by_length(v: &Vec<String>) -> (r: Vec<String>)
    ensures
        r.deep_view() == longest_first(v.deep_view(), v@.len() as int),
{
    let mut out: Vec<String> = Vec::new();
    let mut i: usize = 0;
    let ghost s = v.deep_view();
    assert(out.deep_view() =~= longest_first(s, 0));
    while i < v.len()
        invariant
            i <= v@.len(),
            s == v.deep_view(),
            out.deep_view() == longest_first(s, i as int),
        decreases v@.len() - i,
    {
        let ghost done = out.deep_view();
        assert(s[i as int] == v@[i as int]@);
        let len: usize = v[i].as_str().as_bytes().len();
        let mut at: usize = 0;
        while at < out.len() && out[at].as_str().as_bytes().len() >= len
            invariant
                at <= out@.len(),
                done == out.deep_view(),
                i < v@.len(),
                s == v.deep_view(),
                len == byte_len(s[i as int]),
                shorter_from(done, s[i as int], at as int) == shorter_from(done, s[i as int], 0),
            decreases out@.len() - at,
        {
            assert(done[at as int] == out@[at as int]@);
            at = at + 1;
        }
        if at < out.len() {
            assert(done[at as int] == out@[at as int]@);
        }
        out.insert(at, v[i].clone());
        assert(out.deep_view() =~= done.insert(at as int, s[i as int]));
        i = i + 1;
    }
    out
}

/// Every variable with its value redacted.
pub open spec fn redacted_env(env: Seq<EnvVarView>) -> Seq<EnvVarView> {
    Seq::new(env.len(), |i: int| EnvVarView { value: REDACTED@, ..env[i] })
}

fn redact_env(env: &Vec<EnvVar>) -> (r: Vec<EnvVar>)
    ensures
        r.deep_view() == redacted_env(env.deep_view()),
{
    let mut out: Vec<EnvVar> = Vec::new();
    let mut i: usize = 0;
    let ghost all = redacted_env(env.deep_view());
    while i < env.len()
        invariant
            i <= env@.len(),
            all == redacted_env(env.deep_view()),
            out.deep_view() == all.take(i as int),
        decreases env@.len() - i,
    {
        assert(env.deep_view()[i as int] == env@[i as int].deep_view());
        put(
            &mut out,
            EnvVar { name: env[i].name.clone(), value: REDACTED.to_owned(), sensitive: env[i].sensitive },
        );
        assert(out.deep_view() =~= all.take(i + 1));
        i = i + 1;
    }
    assert(out.deep_view() =~= all);
    out
}

/// Every argument with its value redacted and its name scrubbed.
pub open spec fn redacted_args(secrets: Seq<Seq<char>>, args: Seq<(Seq<char>, Seq<char>)>) -> Seq<
    (Seq<char>, Seq<char>),
> {
    Seq::new(args.len(), |i: int| (scrubbed(secrets, args[i].0), REDACTED@))
}

fn redact_args(secrets: &Vec<String>, args: &Vec<(String, String)>) -> (r: Vec<(String, String)>)
    ensures
        r.deep_view() == redacted_args(secrets.deep_view(), args.deep_view()),
{
    let mut out: Vec<(String, String)> = Vec::new();
    let mut i: usize = 0;
    let ghost all = redacted_args(secrets.deep_view(), args.deep_view());
    while i < args.len()
        invariant
            i <= args@.len(),
            all == redacted_args(secrets.deep_view(), args.deep_view()),
            out.deep_view() == all.take(i as int),
        decreases args@.len() - i,
    {
        assert(args.deep_view()[i as int] == (args@[i as int].0@, args@[i as int].1@));
        put(&mut out, (scrub(secrets, args[i].0.as_str()), REDACTED.to_owned()));
        assert(out.deep_view() =~= all.take(i + 1));
        i = i + 1;
    }
    assert(out.deep_view() =~= all);
    out
}

pub open spec fn redacted_source(secrets: Seq<Seq<char>>, s: SourceView) -> SourceView {
    match s {
        SourceView::Compose { file, service, profiles } => SourceView::Compose {
            file,
            service: scrubbed(secrets, service),
            profiles: scrubbed_all(secrets, profiles),
        },
        SourceView::Image { reference } => SourceView::Image { reference: scrubbed(secrets, reference) },
        SourceView::Build { context, dockerfile, target, args } => SourceView::Build {
            context,
            dockerfile,
            target: scrubbed_opt(secrets, target),
            args: redacted_args(secrets, args),
        },
    }
}

fn redact_source(secrets: &Vec<String>, s: &Source) -> (r: Source)
    ensures
        r.deep_view() == redacted_source(secrets.deep_view(), s.deep_view()),
{
    match s {
        Source::Compose { file, service, profiles } => Source::Compose {
            file: file.copy(),
            service: scrub(secrets, service.as_str()),
            profiles: scrub_list(secrets, profiles),
        },
        Source::Image { reference } => Source::Image { reference: scrub(secrets, reference.as_str()) },
        Source::Build { context, dockerfile, target, args } => Source::Build {
            context: context.copy(),
            dockerfile: dockerfile.copy(),
            target: scrub_opt(secrets, target),
            args: redact_args(secrets, args),
        },
    }
}

pub open spec fn redacted_mount(secrets: Seq<Seq<char>>, m: MountView) -> MountView {
    MountView { source: scrubbed_path(secrets, m.source), to: scrubbed(secrets, m.to), ..m }
}

pub open spec fn redacted_mounts(secrets: Seq<Seq<char>>, v: Seq<MountView>) -> Seq<MountView> {
    Seq::new(v.len(), |i: int| redacted_mount(secrets, v[i]))
}

fn redact_mounts(secrets: &Vec<String>, v: &Vec<MountPlan>) -> (r: Vec<MountPlan>)
    ensures
        r.deep_view() == redacted_mounts(secrets.deep_view(), v.deep_view()),
{
    let mut out: Vec<MountPlan> = Vec::new();
    let mut i: usize = 0;
    let ghost all = redacted_mounts(secrets.deep_view(), v.deep_view());
    while i < v.len()
        invariant
            i <= v@.len(),
            all == redacted_mounts(secrets.deep_view(), v.deep_view()),
            out.deep_view() == all.take(i as int),
        decreases v@.len() - i,
    {
        let m = &v[i];
        assert(v.deep_view()[i as int] == m.deep_view());
        put(
            &mut out,
            MountPlan {
                name: m.name.clone(),
                source: scrub_path(secrets, &m.source),
                to: scrub(secrets, m.to.as_str()),
                read_only: m.read_only,
                optional: m.optional,
            },
        );
        assert(out.deep_view() =~= all.take(i + 1));
        i = i + 1;
    }
    assert(out.deep_view() =~= all);
    out
}

pub open spec fn redacted_endpoint(secrets: Seq<Seq<char>>, e: EndpointView) -> EndpointView {
    EndpointView {
        service: scrubbed_opt(secrets, e.service),
        address: scrubbed(secrets, e.address),
        listen: scrubbed(secrets, e.listen),
        to: scrubbed(secrets, e.to),
        scheme: scrubbed_opt(secrets, e.scheme),
        path: scrubbed_opt(secrets, e.path),
        ..e
    }
}

pub open spec fn redacted_endpoints(secrets: Seq<Seq<char>>, v: Seq<EndpointView>) -> Seq<EndpointView> {
    Seq::new(v.len(), |i: int| redacted_endpoint(secrets, v[i]))
}

fn redact_endpoints(secrets: &Vec<String>, v: &Vec<EndpointPlan>) -> (r: Vec<EndpointPlan>)
    ensures
        r.deep_view() == redacted_endpoints(secrets.deep_view(), v.deep_view()),
{
    let mut out: Vec<EndpointPlan> = Vec::new();
    let mut i: usize = 0;
    let ghost all = redacted_endpoints(secrets.deep_view(), v.deep_view());
    while i < v.len()
        invariant
            i <= v@.len(),
            all == redacted_endpoints(secrets.deep_view(), v.deep_view()),
            out.deep_view() == all.take(i as int),
        decreases v@.len() - i,
    {
        let e = &v[i];
        assert(v.deep_view()[i as int] == e.deep_view());
        put(
            &mut out,
            EndpointPlan {
                name: e.name.clone(),
                service: scrub_opt(secrets, &e.service),
                host_port: e.host_port,
                address: scrub(secrets, e.address.as_str()),
                listen: scrub(secrets, e.listen.as_str()),
                to: scrub(secrets, e.to.as_str()),
                scheme: scrub_opt(secrets, &e.scheme),
                path: scrub_opt(secrets, &e.path),
                required: e.required,
            },
        );
        assert(out.deep_view() =~= all.take(i + 1));
        i = i + 1;
    }
    assert(out.deep_view() =~= all);
    out
}

pub open spec fn redacted_task(secrets: Seq<Seq<char>>, t: TaskView) -> TaskView {
    TaskView {
        argv: scrubbed_all(secrets, t.argv),
        environment: scrubbed(secrets, t.environment),
        reuse: scrubbed(secrets, t.reuse),
        env: redacted_env(t.env),
        ..t
    }
}

pub open spec fn redacted_tasks(secrets: Seq<Seq<char>>, v: Seq<TaskView>) -> Seq<TaskView> {
    Seq::new(v.len(), |i: int| redacted_task(secrets, v[i]))
}

fn redact_tasks(secrets: &Vec<String>, v: &Vec<TaskPlan>) -> (r: Vec<TaskPlan>)
    ensures
        r.deep_view() == redacted_tasks(secrets.deep_view(), v.deep_view()),
{
    let mut out: Vec<TaskPlan> = Vec::new();
    let mut i: usize = 0;
    let ghost all = redacted_tasks(secrets.deep_view(), v.deep_view());
    while i < v.len()
        invariant
            i <= v@.len(),
            all == redacted_tasks(secrets.deep_view(), v.deep_view()),
            out.deep_view() == all.take(i as int),
        decreases v@.len() - i,
    {
        let t = &v[i];
        assert(v.deep_view()[i as int] == t.deep_view());
        put(
            &mut out,
            TaskPlan {
                name: t.name.clone(),
                argv: scrub_list(secrets, &t.argv),
                environment: scrub(secrets, t.environment.as_str()),
                reuse: scrub(secrets, t.reuse.as_str()),
                policy: t.policy,
                checkout: t.checkout,
                env: redact_env(&t.env),
            },
        );
        assert(out.deep_view() =~= all.take(i + 1));
        i = i + 1;
    }
    assert(out.deep_view() =~= all);
    out
}

pub open spec fn redacted_host_exec(secrets: Seq<Seq<char>>, h: Option<HostExecView>) -> Option<HostExecView> {
    match h {
        Some(x) => Some(
            HostExecView { wrapper: scrubbed_path(secrets, x.wrapper), env: scrubbed_all(secrets, x.env), ..x },
        ),
        None => None,
    }
}

pub open spec fn redacted_vscode(secrets: Seq<Seq<char>>, v: Option<VsCodeView>) -> Option<VsCodeView> {
    match v {
        Some(x) => Some(
            VsCodeView {
                persistent: x.persistent,
                home: scrubbed(secrets, x.home),
                reconcile: scrubbed_opt_hook(secrets, x.reconcile),
                extensions: scrubbed_all(secrets, x.extensions),
                settings: scrubbed_json(secrets, x.settings),
            },
        ),
        None => None,
    }
}

pub open spec fn redacted_paths(secrets: Seq<Seq<char>>, v: Seq<Seq<u8>>) -> Seq<Seq<u8>> {
    Seq::new(v.len(), |i: int| scrubbed_path(secrets, v[i]))
}

fn redact_paths(secrets: &Vec<String>, v: &Vec<HostPath>) -> (r: Vec<HostPath>)
    ensures
        r.deep_view() == redacted_paths(secrets.deep_view(), v.deep_view()),
{
    let mut out: Vec<HostPath> = Vec::new();
    let mut i: usize = 0;
    let ghost all = redacted_paths(secrets.deep_view(), v.deep_view());
    while i < v.len()
        invariant
            i <= v@.len(),
            all == redacted_paths(secrets.deep_view(), v.deep_view()),
            out.deep_view() == all.take(i as int),
        decreases v@.len() - i,
    {
        assert(v.deep_view()[i as int] == v@[i as int].deep_view());
        put(&mut out, scrub_path(secrets, &v[i]));
        assert(out.deep_view() =~= all.take(i + 1));
        i = i + 1;
    }
    assert(out.deep_view() =~= all);
    out
}

/// The plan with every value it hands to a command or an image redacted, and what this host
/// fed the config replaced wherever else it expanded: a `${localEnv:…}` expands into a mount
/// source or a guest path as readily as into an environment value.
pub open spec fn redacted(p: PlanView) -> PlanView {
    let s = longest_first(p.secrets, p.secrets.len() as int);
    PlanView {
        source: redacted_source(s, p.source),
        workspace_folder: scrubbed_opt(s, p.workspace_folder),
        user: scrubbed_opt(s, p.user),
        mounts: redacted_mounts(s, p.mounts),
        container_env: redacted_env(p.container_env),
        exec_env: redacted_env(p.exec_env),
        endpoints: redacted_endpoints(s, p.endpoints),
        host_exec: redacted_host_exec(s, p.host_exec),
        tasks: redacted_tasks(s, p.tasks),
        hooks: HooksView {
            init: scrubbed_opt_hook(s, p.hooks.init),
            create: scrubbed_opt_hook(s, p.hooks.create),
            start: scrubbed_opt_hook(s, p.hooks.start),
        },
        vscode: redacted_vscode(s, p.vscode),
        managed_dirs: redacted_paths(s, p.managed_dirs),
        ..p
    }
}

impl Plan {
    /// This plan with every value a config hands to a command or an image replaced with
    /// [`REDACTED`], and what this host fed the config scrubbed out of every other string.
    pub fn redact(&self) -> (r: Plan)
        ensures
            r.deep_view() == redacted(self.deep_view()),
    {
        assert(self.secrets@.len() == self.secrets.deep_view().len());
        let s = by_length(&self.secrets);
        let host_exec = match &self.host_exec {
            Some(h) => Some(
                HostExecPlan {
                    wrapper: scrub_path(&s, &h.wrapper),
                    builtin: copy_opt(&h.builtin),
                    env: scrub_list(&s, &h.env),
                },
            ),
            None => None,
        };
        let vscode = match &self.vscode {
            Some(v) => Some(
                VsCodePlan {
                    persistent: v.persistent,
                    home: scrub(&s, v.home.as_str()),
                    reconcile: scrub_opt_hook(&s, &v.reconcile),
                    extensions: scrub_list(&s, &v.extensions),
                    settings: scrub_json(&s, &v.settings),
                },
            ),
            None => None,
        };
        Plan {
            workspace: self.workspace.copy(),
            config: self.config.copy(),
            environment: self.environment.clone(),
            state_dir: self.state_dir.copy(),
            source: redact_source(&s, &self.source),
            workspace_folder: scrub_opt(&s, &self.workspace_folder),
            user: scrub_opt(&s, &self.user),
            freshness: self.freshness,
            cpus: self.cpus,
            mem: copy_opt(&self.mem),
            nested: self.nested,
            mounts: redact_mounts(&s, &self.mounts),
            container_env: redact_env(&self.container_env),
            exec_env: redact_env(&self.exec_env),
            endpoints: redact_endpoints(&s, &self.endpoints),
            host_exec,
            ssh_agent: self.ssh_agent,
            cache: Cache { registry: copy_opt(&self.cache.registry), insecure: self.cache.insecure },
            requires: Requires {
                min_version: copy_opt(&self.requires.min_version),
                features: copy_list(&self.requires.features),
            },
            cached_only: self.cached_only,
            fallback_target: copy_opt(&self.fallback_target),
            tasks: redact_tasks(&s, &self.tasks),
            hooks: HooksPlan {
                init: scrub_opt_hook(&s, &self.hooks.init),
                create: scrub_opt_hook(&s, &self.hooks.create),
                start: scrub_opt_hook(&s, &self.hooks.start),
            },
            vscode,
            managed_dirs: redact_paths(&s, &self.managed_dirs),
            unresolved: copy_list(&self.unresolved),
            secrets: copy_list(&self.secrets),
        }
    }
}

/// The two texts share no edge and neither holds the other, so that no occurrence of one can
/// come about where the other is put.
pub open spec fn apart(m: Seq<char>, r: Seq<char>) -> bool {
    &&& m.len() > 0
    &&& !contains(r, m)
    &&& !contains(m, r)
    &&& forall|k: int| 0 < k <= m.len() && k <= r.len() ==> #[trigger] m.take(k) != r.skip(r.len() - k)
    &&& forall|k: int| 0 < k <= m.len() && k <= r.len() ==> #[trigger] m.skip(m.len() - k) != r.take(k)
}

/// A text that begins what is left after replacing, and ends one that shares no edge with the
/// replacement, stands in the text it was made from.
proof fn lemma_kept_prefix(h: Seq<char>, n: Seq<char>, r: Seq<char>, i: int, m: Seq<char>, w: Seq<char>)
    requires
        0 <= i <= h.len(),
        n.len() > 0,
        apart(m, r),
        0 < w.len() <= m.len(),
        w == m.skip(m.len() - w.len()),
        w.len() <= replaced_from(h, n, r, i).len(),
        replaced_from(h, n, r, i).take(w.len() as int) == w,
    ensures
        i + w.len() <= h.len(),
        h.subrange(i, i + w.len()) == w,
    decreases w.len(),
{
    let out = replaced_from(h, n, r, i);
    if i >= h.len() {
        assert(out.len() == 0);
    } else if occurs_at(h, n, i) {
        let rest = replaced_from(h, n, r, i + n.len());
        assert(out == r + rest);
        if w.len() <= r.len() {
            let k = w.len() as int;
            assert(r.take(k) =~= out.take(k));
            assert(m.skip(m.len() - k) == r.take(k));
        } else {
            let at = m.len() - w.len();
            assert(m.subrange(at, at + r.len()) =~= r) by {
                assert forall|j: int| 0 <= j < r.len() implies m[at + j] == r[j] by {
                    assert(w[j] == m[at + j]);
                    assert(out.take(w.len() as int)[j] == out[j]);
                    assert(out[j] == r[j]);
                }
            }
            assert(occurs_at(m, r, at));
        }
    } else {
        let rest = replaced_from(h, n, r, i + 1);
        assert(out == seq![h[i]] + rest);
        assert(out.take(w.len() as int)[0] == h[i]);
        if w.len() > 1 {
            let v = w.drop_first();
            assert(v =~= m.skip(m.len() - v.len()));
            assert(rest.take(v.len() as int) =~= v) by {
                assert forall|j: int| 0 <= j < v.len() implies rest[j] == v[j] by {
                    assert(out[j + 1] == rest[j]);
                    assert(out.take(w.len() as int)[j + 1] == w[j + 1]);
                }
            }
            lemma_kept_prefix(h, n, r, i + 1, m, v);
            assert(h.subrange(i, i + w.len()) =~= seq![h[i]] + h.subrange(i + 1, i + 1 + v.len()));
            assert(w =~= seq![w[0]] + v);
        } else {
            assert(h.subrange(i, i + 1) =~= w);
        }
    }
}

/// Whatever shares no edge with the replacement and stands in the text afterwards stood there
/// before, at a place that was not replaced.
proof fn lemma_kept(h: Seq<char>, n: Seq<char>, r: Seq<char>, i: int, m: Seq<char>, p: int) -> (j: int)
    requires
        0 <= i <= h.len(),
        n.len() > 0,
        apart(m, r),
        occurs_at(replaced_from(h, n, r, i), m, p),
    ensures
        occurs_at(h, m, j),
        !occurs_at(h, n, j),
    decreases h.len() - i,
{
    let out = replaced_from(h, n, r, i);
    if i >= h.len() {
        assert(out.len() == 0);
        0
    } else if occurs_at(h, n, i) {
        let rest = replaced_from(h, n, r, i + n.len());
        assert(out == r + rest);
        if p >= r.len() {
            let q = p - r.len();
            assert(rest.subrange(q, q + m.len()) =~= out.subrange(p, p + m.len()));
            lemma_kept(h, n, r, i + n.len(), m, q)
        } else {
            if p + m.len() <= r.len() {
                assert(r.subrange(p, p + m.len()) =~= out.subrange(p, p + m.len()));
                assert(occurs_at(r, m, p));
            } else {
                let k = r.len() - p;
                assert(m.take(k) =~= r.skip(r.len() - k)) by {
                    assert forall|j: int| 0 <= j < k implies m[j] == r[p + j] by {
                        assert(out.subrange(p, p + m.len())[j] == out[p + j]);
                    }
                }
            }
            0
        }
    } else {
        let rest = replaced_from(h, n, r, i + 1);
        assert(out == seq![h[i]] + rest);
        if p > 0 {
            assert(rest.subrange(p - 1, p - 1 + m.len()) =~= out.subrange(p, p + m.len()));
            lemma_kept(h, n, r, i + 1, m, p - 1)
        } else {
            assert(m.skip(0) =~= m);
            assert(out.take(m.len() as int) =~= out.subrange(0, m.len() as int));
            lemma_kept_prefix(h, n, r, i, m, m);
            i
        }
    }
}

proof fn lemma_replace_keeps_free(h: Seq<char>, n: Seq<char>, r: Seq<char>, m: Seq<char>)
    requires
        n.len() > 0,
        apart(m, r),
        !contains(h, m) || m == n,
    ensures
        !contains(replaced(h, n, r), m),
{
    if contains(replaced(h, n, r), m) {
        let p = choose|p: int| occurs_at(replaced(h, n, r), m, p);
        let j = lemma_kept(h, n, r, 0, m, p);
        assert(contains(h, m));
    }
}

proof fn lemma_scrub_free(secrets: Seq<Seq<char>>, text: Seq<char>, n: int, i: int)
    requires
        0 <= i < n <= secrets.len(),
        forall|j: int| 0 <= j < secrets.len() ==> apart(#[trigger] secrets[j], REDACTED@),
    ensures
        !contains(scrubbed_upto(secrets, text, n), secrets[i]),
    decreases n,
{
    assert(apart(secrets[n - 1], REDACTED@));
    assert(apart(secrets[i], REDACTED@));
    let before = scrubbed_upto(secrets, text, n - 1);
    if i < n - 1 {
        lemma_scrub_free(secrets, text, n - 1, i);
    }
    lemma_replace_keeps_free(before, secrets[n - 1], REDACTED@, secrets[i]);
}

/// A scrubbed text holds none of the secrets. This is of secrets that share no edge with what
/// stands in for them: one that does can come about again where the replacement is put.
pub proof fn law_scrubbed_holds_no_secret(secrets: Seq<Seq<char>>, text: Seq<char>, s: Seq<char>)
    requires
        secrets.contains(s),
        forall|j: int| 0 <= j < secrets.len() ==> apart(#[trigger] secrets[j], REDACTED@),
    ensures
        !contains(scrubbed(secrets, text), s),
{
    let i = choose|i: int| 0 <= i < secrets.len() && secrets[i] == s;
    lemma_scrub_free(secrets, text, secrets.len() as int, i);
}

pub open spec fn opt_free(t: Option<Seq<char>>, s: Seq<char>) -> bool {
    t matches Some(x) ==> !contains(x, s)
}

pub open spec fn all_free(v: Seq<Seq<char>>, s: Seq<char>) -> bool {
    forall|i: int| 0 <= i < v.len() ==> !contains(#[trigger] v[i], s)
}

pub open spec fn path_free(b: Seq<u8>, s: Seq<char>) -> bool {
    opt_free(text_of_bytes(b), s)
}

pub open spec fn env_free(v: Seq<EnvVarView>, s: Seq<char>) -> bool {
    forall|i: int| 0 <= i < v.len() ==> !contains((#[trigger] v[i]).value, s)
}

pub open spec fn json_free(v: JsonTree, s: Seq<char>) -> bool
    decreases v,
{
    match v {
        JsonTree::Text(t) => !contains(t, s),
        JsonTree::Array(a) => forall|i: int| 0 <= i < a.len() ==> json_free(#[trigger] a[i], s),
        JsonTree::Object(o) => forall|i: int| 0 <= i < o.len() ==> json_free((#[trigger] o[i]).1, s),
        _ => true,
    }
}

pub open spec fn command_free(c: HookCommandView, s: Seq<char>) -> bool {
    &&& opt_free(c.cwd, s)
    &&& match c.run {
        CommandView::Shell(l) => !contains(l, s),
        CommandView::Argv(a) => all_free(a, s),
    }
}

pub open spec fn hook_free(h: HookView, s: Seq<char>) -> bool
    decreases h,
{
    match h {
        HookView::Command(c) => command_free(c, s),
        HookView::Group(g) => forall|i: int| 0 <= i < g.len() ==> hook_free((#[trigger] g[i]).1, s),
    }
}

pub open spec fn opt_hook_free(h: Option<HookView>, s: Seq<char>) -> bool {
    h matches Some(x) ==> hook_free(x, s)
}

pub open spec fn source_free(p: SourceView, s: Seq<char>) -> bool {
    match p {
        SourceView::Compose { service, profiles, .. } => !contains(service, s) && all_free(profiles, s),
        SourceView::Image { reference } => !contains(reference, s),
        SourceView::Build { target, args, .. } => {
            &&& opt_free(target, s)
            &&& forall|i: int|
                0 <= i < args.len() ==> !contains((#[trigger] args[i]).0, s) && !contains(args[i].1, s)
        },
    }
}

pub open spec fn endpoint_free(e: EndpointView, s: Seq<char>) -> bool {
    opt_free(e.service, s) && !contains(e.address, s) && !contains(e.listen, s) && !contains(e.to, s) && opt_free(
        e.scheme,
        s,
    ) && opt_free(e.path, s)
}

pub open spec fn task_free(t: TaskView, s: Seq<char>) -> bool {
    all_free(t.argv, s) && !contains(t.environment, s) && !contains(t.reuse, s) && env_free(t.env, s)
}

pub open spec fn vscode_free(v: Option<VsCodeView>, s: Seq<char>) -> bool {
    v matches Some(x) ==> !contains(x.home, s) && opt_hook_free(x.reconcile, s) && all_free(x.extensions, s)
        && json_free(x.settings, s)
}

/// Nothing a config hands on or a variable can expand into spells the text out: no environment
/// value, build argument, mount, endpoint, wrapper, task, hook, editor setting or managed
/// directory.
pub open spec fn plan_free(p: PlanView, s: Seq<char>) -> bool {
    &&& source_free(p.source, s)
    &&& opt_free(p.workspace_folder, s)
    &&& opt_free(p.user, s)
    &&& forall|i: int|
        0 <= i < p.mounts.len() ==> path_free((#[trigger] p.mounts[i]).source, s) && !contains(p.mounts[i].to, s)
    &&& env_free(p.container_env, s)
    &&& env_free(p.exec_env, s)
    &&& forall|i: int| 0 <= i < p.endpoints.len() ==> endpoint_free(#[trigger] p.endpoints[i], s)
    &&& p.host_exec matches Some(h) ==> path_free(h.wrapper, s) && all_free(h.env, s)
    &&& forall|i: int| 0 <= i < p.tasks.len() ==> task_free(#[trigger] p.tasks[i], s)
    &&& opt_hook_free(p.hooks.init, s)
    &&& opt_hook_free(p.hooks.create, s)
    &&& opt_hook_free(p.hooks.start, s)
    &&& vscode_free(p.vscode, s)
    &&& forall|i: int| 0 <= i < p.managed_dirs.len() ==> path_free(#[trigger] p.managed_dirs[i], s)
}

/// None of the secrets shares an edge with what stands in for them.
pub open spec fn all_apart(secrets: Seq<Seq<char>>) -> bool {
    forall|j: int| 0 <= j < secrets.len() ==> apart(#[trigger] secrets[j], REDACTED@)
}

proof fn lemma_text_free(v: Seq<Seq<char>>, t: Seq<char>, s: Seq<char>)
    requires
        v.contains(s),
        all_apart(v),
    ensures
        !contains(scrubbed(v, t), s),
{
    law_scrubbed_holds_no_secret(v, t, s);
}

proof fn lemma_opt_free(v: Seq<Seq<char>>, t: Option<Seq<char>>, s: Seq<char>)
    requires
        v.contains(s),
        all_apart(v),
    ensures
        opt_free(scrubbed_opt(v, t), s),
{
    if let Some(x) = t {
        lemma_text_free(v, x, s);
    }
}

proof fn lemma_all_free(v: Seq<Seq<char>>, t: Seq<Seq<char>>, s: Seq<char>)
    requires
        v.contains(s),
        all_apart(v),
    ensures
        all_free(scrubbed_all(v, t), s),
{
    let r = scrubbed_all(v, t);
    assert forall|i: int| 0 <= i < r.len() implies !contains(#[trigger] r[i], s) by {
        lemma_text_free(v, t[i], s);
    }
}

proof fn lemma_path_free(v: Seq<Seq<char>>, b: Seq<u8>, s: Seq<char>)
    requires
        v.contains(s),
        all_apart(v),
    ensures
        path_free(scrubbed_path(v, b), s),
{
    if let Some(t) = text_of_bytes(b) {
        lemma_text_free(v, t, s);
        vstd::utf8::encode_utf8_valid_utf8(scrubbed(v, t));
        vstd::utf8::encode_utf8_decode_utf8(scrubbed(v, t));
    }
}

proof fn lemma_env_free(v: Seq<Seq<char>>, env: Seq<EnvVarView>, s: Seq<char>)
    requires
        v.contains(s),
        all_apart(v),
    ensures
        env_free(redacted_env(env), s),
{
    let j = choose|j: int| 0 <= j < v.len() && v[j] == s;
    assert(apart(v[j], REDACTED@));
}

proof fn lemma_json_free(v: Seq<Seq<char>>, t: JsonTree, s: Seq<char>)
    requires
        v.contains(s),
        all_apart(v),
    ensures
        json_free(scrubbed_json(v, t), s),
    decreases t,
{
    let r = scrubbed_json(v, t);
    match t {
        JsonTree::Text(x) => lemma_text_free(v, x, s),
        JsonTree::Array(a) => {
            assert forall|i: int| 0 <= i < a.len() implies json_free(#[trigger] r->Array_0[i], s) by {
                assert(decreases_to!(a => a[i]));
                assert(decreases_to!(t => t->Array_0));
                lemma_json_free(v, a[i], s);
                assert(r->Array_0[i] == scrubbed_json(v, a[i]));
            }
        },
        JsonTree::Object(o) => {
            assert forall|i: int| 0 <= i < o.len() implies json_free((#[trigger] r->Object_0[i]).1, s) by {
                assert(decreases_to!(o => o[i]));
                assert(decreases_to!(o[i] => o[i].1));
                assert(decreases_to!(t => t->Object_0));
                lemma_json_free(v, o[i].1, s);
                assert(r->Object_0[i] == (o[i].0, scrubbed_json(v, o[i].1)));
            }
        },
        _ => {},
    }
}

proof fn lemma_hook_free(v: Seq<Seq<char>>, h: HookView, s: Seq<char>)
    requires
        v.contains(s),
        all_apart(v),
    ensures
        hook_free(scrubbed_hook(v, h), s),
    decreases h,
{
    let r = scrubbed_hook(v, h);
    match h {
        HookView::Command(c) => {
            lemma_opt_free(v, c.cwd, s);
            match c.run {
                CommandView::Shell(l) => lemma_text_free(v, l, s),
                CommandView::Argv(a) => lemma_all_free(v, a, s),
            }
        },
        HookView::Group(g) => {
            assert forall|i: int| 0 <= i < g.len() implies hook_free((#[trigger] r->Group_0[i]).1, s) by {
                assert(decreases_to!(g => g[i]));
                assert(decreases_to!(g[i] => g[i].1));
                assert(decreases_to!(h => h->Group_0));
                lemma_hook_free(v, g[i].1, s);
                assert(r->Group_0[i] == (g[i].0, scrubbed_hook(v, g[i].1)));
            }
        },
    }
}

proof fn lemma_opt_hook_free(v: Seq<Seq<char>>, h: Option<HookView>, s: Seq<char>)
    requires
        v.contains(s),
        all_apart(v),
    ensures
        opt_hook_free(scrubbed_opt_hook(v, h), s),
{
    if let Some(x) = h {
        lemma_hook_free(v, x, s);
    }
}

proof fn lemma_source_free(v: Seq<Seq<char>>, p: SourceView, s: Seq<char>)
    requires
        v.contains(s),
        all_apart(v),
    ensures
        source_free(redacted_source(v, p), s),
{
    match p {
        SourceView::Compose { service, profiles, .. } => {
            lemma_text_free(v, service, s);
            lemma_all_free(v, profiles, s);
        },
        SourceView::Image { reference } => lemma_text_free(v, reference, s),
        SourceView::Build { target, args, .. } => {
            lemma_opt_free(v, target, s);
            let j = choose|j: int| 0 <= j < v.len() && v[j] == s;
            assert(apart(v[j], REDACTED@));
            let r = redacted_args(v, args);
            assert forall|i: int| 0 <= i < r.len() implies !contains((#[trigger] r[i]).0, s) && !contains(r[i].1, s) by {
                lemma_text_free(v, args[i].0, s);
            }
        },
    }
}

/// A redacted plan spells out nothing this host fed the config, wherever a variable can expand:
/// for every secret that shares no edge with what stands in for it.
pub proof fn law_redacted_plan_holds_no_secret(p: PlanView, s: Seq<char>)
    requires
        p.secrets.contains(s),
        all_apart(p.secrets),
    ensures
        plan_free(redacted(p), s),
{
    let n = p.secrets.len() as int;
    let v = longest_first(p.secrets, n);
    lemma_longest_members(p.secrets, n, s);
    assert(p.secrets.take(n) =~= p.secrets);
    assert(all_apart(v)) by {
        assert forall|j: int| 0 <= j < v.len() implies apart(#[trigger] v[j], REDACTED@) by {
            lemma_longest_members(p.secrets, n, v[j]);
            assert(v.contains(v[j]));
            let k = choose|k: int| 0 <= k < p.secrets.len() && p.secrets[k] == v[j];
            assert(apart(p.secrets[k], REDACTED@));
        }
    }
    let r = redacted(p);
    lemma_source_free(v, p.source, s);
    lemma_opt_free(v, p.workspace_folder, s);
    lemma_opt_free(v, p.user, s);
    assert forall|i: int| 0 <= i < r.mounts.len() implies path_free((#[trigger] r.mounts[i]).source, s) && !contains(
        r.mounts[i].to,
        s,
    ) by {
        lemma_path_free(v, p.mounts[i].source, s);
        lemma_text_free(v, p.mounts[i].to, s);
    }
    lemma_env_free(v, p.container_env, s);
    lemma_env_free(v, p.exec_env, s);
    assert forall|i: int| 0 <= i < r.endpoints.len() implies endpoint_free(#[trigger] r.endpoints[i], s) by {
        let e = p.endpoints[i];
        lemma_opt_free(v, e.service, s);
        lemma_text_free(v, e.address, s);
        lemma_text_free(v, e.listen, s);
        lemma_text_free(v, e.to, s);
        lemma_opt_free(v, e.scheme, s);
        lemma_opt_free(v, e.path, s);
    }
    if let Some(h) = p.host_exec {
        lemma_path_free(v, h.wrapper, s);
        lemma_all_free(v, h.env, s);
    }
    assert forall|i: int| 0 <= i < r.tasks.len() implies task_free(#[trigger] r.tasks[i], s) by {
        let t = p.tasks[i];
        lemma_all_free(v, t.argv, s);
        lemma_text_free(v, t.environment, s);
        lemma_text_free(v, t.reuse, s);
        lemma_env_free(v, t.env, s);
    }
    lemma_opt_hook_free(v, p.hooks.init, s);
    lemma_opt_hook_free(v, p.hooks.create, s);
    lemma_opt_hook_free(v, p.hooks.start, s);
    if let Some(x) = p.vscode {
        lemma_text_free(v, x.home, s);
        lemma_opt_hook_free(v, x.reconcile, s);
        lemma_all_free(v, x.extensions, s);
        lemma_json_free(v, x.settings, s);
    }
    assert forall|i: int| 0 <= i < r.managed_dirs.len() implies path_free(#[trigger] r.managed_dirs[i], s) by {
        lemma_path_free(v, p.managed_dirs[i], s);
    }
}

/// Every environment value and build argument of a redacted plan is the fixed text, a literal
/// written into the config as much as one this host fed.
pub proof fn law_redacted_values(p: PlanView)
    ensures
        forall|i: int|
            0 <= i < redacted(p).container_env.len() ==> (#[trigger] redacted(p).container_env[i]).value == REDACTED@,
        forall|i: int|
            0 <= i < redacted(p).exec_env.len() ==> (#[trigger] redacted(p).exec_env[i]).value == REDACTED@,
        forall|t: int, i: int|
            0 <= t < redacted(p).tasks.len() && 0 <= i < redacted(p).tasks[t].env.len()
                ==> (#[trigger] redacted(p).tasks[t].env[i]).value == REDACTED@,
        redacted(p).source matches SourceView::Build { args, .. } ==> forall|i: int|
            0 <= i < args.len() ==> (#[trigger] args[i]).1 == REDACTED@,
{
}

} // verus!
