//! The plan as the `vk run` it stands for, for reading.

use crate::draft::comment_lines;
use crate::path::{lossy_text, text_of_bytes, HostPath};
use crate::plan::{
    hook_said, mount_spec, nests, show_words, words_shown, EndpointPlan, EndpointView, EnvVar, EnvVarView, HookView,
    HookPlan, HostExecView, MountPlan, MountView, Plan, PlanView, Source, SourceView, TaskPlan, TaskView,
};
use crate::redact::redacted;
use crate::shell::{quote_word, word};
use crate::text::{
    cat2, cat3, cat4, cat5, cat6, cat7, chars_of, error, outcome, pieces, pieces_from, lemma_next_char, next_char,
    split, text_between, Error,
};
use vstd::prelude::*;

verus! {

/// `path` as text, or an error naming `what` where it is none. Replacing the bytes it cannot
/// encode would name a different file.
pub open spec fn path_text(path: Seq<u8>, what: Seq<char>) -> Result<Seq<char>, Seq<char>> {
    match text_of_bytes(path) {
        Some(t) => Ok(t),
        None => Err(what + " ("@ + lossy_text(path) + ") is not valid UTF-8"@),
    }
}

/// `path` as text, or an error naming `what` when this host does not spell it in UTF-8.
pub fn utf8(path: &HostPath, what: &str) -> (r: Result<String, Error>)
    ensures
        outcome(r) == path_text(path.deep_view(), what@),
{
    match path.to_str() {
        Some(t) => Ok(t),
        None => Err(error(cat4(what, " (", path.display().as_str(), ") is not valid UTF-8"))),
    }
}

/// A `flag value` line, the value as a shell takes it.
pub open spec fn arg_line(flag: Seq<char>, value: Seq<char>) -> Seq<char> {
    "  "@ + flag + " "@ + word(value) + " \\\n"@
}

/// A `flag value` line with shell quoting.
pub fn arg(flag: &str, value: &str) -> (r: String)
    ensures
        r@ == arg_line(flag@, value@),
{
    cat5("  ", flag, " ", quote_word(value).as_str(), " \\\n")
}

/// A `flag value` line, where there is a value.
pub open spec fn opt_line(flag: Seq<char>, value: Option<Seq<char>>) -> Seq<char> {
    match value {
        Some(v) => arg_line(flag, v),
        None => ""@,
    }
}

fn opt_arg(flag: &str, value: &Option<String>) -> (r: String)
    ensures
        r@ == opt_line(flag@, value.deep_view()),
{
    match value {
        Some(v) => arg(flag, v.as_str()),
        None => "".to_owned(),
    }
}

/// The text without the line breaks at its end.
pub open spec fn without_breaks(s: Seq<char>) -> Seq<char>
    decreases s.len(),
{
    if s.len() > 0 && s.last() == '\n' {
        without_breaks(s.drop_last())
    } else {
        s
    }
}

/// The text as a comment: every line of it behind `# `.
pub open spec fn comment_block(s: Seq<char>) -> Seq<char> {
    let l = pieces(without_breaks(s), '\n');
    comment_lines(l, l.len() as int)
}

/// Prefix every line with `# `, so that copying the output cannot turn a continuation line into
/// a command.
pub fn comment(text: &str) -> (r: String)
    ensures
        r@ == comment_block(text@),
{
    let v = chars_of(text);
    let mut n: usize = v.len();
    assert(v@.take(n as int) =~= v@);
    while n > 0 && v[n - 1] == '\n'
        invariant
            n <= v@.len(),
            without_breaks(v@) == without_breaks(v@.take(n as int)),
        decreases n,
    {
        assert(v@.take(n as int).drop_last() =~= v@.take(n - 1));
        n = n - 1;
    }
    let body = text_between(&v, 0, n);
    assert(body@ =~= v@.take(n as int));
    let l = split(body.as_str(), '\n');
    let ghost all = l.deep_view();
    assert(all.len() == l@.len());
    let mut out = String::new();
    let mut i: usize = 0;
    while i < l.len()
        invariant
            i <= l@.len(),
            all == l.deep_view(),
            out@ == comment_lines(all, i as int),
        decreases l@.len() - i,
    {
        assert(all[i as int] == l@[i as int]@);
        let line = cat3("# ", l[i].as_str(), "\n");
        out.append(line.as_str());
        i = i + 1;
    }
    out
}

/// The profiles' lines, of the first `n`.
pub open spec fn profile_lines(p: Seq<Seq<char>>, n: int) -> Seq<char>
    decreases n,
{
    if n <= 0 {
        ""@
    } else {
        profile_lines(p, n - 1) + arg_line("--profile"@, p[n - 1])
    }
}

/// The build arguments' lines, of the first `n`.
pub open spec fn build_arg_lines(a: Seq<(Seq<char>, Seq<char>)>, n: int) -> Seq<char>
    decreases n,
{
    if n <= 0 {
        ""@
    } else {
        build_arg_lines(a, n - 1) + arg_line("--build-arg"@, a[n - 1].0 + "="@ + a[n - 1].1)
    }
}

pub open spec fn source_lines(s: SourceView) -> Result<Seq<char>, Seq<char>> {
    match s {
        SourceView::Compose { file, service, profiles } => match path_text(file, "the compose file"@) {
            Ok(f) => Ok(
                arg_line("--compose"@, f) + arg_line("--primary"@, service) + profile_lines(
                    profiles,
                    profiles.len() as int,
                ),
            ),
            Err(e) => Err(e),
        },
        SourceView::Image { reference } => Ok(arg_line("--image"@, reference)),
        SourceView::Build { context, dockerfile, target, args } => match path_text(
            dockerfile,
            "the Dockerfile"@,
        ) {
            Ok(d) => match path_text(context, "the build context"@) {
                Ok(c) => Ok(
                    arg_line("--file"@, d) + arg_line("--context"@, c) + opt_line("--target"@, target)
                        + build_arg_lines(args, args.len() as int),
                ),
                Err(e) => Err(e),
            },
            Err(e) => Err(e),
        },
    }
}

fn render_source(s: &Source) -> (r: Result<String, Error>)
    ensures
        outcome(r) == source_lines(s.deep_view()),
{
    match s {
        Source::Compose { file, service, profiles } => {
            let f = utf8(file, "the compose file")?;
            let mut out = "".to_owned();
            let mut i: usize = 0;
            let ghost p = profiles.deep_view();
            assert(p.len() == profiles@.len());
            while i < profiles.len()
                invariant
                    i <= profiles@.len(),
                    p == profiles.deep_view(),
                    out@ == profile_lines(p, i as int),
                decreases profiles@.len() - i,
            {
                assert(p[i as int] == profiles@[i as int]@);
                out.append(arg("--profile", profiles[i].as_str()).as_str());
                i = i + 1;
            }
            Ok(cat3(arg("--compose", f.as_str()).as_str(), arg("--primary", service.as_str()).as_str(), out.as_str()))
        },
        Source::Image { reference } => Ok(arg("--image", reference.as_str())),
        Source::Build { context, dockerfile, target, args } => {
            let d = utf8(dockerfile, "the Dockerfile")?;
            let c = utf8(context, "the build context")?;
            let mut out = "".to_owned();
            let mut i: usize = 0;
            let ghost a = args.deep_view();
            assert(a.len() == args@.len());
            while i < args.len()
                invariant
                    i <= args@.len(),
                    a == args.deep_view(),
                    out@ == build_arg_lines(a, i as int),
                decreases args@.len() - i,
            {
                assert(a[i as int] == (args@[i as int].0@, args@[i as int].1@));
                let pair = cat3(args[i].0.as_str(), "=", args[i].1.as_str());
                out.append(arg("--build-arg", pair.as_str()).as_str());
                i = i + 1;
            }
            Ok(
                cat4(
                    arg("--file", d.as_str()).as_str(),
                    arg("--context", c.as_str()).as_str(),
                    opt_arg("--target", target).as_str(),
                    out.as_str(),
                ),
            )
        },
    }
}

/// The lines on the machine: its directories, its size, and the checkout's mount where no
/// compose file says where that goes.
pub open spec fn machine_lines(p: PlanView, workspace: Seq<char>, state: Seq<char>) -> Seq<char> {
    arg_line("--workspace"@, workspace) + arg_line("--state-dir"@, state) + (match p.cpus {
        Some(c) => arg_line("--cpus"@, c.spelling()),
        None => ""@,
    }) + opt_line("--mem"@, p.mem) + (if p.source is Compose || p.workspace_folder is None {
        ""@
    } else {
        arg_line("-v"@, workspace + ":"@ + p.workspace_folder->0)
    })
}

/// The mounts' lines, of the first `n`.
pub open spec fn mount_lines(m: Seq<MountView>, n: int) -> Result<Seq<char>, Seq<char>>
    decreases n,
{
    if n <= 0 {
        Ok(""@)
    } else {
        match mount_lines(m, n - 1) {
            Err(e) => Err(e),
            Ok(done) => match mount_spec(m[n - 1]) {
                Err(e) => Err(e),
                Ok(s) => Ok(done + arg_line("-v"@, s)),
            },
        }
    }
}

proof fn lemma_mount_lines_kept(m: Seq<MountView>, n: int, k: int)
    requires
        0 <= n <= k,
        mount_lines(m, n) is Err,
    ensures
        mount_lines(m, k) == mount_lines(m, n),
    decreases k - n,
{
    if n < k {
        lemma_mount_lines_kept(m, n, k - 1);
    }
}

fn render_mounts(v: &Vec<MountPlan>) -> (r: Result<String, Error>)
    ensures
        outcome(r) == mount_lines(v.deep_view(), v@.len() as int),
{
    let mut out = "".to_owned();
    let mut i: usize = 0;
    let ghost m = v.deep_view();
    while i < v.len()
        invariant
            i <= v@.len(),
            m == v.deep_view(),
            mount_lines(m, i as int) == Ok::<Seq<char>, Seq<char>>(out@),
        decreases v@.len() - i,
    {
        assert(m[i as int] == v@[i as int].deep_view());
        match v[i].spec() {
            Ok(s) => out.append(arg("-v", s.as_str()).as_str()),
            Err(e) => {
                proof {
                    lemma_mount_lines_kept(m, i + 1, v@.len() as int);
                }
                return Err(e);
            },
        }
        i = i + 1;
    }
    Ok(out)
}

/// The environment's lines, of the first `n` variables.
pub open spec fn env_lines(v: Seq<EnvVarView>, n: int) -> Seq<char>
    decreases n,
{
    if n <= 0 {
        ""@
    } else {
        env_lines(v, n - 1) + arg_line("--env"@, v[n - 1].name + "="@ + v[n - 1].value)
    }
}

fn render_env(v: &Vec<EnvVar>) -> (r: String)
    ensures
        r@ == env_lines(v.deep_view(), v@.len() as int),
{
    let mut out = "".to_owned();
    let mut i: usize = 0;
    let ghost s = v.deep_view();
    while i < v.len()
        invariant
            i <= v@.len(),
            s == v.deep_view(),
            out@ == env_lines(s, i as int),
        decreases v@.len() - i,
    {
        assert(s[i as int] == v@[i as int].deep_view());
        let pair = cat3(v[i].name.as_str(), "=", v[i].value.as_str());
        out.append(arg("--env", pair.as_str()).as_str());
        i = i + 1;
    }
    out
}

pub open spec fn wrapper_lines(h: Option<HostExecView>) -> Result<Seq<char>, Seq<char>> {
    match h {
        None => Ok(""@),
        Some(x) => match path_text(x.wrapper, "the host-exec wrapper"@) {
            Ok(w) => Ok(arg_line("--host-exec-wrapper"@, w)),
            Err(e) => Err(e),
        },
    }
}

/// The flags that end the command.
pub open spec fn flag_lines(p: PlanView, host_offers: bool) -> Seq<char> {
    opt_line("--cache-registry"@, p.cache.registry) + opt_line("--ssh-user"@, p.user) + (if p.ssh_agent {
        "  --ssh-agent \\\n"@
    } else {
        ""@
    }) + (if nests(p.nested, host_offers) {
        "  --nested \\\n"@
    } else {
        ""@
    }) + (if p.cached_only {
        "  --require-cached \\\n"@
    } else {
        ""@
    }) + "  --ssh-client\n"@
}

pub open spec fn task_comment(t: TaskView) -> Seq<char> {
    comment_block(
        "vk dev task "@ + word(t.name) + ": "@ + words_shown(t.argv) + (" ("@ + t.policy.spelling() + " in "@ + word(
            t.environment,
        ) + ")"@),
    )
}

pub open spec fn task_comments(v: Seq<TaskView>, n: int) -> Seq<char>
    decreases n,
{
    if n <= 0 {
        ""@
    } else {
        task_comments(v, n - 1) + task_comment(v[n - 1])
    }
}

fn render_tasks(v: &Vec<TaskPlan>) -> (r: String)
    ensures
        r@ == task_comments(v.deep_view(), v@.len() as int),
{
    let mut out = "".to_owned();
    let mut i: usize = 0;
    let ghost s = v.deep_view();
    while i < v.len()
        invariant
            i <= v@.len(),
            s == v.deep_view(),
            out@ == task_comments(s, i as int),
        decreases v@.len() - i,
    {
        let t = &v[i];
        assert(s[i as int] == t.deep_view());
        let tail = cat5(" (", t.policy.as_str(), " in ", quote_word(t.environment.as_str()).as_str(), ")");
        let text = cat5(
            "vk dev task ",
            quote_word(t.name.as_str()).as_str(),
            ": ",
            show_words(&t.argv).as_str(),
            tail.as_str(),
        );
        out.append(comment(text.as_str()).as_str());
        i = i + 1;
    }
    out
}

pub open spec fn endpoint_comment(e: EndpointView, state: Seq<char>) -> Seq<char> {
    comment_block(
        "vk publish ensure "@ + word(state) + " --name "@ + word(e.name) + (" --listen "@ + word(e.listen) + " --to "@
            + word(e.to)) + (if e.required {
            "  # required"@
        } else {
            ""@
        }),
    )
}

pub open spec fn endpoint_comments(v: Seq<EndpointView>, state: Seq<char>, n: int) -> Seq<char>
    decreases n,
{
    if n <= 0 {
        ""@
    } else {
        endpoint_comments(v, state, n - 1) + endpoint_comment(v[n - 1], state)
    }
}

fn render_endpoints(v: &Vec<EndpointPlan>, state: &str) -> (r: String)
    ensures
        r@ == endpoint_comments(v.deep_view(), state@, v@.len() as int),
{
    let mut out = "".to_owned();
    let mut i: usize = 0;
    let ghost s = v.deep_view();
    while i < v.len()
        invariant
            i <= v@.len(),
            s == v.deep_view(),
            out@ == endpoint_comments(s, state@, i as int),
        decreases v@.len() - i,
    {
        let e = &v[i];
        assert(s[i as int] == e.deep_view());
        let tail = cat4(
            " --listen ",
            quote_word(e.listen.as_str()).as_str(),
            " --to ",
            quote_word(e.to.as_str()).as_str(),
        );
        let mark = if e.required {
            "  # required"
        } else {
            ""
        };
        let text = cat6(
            "vk publish ensure ",
            quote_word(state).as_str(),
            " --name ",
            quote_word(e.name.as_str()).as_str(),
            tail.as_str(),
            mark,
        );
        out.append(comment(text.as_str()).as_str());
        i = i + 1;
    }
    out
}

pub open spec fn hook_comment(at: Seq<char>, h: Option<HookView>) -> Seq<char> {
    match h {
        Some(x) => comment_block(at + ": "@ + hook_said(x)),
        None => ""@,
    }
}

fn render_hook(at: &str, h: &Option<HookPlan>) -> (r: String)
    ensures
        r@ == hook_comment(at@, h.deep_view()),
{
    match h {
        Some(x) => comment(cat3(at, ": ", x.describe().as_str()).as_str()),
        None => "".to_owned(),
    }
}

/// What stands under the command as comments: the steps around the boot.
pub open spec fn comment_part(p: PlanView, state: Seq<char>) -> Seq<char> {
    (match p.host_exec {
        Some(h) => match h.builtin {
            Some(b) => comment_block("the wrapper is generated at boot: vk's built-in "@ + b + " policy"@),
            None => ""@,
        },
        None => ""@,
    }) + (match p.fallback_target {
        Some(t) => comment_block("on a cache miss: the same, --target "@ + t),
        None => ""@,
    }) + task_comments(p.tasks, p.tasks.len() as int) + endpoint_comments(
        p.endpoints,
        state,
        p.endpoints.len() as int,
    ) + hook_comment("hooks.init (host, before the boot)"@, p.hooks.init) + hook_comment(
        "hooks.create (guest, once per generation)"@,
        p.hooks.create,
    ) + hook_comment("hooks.start (guest, each start)"@, p.hooks.start)
}

/// The plan as the `vk run` it stands for, or the first path in it that is not text.
pub open spec fn shell_text(p: PlanView, host_offers: bool) -> Result<Seq<char>, Seq<char>> {
    match source_lines(p.source) {
        Err(e) => Err(e),
        Ok(source) => match path_text(p.workspace, "the workspace"@) {
            Err(e) => Err(e),
            Ok(workspace) => match path_text(p.state_dir, "the state directory"@) {
                Err(e) => Err(e),
                Ok(state) => match mount_lines(p.mounts, p.mounts.len() as int) {
                    Err(e) => Err(e),
                    Ok(mounts) => match wrapper_lines(p.host_exec) {
                        Err(e) => Err(e),
                        Ok(wrapper) => Ok(
                            "vk run \\\n"@ + source + machine_lines(p, workspace, state) + mounts + env_lines(
                                p.container_env,
                                p.container_env.len() as int,
                            ) + (wrapper + flag_lines(p, host_offers) + comment_part(p, state)),
                        ),
                    },
                },
            },
        },
    }
}

fn render_machine(p: &Plan, workspace: &str, state: &str) -> (r: String)
    ensures
        r@ == machine_lines(p.deep_view(), workspace@, state@),
{
    let cpus = match p.cpus {
        Some(c) => arg("--cpus", c.to_text().as_str()),
        None => "".to_owned(),
    };
    let compose = match &p.source {
        Source::Compose { .. } => true,
        _ => false,
    };
    let mount = match &p.workspace_folder {
        Some(f) => if compose {
            "".to_owned()
        } else {
            arg("-v", cat3(workspace, ":", f.as_str()).as_str())
        },
        None => "".to_owned(),
    };
    cat5(
        arg("--workspace", workspace).as_str(),
        arg("--state-dir", state).as_str(),
        cpus.as_str(),
        opt_arg("--mem", &p.mem).as_str(),
        mount.as_str(),
    )
}

fn render_flags(p: &Plan, host_offers: bool) -> (r: String)
    ensures
        r@ == flag_lines(p.deep_view(), host_offers),
{
    let agent = if p.ssh_agent {
        "  --ssh-agent \\\n"
    } else {
        ""
    };
    let nested = if p.nests_here(host_offers) {
        "  --nested \\\n"
    } else {
        ""
    };
    let cached = if p.cached_only {
        "  --require-cached \\\n"
    } else {
        ""
    };
    cat6(
        opt_arg("--cache-registry", &p.cache.registry).as_str(),
        opt_arg("--ssh-user", &p.user).as_str(),
        agent,
        nested,
        cached,
        "  --ssh-client\n",
    )
}

fn render_comments(p: &Plan, state: &str) -> (r: String)
    ensures
        r@ == comment_part(p.deep_view(), state@),
{
    assert(p.tasks@.len() == p.tasks.deep_view().len());
    assert(p.endpoints@.len() == p.endpoints.deep_view().len());
    let builtin = match &p.host_exec {
        Some(h) => match &h.builtin {
            Some(b) => comment(
                cat3("the wrapper is generated at boot: vk's built-in ", b.as_str(), " policy").as_str(),
            ),
            None => "".to_owned(),
        },
        None => "".to_owned(),
    };
    let fallback = match &p.fallback_target {
        Some(t) => comment(cat2("on a cache miss: the same, --target ", t.as_str()).as_str()),
        None => "".to_owned(),
    };
    cat7(
        builtin.as_str(),
        fallback.as_str(),
        render_tasks(&p.tasks).as_str(),
        render_endpoints(&p.endpoints, state).as_str(),
        render_hook("hooks.init (host, before the boot)", &p.hooks.init).as_str(),
        render_hook("hooks.create (guest, once per generation)", &p.hooks.create).as_str(),
        render_hook("hooks.start (guest, each start)", &p.hooks.start).as_str(),
    )
}

impl Plan {
    /// The plan as the `vk run` it stands for. The hooks and publishers are comments, being
    /// steps around the boot rather than arguments to it, but a reader may well copy it, so
    /// every path is spelled exactly and one this host does not spell in UTF-8 is an error.
    pub fn render_shell(&self, host_offers: bool) -> (r: Result<String, Error>)
        ensures
            outcome(r) == shell_text(self.deep_view(), host_offers),
    {
        assert(self.mounts@.len() == self.mounts.deep_view().len());
        assert(self.container_env@.len() == self.container_env.deep_view().len());
        let source = render_source(&self.source)?;
        let workspace = utf8(&self.workspace, "the workspace")?;
        let state = utf8(&self.state_dir, "the state directory")?;
        let mounts = render_mounts(&self.mounts)?;
        let wrapper = match &self.host_exec {
            None => "".to_owned(),
            Some(h) => arg("--host-exec-wrapper", utf8(&h.wrapper, "the host-exec wrapper")?.as_str()),
        };
        let tail = cat3(
            wrapper.as_str(),
            render_flags(self, host_offers).as_str(),
            render_comments(self, state.as_str()).as_str(),
        );
        Ok(
            cat6(
                "vk run \\\n",
                source.as_str(),
                render_machine(self, workspace.as_str(), state.as_str()).as_str(),
                mounts.as_str(),
                render_env(&self.container_env).as_str(),
                tail.as_str(),
            ),
        )
    }

    /// The plan as the `vk run` it stands for, redacted unless `reveal`: every word is then
    /// rendered from something already safe to print.
    pub fn to_shell(&self, reveal: bool, host_offers: bool) -> (r: Result<String, Error>)
        ensures
            outcome(r) == shell_text(
                if reveal {
                    self.deep_view()
                } else {
                    redacted(self.deep_view())
                },
                host_offers,
            ),
    {
        if reveal {
            self.render_shell(host_offers)
        } else {
            self.redact().render_shell(host_offers)
        }
    }
}

/// Where a line of the text begins.
pub open spec fn line_begins(s: Seq<char>, i: int) -> bool {
    0 <= i < s.len() && (i == 0 || s[i - 1] == '\n')
}

/// Every line of the text is a comment.
pub open spec fn all_comments(s: Seq<char>) -> bool {
    forall|i: int| #[trigger] line_begins(s, i) ==> i + 1 < s.len() && s[i] == '#' && s[i + 1] == ' '
}

proof fn lemma_comment_lines(l: Seq<Seq<char>>, n: int)
    requires
        0 <= n <= l.len(),
        forall|k: int| 0 <= k < l.len() ==> !(#[trigger] l[k]).contains('\n'),
    ensures
        all_comments(comment_lines(l, n)),
        comment_lines(l, n).len() > 0 ==> comment_lines(l, n).last() == '\n',
    decreases n,
{
    reveal_strlit("# ");
    reveal_strlit("\n");
    let s = comment_lines(l, n);
    if n > 0 {
        lemma_comment_lines(l, n - 1);
        let a = comment_lines(l, n - 1);
        let b = "# "@ + l[n - 1] + "\n"@;
        assert(s == a + b);
        assert forall|i: int| #[trigger] line_begins(s, i) implies i + 1 < s.len() && s[i] == '#' && s[i + 1]
            == ' ' by {
            if i < a.len() {
                assert(line_begins(a, i)) by {
                    if i > 0 {
                        assert(s[i - 1] == a[i - 1]);
                    }
                }
                assert(s[i] == a[i] && s[i + 1] == a[i + 1]);
            } else {
                let o = i - a.len();
                assert(s[i] == b[o]);
                if o == 0 {
                    assert(s[i + 1] == b[1]);
                } else {
                    assert(s[i - 1] == b[o - 1]);
                    if o >= 3 {
                        assert(b[o - 1] == l[n - 1][o - 3]);
                        assert(l[n - 1].contains(l[n - 1][o - 3]));
                    }
                }
            }
        }
    }
}

proof fn lemma_pieces_unbroken(s: Seq<char>, from: int)
    requires
        0 <= from <= s.len(),
    ensures
        forall|k: int| 0 <= k < pieces_from(s, '\n', from).len() ==> !(#[trigger] pieces_from(s, '\n', from)[k]).contains(
            '\n',
        ),
    decreases s.len() - from,
{
    lemma_next_char(s, '\n', from);
    let at = next_char(s, '\n', from);
    let head = s.subrange(from, at);
    assert(!head.contains('\n')) by {
        if head.contains('\n') {
            let j = choose|j: int| 0 <= j < head.len() && head[j] == '\n';
            assert(s[from + j] == '\n');
        }
    }
    if at < s.len() {
        lemma_pieces_unbroken(s, at + 1);
        assert forall|k: int| 0 <= k < pieces_from(s, '\n', from).len() implies !(#[trigger] pieces_from(
            s,
            '\n',
            from,
        )[k]).contains('\n') by {
            if k > 0 {
                assert(pieces_from(s, '\n', from)[k] == pieces_from(s, '\n', at + 1)[k - 1]);
            }
        }
    }
}

/// Whatever text is put in a comment, every line of it stays one.
pub proof fn law_comment_stays_comment(s: Seq<char>)
    ensures
        all_comments(comment_block(s)),
{
    lemma_block_whole(s);
}

/// Comments that end at the end of a line.
spec fn whole_comments(s: Seq<char>) -> bool {
    all_comments(s) && (s.len() > 0 ==> s.last() == '\n')
}

proof fn lemma_block_whole(s: Seq<char>)
    ensures
        whole_comments(comment_block(s)),
{
    let body = without_breaks(s);
    lemma_pieces_unbroken(body, 0);
    lemma_comment_lines(pieces(body, '\n'), pieces(body, '\n').len() as int);
}

proof fn lemma_whole_joined(a: Seq<char>, b: Seq<char>)
    requires
        whole_comments(a),
        whole_comments(b),
    ensures
        whole_comments(a + b),
{
    let s = a + b;
    assert forall|i: int| #[trigger] line_begins(s, i) implies i + 1 < s.len() && s[i] == '#' && s[i + 1] == ' ' by {
        if i < a.len() {
            assert(i > 0 ==> s[i - 1] == a[i - 1]);
            assert(line_begins(a, i));
            assert(s[i] == a[i] && s[i + 1] == a[i + 1]);
        } else {
            let o = i - a.len();
            assert(o > 0 ==> s[i - 1] == b[o - 1]);
            assert(line_begins(b, o));
            assert(s[i] == b[o] && s[i + 1] == b[o + 1]);
        }
    }
    if b.len() > 0 {
        assert(s.last() == b.last());
    } else {
        assert(s =~= a);
    }
}

proof fn lemma_tasks_whole(v: Seq<TaskView>, n: int)
    requires
        0 <= n <= v.len(),
    ensures
        whole_comments(task_comments(v, n)),
    decreases n,
{
    reveal_strlit("");
    if n > 0 {
        let t = v[n - 1];
        lemma_tasks_whole(v, n - 1);
        lemma_block_whole(
            "vk dev task "@ + word(t.name) + ": "@ + words_shown(t.argv) + (" ("@ + t.policy.spelling() + " in "@
                + word(t.environment) + ")"@),
        );
        lemma_whole_joined(task_comments(v, n - 1), task_comment(t));
    }
}

proof fn lemma_endpoints_whole(v: Seq<EndpointView>, state: Seq<char>, n: int)
    requires
        0 <= n <= v.len(),
    ensures
        whole_comments(endpoint_comments(v, state, n)),
    decreases n,
{
    reveal_strlit("");
    if n > 0 {
        let e = v[n - 1];
        lemma_endpoints_whole(v, state, n - 1);
        lemma_block_whole(
            "vk publish ensure "@ + word(state) + " --name "@ + word(e.name) + (" --listen "@ + word(e.listen)
                + " --to "@ + word(e.to)) + (if e.required {
                "  # required"@
            } else {
                ""@
            }),
        );
        lemma_whole_joined(endpoint_comments(v, state, n - 1), endpoint_comment(e, state));
    }
}

proof fn lemma_hook_whole(at: Seq<char>, h: Option<HookView>)
    ensures
        whole_comments(hook_comment(at, h)),
{
    reveal_strlit("");
    if let Some(x) = h {
        lemma_block_whole(at + ": "@ + hook_said(x));
    }
}

/// Whatever the plan holds, all that the rendering says behind the command is comments.
pub proof fn law_only_comments_follow(p: PlanView, state: Seq<char>)
    ensures
        all_comments(comment_part(p, state)),
{
    reveal_strlit("");
    let builtin = match p.host_exec {
        Some(h) => match h.builtin {
            Some(b) => comment_block("the wrapper is generated at boot: vk's built-in "@ + b + " policy"@),
            None => ""@,
        },
        None => ""@,
    };
    assert(whole_comments(builtin)) by {
        if let Some(h) = p.host_exec {
            if let Some(b) = h.builtin {
                lemma_block_whole("the wrapper is generated at boot: vk's built-in "@ + b + " policy"@);
            }
        }
    }
    let target = match p.fallback_target {
        Some(t) => comment_block("on a cache miss: the same, --target "@ + t),
        None => ""@,
    };
    assert(whole_comments(target)) by {
        if let Some(t) = p.fallback_target {
            lemma_block_whole("on a cache miss: the same, --target "@ + t);
        }
    }
    let tasks = task_comments(p.tasks, p.tasks.len() as int);
    let endpoints = endpoint_comments(p.endpoints, state, p.endpoints.len() as int);
    let init = hook_comment("hooks.init (host, before the boot)"@, p.hooks.init);
    let create = hook_comment("hooks.create (guest, once per generation)"@, p.hooks.create);
    let start = hook_comment("hooks.start (guest, each start)"@, p.hooks.start);
    lemma_tasks_whole(p.tasks, p.tasks.len() as int);
    lemma_endpoints_whole(p.endpoints, state, p.endpoints.len() as int);
    lemma_hook_whole("hooks.init (host, before the boot)"@, p.hooks.init);
    lemma_hook_whole("hooks.create (guest, once per generation)"@, p.hooks.create);
    lemma_hook_whole("hooks.start (guest, each start)"@, p.hooks.start);
    lemma_whole_joined(builtin, target);
    lemma_whole_joined(builtin + target, tasks);
    lemma_whole_joined(builtin + target + tasks, endpoints);
    lemma_whole_joined(builtin + target + tasks + endpoints, init);
    lemma_whole_joined(builtin + target + tasks + endpoints + init, create);
    lemma_whole_joined(builtin + target + tasks + endpoints + init + create, start);
}

} // verus!
