//! What redaction leaves as it is.

use crate::laws::words::lemma_kept_until;
use crate::path::text_of_bytes;
use crate::plan::{CommandView, HookView, PlanView, SourceView};
use crate::redact::{
    lemma_shorter_from, longest_first, redacted, scrubbed, scrubbed_all, scrubbed_upto, shorter_from, REDACTED,
};
use crate::text::{contains, occurs_at, replaced, replaced_from};
use vstd::prelude::*;
use vstd::utf8::encode_utf8;

verus! {

/// None of the secrets stands in the text, and none of them is empty.
pub open spec fn clear(secrets: Seq<Seq<char>>, t: Seq<char>) -> bool {
    forall|j: int| 0 <= j < secrets.len() ==> (#[trigger] secrets[j]).len() > 0 && !contains(t, secrets[j])
}

proof fn lemma_replaces_nothing(t: Seq<char>, needle: Seq<char>, with: Seq<char>)
    requires
        needle.len() > 0,
        !contains(t, needle),
    ensures
        replaced(t, needle, with) == t,
{
    let n = t.len() as int;
    assert forall|i: int| 0 <= i < n implies !#[trigger] occurs_at(t, needle, i) by {
        if occurs_at(t, needle, i) {
            assert(contains(t, needle));
        }
    }
    lemma_kept_until(t, needle, with, 0, n);
    assert(replaced_from(t, needle, with, n) =~= Seq::<char>::empty());
    assert(replaced(t, needle, with) =~= t);
}

proof fn lemma_scrubs_nothing(secrets: Seq<Seq<char>>, t: Seq<char>, n: int)
    requires
        clear(secrets, t),
        0 <= n <= secrets.len(),
    ensures
        scrubbed_upto(secrets, t, n) == t,
    decreases n,
{
    if n > 0 {
        lemma_scrubs_nothing(secrets, t, n - 1);
        assert(secrets[n - 1].len() > 0 && !contains(t, secrets[n - 1]));
        lemma_replaces_nothing(t, secrets[n - 1], REDACTED@);
    }
}

proof fn lemma_clear_in_order(v: Seq<Seq<char>>, n: int, t: Seq<char>)
    requires
        clear(v, t),
        0 <= n <= v.len(),
    ensures
        clear(longest_first(v, n), t),
    decreases n,
{
    if n > 0 {
        lemma_clear_in_order(v, n - 1, t);
        let done = longest_first(v, n - 1);
        let now = longest_first(v, n);
        lemma_shorter_from(done, v[n - 1], 0);
        let at = shorter_from(done, v[n - 1], 0);
        assert forall|j: int| 0 <= j < now.len() implies (#[trigger] now[j]).len() > 0 && !contains(t, now[j]) by {
            if j < at {
                assert(now[j] == done[j]);
            } else if j > at {
                assert(now[j] == done[j - 1]);
            } else {
                assert(now[j] == v[n - 1]);
            }
        }
    }
}

proof fn lemma_stays(p: PlanView, t: Seq<char>)
    requires
        clear(p.secrets, t),
    ensures
        scrubbed(longest_first(p.secrets, p.secrets.len() as int), t) == t,
{
    let n = p.secrets.len() as int;
    lemma_clear_in_order(p.secrets, n, t);
    let s = longest_first(p.secrets, n);
    lemma_scrubs_nothing(s, t, s.len() as int);
}

proof fn lemma_all_stay(p: PlanView, v: Seq<Seq<char>>)
    requires
        forall|i: int| 0 <= i < v.len() ==> clear(p.secrets, #[trigger] v[i]),
    ensures
        scrubbed_all(longest_first(p.secrets, p.secrets.len() as int), v) == v,
{
    let s = longest_first(p.secrets, p.secrets.len() as int);
    assert forall|i: int| 0 <= i < v.len() implies scrubbed(s, #[trigger] v[i]) == v[i] by {
        lemma_stays(p, v[i]);
    }
    assert(scrubbed_all(s, v) =~= v);
}

/// A text that holds no secret is shown as it is.
pub proof fn law_clear_text_is_kept(secrets: Seq<Seq<char>>, t: Seq<char>)
    requires
        clear(secrets, t),
    ensures
        scrubbed(secrets, t) == t,
{
    lemma_scrubs_nothing(secrets, t, secrets.len() as int);
}

/// A plan that is redacted still says what it said wherever that holds no secret: who and where it
/// is, its size, what it is made from, and every mount, endpoint, task and variable by name.
pub proof fn law_redaction_keeps_the_rest(p: PlanView, i: int)
    ensures
        ({
            let r = redacted(p);
            let s = p.secrets;
            &&& r.workspace == p.workspace && r.config == p.config && r.state_dir == p.state_dir
            &&& r.environment == p.environment && r.freshness == p.freshness && r.cpus == p.cpus && r.mem == p.mem
            &&& r.nested == p.nested && r.ssh_agent == p.ssh_agent && r.cache == p.cache && r.requires == p.requires
            &&& r.cached_only == p.cached_only && r.fallback_target == p.fallback_target
            &&& r.unresolved == p.unresolved
            &&& p.user is None ==> r.user is None
            &&& p.user matches Some(t) ==> (clear(s, t) ==> r.user == p.user)
            &&& p.workspace_folder is None ==> r.workspace_folder is None
            &&& p.workspace_folder matches Some(t) ==> (clear(s, t) ==> r.workspace_folder == p.workspace_folder)
            &&& p.source matches SourceView::Image { reference } ==> (clear(s, reference) ==> r.source == p.source)
            &&& p.source matches SourceView::Compose { file, service, profiles } ==> (r.source matches SourceView::Compose {
                file: f,
                service: v,
                profiles: q,
            } && f == file && q.len() == profiles.len() && (clear(s, service) ==> v == service))
            &&& p.source matches SourceView::Build { context, dockerfile, target, args } ==> (
            r.source matches SourceView::Build { context: c, dockerfile: d, target: g, args: a } && c == context && d
                == dockerfile && a.len() == args.len() && (0 <= i < args.len() && clear(s, args[i].0) ==> a[i].0
                == args[i].0) && (target matches Some(x) ==> (clear(s, x) ==> g == target)))
            &&& r.mounts.len() == p.mounts.len() && r.endpoints.len() == p.endpoints.len() && r.tasks.len()
                == p.tasks.len()
            &&& r.container_env.len() == p.container_env.len() && r.exec_env.len() == p.exec_env.len()
            &&& 0 <= i < p.container_env.len() ==> r.container_env[i].name == p.container_env[i].name
                && r.container_env[i].sensitive == p.container_env[i].sensitive
            &&& 0 <= i < p.exec_env.len() ==> r.exec_env[i].name == p.exec_env[i].name && r.exec_env[i].sensitive
                == p.exec_env[i].sensitive
            &&& 0 <= i < p.mounts.len() ==> {
                let (a, b) = (r.mounts[i], p.mounts[i]);
                &&& a.name == b.name && a.read_only == b.read_only && a.optional == b.optional
                &&& clear(s, b.to) ==> a.to == b.to
                &&& text_of_bytes(b.source) matches Some(t) ==> (clear(s, t) ==> a.source == encode_utf8(t))
            }
            &&& 0 <= i < p.endpoints.len() ==> {
                let (a, b) = (r.endpoints[i], p.endpoints[i]);
                &&& a.name == b.name && a.host_port == b.host_port && a.required == b.required
                &&& clear(s, b.address) ==> a.address == b.address
                &&& clear(s, b.listen) ==> a.listen == b.listen
                &&& clear(s, b.to) ==> a.to == b.to
                &&& b.service matches Some(t) ==> (clear(s, t) ==> a.service == b.service)
                &&& b.scheme matches Some(t) ==> (clear(s, t) ==> a.scheme == b.scheme)
                &&& b.path matches Some(t) ==> (clear(s, t) ==> a.path == b.path)
            }
            &&& 0 <= i < p.tasks.len() ==> {
                let (a, b) = (r.tasks[i], p.tasks[i]);
                &&& a.name == b.name && a.policy == b.policy && a.checkout == b.checkout
                &&& (forall|k: int| 0 <= k < b.argv.len() ==> clear(s, #[trigger] b.argv[k])) ==> a.argv == b.argv
                &&& clear(s, b.environment) ==> a.environment == b.environment
                &&& clear(s, b.reuse) ==> a.reuse == b.reuse
                &&& a.env.len() == b.env.len()
            }
        }),
{
    let s = longest_first(p.secrets, p.secrets.len() as int);
    assert forall|t: Seq<char>| #[trigger] clear(p.secrets, t) implies scrubbed(s, t) == t by {
        lemma_stays(p, t);
    }
    if 0 <= i < p.tasks.len() {
        let b = p.tasks[i];
        if forall|k: int| 0 <= k < b.argv.len() ==> clear(p.secrets, #[trigger] b.argv[k]) {
            lemma_all_stay(p, b.argv);
        }
    }
}

/// A hook that is redacted runs what it ran wherever that holds no secret.
pub proof fn law_redaction_keeps_hooks(p: PlanView)
    ensures
        p.hooks.create is None <==> redacted(p).hooks.create is None,
        p.hooks.start is None <==> redacted(p).hooks.start is None,
        p.hooks.init is None <==> redacted(p).hooks.init is None,
        p.hooks.create matches Some(HookView::Command(c)) ==> (redacted(p).hooks.create matches Some(HookView::Command(d))
            && d.required == c.required && d.timeout_secs == c.timeout_secs && (c.run matches CommandView::Shell(l) ==> (
        clear(p.secrets, l) ==> d.run == c.run))),
        p.hooks.start matches Some(HookView::Command(c)) ==> (redacted(p).hooks.start matches Some(HookView::Command(d))
            && d.required == c.required && d.timeout_secs == c.timeout_secs && (c.run matches CommandView::Shell(l) ==> (
        clear(p.secrets, l) ==> d.run == c.run))),
        p.hooks.init matches Some(HookView::Command(c)) ==> (redacted(p).hooks.init matches Some(HookView::Command(d))
            && d.required == c.required && d.timeout_secs == c.timeout_secs && (c.run matches CommandView::Shell(l) ==> (
        clear(p.secrets, l) ==> d.run == c.run))),
{
    let s = longest_first(p.secrets, p.secrets.len() as int);
    assert forall|t: Seq<char>| #[trigger] clear(p.secrets, t) implies scrubbed(s, t) == t by {
        lemma_stays(p, t);
    }
}

} // verus!
