//! What a difference between the config and a running environment takes to apply, and what an
//! `up` does about it.

use crate::boot::{boot_next, BootStepView, FoundView, Wanted};
use crate::config::Freshness;
use crate::entries::{entry, lemma_with_entry, sorted};
use crate::identity::{
    attachable, diff_shown, drifted, effect_at, field_end, field_key, field_of, flat, flat_fields, flat_items,
    group_shown, indented, is_fingerprint, item_name, law_every_change_is_told, leaf_text, leaves_of, lemma_flat,
    manifest_digest, manifest_of, pending_shown, DriftView, Effect,
};
use crate::laws::show::{lemma_itself, lemma_sides};
use crate::plan::PlanView;
use crate::planjson::plan_paths_text;
use crate::text::{begins, contains, decimal};
use crate::value::{json_shown, JsonTree};
use vstd::prelude::*;

verus! {

/// The key is a field of the plan, or stands under it.
pub open spec fn under_field(key: Seq<char>, name: Seq<char>) -> bool {
    ||| key == name
    ||| key.len() > name.len() && key.take(name.len() as int) == name && (key[name.len() as int] == '.'
        || key[name.len() as int] == '[')
}

/// What the next session picks up.
pub open spec fn for_sessions(key: Seq<char>) -> bool {
    ||| under_field(key, "exec_env"@)
    ||| under_field(key, "vscode"@)
    ||| under_field(key, "freshness"@)
    ||| under_field(key, "config"@)
    ||| under_field(key, "environment"@)
    ||| under_field(key, "tasks"@)
    ||| under_field(key, "unresolved"@)
}

/// What the host applies to a running environment.
pub open spec fn for_the_host(key: Seq<char>) -> bool {
    under_field(key, "endpoints"@) || under_field(key, "requires"@)
}

/// What only a build reads.
pub open spec fn for_a_build(key: Seq<char>) -> bool {
    ||| under_field(key, "cache"@)
    ||| under_field(key, "cached_only"@)
    ||| under_field(key, "fallback_target"@)
    ||| under_field(key, "source"@) && key.len() >= 12 && key.take(12) == "source.Build"@
}

proof fn lemma_field_end(key: Seq<char>, i: int)
    requires
        0 <= i <= key.len(),
    ensures
        i <= field_end(key, i) <= key.len(),
        forall|j: int| i <= j < field_end(key, i) ==> key[j] != '.' && key[j] != '[',
        field_end(key, i) < key.len() ==> key[field_end(key, i)] == '.' || key[field_end(key, i)] == '[',
    decreases key.len() - i,
{
    if i < key.len() && key[i] != '.' && key[i] != '[' {
        lemma_field_end(key, i + 1);
    }
}

/// A plain name: neither a dot nor a bracket in it.
spec fn unbroken(name: Seq<char>) -> bool {
    forall|j: int| 0 <= j < name.len() ==> name[j] != '.' && name[j] != '['
}

proof fn lemma_under_field(key: Seq<char>, name: Seq<char>)
    requires
        unbroken(name),
    ensures
        under_field(key, name) == (field_of(key) == name),
{
    lemma_field_end(key, 0);
    let e = field_end(key, 0);
    let n = name.len() as int;
    if field_of(key) == name {
        assert(e == n);
        if e == key.len() {
            assert(key =~= key.take(e));
        }
    }
    if under_field(key, name) {
        if key == name {
            if e < key.len() {
                assert(name[e] == key[e]);
            }
            assert(key.take(e) =~= name);
        } else {
            if e < n {
                assert(key[e] == key.take(n)[e]);
            }
            assert(e == n);
        }
    }
}

proof fn lemma_fields(key: Seq<char>)
    ensures
        under_field(key, "exec_env"@) == (field_of(key) == "exec_env"@),
        under_field(key, "vscode"@) == (field_of(key) == "vscode"@),
        under_field(key, "freshness"@) == (field_of(key) == "freshness"@),
        under_field(key, "config"@) == (field_of(key) == "config"@),
        under_field(key, "environment"@) == (field_of(key) == "environment"@),
        under_field(key, "tasks"@) == (field_of(key) == "tasks"@),
        under_field(key, "unresolved"@) == (field_of(key) == "unresolved"@),
        under_field(key, "endpoints"@) == (field_of(key) == "endpoints"@),
        under_field(key, "requires"@) == (field_of(key) == "requires"@),
        under_field(key, "cache"@) == (field_of(key) == "cache"@),
        under_field(key, "cached_only"@) == (field_of(key) == "cached_only"@),
        under_field(key, "fallback_target"@) == (field_of(key) == "fallback_target"@),
        under_field(key, "source"@) == (field_of(key) == "source"@),
{
    reveal_strlit("exec_env");
    reveal_strlit("vscode");
    reveal_strlit("freshness");
    reveal_strlit("config");
    reveal_strlit("environment");
    reveal_strlit("tasks");
    reveal_strlit("unresolved");
    reveal_strlit("endpoints");
    reveal_strlit("requires");
    reveal_strlit("cache");
    reveal_strlit("cached_only");
    reveal_strlit("fallback_target");
    reveal_strlit("source");
    lemma_under_field(key, "exec_env"@);
    lemma_under_field(key, "vscode"@);
    lemma_under_field(key, "freshness"@);
    lemma_under_field(key, "config"@);
    lemma_under_field(key, "environment"@);
    lemma_under_field(key, "tasks"@);
    lemma_under_field(key, "unresolved"@);
    lemma_under_field(key, "endpoints"@);
    lemma_under_field(key, "requires"@);
    lemma_under_field(key, "cache"@);
    lemma_under_field(key, "cached_only"@);
    lemma_under_field(key, "fallback_target"@);
    lemma_under_field(key, "source"@);
}

/// A change is applied without a restart only where it concerns what sessions or the host read;
/// it is a rebuild only where a build alone reads it; all else takes a restart.
pub proof fn law_effects(key: Seq<char>)
    ensures
        effect_at(key) == Effect::Session <==> for_sessions(key),
        effect_at(key) == Effect::Host <==> for_the_host(key),
        effect_at(key) == Effect::Rebuild <==> for_a_build(key),
        effect_at(key) == Effect::Restart <==> !for_sessions(key) && !for_the_host(key) && !for_a_build(key),
{
    lemma_fields(key);
    reveal_strlit("source.Build");
    assert("source.Build"@.len() == 12);
    reveal_strlit("exec_env");
    reveal_strlit("vscode");
    reveal_strlit("freshness");
    reveal_strlit("config");
    reveal_strlit("environment");
    reveal_strlit("tasks");
    reveal_strlit("unresolved");
    reveal_strlit("endpoints");
    reveal_strlit("requires");
    reveal_strlit("cache");
    reveal_strlit("cached_only");
    reveal_strlit("fallback_target");
    reveal_strlit("source");
    assert("exec_env"@.len() == 8 && "vscode"@.len() == 6 && "freshness"@.len() == 9 && "config"@.len() == 6);
    assert("environment"@.len() == 11 && "tasks"@.len() == 5 && "unresolved"@.len() == 10);
    assert("endpoints"@.len() == 9 && "requires"@.len() == 8 && "cache"@.len() == 5);
    assert("cached_only"@.len() == 11 && "fallback_target"@.len() == 15 && "source"@.len() == 6);
    assert("exec_env"@[0] == 'e' && "requires"@[0] == 'r' && "vscode"@[0] == 'v' && "config"@[0] == 'c');
    assert("source"@[0] == 's' && "freshness"@[0] == 'f' && "endpoints"@[0] == 'e' && "tasks"@[0] == 't');
    assert("cache"@[0] == 'c' && "environment"@[0] == 'e' && "cached_only"@[0] == 'c');
}

/// A drift that is applied on attach concerns nothing but what sessions and the host read: two
/// manifests that differ in any leaf elsewhere are not attached over.
pub proof fn law_attach_applies_what_it_can(recorded: JsonTree, current: JsonTree, key: Seq<char>)
    requires
        entry(leaves_of(recorded), key) != entry(leaves_of(current), key),
        attachable(drifted(recorded, current)),
    ensures
        for_sessions(key) || for_the_host(key),
{
    law_effects(key);
    law_every_change_is_told(recorded, current, key);
    let d = drifted(recorded, current);
    let lines = d.of(effect_at(key));
    assert(lines.len() > 0);
}

/// The running environment differs in something that attaching does not apply.
pub open spec fn needs_a_restart(p: PlanView, found: FoundView) -> bool {
    found.live matches Some(live) && live.digest != manifest_digest(manifest_of(p, found.wrapper)) && exists|key: Seq<
        char,
    >|
        entry(leaves_of(live.manifest), key) != #[trigger] entry(leaves_of(manifest_of(p, found.wrapper)), key)
            && !for_sessions(key) && !for_the_host(key)
}

/// Where a restart is due and none was asked for, the policy has the say: `require-current` refuses,
/// `refresh` swaps, `reuse` attaches, and `ask` asks where there is a terminal, goes by the answer,
/// and attaches where there is nobody to ask.
pub proof fn law_policy_decides_a_restart(
    p: PlanView,
    found: FoundView,
    wanted: Wanted,
    answer: Option<Result<bool, Seq<char>>>,
)
    requires
        plan_paths_text(p),
        !wanted.refresh,
        needs_a_restart(p, found),
    ensures
        ({
            let step = boot_next(p, found, wanted, answer).0;
            &&& wanted.freshness == Freshness::RequireCurrent ==> step is Refuse
            &&& wanted.freshness == Freshness::Refresh ==> step is Swap
            &&& wanted.freshness == Freshness::Reuse ==> step is Reuse
            &&& wanted.freshness == Freshness::Ask && !found.terminal ==> step is Reuse
            &&& wanted.freshness == Freshness::Ask && found.terminal ==> match answer {
                None => step is Ask,
                Some(Ok(true)) => step is Swap,
                Some(Ok(false)) => step is Reuse,
                Some(Err(e)) => step == BootStepView::Refuse(e),
            }
        }),
{
    let live = found.live->0;
    let m = manifest_of(p, found.wrapper);
    let key = choose|key: Seq<char>|
        entry(leaves_of(live.manifest), key) != #[trigger] entry(leaves_of(m), key) && !for_sessions(key)
            && !for_the_host(key);
    if attachable(drifted(live.manifest, m)) {
        law_attach_applies_what_it_can(live.manifest, m, key);
    }
}

/// With nothing running, a boot in flight is joined by who would wait for it and refused to who
/// would not, and without one the environment is booted.
pub proof fn law_nothing_running(
    p: PlanView,
    found: FoundView,
    wanted: Wanted,
    answer: Option<Result<bool, Seq<char>>>,
)
    requires
        plan_paths_text(p),
        found.live is None,
    ensures
        ({
            let step = boot_next(p, found, wanted, answer).0;
            &&& found.holder is None ==> step is Boot
            &&& found.holder is Some && wanted.wait ==> step is Join
            &&& found.holder is Some && !wanted.wait ==> step is Refuse
        }),
{
}

/// What is running is booted over, joined or waited for by nobody, and nothing is asked about what
/// is not.
pub proof fn law_step_fits_what_was_found(
    p: PlanView,
    found: FoundView,
    wanted: Wanted,
    answer: Option<Result<bool, Seq<char>>>,
)
    ensures
        ({
            let step = boot_next(p, found, wanted, answer).0;
            &&& step is Boot || step is Join ==> found.live is None
            &&& step is Reuse || step is Swap || step is Ask ==> found.live is Some
            &&& step is Ask ==> wanted.freshness == Freshness::Ask && found.terminal && answer is None
            &&& !(step is Reuse) ==> boot_next(p, found, wanted, answer).1.len() == 0
        }),
{
}

/// The key stands at the path or under it.
pub open spec fn at_or_under(k: Seq<char>, path: Seq<char>) -> bool {
    k == path || begins(k, path + "."@) || begins(k, path + "["@)
}

proof fn lemma_deeper(k: Seq<char>, path: Seq<char>, rest: Seq<char>)
    requires
        !at_or_under(k, path),
        begins(rest, "."@) || begins(rest, "["@),
    ensures
        !at_or_under(k, path + rest),
{
    reveal_strlit(".");
    reveal_strlit("[");
    assert("."@ =~= seq!['.'] && "["@ =~= seq!['[']);
    let deep = path + rest;
    let n = path.len() as int;
    assert(rest.take(1)[0] == rest[0]);
    assert(deep.take(n + 1) =~= path + rest.take(1));
    if k == deep || begins(k, deep + "."@) || begins(k, deep + "["@) {
        assert(deep.len() <= k.len());
        assert(k.take(deep.len() as int) =~= deep) by {
            if begins(k, deep + "."@) {
                assert(k.take(deep.len() as int) =~= (deep + "."@).take(deep.len() as int));
            } else if begins(k, deep + "["@) {
                assert(k.take(deep.len() as int) =~= (deep + "["@).take(deep.len() as int));
            }
        }
        assert(k.take(n + 1) =~= deep.take(n + 1));
        assert(k.take(n + 1) == path + rest.take(1));
    }
}

proof fn lemma_flat_stays(v: JsonTree, path: Seq<char>, out: Seq<(Seq<char>, Seq<char>)>, k: Seq<char>)
    requires
        sorted(out),
        path.len() > 0,
        !at_or_under(k, path),
    ensures
        sorted(flat(v, path, out)),
        entry(flat(v, path, out), k) == entry(out, k),
    decreases v, 1int, 0int,
{
    match v {
        JsonTree::Object(o) => {
            lemma_fields_stay(v, path, false, out, o.len() as int, k);
        },
        JsonTree::Array(a) => {
            lemma_items_stay(v, path, out, a.len() as int, k);
        },
        _ => {
            lemma_with_entry(out, path, leaf_text(v));
        },
    }
}

proof fn lemma_fields_stay(
    v: JsonTree,
    path: Seq<char>,
    named: bool,
    out: Seq<(Seq<char>, Seq<char>)>,
    n: int,
    k: Seq<char>,
)
    requires
        sorted(out),
        path.len() > 0,
        !at_or_under(k, path),
    ensures
        sorted(flat_fields(v, path, named, out, n)),
        entry(flat_fields(v, path, named, out, n), k) == entry(out, k),
    decreases v, 0int, n,
{
    if let JsonTree::Object(o) = v {
        if 0 < n <= o.len() {
            lemma_fields_stay(v, path, named, out, n - 1, k);
            let had = flat_fields(v, path, named, out, n - 1);
            if !(named && o[n - 1].0 == "name"@) {
                reveal_strlit(".");
                let rest = "."@ + o[n - 1].0;
                assert(rest.take(1) =~= "."@);
                assert(path + "."@ + o[n - 1].0 =~= path + rest);
                lemma_deeper(k, path, rest);
                assert(decreases_to!(v => v->Object_0));
                assert(decreases_to!(o => o[n - 1]));
                assert(decreases_to!(o[n - 1] => o[n - 1].1));
                lemma_flat_stays(o[n - 1].1, field_key(path, o[n - 1].0), had, k);
            }
        }
    }
}

proof fn lemma_items_stay(
    v: JsonTree,
    path: Seq<char>,
    out: Seq<(Seq<char>, Seq<char>)>,
    n: int,
    k: Seq<char>,
)
    requires
        sorted(out),
        path.len() > 0,
        !at_or_under(k, path),
    ensures
        sorted(flat_items(v, path, out, n)),
        entry(flat_items(v, path, out, n), k) == entry(out, k),
    decreases v, 0int, n,
{
    if let JsonTree::Array(a) = v {
        if 0 < n <= a.len() {
            lemma_items_stay(v, path, out, n - 1, k);
            let had = flat_items(v, path, out, n - 1);
            let item = a[n - 1];
            reveal_strlit(".");
            reveal_strlit("[");
            assert(decreases_to!(v => v->Array_0));
            assert(decreases_to!(a => a[n - 1]));
            match item_name(item) {
                Some(name) => {
                    let rest = "."@ + name;
                    assert(rest.take(1) =~= "."@);
                    assert(path + "."@ + name =~= path + rest);
                    lemma_deeper(k, path, rest);
                    lemma_fields_stay(item, path + "."@ + name, true, had, item->Object_0.len() as int, k);
                },
                None => {
                    if item is Object || item is Array || is_fingerprint(item) {
                        let rest = "["@ + decimal((n - 1) as nat) + "]"@;
                        assert(rest.take(1) =~= "["@);
                        assert(path + "["@ + decimal((n - 1) as nat) + "]"@ =~= path + rest);
                        lemma_deeper(k, path, rest);
                        lemma_flat_stays(item, path + "["@ + decimal((n - 1) as nat) + "]"@, had, k);
                    } else {
                        let rest = "["@ + json_shown(item) + "]"@;
                        assert(rest.take(1) =~= "["@);
                        assert(path + "["@ + json_shown(item) + "]"@ =~= path + rest);
                        lemma_deeper(k, path, rest);
                        assert(k != path + rest);
                        lemma_with_entry(had, path + "["@ + json_shown(item) + "]"@, "present"@);
                    }
                },
            }
        }
    }
}

proof fn lemma_top(o: Seq<(Seq<char>, JsonTree)>, n: int, i: int)
    requires
        0 <= n <= o.len(),
        0 <= i < o.len(),
        forall|j: int| 0 <= j < o.len() ==> (#[trigger] o[j]).0.len() > 0,
        forall|j: int| 0 <= j < o.len() && j != i ==> !at_or_under(o[i].0, (#[trigger] o[j]).0),
        !(o[i].1 is Object) && !(o[i].1 is Array),
    ensures
        sorted(flat_fields(JsonTree::Object(o), Seq::empty(), false, Seq::empty(), n)),
        i < n ==> entry(flat_fields(JsonTree::Object(o), Seq::empty(), false, Seq::empty(), n), o[i].0) == Some(
            leaf_text(o[i].1),
        ),
    decreases n,
{
    if n > 0 {
        lemma_top(o, n - 1, i);
        let had = flat_fields(JsonTree::Object(o), Seq::empty(), false, Seq::empty(), n - 1);
        lemma_flat(o[n - 1].1, o[n - 1].0, had);
        if i == n - 1 {
            lemma_with_entry(had, o[i].0, leaf_text(o[i].1));
        } else {
            assert(o[n - 1].0.len() > 0);
            lemma_flat_stays(o[n - 1].1, o[n - 1].0, had, o[i].0);
        }
    }
}

/// What a manifest has directly under a name is compared under that name, by how it is written.
pub proof fn law_field_is_compared(o: Seq<(Seq<char>, JsonTree)>, i: int)
    requires
        0 <= i < o.len(),
        forall|j: int| 0 <= j < o.len() ==> (#[trigger] o[j]).0.len() > 0,
        forall|j: int| 0 <= j < o.len() && j != i ==> !at_or_under(o[i].0, (#[trigger] o[j]).0),
        !(o[i].1 is Object) && !(o[i].1 is Array) && !is_fingerprint(o[i].1),
    ensures
        entry(leaves_of(JsonTree::Object(o)), o[i].0) == Some(json_shown(o[i].1)),
{
    lemma_top(o, o.len() as int, i);
}

proof fn lemma_indented(lines: Seq<Seq<char>>, n: int, i: int)
    requires
        0 <= i < n <= lines.len(),
    ensures
        contains(indented(lines, n), "  "@ + lines[i] + "\n"@),
    decreases n,
{
    let x = "  "@ + lines[i] + "\n"@;
    lemma_sides(indented(lines, n - 1), "  "@ + lines[n - 1] + "\n"@, x);
    if i < n - 1 {
        lemma_indented(lines, n - 1, i);
    } else {
        lemma_itself(x);
    }
}

proof fn lemma_group(e: Effect, lines: Seq<Seq<char>>, i: int)
    requires
        0 <= i < lines.len(),
    ensures
        contains(group_shown(e, lines), "  "@ + lines[i] + "\n"@),
{
    lemma_indented(lines, lines.len() as int, i);
    lemma_sides(e.said() + ":\n"@, indented(lines, lines.len() as int), "  "@ + lines[i] + "\n"@);
}

proof fn lemma_shown(digest: Seq<char>, d: DriftView, stale: bool, create_pending: bool, x: Seq<char>)
    requires
        !d.is_none(),
    ensures
        contains(group_shown(Effect::Session, d.session), x) || contains(group_shown(Effect::Host, d.host), x)
            || contains(group_shown(Effect::Restart, d.restart), x) || contains(
            group_shown(Effect::Rebuild, d.rebuild),
            x,
        ) ==> contains(diff_shown(digest, d, stale, create_pending), x),
{
    let a = group_shown(Effect::Session, d.session);
    let b = group_shown(Effect::Host, d.host);
    let c = group_shown(Effect::Restart, d.restart);
    let e = group_shown(Effect::Rebuild, d.rebuild);
    let f = if stale {
        Effect::Rebuild.said() + ":\n  the image's sources have changed since it was built\n"@
    } else {
        Seq::empty()
    };
    let g = pending_shown(create_pending);
    let h = if !stale && attachable(d) {
        "`vk dev up` applies all of it, without a restart\n"@
    } else {
        "`vk dev refresh` applies all of it\n"@
    };
    lemma_sides(a, b, x);
    lemma_sides(a + b, c, x);
    lemma_sides(a + b + c, e, x);
    lemma_sides(a + b + c + e, f, x);
    lemma_sides(a + b + c + e + f, g, x);
    lemma_sides(a + b + c + e + f + g, h, x);
}

/// A difference shows every change that was found, whatever it takes to apply.
pub proof fn law_every_change_is_shown(
    digest: Seq<char>,
    d: DriftView,
    stale: bool,
    create_pending: bool,
    i: int,
)
    ensures
        ({
            let t = diff_shown(digest, d, stale, create_pending);
            &&& 0 <= i < d.session.len() ==> contains(t, "  "@ + d.session[i] + "\n"@)
            &&& 0 <= i < d.host.len() ==> contains(t, "  "@ + d.host[i] + "\n"@)
            &&& 0 <= i < d.restart.len() ==> contains(t, "  "@ + d.restart[i] + "\n"@)
            &&& 0 <= i < d.rebuild.len() ==> contains(t, "  "@ + d.rebuild[i] + "\n"@)
        }),
{
    if 0 <= i < d.session.len() {
        lemma_group(Effect::Session, d.session, i);
        lemma_shown(digest, d, stale, create_pending, "  "@ + d.session[i] + "\n"@);
    }
    if 0 <= i < d.host.len() {
        lemma_group(Effect::Host, d.host, i);
        lemma_shown(digest, d, stale, create_pending, "  "@ + d.host[i] + "\n"@);
    }
    if 0 <= i < d.restart.len() {
        lemma_group(Effect::Restart, d.restart, i);
        lemma_shown(digest, d, stale, create_pending, "  "@ + d.restart[i] + "\n"@);
    }
    if 0 <= i < d.rebuild.len() {
        lemma_group(Effect::Rebuild, d.rebuild, i);
        lemma_shown(digest, d, stale, create_pending, "  "@ + d.rebuild[i] + "\n"@);
    }
}

} // verus!
