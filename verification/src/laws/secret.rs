//! What becomes of values that this host supplies.

use crate::config::{Environment, Task};
use crate::entries::{entry, keys_of, lemma_place, lemma_with_entry, place_from, sorted};
use crate::laws::vars::{has_value, law_local_environment, law_missing_is_noted, variable};
use crate::loaded::Loaded;
use crate::plan::{SourceView, VsCodeView};
use crate::planning::{hooks_planned, rest_planned, tasks_upto, MountsPlanned};
use crate::resolve::Facts;
use crate::text::{find_from, lemma_find_from, lemma_next_char, next_char};
use crate::vars::{
    begins_at_home, expansion, home_text, law_expansion_keeps, local_parts, missing_text, vars_of, vars_upto, with_rest,
    with_text, with_variable, Expansion, VarsView,
};
use vstd::prelude::*;

verus! {

/// What was met on the way is kept in order.
pub open spec fn neat(v: VarsView) -> bool {
    sorted(v.secrets) && sorted(v.missing)
}

/// What was met before is still known after.
pub open spec fn remembers(v: VarsView, w: VarsView) -> bool {
    &&& forall|k: Seq<char>| entry(v.secrets, k) is Some ==> #[trigger] entry(w.secrets, k) is Some
    &&& forall|k: Seq<char>| entry(v.missing, k) is Some ==> #[trigger] entry(w.missing, k) is Some
}

proof fn lemma_variable(x: Expansion, name: Seq<char>)
    requires
        neat(x.vars),
        with_variable(x, name) is Ok,
    ensures
        neat(with_variable(x, name)->Ok_0.vars),
        remembers(x.vars, with_variable(x, name)->Ok_0.vars),
{
    let y = with_variable(x, name)->Ok_0;
    if let Some((kind, rest)) = crate::text::cut(name, ':') {
        let (var, default) = local_parts(rest);
        lemma_with_entry(x.vars.missing, missing_text(var), ());
        if let Ok(Some(t)) = crate::vars::host_value(x.vars, var) {
            lemma_with_entry(x.vars.secrets, t, ());
        }
    }
}

proof fn lemma_rest(x: Expansion, text: Seq<char>, from: int)
    requires
        neat(x.vars),
        0 <= from <= text.len(),
        with_rest(x, text, from) is Ok,
    ensures
        neat(with_rest(x, text, from)->Ok_0.vars),
        remembers(x.vars, with_rest(x, text, from)->Ok_0.vars),
    decreases text.len() - from,
{
    reveal_strlit("${");
    lemma_find_from(text, "${"@, from);
    if let Some(start) = find_from(text, "${"@, from) {
        lemma_next_char(text, '}', start + 2);
        let end = next_char(text, '}', start + 2);
        let h = with_text(x, text.subrange(from, start));
        lemma_variable(h, text.subrange(start + 2, end));
        let y = with_variable(h, text.subrange(start + 2, end))->Ok_0;
        lemma_rest(y, text, end + 1);
    }
}

/// To read one more text forgets nothing that was met before it.
pub proof fn law_nothing_met_is_forgotten(v: VarsView, text: Seq<char>)
    requires
        neat(v),
        expansion(v, text) is Ok,
    ensures
        neat(expansion(v, text)->Ok_0.vars),
        remembers(v, expansion(v, text)->Ok_0.vars),
{
    let none = Expansion { value: Seq::empty(), sensitive: false, vars: v };
    if begins_at_home(text) {
        let h = Expansion { value: Seq::<char>::empty() + home_text(v)->Ok_0, ..none };
        lemma_rest(h, text, 1);
        law_expansion_keeps(h, text, 1);
    } else {
        lemma_rest(none, text, 0);
        law_expansion_keeps(none, text, 0);
    }
}

proof fn lemma_map(v: VarsView, map: Seq<(Seq<char>, Seq<char>)>, n: int)
    requires
        neat(v),
        0 <= n <= map.len(),
        vars_upto(v, map, n) is Ok,
    ensures
        neat(vars_upto(v, map, n)->Ok_0.1),
        remembers(v, vars_upto(v, map, n)->Ok_0.1),
        vars_upto(v, map, n)->Ok_0.0.len() == n,
        vars_upto(v, map, n)->Ok_0.1.env == v.env,
        vars_upto(v, map, n)->Ok_0.1.env_file == v.env_file,
    decreases n,
{
    if n > 0 {
        lemma_map(v, map, n - 1);
        let w = vars_upto(v, map, n - 1)->Ok_0.1;
        law_nothing_met_is_forgotten(w, map[n - 1].1);
        lemma_same_env(w, map[n - 1].1);
    }
}

proof fn lemma_same_env(v: VarsView, text: Seq<char>)
    requires
        expansion(v, text) is Ok,
    ensures
        expansion(v, text)->Ok_0.vars.env == v.env,
        expansion(v, text)->Ok_0.vars.env_file == v.env_file,
{
    let none = Expansion { value: Seq::empty(), sensitive: false, vars: v };
    if begins_at_home(text) {
        let h = Expansion { value: Seq::<char>::empty() + home_text(v)->Ok_0, ..none };
        law_expansion_keeps(h, text, 1);
    } else {
        law_expansion_keeps(none, text, 0);
    }
}

/// A variable of a config that stands for one of this host's values has that value, is marked as
/// such, and the value is known as a secret from there on.
pub proof fn law_value_of_this_host(
    v: VarsView,
    map: Seq<(Seq<char>, Seq<char>)>,
    n: int,
    i: int,
    name: Seq<char>,
    value: Seq<char>,
)
    requires
        neat(v),
        0 <= i < n <= map.len(),
        vars_upto(v, map, n) is Ok,
        !name.contains('}') && !name.contains(':'),
        map[i].1 == variable("localEnv:"@ + name),
        has_value(v, name, value) && value.len() > 0,
    ensures
        vars_upto(v, map, n)->Ok_0.0[i].name == map[i].0,
        vars_upto(v, map, n)->Ok_0.0[i].value == value,
        vars_upto(v, map, n)->Ok_0.0[i].sensitive,
        entry(vars_upto(v, map, n)->Ok_0.1.secrets, value) is Some,
    decreases n,
{
    lemma_map(v, map, n - 1);
    let (had, w) = vars_upto(v, map, n - 1)->Ok_0;
    let (now, u) = vars_upto(v, map, n)->Ok_0;
    law_nothing_met_is_forgotten(w, map[n - 1].1);
    if i < n - 1 {
        law_value_of_this_host(v, map, n - 1, i, name, value);
        assert(now[i] == had[i]);
    } else {
        assert(!Seq::<char>::empty().contains('}'));
        law_local_environment(w, name, value, Seq::empty());
    }
}

/// A variable of a config that this host has nothing for, and that has no default, is noted as
/// missing from there on.
pub proof fn law_value_is_missing(
    v: VarsView,
    map: Seq<(Seq<char>, Seq<char>)>,
    n: int,
    i: int,
    name: Seq<char>,
)
    requires
        neat(v),
        0 <= i < n <= map.len(),
        vars_upto(v, map, n) is Ok,
        !name.contains('}') && !name.contains(':'),
        map[i].1 == variable("localEnv:"@ + name),
        entry(v.env, name) is None && entry(v.env_file, name) is None,
    ensures
        vars_upto(v, map, n)->Ok_0.0[i].value.len() == 0,
        entry(vars_upto(v, map, n)->Ok_0.1.missing, missing_text(name)) is Some,
    decreases n,
{
    lemma_map(v, map, n - 1);
    let (had, w) = vars_upto(v, map, n - 1)->Ok_0;
    let (now, u) = vars_upto(v, map, n)->Ok_0;
    law_nothing_met_is_forgotten(w, map[n - 1].1);
    if i < n - 1 {
        law_value_is_missing(v, map, n - 1, i, name);
        assert(now[i] == had[i]);
    } else {
        law_missing_is_noted(w, name);
    }
}

proof fn lemma_tasks(c: Seq<(String, Task)>, at: Seq<char>, l: Loaded, v: VarsView, n: int)
    requires
        neat(v),
        0 <= n <= c.len(),
        tasks_upto(c, at, l, v, n) is Ok,
    ensures
        neat(tasks_upto(c, at, l, v, n)->Ok_0.1),
        remembers(v, tasks_upto(c, at, l, v, n)->Ok_0.1),
    decreases n,
{
    if n > 0 {
        lemma_tasks(c, at, l, v, n - 1);
        let w = tasks_upto(c, at, l, v, n - 1)->Ok_0.1;
        let map = c[n - 1].1.env.deep_view();
        if c[n - 1].1.enabled {
            lemma_map(w, map, map.len() as int);
        }
    }
}

proof fn lemma_key(s: Seq<(Seq<char>, ())>, k: Seq<char>)
    requires
        entry(s, k) is Some,
    ensures
        keys_of(s).contains(k),
{
    lemma_place(s, k, 0);
    assert(keys_of(s)[place_from(s, k, 0)] == k);
}

/// A plan knows every value of this host that its guest's environment is given, so that it can be
/// kept out of what is shown and recorded.
pub proof fn law_plan_knows_its_secrets(
    l: Loaded,
    e: Environment,
    name: Seq<char>,
    at: Seq<char>,
    workspace: Seq<u8>,
    config: Seq<u8>,
    state: Seq<u8>,
    f: Facts,
    source: SourceView,
    vscode: Option<VsCodeView>,
    mounts: MountsPlanned,
    i: int,
    var: Seq<char>,
    value: Seq<char>,
)
    requires
        rest_planned(l, e, name, at, workspace, config, state, f, source, vscode, mounts) is Ok,
        neat(hooks_planned(mounts.vars, e, at)->Ok_0.1),
        0 <= i < e.container_env.deep_view().len(),
        !var.contains('}') && !var.contains(':'),
        e.container_env.deep_view()[i].1 == variable("localEnv:"@ + var),
        has_value(hooks_planned(mounts.vars, e, at)->Ok_0.1, var, value) && value.len() > 0,
    ensures
        ({
            let p = rest_planned(l, e, name, at, workspace, config, state, f, source, vscode, mounts)->Ok_0;
            &&& p.container_env[i].value == value
            &&& p.container_env[i].sensitive
            &&& p.secrets.contains(value)
            &&& p.managed_dirs == mounts.managed
        }),
{
    let v1 = hooks_planned(mounts.vars, e, at)->Ok_0.1;
    let a = e.container_env.deep_view();
    let b = e.exec_env.deep_view();
    law_value_of_this_host(v1, a, a.len() as int, i, var, value);
    lemma_map(v1, a, a.len() as int);
    let v2 = vars_of(v1, a)->Ok_0.1;
    lemma_map(v2, b, b.len() as int);
    let v3 = vars_of(v2, b)->Ok_0.1;
    lemma_tasks(e.tasks@, at, l, v3, e.tasks@.len() as int);
    let v4 = tasks_upto(e.tasks@, at, l, v3, e.tasks@.len() as int)->Ok_0.1;
    assert(entry(v2.secrets, value) is Some);
    assert(entry(v3.secrets, value) is Some);
    assert(entry(v4.secrets, value) is Some);
    lemma_key(v4.secrets, value);
}

/// A plan names every variable its guest's environment refers to that this host does not have.
pub proof fn law_plan_names_what_is_missing(
    l: Loaded,
    e: Environment,
    name: Seq<char>,
    at: Seq<char>,
    workspace: Seq<u8>,
    config: Seq<u8>,
    state: Seq<u8>,
    f: Facts,
    source: SourceView,
    vscode: Option<VsCodeView>,
    mounts: MountsPlanned,
    i: int,
    var: Seq<char>,
)
    requires
        rest_planned(l, e, name, at, workspace, config, state, f, source, vscode, mounts) is Ok,
        neat(hooks_planned(mounts.vars, e, at)->Ok_0.1),
        0 <= i < e.container_env.deep_view().len(),
        !var.contains('}') && !var.contains(':'),
        e.container_env.deep_view()[i].1 == variable("localEnv:"@ + var),
        entry(hooks_planned(mounts.vars, e, at)->Ok_0.1.env, var) is None,
        entry(hooks_planned(mounts.vars, e, at)->Ok_0.1.env_file, var) is None,
    ensures
        rest_planned(l, e, name, at, workspace, config, state, f, source, vscode, mounts)->Ok_0.unresolved.contains(
            missing_text(var),
        ),
{
    let v1 = hooks_planned(mounts.vars, e, at)->Ok_0.1;
    let a = e.container_env.deep_view();
    let b = e.exec_env.deep_view();
    law_value_is_missing(v1, a, a.len() as int, i, var);
    lemma_map(v1, a, a.len() as int);
    let v2 = vars_of(v1, a)->Ok_0.1;
    lemma_map(v2, b, b.len() as int);
    let v3 = vars_of(v2, b)->Ok_0.1;
    lemma_tasks(e.tasks@, at, l, v3, e.tasks@.len() as int);
    let v4 = tasks_upto(e.tasks@, at, l, v3, e.tasks@.len() as int)->Ok_0.1;
    assert(entry(v2.missing, missing_text(var)) is Some);
    assert(entry(v3.missing, missing_text(var)) is Some);
    assert(entry(v4.missing, missing_text(var)) is Some);
    lemma_key(v4.missing, missing_text(var));
}

} // verus!
