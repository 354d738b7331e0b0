//! What a config comes to when it is layered, and what its env files set.

use crate::config::{Files, Schema};
use crate::entries::{entry, lemma_without, without};
use crate::layers::{at_path, is_secret_key, laid_over, law_layering, leaves_of, leaves_upto};
use crate::loaded::{configuration, env_paths, layers_merged, origins_of, removed_all, MergedView};
use crate::path::joined_path;
use crate::value::{ordered, ordered_entries, Tree};
use vstd::prelude::*;
use vstd::utf8::encode_utf8;

verus! {

proof fn lemma_sub(t: Seq<(Seq<char>, Tree)>, k: Seq<char>)
    requires
        ordered_entries(t),
    ensures
        entry(t, k) matches Some(Tree::Table(s)) ==> ordered_entries(s),
{
    crate::entries::lemma_place(t, k, 0);
    if let Some(Tree::Table(s)) = entry(t, k) {
        let at = crate::entries::place_from(t, k, 0);
        assert(ordered(t[at].1));
        crate::value::lemma_table_is_ordered(s);
    }
}

/// What the upper layer sets anywhere is what is read there, whatever the lower one says.
pub proof fn law_upper_layer_wins(
    base: Seq<(Seq<char>, Tree)>,
    over: Seq<(Seq<char>, Tree)>,
    keys: Seq<Seq<char>>,
    v: Tree,
)
    requires
        ordered_entries(base),
        ordered_entries(over),
        at_path(over, keys) == Some(v),
        !(v is Table),
    ensures
        at_path(laid_over(base, over), keys) == Some(v),
    decreases keys.len(),
{
    law_layering(base, over, keys[0]);
    if keys.len() > 1 {
        lemma_sub(base, keys[0]);
        lemma_sub(over, keys[0]);
        let sub = entry(over, keys[0])->0->Table_0;
        if let Some(Tree::Table(x)) = entry(base, keys[0]) {
            law_upper_layer_wins(x, sub, keys.drop_first(), v);
        }
    }
}

/// The layer says nothing at the path, nor anything on the way to it but tables.
pub open spec fn silent_on(t: Seq<(Seq<char>, Tree)>, keys: Seq<Seq<char>>) -> bool
    decreases keys.len(),
{
    keys.len() > 0 && match entry(t, keys[0]) {
        None => true,
        Some(Tree::Table(sub)) => keys.len() > 1 && silent_on(sub, keys.drop_first()),
        Some(_) => false,
    }
}

/// What the upper layer says nothing on stays as it was below.
pub proof fn law_lower_layer_stays(base: Seq<(Seq<char>, Tree)>, over: Seq<(Seq<char>, Tree)>, keys: Seq<Seq<char>>)
    requires
        ordered_entries(base),
        ordered_entries(over),
        silent_on(over, keys),
    ensures
        at_path(base, keys) is Some ==> at_path(laid_over(base, over), keys) == at_path(base, keys),
    decreases keys.len(),
{
    law_layering(base, over, keys[0]);
    if keys.len() > 1 {
        lemma_sub(base, keys[0]);
        lemma_sub(over, keys[0]);
        if let Some(Tree::Table(x)) = entry(base, keys[0]) {
            if let Some(Tree::Table(sub)) = entry(over, keys[0]) {
                law_lower_layer_stays(x, sub, keys.drop_first());
            }
        }
    }
}

/// A config without a local layer is the project's. With one, all that the local layer sets is set,
/// what it says nothing on is what the project is left with once the local layer's removals are
/// done, and what it says to vk about the layering itself is no part of the config.
pub proof fn law_layers_of_a_config(
    files: Files,
    schema: Schema,
    project: Seq<(Seq<char>, Tree)>,
    local: Option<(Schema, Seq<(Seq<char>, Tree)>)>,
    keys: Seq<Seq<char>>,
    v: Tree,
)
    requires
        ordered_entries(project),
        local matches Some(l) ==> ordered_entries(l.1),
        layers_merged(files, schema, project, local) is Ok,
        keys.len() > 0,
    ensures
        ({
            let m = layers_merged(files, schema, project, local)->Ok_0;
            &&& schema.remove@.len() == 0 && schema.env_files@.len() == 0
            &&& local is None ==> m.merged == project && m.local is None
            &&& local matches Some(l) ==> {
                let left = removed_all(
                    project,
                    l.0.remove.deep_view(),
                    crate::loaded::local_shown(files),
                    l.0.remove@.len() as int,
                );
                &&& left is Ok
                &&& keys[0] != "remove"@ && keys[0] != "env-files"@ && at_path(l.1, keys) == Some(v) && !(v is Table)
                    ==> at_path(m.merged, keys) == Some(v)
                &&& silent_on(l.1, keys) && at_path(left->Ok_0, keys) is Some ==> at_path(m.merged, keys) == at_path(
                    left->Ok_0,
                    keys,
                )
                &&& keys[0] == "remove"@ || keys[0] == "env-files"@ ==> entry(m.merged, keys[0]) == entry(
                    left->Ok_0,
                    keys[0],
                )
            }
        }),
{
    if let Some((s, t)) = local {
        let paths = s.remove.deep_view();
        let at = crate::loaded::local_shown(files);
        let left = removed_all(project, paths, at, s.remove@.len() as int)->Ok_0;
        crate::loaded::law_removals_in_order(project, paths, at, s.remove@.len() as int);
        let u = without(t, "remove"@);
        let c = configuration(t);
        lemma_without(t, "remove"@);
        lemma_without(u, "env-files"@);
        crate::loaded::law_configuration_in_order(t);
        reveal_strlit("remove");
        reveal_strlit("env-files");
        assert("remove"@.len() == 6 && "env-files"@.len() == 9);
        law_layering(left, c, keys[0]);
        assert(keys[0] != "remove"@ && keys[0] != "env-files"@ ==> entry(c, keys[0]) == entry(t, keys[0]));
        assert(keys[0] == "remove"@ || keys[0] == "env-files"@ ==> entry(c, keys[0]) is None);
        if keys[0] != "remove"@ && keys[0] != "env-files"@ {
            if at_path(t, keys) == Some(v) && !(v is Table) {
                assert(at_path(c, keys) == Some(v));
                law_upper_layer_wins(left, c, keys, v);
            }
            if silent_on(t, keys) {
                assert(silent_on(c, keys));
                law_lower_layer_stays(left, c, keys);
            }
        } else if silent_on(t, keys) {
            assert(silent_on(c, keys));
            law_lower_layer_stays(left, c, keys);
        }
    }
}

proof fn lemma_leaf(t: Tree, path: Seq<Seq<char>>, n: int, i: int)
    requires
        t is Table,
        0 <= i < n <= t->Table_0.len(),
        !(t->Table_0[i].1 is Table),
    ensures
        leaves_upto(t, path, n).contains((path.push(t->Table_0[i].0), t->Table_0[i].1)),
    decreases n,
{
    let o = t->Table_0;
    let x = (path.push(o[i].0), o[i].1);
    let had = leaves_upto(t, path, n - 1);
    let now = leaves_upto(t, path, n);
    if i < n - 1 {
        lemma_leaf(t, path, n - 1, i);
        let j = choose|j: int| 0 <= j < had.len() && had[j] == x;
        assert(now[j] == x);
    } else {
        assert(now == had.push(x));
        assert(now[had.len() as int] == x);
    }
}

proof fn lemma_sub_leaf(t: Tree, path: Seq<Seq<char>>, n: int, i: int, x: (Seq<Seq<char>>, Tree))
    requires
        t is Table,
        0 <= i < n <= t->Table_0.len(),
        t->Table_0[i].1 is Table,
        leaves_of(t->Table_0[i].1->Table_0, path.push(t->Table_0[i].0)).contains(x),
    ensures
        leaves_upto(t, path, n).contains(x),
    decreases n,
{
    let o = t->Table_0;
    let had = leaves_upto(t, path, n - 1);
    let now = leaves_upto(t, path, n);
    if i < n - 1 {
        lemma_sub_leaf(t, path, n - 1, i, x);
        let j = choose|j: int| 0 <= j < had.len() && had[j] == x;
        assert(now[j] == x);
    } else {
        let sub = o[i].1->Table_0;
        assert(o[i].1 == Tree::Table(sub));
        let more = leaves_of(sub, path.push(o[i].0));
        let j = choose|j: int| 0 <= j < more.len() && more[j] == x;
        assert(now == had + more);
        assert(now[had.len() + j] == x);
    }
}

proof fn lemma_leaves(t: Seq<(Seq<char>, Tree)>, path: Seq<Seq<char>>, keys: Seq<Seq<char>>, v: Tree)
    requires
        at_path(t, keys) == Some(v),
        !(v is Table),
    ensures
        leaves_of(t, path).contains((path + keys, v)),
    decreases keys.len(),
{
    crate::entries::lemma_place(t, keys[0], 0);
    let at = crate::entries::place_from(t, keys[0], 0);
    let whole = Tree::Table(t);
    assert(whole->Table_0 == t);
    if keys.len() == 1 {
        assert(path + keys =~= path.push(keys[0]));
        lemma_leaf(whole, path, t.len() as int, at);
    } else {
        let sub = entry(t, keys[0])->0->Table_0;
        lemma_leaves(sub, path.push(keys[0]), keys.drop_first(), v);
        assert(path.push(keys[0]) + keys.drop_first() =~= path + keys);
        lemma_sub_leaf(whole, path, t.len() as int, at, (path + keys, v));
    }
}

/// Everything a config sets is listed with where it came from.
pub proof fn law_every_value_is_listed(m: MergedView, keys: Seq<Seq<char>>, v: Tree)
    requires
        at_path(m.merged, keys) == Some(v),
        !(v is Table),
    ensures
        exists|i: int|
            0 <= i < origins_of(m).len() && (#[trigger] origins_of(m)[i]).value == v && origins_of(m)[i].secret
                == is_secret_key(keys),
{
    let none = Seq::<Seq<char>>::empty();
    lemma_leaves(m.merged, none, keys, v);
    assert(none + keys =~= keys);
    let all = leaves_of(m.merged, none);
    let i = choose|i: int| 0 <= i < all.len() && all[i] == (keys, v);
    assert(origins_of(m)[i].value == v);
}

/// What a listing hides is every value of an environment and every build argument, wherever the
/// environment they are of stands, and nothing else.
pub proof fn law_what_is_hidden(keys: Seq<Seq<char>>)
    ensures
        is_secret_key(keys) <==> exists|a: Seq<Seq<char>>, name: Seq<char>|
            keys == #[trigger] (a.push("exec-env"@).push(name)) || keys == a.push("container-env"@).push(name) || keys
                == a.push("env"@).push(name) || keys == a.push("build"@).push("args"@).push(name),
{
    let n = keys.len() as int;
    if n >= 2 {
        let a = keys.take(n - 2);
        let name = keys[n - 1];
        assert(keys =~= a.push(keys[n - 2]).push(name));
        let x = a.push("exec-env"@).push(name);
        if n >= 3 {
            let b = keys.take(n - 3);
            assert(keys =~= b.push(keys[n - 3]).push(keys[n - 2]).push(name));
            let y = b.push("exec-env"@).push(name);
        }
    }
    if exists|a: Seq<Seq<char>>, name: Seq<char>|
        keys == #[trigger] (a.push("exec-env"@).push(name)) || keys == a.push("container-env"@).push(name) || keys
            == a.push("env"@).push(name) || keys == a.push("build"@).push("args"@).push(name) {
        let (a, name) = choose|a: Seq<Seq<char>>, name: Seq<char>|
            keys == #[trigger] (a.push("exec-env"@).push(name)) || keys == a.push("container-env"@).push(name) || keys
                == a.push("env"@).push(name) || keys == a.push("build"@).push("args"@).push(name);
        if keys == a.push("build"@).push("args"@).push(name) {
            assert(keys[n - 3] == "build"@ && keys[n - 2] == "args"@);
        }
    }
}

/// The files that values are read from are the local one, where there is one, and those that are
/// named, in their order and from the workspace.
pub proof fn law_files_of_values(files: Files, named: Seq<Seq<char>>, i: int)
    ensures
        ({
            let v = env_paths(files, named);
            &&& files.local_env matches Some(p) ==> v.len() == named.len() + 1 && v[0] == p.deep_view() && (0 <= i
                < named.len() ==> v[i + 1] == joined_path(files.workspace.deep_view(), encode_utf8(named[i])))
            &&& files.local_env is None ==> v.len() == named.len() && (0 <= i < named.len() ==> v[i] == joined_path(
                files.workspace.deep_view(),
                encode_utf8(named[i]),
            ))
        }),
{
}

} // verus!
