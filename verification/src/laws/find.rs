//! Which config is read, and of which workspace.

use crate::config::{CONFIG_FILE, LOCAL_ENV_FILE, LOCAL_FILE};
use crate::discover::{config_among, discovered, first_listed, made_absolute, search_depth, searched};
use crate::names::state_base;
use crate::path::{ancestors_of, is_abs, joined_path, parent_of};
use vstd::prelude::*;
use vstd::utf8::encode_utf8;

verus! {

/// What is named outright is what is read: the config, or the workspace's own; and the workspace
/// that is named, or the directory over the config's own. It has to be there.
pub proof fn law_named_outright(
    from: Seq<u8>,
    workspace: Option<Seq<u8>>,
    config: Option<Seq<u8>>,
    checkouts: Seq<Seq<u8>>,
    files: Seq<Seq<u8>>,
)
    ensures
        discovered(from, workspace, config, checkouts, files) matches Ok(f) ==> {
            &&& files.contains(f.config) || (workspace is None && config is None)
            &&& workspace matches Some(w) ==> f.workspace == w
            &&& config matches Some(c) ==> f.config == c
            &&& config is None ==> (workspace matches Some(w) ==> f.config == joined_path(w, encode_utf8(CONFIG_FILE@)))
            &&& workspace is None ==> (config matches Some(c) ==> (parent_of(c) matches Some(d) ==> (parent_of(
                d,
            ) matches Some(p) ==> f.workspace == p)))
            &&& f.local is Some <==> files.contains(joined_path(f.workspace, encode_utf8(LOCAL_FILE@)))
            &&& f.local matches Some(l) ==> l == joined_path(f.workspace, encode_utf8(LOCAL_FILE@))
            &&& f.local_env is Some <==> files.contains(joined_path(f.workspace, encode_utf8(LOCAL_ENV_FILE@)))
            &&& f.local_env matches Some(l) ==> l == joined_path(f.workspace, encode_utf8(LOCAL_ENV_FILE@))
        },
        config matches Some(c) ==> (discovered(from, workspace, config, checkouts, files) is Ok <==> files.contains(c)),
        config is None ==> (workspace matches Some(w) ==> (discovered(from, workspace, config, checkouts, files) is Ok
            <==> files.contains(joined_path(w, encode_utf8(CONFIG_FILE@))))),
        workspace is None && config is None ==> (discovered(from, workspace, config, checkouts, files) is Ok
            <==> searched(from, checkouts, files) is Some),
{
}

/// A path is taken for what it resolves to, for itself where it is absolute, and else from where
/// the command runs.
pub proof fn law_made_absolute(p: Seq<u8>, resolved: Option<Seq<u8>>, cwd: Result<Seq<u8>, Seq<char>>)
    ensures
        resolved matches Some(r) ==> made_absolute(p, resolved, cwd) == Ok::<Seq<u8>, Seq<char>>(r),
        resolved is None && is_abs(p) ==> made_absolute(p, resolved, cwd) == Ok::<Seq<u8>, Seq<char>>(p),
        resolved is None && !is_abs(p) ==> (made_absolute(p, resolved, cwd) matches Ok(x) ==> cwd matches Ok(d) && x
            == joined_path(d, p)),
        resolved is None && !is_abs(p) && cwd is Ok ==> made_absolute(p, resolved, cwd) is Ok,
{
}

/// State is kept under the state home where there is one, which has to be absolute, and else under
/// the home; nowhere without either.
pub proof fn law_state_is_kept(state_home: Option<Seq<u8>>, home: Option<Seq<u8>>)
    ensures
        ({
            let r = state_base(state_home, home);
            &&& state_home is Some && state_home->0.len() > 0 && is_abs(state_home->0) ==> r == Ok::<
                Seq<u8>,
                Seq<char>,
            >(joined_path(state_home->0, encode_utf8("virtkit/dev"@)))
            &&& state_home is Some && state_home->0.len() > 0 && !is_abs(state_home->0) ==> r is Err
            &&& (state_home is None || state_home->0.len() == 0) && home is Some && home->0.len() > 0 ==> r == Ok::<
                Seq<u8>,
                Seq<char>,
            >(joined_path(home->0, encode_utf8(".local/state/virtkit/dev"@)))
            &&& (state_home is None || state_home->0.len() == 0) && (home is None || home->0.len() == 0) ==> r is Err
        }),
{
}

proof fn lemma_listed_at(v: Seq<Seq<u8>>, listed: Seq<Seq<u8>>, from: int, k: int)
    requires
        0 <= from <= k <= v.len(),
        k < v.len() ==> listed.contains(v[k]),
        forall|j: int| from <= j < k ==> !listed.contains(#[trigger] v[j]),
    ensures
        k < v.len() ==> first_listed(v, listed, from) == Some(k),
        k == v.len() ==> first_listed(v, listed, from) is None,
    decreases k - from,
{
    if from < k {
        assert(!listed.contains(v[from]));
        lemma_listed_at(v, listed, from + 1, k);
    }
}

proof fn lemma_config_at(dirs: Seq<Seq<u8>>, files: Seq<Seq<u8>>, from: int, n: int, i: int)
    requires
        0 <= from <= i <= n <= dirs.len(),
        i < n ==> files.contains(joined_path(dirs[i], encode_utf8(CONFIG_FILE@))),
        forall|j: int| from <= j < i ==> !files.contains(joined_path(#[trigger] dirs[j], encode_utf8(CONFIG_FILE@))),
    ensures
        i < n ==> config_among(dirs, files, from, n) == Some(i),
        i == n ==> config_among(dirs, files, from, n) is None,
    decreases i - from,
{
    if from < i {
        assert(!files.contains(joined_path(dirs[from], encode_utf8(CONFIG_FILE@))));
        lemma_config_at(dirs, files, from + 1, n, i);
    }
}

/// A search goes up to the root of the checkout, and takes the nearest directory that has a config.
pub proof fn law_search_goes_up_to_the_root(
    from: Seq<u8>,
    checkouts: Seq<Seq<u8>>,
    files: Seq<Seq<u8>>,
    root: int,
    i: int,
)
    requires
        0 <= root < ancestors_of(from).len(),
        checkouts.contains(ancestors_of(from)[root]),
        forall|j: int| 0 <= j < root ==> !checkouts.contains(#[trigger] ancestors_of(from)[j]),
        0 <= i <= root + 1,
        forall|j: int|
            0 <= j < i ==> !files.contains(joined_path(#[trigger] ancestors_of(from)[j], encode_utf8(CONFIG_FILE@))),
        i <= root ==> files.contains(joined_path(ancestors_of(from)[i], encode_utf8(CONFIG_FILE@))),
    ensures
        i <= root ==> (searched(from, checkouts, files) matches Some(f) && f.workspace == ancestors_of(from)[i]
            && f.config == joined_path(ancestors_of(from)[i], encode_utf8(CONFIG_FILE@))),
        i == root + 1 ==> searched(from, checkouts, files) is None,
{
    let dirs = ancestors_of(from);
    lemma_listed_at(dirs, checkouts, 0, root);
    assert(search_depth(from, checkouts) == root + 1);
    lemma_config_at(dirs, files, 0, root + 1, i);
}

/// Outside a checkout a search looks in the directory itself.
pub proof fn law_search_outside_a_checkout(from: Seq<u8>, checkouts: Seq<Seq<u8>>, files: Seq<Seq<u8>>)
    requires
        forall|j: int| 0 <= j < ancestors_of(from).len() ==> !checkouts.contains(#[trigger] ancestors_of(from)[j]),
    ensures
        searched(from, checkouts, files) is Some <==> files.contains(joined_path(from, encode_utf8(CONFIG_FILE@))),
        searched(from, checkouts, files) matches Some(f) ==> f.workspace == from,
{
    let dirs = ancestors_of(from);
    lemma_listed_at(dirs, checkouts, 0, dirs.len() as int);
    assert(dirs[0] == from);
    if files.contains(joined_path(from, encode_utf8(CONFIG_FILE@))) {
        lemma_config_at(dirs, files, 0, 1, 0);
    } else {
        lemma_config_at(dirs, files, 0, 1, 1);
    }
}

} // verus!
