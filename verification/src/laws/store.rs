//! Which mounts are an environment's own storage.

use crate::config::Environment;
use crate::path::{comps, relative_to, under};
use crate::plan::MountView;
use crate::planning::{all_mounts_planned, taken_by};
use crate::resolve::{
    is_reserved, law_no_share_holds_the_state, meant, mounts_planned, shares_upto, storage_planned, Facts, VolumeView,
};
use crate::vars::VarsView;
use vstd::prelude::*;

verus! {

proof fn lemma_before(
    mounts: Seq<(MountView, Option<VolumeView>)>,
    state: Seq<u8>,
    canonical: Seq<(Seq<u8>, Seq<u8>)>,
    n: int,
    i: int,
)
    requires
        0 <= i < n <= mounts.len(),
        shares_upto(mounts, state, canonical, n) is Ok,
    ensures
        ({
            let s = shares_upto(mounts, state, canonical, n)->Ok_0;
            mounts[i].1 matches Some(v) ==> {
                let rel = relative_to(meant(canonical, v.host), state);
                &&& rel matches Some(r) ==> comps(r).len() > 0 && !is_reserved(comps(r)[0]) && s.managed.contains(v.host)
                &&& rel is None ==> s.others.contains((mounts[i].0.name, v, meant(canonical, v.host)))
            }
        }),
    decreases n,
{
    let had = shares_upto(mounts, state, canonical, n - 1)->Ok_0;
    let now = shares_upto(mounts, state, canonical, n)->Ok_0;
    if i < n - 1 {
        lemma_before(mounts, state, canonical, n - 1, i);
        if let Some(v) = mounts[i].1 {
            let x = (mounts[i].0.name, v, meant(canonical, v.host));
            if had.managed.contains(v.host) {
                let j = choose|j: int| 0 <= j < had.managed.len() && had.managed[j] == v.host;
                assert(now.managed[j] == v.host);
            }
            if had.others.contains(x) {
                let j = choose|j: int| 0 <= j < had.others.len() && had.others[j] == x;
                assert(now.others[j] == x);
            }
        }
    } else if let Some(v) = mounts[i].1 {
        if relative_to(meant(canonical, v.host), state) is Some {
            assert(now.managed[had.managed.len() as int] == v.host);
        } else {
            assert(now.others[had.others.len() as int] == (mounts[i].0.name, v, meant(canonical, v.host)));
        }
    }
}

/// A mount whose source stands in the state directory is storage of the environment, and is refused
/// where that is the directory itself or an entry of the host's own; a share through which the
/// guest could write may not hold the state directory.
pub proof fn law_storage_of_the_mounts(
    mounts: Seq<(MountView, Option<VolumeView>)>,
    state_dir: Seq<u8>,
    canonical: Seq<(Seq<u8>, Seq<u8>)>,
    state_check: Option<Seq<char>>,
    i: int,
)
    requires
        0 <= i < mounts.len(),
    ensures
        ({
            let state = meant(canonical, state_dir);
            storage_planned(mounts, state_dir, canonical, state_check) matches Ok(m) ==> {
                &&& state_check is None
                &&& mounts[i].1 matches Some(v) ==> {
                    let rel = relative_to(meant(canonical, v.host), state);
                    &&& rel matches Some(r) ==> comps(r).len() > 0 && !is_reserved(comps(r)[0]) && m.contains(v.host)
                    &&& rel is None && !v.read_only && !v.overlay && !v.disk && !v.socket ==> !under(
                        state,
                        meant(canonical, v.host),
                    )
                }
            }
        }),
{
    let state = meant(canonical, state_dir);
    if storage_planned(mounts, state_dir, canonical, state_check) is Ok {
        let n = mounts.len() as int;
        lemma_before(mounts, state, canonical, n, i);
        let s = shares_upto(mounts, state, canonical, n)->Ok_0;
        if let Some(v) = mounts[i].1 {
            let x = (mounts[i].0.name, v, meant(canonical, v.host));
            if s.others.contains(x) {
                let j = choose|j: int| 0 <= j < s.others.len() && s.others[j] == x;
                law_no_share_holds_the_state(s.others, state, s.others.len() as int, j);
            }
        }
    }
}

proof fn lemma_managed(
    mounts: Seq<(MountView, Option<VolumeView>)>,
    state: Seq<u8>,
    canonical: Seq<(Seq<u8>, Seq<u8>)>,
    n: int,
    j: int,
)
    requires
        0 <= n <= mounts.len(),
        shares_upto(mounts, state, canonical, n) is Ok,
        0 <= j < shares_upto(mounts, state, canonical, n)->Ok_0.managed.len(),
    ensures
        exists|i: int|
            0 <= i < n && (#[trigger] mounts[i]).1 is Some && mounts[i].1->0.host == shares_upto(
                mounts,
                state,
                canonical,
                n,
            )->Ok_0.managed[j],
    decreases n,
{
    if n > 0 {
        let had = shares_upto(mounts, state, canonical, n - 1)->Ok_0;
        let now = shares_upto(mounts, state, canonical, n)->Ok_0;
        if j < had.managed.len() {
            lemma_managed(mounts, state, canonical, n - 1, j);
            assert(now.managed[j] == had.managed[j]);
            let i = choose|i: int|
                0 <= i < n - 1 && (#[trigger] mounts[i]).1 is Some && mounts[i].1->0.host == had.managed[j];
            assert(mounts[i].1 is Some);
        } else {
            assert(mounts[n - 1].1 is Some);
        }
    }
}

/// Nothing is storage of the environment that no mount names.
pub proof fn law_storage_is_mounted(
    mounts: Seq<(MountView, Option<VolumeView>)>,
    state_dir: Seq<u8>,
    canonical: Seq<(Seq<u8>, Seq<u8>)>,
    state_check: Option<Seq<char>>,
    j: int,
)
    ensures
        storage_planned(mounts, state_dir, canonical, state_check) matches Ok(m) ==> (0 <= j < m.len() ==> exists|i: int|
            0 <= i < mounts.len() && (#[trigger] mounts[i]).1 is Some && mounts[i].1->0.host == m[j]),
{
    if let Ok(m) = storage_planned(mounts, state_dir, canonical, state_check) {
        if 0 <= j < m.len() {
            lemma_managed(mounts, meant(canonical, state_dir), canonical, mounts.len() as int, j);
        }
    }
}

/// The managed directories of an environment are the storage its mounts name, and the editor's own.
pub proof fn law_managed_directories(
    e: Environment,
    at: Seq<char>,
    workspace: Seq<u8>,
    state: Seq<u8>,
    v: VarsView,
    own: Option<MountView>,
    f: Facts,
    j: int,
)
    requires
        all_mounts_planned(e, at, workspace, state, v, own, f) is Ok,
    ensures
        ({
            let r = all_mounts_planned(e, at, workspace, state, v, own, f)->Ok_0;
            let s = mounts_planned(e, at, workspace, v, taken_by(own), f.shares.deep_view())->Ok_0;
            let m = storage_planned(s.done, state, f.canonical.deep_view(), f.state_check.deep_view());
            &&& m is Ok
            &&& 0 <= j < m->Ok_0.len() ==> r.managed.contains(m->Ok_0[j])
            &&& own matches Some(x) ==> r.managed.contains(x.source)
            &&& r.managed.len() == m->Ok_0.len() + if own is Some {
                1int
            } else {
                0int
            }
        }),
{
    let r = all_mounts_planned(e, at, workspace, state, v, own, f)->Ok_0;
    let s = mounts_planned(e, at, workspace, v, taken_by(own), f.shares.deep_view())->Ok_0;
    let m = storage_planned(s.done, state, f.canonical.deep_view(), f.state_check.deep_view())->Ok_0;
    if 0 <= j < m.len() {
        assert(r.managed[j] == m[j]);
    }
    if let Some(x) = own {
        assert(r.managed[m.len() as int] == x.source);
    }
}

} // verus!
