//! What a prune takes, and what it leaves.

use crate::laws::show::{lemma_itself, lemma_sides};
use crate::path::{comps, joined_path, lossy_text, relative_to, same_path, under};
use crate::prune::{
    candidates_of, considered, covered, external_shown, is_service, known_backings, lemma_slot, media_candidates,
    media_names, media_upto, overlaps_any, preview_shown, selected, service_media, service_prefix, services_upto, slot,
    stays_inside, storage_candidates, storage_upto, takes_storage, targets_shown, targets_upto, under_any,
    with_candidate, CandidatesView, Category, EnvView, KindView, Options, SelectionView, TargetView,
};
use crate::text::contains;
use vstd::prelude::*;
use vstd::utf8::encode_utf8;

verus! {

/// The path is among the candidates, as one of that kind.
pub open spec fn among(v: Seq<TargetView>, p: Seq<u8>, c: Category) -> bool {
    exists|i: int| 0 <= i < v.len() && same_path((#[trigger] v[i]).path, p) && v[i].category == c
}

proof fn lemma_added(v: Seq<TargetView>, p: Seq<u8>, c: Category, q: Seq<u8>, d: Category)
    ensures
        among(with_candidate(v, p, c), p, c),
        among(v, q, d) && (c == d || !same_path(p, q)) ==> among(with_candidate(v, p, c), q, d),
{
    let at = slot(v, p, 0);
    lemma_slot(v, p, 0);
    let w = with_candidate(v, p, c);
    let same = at < v.len() && same_path(v[at].path, p);
    assert(same_path(w[at].path, p) && w[at].category == c);
    if among(v, q, d) && (c == d || !same_path(p, q)) {
        let i = choose|i: int| 0 <= i < v.len() && same_path((#[trigger] v[i]).path, q) && v[i].category == d;
        if same {
            assert(w[i].path == v[i].path);
            if i == at {
                assert(w[i].category == c);
            } else {
                assert(w[i] == v[i]);
            }
        } else if i < at {
            assert(w[i] == v[i]);
        } else {
            assert(w[i + 1] == v[i]);
        }
    }
}

proof fn lemma_storage(inside: Seq<Seq<u8>>, n: int, i: int)
    requires
        0 <= i < n <= inside.len(),
    ensures
        among(storage_candidates(inside, n), inside[i], Category::Storage),
    decreases n,
{
    lemma_added(storage_candidates(inside, n - 1), inside[n - 1], Category::Storage, inside[i], Category::Storage);
    if i < n - 1 {
        lemma_storage(inside, n - 1, i);
    }
}

proof fn lemma_media(had: Seq<TargetView>, media: Seq<Seq<u8>>, inside: Seq<Seq<u8>>, n: int, i: int, k: int)
    requires
        0 <= n <= media.len(),
    ensures
        0 <= i < inside.len() && among(had, inside[i], Category::Storage) ==> among(
            media_candidates(had, media, inside, n),
            inside[i],
            Category::Storage,
        ),
        0 <= k < n && !overlaps_any(media[k], inside) ==> among(
            media_candidates(had, media, inside, n),
            media[k],
            Category::Images,
        ),
    decreases n,
{
    if n > 0 {
        lemma_media(had, media, inside, n - 1, i, k);
        let c = media_candidates(had, media, inside, n - 1);
        let m = media[n - 1];
        if !overlaps_any(m, inside) {
            if 0 <= i < inside.len() {
                if same_path(m, inside[i]) {
                    assert(comps(m).take(comps(m).len() as int) =~= comps(m));
                    assert(under(m, inside[i]));
                }
                lemma_added(c, m, Category::Images, inside[i], Category::Storage);
            }
            if 0 <= k < media.len() {
                lemma_added(c, m, Category::Images, media[k], Category::Images);
            }
        }
    }
}

/// The name is one that boot media has.
pub open spec fn names_media(t: Seq<char>) -> bool {
    ||| t == "root.qcow2"@
    ||| t == "root.qcow2.json"@
    ||| t == "root.ext4"@
    ||| t == "root.ext4.json"@
    ||| t == "overlay.qcow2"@
    ||| t == "image.ext4"@
    ||| t == "image.ext4.json"@
    ||| t == "initramfs.cpio"@
    ||| t == "vmlinuz"@
}

proof fn lemma_media_at(t: Seq<char>) -> (i: int)
    requires
        names_media(t),
    ensures
        0 <= i < media_names().len() && media_names()[i] == t,
{
    let m = media_names();
    if t == m[0] {
        0
    } else if t == m[1] {
        1
    } else if t == m[2] {
        2
    } else if t == m[3] {
        3
    } else if t == m[4] {
        4
    } else if t == m[5] {
        5
    } else if t == m[6] {
        6
    } else if t == m[7] {
        7
    } else {
        8
    }
}

proof fn lemma_service_at(services: Seq<Seq<u8>>, n: int, s: int, f: int) -> (k: int)
    requires
        0 <= n <= services.len(),
        0 <= f <= media_names().len(),
        s < n,
        s < 0 ==> f < media_names().len(),
    ensures
        0 <= k < media_upto(services, n).len(),
        s < 0 ==> media_upto(services, n)[k] == encode_utf8(media_names()[f]),
        s >= 0 && f < media_names().len() ==> media_upto(services, n)[k] == joined_path(
            services[s],
            encode_utf8(media_names()[f]),
        ),
        s >= 0 && f == media_names().len() ==> media_upto(services, n)[k] == joined_path(
            services[s],
            services[s].skip(service_prefix().len() as int) + encode_utf8("-overlay.qcow2"@),
        ),
    decreases n,
{
    if n == 0 {
        f
    } else {
        let had = media_upto(services, n - 1);
        if s == n - 1 {
            assert(service_media(services[s]).len() == media_names().len() + 1);
            assert(media_upto(services, n)[had.len() + f] == service_media(services[s])[f]);
            had.len() + f
        } else {
            let k = lemma_service_at(services, n - 1, s, f);
            assert(media_upto(services, n)[k] == had[k]);
            k
        }
    }
}

/// Every path of the storage is a candidate where storage is taken; every file of the primary's and
/// a service's boot media, and a service's own overlay, is one where images are, unless it and the
/// storage overlap.
pub proof fn law_candidates(
    opts: Options,
    inside: Seq<Seq<u8>>,
    services: Seq<Seq<u8>>,
    i: int,
    s: int,
    name: Seq<char>,
)
    ensures
        ({
            let c = candidates_of(opts, inside, services);
            &&& (opts.storage || opts.all) && 0 <= i < inside.len() ==> among(c, inside[i], Category::Storage)
            &&& (opts.images || opts.all || !opts.storage) ==> {
                &&& names_media(name) && !overlaps_any(encode_utf8(name), inside) ==> among(
                    c,
                    encode_utf8(name),
                    Category::Images,
                )
                &&& 0 <= s < services.len() ==> {
                    let file = joined_path(services[s], encode_utf8(name));
                    let own = joined_path(
                        services[s],
                        services[s].skip(encode_utf8("svc-"@).len() as int) + encode_utf8("-overlay.qcow2"@),
                    );
                    &&& names_media(name) && !overlaps_any(file, inside) ==> among(c, file, Category::Images)
                    &&& !overlaps_any(own, inside) ==> among(c, own, Category::Images)
                }
            }
        }),
{
    let n = services.len() as int;
    let media = media_upto(services, n);
    let had = if opts.takes_storage() {
        storage_candidates(inside, inside.len() as int)
    } else {
        Seq::empty()
    };
    if opts.takes_storage() && 0 <= i < inside.len() {
        lemma_storage(inside, inside.len() as int, i);
        lemma_media(had, media, inside, media.len() as int, i, -1);
    }
    if names_media(name) {
        let f = lemma_media_at(name);
        let k = lemma_service_at(services, n, -1, f);
        lemma_media(had, media, inside, media.len() as int, -1, k);
        if 0 <= s < services.len() {
            let k = lemma_service_at(services, n, s, f);
            lemma_media(had, media, inside, media.len() as int, -1, k);
        }
    }
    if 0 <= s < services.len() {
        let k = lemma_service_at(services, n, s, media_names().len() as int);
        lemma_media(had, media, inside, media.len() as int, -1, k);
    }
}

/// A backing stands in the state directory, by either of its paths.
pub open spec fn stands_in(b: Seq<u8>, state: Seq<u8>, canonical: Seq<u8>) -> bool {
    relative_to(b, state) is Some || relative_to(b, canonical) is Some
}

proof fn lemma_storage_listed(b: Seq<Seq<u8>>, state: Seq<u8>, canonical: Seq<u8>, n: int, i: int)
    requires
        0 <= i < n <= b.len(),
        storage_upto(b, state, canonical, n) is Ok,
    ensures
        ({
            let s = storage_upto(b, state, canonical, n)->Ok_0;
            &&& relative_to(b[i], state) matches Some(rel) ==> s.inside.contains(rel)
            &&& relative_to(b[i], state) is None ==> (relative_to(b[i], canonical) matches Some(rel)
                ==> s.inside.contains(rel))
            &&& !stands_in(b[i], state, canonical) ==> exists|j: int|
                0 <= j < s.external.len() && same_path(#[trigger] s.external[j], b[i])
        }),
    decreases n,
{
    let now = storage_upto(b, state, canonical, n)->Ok_0;
    let had = storage_upto(b, state, canonical, n - 1)->Ok_0;
    let x = b[n - 1];
    if i < n - 1 {
        lemma_storage_listed(b, state, canonical, n - 1, i);
        assert forall|r: Seq<u8>| had.inside.contains(r) implies now.inside.contains(r) by {
            let j = choose|j: int| 0 <= j < had.inside.len() && had.inside[j] == r;
            assert(now.inside[j] == r);
        }
        if !stands_in(b[i], state, canonical) {
            let j = choose|j: int| 0 <= j < had.external.len() && same_path(#[trigger] had.external[j], b[i]);
            if !stands_in(x, state, canonical) {
                let at = crate::prune::path_slot(had.external, x, 0);
                lemma_path_slot(had.external, x, 0);
                if at < had.external.len() && same_path(had.external[at], x) || j < at {
                    assert(now.external[j] == had.external[j]);
                } else {
                    assert(now.external[j + 1] == had.external[j]);
                }
            } else {
                assert(now.external == had.external);
            }
        }
    } else if stands_in(x, state, canonical) {
        assert(now.inside[had.inside.len() as int] == now.inside.last());
        assert(now.inside.contains(now.inside.last()));
    } else {
        let at = crate::prune::path_slot(had.external, x, 0);
        lemma_path_slot(had.external, x, 0);
        assert(same_path(now.external[at], x));
    }
}

proof fn lemma_path_slot(v: Seq<Seq<u8>>, p: Seq<u8>, from: int)
    requires
        0 <= from <= v.len(),
    ensures
        from <= crate::prune::path_slot(v, p, from) <= v.len(),
    decreases v.len() - from,
{
    if from < v.len() && crate::prune::path_before(v[from], p) {
        lemma_path_slot(v, p, from + 1);
    }
}

proof fn lemma_fixed_storage(b: Seq<Seq<u8>>, state: Seq<u8>, canonical: Seq<u8>, n: int)
    requires
        0 <= n <= b.len(),
        storage_upto(b, state, canonical, n) is Ok,
    ensures
        ({
            let s = storage_upto(b, state, canonical, n)->Ok_0.inside;
            &&& s.len() >= 3
            &&& s[0] == encode_utf8("roots"@)
            &&& s[1] == encode_utf8("overlays"@)
            &&& s[2] == encode_utf8("editor"@)
        }),
    decreases n,
{
    if n > 0 {
        lemma_fixed_storage(b, state, canonical, n - 1);
    }
}

/// The storage of an environment is what it always keeps, and every backing the config declares: one
/// in the state directory by its place there, one elsewhere as it stands.
pub proof fn law_storage_is_all_of_it(b: Seq<Seq<u8>>, state: Seq<u8>, canonical: Seq<u8>, i: int)
    ensures
        storage_upto(b, state, canonical, b.len() as int) matches Ok(s) ==> {
            &&& s.inside.contains(encode_utf8("roots"@))
            &&& s.inside.contains(encode_utf8("overlays"@))
            &&& s.inside.contains(encode_utf8("editor"@))
            &&& 0 <= i < b.len() ==> {
                &&& relative_to(b[i], state) matches Some(rel) ==> s.inside.contains(rel)
                &&& relative_to(b[i], state) is None ==> (relative_to(b[i], canonical) matches Some(rel)
                    ==> s.inside.contains(rel))
                &&& !stands_in(b[i], state, canonical) ==> exists|j: int|
                    0 <= j < s.external.len() && same_path(#[trigger] s.external[j], b[i])
            }
        },
{
    if let Ok(s) = storage_upto(b, state, canonical, b.len() as int) {
        lemma_fixed_storage(b, state, canonical, b.len() as int);
        assert(s.inside.contains(s.inside[0]) && s.inside.contains(s.inside[1]) && s.inside.contains(s.inside[2]));
        if 0 <= i < b.len() {
            lemma_storage_listed(b, state, canonical, b.len() as int, i);
        }
    }
}

proof fn lemma_services(entries: Seq<Seq<u8>>, inside: Seq<Seq<u8>>, n: int, e: Seq<u8>)
    requires
        0 <= n <= entries.len(),
    ensures
        services_upto(entries, inside, n).contains(e) <==> is_service(e, inside) && entries.take(n).contains(e),
    decreases n,
{
    let now = services_upto(entries, inside, n);
    if n > 0 {
        lemma_services(entries, inside, n - 1, e);
        let had = services_upto(entries, inside, n - 1);
        let x = entries[n - 1];
        assert(entries.take(n) =~= entries.take(n - 1).push(x));
        let t = entries.take(n - 1);
        if t.contains(e) {
            let j = choose|j: int| 0 <= j < t.len() && t[j] == e;
            assert(t.push(x)[j] == e);
        }
        if t.push(x).contains(e) && e != x {
            let j = choose|j: int| 0 <= j < t.push(x).len() && t.push(x)[j] == e;
            assert(t[j] == e);
        }
        assert(t.push(x)[n - 1] == x);
        if is_service(x, inside) {
            assert(now[had.len() as int] == x);
            if had.contains(e) {
                let j = choose|j: int| 0 <= j < had.len() && had[j] == e;
                assert(now[j] == e);
            }
            if now.contains(e) && e != x {
                let j = choose|j: int| 0 <= j < now.len() && now[j] == e;
                assert(had[j] == e);
            }
        }
    } else {
        assert(now.len() == 0);
    }
}

/// The services of an environment are the entries of its state directory that are named as such and
/// hold no storage.
pub proof fn law_services(entries: Seq<Seq<u8>>, inside: Seq<Seq<u8>>, rest: Seq<u8>, e: Seq<u8>)
    ensures
        ({
            let v = services_upto(entries, inside, entries.len() as int);
            &&& v.contains(e) ==> entries.contains(e) && !under_any(e, inside)
            &&& v.contains(encode_utf8("svc-"@) + rest) <==> entries.contains(encode_utf8("svc-"@) + rest) && !under_any(
                encode_utf8("svc-"@) + rest,
                inside,
            )
        }),
{
    let n = entries.len() as int;
    assert(entries.take(n) =~= entries);
    lemma_services(entries, inside, n, e);
    let named = encode_utf8("svc-"@) + rest;
    lemma_services(entries, inside, n, named);
    assert(named.take(service_prefix().len() as int) =~= service_prefix());
}

proof fn lemma_taken(state: Seq<u8>, paths: Seq<TargetView>, kinds: Seq<KindView>, n: int, i: int)
    requires
        0 <= i < n <= paths.len(),
        targets_upto(state, paths, kinds, n) is Ok,
        kinds[i] is File || kinds[i] is Dir,
    ensures
        covered(paths[i].path, targets_upto(state, paths, kinds, n)->Ok_0),
    decreases n,
{
    let had = targets_upto(state, paths, kinds, n - 1)->Ok_0;
    let now = targets_upto(state, paths, kinds, n)->Ok_0;
    let p = paths[i].path;
    if i < n - 1 {
        lemma_taken(state, paths, kinds, n - 1, i);
    }
    if covered(p, had) {
        let j = choose|j: int| 0 <= j < had.len() && under(p, (#[trigger] had[j]).path);
        assert(now[j] == had[j]);
    } else {
        assert(now[had.len() as int] == paths[i]);
        assert(comps(p).take(comps(p).len() as int) =~= comps(p));
        assert(under(p, now[had.len() as int].path));
    }
}

proof fn lemma_selects(state: Seq<u8>, paths: Seq<TargetView>, kinds: Seq<KindView>, n: int)
    requires
        0 <= n <= paths.len(),
        forall|i: int| 0 <= i < paths.len() ==> stays_inside((#[trigger] paths[i]).path),
        forall|i: int|
            0 <= i < paths.len() ==> (#[trigger] kinds[i]) is Missing || kinds[i] is File || kinds[i] is Dir && paths[i].category
                == Category::Storage,
    ensures
        targets_upto(state, paths, kinds, n) is Ok,
    decreases n,
{
    if n > 0 {
        lemma_selects(state, paths, kinds, n - 1);
        assert(stays_inside(paths[n - 1].path));
        assert(kinds[n - 1] is Missing || kinds[n - 1] is File || kinds[n - 1] is Dir);
    }
}

proof fn lemma_there(state: Seq<u8>, paths: Seq<TargetView>, kinds: Seq<KindView>, n: int, j: int)
    requires
        0 <= n <= paths.len(),
        targets_upto(state, paths, kinds, n) is Ok,
        0 <= j < targets_upto(state, paths, kinds, n)->Ok_0.len(),
    ensures
        exists|i: int|
            0 <= i < n && #[trigger] paths[i] == targets_upto(state, paths, kinds, n)->Ok_0[j] && (kinds[i] is File
                || kinds[i] is Dir && paths[i].category == Category::Storage),
    decreases n,
{
    if n > 0 {
        let had = targets_upto(state, paths, kinds, n - 1)->Ok_0;
        let now = targets_upto(state, paths, kinds, n)->Ok_0;
        if j < had.len() {
            lemma_there(state, paths, kinds, n - 1, j);
            let i = choose|i: int|
                0 <= i < n - 1 && #[trigger] paths[i] == had[j] && (kinds[i] is File || kinds[i] is Dir && paths[i].category
                    == Category::Storage);
            assert(paths[i] == now[j]);
        } else {
            assert(paths[n - 1] == now[j]);
        }
    }
}

/// A prune takes every candidate that is there, itself or with what it stands under, nothing that
/// was not one or is not there, and a directory only as storage. Where it takes anything it takes
/// the creation hook's stamp before the rest, so that the hook runs again; where nothing odd is
/// found it goes through.
pub proof fn law_selection(
    env: EnvView,
    c: CandidatesView,
    kinds: Seq<KindView>,
    stamp: KindView,
    i: int,
    j: int,
)
    requires
        kinds.len() == c.paths.len(),
    ensures
        selected(env, c, kinds, stamp) matches Ok(s) ==> {
            &&& s.external == c.external && s.warn_incomplete == c.warn_incomplete
            &&& 0 <= i < c.paths.len() && (kinds[i] is File || kinds[i] is Dir) ==> covered(c.paths[i].path, s.targets)
            &&& 0 <= j < s.targets.len() ==> {
                ||| j == 0 && s.targets[j].path == encode_utf8("lifecycle/create"@) && s.targets[j].category
                    == Category::HookStamp && stamp is File
                ||| exists|k: int|
                    0 <= k < c.paths.len() && #[trigger] c.paths[k] == s.targets[j] && (kinds[k] is File || kinds[k] is Dir
                        && c.paths[k].category == Category::Storage)
            }
            &&& stamp is File && 0 <= i < c.paths.len() && (kinds[i] is File || kinds[i] is Dir)
                ==> s.targets[0].path == encode_utf8("lifecycle/create"@)
        },
        (forall|k: int| 0 <= k < c.paths.len() ==> stays_inside((#[trigger] c.paths[k]).path)) && (forall|k: int|
            0 <= k < c.paths.len() ==> (#[trigger] kinds[k]) is Missing || kinds[k] is File || kinds[k] is Dir
                && c.paths[k].category == Category::Storage) && (stamp is Missing || stamp is File) && stays_inside(
            encode_utf8("lifecycle/create"@),
        ) ==> selected(env, c, kinds, stamp) is Ok,
{
    let n = c.paths.len() as int;
    if let Ok(s) = selected(env, c, kinds, stamp) {
        let t = targets_upto(env.state_dir, c.paths, kinds, n)->Ok_0;
        let off = s.targets.len() - t.len();
        if 0 <= i < n && (kinds[i] is File || kinds[i] is Dir) {
            lemma_taken(env.state_dir, c.paths, kinds, n, i);
            let k = choose|k: int| 0 <= k < t.len() && under(c.paths[i].path, (#[trigger] t[k]).path);
            assert(s.targets[k + off] == t[k]);
        }
        if 0 <= j < s.targets.len() && j >= off {
            lemma_there(env.state_dir, c.paths, kinds, n, j - off);
            assert(s.targets[j] == t[j - off]);
        }
    }
    if (forall|k: int| 0 <= k < c.paths.len() ==> stays_inside((#[trigger] c.paths[k]).path)) && (forall|k: int|
        0 <= k < c.paths.len() ==> (#[trigger] kinds[k]) is Missing || kinds[k] is File || kinds[k] is Dir
            && c.paths[k].category == Category::Storage) {
        lemma_selects(env.state_dir, c.paths, kinds, n);
    }
}

proof fn lemma_target_lines(state: Seq<u8>, t: Seq<TargetView>, n: int, i: int)
    requires
        0 <= i < n <= t.len(),
    ensures
        contains(
            targets_shown(state, t, n),
            "  remove ["@ + t[i].category.said() + "] "@ + lossy_text(joined_path(state, t[i].path)) + "\n"@,
        ),
    decreases n,
{
    let s = "  remove ["@ + t[i].category.said() + "] "@ + lossy_text(joined_path(state, t[i].path)) + "\n"@;
    let last = "  remove ["@ + t[n - 1].category.said() + "] "@ + lossy_text(joined_path(state, t[n - 1].path)) + "\n"@;
    lemma_sides(targets_shown(state, t, n - 1), last, s);
    if i < n - 1 {
        lemma_target_lines(state, t, n - 1, i);
    } else {
        lemma_itself(s);
    }
}

proof fn lemma_external_lines(v: Seq<Seq<u8>>, n: int, i: int)
    requires
        0 <= i < n <= v.len(),
    ensures
        contains(external_shown(v, n), "  keep [external storage] "@ + lossy_text(v[i]) + "\n"@),
    decreases n,
{
    let s = "  keep [external storage] "@ + lossy_text(v[i]) + "\n"@;
    lemma_sides(external_shown(v, n - 1), "  keep [external storage] "@ + lossy_text(v[n - 1]) + "\n"@, s);
    if i < n - 1 {
        lemma_external_lines(v, n - 1, i);
    } else {
        lemma_itself(s);
    }
}

/// What a prune says beforehand names everything it would remove and everything it leaves, and
/// warns where contents will be lost.
pub proof fn law_preview(env: EnvView, s: SelectionView, i: int)
    ensures
        ({
            let t = preview_shown(env, s);
            &&& contains(t, "environment "@ + env.environment + " ("@ + lossy_text(env.state_dir) + ")\n"@)
            &&& 0 <= i < s.targets.len() ==> contains(
                t,
                "  remove ["@ + (match s.targets[i].category {
                    Category::HookStamp => "hook stamp"@,
                    Category::Images => "images"@,
                    Category::Storage => "storage"@,
                }) + "] "@ + lossy_text(joined_path(env.state_dir, s.targets[i].path)) + "\n"@,
            )
            &&& 0 <= i < s.external.len() ==> contains(
                t,
                "  keep [external storage] "@ + lossy_text(s.external[i]) + "\n"@,
            )
            &&& 0 <= i < s.targets.len() && s.targets[i].category == Category::Storage ==> contains(
                t,
                "selected persistent storage contents will be lost\n"@,
            )
        }),
{
    let a = "environment "@ + env.environment + " ("@ + lossy_text(env.state_dir) + ")\n"@;
    let b = targets_shown(env.state_dir, s.targets, s.targets.len() as int);
    let c = external_shown(s.external, s.external.len() as int);
    let d = if takes_storage(s.targets) {
        "selected persistent storage contents will be lost\n"@
    } else {
        Seq::empty()
    };
    let e = if s.warn_incomplete {
        "note: this environment's declared storage was not recorded (booted by an older vk); any disk backing left loose in the state directory cannot be identified — prune from its workspace, or boot it once to record it\n"@
    } else {
        Seq::empty()
    };
    let f = "shared image/build caches, environment identity and SSH keys are kept\n"@;
    lemma_itself(a);
    lemma_itself(d);
    lemma_six(a, b, c, d, e, f, a);
    lemma_six(a, b, c, d, e, f, d);
    if 0 <= i < s.targets.len() {
        let t = s.targets[i];
        lemma_target_lines(env.state_dir, s.targets, s.targets.len() as int, i);
        lemma_six(
            a,
            b,
            c,
            d,
            e,
            f,
            "  remove ["@ + t.category.said() + "] "@ + lossy_text(joined_path(env.state_dir, t.path)) + "\n"@,
        );
    }
    if 0 <= i < s.external.len() {
        lemma_external_lines(s.external, s.external.len() as int, i);
        lemma_six(a, b, c, d, e, f, "  keep [external storage] "@ + lossy_text(s.external[i]) + "\n"@);
    }
}

proof fn lemma_six(
    a: Seq<char>,
    b: Seq<char>,
    c: Seq<char>,
    d: Seq<char>,
    e: Seq<char>,
    f: Seq<char>,
    s: Seq<char>,
)
    ensures
        contains(a, s) || contains(b, s) || contains(c, s) || contains(d, s) ==> contains(a + b + c + d + e + f, s),
{
    lemma_sides(a, b, s);
    lemma_sides(a + b, c, s);
    lemma_sides(a + b + c, d, s);
    lemma_sides(a + b + c + d, e, s);
    lemma_sides(a + b + c + d + e, f, s);
}

/// A prune considers nothing while the environment or a service of it is up, and refuses storage
/// that is the state directory itself.
pub proof fn law_running_is_left_alone(
    env: EnvView,
    opts: Options,
    canonical: Seq<u8>,
    running: Seq<Seq<u8>>,
    entries: Seq<Seq<u8>>,
    i: int,
)
    ensures
        0 <= i < running.len() && under(running[i], canonical) ==> considered(env, opts, canonical, running, entries) is Err,
        considered(env, opts, canonical, running, entries) matches Ok(c) ==> c.warn_incomplete == (env.backings is None),
        env.backings is None && (forall|k: int| 0 <= k < running.len() ==> !under(#[trigger] running[k], canonical))
            ==> considered(env, opts, canonical, running, entries) is Ok,
{
    if env.backings is None {
        assert(known_backings(env).len() == 0);
    }
}

} // verus!
