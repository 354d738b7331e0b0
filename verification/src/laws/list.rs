//! What a listing says of a state directory.

use crate::entries::entry;
use crate::list::{contents_of, entry_place, flags_of, row_of, EntryView, Flag, ListedView, StateDirView, Status};
use crate::path::{lossy_text, name_of, parent_of, same_path};
use crate::text::ends;
use crate::value::JsonTree;
use vstd::prelude::*;
use vstd::utf8::encode_utf8;

verus! {

/// What an environment recorded under a key of its manifest, where that is a text.
pub open spec fn recorded(d: StateDirView, key: Seq<char>) -> Option<Seq<char>> {
    if d.identity is None {
        None
    } else {
        match d.identity->0.manifest {
            JsonTree::Object(o) => match entry(o, key) {
                Some(JsonTree::Text(t)) => Some(t),
                _ => None,
            },
            _ => None,
        }
    }
}

/// A VM is up on the directory, by the name it is listed under or by what that resolves to.
pub open spec fn has_vm(d: StateDirView, running: Seq<Seq<u8>>) -> bool {
    exists|i: int|
        0 <= i < running.len() && (same_path(#[trigger] running[i], d.dir) || (d.canonical matches Some(c) && same_path(
            running[i],
            c,
        )))
}

/// A row says of a state directory what is so: its own name, what its boot recorded, whether a VM is
/// up on it, how long ago it was booted, and that its workspace is gone or its boot unrecorded.
pub proof fn law_row(d: StateDirView, running: Seq<Seq<u8>>, now: u64)
    ensures
        ({
            let r = row_of(d, running, now);
            &&& r.dir == d.dir && r.size_bytes == d.size_bytes
            &&& name_of(d.dir) matches Some(n) ==> r.name == lossy_text(n)
            &&& r.status == Status::Running <==> has_vm(d, running)
            &&& r.status == Status::Stopped <==> !has_vm(d, running) && d.identity is Some
            &&& recorded(d, "workspace"@) matches Some(w) ==> r.workspace == Some(encode_utf8(w))
            &&& recorded(d, "workspace"@) is None ==> r.workspace is None
            &&& r.environment == recorded(d, "environment"@)
            &&& d.identity is None ==> r.booted_secs is None && r.age_secs is None && r.created_by is None
            &&& d.identity matches Some(i) ==> {
                &&& r.booted_secs == Some(i.booted_secs)
                &&& i.booted_secs <= now ==> r.age_secs == Some((now - i.booted_secs) as u64)
                &&& i.created_by.len() > 0 ==> r.created_by == Some(i.created_by)
            }
            &&& r.flags.contains(Flag::Ephemeral) <==> d.identity is None
            &&& r.flags.contains(Flag::WorkspaceMissing) <==> (recorded(d, "workspace"@) matches Some(w)
                && !d.existing.contains(encode_utf8(w)) && (parent_of(encode_utf8(w)) matches Some(p)
                && d.existing.contains(p)))
            &&& r.is_stale() <==> !has_vm(d, running) && (r.flags.contains(Flag::Ephemeral) || r.flags.contains(
                Flag::WorkspaceMissing,
            ))
        }),
{
    let f = flags_of(d);
    let gone = crate::list::workspace_gone(crate::list::workspace_of(d.identity), d.existing);
    if gone && d.identity is None {
        assert(crate::list::workspace_of(d.identity) is None);
    }
    if gone {
        assert(f[0] == Flag::WorkspaceMissing);
    }
    if d.identity is None {
        assert(f[0] == Flag::Ephemeral);
    }
}

proof fn lemma_place(v: Seq<EntryView>, name: Seq<char>, from: int)
    requires
        0 <= from <= v.len(),
    ensures
        from <= entry_place(v, name, from) <= v.len(),
    decreases v.len() - from,
{
    if from < v.len() && !crate::text::before(name, v[from].name) {
        lemma_place(v, name, from + 1);
    }
}

/// What is listed as held in a directory is everything in it that no VM makes for itself, each by
/// its name and size.
pub proof fn law_held(v: Seq<ListedView>, n: int, i: int)
    requires
        0 <= i < n <= v.len(),
    ensures
        !v[i].socket && !ends(lossy_text(v[i].name), ".log"@) ==> contents_of(v, n).contains(
            EntryView { name: lossy_text(v[i].name), size_bytes: v[i].size_bytes },
        ),
        contents_of(v, n).len() <= n,
    decreases n,
{
    let had = contents_of(v, n - 1);
    let now = contents_of(v, n);
    let e = EntryView { name: lossy_text(v[n - 1].name), size_bytes: v[n - 1].size_bytes };
    lemma_place(had, e.name, 0);
    let k = entry_place(had, e.name, 0);
    if n > 1 {
        law_held(v, n - 1, if i < n - 1 { i } else { 0 });
    } else {
        assert(had.len() == 0);
    }
    if !v[i].socket && !ends(lossy_text(v[i].name), ".log"@) {
        let x = EntryView { name: lossy_text(v[i].name), size_bytes: v[i].size_bytes };
        if i == n - 1 {
            assert(now[k] == x);
        } else {
            let j = choose|j: int| 0 <= j < had.len() && had[j] == x;
            if now == had {
                assert(now[j] == x);
            } else {
                assert(now[if j < k { j } else { j + 1 }] == x);
            }
        }
    }
}

} // verus!
