//! What state directories are called.

use crate::digest::{hex_upto, sha256_of};
use crate::names::{
    byte_len, environment_name, environment_suffix, folded_task, parts_of, room_under, state_dir_under, task_state_name,
    NamePartsView, READABLE_MAX,
};
use crate::path::{joined_path, name_of, parent_of};
use crate::text::{begins, contains, ends, is_alnum};
use vstd::prelude::*;
use vstd::utf8::encode_utf8;

verus! {

/// A directory is told by the name of the workspace, as far as a path may spell it, and of the
/// environment, unless that is the one a workspace has by default.
pub proof fn law_names_are_readable(workspace: Seq<u8>, environment: Seq<char>, digest: Seq<u8>, i: int)
    ensures
        ({
            let p = parts_of(workspace, environment, digest);
            &&& p.slug == hex_upto(digest, 8)
            &&& environment == "dev"@ ==> p.suffix.len() == 0
            &&& environment != "dev"@ ==> p.suffix == "-"@ + environment
            &&& name_of(workspace) matches Some(n) ==> n.len() > 0 ==> {
                &&& p.readable.len() == if n.len() < READABLE_MAX {
                    n.len() as int
                } else {
                    READABLE_MAX as int
                }
                &&& 0 <= i < p.readable.len() ==> p.readable[i] == n[i] as char || p.readable[i] == '-' && !is_alnum(
                    n[i] as char,
                ) && n[i] as char != '.'
            }
        }),
{
    reveal_strlit("dev");
}

/// The room left for the readable part of a directory's name.
pub open spec fn left(p: NamePartsView, base: Seq<u8>) -> int {
    room_under(base) - byte_len(p.suffix) - 1 - byte_len(p.slug)
}

/// A directory's name is the readable part, cut only where it has to be, the environment and what
/// tells it from others; there is none where there is no room for a character of it.
pub proof fn law_environment_directory(p: NamePartsView, base: Seq<u8>)
    ensures
        environment_name(p, base) is Ok <==> left(p, base) >= 1,
        left(p, base) >= 1 && p.readable.len() <= left(p, base) ==> environment_name(p, base) == Ok::<
            Seq<char>,
            Seq<char>,
        >(p.readable + p.suffix + "-"@ + p.slug),
        environment_name(p, base) matches Ok(n) ==> ends(n, p.suffix + "-"@ + p.slug) && (p.readable.len() > left(
            p,
            base,
        ) ==> begins(n, p.readable.take(left(p, base)))),
{
    if environment_name(p, base) is Ok {
        let n = environment_name(p, base)->Ok_0;
        let fits = left(p, base);
        let k = if fits < p.readable.len() {
            fits
        } else {
            p.readable.len() as int
        };
        let head = p.readable.take(k);
        let tail = p.suffix + "-"@ + p.slug;
        assert(n =~= head + tail);
        assert(n.skip(n.len() - tail.len()) =~= tail);
        assert(n.take(k) =~= head);
        if p.readable.len() <= fits {
            assert(head =~= p.readable);
        }
    }
}

/// An environment's state is kept under the base, in a directory of the environment's own name.
pub proof fn law_state_directory(base: Seq<u8>, workspace: Seq<u8>, environment: Seq<char>)
    ensures
        state_dir_under(base, workspace, environment) matches Ok(d) ==> exists|n: Seq<char>|
            d == joined_path(base, #[trigger] encode_utf8(n)) && ends(
                n,
                environment_suffix(environment) + "-"@ + hex_upto(
                    sha256_of(workspace.push(0u8) + encode_utf8(environment)),
                    8,
                ),
            ),
{
    let digest = sha256_of(workspace.push(0u8) + encode_utf8(environment));
    let p = parts_of(workspace, environment, digest);
    law_environment_directory(p, base);
    if let Ok(n) = environment_name(p, base) {
        assert(state_dir_under(base, workspace, environment) == Ok::<Seq<u8>, Seq<char>>(
            joined_path(base, encode_utf8(n)),
        ));
    }
}

/// A task's directory stands beside its environment's, says that it is a task's and ends in the
/// token that tells one run of it from another.
pub proof fn law_task_directory(
    state_dir: Seq<u8>,
    workspace: Seq<u8>,
    environment: Seq<char>,
    task: Seq<char>,
    token: Seq<char>,
)
    ensures
        parent_of(state_dir) is None ==> task_state_name(state_dir, workspace, environment, task, token) is Err,
        task_state_name(state_dir, workspace, environment, task, token) matches Ok(n) ==> ends(n, "-"@ + token)
            && contains(n, "-task-"@),
{
    if let Ok(n) = task_state_name(state_dir, workspace, environment, task, token) {
        let base = parent_of(state_dir)->0;
        let p = parts_of(workspace, environment, sha256_of(workspace.push(0u8) + encode_utf8(environment)));
        let name = folded_task(task);
        let avail = crate::names::task_room(p, base, token);
        let a = p.readable.take(crate::names::readable_kept(p, name, avail)) + p.suffix;
        let b = name.take(crate::names::task_kept(p, name, avail)) + "-"@ + token;
        assert(n =~= a + "-task-"@ + b);
        crate::laws::show::lemma_part(a, "-task-"@, b);
        let tail = "-"@ + token;
        assert(n.skip(n.len() - tail.len()) =~= tail);
    }
}

/// A task's name is spelled by its letters and digits, and a dash for anything else.
pub proof fn law_task_names(task: Seq<char>, i: int)
    requires
        0 <= i < task.len(),
    ensures
        folded_task(task).len() == task.len(),
        is_alnum(task[i]) ==> folded_task(task)[i] == task[i],
        !is_alnum(task[i]) ==> folded_task(task)[i] == '-',
{
}

} // verus!
