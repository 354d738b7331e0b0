//! What passes between an environment and this host.

use crate::boot::policy_script;
use crate::identity::{creator_note, older_release, root_named};
use crate::laws::show::{lemma_itself, lemma_sides};
use crate::laws::units::{law_decimal_reads_back, law_release_reads_back};
use crate::list::{entries_shown, preview_upto, size_shown, EntryView, RowView};
use crate::path::{joined_path, lossy_text, name_of, parent_of, text_of_bytes, under};
use crate::plan::SourceView;
use crate::runargs::{alias_checked, cache_resolved, git_dir_printed, renamed, CacheOptsView};
use crate::shell::word;
use crate::text::{contains, decimal, is_digit, is_space, trimmed, word_end, words_from, words_of};
use crate::units::{bytes_shown, Version};
use vstd::prelude::*;
use vstd::utf8::encode_utf8;

verus! {

/// The registry that is asked for is used, and this host's name for its own is given to no other.
pub proof fn law_cache_of_a_boot(asked: Option<Seq<char>>, insecure: bool, host: CacheOptsView)
    ensures
        ({
            let r = cache_resolved(asked, insecure, host);
            &&& asked is Some ==> r.registry == asked && r.username.len() == 0
            &&& asked is None ==> r.registry == host.registry && r.username == host.username
            &&& r.insecure <==> insecure || host.insecure
        }),
{
    reveal_strlit("");
}

/// A checkout's own repository is mounted besides it only where it stands elsewhere, and is then
/// the directory git printed.
pub proof fn law_repository_elsewhere(workspace: Seq<u8>, printed: Seq<u8>)
    ensures
        git_dir_printed(workspace, printed) matches Some(d) ==> !under(d, workspace) && (text_of_bytes(
            printed,
        ) matches Some(t) && d == encode_utf8(trimmed(t))),
        text_of_bytes(printed) matches Some(t) ==> (git_dir_printed(workspace, printed) is None <==> under(
            encode_utf8(trimmed(t)),
            workspace,
        )),
{
}

/// An environment's guest is known by the name of its state directory.
pub proof fn law_alias(state_dir: Seq<u8>)
    ensures
        name_of(state_dir) matches Some(n) ==> match text_of_bytes(n) {
            Some(t) => alias_checked(state_dir) matches Ok(a) && a == "vk-"@ + lossy_text(n),
            None => alias_checked(state_dir) is Err,
        },
{
}

/// A task's directory stands where its environment's does.
pub proof fn law_beside(b: Seq<u8>, name: Seq<char>)
    ensures
        parent_of(b) matches Some(p) ==> renamed(b, name) == joined_path(p, encode_utf8(name)),
{
}

/// The allowlist's script hands what it is called with to this `vk`, for this workspace and under
/// this policy; there is one wherever both paths are text.
pub proof fn law_policy_script(exe: Seq<u8>, workspace: Seq<u8>, policy: Seq<char>)
    ensures
        policy_script(exe, workspace, policy) is Ok <==> text_of_bytes(exe) is Some && text_of_bytes(workspace) is Some,
        policy_script(exe, workspace, policy) matches Ok(t) ==> {
            &&& contains(t, "exec "@ + word(text_of_bytes(exe)->0) + " host-policy "@ + policy)
            &&& contains(t, " --workspace "@ + word(text_of_bytes(workspace)->0) + " -- \"$@\"\n"@)
        },
{
    if let Ok(t) = policy_script(exe, workspace, policy) {
        let vk = word(text_of_bytes(exe)->0);
        let w = word(text_of_bytes(workspace)->0);
        reveal_strlit("#!/bin/sh\nexec ");
        reveal_strlit("#!/bin/sh\n");
        reveal_strlit("exec ");
        let a = "#!/bin/sh\n"@;
        let b = "exec "@ + vk + " host-policy "@ + policy;
        let c = " --workspace "@ + w + " -- \"$@\"\n"@;
        assert("#!/bin/sh\nexec "@ =~= a + "exec "@);
        assert(t =~= a + b + c);
        lemma_itself(b);
        lemma_itself(c);
        lemma_sides(a, b, b);
        lemma_sides(a + b, c, b);
        lemma_sides(a + b, c, c);
    }
}

/// A generation's root is told by the filesystem's own mark where it has one, else by where it is;
/// without one by the image it is from, or what it is built as.
pub proof fn law_root_is_named(
    root: Option<Seq<u8>>,
    uuid: Option<Seq<char>>,
    source: SourceView,
    label: Seq<char>,
)
    ensures
        ({
            let r = root_named(root, uuid, source, label);
            &&& root is Some ==> (uuid matches Some(u) ==> r == "ext4:"@ + u)
            &&& uuid is None ==> (root matches Some(p) ==> r == "root:"@ + lossy_text(p))
            &&& root is None ==> match source {
                SourceView::Image { reference } => r == "image:"@ + reference,
                _ => r == "label:"@ + label,
            }
        }),
{
}

proof fn lemma_word_ends(s: Seq<char>, i: int, n: int)
    requires
        0 <= i <= n <= s.len(),
        forall|k: int| i <= k < n ==> !is_space(#[trigger] s[k]),
        n < s.len() ==> is_space(s[n]),
    ensures
        word_end(s, i) == n,
    decreases n - i,
{
    if i < n {
        assert(!is_space(s[i]));
        lemma_word_ends(s, i + 1, n);
    }
}

/// An environment that an older release created is told of, with that release; one of this release
/// or a newer is not.
pub proof fn law_older_creator(v: Version, own: Version, commit: Seq<char>)
    ensures
        ({
            let by = "vk "@ + v.spelling() + " ("@ + commit + ")"@;
            let r = older_release(by, own.spelling());
            &&& v.older_than(own) ==> r == Some(v.spelling())
            &&& !v.older_than(own) ==> r is None
            &&& creator_note(by, own.spelling()) is Some <==> v.older_than(own)
        }),
{
    reveal_strlit("vk ");
    reveal_strlit(".");
    reveal_strlit(" (");
    assert("vk "@.len() == 3 && "vk "@[0] == 'v' && "vk "@[1] == 'k' && "vk "@[2] == ' ');
    assert(" ("@.len() == 2 && " ("@[0] == ' ');
    assert("."@ =~= seq!['.']);
    law_release_reads_back(v);
    law_release_reads_back(own);
    law_decimal_reads_back(v.major as nat);
    law_decimal_reads_back(v.minor as nat);
    law_decimal_reads_back(v.patch as nat);
    let a = decimal(v.major as nat);
    let b = decimal(v.minor as nat);
    let c = decimal(v.patch as nat);
    let t = v.spelling();
    assert(t =~= a + seq!['.'] + b + seq!['.'] + c);
    assert forall|k: int| 0 <= k < t.len() implies !is_space(#[trigger] t[k]) by {
        let (x, y) = (a.len() as int, a.len() as int + 1 + b.len());
        if k < x {
            assert(t[k] == a[k]);
            assert(is_digit(a[k]));
        } else if x < k < y {
            assert(t[k] == b[k - x - 1]);
            assert(is_digit(b[k - x - 1]));
        } else if y < k {
            assert(t[k] == c[k - y - 1]);
            assert(is_digit(c[k - y - 1]));
        } else {
            assert(t[k] == '.');
        }
    }
    let s = "vk "@ + t + " ("@ + commit + ")"@;
    let n = 3 + t.len() as int;
    assert(s[0] == 'v' && s[1] == 'k' && s[2] == ' ');
    lemma_word_ends(s, 0, 2);
    assert forall|k: int| 3 <= k < n implies !is_space(#[trigger] s[k]) by {
        assert(s[k] == t[k - 3]);
    }
    assert(s[n] == ' ');
    lemma_word_ends(s, 3, n);
    assert(s.subrange(3, n) =~= t);
    assert(t.len() > 0);
    assert(!is_space(s[3]));
    let w = words_of(s);
    assert(words_from(s, 2) == words_from(s, 3));
    assert(words_from(s, 3) == seq![t] + words_from(s, n));
    assert(w == seq![s.subrange(0, 2)] + words_from(s, 2));
    assert(w[1] == t);
}

proof fn lemma_entry_lines(v: Seq<EntryView>, n: int, i: int)
    requires
        0 <= i < n <= v.len(),
    ensures
        contains(entries_shown(v, n), "    "@ + v[i].name + "  "@ + bytes_shown(v[i].size_bytes) + "\n"@),
    decreases n,
{
    let x = "    "@ + v[i].name + "  "@ + bytes_shown(v[i].size_bytes) + "\n"@;
    let last = "    "@ + v[n - 1].name + "  "@ + bytes_shown(v[n - 1].size_bytes) + "\n"@;
    lemma_sides(entries_shown(v, n - 1), last, x);
    if i < n - 1 {
        lemma_entry_lines(v, n - 1, i);
    } else {
        lemma_itself(x);
    }
}

/// A row's own line of a preview.
pub open spec fn row_line(r: RowView) -> Seq<char> {
    "  "@ + r.name + "  "@ + (match r.workspace {
        Some(w) => lossy_text(w),
        None => "?"@,
    }) + "  "@ + size_shown(r.size_bytes) + "\n"@
}

proof fn lemma_preview(sel: Seq<RowView>, contents: Seq<Seq<EntryView>>, n: int, i: int, x: Seq<char>)
    requires
        0 <= i < n <= sel.len(),
        contains(row_line(sel[i]), x) || contains(entries_shown(contents[i], contents[i].len() as int), x),
    ensures
        contains(preview_upto(sel, contents, n), x),
    decreases n,
{
    let had = preview_upto(sel, contents, n - 1);
    let line = row_line(sel[n - 1]);
    let more = entries_shown(contents[n - 1], contents[n - 1].len() as int);
    lemma_sides(had, line, x);
    lemma_sides(had + line, more, x);
    if i < n - 1 {
        lemma_preview(sel, contents, n - 1, i, x);
    }
}

/// What would be removed is shown beforehand: every environment, and everything in it.
pub proof fn law_removal_is_previewed(sel: Seq<RowView>, contents: Seq<Seq<EntryView>>, i: int, k: int)
    requires
        0 <= i < sel.len(),
        contents.len() == sel.len(),
    ensures
        ({
            let t = preview_upto(sel, contents, sel.len() as int);
            &&& contains(t, row_line(sel[i]))
            &&& 0 <= k < contents[i].len() ==> contains(
                t,
                "    "@ + contents[i][k].name + "  "@ + bytes_shown(contents[i][k].size_bytes) + "\n"@,
            )
        }),
{
    lemma_itself(row_line(sel[i]));
    lemma_preview(sel, contents, sel.len() as int, i, row_line(sel[i]));
    if 0 <= k < contents[i].len() {
        lemma_entry_lines(contents[i], contents[i].len() as int, k);
        lemma_preview(
            sel,
            contents,
            sel.len() as int,
            i,
            "    "@ + contents[i][k].name + "  "@ + bytes_shown(contents[i][k].size_bytes) + "\n"@,
        );
    }
}

} // verus!
