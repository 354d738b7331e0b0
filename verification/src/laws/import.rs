//! What a draft made from a devcontainer file sets is what that file says.

use crate::devcontainer::{
    fields_of, lifecycle_tree, rewritten, texts_tree, toml_of_json, Config, Lifecycle, Mount, OneOrMany, Port, Virtkit,
};
use crate::draft::{DraftView, EntryView};
use crate::entries::{entry, lemma_with_entry, with_entry};
use crate::path::{
    comps, dot, is_abs, joined_path, law_folds_to, law_joined_components, law_normal_idempotent, law_normal_is_folded,
    law_rest_leads_back, normal, parent_of, relative_to, text_of_bytes, under,
};
use crate::text::{contains, occurs_at, replaced_from};
use crate::translate::{
    begun, build_args, config_dir, env_set, has_compose, inside_context, mount_name, mounts_upto, omitted_if, port_of,
    ports_upto, rebased, settings_path, settings_upto, texts_among, told_apart, translated, virtkit_of, with_being,
    with_build, with_command_notes, with_compose, with_cpus, with_docker_notes, with_dockerfile, with_editor, with_env,
    with_extensions, with_folder, with_hook, with_hooks, with_host, with_image, with_machine, with_mount,
    with_other_keys, with_other_tools, with_place, with_port, with_port_notes, with_service, with_settings, with_source,
    with_target,
};
use crate::value::{JsonTree, Tree};
use vstd::prelude::*;
use vstd::utf8::{decode_utf8, decode_utf8_encode_utf8, encode_utf8, encode_utf8_valid_utf8, valid_utf8};

verus! {

/// The draft has the entry in the table at that path.
#[verifier::opaque]
pub open spec fn sets(d: DraftView, path: Seq<Seq<char>>, e: EntryView) -> bool {
    exists|i: int, j: int|
        0 <= i < d.sections.len() && d.sections[i].path == path && 0 <= j < d.sections[i].entries.len()
            && #[trigger] d.sections[i].entries[j] == e
}

/// Every entry of one draft is in the other, in the same table.
#[verifier::opaque]
spec fn extends(a: DraftView, b: DraftView) -> bool {
    &&& a.sections.len() <= b.sections.len()
    &&& forall|i: int|
        0 <= i < a.sections.len() ==> {
            &&& (#[trigger] b.sections[i]).path == a.sections[i].path
            &&& a.sections[i].entries.len() <= b.sections[i].entries.len()
            &&& b.sections[i].entries.take(a.sections[i].entries.len() as int) == a.sections[i].entries
        }
}

proof fn lemma_still_set(a: DraftView, b: DraftView, path: Seq<Seq<char>>, e: EntryView)
    requires
        extends(a, b),
        sets(a, path, e),
    ensures
        sets(b, path, e),
{
    reveal(extends);
    reveal(sets);
    let (i, j) = choose|i: int, j: int|
        0 <= i < a.sections.len() && a.sections[i].path == path && 0 <= j < a.sections[i].entries.len()
            && #[trigger] a.sections[i].entries[j] == e;
    assert(b.sections[i].path == path);
    let n = a.sections[i].entries.len() as int;
    assert(b.sections[i].entries.take(n)[j] == e);
    assert(b.sections[i].entries[j] == e);
}

broadcast proof fn lemma_same_sections(a: DraftView, b: DraftView)
    requires
        a.sections == b.sections,
    ensures
        #[trigger] extends(a, b),
{
    reveal(extends);
    assert forall|i: int| 0 <= i < a.sections.len() implies b.sections[i].entries.take(
        a.sections[i].entries.len() as int,
    ) == (#[trigger] b.sections[i]).entries by {
        assert(b.sections[i].entries.take(a.sections[i].entries.len() as int) =~= b.sections[i].entries);
    }
}

proof fn lemma_extends_on(a: DraftView, b: DraftView, c: DraftView)
    requires
        extends(a, b),
        extends(b, c),
    ensures
        extends(a, c),
{
    reveal(extends);
    assert forall|i: int| 0 <= i < a.sections.len() implies {
        &&& (#[trigger] c.sections[i]).path == a.sections[i].path
        &&& a.sections[i].entries.len() <= c.sections[i].entries.len()
        &&& c.sections[i].entries.take(a.sections[i].entries.len() as int) == a.sections[i].entries
    } by {
        assert(b.sections[i].path == a.sections[i].path);
        let n = a.sections[i].entries.len() as int;
        let m = b.sections[i].entries.len() as int;
        assert(c.sections[i].entries.take(n) =~= c.sections[i].entries.take(m).take(n));
    }
}

/// The table that entries go to.
spec fn at(d: DraftView, path: Seq<Seq<char>>) -> bool {
    d.sections.len() > 0 && d.sections.last().path == path
}

proof fn lemma_entered(d: DraftView, path: Seq<Seq<char>>, e: EntryView)
    requires
        at(d, path),
    ensures
        extends(d, d.entry(e)),
        at(d.entry(e), path),
        sets(d.entry(e), path, e),
{
    reveal(extends);
    reveal(sets);
    let r = d.entry(e);
    let n = d.sections.len() - 1;
    assert forall|i: int| 0 <= i < d.sections.len() implies {
        &&& (#[trigger] r.sections[i]).path == d.sections[i].path
        &&& d.sections[i].entries.len() <= r.sections[i].entries.len()
        &&& r.sections[i].entries.take(d.sections[i].entries.len() as int) == d.sections[i].entries
    } by {
        assert(r.sections[i].entries.take(d.sections[i].entries.len() as int) =~= d.sections[i].entries);
    }
    assert(r.sections[n].entries[d.sections[n].entries.len() as int] == e);
}

proof fn lemma_sectioned(d: DraftView, path: Seq<Seq<char>>)
    ensures
        extends(d, d.section(path)),
        at(d.section(path), path),
{
    reveal(extends);
    let r = d.section(path);
    assert forall|i: int| 0 <= i < d.sections.len() implies {
        &&& (#[trigger] r.sections[i]).path == d.sections[i].path
        &&& d.sections[i].entries.len() <= r.sections[i].entries.len()
        &&& r.sections[i].entries.take(d.sections[i].entries.len() as int) == d.sections[i].entries
    } by {
        assert(r.sections[i] == d.sections[i]);
        assert(r.sections[i].entries.take(d.sections[i].entries.len() as int) =~= d.sections[i].entries);
    }
}

/// The table `dev`.
pub open spec fn dev() -> Seq<Seq<char>> {
    seq!["dev"@]
}

proof fn lemma_begun(config_path: Seq<u8>, workspace: Seq<u8>)
    ensures
        at(begun(config_path, workspace), dev()),
{
    reveal_strlit("dev");
    reveal_strlit("requires");
    assert("dev"@.len() == 3 && "requires"@.len() == 8);
    assert(seq!["requires"@][0] != seq!["dev"@][0]);
}

proof fn lemma_rebased(d: DraftView, dir: Seq<u8>, workspace: Seq<u8>, key: Seq<char>, p: Seq<char>)
    ensures
        rebased(d, dir, workspace, key, p).0.sections == d.sections,
{
}

proof fn lemma_rebased_files(d: DraftView, dir: Seq<u8>, workspace: Seq<u8>, files: Seq<Seq<char>>, n: int)
    ensures
        crate::translate::rebased_upto(d, dir, workspace, files, n).0.sections == d.sections,
    decreases n,
{
    if n > 0 {
        lemma_rebased_files(d, dir, workspace, files, n - 1);
    }
}

proof fn lemma_rewritten(d: DraftView, key: Seq<char>, s: Seq<char>, folder: Option<Seq<char>>)
    ensures
        rewritten(d, key, s, folder).0.sections == d.sections,
{
}

/// Replacing what is not there changes nothing.
proof fn lemma_not_replaced(h: Seq<char>, n: Seq<char>, w: Seq<char>, from: int)
    requires
        0 <= from <= h.len(),
        n.len() > 0,
        !contains(h, n),
    ensures
        replaced_from(h, n, w, from) == h.skip(from),
    decreases h.len() - from,
{
    if from < h.len() {
        lemma_not_replaced(h, n, w, from + 1);
        assert(!occurs_at(h, n, from));
        assert(seq![h[from]] + h.skip(from + 1) =~= h.skip(from));
    } else {
        assert(h.skip(from) =~= Seq::<char>::empty());
    }
}

/// A text that refers to nothing.
pub open spec fn plain(s: Seq<char>) -> bool {
    forall|i: int| 0 <= i < s.len() ==> s[i] != '$'
}

proof fn lemma_plain_holds_none(s: Seq<char>, n: Seq<char>)
    requires
        plain(s),
        n.len() > 0,
        n[0] == '$',
    ensures
        !contains(s, n),
{
    if contains(s, n) {
        let i = choose|i: int| occurs_at(s, n, i);
        assert(s.subrange(i, i + n.len())[0] == n[0]);
    }
}

proof fn lemma_plain(d: DraftView, key: Seq<char>, s: Seq<char>, folder: Option<Seq<char>>)
    requires
        plain(s),
    ensures
        rewritten(d, key, s, folder).1 == s,
{
    reveal_strlit("${localWorkspaceFolder}");
    reveal_strlit("${containerWorkspaceFolder}");
    assert("${localWorkspaceFolder}"@.len() == 23 && "${localWorkspaceFolder}"@[0] == '$');
    assert("${containerWorkspaceFolder}"@.len() == 27 && "${containerWorkspaceFolder}"@[0] == '$');
    lemma_plain_holds_none(s, "${localWorkspaceFolder}"@);
    lemma_plain_holds_none(s, "${containerWorkspaceFolder}"@);
    lemma_not_replaced(s, "${localWorkspaceFolder}"@, "${workspace}"@, 0);
    assert(s.skip(0) =~= s);
}

/// The place a path of the file names: from the directory the file is in.
pub open spec fn place(config_path: Seq<u8>, p: Seq<char>) -> Seq<u8> {
    normal(joined_path(parent_of(config_path)->0, encode_utf8(p)))
}

/// The draft's path leads to that place, from the project.
pub open spec fn leads(workspace: Seq<u8>, t: Seq<char>, w: Seq<u8>) -> bool {
    normal(joined_path(workspace, encode_utf8(t))) == w
}

proof fn lemma_rebased_leads(d: DraftView, config_path: Seq<u8>, workspace: Seq<u8>, key: Seq<char>, p: Seq<char>)
    requires
        is_abs(workspace),
        parent_of(config_path) is Some,
        plain(p),
        under(place(config_path, p), workspace),
        valid_utf8(relative_to(place(config_path, p), workspace)->0),
    ensures
        leads(workspace, rebased(d, config_dir(config_path), workspace, key, p).1, place(config_path, p)),
        !is_abs(encode_utf8(rebased(d, config_dir(config_path), workspace, key, p).1)),
        rebased(d, config_dir(config_path), workspace, key, p).0 == d,
        ({
            let t = rebased(d, config_dir(config_path), workspace, key, p).1;
            let w = place(config_path, p);
            ||| t == "."@ && comps(w) == comps(workspace)
            ||| comps(encode_utf8(t)) == comps(w).skip(comps(workspace).len() as int) && comps(encode_utf8(t)).len() > 0
                && t != "."@
        }),
{
    let w = place(config_path, p);
    reveal_strlit("${localWorkspaceFolder}");
    assert("${localWorkspaceFolder}"@.len() == 23 && "${localWorkspaceFolder}"@[0] == '$');
    lemma_plain_holds_none(p, "${localWorkspaceFolder}"@);
    law_normal_idempotent(joined_path(parent_of(config_path)->0, encode_utf8(p)));
    law_rest_leads_back(w, workspace);
    crate::path::law_rest_has_what_is_left(w, workspace);
    let r = relative_to(w, workspace)->0;
    lemma_dot_text();
    if r.len() > 0 {
        decode_utf8_encode_utf8(r);
        assert(text_of_bytes(r) == Some(decode_utf8(r)));
        law_normal_is_folded(w);
        if decode_utf8(r) == "."@ {
            assert(r == dot());
            lemma_comps_of_dot();
            assert(comps(r)[0] == dot());
            assert(comps(w)[comps(workspace).len() as int] == dot());
        }
    }
}

proof fn lemma_dot_text()
    ensures
        encode_utf8("."@) == dot(),
{
    reveal_strlit(".");
    vstd::utf8::is_ascii_chars_encode_utf8("."@);
    assert(encode_utf8("."@) =~= dot());
}

proof fn lemma_comps_of_dot()
    ensures
        comps(dot()) == seq![dot()],
{
    crate::path::lemma_written_reads_back(false, seq![dot()]);
    assert(crate::path::slashed(seq![dot()], 1) == dot());
}

// The source.

proof fn lemma_compose_step(d: DraftView, c: Config, dir: Seq<u8>, workspace: Seq<u8>)
    requires
        at(d, dev()),
    ensures
        extends(d, with_compose(d, c, dir, workspace)),
        at(with_compose(d, c, dir, workspace), dev()),
        crate::translate::own_compose(c) matches Some(vm) ==> sets(
            with_compose(d, c, dir, workspace),
            dev(),
            EntryView::Value(
                "compose"@,
                Tree::Text(rebased(d, dir, workspace, "customizations.virtkit.dockerComposeFile"@, vm).1),
            ),
        ),
        crate::translate::own_compose(c) is None ==> (c.docker_compose_file matches Some(OneOrMany::One(f)) ==> sets(
            with_compose(d, c, dir, workspace),
            dev(),
            EntryView::Value("compose"@, Tree::Text(rebased(d, dir, workspace, "dockerComposeFile"@, f@).1)),
        )),
{
    broadcast use lemma_same_sections;

    let r = with_compose(d, c, dir, workspace);
    match (crate::translate::own_compose(c), c.docker_compose_file) {
        (Some(vm), _) => {
            let key = "customizations.virtkit.dockerComposeFile"@;
            lemma_rebased(d, dir, workspace, key, vm);
            let (e, rel) = rebased(d, dir, workspace, key, vm);
            lemma_entered(e, dev(), EntryView::Value("compose"@, Tree::Text(rel)));
            let f = e.put("compose"@, rel);
            assert(f.sections == r.sections);
            lemma_extends_on(d, e, f);
            lemma_extends_on(d, f, r);
            lemma_still_set(f, r, dev(), EntryView::Value("compose"@, Tree::Text(rel)));
        },
        (None, Some(OneOrMany::One(file))) => {
            lemma_rebased(d, dir, workspace, "dockerComposeFile"@, file@);
            let (e, rel) = rebased(d, dir, workspace, "dockerComposeFile"@, file@);
            lemma_entered(e, dev(), EntryView::Value("compose"@, Tree::Text(rel)));
            let f = e.put("compose"@, rel);
            assert(f.sections == r.sections);
            lemma_extends_on(d, e, f);
            lemma_extends_on(d, f, r);
            lemma_still_set(f, r, dev(), EntryView::Value("compose"@, Tree::Text(rel)));
        },
        (None, Some(OneOrMany::Many(files))) => {
            lemma_rebased_files(d, dir, workspace, files.deep_view(), files@.len() as int);
            let (e, shown) = crate::translate::rebased_upto(d, dir, workspace, files.deep_view(), files@.len() as int);
            let said = crate::text::debug_text(
                if shown.len() > 0 {
                    shown[0]
                } else {
                    ""@
                },
            );
            lemma_entered(e, dev(), EntryView::Commented("compose"@, said));
            let f = e.commented("compose"@, said);
            assert(f.sections == r.sections);
            lemma_extends_on(d, e, f);
            lemma_extends_on(d, f, r);
        },
        (None, None) => {},
    }
}

proof fn lemma_service_step(d: DraftView, c: Config)
    requires
        at(d, dev()),
    ensures
        extends(d, with_service(d, c)),
        at(with_service(d, c), dev()),
        has_compose(c) ==> (crate::translate::service_of(c) matches Some(s) ==> sets(
            with_service(d, c),
            dev(),
            EntryView::Value("service"@, Tree::Text(s)),
        )),
{
    broadcast use lemma_same_sections;

    let r = with_service(d, c);
    if has_compose(c) {
        let e = match crate::translate::service_of(c) {
            Some(s) => EntryView::Value("service"@, Tree::Text(s)),
            None => EntryView::Commented("service"@, "\"\""@),
        };
        lemma_entered(d, dev(), e);
        assert(d.entry(e).sections == r.sections);
        lemma_extends_on(d, d.entry(e), r);
        lemma_still_set(d.entry(e), r, dev(), e);
    }
}

proof fn lemma_image_step(d: DraftView, c: Config)
    requires
        at(d, dev()),
    ensures
        extends(d, with_image(d, c)),
        at(with_image(d, c), dev()),
        !has_compose(c) ==> (c.image matches Some(v) ==> (v.deep_view() matches JsonTree::Text(i) ==> sets(
            with_image(d, c),
            dev(),
            EntryView::Value("image"@, Tree::Text(i)),
        ))),
{
    broadcast use lemma_same_sections;

    let r = with_image(d, c);
    if let Some(v) = c.image {
        if let JsonTree::Text(i) = v.deep_view() {
            if !has_compose(c) {
                let e = EntryView::Value("image"@, Tree::Text(i));
                lemma_entered(d, dev(), e);
                assert(d.entry(e).sections == r.sections);
                lemma_extends_on(d, d.entry(e), r);
                lemma_still_set(d.entry(e), r, dev(), e);
            }
        }
    }
}

/// The build table a file with a Dockerfile is drafted to.
spec fn drafted_table(
    d: DraftView,
    c: Config,
    dir: Seq<u8>,
    workspace: Seq<u8>,
    df: Seq<char>,
    stages: Option<Seq<Seq<char>>>,
) -> Seq<(Seq<char>, Tree)> {
    let (d1, context) = rebased(
        d,
        dir,
        workspace,
        "build.context"@,
        match crate::translate::build_text(c, "context"@) {
            Some(x) => x,
            None => "."@,
        },
    );
    let (d2, rel) = rebased(d1, dir, workspace, "build.dockerfile"@, df);
    let (d3, inside) = inside_context(d2, rel, context);
    let t0 = with_entry(
        with_entry(Seq::empty(), "context"@, Tree::Text(context)),
        "dockerfile"@,
        Tree::Text(inside),
    );
    let t1 = with_target(d3, t0, c, workspace, rel, inside, stages).1;
    if build_args(c).0.len() > 0 {
        with_entry(t1, "args"@, Tree::Table(build_args(c).0))
    } else {
        t1
    }
}

proof fn lemma_dockerfile_step(
    d: DraftView,
    c: Config,
    dir: Seq<u8>,
    workspace: Seq<u8>,
    df: Seq<char>,
    stages: Option<Seq<Seq<char>>>,
)
    requires
        at(d, dev()),
    ensures
        extends(d, with_dockerfile(d, c, dir, workspace, df, stages)),
        at(with_dockerfile(d, c, dir, workspace, df, stages), dev()),
        sets(
            with_dockerfile(d, c, dir, workspace, df, stages),
            dev(),
            EntryView::Value("build"@, Tree::Table(drafted_table(d, c, dir, workspace, df, stages))),
        ),
{
    broadcast use lemma_same_sections;

    let context = match crate::translate::build_text(c, "context"@) {
        Some(x) => x,
        None => "."@,
    };
    lemma_rebased(d, dir, workspace, "build.context"@, context);
    let (d1, place) = rebased(d, dir, workspace, "build.context"@, context);
    lemma_rebased(d1, dir, workspace, "build.dockerfile"@, df);
    let (d2, rel) = rebased(d1, dir, workspace, "build.dockerfile"@, df);
    let (d3, inside) = inside_context(d2, rel, place);
    assert(d3.sections == d.sections);
    let t0 = with_entry(
        with_entry(Seq::empty(), "context"@, Tree::Text(place)),
        "dockerfile"@,
        Tree::Text(inside),
    );
    let d4 = with_target(d3, t0, c, workspace, rel, inside, stages).0;
    assert(d4.sections == d.sections);
    let e = EntryView::Value("build"@, Tree::Table(drafted_table(d, c, dir, workspace, df, stages)));
    lemma_entered(d4, dev(), e);
    let r = with_dockerfile(d, c, dir, workspace, df, stages);
    assert(d4.entry(e).sections == r.sections);
    lemma_extends_on(d, d4, d4.entry(e));
    lemma_extends_on(d, d4.entry(e), r);
    lemma_still_set(d4.entry(e), r, dev(), e);
}

proof fn lemma_build_step(d: DraftView, c: Config, dir: Seq<u8>, workspace: Seq<u8>, stages: Option<Seq<Seq<char>>>)
    requires
        at(d, dev()),
    ensures
        extends(d, with_build(d, c, dir, workspace, stages)),
        at(with_build(d, c, dir, workspace, stages), dev()),
        !has_compose(c) && c.image is None ==> (crate::translate::dockerfile_of(c) matches Some(df) ==> sets(
            with_build(d, c, dir, workspace, stages),
            dev(),
            EntryView::Value("build"@, Tree::Table(drafted_table(d, c, dir, workspace, df, stages))),
        )),
{
    broadcast use lemma_same_sections;

    let r = with_build(d, c, dir, workspace, stages);
    match crate::translate::dockerfile_of(c) {
        Some(df) => {
            if !has_compose(c) && c.image is None {
                lemma_dockerfile_step(d, c, dir, workspace, df, stages);
            } else {
                assert(r.sections == d.sections);
            }
        },
        None => {
            if !has_compose(c) && c.image is None {
                let e = EntryView::Commented("image"@, "\"docker.io/library/debian:13\""@);
                let f = match c.build {
                    Some(b) => d.action(
                        "build"@,
                        crate::value::json_shown(b.deep_view()) + ": expected an object with `dockerfile`"@,
                    ),
                    None => d,
                };
                assert(f.sections == d.sections);
                lemma_entered(f, dev(), e);
                assert(f.entry(e).sections == r.sections);
                lemma_extends_on(d, f, f.entry(e));
                lemma_extends_on(d, f.entry(e), r);
            } else {
                assert(r.sections == d.sections);
            }
        },
    }
}

// What follows the source.

proof fn lemma_place_step(d: DraftView, c: Config)
    requires
        at(d, dev()),
    ensures
        extends(d, with_place(d, c)),
        at(with_place(d, c), dev()),
        c.workspace_folder matches Some(w) ==> (plain(w@) ==> sets(
            with_place(d, c),
            dev(),
            EntryView::Value("workspace"@, Tree::Text(w@)),
        )),
        c.workspace_folder is None && !has_compose(c) ==> sets(
            with_place(d, c),
            dev(),
            EntryView::Value("workspace"@, Tree::Text("/workspace"@)),
        ),
        c.remote_user matches Some(u) ==> sets(with_place(d, c), dev(), EntryView::Value("user"@, Tree::Text(u@))),
{
    broadcast use lemma_same_sections;

    let r = with_place(d, c);
    let f = with_folder(d, c);
    let folder = c.workspace_folder.deep_view();
    let ew = match c.workspace_folder {
        Some(w) => EntryView::Value("workspace"@, Tree::Text(rewritten(d, "workspaceFolder"@, w@, folder).1)),
        None => EntryView::Value("workspace"@, Tree::Text("/workspace"@)),
    };
    if let Some(w) = c.workspace_folder {
        lemma_rewritten(d, "workspaceFolder"@, w@, folder);
        if plain(w@) {
            lemma_plain(d, "workspaceFolder"@, w@, folder);
        }
        let e = rewritten(d, "workspaceFolder"@, w@, folder).0;
        lemma_entered(e, dev(), ew);
        assert(e.entry(ew).sections == f.sections);
        lemma_extends_on(d, e, e.entry(ew));
        lemma_extends_on(d, e.entry(ew), f);
        lemma_still_set(e.entry(ew), f, dev(), ew);
    } else if !has_compose(c) {
        lemma_entered(d, dev(), ew);
        assert(d.entry(ew).sections == f.sections);
        lemma_extends_on(d, d.entry(ew), f);
        lemma_still_set(d.entry(ew), f, dev(), ew);
    }
    let g = match c.remote_user {
        Some(u) => f.put("user"@, u@),
        None => f,
    };
    if let Some(u) = c.remote_user {
        lemma_entered(f, dev(), EntryView::Value("user"@, Tree::Text(u@)));
    }
    lemma_extends_on(d, f, g);
    let last = EntryView::Value("freshness"@, Tree::Text("ask"@));
    lemma_entered(g, dev(), last);
    assert(g.entry(last).sections == r.sections);
    lemma_extends_on(d, g, g.entry(last));
    lemma_extends_on(d, g.entry(last), r);
    lemma_extends_on(f, g, g.entry(last));
    lemma_extends_on(f, g.entry(last), r);
    lemma_extends_on(g, g.entry(last), r);
    if c.workspace_folder is Some || !has_compose(c) {
        lemma_still_set(f, r, dev(), ew);
    }
    if let Some(u) = c.remote_user {
        lemma_still_set(g, r, dev(), EntryView::Value("user"@, Tree::Text(u@)));
    }
}

proof fn lemma_machine_step(d: DraftView, v: Option<Virtkit>)
    requires
        at(d, dev()),
    ensures
        extends(d, with_machine(d, v)),
        at(with_machine(d, v), dev()),
        v matches Some(x) ==> {
            &&& x.mem matches Some(m) ==> sets(with_machine(d, v), dev(), EntryView::Value("mem"@, Tree::Text(m@)))
            &&& x.cpus matches Some(n) ==> (n@ == "host"@ ==> sets(
                with_machine(d, v),
                dev(),
                EntryView::Value("cpus"@, Tree::Text("host"@)),
            ))
            &&& x.cpus matches Some(n) ==> (n@ != "host"@ ==> (crate::text::parsed_signed(n@, u32::MAX as nat) matches Some(
                k,
            ) ==> sets(with_machine(d, v), dev(), EntryView::Value("cpus"@, Tree::Integer(k as i64)))))
            &&& x.profiles@.len() > 0 ==> sets(
                with_machine(d, v),
                dev(),
                EntryView::Value("profiles"@, texts_tree(x.profiles.deep_view())),
            )
        },
{
    broadcast use lemma_same_sections;

    if let Some(x) = v {
        let r = with_machine(d, v);
        let d1 = with_cpus(d, x.cpus.deep_view());
        let ec = match x.cpus {
            Some(n) => if n@ == "host"@ {
                EntryView::Value("cpus"@, Tree::Text("host"@))
            } else {
                EntryView::Value("cpus"@, Tree::Integer(crate::text::parsed_signed(n@, u32::MAX as nat)->0 as i64))
            },
            None => EntryView::Comment(Seq::empty()),
        };
        let counted = x.cpus matches Some(n) && (n@ == "host"@ || crate::text::parsed_signed(n@, u32::MAX as nat) is Some);
        if counted {
            lemma_entered(d, dev(), ec);
            assert(d.entry(ec).sections == d1.sections);
            lemma_extends_on(d, d.entry(ec), d1);
            lemma_still_set(d.entry(ec), d1, dev(), ec);
        } else {
            assert(d1.sections == d.sections);
        }
        let d2 = match x.mem {
            Some(m) => d1.put("mem"@, m@),
            None => d1,
        };
        if let Some(m) = x.mem {
            lemma_entered(d1, dev(), EntryView::Value("mem"@, Tree::Text(m@)));
        }
        lemma_extends_on(d, d1, d2);
        let p = EntryView::Value("profiles"@, texts_tree(x.profiles.deep_view()));
        let d3 = if x.profiles@.len() > 0 {
            d2.entry(p)
        } else {
            d2
        };
        if x.profiles@.len() > 0 {
            lemma_entered(d2, dev(), p);
        }
        assert(d3.sections == r.sections);
        lemma_extends_on(d2, d3, r);
        lemma_extends_on(d1, d2, r);
        lemma_extends_on(d, d1, r);
        if counted {
            lemma_still_set(d1, r, dev(), ec);
        }
        if let Some(m) = x.mem {
            lemma_still_set(d2, r, dev(), EntryView::Value("mem"@, Tree::Text(m@)));
        }
        if x.profiles@.len() > 0 {
            lemma_still_set(d3, r, dev(), p);
        }
    }
}

proof fn lemma_env_step(
    d: DraftView,
    path: Seq<Seq<char>>,
    key: Seq<char>,
    env: Seq<(Seq<char>, Seq<char>)>,
    folder: Option<Seq<char>>,
    n: int,
)
    requires
        at(d, path),
        n <= env.len(),
    ensures
        extends(d, env_set(d, key, env, folder, n)),
        at(env_set(d, key, env, folder, n), path),
        forall|i: int|
            0 <= i < n && plain((#[trigger] env[i]).1) ==> sets(
                env_set(d, key, env, folder, n),
                path,
                EntryView::Value(env[i].0, Tree::Text(env[i].1)),
            ),
    decreases n,
{
    broadcast use lemma_same_sections;

    if n > 0 {
        lemma_env_step(d, path, key, env, folder, n - 1);
        let had = env_set(d, key, env, folder, n - 1);
        let s = env[n - 1].1;
        lemma_rewritten(had, key, s, folder);
        let (e, t) = rewritten(had, key, s, folder);
        let x = EntryView::Value(env[n - 1].0, Tree::Text(t));
        lemma_entered(e, path, x);
        let now = env_set(d, key, env, folder, n);
        assert(now == e.entry(x));
        lemma_extends_on(had, e, now);
        lemma_extends_on(d, had, now);
        if plain(s) {
            lemma_plain(had, key, s, folder);
        }
        assert forall|i: int| 0 <= i < n && plain((#[trigger] env[i]).1) implies sets(
            now,
            path,
            EntryView::Value(env[i].0, Tree::Text(env[i].1)),
        ) by {
            if i < n - 1 {
                lemma_still_set(had, now, path, EntryView::Value(env[i].0, Tree::Text(env[i].1)));
            }
        }
    }
}

/// Every variable of the map that refers to nothing stands in the table, with its value.
pub open spec fn table_has(d: DraftView, table: Seq<char>, env: Seq<(Seq<char>, Seq<char>)>) -> bool {
    forall|i: int|
        0 <= i < env.len() && plain((#[trigger] env[i]).1) ==> sets(
            d,
            seq!["dev"@, table],
            EntryView::Value(env[i].0, Tree::Text(env[i].1)),
        )
}

proof fn lemma_table_stays(a: DraftView, b: DraftView, table: Seq<char>, env: Seq<(Seq<char>, Seq<char>)>)
    requires
        extends(a, b),
        table_has(a, table, env),
    ensures
        table_has(b, table, env),
{
    assert forall|i: int| 0 <= i < env.len() && plain((#[trigger] env[i]).1) implies sets(
        b,
        seq!["dev"@, table],
        EntryView::Value(env[i].0, Tree::Text(env[i].1)),
    ) by {
        lemma_still_set(a, b, seq!["dev"@, table], EntryView::Value(env[i].0, Tree::Text(env[i].1)));
    }
}

proof fn lemma_env(
    d: DraftView,
    key: Seq<char>,
    table: Seq<char>,
    env: Option<Seq<(Seq<char>, Seq<char>)>>,
    folder: Option<Seq<char>>,
)
    ensures
        extends(d, with_env(d, key, table, env, folder)),
        env matches Some(m) ==> table_has(with_env(d, key, table, env, folder), table, m),
{
    broadcast use lemma_same_sections;

    let r = with_env(d, key, table, env, folder);
    if env is Some && env->0.len() > 0 {
        let path = seq!["dev"@, table];
        let m = env->0;
        lemma_sectioned(d, path);
        let e = d.section(path);
        lemma_env_step(e, path, key, m, folder, m.len() as int);
        let f = env_set(e, key, m, folder, m.len() as int);
        assert(f.sections == r.sections);
        lemma_extends_on(d, e, f);
        lemma_extends_on(d, f, r);
        assert(table_has(f, table, m));
        lemma_table_stays(f, r, table, m);
    }
}

pub open spec fn mount_table(name: Seq<char>) -> Seq<Seq<char>> {
    seq!["dev"@, "mounts"@, name]
}

pub open spec fn endpoint_table(name: Seq<char>) -> Seq<Seq<char>> {
    seq!["dev"@, "endpoints"@, name]
}

pub open spec fn hooks_table() -> Seq<Seq<char>> {
    seq!["dev"@, "hooks"@]
}

/// The draft mounts what a mount of the file names, under some name.
pub open spec fn draft_mounts(d: DraftView, source: Seq<char>, target: Seq<char>, read_only: bool) -> bool {
    exists|name: Seq<char>| #[trigger]
        sets(d, mount_table(name), EntryView::Value("source"@, Tree::Text(source))) && sets(
            d,
            mount_table(name),
            EntryView::Value("to"@, Tree::Text(target)),
        ) && (read_only ==> sets(
            d,
            mount_table(name),
            EntryView::Value("read-only"@, Tree::Boolean(true)),
        ))
}

/// A mount of the file that names a host path by itself, without variables.
pub open spec fn binds(m: Mount) -> bool {
    fields_of(m) matches Ok(f) && f.kind == "bind"@ && plain(f.source) && plain(f.target)
}

proof fn lemma_mount_step(d: DraftView, taken: Seq<Seq<char>>, m: Mount, i: int, folder: Option<Seq<char>>)
    ensures
        extends(d, with_mount(d, taken, m, i, folder).0),
        binds(m) ==> draft_mounts(
            with_mount(d, taken, m, i, folder).0,
            fields_of(m)->Ok_0.source,
            fields_of(m)->Ok_0.target,
            fields_of(m)->Ok_0.read_only,
        ),
{
    broadcast use lemma_same_sections;

    let r = with_mount(d, taken, m, i, folder).0;
    if let Ok(f) = fields_of(m) {
        if f.kind == "bind"@ {
            let key = "mounts["@ + crate::text::decimal(i as nat) + "]"@;
            lemma_rewritten(d, key, f.source, folder);
            let (d1, source) = rewritten(d, key, f.source, folder);
            lemma_rewritten(d1, key, f.target, folder);
            let (d2, target) = rewritten(d1, key, f.target, folder);
            if plain(f.source) && plain(f.target) {
                lemma_plain(d, key, f.source, folder);
                lemma_plain(d1, key, f.target, folder);
            }
            let name = told_apart(mount_name(f.target, i), taken, i);
            let path = mount_table(name);
            lemma_sectioned(d2, path);
            let e0 = d2.section(path);
            let x1 = EntryView::Value("source"@, Tree::Text(source));
            let x2 = EntryView::Value("to"@, Tree::Text(target));
            let x3 = EntryView::Value("read-only"@, Tree::Boolean(true));
            lemma_entered(e0, path, x1);
            let e1 = e0.entry(x1);
            lemma_entered(e1, path, x2);
            let e2 = e1.entry(x2);
            lemma_entered(e2, path, x3);
            let e3 = if f.read_only {
                e2.entry(x3)
            } else {
                e2
            };
            assert(e3.sections == r.sections);
            lemma_extends_on(e2, e3, r);
            lemma_extends_on(e1, e2, r);
            lemma_extends_on(e0, e1, r);
            lemma_extends_on(d2, e0, r);
            lemma_extends_on(d, d2, r);
            lemma_still_set(e1, r, path, x1);
            lemma_still_set(e2, r, path, x2);
            if f.read_only {
                lemma_still_set(e3, r, path, x3);
            }
        }
    }
}

/// Every mount of the file that names a host path is in the draft.
pub open spec fn all_mounted(d: DraftView, v: Seq<Mount>, n: int) -> bool {
    forall|i: int|
        0 <= i < n && binds(#[trigger] v[i]) ==> draft_mounts(
            d,
            fields_of(v[i])->Ok_0.source,
            fields_of(v[i])->Ok_0.target,
            fields_of(v[i])->Ok_0.read_only,
        )
}

proof fn lemma_mounted_stays(a: DraftView, b: DraftView, v: Seq<Mount>, n: int)
    requires
        extends(a, b),
        all_mounted(a, v, n),
    ensures
        all_mounted(b, v, n),
{
    assert forall|i: int| 0 <= i < n && binds(#[trigger] v[i]) implies draft_mounts(
        b,
        fields_of(v[i])->Ok_0.source,
        fields_of(v[i])->Ok_0.target,
        fields_of(v[i])->Ok_0.read_only,
    ) by {
        let f = fields_of(v[i])->Ok_0;
        let name = choose|name: Seq<char>| #[trigger]
            sets(a, mount_table(name), EntryView::Value("source"@, Tree::Text(f.source))) && sets(
                a,
                mount_table(name),
                EntryView::Value("to"@, Tree::Text(f.target)),
            ) && (f.read_only ==> sets(
                a,
                mount_table(name),
                EntryView::Value("read-only"@, Tree::Boolean(true)),
            ));
        let path = mount_table(name);
        lemma_still_set(a, b, path, EntryView::Value("source"@, Tree::Text(f.source)));
        lemma_still_set(a, b, path, EntryView::Value("to"@, Tree::Text(f.target)));
        if f.read_only {
            lemma_still_set(a, b, path, EntryView::Value("read-only"@, Tree::Boolean(true)));
        }
    }
}

proof fn lemma_mounts(d: DraftView, v: Seq<Mount>, folder: Option<Seq<char>>, n: int)
    requires
        n <= v.len(),
    ensures
        extends(d, mounts_upto(d, v, folder, n).0),
        all_mounted(mounts_upto(d, v, folder, n).0, v, n),
    decreases n,
{
    broadcast use lemma_same_sections;

    if n > 0 {
        lemma_mounts(d, v, folder, n - 1);
        let (e, taken) = mounts_upto(d, v, folder, n - 1);
        lemma_mount_step(e, taken, v[n - 1], n - 1, folder);
        let now = mounts_upto(d, v, folder, n).0;
        lemma_extends_on(d, e, now);
        lemma_mounted_stays(e, now, v, n - 1);
    }
}

/// The draft publishes a port that the file forwards, of its service where it names one.
pub open spec fn draft_publishes(d: DraftView, service: Option<Seq<char>>, port: u16) -> bool {
    exists|name: Seq<char>| #[trigger]
        sets(d, endpoint_table(name), EntryView::Value("target"@, Tree::Integer(port as i64))) && (
        service matches Some(s) ==> sets(
            d,
            endpoint_table(name),
            EntryView::Value("service"@, Tree::Text(s)),
        ))
}

proof fn lemma_port_step(d: DraftView, taken: Seq<Seq<char>>, p: Port, i: int, compose: bool)
    ensures
        extends(d, with_port(d, taken, p, i, compose).0),
        port_of(p) matches Ok((s, n)) ==> draft_publishes(with_port(d, taken, p, i, compose).0, s, n),
{
    broadcast use lemma_same_sections;

    let r = with_port(d, taken, p, i, compose).0;
    if let Ok((service, port)) = port_of(p) {
        let base = match service {
            Some(s) => s + "-"@ + crate::text::decimal(port as nat),
            None => "port-"@ + crate::text::decimal(port as nat),
        };
        let path = endpoint_table(told_apart(base, taken, i));
        lemma_sectioned(d, path);
        let e0 = d.section(path);
        let e1 = match service {
            Some(s) => e0.put("service"@, s),
            None => e0,
        };
        if let Some(s) = service {
            lemma_entered(e0, path, EntryView::Value("service"@, Tree::Text(s)));
        }
        let x = EntryView::Value("target"@, Tree::Integer(port as i64));
        lemma_entered(e1, path, x);
        let e2 = e1.entry(x);
        assert(e2.sections == r.sections);
        lemma_extends_on(e1, e2, r);
        lemma_extends_on(e0, e1, r);
        lemma_extends_on(d, e0, r);
        lemma_still_set(e2, r, path, x);
        if let Some(s) = service {
            lemma_still_set(e1, r, path, EntryView::Value("service"@, Tree::Text(s)));
        }
    }
}

/// Every port that the file forwards is published.
pub open spec fn all_published(d: DraftView, v: Seq<Port>, n: int) -> bool {
    forall|i: int|
        0 <= i < n ==> (port_of(#[trigger] v[i]) matches Ok((s, k)) ==> draft_publishes(d, s, k))
}

proof fn lemma_published_stays(a: DraftView, b: DraftView, v: Seq<Port>, n: int)
    requires
        extends(a, b),
        all_published(a, v, n),
    ensures
        all_published(b, v, n),
{
    assert forall|i: int| 0 <= i < n implies (port_of(#[trigger] v[i]) matches Ok((s, k)) ==> draft_publishes(b, s, k)) by {
        if let Ok((s, k)) = port_of(v[i]) {
            let x = EntryView::Value("target"@, Tree::Integer(k as i64));
            let name = choose|name: Seq<char>| #[trigger]
                sets(a, endpoint_table(name), x) && (s matches Some(t) ==> sets(
                    a,
                    endpoint_table(name),
                    EntryView::Value("service"@, Tree::Text(t)),
                ));
            let path = endpoint_table(name);
            lemma_still_set(a, b, path, x);
            if let Some(t) = s {
                lemma_still_set(a, b, path, EntryView::Value("service"@, Tree::Text(t)));
            }
        }
    }
}

proof fn lemma_ports(d: DraftView, v: Seq<Port>, compose: bool, n: int)
    requires
        n <= v.len(),
    ensures
        extends(d, ports_upto(d, v, compose, n).0),
        all_published(ports_upto(d, v, compose, n).0, v, n),
    decreases n,
{
    broadcast use lemma_same_sections;

    if n > 0 {
        lemma_ports(d, v, compose, n - 1);
        let (e, taken) = ports_upto(d, v, compose, n - 1);
        lemma_port_step(e, taken, v[n - 1], n - 1, compose);
        let now = ports_upto(d, v, compose, n).0;
        lemma_extends_on(d, e, now);
        lemma_published_stays(e, now, v, n - 1);
    }
}

/// What a lifecycle command reads as in the draft: a text as a text, a list as a list, a group as a
/// table with a key for each of its members.
pub open spec fn reads_as(l: Lifecycle, t: Tree) -> bool
    decreases l,
{
    match l {
        Lifecycle::Shell(s) => t == Tree::Text(s@),
        Lifecycle::Argv(a) => t matches Tree::Array(x) && x.len() == a@.len() && forall|i: int|
            0 <= i < x.len() ==> #[trigger] x[i] == Tree::Text(a@[i]@),
        Lifecycle::Parallel(m) => t matches Tree::Table(x) && forall|i: int|
            0 <= i < m@.len() ==> entry(x, (#[trigger] m@[i]).0@) is Some,
    }
}

proof fn lemma_reads_as(l: Lifecycle)
    ensures
        reads_as(l, lifecycle_tree(l)),
{
    match l {
        Lifecycle::Argv(a) => {
            let x = lifecycle_tree(l)->Array_0;
            assert(x.len() == a@.len());
            assert forall|i: int| 0 <= i < x.len() implies #[trigger] x[i] == Tree::Text(a@[i]@) by {
                assert(a.deep_view()[i] == a@[i]@);
            }
        },
        Lifecycle::Parallel(m) => {
            lemma_group(l, m@.len() as int);
        },
        _ => {},
    }
}

proof fn lemma_group(l: Lifecycle, n: int)
    requires
        l is Parallel,
        0 <= n <= l->Parallel_0@.len(),
    ensures
        crate::entries::sorted(crate::devcontainer::lifecycles_upto(l, n)),
        forall|i: int|
            0 <= i < n ==> entry(crate::devcontainer::lifecycles_upto(l, n), (#[trigger] l->Parallel_0@[i]).0@) is Some,
    decreases n,
{
    if n > 0 {
        lemma_group(l, n - 1);
        let m = l->Parallel_0@;
        lemma_with_entry(
            crate::devcontainer::lifecycles_upto(l, n - 1),
            m[n - 1].0@,
            lifecycle_tree(m[n - 1].1),
        );
    }
}

proof fn lemma_hook_step(d: DraftView, path: Seq<Seq<char>>, key: Seq<char>, name: Seq<char>, l: Option<Lifecycle>)
    requires
        at(d, path),
    ensures
        extends(d, with_hook(d, key, name, l)),
        at(with_hook(d, key, name, l), path),
        l matches Some(x) ==> sets(with_hook(d, key, name, l), path, EntryView::Value(name, lifecycle_tree(x))),
{
    broadcast use lemma_same_sections;

    if let Some(x) = l {
        let e = EntryView::Value(name, lifecycle_tree(x));
        lemma_entered(d, path, e);
        let r = with_hook(d, key, name, l);
        assert(d.entry(e).sections == r.sections);
        lemma_extends_on(d, d.entry(e), r);
        lemma_still_set(d.entry(e), r, path, e);
    }
}

/// The hook of that name in the draft is the command.
pub open spec fn draft_hooks(d: DraftView, name: Seq<char>, l: Option<Lifecycle>) -> bool {
    l matches Some(x) ==> exists|t: Tree| #[trigger]
        sets(d, hooks_table(), EntryView::Value(name, t)) && reads_as(x, t)
}

proof fn lemma_draft_hooks(a: DraftView, b: DraftView, name: Seq<char>, l: Option<Lifecycle>)
    requires
        extends(a, b),
        l matches Some(x) ==> sets(a, hooks_table(), EntryView::Value(name, lifecycle_tree(x))),
    ensures
        draft_hooks(b, name, l),
{
    if let Some(x) = l {
        lemma_still_set(a, b, hooks_table(), EntryView::Value(name, lifecycle_tree(x)));
        lemma_reads_as(x);
    }
}

proof fn lemma_hooks(d: DraftView, c: Config)
    ensures
        extends(d, with_hooks(d, c)),
        draft_hooks(with_hooks(d, c), "init"@, c.initialize_command),
        draft_hooks(with_hooks(d, c), "create"@, c.post_create_command),
        draft_hooks(with_hooks(d, c), "start"@, c.post_start_command),
{
    broadcast use lemma_same_sections;

    let path = hooks_table();
    lemma_sectioned(d, path);
    let d0 = d.section(path);
    let d1 = with_hook(d0, "initializeCommand"@, "init"@, c.initialize_command);
    lemma_hook_step(d0, path, "initializeCommand"@, "init"@, c.initialize_command);
    let d2 = with_hook(d1, "postCreateCommand"@, "create"@, c.post_create_command);
    lemma_hook_step(d1, path, "postCreateCommand"@, "create"@, c.post_create_command);
    let d3 = with_hook(d2, "postStartCommand"@, "start"@, c.post_start_command);
    lemma_hook_step(d2, path, "postStartCommand"@, "start"@, c.post_start_command);
    lemma_extends_on(d2, d3, d3);
    lemma_extends_on(d1, d2, d3);
    lemma_extends_on(d0, d1, d3);
    lemma_extends_on(d, d0, d3);
    if c.initialize_command is Some || c.post_create_command is Some || c.post_start_command is Some {
        lemma_draft_hooks(d1, d3, "init"@, c.initialize_command);
        lemma_draft_hooks(d2, d3, "create"@, c.post_create_command);
        lemma_draft_hooks(d3, d3, "start"@, c.post_start_command);
    }
}

proof fn lemma_notes(d: DraftView, c: Config)
    ensures
        with_port_notes(d, c).sections == d.sections,
        with_command_notes(d, c).sections == d.sections,
        with_docker_notes(d, c).sections == d.sections,
{
}

/// What a file says of how one is in the environment, as the draft has it.
pub open spec fn being_carried(d: DraftView, c: Config) -> bool {
    &&& c.workspace_folder matches Some(w) ==> (plain(w@) ==> sets(
        d,
        seq!["dev"@],
        EntryView::Value("workspace"@, Tree::Text(w@)),
    ))
    &&& c.remote_user matches Some(u) ==> sets(d, seq!["dev"@], EntryView::Value("user"@, Tree::Text(u@)))
    &&& c.remote_env matches Some(m) ==> table_has(d, "exec-env"@, m.deep_view())
    &&& c.container_env matches Some(m) ==> table_has(d, "container-env"@, m.deep_view())
    &&& c.mounts matches Some(m) ==> all_mounted(d, m@, m@.len() as int)
    &&& c.forward_ports matches Some(f) ==> all_published(d, f@, f@.len() as int)
    &&& draft_hooks(d, "init"@, c.initialize_command)
    &&& draft_hooks(d, "create"@, c.post_create_command)
    &&& draft_hooks(d, "start"@, c.post_start_command)
    &&& c.customizations matches Some(x) ==> (x.virtkit matches Some(v) ==> (v.mem matches Some(m) ==> sets(
        d,
        seq!["dev"@],
        EntryView::Value("mem"@, Tree::Text(m@)),
    )))
}

/// The draft with the mounts and then the ports of the file.
spec fn with_lists(d: DraftView, c: Config) -> DraftView {
    let folder = c.workspace_folder.deep_view();
    let e = match c.mounts {
        Some(m) => omitted_if(mounts_upto(d, m@, folder, m@.len() as int).0, m@.len() == 0, "mounts"@, "empty"@),
        None => d,
    };
    match c.forward_ports {
        Some(f) => omitted_if(
            ports_upto(e, f@, has_compose(c), f@.len() as int).0,
            f@.len() == 0,
            "forwardPorts"@,
            "empty"@,
        ),
        None => e,
    }
}

proof fn lemma_lists(d: DraftView, c: Config)
    ensures
        extends(d, with_lists(d, c)),
        c.mounts matches Some(m) ==> all_mounted(with_lists(d, c), m@, m@.len() as int),
        c.forward_ports matches Some(f) ==> all_published(with_lists(d, c), f@, f@.len() as int),
{
    let folder = c.workspace_folder.deep_view();
    let r = with_lists(d, c);
    let e = match c.mounts {
        Some(m) => omitted_if(mounts_upto(d, m@, folder, m@.len() as int).0, m@.len() == 0, "mounts"@, "empty"@),
        None => d,
    };
    lemma_same_sections(d, d);
    lemma_same_sections(e, e);
    if let Some(m) = c.mounts {
        lemma_mounts(d, m@, folder, m@.len() as int);
        let x = mounts_upto(d, m@, folder, m@.len() as int).0;
        lemma_same_sections(x, e);
        lemma_extends_on(d, x, e);
        lemma_mounted_stays(x, e, m@, m@.len() as int);
    }
    if let Some(f) = c.forward_ports {
        lemma_ports(e, f@, has_compose(c), f@.len() as int);
        let x = ports_upto(e, f@, has_compose(c), f@.len() as int).0;
        lemma_same_sections(x, r);
        lemma_extends_on(e, x, r);
        lemma_published_stays(x, r, f@, f@.len() as int);
    }
    lemma_extends_on(d, e, r);
    if let Some(m) = c.mounts {
        lemma_mounted_stays(e, r, m@, m@.len() as int);
    }
}

/// The draft with all that comes before the lists of the file.
spec fn with_scalars(d: DraftView, c: Config) -> DraftView {
    let folder = c.workspace_folder.deep_view();
    let e = with_machine(with_place(d, c), virtkit_of(c));
    with_env(
        with_env(e, "remoteEnv"@, "exec-env"@, c.remote_env.deep_view(), folder),
        "containerEnv"@,
        "container-env"@,
        c.container_env.deep_view(),
        folder,
    )
}

/// What comes before the lists of the file, as the draft has it.
spec fn scalars_carried(d: DraftView, c: Config) -> bool {
    &&& c.workspace_folder matches Some(w) ==> (plain(w@) ==> sets(
        d,
        dev(),
        EntryView::Value("workspace"@, Tree::Text(w@)),
    ))
    &&& c.remote_user matches Some(u) ==> sets(d, dev(), EntryView::Value("user"@, Tree::Text(u@)))
    &&& c.remote_env matches Some(m) ==> table_has(d, "exec-env"@, m.deep_view())
    &&& c.container_env matches Some(m) ==> table_has(d, "container-env"@, m.deep_view())
    &&& virtkit_of(c) matches Some(v) ==> (v.mem matches Some(m) ==> sets(
        d,
        dev(),
        EntryView::Value("mem"@, Tree::Text(m@)),
    ))
}

proof fn lemma_scalars(d: DraftView, c: Config)
    requires
        at(d, dev()),
    ensures
        extends(d, with_scalars(d, c)),
        scalars_carried(with_scalars(d, c), c),
{
    let folder = c.workspace_folder.deep_view();
    let r = with_scalars(d, c);
    lemma_place_step(d, c);
    let p = with_place(d, c);
    lemma_machine_step(p, virtkit_of(c));
    let d1 = with_machine(p, virtkit_of(c));
    let m1 = c.remote_env.deep_view();
    let m2 = c.container_env.deep_view();
    lemma_env(d1, "remoteEnv"@, "exec-env"@, m1, folder);
    let d2 = with_env(d1, "remoteEnv"@, "exec-env"@, m1, folder);
    lemma_env(d2, "containerEnv"@, "container-env"@, m2, folder);
    lemma_extends_on(d1, d2, r);
    lemma_extends_on(p, d1, r);
    lemma_extends_on(d, p, r);
    if let Some(w) = c.workspace_folder {
        if plain(w@) {
            lemma_still_set(p, r, dev(), EntryView::Value("workspace"@, Tree::Text(w@)));
        }
    }
    if let Some(u) = c.remote_user {
        lemma_still_set(p, r, dev(), EntryView::Value("user"@, Tree::Text(u@)));
    }
    if let Some(v) = virtkit_of(c) {
        if let Some(m) = v.mem {
            lemma_still_set(d1, r, dev(), EntryView::Value("mem"@, Tree::Text(m@)));
        }
    }
    if c.remote_env is Some {
        lemma_table_stays(d2, r, "exec-env"@, m1->0);
    }
}

proof fn lemma_scalars_stay(a: DraftView, b: DraftView, c: Config)
    requires
        extends(a, b),
        scalars_carried(a, c),
    ensures
        scalars_carried(b, c),
{
    if let Some(w) = c.workspace_folder {
        if plain(w@) {
            lemma_still_set(a, b, dev(), EntryView::Value("workspace"@, Tree::Text(w@)));
        }
    }
    if let Some(u) = c.remote_user {
        lemma_still_set(a, b, dev(), EntryView::Value("user"@, Tree::Text(u@)));
    }
    if let Some(v) = virtkit_of(c) {
        if let Some(m) = v.mem {
            lemma_still_set(a, b, dev(), EntryView::Value("mem"@, Tree::Text(m@)));
        }
    }
    if let Some(m) = c.remote_env {
        lemma_table_stays(a, b, "exec-env"@, m.deep_view());
    }
    if let Some(m) = c.container_env {
        lemma_table_stays(a, b, "container-env"@, m.deep_view());
    }
}

#[verifier::spinoff_prover]
proof fn lemma_being(d: DraftView, c: Config)
    requires
        at(d, dev()),
    ensures
        extends(d, with_being(d, c)),
        being_carried(with_being(d, c), c),
{
    let r = with_being(d, c);
    let d3 = with_scalars(d, c);
    lemma_scalars(d, c);
    let d5 = with_lists(d3, c);
    lemma_lists(d3, c);
    lemma_notes(d5, c);
    let d6 = with_port_notes(d5, c);
    lemma_same_sections(d5, d6);
    lemma_hooks(d6, c);
    let d7 = with_hooks(d6, c);
    lemma_notes(d7, c);
    let d8 = with_command_notes(d7, c);
    lemma_notes(d8, c);
    assert(r == with_docker_notes(d8, c));
    lemma_same_sections(d7, r);
    lemma_extends_on(d6, d7, r);
    lemma_extends_on(d5, d6, r);
    lemma_extends_on(d3, d5, r);
    lemma_extends_on(d, d3, r);
    lemma_scalars_stay(d3, r, c);
    if let Some(m) = c.mounts {
        lemma_mounted_stays(d5, r, m@, m@.len() as int);
    }
    if let Some(f) = c.forward_ports {
        lemma_published_stays(d5, r, f@, f@.len() as int);
    }
    lemma_hook_stays(d7, r, "init"@, c.initialize_command);
    lemma_hook_stays(d7, r, "create"@, c.post_create_command);
    lemma_hook_stays(d7, r, "start"@, c.post_start_command);
}

proof fn lemma_hook_stays(a: DraftView, b: DraftView, name: Seq<char>, l: Option<Lifecycle>)
    requires
        extends(a, b),
        draft_hooks(a, name, l),
    ensures
        draft_hooks(b, name, l),
{
    if let Some(x) = l {
        let t = choose|t: Tree| #[trigger]
            sets(a, hooks_table(), EntryView::Value(name, t)) && reads_as(x, t);
        lemma_still_set(a, b, hooks_table(), EntryView::Value(name, t));
    }
}

proof fn lemma_being_stays(a: DraftView, b: DraftView, c: Config)
    requires
        extends(a, b),
        being_carried(a, c),
    ensures
        being_carried(b, c),
{
    if let Some(w) = c.workspace_folder {
        if plain(w@) {
            lemma_still_set(a, b, dev(), EntryView::Value("workspace"@, Tree::Text(w@)));
        }
    }
    if let Some(u) = c.remote_user {
        lemma_still_set(a, b, dev(), EntryView::Value("user"@, Tree::Text(u@)));
    }
    if let Some(v) = virtkit_of(c) {
        if let Some(m) = v.mem {
            lemma_still_set(a, b, dev(), EntryView::Value("mem"@, Tree::Text(m@)));
        }
    }
    if let Some(m) = c.remote_env {
        lemma_table_stays(a, b, "exec-env"@, m.deep_view());
    }
    if let Some(m) = c.container_env {
        lemma_table_stays(a, b, "container-env"@, m.deep_view());
    }
    if let Some(m) = c.mounts {
        lemma_mounted_stays(a, b, m@, m@.len() as int);
    }
    if let Some(f) = c.forward_ports {
        lemma_published_stays(a, b, f@, f@.len() as int);
    }
    lemma_hook_stays(a, b, "init"@, c.initialize_command);
    lemma_hook_stays(a, b, "create"@, c.post_create_command);
    lemma_hook_stays(a, b, "start"@, c.post_start_command);
}

proof fn lemma_settings(d: DraftView, path: Seq<Seq<char>>, o: Seq<(Seq<char>, JsonTree)>, n: int)
    requires
        at(d, path),
        n <= o.len(),
    ensures
        extends(d, settings_upto(d, o, n).0),
        at(settings_upto(d, o, n).0, path),
        forall|i: int|
            0 <= i < n ==> (toml_of_json((#[trigger] o[i]).1) matches Some(t) ==> sets(
                settings_upto(d, o, n).0,
                path,
                EntryView::Value(o[i].0, t),
            )),
    decreases n,
{
    broadcast use lemma_same_sections;

    if n > 0 {
        lemma_settings(d, path, o, n - 1);
        let e = settings_upto(d, o, n - 1).0;
        let now = settings_upto(d, o, n).0;
        match toml_of_json(o[n - 1].1) {
            Some(t) => {
                lemma_entered(e, path, EntryView::Value(o[n - 1].0, t));
            },
            None => {
                assert(e.sections == now.sections);
            },
        }
        lemma_extends_on(d, e, now);
        assert forall|i: int| 0 <= i < n implies (toml_of_json((#[trigger] o[i]).1) matches Some(t) ==> sets(
            now,
            path,
            EntryView::Value(o[i].0, t),
        )) by {
            if let Some(t) = toml_of_json(o[i].1) {
                if i < n - 1 {
                    lemma_still_set(e, now, path, EntryView::Value(o[i].0, t));
                }
            }
        }
    }
}

proof fn lemma_only_notes(d: DraftView, vs: Seq<(Seq<char>, JsonTree)>, n: int)
    ensures
        with_other_keys(d, vs, n).sections == d.sections,
        with_other_tools(d, vs, n).sections == d.sections,
    decreases n,
{
    if n > 0 {
        lemma_only_notes(d, vs, n - 1);
    }
}

/// What the file says for VS Code, as the draft has it: every setting that TOML can spell.
pub open spec fn settings_carried(d: DraftView, o: Seq<(Seq<char>, JsonTree)>) -> bool {
    forall|i: int|
        0 <= i < o.len() ==> (toml_of_json((#[trigger] o[i]).1) matches Some(t) ==> sets(
            d,
            seq!["dev"@, "editor"@, "vscode"@, "settings"@],
            EntryView::Value(o[i].0, t),
        ))
}

/// What the file says for VS Code, as the draft has it.
pub open spec fn editor_carried(d: DraftView, others: Seq<(Seq<char>, JsonTree)>) -> bool {
    entry(others, "vscode"@) matches Some(JsonTree::Object(vs)) ==> {
        &&& sets(d, seq!["dev"@, "editor"@, "vscode"@], EntryView::Value("state"@, Tree::Text("persistent"@)))
        &&& entry(vs, "settings"@) matches Some(JsonTree::Object(o)) ==> settings_carried(d, o)
        &&& entry(vs, "extensions"@) matches Some(JsonTree::Array(a)) ==> sets(
            d,
            seq!["dev"@, "editor"@, "vscode"@],
            EntryView::Value("extensions"@, texts_tree(texts_among(a, a.len() as int))),
        )
    }
}

proof fn lemma_editor(d: DraftView, others: Seq<(Seq<char>, JsonTree)>)
    ensures
        extends(d, with_editor(d, others)),
        editor_carried(with_editor(d, others), others),
{
    broadcast use lemma_same_sections;

    let r = with_editor(d, others);
    match entry(others, "vscode"@) {
        Some(JsonTree::Object(vs)) => {
            let path = seq!["dev"@, "editor"@, "vscode"@];
            lemma_sectioned(d, path);
            let e0 = d.section(path);
            let x0 = EntryView::Value("state"@, Tree::Text("persistent"@));
            lemma_entered(e0, path, x0);
            let d0 = e0.entry(x0);
            let d1 = with_extensions(d0, vs);
            let list = match entry(vs, "extensions"@) {
                Some(JsonTree::Array(a)) => texts_tree(texts_among(a, a.len() as int)),
                _ => Tree::Boolean(true),
            };
            let x1 = EntryView::Value("extensions"@, list);
            if entry(vs, "extensions"@) matches Some(JsonTree::Array(_)) {
                lemma_entered(d0, path, x1);
                assert(d0.entry(x1).sections == d1.sections);
                lemma_extends_on(d0, d0.entry(x1), d1);
                lemma_still_set(d0.entry(x1), d1, path, x1);
            } else {
                assert(d1.sections == d0.sections);
            }
            let d2 = with_settings(d1, vs);
            if let Some(JsonTree::Object(o)) = entry(vs, "settings"@) {
                lemma_sectioned(d1, settings_path());
                let f = d1.section(settings_path());
                lemma_settings(f, settings_path(), o, o.len() as int);
                let g = settings_upto(f, o, o.len() as int).0;
                assert(g.sections == d2.sections);
                lemma_extends_on(d1, f, g);
                lemma_extends_on(d1, g, d2);
                assert(settings_carried(g, o));
                lemma_settings_stay(g, d2, o);
            } else {
                assert(d2.sections == d1.sections);
            }
            lemma_only_notes(d2, vs, vs.len() as int);
            let d3 = with_other_keys(d2, vs, vs.len() as int);
            lemma_only_notes(d3, others, others.len() as int);
            assert(d2.sections == r.sections);
            lemma_extends_on(d1, d2, r);
            lemma_extends_on(d0, d1, r);
            lemma_extends_on(e0, d0, r);
            lemma_extends_on(d, e0, r);
            lemma_still_set(d0, r, path, x0);
            if entry(vs, "extensions"@) matches Some(JsonTree::Array(_)) {
                lemma_still_set(d1, r, path, x1);
            }
            if let Some(JsonTree::Object(o)) = entry(vs, "settings"@) {
                lemma_settings_stay(d2, r, o);
            }
        },
        Some(v) => {
            let e = d.action("customizations.vscode"@, crate::value::json_shown(v) + ": expected an object"@);
            lemma_only_notes(e, others, others.len() as int);
        },
        None => {
            lemma_only_notes(d, others, others.len() as int);
        },
    }
}

proof fn lemma_settings_stay(a: DraftView, b: DraftView, o: Seq<(Seq<char>, JsonTree)>)
    requires
        extends(a, b),
        settings_carried(a, o),
    ensures
        settings_carried(b, o),
{
    let path = seq!["dev"@, "editor"@, "vscode"@, "settings"@];
    assert forall|i: int| 0 <= i < o.len() implies (toml_of_json((#[trigger] o[i]).1) matches Some(t) ==> sets(
        b,
        path,
        EntryView::Value(o[i].0, t),
    )) by {
        if let Some(t) = toml_of_json(o[i].1) {
            lemma_still_set(a, b, path, EntryView::Value(o[i].0, t));
        }
    }
}

proof fn lemma_host(d: DraftView, v: Option<Virtkit>, dir: Seq<u8>, workspace: Seq<u8>)
    ensures
        extends(d, with_host(d, v, dir, workspace)),
        v matches Some(x) ==> (x.cache matches Some(y) ==> {
            &&& y.registry matches Some(g) ==> sets(
                with_host(d, v, dir, workspace),
                seq!["dev"@, "cache"@],
                EntryView::Value("registry"@, Tree::Text(g@)),
            )
            &&& y.insecure ==> sets(
                with_host(d, v, dir, workspace),
                seq!["dev"@, "cache"@],
                EntryView::Value("insecure"@, Tree::Boolean(true)),
            )
        }),
{
    broadcast use lemma_same_sections;

    if let Some(x) = v {
        let r = with_host(d, v, dir, workspace);
        let d1 = match x.host_exec {
            Some(h) => {
                let key = "customizations.virtkit.hostExec.wrapper"@;
                let (e, rel) = rebased(d, dir, workspace, key, h.wrapper@);
                lemma_rebased(d, dir, workspace, key, h.wrapper@);
                let path = seq!["dev"@, "host"@];
                lemma_sectioned(e, path);
                let e0 = e.section(path);
                let x1 = EntryView::Value("wrapper"@, Tree::Text(rel));
                lemma_entered(e0, path, x1);
                let f = e0.entry(x1);
                let x2 = EntryView::Value("wrapper-env"@, texts_tree(h.env.deep_view()));
                lemma_entered(f, path, x2);
                let g = if h.env@.len() > 0 {
                    f.entry(x2)
                } else {
                    f
                };
                lemma_extends_on(d, e, e0);
                lemma_extends_on(d, e0, f);
                lemma_extends_on(d, f, g);
                let k = g.translated("customizations.virtkit.hostExec"@, "as `host.wrapper`"@).action(
                    "host.wrapper"@,
                    "if the wrapper only launches Git GUIs, `git-gui = true` replaces it"@,
                );
                lemma_extends_on(d, g, k);
                k
            },
            None => d,
        };
        if let Some(y) = x.cache {
            let path = seq!["dev"@, "cache"@];
            lemma_sectioned(d1, path);
            let e = d1.section(path);
            let x1 = match y.registry {
                Some(g) => EntryView::Value("registry"@, Tree::Text(g@)),
                None => EntryView::Comment(Seq::empty()),
            };
            lemma_entered(e, path, x1);
            let f = if y.registry is Some {
                e.entry(x1)
            } else {
                e
            };
            let x2 = EntryView::Value("insecure"@, Tree::Boolean(true));
            lemma_entered(f, path, x2);
            let g = if y.insecure {
                f.entry(x2)
            } else {
                f
            };
            assert(g.sections == r.sections);
            lemma_extends_on(f, g, r);
            lemma_extends_on(e, f, r);
            lemma_extends_on(d1, e, r);
            lemma_extends_on(d, d1, r);
            if y.registry is Some {
                lemma_still_set(f, r, path, x1);
            }
            if y.insecure {
                lemma_still_set(g, r, path, x2);
            }
        }
    }
}

/// What becomes of a draft from its source on.
proof fn lemma_from_source(c: Config, config_path: Seq<u8>, workspace: Seq<u8>, stages: Option<Seq<Seq<char>>>)
    ensures
        ({
            let s = with_source(begun(config_path, workspace), c, config_dir(config_path), workspace, stages);
            let r = translated(c, config_path, workspace, stages);
            &&& extends(s, r)
            &&& being_carried(r, c)
            &&& c.customizations matches Some(x) ==> editor_carried(r, x.others.deep_view())
            &&& c.customizations matches Some(x) ==> (x.virtkit matches Some(v) ==> (v.cache matches Some(y) ==> (
            y.registry matches Some(g) ==> sets(
                r,
                seq!["dev"@, "cache"@],
                EntryView::Value("registry"@, Tree::Text(g@)),
            ))))
        }),
{
    broadcast use lemma_same_sections;

    let dir = config_dir(config_path);
    let d0 = begun(config_path, workspace);
    let s = with_source(d0, c, dir, workspace, stages);
    let r = translated(c, config_path, workspace, stages);
    lemma_source_steps(c, config_path, workspace, stages);
    lemma_being(s, c);
    let d2 = with_being(s, c);
    let d3 = match c.customizations {
        Some(x) => with_editor(d2, x.others.deep_view()),
        None => d2,
    };
    if let Some(x) = c.customizations {
        lemma_editor(d2, x.others.deep_view());
    }
    lemma_host(d3, virtkit_of(c), dir, workspace);
    lemma_extends_on(d2, d3, r);
    lemma_extends_on(s, d2, r);
    lemma_being_stays(d2, r, c);
    if let Some(x) = c.customizations {
        lemma_editor_stays(d3, r, x.others.deep_view());
    }
}

proof fn lemma_editor_stays(a: DraftView, b: DraftView, others: Seq<(Seq<char>, JsonTree)>)
    requires
        extends(a, b),
        editor_carried(a, others),
    ensures
        editor_carried(b, others),
{
    if let Some(JsonTree::Object(vs)) = entry(others, "vscode"@) {
        let path = seq!["dev"@, "editor"@, "vscode"@];
        lemma_still_set(a, b, path, EntryView::Value("state"@, Tree::Text("persistent"@)));
        if let Some(JsonTree::Object(o)) = entry(vs, "settings"@) {
            lemma_settings_stay(a, b, o);
        }
        if let Some(JsonTree::Array(l)) = entry(vs, "extensions"@) {
            let e = EntryView::Value("extensions"@, texts_tree(texts_among(l, l.len() as int)));
            lemma_still_set(a, b, path, e);
        }
    }
}

proof fn lemma_source_steps(c: Config, config_path: Seq<u8>, workspace: Seq<u8>, stages: Option<Seq<Seq<char>>>)
    ensures
        ({
            let dir = config_dir(config_path);
            let d0 = begun(config_path, workspace);
            let d1 = with_compose(d0, c, dir, workspace);
            let d2 = with_service(d1, c);
            let d3 = with_image(d2, c);
            let s = with_source(d0, c, dir, workspace, stages);
            &&& at(d0, dev()) && at(d1, dev()) && at(d2, dev()) && at(d3, dev()) && at(s, dev())
            &&& extends(d1, s) && extends(d2, s) && extends(d3, s)
            &&& s == with_build(d3, c, dir, workspace, stages)
        }),
{
    broadcast use lemma_same_sections;

    let dir = config_dir(config_path);
    let d0 = begun(config_path, workspace);
    let d1 = with_compose(d0, c, dir, workspace);
    let d2 = with_service(d1, c);
    let d3 = with_image(d2, c);
    let s = with_source(d0, c, dir, workspace, stages);
    lemma_begun(config_path, workspace);
    lemma_compose_step(d0, c, dir, workspace);
    lemma_service_step(d1, c);
    lemma_image_step(d2, c);
    lemma_build_step(d3, c, dir, workspace, stages);
    lemma_extends_on(d2, d3, s);
    lemma_extends_on(d1, d2, s);
}

/// What a devcontainer file says of how one is in the environment is in the draft: the workspace
/// folder, the user, both environments, every host path mounted and every port forwarded, and the
/// lifecycle commands each under the hook it is.
pub proof fn law_being_is_imported(c: Config, config_path: Seq<u8>, workspace: Seq<u8>, stages: Option<Seq<Seq<char>>>)
    ensures
        being_carried(translated(c, config_path, workspace, stages), c),
        c.customizations matches Some(x) ==> editor_carried(
            translated(c, config_path, workspace, stages),
            x.others.deep_view(),
        ),
        c.customizations matches Some(x) ==> (x.virtkit matches Some(v) ==> (v.cache matches Some(y) ==> (
        y.registry matches Some(g) ==> sets(
            translated(c, config_path, workspace, stages),
            seq!["dev"@, "cache"@],
            EntryView::Value("registry"@, Tree::Text(g@)),
        )))),
{
    lemma_from_source(c, config_path, workspace, stages);
}

/// The draft boots the image that the file names, where it names no compose file.
pub proof fn law_image_is_imported(
    c: Config,
    config_path: Seq<u8>,
    workspace: Seq<u8>,
    stages: Option<Seq<Seq<char>>>,
    reference: Seq<char>,
)
    requires
        !has_compose(c),
        c.image matches Some(v) && v.deep_view() == JsonTree::Text(reference),
    ensures
        sets(
            translated(c, config_path, workspace, stages),
            seq!["dev"@],
            EntryView::Value("image"@, Tree::Text(reference)),
        ),
{
    let dir = config_dir(config_path);
    let d0 = begun(config_path, workspace);
    let d2 = with_service(with_compose(d0, c, dir, workspace), c);
    lemma_source_steps(c, config_path, workspace, stages);
    lemma_image_step(d2, c);
    lemma_from_source(c, config_path, workspace, stages);
    let e = EntryView::Value("image"@, Tree::Text(reference));
    let s = with_source(d0, c, dir, workspace, stages);
    lemma_still_set(with_image(d2, c), s, dev(), e);
    lemma_still_set(s, translated(c, config_path, workspace, stages), dev(), e);
}

/// The compose file that the file names: vk's own over the editors'.
pub open spec fn compose_named(c: Config) -> Option<Seq<char>> {
    if c.customizations is Some && c.customizations->0.virtkit is Some
        && c.customizations->0.virtkit->0.docker_compose_file is Some {
        Some(c.customizations->0.virtkit->0.docker_compose_file->0@)
    } else {
        match c.docker_compose_file {
            Some(OneOrMany::One(f)) => Some(f@),
            _ => None,
        }
    }
}

/// The service that the file names: vk's own over the editors'.
pub open spec fn service_named(c: Config) -> Option<Seq<char>> {
    if c.customizations is Some && c.customizations->0.virtkit is Some && c.customizations->0.virtkit->0.service is Some {
        Some(c.customizations->0.virtkit->0.service->0@)
    } else {
        match c.service {
            Some(s) => Some(s@),
            None => None,
        }
    }
}

/// The draft drives the compose file that the file names, wherever that lies in the project, and
/// works in the service it names.
pub proof fn law_compose_is_imported(
    c: Config,
    config_path: Seq<u8>,
    workspace: Seq<u8>,
    stages: Option<Seq<Seq<char>>>,
    file: Seq<char>,
)
    requires
        compose_named(c) == Some(file),
        is_abs(workspace),
        parent_of(config_path) is Some,
        plain(file),
        under(place(config_path, file), workspace),
        valid_utf8(relative_to(place(config_path, file), workspace)->0),
    ensures
        exists|t: Seq<char>| #[trigger]
            sets(
                translated(c, config_path, workspace, stages),
                dev(),
                EntryView::Value("compose"@, Tree::Text(t)),
            ) && leads(workspace, t, place(config_path, file)),
        service_named(c) matches Some(s) ==> sets(
            translated(c, config_path, workspace, stages),
            seq!["dev"@],
            EntryView::Value("service"@, Tree::Text(s)),
        ),
{
    let dir = config_dir(config_path);
    let d0 = begun(config_path, workspace);
    let d1 = with_compose(d0, c, dir, workspace);
    let d2 = with_service(d1, c);
    let s = with_source(d0, c, dir, workspace, stages);
    let r = translated(c, config_path, workspace, stages);
    lemma_source_steps(c, config_path, workspace, stages);
    lemma_compose_step(d0, c, dir, workspace);
    lemma_service_step(d1, c);
    lemma_from_source(c, config_path, workspace, stages);
    let key = if crate::translate::own_compose(c) is Some {
        "customizations.virtkit.dockerComposeFile"@
    } else {
        "dockerComposeFile"@
    };
    lemma_rebased_leads(d0, config_path, workspace, key, file);
    let t = rebased(d0, dir, workspace, key, file).1;
    let e = EntryView::Value("compose"@, Tree::Text(t));
    assert(sets(d1, dev(), e));
    lemma_still_set(d1, s, dev(), e);
    lemma_still_set(s, r, dev(), e);
    if let Some(n) = service_named(c) {
        let x = EntryView::Value("service"@, Tree::Text(n));
        lemma_still_set(d2, s, dev(), x);
        lemma_still_set(s, r, dev(), x);
    }
}

/// The Dockerfile that the file builds from: under `build`, or the older key of its own.
pub open spec fn dockerfile_named(c: Config) -> Option<Seq<char>> {
    match c.build {
        Some(b) => match b.deep_view() {
            JsonTree::Object(o) => match entry(o, "dockerfile"@) {
                Some(JsonTree::Text(t)) => Some(t),
                Some(_) => None,
                None => match c.docker_file {
                    Some(v) => match v.deep_view() {
                        JsonTree::Text(t) => Some(t),
                        _ => None,
                    },
                    None => None,
                },
            },
            _ => match c.docker_file {
                Some(v) => match v.deep_view() {
                    JsonTree::Text(t) => Some(t),
                    _ => None,
                },
                None => None,
            },
        },
        None => match c.docker_file {
            Some(v) => match v.deep_view() {
                JsonTree::Text(t) => Some(t),
                _ => None,
            },
            None => None,
        },
    }
}

/// The build context of the file: what it says, or the directory it is in.
pub open spec fn context_named(c: Config) -> Seq<char> {
    match c.build {
        Some(b) => match b.deep_view() {
            JsonTree::Object(o) => match entry(o, "context"@) {
                Some(JsonTree::Text(t)) => t,
                _ => "."@,
            },
            _ => "."@,
        },
        None => "."@,
    }
}

/// The stage of the file, where it names one.
pub open spec fn stage_named(c: Config) -> Option<Seq<char>> {
    match c.build {
        Some(b) => match b.deep_view() {
            JsonTree::Object(o) => match entry(o, "target"@) {
                Some(JsonTree::Text(t)) => Some(t),
                _ => None,
            },
            _ => None,
        },
        None => None,
    }
}

proof fn lemma_table_entries(
    d: DraftView,
    c: Config,
    dir: Seq<u8>,
    workspace: Seq<u8>,
    df: Seq<char>,
    stages: Option<Seq<Seq<char>>>,
)
    ensures
        ({
            let t = drafted_table(d, c, dir, workspace, df, stages);
            let (d1, context) = rebased(d, dir, workspace, "build.context"@, context_named(c));
            let (d2, rel) = rebased(d1, dir, workspace, "build.dockerfile"@, df);
            &&& entry(t, "context"@) == Some(Tree::Text(context))
            &&& entry(t, "dockerfile"@) == Some(Tree::Text(inside_context(d2, rel, context).1))
            &&& stage_named(c) matches Some(s) ==> entry(t, "target"@) == Some(Tree::Text(s))
        }),
{
    reveal_strlit("context");
    reveal_strlit("dockerfile");
    reveal_strlit("args");
    reveal_strlit("target");
    assert("context"@.len() == 7 && "dockerfile"@.len() == 10 && "args"@.len() == 4 && "target"@.len() == 6);
    let (d1, context) = rebased(d, dir, workspace, "build.context"@, context_named(c));
    let (d2, rel) = rebased(d1, dir, workspace, "build.dockerfile"@, df);
    let (d3, inside) = inside_context(d2, rel, context);
    let none = Seq::<(Seq<char>, Tree)>::empty();
    let t0 = with_entry(none, "context"@, Tree::Text(context));
    let t1 = with_entry(t0, "dockerfile"@, Tree::Text(inside));
    lemma_with_entry(none, "context"@, Tree::Text(context));
    lemma_with_entry(t0, "dockerfile"@, Tree::Text(inside));
    let t2 = with_target(d3, t1, c, workspace, rel, inside, stages).1;
    if t2 != t1 {
        let x = match stage_named(c) {
            Some(s) => s,
            None => ""@,
        };
        lemma_with_entry(t1, "target"@, Tree::Text(x));
        assert(t2 == with_entry(t1, "target"@, Tree::Text(x)));
    } else if let Some(s) = stage_named(c) {
        lemma_with_entry(t1, "target"@, Tree::Text(s));
    }
    lemma_with_entry(t2, "args"@, Tree::Table(build_args(c).0));
}

/// A build is imported as the file says it: its context names, from the project, the directory that
/// the file's context names from its own, and its Dockerfile, taken from that context, the one that
/// the file names. The stage is the file's where it names one.
pub proof fn law_build_is_imported(
    c: Config,
    config_path: Seq<u8>,
    workspace: Seq<u8>,
    stages: Option<Seq<Seq<char>>>,
    df: Seq<char>,
)
    requires
        !has_compose(c),
        c.image is None,
        dockerfile_named(c) == Some(df),
        is_abs(workspace),
        parent_of(config_path) is Some,
        plain(df),
        plain(context_named(c)),
        under(place(config_path, context_named(c)), workspace),
        valid_utf8(relative_to(place(config_path, context_named(c)), workspace)->0),
    ensures
        exists|t: Seq<(Seq<char>, Tree)>| #[trigger]
            sets(
                translated(c, config_path, workspace, stages),
                dev(),
                EntryView::Value("build"@, Tree::Table(t)),
            ) && build_carried(t, c, config_path, workspace, df),
{
    let dir = config_dir(config_path);
    let d0 = begun(config_path, workspace);
    let d3 = with_image(with_service(with_compose(d0, c, dir, workspace), c), c);
    let s = with_source(d0, c, dir, workspace, stages);
    let r = translated(c, config_path, workspace, stages);
    lemma_source_steps(c, config_path, workspace, stages);
    assert(crate::translate::dockerfile_of(c) == Some(df));
    lemma_build_step(d3, c, dir, workspace, stages);
    lemma_from_source(c, config_path, workspace, stages);
    let t = drafted_table(d3, c, dir, workspace, df, stages);
    let e = EntryView::Value("build"@, Tree::Table(t));
    lemma_still_set(s, r, dev(), e);
    lemma_table_entries(d3, c, dir, workspace, df, stages);
    lemma_rebased_leads(d3, config_path, workspace, "build.context"@, context_named(c));
    let (d4, context) = rebased(d3, dir, workspace, "build.context"@, context_named(c));
    let (d5, rel) = rebased(d4, dir, workspace, "build.dockerfile"@, df);
    if under(place(config_path, df), workspace) && valid_utf8(relative_to(place(config_path, df), workspace)->0) {
        lemma_rebased_leads(d4, config_path, workspace, "build.dockerfile"@, df);
        lemma_inside(d5, config_path, workspace, context_named(c), df, context, rel);
    }
    assert(build_carried(t, c, config_path, workspace, df));
}

/// The table says what the file does of its build.
pub open spec fn build_carried(
    t: Seq<(Seq<char>, Tree)>,
    c: Config,
    config_path: Seq<u8>,
    workspace: Seq<u8>,
    df: Seq<char>,
) -> bool {
    &&& entry(t, "context"@) matches Some(Tree::Text(x)) && leads(workspace, x, place(config_path, context_named(c)))
    &&& entry(t, "dockerfile"@) is Some
    &&& under(place(config_path, df), workspace) && valid_utf8(
        relative_to(place(config_path, df), workspace)->0,
    ) && under(place(config_path, df), place(config_path, context_named(c))) && place(config_path, df) != place(
        config_path,
        context_named(c),
    ) ==> (entry(t, "dockerfile"@) matches Some(Tree::Text(g)) && normal(
        joined_path(place(config_path, context_named(c)), encode_utf8(g)),
    ) == place(config_path, df))
    &&& stage_named(c) matches Some(s) ==> entry(t, "target"@) == Some(Tree::Text(s))
}

proof fn lemma_inside(
    d: DraftView,
    config_path: Seq<u8>,
    workspace: Seq<u8>,
    given: Seq<char>,
    df: Seq<char>,
    context: Seq<char>,
    rel: Seq<char>,
)
    requires
        is_abs(workspace),
        leads(workspace, context, place(config_path, given)),
        leads(workspace, rel, place(config_path, df)),
        !is_abs(encode_utf8(context)),
        !is_abs(encode_utf8(rel)),
        under(place(config_path, given), workspace),
        under(place(config_path, df), workspace),
        ({
            let w = place(config_path, given);
            ||| context == "."@ && comps(w) == comps(workspace)
            ||| comps(encode_utf8(context)) == comps(w).skip(comps(workspace).len() as int) && comps(
                encode_utf8(context),
            ).len() > 0 && context != "."@
        }),
        ({
            let w = place(config_path, df);
            ||| rel == "."@ && comps(w) == comps(workspace)
            ||| comps(encode_utf8(rel)) == comps(w).skip(comps(workspace).len() as int) && comps(encode_utf8(rel)).len()
                > 0 && rel != "."@
        }),
    ensures
        under(place(config_path, df), place(config_path, given)) && place(config_path, df) != place(config_path, given)
            ==> normal(joined_path(place(config_path, given), encode_utf8(inside_context(d, rel, context).1)))
            == place(config_path, df),
{
    let w = place(config_path, given);
    let x = place(config_path, df);
    if under(x, w) && x != w {
        lemma_dot_text();
        lemma_comps_of_dot();
        law_normal_idempotent(joined_path(parent_of(config_path)->0, encode_utf8(given)));
        law_normal_idempotent(joined_path(parent_of(config_path)->0, encode_utf8(df)));
        law_normal_is_folded(w);
        law_normal_is_folded(x);
        let n = comps(workspace).len() as int;
        let m = comps(w).len() as int;
        assert(is_abs(w) && is_abs(x));
        assert(comps(x).len() > m) by {
            if comps(x).len() == m {
                assert(comps(x).take(m) =~= comps(x));
                law_folds_to(x, w);
            }
        }
        let a = encode_utf8(rel);
        let b = encode_utf8(context);
        assert(rel != "."@) by {
            if rel == "."@ {
                assert(comps(x).len() == n);
            }
        }
        assert(comps(a) == comps(x).skip(n));
        if context == "."@ {
            assert(comps(a)[0] == comps(x)[n]);
            assert(!under(a, b)) by {
                if under(a, b) {
                    assert(comps(a).take(1)[0] == comps(b)[0]);
                }
            }
            assert(inside_context(d, rel, context).1 == rel);
            assert(m == n);
            law_joined_components(w, a);
            assert(comps(w) + comps(a) =~= comps(x)) by {
                assert(comps(x).take(m) == comps(w));
                assert(comps(x).take(n) + comps(x).skip(n) =~= comps(x));
            }
            law_folds_to(joined_path(w, a), x);
        } else {
            assert(comps(b) == comps(w).skip(n));
            assert(comps(b).len() == m - n);
            assert(under(a, b)) by {
                assert(comps(a).take(m - n) =~= comps(b)) by {
                    assert(comps(x).take(m) == comps(w));
                    assert forall|i: int| 0 <= i < m - n implies comps(a)[i] == comps(b)[i] by {
                        assert(comps(a)[i] == comps(x)[n + i]);
                        assert(comps(x).take(m)[n + i] == comps(w)[n + i]);
                    }
                }
            }
            crate::path::law_rest_has_what_is_left(a, b);
            let r = relative_to(a, b)->0;
            assert(comps(r) == comps(a).skip(m - n));
            assert(comps(a).skip(m - n) =~= comps(x).skip(m));
            assert(comps(r).len() > 0);
            assert(comps(r)[0] == comps(x)[m]);
            encode_utf8_valid_utf8(rel);
            crate::path::lemma_rest_utf8(a, b);
            decode_utf8_encode_utf8(r);
            assert(encode_utf8(inside_context(d, rel, context).1) == r);
            law_joined_components(w, r);
            assert(comps(w) + comps(r) =~= comps(x)) by {
                assert(comps(x).take(m) == comps(w));
                assert(comps(x).take(m) + comps(x).skip(m) =~= comps(x));
            }
            law_folds_to(joined_path(w, r), x);
        }
    }
}

} // verus!
