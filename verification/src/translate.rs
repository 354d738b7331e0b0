//! A devcontainer config as a first `.virtkit/config.toml`. Data conversion only: nothing is
//! executed, downloaded or booted.
//!
//! Paths in a devcontainer file are relative to the file; in the draft they are relative to the
//! workspace root, so every one is rebased. Variables change spelling.

use crate::devcontainer::{
    fields_of, json_to_toml, lifecycle_tree, lifecycle_value, mount_fields, rewrite_vars, rewritten, texts_toml,
    texts_tree, toml_of_json, Config, Lifecycle, Mount, OneOrMany, Port, Virtkit,
};
use crate::draft::{one, three, two, Draft, DraftView};
use crate::entries::{entry, get, put_entry, with_entry};
use crate::path::{
    is_abs, joined_path, lossy_text, name_of, normal, parent_of, relative_to, text_of_bytes, utf8_text, HostPath,
};
use crate::text::{
    alnum, cat2, cat3, cat4, cat5, cat6, chars_of, contains, copy_opt, cut_at_last, cut_last, debug_list,
    debug_text, decimal, decimal_int, error, holds, is_alnum, is_one_of, join, joined, parse_upto, parsed_signed,
    put, quoted, quoted_list, replace, replaced, same, text_between, to_decimal, Error,
};
use crate::validate::to_decimal_int;
use crate::value::{
    fit_entries, group_json, group_value, json_shown, json_sound, json_text, lemma_put_fit, lemma_table_is_fit,
    Json, JsonTree, Toml, Tree,
};
use vstd::prelude::*;
use vstd::utf8::encode_utf8;

verus! {

broadcast use {group_value, group_json};

/// A path of the file as the draft spells it: relative to the project, and absolute where it
/// points outside, which is reported.
pub open spec fn rebased(
    d: DraftView,
    dir: Seq<u8>,
    workspace: Seq<u8>,
    key: Seq<char>,
    p: Seq<char>,
) -> (DraftView, Seq<char>) {
    let unspelled = (
        d.action(key, "project path is not valid UTF-8; cannot be written to config.toml"@),
        p,
    );
    let named = contains(p, "${localWorkspaceFolder}"@);
    if named && text_of_bytes(workspace) is None {
        unspelled
    } else {
        let expanded = if named {
            replaced(p, "${localWorkspaceFolder}"@, text_of_bytes(workspace)->0)
        } else {
            p
        };
        let whole = normal(joined_path(dir, encode_utf8(expanded)));
        match relative_to(whole, workspace) {
            Some(rel) => if rel.len() == 0 {
                (d, "."@)
            } else {
                match text_of_bytes(rel) {
                    Some(t) => (d, t),
                    None => unspelled,
                }
            },
            None => match text_of_bytes(whole) {
                None => unspelled,
                Some(t) => (
                    d.action(
                        key,
                        debug_text(p)
                            + " points outside the project; the draft keeps it absolute, which only works on this machine"@,
                    ),
                    t,
                ),
            },
        }
    }
}

fn rebase(d: &mut Draft, dir: &HostPath, workspace: &HostPath, key: &str, p: &str) -> (r: String)
    ensures
        rebased(old(d).deep_view(), dir.deep_view(), workspace.deep_view(), key@, p@) == (
            final(d).deep_view(),
            r@,
        ),
        old(d).deep_view().wf() ==> final(d).deep_view().wf(),
{
    proof {
        reveal_strlit("${localWorkspaceFolder}");
    }
    let expanded = if holds(p, "${localWorkspaceFolder}") {
        match workspace.to_str() {
            None => {
                d.action(key, "project path is not valid UTF-8; cannot be written to config.toml");
                return p.to_owned();
            },
            Some(w) => replace(p, "${localWorkspaceFolder}", w.as_str()),
        }
    } else {
        p.to_owned()
    };
    let whole = dir.join_text(expanded.as_str()).lexical_normalize();
    match whole.strip_prefix(workspace) {
        Some(rel) => {
            if rel.bytes.len() == 0 {
                return ".".to_owned();
            }
            match rel.to_str() {
                Some(t) => t,
                None => {
                    d.action(key, "project path is not valid UTF-8; cannot be written to config.toml");
                    p.to_owned()
                },
            }
        },
        None => match whole.to_str() {
            None => {
                d.action(key, "project path is not valid UTF-8; cannot be written to config.toml");
                p.to_owned()
            },
            Some(t) => {
                d.action(
                    key,
                    cat2(
                        quoted(p).as_str(),
                        " points outside the project; the draft keeps it absolute, which only works on this machine",
                    ).as_str(),
                );
                t
            },
        },
    }
}

/// What the file says for `vk` itself.
pub open spec fn virtkit_of(c: Config) -> Option<Virtkit> {
    match c.customizations {
        Some(x) => x.virtkit,
        None => None,
    }
}

fn virtkit(c: &Config) -> (r: Option<&Virtkit>)
    ensures
        match r {
            Some(v) => virtkit_of(*c) == Some(*v),
            None => virtkit_of(*c) is None,
        },
{
    match &c.customizations {
        Some(x) => match &x.virtkit {
            Some(v) => Some(v),
            None => None,
        },
        None => None,
    }
}

/// The compose file `vk` is to drive, where the file names one of its own.
pub open spec fn own_compose(c: Config) -> Option<Seq<char>> {
    match virtkit_of(c) {
        Some(v) => v.docker_compose_file.deep_view(),
        None => None,
    }
}

/// What of the top-level compose files was not taken.
pub open spec fn untaken(vm: Seq<char>, top: Option<OneOrMany>) -> Option<Seq<char>> {
    match top {
        Some(OneOrMany::One(o)) => if o@ != vm {
            Some(o@)
        } else {
            None
        },
        Some(OneOrMany::Many(f)) => Some(joined(f.deep_view(), ", "@)),
        None => None,
    }
}

/// The first `n` files as the draft spells them, one after the other.
pub open spec fn rebased_upto(
    d: DraftView,
    dir: Seq<u8>,
    workspace: Seq<u8>,
    files: Seq<Seq<char>>,
    n: int,
) -> (DraftView, Seq<Seq<char>>)
    decreases n,
{
    if n <= 0 {
        (d, Seq::empty())
    } else {
        let (e, done) = rebased_upto(d, dir, workspace, files, n - 1);
        let (f, t) = rebased(e, dir, workspace, "dockerComposeFile"@, files[n - 1]);
        (f, done.push(t))
    }
}

/// The file describes its environment with compose.
pub open spec fn has_compose(c: Config) -> bool {
    own_compose(c) is Some || c.docker_compose_file is Some
}

/// The draft with the compose file carried over.
pub open spec fn with_compose(d: DraftView, c: Config, dir: Seq<u8>, workspace: Seq<u8>) -> DraftView {
    match (own_compose(c), c.docker_compose_file) {
        (Some(vm), top) => {
            let (e, rel) = rebased(d, dir, workspace, "customizations.virtkit.dockerComposeFile"@, vm);
            e.put("compose"@, rel).translated(
                "compose"@,
                match untaken(vm, top) {
                    Some(docker) => "from customizations.virtkit.dockerComposeFile"@
                        + "; the Docker devcontainer's "@ + debug_text(docker)
                        + " was not taken — the editors keep reading it from devcontainer.json"@,
                    None => "from customizations.virtkit.dockerComposeFile"@,
                },
            )
        },
        (None, Some(OneOrMany::One(f))) => {
            let (e, rel) = rebased(d, dir, workspace, "dockerComposeFile"@, f@);
            e.put("compose"@, rel).action(
                "compose"@,
                "taken from dockerComposeFile as written; if the VM LAN is described by a different compose file than the Docker devcontainer's, point `compose` and `service` at it"@,
            )
        },
        (None, Some(OneOrMany::Many(files))) => {
            let (e, shown) = rebased_upto(d, dir, workspace, files.deep_view(), files@.len() as int);
            e.commented(
                "compose"@,
                debug_text(
                    if shown.len() > 0 {
                        shown[0]
                    } else {
                        ""@
                    },
                ),
            ).essential(
                "dockerComposeFile"@,
                "lists "@ + decimal(files@.len()) + " files ("@ + joined(shown, ", "@)
                    + "); vk reads one — resolve them into one (`docker compose config`) or name the one that is the LAN"@,
            )
        },
        (None, None) => d,
    }
}

fn carry_compose(d: &mut Draft, c: &Config, dir: &HostPath, workspace: &HostPath) -> (r: bool)
    ensures
        final(d).deep_view() == with_compose(old(d).deep_view(), *c, dir.deep_view(), workspace.deep_view()),
        r == has_compose(*c),
        old(d).deep_view().wf() ==> final(d).deep_view().wf(),
{
    let own = match virtkit(c) {
        Some(v) => copy_opt(&v.docker_compose_file),
        None => None,
    };
    assert(own.deep_view() == own_compose(*c));
    if let Some(vm) = own {
        let rel = rebase(d, dir, workspace, "customizations.virtkit.dockerComposeFile", vm.as_str());
        d.put("compose", rel.as_str());
        let docker = match &c.docker_compose_file {
            Some(OneOrMany::One(o)) => if !same(o.as_str(), vm.as_str()) {
                Some(o.clone())
            } else {
                None
            },
            Some(OneOrMany::Many(f)) => Some(join(f, ", ")),
            None => None,
        };
        let note = match docker {
            Some(t) => cat4(
                "from customizations.virtkit.dockerComposeFile",
                "; the Docker devcontainer's ",
                quoted(t.as_str()).as_str(),
                " was not taken — the editors keep reading it from devcontainer.json",
            ),
            None => "from customizations.virtkit.dockerComposeFile".to_owned(),
        };
        d.translated("compose", note.as_str());
        return true;
    }
    match &c.docker_compose_file {
        Some(OneOrMany::One(f)) => {
            let rel = rebase(d, dir, workspace, "dockerComposeFile", f.as_str());
            d.put("compose", rel.as_str());
            d.action(
                "compose",
                "taken from dockerComposeFile as written; if the VM LAN is described by a different compose file than the Docker devcontainer's, point `compose` and `service` at it",
            );
            true
        },
        Some(OneOrMany::Many(files)) => {
            let mut shown: Vec<String> = Vec::new();
            let ghost start = d.deep_view();
            let ghost fs = files.deep_view();
            let ghost dv = dir.deep_view();
            let ghost wv = workspace.deep_view();
            let mut i: usize = 0;
            assert(shown.deep_view() =~= Seq::<Seq<char>>::empty());
            while i < files.len()
                invariant
                    i <= files@.len(),
                    fs == files.deep_view(),
                    dv == dir.deep_view(),
                    wv == workspace.deep_view(),
                    start == old(d).deep_view(),
                    rebased_upto(start, dv, wv, fs, i as int) == (d.deep_view(), shown.deep_view()),
                    start.wf() ==> d.deep_view().wf(),
                decreases files@.len() - i,
            {
                assert(fs[i as int] == files@[i as int]@);
                let t = rebase(d, dir, workspace, "dockerComposeFile", files[i].as_str());
                put(&mut shown, t);
                i = i + 1;
            }
            assert(shown@.len() == shown.deep_view().len());
            let first = if shown.len() > 0 {
                assert(shown.deep_view()[0] == shown@[0]@);
                shown[0].clone()
            } else {
                "".to_owned()
            };
            d.commented("compose", quoted(first.as_str()).as_str());
            d.essential(
                "dockerComposeFile",
                cat5(
                    "lists ",
                    to_decimal(files.len() as u64).as_str(),
                    " files (",
                    join(&shown, ", ").as_str(),
                    "); vk reads one — resolve them into one (`docker compose config`) or name the one that is the LAN",
                ).as_str(),
            );
            true
        },
        None => false,
    }
}

/// The compose service one works in, as the file says.
pub open spec fn service_of(c: Config) -> Option<Seq<char>> {
    match virtkit_of(c) {
        Some(v) => match v.service {
            Some(s) => Some(s@),
            None => c.service.deep_view(),
        },
        None => c.service.deep_view(),
    }
}

/// The draft with the service, where there is a compose file to have one.
pub open spec fn with_service(d: DraftView, c: Config) -> DraftView {
    if !has_compose(c) {
        let e = match service_of(c) {
            Some(s) => d.action("service"@, debug_text(s) + " names a service, and there is no compose source"@),
            None => d,
        };
        match c.run_services {
            Some(rs) => e.action(
                "runServices"@,
                debug_list(rs.deep_view()) + ": there is no compose source to start services of"@,
            ),
            None => e,
        }
    } else {
        let e = match service_of(c) {
            Some(s) => d.put("service"@, s).translated("service"@, ""@),
            None => d.commented("service"@, "\"\""@).essential(
                "service"@,
                "which compose service is the one you work in"@,
            ),
        };
        match c.run_services {
            Some(rs) => e.action(
                "runServices"@,
                debug_list(rs.deep_view())
                    + ": compose's dependency closure and `profiles` decide what starts; list profiled services' profiles under `profiles`"@,
            ),
            None => e,
        }
    }
}

fn carry_service(d: &mut Draft, c: &Config, compose: bool)
    requires
        compose == has_compose(*c),
    ensures
        final(d).deep_view() == with_service(old(d).deep_view(), *c),
        old(d).deep_view().wf() ==> final(d).deep_view().wf(),
{
    let service = match virtkit(c) {
        Some(v) => match &v.service {
            Some(s) => Some(s.clone()),
            None => copy_opt(&c.service),
        },
        None => copy_opt(&c.service),
    };
    assert(service.deep_view() == service_of(*c));
    if !compose {
        if let Some(s) = service {
            d.action(
                "service",
                cat2(quoted(s.as_str()).as_str(), " names a service, and there is no compose source").as_str(),
            );
        }
        if let Some(rs) = &c.run_services {
            d.action(
                "runServices",
                cat2(quoted_list(rs).as_str(), ": there is no compose source to start services of").as_str(),
            );
        }
        return;
    }
    match service {
        Some(s) => {
            d.put("service", s.as_str());
            d.translated("service", "");
        },
        None => {
            d.commented("service", "\"\"");
            d.essential("service", "which compose service is the one you work in");
        },
    }
    if let Some(rs) = &c.run_services {
        d.action(
            "runServices",
            cat2(
                quoted_list(rs).as_str(),
                ": compose's dependency closure and `profiles` decide what starts; list profiled services' profiles under `profiles`",
            ).as_str(),
        );
    }
}

/// The values the report may quote can be written out.
pub open spec fn quotable(c: Config) -> bool {
    &&& c.image matches Some(v) ==> json_sound(v.deep_view())
    &&& c.build matches Some(v) ==> json_sound(v.deep_view())
    &&& c.customizations matches Some(x) ==> forall|i: int|
        0 <= i < x.others.deep_view().len() ==> json_sound((#[trigger] x.others.deep_view()[i]).1)
}

/// A JSON value that is a text.
pub open spec fn text_in(v: JsonTree) -> Option<Seq<char>> {
    match v {
        JsonTree::Text(s) => Some(s),
        _ => None,
    }
}

fn as_text(v: &Json) -> (r: Option<String>)
    ensures
        r.deep_view() == text_in(v.deep_view()),
{
    match v {
        Json::Text(s) => Some(s.clone()),
        _ => None,
    }
}

/// The draft with the image, where no compose file is its source.
pub open spec fn with_image(d: DraftView, c: Config) -> DraftView {
    match c.image {
        None => d,
        Some(v) => match text_in(v.deep_view()) {
            Some(i) => if has_compose(c) {
                d.action("image"@, "ignored beside a compose source"@)
            } else {
                d.put("image"@, i).translated("image"@, ""@)
            },
            None => d.action("image"@, json_shown(v.deep_view()) + ": expected a string"@),
        },
    }
}

fn carry_image(d: &mut Draft, c: &Config, compose: bool)
    requires
        compose == has_compose(*c),
        quotable(*c),
    ensures
        final(d).deep_view() == with_image(old(d).deep_view(), *c),
        old(d).deep_view().wf() ==> final(d).deep_view().wf(),
{
    if let Some(v) = &c.image {
        match as_text(v) {
            Some(i) => {
                if compose {
                    d.action("image", "ignored beside a compose source");
                } else {
                    d.put("image", i.as_str());
                    d.translated("image", "");
                }
            },
            None => d.action("image", cat2(json_text(v).as_str(), ": expected a string").as_str()),
        }
    }
}

/// A field of the build object.
pub open spec fn build_field(c: Config, k: Seq<char>) -> Option<JsonTree> {
    match c.build {
        Some(v) => match v.deep_view() {
            JsonTree::Object(o) => entry(o, k),
            _ => None,
        },
        None => None,
    }
}

fn in_build<'a>(c: &'a Config, k: &str) -> (r: Option<&'a Json>)
    ensures
        r.deep_view() == build_field(*c, k@),
{
    match &c.build {
        Some(Json::Object(o)) => get(o, k),
        _ => None,
    }
}

/// A text among the fields of the build object.
pub open spec fn build_text(c: Config, k: Seq<char>) -> Option<Seq<char>> {
    match build_field(c, k) {
        Some(v) => text_in(v),
        None => None,
    }
}

fn text_in_build(c: &Config, k: &str) -> (r: Option<String>)
    ensures
        r.deep_view() == build_text(*c, k@),
{
    match in_build(c, k) {
        Some(v) => as_text(v),
        None => None,
    }
}

/// The Dockerfile: `build.dockerfile`, or the legacy top-level key that says the same.
pub open spec fn dockerfile_of(c: Config) -> Option<Seq<char>> {
    match build_field(c, "dockerfile"@) {
        Some(v) => text_in(v),
        None => match c.docker_file {
            Some(v) => text_in(v.deep_view()),
            None => None,
        },
    }
}

fn dockerfile(c: &Config) -> (r: Option<String>)
    ensures
        r.deep_view() == dockerfile_of(*c),
{
    match in_build(c, "dockerfile") {
        Some(v) => as_text(v),
        None => match &c.docker_file {
            Some(v) => as_text(v),
            None => None,
        },
    }
}

/// The Dockerfile as the draft spells it, relative to the build context; reported where it is
/// outside.
pub open spec fn inside_context(d: DraftView, df: Seq<char>, context: Seq<char>) -> (DraftView, Seq<char>) {
    match relative_to(encode_utf8(df), encode_utf8(context)) {
        Some(rel) => (
            d,
            match text_of_bytes(rel) {
                Some(t) => t,
                None => df,
            },
        ),
        None => if context == "."@ {
            (d, df)
        } else {
            (
                d.action(
                    "build.dockerfile"@,
                    debug_text(df) + " is outside the build context "@ + debug_text(context)
                        + "; the draft reads `dockerfile` relative to `context`, so set it by hand"@,
                ),
                df,
            )
        },
    }
}

fn in_context(d: &mut Draft, df: &str, context: &str) -> (r: String)
    ensures
        inside_context(old(d).deep_view(), df@, context@) == (final(d).deep_view(), r@),
        old(d).deep_view().wf() ==> final(d).deep_view().wf(),
{
    let path = HostPath::from_text(df);
    match path.strip_prefix(&HostPath::from_text(context)) {
        Some(rel) => match rel.to_str() {
            Some(t) => t,
            None => df.to_owned(),
        },
        None => {
            if !same(context, ".") {
                d.action(
                    "build.dockerfile",
                    cat4(
                        quoted(df).as_str(),
                        " is outside the build context ",
                        quoted(context).as_str(),
                        "; the draft reads `dockerfile` relative to `context`, so set it by hand",
                    ).as_str(),
                );
            }
            df.to_owned()
        },
    }
}

/// The build table with the stage to boot: the one the file names; left for the reader where
/// the Dockerfile has several.
pub open spec fn with_target(
    d: DraftView,
    t: Seq<(Seq<char>, Tree)>,
    c: Config,
    workspace: Seq<u8>,
    df: Seq<char>,
    inside: Seq<char>,
    stages: Option<Seq<Seq<char>>>,
) -> (DraftView, Seq<(Seq<char>, Tree)>) {
    match build_text(c, "target"@) {
        Some(x) => (d, with_entry(t, "target"@, Tree::Text(x))),
        None => if is_abs(encode_utf8(df)) {
            (d, t)
        } else {
            match stages {
                Some(s) => if s.len() > 1 {
                    (
                        d.essential(
                            "build.target"@,
                            inside + " has "@ + decimal(s.len()) + " named stages ("@ + joined(s, ", "@)
                                + "); say which one is the development environment rather than taking the last"@,
                        ),
                        with_entry(t, "target"@, Tree::Text(""@)),
                    )
                } else {
                    (d, t)
                },
                None => (
                    d.action(
                        "build.target"@,
                        "could not read "@ + lossy_text(joined_path(workspace, encode_utf8(df)))
                            + " to count its stages; set `target` if it has more than one"@,
                    ),
                    t,
                ),
            }
        },
    }
}

fn carry_target(
    d: &mut Draft,
    t: &mut Vec<(String, Toml)>,
    c: &Config,
    workspace: &HostPath,
    df: &str,
    inside: &str,
    stages: &Option<Vec<String>>,
)
    ensures
        with_target(
            old(d).deep_view(),
            old(t).deep_view(),
            *c,
            workspace.deep_view(),
            df@,
            inside@,
            stages.deep_view(),
        ) == (final(d).deep_view(), final(t).deep_view()),
        old(d).deep_view().wf() ==> final(d).deep_view().wf(),
        fit_entries(old(t).deep_view()) ==> fit_entries(final(t).deep_view()),
{
    match text_in_build(c, "target") {
        Some(x) => {
            proof {
                if fit_entries(t.deep_view()) {
                    lemma_put_fit(t.deep_view(), "target"@, Tree::Text(x@));
                }
            }
            put_entry(t, "target".to_owned(), Toml::Text(x));
        },
        None => {
            if HostPath::from_text(df).is_absolute() {
                return;
            }
            match stages {
                Some(s) => {
                    assert(s@.len() == s.deep_view().len());
                    if s.len() > 1 {
                        proof {
                            if fit_entries(t.deep_view()) {
                                lemma_put_fit(t.deep_view(), "target"@, Tree::Text(""@));
                            }
                        }
                        put_entry(t, "target".to_owned(), Toml::Text("".to_owned()));
                        d.essential(
                            "build.target",
                            cat6(
                                inside,
                                " has ",
                                to_decimal(s.len() as u64).as_str(),
                                " named stages (",
                                join(s, ", ").as_str(),
                                "); say which one is the development environment rather than taking the last",
                            ).as_str(),
                        );
                    }
                },
                None => {
                    let path = workspace.join_text(df);
                    d.action(
                        "build.target",
                        cat3(
                            "could not read ",
                            path.display().as_str(),
                            " to count its stages; set `target` if it has more than one",
                        ).as_str(),
                    );
                },
            }
        },
    }
}

/// The literal build arguments, which are carried over, and the names of the others, which are
/// left to the reader.
pub open spec fn args_split(o: Seq<(Seq<char>, JsonTree)>, n: int) -> (Seq<(Seq<char>, Tree)>, Seq<Seq<char>>)
    decreases n,
{
    if n <= 0 {
        (Seq::empty(), Seq::empty())
    } else {
        let (carried, deferred) = args_split(o, n - 1);
        match text_in(o[n - 1].1) {
            Some(v) => if contains(v, "${"@) {
                (carried, deferred.push(o[n - 1].0))
            } else {
                (with_entry(carried, o[n - 1].0, Tree::Text(v)), deferred)
            },
            None => (carried, deferred.push(o[n - 1].0)),
        }
    }
}

/// The build arguments of the file.
pub open spec fn build_args(c: Config) -> (Seq<(Seq<char>, Tree)>, Seq<Seq<char>>) {
    match build_field(c, "args"@) {
        Some(JsonTree::Object(o)) => args_split(o, o.len() as int),
        _ => (Seq::empty(), Seq::empty()),
    }
}

fn split_args(c: &Config) -> (r: (Vec<(String, Toml)>, Vec<String>))
    ensures
        build_args(*c) == (r.0.deep_view(), r.1.deep_view()),
        fit_entries(r.0.deep_view()),
{
    let mut carried: Vec<(String, Toml)> = Vec::new();
    let mut deferred: Vec<String> = Vec::new();
    assert(carried.deep_view() =~= Seq::<(Seq<char>, Tree)>::empty());
    assert(deferred.deep_view() =~= Seq::<Seq<char>>::empty());
    let args = in_build(c, "args");
    if let Some(Json::Object(o)) = args {
        let ghost s = o.deep_view();
        assert(args.deep_view() == Some(JsonTree::Object(s)));
        assert(s.len() == o@.len());
        let mut i: usize = 0;
        while i < o.len()
            invariant
                i <= o@.len(),
                s == o.deep_view(),
                args_split(s, i as int) == (carried.deep_view(), deferred.deep_view()),
                fit_entries(carried.deep_view()),
            decreases o@.len() - i,
        {
            assert(s[i as int] == (o@[i as int].0@, o@[i as int].1.deep_view()));
            match as_text(&o[i].1) {
                Some(v) => {
                    if holds(v.as_str(), "${") {
                        put(&mut deferred, o[i].0.clone());
                    } else {
                        proof {
                            lemma_put_fit(carried.deep_view(), o@[i as int].0@, Tree::Text(v@));
                        }
                        put_entry(&mut carried, o[i].0.clone(), Toml::Text(v));
                    }
                },
                None => put(&mut deferred, o[i].0.clone()),
            }
            i = i + 1;
        }
    }
    (carried, deferred)
}

/// The draft with the Dockerfile build carried over.
pub open spec fn with_dockerfile(
    d: DraftView,
    c: Config,
    dir: Seq<u8>,
    workspace: Seq<u8>,
    df: Seq<char>,
    stages: Option<Seq<Seq<char>>>,
) -> DraftView {
    let (d1, context) = rebased(
        d,
        dir,
        workspace,
        "build.context"@,
        match build_text(c, "context"@) {
            Some(x) => x,
            None => "."@,
        },
    );
    let (d2, df_rel) = rebased(d1, dir, workspace, "build.dockerfile"@, df);
    let (d3, inside) = inside_context(d2, df_rel, context);
    let t0 = with_entry(
        with_entry(Seq::empty(), "context"@, Tree::Text(context)),
        "dockerfile"@,
        Tree::Text(inside),
    );
    let (d4, t1) = with_target(d3, t0, c, workspace, df_rel, inside, stages);
    let (carried, deferred) = build_args(c);
    let t2 = if carried.len() > 0 {
        with_entry(t1, "args"@, Tree::Table(carried))
    } else {
        t1
    };
    let d5 = d4.set("build"@, Tree::Table(t2)).translated("build"@, ""@);
    let d6 = if deferred.len() > 0 {
        d5.action(
            "build.args"@,
            debug_list(deferred) + " carry devcontainer variables; set them by hand under `build.args`"@,
        )
    } else {
        d5
    };
    let d7 = if build_field(c, "options"@) is Some {
        d6.omitted("build.options"@, "docker build options"@)
    } else {
        d6
    };
    if build_field(c, "cacheFrom"@) is Some {
        d7.omitted("build.cacheFrom"@, "docker build options"@)
    } else {
        d7
    }
}

fn carry_dockerfile(
    d: &mut Draft,
    c: &Config,
    dir: &HostPath,
    workspace: &HostPath,
    df: &str,
    stages: &Option<Vec<String>>,
)
    ensures
        final(d).deep_view() == with_dockerfile(
            old(d).deep_view(),
            *c,
            dir.deep_view(),
            workspace.deep_view(),
            df@,
            stages.deep_view(),
        ),
        old(d).deep_view().wf() ==> final(d).deep_view().wf(),
{
    let given = match text_in_build(c, "context") {
        Some(x) => x,
        None => ".".to_owned(),
    };
    let context = rebase(d, dir, workspace, "build.context", given.as_str());
    let df_rel = rebase(d, dir, workspace, "build.dockerfile", df);
    let inside = in_context(d, df_rel.as_str(), context.as_str());
    let mut t: Vec<(String, Toml)> = Vec::new();
    assert(t.deep_view() =~= Seq::<(Seq<char>, Tree)>::empty());
    proof {
        lemma_put_fit(t.deep_view(), "context"@, Tree::Text(context@));
        lemma_put_fit(
            with_entry(t.deep_view(), "context"@, Tree::Text(context@)),
            "dockerfile"@,
            Tree::Text(inside@),
        );
    }
    put_entry(&mut t, "context".to_owned(), Toml::Text(context));
    put_entry(&mut t, "dockerfile".to_owned(), Toml::Text(inside.clone()));
    carry_target(d, &mut t, c, workspace, df_rel.as_str(), inside.as_str(), stages);
    let (carried, deferred) = split_args(c);
    assert(carried@.len() == carried.deep_view().len());
    assert(deferred@.len() == deferred.deep_view().len());
    if carried.len() > 0 {
        proof {
            lemma_table_is_fit(carried.deep_view());
            lemma_put_fit(t.deep_view(), "args"@, Tree::Table(carried.deep_view()));
        }
        put_entry(&mut t, "args".to_owned(), Toml::Table(carried));
    }
    proof {
        lemma_table_is_fit(t.deep_view());
    }
    d.set("build", Toml::Table(t));
    d.translated("build", "");
    if deferred.len() > 0 {
        d.action(
            "build.args",
            cat2(
                quoted_list(&deferred).as_str(),
                " carry devcontainer variables; set them by hand under `build.args`",
            ).as_str(),
        );
    }
    if in_build(c, "options").is_some() {
        d.omitted("build.options", "docker build options");
    }
    if in_build(c, "cacheFrom").is_some() {
        d.omitted("build.cacheFrom", "docker build options");
    }
}

/// The draft with the build carried over, and with what is missing said where the file names no
/// source at all.
pub open spec fn with_build(
    d: DraftView,
    c: Config,
    dir: Seq<u8>,
    workspace: Seq<u8>,
    stages: Option<Seq<Seq<char>>>,
) -> DraftView {
    let e = match dockerfile_of(c) {
        Some(df) => if has_compose(c) || c.image is Some {
            d.action("build"@, "ignored beside another source"@)
        } else {
            with_dockerfile(d, c, dir, workspace, df, stages)
        },
        None => match c.build {
            Some(b) => d.action(
                "build"@,
                json_shown(b.deep_view()) + ": expected an object with `dockerfile`"@,
            ),
            None => d,
        },
    };
    if !has_compose(c) && c.image is None && dockerfile_of(c) is None {
        e.commented("image"@, "\"docker.io/library/debian:13\""@).essential(
            "source"@,
            "the file names no dockerComposeFile, image or build; set one of compose, image or build"@,
        )
    } else {
        e
    }
}

fn carry_build(
    d: &mut Draft,
    c: &Config,
    compose: bool,
    dir: &HostPath,
    workspace: &HostPath,
    stages: &Option<Vec<String>>,
)
    requires
        compose == has_compose(*c),
        quotable(*c),
    ensures
        final(d).deep_view() == with_build(
            old(d).deep_view(),
            *c,
            dir.deep_view(),
            workspace.deep_view(),
            stages.deep_view(),
        ),
        old(d).deep_view().wf() ==> final(d).deep_view().wf(),
{
    match dockerfile(c) {
        Some(df) => {
            if compose || c.image.is_some() {
                d.action("build", "ignored beside another source");
            } else {
                carry_dockerfile(d, c, dir, workspace, df.as_str(), stages);
            }
        },
        None => {
            if let Some(b) = &c.build {
                d.action("build", cat2(json_text(b).as_str(), ": expected an object with `dockerfile`").as_str());
            }
            if !compose && c.image.is_none() {
                d.commented("image", "\"docker.io/library/debian:13\"");
                d.essential(
                    "source",
                    "the file names no dockerComposeFile, image or build; set one of compose, image or build",
                );
            }
        },
    }
}

/// The draft with a note that something needs a person, where it does.
pub open spec fn action_if(d: DraftView, cond: bool, key: Seq<char>, note: Seq<char>) -> DraftView {
    if cond {
        d.action(key, note)
    } else {
        d
    }
}

/// The draft with a note that something was left out, where it was.
pub open spec fn omitted_if(d: DraftView, cond: bool, key: Seq<char>, note: Seq<char>) -> DraftView {
    if cond {
        d.omitted(key, note)
    } else {
        d
    }
}

fn note_action(d: &mut Draft, cond: bool, key: &str, note: &str)
    ensures
        final(d).deep_view() == action_if(old(d).deep_view(), cond, key@, note@),
        old(d).deep_view().wf() ==> final(d).deep_view().wf(),
{
    if cond {
        d.action(key, note);
    }
}

fn note_omitted(d: &mut Draft, cond: bool, key: &str, note: &str)
    ensures
        final(d).deep_view() == omitted_if(old(d).deep_view(), cond, key@, note@),
        old(d).deep_view().wf() ==> final(d).deep_view().wf(),
{
    if cond {
        d.omitted(key, note);
    }
}

/// The draft with where the checkout is mounted.
pub open spec fn with_folder(d: DraftView, c: Config) -> DraftView {
    match c.workspace_folder {
        Some(w) => {
            let (e, t) = rewritten(d, "workspaceFolder"@, w@, c.workspace_folder.deep_view());
            e.put("workspace"@, t).translated("workspaceFolder"@, "as `workspace`"@)
        },
        None => if has_compose(c) {
            d
        } else {
            d.put("workspace"@, "/workspace"@).action(
                "workspace"@,
                "no workspaceFolder: the checkout is mounted at /workspace; change it if the image expects another path"@,
            )
        },
    }
}

/// The draft with who and where one is inside.
pub open spec fn with_place(d: DraftView, c: Config) -> DraftView {
    let d1 = action_if(
        with_folder(d, c),
        c.workspace_mount,
        "workspaceMount"@,
        "the checkout is mounted at `workspace`; a compose service declares its own volumes"@,
    );
    let d2 = match c.remote_user {
        Some(u) => d1.put("user"@, u@).translated("remoteUser"@, "as `user`"@),
        None => d1,
    };
    let d3 = action_if(
        d2,
        c.container_user,
        "containerUser"@,
        "the image's own processes run as the image says; `user` is who sessions run as"@,
    );
    action_if(
        d3,
        c.update_remote_user_uid,
        "updateRemoteUserUID"@,
        "build the image's user with the host ids: compose `build.args` from `${VK_UID}` and `${VK_GID}`"@,
    ).put("freshness"@, "ask"@)
}

fn carry_place(d: &mut Draft, c: &Config, compose: bool)
    requires
        compose == has_compose(*c),
    ensures
        final(d).deep_view() == with_place(old(d).deep_view(), *c),
        old(d).deep_view().wf() ==> final(d).deep_view().wf(),
{
    match &c.workspace_folder {
        Some(w) => {
            let t = rewrite_vars(d, "workspaceFolder", w.as_str(), &c.workspace_folder);
            d.put("workspace", t.as_str());
            d.translated("workspaceFolder", "as `workspace`");
        },
        None => {
            if !compose {
                d.put("workspace", "/workspace");
                d.action(
                    "workspace",
                    "no workspaceFolder: the checkout is mounted at /workspace; change it if the image expects another path",
                );
            }
        },
    }
    note_action(
        d,
        c.workspace_mount,
        "workspaceMount",
        "the checkout is mounted at `workspace`; a compose service declares its own volumes",
    );
    if let Some(u) = &c.remote_user {
        d.put("user", u.as_str());
        d.translated("remoteUser", "as `user`");
    }
    note_action(
        d,
        c.container_user,
        "containerUser",
        "the image's own processes run as the image says; `user` is who sessions run as",
    );
    note_action(
        d,
        c.update_remote_user_uid,
        "updateRemoteUserUID",
        "build the image's user with the host ids: compose `build.args` from `${VK_UID}` and `${VK_GID}`",
    );
    d.put("freshness", "ask");
}

/// The draft with the number of vCPUs: `host`, or a count that fits.
pub open spec fn with_cpus(d: DraftView, c: Option<Seq<char>>) -> DraftView {
    match c {
        None => d,
        Some(t) => if t == "host"@ {
            d.put("cpus"@, "host"@).translated("customizations.virtkit.cpus"@, "as `cpus`"@)
        } else {
            match parsed_signed(t, u32::MAX as nat) {
                Some(n) => d.set("cpus"@, Tree::Integer(n as i64)).translated(
                    "customizations.virtkit.cpus"@,
                    "as `cpus`"@,
                ),
                None => d.action("customizations.virtkit.cpus"@, debug_text(t) + " is not a vCPU count"@),
            }
        },
    }
}

/// The draft with what the file says for `vk` of the machine.
pub open spec fn with_machine(d: DraftView, v: Option<Virtkit>) -> DraftView {
    match v {
        None => d,
        Some(v) => {
            let d1 = with_cpus(d, v.cpus.deep_view());
            let d2 = match v.mem {
                Some(m) => d1.put("mem"@, m@).translated("customizations.virtkit.mem"@, "as `mem`"@),
                None => d1,
            };
            let d3 = if v.profiles@.len() > 0 {
                d2.set("profiles"@, texts_tree(v.profiles.deep_view())).translated(
                    "customizations.virtkit.profiles"@,
                    "as `profiles`"@,
                )
            } else {
                d2
            };
            let d4 = omitted_if(
                d3,
                v.state_dir is Some,
                "customizations.virtkit.stateDir"@,
                "state is derived per workspace and environment"@,
            );
            let d5 = omitted_if(
                d4,
                v.git_worktree_mount,
                "customizations.virtkit.gitWorktreeMount"@,
                "a linked worktree's Git directory is mounted automatically"@,
            );
            match v.local_user_build_args {
                Some(a) => d5.action(
                    "customizations.virtkit.localUserBuildArgs"@,
                    "declare them in the compose service's build.args: "@ + joined(a.uid.deep_view(), ", "@)
                        + " from `${VK_UID}`, "@ + joined(a.gid.deep_view(), ", "@) + " from `${VK_GID}`"@,
                ),
                None => d5,
            }
        },
    }
}

fn carry_machine(d: &mut Draft, v: &Virtkit)
    ensures
        final(d).deep_view() == with_machine(old(d).deep_view(), Some(*v)),
        old(d).deep_view().wf() ==> final(d).deep_view().wf(),
{
    if let Some(t) = &v.cpus {
        if same(t.as_str(), "host") {
            d.put("cpus", "host");
            d.translated("customizations.virtkit.cpus", "as `cpus`");
        } else {
            match parse_upto(t.as_str(), u32::MAX as u64) {
                Some(n) => {
                    d.set("cpus", Toml::Integer(n as i64));
                    d.translated("customizations.virtkit.cpus", "as `cpus`");
                },
                None => d.action(
                    "customizations.virtkit.cpus",
                    cat2(quoted(t.as_str()).as_str(), " is not a vCPU count").as_str(),
                ),
            }
        }
    }
    if let Some(m) = &v.mem {
        d.put("mem", m.as_str());
        d.translated("customizations.virtkit.mem", "as `mem`");
    }
    if v.profiles.len() > 0 {
        d.set("profiles", texts_toml(&v.profiles));
        d.translated("customizations.virtkit.profiles", "as `profiles`");
    }
    note_omitted(
        d,
        v.state_dir.is_some(),
        "customizations.virtkit.stateDir",
        "state is derived per workspace and environment",
    );
    note_omitted(
        d,
        v.git_worktree_mount,
        "customizations.virtkit.gitWorktreeMount",
        "a linked worktree's Git directory is mounted automatically",
    );
    if let Some(a) = &v.local_user_build_args {
        d.action(
            "customizations.virtkit.localUserBuildArgs",
            cat5(
                "declare them in the compose service's build.args: ",
                join(&a.uid, ", ").as_str(),
                " from `${VK_UID}`, ",
                join(&a.gid, ", ").as_str(),
                " from `${VK_GID}`",
            ).as_str(),
        );
    }
}

/// The draft with the first `n` variables set, their own variables rewritten.
pub open spec fn env_set(
    d: DraftView,
    key: Seq<char>,
    env: Seq<(Seq<char>, Seq<char>)>,
    folder: Option<Seq<char>>,
    n: int,
) -> DraftView
    decreases n,
{
    if n <= 0 {
        d
    } else {
        let (e, t) = rewritten(env_set(d, key, env, folder, n - 1), key, env[n - 1].1, folder);
        e.put(env[n - 1].0, t)
    }
}

/// The draft with an environment carried over, where it has any variables.
pub open spec fn with_env(
    d: DraftView,
    key: Seq<char>,
    table: Seq<char>,
    env: Option<Seq<(Seq<char>, Seq<char>)>>,
    folder: Option<Seq<char>>,
) -> DraftView {
    if env is Some && env->0.len() > 0 {
        env_set(d.section(seq!["dev"@, table]), key, env->0, folder, env->0.len() as int).translated(
            key,
            decimal(env->0.len()) + " variable(s) as `"@ + table + "`"@,
        )
    } else {
        omitted_if(d, env is Some, key, "empty"@)
    }
}

fn carry_env(d: &mut Draft, key: &str, table: &str, env: &Option<Vec<(String, String)>>, folder: &Option<String>)
    ensures
        final(d).deep_view() == with_env(old(d).deep_view(), key@, table@, env.deep_view(), folder.deep_view()),
        old(d).deep_view().wf() ==> final(d).deep_view().wf(),
{
    if let Some(v) = env {
        let ghost s = v.deep_view();
        assert(s.len() == v@.len());
        if v.len() > 0 {
            d.section(two("dev", table));
            let ghost start = d.deep_view();
            let mut i: usize = 0;
            while i < v.len()
                invariant
                    i <= v@.len(),
                    s == v.deep_view(),
                    d.deep_view() == env_set(start, key@, s, folder.deep_view(), i as int),
                    start == old(d).deep_view().section(seq!["dev"@, table@]),
                    old(d).deep_view().wf() ==> d.deep_view().wf(),
                decreases v@.len() - i,
            {
                assert(s[i as int] == (v@[i as int].0@, v@[i as int].1@));
                let t = rewrite_vars(d, key, v[i].1.as_str(), folder);
                d.put(v[i].0.as_str(), t.as_str());
                i = i + 1;
            }
            d.translated(
                key,
                cat4(to_decimal(v.len() as u64).as_str(), " variable(s) as `", table, "`").as_str(),
            );
        } else {
            d.omitted(key, "empty");
        }
    }
}

/// The text without the dots at its start.
pub open spec fn undotted(s: Seq<char>) -> Seq<char>
    decreases s.len(),
{
    if s.len() > 0 && s[0] == '.' {
        undotted(s.drop_first())
    } else {
        s
    }
}

fn trim_dots(s: &str) -> (r: String)
    ensures
        r@ == undotted(s@),
{
    let v = chars_of(s);
    let mut i: usize = 0;
    assert(s@.skip(0) =~= s@);
    while i < v.len() && v[i] == '.'
        invariant
            i <= v@.len(),
            v@ == s@,
            undotted(s@) == undotted(s@.skip(i as int)),
        decreases v@.len() - i,
    {
        assert(s@.skip(i as int).drop_first() =~= s@.skip(i + 1));
        i = i + 1;
    }
    let r = text_between(&v, i, v.len());
    assert(r@ =~= s@.skip(i as int));
    r
}

/// A text as a name can carry it: everything but letters, digits, `-` and `_` turned into `-`.
pub open spec fn as_name(s: Seq<char>) -> Seq<char> {
    Seq::new(
        s.len(),
        |i: int|
            if is_alnum(s[i]) || s[i] == '-' || s[i] == '_' {
                s[i]
            } else {
                '-'
            },
    )
}

fn to_name(s: &str) -> (r: String)
    ensures
        r@ == as_name(s@),
{
    let v = chars_of(s);
    let mut out = String::new();
    let mut i: usize = 0;
    while i < v.len()
        invariant
            i <= v@.len(),
            v@ == s@,
            out@ == as_name(s@).take(i as int),
        decreases v@.len() - i,
    {
        if alnum(v[i]) || v[i] == '-' || v[i] == '_' {
            out.push(v[i]);
        } else {
            out.push('-');
        }
        assert(out@ =~= as_name(s@).take(i + 1));
        i = i + 1;
    }
    assert(out@ =~= as_name(s@));
    out
}

/// The name a mount's guest path suggests.
pub open spec fn mount_name(target: Seq<char>, i: int) -> Seq<char> {
    let last = match name_of(encode_utf8(target)) {
        Some(n) => match text_of_bytes(n) {
            Some(t) => undotted(t),
            None => ""@,
        },
        None => ""@,
    };
    as_name(
        if last.len() > 0 {
            last
        } else {
            "mount"@ + decimal(i as nat)
        },
    )
}

/// The name, told apart from those that are taken by the index that is its own.
pub open spec fn told_apart(name: Seq<char>, taken: Seq<Seq<char>>, i: int) -> Seq<char> {
    if taken.contains(name) {
        name + "-"@ + decimal(i as nat)
    } else {
        name
    }
}

/// The names taken once this one is.
pub open spec fn taken_with(name: Seq<char>, taken: Seq<Seq<char>>, i: int) -> Seq<Seq<char>> {
    taken.push(told_apart(name, taken, i))
}

/// The draft with the `i`th mount carried over, and the names taken.
pub open spec fn with_mount(d: DraftView, taken: Seq<Seq<char>>, m: Mount, i: int, folder: Option<Seq<char>>) -> (
    DraftView,
    Seq<Seq<char>>,
) {
    let key = "mounts["@ + decimal(i as nat) + "]"@;
    match fields_of(m) {
        Err(e) => (d.action(key, e), taken),
        Ok(f) => if f.kind != "bind"@ {
            (d.action(key, "type "@ + debug_text(f.kind) + ": only host paths are mounted"@), taken)
        } else {
            let name = told_apart(mount_name(f.target, i), taken, i);
            let (d1, source) = rewritten(d, key, f.source, folder);
            let (d2, target) = rewritten(d1, key, f.target, folder);
            let d3 = d2.section(seq!["dev"@, "mounts"@, name]).put("source"@, source).put("to"@, target);
            let d4 = if f.read_only {
                d3.set("read-only"@, Tree::Boolean(true))
            } else {
                d3
            };
            (
                d4.translated(key, "as `mounts."@ + name + "`"@),
                taken_with(mount_name(f.target, i), taken, i),
            )
        },
    }
}

pub open spec fn mounts_upto(d: DraftView, v: Seq<Mount>, folder: Option<Seq<char>>, n: int) -> (
    DraftView,
    Seq<Seq<char>>,
)
    decreases n,
{
    if n <= 0 {
        (d, Seq::empty())
    } else {
        let (e, taken) = mounts_upto(d, v, folder, n - 1);
        with_mount(e, taken, v[n - 1], n - 1, folder)
    }
}

fn suggested_name(target: &str, i: usize) -> (r: String)
    ensures
        r@ == mount_name(target@, i as int),
{
    let last = match HostPath::from_text(target).file_name() {
        Some(n) => match utf8_text(n) {
            Some(t) => trim_dots(t.as_str()),
            None => "".to_owned(),
        },
        None => "".to_owned(),
    };
    if last.as_str().is_empty() {
        to_name(cat2("mount", to_decimal(i as u64).as_str()).as_str())
    } else {
        to_name(last.as_str())
    }
}

fn tell_apart(name: String, taken: &mut Vec<String>, i: usize) -> (r: String)
    ensures
        r@ == told_apart(name@, old(taken).deep_view(), i as int),
        final(taken).deep_view() == taken_with(name@, old(taken).deep_view(), i as int),
{
    let out = if is_one_of(name.as_str(), taken) {
        cat3(name.as_str(), "-", to_decimal(i as u64).as_str())
    } else {
        name
    };
    put(taken, out.clone());
    out
}

fn carry_mount(d: &mut Draft, taken: &mut Vec<String>, m: &Mount, i: usize, folder: &Option<String>)
    ensures
        with_mount(old(d).deep_view(), old(taken).deep_view(), *m, i as int, folder.deep_view()) == (
            final(d).deep_view(),
            final(taken).deep_view(),
        ),
        old(d).deep_view().wf() ==> final(d).deep_view().wf(),
{
    let key = cat3("mounts[", to_decimal(i as u64).as_str(), "]");
    let f = match mount_fields(m) {
        Ok(f) => f,
        Err(e) => {
            d.action(key.as_str(), e.message.as_str());
            return;
        },
    };
    if !same(f.kind.as_str(), "bind") {
        d.action(
            key.as_str(),
            cat3("type ", quoted(f.kind.as_str()).as_str(), ": only host paths are mounted").as_str(),
        );
        return;
    }
    let name = tell_apart(suggested_name(f.target.as_str(), i), taken, i);
    let source = rewrite_vars(d, key.as_str(), f.source.as_str(), folder);
    let target = rewrite_vars(d, key.as_str(), f.target.as_str(), folder);
    d.section(three("dev", "mounts", name.as_str()));
    d.put("source", source.as_str());
    d.put("to", target.as_str());
    if f.read_only {
        d.set("read-only", Toml::Boolean(true));
    }
    d.translated(key.as_str(), cat3("as `mounts.", name.as_str(), "`").as_str());
}

fn carry_mounts(d: &mut Draft, v: &Vec<Mount>, folder: &Option<String>)
    ensures
        final(d).deep_view() == mounts_upto(old(d).deep_view(), v@, folder.deep_view(), v@.len() as int).0,
        old(d).deep_view().wf() ==> final(d).deep_view().wf(),
{
    let mut taken: Vec<String> = Vec::new();
    let ghost start = d.deep_view();
    let mut i: usize = 0;
    assert(taken.deep_view() =~= Seq::<Seq<char>>::empty());
    while i < v.len()
        invariant
            i <= v@.len(),
            start == old(d).deep_view(),
            mounts_upto(start, v@, folder.deep_view(), i as int) == (d.deep_view(), taken.deep_view()),
            start.wf() ==> d.deep_view().wf(),
        decreases v@.len() - i,
    {
        carry_mount(d, &mut taken, &v[i], i, folder);
        i = i + 1;
    }
}

/// The service and port an entry names, or what is wrong with it.
pub open spec fn port_of(p: Port) -> Result<(Option<Seq<char>>, u16), Seq<char>> {
    match p {
        Port::Number(n) => if 0 <= n <= 65535 {
            Ok((None, n as u16))
        } else {
            Err(decimal_int(n as int) + ": a port is 0-65535"@)
        },
        Port::Named(s) => {
            let (host, num) = match cut_last(s@, ':') {
                Some((h, t)) => (Some(h), t),
                None => (None, s@),
            };
            match parsed_signed(num, 65535) {
                Some(n) => Ok((host, n as u16)),
                None => Err(debug_text(s@) + ": expected a port or service:port"@),
            }
        },
    }
}

fn read_port(p: &Port) -> (r: Result<(Option<String>, u16), Error>)
    ensures
        match r {
            Ok((s, n)) => port_of(*p) == Ok::<(Option<Seq<char>>, u16), Seq<char>>((s.deep_view(), n)),
            Err(e) => port_of(*p) == Err::<(Option<Seq<char>>, u16), Seq<char>>(e.deep_view()),
        },
{
    match p {
        Port::Number(n) => {
            if 0 <= *n && *n <= 65535 {
                Ok((None, *n as u16))
            } else {
                Err(error(cat2(to_decimal_int(*n).as_str(), ": a port is 0-65535")))
            }
        },
        Port::Named(s) => {
            let (host, num) = match cut_at_last(s.as_str(), ':') {
                Some((h, t)) => (Some(h), t),
                None => (None, s.clone()),
            };
            match parse_upto(num.as_str(), 65535) {
                Some(n) => Ok((host, n as u16)),
                None => Err(
                    error(cat2(quoted(s.as_str()).as_str(), ": expected a port or service:port")),
                ),
            }
        },
    }
}

/// The draft with the `i`th forwarded port carried over, and the names taken.
pub open spec fn with_port(d: DraftView, taken: Seq<Seq<char>>, p: Port, i: int, compose: bool) -> (
    DraftView,
    Seq<Seq<char>>,
) {
    match port_of(p) {
        Err(e) => (d.action("forwardPorts"@, e), taken),
        Ok((service, port)) => {
            let base = match service {
                Some(s) => s + "-"@ + decimal(port as nat),
                None => "port-"@ + decimal(port as nat),
            };
            let name = told_apart(base, taken, i);
            let d1 = d.section(seq!["dev"@, "endpoints"@, name]);
            let d2 = match service {
                Some(s) => action_if(
                    d1,
                    !compose,
                    "forwardPorts"@,
                    s + ":"@ + decimal(port as nat) + " names a service, and there is no compose source"@,
                ).put("service"@, s),
                None => d1,
            };
            let shown = match service {
                Some(s) => s + ":"@ + decimal(port as nat),
                None => decimal(port as nat),
            };
            (
                d2.set("target"@, Tree::Integer(port as i64)).translated(
                    "forwardPorts"@,
                    shown + " as `endpoints."@ + name + "`"@,
                ),
                taken_with(base, taken, i),
            )
        },
    }
}

pub open spec fn ports_upto(d: DraftView, v: Seq<Port>, compose: bool, n: int) -> (DraftView, Seq<Seq<char>>)
    decreases n,
{
    if n <= 0 {
        (d, Seq::empty())
    } else {
        let (e, taken) = ports_upto(d, v, compose, n - 1);
        with_port(e, taken, v[n - 1], n - 1, compose)
    }
}

fn carry_port(d: &mut Draft, taken: &mut Vec<String>, p: &Port, i: usize, compose: bool)
    ensures
        with_port(old(d).deep_view(), old(taken).deep_view(), *p, i as int, compose) == (
            final(d).deep_view(),
            final(taken).deep_view(),
        ),
        old(d).deep_view().wf() ==> final(d).deep_view().wf(),
{
    let (service, port) = match read_port(p) {
        Ok(x) => x,
        Err(e) => {
            d.action("forwardPorts", e.message.as_str());
            return;
        },
    };
    let number = to_decimal(port as u64);
    let base = match &service {
        Some(s) => cat3(s.as_str(), "-", number.as_str()),
        None => cat2("port-", number.as_str()),
    };
    let name = tell_apart(base, taken, i);
    d.section(three("dev", "endpoints", name.as_str()));
    let shown = match &service {
        Some(s) => {
            let text = cat3(s.as_str(), ":", number.as_str());
            note_action(
                d,
                !compose,
                "forwardPorts",
                cat2(text.as_str(), " names a service, and there is no compose source").as_str(),
            );
            d.put("service", s.as_str());
            text
        },
        None => number.clone(),
    };
    d.set("target", Toml::Integer(port as i64));
    d.translated("forwardPorts", cat4(shown.as_str(), " as `endpoints.", name.as_str(), "`").as_str());
}

fn carry_ports(d: &mut Draft, v: &Vec<Port>, compose: bool)
    ensures
        final(d).deep_view() == ports_upto(old(d).deep_view(), v@, compose, v@.len() as int).0,
        old(d).deep_view().wf() ==> final(d).deep_view().wf(),
{
    let mut taken: Vec<String> = Vec::new();
    let ghost start = d.deep_view();
    let mut i: usize = 0;
    assert(taken.deep_view() =~= Seq::<Seq<char>>::empty());
    while i < v.len()
        invariant
            i <= v@.len(),
            start == old(d).deep_view(),
            ports_upto(start, v@, compose, i as int) == (d.deep_view(), taken.deep_view()),
            start.wf() ==> d.deep_view().wf(),
        decreases v@.len() - i,
    {
        carry_port(d, &mut taken, &v[i], i, compose);
        i = i + 1;
    }
}

/// The draft with what the file says of ports besides forwarding them.
pub open spec fn with_port_notes(d: DraftView, c: Config) -> DraftView {
    omitted_if(
        omitted_if(
            action_if(d, c.app_port, "appPort"@, "publish it as an endpoint"@),
            c.ports_attributes,
            "portsAttributes"@,
            "editor port labels; `scheme` and `path` on an endpoint serve `vk dev open`"@,
        ),
        c.other_ports_attributes,
        "otherPortsAttributes"@,
        "editor port labels; `scheme` and `path` on an endpoint serve `vk dev open`"@,
    )
}

fn carry_port_notes(d: &mut Draft, c: &Config)
    ensures
        final(d).deep_view() == with_port_notes(old(d).deep_view(), *c),
        old(d).deep_view().wf() ==> final(d).deep_view().wf(),
{
    note_action(d, c.app_port, "appPort", "publish it as an endpoint");
    note_omitted(
        d,
        c.ports_attributes,
        "portsAttributes",
        "editor port labels; `scheme` and `path` on an endpoint serve `vk dev open`",
    );
    note_omitted(
        d,
        c.other_ports_attributes,
        "otherPortsAttributes",
        "editor port labels; `scheme` and `path` on an endpoint serve `vk dev open`",
    );
}

/// The draft with one lifecycle command as a hook, where there is one.
pub open spec fn with_hook(d: DraftView, key: Seq<char>, name: Seq<char>, l: Option<Lifecycle>) -> DraftView {
    match l {
        Some(x) => d.set(name, lifecycle_tree(x)).translated(key, "as `hooks."@ + name + "`"@),
        None => d,
    }
}

/// The draft with the lifecycle commands as hooks.
pub open spec fn with_hooks(d: DraftView, c: Config) -> DraftView {
    if c.initialize_command is Some || c.post_create_command is Some || c.post_start_command is Some {
        with_hook(
            with_hook(
                with_hook(
                    d.section(seq!["dev"@, "hooks"@]),
                    "initializeCommand"@,
                    "init"@,
                    c.initialize_command,
                ),
                "postCreateCommand"@,
                "create"@,
                c.post_create_command,
            ),
            "postStartCommand"@,
            "start"@,
            c.post_start_command,
        )
    } else {
        d
    }
}

fn carry_hook(d: &mut Draft, key: &str, name: &str, l: &Option<Lifecycle>)
    ensures
        final(d).deep_view() == with_hook(old(d).deep_view(), key@, name@, *l),
        old(d).deep_view().wf() ==> final(d).deep_view().wf(),
{
    if let Some(x) = l {
        d.set(name, lifecycle_value(x));
        d.translated(key, cat3("as `hooks.", name, "`").as_str());
    }
}

fn carry_hooks(d: &mut Draft, c: &Config)
    ensures
        final(d).deep_view() == with_hooks(old(d).deep_view(), *c),
        old(d).deep_view().wf() ==> final(d).deep_view().wf(),
{
    if c.initialize_command.is_some() || c.post_create_command.is_some() || c.post_start_command.is_some() {
        d.section(two("dev", "hooks"));
        carry_hook(d, "initializeCommand", "init", &c.initialize_command);
        carry_hook(d, "postCreateCommand", "create", &c.post_create_command);
        carry_hook(d, "postStartCommand", "start", &c.post_start_command);
    }
}

/// The draft with what the file says of commands that are no hooks, and of features.
pub open spec fn with_command_notes(d: DraftView, c: Config) -> DraftView {
    let d1 = action_if(
        d,
        c.on_create_command,
        "onCreateCommand"@,
        "fold it into `hooks.create`, which runs once per environment generation"@,
    );
    let d2 = action_if(d1, c.update_content_command, "updateContentCommand"@, "fold it into `hooks.create`"@);
    let d3 = action_if(
        d2,
        c.post_attach_command,
        "postAttachCommand"@,
        "there is no attach hook; editor work belongs in `editor.vscode.reconcile`"@,
    );
    let d4 = omitted_if(d3, c.wait_for, "waitFor"@, "the hook order is fixed"@);
    let d5 = if c.features {
        d4.essential(
            "features"@,
            "Dev Container Features are not installed by vk; bake them into the image or Dockerfile the environment boots from"@,
        )
    } else {
        d4
    };
    let d6 = action_if(
        d5,
        c.override_command,
        "overrideCommand"@,
        "a compose service keeps the VM alive with `command: sleep infinity`"@,
    );
    action_if(d6, c.host_requirements, "hostRequirements"@, "set `cpus` and `mem` if the guest needs them"@)
}

fn carry_command_notes(d: &mut Draft, c: &Config)
    ensures
        final(d).deep_view() == with_command_notes(old(d).deep_view(), *c),
        old(d).deep_view().wf() ==> final(d).deep_view().wf(),
{
    note_action(
        d,
        c.on_create_command,
        "onCreateCommand",
        "fold it into `hooks.create`, which runs once per environment generation",
    );
    note_action(d, c.update_content_command, "updateContentCommand", "fold it into `hooks.create`");
    note_action(
        d,
        c.post_attach_command,
        "postAttachCommand",
        "there is no attach hook; editor work belongs in `editor.vscode.reconcile`",
    );
    note_omitted(d, c.wait_for, "waitFor", "the hook order is fixed");
    if c.features {
        d.essential(
            "features",
            "Dev Container Features are not installed by vk; bake them into the image or Dockerfile the environment boots from",
        );
    }
    note_action(
        d,
        c.override_command,
        "overrideCommand",
        "a compose service keeps the VM alive with `command: sleep infinity`",
    );
    note_action(d, c.host_requirements, "hostRequirements", "set `cpus` and `mem` if the guest needs them");
}

pub open spec fn docker_note() -> Seq<char> {
    "a docker setting with no meaning for a microVM"@
}

/// The legacy `dockerFile` is not what is built from.
pub open spec fn spare_dockerfile(c: Config) -> bool {
    c.docker_file matches Some(v) && (build_field(c, "dockerfile"@) is Some || text_in(v.deep_view()) is None)
}

/// The draft with what the file says to docker alone.
pub open spec fn with_docker_notes(d: DraftView, c: Config) -> DraftView {
    let d1 = omitted_if(d, c.shutdown_action, "shutdownAction"@, docker_note());
    let d2 = omitted_if(d1, c.privileged, "privileged"@, docker_note());
    let d3 = omitted_if(d2, c.init, "init"@, docker_note());
    let d4 = omitted_if(d3, c.cap_add, "capAdd"@, docker_note());
    let d5 = omitted_if(d4, c.security_opt, "securityOpt"@, docker_note());
    let d6 = omitted_if(d5, c.user_env_probe, "userEnvProbe"@, docker_note());
    let d7 = action_if(
        d6,
        c.run_args,
        "runArgs"@,
        "mostly docker flags without a microVM meaning, but `--gpus`, `--shm-size` and `--device` do; carry those over by hand"@,
    );
    let d8 = omitted_if(d7, c.name is Some, "name"@, "a display name"@);
    let d9 = omitted_if(d8, c.schema is Some, "$schema"@, "the schema an editor checks that file by"@);
    action_if(d9, spare_dockerfile(c), "dockerFile"@, "not taken: `build` names the Dockerfile, or this is no string"@)
}

fn carry_docker_notes(d: &mut Draft, c: &Config)
    ensures
        final(d).deep_view() == with_docker_notes(old(d).deep_view(), *c),
        old(d).deep_view().wf() ==> final(d).deep_view().wf(),
{
    let note = "a docker setting with no meaning for a microVM";
    note_omitted(d, c.shutdown_action, "shutdownAction", note);
    note_omitted(d, c.privileged, "privileged", note);
    note_omitted(d, c.init, "init", note);
    note_omitted(d, c.cap_add, "capAdd", note);
    note_omitted(d, c.security_opt, "securityOpt", note);
    note_omitted(d, c.user_env_probe, "userEnvProbe", note);
    note_action(
        d,
        c.run_args,
        "runArgs",
        "mostly docker flags without a microVM meaning, but `--gpus`, `--shm-size` and `--device` do; carry those over by hand",
    );
    note_omitted(d, c.name.is_some(), "name", "a display name");
    note_omitted(d, c.schema.is_some(), "$schema", "the schema an editor checks that file by");
    let spare = match &c.docker_file {
        Some(v) => in_build(c, "dockerfile").is_some() || as_text(v).is_none(),
        None => false,
    };
    note_action(d, spare, "dockerFile", "not taken: `build` names the Dockerfile, or this is no string");
}

/// The texts among the first `n` values.
pub open spec fn texts_among(a: Seq<JsonTree>, n: int) -> Seq<Seq<char>>
    decreases n,
{
    if n <= 0 {
        Seq::empty()
    } else {
        match text_in(a[n - 1]) {
            Some(t) => texts_among(a, n - 1).push(t),
            None => texts_among(a, n - 1),
        }
    }
}

/// The draft with the editor's extensions carried over: those that are texts.
pub open spec fn with_extensions(d: DraftView, vs: Seq<(Seq<char>, JsonTree)>) -> DraftView {
    match entry(vs, "extensions"@) {
        Some(JsonTree::Array(a)) => {
            let list = texts_among(a, a.len() as int);
            d.set("extensions"@, texts_tree(list)).translated(
                "customizations.vscode.extensions"@,
                decimal(list.len()) + " as `editor.vscode.extensions`"@,
            )
        },
        Some(v) => d.action("customizations.vscode.extensions"@, json_shown(v) + ": expected a list"@),
        None => d,
    }
}

proof fn lemma_sound_entry(vs: Seq<(Seq<char>, JsonTree)>, k: Seq<char>)
    requires
        forall|i: int| 0 <= i < vs.len() ==> json_sound((#[trigger] vs[i]).1),
    ensures
        entry(vs, k) matches Some(v) ==> json_sound(v),
{
    crate::entries::lemma_place(vs, k, 0);
    let at = crate::entries::place_from(vs, k, 0);
    if at < vs.len() {
        assert(json_sound(vs[at].1));
    }
}

fn carry_extensions(d: &mut Draft, vs: &Vec<(String, Json)>)
    requires
        forall|i: int| 0 <= i < vs.deep_view().len() ==> json_sound((#[trigger] vs.deep_view()[i]).1),
    ensures
        final(d).deep_view() == with_extensions(old(d).deep_view(), vs.deep_view()),
        old(d).deep_view().wf() ==> final(d).deep_view().wf(),
{
    let found = get(vs, "extensions");
    if let Some(Json::Array(a)) = found {
        let ghost s = a.deep_view();
        assert(found.deep_view() == Some(JsonTree::Array(s)));
        assert(s.len() == a@.len());
        let mut list: Vec<String> = Vec::new();
        let mut i: usize = 0;
        assert(list.deep_view() =~= Seq::<Seq<char>>::empty());
        while i < a.len()
            invariant
                i <= a@.len(),
                s == a.deep_view(),
                list.deep_view() == texts_among(s, i as int),
            decreases a@.len() - i,
        {
            assert(s[i as int] == a@[i as int].deep_view());
            if let Some(t) = as_text(&a[i]) {
                put(&mut list, t);
            }
            i = i + 1;
        }
        assert(list@.len() == list.deep_view().len());
        d.set("extensions", texts_toml(&list));
        d.translated(
            "customizations.vscode.extensions",
            cat2(to_decimal(list.len() as u64).as_str(), " as `editor.vscode.extensions`").as_str(),
        );
    } else if let Some(v) = found {
        proof {
            lemma_sound_entry(vs.deep_view(), "extensions"@);
        }
        d.action("customizations.vscode.extensions", cat2(json_text(v).as_str(), ": expected a list").as_str());
    }
}

/// The draft with the first `n` settings carried over, and how many were: all but those that
/// are `null`.
pub open spec fn settings_upto(d: DraftView, o: Seq<(Seq<char>, JsonTree)>, n: int) -> (DraftView, nat)
    decreases n,
{
    if n <= 0 {
        (d, 0)
    } else {
        let (e, count) = settings_upto(d, o, n - 1);
        match toml_of_json(o[n - 1].1) {
            Some(t) => (e.set(o[n - 1].0, t), count + 1),
            None => (
                e.omitted("customizations.vscode.settings."@ + o[n - 1].0, "null has no TOML spelling"@),
                count,
            ),
        }
    }
}

pub open spec fn settings_path() -> Seq<Seq<char>> {
    seq!["dev"@, "editor"@, "vscode"@, "settings"@]
}

/// The draft with the editor's settings carried over.
pub open spec fn with_settings(d: DraftView, vs: Seq<(Seq<char>, JsonTree)>) -> DraftView {
    match entry(vs, "settings"@) {
        Some(JsonTree::Object(o)) => {
            let (e, n) = settings_upto(d.section(settings_path()), o, o.len() as int);
            e.translated("customizations.vscode.settings"@, decimal(n) + " as `editor.vscode.settings`"@)
        },
        Some(v) => d.action("customizations.vscode.settings"@, json_shown(v) + ": expected an object"@),
        None => d,
    }
}

fn carry_settings(d: &mut Draft, vs: &Vec<(String, Json)>)
    requires
        forall|i: int| 0 <= i < vs.deep_view().len() ==> json_sound((#[trigger] vs.deep_view()[i]).1),
    ensures
        final(d).deep_view() == with_settings(old(d).deep_view(), vs.deep_view()),
        old(d).deep_view().wf() ==> final(d).deep_view().wf(),
{
    let found = get(vs, "settings");
    if let Some(Json::Object(o)) = found {
        let ghost s = o.deep_view();
        assert(found.deep_view() == Some(JsonTree::Object(s)));
        assert(s.len() == o@.len());
        let mut path = three("dev", "editor", "vscode");
        put(&mut path, "settings".to_owned());
        assert(path.deep_view() =~= settings_path());
        d.section(path);
        let ghost start = d.deep_view();
        let mut n: u64 = 0;
        let mut i: usize = 0;
        while i < o.len()
            invariant
                i <= o@.len(),
                s == o.deep_view(),
                start == old(d).deep_view().section(settings_path()),
                settings_upto(start, s, i as int) == (d.deep_view(), n as nat),
                n <= i,
                old(d).deep_view().wf() ==> d.deep_view().wf(),
            decreases o@.len() - i,
        {
            assert(s[i as int] == (o@[i as int].0@, o@[i as int].1.deep_view()));
            match json_to_toml(&o[i].1) {
                Some(t) => {
                    d.set(o[i].0.as_str(), t);
                    n = n + 1;
                },
                None => d.omitted(
                    cat2("customizations.vscode.settings.", o[i].0.as_str()).as_str(),
                    "null has no TOML spelling",
                ),
            }
            i = i + 1;
        }
        d.translated(
            "customizations.vscode.settings",
            cat2(to_decimal(n).as_str(), " as `editor.vscode.settings`").as_str(),
        );
    } else if let Some(v) = found {
        proof {
            lemma_sound_entry(vs.deep_view(), "settings"@);
        }
        d.action("customizations.vscode.settings", cat2(json_text(v).as_str(), ": expected an object").as_str());
    }
}

/// The draft with the editor's other keys reported.
pub open spec fn with_other_keys(d: DraftView, vs: Seq<(Seq<char>, JsonTree)>, n: int) -> DraftView
    decreases n,
{
    if n <= 0 {
        d
    } else {
        omitted_if(
            with_other_keys(d, vs, n - 1),
            vs[n - 1].0 != "extensions"@ && vs[n - 1].0 != "settings"@,
            "customizations.vscode."@ + vs[n - 1].0,
            ""@,
        )
    }
}

/// The draft with the other tools' settings reported.
pub open spec fn with_other_tools(d: DraftView, others: Seq<(Seq<char>, JsonTree)>, n: int) -> DraftView
    decreases n,
{
    if n <= 0 {
        d
    } else {
        omitted_if(
            with_other_tools(d, others, n - 1),
            others[n - 1].0 != "vscode"@,
            "customizations."@ + others[n - 1].0,
            "another tool's settings"@,
        )
    }
}

/// The draft with the editor's settings.
pub open spec fn with_editor(d: DraftView, others: Seq<(Seq<char>, JsonTree)>) -> DraftView {
    let e = match entry(others, "vscode"@) {
        Some(JsonTree::Object(vs)) => with_other_keys(
            with_settings(
                with_extensions(
                    d.section(seq!["dev"@, "editor"@, "vscode"@]).put("state"@, "persistent"@),
                    vs,
                ),
                vs,
            ),
            vs,
            vs.len() as int,
        ),
        Some(v) => d.action("customizations.vscode"@, json_shown(v) + ": expected an object"@),
        None => d,
    };
    with_other_tools(e, others, others.len() as int)
}

fn carry_editor(d: &mut Draft, others: &Vec<(String, Json)>)
    requires
        forall|i: int| 0 <= i < others.deep_view().len() ==> json_sound((#[trigger] others.deep_view()[i]).1),
    ensures
        final(d).deep_view() == with_editor(old(d).deep_view(), others.deep_view()),
        old(d).deep_view().wf() ==> final(d).deep_view().wf(),
{
    let found = get(others, "vscode");
    let ghost os = others.deep_view();
    assert(os.len() == others@.len());
    proof {
        crate::entries::lemma_place(os, "vscode"@, 0);
    }
    match found {
        Some(Json::Object(vs)) => {
            let ghost s = vs.deep_view();
            assert(found.deep_view() == Some(JsonTree::Object(s)));
            assert(s.len() == vs@.len());
            proof {
                lemma_sound_entry(os, "vscode"@);
                let whole = JsonTree::Object(s);
                assert(json_sound(whole));
                assert forall|i: int| 0 <= i < s.len() implies json_sound((#[trigger] s[i]).1) by {
                    assert(whole->Object_0[i] == s[i]);
                }
            }
            d.section(three("dev", "editor", "vscode"));
            d.put("state", "persistent");
            carry_extensions(d, vs);
            carry_settings(d, vs);
            let ghost start = d.deep_view();
            let mut i: usize = 0;
            while i < vs.len()
                invariant
                    i <= vs@.len(),
                    s == vs.deep_view(),
                    d.deep_view() == with_other_keys(start, s, i as int),
                    start.wf() ==> d.deep_view().wf(),
                decreases vs@.len() - i,
            {
                assert(s[i as int].0 == vs@[i as int].0@);
                let k = vs[i].0.as_str();
                note_omitted(
                    d,
                    !same(k, "extensions") && !same(k, "settings"),
                    cat2("customizations.vscode.", k).as_str(),
                    "",
                );
                i = i + 1;
            }
        },
        Some(v) => {
            assert(json_sound(v.deep_view())) by {
                let at = crate::entries::place_from(os, "vscode"@, 0);
                assert(os[at].1 == v.deep_view());
            }
            d.action("customizations.vscode", cat2(json_text(v).as_str(), ": expected an object").as_str());
        },
        None => {},
    }
    let ghost start = d.deep_view();
    let mut i: usize = 0;
    while i < others.len()
        invariant
            i <= others@.len(),
            os == others.deep_view(),
            d.deep_view() == with_other_tools(start, os, i as int),
            start.wf() ==> d.deep_view().wf(),
        decreases others@.len() - i,
    {
        assert(os[i as int].0 == others@[i as int].0@);
        let k = others[i].0.as_str();
        note_omitted(d, !same(k, "vscode"), cat2("customizations.", k).as_str(), "another tool's settings");
        i = i + 1;
    }
}

/// The draft with what the file says for `vk` of the host and the cache.
pub open spec fn with_host(d: DraftView, v: Option<Virtkit>, dir: Seq<u8>, workspace: Seq<u8>) -> DraftView {
    match v {
        None => d,
        Some(v) => {
            let d1 = match v.host_exec {
                Some(h) => {
                    let (e, rel) = rebased(
                        d,
                        dir,
                        workspace,
                        "customizations.virtkit.hostExec.wrapper"@,
                        h.wrapper@,
                    );
                    let f = e.section(seq!["dev"@, "host"@]).put("wrapper"@, rel);
                    let g = if h.env@.len() > 0 {
                        f.set("wrapper-env"@, texts_tree(h.env.deep_view()))
                    } else {
                        f
                    };
                    g.translated("customizations.virtkit.hostExec"@, "as `host.wrapper`"@).action(
                        "host.wrapper"@,
                        "if the wrapper only launches Git GUIs, `git-gui = true` replaces it"@,
                    )
                },
                None => d,
            };
            match v.cache {
                Some(x) => {
                    let e = d1.section(seq!["dev"@, "cache"@]);
                    let f = match x.registry {
                        Some(r) => e.put("registry"@, r@),
                        None => e,
                    };
                    let g = if x.insecure {
                        f.set("insecure"@, Tree::Boolean(true))
                    } else {
                        f
                    };
                    g.translated("customizations.virtkit.cache"@, "as `cache`"@)
                },
                None => d1,
            }
        },
    }
}

fn carry_host(d: &mut Draft, v: &Virtkit, dir: &HostPath, workspace: &HostPath)
    ensures
        final(d).deep_view() == with_host(
            old(d).deep_view(),
            Some(*v),
            dir.deep_view(),
            workspace.deep_view(),
        ),
        old(d).deep_view().wf() ==> final(d).deep_view().wf(),
{
    if let Some(h) = &v.host_exec {
        let rel = rebase(d, dir, workspace, "customizations.virtkit.hostExec.wrapper", h.wrapper.as_str());
        d.section(two("dev", "host"));
        d.put("wrapper", rel.as_str());
        if h.env.len() > 0 {
            d.set("wrapper-env", texts_toml(&h.env));
        }
        d.translated("customizations.virtkit.hostExec", "as `host.wrapper`");
        d.action("host.wrapper", "if the wrapper only launches Git GUIs, `git-gui = true` replaces it");
    }
    if let Some(x) = &v.cache {
        d.section(two("dev", "cache"));
        if let Some(r) = &x.registry {
            d.put("registry", r.as_str());
        }
        if x.insecure {
            d.set("insecure", Toml::Boolean(true));
        }
        d.translated("customizations.virtkit.cache", "as `cache`");
    }
}

/// The directory the file's paths are relative to.
pub open spec fn config_dir(config_path: Seq<u8>) -> Seq<u8> {
    match parent_of(config_path) {
        Some(p) => p,
        None => encode_utf8("/"@),
    }
}

/// The draft before anything is carried over: where it came from, and what to do with it.
pub open spec fn begun(config_path: Seq<u8>, workspace: Seq<u8>) -> DraftView {
    DraftView::empty().preamble(
        lossy_text(
            match relative_to(config_path, workspace) {
                Some(rel) => rel,
                None => config_path,
            },
        ),
    ).header("Review the `requires action` items of the report before the first `vk dev shell`."@)
}

/// The draft with the environment's source.
pub open spec fn with_source(
    d: DraftView,
    c: Config,
    dir: Seq<u8>,
    workspace: Seq<u8>,
    stages: Option<Seq<Seq<char>>>,
) -> DraftView {
    with_build(with_image(with_service(with_compose(d, c, dir, workspace), c), c), c, dir, workspace, stages)
}

/// The draft with how one is in the environment.
pub open spec fn with_being(d: DraftView, c: Config) -> DraftView {
    let folder = c.workspace_folder.deep_view();
    let d1 = with_machine(with_place(d, c), virtkit_of(c));
    let d2 = with_env(d1, "remoteEnv"@, "exec-env"@, c.remote_env.deep_view(), folder);
    let d3 = with_env(d2, "containerEnv"@, "container-env"@, c.container_env.deep_view(), folder);
    let d4 = match c.mounts {
        Some(m) => omitted_if(mounts_upto(d3, m@, folder, m@.len() as int).0, m@.len() == 0, "mounts"@, "empty"@),
        None => d3,
    };
    let d5 = match c.forward_ports {
        Some(p) => omitted_if(
            ports_upto(d4, p@, has_compose(c), p@.len() as int).0,
            p@.len() == 0,
            "forwardPorts"@,
            "empty"@,
        ),
        None => d4,
    };
    with_docker_notes(with_command_notes(with_hooks(with_port_notes(d5, c), c), c), c)
}

/// The draft a devcontainer config translates into.
pub open spec fn translated(
    c: Config,
    config_path: Seq<u8>,
    workspace: Seq<u8>,
    stages: Option<Seq<Seq<char>>>,
) -> DraftView {
    let dir = config_dir(config_path);
    let d = with_being(with_source(begun(config_path, workspace), c, dir, workspace, stages), c);
    let e = match c.customizations {
        Some(x) => with_editor(d, x.others.deep_view()),
        None => d,
    };
    with_host(e, virtkit_of(c), dir, workspace)
}

fn carry_being(d: &mut Draft, c: &Config, compose: bool)
    requires
        compose == has_compose(*c),
    ensures
        final(d).deep_view() == with_being(old(d).deep_view(), *c),
        old(d).deep_view().wf() ==> final(d).deep_view().wf(),
{
    carry_place(d, c, compose);
    if let Some(v) = virtkit(c) {
        carry_machine(d, v);
    }
    carry_env(d, "remoteEnv", "exec-env", &c.remote_env, &c.workspace_folder);
    carry_env(d, "containerEnv", "container-env", &c.container_env, &c.workspace_folder);
    if let Some(m) = &c.mounts {
        carry_mounts(d, m, &c.workspace_folder);
        note_omitted(d, m.len() == 0, "mounts", "empty");
    }
    if let Some(p) = &c.forward_ports {
        carry_ports(d, p, compose);
        note_omitted(d, p.len() == 0, "forwardPorts", "empty");
    }
    carry_port_notes(d, c);
    carry_hooks(d, c);
    carry_command_notes(d, c);
    carry_docker_notes(d, c);
}

/// Translate `c`, read from `config_path` in `workspace`, both absolute, into a draft. `stages`
/// are the named stages of the Dockerfile that [`dockerfile_wanted`] names, none where it could
/// not be read.
pub fn translate(c: &Config, config_path: &HostPath, workspace: &HostPath, stages: &Option<Vec<String>>) -> (r: Draft)
    requires
        quotable(*c),
    ensures
        r.deep_view() == translated(*c, config_path.deep_view(), workspace.deep_view(), stages.deep_view()),
        r.deep_view().wf(),
{
    let dir = match config_path.parent() {
        Some(p) => p,
        None => HostPath::from_text("/"),
    };
    let shown = match config_path.strip_prefix(workspace) {
        Some(rel) => rel.display(),
        None => config_path.display(),
    };
    let mut d = Draft::new();
    d.preamble(shown.as_str());
    d.header("Review the `requires action` items of the report before the first `vk dev shell`.".to_owned());
    let compose = carry_compose(&mut d, c, &dir, workspace);
    carry_service(&mut d, c, compose);
    carry_image(&mut d, c, compose);
    carry_build(&mut d, c, compose, &dir, workspace, stages);
    carry_being(&mut d, c, compose);
    if let Some(x) = &c.customizations {
        carry_editor(&mut d, &x.others);
    }
    if let Some(v) = virtkit(c) {
        carry_host(&mut d, v, &dir, workspace);
    }
    d
}

/// The Dockerfile whose stages the translation asks for: the one that is built from, where the
/// file names no stage of it and it stands in the project.
pub open spec fn dockerfile_asked(c: Config, config_path: Seq<u8>, workspace: Seq<u8>) -> Option<Seq<u8>> {
    match dockerfile_of(c) {
        Some(df) => if has_compose(c) || c.image is Some || build_text(c, "target"@) is Some {
            None
        } else {
            let rel = rebased(DraftView::empty(), config_dir(config_path), workspace, ""@, df).1;
            if is_abs(encode_utf8(rel)) {
                None
            } else {
                Some(joined_path(workspace, encode_utf8(rel)))
            }
        },
        None => None,
    }
}

/// The Dockerfile whose stages have to be known to translate the file.
pub fn dockerfile_wanted(c: &Config, config_path: &HostPath, workspace: &HostPath) -> (r: Option<HostPath>)
    ensures
        r.deep_view() == dockerfile_asked(*c, config_path.deep_view(), workspace.deep_view()),
{
    let df = match dockerfile(c) {
        Some(df) => df,
        None => return None,
    };
    let own = match virtkit(c) {
        Some(v) => copy_opt(&v.docker_compose_file),
        None => None,
    };
    assert(own.deep_view() == own_compose(*c));
    if own.is_some() || c.docker_compose_file.is_some() || c.image.is_some() || text_in_build(c, "target").is_some() {
        return None;
    }
    let dir = match config_path.parent() {
        Some(p) => p,
        None => HostPath::from_text("/"),
    };
    let mut scratch = Draft::new();
    let rel = rebase(&mut scratch, &dir, workspace, "", df.as_str());
    if HostPath::from_text(rel.as_str()).is_absolute() {
        return None;
    }
    Some(workspace.join_text(rel.as_str()))
}

} // verus!
