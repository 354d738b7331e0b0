//! What a first config is made from, and what it says.

use crate::draft::{DraftView, EntryView};
use crate::entries::{entry, lemma_with_entry, with_entry};
use crate::init::{
    compose_draft, compose_found, detected, dockerfile_draft, image_draft, opts_error, step_of, Opts, Source, Step,
};
use crate::path::{joined_path, lossy_text, relative_to};
use crate::value::Tree;
use vstd::prelude::*;
use vstd::utf8::encode_utf8;

verus! {

/// A first config is made from what is asked for, an image by itself being asking for it; else from
/// what the project has, a devcontainer file before a compose file before a Dockerfile; and else it
/// is the template. A config that is there is described, unless another is asked for.
pub proof fn law_what_init_does(o: Opts, there: bool, workspace: Seq<u8>, files: Seq<Seq<u8>>)
    ensures
        ({
            let s = step_of(o, there, workspace, files);
            let asked = o.force || o.from is Some || o.image is Some;
            &&& there && !asked <==> s == Step::Describe
            &&& o.from matches Some(x) ==> s == Step::Import(x)
            &&& o.from is None && o.image is Some ==> s == Step::Import(Source::Image)
            &&& o.from is None && o.image is None && (!there || o.force) ==> match detected(workspace, files) {
                Some(x) => s == Step::Import(x),
                None => s == Step::Template,
            }
        }),
        ({
            let d = crate::devcontainer::config_found(workspace, None, files) is Ok;
            let c = files.contains(joined_path(workspace, encode_utf8("compose.yaml"@))) || files.contains(
                joined_path(workspace, encode_utf8("compose.yml"@)),
            ) || files.contains(joined_path(workspace, encode_utf8("docker-compose.yaml"@))) || files.contains(
                joined_path(workspace, encode_utf8("docker-compose.yml"@)),
            );
            let f = files.contains(joined_path(workspace, encode_utf8("Dockerfile"@)));
            &&& d ==> detected(workspace, files) == Some(Source::Devcontainer)
            &&& !d && c ==> detected(workspace, files) == Some(Source::Compose)
            &&& !d && !c && f ==> detected(workspace, files) == Some(Source::Dockerfile)
            &&& !d && !c && !f ==> detected(workspace, files) is None
        }),
        opts_error(o) is None <==> {
            &&& o.from == Some(Source::Image) ==> o.image is Some
            &&& o.image is Some && o.from is Some ==> o.from == Some(Source::Image)
        },
{
}

/// The compose file taken is one of the project's own, the plain name before the older one.
pub proof fn law_compose_found(workspace: Seq<u8>, files: Seq<Seq<u8>>)
    ensures
        compose_found(workspace, files) matches Some(p) ==> files.contains(p),
        files.contains(joined_path(workspace, encode_utf8("compose.yaml"@))) ==> compose_found(workspace, files) == Some(
            joined_path(workspace, encode_utf8("compose.yaml"@)),
        ),
        compose_found(workspace, files) is None <==> detected(workspace, files) != Some(Source::Compose)
            && !files.contains(joined_path(workspace, encode_utf8("compose.yaml"@))) && !files.contains(
            joined_path(workspace, encode_utf8("compose.yml"@)),
        ) && !files.contains(joined_path(workspace, encode_utf8("docker-compose.yaml"@))) && !files.contains(
            joined_path(workspace, encode_utf8("docker-compose.yml"@)),
        ),
{
}

/// The last table of a draft is `dev`, and has the entry.
pub open spec fn dev_has(d: DraftView, e: EntryView) -> bool {
    d.sections.len() > 0 && d.sections.last().path == seq!["dev"@] && d.sections.last().entries.contains(e)
}

proof fn lemma_preamble(from: Seq<char>)
    ensures
        ({
            let d = DraftView::empty().preamble(from);
            d.sections.len() == 2 && d.sections[1].path == seq!["dev"@] && d.sections[1].entries.len() == 0
        }),
{
    reveal_strlit("dev");
    reveal_strlit("requires");
    assert("dev"@.len() == 3 && "requires"@.len() == 8);
    assert(seq!["requires"@][0] != seq!["dev"@][0]);
}

/// A draft from an image boots that image.
pub proof fn law_image_draft(image: Seq<char>)
    ensures
        dev_has(image_draft(image), EntryView::Value("image"@, Tree::Text(image))),
        dev_has(image_draft(image), EntryView::Value("workspace"@, Tree::Text("/workspace"@))),
{
    lemma_preamble("image "@ + image);
    let r = image_draft(image);
    let es = r.sections.last().entries;
    assert(es[0] == EntryView::Value("image"@, Tree::Text(image)));
    assert(es[1] == EntryView::Value("workspace"@, Tree::Text("/workspace"@)));
}

/// A draft from a compose file drives that file, by its path in the project, and works in its only
/// service; where there are several, or none can be told, none is picked and the draft is not done.
pub proof fn law_compose_draft(path: Seq<u8>, workspace: Seq<u8>, names: Result<Seq<Seq<char>>, Seq<char>>)
    ensures
        relative_to(path, workspace) matches Some(r) ==> dev_has(
            compose_draft(path, workspace, names),
            EntryView::Value("compose"@, Tree::Text(lossy_text(r))),
        ),
        names matches Ok(n) && n.len() == 1 ==> dev_has(
            compose_draft(path, workspace, names),
            EntryView::Value("service"@, Tree::Text(names->Ok_0[0])),
        ),
        !(names matches Ok(n) && n.len() == 1) ==> compose_draft(path, workspace, names).needs_work(),
{
    let rel = lossy_text(
        match relative_to(path, workspace) {
            Some(r) => r,
            None => path,
        },
    );
    lemma_preamble(rel);
    let r = compose_draft(path, workspace, names);
    let es = r.sections.last().entries;
    assert(es[0] == EntryView::Value("compose"@, Tree::Text(rel)));
    if names matches Ok(n) && n.len() == 1 {
        assert(es[1] == EntryView::Value("service"@, Tree::Text(names->Ok_0[0])));
    } else {
        assert(r.items[1].fate == crate::draft::Fate::Action { essential: true });
    }
}

/// A draft from the project's Dockerfile builds it from the project; with several stages it says
/// that one has to be picked.
pub proof fn law_dockerfile_draft(stages: Seq<Seq<char>>)
    ensures
        exists|t: Seq<(Seq<char>, Tree)>| #[trigger]
            dev_has(dockerfile_draft(stages), EntryView::Value("build"@, Tree::Table(t))) && entry(t, "context"@)
                == Some(Tree::Text("."@)) && entry(t, "dockerfile"@) == Some(Tree::Text("Dockerfile"@)),
        stages.len() > 1 <==> dockerfile_draft(stages).needs_work(),
{
    lemma_preamble("Dockerfile"@);
    reveal_strlit("context");
    reveal_strlit("dockerfile");
    reveal_strlit("target");
    assert("context"@.len() == 7 && "dockerfile"@.len() == 10 && "target"@.len() == 6);
    let none = Seq::<(Seq<char>, Tree)>::empty();
    let a = with_entry(none, "context"@, Tree::Text("."@));
    let b = with_entry(a, "dockerfile"@, Tree::Text("Dockerfile"@));
    let c = with_entry(b, "target"@, Tree::Text(""@));
    lemma_with_entry(none, "context"@, Tree::Text("."@));
    lemma_with_entry(a, "dockerfile"@, Tree::Text("Dockerfile"@));
    lemma_with_entry(b, "target"@, Tree::Text(""@));
    let t = if stages.len() > 1 {
        c
    } else {
        b
    };
    let r = dockerfile_draft(stages);
    assert(r.sections.last().entries[0] == EntryView::Value("build"@, Tree::Table(t)));
    assert(dev_has(r, EntryView::Value("build"@, Tree::Table(t))));
    if stages.len() > 1 {
        assert(r.items[0].fate == crate::draft::Fate::Action { essential: true });
    }
}

} // verus!
