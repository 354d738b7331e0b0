//! `vk dev init`: a project's first `.virtkit/config.toml`, from what the project already has, a
//! devcontainer, a compose file or a Dockerfile, or from a stock image.
//!
//! Import is data conversion. A draft missing an essential choice is still written, for the
//! reader to finish, but the command does not succeed, so a script does not take it for done.

use crate::config::Files;
use crate::discover::{root_of, worktree_root};
use crate::draft::{config_written, report_shown, Draft, DraftView};
use crate::entries::{put_entry, with_entry};
use crate::path::{is_listed, joined_path, lossy_text, relative_to, HostPath};
use crate::text::{cat2, cat3, cat4, cat5, decimal, error, join, joined, outcome, put, to_decimal, Error};
use crate::validate::flagged;
use crate::value::{group_value, lemma_put_fit, lemma_table_is_fit, Toml, Tree};
use vstd::prelude::*;
use vstd::utf8::encode_utf8;

verus! {

broadcast use group_value;

/// Where `vk dev init` reads from.
#[derive(Debug, Clone, Copy, PartialEq, Eq, Structural)]
pub enum Source {
    /// `.devcontainer/devcontainer.json` or `.devcontainer.json`
    Devcontainer,
    /// a compose file at the project root
    Compose,
    /// a Dockerfile at the project root
    Dockerfile,
    /// an image named with `--image`
    Image,
}

#[derive(Debug)]
pub struct Opts {
    pub from: Option<Source>,
    pub image: Option<String>,
    pub force: bool,
}

/// What `init` did, and whether the result can be used as it stands.
#[derive(Debug)]
pub struct Outcome {
    pub report: String,
    pub ok: bool,
}

/// What `init` does.
#[derive(Debug, Clone, Copy, PartialEq, Eq, Structural)]
pub enum Step {
    /// validate the config there is, and describe it
    Describe,
    /// write the template
    Template,
    /// translate what the project has
    Import(Source),
}

/// The compose file, in docker's own order of names.
pub open spec fn compose_found(workspace: Seq<u8>, files: Seq<Seq<u8>>) -> Option<Seq<u8>> {
    let a = joined_path(workspace, encode_utf8("compose.yaml"@));
    let b = joined_path(workspace, encode_utf8("compose.yml"@));
    let c = joined_path(workspace, encode_utf8("docker-compose.yaml"@));
    let d = joined_path(workspace, encode_utf8("docker-compose.yml"@));
    if files.contains(a) {
        Some(a)
    } else if files.contains(b) {
        Some(b)
    } else if files.contains(c) {
        Some(c)
    } else if files.contains(d) {
        Some(d)
    } else {
        None
    }
}

fn find_compose(workspace: &HostPath, files: &Vec<HostPath>) -> (r: Option<HostPath>)
    ensures
        r.deep_view() == compose_found(workspace.deep_view(), files.deep_view()),
{
    let a = workspace.join_text("compose.yaml");
    if is_listed(&a, files) {
        return Some(a);
    }
    let b = workspace.join_text("compose.yml");
    if is_listed(&b, files) {
        return Some(b);
    }
    let c = workspace.join_text("docker-compose.yaml");
    if is_listed(&c, files) {
        return Some(c);
    }
    let d = workspace.join_text("docker-compose.yml");
    if is_listed(&d, files) {
        return Some(d);
    }
    None
}

/// The compose file to import, given the paths that are files.
pub fn compose_file(workspace: &HostPath, files: &Vec<HostPath>) -> (r: Result<HostPath, Error>)
    ensures
        match r {
            Ok(p) => compose_found(workspace.deep_view(), files.deep_view()) == Some(p.deep_view()),
            Err(e) => compose_found(workspace.deep_view(), files.deep_view()) is None && e.deep_view()
                == "no compose file in "@ + lossy_text(workspace.deep_view())
                + " (looked for compose.yaml, compose.yml, docker-compose.yaml, docker-compose.yml)"@,
        },
{
    match find_compose(workspace, files) {
        Some(p) => Ok(p),
        None => Err(
            error(
                cat3(
                    "no compose file in ",
                    workspace.display().as_str(),
                    " (looked for compose.yaml, compose.yml, docker-compose.yaml, docker-compose.yml)",
                ),
            ),
        ),
    }
}

/// The Dockerfile to import, given the paths that are files.
pub fn docker_file(workspace: &HostPath, files: &Vec<HostPath>) -> (r: Result<HostPath, Error>)
    ensures
        ({
            let p = joined_path(workspace.deep_view(), encode_utf8("Dockerfile"@));
            outcome(r) == if files.deep_view().contains(p) {
                Ok::<Seq<u8>, Seq<char>>(p)
            } else {
                Err("no Dockerfile in "@ + lossy_text(workspace.deep_view()))
            }
        }),
{
    let p = workspace.join_text("Dockerfile");
    if is_listed(&p, files) {
        return Ok(p);
    }
    Err(error(cat2("no Dockerfile in ", workspace.display().as_str())))
}

/// What the project has, in order: a devcontainer, a compose file, a Dockerfile.
pub open spec fn detected(workspace: Seq<u8>, files: Seq<Seq<u8>>) -> Option<Source> {
    if crate::devcontainer::config_found(workspace, None, files) is Ok {
        Some(Source::Devcontainer)
    } else if compose_found(workspace, files) is Some {
        Some(Source::Compose)
    } else if files.contains(joined_path(workspace, encode_utf8("Dockerfile"@))) {
        Some(Source::Dockerfile)
    } else {
        None
    }
}

/// What the project has, in the order the design fixes: a devcontainer, a compose file, a
/// Dockerfile.
pub fn detect(workspace: &HostPath, files: &Vec<HostPath>) -> (r: Option<Source>)
    ensures
        r == detected(workspace.deep_view(), files.deep_view()),
{
    if crate::devcontainer::discover(workspace, &None, files).is_ok() {
        return Some(Source::Devcontainer);
    }
    if find_compose(workspace, files).is_some() {
        return Some(Source::Compose);
    }
    if is_listed(&workspace.join_text("Dockerfile"), files) {
        return Some(Source::Dockerfile);
    }
    None
}

/// What is wrong with the options together.
pub open spec fn opts_error(o: Opts) -> Option<Seq<char>> {
    if o.from == Some(Source::Image) && o.image is None {
        Some("--from image needs --image REF"@)
    } else {
        flagged(
            o.image is Some && o.from is Some && o.from != Some(Source::Image),
            "--image only goes with --from image"@,
        )
    }
}

/// What `init` does: a config that exists is validated, not replaced, unless that is asked for;
/// what the caller names is imported, else what the project has, else the template is written.
pub open spec fn step_of(o: Opts, exists_already: bool, workspace: Seq<u8>, files: Seq<Seq<u8>>) -> Step {
    if exists_already && !o.force && o.from is None && o.image is None {
        Step::Describe
    } else {
        match o.from {
            Some(s) => Step::Import(s),
            None => if o.image is Some {
                Step::Import(Source::Image)
            } else {
                match detected(workspace, files) {
                    Some(s) => Step::Import(s),
                    None => Step::Template,
                }
            },
        }
    }
}

/// The project a config is written for: the one that has a config, else the checkout the caller
/// is in, else where the caller is.
pub open spec fn root_for(existing: Option<Seq<u8>>, from: Seq<u8>, checkouts: Seq<Seq<u8>>) -> Seq<u8> {
    match existing {
        Some(w) => w,
        None => match root_of(from, checkouts) {
            Some(r) => r,
            None => from,
        },
    }
}

/// The project a config is written for. An `init` from a subdirectory writes at the checkout's
/// root rather than starting a second project halfway down.
pub fn project_root(existing: &Option<Files>, from: &HostPath, checkouts: &Vec<HostPath>) -> (r: HostPath)
    ensures
        r.deep_view() == root_for(
            match *existing {
                Some(f) => Some(f.workspace.deep_view()),
                None => None,
            },
            from.deep_view(),
            checkouts.deep_view(),
        ),
{
    match existing {
        Some(f) => f.workspace.copy(),
        None => match worktree_root(from, checkouts) {
            Some(r) => r,
            None => from.copy(),
        },
    }
}

/// What `init` does for a project that has a config already or not.
pub fn run(o: &Opts, exists_already: bool, workspace: &HostPath, files: &Vec<HostPath>) -> (r: Result<Step, Error>)
    ensures
        match r {
            Ok(s) => opts_error(*o) is None && s == step_of(
                *o,
                exists_already,
                workspace.deep_view(),
                files.deep_view(),
            ),
            Err(e) => opts_error(*o) == Some(e.deep_view()),
        },
{
    match o.from {
        Some(Source::Image) => {
            if o.image.is_none() {
                return Err(error("--from image needs --image REF".to_owned()));
            }
        },
        Some(_) => {
            if o.image.is_some() {
                return Err(error("--image only goes with --from image".to_owned()));
            }
        },
        None => {},
    }
    if exists_already && !o.force && o.from.is_none() && o.image.is_none() {
        return Ok(Step::Describe);
    }
    match o.from {
        Some(s) => Ok(Step::Import(s)),
        None => {
            if o.image.is_some() {
                return Ok(Step::Import(Source::Image));
            }
            match detect(workspace, files) {
                Some(s) => Ok(Step::Import(s)),
                None => Ok(Step::Template),
            }
        },
    }
}

#[verifier::external_type_specification]
#[verifier::external_body]
pub struct ExYamlValue(serde_yaml_ng::Value);

/// What a YAML text holds, or why it holds nothing.
pub uninterp spec fn yaml_read(text: Seq<char>) -> Result<serde_yaml_ng::Value, Seq<char>>;

/// `serde_yaml_ng::from_str` into a value: what it gives, the error's text where it fails, is a
/// function of the text.
#[verifier::external_body]
fn yaml_from_str(text: &str) -> (r: Result<serde_yaml_ng::Value, String>)
    ensures
        match r {
            Ok(v) => yaml_read(text@) == Ok::<serde_yaml_ng::Value, Seq<char>>(v),
            Err(e) => yaml_read(text@) == Err::<serde_yaml_ng::Value, Seq<char>>(e@),
        },
{
    match serde_yaml_ng::from_str::<serde_yaml_ng::Value>(text) {
        Ok(v) => Ok(v),
        Err(e) => Err(format!("{e}")),
    }
}

/// What stands under a key of a YAML mapping.
pub uninterp spec fn yaml_entry(v: serde_yaml_ng::Value, key: Seq<char>) -> Option<serde_yaml_ng::Value>;

/// `serde_yaml_ng::Value::get` with a text for a key.
#[verifier::external_body]
fn yaml_get(v: &serde_yaml_ng::Value, key: &str) -> (r: Option<serde_yaml_ng::Value>)
    ensures
        r == yaml_entry(*v, key@),
{
    v.get(key).cloned()
}

/// The keys of a YAML mapping, in order; none of anything else.
pub uninterp spec fn yaml_keys(v: serde_yaml_ng::Value) -> Option<Seq<serde_yaml_ng::Value>>;

/// `serde_yaml_ng::Value::as_mapping`, and the mapping's keys in the order in which it is
/// walked.
#[verifier::external_body]
fn yaml_mapping_keys(v: &serde_yaml_ng::Value) -> (r: Option<Vec<serde_yaml_ng::Value>>)
    ensures
        match r {
            Some(k) => yaml_keys(*v) == Some(k@),
            None => yaml_keys(*v) is None,
        },
{
    v.as_mapping().map(|m| m.keys().cloned().collect())
}

/// A YAML value that is a text.
pub uninterp spec fn yaml_text(v: serde_yaml_ng::Value) -> Option<Seq<char>>;

/// `serde_yaml_ng::Value::as_str`.
#[verifier::external_body]
fn yaml_as_str(v: &serde_yaml_ng::Value) -> (r: Option<String>)
    ensures
        r.deep_view() == yaml_text(*v),
{
    v.as_str().map(|s| s.to_string())
}

/// How `{:?}` shows a YAML value.
pub uninterp spec fn yaml_debug(v: serde_yaml_ng::Value) -> Seq<char>;

/// The `Debug` of `serde_yaml_ng::Value`.
#[verifier::external_body]
fn yaml_shown(v: &serde_yaml_ng::Value) -> (r: String)
    ensures
        r@ == yaml_debug(*v),
{
    format!("{v:?}")
}

/// The first `n` keys as the service names they are, or the first that is none.
pub open spec fn names_upto(keys: Seq<serde_yaml_ng::Value>, path: Seq<char>, n: int) -> Result<
    Seq<Seq<char>>,
    Seq<char>,
>
    decreases n,
{
    if n <= 0 {
        Ok(Seq::empty())
    } else {
        match names_upto(keys, path, n - 1) {
            Err(e) => Err(e),
            Ok(done) => match yaml_text(keys[n - 1]) {
                Some(t) => Ok(done.push(t)),
                None => Err(path + ": "@ + yaml_debug(keys[n - 1]) + " is not a service name"@),
            },
        }
    }
}

proof fn lemma_names_kept(keys: Seq<serde_yaml_ng::Value>, path: Seq<char>, n: int, m: int)
    requires
        0 <= n <= m,
        names_upto(keys, path, n) is Err,
    ensures
        names_upto(keys, path, m) == names_upto(keys, path, n),
    decreases m - n,
{
    if n < m {
        lemma_names_kept(keys, path, n, m - 1);
    }
}

/// The services a compose file declares, given what it holds.
pub open spec fn services_in(doc: serde_yaml_ng::Value, path: Seq<char>) -> Result<Seq<Seq<char>>, Seq<char>> {
    match yaml_entry(doc, "services"@) {
        None => Err(path + " declares no services"@),
        Some(s) => match yaml_keys(s) {
            None => Err(path + " declares no services"@),
            Some(keys) => names_upto(keys, path, keys.len() as int),
        },
    }
}

/// The services a compose file declares.
pub open spec fn services_of(path: Seq<u8>, text: Seq<char>) -> Result<Seq<Seq<char>>, Seq<char>> {
    match yaml_read(text) {
        Err(e) => Err("parsing "@ + lossy_text(path) + ": "@ + e),
        Ok(doc) => services_in(doc, lossy_text(path)),
    }
}

/// The service names a compose file's document declares. A key that is no name is an error:
/// dropping it would leave the draft asking which of two about three services.
pub fn names_in(doc: &serde_yaml_ng::Value, shown: &str) -> (r: Result<Vec<String>, Error>)
    ensures
        outcome(r) == services_in(*doc, shown@),
{
    let services = match yaml_get(doc, "services") {
        Some(s) => s,
        None => return Err(error(cat2(shown, " declares no services"))),
    };
    let keys = match yaml_mapping_keys(&services) {
        Some(k) => k,
        None => return Err(error(cat2(shown, " declares no services"))),
    };
    let mut out: Vec<String> = Vec::new();
    let mut i: usize = 0;
    assert(out.deep_view() =~= Seq::<Seq<char>>::empty());
    while i < keys.len()
        invariant
            i <= keys@.len(),
            services_in(*doc, shown@) == names_upto(keys@, shown@, keys@.len() as int),
            names_upto(keys@, shown@, i as int) == Ok::<Seq<Seq<char>>, Seq<char>>(out.deep_view()),
        decreases keys@.len() - i,
    {
        match yaml_as_str(&keys[i]) {
            Some(t) => put(&mut out, t),
            None => {
                proof {
                    lemma_names_kept(keys@, shown@, i + 1, keys@.len() as int);
                }
                return Err(error(cat4(shown, ": ", yaml_shown(&keys[i]).as_str(), " is not a service name")));
            },
        }
        i = i + 1;
    }
    Ok(out)
}

/// The service names a compose file declares, without resolving anything else in it.
pub fn service_names(path: &HostPath, text: &str) -> (r: Result<Vec<String>, Error>)
    ensures
        outcome(r) == services_of(path.deep_view(), text@),
{
    match yaml_from_str(text) {
        Ok(doc) => names_in(&doc, path.display().as_str()),
        Err(e) => Err(error(cat4("parsing ", path.display().as_str(), ": ", e.as_str()))),
    }
}

/// The draft with the service one works in: the only one there is, else left to the reader.
pub open spec fn with_service(d: DraftView, names: Result<Seq<Seq<char>>, Seq<char>>) -> DraftView {
    match names {
        Ok(n) => if n.len() == 1 {
            d.put("service"@, n[0]).translated("service"@, n[0] + ", the only one"@)
        } else {
            d.commented("service"@, "\"\""@).essential(
                "service"@,
                "which of "@ + joined(n, ", "@) + " is the one you work in"@,
            )
        },
        Err(e) => d.commented("service"@, "\"\""@).essential(
            "service"@,
            "could not list the services ("@ + e + "); name the one you work in"@,
        ),
    }
}

/// A draft from a compose file: the LAN is described; which service is the one you work in is
/// not, unless there is only one.
pub open spec fn compose_draft(path: Seq<u8>, workspace: Seq<u8>, names: Result<Seq<Seq<char>>, Seq<char>>) -> DraftView {
    let rel = lossy_text(
        match relative_to(path, workspace) {
            Some(r) => r,
            None => path,
        },
    );
    with_service(
        DraftView::empty().preamble(rel).put("compose"@, rel).translated("compose"@, rel),
        names,
    ).comment("Where the checkout is mounted in the guest: the service's own `volumes:` say."@).commented(
        "workspace"@,
        "\"/workdir\""@,
    ).action("workspace"@, "set it to the guest path the service mounts the checkout at"@).commented(
        "user"@,
        "\"dev\""@,
    ).put("freshness"@, "ask"@)
}

/// A compose file as a draft, given the services it declares or why they cannot be listed.
pub fn from_compose(path: &HostPath, workspace: &HostPath, names: Result<Vec<String>, Error>) -> (r: Draft)
    ensures
        r.deep_view() == compose_draft(path.deep_view(), workspace.deep_view(), outcome(names)),
        r.deep_view().wf(),
{
    let rel = match path.strip_prefix(workspace) {
        Some(p) => p.display(),
        None => path.display(),
    };
    let mut d = Draft::new();
    d.preamble(rel.as_str());
    d.put("compose", rel.as_str());
    d.translated("compose", rel.as_str());
    match names {
        Ok(n) => {
            assert(n@.len() == n.deep_view().len());
            if n.len() == 1 {
                assert(n.deep_view()[0] == n@[0]@);
                d.put("service", n[0].as_str());
                d.translated("service", cat2(n[0].as_str(), ", the only one").as_str());
            } else {
                d.commented("service", "\"\"");
                d.essential(
                    "service",
                    cat3("which of ", join(&n, ", ").as_str(), " is the one you work in").as_str(),
                );
            }
        },
        Err(e) => {
            d.commented("service", "\"\"");
            d.essential(
                "service",
                cat3("could not list the services (", e.message.as_str(), "); name the one you work in").as_str(),
            );
        },
    }
    d.comment("Where the checkout is mounted in the guest: the service's own `volumes:` say.");
    d.commented("workspace", "\"/workdir\"");
    d.action("workspace", "set it to the guest path the service mounts the checkout at");
    d.commented("user", "\"dev\"");
    d.put("freshness", "ask");
    d
}

/// A draft from a Dockerfile: built from the project root. The stage is the reader's choice when
/// there is more than one: the last stage of a build is where the product is, not where the
/// work is.
pub open spec fn dockerfile_draft(stages: Seq<Seq<char>>) -> DraftView {
    let d = DraftView::empty().preamble("Dockerfile"@);
    let t = with_entry(
        with_entry(Seq::empty(), "context"@, Tree::Text("."@)),
        "dockerfile"@,
        Tree::Text("Dockerfile"@),
    );
    let (e, u) = if stages.len() > 1 {
        (
            d.essential(
                "build.target"@,
                "Dockerfile has "@ + decimal(stages.len()) + " named stages ("@ + joined(stages, ", "@)
                    + "); say which one is the development environment"@,
            ),
            with_entry(t, "target"@, Tree::Text(""@)),
        )
    } else {
        (d, t)
    };
    e.set("build"@, Tree::Table(u)).translated("build"@, "context ., Dockerfile"@).put(
        "workspace"@,
        "/workspace"@,
    ).action(
        "workspace"@,
        "the checkout is mounted at /workspace; change it if the image expects another path"@,
    ).commented("user"@, "\"dev\""@).put("freshness"@, "ask"@)
}

/// A Dockerfile as a draft, given its named stages.
pub fn from_dockerfile(stages: &Vec<String>) -> (r: Draft)
    ensures
        r.deep_view() == dockerfile_draft(stages.deep_view()),
        r.deep_view().wf(),
{
    let mut d = Draft::new();
    d.preamble("Dockerfile");
    let mut t: Vec<(String, Toml)> = Vec::new();
    assert(t.deep_view() =~= Seq::<(Seq<char>, Tree)>::empty());
    proof {
        lemma_put_fit(t.deep_view(), "context"@, Tree::Text("."@));
        lemma_put_fit(
            with_entry(t.deep_view(), "context"@, Tree::Text("."@)),
            "dockerfile"@,
            Tree::Text("Dockerfile"@),
        );
    }
    put_entry(&mut t, "context".to_owned(), Toml::Text(".".to_owned()));
    put_entry(&mut t, "dockerfile".to_owned(), Toml::Text("Dockerfile".to_owned()));
    assert(stages@.len() == stages.deep_view().len());
    if stages.len() > 1 {
        proof {
            lemma_put_fit(t.deep_view(), "target"@, Tree::Text(""@));
        }
        put_entry(&mut t, "target".to_owned(), Toml::Text("".to_owned()));
        d.essential(
            "build.target",
            cat5(
                "Dockerfile has ",
                to_decimal(stages.len() as u64).as_str(),
                " named stages (",
                join(stages, ", ").as_str(),
                "); say which one is the development environment",
            ).as_str(),
        );
    }
    proof {
        lemma_table_is_fit(t.deep_view());
    }
    d.set("build", Toml::Table(t));
    d.translated("build", "context ., Dockerfile");
    d.put("workspace", "/workspace");
    d.action(
        "workspace",
        "the checkout is mounted at /workspace; change it if the image expects another path",
    );
    d.commented("user", "\"dev\"");
    d.put("freshness", "ask");
    d
}

/// A draft from an image.
pub open spec fn image_draft(image: Seq<char>) -> DraftView {
    DraftView::empty().preamble("image "@ + image).put("image"@, image).translated("image"@, ""@).put(
        "workspace"@,
        "/workspace"@,
    ).commented("user"@, "\"dev\""@).put("freshness"@, "ask"@)
}

/// An image as a draft.
pub fn from_image(image: &str) -> (r: Draft)
    ensures
        r.deep_view() == image_draft(image@),
        r.deep_view().wf(),
{
    let mut d = Draft::new();
    d.preamble(cat2("image ", image).as_str());
    d.put("image", image);
    d.translated("image", "");
    d.put("workspace", "/workspace");
    d.commented("user", "\"dev\"");
    d.put("freshness", "ask");
    d
}

/// What is reported of a template that was written.
pub fn template_outcome(path: &HostPath) -> (r: Outcome)
    ensures
        r.ok,
        r.report@ == "wrote "@ + lossy_text(path.deep_view()) + " — edit it, then `vk dev shell`\n"@,
{
    Outcome {
        report: cat3("wrote ", path.display().as_str(), " — edit it, then `vk dev shell`\n"),
        ok: true,
    }
}

/// The last line of an import's report: what reading the draft back said.
pub open spec fn read_back(complete: bool, error: Option<Seq<char>>) -> Seq<char> {
    match error {
        Some(e) => "the draft does not validate yet: "@ + e + "\n"@,
        None => if complete {
            "the config validates — `vk dev shell` boots it\n"@
        } else {
            "finish the items above before the first `vk dev shell`\n"@
        },
    }
}

/// What an import did: `read` was translated and written at `path`, and reading it back failed
/// or not. It is done where nothing essential is missing and it reads back.
pub fn import_outcome(path: &HostPath, read: &HostPath, draft: &Draft, error: &Option<String>) -> (r: Outcome)
    ensures
        r.ok == (!draft.deep_view().needs_work() && error is None),
        r.report@ == "wrote "@ + lossy_text(path.deep_view()) + " from "@ + lossy_text(read.deep_view()) + "\n"@ + (
        report_shown(draft.deep_view().items) + read_back(!draft.deep_view().needs_work(), error.deep_view())),
{
    let complete = !draft.needs_work();
    let last = match error {
        Some(e) => cat3("the draft does not validate yet: ", e.as_str(), "\n"),
        None => if complete {
            "the config validates — `vk dev shell` boots it\n".to_owned()
        } else {
            "finish the items above before the first `vk dev shell`\n".to_owned()
        },
    };
    let tail = cat2(draft.report().as_str(), last.as_str());
    let head = cat5("wrote ", path.display().as_str(), " from ", read.display().as_str(), "\n");
    Outcome { report: cat2(head.as_str(), tail.as_str()), ok: complete && error.is_none() }
}

/// An existing config is read and not replaced, unless it is asked for: without `--force` it is
/// described, or a draft is written in a way that refuses a file that is there; and nothing but the
/// config itself, and a temporary file beside it, is ever written.
pub proof fn law_existing_config_is_kept(o: Opts, workspace: Seq<u8>, files: Seq<Seq<u8>>, text: Seq<char>)
    requires
        !o.force,
    ensures
        o.from is None && o.image is None ==> step_of(o, true, workspace, files) == Step::Describe,
        config_written(workspace, text, o.force).at == config_written(workspace, text, o.force).path,
        config_written(workspace, text, true).path == config_written(workspace, text, false).path,
        config_written(workspace, text, true).at == config_written(workspace, text, false).path + encode_utf8(".tmp"@),
{
}

} // verus!
