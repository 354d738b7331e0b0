//! Finding a project's config, given what the host says of the files there are.

use crate::config::{Files, CONFIG_FILE, LOCAL_ENV_FILE, LOCAL_FILE};
use crate::path::{
    ancestors_of, is_listed, joined_path, lossy_text, parent_of, same_path, HostPath,
};
use crate::text::{cat2, cat3, cat5, error, outcome, Error};
use vstd::prelude::*;
use vstd::utf8::encode_utf8;

verus! {

pub struct FilesView {
    pub workspace: Seq<u8>,
    pub config: Seq<u8>,
    pub local: Option<Seq<u8>>,
    pub local_env: Option<Seq<u8>>,
}

impl DeepView for Files {
    type V = FilesView;

    open spec fn deep_view(&self) -> FilesView {
        FilesView {
            workspace: self.workspace.deep_view(),
            config: self.config.deep_view(),
            local: self.local.deep_view(),
            local_env: self.local_env.deep_view(),
        }
    }
}

/// What the host says: the directories that hold a `.git` entry, a directory or a linked
/// worktree's file, and the paths that are files.
#[derive(Debug)]
pub struct Found {
    pub checkouts: Vec<HostPath>,
    pub files: Vec<HostPath>,
}

/// The first of the paths, from `from` on, that is among those listed.
pub open spec fn first_listed(v: Seq<Seq<u8>>, listed: Seq<Seq<u8>>, from: int) -> Option<int>
    decreases v.len() - from,
{
    if from < 0 || from >= v.len() {
        None
    } else if listed.contains(v[from]) {
        Some(from)
    } else {
        first_listed(v, listed, from + 1)
    }
}

/// The root of the checkout a directory is in: the nearest ancestor, or itself, that holds a
/// `.git` entry.
pub open spec fn root_of(dir: Seq<u8>, checkouts: Seq<Seq<u8>>) -> Option<Seq<u8>> {
    match first_listed(ancestors_of(dir), checkouts, 0) {
        Some(i) => Some(ancestors_of(dir)[i]),
        None => None,
    }
}

fn first_in(v: &Vec<HostPath>, listed: &Vec<HostPath>) -> (r: Option<usize>)
    ensures
        match r {
            Some(i) => first_listed(v.deep_view(), listed.deep_view(), 0) == Some(i as int) && i < v@.len(),
            None => first_listed(v.deep_view(), listed.deep_view(), 0) is None,
        },
{
    let ghost s = v.deep_view();
    let ghost l = listed.deep_view();
    let mut i: usize = 0;
    while i < v.len()
        invariant
            i <= v@.len(),
            s == v.deep_view(),
            l == listed.deep_view(),
            first_listed(s, l, i as int) == first_listed(s, l, 0),
        decreases v@.len() - i,
    {
        assert(s[i as int] == v@[i as int].deep_view());
        if is_listed(&v[i], listed) {
            return Some(i);
        }
        i = i + 1;
    }
    None
}

/// The root of the checkout `dir` is in; none outside any checkout.
pub fn worktree_root(dir: &HostPath, checkouts: &Vec<HostPath>) -> (r: Option<HostPath>)
    ensures
        r.deep_view() == root_of(dir.deep_view(), checkouts.deep_view()),
{
    let all = dir.ancestors();
    match first_in(&all, checkouts) {
        Some(i) => {
            assert(all.deep_view()[i as int] == all@[i as int].deep_view());
            Some(all[i].copy())
        },
        None => None,
    }
}

/// The file under the workspace, where it is one.
pub open spec fn file_under(workspace: Seq<u8>, name: Seq<char>, files: Seq<Seq<u8>>) -> Option<Seq<u8>> {
    let p = joined_path(workspace, encode_utf8(name));
    if files.contains(p) {
        Some(p)
    } else {
        None
    }
}

/// The config and the local layers over it, which are the workspace's own wherever the config
/// was taken from.
pub open spec fn files_at(workspace: Seq<u8>, config: Seq<u8>, files: Seq<Seq<u8>>) -> FilesView {
    FilesView {
        workspace,
        config,
        local: file_under(workspace, LOCAL_FILE@, files),
        local_env: file_under(workspace, LOCAL_ENV_FILE@, files),
    }
}

fn under(workspace: &HostPath, name: &str, files: &Vec<HostPath>) -> (r: Option<HostPath>)
    ensures
        r.deep_view() == file_under(workspace.deep_view(), name@, files.deep_view()),
{
    let p = workspace.join_text(name);
    if is_listed(&p, files) {
        Some(p)
    } else {
        None
    }
}

/// The config and the local layers over it. The local files are the workspace's own, at
/// `workspace/.virtkit/`, wherever the tracked file was taken from.
pub fn files_of(workspace: HostPath, config: HostPath, files: &Vec<HostPath>) -> (r: Files)
    ensures
        r.deep_view() == files_at(workspace.deep_view(), config.deep_view(), files.deep_view()),
{
    let local = under(&workspace, LOCAL_FILE, files);
    let local_env = under(&workspace, LOCAL_ENV_FILE, files);
    Files { workspace, config, local, local_env }
}

/// The first of the first `n` directories that holds a config.
pub open spec fn config_among(dirs: Seq<Seq<u8>>, files: Seq<Seq<u8>>, from: int, n: int) -> Option<int>
    decreases n - from,
{
    if from < 0 || from >= n {
        None
    } else if files.contains(joined_path(dirs[from], encode_utf8(CONFIG_FILE@))) {
        Some(from)
    } else {
        config_among(dirs, files, from + 1, n)
    }
}

/// How far up the search goes: to the checkout's root, and no further than the directory itself
/// outside a checkout.
pub open spec fn search_depth(from: Seq<u8>, checkouts: Seq<Seq<u8>>) -> int {
    match first_listed(ancestors_of(from), checkouts, 0) {
        Some(i) => i + 1,
        None => 1,
    }
}

/// `.virtkit/config.toml` in a directory or an ancestor, no further up than the checkout root.
pub open spec fn searched(from: Seq<u8>, checkouts: Seq<Seq<u8>>, files: Seq<Seq<u8>>) -> Option<FilesView> {
    let dirs = ancestors_of(from);
    match config_among(dirs, files, 0, search_depth(from, checkouts)) {
        Some(i) => Some(files_at(dirs[i], joined_path(dirs[i], encode_utf8(CONFIG_FILE@)), files)),
        None => None,
    }
}

/// `.virtkit/config.toml` in `from` or an ancestor, no further up than the checkout root, and no
/// further than `from` itself outside a checkout, where the walk would otherwise reach the home
/// directory and adopt a config written for another project.
pub fn search(from: &HostPath, found: &Found) -> (r: Option<Files>)
    ensures
        r.deep_view() == searched(from.deep_view(), found.checkouts.deep_view(), found.files.deep_view()),
{
    let dirs = from.ancestors();
    let ghost s = dirs.deep_view();
    let ghost f = found.files.deep_view();
    let total: usize = dirs.len();
    let depth: usize = match first_in(&dirs, &found.checkouts) {
        Some(i) => i + 1,
        None => 1,
    };
    assert(s.len() == dirs@.len());
    let mut i: usize = 0;
    while i < depth
        invariant
            i <= depth <= dirs@.len(),
            s == dirs.deep_view(),
            s == ancestors_of(from.deep_view()),
            f == found.files.deep_view(),
            depth == search_depth(from.deep_view(), found.checkouts.deep_view()),
            config_among(s, f, i as int, depth as int) == config_among(s, f, 0, depth as int),
        decreases depth - i,
    {
        assert(s[i as int] == dirs@[i as int].deep_view());
        let config = dirs[i].join_text(CONFIG_FILE);
        if is_listed(&config, &found.files) {
            return Some(files_of(dirs[i].copy(), config, &found.files));
        }
        i = i + 1;
    }
    None
}

/// The workspace of a config named outright: its own directory's parent, or that directory where
/// it has none.
pub open spec fn workspace_of(config: Seq<u8>) -> Seq<u8> {
    let dir = match parent_of(config) {
        Some(p) => p,
        None => encode_utf8("/"@),
    };
    match parent_of(dir) {
        Some(p) => p,
        None => dir,
    }
}

/// Where a search that found nothing looked.
pub open spec fn looked_in(from: Seq<u8>, checkouts: Seq<Seq<u8>>) -> Seq<char> {
    match root_of(from, checkouts) {
        Some(root) => if same_path(root, from) {
            lossy_text(from)
        } else {
            lossy_text(from) + " up to "@ + lossy_text(root)
        },
        None => lossy_text(from),
    }
}

/// The files a caller's command reads, or why there are none.
pub open spec fn discovered(
    from: Seq<u8>,
    workspace: Option<Seq<u8>>,
    config: Option<Seq<u8>>,
    checkouts: Seq<Seq<u8>>,
    files: Seq<Seq<u8>>,
) -> Result<FilesView, Seq<char>> {
    if workspace is None && config is None {
        match searched(from, checkouts, files) {
            Some(f) => Ok(f),
            None => Err(
                "no "@ + CONFIG_FILE@ + " in "@ + looked_in(from, checkouts)
                    + " — `vk dev init` writes one, --workspace names the project, --dev-config names the file"@,
            ),
        }
    } else {
        let c = match config {
            Some(p) => p,
            None => joined_path(workspace->0, encode_utf8(CONFIG_FILE@)),
        };
        let w = match workspace {
            Some(p) => p,
            None => workspace_of(c),
        };
        if files.contains(c) {
            Ok(files_at(w, c, files))
        } else {
            Err(lossy_text(c) + " is not a file"@)
        }
    }
}

fn project_of(config: &HostPath) -> (r: HostPath)
    ensures
        r.deep_view() == workspace_of(config.deep_view()),
{
    let dir = match config.parent() {
        Some(p) => p,
        None => HostPath::from_text("/"),
    };
    match dir.parent() {
        Some(p) => p,
        None => dir,
    }
}

/// Find the config for a caller in `from`, failing when the project has none. `workspace` names
/// the root outright and `config` names the file, whose own directory's parent is then the
/// workspace unless that is named too. The paths are absolute.
pub fn discover(from: &HostPath, workspace: &Option<HostPath>, config: &Option<HostPath>, found: &Found) -> (r: Result<
    Files,
    Error,
>)
    ensures
        outcome(r) == discovered(
            from.deep_view(),
            workspace.deep_view(),
            config.deep_view(),
            found.checkouts.deep_view(),
            found.files.deep_view(),
        ),
{
    if workspace.is_none() && config.is_none() {
        return match search(from, found) {
            Some(f) => Ok(f),
            None => {
                let looked = match worktree_root(from, &found.checkouts) {
                    Some(root) => if root.is_same(from) {
                        from.display()
                    } else {
                        cat3(from.display().as_str(), " up to ", root.display().as_str())
                    },
                    None => from.display(),
                };
                Err(
                    error(
                        cat5(
                            "no ",
                            CONFIG_FILE,
                            " in ",
                            looked.as_str(),
                            " — `vk dev init` writes one, --workspace names the project, --dev-config names the file",
                        ),
                    ),
                )
            },
        };
    }
    let (w, c) = match (workspace, config) {
        (Some(w), Some(c)) => (w.copy(), c.copy()),
        (Some(w), None) => (w.copy(), w.join_text(CONFIG_FILE)),
        (None, Some(c)) => (project_of(c), c.copy()),
        (None, None) => (from.copy(), from.copy()),
    };
    if !is_listed(&c, &found.files) {
        return Err(error(cat2(c.display().as_str(), " is not a file")));
    }
    Ok(files_of(w, c, &found.files))
}

/// The config for a caller in `from`, or none where there is none.
pub fn discover_here(from: &HostPath, found: &Found) -> (r: Option<Files>)
    ensures
        r.deep_view() == searched(from.deep_view(), found.checkouts.deep_view(), found.files.deep_view()),
{
    search(from, found)
}

/// A path as an absolute one: what it resolves to where it exists, else taken against the
/// working directory.
pub open spec fn made_absolute(p: Seq<u8>, resolved: Option<Seq<u8>>, cwd: Result<Seq<u8>, Seq<char>>) -> Result<
    Seq<u8>,
    Seq<char>,
> {
    match resolved {
        Some(r) => Ok(r),
        None => if crate::path::is_abs(p) {
            Ok(p)
        } else {
            match cwd {
                Ok(d) => Ok(joined_path(d, p)),
                Err(e) => Err("resolving "@ + lossy_text(p) + " against the cwd: "@ + e),
            }
        },
    }
}

/// What the working directory is, or why it is not known.
pub open spec fn cwd_view(cwd: Result<HostPath, String>) -> Result<Seq<u8>, Seq<char>> {
    match cwd {
        Ok(d) => Ok(d.deep_view()),
        Err(e) => Err(e@),
    }
}

/// `p` as an absolute path: resolved when it exists, else taken lexically against the cwd.
pub fn absolute(p: &HostPath, resolved: &Option<HostPath>, cwd: &Result<HostPath, String>) -> (r: Result<
    HostPath,
    Error,
>)
    ensures
        outcome(r) == made_absolute(p.deep_view(), resolved.deep_view(), cwd_view(*cwd)),
{
    if let Some(r) = resolved {
        return Ok(r.copy());
    }
    if p.is_absolute() {
        return Ok(p.copy());
    }
    match cwd {
        Ok(d) => Ok(d.join(p)),
        Err(e) => Err(
            error(
                crate::text::cat4("resolving ", p.display().as_str(), " against the cwd: ", e.as_str()),
            ),
        ),
    }
}

proof fn lemma_config_among(dirs: Seq<Seq<u8>>, files: Seq<Seq<u8>>, from: int, n: int)
    requires
        0 <= from,
    ensures
        match config_among(dirs, files, from, n) {
            Some(i) => {
                &&& from <= i < n
                &&& files.contains(joined_path(dirs[i], encode_utf8(CONFIG_FILE@)))
                &&& forall|j: int|
                    from <= j < i ==> !files.contains(joined_path(#[trigger] dirs[j], encode_utf8(CONFIG_FILE@)))
            },
            None => forall|j: int|
                from <= j < n ==> !files.contains(joined_path(#[trigger] dirs[j], encode_utf8(CONFIG_FILE@))),
        },
    decreases n - from,
{
    if from < n && !files.contains(joined_path(dirs[from], encode_utf8(CONFIG_FILE@))) {
        lemma_config_among(dirs, files, from + 1, n);
    }
}

/// A search takes the nearest config, and goes no further up than the checkout's root: outside a
/// checkout it looks in the directory itself and nowhere else.
pub proof fn law_search_stays_in_the_checkout(from: Seq<u8>, checkouts: Seq<Seq<u8>>, files: Seq<Seq<u8>>)
    requires
        searched(from, checkouts, files) is Some,
    ensures
        ({
            let f = searched(from, checkouts, files)->0;
            let dirs = ancestors_of(from);
            &&& files.contains(f.config)
            &&& f.config == joined_path(f.workspace, encode_utf8(CONFIG_FILE@))
            &&& exists|i: int|
                0 <= i < search_depth(from, checkouts) && dirs[i] == f.workspace && forall|j: int|
                    0 <= j < i ==> !files.contains(joined_path(#[trigger] dirs[j], encode_utf8(CONFIG_FILE@)))
        }),
{
    let dirs = ancestors_of(from);
    let n = search_depth(from, checkouts);
    lemma_config_among(dirs, files, 0, n);
    let i = config_among(dirs, files, 0, n)->0;
    assert(dirs[i] == searched(from, checkouts, files)->0.workspace);
}

} // verus!
