//! A config read, layered and validated, with its layers kept for attribution.

use crate::config::{Environment, Files, Layer, Schema, LOCAL_FILE};
use crate::describe::description;
use crate::entries::{
    entry, lemma_entry_at, lemma_place, lemma_with_entry, lemma_without, place_from, put_entry, sorted, take_out, with_entry, without,
};
use crate::envfile::{file_sets, law_later_line_wins, parse_env_file};
use crate::layers::{
    at_path, is_secret_key, join_path, laid_over, law_layering_ordered, law_removed_is_gone, leaves, leaves_of, lookup,
    merge_tables, path_keys, path_removed, path_shown, remove_path, secret_key,
};
use crate::path::{joined_path, lossy_text, HostPath};
use crate::text::{
    cat2, cat3, cat4, debug_text, decimal, error, join, joined, lines_of, outcome, put, quoted, same, to_decimal, within,
    Error,
};
use crate::validate::{headed, schema_error, Known};
use crate::value::{copy_table, copy_toml, group_value, ordered, ordered_entries, parse_toml, toml_read, Toml, Tree};
use vstd::prelude::*;
use vstd::utf8::encode_utf8;

verus! {

broadcast use group_value;

/// The entries of one configuration file.
pub open spec fn layer_read(path: Seq<u8>, text: Seq<char>) -> Result<Seq<(Seq<char>, Tree)>, Seq<char>> {
    match toml_read(text) {
        Ok(t) => Ok(t),
        Err(e) => Err(lossy_text(path) + ":\n"@ + e),
    }
}

/// One file as a tree, for merging.
pub fn parse_layer(path: &HostPath, text: &str) -> (r: Result<Vec<(String, Toml)>, Error>)
    ensures
        outcome(r) == layer_read(path.deep_view(), text@),
        r matches Ok(t) ==> ordered_entries(t.deep_view()),
{
    match parse_toml(text) {
        Ok(t) => Ok(t),
        Err(e) => Err(error(cat3(path.display().as_str(), ":\n", e.as_str()))),
    }
}

/// The layers merged: the tree the config is read from, and the part of it that the local
/// layer set.
#[derive(Debug)]
pub struct Merged {
    pub merged: Vec<(String, Toml)>,
    pub local: Option<Vec<(String, Toml)>>,
}

/// The merged tree, and the local layer's part of it.
pub struct MergedView {
    pub merged: Seq<(Seq<char>, Tree)>,
    pub local: Option<Seq<(Seq<char>, Tree)>>,
}

impl DeepView for Merged {
    type V = MergedView;

    open spec fn deep_view(&self) -> MergedView {
        MergedView { merged: self.merged.deep_view(), local: self.local.deep_view() }
    }
}

/// The project's tree without what the first `n` paths name, or what is wrong with the first
/// bad one.
pub open spec fn removed_all(
    t: Seq<(Seq<char>, Tree)>,
    paths: Seq<Seq<char>>,
    at: Seq<char>,
    n: int,
) -> Result<Seq<(Seq<char>, Tree)>, Seq<char>>
    decreases n,
{
    if n <= 0 {
        Ok(t)
    } else {
        match removed_all(t, paths, at, n - 1) {
            Err(e) => Err(e),
            Ok(u) => match path_removed(u, paths[n - 1]) {
                Ok(w) => Ok(w),
                Err(e) => Err(at + ": remove "@ + debug_text(paths[n - 1]) + ": "@ + e),
            },
        }
    }
}

proof fn lemma_removed_kept(t: Seq<(Seq<char>, Tree)>, paths: Seq<Seq<char>>, at: Seq<char>, n: int, m: int)
    requires
        0 <= n <= m,
        removed_all(t, paths, at, n) is Err,
    ensures
        removed_all(t, paths, at, m) == removed_all(t, paths, at, n),
    decreases m - n,
{
    if n < m {
        lemma_removed_kept(t, paths, at, n, m - 1);
    }
}

/// A local layer's entries without its directives, which are not configuration.
pub open spec fn configuration(t: Seq<(Seq<char>, Tree)>) -> Seq<(Seq<char>, Tree)> {
    without(without(t, "remove"@), "env-files"@)
}

/// Where the local layer was read from, as a person reads it.
pub open spec fn local_shown(files: Files) -> Seq<char> {
    match files.local {
        Some(p) => lossy_text(p.deep_view()),
        None => LOCAL_FILE@,
    }
}

/// The layers merged, or why they cannot be: `remove` and `env-files` belong to the local
/// layer alone, and what is removed has to be there.
pub open spec fn layers_merged(
    files: Files,
    project_schema: Schema,
    project: Seq<(Seq<char>, Tree)>,
    local: Option<(Schema, Seq<(Seq<char>, Tree)>)>,
) -> Result<MergedView, Seq<char>> {
    if project_schema.remove@.len() > 0 {
        Err(
            lossy_text(files.config.deep_view()) + ": `remove` belongs in "@ + LOCAL_FILE@
                + ", which is what has something to remove"@,
        )
    } else if project_schema.env_files@.len() > 0 {
        Err(
            lossy_text(files.config.deep_view()) + ": `env-files` belongs in "@ + LOCAL_FILE@
                + ": which files a machine reads is that machine's business"@,
        )
    } else {
        match local {
            None => Ok(MergedView { merged: project, local: None }),
            Some((schema, table)) => match removed_all(
                project,
                schema.remove.deep_view(),
                local_shown(files),
                schema.remove@.len() as int,
            ) {
                Err(e) => Err(e),
                Ok(left) => Ok(
                    MergedView {
                        merged: laid_over(left, configuration(table)),
                        local: Some(configuration(table)),
                    },
                ),
            },
        }
    }
}

proof fn lemma_without_ordered(t: Seq<(Seq<char>, Tree)>, k: Seq<char>)
    requires
        ordered_entries(t),
    ensures
        ordered_entries(without(t, k)),
{
    lemma_without(t, k);
    lemma_place(t, k, 0);
    let at = place_from(t, k, 0);
    let r = without(t, k);
    assert forall|i: int| 0 <= i < r.len() implies ordered((#[trigger] r[i]).1) by {
        let j = if at < t.len() && i >= at {
            i + 1
        } else {
            i
        };
        assert(r[i] == t[j]);
        assert(ordered(t[j].1));
    }
}

proof fn lemma_removed_ordered(t: Seq<(Seq<char>, Tree)>, paths: Seq<Seq<char>>, at: Seq<char>, n: int)
    requires
        ordered_entries(t),
        removed_all(t, paths, at, n) is Ok,
    ensures
        ordered_entries(removed_all(t, paths, at, n)->Ok_0),
    decreases n,
{
    if n > 0 {
        lemma_removed_ordered(t, paths, at, n - 1);
        law_removed_is_gone(removed_all(t, paths, at, n - 1)->Ok_0, path_keys(paths[n - 1])->Ok_0);
    }
}

/// Removing from a config in key order leaves one.
pub proof fn law_removals_in_order(t: Seq<(Seq<char>, Tree)>, paths: Seq<Seq<char>>, at: Seq<char>, n: int)
    requires
        0 <= n <= paths.len(),
        ordered_entries(t),
        removed_all(t, paths, at, n) is Ok,
    ensures
        ordered_entries(removed_all(t, paths, at, n)->Ok_0),
{
    lemma_removed_ordered(t, paths, at, n);
}

/// What a local layer says of the config is in key order where the layer is.
pub proof fn law_configuration_in_order(t: Seq<(Seq<char>, Tree)>)
    requires
        ordered_entries(t),
    ensures
        ordered_entries(configuration(t)),
{
    lemma_without_ordered(t, "remove"@);
    lemma_without_ordered(without(t, "remove"@), "env-files"@);
}

/// Layers in key order merge to a config in key order.
pub proof fn law_merged_in_order(
    files: Files,
    schema: Schema,
    project: Seq<(Seq<char>, Tree)>,
    local: Option<(Schema, Seq<(Seq<char>, Tree)>)>,
)
    requires
        ordered_entries(project),
        local matches Some(l) ==> ordered_entries(l.1),
        layers_merged(files, schema, project, local) is Ok,
    ensures
        ordered_entries(layers_merged(files, schema, project, local)->Ok_0.merged),
{
    if let Some((s, table)) = local {
        let paths = s.remove.deep_view();
        lemma_removed_ordered(project, paths, local_shown(files), s.remove@.len() as int);
        lemma_without_ordered(table, "remove"@);
        lemma_without_ordered(without(table, "remove"@), "env-files"@);
        law_layering_ordered(
            removed_all(project, paths, local_shown(files), s.remove@.len() as int)->Ok_0,
            configuration(table),
        );
    }
}

/// One layer, typed and as a tree.
#[derive(Debug)]
pub struct LayerRead {
    pub schema: Schema,
    pub table: Vec<(String, Toml)>,
}

/// What the typed layer and its tree hold.
pub open spec fn read_parts(l: Option<LayerRead>) -> Option<(Schema, Seq<(Seq<char>, Tree)>)> {
    match l {
        Some(x) => Some((x.schema, x.table.deep_view())),
        None => None,
    }
}

/// Lay the local layer over the project's: first what it removes, then what it sets.
pub fn merge_layers(files: &Files, project: &LayerRead, local: &Option<LayerRead>) -> (r: Result<Merged, Error>)
    ensures
        outcome(r) == layers_merged(*files, project.schema, project.table.deep_view(), read_parts(*local)),
        r is Ok && ordered_entries(project.table.deep_view()) && (local matches Some(l) ==> ordered_entries(
            l.table.deep_view(),
        )) ==> ordered_entries(r->Ok_0.merged.deep_view()),
{
    if project.schema.remove.len() > 0 {
        return Err(
            error(
                cat4(
                    files.config.display().as_str(),
                    ": `remove` belongs in ",
                    LOCAL_FILE,
                    ", which is what has something to remove",
                ),
            ),
        );
    }
    if project.schema.env_files.len() > 0 {
        return Err(
            error(
                cat4(
                    files.config.display().as_str(),
                    ": `env-files` belongs in ",
                    LOCAL_FILE,
                    ": which files a machine reads is that machine's business",
                ),
            ),
        );
    }
    proof {
        let parts = read_parts(*local);
        if ordered_entries(project.table.deep_view()) && (local matches Some(l) ==> ordered_entries(
            l.table.deep_view(),
        )) && layers_merged(*files, project.schema, project.table.deep_view(), parts) is Ok {
            law_merged_in_order(*files, project.schema, project.table.deep_view(), parts);
        }
    }
    let mut merged = copy_table(&project.table);
    match local {
        None => Ok(Merged { merged, local: None }),
        Some(layer) => {
            let at = match &files.local {
                Some(p) => p.display(),
                None => LOCAL_FILE.to_owned(),
            };
            let ghost paths = layer.schema.remove.deep_view();
            let ghost start = merged.deep_view();
            let mut i: usize = 0;
            while i < layer.schema.remove.len()
                invariant
                    i <= layer.schema.remove@.len(),
                    paths == layer.schema.remove.deep_view(),
                    removed_all(start, paths, at@, i as int) == Ok::<Seq<(Seq<char>, Tree)>, Seq<char>>(
                        merged.deep_view(),
                    ),
                    start == project.table.deep_view(),
                    at@ == local_shown(*files),
                    project.schema.remove@.len() == 0,
                    project.schema.env_files@.len() == 0,
                    *local == Some(*layer),
                decreases layer.schema.remove@.len() - i,
            {
                assert(paths[i as int] == layer.schema.remove@[i as int]@);
                let path = layer.schema.remove[i].as_str();
                if let Err(e) = remove_path(&mut merged, path) {
                    proof {
                        lemma_removed_kept(start, paths, at@, i + 1, paths.len() as int);
                    }
                    let heading = cat3(at.as_str(), ": remove ", quoted(path).as_str());
                    return Err(within(heading.as_str(), e));
                }
                i = i + 1;
            }
            let mut table = copy_table(&layer.table);
            let _ = take_out(&mut table, "remove");
            let _ = take_out(&mut table, "env-files");
            merge_tables(&mut merged, &table);
            Ok(Merged { merged, local: Some(table) })
        },
    }
}

/// One configured value and where it came from.
#[derive(Debug)]
pub struct Origin {
    /// the dotted path, quoted where a segment needs it
    pub key: String,
    pub value: Toml,
    pub layer: Layer,
    /// a value the config hands to a command or an image
    pub secret: bool,
}

pub struct OriginView {
    pub key: Seq<char>,
    pub value: Tree,
    pub layer: Layer,
    pub secret: bool,
}

impl DeepView for Origin {
    type V = OriginView;

    open spec fn deep_view(&self) -> OriginView {
        OriginView { key: self.key@, value: self.value.deep_view(), layer: self.layer, secret: self.secret }
    }
}

/// A config read, layered and validated, with its layers kept for attribution.
#[derive(Debug)]
pub struct Loaded {
    pub files: Files,
    pub schema: Schema,
    /// `local.env` and the local layer's `env-files`, later files winning
    pub env_file: Vec<(String, String)>,
    pub layers: Merged,
}

/// A value's origin: the local layer, where it says something at that path.
pub open spec fn origin_of(leaf: (Seq<Seq<char>>, Tree), local: Option<Seq<(Seq<char>, Tree)>>) -> OriginView {
    OriginView {
        key: path_shown(leaf.0),
        value: leaf.1,
        layer: match local {
            Some(l) => if at_path(l, leaf.0) is Some {
                Layer::Local
            } else {
                Layer::Project
            },
            None => Layer::Project,
        },
        secret: is_secret_key(leaf.0),
    }
}

/// Every configured value with its origin, in file order.
pub open spec fn origins_of(m: MergedView) -> Seq<OriginView> {
    let all = leaves_of(m.merged, Seq::empty());
    Seq::new(all.len(), |i: int| origin_of(all[i], m.local))
}

/// The variables in `base` with those in `more` over them.
pub open spec fn extended(
    base: Seq<(Seq<char>, Seq<char>)>,
    more: Seq<(Seq<char>, Seq<char>)>,
    n: int,
) -> Seq<(Seq<char>, Seq<char>)>
    decreases n,
{
    if n <= 0 {
        base
    } else {
        with_entry(extended(base, more, n - 1), more[n - 1].0, more[n - 1].1)
    }
}

/// A file that was to be read: where, and its text or why it could not be read.
#[derive(Debug)]
pub struct FileRead {
    pub path: HostPath,
    pub text: Result<String, String>,
}

/// The variables one env file sets.
pub open spec fn env_file_sets(f: FileRead) -> Result<Seq<(Seq<char>, Seq<char>)>, Seq<char>> {
    match f.text {
        Err(e) => Err("reading "@ + lossy_text(f.path.deep_view()) + ": "@ + e@),
        Ok(t) => match file_sets(Seq::empty(), t@) {
            Ok(m) => Ok(m),
            Err(e) => Err("in "@ + lossy_text(f.path.deep_view()) + ": "@ + e),
        },
    }
}

/// Read `NAME=value` lines as data: no expansion, no command substitution, no sourcing.
pub fn read_env_file(f: &FileRead) -> (r: Result<Vec<(String, String)>, Error>)
    ensures
        outcome(r) == env_file_sets(*f),
{
    match &f.text {
        Err(e) => Err(error(cat4("reading ", f.path.display().as_str(), ": ", e.as_str()))),
        Ok(t) => match parse_env_file(t.as_str()) {
            Ok(m) => Ok(m),
            Err(e) => Err(within(cat2("in ", f.path.display().as_str()).as_str(), e)),
        },
    }
}

/// The variables the first `n` env files set, a later file winning.
pub open spec fn env_files_set(files: Seq<FileRead>, n: int) -> Result<Seq<(Seq<char>, Seq<char>)>, Seq<char>>
    decreases n,
{
    if n <= 0 {
        Ok(Seq::empty())
    } else {
        match env_files_set(files, n - 1) {
            Err(e) => Err(e),
            Ok(m) => match env_file_sets(files[n - 1]) {
                Err(e) => Err(e),
                Ok(more) => Ok(extended(m, more, more.len() as int)),
            },
        }
    }
}

proof fn lemma_env_files_kept(files: Seq<FileRead>, n: int, m: int)
    requires
        0 <= n <= m,
        env_files_set(files, n) is Err,
    ensures
        env_files_set(files, m) == env_files_set(files, n),
    decreases m - n,
{
    if n < m {
        lemma_env_files_kept(files, n, m - 1);
    }
}

fn extend(out: &mut Vec<(String, String)>, more: &Vec<(String, String)>)
    ensures
        final(out).deep_view() == extended(old(out).deep_view(), more.deep_view(), more@.len() as int),
{
    let mut i: usize = 0;
    let ghost base = out.deep_view();
    while i < more.len()
        invariant
            i <= more@.len(),
            out.deep_view() == extended(base, more.deep_view(), i as int),
        decreases more@.len() - i,
    {
        assert(more.deep_view()[i as int] == (more@[i as int].0@, more@[i as int].1@));
        put_entry(out, more[i].0.clone(), more[i].1.clone());
        i = i + 1;
    }
}

fn read_env_files(files: &Vec<FileRead>) -> (r: Result<Vec<(String, String)>, Error>)
    ensures
        outcome(r) == env_files_set(files@, files@.len() as int),
{
    let mut out: Vec<(String, String)> = Vec::new();
    let mut i: usize = 0;
    assert(out.deep_view() =~= Seq::<(Seq<char>, Seq<char>)>::empty());
    while i < files.len()
        invariant
            i <= files@.len(),
            env_files_set(files@, i as int) == Ok::<Seq<(Seq<char>, Seq<char>)>, Seq<char>>(out.deep_view()),
        decreases files@.len() - i,
    {
        match read_env_file(&files[i]) {
            Ok(more) => {
                assert(more@.len() == more.deep_view().len());
                extend(&mut out, &more);
            },
            Err(e) => {
                proof {
                    lemma_env_files_kept(files@, i + 1, files@.len() as int);
                }
                return Err(e);
            },
        }
        i = i + 1;
    }
    Ok(out)
}

proof fn lemma_set_sorted(text: Seq<char>)
    ensures
        file_sets(Seq::empty(), text) matches Ok(m) ==> sorted(m),
{
    let l = lines_of(text);
    if file_sets(Seq::empty(), text) is Ok && l.len() > 0 {
        law_later_line_wins(Seq::empty(), l, l.len() as int);
    }
}

/// An entry behind the others changes nothing under another key.
proof fn lemma_entry_of_push(s: Seq<(Seq<char>, Seq<char>)>, x: (Seq<char>, Seq<char>), k: Seq<char>, from: int)
    requires
        k != x.0,
        0 <= from <= s.len(),
    ensures
        place_from(s.push(x), k, from) == if place_from(s, k, from) < s.len() {
            place_from(s, k, from)
        } else {
            s.len() as int + 1
        },
    decreases s.len() - from,
{
    reveal_with_fuel(place_from, 3);
    if from < s.len() {
        lemma_entry_of_push(s, x, k, from + 1);
    }
}

proof fn lemma_extended(base: Seq<(Seq<char>, Seq<char>)>, more: Seq<(Seq<char>, Seq<char>)>, n: int)
    requires
        sorted(base),
        sorted(more),
        0 <= n <= more.len(),
    ensures
        sorted(extended(base, more, n)),
        forall|k: Seq<char>| #[trigger]
            entry(extended(base, more, n), k) == match entry(more.take(n), k) {
                Some(v) => Some(v),
                None => entry(base, k),
            },
    decreases n,
{
    if n > 0 {
        lemma_extended(base, more, n - 1);
        let had = extended(base, more, n - 1);
        let (key, v) = more[n - 1];
        lemma_with_entry(had, key, v);
        let now = more.take(n);
        let before = more.take(n - 1);
        assert(now =~= before.push(more[n - 1]));
        assert forall|k: Seq<char>| #[trigger]
            entry(extended(base, more, n), k) == match entry(now, k) {
                Some(v) => Some(v),
                None => entry(base, k),
            } by {
            lemma_place(now, k, 0);
            lemma_place(before, k, 0);
            if k == key {
                lemma_entry_at(now, n - 1);
            } else {
                lemma_entry_of_push(before, more[n - 1], k, 0);
            }
        }
    } else {
        assert forall|k: Seq<char>| #[trigger] entry(more.take(0), k) is None by {
            lemma_place(more.take(0), k, 0);
        }
    }
}

/// A later env file wins: a variable has the value that the last file to set it gives it, and a
/// file leaves alone what it does not set.
pub proof fn law_later_file_wins(files: Seq<FileRead>, n: int)
    requires
        0 < n <= files.len(),
        env_files_set(files, n) is Ok,
    ensures
        sorted(env_files_set(files, n)->Ok_0),
        env_files_set(files, n - 1) is Ok,
        env_file_sets(files[n - 1]) is Ok,
        forall|k: Seq<char>| #[trigger]
            entry(env_files_set(files, n)->Ok_0, k) == match entry(env_file_sets(files[n - 1])->Ok_0, k) {
                Some(v) => Some(v),
                None => entry(env_files_set(files, n - 1)->Ok_0, k),
            },
    decreases n,
{
    if n > 1 {
        law_later_file_wins(files, n - 1);
    }
    let more = env_file_sets(files[n - 1])->Ok_0;
    lemma_set_sorted(files[n - 1].text->Ok_0@);
    lemma_extended(env_files_set(files, n - 1)->Ok_0, more, more.len() as int);
    assert(more.take(more.len() as int) =~= more);
}

/// The env files a machine reads: `local.env` where there is one, then those the local layer
/// names, relative to the workspace.
pub open spec fn env_paths(files: Files, named: Seq<Seq<char>>) -> Seq<Seq<u8>> {
    (match files.local_env {
        Some(p) => seq![p.deep_view()],
        None => Seq::empty(),
    }) + Seq::new(named.len(), |i: int| joined_path(files.workspace.deep_view(), encode_utf8(named[i])))
}

/// The env files to read, in the order in which they apply.
pub fn env_file_paths(files: &Files, named: &Vec<String>) -> (r: Vec<HostPath>)
    ensures
        r.deep_view() == env_paths(*files, named.deep_view()),
{
    let mut out: Vec<HostPath> = Vec::new();
    if let Some(p) = &files.local_env {
        put(&mut out, p.copy());
    }
    let ghost start = out.deep_view();
    let ghost rest = Seq::new(
        named.deep_view().len(),
        |i: int| joined_path(files.workspace.deep_view(), encode_utf8(named.deep_view()[i])),
    );
    let mut i: usize = 0;
    assert(start =~= start + rest.take(0));
    while i < named.len()
        invariant
            i <= named@.len(),
            rest == Seq::new(
                named.deep_view().len(),
                |i: int| joined_path(files.workspace.deep_view(), encode_utf8(named.deep_view()[i])),
            ),
            out.deep_view() == start + rest.take(i as int),
        decreases named@.len() - i,
    {
        assert(named.deep_view()[i as int] == named@[i as int]@);
        put(&mut out, files.workspace.join_text(named[i].as_str()));
        assert(out.deep_view() =~= start + rest.take(i + 1));
        i = i + 1;
    }
    assert(rest.take(i as int) =~= rest);
    assert(out.deep_view() =~= env_paths(*files, named.deep_view()));
    out
}

/// What a config that does not load says: what it has wrong with it, then which env file.
pub open spec fn load_error(files: Files, schema: Schema, env: Seq<FileRead>, known: Known) -> Option<Seq<char>> {
    match headed("in "@ + lossy_text(files.config.deep_view()), schema_error(schema, known)) {
        Some(e) => Some(e),
        None => match env_files_set(env, env.len() as int) {
            Err(e) => Some(e),
            Ok(_) => None,
        },
    }
}

/// Validate the merged config and read the env files that go with it.
pub fn load(files: Files, layers: Merged, schema: Schema, env: &Vec<FileRead>, known: &Known) -> (r: Result<
    Loaded,
    Error,
>)
    ensures
        match r {
            Ok(l) => {
                &&& load_error(files, schema, env@, *known) is None
                &&& l.files == files
                &&& l.schema == schema
                &&& l.layers == layers
                &&& env_files_set(env@, env@.len() as int) == Ok::<Seq<(Seq<char>, Seq<char>)>, Seq<char>>(
                    l.env_file.deep_view(),
                )
            },
            Err(e) => load_error(files, schema, env@, *known) == Some(e.deep_view()),
        },
{
    if let Err(e) = schema.validate(known) {
        return Err(within(cat2("in ", files.config.display().as_str()).as_str(), e));
    }
    let env_file = read_env_files(env)?;
    Ok(Loaded { files, schema, env_file, layers })
}

/// The place of the named environment, or the length.
pub open spec fn named_at(s: Seq<(String, Environment)>, name: Seq<char>, from: int) -> int
    decreases s.len() - from,
{
    if from < 0 || from >= s.len() {
        s.len() as int
    } else if s[from].0@ == name {
        from
    } else {
        named_at(s, name, from + 1)
    }
}

/// The names there are: `dev`, and those under `[environments]`.
pub open spec fn environment_names(s: Seq<(String, Environment)>) -> Seq<Seq<char>> {
    Seq::new(
        s.len() + 1,
        |i: int|
            if i == 0 {
                "dev"@
            } else {
                s[i - 1].0@
            },
    )
}

/// The environment a name selects: `dev`, or one under `[environments]`.
pub open spec fn selected(l: Loaded, name: Seq<char>) -> Result<Environment, Seq<char>> {
    let s = l.schema.environments@;
    if name == "dev"@ {
        match l.schema.dev {
            Some(e) => Ok(e),
            None => Err("config.toml has no [dev] table"@),
        }
    } else {
        let i = named_at(s, name, 0);
        if i < s.len() {
            Ok(s[i].1)
        } else {
            Err(
                "no [environments."@ + name + "] in "@ + lossy_text(l.files.config.deep_view()) + " (there is "@
                    + joined(environment_names(s), ", "@) + ")"@,
            )
        }
    }
}

/// The paragraphs on the first `n` named environments.
pub open spec fn paragraphs(s: Seq<(String, Environment)>, n: int) -> Seq<char>
    decreases n,
{
    if n <= 0 {
        Seq::empty()
    } else {
        paragraphs(s, n - 1) + ("\n["@ + s[n - 1].0@ + "]\n"@ + description(s[n - 1].1))
    }
}

/// What the files describe, one environment per paragraph.
pub open spec fn report(l: Loaded) -> Seq<char> {
    lossy_text(l.files.config.deep_view()) + ": ok\n"@ + (match l.files.local {
        Some(p) => "  with "@ + lossy_text(p.deep_view()) + "\n"@,
        None => Seq::empty(),
    }) + (if l.env_file@.len() > 0 {
        "  "@ + decimal(l.env_file@.len()) + " local value(s) for ${localEnv:…}\n"@
    } else {
        Seq::empty()
    }) + (match l.schema.requires.min_version {
        Some(v) => "  requires vk "@ + v@ + "\n"@,
        None => Seq::empty(),
    }) + (if l.schema.requires.features@.len() > 0 {
        "  requires features "@ + joined(l.schema.requires.features.deep_view(), ", "@) + "\n"@
    } else {
        Seq::empty()
    }) + (match l.schema.dev {
        Some(e) => "\n["@ + "dev"@ + "]\n"@ + description(e),
        None => Seq::empty(),
    }) + paragraphs(l.schema.environments@, l.schema.environments@.len() as int)
}

impl Loaded {
    /// Every configured value with the layer that last set it, the local layer winning where
    /// both speak.
    pub fn origins(&self) -> (r: Vec<Origin>)
        ensures
            r.deep_view() == origins_of(self.layers.deep_view()),
    {
        let root: Vec<String> = Vec::new();
        let mut found: Vec<(Vec<String>, Toml)> = Vec::new();
        leaves(&self.layers.merged, &root, &mut found);
        assert(root.deep_view() =~= Seq::<Seq<char>>::empty());
        let ghost all = leaves_of(self.layers.merged.deep_view(), Seq::empty());
        assert(found.deep_view() =~= all);
        let ghost m = self.layers.deep_view();
        let mut out: Vec<Origin> = Vec::new();
        let mut i: usize = 0;
        while i < found.len()
            invariant
                i <= found@.len(),
                found.deep_view() == all,
                m == self.layers.deep_view(),
                all == leaves_of(m.merged, Seq::empty()),
                out.deep_view() == origins_of(m).take(i as int),
            decreases found@.len() - i,
        {
            let (keys, value) = &found[i];
            assert(all[i as int] == (keys.deep_view(), value.deep_view()));
            let layer = match &self.layers.local {
                Some(local) => if lookup(local, keys) {
                    Layer::Local
                } else {
                    Layer::Project
                },
                None => Layer::Project,
            };
            put(
                &mut out,
                Origin { key: join_path(keys), value: copy_toml(value), layer, secret: secret_key(keys) },
            );
            assert(out.deep_view() =~= origins_of(m).take(i + 1));
            i = i + 1;
        }
        assert(out.deep_view() =~= origins_of(m));
        out
    }

    /// The environment `name` selects: `dev`, or one under `[environments]`.
    pub fn environment(&self, name: &str) -> (r: Result<&Environment, Error>)
        ensures
            match r {
                Ok(e) => selected(*self, name@) == Ok::<Environment, Seq<char>>(*e),
                Err(e) => selected(*self, name@) == Err::<Environment, Seq<char>>(e.deep_view()),
            },
    {
        if same(name, "dev") {
            return match &self.schema.dev {
                Some(e) => Ok(e),
                None => Err(error("config.toml has no [dev] table".to_owned())),
            };
        }
        let s = &self.schema.environments;
        let mut known: Vec<String> = Vec::new();
        put(&mut known, "dev".to_owned());
        let ghost names = environment_names(s@);
        let mut i: usize = 0;
        assert(known.deep_view() =~= names.take(1));
        while i < s.len()
            invariant
                i <= s@.len(),
                s@ == self.schema.environments@,
                name@ != "dev"@,
                names == environment_names(s@),
                known.deep_view() == names.take(i + 1),
                named_at(s@, name@, i as int) == named_at(s@, name@, 0),
            decreases s@.len() - i,
        {
            if same(s[i].0.as_str(), name) {
                return Ok(&s[i].1);
            }
            put(&mut known, s[i].0.clone());
            assert(known.deep_view() =~= names.take(i + 2));
            i = i + 1;
        }
        assert(known.deep_view() =~= names);
        let head = cat4("no [environments.", name, "] in ", self.files.config.display().as_str());
        Err(error(cat4(head.as_str(), " (there is ", join(&known, ", ").as_str(), ")")))
    }

    /// What the files describe, one environment per paragraph.
    pub fn describe(&self) -> (r: String)
        ensures
            r@ == report(*self),
    {
        let ghost none = Seq::<char>::empty();
        let mut out = cat2(self.files.config.display().as_str(), ": ok\n");
        let local = match &self.files.local {
            Some(p) => cat3("  with ", p.display().as_str(), "\n"),
            None => String::new(),
        };
        out.append(local.as_str());
        let values = if self.env_file.len() > 0 {
            cat3("  ", to_decimal(self.env_file.len() as u64).as_str(), " local value(s) for ${localEnv:…}\n")
        } else {
            String::new()
        };
        out.append(values.as_str());
        let version = match &self.schema.requires.min_version {
            Some(v) => cat3("  requires vk ", v.as_str(), "\n"),
            None => String::new(),
        };
        out.append(version.as_str());
        let features = if self.schema.requires.features.len() > 0 {
            cat3("  requires features ", join(&self.schema.requires.features, ", ").as_str(), "\n")
        } else {
            String::new()
        };
        out.append(features.as_str());
        let dev = match &self.schema.dev {
            Some(e) => cat4("\n[", "dev", "]\n", e.describe().as_str()),
            None => String::new(),
        };
        out.append(dev.as_str());
        let s = &self.schema.environments;
        let mut rest = String::new();
        let mut i: usize = 0;
        while i < s.len()
            invariant
                i <= s@.len(),
                rest@ == paragraphs(s@, i as int),
            decreases s@.len() - i,
        {
            let p = cat4("\n[", s[i].0.as_str(), "]\n", s[i].1.describe().as_str());
            rest.append(p.as_str());
            i = i + 1;
        }
        out.append(rest.as_str());
        out
    }
}

/// A value the local layer sets is attributed to it, and one it says nothing on to the project.
pub proof fn law_origin_layer(m: MergedView, i: int)
    requires
        0 <= i < origins_of(m).len(),
    ensures
        ({
            let leaf = leaves_of(m.merged, Seq::empty())[i];
            let o = origins_of(m)[i];
            &&& o.value == leaf.1
            &&& o.layer == Layer::Local <==> (m.local is Some && at_path(m.local->0, leaf.0) is Some)
        }),
{
}

} // verus!
