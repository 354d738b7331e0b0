//! Drafting a config: the file being written, and the report of how it came to be.

use crate::config::{CONFIG_FILE, MIN_VERSION, SCHEMA};
use crate::layers::{join_path, key_shown, path_shown, quote_key};
use crate::path::{joined_path, HostPath};
use crate::text::{cat2, cat3, cat4, cat5, debug_text, lines, lines_of, put, quoted, same};
use crate::value::{fit, group_value, lemma_fit, toml_shown, toml_text, Toml, Tree};
use vstd::prelude::*;
use vstd::utf8::encode_utf8;

verus! {

broadcast use group_value;

/// The line by which an editor finds the schema of a config.
pub const DIRECTIVE: &'static str = "#:schema config.schema.json";

/// The commented config that is written when the project has nothing to import.
pub const TEMPLATE: &'static str = "#:schema config.schema.json
# The development environment `vk dev` boots. Paths are relative to this project's root.
# See `vk dev --help`; every key here is checked, and an unknown one is an error.
schema = 1

[requires]
# The oldest vk release that implements everything this file uses.
# min-version = \"0.64.0\"
features = []

[dev]
# Exactly one source: a compose service, an image, or a Dockerfile target.
image = \"docker.io/library/debian:13\"
# compose = \".virtkit/compose.yaml\"
# service = \"devcontainer\"
# build = { context = \".\", dockerfile = \"Dockerfile\", target = \"dev\" }

# Where the checkout is mounted in the guest, and who sessions run as.
workspace = \"/workdir\"
# user = \"dev\"

# When the running environment no longer matches this file:
# ask | reuse | refresh | require-current
freshness = \"ask\"

# Guest sizing. Unset inherits the compose service's x-virtkit, then vk's defaults.
# cpus = \"host\"
# mem = \"8G\"

# Environment for exec, shell, SSH and editor sessions.
[dev.exec-env]

# Host paths in the guest, by name. `~`, `${HOME}`, `${workspace}`, `${state}`,
# `${VK_UID}`, `${VK_GID}` and `${localEnv:NAME}` (or `${localEnv:NAME:default}`)
# are expanded.
# [dev.mounts.gitconfig]
# source = \"~/.gitconfig\"
# to = \"/home/dev/.gitconfig\"
# read-only = true
# optional = true

# Guest ports published on the host, by name.
# [dev.endpoints.web]
# target = 8080
";

/// How one piece of an imported source fared.
#[derive(Debug, Clone, Copy, PartialEq, Eq, Structural)]
pub enum Fate {
    /// carried into the draft
    Translated,
    /// needs a person: the draft says what, and an `essential` one leaves it unusable
    Action { essential: bool },
    /// nothing to carry, and nothing lost
    Omitted,
}

/// One line of a conversion report.
#[derive(Debug)]
pub struct Item {
    pub fate: Fate,
    /// the source key, as the source spells it
    pub key: String,
    pub note: String,
}

pub struct ItemView {
    pub fate: Fate,
    pub key: Seq<char>,
    pub note: Seq<char>,
}

impl DeepView for Item {
    type V = ItemView;

    open spec fn deep_view(&self) -> ItemView {
        ItemView { fate: self.fate, key: self.key@, note: self.note@ }
    }
}

/// One line or more of a section.
#[derive(Debug)]
pub enum Entry {
    Value(String, Toml),
    /// `# key = …`: a line for the reader to finish
    Commented(String, String),
    Comment(String),
}

pub enum EntryView {
    Value(Seq<char>, Tree),
    Commented(Seq<char>, Seq<char>),
    Comment(Seq<char>),
}

impl DeepView for Entry {
    type V = EntryView;

    open spec fn deep_view(&self) -> EntryView {
        match *self {
            Entry::Value(k, v) => EntryView::Value(k@, v.deep_view()),
            Entry::Commented(k, t) => EntryView::Commented(k@, t@),
            Entry::Comment(t) => EntryView::Comment(t@),
        }
    }
}

#[derive(Debug)]
pub struct Section {
    /// `["dev", "mounts", "gitconfig"]`
    pub path: Vec<String>,
    pub entries: Vec<Entry>,
}

pub struct SectionView {
    pub path: Seq<Seq<char>>,
    pub entries: Seq<EntryView>,
}

impl DeepView for Section {
    type V = SectionView;

    open spec fn deep_view(&self) -> SectionView {
        SectionView { path: self.path.deep_view(), entries: self.entries.deep_view() }
    }
}

/// A config being written: sections of keys, each a value or a commented-out line for a choice
/// the writer could not make, plus the report of how it came to be. It reads in the order in
/// which things were added.
#[derive(Debug)]
pub struct Draft {
    pub header: Vec<String>,
    /// what stands before the first `[table]`
    pub root: Vec<Entry>,
    pub sections: Vec<Section>,
    pub items: Vec<Item>,
}

pub struct DraftView {
    pub header: Seq<Seq<char>>,
    pub root: Seq<EntryView>,
    pub sections: Seq<SectionView>,
    pub items: Seq<ItemView>,
}

impl DeepView for Draft {
    type V = DraftView;

    open spec fn deep_view(&self) -> DraftView {
        DraftView {
            header: self.header.deep_view(),
            root: self.root.deep_view(),
            sections: self.sections.deep_view(),
            items: self.items.deep_view(),
        }
    }
}

pub open spec fn entries_fit(e: Seq<EntryView>) -> bool {
    forall|i: int| 0 <= i < e.len() ==> (#[trigger] e[i] matches EntryView::Value(_, v) ==> fit(v))
}

impl DraftView {
    /// A draft with nothing in it.
    pub open spec fn empty() -> DraftView {
        DraftView { header: Seq::empty(), root: Seq::empty(), sections: Seq::empty(), items: Seq::empty() }
    }

    /// Every value set can be written out.
    pub open spec fn wf(self) -> bool {
        &&& entries_fit(self.root)
        &&& forall|i: int| 0 <= i < self.sections.len() ==> entries_fit((#[trigger] self.sections[i]).entries)
    }

    /// With a line more in the comment block at the top of the file.
    pub open spec fn header(self, line: Seq<char>) -> DraftView {
        DraftView { header: self.header.push(line), ..self }
    }

    /// With the table at `path` begun, unless it is the one begun last.
    pub open spec fn section(self, path: Seq<Seq<char>>) -> DraftView {
        if self.sections.len() > 0 && self.sections.last().path == path {
            self
        } else {
            DraftView { sections: self.sections.push(SectionView { path, entries: Seq::empty() }), ..self }
        }
    }

    /// With an entry more: in the section last begun, or at the top of the file.
    pub open spec fn entry(self, e: EntryView) -> DraftView {
        if self.sections.len() > 0 {
            let last = self.sections.last();
            DraftView {
                sections: self.sections.drop_last().push(
                    SectionView { path: last.path, entries: last.entries.push(e) },
                ),
                ..self
            }
        } else {
            DraftView { root: self.root.push(e), ..self }
        }
    }

    pub open spec fn set(self, k: Seq<char>, v: Tree) -> DraftView {
        self.entry(EntryView::Value(k, v))
    }

    /// With a text set.
    pub open spec fn put(self, k: Seq<char>, v: Seq<char>) -> DraftView {
        self.set(k, Tree::Text(v))
    }

    pub open spec fn commented(self, k: Seq<char>, t: Seq<char>) -> DraftView {
        self.entry(EntryView::Commented(k, t))
    }

    pub open spec fn comment(self, t: Seq<char>) -> DraftView {
        self.entry(EntryView::Comment(t))
    }

    pub open spec fn note(self, fate: Fate, key: Seq<char>, note: Seq<char>) -> DraftView {
        DraftView { items: self.items.push(ItemView { fate, key, note }), ..self }
    }

    pub open spec fn translated(self, key: Seq<char>, note: Seq<char>) -> DraftView {
        self.note(Fate::Translated, key, note)
    }

    pub open spec fn action(self, key: Seq<char>, note: Seq<char>) -> DraftView {
        self.note(Fate::Action { essential: false }, key, note)
    }

    /// With something noted without which the draft cannot describe the environment.
    pub open spec fn essential(self, key: Seq<char>, note: Seq<char>) -> DraftView {
        self.note(Fate::Action { essential: true }, key, note)
    }

    pub open spec fn omitted(self, key: Seq<char>, note: Seq<char>) -> DraftView {
        self.note(Fate::Omitted, key, note)
    }

    /// Something essential is missing.
    pub open spec fn needs_work(self) -> bool {
        exists|i: int| 0 <= i < self.items.len() && (#[trigger] self.items[i]).fate == Fate::Action { essential: true }
    }

    /// The opening every import writes.
    pub open spec fn preamble(self, from: Seq<char>) -> DraftView {
        self.header(
            "Written by `vk dev init` from "@ + from + ". Paths are relative to the project root."@,
        ).set("schema"@, Tree::Integer(SCHEMA)).section(seq!["requires"@]).comment(
            "The oldest vk release that implements everything this file uses."@,
        ).commented("min-version"@, debug_text(MIN_VERSION@)).set("features"@, Tree::Array(Seq::empty())).section(
            seq!["dev"@],
        )
    }
}

/// What the first `n` lines of a comment are written as.
pub open spec fn comment_lines(l: Seq<Seq<char>>, n: int) -> Seq<char>
    decreases n,
{
    if n <= 0 {
        Seq::empty()
    } else {
        comment_lines(l, n - 1) + ("# "@ + l[n - 1] + "\n"@)
    }
}

/// What one entry is written as.
pub open spec fn entry_shown(e: EntryView) -> Seq<char> {
    match e {
        EntryView::Value(k, v) => key_shown(k) + " = "@ + toml_shown(v)->0 + "\n"@,
        EntryView::Commented(k, t) => "# "@ + key_shown(k) + " = "@ + t + "\n"@,
        EntryView::Comment(t) => comment_lines(lines_of(t), lines_of(t).len() as int),
    }
}

/// What the first `n` entries are written as.
pub open spec fn entries_shown(e: Seq<EntryView>, n: int) -> Seq<char>
    decreases n,
{
    if n <= 0 {
        Seq::empty()
    } else {
        entries_shown(e, n - 1) + entry_shown(e[n - 1])
    }
}

/// What the first `n` sections are written as.
pub open spec fn sections_shown(s: Seq<SectionView>, n: int) -> Seq<char>
    decreases n,
{
    if n <= 0 {
        Seq::empty()
    } else {
        sections_shown(s, n - 1) + ("\n["@ + path_shown(s[n - 1].path) + "]\n"@ + entries_shown(
            s[n - 1].entries,
            s[n - 1].entries.len() as int,
        ))
    }
}

/// The file: the directive, the header, what stands before the first table, the tables.
pub open spec fn draft_shown(d: DraftView) -> Seq<char> {
    DIRECTIVE@ + "\n"@ + comment_lines(d.header, d.header.len() as int) + (if d.header.len() > 0 {
        "\n"@
    } else {
        Seq::empty()
    }) + entries_shown(d.root, d.root.len() as int) + sections_shown(d.sections, d.sections.len() as int)
}

/// The report's lines on the first `n` items that fared so.
pub open spec fn items_shown(items: Seq<ItemView>, fate: Fate, n: int) -> Seq<char>
    decreases n,
{
    if n <= 0 {
        Seq::empty()
    } else if items[n - 1].fate != fate {
        items_shown(items, fate, n - 1)
    } else if items[n - 1].note.len() == 0 {
        items_shown(items, fate, n - 1) + ("  "@ + items[n - 1].key + "\n"@)
    } else {
        items_shown(items, fate, n - 1) + ("  "@ + items[n - 1].key + ": "@ + items[n - 1].note + "\n"@)
    }
}

/// Something fared so.
pub open spec fn any_fared(items: Seq<ItemView>, fate: Fate) -> bool {
    exists|i: int| 0 <= i < items.len() && (#[trigger] items[i]).fate == fate
}

/// One part of the report: its title and its lines, where it has any.
pub open spec fn part_shown(items: Seq<ItemView>, fate: Fate, title: Seq<char>) -> Seq<char> {
    if any_fared(items, fate) {
        title + ":\n"@ + items_shown(items, fate, items.len() as int)
    } else {
        Seq::empty()
    }
}

/// The report: what was carried over, what needs a person, what was left out.
pub open spec fn report_shown(items: Seq<ItemView>) -> Seq<char> {
    part_shown(items, Fate::Translated, "translated"@) + part_shown(
        items,
        Fate::Action { essential: true },
        "requires action before the environment can start"@,
    ) + part_shown(items, Fate::Action { essential: false }, "requires action"@) + part_shown(
        items,
        Fate::Omitted,
        "omitted"@,
    )
}

fn write_comment(l: &Vec<String>) -> (r: String)
    ensures
        r@ == comment_lines(l.deep_view(), l@.len() as int),
{
    let mut out = String::new();
    let mut i: usize = 0;
    while i < l.len()
        invariant
            i <= l@.len(),
            out@ == comment_lines(l.deep_view(), i as int),
        decreases l@.len() - i,
    {
        assert(l.deep_view()[i as int] == l@[i as int]@);
        let line = cat3("# ", l[i].as_str(), "\n");
        out.append(line.as_str());
        i = i + 1;
    }
    out
}

fn render_entry(e: &Entry) -> (r: String)
    requires
        e.deep_view() matches EntryView::Value(_, v) ==> fit(v),
    ensures
        r@ == entry_shown(e.deep_view()),
{
    match e {
        Entry::Value(k, v) => {
            proof {
                lemma_fit(v.deep_view());
            }
            match toml_text(v) {
                Some(t) => cat4(quote_key(k.as_str()).as_str(), " = ", t.as_str(), "\n"),
                None => String::new(),
            }
        },
        Entry::Commented(k, t) => cat5("# ", quote_key(k.as_str()).as_str(), " = ", t.as_str(), "\n"),
        Entry::Comment(t) => {
            let l = lines(t.as_str());
            assert(l@.len() == l.deep_view().len());
            write_comment(&l)
        },
    }
}

/// The entries as they are written.
pub fn render_entries(entries: &Vec<Entry>) -> (r: String)
    requires
        entries_fit(entries.deep_view()),
    ensures
        r@ == entries_shown(entries.deep_view(), entries@.len() as int),
{
    let mut out = String::new();
    let mut i: usize = 0;
    let ghost s = entries.deep_view();
    while i < entries.len()
        invariant
            i <= entries@.len(),
            s == entries.deep_view(),
            entries_fit(s),
            out@ == entries_shown(s, i as int),
        decreases entries@.len() - i,
    {
        assert(s[i as int] == entries@[i as int].deep_view());
        let e = render_entry(&entries[i]);
        out.append(e.as_str());
        i = i + 1;
    }
    out
}

fn same_list(a: &Vec<String>, b: &Vec<String>) -> (r: bool)
    ensures
        r == (a.deep_view() == b.deep_view()),
{
    assert(a@.len() == a.deep_view().len() && b@.len() == b.deep_view().len());
    if a.len() != b.len() {
        return false;
    }
    let mut i: usize = 0;
    while i < a.len()
        invariant
            i <= a@.len(),
            a@.len() == b@.len(),
            forall|j: int| 0 <= j < i ==> a@[j]@ == b@[j]@,
        decreases a@.len() - i,
    {
        if !same(a[i].as_str(), b[i].as_str()) {
            assert(a.deep_view()[i as int] != b.deep_view()[i as int]);
            return false;
        }
        i = i + 1;
    }
    assert(a.deep_view() =~= b.deep_view());
    true
}

impl Draft {
    /// A draft with nothing in it.
    pub fn new() -> (r: Draft)
        ensures
            r.deep_view() == DraftView::empty(),
            r.deep_view().wf(),
    {
        let r = Draft { header: Vec::new(), root: Vec::new(), sections: Vec::new(), items: Vec::new() };
        assert(r.header.deep_view() =~= Seq::<Seq<char>>::empty());
        assert(r.root.deep_view() =~= Seq::<EntryView>::empty());
        assert(r.sections.deep_view() =~= Seq::<SectionView>::empty());
        assert(r.items.deep_view() =~= Seq::<ItemView>::empty());
        r
    }

    /// A line for the comment block at the top of the file.
    pub fn header(&mut self, line: String)
        ensures
            final(self).deep_view() == old(self).deep_view().header(line@),
            old(self).deep_view().wf() ==> final(self).deep_view().wf(),
    {
        put(&mut self.header, line);
        proof {
            lemma_same_wf(old(self).deep_view(), self.deep_view());
        }
    }

    /// Start (or continue) the table at `path`; entries go there until the next call.
    pub fn section(&mut self, path: Vec<String>)
        ensures
            final(self).deep_view() == old(self).deep_view().section(path.deep_view()),
            old(self).deep_view().wf() ==> final(self).deep_view().wf(),
    {
        let n: usize = self.sections.len();
        assert(n == self.sections.deep_view().len());
        proof {
            if self.deep_view().wf() {
                lemma_section_wf(self.deep_view(), path.deep_view());
            }
        }
        if n > 0 {
            assert(self.sections.deep_view().last() == self.sections@[n - 1].deep_view());
            if same_list(&self.sections[n - 1].path, &path) {
                return;
            }
        }
        let s = Section { path, entries: Vec::new() };
        assert(s.entries.deep_view() =~= Seq::<EntryView>::empty());
        put(&mut self.sections, s);
    }

    /// Where the next entry goes: the section last opened, or the top of the file.
    fn entry(&mut self, e: Entry)
        ensures
            final(self).deep_view() == old(self).deep_view().entry(e.deep_view()),
            (old(self).deep_view().wf() && (e.deep_view() matches EntryView::Value(_, v) ==> fit(v)))
                ==> final(self).deep_view().wf(),
    {
        let ghost had = self.sections.deep_view();
        assert(had.len() == self.sections@.len());
        proof {
            if self.deep_view().wf() && (e.deep_view() matches EntryView::Value(_, v) ==> fit(v)) {
                lemma_entry_wf(self.deep_view(), e.deep_view());
            }
        }
        match self.sections.pop() {
            Some(mut s) => {
                assert(had.last() == s.deep_view());
                assert(self.sections.deep_view() =~= had.drop_last());
                put(&mut s.entries, e);
                put(&mut self.sections, s);
            },
            None => {
                assert(self.sections.deep_view() =~= had);
                put(&mut self.root, e);
            },
        }
    }

    pub fn set(&mut self, key: &str, value: Toml)
        ensures
            final(self).deep_view() == old(self).deep_view().set(key@, value.deep_view()),
            old(self).deep_view().wf() && fit(value.deep_view()) ==> final(self).deep_view().wf(),
    {
        self.entry(Entry::Value(key.to_owned(), value));
    }

    /// Set a text.
    pub fn put(&mut self, key: &str, value: &str)
        ensures
            final(self).deep_view() == old(self).deep_view().put(key@, value@),
            old(self).deep_view().wf() ==> final(self).deep_view().wf(),
    {
        self.set(key, Toml::Text(value.to_owned()));
    }

    /// `# key = text`, for a value the reader must supply.
    pub fn commented(&mut self, key: &str, text: &str)
        ensures
            final(self).deep_view() == old(self).deep_view().commented(key@, text@),
            old(self).deep_view().wf() ==> final(self).deep_view().wf(),
    {
        self.entry(Entry::Commented(key.to_owned(), text.to_owned()));
    }

    pub fn comment(&mut self, text: &str)
        ensures
            final(self).deep_view() == old(self).deep_view().comment(text@),
            old(self).deep_view().wf() ==> final(self).deep_view().wf(),
    {
        self.entry(Entry::Comment(text.to_owned()));
    }

    pub fn translated(&mut self, key: &str, note: &str)
        ensures
            final(self).deep_view() == old(self).deep_view().translated(key@, note@),
            old(self).deep_view().wf() ==> final(self).deep_view().wf(),
    {
        self.note(Fate::Translated, key, note);
    }

    pub fn action(&mut self, key: &str, note: &str)
        ensures
            final(self).deep_view() == old(self).deep_view().action(key@, note@),
            old(self).deep_view().wf() ==> final(self).deep_view().wf(),
    {
        self.note(Fate::Action { essential: false }, key, note);
    }

    /// Something without which the draft cannot describe the environment.
    pub fn essential(&mut self, key: &str, note: &str)
        ensures
            final(self).deep_view() == old(self).deep_view().essential(key@, note@),
            old(self).deep_view().wf() ==> final(self).deep_view().wf(),
    {
        self.note(Fate::Action { essential: true }, key, note);
    }

    pub fn omitted(&mut self, key: &str, note: &str)
        ensures
            final(self).deep_view() == old(self).deep_view().omitted(key@, note@),
            old(self).deep_view().wf() ==> final(self).deep_view().wf(),
    {
        self.note(Fate::Omitted, key, note);
    }

    fn note(&mut self, fate: Fate, key: &str, note: &str)
        ensures
            final(self).deep_view() == old(self).deep_view().note(fate, key@, note@),
            old(self).deep_view().wf() ==> final(self).deep_view().wf(),
    {
        put(&mut self.items, Item { fate, key: key.to_owned(), note: note.to_owned() });
        proof {
            lemma_same_wf(old(self).deep_view(), self.deep_view());
        }
    }

    /// Whether anything essential is missing.
    pub fn needs_work(&self) -> (r: bool)
        ensures
            r == self.deep_view().needs_work(),
    {
        self.any(Fate::Action { essential: true })
    }

    fn any(&self, fate: Fate) -> (r: bool)
        ensures
            r == any_fared(self.deep_view().items, fate),
    {
        let ghost all = self.items.deep_view();
        let mut i: usize = 0;
        while i < self.items.len()
            invariant
                i <= self.items@.len(),
                all == self.items.deep_view(),
                forall|j: int| 0 <= j < i ==> (#[trigger] all[j]).fate != fate,
            decreases self.items@.len() - i,
        {
            assert(all[i as int].fate == self.items@[i as int].fate);
            if self.items[i].fate == fate {
                return true;
            }
            i = i + 1;
        }
        false
    }

    /// The opening every import writes: where the draft came from, the schema version and the
    /// `[requires]` table, with the environment's own section open after it.
    pub fn preamble(&mut self, from: &str)
        ensures
            final(self).deep_view() == old(self).deep_view().preamble(from@),
            old(self).deep_view().wf() ==> final(self).deep_view().wf(),
    {
        self.header(
            cat3("Written by `vk dev init` from ", from, ". Paths are relative to the project root."),
        );
        self.set("schema", Toml::Integer(SCHEMA));
        self.section(one("requires"));
        self.comment("The oldest vk release that implements everything this file uses.");
        self.commented("min-version", quoted(MIN_VERSION).as_str());
        let none: Vec<Toml> = Vec::new();
        assert(none.deep_view() =~= Seq::<Tree>::empty());
        self.set("features", Toml::Array(none));
        self.section(one("dev"));
    }

    /// The file, with the schema directive editors read on its first line.
    pub fn render(&self) -> (r: String)
        requires
            self.deep_view().wf(),
        ensures
            r@ == draft_shown(self.deep_view()),
    {
        let ghost d = self.deep_view();
        assert(d.header.len() == self.header@.len() && d.root.len() == self.root@.len());
        assert(d.sections.len() == self.sections@.len());
        let mut out = cat2(DIRECTIVE, "\n");
        out.append(write_comment(&self.header).as_str());
        let gap = if self.header.len() > 0 {
            "\n".to_owned()
        } else {
            String::new()
        };
        out.append(gap.as_str());
        out.append(render_entries(&self.root).as_str());
        let mut rest = String::new();
        let mut i: usize = 0;
        while i < self.sections.len()
            invariant
                i <= self.sections@.len(),
                d == self.deep_view(),
                d.wf(),
                rest@ == sections_shown(d.sections, i as int),
            decreases self.sections@.len() - i,
        {
            let s = &self.sections[i];
            assert(d.sections[i as int] == s.deep_view());
            assert(s.entries@.len() == s.entries.deep_view().len());
            let text = cat4("\n[", join_path(&s.path).as_str(), "]\n", render_entries(&s.entries).as_str());
            rest.append(text.as_str());
            i = i + 1;
        }
        out.append(rest.as_str());
        out
    }

    fn report_part(&self, fate: Fate, title: &str) -> (r: String)
        ensures
            r@ == part_shown(self.deep_view().items, fate, title@),
    {
        if !self.any(fate) {
            return String::new();
        }
        let ghost all = self.items.deep_view();
        let mut out = String::new();
        let mut i: usize = 0;
        while i < self.items.len()
            invariant
                i <= self.items@.len(),
                all == self.items.deep_view(),
                out@ == items_shown(all, fate, i as int),
            decreases self.items@.len() - i,
        {
            let item = &self.items[i];
            assert(all[i as int] == item.deep_view());
            if item.fate == fate {
                let line = if item.note.as_str().is_empty() {
                    cat3("  ", item.key.as_str(), "\n")
                } else {
                    cat5("  ", item.key.as_str(), ": ", item.note.as_str(), "\n")
                };
                out.append(line.as_str());
            }
            i = i + 1;
        }
        cat3(title, ":\n", out.as_str())
    }

    /// The report: what was carried over, what needs a person, what was left out.
    pub fn report(&self) -> (r: String)
        ensures
            r@ == report_shown(self.deep_view().items),
    {
        let a = self.report_part(Fate::Translated, "translated");
        let b = self.report_part(
            Fate::Action { essential: true },
            "requires action before the environment can start",
        );
        let c = self.report_part(Fate::Action { essential: false }, "requires action");
        let d = self.report_part(Fate::Omitted, "omitted");
        cat4(a.as_str(), b.as_str(), c.as_str(), d.as_str())
    }
}

/// A path of one key.
pub fn one(a: &str) -> (r: Vec<String>)
    ensures
        r.deep_view() == seq![a@],
{
    let mut r: Vec<String> = Vec::new();
    put(&mut r, a.to_owned());
    assert(r.deep_view() =~= seq![a@]);
    r
}

/// A path of two keys.
pub fn two(a: &str, b: &str) -> (r: Vec<String>)
    ensures
        r.deep_view() == seq![a@, b@],
{
    let mut r = one(a);
    put(&mut r, b.to_owned());
    assert(r.deep_view() =~= seq![a@, b@]);
    r
}

/// A path of three keys.
pub fn three(a: &str, b: &str, c: &str) -> (r: Vec<String>)
    ensures
        r.deep_view() == seq![a@, b@, c@],
{
    let mut r = two(a, b);
    put(&mut r, c.to_owned());
    assert(r.deep_view() =~= seq![a@, b@, c@]);
    r
}

/// A file to be written.
#[derive(Debug)]
pub struct WriteFile {
    /// where the file ends up
    pub path: HostPath,
    /// where it is created: the path itself, or a temporary name that is renamed over it
    pub at: HostPath,
    pub text: String,
    /// what to say where the file exists and may not be replaced
    pub exists: String,
}

pub struct WriteFileView {
    pub path: Seq<u8>,
    pub at: Seq<u8>,
    pub text: Seq<char>,
    pub exists: Seq<char>,
}

impl DeepView for WriteFile {
    type V = WriteFileView;

    open spec fn deep_view(&self) -> WriteFileView {
        WriteFileView {
            path: self.path.deep_view(),
            at: self.at.deep_view(),
            text: self.text@,
            exists: self.exists@,
        }
    }
}

/// How `text` is written as the workspace's config: created outright, so that an existing file
/// is refused, or with `force` whole under a temporary name beside it.
pub open spec fn config_written(workspace: Seq<u8>, text: Seq<char>, force: bool) -> WriteFileView {
    let path = joined_path(workspace, encode_utf8(CONFIG_FILE@));
    WriteFileView {
        path,
        at: if force {
            path + encode_utf8(".tmp"@)
        } else {
            path
        },
        text,
        exists: crate::path::lossy_text(path)
            + " exists — `vk dev init` validates it as is; --force overwrites it"@,
    }
}

/// How to write `text` as `workspace/.virtkit/config.toml`. Without `force` an existing file is
/// refused; the local files beside it are never touched.
pub fn write_config(workspace: &HostPath, text: &str, force: bool) -> (r: WriteFile)
    ensures
        r.deep_view() == config_written(workspace.deep_view(), text@, force),
{
    let path = workspace.join_text(CONFIG_FILE);
    let mut at = path.copy();
    if force {
        crate::path::append_bytes(&mut at.bytes, &HostPath::from_text(".tmp").bytes);
    }
    let exists = cat2(
        path.display().as_str(),
        " exists — `vk dev init` validates it as is; --force overwrites it",
    );
    WriteFile { path, at, text: text.to_owned(), exists }
}

/// How to write the template at `workspace/.virtkit/config.toml`.
pub fn write_template(workspace: &HostPath, force: bool) -> (r: WriteFile)
    ensures
        r.deep_view() == config_written(workspace.deep_view(), TEMPLATE@, force),
{
    write_config(workspace, TEMPLATE, force)
}

/// Adding an entry keeps a draft one that can be written out, where the value can be.
pub proof fn lemma_entry_wf(d: DraftView, e: EntryView)
    requires
        d.wf(),
        e matches EntryView::Value(_, v) ==> fit(v),
    ensures
        d.entry(e).wf(),
{
    let r = d.entry(e);
    if d.sections.len() > 0 {
        let n = d.sections.len() - 1;
        assert(entries_fit(d.sections[n].entries));
        assert forall|i: int| 0 <= i < r.sections.len() implies entries_fit((#[trigger] r.sections[i]).entries) by {
            if i < n {
                assert(r.sections[i] == d.sections[i]);
            }
        }
    }
}

proof fn lemma_same_wf(a: DraftView, b: DraftView)
    requires
        a.root == b.root,
        a.sections == b.sections,
    ensures
        a.wf() == b.wf(),
{
    if a.wf() {
        assert forall|i: int| 0 <= i < b.sections.len() implies entries_fit((#[trigger] b.sections[i]).entries) by {
            assert(b.sections[i] == a.sections[i]);
        }
    }
    if b.wf() {
        assert forall|i: int| 0 <= i < a.sections.len() implies entries_fit((#[trigger] a.sections[i]).entries) by {
            assert(b.sections[i] == a.sections[i]);
        }
    }
}

/// Beginning a section keeps a draft one that can be written out.
pub proof fn lemma_section_wf(d: DraftView, path: Seq<Seq<char>>)
    requires
        d.wf(),
    ensures
        d.section(path).wf(),
{
    let r = d.section(path);
    assert forall|i: int| 0 <= i < r.sections.len() implies entries_fit((#[trigger] r.sections[i]).entries) by {
        if i < d.sections.len() {
            assert(r.sections[i] == d.sections[i]);
        }
    }
}

} // verus!
