//! Selective cleanup of a stopped environment, without discarding its identity.
//!
//! What stands in the state directory is the caller's to look at, under its locks: [`candidates`]
//! says which paths a prune would take, [`select`] which of them it takes, given what each is,
//! and [`prune_step`] whether they go.

use crate::identity::{Identity, IdentityView};
use crate::list::{recorded, recorded_text, row_named, Row};
use crate::path::{
    comps, dot, dot_dot, is_abs, is_dot, is_dot_dot, joined_path, lossy_text, name_of, relative_to, same_path, under,
    HostPath,
};
use crate::resolve::{host_entry, is_host_entry, spells};
use crate::text::{cat2, cat3, cat4, cat5, error, outcome, put, same, within, Error};
use vstd::prelude::*;
use vstd::utf8::encode_utf8;

verus! {

/// What a prune is asked to do.
#[derive(Debug, Clone, Copy, PartialEq, Eq, Structural)]
pub struct Options {
    /// remove local boot images and disposable boot media, the default selection
    pub images: bool,
    /// destroy persistent disks, overlays, editor data and managed directories in state
    pub storage: bool,
    /// select both
    pub all: bool,
    /// show exactly what would be removed without removing anything
    pub dry_run: bool,
    /// remove the selected data without asking
    pub yes: bool,
}

impl Options {
    pub open spec fn takes_images(self) -> bool {
        self.images || self.all || !self.storage
    }

    pub open spec fn takes_storage(self) -> bool {
        self.storage || self.all
    }

    /// Images are selected: by default, and where they are asked for.
    pub fn images(&self) -> (r: bool)
        ensures
            r == self.takes_images(),
    {
        self.images || self.all || !self.storage
    }

    /// Storage is selected: only where it is asked for.
    pub fn storage(&self) -> (r: bool)
        ensures
            r == self.takes_storage(),
    {
        self.storage || self.all
    }
}

/// What a selected path is.
#[derive(Debug, Clone, Copy, PartialEq, Eq, Structural)]
pub enum Category {
    Images,
    Storage,
    HookStamp,
}

impl Category {
    pub open spec fn said(self) -> Seq<char> {
        match self {
            Category::Images => "images"@,
            Category::Storage => "storage"@,
            Category::HookStamp => "hook stamp"@,
        }
    }

    pub fn label(self) -> (r: &'static str)
        ensures
            r@ == self.said(),
    {
        match self {
            Category::Images => "images",
            Category::Storage => "storage",
            Category::HookStamp => "hook stamp",
        }
    }
}

/// A selected path, relative to the state directory.
#[derive(Debug)]
pub struct Target {
    pub path: HostPath,
    pub category: Category,
}

pub struct TargetView {
    pub path: Seq<u8>,
    pub category: Category,
}

impl DeepView for Target {
    type V = TargetView;

    open spec fn deep_view(&self) -> TargetView {
        TargetView { path: self.path.deep_view(), category: self.category }
    }
}

/// What a prune works from: the current plan, or what the last boot recorded.
#[derive(Debug)]
pub struct Env {
    pub state_dir: HostPath,
    /// only labels the preview
    pub environment: String,
    /// the declared durable and managed backings, absolute; none where they were not recorded,
    /// and a prune then removes only its fixed-name storage and says so
    pub backings: Option<Vec<HostPath>>,
}

pub struct EnvView {
    pub state_dir: Seq<u8>,
    pub environment: Seq<char>,
    pub backings: Option<Seq<Seq<u8>>>,
}

impl DeepView for Env {
    type V = EnvView;

    open spec fn deep_view(&self) -> EnvView {
        EnvView {
            state_dir: self.state_dir.deep_view(),
            environment: self.environment@,
            backings: self.backings.deep_view(),
        }
    }
}

/// The bytes stand before the others, as bytes.
pub open spec fn bytes_before(a: Seq<u8>, b: Seq<u8>) -> bool
    decreases a.len(),
{
    if b.len() == 0 {
        false
    } else if a.len() == 0 {
        true
    } else if a[0] != b[0] {
        a[0] < b[0]
    } else {
        bytes_before(a.drop_first(), b.drop_first())
    }
}

fn is_bytes_before(a: &Vec<u8>, b: &Vec<u8>) -> (r: bool)
    ensures
        r == bytes_before(a@, b@),
{
    let mut i: usize = 0;
    assert(a@.skip(0) =~= a@ && b@.skip(0) =~= b@);
    while i < a.len() && i < b.len() && a[i] == b[i]
        invariant
            i <= a@.len(),
            i <= b@.len(),
            bytes_before(a@.skip(i as int), b@.skip(i as int)) == bytes_before(a@, b@),
        decreases a@.len() - i,
    {
        assert(a@.skip(i as int)[0] == a@[i as int] && b@.skip(i as int)[0] == b@[i as int]);
        assert(a@.skip(i as int).drop_first() =~= a@.skip(i + 1));
        assert(b@.skip(i as int).drop_first() =~= b@.skip(i + 1));
        i = i + 1;
    }
    if i >= b.len() {
        return false;
    }
    if i >= a.len() {
        return true;
    }
    assert(a@.skip(i as int)[0] == a@[i as int] && b@.skip(i as int)[0] == b@[i as int]);
    a[i] < b[i]
}

/// Where a component stands among the others: `.`, then `..`, then the names.
pub open spec fn rank(c: Seq<u8>) -> int {
    if c == dot() {
        0
    } else if c == dot_dot() {
        1
    } else {
        2
    }
}

pub open spec fn comp_before(a: Seq<u8>, b: Seq<u8>) -> bool {
    rank(a) < rank(b) || (rank(a) == rank(b) && bytes_before(a, b))
}

fn rank_of(c: &Vec<u8>) -> (r: u8)
    ensures
        r == rank(c@),
{
    if is_dot(c) {
        0
    } else if is_dot_dot(c) {
        1
    } else {
        2
    }
}

/// The components stand before the others, one by one.
pub open spec fn comps_before(a: Seq<Seq<u8>>, b: Seq<Seq<u8>>) -> bool
    decreases a.len(),
{
    if b.len() == 0 {
        false
    } else if a.len() == 0 {
        true
    } else if a[0] != b[0] {
        comp_before(a[0], b[0])
    } else {
        comps_before(a.drop_first(), b.drop_first())
    }
}

/// A path stands before another, by components: the root is before every component.
pub open spec fn path_before(a: Seq<u8>, b: Seq<u8>) -> bool {
    if is_abs(a) == is_abs(b) {
        comps_before(comps(a), comps(b))
    } else if is_abs(a) {
        comps(b).len() > 0
    } else {
        comps(a).len() == 0
    }
}

fn is_path_before(a: &HostPath, b: &HostPath) -> (r: bool)
    ensures
        r == path_before(a.deep_view(), b.deep_view()),
{
    let x = a.components();
    let y = b.components();
    let ghost p = comps(a.deep_view());
    let ghost q = comps(b.deep_view());
    assert(p.len() == x@.len() && q.len() == y@.len());
    if a.is_absolute() != b.is_absolute() {
        if a.is_absolute() {
            return y.len() > 0;
        } else {
            return x.len() == 0;
        }
    }
    let mut i: usize = 0;
    assert(p.skip(0) =~= p && q.skip(0) =~= q);
    while i < x.len() && i < y.len()
        invariant
            i <= x@.len(),
            i <= y@.len(),
            p == crate::path::all_bytes(x@),
            q == crate::path::all_bytes(y@),
            is_abs(a.deep_view()) == is_abs(b.deep_view()),
            p == comps(a.deep_view()),
            q == comps(b.deep_view()),
            comps_before(p.skip(i as int), q.skip(i as int)) == comps_before(p, q),
        decreases x@.len() - i,
    {
        assert(p.skip(i as int)[0] == x@[i as int]@ && q.skip(i as int)[0] == y@[i as int]@);
        assert(p.skip(i as int).drop_first() =~= p.skip(i + 1));
        assert(q.skip(i as int).drop_first() =~= q.skip(i + 1));
        if !crate::path::same_bytes(&x[i], &y[i]) {
            let m: u8 = rank_of(&x[i]);
            let n: u8 = rank_of(&y[i]);
            return m < n || (m == n && is_bytes_before(&x[i], &y[i]));
        }
        i = i + 1;
    }
    i < y.len()
}

/// The first place from `from` on whose path does not stand before `p`, or the length.
pub open spec fn slot(v: Seq<TargetView>, p: Seq<u8>, from: int) -> int
    decreases v.len() - from,
{
    if from < 0 || from >= v.len() || !path_before(v[from].path, p) {
        from
    } else {
        slot(v, p, from + 1)
    }
}

/// The candidates with one more, in path order; one that is there already changes its category.
pub open spec fn with_candidate(v: Seq<TargetView>, p: Seq<u8>, c: Category) -> Seq<TargetView> {
    let i = slot(v, p, 0);
    if i < v.len() && same_path(v[i].path, p) {
        v.update(i, TargetView { path: v[i].path, category: c })
    } else {
        v.insert(i, TargetView { path: p, category: c })
    }
}

fn add_candidate(v: &mut Vec<Target>, p: HostPath, c: Category)
    ensures
        final(v).deep_view() == with_candidate(old(v).deep_view(), p.deep_view(), c),
{
    let ghost s = v.deep_view();
    let ghost pv = p.deep_view();
    let mut i: usize = 0;
    while i < v.len() && is_path_before(&v[i].path, &p)
        invariant
            i <= v@.len(),
            s == v.deep_view(),
            *v == *old(v),
            slot(s, p.deep_view(), i as int) == slot(s, p.deep_view(), 0),
        decreases v@.len() - i,
    {
        assert(s[i as int] == v@[i as int].deep_view());
        i = i + 1;
    }
    if i < v.len() {
        assert(s[i as int] == v@[i as int].deep_view());
        if v[i].path.is_same(&p) {
            let path = v[i].path.copy();
            v[i] = Target { path, category: c };
            assert(v.deep_view() =~= s.update(i as int, TargetView { path: s[i as int].path, category: c }));
            return ;
        }
    }
    v.insert(i, Target { path: p, category: c });
    assert(v.deep_view() =~= s.insert(i as int, TargetView { path: pv, category: c }));
}

/// The directories in a state directory that hold storage under a fixed name.
pub open spec fn storage_dirs() -> Seq<Seq<u8>> {
    seq![encode_utf8("roots"@), encode_utf8("overlays"@), encode_utf8("editor"@)]
}

pub open spec fn is_storage_dir(name: Seq<u8>) -> bool {
    name == encode_utf8("roots"@) || name == encode_utf8("overlays"@) || name == encode_utf8("editor"@)
}

/// The declared storage: what of it stands in the state directory, relative to it, and what
/// stands elsewhere, in path order.
#[derive(Debug)]
pub struct Storage {
    pub inside: Vec<HostPath>,
    pub external: Vec<HostPath>,
}

pub struct StorageView {
    pub inside: Seq<Seq<u8>>,
    pub external: Seq<Seq<u8>>,
}

impl DeepView for Storage {
    type V = StorageView;

    open spec fn deep_view(&self) -> StorageView {
        StorageView { inside: self.inside.deep_view(), external: self.external.deep_view() }
    }
}

/// A backing as the state directory holds it, by either of the directory's paths.
pub open spec fn inside_state(backing: Seq<u8>, state: Seq<u8>, canonical: Seq<u8>) -> Option<Seq<u8>> {
    match relative_to(backing, state) {
        Some(rel) => Some(rel),
        None => relative_to(backing, canonical),
    }
}

/// The first place from `from` on whose path does not stand before `p`, or the length.
pub open spec fn path_slot(v: Seq<Seq<u8>>, p: Seq<u8>, from: int) -> int
    decreases v.len() - from,
{
    if from < 0 || from >= v.len() || !path_before(v[from], p) {
        from
    } else {
        path_slot(v, p, from + 1)
    }
}

/// The paths with one more, in path order, none twice.
pub open spec fn with_path(v: Seq<Seq<u8>>, p: Seq<u8>) -> Seq<Seq<u8>> {
    let i = path_slot(v, p, 0);
    if i < v.len() && same_path(v[i], p) {
        v
    } else {
        v.insert(i, p)
    }
}

fn add_path(v: &mut Vec<HostPath>, p: HostPath)
    ensures
        final(v).deep_view() == with_path(old(v).deep_view(), p.deep_view()),
{
    let ghost s = v.deep_view();
    let ghost pv = p.deep_view();
    let mut i: usize = 0;
    while i < v.len() && is_path_before(&v[i], &p)
        invariant
            i <= v@.len(),
            s == v.deep_view(),
            *v == *old(v),
            path_slot(s, p.deep_view(), i as int) == path_slot(s, p.deep_view(), 0),
        decreases v@.len() - i,
    {
        assert(s[i as int] == v@[i as int].deep_view());
        i = i + 1;
    }
    if i < v.len() {
        assert(s[i as int] == v@[i as int].deep_view());
        if v[i].is_same(&p) {
            return ;
        }
    }
    v.insert(i, p);
    assert(v.deep_view() =~= s.insert(i as int, pv));
}

/// The declared storage of the first `n` backings. One that overlaps identity or control data is
/// refused.
pub open spec fn storage_upto(backings: Seq<Seq<u8>>, state: Seq<u8>, canonical: Seq<u8>, n: int) -> Result<
    StorageView,
    Seq<char>,
>
    decreases n,
{
    if n <= 0 {
        Ok(StorageView { inside: storage_dirs(), external: Seq::empty() })
    } else {
        match storage_upto(backings, state, canonical, n - 1) {
            Err(e) => Err(e),
            Ok(s) => match inside_state(backings[n - 1], state, canonical) {
                Some(rel) => if comps(rel).len() == 0 {
                    Err("storage names the state directory"@)
                } else if is_host_entry(comps(rel)[0]) && !is_storage_dir(comps(rel)[0]) {
                    Err(
                        "storage "@ + lossy_text(backings[n - 1])
                            + " overlaps environment identity or control data; left alone"@,
                    )
                } else {
                    Ok(StorageView { inside: s.inside.push(rel), ..s })
                },
                None => Ok(StorageView { external: with_path(s.external, backings[n - 1]), ..s }),
            },
        }
    }
}

proof fn lemma_storage_kept(backings: Seq<Seq<u8>>, state: Seq<u8>, canonical: Seq<u8>, n: int, m: int)
    requires
        0 < n <= m,
        storage_upto(backings, state, canonical, n) is Err,
    ensures
        storage_upto(backings, state, canonical, m) == storage_upto(backings, state, canonical, n),
    decreases m - n,
{
    if n < m {
        lemma_storage_kept(backings, state, canonical, n, m - 1);
    }
}

fn declared(backings: &Vec<HostPath>, state: &HostPath, canonical: &HostPath) -> (r: Result<Storage, Error>)
    ensures
        outcome(r) == storage_upto(
            backings.deep_view(),
            state.deep_view(),
            canonical.deep_view(),
            backings@.len() as int,
        ),
{
    let ghost b = backings.deep_view();
    let ghost st = state.deep_view();
    let ghost ca = canonical.deep_view();
    let mut inside: Vec<HostPath> = Vec::new();
    put(&mut inside, HostPath::from_text("roots"));
    put(&mut inside, HostPath::from_text("overlays"));
    put(&mut inside, HostPath::from_text("editor"));
    assert(inside.deep_view() =~= storage_dirs());
    let mut external: Vec<HostPath> = Vec::new();
    assert(external.deep_view() =~= Seq::empty());
    let mut i: usize = 0;
    while i < backings.len()
        invariant
            i <= backings@.len(),
            b == backings.deep_view(),
            st == state.deep_view(),
            ca == canonical.deep_view(),
            storage_upto(b, st, ca, i as int) == Ok::<StorageView, Seq<char>>(
                StorageView { inside: inside.deep_view(), external: external.deep_view() },
            ),
        decreases backings@.len() - i,
    {
        let backing = &backings[i];
        assert(b[i as int] == backing.deep_view());
        let rel = match backing.strip_prefix(state) {
            Some(r) => Some(r),
            None => backing.strip_prefix(canonical),
        };
        match rel {
            Some(rel) => {
                let c = rel.components();
                assert(c@.len() == comps(rel.deep_view()).len());
                if c.len() == 0 {
                    proof {
                        lemma_storage_kept(b, st, ca, i + 1, b.len() as int);
                    }
                    return Err(error("storage names the state directory".to_owned()));
                }
                assert(comps(rel.deep_view())[0] == c@[0]@);
                let fixed = spells(&c[0], "roots") || spells(&c[0], "overlays") || spells(&c[0], "editor");
                if host_entry(&c[0]) && !fixed {
                    proof {
                        lemma_storage_kept(b, st, ca, i + 1, b.len() as int);
                    }
                    return Err(
                        error(
                            cat3(
                                "storage ",
                                backing.display().as_str(),
                                " overlaps environment identity or control data; left alone",
                            ),
                        ),
                    );
                }
                put(&mut inside, rel);
            },
            None => {
                add_path(&mut external, backing.copy());
            },
        }
        i = i + 1;
    }
    Ok(Storage { inside, external })
}

/// The names of boot media.
pub open spec fn media_names() -> Seq<Seq<char>> {
    seq![
        "root.qcow2"@,
        "root.qcow2.json"@,
        "root.ext4"@,
        "root.ext4.json"@,
        "overlay.qcow2"@,
        "image.ext4"@,
        "image.ext4.json"@,
        "initramfs.cpio"@,
        "vmlinuz"@,
    ]
}

fn media() -> (r: Vec<String>)
    ensures
        r.deep_view() == media_names(),
{
    let mut v: Vec<String> = Vec::new();
    put(&mut v, "root.qcow2".to_owned());
    put(&mut v, "root.qcow2.json".to_owned());
    put(&mut v, "root.ext4".to_owned());
    put(&mut v, "root.ext4.json".to_owned());
    put(&mut v, "overlay.qcow2".to_owned());
    put(&mut v, "image.ext4".to_owned());
    put(&mut v, "image.ext4.json".to_owned());
    put(&mut v, "initramfs.cpio".to_owned());
    put(&mut v, "vmlinuz".to_owned());
    assert(v.deep_view() =~= media_names());
    v
}

/// What a service's directory begins with.
pub open spec fn service_prefix() -> Seq<u8> {
    encode_utf8("svc-"@)
}

/// The path is one of those, or stands under one.
pub open spec fn under_any(p: Seq<u8>, v: Seq<Seq<u8>>) -> bool {
    exists|i: int| 0 <= i < v.len() && under(p, #[trigger] v[i])
}

/// The path and one of those stand one under the other.
pub open spec fn overlaps_any(p: Seq<u8>, v: Seq<Seq<u8>>) -> bool {
    exists|i: int| 0 <= i < v.len() && (under(p, #[trigger] v[i]) || under(v[i], p))
}

fn is_under_any(p: &HostPath, v: &Vec<HostPath>) -> (r: bool)
    ensures
        r == under_any(p.deep_view(), v.deep_view()),
{
    let ghost d = v.deep_view();
    let mut i: usize = 0;
    while i < v.len()
        invariant
            i <= v@.len(),
            d == v.deep_view(),
            forall|j: int| 0 <= j < i ==> !under(p.deep_view(), #[trigger] d[j]),
        decreases v@.len() - i,
    {
        assert(d[i as int] == v@[i as int].deep_view());
        if p.starts_with(&v[i]) {
            return true;
        }
        i = i + 1;
    }
    false
}

fn is_overlapping(p: &HostPath, v: &Vec<HostPath>) -> (r: bool)
    ensures
        r == overlaps_any(p.deep_view(), v.deep_view()),
{
    let ghost d = v.deep_view();
    let mut i: usize = 0;
    while i < v.len()
        invariant
            i <= v@.len(),
            d == v.deep_view(),
            forall|j: int| 0 <= j < i ==> !under(p.deep_view(), #[trigger] d[j]) && !under(d[j], p.deep_view()),
        decreases v@.len() - i,
    {
        assert(d[i as int] == v@[i as int].deep_view());
        if p.starts_with(&v[i]) || v[i].starts_with(p) {
            return true;
        }
        i = i + 1;
    }
    false
}

/// The entry is a service's directory: a managed mount or a declared disk may be named like one.
pub open spec fn is_service(name: Seq<u8>, inside: Seq<Seq<u8>>) -> bool {
    service_prefix().len() <= name.len() && name.take(service_prefix().len() as int) == service_prefix()
        && !under_any(name, inside)
}

/// The services among the first `n` entries.
pub open spec fn services_upto(entries: Seq<Seq<u8>>, inside: Seq<Seq<u8>>, n: int) -> Seq<Seq<u8>>
    decreases n,
{
    if n <= 0 {
        Seq::empty()
    } else if is_service(entries[n - 1], inside) {
        services_upto(entries, inside, n - 1).push(entries[n - 1])
    } else {
        services_upto(entries, inside, n - 1)
    }
}

fn services(entries: &Vec<HostPath>, inside: &Vec<HostPath>) -> (r: Vec<HostPath>)
    ensures
        r.deep_view() == services_upto(entries.deep_view(), inside.deep_view(), entries@.len() as int),
{
    let ghost e = entries.deep_view();
    let prefix = HostPath::from_text("svc-");
    let mut out: Vec<HostPath> = Vec::new();
    let mut i: usize = 0;
    assert(out.deep_view() =~= Seq::empty());
    while i < entries.len()
        invariant
            i <= entries@.len(),
            e == entries.deep_view(),
            prefix.deep_view() == service_prefix(),
            out.deep_view() == services_upto(e, inside.deep_view(), i as int),
        decreases entries@.len() - i,
    {
        let name = &entries[i];
        assert(e[i as int] == name.deep_view());
        if begins_with_bytes(&name.bytes, &prefix.bytes) && !is_under_any(name, inside) {
            put(&mut out, name.copy());
        }
        i = i + 1;
    }
    out
}

fn begins_with_bytes(a: &Vec<u8>, b: &Vec<u8>) -> (r: bool)
    ensures
        r == (b@.len() <= a@.len() && a@.take(b@.len() as int) == b@),
{
    if a.len() < b.len() {
        return false;
    }
    let mut i: usize = 0;
    while i < b.len()
        invariant
            i <= b@.len() <= a@.len(),
            forall|j: int| 0 <= j < i ==> a@[j] == b@[j],
        decreases b@.len() - i,
    {
        if a[i] != b[i] {
            assert(a@.take(b@.len() as int)[i as int] != b@[i as int]);
            return false;
        }
        i = i + 1;
    }
    assert(a@.take(b@.len() as int) =~= b@);
    true
}

/// The media of a service: under the fixed names, and its own overlay.
pub open spec fn service_media(name: Seq<u8>) -> Seq<Seq<u8>> {
    Seq::new(media_names().len(), |i: int| joined_path(name, encode_utf8(media_names()[i]))).push(
        joined_path(name, name.skip(service_prefix().len() as int) + encode_utf8("-overlay.qcow2"@)),
    )
}

/// The media of the first `n` services, behind those of the primary.
pub open spec fn media_upto(services: Seq<Seq<u8>>, n: int) -> Seq<Seq<u8>>
    decreases n,
{
    if n <= 0 {
        Seq::new(media_names().len(), |i: int| encode_utf8(media_names()[i]))
    } else {
        media_upto(services, n - 1) + service_media(services[n - 1])
    }
}

fn add_service_media(out: &mut Vec<HostPath>, name: &HostPath)
    requires
        service_prefix().len() <= name.deep_view().len(),
    ensures
        final(out).deep_view() == old(out).deep_view() + service_media(name.deep_view()),
{
    let ghost had = out.deep_view();
    let ghost n = name.deep_view();
    let files = media();
    let ghost fs = Seq::new(media_names().len(), |i: int| joined_path(n, encode_utf8(media_names()[i])));
    let mut i: usize = 0;
    assert(out.deep_view() =~= had + fs.take(0));
    while i < files.len()
        invariant
            i <= files@.len(),
            n == name.deep_view(),
            files.deep_view() == media_names(),
            fs == Seq::new(media_names().len(), |i: int| joined_path(n, encode_utf8(media_names()[i]))),
            out.deep_view() == had + fs.take(i as int),
        decreases files@.len() - i,
    {
        assert(files.deep_view()[i as int] == files@[i as int]@);
        put(out, name.join_text(files[i].as_str()));
        assert(out.deep_view() =~= had + fs.take(i + 1));
        i = i + 1;
    }
    let prefix = HostPath::from_text("svc-");
    let from: usize = prefix.bytes.len();
    let mut own: Vec<u8> = Vec::new();
    let mut j: usize = from;
    while j < name.bytes.len()
        invariant
            from <= j <= name.bytes@.len(),
            n == name.bytes@,
            own@ == n.subrange(from as int, j as int),
        decreases name.bytes@.len() - j,
    {
        own.push(name.bytes[j]);
        assert(own@ =~= n.subrange(from as int, j + 1));
        j = j + 1;
    }
    assert(own@ =~= n.skip(from as int));
    let tail = HostPath::from_text("-overlay.qcow2");
    crate::path::append_bytes(&mut own, &tail.bytes);
    let overlay = HostPath { bytes: own };
    put(out, name.join(&overlay));
    assert(out.deep_view() =~= had + service_media(n));
}

fn all_media(services: &Vec<HostPath>) -> (r: Vec<HostPath>)
    requires
        forall|i: int|
            0 <= i < services@.len() ==> service_prefix().len() <= (#[trigger] services.deep_view()[i]).len(),
    ensures
        r.deep_view() == media_upto(services.deep_view(), services@.len() as int),
{
    let ghost s = services.deep_view();
    let files = media();
    let ghost fs = Seq::new(media_names().len(), |i: int| encode_utf8(media_names()[i]));
    let mut out: Vec<HostPath> = Vec::new();
    let mut i: usize = 0;
    assert(out.deep_view() =~= fs.take(0));
    while i < files.len()
        invariant
            i <= files@.len(),
            files.deep_view() == media_names(),
            fs == Seq::new(media_names().len(), |i: int| encode_utf8(media_names()[i])),
            out.deep_view() == fs.take(i as int),
        decreases files@.len() - i,
    {
        assert(files.deep_view()[i as int] == files@[i as int]@);
        put(&mut out, HostPath::from_text(files[i].as_str()));
        assert(out.deep_view() =~= fs.take(i + 1));
        i = i + 1;
    }
    assert(out.deep_view() =~= fs);
    let mut j: usize = 0;
    while j < services.len()
        invariant
            j <= services@.len(),
            s == services.deep_view(),
            forall|i: int| 0 <= i < s.len() ==> service_prefix().len() <= (#[trigger] s[i]).len(),
            out.deep_view() == media_upto(s, j as int),
        decreases services@.len() - j,
    {
        assert(s[j as int] == services@[j as int].deep_view());
        add_service_media(&mut out, &services[j]);
        j = j + 1;
    }
    out
}

/// The candidates with the first `n` storage paths.
pub open spec fn storage_candidates(inside: Seq<Seq<u8>>, n: int) -> Seq<TargetView>
    decreases n,
{
    if n <= 0 {
        Seq::empty()
    } else {
        with_candidate(storage_candidates(inside, n - 1), inside[n - 1], Category::Storage)
    }
}

/// The candidates with those of the first `n` media that overlap no storage: a declared durable
/// backing may happen to use a name of boot media.
pub open spec fn media_candidates(had: Seq<TargetView>, media: Seq<Seq<u8>>, inside: Seq<Seq<u8>>, n: int) -> Seq<
    TargetView,
>
    decreases n,
{
    if n <= 0 {
        had
    } else {
        let c = media_candidates(had, media, inside, n - 1);
        if overlaps_any(media[n - 1], inside) {
            c
        } else {
            with_candidate(c, media[n - 1], Category::Images)
        }
    }
}

/// The paths a prune would take, in path order.
pub open spec fn candidates_of(opts: Options, inside: Seq<Seq<u8>>, services: Seq<Seq<u8>>) -> Seq<TargetView> {
    let storage = if opts.takes_storage() {
        storage_candidates(inside, inside.len() as int)
    } else {
        Seq::empty()
    };
    let media = media_upto(services, services.len() as int);
    if opts.takes_images() {
        media_candidates(storage, media, inside, media.len() as int)
    } else {
        storage
    }
}

/// What a prune would take, before it is looked at.
#[derive(Debug)]
pub struct Candidates {
    /// in path order, each relative to the state directory
    pub paths: Vec<Target>,
    /// the service directories, to be locked while the prune lasts
    pub services: Vec<HostPath>,
    /// declared storage that stands elsewhere, and stays
    pub external: Vec<HostPath>,
    /// the declared storage was not recorded
    pub warn_incomplete: bool,
}

pub struct CandidatesView {
    pub paths: Seq<TargetView>,
    pub services: Seq<Seq<u8>>,
    pub external: Seq<Seq<u8>>,
    pub warn_incomplete: bool,
}

impl DeepView for Candidates {
    type V = CandidatesView;

    open spec fn deep_view(&self) -> CandidatesView {
        CandidatesView {
            paths: self.paths.deep_view(),
            services: self.services.deep_view(),
            external: self.external.deep_view(),
            warn_incomplete: self.warn_incomplete,
        }
    }
}

/// The backings there are, none where they were not recorded.
pub open spec fn known_backings(env: EnvView) -> Seq<Seq<u8>> {
    match env.backings {
        Some(b) => b,
        None => Seq::empty(),
    }
}

/// What a prune would take, or why it takes nothing.
pub open spec fn considered(
    env: EnvView,
    opts: Options,
    canonical: Seq<u8>,
    running: Seq<Seq<u8>>,
    entries: Seq<Seq<u8>>,
) -> Result<CandidatesView, Seq<char>> {
    if exists|i: int| 0 <= i < running.len() && under(#[trigger] running[i], canonical) {
        Err("environment or one of its services is running; `vk dev stop` first"@)
    } else {
        match storage_upto(known_backings(env), env.state_dir, canonical, known_backings(env).len() as int) {
            Err(e) => Err(e),
            Ok(s) => {
                let services = services_upto(entries, s.inside, entries.len() as int);
                Ok(
                    CandidatesView {
                        paths: candidates_of(opts, s.inside, services),
                        services,
                        external: s.external,
                        warn_incomplete: env.backings is None,
                    },
                )
            },
        }
    }
}

proof fn lemma_services_prefixed(entries: Seq<Seq<u8>>, inside: Seq<Seq<u8>>, n: int)
    requires
        0 <= n <= entries.len(),
    ensures
        forall|i: int|
            0 <= i < services_upto(entries, inside, n).len() ==> is_service(
                #[trigger] services_upto(entries, inside, n)[i],
                inside,
            ),
    decreases n,
{
    if n > 0 {
        lemma_services_prefixed(entries, inside, n - 1);
        let had = services_upto(entries, inside, n - 1);
        let now = services_upto(entries, inside, n);
        assert forall|i: int| 0 <= i < now.len() implies is_service(#[trigger] now[i], inside) by {
            if i < had.len() {
                assert(now[i] == had[i]);
            }
        }
    }
}

/// What a prune would take of a state directory, given its canonical path, the canonical state
/// directories VMs are up on, and the names of its entries.
pub fn candidates(
    env: &Env,
    opts: &Options,
    canonical: &HostPath,
    running: &Vec<HostPath>,
    entries: &Vec<HostPath>,
) -> (r: Result<Candidates, Error>)
    ensures
        outcome(r) == considered(
            env.deep_view(),
            *opts,
            canonical.deep_view(),
            running.deep_view(),
            entries.deep_view(),
        ),
{
    let ghost run = running.deep_view();
    let mut i: usize = 0;
    while i < running.len()
        invariant
            i <= running@.len(),
            run == running.deep_view(),
            forall|j: int| 0 <= j < i ==> !under(#[trigger] run[j], canonical.deep_view()),
        decreases running@.len() - i,
    {
        assert(run[i as int] == running@[i as int].deep_view());
        if running[i].starts_with(canonical) {
            return Err(
                error("environment or one of its services is running; `vk dev stop` first".to_owned()),
            );
        }
        i = i + 1;
    }
    let none: Vec<HostPath> = Vec::new();
    assert(none.deep_view() =~= Seq::empty());
    let backings = match &env.backings {
        Some(b) => b,
        None => &none,
    };
    assert(backings.deep_view() == known_backings(env.deep_view()));
    let storage = declared(backings, &env.state_dir, canonical)?;
    let ghost inside = storage.inside.deep_view();
    let found = services(entries, &storage.inside);
    let ghost sv = found.deep_view();
    proof {
        lemma_services_prefixed(entries.deep_view(), inside, entries@.len() as int);
    }
    let mut paths: Vec<Target> = Vec::new();
    assert(paths.deep_view() =~= Seq::empty());
    if opts.storage() {
        let mut j: usize = 0;
        while j < storage.inside.len()
            invariant
                j <= storage.inside@.len(),
                inside == storage.inside.deep_view(),
                paths.deep_view() == storage_candidates(inside, j as int),
            decreases storage.inside@.len() - j,
        {
            assert(inside[j as int] == storage.inside@[j as int].deep_view());
            add_candidate(&mut paths, storage.inside[j].copy(), Category::Storage);
            j = j + 1;
        }
    }
    if opts.images() {
        let ghost had = paths.deep_view();
        let all = all_media(&found);
        let ghost m = all.deep_view();
        let mut k: usize = 0;
        while k < all.len()
            invariant
                k <= all@.len(),
                m == all.deep_view(),
                inside == storage.inside.deep_view(),
                paths.deep_view() == media_candidates(had, m, inside, k as int),
            decreases all@.len() - k,
        {
            assert(m[k as int] == all@[k as int].deep_view());
            if !is_overlapping(&all[k], &storage.inside) {
                add_candidate(&mut paths, all[k].copy(), Category::Images);
            }
            k = k + 1;
        }
    }
    Ok(
        Candidates {
            paths,
            services: found,
            external: storage.external,
            warn_incomplete: env.backings.is_none(),
        },
    )
}

/// What stands at a path, without following a link.
#[derive(Debug)]
pub enum Kind {
    Missing,
    File,
    Dir,
    /// a symlink, or an unexpected type
    Other,
    /// it cannot be looked at, and why
    Unreadable(String),
}

pub enum KindView {
    Missing,
    File,
    Dir,
    Other,
    Unreadable(Seq<char>),
}

impl DeepView for Kind {
    type V = KindView;

    open spec fn deep_view(&self) -> KindView {
        match *self {
            Kind::Missing => KindView::Missing,
            Kind::File => KindView::File,
            Kind::Dir => KindView::Dir,
            Kind::Other => KindView::Other,
            Kind::Unreadable(e) => KindView::Unreadable(e@),
        }
    }
}

/// A path that stays in the directory it is relative to: names, and nothing else.
pub open spec fn stays_inside(p: Seq<u8>) -> bool {
    &&& !is_abs(p)
    &&& comps(p).len() > 0
    &&& forall|i: int| 0 <= i < comps(p).len() ==> (#[trigger] comps(p)[i]) != dot() && comps(p)[i] != dot_dot()
}

fn is_inside(p: &HostPath) -> (r: bool)
    ensures
        r == stays_inside(p.deep_view()),
{
    if p.is_absolute() {
        return false;
    }
    let c = p.components();
    let ghost v = comps(p.deep_view());
    assert(v.len() == c@.len());
    if c.len() == 0 {
        return false;
    }
    let mut i: usize = 0;
    while i < c.len()
        invariant
            i <= c@.len(),
            v == comps(p.deep_view()),
            v == crate::path::all_bytes(c@),
            forall|j: int| 0 <= j < i ==> (#[trigger] v[j]) != dot() && v[j] != dot_dot(),
        decreases c@.len() - i,
    {
        assert(v[i as int] == c@[i as int]@);
        if is_dot(&c[i]) || is_dot_dot(&c[i]) {
            return false;
        }
        i = i + 1;
    }
    true
}

/// Whether a path is taken, or why the prune stops there. A directory is taken only as storage.
pub open spec fn taken(p: Seq<u8>, c: Category, k: KindView) -> Result<bool, Seq<char>> {
    if !stays_inside(p) {
        Err("invalid prune path "@ + lossy_text(p))
    } else {
        match k {
            KindView::Missing => Ok(false),
            KindView::Unreadable(e) => Err(e),
            KindView::File => Ok(true),
            KindView::Dir => if c == Category::Storage {
                Ok(true)
            } else {
                Err(lossy_text(p) + " is a symlink or an unexpected file type; left alone"@)
            },
            KindView::Other => Err(lossy_text(p) + " is a symlink or an unexpected file type; left alone"@),
        }
    }
}

fn take(p: &HostPath, c: Category, k: &Kind) -> (r: Result<bool, Error>)
    ensures
        outcome(r) == taken(p.deep_view(), c, k.deep_view()),
{
    if !is_inside(p) {
        return Err(error(cat2("invalid prune path ", p.display().as_str())));
    }
    let odd = match k {
        Kind::Missing => {
            return Ok(false);
        },
        Kind::Unreadable(e) => {
            return Err(error(e.clone()));
        },
        Kind::File => false,
        Kind::Dir => c != Category::Storage,
        Kind::Other => true,
    };
    if odd {
        Err(error(cat2(p.display().as_str(), " is a symlink or an unexpected file type; left alone")))
    } else {
        Ok(true)
    }
}

/// The path is one of the targets, or stands under one.
pub open spec fn covered(p: Seq<u8>, targets: Seq<TargetView>) -> bool {
    exists|i: int| 0 <= i < targets.len() && under(p, (#[trigger] targets[i]).path)
}

fn is_covered(p: &HostPath, targets: &Vec<Target>) -> (r: bool)
    ensures
        r == covered(p.deep_view(), targets.deep_view()),
{
    let ghost d = targets.deep_view();
    let mut i: usize = 0;
    while i < targets.len()
        invariant
            i <= targets@.len(),
            d == targets.deep_view(),
            forall|j: int| 0 <= j < i ==> !under(p.deep_view(), (#[trigger] d[j]).path),
        decreases targets@.len() - i,
    {
        assert(d[i as int] == targets@[i as int].deep_view());
        if p.starts_with(&targets[i].path) {
            return true;
        }
        i = i + 1;
    }
    false
}

/// The targets among the first `n` candidates.
pub open spec fn targets_upto(state: Seq<u8>, paths: Seq<TargetView>, kinds: Seq<KindView>, n: int) -> Result<
    Seq<TargetView>,
    Seq<char>,
>
    decreases n,
{
    if n <= 0 {
        Ok(Seq::empty())
    } else {
        match targets_upto(state, paths, kinds, n - 1) {
            Err(e) => Err(e),
            Ok(had) => {
                let t = paths[n - 1];
                if covered(t.path, had) {
                    Ok(had)
                } else {
                    match taken(t.path, t.category, kinds[n - 1]) {
                        Err(e) => Err("selecting "@ + lossy_text(joined_path(state, t.path)) + ": "@ + e),
                        Ok(true) => Ok(had.push(t)),
                        Ok(false) => Ok(had),
                    }
                }
            },
        }
    }
}

proof fn lemma_targets_kept(state: Seq<u8>, paths: Seq<TargetView>, kinds: Seq<KindView>, n: int, m: int)
    requires
        0 < n <= m,
        targets_upto(state, paths, kinds, n) is Err,
    ensures
        targets_upto(state, paths, kinds, m) == targets_upto(state, paths, kinds, n),
    decreases m - n,
{
    if n < m {
        lemma_targets_kept(state, paths, kinds, n, m - 1);
    }
}

/// What a prune removes.
#[derive(Debug)]
pub struct Selection {
    pub targets: Vec<Target>,
    pub external: Vec<HostPath>,
    /// the declared storage was not recorded, so a loose disk in the state directory could not
    /// be told from an unrelated file and is left alone
    pub warn_incomplete: bool,
}

pub struct SelectionView {
    pub targets: Seq<TargetView>,
    pub external: Seq<Seq<u8>>,
    pub warn_incomplete: bool,
}

impl DeepView for Selection {
    type V = SelectionView;

    open spec fn deep_view(&self) -> SelectionView {
        SelectionView {
            targets: self.targets.deep_view(),
            external: self.external.deep_view(),
            warn_incomplete: self.warn_incomplete,
        }
    }
}

/// The stamp of the creation hook, in the state directory.
pub open spec fn create_stamp() -> Seq<u8> {
    encode_utf8("lifecycle/create"@)
}

/// What a prune removes, given what stands at each candidate and at the stamp of the creation
/// hook.
pub open spec fn selected(env: EnvView, c: CandidatesView, kinds: Seq<KindView>, stamp: KindView) -> Result<
    SelectionView,
    Seq<char>,
> {
    match targets_upto(env.state_dir, c.paths, kinds, c.paths.len() as int) {
        Err(e) => Err(e),
        Ok(t) => if t.len() == 0 {
            Ok(SelectionView { targets: t, external: c.external, warn_incomplete: c.warn_incomplete })
        } else {
            match taken(create_stamp(), Category::HookStamp, stamp) {
                Err(e) => Err(e),
                Ok(there) => Ok(
                    SelectionView {
                        targets: if there {
                            seq![TargetView { path: create_stamp(), category: Category::HookStamp }] + t
                        } else {
                            t
                        },
                        external: c.external,
                        warn_incomplete: c.warn_incomplete,
                    },
                ),
            }
        },
    }
}

/// What a prune removes: the candidates that are there, each but what stands under another, and
/// the stamp of the creation hook before anything else, since recreating the same image does not
/// change its generation.
pub fn select(env: &Env, c: Candidates, kinds: &Vec<Kind>, stamp: &Kind) -> (r: Result<Selection, Error>)
    requires
        kinds@.len() == c.paths@.len(),
    ensures
        outcome(r) == selected(env.deep_view(), c.deep_view(), kinds.deep_view(), stamp.deep_view()),
{
    let ghost st = env.state_dir.deep_view();
    let ghost ps = c.paths.deep_view();
    let ghost ks = kinds.deep_view();
    let mut targets: Vec<Target> = Vec::new();
    let mut i: usize = 0;
    assert(targets.deep_view() =~= Seq::empty());
    while i < c.paths.len()
        invariant
            i <= c.paths@.len(),
            kinds@.len() == c.paths@.len(),
            st == env.state_dir.deep_view(),
            ps == c.paths.deep_view(),
            ks == kinds.deep_view(),
            targets_upto(st, ps, ks, i as int) == Ok::<Seq<TargetView>, Seq<char>>(targets.deep_view()),
        decreases c.paths@.len() - i,
    {
        let t = &c.paths[i];
        assert(ps[i as int] == t.deep_view());
        assert(ks[i as int] == kinds@[i as int].deep_view());
        if !is_covered(&t.path, &targets) {
            match take(&t.path, t.category, &kinds[i]) {
                Err(e) => {
                    let at = env.state_dir.join(&t.path).display();
                    proof {
                        lemma_targets_kept(st, ps, ks, i + 1, ps.len() as int);
                    }
                    return Err(within(cat2("selecting ", at.as_str()).as_str(), e));
                },
                Ok(there) => {
                    if there {
                        put(&mut targets, Target { path: t.path.copy(), category: t.category });
                    }
                },
            }
        }
        i = i + 1;
    }
    let ghost t = targets.deep_view();
    assert(t.len() == targets@.len());
    if !targets.is_empty() {
        let path = HostPath::from_text("lifecycle/create");
        if take(&path, Category::HookStamp, stamp)? {
            targets.insert(0, Target { path, category: Category::HookStamp });
            assert(targets.deep_view() =~= seq![
                TargetView { path: create_stamp(), category: Category::HookStamp },
            ] + t);
        }
    }
    Ok(Selection { targets, external: c.external, warn_incomplete: c.warn_incomplete })
}

impl Selection {
    /// What a prune of a state directory that is not there removes.
    pub fn nothing() -> (r: Selection)
        ensures
            r.deep_view() == (SelectionView {
                targets: Seq::empty(),
                external: Seq::empty(),
                warn_incomplete: false,
            }),
    {
        let targets: Vec<Target> = Vec::new();
        let external: Vec<HostPath> = Vec::new();
        assert(targets.deep_view() =~= Seq::empty());
        assert(external.deep_view() =~= Seq::empty());
        Selection { targets, external, warn_incomplete: false }
    }
}

/// The lines of the first `n` targets.
pub open spec fn targets_shown(state: Seq<u8>, t: Seq<TargetView>, n: int) -> Seq<char>
    decreases n,
{
    if n <= 0 {
        Seq::empty()
    } else {
        targets_shown(state, t, n - 1) + ("  remove ["@ + t[n - 1].category.said() + "] "@ + lossy_text(
            joined_path(state, t[n - 1].path),
        ) + "\n"@)
    }
}

/// The lines of the first `n` paths that stay.
pub open spec fn external_shown(v: Seq<Seq<u8>>, n: int) -> Seq<char>
    decreases n,
{
    if n <= 0 {
        Seq::empty()
    } else {
        external_shown(v, n - 1) + ("  keep [external storage] "@ + lossy_text(v[n - 1]) + "\n"@)
    }
}

/// Storage is among the targets.
pub open spec fn takes_storage(t: Seq<TargetView>) -> bool {
    exists|i: int| 0 <= i < t.len() && (#[trigger] t[i]).category == Category::Storage
}

/// What a prune says before it removes anything.
pub open spec fn preview_shown(env: EnvView, s: SelectionView) -> Seq<char> {
    ("environment "@ + env.environment + " ("@ + lossy_text(env.state_dir) + ")\n"@) + targets_shown(
        env.state_dir,
        s.targets,
        s.targets.len() as int,
    ) + external_shown(s.external, s.external.len() as int) + (if takes_storage(s.targets) {
        "selected persistent storage contents will be lost\n"@
    } else {
        Seq::empty()
    }) + (if s.warn_incomplete {
        "note: this environment's declared storage was not recorded (booted by an older vk); any disk backing left loose in the state directory cannot be identified — prune from its workspace, or boot it once to record it\n"@
    } else {
        Seq::empty()
    }) + "shared image/build caches, environment identity and SSH keys are kept\n"@
}

impl Selection {
    /// What a prune says before it removes anything.
    pub fn preview(&self, env: &Env) -> (r: String)
        ensures
            r@ == preview_shown(env.deep_view(), self.deep_view()),
    {
        let ghost st = env.state_dir.deep_view();
        let ghost t = self.targets.deep_view();
        let ghost x = self.external.deep_view();
        let at = env.state_dir.display();
        let mut out = cat5("environment ", env.environment.as_str(), " (", at.as_str(), ")\n");
        let ghost head = out@;
        let mut storage = false;
        let mut i: usize = 0;
        assert(out@ =~= head + targets_shown(st, t, 0));
        while i < self.targets.len()
            invariant
                i <= self.targets@.len(),
                st == env.state_dir.deep_view(),
                t == self.targets.deep_view(),
                out@ == head + targets_shown(st, t, i as int),
                storage == exists|j: int| 0 <= j < i && (#[trigger] t[j]).category == Category::Storage,
            decreases self.targets@.len() - i,
        {
            let target = &self.targets[i];
            assert(t[i as int] == target.deep_view());
            let path = env.state_dir.join(&target.path).display();
            out.append(cat5("  remove [", target.category.label(), "] ", path.as_str(), "\n").as_str());
            assert(out@ =~= head + targets_shown(st, t, i + 1));
            if target.category == Category::Storage {
                storage = true;
            }
            i = i + 1;
        }
        let ghost second = out@;
        let mut j: usize = 0;
        assert(out@ =~= second + external_shown(x, 0));
        while j < self.external.len()
            invariant
                j <= self.external@.len(),
                x == self.external.deep_view(),
                out@ == second + external_shown(x, j as int),
            decreases self.external@.len() - j,
        {
            assert(x[j as int] == self.external@[j as int].deep_view());
            let path = self.external[j].display();
            out.append(cat3("  keep [external storage] ", path.as_str(), "\n").as_str());
            assert(out@ =~= second + external_shown(x, j + 1));
            j = j + 1;
        }
        if storage {
            out.append("selected persistent storage contents will be lost\n");
        }
        if self.warn_incomplete {
            out.append(
                "note: this environment's declared storage was not recorded (booted by an older vk); any disk backing left loose in the state directory cannot be identified — prune from its workspace, or boot it once to record it\n",
            );
        }
        out.append("shared image/build caches, environment identity and SSH keys are kept\n");
        assert(out@ =~= preview_shown(env.deep_view(), self.deep_view()));
        out
    }
}

/// What a prune does.
#[derive(Debug)]
pub enum PruneStep {
    /// nothing is removed: print this
    Report(String),
    /// print this, and ask
    Ask(String),
    /// print this, and remove what was selected
    Remove(String),
    Refuse(Error),
}

pub enum PruneStepView {
    Report(Seq<char>),
    Ask(Seq<char>),
    Remove(Seq<char>),
    Refuse(Seq<char>),
}

impl DeepView for PruneStep {
    type V = PruneStepView;

    open spec fn deep_view(&self) -> PruneStepView {
        match *self {
            PruneStep::Report(t) => PruneStepView::Report(t@),
            PruneStep::Ask(t) => PruneStepView::Ask(t@),
            PruneStep::Remove(t) => PruneStepView::Remove(t@),
            PruneStep::Refuse(e) => PruneStepView::Refuse(e.deep_view()),
        }
    }
}

/// What a prune does with what it selected.
pub open spec fn prune_next(
    env: EnvView,
    s: SelectionView,
    opts: Options,
    answer: Option<Result<bool, Seq<char>>>,
) -> PruneStepView {
    let preview = preview_shown(env, s);
    if s.targets.len() == 0 {
        PruneStepView::Report(preview + "nothing to remove\n"@)
    } else if opts.dry_run {
        PruneStepView::Report(preview + "dry run: nothing was removed\n"@)
    } else if opts.yes {
        PruneStepView::Remove(preview)
    } else {
        match answer {
            None => PruneStepView::Ask(preview),
            Some(Err(e)) => PruneStepView::Refuse(e),
            Some(Ok(true)) => PruneStepView::Remove(preview),
            Some(Ok(false)) => PruneStepView::Refuse("nothing was removed"@),
        }
    }
}

/// What a prune does with what it selected. `answer` is what was said to the question this
/// function asked for.
pub fn prune_step(env: &Env, s: &Selection, opts: &Options, answer: Option<Result<bool, Error>>) -> (r: PruneStep)
    ensures
        r.deep_view() == prune_next(
            env.deep_view(),
            s.deep_view(),
            *opts,
            crate::boot::answer_given(answer),
        ),
{
    let preview = s.preview(env);
    assert(s.deep_view().targets.len() == s.targets@.len());
    if s.targets.is_empty() {
        return PruneStep::Report(cat2(preview.as_str(), "nothing to remove\n"));
    }
    if opts.dry_run {
        return PruneStep::Report(cat2(preview.as_str(), "dry run: nothing was removed\n"));
    }
    if opts.yes {
        return PruneStep::Remove(preview);
    }
    match answer {
        None => PruneStep::Ask(preview),
        Some(Err(e)) => PruneStep::Refuse(e),
        Some(Ok(true)) => PruneStep::Remove(preview),
        Some(Ok(false)) => PruneStep::Refuse(error("nothing was removed".to_owned())),
    }
}

/// Whether the removal may be asked about at all: only where there is somebody to answer.
pub fn default_confirm(on_terminal: bool) -> (r: Result<&'static str, Error>)
    ensures
        match r {
            Ok(question) => on_terminal && question@ == "remove the selected data?"@,
            Err(e) => !on_terminal && e.deep_view()
                == "nothing was removed: use --yes to confirm, or --dry-run to preview"@,
        },
{
    if on_terminal {
        Ok("remove the selected data?")
    } else {
        Err(error("nothing was removed: use --yes to confirm, or --dry-run to preview".to_owned()))
    }
}

/// What a file is known by.
#[derive(Debug, Clone, Copy, PartialEq, Eq, Structural)]
pub struct FileId {
    pub dev: u64,
    pub ino: u64,
    pub mode: u32,
}

/// A target is what it was when it was selected.
pub fn unchanged(target: &Target, then: FileId, now: FileId) -> (r: Result<(), Error>)
    ensures
        if then == now {
            r is Ok
        } else {
            r matches Err(e) && e.deep_view() == lossy_text(target.deep_view().path)
                + " changed while pruning; nothing further was removed"@
        },
{
    if then == now {
        Ok(())
    } else {
        Err(
            error(cat2(target.path.display().as_str(), " changed while pruning; nothing further was removed")),
        )
    }
}

/// What is said of a target that was removed.
pub fn removed(env: &Env, target: &Target) -> (r: String)
    ensures
        r@ == "removed "@ + lossy_text(joined_path(env.deep_view().state_dir, target.deep_view().path)) + "\n"@,
{
    cat3("removed ", env.state_dir.join(&target.path).display().as_str(), "\n")
}

/// What is said where a target could not be removed, behind what was.
pub fn unfinished(report: &str, env: &Env, target: &Target) -> (r: String)
    ensures
        r@ == report@ + "could not finish removing "@ + lossy_text(
            joined_path(env.deep_view().state_dir, target.deep_view().path),
        ) + "; pruning may be partial"@,
{
    let at = env.state_dir.join(&target.path).display();
    cat4(report, "could not finish removing ", at.as_str(), "; pruning may be partial")
}

/// What a prune by name works from: the label and the backings the last boot recorded.
pub open spec fn env_recorded(dir: Seq<u8>, identity: Option<IdentityView>) -> EnvView {
    EnvView {
        state_dir: dir,
        environment: match recorded_text(identity, "environment"@) {
            Some(t) => t,
            None => match name_of(dir) {
                Some(n) => lossy_text(n),
                None => ""@,
            },
        },
        backings: match identity {
            Some(i) => i.storage_backings,
            None => None,
        },
    }
}

/// What a prune by name works from, without resolving a config.
pub fn env_of_state(dir: &HostPath, identity: &Option<Identity>) -> (r: Env)
    ensures
        r.deep_view() == env_recorded(dir.deep_view(), identity.deep_view()),
{
    let environment = match recorded(identity, "environment") {
        Some(t) => t,
        None => match dir.file_name() {
            Some(n) => crate::path::lossy(&n),
            None => "".to_owned(),
        },
    };
    let backings = match identity {
        Some(i) => match &i.storage_backings {
            Some(b) => Some(copy_paths(b)),
            None => None,
        },
        None => None,
    };
    Env { state_dir: dir.copy(), environment, backings }
}

fn copy_paths(v: &Vec<HostPath>) -> (r: Vec<HostPath>)
    ensures
        r.deep_view() == v.deep_view(),
{
    let mut out: Vec<HostPath> = Vec::new();
    let mut i: usize = 0;
    while i < v.len()
        invariant
            i <= v@.len(),
            out.deep_view() == v.deep_view().take(i as int),
        decreases v@.len() - i,
    {
        put(&mut out, v[i].copy());
        assert(out.deep_view() =~= v.deep_view().take(i + 1));
        i = i + 1;
    }
    assert(out.deep_view() =~= v.deep_view());
    out
}

/// The state directory a name stands for, by the listing `vk dev list` shows.
pub fn run_by_name(rows: &Vec<Row>, name: &str) -> (r: Result<HostPath, Error>)
    ensures
        outcome(r) == ({
            let at = row_named(rows.deep_view(), name@, 0);
            if at < rows.deep_view().len() {
                Ok::<Seq<u8>, Seq<char>>(rows.deep_view()[at].dir)
            } else {
                Err("no dev environment state named "@ + name@ + " (`vk dev list` names them)"@)
            }
        }),
{
    let ghost s = rows.deep_view();
    let mut i: usize = 0;
    while i < rows.len()
        invariant
            i <= rows@.len(),
            s == rows.deep_view(),
            row_named(s, name@, i as int) == row_named(s, name@, 0),
        decreases rows@.len() - i,
    {
        assert(s[i as int] == rows@[i as int].deep_view());
        if same(rows[i].name.as_str(), name) {
            return Ok(rows[i].dir.copy());
        }
        i = i + 1;
    }
    Err(error(cat3("no dev environment state named ", name, " (`vk dev list` names them)")))
}

/// Nothing is removed on a dry run, where nothing was selected, or without a yes.
pub proof fn law_removal_needs_consent(
    env: EnvView,
    s: SelectionView,
    opts: Options,
    answer: Option<Result<bool, Seq<char>>>,
)
    ensures
        prune_next(env, s, opts, answer) is Remove ==> {
            &&& !opts.dry_run
            &&& s.targets.len() > 0
            &&& opts.yes || answer == Some(Ok::<bool, Seq<char>>(true))
        },
{
}

/// The path begins with none of the host's own entries, but for those that hold storage.
pub open spec fn spares_identity(p: Seq<u8>) -> bool {
    comps(p).len() > 0 && (is_host_entry(comps(p)[0]) ==> is_storage_dir(comps(p)[0]))
}

/// A name that a directory can list.
pub open spec fn is_name(n: Seq<u8>) -> bool {
    n.len() > 0 && crate::path::slash_free(n)
}

proof fn lemma_one_comp(n: Seq<u8>)
    requires
        is_name(n),
    ensures
        comps(n) == seq![n],
{
    let c = seq![n];
    crate::path::lemma_written_reads_back(false, c);
    assert(crate::path::slashed(c, 1) == n);
}

proof fn lemma_two_comps(n: Seq<u8>, m: Seq<u8>)
    requires
        is_name(n),
        is_name(m),
        m != dot(),
    ensures
        comps(joined_path(n, m)) == seq![n, m],
{
    let c = seq![n, m];
    crate::path::lemma_written_reads_back(false, c);
    assert(crate::path::slashed(c, 1) == n);
    assert(crate::path::slashed(c, 2) == n.push(crate::path::SLASH) + m);
    assert(n.last() != crate::path::SLASH);
    assert(m[0] != crate::path::SLASH);
}

proof fn lemma_ascii_bytes(t: Seq<char>)
    requires
        vstd::utf8::is_ascii_chars(t),
    ensures
        encode_utf8(t).len() == t.len(),
        forall|i: int| 0 <= i < t.len() ==> #[trigger] encode_utf8(t)[i] == t[i] as u8,
{
    vstd::utf8::is_ascii_chars_encode_utf8(t);
}

/// The text differs from the names of the host's own entries in its length or in one of its
/// first two characters.
spec fn unlike_host_entries(t: Seq<char>) -> bool {
    &&& t.len() > 1
    &&& t[0] != 'e' && t[0] != 's' && t[0] != 'b' && t[0] != 'd' && t[0] != 'l' && t[0] != 'h' && t[0] != 'p'
    &&& !(t[0] == 'i' && t[1] == 'd')
}

proof fn lemma_unlike(t: Seq<char>)
    requires
        unlike_host_entries(t),
    ensures
        !is_host_entry(encode_utf8(t)),
{
    reveal_strlit("editor");
    reveal_strlit("endpoints.json");
    reveal_strlit("id_ed25519");
    reveal_strlit("id_ed25519.pub");
    reveal_strlit("ssh-config");
    reveal_strlit("bin");
    reveal_strlit("dev.json");
    reveal_strlit("lifecycle");
    reveal_strlit("host-exec-wrapper");
    reveal_strlit("boot.log");
    reveal_strlit("publish");
    vstd::utf8::encode_utf8_decode_utf8(t);
    vstd::utf8::encode_utf8_decode_utf8("editor"@);
    vstd::utf8::encode_utf8_decode_utf8("endpoints.json"@);
    vstd::utf8::encode_utf8_decode_utf8("id_ed25519"@);
    vstd::utf8::encode_utf8_decode_utf8("id_ed25519.pub"@);
    vstd::utf8::encode_utf8_decode_utf8("ssh-config"@);
    vstd::utf8::encode_utf8_decode_utf8("bin"@);
    vstd::utf8::encode_utf8_decode_utf8("dev.json"@);
    vstd::utf8::encode_utf8_decode_utf8("lifecycle"@);
    vstd::utf8::encode_utf8_decode_utf8("host-exec-wrapper"@);
    vstd::utf8::encode_utf8_decode_utf8("boot.log"@);
    vstd::utf8::encode_utf8_decode_utf8("publish"@);
}

proof fn lemma_plain_name(t: Seq<char>)
    requires
        t.len() > 0,
        vstd::utf8::is_ascii_chars(t),
        forall|i: int| 0 <= i < t.len() ==> #[trigger] t[i] != '/',
    ensures
        is_name(encode_utf8(t)),
{
    lemma_ascii_bytes(t);
    let b = encode_utf8(t);
    assert forall|i: int| 0 <= i < b.len() implies b[i] != crate::path::SLASH by {
        assert(b[i] == t[i] as u8);
        assert(t[i] != '/');
        assert((t[i] as nat) < 128);
    }
}

/// A name of media is plain, and not one of the host's own.
proof fn lemma_media_name(i: int)
    requires
        0 <= i < media_names().len(),
    ensures
        is_name(encode_utf8(media_names()[i])),
        encode_utf8(media_names()[i]) != dot(),
        !is_host_entry(encode_utf8(media_names()[i])),
{
    reveal_strlit("root.qcow2");
    reveal_strlit("root.qcow2.json");
    reveal_strlit("root.ext4");
    reveal_strlit("root.ext4.json");
    reveal_strlit("overlay.qcow2");
    reveal_strlit("image.ext4");
    reveal_strlit("image.ext4.json");
    reveal_strlit("initramfs.cpio");
    reveal_strlit("vmlinuz");
    let t = media_names()[i];
    assert(unlike_host_entries(t));
    lemma_unlike(t);
    assert(vstd::utf8::is_ascii_chars(t));
    lemma_plain_name(t);
    lemma_ascii_bytes(t);
}

proof fn lemma_service_first(name: Seq<u8>)
    requires
        service_prefix().len() <= name.len(),
        name.take(service_prefix().len() as int) == service_prefix(),
    ensures
        service_prefix().len() == 4,
        !is_host_entry(name),
{
    reveal_strlit("svc-");
    reveal_strlit("editor");
    reveal_strlit("endpoints.json");
    reveal_strlit("id_ed25519");
    reveal_strlit("id_ed25519.pub");
    reveal_strlit("ssh-config");
    reveal_strlit("bin");
    reveal_strlit("dev.json");
    reveal_strlit("lifecycle");
    reveal_strlit("host-exec-wrapper");
    reveal_strlit("boot.log");
    reveal_strlit("publish");
    lemma_ascii_bytes("svc-"@);
    lemma_ascii_bytes("editor"@);
    lemma_ascii_bytes("endpoints.json"@);
    lemma_ascii_bytes("id_ed25519"@);
    lemma_ascii_bytes("id_ed25519.pub"@);
    lemma_ascii_bytes("ssh-config"@);
    lemma_ascii_bytes("bin"@);
    lemma_ascii_bytes("dev.json"@);
    lemma_ascii_bytes("lifecycle"@);
    lemma_ascii_bytes("host-exec-wrapper"@);
    lemma_ascii_bytes("boot.log"@);
    lemma_ascii_bytes("publish"@);
    assert(name.take(4)[0] == name[0] && name.take(4)[1] == name[1]);
    assert(name[0] == 's' as u8 && name[1] == 'v' as u8);
    assert(encode_utf8("ssh-config"@)[1] == 's' as u8);
    assert(encode_utf8("editor"@)[0] == 'e' as u8);
    assert(encode_utf8("endpoints.json"@)[0] == 'e' as u8);
    assert(encode_utf8("id_ed25519"@)[0] == 'i' as u8);
    assert(encode_utf8("id_ed25519.pub"@)[0] == 'i' as u8);
    assert(encode_utf8("bin"@)[0] == 'b' as u8);
    assert(encode_utf8("dev.json"@)[0] == 'd' as u8);
    assert(encode_utf8("lifecycle"@)[0] == 'l' as u8);
    assert(encode_utf8("host-exec-wrapper"@)[0] == 'h' as u8);
    assert(encode_utf8("boot.log"@)[0] == 'b' as u8);
    assert(encode_utf8("publish"@)[0] == 'p' as u8);
}

/// Every path spares identity.
spec fn all_spare(v: Seq<Seq<u8>>) -> bool {
    forall|i: int| 0 <= i < v.len() ==> spares_identity(#[trigger] v[i])
}

proof fn lemma_storage_spares(backings: Seq<Seq<u8>>, state: Seq<u8>, canonical: Seq<u8>, n: int)
    requires
        0 <= n <= backings.len(),
        storage_upto(backings, state, canonical, n) is Ok,
    ensures
        all_spare(storage_upto(backings, state, canonical, n)->Ok_0.inside),
    decreases n,
{
    if n > 0 {
        lemma_storage_spares(backings, state, canonical, n - 1);
        let had = storage_upto(backings, state, canonical, n - 1)->Ok_0.inside;
        let now = storage_upto(backings, state, canonical, n)->Ok_0.inside;
        assert forall|i: int| 0 <= i < now.len() implies spares_identity(#[trigger] now[i]) by {
            if i < had.len() {
                assert(now[i] == had[i]);
            }
        }
    } else {
        reveal_strlit("roots");
        reveal_strlit("overlays");
        reveal_strlit("editor");
        lemma_plain_name("roots"@);
        lemma_plain_name("overlays"@);
        lemma_plain_name("editor"@);
        lemma_one_comp(encode_utf8("roots"@));
        lemma_one_comp(encode_utf8("overlays"@));
        lemma_one_comp(encode_utf8("editor"@));
    }
}

proof fn lemma_media_spares(services: Seq<Seq<u8>>, inside: Seq<Seq<u8>>, n: int)
    requires
        0 <= n <= services.len(),
        forall|i: int| 0 <= i < services.len() ==> is_service(#[trigger] services[i], inside) && is_name(services[i]),
    ensures
        all_spare(media_upto(services, n)),
    decreases n,
{
    let now = media_upto(services, n);
    if n > 0 {
        lemma_media_spares(services, inside, n - 1);
        let had = media_upto(services, n - 1);
        let name = services[n - 1];
        assert(is_service(name, inside) && is_name(name));
        lemma_service_first(name);
        assert forall|i: int| 0 <= i < now.len() implies spares_identity(#[trigger] now[i]) by {
            if i < had.len() {
                assert(now[i] == had[i]);
            } else if i < had.len() + media_names().len() {
                let m = encode_utf8(media_names()[i - had.len()]);
                assert(now[i] == joined_path(name, m));
                lemma_media_name(i - had.len());
                lemma_two_comps(name, m);
            } else {
                let own = name.skip(4) + encode_utf8("-overlay.qcow2"@);
                reveal_strlit("-overlay.qcow2");
                lemma_plain_name("-overlay.qcow2"@);
                lemma_ascii_bytes("-overlay.qcow2"@);
                assert(is_name(own)) by {
                    assert forall|j: int| 0 <= j < own.len() implies own[j] != crate::path::SLASH by {
                        if j < name.len() - 4 {
                            assert(own[j] == name[j + 4]);
                        } else {
                            assert(own[j] == encode_utf8("-overlay.qcow2"@)[j - (name.len() - 4)]);
                        }
                    }
                }
                assert(own.len() > 1);
                assert(now[i] == joined_path(name, own));
                lemma_two_comps(name, own);
            }
        }
    } else {
        assert forall|i: int| 0 <= i < now.len() implies spares_identity(#[trigger] now[i]) by {
            lemma_media_name(i);
            lemma_one_comp(encode_utf8(media_names()[i]));
        }
    }
}

pub proof fn lemma_slot(v: Seq<TargetView>, p: Seq<u8>, from: int)
    requires
        0 <= from <= v.len(),
    ensures
        from <= slot(v, p, from) <= v.len(),
        forall|i: int| from <= i < slot(v, p, from) ==> path_before((#[trigger] v[i]).path, p),
        slot(v, p, from) < v.len() ==> !path_before(v[slot(v, p, from)].path, p),
    decreases v.len() - from,
{
    if from < v.len() && path_before(v[from].path, p) {
        lemma_slot(v, p, from + 1);
    }
}

/// Every candidate is one that was there, with its category or the new one, or the new one.
proof fn lemma_with_candidate(v: Seq<TargetView>, p: Seq<u8>, c: Category, i: int)
    requires
        0 <= i < with_candidate(v, p, c).len(),
    ensures
        ({
            let t = with_candidate(v, p, c)[i];
            ||| t == TargetView { path: p, category: c }
            ||| v.contains(t)
            ||| t.category == c && same_path(t.path, p) && exists|j: int|
                0 <= j < v.len() && #[trigger] v[j].path == t.path
        }),
{
    let at = slot(v, p, 0);
    lemma_slot(v, p, 0);
    let w = with_candidate(v, p, c);
    if at < v.len() && same_path(v[at].path, p) {
        if i != at {
            assert(v[i] == w[i]);
        } else {
            assert(v[at].path == w[i].path);
        }
    } else if i < at {
        assert(v[i] == w[i]);
    } else if i > at {
        assert(v[i - 1] == w[i]);
    }
}

/// Every candidate spares identity.
spec fn targets_spare(v: Seq<TargetView>) -> bool {
    forall|i: int| 0 <= i < v.len() ==> spares_identity((#[trigger] v[i]).path)
}

proof fn lemma_added_spares(v: Seq<TargetView>, p: Seq<u8>, c: Category)
    requires
        targets_spare(v),
        spares_identity(p),
    ensures
        targets_spare(with_candidate(v, p, c)),
{
    let w = with_candidate(v, p, c);
    assert forall|i: int| 0 <= i < w.len() implies spares_identity((#[trigger] w[i]).path) by {
        lemma_with_candidate(v, p, c, i);
        if w[i] != (TargetView { path: p, category: c }) {
            if v.contains(w[i]) {
                let j = choose|j: int| 0 <= j < v.len() && v[j] == w[i];
                assert(spares_identity(v[j].path));
            } else {
                let j = choose|j: int| 0 <= j < v.len() && #[trigger] v[j].path == w[i].path;
                assert(spares_identity(v[j].path));
            }
        }
    }
}

proof fn lemma_storage_candidates_spare(inside: Seq<Seq<u8>>, n: int)
    requires
        0 <= n <= inside.len(),
        all_spare(inside),
    ensures
        targets_spare(storage_candidates(inside, n)),
    decreases n,
{
    if n > 0 {
        lemma_storage_candidates_spare(inside, n - 1);
        assert(spares_identity(inside[n - 1]));
        lemma_added_spares(storage_candidates(inside, n - 1), inside[n - 1], Category::Storage);
    }
}

proof fn lemma_media_candidates_spare(had: Seq<TargetView>, media: Seq<Seq<u8>>, inside: Seq<Seq<u8>>, n: int)
    requires
        0 <= n <= media.len(),
        targets_spare(had),
        all_spare(media),
    ensures
        targets_spare(media_candidates(had, media, inside, n)),
    decreases n,
{
    if n > 0 {
        lemma_media_candidates_spare(had, media, inside, n - 1);
        assert(spares_identity(media[n - 1]));
        lemma_added_spares(media_candidates(had, media, inside, n - 1), media[n - 1], Category::Images);
    }
}

proof fn lemma_services_are_entries(entries: Seq<Seq<u8>>, inside: Seq<Seq<u8>>, n: int)
    requires
        0 <= n <= entries.len(),
        forall|i: int| 0 <= i < entries.len() ==> is_name(#[trigger] entries[i]),
    ensures
        forall|i: int|
            0 <= i < services_upto(entries, inside, n).len() ==> is_name(#[trigger] services_upto(entries, inside, n)[i]),
    decreases n,
{
    if n > 0 {
        lemma_services_are_entries(entries, inside, n - 1);
        let had = services_upto(entries, inside, n - 1);
        let now = services_upto(entries, inside, n);
        assert(is_name(entries[n - 1]));
        assert forall|i: int| 0 <= i < now.len() implies is_name(#[trigger] now[i]) by {
            if i < had.len() {
                assert(now[i] == had[i]);
            }
        }
    }
}

proof fn lemma_targets_are_candidates(state: Seq<u8>, paths: Seq<TargetView>, kinds: Seq<KindView>, n: int)
    requires
        0 <= n <= paths.len(),
        targets_upto(state, paths, kinds, n) is Ok,
    ensures
        forall|i: int|
            0 <= i < targets_upto(state, paths, kinds, n)->Ok_0.len() ==> paths.contains(
                #[trigger] targets_upto(state, paths, kinds, n)->Ok_0[i],
            ) && stays_inside(targets_upto(state, paths, kinds, n)->Ok_0[i].path),
    decreases n,
{
    if n > 0 {
        lemma_targets_are_candidates(state, paths, kinds, n - 1);
        let had = targets_upto(state, paths, kinds, n - 1)->Ok_0;
        let now = targets_upto(state, paths, kinds, n)->Ok_0;
        assert(paths.contains(paths[n - 1]));
        assert forall|i: int| 0 <= i < now.len() implies paths.contains(#[trigger] now[i]) && stays_inside(
            now[i].path,
        ) by {
            if i < had.len() {
                assert(now[i] == had[i]);
            }
        }
    }
}

proof fn lemma_considered_spare(
    env: EnvView,
    opts: Options,
    canonical: Seq<u8>,
    running: Seq<Seq<u8>>,
    entries: Seq<Seq<u8>>,
)
    requires
        forall|i: int| 0 <= i < entries.len() ==> is_name(#[trigger] entries[i]),
        considered(env, opts, canonical, running, entries) is Ok,
    ensures
        targets_spare(considered(env, opts, canonical, running, entries)->Ok_0.paths),
{
    let b = known_backings(env);
    let s = storage_upto(b, env.state_dir, canonical, b.len() as int)->Ok_0;
    lemma_storage_spares(b, env.state_dir, canonical, b.len() as int);
    let services = services_upto(entries, s.inside, entries.len() as int);
    lemma_services_prefixed(entries, s.inside, entries.len() as int);
    lemma_services_are_entries(entries, s.inside, entries.len() as int);
    lemma_media_spares(services, s.inside, services.len() as int);
    let storage = if opts.takes_storage() {
        storage_candidates(s.inside, s.inside.len() as int)
    } else {
        Seq::empty()
    };
    lemma_storage_candidates_spare(s.inside, s.inside.len() as int);
    let media = media_upto(services, services.len() as int);
    lemma_media_candidates_spare(storage, media, s.inside, media.len() as int);
}

/// Whatever is selected, a prune keeps the environment's identity and control data: every path it
/// removes stays inside the state directory and begins with none of the host's own entries but
/// for those that hold storage, save for the stamp of the creation hook.
pub proof fn law_prune_keeps_identity(
    env: EnvView,
    opts: Options,
    canonical: Seq<u8>,
    running: Seq<Seq<u8>>,
    entries: Seq<Seq<u8>>,
    kinds: Seq<KindView>,
    stamp: KindView,
)
    requires
        forall|i: int| 0 <= i < entries.len() ==> is_name(#[trigger] entries[i]),
    ensures
        considered(env, opts, canonical, running, entries) matches Ok(c) ==> (selected(env, c, kinds, stamp) matches Ok(
            s,
        ) ==> forall|i: int|
            0 <= i < s.targets.len() ==> {
                ||| #[trigger] s.targets[i] == TargetView { path: create_stamp(), category: Category::HookStamp }
                ||| stays_inside(s.targets[i].path) && spares_identity(s.targets[i].path)
            }),
{
    if let Ok(c) = considered(env, opts, canonical, running, entries) {
        lemma_considered_spare(env, opts, canonical, running, entries);
        if let Ok(sel) = selected(env, c, kinds, stamp) {
            let t = targets_upto(env.state_dir, c.paths, kinds, c.paths.len() as int)->Ok_0;
            lemma_targets_are_candidates(env.state_dir, c.paths, kinds, c.paths.len() as int);
            assert forall|i: int| 0 <= i < sel.targets.len() implies {
                ||| #[trigger] sel.targets[i] == TargetView { path: create_stamp(), category: Category::HookStamp }
                ||| stays_inside(sel.targets[i].path) && spares_identity(sel.targets[i].path)
            } by {
                let x = sel.targets[i];
                if x != (TargetView { path: create_stamp(), category: Category::HookStamp }) {
                    let j = if sel.targets.len() == t.len() { i } else { i - 1 };
                    assert(t[j] == x);
                    let q = choose|q: int| 0 <= q < c.paths.len() && c.paths[q] == x;
                    assert(spares_identity(c.paths[q].path));
                }
            }
        }
    }
}

proof fn lemma_bytes_order(a: Seq<u8>, b: Seq<u8>, c: Seq<u8>)
    ensures
        !bytes_before(a, a),
        a != b ==> bytes_before(a, b) || bytes_before(b, a),
        bytes_before(a, b) && bytes_before(b, c) ==> bytes_before(a, c),
    decreases a.len() + b.len() + c.len(),
{
    if a.len() > 0 || b.len() > 0 {
        let x = if a.len() > 0 { a.drop_first() } else { a };
        let y = if b.len() > 0 { b.drop_first() } else { b };
        let z = if c.len() > 0 { c.drop_first() } else { c };
        lemma_bytes_order(x, y, z);
        if a.len() > 0 && b.len() > 0 && a[0] == b[0] && x == y {
            assert(a =~= seq![a[0]] + x);
            assert(b =~= seq![b[0]] + y);
        }
    } else {
        assert(a =~= b);
    }
}

proof fn lemma_comps_order(a: Seq<Seq<u8>>, b: Seq<Seq<u8>>, c: Seq<Seq<u8>>)
    ensures
        !comps_before(a, a),
        a != b ==> comps_before(a, b) || comps_before(b, a),
        comps_before(a, b) && comps_before(b, c) ==> comps_before(a, c),
    decreases a.len() + b.len() + c.len(),
{
    if a.len() > 0 || b.len() > 0 {
        let x = if a.len() > 0 { a.drop_first() } else { a };
        let y = if b.len() > 0 { b.drop_first() } else { b };
        let z = if c.len() > 0 { c.drop_first() } else { c };
        lemma_comps_order(x, y, z);
        if a.len() > 0 && b.len() > 0 {
            if a[0] == b[0] && x == y {
                assert(a =~= seq![a[0]] + x);
                assert(b =~= seq![b[0]] + y);
            }
            if c.len() > 0 {
                lemma_bytes_order(a[0], b[0], c[0]);
                lemma_bytes_order(a[0], c[0], a[0]);
            } else {
                lemma_bytes_order(a[0], b[0], a[0]);
            }
        }
    } else {
        assert(a =~= b);
    }
}

proof fn lemma_path_order(a: Seq<u8>, b: Seq<u8>, c: Seq<u8>)
    ensures
        !path_before(a, a),
        !same_path(a, b) ==> path_before(a, b) || path_before(b, a),
        path_before(a, b) && path_before(b, c) ==> path_before(a, c),
{
    lemma_comps_order(comps(a), comps(b), comps(c));
    if comps(a).len() == 0 && comps(b).len() == 0 {
        assert(comps(a) =~= comps(b));
    }
}

proof fn lemma_under_is_after(b: Seq<Seq<u8>>, base: Seq<Seq<u8>>)
    requires
        base.len() <= b.len(),
        b.take(base.len() as int) == base,
    ensures
        !comps_before(b, base),
    decreases base.len(),
{
    if base.len() > 0 {
        assert(base[0] == b.take(base.len() as int)[0]);
        assert(b.drop_first().take(base.len() - 1) =~= base.drop_first());
        lemma_under_is_after(b.drop_first(), base.drop_first());
    }
}

/// The candidates stand in path order, each path once.
spec fn in_order(v: Seq<TargetView>) -> bool {
    forall|i: int, j: int| 0 <= i < j < v.len() ==> path_before((#[trigger] v[i]).path, (#[trigger] v[j]).path)
}

proof fn lemma_added_in_order(v: Seq<TargetView>, p: Seq<u8>, c: Category)
    requires
        in_order(v),
    ensures
        in_order(with_candidate(v, p, c)),
{
    let at = slot(v, p, 0);
    let w = with_candidate(v, p, c);
    lemma_slot(v, p, 0);
    assert forall|i: int, j: int| 0 <= i < j < w.len() implies path_before(
        (#[trigger] w[i]).path,
        (#[trigger] w[j]).path,
    ) by {
        if at < v.len() && same_path(v[at].path, p) {
            assert(w[i].path == v[i].path && w[j].path == v[j].path);
        } else if j < at {
            assert(w[i] == v[i] && w[j] == v[j]);
        } else if j == at {
            assert(w[i] == v[i]);
        } else {
            assert(w[j] == v[j - 1]);
            if i < at {
                assert(w[i] == v[i]);
            } else if i > at {
                assert(w[i] == v[i - 1]);
            } else {
                lemma_path_order(v[at].path, p, p);
                lemma_path_order(p, v[at].path, v[j - 1].path);
            }
        }
    }
}

proof fn lemma_storage_in_order(inside: Seq<Seq<u8>>, n: int)
    requires
        0 <= n <= inside.len(),
    ensures
        in_order(storage_candidates(inside, n)),
    decreases n,
{
    if n > 0 {
        lemma_storage_in_order(inside, n - 1);
        lemma_added_in_order(storage_candidates(inside, n - 1), inside[n - 1], Category::Storage);
    }
}

proof fn lemma_media_in_order(had: Seq<TargetView>, media: Seq<Seq<u8>>, inside: Seq<Seq<u8>>, n: int)
    requires
        0 <= n <= media.len(),
        in_order(had),
    ensures
        in_order(media_candidates(had, media, inside, n)),
    decreases n,
{
    if n > 0 {
        lemma_media_in_order(had, media, inside, n - 1);
        lemma_added_in_order(media_candidates(had, media, inside, n - 1), media[n - 1], Category::Images);
    }
}

/// No target is another one, or stands under it.
pub open spec fn stand_apart(v: Seq<TargetView>) -> bool {
    forall|i: int, j: int|
        0 <= i < v.len() && 0 <= j < v.len() && i != j ==> !under((#[trigger] v[i]).path, (#[trigger] v[j]).path)
}

/// The targets follow one another as the candidates do, and stand apart.
proof fn lemma_targets_apart(state: Seq<u8>, paths: Seq<TargetView>, kinds: Seq<KindView>, n: int)
    requires
        0 <= n <= paths.len(),
        in_order(paths),
        targets_upto(state, paths, kinds, n) is Ok,
    ensures
        stand_apart(targets_upto(state, paths, kinds, n)->Ok_0),
        forall|i: int|
            0 <= i < targets_upto(state, paths, kinds, n)->Ok_0.len() ==> paths.take(n).contains(
                #[trigger] targets_upto(state, paths, kinds, n)->Ok_0[i],
            ),
    decreases n,
{
    if n > 0 {
        lemma_targets_apart(state, paths, kinds, n - 1);
        let had = targets_upto(state, paths, kinds, n - 1)->Ok_0;
        let now = targets_upto(state, paths, kinds, n)->Ok_0;
        let t = paths[n - 1];
        let before = paths.take(n - 1);
        assert(paths.take(n)[n - 1] == t);
        assert forall|i: int| 0 <= i < now.len() implies paths.take(n).contains(#[trigger] now[i]) by {
            if i < had.len() {
                assert(now[i] == had[i]);
                let q = choose|q: int| 0 <= q < n - 1 && #[trigger] before[q] == had[i];
                assert(paths.take(n)[q] == now[i]);
            }
        }
        assert forall|i: int, j: int| 0 <= i < now.len() && 0 <= j < now.len() && i != j implies !under(
            (#[trigger] now[i]).path,
            (#[trigger] now[j]).path,
        ) by {
            if i < had.len() && j < had.len() {
                assert(now[i] == had[i] && now[j] == had[j]);
            } else if j < had.len() {
                assert(now[j] == had[j]);
            } else {
                assert(now[i] == had[i]);
                let q = choose|q: int| 0 <= q < n - 1 && #[trigger] before[q] == had[i];
                assert(path_before(paths[q].path, paths[n - 1].path));
                if under(now[i].path, t.path) {
                    lemma_under_is_after(comps(now[i].path), comps(t.path));
                }
            }
        }
    }
}

proof fn lemma_stamp()
    ensures
        !is_abs(create_stamp()),
        comps(create_stamp()).len() == 2,
        is_host_entry(comps(create_stamp())[0]),
        !is_storage_dir(comps(create_stamp())[0]),
{
    reveal_strlit("lifecycle");
    reveal_strlit("create");
    reveal_strlit("lifecycle/create");
    reveal_strlit("roots");
    reveal_strlit("overlays");
    reveal_strlit("editor");
    lemma_plain_name("lifecycle"@);
    lemma_plain_name("create"@);
    lemma_ascii_bytes("lifecycle"@);
    lemma_ascii_bytes("create"@);
    lemma_ascii_bytes("lifecycle/create"@);
    lemma_ascii_bytes("roots"@);
    lemma_ascii_bytes("overlays"@);
    lemma_ascii_bytes("editor"@);
    let a = encode_utf8("lifecycle"@);
    let b = encode_utf8("create"@);
    lemma_two_comps(a, b);
    assert(create_stamp() =~= joined_path(a, b));
}

/// No path that a prune removes is another one, or stands under it: nothing is removed twice.
pub proof fn law_targets_stand_apart(
    env: EnvView,
    opts: Options,
    canonical: Seq<u8>,
    running: Seq<Seq<u8>>,
    entries: Seq<Seq<u8>>,
    kinds: Seq<KindView>,
    stamp: KindView,
)
    requires
        forall|i: int| 0 <= i < entries.len() ==> is_name(#[trigger] entries[i]),
    ensures
        considered(env, opts, canonical, running, entries) matches Ok(c) ==> (selected(env, c, kinds, stamp) matches Ok(
            s,
        ) ==> stand_apart(s.targets)),
{
    if let Ok(c) = considered(env, opts, canonical, running, entries) {
        if let Ok(sel) = selected(env, c, kinds, stamp) {
            let b = known_backings(env);
            let s = storage_upto(b, env.state_dir, canonical, b.len() as int)->Ok_0;
            let services = services_upto(entries, s.inside, entries.len() as int);
            let storage = if opts.takes_storage() {
                storage_candidates(s.inside, s.inside.len() as int)
            } else {
                Seq::empty()
            };
            lemma_storage_in_order(s.inside, s.inside.len() as int);
            let media = media_upto(services, services.len() as int);
            lemma_media_in_order(storage, media, s.inside, media.len() as int);
            lemma_considered_spare(env, opts, canonical, running, entries);
            lemma_stamp();
            let t = targets_upto(env.state_dir, c.paths, kinds, c.paths.len() as int)->Ok_0;
            lemma_targets_apart(env.state_dir, c.paths, kinds, c.paths.len() as int);
            assert(c.paths.take(c.paths.len() as int) =~= c.paths);
            assert forall|i: int| 0 <= i < t.len() implies comps((#[trigger] t[i]).path).len() > 0 && comps(t[i].path)[0]
                != comps(create_stamp())[0] by {
                let q = choose|q: int| 0 <= q < c.paths.len() && #[trigger] c.paths[q] == t[i];
                assert(spares_identity(c.paths[q].path));
            }
            assert forall|i: int, j: int|
                0 <= i < sel.targets.len() && 0 <= j < sel.targets.len() && i != j implies !under(
                (#[trigger] sel.targets[i]).path,
                (#[trigger] sel.targets[j]).path,
            ) by {
                let d: int = sel.targets.len() - t.len();
                if i >= d {
                    assert(sel.targets[i] == t[i - d]);
                }
                if j >= d {
                    assert(sel.targets[j] == t[j - d]);
                }
                let x = comps(sel.targets[i].path);
                let y = comps(sel.targets[j].path);
                if (i < d || j < d) && under(sel.targets[i].path, sel.targets[j].path) {
                    assert(x.take(y.len() as int)[0] == y[0]);
                }
            }
        }
    }
}

proof fn lemma_images_only(media: Seq<Seq<u8>>, inside: Seq<Seq<u8>>, n: int)
    requires
        0 <= n <= media.len(),
    ensures
        forall|i: int|
            0 <= i < media_candidates(Seq::empty(), media, inside, n).len() ==> {
                let t = #[trigger] media_candidates(Seq::empty(), media, inside, n)[i];
                t.category == Category::Images && !overlaps_any(t.path, inside)
            },
    decreases n,
{
    if n > 0 {
        lemma_images_only(media, inside, n - 1);
        let had = media_candidates(Seq::empty(), media, inside, n - 1);
        let now = media_candidates(Seq::empty(), media, inside, n);
        if !overlaps_any(media[n - 1], inside) {
            assert forall|i: int| 0 <= i < now.len() implies (#[trigger] now[i]).category == Category::Images
                && !overlaps_any(now[i].path, inside) by {
                lemma_with_candidate(had, media[n - 1], Category::Images, i);
                if now[i] != (TargetView { path: media[n - 1], category: Category::Images }) {
                    if had.contains(now[i]) {
                        let j = choose|j: int| 0 <= j < had.len() && had[j] == now[i];
                        assert(had[j].category == Category::Images);
                    } else {
                        let j = choose|j: int| 0 <= j < had.len() && #[trigger] had[j].path == now[i].path;
                        assert(had[j].category == Category::Images);
                    }
                }
            }
        }
    }
}

/// A prune that was not asked for storage takes images only, and none that overlaps declared
/// storage.
pub proof fn law_images_spare_storage(
    env: EnvView,
    opts: Options,
    canonical: Seq<u8>,
    running: Seq<Seq<u8>>,
    entries: Seq<Seq<u8>>,
)
    requires
        !opts.takes_storage(),
    ensures
        considered(env, opts, canonical, running, entries) matches Ok(c) ==> {
            let b = known_backings(env);
            let inside = storage_upto(b, env.state_dir, canonical, b.len() as int)->Ok_0.inside;
            forall|i: int|
                0 <= i < c.paths.len() ==> (#[trigger] c.paths[i]).category == Category::Images && !overlaps_any(
                    c.paths[i].path,
                    inside,
                )
        },
{
    if let Ok(c) = considered(env, opts, canonical, running, entries) {
        let b = known_backings(env);
        let s = storage_upto(b, env.state_dir, canonical, b.len() as int)->Ok_0;
        let services = services_upto(entries, s.inside, entries.len() as int);
        let media = media_upto(services, services.len() as int);
        lemma_images_only(media, s.inside, media.len() as int);
    }
}

/// Images are taken unless only storage was asked for, and storage only where it was.
pub proof fn law_default_selection(opts: Options)
    ensures
        opts.takes_images() || opts.takes_storage(),
        !opts.storage && !opts.all ==> opts.takes_images() && !opts.takes_storage(),
        opts.all ==> opts.takes_images() && opts.takes_storage(),
        opts.storage ==> opts.takes_storage(),
        opts.images ==> opts.takes_images(),
        opts.storage && !opts.images && !opts.all ==> !opts.takes_images(),
{
}

impl Default for Options {
    fn default() -> (r: Options)
        ensures
            !r.images,
            !r.storage,
            !r.all,
            !r.dry_run,
            !r.yes,
    {
        Options {
            images: false,
            storage: false,
            all: false,
            dry_run: false,
            yes: false,
        }
    }
}

} // verus!
