//! Paths as the bytes a Unix host takes them for, and what can be said of one without asking
//! the filesystem.

use crate::text::put;
use vstd::prelude::*;
use vstd::utf8::decode_utf8;
use vstd::utf8::encode_utf8;
use vstd::utf8::is_char_boundary_iff_not_is_continuation_byte;
use vstd::utf8::is_continuation_byte;
use vstd::utf8::is_leading_byte_width_1;
use vstd::utf8::pop_first_scalar;
use vstd::utf8::valid_utf8;
use vstd::utf8::valid_utf8_concat;
use vstd::utf8::valid_utf8_split;

verus! {

pub const SLASH: u8 = 47;

pub const DOT: u8 = 46;

/// A path on the host: any bytes, as the kernel takes them.
#[derive(Debug)]
pub struct HostPath {
    pub bytes: Vec<u8>,
}

impl DeepView for HostPath {
    type V = Seq<u8>;

    open spec fn deep_view(&self) -> Seq<u8> {
        self.bytes@
    }
}

/// The first separator from `from` on, or the length.
pub open spec fn next_slash(b: Seq<u8>, from: int) -> int
    decreases b.len() - from,
{
    if from < 0 || from >= b.len() {
        b.len() as int
    } else if b[from] == SLASH {
        from
    } else {
        next_slash(b, from + 1)
    }
}

proof fn lemma_next_slash(b: Seq<u8>, from: int)
    requires
        0 <= from <= b.len(),
    ensures
        from <= next_slash(b, from) <= b.len(),
        next_slash(b, from) < b.len() ==> b[next_slash(b, from)] == SLASH,
        forall|j: int| from <= j < next_slash(b, from) ==> b[j] != SLASH,
    decreases b.len() - from,
{
    if from < b.len() && b[from] != SLASH {
        lemma_next_slash(b, from + 1);
    }
}

/// What stands between the separators, empty pieces included, from `from` on.
pub open spec fn raw_from(b: Seq<u8>, from: int) -> Seq<Seq<u8>>
    decreases b.len() - from,
    when 0 <= from <= b.len()
    via raw_from_decreases
{
    let at = next_slash(b, from);
    if at < b.len() {
        seq![b.subrange(from, at)] + raw_from(b, at + 1)
    } else {
        seq![b.subrange(from, at)]
    }
}

#[via_fn]
proof fn raw_from_decreases(b: Seq<u8>, from: int) {
    lemma_next_slash(b, from);
}

pub open spec fn is_abs(b: Seq<u8>) -> bool {
    b.len() > 0 && b[0] == SLASH
}

/// `.`
pub open spec fn dot() -> Seq<u8> {
    seq![DOT]
}

/// `..`
pub open spec fn dot_dot() -> Seq<u8> {
    seq![DOT, DOT]
}

/// The components among the first `n` pieces: an empty piece is none, and `.` is one only
/// where the path begins with it.
pub open spec fn comps_upto(raw: Seq<Seq<u8>>, n: int) -> Seq<Seq<u8>>
    decreases n,
{
    if n <= 0 {
        Seq::empty()
    } else if raw[n - 1].len() == 0 || (raw[n - 1] == dot() && n > 1) {
        comps_upto(raw, n - 1)
    } else {
        comps_upto(raw, n - 1).push(raw[n - 1])
    }
}

/// The components of a path, the root left out.
pub open spec fn comps(b: Seq<u8>) -> Seq<Seq<u8>> {
    comps_upto(raw_from(b, 0), raw_from(b, 0).len() as int)
}

/// The first `n` components with a separator between them.
pub open spec fn slashed(c: Seq<Seq<u8>>, n: int) -> Seq<u8>
    decreases n,
{
    if n <= 0 {
        Seq::empty()
    } else if n == 1 {
        c[0]
    } else {
        slashed(c, n - 1).push(SLASH) + c[n - 1]
    }
}

/// A path written out from its components.
pub open spec fn written(abs: bool, c: Seq<Seq<u8>>) -> Seq<u8> {
    if abs {
        seq![SLASH] + slashed(c, c.len() as int)
    } else {
        slashed(c, c.len() as int)
    }
}

/// The first `n` components with `.` dropped and `..` folded away. A `..` with nothing to
/// fold is kept in a relative path; at the root it is nothing.
pub open spec fn folded(abs: bool, c: Seq<Seq<u8>>, n: int) -> Seq<Seq<u8>>
    decreases n,
{
    if n <= 0 {
        Seq::empty()
    } else {
        let done = folded(abs, c, n - 1);
        if c[n - 1] == dot() {
            done
        } else if c[n - 1] == dot_dot() {
            if done.len() > 0 && done.last() != dot_dot() {
                done.drop_last()
            } else if abs {
                done
            } else {
                done.push(dot_dot())
            }
        } else {
            done.push(c[n - 1])
        }
    }
}

/// The path with `.` and `..` folded.
pub open spec fn normal(b: Seq<u8>) -> Seq<u8> {
    written(is_abs(b), folded(is_abs(b), comps(b), comps(b).len() as int))
}

/// `rel` taken from `base`: `rel` itself where it is absolute.
pub open spec fn joined_path(base: Seq<u8>, rel: Seq<u8>) -> Seq<u8> {
    if is_abs(rel) {
        rel
    } else if base.len() == 0 || base.last() == SLASH {
        base + rel
    } else {
        base.push(SLASH) + rel
    }
}

/// The same path: the same components from the same start.
pub open spec fn same_path(a: Seq<u8>, b: Seq<u8>) -> bool {
    is_abs(a) == is_abs(b) && comps(a) == comps(b)
}

/// `b` is `base` or stands under it.
pub open spec fn under(b: Seq<u8>, base: Seq<u8>) -> bool {
    &&& is_abs(base) ==> is_abs(b)
    &&& !is_abs(base) && comps(base).len() > 0 ==> !is_abs(b)
    &&& comps(base).len() <= comps(b).len()
    &&& comps(b).take(comps(base).len() as int) == comps(base)
}

/// The last byte of a path is no part of it: a separator that is not the root, or `.` behind one.
pub open spec fn ends_spare(b: Seq<u8>) -> bool {
    b.len() > 1 && (b.last() == SLASH || (b.last() == DOT && b[b.len() - 2] == SLASH))
}

/// The path without what is no part of it at its end: separators, and `.` behind one.
pub open spec fn trimmed_path(b: Seq<u8>) -> Seq<u8>
    decreases b.len(),
{
    if ends_spare(b) {
        trimmed_path(b.drop_last())
    } else {
        b
    }
}

/// What a path has before its last component, the separator included.
pub open spec fn before_last(b: Seq<u8>) -> Seq<u8> {
    trimmed_path(b).take(trimmed_path(b).len() - comps(b).last().len())
}

/// Where component `n` of a path begins.
pub open spec fn start_of(b: Seq<u8>, n: int) -> int
    decreases comps(b).len(),
    via start_of_decreases
{
    if comps(b).len() <= n + 1 || comps(b).len() == 0 {
        before_last(b).len() as int
    } else {
        start_of(before_last(b), n)
    }
}

#[via_fn]
proof fn start_of_decreases(b: Seq<u8>, n: int) {
    if comps(b).len() > 0 {
        lemma_before_last(b);
    }
}

/// The rest of `b` past `base`, where it stands under it: its own bytes, from the first component
/// that is left to the last. Past the empty path it is the whole.
pub open spec fn relative_to(b: Seq<u8>, base: Seq<u8>) -> Option<Seq<u8>> {
    if !under(b, base) {
        None
    } else if base.len() == 0 {
        Some(trimmed_path(b))
    } else if comps(base).len() == comps(b).len() {
        Some(Seq::empty())
    } else {
        Some(trimmed_path(b).skip(start_of(b, comps(base).len() as int)))
    }
}

/// The directory a path is in, as its own bytes say it; none for the root and for the empty path.
pub open spec fn parent_of(b: Seq<u8>) -> Option<Seq<u8>> {
    if comps(b).len() == 0 {
        None
    } else {
        Some(trimmed_path(before_last(b)))
    }
}

/// The last component, where it is a name.
pub open spec fn name_of(b: Seq<u8>) -> Option<Seq<u8>> {
    if comps(b).len() == 0 || comps(b).last() == dot() || comps(b).last() == dot_dot() {
        None
    } else {
        Some(comps(b).last())
    }
}

/// What a path reads as for a person: `String::from_utf8_lossy` of its bytes.
pub uninterp spec fn lossy_text(b: Seq<u8>) -> Seq<char>;

/// `String::from_utf8_lossy`: bytes that are UTF-8 are the text they encode. What stands in
/// for the others is a function of the bytes, and is not stated.
#[verifier::external_body]
pub(crate) fn lossy(b: &Vec<u8>) -> (r: String)
    ensures
        r@ == lossy_text(b@),
        valid_utf8(b@) ==> r@ == decode_utf8(b@),
{
    String::from_utf8_lossy(b).into_owned()
}

/// `String::from_utf8`: the text that the bytes encode, and none where they are not UTF-8.
#[verifier::external_body]
pub(crate) fn utf8_text(b: Vec<u8>) -> (r: Option<String>)
    ensures
        r.deep_view() == text_of_bytes(b@),
{
    String::from_utf8(b).ok()
}

/// The text that the bytes encode, where they encode one.
pub open spec fn text_of_bytes(b: Seq<u8>) -> Option<Seq<char>> {
    if valid_utf8(b) {
        Some(decode_utf8(b))
    } else {
        None
    }
}

/// The two byte strings are the same.
pub fn same_bytes(a: &Vec<u8>, b: &Vec<u8>) -> (r: bool)
    ensures
        r == (a@ == b@),
{
    if a.len() != b.len() {
        return false;
    }
    let mut i: usize = 0;
    while i < a.len()
        invariant
            i <= a@.len(),
            a@.len() == b@.len(),
            forall|j: int| 0 <= j < i ==> a@[j] == b@[j],
        decreases a@.len() - i,
    {
        if a[i] != b[i] {
            return false;
        }
        i = i + 1;
    }
    assert(a@ =~= b@);
    true
}

pub fn copy_bytes(a: &Vec<u8>) -> (r: Vec<u8>)
    ensures
        r@ == a@,
        r.deep_view() == a.deep_view(),
{
    let mut out: Vec<u8> = Vec::new();
    let mut i: usize = 0;
    while i < a.len()
        invariant
            i <= a@.len(),
            out@ == a@.take(i as int),
        decreases a@.len() - i,
    {
        assert(a@.take(i + 1) =~= a@.take(i as int).push(a@[i as int]));
        out.push(a[i]);
        i = i + 1;
    }
    assert(out@ =~= a@);
    assert(out.deep_view() =~= a.deep_view());
    out
}

fn bytes_between(b: &Vec<u8>, from: usize, to: usize) -> (r: Vec<u8>)
    requires
        from <= to <= b@.len(),
    ensures
        r@ == b@.subrange(from as int, to as int),
{
    let mut out: Vec<u8> = Vec::new();
    let mut i: usize = from;
    while i < to
        invariant
            from <= i <= to <= b@.len(),
            out@ == b@.subrange(from as int, i as int),
        decreases to - i,
    {
        assert(b@.subrange(from as int, i + 1) =~= b@.subrange(from as int, i as int).push(b@[i as int]));
        out.push(b[i]);
        i = i + 1;
    }
    assert(out@ =~= b@.subrange(from as int, to as int));
    out
}

pub fn append_bytes(a: &mut Vec<u8>, b: &Vec<u8>)
    ensures
        final(a)@ == old(a)@ + b@,
{
    let mut i: usize = 0;
    assert(a@ =~= old(a)@ + b@.take(0));
    while i < b.len()
        invariant
            i <= b@.len(),
            a@ == old(a)@ + b@.take(i as int),
        decreases b@.len() - i,
    {
        a.push(b[i]);
        i = i + 1;
        assert(a@ =~= old(a)@ + b@.take(i as int));
    }
    assert(b@.take(i as int) =~= b@);
}

/// The views of a list of byte strings.
pub open spec fn all_bytes(v: Seq<Vec<u8>>) -> Seq<Seq<u8>> {
    Seq::new(v.len(), |i: int| v[i]@)
}

fn push_piece(v: &mut Vec<Vec<u8>>, x: Vec<u8>)
    ensures
        final(v)@ == old(v)@.push(x),
        all_bytes(final(v)@) == all_bytes(old(v)@).push(x@),
{
    v.push(x);
    assert(all_bytes(v@) =~= all_bytes(old(v)@).push(x@));
}

fn raw_pieces(b: &Vec<u8>) -> (r: Vec<Vec<u8>>)
    ensures
        all_bytes(r@) == raw_from(b@, 0),
{
    let mut out: Vec<Vec<u8>> = Vec::new();
    let mut from: usize = 0;
    assert(all_bytes(out@) + raw_from(b@, 0) =~= raw_from(b@, 0));
    loop
        invariant
            from <= b@.len(),
            all_bytes(out@) + raw_from(b@, from as int) == raw_from(b@, 0),
        decreases b@.len() - from,
    {
        let mut at: usize = from;
        while at < b.len() && b[at] != SLASH
            invariant
                from <= at <= b@.len(),
                next_slash(b@, at as int) == next_slash(b@, from as int),
            decreases b@.len() - at,
        {
            at = at + 1;
        }
        let ghost seen = all_bytes(out@);
        push_piece(&mut out, bytes_between(b, from, at));
        if at == b.len() {
            assert(all_bytes(out@) =~= seen + raw_from(b@, from as int));
            return out;
        }
        assert(all_bytes(out@) + raw_from(b@, at + 1) =~= seen + raw_from(b@, from as int));
        from = at + 1;
    }
}

pub fn is_dot(b: &Vec<u8>) -> (r: bool)
    ensures
        r == (b@ == dot()),
{
    let r = b.len() == 1 && b[0] == DOT;
    assert(r ==> b@ =~= dot());
    r
}

pub fn is_dot_dot(b: &Vec<u8>) -> (r: bool)
    ensures
        r == (b@ == dot_dot()),
{
    let r = b.len() == 2 && b[0] == DOT && b[1] == DOT;
    assert(r ==> b@ =~= dot_dot());
    r
}

/// The path written out from these components.
fn write_path(abs: bool, c: &Vec<Vec<u8>>) -> (r: HostPath)
    ensures
        r.deep_view() == written(abs, all_bytes(c@)),
{
    let mut out: Vec<u8> = Vec::new();
    if abs {
        out.push(SLASH);
    }
    let ghost start = out@;
    let mut i: usize = 0;
    assert(out@ =~= start + slashed(all_bytes(c@), 0));
    while i < c.len()
        invariant
            i <= c@.len(),
            out@ == start + slashed(all_bytes(c@), i as int),
        decreases c@.len() - i,
    {
        let ghost had = slashed(all_bytes(c@), i as int);
        if i > 0 {
            out.push(SLASH);
            assert(out@ =~= start + had.push(SLASH));
        }
        append_bytes(&mut out, &c[i]);
        assert(out@ =~= start + slashed(all_bytes(c@), i + 1));
        i = i + 1;
    }
    assert(abs ==> start =~= seq![SLASH]);
    assert(!abs ==> start + slashed(all_bytes(c@), c@.len() as int) =~= slashed(all_bytes(c@), c@.len() as int));
    HostPath { bytes: out }
}

impl HostPath {
    /// A path given as text.
    pub fn from_text(s: &str) -> (r: HostPath)
        ensures
            r.deep_view() == encode_utf8(s@),
    {
        HostPath { bytes: s.as_bytes_vec() }
    }

    pub fn copy(&self) -> (r: HostPath)
        ensures
            r.deep_view() == self.deep_view(),
    {
        HostPath { bytes: copy_bytes(&self.bytes) }
    }

    /// The path as text, where its bytes are UTF-8.
    pub fn to_str(&self) -> (r: Option<String>)
        ensures
            r.deep_view() == text_of_bytes(self.deep_view()),
    {
        utf8_text(copy_bytes(&self.bytes))
    }

    /// The path as a person reads it.
    pub fn display(&self) -> (r: String)
        ensures
            r@ == lossy_text(self.deep_view()),
            valid_utf8(self.deep_view()) ==> r@ == decode_utf8(self.deep_view()),
    {
        lossy(&self.bytes)
    }

    pub fn is_absolute(&self) -> (r: bool)
        ensures
            r == is_abs(self.deep_view()),
    {
        self.bytes.len() > 0 && self.bytes[0] == SLASH
    }

    /// The components, the root left out.
    pub fn components(&self) -> (r: Vec<Vec<u8>>)
        ensures
            all_bytes(r@) == comps(self.deep_view()),
    {
        let raw = raw_pieces(&self.bytes);
        let mut out: Vec<Vec<u8>> = Vec::new();
        let mut i: usize = 0;
        assert(all_bytes(out@) =~= comps_upto(all_bytes(raw@), 0));
        while i < raw.len()
            invariant
                i <= raw@.len(),
                all_bytes(out@) == comps_upto(all_bytes(raw@), i as int),
            decreases raw@.len() - i,
        {
            if raw[i].len() == 0 || (is_dot(&raw[i]) && i > 0) {
            } else {
                push_piece(&mut out, copy_bytes(&raw[i]));
            }
            i = i + 1;
        }
        out
    }

    /// The path with `.` and `..` folded without touching the filesystem.
    pub fn lexical_normalize(&self) -> (r: HostPath)
        ensures
            r.deep_view() == normal(self.deep_view()),
    {
        let abs = self.is_absolute();
        let c = self.components();
        let mut out: Vec<Vec<u8>> = Vec::new();
        let mut i: usize = 0;
        assert(all_bytes(out@) =~= folded(abs, all_bytes(c@), 0));
        while i < c.len()
            invariant
                i <= c@.len(),
                all_bytes(out@) == folded(abs, all_bytes(c@), i as int),
            decreases c@.len() - i,
        {
            if is_dot(&c[i]) {
            } else if is_dot_dot(&c[i]) {
                if out.len() > 0 && !is_dot_dot(&out[out.len() - 1]) {
                    let ghost had = all_bytes(out@);
                    let _ = out.pop();
                    assert(all_bytes(out@) =~= had.drop_last());
                } else if !abs {
                    push_piece(&mut out, copy_bytes(&c[i]));
                }
            } else {
                push_piece(&mut out, copy_bytes(&c[i]));
            }
            i = i + 1;
        }
        write_path(abs, &out)
    }

    /// `rel` taken from this path.
    pub fn join(&self, rel: &HostPath) -> (r: HostPath)
        ensures
            r.deep_view() == joined_path(self.deep_view(), rel.deep_view()),
    {
        if rel.is_absolute() {
            return rel.copy();
        }
        let mut out = copy_bytes(&self.bytes);
        if out.len() > 0 && out[out.len() - 1] != SLASH {
            out.push(SLASH);
        }
        append_bytes(&mut out, &rel.bytes);
        HostPath { bytes: out }
    }

    /// A path given as text, taken from this path.
    pub fn join_text(&self, rel: &str) -> (r: HostPath)
        ensures
            r.deep_view() == joined_path(self.deep_view(), encode_utf8(rel@)),
    {
        self.join(&HostPath::from_text(rel))
    }

    /// The same path, whatever way it is written.
    #[verifier::loop_isolation(false)]
    pub fn is_same(&self, other: &HostPath) -> (r: bool)
        ensures
            r == same_path(self.deep_view(), other.deep_view()),
    {
        let a = self.components();
        let b = other.components();
        assert(a@.len() == all_bytes(a@).len() && b@.len() == all_bytes(b@).len());
        if self.is_absolute() != other.is_absolute() || a.len() != b.len() {
            return false;
        }
        let mut i: usize = 0;
        while i < a.len()
            invariant
                i <= a@.len(),
                a@.len() == b@.len(),
                forall|j: int| 0 <= j < i ==> a@[j]@ == b@[j]@,
            decreases a@.len() - i,
        {
            if !same_bytes(&a[i], &b[i]) {
                assert(all_bytes(a@)[i as int] != all_bytes(b@)[i as int]);
                return false;
            }
            i = i + 1;
        }
        assert(all_bytes(a@) =~= all_bytes(b@));
        true
    }

    /// This path is `base` or stands under it.
    #[verifier::loop_isolation(false)]
    pub fn starts_with(&self, base: &HostPath) -> (r: bool)
        ensures
            r == under(self.deep_view(), base.deep_view()),
    {
        let a = self.components();
        let b = base.components();
        if base.is_absolute() && !self.is_absolute() {
            return false;
        }
        if !base.is_absolute() && b.len() > 0 && self.is_absolute() {
            return false;
        }
        if b.len() > a.len() {
            return false;
        }
        let mut i: usize = 0;
        while i < b.len()
            invariant
                i <= b@.len() <= a@.len(),
                forall|j: int| 0 <= j < i ==> a@[j]@ == b@[j]@,
            decreases b@.len() - i,
        {
            if !same_bytes(&a[i], &b[i]) {
                assert(all_bytes(a@).take(b@.len() as int)[i as int] != all_bytes(b@)[i as int]);
                return false;
            }
            i = i + 1;
        }
        assert(all_bytes(a@).take(b@.len() as int) =~= all_bytes(b@));
        true
    }

    /// The rest of this path past `base`, where it stands under it.
    pub fn strip_prefix(&self, base: &HostPath) -> (r: Option<HostPath>)
        ensures
            r.deep_view() == relative_to(self.deep_view(), base.deep_view()),
    {
        if !self.starts_with(base) {
            return None;
        }
        let all = self.bytes.len();
        let ghost whole = self.bytes@;
        assert(whole.take(all as int) =~= whole);
        let to: usize = self.end_within(all);
        if base.bytes.len() == 0 {
            return Some(HostPath { bytes: bytes_between(&self.bytes, 0, to) });
        }
        let a = self.components();
        let b = base.components();
        let ghost n = comps(base.deep_view()).len() as int;
        assert(a@.len() == all_bytes(a@).len() && b@.len() == all_bytes(b@).len());
        if a.len() == b.len() {
            return Some(HostPath { bytes: Vec::new() });
        }
        let mut m: usize = a.len();
        let mut end: usize = to;
        let mut from: usize = all;
        let ghost c = all_bytes(a@);
        assert(c.take(m as int) =~= c);
        while m > b.len()
            invariant
                n == b@.len(),
                to <= whole.len(),
                whole.take(to as int) == trimmed_path(whole),
                n <= m <= a@.len(),
                whole == self.bytes@,
                c == all_bytes(a@),
                end <= from <= whole.len(),
                comps(whole.take(from as int)) == c.take(m as int),
                whole.take(end as int) == trimmed_path(whole.take(from as int)),
                m > n ==> start_of(whole.take(from as int), n) == start_of(whole, n),
                m == n ==> from == start_of(whole, n),
            decreases m,
        {
            let ghost part = whole.take(from as int);
            let ghost stop = from as int;
            assert(comps(part).last() == c[m - 1]);
            assert(c[m - 1] == a@[m - 1]@);
            proof {
                lemma_before_last(part);
            }
            from = end - a[m - 1].len();
            assert(whole.take(from as int) =~= before_last(part)) by {
                assert(whole.take(end as int).take(from as int) =~= whole.take(from as int));
            }
            m = m - 1;
            assert(c.take(m + 1).drop_last() =~= c.take(m as int));
            end = self.end_within(from);
        }
        proof {
            lemma_some_component(base.deep_view());
            lemma_start_of(whole, n);
            assert(whole.subrange(from as int, to as int) =~= whole.take(to as int).skip(from as int));
        }
        Some(HostPath { bytes: bytes_between(&self.bytes, from, to) })
    }

    /// Where what stands before `end` ends, without what is no part of a path at its end.
    fn end_within(&self, end: usize) -> (r: usize)
        requires
            end <= self.bytes@.len(),
        ensures
            r <= end,
            self.bytes@.take(r as int) == trimmed_path(self.bytes@.take(end as int)),
    {
        let ghost b = self.bytes@;
        let mut r: usize = end;
        while r > 1 && (self.bytes[r - 1] == SLASH || (self.bytes[r - 1] == DOT && self.bytes[r - 2] == SLASH))
            invariant
                b == self.bytes@,
                r <= end <= b.len(),
                trimmed_path(b.take(r as int)) == trimmed_path(b.take(end as int)),
            decreases r,
        {
            assert(b.take(r as int).drop_last() =~= b.take(r - 1));
            r = r - 1;
        }
        r
    }

    /// The directory this path is in.
    pub fn parent(&self) -> (r: Option<HostPath>)
        ensures
            r.deep_view() == parent_of(self.deep_view()),
    {
        let c = self.components();
        assert(c@.len() == all_bytes(c@).len());
        if c.len() == 0 {
            return None;
        }
        let ghost b = self.bytes@;
        let all = self.bytes.len();
        assert(b.take(all as int) =~= b);
        assert(comps(b).last() == c@.last()@);
        proof {
            lemma_before_last(b);
        }
        let from: usize = self.end_within(all) - c[c.len() - 1].len();
        assert(b.take(from as int) =~= before_last(b));
        let end: usize = self.end_within(from);
        assert(b.subrange(0, end as int) =~= b.take(end as int));
        Some(HostPath { bytes: bytes_between(&self.bytes, 0, end) })
    }

    /// The last component, where it is a name.
    pub fn file_name(&self) -> (r: Option<Vec<u8>>)
        ensures
            match r {
                Some(n) => name_of(self.deep_view()) == Some(n@),
                None => name_of(self.deep_view()) is None,
            },
    {
        let c = self.components();
        assert(c@.len() == all_bytes(c@).len());
        if c.len() == 0 {
            return None;
        }
        assert(all_bytes(c@).last() == c@.last()@);
        if is_dot(&c[c.len() - 1]) || is_dot_dot(&c[c.len() - 1]) {
            return None;
        }
        Some(copy_bytes(&c[c.len() - 1]))
    }
}

/// `path` with `.` and `..` folded without touching the filesystem: a `..` that cannot be
/// folded away is kept, except at `/`, whose parent is itself.
pub fn lexical_normalize(path: &HostPath) -> (r: HostPath)
    ensures
        r.deep_view() == normal(path.deep_view()),
{
    path.lexical_normalize()
}

/// `base/rel`, folded by [`lexical_normalize`].
pub fn lexical_join(base: &HostPath, rel: &HostPath) -> (r: HostPath)
    ensures
        r.deep_view() == normal(joined_path(base.deep_view(), rel.deep_view())),
{
    base.join(rel).lexical_normalize()
}

proof fn lemma_next_slash_is(b: Seq<u8>, from: int, at: int)
    requires
        0 <= from <= at <= b.len(),
        at < b.len() ==> b[at] == SLASH,
        forall|j: int| from <= j < at ==> b[j] != SLASH,
    ensures
        next_slash(b, from) == at,
    decreases at - from,
{
    if from < at {
        lemma_next_slash_is(b, from + 1, at);
    }
}

/// The piece holds no separator.
pub open spec fn slash_free(c: Seq<u8>) -> bool {
    forall|i: int| 0 <= i < c.len() ==> c[i] != SLASH
}

/// Every piece is one a path can have between two separators.
pub open spec fn are_names(c: Seq<Seq<u8>>) -> bool {
    forall|i: int| 0 <= i < c.len() ==> (#[trigger] c[i]).len() > 0 && slash_free(c[i])
}

proof fn lemma_raw_snoc(a: Seq<u8>, y: Seq<u8>, from: int)
    requires
        0 <= from <= a.len(),
        slash_free(y),
    ensures
        raw_from(a.push(SLASH) + y, from) == raw_from(a, from).push(y),
    decreases a.len() - from,
{
    let b = a.push(SLASH) + y;
    let at = next_slash(a, from);
    lemma_next_slash(a, from);
    assert forall|j: int| from <= j < at implies b[j] != SLASH by {
        assert(b[j] == a[j]);
    }
    lemma_next_slash_is(b, from, at);
    assert(b.subrange(from, at) =~= a.subrange(from, at));
    if at < a.len() {
        lemma_raw_snoc(a, y, at + 1);
        assert(raw_from(b, from) =~= raw_from(a, from).push(y));
    } else {
        assert forall|j: int| a.len() + 1 <= j < b.len() implies b[j] != SLASH by {
            assert(b[j] == y[j - a.len() - 1]);
        }
        lemma_next_slash_is(b, a.len() as int + 1, b.len() as int);
        assert(b.subrange(a.len() as int + 1, b.len() as int) =~= y);
        assert(raw_from(b, a.len() as int + 1) =~= seq![y]);
        assert(raw_from(b, from) =~= raw_from(a, from).push(y));
    }
}

proof fn lemma_raw_shift(s: Seq<u8>, from: int)
    requires
        0 <= from <= s.len(),
    ensures
        raw_from(seq![SLASH] + s, from + 1) == raw_from(s, from),
    decreases s.len() - from,
{
    let b = seq![SLASH] + s;
    let at = next_slash(s, from);
    lemma_next_slash(s, from);
    assert forall|j: int| from + 1 <= j < at + 1 implies b[j] != SLASH by {
        assert(b[j] == s[j - 1]);
    }
    lemma_next_slash_is(b, from + 1, at + 1);
    assert(b.subrange(from + 1, at + 1) =~= s.subrange(from, at));
    if at < s.len() {
        lemma_raw_shift(s, at + 1);
    }
    assert(raw_from(b, from + 1) =~= raw_from(s, from));
}

proof fn lemma_raw_slashed(c: Seq<Seq<u8>>, n: int)
    requires
        are_names(c),
        1 <= n <= c.len(),
    ensures
        raw_from(slashed(c, n), 0) == c.take(n),
    decreases n,
{
    assert(c[n - 1].len() > 0 && slash_free(c[n - 1]));
    if n == 1 {
        lemma_next_slash_is(c[0], 0, c[0].len() as int);
        assert(c[0].subrange(0, c[0].len() as int) =~= c[0]);
        assert(raw_from(c[0], 0) =~= c.take(1));
    } else {
        lemma_raw_slashed(c, n - 1);
        lemma_raw_snoc(slashed(c, n - 1), c[n - 1], 0);
        assert(c.take(n) =~= c.take(n - 1).push(c[n - 1]));
    }
}

proof fn lemma_comps_plain(raw: Seq<Seq<u8>>, n: int)
    requires
        0 <= n <= raw.len(),
        forall|i: int| 0 <= i < n ==> (#[trigger] raw[i]).len() > 0 && (i > 0 ==> raw[i] != dot()),
    ensures
        comps_upto(raw, n) == raw.take(n),
    decreases n,
{
    if n > 0 {
        lemma_comps_plain(raw, n - 1);
        assert(raw.take(n) =~= raw.take(n - 1).push(raw[n - 1]));
    } else {
        assert(raw.take(0) =~= Seq::empty());
    }
}

proof fn lemma_comps_rooted(raw: Seq<Seq<u8>>, c: Seq<Seq<u8>>, n: int)
    requires
        0 <= n <= c.len(),
        raw == seq![Seq::<u8>::empty()] + c,
        forall|i: int| 0 <= i < n ==> (#[trigger] c[i]).len() > 0 && c[i] != dot(),
    ensures
        comps_upto(raw, n + 1) == c.take(n),
    decreases n,
{
    if n > 0 {
        lemma_comps_rooted(raw, c, n - 1);
        assert(raw[n] == c[n - 1]);
        assert(c.take(n) =~= c.take(n - 1).push(c[n - 1]));
    } else {
        assert(raw[0] == Seq::<u8>::empty());
        reveal_with_fuel(comps_upto, 2);
        assert(c.take(0) =~= Seq::empty());
    }
}

/// A path written out from its components reads back as those components.
pub proof fn lemma_written_reads_back(abs: bool, c: Seq<Seq<u8>>)
    requires
        are_names(c),
        forall|i: int| 0 <= i < c.len() ==> #[trigger] c[i] == dot() ==> i == 0 && !abs,
    ensures
        is_abs(written(abs, c)) == abs,
        comps(written(abs, c)) == c,
{
    let n = c.len() as int;
    let s = slashed(c, n);
    if n == 0 {
        assert(s =~= Seq::<u8>::empty());
        lemma_next_slash_is(s, 0, 0);
        assert(s.subrange(0, 0) =~= Seq::<u8>::empty());
        assert(raw_from(s, 0) =~= seq![Seq::<u8>::empty()]);
    } else {
        lemma_raw_slashed(c, n);
        assert(c.take(n) =~= c);
        lemma_first_of_slashed(c, n);
        assert(c[0].len() > 0 && slash_free(c[0]));
    }
    if abs {
        let b = seq![SLASH] + s;
        lemma_raw_shift(s, 0);
        lemma_next_slash_is(b, 0, 0);
        assert(b.subrange(0, 0) =~= Seq::<u8>::empty());
        assert(raw_from(b, 0) =~= seq![Seq::<u8>::empty()] + raw_from(s, 0));
        if n == 0 {
            let raw = raw_from(b, 0);
            assert(raw[0].len() == 0 && raw[1].len() == 0);
            reveal_with_fuel(comps_upto, 3);
            assert(comps(b) =~= c);
        } else {
            lemma_comps_rooted(raw_from(b, 0), c, n);
        }
    } else if n == 0 {
        let raw = raw_from(s, 0);
        assert(raw[0].len() == 0);
        reveal_with_fuel(comps_upto, 2);
        assert(comps(s) =~= c);
    } else {
        lemma_comps_plain(c, n);
    }
}

proof fn lemma_first_of_slashed(c: Seq<Seq<u8>>, n: int)
    requires
        1 <= n <= c.len(),
        c[0].len() > 0,
    ensures
        slashed(c, n).len() > 0,
        slashed(c, n)[0] == c[0][0],
    decreases n,
{
    if n > 1 {
        lemma_first_of_slashed(c, n - 1);
    }
}

proof fn lemma_raw_free(b: Seq<u8>, from: int)
    requires
        0 <= from <= b.len(),
    ensures
        forall|i: int| 0 <= i < raw_from(b, from).len() ==> slash_free(#[trigger] raw_from(b, from)[i]),
    decreases b.len() - from,
{
    lemma_next_slash(b, from);
    let at = next_slash(b, from);
    if at < b.len() {
        lemma_raw_free(b, at + 1);
    }
    assert forall|i: int| 0 <= i < raw_from(b, from).len() implies slash_free(#[trigger] raw_from(b, from)[i]) by {
        if i > 0 {
            assert(raw_from(b, from)[i] == raw_from(b, at + 1)[i - 1]);
        }
    }
}

proof fn lemma_comps_names(raw: Seq<Seq<u8>>, n: int)
    requires
        0 <= n <= raw.len(),
        forall|i: int| 0 <= i < raw.len() ==> slash_free(#[trigger] raw[i]),
    ensures
        are_names(comps_upto(raw, n)),
    decreases n,
{
    if n > 0 {
        lemma_comps_names(raw, n - 1);
        assert(slash_free(raw[n - 1]));
    }
}

/// The components of any path are names.
pub proof fn lemma_comps_are_names(b: Seq<u8>)
    ensures
        are_names(comps(b)),
{
    lemma_raw_free(b, 0);
    lemma_comps_names(raw_from(b, 0), raw_from(b, 0).len() as int);
}

/// Components with nothing left to fold: no `.`, and `..` only at the start of a relative
/// path.
pub open spec fn is_folded(abs: bool, c: Seq<Seq<u8>>) -> bool {
    forall|i: int|
        0 <= i < c.len() ==> {
            &&& #[trigger] c[i] != dot()
            &&& c[i] == dot_dot() ==> !abs && forall|j: int| 0 <= j < i ==> c[j] == dot_dot()
        }
}

proof fn lemma_folded(abs: bool, c: Seq<Seq<u8>>, n: int)
    requires
        0 <= n <= c.len(),
        are_names(c),
    ensures
        is_folded(abs, folded(abs, c, n)),
        are_names(folded(abs, c, n)),
    decreases n,
{
    if n > 0 {
        lemma_folded(abs, c, n - 1);
        let done = folded(abs, c, n - 1);
        assert(c[n - 1].len() > 0 && slash_free(c[n - 1]));
        assert(dot_dot().len() == 2 && slash_free(dot_dot()));
        let now = folded(abs, c, n);
        assert(dot() != dot_dot()) by {
            assert(dot().len() == 1);
        }
        assert forall|i: int| 0 <= i < now.len() implies {
            &&& #[trigger] now[i] != dot()
            &&& now[i] == dot_dot() ==> !abs && forall|j: int| 0 <= j < i ==> now[j] == dot_dot()
        } by {
            if i < done.len() {
                assert(now[i] == done[i]);
                if now[i] == dot_dot() {
                    assert(forall|j: int| 0 <= j < i ==> now[j] == done[j]);
                }
            } else if now[i] == dot_dot() {
                assert forall|j: int| 0 <= j < i implies now[j] == dot_dot() by {
                    assert(now[j] == done[j]);
                    let last = done.len() - 1;
                    assert(done[last] == dot_dot());
                    if j < last {
                        assert(done[j] == dot_dot());
                    }
                }
            }
        }
        assert forall|i: int| 0 <= i < now.len() implies (#[trigger] now[i]).len() > 0 && slash_free(now[i]) by {
            if i < done.len() {
                assert(now[i] == done[i]);
            }
        }
    }
}

proof fn lemma_folded_stays(abs: bool, c: Seq<Seq<u8>>, n: int)
    requires
        0 <= n <= c.len(),
        is_folded(abs, c),
    ensures
        folded(abs, c, n) == c.take(n),
    decreases n,
{
    if n > 0 {
        lemma_folded_stays(abs, c, n - 1);
        assert(c.take(n) =~= c.take(n - 1).push(c[n - 1]));
        let done = c.take(n - 1);
        if c[n - 1] == dot_dot() && done.len() > 0 {
            assert(done.last() == c[n - 2]);
        }
    } else {
        assert(c.take(0) =~= Seq::empty());
    }
}

/// Folding leaves no `.`, and `..` only at the start of a relative path; it keeps an absolute
/// path absolute and a relative one relative.
pub proof fn law_normal_is_folded(b: Seq<u8>)
    ensures
        is_abs(normal(b)) == is_abs(b),
        is_folded(is_abs(b), comps(normal(b))),
{
    lemma_comps_are_names(b);
    let c = comps(b);
    lemma_folded(is_abs(b), c, c.len() as int);
    lemma_written_reads_back(is_abs(b), folded(is_abs(b), c, c.len() as int));
}

/// Folding a folded path changes nothing.
pub proof fn law_normal_idempotent(b: Seq<u8>)
    ensures
        normal(normal(b)) == normal(b),
{
    lemma_comps_are_names(b);
    let c = comps(b);
    let f = folded(is_abs(b), c, c.len() as int);
    lemma_folded(is_abs(b), c, c.len() as int);
    lemma_written_reads_back(is_abs(b), f);
    lemma_folded_stays(is_abs(b), f, f.len() as int);
    assert(f.take(f.len() as int) =~= f);
}

/// What one piece does to the components folded so far.
spec fn stepped(abs: bool, done: Seq<Seq<u8>>, piece: Seq<u8>) -> Seq<Seq<u8>> {
    if piece.len() == 0 || piece == dot() {
        done
    } else if piece == dot_dot() {
        if done.len() > 0 && done.last() != dot_dot() {
            done.drop_last()
        } else if abs {
            done
        } else {
            done.push(dot_dot())
        }
    } else {
        done.push(piece)
    }
}

/// What the first `n` pieces do to the components folded so far.
spec fn walked(abs: bool, done: Seq<Seq<u8>>, raw: Seq<Seq<u8>>, n: int) -> Seq<Seq<u8>>
    decreases n,
{
    if n <= 0 {
        done
    } else {
        stepped(abs, walked(abs, done, raw, n - 1), raw[n - 1])
    }
}

proof fn lemma_walked_folds(abs: bool, raw: Seq<Seq<u8>>, n: int)
    requires
        0 <= n <= raw.len(),
    ensures
        folded(abs, comps_upto(raw, n), comps_upto(raw, n).len() as int) == walked(abs, Seq::empty(), raw, n),
    decreases n,
{
    if n > 0 {
        lemma_walked_folds(abs, raw, n - 1);
        let c = comps_upto(raw, n - 1);
        let d = comps_upto(raw, n);
        if d.len() > c.len() {
            lemma_folded_prefix(abs, d, c, c.len() as int);
        }
    }
}

proof fn lemma_folded_prefix(abs: bool, d: Seq<Seq<u8>>, c: Seq<Seq<u8>>, n: int)
    requires
        n <= c.len() <= d.len(),
        forall|i: int| 0 <= i < c.len() ==> d[i] == c[i],
    ensures
        folded(abs, d, n) == folded(abs, c, n),
    decreases n,
{
    if n > 0 {
        lemma_folded_prefix(abs, d, c, n - 1);
    }
}

proof fn lemma_walked_on(abs: bool, done: Seq<Seq<u8>>, x: Seq<Seq<u8>>, y: Seq<Seq<u8>>, n: int)
    requires
        0 <= n <= y.len(),
    ensures
        walked(abs, done, x + y, x.len() + n) == walked(abs, walked(abs, done, x, x.len() as int), y, n),
    decreases n,
{
    if n > 0 {
        lemma_walked_on(abs, done, x, y, n - 1);
        assert((x + y)[x.len() + n - 1] == y[n - 1]);
    } else {
        lemma_walked_prefix(abs, done, x + y, x, x.len() as int);
    }
}

proof fn lemma_walked_prefix(abs: bool, done: Seq<Seq<u8>>, z: Seq<Seq<u8>>, x: Seq<Seq<u8>>, n: int)
    requires
        n <= x.len() <= z.len(),
        forall|i: int| 0 <= i < x.len() ==> z[i] == x[i],
    ensures
        walked(abs, done, z, n) == walked(abs, done, x, n),
    decreases n,
{
    if n > 0 {
        lemma_walked_prefix(abs, done, z, x, n - 1);
    }
}

proof fn lemma_raw_behind(a: Seq<u8>, y: Seq<u8>, from: int)
    requires
        0 <= from <= y.len(),
    ensures
        raw_from(a.push(SLASH) + y, a.len() + 1 + from) == raw_from(y, from),
    decreases y.len() - from,
{
    let b = a.push(SLASH) + y;
    let k = a.len() as int + 1;
    let at = next_slash(y, from);
    lemma_next_slash(y, from);
    assert forall|j: int| k + from <= j < k + at implies b[j] != SLASH by {
        assert(b[j] == y[j - k]);
    }
    if at < y.len() {
        assert(b[k + at] == y[at]);
    }
    lemma_next_slash_is(b, k + from, k + at);
    assert(b.subrange(k + from, k + at) =~= y.subrange(from, at));
    if at < y.len() {
        lemma_raw_behind(a, y, at + 1);
    }
    assert(raw_from(b, k + from) =~= raw_from(y, from));
}

proof fn lemma_raw_both(a: Seq<u8>, y: Seq<u8>, from: int)
    requires
        0 <= from <= a.len(),
    ensures
        raw_from(a.push(SLASH) + y, from) == raw_from(a, from) + raw_from(y, 0),
    decreases a.len() - from,
{
    let b = a.push(SLASH) + y;
    let at = next_slash(a, from);
    lemma_next_slash(a, from);
    assert forall|j: int| from <= j < at implies b[j] != SLASH by {
        assert(b[j] == a[j]);
    }
    lemma_next_slash_is(b, from, at);
    assert(b.subrange(from, at) =~= a.subrange(from, at));
    if at < a.len() {
        lemma_raw_both(a, y, at + 1);
    } else {
        lemma_raw_behind(a, y, 0);
    }
    assert(raw_from(b, from) =~= raw_from(a, from) + raw_from(y, 0));
}

/// The components a path folds to, walked from others on.
spec fn walked_from(abs: bool, done: Seq<Seq<u8>>, b: Seq<u8>) -> Seq<Seq<u8>> {
    walked(abs, done, raw_from(b, 0), raw_from(b, 0).len() as int)
}

proof fn lemma_walked_joined(abs: bool, done: Seq<Seq<u8>>, x: Seq<u8>, y: Seq<u8>)
    requires
        !is_abs(y),
    ensures
        walked_from(abs, done, joined_path(x, y)) == walked_from(abs, walked_from(abs, done, x), y),
{
    let none = Seq::<u8>::empty();
    lemma_next_slash_is(none, 0, 0);
    assert(none.subrange(0, 0) =~= none);
    assert(raw_from(none, 0) =~= seq![none]);
    reveal_with_fuel(walked, 2);
    if x.len() == 0 {
        assert(x =~= none);
        assert(x + y =~= y);
        assert(walked_from(abs, done, x) == done);
    } else if x.last() == SLASH {
        let a = x.drop_last();
        assert(x =~= a.push(SLASH) + none);
        assert(x + y =~= a.push(SLASH) + y);
        lemma_raw_both(a, none, 0);
        lemma_raw_both(a, y, 0);
        lemma_walked_on(abs, done, raw_from(a, 0), seq![none], 1);
        lemma_walked_on(abs, done, raw_from(a, 0), raw_from(y, 0), raw_from(y, 0).len() as int);
    } else {
        lemma_raw_both(x, y, 0);
        lemma_walked_on(abs, done, raw_from(x, 0), raw_from(y, 0), raw_from(y, 0).len() as int);
    }
}

/// Joining two relative paths in turn is joining their join, and an absolute path is taken for
/// itself.
pub proof fn law_join_in_turn(base: Seq<u8>, r: Seq<u8>, s: Seq<u8>)
    requires
        is_abs(base),
    ensures
        is_abs(r) ==> normal(joined_path(base, r)) == normal(r),
        !is_abs(r) && !is_abs(s) ==> normal(joined_path(normal(joined_path(base, r)), s)) == normal(
            joined_path(base, joined_path(r, s)),
        ),
{
    if !is_abs(r) && !is_abs(s) {
        let none = Seq::<Seq<u8>>::empty();
        let first = joined_path(base, r);
        let m = normal(first);
        let f = folded(true, comps(first), comps(first).len() as int);
        assert(is_abs(first));
        lemma_walked_folds(true, raw_from(first, 0), raw_from(first, 0).len() as int);
        assert(f == walked_from(true, none, first));
        law_normal_is_folded(first);
        lemma_comps_are_names(first);
        lemma_folded(true, comps(first), comps(first).len() as int);
        lemma_written_reads_back(true, f);
        lemma_folded_stays(true, f, f.len() as int);
        assert(f.take(f.len() as int) =~= f);
        lemma_walked_folds(true, raw_from(m, 0), raw_from(m, 0).len() as int);
        assert(walked_from(true, none, m) == f);
        let left = joined_path(m, s);
        let right = joined_path(base, joined_path(r, s));
        assert(is_abs(left));
        assert(!is_abs(joined_path(r, s)));
        assert(is_abs(right));
        lemma_walked_joined(true, none, m, s);
        lemma_walked_joined(true, none, base, r);
        lemma_walked_joined(true, none, base, joined_path(r, s));
        lemma_walked_joined(true, walked_from(true, none, base), r, s);
        lemma_walked_folds(true, raw_from(left, 0), raw_from(left, 0).len() as int);
        lemma_walked_folds(true, raw_from(right, 0), raw_from(right, 0).len() as int);
    }
}

proof fn lemma_raw_utf8(b: Seq<u8>, from: int)
    requires
        0 <= from <= b.len(),
        valid_utf8(b.subrange(from, b.len() as int)),
    ensures
        forall|i: int| 0 <= i < raw_from(b, from).len() ==> valid_utf8(#[trigger] raw_from(b, from)[i]),
    decreases b.len() - from,
{
    lemma_next_slash(b, from);
    let at = next_slash(b, from);
    let rest = b.subrange(from, b.len() as int);
    if at < b.len() {
        assert(rest[at - from] == SLASH);
        assert(!is_continuation_byte(rest[at - from]));
        is_char_boundary_iff_not_is_continuation_byte(rest, at - from);
        valid_utf8_split(rest, at - from);
        let tail = rest.subrange(at - from, rest.len() as int);
        assert(tail[0] == SLASH);
        assert(is_leading_byte_width_1(tail[0]));
        assert(pop_first_scalar(tail) =~= b.subrange(at + 1, b.len() as int));
        assert(valid_utf8(pop_first_scalar(tail)));
        lemma_raw_utf8(b, at + 1);
        assert(rest.subrange(0, at - from) =~= b.subrange(from, at));
    }
    assert forall|i: int| 0 <= i < raw_from(b, from).len() implies valid_utf8(#[trigger] raw_from(b, from)[i]) by {
        if i > 0 {
            assert(raw_from(b, from)[i] == raw_from(b, at + 1)[i - 1]);
        }
    }
}

spec fn all_utf8(c: Seq<Seq<u8>>) -> bool {
    forall|i: int| 0 <= i < c.len() ==> valid_utf8(#[trigger] c[i])
}

proof fn lemma_comps_utf8(raw: Seq<Seq<u8>>, n: int)
    requires
        0 <= n <= raw.len(),
        all_utf8(raw),
    ensures
        all_utf8(comps_upto(raw, n)),
    decreases n,
{
    if n > 0 {
        lemma_comps_utf8(raw, n - 1);
    }
}

proof fn lemma_ascii_utf8(b: u8)
    requires
        b < 128,
    ensures
        valid_utf8(seq![b]),
        valid_utf8(Seq::<u8>::empty()),
{
    let s = seq![b];
    assert(is_leading_byte_width_1(s[0]));
    assert((b & 0x7f) < 128) by (bit_vector);
    assert(pop_first_scalar(s) =~= Seq::<u8>::empty());
    reveal_with_fuel(valid_utf8, 2);
}

proof fn lemma_folded_utf8(abs: bool, c: Seq<Seq<u8>>, n: int)
    requires
        0 <= n <= c.len(),
        all_utf8(c),
    ensures
        all_utf8(folded(abs, c, n)),
    decreases n,
{
    if n > 0 {
        lemma_folded_utf8(abs, c, n - 1);
        assert(valid_utf8(c[n - 1]));
    }
}

proof fn lemma_slashed_utf8(c: Seq<Seq<u8>>, n: int)
    requires
        0 <= n <= c.len(),
        all_utf8(c),
    ensures
        valid_utf8(slashed(c, n)),
    decreases n,
{
    lemma_ascii_utf8(SLASH);
    if n >= 1 {
        assert(valid_utf8(c[n - 1]));
    }
    if n > 1 {
        lemma_slashed_utf8(c, n - 1);
        valid_utf8_concat(slashed(c, n - 1), seq![SLASH]);
        assert(slashed(c, n - 1).push(SLASH) =~= slashed(c, n - 1) + seq![SLASH]);
        valid_utf8_concat(slashed(c, n - 1).push(SLASH), c[n - 1]);
    }
}

/// Folding a path that is text gives text.
pub proof fn lemma_normal_utf8(b: Seq<u8>)
    requires
        valid_utf8(b),
    ensures
        valid_utf8(normal(b)),
{
    assert(b.subrange(0, b.len() as int) =~= b);
    lemma_raw_utf8(b, 0);
    lemma_comps_utf8(raw_from(b, 0), raw_from(b, 0).len() as int);
    let f = folded(is_abs(b), comps(b), comps(b).len() as int);
    lemma_folded_utf8(is_abs(b), comps(b), comps(b).len() as int);
    lemma_slashed_utf8(f, f.len() as int);
    lemma_ascii_utf8(SLASH);
    valid_utf8_concat(seq![SLASH], slashed(f, f.len() as int));
}

proof fn lemma_comps_dots(raw: Seq<Seq<u8>>, n: int, i: int)
    requires
        0 <= n <= raw.len(),
        0 <= i < comps_upto(raw, n).len(),
        comps_upto(raw, n)[i] == dot(),
    ensures
        i == 0,
        raw[0] == dot(),
    decreases n,
{
    if n > 0 {
        let c = comps_upto(raw, n);
        let d = comps_upto(raw, n - 1);
        if i < d.len() {
            assert(c[i] == d[i]);
            lemma_comps_dots(raw, n - 1, i);
        } else {
            assert(c[i] == raw[n - 1]);
            assert(n == 1);
        }
    }
}

/// `.` is a component only where a relative path begins with it.
pub proof fn lemma_dot_leads(b: Seq<u8>)
    ensures
        forall|i: int| 0 <= i < comps(b).len() ==> #[trigger] comps(b)[i] == dot() ==> i == 0 && !is_abs(b),
{
    let raw = raw_from(b, 0);
    assert forall|i: int| 0 <= i < comps(b).len() && #[trigger] comps(b)[i] == dot() implies i == 0 && !is_abs(b) by {
        lemma_comps_dots(raw, raw.len() as int, i);
        if is_abs(b) {
            lemma_next_slash_is(b, 0, 0);
            assert(raw[0] == b.subrange(0, 0));
            assert(raw[0].len() == 0 && dot().len() == 1);
        }
    }
}

proof fn lemma_comps_prefix(x: Seq<Seq<u8>>, y: Seq<Seq<u8>>, n: int)
    requires
        n <= x.len() <= y.len(),
        forall|i: int| 0 <= i < x.len() ==> x[i] == y[i],
    ensures
        comps_upto(x, n) == comps_upto(y, n),
    decreases n,
{
    if n > 0 {
        lemma_comps_prefix(x, y, n - 1);
    }
}

/// A path that goes on behind a separator: with one component more, or none for what is none.
proof fn lemma_comps_snoc(a: Seq<u8>, y: Seq<u8>)
    requires
        slash_free(y),
    ensures
        comps(a.push(SLASH) + y) == if y.len() == 0 || y == dot() {
            comps(a)
        } else {
            comps(a).push(y)
        },
{
    lemma_raw_snoc(a, y, 0);
    let x = raw_from(a, 0);
    let z = raw_from(a.push(SLASH) + y, 0);
    assert(z == x.push(y));
    assert(x.len() > 0);
    lemma_comps_prefix(x, z, x.len() as int);
    assert(z[z.len() - 1] == y);
}

/// What is no part of a path at its end makes no difference to it.
pub proof fn lemma_trimmed(b: Seq<u8>)
    ensures
        comps(trimmed_path(b)) == comps(b),
        is_abs(trimmed_path(b)) == is_abs(b),
        trimmed_path(b).len() <= b.len(),
        trimmed_path(b) == b.take(trimmed_path(b).len() as int),
        !ends_spare(trimmed_path(b)),
    decreases b.len(),
{
    if ends_spare(b) {
        let a = b.drop_last();
        lemma_trimmed(a);
        let none = Seq::<u8>::empty();
        if b.last() == SLASH {
            assert(b =~= a.push(SLASH) + none);
            lemma_comps_snoc(a, none);
        } else {
            let c = a.drop_last();
            assert(b =~= c.push(SLASH) + dot());
            assert(a =~= c.push(SLASH) + none);
            lemma_comps_snoc(c, dot());
            lemma_comps_snoc(c, none);
        }
        let t = trimmed_path(b);
        assert(a.take(t.len() as int) =~= b.take(t.len() as int));
    } else {
        assert(b.take(b.len() as int) =~= b);
    }
}

spec fn last_slash(b: Seq<u8>) -> int
    decreases b.len(),
{
    if b.len() == 0 {
        -1
    } else if b.last() == SLASH {
        b.len() - 1
    } else {
        last_slash(b.drop_last())
    }
}

proof fn lemma_last_slash(b: Seq<u8>)
    ensures
        -1 <= last_slash(b) < b.len(),
        last_slash(b) >= 0 ==> b[last_slash(b)] == SLASH,
        forall|j: int| last_slash(b) < j < b.len() ==> b[j] != SLASH,
    decreases b.len(),
{
    if b.len() > 0 && b.last() != SLASH {
        lemma_last_slash(b.drop_last());
        assert forall|j: int| last_slash(b) < j < b.len() implies b[j] != SLASH by {
            if j < b.len() - 1 {
                assert(b.drop_last()[j] == b[j]);
            }
        }
    }
}

/// A path with components ends, once it is trimmed, in the last of them, and before it has the
/// others.
pub proof fn lemma_before_last(b: Seq<u8>)
    requires
        comps(b).len() > 0,
    ensures
        comps(b).last().len() <= trimmed_path(b).len(),
        trimmed_path(b) == before_last(b) + comps(b).last(),
        comps(before_last(b)) == comps(b).drop_last(),
        is_abs(before_last(b)) == is_abs(b),
        before_last(b).len() == 0 || before_last(b).last() == SLASH,
        comps(b).last() != dot() || before_last(b).len() == 0,
{
    let t = trimmed_path(b);
    lemma_trimmed(b);
    lemma_last_slash(t);
    let k = last_slash(t);
    let none = Seq::<u8>::empty();
    let y = t.skip(k + 1);
    assert forall|i: int| 0 <= i < y.len() implies y[i] != SLASH by {
        assert(y[i] == t[k + 1 + i]);
    }
    if k >= 0 {
        let a = t.take(k);
        assert(t =~= a.push(SLASH) + y);
        lemma_comps_snoc(a, y);
        lemma_comps_snoc(a, none);
        if y.len() == 0 {
            assert(t.last() == SLASH);
            assert(t.len() == 1);
            assert(a =~= none);
            lemma_comps_of_nothing();
        } else if y == dot() {
            assert(t.last() == DOT && t[t.len() - 2] == SLASH) by {
                assert(t.last() == y.last());
            }
        }
        assert(comps(b) == comps(a).push(y));
        assert(t.take(t.len() - y.len()) =~= a.push(SLASH) + none);
        assert(before_last(b) == a.push(SLASH) + none);
        assert(comps(b).drop_last() =~= comps(a));
    } else {
        assert(y =~= t);
        if t.len() == 0 {
            assert(t =~= none);
            lemma_comps_of_nothing();
        }
        lemma_next_slash_is(t, 0, t.len() as int);
        assert(t.subrange(0, t.len() as int) =~= t);
        assert(raw_from(t, 0) =~= seq![t]);
        reveal_with_fuel(comps_upto, 2);
        assert(comps(t) =~= seq![t]);
        assert(before_last(b) =~= none);
        lemma_comps_of_nothing();
        assert(comps(b).drop_last() =~= Seq::<Seq<u8>>::empty());
    }
}

proof fn lemma_comps_of_nothing()
    ensures
        comps(Seq::<u8>::empty()) == Seq::<Seq<u8>>::empty(),
{
    let none = Seq::<u8>::empty();
    lemma_next_slash_is(none, 0, 0);
    assert(none.subrange(0, 0) =~= none);
    assert(raw_from(none, 0) =~= seq![none]);
    reveal_with_fuel(comps_upto, 2);
}

/// Where a component begins, the rest of the path is that component and those behind it.
pub proof fn lemma_start_of(b: Seq<u8>, n: int)
    requires
        0 <= n < comps(b).len(),
        n > 0 || is_abs(b),
    ensures
        0 <= start_of(b, n) < trimmed_path(b).len(),
        comps(trimmed_path(b).skip(start_of(b, n))) == comps(b).skip(n),
        !is_abs(trimmed_path(b).skip(start_of(b, n))),
    decreases comps(b).len(),
{
    let t = trimmed_path(b);
    let u = before_last(b);
    let y = comps(b).last();
    let s = start_of(b, n);
    lemma_trimmed(b);
    lemma_before_last(b);
    lemma_comps_are_names(b);
    assert(y.len() > 0 && slash_free(y));
    if comps(b).len() == n + 1 {
        assert(t.skip(s) =~= y);
        lemma_next_slash_is(y, 0, y.len() as int);
        assert(y.subrange(0, y.len() as int) =~= y);
        assert(raw_from(y, 0) =~= seq![y]);
        reveal_with_fuel(comps_upto, 2);
        assert(comps(y) =~= comps(b).skip(n));
        assert(y[0] != SLASH);
    } else {
        assert(s == start_of(u, n));
        lemma_start_of(u, n);
        lemma_trimmed(u);
        let v = u.skip(s);
        let rest = trimmed_path(u).skip(s);
        assert(u.len() > 0 && u.last() == SLASH);
        assert(rest[0] == u[s]);
        assert(rest[0] != SLASH);
        assert(v[0] == u[s] && v.last() == SLASH);
        let w = v.drop_last();
        assert(t.skip(s) =~= w.push(SLASH) + y) by {
            assert(t =~= u + y);
        }
        lemma_comps_snoc(w, y);
        lemma_comps_snoc(w, Seq::<u8>::empty());
        assert(w.push(SLASH) + Seq::<u8>::empty() =~= v);
        lemma_behind_is_part(u, s);
        assert(comps(v) == comps(rest));
        assert(comps(b).skip(n) =~= comps(u).skip(n).push(y));
        lemma_dot_leads(b);
    }
}

/// What follows a part of a trimmed path, trimmed off, makes no difference to that part.
proof fn lemma_behind_is_part(u: Seq<u8>, s: int)
    requires
        0 <= s < trimmed_path(u).len(),
        u[s] != SLASH,
    ensures
        comps(u.skip(s)) == comps(trimmed_path(u).skip(s)),
    decreases u.len(),
{
    lemma_trimmed(u);
    if ends_spare(u) {
        let a = u.drop_last();
        let none = Seq::<u8>::empty();
        lemma_trimmed(a);
        assert(a[s] == u[s]);
        lemma_behind_is_part(a, s);
        let v = u.skip(s);
        let x = a.skip(s);
        assert(v.drop_last() =~= x);
        assert(x.len() > 0);
        if u.last() == SLASH {
            assert(v =~= x.push(SLASH) + none);
            lemma_comps_snoc(x, none);
        } else {
            assert(x[0] != SLASH);
            assert(x.last() == SLASH);
            let w = x.drop_last();
            assert(v =~= w.push(SLASH) + dot());
            assert(x =~= w.push(SLASH) + none);
            lemma_comps_snoc(w, dot());
            lemma_comps_snoc(w, none);
        }
    }
}

/// The rest of a path past another has the components that are left.
pub proof fn law_rest_has_what_is_left(b: Seq<u8>, base: Seq<u8>)
    ensures
        relative_to(b, base) matches Some(r) ==> {
            &&& comps(r) == comps(b).skip(comps(base).len() as int)
            &&& is_abs(r) == (is_abs(b) && !is_abs(base))
        },
{
    if under(b, base) {
        let n = comps(base).len() as int;
        lemma_trimmed(b);
        lemma_comps_of_nothing();
        if base.len() == 0 {
            assert(base =~= Seq::<u8>::empty());
            assert(comps(b).skip(0) =~= comps(b));
        } else if n == comps(b).len() {
            assert(comps(b).skip(n) =~= Seq::<Seq<u8>>::empty());
            lemma_some_component(base);
        } else {
            lemma_some_component(base);
            lemma_start_of(b, n);
        }
    }
}

/// A path that is not absolute and not empty has a component.
proof fn lemma_some_component(b: Seq<u8>)
    requires
        b.len() > 0,
    ensures
        is_abs(b) || comps(b).len() > 0,
{
    if !is_abs(b) {
        let raw = raw_from(b, 0);
        lemma_next_slash(b, 0);
        assert(raw[0] == b.subrange(0, next_slash(b, 0)));
        assert(raw[0].len() > 0);
        assert(raw.len() > 0);
        lemma_first_stays(raw, raw.len() as int);
    }
}

proof fn lemma_first_stays(raw: Seq<Seq<u8>>, n: int)
    requires
        1 <= n <= raw.len(),
        raw[0].len() > 0,
    ensures
        comps_upto(raw, n).len() > 0,
    decreases n,
{
    if n > 1 {
        lemma_first_stays(raw, n - 1);
    } else {
        reveal_with_fuel(comps_upto, 2);
    }
}

proof fn lemma_trimmed_utf8(b: Seq<u8>)
    requires
        valid_utf8(b),
    ensures
        valid_utf8(trimmed_path(b)),
    decreases b.len(),
{
    if ends_spare(b) {
        let n = b.len() - 1;
        assert(b[n] == SLASH || b[n] == DOT);
        assert(!is_continuation_byte(b[n]));
        is_char_boundary_iff_not_is_continuation_byte(b, n);
        valid_utf8_split(b, n);
        assert(b.subrange(0, n) =~= b.drop_last());
        lemma_trimmed_utf8(b.drop_last());
    }
}

proof fn lemma_start_follows(b: Seq<u8>, n: int)
    requires
        0 <= n,
        comps(b).len() > 0,
    ensures
        0 <= start_of(b, n) <= trimmed_path(b).len(),
        start_of(b, n) > 0 ==> b[start_of(b, n) - 1] == SLASH,
    decreases comps(b).len(),
{
    let u = before_last(b);
    lemma_before_last(b);
    lemma_trimmed(b);
    let t = trimmed_path(b);
    assert forall|i: int| 0 <= i < u.len() implies u[i] == b[i] by {
        assert(u[i] == t[i]);
        assert(t[i] == b.take(t.len() as int)[i]);
    }
    if comps(b).len() > n + 1 {
        lemma_start_follows(u, n);
        lemma_trimmed(u);
    }
}

/// What is left of a path that is text past another is text.
pub proof fn lemma_rest_utf8(a: Seq<u8>, b: Seq<u8>)
    requires
        valid_utf8(a),
        relative_to(a, b) is Some,
    ensures
        valid_utf8(relative_to(a, b)->0),
{
    lemma_trimmed_utf8(a);
    lemma_ascii_utf8(SLASH);
    if b.len() > 0 && comps(b).len() != comps(a).len() {
        let n = comps(b).len() as int;
        let t = trimmed_path(a);
        lemma_some_component(b);
        lemma_start_of(a, n);
        lemma_start_follows(a, n);
        lemma_trimmed(a);
        let s = start_of(a, n);
        if s > 0 {
            let whole = t.subrange(0, t.len() as int);
            assert(whole =~= t);
            assert(t[s - 1] == SLASH) by {
                assert(t[s - 1] == a.take(t.len() as int)[s - 1]);
            }
            assert(!is_continuation_byte(t[s - 1]));
            is_char_boundary_iff_not_is_continuation_byte(t, s - 1);
            valid_utf8_split(t, s - 1);
            let tail = t.subrange(s - 1, t.len() as int);
            assert(tail[0] == SLASH);
            assert(is_leading_byte_width_1(tail[0]));
            assert(pop_first_scalar(tail) =~= t.skip(s));
            assert(valid_utf8(pop_first_scalar(tail)));
        } else {
            assert(t.skip(0) =~= t);
        }
    }
}

proof fn lemma_comps_both(x: Seq<Seq<u8>>, y: Seq<Seq<u8>>, n: int)
    requires
        0 <= n <= y.len(),
        x.len() > 0,
        y.len() > 0 ==> y[0] != dot(),
    ensures
        comps_upto(x + y, x.len() + n) == comps_upto(x, x.len() as int) + comps_upto(y, n),
    decreases n,
{
    if n > 0 {
        lemma_comps_both(x, y, n - 1);
        assert((x + y)[x.len() + n - 1] == y[n - 1]);
        assert(comps_upto(x + y, x.len() + n) =~= comps_upto(x, x.len() as int) + comps_upto(y, n));
    } else {
        lemma_comps_prefix(x, x + y, x.len() as int);
        assert(comps_upto(x, x.len() as int) + comps_upto(y, 0) =~= comps_upto(x, x.len() as int));
    }
}

/// A relative path that begins with a name, taken from another, has the components of both.
pub proof fn law_joined_components(a: Seq<u8>, b: Seq<u8>)
    requires
        a.len() > 0,
        !is_abs(b),
        comps(b).len() > 0 ==> comps(b)[0] != dot(),
    ensures
        comps(joined_path(a, b)) == comps(a) + comps(b),
        is_abs(joined_path(a, b)) == is_abs(a),
{
    let y = raw_from(b, 0);
    assert(y[0] != dot()) by {
        if y[0] == dot() {
            lemma_dot_first(y, y.len() as int);
        }
    }
    if a.last() == SLASH {
        let c = a.drop_last();
        assert(a =~= c.push(SLASH) + Seq::<u8>::empty());
        assert(a + b =~= c.push(SLASH) + b);
        lemma_comps_snoc(c, Seq::<u8>::empty());
        lemma_raw_both(c, b, 0);
        lemma_comps_both(raw_from(c, 0), y, y.len() as int);
    } else {
        lemma_raw_both(a, b, 0);
        lemma_comps_both(raw_from(a, 0), y, y.len() as int);
    }
}

proof fn lemma_dot_first(raw: Seq<Seq<u8>>, n: int)
    requires
        1 <= n <= raw.len(),
        raw[0] == dot(),
    ensures
        comps_upto(raw, n).len() > 0,
        comps_upto(raw, n)[0] == dot(),
    decreases n,
{
    assert(dot().len() == 1);
    if n > 1 {
        lemma_dot_first(raw, n - 1);
    } else {
        reveal_with_fuel(comps_upto, 2);
    }
}

/// `.` taken from a path is that path.
pub proof fn law_joined_dot(a: Seq<u8>)
    requires
        a.len() > 0,
    ensures
        comps(joined_path(a, dot())) == comps(a),
        is_abs(joined_path(a, dot())) == is_abs(a),
{
    assert(slash_free(dot()));
    if a.last() == SLASH {
        let c = a.drop_last();
        assert(a =~= c.push(SLASH) + Seq::<u8>::empty());
        assert(a + dot() =~= c.push(SLASH) + dot());
        lemma_comps_snoc(c, Seq::<u8>::empty());
        lemma_comps_snoc(c, dot());
    } else {
        lemma_comps_snoc(a, dot());
    }
}

/// A folded path is told by its start and its components alone: what has the same of a path that
/// is folded folds to it.
pub proof fn law_folds_to(b: Seq<u8>, w: Seq<u8>)
    requires
        normal(w) == w,
        comps(b) == comps(w),
        is_abs(b) == is_abs(w),
    ensures
        normal(b) == w,
{
}

/// What is left of a folded path past another leads back to it.
pub proof fn law_rest_leads_back(w: Seq<u8>, base: Seq<u8>)
    requires
        normal(w) == w,
        is_abs(base),
        under(w, base),
    ensures
        relative_to(w, base) matches Some(r) && {
            &&& r.len() > 0 ==> normal(joined_path(base, r)) == w && !is_abs(r) && comps(r).len() > 0
            &&& r.len() == 0 ==> normal(joined_path(base, dot())) == w && comps(w) == comps(base)
        },
{
    law_rest_has_what_is_left(w, base);
    law_normal_is_folded(w);
    let r = relative_to(w, base)->0;
    let n = comps(base).len() as int;
    assert(comps(r) == comps(w).skip(n));
    if r.len() == 0 {
        lemma_comps_of_nothing();
        assert(r =~= Seq::<u8>::empty());
        assert(comps(w) =~= comps(base)) by {
            assert(comps(w).take(n) == comps(base));
            assert(comps(w).len() == n);
            assert(comps(w).take(n) =~= comps(w));
        }
        law_joined_dot(base);
        law_folds_to(joined_path(base, dot()), w);
    } else {
        lemma_some_component(r);
        assert(comps(r)[0] == comps(w)[n]);
        law_joined_components(base, r);
        assert(comps(base) + comps(r) =~= comps(w)) by {
            assert(comps(w).take(n) + comps(w).skip(n) =~= comps(w));
        }
        law_folds_to(joined_path(base, r), w);
    }
}

/// The directory a path is in has one component fewer.
pub proof fn lemma_parent(b: Seq<u8>)
    ensures
        match parent_of(b) {
            Some(p) => {
                &&& comps(b).len() > 0
                &&& comps(p) == comps(b).drop_last()
                &&& is_abs(p) == is_abs(b)
            },
            None => comps(b).len() == 0,
        },
{
    if comps(b).len() > 0 {
        lemma_before_last(b);
        lemma_trimmed(before_last(b));
    }
}

/// A path and the directories it is in, from the path itself upward.
pub open spec fn ancestors_of(b: Seq<u8>) -> Seq<Seq<u8>>
    decreases comps(b).len(),
    via ancestors_decreases
{
    match parent_of(b) {
        Some(p) => seq![b] + ancestors_of(p),
        None => seq![b],
    }
}

#[via_fn]
proof fn ancestors_decreases(b: Seq<u8>) {
    lemma_parent(b);
}

impl HostPath {
    /// This path and the directories it is in, from the path itself upward.
    pub fn ancestors(&self) -> (r: Vec<HostPath>)
        ensures
            r.deep_view() == ancestors_of(self.deep_view()),
            r@.len() > 0,
        decreases comps(self.deep_view()).len(),
    {
        let mut out: Vec<HostPath> = Vec::new();
        let mut at = self.copy();
        let ghost whole = ancestors_of(self.deep_view());
        assert(out.deep_view() + ancestors_of(at.deep_view()) =~= whole);
        loop
            invariant
                out.deep_view() + ancestors_of(at.deep_view()) == whole,
                whole == ancestors_of(self.deep_view()),
            decreases comps(at.deep_view()).len(),
        {
            proof {
                lemma_parent(at.deep_view());
            }
            let ghost had = out.deep_view();
            let ghost here = at.deep_view();
            let next = at.parent();
            put(&mut out, at);
            match next {
                Some(p) => {
                    at = p;
                    assert(out.deep_view() + ancestors_of(at.deep_view()) =~= had + ancestors_of(here));
                },
                None => {
                    assert(out.deep_view() =~= had + ancestors_of(here));
                    return out;
                },
            }
        }
    }
}

/// The path is one of those, written the same way.
pub fn is_listed(path: &HostPath, v: &Vec<HostPath>) -> (r: bool)
    ensures
        r == v.deep_view().contains(path.deep_view()),
{
    let mut i: usize = 0;
    while i < v.len()
        invariant
            i <= v@.len(),
            forall|j: int| 0 <= j < i ==> v@[j].deep_view() != path.deep_view(),
        decreases v@.len() - i,
    {
        if same_bytes(&v[i].bytes, &path.bytes) {
            assert(v.deep_view()[i as int] == path.deep_view());
            return true;
        }
        i = i + 1;
    }
    assert(forall|j: int| 0 <= j < v.deep_view().len() ==> v.deep_view()[j] != path.deep_view());
    false
}

} // verus!
