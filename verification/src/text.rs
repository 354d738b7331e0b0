//! Text as sequences of characters: the string operations the rest of the library is stated in.

use vstd::prelude::*;

verus! {

/// `String::push` appends one character.
pub assume_specification[ String::push ](s: &mut String, c: char)
    ensures
        final(s)@ == old(s)@.push(c),
;

/// An error, as the text a user reads.
#[derive(Debug)]
pub struct Error {
    pub message: String,
}

impl DeepView for Error {
    type V = Seq<char>;

    open spec fn deep_view(&self) -> Seq<char> {
        self.message@
    }
}

impl Error {
    /// The error's text.
    pub fn to_text(&self) -> (r: String)
        ensures
            r@ == self.deep_view(),
    {
        self.message.clone()
    }
}

/// A result by what it holds: the value's model, or the error's text.
pub open spec fn outcome<T: DeepView>(r: Result<T, Error>) -> Result<T::V, Seq<char>> {
    match r {
        Ok(v) => Ok(v.deep_view()),
        Err(e) => Err(e.deep_view()),
    }
}

/// An error with this text.
pub fn error(message: String) -> (r: Error)
    ensures
        r.deep_view() == message@,
{
    Error { message }
}

/// An error with this text and a heading in front of it.
pub fn within(heading: &str, e: Error) -> (r: Error)
    ensures
        r.deep_view() == heading@ + ": "@ + e.deep_view(),
{
    Error { message: cat3(heading, ": ", e.message.as_str()) }
}

/// Append `x`, by what it holds.
pub fn put<T: DeepView>(v: &mut Vec<T>, x: T)
    ensures
        final(v)@ == old(v)@.push(x),
        final(v).deep_view() == old(v).deep_view().push(x.deep_view()),
{
    v.push(x);
    assert(v.deep_view() =~= old(v).deep_view().push(x.deep_view()));
}

/// The two texts are the same.
pub fn same(a: &str, b: &str) -> (r: bool)
    ensures
        r == (a@ == b@),
{
    a.to_owned() == b.to_owned()
}

pub fn cat2(a: &str, b: &str) -> (r: String)
    ensures
        r@ == a@ + b@,
{
    let mut r = a.to_owned();
    r.append(b);
    r
}

pub fn cat3(a: &str, b: &str, c: &str) -> (r: String)
    ensures
        r@ == a@ + b@ + c@,
{
    let mut r = cat2(a, b);
    r.append(c);
    r
}

pub fn cat4(a: &str, b: &str, c: &str, d: &str) -> (r: String)
    ensures
        r@ == a@ + b@ + c@ + d@,
{
    let mut r = cat3(a, b, c);
    r.append(d);
    r
}

pub fn cat5(a: &str, b: &str, c: &str, d: &str, e: &str) -> (r: String)
    ensures
        r@ == a@ + b@ + c@ + d@ + e@,
{
    let mut r = cat4(a, b, c, d);
    r.append(e);
    r
}

pub fn cat6(a: &str, b: &str, c: &str, d: &str, e: &str, f: &str) -> (r: String)
    ensures
        r@ == a@ + b@ + c@ + d@ + e@ + f@,
{
    let mut r = cat5(a, b, c, d, e);
    r.append(f);
    r
}

pub fn cat7(a: &str, b: &str, c: &str, d: &str, e: &str, f: &str, g: &str) -> (r: String)
    ensures
        r@ == a@ + b@ + c@ + d@ + e@ + f@ + g@,
{
    let mut r = cat6(a, b, c, d, e, f);
    r.append(g);
    r
}

/// The characters of a text.
pub fn chars_of(s: &str) -> (r: Vec<char>)
    ensures
        r@ == s@,
{
    let mut r: Vec<char> = Vec::new();
    for c in it: s.chars()
        invariant
            it.seq() == s@,
            r@ == s@.take(it.index()),
    {
        assert(s@.take(it.index() + 1) =~= s@.take(it.index()).push(s@[it.index()]));
        r.push(c);
    }
    assert(s@.take(s@.len() as int) =~= s@);
    r
}

/// The text made of the characters from `from` up to `to`.
pub fn text_between(v: &Vec<char>, from: usize, to: usize) -> (r: String)
    requires
        from <= to <= v@.len(),
    ensures
        r@ == v@.subrange(from as int, to as int),
{
    let mut r = String::new();
    let mut i: usize = from;
    while i < to
        invariant
            from <= i <= to <= v@.len(),
            r@ == v@.subrange(from as int, i as int),
        decreases to - i,
    {
        assert(v@.subrange(from as int, i + 1) =~= v@.subrange(from as int, i as int).push(v@[i as int]));
        r.push(v[i]);
        i = i + 1;
    }
    assert(r@ =~= v@.subrange(from as int, to as int));
    r
}

/// The text made of these characters.
pub fn text_of(v: &Vec<char>) -> (r: String)
    ensures
        r@ == v@,
{
    let r = text_between(v, 0, v.len());
    assert(v@.subrange(0, v@.len() as int) =~= v@);
    r
}


/// `a` sorts before `b`: by the first character in which they differ, a proper prefix first.
pub open spec fn before(a: Seq<char>, b: Seq<char>) -> bool
    decreases a.len(),
{
    if b.len() == 0 {
        false
    } else if a.len() == 0 {
        true
    } else if a[0] != b[0] {
        a[0] < b[0]
    } else {
        before(a.drop_first(), b.drop_first())
    }
}

proof fn lemma_before_skip(a: Seq<char>, b: Seq<char>, n: nat)
    requires
        n <= a.len(),
        n <= b.len(),
        a.take(n as int) == b.take(n as int),
    ensures
        before(a, b) == before(a.skip(n as int), b.skip(n as int)),
    decreases n,
{
    if n == 0 {
        assert(a.skip(0) =~= a);
        assert(b.skip(0) =~= b);
    } else {
        assert(a.take(n as int)[0] == a[0] && b.take(n as int)[0] == b[0]);
        assert(a[0] == b[0]);
        assert(a.drop_first().take(n - 1) =~= a.take(n as int).drop_first());
        assert(b.drop_first().take(n - 1) =~= b.take(n as int).drop_first());
        lemma_before_skip(a.drop_first(), b.drop_first(), (n - 1) as nat);
        assert(a.drop_first().skip(n - 1) =~= a.skip(n as int));
        assert(b.drop_first().skip(n - 1) =~= b.skip(n as int));
    }
}

/// `a` sorts before `b`.
pub fn is_before(a: &str, b: &str) -> (r: bool)
    ensures
        r == before(a@, b@),
{
    let x = chars_of(a);
    let y = chars_of(b);
    let mut i: usize = 0;
    while i < x.len() && i < y.len() && x[i] == y[i]
        invariant
            i <= x@.len(),
            i <= y@.len(),
            x@.take(i as int) == y@.take(i as int),
        decreases x@.len() - i,
    {
        assert(x@.take(i + 1) =~= x@.take(i as int).push(x@[i as int]));
        assert(y@.take(i + 1) =~= y@.take(i as int).push(y@[i as int]));
        i = i + 1;
    }
    proof {
        lemma_before_skip(x@, y@, i as nat);
    }
    i < y.len() && (i == x.len() || x[i] < y[i])
}

/// No text sorts before itself.
pub proof fn lemma_before_irreflexive(a: Seq<char>)
    ensures
        !before(a, a),
    decreases a.len(),
{
    if a.len() > 0 {
        lemma_before_irreflexive(a.drop_first());
    }
}

/// Two different texts are ordered one way or the other.
pub proof fn lemma_before_total(a: Seq<char>, b: Seq<char>)
    ensures
        a == b || before(a, b) || before(b, a),
        !(before(a, b) && before(b, a)),
    decreases a.len(),
{
    if a.len() > 0 && b.len() > 0 && a[0] == b[0] {
        lemma_before_total(a.drop_first(), b.drop_first());
        if a.drop_first() == b.drop_first() {
            assert(a =~= seq![a[0]] + a.drop_first());
            assert(b =~= seq![b[0]] + b.drop_first());
        }
    } else if a.len() == 0 && b.len() == 0 {
        assert(a =~= b);
    }
}

/// The order is transitive.
pub proof fn lemma_before_transitive(a: Seq<char>, b: Seq<char>, c: Seq<char>)
    requires
        before(a, b),
        before(b, c),
    ensures
        before(a, c),
    decreases a.len(),
{
    if a.len() > 0 && a[0] == b[0] && b[0] == c[0] {
        lemma_before_transitive(a.drop_first(), b.drop_first(), c.drop_first());
    }
}

/// `needle` stands in `hay` at `i`.
pub open spec fn occurs_at(hay: Seq<char>, needle: Seq<char>, i: int) -> bool {
    0 <= i && i + needle.len() <= hay.len() && hay.subrange(i, i + needle.len()) == needle
}

/// `needle` stands somewhere in `hay`.
pub open spec fn contains(hay: Seq<char>, needle: Seq<char>) -> bool {
    exists|i: int| occurs_at(hay, needle, i)
}

/// The first place from `from` on at which `needle` stands in `hay`.
pub open spec fn find_from(hay: Seq<char>, needle: Seq<char>, from: int) -> Option<int>
    decreases hay.len() + 1 - from,
{
    if from < 0 || from + needle.len() > hay.len() {
        None
    } else if occurs_at(hay, needle, from) {
        Some(from)
    } else {
        find_from(hay, needle, from + 1)
    }
}

/// What `find_from` finds is the least place from `from` on, and it finds one if there is one.
pub proof fn lemma_find_from(hay: Seq<char>, needle: Seq<char>, from: int)
    requires
        0 <= from,
    ensures
        match find_from(hay, needle, from) {
            Some(i) => {
                &&& from <= i
                &&& occurs_at(hay, needle, i)
                &&& forall|j: int| from <= j < i ==> !occurs_at(hay, needle, j)
            },
            None => forall|j: int| from <= j ==> !occurs_at(hay, needle, j),
        },
    decreases hay.len() + 1 - from,
{
    if from + needle.len() <= hay.len() && !occurs_at(hay, needle, from) {
        lemma_find_from(hay, needle, from + 1);
    }
}

/// `needle` stands in `hay` at `i`.
pub fn stands_at(hay: &Vec<char>, needle: &Vec<char>, i: usize) -> (r: bool)
    ensures
        r == occurs_at(hay@, needle@, i as int),
{
    if i > hay.len() || needle.len() > hay.len() - i {
        return false;
    }
    let mut k: usize = 0;
    let total: usize = hay.len();
    while k < needle.len()
        invariant
            total == hay@.len(),
            i + needle@.len() <= total,
            k <= needle@.len(),
            forall|j: int| 0 <= j < k ==> hay@[i + j] == needle@[j],
        decreases needle@.len() - k,
    {
        if hay[i + k] != needle[k] {
            assert(hay@.subrange(i as int, i + needle@.len())[k as int] != needle@[k as int]);
            return false;
        }
        k = k + 1;
    }
    assert(hay@.subrange(i as int, i + needle@.len()) =~= needle@);
    true
}

/// The first place from `from` on at which `needle` stands in `hay`.
pub fn position_from(hay: &Vec<char>, needle: &Vec<char>, from: usize) -> (r: Option<usize>)
    requires
        from <= hay@.len(),
    ensures
        match r {
            Some(i) => find_from(hay@, needle@, from as int) == Some(i as int),
            None => find_from(hay@, needle@, from as int) is None,
        },
        r matches Some(i) ==> from <= i && i + needle@.len() <= hay@.len(),
{
    let mut i: usize = from;
    while i <= hay.len() && needle.len() <= hay.len() - i
        invariant
            from <= i,
            i <= hay@.len() + 1,
            find_from(hay@, needle@, i as int) == find_from(hay@, needle@, from as int),
        decreases hay@.len() + 1 - i,
    {
        if stands_at(hay, needle, i) {
            return Some(i);
        }
        if i == hay.len() {
            assert(find_from(hay@, needle@, i + 1) is None);
            return None;
        }
        i = i + 1;
    }
    None
}

/// `hay` holds `needle`.
pub fn holds(hay: &str, needle: &str) -> (r: bool)
    ensures
        r == contains(hay@, needle@),
{
    let h = chars_of(hay);
    let n = chars_of(needle);
    proof {
        lemma_find_from(h@, n@, 0);
    }
    position_from(&h, &n, 0).is_some()
}

/// The text begins with `prefix`.
pub open spec fn begins(s: Seq<char>, prefix: Seq<char>) -> bool {
    prefix.len() <= s.len() && s.take(prefix.len() as int) == prefix
}

/// The text ends with `suffix`.
pub open spec fn ends(s: Seq<char>, suffix: Seq<char>) -> bool {
    suffix.len() <= s.len() && s.skip(s.len() - suffix.len()) == suffix
}

pub fn begins_with(s: &str, prefix: &str) -> (r: bool)
    ensures
        r == begins(s@, prefix@),
{
    let h = chars_of(s);
    let n = chars_of(prefix);
    assert(prefix@.len() <= s@.len() ==> s@.take(prefix@.len() as int) =~= s@.subrange(0, prefix@.len() as int));
    stands_at(&h, &n, 0)
}

pub fn ends_with(s: &str, suffix: &str) -> (r: bool)
    ensures
        r == ends(s@, suffix@),
{
    let h = chars_of(s);
    let n = chars_of(suffix);
    if n.len() > h.len() {
        return false;
    }
    assert(s@.skip(s@.len() - suffix@.len()) =~= s@.subrange(s@.len() - suffix@.len(), s@.len() as int));
    stands_at(&h, &n, h.len() - n.len())
}

/// What follows `prefix`, where the text begins with it.
pub fn after_prefix(s: &str, prefix: &str) -> (r: Option<String>)
    ensures
        r.deep_view() == if begins(s@, prefix@) {
            Some(s@.skip(prefix@.len() as int))
        } else {
            None
        },
{
    if begins_with(s, prefix) {
        let h = chars_of(s);
        let n = prefix.unicode_len();
        let rest = text_between(&h, n, h.len());
        assert(rest@ =~= s@.skip(prefix@.len() as int));
        Some(rest)
    } else {
        None
    }
}

/// Every occurrence of `needle`, from the left and without overlap, replaced by `with`; from
/// `from` on.
pub open spec fn replaced_from(hay: Seq<char>, needle: Seq<char>, with: Seq<char>, from: int) -> Seq<char>
    decreases hay.len() - from,
{
    if from < 0 || from >= hay.len() || needle.len() == 0 {
        Seq::empty()
    } else if occurs_at(hay, needle, from) {
        with + replaced_from(hay, needle, with, from + needle.len())
    } else {
        seq![hay[from]] + replaced_from(hay, needle, with, from + 1)
    }
}

/// The text from `from` on with `with` before each of its characters and behind the last.
pub open spec fn spread_from(hay: Seq<char>, with: Seq<char>, from: int) -> Seq<char>
    decreases hay.len() - from,
{
    if from < 0 || from >= hay.len() {
        with
    } else {
        with + (seq![hay[from]] + spread_from(hay, with, from + 1))
    }
}

/// Every occurrence of `needle`, from the left and without overlap, replaced by `with`. The empty
/// text occurs before each character and behind the last.
pub open spec fn replaced(hay: Seq<char>, needle: Seq<char>, with: Seq<char>) -> Seq<char> {
    if needle.len() == 0 {
        spread_from(hay, with, 0)
    } else {
        replaced_from(hay, needle, with, 0)
    }
}

pub fn replace(hay: &str, needle: &str, with: &str) -> (r: String)
    ensures
        r@ == replaced(hay@, needle@, with@),
{
    let h = chars_of(hay);
    let n = chars_of(needle);
    let mut out = String::new();
    if n.len() == 0 {
        let mut i: usize = 0;
        assert(out@ + spread_from(h@, with@, 0) =~= spread_from(h@, with@, 0));
        while i < h.len()
            invariant
                i <= h@.len(),
                out@ + spread_from(h@, with@, i as int) == spread_from(h@, with@, 0),
            decreases h@.len() - i,
        {
            proof {
                let rest = spread_from(h@, with@, i + 1);
                assert(out@ + (with@ + (seq![h@[i as int]] + rest)) =~= (out@ + with@).push(h@[i as int]) + rest);
            }
            out.append(with);
            out.push(h[i]);
            i = i + 1;
        }
        out.append(with);
        return out;
    }
    let mut i: usize = 0;
    while i < h.len()
        invariant
            i <= h@.len(),
            n@.len() > 0,
            out@ + replaced_from(h@, n@, with@, i as int) == replaced(h@, n@, with@),
        decreases h@.len() - i,
    {
        if stands_at(&h, &n, i) {
            proof {
                assert(out@ + (with@ + replaced_from(h@, n@, with@, i + n@.len())) =~= (out@ + with@)
                    + replaced_from(h@, n@, with@, i + n@.len()));
            }
            out.append(with);
            i = i + n.len();
        } else {
            proof {
                assert(out@ + (seq![h@[i as int]] + replaced_from(h@, n@, with@, i + 1))
                    =~= out@.push(h@[i as int]) + replaced_from(h@, n@, with@, i + 1));
            }
            out.push(h[i]);
            i = i + 1;
        }
    }
    assert(out@ + Seq::<char>::empty() =~= out@);
    out
}

/// The first place from `from` on at which the character stands, or the length.
pub open spec fn next_char(s: Seq<char>, c: char, from: int) -> int
    decreases s.len() - from,
{
    if from < 0 || from >= s.len() {
        s.len() as int
    } else if s[from] == c {
        from
    } else {
        next_char(s, c, from + 1)
    }
}

pub proof fn lemma_next_char(s: Seq<char>, c: char, from: int)
    requires
        0 <= from <= s.len(),
    ensures
        from <= next_char(s, c, from) <= s.len(),
        next_char(s, c, from) < s.len() ==> s[next_char(s, c, from)] == c,
        forall|j: int| from <= j < next_char(s, c, from) ==> s[j] != c,
    decreases s.len() - from,
{
    if from < s.len() && s[from] != c {
        lemma_next_char(s, c, from + 1);
    }
}

pub fn char_from(s: &Vec<char>, c: char, from: usize) -> (r: usize)
    requires
        from <= s@.len(),
    ensures
        r == next_char(s@, c, from as int),
        from <= r <= s@.len(),
        r < s@.len() ==> s@[r as int] == c,
        forall|j: int| from <= j < r ==> s@[j] != c,
{
    let mut i: usize = from;
    while i < s.len()
        invariant
            from <= i <= s@.len(),
            next_char(s@, c, i as int) == next_char(s@, c, from as int),
            forall|j: int| from <= j < i ==> s@[j] != c,
        decreases s@.len() - i,
    {
        if s[i] == c {
            return i;
        }
        i = i + 1;
    }
    i
}

/// The character stands in the text.
pub fn has_char(s: &str, c: char) -> (r: bool)
    ensures
        r == s@.contains(c),
{
    let v = chars_of(s);
    let at: usize = char_from(&v, c, 0);
    assert(at < v@.len() ==> s@[at as int] == c);
    at < v.len()
}

/// The text before and after the first `c`, where there is one.
pub open spec fn cut(s: Seq<char>, c: char) -> Option<(Seq<char>, Seq<char>)> {
    let at = next_char(s, c, 0);
    if at < s.len() {
        Some((s.take(at), s.skip(at + 1)))
    } else {
        None
    }
}

pub fn cut_at(s: &str, c: char) -> (r: Option<(String, String)>)
    ensures
        r.deep_view() == cut(s@, c),
{
    let v = chars_of(s);
    let at: usize = char_from(&v, c, 0);
    if at < v.len() {
        let a = text_between(&v, 0, at);
        let b = text_between(&v, at + 1, v.len());
        assert(a@ =~= s@.take(at as int));
        assert(b@ =~= s@.skip(at + 1));
        Some((a, b))
    } else {
        None
    }
}

/// The pieces between the occurrences of `c`, from `from` on.
pub open spec fn pieces_from(s: Seq<char>, c: char, from: int) -> Seq<Seq<char>>
    decreases s.len() - from,
    when 0 <= from <= s.len()
    via pieces_from_decreases
{
    let at = next_char(s, c, from);
    if at < s.len() {
        seq![s.subrange(from, at)] + pieces_from(s, c, at + 1)
    } else {
        seq![s.subrange(from, at)]
    }
}

#[via_fn]
proof fn pieces_from_decreases(s: Seq<char>, c: char, from: int) {
    lemma_next_char(s, c, from);
}

/// The pieces between the occurrences of `c`: one more than there are of it.
pub open spec fn pieces(s: Seq<char>, c: char) -> Seq<Seq<char>> {
    pieces_from(s, c, 0)
}

pub fn split(s: &str, c: char) -> (r: Vec<String>)
    ensures
        r.deep_view() == pieces(s@, c),
        r@.len() > 0,
{
    let v = chars_of(s);
    let mut out: Vec<String> = Vec::new();
    let mut from: usize = 0;
    assert(out.deep_view() + pieces_from(s@, c, 0) =~= pieces(s@, c));
    loop
        invariant
            v@ == s@,
            from <= v@.len(),
            out.deep_view() + pieces_from(s@, c, from as int) == pieces(s@, c),
        decreases v@.len() - from,
    {
        let at: usize = char_from(&v, c, from);
        let ghost seen = out.deep_view();
        put(&mut out, text_between(&v, from, at));
        if at == v.len() {
            assert(out.deep_view() =~= seen + pieces_from(s@, c, from as int));
            return out;
        }
        assert(out.deep_view() + pieces_from(s@, c, at + 1) =~= seen + pieces_from(s@, c, from as int));
        from = at + 1;
    }
}

/// The first `n` texts with `sep` between them.
pub open spec fn joined_upto(v: Seq<Seq<char>>, sep: Seq<char>, n: int) -> Seq<char>
    decreases n,
{
    if n <= 0 {
        Seq::empty()
    } else if n == 1 {
        v[0]
    } else {
        joined_upto(v, sep, n - 1) + sep + v[n - 1]
    }
}

/// The texts with `sep` between them.
pub open spec fn joined(v: Seq<Seq<char>>, sep: Seq<char>) -> Seq<char> {
    joined_upto(v, sep, v.len() as int)
}

pub fn join(v: &Vec<String>, sep: &str) -> (r: String)
    ensures
        r@ == joined(v.deep_view(), sep@),
{
    let mut out = String::new();
    let mut i: usize = 0;
    while i < v.len()
        invariant
            i <= v@.len(),
            out@ == joined_upto(v.deep_view(), sep@, i as int),
        decreases v@.len() - i,
    {
        if i > 0 {
            out.append(sep);
        }
        assert(i == 0 ==> out@ + v@[0]@ =~= v@[0]@);
        out.append(v[i].as_str());
        i = i + 1;
    }
    out
}

/// Unicode white space.
pub open spec fn is_space(c: char) -> bool {
    ||| '\u{9}' <= c <= '\u{d}'
    ||| c == ' '
    ||| c == '\u{85}'
    ||| c == '\u{a0}'
    ||| c == '\u{1680}'
    ||| '\u{2000}' <= c <= '\u{200a}'
    ||| c == '\u{2028}'
    ||| c == '\u{2029}'
    ||| c == '\u{202f}'
    ||| c == '\u{205f}'
    ||| c == '\u{3000}'
}

pub fn space(c: char) -> (r: bool)
    ensures
        r == is_space(c),
{
    ('\u{9}' <= c && c <= '\u{d}') || c == ' ' || c == '\u{85}' || c == '\u{a0}' || c == '\u{1680}'
        || ('\u{2000}' <= c && c <= '\u{200a}') || c == '\u{2028}' || c == '\u{2029}' || c == '\u{202f}'
        || c == '\u{205f}' || c == '\u{3000}'
}

/// The text without the white space at its start.
pub open spec fn trimmed_start(s: Seq<char>) -> Seq<char>
    decreases s.len(),
{
    if s.len() > 0 && is_space(s[0]) {
        trimmed_start(s.drop_first())
    } else {
        s
    }
}

/// The text without the white space at its end.
pub open spec fn trimmed_end(s: Seq<char>) -> Seq<char>
    decreases s.len(),
{
    if s.len() > 0 && is_space(s.last()) {
        trimmed_end(s.drop_last())
    } else {
        s
    }
}

/// The text without the white space at either end.
pub open spec fn trimmed(s: Seq<char>) -> Seq<char> {
    trimmed_end(trimmed_start(s))
}

pub fn trim_start(s: &str) -> (r: String)
    ensures
        r@ == trimmed_start(s@),
{
    let v = chars_of(s);
    let mut i: usize = 0;
    assert(s@.skip(0) =~= s@);
    while i < v.len() && space(v[i])
        invariant
            i <= v@.len(),
            v@ == s@,
            trimmed_start(s@) == trimmed_start(s@.skip(i as int)),
        decreases v@.len() - i,
    {
        assert(s@.skip(i as int).drop_first() =~= s@.skip(i + 1));
        i = i + 1;
    }
    let r = text_between(&v, i, v.len());
    assert(r@ =~= s@.skip(i as int));
    r
}

pub fn trim_end(s: &str) -> (r: String)
    ensures
        r@ == trimmed_end(s@),
{
    let v = chars_of(s);
    let mut n: usize = v.len();
    assert(s@.take(n as int) =~= s@);
    while n > 0 && space(v[n - 1])
        invariant
            n <= v@.len(),
            v@ == s@,
            trimmed_end(s@) == trimmed_end(s@.take(n as int)),
        decreases n,
    {
        assert(s@.take(n as int).drop_last() =~= s@.take(n - 1));
        n = n - 1;
    }
    let r = text_between(&v, 0, n);
    assert(r@ =~= s@.take(n as int));
    r
}

pub fn trim(s: &str) -> (r: String)
    ensures
        r@ == trimmed(s@),
{
    let a = trim_start(s);
    trim_end(a.as_str())
}

/// The text holds nothing but white space.
pub open spec fn blank(s: Seq<char>) -> bool {
    forall|i: int| 0 <= i < s.len() ==> is_space(#[trigger] s[i])
}

pub fn is_blank(s: &str) -> (r: bool)
    ensures
        r == blank(s@),
{
    let v = chars_of(s);
    let mut i: usize = 0;
    while i < v.len()
        invariant
            i <= v@.len(),
            v@ == s@,
            forall|j: int| 0 <= j < i ==> is_space(#[trigger] s@[j]),
        decreases v@.len() - i,
    {
        if !space(v[i]) {
            assert(!is_space(s@[i as int]));
            return false;
        }
        i = i + 1;
    }
    true
}

pub open spec fn is_digit(c: char) -> bool {
    '0' <= c <= '9'
}

pub open spec fn is_letter(c: char) -> bool {
    'a' <= c <= 'z' || 'A' <= c <= 'Z'
}

pub open spec fn is_alnum(c: char) -> bool {
    is_letter(c) || is_digit(c)
}

pub fn digit(c: char) -> (r: bool)
    ensures
        r == is_digit(c),
{
    '0' <= c && c <= '9'
}

pub fn letter(c: char) -> (r: bool)
    ensures
        r == is_letter(c),
{
    ('a' <= c && c <= 'z') || ('A' <= c && c <= 'Z')
}

pub fn alnum(c: char) -> (r: bool)
    ensures
        r == is_alnum(c),
{
    letter(c) || digit(c)
}

/// The digit for a number below ten.
pub open spec fn digit_of(n: nat) -> char {
    (48 + n) as char
}

/// A number in decimal.
pub open spec fn decimal(n: nat) -> Seq<char>
    decreases n,
{
    if n < 10 {
        seq![digit_of(n)]
    } else {
        decimal(n / 10).push(digit_of(n % 10))
    }
}

/// A signed number in decimal.
pub open spec fn decimal_int(n: int) -> Seq<char> {
    if n < 0 {
        seq!['-'] + decimal((-n) as nat)
    } else {
        decimal(n as nat)
    }
}

pub fn to_decimal(n: u64) -> (r: String)
    ensures
        r@ == decimal(n as nat),
    decreases n,
{
    let mut out = if n < 10 {
        String::new()
    } else {
        to_decimal(n / 10)
    };
    let d: u8 = 48 + (n % 10) as u8;
    out.push(d as char);
    assert(out@ =~= decimal(n as nat));
    out
}

/// What a run of digits counts to.
pub open spec fn number(s: Seq<char>) -> nat
    decreases s.len(),
{
    if s.len() == 0 {
        0
    } else {
        number(s.drop_last()) * 10 + (s.last() as nat - 48) as nat
    }
}

pub open spec fn all_digits(s: Seq<char>) -> bool {
    forall|i: int| 0 <= i < s.len() ==> is_digit(#[trigger] s[i])
}

/// A number written in decimal digits, at most `max`.
pub open spec fn parsed(s: Seq<char>, max: nat) -> Option<nat> {
    if s.len() > 0 && all_digits(s) && number(s) <= max {
        Some(number(s))
    } else {
        None
    }
}

proof fn lemma_number_monotonic(s: Seq<char>, n: int)
    requires
        0 <= n <= s.len(),
        all_digits(s),
    ensures
        number(s.take(n)) <= number(s),
    decreases s.len() - n,
{
    if n < s.len() {
        lemma_number_monotonic(s, n + 1);
        assert(s.take(n + 1).drop_last() =~= s.take(n));
        assert(is_digit(s[n]));
    } else {
        assert(s.take(n) =~= s);
    }
}

/// A number in decimal digits that fits.
pub fn parse_u64(s: &str) -> (r: Option<u64>)
    ensures
        match r {
            Some(n) => parsed(s@, u64::MAX as nat) == Some(n as nat),
            None => parsed(s@, u64::MAX as nat) is None,
        },
{
    let v = chars_of(s);
    if v.len() == 0 {
        return None;
    }
    let mut i: usize = 0;
    while i < v.len()
        invariant
            i <= v@.len(),
            v@ == s@,
            forall|j: int| 0 <= j < i ==> is_digit(#[trigger] s@[j]),
        decreases v@.len() - i,
    {
        if !digit(v[i]) {
            assert(!is_digit(s@[i as int]));
            return None;
        }
        i = i + 1;
    }
    let mut n: u64 = 0;
    i = 0;
    while i < v.len()
        invariant
            i <= v@.len(),
            v@ == s@,
            all_digits(s@),
            n == number(s@.take(i as int)),
        decreases v@.len() - i,
    {
        assert(is_digit(s@[i as int]));
        let d: u64 = (v[i] as u32 - 48) as u64;
        proof {
            assert(s@.take(i + 1).drop_last() =~= s@.take(i as int));
            lemma_number_monotonic(s@, i + 1);
        }
        if n > (u64::MAX - d) / 10 {
            return None;
        }
        n = n * 10 + d;
        i = i + 1;
    }
    assert(s@.take(i as int) =~= s@);
    Some(n)
}

/// What `{:?}` makes of a text: quoted, with what is not printable escaped.
pub uninterp spec fn debug_text(s: Seq<char>) -> Seq<char>;

/// `format!("{:?}")` of a text, which is a function of the text alone.
#[verifier::external_body]
pub(crate) fn quoted(s: &str) -> (r: String)
    ensures
        r@ == debug_text(s@),
{
    format!("{:?}", s)
}

/// The first `n` texts as they stand in a bracketed list: quoted, with `, ` between them.
pub open spec fn debug_items(v: Seq<Seq<char>>, n: int) -> Seq<char>
    decreases n,
{
    if n <= 0 {
        Seq::empty()
    } else if n == 1 {
        debug_text(v[0])
    } else {
        debug_items(v, n - 1) + ", "@ + debug_text(v[n - 1])
    }
}

/// A list of texts as `{:?}` shows it.
pub open spec fn debug_list(v: Seq<Seq<char>>) -> Seq<char> {
    "["@ + debug_items(v, v.len() as int) + "]"@
}

pub fn quoted_list(v: &Vec<String>) -> (r: String)
    ensures
        r@ == debug_list(v.deep_view()),
{
    let mut out = String::new();
    let mut i: usize = 0;
    while i < v.len()
        invariant
            i <= v@.len(),
            out@ == debug_items(v.deep_view(), i as int),
        decreases v@.len() - i,
    {
        if i > 0 {
            out.append(", ");
        }
        let q = quoted(v[i].as_str());
        assert(i == 0 ==> out@ + q@ =~= q@);
        out.append(q.as_str());
        i = i + 1;
    }
    cat3("[", out.as_str(), "]")
}

/// The text is one of those.
pub fn is_one_of(s: &str, v: &Vec<String>) -> (r: bool)
    ensures
        r == v.deep_view().contains(s@),
{
    let mut i: usize = 0;
    while i < v.len()
        invariant
            i <= v@.len(),
            forall|j: int| 0 <= j < i ==> v@[j]@ != s@,
        decreases v@.len() - i,
    {
        if same(v[i].as_str(), s) {
            assert(v.deep_view()[i as int] == s@);
            return true;
        }
        i = i + 1;
    }
    assert(forall|j: int| 0 <= j < v.deep_view().len() ==> v.deep_view()[j] != s@);
    false
}

/// A copy of the list.
pub fn copy_list(v: &Vec<String>) -> (r: Vec<String>)
    ensures
        r.deep_view() == v.deep_view(),
{
    let mut out: Vec<String> = Vec::new();
    let mut i: usize = 0;
    while i < v.len()
        invariant
            i <= v@.len(),
            out.deep_view() == v.deep_view().take(i as int),
        decreases v@.len() - i,
    {
        put(&mut out, v[i].clone());
        assert(out.deep_view() =~= v.deep_view().take(i + 1));
        i = i + 1;
    }
    assert(out.deep_view() =~= v.deep_view());
    out
}

/// A copy of the text, where there is one.
pub fn copy_opt(v: &Option<String>) -> (r: Option<String>)
    ensures
        r.deep_view() == v.deep_view(),
{
    match v {
        Some(s) => Some(s.clone()),
        None => None,
    }
}

/// The text padded with spaces up to `width` characters.
pub open spec fn padded(s: Seq<char>, width: int) -> Seq<char> {
    if s.len() >= width {
        s
    } else {
        s + Seq::new((width - s.len()) as nat, |i: int| ' ')
    }
}

pub fn pad(s: &str, width: usize) -> (r: String)
    ensures
        r@ == padded(s@, width as int),
{
    let mut out = s.to_owned();
    let have: usize = s.unicode_len();
    let mut n: usize = have;
    while n < width
        invariant
            have == s@.len(),
            n >= have,
            n <= width || n == have,
            out@ == s@ + Seq::new((n - s@.len()) as nat, |i: int| ' '),
        decreases width - n,
    {
        out.push(' ');
        n = n + 1;
        assert(out@ =~= s@ + Seq::new((n - s@.len()) as nat, |i: int| ' '));
    }
    assert(s@ + Seq::new(0, |i: int| ' ') =~= s@);
    out
}

/// At most the first `n` characters.
pub open spec fn first_chars(s: Seq<char>, n: int) -> Seq<char> {
    if s.len() <= n {
        s
    } else {
        s.take(n)
    }
}

pub fn shorten(s: &str, n: usize) -> (r: String)
    ensures
        r@ == first_chars(s@, n as int),
{
    let v = chars_of(s);
    if v.len() <= n {
        s.to_owned()
    } else {
        let r = text_between(&v, 0, n);
        assert(r@ =~= s@.take(n as int));
        r
    }
}

/// A line that a line break ended, without the carriage return before it.
pub open spec fn ended_line(s: Seq<char>) -> Seq<char> {
    if s.len() > 0 && s.last() == '\r' {
        s.drop_last()
    } else {
        s
    }
}

/// The first `n` of these pieces as the lines they are, all of them ended by a line break.
pub open spec fn ended_lines(p: Seq<Seq<char>>, n: int) -> Seq<Seq<char>> {
    Seq::new(
        if n < 0 {
            0
        } else {
            n as nat
        },
        |i: int| ended_line(p[i]),
    )
}

/// The lines of a text. What follows the last line break is one where it is not empty.
pub open spec fn lines_of(s: Seq<char>) -> Seq<Seq<char>> {
    let p = pieces(s, '\n');
    if p.len() > 0 && p.last().len() > 0 {
        ended_lines(p, p.len() - 1).push(p.last())
    } else {
        ended_lines(p, p.len() - 1)
    }
}

pub fn lines(s: &str) -> (r: Vec<String>)
    ensures
        r.deep_view() == lines_of(s@),
{
    let p = split(s, '\n');
    let ghost all = p.deep_view();
    assert(all.len() == p@.len());
    let last: usize = p.len() - 1;
    let mut out: Vec<String> = Vec::new();
    let mut i: usize = 0;
    assert(out.deep_view() =~= ended_lines(all, 0));
    while i < last
        invariant
            i <= last,
            last == p@.len() - 1,
            all == p.deep_view(),
            out.deep_view() == ended_lines(all, i as int),
        decreases last - i,
    {
        let v = chars_of(p[i].as_str());
        let line = if v.len() > 0 && v[v.len() - 1] == '\r' {
            let l = text_between(&v, 0, v.len() - 1);
            assert(l@ =~= v@.drop_last());
            l
        } else {
            p[i].clone()
        };
        assert(all[i as int] == p@[i as int]@);
        put(&mut out, line);
        i = i + 1;
        assert(out.deep_view() =~= ended_lines(all, i as int));
    }
    assert(all.last() == p@[last as int]@);
    if !p[last].as_str().is_empty() {
        put(&mut out, p[last].clone());
    }
    out
}

/// A number in decimal digits, a plus sign before it or not, at most `max`.
pub open spec fn parsed_signed(s: Seq<char>, max: nat) -> Option<nat> {
    if s.len() > 0 && s[0] == '+' {
        parsed(s.skip(1), max)
    } else {
        parsed(s, max)
    }
}

/// A number in decimal digits, a plus sign before it or not, at most `max`.
pub fn parse_upto(s: &str, max: u64) -> (r: Option<u64>)
    ensures
        match r {
            Some(n) => parsed_signed(s@, max as nat) == Some(n as nat),
            None => parsed_signed(s@, max as nat) is None,
        },
{
    let v = chars_of(s);
    let found = if v.len() > 0 && v[0] == '+' {
        let rest = text_between(&v, 1, v.len());
        assert(rest@ =~= s@.skip(1));
        parse_u64(rest.as_str())
    } else {
        parse_u64(s)
    };
    match found {
        Some(n) => if n <= max {
            Some(n)
        } else {
            None
        },
        None => None,
    }
}

/// The last place below `to` at which the character stands, or -1.
pub open spec fn last_char(s: Seq<char>, c: char, to: int) -> int
    decreases to,
{
    if to <= 0 || to > s.len() {
        -1
    } else if s[to - 1] == c {
        to - 1
    } else {
        last_char(s, c, to - 1)
    }
}

/// The text before and after the last `c`, where there is one.
pub open spec fn cut_last(s: Seq<char>, c: char) -> Option<(Seq<char>, Seq<char>)> {
    let at = last_char(s, c, s.len() as int);
    if at >= 0 {
        Some((s.take(at), s.skip(at + 1)))
    } else {
        None
    }
}

pub fn cut_at_last(s: &str, c: char) -> (r: Option<(String, String)>)
    ensures
        r.deep_view() == cut_last(s@, c),
{
    let v = chars_of(s);
    let mut to: usize = v.len();
    while to > 0 && v[to - 1] != c
        invariant
            to <= v@.len(),
            last_char(v@, c, to as int) == last_char(v@, c, v@.len() as int),
        decreases to,
    {
        to = to - 1;
    }
    if to == 0 {
        return None;
    }
    let a = text_between(&v, 0, to - 1);
    let b = text_between(&v, to, v.len());
    assert(a@ =~= s@.take(to - 1));
    assert(b@ =~= s@.skip(to as int));
    Some((a, b))
}

/// The end of the run of characters from `i` on that are no white space.
pub open spec fn word_end(s: Seq<char>, i: int) -> int
    decreases s.len() - i,
{
    if i < 0 || i >= s.len() || is_space(s[i]) {
        i
    } else {
        word_end(s, i + 1)
    }
}

proof fn lemma_word_end(s: Seq<char>, i: int)
    requires
        0 <= i <= s.len(),
    ensures
        i <= word_end(s, i) <= s.len(),
    decreases s.len() - i,
{
    if i < s.len() && !is_space(s[i]) {
        lemma_word_end(s, i + 1);
    }
}

/// The words from `i` on: the runs of characters that are no white space.
pub open spec fn words_from(s: Seq<char>, i: int) -> Seq<Seq<char>>
    decreases s.len() - i,
    when 0 <= i
    via words_from_decreases
{
    if i >= s.len() {
        Seq::empty()
    } else if is_space(s[i]) {
        words_from(s, i + 1)
    } else {
        seq![s.subrange(i, word_end(s, i))] + words_from(s, word_end(s, i))
    }
}

#[via_fn]
proof fn words_from_decreases(s: Seq<char>, i: int) {
    if i < s.len() && !is_space(s[i]) {
        lemma_word_end(s, i + 1);
    }
}

/// The words of a text.
pub open spec fn words_of(s: Seq<char>) -> Seq<Seq<char>> {
    words_from(s, 0)
}

pub fn words(s: &str) -> (r: Vec<String>)
    ensures
        r.deep_view() == words_of(s@),
{
    let v = chars_of(s);
    let total: usize = v.len();
    let mut out: Vec<String> = Vec::new();
    let mut i: usize = 0;
    assert(out.deep_view() + words_from(s@, 0) =~= words_of(s@));
    while i < total
        invariant
            total == v@.len(),
            v@ == s@,
            i <= total,
            out.deep_view() + words_from(s@, i as int) == words_of(s@),
        decreases total - i,
    {
        if space(v[i]) {
            i = i + 1;
        } else {
            let mut end: usize = i + 1;
            while end < total && !space(v[end])
                invariant
                    total == v@.len(),
                    v@ == s@,
                    i < end <= total,
                    word_end(s@, end as int) == word_end(s@, i as int),
                decreases total - end,
            {
                end = end + 1;
            }
            let ghost had = out.deep_view();
            put(&mut out, text_between(&v, i, end));
            assert(out.deep_view() + words_from(s@, end as int) =~= had + words_from(s@, i as int));
            i = end;
        }
    }
    assert(out.deep_view() =~= words_of(s@));
    out
}

} // verus!
