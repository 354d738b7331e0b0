//! What holds of texts, whatever is in them.

use crate::digest::{hex, hex_digit, hex_upto};
use crate::laws::show::{lemma_itself, lemma_sides};
use crate::text::{
    begins, contains, decimal, ended_line, ended_lines, first_chars, is_space, joined, joined_upto, lemma_next_char,
    lines_of, next_char, occurs_at, padded, pieces, pieces_from, replaced, replaced_from, trimmed, trimmed_end,
    trimmed_start,
};
use crate::units::{bytes_shown, uptime_shown};
use vstd::prelude::*;

verus! {

/// A text that is padded begins with itself, goes on in spaces, and is as wide as asked or as wide as
/// it was.
pub proof fn law_padded(s: Seq<char>, width: int, i: int)
    ensures
        begins(padded(s, width), s),
        padded(s, width).len() >= width,
        padded(s, width).len() == width || padded(s, width) == s,
        s.len() <= i < padded(s, width).len() ==> padded(s, width)[i] == ' ',
{
    assert(padded(s, width).take(s.len() as int) =~= s);
}

/// The first characters of a text are those it begins with, so many or all there are.
pub proof fn law_first_chars(s: Seq<char>, n: int)
    requires
        n >= 0,
    ensures
        begins(s, first_chars(s, n)),
        first_chars(s, n).len() <= n,
        first_chars(s, n).len() == n || first_chars(s, n) == s,
{
    assert(s.take(s.len() as int) =~= s);
}

proof fn lemma_trimmed_start(s: Seq<char>)
    ensures
        exists|n: int|
            0 <= n <= s.len() && #[trigger] s.skip(n) == trimmed_start(s) && forall|i: int|
                0 <= i < n ==> is_space(#[trigger] s[i]),
        trimmed_start(s).len() > 0 ==> !is_space(trimmed_start(s)[0]),
    decreases s.len(),
{
    if s.len() > 0 && is_space(s[0]) {
        let t = s.drop_first();
        lemma_trimmed_start(t);
        let n = choose|n: int|
            0 <= n <= t.len() && #[trigger] t.skip(n) == trimmed_start(t) && forall|i: int|
                0 <= i < n ==> is_space(#[trigger] t[i]);
        assert(s.skip(n + 1) =~= t.skip(n));
        assert forall|i: int| 0 <= i < n + 1 implies is_space(#[trigger] s[i]) by {
            if i > 0 {
                assert(t[i - 1] == s[i]);
            }
        }
    } else {
        assert(s.skip(0) =~= s);
    }
}

pub proof fn lemma_trimmed_end(s: Seq<char>)
    ensures
        exists|n: int|
            0 <= n <= s.len() && #[trigger] s.take(n) == trimmed_end(s) && forall|i: int|
                n <= i < s.len() ==> is_space(#[trigger] s[i]),
        trimmed_end(s).len() > 0 ==> !is_space(trimmed_end(s).last()),
    decreases s.len(),
{
    if s.len() > 0 && is_space(s.last()) {
        let t = s.drop_last();
        lemma_trimmed_end(t);
        let n = choose|n: int|
            0 <= n <= t.len() && #[trigger] t.take(n) == trimmed_end(t) && forall|i: int|
                n <= i < t.len() ==> is_space(#[trigger] t[i]);
        assert(s.take(n) =~= t.take(n));
        assert forall|i: int| n <= i < s.len() implies is_space(#[trigger] s[i]) by {
            if i < t.len() {
                assert(t[i] == s[i]);
            }
        }
    } else {
        assert(s.take(s.len() as int) =~= s);
    }
}

/// A text that is trimmed is what stands between the space around it, and neither begins nor ends
/// in space.
pub proof fn law_trimmed(s: Seq<char>)
    ensures
        exists|a: int, b: int|
            0 <= a <= b <= s.len() && #[trigger] s.subrange(a, b) == trimmed(s) && (forall|i: int|
                0 <= i < a || b <= i < s.len() ==> is_space(#[trigger] s[i])),
        trimmed(s).len() > 0 ==> !is_space(trimmed(s)[0]) && !is_space(trimmed(s).last()),
{
    lemma_trimmed_start(s);
    let t = trimmed_start(s);
    let a = choose|n: int|
        0 <= n <= s.len() && #[trigger] s.skip(n) == trimmed_start(s) && forall|i: int|
            0 <= i < n ==> is_space(#[trigger] s[i]);
    lemma_trimmed_end(t);
    let n = choose|n: int|
        0 <= n <= t.len() && #[trigger] t.take(n) == trimmed_end(t) && forall|i: int|
            n <= i < t.len() ==> is_space(#[trigger] t[i]);
    assert(s.subrange(a, a + n) =~= t.take(n));
    assert forall|i: int| 0 <= i < a || a + n <= i < s.len() implies is_space(#[trigger] s[i]) by {
        if i >= a {
            assert(t[i - a] == s[i]);
        }
    }
}

pub proof fn lemma_kept_until(hay: Seq<char>, needle: Seq<char>, with: Seq<char>, from: int, to: int)
    requires
        0 <= from <= to <= hay.len(),
        needle.len() > 0,
        forall|i: int| from <= i < to ==> !#[trigger] occurs_at(hay, needle, i),
    ensures
        replaced_from(hay, needle, with, from) == hay.subrange(from, to) + replaced_from(hay, needle, with, to),
    decreases to - from,
{
    if from < to {
        lemma_kept_until(hay, needle, with, from + 1, to);
        assert(!occurs_at(hay, needle, from));
        assert(hay.subrange(from, to) =~= seq![hay[from]] + hay.subrange(from + 1, to));
        assert(replaced_from(hay, needle, with, from) =~= hay.subrange(from, to) + replaced_from(
            hay,
            needle,
            with,
            to,
        ));
    } else {
        assert(hay.subrange(from, to) =~= Seq::<char>::empty());
        assert(Seq::<char>::empty() + replaced_from(hay, needle, with, to) =~= replaced_from(hay, needle, with, to));
    }
}

/// To replace is to put the one text where the other stands and to keep the rest: here for a text
/// that is looked for by its first character, which stands nowhere else.
pub proof fn law_replaced(a: Seq<char>, needle: Seq<char>, with: Seq<char>, b: Seq<char>)
    requires
        needle.len() > 0,
        !a.contains(needle[0]),
        !b.contains(needle[0]),
    ensures
        replaced(a + needle + b, needle, with) == a + with + b,
        replaced(a, needle, with) == a,
{
    let hay = a + needle + b;
    let n = a.len() as int;
    let m = needle.len() as int;
    assert forall|i: int| 0 <= i < n implies !#[trigger] occurs_at(hay, needle, i) by {
        if occurs_at(hay, needle, i) {
            assert(hay.subrange(i, i + m)[0] == hay[i]);
            assert(hay[i] == a[i]);
            assert(a.contains(a[i]));
        }
    }
    lemma_kept_until(hay, needle, with, 0, n);
    assert(hay.subrange(n, n + m) =~= needle);
    assert(occurs_at(hay, needle, n));
    assert forall|i: int| n + m <= i < hay.len() implies !#[trigger] occurs_at(hay, needle, i) by {
        if occurs_at(hay, needle, i) {
            assert(hay.subrange(i, i + m)[0] == hay[i]);
            assert(hay[i] == b[i - n - m]);
            assert(b.contains(b[i - n - m]));
        }
    }
    let end = hay.len() as int;
    lemma_kept_until(hay, needle, with, n + m, end);
    assert(hay.subrange(0, n) =~= a);
    assert(hay.subrange(n + m, end) =~= b);
    assert(replaced_from(hay, needle, with, end) =~= Seq::<char>::empty());
    assert(replaced(hay, needle, with) =~= a + with + b);
    assert forall|i: int| 0 <= i < n implies !#[trigger] occurs_at(a, needle, i) by {
        if occurs_at(a, needle, i) {
            assert(a.subrange(i, i + m)[0] == a[i]);
            assert(a.contains(a[i]));
        }
    }
    lemma_kept_until(a, needle, with, 0, n);
    assert(a.subrange(0, n) =~= a);
    assert(replaced(a, needle, with) =~= a);
}

proof fn lemma_joined_has(v: Seq<Seq<char>>, sep: Seq<char>, n: int, i: int)
    requires
        0 <= i < n <= v.len(),
    ensures
        contains(joined_upto(v, sep, n), v[i]),
    decreases n,
{
    if n == 1 {
        lemma_itself(v[0]);
    } else {
        let had = joined_upto(v, sep, n - 1);
        lemma_sides(had, sep, v[i]);
        lemma_sides(had + sep, v[n - 1], v[i]);
        if i < n - 1 {
            lemma_joined_has(v, sep, n - 1, i);
        } else {
            lemma_itself(v[i]);
        }
    }
}

/// Texts that are joined all stand in what they are joined to.
pub proof fn law_joined(v: Seq<Seq<char>>, sep: Seq<char>, i: int)
    ensures
        0 <= i < v.len() ==> contains(joined(v, sep), v[i]),
        v.len() == 0 ==> joined(v, sep).len() == 0,
{
    if 0 <= i < v.len() {
        lemma_joined_has(v, sep, v.len() as int, i);
    }
}

proof fn lemma_pieces_after(a: Seq<char>, b: Seq<char>, from: int)
    requires
        a.len() + 1 <= from <= a.len() + 1 + b.len(),
    ensures
        pieces_from(a.push('\n') + b, '\n', from) == pieces_from(b, '\n', from - a.len() - 1),
    decreases a.len() + 1 + b.len() - from,
{
    let s = a.push('\n') + b;
    let off = a.len() as int + 1;
    lemma_next_char(s, '\n', from);
    lemma_next_char(b, '\n', from - off);
    let x = next_char(s, '\n', from);
    let y = next_char(b, '\n', from - off);
    if y < b.len() {
        assert(s[y + off] == b[y]);
    }
    if x < s.len() {
        assert(s[x] == b[x - off]);
    }
    if x < y + off {
        assert(s[x] == b[x - off]);
    }
    if y + off < x {
        assert(s[y + off] == b[y]);
    }
    assert(x == y + off);
    assert(s.subrange(from, x) =~= b.subrange(from - off, y));
    if x < s.len() {
        lemma_pieces_after(a, b, x + 1);
    }
}

/// The lines of a text are read off one after another: the first up to its end, without a carriage
/// return before it, and those of the rest; and an empty text has none.
pub proof fn law_lines(a: Seq<char>, b: Seq<char>)
    requires
        !a.contains('\n'),
    ensures
        lines_of(a.push('\n') + b) == seq![
            if a.len() > 0 && a.last() == '\r' {
                a.drop_last()
            } else {
                a
            },
        ] + lines_of(b),
        a.len() > 0 ==> lines_of(a) == seq![a],
        lines_of(Seq::empty()).len() == 0,
{
    let s = a.push('\n') + b;
    let n = a.len() as int;
    lemma_next_char(s, '\n', 0);
    let at = next_char(s, '\n', 0);
    assert(s[n] == '\n');
    if at < n {
        assert(s[at] == a[at]);
        assert(a.contains(a[at]));
    }
    assert(at == n);
    assert(s.subrange(0, n) =~= a);
    lemma_pieces_after(a, b, n + 1);
    let q = pieces(b, '\n');
    let p = pieces(s, '\n');
    assert(p == seq![a] + q);
    lemma_some_piece(b, 0);
    assert(p.last() == q.last());
    assert(ended_lines(p, p.len() - 1) =~= seq![ended_line(a)] + ended_lines(q, q.len() - 1));
    if q.last().len() > 0 {
        assert(lines_of(s) =~= seq![ended_line(a)] + lines_of(b));
    } else {
        assert(lines_of(s) =~= seq![ended_line(a)] + lines_of(b));
    }
    lemma_next_char(a, '\n', 0);
    let e = next_char(a, '\n', 0);
    if e < n {
        assert(a.contains(a[e]));
    }
    assert(a.subrange(0, n) =~= a);
    assert(pieces(a, '\n') =~= seq![a]);
    if n > 0 {
        assert(lines_of(a) =~= seq![a]);
    }
    let none = Seq::<char>::empty();
    lemma_next_char(none, '\n', 0);
    assert(none.subrange(0, 0) =~= none);
    assert(pieces(none, '\n') =~= seq![none]);
}

proof fn lemma_some_piece(s: Seq<char>, from: int)
    requires
        0 <= from <= s.len(),
    ensures
        pieces_from(s, '\n', from).len() > 0,
{
    lemma_next_char(s, '\n', from);
}

proof fn lemma_hex(a: Seq<u8>, b: Seq<u8>, n: int)
    requires
        0 <= n <= a.len(),
        n <= b.len(),
    ensures
        hex_upto(a, n).len() == 2 * n,
        hex_upto(a, n) == hex_upto(b, n) ==> a.take(n) == b.take(n),
    decreases n,
{
    if n > 0 {
        lemma_hex(a, b, n - 1);
        lemma_hex(b, a, n - 1);
        let x = hex_upto(a, n);
        let y = hex_upto(b, n);
        if x == y {
            assert(x.drop_last().drop_last() =~= hex_upto(a, n - 1));
            assert(y.drop_last().drop_last() =~= hex_upto(b, n - 1));
            assert(x[2 * n - 1] == hex_digit(a[n - 1] % 16) && x[2 * n - 2] == hex_digit(a[n - 1] / 16));
            assert(y[2 * n - 1] == hex_digit(b[n - 1] % 16) && y[2 * n - 2] == hex_digit(b[n - 1] / 16));
            assert(a[n - 1] % 16 == b[n - 1] % 16);
            assert(a[n - 1] / 16 == b[n - 1] / 16);
            assert(a[n - 1] == b[n - 1]);
            assert(a.take(n) =~= a.take(n - 1).push(a[n - 1]));
            assert(b.take(n) =~= b.take(n - 1).push(b[n - 1]));
        }
    } else {
        assert(a.take(0) =~= b.take(0));
    }
}

/// Bytes are told apart by their hexadecimal, two digits for each.
pub proof fn law_hex(a: Seq<u8>, b: Seq<u8>)
    ensures
        hex(a).len() == 2 * a.len(),
        hex(a) == hex(b) ==> a == b,
{
    lemma_hex(a, a, a.len() as int);
    lemma_hex(b, b, b.len() as int);
    if hex(a) == hex(b) {
        assert(a.len() == b.len());
        lemma_hex(a, b, a.len() as int);
        assert(a.take(a.len() as int) =~= a);
        assert(b.take(b.len() as int) =~= b);
    }
}

/// A size is shown as how many of the largest unit fit in it.
pub proof fn law_sizes(n: u64, q: u64)
    ensures
        n < 1024 ==> bytes_shown(n) == decimal(n as nat) + " B"@,
        1 <= q < 1024 && q * 1024 <= n < (q + 1) * 1024 ==> bytes_shown(n) == decimal(q as nat) + " KiB"@,
        1 <= q < 1024 && q * 1048576 <= n < (q + 1) * 1048576 ==> bytes_shown(n) == decimal(q as nat) + " MiB"@,
        1 <= q < 1024 && q * 1073741824 <= n < (q + 1) * 1073741824 ==> bytes_shown(n) == decimal(q as nat) + " GiB"@,
        1 <= q && q * 1099511627776 <= n < (q + 1) * 1099511627776 ==> bytes_shown(n) == decimal(q as nat) + " TiB"@,
{
    if 1 <= q < 1024 && q * 1024 <= n < (q + 1) * 1024 {
        assert(n / 1024 == q) by (nonlinear_arith)
            requires
                q * 1024 <= n < (q + 1) * 1024,
        ;
    }
    if 1 <= q < 1024 && q * 1048576 <= n < (q + 1) * 1048576 {
        assert(n / 1048576 == q) by (nonlinear_arith)
            requires
                q * 1048576 <= n < (q + 1) * 1048576,
        ;
    }
    if 1 <= q < 1024 && q * 1073741824 <= n < (q + 1) * 1073741824 {
        assert(n / 1073741824 == q) by (nonlinear_arith)
            requires
                q * 1073741824 <= n < (q + 1) * 1073741824,
        ;
    }
    if 1 <= q && q * 1099511627776 <= n < (q + 1) * 1099511627776 {
        assert(n / 1099511627776 == q) by (nonlinear_arith)
            requires
                q * 1099511627776 <= n < (q + 1) * 1099511627776,
        ;
    }
}

/// A time is shown by its two largest units.
pub proof fn law_times(d: u64, h: u64, m: u64, s: u64)
    requires
        d <= 100000000000000,
        h < 24,
        m < 60,
        s < 60,
    ensures
        ({
            let n = (d * 86400 + h * 3600 + m * 60 + s) as u64;
            &&& d > 0 ==> uptime_shown(n) == decimal(d as nat) + "d"@ + decimal(h as nat) + "h"@
            &&& d == 0 && h > 0 ==> uptime_shown(n) == decimal(h as nat) + "h"@ + decimal(m as nat) + "m"@
            &&& d == 0 && h == 0 && m > 0 ==> uptime_shown(n) == decimal(m as nat) + "m"@ + decimal(s as nat) + "s"@
            &&& d == 0 && h == 0 && m == 0 ==> uptime_shown(n) == decimal(s as nat) + "s"@
        }),
{
    let n = (d * 86400 + h * 3600 + m * 60 + s) as u64;
    let r = h * 3600 + m * 60 + s;
    assert(0 <= r < 86400);
    assert(n / 86400 == d && n % 86400 == r) by (nonlinear_arith)
        requires
            n == d * 86400 + r,
            0 <= r < 86400,
    ;
    let t = m * 60 + s;
    assert(r / 3600 == h && r % 3600 == t) by (nonlinear_arith)
        requires
            r == h * 3600 + t,
            0 <= t < 3600,
    ;
    assert(t / 60 == m && t % 60 == s) by (nonlinear_arith)
        requires
            t == m * 60 + s,
            0 <= s < 60,
    ;
}

} // verus!
