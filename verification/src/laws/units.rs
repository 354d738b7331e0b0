//! Numbers read back as they are written, with their units.

use crate::text::{all_digits, decimal, is_digit, lemma_next_char, next_char, number, pieces, pieces_from};
use crate::units::{digits_end, duration, mem_mib, version_of, Version};
use vstd::prelude::*;

verus! {

/// A number reads back as it is written.
pub proof fn law_decimal_reads_back(n: nat)
    ensures
        decimal(n).len() > 0,
        all_digits(decimal(n)),
        number(decimal(n)) == n,
    decreases n,
{
    if n >= 10 {
        law_decimal_reads_back(n / 10);
        let d = decimal(n);
        assert(d.drop_last() =~= decimal(n / 10));
        assert forall|i: int| 0 <= i < d.len() implies is_digit(#[trigger] d[i]) by {
            if i < d.len() - 1 {
                assert(d[i] == decimal(n / 10)[i]);
            }
        }
    } else {
        let d = decimal(n);
        assert(d.drop_last() =~= Seq::<char>::empty());
        reveal_with_fuel(number, 2);
    }
}

proof fn lemma_digits_end(s: Seq<char>, from: int, n: int)
    requires
        0 <= from <= n <= s.len(),
        forall|i: int| 0 <= i < n ==> is_digit(#[trigger] s[i]),
        n < s.len() ==> !is_digit(s[n]),
    ensures
        digits_end(s, from) == n,
    decreases n - from,
{
    if from < n {
        lemma_digits_end(s, from + 1, n);
    }
}

/// A time is read by its unit: seconds, minutes, hours, and seconds where it has none.
pub proof fn law_durations(n: nat)
    requires
        n * 3600 <= u64::MAX,
    ensures
        duration(decimal(n)) == Some(n),
        duration(decimal(n) + "s"@) == Some(n),
        duration(decimal(n) + "m"@) == Some((n * 60) as nat),
        duration(decimal(n) + "h"@) == Some((n * 3600) as nat),
{
    reveal_strlit("");
    reveal_strlit("s");
    reveal_strlit("m");
    reveal_strlit("h");
    law_decimal_reads_back(n);
    let d = decimal(n);
    let k = d.len() as int;
    assert("s"@ =~= seq!['s'] && "m"@ =~= seq!['m'] && "h"@ =~= seq!['h']);
    lemma_digits_end(d, 0, k);
    assert(d.take(k) =~= d);
    assert(d.skip(k) =~= Seq::<char>::empty());
    let a = d + "s"@;
    let b = d + "m"@;
    let c = d + "h"@;
    assert forall|i: int| 0 <= i < k implies is_digit(#[trigger] a[i]) by {
        assert(a[i] == d[i]);
    }
    assert forall|i: int| 0 <= i < k implies is_digit(#[trigger] b[i]) by {
        assert(b[i] == d[i]);
    }
    assert forall|i: int| 0 <= i < k implies is_digit(#[trigger] c[i]) by {
        assert(c[i] == d[i]);
    }
    assert(a[k] == 's' && b[k] == 'm' && c[k] == 'h');
    lemma_digits_end(a, 0, k);
    lemma_digits_end(b, 0, k);
    lemma_digits_end(c, 0, k);
    assert(a.take(k) =~= d && a.skip(k) =~= "s"@);
    assert(b.take(k) =~= d && b.skip(k) =~= "m"@);
    assert(c.take(k) =~= d && c.skip(k) =~= "h"@);
    assert(d.skip(k) =~= ""@);
    assert(n * 1 == n);
}

/// Memory is read in MiB: by itself or behind `M` as it stands, behind `G` as a thousand and
/// twenty-four of them; and there is no memory of nothing.
pub proof fn law_memory(n: nat)
    requires
        n * 1024 <= u64::MAX,
    ensures
        n > 0 ==> mem_mib(decimal(n)) == Some(n) && mem_mib(decimal(n) + "M"@) == Some(n) && mem_mib(decimal(n) + "G"@)
            == Some((n * 1024) as nat),
        n == 0 ==> mem_mib(decimal(n)) is None && mem_mib(decimal(n) + "M"@) is None && mem_mib(decimal(n) + "G"@)
            is None,
{
    reveal_strlit("M");
    reveal_strlit("G");
    law_decimal_reads_back(n);
    let d = decimal(n);
    assert("M"@ =~= seq!['M'] && "G"@ =~= seq!['G']);
    assert(is_digit(d.last()));
    assert((d + "M"@).drop_last() =~= d && (d + "M"@).last() == 'M');
    assert((d + "G"@).drop_last() =~= d && (d + "G"@).last() == 'G');
}

proof fn lemma_last_piece(s: Seq<char>, from: int)
    requires
        0 <= from <= s.len(),
        forall|i: int| from <= i < s.len() ==> s[i] != '.',
    ensures
        pieces_from(s, '.', from) == seq![s.skip(from)],
{
    lemma_next_char(s, '.', from);
    assert(next_char(s, '.', from) == s.len());
    assert(s.subrange(from, s.len() as int) =~= s.skip(from));
}

proof fn lemma_piece(s: Seq<char>, from: int, n: int)
    requires
        0 <= from <= n < s.len(),
        s[n] == '.',
        forall|i: int| from <= i < n ==> s[i] != '.',
    ensures
        pieces_from(s, '.', from) == seq![s.subrange(from, n)] + pieces_from(s, '.', n + 1),
{
    lemma_next_char(s, '.', from);
    let at = next_char(s, '.', from);
    assert(at == n);
}

/// A release reads back as it is written.
pub proof fn law_release_reads_back(v: Version)
    ensures
        version_of(v.spelling()) == Some(v),
{
    reveal_strlit(".");
    assert("."@ =~= seq!['.']);
    let a = decimal(v.major as nat);
    let b = decimal(v.minor as nat);
    let c = decimal(v.patch as nat);
    law_decimal_reads_back(v.major as nat);
    law_decimal_reads_back(v.minor as nat);
    law_decimal_reads_back(v.patch as nat);
    let s = v.spelling();
    let (x, y) = (a.len() as int, a.len() as int + 1 + b.len());
    assert(s =~= a + seq!['.'] + b + seq!['.'] + c);
    assert forall|i: int| 0 <= i < x implies s[i] != '.' by {
        assert(s[i] == a[i]);
        assert(is_digit(a[i]));
    }
    assert forall|i: int| x + 1 <= i < y implies s[i] != '.' by {
        assert(s[i] == b[i - x - 1]);
        assert(is_digit(b[i - x - 1]));
    }
    assert forall|i: int| y + 1 <= i < s.len() implies s[i] != '.' by {
        assert(s[i] == c[i - y - 1]);
        assert(is_digit(c[i - y - 1]));
    }
    assert(s[x] == '.' && s[y] == '.');
    lemma_piece(s, 0, x);
    lemma_piece(s, x + 1, y);
    lemma_last_piece(s, y + 1);
    assert(s.subrange(0, x) =~= a);
    assert(s.subrange(x + 1, y) =~= b);
    assert(s.skip(y + 1) =~= c);
    assert(pieces(s, '.') =~= seq![a, b, c]);
}

/// Releases are ordered by their parts, the first before the second before the third.
pub proof fn law_releases_in_order(a: Version, b: Version, c: Version)
    ensures
        !a.older_than(a),
        a == b || a.older_than(b) || b.older_than(a),
        a.older_than(b) && b.older_than(c) ==> a.older_than(c),
        a.major < b.major ==> a.older_than(b),
        a.major == b.major && a.minor < b.minor ==> a.older_than(b),
        a.major == b.major && a.minor == b.minor && a.patch < b.patch ==> a.older_than(b),
{
}

} // verus!
