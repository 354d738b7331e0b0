//! What is stripped from a commented JSON text.

use crate::jsonc::{blanked, closes_from, place_at, plain_json, trails, uncommented, untrailed, Place};
use crate::text::is_space;
use vstd::prelude::*;

verus! {

/// Nothing but spaces.
pub open spec fn all_spaces(m: Seq<char>) -> bool {
    forall|i: int| 0 <= i < m.len() ==> #[trigger] m[i] == ' '
}

/// Nothing but spaces and line breaks.
pub open spec fn all_blank(m: Seq<char>) -> bool {
    forall|i: int| 0 <= i < m.len() ==> #[trigger] m[i] == ' ' || m[i] == '\n'
}

proof fn lemma_after(a: Seq<char>, b: Seq<char>, k: int, at: Place)
    requires
        0 <= k <= b.len(),
    ensures
        uncommented(a + b, a.len() + k, at) == uncommented(b, k, at),
    decreases b.len() - k,
{
    let s = a + b;
    let i = a.len() + k;
    if k < b.len() {
        assert(s[i] == b[k]);
        if k + 1 < b.len() {
            assert(s[i + 1] == b[k + 1]);
        }
        match at {
            Place::Text { escaped } => {
                lemma_after(a, b, k + 1, crate::jsonc::after_in_text(b[k], escaped));
            },
            Place::Line => {
                lemma_after(
                    a,
                    b,
                    k + 1,
                    if b[k] == '\n' {
                        Place::Code
                    } else {
                        Place::Line
                    },
                );
            },
            Place::Block { star } => {
                lemma_after(
                    a,
                    b,
                    k + 1,
                    if star && b[k] == '/' {
                        Place::Code
                    } else {
                        Place::Block { star: b[k] == '*' }
                    },
                );
            },
            Place::Code => {
                lemma_after(a, b, k + 1, Place::Text { escaped: false });
                lemma_after(a, b, k + 1, Place::Line);
                lemma_after(a, b, k + 1, Place::Code);
                if k + 1 < b.len() {
                    lemma_after(a, b, k + 2, Place::Block { star: false });
                }
            },
        }
    }
}

proof fn lemma_code(s: Seq<char>, i: int, n: int)
    requires
        0 <= i <= n <= s.len(),
        forall|k: int| i <= k < n ==> #[trigger] s[k] != '"' && s[k] != '/',
    ensures
        uncommented(s, i, Place::Code) == s.subrange(i, n) + uncommented(s, n, Place::Code),
    decreases n - i,
{
    if i < n {
        lemma_code(s, i + 1, n);
        assert(s[i] != '"' && s[i] != '/');
        assert(s.subrange(i, n) =~= seq![s[i]] + s.subrange(i + 1, n));
        assert(uncommented(s, i, Place::Code) =~= s.subrange(i, n) + uncommented(s, n, Place::Code));
    } else {
        assert(s.subrange(i, n) =~= Seq::<char>::empty());
        assert(Seq::<char>::empty() + uncommented(s, n, Place::Code) =~= uncommented(s, n, Place::Code));
    }
}

proof fn lemma_line(s: Seq<char>, i: int, n: int) -> (m: Seq<char>)
    requires
        0 <= i <= n <= s.len(),
        forall|k: int| i <= k < n ==> #[trigger] s[k] != '\n',
    ensures
        all_spaces(m),
        uncommented(s, i, Place::Line) == m + uncommented(s, n, Place::Line),
    decreases n - i,
{
    if i < n {
        let rest = lemma_line(s, i + 1, n);
        assert(s[i] != '\n');
        let m = blanked(s[i]) + rest;
        assert(uncommented(s, i, Place::Line) =~= m + uncommented(s, n, Place::Line));
        m
    } else {
        assert(Seq::<char>::empty() + uncommented(s, n, Place::Line) =~= uncommented(s, n, Place::Line));
        Seq::empty()
    }
}

proof fn lemma_block(s: Seq<char>, i: int, n: int) -> (m: Seq<char>)
    requires
        0 <= i <= n <= s.len(),
        forall|k: int| i <= k < n ==> #[trigger] s[k] != '*',
    ensures
        all_blank(m),
        uncommented(s, i, Place::Block { star: false }) == m + uncommented(s, n, Place::Block { star: false }),
    decreases n - i,
{
    let at = Place::Block { star: false };
    if i < n {
        let rest = lemma_block(s, i + 1, n);
        assert(s[i] != '*');
        let m = blanked(s[i]) + rest;
        assert(uncommented(s, i, at) =~= m + uncommented(s, n, at));
        m
    } else {
        assert(Seq::<char>::empty() + uncommented(s, n, at) =~= uncommented(s, n, at));
        Seq::empty()
    }
}

/// A comment to the end of its line comes to spaces, the text before it and the lines after it to
/// themselves and what they come to.
pub proof fn law_line_comment(a: Seq<char>, c: Seq<char>, b: Seq<char>)
    requires
        !a.contains('"') && !a.contains('/') && !c.contains('\n'),
    ensures
        exists|m: Seq<char>| #[trigger]
            all_spaces(m) && uncommented(a + "//"@ + c + "\n"@ + b, 0, Place::Code) == a + m + "\n"@ + uncommented(
                b,
                0,
                Place::Code,
            ),
{
    reveal_strlit("//");
    reveal_strlit("\n");
    assert("//"@ =~= seq!['/', '/'] && "\n"@ =~= seq!['\n']);
    let s = a + "//"@ + c + "\n"@ + b;
    let n = a.len() as int;
    let e = n + 2 + c.len();
    assert forall|k: int| 0 <= k < n implies #[trigger] s[k] != '"' && s[k] != '/' by {
        assert(s[k] == a[k]);
        assert(a.contains(a[k]));
    }
    lemma_code(s, 0, n);
    assert(s.subrange(0, n) =~= a);
    assert(s[n] == '/' && s[n + 1] == '/' && s[e] == '\n');
    assert forall|k: int| n + 1 <= k < e implies #[trigger] s[k] != '\n' by {
        if k > n + 1 {
            assert(s[k] == c[k - n - 2]);
            assert(c.contains(c[k - n - 2]));
        }
    }
    let rest = lemma_line(s, n + 1, e);
    let m = blanked(s[n]) + rest;
    let head = a + "//"@ + c + "\n"@;
    assert(head + b =~= s);
    lemma_after(head, b, 0, Place::Code);
    let tail = uncommented(b, 0, Place::Code);
    assert(uncommented(s, e, Place::Line) == seq!['\n'] + uncommented(s, e + 1, Place::Code));
    assert(uncommented(s, n, Place::Code) == blanked(s[n]) + uncommented(s, n + 1, Place::Line));
    assert(uncommented(s, 0, Place::Code) =~= a + m + "\n"@ + tail);
    assert(all_spaces(m));
}

/// A comment between marks comes to spaces and its own line breaks.
pub proof fn law_block_comment(a: Seq<char>, c: Seq<char>, b: Seq<char>)
    requires
        !a.contains('"') && !a.contains('/') && !c.contains('*'),
    ensures
        exists|m: Seq<char>| #[trigger]
            all_blank(m) && uncommented(a + "/*"@ + c + "*/"@ + b, 0, Place::Code) == a + m + uncommented(
                b,
                0,
                Place::Code,
            ),
{
    reveal_strlit("/*");
    reveal_strlit("*/");
    assert("/*"@ =~= seq!['/', '*'] && "*/"@ =~= seq!['*', '/']);
    let s = a + "/*"@ + c + "*/"@ + b;
    let n = a.len() as int;
    let e = n + 2 + c.len();
    assert forall|k: int| 0 <= k < n implies #[trigger] s[k] != '"' && s[k] != '/' by {
        assert(s[k] == a[k]);
        assert(a.contains(a[k]));
    }
    lemma_code(s, 0, n);
    assert(s.subrange(0, n) =~= a);
    assert(s[n] == '/' && s[n + 1] == '*' && s[e] == '*' && s[e + 1] == '/');
    assert forall|k: int| n + 2 <= k < e implies #[trigger] s[k] != '*' by {
        assert(s[k] == c[k - n - 2]);
        assert(c.contains(c[k - n - 2]));
    }
    let rest = lemma_block(s, n + 2, e);
    let m = blanked(s[n]) + blanked(s[n + 1]) + rest + blanked(s[e]) + blanked(s[e + 1]);
    let head = a + "/*"@ + c + "*/"@;
    assert(head + b =~= s);
    lemma_after(head, b, 0, Place::Code);
    let tail = uncommented(b, 0, Place::Code);
    assert(uncommented(s, e, Place::Block { star: false }) == blanked(s[e]) + uncommented(
        s,
        e + 1,
        Place::Block { star: true },
    ));
    assert(uncommented(s, e + 1, Place::Block { star: true }) == blanked(s[e + 1]) + uncommented(s, e + 2, Place::Code));
    assert(uncommented(s, n, Place::Code) == blanked(s[n]) + blanked(s[n + 1]) + uncommented(
        s,
        n + 2,
        Place::Block { star: false },
    ));
    assert(uncommented(s, 0, Place::Code) =~= a + m + tail);
    assert(all_blank(m));
}

/// A text with nothing to strip is kept.
pub proof fn law_plain_is_kept(s: Seq<char>)
    requires
        !s.contains('"') && !s.contains('/') && !s.contains(',') && !s.contains('\u{feff}'),
    ensures
        plain_json(s) == s,
{
    assert forall|k: int| 0 <= k < s.len() implies #[trigger] s[k] != '"' && s[k] != '/' && s[k] != ',' && s[k]
        != '\u{feff}' by {
        assert(s.contains(s[k]));
    }
    lemma_code(s, 0, s.len() as int);
    assert(s.subrange(0, s.len() as int) =~= s);
    assert(uncommented(s, 0, Place::Code) =~= s);
    assert(untrailed(s) =~= s);
}

proof fn lemma_in_code(s: Seq<char>, i: int)
    requires
        0 <= i <= s.len(),
        forall|k: int| 0 <= k < i ==> #[trigger] s[k] != '"',
    ensures
        place_at(s, i) == Place::Code,
    decreases i,
{
    if i > 0 {
        lemma_in_code(s, i - 1);
        assert(s[i - 1] != '"');
    }
}

proof fn lemma_closes(s: Seq<char>, j: int, n: int)
    requires
        0 <= j <= n < s.len(),
        forall|k: int| j <= k < n ==> is_space(#[trigger] s[k]) && s[k] != '}' && s[k] != ']',
        !is_space(s[n]) || s[n] == '}' || s[n] == ']',
    ensures
        closes_from(s, j) == (s[n] == '}' || s[n] == ']'),
    decreases n - j,
{
    if j < n {
        assert(is_space(s[j]));
        lemma_closes(s, j + 1, n);
    }
}

/// A comma before a closing bracket, with space between or none, is taken out; one before anything
/// else stays; and so does all that is no comma.
pub proof fn law_trailing_comma(a: Seq<char>, w: Seq<char>, c: char, b: Seq<char>, i: int)
    requires
        !a.contains('"'),
        forall|k: int| 0 <= k < w.len() ==> #[trigger] w[k] == ' ' || w[k] == '\n',
        !is_space(c),
    ensures
        ({
            let s = a.push(',') + w.push(c) + b;
            &&& untrailed(s).len() == s.len()
            &&& c == '}' || c == ']' ==> untrailed(s)[a.len() as int] == ' '
            &&& c != '}' && c != ']' ==> untrailed(s)[a.len() as int] == ','
            &&& 0 <= i < s.len() && s[i] != ',' ==> untrailed(s)[i] == s[i]
        }),
{
    let s = a.push(',') + w.push(c) + b;
    let n = a.len() as int;
    assert(s[n] == ',');
    assert forall|k: int| 0 <= k < n implies #[trigger] s[k] != '"' by {
        assert(s[k] == a[k]);
        assert(a.contains(a[k]));
    }
    lemma_in_code(s, n);
    let e = n + 1 + w.len();
    assert(s[e] == c);
    assert forall|k: int| n + 1 <= k < e implies is_space(#[trigger] s[k]) && s[k] != '}' && s[k] != ']' by {
        assert(s[k] == w[k - n - 1]);
    }
    lemma_closes(s, n + 1, e);
    assert(trails(s, n) == (c == '}' || c == ']'));
}

} // verus!
