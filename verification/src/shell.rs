//! Words for a POSIX shell.

use crate::text::alnum;
use crate::text::chars_of;
use crate::text::is_alnum;
use vstd::prelude::*;

verus! {

/// A character a shell takes as itself wherever it stands in a word.
pub open spec fn is_plain(c: char) -> bool {
    is_alnum(c) || c == '-' || c == '_' || c == '.' || c == '/' || c == '=' || c == ':' || c == '@' || c == '%' || c
        == '+' || c == ','
}

fn plain(c: char) -> (r: bool)
    ensures
        r == is_plain(c),
{
    alnum(c) || c == '-' || c == '_' || c == '.' || c == '/' || c == '=' || c == ':' || c == '@' || c == '%' || c
        == '+' || c == ','
}

pub open spec fn all_plain(s: Seq<char>) -> bool {
    s.len() > 0 && forall|i: int| 0 <= i < s.len() ==> is_plain(#[trigger] s[i])
}

/// The characters from `from` on as they stand between single quotes: a quote closes them,
/// stands escaped and opens them again.
pub open spec fn quoted_from(s: Seq<char>, from: int) -> Seq<char>
    decreases s.len() - from,
{
    if from < 0 || from >= s.len() {
        seq!['\'']
    } else if s[from] == '\'' {
        seq!['\'', '\\', '\'', '\''] + quoted_from(s, from + 1)
    } else {
        seq![s[from]] + quoted_from(s, from + 1)
    }
}

/// The word as a shell has to be given it.
pub open spec fn word(s: Seq<char>) -> Seq<char> {
    if all_plain(s) {
        s
    } else {
        seq!['\''] + quoted_from(s, 0)
    }
}

/// The text as one word of a shell command: as it stands where no character means anything to
/// a shell, else in single quotes.
pub fn quote_word(s: &str) -> (r: String)
    ensures
        r@ == word(s@),
{
    let v = chars_of(s);
    let mut bare = v.len() > 0;
    let mut i: usize = 0;
    while i < v.len()
        invariant
            i <= v@.len(),
            v@ == s@,
            bare == (v@.len() > 0 && forall|j: int| 0 <= j < i ==> is_plain(#[trigger] s@[j])),
        decreases v@.len() - i,
    {
        if !plain(v[i]) {
            assert(!is_plain(s@[i as int]));
            bare = false;
        }
        i = i + 1;
    }
    if bare {
        return s.to_owned();
    }
    let mut out = String::new();
    out.push('\'');
    i = 0;
    assert(out@ + quoted_from(v@, 0) =~= seq!['\''] + quoted_from(v@, 0));
    while i < v.len()
        invariant
            i <= v@.len(),
            v@ == s@,
            out@ + quoted_from(v@, i as int) == seq!['\''] + quoted_from(v@, 0),
        decreases v@.len() - i,
    {
        let ghost had = out@;
        let ghost rest = quoted_from(v@, i + 1);
        if v[i] == '\'' {
            out.push('\'');
            out.push('\\');
            out.push('\'');
            out.push('\'');
            assert(out@ + rest =~= had + (seq!['\'', '\\', '\'', '\''] + rest));
        } else {
            out.push(v[i]);
            assert(out@ + rest =~= had + (seq![v@[i as int]] + rest));
        }
        i = i + 1;
    }
    out.push('\'');
    assert(out@ =~= seq!['\''] + quoted_from(v@, 0));
    out
}

/// How a shell reads one word from `from` on, `open` inside single quotes: a quote opens or
/// closes, an escaped character and a plain one are themselves, anything in quotes too. None
/// where the text is not one whole word.
pub open spec fn read_from(s: Seq<char>, from: int, open: bool) -> Option<Seq<char>>
    decreases s.len() - from,
{
    if from < 0 || from >= s.len() {
        if open {
            None
        } else {
            Some(Seq::empty())
        }
    } else if open {
        if s[from] == '\'' {
            read_from(s, from + 1, false)
        } else {
            match read_from(s, from + 1, true) {
                Some(r) => Some(seq![s[from]] + r),
                None => None,
            }
        }
    } else if s[from] == '\'' {
        read_from(s, from + 1, true)
    } else if s[from] == '\\' && from + 1 < s.len() {
        match read_from(s, from + 2, false) {
            Some(r) => Some(seq![s[from + 1]] + r),
            None => None,
        }
    } else if is_plain(s[from]) {
        match read_from(s, from + 1, false) {
            Some(r) => Some(seq![s[from]] + r),
            None => None,
        }
    } else {
        None
    }
}

proof fn lemma_read_plain(s: Seq<char>, from: int)
    requires
        0 <= from <= s.len(),
        forall|i: int| 0 <= i < s.len() ==> is_plain(#[trigger] s[i]),
    ensures
        read_from(s, from, false) == Some(s.skip(from)),
    decreases s.len() - from,
{
    if from < s.len() {
        lemma_read_plain(s, from + 1);
        assert(is_plain(s[from]));
        assert(seq![s[from]] + s.skip(from + 1) =~= s.skip(from));
    } else {
        assert(s.skip(from) =~= Seq::empty());
    }
}

proof fn lemma_read_quoted(whole: Seq<char>, s: Seq<char>, at: int, from: int)
    requires
        0 <= from <= s.len(),
        0 <= at <= whole.len(),
        whole.skip(at) == quoted_from(s, from),
    ensures
        read_from(whole, at, true) == Some(s.skip(from)),
    decreases s.len() - from,
{
    let rest = whole.skip(at);
    assert(forall|k: int| 0 <= k < rest.len() ==> rest[k] == whole[at + k]);
    if from < s.len() {
        let tail = quoted_from(s, from + 1);
        assert(seq![s[from]] + s.skip(from + 1) =~= s.skip(from));
        if s[from] == '\'' {
            assert(whole[at] == rest[0] && whole[at + 1] == rest[1] && whole[at + 2] == rest[2] && whole[at + 3]
                == rest[3]);
            assert(whole.skip(at + 4) =~= tail) by {
                assert(rest.skip(4) =~= tail);
                assert(whole.skip(at + 4) =~= rest.skip(4));
            }
            lemma_read_quoted(whole, s, at + 4, from + 1);
            reveal_with_fuel(read_from, 4);
        } else {
            assert(whole[at] == rest[0]);
            assert(whole.skip(at + 1) =~= tail) by {
                assert(rest.skip(1) =~= tail);
                assert(whole.skip(at + 1) =~= rest.skip(1));
            }
            lemma_read_quoted(whole, s, at + 1, from + 1);
        }
    } else {
        assert(whole[at] == rest[0]);
        assert(whole.len() == at + 1);
        reveal_with_fuel(read_from, 2);
        assert(s.skip(from) =~= Seq::empty());
    }
}

/// A shell reads a quoted word back as the text it was made from.
pub proof fn law_word_reads_back(s: Seq<char>)
    ensures
        read_from(word(s), 0, false) == Some(s),
{
    if all_plain(s) {
        lemma_read_plain(s, 0);
        assert(s.skip(0) =~= s);
    } else {
        let w = word(s);
        assert(w.skip(1) =~= quoted_from(s, 0));
        lemma_read_quoted(w, s, 1, 0);
        assert(s.skip(0) =~= s);
        assert(w[0] == '\'');
    }
}

} // verus!
