//! JSON with comments: what an editor writes, made into what a JSON reader takes, every
//! character where it was.

use crate::names::lemma_encode_concat;
use crate::text::{cat3, chars_of, find_from, is_space, position_from, space, text_between};
use vstd::prelude::*;
use vstd::utf8::{encode_scalar, encode_utf8};

verus! {

/// Where in a text a place is.
#[derive(Clone, Copy, PartialEq, Eq, Structural)]
pub enum Place {
    /// outside strings and comments
    Code,
    /// in a string, the character before it an open escape or not
    Text { escaped: bool },
    /// in a comment to the end of the line
    Line,
    /// in a comment to its closing mark, the character before it a star of its own or not
    Block { star: bool },
}

/// How many bytes a character takes.
pub open spec fn width(c: char) -> nat {
    encode_scalar(c as u32).len()
}

fn width_of(c: char) -> (r: usize)
    ensures
        r == width(c),
        1 <= r <= 4,
{
    let n: u32 = c as u32;
    if n <= 0x7f {
        1
    } else if n <= 0x7ff {
        2
    } else if n <= 0xffff {
        3
    } else {
        4
    }
}

/// So many spaces.
pub open spec fn spaces(n: nat) -> Seq<char> {
    Seq::new(n, |i: int| ' ')
}

/// What stands in for a character of a comment: a line break for itself, else a space for each
/// of its bytes.
pub open spec fn blanked(c: char) -> Seq<char> {
    if c == '\n' {
        seq!['\n']
    } else {
        spaces(width(c))
    }
}

/// What a character in a string makes of the place after it.
pub open spec fn after_in_text(c: char, escaped: bool) -> Place {
    if c == '\\' && !escaped {
        Place::Text { escaped: true }
    } else if c == '"' && !escaped {
        Place::Code
    } else {
        Place::Text { escaped: false }
    }
}

/// The text from `i` on with its comments blanked.
pub open spec fn uncommented(s: Seq<char>, i: int, at: Place) -> Seq<char>
    decreases s.len() - i,
{
    if i < 0 || i >= s.len() {
        Seq::empty()
    } else {
        match at {
            Place::Text { escaped } => seq![s[i]] + uncommented(s, i + 1, after_in_text(s[i], escaped)),
            Place::Line => blanked(s[i]) + uncommented(
                s,
                i + 1,
                if s[i] == '\n' {
                    Place::Code
                } else {
                    Place::Line
                },
            ),
            Place::Block { star } => blanked(s[i]) + uncommented(
                s,
                i + 1,
                if star && s[i] == '/' {
                    Place::Code
                } else {
                    Place::Block { star: s[i] == '*' }
                },
            ),
            Place::Code => if s[i] == '"' {
                seq![s[i]] + uncommented(s, i + 1, Place::Text { escaped: false })
            } else if s[i] == '/' && i + 1 < s.len() && s[i + 1] == '/' {
                blanked(s[i]) + uncommented(s, i + 1, Place::Line)
            } else if s[i] == '/' && i + 1 < s.len() && s[i + 1] == '*' {
                blanked(s[i]) + blanked(s[i + 1]) + uncommented(s, i + 2, Place::Block { star: false })
            } else {
                seq![s[i]] + uncommented(s, i + 1, Place::Code)
            },
        }
    }
}

fn blank(out: &mut String, c: char)
    ensures
        final(out)@ == old(out)@ + blanked(c),
{
    if c == '\n' {
        out.push('\n');
        assert(out@ =~= old(out)@ + blanked(c));
        return;
    }
    let n: usize = width_of(c);
    let mut k: usize = 0;
    assert(out@ =~= old(out)@ + spaces(0));
    while k < n
        invariant
            k <= n,
            out@ == old(out)@ + spaces(k as nat),
        decreases n - k,
    {
        out.push(' ');
        k = k + 1;
        assert(out@ =~= old(out)@ + spaces(k as nat));
    }
}

/// Replace `//` and `/* */` comments with spaces, one per byte, preserving line breaks and
/// string contents, so that a reader's line and column stay accurate even for a comment that
/// is not ASCII. A block comment's opening star does not close it.
pub fn strip_comments(text: &str) -> (r: String)
    ensures
        r@ == uncommented(text@, 0, Place::Code),
{
    let v = chars_of(text);
    let total: usize = v.len();
    let mut out = String::new();
    let mut at = Place::Code;
    let mut i: usize = 0;
    let ghost whole = uncommented(text@, 0, Place::Code);
    assert(out@ + uncommented(v@, 0, at) =~= whole);
    while i < total
        invariant
            total == v@.len(),
            i <= total,
            out@ + uncommented(v@, i as int, at) == whole,
        decreases total - i,
    {
        let c = v[i];
        let ghost had = out@;
        let ghost here = i as int;
        let ghost was = at;
        match at {
            Place::Text { escaped } => {
                out.push(c);
                at = if c == '\\' && !escaped {
                    Place::Text { escaped: true }
                } else if c == '"' && !escaped {
                    Place::Code
                } else {
                    Place::Text { escaped: false }
                };
                i = i + 1;
            },
            Place::Line => {
                blank(&mut out, c);
                if c == '\n' {
                    at = Place::Code;
                }
                i = i + 1;
            },
            Place::Block { star } => {
                blank(&mut out, c);
                at = if star && c == '/' {
                    Place::Code
                } else {
                    Place::Block { star: c == '*' }
                };
                i = i + 1;
            },
            Place::Code => {
                if c == '"' {
                    out.push(c);
                    at = Place::Text { escaped: false };
                    i = i + 1;
                } else if c == '/' && i + 1 < total && v[i + 1] == '/' {
                    blank(&mut out, c);
                    at = Place::Line;
                    i = i + 1;
                } else if c == '/' && i + 1 < total && v[i + 1] == '*' {
                    blank(&mut out, c);
                    blank(&mut out, v[i + 1]);
                    at = Place::Block { star: false };
                    i = i + 2;
                } else {
                    out.push(c);
                    i = i + 1;
                }
            },
        }
        assert(out@ + uncommented(v@, i as int, at) =~= had + uncommented(v@, here, was));
    }
    assert(out@ + Seq::<char>::empty() =~= out@);
    out
}

/// Where the place before `i` is, counting from the start: only strings are told apart.
pub open spec fn place_at(s: Seq<char>, i: int) -> Place
    decreases i,
{
    if i <= 0 {
        Place::Code
    } else {
        match place_at(s, i - 1) {
            Place::Text { escaped } => after_in_text(s[i - 1], escaped),
            _ => if s[i - 1] == '"' {
                Place::Text { escaped: false }
            } else {
                Place::Code
            },
        }
    }
}

/// Nothing but white space stands between `j` and a closing bracket.
pub open spec fn closes_from(s: Seq<char>, j: int) -> bool
    decreases s.len() - j,
{
    if j < 0 || j >= s.len() {
        false
    } else if s[j] == '}' || s[j] == ']' {
        true
    } else if is_space(s[j]) {
        closes_from(s, j + 1)
    } else {
        false
    }
}

/// A comma outside strings that nothing but white space separates from a closing bracket.
pub open spec fn trails(s: Seq<char>, i: int) -> bool {
    s[i] == ',' && place_at(s, i) == Place::Code && closes_from(s, i + 1)
}

/// The text with every trailing comma blanked.
pub open spec fn untrailed(s: Seq<char>) -> Seq<char> {
    Seq::new(
        s.len(),
        |i: int|
            if trails(s, i) {
                ' '
            } else {
                s[i]
            },
    )
}

fn closes_after(v: &Vec<char>, from: usize) -> (r: bool)
    requires
        from <= v@.len(),
    ensures
        r == closes_from(v@, from as int),
{
    let mut j: usize = from;
    while j < v.len() && space(v[j])
        invariant
            from <= j <= v@.len(),
            closes_from(v@, j as int) == closes_from(v@, from as int),
        decreases v@.len() - j,
    {
        j = j + 1;
    }
    j < v.len() && (v[j] == '}' || v[j] == ']')
}

/// Blank a comma that only white space separates from its closing `}` or `]`. An editor writes
/// such commas; a JSON reader rejects them. Run after [`strip_comments`], so that a comment
/// between the comma and the bracket is already white space.
pub fn strip_trailing_commas(text: &str) -> (r: String)
    ensures
        r@ == untrailed(text@),
{
    let v = chars_of(text);
    let total: usize = v.len();
    let mut out = String::new();
    let mut at = Place::Code;
    let mut i: usize = 0;
    assert(out@ =~= untrailed(text@).take(0));
    while i < total
        invariant
            total == v@.len(),
            v@ == text@,
            i <= total,
            at == place_at(v@, i as int),
            at is Code || at is Text,
            out@ == untrailed(text@).take(i as int),
        decreases total - i,
    {
        let c = v[i];
        match at {
            Place::Text { escaped } => {
                out.push(c);
                at = if c == '\\' && !escaped {
                    Place::Text { escaped: true }
                } else if c == '"' && !escaped {
                    Place::Code
                } else {
                    Place::Text { escaped: false }
                };
            },
            _ => {
                if c == ',' && closes_after(&v, i + 1) {
                    out.push(' ');
                } else {
                    out.push(c);
                }
                if c == '"' {
                    at = Place::Text { escaped: false };
                }
            },
        }
        assert(out@ =~= untrailed(text@).take(i + 1));
        i = i + 1;
    }
    assert(out@ =~= untrailed(text@));
    out
}

/// The bytes of one text stand where those of the other do: each the same, or a space for one
/// that ends no line.
pub open spec fn in_place(a: Seq<u8>, b: Seq<u8>) -> bool {
    &&& a.len() == b.len()
    &&& forall|k: int| 0 <= k < a.len() ==> #[trigger] b[k] == a[k] || (b[k] == 32 && a[k] != 10)
}

proof fn lemma_in_place_concat(a: Seq<u8>, b: Seq<u8>, c: Seq<u8>, d: Seq<u8>)
    requires
        in_place(a, b),
        in_place(c, d),
    ensures
        in_place(a + c, b + d),
{
    let x = a + c;
    let y = b + d;
    assert forall|k: int| 0 <= k < x.len() implies #[trigger] y[k] == x[k] || (y[k] == 32 && x[k] != 10) by {
        if k < a.len() {
            assert(y[k] == b[k] && x[k] == a[k]);
        } else {
            assert(y[k] == d[k - a.len()] && x[k] == c[k - a.len()]);
        }
    }
}

proof fn lemma_one(c: char)
    ensures
        encode_utf8(seq![c]) == encode_scalar(c as u32),
{
    reveal_with_fuel(encode_utf8, 2);
    assert(seq![c].drop_first() =~= Seq::<char>::empty());
    assert(encode_scalar(c as u32) + Seq::<u8>::empty() =~= encode_scalar(c as u32));
}

proof fn lemma_spaces(n: nat)
    ensures
        encode_utf8(spaces(n)) == Seq::new(n, |i: int| 32u8),
    decreases n,
{
    if n > 0 {
        lemma_spaces((n - 1) as nat);
        assert(spaces(n) =~= spaces((n - 1) as nat) + seq![' ']);
        lemma_encode_concat(spaces((n - 1) as nat), seq![' ']);
        lemma_one(' ');
        let sp = encode_scalar(' ' as u32);
        assert(sp =~= seq![32u8]) by {
            assert((32u32 & 0x7f) == 32u32) by (bit_vector);
        }
        assert(encode_utf8(spaces(n)) =~= Seq::new(n, |i: int| 32u8));
    } else {
        assert(spaces(0) =~= Seq::<char>::empty());
        assert(encode_utf8(spaces(0)) =~= Seq::new(0, |i: int| 32u8));
    }
}

proof fn lemma_no_break(c: char)
    requires
        c != '\n',
    ensures
        forall|k: int| 0 <= k < encode_scalar(c as u32).len() ==> #[trigger] encode_scalar(c as u32)[k] != 10u8,
{
    let n = c as u32;
    assert(forall|x: u8| #[trigger] (0x80u8 | x) >= 0x80u8) by (bit_vector);
    assert(forall|x: u8| #[trigger] (0xC0u8 | x) >= 0xC0u8) by (bit_vector);
    assert(forall|x: u8| #[trigger] (0xE0u8 | x) >= 0xE0u8) by (bit_vector);
    assert(forall|x: u8| #[trigger] (0xF0u8 | x) >= 0xF0u8) by (bit_vector);
    assert(n <= 0x7fu32 ==> (n & 0x7f) == n) by (bit_vector);
}

proof fn lemma_blanked_in_place(c: char)
    ensures
        in_place(encode_utf8(seq![c]), encode_utf8(blanked(c))),
{
    lemma_one(c);
    if c != '\n' {
        lemma_spaces(width(c));
        lemma_no_break(c);
    }
}

proof fn lemma_step(s: Seq<char>, i: int, head: Seq<char>, rest: Seq<char>)
    requires
        0 <= i < s.len(),
        head == seq![s[i]] || head == blanked(s[i]),
        in_place(encode_utf8(s.skip(i + 1)), encode_utf8(rest)),
    ensures
        in_place(encode_utf8(s.skip(i)), encode_utf8(head + rest)),
{
    assert(s.skip(i) =~= seq![s[i]] + s.skip(i + 1));
    lemma_encode_concat(seq![s[i]], s.skip(i + 1));
    lemma_encode_concat(head, rest);
    lemma_blanked_in_place(s[i]);
    lemma_in_place_concat(
        encode_utf8(seq![s[i]]),
        encode_utf8(head),
        encode_utf8(s.skip(i + 1)),
        encode_utf8(rest),
    );
}

proof fn lemma_uncommented_in_place(s: Seq<char>, i: int, at: Place)
    requires
        0 <= i <= s.len(),
    ensures
        in_place(encode_utf8(s.skip(i)), encode_utf8(uncommented(s, i, at))),
    decreases s.len() - i,
{
    if i >= s.len() {
        assert(s.skip(i) =~= Seq::<char>::empty());
    } else {
        match at {
            Place::Text { escaped } => {
                let next = after_in_text(s[i], escaped);
                lemma_uncommented_in_place(s, i + 1, next);
                lemma_step(s, i, seq![s[i]], uncommented(s, i + 1, next));
            },
            Place::Line => {
                let next = if s[i] == '\n' {
                    Place::Code
                } else {
                    Place::Line
                };
                lemma_uncommented_in_place(s, i + 1, next);
                lemma_step(s, i, blanked(s[i]), uncommented(s, i + 1, next));
            },
            Place::Block { star } => {
                let next = if star && s[i] == '/' {
                    Place::Code
                } else {
                    Place::Block { star: s[i] == '*' }
                };
                lemma_uncommented_in_place(s, i + 1, next);
                lemma_step(s, i, blanked(s[i]), uncommented(s, i + 1, next));
            },
            Place::Code => {
                if s[i] == '"' {
                    let next = Place::Text { escaped: false };
                    lemma_uncommented_in_place(s, i + 1, next);
                    lemma_step(s, i, seq![s[i]], uncommented(s, i + 1, next));
                } else if s[i] == '/' && i + 1 < s.len() && s[i + 1] == '/' {
                    lemma_uncommented_in_place(s, i + 1, Place::Line);
                    lemma_step(s, i, blanked(s[i]), uncommented(s, i + 1, Place::Line));
                } else if s[i] == '/' && i + 1 < s.len() && s[i + 1] == '*' {
                    let next = Place::Block { star: false };
                    let rest = uncommented(s, i + 2, next);
                    lemma_uncommented_in_place(s, i + 2, next);
                    lemma_step(s, i + 1, blanked(s[i + 1]), rest);
                    lemma_step(s, i, blanked(s[i]), blanked(s[i + 1]) + rest);
                    assert(blanked(s[i]) + (blanked(s[i + 1]) + rest) =~= blanked(s[i]) + blanked(s[i + 1]) + rest);
                } else {
                    lemma_uncommented_in_place(s, i + 1, Place::Code);
                    lemma_step(s, i, seq![s[i]], uncommented(s, i + 1, Place::Code));
                }
            },
        }
    }
}

/// Stripping comments moves nothing: every byte stays at its offset or becomes a space, and
/// every line break stays one, so that a reader's line and column are those of the file.
pub proof fn law_comments_move_nothing(s: Seq<char>)
    ensures
        in_place(encode_utf8(s), encode_utf8(uncommented(s, 0, Place::Code))),
{
    lemma_uncommented_in_place(s, 0, Place::Code);
    assert(s.skip(0) =~= s);
}

proof fn lemma_untrailed_in_place(s: Seq<char>, i: int)
    requires
        0 <= i <= s.len(),
    ensures
        in_place(encode_utf8(s.skip(i)), encode_utf8(untrailed(s).skip(i))),
    decreases s.len() - i,
{
    if i >= s.len() {
        assert(s.skip(i) =~= Seq::<char>::empty());
        assert(untrailed(s).skip(i) =~= Seq::<char>::empty());
    } else {
        lemma_untrailed_in_place(s, i + 1);
        let rest = untrailed(s).skip(i + 1);
        let head = seq![untrailed(s)[i]];
        assert(untrailed(s).skip(i) =~= head + rest);
        if trails(s, i) {
            assert(width(',') == 1) by {
                lemma_one(',');
            }
            assert(head =~= blanked(','));
        }
        lemma_step(s, i, head, rest);
    }
}

/// Stripping trailing commas moves nothing either.
pub proof fn law_commas_move_nothing(s: Seq<char>)
    ensures
        in_place(encode_utf8(s), encode_utf8(untrailed(s))),
{
    lemma_untrailed_in_place(s, 0);
    assert(s.skip(0) =~= s);
    assert(untrailed(s).skip(0) =~= untrailed(s));
}

/// What a string holds is left alone: stripping comments from a place inside one keeps every
/// character up to its closing quote.
pub proof fn law_strings_are_kept(s: Seq<char>, i: int, escaped: bool)
    requires
        0 <= i < s.len(),
    ensures
        uncommented(s, i, Place::Text { escaped }).len() > 0,
        uncommented(s, i, Place::Text { escaped })[0] == s[i],
        uncommented(s, i, Place::Text { escaped }).skip(1) == uncommented(s, i + 1, after_in_text(s[i], escaped)),
{
    let rest = uncommented(s, i + 1, after_in_text(s[i], escaped));
    assert((seq![s[i]] + rest).skip(1) =~= rest);
}

/// What a reader's complaint about an unknown key says: the key and where it stands, without
/// the list of every key that is known.
pub open spec fn explained(msg: Seq<char>) -> Seq<char> {
    match find_from(msg, ", expected one of"@, 0) {
        None => msg,
        Some(i) => {
            let tail = msg.skip(i + ", expected one of"@.len());
            msg.take(i) + " is not a supported devcontainer key"@ + tail.skip(last_from(tail, " at line"@, tail.len() as int))
        },
    }
}

/// The last place up to `from` at which `needle` stands in `hay`, or the length.
pub open spec fn last_from(hay: Seq<char>, needle: Seq<char>, from: int) -> int
    decreases from + 1,
{
    if from < 0 {
        hay.len() as int
    } else if crate::text::occurs_at(hay, needle, from) {
        from
    } else {
        last_from(hay, needle, from - 1)
    }
}

/// Keep the unknown key and location of a reader's complaint, dropping its list of every known
/// key. A message that does not match is kept as it is.
pub fn explain(msg: &str) -> (r: String)
    ensures
        r@ == explained(msg@),
{
    let v = chars_of(msg);
    let mark = chars_of(", expected one of");
    match position_from(&v, &mark, 0) {
        None => msg.to_owned(),
        Some(i) => {
            let head = text_between(&v, 0, i);
            assert(head@ =~= msg@.take(i as int));
            let total: usize = v.len();
            assert(i + mark@.len() <= total);
            let tail = text_between(&v, i + mark.len(), v.len());
            assert(tail@ =~= msg@.skip(i + ", expected one of"@.len()));
            let t = chars_of(tail.as_str());
            let needle = chars_of(" at line");
            let mut from: usize = t.len();
            let ghost want = last_from(t@, " at line"@, t@.len() as int);
            while from > 0 && !crate::text::stands_at(&t, &needle, from)
                invariant
                    from <= t@.len(),
                    needle@ == " at line"@,
                    want == last_from(t@, " at line"@, from as int),
                decreases from,
            {
                from = from - 1;
            }
            let at = if crate::text::stands_at(&t, &needle, from) {
                text_between(&t, from, t.len())
            } else {
                String::new()
            };
            assert(last_from(t@, " at line"@, -1) == t@.len());
            assert(at@ =~= tail@.skip(want));
            cat3(head.as_str(), " is not a supported devcontainer key", at.as_str())
        },
    }
}

/// The JSON that a file with comments, trailing commas and a byte order mark stands for.
pub open spec fn plain_json(text: Seq<char>) -> Seq<char> {
    let body = if text.len() > 0 && text[0] == '\u{feff}' {
        text.skip(1)
    } else {
        text
    };
    untrailed(uncommented(body, 0, Place::Code))
}

/// The JSON that a file with comments and trailing commas stands for. Everything past those is
/// strict JSON.
pub fn to_plain_json(text: &str) -> (r: String)
    ensures
        r@ == plain_json(text@),
{
    let v = chars_of(text);
    if v.len() > 0 && v[0] == '\u{feff}' {
        let body = text_between(&v, 1, v.len());
        assert(body@ =~= text@.skip(1));
        strip_trailing_commas(strip_comments(body.as_str()).as_str())
    } else {
        strip_trailing_commas(strip_comments(text).as_str())
    }
}

} // verus!
