//! Local values, read as data: no expansion, no command substitution, no sourcing.

use crate::entries::{entry, lemma_with_entry, put_entry, sorted, with_entry};
use crate::text::{
    after_prefix, begins, cat2, cat3, cat4, char_from, chars_of, cut, cut_at, debug_text, decimal, error, find_from,
    is_alnum, is_space, lines, lines_of, next_char, lemma_next_char, occurs_at, outcome, position_from, quoted, text_between,
    to_decimal, trim, trim_end, trim_start, trimmed, trimmed_end, trimmed_start, Error,
};
use crate::validate::{env_name, is_env_name, verdict, flagged};
use vstd::prelude::*;

verus! {

/// `line <n>`, counted from one.
pub open spec fn line_number(i: int) -> Seq<char> {
    "line "@ + decimal((i + 1) as nat)
}

fn line_name(i: usize) -> (r: String)
    requires
        i < usize::MAX,
    ensures
        r@ == line_number(i as int),
{
    cat2("line ", to_decimal((i + 1) as u64).as_str())
}

/// What is wrong with the text after a closing quote: nothing but a comment may stand there.
pub open spec fn trailing_error(rest: Seq<char>, i: int) -> Option<Seq<char>> {
    let r = trimmed_start(rest);
    flagged(
        r.len() > 0 && r[0] != '#',
        line_number(i) + ": unexpected "@ + debug_text(r) + " after the closing quote"@,
    )
}

/// Nothing but a comment stands after a closing quote.
pub fn trailing_ok(rest: &str, line: usize) -> (r: Result<(), Error>)
    requires
        line < usize::MAX,
    ensures
        outcome(r) == verdict(trailing_error(rest@, line as int)),
{
    let t = trim_start(rest);
    let v = chars_of(t.as_str());
    if v.len() == 0 || v[0] == '#' {
        return Ok(());
    }
    Err(
        error(
            cat4(line_name(line).as_str(), ": unexpected ", quoted(t.as_str()).as_str(), " after the closing quote"),
        ),
    )
}

/// The text up to the closing double quote from `i` on, with `\"` and `\\` taken as the
/// character escaped, and the place past the quote.
pub open spec fn unescaped(s: Seq<char>, i: int) -> Option<(Seq<char>, int)>
    decreases s.len() - i,
{
    if i < 0 || i >= s.len() {
        None
    } else if s[i] == '"' {
        Some((Seq::empty(), i + 1))
    } else if s[i] == '\\' {
        if i + 1 >= s.len() {
            None
        } else {
            let head = if s[i + 1] == '"' || s[i + 1] == '\\' {
                seq![s[i + 1]]
            } else {
                seq!['\\', s[i + 1]]
            };
            match unescaped(s, i + 2) {
                Some((t, end)) => Some((head + t, end)),
                None => None,
            }
        }
    } else {
        match unescaped(s, i + 1) {
            Some((t, end)) => Some((seq![s[i]] + t, end)),
            None => None,
        }
    }
}

/// The value that stands after the `=`: between quotes, or the text up to a comment.
pub open spec fn value_of(all: Seq<char>, i: int) -> Result<Seq<char>, Seq<char>> {
    let v = trimmed_start(all);
    if v.len() > 0 && v[0] == '\'' {
        let end = next_char(v, '\'', 1);
        if end >= v.len() {
            Err(line_number(i) + ": unterminated quote"@)
        } else {
            match trailing_error(v.skip(end + 1), i) {
                Some(e) => Err(e),
                None => Ok(v.subrange(1, end)),
            }
        }
    } else if v.len() > 0 && v[0] == '"' {
        match unescaped(v, 1) {
            None => Err(line_number(i) + ": unterminated quote"@),
            Some((t, end)) => match trailing_error(v.skip(end), i) {
                Some(e) => Err(e),
                None => Ok(t),
            },
        }
    } else {
        match find_from(all, " #"@, 0) {
            Some(at) => Ok(trimmed(all.take(at))),
            None => Ok(trimmed(all)),
        }
    }
}

/// The variable one line sets, if it sets any.
pub open spec fn line_sets(raw: Seq<char>, i: int) -> Result<Option<(Seq<char>, Seq<char>)>, Seq<char>> {
    let whole = trimmed(raw);
    if whole.len() == 0 || whole[0] == '#' {
        Ok(None)
    } else {
        let line = if begins(whole, "export "@) {
            trimmed_start(whole.skip("export "@.len() as int))
        } else {
            whole
        };
        match cut(line, '=') {
            None => Err(line_number(i) + ": expected NAME=value, got "@ + debug_text(raw)),
            Some((n, v)) => {
                let name = trimmed_end(n);
                if !is_env_name(name) {
                    Err(line_number(i) + ": "@ + debug_text(name) + " is not a variable name"@)
                } else {
                    match value_of(v, i) {
                        Ok(value) => Ok(Some((name, value))),
                        Err(e) => Err(e),
                    }
                }
            },
        }
    }
}

fn read_value(all: &str, i: usize) -> (r: Result<String, Error>)
    requires
        i < usize::MAX,
    ensures
        outcome(r) == value_of(all@, i as int),
{
    let v = trim_start(all);
    let c = chars_of(v.as_str());
    if c.len() > 0 && c[0] == '\'' {
        let end: usize = char_from(&c, '\'', 1);
        if end == c.len() {
            return Err(error(cat2(line_name(i).as_str(), ": unterminated quote")));
        }
        let rest = text_between(&c, end + 1, c.len());
        assert(rest@ =~= v@.skip(end + 1));
        trailing_ok(rest.as_str(), i)?;
        return Ok(text_between(&c, 1, end));
    }
    if c.len() > 0 && c[0] == '"' {
        let mut out = String::new();
        let mut at: usize = 1;
        let mut closed = false;
        let ghost whole = unescaped(c@, 1);
        while at < c.len() && !closed
            invariant
                0 < at <= c@.len(),
                c@.len() == v@.len(),
                whole == unescaped(c@, 1),
                closed ==> whole == Some((out@, at as int)),
                !closed ==> match unescaped(c@, at as int) {
                    Some((t, end)) => whole == Some((out@ + t, end)),
                    None => whole is None,
                },
            decreases c@.len() - at,
        {
            let ghost had = out@;
            let ghost here = at as int;
            if c[at] == '"' {
                closed = true;
                at = at + 1;
                assert(had + Seq::<char>::empty() =~= had);
            } else if c[at] == '\\' {
                if at + 1 == c.len() {
                    out.push('\\');
                    at = at + 1;
                } else {
                    if c[at + 1] == '"' || c[at + 1] == '\\' {
                        out.push(c[at + 1]);
                        assert(forall|t: Seq<char>| had + (seq![c@[here + 1]] + t) =~= #[trigger] (out@ + t));
                    } else {
                        out.push('\\');
                        out.push(c[at + 1]);
                        assert(forall|t: Seq<char>| had + (seq!['\\', c@[here + 1]] + t) =~= #[trigger] (out@ + t));
                    }
                    at = at + 2;
                }
            } else {
                out.push(c[at]);
                assert(forall|t: Seq<char>| had + (seq![c@[here]] + t) =~= #[trigger] (out@ + t));
                at = at + 1;
            }
        }
        if !closed {
            return Err(error(cat2(line_name(i).as_str(), ": unterminated quote")));
        }
        let rest = text_between(&c, at, c.len());
        assert(rest@ =~= v@.skip(at as int));
        trailing_ok(rest.as_str(), i)?;
        return Ok(out);
    }
    let whole = chars_of(all);
    let mark = chars_of(" #");
    match position_from(&whole, &mark, 0) {
        Some(at) => {
            let head = text_between(&whole, 0, at);
            assert(head@ =~= all@.take(at as int));
            Ok(trim(head.as_str()))
        },
        None => Ok(trim(all)),
    }
}

fn read_line(raw: &str, i: usize) -> (r: Result<Option<(String, String)>, Error>)
    requires
        i < usize::MAX,
    ensures
        outcome(r) == line_sets(raw@, i as int),
{
    let whole = trim(raw);
    let v = chars_of(whole.as_str());
    if v.len() == 0 || v[0] == '#' {
        return Ok(None);
    }
    let line = match after_prefix(whole.as_str(), "export ") {
        Some(rest) => trim_start(rest.as_str()),
        None => whole,
    };
    match cut_at(line.as_str(), '=') {
        None => Err(error(cat3(line_name(i).as_str(), ": expected NAME=value, got ", quoted(raw).as_str()))),
        Some((n, v)) => {
            let name = trim_end(n.as_str());
            if !env_name(name.as_str()) {
                return Err(
                    error(cat4(line_name(i).as_str(), ": ", quoted(name.as_str()).as_str(), " is not a variable name")),
                );
            }
            let value = read_value(v.as_str(), i)?;
            Ok(Some((name, value)))
        },
    }
}

/// The variables the first `n` lines set, over those in `base`; a later line wins.
pub open spec fn set_by(base: Seq<(Seq<char>, Seq<char>)>, l: Seq<Seq<char>>, n: int) -> Result<
    Seq<(Seq<char>, Seq<char>)>,
    Seq<char>,
>
    decreases n,
{
    if n <= 0 {
        Ok(base)
    } else {
        match set_by(base, l, n - 1) {
            Err(e) => Err(e),
            Ok(m) => match line_sets(l[n - 1], n - 1) {
                Err(e) => Err(e),
                Ok(None) => Ok(m),
                Ok(Some((k, v))) => Ok(with_entry(m, k, v)),
            },
        }
    }
}

/// The variables a file sets, over those in `base`.
pub open spec fn file_sets(base: Seq<(Seq<char>, Seq<char>)>, text: Seq<char>) -> Result<
    Seq<(Seq<char>, Seq<char>)>,
    Seq<char>,
> {
    set_by(base, lines_of(text), lines_of(text).len() as int)
}

proof fn lemma_set_kept(base: Seq<(Seq<char>, Seq<char>)>, l: Seq<Seq<char>>, n: int, m: int)
    requires
        0 <= n <= m,
        set_by(base, l, n) is Err,
    ensures
        set_by(base, l, m) == set_by(base, l, n),
    decreases m - n,
{
    if n < m {
        lemma_set_kept(base, l, n, m - 1);
    }
}

/// Read `NAME=value` lines over `out`, a later line winning. A leading `export ` is accepted,
/// ` #` starts a comment, and a value may be single- or double-quoted: inside double quotes
/// `\"` and `\\` are the only escapes, and text after the closing quote is an error.
fn extend_from_env_file(out: &mut Vec<(String, String)>, text: &str) -> (r: Result<(), Error>)
    ensures
        match file_sets(old(out).deep_view(), text@) {
            Ok(m) => r is Ok && final(out).deep_view() == m,
            Err(e) => outcome(r) == Err::<(), Seq<char>>(e),
        },
{
    let all = lines(text);
    let ghost l = all.deep_view();
    let ghost base = out.deep_view();
    let mut i: usize = 0;
    while i < all.len()
        invariant
            i <= all@.len(),
            l == all.deep_view(),
            l == lines_of(text@),
            base == old(out).deep_view(),
            set_by(base, l, i as int) == Ok::<Seq<(Seq<char>, Seq<char>)>, Seq<char>>(out.deep_view()),
        decreases all@.len() - i,
    {
        assert(l[i as int] == all@[i as int]@);
        match read_line(all[i].as_str(), i) {
            Ok(Some((k, v))) => put_entry(out, k, v),
            Ok(None) => {},
            Err(e) => {
                proof {
                    lemma_set_kept(base, l, i + 1, l.len() as int);
                }
                return Err(e);
            },
        }
        i = i + 1;
    }
    Ok(())
}

/// Read `NAME=value` lines as data.
pub fn parse_env_file(text: &str) -> (r: Result<Vec<(String, String)>, Error>)
    ensures
        outcome(r) == file_sets(Seq::empty(), text@),
{
    let mut out: Vec<(String, String)> = Vec::new();
    assert(out.deep_view() =~= Seq::<(Seq<char>, Seq<char>)>::empty());
    extend_from_env_file(&mut out, text)?;
    Ok(out)
}

proof fn lemma_trim_kept(s: Seq<char>)
    requires
        s.len() > 0,
        !is_space(s[0]),
        !is_space(s.last()),
    ensures
        trimmed(s) == s,
        trimmed_start(s) == s,
        trimmed_end(s) == s,
{
}

proof fn lemma_name_line(name: Seq<char>, rest: Seq<char>)
    requires
        is_env_name(name),
        rest.len() > 0,
        !is_space(rest.last()),
    ensures
        ({
            let line = name + seq!['='] + rest;
            &&& trimmed(line) == line
            &&& line[0] != '#'
            &&& !begins(line, "export "@)
            &&& cut(line, '=') == Some((name, rest))
            &&& trimmed_end(name) == name
        }),
{
    reveal_strlit("export ");
    let line = name + seq!['='] + rest;
    assert(line[0] == name[0] && line.last() == rest.last());
    assert(!is_space(name[0]));
    assert(is_alnum(name.last()) || name.last() == '_');
    lemma_trim_kept(line);
    lemma_trim_kept(name);
    if begins(line, "export "@) {
        let head = line.take(7);
        assert(head == "export "@);
        if name.len() <= 6 {
            assert(head[name.len() as int] == line[name.len() as int]);
            assert(line[name.len() as int] == '=');
        } else {
            assert(head[6] == line[6] && line[6] == name[6]);
            assert(is_alnum(name[6]) || name[6] == '_');
        }
    }
    lemma_next_char(line, '=', 0);
    let at = next_char(line, '=', 0);
    assert(line[name.len() as int] == '=');
    if at < name.len() {
        assert(line[at] == name[at]);
        assert(is_alnum(name[at]) || name[at] == '_');
    }
    assert(at == name.len());
    assert(line.take(at) =~= name);
    assert(line.skip(at + 1) =~= rest);
}

/// A value in single quotes is read back as it stands, whatever it holds besides a quote:
/// nothing in it is expanded.
pub proof fn law_single_quoted(name: Seq<char>, value: Seq<char>, i: int)
    requires
        is_env_name(name),
        !value.contains('\''),
    ensures
        line_sets(name + seq!['='] + (seq!['\''] + value + seq!['\'']), i) == Ok::<
            Option<(Seq<char>, Seq<char>)>,
            Seq<char>,
        >(Some((name, value))),
{
    let v = seq!['\''] + value + seq!['\''];
    lemma_name_line(name, v);
    lemma_trim_kept(v);
    lemma_next_char(v, '\'', 1);
    let end = next_char(v, '\'', 1);
    assert(v[v.len() - 1] == '\'');
    if end < v.len() - 1 {
        assert(v[end] == value[end - 1]);
        assert(value.contains(value[end - 1]));
    }
    assert(v.subrange(1, end) =~= value);
    assert(v.skip(end + 1) =~= Seq::<char>::empty());
}

/// The text with `"` and `\` escaped, from `from` on.
pub open spec fn escaped_from(s: Seq<char>, from: int) -> Seq<char>
    decreases s.len() - from,
{
    if from < 0 || from >= s.len() {
        Seq::empty()
    } else if s[from] == '"' || s[from] == '\\' {
        seq!['\\', s[from]] + escaped_from(s, from + 1)
    } else {
        seq![s[from]] + escaped_from(s, from + 1)
    }
}

proof fn lemma_unescape(v: Seq<char>, at: int, s: Seq<char>, from: int)
    requires
        0 <= at <= v.len(),
        0 <= from <= s.len(),
        v.skip(at) == escaped_from(s, from) + seq!['"'],
    ensures
        unescaped(v, at) == Some((s.skip(from), v.len() as int)),
    decreases s.len() - from,
{
    let rest = v.skip(at);
    assert(forall|k: int| 0 <= k < rest.len() ==> rest[k] == v[at + k]);
    if from < s.len() {
        let tail = escaped_from(s, from + 1) + seq!['"'];
        assert(seq![s[from]] + s.skip(from + 1) =~= s.skip(from));
        if s[from] == '"' || s[from] == '\\' {
            assert(escaped_from(s, from) == seq!['\\', s[from]] + escaped_from(s, from + 1));
            assert(rest.len() == 3 + escaped_from(s, from + 1).len());
            assert(rest[0] == '\\' && rest[1] == s[from]);
            assert(v.skip(at + 2) =~= tail) by {
                assert(rest.skip(2) =~= tail);
                assert(v.skip(at + 2) =~= rest.skip(2));
            }
            lemma_unescape(v, at + 2, s, from + 1);
        } else {
            assert(escaped_from(s, from) == seq![s[from]] + escaped_from(s, from + 1));
            assert(rest.len() == 2 + escaped_from(s, from + 1).len());
            assert(rest[0] == s[from]);
            assert(v.skip(at + 1) =~= tail) by {
                assert(rest.skip(1) =~= tail);
                assert(v.skip(at + 1) =~= rest.skip(1));
            }
            lemma_unescape(v, at + 1, s, from + 1);
        }
    } else {
        assert(rest[0] == '"');
        assert(v.len() == at + 1);
        assert(s.skip(from) =~= Seq::<char>::empty());
    }
}

/// A value in double quotes, its quotes and backslashes escaped, is read back as it was.
pub proof fn law_double_quoted(name: Seq<char>, value: Seq<char>, i: int)
    requires
        is_env_name(name),
    ensures
        line_sets(name + seq!['='] + (seq!['"'] + escaped_from(value, 0) + seq!['"']), i) == Ok::<
            Option<(Seq<char>, Seq<char>)>,
            Seq<char>,
        >(Some((name, value))),
{
    let v = seq!['"'] + escaped_from(value, 0) + seq!['"'];
    lemma_name_line(name, v);
    lemma_trim_kept(v);
    assert(v.skip(1) =~= escaped_from(value, 0) + seq!['"']);
    lemma_unescape(v, 1, value, 0);
    assert(value.skip(0) =~= value);
    assert(v.skip(v.len() as int) =~= Seq::<char>::empty());
}

proof fn lemma_mark_found(all: Seq<char>, n: int, from: int)
    requires
        0 <= from <= n,
        n + 2 <= all.len(),
        all[n] == ' ',
        all[n + 1] == '#',
        forall|j: int| 0 <= j < n ==> !(#[trigger] all[j] == ' ' && all[j + 1] == '#'),
    ensures
        find_from(all, " #"@, from) == Some(n),
    decreases n - from,
{
    reveal_strlit(" #");
    let mark = " #"@;
    assert(occurs_at(all, mark, n)) by {
        assert(all.subrange(n, n + 2) =~= mark);
    }
    if from < n {
        if occurs_at(all, mark, from) {
            assert(all.subrange(from, from + 2) == mark);
            assert(all.subrange(from, from + 2)[0] == all[from]);
            assert(all.subrange(from, from + 2)[1] == all[from + 1]);
        }
        lemma_mark_found(all, n, from + 1);
    }
}

proof fn lemma_start_of(value: Seq<char>, rest: Seq<char>)
    ensures
        trimmed_start(value + rest) == if trimmed_start(value).len() > 0 {
            trimmed_start(value) + rest
        } else {
            trimmed_start(rest)
        },
    decreases value.len(),
{
    if value.len() > 0 && is_space(value[0]) {
        assert((value + rest).drop_first() =~= value.drop_first() + rest);
        lemma_start_of(value.drop_first(), rest);
    } else if value.len() == 0 {
        assert(value + rest =~= rest);
    }
}

/// A space and `#` start a comment: a value that no quote opens is the text before them, even
/// where there is nothing before them.
pub proof fn law_comment_is_no_value(name: Seq<char>, value: Seq<char>, said: Seq<char>, i: int)
    requires
        is_env_name(name),
        said.len() > 0 && !is_space(said.last()),
        forall|j: int| 0 <= j < value.len() - 1 ==> !(#[trigger] value[j] == ' ' && value[j + 1] == '#'),
        trimmed_start(value).len() > 0 ==> trimmed_start(value)[0] != '\'' && trimmed_start(value)[0] != '"',
    ensures
        line_sets(name + seq!['='] + (value + " #"@ + said), i) == Ok::<Option<(Seq<char>, Seq<char>)>, Seq<char>>(
            Some((name, trimmed(value))),
        ),
{
    reveal_strlit(" #");
    let all = value + " #"@ + said;
    lemma_name_line(name, all);
    let n = value.len() as int;
    assert forall|j: int| 0 <= j < n implies !(#[trigger] all[j] == ' ' && all[j + 1] == '#') by {
        assert(all[j] == value[j]);
        if j < n - 1 {
            assert(all[j + 1] == value[j + 1]);
        }
    }
    lemma_mark_found(all, n, 0);
    assert(all.take(n) =~= value);
    lemma_start_of(value, " #"@ + said);
    assert(all =~= value + (" #"@ + said));
    let tail = " #"@ + said;
    assert(tail[0] == ' ' && tail.drop_first()[0] == '#');
    assert(trimmed_start(tail) == trimmed_start(tail.drop_first()));
    assert(trimmed_start(tail.drop_first()) == tail.drop_first());
}

proof fn lemma_mark_not_found(all: Seq<char>, from: int)
    requires
        0 <= from <= all.len(),
        forall|j: int| 0 <= j < all.len() - 1 ==> !(#[trigger] all[j] == ' ' && all[j + 1] == '#'),
    ensures
        find_from(all, " #"@, from) is None,
    decreases all.len() - from,
{
    reveal_strlit(" #");
    let mark = " #"@;
    assert(mark.len() == 2);
    if from + 2 <= all.len() {
        if occurs_at(all, mark, from) {
            assert(all.subrange(from, from + 2)[0] == all[from]);
            assert(all.subrange(from, from + 2)[1] == all[from + 1]);
        }
        lemma_mark_not_found(all, from + 1);
    }
}

/// A value that no quote opens and no comment follows is what stands behind the `=`, without the
/// blanks around it, and nothing in it is expanded.
pub proof fn law_plain_value(name: Seq<char>, value: Seq<char>, i: int)
    requires
        is_env_name(name),
        value.len() > 0,
        !is_space(value.last()),
        forall|j: int| 0 <= j < value.len() - 1 ==> !(#[trigger] value[j] == ' ' && value[j + 1] == '#'),
        trimmed_start(value).len() > 0 ==> trimmed_start(value)[0] != '\'' && trimmed_start(value)[0] != '"',
    ensures
        line_sets(name + seq!['='] + value, i) == Ok::<Option<(Seq<char>, Seq<char>)>, Seq<char>>(
            Some((name, trimmed(value))),
        ),
        !is_space(value[0]) ==> trimmed(value) == value,
{
    lemma_name_line(name, value);
    lemma_mark_not_found(value, 0);
    if !is_space(value[0]) {
        lemma_trim_kept(value);
    }
}

/// A line that says `export` before it sets what it sets without.
pub proof fn law_exported(name: Seq<char>, rest: Seq<char>, i: int)
    requires
        is_env_name(name),
        rest.len() > 0,
        !is_space(rest.last()),
    ensures
        line_sets("export "@ + (name + seq!['='] + rest), i) matches Ok(r) ==> line_sets(name + seq!['='] + rest, i)
            == Ok::<Option<(Seq<char>, Seq<char>)>, Seq<char>>(r),
        line_sets(name + seq!['='] + rest, i) matches Ok(r) ==> line_sets("export "@ + (name + seq!['='] + rest), i)
            == Ok::<Option<(Seq<char>, Seq<char>)>, Seq<char>>(r),
{
    reveal_strlit("export ");
    let line = name + seq!['='] + rest;
    lemma_name_line(name, rest);
    let whole = "export "@ + line;
    assert("export "@.len() == 7 && "export "@[0] == 'e');
    assert(whole.len() == line.len() + 7);
    assert(whole.last() == line.last());
    lemma_trim_kept(whole);
    assert(whole.take(7) =~= "export "@);
    assert(whole.skip(7) =~= line);
    assert(line[0] == name[0]);
    lemma_trim_kept(line);
}

/// The last line that sets a variable is the one that counts, and every variable a file sets
/// has a name a shell can export.
pub proof fn law_later_line_wins(base: Seq<(Seq<char>, Seq<char>)>, l: Seq<Seq<char>>, n: int)
    requires
        sorted(base),
        0 < n,
        set_by(base, l, n) is Ok,
    ensures
        sorted(set_by(base, l, n)->Ok_0),
        set_by(base, l, n - 1) is Ok,
        line_sets(l[n - 1], n - 1) matches Ok(Some(kv)) ==> {
            &&& is_env_name(kv.0)
            &&& entry(set_by(base, l, n)->Ok_0, kv.0) == Some(kv.1)
            &&& forall|k: Seq<char>|
                k != kv.0 ==> #[trigger] entry(set_by(base, l, n)->Ok_0, k) == entry(set_by(base, l, n - 1)->Ok_0, k)
        },
    decreases n,
{
    if n > 1 {
        law_later_line_wins(base, l, n - 1);
    }
    if let Ok(Some(kv)) = line_sets(l[n - 1], n - 1) {
        lemma_with_entry(set_by(base, l, n - 1)->Ok_0, kv.0, kv.1);
    }
}

} // verus!
