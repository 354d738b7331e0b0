//! What a variable in a config stands for.

use crate::entries::{entry, lemma_with_entry, sorted};
use crate::path::lossy_text;
use crate::text::{cut, decimal, find_from, lemma_find_from, lemma_next_char, next_char, occurs_at};
use crate::vars::{
    begins_at_home, expansion, local_parts, missing_text, with_rest, with_text, with_variable, Expansion, VarsView,
};
use vstd::prelude::*;

verus! {

/// A variable by itself.
pub open spec fn variable(name: Seq<char>) -> Seq<char> {
    "${"@ + name + "}"@
}

proof fn lemma_alone(v: VarsView, name: Seq<char>)
    requires
        !name.contains('}'),
    ensures
        ({
            let none = Expansion { value: Seq::empty(), sensitive: false, vars: v };
            match with_variable(none, name) {
                Ok(y) => expansion(v, variable(name)) == Ok::<Expansion, Seq<char>>(y),
                Err(e) => expansion(v, variable(name)) == Err::<Expansion, Seq<char>>(e),
            }
        }),
{
    reveal_strlit("${");
    reveal_strlit("}");
    let text = variable(name);
    let n = text.len() as int;
    assert("${"@.len() == 2 && "}"@.len() == 1);
    assert("${"@[0] == '$' && "${"@[1] == '{' && "}"@[0] == '}');
    assert(text[0] == '$' && text[1] == '{' && text[n - 1] == '}');
    assert(text.subrange(0, 2) =~= "${"@);
    assert(occurs_at(text, "${"@, 0));
    assert(find_from(text, "${"@, 0) == Some(0int));
    lemma_next_char(text, '}', 2);
    let end = next_char(text, '}', 2);
    if end < n - 1 {
        assert(text[end] == name[end - 2]);
        assert(name.contains(name[end - 2]));
    }
    assert(end == n - 1);
    assert(text.subrange(2, end) =~= name);
    let none = Expansion { value: Seq::<char>::empty(), sensitive: false, vars: v };
    let head = with_text(none, text.subrange(0, 0));
    assert(head.value =~= none.value);
    assert(head == none);
    assert(!begins_at_home(text));
    if let Ok(y) = with_variable(none, name) {
        assert(find_from(text, "${"@, n) is None);
        assert(text.skip(n) =~= Seq::<char>::empty());
        assert(with_text(y, text.skip(n)).value =~= y.value);
        assert(with_rest(y, text, n) == Ok::<Expansion, Seq<char>>(with_text(y, text.skip(n))));
    }
    assert(with_rest(none, text, 0) == match with_variable(none, name) {
        Ok(y) => with_rest(y, text, n),
        Err(e) => Err(e),
    });
}

/// The value a text comes to, where it comes to one.
pub open spec fn stands_for(v: VarsView, text: Seq<char>, value: Seq<char>) -> bool {
    expansion(v, text) matches Ok(x) && x.value == value && !x.sensitive && x.vars == v
}

proof fn lemma_no_colon(s: Seq<char>)
    requires
        !s.contains(':'),
    ensures
        cut(s, ':') is None,
{
    lemma_next_char(s, ':', 0);
    let at = next_char(s, ':', 0);
    if at < s.len() {
        assert(s.contains(s[at]));
    }
}

/// The variables of a config: the workspace, the state directory, the home, and this user's ids. A
/// home that is not set, and anything else in braces, is an error.
pub proof fn law_variables(v: VarsView, other: Seq<char>)
    ensures
        stands_for(v, "${workspace}"@, lossy_text(v.workspace)),
        stands_for(v, "${state}"@, lossy_text(v.state)),
        stands_for(v, "${VK_UID}"@, decimal(v.uid as nat)),
        stands_for(v, "${VK_GID}"@, decimal(v.gid as nat)),
        v.home matches Some(h) ==> stands_for(v, "${HOME}"@, lossy_text(h)),
        v.home is None ==> expansion(v, "${HOME}"@) is Err,
        !other.contains('}') && !other.contains(':') && other != "workspace"@ && other != "state"@ && other != "HOME"@
            && other != "VK_UID"@ && other != "VK_GID"@ ==> expansion(v, variable(other)) is Err,
{
    reveal_strlit("${");
    reveal_strlit("}");
    reveal_strlit("workspace");
    reveal_strlit("state");
    reveal_strlit("HOME");
    reveal_strlit("VK_UID");
    reveal_strlit("VK_GID");
    reveal_strlit("${workspace}");
    reveal_strlit("${state}");
    reveal_strlit("${HOME}");
    reveal_strlit("${VK_UID}");
    reveal_strlit("${VK_GID}");
    assert("${workspace}"@ =~= variable("workspace"@));
    assert("${state}"@ =~= variable("state"@));
    assert("${HOME}"@ =~= variable("HOME"@));
    assert("${VK_UID}"@ =~= variable("VK_UID"@));
    assert("${VK_GID}"@ =~= variable("VK_GID"@));
    assert("workspace"@.len() == 9 && "state"@.len() == 5 && "HOME"@.len() == 4);
    assert("VK_UID"@.len() == 6 && "VK_GID"@.len() == 6);
    assert("VK_UID"@[3] == 'U' && "VK_GID"@[3] == 'G');
    lemma_alone(v, "workspace"@);
    lemma_alone(v, "state"@);
    lemma_alone(v, "HOME"@);
    lemma_alone(v, "VK_UID"@);
    lemma_alone(v, "VK_GID"@);
    lemma_no_colon("workspace"@);
    lemma_no_colon("state"@);
    lemma_no_colon("HOME"@);
    lemma_no_colon("VK_UID"@);
    lemma_no_colon("VK_GID"@);
    let e = Seq::<char>::empty();
    assert(e + lossy_text(v.workspace) =~= lossy_text(v.workspace));
    assert(e + lossy_text(v.state) =~= lossy_text(v.state));
    assert(e + decimal(v.uid as nat) =~= decimal(v.uid as nat));
    assert(e + decimal(v.gid as nat) =~= decimal(v.gid as nat));
    if let Some(h) = v.home {
        assert(e + lossy_text(h) =~= lossy_text(h));
    }
    if !other.contains('}') && !other.contains(':') {
        lemma_alone(v, other);
        lemma_no_colon(other);
    }
}

/// What this host has under a name: the process environment's value before the env file's.
pub open spec fn has_value(v: VarsView, name: Seq<char>, value: Seq<char>) -> bool {
    ||| entry(v.env, name) == Some(Some(value))
    ||| entry(v.env, name) is None && entry(v.env_file, name) == Some(value)
}

/// A value of this host is what it has under the name, is marked as its own and, unless it is
/// empty, kept among the secrets; a default is used only where this host has nothing, and is not
/// marked; and a value that is no text is an error.
pub proof fn law_local_environment(v: VarsView, name: Seq<char>, value: Seq<char>, default: Seq<char>)
    requires
        !name.contains('}') && !name.contains(':'),
        !default.contains('}'),
        sorted(v.secrets),
    ensures
        ({
            let bare = expansion(v, variable("localEnv:"@ + name));
            let other = expansion(v, variable("localEnv:"@ + name + ":"@ + default));
            &&& has_value(v, name, value) ==> {
                &&& bare matches Ok(x) && x.value == value && x.sensitive && (value.len() > 0 ==> entry(
                    x.vars.secrets,
                    value,
                ) is Some)
                &&& other matches Ok(x) && x.value == value && x.sensitive && (value.len() > 0 ==> entry(
                    x.vars.secrets,
                    value,
                ) is Some)
            }
            &&& entry(v.env, name) is None && entry(v.env_file, name) is None ==> (other matches Ok(x) && x.value
                == default && !x.sensitive && x.vars == v)
            &&& entry(v.env, name) matches Some(None) ==> bare is Err && other is Err
        }),
{
    reveal_strlit("localEnv:");
    reveal_strlit("localEnv");
    reveal_strlit(":");
    assert("localEnv:"@.len() == 9 && "localEnv"@.len() == 8 && ":"@ =~= seq![':']);
    let a = "localEnv:"@ + name;
    let b = "localEnv:"@ + name + ":"@ + default;
    assert forall|i: int| 0 <= i < a.len() implies a[i] != '}' by {
        if i >= 9 {
            assert(name.contains(name[i - 9]));
        }
    }
    assert forall|i: int| 0 <= i < b.len() implies b[i] != '}' by {
        if i >= 10 + name.len() {
            assert(b[i] == default[i - 10 - name.len()]);
            assert(default.contains(default[i - 10 - name.len()]));
        } else if i == 9 + name.len() {
            assert(b[i] == ':');
        } else if i >= 9 {
            assert(b[i] == name[i - 9]);
            assert(name.contains(name[i - 9]));
        }
    }
    lemma_alone(v, a);
    lemma_alone(v, b);
    lemma_prefix(a, name);
    assert(b =~= "localEnv:"@ + (name + ":"@ + default));
    lemma_prefix(b, name + ":"@ + default);
    lemma_no_colon(name);
    let nd = name + ":"@ + default;
    lemma_next_char(nd, ':', 0);
    let at = next_char(nd, ':', 0);
    assert(nd[name.len() as int] == ':');
    if at < name.len() {
        assert(nd[at] == name[at]);
        assert(name.contains(name[at]));
    }
    assert(nd.take(name.len() as int) =~= name);
    assert(nd.skip(name.len() as int + 1) =~= default);
    assert(local_parts(nd) == (name, Some(default)));
    assert(local_parts(name) == (name, None::<Seq<char>>));
    let e = Seq::<char>::empty();
    assert(e + value =~= value);
    assert(e + default =~= default);
    lemma_with_entry(v.secrets, value, ());
}

/// Where this host has nothing under a name, and there is no default, the value is empty and the
/// name is noted as missing.
pub proof fn law_missing_is_noted(v: VarsView, name: Seq<char>)
    requires
        !name.contains('}') && !name.contains(':'),
        sorted(v.missing),
        entry(v.env, name) is None && entry(v.env_file, name) is None,
    ensures
        expansion(v, variable("localEnv:"@ + name)) matches Ok(x) && x.value.len() == 0 && entry(
            x.vars.missing,
            missing_text(name),
        ) is Some,
{
    reveal_strlit("localEnv:");
    reveal_strlit("localEnv");
    assert("localEnv:"@.len() == 9);
    let a = "localEnv:"@ + name;
    assert forall|i: int| 0 <= i < a.len() implies a[i] != '}' by {
        if i >= 9 {
            assert(name.contains(name[i - 9]));
        }
    }
    lemma_alone(v, a);
    lemma_prefix(a, name);
    lemma_no_colon(name);
    lemma_with_entry(v.missing, missing_text(name), ());
}

proof fn lemma_prefix(a: Seq<char>, rest: Seq<char>)
    requires
        a == "localEnv:"@ + rest,
    ensures
        cut(a, ':') == Some(("localEnv"@, rest)),
{
    reveal_strlit("localEnv:");
    reveal_strlit("localEnv");
    assert("localEnv:"@.len() == 9 && "localEnv"@.len() == 8);
    lemma_next_char(a, ':', 0);
    let at = next_char(a, ':', 0);
    assert(a[8] == ':');
    if at < 8 {
        assert(a[at] == "localEnv:"@[at]);
    }
    assert(a.take(8) =~= "localEnv"@);
    assert(a.skip(9) =~= rest);
}

proof fn lemma_shape(a: Seq<char>, name: Seq<char>, b: Seq<char>)
    requires
        !a.contains('$') && !b.contains('$') && !name.contains('}'),
    ensures
        ({
            let text = a + variable(name) + b;
            let n = a.len() as int;
            let m = n + 2 + name.len();
            &&& m < text.len()
            &&& find_from(text, "${"@, 0) == Some(n)
            &&& next_char(text, '}', n + 2) == m
            &&& find_from(text, "${"@, m + 1) is None
            &&& text.subrange(0, n) == a
            &&& text.subrange(n + 2, m) == name
            &&& text.skip(m + 1) == b
        }),
{
    reveal_strlit("${");
    reveal_strlit("}");
    assert("${"@.len() == 2 && "}"@.len() == 1);
    assert("${"@[0] == '$' && "${"@[1] == '{' && "}"@[0] == '}');
    let text = a + variable(name) + b;
    let n = a.len() as int;
    let m = n + 2 + name.len();
    let k = m + 1;
    assert(text[n] == '$' && text[n + 1] == '{' && text[m] == '}');
    assert(text.subrange(n, n + 2) =~= "${"@);
    assert(occurs_at(text, "${"@, n));
    lemma_find_from(text, "${"@, 0);
    let f = find_from(text, "${"@, 0);
    assert(f is Some && f->0 <= n);
    if f->0 < n {
        let i = f->0;
        assert(text.subrange(i, i + 2)[0] == text[i]);
        assert(text[i] == a[i]);
        assert(a.contains(a[i]));
    }
    lemma_next_char(text, '}', n + 2);
    let end = next_char(text, '}', n + 2);
    if end < m {
        assert(text[end] == name[end - n - 2]);
        assert(name.contains(name[end - n - 2]));
    }
    lemma_find_from(text, "${"@, k);
    if let Some(i) = find_from(text, "${"@, k) {
        assert(text.subrange(i, i + 2)[0] == text[i]);
        assert(text[i] == b[i - k]);
        assert(b.contains(b[i - k]));
    }
    assert(text.subrange(0, n) =~= a);
    assert(text.subrange(n + 2, m) =~= name);
    assert(text.skip(k) =~= b);
}

/// What stands around a variable is kept: here of a text with one variable in it, that does not
/// begin at the home.
#[verifier::spinoff_prover]
pub proof fn law_text_around_a_variable(v: VarsView, a: Seq<char>, name: Seq<char>, b: Seq<char>)
    requires
        !a.contains('$') && !b.contains('$') && !name.contains('}'),
        a.len() > 0 && a[0] != '~',
    ensures
        match expansion(v, variable(name)) {
            Ok(x) => expansion(v, a + variable(name) + b) matches Ok(y) && y.value == a + x.value + b && y.sensitive
                == x.sensitive && y.vars == x.vars,
            Err(e) => expansion(v, a + variable(name) + b) is Err,
        },
{
    reveal_strlit("~");
    let text = a + variable(name) + b;
    let n = a.len() as int;
    let m = n + 2 + name.len();
    lemma_alone(v, name);
    lemma_shape(a, name, b);
    assert(text[0] == a[0]);
    assert(!begins_at_home(text));
    let none = Expansion { value: Seq::<char>::empty(), sensitive: false, vars: v };
    let head = with_text(none, a);
    assert(head.value =~= a);
    assert(head == (Expansion { value: a, ..none }));
    lemma_ahead(none, a, name);
    assert(with_rest(none, text, 0) == match with_variable(head, name) {
        Ok(y) => with_rest(y, text, m + 1),
        Err(e) => Err(e),
    });
    if let Ok(y) = with_variable(head, name) {
        assert(with_rest(y, text, m + 1) == Ok::<Expansion, Seq<char>>(with_text(y, b)));
    }
}

proof fn lemma_ahead(x: Expansion, a: Seq<char>, name: Seq<char>)
    requires
        x.value.len() == 0 && !x.sensitive,
    ensures
        match with_variable(x, name) {
            Ok(y) => with_variable(Expansion { value: a, ..x }, name) matches Ok(z) && z.value == a + y.value
                && z.sensitive == y.sensitive && z.vars == y.vars,
            Err(e) => with_variable(Expansion { value: a, ..x }, name) is Err,
        },
{
    assert forall|t: Seq<char>| #[trigger] (x.value + t) == t by {
        assert(x.value + t =~= t);
    }
}

} // verus!
