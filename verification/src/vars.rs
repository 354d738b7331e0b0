//! The substitutions a config may use: `~`, `${HOME}`, `${workspace}`, `${state}`, `${VK_UID}`,
//! `${VK_GID}` and `${localEnv:NAME}` (or `${localEnv:NAME:default}`).
//!
//! Deliberately few: an unknown `${…}` is an error, so a config written against a variable vk
//! does not implement fails rather than mounting a path with `${...}` in its name.

use crate::entries::{entry, get, lemma_place, lemma_with_entry, place_from, put_entry, sorted, with_entry};
use crate::path::{lossy_text, HostPath};
use crate::plan::{EnvVar, EnvVarView};
use crate::text::{
    before, cat2, cat3, cat5, char_from, chars_of, contains, cut, cut_at, debug_text, decimal, error, find_from,
    lemma_before_irreflexive, lemma_find_from, lemma_next_char, next_char, outcome, position_from, put, quoted,
    same, text_between, to_decimal, within, Error,
};
use vstd::prelude::*;

verus! {

/// What a config's variables stand for on this host, and what expanding them has met.
#[derive(Debug)]
pub struct Vars {
    pub workspace: HostPath,
    pub state: HostPath,
    pub home: Option<HostPath>,
    /// the host identity a build arg hands an image
    pub uid: u32,
    pub gid: u32,
    /// the process environment: a variable set to something that is not text has no value
    pub env: Vec<(String, Option<String>)>,
    /// `local.env` and friends: consulted after the process environment
    pub env_file: Vec<(String, String)>,
    /// one message for each variable this host could not fill
    pub missing: Vec<(String, ())>,
    /// every value this host fed a `${localEnv:…}` with, but the empty one
    pub secrets: Vec<(String, ())>,
}

pub struct VarsView {
    pub workspace: Seq<u8>,
    pub state: Seq<u8>,
    pub home: Option<Seq<u8>>,
    pub uid: u32,
    pub gid: u32,
    pub env: Seq<(Seq<char>, Option<Seq<char>>)>,
    pub env_file: Seq<(Seq<char>, Seq<char>)>,
    pub missing: Seq<(Seq<char>, ())>,
    pub secrets: Seq<(Seq<char>, ())>,
}

impl DeepView for Vars {
    type V = VarsView;

    open spec fn deep_view(&self) -> VarsView {
        VarsView {
            workspace: self.workspace.deep_view(),
            state: self.state.deep_view(),
            home: self.home.deep_view(),
            uid: self.uid,
            gid: self.gid,
            env: self.env.deep_view(),
            env_file: self.env_file.deep_view(),
            missing: self.missing.deep_view(),
            secrets: self.secrets.deep_view(),
        }
    }
}

/// One expanded string, and whether the host environment fed it.
#[derive(Debug)]
pub struct Expanded {
    pub value: String,
    pub sensitive: bool,
}

/// An expansion under way or done: what it has come to, whether the host environment fed it,
/// and what it has met.
pub struct Expansion {
    pub value: Seq<char>,
    pub sensitive: bool,
    pub vars: VarsView,
}

pub open spec fn home_text(v: VarsView) -> Result<Seq<char>, Seq<char>> {
    match v.home {
        Some(h) => Ok(lossy_text(h)),
        None => Err("HOME is not set, and the config refers to it"@),
    }
}

/// What this host has for a `${localEnv:…}`: the process environment's value before the local
/// env file's. An empty value is present; one that is not text is an error.
pub open spec fn host_value(v: VarsView, name: Seq<char>) -> Result<Option<Seq<char>>, Seq<char>> {
    match entry(v.env, name) {
        Some(Some(t)) => Ok(Some(t)),
        Some(None) => Err("${localEnv:"@ + name + "} is set but not valid UTF-8"@),
        None => Ok(entry(v.env_file, name)),
    }
}

/// What a variable this host could not fill is reported as.
pub open spec fn missing_text(var: Seq<char>) -> Seq<char> {
    "${localEnv:"@ + var + "} is not set — export it, put it in .virtkit/local.env, or give it a default as ${localEnv:"@
        + var + ":default}"@
}

/// The name and the default of what follows `localEnv:`. A default is a value, and may have
/// colons of its own.
pub open spec fn local_parts(s: Seq<char>) -> (Seq<char>, Option<Seq<char>>) {
    match cut(s, ':') {
        Some((var, default)) => (var, Some(default)),
        None => (s, None),
    }
}

/// An expansion with `text` more.
pub open spec fn with_text(x: Expansion, text: Seq<char>) -> Expansion {
    Expansion { value: x.value + text, ..x }
}

/// An expansion with what a `${localEnv:…}` stands for: the host's value, which is recorded,
/// else the default, else nothing and a message.
pub open spec fn with_local(x: Expansion, s: Seq<char>) -> Result<Expansion, Seq<char>> {
    let (var, default) = local_parts(s);
    match host_value(x.vars, var) {
        Err(e) => Err(e),
        Ok(Some(t)) => Ok(
            Expansion {
                value: x.value + t,
                sensitive: true,
                vars: if t.len() > 0 {
                    VarsView { secrets: with_entry(x.vars.secrets, t, ()), ..x.vars }
                } else {
                    x.vars
                },
            },
        ),
        Ok(None) => match default {
            Some(d) => Ok(with_text(x, d)),
            None => Ok(
                Expansion {
                    value: x.value,
                    sensitive: true,
                    vars: VarsView { missing: with_entry(x.vars.missing, missing_text(var), ()), ..x.vars },
                },
            ),
        },
    }
}

/// An expansion with what `${name}` stands for.
pub open spec fn with_variable(x: Expansion, name: Seq<char>) -> Result<Expansion, Seq<char>> {
    match cut(name, ':') {
        Some((kind, rest)) => if kind == "localEnv"@ {
            with_local(x, rest)
        } else {
            Err("${"@ + name + "} is not a variable vk substitutes"@)
        },
        None => if name == "HOME"@ {
            match home_text(x.vars) {
                Ok(h) => Ok(with_text(x, h)),
                Err(e) => Err(e),
            }
        } else if name == "workspace"@ {
            Ok(with_text(x, lossy_text(x.vars.workspace)))
        } else if name == "state"@ {
            Ok(with_text(x, lossy_text(x.vars.state)))
        } else if name == "VK_UID"@ {
            Ok(with_text(x, decimal(x.vars.uid as nat)))
        } else if name == "VK_GID"@ {
            Ok(with_text(x, decimal(x.vars.gid as nat)))
        } else {
            Err("${"@ + name + "} is not a variable vk substitutes"@)
        },
    }
}

/// An expansion with the text from `from` on, every `${…}` in it replaced.
pub open spec fn with_rest(x: Expansion, text: Seq<char>, from: int) -> Result<Expansion, Seq<char>>
    decreases text.len() - from,
    when 0 <= from <= text.len()
    via with_rest_decreases
{
    match find_from(text, "${"@, from) {
        None => Ok(with_text(x, text.skip(from))),
        Some(start) => {
            let end = next_char(text, '}', start + 2);
            if end >= text.len() {
                Err("unterminated ${…} in "@ + debug_text(text))
            } else {
                match with_variable(with_text(x, text.subrange(from, start)), text.subrange(start + 2, end)) {
                    Err(e) => Err(e),
                    Ok(y) => with_rest(y, text, end + 1),
                }
            }
        },
    }
}

#[via_fn]
proof fn with_rest_decreases(x: Expansion, text: Seq<char>, from: int) {
    reveal_strlit("${");
    lemma_find_from(text, "${"@, from);
    if let Some(start) = find_from(text, "${"@, from) {
        lemma_next_char(text, '}', start + 2);
    }
}

/// What has been met once the text from `from` on is gone through, up to what is wrong with it.
pub open spec fn rest_met(x: Expansion, text: Seq<char>, from: int) -> VarsView
    decreases text.len() - from,
    when 0 <= from <= text.len()
    via rest_met_decreases
{
    match find_from(text, "${"@, from) {
        None => x.vars,
        Some(start) => {
            let end = next_char(text, '}', start + 2);
            if end >= text.len() {
                x.vars
            } else {
                match with_variable(with_text(x, text.subrange(from, start)), text.subrange(start + 2, end)) {
                    Err(_) => x.vars,
                    Ok(y) => rest_met(y, text, end + 1),
                }
            }
        },
    }
}

#[via_fn]
proof fn rest_met_decreases(x: Expansion, text: Seq<char>, from: int) {
    reveal_strlit("${");
    lemma_find_from(text, "${"@, from);
    if let Some(start) = find_from(text, "${"@, from) {
        lemma_next_char(text, '}', start + 2);
    }
}

/// `~` alone or at the start of a path stands for the home directory.
pub open spec fn begins_at_home(text: Seq<char>) -> bool {
    text.len() > 0 && text[0] == '~' && (text.len() == 1 || text[1] == '/')
}

/// What a text expands to.
pub open spec fn expansion(v: VarsView, text: Seq<char>) -> Result<Expansion, Seq<char>> {
    let none = Expansion { value: Seq::empty(), sensitive: false, vars: v };
    if begins_at_home(text) {
        match home_text(v) {
            Ok(h) => with_rest(with_text(none, h), text, 1),
            Err(e) => Err(e),
        }
    } else {
        with_rest(none, text, 0)
    }
}

/// What has been met once a text is expanded, or as far as it could be.
pub open spec fn met(v: VarsView, text: Seq<char>) -> VarsView {
    let none = Expansion { value: Seq::empty(), sensitive: false, vars: v };
    if begins_at_home(text) {
        match home_text(v) {
            Ok(h) => rest_met(with_text(none, h), text, 1),
            Err(_) => v,
        }
    } else {
        rest_met(none, text, 0)
    }
}

impl Vars {
    /// The home directory as text.
    pub fn home(&self) -> (r: Result<String, Error>)
        ensures
            outcome(r) == home_text(self.deep_view()),
    {
        match &self.home {
            Some(h) => Ok(h.display()),
            None => Err(error("HOME is not set, and the config refers to it".to_owned())),
        }
    }

    /// Read the process environment before the local env file. An empty value is present; one
    /// that is not text is an error, so the user is not told to export an already set variable.
    pub fn local_env(&self, name: &str) -> (r: Result<Option<String>, Error>)
        ensures
            outcome(r) == host_value(self.deep_view(), name@),
    {
        match get(&self.env, name) {
            Some(Some(t)) => Ok(Some(t.clone())),
            Some(None) => Err(error(cat3("${localEnv:", name, "} is set but not valid UTF-8"))),
            None => match get(&self.env_file, name) {
                Some(t) => Ok(Some(t.clone())),
                None => Ok(None),
            },
        }
    }

    fn add_local(&mut self, x: &mut Expanded, s: &str) -> (r: Result<(), Error>)
        ensures
            match with_local(
                (Expansion { value: old(x).value@, sensitive: old(x).sensitive, vars: old(self).deep_view() }),
                s@,
            ) {
                Ok(y) => {
                    &&& r is Ok
                    &&& final(x).value@ == y.value
                    &&& final(x).sensitive == y.sensitive
                    &&& final(self).deep_view() == y.vars
                },
                Err(e) => outcome(r) == Err::<(), Seq<char>>(e) && final(self).deep_view() == old(self).deep_view(),
            },
    {
        let parts = cut_at(s, ':');
        let (var, default) = match parts {
            Some((var, default)) => (var, Some(default)),
            None => (s.to_owned(), None),
        };
        match self.local_env(var.as_str())? {
            Some(t) => {
                x.sensitive = true;
                x.value.append(t.as_str());
                if !t.as_str().is_empty() {
                    put_entry(&mut self.secrets, t, ());
                }
            },
            None => match default {
                Some(d) => {
                    x.value.append(d.as_str());
                },
                None => {
                    let note = cat5(
                        "${localEnv:",
                        var.as_str(),
                        "} is not set — export it, put it in .virtkit/local.env, or give it a default as ${localEnv:",
                        var.as_str(),
                        ":default}",
                    );
                    put_entry(&mut self.missing, note, ());
                    x.sensitive = true;
                },
            },
        }
        Ok(())
    }

    fn add_variable(&mut self, x: &mut Expanded, name: &str) -> (r: Result<(), Error>)
        ensures
            match with_variable(
                (Expansion { value: old(x).value@, sensitive: old(x).sensitive, vars: old(self).deep_view() }),
                name@,
            ) {
                Ok(y) => {
                    &&& r is Ok
                    &&& final(x).value@ == y.value
                    &&& final(x).sensitive == y.sensitive
                    &&& final(self).deep_view() == y.vars
                },
                Err(e) => outcome(r) == Err::<(), Seq<char>>(e) && final(self).deep_view() == old(self).deep_view(),
            },
    {
        if let Some((kind, rest)) = cut_at(name, ':') {
            if same(kind.as_str(), "localEnv") {
                return self.add_local(x, rest.as_str());
            }
            return Err(error(cat3("${", name, "} is not a variable vk substitutes")));
        }
        let value = if same(name, "HOME") {
            self.home()?
        } else if same(name, "workspace") {
            self.workspace.display()
        } else if same(name, "state") {
            self.state.display()
        } else if same(name, "VK_UID") {
            to_decimal(self.uid as u64)
        } else if same(name, "VK_GID") {
            to_decimal(self.gid as u64)
        } else {
            return Err(error(cat3("${", name, "} is not a variable vk substitutes")));
        };
        x.value.append(value.as_str());
        Ok(())
    }

    /// The text with its variables replaced. What the host environment fed is recorded among
    /// the secrets, and what it could not fill among what is missing; what was met before the
    /// text turned out wrong stays recorded.
    pub fn expand(&mut self, text: &str) -> (r: Result<Expanded, Error>)
        ensures
            match expansion(old(self).deep_view(), text@) {
                Ok(y) => {
                    &&& r matches Ok(x) && x.value@ == y.value && x.sensitive == y.sensitive
                    &&& final(self).deep_view() == y.vars
                },
                Err(e) => r matches Err(f) && f.deep_view() == e,
            },
            final(self).deep_view() == met(old(self).deep_view(), text@),
    {
        let v = chars_of(text);
        let mark = chars_of("${");
        let mut x = Expanded { value: String::new(), sensitive: false };
        let mut from: usize = 0;
        let ghost whole = expansion(self.deep_view(), text@);
        let ghost noted = met(self.deep_view(), text@);
        if v.len() > 0 && v[0] == '~' && (v.len() == 1 || v[1] == '/') {
            let h = self.home()?;
            x.value.append(h.as_str());
            from = 1;
        }
        loop
            invariant
                v@ == text@,
                mark@ == "${"@,
                from <= v@.len(),
                whole == expansion(old(self).deep_view(), text@),
                whole == with_rest(
                    (Expansion { value: x.value@, sensitive: x.sensitive, vars: self.deep_view() }),
                    text@,
                    from as int,
                ),
                noted == met(old(self).deep_view(), text@),
                noted == rest_met(
                    (Expansion { value: x.value@, sensitive: x.sensitive, vars: self.deep_view() }),
                    text@,
                    from as int,
                ),
            decreases v@.len() - from,
        {
            proof {
                reveal_strlit("${");
            }
            match position_from(&v, &mark, from) {
                None => {
                    let rest = text_between(&v, from, v.len());
                    assert(rest@ =~= text@.skip(from as int));
                    x.value.append(rest.as_str());
                    return Ok(x);
                },
                Some(start) => {
                    let total: usize = v.len();
                    assert(start + 2 <= total);
                    let end: usize = char_from(&v, '}', start + 2);
                    if end == v.len() {
                        return Err(error(cat2("unterminated ${…} in ", quoted(text).as_str())));
                    }
                    let head = text_between(&v, from, start);
                    let name = text_between(&v, start + 2, end);
                    x.value.append(head.as_str());
                    self.add_variable(&mut x, name.as_str())?;
                    from = end + 1;
                },
            }
        }
    }
}

/// The first `n` variables expanded, one after the other.
pub open spec fn vars_upto(v: VarsView, map: Seq<(Seq<char>, Seq<char>)>, n: int) -> Result<
    (Seq<EnvVarView>, VarsView),
    Seq<char>,
>
    decreases n,
{
    if n <= 0 {
        Ok((Seq::empty(), v))
    } else {
        match vars_upto(v, map, n - 1) {
            Err(e) => Err(e),
            Ok((done, w)) => match expansion(w, map[n - 1].1) {
                Err(e) => Err("environment variable "@ + map[n - 1].0 + ": "@ + e),
                Ok(x) => Ok(
                    (
                        done.push(EnvVarView { name: map[n - 1].0, value: x.value, sensitive: x.sensitive }),
                        x.vars,
                    ),
                ),
            },
        }
    }
}

/// The variables of a map, expanded.
pub open spec fn vars_of(v: VarsView, map: Seq<(Seq<char>, Seq<char>)>) -> Result<
    (Seq<EnvVarView>, VarsView),
    Seq<char>,
> {
    vars_upto(v, map, map.len() as int)
}

proof fn lemma_vars_kept(v: VarsView, map: Seq<(Seq<char>, Seq<char>)>, n: int, m: int)
    requires
        0 <= n <= m,
        vars_upto(v, map, n) is Err,
    ensures
        vars_upto(v, map, m) == vars_upto(v, map, n),
    decreases m - n,
{
    if n < m {
        lemma_vars_kept(v, map, n, m - 1);
    }
}

/// What has been met once the first `n` variables are expanded, or as far as they could be.
pub open spec fn met_upto(v: VarsView, map: Seq<(Seq<char>, Seq<char>)>, n: int) -> VarsView
    decreases n,
{
    if n <= 0 {
        v
    } else {
        match vars_upto(v, map, n - 1) {
            Err(_) => met_upto(v, map, n - 1),
            Ok((_, w)) => met(w, map[n - 1].1),
        }
    }
}

proof fn lemma_met_kept(v: VarsView, map: Seq<(Seq<char>, Seq<char>)>, n: int, m: int)
    requires
        0 <= n <= m,
        vars_upto(v, map, n) is Err,
    ensures
        met_upto(v, map, m) == met_upto(v, map, n),
    decreases m - n,
{
    if n < m {
        lemma_met_kept(v, map, n, m - 1);
        lemma_vars_kept(v, map, n, m - 1);
    }
}

/// A config's environment variables, with what they refer to expanded.
pub fn env_vars(map: &Vec<(String, String)>, vars: &mut Vars) -> (r: Result<Vec<EnvVar>, Error>)
    ensures
        match vars_of(old(vars).deep_view(), map.deep_view()) {
            Ok((done, w)) => {
                &&& r matches Ok(x) && x.deep_view() == done
                &&& final(vars).deep_view() == w
            },
            Err(e) => r matches Err(f) && f.deep_view() == e,
        },
        final(vars).deep_view() == met_upto(old(vars).deep_view(), map.deep_view(), map@.len() as int),
{
    let mut out: Vec<EnvVar> = Vec::new();
    let mut i: usize = 0;
    let ghost v0 = vars.deep_view();
    let ghost s = map.deep_view();
    assert(out.deep_view() =~= Seq::<EnvVarView>::empty());
    while i < map.len()
        invariant
            i <= map@.len(),
            s == map.deep_view(),
            v0 == old(vars).deep_view(),
            vars_upto(v0, s, i as int) == Ok::<(Seq<EnvVarView>, VarsView), Seq<char>>(
                (out.deep_view(), vars.deep_view()),
            ),
            met_upto(v0, s, i as int) == vars.deep_view(),
        decreases map@.len() - i,
    {
        assert(s[i as int] == (map@[i as int].0@, map@[i as int].1@));
        match vars.expand(map[i].1.as_str()) {
            Ok(e) => put(&mut out, EnvVar { name: map[i].0.clone(), value: e.value, sensitive: e.sensitive }),
            Err(e) => {
                proof {
                    lemma_vars_kept(v0, s, i + 1, s.len() as int);
                    lemma_met_kept(v0, s, i + 1, s.len() as int);
                }
                let heading = cat2("environment variable ", map[i].0.as_str());
                return Err(within(heading.as_str(), e));
            },
        }
        i = i + 1;
    }
    Ok(out)
}

/// A text that refers to nothing is itself.
pub proof fn law_plain_text(v: VarsView, text: Seq<char>)
    requires
        !contains(text, "${"@),
        !begins_at_home(text),
    ensures
        expansion(v, text) == Ok::<Expansion, Seq<char>>(
            Expansion { value: text, sensitive: false, vars: v },
        ),
{
    lemma_find_from(text, "${"@, 0);
    assert(Seq::<char>::empty() + text.skip(0) =~= text);
}

/// Nothing the host environment fed goes unmarked: an expansion that is not marked has
/// recorded nothing, and one that is begun marked stays so.
pub proof fn law_marked(x: Expansion, text: Seq<char>, from: int)
    requires
        0 <= from <= text.len(),
        with_rest(x, text, from) is Ok,
    ensures
        ({
            let y = with_rest(x, text, from)->Ok_0;
            &&& !y.sensitive ==> y.vars == x.vars && !x.sensitive
            &&& x.sensitive ==> y.sensitive
        }),
    decreases text.len() - from,
{
    reveal_strlit("${");
    lemma_find_from(text, "${"@, from);
    if let Some(start) = find_from(text, "${"@, from) {
        lemma_next_char(text, '}', start + 2);
        let end = next_char(text, '}', start + 2);
        let y = with_variable(with_text(x, text.subrange(from, start)), text.subrange(start + 2, end))->Ok_0;
        law_marked(y, text, end + 1);
    }
}

/// An expansion changes nothing of what the variables stand for, only what it has met.
pub proof fn law_expansion_keeps(x: Expansion, text: Seq<char>, from: int)
    requires
        0 <= from <= text.len(),
        with_rest(x, text, from) is Ok,
    ensures
        with_rest(x, text, from)->Ok_0.vars == (VarsView {
            missing: with_rest(x, text, from)->Ok_0.vars.missing,
            secrets: with_rest(x, text, from)->Ok_0.vars.secrets,
            ..x.vars
        }),
    decreases text.len() - from,
{
    reveal_strlit("${");
    lemma_find_from(text, "${"@, from);
    if let Some(start) = find_from(text, "${"@, from) {
        lemma_next_char(text, '}', start + 2);
        let end = next_char(text, '}', start + 2);
        let y = with_variable(with_text(x, text.subrange(from, start)), text.subrange(start + 2, end))->Ok_0;
        law_expansion_keeps(y, text, end + 1);
    }
}

/// What stands for a variable of the host environment.
pub open spec fn mention(name: Seq<char>) -> Seq<char> {
    "${localEnv:"@ + name + "}"@
}

/// The name ends where the mention of it does, and no default begins in it.
pub open spec fn can_be_mentioned(name: Seq<char>) -> bool {
    !name.contains('}') && !name.contains(':')
}

/// This host has no such variable.
pub open spec fn is_absent(v: VarsView, name: Seq<char>) -> bool {
    entry(v.env, name) is None && entry(v.env_file, name) is None
}

/// What has been met once the first `n` texts are expanded, one after the other.
pub open spec fn met_in_turn(v: VarsView, texts: Seq<Seq<char>>, n: int) -> VarsView
    decreases n,
{
    if n <= 0 {
        v
    } else {
        met(met_in_turn(v, texts, n - 1), texts[n - 1])
    }
}

/// The same variables, with what was missing still missing.
spec fn goes_on(v: VarsView, w: VarsView) -> bool {
    &&& w.env == v.env
    &&& w.env_file == v.env_file
    &&& sorted(v.missing) ==> sorted(w.missing) && forall|k: Seq<char>|
        entry(v.missing, k) is Some ==> #[trigger] entry(w.missing, k) is Some
}

proof fn lemma_rest_goes_on(x: Expansion, text: Seq<char>, from: int)
    requires
        0 <= from <= text.len(),
    ensures
        goes_on(x.vars, rest_met(x, text, from)),
    decreases text.len() - from,
{
    reveal_strlit("${");
    lemma_find_from(text, "${"@, from);
    if let Some(start) = find_from(text, "${"@, from) {
        lemma_next_char(text, '}', start + 2);
        let end = next_char(text, '}', start + 2);
        if end < text.len() {
            let name = text.subrange(start + 2, end);
            let before = with_text(x, text.subrange(from, start));
            if let Ok(y) = with_variable(before, name) {
                if let Some((_, rest)) = cut(name, ':') {
                    let var = local_parts(rest).0;
                    if sorted(x.vars.missing) {
                        lemma_with_entry(x.vars.missing, missing_text(var), ());
                    }
                }
                assert(goes_on(x.vars, y.vars));
                lemma_rest_goes_on(y, text, end + 1);
            }
        }
    }
}

proof fn lemma_in_turn_goes_on(v: VarsView, texts: Seq<Seq<char>>, m: int, n: int)
    requires
        0 <= m <= n,
    ensures
        goes_on(met_in_turn(v, texts, m), met_in_turn(v, texts, n)),
    decreases n - m,
{
    if m < n {
        lemma_in_turn_goes_on(v, texts, m, n - 1);
        let w = met_in_turn(v, texts, n - 1);
        let none = Expansion { value: Seq::empty(), sensitive: false, vars: w };
        if begins_at_home(texts[n - 1]) {
            if let Ok(h) = home_text(w) {
                lemma_rest_goes_on(with_text(none, h), texts[n - 1], 1);
            }
        } else {
            lemma_rest_goes_on(none, texts[n - 1], 0);
        }
    }
}

proof fn lemma_mention(w: VarsView, name: Seq<char>)
    requires
        can_be_mentioned(name),
        is_absent(w, name),
    ensures
        expansion(w, mention(name)) == Ok::<Expansion, Seq<char>>(
            Expansion {
                value: Seq::empty(),
                sensitive: true,
                vars: VarsView { missing: with_entry(w.missing, missing_text(name), ()), ..w },
            },
        ),
        met(w, mention(name)) == (VarsView { missing: with_entry(w.missing, missing_text(name), ()), ..w }),
{
    reveal_strlit("${localEnv:");
    reveal_strlit("}");
    reveal_strlit("${");
    reveal_strlit("localEnv");
    let text = mention(name);
    let n = text.len() as int;
    let none = Expansion { value: Seq::empty(), sensitive: false, vars: w };
    assert(text[0] == '$' && text[1] == '{' && text[n - 1] == '}');
    assert forall|i: int| 11 <= i < n - 1 implies #[trigger] text[i] != '}' by {
        assert(text[i] == name[i - 11]);
    }
    assert(text.subrange(0, 2) =~= "${"@);
    assert(find_from(text, "${"@, 0) == Some(0int));
    lemma_next_char(text, '}', 2);
    let end = next_char(text, '}', 2);
    if end < n - 1 {
        assert(text[end] == '}');
    }
    assert(end == n - 1);
    let inner = text.subrange(2, end);
    assert(inner =~= "localEnv"@ + seq![':'] + name);
    lemma_next_char(inner, ':', 0);
    let colon = next_char(inner, ':', 0);
    assert(inner[8] == ':');
    if colon < 8 {
        assert(inner[colon] == "localEnv"@[colon]);
    }
    assert(inner.take(8) =~= "localEnv"@);
    assert(inner.skip(9) =~= name);
    lemma_next_char(name, ':', 0);
    let none_left = next_char(name, ':', 0);
    if none_left < name.len() {
        assert(name.contains(name[none_left]));
    }
    assert(local_parts(name) == (name, None::<Seq<char>>));
    let head = with_text(none, text.subrange(0, 0));
    assert(head.value =~= Seq::<char>::empty());
    let y = with_variable(head, inner)->Ok_0;
    let want = VarsView { missing: with_entry(w.missing, missing_text(name), ()), ..w };
    assert(cut(inner, ':') == Some(("localEnv"@, name)));
    assert(with_variable(head, inner) == with_local(head, name));
    assert(y == (Expansion { value: head.value, sensitive: true, vars: want }));
    assert(text.skip(n) =~= Seq::<char>::empty());
    assert(find_from(text, "${"@, n) is None);
    assert(with_text(y, text.skip(n)).value =~= Seq::<char>::empty());
    assert(with_rest(y, text, n) == Ok::<Expansion, Seq<char>>(with_text(y, text.skip(n))));
    assert(rest_met(y, text, n) == want);
    assert(!begins_at_home(text));
    assert(with_rest(none, text, 0) == with_rest(y, text, n));
    assert(rest_met(none, text, 0) == rest_met(y, text, n));
}

/// A variable this host does not have is noted, not failed on, and noted once however often and
/// among whatever it is mentioned: each mention comes to nothing, is marked, records no secret, and
/// what is missing has one message for it.
pub proof fn law_absent_is_noted_once(v: VarsView, name: Seq<char>, texts: Seq<Seq<char>>, n: int, i: int)
    requires
        can_be_mentioned(name),
        is_absent(v, name),
        sorted(v.missing),
        0 <= i < n <= texts.len(),
        texts[i] == mention(name),
    ensures
        ({
            let w = met_in_turn(v, texts, i);
            expansion(w, texts[i]) == Ok::<Expansion, Seq<char>>(
                Expansion {
                    value: Seq::empty(),
                    sensitive: true,
                    vars: VarsView { missing: with_entry(w.missing, missing_text(name), ()), ..w },
                },
            )
        }),
        exists|at: int|
            0 <= at < met_in_turn(v, texts, n).missing.len() && (#[trigger] met_in_turn(v, texts, n).missing[at]).0
                == missing_text(name),
        forall|a: int, b: int|
            0 <= a < b < met_in_turn(v, texts, n).missing.len() ==> (#[trigger] met_in_turn(v, texts, n).missing[a]).0
                != (#[trigger] met_in_turn(v, texts, n).missing[b]).0,
{
    lemma_in_turn_goes_on(v, texts, 0, i);
    let w = met_in_turn(v, texts, i);
    lemma_mention(w, name);
    lemma_with_entry(w.missing, missing_text(name), ());
    assert(met_in_turn(v, texts, i + 1) == met(w, texts[i]));
    lemma_in_turn_goes_on(v, texts, i + 1, n);
    let last = met_in_turn(v, texts, n).missing;
    assert(entry(last, missing_text(name)) is Some);
    lemma_place(last, missing_text(name), 0);
    let at = place_from(last, missing_text(name), 0);
    assert(last[at].0 == missing_text(name));
    assert forall|a: int, b: int| 0 <= a < b < last.len() implies (#[trigger] last[a]).0 != (#[trigger] last[b]).0 by {
        assert(before(last[a].0, last[b].0));
        lemma_before_irreflexive(last[a].0);
    }
}

} // verus!
