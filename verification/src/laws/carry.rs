//! What the parts of a devcontainer config come to.

use crate::devcontainer::{
    config_found, fields_of, fields_of_json, items_upto, lifecycle_tree, lifecycles_upto, toml_of_json, with_field,
    FieldsView, Lifecycle, Mount, Port,
};
use crate::entries::{entry, lemma_with_entry, sorted};
use crate::laws::units::law_decimal_reads_back;
use crate::path::joined_path;
use crate::text::{cut, cut_last, decimal, last_char, lemma_next_char, next_char};
use crate::translate::port_of;
use crate::value::{JsonTree, Tree};
use vstd::prelude::*;
use vstd::utf8::encode_utf8;

verus! {

proof fn lemma_fields_sorted(v: JsonTree, n: int)
    ensures
        sorted(fields_of_json(v, n)),
    decreases n,
{
    if let JsonTree::Object(o) = v {
        if 0 < n <= o.len() {
            lemma_fields_sorted(v, n - 1);
            if let Some(t) = toml_of_json(o[n - 1].1) {
                lemma_with_entry(fields_of_json(v, n - 1), o[n - 1].0, t);
            }
        }
    }
}

proof fn lemma_field_carried(o: Seq<(Seq<char>, JsonTree)>, n: int, i: int)
    requires
        0 <= i < n <= o.len(),
        forall|a: int, b: int| 0 <= a < b < o.len() ==> (#[trigger] o[a]).0 != (#[trigger] o[b]).0,
        toml_of_json(o[i].1) is Some,
    ensures
        entry(fields_of_json(JsonTree::Object(o), n), o[i].0) == toml_of_json(o[i].1),
    decreases n,
{
    let v = JsonTree::Object(o);
    lemma_fields_sorted(v, n - 1);
    if let Some(t) = toml_of_json(o[n - 1].1) {
        lemma_with_entry(fields_of_json(v, n - 1), o[n - 1].0, t);
    }
    if i < n - 1 {
        lemma_field_carried(o, n - 1, i);
        assert(o[i].0 != o[n - 1].0);
    }
}

proof fn lemma_items_carried(a: Seq<JsonTree>, n: int, i: int)
    requires
        0 <= i < n <= a.len(),
        forall|k: int| 0 <= k < a.len() ==> toml_of_json(#[trigger] a[k]) is Some,
    ensures
        items_upto(JsonTree::Array(a), n).len() == n,
        items_upto(JsonTree::Array(a), n)[i] == toml_of_json(a[i])->0,
    decreases n,
{
    let v = JsonTree::Array(a);
    assert(toml_of_json(a[n - 1]) is Some);
    if n > 1 {
        if i < n - 1 {
            lemma_items_carried(a, n - 1, i);
        } else {
            lemma_items_carried(a, n - 1, 0);
        }
    } else {
        assert(items_upto(v, 0).len() == 0);
    }
}

/// JSON is carried as it is: what has a value keeps it, a list its items in their order, an object
/// its fields under their names, and only nothing is dropped.
pub proof fn law_json_is_carried(
    s: Seq<char>,
    b: bool,
    a: Seq<JsonTree>,
    o: Seq<(Seq<char>, JsonTree)>,
    i: int,
)
    ensures
        toml_of_json(JsonTree::Text(s)) == Some(Tree::Text(s)),
        toml_of_json(JsonTree::Bool(b)) == Some(Tree::Boolean(b)),
        toml_of_json(JsonTree::Null) is None,
        0 <= i < a.len() && (forall|k: int| 0 <= k < a.len() ==> toml_of_json(#[trigger] a[k]) is Some) ==> (toml_of_json(
            JsonTree::Array(a),
        ) matches Some(Tree::Array(t)) && t.len() == a.len() && t[i] == toml_of_json(a[i])->0),
        0 <= i < o.len() && (forall|x: int, y: int|
            0 <= x < y < o.len() ==> (#[trigger] o[x]).0 != (#[trigger] o[y]).0) && toml_of_json(o[i].1) is Some ==> (
        toml_of_json(JsonTree::Object(o)) matches Some(Tree::Table(t)) && entry(t, o[i].0) == toml_of_json(o[i].1)),
{
    if 0 <= i < a.len() && (forall|k: int| 0 <= k < a.len() ==> toml_of_json(#[trigger] a[k]) is Some) {
        lemma_items_carried(a, a.len() as int, i);
    }
    if 0 <= i < o.len() && (forall|x: int, y: int|
        0 <= x < y < o.len() ==> (#[trigger] o[x]).0 != (#[trigger] o[y]).0) && toml_of_json(o[i].1) is Some {
        lemma_field_carried(o, o.len() as int, i);
    }
}

proof fn lemma_cut(k: Seq<char>, v: Seq<char>)
    requires
        !k.contains('='),
    ensures
        cut(k + "="@ + v, '=') == Some((k, v)),
{
    reveal_strlit("=");
    let s = k + "="@ + v;
    assert("="@ =~= seq!['=']);
    lemma_next_char(s, '=', 0);
    let at = next_char(s, '=', 0);
    assert(s[k.len() as int] == '=');
    if at < k.len() {
        assert(s[at] == k[at]);
        assert(k.contains(k[at]));
    }
    assert(s.take(k.len() as int) =~= k);
    assert(s.skip(k.len() as int + 1) =~= v);
}

/// An option of a mount sets what it names and nothing else: its kind, its source and its target by
/// any of their names, and that it is read-only.
pub proof fn law_mount_options(f: FieldsView, s: Seq<char>, v: Seq<char>)
    ensures
        with_field(f, s, "type"@ + "="@ + v) == Ok::<FieldsView, Seq<char>>(FieldsView { kind: v, ..f }),
        with_field(f, s, "source"@ + "="@ + v) == Ok::<FieldsView, Seq<char>>(FieldsView { source: v, ..f }),
        with_field(f, s, "src"@ + "="@ + v) == Ok::<FieldsView, Seq<char>>(FieldsView { source: v, ..f }),
        with_field(f, s, "target"@ + "="@ + v) == Ok::<FieldsView, Seq<char>>(FieldsView { target: v, ..f }),
        with_field(f, s, "dst"@ + "="@ + v) == Ok::<FieldsView, Seq<char>>(FieldsView { target: v, ..f }),
        with_field(f, s, "destination"@ + "="@ + v) == Ok::<FieldsView, Seq<char>>(FieldsView { target: v, ..f }),
        with_field(f, s, "consistency"@ + "="@ + v) == Ok::<FieldsView, Seq<char>>(f),
        with_field(f, s, "readonly"@) == Ok::<FieldsView, Seq<char>>(FieldsView { read_only: true, ..f }),
        with_field(f, s, "ro"@) == Ok::<FieldsView, Seq<char>>(FieldsView { read_only: true, ..f }),
{
    reveal_strlit("type");
    reveal_strlit("source");
    reveal_strlit("src");
    reveal_strlit("target");
    reveal_strlit("dst");
    reveal_strlit("destination");
    reveal_strlit("consistency");
    reveal_strlit("readonly");
    reveal_strlit("ro");
    assert("type"@.len() == 4 && "source"@.len() == 6 && "src"@.len() == 3 && "target"@.len() == 6);
    assert("dst"@.len() == 3 && "destination"@.len() == 11 && "consistency"@.len() == 11);
    assert("source"@[0] == 's' && "target"@[0] == 't' && "src"@[0] == 's' && "dst"@[0] == 'd');
    assert("destination"@[0] == 'd' && "consistency"@[0] == 'c');
    lemma_cut("type"@, v);
    lemma_cut("source"@, v);
    lemma_cut("src"@, v);
    lemma_cut("target"@, v);
    lemma_cut("dst"@, v);
    lemma_cut("destination"@, v);
    lemma_cut("consistency"@, v);
    let a = "readonly"@;
    let b = "ro"@;
    lemma_next_char(a, '=', 0);
    lemma_next_char(b, '=', 0);
    assert(next_char(a, '=', 0) >= a.len());
    assert(next_char(b, '=', 0) >= b.len());
}

/// A mount that is an object is what its fields say, a bind where it names no kind.
pub proof fn law_mount_object(m: Mount)
    ensures
        m matches Mount::Obj(o) ==> (fields_of(m) matches Ok(f) && f.source == o.source@ && f.target == o.target@
            && f.read_only == o.readonly && (o.kind matches Some(k) ==> f.kind == k@) && (o.kind is None ==> f.kind
            == "bind"@)),
        m matches Mount::Str(s) ==> (fields_of(m) matches Ok(f) ==> f.source.len() > 0 && f.target.len() > 0),
{
}

proof fn lemma_last_char(s: Seq<char>, c: char, to: int, at: int)
    requires
        0 <= at < to <= s.len(),
        s[at] == c,
        forall|i: int| at < i < to ==> s[i] != c,
    ensures
        last_char(s, c, to) == at,
    decreases to,
{
    if to - 1 > at {
        lemma_last_char(s, c, to - 1, at);
    }
}

proof fn lemma_no_char(s: Seq<char>, c: char, to: int)
    requires
        0 <= to <= s.len(),
        forall|i: int| 0 <= i < to ==> s[i] != c,
    ensures
        last_char(s, c, to) == -1,
    decreases to,
{
    if to > 0 {
        lemma_no_char(s, c, to - 1);
    }
}

/// A port is a number that a port can be, or that number behind a service and a colon.
pub proof fn law_ports(p: Port, n: u16, service: Seq<char>)
    ensures
        p == Port::Number(n as i64) ==> port_of(p) == Ok::<(Option<Seq<char>>, u16), Seq<char>>((None, n)),
        p matches Port::Number(k) ==> (port_of(p) is Ok <==> 0 <= k <= 65535),
        p matches Port::Named(s) ==> {
            &&& s@ == decimal(n as nat) ==> port_of(p) == Ok::<(Option<Seq<char>>, u16), Seq<char>>((None, n))
            &&& s@ == service + ":"@ + decimal(n as nat) ==> port_of(p) == Ok::<(Option<Seq<char>>, u16), Seq<char>>(
                (Some(service), n),
            )
        },
{
    reveal_strlit(":");
    assert(":"@ =~= seq![':']);
    let d = decimal(n as nat);
    law_decimal_reads_back(n as nat);
    assert forall|i: int| 0 <= i < d.len() implies d[i] != ':' && d[i] != '+' by {
        assert(crate::text::is_digit(d[i]));
    }
    lemma_no_char(d, ':', d.len() as int);
    assert(cut_last(d, ':') is None);
    let t = service + ":"@ + d;
    let at = service.len() as int;
    assert(t[at] == ':');
    assert forall|i: int| at < i < t.len() implies t[i] != ':' by {
        assert(t[i] == d[i - at - 1]);
    }
    lemma_last_char(t, ':', t.len() as int, at);
    assert(t.take(at) =~= service);
    assert(t.skip(at + 1) =~= d);
    assert(cut_last(t, ':') == Some((service, d)));
}

/// The config that is read is the one that is named, where it is there, and else the workspace's
/// own by the first of its names that is.
pub proof fn law_config_is_found(workspace: Seq<u8>, explicit: Option<Seq<u8>>, files: Seq<Seq<u8>>)
    ensures
        ({
            let r = config_found(workspace, explicit, files);
            let a = joined_path(workspace, encode_utf8(".devcontainer/devcontainer.json"@));
            let b = joined_path(workspace, encode_utf8(".devcontainer.json"@));
            &&& r matches Ok(p) ==> files.contains(p)
            &&& explicit matches Some(p) ==> (r is Ok <==> files.contains(p)) && (r matches Ok(q) ==> q == p)
            &&& explicit is None && files.contains(a) ==> r == Ok::<Seq<u8>, Seq<char>>(a)
            &&& explicit is None && !files.contains(a) && files.contains(b) ==> r == Ok::<Seq<u8>, Seq<char>>(b)
        }),
{
}

proof fn lemma_lifecycles_sorted(l: Lifecycle, n: int)
    ensures
        sorted(lifecycles_upto(l, n)),
    decreases n,
{
    if let Lifecycle::Parallel(m) = l {
        if 0 < n <= m@.len() {
            lemma_lifecycles_sorted(l, n - 1);
            lemma_with_entry(lifecycles_upto(l, n - 1), m@[n - 1].0@, lifecycle_tree(m@[n - 1].1));
        }
    }
}

proof fn lemma_member(l: Lifecycle, m: Vec<(String, Lifecycle)>, n: int, i: int)
    requires
        l == Lifecycle::Parallel(m),
        0 <= i < n <= m@.len(),
        forall|a: int, b: int| 0 <= a < b < m@.len() ==> (#[trigger] m@[a]).0@ != (#[trigger] m@[b]).0@,
    ensures
        entry(lifecycles_upto(l, n), m@[i].0@) == Some(lifecycle_tree(m@[i].1)),
    decreases n,
{
    lemma_lifecycles_sorted(l, n - 1);
    lemma_with_entry(lifecycles_upto(l, n - 1), m@[n - 1].0@, lifecycle_tree(m@[n - 1].1));
    if i < n - 1 {
        lemma_member(l, m, n - 1, i);
        assert(m@[i].0@ != m@[n - 1].0@);
    }
}

/// A lifecycle command keeps its form: a line stays a line, a list of words that list, and named
/// commands each under its name.
pub proof fn law_lifecycle_is_carried(l: Lifecycle, i: int)
    ensures
        l matches Lifecycle::Shell(s) ==> lifecycle_tree(l) == Tree::Text(s@),
        l matches Lifecycle::Argv(a) ==> (lifecycle_tree(l) matches Tree::Array(t) && t.len() == a@.len() && (0 <= i
            < a@.len() ==> t[i] == Tree::Text(a@[i]@))),
        l matches Lifecycle::Parallel(m) ==> (0 <= i < m@.len() && (forall|a: int, b: int|
            0 <= a < b < m@.len() ==> (#[trigger] m@[a]).0@ != (#[trigger] m@[b]).0@) ==> (lifecycle_tree(l) matches Tree::Table(
            t,
        ) && entry(t, m@[i].0@) == Some(lifecycle_tree(m@[i].1)))),
{
    if let Lifecycle::Parallel(m) = l {
        if 0 <= i < m@.len() && (forall|a: int, b: int|
            0 <= a < b < m@.len() ==> (#[trigger] m@[a]).0@ != (#[trigger] m@[b]).0@) {
            lemma_member(l, m, m@.len() as int, i);
        }
    }
}

} // verus!
