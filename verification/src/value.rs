//! Configuration values and JSON values as trees, and the text that `toml` and `serde_json`
//! read them from and write them as.

use crate::entries::{lemma_with_entry, lemma_with_entry_items, sorted, with_entry};
use crate::text::put;
use vstd::prelude::*;

verus! {

#[verifier::external_type_specification]
#[verifier::external_body]
pub struct ExTomlValue(toml::Value);

#[verifier::external_type_specification]
#[verifier::external_body]
pub struct ExJsonValue(serde_json::Value);

#[verifier::external_type_specification]
#[verifier::external_body]
pub struct ExJsonNumber(serde_json::Number);

/// A configuration value. A float or a date is carried as it came, a date with the minutes of its
/// offset where it has one in minutes.
#[derive(Debug)]
pub enum Toml {
    Text(String),
    Integer(i64),
    Boolean(bool),
    Array(Vec<Toml>),
    Table(Vec<(String, Toml)>),
    Float(toml::Value),
    Date(toml::Value, Option<i16>),
}

/// What a configuration value holds.
pub enum Tree {
    Text(Seq<char>),
    Integer(i64),
    Boolean(bool),
    Array(Seq<Tree>),
    Table(Seq<(Seq<char>, Tree)>),
    Float(toml::Value),
    Date(toml::Value, Option<i16>),
}

/// What a value holds.
pub open spec fn tree(v: Toml) -> Tree
    decreases v,
{
    match v {
        Toml::Text(s) => Tree::Text(s@),
        Toml::Integer(n) => Tree::Integer(n),
        Toml::Boolean(b) => Tree::Boolean(b),
        Toml::Array(a) => Tree::Array(
            Seq::new(
                a@.len(),
                |i: int|
                    if 0 <= i < a@.len() {
                        tree(a@[i])
                    } else {
                        arbitrary()
                    },
            ),
        ),
        Toml::Table(t) => Tree::Table(
            Seq::new(
                t@.len(),
                |i: int|
                    if 0 <= i < t@.len() {
                        (t@[i].0@, tree(t@[i].1))
                    } else {
                        arbitrary()
                    },
            ),
        ),
        Toml::Float(o) => Tree::Float(o),
        Toml::Date(o, m) => Tree::Date(o, m),
    }
}

impl DeepView for Toml {
    type V = Tree;

    open spec fn deep_view(&self) -> Tree {
        tree(*self)
    }
}

/// An array holds what its items hold.
pub broadcast proof fn lemma_array(v: Toml)
    ensures
        #![trigger tree(v)]
        #![trigger v.deep_view()]
        v is Array ==> v.deep_view() == Tree::Array(v->Array_0.deep_view()),
{
    if v is Array {
        assert(tree(v)->Array_0 =~= v->Array_0.deep_view());
    }
}

/// A table holds what its entries hold.
pub broadcast proof fn lemma_table(v: Toml)
    ensures
        #![trigger tree(v)]
        #![trigger v.deep_view()]
        v is Table ==> v.deep_view() == Tree::Table(v->Table_0.deep_view()),
{
    if v is Table {
        assert(tree(v)->Table_0 =~= v->Table_0.deep_view());
    }
}

pub broadcast group group_value {
    lemma_array,
    lemma_table,
}

/// Every table in the value is in key order, and what is carried is a float or a date.
pub open spec fn ordered(v: Tree) -> bool
    decreases v,
{
    match v {
        Tree::Array(a) => forall|i: int| 0 <= i < a.len() ==> ordered(#[trigger] a[i]),
        Tree::Table(t) => {
            &&& sorted(t)
            &&& forall|i: int| 0 <= i < t.len() ==> ordered((#[trigger] t[i]).1)
        },
        Tree::Float(o) => toml_holds(o) == v,
        Tree::Date(o, _) => toml_holds(o) == v,
        _ => true,
    }
}

/// Every table among the entries, and they themselves, are in key order.
pub open spec fn ordered_entries(t: Seq<(Seq<char>, Tree)>) -> bool {
    &&& sorted(t)
    &&& forall|i: int| 0 <= i < t.len() ==> ordered((#[trigger] t[i]).1)
}

/// A table is in order where its entries are.
pub proof fn lemma_table_is_ordered(t: Seq<(Seq<char>, Tree)>)
    ensures
        ordered(Tree::Table(t)) == ordered_entries(t),
{
    let w = Tree::Table(t);
    assert(w->Table_0 == t);
    if ordered_entries(t) {
        assert(ordered(w));
    }
    if ordered(w) {
        assert forall|i: int| 0 <= i < t.len() implies ordered((#[trigger] t[i]).1) by {
            assert(w->Table_0[i] == t[i]);
        }
    }
}

/// One level of a `toml::Value`, its parts still as `toml` has them.
pub enum TomlPart {
    Text(String),
    Integer(i64),
    Boolean(bool),
    Array(Vec<toml::Value>),
    Table(Vec<(String, toml::Value)>),
    Float(toml::Value),
    Date(toml::Value, Option<i16>),
}

/// What a `toml::Value` holds: its variant, with its contents, the entries of a table in the
/// order in which the table is walked, the minutes of a date's offset.
pub uninterp spec fn toml_holds(v: toml::Value) -> Tree;

/// What one level and the values under it hold.
pub open spec fn toml_part(p: TomlPart) -> Tree {
    match p {
        TomlPart::Text(s) => Tree::Text(s@),
        TomlPart::Integer(n) => Tree::Integer(n),
        TomlPart::Boolean(b) => Tree::Boolean(b),
        TomlPart::Array(a) => Tree::Array(Seq::new(a@.len(), |i: int| toml_holds(a@[i]))),
        TomlPart::Table(t) => Tree::Table(Seq::new(t@.len(), |i: int| (t@[i].0@, toml_holds(t@[i].1)))),
        TomlPart::Float(o) => Tree::Float(o),
        TomlPart::Date(o, m) => Tree::Date(o, m),
    }
}

/// The variants of `toml::Value` told apart. A table is walked in key order, each key once:
/// `toml` backs it with a `BTreeMap`.
#[verifier::external_body]
fn toml_open(v: toml::Value) -> (r: TomlPart)
    ensures
        toml_part(r) == toml_holds(v),
        toml_part(r) matches Tree::Table(t) ==> sorted(t),
        r matches TomlPart::Float(o) ==> o == v,
        r matches TomlPart::Date(o, _) ==> o == v,
{
    match v {
        toml::Value::String(s) => TomlPart::Text(s),
        toml::Value::Integer(n) => TomlPart::Integer(n),
        toml::Value::Boolean(b) => TomlPart::Boolean(b),
        toml::Value::Array(a) => TomlPart::Array(a),
        toml::Value::Table(t) => TomlPart::Table(t.into_iter().collect()),
        toml::Value::Float(_) => TomlPart::Float(v),
        toml::Value::Datetime(d) => match d.offset {
            Some(toml::value::Offset::Custom { minutes }) => TomlPart::Date(v, Some(minutes)),
            Some(toml::value::Offset::Z) | None => TomlPart::Date(v, None),
        },
    }
}

/// The variants of `toml::Value` made, a table from entries in key order.
#[verifier::external_body]
fn toml_close(p: TomlPart) -> (r: toml::Value)
    requires
        toml_part(p) matches Tree::Table(t) ==> sorted(t),
        p matches TomlPart::Float(o) ==> toml_holds(o) == Tree::Float(o),
        p matches TomlPart::Date(o, m) ==> toml_holds(o) == Tree::Date(o, m),
    ensures
        toml_holds(r) == toml_part(p),
{
    match p {
        TomlPart::Text(s) => toml::Value::String(s),
        TomlPart::Integer(n) => toml::Value::Integer(n),
        TomlPart::Boolean(b) => toml::Value::Boolean(b),
        TomlPart::Array(a) => toml::Value::Array(a),
        TomlPart::Table(t) => toml::Value::Table(t.into_iter().collect()),
        TomlPart::Float(o) => o,
        TomlPart::Date(o, _) => o,
    }
}

/// The value as a tree of the library's own.
pub fn from_toml(v: toml::Value) -> (r: Toml)
    ensures
        r.deep_view() == toml_holds(v),
        ordered(r.deep_view()),
    decreases toml_holds(v),
{
    broadcast use group_value;

    match toml_open(v) {
        TomlPart::Text(s) => Toml::Text(s),
        TomlPart::Integer(n) => Toml::Integer(n),
        TomlPart::Boolean(b) => Toml::Boolean(b),
        TomlPart::Array(a) => {
            let ghost all = a@;
            let ghost t = toml_holds(v)->Array_0;
            let mut rest = a;
            let mut out: Vec<Toml> = Vec::new();
            while rest.len() > 0
                invariant
                    toml_holds(v) == Tree::Array(t),
                    t == Seq::new(all.len(), |i: int| toml_holds(all[i])),
                    rest@.len() <= all.len(),
                    rest@ == all.skip(all.len() - rest@.len()),
                    out@.len() == all.len() - rest@.len(),
                    out.deep_view() == t.take(out@.len() as int),
                    forall|i: int| 0 <= i < out@.len() ==> ordered(#[trigger] out.deep_view()[i]),
                decreases rest@.len(),
            {
                let ghost n = out@.len() as int;
                assert(rest@[0] == all[n]);
                assert(t[n] == toml_holds(all[n]));
                assert(decreases_to!(t => t[n]));
                assert(decreases_to!(toml_holds(v) => toml_holds(v)->Array_0));
                let x = from_toml(rest.remove(0));
                put(&mut out, x);
                assert(out.deep_view() =~= t.take(n + 1));
                assert(rest@ =~= all.skip(all.len() - rest@.len()));
            }
            assert(out.deep_view() =~= t);
            Toml::Array(out)
        },
        TomlPart::Table(a) => {
            let ghost all = a@;
            let ghost t = toml_holds(v)->Table_0;
            let mut rest = a;
            let mut out: Vec<(String, Toml)> = Vec::new();
            while rest.len() > 0
                invariant
                    toml_holds(v) == Tree::Table(t),
                    t == Seq::new(all.len(), |i: int| (all[i].0@, toml_holds(all[i].1))),
                    rest@.len() <= all.len(),
                    rest@ == all.skip(all.len() - rest@.len()),
                    out@.len() == all.len() - rest@.len(),
                    out.deep_view() == t.take(out@.len() as int),
                    forall|i: int| 0 <= i < out@.len() ==> ordered((#[trigger] out.deep_view()[i]).1),
                decreases rest@.len(),
            {
                let ghost n = out@.len() as int;
                assert(rest@[0] == all[n]);
                assert(t[n] == (all[n].0@, toml_holds(all[n].1)));
                assert(decreases_to!(t => t[n]));
                assert(decreases_to!(t[n] => t[n].1));
                assert(decreases_to!(toml_holds(v) => toml_holds(v)->Table_0));
                let (k, y) = rest.remove(0);
                let x = from_toml(y);
                put(&mut out, (k, x));
                assert(out.deep_view() =~= t.take(n + 1));
                assert(rest@ =~= all.skip(all.len() - rest@.len()));
            }
            assert(out.deep_view() =~= t);
            Toml::Table(out)
        },
        TomlPart::Float(o) => Toml::Float(o),
        TomlPart::Date(o, m) => Toml::Date(o, m),
    }
}

/// A copied `toml::Value` is the value.
pub assume_specification[ <toml::Value as Clone>::clone ](v: &toml::Value) -> (r: toml::Value)
    ensures
        r == *v,
;

/// A copied `serde_json::Number` is the number.
pub assume_specification[ <serde_json::Number as Clone>::clone ](n: &serde_json::Number) -> (r: serde_json::Number)
    ensures
        r == *n,
;

/// A copy of the value.
pub fn copy_toml(v: &Toml) -> (r: Toml)
    ensures
        r.deep_view() == v.deep_view(),
    decreases v.deep_view(),
{
    broadcast use group_value;

    match v {
        Toml::Text(s) => Toml::Text(s.clone()),
        Toml::Integer(n) => Toml::Integer(*n),
        Toml::Boolean(b) => Toml::Boolean(*b),
        Toml::Array(a) => {
            let ghost s = a.deep_view();
            let mut out: Vec<Toml> = Vec::new();
            let mut i: usize = 0;
            while i < a.len()
                invariant
                    i <= a@.len(),
                    v.deep_view() == Tree::Array(s),
                    s == a.deep_view(),
                    out.deep_view() == a.deep_view().take(i as int),
                decreases a@.len() - i,
            {
                assert(s[i as int] == tree(a@[i as int]));
                assert(decreases_to!(s => s[i as int]));
                assert(decreases_to!(v.deep_view() => v.deep_view()->Array_0));
                put(&mut out, copy_toml(&a[i]));
                assert(out.deep_view() =~= a.deep_view().take(i + 1));
                i = i + 1;
            }
            assert(out.deep_view() =~= a.deep_view());
            Toml::Array(out)
        },
        Toml::Table(t) => {
            let ghost s = t.deep_view();
            let mut out: Vec<(String, Toml)> = Vec::new();
            let mut i: usize = 0;
            while i < t.len()
                invariant
                    i <= t@.len(),
                    v.deep_view() == Tree::Table(s),
                    s == t.deep_view(),
                    out.deep_view() == t.deep_view().take(i as int),
                decreases t@.len() - i,
            {
                assert(s[i as int] == (t@[i as int].0@, tree(t@[i as int].1)));
                assert(decreases_to!(s => s[i as int]));
                assert(decreases_to!(s[i as int] => s[i as int].1));
                assert(decreases_to!(v.deep_view() => v.deep_view()->Table_0));
                put(&mut out, (t[i].0.clone(), copy_toml(&t[i].1)));
                assert(out.deep_view() =~= t.deep_view().take(i + 1));
                i = i + 1;
            }
            assert(out.deep_view() =~= t.deep_view());
            Toml::Table(out)
        },
        Toml::Float(o) => Toml::Float(o.clone()),
        Toml::Date(o, m) => Toml::Date(o.clone(), *m),
    }
}

/// A copy of the entries.
pub fn copy_table(t: &Vec<(String, Toml)>) -> (r: Vec<(String, Toml)>)
    ensures
        r.deep_view() == t.deep_view(),
{
    let mut out: Vec<(String, Toml)> = Vec::new();
    let mut i: usize = 0;
    while i < t.len()
        invariant
            i <= t@.len(),
            out.deep_view() == t.deep_view().take(i as int),
        decreases t@.len() - i,
    {
        put(&mut out, (t[i].0.clone(), copy_toml(&t[i].1)));
        assert(out.deep_view() =~= t.deep_view().take(i + 1));
        i = i + 1;
    }
    assert(out.deep_view() =~= t.deep_view());
    out
}

spec fn toml_all(a: Seq<toml::Value>) -> Seq<Tree> {
    Seq::new(a.len(), |i: int| toml_holds(a[i]))
}

spec fn toml_entries(a: Seq<(String, toml::Value)>) -> Seq<(Seq<char>, Tree)> {
    Seq::new(a.len(), |i: int| (a[i].0@, toml_holds(a[i].1)))
}

/// What stands in an array in order is in order.
proof fn lemma_item(a: Seq<Tree>, i: int)
    requires
        ordered(Tree::Array(a)),
        0 <= i < a.len(),
    ensures
        ordered(a[i]),
{
    reveal_with_fuel(ordered, 2);
    let x = a[i];
    assert(Tree::Array(a)->Array_0[i] == x);
}

/// The value as `toml` has it.
pub fn to_toml(v: &Toml) -> (r: toml::Value)
    requires
        ordered(v.deep_view()),
    ensures
        toml_holds(r) == v.deep_view(),
    decreases v.deep_view(),
{
    broadcast use group_value;

    match v {
        Toml::Text(s) => toml_close(TomlPart::Text(s.clone())),
        Toml::Integer(n) => toml_close(TomlPart::Integer(*n)),
        Toml::Boolean(b) => toml_close(TomlPart::Boolean(*b)),
        Toml::Array(a) => {
            let ghost s = a.deep_view();
            assert(ordered(Tree::Array(s)));
            assert forall|j: int| 0 <= j < s.len() implies ordered(#[trigger] s[j]) by {
                lemma_item(s, j);
            }
            let mut out: Vec<toml::Value> = Vec::new();
            let mut i: usize = 0;
            while i < a.len()
                invariant
                    i <= a@.len(),
                    v.deep_view() == Tree::Array(s),
                    s == a.deep_view(),
                    forall|j: int| 0 <= j < s.len() ==> ordered(#[trigger] s[j]),
                    toml_all(out@) == a.deep_view().take(i as int),
                decreases a@.len() - i,
            {
                assert(s[i as int] == tree(a@[i as int]));
                assert(decreases_to!(s => s[i as int]));
                assert(decreases_to!(v.deep_view() => v.deep_view()->Array_0));
                let x = to_toml(&a[i]);
                let ghost had = out@;
                out.push(x);
                assert(toml_all(out@) =~= toml_all(had).push(toml_holds(x)));
                assert(toml_all(out@) =~= a.deep_view().take(i + 1));
                i = i + 1;
            }
            assert(toml_all(out@) =~= a.deep_view());
            toml_close(TomlPart::Array(out))
        },
        Toml::Table(t) => {
            let ghost s = t.deep_view();
            let mut out: Vec<(String, toml::Value)> = Vec::new();
            let mut i: usize = 0;
            while i < t.len()
                invariant
                    i <= t@.len(),
                    v.deep_view() == Tree::Table(s),
                    s == t.deep_view(),
                    forall|j: int| 0 <= j < s.len() ==> ordered((#[trigger] s[j]).1),
                    toml_entries(out@) == t.deep_view().take(i as int),
                decreases t@.len() - i,
            {
                assert(s[i as int] == (t@[i as int].0@, tree(t@[i as int].1)));
                assert(decreases_to!(s => s[i as int]));
                assert(decreases_to!(s[i as int] => s[i as int].1));
                assert(decreases_to!(v.deep_view() => v.deep_view()->Table_0));
                let x = to_toml(&t[i].1);
                let ghost had = out@;
                out.push((t[i].0.clone(), x));
                assert(toml_entries(out@) =~= toml_entries(had).push((t@[i as int].0@, toml_holds(x))));
                assert(toml_entries(out@) =~= t.deep_view().take(i + 1));
                i = i + 1;
            }
            assert(toml_entries(out@) =~= t.deep_view());
            toml_close(TomlPart::Table(out))
        },
        Toml::Float(o) => toml_close(TomlPart::Float(o.clone())),
        Toml::Date(o, m) => toml_close(TomlPart::Date(o.clone(), *m)),
    }
}

/// There is no date in the value.
pub open spec fn dateless(v: Tree) -> bool
    decreases v,
{
    match v {
        Tree::Array(a) => forall|i: int| 0 <= i < a.len() ==> dateless(#[trigger] a[i]),
        Tree::Table(t) => forall|i: int| 0 <= i < t.len() ==> dateless((#[trigger] t[i]).1),
        Tree::Date(..) => false,
        _ => true,
    }
}

/// No date in the value has the lowest offset, whose sign cannot be turned.
pub open spec fn spellable(v: Tree) -> bool
    decreases v,
{
    match v {
        Tree::Array(a) => forall|i: int| 0 <= i < a.len() ==> spellable(#[trigger] a[i]),
        Tree::Table(t) => forall|i: int| 0 <= i < t.len() ==> spellable((#[trigger] t[i]).1),
        Tree::Date(_, m) => m != Some(i16::MIN),
        _ => true,
    }
}

/// A value without a date can be spelled.
pub proof fn lemma_dateless(v: Tree)
    requires
        dateless(v),
    ensures
        spellable(v),
    decreases v,
{
    match v {
        Tree::Array(a) => {
            assert forall|i: int| 0 <= i < a.len() implies spellable(#[trigger] a[i]) by {
                assert(decreases_to!(a => a[i]));
                assert(decreases_to!(v => v->Array_0));
                assert(dateless(v->Array_0[i]));
                lemma_dateless(a[i]);
            }
        },
        Tree::Table(t) => {
            assert forall|i: int| 0 <= i < t.len() implies spellable((#[trigger] t[i]).1) by {
                assert(decreases_to!(t => t[i]));
                assert(decreases_to!(t[i] => t[i].1));
                assert(decreases_to!(v => v->Table_0));
                assert(dateless(v->Table_0[i].1));
                lemma_dateless(t[i].1);
            }
        },
        _ => {},
    }
}

/// Whether no date in the value has the lowest offset.
fn is_spellable(v: &Toml) -> (r: bool)
    ensures
        r == spellable(v.deep_view()),
    decreases v.deep_view(),
{
    broadcast use group_value;

    match v {
        Toml::Array(a) => {
            let ghost s = a.deep_view();
            let mut i: usize = 0;
            while i < a.len()
                invariant
                    i <= a@.len(),
                    v.deep_view() == Tree::Array(s),
                    s == a.deep_view(),
                    forall|j: int| 0 <= j < i ==> spellable(#[trigger] s[j]),
                decreases a@.len() - i,
            {
                assert(s[i as int] == tree(a@[i as int]));
                assert(decreases_to!(s => s[i as int]));
                assert(decreases_to!(v.deep_view() => v.deep_view()->Array_0));
                if !is_spellable(&a[i]) {
                    assert(!spellable(v.deep_view()->Array_0[i as int]));
                    return false;
                }
                i = i + 1;
            }
            true
        },
        Toml::Table(t) => {
            let ghost s = t.deep_view();
            let mut i: usize = 0;
            while i < t.len()
                invariant
                    i <= t@.len(),
                    v.deep_view() == Tree::Table(s),
                    s == t.deep_view(),
                    forall|j: int| 0 <= j < i ==> spellable((#[trigger] s[j]).1),
                decreases t@.len() - i,
            {
                assert(s[i as int] == (t@[i as int].0@, tree(t@[i as int].1)));
                assert(decreases_to!(s => s[i as int]));
                assert(decreases_to!(s[i as int] => s[i as int].1));
                assert(decreases_to!(v.deep_view() => v.deep_view()->Table_0));
                if !is_spellable(&t[i].1) {
                    assert(!spellable(v.deep_view()->Table_0[i as int].1));
                    return false;
                }
                i = i + 1;
            }
            true
        },
        Toml::Date(_, m) => match m {
            Some(n) => *n != i16::MIN,
            None => true,
        },
        _ => true,
    }
}

/// A value that can be written: every table in it is in key order, and there is no date in it.
pub open spec fn fit(v: Tree) -> bool
    decreases v,
{
    match v {
        Tree::Array(a) => forall|i: int| 0 <= i < a.len() ==> fit(#[trigger] a[i]),
        Tree::Table(t) => {
            &&& sorted(t)
            &&& forall|i: int| 0 <= i < t.len() ==> fit((#[trigger] t[i]).1)
        },
        Tree::Float(o) => toml_holds(o) == v,
        Tree::Date(..) => false,
        _ => true,
    }
}

/// The entries are in key order, and each of their values can be written.
pub open spec fn fit_entries(t: Seq<(Seq<char>, Tree)>) -> bool {
    &&& sorted(t)
    &&& forall|i: int| 0 <= i < t.len() ==> fit((#[trigger] t[i]).1)
}

/// A table can be written where its entries can.
pub proof fn lemma_table_is_fit(t: Seq<(Seq<char>, Tree)>)
    ensures
        fit(Tree::Table(t)) == fit_entries(t),
{
    let w = Tree::Table(t);
    assert(w->Table_0 == t);
    if fit_entries(t) {
        assert(fit(w));
    }
    if fit(w) {
        assert forall|i: int| 0 <= i < t.len() implies fit((#[trigger] t[i]).1) by {
            assert(w->Table_0[i] == t[i]);
        }
    }
}

/// Putting a value that can be written into entries that can keeps them so.
pub proof fn lemma_put_fit(b: Seq<(Seq<char>, Tree)>, k: Seq<char>, v: Tree)
    requires
        fit_entries(b),
        fit(v),
    ensures
        fit_entries(with_entry(b, k, v)),
{
    lemma_with_entry(b, k, v);
    let r = with_entry(b, k, v);
    assert forall|i: int| 0 <= i < r.len() implies fit((#[trigger] r[i]).1) by {
        lemma_with_entry_items(b, k, v, i);
        if r[i] != (k, v) {
            let j = choose|j: int| 0 <= j < b.len() && b[j] == r[i];
            assert(fit(b[j].1));
        }
    }
}

/// What can be written is in order, with no date in it.
pub proof fn lemma_fit(v: Tree)
    requires
        fit(v),
    ensures
        ordered(v),
        dateless(v),
    decreases v,
{
    match v {
        Tree::Array(a) => {
            assert forall|i: int| 0 <= i < a.len() implies ordered(#[trigger] a[i]) && dateless(a[i]) by {
                assert(decreases_to!(a => a[i]));
                assert(decreases_to!(v => v->Array_0));
                assert(fit(v->Array_0[i]));
                lemma_fit(a[i]);
            }
        },
        Tree::Table(t) => {
            assert forall|i: int| 0 <= i < t.len() implies ordered((#[trigger] t[i]).1) && dateless(t[i].1) by {
                assert(decreases_to!(t => t[i]));
                assert(decreases_to!(t[i] => t[i].1));
                assert(decreases_to!(v => v->Table_0));
                assert(fit(v->Table_0[i].1));
                lemma_fit(t[i].1);
            }
        },
        _ => {},
    }
}

/// A text of printable ASCII with no quote and no backslash in it.
pub open spec fn is_plain(s: Seq<char>) -> bool {
    forall|i: int| 0 <= i < s.len() ==> ' ' <= #[trigger] s[i] <= '~' && s[i] != '"' && s[i] != '\\'
}

/// How a value is written in a configuration file, on one line; none for a date that is none.
pub uninterp spec fn toml_shown(v: Tree) -> Option<Seq<char>>;

/// `toml::ser::ValueSerializer` on a `toml::Value`, which is a function of what the value holds.
/// Only a date can fail to be written, one whose fields make no date; the lowest offset is not
/// handed over, since its sign is turned on the way. A text of printable ASCII with nothing in it
/// to escape is written between double quotes.
#[verifier::external_body]
fn toml_written(v: &toml::Value) -> (r: Option<String>)
    requires
        spellable(toml_holds(*v)),
    ensures
        r.deep_view() == toml_shown(toml_holds(*v)),
        dateless(toml_holds(*v)) ==> r is Some,
        toml_holds(*v) matches Tree::Text(s) ==> is_plain(s) ==> r.deep_view() == Some("\""@ + s + "\""@),
{
    let mut out = String::new();
    match serde::Serialize::serialize(v, toml::ser::ValueSerializer::new(&mut out)) {
        Ok(()) => Some(out),
        Err(_) => None,
    }
}

/// The value as it is written in a configuration file, where it can be.
pub open spec fn written(v: Tree) -> Option<Seq<char>> {
    if spellable(v) {
        toml_shown(v)
    } else {
        None
    }
}

/// The value as it is written in a configuration file; none where it holds a date that is none.
pub fn toml_text(v: &Toml) -> (r: Option<String>)
    requires
        ordered(v.deep_view()),
    ensures
        r.deep_view() == written(v.deep_view()),
        dateless(v.deep_view()) ==> r is Some && r.deep_view() == toml_shown(v.deep_view()),
        v.deep_view() matches Tree::Text(s) ==> is_plain(s) ==> r.deep_view() == Some("\""@ + s + "\""@),
{
    if !is_spellable(v) {
        proof {
            if dateless(v.deep_view()) {
                lemma_dateless(v.deep_view());
            }
        }
        return None;
    }
    toml_written(&to_toml(v))
}

/// What a configuration file's text holds, or why it holds nothing.
pub uninterp spec fn toml_read(text: Seq<char>) -> Result<Seq<(Seq<char>, Tree)>, Seq<char>>;

/// `toml::from_str` into a table: what it gives, the error's text where it fails, is a
/// function of the text. A table is walked in key order.
#[verifier::external_body]
fn toml_from_str(text: &str) -> (r: Result<Vec<(String, toml::Value)>, String>)
    ensures
        match r {
            Ok(t) => toml_read(text@) == Ok::<Seq<(Seq<char>, Tree)>, Seq<char>>(
                Seq::new(t@.len(), |i: int| (t@[i].0@, toml_holds(t@[i].1))),
            ) && sorted(Seq::new(t@.len(), |i: int| (t@[i].0@, toml_holds(t@[i].1)))),
            Err(e) => toml_read(text@) == Err::<Seq<(Seq<char>, Tree)>, Seq<char>>(e@),
        },
{
    match toml::from_str::<toml::Table>(text) {
        Ok(t) => Ok(t.into_iter().collect()),
        Err(e) => Err(format!("{e}")),
    }
}

/// The entries of a configuration file.
pub fn parse_toml(text: &str) -> (r: Result<Vec<(String, Toml)>, String>)
    ensures
        match r {
            Ok(t) => toml_read(text@) == Ok::<Seq<(Seq<char>, Tree)>, Seq<char>>(t.deep_view()) && ordered_entries(
                t.deep_view(),
            ),
            Err(e) => toml_read(text@) == Err::<Seq<(Seq<char>, Tree)>, Seq<char>>(e@),
        },
{
    let mut rest = match toml_from_str(text) {
        Ok(t) => t,
        Err(e) => return Err(e),
    };
    let ghost all = rest@;
    let ghost t = toml_entries(all);
    let mut out: Vec<(String, Toml)> = Vec::new();
    while rest.len() > 0
        invariant
            t == toml_entries(all),
            rest@.len() <= all.len(),
            rest@ == all.skip(all.len() - rest@.len()),
            out@.len() == all.len() - rest@.len(),
            out.deep_view() == t.take(out@.len() as int),
            forall|i: int| 0 <= i < out@.len() ==> ordered((#[trigger] out.deep_view()[i]).1),
        decreases rest@.len(),
    {
        let ghost n = out@.len() as int;
        assert(rest@[0] == all[n]);
        let (k, y) = rest.remove(0);
        let x = from_toml(y);
        put(&mut out, (k, x));
        assert(out.deep_view() =~= t.take(n + 1));
        assert(rest@ =~= all.skip(all.len() - rest@.len()));
    }
    assert(out.deep_view() =~= t);
    Ok(out)
}

/// A JSON value.
#[derive(Debug)]
pub enum Json {
    Null,
    Bool(bool),
    Number(serde_json::Number),
    Text(String),
    Array(Vec<Json>),
    Object(Vec<(String, Json)>),
}

/// What a JSON value holds.
pub enum JsonTree {
    Null,
    Bool(bool),
    Number(serde_json::Number),
    Text(Seq<char>),
    Array(Seq<JsonTree>),
    Object(Seq<(Seq<char>, JsonTree)>),
}

pub open spec fn json_tree(v: Json) -> JsonTree
    decreases v,
{
    match v {
        Json::Null => JsonTree::Null,
        Json::Bool(b) => JsonTree::Bool(b),
        Json::Number(n) => JsonTree::Number(n),
        Json::Text(s) => JsonTree::Text(s@),
        Json::Array(a) => JsonTree::Array(
            Seq::new(
                a@.len(),
                |i: int|
                    if 0 <= i < a@.len() {
                        json_tree(a@[i])
                    } else {
                        arbitrary()
                    },
            ),
        ),
        Json::Object(t) => JsonTree::Object(
            Seq::new(
                t@.len(),
                |i: int|
                    if 0 <= i < t@.len() {
                        (t@[i].0@, json_tree(t@[i].1))
                    } else {
                        arbitrary()
                    },
            ),
        ),
    }
}

impl DeepView for Json {
    type V = JsonTree;

    open spec fn deep_view(&self) -> JsonTree {
        json_tree(*self)
    }
}

/// An array holds what its items hold.
pub broadcast proof fn lemma_json_array(v: Json)
    ensures
        #![trigger json_tree(v)]
        #![trigger v.deep_view()]
        v is Array ==> v.deep_view() == JsonTree::Array(v->Array_0.deep_view()),
{
    if v is Array {
        assert(json_tree(v)->Array_0 =~= v->Array_0.deep_view());
    }
}

/// An object holds what its entries hold.
pub broadcast proof fn lemma_json_object(v: Json)
    ensures
        #![trigger json_tree(v)]
        #![trigger v.deep_view()]
        v is Object ==> v.deep_view() == JsonTree::Object(v->Object_0.deep_view()),
{
    if v is Object {
        assert(json_tree(v)->Object_0 =~= v->Object_0.deep_view());
    }
}

pub broadcast group group_json {
    lemma_json_array,
    lemma_json_object,
}

/// No key stands twice among the entries.
pub open spec fn keys_once(t: Seq<(Seq<char>, JsonTree)>) -> bool {
    forall|i: int, j: int| 0 <= i < j < t.len() ==> (#[trigger] t[i]).0 != (#[trigger] t[j]).0
}

/// Every object in the value has each of its keys once.
pub open spec fn json_sound(v: JsonTree) -> bool
    decreases v,
{
    match v {
        JsonTree::Array(a) => forall|i: int| 0 <= i < a.len() ==> json_sound(#[trigger] a[i]),
        JsonTree::Object(t) => {
            &&& keys_once(t)
            &&& forall|i: int| 0 <= i < t.len() ==> json_sound((#[trigger] t[i]).1)
        },
        _ => true,
    }
}

/// A copy of the value.
pub fn copy_json(v: &Json) -> (r: Json)
    ensures
        r.deep_view() == v.deep_view(),
    decreases v.deep_view(),
{
    broadcast use group_json;

    match v {
        Json::Null => Json::Null,
        Json::Bool(b) => Json::Bool(*b),
        Json::Number(n) => Json::Number(n.clone()),
        Json::Text(s) => Json::Text(s.clone()),
        Json::Array(a) => {
            let ghost s = a.deep_view();
            let mut out: Vec<Json> = Vec::new();
            let mut i: usize = 0;
            while i < a.len()
                invariant
                    i <= a@.len(),
                    v.deep_view() == JsonTree::Array(s),
                    s == a.deep_view(),
                    out.deep_view() == a.deep_view().take(i as int),
                decreases a@.len() - i,
            {
                assert(s[i as int] == json_tree(a@[i as int]));
                assert(decreases_to!(s => s[i as int]));
                assert(decreases_to!(v.deep_view() => v.deep_view()->Array_0));
                put(&mut out, copy_json(&a[i]));
                assert(out.deep_view() =~= a.deep_view().take(i + 1));
                i = i + 1;
            }
            assert(out.deep_view() =~= a.deep_view());
            Json::Array(out)
        },
        Json::Object(t) => {
            let ghost s = t.deep_view();
            let mut out: Vec<(String, Json)> = Vec::new();
            let mut i: usize = 0;
            while i < t.len()
                invariant
                    i <= t@.len(),
                    v.deep_view() == JsonTree::Object(s),
                    s == t.deep_view(),
                    out.deep_view() == t.deep_view().take(i as int),
                decreases t@.len() - i,
            {
                assert(s[i as int] == (t@[i as int].0@, json_tree(t@[i as int].1)));
                assert(decreases_to!(s => s[i as int]));
                assert(decreases_to!(s[i as int] => s[i as int].1));
                assert(decreases_to!(v.deep_view() => v.deep_view()->Object_0));
                put(&mut out, (t[i].0.clone(), copy_json(&t[i].1)));
                assert(out.deep_view() =~= t.deep_view().take(i + 1));
                i = i + 1;
            }
            assert(out.deep_view() =~= t.deep_view());
            Json::Object(out)
        },
    }
}

/// One level of a `serde_json::Value`, its parts still as `serde_json` has them.
pub enum JsonPart {
    Null,
    Bool(bool),
    Number(serde_json::Number),
    Text(String),
    Array(Vec<serde_json::Value>),
    Object(Vec<(String, serde_json::Value)>),
}

/// What a `serde_json::Value` holds: its variant, with its contents, the entries of an object
/// in the order in which the object is walked.
pub uninterp spec fn json_holds(v: serde_json::Value) -> JsonTree;

/// What one level and the values under it hold.
pub open spec fn json_part(p: JsonPart) -> JsonTree {
    match p {
        JsonPart::Null => JsonTree::Null,
        JsonPart::Bool(b) => JsonTree::Bool(b),
        JsonPart::Number(n) => JsonTree::Number(n),
        JsonPart::Text(s) => JsonTree::Text(s@),
        JsonPart::Array(a) => JsonTree::Array(Seq::new(a@.len(), |i: int| json_holds(a@[i]))),
        JsonPart::Object(t) => JsonTree::Object(Seq::new(t@.len(), |i: int| (t@[i].0@, json_holds(t@[i].1)))),
    }
}

/// The variants of `serde_json::Value` told apart. An object is walked in the order of
/// its entries, each key once: `serde_json` backs it with an `IndexMap`.
#[verifier::external_body]
fn json_open(v: serde_json::Value) -> (r: JsonPart)
    ensures
        json_part(r) == json_holds(v),
        json_part(r) matches JsonTree::Object(t) ==> keys_once(t),
{
    match v {
        serde_json::Value::Null => JsonPart::Null,
        serde_json::Value::Bool(b) => JsonPart::Bool(b),
        serde_json::Value::Number(n) => JsonPart::Number(n),
        serde_json::Value::String(s) => JsonPart::Text(s),
        serde_json::Value::Array(a) => JsonPart::Array(a),
        serde_json::Value::Object(o) => JsonPart::Object(o.into_iter().collect()),
    }
}

/// The variants of `serde_json::Value` made, an object from entries that have each key once, in
/// their order.
#[verifier::external_body]
fn json_close(p: JsonPart) -> (r: serde_json::Value)
    requires
        json_part(p) matches JsonTree::Object(t) ==> keys_once(t),
    ensures
        json_holds(r) == json_part(p),
{
    match p {
        JsonPart::Null => serde_json::Value::Null,
        JsonPart::Bool(b) => serde_json::Value::Bool(b),
        JsonPart::Number(n) => serde_json::Value::Number(n),
        JsonPart::Text(s) => serde_json::Value::String(s),
        JsonPart::Array(a) => serde_json::Value::Array(a),
        JsonPart::Object(o) => serde_json::Value::Object(o.into_iter().collect()),
    }
}

spec fn json_all(a: Seq<serde_json::Value>) -> Seq<JsonTree> {
    Seq::new(a.len(), |i: int| json_holds(a[i]))
}

spec fn json_entries(a: Seq<(String, serde_json::Value)>) -> Seq<(Seq<char>, JsonTree)> {
    Seq::new(a.len(), |i: int| (a[i].0@, json_holds(a[i].1)))
}

/// What stands in a sound array is sound.
proof fn lemma_json_item(a: Seq<JsonTree>, i: int)
    requires
        json_sound(JsonTree::Array(a)),
        0 <= i < a.len(),
    ensures
        json_sound(a[i]),
{
    assert(JsonTree::Array(a)->Array_0[i] == a[i]);
}

/// The value as `serde_json` has it.
pub fn to_json_value(v: &Json) -> (r: serde_json::Value)
    requires
        json_sound(v.deep_view()),
    ensures
        json_holds(r) == v.deep_view(),
    decreases v.deep_view(),
{
    broadcast use group_json;

    match v {
        Json::Null => json_close(JsonPart::Null),
        Json::Bool(b) => json_close(JsonPart::Bool(*b)),
        Json::Number(n) => json_close(JsonPart::Number(n.clone())),
        Json::Text(s) => json_close(JsonPart::Text(s.clone())),
        Json::Array(a) => {
            let ghost s = a.deep_view();
            assert(json_sound(JsonTree::Array(s)));
            assert forall|j: int| 0 <= j < s.len() implies json_sound(#[trigger] s[j]) by {
                lemma_json_item(s, j);
            }
            let mut out: Vec<serde_json::Value> = Vec::new();
            let mut i: usize = 0;
            while i < a.len()
                invariant
                    i <= a@.len(),
                    v.deep_view() == JsonTree::Array(s),
                    s == a.deep_view(),
                    forall|j: int| 0 <= j < s.len() ==> json_sound(#[trigger] s[j]),
                    json_all(out@) == a.deep_view().take(i as int),
                decreases a@.len() - i,
            {
                assert(s[i as int] == json_tree(a@[i as int]));
                assert(decreases_to!(s => s[i as int]));
                assert(decreases_to!(v.deep_view() => v.deep_view()->Array_0));
                let x = to_json_value(&a[i]);
                let ghost had = out@;
                out.push(x);
                assert(json_all(out@) =~= json_all(had).push(json_holds(x)));
                assert(json_all(out@) =~= a.deep_view().take(i + 1));
                i = i + 1;
            }
            assert(json_all(out@) =~= a.deep_view());
            json_close(JsonPart::Array(out))
        },
        Json::Object(t) => {
            let ghost s = t.deep_view();
            let mut out: Vec<(String, serde_json::Value)> = Vec::new();
            let mut i: usize = 0;
            while i < t.len()
                invariant
                    i <= t@.len(),
                    v.deep_view() == JsonTree::Object(s),
                    s == t.deep_view(),
                    forall|j: int| 0 <= j < s.len() ==> json_sound((#[trigger] s[j]).1),
                    json_entries(out@) == t.deep_view().take(i as int),
                decreases t@.len() - i,
            {
                assert(s[i as int] == (t@[i as int].0@, json_tree(t@[i as int].1)));
                assert(decreases_to!(s => s[i as int]));
                assert(decreases_to!(s[i as int] => s[i as int].1));
                assert(decreases_to!(v.deep_view() => v.deep_view()->Object_0));
                let x = to_json_value(&t[i].1);
                let ghost had = out@;
                out.push((t[i].0.clone(), x));
                assert(json_entries(out@) =~= json_entries(had).push((t@[i as int].0@, json_holds(x))));
                assert(json_entries(out@) =~= t.deep_view().take(i + 1));
                i = i + 1;
            }
            assert(json_entries(out@) =~= t.deep_view());
            json_close(JsonPart::Object(out))
        },
    }
}

/// The value as a tree of the library's own.
pub fn from_json_value(v: serde_json::Value) -> (r: Json)
    ensures
        r.deep_view() == json_holds(v),
        json_sound(r.deep_view()),
    decreases json_holds(v),
{
    broadcast use group_json;

    match json_open(v) {
        JsonPart::Null => Json::Null,
        JsonPart::Bool(b) => Json::Bool(b),
        JsonPart::Number(n) => Json::Number(n),
        JsonPart::Text(s) => Json::Text(s),
        JsonPart::Array(a) => {
            let ghost all = a@;
            let ghost t = json_holds(v)->Array_0;
            let mut rest = a;
            let mut out: Vec<Json> = Vec::new();
            while rest.len() > 0
                invariant
                    json_holds(v) == JsonTree::Array(t),
                    t == json_all(all),
                    rest@.len() <= all.len(),
                    rest@ == all.skip(all.len() - rest@.len()),
                    out@.len() == all.len() - rest@.len(),
                    out.deep_view() == t.take(out@.len() as int),
                    forall|i: int| 0 <= i < out@.len() ==> json_sound(#[trigger] out.deep_view()[i]),
                decreases rest@.len(),
            {
                let ghost n = out@.len() as int;
                assert(rest@[0] == all[n]);
                assert(decreases_to!(t => t[n]));
                assert(decreases_to!(json_holds(v) => json_holds(v)->Array_0));
                let x = from_json_value(rest.remove(0));
                put(&mut out, x);
                assert(out.deep_view() =~= t.take(n + 1));
                assert(rest@ =~= all.skip(all.len() - rest@.len()));
            }
            assert(out.deep_view() =~= t);
            Json::Array(out)
        },
        JsonPart::Object(a) => {
            let ghost all = a@;
            let ghost t = json_holds(v)->Object_0;
            let mut rest = a;
            let mut out: Vec<(String, Json)> = Vec::new();
            while rest.len() > 0
                invariant
                    json_holds(v) == JsonTree::Object(t),
                    t == json_entries(all),
                    rest@.len() <= all.len(),
                    rest@ == all.skip(all.len() - rest@.len()),
                    out@.len() == all.len() - rest@.len(),
                    out.deep_view() == t.take(out@.len() as int),
                    forall|i: int| 0 <= i < out@.len() ==> json_sound((#[trigger] out.deep_view()[i]).1),
                decreases rest@.len(),
            {
                let ghost n = out@.len() as int;
                assert(rest@[0] == all[n]);
                assert(decreases_to!(t => t[n]));
                assert(decreases_to!(t[n] => t[n].1));
                assert(decreases_to!(json_holds(v) => json_holds(v)->Object_0));
                let (k, y) = rest.remove(0);
                let x = from_json_value(y);
                put(&mut out, (k, x));
                assert(out.deep_view() =~= t.take(n + 1));
                assert(rest@ =~= all.skip(all.len() - rest@.len()));
            }
            assert(out.deep_view() =~= t);
            Json::Object(out)
        },
    }
}

/// How a JSON value is written, without spaces.
pub uninterp spec fn json_shown(v: JsonTree) -> Seq<char>;

/// The `Display` of `serde_json::Value`, which is a function of what the value holds.
#[verifier::external_body]
fn json_display(v: &serde_json::Value) -> (r: String)
    ensures
        r@ == json_shown(json_holds(*v)),
{
    format!("{v}")
}

/// The value as it is written, without spaces.
pub fn json_text(v: &Json) -> (r: String)
    requires
        json_sound(v.deep_view()),
    ensures
        r@ == json_shown(v.deep_view()),
{
    json_display(&to_json_value(v))
}

/// How a JSON value is written over several lines.
pub uninterp spec fn json_pretty_shown(v: JsonTree) -> Seq<char>;

/// The alternate `Display` of `serde_json::Value`, the pretty form, which is a function of
/// what the value holds.
#[verifier::external_body]
fn json_display_pretty(v: &serde_json::Value) -> (r: String)
    ensures
        r@ == json_pretty_shown(json_holds(*v)),
{
    format!("{v:#}")
}

/// The value as it is written over several lines.
pub fn json_pretty(v: &Json) -> (r: String)
    requires
        json_sound(v.deep_view()),
    ensures
        r@ == json_pretty_shown(v.deep_view()),
{
    json_display_pretty(&to_json_value(v))
}

/// What a JSON text holds, or why it holds nothing.
pub uninterp spec fn json_read(text: Seq<char>) -> Result<JsonTree, Seq<char>>;

/// `serde_json::from_str` into a value: what it gives, the error's text where it fails, is a
/// function of the text.
#[verifier::external_body]
fn json_from_str(text: &str) -> (r: Result<serde_json::Value, String>)
    ensures
        match r {
            Ok(v) => json_read(text@) == Ok::<JsonTree, Seq<char>>(json_holds(v)),
            Err(e) => json_read(text@) == Err::<JsonTree, Seq<char>>(e@),
        },
{
    match serde_json::from_str::<serde_json::Value>(text) {
        Ok(v) => Ok(v),
        Err(e) => Err(format!("{e}")),
    }
}

/// The value a JSON text holds.
pub fn parse_json(text: &str) -> (r: Result<Json, String>)
    ensures
        match r {
            Ok(v) => json_read(text@) == Ok::<JsonTree, Seq<char>>(v.deep_view()) && json_sound(v.deep_view()),
            Err(e) => json_read(text@) == Err::<JsonTree, Seq<char>>(e@),
        },
{
    match json_from_str(text) {
        Ok(v) => Ok(from_json_value(v)),
        Err(e) => Err(e),
    }
}

/// The JSON number for an integer.
pub uninterp spec fn json_number(n: u64) -> serde_json::Number;

/// `serde_json::Number::from`, on an unsigned integer: as an integer it is that one, where it fits.
#[verifier::external_body]
pub(crate) fn number_from(n: u64) -> (r: serde_json::Number)
    ensures
        r == json_number(n),
        number_int(r) == if n <= i64::MAX {
            Some(n as i64)
        } else {
            None
        },
{
    serde_json::Number::from(n)
}

/// A JSON number as an integer, where it is one that fits.
pub uninterp spec fn number_int(n: serde_json::Number) -> Option<i64>;

/// `serde_json::Number::as_i64`.
#[verifier::external_body]
pub(crate) fn number_as_int(n: &serde_json::Number) -> (r: Option<i64>)
    ensures
        r == number_int(*n),
{
    n.as_i64()
}

/// A JSON number as a configuration value with a fraction, where it can be one.
pub uninterp spec fn number_fraction(n: serde_json::Number) -> Option<toml::Value>;

/// `serde_json::Number::as_f64`, as the float that `toml` carries.
#[verifier::external_body]
pub(crate) fn number_as_fraction(n: &serde_json::Number) -> (r: Option<toml::Value>)
    ensures
        r == number_fraction(*n),
        r matches Some(v) ==> toml_holds(v) == Tree::Float(v),
{
    n.as_f64().map(toml::Value::Float)
}

/// A configuration table as a JSON value, where it can be one.
pub uninterp spec fn json_of_toml(t: Tree) -> Option<JsonTree>;

/// `serde_json::to_value` of a `toml::Value`, which is a function of what it holds. The lowest offset
/// of a date is not handed over, since its sign is turned on the way.
#[verifier::external_body]
fn toml_to_json(v: &toml::Value) -> (r: Option<serde_json::Value>)
    requires
        spellable(toml_holds(*v)),
    ensures
        match r {
            Some(j) => json_of_toml(toml_holds(*v)) == Some(json_holds(j)),
            None => json_of_toml(toml_holds(*v)) is None,
        },
{
    serde_json::to_value(v).ok()
}

/// A configuration value as a JSON value, where it can be spelled and be one.
pub open spec fn json_made(v: Tree) -> Option<JsonTree> {
    if spellable(v) {
        json_of_toml(v)
    } else {
        None
    }
}

/// The configuration value as a JSON value, where it can be one.
pub fn as_json(v: &Toml) -> (r: Option<Json>)
    requires
        ordered(v.deep_view()),
    ensures
        r.deep_view() == json_made(v.deep_view()),
        r matches Some(j) ==> json_sound(j.deep_view()),
{
    if !is_spellable(v) {
        return None;
    }
    match toml_to_json(&to_toml(v)) {
        Some(j) => Some(from_json_value(j)),
        None => None,
    }
}

/// The value with the entries of every object in key order.
pub open spec fn json_sorted(v: JsonTree) -> JsonTree
    decreases v, 1int, 0int,
{
    match v {
        JsonTree::Array(a) => JsonTree::Array(
            Seq::new(
                a.len(),
                |i: int|
                    if 0 <= i < a.len() {
                        json_sorted(a[i])
                    } else {
                        arbitrary()
                    },
            ),
        ),
        JsonTree::Object(o) => JsonTree::Object(sorted_upto(v, o.len() as int)),
        _ => v,
    }
}

/// The first `n` entries of an object, in key order.
pub open spec fn sorted_upto(v: JsonTree, n: int) -> Seq<(Seq<char>, JsonTree)>
    decreases v, 0int, n,
{
    match v {
        JsonTree::Object(o) => if n <= 0 || n > o.len() {
            Seq::empty()
        } else {
            with_entry(sorted_upto(v, n - 1), o[n - 1].0, json_sorted(o[n - 1].1))
        },
        _ => Seq::empty(),
    }
}

proof fn lemma_sorted_keys_once(t: Seq<(Seq<char>, JsonTree)>)
    requires
        sorted(t),
    ensures
        keys_once(t),
{
    assert forall|i: int, j: int| 0 <= i < j < t.len() implies (#[trigger] t[i]).0 != (#[trigger] t[j]).0 by {
        crate::text::lemma_before_irreflexive(t[i].0);
    }
}

/// A sorted value is sound.
pub proof fn lemma_sorted_sound(v: JsonTree)
    ensures
        json_sound(json_sorted(v)),
    decreases v, 1int, 0int,
{
    let r = json_sorted(v);
    match v {
        JsonTree::Array(a) => {
            assert forall|i: int| 0 <= i < a.len() implies json_sound(#[trigger] r->Array_0[i]) by {
                assert(decreases_to!(a => a[i]));
                assert(decreases_to!(v => v->Array_0));
                lemma_sorted_sound(a[i]);
            }
        },
        JsonTree::Object(o) => {
            lemma_sorted_upto(v, o.len() as int);
            lemma_sorted_keys_once(r->Object_0);
        },
        _ => {},
    }
}

pub proof fn lemma_sorted_upto(v: JsonTree, n: int)
    requires
        v is Object,
        n <= v->Object_0.len(),
    ensures
        sorted(sorted_upto(v, n)),
        forall|i: int| 0 <= i < sorted_upto(v, n).len() ==> json_sound((#[trigger] sorted_upto(v, n)[i]).1),
    decreases v, 0int, n,
{
    if n > 0 {
        lemma_sorted_upto(v, n - 1);
        let o = v->Object_0;
        let b = sorted_upto(v, n - 1);
        let x = json_sorted(o[n - 1].1);
        assert(decreases_to!(o => o[n - 1]));
        assert(decreases_to!(o[n - 1] => o[n - 1].1));
        assert(decreases_to!(v => v->Object_0));
        lemma_sorted_sound(o[n - 1].1);
        crate::entries::lemma_with_entry(b, o[n - 1].0, x);
        let r = sorted_upto(v, n);
        assert forall|i: int| 0 <= i < r.len() implies json_sound((#[trigger] r[i]).1) by {
            crate::entries::lemma_with_entry_items(b, o[n - 1].0, x, i);
            if r[i] != (o[n - 1].0, x) {
                let j = choose|j: int| 0 <= j < b.len() && b[j] == r[i];
                assert(json_sound(b[j].1));
            }
        }
    }
}

/// The value with the entries of every object in key order.
pub fn sort_json(v: &Json) -> (r: Json)
    ensures
        r.deep_view() == json_sorted(v.deep_view()),
        json_sound(r.deep_view()),
    decreases v.deep_view(),
{
    broadcast use group_json;

    let ghost whole = v.deep_view();
    proof {
        lemma_sorted_sound(whole);
    }
    match v {
        Json::Array(a) => {
            let ghost d = a.deep_view();
            let ghost all = json_sorted(whole)->Array_0;
            let mut out: Vec<Json> = Vec::new();
            let mut i: usize = 0;
            assert(out.deep_view() =~= all.take(0));
            while i < a.len()
                invariant
                    i <= a@.len(),
                    d == a.deep_view(),
                    whole == v.deep_view(),
                    whole == JsonTree::Array(d),
                    json_sorted(whole) == JsonTree::Array(all),
                    out.deep_view() == all.take(i as int),
                decreases a@.len() - i,
            {
                assert(d[i as int] == a@[i as int].deep_view());
                assert(decreases_to!(d => d[i as int]));
                assert(decreases_to!(whole => whole->Array_0));
                put(&mut out, sort_json(&a[i]));
                assert(out.deep_view() =~= all.take(i + 1));
                i = i + 1;
            }
            assert(out.deep_view() =~= all);
            Json::Array(out)
        },
        Json::Object(o) => {
            let ghost d = o.deep_view();
            let mut out: Vec<(String, Json)> = Vec::new();
            let mut i: usize = 0;
            assert(out.deep_view() =~= Seq::<(Seq<char>, JsonTree)>::empty());
            while i < o.len()
                invariant
                    i <= o@.len(),
                    d == o.deep_view(),
                    whole == v.deep_view(),
                    whole == JsonTree::Object(d),
                    out.deep_view() == sorted_upto(whole, i as int),
                decreases o@.len() - i,
            {
                assert(d[i as int] == (o@[i as int].0@, o@[i as int].1.deep_view()));
                assert(decreases_to!(d => d[i as int]));
                assert(decreases_to!(d[i as int] => d[i as int].1));
                assert(decreases_to!(whole => whole->Object_0));
                crate::entries::put_entry(&mut out, o[i].0.clone(), sort_json(&o[i].1));
                i = i + 1;
            }
            Json::Object(out)
        },
        _ => copy_json(v),
    }
}

} // verus!
