//! The machine-local layer over the tracked config.
//!
//! Scalars replace, tables merge, arrays replace: an empty array clears an inherited list. A
//! `remove` list in the local file drops inherited fields before the rest of the layer applies.

use crate::entries::{
    entry, get, lemma_entry_at, lemma_place, lemma_with_entry, lemma_with_entry_items, lemma_without, place_from, put_entry, sorted, take_out,
    with_entry, without,
};
use crate::text::{
    cat2, cat4, chars_of, debug_text, error, has_char, is_alnum, alnum, join, joined, joined_upto, outcome, put,
    quoted, same, text_between, copy_list, Error,
};
use crate::value::{
    copy_table, copy_toml, group_value, is_plain, lemma_table_is_ordered, ordered, ordered_entries, toml_shown, toml_text, Toml, Tree,
};
use vstd::prelude::*;

verus! {

broadcast use group_value;

/// `base` with the first `n` entries of `over` laid over it.
pub open spec fn laid_upto(base: Seq<(Seq<char>, Tree)>, over: Tree, n: int) -> Seq<(Seq<char>, Tree)>
    decreases over, n,
{
    match over {
        Tree::Table(o) => if n <= 0 || n > o.len() {
            base
        } else {
            let b = laid_upto(base, over, n - 1);
            let (k, v) = o[n - 1];
            match (entry(b, k), v) {
                (Some(Tree::Table(x)), Tree::Table(y)) => with_entry(
                    b,
                    k,
                    Tree::Table(laid_upto(x, v, y.len() as int)),
                ),
                _ => with_entry(b, k, v),
            }
        },
        _ => base,
    }
}

/// `base` with `over` laid over it: tables merge key by key, everything else replaces.
pub open spec fn laid_over(base: Seq<(Seq<char>, Tree)>, over: Seq<(Seq<char>, Tree)>) -> Seq<(Seq<char>, Tree)> {
    laid_upto(base, Tree::Table(over), over.len() as int)
}

/// Layer `over` onto `base`: tables merge key by key, everything else, scalars and arrays
/// alike, replaces.
pub fn merge_tables(base: &mut Vec<(String, Toml)>, over: &Vec<(String, Toml)>)
    ensures
        final(base).deep_view() == laid_over(old(base).deep_view(), over.deep_view()),
    decreases Tree::Table(over.deep_view()),
{
    let ghost o = over.deep_view();
    let ghost whole = Tree::Table(o);
    let ghost b0 = base.deep_view();
    let mut i: usize = 0;
    while i < over.len()
        invariant
            i <= over@.len(),
            o == over.deep_view(),
            whole == Tree::Table(o),
            base.deep_view() == laid_upto(b0, whole, i as int),
        decreases over@.len() - i,
    {
        assert(o[i as int] == (over@[i as int].0@, over@[i as int].1.deep_view()));
        assert(decreases_to!(o => o[i as int]));
        assert(decreases_to!(o[i as int] => o[i as int].1));
        assert(decreases_to!(whole => whole->Table_0));
        let ghost b = base.deep_view();
        let ghost k = o[i as int].0;
        let mut merged: Option<Vec<(String, Toml)>> = None;
        if let Toml::Table(y) = &over[i].1 {
            assert(o[i as int].1 == Tree::Table(y.deep_view()));
            let had = get(base, over[i].0.as_str());
            if let Some(Toml::Table(x)) = had {
                assert(had.deep_view() == Some(Tree::Table(x.deep_view())));
                let mut t = copy_table(x);
                merge_tables(&mut t, y);
                merged = Some(t);
            }
        }
        let value = match merged {
            Some(t) => Toml::Table(t),
            None => copy_toml(&over[i].1),
        };
        proof {
            if merged is None && o[i as int].1 is Table {
                assert(entry(b, k) is None || !(entry(b, k)->0 is Table));
            }
        }
        put_entry(base, over[i].0.clone(), value);
        i = i + 1;
    }
}

/// Putting a value that is in order into entries that are keeps them so.
pub proof fn lemma_put_ordered(b: Seq<(Seq<char>, Tree)>, k: Seq<char>, v: Tree)
    requires
        ordered_entries(b),
        ordered(v),
    ensures
        ordered_entries(with_entry(b, k, v)),
{
    lemma_with_entry(b, k, v);
    let r = with_entry(b, k, v);
    assert forall|i: int| 0 <= i < r.len() implies ordered((#[trigger] r[i]).1) by {
        lemma_with_entry_items(b, k, v, i);
        if r[i] != (k, v) {
            let j = choose|j: int| 0 <= j < b.len() && b[j] == r[i];
            assert(ordered(b[j].1));
        }
    }
}

proof fn lemma_laid_ordered(base: Seq<(Seq<char>, Tree)>, over: Tree, n: int)
    requires
        ordered_entries(base),
        ordered(over),
        over is Table,
        n <= over->Table_0.len(),
    ensures
        ordered_entries(laid_upto(base, over, n)),
    decreases over, n,
{
    if n > 0 {
        lemma_laid_ordered(base, over, n - 1);
        let o = over->Table_0;
        let b = laid_upto(base, over, n - 1);
        let (k, v) = o[n - 1];
        lemma_table_is_ordered(o);
        assert(ordered(o[n - 1].1));
        match (entry(b, k), v) {
            (Some(Tree::Table(x)), Tree::Table(y)) => {
                lemma_place(b, k, 0);
                let at = place_from(b, k, 0);
                assert(ordered(b[at].1));
                lemma_table_is_ordered(x);
                assert(decreases_to!(o => o[n - 1]));
                assert(decreases_to!(o[n - 1] => o[n - 1].1));
                assert(decreases_to!(over => over->Table_0));
                lemma_laid_ordered(x, v, y.len() as int);
                lemma_table_is_ordered(laid_upto(x, v, y.len() as int));
                lemma_put_ordered(b, k, Tree::Table(laid_upto(x, v, y.len() as int)));
            },
            _ => {
                lemma_put_ordered(b, k, v);
            },
        }
    }
}

/// What stands under a key once a layer lies over another.
pub open spec fn layered(base: Option<Tree>, over: Option<Tree>) -> Option<Tree> {
    match (base, over) {
        (_, None) => base,
        (Some(Tree::Table(x)), Some(Tree::Table(y))) => Some(Tree::Table(laid_over(x, y))),
        (_, Some(v)) => Some(v),
    }
}

proof fn lemma_laid_entry(base: Seq<(Seq<char>, Tree)>, over: Seq<(Seq<char>, Tree)>, n: int, k: Seq<char>)
    requires
        sorted(base),
        sorted(over),
        0 <= n <= over.len(),
    ensures
        sorted(laid_upto(base, Tree::Table(over), n)),
        entry(laid_upto(base, Tree::Table(over), n), k) == if place_from(over, k, 0) < n {
            layered(entry(base, k), entry(over, k))
        } else {
            entry(base, k)
        },
    decreases n,
{
    let whole = Tree::Table(over);
    lemma_place(over, k, 0);
    if n > 0 {
        let (key, v) = over[n - 1];
        lemma_laid_entry(base, over, n - 1, k);
        lemma_laid_entry(base, over, n - 1, key);
        lemma_entry_at(over, n - 1);
        let b = laid_upto(base, whole, n - 1);
        assert(whole->Table_0 == over);
        let put = match (entry(b, key), v) {
            (Some(Tree::Table(x)), Tree::Table(y)) => Tree::Table(laid_upto(x, v, y.len() as int)),
            _ => v,
        };
        assert(laid_upto(base, whole, n) == with_entry(b, key, put));
        lemma_with_entry(b, key, put);
        if k == key {
            assert(place_from(over, k, 0) == n - 1);
        } else {
            assert(place_from(over, k, 0) != n - 1);
        }
    }
}

/// Layering, key by key: where only one layer speaks, it is heard; where both do, two tables
/// merge by the same rule and anything else of the upper layer replaces what was there.
pub proof fn law_layering(base: Seq<(Seq<char>, Tree)>, over: Seq<(Seq<char>, Tree)>, k: Seq<char>)
    requires
        sorted(base),
        sorted(over),
    ensures
        sorted(laid_over(base, over)),
        entry(laid_over(base, over), k) == layered(entry(base, k), entry(over, k)),
{
    lemma_laid_entry(base, over, over.len() as int, k);
    lemma_place(over, k, 0);
}

/// An upper layer that says nothing changes nothing.
pub proof fn law_empty_layer(base: Seq<(Seq<char>, Tree)>)
    ensures
        laid_over(base, Seq::empty()) == base,
{
}

/// Layering keeps every table in key order.
pub proof fn law_layering_ordered(base: Seq<(Seq<char>, Tree)>, over: Seq<(Seq<char>, Tree)>)
    requires
        ordered_entries(base),
        ordered_entries(over),
    ensures
        ordered_entries(laid_over(base, over)),
{
    lemma_table_is_ordered(over);
    lemma_laid_ordered(base, Tree::Table(over), over.len() as int);
}

/// The table without what stands at the key path, or why there is nothing to take out.
pub open spec fn removed(t: Seq<(Seq<char>, Tree)>, keys: Seq<Seq<char>>) -> Result<Seq<(Seq<char>, Tree)>, Seq<char>>
    decreases keys.len(),
{
    if keys.len() == 0 {
        Err("empty path"@)
    } else if keys.len() == 1 {
        if entry(t, keys[0]) is Some {
            Ok(without(t, keys[0]))
        } else {
            Err("nothing to remove"@)
        }
    } else {
        match entry(t, keys[0]) {
            Some(Tree::Table(sub)) => match removed(sub, keys.drop_first()) {
                Ok(rest) => Ok(with_entry(t, keys[0], Tree::Table(rest))),
                Err(e) => Err(e),
            },
            Some(_) => Err(debug_text(keys[0]) + " is not a table"@),
            None => Err("nothing at "@ + debug_text(keys[0])),
        }
    }
}

/// Drop the value at the keys from `from` on.
fn remove_keys(table: &mut Vec<(String, Toml)>, keys: &Vec<String>, from: usize) -> (r: Result<(), Error>)
    requires
        from < keys@.len(),
    ensures
        match removed(old(table).deep_view(), keys.deep_view().skip(from as int)) {
            Ok(t) => r is Ok && final(table).deep_view() == t,
            Err(e) => outcome(r) == Err::<(), Seq<char>>(e) && final(table).deep_view() == old(table).deep_view(),
        },
    decreases keys@.len() - from,
{
    let ghost ks = keys.deep_view().skip(from as int);
    assert(ks[0] == keys@[from as int]@);
    if from == keys.len() - 1 {
        if take_out(table, keys[from].as_str()).is_none() {
            assert(without(old(table).deep_view(), ks[0]) == old(table).deep_view());
            return Err(error("nothing to remove".to_owned()));
        }
        return Ok(());
    }
    assert(ks.drop_first() =~= keys.deep_view().skip(from + 1));
    let had = get(table, keys[from].as_str());
    let mut sub = match had {
        Some(Toml::Table(t)) => copy_table(t),
        Some(_) => return Err(error(cat2(quoted(keys[from].as_str()).as_str(), " is not a table"))),
        None => return Err(error(cat2("nothing at ", quoted(keys[from].as_str()).as_str()))),
    };
    remove_keys(&mut sub, keys, from + 1)?;
    put_entry(table, keys[from].clone(), Toml::Table(sub));
    Ok(())
}

/// The place at which the segment that begins at `i` ends: the next dot outside quotes, or the
/// end.
pub open spec fn segment_end(s: Seq<char>, i: int, quoted: bool) -> int
    decreases s.len() - i,
{
    if i < 0 || i >= s.len() {
        s.len() as int
    } else if s[i] == '"' {
        segment_end(s, i + 1, !quoted)
    } else if s[i] == '.' && !quoted {
        i
    } else {
        segment_end(s, i + 1, quoted)
    }
}

proof fn lemma_segment_end(s: Seq<char>, i: int, quoted: bool)
    requires
        0 <= i <= s.len(),
    ensures
        i <= segment_end(s, i, quoted) <= s.len(),
    decreases s.len() - i,
{
    if i < s.len() {
        if s[i] == '"' {
            lemma_segment_end(s, i + 1, !quoted);
        } else if s[i] == '.' && !quoted {
        } else {
            lemma_segment_end(s, i + 1, quoted);
        }
    }
}

/// The dot-separated segments from `from` on, with dots inside quotes left alone.
pub open spec fn segments_from(s: Seq<char>, from: int) -> Seq<Seq<char>>
    decreases s.len() - from,
    when 0 <= from <= s.len()
    via segments_from_decreases
{
    let at = segment_end(s, from, false);
    if at < s.len() {
        seq![s.subrange(from, at)] + segments_from(s, at + 1)
    } else {
        seq![s.subrange(from, at)]
    }
}

#[via_fn]
proof fn segments_from_decreases(s: Seq<char>, from: int) {
    lemma_segment_end(s, from, false);
}

/// The dot-separated segments of `path`, with dots inside a quoted key left alone.
pub fn split_segments(path: &str) -> (r: Vec<String>)
    ensures
        r.deep_view() == segments_from(path@, 0),
{
    let v = chars_of(path);
    let mut out: Vec<String> = Vec::new();
    let mut from: usize = 0;
    assert(out.deep_view() + segments_from(path@, 0) =~= segments_from(path@, 0));
    loop
        invariant
            v@ == path@,
            from <= v@.len(),
            out.deep_view() + segments_from(path@, from as int) == segments_from(path@, 0),
        decreases v@.len() - from,
    {
        let mut at: usize = from;
        let mut quoted = false;
        while at < v.len() && (v[at] != '.' || quoted)
            invariant
                from <= at <= v@.len(),
                segment_end(v@, at as int, quoted) == segment_end(v@, from as int, false),
            decreases v@.len() - at,
        {
            if v[at] == '"' {
                quoted = !quoted;
            }
            at = at + 1;
        }
        let ghost seen = out.deep_view();
        put(&mut out, text_between(&v, from, at));
        if at == v.len() {
            assert(out.deep_view() =~= seen + segments_from(path@, from as int));
            return out;
        }
        assert(out.deep_view() + segments_from(path@, at + 1) =~= seen + segments_from(path@, from as int));
        from = at + 1;
    }
}

/// The key a segment spells: what stands between its quotes, which span the whole of it, or
/// the segment itself where it has none.
pub open spec fn segment_key(path: Seq<char>, s: Seq<char>) -> Result<Seq<char>, Seq<char>> {
    if s.len() > 0 && s[0] == '"' {
        let inner = s.subrange(1, s.len() - 1);
        if s.len() >= 2 && s.last() == '"' && !inner.contains('"') {
            if inner.len() == 0 {
                Err(debug_text(path) + ": empty key"@)
            } else {
                Ok(inner)
            }
        } else {
            Err(debug_text(path) + ": "@ + debug_text(s) + " is not a quoted key"@)
        }
    } else if s.contains('"') {
        Err(debug_text(path) + ": "@ + debug_text(s) + " quotes part of a key"@)
    } else if s.len() == 0 {
        Err(debug_text(path) + ": empty key"@)
    } else {
        Ok(s)
    }
}

fn key_of_segment(path: &str, s: &str) -> (r: Result<String, Error>)
    ensures
        outcome(r) == segment_key(path@, s@),
{
    let v = chars_of(s);
    let n: usize = v.len();
    if n > 0 && v[0] == '"' {
        if n >= 2 && v[n - 1] == '"' {
            let inner = text_between(&v, 1, n - 1);
            if !has_char(inner.as_str(), '"') {
                if inner.as_str().is_empty() {
                    return Err(error(cat2(quoted(path).as_str(), ": empty key")));
                }
                return Ok(inner);
            }
        }
        return Err(error(cat4(quoted(path).as_str(), ": ", quoted(s).as_str(), " is not a quoted key")));
    }
    if has_char(s, '"') {
        return Err(error(cat4(quoted(path).as_str(), ": ", quoted(s).as_str(), " quotes part of a key")));
    }
    if n == 0 {
        return Err(error(cat2(quoted(path).as_str(), ": empty key")));
    }
    Ok(s.to_owned())
}

/// The keys of the first `n` segments, or what is wrong with the first bad one.
pub open spec fn keys_upto(path: Seq<char>, segs: Seq<Seq<char>>, n: int) -> Result<Seq<Seq<char>>, Seq<char>>
    decreases n,
{
    if n <= 0 {
        Ok(Seq::empty())
    } else {
        match keys_upto(path, segs, n - 1) {
            Ok(ks) => match segment_key(path, segs[n - 1]) {
                Ok(k) => Ok(ks.push(k)),
                Err(e) => Err(e),
            },
            Err(e) => Err(e),
        }
    }
}

/// The keys a dotted path spells.
pub open spec fn path_keys(path: Seq<char>) -> Result<Seq<Seq<char>>, Seq<char>> {
    keys_upto(path, segments_from(path, 0), segments_from(path, 0).len() as int)
}

proof fn lemma_keys_kept(path: Seq<char>, segs: Seq<Seq<char>>, n: int, m: int)
    requires
        0 <= n <= m,
        keys_upto(path, segs, n) is Err,
    ensures
        keys_upto(path, segs, m) == keys_upto(path, segs, n),
    decreases m - n,
{
    if n < m {
        lemma_keys_kept(path, segs, n, m - 1);
    }
}

/// `dev.endpoints."runner.https".target` as its keys, with quotes for a key that contains a
/// dot. A quoted key spans its whole segment: `a"b"c` is a typo, not the key `abc`.
pub fn split_path(path: &str) -> (r: Result<Vec<String>, Error>)
    ensures
        outcome(r) == path_keys(path@),
        r matches Ok(ks) ==> ks@.len() > 0,
{
    let segs = split_segments(path);
    let ghost s = segs.deep_view();
    let mut out: Vec<String> = Vec::new();
    let mut i: usize = 0;
    assert(out.deep_view() =~= Seq::<Seq<char>>::empty());
    while i < segs.len()
        invariant
            i <= segs@.len(),
            s == segs.deep_view(),
            s == segments_from(path@, 0),
            out@.len() == i,
            keys_upto(path@, s, i as int) == Ok::<Seq<Seq<char>>, Seq<char>>(out.deep_view()),
        decreases segs@.len() - i,
    {
        assert(s[i as int] == segs@[i as int]@);
        match key_of_segment(path, segs[i].as_str()) {
            Ok(k) => put(&mut out, k),
            Err(e) => {
                proof {
                    lemma_keys_kept(path@, s, i + 1, s.len() as int);
                }
                return Err(e);
            },
        }
        i = i + 1;
    }
    assert(s.len() > 0);
    Ok(out)
}

/// The table without what stands at the dotted path, or why there is nothing to take out.
pub open spec fn path_removed(t: Seq<(Seq<char>, Tree)>, path: Seq<char>) -> Result<
    Seq<(Seq<char>, Tree)>,
    Seq<char>,
> {
    match path_keys(path) {
        Ok(keys) => removed(t, keys),
        Err(e) => Err(e),
    }
}

/// Drop the value at a dotted `path`. Absent is an error: a `remove` that names nothing is a
/// typo or a stale override. On an error the table is as it was.
pub fn remove_path(table: &mut Vec<(String, Toml)>, path: &str) -> (r: Result<(), Error>)
    ensures
        match path_removed(old(table).deep_view(), path@) {
            Ok(t) => r is Ok && final(table).deep_view() == t,
            Err(e) => outcome(r) == Err::<(), Seq<char>>(e) && final(table).deep_view() == old(table).deep_view(),
        },
{
    let keys = split_path(path)?;
    assert(keys.deep_view().skip(0) =~= keys.deep_view());
    remove_keys(table, &keys, 0)
}

/// What stands at the key path.
pub open spec fn at_path(t: Seq<(Seq<char>, Tree)>, keys: Seq<Seq<char>>) -> Option<Tree>
    decreases keys.len(),
{
    if keys.len() == 0 {
        None
    } else if keys.len() == 1 {
        entry(t, keys[0])
    } else {
        match entry(t, keys[0]) {
            Some(Tree::Table(sub)) => at_path(sub, keys.drop_first()),
            _ => None,
        }
    }
}

/// Something stands at the keys from `from` on.
fn found(table: &Vec<(String, Toml)>, keys: &Vec<String>, from: usize) -> (r: bool)
    requires
        from < keys@.len(),
    ensures
        r == (at_path(table.deep_view(), keys.deep_view().skip(from as int)) is Some),
    decreases keys@.len() - from,
{
    let ghost ks = keys.deep_view().skip(from as int);
    assert(ks[0] == keys@[from as int]@);
    let had = get(table, keys[from].as_str());
    if from == keys.len() - 1 {
        return had.is_some();
    }
    assert(ks.drop_first() =~= keys.deep_view().skip(from + 1));
    match had {
        Some(Toml::Table(sub)) => found(sub, keys, from + 1),
        _ => false,
    }
}

/// Something stands at the key path.
pub fn lookup(table: &Vec<(String, Toml)>, keys: &Vec<String>) -> (r: bool)
    ensures
        r == (at_path(table.deep_view(), keys.deep_view()) is Some),
{
    assert(keys@.len() == keys.deep_view().len());
    if keys.len() == 0 {
        return false;
    }
    assert(keys.deep_view().skip(0) =~= keys.deep_view());
    found(table, keys, 0)
}

/// What was removed is gone, and what stands at any other key of the table is as it was.
pub proof fn law_removed_is_gone(t: Seq<(Seq<char>, Tree)>, keys: Seq<Seq<char>>)
    requires
        ordered_entries(t),
        removed(t, keys) is Ok,
    ensures
        at_path(t, keys) is Some,
        at_path(removed(t, keys)->Ok_0, keys) is None,
        ordered_entries(removed(t, keys)->Ok_0),
        forall|k: Seq<char>| k != keys[0] ==> #[trigger] entry(removed(t, keys)->Ok_0, k) == entry(t, k),
    decreases keys.len(),
{
    if keys.len() == 1 {
        lemma_without(t, keys[0]);
        let r = without(t, keys[0]);
        let at = place_from(t, keys[0], 0);
        lemma_place(t, keys[0], 0);
        assert forall|i: int| 0 <= i < r.len() implies ordered((#[trigger] r[i]).1) by {
            let j = if i < at { i } else { i + 1 };
            assert(r[i] == t[j]);
            assert(ordered(t[j].1));
        }
    } else {
        let sub = entry(t, keys[0])->0->Table_0;
        let at = place_from(t, keys[0], 0);
        lemma_place(t, keys[0], 0);
        assert(ordered(t[at].1));
        lemma_table_is_ordered(sub);
        law_removed_is_gone(sub, keys.drop_first());
        let rest = removed(sub, keys.drop_first())->Ok_0;
        lemma_table_is_ordered(rest);
        lemma_with_entry(t, keys[0], Tree::Table(rest));
        lemma_put_ordered(t, keys[0], Tree::Table(rest));
    }
}

/// A key that needs no quotes.
pub open spec fn is_bare(k: Seq<char>) -> bool {
    &&& k.len() > 0
    &&& forall|i: int| 0 <= i < k.len() ==> is_alnum(#[trigger] k[i]) || k[i] == '_' || k[i] == '-'
}

/// A key as a configuration file spells it.
pub open spec fn key_shown(k: Seq<char>) -> Seq<char> {
    if is_bare(k) {
        k
    } else {
        toml_shown(Tree::Text(k))->0
    }
}

/// A TOML key, quoted when it is not bare.
pub fn quote_key(key: &str) -> (r: String)
    ensures
        r@ == key_shown(key@),
        key@.len() > 0 && is_plain(key@) ==> is_writable(key@),
{
    let v = chars_of(key);
    let mut bare = v.len() > 0;
    let mut i: usize = 0;
    while i < v.len()
        invariant
            i <= v@.len(),
            v@ == key@,
            bare == (v@.len() > 0 && forall|j: int|
                0 <= j < i ==> is_alnum(#[trigger] key@[j]) || key@[j] == '_' || key@[j] == '-'),
        decreases v@.len() - i,
    {
        if !(alnum(v[i]) || v[i] == '_' || v[i] == '-') {
            assert(!is_alnum(key@[i as int]));
            bare = false;
        }
        i = i + 1;
    }
    if bare {
        return key.to_owned();
    }
    proof {
        reveal_strlit("\"");
        assert("\""@ =~= seq!['"']);
        if is_plain(key@) {
            assert(!key@.contains('"'));
        }
    }
    match toml_text(&Toml::Text(key.to_owned())) {
        Some(t) => t,
        None => String::new(),
    }
}

/// The keys as a configuration file spells them.
pub open spec fn keys_shown(keys: Seq<Seq<char>>) -> Seq<Seq<char>> {
    Seq::new(keys.len(), |i: int| key_shown(keys[i]))
}

/// A key path in its dotted spelling.
pub open spec fn path_shown(keys: Seq<Seq<char>>) -> Seq<char> {
    joined(keys_shown(keys), "."@)
}

/// Keys of printable ASCII with nothing in them to escape: letters, digits, dots and the like.
pub open spec fn plain_keys(keys: Seq<Seq<char>>) -> bool {
    &&& keys.len() > 0
    &&& forall|i: int| 0 <= i < keys.len() ==> (#[trigger] keys[i]).len() > 0 && is_plain(keys[i])
}

/// A key path back in its dotted spelling, quoting a key a bare dotted path could not carry. One
/// of plain keys reads back as those keys, a key with a dot in it as one key.
pub fn join_path(keys: &Vec<String>) -> (r: String)
    ensures
        r@ == path_shown(keys.deep_view()),
        plain_keys(keys.deep_view()) ==> path_keys(r@) == Ok::<Seq<Seq<char>>, Seq<char>>(keys.deep_view()),
{
    let mut out: Vec<String> = Vec::new();
    let mut i: usize = 0;
    let ghost all = keys_shown(keys.deep_view());
    while i < keys.len()
        invariant
            i <= keys@.len(),
            all == keys_shown(keys.deep_view()),
            out.deep_view() == all.take(i as int),
            plain_keys(keys.deep_view()) ==> forall|j: int| 0 <= j < i ==> is_writable(#[trigger] keys.deep_view()[j]),
        decreases keys@.len() - i,
    {
        assert(keys.deep_view()[i as int] == keys@[i as int]@);
        put(&mut out, quote_key(keys[i].as_str()));
        assert(out.deep_view() =~= all.take(i + 1));
        i = i + 1;
    }
    assert(out.deep_view() =~= all);
    proof {
        if plain_keys(keys.deep_view()) {
            law_path_reads_back(keys.deep_view());
        }
    }
    join(&out, ".")
}

/// Whether the scan from `i` on ends inside quotes.
spec fn left_open(s: Seq<char>, i: int, q: bool) -> bool
    decreases s.len() - i,
{
    if i < 0 || i >= s.len() {
        q
    } else if s[i] == '"' {
        left_open(s, i + 1, !q)
    } else {
        left_open(s, i + 1, q)
    }
}

proof fn lemma_segment_end_in(a: Seq<char>, rest: Seq<char>, i: int, q: bool)
    requires
        0 <= i <= a.len(),
    ensures
        segment_end(a, i, q) < a.len() ==> segment_end(a + rest, i, q) == segment_end(a, i, q) && left_open(a, i, q)
            == left_open(a, segment_end(a, i, q) + 1, false),
        segment_end(a, i, q) >= a.len() ==> segment_end(a + rest, i, q) == segment_end(
            a + rest,
            a.len() as int,
            left_open(a, i, q),
        ),
    decreases a.len() - i,
{
    let b = a + rest;
    if i < a.len() {
        assert(b[i] == a[i]);
        if a[i] == '"' {
            lemma_segment_end_in(a, rest, i + 1, !q);
        } else if a[i] == '.' && !q {
        } else {
            lemma_segment_end_in(a, rest, i + 1, q);
        }
    }
}

proof fn lemma_segment_end_shift(a: Seq<char>, y: Seq<char>, i: int, q: bool)
    requires
        0 <= i <= y.len(),
    ensures
        segment_end(a + y, a.len() + i, q) == a.len() + segment_end(y, i, q),
    decreases y.len() - i,
{
    if i < y.len() {
        assert((a + y)[a.len() + i] == y[i]);
        if y[i] == '"' {
            lemma_segment_end_shift(a, y, i + 1, !q);
        } else if y[i] == '.' && !q {
        } else {
            lemma_segment_end_shift(a, y, i + 1, q);
        }
    }
}

proof fn lemma_segments_snoc(a: Seq<char>, y: Seq<char>, from: int)
    requires
        0 <= from <= a.len(),
        !left_open(a, from, false),
        segment_end(y, 0, false) == y.len(),
    ensures
        segments_from(a + "."@ + y, from) == segments_from(a, from).push(y),
    decreases a.len() - from,
{
    reveal_strlit(".");
    let b = a + "."@ + y;
    let at = segment_end(a, from, false);
    lemma_segment_end(a, from, false);
    assert(b =~= a + ("."@ + y));
    lemma_segment_end_in(a, "."@ + y, from, false);
    if at < a.len() {
        assert(b.subrange(from, at) =~= a.subrange(from, at));
        lemma_segments_snoc(a, y, at + 1);
        assert(segments_from(b, from) =~= segments_from(a, from).push(y));
    } else {
        assert(b[a.len() as int] == '.');
        assert(segment_end(b, from, false) == a.len());
        assert(b.subrange(from, a.len() as int) =~= a.subrange(from, at));
        let head = a + "."@;
        lemma_segment_end_shift(head, y, 0, false);
        assert(b =~= head + y);
        assert(b.subrange(a.len() as int + 1, b.len() as int) =~= y);
        assert(segments_from(b, a.len() as int + 1) =~= seq![y]);
        assert(segments_from(b, from) =~= segments_from(a, from).push(y));
    }
}

/// A key that a dotted path can carry: one that needs no quotes, or one that is quoted as it
/// stands.
pub open spec fn is_writable(k: Seq<char>) -> bool {
    is_bare(k) || (k.len() > 0 && !k.contains('"') && toml_shown(Tree::Text(k)) == Some(seq!['"'] + k + seq!['"']))
}

proof fn lemma_plain_scan(s: Seq<char>, i: int, q: bool)
    requires
        0 <= i <= s.len(),
        !s.contains('"'),
        q || !s.contains('.'),
    ensures
        segment_end(s, i, q) == s.len(),
        left_open(s, i, q) == q,
    decreases s.len() - i,
{
    if i < s.len() {
        assert(s.contains(s[i]));
        lemma_plain_scan(s, i + 1, q);
    }
}

proof fn lemma_left_open_in(a: Seq<char>, rest: Seq<char>, i: int, q: bool)
    requires
        0 <= i <= a.len(),
    ensures
        left_open(a + rest, i, q) == left_open(a + rest, a.len() as int, left_open(a, i, q)),
    decreases a.len() - i,
{
    if i < a.len() {
        assert((a + rest)[i] == a[i]);
        if a[i] == '"' {
            lemma_left_open_in(a, rest, i + 1, !q);
        } else {
            lemma_left_open_in(a, rest, i + 1, q);
        }
    }
}

proof fn lemma_left_open_shift(a: Seq<char>, y: Seq<char>, i: int, q: bool)
    requires
        0 <= i <= y.len(),
    ensures
        left_open(a + y, a.len() + i, q) == left_open(y, i, q),
    decreases y.len() - i,
{
    if i < y.len() {
        assert((a + y)[a.len() + i] == y[i]);
        if y[i] == '"' {
            lemma_left_open_shift(a, y, i + 1, !q);
        } else {
            lemma_left_open_shift(a, y, i + 1, q);
        }
    }
}

proof fn lemma_shown_scan(k: Seq<char>)
    requires
        is_writable(k),
    ensures
        segment_end(key_shown(k), 0, false) == key_shown(k).len(),
        !left_open(key_shown(k), 0, false),
{
    if is_bare(k) {
        assert(!k.contains('"') && !k.contains('.')) by {
            assert(forall|i: int| 0 <= i < k.len() ==> is_alnum(#[trigger] k[i]) || k[i] == '_' || k[i] == '-');
        }
        lemma_plain_scan(k, 0, false);
    } else {
        let s = key_shown(k);
        let head = seq!['"'] + k;
        assert(s =~= head + seq!['"']);
        assert(s[0] == '"');
        assert(head =~= seq!['"'] + k);
        lemma_plain_scan(k, 0, true);
        // past the opening quote, up to the closing one
        lemma_segment_end_shift(seq!['"'], k, 0, true);
        lemma_left_open_shift(seq!['"'], k, 0, true);
        lemma_segment_end_in(head, seq!['"'], 1, true);
        lemma_left_open_in(head, seq!['"'], 1, true);
        assert(s[head.len() as int] == '"');
        assert(segment_end(s, s.len() as int, false) == s.len());
        assert(segment_end(s, head.len() as int, true) == s.len());
        assert(left_open(s, s.len() as int, false) == false);
        assert(left_open(s, head.len() as int, true) == false);
    }
}

proof fn lemma_joined_segments(keys: Seq<Seq<char>>, n: int)
    requires
        forall|i: int| 0 <= i < keys.len() ==> is_writable(#[trigger] keys[i]),
        1 <= n <= keys.len(),
    ensures
        segments_from(joined_upto(keys_shown(keys), "."@, n), 0) == keys_shown(keys).take(n),
        !left_open(joined_upto(keys_shown(keys), "."@, n), 0, false),
    decreases n,
{
    reveal_strlit(".");
    let shown = keys_shown(keys);
    let y = shown[n - 1];
    assert(is_writable(keys[n - 1]));
    lemma_shown_scan(keys[n - 1]);
    if n == 1 {
        assert(y.subrange(0, y.len() as int) =~= y);
        assert(segments_from(y, 0) =~= shown.take(1));
    } else {
        lemma_joined_segments(keys, n - 1);
        let a = joined_upto(shown, "."@, n - 1);
        lemma_segments_snoc(a, y, 0);
        assert(shown.take(n) =~= shown.take(n - 1).push(y));
        let head = a + "."@;
        lemma_left_open_in(a, "."@, 0, false);
        assert(left_open(head, a.len() as int, false) == left_open(head, a.len() as int + 1, false));
        lemma_left_open_in(head, y, 0, false);
        lemma_left_open_shift(head, y, 0, false);
    }
}

proof fn lemma_keys_back(path: Seq<char>, keys: Seq<Seq<char>>, n: int)
    requires
        forall|i: int| 0 <= i < keys.len() ==> is_writable(#[trigger] keys[i]),
        0 <= n <= keys.len(),
    ensures
        keys_upto(path, keys_shown(keys), n) == Ok::<Seq<Seq<char>>, Seq<char>>(keys.take(n)),
    decreases n,
{
    if n > 0 {
        lemma_keys_back(path, keys, n - 1);
        let k = keys[n - 1];
        let s = key_shown(k);
        assert(is_writable(k));
        assert(keys.take(n) =~= keys.take(n - 1).push(k));
        if is_bare(k) {
            assert(!k.contains('"')) by {
                assert(forall|i: int| 0 <= i < k.len() ==> is_alnum(#[trigger] k[i]) || k[i] == '_' || k[i] == '-');
            }
            assert(is_alnum(k[0]) || k[0] == '_' || k[0] == '-');
        } else {
            assert(s[0] == '"' && s.last() == '"');
            assert(s.subrange(1, s.len() - 1) =~= k);
        }
    } else {
        assert(keys.take(0) =~= Seq::<Seq<char>>::empty());
    }
}

/// A key path spelled out reads back as the keys it was made from.
pub proof fn law_path_reads_back(keys: Seq<Seq<char>>)
    requires
        keys.len() > 0,
        forall|i: int| 0 <= i < keys.len() ==> is_writable(#[trigger] keys[i]),
    ensures
        path_keys(path_shown(keys)) == Ok::<Seq<Seq<char>>, Seq<char>>(keys),
{
    let n = keys.len() as int;
    lemma_joined_segments(keys, n);
    assert(keys_shown(keys).take(n) =~= keys_shown(keys));
    lemma_keys_back(path_shown(keys), keys, n);
    assert(keys.take(n) =~= keys);
}

/// Every value among the first `n` entries with its key path: a table's values in place of
/// the table, and a table with nothing in it as itself.
pub open spec fn leaves_upto(t: Tree, path: Seq<Seq<char>>, n: int) -> Seq<(Seq<Seq<char>>, Tree)>
    decreases t, n,
{
    match t {
        Tree::Table(o) => if n <= 0 || n > o.len() {
            Seq::empty()
        } else {
            let (k, v) = o[n - 1];
            let rest = leaves_upto(t, path, n - 1);
            match v {
                Tree::Table(sub) if sub.len() > 0 => rest + leaves_upto(v, path.push(k), sub.len() as int),
                _ => rest.push((path.push(k), v)),
            }
        },
        _ => Seq::empty(),
    }
}

/// Every value of the table with its key path.
pub open spec fn leaves_of(t: Seq<(Seq<char>, Tree)>, path: Seq<Seq<char>>) -> Seq<(Seq<Seq<char>>, Tree)> {
    leaves_upto(Tree::Table(t), path, t.len() as int)
}

/// The values of a table in key order are in key order.
pub proof fn lemma_leaves_ordered(t: Tree, path: Seq<Seq<char>>, n: int)
    requires
        ordered(t),
    ensures
        forall|i: int|
            0 <= i < leaves_upto(t, path, n).len() ==> ordered((#[trigger] leaves_upto(t, path, n)[i]).1),
    decreases t, n,
{
    if let Tree::Table(o) = t {
        if 0 < n <= o.len() {
            let (k, v) = o[n - 1];
            assert(decreases_to!(o => o[n - 1]));
            assert(decreases_to!(o[n - 1] => o[n - 1].1));
            assert(decreases_to!(t => t->Table_0));
            assert(ordered(o[n - 1].1));
            lemma_leaves_ordered(t, path, n - 1);
            let rest = leaves_upto(t, path, n - 1);
            let now = leaves_upto(t, path, n);
            if v is Table && v->Table_0.len() > 0 {
                let sub = v->Table_0;
                lemma_leaves_ordered(v, path.push(k), sub.len() as int);
                let more = leaves_upto(v, path.push(k), sub.len() as int);
                assert forall|i: int| 0 <= i < now.len() implies ordered((#[trigger] now[i]).1) by {
                    if i < rest.len() {
                        assert(now[i] == rest[i]);
                    } else {
                        assert(now[i] == more[i - rest.len()]);
                    }
                }
            } else {
                assert forall|i: int| 0 <= i < now.len() implies ordered((#[trigger] now[i]).1) by {
                    if i < rest.len() {
                        assert(now[i] == rest[i]);
                    }
                }
            }
        }
    }
}

/// Every scalar and array in `table`, with its key path, after what `out` holds. An empty
/// table is reported as itself, so that one with nothing in it still shows where it came from.
pub fn leaves(table: &Vec<(String, Toml)>, path: &Vec<String>, out: &mut Vec<(Vec<String>, Toml)>)
    ensures
        final(out).deep_view() == old(out).deep_view() + leaves_of(table.deep_view(), path.deep_view()),
    decreases Tree::Table(table.deep_view()),
{
    let ghost t = table.deep_view();
    let ghost whole = Tree::Table(t);
    let ghost start = out.deep_view();
    let ghost p = path.deep_view();
    let mut i: usize = 0;
    assert(start + leaves_upto(whole, p, 0) =~= start);
    while i < table.len()
        invariant
            i <= table@.len(),
            t == table.deep_view(),
            whole == Tree::Table(t),
            p == path.deep_view(),
            out.deep_view() == start + leaves_upto(whole, p, i as int),
        decreases table@.len() - i,
    {
        assert(t[i as int] == (table@[i as int].0@, table@[i as int].1.deep_view()));
        assert(decreases_to!(t => t[i as int]));
        assert(decreases_to!(t[i as int] => t[i as int].1));
        assert(decreases_to!(whole => whole->Table_0));
        let mut here = copy_list(path);
        put(&mut here, table[i].0.clone());
        let ghost before = leaves_upto(whole, p, i as int);
        let mut inner = false;
        if let Toml::Table(sub) = &table[i].1 {
            assert(sub@.len() == sub.deep_view().len());
            if sub.len() > 0 {
                inner = true;
                leaves(sub, &here, out);
                assert(out.deep_view() =~= start + leaves_upto(whole, p, i + 1));
            }
        }
        if !inner {
            put(out, (here, copy_toml(&table[i].1)));
            assert(out.deep_view() =~= start + leaves_upto(whole, p, i + 1));
        }
        i = i + 1;
    }
}

/// The key path names a value handed to a command or an image: an environment variable or a
/// build argument.
pub open spec fn is_secret_key(keys: Seq<Seq<char>>) -> bool {
    let n = keys.len();
    ||| n >= 2 && (keys[n - 2] == "exec-env"@ || keys[n - 2] == "container-env"@ || keys[n - 2] == "env"@)
    ||| n >= 3 && keys[n - 3] == "build"@ && keys[n - 2] == "args"@
}

/// Whether a key path names a value handed to a command or an image.
pub fn secret_key(keys: &Vec<String>) -> (r: bool)
    ensures
        r == is_secret_key(keys.deep_view()),
{
    let n: usize = keys.len();
    assert(n == keys.deep_view().len());
    if n >= 2 {
        assert(keys.deep_view()[n - 2] == keys@[n - 2]@);
        let k = keys[n - 2].as_str();
        if same(k, "exec-env") || same(k, "container-env") || same(k, "env") {
            return true;
        }
        if n >= 3 {
            assert(keys.deep_view()[n - 3] == keys@[n - 3]@);
            return same(keys[n - 3].as_str(), "build") && same(k, "args");
        }
    }
    false
}

} // verus!
