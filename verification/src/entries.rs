//! Maps from text, as the list of their entries in key order.

use crate::text::before;
use crate::text::is_before;
use crate::text::lemma_before_irreflexive;
use crate::text::lemma_before_total;
use crate::text::lemma_before_transitive;
use crate::text::same;
use vstd::prelude::*;

verus! {

/// The keys stand in order, none twice.
pub open spec fn sorted<T>(s: Seq<(Seq<char>, T)>) -> bool {
    forall|i: int, j: int| 0 <= i < j < s.len() ==> before(#[trigger] s[i].0, #[trigger] s[j].0)
}

/// The first place from `from` on whose key is `k`, or the length.
pub open spec fn place_from<T>(s: Seq<(Seq<char>, T)>, k: Seq<char>, from: int) -> int
    decreases s.len() - from,
{
    if from < 0 || from >= s.len() {
        s.len() as int
    } else if s[from].0 == k {
        from
    } else {
        place_from(s, k, from + 1)
    }
}

/// What stands under the key.
pub open spec fn entry<T>(s: Seq<(Seq<char>, T)>, k: Seq<char>) -> Option<T> {
    let i = place_from(s, k, 0);
    if i < s.len() {
        Some(s[i].1)
    } else {
        None
    }
}

/// The entries without the one under the key.
pub open spec fn without<T>(s: Seq<(Seq<char>, T)>, k: Seq<char>) -> Seq<(Seq<char>, T)> {
    let i = place_from(s, k, 0);
    if i < s.len() {
        s.remove(i)
    } else {
        s
    }
}

/// The first place from `from` on whose key does not sort before `k`, or the length.
pub open spec fn slot_from<T>(s: Seq<(Seq<char>, T)>, k: Seq<char>, from: int) -> int
    decreases s.len() - from,
{
    if from < 0 || from >= s.len() {
        s.len() as int
    } else if !before(s[from].0, k) {
        from
    } else {
        slot_from(s, k, from + 1)
    }
}

/// The entries with `v` under `k`, in place of what stood there.
pub open spec fn with_entry<T>(s: Seq<(Seq<char>, T)>, k: Seq<char>, v: T) -> Seq<(Seq<char>, T)> {
    let i = slot_from(s, k, 0);
    if i < s.len() && s[i].0 == k {
        s.update(i, (k, v))
    } else {
        s.insert(i, (k, v))
    }
}

pub proof fn lemma_place<T>(s: Seq<(Seq<char>, T)>, k: Seq<char>, from: int)
    requires
        0 <= from <= s.len(),
    ensures
        from <= place_from(s, k, from) <= s.len(),
        place_from(s, k, from) < s.len() ==> s[place_from(s, k, from)].0 == k,
        forall|j: int| from <= j < place_from(s, k, from) ==> (#[trigger] s[j]).0 != k,
    decreases s.len() - from,
{
    if from < s.len() && s[from].0 != k {
        lemma_place(s, k, from + 1);
    }
}

pub proof fn lemma_slot<T>(s: Seq<(Seq<char>, T)>, k: Seq<char>, from: int)
    requires
        0 <= from <= s.len(),
    ensures
        from <= slot_from(s, k, from) <= s.len(),
        slot_from(s, k, from) < s.len() ==> !before(s[slot_from(s, k, from)].0, k),
        forall|j: int| from <= j < slot_from(s, k, from) ==> before((#[trigger] s[j]).0, k),
    decreases s.len() - from,
{
    if from < s.len() && before(s[from].0, k) {
        lemma_slot(s, k, from + 1);
    }
}

/// In a sorted list, what stands under a key is what stands at any place with that key.
pub proof fn lemma_entry_at<T>(s: Seq<(Seq<char>, T)>, i: int)
    requires
        sorted(s),
        0 <= i < s.len(),
    ensures
        place_from(s, s[i].0, 0) == i,
        entry(s, s[i].0) == Some(s[i].1),
{
    let k = s[i].0;
    lemma_place(s, k, 0);
    let j = place_from(s, k, 0);
    if j < i {
        assert(before(s[j].0, s[i].0));
        lemma_before_irreflexive(k);
    }
}

/// Putting an entry into a sorted list keeps it sorted, puts the value under its key and
/// leaves every other key as it was.
pub proof fn lemma_with_entry<T>(s: Seq<(Seq<char>, T)>, k: Seq<char>, v: T)
    requires
        sorted(s),
    ensures
        sorted(with_entry(s, k, v)),
        entry(with_entry(s, k, v), k) == Some(v),
        forall|o: Seq<char>| o != k ==> #[trigger] entry(with_entry(s, k, v), o) == entry(s, o),
{
    let i = slot_from(s, k, 0);
    lemma_slot(s, k, 0);
    let r = with_entry(s, k, v);
    let same = i < s.len() && s[i].0 == k;
    assert forall|a: int, b: int| 0 <= a < b < r.len() implies before(#[trigger] r[a].0, #[trigger] r[b].0) by {
        if same {
            assert(r[a].0 == s[a].0 && r[b].0 == s[b].0);
        } else {
            if i < s.len() {
                lemma_before_total(s[i].0, k);
            }
            if b < i {
                assert(r[a] == s[a] && r[b] == s[b]);
            } else if b == i {
                assert(r[a] == s[a]);
            } else if a < i {
                assert(r[a] == s[a] && r[b] == s[b - 1]);
            } else if a == i {
                assert(r[b] == s[b - 1]);
                if b - 1 > i {
                    assert(before(s[i].0, s[b - 1].0));
                    lemma_before_transitive(k, s[i].0, s[b - 1].0);
                }
            } else {
                assert(r[a] == s[a - 1] && r[b] == s[b - 1]);
            }
        }
    }
    assert(r[i] == (k, v));
    lemma_entry_at(r, i);
    assert forall|o: Seq<char>| o != k implies #[trigger] entry(r, o) == entry(s, o) by {
        lemma_place(s, o, 0);
        lemma_place(r, o, 0);
        let p = place_from(s, o, 0);
        let q = place_from(r, o, 0);
        if p < s.len() {
            let w = if same || p < i { p } else { p + 1 };
            assert(r[w].0 == o && r[w].1 == s[p].1);
            lemma_entry_at(r, w);
        } else if q < r.len() {
            let w = if same || q < i { q } else { q - 1 };
            assert(q != i);
            assert(s[w].0 == o);
        }
    }
}

/// Every entry after a `with_entry` is the one put in or one that was there.
pub proof fn lemma_with_entry_items<T>(s: Seq<(Seq<char>, T)>, k: Seq<char>, v: T, i: int)
    requires
        0 <= i < with_entry(s, k, v).len(),
    ensures
        with_entry(s, k, v)[i] == (k, v) || s.contains(with_entry(s, k, v)[i]),
{
    let at = slot_from(s, k, 0);
    lemma_slot(s, k, 0);
    let r = with_entry(s, k, v);
    if at < s.len() && s[at].0 == k {
        if i != at {
            assert(s[i] == r[i]);
        }
    } else if i < at {
        assert(s[i] == r[i]);
    } else if i > at {
        assert(s[i - 1] == r[i]);
    }
}

/// Taking a key out of a sorted list keeps it sorted, and the key is gone from it.
pub proof fn lemma_without<T>(s: Seq<(Seq<char>, T)>, k: Seq<char>)
    requires
        sorted(s),
    ensures
        sorted(without(s, k)),
        entry(without(s, k), k) is None,
        forall|o: Seq<char>| o != k ==> #[trigger] entry(without(s, k), o) == entry(s, o),
{
    let i = place_from(s, k, 0);
    lemma_place(s, k, 0);
    let r = without(s, k);
    if i < s.len() {
        assert forall|a: int, b: int| 0 <= a < b < r.len() implies before(#[trigger] r[a].0, #[trigger] r[b].0) by {
            let x = if a < i { a } else { a + 1 };
            let y = if b < i { b } else { b + 1 };
            assert(r[a] == s[x] && r[b] == s[y]);
        }
    }
    lemma_place(r, k, 0);
    let q = place_from(r, k, 0);
    if q < r.len() && i < s.len() {
        let x = if q < i { q } else { q + 1 };
        assert(r[q] == s[x]);
        lemma_entry_at(s, x);
        lemma_entry_at(s, i);
    }
    assert forall|o: Seq<char>| o != k implies #[trigger] entry(r, o) == entry(s, o) by {
        lemma_place(s, o, 0);
        lemma_place(r, o, 0);
        let p = place_from(s, o, 0);
        let q = place_from(r, o, 0);
        if i < s.len() {
            if p < s.len() {
                let w = if p < i { p } else { p - 1 };
                assert(r[w] == s[p]);
                lemma_entry_at(r, w);
            } else if q < r.len() {
                let w = if q < i { q } else { q + 1 };
                assert(r[q] == s[w]);
                assert(s[w].0 == o);
            }
        }
    }
}

/// What stands under the key.
pub fn get<'a, V: DeepView>(v: &'a Vec<(String, V)>, k: &str) -> (r: Option<&'a V>)
    ensures
        r.deep_view() == entry(v.deep_view(), k@),
        r matches Some(x) ==> exists|i: int| 0 <= i < v@.len() && *x == (#[trigger] v@[i]).1,
{
    let at: usize = place(v, k);
    if at < v.len() {
        assert(v.deep_view()[at as int] == (v@[at as int].0@, v@[at as int].1.deep_view()));
        assert(v@[at as int].1 == v@[at as int].1);
        Some(&v[at].1)
    } else {
        None
    }
}

/// The first place whose key is `k`, or the length.
pub fn place<V: DeepView>(v: &Vec<(String, V)>, k: &str) -> (r: usize)
    ensures
        r == place_from(v.deep_view(), k@, 0),
        r <= v@.len(),
{
    let mut i: usize = 0;
    let ghost s = v.deep_view();
    while i < v.len()
        invariant
            i <= v@.len(),
            s == v.deep_view(),
            place_from(s, k@, i as int) == place_from(s, k@, 0),
        decreases v@.len() - i,
    {
        assert(s[i as int].0 == v@[i as int].0@);
        if same(v[i].0.as_str(), k) {
            return i;
        }
        i = i + 1;
    }
    i
}

/// Something stands under the key.
pub fn has<V: DeepView>(v: &Vec<(String, V)>, k: &str) -> (r: bool)
    ensures
        r == (entry(v.deep_view(), k@) is Some),
{
    let at: usize = place(v, k);
    at < v.len()
}

/// Put `x` under `k`, in place of what stood there.
pub fn put_entry<V: DeepView>(v: &mut Vec<(String, V)>, k: String, x: V)
    ensures
        final(v).deep_view() == with_entry(old(v).deep_view(), k@, x.deep_view()),
{
    let ghost s = v.deep_view();
    let mut i: usize = 0;
    while i < v.len() && is_before(v[i].0.as_str(), k.as_str())
        invariant
            i <= v@.len(),
            s == v.deep_view(),
            *v == *old(v),
            slot_from(s, k@, i as int) == slot_from(s, k@, 0),
        decreases v@.len() - i,
    {
        assert(s[i as int].0 == v@[i as int].0@);
        i = i + 1;
    }
    if i < v.len() {
        assert(s[i as int].0 == v@[i as int].0@);
    }
    let ghost key = k@;
    if i < v.len() && same(v[i].0.as_str(), k.as_str()) {
        v[i] = (k, x);
        assert(v.deep_view() =~= s.update(i as int, (key, x.deep_view())));
    } else {
        v.insert(i, (k, x));
        assert(v.deep_view() =~= s.insert(i as int, (key, x.deep_view())));
    }
}

/// Take out what stands under `k`.
pub fn take_out<V: DeepView>(v: &mut Vec<(String, V)>, k: &str) -> (r: Option<V>)
    ensures
        final(v).deep_view() == without(old(v).deep_view(), k@),
        r.deep_view() == entry(old(v).deep_view(), k@),
{
    let ghost s = v.deep_view();
    let at: usize = place(v, k);
    if at < v.len() {
        assert(s[at as int] == (v@[at as int].0@, v@[at as int].1.deep_view()));
        let (_, x) = v.remove(at);
        assert(v.deep_view() =~= s.remove(at as int));
        Some(x)
    } else {
        None
    }
}

/// The keys.
pub open spec fn keys_of<T>(s: Seq<(Seq<char>, T)>) -> Seq<Seq<char>> {
    Seq::new(s.len(), |i: int| s[i].0)
}

pub fn keys<V: DeepView>(v: &Vec<(String, V)>) -> (r: Vec<String>)
    ensures
        r.deep_view() == keys_of(v.deep_view()),
{
    let mut out: Vec<String> = Vec::new();
    let mut i: usize = 0;
    let ghost s = v.deep_view();
    while i < v.len()
        invariant
            i <= v@.len(),
            s == v.deep_view(),
            out.deep_view() == keys_of(s).take(i as int),
        decreases v@.len() - i,
    {
        crate::text::put(&mut out, v[i].0.clone());
        assert(s[i as int].0 == v@[i as int].0@);
        assert(out.deep_view() =~= keys_of(s).take(i + 1));
        i = i + 1;
    }
    assert(out.deep_view() =~= keys_of(s));
    out
}

/// A copy of a map from text to text.
pub fn copy_texts(v: &Vec<(String, String)>) -> (r: Vec<(String, String)>)
    ensures
        r.deep_view() == v.deep_view(),
{
    let mut out: Vec<(String, String)> = Vec::new();
    let mut i: usize = 0;
    while i < v.len()
        invariant
            i <= v@.len(),
            out.deep_view() == v.deep_view().take(i as int),
        decreases v@.len() - i,
    {
        crate::text::put(&mut out, (v[i].0.clone(), v[i].1.clone()));
        assert(out.deep_view() =~= v.deep_view().take(i + 1));
        i = i + 1;
    }
    assert(out.deep_view() =~= v.deep_view());
    out
}

/// Two sorted lists with the same under every key are one.
pub proof fn lemma_sorted_same<T>(s: Seq<(Seq<char>, T)>, t: Seq<(Seq<char>, T)>)
    requires
        sorted(s),
        sorted(t),
        forall|k: Seq<char>| #[trigger] entry(s, k) == entry(t, k),
    ensures
        s == t,
    decreases s.len(),
{
    if s.len() == 0 {
        if t.len() > 0 {
            lemma_entry_at(t, 0);
            assert(entry(s, t[0].0) is None);
        }
        assert(s =~= t);
        return ;
    }
    lemma_entry_at(s, 0);
    let k = s[0].0;
    let j = place_from(t, k, 0);
    lemma_place(t, k, 0);
    assert(entry(t, k) == entry(s, k));
    if j > 0 {
        let o = t[0].0;
        assert(before(t[0].0, t[j].0));
        lemma_entry_at(t, 0);
        let i = place_from(s, o, 0);
        lemma_place(s, o, 0);
        assert(entry(s, o) == entry(t, o));
        if i > 0 {
            assert(before(s[0].0, s[i].0));
            lemma_before_transitive(k, o, k);
        }
        lemma_before_irreflexive(k);
    }
    let a = s.drop_first();
    let b = t.drop_first();
    assert forall|x: int, y: int| 0 <= x < y < a.len() implies before(#[trigger] a[x].0, #[trigger] a[y].0) by {
        assert(a[x] == s[x + 1] && a[y] == s[y + 1]);
    }
    assert forall|x: int, y: int| 0 <= x < y < b.len() implies before(#[trigger] b[x].0, #[trigger] b[y].0) by {
        assert(b[x] == t[x + 1] && b[y] == t[y + 1]);
    }
    assert forall|o: Seq<char>| #[trigger] entry(a, o) == entry(b, o) by {
        lemma_entry_behind(s, o);
        lemma_entry_behind(t, o);
        assert(entry(s, o) == entry(t, o));
    }
    lemma_sorted_same(a, b);
    assert(s =~= seq![s[0]] + a);
    assert(t =~= seq![t[0]] + b);
}

proof fn lemma_entry_behind<T>(s: Seq<(Seq<char>, T)>, k: Seq<char>)
    requires
        sorted(s),
        s.len() > 0,
    ensures
        entry(s.drop_first(), k) == if k == s[0].0 {
            None
        } else {
            entry(s, k)
        },
{
    let a = s.drop_first();
    assert forall|x: int, y: int| 0 <= x < y < a.len() implies before(#[trigger] a[x].0, #[trigger] a[y].0) by {
        assert(a[x] == s[x + 1] && a[y] == s[y + 1]);
    }
    lemma_place(a, k, 0);
    lemma_place(s, k, 0);
    let p = place_from(a, k, 0);
    let q = place_from(s, k, 0);
    if p < a.len() {
        assert(a[p] == s[p + 1]);
        lemma_entry_at(s, p + 1);
        if k == s[0].0 {
            lemma_entry_at(s, 0);
        }
    } else if k != s[0].0 && q < s.len() {
        assert(a[q - 1] == s[q]);
    }
}

} // verus!
