//! What a draft and its report say.

use crate::draft::{
    any_fared, comment_lines, draft_shown, entries_shown, entry_shown, items_shown, part_shown, report_shown,
    sections_shown, DraftView, EntryView, Fate, ItemView, SectionView, DIRECTIVE,
};
use crate::laws::show::{lemma_itself, lemma_sides, lemma_within};
use crate::layers::{key_shown, path_shown};
use crate::text::contains;
use crate::value::toml_shown;
use vstd::prelude::*;

verus! {

proof fn lemma_entries(e: Seq<EntryView>, n: int, i: int)
    requires
        0 <= i < n <= e.len(),
    ensures
        contains(entries_shown(e, n), entry_shown(e[i])),
    decreases n,
{
    lemma_sides(entries_shown(e, n - 1), entry_shown(e[n - 1]), entry_shown(e[i]));
    if i < n - 1 {
        lemma_entries(e, n - 1, i);
    } else {
        lemma_itself(entry_shown(e[i]));
    }
}

/// A section as it is written.
pub open spec fn headed(s: SectionView) -> Seq<char> {
    "\n["@ + path_shown(s.path) + "]\n"@ + entries_shown(s.entries, s.entries.len() as int)
}

proof fn lemma_sections(v: Seq<SectionView>, n: int, i: int)
    requires
        0 <= i < n <= v.len(),
    ensures
        contains(sections_shown(v, n), headed(v[i])),
    decreases n,
{
    lemma_sides(sections_shown(v, n - 1), headed(v[n - 1]), headed(v[i]));
    if i < n - 1 {
        lemma_sections(v, n - 1, i);
    } else {
        lemma_itself(headed(v[i]));
    }
}

/// The line an entry is written as: a key with its value, or that as a comment.
pub open spec fn written_as(e: EntryView) -> Seq<char> {
    match e {
        EntryView::Value(k, v) => key_shown(k) + " = "@ + toml_shown(v)->0 + "\n"@,
        EntryView::Commented(k, t) => "# "@ + key_shown(k) + " = "@ + t + "\n"@,
        EntryView::Comment(t) => Seq::empty(),
    }
}

/// A draft as it is written has every key of its root and of each of its sections, with its value,
/// under the section's own heading.
pub proof fn law_draft_is_written(d: DraftView, s: int, i: int)
    ensures
        ({
            let t = draft_shown(d);
            &&& 0 <= i < d.root.len() ==> contains(t, written_as(d.root[i]))
            &&& 0 <= s < d.sections.len() ==> contains(t, "\n["@ + path_shown(d.sections[s].path) + "]\n"@) && (0 <= i
                < d.sections[s].entries.len() ==> contains(t, written_as(d.sections[s].entries[i])))
        }),
{
    let a = DIRECTIVE@ + "\n"@ + comment_lines(d.header, d.header.len() as int) + (if d.header.len() > 0 {
        "\n"@
    } else {
        Seq::empty()
    });
    let b = entries_shown(d.root, d.root.len() as int);
    let c = sections_shown(d.sections, d.sections.len() as int);
    let t = draft_shown(d);
    assert(t == a + b + c);
    lemma_nothing(t);
    if 0 <= i < d.root.len() {
        let x = entry_shown(d.root[i]);
        lemma_entries(d.root, d.root.len() as int, i);
        lemma_sides(a, b, x);
        lemma_sides(a + b, c, x);
    }
    if 0 <= s < d.sections.len() {
        let sec = d.sections[s];
        let h = "\n["@ + path_shown(sec.path) + "]\n"@;
        let es = entries_shown(sec.entries, sec.entries.len() as int);
        lemma_sections(d.sections, d.sections.len() as int, s);
        lemma_sides(a + b, c, headed(sec));
        lemma_itself(h);
        lemma_sides(h, es, h);
        lemma_within(t, headed(sec), h);
        if 0 <= i < sec.entries.len() {
            let x = entry_shown(sec.entries[i]);
            lemma_entries(sec.entries, sec.entries.len() as int, i);
            lemma_sides(h, es, x);
            lemma_within(t, headed(sec), x);
        }
    }
}

proof fn lemma_nothing(t: Seq<char>)
    ensures
        contains(t, Seq::empty()),
{
    let e = Seq::<char>::empty();
    lemma_itself(e);
    lemma_sides(e, t, e);
    assert(e + t =~= t);
}

proof fn lemma_items(v: Seq<ItemView>, n: int, i: int)
    requires
        0 <= i < n <= v.len(),
    ensures
        v[i].note.len() == 0 ==> contains(items_shown(v, v[i].fate, n), "  "@ + v[i].key + "\n"@),
        v[i].note.len() > 0 ==> contains(items_shown(v, v[i].fate, n), "  "@ + v[i].key + ": "@ + v[i].note + "\n"@),
    decreases n,
{
    let f = v[i].fate;
    let had = items_shown(v, f, n - 1);
    let x = if v[i].note.len() == 0 {
        "  "@ + v[i].key + "\n"@
    } else {
        "  "@ + v[i].key + ": "@ + v[i].note + "\n"@
    };
    let last = if v[n - 1].note.len() == 0 {
        "  "@ + v[n - 1].key + "\n"@
    } else {
        "  "@ + v[n - 1].key + ": "@ + v[n - 1].note + "\n"@
    };
    lemma_sides(had, last, x);
    if i < n - 1 {
        lemma_items(v, n - 1, i);
    } else {
        lemma_itself(x);
    }
}

/// A report names every key it has something to say of, with what it says.
pub proof fn law_report_names_every_item(v: Seq<ItemView>, i: int)
    requires
        0 <= i < v.len(),
    ensures
        v[i].note.len() == 0 ==> contains(report_shown(v), "  "@ + v[i].key + "\n"@),
        v[i].note.len() > 0 ==> contains(report_shown(v), "  "@ + v[i].key + ": "@ + v[i].note + "\n"@),
        v[i].fate == Fate::Translated ==> contains(report_shown(v), "translated:\n"@),
        v[i].fate == (Fate::Action { essential: true }) ==> contains(
            report_shown(v),
            "requires action before the environment can start:\n"@,
        ),
        v[i].fate == (Fate::Action { essential: false }) ==> contains(report_shown(v), "requires action:\n"@),
        v[i].fate == Fate::Omitted ==> contains(report_shown(v), "omitted:\n"@),
{
    let f = v[i].fate;
    lemma_items(v, v.len() as int, i);
    let x = if v[i].note.len() == 0 {
        "  "@ + v[i].key + "\n"@
    } else {
        "  "@ + v[i].key + ": "@ + v[i].note + "\n"@
    };
    assert(any_fared(v, f));
    reveal_strlit("translated");
    reveal_strlit("translated:\n");
    reveal_strlit("requires action before the environment can start");
    reveal_strlit("requires action before the environment can start:\n");
    reveal_strlit("requires action");
    reveal_strlit("requires action:\n");
    reveal_strlit("omitted");
    reveal_strlit("omitted:\n");
    reveal_strlit(":\n");
    let title = match f {
        Fate::Translated => "translated"@,
        Fate::Action { essential: true } => "requires action before the environment can start"@,
        Fate::Action { essential: false } => "requires action"@,
        Fate::Omitted => "omitted"@,
    };
    assert("translated:\n"@ =~= "translated"@ + ":\n"@);
    assert("requires action before the environment can start:\n"@
        =~= "requires action before the environment can start"@ + ":\n"@);
    assert("requires action:\n"@ =~= "requires action"@ + ":\n"@);
    assert("omitted:\n"@ =~= "omitted"@ + ":\n"@);
    let head = title + ":\n"@;
    let part = part_shown(v, f, title);
    let body = items_shown(v, f, v.len() as int);
    lemma_itself(head);
    lemma_sides(head, body, head);
    lemma_sides(head, body, x);
    let a = part_shown(v, Fate::Translated, "translated"@);
    let b = part_shown(v, Fate::Action { essential: true }, "requires action before the environment can start"@);
    let c = part_shown(v, Fate::Action { essential: false }, "requires action"@);
    let d = part_shown(v, Fate::Omitted, "omitted"@);
    lemma_sides(a, b, head);
    lemma_sides(a + b, c, head);
    lemma_sides(a + b + c, d, head);
    lemma_sides(a, b, x);
    lemma_sides(a + b, c, x);
    lemma_sides(a + b + c, d, x);
}

} // verus!
