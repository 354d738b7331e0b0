//! What tables and listings show.

use crate::cli::{origin_file, origins_shown, units_shown, UnitStatusView};
use crate::config::Layer;
use crate::discover::FilesView;
use crate::endpoints::{state_cells, state_headers, states_shown, EndpointStateView};
use crate::laws::json::{says, says_text};
use crate::laws::show::{lemma_itself, lemma_sides, lemma_within};
use crate::laws::words::{law_joined, lemma_trimmed_end};
use crate::list::{
    headers, row_cells, row_json, rows_shown, table_line, table_shown, table_upto, widest, Flag, RowView, Status,
};
use crate::loaded::OriginView;
use crate::path::lossy_text;
use crate::planjson::number_json;
use crate::text::{contains, is_space, joined, occurs_at, padded, trimmed_end};
use crate::units::{bytes_shown, uptime_shown};
use crate::value::{written, JsonTree};
use vstd::prelude::*;
use vstd::utf8::decode_utf8;

verus! {

/// The text has this in it; where there is anything to it, and it does not end in space.
pub open spec fn shows(t: Seq<char>, c: Seq<char>) -> bool {
    c.len() > 0 && !is_space(c.last()) ==> contains(t, c)
}

proof fn lemma_kept_at_the_end(s: Seq<char>, c: Seq<char>)
    requires
        contains(s, c),
        c.len() > 0 && !is_space(c.last()),
    ensures
        contains(trimmed_end(s), c),
{
    lemma_trimmed_end(s);
    let n = choose|n: int|
        0 <= n <= s.len() && #[trigger] s.take(n) == trimmed_end(s) && forall|i: int|
            n <= i < s.len() ==> is_space(#[trigger] s[i]);
    let i = choose|i: int| occurs_at(s, c, i);
    let last = i + c.len() - 1;
    assert(s.subrange(i, i + c.len())[c.len() - 1] == s[last]);
    assert(!is_space(s[last]));
    assert(last < n);
    assert(s.take(n).subrange(i, i + c.len()) =~= s.subrange(i, i + c.len()));
    assert(occurs_at(trimmed_end(s), c, i));
}

proof fn lemma_line_shows(lines: Seq<Seq<Seq<char>>>, line: Seq<Seq<char>>, k: int)
    requires
        0 <= k < line.len(),
    ensures
        shows(table_line(lines, line), line[k]),
{
    let v = Seq::new(line.len(), |i: int| padded(line[i], widest(lines, i, lines.len() as int)));
    let s = joined(v, "  "@);
    let c = line[k];
    law_joined(v, "  "@, k);
    let w = widest(lines, k, lines.len() as int);
    lemma_itself(c);
    if c.len() < w {
        let pad = Seq::new((w - c.len()) as nat, |i: int| ' ');
        lemma_sides(c, pad, c);
        assert(padded(c, w) == c + pad);
    }
    lemma_within(s, v[k], c);
    if c.len() > 0 && !is_space(c.last()) {
        lemma_kept_at_the_end(s, c);
    }
}

proof fn lemma_lines(lines: Seq<Seq<Seq<char>>>, n: int, i: int)
    requires
        0 <= i < n <= lines.len(),
    ensures
        contains(table_upto(lines, n), table_line(lines, lines[i])),
    decreases n,
{
    let x = table_line(lines, lines[i]);
    let had = table_upto(lines, n - 1);
    let last = table_line(lines, lines[n - 1]);
    lemma_sides(had, last, x);
    lemma_sides(had + last, "\n"@, x);
    if i < n - 1 {
        lemma_lines(lines, n - 1, i);
    } else {
        lemma_itself(x);
    }
}

/// A table shows every heading and every cell of every row.
pub proof fn law_table_shows_every_cell(heads: Seq<Seq<char>>, rows: Seq<Seq<Seq<char>>>, i: int, k: int)
    ensures
        0 <= k < heads.len() ==> shows(table_shown(heads, rows), heads[k]),
        0 <= i < rows.len() && 0 <= k < rows[i].len() ==> shows(table_shown(heads, rows), rows[i][k]),
{
    let lines = seq![heads] + rows;
    let t = table_shown(heads, rows);
    if 0 <= k < heads.len() {
        lemma_lines(lines, lines.len() as int, 0);
        lemma_line_shows(lines, heads, k);
        if heads[k].len() > 0 && !is_space(heads[k].last()) {
            lemma_within(t, table_line(lines, heads), heads[k]);
        }
    }
    if 0 <= i < rows.len() && 0 <= k < rows[i].len() {
        assert(lines[i + 1] == rows[i]);
        lemma_lines(lines, lines.len() as int, i + 1);
        lemma_line_shows(lines, rows[i], k);
        if rows[i][k].len() > 0 && !is_space(rows[i][k].last()) {
            lemma_within(t, table_line(lines, rows[i]), rows[i][k]);
        }
    }
}

proof fn lemma_row_cell(rows: Seq<RowView>, i: int, k: int)
    requires
        0 <= i < rows.len(),
        0 <= k < 8,
    ensures
        shows(rows_shown(rows), row_cells(rows[i])[k]),
{
    let cells = Seq::new(rows.len(), |i: int| row_cells(rows[i]));
    law_table_shows_every_cell(headers(), cells, i, k);
    assert(cells[i] == row_cells(rows[i]));
}

/// A listing shows of each state directory its name, the workspace and environment it is for, how
/// it is, when it was booted, what it takes on disk and what is flagged of it.
pub proof fn law_listing_shows_each(rows: Seq<RowView>, i: int, f: int)
    requires
        0 <= i < rows.len(),
    ensures
        ({
            let t = rows_shown(rows);
            let r = rows[i];
            &&& shows(t, r.name)
            &&& r.workspace matches Some(w) ==> shows(t, lossy_text(w))
            &&& r.environment matches Some(e) ==> shows(t, e)
            &&& r.status == Status::Running ==> contains(t, "running"@)
            &&& r.status == Status::Stopped ==> contains(t, "stopped"@)
            &&& r.status == Status::NeverBooted ==> contains(t, "never booted"@)
            &&& r.age_secs matches Some(n) ==> shows(t, uptime_shown(n))
            &&& r.size_bytes matches Some(n) ==> shows(t, bytes_shown(n))
            &&& r.flags == seq![Flag::WorkspaceMissing] ==> contains(t, "workspace missing"@)
            &&& r.flags == seq![Flag::Ephemeral] ==> contains(t, "ephemeral"@)
        }),
{
    let t = rows_shown(rows);
    let r = rows[i];
    reveal_strlit("running");
    reveal_strlit("stopped");
    reveal_strlit("never booted");
    reveal_strlit("workspace missing");
    reveal_strlit("ephemeral");
    lemma_row_cell(rows, i, 0);
    lemma_row_cell(rows, i, 1);
    lemma_row_cell(rows, i, 2);
    lemma_row_cell(rows, i, 3);
    lemma_row_cell(rows, i, 5);
    lemma_row_cell(rows, i, 6);
    lemma_row_cell(rows, i, 7);
    assert(!is_space("running"@.last()) && !is_space("stopped"@.last()) && !is_space("never booted"@.last()));
    assert(!is_space("workspace missing"@.last()) && !is_space("ephemeral"@.last()));
    if r.flags == seq![Flag::WorkspaceMissing] {
        let l = crate::list::flag_labels(r.flags);
        assert(l =~= seq!["workspace missing"@]);
        assert(joined(l, ", "@) == l[0]);
    }
    if r.flags == seq![Flag::Ephemeral] {
        let l = crate::list::flag_labels(r.flags);
        assert(l =~= seq!["ephemeral"@]);
        assert(joined(l, ", "@) == l[0]);
    }
}

/// A list of endpoints shows of each its name, its service, where it is reached, what it reaches and
/// whether it is published.
pub proof fn law_endpoints_show_each(v: Seq<EndpointStateView>, i: int)
    requires
        0 <= i < v.len(),
    ensures
        ({
            let t = states_shown(v);
            let e = v[i];
            &&& shows(t, e.name)
            &&& e.service matches Some(s) ==> shows(t, s)
            &&& e.url matches Some(u) ==> shows(t, u)
            &&& e.url is None ==> (e.listen matches Some(l) ==> shows(t, l))
            &&& shows(t, e.to)
            &&& e.published ==> contains(t, "published"@)
            &&& !e.published ==> contains(t, "not published"@)
        }),
{
    let cells = Seq::new(v.len(), |i: int| state_cells(v[i]));
    assert(cells[i] == state_cells(v[i]));
    reveal_strlit("published");
    reveal_strlit("not published");
    assert(!is_space("published"@.last()) && !is_space("not published"@.last()));
    law_table_shows_every_cell(state_headers(), cells, i, 0);
    law_table_shows_every_cell(state_headers(), cells, i, 1);
    law_table_shows_every_cell(state_headers(), cells, i, 2);
    law_table_shows_every_cell(state_headers(), cells, i, 3);
    law_table_shows_every_cell(state_headers(), cells, i, 4);
}

proof fn lemma_unit_lines(v: Seq<UnitStatusView>, n: int, i: int)
    requires
        0 <= i < n <= v.len(),
    ensures
        contains(
            units_shown(v, n),
            padded(v[i].name, 16) + " "@ + padded(v[i].state, 9) + " "@ + v[i].ip + "\n"@,
        ),
    decreases n,
{
    let x = padded(v[i].name, 16) + " "@ + padded(v[i].state, 9) + " "@ + v[i].ip + "\n"@;
    let last = padded(v[n - 1].name, 16) + " "@ + padded(v[n - 1].state, 9) + " "@ + v[n - 1].ip + "\n"@;
    lemma_sides(units_shown(v, n - 1), last, x);
    if i < n - 1 {
        lemma_unit_lines(v, n - 1, i);
    } else {
        lemma_itself(x);
    }
}

/// The services that are up are shown with their state and address.
pub proof fn law_units_show_each(v: Seq<UnitStatusView>, i: int)
    requires
        0 <= i < v.len(),
    ensures
        contains(
            units_shown(v, v.len() as int),
            padded(v[i].name, 16) + " "@ + padded(v[i].state, 9) + " "@ + v[i].ip + "\n"@,
        ),
{
    lemma_unit_lines(v, v.len() as int, i);
}

proof fn lemma_origin_lines(v: Seq<OriginView>, files: FilesView, show_secrets: bool, n: int, i: int)
    requires
        0 <= i < n <= v.len(),
    ensures
        origins_shown(v, files, show_secrets, n) matches Some(t) ==> {
            &&& v[i].secret && !show_secrets ==> contains(
                t,
                v[i].key + " = "@ + "<redacted>"@ + "  # "@ + lossy_text(origin_file(files, v[i].layer)) + "\n"@,
            )
            &&& !v[i].secret || show_secrets ==> (written(v[i].value) matches Some(x) && contains(
                t,
                v[i].key + " = "@ + x + "  # "@ + lossy_text(origin_file(files, v[i].layer)) + "\n"@,
            ))
        },
    decreases n,
{
    if let Some(t) = origins_shown(v, files, show_secrets, n) {
        let had = origins_shown(v, files, show_secrets, n - 1)->0;
        let o = v[n - 1];
        let last = o.key + " = "@ + crate::cli::value_shown(o, show_secrets)->0 + "  # "@ + lossy_text(
            origin_file(files, o.layer),
        ) + "\n"@;
        if i < n - 1 {
            lemma_origin_lines(v, files, show_secrets, n - 1, i);
        }
        let x = v[i].key + " = "@ + crate::cli::value_shown(v[i], show_secrets)->0 + "  # "@ + lossy_text(
            origin_file(files, v[i].layer),
        ) + "\n"@;
        lemma_sides(had, last, x);
        if i == n - 1 {
            lemma_itself(x);
        }
    }
}

/// Every value of a config is shown with the file it is from, by its path in the workspace, and a
/// secret one only where that was asked for.
pub proof fn law_origins_show_each(v: Seq<OriginView>, files: FilesView, show_secrets: bool, i: int)
    requires
        0 <= i < v.len(),
    ensures
        ({
            let file = match v[i].layer {
                Layer::Local => if files.local is Some {
                    files.local->0
                } else {
                    files.config
                },
                Layer::Project => files.config,
            };
            let from = match crate::path::relative_to(file, files.workspace) {
                Some(rel) => rel,
                None => file,
            };
            origins_shown(v, files, show_secrets, v.len() as int) matches Some(t) ==> {
                &&& v[i].secret && !show_secrets ==> contains(
                    t,
                    v[i].key + " = "@ + "<redacted>"@ + "  # "@ + lossy_text(from) + "\n"@,
                )
                &&& !v[i].secret || show_secrets ==> (written(v[i].value) matches Some(x) && contains(
                    t,
                    v[i].key + " = "@ + x + "  # "@ + lossy_text(from) + "\n"@,
                ))
            }
        }),
{
    lemma_origin_lines(v, files, show_secrets, v.len() as int, i);
}

/// A row's JSON has each part of the row under its name, and a size only where it was measured.
pub proof fn law_json_of_a_row(r: RowView)
    ensures
        ({
            let j = row_json(r);
            &&& says(j, "name"@, JsonTree::Text(r.name))
            &&& says(j, "dir"@, JsonTree::Text(decode_utf8(r.dir)))
            &&& r.workspace matches Some(w) ==> says(j, "workspace"@, JsonTree::Text(decode_utf8(w)))
            &&& r.workspace is None ==> says(j, "workspace"@, JsonTree::Null)
            &&& says_text(j, "environment"@, r.environment)
            &&& r.status == Status::Running ==> says(j, "status"@, JsonTree::Text("running"@))
            &&& r.status == Status::Stopped ==> says(j, "status"@, JsonTree::Text("stopped"@))
            &&& r.status == Status::NeverBooted ==> says(j, "status"@, JsonTree::Text("never-booted"@))
            &&& says_text(j, "created_by"@, r.created_by)
            &&& r.booted_secs matches Some(n) ==> says(j, "booted_secs"@, number_json(n))
            &&& r.age_secs matches Some(n) ==> says(j, "age_secs"@, number_json(n))
            &&& r.size_bytes matches Some(n) ==> says(j, "size_bytes"@, number_json(n))
            &&& r.flags == seq![Flag::WorkspaceMissing] ==> says(
                j,
                "flags"@,
                JsonTree::Array(seq![JsonTree::Text("workspace-missing"@)]),
            )
            &&& r.flags == seq![Flag::Ephemeral] ==> says(
                j,
                "flags"@,
                JsonTree::Array(seq![JsonTree::Text("ephemeral"@)]),
            )
        }),
{
    let j = row_json(r);
    let o = j->Object_0;
    assert(o.contains(o[0]) && o.contains(o[1]) && o.contains(o[2]) && o.contains(o[3]) && o.contains(o[4]));
    assert(o.contains(o[5]) && o.contains(o[6]) && o.contains(o[7]) && o.contains(o[8]));
    assert(o[0] == ("name"@, JsonTree::Text(r.name)));
    assert(o[1] == ("dir"@, JsonTree::Text(decode_utf8(r.dir))));
    assert(o[2] == ("workspace"@, crate::list::opt_path_json(r.workspace)));
    assert(o[3] == ("environment"@, crate::planjson::opt_json(r.environment)));
    assert(o[4] == ("status"@, JsonTree::Text(r.status.spelling())));
    assert(o[5] == ("created_by"@, crate::planjson::opt_json(r.created_by)));
    assert(o[6] == ("booted_secs"@, crate::list::opt_number_json(r.booted_secs)));
    assert(o[7] == ("age_secs"@, crate::list::opt_number_json(r.age_secs)));
    let flags = crate::planjson::texts_json(crate::list::flag_spellings(r.flags));
    if r.size_bytes is Some {
        assert(o[8] == ("size_bytes"@, number_json(r.size_bytes->0)));
        assert(o[9] == ("flags"@, flags));
        assert(o.contains(o[9]));
    } else {
        assert(o[8] == ("flags"@, flags));
    }
    if r.flags == seq![Flag::WorkspaceMissing] {
        assert(flags->Array_0 =~= seq![JsonTree::Text("workspace-missing"@)]);
    }
    if r.flags == seq![Flag::Ephemeral] {
        assert(flags->Array_0 =~= seq![JsonTree::Text("ephemeral"@)]);
    }
}

} // verus!
