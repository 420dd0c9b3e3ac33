//! Properties of the library as a whole.
use vstd::prelude::*;

use crate::diff::{hunk_start, next_no, patch_of_lines, strip_leading, patch_step, LineModel, MAX_PATCH_LINES};
use crate::gitflic::{branch_key, branch_model, merged_projects, project_key, projects_by_id, BranchModel, ProjectModel};
use crate::json::{as_text, field, field_of, Json};
use crate::messages::{clean_body, preview_of, PREVIEW_LIMIT};
use crate::keyed::{
    append_at, ensure_key, find_key, insert_key, keys_unique, lemma_find_key, lemma_find_key_range,
    lemma_insert_key, lookup,
};
use crate::order::{chars_lt, is_stable_order, is_stable_sort, key_le, key_lt, lemma_key_lt_total};
use crate::outside::lowercase;
use crate::runner::{env_of_lines, file_keys, strip_trailing_cr, unsorted_files, FileModel};
use crate::diff::{numstat_of_lines, or_zero};
use crate::sync::{blank, pipeline_variables_of, request_problem, SyncRequest};
use crate::text::{
    all_digits, decimal_text, decimal_value, digit_char, digit_value, index_of, is_digit,
    lemma_index_of_at, lines, parse_u64_text, starts_with, strip_cr, trim,
};

verus! {

// ---------------------------------------------------------------------------
// Tokens stay out of the runner
// ---------------------------------------------------------------------------

/// The pipeline variables of a request do not depend on its API token: the
/// token is never handed to the runner.
pub proof fn law_variables_carry_no_token(request: SyncRequest, other_token: String)
    ensures
        pipeline_variables_of(request) == pipeline_variables_of(
            SyncRequest { control_token: other_token, ..request },
        ),
{
}

/// A request that passes the checks names a supported action (`preview` or
/// `push`) and has every required field filled in.
pub proof fn law_accepted_request_is_complete(request: SyncRequest)
    requires
        request_problem(request) is None,
    ensures
        request.action@ == "preview"@ || request.action@ == "push"@,
        !blank(request.control_owner@),
        !blank(request.control_project@),
        !blank(request.control_branch@),
        !blank(request.runner_tag@),
        !blank(request.source_owner@),
        !blank(request.source_branch@),
        !blank(request.source_sha@),
        !blank(request.target_owner@),
        !blank(request.target_branch@),
{
}

// ---------------------------------------------------------------------------
// result.env
// ---------------------------------------------------------------------------

/// The variables read from any lines hold each key once.
pub proof fn lemma_env_keys_unique(ls: Seq<Seq<char>>)
    ensures
        keys_unique(env_of_lines(ls)),
    decreases ls.len(),
{
    if ls.len() > 0 {
        lemma_env_keys_unique(ls.drop_last());
        let prev = env_of_lines(ls.drop_last());
        let l = strip_trailing_cr(ls.last());
        if !(l.len() == 0 || l[0] == '#') {
            let i = index_of(l, '=');
            if i < l.len() {
                lemma_insert_key(prev, trim(l.take(i as int)), trim(l.skip(i as int + 1)));
            }
        }
    }
}

/// A `key=value` line sets `key` (trimmed) to `value` (trimmed), whatever
/// the lines before it said: the last assignment of a key wins.
pub proof fn law_env_last_assignment_wins(before: Seq<Seq<char>>, key: Seq<char>, value: Seq<char>)
    requires
        key.len() > 0,
        key[0] != '#',
        forall|i: int| 0 <= i < key.len() ==> key[i] != '=',
        value.len() > 0 ==> value.last() != '\r',
    ensures
        lookup(env_of_lines(before.push(key + "="@ + value)), trim(key)) == Some(trim(value)),
{
    reveal_strlit("=");
    let line = key + "="@ + value;
    let ls = before.push(line);
    assert(ls.drop_last() == before);
    assert(ls.last() == line);
    assert(line[key.len() as int] == '=');
    assert(strip_trailing_cr(line) == line);
    assert forall|k: int| 0 <= k < key.len() implies line[k] != '=' by {
        assert(line[k] == key[k]);
    }
    lemma_index_of_at(line, '=', key.len() as int);
    assert(line.take(key.len() as int) == key);
    assert(line.skip(key.len() as int + 1) == value);
    lemma_env_keys_unique(before);
    lemma_insert_key(env_of_lines(before), trim(key), trim(value));
}

/// The `key=value` line of an entry.
pub open spec fn env_line(e: (Seq<char>, Seq<char>)) -> Seq<char> {
    e.0 + "="@ + e.1
}

/// Entries written out as `key=value` lines, each ended by a line break.
pub open spec fn env_text(ps: Seq<(Seq<char>, Seq<char>)>) -> Seq<char>
    decreases ps.len(),
{
    if ps.len() == 0 {
        seq![]
    } else {
        env_line(ps[0]) + "\n"@ + env_text(ps.drop_first())
    }
}

/// An entry that a `key=value` line can carry: the key is not empty, is
/// trimmed, does not start a comment and holds no `=` or line break; the
/// value is trimmed and holds no line break.
pub open spec fn env_entry_ok(e: (Seq<char>, Seq<char>)) -> bool {
    &&& e.0.len() > 0
    &&& trim(e.0) == e.0
    &&& e.0[0] != '#'
    &&& forall|i: int| 0 <= i < e.0.len() ==> #[trigger] e.0[i] != '=' && e.0[i] != '\n' && e.0[i] != '\r'
    &&& trim(e.1) == e.1
    &&& forall|i: int| 0 <= i < e.1.len() ==> #[trigger] e.1[i] != '\n' && e.1[i] != '\r'
}

proof fn lemma_env_text_lines(ps: Seq<(Seq<char>, Seq<char>)>)
    requires
        forall|i: int| 0 <= i < ps.len() ==> env_entry_ok(#[trigger] ps[i]),
    ensures
        lines(env_text(ps)) == ps.map_values(|e: (Seq<char>, Seq<char>)| env_line(e)),
    decreases ps.len(),
{
    reveal_strlit("=");
    reveal_strlit("\n");
    if ps.len() > 0 {
        let rest = ps.drop_first();
        assert forall|i: int| 0 <= i < rest.len() implies env_entry_ok(#[trigger] rest[i]) by {
            assert(rest[i] == ps[i + 1]);
        }
        lemma_env_text_lines(rest);
        let e = ps[0];
        assert(env_entry_ok(e));
        let line = env_line(e);
        let s = env_text(ps);
        assert(s == line + "\n"@ + env_text(rest));
        assert forall|k: int| 0 <= k < line.len() implies line[k] != '\n' && s[k] == line[k] by {
            if k < e.0.len() {
                assert(line[k] == e.0[k]);
            } else if k > e.0.len() {
                assert(line[k] == e.1[k - e.0.len() - 1]);
            }
        }
        assert(s[line.len() as int] == '\n');
        lemma_index_of_at(s, '\n', line.len() as int);
        assert(s.take(line.len() as int) == line);
        assert(s.skip(line.len() as int + 1) == env_text(rest));
        assert(line.last() != '\r') by {
            if e.1.len() > 0 {
                assert(line.last() == e.1[e.1.len() - 1]);
            } else {
                assert(line.last() == '=');
            }
        }
        assert(strip_cr(line) == line);
        assert(ps.map_values(|e: (Seq<char>, Seq<char>)| env_line(e)) =~= seq![line] + rest.map_values(
            |e: (Seq<char>, Seq<char>)| env_line(e),
        ));
    }
}

proof fn lemma_env_lines_read_back(ps: Seq<(Seq<char>, Seq<char>)>)
    requires
        keys_unique(ps),
        forall|i: int| 0 <= i < ps.len() ==> env_entry_ok(#[trigger] ps[i]),
    ensures
        env_of_lines(ps.map_values(|e: (Seq<char>, Seq<char>)| env_line(e))) == ps,
    decreases ps.len(),
{
    reveal_strlit("=");
    let ls = ps.map_values(|e: (Seq<char>, Seq<char>)| env_line(e));
    if ps.len() == 0 {
        assert(ls =~= Seq::<Seq<char>>::empty());
    } else {
        let prev = ps.drop_last();
        assert(keys_unique(prev)) by {
            assert forall|i: int, j: int| 0 <= i < j < prev.len() implies #[trigger] prev[i].0
                != #[trigger] prev[j].0 by {
                assert(prev[i] == ps[i] && prev[j] == ps[j]);
            }
        }
        assert forall|i: int| 0 <= i < prev.len() implies env_entry_ok(#[trigger] prev[i]) by {
            assert(prev[i] == ps[i]);
        }
        lemma_env_lines_read_back(prev);
        assert(ls.drop_last() =~= prev.map_values(|e: (Seq<char>, Seq<char>)| env_line(e)));
        let e = ps.last();
        assert(env_entry_ok(ps[ps.len() - 1]));
        let line = env_line(e);
        assert(ls.last() == line);
        assert(line[e.0.len() as int] == '=');
        assert forall|k: int| 0 <= k < e.0.len() implies line[k] != '=' by {
            assert(line[k] == e.0[k]);
        }
        assert(line.last() != '\r') by {
            if e.1.len() > 0 {
                assert(line.last() == e.1[e.1.len() - 1]);
            } else {
                assert(line.last() == '=');
            }
        }
        assert(strip_trailing_cr(line) == line);
        assert(line[0] == e.0[0]);
        lemma_index_of_at(line, '=', e.0.len() as int);
        assert(line.take(e.0.len() as int) == e.0);
        assert(line.skip(e.0.len() as int + 1) == e.1);
        lemma_find_key(prev, e.0);
        assert forall|j: int| 0 <= j < prev.len() implies #[trigger] prev[j].0 != e.0 by {
            assert(prev[j] == ps[j]);
        }
        assert(insert_key(prev, e.0, e.1) == prev.push(e));
        assert(prev.push(e) =~= ps);
    }
}

/// A map written out as `key=value` lines, in any order, reads back as
/// itself: each entry is found again with its key and value, in the order
/// of the lines, when no key occurs twice, keys are non-empty, trimmed, do
/// not start with `#` and hold no `=` or line break, and values are trimmed
/// and hold no line break.
pub proof fn law_env_round_trip(ps: Seq<(Seq<char>, Seq<char>)>)
    requires
        keys_unique(ps),
        forall|i: int| 0 <= i < ps.len() ==> env_entry_ok(#[trigger] ps[i]),
    ensures
        env_of_lines(lines(env_text(ps))) == ps,
        forall|k: Seq<char>| lookup(env_of_lines(lines(env_text(ps))), k) == lookup(ps, k),
{
    lemma_env_text_lines(ps);
    lemma_env_lines_read_back(ps);
}

// ---------------------------------------------------------------------------
// The patch reader's limit
// ---------------------------------------------------------------------------

/// How many hunk lines the files hold in all.
pub open spec fn kept_lines(files: Seq<(Seq<char>, Seq<LineModel>)>) -> nat
    decreases files.len(),
{
    if files.len() == 0 {
        0
    } else {
        kept_lines(files.drop_last()) + files.last().1.len()
    }
}

proof fn lemma_kept_lines_update(files: Seq<(Seq<char>, Seq<LineModel>)>, i: int, e: (Seq<char>, Seq<LineModel>))
    requires
        0 <= i < files.len(),
    ensures
        kept_lines(files.update(i, e)) + files[i].1.len() == kept_lines(files) + e.1.len(),
    decreases files.len(),
{
    let u = files.update(i, e);
    if i == files.len() - 1 {
        assert(u.drop_last() == files.drop_last());
    } else {
        lemma_kept_lines_update(files.drop_last(), i, e);
        assert(u.drop_last() == files.drop_last().update(i, e));
    }
}

proof fn lemma_kept_lines_append(files: Seq<(Seq<char>, Seq<LineModel>)>, k: Seq<char>, x: LineModel)
    ensures
        kept_lines(append_at(files, k, x)) == kept_lines(files) + 1,
        kept_lines(ensure_key(files, k)) == kept_lines(files),
{
    lemma_find_key_range(files, k);
    let i = find_key(files, k);
    if i >= 0 {
        lemma_kept_lines_update(files, i, (k, files[i].1.push(x)));
    }
    assert(files.push((k, seq![x])).drop_last() == files);
    assert(files.push((k, Seq::<LineModel>::empty())).drop_last() == files);
}

proof fn lemma_patch_counts(ls: Seq<Seq<char>>)
    ensures
        kept_lines(patch_of_lines(ls).files) == patch_of_lines(ls).total,
        patch_of_lines(ls).total <= MAX_PATCH_LINES,
        patch_of_lines(ls).truncated ==> patch_of_lines(ls).total == MAX_PATCH_LINES,
    decreases ls.len(),
{
    if ls.len() > 0 {
        lemma_patch_counts(ls.drop_last());
        let st = patch_of_lines(ls.drop_last());
        let line = ls.last();
        if starts_with(line, "+++ "@) {
            let rest = line.skip("+++ "@.len() as int);
            let path = if starts_with(rest, "b/"@) {
                rest.skip("b/"@.len() as int)
            } else {
                rest
            };
            lemma_kept_lines_append(st.files, path, (None, None, seq![], seq![]));
        }
        lemma_kept_lines_append(st.files, st.current, (None, Some(st.new_no), "add"@, line.drop_first()));
        lemma_kept_lines_append(st.files, st.current, (Some(st.old_no), None, "remove"@, line.drop_first()));
        lemma_kept_lines_append(
            st.files,
            st.current,
            (Some(st.old_no), Some(st.new_no), "context"@, line.drop_first()),
        );
    }
}

/// The patch reader keeps at most `MAX_PATCH_LINES` hunk lines over all
/// files, and exactly that many when it reports the patch as truncated.
pub proof fn law_patch_line_limit(text: Seq<char>)
    ensures
        kept_lines(patch_of_lines(lines(text)).files) <= MAX_PATCH_LINES,
        patch_of_lines(lines(text)).truncated ==> kept_lines(patch_of_lines(lines(text)).files)
            == MAX_PATCH_LINES,
{
    lemma_patch_counts(lines(text));
}


// ---------------------------------------------------------------------------
// Response previews
// ---------------------------------------------------------------------------

proof fn lemma_clean_body(s: Seq<char>)
    ensures
        clean_body(s).len() <= s.len(),
        forall|i: int| 0 <= i < clean_body(s).len() ==> #[trigger] clean_body(s)[i] != '\r' && clean_body(s)[i] != '\0',
    decreases s.len(),
{
    if s.len() > 0 {
        lemma_clean_body(s.drop_last());
    }
}

/// A response body shown in a message never carries a carriage return or a
/// NUL character, and is no longer than `PREVIEW_LIMIT` characters and the
/// note that it was cut.
pub proof fn law_preview_is_clean_and_bounded(body: Seq<char>, locale: Seq<char>)
    ensures
        forall|i: int| 0 <= i < preview_of(body, locale).len() ==> #[trigger] preview_of(body, locale)[i] != '\r'
            && preview_of(body, locale)[i] != '\0',
        preview_of(body, locale).len() <= PREVIEW_LIMIT + "\n... response truncated ..."@.len(),
{
    reveal_strlit("\n... response truncated ...");
    reveal_strlit("\n... ответ сокращён ...");
    lemma_clean_body(body);
    let clean = clean_body(body);
    if clean.len() > PREVIEW_LIMIT {
        let p = preview_of(body, locale);
        assert forall|i: int| 0 <= i < p.len() implies #[trigger] p[i] != '\r' && p[i] != '\0' by {
            if i < PREVIEW_LIMIT {
                assert(p[i] == clean[i]);
            }
        }
    }
}

// ---------------------------------------------------------------------------
// Ordering
// ---------------------------------------------------------------------------

/// A stable sort by a key function leaves its result in order of that key:
/// files by lowercased path, branches by (default, work, name), projects by
/// (owner, name, id).
pub proof fn law_stable_sort_is_ordered<T>(out: Seq<T>, items: Seq<T>, key: spec_fn(T) -> Seq<Seq<char>>)
    requires
        is_stable_sort(out, items, items.map_values(key)),
    ensures
        forall|q: int| 0 <= q < out.len() - 1 ==> key_le(#[trigger] key(out[q]), key(out[q + 1])),
{
    let keys = items.map_values(key);
    let order = choose|order: Seq<int>|
        is_stable_order(order, keys) && out.len() == order.len() && forall|q: int|
            0 <= q < out.len() ==> #[trigger] out[q] == items[order[q]];
    assert forall|q: int| 0 <= q < out.len() - 1 implies key_le(#[trigger] key(out[q]), key(out[q + 1])) by {
        assert(out[q] == items[order[q]]);
        assert(out[q + 1] == items[order[q + 1]]);
        assert(keys[order[q]] == key(items[order[q]]));
        assert(keys[order[q + 1]] == key(items[order[q + 1]]));
    }
}

/// A stable sort puts each item of its input at one place of its output:
/// the places of two output positions are different items of the input.
pub proof fn lemma_stable_order_distinct(order: Seq<int>, keys: Seq<Seq<Seq<char>>>)
    requires
        is_stable_order(order, keys),
    ensures
        forall|q1: int, q2: int| 0 <= q1 < q2 < order.len() ==> order[q1] != order[q2],
{
    assert forall|q1: int, q2: int| 0 <= q1 < q2 < order.len() implies order[q1] != order[q2] by {
        lemma_key_lt_total(keys[order[q1]], keys[order[q2]]);
    }
}

proof fn lemma_projects_by_id(ps: Seq<ProjectModel>)
    ensures
        keys_unique(projects_by_id(ps)),
        forall|i: int| 0 <= i < projects_by_id(ps).len() ==> #[trigger] projects_by_id(ps)[i].0
            == projects_by_id(ps)[i].1.id,
    decreases ps.len(),
{
    if ps.len() > 0 {
        let prev = projects_by_id(ps.drop_last());
        lemma_projects_by_id(ps.drop_last());
        lemma_insert_key(prev, ps.last().id, ps.last());
        lemma_find_key_range(prev, ps.last().id);
    }
}

/// Listing projects shows each project id at most once.
pub proof fn law_one_project_per_id(out: Seq<ProjectModel>, owned: Seq<ProjectModel>, shared: Seq<ProjectModel>)
    requires
        is_stable_sort(
            out,
            merged_projects(owned, shared),
            merged_projects(owned, shared).map_values(|p: ProjectModel| project_key(p)),
        ),
    ensures
        forall|q1: int, q2: int| 0 <= q1 < q2 < out.len() ==> (#[trigger] out[q1]).id != (#[trigger] out[q2]).id,
{
    let merged = merged_projects(owned, shared);
    let keys = merged.map_values(|p: ProjectModel| project_key(p));
    let order = choose|order: Seq<int>|
        is_stable_order(order, keys) && out.len() == order.len() && forall|q: int|
            0 <= q < out.len() ==> #[trigger] out[q] == merged[order[q]];
    lemma_stable_order_distinct(order, keys);
    lemma_projects_by_id(owned + shared);
    let by_id = projects_by_id(owned + shared);
    assert forall|q1: int, q2: int| 0 <= q1 < q2 < out.len() implies (#[trigger] out[q1]).id != (#[trigger] out[q2]).id by {
        let a = order[q1];
        let b = order[q2];
        assert(out[q1] == merged[a] && out[q2] == merged[b]);
        assert(merged[a] == by_id[a].1 && merged[b] == by_id[b].1);
        assert(by_id[a].0 == by_id[a].1.id);
        assert(by_id[b].0 == by_id[b].1.id);
        if a < b {
            assert(by_id[a].0 != by_id[b].0);
        } else {
            assert(by_id[b].0 != by_id[a].0);
        }
    }
}

// ---------------------------------------------------------------------------
// What the runner is told
// ---------------------------------------------------------------------------

/// Each pipeline variable carries the request's field of its name: the
/// `SOURCE_*` variables the source contour's URL, owner, project, branch and
/// SHA, the `TARGET_*` ones the target contour's, so the runner copies from
/// the source to the target and never the other way round.
pub proof fn law_variables_name_their_fields(r: SyncRequest)
    ensures
        keys_unique(pipeline_variables_of(r)),
        lookup(pipeline_variables_of(r), "CONTOUR_SYNC"@) == Some("1"@),
        lookup(pipeline_variables_of(r), "SYNC_ACTION"@) == Some(r.action@),
        lookup(pipeline_variables_of(r), "SYNC_REQUEST_ID"@) == Some(r.request_id@),
        lookup(pipeline_variables_of(r), "SYNC_LOCALE"@) == Some(r.locale@),
        lookup(pipeline_variables_of(r), "RUNNER_TAG"@) == Some(r.runner_tag@),
        lookup(pipeline_variables_of(r), "SOURCE_BASE_URL"@) == Some(r.source_url@),
        lookup(pipeline_variables_of(r), "SOURCE_OWNER"@) == Some(r.source_owner@),
        lookup(pipeline_variables_of(r), "SOURCE_PROJECT"@) == Some(r.source_project@),
        lookup(pipeline_variables_of(r), "SOURCE_BRANCH"@) == Some(r.source_branch@),
        lookup(pipeline_variables_of(r), "EXPECTED_SOURCE_SHA"@) == Some(r.source_sha@),
        lookup(pipeline_variables_of(r), "TARGET_BASE_URL"@) == Some(r.target_url@),
        lookup(pipeline_variables_of(r), "TARGET_OWNER"@) == Some(r.target_owner@),
        lookup(pipeline_variables_of(r), "TARGET_PROJECT"@) == Some(r.target_project@),
        lookup(pipeline_variables_of(r), "TARGET_BRANCH"@) == Some(r.target_branch@),
        lookup(pipeline_variables_of(r), "EXPECTED_TARGET_SHA"@) == Some(
            match r.target_sha {
                Some(t) => t@,
                None => Seq::<char>::empty(),
            },
        ),
{
    reveal_strlit("CONTOUR_SYNC");
    reveal_strlit("SYNC_ACTION");
    reveal_strlit("SYNC_REQUEST_ID");
    reveal_strlit("SYNC_LOCALE");
    reveal_strlit("RUNNER_TAG");
    reveal_strlit("SOURCE_BASE_URL");
    reveal_strlit("SOURCE_OWNER");
    reveal_strlit("SOURCE_PROJECT");
    reveal_strlit("SOURCE_BRANCH");
    reveal_strlit("EXPECTED_SOURCE_SHA");
    reveal_strlit("TARGET_BASE_URL");
    reveal_strlit("TARGET_OWNER");
    reveal_strlit("TARGET_PROJECT");
    reveal_strlit("TARGET_BRANCH");
    reveal_strlit("EXPECTED_TARGET_SHA");
    let vs = pipeline_variables_of(r);
    assert(keys_unique(vs)) by {
        assert forall|i: int, j: int| 0 <= i < j < vs.len() implies #[trigger] vs[i].0 != #[trigger] vs[j].0 by {
            let a = vs[i].0;
            let b = vs[j].0;
            if a.len() == b.len() {
                assert(a[0] != b[0] || a[5] != b[5] || a[7] != b[7] || a[8] != b[8] || a[9] != b[9]);
            }
        }
    }
    assert forall|i: int| 0 <= i < vs.len() implies #[trigger] lookup(vs, vs[i].0) == Some(vs[i].1) by {
        lemma_find_key(vs, vs[i].0);
    }
    assert(vs[0].0 == "CONTOUR_SYNC"@);
    assert(vs[1].0 == "SYNC_ACTION"@);
    assert(vs[2].0 == "SYNC_REQUEST_ID"@);
    assert(vs[3].0 == "SYNC_LOCALE"@);
    assert(vs[4].0 == "RUNNER_TAG"@);
    assert(vs[5].0 == "SOURCE_BASE_URL"@);
    assert(vs[6].0 == "SOURCE_OWNER"@);
    assert(vs[7].0 == "SOURCE_PROJECT"@);
    assert(vs[8].0 == "SOURCE_BRANCH"@);
    assert(vs[9].0 == "EXPECTED_SOURCE_SHA"@);
    assert(vs[10].0 == "TARGET_BASE_URL"@);
    assert(vs[11].0 == "TARGET_OWNER"@);
    assert(vs[12].0 == "TARGET_PROJECT"@);
    assert(vs[13].0 == "TARGET_BRANCH"@);
    assert(vs[14].0 == "EXPECTED_TARGET_SHA"@);
}

// ---------------------------------------------------------------------------
// Branches and projects as listed
// ---------------------------------------------------------------------------

/// A branch read from a list item is the default branch exactly when the
/// item's member `default` is the boolean `true`, and the work branch exactly
/// when its member `work` is `true`; its name is the text member `name` and
/// its SHA the text member `hash` of `lastCommit`, and an item without these
/// two texts gives no branch.
pub proof fn law_branch_flags_from_item(v: Json)
    ensures
        branch_model(v) matches Some(b) ==> {
            &&& b.default <==> field(v, "default"@) == Some(Json::Bool(true))
            &&& b.work <==> field(v, "work"@) == Some(Json::Bool(true))
            &&& as_text(field(v, "name"@)) == Some(b.name)
            &&& as_text(field_of(field(v, "lastCommit"@), "hash"@)) == Some(b.sha)
        },
        branch_model(v) is Some <==> (as_text(field(v, "name"@)) is Some && as_text(
            field_of(field(v, "lastCommit"@), "hash"@),
        ) is Some),
{
}

/// `a <= b` in the lexicographic order of characters.
pub open spec fn chars_le(a: Seq<char>, b: Seq<char>) -> bool {
    chars_lt(a, b) || a == b
}

proof fn lemma_key3_le(a: Seq<Seq<char>>, b: Seq<Seq<char>>)
    requires
        a.len() == 3,
        b.len() == 3,
        key_le(a, b),
    ensures
        chars_le(a[0], b[0]),
        a[0] == b[0] ==> chars_le(a[1], b[1]),
        a[0] == b[0] && a[1] == b[1] ==> chars_le(a[2], b[2]),
{
    if a != b && a[0] == b[0] {
        let a1 = a.drop_first();
        let b1 = b.drop_first();
        assert(key_lt(a, b) == key_lt(a1, b1));
        assert(a1[0] == a[1] && b1[0] == b[1] && a1.len() == 2 && b1.len() == 2);
        if a[1] == b[1] {
            let a2 = a1.drop_first();
            let b2 = b1.drop_first();
            assert(key_lt(a1, b1) == key_lt(a2, b2));
            assert(a2[0] == a[2] && b2[0] == b[2] && a2.len() == 1 && b2.len() == 1);
            if a[2] == b[2] {
                assert(a =~= b);
            } else {
                assert(key_lt(a2, b2) == chars_lt(a2[0], b2[0]));
            }
        } else {
            assert(key_lt(a1, b1) == chars_lt(a1[0], b1[0]));
        }
    }
}

/// Listed projects come grouped by owner: for two neighbours the first's
/// owner is not after the second's without regard to case, and under the
/// same owner the first's name is not after the second's.
pub proof fn law_projects_by_owner_then_name(out: Seq<ProjectModel>, owned: Seq<ProjectModel>, shared: Seq<ProjectModel>)
    requires
        is_stable_sort(
            out,
            merged_projects(owned, shared),
            merged_projects(owned, shared).map_values(|p: ProjectModel| project_key(p)),
        ),
    ensures
        forall|q: int| 0 <= q < out.len() - 1 ==> chars_le(lowercase((#[trigger] out[q]).owner), lowercase(out[q + 1].owner)),
        forall|q: int| 0 <= q < out.len() - 1 && lowercase((#[trigger] out[q]).owner) == lowercase(out[q + 1].owner)
            ==> chars_le(lowercase(out[q].name), lowercase(out[q + 1].name)),
{
    law_stable_sort_is_ordered(out, merged_projects(owned, shared), |p: ProjectModel| project_key(p));
    assert forall|q: int| 0 <= q < out.len() - 1 implies chars_le(lowercase((#[trigger] out[q]).owner), lowercase(out[q + 1].owner))
        && (lowercase(out[q].owner) == lowercase(out[q + 1].owner) ==> chars_le(lowercase(out[q].name), lowercase(out[q + 1].name))) by {
        lemma_key3_le(project_key(out[q]), project_key(out[q + 1]));
    }
}

/// Listed branches come with the default branch first, then the work
/// branch, then the others by name without regard to case: for two
/// neighbours, a default branch never follows a non-default one, among
/// equals a work branch never follows a non-work one, and among equals the
/// names are in order.
pub proof fn law_branches_default_work_name(out: Seq<BranchModel>, branches: Seq<BranchModel>)
    requires
        is_stable_sort(out, branches, branches.map_values(|b: BranchModel| branch_key(b))),
    ensures
        forall|q: int| 0 <= q < out.len() - 1 ==> (#[trigger] out[q]).default || !out[q + 1].default,
        forall|q: int| 0 <= q < out.len() - 1 && (#[trigger] out[q]).default == out[q + 1].default
            ==> out[q].work || !out[q + 1].work,
        forall|q: int| 0 <= q < out.len() - 1 && (#[trigger] out[q]).default == out[q + 1].default
            && out[q].work == out[q + 1].work ==> chars_le(lowercase(out[q].name), lowercase(out[q + 1].name)),
{
    reveal_strlit("0");
    reveal_strlit("1");
    law_stable_sort_is_ordered(out, branches, |b: BranchModel| branch_key(b));
    assert forall|q: int| 0 <= q < out.len() - 1 implies {
        &&& (#[trigger] out[q]).default || !out[q + 1].default
        &&& out[q].default == out[q + 1].default ==> out[q].work || !out[q + 1].work
        &&& out[q].default == out[q + 1].default && out[q].work == out[q + 1].work ==> chars_le(
            lowercase(out[q].name),
            lowercase(out[q + 1].name),
        )
    } by {
        let a = branch_key(out[q]);
        let b = branch_key(out[q + 1]);
        lemma_key3_le(a, b);
        assert(!chars_lt("1"@, "0"@));
        assert("1"@ != "0"@);
    }
}

// ---------------------------------------------------------------------------
// Counts of the changed files
// ---------------------------------------------------------------------------

/// The (additions, deletions) that the numstat text gives for `path`, or
/// zeros when it does not list the path.
pub open spec fn numstat_counts(numstat: Seq<char>, path: Seq<char>) -> (u64, u64) {
    match lookup(numstat_of_lines(lines(numstat)), path) {
        Some(st) => (st.0, st.1),
        None => (0, 0),
    }
}

/// Every changed file of a runner result carries, as its additions and
/// deletions, the first and the second count that the numstat lists for its
/// path (zeros when the numstat does not list it).
pub proof fn law_file_counts_from_numstat(
    out: Seq<FileModel>,
    patch: Seq<char>,
    name_status: Seq<char>,
    numstat: Seq<char>,
)
    requires
        is_stable_sort(
            out,
            unsorted_files(patch, name_status, numstat),
            file_keys(unsorted_files(patch, name_status, numstat)),
        ),
    ensures
        forall|q: int| 0 <= q < out.len() ==> ((#[trigger] out[q]).3, out[q].4) == numstat_counts(numstat, out[q].0),
{
    let items = unsorted_files(patch, name_status, numstat);
    let keys = file_keys(items);
    let order = choose|order: Seq<int>|
        is_stable_order(order, keys) && out.len() == order.len() && forall|q: int|
            0 <= q < out.len() ==> #[trigger] out[q] == items[order[q]];
    assert forall|i: int| 0 <= i < items.len() implies ((#[trigger] items[i]).3, items[i].4) == numstat_counts(
        numstat,
        items[i].0,
    ) by {}
    assert forall|q: int| 0 <= q < out.len() implies ((#[trigger] out[q]).3, out[q].4) == numstat_counts(
        numstat,
        out[q].0,
    ) by {
        assert(out[q] == items[order[q]]);
    }
}

proof fn lemma_decimal_text(n: nat)
    ensures
        decimal_text(n).len() > 0,
        all_digits(decimal_text(n)),
        decimal_value(decimal_text(n)) == n,
    decreases n,
{
    if n < 10 {
        let t = decimal_text(n);
        assert(t.drop_last() =~= Seq::<char>::empty());
        assert(decimal_value(t.drop_last()) == 0);
        assert(t.last() == digit_char(n));
        assert(digit_value(digit_char(n)) == n);
        assert(decimal_value(t) == decimal_value(t.drop_last()) * 10 + digit_value(t.last()));
    } else {
        lemma_decimal_text(n / 10);
        let t = decimal_text(n);
        assert(t.drop_last() == decimal_text(n / 10));
        assert(t.last() == digit_char(n % 10));
        assert(digit_value(digit_char(n % 10)) == n % 10);
        assert(decimal_value(t) == decimal_value(decimal_text(n / 10)) * 10 + digit_value(t.last()));
        assert((n / 10) * 10 + n % 10 == n);
        assert(all_digits(t)) by {
            assert forall|i: int| 0 <= i < t.len() implies is_digit(#[trigger] t[i]) by {
                if i < t.len() - 1 {
                    assert(t[i] == decimal_text(n / 10)[i]);
                }
            }
        }
    }
}

proof fn lemma_numstat_keys_unique(ls: Seq<Seq<char>>)
    ensures
        keys_unique(numstat_of_lines(ls)),
    decreases ls.len(),
{
    if ls.len() > 0 {
        lemma_numstat_keys_unique(ls.drop_last());
        let prev = numstat_of_lines(ls.drop_last());
        let line = ls.last();
        let i = index_of(line, '\t');
        if i < line.len() {
            let add = line.take(i as int);
            let rest = line.skip(i as int + 1);
            let j = index_of(rest, '\t');
            if j < rest.len() {
                let del = rest.take(j as int);
                let path = trim(rest.skip(j as int + 1));
                lemma_insert_key(
                    prev,
                    path,
                    (or_zero(parse_u64_text(add)), or_zero(parse_u64_text(del)), add == "-"@ || del == "-"@),
                );
            }
        }
    }
}

/// A numstat line `a<TAB>d<TAB>path` lists `path` with `a` additions and `d`
/// deletions, whatever the lines before it said; `-<TAB>-<TAB>path` lists a
/// binary file with no counted lines.
pub proof fn law_numstat_line_counts(before: Seq<Seq<char>>, a: u64, d: u64, path: Seq<char>)
    requires
        path.len() > 0,
        trim(path) == path,
    ensures
        lookup(
            numstat_of_lines(before.push(decimal_text(a as nat) + "\t"@ + decimal_text(d as nat) + "\t"@ + path)),
            path,
        ) == Some((a, d, false)),
        lookup(numstat_of_lines(before.push("-\t-\t"@ + path)), path) == Some((0u64, 0u64, true)),
{
    reveal_strlit("\t");
    reveal_strlit("-");
    reveal_strlit("-\t-\t");
    lemma_numstat_keys_unique(before);
    let prev = numstat_of_lines(before);
    lemma_decimal_text(a as nat);
    lemma_decimal_text(d as nat);
    let at = decimal_text(a as nat);
    let dt = decimal_text(d as nat);
    let line = at + "\t"@ + dt + "\t"@ + path;
    let ls = before.push(line);
    assert(ls.drop_last() == before);
    assert(forall|k: int| 0 <= k < at.len() ==> #[trigger] line[k] == at[k] && is_digit(at[k]));
    lemma_index_of_at(line, '\t', at.len() as int);
    assert(line.take(at.len() as int) == at);
    let rest = line.skip(at.len() as int + 1);
    assert(rest == dt + "\t"@ + path);
    assert(forall|k: int| 0 <= k < dt.len() ==> #[trigger] rest[k] == dt[k] && is_digit(dt[k]));
    lemma_index_of_at(rest, '\t', dt.len() as int);
    assert(rest.take(dt.len() as int) == dt);
    assert(rest.skip(dt.len() as int + 1) == path);
    assert(at[0] != '+' && at != "-"@ && dt != "-"@) by {
        assert(is_digit(at[0]) && is_digit(dt[0]));
    }
    assert(parse_u64_text(at) == Some(a));
    assert(dt[0] != '+');
    assert(parse_u64_text(dt) == Some(d));
    lemma_insert_key(prev, path, (a, d, false));
    let bline = "-\t-\t"@ + path;
    let bls = before.push(bline);
    assert(bls.drop_last() == before);
    lemma_index_of_at(bline, '\t', 1);
    assert(bline.take(1) == "-"@);
    let brest = bline.skip(2);
    reveal_strlit("-\t");
    assert(brest =~= "-\t"@ + path);
    lemma_index_of_at(brest, '\t', 1);
    assert(brest.take(1) == "-"@);
    assert(brest.skip(2) == path);
    assert(parse_u64_text("-"@) is None);
    lemma_insert_key(prev, path, (0u64, 0u64, true));
}

// ---------------------------------------------------------------------------
// Line numbers of a hunk
// ---------------------------------------------------------------------------

/// A line of a hunk's body: an added (`+`), removed (`-`) or context (` `)
/// line that is not a `+++ ` file header.
pub open spec fn hunk_body_line(l: Seq<char>) -> bool {
    l.len() > 0 && (l[0] == '+' || l[0] == '-' || l[0] == ' ') && !starts_with(l, "+++ "@)
}

/// How many of the first `k` body lines belong to the old file (removed and
/// context lines).
pub open spec fn old_advances(body: Seq<Seq<char>>, k: nat) -> nat
    decreases k,
{
    if k == 0 {
        0
    } else {
        old_advances(body, (k - 1) as nat) + if body[k - 1][0] != '+' { 1nat } else { 0nat }
    }
}

/// How many of the first `k` body lines belong to the new file (added and
/// context lines).
pub open spec fn new_advances(body: Seq<Seq<char>>, k: nat) -> nat
    decreases k,
{
    if k == 0 {
        0
    } else {
        new_advances(body, (k - 1) as nat) + if body[k - 1][0] != '-' { 1nat } else { 0nat }
    }
}

/// The diff line of a body line read at old line `o` and new line `n`: an
/// added line has only a new number, a removed line only an old one.
pub open spec fn hunk_line(l: Seq<char>, o: u64, n: u64) -> LineModel {
    if l[0] == '+' {
        (None, Some(n), "add"@, l.drop_first())
    } else if l[0] == '-' {
        (Some(o), None, "remove"@, l.drop_first())
    } else {
        (Some(o), Some(n), "context"@, l.drop_first())
    }
}

/// The diff lines of a hunk body whose old and new numbering start at `o0`
/// and `n0`: each line's old number is `o0` plus the old-file lines before
/// it, its new number `n0` plus the new-file lines before it.
pub open spec fn hunk_lines(body: Seq<Seq<char>>, o0: u64, n0: u64) -> Seq<LineModel> {
    Seq::new(
        body.len(),
        |k: int| hunk_line(body[k], (o0 + old_advances(body, k as nat)) as u64, (n0 + new_advances(body, k as nat)) as u64),
    )
}

/// The lines kept for `path` (none when the path is not listed).
pub open spec fn lines_of(files: Seq<(Seq<char>, Seq<LineModel>)>, path: Seq<char>) -> Seq<LineModel> {
    match lookup(files, path) {
        Some(ls) => ls,
        None => seq![],
    }
}

proof fn lemma_find_key_update_value<W>(ps: Seq<(Seq<char>, W)>, i: int, v: W)
    requires
        0 <= i < ps.len(),
    ensures
        forall|k2: Seq<char>| #[trigger] find_key(ps.update(i, (ps[i].0, v)), k2) == find_key(ps, k2),
    decreases ps.len(),
{
    let u = ps.update(i, (ps[i].0, v));
    if i == ps.len() - 1 {
        assert(u.drop_last() =~= ps.drop_last());
    } else {
        lemma_find_key_update_value(ps.drop_last(), i, v);
        assert(u.drop_last() =~= ps.drop_last().update(i, (ps[i].0, v)));
    }
    assert forall|k2: Seq<char>| #[trigger] find_key(u, k2) == find_key(ps, k2) by {
        assert(u.last().0 == ps.last().0);
        if u.last().0 != k2 {
            assert(find_key(u, k2) == find_key(u.drop_last(), k2));
            assert(find_key(ps, k2) == find_key(ps.drop_last(), k2));
            if i < ps.len() - 1 {
                assert(find_key(ps.drop_last().update(i, (ps[i].0, v)), k2) == find_key(ps.drop_last(), k2));
            }
        }
    }
}

proof fn lemma_append_at_lines(ps: Seq<(Seq<char>, Seq<LineModel>)>, k: Seq<char>, x: LineModel)
    ensures
        lines_of(append_at(ps, k, x), k) == lines_of(ps, k).push(x),
{
    lemma_find_key_range(ps, k);
    let i = find_key(ps, k);
    if i >= 0 {
        lemma_find_key_update_value(ps, i, ps[i].1.push(x));
        assert(find_key(append_at(ps, k, x), k) == i);
    } else {
        let r = ps.push((k, seq![x]));
        assert(r.last().0 == k);
        assert(find_key(r, k) == ps.len());
        assert(seq![x] =~= Seq::<LineModel>::empty().push(x));
    }
}

proof fn lemma_advances_prefix(body: Seq<Seq<char>>, b0: Seq<Seq<char>>, k: nat)
    requires
        k <= b0.len() <= body.len(),
        forall|i: int| 0 <= i < b0.len() ==> b0[i] == body[i],
    ensures
        old_advances(b0, k) == old_advances(body, k),
        new_advances(b0, k) == new_advances(body, k),
        old_advances(body, k) <= k,
        new_advances(body, k) <= k,
    decreases k,
{
    if k > 0 {
        lemma_advances_prefix(body, b0, (k - 1) as nat);
        assert(b0[k - 1] == body[k - 1]);
    }
}

proof fn lemma_not_starts_with(s: Seq<char>, p: Seq<char>)
    requires
        s.len() > 0,
        p.len() > 0,
        s[0] != p[0],
    ensures
        !starts_with(s, p),
{
    if starts_with(s, p) {
        assert(s.take(p.len() as int)[0] == s[0]);
    }
}

/// Within a hunk, line numbers count up from the hunk's start: each removed
/// or context line has as old number the old start plus the removed and
/// context lines before it, each added or context line has as new number the
/// new start plus the added and context lines before it; an added line does
/// not advance the old numbering, nor a removed line the new one. Stated
/// for a hunk body read after a hunk header (with no line limit reached and
/// numbers that do not wrap).
pub proof fn law_hunk_numbering(pre: Seq<Seq<char>>, body: Seq<Seq<char>>)
    requires
        patch_of_lines(pre).in_hunk,
        patch_of_lines(pre).current.len() > 0,
        !patch_of_lines(pre).truncated,
        patch_of_lines(pre).total + body.len() <= MAX_PATCH_LINES,
        patch_of_lines(pre).old_no + body.len() <= u64::MAX,
        patch_of_lines(pre).new_no + body.len() <= u64::MAX,
        forall|i: int| 0 <= i < body.len() ==> hunk_body_line(#[trigger] body[i]),
    ensures
        lines_of(patch_of_lines(pre + body).files, patch_of_lines(pre).current) == lines_of(
            patch_of_lines(pre).files,
            patch_of_lines(pre).current,
        ) + hunk_lines(body, patch_of_lines(pre).old_no, patch_of_lines(pre).new_no),
        patch_of_lines(pre + body).old_no == patch_of_lines(pre).old_no + old_advances(body, body.len()),
        patch_of_lines(pre + body).new_no == patch_of_lines(pre).new_no + new_advances(body, body.len()),
        patch_of_lines(pre + body).in_hunk,
        patch_of_lines(pre + body).current == patch_of_lines(pre).current,
        !patch_of_lines(pre + body).truncated,
        patch_of_lines(pre + body).total == patch_of_lines(pre).total + body.len(),
    decreases body.len(),
{
    let st = patch_of_lines(pre);
    let cur = st.current;
    if body.len() == 0 {
        assert(pre + body =~= pre);
        assert(hunk_lines(body, st.old_no, st.new_no) =~= Seq::<LineModel>::empty());
        assert(lines_of(st.files, cur) + Seq::<LineModel>::empty() =~= lines_of(st.files, cur));
    } else {
        let b0 = body.drop_last();
        assert forall|i: int| 0 <= i < b0.len() implies hunk_body_line(#[trigger] b0[i]) by {
            assert(b0[i] == body[i]);
        }
        law_hunk_numbering(pre, b0);
        let mid = patch_of_lines(pre + b0);
        assert((pre + body).drop_last() =~= pre + b0);
        let line = body.last();
        assert((pre + body).last() == line);
        assert(hunk_body_line(body[body.len() - 1]));
        lemma_advances_prefix(body, b0, b0.len());
        let o = mid.old_no;
        let n = mid.new_no;
        assert(o == st.old_no + old_advances(body, b0.len()));
        assert(n == st.new_no + new_advances(body, b0.len()));
        assert(next_no(o) == o + 1);
        assert(next_no(n) == n + 1);
        reveal_strlit("diff --git ");
        reveal_strlit("Binary files ");
        reveal_strlit("GIT binary patch");
        reveal_strlit("@@ ");
        reveal_strlit("\\ No newline at end of file");
        lemma_not_starts_with(line, "diff --git "@);
        lemma_not_starts_with(line, "Binary files "@);
        lemma_not_starts_with(line, "GIT binary patch"@);
        lemma_not_starts_with(line, "@@ "@);
        lemma_not_starts_with(line, "\\ No newline at end of file"@);
        let x = hunk_line(line, o, n);
        lemma_append_at_lines(mid.files, cur, x);
        let end = patch_of_lines(pre + body);
        assert(end == patch_step(mid, line));
        assert(end.files == append_at(mid.files, cur, x));
        let h0 = hunk_lines(b0, st.old_no, st.new_no);
        let h = hunk_lines(body, st.old_no, st.new_no);
        assert forall|k: int| 0 <= k < b0.len() implies h[k] == h0[k] by {
            lemma_advances_prefix(body, b0, k as nat);
            assert(b0[k] == body[k]);
        }
        assert(h =~= h0.push(x));
        assert(lines_of(end.files, cur) =~= lines_of(st.files, cur) + h);
    }
}

/// A hunk range `-a,len` (or `-a`) starts the old numbering at `a`, and
/// `+b,len` (or `+b`) the new numbering at `b`.
pub proof fn law_hunk_start_of_range(a: u64, len: Seq<char>)
    ensures
        hunk_start("-"@ + decimal_text(a as nat) + ","@ + len, '-') == a,
        hunk_start("-"@ + decimal_text(a as nat), '-') == a,
        hunk_start("+"@ + decimal_text(a as nat) + ","@ + len, '+') == a,
        hunk_start("+"@ + decimal_text(a as nat), '+') == a,
{
    reveal_strlit("-");
    reveal_strlit("+");
    reveal_strlit(",");
    lemma_decimal_text(a as nat);
    let t = decimal_text(a as nat);
    assert(is_digit(t[0]));
    assert(t[0] != '+');
    assert(parse_u64_text(t) == Some(a));
    assert forall|sign: char| sign == '-' || sign == '+' implies hunk_start(seq![sign] + t + ","@ + len, sign) == a
        && hunk_start(seq![sign] + t, sign) == a by {
        let w1 = seq![sign] + t + ","@ + len;
        let w2 = seq![sign] + t;
        assert(w1.drop_first() =~= t + ","@ + len);
        assert(w2.drop_first() =~= t);
        assert(strip_leading(t + ","@ + len, sign) == t + ","@ + len) by {
            assert((t + ","@ + len)[0] == t[0]);
        }
        assert(strip_leading(t, sign) == t);
        assert(forall|k: int| 0 <= k < t.len() ==> #[trigger] (t + ","@ + len)[k] == t[k] && is_digit(t[k]));
        lemma_index_of_at(t + ","@ + len, ',', t.len() as int);
        assert((t + ","@ + len).take(t.len() as int) =~= t);
        lemma_index_of_at(t, ',', t.len() as int);
        assert(t.take(t.len() as int) =~= t);
    }
    assert("-"@ =~= seq!['-']);
    assert("+"@ =~= seq!['+']);
}

} // verus!
