//! The runner's report: its `result.env`, and the result that the
//! application shows, assembled from the report and the diff files.
use vstd::prelude::*;

use crate::diff::{
    name_status_of_lines, numstat_of_lines, parse_name_status, parse_numstat, parse_patch,
    patch_of_lines, string_from, DiffLine, LineModel, Numstat,
};
use crate::keyed::{insert_key, lookup, StrMap};
use crate::order::{is_stable_sort, stable_sort};
use crate::text::{chars_of, find_char, index_of, lines, parse_u64_chars, parse_u64_text, split_lines, string_of_range, trim, trim_bounds};
use crate::outside::{lowercase, to_lowercase};

verus! {

// ---------------------------------------------------------------------------
// result.env
// ---------------------------------------------------------------------------

/// `s` without its trailing carriage returns (`trim_end_matches('\r')`).
pub open spec fn strip_trailing_cr(s: Seq<char>) -> Seq<char>
    decreases s.len(),
{
    if s.len() > 0 && s.last() == '\r' {
        strip_trailing_cr(s.drop_last())
    } else {
        s
    }
}

/// The variables after one more `KEY=value` line; empty lines, comments
/// (`#…`) and lines without `=` leave them unchanged; key and value are
/// trimmed and a later line overrides an earlier one.
pub open spec fn env_step(ps: Seq<(Seq<char>, Seq<char>)>, line: Seq<char>) -> Seq<(Seq<char>, Seq<char>)> {
    let l = strip_trailing_cr(line);
    if l.len() == 0 || l[0] == '#' {
        ps
    } else {
        let i = index_of(l, '=');
        if i >= l.len() {
            ps
        } else {
            insert_key(ps, trim(l.take(i as int)), trim(l.skip(i as int + 1)))
        }
    }
}

/// The variables of a sequence of lines.
pub open spec fn env_of_lines(ls: Seq<Seq<char>>) -> Seq<(Seq<char>, Seq<char>)>
    decreases ls.len(),
{
    if ls.len() == 0 {
        seq![]
    } else {
        env_step(env_of_lines(ls.drop_last()), ls.last())
    }
}

/// Reads `KEY=value` lines into a map.
pub fn parse_env(text: &str) -> (r: StrMap<String>)
    ensures
        r.wf(),
        r.pairs() == env_of_lines(lines(text@)),
{
    let v = chars_of(text);
    let ls = split_lines(&v);
    let mut result: StrMap<String> = StrMap::new();
    let mut n: usize = 0;
    while n < ls.len()
        invariant
            n <= ls@.len(),
            ls.deep_view() == lines(text@),
            result.wf(),
            result.pairs() == env_of_lines(ls.deep_view().take(n as int)),
        decreases ls@.len() - n,
    {
        let line = &ls[n];
        proof {
            assert(line.deep_view() =~= line@);
            assert(ls.deep_view()[n as int] == line@);
            assert(ls.deep_view().take(n + 1).drop_last() == ls.deep_view().take(n as int));
        }
        let mut end = line.len();
        proof {
            assert(line@.take(end as int) == line@);
        }
        while end > 0 && line[end - 1] == '\r'
            invariant
                end <= line@.len(),
                strip_trailing_cr(line@.take(end as int)) == strip_trailing_cr(line@),
            decreases end,
        {
            proof {
                assert(line@.take(end as int).drop_last() == line@.take(end - 1));
            }
            end = end - 1;
        }
        let ghost l = line@.take(end as int);
        proof {
            assert(strip_trailing_cr(l) == l);
        }
        if end > 0 && line[0] != '#' {
            let eq = find_char(line, 0, '=');
            if eq < end {
                proof {
                    assert(line@.skip(0) == line@);
                    crate::text::lemma_index_of_bounds(line@, '=');
                    crate::text::lemma_index_of_at(l, '=', eq as int);
                    assert(l.take(eq as int) == line@.subrange(0, eq as int));
                    assert(l.skip(eq + 1) == line@.subrange(eq + 1, end as int));
                }
                let (ka, kb) = trim_bounds(line, 0, eq);
                let (va, vb) = trim_bounds(line, eq + 1, end);
                let key = string_of_range(line, ka, kb);
                let value = string_of_range(line, va, vb);
                result.insert(key, value);
            } else {
                proof {
                    crate::text::lemma_index_of_bounds(line@, '=');
                    assert forall|k: int| 0 <= k < end implies l[k] != '=' by {
                        assert(l[k] == line@[k]);
                    }
                    crate::text::lemma_index_of_at(l, '=', end as int);
                }
            }
        }
        n = n + 1;
    }
    proof {
        assert(ls.deep_view().take(ls@.len() as int) == ls.deep_view());
    }
    result
}

/// Whether a variable's text reads as true: `1`, `true`, `TRUE`, `yes`, `YES`.
pub open spec fn truthy(s: Seq<char>) -> bool {
    s == "1"@ || s == "true"@ || s == "TRUE"@ || s == "yes"@ || s == "YES"@
}

/// Whether an optional variable is set to a true value.
pub fn parse_bool(value: Option<&String>) -> (r: bool)
    ensures
        r == match value {
            Some(s) => truthy(s@),
            None => false,
        },
{
    match value {
        Some(s) => {
            let v = chars_of(s.as_str());
            chars_eq_str(&v, "1") || chars_eq_str(&v, "true") || chars_eq_str(&v, "TRUE")
                || chars_eq_str(&v, "yes") || chars_eq_str(&v, "YES")
        },
        None => false,
    }
}

/// Whether `v` holds the characters of `s`.
pub fn chars_eq_str(v: &Vec<char>, s: &str) -> (r: bool)
    ensures
        r == (v@ == s@),
{
    let w = chars_of(s);
    crate::text::chars_eq(v, &w)
}

/// An optional variable read as a number, 0 when absent or not a number.
pub fn parse_u64(value: Option<&String>) -> (r: u64)
    ensures
        r == match value {
            Some(s) => match parse_u64_text(s@) {
                Some(n) => n,
                None => 0,
            },
            None => 0,
        },
{
    match value {
        Some(s) => {
            let v = chars_of(s.as_str());
            match parse_u64_chars(&v) {
                Some(n) => n,
                None => 0,
            }
        },
        None => 0,
    }
}


// ---------------------------------------------------------------------------
// The result shown to the user
// ---------------------------------------------------------------------------

/// One changed file of the preview.
pub struct DiffFile {
    pub path: String,
    pub old_path: Option<String>,
    pub status: String,
    pub additions: u64,
    pub deletions: u64,
    pub binary: bool,
    pub lines: Vec<DiffLine>,
}

/// The model of a changed file:
/// (path, old path, status, additions, deletions, binary, lines).
pub type FileModel = (Seq<char>, Option<Seq<char>>, Seq<char>, u64, u64, bool, Seq<LineModel>);

impl DeepView for DiffFile {
    type V = FileModel;

    open spec fn deep_view(&self) -> FileModel {
        (
            self.path@,
            match self.old_path {
                Some(p) => Some(p@),
                None => None,
            },
            self.status@,
            self.additions,
            self.deletions,
            self.binary,
            self.lines.deep_view(),
        )
    }
}

/// A job of the pipeline, as GitFlic lists it.
pub struct PipelineJob {
    pub name: String,
    pub status: String,
    pub local_id: u64,
    pub stage_name: Option<String>,
}

/// What a preview or push returned.
pub struct RunnerResult {
    pub request_id: String,
    pub pipeline_uuid: String,
    pub pipeline_local_id: u64,
    pub pipeline_status: String,
    pub action: String,
    pub state: String,
    pub source_sha: String,
    pub target_sha: Option<String>,
    pub actual_source_sha: Option<String>,
    pub actual_target_sha: Option<String>,
    pub post_target_sha: Option<String>,
    pub preflight_passed: bool,
    pub dry_run_passed: bool,
    pub changed_files: u64,
    pub additions: u64,
    pub deletions: u64,
    pub message: String,
    pub files: Vec<DiffFile>,
    pub commits: Vec<String>,
    pub jobs: Vec<PipelineJob>,
    pub truncated: bool,
}

/// The numstat of `path`, or zeros.
pub open spec fn stat_of(stats: Seq<(Seq<char>, Numstat)>, path: Seq<char>) -> Numstat {
    match lookup(stats, path) {
        Some(st) => st,
        None => (0, 0, false),
    }
}

/// Whether `path` is marked binary by the patch.
pub open spec fn marked_binary(binary: Seq<(Seq<char>, bool)>, path: Seq<char>) -> bool {
    lookup(binary, path) == Some(true)
}

/// The file entry of a name-status entry, with its numstat and patch lines.
pub open spec fn file_of_status(
    stats: Seq<(Seq<char>, Numstat)>,
    binary: Seq<(Seq<char>, bool)>,
    patch_files: Seq<(Seq<char>, Seq<LineModel>)>,
    e: (Seq<char>, Option<Seq<char>>, Seq<char>),
) -> FileModel {
    let st = stat_of(stats, e.0);
    (
        e.0,
        e.1,
        e.2,
        st.0,
        st.1,
        st.2 || marked_binary(binary, e.0),
        match lookup(patch_files, e.0) {
            Some(ls) => ls,
            None => seq![],
        },
    )
}

/// The file entry of a file that only the patch shows (status `M`).
pub open spec fn file_of_patch(
    stats: Seq<(Seq<char>, Numstat)>,
    binary: Seq<(Seq<char>, bool)>,
    e: (Seq<char>, Seq<LineModel>),
) -> FileModel {
    let st = stat_of(stats, e.0);
    (e.0, None, "M"@, st.0, st.1, st.2 || marked_binary(binary, e.0), e.1)
}

/// The changed files before sorting: one per name-status entry, or, when
/// there is none, one per file of the patch.
pub open spec fn unsorted_files(patch: Seq<char>, name_status: Seq<char>, numstat: Seq<char>) -> Seq<FileModel> {
    let stats = numstat_of_lines(lines(numstat));
    let statuses = name_status_of_lines(lines(name_status));
    let pm = patch_of_lines(lines(patch));
    if statuses.len() > 0 {
        statuses.map_values(|e: (Seq<char>, Option<Seq<char>>, Seq<char>)| file_of_status(stats, pm.binary, pm.files, e))
    } else {
        pm.files.map_values(|e: (Seq<char>, Seq<LineModel>)| file_of_patch(stats, pm.binary, e))
    }
}

/// The sort key of a file: its lowercased path.
pub open spec fn file_keys(fs: Seq<FileModel>) -> Seq<Seq<Seq<char>>> {
    fs.map_values(|f: FileModel| seq![lowercase(f.0)])
}

/// The non-blank lines of a sequence of lines.
pub open spec fn nonblank_lines(ls: Seq<Seq<char>>) -> Seq<Seq<char>>
    decreases ls.len(),
{
    if ls.len() == 0 {
        seq![]
    } else if trim(ls.last()).len() > 0 {
        nonblank_lines(ls.drop_last()).push(ls.last())
    } else {
        nonblank_lines(ls.drop_last())
    }
}

/// The text of an optional variable, or `default`.
pub open spec fn text_or(v: Option<Seq<char>>, default: Seq<char>) -> Seq<char> {
    match v {
        Some(t) => t,
        None => default,
    }
}

/// An optional variable, absent when empty.
pub open spec fn non_empty(v: Option<Seq<char>>) -> Option<Seq<char>> {
    match v {
        Some(t) => if t.len() > 0 { Some(t) } else { None },
        None => None,
    }
}

/// The view of an optional string.
pub open spec fn opt_view(v: Option<String>) -> Option<Seq<char>> {
    match v {
        Some(t) => Some(t@),
        None => None,
    }
}

/// A copy of a list of diff lines.
pub fn copy_lines(v: &Vec<DiffLine>) -> (r: Vec<DiffLine>)
    ensures
        r.deep_view() == v.deep_view(),
{
    let mut r: Vec<DiffLine> = Vec::new();
    let mut i: usize = 0;
    while i < v.len()
        invariant
            i <= v@.len(),
            r.deep_view() == v.deep_view().take(i as int),
        decreases v@.len() - i,
    {
        let l = &v[i];
        let c = DiffLine { old_no: l.old_no, new_no: l.new_no, kind: l.kind.clone(), text: l.text.clone() };
        let ghost before = r.deep_view();
        r.push(c);
        proof {
            assert(r.deep_view() =~= before.push(c.deep_view()));
            assert(v.deep_view().take(i + 1) =~= v.deep_view().take(i as int).push(v@[i as int].deep_view()));
        }
        i = i + 1;
    }
    proof {
        assert(v.deep_view().take(v@.len() as int) =~= v.deep_view());
    }
    r
}

/// A copy of an optional string.
fn copy_opt(v: &Option<String>) -> (r: Option<String>)
    ensures
        opt_view(r) == opt_view(*v),
{
    match v {
        Some(s) => Some(s.clone()),
        None => None,
    }
}

/// The text of variable `key`, or `default`.
fn env_text(env: &StrMap<String>, key: &str, default: &str) -> (r: String)
    requires
        env.wf(),
    ensures
        r@ == text_or(lookup(env.pairs(), key@), default@),
{
    let k = string_from(key);
    match env.get(&k) {
        Some(v) => v.clone(),
        None => string_from(default),
    }
}

/// The text of variable `key` when it is set and not empty.
fn env_non_empty(env: &StrMap<String>, key: &str) -> (r: Option<String>)
    requires
        env.wf(),
    ensures
        opt_view(r) == non_empty(lookup(env.pairs(), key@)),
{
    let k = string_from(key);
    match env.get(&k) {
        Some(v) => if v.as_str().is_empty() { None } else { Some(v.clone()) },
        None => None,
    }
}

/// The non-blank lines of `text`.
pub fn nonblank_lines_of(text: &str) -> (r: Vec<String>)
    ensures
        r.deep_view() == nonblank_lines(lines(text@)),
{
    let v = chars_of(text);
    let ls = split_lines(&v);
    let mut r: Vec<String> = Vec::new();
    let mut n: usize = 0;
    while n < ls.len()
        invariant
            n <= ls@.len(),
            ls.deep_view() == lines(text@),
            r.deep_view() == nonblank_lines(ls.deep_view().take(n as int)),
        decreases ls@.len() - n,
    {
        let line = &ls[n];
        proof {
            assert(line.deep_view() =~= line@);
            assert(ls.deep_view()[n as int] == line@);
            assert(ls.deep_view().take(n + 1).drop_last() == ls.deep_view().take(n as int));
            assert(line@.subrange(0, line@.len() as int) == line@);
        }
        let (a, b) = trim_bounds(line, 0, line.len());
        if a < b {
            let s = crate::text::string_of(line);
            let ghost before = r.deep_view();
            r.push(s);
            proof {
                assert(r.deep_view() =~= before.push(line@));
            }
        }
        n = n + 1;
    }
    proof {
        assert(ls.deep_view().take(ls@.len() as int) == ls.deep_view());
    }
    r
}

/// Assembles the result of a runner job from its `result.env` variables,
/// its patch, name-status, numstat and commit list, and the pipeline's data.
/// Files are listed by name-status (or by the patch when name-status lists
/// none) and sorted by lowercased path, ties keeping their order.
pub fn build_runner_result(
    env: StrMap<String>,
    patch: String,
    name_status: String,
    numstat: String,
    commits_text: String,
    pipeline_uuid: String,
    pipeline_local_id: u64,
    pipeline_status: String,
    jobs: Vec<PipelineJob>,
) -> (r: RunnerResult)
    requires
        env.wf(),
    ensures
        is_stable_sort(
            r.files.deep_view(),
            unsorted_files(patch@, name_status@, numstat@),
            file_keys(unsorted_files(patch@, name_status@, numstat@)),
        ),
        r.truncated == patch_of_lines(lines(patch@)).truncated,
        r.commits.deep_view() == nonblank_lines(lines(commits_text@)),
        r.jobs@ == jobs@,
        r.pipeline_uuid@ == pipeline_uuid@,
        r.pipeline_local_id == pipeline_local_id,
        r.pipeline_status@ == pipeline_status@,
        r.request_id@ == text_or(lookup(env.pairs(), "REQUEST_ID"@), seq![]),
        r.action@ == text_or(lookup(env.pairs(), "ACTION"@), seq![]),
        r.state@ == text_or(lookup(env.pairs(), "STATE"@), "UNKNOWN"@),
        r.source_sha@ == text_or(lookup(env.pairs(), "EXPECTED_SOURCE_SHA"@), seq![]),
        opt_view(r.target_sha) == non_empty(lookup(env.pairs(), "EXPECTED_TARGET_SHA"@)),
        opt_view(r.actual_source_sha) == non_empty(lookup(env.pairs(), "ACTUAL_SOURCE_SHA"@)),
        opt_view(r.actual_target_sha) == non_empty(lookup(env.pairs(), "ACTUAL_TARGET_SHA"@)),
        opt_view(r.post_target_sha) == non_empty(lookup(env.pairs(), "POST_TARGET_SHA"@)),
        r.preflight_passed == (lookup(env.pairs(), "PREFLIGHT_PASSED"@) matches Some(v) && truthy(v)),
        r.dry_run_passed == (lookup(env.pairs(), "DRY_RUN_PASSED"@) matches Some(v) && truthy(v)),
        r.changed_files == or_zero_text(lookup(env.pairs(), "CHANGED_FILES"@)),
        r.additions == or_zero_text(lookup(env.pairs(), "ADDITIONS"@)),
        r.deletions == or_zero_text(lookup(env.pairs(), "DELETIONS"@)),
        r.message@ == text_or(lookup(env.pairs(), "MESSAGE"@), seq![]),
{
    let stats = parse_numstat(numstat.as_str());
    let statuses = parse_name_status(name_status.as_str());
    let (patch_lines, binary_map, truncated) = parse_patch(patch.as_str());
    let ghost sv = stats.pairs();
    let ghost bv = binary_map.pairs();
    let ghost fv = patch_lines.pairs();
    let ghost unsorted = unsorted_files(patch@, name_status@, numstat@);
    let mut files: Vec<DiffFile> = Vec::new();
    let mut keys: Vec<Vec<Vec<char>>> = Vec::new();
    if statuses.len() > 0 {
        let mut i: usize = 0;
        while i < statuses.len()
            invariant
                i <= statuses@.len(),
                stats.wf(),
                binary_map.wf(),
                patch_lines.wf(),
                sv == stats.pairs(),
                bv == binary_map.pairs(),
                fv == patch_lines.pairs(),
                files.deep_view() == statuses.deep_view().take(i as int).map_values(
                    |e: (Seq<char>, Option<Seq<char>>, Seq<char>)| file_of_status(sv, bv, fv, e),
                ),
                keys.deep_view() == file_keys(files.deep_view()),
            decreases statuses@.len() - i,
        {
            let e = &statuses[i];
            let ghost ev = e.deep_view();
            let (additions, deletions, binary_stat) = match stats.get(&e.0) {
                Some(st) => *st,
                None => (0, 0, false),
            };
            let marked = match binary_map.get(&e.0) {
                Some(b) => *b,
                None => false,
            };
            let lines = match patch_lines.get(&e.0) {
                Some(ls) => copy_lines(ls),
                None => Vec::new(),
            };
            let file = DiffFile {
                path: e.0.clone(),
                old_path: copy_opt(&e.1),
                status: e.2.clone(),
                additions,
                deletions,
                binary: binary_stat || marked,
                lines,
            };
            let lower = to_lowercase(e.0.as_str());
            let kc = chars_of(lower.as_str());
            proof {
                assert(kc.deep_view() =~= kc@);
            }
            let mut key: Vec<Vec<char>> = Vec::new();
            key.push(kc);
            let ghost before = files.deep_view();
            let ghost before_keys = keys.deep_view();
            proof {
                assert(lines.deep_view() =~= match lookup(fv, e.0@) { Some(ls) => ls, None => seq![] });
                assert(ev == statuses.deep_view()[i as int]);
                assert(file.deep_view() == file_of_status(sv, bv, fv, ev));
                assert(key.deep_view() =~= seq![lowercase(e.0@)]);
            }
            files.push(file);
            keys.push(key);
            proof {
                assert(files.deep_view() =~= before.push(file.deep_view()));
                assert(keys.deep_view() =~= before_keys.push(key.deep_view()));
                assert(statuses.deep_view().take(i + 1) =~= statuses.deep_view().take(i as int).push(ev));
                assert(file_keys(files.deep_view()) =~= file_keys(before).push(seq![lowercase(e.0@)]));
            }
            i = i + 1;
        }
        proof {
            assert(statuses.deep_view().take(statuses@.len() as int) =~= statuses.deep_view());
        }
    } else {
        let mut i: usize = 0;
        while i < patch_lines.len()
            invariant
                i <= fv.len(),
                stats.wf(),
                binary_map.wf(),
                patch_lines.wf(),
                sv == stats.pairs(),
                bv == binary_map.pairs(),
                fv == patch_lines.pairs(),
                files.deep_view() == fv.take(i as int).map_values(
                    |e: (Seq<char>, Seq<LineModel>)| file_of_patch(sv, bv, e),
                ),
                keys.deep_view() == file_keys(files.deep_view()),
            decreases fv.len() - i,
        {
            let e = &patch_lines.entries[i];
            let ghost ev = fv[i as int];
            let (additions, deletions, binary_stat) = match stats.get(&e.0) {
                Some(st) => *st,
                None => (0, 0, false),
            };
            let marked = match binary_map.get(&e.0) {
                Some(b) => *b,
                None => false,
            };
            let file = DiffFile {
                path: e.0.clone(),
                old_path: None,
                status: string_from("M"),
                additions,
                deletions,
                binary: binary_stat || marked,
                lines: copy_lines(&e.1),
            };
            let lower = to_lowercase(e.0.as_str());
            let kc = chars_of(lower.as_str());
            proof {
                assert(kc.deep_view() =~= kc@);
            }
            let mut key: Vec<Vec<char>> = Vec::new();
            key.push(kc);
            let ghost before = files.deep_view();
            let ghost before_keys = keys.deep_view();
            proof {
                assert(file.deep_view() == file_of_patch(sv, bv, ev));
                assert(key.deep_view() =~= seq![lowercase(e.0@)]);
            }
            files.push(file);
            keys.push(key);
            proof {
                assert(files.deep_view() =~= before.push(file.deep_view()));
                assert(keys.deep_view() =~= before_keys.push(key.deep_view()));
                assert(fv.take(i + 1) =~= fv.take(i as int).push(ev));
                assert(file_keys(files.deep_view()) =~= file_keys(before).push(seq![lowercase(e.0@)]));
            }
            i = i + 1;
        }
        proof {
            assert(fv.take(fv.len() as int) =~= fv);
        }
    }
    proof {
        assert(files.deep_view() == unsorted);
    }
    let files = stable_sort(files, keys);
    proof {
        reveal_strlit("");
    }
    let commits = nonblank_lines_of(commits_text.as_str());
    RunnerResult {
        request_id: env_text(&env, "REQUEST_ID", ""),
        pipeline_uuid,
        pipeline_local_id,
        pipeline_status,
        action: env_text(&env, "ACTION", ""),
        state: env_text(&env, "STATE", "UNKNOWN"),
        source_sha: env_text(&env, "EXPECTED_SOURCE_SHA", ""),
        target_sha: env_non_empty(&env, "EXPECTED_TARGET_SHA"),
        actual_source_sha: env_non_empty(&env, "ACTUAL_SOURCE_SHA"),
        actual_target_sha: env_non_empty(&env, "ACTUAL_TARGET_SHA"),
        post_target_sha: env_non_empty(&env, "POST_TARGET_SHA"),
        preflight_passed: parse_bool(env.get(&string_from("PREFLIGHT_PASSED"))),
        dry_run_passed: parse_bool(env.get(&string_from("DRY_RUN_PASSED"))),
        changed_files: parse_u64(env.get(&string_from("CHANGED_FILES"))),
        additions: parse_u64(env.get(&string_from("ADDITIONS"))),
        deletions: parse_u64(env.get(&string_from("DELETIONS"))),
        message: env_text(&env, "MESSAGE", ""),
        files,
        commits,
        jobs,
        truncated,
    }
}

/// A variable read as a number, 0 when absent or not a number.
pub open spec fn or_zero_text(v: Option<Seq<char>>) -> u64 {
    match v {
        Some(t) => match parse_u64_text(t) {
            Some(n) => n,
            None => 0,
        },
        None => 0,
    }
}

} // verus!
