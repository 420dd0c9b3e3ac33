//! Parsing of the `git diff` outputs that the runner puts in its artifact:
//! `--numstat`, `--name-status` and the patch itself.
use vstd::prelude::*;

use crate::keyed::{append_at, ensure_key, insert_key, StrMap};
use crate::text::{chars_eq, chars_of, copy_range, find_char, index_of, lemma_index_of_bounds, lines, parse_u64_chars, parse_u64_text, range_eq, range_starts_with, split_words, starts_with, words, split_chars, split_lines, split_on, string_of, string_of_range, trim, trim_bounds};
use crate::outside::push_char;

verus! {

/// One line of a diff hunk.
pub struct DiffLine {
    pub old_no: Option<u64>,
    pub new_no: Option<u64>,
    pub kind: String,
    pub text: String,
}

impl DeepView for DiffLine {
    /// (old line number, new line number, kind, text).
    type V = (Option<u64>, Option<u64>, Seq<char>, Seq<char>);

    open spec fn deep_view(&self) -> Self::V {
        (self.old_no, self.new_no, self.kind@, self.text@)
    }
}

/// The model of a diff line.
pub type LineModel = (Option<u64>, Option<u64>, Seq<char>, Seq<char>);

/// Numstat of one file: (additions, deletions, binary).
pub type Numstat = (u64, u64, bool);

/// The value of an optional number, or 0.
pub open spec fn or_zero(n: Option<u64>) -> u64 {
    match n {
        Some(v) => v,
        None => 0,
    }
}

// ---------------------------------------------------------------------------
// --numstat
// ---------------------------------------------------------------------------

/// The numstat entries after one more line `add\tdel\tpath`; lines with
/// fewer than two tabs or an empty path are skipped, `-` marks a binary file.
pub open spec fn numstat_step(ps: Seq<(Seq<char>, Numstat)>, line: Seq<char>) -> Seq<(Seq<char>, Numstat)> {
    let i = index_of(line, '\t');
    if i >= line.len() {
        ps
    } else {
        let add = line.take(i as int);
        let rest = line.skip(i as int + 1);
        let j = index_of(rest, '\t');
        if j >= rest.len() {
            ps
        } else {
            let del = rest.take(j as int);
            let path = trim(rest.skip(j as int + 1));
            if path.len() == 0 {
                ps
            } else {
                insert_key(
                    ps,
                    path,
                    (or_zero(parse_u64_text(add)), or_zero(parse_u64_text(del)), add == "-"@ || del
                        == "-"@),
                )
            }
        }
    }
}

/// The numstat entries of a sequence of lines, later lines overriding
/// earlier ones for the same path.
pub open spec fn numstat_of_lines(ls: Seq<Seq<char>>) -> Seq<(Seq<char>, Numstat)>
    decreases ls.len(),
{
    if ls.len() == 0 {
        seq![]
    } else {
        numstat_step(numstat_of_lines(ls.drop_last()), ls.last())
    }
}

/// Reads the output of `git diff --numstat`: path → (additions, deletions, binary).
pub fn parse_numstat(text: &str) -> (r: StrMap<Numstat>)
    ensures
        r.wf(),
        r.pairs() == numstat_of_lines(lines(text@)),
{
    let v = chars_of(text);
    let ls = split_lines(&v);
    let dash = chars_of("-");
    let mut result: StrMap<Numstat> = StrMap::new();
    let mut n: usize = 0;
    while n < ls.len()
        invariant
            n <= ls@.len(),
            ls.deep_view() == lines(text@),
            dash@ == "-"@,
            result.wf(),
            result.pairs() == numstat_of_lines(ls.deep_view().take(n as int)),
        decreases ls@.len() - n,
    {
        let line = &ls[n];
        let ghost ln = line@;
        proof {
            assert(ls.deep_view()[n as int] == ln);
            assert(ls.deep_view().take(n + 1).drop_last() == ls.deep_view().take(n as int));
            assert(line.deep_view() =~= line@);
        }
        let i = find_char(line, 0, '\t');
        proof {
            assert(ln.skip(0) == ln);
        }
        if i < line.len() {
            let j = find_char(line, i + 1, '\t');
            proof {
                let rest = ln.skip(i + 1);
                assert(ln.skip(i + 1).skip(0) == rest);
                assert(line@.skip(i + 1) == rest);
                let jj = index_of(rest, '\t');
                lemma_index_of_bounds(rest, '\t');
            }
            if j < line.len() {
                let (a, b) = trim_bounds(line, j + 1, line.len());
                proof {
                    let rest = ln.skip(i + 1);
                    assert(rest.skip(j - i) == ln.subrange(j + 1, ln.len() as int));
                    assert(rest.take(j - i - 1) == ln.subrange(i + 1, j as int));
                }
                if a < b {
                    let add = copy_range(line, 0, i);
                    let del = copy_range(line, i + 1, j);
                    proof {
                        assert(ln.take(i as int) == add@);
                    }
                    let adds = parse_u64_chars(&add);
                    let dels = parse_u64_chars(&del);
                    let binary = chars_eq(&add, &dash) || chars_eq(&del, &dash);
                    let path = string_of_range(line, a, b);
                    let stat = (match adds { Some(x) => x, None => 0 }, match dels { Some(x) => x, None => 0 }, binary);
                    result.insert(path, stat);
                }
            }
        }
        n = n + 1;
    }
    proof {
        assert(ls.deep_view().take(ls@.len() as int) == ls.deep_view());
    }
    result
}


// ---------------------------------------------------------------------------
// --name-status
// ---------------------------------------------------------------------------

/// A name-status entry: (path, previous path of a rename, status letter).
pub type NameStatus = (Seq<char>, Option<Seq<char>>, Seq<char>);

/// The entry of one `--name-status` line: its tab-separated fields are the
/// status, then the path, or for a rename (`R…`) the old and the new path.
/// Lines with fewer than two fields give none.
pub open spec fn name_status_entry(line: Seq<char>) -> Option<NameStatus> {
    let parts = split_on(line, '\t');
    if parts.len() < 2 {
        None
    } else {
        let status = if parts[0].len() > 0 { seq![parts[0][0]] } else { "M"@ };
        if status == "R"@ && parts.len() >= 3 {
            Some((parts[2], Some(parts[1]), status))
        } else {
            Some((parts[1], None, status))
        }
    }
}

/// The entries of a sequence of `--name-status` lines, in order.
pub open spec fn name_status_of_lines(ls: Seq<Seq<char>>) -> Seq<NameStatus>
    decreases ls.len(),
{
    if ls.len() == 0 {
        seq![]
    } else {
        let prev = name_status_of_lines(ls.drop_last());
        match name_status_entry(ls.last()) {
            Some(e) => prev.push(e),
            None => prev,
        }
    }
}

/// A new string holding the characters of `s`.
pub fn string_from(s: &str) -> (r: String)
    ensures
        r@ == s@,
{
    s.to_owned()
}

/// Reads the output of `git diff --name-status`: (path, old path, status).
pub fn parse_name_status(text: &str) -> (r: Vec<(String, Option<String>, String)>)
    ensures
        r.deep_view() == name_status_of_lines(lines(text@)),
{
    let v = chars_of(text);
    let ls = split_lines(&v);
    let rename = chars_of("R");
    let mut result: Vec<(String, Option<String>, String)> = Vec::new();
    let mut n: usize = 0;
    while n < ls.len()
        invariant
            n <= ls@.len(),
            ls.deep_view() == lines(text@),
            rename@ == "R"@,
            result.deep_view() == name_status_of_lines(ls.deep_view().take(n as int)),
        decreases ls@.len() - n,
    {
        let line = &ls[n];
        proof {
            assert(line.deep_view() =~= line@);
            assert(ls.deep_view()[n as int] == line@);
            assert(ls.deep_view().take(n + 1).drop_last() == ls.deep_view().take(n as int));
        }
        let parts = split_chars(line, '\t');
        let ghost ps = parts.deep_view();
        if parts.len() >= 2 {
            proof {
                assert(parts[0].deep_view() =~= parts@[0]@);
                assert(parts[1].deep_view() =~= parts@[1]@);
                assert(ps[0] == parts@[0]@);
                assert(ps[1] == parts@[1]@);
            }
            let mut status = String::new();
            if parts[0].len() > 0 {
                push_char(&mut status, parts[0][0]);
                assert(status@ =~= seq![ps[0][0]]);
            } else {
                status = string_from("M");
            }
            let status_chars = chars_of(status.as_str());
            let entry: (String, Option<String>, String);
            if chars_eq(&status_chars, &rename) && parts.len() >= 3 {
                proof {
                    assert(parts[2].deep_view() =~= parts@[2]@);
                    assert(ps[2] == parts@[2]@);
                }
                entry = (string_of(&parts[2]), Some(string_of(&parts[1])), status);
            } else {
                entry = (string_of(&parts[1]), None, status);
            }
            let ghost before = result.deep_view();
            result.push(entry);
            proof {
                assert(result.deep_view() =~= before.push(entry.deep_view()));
            }
        }
        n = n + 1;
    }
    proof {
        assert(ls.deep_view().take(ls@.len() as int) == ls.deep_view());
    }
    result
}


// ---------------------------------------------------------------------------
// The patch
// ---------------------------------------------------------------------------

/// How many hunk lines the patch reader keeps before it stops.
pub const MAX_PATCH_LINES: usize = 20000;

/// `s` without its leading characters equal to `c` (`trim_start_matches`).
pub open spec fn strip_leading(s: Seq<char>, c: char) -> Seq<char>
    decreases s.len(),
{
    if s.len() > 0 && s[0] == c {
        strip_leading(s.drop_first(), c)
    } else {
        s
    }
}

/// The start line of a hunk range such as `-12,7`: the number before the
/// first comma once the leading `sign` characters are dropped, or 0.
pub open spec fn hunk_start(word: Seq<char>, sign: char) -> u64 {
    let t = strip_leading(word, sign);
    or_zero(parse_u64_text(t.take(index_of(t, ',') as int)))
}

/// The next line number; it wraps around after `u64::MAX`, as the unchecked
/// addition of an optimised build does.
pub open spec fn next_no(n: u64) -> u64 {
    if n == u64::MAX {
        0
    } else {
        (n + 1) as u64
    }
}

/// The state of the patch reader between two lines.
pub struct PatchModel {
    /// Lines of each file, in the order the files appeared.
    pub files: Seq<(Seq<char>, Seq<LineModel>)>,
    /// Files marked binary.
    pub binary: Seq<(Seq<char>, bool)>,
    /// The file whose hunks are being read (empty: none).
    pub current: Seq<char>,
    pub old_no: u64,
    pub new_no: u64,
    pub in_hunk: bool,
    /// Hunk lines kept so far.
    pub total: nat,
    /// Whether lines were left unread because the limit was reached.
    pub truncated: bool,
}

/// The reader before the first line.
pub open spec fn patch_start() -> PatchModel {
    PatchModel {
        files: seq![],
        binary: seq![],
        current: seq![],
        old_no: 0,
        new_no: 0,
        in_hunk: false,
        total: 0,
        truncated: false,
    }
}

/// The reader after one more line of the patch.
pub open spec fn patch_step(st: PatchModel, line: Seq<char>) -> PatchModel {
    if st.truncated {
        st
    } else if st.total >= MAX_PATCH_LINES {
        PatchModel { truncated: true, ..st }
    } else if starts_with(line, "diff --git "@) {
        PatchModel { current: seq![], in_hunk: false, ..st }
    } else if starts_with(line, "+++ "@) {
        let rest = line.skip("+++ "@.len() as int);
        if rest == "/dev/null"@ {
            st
        } else {
            let path = if starts_with(rest, "b/"@) {
                rest.skip("b/"@.len() as int)
            } else {
                rest
            };
            PatchModel { current: path, files: ensure_key(st.files, path), ..st }
        }
    } else if starts_with(line, "Binary files "@) || starts_with(line, "GIT binary patch"@) {
        if st.current.len() > 0 {
            PatchModel { binary: insert_key(st.binary, st.current, true), ..st }
        } else {
            st
        }
    } else if starts_with(line, "@@ "@) {
        let parts = words(line);
        if parts.len() >= 3 {
            PatchModel {
                old_no: hunk_start(parts[1], '-'),
                new_no: hunk_start(parts[2], '+'),
                in_hunk: true,
                ..st
            }
        } else {
            st
        }
    } else if !st.in_hunk || st.current.len() == 0 {
        st
    } else if starts_with(line, "\\ No newline at end of file"@) {
        st
    } else if line.len() > 0 && line[0] == '+' {
        PatchModel {
            files: append_at(st.files, st.current, (None, Some(st.new_no), "add"@, line.drop_first())),
            new_no: next_no(st.new_no),
            total: st.total + 1,
            ..st
        }
    } else if line.len() > 0 && line[0] == '-' {
        PatchModel {
            files: append_at(st.files, st.current, (Some(st.old_no), None, "remove"@, line.drop_first())),
            old_no: next_no(st.old_no),
            total: st.total + 1,
            ..st
        }
    } else if line.len() > 0 && line[0] == ' ' {
        PatchModel {
            files: append_at(
                st.files,
                st.current,
                (Some(st.old_no), Some(st.new_no), "context"@, line.drop_first()),
            ),
            old_no: next_no(st.old_no),
            new_no: next_no(st.new_no),
            total: st.total + 1,
            ..st
        }
    } else {
        st
    }
}

/// The reader after a sequence of lines.
pub open spec fn patch_of_lines(ls: Seq<Seq<char>>) -> PatchModel
    decreases ls.len(),
{
    if ls.len() == 0 {
        patch_start()
    } else {
        patch_step(patch_of_lines(ls.drop_last()), ls.last())
    }
}

/// The literal markers that the patch reader looks for.
struct PatchMarks {
    diff: Vec<char>,
    plus3: Vec<char>,
    dev_null: Vec<char>,
    b_slash: Vec<char>,
    binary_files: Vec<char>,
    git_binary: Vec<char>,
    at2: Vec<char>,
    no_newline: Vec<char>,
}

impl PatchMarks {
    spec fn valid(&self) -> bool {
        &&& self.diff@ == "diff --git "@
        &&& self.plus3@ == "+++ "@
        &&& self.dev_null@ == "/dev/null"@
        &&& self.b_slash@ == "b/"@
        &&& self.binary_files@ == "Binary files "@
        &&& self.git_binary@ == "GIT binary patch"@
        &&& self.at2@ == "@@ "@
        &&& self.no_newline@ == "\\ No newline at end of file"@
    }

    fn new() -> (r: Self)
        ensures
            r.valid(),
    {
        PatchMarks {
            diff: chars_of("diff --git "),
            plus3: chars_of("+++ "),
            dev_null: chars_of("/dev/null"),
            b_slash: chars_of("b/"),
            binary_files: chars_of("Binary files "),
            git_binary: chars_of("GIT binary patch"),
            at2: chars_of("@@ "),
            no_newline: chars_of("\\ No newline at end of file"),
        }
    }
}

/// The start line of a hunk range (see `hunk_start`).
fn hunk_start_value(word: &Vec<char>, sign: char) -> (r: u64)
    ensures
        r == hunk_start(word@, sign),
{
    let mut a: usize = 0;
    assert(word@.skip(0) == word@);
    while a < word.len() && word[a] == sign
        invariant
            a <= word@.len(),
            strip_leading(word@.skip(a as int), sign) == strip_leading(word@, sign),
        decreases word@.len() - a,
    {
        proof {
            assert(word@.skip(a as int).drop_first() == word@.skip(a + 1));
        }
        a = a + 1;
    }
    let ghost t = word@.skip(a as int);
    assert(strip_leading(t, sign) == t);
    let comma = find_char(word, a, ',');
    let digits = copy_range(word, a, comma);
    assert(t.take(index_of(t, ',') as int) == digits@);
    match parse_u64_chars(&digits) {
        Some(v) => v,
        None => 0,
    }
}

/// The next line number, wrapping around after `u64::MAX`.
fn next_line_no(n: u64) -> (r: u64)
    ensures
        r == next_no(n),
{
    if n == u64::MAX {
        0
    } else {
        n + 1
    }
}

/// The state of the patch reader.
struct PatchReader {
    files: StrMap<Vec<DiffLine>>,
    binary: StrMap<bool>,
    current: String,
    old_no: u64,
    new_no: u64,
    in_hunk: bool,
    total: usize,
    truncated: bool,
}

impl PatchReader {
    spec fn model(&self) -> PatchModel {
        PatchModel {
            files: self.files.pairs(),
            binary: self.binary.pairs(),
            current: self.current@,
            old_no: self.old_no,
            new_no: self.new_no,
            in_hunk: self.in_hunk,
            total: self.total as nat,
            truncated: self.truncated,
        }
    }

    spec fn inv(&self) -> bool {
        &&& self.files.wf()
        &&& self.binary.wf()
        &&& self.total <= MAX_PATCH_LINES
    }

    /// Appends a hunk line to the current file.
    fn keep_line(&mut self, old_no: Option<u64>, new_no: Option<u64>, kind: &str, line: &Vec<char>)
        requires
            old(self).inv(),
            old(self).total < MAX_PATCH_LINES,
            line@.len() > 0,
        ensures
            final(self).inv(),
            final(self).model() == (PatchModel {
                files: append_at(
                    old(self).model().files,
                    old(self).current@,
                    (old_no, new_no, kind@, line@.drop_first()),
                ),
                total: old(self).model().total + 1,
                ..old(self).model()
            }),
    {
        let text = string_of_range(line, 1, line.len());
        assert(line@.subrange(1, line@.len() as int) == line@.drop_first());
        let entry = DiffLine { old_no, new_no, kind: string_from(kind), text };
        self.files.append(&self.current, entry);
        self.total = self.total + 1;
    }

    /// Reads one more line.
    fn step(&mut self, line: &Vec<char>, marks: &PatchMarks)
        requires
            old(self).inv(),
            marks.valid(),
        ensures
            final(self).inv(),
            final(self).model() == patch_step(old(self).model(), line@),
    {
        let len = line.len();
        proof {
            assert(line@.subrange(0, len as int) == line@);
        }
        if self.truncated {
            return;
        }
        if self.total >= MAX_PATCH_LINES {
            self.truncated = true;
            return;
        }
        if range_starts_with(line, 0, len, &marks.diff) {
            self.current = String::new();
            self.in_hunk = false;
            return;
        }
        if range_starts_with(line, 0, len, &marks.plus3) {
            let p = marks.plus3.len();
            proof {
                assert(line@.skip(p as int) == line@.subrange(p as int, len as int));
            }
            if range_eq(line, p, len, &marks.dev_null) {
                return;
            }
            let start = if range_starts_with(line, p, len, &marks.b_slash) {
                p + marks.b_slash.len()
            } else {
                p
            };
            proof {
                let rest = line@.skip(p as int);
                if starts_with(rest, "b/"@) {
                    assert(rest.skip("b/"@.len() as int) == line@.subrange(start as int, len as int));
                }
            }
            let path = string_of_range(line, start, len);
            self.files.ensure(&path);
            self.current = path;
            return;
        }
        if range_starts_with(line, 0, len, &marks.binary_files) || range_starts_with(
            line,
            0,
            len,
            &marks.git_binary,
        ) {
            if !self.current.as_str().is_empty() {
                let key = self.current.clone();
                self.binary.insert(key, true);
            }
            return;
        }
        if range_starts_with(line, 0, len, &marks.at2) {
            let parts = split_words(line);
            if parts.len() >= 3 {
                proof {
                    assert(parts[1].deep_view() =~= parts@[1]@);
                    assert(parts[2].deep_view() =~= parts@[2]@);
                    assert(parts.deep_view()[1] == parts@[1]@);
                    assert(parts.deep_view()[2] == parts@[2]@);
                }
                self.old_no = hunk_start_value(&parts[1], '-');
                self.new_no = hunk_start_value(&parts[2], '+');
                self.in_hunk = true;
            }
            return;
        }
        if !self.in_hunk || self.current.as_str().is_empty() {
            return;
        }
        if range_starts_with(line, 0, len, &marks.no_newline) {
            return;
        }
        if len > 0 && line[0] == '+' {
            let n = self.new_no;
            self.keep_line(None, Some(n), "add", line);
            self.new_no = next_line_no(n);
        } else if len > 0 && line[0] == '-' {
            let o = self.old_no;
            self.keep_line(Some(o), None, "remove", line);
            self.old_no = next_line_no(o);
        } else if len > 0 && line[0] == ' ' {
            let o = self.old_no;
            let n = self.new_no;
            self.keep_line(Some(o), Some(n), "context", line);
            self.old_no = next_line_no(o);
            self.new_no = next_line_no(n);
        }
    }
}

/// Reads a unified diff: the hunk lines of each file (numbered in the old
/// and the new version), the files marked binary, and whether reading stopped
/// at the line limit.
pub fn parse_patch(text: &str) -> (r: (StrMap<Vec<DiffLine>>, StrMap<bool>, bool))
    ensures
        r.0.wf(),
        r.1.wf(),
        r.0.pairs() == patch_of_lines(lines(text@)).files,
        r.1.pairs() == patch_of_lines(lines(text@)).binary,
        r.2 == patch_of_lines(lines(text@)).truncated,
{
    let v = chars_of(text);
    let ls = split_lines(&v);
    let marks = PatchMarks::new();
    let mut reader = PatchReader {
        files: StrMap::new(),
        binary: StrMap::new(),
        current: String::new(),
        old_no: 0,
        new_no: 0,
        in_hunk: false,
        total: 0,
        truncated: false,
    };
    proof {
        assert(reader.model() == patch_of_lines(ls.deep_view().take(0)));
    }
    let mut n: usize = 0;
    while n < ls.len()
        invariant
            n <= ls@.len(),
            ls.deep_view() == lines(text@),
            marks.valid(),
            reader.inv(),
            reader.model() == patch_of_lines(ls.deep_view().take(n as int)),
        decreases ls@.len() - n,
    {
        proof {
            assert(ls[n as int].deep_view() =~= ls@[n as int]@);
            assert(ls.deep_view()[n as int] == ls@[n as int]@);
            assert(ls.deep_view().take(n + 1).drop_last() == ls.deep_view().take(n as int));
        }
        reader.step(&ls[n], &marks);
        n = n + 1;
    }
    proof {
        assert(ls.deep_view().take(ls@.len() as int) == ls.deep_view());
    }
    (reader.files, reader.binary, reader.truncated)
}

} // verus!
