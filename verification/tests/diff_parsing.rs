use contour_sync::diff::{parse_name_status, parse_numstat, parse_patch, DiffLine};

fn stat(map: &contour_sync::keyed::StrMap<(u64, u64, bool)>, path: &str) -> Option<(u64, u64, bool)> {
    map.get(&path.to_string()).copied()
}

#[test]
fn numstat_reads_counts_and_binary_marks() {
    let m = parse_numstat("3\t1\tsrc/a.rs\n-\t-\timg/logo.png\n0\t2\t  docs/x.md  \n");
    assert_eq!(m.len(), 3);
    assert_eq!(stat(&m, "src/a.rs"), Some((3, 1, false)));
    assert_eq!(stat(&m, "img/logo.png"), Some((0, 0, true)));
    assert_eq!(stat(&m, "docs/x.md"), Some((0, 2, false)));
}

#[test]
fn numstat_skips_short_lines_and_keeps_last() {
    let m = parse_numstat("5\tno-path\n\n1\t1\t\n2\t3\tf\n7\tx\tf\r\n");
    assert_eq!(m.len(), 1);
    assert_eq!(stat(&m, "f"), Some((7, 0, false)));
}

#[test]
fn numstat_keeps_tabs_inside_path() {
    let m = parse_numstat("1\t2\ta\tb\n");
    assert_eq!(stat(&m, "a\tb"), Some((1, 2, false)));
}

#[test]
fn name_status_reads_renames() {
    let v = parse_name_status("M\tsrc/a.rs\nR100\told.rs\tnew.rs\nA\tadded.txt\nbad-line\n\tempty-status\n");
    assert_eq!(v.len(), 4);
    assert_eq!(v[0], ("src/a.rs".to_string(), None, "M".to_string()));
    assert_eq!(v[1], ("new.rs".to_string(), Some("old.rs".to_string()), "R".to_string()));
    assert_eq!(v[2], ("added.txt".to_string(), None, "A".to_string()));
    assert_eq!(v[3], ("empty-status".to_string(), None, "M".to_string()));
}

#[test]
fn name_status_rename_without_new_path() {
    let v = parse_name_status("R\tonly-old\n");
    assert_eq!(v, vec![("only-old".to_string(), None, "R".to_string())]);
}

fn line(l: &DiffLine) -> (Option<u64>, Option<u64>, String, String) {
    (l.old_no, l.new_no, l.kind.clone(), l.text.clone())
}

fn sample_patch() -> String {
    let lines = [
        "diff --git a/src/a.rs b/src/a.rs",
        "index 1..2 100644",
        "--- a/src/a.rs",
        "+++ b/src/a.rs",
        "@@ -10,3 +10,4 @@ fn main",
        " keep",
        "-old",
        "+new",
        "+more",
        "\\ No newline at end of file",
        "diff --git a/img.png b/img.png",
        "--- a/img.png",
        "+++ b/img.png",
        "Binary files a/img.png and b/img.png differ",
        "diff --git a/gone.txt b/gone.txt",
        "--- a/gone.txt",
        "+++ /dev/null",
        "@@ -1 +0,0 @@",
        "-bye",
    ];
    let mut s = lines.join("\n");
    s.push('\n');
    s
}

#[test]
fn patch_numbers_hunk_lines() {
    let (files, binary, truncated) = parse_patch(&sample_patch());
    assert!(!truncated);
    assert_eq!(files.len(), 2);
    let a = &files.get(&"src/a.rs".to_string()).unwrap();
    let got: Vec<_> = a.iter().map(line).collect();
    assert_eq!(
        got,
        vec![
            (Some(10), Some(10), "context".to_string(), "keep".to_string()),
            (Some(11), None, "remove".to_string(), "old".to_string()),
            (None, Some(11), "add".to_string(), "new".to_string()),
            (None, Some(12), "add".to_string(), "more".to_string()),
        ]
    );
    assert!(files.get(&"img.png".to_string()).unwrap().is_empty());
    assert_eq!(binary.get(&"img.png".to_string()), Some(&true));
    assert_eq!(binary.len(), 1);
    assert!(files.get(&"gone.txt".to_string()).is_none());
}

#[test]
fn patch_stops_at_line_limit() {
    let mut text = String::from("+++ b/big.txt\n@@ -1,0 +1,20001 @@\n");
    for _ in 0..20001 {
        text.push_str("+x\n");
    }
    let (files, _, truncated) = parse_patch(&text);
    assert!(truncated);
    assert_eq!(files.get(&"big.txt".to_string()).unwrap().len(), 20000);
}

#[test]
fn patch_limit_reached_exactly_is_not_truncated() {
    let mut text = String::from("+++ b/big.txt\n@@ -1,0 +1,20000 @@\n");
    for _ in 0..20000 {
        text.push_str("+x\n");
    }
    let (files, _, truncated) = parse_patch(&text);
    assert!(!truncated);
    assert_eq!(files.get(&"big.txt".to_string()).unwrap().len(), 20000);
}

#[test]
fn patch_ignores_lines_outside_hunks() {
    let (files, binary, truncated) = parse_patch("+stray\n-stray\n@@ -1 +1 @@\n+no file\n");
    assert!(files.len() == 0 && binary.len() == 0 && !truncated);
}

#[test]
fn patch_hunk_header_with_bad_numbers_starts_at_zero() {
    let (files, _, _) = parse_patch("+++ b/f\n@@ -x +y @@\n c\n");
    let f = files.get(&"f".to_string()).unwrap();
    assert_eq!(line(&f[0]), (Some(0), Some(0), "context".to_string(), "c".to_string()));
}

#[test]
fn patch_path_without_b_prefix() {
    let (files, _, _) = parse_patch("+++ plain/path.txt\n@@ -0,0 +1 @@\n+a\n");
    assert_eq!(files.get(&"plain/path.txt".to_string()).unwrap().len(), 1);
}
