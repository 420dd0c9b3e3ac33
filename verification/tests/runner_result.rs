use contour_sync::keyed::StrMap;
use contour_sync::runner::{build_runner_result, parse_bool, parse_env, parse_u64, PipelineJob};

fn get(env: &StrMap<String>, k: &str) -> Option<String> {
    env.get(&k.to_string()).cloned()
}

#[test]
fn env_reads_assignments() {
    let env = parse_env("# comment\nSTATE=DEV_AHEAD\r\n  KEY = some value  \nNOEQ\n\nA=1=2\nSTATE=SYNCED\n");
    assert_eq!(get(&env, "STATE"), Some("SYNCED".to_string()));
    assert_eq!(get(&env, "KEY"), Some("some value".to_string()));
    assert_eq!(get(&env, "A"), Some("1=2".to_string()));
    assert_eq!(get(&env, "NOEQ"), None);
    assert_eq!(env.len(), 3);
}

#[test]
fn env_strips_all_trailing_carriage_returns() {
    let env = parse_env("X=1\r\r\r\n");
    assert_eq!(get(&env, "X"), Some("1".to_string()));
}

#[test]
fn bool_values() {
    for t in ["1", "true", "TRUE", "yes", "YES"] {
        assert!(parse_bool(Some(&t.to_string())));
    }
    for f in ["0", "True", "y", "", "no"] {
        assert!(!parse_bool(Some(&f.to_string())));
    }
    assert!(!parse_bool(None));
}

#[test]
fn u64_values() {
    assert_eq!(parse_u64(Some(&"42".to_string())), 42);
    assert_eq!(parse_u64(Some(&"+7".to_string())), 7);
    assert_eq!(parse_u64(Some(&"18446744073709551615".to_string())), u64::MAX);
    assert_eq!(parse_u64(Some(&"18446744073709551616".to_string())), 0);
    assert_eq!(parse_u64(Some(&"-1".to_string())), 0);
    assert_eq!(parse_u64(Some(&"+".to_string())), 0);
    assert_eq!(parse_u64(Some(&"1 2".to_string())), 0);
    assert_eq!(parse_u64(Some(&"".to_string())), 0);
    assert_eq!(parse_u64(None), 0);
}

fn job() -> PipelineJob {
    PipelineJob { name: "sync".to_string(), status: "SUCCESS".to_string(), local_id: 3, stage_name: None }
}

#[test]
fn runner_result_from_name_status() {
    let env = parse_env(
        "REQUEST_ID=r1\nACTION=preview\nSTATE=DEV_AHEAD\nEXPECTED_SOURCE_SHA=aaa\nEXPECTED_TARGET_SHA=\n\
         ACTUAL_SOURCE_SHA=aaa\nPREFLIGHT_PASSED=true\nDRY_RUN_PASSED=0\nCHANGED_FILES=2\nADDITIONS=x\nMESSAGE=ok\n",
    );
    let patch = "+++ b/b.txt\n@@ -1 +1 @@\n-x\n+y\n".to_string();
    let name_status = "M\tb.txt\nA\tA.txt\nD\ta.txt\n".to_string();
    let numstat = "1\t1\tb.txt\n-\t-\tA.txt\n".to_string();
    let r = build_runner_result(
        env,
        patch,
        name_status,
        numstat,
        "c1 first\n\n   \nc2 second\n".to_string(),
        "uuid-1".to_string(),
        7,
        "SUCCESS".to_string(),
        vec![job()],
    );
    assert_eq!(r.request_id, "r1");
    assert_eq!(r.action, "preview");
    assert_eq!(r.state, "DEV_AHEAD");
    assert_eq!(r.source_sha, "aaa");
    assert_eq!(r.target_sha, None);
    assert_eq!(r.actual_source_sha, Some("aaa".to_string()));
    assert_eq!(r.actual_target_sha, None);
    assert_eq!(r.post_target_sha, None);
    assert!(r.preflight_passed);
    assert!(!r.dry_run_passed);
    assert_eq!(r.changed_files, 2);
    assert_eq!(r.additions, 0);
    assert_eq!(r.deletions, 0);
    assert_eq!(r.message, "ok");
    assert_eq!(r.pipeline_uuid, "uuid-1");
    assert_eq!(r.pipeline_local_id, 7);
    assert_eq!(r.pipeline_status, "SUCCESS");
    assert_eq!(r.commits, vec!["c1 first".to_string(), "c2 second".to_string()]);
    assert_eq!(r.jobs.len(), 1);
    assert!(!r.truncated);
    let paths: Vec<_> = r.files.iter().map(|f| f.path.clone()).collect();
    // "A.txt" and "a.txt" compare equal without case: their order is kept.
    assert_eq!(paths, vec!["A.txt", "a.txt", "b.txt"]);
    assert_eq!(r.files[0].status, "A");
    assert!(r.files[0].binary);
    assert_eq!(r.files[2].additions, 1);
    assert_eq!(r.files[2].lines.len(), 2);
    assert!(r.files[1].lines.is_empty());
}

#[test]
fn runner_result_falls_back_to_patch_files() {
    let env = parse_env("STATE_MISSING=1\n");
    let patch = "+++ b/Zeta\n@@ -1 +1 @@\n+z\n+++ b/alpha\n@@ -1 +1 @@\n+a\nBinary files x\n".to_string();
    let r = build_runner_result(
        env,
        patch,
        String::new(),
        "4\t0\talpha\n".to_string(),
        String::new(),
        "u".to_string(),
        1,
        "FAILED".to_string(),
        Vec::new(),
    );
    assert_eq!(r.state, "UNKNOWN");
    assert_eq!(r.request_id, "");
    let paths: Vec<_> = r.files.iter().map(|f| f.path.clone()).collect();
    assert_eq!(paths, vec!["alpha", "Zeta"]);
    assert_eq!(r.files[0].status, "M");
    assert_eq!(r.files[0].additions, 4);
    assert!(r.files[0].binary);
    assert!(!r.files[1].binary);
    assert!(r.commits.is_empty());
}

#[test]
fn env_written_out_reads_back_in_any_order() {
    let entries = [("STATE", "DEV_AHEAD"), ("MESSAGE", "two words"), ("EMPTY", ""), ("URL", "https://x/?a=b")];
    for order in [[0usize, 1, 2, 3], [3, 2, 1, 0], [1, 3, 0, 2]] {
        let mut text = String::new();
        for &i in &order {
            text.push_str(&format!("{}={}\n", entries[i].0, entries[i].1));
        }
        let env = parse_env(&text);
        assert_eq!(env.len(), entries.len());
        for (k, v) in entries {
            assert_eq!(env.get(&k.to_string()), Some(&v.to_string()));
        }
        for (pos, &i) in order.iter().enumerate() {
            assert_eq!(env.entries[pos].0, entries[i].0);
        }
    }
}
