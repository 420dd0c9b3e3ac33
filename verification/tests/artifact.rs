use contour_sync::artifact::{artifact_slot, artifact_start, finish_artifact, parse_artifact_zip, record_artifact, ArtifactSlot};
use std::io::Write;

#[test]
fn slots_by_name() {
    assert!(matches!(artifact_slot("out/result.env"), Some(ArtifactSlot::Env)));
    assert!(matches!(artifact_slot("out\\changes.patch"), Some(ArtifactSlot::Patch)));
    assert!(matches!(artifact_slot("name-status.txt"), Some(ArtifactSlot::NameStatus)));
    assert!(matches!(artifact_slot("x/numstat.txt"), Some(ArtifactSlot::Numstat)));
    assert!(matches!(artifact_slot("commits.txt"), Some(ArtifactSlot::Commits)));
    assert!(artifact_slot("readme.md").is_none());
    assert!(artifact_slot("result.env.bak").is_none());
}

#[test]
fn artifact_needs_result_env() {
    let texts = artifact_start();
    assert_eq!(finish_artifact(texts, "en").err(), Some("The runner artifact does not contain result.env".to_string()));
    let texts = artifact_start();
    assert_eq!(finish_artifact(texts, "ru").err(), Some("В артефакте раннера отсутствует result.env".to_string()));
}

#[test]
fn later_files_replace_earlier() {
    let mut texts = artifact_start();
    record_artifact(&mut texts, ArtifactSlot::Env, "A=1\n".to_string());
    record_artifact(&mut texts, ArtifactSlot::Env, "A=2\n".to_string());
    record_artifact(&mut texts, ArtifactSlot::Commits, "c".to_string());
    let (env, patch, _, _, commits) = finish_artifact(texts, "en").ok().unwrap();
    assert_eq!(env.get(&"A".to_string()), Some(&"2".to_string()));
    assert_eq!(patch, "");
    assert_eq!(commits, "c");
}

fn zip_of(files: &[(&str, &str)]) -> Vec<u8> {
    let mut w = zip::ZipWriter::new(std::io::Cursor::new(Vec::new()));
    let options = zip::write::SimpleFileOptions::default().compression_method(zip::CompressionMethod::Stored);
    for (name, content) in files {
        w.start_file(*name, options).unwrap();
        w.write_all(content.as_bytes()).unwrap();
    }
    w.finish().unwrap().into_inner()
}

#[test]
fn zip_artifact_is_read() {
    let bytes = zip_of(&[
        ("sync/result.env", "STATE=SYNCED\nREQUEST_ID=r\n"),
        ("sync/changes.patch", "p"),
        ("sync/name-status.txt", "M\ta"),
        ("sync/numstat.txt", "1\t0\ta"),
        ("sync/commits.txt", "c1"),
        ("sync/other.log", "ignored"),
    ]);
    let (env, patch, name_status, numstat, commits) = parse_artifact_zip(bytes, "en").ok().unwrap();
    assert_eq!(env.get(&"STATE".to_string()), Some(&"SYNCED".to_string()));
    assert_eq!((patch.as_str(), name_status.as_str(), numstat.as_str(), commits.as_str()), ("p", "M\ta", "1\t0\ta", "c1"));
}

#[test]
fn zip_without_env_is_refused() {
    let bytes = zip_of(&[("sync/changes.patch", "p")]);
    assert_eq!(parse_artifact_zip(bytes, "en").err(), Some("The runner artifact does not contain result.env".to_string()));
}

#[test]
fn bytes_that_are_no_zip_are_refused() {
    let err = parse_artifact_zip(b"not a zip".to_vec(), "en").err().unwrap();
    assert!(err.starts_with("Could not open the runner artifact: "));
    let err = parse_artifact_zip(Vec::new(), "ru").err().unwrap();
    assert!(err.starts_with("Не удалось открыть артефакт раннера: "));
}

fn zip_of_bytes(files: &[(&str, &[u8])]) -> Vec<u8> {
    let mut w = zip::ZipWriter::new(std::io::Cursor::new(Vec::new()));
    let options = zip::write::SimpleFileOptions::default().compression_method(zip::CompressionMethod::Stored);
    for (name, content) in files {
        w.start_file(*name, options).unwrap();
        w.write_all(content).unwrap();
    }
    w.finish().unwrap().into_inner()
}

#[test]
fn only_report_files_are_read_as_text() {
    let bytes = zip_of_bytes(&[("sync/image.bin", &[0xff, 0xfe, 0x00]), ("sync/result.env", b"STATE=SYNCED\n")]);
    let (env, _, _, _, _) = parse_artifact_zip(bytes, "en").ok().unwrap();
    assert_eq!(env.get(&"STATE".to_string()), Some(&"SYNCED".to_string()));
}

#[test]
fn unreadable_report_file_is_an_error() {
    let bytes = zip_of_bytes(&[("sync/result.env", b"STATE=SYNCED\n"), ("sync/changes.patch", &[0xff, 0xfe])]);
    let err = parse_artifact_zip(bytes, "en").err().unwrap();
    assert!(!err.is_empty());
    assert!(!err.starts_with("Could not open the runner artifact"));
    assert_ne!(err, "The runner artifact does not contain result.env");
}

#[test]
fn last_report_file_of_a_kind_wins() {
    let bytes = zip_of(&[("a/result.env", "STATE=ONE\n"), ("b/result.env", "STATE=TWO\n")]);
    let (env, _, _, _, _) = parse_artifact_zip(bytes, "en").ok().unwrap();
    assert_eq!(env.get(&"STATE".to_string()), Some(&"TWO".to_string()));
}
