//! The runner's artifact: a zip whose `result.env`, `changes.patch`,
//! `name-status.txt`, `numstat.txt` and `commits.txt` the application reads.
use vstd::prelude::*;

use crate::keyed::StrMap;
use crate::messages::{localized, pick};
use crate::outside::{archive_len, entry_name, entry_text, open_archive};
use crate::runner::{env_of_lines, parse_env};
use crate::text::{append_str, chars_end_with, chars_of, ends_with, lines};

verus! {

/// The report files of the artifact.
pub enum ArtifactSlot {
    Env,
    Patch,
    NameStatus,
    Numstat,
    Commits,
}

/// A file name with backslashes turned into slashes.
pub open spec fn slash_name(name: Seq<char>) -> Seq<char> {
    name.map_values(|c: char| if c == '\\' { '/' } else { c })
}

/// The report file that an archive entry is, by the end of its name.
pub open spec fn slot_of(name: Seq<char>) -> Option<ArtifactSlot> {
    let n = slash_name(name);
    if ends_with(n, "result.env"@) {
        Some(ArtifactSlot::Env)
    } else if ends_with(n, "changes.patch"@) {
        Some(ArtifactSlot::Patch)
    } else if ends_with(n, "name-status.txt"@) {
        Some(ArtifactSlot::NameStatus)
    } else if ends_with(n, "numstat.txt"@) {
        Some(ArtifactSlot::Numstat)
    } else if ends_with(n, "commits.txt"@) {
        Some(ArtifactSlot::Commits)
    } else {
        None
    }
}

/// Which report file an archive entry is.
pub fn artifact_slot(name: &str) -> (r: Option<ArtifactSlot>)
    ensures
        r == slot_of(name@),
{
    let v = chars_of(name);
    let mut n: Vec<char> = Vec::new();
    let mut i: usize = 0;
    while i < v.len()
        invariant
            i <= v@.len(),
            n@ == slash_name(v@.take(i as int)),
        decreases v@.len() - i,
    {
        n.push(if v[i] == '\\' { '/' } else { v[i] });
        proof {
            assert(slash_name(v@.take(i + 1)) =~= slash_name(v@.take(i as int)).push(
                if v@[i as int] == '\\' { '/' } else { v@[i as int] },
            ));
        }
        i = i + 1;
    }
    assert(v@.take(v@.len() as int) == v@);
    if chars_end_with(&n, &chars_of("result.env")) {
        Some(ArtifactSlot::Env)
    } else if chars_end_with(&n, &chars_of("changes.patch")) {
        Some(ArtifactSlot::Patch)
    } else if chars_end_with(&n, &chars_of("name-status.txt")) {
        Some(ArtifactSlot::NameStatus)
    } else if chars_end_with(&n, &chars_of("numstat.txt")) {
        Some(ArtifactSlot::Numstat)
    } else if chars_end_with(&n, &chars_of("commits.txt")) {
        Some(ArtifactSlot::Commits)
    } else {
        None
    }
}

/// The texts of the report files read so far (empty when not seen).
pub struct ArtifactTexts {
    pub result_env: String,
    pub patch: String,
    pub name_status: String,
    pub numstat: String,
    pub commits: String,
}

/// The texts before any file is read.
pub fn artifact_start() -> (r: ArtifactTexts)
    ensures
        r.result_env@.len() == 0,
        r.patch@.len() == 0,
        r.name_status@.len() == 0,
        r.numstat@.len() == 0,
        r.commits@.len() == 0,
{
    ArtifactTexts {
        result_env: String::new(),
        patch: String::new(),
        name_status: String::new(),
        numstat: String::new(),
        commits: String::new(),
    }
}

/// Keeps `content` as the text of its report file; a later file of the same
/// kind replaces an earlier one.
pub fn record_artifact(texts: &mut ArtifactTexts, slot: ArtifactSlot, content: String)
    ensures
        final(texts).result_env@ == (if slot is Env { content@ } else { old(texts).result_env@ }),
        final(texts).patch@ == (if slot is Patch { content@ } else { old(texts).patch@ }),
        final(texts).name_status@ == (if slot is NameStatus { content@ } else { old(texts).name_status@ }),
        final(texts).numstat@ == (if slot is Numstat { content@ } else { old(texts).numstat@ }),
        final(texts).commits@ == (if slot is Commits { content@ } else { old(texts).commits@ }),
{
    match slot {
        ArtifactSlot::Env => texts.result_env = content,
        ArtifactSlot::Patch => texts.patch = content,
        ArtifactSlot::NameStatus => texts.name_status = content,
        ArtifactSlot::Numstat => texts.numstat = content,
        ArtifactSlot::Commits => texts.commits = content,
    }
}

/// The message for an artifact without `result.env`.
pub open spec fn missing_env_text(locale: Seq<char>) -> Seq<char> {
    pick(locale, "The runner artifact does not contain result.env"@, "В артефакте раннера отсутствует result.env"@)
}

/// The parts of an artifact: the variables of `result.env`, and the patch,
/// name-status, numstat and commit texts.
pub type ArtifactParts = (StrMap<String>, String, String, String, String);

/// The artifact's parts once its files are read; `result.env` must not be empty.
pub fn finish_artifact(texts: ArtifactTexts, locale: &str) -> (r: Result<ArtifactParts, String>)
    ensures
        r is Err <==> texts.result_env@.len() == 0,
        r matches Err(m) ==> m@ == missing_env_text(locale@),
        r matches Ok(p) ==> {
            &&& p.0.wf()
            &&& p.0.pairs() == env_of_lines(lines(texts.result_env@))
            &&& p.1@ == texts.patch@
            &&& p.2@ == texts.name_status@
            &&& p.3@ == texts.numstat@
            &&& p.4@ == texts.commits@
        },
{
    if texts.result_env.as_str().is_empty() {
        return Err(localized(
            locale,
            "The runner artifact does not contain result.env",
            "В артефакте раннера отсутствует result.env",
        ));
    }
    let env = parse_env(texts.result_env.as_str());
    Ok((env, texts.patch, texts.name_status, texts.numstat, texts.commits))
}

/// The texts of the report files as plain values: (result.env, patch,
/// name-status, numstat, commits).
pub type TextsModel = (Seq<char>, Seq<char>, Seq<char>, Seq<char>, Seq<char>);

/// The plain-value view of the texts read so far.
pub open spec fn texts_view(t: ArtifactTexts) -> TextsModel {
    (t.result_env@, t.patch@, t.name_status@, t.numstat@, t.commits@)
}

/// The texts after `content` is kept as the text of `slot`.
pub open spec fn record_model(t: TextsModel, slot: ArtifactSlot, content: Seq<char>) -> TextsModel {
    match slot {
        ArtifactSlot::Env => (content, t.1, t.2, t.3, t.4),
        ArtifactSlot::Patch => (t.0, content, t.2, t.3, t.4),
        ArtifactSlot::NameStatus => (t.0, t.1, content, t.3, t.4),
        ArtifactSlot::Numstat => (t.0, t.1, t.2, content, t.4),
        ArtifactSlot::Commits => (t.0, t.1, t.2, t.3, content),
    }
}

/// An archive entry as plain values: the outcome of reading its name, and
/// the outcome of reading its content as text.
pub type EntryModel = (Result<Seq<char>, Seq<char>>, Result<Seq<char>, Seq<char>>);

/// Reading the entries in order: each name is read, and the content of each
/// report file; the first failure ends the reading with its error text.
pub open spec fn scan_entries(entries: Seq<EntryModel>) -> Result<TextsModel, Seq<char>>
    decreases entries.len(),
{
    if entries.len() == 0 {
        Ok((seq![], seq![], seq![], seq![], seq![]))
    } else {
        match scan_entries(entries.drop_last()) {
            Err(e) => Err(e),
            Ok(t) => match entries.last().0 {
                Err(e) => Err(e),
                Ok(name) => match slot_of(name) {
                    None => Ok(t),
                    Some(slot) => match entries.last().1 {
                        Err(e) => Err(e),
                        Ok(content) => Ok(record_model(t, slot, content)),
                    },
                },
            },
        }
    }
}

/// An artifact's parts as plain values: the variables of `result.env`, and
/// the patch, name-status, numstat and commit texts.
pub type PartsModel = (Seq<(Seq<char>, Seq<char>)>, Seq<char>, Seq<char>, Seq<char>, Seq<char>);

/// What reading an artifact gives: its parts, or the message for bytes that
/// are no archive, for an entry that cannot be read, or for a missing
/// `result.env`.
pub open spec fn artifact_of(opened: Result<Seq<EntryModel>, Seq<char>>, locale: Seq<char>) -> Result<PartsModel, Seq<char>> {
    match opened {
        Err(e) => Err(
            pick(locale, "Could not open the runner artifact: "@ + e, "Не удалось открыть артефакт раннера: "@ + e),
        ),
        Ok(entries) => match scan_entries(entries) {
            Err(e) => Err(e),
            Ok(t) => if t.0.len() == 0 {
                Err(missing_env_text(locale))
            } else {
                Ok((env_of_lines(lines(t.0)), t.1, t.2, t.3, t.4))
            },
        },
    }
}

/// The plain-value view of an artifact's parts.
pub open spec fn parts_view(r: Result<ArtifactParts, String>) -> Result<PartsModel, Seq<char>> {
    match r {
        Ok(p) => Ok((p.0.pairs(), p.1@, p.2@, p.3@, p.4@)),
        Err(e) => Err(e@),
    }
}

/// Once reading has failed, reading more entries gives the same failure.
proof fn lemma_scan_error_stays(entries: Seq<EntryModel>, k: int)
    requires
        0 <= k <= entries.len(),
        scan_entries(entries.take(k)) is Err,
    ensures
        scan_entries(entries) == scan_entries(entries.take(k)),
    decreases entries.len() - k,
{
    if k < entries.len() {
        assert(entries.take(k + 1).drop_last() == entries.take(k));
        lemma_scan_error_stays(entries, k + 1);
    } else {
        assert(entries.take(k) == entries);
    }
}

/// Reads the runner's artifact: every file whose name ends with one of the
/// report names is read as text (the last of each kind is kept), then
/// `result.env` is parsed.
pub fn parse_artifact_zip(bytes: Vec<u8>, locale: &str) -> (r: Result<ArtifactParts, String>)
    ensures
        parts_view(r) == artifact_of(crate::outside::zip_open_result(bytes@), locale@),
        r matches Ok(p) ==> p.0.wf(),
{
    let ghost bytes_view = bytes@;
    let mut archive = match open_archive(bytes) {
        Ok(a) => a,
        Err(e) => {
            let mut m = localized(locale, "Could not open the runner artifact: ", "Не удалось открыть артефакт раннера: ");
            append_str(&mut m, e.as_str());
            return Err(m);
        },
    };
    let ghost entries = crate::outside::zip_entries(archive);
    let mut texts = artifact_start();
    let count = archive_len(&archive);
    let mut i: usize = 0;
    proof {
        assert(entries.take(0) =~= Seq::<EntryModel>::empty());
        assert(texts_view(texts) =~= (seq![], seq![], seq![], seq![], seq![]));
    }
    while i < count
        invariant
            i <= count,
            count == entries.len(),
            crate::outside::zip_entries(archive) == entries,
            bytes_view == bytes@,
            crate::outside::zip_open_result(bytes_view) == Ok::<Seq<EntryModel>, Seq<char>>(entries),
            scan_entries(entries.take(i as int)) == Ok::<TextsModel, Seq<char>>(texts_view(texts)),
        decreases count - i,
    {
        proof {
            assert(entries.take(i + 1).drop_last() == entries.take(i as int));
            assert(entries.take(i + 1).last() == entries[i as int]);
        }
        let name = match entry_name(&mut archive, i) {
            Ok(n) => n,
            Err(e) => {
                proof {
                    lemma_scan_error_stays(entries, i + 1);
                }
                return Err(e);
            },
        };
        match artifact_slot(name.as_str()) {
            Some(slot) => {
                let content = match entry_text(&mut archive, i) {
                    Ok(c) => c,
                    Err(e) => {
                        proof {
                            lemma_scan_error_stays(entries, i + 1);
                        }
                        return Err(e);
                    },
                };
                let ghost before = texts_view(texts);
                record_artifact(&mut texts, slot, content);
                proof {
                    assert(texts_view(texts) == record_model(before, slot, content@));
                }
            },
            None => {},
        }
        i = i + 1;
    }
    proof {
        assert(entries.take(count as int) == entries);
    }
    finish_artifact(texts, locale)
}

} // verus!
