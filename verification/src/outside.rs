//! Calls into the outside crates (`url`, `reqwest`'s HTTP types, `zip`),
//! each with the contract that the crate's source supports.
use vstd::prelude::*;

use std::io::Cursor;
use std::io::Read;

verus! {

// ---------------------------------------------------------------------------
// url
// ---------------------------------------------------------------------------

/// The parts of a parsed URL that this crate reads.
pub struct UrlParts {
    pub scheme: String,
    pub host: Option<String>,
    pub port: Option<u16>,
}

/// What `url::Url::parse` makes of a text: on success (scheme, host, port) as
/// `Url::scheme`, `Url::host_str` and `Url::port` report them; on failure the
/// text of the `url::ParseError`. The WHATWG parsing rules are not restated.
pub uninterp spec fn url_parse_result(input: Seq<char>) -> Result<
    (Seq<char>, Option<Seq<char>>, Option<u16>),
    Seq<char>,
>;

/// The plain-value view of a parse result.
pub open spec fn url_parts_view(r: Result<UrlParts, String>) -> Result<
    (Seq<char>, Option<Seq<char>>, Option<u16>),
    Seq<char>,
> {
    match r {
        Ok(p) => Ok(
            (
                p.scheme@,
                match p.host {
                    Some(h) => Some(h@),
                    None => None,
                },
                p.port,
            ),
        ),
        Err(e) => Err(e@),
    }
}

/// Calls `url::Url::parse` and reads the scheme, host and port of the result,
/// or the error's text; the contract names that outcome `url_parse_result`.
#[verifier::external_body]
pub(crate) fn parse_url(input: &str) -> (r: Result<UrlParts, String>)
    ensures
        url_parts_view(r) == url_parse_result(input@),
{
    match url::Url::parse(input) {
        Ok(u) => Ok(UrlParts {
            scheme: u.scheme().to_string(),
            host: match u.host_str() {
                Some(h) => Some(h.to_string()),
                None => None,
            },
            port: u.port(),
        }),
        Err(e) => Err(e.to_string()),
    }
}

/// What `url::Url::parse(base)` followed by appending `pairs` with
/// `query_pairs_mut().extend_pairs(..)` gives as `Url::as_str`, or the text of
/// the parse error; the encoding rules are not restated.
pub uninterp spec fn url_with_query_result(
    base: Seq<char>,
    pairs: Seq<(Seq<char>, Seq<char>)>,
) -> Result<Seq<char>, Seq<char>>;

/// The plain-value view of a URL text or error.
pub open spec fn text_result_view(r: Result<String, String>) -> Result<Seq<char>, Seq<char>> {
    match r {
        Ok(t) => Ok(t@),
        Err(e) => Err(e@),
    }
}

/// Parses `base` with `url::Url::parse` and appends the query `pairs`
/// (`form_urlencoded` encoding); the contract names the outcome
/// `url_with_query_result`.
#[verifier::external_body]
pub(crate) fn url_with_query(base: &str, pairs: &Vec<(String, String)>) -> (r: Result<String, String>)
    ensures
        text_result_view(r) == url_with_query_result(base@, pairs.deep_view()),
{
    match url::Url::parse(base) {
        Ok(mut u) => {
            u.query_pairs_mut().extend_pairs(pairs.iter().map(|p| (p.0.as_str(), p.1.as_str())));
            Ok(u.as_str().to_string())
        },
        Err(e) => Err(e.to_string()),
    }
}

// ---------------------------------------------------------------------------
// HTTP status and header values (the `http` types that `reqwest` re-exports)
// ---------------------------------------------------------------------------

/// The reason phrase that `StatusCode::canonical_reason` gives for `code`,
/// from the table of registered status codes (not restated here).
pub uninterp spec fn canonical_reason(code: u16) -> Option<Seq<char>>;

/// Calls `reqwest::StatusCode::from_u16(code)` and its `canonical_reason`;
/// `from_u16` accepts every code in 100..=999.
#[verifier::external_body]
pub(crate) fn status_reason(code: u16) -> (r: Option<String>)
    requires
        100 <= code <= 999,
    ensures
        match r {
            Some(t) => canonical_reason(code) == Some(t@),
            None => canonical_reason(code) is None,
        },
{
    match reqwest::StatusCode::from_u16(code) {
        Ok(s) => match s.canonical_reason() {
            Some(t) => Some(t.to_string()),
            None => None,
        },
        Err(_) => None,
    }
}

/// Whether a character may appear in an HTTP header value: `http` accepts
/// the bytes `\t` and 32..=255 except 127, and every byte of a multi-byte
/// UTF-8 character is at least 128.
pub open spec fn header_char_ok(c: char) -> bool {
    c == '\t' || (' ' <= c && c != '\x7f')
}

/// Whether `reqwest::header::HeaderValue::from_str(s)` succeeds: it fails
/// exactly when some byte of `s` is a control byte other than tab, or 127.
#[verifier::external_body]
pub(crate) fn header_value_accepts(s: &str) -> (r: bool)
    ensures
        r == (forall|i: int| 0 <= i < s@.len() ==> header_char_ok(#[trigger] s@[i])),
{
    reqwest::header::HeaderValue::from_str(s).is_ok()
}


// ---------------------------------------------------------------------------
// zip
// ---------------------------------------------------------------------------

/// An in-memory reader over bytes (`std::io::Cursor`).
#[verifier::external_type_specification]
#[verifier::external_body]
#[verifier::reject_recursive_types(T)]
pub struct ExCursor<T>(Cursor<T>);

/// A zip archive being read (`zip::ZipArchive`).
#[verifier::external_type_specification]
#[verifier::external_body]
#[verifier::reject_recursive_types(R)]
pub struct ExZipArchive<R>(zip::ZipArchive<R>);

/// What an archive holds, entry by entry in the order of its central
/// directory: the outcome of reading the entry's name (`by_index`, then
/// `name`) and the outcome of reading its whole decompressed content as UTF-8
/// text (`by_index`, then `Read::read_to_string`), each a text or the error's
/// text. The zip format is not restated.
pub uninterp spec fn zip_entries(archive: zip::ZipArchive<Cursor<Vec<u8>>>) -> Seq<
    (Result<Seq<char>, Seq<char>>, Result<Seq<char>, Seq<char>>),
>;

/// What `zip::ZipArchive::new` makes of bytes: the entries of the archive, or
/// the error's text. The zip format is not restated.
pub uninterp spec fn zip_open_result(bytes: Seq<u8>) -> Result<
    Seq<(Result<Seq<char>, Seq<char>>, Result<Seq<char>, Seq<char>>)>,
    Seq<char>,
>;

/// Calls `zip::ZipArchive::new` on the bytes; a failure is returned as the
/// `ZipError`'s text. The outcome is named `zip_open_result` of the bytes,
/// and an opened archive holds the entries that it names.
#[verifier::external_body]
pub(crate) fn open_archive(bytes: Vec<u8>) -> (r: Result<zip::ZipArchive<Cursor<Vec<u8>>>, String>)
    ensures
        match r {
            Ok(a) => zip_open_result(bytes@) == Ok::<_, Seq<char>>(zip_entries(a)),
            Err(e) => zip_open_result(bytes@) == Err::<Seq<(Result<Seq<char>, Seq<char>>, Result<Seq<char>, Seq<char>>)>, _>(e@),
        },
{
    match zip::ZipArchive::new(Cursor::new(bytes)) {
        Ok(a) => Ok(a),
        Err(e) => Err(e.to_string()),
    }
}

/// Calls `ZipArchive::len`, the number of entries in the archive.
#[verifier::external_body]
pub(crate) fn archive_len(archive: &zip::ZipArchive<Cursor<Vec<u8>>>) -> (r: usize)
    ensures
        r == zip_entries(*archive).len(),
{
    archive.len()
}

/// Calls `ZipArchive::by_index(index)` and the file's `name`; a failure is
/// returned as the `ZipError`'s text. Reading moves the archive's reader but
/// not what the archive holds.
#[verifier::external_body]
pub(crate) fn entry_name(archive: &mut zip::ZipArchive<Cursor<Vec<u8>>>, index: usize) -> (r: Result<String, String>)
    requires
        index < zip_entries(*old(archive)).len(),
    ensures
        zip_entries(*final(archive)) == zip_entries(*old(archive)),
        text_result_view(r) == zip_entries(*old(archive))[index as int].0,
{
    match archive.by_index(index) {
        Ok(file) => match file.name() {
            Ok(n) => Ok(n.into_owned()),
            Err(e) => Err(e.to_string()),
        },
        Err(e) => Err(e.to_string()),
    }
}

/// Calls `ZipArchive::by_index(index)` and reads the whole (decompressed)
/// file as UTF-8 text with `Read::read_to_string`; a failure is returned as
/// the error's text. Reading moves the archive's reader but not what the
/// archive holds.
#[verifier::external_body]
pub(crate) fn entry_text(archive: &mut zip::ZipArchive<Cursor<Vec<u8>>>, index: usize) -> (r: Result<String, String>)
    requires
        index < zip_entries(*old(archive)).len(),
    ensures
        zip_entries(*final(archive)) == zip_entries(*old(archive)),
        text_result_view(r) == zip_entries(*old(archive))[index as int].1,
{
    match archive.by_index(index) {
        Ok(mut file) => {
            let mut content = String::new();
            match file.read_to_string(&mut content) {
                Ok(_) => Ok(content),
                Err(e) => Err(e.to_string()),
            }
        },
        Err(e) => Err(e.to_string()),
    }
}

// ---------------------------------------------------------------------------
// std
// ---------------------------------------------------------------------------

/// Appends one character to a string (`String::push`).
#[verifier::external_body]
pub(crate) fn push_char(s: &mut String, c: char)
    ensures
        final(s)@ == old(s)@.push(c),
{
    s.push(c)
}

/// The lowercase mapping of `s` (`str::to_lowercase`), whose full Unicode
/// tables are not restated here.
pub uninterp spec fn lowercase(s: Seq<char>) -> Seq<char>;

/// Calls `str::to_lowercase`; the result is named `lowercase` of the input.
#[verifier::external_body]
pub(crate) fn to_lowercase(s: &str) -> (r: String)
    ensures
        r@ == lowercase(s@),
{
    s.to_lowercase()
}

} // verus!
