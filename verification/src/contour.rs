//! A contour's base URL, its API token header, and the URLs of its lists.
use vstd::prelude::*;

use crate::messages::{english, is_en, pick, preview_of, body_preview};
use crate::outside::{
    header_char_ok, header_value_accepts, parse_url, text_result_view, url_parse_result,
    url_parts_view, url_with_query, url_with_query_result, UrlParts,
};
use crate::text::{
    append_str, chars_contain, chars_of, contains_seq, decimal_text, is_blank, trim, trimmed,
    u64_text,
};

verus! {

// ---------------------------------------------------------------------------
// Base URL
// ---------------------------------------------------------------------------

/// The text handed to the URL parser: the trimmed input, with `https://` in
/// front when it names no scheme.
pub open spec fn url_candidate(input: Seq<char>) -> Seq<char> {
    let raw = trim(input);
    if contains_seq(raw, "://"@) {
        raw
    } else {
        "https://"@ + raw
    }
}

/// The base URL made of a parse outcome: `scheme://host[:port]`, or the
/// message for a text that does not parse or names no host.
pub open spec fn base_url_of(
    parsed: Result<(Seq<char>, Option<Seq<char>>, Option<u16>), Seq<char>>,
    locale: Seq<char>,
) -> Result<Seq<char>, Seq<char>> {
    match parsed {
        Err(e) => Err(pick(locale, "Invalid URL: "@ + e, "Некорректный URL: "@ + e)),
        Ok((scheme, host, port)) => match host {
            None => Err(pick(locale, "The URL does not contain a host"@, "В URL отсутствует host"@)),
            Some(h) => Ok(
                scheme + "://"@ + h + match port {
                    Some(p) => ":"@ + decimal_text(p as nat),
                    None => Seq::empty(),
                },
            ),
        },
    }
}

/// The plain-value view of a text result.
pub open spec fn result_view(r: Result<String, String>) -> Result<Seq<char>, Seq<char>> {
    text_result_view(r)
}

/// The base URL of a parsed contour URL.
pub fn base_url_from_parts(parsed: Result<UrlParts, String>, locale: &str) -> (r: Result<String, String>)
    ensures
        result_view(r) == base_url_of(url_parts_view(parsed), locale@),
{
    match parsed {
        Err(e) => {
            let mut m = if is_en(locale) {
                "Invalid URL: ".to_owned()
            } else {
                "Некорректный URL: ".to_owned()
            };
            append_str(&mut m, e.as_str());
            Err(m)
        },
        Ok(parts) => match parts.host {
            None => Err(crate::messages::localized(
                locale,
                "The URL does not contain a host",
                "В URL отсутствует host",
            )),
            Some(h) => {
                let mut r = parts.scheme;
                append_str(&mut r, "://");
                append_str(&mut r, h.as_str());
                match parts.port {
                    Some(p) => {
                        append_str(&mut r, ":");
                        let t = u64_text(p as u64);
                        append_str(&mut r, t.as_str());
                        assert(r@ =~= parts.scheme@ + "://"@ + h@ + (":"@ + decimal_text(p as nat)));
                    },
                    None => {
                        assert(r@ =~= parts.scheme@ + "://"@ + h@ + Seq::<char>::empty());
                    },
                }
                Ok(r)
            },
        },
    }
}

/// A contour's base URL (`scheme://host[:port]`) from what the user typed.
pub fn normalize_url_impl(input: &str, locale: &str) -> (r: Result<String, String>)
    ensures
        result_view(r) == base_url_of(url_parse_result(url_candidate(input@)), locale@),
{
    let raw = trimmed(input);
    let raw_chars = chars_of(raw.as_str());
    let sep = chars_of("://");
    let value = if chars_contain(&raw_chars, &sep) {
        raw
    } else {
        let mut v = "https://".to_owned();
        append_str(&mut v, raw.as_str());
        v
    };
    let parsed = parse_url(value.as_str());
    base_url_from_parts(parsed, locale)
}

// ---------------------------------------------------------------------------
// API token
// ---------------------------------------------------------------------------

/// The `Authorization` header for a token: `token <trimmed token>`; a blank
/// token, or one that an HTTP header cannot carry, is refused.
pub open spec fn auth_header_of(token: Seq<char>, locale: Seq<char>) -> Result<Seq<char>, Seq<char>> {
    let value = "token "@ + trim(token);
    if trim(token).len() == 0 {
        Err(pick(locale, "API token is not specified"@, "API-токен не указан"@))
    } else if forall|i: int| 0 <= i < value.len() ==> header_char_ok(#[trigger] value[i]) {
        Ok(value)
    } else {
        Err(pick(locale, "Invalid API token"@, "Некорректный API-токен"@))
    }
}

/// The `Authorization` header value for an API token.
pub fn auth_header_value(token: &str, locale: &str) -> (r: Result<String, String>)
    ensures
        result_view(r) == auth_header_of(token@, locale@),
{
    if is_blank(token) {
        return Err(crate::messages::localized(locale, "API token is not specified", "API-токен не указан"));
    }
    let t = trimmed(token);
    let mut value = "token ".to_owned();
    append_str(&mut value, t.as_str());
    if header_value_accepts(value.as_str()) {
        Ok(value)
    } else {
        Err(crate::messages::localized(locale, "Invalid API token", "Некорректный API-токен"))
    }
}

// ---------------------------------------------------------------------------
// List URLs
// ---------------------------------------------------------------------------

/// The query of a page of a list: page number, page size 100, and the search
/// text when it is not blank.
pub open spec fn page_query(page: u32, query: Seq<char>) -> Seq<(Seq<char>, Seq<char>)> {
    let base = seq![("page"@, decimal_text(page as nat)), ("size"@, "100"@)];
    if trim(query).len() == 0 {
        base
    } else {
        base.push(("q"@, trim(query)))
    }
}

/// A list URL, or the message for a base that does not parse.
pub open spec fn list_url_of(raw: Seq<char>, pairs: Seq<(Seq<char>, Seq<char>)>, locale: Seq<char>) -> Result<Seq<char>, Seq<char>> {
    match url_with_query_result(raw, pairs) {
        Ok(u) => Ok(u),
        Err(e) => Err(pick(locale, "Invalid API URL: "@ + e, "Некорректный API URL: "@ + e)),
    }
}

/// The pairs of a page query.
fn page_pairs(page: u32, query: &str) -> (r: Vec<(String, String)>)
    ensures
        r.deep_view() == page_query(page, query@),
{
    let mut r: Vec<(String, String)> = Vec::new();
    r.push(("page".to_owned(), u64_text(page as u64)));
    r.push(("size".to_owned(), "100".to_owned()));
    if !is_blank(query) {
        r.push(("q".to_owned(), trimmed(query)));
    }
    assert(r.deep_view() =~= page_query(page, query@));
    r
}

/// The URL of a list with its query, or the message for a bad base.
fn list_url(raw: &str, pairs: &Vec<(String, String)>, locale: &str) -> (r: Result<String, String>)
    ensures
        result_view(r) == list_url_of(raw@, pairs.deep_view(), locale@),
{
    match url_with_query(raw, pairs) {
        Ok(u) => Ok(u),
        Err(e) => {
            let mut m = if is_en(locale) {
                "Invalid API URL: ".to_owned()
            } else {
                "Некорректный API URL: ".to_owned()
            };
            append_str(&mut m, e.as_str());
            Err(m)
        },
    }
}

/// The URL of page `page` of a project list (`/project/my`,
/// `/project/shared`), with the search text `query`.
pub fn project_list_url(base: &str, path: &str, page: u32, query: &str, locale: &str) -> (r: Result<String, String>)
    ensures
        result_view(r) == list_url_of(base@ + "/rest-api"@ + path@, page_query(page, query@), locale@),
{
    let mut raw = base.to_owned();
    append_str(&mut raw, "/rest-api");
    append_str(&mut raw, path);
    let pairs = page_pairs(page, query);
    list_url(raw.as_str(), &pairs, locale)
}

/// The URL of page `page` of a project's branch list.
pub fn branch_list_url(base: &str, owner: &str, project: &str, page: u32, locale: &str) -> (r: Result<String, String>)
    ensures
        result_view(r) == list_url_of(
            base@ + "/rest-api/project/"@ + owner@ + "/"@ + project@ + "/branch"@,
            page_query(page, ""@),
            locale@,
        ),
{
    let mut raw = base.to_owned();
    append_str(&mut raw, "/rest-api/project/");
    append_str(&mut raw, owner);
    append_str(&mut raw, "/");
    append_str(&mut raw, project);
    append_str(&mut raw, "/branch");
    let pairs = page_pairs(page, "");
    list_url(raw.as_str(), &pairs, locale)
}

/// The URL of the current user's profile.
pub fn user_endpoint(base: &str) -> (r: String)
    ensures
        r@ == base@ + "/rest-api/user/me"@,
{
    let mut r = base.to_owned();
    append_str(&mut r, "/rest-api/user/me");
    r
}

// ---------------------------------------------------------------------------
// Response errors
// ---------------------------------------------------------------------------

/// The message for a response body that is not the JSON expected.
pub open spec fn json_error_text(endpoint: Seq<char>, error: Seq<char>, body: Seq<char>, locale: Seq<char>) -> Seq<char> {
    if english(locale) {
        "Type: Response parsing\nURL: "@ + endpoint + "\nJSON error: "@ + error + "\nGitFlic response:\n"@
            + preview_of(body, locale)
    } else {
        "Тип: Разбор ответа\nURL: "@ + endpoint + "\nОшибка JSON: "@ + error + "\nОтвет GitFlic:\n"@
            + preview_of(body, locale)
    }
}

/// The message for a response body that is not the JSON expected.
pub fn json_error(endpoint: &str, error: &str, body: &str, locale: &str) -> (r: String)
    ensures
        r@ == json_error_text(endpoint@, error@, body@, locale@),
{
    let en = is_en(locale);
    let preview = body_preview(body, locale);
    let mut r = if en {
        "Type: Response parsing\nURL: ".to_owned()
    } else {
        "Тип: Разбор ответа\nURL: ".to_owned()
    };
    append_str(&mut r, endpoint);
    append_str(&mut r, if en { "\nJSON error: " } else { "\nОшибка JSON: " });
    append_str(&mut r, error);
    append_str(&mut r, if en { "\nGitFlic response:\n" } else { "\nОтвет GitFlic:\n" });
    append_str(&mut r, preview.as_str());
    assert(r@ =~= json_error_text(endpoint@, error@, body@, locale@));
    r
}

/// The message for a response that could not be read.
pub open spec fn read_error_text(endpoint: Seq<char>, error: Seq<char>, locale: Seq<char>) -> Seq<char> {
    pick(
        locale,
        "Could not read the GitFlic response.\nURL: "@ + endpoint + "\nError: "@ + error,
        "Не удалось прочитать ответ GitFlic.\nURL: "@ + endpoint + "\nОшибка: "@ + error,
    )
}

/// The message for a response that could not be read.
pub fn read_error(endpoint: &str, error: &str, locale: &str) -> (r: String)
    ensures
        r@ == read_error_text(endpoint@, error@, locale@),
{
    let en = is_en(locale);
    let mut r = if en {
        "Could not read the GitFlic response.\nURL: ".to_owned()
    } else {
        "Не удалось прочитать ответ GitFlic.\nURL: ".to_owned()
    };
    append_str(&mut r, endpoint);
    append_str(&mut r, if en { "\nError: " } else { "\nОшибка: " });
    append_str(&mut r, error);
    assert(r@ =~= read_error_text(endpoint@, error@, locale@));
    r
}

/// The kinds of failure that are reported as a fixed text and the error.
pub enum Failure {
    ClientSetup,
    ArtifactDownload,
    ProfileParse,
    BranchParse,
}

/// The text that comes before the error in a failure message.
pub open spec fn failure_prefix(kind: Failure, locale: Seq<char>) -> Seq<char> {
    match kind {
        Failure::ClientSetup => pick(locale, "Could not create HTTP client: "@, "Не удалось создать HTTP-клиент: "@),
        Failure::ArtifactDownload => pick(
            locale,
            "Could not download the GitFlic artifact: "@,
            "Не удалось скачать артефакт GitFlic: "@,
        ),
        Failure::ProfileParse => pick(
            locale,
            "Could not parse the GitFlic user profile: "@,
            "Не удалось разобрать профиль пользователя GitFlic: "@,
        ),
        Failure::BranchParse => pick(
            locale,
            "Could not parse branch response: "@,
            "Не удалось разобрать ответ со списком веток: "@,
        ),
    }
}

/// The message for a failure: its fixed text, then the error.
pub fn failure_message(kind: Failure, error: &str, locale: &str) -> (r: String)
    ensures
        r@ == failure_prefix(kind, locale@) + error@,
{
    let mut r = match kind {
        Failure::ClientSetup => crate::messages::localized(
            locale,
            "Could not create HTTP client: ",
            "Не удалось создать HTTP-клиент: ",
        ),
        Failure::ArtifactDownload => crate::messages::localized(
            locale,
            "Could not download the GitFlic artifact: ",
            "Не удалось скачать артефакт GitFlic: ",
        ),
        Failure::ProfileParse => crate::messages::localized(
            locale,
            "Could not parse the GitFlic user profile: ",
            "Не удалось разобрать профиль пользователя GitFlic: ",
        ),
        Failure::BranchParse => crate::messages::localized(
            locale,
            "Could not parse branch response: ",
            "Не удалось разобрать ответ со списком веток: ",
        ),
    };
    append_str(&mut r, error);
    r
}

/// What a branch list response means: an empty repository (GitFlic answers
/// 404 with `BranchNotFoundException`), a failure, or a body to read.
pub enum BranchResponse {
    EmptyRepository,
    Failed(String),
    Body,
}

/// How a branch list response is read.
pub open spec fn branch_response_of(status: u16, endpoint: Seq<char>, body: Seq<char>, locale: Seq<char>) -> Option<Option<Seq<char>>> {
    if status == 404 && contains_seq(body, "BranchNotFoundException"@) {
        None
    } else if !(200 <= status < 300) {
        Some(Some(crate::messages::http_error_text(status, endpoint, body, locale)))
    } else {
        Some(None)
    }
}

/// The plain-value view of a branch response: `None` for an empty
/// repository, `Some(Some(message))` for a failure, `Some(None)` for a body.
pub open spec fn branch_response_view(r: BranchResponse) -> Option<Option<Seq<char>>> {
    match r {
        BranchResponse::EmptyRepository => None,
        BranchResponse::Failed(m) => Some(Some(m@)),
        BranchResponse::Body => Some(None),
    }
}

/// Reads the status of a branch list response.
pub fn classify_branch_response(status: u16, endpoint: &str, body: &str, locale: &str) -> (r: BranchResponse)
    requires
        100 <= status <= 999,
    ensures
        branch_response_view(r) == branch_response_of(status, endpoint@, body@, locale@),
{
    let body_chars = chars_of(body);
    let marker = chars_of("BranchNotFoundException");
    if status == 404 && chars_contain(&body_chars, &marker) {
        BranchResponse::EmptyRepository
    } else if !crate::messages::is_success(status) {
        BranchResponse::Failed(crate::messages::http_error(status, endpoint, body, locale))
    } else {
        BranchResponse::Body
    }
}

} // verus!
