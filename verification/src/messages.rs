//! The localized messages that the application shows, and the checks that
//! produce them.
use vstd::prelude::*;

use crate::outside::{canonical_reason, status_reason};
use crate::text::{append_str, chars_of, decimal_text, u64_text};

verus! {

/// Whether the locale selects English (`eq_ignore_ascii_case("en")`; any
/// other locale selects Russian).
pub open spec fn english(locale: Seq<char>) -> bool {
    &&& locale.len() == 2
    &&& (locale[0] == 'e' || locale[0] == 'E')
    &&& (locale[1] == 'n' || locale[1] == 'N')
}

/// The English or the Russian text, by locale.
pub open spec fn pick(locale: Seq<char>, en: Seq<char>, ru: Seq<char>) -> Seq<char> {
    if english(locale) {
        en
    } else {
        ru
    }
}

/// Whether the locale selects English messages.
pub fn is_en(locale: &str) -> (r: bool)
    ensures
        r == english(locale@),
{
    let v = chars_of(locale);
    v.len() == 2 && (v[0] == 'e' || v[0] == 'E') && (v[1] == 'n' || v[1] == 'N')
}

/// A new string with the text that suits the locale.
pub fn localized(locale: &str, en: &str, ru: &str) -> (r: String)
    ensures
        r@ == pick(locale@, en@, ru@),
{
    if is_en(locale) {
        en.to_owned()
    } else {
        ru.to_owned()
    }
}

// ---------------------------------------------------------------------------
// Response bodies
// ---------------------------------------------------------------------------

/// How many characters of a response body a message shows.
pub const PREVIEW_LIMIT: usize = 1800;

/// `s` with carriage returns turned into spaces and NUL characters removed.
pub open spec fn clean_body(s: Seq<char>) -> Seq<char>
    decreases s.len(),
{
    if s.len() == 0 {
        seq![]
    } else if s.last() == '\r' {
        clean_body(s.drop_last()).push(' ')
    } else if s.last() == '\0' {
        clean_body(s.drop_last())
    } else {
        clean_body(s.drop_last()).push(s.last())
    }
}

/// A response body as messages show it: cleaned, and cut after
/// `PREVIEW_LIMIT` characters with a note that it was cut.
pub open spec fn preview_of(body: Seq<char>, locale: Seq<char>) -> Seq<char> {
    let clean = clean_body(body);
    if clean.len() <= PREVIEW_LIMIT {
        clean
    } else {
        clean.take(PREVIEW_LIMIT as int) + pick(
            locale,
            "\n... response truncated ..."@,
            "\n... ответ сокращён ..."@,
        )
    }
}

/// The body of a response, cleaned and shortened for a message.
pub fn body_preview(body: &str, locale: &str) -> (r: String)
    ensures
        r@ == preview_of(body@, locale@),
{
    let v = chars_of(body);
    let mut clean: Vec<char> = Vec::new();
    let mut i: usize = 0;
    while i < v.len()
        invariant
            i <= v@.len(),
            clean@ == clean_body(v@.take(i as int)),
        decreases v@.len() - i,
    {
        proof {
            assert(v@.take(i + 1).drop_last() == v@.take(i as int));
        }
        if v[i] == '\r' {
            clean.push(' ');
        } else if v[i] != '\0' {
            clean.push(v[i]);
        }
        i = i + 1;
    }
    proof {
        assert(v@.take(v@.len() as int) == v@);
    }
    if clean.len() <= PREVIEW_LIMIT {
        return crate::text::string_of(&clean);
    }
    let mut r = crate::text::string_of_range(&clean, 0, PREVIEW_LIMIT);
    if is_en(locale) {
        append_str(&mut r, "\n... response truncated ...");
    } else {
        append_str(&mut r, "\n... ответ сокращён ...");
    }
    r
}

// ---------------------------------------------------------------------------
// HTTP errors
// ---------------------------------------------------------------------------

/// The hint that a message gives for an HTTP status.
pub open spec fn status_hint(code: u16, locale: Seq<char>) -> Seq<char> {
    if english(locale) {
        if code == 400 {
            "Check the request parameters."@
        } else if code == 401 {
            "Check the API token."@
        } else if code == 403 {
            "The token does not have enough permissions for this request."@
        } else if code == 404 {
            "The method was not found on this GitFlic instance or the object is unavailable."@
        } else if code == 429 {
            "GitFlic rate-limited the request. Try again later."@
        } else if 500 <= code <= 599 {
            "GitFlic returned a server-side error."@
        } else {
            ""@
        }
    } else {
        if code == 400 {
            "Проверьте параметры запроса."@
        } else if code == 401 {
            "Проверьте API-токен."@
        } else if code == 403 {
            "У токена недостаточно прав для этого запроса."@
        } else if code == 404 {
            "Метод не найден на этом GitFlic или объект недоступен."@
        } else if code == 429 {
            "GitFlic ограничил частоту запросов. Повторите позже."@
        } else if 500 <= code <= 599 {
            "Ошибка на стороне GitFlic."@
        } else {
            ""@
        }
    }
}

/// A status as `StatusCode` displays it: the code, a space, the reason phrase.
pub open spec fn status_text(code: u16) -> Seq<char> {
    decimal_text(code as nat) + " "@ + match canonical_reason(code) {
        Some(t) => t,
        None => "<unknown status code>"@,
    }
}

/// The message for a response with an unsuccessful status.
pub open spec fn http_error_text(code: u16, endpoint: Seq<char>, body: Seq<char>, locale: Seq<char>) -> Seq<char> {
    if english(locale) {
        "Type: HTTP\nURL: "@ + endpoint + "\nStatus: "@ + status_text(code) + "\nHint: "@
            + status_hint(code, locale) + "\nGitFlic response:\n"@ + preview_of(body, locale)
    } else {
        "Тип: HTTP\nURL: "@ + endpoint + "\nСтатус: "@ + status_text(code) + "\nПодсказка: "@
            + status_hint(code, locale) + "\nОтвет GitFlic:\n"@ + preview_of(body, locale)
    }
}

/// Whether a status is a success (200..=299, `StatusCode::is_success`).
pub fn is_success(code: u16) -> (r: bool)
    ensures
        r == (200 <= code < 300),
{
    200 <= code && code < 300
}

/// The hint text for a status.
fn hint_for(code: u16, locale: &str) -> (r: &'static str)
    ensures
        r@ == status_hint(code, locale@),
{
    if is_en(locale) {
        if code == 400 {
            "Check the request parameters."
        } else if code == 401 {
            "Check the API token."
        } else if code == 403 {
            "The token does not have enough permissions for this request."
        } else if code == 404 {
            "The method was not found on this GitFlic instance or the object is unavailable."
        } else if code == 429 {
            "GitFlic rate-limited the request. Try again later."
        } else if 500 <= code && code <= 599 {
            "GitFlic returned a server-side error."
        } else {
            ""
        }
    } else {
        if code == 400 {
            "Проверьте параметры запроса."
        } else if code == 401 {
            "Проверьте API-токен."
        } else if code == 403 {
            "У токена недостаточно прав для этого запроса."
        } else if code == 404 {
            "Метод не найден на этом GitFlic или объект недоступен."
        } else if code == 429 {
            "GitFlic ограничил частоту запросов. Повторите позже."
        } else if 500 <= code && code <= 599 {
            "Ошибка на стороне GitFlic."
        } else {
            ""
        }
    }
}

/// The status as `StatusCode` displays it.
pub fn status_display(code: u16) -> (r: String)
    requires
        100 <= code <= 999,
    ensures
        r@ == status_text(code),
{
    let mut r = u64_text(code as u64);
    append_str(&mut r, " ");
    match status_reason(code) {
        Some(t) => append_str(&mut r, t.as_str()),
        None => append_str(&mut r, "<unknown status code>"),
    }
    r
}

/// The message for a response with an unsuccessful status: status, hint and
/// the start of the body.
pub fn http_error(status: u16, endpoint: &str, body: &str, locale: &str) -> (r: String)
    requires
        100 <= status <= 999,
    ensures
        r@ == http_error_text(status, endpoint@, body@, locale@),
{
    let st = status_display(status);
    let hint = hint_for(status, locale);
    let preview = body_preview(body, locale);
    let en = is_en(locale);
    let mut r = String::new();
    append_str(&mut r, if en { "Type: HTTP\nURL: " } else { "Тип: HTTP\nURL: " });
    append_str(&mut r, endpoint);
    append_str(&mut r, if en { "\nStatus: " } else { "\nСтатус: " });
    append_str(&mut r, st.as_str());
    append_str(&mut r, if en { "\nHint: " } else { "\nПодсказка: " });
    append_str(&mut r, hint);
    append_str(&mut r, if en { "\nGitFlic response:\n" } else { "\nОтвет GitFlic:\n" });
    append_str(&mut r, preview.as_str());
    proof {
        assert(r@ =~= http_error_text(status, endpoint@, body@, locale@));
    }
    r
}

// ---------------------------------------------------------------------------
// Transport errors
// ---------------------------------------------------------------------------

/// What a failed request reports: its kind, its text and the texts of the
/// errors that caused it, outermost first.
pub struct RequestFailure {
    pub timeout: bool,
    pub connect: bool,
    pub request: bool,
    pub decode: bool,
    pub text: String,
    pub causes: Vec<String>,
}

/// How many causes a transport error message lists.
pub const MAX_CAUSES: usize = 8;

/// The category named in a transport error message.
pub open spec fn failure_category(f: RequestFailure, locale: Seq<char>) -> Seq<char> {
    if f.timeout {
        pick(locale, "Timeout"@, "Тайм-аут"@)
    } else if f.connect {
        pick(locale, "Connection"@, "Подключение"@)
    } else if f.request {
        pick(locale, "Request"@, "Запрос"@)
    } else if f.decode {
        pick(locale, "Response parsing"@, "Разбор ответа"@)
    } else {
        pick(locale, "Network"@, "Сеть"@)
    }
}

/// The line of a message that names the `n`-th cause (from 1).
pub open spec fn cause_line(n: nat, cause: Seq<char>, locale: Seq<char>) -> Seq<char> {
    pick(locale, "Cause "@, "Причина "@) + decimal_text(n) + ": "@ + cause
}

/// The lines naming the first `k` causes.
pub open spec fn cause_lines(causes: Seq<Seq<char>>, k: nat, locale: Seq<char>) -> Seq<Seq<char>>
    decreases k,
{
    if k == 0 {
        seq![]
    } else {
        cause_lines(causes, (k - 1) as nat, locale).push(cause_line(k, causes[k - 1], locale))
    }
}

/// Lines joined with `'\n'` between them (`join("\n")`).
pub open spec fn join_lines(ls: Seq<Seq<char>>) -> Seq<char>
    decreases ls.len(),
{
    if ls.len() == 0 {
        seq![]
    } else if ls.len() == 1 {
        ls[0]
    } else {
        join_lines(ls.drop_last()) + "\n"@ + ls.last()
    }
}

/// The message for a request that failed before a response arrived: the
/// category, the URL, the error and at most `MAX_CAUSES` of its causes.
pub open spec fn request_error_text(f: RequestFailure, endpoint: Seq<char>, locale: Seq<char>) -> Seq<char> {
    let causes = f.causes.deep_view();
    let k = if causes.len() < MAX_CAUSES { causes.len() } else { MAX_CAUSES as nat };
    join_lines(
        seq![
            pick(locale, "Type: "@, "Тип: "@) + failure_category(f, locale),
            "URL: "@ + endpoint,
            pick(locale, "Error: "@, "Ошибка: "@) + f.text@,
        ] + cause_lines(causes, k, locale),
    )
}

/// The category text of a failure.
fn category_of(f: &RequestFailure, locale: &str) -> (r: String)
    ensures
        r@ == failure_category(*f, locale@),
{
    if f.timeout {
        localized(locale, "Timeout", "Тайм-аут")
    } else if f.connect {
        localized(locale, "Connection", "Подключение")
    } else if f.request {
        localized(locale, "Request", "Запрос")
    } else if f.decode {
        localized(locale, "Response parsing", "Разбор ответа")
    } else {
        localized(locale, "Network", "Сеть")
    }
}

/// The message for a request that failed before a response arrived.
pub fn request_error_details(f: &RequestFailure, endpoint: &str, locale: &str) -> (r: String)
    ensures
        r@ == request_error_text(*f, endpoint@, locale@),
{
    let ghost causes = f.causes.deep_view();
    let ghost first = seq![
        pick(locale@, "Type: "@, "Тип: "@) + failure_category(*f, locale@),
        "URL: "@ + endpoint@,
        pick(locale@, "Error: "@, "Ошибка: "@) + f.text@,
    ];
    let mut r = localized(locale, "Type: ", "Тип: ");
    let cat = category_of(f, locale);
    append_str(&mut r, cat.as_str());
    append_str(&mut r, "\n");
    append_str(&mut r, "URL: ");
    append_str(&mut r, endpoint);
    append_str(&mut r, "\n");
    let err = localized(locale, "Error: ", "Ошибка: ");
    append_str(&mut r, err.as_str());
    append_str(&mut r, f.text.as_str());
    proof {
        reveal_with_fuel(join_lines, 4);
        assert(first.drop_last().drop_last() =~= seq![first[0]]);
        assert(first.drop_last() =~= seq![first[0], first[1]]);
        assert(join_lines(seq![first[0]]) == first[0]);
        assert(join_lines(first.drop_last()) == first[0] + "\n"@ + first[1]);
        assert(r@ =~= join_lines(first));
    }
    let mut depth: usize = 0;
    while depth < f.causes.len() && depth < MAX_CAUSES
        invariant
            depth <= causes.len(),
            depth <= MAX_CAUSES,
            causes == f.causes.deep_view(),
            first.len() == 3,
            r@ == join_lines(first + cause_lines(causes, depth as nat, locale@)),
        decreases MAX_CAUSES - depth,
    {
        let ghost before = first + cause_lines(causes, depth as nat, locale@);
        append_str(&mut r, "\n");
        let label = localized(locale, "Cause ", "Причина ");
        append_str(&mut r, label.as_str());
        let num = u64_text((depth + 1) as u64);
        append_str(&mut r, num.as_str());
        append_str(&mut r, ": ");
        append_str(&mut r, f.causes[depth].as_str());
        depth = depth + 1;
        proof {
            assert(f.causes@[depth - 1]@ == causes[depth - 1]);
            let after = first + cause_lines(causes, depth as nat, locale@);
            assert(after =~= before.push(cause_line(depth as nat, causes[depth - 1], locale@)));
            assert(after.drop_last() =~= before);
            assert(r@ =~= join_lines(after));
        }
    }
    r
}

// ---------------------------------------------------------------------------
// Required fields
// ---------------------------------------------------------------------------

/// Fails with "… is required" when `value` is blank.
pub fn required(value: &str, field_ru: &str, field_en: &str, locale: &str) -> (r: Result<(), String>)
    ensures
        r is Err <==> crate::text::trim(value@).len() == 0,
        r matches Err(m) ==> m@ == pick(
            locale@,
            field_en@ + " is required"@,
            "Не заполнено поле: "@ + field_ru@,
        ),
{
    if crate::text::is_blank(value) {
        if is_en(locale) {
            let mut m = field_en.to_owned();
            append_str(&mut m, " is required");
            Err(m)
        } else {
            let mut m = "Не заполнено поле: ".to_owned();
            append_str(&mut m, field_ru);
            Err(m)
        }
    } else {
        Ok(())
    }
}

} // verus!
