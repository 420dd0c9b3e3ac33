use contour_sync::messages::{
    body_preview, http_error, is_en, request_error_details, required, status_display, RequestFailure,
};

#[test]
fn locale_is_english_without_regard_to_case() {
    assert!(is_en("en") && is_en("EN") && is_en("En") && is_en("eN"));
    assert!(!is_en("ru") && !is_en("") && !is_en("eng") && !is_en(" en"));
}

#[test]
fn preview_cleans_short_bodies() {
    assert_eq!(body_preview("a\r\nb\0c", "en"), "a \nbc");
}

#[test]
fn preview_cuts_long_bodies() {
    let body: String = std::iter::repeat('я').take(1801).collect();
    let en = body_preview(&body, "en");
    let expected_start: String = std::iter::repeat('я').take(1800).collect();
    assert_eq!(en, format!("{expected_start}\n... response truncated ..."));
    let ru = body_preview(&body, "ru");
    assert_eq!(ru, format!("{expected_start}\n... ответ сокращён ..."));
    let exact: String = std::iter::repeat('x').take(1800).collect();
    assert_eq!(body_preview(&exact, "en"), exact);
}

#[test]
fn status_is_displayed_with_reason() {
    assert_eq!(status_display(404), "404 Not Found");
    assert_eq!(status_display(200), "200 OK");
    assert_eq!(status_display(599), "599 <unknown status code>");
}

#[test]
fn http_error_names_status_and_hint() {
    assert_eq!(
        http_error(401, "https://h/rest-api/user/me", "{\"e\":1}", "en"),
        "Type: HTTP\nURL: https://h/rest-api/user/me\nStatus: 401 Unauthorized\nHint: Check the API token.\nGitFlic response:\n{\"e\":1}"
    );
    assert_eq!(
        http_error(503, "u", "", "ru"),
        "Тип: HTTP\nURL: u\nСтатус: 503 Service Unavailable\nПодсказка: Ошибка на стороне GitFlic.\nОтвет GitFlic:\n"
    );
    assert_eq!(
        http_error(302, "u", "b", "en"),
        "Type: HTTP\nURL: u\nStatus: 302 Found\nHint: \nGitFlic response:\nb"
    );
}

#[test]
fn http_error_hints() {
    let hint = |code: u16, locale: &str| {
        let m = http_error(code, "u", "", locale);
        m.lines().nth(3).unwrap().to_string()
    };
    assert_eq!(hint(400, "en"), "Hint: Check the request parameters.");
    assert_eq!(hint(403, "en"), "Hint: The token does not have enough permissions for this request.");
    assert_eq!(hint(404, "en"), "Hint: The method was not found on this GitFlic instance or the object is unavailable.");
    assert_eq!(hint(429, "en"), "Hint: GitFlic rate-limited the request. Try again later.");
    assert_eq!(hint(500, "en"), "Hint: GitFlic returned a server-side error.");
    assert_eq!(hint(400, "ru"), "Подсказка: Проверьте параметры запроса.");
    assert_eq!(hint(401, "ru"), "Подсказка: Проверьте API-токен.");
    assert_eq!(hint(403, "ru"), "Подсказка: У токена недостаточно прав для этого запроса.");
    assert_eq!(hint(404, "ru"), "Подсказка: Метод не найден на этом GitFlic или объект недоступен.");
    assert_eq!(hint(429, "ru"), "Подсказка: GitFlic ограничил частоту запросов. Повторите позже.");
}

fn failure(causes: usize) -> RequestFailure {
    RequestFailure {
        timeout: false,
        connect: true,
        request: true,
        decode: false,
        text: "error sending request".to_string(),
        causes: (1..=causes).map(|i| format!("c{i}")).collect(),
    }
}

#[test]
fn request_error_lists_causes() {
    assert_eq!(
        request_error_details(&failure(2), "https://h", "en"),
        "Type: Connection\nURL: https://h\nError: error sending request\nCause 1: c1\nCause 2: c2"
    );
    assert_eq!(
        request_error_details(&failure(0), "https://h", "ru"),
        "Тип: Подключение\nURL: https://h\nОшибка: error sending request"
    );
}

#[test]
fn request_error_lists_at_most_eight_causes() {
    let m = request_error_details(&failure(12), "u", "ru");
    assert_eq!(m.lines().count(), 3 + 8);
    assert_eq!(m.lines().last().unwrap(), "Причина 8: c8");
}

#[test]
fn request_error_categories() {
    let mut f = failure(0);
    f.timeout = true;
    assert!(request_error_details(&f, "u", "en").starts_with("Type: Timeout\n"));
    let mut f = failure(0);
    f.connect = false;
    assert!(request_error_details(&f, "u", "en").starts_with("Type: Request\n"));
    f.request = false;
    f.decode = true;
    assert!(request_error_details(&f, "u", "ru").starts_with("Тип: Разбор ответа\n"));
    f.decode = false;
    assert!(request_error_details(&f, "u", "en").starts_with("Type: Network\n"));
    assert!(request_error_details(&f, "u", "ru").starts_with("Тип: Сеть\n"));
}

#[test]
fn required_field() {
    assert_eq!(required("  ", "поле", "field", "en"), Err("field is required".to_string()));
    assert_eq!(required("", "поле", "field", "ru"), Err("Не заполнено поле: поле".to_string()));
    assert_eq!(required(" x ", "поле", "field", "en"), Ok(()));
}

#[test]
fn preview_of_long_dirty_body_is_clean_and_bounded() {
    let body: String = "\r\0x".repeat(2000);
    let p = body_preview(&body, "en");
    assert!(!p.contains('\r') && !p.contains('\0'));
    assert_eq!(p.chars().count(), 1800 + "\n... response truncated ...".chars().count());
    assert!(p.starts_with(" x x"));
}
