use contour_sync::contour::{
    auth_header_value, base_url_from_parts, branch_list_url, classify_branch_response, failure_message,
    json_error, normalize_url_impl, project_list_url, read_error, user_endpoint, BranchResponse, Failure,
};
use contour_sync::outside::UrlParts;

#[test]
fn url_gets_https_when_no_scheme() {
    assert_eq!(normalize_url_impl("  gitflic.example.com/path  ", "en"), Ok("https://gitflic.example.com".to_string()));
}

#[test]
fn url_keeps_scheme_and_port() {
    assert_eq!(normalize_url_impl("http://10.0.0.5:8080/x?y", "en"), Ok("http://10.0.0.5:8080".to_string()));
    assert_eq!(normalize_url_impl("https://host:443/", "en"), Ok("https://host".to_string()));
}

#[test]
fn url_errors() {
    assert_eq!(normalize_url_impl("http://", "en"), Err("Invalid URL: empty host".to_string()));
    assert_eq!(normalize_url_impl("http://", "ru"), Err("Некорректный URL: empty host".to_string()));
    assert_eq!(
        normalize_url_impl("unix:///tmp/sock", "en"),
        Err("The URL does not contain a host".to_string())
    );
    assert_eq!(normalize_url_impl("unix:///tmp/sock", "ru"), Err("В URL отсутствует host".to_string()));
}

#[test]
fn base_url_from_given_parts() {
    let parts = UrlParts { scheme: "https".to_string(), host: Some("h".to_string()), port: Some(8443) };
    assert_eq!(base_url_from_parts(Ok(parts), "en"), Ok("https://h:8443".to_string()));
    let parts = UrlParts { scheme: "https".to_string(), host: None, port: None };
    assert_eq!(base_url_from_parts(Ok(parts), "en"), Err("The URL does not contain a host".to_string()));
    assert_eq!(base_url_from_parts(Err("bad".to_string()), "en"), Err("Invalid URL: bad".to_string()));
}

#[test]
fn token_header() {
    assert_eq!(auth_header_value("  abc123 ", "en"), Ok("token abc123".to_string()));
    assert_eq!(auth_header_value(" \t ", "en"), Err("API token is not specified".to_string()));
    assert_eq!(auth_header_value("", "ru"), Err("API-токен не указан".to_string()));
    assert_eq!(auth_header_value("a\u{1}b", "en"), Err("Invalid API token".to_string()));
    assert_eq!(auth_header_value("a\u{7f}b", "ru"), Err("Некорректный API-токен".to_string()));
    assert_eq!(auth_header_value("тест", "en"), Ok("token тест".to_string()));
}

#[test]
fn list_urls() {
    assert_eq!(
        project_list_url("https://h", "/project/my", 2, "  my repo ", "en"),
        Ok("https://h/rest-api/project/my?page=2&size=100&q=my+repo".to_string())
    );
    assert_eq!(
        project_list_url("https://h", "/project/shared", 0, "  ", "en"),
        Ok("https://h/rest-api/project/shared?page=0&size=100".to_string())
    );
    assert_eq!(
        branch_list_url("https://h:8080", "dev", "app", 1, "en"),
        Ok("https://h:8080/rest-api/project/dev/app/branch?page=1&size=100".to_string())
    );
    assert!(project_list_url("not a url", "/p", 0, "", "en").unwrap_err().starts_with("Invalid API URL: "));
    assert!(project_list_url("", "/p", 0, "", "ru").unwrap_err().starts_with("Некорректный API URL: "));
    assert_eq!(user_endpoint("https://h"), "https://h/rest-api/user/me");
}

#[test]
fn branch_responses() {
    assert!(matches!(
        classify_branch_response(404, "u", "{\"type\":\"BranchNotFoundException\"}", "en"),
        BranchResponse::EmptyRepository
    ));
    match classify_branch_response(404, "u", "other", "en") {
        BranchResponse::Failed(m) => assert!(m.starts_with("Type: HTTP\nURL: u\nStatus: 404 Not Found\n")),
        _ => panic!("expected a failure"),
    }
    assert!(matches!(classify_branch_response(200, "u", "{}", "en"), BranchResponse::Body));
}

#[test]
fn error_messages() {
    assert_eq!(
        json_error("u", "EOF", "x", "en"),
        "Type: Response parsing\nURL: u\nJSON error: EOF\nGitFlic response:\nx"
    );
    assert_eq!(json_error("u", "EOF", "x", "ru"), "Тип: Разбор ответа\nURL: u\nОшибка JSON: EOF\nОтвет GitFlic:\nx");
    assert_eq!(read_error("u", "e", "en"), "Could not read the GitFlic response.\nURL: u\nError: e");
    assert_eq!(read_error("u", "e", "ru"), "Не удалось прочитать ответ GitFlic.\nURL: u\nОшибка: e");
    assert_eq!(failure_message(Failure::ClientSetup, "x", "en"), "Could not create HTTP client: x");
    assert_eq!(failure_message(Failure::ArtifactDownload, "x", "ru"), "Не удалось скачать артефакт GitFlic: x");
    assert_eq!(failure_message(Failure::ProfileParse, "x", "en"), "Could not parse the GitFlic user profile: x");
    assert_eq!(failure_message(Failure::BranchParse, "x", "ru"), "Не удалось разобрать ответ со списком веток: x");
}
