use contour_sync::json::{Json, JsonNumber};
use contour_sync::sync::{
    jobs_from_json, locate_in_page, pipeline_artifacts_endpoint, pipeline_jobs_endpoint,
    pipeline_list_endpoint, pipeline_start_endpoint, pipeline_uuid_from, pipeline_variables, poll_observe,
    poll_result, poll_start, start_response_error, terminal_status, validate_sync_request, LocateStep,
    PollAction, PollState, SyncRequest,
};

fn request() -> SyncRequest {
    SyncRequest {
        control_url: "https://dev".to_string(),
        control_token: "secret-token".to_string(),
        control_owner: "devops".to_string(),
        control_project: "images-transfer".to_string(),
        control_branch: "repositories".to_string(),
        runner_tag: "sync".to_string(),
        source_url: "https://dev".to_string(),
        source_owner: "team".to_string(),
        source_project: "app".to_string(),
        source_branch: "main".to_string(),
        source_sha: "aaa".to_string(),
        target_url: "https://prod".to_string(),
        target_owner: "team".to_string(),
        target_project: "app".to_string(),
        target_branch: "main".to_string(),
        target_sha: None,
        action: "preview".to_string(),
        request_id: "r1".to_string(),
        locale: "en".to_string(),
    }
}

#[test]
fn complete_request_is_accepted() {
    assert_eq!(validate_sync_request(&request()), Ok(()));
    let mut r = request();
    r.action = "push".to_string();
    assert_eq!(validate_sync_request(&r), Ok(()));
}

#[test]
fn first_missing_field_is_reported() {
    let mut r = request();
    r.runner_tag = " ".to_string();
    r.source_sha = String::new();
    assert_eq!(validate_sync_request(&r), Err("runner tag is required".to_string()));
    r.locale = "ru".to_string();
    assert_eq!(validate_sync_request(&r), Err("Не заполнено поле: тег раннера".to_string()));
    let mut r = request();
    r.target_branch = String::new();
    assert_eq!(validate_sync_request(&r), Err("Contour 2 branch is required".to_string()));
}

#[test]
fn unknown_action_is_refused() {
    let mut r = request();
    r.action = "mirror".to_string();
    assert_eq!(validate_sync_request(&r), Err("Unsupported runner action".to_string()));
    r.locale = "ru".to_string();
    assert_eq!(validate_sync_request(&r), Err("Неподдерживаемая операция раннера".to_string()));
}

#[test]
fn variables_carry_coordinates_but_no_token() {
    let mut r = request();
    r.target_sha = Some("bbb".to_string());
    let vars = pipeline_variables(&r);
    assert_eq!(vars.len(), 15);
    assert_eq!(vars[0], ("CONTOUR_SYNC".to_string(), "1".to_string()));
    assert_eq!(vars[1], ("SYNC_ACTION".to_string(), "preview".to_string()));
    assert_eq!(vars[9], ("EXPECTED_SOURCE_SHA".to_string(), "aaa".to_string()));
    assert_eq!(vars[14], ("EXPECTED_TARGET_SHA".to_string(), "bbb".to_string()));
    assert!(vars.iter().all(|(_, v)| !v.contains("secret-token")));
    let vars = pipeline_variables(&request());
    assert_eq!(vars[14], ("EXPECTED_TARGET_SHA".to_string(), String::new()));
}

#[test]
fn pipeline_endpoints() {
    let r = request();
    let root = "https://dev/rest-api/project/devops/images-transfer/cicd/pipeline";
    assert_eq!(pipeline_start_endpoint("https://dev", &r), format!("{root}/start"));
    assert_eq!(pipeline_list_endpoint("https://dev", &r, 3), format!("{root}?page=3&size=100"));
    assert_eq!(pipeline_jobs_endpoint("https://dev", &r, 42), format!("{root}/42/jobs?page=0&size=100"));
    assert_eq!(pipeline_artifacts_endpoint("https://dev", &r, 42), format!("{root}/42/artifacts-download"));
}

fn s(t: &str) -> Json {
    Json::Str(t.to_string())
}

fn obj(members: Vec<(&str, Json)>) -> Json {
    Json::Object(members.into_iter().map(|(k, v)| (k.to_string(), v)).collect())
}

fn n(v: u64) -> Json {
    Json::Number(JsonNumber::PosInt(v))
}

#[test]
fn uuid_of_started_pipeline() {
    assert_eq!(pipeline_uuid_from(&obj(vec![("pipeline_uuid", s("u-1"))]), "en"), Ok("u-1".to_string()));
    assert_eq!(pipeline_uuid_from(&obj(vec![]), "en"), Err("GitFlic did not return pipeline_uuid".to_string()));
    assert_eq!(pipeline_uuid_from(&s("x"), "ru"), Err("GitFlic не вернул pipeline_uuid".to_string()));
    assert_eq!(start_response_error("bad", "body", "en"), "Invalid pipeline response: bad\nbody");
    assert_eq!(start_response_error("bad", "body", "ru"), "Некорректный ответ запуска pipeline: bad\nbody");
}

fn pipelines(items: Vec<Json>, total: u64) -> Json {
    obj(vec![
        ("_embedded", obj(vec![("restPipelineModelList", Json::Array(items))])),
        ("page", obj(vec![("totalPages", n(total))])),
    ])
}

#[test]
fn locate_finds_the_pipeline() {
    let page = pipelines(
        vec![
            obj(vec![("id", s("other")), ("localId", n(1))]),
            obj(vec![("id", s("u-1")), ("localId", n(17)), ("status", s("RUNNING"))]),
        ],
        1,
    );
    match locate_in_page(&page, "u-1", 0) {
        LocateStep::Found(id, status) => assert_eq!((id, status.as_str()), (17, "RUNNING")),
        _ => panic!("not found"),
    }
    let page = pipelines(vec![obj(vec![("id", s("u-1")), ("localId", Json::Number(JsonNumber::NegInt(-1)))])], 1);
    match locate_in_page(&page, "u-1", 0) {
        LocateStep::Found(id, status) => assert_eq!((id, status.as_str()), (u64::MAX, "CREATED")),
        _ => panic!("not found"),
    }
}

#[test]
fn locate_pages_on() {
    let page = pipelines(vec![], 20);
    assert!(matches!(locate_in_page(&page, "u", 0), LocateStep::Next(1)));
    assert!(matches!(locate_in_page(&page, "u", 9), LocateStep::Missing));
    assert!(matches!(locate_in_page(&pipelines(vec![], 2), "u", 1), LocateStep::Missing));
    assert!(matches!(locate_in_page(&obj(vec![]), "u", 0), LocateStep::Missing));
}

#[test]
fn jobs_are_read() {
    let json = obj(vec![(
        "_embedded",
        obj(vec![(
            "restPipelineJobModelList",
            Json::Array(vec![
                obj(vec![("name", s("sync")), ("status", s("SUCCESS")), ("localId", n(5)), ("stageName", s("run"))]),
                obj(vec![]),
            ]),
        )]),
    )]);
    let jobs = jobs_from_json(&json);
    assert_eq!(jobs.len(), 2);
    assert_eq!((jobs[0].name.as_str(), jobs[0].status.as_str(), jobs[0].local_id), ("sync", "SUCCESS", 5));
    assert_eq!(jobs[0].stage_name, Some("run".to_string()));
    assert_eq!((jobs[1].name.as_str(), jobs[1].status.as_str(), jobs[1].local_id), ("", "CREATED", 0));
    assert!(jobs_from_json(&obj(vec![])).is_empty());
}

#[test]
fn terminal_statuses() {
    for t in ["SUCCESS", "FAILED", "CANCELED", "SKIPPED", "WARNING"] {
        assert!(terminal_status(t));
    }
    for t in ["RUNNING", "CREATED", "success", ""] {
        assert!(!terminal_status(t));
    }
}

#[test]
fn polling_stops_on_terminal_status() {
    let st = poll_start();
    let (st, action) = poll_observe(st, None);
    assert!(matches!(action, PollAction::WaitAndSearch));
    let (st, action) = poll_observe(st, Some((9, "RUNNING".to_string())));
    assert!(matches!(action, PollAction::WaitAndSearch));
    let (st, action) = poll_observe(st, Some((9, "SUCCESS".to_string())));
    assert!(matches!(action, PollAction::Finish));
    assert_eq!(st.attempts, 3);
    assert_eq!(poll_result(st, "u", "en"), Ok((9, "SUCCESS".to_string())));
}

#[test]
fn polling_gives_up_after_300_searches() {
    let mut st = poll_start();
    let mut count = 0;
    loop {
        let (next, action) = poll_observe(st, Some((4, "RUNNING".to_string())));
        st = next;
        count += 1;
        match action {
            PollAction::WaitAndSearch => continue,
            PollAction::WaitAndFinish => break,
            PollAction::Finish => panic!("not terminal"),
        }
    }
    assert_eq!(count, 300);
    assert_eq!(
        poll_result(st, "u", "en"),
        Err("Pipeline #4 did not finish within 10 minutes (status: RUNNING)".to_string())
    );
}

#[test]
fn polling_without_pipeline() {
    let st = PollState { local_id: 0, status: "CREATED".to_string(), found: false, attempts: 300 };
    assert_eq!(
        poll_result(st, "u-1", "en"),
        Err("Pipeline u-1 was started, but its local ID could not be found".to_string())
    );
    let st = PollState { local_id: 0, status: "SUCCESS".to_string(), found: true, attempts: 1 };
    assert_eq!(
        poll_result(st, "u-1", "ru"),
        Err("Pipeline u-1 запущен, но не удалось определить его локальный номер".to_string())
    );
    let st = PollState { local_id: 2, status: "RUNNING".to_string(), found: true, attempts: 300 };
    assert_eq!(
        poll_result(st, "u", "ru"),
        Err("Pipeline #2 не завершился за 10 минут (статус: RUNNING)".to_string())
    );
}
