//! A sync request: its checks, the variables of the runner pipeline, the
//! pipeline API's URLs, and the decisions of the polling loop.
use vstd::prelude::*;

use crate::diff::string_from;
use crate::json::{
    as_list, as_signed, as_text, as_unsigned, field, field_of, get_of, list_of,
    signed_of, text_of, unsigned_of, Json,
};
use crate::messages::{is_en, localized, pick, required};
use crate::runner::{opt_view, text_or, PipelineJob};
use crate::text::{append_str, chars_of, decimal_text, trim, u64_text};

verus! {

/// What the user asked the runner to do.
pub struct SyncRequest {
    pub control_url: String,
    pub control_token: String,
    pub control_owner: String,
    pub control_project: String,
    pub control_branch: String,
    pub runner_tag: String,
    pub source_url: String,
    pub source_owner: String,
    pub source_project: String,
    pub source_branch: String,
    pub source_sha: String,
    pub target_url: String,
    pub target_owner: String,
    pub target_project: String,
    pub target_branch: String,
    pub target_sha: Option<String>,
    pub action: String,
    pub request_id: String,
    pub locale: String,
}

/// The message for a blank required field.
pub open spec fn required_text(field_ru: Seq<char>, field_en: Seq<char>, locale: Seq<char>) -> Seq<char> {
    pick(locale, field_en + " is required"@, "Не заполнено поле: "@ + field_ru)
}

/// Whether a field is blank.
pub open spec fn blank(s: Seq<char>) -> bool {
    trim(s).len() == 0
}

/// The first problem of a request, in the order the fields are checked, or
/// none: nine fields must not be blank, and the action must be `preview` or
/// `push`.
pub open spec fn request_problem(r: SyncRequest) -> Option<Seq<char>> {
    let l = r.locale@;
    if blank(r.control_owner@) {
        Some(required_text("владелец проекта переноса"@, "transfer project owner"@, l))
    } else if blank(r.control_project@) {
        Some(required_text("проект переноса"@, "transfer project"@, l))
    } else if blank(r.control_branch@) {
        Some(required_text("ветка pipeline"@, "pipeline branch"@, l))
    } else if blank(r.runner_tag@) {
        Some(required_text("тег раннера"@, "runner tag"@, l))
    } else if blank(r.source_owner@) {
        Some(required_text("проект контура 1"@, "Contour 1 project"@, l))
    } else if blank(r.source_branch@) {
        Some(required_text("ветка контура 1"@, "Contour 1 branch"@, l))
    } else if blank(r.source_sha@) {
        Some(required_text("SHA контура 1"@, "Contour 1 SHA"@, l))
    } else if blank(r.target_owner@) {
        Some(required_text("проект контура 2"@, "Contour 2 project"@, l))
    } else if blank(r.target_branch@) {
        Some(required_text("ветка контура 2"@, "Contour 2 branch"@, l))
    } else if !(r.action@ == "preview"@ || r.action@ == "push"@) {
        Some(pick(l, "Unsupported runner action"@, "Неподдерживаемая операция раннера"@))
    } else {
        None
    }
}

/// Checks a request before any pipeline is started.
pub fn validate_sync_request(request: &SyncRequest) -> (r: Result<(), String>)
    ensures
        match r {
            Ok(()) => request_problem(*request) is None,
            Err(m) => request_problem(*request) == Some(m@),
        },
{
    let l = request.locale.as_str();
    required(request.control_owner.as_str(), "владелец проекта переноса", "transfer project owner", l)?;
    required(request.control_project.as_str(), "проект переноса", "transfer project", l)?;
    required(request.control_branch.as_str(), "ветка pipeline", "pipeline branch", l)?;
    required(request.runner_tag.as_str(), "тег раннера", "runner tag", l)?;
    required(request.source_owner.as_str(), "проект контура 1", "Contour 1 project", l)?;
    required(request.source_branch.as_str(), "ветка контура 1", "Contour 1 branch", l)?;
    required(request.source_sha.as_str(), "SHA контура 1", "Contour 1 SHA", l)?;
    required(request.target_owner.as_str(), "проект контура 2", "Contour 2 project", l)?;
    required(request.target_branch.as_str(), "ветка контура 2", "Contour 2 branch", l)?;
    let action = chars_of(request.action.as_str());
    if !(crate::runner::chars_eq_str(&action, "preview") || crate::runner::chars_eq_str(&action, "push")) {
        return Err(localized(l, "Unsupported runner action", "Неподдерживаемая операция раннера"));
    }
    Ok(())
}

/// The variables that a pipeline run receives: the request's coordinates
/// and expected SHAs (an absent target SHA is passed empty); no token.
pub open spec fn pipeline_variables_of(r: SyncRequest) -> Seq<(Seq<char>, Seq<char>)> {
    seq![
        ("CONTOUR_SYNC"@, "1"@),
        ("SYNC_ACTION"@, r.action@),
        ("SYNC_REQUEST_ID"@, r.request_id@),
        ("SYNC_LOCALE"@, r.locale@),
        ("RUNNER_TAG"@, r.runner_tag@),
        ("SOURCE_BASE_URL"@, r.source_url@),
        ("SOURCE_OWNER"@, r.source_owner@),
        ("SOURCE_PROJECT"@, r.source_project@),
        ("SOURCE_BRANCH"@, r.source_branch@),
        ("EXPECTED_SOURCE_SHA"@, r.source_sha@),
        ("TARGET_BASE_URL"@, r.target_url@),
        ("TARGET_OWNER"@, r.target_owner@),
        ("TARGET_PROJECT"@, r.target_project@),
        ("TARGET_BRANCH"@, r.target_branch@),
        ("EXPECTED_TARGET_SHA"@, text_or(opt_view(r.target_sha), Seq::empty())),
    ]
}

/// The (key, value) variables of a pipeline run, in order.
pub fn pipeline_variables(request: &SyncRequest) -> (r: Vec<(String, String)>)
    ensures
        r.deep_view() == pipeline_variables_of(*request),
{
    let target_sha = match &request.target_sha {
        Some(s) => s.clone(),
        None => String::new(),
    };
    let mut r: Vec<(String, String)> = Vec::new();
    r.push((string_from("CONTOUR_SYNC"), string_from("1")));
    r.push((string_from("SYNC_ACTION"), request.action.clone()));
    r.push((string_from("SYNC_REQUEST_ID"), request.request_id.clone()));
    r.push((string_from("SYNC_LOCALE"), request.locale.clone()));
    r.push((string_from("RUNNER_TAG"), request.runner_tag.clone()));
    r.push((string_from("SOURCE_BASE_URL"), request.source_url.clone()));
    r.push((string_from("SOURCE_OWNER"), request.source_owner.clone()));
    r.push((string_from("SOURCE_PROJECT"), request.source_project.clone()));
    r.push((string_from("SOURCE_BRANCH"), request.source_branch.clone()));
    r.push((string_from("EXPECTED_SOURCE_SHA"), request.source_sha.clone()));
    r.push((string_from("TARGET_BASE_URL"), request.target_url.clone()));
    r.push((string_from("TARGET_OWNER"), request.target_owner.clone()));
    r.push((string_from("TARGET_PROJECT"), request.target_project.clone()));
    r.push((string_from("TARGET_BRANCH"), request.target_branch.clone()));
    r.push((string_from("EXPECTED_TARGET_SHA"), target_sha));
    assert(r.deep_view() =~= pipeline_variables_of(*request));
    r
}

// ---------------------------------------------------------------------------
// Pipeline URLs
// ---------------------------------------------------------------------------

/// `base/rest-api/project/<owner>/<project>/cicd/pipeline` of the transfer project.
pub open spec fn pipeline_root(base: Seq<char>, r: SyncRequest) -> Seq<char> {
    base + "/rest-api/project/"@ + r.control_owner@ + "/"@ + r.control_project@ + "/cicd/pipeline"@
}

fn pipeline_root_of(base: &str, request: &SyncRequest) -> (r: String)
    ensures
        r@ == pipeline_root(base@, *request),
{
    let mut r = base.to_owned();
    append_str(&mut r, "/rest-api/project/");
    append_str(&mut r, request.control_owner.as_str());
    append_str(&mut r, "/");
    append_str(&mut r, request.control_project.as_str());
    append_str(&mut r, "/cicd/pipeline");
    r
}

/// The URL that starts a pipeline.
pub fn pipeline_start_endpoint(base: &str, request: &SyncRequest) -> (r: String)
    ensures
        r@ == pipeline_root(base@, *request) + "/start"@,
{
    let mut r = pipeline_root_of(base, request);
    append_str(&mut r, "/start");
    r
}

/// The URL of page `page` of the pipeline list.
pub fn pipeline_list_endpoint(base: &str, request: &SyncRequest, page: u32) -> (r: String)
    ensures
        r@ == pipeline_root(base@, *request) + "?page="@ + decimal_text(page as nat) + "&size=100"@,
{
    let mut r = pipeline_root_of(base, request);
    append_str(&mut r, "?page=");
    let p = u64_text(page as u64);
    append_str(&mut r, p.as_str());
    append_str(&mut r, "&size=100");
    r
}

/// The URL of a pipeline's jobs.
pub fn pipeline_jobs_endpoint(base: &str, request: &SyncRequest, local_id: u64) -> (r: String)
    ensures
        r@ == pipeline_root(base@, *request) + "/"@ + decimal_text(local_id as nat)
            + "/jobs?page=0&size=100"@,
{
    let mut r = pipeline_root_of(base, request);
    append_str(&mut r, "/");
    let id = u64_text(local_id);
    append_str(&mut r, id.as_str());
    append_str(&mut r, "/jobs?page=0&size=100");
    r
}

/// The URL of a pipeline's artifacts.
pub fn pipeline_artifacts_endpoint(base: &str, request: &SyncRequest, local_id: u64) -> (r: String)
    ensures
        r@ == pipeline_root(base@, *request) + "/"@ + decimal_text(local_id as nat)
            + "/artifacts-download"@,
{
    let mut r = pipeline_root_of(base, request);
    append_str(&mut r, "/");
    let id = u64_text(local_id);
    append_str(&mut r, id.as_str());
    append_str(&mut r, "/artifacts-download");
    r
}

// ---------------------------------------------------------------------------
// Pipeline responses
// ---------------------------------------------------------------------------

/// The uuid of a started pipeline, or the message when GitFlic gave none.
pub open spec fn started_uuid(json: Json, locale: Seq<char>) -> Result<Seq<char>, Seq<char>> {
    match as_text(field(json, "pipeline_uuid"@)) {
        Some(u) => Ok(u),
        None => Err(pick(locale, "GitFlic did not return pipeline_uuid"@, "GitFlic не вернул pipeline_uuid"@)),
    }
}

/// Reads the uuid from the answer to a pipeline start.
pub fn pipeline_uuid_from(json: &Json, locale: &str) -> (r: Result<String, String>)
    ensures
        crate::contour::result_view(r) == started_uuid(*json, locale@),
{
    match text_of(json.get("pipeline_uuid")) {
        Some(u) => Ok(u),
        None => Err(localized(locale, "GitFlic did not return pipeline_uuid", "GitFlic не вернул pipeline_uuid")),
    }
}

/// The message for an answer to a pipeline start that is not JSON.
pub open spec fn start_response_error_text(error: Seq<char>, body: Seq<char>, locale: Seq<char>) -> Seq<char> {
    pick(locale, "Invalid pipeline response"@, "Некорректный ответ запуска pipeline"@) + ": "@ + error
        + "\n"@ + crate::messages::preview_of(body, locale)
}

/// The message for an answer to a pipeline start that is not JSON.
pub fn start_response_error(error: &str, body: &str, locale: &str) -> (r: String)
    ensures
        r@ == start_response_error_text(error@, body@, locale@),
{
    let mut r = localized(locale, "Invalid pipeline response", "Некорректный ответ запуска pipeline");
    append_str(&mut r, ": ");
    append_str(&mut r, error);
    append_str(&mut r, "\n");
    let p = crate::messages::body_preview(body, locale);
    append_str(&mut r, p.as_str());
    r
}

/// The first item of `items` whose `id` is `uuid`.
pub open spec fn find_pipeline(items: Seq<Json>, uuid: Seq<char>) -> Option<Json>
    decreases items.len(),
{
    if items.len() == 0 {
        None
    } else if as_text(field(items[0], "id"@)) == Some(uuid) {
        Some(items[0])
    } else {
        find_pipeline(items.drop_first(), uuid)
    }
}

/// The local number of a listed pipeline: `localId` as an unsigned or a
/// signed integer (taken modulo 2^64), or 0.
pub open spec fn listed_local_id(item: Json) -> u64 {
    match as_unsigned(field(item, "localId"@)) {
        Some(n) => n,
        None => match as_signed(field(item, "localId"@)) {
            Some(n) => #[verifier::truncate] (n as u64),
            None => 0,
        },
    }
}

/// The status of a listed pipeline, `CREATED` when absent.
pub open spec fn listed_status(item: Json) -> Seq<char> {
    text_or(as_text(field(item, "status"@)), "CREATED"@)
}

/// The outcome of searching one page of the pipeline list.
pub enum LocateStep {
    /// The pipeline: its local number and status.
    Found(u64, String),
    /// Not on this page; the page to read next.
    Next(u32),
    /// Not on this page, and no page is left to read.
    Missing,
}

/// How many pages of the pipeline list are searched.
pub const LOCATE_PAGES: u64 = 10;

/// What a page of the pipeline list says about the pipeline `uuid`.
pub open spec fn locate_step_of(json: Json, uuid: Seq<char>, page: u32) -> LocateModel {
    let items = match as_list(field_of(field(json, "_embedded"@), "restPipelineModelList"@)) {
        Some(items) => items,
        None => seq![],
    };
    match find_pipeline(items, uuid) {
        Some(item) => LocateModel::Found(listed_local_id(item), listed_status(item)),
        None => {
            let total = match as_unsigned(field_of(field(json, "page"@), "totalPages"@)) {
                Some(t) => t,
                None => 1,
            };
            if page + 1 >= total || page + 1 >= LOCATE_PAGES {
                LocateModel::Missing
            } else {
                LocateModel::Next((page + 1) as u32)
            }
        },
    }
}

/// The plain-value model of a locate step.
pub enum LocateModel {
    Found(u64, Seq<char>),
    Next(u32),
    Missing,
}

/// The model of a locate step.
pub open spec fn locate_view(s: LocateStep) -> LocateModel {
    match s {
        LocateStep::Found(id, st) => LocateModel::Found(id, st@),
        LocateStep::Next(p) => LocateModel::Next(p),
        LocateStep::Missing => LocateModel::Missing,
    }
}

/// Searches one page of the pipeline list for the pipeline `uuid`.
pub fn locate_in_page(json: &Json, uuid: &str, page: u32) -> (r: LocateStep)
    ensures
        locate_view(r) == locate_step_of(*json, uuid@, page),
{
    let ghost items = match as_list(field_of(field(*json, "_embedded"@), "restPipelineModelList"@)) {
        Some(items) => items,
        None => seq![],
    };
    match list_of(get_of(json.get("_embedded"), "restPipelineModelList")) {
        Some(list) => {
            let mut i: usize = 0;
            assert(list@.skip(0) == list@);
            while i < list.len()
                invariant
                    i <= list@.len(),
                    items == list@,
                    as_list(field_of(field(*json, "_embedded"@), "restPipelineModelList"@)) == Some(list@),
                    find_pipeline(list@.skip(i as int), uuid@) == find_pipeline(list@, uuid@),
                decreases list@.len() - i,
            {
                let item = &list[i];
                proof {
                    assert(list@.skip(i as int)[0] == *item);
                    assert(list@.skip(i as int).drop_first() == list@.skip(i + 1));
                }
                let id = text_of(item.get("id"));
                let matches = match &id {
                    Some(s) => {
                        let a = chars_of(s.as_str());
                        crate::runner::chars_eq_str(&a, uuid)
                    },
                    None => false,
                };
                if matches {
                    proof {
                        assert(as_text(field(*item, "id"@)) == Some(uuid@));
                        assert(find_pipeline(list@.skip(i as int), uuid@) == Some(*item));
                    }
                    let local_id = match unsigned_of(item.get("localId")) {
                        Some(n) => n,
                        None => match signed_of(item.get("localId")) {
                            Some(n) => #[verifier::truncate] (n as u64),
                            None => 0,
                        },
                    };
                    let status = match text_of(item.get("status")) {
                        Some(s) => s,
                        None => string_from("CREATED"),
                    };
                    return LocateStep::Found(local_id, status);
                }
                i = i + 1;
            }
        },
        None => {},
    }
    let total = match unsigned_of(get_of(json.get("page"), "totalPages")) {
        Some(t) => t,
        None => 1,
    };
    let next = page as u64 + 1;
    if next >= total || next >= LOCATE_PAGES {
        LocateStep::Missing
    } else {
        LocateStep::Next(next as u32)
    }
}

/// The job that a listed job item describes.
pub open spec fn job_model(item: Json) -> (Seq<char>, Seq<char>, u64, Option<Seq<char>>) {
    (
        text_or(as_text(field(item, "name"@)), Seq::empty()),
        text_or(as_text(field(item, "status"@)), "CREATED"@),
        match as_unsigned(field(item, "localId"@)) {
            Some(n) => n,
            None => 0,
        },
        as_text(field(item, "stageName"@)),
    )
}

/// The model of a job.
pub open spec fn job_view(j: PipelineJob) -> (Seq<char>, Seq<char>, u64, Option<Seq<char>>) {
    (j.name@, j.status@, j.local_id, opt_view(j.stage_name))
}

/// The jobs that a job list describes, one per item.
pub open spec fn jobs_of(json: Json) -> Seq<(Seq<char>, Seq<char>, u64, Option<Seq<char>>)> {
    match as_list(field_of(field(json, "_embedded"@), "restPipelineJobModelList"@)) {
        Some(items) => items.map_values(|item: Json| job_model(item)),
        None => seq![],
    }
}

/// Reads the jobs of a pipeline from its job list.
pub fn jobs_from_json(json: &Json) -> (r: Vec<PipelineJob>)
    ensures
        r@.map_values(|j: PipelineJob| job_view(j)) == jobs_of(*json),
{
    let mut jobs: Vec<PipelineJob> = Vec::new();
    proof {
        reveal_strlit("");
    }
    match list_of(get_of(json.get("_embedded"), "restPipelineJobModelList")) {
        Some(items) => {
            let mut i: usize = 0;
            while i < items.len()
                invariant
                    i <= items@.len(),
                    jobs@.map_values(|j: PipelineJob| job_view(j)) == items@.take(i as int).map_values(
                        |item: Json| job_model(item),
                    ),
                decreases items@.len() - i,
            {
                let item = &items[i];
                let job = PipelineJob {
                    name: match text_of(item.get("name")) {
                        Some(s) => s,
                        None => String::new(),
                    },
                    status: match text_of(item.get("status")) {
                        Some(s) => s,
                        None => string_from("CREATED"),
                    },
                    local_id: match unsigned_of(item.get("localId")) {
                        Some(n) => n,
                        None => 0,
                    },
                    stage_name: text_of(item.get("stageName")),
                };
                let ghost before = jobs@;
                jobs.push(job);
                proof {
                    assert(job_view(job) == job_model(*item));
                    assert(jobs@.map_values(|j: PipelineJob| job_view(j)) =~= before.map_values(
                        |j: PipelineJob| job_view(j),
                    ).push(job_view(job)));
                    assert(items@.take(i + 1).map_values(|item: Json| job_model(item))
                        =~= items@.take(i as int).map_values(|item: Json| job_model(item)).push(
                        job_model(items@[i as int]),
                    ));
                }
                i = i + 1;
            }
            assert(items@.take(items@.len() as int) =~= items@);
        },
        None => {
            assert(jobs@.map_values(|j: PipelineJob| job_view(j)) =~= Seq::<
                (Seq<char>, Seq<char>, u64, Option<Seq<char>>),
            >::empty());
        },
    }
    jobs
}

// ---------------------------------------------------------------------------
// Polling
// ---------------------------------------------------------------------------

/// Whether a pipeline status is final.
pub open spec fn is_terminal(status: Seq<char>) -> bool {
    status == "SUCCESS"@ || status == "FAILED"@ || status == "CANCELED"@ || status == "SKIPPED"@
        || status == "WARNING"@
}

/// Whether a pipeline status is final: success, failure, cancelled,
/// skipped or warning.
pub fn terminal_status(status: &str) -> (r: bool)
    ensures
        r == is_terminal(status@),
{
    let v = chars_of(status);
    crate::runner::chars_eq_str(&v, "SUCCESS") || crate::runner::chars_eq_str(&v, "FAILED")
        || crate::runner::chars_eq_str(&v, "CANCELED") || crate::runner::chars_eq_str(&v, "SKIPPED")
        || crate::runner::chars_eq_str(&v, "WARNING")
}

/// How many times the pipeline list is searched, two seconds apart.
pub const POLL_ATTEMPTS: u32 = 300;

/// What the polling loop knows about the started pipeline.
pub struct PollState {
    pub local_id: u64,
    pub status: String,
    pub found: bool,
    pub attempts: u32,
}

/// What the polling loop does next.
pub enum PollAction {
    /// Stop at once.
    Finish,
    /// Wait two seconds, then search again.
    WaitAndSearch,
    /// Wait two seconds, then stop.
    WaitAndFinish,
}

/// The state before the first search.
pub fn poll_start() -> (r: PollState)
    ensures
        r.local_id == 0,
        r.status@ == "CREATED"@,
        !r.found,
        r.attempts == 0,
{
    PollState { local_id: 0, status: string_from("CREATED"), found: false, attempts: 0 }
}

/// The state and the next action after one search, which found the pipeline
/// with `located = Some((local number, status))` or did not find it. The
/// loop stops as soon as a final status is seen, and otherwise after
/// `POLL_ATTEMPTS` searches, each followed by a two-second wait.
pub fn poll_observe(state: PollState, located: Option<(u64, String)>) -> (r: (PollState, PollAction))
    requires
        state.attempts < POLL_ATTEMPTS,
    ensures
        match located {
            Some((id, st)) => r.0.local_id == id && r.0.status@ == st@ && r.0.found,
            None => r.0.local_id == state.local_id && r.0.status@ == state.status@ && r.0.found
                == state.found,
        },
        r.0.attempts == state.attempts + 1,
        (r.1 is Finish) <==> (located is Some && is_terminal(r.0.status@)),
        (r.1 is WaitAndFinish) <==> (!(r.1 is Finish) && r.0.attempts == POLL_ATTEMPTS),
        (r.1 is WaitAndSearch) <==> (!(r.1 is Finish) && r.0.attempts < POLL_ATTEMPTS),
{
    let attempts = state.attempts + 1;
    match located {
        Some((id, st)) => {
            let terminal = terminal_status(st.as_str());
            let next = PollState { local_id: id, status: st, found: true, attempts };
            if terminal {
                (next, PollAction::Finish)
            } else if attempts == POLL_ATTEMPTS {
                (next, PollAction::WaitAndFinish)
            } else {
                (next, PollAction::WaitAndSearch)
            }
        },
        None => {
            let next = PollState { local_id: state.local_id, status: state.status, found: state.found, attempts };
            if attempts == POLL_ATTEMPTS {
                (next, PollAction::WaitAndFinish)
            } else {
                (next, PollAction::WaitAndSearch)
            }
        },
    }
}

/// What polling ended with: the pipeline's local number and final status,
/// or the message for a pipeline that was not found or did not finish.
pub open spec fn poll_result_of(state: PollState, uuid: Seq<char>, locale: Seq<char>) -> Result<(u64, Seq<char>), Seq<char>> {
    if !state.found || state.local_id == 0 {
        Err(
            pick(
                locale,
                "Pipeline "@ + uuid + " was started, but its local ID could not be found"@,
                "Pipeline "@ + uuid + " запущен, но не удалось определить его локальный номер"@,
            ),
        )
    } else if !is_terminal(state.status@) {
        Err(
            pick(
                locale,
                "Pipeline #"@ + decimal_text(state.local_id as nat) + " did not finish within 10 minutes (status: "@
                    + state.status@ + ")"@,
                "Pipeline #"@ + decimal_text(state.local_id as nat) + " не завершился за 10 минут (статус: "@
                    + state.status@ + ")"@,
            ),
        )
    } else {
        Ok((state.local_id, state.status@))
    }
}

/// The outcome of polling.
pub fn poll_result(state: PollState, uuid: &str, locale: &str) -> (r: Result<(u64, String), String>)
    ensures
        match r {
            Ok((id, st)) => poll_result_of(state, uuid@, locale@) == Ok::<(u64, Seq<char>), Seq<char>>(
                (id, st@),
            ),
            Err(m) => poll_result_of(state, uuid@, locale@) == Err::<(u64, Seq<char>), Seq<char>>(m@),
        },
{
    let en = is_en(locale);
    if !state.found || state.local_id == 0 {
        let mut m = string_from("Pipeline ");
        append_str(&mut m, uuid);
        append_str(
            &mut m,
            if en {
                " was started, but its local ID could not be found"
            } else {
                " запущен, но не удалось определить его локальный номер"
            },
        );
        return Err(m);
    }
    if !terminal_status(state.status.as_str()) {
        let mut m = string_from("Pipeline #");
        let id = u64_text(state.local_id);
        append_str(&mut m, id.as_str());
        append_str(
            &mut m,
            if en {
                " did not finish within 10 minutes (status: "
            } else {
                " не завершился за 10 минут (статус: "
            },
        );
        append_str(&mut m, state.status.as_str());
        append_str(&mut m, ")");
        return Err(m);
    }
    Ok((state.local_id, state.status))
}

} // verus!
