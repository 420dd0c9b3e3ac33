use contour_sync::gitflic::{
    branch_from_value, branches_page, merge_projects, project_from_value, projects_page, sort_branches,
    BranchItem, ProjectItem,
};
use contour_sync::json::{Json, JsonNumber};

fn s(t: &str) -> Json {
    Json::Str(t.to_string())
}

fn obj(members: Vec<(&str, Json)>) -> Json {
    Json::Object(members.into_iter().map(|(k, v)| (k.to_string(), v)).collect())
}

fn project_json(id: &str, owner: &str, title: &str) -> Json {
    obj(vec![
        ("id", s(id)),
        ("title", s(title)),
        ("alias", s(&title.to_lowercase())),
        ("owner", obj(vec![("alias", s(owner)), ("type", s("USER"))])),
        ("private", Json::Bool(true)),
        ("defaultBranch", s("main")),
    ])
}

#[test]
fn project_is_read_from_json() {
    let p = project_from_value(&project_json("1", "dev", "App")).unwrap();
    assert_eq!(p.id, "1");
    assert_eq!(p.owner, "dev");
    assert_eq!(p.owner_type, Some("USER".to_string()));
    assert_eq!(p.name, "App");
    assert_eq!(p.alias, "app");
    assert_eq!(p.description, None);
    assert_eq!(p.default_branch, Some("main".to_string()));
    assert_eq!(p.work_branch, None);
    assert!(p.private);
}

#[test]
fn project_needs_owner_alias() {
    let v = obj(vec![("id", s("1")), ("title", s("T")), ("alias", s("t")), ("owner", s("dev"))]);
    assert!(project_from_value(&v).is_none());
    let v = obj(vec![("id", Json::Number(JsonNumber::PosInt(1))), ("title", s("T")), ("alias", s("t"))]);
    assert!(project_from_value(&v).is_none());
}

#[test]
fn branch_is_read_from_json() {
    let v = obj(vec![
        ("name", s("main")),
        ("lastCommit", obj(vec![("hash", s("abc")), ("createdAt", s("2024-01-01"))])),
        ("default", Json::Bool(true)),
    ]);
    let b = branch_from_value(&v).unwrap();
    assert_eq!((b.name.as_str(), b.sha.as_str()), ("main", "abc"));
    assert_eq!(b.updated_at, Some("2024-01-01".to_string()));
    assert!(b.default && !b.work);
    let no_hash = obj(vec![("name", s("x")), ("lastCommit", obj(vec![]))]);
    assert!(branch_from_value(&no_hash).is_none());
}

fn page(list: &str, items: Vec<Json>, total: Option<u64>) -> Json {
    let mut members = vec![("_embedded", obj(vec![(list, Json::Array(items))]))];
    if let Some(t) = total {
        members.push(("page", obj(vec![("totalPages", Json::Number(JsonNumber::PosInt(t)))])));
    }
    obj(members)
}

#[test]
fn project_pages() {
    let json = page("projectList", vec![project_json("1", "a", "A"), s("junk"), project_json("2", "b", "B")], Some(3));
    let (items, next) = projects_page(&json, 0);
    assert_eq!(items.iter().map(|p| p.id.as_str()).collect::<Vec<_>>(), vec!["1", "2"]);
    assert_eq!(next, Some(1));
    let (_, next) = projects_page(&json, 2);
    assert_eq!(next, None);
    let (items, next) = projects_page(&obj(vec![]), 0);
    assert!(items.is_empty());
    assert_eq!(next, None);
    let many = page("projectList", vec![], Some(500));
    assert_eq!(projects_page(&many, 98).1, Some(99));
    assert_eq!(projects_page(&many, 99).1, None);
}

#[test]
fn branch_pages() {
    let b = obj(vec![("name", s("dev")), ("lastCommit", obj(vec![("hash", s("1"))]))]);
    let (items, next) = branches_page(&page("branchList", vec![b], None), 0);
    assert_eq!(items.len(), 1);
    assert_eq!(next, None);
}

fn project(id: &str, owner: &str, name: &str) -> ProjectItem {
    project_from_value(&project_json(id, owner, name)).unwrap()
}

#[test]
fn merged_projects_are_unique_and_sorted() {
    let owned = vec![project("3", "zed", "x"), project("1", "Dev", "beta"), project("2", "dev", "Alpha")];
    let mut shared_one = project("1", "dev", "Beta");
    shared_one.description = Some("shared".to_string());
    let shared = vec![shared_one, project("4", "dev", "alpha")];
    let out = merge_projects(owned, shared);
    let ids: Vec<_> = out.iter().map(|p| p.id.as_str()).collect();
    assert_eq!(ids, vec!["2", "4", "1", "3"]);
    assert_eq!(out[2].description, Some("shared".to_string()));
}

fn branch(name: &str, default: bool, work: bool) -> BranchItem {
    BranchItem { name: name.to_string(), sha: "s".to_string(), updated_at: None, default, work }
}

#[test]
fn branches_default_then_work_then_name() {
    let out = sort_branches(vec![
        branch("feature", false, false),
        branch("Develop", false, true),
        branch("b", false, false),
        branch("main", true, false),
        branch("B", false, false),
    ]);
    let names: Vec<_> = out.iter().map(|b| b.name.as_str()).collect();
    assert_eq!(names, vec!["main", "Develop", "b", "B", "feature"]);
}
