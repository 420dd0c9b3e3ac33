//! Projects and branches as the GitFlic API lists them.
use vstd::prelude::*;

use crate::json::{
    as_flag, as_list, as_text, as_unsigned, field, field_of, flag_of, get_of, list_of,
    text_of, unsigned_of, Json,
};
use crate::keyed::{insert_key, StrMap};
use crate::order::{is_stable_sort, stable_sort};
use crate::runner::opt_view;
use crate::text::chars_of;
use crate::outside::{lowercase, to_lowercase};

verus! {

/// A project of a contour.
pub struct ProjectItem {
    pub id: String,
    pub owner: String,
    pub owner_type: Option<String>,
    pub name: String,
    pub alias: String,
    pub description: Option<String>,
    pub default_branch: Option<String>,
    pub work_branch: Option<String>,
    pub private: bool,
}

/// The plain-value model of a project.
pub struct ProjectModel {
    pub id: Seq<char>,
    pub owner: Seq<char>,
    pub owner_type: Option<Seq<char>>,
    pub name: Seq<char>,
    pub alias: Seq<char>,
    pub description: Option<Seq<char>>,
    pub default_branch: Option<Seq<char>>,
    pub work_branch: Option<Seq<char>>,
    pub private: bool,
}

impl DeepView for ProjectItem {
    type V = ProjectModel;

    open spec fn deep_view(&self) -> ProjectModel {
        ProjectModel {
            id: self.id@,
            owner: self.owner@,
            owner_type: opt_view(self.owner_type),
            name: self.name@,
            alias: self.alias@,
            description: opt_view(self.description),
            default_branch: opt_view(self.default_branch),
            work_branch: opt_view(self.work_branch),
            private: self.private,
        }
    }
}

/// A branch of a project.
pub struct BranchItem {
    pub name: String,
    pub sha: String,
    pub updated_at: Option<String>,
    pub default: bool,
    pub work: bool,
}

/// The plain-value model of a branch.
pub struct BranchModel {
    pub name: Seq<char>,
    pub sha: Seq<char>,
    pub updated_at: Option<Seq<char>>,
    pub default: bool,
    pub work: bool,
}

impl DeepView for BranchItem {
    type V = BranchModel;

    open spec fn deep_view(&self) -> BranchModel {
        BranchModel {
            name: self.name@,
            sha: self.sha@,
            updated_at: opt_view(self.updated_at),
            default: self.default,
            work: self.work,
        }
    }
}

/// A flag that is false when absent.
pub open spec fn flag_or_false(v: Option<bool>) -> bool {
    match v {
        Some(b) => b,
        None => false,
    }
}

/// The project that a listed item describes: it needs the texts `id`,
/// `title`, `alias` and `owner.alias`; the other fields are optional.
pub open spec fn project_model(v: Json) -> Option<ProjectModel> {
    let owner = field(v, "owner"@);
    match (
        as_text(field(v, "id"@)),
        as_text(field(v, "title"@)),
        as_text(field(v, "alias"@)),
        as_text(field_of(owner, "alias"@)),
    ) {
        (Some(id), Some(name), Some(alias), Some(owner_alias)) => Some(
            ProjectModel {
                id,
                owner: owner_alias,
                owner_type: as_text(field_of(owner, "type"@)),
                name,
                alias,
                description: as_text(field(v, "description"@)),
                default_branch: as_text(field(v, "defaultBranch"@)),
                work_branch: as_text(field(v, "workBranch"@)),
                private: flag_or_false(as_flag(field(v, "private"@))),
            },
        ),
        _ => None,
    }
}

/// The branch that a listed item describes: it needs the texts `name` and
/// `lastCommit.hash`.
pub open spec fn branch_model(v: Json) -> Option<BranchModel> {
    let last = field(v, "lastCommit"@);
    match (as_text(field(v, "name"@)), last) {
        (Some(name), Some(_)) => match as_text(field_of(last, "hash"@)) {
            Some(sha) => Some(
                BranchModel {
                    name,
                    sha,
                    updated_at: as_text(field_of(last, "createdAt"@)),
                    default: flag_or_false(as_flag(field(v, "default"@))),
                    work: flag_or_false(as_flag(field(v, "work"@))),
                },
            ),
            None => None,
        },
        _ => None,
    }
}

/// Reads a project from an item of a project list.
pub fn project_from_value(value: &Json) -> (r: Option<ProjectItem>)
    ensures
        match r {
            Some(p) => project_model(*value) == Some(p.deep_view()),
            None => project_model(*value) is None,
        },
{
    let id = text_of(value.get("id"));
    let name = text_of(value.get("title"));
    let alias = text_of(value.get("alias"));
    let owner = value.get("owner");
    let owner_alias = text_of(get_of(owner, "alias"));
    match (id, name, alias, owner_alias) {
        (Some(id), Some(name), Some(alias), Some(owner_alias)) => Some(
            ProjectItem {
                id,
                owner: owner_alias,
                owner_type: text_of(get_of(owner, "type")),
                name,
                alias,
                description: text_of(value.get("description")),
                default_branch: text_of(value.get("defaultBranch")),
                work_branch: text_of(value.get("workBranch")),
                private: match flag_of(value.get("private")) {
                    Some(b) => b,
                    None => false,
                },
            },
        ),
        _ => None,
    }
}

/// Reads a branch from an item of a branch list.
pub fn branch_from_value(value: &Json) -> (r: Option<BranchItem>)
    ensures
        match r {
            Some(b) => branch_model(*value) == Some(b.deep_view()),
            None => branch_model(*value) is None,
        },
{
    let name = text_of(value.get("name"));
    let last = value.get("lastCommit");
    match (name, last) {
        (Some(name), Some(_)) => match text_of(get_of(last, "hash")) {
            Some(sha) => Some(
                BranchItem {
                    name,
                    sha,
                    updated_at: text_of(get_of(last, "createdAt")),
                    default: match flag_of(value.get("default")) {
                        Some(b) => b,
                        None => false,
                    },
                    work: match flag_of(value.get("work")) {
                        Some(b) => b,
                        None => false,
                    },
                },
            ),
            None => None,
        },
        _ => None,
    }
}

// ---------------------------------------------------------------------------
// Pages of a list
// ---------------------------------------------------------------------------

/// The most pages that a list is read to.
pub const MAX_PAGES: u64 = 100;

/// The projects that the items of a page describe, in order.
pub open spec fn projects_of_items(items: Seq<Json>) -> Seq<ProjectModel>
    decreases items.len(),
{
    if items.len() == 0 {
        seq![]
    } else {
        let prev = projects_of_items(items.drop_last());
        match project_model(items.last()) {
            Some(p) => prev.push(p),
            None => prev,
        }
    }
}

/// The branches that the items of a page describe, in order.
pub open spec fn branches_of_items(items: Seq<Json>) -> Seq<BranchModel>
    decreases items.len(),
{
    if items.len() == 0 {
        seq![]
    } else {
        let prev = branches_of_items(items.drop_last());
        match branch_model(items.last()) {
            Some(b) => prev.push(b),
            None => prev,
        }
    }
}

/// The items of the list `list_name` under `_embedded` of a page.
pub open spec fn embedded_items(page: Json, list_name: Seq<char>) -> Seq<Json> {
    match as_list(field_of(field(page, "_embedded"@), list_name)) {
        Some(items) => items,
        None => seq![],
    }
}

/// The page to read after `page`: none once `page.totalPages` (1 when
/// absent) or `MAX_PAGES` pages are read.
pub open spec fn next_page(json: Json, page: u32) -> Option<u32> {
    let total = match as_unsigned(field_of(field(json, "page"@), "totalPages"@)) {
        Some(t) => t,
        None => 1,
    };
    let next = page + 1;
    if next >= total || next >= MAX_PAGES {
        None
    } else {
        Some(next as u32)
    }
}

/// The items of a page's `_embedded` list.
fn embedded<'a>(json: &'a Json, list_name: &str) -> (r: Option<&'a Vec<Json>>)
    ensures
        match r {
            Some(items) => embedded_items(*json, list_name@) == items@,
            None => embedded_items(*json, list_name@) == Seq::<Json>::empty(),
        },
{
    list_of(get_of(json.get("_embedded"), list_name))
}

/// The page to read after `page`.
pub fn page_after(json: &Json, page: u32) -> (r: Option<u32>)
    ensures
        r == next_page(*json, page),
{
    let total = match unsigned_of(get_of(json.get("page"), "totalPages")) {
        Some(t) => t,
        None => 1,
    };
    let next = page as u64 + 1;
    if next >= total || next >= MAX_PAGES {
        None
    } else {
        Some(next as u32)
    }
}

/// The projects of one page of a project list, and the page to read next.
pub fn projects_page(json: &Json, page: u32) -> (r: (Vec<ProjectItem>, Option<u32>))
    ensures
        r.0.deep_view() == projects_of_items(embedded_items(*json, "projectList"@)),
        r.1 == next_page(*json, page),
{
    let mut result: Vec<ProjectItem> = Vec::new();
    match embedded(json, "projectList") {
        Some(items) => {
            let mut i: usize = 0;
            while i < items.len()
                invariant
                    i <= items@.len(),
                    result.deep_view() == projects_of_items(items@.take(i as int)),
                decreases items@.len() - i,
            {
                proof {
                    assert(items@.take(i + 1).drop_last() == items@.take(i as int));
                }
                let ghost before = result.deep_view();
                match project_from_value(&items[i]) {
                    Some(p) => {
                        result.push(p);
                        assert(result.deep_view() =~= before.push(p.deep_view()));
                    },
                    None => {},
                }
                i = i + 1;
            }
            assert(items@.take(items@.len() as int) == items@);
        },
        None => {
            assert(result.deep_view() =~= projects_of_items(Seq::<Json>::empty()));
        },
    }
    (result, page_after(json, page))
}

/// The branches of one page of a branch list, and the page to read next.
pub fn branches_page(json: &Json, page: u32) -> (r: (Vec<BranchItem>, Option<u32>))
    ensures
        r.0.deep_view() == branches_of_items(embedded_items(*json, "branchList"@)),
        r.1 == next_page(*json, page),
{
    let mut result: Vec<BranchItem> = Vec::new();
    match embedded(json, "branchList") {
        Some(items) => {
            let mut i: usize = 0;
            while i < items.len()
                invariant
                    i <= items@.len(),
                    result.deep_view() == branches_of_items(items@.take(i as int)),
                decreases items@.len() - i,
            {
                proof {
                    assert(items@.take(i + 1).drop_last() == items@.take(i as int));
                }
                let ghost before = result.deep_view();
                match branch_from_value(&items[i]) {
                    Some(b) => {
                        result.push(b);
                        assert(result.deep_view() =~= before.push(b.deep_view()));
                    },
                    None => {},
                }
                i = i + 1;
            }
            assert(items@.take(items@.len() as int) == items@);
        },
        None => {
            assert(result.deep_view() =~= branches_of_items(Seq::<Json>::empty()));
        },
    }
    (result, page_after(json, page))
}


// ---------------------------------------------------------------------------
// Merging and ordering
// ---------------------------------------------------------------------------

/// `v` in reverse order.
pub fn reversed<T>(v: Vec<T>) -> (r: Vec<T>)
    ensures
        r@ == v@.reverse(),
{
    let ghost orig = v@;
    let mut v = v;
    let mut r: Vec<T> = Vec::new();
    while v.len() > 0
        invariant
            v@.len() <= orig.len(),
            v@ == orig.take(v@.len() as int),
            r@ == orig.skip(v@.len() as int).reverse(),
        decreases v@.len(),
    {
        let ghost n = v@.len();
        let ghost before = v@;
        let x = v.pop().unwrap();
        r.push(x);
        proof {
            assert(before == orig.take(n as int));
            assert(x == before[n - 1]);
            assert(x == orig[n - 1]);
            assert(v@ =~= orig.take(n - 1));
            let a = orig.skip(n - 1);
            let b = orig.skip(n as int);
            assert(a.len() == b.len() + 1);
            assert(a.reverse().len() == a.len());
            assert forall|i: int| 0 <= i < a.len() implies #[trigger] a.reverse()[i] == b.reverse().push(x)[i] by {
                if i < b.len() {
                    assert(a.reverse()[i] == a[a.len() - 1 - i]);
                    assert(b.reverse()[i] == b[b.len() - 1 - i]);
                } else {
                    assert(a.reverse()[i] == a[0]);
                }
            }
            assert(a.reverse() =~= b.reverse().push(x));
        }
    }
    proof {
        assert(orig.skip(0) == orig);
    }
    r
}

/// The projects of a list, one per id: a later project replaces an earlier
/// one with the same id in its place.
pub open spec fn projects_by_id(ps: Seq<ProjectModel>) -> Seq<(Seq<char>, ProjectModel)>
    decreases ps.len(),
{
    if ps.len() == 0 {
        seq![]
    } else {
        insert_key(projects_by_id(ps.drop_last()), ps.last().id, ps.last())
    }
}

/// The sort key of a project: lowercased owner, lowercased name, id.
pub open spec fn project_key(p: ProjectModel) -> Seq<Seq<char>> {
    seq![lowercase(p.owner), lowercase(p.name), p.id]
}

/// The projects that `merge_projects` orders: the owned ones, then the
/// shared ones, one per id.
pub open spec fn merged_projects(owned: Seq<ProjectModel>, shared: Seq<ProjectModel>) -> Seq<ProjectModel> {
    projects_by_id(owned + shared).map_values(|e: (Seq<char>, ProjectModel)| e.1)
}

/// The key vector of a project.
fn project_sort_key(p: &ProjectItem) -> (r: Vec<Vec<char>>)
    ensures
        r.deep_view() == project_key(p.deep_view()),
{
    let owner = to_lowercase(p.owner.as_str());
    let name = to_lowercase(p.name.as_str());
    let a = chars_of(owner.as_str());
    let b = chars_of(name.as_str());
    let c = chars_of(p.id.as_str());
    let mut r: Vec<Vec<char>> = Vec::new();
    r.push(a);
    r.push(b);
    r.push(c);
    proof {
        assert(a.deep_view() =~= a@);
        assert(b.deep_view() =~= b@);
        assert(c.deep_view() =~= c@);
        assert(r.deep_view() =~= project_key(p.deep_view()));
    }
    r
}

/// The projects a user owns and those shared with them, one per id (a shared
/// entry replaces an owned one with the same id), sorted by owner and name
/// without regard to case, and by id.
pub fn merge_projects(owned: Vec<ProjectItem>, shared: Vec<ProjectItem>) -> (r: Vec<ProjectItem>)
    ensures
        is_stable_sort(
            r.deep_view(),
            merged_projects(owned.deep_view(), shared.deep_view()),
            merged_projects(owned.deep_view(), shared.deep_view()).map_values(
                |p: ProjectModel| project_key(p),
            ),
        ),
{
    let ghost all = owned.deep_view() + shared.deep_view();
    let mut by_id: StrMap<ProjectItem> = StrMap::new();
    let mut rest = reversed(owned);
    let ghost mut done: Seq<ProjectModel> = seq![];
    while rest.len() > 0
        invariant
            by_id.wf(),
            by_id.pairs() == projects_by_id(done),
            done + rest@.reverse().map_values(|p: ProjectItem| p.deep_view()) == owned.deep_view(),
        decreases rest@.len(),
    {
        let ghost before = rest@;
        let p = rest.pop().unwrap();
        proof {
            assert(before.reverse() =~= seq![p] + rest@.reverse());
            assert(done.push(p.deep_view()) + rest@.reverse().map_values(|q: ProjectItem| q.deep_view())
                =~= done + before.reverse().map_values(|q: ProjectItem| q.deep_view()));
            assert(done.push(p.deep_view()).drop_last() == done);
        }
        let id = p.id.clone();
        by_id.insert(id, p);
        proof {
            done = done.push(p.deep_view());
        }
    }
    proof {
        assert(done =~= owned.deep_view());
    }
    let mut rest = reversed(shared);
    while rest.len() > 0
        invariant
            by_id.wf(),
            by_id.pairs() == projects_by_id(done),
            done + rest@.reverse().map_values(|p: ProjectItem| p.deep_view()) == owned.deep_view()
                + shared.deep_view(),
        decreases rest@.len(),
    {
        let ghost before = rest@;
        let p = rest.pop().unwrap();
        proof {
            assert(before.reverse() =~= seq![p] + rest@.reverse());
            assert(done.push(p.deep_view()) + rest@.reverse().map_values(|q: ProjectItem| q.deep_view())
                =~= done + before.reverse().map_values(|q: ProjectItem| q.deep_view()));
            assert(done.push(p.deep_view()).drop_last() == done);
        }
        let id = p.id.clone();
        by_id.insert(id, p);
        proof {
            done = done.push(p.deep_view());
        }
    }
    proof {
        assert(done =~= all);
    }
    let ghost merged = by_id.pairs().map_values(|e: (Seq<char>, ProjectModel)| e.1);
    let mut entries = reversed(by_id.entries);
    let mut values: Vec<ProjectItem> = Vec::new();
    let mut keys: Vec<Vec<Vec<char>>> = Vec::new();
    while entries.len() > 0
        invariant
            merged.len() == values@.len() + entries@.len(),
            values.deep_view() == merged.take(values@.len() as int),
            keys.deep_view() == values.deep_view().map_values(|p: ProjectModel| project_key(p)),
            forall|j: int| 0 <= j < entries@.len() ==> #[trigger] entries@[j].1.deep_view() == merged[merged.len() - 1 - j],
        decreases entries@.len(),
    {
        let e = entries.pop().unwrap();
        let ghost k = values@.len();
        let key = project_sort_key(&e.1);
        let ghost before = values.deep_view();
        let ghost before_keys = keys.deep_view();
        values.push(e.1);
        keys.push(key);
        proof {
            assert(values.deep_view() =~= before.push(merged[k as int]));
            assert(merged.take(k as int + 1) =~= merged.take(k as int).push(merged[k as int]));
            assert(keys.deep_view() =~= before_keys.push(key.deep_view()));
            assert(values.deep_view().map_values(|p: ProjectModel| project_key(p)) =~= before.map_values(
                |p: ProjectModel| project_key(p),
            ).push(project_key(merged[k as int])));
        }
    }
    proof {
        assert(values.deep_view() =~= merged);
    }
    stable_sort(values, keys)
}

/// The sort key of a branch: the default branch first, then the work
/// branch, then by lowercased name.
pub open spec fn branch_key(b: BranchModel) -> Seq<Seq<char>> {
    seq![if b.default { "0"@ } else { "1"@ }, if b.work { "0"@ } else { "1"@ }, lowercase(b.name)]
}

/// Branches sorted: default branch first, then the work branch, then by name
/// without regard to case; ties keep their order.
pub fn sort_branches(branches: Vec<BranchItem>) -> (r: Vec<BranchItem>)
    ensures
        is_stable_sort(
            r.deep_view(),
            branches.deep_view(),
            branches.deep_view().map_values(|b: BranchModel| branch_key(b)),
        ),
{
    let mut keys: Vec<Vec<Vec<char>>> = Vec::new();
    let mut i: usize = 0;
    while i < branches.len()
        invariant
            i <= branches@.len(),
            keys.deep_view() == branches.deep_view().take(i as int).map_values(
                |b: BranchModel| branch_key(b),
            ),
        decreases branches@.len() - i,
    {
        let b = &branches[i];
        let first = if b.default { chars_of("0") } else { chars_of("1") };
        let second = if b.work { chars_of("0") } else { chars_of("1") };
        let lower = to_lowercase(b.name.as_str());
        let third = chars_of(lower.as_str());
        let mut key: Vec<Vec<char>> = Vec::new();
        key.push(first);
        key.push(second);
        key.push(third);
        let ghost before = keys.deep_view();
        keys.push(key);
        proof {
            assert(first.deep_view() =~= first@);
            assert(second.deep_view() =~= second@);
            assert(third.deep_view() =~= third@);
            assert(key.deep_view() =~= branch_key(b.deep_view()));
            assert(branches.deep_view()[i as int] == b.deep_view());
            assert(keys.deep_view() =~= before.push(key.deep_view()));
            assert(branches.deep_view().take(i + 1).map_values(|b: BranchModel| branch_key(b))
                =~= before.push(branch_key(b.deep_view())));
        }
        i = i + 1;
    }
    proof {
        assert(branches.deep_view().take(branches@.len() as int) =~= branches.deep_view());
    }
    stable_sort(branches, keys)
}

} // verus!
