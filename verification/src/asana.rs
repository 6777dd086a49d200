//! The task service: its objects, its answers, and the requests for its lists.
pub mod notes;
pub mod tags;

use vstd::prelude::*;

use crate::error::ApiError;
use crate::text::{decimal, decimal_text, same_text};

verus! {

/// Which fields of a task are asked for.
pub const TASK_OPT_FIELDS: &'static str = "name,html_notes,tags,tags.name";

/// The address at which tasks are created.
pub const TASKS_URL: &'static str = "https://app.asana.com/api/1.0/tasks";

/// The address of the list of tags.
pub const TAGS_URL: &'static str = "https://app.asana.com/api/1.0/tags";

/// How many requests to the task service are under way at a time.
pub const ASANA_CONCURRENCY: usize = 5;

// ---------------------------------------------------------------------------
// Tags and tasks
// ---------------------------------------------------------------------------

/// A tag of the task service.
#[derive(Debug)]
pub struct AsanaTag {
    pub gid: String,
    pub name: String,
}

/// What a tag is, apart from how it is kept.
pub struct TagView {
    pub gid: Seq<char>,
    pub name: Seq<char>,
}

impl View for AsanaTag {
    type V = TagView;

    open spec fn view(&self) -> TagView {
        TagView { gid: self.gid@, name: self.name@ }
    }
}

impl Clone for AsanaTag {
    fn clone(&self) -> (copy: AsanaTag)
        ensures
            copy@ == self@,
    {
        AsanaTag { gid: self.gid.clone(), name: self.name.clone() }
    }
}

impl PartialEq for AsanaTag {
    fn eq(&self, other: &AsanaTag) -> (same: bool) {
        same_text(self.gid.as_str(), other.gid.as_str()) && same_text(
            self.name.as_str(),
            other.name.as_str(),
        )
    }
}

impl Eq for AsanaTag {

}

impl vstd::std_specs::cmp::PartialEqSpecImpl for AsanaTag {
    open spec fn obeys_eq_spec() -> bool {
        true
    }

    open spec fn eq_spec(&self, other: &AsanaTag) -> bool {
        self@ == other@
    }
}

/// What the tags of a list are, apart from how they are kept.
pub open spec fn tags_view(tags: Seq<AsanaTag>) -> Seq<TagView> {
    tags.map_values(|tag: AsanaTag| tag@)
}

/// A copy of a list of tags.
pub fn clone_tags(tags: &Vec<AsanaTag>) -> (copy: Vec<AsanaTag>)
    ensures
        tags_view(copy@) == tags_view(tags@),
{
    let copy = tags.clone();
    assert(tags_view(copy@) =~= tags_view(tags@));
    copy
}

/// A task of the task service.
#[derive(Debug)]
pub struct AsanaTask {
    pub gid: String,
    pub name: String,
    pub html_notes: String,
    pub tags: Vec<AsanaTag>,
}

/// What a task is, apart from how it is kept.
pub struct TaskView {
    pub gid: Seq<char>,
    pub name: Seq<char>,
    pub html_notes: Seq<char>,
    pub tags: Seq<TagView>,
}

impl View for AsanaTask {
    type V = TaskView;

    open spec fn view(&self) -> TaskView {
        TaskView {
            gid: self.gid@,
            name: self.name@,
            html_notes: self.html_notes@,
            tags: tags_view(self.tags@),
        }
    }
}

impl Clone for AsanaTask {
    fn clone(&self) -> (copy: AsanaTask)
        ensures
            copy@ == self@,
    {
        AsanaTask {
            gid: self.gid.clone(),
            name: self.name.clone(),
            html_notes: self.html_notes.clone(),
            tags: clone_tags(&self.tags),
        }
    }
}

/// A task of the task service that is linked to an event of the calendar service.
#[derive(Debug)]
pub struct AsanaLinkedTask {
    pub task: AsanaTask,
    pub event_id: String,
}

/// What a linked task is, apart from how it is kept.
pub struct LinkedTaskView {
    pub task: TaskView,
    pub event_id: Seq<char>,
}

impl View for AsanaLinkedTask {
    type V = LinkedTaskView;

    open spec fn view(&self) -> LinkedTaskView {
        LinkedTaskView { task: self.task@, event_id: self.event_id@ }
    }
}

/// What the linked tasks of a list are, apart from how they are kept.
pub open spec fn linked_view(tasks: Seq<AsanaLinkedTask>) -> Seq<LinkedTaskView> {
    tasks.map_values(|task: AsanaLinkedTask| task@)
}

impl Clone for AsanaLinkedTask {
    fn clone(&self) -> (copy: AsanaLinkedTask)
        ensures
            copy@ == self@,
    {
        AsanaLinkedTask { task: self.task.clone(), event_id: self.event_id.clone() }
    }
}

// ---------------------------------------------------------------------------
// Responses
// ---------------------------------------------------------------------------

/// An error that the task service reports.
#[derive(Debug, Clone)]
pub struct AsanaError {
    pub message: String,
    pub help: Option<String>,
    pub phrase: Option<String>,
}

/// Where a list goes on.
#[derive(Debug, Clone)]
pub struct AsanaNextPage {
    pub offset: String,
    pub path: String,
    pub uri: String,
}

/// What the task service answers.
#[derive(Debug, Clone)]
pub enum AsanaResponse<T> {
    Success { data: T, next_page: Option<AsanaNextPage> },
    Error { errors: Vec<AsanaError> },
}

/// The error that stands for what the task service reports: all of it, in its order.
pub fn error_from_asana_errors(errors: Vec<AsanaError>) -> (error: ApiError)
    ensures
        error == ApiError::Asana(errors),
{
    ApiError::Asana(errors)
}

impl<T> AsanaResponse<T> {
    /// The data of a response, or the errors that it reports.
    pub fn into_result(self) -> (result: Result<T, ApiError>)
        ensures
            result == match self {
                AsanaResponse::Success { data, .. } => Ok(data),
                AsanaResponse::Error { errors } => Err(ApiError::Asana(errors)),
            },
    {
        match self {
            AsanaResponse::Success { data, .. } => Ok(data),
            AsanaResponse::Error { errors } => Err(error_from_asana_errors(errors)),
        }
    }
}

// ---------------------------------------------------------------------------
// Requests
// ---------------------------------------------------------------------------

/// A request: an address, and the parameters that are added to it.
#[derive(Debug, Clone)]
pub struct ApiRequest {
    pub url: String,
    pub query: Vec<(String, String)>,
}

/// What a request is, apart from how it is kept.
pub struct ApiRequestView {
    pub url: Seq<char>,
    pub query: Seq<(Seq<char>, Seq<char>)>,
}

/// What the parameters of a request are, apart from how they are kept.
pub open spec fn query_view(query: Seq<(String, String)>) -> Seq<(Seq<char>, Seq<char>)> {
    query.map_values(|parameter: (String, String)| (parameter.0@, parameter.1@))
}

impl View for ApiRequest {
    type V = ApiRequestView;

    open spec fn view(&self) -> ApiRequestView {
        ApiRequestView { url: self.url@, query: query_view(self.query@) }
    }
}

/// The parameter that says where a list goes on.
pub open spec fn offset_parameter(offset: Option<&str>) -> Seq<(Seq<char>, Seq<char>)> {
    match offset {
        Some(text) => seq![("offset"@, text@)],
        None => Seq::empty(),
    }
}

fn push_parameter(query: &mut Vec<(String, String)>, key: &str, value: &str)
    ensures
        query_view(final(query)@) == query_view(old(query)@).push((key@, value@)),
{
    query.push((key.to_owned(), value.to_owned()));
    assert(query_view(query@) =~= query_view(old(query)@).push((key@, value@)));
}

/// The request for the tasks of a project, from `offset` on.
pub fn tasks_request(project_gid: u64, offset: Option<&str>) -> (request: ApiRequest)
    ensures
        request@.url == "https://app.asana.com/api/1.0/projects/"@ + decimal(project_gid as nat)
            + "/tasks"@,
        request@.query == seq![("opt_fields"@, TASK_OPT_FIELDS@), ("limit"@, "25"@)]
            + offset_parameter(offset),
{
    let url = "https://app.asana.com/api/1.0/projects/".to_owned().concat(
        decimal_text(project_gid).as_str(),
    ).concat("/tasks");
    let mut query: Vec<(String, String)> = Vec::new();
    push_parameter(&mut query, "opt_fields", TASK_OPT_FIELDS);
    push_parameter(&mut query, "limit", "25");
    if let Some(text) = offset {
        push_parameter(&mut query, "offset", text);
    }
    assert(query_view(query@) =~= seq![("opt_fields"@, TASK_OPT_FIELDS@), ("limit"@, "25"@)]
        + offset_parameter(offset));
    ApiRequest { url, query }
}

/// The request for the tags of a workspace, from `offset` on.
pub fn tags_request(workspace_gid: u64, offset: Option<&str>) -> (request: ApiRequest)
    ensures
        request@.url == TAGS_URL@,
        request@.query == seq![
            ("limit"@, "100"@),
            ("workspace"@, decimal(workspace_gid as nat)),
        ] + offset_parameter(offset),
{
    let mut query: Vec<(String, String)> = Vec::new();
    push_parameter(&mut query, "limit", "100");
    push_parameter(&mut query, "workspace", decimal_text(workspace_gid).as_str());
    if let Some(text) = offset {
        push_parameter(&mut query, "offset", text);
    }
    assert(query_view(query@) =~= seq![
        ("limit"@, "100"@),
        ("workspace"@, decimal(workspace_gid as nat)),
    ] + offset_parameter(offset));
    ApiRequest { url: TAGS_URL.to_owned(), query }
}

/// The request that creates a task.
pub fn create_request() -> (request: ApiRequest)
    ensures
        request@.url == TASKS_URL@,
        request@.query == seq![("opt_fields"@, TASK_OPT_FIELDS@)],
{
    let mut query: Vec<(String, String)> = Vec::new();
    push_parameter(&mut query, "opt_fields", TASK_OPT_FIELDS);
    assert(query_view(query@) =~= seq![("opt_fields"@, TASK_OPT_FIELDS@)]);
    ApiRequest { url: TASKS_URL.to_owned(), query }
}

// ---------------------------------------------------------------------------
// Lists that come in pages
// ---------------------------------------------------------------------------

/// What is done about a page of a list.
#[derive(Debug)]
pub enum PageStep<T> {
    /// Ask for the page at `offset`; `results` is what came so far.
    Fetch { results: Vec<T>, offset: String },
    /// The list is complete.
    Done { results: Vec<T> },
    /// The list could not be had.
    Failed { error: ApiError },
}

/// What a step is, apart from how it is kept.
pub enum PageStepView<T> {
    Fetch { results: Seq<T>, offset: Seq<char> },
    Done { results: Seq<T> },
    Failed { error: ApiError },
}

impl<T> View for PageStep<T> {
    type V = PageStepView<T>;

    open spec fn view(&self) -> PageStepView<T> {
        match self {
            PageStep::Fetch { results, offset } => PageStepView::Fetch {
                results: results@,
                offset: offset@,
            },
            PageStep::Done { results } => PageStepView::Done { results: results@ },
            PageStep::Failed { error } => PageStepView::Failed { error: *error },
        }
    }
}

/// What is done about a page, after pages that held `results`.
pub open spec fn page_step<T>(results: Seq<T>, page: AsanaResponse<Vec<T>>) -> PageStepView<T> {
    match page {
        AsanaResponse::Success { data, next_page } => match next_page {
            Some(next) => PageStepView::Fetch { results: results + data@, offset: next.offset@ },
            None => PageStepView::Done { results: results + data@ },
        },
        AsanaResponse::Error { errors } => PageStepView::Failed {
            error: ApiError::Asana(errors),
        },
    }
}

/// Takes in a page of a list, after pages that held `results`, and decides how to go on.
pub fn next_page_step<T>(results: Vec<T>, page: AsanaResponse<Vec<T>>) -> (step: PageStep<T>)
    ensures
        step@ == page_step(results@, page),
{
    match page {
        AsanaResponse::Success { data, next_page } => {
            let mut results = results;
            let mut data = data;
            results.append(&mut data);
            match next_page {
                Some(next) => PageStep::Fetch { results, offset: next.offset },
                None => PageStep::Done { results },
            }
        },
        AsanaResponse::Error { errors } => PageStep::Failed {
            error: error_from_asana_errors(errors),
        },
    }
}

/// The page is not the last one.
pub open spec fn goes_on<T>(page: AsanaResponse<Vec<T>>) -> bool {
    match page {
        AsanaResponse::Success { next_page, .. } => next_page is Some,
        AsanaResponse::Error { .. } => false,
    }
}

/// What the pages of a list hold, one after the other.
pub open spec fn data_of_pages<T>(pages: Seq<AsanaResponse<Vec<T>>>) -> Seq<T>
    decreases pages.len(),
{
    if pages.len() == 0 {
        Seq::empty()
    } else {
        data_of_pages(pages.drop_last()) + match pages.last() {
            AsanaResponse::Success { data, .. } => data@,
            AsanaResponse::Error { .. } => Seq::empty(),
        }
    }
}

/// The step to which a list has come when its pages were taken in one after the other.
pub open spec fn pages_step<T>(pages: Seq<AsanaResponse<Vec<T>>>) -> PageStepView<T>
    recommends
        pages.len() > 0,
    decreases pages.len(),
{
    if pages.len() <= 1 {
        page_step(Seq::empty(), pages.last())
    } else {
        match pages_step(pages.drop_last()) {
            PageStepView::Fetch { results, .. } => page_step(results, pages.last()),
            ended => ended,
        }
    }
}

proof fn lemma_pages_that_go_on<T>(pages: Seq<AsanaResponse<Vec<T>>>)
    requires
        pages.len() > 0,
        forall|i: int| 0 <= i < pages.len() ==> goes_on(#[trigger] pages[i]),
    ensures
        pages_step(pages) matches PageStepView::Fetch { results, .. } && results == data_of_pages(
            pages,
        ),
    decreases pages.len(),
{
    assert(goes_on(pages[pages.len() - 1]));
    if pages.len() == 1 {
        assert(pages.drop_last() =~= Seq::<AsanaResponse<Vec<T>>>::empty());
        assert(data_of_pages(pages.drop_last()) =~= Seq::<T>::empty());
    } else {
        let earlier = pages.drop_last();
        assert forall|i: int| 0 <= i < earlier.len() implies goes_on(#[trigger] earlier[i]) by {
            assert(earlier[i] == pages[i]);
        }
        lemma_pages_that_go_on(earlier);
    }
}

/// A list is what its pages hold, one after the other: it ends with the first page that names
/// no further one, and a page that reports errors ends it with those errors and nothing else.
pub proof fn list_is_its_pages<T>(pages: Seq<AsanaResponse<Vec<T>>>)
    requires
        pages.len() > 0,
        forall|i: int| 0 <= i < pages.len() - 1 ==> goes_on(#[trigger] pages[i]),
    ensures
        match pages.last() {
            AsanaResponse::Success { next_page: Some(next), .. } => pages_step(pages)
                == (PageStepView::Fetch { results: data_of_pages(pages), offset: next.offset@ }),
            AsanaResponse::Success { next_page: None, .. } => pages_step(pages)
                == (PageStepView::Done { results: data_of_pages(pages) }),
            AsanaResponse::Error { errors } => pages_step(pages) == (PageStepView::<T>::Failed {
                error: ApiError::Asana(errors),
            }),
        },
{
    let earlier = pages.drop_last();
    if pages.len() == 1 {
        assert(earlier =~= Seq::<AsanaResponse<Vec<T>>>::empty());
        assert(data_of_pages(earlier) =~= Seq::<T>::empty());
    } else {
        assert forall|i: int| 0 <= i < earlier.len() implies goes_on(#[trigger] earlier[i]) by {
            assert(earlier[i] == pages[i]);
        }
        lemma_pages_that_go_on(earlier);
    }
}

// ---------------------------------------------------------------------------
// Laws
// ---------------------------------------------------------------------------

/// What tags, tasks and linked tasks are leaves out nothing that they hold.
pub proof fn tasks_are_what_they_hold(tag: AsanaTag, task: AsanaTask, linked: AsanaLinkedTask)
    ensures
        tag@.gid == tag.gid@,
        tag@.name == tag.name@,
        task@.gid == task.gid@,
        task@.name == task.name@,
        task@.html_notes == task.html_notes@,
        task@.tags.len() == task.tags@.len(),
        forall|i: int| 0 <= i < task.tags@.len() ==> #[trigger] task@.tags[i] == task.tags@[i]@,
        linked@.task == linked.task@,
        linked@.event_id == linked.event_id@,
{
}

/// What the tags and linked tasks of a list are keeps their number and order.
pub proof fn lists_keep_their_order(tags: Seq<AsanaTag>, tasks: Seq<AsanaLinkedTask>)
    ensures
        tags_view(tags).len() == tags.len(),
        forall|i: int| 0 <= i < tags.len() ==> #[trigger] tags_view(tags)[i] == tags[i]@,
        linked_view(tasks).len() == tasks.len(),
        forall|i: int| 0 <= i < tasks.len() ==> #[trigger] linked_view(tasks)[i] == tasks[i]@,
{
}

/// What a request is leaves out nothing that it holds.
pub proof fn requests_are_what_they_hold(request: ApiRequest)
    ensures
        request@.url == request.url@,
        request@.query.len() == request.query@.len(),
        forall|i: int|
            0 <= i < request.query@.len() ==> #[trigger] request@.query[i] == (
                request.query@[i].0@,
                request.query@[i].1@,
            ),
{
}

/// A list is asked for from an offset exactly where one is given.
pub proof fn offset_is_asked_for_where_given(offset: &str)
    ensures
        offset_parameter(Some(offset)) == seq![("offset"@, offset@)],
        offset_parameter(None) == Seq::<(Seq<char>, Seq<char>)>::empty(),
{
}

/// A page adds all its data behind the earlier results, and is followed by the page that it
/// names; the list is complete exactly where it names none. A page that reports errors ends the
/// list with all of them.
pub proof fn pages_add_their_data<T>(
    results: Seq<T>,
    data: Vec<T>,
    next: AsanaNextPage,
    errors: Vec<AsanaError>,
)
    ensures
        page_step(results, AsanaResponse::Success { data, next_page: Some(next) }) == (
        PageStepView::Fetch { results: results + data@, offset: next.offset@ }),
        page_step(results, AsanaResponse::Success { data, next_page: None }) == (
        PageStepView::Done { results: results + data@ }),
        page_step(results, AsanaResponse::Error { errors }) == (PageStepView::<T>::Failed {
            error: ApiError::Asana(errors),
        }),
{
}

/// What a step is leaves out nothing that it holds.
pub proof fn steps_are_what_they_hold<T>(step: PageStep<T>)
    ensures
        match step {
            PageStep::Fetch { results, offset } => step@ == (PageStepView::Fetch {
                results: results@,
                offset: offset@,
            }),
            PageStep::Done { results } => step@ == (PageStepView::Done { results: results@ }),
            PageStep::Failed { error } => step@ == (PageStepView::<T>::Failed { error }),
        },
{
}

/// One more page adds its data behind that of the earlier pages.
pub proof fn pages_are_read_one_by_one<T>(
    pages: Seq<AsanaResponse<Vec<T>>>,
    data: Vec<T>,
    next_page: Option<AsanaNextPage>,
)
    ensures
        data_of_pages(Seq::<AsanaResponse<Vec<T>>>::empty()) == Seq::<T>::empty(),
        data_of_pages(pages.push(AsanaResponse::Success { data, next_page })) == data_of_pages(
            pages,
        ) + data@,
        goes_on(AsanaResponse::Success { data, next_page }) <==> next_page is Some,
{
    let more = pages.push(AsanaResponse::Success { data, next_page });
    assert(more.drop_last() =~= pages);
}

} // verus!
