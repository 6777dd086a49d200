//! Requests to the calendar service, and what it answers.
use vstd::prelude::*;

use crate::datetime::{rfc3339_seconds, DateTimeUtc};
use crate::error::ApiError;
use crate::json::{clone_members, members_view, Json, JsonView};
use crate::string_map::StringMap;
use crate::text::{decimal, decimal_text, same_text};

verus! {

/// What every address of the calendar service starts with.
pub const URL_PREFIX: &'static str = "https://api.planningcenteronline.com/calendar/v2";

/// How many events the service lists at a time.
pub const PAGE_SIZE: u64 = 25;

/// How often a request is repeated when the service refuses it because of too many requests.
pub const MAX_RETRIES: u8 = 10;

/// How many seconds pass before a request is repeated.
pub const RETRY_DELAY_SECS: u64 = 10;

// ---------------------------------------------------------------------------
// Objects
// ---------------------------------------------------------------------------

/// An object of the calendar service.
#[derive(Debug)]
pub struct PcoObject {
    pub type_: String,
    pub id: String,
    pub attributes: Option<StringMap<Json>>,
    pub relationships: Option<StringMap<Json>>,
    pub links: Option<StringMap<Option<String>>>,
}

/// What an object is, apart from how it is kept.
pub struct PcoObjectView {
    pub type_: Seq<char>,
    pub id: Seq<char>,
    pub attributes: Option<Map<Seq<char>, JsonView>>,
    pub relationships: Option<Map<Seq<char>, JsonView>>,
    pub links: Option<Map<Seq<char>, Option<Seq<char>>>>,
}

/// The member `key` of what may be an object's members.
pub open spec fn member(members: Option<Map<Seq<char>, JsonView>>, key: Seq<char>) -> Option<
    JsonView,
> {
    match members {
        Some(m) => m.get(key),
        None => None,
    }
}

impl PcoObjectView {
    /// The text of the attribute `key`, if it has one.
    pub open spec fn attribute(self, key: Seq<char>) -> Option<Seq<char>> {
        match member(self.attributes, key) {
            Some(value) => value.as_str(),
            None => None,
        }
    }

    /// The identifier of the object that the relationship `relation` names: the text under
    /// `data` and `id`.
    pub open spec fn related_id(self, relation: Seq<char>) -> Option<Seq<char>> {
        match member(self.relationships, relation) {
            Some(related) => match related.get("data"@) {
                Some(data) => match data.get("id"@) {
                    Some(id) => id.as_str(),
                    None => None,
                },
                None => None,
            },
            None => None,
        }
    }
}

/// What an object's links are, apart from how they are kept.
pub open spec fn links_view(links: StringMap<Option<String>>) -> Map<
    Seq<char>,
    Option<Seq<char>>,
> {
    links@.map_values(|link: Option<String>| link.deep_view())
}

impl View for PcoObject {
    type V = PcoObjectView;

    open spec fn view(&self) -> PcoObjectView {
        PcoObjectView {
            type_: self.type_@,
            id: self.id@,
            attributes: match self.attributes {
                Some(members) => Some(members_view(members)),
                None => None,
            },
            relationships: match self.relationships {
                Some(members) => Some(members_view(members)),
                None => None,
            },
            links: match self.links {
                Some(links) => Some(links_view(links)),
                None => None,
            },
        }
    }
}

impl Clone for PcoObject {
    fn clone(&self) -> (copy: PcoObject)
        ensures
            copy@ == self@,
    {
        let attributes = match &self.attributes {
            Some(members) => Some(clone_members(members)),
            None => None,
        };
        let relationships = match &self.relationships {
            Some(members) => Some(clone_members(members)),
            None => None,
        };
        let links = match &self.links {
            Some(links) => {
                let copy = links.clone();
                assert(links_view(copy) =~= links_view(*links));
                Some(copy)
            },
            None => None,
        };
        PcoObject {
            type_: self.type_.clone(),
            id: self.id.clone(),
            attributes,
            relationships,
            links,
        }
    }
}

impl PcoObject {
    /// The text of the attribute `key`, if it has one.
    pub fn get_attribute(&self, key: &str) -> (text: Option<String>)
        ensures
            text.deep_view() == self@.attribute(key@),
    {
        match &self.attributes {
            Some(members) => match members.get(key) {
                Some(value) => match value.as_str() {
                    Some(text) => Some(text.to_owned()),
                    None => None,
                },
                None => None,
            },
            None => None,
        }
    }

    /// The identifier of the object that the relationship `relation` names.
    pub fn related_id(&self, relation: &str) -> (id: Option<String>)
        ensures
            id.deep_view() == self@.related_id(relation@),
    {
        match &self.relationships {
            Some(members) => match members.get(relation) {
                Some(related) => match related.get("data") {
                    Some(data) => match data.get("id") {
                        Some(id) => match id.as_str() {
                            Some(text) => Some(text.to_owned()),
                            None => None,
                        },
                        None => None,
                    },
                    None => None,
                },
                None => None,
            },
            None => None,
        }
    }
}

// ---------------------------------------------------------------------------
// Responses
// ---------------------------------------------------------------------------

/// An error that the calendar service reports.
#[derive(Debug, Clone)]
pub struct PcoError {
    pub code: String,
    pub title: String,
    pub detail: String,
}

/// What the calendar service answers.
#[derive(Debug, Clone)]
pub enum PcoResponse {
    Single { data: PcoObject },
    Multiple {
        data: Vec<PcoObject>,
        included: Vec<PcoObject>,
        links: StringMap<String>,
        meta: StringMap<Json>,
    },
    Error { errors: Vec<PcoError> },
}

/// The objects of a response: those of a list, or a single one.
pub open spec fn data_of(response: PcoResponse) -> Result<Seq<PcoObject>, ApiError> {
    match response {
        PcoResponse::Single { data } => Ok(seq![data]),
        PcoResponse::Multiple { data, .. } => Ok(data@),
        PcoResponse::Error { errors } => Err(ApiError::Pco(errors)),
    }
}

/// The object of a response that is to hold one.
pub open spec fn single_of(response: PcoResponse) -> Result<PcoObject, ApiError> {
    match response {
        PcoResponse::Single { data } => Ok(data),
        PcoResponse::Multiple { .. } => Err(ApiError::UnexpectedMultipleItems),
        PcoResponse::Error { errors } => Err(ApiError::Pco(errors)),
    }
}

impl PcoResponse {
    /// The objects of the response: those of a list, or a single one.
    pub fn into_data_vec(self) -> (objects: Result<Vec<PcoObject>, ApiError>)
        ensures
            match objects {
                Ok(data) => data_of(self) == Ok::<Seq<PcoObject>, ApiError>(data@),
                Err(error) => data_of(self) == Err::<Seq<PcoObject>, ApiError>(error),
            },
    {
        match self {
            PcoResponse::Single { data } => {
                let mut objects: Vec<PcoObject> = Vec::new();
                objects.push(data);
                assert(objects@ =~= seq![data]);
                Ok(objects)
            },
            PcoResponse::Multiple { data, .. } => Ok(data),
            PcoResponse::Error { errors } => Err(ApiError::Pco(errors)),
        }
    }

    /// The object of a response that is to hold one.
    pub fn into_single(self) -> (object: Result<PcoObject, ApiError>)
        ensures
            object == single_of(self),
    {
        match self {
            PcoResponse::Single { data } => Ok(data),
            PcoResponse::Multiple { .. } => Err(ApiError::UnexpectedMultipleItems),
            PcoResponse::Error { errors } => Err(ApiError::Pco(errors)),
        }
    }
}

/// A response read as a single object is that one object when read as a list, and a response
/// that reports errors reports the same ones either way.
pub proof fn single_is_list_of_one(response: PcoResponse)
    ensures
        single_of(response) matches Ok(object) ==> data_of(response) == Ok::<
            Seq<PcoObject>,
            ApiError,
        >(seq![object]),
        single_of(response) == Err::<PcoObject, ApiError>(ApiError::UnexpectedMultipleItems)
            <==> response is Multiple,
        response matches PcoResponse::Error { errors } ==> data_of(response) == Err::<
            Seq<PcoObject>,
            ApiError,
        >(ApiError::Pco(errors)) && single_of(response) == Err::<PcoObject, ApiError>(
            ApiError::Pco(errors),
        ),
{
}

// ---------------------------------------------------------------------------
// Repeated requests
// ---------------------------------------------------------------------------

/// The service refused the request because of too many requests: the first error that it
/// reports says so.
pub open spec fn rate_limited(response: PcoResponse) -> bool {
    match response {
        PcoResponse::Error { errors } => errors@.len() > 0 && errors@[0].code@ == "429"@,
        _ => false,
    }
}

/// What is done about a response.
#[derive(Debug)]
pub enum FetchStep {
    /// Wait, then send the request again; `retries` counts how often that was done.
    Retry { retries: u8, delay_secs: u64 },
    /// The request has failed.
    Failed { error: ApiError },
    /// The request was answered.
    Done { response: PcoResponse },
}

/// What is done about a response to a request that was repeated `retries` times.
pub open spec fn fetch_step(response: PcoResponse, retries: u8) -> FetchStep {
    if !rate_limited(response) {
        FetchStep::Done { response }
    } else if retries < MAX_RETRIES {
        FetchStep::Retry { retries: (retries + 1) as u8, delay_secs: RETRY_DELAY_SECS }
    } else {
        FetchStep::Failed { error: ApiError::RetriesExceeded }
    }
}

/// Decides what is done about a response to a request that was repeated `retries` times.
pub fn next_fetch_step(response: PcoResponse, retries: u8) -> (step: FetchStep)
    ensures
        step == fetch_step(response, retries),
{
    let limited = match &response {
        PcoResponse::Error { errors } => errors.len() > 0 && same_text(
            errors[0].code.as_str(),
            "429",
        ),
        _ => false,
    };
    if !limited {
        FetchStep::Done { response }
    } else if retries < MAX_RETRIES {
        FetchStep::Retry { retries: retries + 1, delay_secs: RETRY_DELAY_SECS }
    } else {
        FetchStep::Failed { error: ApiError::RetriesExceeded }
    }
}

/// How a request ends that was repeated `retries` times and is answered by `responses`, one
/// after the other: after how many of them, and in which step. `None` where they are used up
/// first.
pub open spec fn fetch_run(responses: Seq<PcoResponse>, retries: u8) -> Option<(nat, FetchStep)>
    decreases responses.len(),
{
    if responses.len() == 0 {
        None
    } else {
        match fetch_step(responses[0], retries) {
            FetchStep::Retry { retries: next, .. } => match fetch_run(
                responses.drop_first(),
                next,
            ) {
                Some((n, step)) => Some((n + 1, step)),
                None => None,
            },
            step => Some((1, step)),
        }
    }
}

/// How often a request that was repeated `retries` times can still be sent.
pub open spec fn sends_left(retries: u8) -> nat {
    if retries < MAX_RETRIES {
        (MAX_RETRIES - retries + 1) as nat
    } else {
        1
    }
}

/// However often a request was repeated, it ends with the first response that is not a refusal
/// because of too many requests, if that is among those to which it can still be sent. It fails
/// after exactly so many of them if all are refusals, and has not ended while there were fewer.
pub proof fn fetch_ends_after(responses: Seq<PcoResponse>, retries: u8)
    ensures
        match fetch_run(responses, retries) {
            Some((n, step)) => {
                &&& 1 <= n <= sends_left(retries)
                &&& n <= responses.len()
                &&& forall|i: int| 0 <= i < n - 1 ==> rate_limited(#[trigger] responses[i])
                &&& if rate_limited(responses[n - 1]) {
                    &&& n == sends_left(retries)
                    &&& step == FetchStep::Failed { error: ApiError::RetriesExceeded }
                } else {
                    step == FetchStep::Done { response: responses[n - 1] }
                }
            },
            None => {
                &&& responses.len() < sends_left(retries)
                &&& forall|i: int|
                    0 <= i < responses.len() ==> rate_limited(#[trigger] responses[i])
            },
        },
    decreases responses.len(),
{
    if responses.len() > 0 && rate_limited(responses[0]) && retries < MAX_RETRIES {
        let rest = responses.drop_first();
        fetch_ends_after(rest, (retries + 1) as u8);
        assert forall|i: int| 0 < i < responses.len() implies #[trigger] responses[i] == rest[i
            - 1] by {}
    }
}

/// A request is sent at most eleven times: it ends with the first response that is not a
/// refusal because of too many requests, and fails when all eleven are.
pub proof fn fetch_is_bounded(responses: Seq<PcoResponse>)
    requires
        responses.len() > MAX_RETRIES,
    ensures
        match fetch_run(responses, 0) {
            Some((n, step)) => {
                &&& 1 <= n <= MAX_RETRIES + 1
                &&& forall|i: int| 0 <= i < n - 1 ==> rate_limited(#[trigger] responses[i])
                &&& if rate_limited(responses[n - 1]) {
                    &&& n == MAX_RETRIES + 1
                    &&& step == FetchStep::Failed { error: ApiError::RetriesExceeded }
                } else {
                    step == FetchStep::Done { response: responses[n - 1] }
                }
            },
            None => false,
        },
{
    fetch_ends_after(responses, 0);
}

// ---------------------------------------------------------------------------
// Pages
// ---------------------------------------------------------------------------

/// How many objects there are in all, by what a list says of itself.
pub open spec fn total_count_of(response: PcoResponse) -> Result<u64, ApiError> {
    match response {
        PcoResponse::Multiple { meta, .. } => match members_view(meta).get("total_count"@) {
            Some(count) => match count.as_u64() {
                Some(n) => Ok(n),
                None => Err(ApiError::TotalCountNotANumber),
            },
            None => Err(ApiError::MissingTotalCount),
        },
        _ => Err(ApiError::UnexpectedSingleItem),
    }
}

/// How many objects there are in all, by what a list says of itself.
pub fn total_count(response: &PcoResponse) -> (count: Result<u64, ApiError>)
    ensures
        count == total_count_of(*response),
{
    match response {
        PcoResponse::Multiple { meta, .. } => match meta.get("total_count") {
            Some(count) => match count.as_u64() {
                Some(n) => Ok(n),
                None => Err(ApiError::TotalCountNotANumber),
            },
            None => Err(ApiError::MissingTotalCount),
        },
        _ => Err(ApiError::UnexpectedSingleItem),
    }
}

/// The objects of several responses, one after the other, or the first error among them.
pub open spec fn data_of_all(responses: Seq<PcoResponse>) -> Result<Seq<PcoObject>, ApiError>
    decreases responses.len(),
{
    if responses.len() == 0 {
        Ok(Seq::empty())
    } else {
        match (data_of_all(responses.drop_last()), data_of(responses.last())) {
            (Ok(earlier), Ok(data)) => Ok(earlier + data),
            (Err(error), _) => Err(error),
            (_, Err(error)) => Err(error),
        }
    }
}

/// An error among the first responses is the error among all of them.
proof fn lemma_first_error(responses: Seq<PcoResponse>, n: int)
    requires
        0 <= n <= responses.len(),
        data_of_all(responses.take(n)) is Err,
    ensures
        data_of_all(responses) == data_of_all(responses.take(n)),
    decreases responses.len() - n,
{
    if n == responses.len() {
        assert(responses.take(n) =~= responses);
    } else {
        assert(responses.take(n + 1).drop_last() =~= responses.take(n));
        lemma_first_error(responses, n + 1);
    }
}

/// Gathers the objects of several responses, in the order in which they came.
pub fn collect_objects(responses: Vec<PcoResponse>) -> (objects: Result<Vec<PcoObject>, ApiError>)
    ensures
        match objects {
            Ok(data) => data_of_all(responses@) == Ok::<Seq<PcoObject>, ApiError>(data@),
            Err(error) => data_of_all(responses@) == Err::<Seq<PcoObject>, ApiError>(error),
        },
{
    let ghost all = responses@;
    let mut objects: Vec<PcoObject> = Vec::new();
    assert(all.take(0) =~= Seq::<PcoResponse>::empty());
    for response in it: responses
        invariant
            it.seq() == all,
            data_of_all(all.take(it.index() as int)) == Ok::<Seq<PcoObject>, ApiError>(objects@),
    {
        let ghost i: int = it.index() as int;
        proof {
            assert(all[i] == response);
            assert(all.take(i + 1).drop_last() =~= all.take(i));
        }
        match response.into_data_vec() {
            Ok(mut data) => {
                objects.append(&mut data);
            },
            Err(error) => {
                proof {
                    lemma_first_error(all, i + 1);
                }
                return Err(error);
            },
        }
    }
    assert(all.take(all.len() as int) =~= all);
    Ok(objects)
}

/// How many pages hold `total` objects.
pub open spec fn page_count(total: nat) -> nat {
    (total + PAGE_SIZE - 1) as nat / PAGE_SIZE as nat
}

/// The positions at which the first `pages` pages start.
pub open spec fn page_starts(pages: nat) -> Seq<usize> {
    Seq::new(pages, |page: int| (PAGE_SIZE * page) as u64 as usize)
}

/// The positions at which the pages of `total` objects start.
pub fn page_offsets(total: u64) -> (offsets: Vec<usize>)
    ensures
        offsets@ == page_starts(page_count(total as nat)),
{
    let mut offsets: Vec<usize> = Vec::new();
    let mut offset: u64 = 0;
    let ghost mut pages: nat = 0;
    while offset < total
        invariant_except_break
            offset == PAGE_SIZE * pages,
            offsets@ == page_starts(pages),
            pages <= page_count(total as nat),
        ensures
            offsets@ == page_starts(page_count(total as nat)),
        decreases total - offset,
    {
        offsets.push(offset as usize);
        proof {
            pages = pages + 1;
            assert(offsets@ =~= page_starts(pages));
        }
        if total - offset <= PAGE_SIZE {
            break;
        }
        offset += PAGE_SIZE;
    }
    offsets
}

/// Every object stands on one page and on one only, as long as positions fit the machine.
pub proof fn pages_cover_each_object_once(total: u64, object: u64)
    requires
        object < total <= usize::MAX,
    ensures
        exists|page: int|
            0 <= page < page_count(total as nat) && (#[trigger] page_starts(
                page_count(total as nat),
            )[page]) <= object < page_starts(page_count(total as nat))[page] + PAGE_SIZE,
        forall|page: int, other: int|
            0 <= page < page_count(total as nat) && 0 <= other < page_count(total as nat) && (
            #[trigger] page_starts(page_count(total as nat))[page]) <= object < page_starts(
                page_count(total as nat),
            )[page] + PAGE_SIZE && (#[trigger] page_starts(page_count(total as nat))[other])
                <= object < page_starts(page_count(total as nat))[other] + PAGE_SIZE ==> page
                == other,
{
    let starts = page_starts(page_count(total as nat));
    assert forall|page: int| 0 <= page < starts.len() implies #[trigger] starts[page]
        == PAGE_SIZE * page by {
        assert(PAGE_SIZE * page <= total);
    }
    let page = object as int / PAGE_SIZE as int;
    assert(starts[page] <= object < starts[page] + PAGE_SIZE);
}

// ---------------------------------------------------------------------------
// Addresses
// ---------------------------------------------------------------------------

/// The address of an event.
pub fn event_url(id: &str) -> (url: String)
    ensures
        url@ == URL_PREFIX@ + "/events/"@ + id@,
{
    URL_PREFIX.to_owned().concat("/events/").concat(id)
}

/// The address of the requests for resources that belong to an event.
pub fn resource_requests_url(event_id: &str) -> (url: String)
    ensures
        url@ == URL_PREFIX@ + "/events/"@ + event_id@ + "/event_resource_requests"@,
{
    URL_PREFIX.to_owned().concat("/events/").concat(event_id).concat("/event_resource_requests")
}

/// The address of a resource.
pub fn resource_url(resource_id: &str) -> (url: String)
    ensures
        url@ == URL_PREFIX@ + "/resources/"@ + resource_id@,
{
    URL_PREFIX.to_owned().concat("/resources/").concat(resource_id)
}

/// The address of the list of events that start at `start` or later, and before `end`, from
/// position `offset` on; the two times are given as they are written.
pub open spec fn instances_address(
    start: Seq<char>,
    end: Seq<char>,
    offset: Option<usize>,
) -> Seq<char> {
    URL_PREFIX@ + "/event_instances?where[starts_at][gte]="@ + start + "&where[starts_at][lt]="@
        + end + "&offset="@ + decimal(
        match offset {
            Some(n) => n as nat,
            None => 0,
        },
    )
}

/// The address of the list of events between two times that are given as they are written.
pub fn instances_url_between(start: &str, end: &str, offset: Option<usize>) -> (url: String)
    ensures
        url@ == instances_address(start@, end@, offset),
{
    let position: usize = match offset {
        Some(n) => n,
        None => 0,
    };
    URL_PREFIX.to_owned().concat("/event_instances?where[starts_at][gte]=").concat(start).concat(
        "&where[starts_at][lt]=",
    ).concat(end).concat("&offset=").concat(decimal_text(position as u64).as_str())
}

/// The address of the list of events that start at `start` or later, and before `end`, from
/// position `offset` on.
pub fn event_instances_url(start: &DateTimeUtc, end: &DateTimeUtc, offset: Option<usize>) -> (url:
    String)
    ensures
        url@ == instances_address(
            rfc3339_seconds(start@.0, start@.1),
            rfc3339_seconds(end@.0, end@.1),
            offset,
        ),
{
    instances_url_between(start.to_rfc3339().as_str(), end.to_rfc3339().as_str(), offset)
}

// ---------------------------------------------------------------------------
// Resources
// ---------------------------------------------------------------------------

/// The resources that were fetched so far, by their identifiers.
#[derive(Debug)]
pub struct ResourceCache {
    resources: StringMap<PcoObject>,
}

impl View for ResourceCache {
    type V = Map<Seq<char>, PcoObjectView>;

    closed spec fn view(&self) -> Map<Seq<char>, PcoObjectView> {
        self.resources@.map_values(|resource: PcoObject| resource@)
    }
}

impl ResourceCache {
    /// No resource was fetched.
    pub fn new() -> (cache: ResourceCache)
        ensures
            cache@ == Map::<Seq<char>, PcoObjectView>::empty(),
    {
        let cache = ResourceCache { resources: StringMap::new() };
        assert(cache@ =~= Map::<Seq<char>, PcoObjectView>::empty());
        cache
    }

    /// The resource, if it was fetched.
    pub fn get(&self, resource_id: &str) -> (resource: Option<PcoObject>)
        ensures
            match resource {
                Some(r) => self@.get(resource_id@) == Some(r@),
                None => self@.get(resource_id@) is None,
            },
    {
        match self.resources.get(resource_id) {
            Some(resource) => Some(resource.clone()),
            None => None,
        }
    }

    /// Takes in the response to the request for a resource. It is kept if it is a single
    /// object; nothing is kept otherwise.
    pub fn store(&mut self, resource_id: String, response: PcoResponse) -> (resource: Result<
        PcoObject,
        ApiError,
    >)
        ensures
            match single_of(response) {
                Ok(object) => {
                    &&& resource == Ok::<PcoObject, ApiError>(object)
                    &&& final(self)@ == old(self)@.insert(resource_id@, object@)
                },
                Err(error) => {
                    &&& resource == Err::<PcoObject, ApiError>(error)
                    &&& final(self)@ == old(self)@
                },
            },
    {
        match response.into_single() {
            Ok(object) => {
                self.resources.insert(resource_id, object.clone());
                assert(self@ =~= old(self)@.insert(resource_id@, object@));
                Ok(object)
            },
            Err(error) => Err(error),
        }
    }
}

/// A resource that was taken in is what is read under its identifier from then on, and what is
/// read under other identifiers stays.
pub proof fn stored_resource_is_read_back(
    resources: Map<Seq<char>, PcoObjectView>,
    resource_id: Seq<char>,
    resource: PcoObjectView,
    other: Seq<char>,
)
    ensures
        resources.insert(resource_id, resource).get(resource_id) == Some(resource),
        other != resource_id ==> resources.insert(resource_id, resource).get(other)
            == resources.get(other),
{
}

// ---------------------------------------------------------------------------
// Laws
// ---------------------------------------------------------------------------

/// The attribute `key` of an object is the text that its attributes hold under `key`; there is
/// none exactly where they hold no text there.
pub proof fn attribute_is_the_text_under_its_key(object: PcoObject, key: Seq<char>, text: Seq<char>)
    ensures
        object@.attribute(key) == Some(text) <==> {
            &&& object.attributes matches Some(members)
            &&& members@.contains_key(key)
            &&& members@[key] matches Json::Text(value)
            &&& value@ == text
        },
{
}

/// What attribute an object has depends on nothing but its attributes.
pub proof fn attributes_alone_give_the_attribute(
    object: PcoObject,
    other: PcoObject,
    key: Seq<char>,
)
    requires
        object.attributes == other.attributes,
    ensures
        object@.attribute(key) == other@.attribute(key),
{
}

/// An attribute stays what it is when another one changes.
pub proof fn attributes_do_not_touch_each_other(
    object: PcoObject,
    other: PcoObject,
    key: Seq<char>,
)
    requires
        object.attributes is Some,
        other.attributes is Some,
        object.attributes->0@.get(key) == other.attributes->0@.get(key),
    ensures
        object@.attribute(key) == other@.attribute(key),
{
}

/// An object is related to the one that its relationships name: the text `id` that they hold
/// under the relation, `data` and `id`, each time as a member of an object. It is related to
/// none exactly where they hold no such text.
pub proof fn related_id_is_the_text_under_the_relation(
    object: PcoObject,
    relation: Seq<char>,
    id: Seq<char>,
)
    ensures
        object@.related_id(relation) == Some(id) <==> {
            &&& object.relationships matches Some(members)
            &&& members@.contains_key(relation)
            &&& members@[relation] matches Json::Object(related)
            &&& related@.contains_key("data"@)
            &&& related@["data"@] matches Json::Object(data)
            &&& data@.contains_key("id"@)
            &&& data@["id"@] matches Json::Text(text)
            &&& text@ == id
        },
{
    reveal_with_fuel(Json::model, 4);
}

/// What an object is related to depends on nothing but its relationships.
pub proof fn relationships_alone_give_the_related_id(
    object: PcoObject,
    other: PcoObject,
    relation: Seq<char>,
)
    requires
        object.relationships == other.relationships,
    ensures
        object@.related_id(relation) == other@.related_id(relation),
{
}

/// What an object is leaves out nothing that it holds.
pub proof fn objects_are_what_they_hold(object: PcoObject, key: Seq<char>)
    ensures
        object@.type_ == object.type_@,
        object@.id == object.id@,
        object@.attributes is Some <==> object.attributes is Some,
        object.attributes matches Some(members) ==> (object@.attributes->0.contains_key(key)
            <==> members@.contains_key(key)) && (members@.contains_key(key)
            ==> object@.attributes->0[key] == members@[key]@),
        object@.relationships is Some <==> object.relationships is Some,
        object.relationships matches Some(members) ==> (object@.relationships->0.contains_key(key)
            <==> members@.contains_key(key)) && (members@.contains_key(key)
            ==> object@.relationships->0[key] == members@[key]@),
        object@.links is Some <==> object.links is Some,
        object.links matches Some(links) ==> (object@.links->0.contains_key(key)
            <==> links@.contains_key(key)) && (links@.contains_key(key) ==> object@.links->0[key]
            == links@[key].deep_view()),
{
}

/// A response holds all its objects in their order, whatever else it holds, or reports all its
/// errors; only a response with one object that is no list is read as a single one.
pub proof fn responses_hold_their_objects(
    object: PcoObject,
    data: Vec<PcoObject>,
    included: Vec<PcoObject>,
    links: StringMap<String>,
    meta: StringMap<Json>,
    errors: Vec<PcoError>,
)
    ensures
        data_of(PcoResponse::Single { data: object }) == Ok::<Seq<PcoObject>, ApiError>(
            seq![object],
        ),
        data_of(PcoResponse::Multiple { data, included, links, meta }) == Ok::<
            Seq<PcoObject>,
            ApiError,
        >(data@),
        data_of(PcoResponse::Error { errors }) == Err::<Seq<PcoObject>, ApiError>(
            ApiError::Pco(errors),
        ),
        single_of(PcoResponse::Single { data: object }) == Ok::<PcoObject, ApiError>(object),
        single_of(PcoResponse::Multiple { data, included, links, meta }) == Err::<
            PcoObject,
            ApiError,
        >(ApiError::UnexpectedMultipleItems),
        single_of(PcoResponse::Error { errors }) == Err::<PcoObject, ApiError>(
            ApiError::Pco(errors),
        ),
{
}

/// One more response adds its objects behind those of the earlier ones. An error among the
/// earlier ones stays, and otherwise an error of the new one takes the place of all objects.
pub proof fn responses_are_gathered_one_by_one(responses: Seq<PcoResponse>, response: PcoResponse)
    ensures
        data_of_all(Seq::empty()) == Ok::<Seq<PcoObject>, ApiError>(Seq::empty()),
        data_of_all(responses) is Err ==> data_of_all(responses.push(response)) == data_of_all(
            responses,
        ),
        data_of_all(responses) matches Ok(earlier) ==> data_of_all(responses.push(response))
            == match response {
            PcoResponse::Single { data } => Ok::<Seq<PcoObject>, ApiError>(earlier.push(data)),
            PcoResponse::Multiple { data, .. } => Ok(earlier + data@),
            PcoResponse::Error { errors } => Err(ApiError::Pco(errors)),
        },
{
    assert(responses.push(response).drop_last() =~= responses);
    if let Ok(earlier) = data_of_all(responses) {
        if let PcoResponse::Single { data } = response {
            assert(earlier + seq![data] =~= earlier.push(data));
        }
    }
}

/// A request is repeated after ten seconds, up to ten times, exactly where the first error of
/// the response has the code 429; every other response is handed on as it is.
pub proof fn only_refused_requests_are_repeated(response: PcoResponse, retries: u8)
    ensures
        (response matches PcoResponse::Error { errors } && errors@.len() > 0 && errors@[0].code@
            == "429"@) ==> fetch_step(response, retries) == if retries < 10 {
            FetchStep::Retry { retries: (retries + 1) as u8, delay_secs: 10 }
        } else {
            FetchStep::Failed { error: ApiError::RetriesExceeded }
        },
        !(response matches PcoResponse::Error { errors } && errors@.len() > 0 && errors@[0].code@
            == "429"@) ==> fetch_step(response, retries) == (FetchStep::Done { response }),
{
}

/// How many objects there are in all is the number that `meta` holds under `total_count`; it is
/// an error where it holds nothing there, or something other than a number that is neither
/// negative nor fractional, and where the response is no list.
pub proof fn total_count_is_what_meta_holds(response: PcoResponse)
    ensures
        !(response is Multiple) ==> total_count_of(response) == Err::<u64, ApiError>(
            ApiError::UnexpectedSingleItem,
        ),
        response matches PcoResponse::Multiple { meta, .. } ==> {
            &&& !meta@.contains_key("total_count"@) ==> total_count_of(response) == Err::<
                u64,
                ApiError,
            >(ApiError::MissingTotalCount)
            &&& meta@.contains_key("total_count"@) ==> match meta@["total_count"@] {
                Json::Unsigned(n) => total_count_of(response) == Ok::<u64, ApiError>(n),
                _ => total_count_of(response) == Err::<u64, ApiError>(
                    ApiError::TotalCountNotANumber,
                ),
            }
        },
{
}

/// Two lists with the same `meta` have the same count, whatever else they hold.
pub proof fn meta_alone_gives_the_total_count(
    data: Vec<PcoObject>,
    included: Vec<PcoObject>,
    links: StringMap<String>,
    other_data: Vec<PcoObject>,
    other_included: Vec<PcoObject>,
    other_links: StringMap<String>,
    meta: StringMap<Json>,
)
    ensures
        total_count_of(PcoResponse::Multiple { data, included, links, meta }) == total_count_of(
            PcoResponse::Multiple {
                data: other_data,
                included: other_included,
                links: other_links,
                meta,
            },
        ),
{
}

/// The pages start at the multiples of twenty-five below the total, each once and in order, as
/// long as positions fit the machine.
pub proof fn pages_start_at_multiples(total: u64)
    requires
        total <= usize::MAX,
    ensures
        forall|page: int|
            0 <= page < page_starts(page_count(total as nat)).len() ==> #[trigger] page_starts(
                page_count(total as nat),
            )[page] == 25 * page,
        total <= 25 * page_starts(page_count(total as nat)).len() < total + 25,
{
    let starts = page_starts(page_count(total as nat));
    assert forall|page: int| 0 <= page < starts.len() implies #[trigger] starts[page] == 25
        * page by {
        assert(PAGE_SIZE * page <= total);
    }
}

/// A list that says that there are `n` objects is fetched up to the last of them: each of them
/// stands within twenty-five objects from where a page starts.
pub proof fn all_objects_of_a_list_are_fetched(response: PcoResponse, n: u64, object: u64)
    requires
        response matches PcoResponse::Multiple { meta, .. } && meta@.contains_key("total_count"@)
            && meta@["total_count"@] == Json::Unsigned(n),
        object < n <= usize::MAX,
    ensures
        total_count_of(response) == Ok::<u64, ApiError>(n),
        exists|page: int|
            0 <= page < page_starts(page_count(n as nat)).len() && (#[trigger] page_starts(
                page_count(n as nat),
            )[page]) <= object < page_starts(page_count(n as nat))[page] + 25,
{
    total_count_is_what_meta_holds(response);
    pages_cover_each_object_once(n, object);
    let starts = page_starts(page_count(n as nat));
    let page = choose|page: int|
        0 <= page < page_count(n as nat) && (#[trigger] starts[page]) <= object < starts[page]
            + PAGE_SIZE;
    assert(0 <= page < starts.len() && starts[page] <= object < starts[page] + 25);
}

/// The address of the list of events names the start, the end and the position, in this order.
pub proof fn address_names_start_end_and_position(
    start: Seq<char>,
    end: Seq<char>,
    position: usize,
)
    ensures
        instances_address(start, end, Some(position)) == URL_PREFIX@
            + "/event_instances?where[starts_at][gte]="@ + start + "&where[starts_at][lt]="@ + end
            + "&offset="@ + decimal(position as nat),
        instances_address(start, end, None) == instances_address(start, end, Some(0)),
{
}

} // verus!
