use pcotool::datetime::DateTimeUtc;
use pcotool::error::ApiError;
use pcotool::json::Json;
use pcotool::pco::client::{
    collect_objects, event_instances_url, event_url, instances_url_between, next_fetch_step, page_offsets,
    resource_requests_url, resource_url, total_count, FetchStep, PcoError, PcoObject, PcoResponse,
    ResourceCache,
};
use pcotool::pco::{group_by_event, requested_resource_ids, PcoEventWithRequestedResources};
use pcotool::string_map::StringMap;

fn object(id: &str) -> PcoObject {
    PcoObject {
        type_: "Object".to_owned(),
        id: id.to_owned(),
        attributes: None,
        relationships: None,
        links: None,
    }
}

fn members(list: Vec<(&str, Json)>) -> StringMap<Json> {
    let mut map = StringMap::new();
    for (key, value) in list {
        map.insert(key.to_owned(), value);
    }
    map
}

fn text(t: &str) -> Json {
    Json::Text(t.to_owned())
}

fn related(id: &str, relation: &str, related_id: &str) -> PcoObject {
    let data = Json::Object(members(vec![("type", text("X")), ("id", text(related_id))]));
    let mut object = object(id);
    object.relationships =
        Some(members(vec![(relation, Json::Object(members(vec![("data", data)])))]));
    object
}

fn error(code: &str) -> PcoError {
    PcoError { code: code.to_owned(), title: "t".to_owned(), detail: "d".to_owned() }
}

fn failure(codes: &[&str]) -> PcoResponse {
    PcoResponse::Error { errors: codes.iter().map(|c| error(c)).collect() }
}

fn list(ids: &[&str], meta: Vec<(&str, Json)>) -> PcoResponse {
    PcoResponse::Multiple {
        data: ids.iter().map(|id| object(id)).collect(),
        included: vec![],
        links: StringMap::new(),
        meta: members(meta),
    }
}

fn single(id: &str) -> PcoResponse {
    PcoResponse::Single { data: object(id) }
}

fn ids(objects: &Vec<PcoObject>) -> Vec<&str> {
    objects.iter().map(|o| o.id.as_str()).collect()
}

// Objects

#[test]
fn attributes_are_texts() {
    let mut event = object("1");
    assert_eq!(event.get_attribute("name"), None);
    event.attributes = Some(members(vec![("name", text("Concert")), ("count", Json::Unsigned(3))]));
    assert_eq!(event.get_attribute("name"), Some("Concert".to_owned()));
    assert_eq!(event.get_attribute("count"), None);
    assert_eq!(event.get_attribute("other"), None);
}

#[test]
fn relationships_name_objects() {
    let request = related("1", "resource", "77");
    assert_eq!(request.related_id("resource"), Some("77".to_owned()));
    assert_eq!(request.related_id("event"), None);
    assert_eq!(object("1").related_id("resource"), None);
}

#[test]
fn relationships_may_name_nothing() {
    let empty = vec![
        Json::Null,
        text("77"),
        Json::Object(members(vec![])),
        Json::Object(members(vec![("data", Json::Null)])),
        Json::Object(members(vec![("data", Json::Array(vec![]))])),
        Json::Object(members(vec![("data", Json::Object(members(vec![("id", Json::Unsigned(7))])))])),
    ];
    for value in empty {
        let mut request = object("1");
        request.relationships = Some(members(vec![("resource", value)]));
        assert_eq!(request.related_id("resource"), None);
    }
}

#[test]
fn copies_of_objects_hold_what_the_objects_hold() {
    let mut event = related("1", "event", "2");
    event.attributes = Some(members(vec![("name", text("Concert"))]));
    let mut links = StringMap::new();
    links.insert("self".to_owned(), Some("https://example.org".to_owned()));
    links.insert("next".to_owned(), None);
    event.links = Some(links);
    assert_eq!(format!("{:?}", event.clone()), format!("{:?}", event));
}

// Responses

#[test]
fn response_is_read_as_a_list() {
    assert_eq!(ids(&single("1").into_data_vec().unwrap()), vec!["1"]);
    assert_eq!(ids(&list(&["1", "2"], vec![]).into_data_vec().unwrap()), vec!["1", "2"]);
    assert!(list(&[], vec![]).into_data_vec().unwrap().is_empty());
    match failure(&["404", "500"]).into_data_vec() {
        Err(ApiError::Pco(errors)) => {
            assert_eq!(errors.len(), 2);
            assert_eq!(errors[0].code, "404");
            assert_eq!(errors[1].code, "500");
        }
        _ => panic!("the response reports errors"),
    }
}

#[test]
fn response_is_read_as_a_single_object() {
    assert_eq!(single("1").into_single().unwrap().id, "1");
    assert!(matches!(list(&["1"], vec![]).into_single(), Err(ApiError::UnexpectedMultipleItems)));
    assert!(matches!(failure(&["404"]).into_single(), Err(ApiError::Pco(e)) if e[0].code == "404"));
}

#[test]
fn single_object_is_a_list_of_one() {
    let object = single("1").into_single().unwrap();
    assert_eq!(ids(&single("1").into_data_vec().unwrap()), vec![object.id.as_str()]);
}

#[test]
fn errors_have_messages() {
    assert_eq!(ApiError::Asana(vec![]).message(), "asana error");
    assert_eq!(ApiError::Pco(vec![]).message(), "asana error");
    assert_eq!(ApiError::UnexpectedMultipleItems.message(), "unexpected multi-item response");
    assert_eq!(ApiError::UnexpectedSingleItem.message(), "unexpected single-item response");
    assert_eq!(ApiError::MissingTotalCount.message(), "missing total count");
    assert_eq!(ApiError::TotalCountNotANumber.message(), "total count is not a number");
    assert_eq!(ApiError::RetriesExceeded.message(), "exceeded max request retry count");
}

// Repeated requests

#[test]
fn refused_request_is_repeated() {
    for retries in 0..10 {
        assert!(matches!(
            next_fetch_step(failure(&["429"]), retries),
            FetchStep::Retry { retries: next, delay_secs: 10 } if next == retries + 1
        ));
    }
}

#[test]
fn request_fails_after_ten_repetitions() {
    for retries in [10, 11, 255] {
        assert!(matches!(
            next_fetch_step(failure(&["429"]), retries),
            FetchStep::Failed { error: ApiError::RetriesExceeded }
        ));
    }
}

#[test]
fn only_the_first_error_refuses_a_request() {
    assert!(matches!(
        next_fetch_step(failure(&["429", "500"]), 0),
        FetchStep::Retry { retries: 1, delay_secs: 10 }
    ));
    assert!(matches!(
        next_fetch_step(failure(&["500", "429"]), 0),
        FetchStep::Done { response: PcoResponse::Error { errors } } if errors.len() == 2
    ));
    assert!(matches!(
        next_fetch_step(failure(&[]), 0),
        FetchStep::Done { response: PcoResponse::Error { errors } } if errors.is_empty()
    ));
}

#[test]
fn answered_request_is_done() {
    assert!(matches!(
        next_fetch_step(single("1"), 10),
        FetchStep::Done { response: PcoResponse::Single { data } } if data.id == "1"
    ));
    assert!(matches!(
        next_fetch_step(list(&["1", "2"], vec![]), 0),
        FetchStep::Done { response: PcoResponse::Multiple { data, .. } } if data.len() == 2
    ));
}

#[test]
fn request_is_sent_eleven_times_at_most() {
    let mut retries: u8 = 0;
    let mut sent = 0;
    loop {
        sent += 1;
        match next_fetch_step(failure(&["429"]), retries) {
            FetchStep::Retry { retries: next, .. } => retries = next,
            FetchStep::Failed { .. } => break,
            FetchStep::Done { .. } => panic!("every request is refused"),
        }
    }
    assert_eq!(sent, 11);
}

#[test]
fn repetitions_that_were_made_count() {
    for (start, expected) in [(0u8, 11), (1, 10), (9, 2), (10, 1), (11, 1), (255, 1)] {
        let mut retries = start;
        let mut sent = 0;
        loop {
            sent += 1;
            match next_fetch_step(failure(&["429"]), retries) {
                FetchStep::Retry { retries: next, .. } => retries = next,
                FetchStep::Failed { error: ApiError::RetriesExceeded } => break,
                _ => panic!("every request is refused"),
            }
        }
        assert_eq!(sent, expected);
    }
}

// Pages

#[test]
fn list_says_how_long_it_is() {
    let response = list(&[], vec![("total_count", Json::Unsigned(60))]);
    assert!(matches!(total_count(&response), Ok(60)));
}

#[test]
fn length_of_a_list_may_be_missing() {
    assert!(matches!(total_count(&list(&["1"], vec![])), Err(ApiError::MissingTotalCount)));
    let other = list(&[], vec![("count", Json::Unsigned(1))]);
    assert!(matches!(total_count(&other), Err(ApiError::MissingTotalCount)));
}

#[test]
fn length_of_a_list_may_be_no_number() {
    for value in [text("60"), Json::Null, Json::Negative(-1), Json::Float("60.0".to_owned())] {
        let response = list(&[], vec![("total_count", value)]);
        assert!(matches!(total_count(&response), Err(ApiError::TotalCountNotANumber)));
    }
}

#[test]
fn other_responses_are_no_lists() {
    assert!(matches!(total_count(&single("1")), Err(ApiError::UnexpectedSingleItem)));
    assert!(matches!(total_count(&failure(&["500"])), Err(ApiError::UnexpectedSingleItem)));
}

#[test]
fn pages_start_every_twenty_five_objects() {
    assert_eq!(page_offsets(0), Vec::<usize>::new());
    assert_eq!(page_offsets(1), vec![0]);
    assert_eq!(page_offsets(25), vec![0]);
    assert_eq!(page_offsets(26), vec![0, 25]);
    assert_eq!(page_offsets(60), vec![0, 25, 50]);
}

#[test]
fn pages_are_those_of_a_stepped_range() {
    for total in [0u64, 24, 25, 49, 50, 51, 1000, 1001] {
        let steps: Vec<usize> = (0..total).step_by(25).map(|o| o as usize).collect();
        assert_eq!(page_offsets(total), steps);
    }
}

#[test]
fn every_object_stands_on_one_page() {
    for total in [1u64, 25, 26, 99, 100] {
        let offsets = page_offsets(total);
        for object in 0..total as usize {
            let pages = offsets.iter().filter(|o| **o <= object && object < **o + 25).count();
            assert_eq!(pages, 1);
        }
    }
}

#[test]
fn pages_are_gathered_in_their_order() {
    let objects = collect_objects(vec![list(&["3", "4"], vec![]), single("1"), list(&[], vec![])]);
    assert_eq!(ids(&objects.unwrap()), vec!["3", "4", "1"]);
    assert!(collect_objects(vec![]).unwrap().is_empty());
}

#[test]
fn first_page_that_failed_is_reported() {
    let objects =
        collect_objects(vec![list(&["1"], vec![]), failure(&["404"]), failure(&["500"])]);
    assert!(matches!(objects, Err(ApiError::Pco(e)) if e.len() == 1 && e[0].code == "404"));
}

// Addresses

#[test]
fn objects_have_addresses() {
    assert_eq!(event_url("5"), "https://api.planningcenteronline.com/calendar/v2/events/5");
    assert_eq!(
        resource_requests_url("5"),
        "https://api.planningcenteronline.com/calendar/v2/events/5/event_resource_requests"
    );
    assert_eq!(resource_url("6"), "https://api.planningcenteronline.com/calendar/v2/resources/6");
}

#[test]
fn list_of_instances_has_an_address() {
    let start = DateTimeUtc::from_timestamp(1_700_000_000, 0).unwrap();
    let end = DateTimeUtc::from_timestamp(1_704_838_400, 0).unwrap();
    let prefix = "https://api.planningcenteronline.com/calendar/v2/event_instances\
                  ?where[starts_at][gte]=2023-11-14T22:13:20+00:00\
                  &where[starts_at][lt]=2024-01-09T22:13:20+00:00&offset=";
    assert_eq!(event_instances_url(&start, &end, None), format!("{}0", prefix));
    assert_eq!(event_instances_url(&start, &end, Some(50)), format!("{}50", prefix));
}

#[test]
fn address_of_a_list_holds_the_times_as_they_are_written() {
    assert_eq!(
        instances_url_between("a", "b", Some(7)),
        "https://api.planningcenteronline.com/calendar/v2/event_instances\
         ?where[starts_at][gte]=a&where[starts_at][lt]=b&offset=7"
    );
}

// Instances by event

#[test]
fn instances_are_grouped_by_event() {
    let groups = group_by_event(vec![
        related("a", "event", "1"),
        related("b", "event", "2"),
        object("c"),
        related("d", "event", "1"),
        related("e", "resource", "1"),
    ]);
    let mut keys = groups.keys();
    keys.sort();
    assert_eq!(keys, vec!["1".to_owned(), "2".to_owned()]);
    assert_eq!(ids(groups.get("1").unwrap()), vec!["a", "d"]);
    assert_eq!(ids(groups.get("2").unwrap()), vec!["b"]);
    assert!(groups.get("3").is_none());
}

#[test]
fn no_instances_make_no_groups() {
    assert!(group_by_event(vec![]).keys().is_empty());
    assert!(group_by_event(vec![object("a")]).keys().is_empty());
}

#[test]
fn requests_name_resources() {
    let requests = vec![
        related("a", "resource", "8"),
        object("b"),
        related("c", "event", "9"),
        related("d", "resource", "7"),
        related("e", "resource", "8"),
    ];
    assert_eq!(requested_resource_ids(&requests), vec!["8", "7", "8"]);
}

#[test]
fn event_is_put_together_with_its_instances() {
    let groups = group_by_event(vec![
        related("a", "event", "1"),
        related("b", "event", "2"),
        related("c", "event", "1"),
    ]);
    let assembled =
        PcoEventWithRequestedResources::assemble(object("1"), &groups, vec![object("r")]);
    assert_eq!(assembled.event.id, "1");
    assert_eq!(ids(&assembled.instances), vec!["a", "c"]);
    assert_eq!(ids(&assembled.requested_resources), vec!["r"]);
}

#[test]
fn event_without_instances_has_none() {
    let groups = group_by_event(vec![related("a", "event", "1")]);
    let assembled = PcoEventWithRequestedResources::assemble(object("3"), &groups, vec![]);
    assert!(assembled.instances.is_empty());
    assert!(assembled.requested_resources.is_empty());
}

// Resources

#[test]
fn fetched_resource_is_kept() {
    let mut cache = ResourceCache::new();
    assert!(cache.get("1").is_none());
    assert_eq!(cache.store("1".to_owned(), single("x")).unwrap().id, "x");
    assert_eq!(cache.get("1").unwrap().id, "x");
    assert!(cache.get("x").is_none());
    assert!(cache.get("2").is_none());
}

#[test]
fn later_resource_replaces_the_earlier_one() {
    let mut cache = ResourceCache::new();
    assert!(cache.store("1".to_owned(), single("x")).is_ok());
    assert!(cache.store("2".to_owned(), single("z")).is_ok());
    assert!(cache.store("1".to_owned(), single("y")).is_ok());
    assert_eq!(cache.get("1").unwrap().id, "y");
    assert_eq!(cache.get("2").unwrap().id, "z");
}

#[test]
fn response_without_a_resource_is_not_kept() {
    let mut cache = ResourceCache::new();
    assert!(matches!(
        cache.store("1".to_owned(), list(&["x"], vec![])),
        Err(ApiError::UnexpectedMultipleItems)
    ));
    assert!(matches!(
        cache.store("1".to_owned(), failure(&["404"])),
        Err(ApiError::Pco(e)) if e[0].code == "404"
    ));
    assert!(cache.get("1").is_none());
}
