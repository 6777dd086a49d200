use pcotool::asana::notes::{
    has_reversed_markers, is_readable, link_tasks, linked_event_id, write_event_notes,
};
use pcotool::asana::tags::{resource_tag_names, tracked_resource, TagCache, TagStep};
use pcotool::asana::{
    create_request, error_from_asana_errors, next_page_step, tags_request, tasks_request,
    AsanaError, AsanaNextPage, AsanaResponse, AsanaTag, AsanaTask, PageStep,
};
use pcotool::error::ApiError;
use pcotool::json::Json;
use pcotool::pco::client::PcoObject;
use pcotool::string_map::StringMap;

fn tag(gid: &str, name: &str) -> AsanaTag {
    AsanaTag { gid: gid.to_owned(), name: name.to_owned() }
}

fn task(gid: &str, html_notes: &str) -> AsanaTask {
    AsanaTask {
        gid: gid.to_owned(),
        name: "task".to_owned(),
        html_notes: html_notes.to_owned(),
        tags: vec![tag("1", "MA")],
    }
}

fn linked_id(html_notes: &str) -> Option<String> {
    match task("1", html_notes).try_into_linked_task() {
        Ok(linked) => linked.map(|l| l.event_id),
        Err(_) => panic!("the markers are reversed"),
    }
}

fn service_error(message: &str) -> AsanaError {
    AsanaError { message: message.to_owned(), help: None, phrase: None }
}

fn next_page(offset: &str) -> AsanaNextPage {
    AsanaNextPage { offset: offset.to_owned(), path: "/p".to_owned(), uri: "u".to_owned() }
}

fn pairs(query: &Vec<(String, String)>) -> Vec<(&str, &str)> {
    query.iter().map(|(k, v)| (k.as_str(), v.as_str())).collect()
}

fn resource(name: Option<&str>) -> PcoObject {
    let mut attributes = StringMap::new();
    if let Some(name) = name {
        attributes.insert("name".to_owned(), Json::Text(name.to_owned()));
    }
    PcoObject {
        type_: "Resource".to_owned(),
        id: "1".to_owned(),
        attributes: Some(attributes),
        relationships: None,
        links: None,
    }
}

// Notes

#[test]
fn notes_name_the_event() {
    assert_eq!(
        write_event_notes("123"),
        "<body>\n<code>&gt;&gt;&gt;&gt; 123 &lt;&lt;&lt;&lt;</code></body>"
    );
}

#[test]
fn identifier_stands_between_the_markers() {
    assert_eq!(linked_event_id(">>>> 123 <<<<"), Some("123".to_owned()));
    assert_eq!(linked_event_id("see >>>>12 3\t<<<< below"), Some("12 3".to_owned()));
    assert_eq!(linked_event_id(">>>>é漢<<<<"), Some("é漢".to_owned()));
}

#[test]
fn first_markers_count() {
    assert_eq!(linked_event_id(">>>> 1 <<<< >>>> 2 <<<<"), Some("1".to_owned()));
    assert_eq!(linked_event_id(">>>> 1 >>>> 2 <<<<"), Some("1 >>>> 2".to_owned()));
    assert_eq!(linked_event_id(">>>>> 1 <<<<<"), Some("> 1".to_owned()));
}

#[test]
fn without_both_markers_there_is_no_identifier() {
    assert_eq!(linked_event_id(""), None);
    assert_eq!(linked_event_id("123"), None);
    assert_eq!(linked_event_id(">>>> 123"), None);
    assert_eq!(linked_event_id("123 <<<<"), None);
    assert_eq!(linked_event_id(">>> 123 <<<"), None);
}

#[test]
fn white_space_is_no_identifier() {
    assert_eq!(linked_event_id(">>>><<<<"), None);
    assert_eq!(linked_event_id(">>>> \n\t <<<<"), None);
}

#[test]
fn markers_in_the_wrong_order_are_recognised() {
    assert!(has_reversed_markers("<<<< 1 >>>>"));
    assert!(has_reversed_markers("<<<<>>>>"));
    assert!(has_reversed_markers("<<<< 1 >>>> 2 <<<<"));
    assert!(!has_reversed_markers(">>>> 1 <<<<"));
    assert!(!has_reversed_markers("<<<<"));
    assert!(!has_reversed_markers(">>>>"));
    assert!(!has_reversed_markers(""));
}

#[test]
fn written_notes_are_read_back() {
    for id in ["123", "a b", "é漢\u{10000}", ">>>>", "1>2", "\"'#;", "a\nb\tc", "gt;", "\u{feff}x"] {
        assert_eq!(linked_id(&write_event_notes(id)), Some(id.trim().to_owned()), "{:?}", id);
    }
}

#[test]
fn signs_that_open_nothing_are_read_back() {
    let ids = [
        "&", "<", "a & b", "a &", "&5", "&;", "&&", "&#", "&#x", "&#xg", "&#;", "a < b", "1<2", "<<<",
        "<é", "&é", "<&", "&<", "a<", "\u{1}\u{c}x", "&\nx", "<\nx", "&#\u{663}",
    ];
    for id in ids {
        assert_eq!(linked_id(&write_event_notes(id)), Some(id.trim().to_owned()), "{:?}", id);
    }
}

#[test]
fn identifier_ends_with_the_first_end_marker() {
    assert_eq!(linked_id(&write_event_notes("1 <<<< 2")), Some("1".to_owned()));
    assert_eq!(linked_id(&write_event_notes(" 1<<<<< 2")), Some("1".to_owned()));
    assert_eq!(linked_id(&write_event_notes("<<<< 2")), None);
}

#[test]
fn written_notes_are_read_back_without_white_space() {
    assert_eq!(linked_id(&write_event_notes("  7 ")), Some("7".to_owned()));
    assert_eq!(linked_id(&write_event_notes("\n7\u{3000}")), Some("7".to_owned()));
    assert_eq!(linked_id(&write_event_notes("")), None);
    assert_eq!(linked_id(&write_event_notes(" \t")), None);
}

#[test]
fn identifier_that_is_markup_is_not_read_back() {
    assert_eq!(linked_id(&write_event_notes("a&amp;b")), Some("a&b".to_owned()));
    assert_eq!(linked_id(&write_event_notes("a<i>b</i>")), Some("ab".to_owned()));
    assert_eq!(linked_id(&write_event_notes("&#49;")), Some("1".to_owned()));
    assert_eq!(linked_id(&write_event_notes("a<!--b-->c")), Some("ac".to_owned()));
    assert_eq!(linked_id(&write_event_notes("a\rb")), Some("a\nb".to_owned()));
    assert_eq!(linked_id(&write_event_notes("a\0b")), Some("ab".to_owned()));
}

#[test]
fn usual_notes_are_not_too_long() {
    assert!(is_readable(""));
    assert!(is_readable(&write_event_notes("42")));
    assert!(is_readable(&"&\0".repeat(1_000_000)));
}

#[test]
fn notes_with_null_characters_are_read() {
    assert_eq!(linked_id(&format!("{}{}", "\0&nGt;".repeat(1000), write_event_notes("42"))), Some("42".to_owned()));
}

#[test]
fn tasks_are_linked_by_their_notes() {
    let linked = task("9", &write_event_notes("42")).into_linked_task().unwrap();
    assert_eq!(linked.event_id, "42");
    assert_eq!(linked.task.gid, "9");
    assert_eq!(linked.task.name, "task");
    assert_eq!(linked.task.html_notes, write_event_notes("42"));
    assert_eq!(linked.task.tags, vec![tag("1", "MA")]);
}

#[test]
fn markers_outside_the_element_do_not_count() {
    assert_eq!(linked_id("<body>&gt;&gt;&gt;&gt; 1 &lt;&lt;&lt;&lt;</body>"), None);
    assert_eq!(linked_id(""), None);
    assert_eq!(linked_id("<body>hello</body>"), None);
}

#[test]
fn only_the_first_element_counts() {
    let one = "<code>&gt;&gt;&gt;&gt; 1 &lt;&lt;&lt;&lt;</code>";
    let two = "<code>&gt;&gt;&gt;&gt; 2 &lt;&lt;&lt;&lt;</code>";
    assert_eq!(linked_id(&format!("<body>{}{}</body>", one, two)), Some("1".to_owned()));
    assert_eq!(linked_id(&format!("<body><code>x</code>{}</body>", two)), None);
}

#[test]
fn text_of_nested_elements_belongs_to_the_element() {
    let notes = "<body><ul><li><code>&gt;&gt;&gt;&gt; <b>4</b>2 &lt;&lt;&lt;&lt;</code></li></ul></body>";
    assert_eq!(linked_id(notes), Some("42".to_owned()));
}

#[test]
fn task_with_reversed_markers_is_handed_back() {
    let notes = "<body><code>&lt;&lt;&lt;&lt; 1 &gt;&gt;&gt;&gt;</code></body>";
    match task("5", notes).try_into_linked_task() {
        Ok(_) => panic!("the markers are reversed"),
        Err(task) => {
            assert_eq!(task.gid, "5");
            assert_eq!(task.html_notes, notes);
        }
    }
}

#[test]
fn lists_of_tasks_are_linked_in_their_order() {
    let tasks = vec![
        task("1", &write_event_notes("20")),
        task("2", "<body></body>"),
        task("3", &write_event_notes("10")),
    ];
    let linked = link_tasks(tasks).unwrap();
    let ids: Vec<(&str, &str)> =
        linked.iter().map(|l| (l.task.gid.as_str(), l.event_id.as_str())).collect();
    assert_eq!(ids, vec![("1", "20"), ("3", "10")]);
}

#[test]
fn first_task_that_cannot_be_linked_is_handed_back() {
    let reversed = "<code>&lt;&lt;&lt;&lt; &gt;&gt;&gt;&gt;</code>";
    let tasks = vec![task("1", &write_event_notes("20")), task("2", reversed), task("3", reversed)];
    match link_tasks(tasks) {
        Ok(_) => panic!("the markers are reversed"),
        Err(task) => assert_eq!(task.gid, "2"),
    }
}

#[test]
fn copies_of_tasks_hold_what_the_tasks_hold() {
    let linked = task("9", &write_event_notes("42")).into_linked_task().unwrap();
    assert_eq!(format!("{:?}", linked.clone()), format!("{:?}", linked));
}

// Tracked resources

#[test]
fn tracked_resources_have_tags() {
    let table = [
        ("ATS Room", "ATS"),
        ("Main Auditorium", "MA"),
        ("Main Lobby", "Lobby"),
        ("Room 400", "KA"),
        ("Room 500", "500"),
        ("Room 500 AV", "500"),
        ("Sound Box - Small #1", "Portable"),
        ("Sound Box - Large #1", "Portable"),
        ("Sound System - Small", "Portable"),
        ("Sound System - Large", "Portable"),
        ("Underground Auditorium", "UA"),
    ];
    for (name, tag) in table {
        assert_eq!(tracked_resource(name), Some(tag));
    }
}

#[test]
fn other_resources_have_none() {
    for name in ["", "Room 300", "room 400", "Room 400 ", "ATS", "Sound Box - Small #2"] {
        assert_eq!(tracked_resource(name), None);
    }
}

#[test]
fn tags_follow_the_order_of_the_resources() {
    let resources = vec![
        resource(Some("Room 500 AV")),
        resource(None),
        resource(Some("Kitchen")),
        resource(Some("ATS Room")),
        resource(Some("Room 500")),
    ];
    assert_eq!(resource_tag_names(&resources), vec!["500", "ATS", "500"]);
    assert!(resource_tag_names(&vec![]).is_empty());
}

// Known tags

#[test]
fn tags_are_fetched_before_one_is_looked_for() {
    let mut cache = TagCache::new();
    assert!(matches!(cache.find_tag_by_name("MA"), TagStep::FetchAllTags));
    cache.remember(&vec![]);
    assert!(matches!(cache.find_tag_by_name("MA"), TagStep::Ready(None)));
}

#[test]
fn tag_is_found_by_its_name() {
    let mut cache = TagCache::new();
    cache.remember(&vec![tag("1", "MA"), tag("2", "UA")]);
    assert!(matches!(cache.find_tag_by_name("UA"), TagStep::Ready(Some(t)) if t == tag("2", "UA")));
    assert!(matches!(cache.find_tag_by_name("ua"), TagStep::Ready(None)));
}

#[test]
fn least_identifier_is_taken_among_tags_with_the_name() {
    let mut cache = TagCache::new();
    cache.remember(&vec![tag("9", "MA"), tag("10", "MA"), tag("2", "MA"), tag("1", "UA")]);
    assert!(matches!(cache.find_tag_by_name("MA"), TagStep::Ready(Some(t)) if t.gid == "10"));
}

#[test]
fn later_tags_replace_those_with_their_identifier() {
    let mut cache = TagCache::new();
    cache.remember(&vec![tag("1", "MA"), tag("2", "UA"), tag("1", "KA")]);
    assert!(matches!(cache.find_tag_by_name("MA"), TagStep::Ready(None)));
    assert!(matches!(cache.find_tag_by_name("KA"), TagStep::Ready(Some(t)) if t.gid == "1"));
    cache.remember(&vec![tag("2", "ATS")]);
    assert!(matches!(cache.find_tag_by_name("UA"), TagStep::Ready(None)));
    assert!(matches!(cache.find_tag_by_name("ATS"), TagStep::Ready(Some(t)) if t.gid == "2"));
    assert!(matches!(cache.find_tag_by_name("KA"), TagStep::Ready(Some(t)) if t.gid == "1"));
}

#[test]
fn several_tags_are_found_in_the_order_of_the_names() {
    let mut cache = TagCache::new();
    let names = vec!["UA".to_owned(), "none".to_owned(), "MA".to_owned(), "UA".to_owned()];
    assert!(matches!(cache.find_tags(&names), TagStep::FetchAllTags));
    assert!(matches!(cache.find_tags(&vec![]), TagStep::Ready(tags) if tags.is_empty()));
    cache.remember(&vec![tag("1", "MA"), tag("2", "UA")]);
    let expected = vec![tag("2", "UA"), tag("1", "MA"), tag("2", "UA")];
    assert!(matches!(cache.find_tags(&names), TagStep::Ready(tags) if tags == expected));
}

#[test]
fn tags_are_the_same_where_both_fields_are() {
    assert!(tag("1", "MA") == tag("1", "MA").clone());
    assert!(tag("1", "MA") != tag("2", "MA"));
    assert!(tag("1", "MA") != tag("1", "UA"));
}

// Responses

#[test]
fn response_is_its_data_or_its_errors() {
    let success = AsanaResponse::Success { data: 7, next_page: None };
    assert!(matches!(success.into_result(), Ok(7)));
    let failure: AsanaResponse<u8> =
        AsanaResponse::Error { errors: vec![service_error("a"), service_error("b")] };
    match failure.into_result() {
        Err(ApiError::Asana(errors)) => {
            assert_eq!(errors.len(), 2);
            assert_eq!(errors[0].message, "a");
            assert_eq!(errors[1].message, "b");
        }
        _ => panic!("the response reports errors"),
    }
}

#[test]
fn errors_of_the_service_keep_their_order() {
    let error = error_from_asana_errors(vec![service_error("a"), service_error("b")]);
    assert_eq!(error.message(), "asana error");
    assert!(matches!(error, ApiError::Asana(e) if e[0].message == "a" && e[1].message == "b"));
}

// Requests

#[test]
fn tasks_are_asked_for_by_project() {
    let request = tasks_request(120, None);
    assert_eq!(request.url, "https://app.asana.com/api/1.0/projects/120/tasks");
    assert_eq!(
        pairs(&request.query),
        vec![("opt_fields", "name,html_notes,tags,tags.name"), ("limit", "25")]
    );
}

#[test]
fn further_tasks_are_asked_for_by_offset() {
    let request = tasks_request(120, Some("eyJ0"));
    assert_eq!(request.url, "https://app.asana.com/api/1.0/projects/120/tasks");
    assert_eq!(
        pairs(&request.query),
        vec![
            ("opt_fields", "name,html_notes,tags,tags.name"),
            ("limit", "25"),
            ("offset", "eyJ0"),
        ]
    );
}

#[test]
fn tags_are_asked_for_by_workspace() {
    let request = tags_request(7, None);
    assert_eq!(request.url, "https://app.asana.com/api/1.0/tags");
    assert_eq!(pairs(&request.query), vec![("limit", "100"), ("workspace", "7")]);
    let request = tags_request(7, Some(""));
    assert_eq!(
        pairs(&request.query),
        vec![("limit", "100"), ("workspace", "7"), ("offset", "")]
    );
}

#[test]
fn created_task_comes_back_with_its_fields() {
    let request = create_request();
    assert_eq!(request.url, "https://app.asana.com/api/1.0/tasks");
    assert_eq!(pairs(&request.query), vec![("opt_fields", "name,html_notes,tags,tags.name")]);
}

// Pages

#[test]
fn list_goes_on_where_a_page_says_so() {
    let page = AsanaResponse::Success { data: vec![3, 4], next_page: Some(next_page("x")) };
    match next_page_step(vec![1, 2], page) {
        PageStep::Fetch { results, offset } => {
            assert_eq!(results, vec![1, 2, 3, 4]);
            assert_eq!(offset, "x");
        }
        _ => panic!("the list goes on"),
    }
}

#[test]
fn list_ends_with_the_last_page() {
    let page = AsanaResponse::Success { data: vec![3], next_page: None };
    assert!(matches!(next_page_step(vec![1, 2], page), PageStep::Done { results } if results == [1, 2, 3]));
    let page: AsanaResponse<Vec<u8>> = AsanaResponse::Success { data: vec![], next_page: None };
    assert!(matches!(next_page_step(vec![], page), PageStep::Done { results } if results.is_empty()));
}

#[test]
fn list_fails_with_the_errors_of_a_page() {
    let page: AsanaResponse<Vec<u8>> = AsanaResponse::Error { errors: vec![service_error("a")] };
    assert!(matches!(
        next_page_step(vec![1, 2], page),
        PageStep::Failed { error: ApiError::Asana(e) } if e.len() == 1 && e[0].message == "a"
    ));
}

#[test]
fn list_is_what_its_pages_hold() {
    let mut pages = vec![
        AsanaResponse::Success { data: vec![1, 2], next_page: Some(next_page("a")) },
        AsanaResponse::Success { data: vec![], next_page: Some(next_page("b")) },
        AsanaResponse::Success { data: vec![3], next_page: None },
    ]
    .into_iter();
    let mut step = next_page_step(vec![], pages.next().unwrap());
    let mut offsets = vec![];
    let all = loop {
        match step {
            PageStep::Fetch { results, offset } => {
                offsets.push(offset);
                step = next_page_step(results, pages.next().unwrap());
            }
            PageStep::Done { results } => break results,
            PageStep::Failed { .. } => panic!("no page reports errors"),
        }
    };
    assert_eq!(all, vec![1, 2, 3]);
    assert_eq!(offsets, vec!["a".to_owned(), "b".to_owned()]);
}
