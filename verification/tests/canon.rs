use pcotool::asana::notes::{link_tasks, write_event_notes};
use pcotool::asana::tags::{TagCache, TagStep};
use pcotool::asana::{AsanaLinkedTask, AsanaTag, AsanaTask};
use pcotool::canon::{pco_items_to_canon_task, sort_tasks, CanonTask, NewTask, SortedTasks};
use pcotool::json::Json;
use pcotool::pco::client::PcoObject;
use pcotool::pco::PcoEventWithRequestedResources;
use pcotool::string_map::StringMap;

fn tag(gid: &str, name: &str) -> AsanaTag {
    AsanaTag { gid: gid.to_owned(), name: name.to_owned() }
}

fn known() -> TagCache {
    let mut cache = TagCache::new();
    cache.remember(&vec![tag("1", "MA"), tag("2", "UA"), tag("3", "Portable")]);
    cache
}

fn object(id: &str, name: Option<&str>) -> PcoObject {
    let attributes = name.map(|name| {
        let mut attributes = StringMap::new();
        attributes.insert("name".to_owned(), Json::Text(name.to_owned()));
        attributes
    });
    PcoObject {
        type_: "Object".to_owned(),
        id: id.to_owned(),
        attributes,
        relationships: None,
        links: None,
    }
}

fn event(id: &str, name: Option<&str>, resources: &[&str]) -> PcoEventWithRequestedResources {
    PcoEventWithRequestedResources {
        event: object(id, name),
        instances: vec![],
        requested_resources: resources.iter().map(|r| object("r", Some(r))).collect(),
    }
}

fn canon(id: &str, name: &str, tags: Vec<AsanaTag>) -> CanonTask {
    CanonTask::new(id.to_owned(), name.to_owned(), tags)
}

fn linked(gid: &str, event_id: &str, name: &str, tags: Vec<AsanaTag>) -> AsanaLinkedTask {
    AsanaLinkedTask {
        task: AsanaTask {
            gid: gid.to_owned(),
            name: name.to_owned(),
            html_notes: write_event_notes(event_id),
            tags,
        },
        event_id: event_id.to_owned(),
    }
}

fn ready<T>(step: TagStep<T>) -> T {
    match step {
        TagStep::Ready(value) => value,
        TagStep::FetchAllTags => panic!("the tags are known"),
    }
}

fn outcome(sorted: &SortedTasks) -> (Vec<&str>, Vec<(&str, &str)>) {
    (
        sorted.to_create.iter().map(|t| t.event_id()).collect(),
        sorted.to_update.iter().map(|(e, t)| (e.event_id(), t.task.gid.as_str())).collect(),
    )
}

// The common form

#[test]
fn tags_count_once() {
    let task = canon("1", "n", vec![tag("1", "MA"), tag("2", "UA"), tag("1", "MA")]);
    assert_eq!(task.event_id(), "1");
    assert_eq!(task.name(), "n");
    assert_eq!(task.resource_tags().len(), 2);
    assert!(task.resource_tags().contains(&tag("1", "MA")));
    assert!(task.resource_tags().contains(&tag("2", "UA")));
}

#[test]
fn tags_with_one_identifier_may_differ() {
    let task = canon("1", "n", vec![tag("1", "MA"), tag("1", "UA")]);
    assert_eq!(task.resource_tags().len(), 2);
}

#[test]
fn order_of_tags_does_not_matter() {
    let a = canon("1", "n", vec![tag("1", "MA"), tag("2", "UA")]);
    let b = canon("1", "n", vec![tag("2", "UA"), tag("1", "MA"), tag("2", "UA")]);
    assert!(a == b);
    assert!(a.same_as(&b));
    assert!(a.clone() == a);
}

#[test]
fn differences_are_seen() {
    let task = canon("1", "n", vec![tag("1", "MA")]);
    assert!(task != canon("2", "n", vec![tag("1", "MA")]));
    assert!(task != canon("1", "m", vec![tag("1", "MA")]));
    assert!(task != canon("1", "n", vec![]));
    assert!(task != canon("1", "n", vec![tag("1", "MA"), tag("2", "UA")]));
    assert!(task != canon("1", "n", vec![tag("2", "MA")]));
    assert!(canon("1", "n", vec![]) == canon("1", "n", vec![]));
}

// From events

#[test]
fn event_is_brought_into_the_common_form() {
    let event = event("7", Some("Concert"), &["Main Auditorium", "Kitchen", "Sound System - Large"]);
    let task = ready(pco_items_to_canon_task(&event, &known()));
    assert!(task == canon("7", "Concert", vec![tag("3", "Portable"), tag("1", "MA")]));
}

#[test]
fn nameless_event_is_named_after_its_identifier() {
    let task = ready(pco_items_to_canon_task(&event("7", None, &[]), &known()));
    assert!(task == canon("7", "Nameless Asana Event: 7", vec![]));
}

#[test]
fn tags_are_fetched_where_an_event_needs_them() {
    let cache = TagCache::new();
    let with_tags = event("7", Some("Concert"), &["Kitchen", "Main Auditorium"]);
    assert!(matches!(pco_items_to_canon_task(&with_tags, &cache), TagStep::FetchAllTags));
    assert!(matches!(NewTask::from_event(&with_tags, &cache, 1), TagStep::FetchAllTags));
    let without = event("7", Some("Concert"), &["Kitchen"]);
    let task = ready(pco_items_to_canon_task(&without, &cache));
    assert!(task == canon("7", "Concert", vec![]));
}

#[test]
fn resource_without_a_known_tag_is_passed_over() {
    let event = event("7", Some("Concert"), &["ATS Room", "Underground Auditorium"]);
    let task = ready(pco_items_to_canon_task(&event, &known()));
    assert!(task == canon("7", "Concert", vec![tag("2", "UA")]));
}

// New tasks

#[test]
fn new_task_is_made_from_an_event() {
    let event = event("7", Some("Concert"), &["Sound Box - Small #1", "Sound System - Small", "Main Auditorium"]);
    let task = ready(NewTask::from_event(&event, &known(), 55));
    assert_eq!(task.name, "Concert");
    assert_eq!(task.html_notes, "<body>\n<code>&gt;&gt;&gt;&gt; 7 &lt;&lt;&lt;&lt;</code></body>");
    assert_eq!(task.projects, vec!["55"]);
    assert_eq!(task.tags, vec!["3", "3", "1"]);
}

#[test]
fn new_task_of_a_nameless_event_says_so() {
    let task = ready(NewTask::from_event(&event("7", None, &[]), &known(), 55));
    assert_eq!(task.name, "Unknown Asana Event: 7");
    assert!(task.tags.is_empty());
}

#[test]
fn new_task_is_made_from_the_common_form() {
    let task = NewTask::from_canon_task(
        &canon("7", "Concert", vec![tag("2", "UA"), tag("1", "MA"), tag("2", "UA")]),
        55,
    );
    assert_eq!(task.name, "Concert");
    assert_eq!(task.html_notes, write_event_notes("7"));
    assert_eq!(task.projects, vec!["55"]);
    let mut tags = task.tags;
    tags.sort();
    assert_eq!(tags, vec!["1", "2"]);
}

// Differences

#[test]
fn linked_task_is_brought_into_the_common_form() {
    let task = linked("5", "7", "Concert", vec![tag("1", "MA"), tag("1", "MA")]);
    assert!(task.canon_task() == canon("7", "Concert", vec![tag("1", "MA")]));
}

#[test]
fn task_is_created_for_an_event_without_one() {
    let events = vec![canon("7", "a", vec![tag("1", "MA")]), canon("8", "b", vec![tag("1", "MA")])];
    let sorted = sort_tasks(events, &vec![linked("5", "9", "a", vec![tag("1", "MA")])]);
    assert_eq!(outcome(&sorted), (vec!["7", "8"], vec![]));
    assert!(sorted.to_create[0] == canon("7", "a", vec![tag("1", "MA")]));
}

#[test]
fn events_without_tags_are_left_alone() {
    let events = vec![canon("7", "a", vec![]), canon("8", "b", vec![])];
    let sorted = sort_tasks(events, &vec![linked("5", "8", "c", vec![])]);
    assert_eq!(outcome(&sorted), (vec![], vec![]));
}

#[test]
fn task_that_looks_different_is_updated() {
    let events = vec![
        canon("7", "new name", vec![tag("1", "MA")]),
        canon("8", "b", vec![tag("1", "MA"), tag("2", "UA")]),
        canon("9", "c", vec![tag("1", "MA"), tag("2", "UA")]),
    ];
    let tasks = vec![
        linked("5", "8", "b", vec![tag("1", "MA")]),
        linked("6", "9", "c", vec![tag("2", "UA"), tag("1", "MA")]),
        linked("4", "7", "old name", vec![tag("1", "MA")]),
    ];
    let sorted = sort_tasks(events, &tasks);
    assert_eq!(outcome(&sorted), (vec![], vec![("7", "4"), ("8", "5")]));
    assert_eq!(sorted.to_update[0].1.task.name, "old name");
}

#[test]
fn first_linked_task_counts() {
    let same = vec![
        linked("5", "7", "a", vec![tag("1", "MA")]),
        linked("6", "7", "other", vec![tag("1", "MA")]),
    ];
    let sorted = sort_tasks(vec![canon("7", "a", vec![tag("1", "MA")])], &same);
    assert_eq!(outcome(&sorted), (vec![], vec![]));
    let different = vec![
        linked("6", "7", "other", vec![tag("1", "MA")]),
        linked("5", "7", "a", vec![tag("1", "MA")]),
    ];
    let sorted = sort_tasks(vec![canon("7", "a", vec![tag("1", "MA")])], &different);
    assert_eq!(outcome(&sorted), (vec![], vec![("7", "6")]));
}

#[test]
fn nothing_comes_of_nothing() {
    let sorted = sort_tasks(vec![], &vec![linked("5", "7", "a", vec![tag("1", "MA")])]);
    assert_eq!(outcome(&sorted), (vec![], vec![]));
}

#[test]
fn created_task_settles_its_event() {
    let event = canon("7", "Concert", vec![tag("1", "MA"), tag("2", "UA")]);
    let new = NewTask::from_canon_task(&event, 55);
    let task = AsanaTask {
        gid: "100".to_owned(),
        name: new.name,
        html_notes: new.html_notes,
        tags: vec![tag("2", "UA"), tag("1", "MA")],
    };
    let tasks = link_tasks(vec![task]).unwrap();
    let sorted = sort_tasks(vec![event], &tasks);
    assert_eq!(outcome(&sorted), (vec![], vec![]));
}
