//! The common form of events and tasks, and what is to be done about their differences.
use vstd::prelude::*;

use crate::asana::notes::{event_id_in_notes, event_notes, linked_task, write_event_notes};
use crate::asana::tags::{resource_tag_names, tag_names, tags_named, TagCache, TagStep};
use crate::asana::{
    clone_tags, linked_view, tags_view, AsanaLinkedTask, AsanaTag, AsanaTask, LinkedTaskView,
    TagView,
};
use crate::json::Json;
use crate::pco::client::{
    attribute_is_the_text_under_its_key, attributes_do_not_touch_each_other, PcoObject,
    PcoObjectView,
};
use crate::pco::PcoEventWithRequestedResources;
use crate::text::{decimal, decimal_text, same_text, texts};

verus! {

// ---------------------------------------------------------------------------
// The common form
// ---------------------------------------------------------------------------

/// What a task should look like, whether it is made from an event or read from the task
/// service. The tags have no order, and none occurs twice.
#[derive(Debug)]
pub struct CanonTask {
    event_id: String,
    name: String,
    resource_tags: Vec<AsanaTag>,
}

/// What the common form is, apart from how it is kept.
pub struct CanonTaskView {
    pub event_id: Seq<char>,
    pub name: Seq<char>,
    pub resource_tags: Set<TagView>,
}

impl View for CanonTask {
    type V = CanonTaskView;

    closed spec fn view(&self) -> CanonTaskView {
        CanonTaskView {
            event_id: self.event_id@,
            name: self.name@,
            resource_tags: tags_view(self.resource_tags@).to_set(),
        }
    }
}

/// `list` lists the members of `tags`, each once.
pub open spec fn lists(list: Seq<TagView>, tags: Set<TagView>) -> bool {
    &&& list.no_duplicates()
    &&& list.to_set() == tags
}

fn contains_tag(tags: &Vec<AsanaTag>, tag: &AsanaTag) -> (contains: bool)
    ensures
        contains == tags_view(tags@).contains(tag@),
{
    let mut i: usize = 0;
    while i < tags.len()
        invariant
            i <= tags@.len(),
            forall|k: int| 0 <= k < i ==> (#[trigger] tags@[k])@ != tag@,
        decreases tags@.len() - i,
    {
        if tags[i] == *tag {
            assert(tags_view(tags@)[i as int] == tag@);
            return true;
        }
        i += 1;
    }
    assert forall|k: int| 0 <= k < tags@.len() implies tags_view(tags@)[k] != tag@ by {
        assert(tags@[k]@ != tag@);
    }
    false
}

/// Whether every tag of `some` is one of `all`.
fn contains_tags(all: &Vec<AsanaTag>, some: &Vec<AsanaTag>) -> (contains: bool)
    ensures
        contains == tags_view(some@).to_set().subset_of(tags_view(all@).to_set()),
{
    let mut i: usize = 0;
    while i < some.len()
        invariant
            i <= some@.len(),
            forall|k: int|
                0 <= k < i ==> tags_view(all@).contains(#[trigger] tags_view(some@)[k]),
        decreases some@.len() - i,
    {
        assert(tags_view(some@)[i as int] == some@[i as int]@);
        if !contains_tag(all, &some[i]) {
            assert(tags_view(some@).to_set().contains(some@[i as int]@));
            return false;
        }
        i += 1;
    }
    true
}

impl CanonTask {
    #[verifier::type_invariant]
    spec fn inv(self) -> bool {
        tags_view(self.resource_tags@).no_duplicates()
    }

    /// The common form of a task for the event `event_id`. A tag that occurs several times in
    /// the list counts once.
    pub fn new(event_id: String, name: String, tags: Vec<AsanaTag>) -> (task: CanonTask)
        ensures
            task@ == (CanonTaskView {
                event_id: event_id@,
                name: name@,
                resource_tags: tags_view(tags@).to_set(),
            }),
    {
        let ghost listed = tags_view(tags@);
        let mut resource_tags: Vec<AsanaTag> = Vec::new();
        assert(tags_view(resource_tags@).to_set() =~= listed.take(0).to_set());
        for tag in it: tags
            invariant
                it.seq() == tags@,
                listed == tags_view(tags@),
                tags_view(resource_tags@).no_duplicates(),
                tags_view(resource_tags@).to_set() == listed.take(it.index() as int).to_set(),
        {
            let ghost before = tags_view(resource_tags@);
            let ghost i: int = it.index() as int;
            let ghost seen = tag@;
            let known = contains_tag(&resource_tags, &tag);
            if !known {
                resource_tags.push(tag);
                assert(tags_view(resource_tags@) =~= before.push(seen));
            }
            proof {
                assert(listed.take(i + 1) =~= listed.take(i).push(seen));
                lemma_push_to_set(listed.take(i), seen);
                lemma_push_to_set(before, seen);
                if known {
                    assert(before.to_set().contains(seen));
                    assert(before.to_set().insert(seen) =~= before.to_set());
                }
            }
        }
        assert(listed.take(listed.len() as int) =~= listed);
        CanonTask { event_id, name, resource_tags }
    }

    /// The identifier of the event.
    pub fn event_id(&self) -> (event_id: &str)
        ensures
            event_id@ == self@.event_id,
    {
        self.event_id.as_str()
    }

    /// The name of the task.
    pub fn name(&self) -> (name: &str)
        ensures
            name@ == self@.name,
    {
        self.name.as_str()
    }

    /// The tags of the task, each once.
    pub fn resource_tags(&self) -> (tags: &Vec<AsanaTag>)
        ensures
            lists(tags_view(tags@), self@.resource_tags),
    {
        proof {
            use_type_invariant(self);
        }
        &self.resource_tags
    }

    /// Whether two tasks look the same.
    pub fn same_as(&self, other: &CanonTask) -> (same: bool)
        ensures
            same == (self@ == other@),
    {
        let same = same_text(self.event_id.as_str(), other.event_id.as_str()) && same_text(
            self.name.as_str(),
            other.name.as_str(),
        ) && contains_tags(&self.resource_tags, &other.resource_tags) && contains_tags(
            &other.resource_tags,
            &self.resource_tags,
        );
        assert(same ==> self@.resource_tags =~= other@.resource_tags);
        same
    }
}

proof fn lemma_push_to_set(list: Seq<TagView>, tag: TagView)
    ensures
        list.push(tag).to_set() == list.to_set().insert(tag),
{
    let longer = list.push(tag);
    assert forall|t: TagView| longer.to_set().contains(t) == list.to_set().insert(tag).contains(
        t,
    ) by {
        if longer.contains(t) {
            let i = choose|i: int| 0 <= i < longer.len() && longer[i] == t;
            if i < list.len() {
                assert(list[i] == t);
            }
        }
        if list.contains(t) {
            let i = choose|i: int| 0 <= i < list.len() && list[i] == t;
            assert(longer[i] == t);
        }
        assert(longer[list.len() as int] == tag);
    }
    assert(longer.to_set() =~= list.to_set().insert(tag));
}

impl PartialEq for CanonTask {
    fn eq(&self, other: &CanonTask) -> (same: bool) {
        self.same_as(other)
    }
}

impl Eq for CanonTask {

}

impl vstd::std_specs::cmp::PartialEqSpecImpl for CanonTask {
    open spec fn obeys_eq_spec() -> bool {
        true
    }

    open spec fn eq_spec(&self, other: &CanonTask) -> bool {
        self@ == other@
    }
}

impl Clone for CanonTask {
    fn clone(&self) -> (copy: CanonTask)
        ensures
            copy@ == self@,
    {
        proof {
            use_type_invariant(self);
        }
        CanonTask {
            event_id: self.event_id.clone(),
            name: self.name.clone(),
            resource_tags: clone_tags(&self.resource_tags),
        }
    }
}

// ---------------------------------------------------------------------------
// From events
// ---------------------------------------------------------------------------

/// The name of an event, or `prefix` and its identifier where it has none.
pub open spec fn name_or(event: PcoObjectView, prefix: Seq<char>) -> Seq<char> {
    match event.attribute("name"@) {
        Some(name) => name,
        None => prefix + event.id,
    }
}

fn event_name(event: &PcoObject, prefix: &str) -> (name: String)
    ensures
        name@ == name_or(event@, prefix@),
{
    match event.get_attribute("name") {
        Some(name) => name,
        None => prefix.to_owned().concat(event.id.as_str()),
    }
}

/// The tags that stand for the tracked resources of an event, in the order of the resources.
pub open spec fn event_tags(
    event: PcoEventWithRequestedResources,
    known: Option<Map<Seq<char>, TagView>>,
) -> Seq<TagView> {
    match known {
        Some(tags) => tags_named(tags, tag_names(event.requested_resources@)),
        None => Seq::empty(),
    }
}

/// The tags of an event cannot be told before the tags of the task service were fetched.
pub open spec fn needs_tags(
    event: PcoEventWithRequestedResources,
    known: Option<Map<Seq<char>, TagView>>,
) -> bool {
    known is None && tag_names(event.requested_resources@).len() > 0
}

fn find_event_tags(event: &PcoEventWithRequestedResources, known: &TagCache) -> (step: TagStep<
    Vec<AsanaTag>,
>)
    ensures
        match step {
            TagStep::FetchAllTags => needs_tags(*event, known@),
            TagStep::Ready(tags) => !needs_tags(*event, known@) && tags_view(tags@) == event_tags(
                *event,
                known@,
            ),
        },
{
    let names = resource_tag_names(&event.requested_resources);
    assert(texts(names@).len() == names@.len());
    match known.find_tags(&names) {
        TagStep::FetchAllTags => TagStep::FetchAllTags,
        TagStep::Ready(tags) => {
            assert(tags_view(tags@) =~= event_tags(*event, known@));
            TagStep::Ready(tags)
        },
    }
}

/// The common form of an event: what its task should look like.
pub open spec fn canon_of_event(
    event: PcoEventWithRequestedResources,
    known: Option<Map<Seq<char>, TagView>>,
) -> CanonTaskView {
    CanonTaskView {
        event_id: event.event@.id,
        name: name_or(event.event@, "Nameless Asana Event: "@),
        resource_tags: event_tags(event, known).to_set(),
    }
}

/// Brings an event into the common form. The tags of the task service have to be fetched first
/// where the event asks for a tracked resource and no tags are known.
pub fn pco_items_to_canon_task(event: &PcoEventWithRequestedResources, known: &TagCache) -> (step:
    TagStep<CanonTask>)
    ensures
        match step {
            TagStep::FetchAllTags => needs_tags(*event, known@),
            TagStep::Ready(task) => !needs_tags(*event, known@) && task@ == canon_of_event(
                *event,
                known@,
            ),
        },
{
    let name = event_name(&event.event, "Nameless Asana Event: ");
    match find_event_tags(event, known) {
        TagStep::FetchAllTags => TagStep::FetchAllTags,
        TagStep::Ready(tags) => TagStep::Ready(CanonTask::new(event.event.id.clone(), name, tags)),
    }
}

// ---------------------------------------------------------------------------
// New tasks
// ---------------------------------------------------------------------------

/// A task that is to be created.
#[derive(Debug, Clone)]
pub struct NewTask {
    pub html_notes: String,
    pub name: String,
    pub projects: Vec<String>,
    pub tags: Vec<String>,
}

/// What a new task is, apart from how it is kept.
pub struct NewTaskView {
    pub html_notes: Seq<char>,
    pub name: Seq<char>,
    pub projects: Seq<Seq<char>>,
    pub tags: Seq<Seq<char>>,
}

impl View for NewTask {
    type V = NewTaskView;

    open spec fn view(&self) -> NewTaskView {
        NewTaskView {
            html_notes: self.html_notes@,
            name: self.name@,
            projects: texts(self.projects@),
            tags: texts(self.tags@),
        }
    }
}

/// The identifiers of the tags of a list.
pub open spec fn gids(tags: Seq<TagView>) -> Seq<Seq<char>> {
    tags.map_values(|tag: TagView| tag.gid)
}

/// The task that is created for an event: its notes name the event, and it stands in one
/// project.
pub open spec fn new_task(
    event_id: Seq<char>,
    name: Seq<char>,
    tags: Seq<TagView>,
    project_gid: u64,
) -> NewTaskView {
    NewTaskView {
        html_notes: event_notes(event_id),
        name,
        projects: seq![decimal(project_gid as nat)],
        tags: gids(tags),
    }
}

impl NewTask {
    fn make(event_id: &str, name: String, tags: &Vec<AsanaTag>, project_gid: u64) -> (task: NewTask)
        ensures
            task@ == new_task(event_id@, name@, tags_view(tags@), project_gid),
    {
        let ghost listed = tags_view(tags@);
        let mut tag_gids: Vec<String> = Vec::new();
        let mut i: usize = 0;
        while i < tags.len()
            invariant
                i <= tags@.len(),
                listed == tags_view(tags@),
                texts(tag_gids@) == gids(listed.take(i as int)),
            decreases tags@.len() - i,
        {
            let ghost before = tag_gids@;
            tag_gids.push(tags[i].gid.clone());
            assert(texts(tag_gids@) =~= texts(before).push(listed[i as int].gid));
            assert(gids(listed.take(i + 1)) =~= gids(listed.take(i as int)).push(
                listed[i as int].gid,
            ));
            i += 1;
        }
        assert(listed.take(i as int) =~= listed);
        let mut projects: Vec<String> = Vec::new();
        projects.push(decimal_text(project_gid));
        assert(texts(projects@) =~= seq![decimal(project_gid as nat)]);
        NewTask { html_notes: write_event_notes(event_id), name, projects, tags: tag_gids }
    }

    /// The task that is created for an event. The tags of the task service have to be fetched
    /// first where the event asks for a tracked resource and no tags are known.
    pub fn from_event(
        event: &PcoEventWithRequestedResources,
        known: &TagCache,
        project_gid: u64,
    ) -> (step: TagStep<NewTask>)
        ensures
            match step {
                TagStep::FetchAllTags => needs_tags(*event, known@),
                TagStep::Ready(task) => !needs_tags(*event, known@) && task@ == new_task(
                    event.event@.id,
                    name_or(event.event@, "Unknown Asana Event: "@),
                    event_tags(*event, known@),
                    project_gid,
                ),
            },
    {
        let name = event_name(&event.event, "Unknown Asana Event: ");
        match find_event_tags(event, known) {
            TagStep::FetchAllTags => TagStep::FetchAllTags,
            TagStep::Ready(tags) => TagStep::Ready(
                NewTask::make(event.event.id.as_str(), name, &tags, project_gid),
            ),
        }
    }

    /// The task that is created for an event in the common form. The tags come in any order.
    pub fn from_canon_task(task: &CanonTask, project_gid: u64) -> (new: NewTask)
        ensures
            exists|tags: Seq<TagView>| #[trigger]
                lists(tags, task@.resource_tags) && new@ == new_task(
                    task@.event_id,
                    task@.name,
                    tags,
                    project_gid,
                ),
    {
        let tags = task.resource_tags();
        let ghost listed = tags_view(tags@);
        assert(lists(listed, task@.resource_tags));
        NewTask::make(task.event_id(), task.name().to_owned(), tags, project_gid)
    }
}

// ---------------------------------------------------------------------------
// Differences
// ---------------------------------------------------------------------------

/// The common form of a task that is linked to an event.
pub open spec fn canon_of_linked(task: LinkedTaskView) -> CanonTaskView {
    CanonTaskView {
        event_id: task.event_id,
        name: task.task.name,
        resource_tags: task.task.tags.to_set(),
    }
}

impl AsanaLinkedTask {
    /// Brings a task that is linked to an event into the common form.
    pub fn canon_task(&self) -> (task: CanonTask)
        ensures
            task@ == canon_of_linked(self@),
    {
        CanonTask::new(
            self.event_id.clone(),
            self.task.name.clone(),
            clone_tags(&self.task.tags),
        )
    }
}

/// What the tasks of a list are, apart from how they are kept.
pub open spec fn canon_view(tasks: Seq<CanonTask>) -> Seq<CanonTaskView> {
    tasks.map_values(|task: CanonTask| task@)
}

/// The first task that is linked to the event.
pub open spec fn first_linked(tasks: Seq<LinkedTaskView>, event_id: Seq<char>) -> Option<
    LinkedTaskView,
>
    decreases tasks.len(),
{
    if tasks.len() == 0 {
        None
    } else if tasks[0].event_id == event_id {
        Some(tasks[0])
    } else {
        first_linked(tasks.drop_first(), event_id)
    }
}

/// What is to be done about an event.
pub enum Fate {
    /// It has no tags: it is left alone.
    Untracked,
    /// It has no task: one is created.
    Create,
    /// Its task does not look as it should: the task is updated.
    Update(LinkedTaskView),
    /// Its task looks as it should.
    Settled,
}

/// What is to be done about an event, given the tasks that are linked to events.
pub open spec fn fate(event: CanonTaskView, tasks: Seq<LinkedTaskView>) -> Fate {
    if event.resource_tags == Set::<TagView>::empty() {
        Fate::Untracked
    } else {
        match first_linked(tasks, event.event_id) {
            None => Fate::Create,
            Some(task) => if canon_of_linked(task) == event {
                Fate::Settled
            } else {
                Fate::Update(task)
            },
        }
    }
}

/// The events for which a task is created, in their order.
pub open spec fn created(events: Seq<CanonTaskView>, tasks: Seq<LinkedTaskView>) -> Seq<
    CanonTaskView,
> {
    events.filter(|event: CanonTaskView| fate(event, tasks) is Create)
}

/// The event with the task that is updated for it, if one is.
pub open spec fn update_of(event: CanonTaskView, tasks: Seq<LinkedTaskView>) -> Option<
    (CanonTaskView, LinkedTaskView),
> {
    match fate(event, tasks) {
        Fate::Update(task) => Some((event, task)),
        _ => None,
    }
}

/// The events for which a task is updated, each with the task, in their order.
pub open spec fn updated(events: Seq<CanonTaskView>, tasks: Seq<LinkedTaskView>) -> Seq<
    (CanonTaskView, LinkedTaskView),
> {
    events.filter_map(|event: CanonTaskView| update_of(event, tasks))
}

/// What the events and tasks of a list are, apart from how they are kept.
pub open spec fn pairs_view(pairs: Seq<(CanonTask, AsanaLinkedTask)>) -> Seq<
    (CanonTaskView, LinkedTaskView),
> {
    pairs.map_values(|pair: (CanonTask, AsanaLinkedTask)| (pair.0@, pair.1@))
}

/// The events for which something is to be done.
#[derive(Debug)]
pub struct SortedTasks {
    /// Those that need a new task.
    pub to_create: Vec<CanonTask>,
    /// Those with a task that needs to change.
    pub to_update: Vec<(CanonTask, AsanaLinkedTask)>,
}

fn find_linked(tasks: &Vec<AsanaLinkedTask>, event_id: &str) -> (found: Option<usize>)
    ensures
        match found {
            Some(i) => i < tasks@.len() && first_linked(linked_view(tasks@), event_id@) == Some(
                tasks@[i as int]@,
            ),
            None => first_linked(linked_view(tasks@), event_id@) is None,
        },
{
    let ghost all = linked_view(tasks@);
    let mut i: usize = 0;
    assert(all.skip(0) =~= all);
    while i < tasks.len()
        invariant
            i <= tasks@.len(),
            all == linked_view(tasks@),
            first_linked(all, event_id@) == first_linked(all.skip(i as int), event_id@),
        decreases tasks@.len() - i,
    {
        assert(all.skip(i as int)[0] == tasks@[i as int]@);
        if same_text(tasks[i].event_id.as_str(), event_id) {
            return Some(i);
        }
        assert(all.skip(i as int).drop_first() =~= all.skip(i + 1));
        i += 1;
    }
    None
}

/// Sorts the events by what is to be done about them, given the tasks that are linked to
/// events.
pub fn sort_tasks(events: Vec<CanonTask>, tasks: &Vec<AsanaLinkedTask>) -> (sorted: SortedTasks)
    ensures
        canon_view(sorted.to_create@) == created(canon_view(events@), linked_view(tasks@)),
        pairs_view(sorted.to_update@) == updated(canon_view(events@), linked_view(tasks@)),
{
    let ghost all = canon_view(events@);
    let ghost linked = linked_view(tasks@);
    let mut to_create: Vec<CanonTask> = Vec::new();
    let mut to_update: Vec<(CanonTask, AsanaLinkedTask)> = Vec::new();
    proof {
        assert(all.take(0) =~= Seq::<CanonTaskView>::empty());
        reveal(Seq::filter);
        assert(canon_view(to_create@) =~= created(all.take(0), linked));
        assert(pairs_view(to_update@) =~= updated(all.take(0), linked));
    }
    for event in it: events
        invariant
            it.seq() == events@,
            all == canon_view(events@),
            linked == linked_view(tasks@),
            canon_view(to_create@) == created(all.take(it.index() as int), linked),
            pairs_view(to_update@) == updated(all.take(it.index() as int), linked),
    {
        let ghost i: int = it.index() as int;
        let ghost view = event@;
        let ghost creates = to_create@;
        let ghost updates = to_update@;
        proof {
            assert(all.take(i + 1) =~= all.take(i).push(view));
            all.take(i).lemma_filter_push(view, |event: CanonTaskView| fate(event, linked) is Create);
            all.lemma_filter_map_take_succ(|event: CanonTaskView| update_of(event, linked), i);
        }
        let tags = event.resource_tags();
        let tagged = tags.len() > 0;
        proof {
            if tagged {
                assert(tags_view(tags@).to_set().contains(tags@[0]@)) by {
                    assert(tags_view(tags@)[0] == tags@[0]@);
                }
            } else {
                assert(tags_view(tags@).to_set() =~= Set::<TagView>::empty());
            }
        }
        if tagged {
            match find_linked(tasks, event.event_id()) {
                Some(k) => {
                    if tasks[k].canon_task() != event {
                        to_update.push((event, tasks[k].clone()));
                        assert(pairs_view(to_update@) =~= pairs_view(updates).push(
                            (view, tasks@[k as int]@),
                        ));
                    }
                },
                None => {
                    to_create.push(event);
                    assert(canon_view(to_create@) =~= canon_view(creates).push(view));
                },
            }
        }
    }
    assert(all.take(all.len() as int) =~= all);
    SortedTasks { to_create, to_update }
}

/// The first task that is linked to an event is one of the tasks, and is linked to that event;
/// there is one as soon as any task is.
pub proof fn first_linked_is_linked(tasks: Seq<LinkedTaskView>, event_id: Seq<char>)
    ensures
        match first_linked(tasks, event_id) {
            Some(task) => tasks.contains(task) && task.event_id == event_id,
            None => forall|i: int| 0 <= i < tasks.len() ==> (#[trigger] tasks[i]).event_id
                != event_id,
        },
    decreases tasks.len(),
{
    if tasks.len() > 0 && tasks[0].event_id != event_id {
        let rest = tasks.drop_first();
        first_linked_is_linked(rest, event_id);
        match first_linked(rest, event_id) {
            Some(task) => {
                let i = choose|i: int| 0 <= i < rest.len() && rest[i] == task;
                assert(tasks[i + 1] == task);
            },
            None => {
                assert forall|i: int| 0 <= i < tasks.len() implies (#[trigger] tasks[i]).event_id
                    != event_id by {
                    if i > 0 {
                        assert(rest[i - 1] == tasks[i]);
                    }
                }
            },
        }
    }
}

/// A task is created for an event exactly where the event has tags and no task is linked to it.
pub proof fn created_without_task(
    events: Seq<CanonTaskView>,
    tasks: Seq<LinkedTaskView>,
    event: CanonTaskView,
)
    ensures
        created(events, tasks).contains(event) <==> {
            &&& events.contains(event)
            &&& event.resource_tags != Set::<TagView>::empty()
            &&& forall|i: int| 0 <= i < tasks.len() ==> (#[trigger] tasks[i]).event_id
                != event.event_id
        },
{
    let creates = |event: CanonTaskView| fate(event, tasks) is Create;
    first_linked_is_linked(tasks, event.event_id);
    if created(events, tasks).contains(event) {
        let k = choose|k: int|
            0 <= k < created(events, tasks).len() && created(events, tasks)[k] == event;
        events.lemma_filter_pred(creates, k);
        events.lemma_filter_contains_rev(creates, event);
    }
    if events.contains(event) && creates(event) {
        let i = choose|i: int| 0 <= i < events.len() && events[i] == event;
        events.lemma_filter_contains(creates, i);
    }
    match first_linked(tasks, event.event_id) {
        Some(task) => {
            let i = choose|i: int| 0 <= i < tasks.len() && tasks[i] == task;
            assert(tasks[i].event_id == event.event_id);
        },
        None => {},
    }
}

/// What one item of a list is turned into stands among what the list is turned into.
proof fn lemma_filter_map_lists<A, B>(list: Seq<A>, f: spec_fn(A) -> Option<B>, i: int)
    requires
        0 <= i < list.len(),
        f(list[i]) is Some,
    ensures
        list.filter_map(f).contains(f(list[i])->0),
    decreases list.len(),
{
    let last = list.len() - 1;
    let all = list.filter_map(f);
    let shorter = list.drop_last();
    list.lemma_filter_map_take_succ(f, last);
    assert(list.take(last) =~= shorter);
    assert(list.take(last + 1) =~= list);
    if i == last {
        assert(all[all.len() - 1] == f(list[i])->0);
    } else {
        lemma_filter_map_lists(shorter, f, i);
        let earlier = shorter.filter_map(f);
        let k = choose|k: int| 0 <= k < earlier.len() && earlier[k] == f(list[i])->0;
        assert(all[k] == f(list[i])->0);
    }
}

/// A task is updated for an event exactly where the event has tags, the task is the first one
/// that is linked to the event, and its name or its tags are not those of the event.
pub proof fn updated_where_different(
    events: Seq<CanonTaskView>,
    tasks: Seq<LinkedTaskView>,
    event: CanonTaskView,
    task: LinkedTaskView,
)
    ensures
        updated(events, tasks).contains((event, task)) <==> {
            &&& events.contains(event)
            &&& event.resource_tags != Set::<TagView>::empty()
            &&& first_linked(tasks, event.event_id) == Some(task)
            &&& task.task.name != event.name || task.task.tags.to_set() != event.resource_tags
        },
{
    first_linked_is_linked(tasks, event.event_id);
    if updated(events, tasks).contains((event, task)) {
        events.lemma_filter_map_contains(
            |event: CanonTaskView| update_of(event, tasks),
            (event, task),
        );
    }
    if events.contains(event) && fate(event, tasks) == Fate::Update(task) {
        let i = choose|i: int| 0 <= i < events.len() && events[i] == event;
        lemma_filter_map_lists(events, |event: CanonTaskView| update_of(event, tasks), i);
    }
}

/// No event gets a new task and an update at once.
pub proof fn never_created_and_updated(
    events: Seq<CanonTaskView>,
    tasks: Seq<LinkedTaskView>,
    event: CanonTaskView,
    task: LinkedTaskView,
)
    ensures
        !(created(events, tasks).contains(event) && updated(events, tasks).contains(
            (event, task),
        )),
{
    created_without_task(events, tasks, event);
    updated_where_different(events, tasks, event, task);
    first_linked_is_linked(tasks, event.event_id);
    if first_linked(tasks, event.event_id) == Some(task) {
        let i = choose|i: int| 0 <= i < tasks.len() && tasks[i] == task;
        assert(tasks[i].event_id == event.event_id);
    }
}

/// Once the first task that is linked to an event has its name and its tags, nothing is done
/// about the event any more.
pub proof fn settled_events_stay(
    events: Seq<CanonTaskView>,
    tasks: Seq<LinkedTaskView>,
    event: CanonTaskView,
    task: LinkedTaskView,
)
    requires
        first_linked(tasks, event.event_id) == Some(task),
        task.task.name == event.name,
        task.task.tags.to_set() == event.resource_tags,
    ensures
        !created(events, tasks).contains(event),
        forall|other: LinkedTaskView| !#[trigger]
            updated(events, tasks).contains((event, other)),
{
    created_without_task(events, tasks, event);
    first_linked_is_linked(tasks, event.event_id);
    let i = choose|i: int| 0 <= i < tasks.len() && tasks[i] == task;
    assert(tasks[i].event_id == event.event_id);
    assert forall|other: LinkedTaskView| !#[trigger] updated(events, tasks).contains(
        (event, other),
    ) by {
        updated_where_different(events, tasks, event, other);
    }
}

/// An event that the notes of a task name, as those do that were written for it, gets no second
/// task.
pub proof fn no_second_task(
    events: Seq<CanonTaskView>,
    tasks: Seq<AsanaTask>,
    event: CanonTaskView,
    i: int,
)
    requires
        0 <= i < tasks.len(),
        event_id_in_notes(tasks[i]@.html_notes) == Some(event.event_id),
    ensures
        !created(events, tasks.filter_map(|task: AsanaTask| linked_task(task@))).contains(event),
{
    let link = |task: AsanaTask| linked_task(task@);
    let linked = tasks.filter_map(link);
    lemma_filter_map_lists(tasks, link, i);
    let k = choose|k: int| 0 <= k < linked.len() && linked[k] == link(tasks[i])->0;
    assert(linked[k].event_id == event.event_id);
    created_without_task(events, linked, event);
}

// ---------------------------------------------------------------------------
// Laws
// ---------------------------------------------------------------------------

/// An event is named by the text that its attributes hold under `name`, whatever else it holds,
/// both in the common form and in a new task.
pub proof fn events_are_named_by_their_name(
    event: PcoEventWithRequestedResources,
    known: Option<Map<Seq<char>, TagView>>,
    prefix: Seq<char>,
    name: Seq<char>,
)
    requires
        ({
            &&& event.event.attributes matches Some(members)
            &&& members@.contains_key("name"@)
            &&& members@["name"@] matches Json::Text(text)
            &&& text@ == name
        }),
    ensures
        name_or(event.event@, prefix) == name,
        canon_of_event(event, known).name == name,
{
    attribute_is_the_text_under_its_key(event.event, "name"@, name);
}

/// An event whose attributes hold no text under `name` is named by the prefix and its
/// identifier.
pub proof fn nameless_events_are_named_by_their_identifier(
    event: PcoEventWithRequestedResources,
    known: Option<Map<Seq<char>, TagView>>,
    prefix: Seq<char>,
)
    requires
        !({
            &&& event.event.attributes matches Some(members)
            &&& members@.contains_key("name"@)
            &&& members@["name"@] is Text
        }),
    ensures
        name_or(event.event@, prefix) == prefix + event.event.id@,
        canon_of_event(event, known).name == "Nameless Asana Event: "@ + event.event.id@,
{
    if let Some(name) = event.event@.attribute("name"@) {
        attribute_is_the_text_under_its_key(event.event, "name"@, name);
    }
}

/// Two events with the same text under `name` have the same name, whatever else they hold.
pub proof fn same_name_gives_the_same_name(event: PcoObject, other: PcoObject, prefix: Seq<char>)
    requires
        event.attributes is Some,
        other.attributes is Some,
        event.attributes->0@.get("name"@) == other.attributes->0@.get("name"@),
        event.id@ == other.id@,
    ensures
        name_or(event@, prefix) == name_or(other@, prefix),
{
    attributes_do_not_touch_each_other(event, other, "name"@);
}

/// The common form of an event has its identifier and the tags that the names of its tracked
/// resources find; nothing but the requested resources and the known tags gives the tags.
pub proof fn common_form_has_identifier_and_tags(
    event: PcoEventWithRequestedResources,
    tags: Map<Seq<char>, TagView>,
    tag: TagView,
)
    ensures
        canon_of_event(event, Some(tags)).event_id == event.event.id@,
        event_tags(event, Some(tags)) == tags_named(tags, tag_names(event.requested_resources@)),
        event_tags(event, None) == Seq::<TagView>::empty(),
        canon_of_event(event, Some(tags)).resource_tags.contains(tag) <==> tags_named(
            tags,
            tag_names(event.requested_resources@),
        ).contains(tag),
        canon_of_event(event, None).resource_tags == Set::<TagView>::empty(),
        needs_tags(event, Some(tags)) == false,
        needs_tags(event, None) <==> tag_names(event.requested_resources@).len() > 0,
{
    assert(canon_of_event(event, None).resource_tags =~= Set::<TagView>::empty());
}

/// A new task is named and tagged as it is said to be, stands in the one project, and its notes
/// are those of the event.
pub proof fn new_tasks_are_as_said(
    event_id: Seq<char>,
    name: Seq<char>,
    tags: Seq<TagView>,
    project_gid: u64,
)
    ensures
        new_task(event_id, name, tags, project_gid).name == name,
        new_task(event_id, name, tags, project_gid).html_notes
            == "<body>\n<code>&gt;&gt;&gt;&gt; "@ + event_id
            + " &lt;&lt;&lt;&lt;</code></body>"@,
        new_task(event_id, name, tags, project_gid).projects.len() == 1,
        new_task(event_id, name, tags, project_gid).projects[0] == decimal(project_gid as nat),
        new_task(event_id, name, tags, project_gid).tags.len() == tags.len(),
        forall|i: int|
            0 <= i < tags.len() ==> #[trigger] new_task(event_id, name, tags, project_gid).tags[i]
                == tags[i].gid,
{
}

/// What a new task is leaves out nothing that it holds.
pub proof fn new_tasks_are_what_they_hold(task: NewTask)
    ensures
        task@.html_notes == task.html_notes@,
        task@.name == task.name@,
        task@.projects.len() == task.projects@.len(),
        forall|i: int|
            0 <= i < task.projects@.len() ==> #[trigger] task@.projects[i] == task.projects@[i]@,
        task@.tags.len() == task.tags@.len(),
        forall|i: int| 0 <= i < task.tags@.len() ==> #[trigger] task@.tags[i] == task.tags@[i]@,
{
}

/// A list lists the members of a set where each of them stands in it exactly once.
pub proof fn lists_hold_each_member_once(list: Seq<TagView>, tags: Set<TagView>)
    ensures
        lists(list, tags) <==> {
            &&& forall|i: int, j: int|
                0 <= i < j < list.len() ==> #[trigger] list[i] != #[trigger] list[j]
            &&& forall|i: int| 0 <= i < list.len() ==> tags.contains(#[trigger] list[i])
            &&& forall|tag: TagView| #[trigger] tags.contains(tag) ==> list.contains(tag)
        },
{
    if lists(list, tags) {
        assert forall|i: int| 0 <= i < list.len() implies tags.contains(#[trigger] list[i]) by {
            assert(list.to_set().contains(list[i]));
        }
        assert forall|tag: TagView| #[trigger] tags.contains(tag) implies list.contains(tag) by {
            assert(list.to_set().contains(tag));
        }
    }
    if (forall|i: int, j: int|
        0 <= i < j < list.len() ==> #[trigger] list[i] != #[trigger] list[j]) && (forall|i: int|
        0 <= i < list.len() ==> tags.contains(#[trigger] list[i])) && (forall|tag: TagView| #[trigger]
        tags.contains(tag) ==> list.contains(tag)) {
        assert(list.to_set() =~= tags);
        assert(list.no_duplicates());
    }
}

/// The common form of a linked task has the event that the task is linked to, the name of the
/// task, and the tags of the task.
pub proof fn common_form_of_a_linked_task(task: AsanaLinkedTask, tag: TagView)
    ensures
        canon_of_linked(task@).event_id == task.event_id@,
        canon_of_linked(task@).name == task.task.name@,
        canon_of_linked(task@).resource_tags.contains(tag) <==> exists|i: int|
            0 <= i < task.task.tags@.len() && (#[trigger] task.task.tags@[i])@ == tag,
{
    let tags = task@.task.tags;
    if tags.contains(tag) {
        let i = choose|i: int| 0 <= i < tags.len() && tags[i] == tag;
        assert(task.task.tags@[i]@ == tag);
    }
    if exists|i: int| 0 <= i < task.task.tags@.len() && (#[trigger] task.task.tags@[i])@ == tag {
        let i = choose|i: int|
            0 <= i < task.task.tags@.len() && (#[trigger] task.task.tags@[i])@ == tag;
        assert(tags[i] == tag);
    }
}

/// Of several tasks that are linked to an event the first one counts.
pub proof fn first_linked_is_the_first(tasks: Seq<LinkedTaskView>, event_id: Seq<char>, i: int)
    requires
        0 <= i < tasks.len(),
        tasks[i].event_id == event_id,
        forall|j: int| 0 <= j < i ==> (#[trigger] tasks[j]).event_id != event_id,
    ensures
        first_linked(tasks, event_id) == Some(tasks[i]),
    decreases i,
{
    if i > 0 {
        let rest = tasks.drop_first();
        assert forall|j: int| 0 <= j < i - 1 implies (#[trigger] rest[j]).event_id != event_id by {
            assert(rest[j] == tasks[j + 1]);
        }
        assert(tasks[0].event_id != event_id);
        assert(rest[i - 1] == tasks[i]);
        first_linked_is_the_first(rest, event_id, i - 1);
    }
}

/// One more event is created behind the earlier ones exactly where it has tags and no task is
/// linked to it.
pub proof fn events_are_created_one_by_one(
    events: Seq<CanonTaskView>,
    tasks: Seq<LinkedTaskView>,
    event: CanonTaskView,
)
    ensures
        created(Seq::empty(), tasks) == Seq::<CanonTaskView>::empty(),
        created(events.push(event), tasks) == if event.resource_tags != Set::<TagView>::empty() && (
        forall|i: int| 0 <= i < tasks.len() ==> (#[trigger] tasks[i]).event_id != event.event_id) {
            created(events, tasks).push(event)
        } else {
            created(events, tasks)
        },
{
    events.lemma_filter_push(event, |event: CanonTaskView| fate(event, tasks) is Create);
    first_linked_is_linked(tasks, event.event_id);
    if let Some(task) = first_linked(tasks, event.event_id) {
        let i = choose|i: int| 0 <= i < tasks.len() && tasks[i] == task;
        assert(tasks[i].event_id == event.event_id);
    }
    reveal(Seq::filter);
    assert(created(Seq::empty(), tasks) =~= Seq::<CanonTaskView>::empty());
}

/// One more event is updated behind the earlier ones, with the first task that is linked to it,
/// exactly where it has tags and the name or the tags of that task are others.
pub proof fn events_are_updated_one_by_one(
    events: Seq<CanonTaskView>,
    tasks: Seq<LinkedTaskView>,
    event: CanonTaskView,
    i: int,
)
    requires
        0 <= i < tasks.len(),
        tasks[i].event_id == event.event_id,
        forall|j: int| 0 <= j < i ==> (#[trigger] tasks[j]).event_id != event.event_id,
    ensures
        updated(events.push(event), tasks) == if event.resource_tags != Set::<TagView>::empty() && (
        tasks[i].task.name != event.name || tasks[i].task.tags.to_set() != event.resource_tags) {
            updated(events, tasks).push((event, tasks[i]))
        } else {
            updated(events, tasks)
        },
{
    first_linked_is_the_first(tasks, event.event_id, i);
    lemma_updated_push(events, tasks, event);
}

/// An event without a linked task is not updated.
pub proof fn events_without_a_task_are_not_updated(
    events: Seq<CanonTaskView>,
    tasks: Seq<LinkedTaskView>,
    event: CanonTaskView,
)
    requires
        forall|i: int| 0 <= i < tasks.len() ==> (#[trigger] tasks[i]).event_id != event.event_id,
    ensures
        updated(Seq::empty(), tasks) == Seq::<(CanonTaskView, LinkedTaskView)>::empty(),
        updated(events.push(event), tasks) == updated(events, tasks),
{
    first_linked_is_linked(tasks, event.event_id);
    lemma_updated_push(events, tasks, event);
    assert(updated(Seq::empty(), tasks) =~= Seq::<(CanonTaskView, LinkedTaskView)>::empty());
}

proof fn lemma_updated_push(
    events: Seq<CanonTaskView>,
    tasks: Seq<LinkedTaskView>,
    event: CanonTaskView,
)
    ensures
        updated(events.push(event), tasks) == match update_of(event, tasks) {
            Some(pair) => updated(events, tasks).push(pair),
            None => updated(events, tasks),
        },
{
    let more = events.push(event);
    let n = events.len() as int;
    more.lemma_filter_map_take_succ(|event: CanonTaskView| update_of(event, tasks), n);
    assert(more.take(n) =~= events);
    assert(more.take(n + 1) =~= more);
}

/// What the tasks and pairs of a list are keeps their number and order.
pub proof fn lists_of_tasks_keep_their_order(
    tasks: Seq<CanonTask>,
    pairs: Seq<(CanonTask, AsanaLinkedTask)>,
)
    ensures
        canon_view(tasks).len() == tasks.len(),
        forall|i: int| 0 <= i < tasks.len() ==> #[trigger] canon_view(tasks)[i] == tasks[i]@,
        pairs_view(pairs).len() == pairs.len(),
        forall|i: int|
            0 <= i < pairs.len() ==> #[trigger] pairs_view(pairs)[i] == (pairs[i].0@, pairs[i].1@),
{
}

} // verus!
