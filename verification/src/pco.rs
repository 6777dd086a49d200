//! The calendar service: events, and the resources that they ask for.
pub mod client;

use vstd::prelude::*;

use self::client::{related_id_is_the_text_under_the_relation, PcoObject, PcoObjectView};
use crate::json::Json;
use crate::string_map::StringMap;
use crate::text::texts;

verus! {

/// How many requests to the calendar service are under way at a time.
pub const PCO_CONCURRENCY: usize = 5;

/// An event, the times at which it takes place, and the resources that it asks for.
#[derive(Debug, Clone)]
pub struct PcoEventWithRequestedResources {
    pub event: PcoObject,
    pub instances: Vec<PcoObject>,
    pub requested_resources: Vec<PcoObject>,
}

/// What the objects of a list are, apart from how they are kept.
pub open spec fn objects_view(objects: Seq<PcoObject>) -> Seq<PcoObjectView> {
    objects.map_values(|object: PcoObject| object@)
}

// ---------------------------------------------------------------------------
// Instances by event
// ---------------------------------------------------------------------------

/// The object is an instance of the event `id`.
pub open spec fn instance_of(object: PcoObject, id: Seq<char>) -> bool {
    object@.related_id("event"@) == Some(id)
}

/// The instances of the event `id`, in their order.
pub open spec fn instances_of(objects: Seq<PcoObject>, id: Seq<char>) -> Seq<PcoObject> {
    objects.filter(|object: PcoObject| instance_of(object, id))
}

/// `groups` holds the instances of every event that has any, by the identifier of the event.
pub open spec fn grouped_by_event(
    groups: Map<Seq<char>, Vec<PcoObject>>,
    objects: Seq<PcoObject>,
) -> bool {
    &&& forall|id: Seq<char>| #[trigger]
        groups.contains_key(id) <==> exists|i: int|
            0 <= i < objects.len() && instance_of(#[trigger] objects[i], id)
    &&& forall|id: Seq<char>| #[trigger]
        groups.contains_key(id) ==> groups[id]@ == instances_of(objects, id)
}

/// What one more object does to the instances of an event.
proof fn lemma_instances_push(objects: Seq<PcoObject>, object: PcoObject, id: Seq<char>)
    ensures
        instances_of(objects.push(object), id) == if instance_of(object, id) {
            instances_of(objects, id).push(object)
        } else {
            instances_of(objects, id)
        },
{
    objects.lemma_filter_push(object, |object: PcoObject| instance_of(object, id));
}

/// Without an instance of an event there is nothing to list.
proof fn lemma_no_instances(objects: Seq<PcoObject>, id: Seq<char>)
    requires
        forall|i: int| 0 <= i < objects.len() ==> !instance_of(#[trigger] objects[i], id),
    ensures
        instances_of(objects, id) == Seq::<PcoObject>::empty(),
    decreases objects.len(),
{
    reveal(Seq::filter);
    if objects.len() > 0 {
        let shorter = objects.drop_last();
        assert forall|i: int| 0 <= i < shorter.len() implies !instance_of(
            #[trigger] shorter[i],
            id,
        ) by {
            assert(shorter[i] == objects[i]);
        }
        lemma_no_instances(shorter, id);
        assert(!instance_of(objects[objects.len() - 1], id));
    }
}

/// Sorts instances by the event to which they belong. Those that name no event are dropped.
pub fn group_by_event(instances: Vec<PcoObject>) -> (groups: StringMap<Vec<PcoObject>>)
    ensures
        grouped_by_event(groups@, instances@),
{
    let mut groups: StringMap<Vec<PcoObject>> = StringMap::new();
    let ghost objects = instances@;
    for instance in it: instances
        invariant
            it.seq() == objects,
            grouped_by_event(groups@, objects.take(it.index() as int)),
    {
        let ghost done = objects.take(it.index() as int);
        let ghost before = groups@;
        let ghost object = instance;
        match instance.related_id("event") {
            Some(id) => {
                groups.push(id, instance);
            },
            None => {},
        }
        proof {
            let more = done.push(object);
            assert(objects.take(it.index() + 1) =~= more);
            assert forall|id: Seq<char>| #[trigger] groups@.contains_key(id) <==> exists|i: int|
                0 <= i < more.len() && instance_of(#[trigger] more[i], id) by {
                if instance_of(object, id) {
                    assert(more[done.len() as int] == object);
                } else {
                    if exists|i: int| 0 <= i < more.len() && instance_of(#[trigger] more[i], id) {
                        let i = choose|i: int|
                            0 <= i < more.len() && instance_of(#[trigger] more[i], id);
                        assert(done[i] == more[i]);
                        assert(before.contains_key(id));
                    }
                    if before.contains_key(id) {
                        let i = choose|i: int|
                            0 <= i < done.len() && instance_of(#[trigger] done[i], id);
                        assert(more[i] == done[i]);
                    }
                }
            }
            assert forall|id: Seq<char>| #[trigger] groups@.contains_key(id) implies groups@[id]@
                == instances_of(more, id) by {
                lemma_instances_push(done, object, id);
                if instance_of(object, id) && !before.contains_key(id) {
                    assert forall|i: int| 0 <= i < done.len() implies !instance_of(
                        #[trigger] done[i],
                        id,
                    ) by {}
                    lemma_no_instances(done, id);
                }
            }
        }
    }
    proof {
        assert(objects.take(objects.len() as int) =~= objects);
    }
    groups
}

/// Every instance that names an event stands with that event and with no other, and one that
/// names none stands nowhere.
pub proof fn each_instance_stands_with_its_event(
    groups: Map<Seq<char>, Vec<PcoObject>>,
    objects: Seq<PcoObject>,
    i: int,
    id: Seq<char>,
)
    requires
        grouped_by_event(groups, objects),
        0 <= i < objects.len(),
    ensures
        instance_of(objects[i], id) <==> groups.contains_key(id) && groups[id]@.contains(
            objects[i],
        ),
{
    let belongs = |object: PcoObject| instance_of(object, id);
    if instance_of(objects[i], id) {
        assert(belongs(objects[i]));
        objects.lemma_filter_contains(belongs, i);
        assert(groups.contains_key(id));
        assert(groups[id]@ == objects.filter(belongs));
    }
    if groups.contains_key(id) && groups[id]@.contains(objects[i]) {
        let k = choose|k: int| 0 <= k < groups[id]@.len() && groups[id]@[k] == objects[i];
        objects.lemma_filter_pred(belongs, k);
        assert(belongs(objects[i]));
    }
}

// ---------------------------------------------------------------------------
// Resources of an event
// ---------------------------------------------------------------------------

/// The identifiers of the resources that the requests name, in their order. A request that
/// names none is passed over.
pub open spec fn resource_ids(requests: Seq<PcoObject>) -> Seq<Seq<char>> {
    requests.filter_map(|request: PcoObject| request@.related_id("resource"@))
}

/// The identifiers of the resources that the requests name, in their order.
pub fn requested_resource_ids(requests: &Vec<PcoObject>) -> (ids: Vec<String>)
    ensures
        texts(ids@) == resource_ids(requests@),
{
    let mut ids: Vec<String> = Vec::new();
    let mut i: usize = 0;
    assert(texts(ids@) =~= resource_ids(requests@.take(0)));
    while i < requests.len()
        invariant
            i <= requests@.len(),
            texts(ids@) == resource_ids(requests@.take(i as int)),
        decreases requests@.len() - i,
    {
        let ghost before = ids@;
        proof {
            requests@.lemma_filter_map_take_succ(
                |request: PcoObject| request@.related_id("resource"@),
                i as int,
            );
        }
        match requests[i].related_id("resource") {
            Some(id) => {
                ids.push(id);
                assert(texts(ids@) =~= texts(before).push(id@));
            },
            None => {},
        }
        i += 1;
    }
    assert(requests@.take(i as int) =~= requests@);
    ids
}

/// The instances that `groups` holds for the event `id`.
pub open spec fn instances_in(groups: Map<Seq<char>, Vec<PcoObject>>, id: Seq<char>) -> Seq<
    PcoObject,
> {
    match groups.get(id) {
        Some(instances) => instances@,
        None => Seq::empty(),
    }
}

impl PcoEventWithRequestedResources {
    /// Puts an event together with its instances and with the resources that were fetched
    /// for it.
    pub fn assemble(
        event: PcoObject,
        groups: &StringMap<Vec<PcoObject>>,
        requested_resources: Vec<PcoObject>,
    ) -> (assembled: PcoEventWithRequestedResources)
        ensures
            assembled.event == event,
            objects_view(assembled.instances@) == objects_view(instances_in(groups@, event@.id)),
            assembled.requested_resources == requested_resources,
    {
        let instances = match groups.get(event.id.as_str()) {
            Some(instances) => instances.clone(),
            None => Vec::new(),
        };
        assert(objects_view(instances@) =~= objects_view(instances_in(groups@, event@.id)));
        PcoEventWithRequestedResources { event, instances, requested_resources }
    }
}

/// What an event is put together with are the instances that name it, all of them, in their
/// order.
pub proof fn assembled_instances_are_those_of_the_event(
    groups: Map<Seq<char>, Vec<PcoObject>>,
    objects: Seq<PcoObject>,
    id: Seq<char>,
)
    requires
        grouped_by_event(groups, objects),
    ensures
        instances_in(groups, id) == instances_of(objects, id),
{
    if !groups.contains_key(id) {
        assert forall|i: int| 0 <= i < objects.len() implies !instance_of(
            #[trigger] objects[i],
            id,
        ) by {}
        lemma_no_instances(objects, id);
    }
}

// ---------------------------------------------------------------------------
// Laws
// ---------------------------------------------------------------------------

/// An object is an instance of the event `id` exactly where its relationships hold the text `id`
/// under `event`, `data` and `id`, whatever else it holds.
pub proof fn instances_name_their_event(object: PcoObject, id: Seq<char>)
    ensures
        instance_of(object, id) <==> {
            &&& object.relationships matches Some(members)
            &&& members@.contains_key("event"@)
            &&& members@["event"@] matches Json::Object(related)
            &&& related@.contains_key("data"@)
            &&& related@["data"@] matches Json::Object(data)
            &&& data@.contains_key("id"@)
            &&& data@["id"@] matches Json::Text(text)
            &&& text@ == id
        },
{
    related_id_is_the_text_under_the_relation(object, "event"@, id);
}

/// Every object whose relationships name an event is found among the instances of that event.
pub proof fn no_instance_is_lost(
    groups: Map<Seq<char>, Vec<PcoObject>>,
    objects: Seq<PcoObject>,
    i: int,
    id: Seq<char>,
)
    requires
        grouped_by_event(groups, objects),
        0 <= i < objects.len(),
        ({
            &&& objects[i].relationships matches Some(members)
            &&& members@.contains_key("event"@)
            &&& members@["event"@] matches Json::Object(related)
            &&& related@.contains_key("data"@)
            &&& related@["data"@] matches Json::Object(data)
            &&& data@.contains_key("id"@)
            &&& data@["id"@] matches Json::Text(text)
            &&& text@ == id
        }),
    ensures
        groups.contains_key(id),
        groups[id]@.contains(objects[i]),
{
    instances_name_their_event(objects[i], id);
    each_instance_stands_with_its_event(groups, objects, i, id);
}

/// Events are found only where an object names them.
pub proof fn no_event_is_made_up(
    groups: Map<Seq<char>, Vec<PcoObject>>,
    objects: Seq<PcoObject>,
    id: Seq<char>,
)
    requires
        grouped_by_event(groups, objects),
        groups.contains_key(id),
    ensures
        exists|i: int| 0 <= i < objects.len() && instance_of(#[trigger] objects[i], id),
        forall|k: int|
            0 <= k < groups[id]@.len() ==> instance_of(#[trigger] groups[id]@[k], id)
                && objects.contains(groups[id]@[k]),
{
    let belongs = |object: PcoObject| instance_of(object, id);
    assert(groups[id]@ == objects.filter(belongs));
    assert forall|k: int| 0 <= k < groups[id]@.len() implies instance_of(
        #[trigger] groups[id]@[k],
        id,
    ) && objects.contains(groups[id]@[k]) by {
        objects.lemma_filter_pred(belongs, k);
        assert(belongs(groups[id]@[k]));
        objects.lemma_filter_contains_rev(belongs, groups[id]@[k]);
    }
}

/// One more object stands behind the earlier instances of the event that it names, and changes
/// nothing for other events.
pub proof fn instances_are_listed_one_by_one(
    objects: Seq<PcoObject>,
    object: PcoObject,
    id: Seq<char>,
)
    ensures
        instances_of(Seq::empty(), id) == Seq::<PcoObject>::empty(),
        instance_of(object, id) ==> instances_of(objects.push(object), id) == instances_of(
            objects,
            id,
        ).push(object),
        !instance_of(object, id) ==> instances_of(objects.push(object), id) == instances_of(
            objects,
            id,
        ),
{
    lemma_instances_push(objects, object, id);
    lemma_no_instances(Seq::empty(), id);
}

/// A request for a resource adds the text `id` that its relationships hold under `resource`,
/// `data` and `id`, whatever else it holds.
pub proof fn request_adds_the_resource_that_it_names(
    requests: Seq<PcoObject>,
    request: PcoObject,
    id: Seq<char>,
)
    requires
        ({
            &&& request.relationships matches Some(members)
            &&& members@.contains_key("resource"@)
            &&& members@["resource"@] matches Json::Object(related)
            &&& related@.contains_key("data"@)
            &&& related@["data"@] matches Json::Object(data)
            &&& data@.contains_key("id"@)
            &&& data@["id"@] matches Json::Text(text)
            &&& text@ == id
        }),
    ensures
        resource_ids(requests.push(request)) == resource_ids(requests).push(id),
{
    related_id_is_the_text_under_the_relation(request, "resource"@, id);
    lemma_resource_ids_push(requests, request);
}

/// A request whose relationships name no resource adds none.
pub proof fn request_without_a_resource_adds_none(requests: Seq<PcoObject>, request: PcoObject)
    requires
        !({
            &&& request.relationships matches Some(members)
            &&& members@.contains_key("resource"@)
            &&& members@["resource"@] matches Json::Object(related)
            &&& related@.contains_key("data"@)
            &&& related@["data"@] matches Json::Object(data)
            &&& data@.contains_key("id"@)
            &&& data@["id"@] is Text
        }),
    ensures
        resource_ids(Seq::empty()) == Seq::<Seq<char>>::empty(),
        resource_ids(requests.push(request)) == resource_ids(requests),
{
    lemma_resource_ids_push(requests, request);
    if let Some(id) = request@.related_id("resource"@) {
        related_id_is_the_text_under_the_relation(request, "resource"@, id);
    }
    assert(resource_ids(Seq::empty()) =~= Seq::<Seq<char>>::empty());
}

proof fn lemma_resource_ids_push(requests: Seq<PcoObject>, request: PcoObject)
    ensures
        resource_ids(requests.push(request)) == match request@.related_id("resource"@) {
            Some(id) => resource_ids(requests).push(id),
            None => resource_ids(requests),
        },
{
    let more = requests.push(request);
    let n = requests.len() as int;
    more.lemma_filter_map_take_succ(
        |request: PcoObject| request@.related_id("resource"@),
        n,
    );
    assert(more.take(n) =~= requests);
    assert(more.take(n + 1) =~= more);
}

/// The instances that an event is put together with are those that stand under its identifier.
pub proof fn instances_stand_under_the_identifier(
    groups: Map<Seq<char>, Vec<PcoObject>>,
    id: Seq<char>,
)
    ensures
        groups.contains_key(id) ==> instances_in(groups, id) == groups[id]@,
        !groups.contains_key(id) ==> instances_in(groups, id) == Seq::<PcoObject>::empty(),
{
}

/// What the objects of a list are keeps their number and order.
pub proof fn lists_of_objects_keep_their_order(objects: Seq<PcoObject>)
    ensures
        objects_view(objects).len() == objects.len(),
        forall|i: int| 0 <= i < objects.len() ==> #[trigger] objects_view(objects)[i] == objects[i]@,
{
}

} // verus!
