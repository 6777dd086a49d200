//! Which resources are tracked, and the tags that stand for them.
use vstd::prelude::*;

use super::{tags_view, AsanaTag, TagView};
use crate::json::Json;
use crate::pco::client::{
    attribute_is_the_text_under_its_key, attributes_do_not_touch_each_other, PcoObject,
};
use crate::string_map::{lemma_entry_in_map, lemma_key_has_entry, StringMap};
use crate::text::{
    lemma_precedes_irreflexive, lemma_precedes_total, lemma_precedes_transitive, precedes, same_text,
    text_precedes, texts,
};

verus! {

// ---------------------------------------------------------------------------
// Tracked resources
// ---------------------------------------------------------------------------

/// The name of the tag that stands for a resource, if the resource is tracked.
pub open spec fn tracked_tag(name: Seq<char>) -> Option<Seq<char>> {
    if name == "ATS Room"@ {
        Some("ATS"@)
    } else if name == "Main Auditorium"@ {
        Some("MA"@)
    } else if name == "Main Lobby"@ {
        Some("Lobby"@)
    } else if name == "Room 400"@ {
        Some("KA"@)
    } else if name == "Room 500"@ {
        Some("500"@)
    } else if name == "Room 500 AV"@ {
        Some("500"@)
    } else if name == "Sound Box - Small #1"@ {
        Some("Portable"@)
    } else if name == "Sound Box - Large #1"@ {
        Some("Portable"@)
    } else if name == "Sound System - Small"@ {
        Some("Portable"@)
    } else if name == "Sound System - Large"@ {
        Some("Portable"@)
    } else if name == "Underground Auditorium"@ {
        Some("UA"@)
    } else {
        None
    }
}

/// The name of the tag that stands for a resource, if the resource is tracked.
pub fn tracked_resource(name: &str) -> (tag: Option<&'static str>)
    ensures
        match tag {
            Some(t) => tracked_tag(name@) == Some(t@),
            None => tracked_tag(name@) is None,
        },
{
    if same_text(name, "ATS Room") {
        Some("ATS")
    } else if same_text(name, "Main Auditorium") {
        Some("MA")
    } else if same_text(name, "Main Lobby") {
        Some("Lobby")
    } else if same_text(name, "Room 400") {
        Some("KA")
    } else if same_text(name, "Room 500") {
        Some("500")
    } else if same_text(name, "Room 500 AV") {
        Some("500")
    } else if same_text(name, "Sound Box - Small #1") {
        Some("Portable")
    } else if same_text(name, "Sound Box - Large #1") {
        Some("Portable")
    } else if same_text(name, "Sound System - Small") {
        Some("Portable")
    } else if same_text(name, "Sound System - Large") {
        Some("Portable")
    } else if same_text(name, "Underground Auditorium") {
        Some("UA")
    } else {
        None
    }
}

/// The name of the tag that stands for a resource, if it has a name and is tracked.
pub open spec fn tag_of_resource(resource: PcoObject) -> Option<Seq<char>> {
    match resource@.attribute("name"@) {
        Some(name) => tracked_tag(name),
        None => None,
    }
}

/// The names of the tags that stand for the tracked ones among `resources`, in their order.
pub open spec fn tag_names(resources: Seq<PcoObject>) -> Seq<Seq<char>> {
    resources.filter_map(|resource: PcoObject| tag_of_resource(resource))
}

/// The names of the tags that stand for the tracked ones among `resources`, in their order.
pub fn resource_tag_names(resources: &Vec<PcoObject>) -> (names: Vec<String>)
    ensures
        texts(names@) == tag_names(resources@),
{
    let mut names: Vec<String> = Vec::new();
    let mut i: usize = 0;
    assert(texts(names@) =~= tag_names(resources@.take(0)));
    while i < resources.len()
        invariant
            i <= resources@.len(),
            texts(names@) == tag_names(resources@.take(i as int)),
        decreases resources@.len() - i,
    {
        let ghost before = names@;
        proof {
            resources@.lemma_filter_map_take_succ(
                |resource: PcoObject| tag_of_resource(resource),
                i as int,
            );
        }
        if let Some(name) = resources[i].get_attribute("name") {
            if let Some(tag) = tracked_resource(name.as_str()) {
                names.push(tag.to_owned());
                assert(texts(names@) =~= texts(before).push(tag@));
            }
        }
        i += 1;
    }
    assert(resources@.take(i as int) =~= resources@);
    names
}

// ---------------------------------------------------------------------------
// Known tags
// ---------------------------------------------------------------------------

/// Every tag is kept under its own identifier.
pub open spec fn keyed_by_gid(tags: Map<Seq<char>, TagView>) -> bool {
    forall|gid: Seq<char>| #[trigger] tags.contains_key(gid) ==> tags[gid].gid == gid
}

/// `tags` with those of a list put in, one after the other, each in place of the one that had
/// its identifier.
pub open spec fn with_tags(tags: Map<Seq<char>, TagView>, list: Seq<TagView>) -> Map<
    Seq<char>,
    TagView,
>
    decreases list.len(),
{
    if list.len() == 0 {
        tags
    } else {
        with_tags(tags, list.drop_last()).insert(list.last().gid, list.last())
    }
}

/// The tag under `gid` is the first one, in the order of identifiers, that has the name.
pub open spec fn is_first_named(
    tags: Map<Seq<char>, TagView>,
    name: Seq<char>,
    gid: Seq<char>,
) -> bool {
    &&& tags.contains_key(gid)
    &&& tags[gid].name == name
    &&& forall|other: Seq<char>| #[trigger]
        tags.contains_key(other) && tags[other].name == name ==> !precedes(other, gid)
}

/// The tag with the name, the first one in the order of identifiers if there are several.
pub open spec fn tag_named(tags: Map<Seq<char>, TagView>, name: Seq<char>) -> Option<TagView> {
    if exists|gid: Seq<char>| is_first_named(tags, name, gid) {
        Some(tags[choose|gid: Seq<char>| is_first_named(tags, name, gid)])
    } else {
        None
    }
}

/// No tag has the name.
pub open spec fn no_tag_named(tags: Map<Seq<char>, TagView>, name: Seq<char>) -> bool {
    forall|gid: Seq<char>| #[trigger] tags.contains_key(gid) ==> tags[gid].name != name
}

/// There is one first tag with a name at most.
proof fn lemma_first_named_is_unique(
    tags: Map<Seq<char>, TagView>,
    name: Seq<char>,
    gid: Seq<char>,
)
    requires
        is_first_named(tags, name, gid),
    ensures
        tag_named(tags, name) == Some(tags[gid]),
{
    let chosen = choose|g: Seq<char>| is_first_named(tags, name, g);
    assert(is_first_named(tags, name, chosen));
    lemma_precedes_total(gid, chosen);
}

/// The tags of the task service that are known, by their identifiers; none are before they
/// were fetched.
#[derive(Debug)]
pub struct TagCache {
    tags: Option<StringMap<AsanaTag>>,
}

/// What the tags of a map are, apart from how they are kept.
pub open spec fn tag_map_view(tags: StringMap<AsanaTag>) -> Map<Seq<char>, TagView> {
    tags@.map_values(|tag: AsanaTag| tag@)
}

impl View for TagCache {
    type V = Option<Map<Seq<char>, TagView>>;

    closed spec fn view(&self) -> Option<Map<Seq<char>, TagView>> {
        match self.tags {
            Some(tags) => Some(tag_map_view(tags)),
            None => None,
        }
    }
}

/// What looking at the known tags came to.
#[derive(Debug)]
pub enum TagStep<T> {
    /// The tags have to be fetched first.
    FetchAllTags,
    /// The tags are known.
    Ready(T),
}

fn put_tags(tags: StringMap<AsanaTag>, list: &Vec<AsanaTag>) -> (all: StringMap<AsanaTag>)
    requires
        keyed_by_gid(tag_map_view(tags)),
    ensures
        tag_map_view(all) == with_tags(tag_map_view(tags), tags_view(list@)),
        keyed_by_gid(tag_map_view(all)),
{
    let mut all = tags;
    let ghost before = tag_map_view(tags);
    let ghost listed = tags_view(list@);
    let mut i: usize = 0;
    assert(listed.take(0) =~= Seq::<TagView>::empty());
    while i < list.len()
        invariant
            i <= list@.len(),
            listed == tags_view(list@),
            tag_map_view(all) == with_tags(before, listed.take(i as int)),
            keyed_by_gid(tag_map_view(all)),
        decreases list@.len() - i,
    {
        let ghost earlier = tag_map_view(all);
        let tag = list[i].clone();
        let gid = list[i].gid.clone();
        all.insert(gid, tag);
        proof {
            assert(tag_map_view(all) =~= earlier.insert(gid@, tag@));
            assert(listed.take(i + 1).drop_last() =~= listed.take(i as int));
            assert(listed.take(i + 1).last() == tag@);
        }
        i += 1;
    }
    assert(listed.take(i as int) =~= listed);
    all
}

fn find_named(tags: &StringMap<AsanaTag>, name: &str) -> (found: Option<AsanaTag>)
    requires
        keyed_by_gid(tag_map_view(*tags)),
    ensures
        match found {
            Some(tag) => {
                &&& tag_named(tag_map_view(*tags), name@) == Some(tag@)
                &&& is_first_named(tag_map_view(*tags), name@, tag@.gid)
                &&& tag_map_view(*tags)[tag@.gid] == tag@
            },
            None => {
                &&& tag_named(tag_map_view(*tags), name@) is None
                &&& no_tag_named(tag_map_view(*tags), name@)
            },
        },
{
    proof {
        use_type_invariant(tags);
        tags.lemma_view();
    }
    let ghost entries = tags.entries@;
    let ghost known = tag_map_view(*tags);
    let mut best: Option<usize> = None;
    let mut i: usize = 0;
    while i < tags.entries.len()
        invariant
            i <= tags.entries@.len(),
            entries == tags.entries@,
            match best {
                Some(b) => {
                    &&& b < i
                    &&& entries[b as int].1.name@ == name@
                    &&& forall|k: int|
                        0 <= k < i && (#[trigger] entries[k]).1.name@ == name@ ==> !precedes(
                            entries[k].0@,
                            entries[b as int].0@,
                        )
                },
                None => forall|k: int| 0 <= k < i ==> (#[trigger] entries[k]).1.name@ != name@,
            },
        decreases tags.entries@.len() - i,
    {
        if same_text(tags.entries[i].1.name.as_str(), name) {
            proof {
                lemma_precedes_irreflexive(entries[i as int].0@);
            }
            match best {
                Some(b) => {
                    if text_precedes(tags.entries[i].0.as_str(), tags.entries[b].0.as_str()) {
                        proof {
                            assert forall|k: int|
                                0 <= k < i && (#[trigger] entries[k]).1.name@
                                    == name@ implies !precedes(
                                entries[k].0@,
                                entries[i as int].0@,
                            ) by {
                                if precedes(entries[k].0@, entries[i as int].0@) {
                                    lemma_precedes_transitive(
                                        entries[k].0@,
                                        entries[i as int].0@,
                                        entries[b as int].0@,
                                    );
                                }
                            }
                        }
                        best = Some(i);
                    }
                },
                None => {
                    best = Some(i);
                },
            }
        }
        i += 1;
    }
    proof {
        assert forall|gid: Seq<char>| #[trigger] known.contains_key(gid) implies exists|k: int|
            0 <= k < entries.len() && (#[trigger] entries[k]).0@ == gid && known[gid]
                == entries[k].1@ by {
            let k = lemma_key_has_entry(entries, gid);
            lemma_entry_in_map(entries, k);
            assert(entries[k].0@ == gid);
        }
    }
    match best {
        Some(b) => {
            proof {
                lemma_entry_in_map(entries, b as int);
                lemma_first_named_is_unique(known, name@, entries[b as int].0@);
            }
            Some(tags.entries[b].1.clone())
        },
        None => None,
    }
}

/// The tags that have the names, in the order of the names. A name that no tag has is passed
/// over.
pub open spec fn tags_named(tags: Map<Seq<char>, TagView>, names: Seq<Seq<char>>) -> Seq<TagView> {
    names.filter_map(|name: Seq<char>| tag_named(tags, name))
}

impl TagCache {
    #[verifier::type_invariant]
    spec fn inv(self) -> bool {
        match self.tags {
            Some(tags) => keyed_by_gid(tag_map_view(tags)),
            None => true,
        }
    }

    /// No tags are known.
    pub fn new() -> (cache: TagCache)
        ensures
            cache@ is None,
    {
        TagCache { tags: None }
    }

    /// Puts in the tags that were fetched. From now on tags are known, even if there are none.
    pub fn remember(&mut self, fetched: &Vec<AsanaTag>)
        ensures
            final(self)@ == Some(
                with_tags(
                    match old(self)@ {
                        Some(tags) => tags,
                        None => Map::empty(),
                    },
                    tags_view(fetched@),
                ),
            ),
            keyed_by_gid(final(self)@->0),
    {
        proof {
            use_type_invariant(&*self);
        }
        let mut known: Option<StringMap<AsanaTag>> = None;
        std::mem::swap(&mut known, &mut self.tags);
        let tags = match known {
            Some(tags) => tags,
            None => {
                let none: StringMap<AsanaTag> = StringMap::new();
                assert(tag_map_view(none) =~= Map::<Seq<char>, TagView>::empty());
                none
            },
        };
        let all = put_tags(tags, fetched);
        self.tags = Some(all);
    }

    /// The tag with the name, the first one in the order of identifiers if there are several.
    /// The tags have to be fetched if none are known.
    pub fn find_tag_by_name(&self, name: &str) -> (step: TagStep<Option<AsanaTag>>)
        ensures
            self@ matches Some(tags) ==> keyed_by_gid(tags),
            match step {
                TagStep::FetchAllTags => self@ is None,
                TagStep::Ready(Some(tag)) => {
                    &&& self@ is Some
                    &&& tag_named(self@->0, name@) == Some(tag@)
                    &&& is_first_named(self@->0, name@, tag@.gid)
                    &&& self@->0[tag@.gid] == tag@
                },
                TagStep::Ready(None) => {
                    &&& self@ is Some
                    &&& tag_named(self@->0, name@) is None
                    &&& no_tag_named(self@->0, name@)
                },
            },
    {
        proof {
            use_type_invariant(self);
        }
        match &self.tags {
            Some(tags) => TagStep::Ready(find_named(tags, name)),
            None => TagStep::FetchAllTags,
        }
    }

    /// The tags that have the names, in the order of the names. The tags have to be fetched if
    /// none are known, unless nothing is asked for.
    pub fn find_tags(&self, names: &Vec<String>) -> (step: TagStep<Vec<AsanaTag>>)
        ensures
            self@ matches Some(tags) ==> keyed_by_gid(tags),
            match step {
                TagStep::FetchAllTags => self@ is None && names@.len() > 0,
                TagStep::Ready(tags) => if names@.len() == 0 {
                    tags@.len() == 0
                } else {
                    self@ is Some && tags_view(tags@) == tags_named(self@->0, texts(names@))
                },
            },
    {
        proof {
            use_type_invariant(self);
        }
        let ghost asked = texts(names@);
        let mut found: Vec<AsanaTag> = Vec::new();
        let mut i: usize = 0;
        assert(asked.take(0) =~= Seq::<Seq<char>>::empty());
        assert(tags_view(found@) =~= Seq::<TagView>::empty());
        while i < names.len()
            invariant
                i <= names@.len(),
                asked == texts(names@),
                i == 0 ==> found@.len() == 0,
                i > 0 ==> self@ is Some && tags_view(found@) == tags_named(
                    self@->0,
                    asked.take(i as int),
                ),
            decreases names@.len() - i,
        {
            let ghost before = found@;
            match self.find_tag_by_name(names[i].as_str()) {
                TagStep::FetchAllTags => {
                    return TagStep::FetchAllTags;
                },
                TagStep::Ready(tag) => {
                    proof {
                        assert(tags_named(self@->0, asked.take(0)) =~= Seq::<TagView>::empty());
                        assert(tags_view(before) =~= tags_named(self@->0, asked.take(i as int)));
                        asked.lemma_filter_map_take_succ(
                            |name: Seq<char>| tag_named(self@->0, name),
                            i as int,
                        );
                    }
                    if let Some(tag) = tag {
                        found.push(tag);
                        assert(tags_view(found@) =~= tags_view(before).push(tag@));
                    }
                },
            }
            i += 1;
        }
        assert(asked.take(i as int) =~= asked);
        TagStep::Ready(found)
    }
}

/// Of the tags that were fetched the last one with an identifier is known under it, and what
/// was known under other identifiers stays.
pub proof fn fetched_tags_are_known(
    tags: Map<Seq<char>, TagView>,
    list: Seq<TagView>,
    gid: Seq<char>,
)
    ensures
        forall|i: int|
            0 <= i < list.len() && (#[trigger] list[i]).gid == gid && (forall|j: int|
                i < j < list.len() ==> (#[trigger] list[j]).gid != gid) ==> with_tags(
                tags,
                list,
            ).contains_key(gid) && with_tags(tags, list)[gid] == list[i],
        (forall|i: int| 0 <= i < list.len() ==> (#[trigger] list[i]).gid != gid) ==> with_tags(
            tags,
            list,
        ).get(gid) == tags.get(gid),
    decreases list.len(),
{
    if list.len() > 0 {
        let shorter = list.drop_last();
        fetched_tags_are_known(tags, shorter, gid);
        assert forall|i: int|
            0 <= i < list.len() && (#[trigger] list[i]).gid == gid && (forall|j: int|
                i < j < list.len() ==> (#[trigger] list[j]).gid != gid) implies with_tags(
            tags,
            list,
        ).contains_key(gid) && with_tags(tags, list)[gid] == list[i] by {
            if i < list.len() - 1 {
                assert(list[list.len() - 1].gid != gid);
                assert(shorter[i] == list[i]);
                assert forall|j: int| i < j < shorter.len() implies (#[trigger] shorter[j]).gid
                    != gid by {
                    assert(shorter[j] == list[j]);
                }
            }
        }
        if forall|i: int| 0 <= i < list.len() ==> (#[trigger] list[i]).gid != gid {
            assert(list[list.len() - 1].gid != gid);
            assert forall|i: int| 0 <= i < shorter.len() implies (#[trigger] shorter[i]).gid
                != gid by {
                assert(shorter[i] == list[i]);
            }
        }
    }
}

/// Tags that are kept under their own identifiers stay so when more are put in.
pub proof fn tags_stay_under_their_identifiers(
    tags: Map<Seq<char>, TagView>,
    list: Seq<TagView>,
)
    requires
        keyed_by_gid(tags),
    ensures
        keyed_by_gid(with_tags(tags, list)),
    decreases list.len(),
{
    if list.len() > 0 {
        tags_stay_under_their_identifiers(tags, list.drop_last());
    }
}

// ---------------------------------------------------------------------------
// Laws
// ---------------------------------------------------------------------------

/// Eleven resources are tracked, and each of them has its tag.
pub proof fn tracked_resources_have_their_tags(name: Seq<char>)
    ensures
        name == "ATS Room"@ ==> tracked_tag(name) == Some("ATS"@),
        name == "Main Auditorium"@ ==> tracked_tag(name) == Some("MA"@),
        name == "Main Lobby"@ ==> tracked_tag(name) == Some("Lobby"@),
        name == "Room 400"@ ==> tracked_tag(name) == Some("KA"@),
        name == "Room 500"@ ==> tracked_tag(name) == Some("500"@),
        name == "Room 500 AV"@ ==> tracked_tag(name) == Some("500"@),
        name == "Sound Box - Small #1"@ ==> tracked_tag(name) == Some("Portable"@),
        name == "Sound Box - Large #1"@ ==> tracked_tag(name) == Some("Portable"@),
        name == "Sound System - Small"@ ==> tracked_tag(name) == Some("Portable"@),
        name == "Sound System - Large"@ ==> tracked_tag(name) == Some("Portable"@),
        name == "Underground Auditorium"@ ==> tracked_tag(name) == Some("UA"@),
        ({
            &&& name != "ATS Room"@
            &&& name != "Main Auditorium"@
            &&& name != "Main Lobby"@
            &&& name != "Room 400"@
            &&& name != "Room 500"@
            &&& name != "Room 500 AV"@
            &&& name != "Sound Box - Small #1"@
            &&& name != "Sound Box - Large #1"@
            &&& name != "Sound System - Small"@
            &&& name != "Sound System - Large"@
            &&& name != "Underground Auditorium"@
        }) ==> tracked_tag(name) is None,
{
    reveal_strlit("ATS Room");
    reveal_strlit("Main Auditorium");
    reveal_strlit("Main Lobby");
    reveal_strlit("Room 400");
    reveal_strlit("Room 500");
    reveal_strlit("Room 500 AV");
    reveal_strlit("Sound Box - Small #1");
    reveal_strlit("Sound Box - Large #1");
    reveal_strlit("Sound System - Small");
    reveal_strlit("Sound System - Large");
    reveal_strlit("Underground Auditorium");
    assert("ATS Room"@.len() == 8 && "Room 400"@.len() == 8 && "Room 500"@.len() == 8);
    assert("Main Lobby"@.len() == 10 && "Room 500 AV"@.len() == 11);
    assert("Main Auditorium"@.len() == 15 && "Underground Auditorium"@.len() == 22);
    assert("Sound Box - Small #1"@.len() == 20 && "Sound Box - Large #1"@.len() == 20);
    assert("Sound System - Small"@.len() == 20 && "Sound System - Large"@.len() == 20);
    assert("ATS Room"@[0] != "Room 400"@[0] && "ATS Room"@[0] != "Room 500"@[0]);
    assert("Room 400"@[5] == '4' && "Room 500"@[5] == '5');
    assert("Sound Box - Small #1"@[6] == 'B' && "Sound Box - Large #1"@[6] == 'B');
    assert("Sound System - Small"@[6] == 'S' && "Sound System - Large"@[6] == 'S');
    assert("Sound Box - Small #1"@[12] == 'S' && "Sound Box - Large #1"@[12] == 'L');
    assert("Sound System - Small"@[15] == 'S' && "Sound System - Large"@[15] == 'L');
}

/// A resource adds the tag of the text that its attributes hold under `name`, exactly where a
/// resource of that name is tracked, whatever else it holds.
pub proof fn resource_adds_the_tag_of_its_name(
    resources: Seq<PcoObject>,
    resource: PcoObject,
    name: Seq<char>,
)
    requires
        ({
            &&& resource.attributes matches Some(members)
            &&& members@.contains_key("name"@)
            &&& members@["name"@] matches Json::Text(text)
            &&& text@ == name
        }),
    ensures
        tracked_tag(name) matches Some(tag) ==> tag_names(resources.push(resource)) == tag_names(
            resources,
        ).push(tag),
        tracked_tag(name) is None ==> tag_names(resources.push(resource)) == tag_names(resources),
{
    attribute_is_the_text_under_its_key(resource, "name"@, name);
    lemma_tag_names_push(resources, resource);
}

/// A resource whose attributes hold no text under `name` adds no tag.
pub proof fn nameless_resource_adds_no_tag(resources: Seq<PcoObject>, resource: PcoObject)
    requires
        !({
            &&& resource.attributes matches Some(members)
            &&& members@.contains_key("name"@)
            &&& members@["name"@] is Text
        }),
    ensures
        tag_names(Seq::empty()) == Seq::<Seq<char>>::empty(),
        tag_names(resources.push(resource)) == tag_names(resources),
{
    if let Some(name) = resource@.attribute("name"@) {
        attribute_is_the_text_under_its_key(resource, "name"@, name);
    }
    lemma_tag_names_push(resources, resource);
    assert(tag_names(Seq::empty()) =~= Seq::<Seq<char>>::empty());
}

/// Two resources with the same text under `name` add the same tag, whatever else they hold.
pub proof fn same_name_adds_the_same_tag(
    resources: Seq<PcoObject>,
    resource: PcoObject,
    other: PcoObject,
)
    requires
        resource.attributes is Some,
        other.attributes is Some,
        resource.attributes->0@.get("name"@) == other.attributes->0@.get("name"@),
    ensures
        tag_names(resources.push(resource)) == tag_names(resources.push(other)),
{
    attributes_do_not_touch_each_other(resource, other, "name"@);
    lemma_tag_names_push(resources, resource);
    lemma_tag_names_push(resources, other);
}

proof fn lemma_tag_names_push(resources: Seq<PcoObject>, resource: PcoObject)
    ensures
        tag_names(resources.push(resource)) == match tag_of_resource(resource) {
            Some(tag) => tag_names(resources).push(tag),
            None => tag_names(resources),
        },
{
    let more = resources.push(resource);
    let n = resources.len() as int;
    more.lemma_filter_map_take_succ(|resource: PcoObject| tag_of_resource(resource), n);
    assert(more.take(n) =~= resources);
    assert(more.take(n + 1) =~= more);
}

/// The tag with a name is one of the known tags and has the name, and no known tag with the name
/// has an identifier that stands before its own.
pub proof fn named_tag_has_the_least_identifier(
    tags: Map<Seq<char>, TagView>,
    name: Seq<char>,
    tag: TagView,
)
    requires
        forall|gid: Seq<char>| #[trigger] tags.contains_key(gid) ==> tags[gid].gid == gid,
        tag_named(tags, name) == Some(tag),
    ensures
        tags.contains_key(tag.gid),
        tags[tag.gid] == tag,
        tag.name == name,
        forall|gid: Seq<char>| #[trigger]
            tags.contains_key(gid) && tags[gid].name == name ==> gid == tag.gid || precedes(
                tag.gid,
                gid,
            ),
{
    let gid = choose|gid: Seq<char>| is_first_named(tags, name, gid);
    assert(is_first_named(tags, name, gid));
    assert forall|other: Seq<char>| #[trigger]
        tags.contains_key(other) && tags[other].name == name implies other == tag.gid || precedes(
        tag.gid,
        other,
    ) by {
        lemma_precedes_total(tag.gid, other);
    }
}

/// A known tag is the one with its name where no other known tag of that name has an identifier
/// that stands before its own.
pub proof fn least_tag_is_found(tags: Map<Seq<char>, TagView>, gid: Seq<char>)
    requires
        tags.contains_key(gid),
        forall|other: Seq<char>| #[trigger]
            tags.contains_key(other) && tags[other].name == tags[gid].name ==> !precedes(
                other,
                gid,
            ),
    ensures
        tag_named(tags, tags[gid].name) == Some(tags[gid]),
{
    assert(is_first_named(tags, tags[gid].name, gid));
    lemma_first_named_is_unique(tags, tags[gid].name, gid);
}

/// Where no known tag has the name, none is found.
pub proof fn unknown_name_has_no_tag(tags: Map<Seq<char>, TagView>, name: Seq<char>)
    ensures
        no_tag_named(tags, name) <==> forall|gid: Seq<char>| #[trigger]
            tags.contains_key(gid) ==> tags[gid].name != name,
        no_tag_named(tags, name) ==> tag_named(tags, name) is None,
{
}

/// One more name adds the tag that has it, if there is one.
pub proof fn tags_are_found_one_by_one(
    tags: Map<Seq<char>, TagView>,
    names: Seq<Seq<char>>,
    name: Seq<char>,
)
    ensures
        tags_named(tags, Seq::empty()) == Seq::<TagView>::empty(),
        tag_named(tags, name) matches Some(tag) ==> tags_named(tags, names.push(name))
            == tags_named(tags, names).push(tag),
        tag_named(tags, name) is None ==> tags_named(tags, names.push(name)) == tags_named(
            tags,
            names,
        ),
{
    let more = names.push(name);
    let n = names.len() as int;
    more.lemma_filter_map_take_succ(|name: Seq<char>| tag_named(tags, name), n);
    assert(more.take(n) =~= names);
    assert(more.take(n + 1) =~= more);
    assert(tags_named(tags, Seq::empty()) =~= Seq::<TagView>::empty());
}

/// Tags are kept under their own identifiers where each is found under the one it has.
pub proof fn tags_are_kept_under_their_identifiers(tags: Map<Seq<char>, TagView>)
    ensures
        keyed_by_gid(tags) <==> forall|gid: Seq<char>| #[trigger]
            tags.contains_key(gid) ==> tags[gid].gid == gid,
{
}

} // verus!
