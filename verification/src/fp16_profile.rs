//! The events of the inference runtime's profile, as they stand in JSON.
use crate::fp16_placement::{event_view, events_view, text_view, Event, ProfileEvent};
use crate::text::str_eq;
use serde_json::{from_slice, Value};
use vstd::prelude::*;

verus! {

/// A value without its inner parts: its text where it is one, and its number where
/// it is one that is whole and not negative.
#[derive(Debug)]
pub struct JsonLeaf {
    pub text: Option<String>,
    pub whole: Option<u64>,
    pub is_number: bool,
}

/// A member of an event, with its own members where it is an object.
#[derive(Debug)]
pub struct JsonPart {
    pub leaf: JsonLeaf,
    pub members: Option<Vec<(String, JsonLeaf)>>,
}

/// An event, by its members; `None` where it is not an object.
pub type JsonEvent = Option<Vec<(String, JsonPart)>>;

/// The mathematical forms of leaves, parts and events.
pub struct Leaf {
    pub text: Option<Seq<char>>,
    pub whole: Option<u64>,
    pub is_number: bool,
}

pub struct Part {
    pub leaf: Leaf,
    pub members: Option<Seq<(Seq<char>, Leaf)>>,
}

pub type Members = Option<Seq<(Seq<char>, Part)>>;

pub open spec fn leaf_view(leaf: JsonLeaf) -> Leaf {
    Leaf { text: text_view(leaf.text), whole: leaf.whole, is_number: leaf.is_number }
}

pub open spec fn leaf_views(members: Seq<(String, JsonLeaf)>) -> Seq<(Seq<char>, Leaf)> {
    members.map_values(|member: (String, JsonLeaf)| (member.0@, leaf_view(member.1)))
}

pub open spec fn part_view(part: JsonPart) -> Part {
    Part {
        leaf: leaf_view(part.leaf),
        members: match part.members {
            Some(members) => Some(leaf_views(members@)),
            None => None,
        },
    }
}

pub open spec fn part_views(members: Seq<(String, JsonPart)>) -> Seq<(Seq<char>, Part)> {
    members.map_values(|member: (String, JsonPart)| (member.0@, part_view(member.1)))
}

pub open spec fn members_view(event: JsonEvent) -> Members {
    match event {
        Some(members) => Some(part_views(members@)),
        None => None,
    }
}

pub open spec fn members_views(events: Seq<JsonEvent>) -> Seq<Members> {
    events.map_values(|event: JsonEvent| members_view(event))
}

pub open spec fn values_view(events: Option<Vec<JsonEvent>>) -> Option<Seq<Members>> {
    match events {
        Some(list) => Some(members_views(list@)),
        None => None,
    }
}

/// The values of the JSON array that a profile is.
pub uninterp spec fn profile_values(bytes: Seq<u8>) -> Option<Seq<Members>>;

/// Reads the values of a profile.
///
/// Calls `serde_json::from_slice` for an array of values, and takes each of them
/// over with its members and theirs, by `serde_json::Value::as_object`, `as_str`,
/// `as_u64` and `is_number`. The result depends on the bytes alone; there is none
/// where they are not a JSON array. Which values an array holds is not stated.
#[verifier::external_body]
pub(crate) fn read_profile(bytes: &[u8]) -> (events: Option<Vec<JsonEvent>>)
    ensures
        values_view(events) == profile_values(bytes@),
{
    let values: Vec<Value> = from_slice(bytes).ok()?;
    let leaf = |value: &Value| JsonLeaf {
        text: value.as_str().map(str::to_owned),
        whole: value.as_u64(),
        is_number: value.is_number(),
    };
    let part = |value: &Value| JsonPart {
        leaf: leaf(value),
        members: value.as_object().map(|all|
            all.iter().map(|(name, value)| (name.clone(), leaf(value))).collect()),
    };
    let event = |value: &Value| value.as_object().map(|all|
        all.iter().map(|(name, value)| (name.clone(), part(value))).collect());
    Some(values.iter().map(event).collect())
}

/// The first member of a name.
pub open spec fn member<T>(members: Seq<(Seq<char>, T)>, name: Seq<char>) -> Option<T>
    decreases members.len(),
{
    if members.len() == 0 {
        None
    } else if members[0].0 == name {
        Some(members[0].1)
    } else {
        member(members.skip(1), name)
    }
}

/// The member of an event that has a name.
pub open spec fn part_at(event: Members, name: Seq<char>) -> Option<Part> {
    match event {
        Some(members) => member(members, name),
        None => None,
    }
}

/// The member of a name among the event's arguments.
pub open spec fn argument_at(event: Members, name: Seq<char>) -> Option<Leaf> {
    match part_at(event, "args"@) {
        Some(part) => match part.members {
            Some(members) => member(members, name),
            None => None,
        },
        None => None,
    }
}

/// The text of a member, where it is one.
pub open spec fn part_text(part: Option<Part>) -> Option<Seq<char>> {
    match part {
        Some(found) => found.leaf.text,
        None => None,
    }
}

pub open spec fn leaf_text(leaf: Option<Leaf>) -> Option<Seq<char>> {
    match leaf {
        Some(found) => found.text,
        None => None,
    }
}

/// What is read of one event of a profile.
pub open spec fn event_at(event: Members) -> Event {
    Event {
        category: part_text(part_at(event, "cat"@)),
        phase: part_text(part_at(event, "ph"@)),
        has_duration: part_at(event, "dur"@) matches Some(part) && part.leaf.is_number,
        name: part_text(part_at(event, "name"@)),
        provider: leaf_text(argument_at(event, "provider"@)),
        operation: leaf_text(argument_at(event, "op_name"@)),
        index_number: match argument_at(event, "node_index"@) {
            Some(leaf) => leaf.whole,
            None => None,
        },
        index_text: leaf_text(argument_at(event, "node_index"@)),
    }
}

/// What is read of all events.
pub open spec fn events_at(values: Option<Seq<Members>>) -> Option<Seq<Event>> {
    match values {
        Some(list) => Some(list.map_values(|event: Members| event_at(event))),
        None => None,
    }
}

fn find_part<'a>(event: &'a JsonEvent, name: &str) -> (found: Option<&'a JsonPart>)
    ensures
        match found {
            Some(part) => part_at(members_view(*event), name@) == Some(part_view(*part)),
            None => part_at(members_view(*event), name@) is None,
        },
{
    let members: &Vec<(String, JsonPart)> = match event {
        Some(members) => members,
        None => {
            return None;
        },
    };
    let ghost all = part_views(members@);
    let mut index: usize = 0;
    assert(all.skip(0) =~= all);
    while index < members.len()
        invariant
            index <= members@.len(),
            all == part_views(members@),
            members_view(*event) == Some(all),
            member(all, name@) == member(all.skip(index as int), name@),
        decreases members.len() - index,
    {
        assert(all.skip(index as int)[0] == (members@[index as int].0@, part_view(
            members@[index as int].1,
        )));
        if str_eq(members[index].0.as_str(), name) {
            return Some(&members[index].1);
        }
        assert(all.skip(index as int).skip(1) =~= all.skip(index + 1));
        index = index + 1;
    }
    None
}

fn find_leaf<'a>(members: &'a Vec<(String, JsonLeaf)>, name: &str) -> (found: Option<&'a JsonLeaf>)
    ensures
        match found {
            Some(leaf) => member(leaf_views(members@), name@) == Some(leaf_view(*leaf)),
            None => member(leaf_views(members@), name@) is None,
        },
{
    let ghost all = leaf_views(members@);
    let mut index: usize = 0;
    assert(all.skip(0) =~= all);
    while index < members.len()
        invariant
            index <= members@.len(),
            all == leaf_views(members@),
            member(all, name@) == member(all.skip(index as int), name@),
        decreases members.len() - index,
    {
        assert(all.skip(index as int)[0] == (members@[index as int].0@, leaf_view(
            members@[index as int].1,
        )));
        if str_eq(members[index].0.as_str(), name) {
            return Some(&members[index].1);
        }
        assert(all.skip(index as int).skip(1) =~= all.skip(index + 1));
        index = index + 1;
    }
    None
}

fn find_argument<'a>(event: &'a JsonEvent, name: &str) -> (found: Option<&'a JsonLeaf>)
    ensures
        match found {
            Some(leaf) => argument_at(members_view(*event), name@) == Some(leaf_view(*leaf)),
            None => argument_at(members_view(*event), name@) is None,
        },
{
    match find_part(event, "args") {
        Some(part) => match &part.members {
            Some(members) => find_leaf(members, name),
            None => None,
        },
        None => None,
    }
}

fn copy_text(leaf: &JsonLeaf) -> (text: Option<String>)
    ensures
        text_view(text) == leaf_view(*leaf).text,
{
    match &leaf.text {
        Some(text) => Some(text.as_str().to_owned()),
        None => None,
    }
}

fn text_of_part(event: &JsonEvent, name: &str) -> (text: Option<String>)
    ensures
        text_view(text) == part_text(part_at(members_view(*event), name@)),
{
    match find_part(event, name) {
        Some(part) => copy_text(&part.leaf),
        None => None,
    }
}

fn text_of_argument(event: &JsonEvent, name: &str) -> (text: Option<String>)
    ensures
        text_view(text) == leaf_text(argument_at(members_view(*event), name@)),
{
    match find_argument(event, name) {
        Some(leaf) => copy_text(leaf),
        None => None,
    }
}

/// Reads one event of a profile.
pub fn event_of(event: &JsonEvent) -> (read: ProfileEvent)
    ensures
        event_view(read) == event_at(members_view(*event)),
{
    let has_duration = match find_part(event, "dur") {
        Some(part) => part.leaf.is_number,
        None => false,
    };
    let index_number: Option<u64> = match find_argument(event, "node_index") {
        Some(leaf) => leaf.whole,
        None => None,
    };
    ProfileEvent {
        category: text_of_part(event, "cat"),
        phase: text_of_part(event, "ph"),
        has_duration,
        name: text_of_part(event, "name"),
        provider: text_of_argument(event, "provider"),
        operation: text_of_argument(event, "op_name"),
        index_number,
        index_text: text_of_argument(event, "node_index"),
    }
}

/// Reads the events of a profile whose values have been read.
pub fn events_of(values: &Option<Vec<JsonEvent>>) -> (events: Option<Vec<ProfileEvent>>)
    ensures
        events_view(events) == events_at(values_view(*values)),
{
    let list: &Vec<JsonEvent> = match values {
        Some(list) => list,
        None => {
            return None;
        },
    };
    let mut events: Vec<ProfileEvent> = Vec::new();
    let mut index: usize = 0;
    while index < list.len()
        invariant
            index <= list@.len(),
            events@.len() == index,
            forall|i: int|
                0 <= i < index ==> event_view(#[trigger] events@[i]) == event_at(
                    members_view(list@[i]),
                ),
        decreases list.len() - index,
    {
        events.push(event_of(&list[index]));
        index = index + 1;
    }
    proof {
        let read = crate::fp16_placement::event_views(events@);
        let expected = members_views(list@).map_values(|event: Members| event_at(event));
        assert forall|i: int| 0 <= i < read.len() implies read[i] == expected[i] by {
            assert(event_view(events@[i]) == event_at(members_view(list@[i])));
        }
        assert(read =~= expected);
    }
    Some(events)
}


/// A member of an object is the first of its name, and there is none exactly where no
/// member has that name.
pub proof fn members_are_found_by_name<T>(members: Seq<(Seq<char>, T)>, name: Seq<char>, at: int)
    requires
        0 <= at <= members.len(),
        forall|i: int| 0 <= i < at ==> (#[trigger] members[i]).0 != name,
    ensures
        at == members.len() ==> member(members, name) is None,
        at < members.len() && members[at].0 == name ==> member(members, name) == Some(
            members[at].1,
        ),
    decreases at,
{
    if at > 0 {
        let rest = members.skip(1);
        assert(members[0].0 != name);
        assert forall|i: int| 0 <= i < at - 1 implies (#[trigger] rest[i]).0 != name by {
            assert(members[i + 1] == rest[i]);
        }
        members_are_found_by_name(rest, name, at - 1);
    }
}

/// What an event says is read from its members: the category, phase, duration and name
/// from its own, and the provider, operation and number of the node from its arguments.
pub proof fn events_are_read_from_their_members(
    own: Seq<(Seq<char>, Part)>,
    arguments: Seq<(Seq<char>, Leaf)>,
)
    requires
        member(own, "args"@) matches Some(part) && part.members == Some(arguments),
    ensures
        ({
            let event = event_at(Some(own));
            &&& event.category == (match member(own, "cat"@) {
                Some(part) => part.leaf.text,
                None => None,
            })
            &&& event.phase == (match member(own, "ph"@) {
                Some(part) => part.leaf.text,
                None => None,
            })
            &&& event.has_duration <==> (member(own, "dur"@) matches Some(part)
                && part.leaf.is_number)
            &&& event.name == (match member(own, "name"@) {
                Some(part) => part.leaf.text,
                None => None,
            })
            &&& event.provider == (match member(arguments, "provider"@) {
                Some(leaf) => leaf.text,
                None => None,
            })
            &&& event.operation == (match member(arguments, "op_name"@) {
                Some(leaf) => leaf.text,
                None => None,
            })
            &&& event.index_number == (match member(arguments, "node_index"@) {
                Some(leaf) => leaf.whole,
                None => None,
            })
            &&& event.index_text == (match member(arguments, "node_index"@) {
                Some(leaf) => leaf.text,
                None => None,
            })
        }),
{
}

} // verus!
