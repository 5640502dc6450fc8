//! Which provider executed the nodes of a network, as the inference runtime's
//! profile tells it.
use crate::fp16_args::all_digits;
use crate::fp16_profile::{events_at, events_of, profile_values, read_profile};
use crate::names::{in_order, sets_are_listed_alike, SortedNames};
use crate::paths::{file_name, final_name, names, path_names, views};
use crate::text::{bytes_eq, decimal, decimal_text, str_eq};
use vstd::prelude::*;
use vstd::string::*;
use vstd::utf8::*;

verus! {

pub const MAX_PROFILE_BYTES: u64 = 33554432;

pub const MAX_PROFILE_NODES: usize = 20000;

pub const MAX_PROFILE_EVENTS: usize = 100000;

/// What is read of one event of a profile. A part that is missing, or not of
/// the kind that it should be, is `None`.
#[derive(Debug)]
pub struct ProfileEvent {
    pub category: Option<String>,
    pub phase: Option<String>,
    /// The event has a duration that is a number.
    pub has_duration: bool,
    pub name: Option<String>,
    pub provider: Option<String>,
    pub operation: Option<String>,
    /// The node's index where it is a number, and where it is a text.
    pub index_number: Option<u64>,
    pub index_text: Option<String>,
}

/// The mathematical form of an event.
pub struct Event {
    pub category: Option<Seq<char>>,
    pub phase: Option<Seq<char>>,
    pub has_duration: bool,
    pub name: Option<Seq<char>>,
    pub provider: Option<Seq<char>>,
    pub operation: Option<Seq<char>>,
    pub index_number: Option<u64>,
    pub index_text: Option<Seq<char>>,
}

pub open spec fn text_view(text: Option<String>) -> Option<Seq<char>> {
    match text {
        Some(characters) => Some(characters@),
        None => None,
    }
}

pub open spec fn event_view(event: ProfileEvent) -> Event {
    Event {
        category: text_view(event.category),
        phase: text_view(event.phase),
        has_duration: event.has_duration,
        name: text_view(event.name),
        provider: text_view(event.provider),
        operation: text_view(event.operation),
        index_number: event.index_number,
        index_text: text_view(event.index_text),
    }
}

pub open spec fn event_views(events: Seq<ProfileEvent>) -> Seq<Event> {
    events.map_values(|event: ProfileEvent| event_view(event))
}

pub open spec fn events_view(events: Option<Vec<ProfileEvent>>) -> Option<Seq<Event>> {
    match events {
        Some(list) => Some(event_views(list@)),
        None => None,
    }
}

#[derive(Clone, Copy, Debug, PartialEq, Eq, Structural)]
pub enum PlacementError {
    PathEscaped,
    NameMissing,
    SizeLimit,
    SizeChanged,
    JsonInvalid,
    NodeEventIncomplete,
    ProviderMissing,
    NodeIdentityMissing,
    OperationIdentityMissing,
    IdentityStringLimit,
    NodeIndexMissing,
    NodeIndexInvalid,
    NodeLimit,
    IdentityProviderChanged,
    PolicyRejected,
    NotComparable,
}

#[derive(Clone, Copy, Debug, PartialEq, Eq, Structural)]
pub enum PlacementMode {
    AllMigraphx,
    Mixed,
    Invalid,
}

/// The provider that executed a node, and how often.
#[derive(Debug)]
pub struct PlacementNode {
    pub provider: String,
    pub invocation_count: u64,
}

pub struct Node {
    pub provider: Seq<char>,
    pub count: nat,
}

/// What events tell about placement.
#[verifier::ext_equal]
pub struct Facts {
    pub migraphx: nat,
    pub cpu: nat,
    pub unknown: nat,
    pub providers: Set<Seq<char>>,
    pub nodes: Map<Seq<char>, Node>,
}

pub open spec fn no_facts() -> Facts {
    Facts { migraphx: 0, cpu: 0, unknown: 0, providers: Set::empty(), nodes: Map::empty() }
}

/// The index of a node as text: a number in decimal, or else the text.
pub open spec fn node_index(event: Event) -> Option<Seq<char>> {
    match event.index_number {
        Some(number) => Some(decimal(number as nat)),
        None => event.index_text,
    }
}

/// Whether an event is about the execution of a node.
pub open spec fn is_node_event(event: Event) -> bool {
    event.category == Some("Node"@)
}

/// Why an event about a node cannot be used.
pub open spec fn event_error(event: Event) -> Option<PlacementError> {
    if event.phase != Some("X"@) || !event.has_duration {
        Some(PlacementError::NodeEventIncomplete)
    } else if event.provider is None {
        Some(PlacementError::ProviderMissing)
    } else if event.name is None {
        Some(PlacementError::NodeIdentityMissing)
    } else if event.operation is None {
        Some(PlacementError::OperationIdentityMissing)
    } else if encode_utf8(event.provider->0).len() > 128 || encode_utf8(event.name->0).len() > 1024
        || encode_utf8(event.operation->0).len() > 128 {
        Some(PlacementError::IdentityStringLimit)
    } else if node_index(event) is None {
        Some(PlacementError::NodeIndexMissing)
    } else if encode_utf8(node_index(event)->0).len() > 32 || !all_digits(
        encode_utf8(node_index(event)->0),
    ) {
        Some(PlacementError::NodeIndexInvalid)
    } else {
        None
    }
}

/// What tells a node from the others: its index, name and operation.
pub open spec fn identity_of(event: Event) -> Seq<char> {
    node_index(event)->0 + "|"@ + event.name->0 + "|"@ + event.operation->0
}

/// The facts with one more event.
pub open spec fn with_event(facts: Facts, event: Event) -> Result<Facts, PlacementError> {
    if !is_node_event(event) {
        Ok(facts)
    } else if event_error(event) is Some {
        Err(event_error(event)->0)
    } else {
        let identity = identity_of(event);
        let provider = event.provider->0;
        let known = facts.nodes.dom().contains(identity);
        if !known && facts.nodes.dom().len() == MAX_PROFILE_NODES {
            Err(PlacementError::NodeLimit)
        } else if known && facts.nodes[identity].provider != provider {
            Err(PlacementError::IdentityProviderChanged)
        } else {
            let count: nat = if known {
                facts.nodes[identity].count
            } else {
                0
            };
            let migraphx = provider == "MIGraphXExecutionProvider"@;
            let cpu = provider == "CPUExecutionProvider"@;
            Ok(
                Facts {
                    migraphx: facts.migraphx + if migraphx {
                        1nat
                    } else {
                        0
                    },
                    cpu: facts.cpu + if !migraphx && cpu {
                        1nat
                    } else {
                        0
                    },
                    unknown: facts.unknown + if !migraphx && !cpu {
                        1nat
                    } else {
                        0
                    },
                    providers: facts.providers.insert(provider),
                    nodes: facts.nodes.insert(identity, Node { provider, count: count + 1 }),
                },
            )
        }
    }
}

/// What the first `count` events tell.
pub open spec fn facts_of(events: Seq<Event>, count: nat) -> Result<Facts, PlacementError>
    decreases count,
{
    if count == 0 {
        Ok(no_facts())
    } else {
        match facts_of(events, (count - 1) as nat) {
            Err(error) => Err(error),
            Ok(facts) => with_event(facts, events[count - 1]),
        }
    }
}

/// What a profile tells, given its events.
pub open spec fn placement_of(events: Option<Seq<Event>>) -> Result<Facts, PlacementError> {
    match events {
        None => Err(PlacementError::JsonInvalid),
        Some(list) => if list.len() > MAX_PROFILE_EVENTS {
            Err(PlacementError::JsonInvalid)
        } else {
            facts_of(list, list.len())
        },
    }
}

/// The mode that facts amount to: something must have run on the accelerator,
/// and nothing on a provider that is not known.
pub open spec fn mode_of(facts: Facts) -> PlacementMode {
    if facts.migraphx == 0 || facts.unknown > 0 {
        PlacementMode::Invalid
    } else if facts.cpu > 0 {
        PlacementMode::Mixed
    } else {
        PlacementMode::AllMigraphx
    }
}

/// What a profile tells about placement. Nodes stand in the order of their
/// identities.
#[derive(Debug)]
pub struct PlacementFacts {
    pub migraphx_events: u64,
    pub cpu_events: u64,
    pub unknown_events: u64,
    pub providers: SortedNames,
    pub identities: SortedNames,
    pub nodes: Vec<PlacementNode>,
    pub mode: PlacementMode,
}

impl PlacementFacts {
    /// Providers and identities are in order, and each identity has its node.
    pub open spec fn wf(&self) -> bool {
        self.providers.wf() && self.identities.wf() && self.nodes@.len() == self.identities@.len()
    }

    /// A node by its place.
    pub open spec fn node(&self, place: int) -> Node {
        Node {
            provider: self.nodes@[place].provider@,
            count: self.nodes@[place].invocation_count as nat,
        }
    }

    /// The nodes by their identity.
    pub open spec fn node_map(&self) -> Map<Seq<char>, Node> {
        Map::new(
            |identity: Seq<char>| self.identities@.contains(identity),
            |identity: Seq<char>| self.node(self.identities@.index_of(identity)),
        )
    }

    /// The value holds what facts say.
    pub open spec fn holds(&self, facts: Facts) -> bool {
        &&& self.wf()
        &&& self.migraphx_events == facts.migraphx
        &&& self.cpu_events == facts.cpu
        &&& self.unknown_events == facts.unknown
        &&& self.providers@.to_set() == facts.providers
        &&& self.node_map() == facts.nodes
    }
}

/// Facts that are being collected are consistent with their lists.
spec fn collected(value: PlacementFacts, facts: Facts, events: nat) -> bool {
    &&& value.wf()
    &&& value.migraphx_events == facts.migraphx
    &&& value.cpu_events == facts.cpu
    &&& value.unknown_events == facts.unknown
    &&& facts.migraphx + facts.cpu + facts.unknown <= events
    &&& value.providers@.to_set() == facts.providers
    &&& facts.nodes.dom() == value.identities@.to_set()
    &&& facts.nodes.dom().finite()
    &&& facts.nodes.dom().len() == value.identities@.len()
    &&& value.identities@.len() <= MAX_PROFILE_NODES
    &&& forall|i: int|
        0 <= i < value.identities@.len() ==> facts.nodes[#[trigger] value.identities@[i]]
            == value.node(i) && value.nodes@[i].invocation_count <= events
}

proof fn lists_have_no_repeats(texts: Seq<Seq<char>>)
    requires
        in_order(texts),
    ensures
        texts.no_duplicates(),
{
    assert forall|i: int, j: int|
        0 <= i < texts.len() && 0 <= j < texts.len() && i != j implies texts[i] != texts[j] by {
        if i < j {
            assert(crate::order::bytes_less(encode_utf8(texts[i]), encode_utf8(texts[j])));
        } else {
            assert(crate::order::bytes_less(encode_utf8(texts[j]), encode_utf8(texts[i])));
        }
        crate::order::bytes_less_irreflexive(encode_utf8(texts[i]));
    }
}

proof fn collected_facts_hold(value: PlacementFacts, facts: Facts, events: nat)
    requires
        collected(value, facts, events),
    ensures
        value.holds(facts),
{
    let map = value.node_map();
    lists_have_no_repeats(value.identities@);
    assert forall|identity: Seq<char>| map.dom().contains(identity) == facts.nodes.dom().contains(
        identity,
    ) by {}
    assert forall|identity: Seq<char>| map.dom().contains(identity) implies #[trigger] map[identity]
        == facts.nodes[identity] by {
        let place = value.identities@.index_of(identity);
        assert(value.identities@[place] == identity);
    }
    assert(map =~= facts.nodes);
}

fn same_optional(text: &Option<String>, wanted: &str) -> (same: bool)
    ensures
        same == (text_view(*text) == Some(wanted@)),
{
    match text {
        Some(characters) => str_eq(characters.as_str(), wanted),
        None => false,
    }
}

fn digits_only(text: &str) -> (only: bool)
    ensures
        only == all_digits(encode_utf8(text@)),
{
    let bytes = text.as_bytes();
    let mut index: usize = 0;
    while index < bytes.len()
        invariant
            index <= bytes@.len(),
            bytes@ == encode_utf8(text@),
            forall|i: int| 0 <= i < index ==> 48 <= #[trigger] bytes@[i] <= 57,
        decreases bytes.len() - index,
    {
        if bytes[index] < 48 || bytes[index] > 57 {
            assert(!(48 <= bytes@[index as int] <= 57));
            return false;
        }
        index = index + 1;
    }
    true
}

fn index_text(event: &ProfileEvent) -> (text: Option<String>)
    ensures
        text_view(text) == node_index(event_view(*event)),
{
    match event.index_number {
        Some(number) => Some(decimal_text(number)),
        None => match &event.index_text {
            Some(text) => Some(text.as_str().to_owned()),
            None => None,
        },
    }
}

/// What an event about a node holds: the provider and the node's identity.
fn read_event(event: &ProfileEvent) -> (read: Result<(String, String), PlacementError>)
    ensures
        match read {
            Ok((provider, identity)) => event_error(event_view(*event)) is None && event_view(
                *event,
            ).provider == Some(provider@) && identity@ == identity_of(event_view(*event)),
            Err(error) => event_error(event_view(*event)) == Some(error),
        },
{
    if !same_optional(&event.phase, "X") || !event.has_duration {
        return Err(PlacementError::NodeEventIncomplete);
    }
    let provider: &str = match &event.provider {
        Some(provider) => provider.as_str(),
        None => {
            return Err(PlacementError::ProviderMissing);
        },
    };
    let name: &str = match &event.name {
        Some(name) => name.as_str(),
        None => {
            return Err(PlacementError::NodeIdentityMissing);
        },
    };
    let operation: &str = match &event.operation {
        Some(operation) => operation.as_str(),
        None => {
            return Err(PlacementError::OperationIdentityMissing);
        },
    };
    if provider.as_bytes().len() > 128 || name.as_bytes().len() > 1024
        || operation.as_bytes().len() > 128 {
        return Err(PlacementError::IdentityStringLimit);
    }
    let index = match index_text(event) {
        Some(index) => index,
        None => {
            return Err(PlacementError::NodeIndexMissing);
        },
    };
    if index.as_str().as_bytes().len() > 32 || !digits_only(index.as_str()) {
        return Err(PlacementError::NodeIndexInvalid);
    }
    let mut identity = index;
    identity.append("|");
    identity.append(name);
    identity.append("|");
    identity.append(operation);
    Ok((provider.to_owned(), identity))
}

proof fn inserted_node(
    before: PlacementFacts,
    after: PlacementFacts,
    facts: Facts,
    place: int,
    identity: Seq<char>,
    provider: Seq<char>,
    events: nat,
)
    requires
        collected(before, facts, events),
        !before.identities@.contains(identity),
        0 <= place <= before.identities@.len(),
        before.identities@.len() < MAX_PROFILE_NODES,
        after.wf(),
        after.identities@ == before.identities@.insert(place, identity),
        after.nodes@.len() == before.nodes@.len() + 1,
        after.node(place) == (Node { provider, count: 1 }),
        after.nodes@[place].invocation_count == 1,
        forall|i: int| 0 <= i < place ==> after.nodes@[i] == before.nodes@[i],
        forall|i: int| place <= i < before.nodes@.len() ==> after.nodes@[i + 1] == before.nodes@[i],
    ensures
        ({
            let nodes = facts.nodes.insert(identity, Node { provider, count: 1 });
            &&& nodes.dom() == after.identities@.to_set()
            &&& nodes.dom().finite()
            &&& nodes.dom().len() == after.identities@.len()
            &&& forall|i: int|
                0 <= i < after.identities@.len() ==> nodes[#[trigger] after.identities@[i]]
                    == after.node(i) && after.nodes@[i].invocation_count <= events + 1
        }),
{
    let nodes = facts.nodes.insert(identity, Node { provider, count: 1 });
    let old_list = before.identities@;
    let new_list = after.identities@;
    assert(!facts.nodes.dom().contains(identity));
    assert(nodes.dom() =~= facts.nodes.dom().insert(identity));
    assert forall|text: Seq<char>| new_list.to_set().contains(text) == nodes.dom().contains(text) by {
        if new_list.contains(text) && text != identity {
            let i = new_list.index_of(text);
            if i < place {
                assert(old_list[i] == text);
            } else {
                assert(old_list[i - 1] == text);
            }
            assert(old_list.to_set().contains(text));
        }
        if old_list.contains(text) {
            let i = old_list.index_of(text);
            if i < place {
                assert(new_list[i] == text);
            } else {
                assert(new_list[i + 1] == text);
            }
        }
        assert(new_list[place] == identity);
        assert(facts.nodes.dom().contains(text) == old_list.to_set().contains(text));
    }
    assert(nodes.dom() =~= new_list.to_set());
    assert forall|i: int| 0 <= i < new_list.len() implies nodes[#[trigger] new_list[i]]
        == after.node(i) && after.nodes@[i].invocation_count <= events + 1 by {
        if i < place {
            assert(new_list[i] == old_list[i]);
            assert(old_list.contains(old_list[i]));
            assert(facts.nodes[old_list[i]] == before.node(i));
        } else if i > place {
            assert(new_list[i] == old_list[i - 1]);
            assert(old_list.contains(old_list[i - 1]));
            assert(facts.nodes[old_list[i - 1]] == before.node(i - 1));
            assert(after.nodes@[i - 1 + 1] == before.nodes@[i - 1]);
        }
    }
}

proof fn counted_node(
    before: PlacementFacts,
    after: PlacementFacts,
    facts: Facts,
    place: int,
    identity: Seq<char>,
    events: nat,
)
    requires
        collected(before, facts, events),
        0 <= place < before.identities@.len(),
        before.identities@[place] == identity,
        after.wf(),
        after.identities@ == before.identities@,
        after.nodes@.len() == before.nodes@.len(),
        after.nodes@[place].provider@ == before.nodes@[place].provider@,
        after.nodes@[place].invocation_count == before.nodes@[place].invocation_count + 1,
        forall|i: int| 0 <= i < before.nodes@.len() && i != place ==> after.nodes@[i]
            == before.nodes@[i],
    ensures
        ({
            let node = before.node(place);
            let nodes = facts.nodes.insert(
                identity,
                Node { provider: node.provider, count: node.count + 1 },
            );
            &&& nodes.dom() == after.identities@.to_set()
            &&& nodes.dom().finite()
            &&& nodes.dom().len() == after.identities@.len()
            &&& forall|i: int|
                0 <= i < after.identities@.len() ==> nodes[#[trigger] after.identities@[i]]
                    == after.node(i) && after.nodes@[i].invocation_count <= events + 1
        }),
{
    let node = before.node(place);
    let nodes = facts.nodes.insert(identity, Node { provider: node.provider, count: node.count + 1 });
    let list = before.identities@;
    lists_have_no_repeats(list);
    assert(list.contains(list[place]));
    assert(facts.nodes.dom().contains(identity));
    assert(nodes.dom() =~= facts.nodes.dom());
    assert forall|i: int| 0 <= i < list.len() implies nodes[#[trigger] list[i]] == after.node(i)
        && after.nodes@[i].invocation_count <= events + 1 by {
        assert(facts.nodes[list[i]] == before.node(i));
        if i != place {
            assert(list[i] != list[place]);
        }
    }
}

/// Adds one event to the facts.
fn add_event(facts: &mut PlacementFacts, event: &ProfileEvent, Ghost(known): Ghost<Facts>, Ghost(
    events,
): Ghost<nat>) -> (result: Result<(), PlacementError>)
    requires
        collected(*old(facts), known, events),
        events < MAX_PROFILE_EVENTS,
    ensures
        match result {
            Ok(_) => with_event(known, event_view(*event)) matches Ok(after) && collected(
                *final(facts),
                after,
                events + 1,
            ),
            Err(error) => with_event(known, event_view(*event)) == Err::<Facts, PlacementError>(
                error,
            ),
        },
{
    if !same_optional(&event.category, "Node") {
        return Ok(());
    }
    let (provider, identity): (String, String) = match read_event(event) {
        Ok(read) => read,
        Err(error) => {
            return Err(error);
        },
    };
    let ghost before = *facts;
    let (there, place): (bool, usize) = facts.identities.find(identity.as_str());
    assert(there == known.nodes.dom().contains(identity@));
    if !there && facts.identities.len() == MAX_PROFILE_NODES {
        return Err(PlacementError::NodeLimit);
    }
    if there {
        assert(known.nodes[before.identities@[place as int]] == before.node(place as int));
        if !str_eq(facts.nodes[place].provider.as_str(), provider.as_str()) {
            return Err(PlacementError::IdentityProviderChanged);
        }
        let count: u64 = facts.nodes[place].invocation_count + 1;
        let node = PlacementNode { provider: provider.as_str().to_owned(), invocation_count: count };
        facts.nodes.set(place, node);
        proof {
            counted_node(before, *facts, known, place as int, identity@, events);
        }
    } else {
        facts.identities.insert_at(place, identity.as_str());
        let node = PlacementNode { provider: provider.as_str().to_owned(), invocation_count: 1 };
        facts.nodes.insert(place, node);
        proof {
            inserted_node(before, *facts, known, place as int, identity@, provider@, events);
        }
    }
    facts.providers.insert(provider.as_str());
    if str_eq(provider.as_str(), "MIGraphXExecutionProvider") {
        facts.migraphx_events = facts.migraphx_events + 1;
    } else if str_eq(provider.as_str(), "CPUExecutionProvider") {
        facts.cpu_events = facts.cpu_events + 1;
    } else {
        facts.unknown_events = facts.unknown_events + 1;
    }
    Ok(())
}

/// What was parsed is what a profile tells.
pub open spec fn placement_is(
    parsed: Result<PlacementFacts, PlacementError>,
    wanted: Result<Facts, PlacementError>,
) -> bool {
    match wanted {
        Err(error) => parsed == Err::<PlacementFacts, PlacementError>(error),
        Ok(facts) => parsed matches Ok(value) && value.holds(facts) && value.mode == mode_of(facts),
    }
}

/// What events tell about placement; `None` stands for a profile that could not
/// be read.
pub fn placement_of_events(events: &Option<Vec<ProfileEvent>>) -> (parsed: Result<
    PlacementFacts,
    PlacementError,
>)
    ensures
        placement_is(parsed, placement_of(events_view(*events))),
{
    let list: &Vec<ProfileEvent> = match events {
        Some(list) => list,
        None => {
            return Err(PlacementError::JsonInvalid);
        },
    };
    let ghost all = event_views(list@);
    assert(all.len() == list@.len());
    if list.len() > MAX_PROFILE_EVENTS {
        return Err(PlacementError::JsonInvalid);
    }
    let mut facts = PlacementFacts {
        migraphx_events: 0,
        cpu_events: 0,
        unknown_events: 0,
        providers: SortedNames::new(),
        identities: SortedNames::new(),
        nodes: Vec::new(),
        mode: PlacementMode::Invalid,
    };
    let ghost mut known = no_facts();
    proof {
        assert(facts.providers@.to_set() =~= Set::empty());
        assert(facts.identities@.to_set() =~= Set::empty());
        assert(known.nodes.dom() =~= Set::empty());
    }
    let mut index: usize = 0;
    while index < list.len()
        invariant
            index <= list@.len() <= MAX_PROFILE_EVENTS,
            all == event_views(list@),
            events_view(*events) == Some(all),
            all.len() == list@.len(),
            collected(facts, known, index as nat),
            facts_of(all, index as nat) == Ok::<Facts, PlacementError>(known),
        decreases list.len() - index,
    {
        let ghost before = known;
        let ghost event = all[index as int];
        assert(event == event_view(list@[index as int]));
        match add_event(&mut facts, &list[index], Ghost(known), Ghost(index as nat)) {
            Ok(()) => {},
            Err(error) => {
                proof {
                    errors_stop(all, (index + 1) as nat, all.len(), error);
                }
                return Err(error);
            },
        }
        proof {
            known = with_event(before, event)->Ok_0;
        }
        index = index + 1;
    }
    facts.mode = if facts.migraphx_events == 0 || facts.unknown_events > 0 {
        PlacementMode::Invalid
    } else if facts.cpu_events > 0 {
        PlacementMode::Mixed
    } else {
        PlacementMode::AllMigraphx
    };
    proof {
        collected_facts_hold(facts, known, index as nat);
    }
    Ok(facts)
}

proof fn errors_stop(events: Seq<Event>, early: nat, late: nat, error: PlacementError)
    requires
        early <= late,
        facts_of(events, early) == Err::<Facts, PlacementError>(error),
    ensures
        facts_of(events, late) == Err::<Facts, PlacementError>(error),
    decreases late,
{
    if early < late {
        errors_stop(events, early, (late - 1) as nat, error);
    }
}

/// What a profile tells about placement.
pub fn parse_profile_json(bytes: &[u8]) -> (parsed: Result<PlacementFacts, PlacementError>)
    ensures
        placement_is(parsed, placement_of(events_at(profile_values(bytes@)))),
{
    let values = read_profile(bytes);
    placement_of_events(&events_of(&values))
}

/// Whether a path leads directly into the directory that a worker gets for its
/// profiles.
pub open spec fn in_profile_directory(path: Seq<u8>) -> bool {
    let directory = names(encode_utf8("/proc/self/fd/5"@));
    path.len() > 0 && path[0] == 47 && names(path).len() > 0 && names(path).drop_last()
        == directory
}

/// The name of a profile, which must lie in the directory for profiles.
pub fn profile_name(path: &[u8]) -> (name: Result<Vec<u8>, PlacementError>)
    ensures
        match name {
            Ok(bytes) => in_profile_directory(path@) && final_name(path@) == Some(bytes@),
            Err(error) => if in_profile_directory(path@) {
                final_name(path@) is None && error == PlacementError::NameMissing
            } else {
                error == PlacementError::PathEscaped
            },
        },
{
    if path.len() == 0 || path[0] != 47 {
        return Err(PlacementError::PathEscaped);
    }
    let mut parts = path_names(path);
    assert(views(parts@).len() == parts@.len());
    let directory = path_names("/proc/self/fd/5".as_bytes());
    assert(views(directory@).len() == directory@.len());
    let ghost all = views(parts@);
    match parts.pop() {
        Some(_) => {},
        None => {
            return Err(PlacementError::PathEscaped);
        },
    }
    assert(views(parts@) =~= all.drop_last());
    if !lists_match(&parts, &directory) {
        return Err(PlacementError::PathEscaped);
    }
    match file_name(path) {
        Some(name) => Ok(name),
        None => Err(PlacementError::NameMissing),
    }
}

fn lists_match(left: &Vec<Vec<u8>>, right: &Vec<Vec<u8>>) -> (same: bool)
    ensures
        same == (views(left@) == views(right@)),
{
    assert(views(left@).len() == left@.len());
    assert(views(right@).len() == right@.len());
    if left.len() != right.len() {
        return false;
    }
    let mut index: usize = 0;
    while index < left.len()
        invariant
            index <= left@.len(),
            left@.len() == right@.len(),
            forall|i: int| 0 <= i < index ==> #[trigger] views(left@)[i] == views(right@)[i],
        decreases left.len() - index,
    {
        if !bytes_eq(left[index].as_slice(), right[index].as_slice()) {
            assert(views(left@)[index as int] != views(right@)[index as int]);
            return false;
        }
        index = index + 1;
    }
    assert(views(left@) =~= views(right@));
    true
}

/// The number of bytes to read of a profile: it must be a regular file, neither
/// empty nor too large.
pub fn profile_size(is_file: bool, length: u64) -> (size: Result<u64, PlacementError>)
    ensures
        size == (if is_file && 0 < length <= MAX_PROFILE_BYTES {
            Ok(length)
        } else {
            Err(PlacementError::SizeLimit)
        }),
{
    if !is_file || length == 0 || length > MAX_PROFILE_BYTES {
        return Err(PlacementError::SizeLimit);
    }
    Ok(length)
}

/// What a profile of a known size tells, once it has been read.
pub fn parse_profile(size: u64, bytes: &[u8]) -> (parsed: Result<PlacementFacts, PlacementError>)
    ensures
        bytes@.len() != size ==> parsed == Err::<PlacementFacts, PlacementError>(
            PlacementError::SizeChanged,
        ),
        bytes@.len() == size ==> placement_is(
            parsed,
            placement_of(events_at(profile_values(bytes@))),
        ),
{
    if bytes.len() as u64 != size {
        return Err(PlacementError::SizeChanged);
    }
    parse_profile_json(bytes)
}

/// Whether a placement is one that the run accepts.
pub fn placement_allowed(facts: &PlacementFacts, allow_mixed: bool) -> (allowed: bool)
    ensures
        allowed == (facts.mode == PlacementMode::AllMigraphx || (allow_mixed && facts.mode
            == PlacementMode::Mixed)),
{
    facts.mode == PlacementMode::AllMigraphx || (allow_mixed && facts.mode == PlacementMode::Mixed)
}

/// Whether two placements have the same nodes, on the same providers, as often.
pub fn placement_facts_comparable(left: &PlacementFacts, right: &PlacementFacts) -> (comparable: bool)
    requires
        left.wf(),
        right.wf(),
    ensures
        comparable == (left.node_map() == right.node_map()),
{
    proof {
        lists_have_no_repeats(left.identities@);
        lists_have_no_repeats(right.identities@);
    }
    if !left.identities.matches(&right.identities) {
        proof {
            if left.node_map() == right.node_map() {
                assert forall|text: Seq<char>| left.identities@.to_set().contains(text)
                    == right.identities@.to_set().contains(text) by {
                    assert(left.node_map().dom().contains(text) == right.node_map().dom().contains(
                        text,
                    ));
                }
                assert(left.identities@.to_set() =~= right.identities@.to_set());
                sets_are_listed_alike(left.identities@, right.identities@);
            }
        }
        return false;
    }
    let mut index: usize = 0;
    while index < left.nodes.len()
        invariant
            index <= left.nodes@.len(),
            left.wf(),
            right.wf(),
            left.identities@ == right.identities@,
            left.identities@.no_duplicates(),
            forall|i: int| 0 <= i < index ==> left.node(i) == right.node(i),
        decreases left.nodes.len() - index,
    {
        let a = &left.nodes[index];
        let b = &right.nodes[index];
        if !str_eq(a.provider.as_str(), b.provider.as_str()) || a.invocation_count
            != b.invocation_count {
            proof {
                let identity = left.identities@[index as int];
                assert(left.identities@.contains(identity));
                assert(left.identities@.index_of(identity) == index);
                assert(left.node_map()[identity] == left.node(index as int));
                assert(right.node_map()[identity] == right.node(index as int));
            }
            return false;
        }
        index = index + 1;
    }
    proof {
        assert forall|identity: Seq<char>|
            left.node_map().dom().contains(identity) implies #[trigger] left.node_map()[identity]
            == right.node_map()[identity] by {
            let place = left.identities@.index_of(identity);
            assert(left.identities@[place] == identity);
            assert(left.node(place) == right.node(place));
        }
        assert(left.node_map() =~= right.node_map());
    }
    true
}

/// Whether the placements of a pair are accepted and can be compared: each must
/// be allowed, and the two detectors, and the two recognizers, must agree.
pub fn validate_placement_pair(
    allow_mixed: bool,
    fp32_detector: &PlacementFacts,
    fp32_recognizer: &PlacementFacts,
    fp16_detector: &PlacementFacts,
    fp16_recognizer: &PlacementFacts,
) -> (result: Result<(), PlacementError>)
    requires
        fp32_detector.wf(),
        fp32_recognizer.wf(),
        fp16_detector.wf(),
        fp16_recognizer.wf(),
    ensures
        result == (if !allowed(fp32_detector.mode, allow_mixed) || !allowed(
            fp32_recognizer.mode,
            allow_mixed,
        ) || !allowed(fp16_detector.mode, allow_mixed) || !allowed(
            fp16_recognizer.mode,
            allow_mixed,
        ) {
            Err(PlacementError::PolicyRejected)
        } else if fp32_detector.node_map() != fp16_detector.node_map()
            || fp32_recognizer.node_map() != fp16_recognizer.node_map() {
            Err(PlacementError::NotComparable)
        } else {
            Ok(())
        }),
{
    if !placement_allowed(fp32_detector, allow_mixed) || !placement_allowed(
        fp32_recognizer,
        allow_mixed,
    ) || !placement_allowed(fp16_detector, allow_mixed) || !placement_allowed(
        fp16_recognizer,
        allow_mixed,
    ) {
        return Err(PlacementError::PolicyRejected);
    }
    if !placement_facts_comparable(fp32_detector, fp16_detector) || !placement_facts_comparable(
        fp32_recognizer,
        fp16_recognizer,
    ) {
        return Err(PlacementError::NotComparable);
    }
    Ok(())
}

/// The modes that a run accepts.
pub open spec fn allowed(mode: PlacementMode, allow_mixed: bool) -> bool {
    mode == PlacementMode::AllMigraphx || (allow_mixed && mode == PlacementMode::Mixed)
}

/// What is published of a placement: no identity of a node.
#[derive(Debug)]
pub struct PublicPlacement {
    pub mode: PlacementMode,
    pub migraphx_executed_events: u64,
    pub cpu_executed_events: u64,
    pub unknown_executed_events: u64,
    pub provider_set: Vec<String>,
}

pub fn public_placement(facts: &PlacementFacts) -> (placement: PublicPlacement)
    ensures
        placement.mode == facts.mode,
        placement.migraphx_executed_events == facts.migraphx_events,
        placement.cpu_executed_events == facts.cpu_events,
        placement.unknown_executed_events == facts.unknown_events,
        placement.provider_set@.map_values(|name: String| name@) == facts.providers@,
{
    let mut provider_set: Vec<String> = Vec::new();
    let mut index: usize = 0;
    while index < facts.providers.len()
        invariant
            index <= facts.providers@.len(),
            provider_set@.len() == index,
            forall|i: int|
                0 <= i < index ==> (#[trigger] provider_set@[i])@ == facts.providers@[i],
        decreases facts.providers@.len() - index,
    {
        provider_set.push(facts.providers.get(index).to_owned());
        index = index + 1;
    }
    assert(provider_set@.map_values(|name: String| name@) =~= facts.providers@);
    PublicPlacement {
        mode: facts.mode,
        migraphx_executed_events: facts.migraphx_events,
        cpu_executed_events: facts.cpu_events,
        unknown_executed_events: facts.unknown_events,
        provider_set,
    }
}

/// Whether an event is about a node that the given provider executed.
pub open spec fn ran_on(event: Event, provider: Seq<char>) -> bool {
    is_node_event(event) && event.provider == Some(provider)
}

/// Whether an event is about a node that neither known provider executed.
pub open spec fn ran_elsewhere(event: Event) -> bool {
    is_node_event(event) && !ran_on(event, "MIGraphXExecutionProvider"@) && !ran_on(
        event,
        "CPUExecutionProvider"@,
    )
}

/// The counts of a profile tell whether anything ran on a provider.
pub proof fn counts_tell_where_nodes_ran(events: Seq<Event>, count: nat)
    requires
        count <= events.len(),
    ensures
        facts_of(events, count) matches Ok(facts) ==> {
            &&& facts.migraphx > 0 <==> exists|i: int|
                0 <= i < count && ran_on(#[trigger] events[i], "MIGraphXExecutionProvider"@)
            &&& facts.cpu > 0 <==> exists|i: int|
                0 <= i < count && ran_on(#[trigger] events[i], "CPUExecutionProvider"@)
            &&& facts.unknown > 0 <==> exists|i: int|
                0 <= i < count && ran_elsewhere(#[trigger] events[i])
        },
    decreases count,
{
    reveal_strlit("MIGraphXExecutionProvider");
    reveal_strlit("CPUExecutionProvider");
    assert("MIGraphXExecutionProvider"@.len() != "CPUExecutionProvider"@.len());
    if count > 0 {
        let last = (count - 1) as nat;
        counts_tell_where_nodes_ran(events, last);
        match facts_of(events, last) {
            Ok(before) => match with_event(before, events[last as int]) {
                Ok(after) => {
                    let event = events[last as int];
                    if before.migraphx > 0 {
                        let i = choose|i: int|
                            0 <= i < last && ran_on(
                                #[trigger] events[i],
                                "MIGraphXExecutionProvider"@,
                            );
                        assert(ran_on(events[i], "MIGraphXExecutionProvider"@));
                    }
                    if before.cpu > 0 {
                        let i = choose|i: int|
                            0 <= i < last && ran_on(#[trigger] events[i], "CPUExecutionProvider"@);
                        assert(ran_on(events[i], "CPUExecutionProvider"@));
                    }
                    if before.unknown > 0 {
                        let i = choose|i: int|
                            0 <= i < last && ran_elsewhere(#[trigger] events[i]);
                        assert(ran_elsewhere(events[i]));
                    }
                    if after.migraphx > before.migraphx {
                        assert(ran_on(event, "MIGraphXExecutionProvider"@));
                    }
                    if after.cpu > before.cpu {
                        assert(ran_on(event, "CPUExecutionProvider"@));
                    }
                    if after.unknown > before.unknown {
                        assert(ran_elsewhere(event));
                    }
                },
                Err(_) => {},
            },
            Err(_) => {},
        }
    }
}

/// A profile shows that everything ran on the accelerator exactly when some node
/// did and no node ran anywhere else.
pub proof fn all_migraphx_means_nothing_else_ran(events: Seq<Event>)
    ensures
        placement_of(Some(events)) matches Ok(facts) ==> (mode_of(facts)
            == PlacementMode::AllMigraphx <==> (exists|i: int|
            0 <= i < events.len() && is_node_event(#[trigger] events[i])) && forall|i: int|
            0 <= i < events.len() && is_node_event(#[trigger] events[i]) ==> ran_on(
                events[i],
                "MIGraphXExecutionProvider"@,
            )),
{
    counts_tell_where_nodes_ran(events, events.len());
    match placement_of(Some(events)) {
        Ok(facts) => {
            if mode_of(facts) == PlacementMode::AllMigraphx {
                assert forall|i: int|
                    0 <= i < events.len() && is_node_event(#[trigger] events[i]) implies ran_on(
                    events[i],
                    "MIGraphXExecutionProvider"@,
                ) by {
                    if !ran_on(events[i], "MIGraphXExecutionProvider"@) {
                        if ran_on(events[i], "CPUExecutionProvider"@) {
                            assert(facts.cpu > 0);
                        } else {
                            assert(ran_elsewhere(events[i]));
                        }
                    }
                }
                let i = choose|i: int|
                    0 <= i < events.len() && ran_on(
                        #[trigger] events[i],
                        "MIGraphXExecutionProvider"@,
                    );
                assert(is_node_event(events[i]));
            } else if (exists|i: int| 0 <= i < events.len() && is_node_event(#[trigger] events[i]))
                && forall|i: int|
                0 <= i < events.len() && is_node_event(#[trigger] events[i]) ==> ran_on(
                    events[i],
                    "MIGraphXExecutionProvider"@,
                ) {
                let i = choose|i: int| 0 <= i < events.len() && is_node_event(#[trigger] events[i]);
                assert(ran_on(events[i], "MIGraphXExecutionProvider"@));
                assert(facts.migraphx > 0);
                reveal_strlit("MIGraphXExecutionProvider");
                reveal_strlit("CPUExecutionProvider");
                assert("MIGraphXExecutionProvider"@.len() != "CPUExecutionProvider"@.len());
                if facts.cpu > 0 {
                    let j = choose|j: int|
                        0 <= j < events.len() && ran_on(
                            #[trigger] events[j],
                            "CPUExecutionProvider"@,
                        );
                    assert(is_node_event(events[j]));
                }
                if facts.unknown > 0 {
                    let j = choose|j: int|
                        0 <= j < events.len() && ran_elsewhere(#[trigger] events[j]);
                    assert(is_node_event(events[j]));
                }
            }
        },
        Err(_) => {},
    }
}


/// An event tells of a run of a node: one of a number, written or given, a name and an
/// operation, joined by bars.
pub open spec fn tells_of_node(event: Event, identity: Seq<char>) -> bool {
    event.category == Some("Node"@) && (exists|number: Seq<char>, name: Seq<char>, op: Seq<char>|
        event.name == Some(name) && event.operation == Some(op) && (match event.index_number {
            Some(given) => number == decimal(given as nat),
            None => event.index_text == Some(number),
        }) && identity == #[trigger] (number + "|"@ + name + "|"@ + op))
}

/// How many of the first events tell of a node.
pub open spec fn times_told(events: Seq<Event>, identity: Seq<char>, count: nat) -> nat
    decreases count,
{
    if count == 0 {
        0
    } else {
        times_told(events, identity, (count - 1) as nat) + (if tells_of_node(
            events[count - 1],
            identity,
        ) {
            1nat
        } else {
            0nat
        })
    }
}

proof fn events_tell_of_their_node(event: Event, identity: Seq<char>)
    requires
        is_node_event(event),
        event_error(event) is None,
    ensures
        tells_of_node(event, identity) <==> identity == identity_of(event),
{
    if identity == identity_of(event) {
        let number = node_index(event)->0;
        let name = event.name->0;
        let op = event.operation->0;
        assert(identity == number + "|"@ + name + "|"@ + op);
    }
}

/// Each node is counted as often as events tell of it, is known exactly where one does,
/// and has one provider, the one that every one of them names.
pub proof fn nodes_are_counted(events: Seq<Event>, count: nat, identity: Seq<char>)
    requires
        count <= events.len(),
    ensures
        facts_of(events, count) matches Ok(facts) ==> {
            &&& facts.nodes.dom().contains(identity) <==> times_told(events, identity, count) > 0
            &&& facts.nodes.dom().contains(identity) ==> facts.nodes[identity].count == times_told(
                events,
                identity,
                count,
            )
            &&& forall|i: int|
                0 <= i < count && tells_of_node(#[trigger] events[i], identity)
                    ==> facts.nodes.dom().contains(identity) && events[i].provider == Some(
                    facts.nodes[identity].provider,
                )
            &&& facts.nodes.dom().len() <= 20000 && facts.nodes.dom().finite()
        },
    decreases count,
{
    if count > 0 {
        let last = (count - 1) as nat;
        let event = events[last as int];
        nodes_are_counted(events, last, identity);
        match facts_of(events, last) {
            Ok(before) => {
                if with_event(before, event) is Ok {
                    if is_node_event(event) {
                        events_tell_of_their_node(event, identity);
                        let named = identity_of(event);
                        assert(before.nodes.dom().insert(named) =~= before.nodes.insert(
                            named,
                            Node { provider: event.provider->0, count: 0 },
                        ).dom());
                        let after = with_event(before, event)->Ok_0;
                        assert(after.nodes.dom() =~= before.nodes.dom().insert(named));
                    } else {
                        assert(!tells_of_node(event, identity));
                    }
                }
            },
            Err(_) => {},
        }
    }
}

/// An event of a node is taken exactly where it is complete, has its provider, name,
/// operation and number, and none of them is too long; other events are passed over.
pub proof fn node_events_are_complete(event: Event)
    ensures
        is_node_event(event) <==> event.category == Some("Node"@),
        event_error(event) is None <==> {
            &&& event.phase == Some("X"@) && event.has_duration
            &&& event.provider matches Some(provider) && encode_utf8(provider).len() <= 128
            &&& event.name matches Some(name) && encode_utf8(name).len() <= 1024
            &&& event.operation matches Some(operation) && encode_utf8(operation).len() <= 128
            &&& event.index_number is Some || event.index_text is Some
            &&& match event.index_number {
                Some(number) => encode_utf8(decimal(number as nat)).len() <= 32 && all_digits(
                    encode_utf8(decimal(number as nat)),
                ),
                None => encode_utf8(event.index_text->0).len() <= 32 && all_digits(
                    encode_utf8(event.index_text->0),
                ),
            }
        },
        forall|facts: Facts|
            !is_node_event(event) ==> #[trigger] with_event(facts, event) == Ok::<
                Facts,
                PlacementError,
            >(facts),
{
}

/// Where models ran: all on the accelerator where something did and nothing else; mixed
/// where only the processor ran as well; and else nowhere that counts. A mixed run
/// passes only where that is allowed.
pub proof fn modes_tell_where_models_ran(facts: Facts, allow_mixed: bool)
    ensures
        mode_of(facts) == PlacementMode::AllMigraphx <==> facts.migraphx > 0 && facts.cpu == 0
            && facts.unknown == 0,
        mode_of(facts) == PlacementMode::Mixed <==> facts.migraphx > 0 && facts.cpu > 0
            && facts.unknown == 0,
        mode_of(facts) == PlacementMode::Invalid <==> facts.migraphx == 0 || facts.unknown > 0,
        allowed(mode_of(facts), allow_mixed) <==> facts.migraphx > 0 && facts.unknown == 0 && (
        allow_mixed || facts.cpu == 0),
{
}


/// A profile lies in its directory exactly where one name stands behind that of the
/// directory.
pub proof fn profiles_lie_in_their_directory(rest: Seq<u8>)
    ensures
        in_profile_directory(encode_utf8("/proc/self/fd/5"@) + seq![47u8] + rest) <==> names(
            rest,
        ).len() == 1,
{
    let directory = encode_utf8("/proc/self/fd/5"@);
    let path = directory + seq![47u8] + rest;
    reveal_strlit("/proc/self/fd/5");
    is_ascii_chars_encode_utf8("/proc/self/fd/5"@);
    assert(path[0] == 47);
    crate::paths::joined_paths_have_the_names_of_both(directory, rest);
    let all = names(directory) + names(rest);
    if names(rest).len() == 1 {
        assert(all.drop_last() =~= names(directory));
    }
    if all.len() > 0 && all.drop_last() == names(directory) {
        assert(all.drop_last().len() == all.len() - 1);
    }
}

/// What is kept of a profile is what it says: the three counts, each provider, and for
/// each node its provider and how often it ran.
pub proof fn kept_placements_say_what_profiles_say(value: PlacementFacts, facts: Facts, k: int)
    requires
        value.holds(facts),
        0 <= k < value.identities@.len(),
    ensures
        value.migraphx_events == facts.migraphx && value.cpu_events == facts.cpu
            && value.unknown_events == facts.unknown,
        forall|provider: Seq<char>| #[trigger]
            value.providers@.contains(provider) <==> facts.providers.contains(provider),
        forall|identity: Seq<char>| #[trigger]
            facts.nodes.dom().contains(identity) <==> value.identities@.contains(identity),
        value.nodes@[k].provider@ == facts.nodes[value.identities@[k]].provider,
        value.nodes@[k].invocation_count == facts.nodes[value.identities@[k]].count,
{
    let identity = value.identities@[k];
    assert(value.identities@.contains(identity));
    let place = value.identities@.index_of(identity);
    assert(value.identities@[place] == identity);
    if place != k {
        let low = if place < k {
            place
        } else {
            k
        };
        let high = if place < k {
            k
        } else {
            place
        };
        assert(crate::order::bytes_less(
            encode_utf8(value.identities@[low]),
            encode_utf8(value.identities@[high]),
        ));
        crate::order::bytes_less_irreflexive(encode_utf8(identity));
    }
    assert(value.node_map()[identity] == value.node(k));
    assert forall|provider: Seq<char>| #[trigger]
        value.providers@.contains(provider) <==> facts.providers.contains(provider) by {
        assert(value.providers@.to_set().contains(provider) <==> value.providers@.contains(
            provider,
        ));
    }
    assert forall|other: Seq<char>| #[trigger]
        facts.nodes.dom().contains(other) <==> value.identities@.contains(other) by {
        assert(value.node_map().dom().contains(other) <==> value.identities@.contains(other));
    }
}

} // verus!
