//! Events of contract calls and the hash that binds their order.

use crate::contract_id::{stake_contract, stake_contract_id, ContractId};
use crate::encoding::{le_bytes, push_bytes, push_le};
use crate::hashing::{sha3_256, sha3_256_digest};
use crate::ledger::{StakingEvent, Topic};
use vstd::prelude::*;

verus! {

/// What a contract emitted during a call: its identifier, the topic as
/// the bytes of its name, and a payload that only the contract reads.
#[derive(Debug)]
pub struct Event {
    pub source: ContractId,
    pub topic: Vec<u8>,
    pub data: Vec<u8>,
}

/// An event as contracts see it.
pub struct EventView {
    pub source: Seq<u8>,
    pub topic: Seq<u8>,
    pub data: Seq<u8>,
}

impl View for Event {
    type V = EventView;

    open spec fn view(&self) -> EventView {
        EventView { source: self.source@, topic: self.topic@, data: self.data@ }
    }
}

/// The views of `events`.
pub open spec fn event_views(events: Seq<Event>) -> Seq<EventView> {
    events.map_values(|e: Event| e@)
}

/// What an event contributes to the event hash: source, topic, payload.
pub open spec fn event_bytes(event: EventView) -> Seq<u8> {
    event.source + event.topic + event.data
}

/// What the events contribute to the event hash, in their order.
pub open spec fn events_bytes(events: Seq<EventView>) -> Seq<u8>
    decreases events.len(),
{
    if events.len() == 0 {
        Seq::empty()
    } else {
        events_bytes(events.drop_last()) + event_bytes(events.last())
    }
}

/// The hash over `events`: it changes with any event and with their order.
pub open spec fn event_hash(events: Seq<EventView>) -> Seq<u8> {
    sha3_256_digest(events_bytes(events))
}

/// The events of one call follow those of the calls before it.
pub proof fn lemma_events_bytes_add(first: Seq<EventView>, second: Seq<EventView>)
    ensures
        events_bytes(first + second) == events_bytes(first) + events_bytes(second),
    decreases second.len(),
{
    if second.len() == 0 {
        assert(first + second =~= first);
    } else {
        assert((first + second).drop_last() =~= first + second.drop_last());
        lemma_events_bytes_add(first, second.drop_last());
        assert(events_bytes(first) + events_bytes(second.drop_last()) + event_bytes(second.last())
            =~= events_bytes(first) + (events_bytes(second.drop_last()) + event_bytes(
            second.last(),
        )));
    }
}

/// The name of a topic, as bytes.
pub open spec fn topic_name(topic: Topic) -> Seq<u8> {
    match topic {
        Topic::Stake => seq![0x73u8, 0x74, 0x61, 0x6b, 0x65],
        Topic::Unstake => seq![0x75u8, 0x6e, 0x73, 0x74, 0x61, 0x6b, 0x65],
        Topic::Withdraw => seq![0x77u8, 0x69, 0x74, 0x68, 0x64, 0x72, 0x61, 0x77],
        Topic::Reward => seq![0x72u8, 0x65, 0x77, 0x61, 0x72, 0x64],
        Topic::Slash => seq![0x73u8, 0x6c, 0x61, 0x73, 0x68],
        Topic::HardSlash => seq![0x68u8, 0x61, 0x72, 0x64, 0x5f, 0x73, 0x6c, 0x61, 0x73, 0x68],
    }
}

impl Topic {
    /// The name of the topic: `stake`, `unstake`, `withdraw`, `reward`,
    /// `slash` or `hard_slash`.
    pub fn name(&self) -> (name: Vec<u8>)
        ensures
            name@ == topic_name(*self),
    {
        let name = match self {
            Topic::Stake => vec![0x73u8, 0x74, 0x61, 0x6b, 0x65],
            Topic::Unstake => vec![0x75u8, 0x6e, 0x73, 0x74, 0x61, 0x6b, 0x65],
            Topic::Withdraw => vec![0x77u8, 0x69, 0x74, 0x68, 0x64, 0x72, 0x61, 0x77],
            Topic::Reward => vec![0x72u8, 0x65, 0x77, 0x61, 0x72, 0x64],
            Topic::Slash => vec![0x73u8, 0x6c, 0x61, 0x73, 0x68],
            Topic::HardSlash => vec![0x68u8, 0x61, 0x72, 0x64, 0x5f, 0x73, 0x6c, 0x61, 0x73, 0x68],
        };
        name
    }
}

/// The event of the stake contract for `event`: the payload is the key
/// followed by the value in 8 bytes little-endian.
pub open spec fn staking_event_view(event: StakingEvent) -> EventView {
    EventView {
        source: stake_contract_id(),
        topic: topic_name(event.topic),
        data: event.public_key@ + le_bytes(event.value as nat, 8),
    }
}

impl StakingEvent {
    /// The event as the stake contract emits it.
    pub fn to_event(&self) -> (event: Event)
        ensures
            event@ == staking_event_view(*self),
    {
        let mut data: Vec<u8> = Vec::new();
        let key = self.public_key.to_bytes();
        push_bytes(&mut data, &key);
        push_le(&mut data, self.value, 8);
        Event { source: stake_contract(), topic: self.topic.name(), data }
    }
}

/// Collects what the events of a session contribute to the event hash.
pub struct EventHasher {
    absorbed: Vec<u8>,
}

impl View for EventHasher {
    type V = Seq<u8>;

    closed spec fn view(&self) -> Seq<u8> {
        self.absorbed@
    }
}

impl EventHasher {
    pub fn new() -> (hasher: Self)
        ensures
            hasher@ == Seq::<u8>::empty(),
    {
        EventHasher { absorbed: Vec::new() }
    }

    /// The hash of all that was absorbed.
    pub fn finalize(&self) -> (hash: [u8; 32])
        ensures
            hash@ == sha3_256_digest(self@),
    {
        sha3_256(self.absorbed.as_slice())
    }
}

/// Feeds an event to the hasher: its source, its topic and its payload.
pub fn update_hasher(hasher: &mut EventHasher, event: &Event)
    ensures
        final(hasher)@ == old(hasher)@ + event_bytes(event@),
{
    let source = event.source.to_bytes();
    push_bytes(&mut hasher.absorbed, &source);
    push_bytes(&mut hasher.absorbed, event.topic.as_slice());
    push_bytes(&mut hasher.absorbed, event.data.as_slice());
}

/// Feeds the events of one call to the hasher, in their order.
pub fn update_hasher_all(hasher: &mut EventHasher, events: &Vec<Event>)
    ensures
        final(hasher)@ == old(hasher)@ + events_bytes(event_views(events@)),
{
    let mut i: usize = 0;
    while i < events.len()
        invariant
            i <= events.len(),
            hasher@ == old(hasher)@ + events_bytes(event_views(events@).take(i as int)),
        decreases events.len() - i,
    {
        update_hasher(hasher, &events[i]);
        proof {
            let views = event_views(events@);
            assert(views.take(i + 1).drop_last() =~= views.take(i as int));
            assert(old(hasher)@ + events_bytes(views.take(i as int)) + event_bytes(events@[i as int]@)
                =~= old(hasher)@ + (events_bytes(views.take(i as int)) + event_bytes(
                events@[i as int]@,
            )));
        }
        i += 1;
    }
    assert(event_views(events@).take(i as int) =~= event_views(events@));
}

/// The hash over `events`, in their order.
pub fn hash_events(events: &Vec<Event>) -> (hash: [u8; 32])
    ensures
        hash@ == event_hash(event_views(events@)),
{
    let mut hasher = EventHasher::new();
    update_hasher_all(&mut hasher, events);
    assert(Seq::<u8>::empty() + events_bytes(event_views(events@)) =~= events_bytes(
        event_views(events@),
    ));
    hasher.finalize()
}

} // verus!
