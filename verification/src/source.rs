//! The source operator: which messages it asks for and what it does with them.
use std::collections::HashMap;
use vstd::prelude::*;
use crate::api::ApiClient;
use crate::api::Message;
use crate::api::MessageResponse;
use crate::api::TopicInfo;
use crate::connection::Format;
use crate::connection::RawStringFormat;

verus! {

broadcast use vstd::std_specs::hash::group_hash_axioms;

/// How many messages are asked for at once.
pub const BATCH_SIZE: usize = 1000;

/// How often, in milliseconds, the collector is asked whether to flush while no message comes.
pub const FLUSH_INTERVAL_MILLIS: u64 = 50;

/// How a source is told to stop.
#[derive(Debug, Clone, Copy, PartialEq, Eq, Structural)]
pub enum StopMode {
    Graceful,
    Immediate,
}

/// How a source has stopped.
#[derive(Debug, Clone, Copy, PartialEq, Eq, Structural)]
pub enum SourceFinishType {
    Graceful,
    Immediate,
}

/// What a running source is told.
#[derive(Debug, Clone, Copy, PartialEq, Eq, Structural)]
pub enum ControlMessage {
    Stop { mode: StopMode },
    /// Anything that this source does not act on.
    Other,
}

/// A request for messages of one partition.
#[derive(Debug, Clone, Copy, PartialEq, Eq, Structural)]
pub struct Fetch {
    pub partition: usize,
    pub offset: usize,
    pub batch_size: usize,
}

/// What happens to a consumer.
#[derive(Debug)]
pub enum Event {
    /// A request was answered.
    Response(MessageResponse),
    /// A request failed.
    FetchFailed,
    /// The flush interval has passed; `should_flush` is what the collector says then.
    Tick { should_flush: bool },
    /// The control channel gave a message, or is closed.
    Control(Option<ControlMessage>),
    /// The payload at hand was deserialized; `should_flush` is what the collector says then.
    Deserialized { should_flush: bool },
    /// The buffer was flushed.
    Flushed,
}

/// What a consumer wants done next.
#[derive(Debug, Clone, Copy, PartialEq, Eq, Structural)]
pub enum Action {
    /// Hand the payload at hand to the collector.
    Deserialize,
    /// Flush the collector's buffer.
    Flush,
    /// Send a request.
    Fetch(Fetch),
    /// Wait for what comes.
    Wait,
    /// Stop.
    Finish(SourceFinishType),
}

/// What a consumer is at.
#[derive(Debug)]
enum Phase {
    /// It waits for a response, a tick or a control message.
    Polling,
    /// It hands over the messages of a response; the one at `index` is at hand, and the buffer
    /// is being flushed after it where `flushing` is set.
    Delivering { response: MessageResponse, index: usize, flushing: bool },
    /// The buffer is being flushed between responses.
    Flushing,
    /// It has stopped.
    Stopped,
}

/// What a consumer is at, with the messages as a sequence.
pub enum PhaseView {
    Polling,
    Delivering { partition: usize, messages: Seq<Message>, index: int, flushing: bool },
    Flushing,
    Stopped,
}

/// Reads the partitions of a topic: it remembers, of every partition, the offset of the last
/// message that was handed over.
pub struct Consumer {
    offsets: HashMap<usize, usize>,
    phase: Phase,
}

/// The state of a consumer.
pub struct ConsumerView {
    pub offsets: Map<usize, usize>,
    pub phase: PhaseView,
}

impl View for Consumer {
    type V = ConsumerView;

    closed spec fn view(&self) -> ConsumerView {
        ConsumerView {
            offsets: self.offsets@,
            phase: match self.phase {
                Phase::Polling => PhaseView::Polling,
                Phase::Delivering { response, index, flushing } => PhaseView::Delivering {
                    partition: response.partition,
                    messages: response.messages@,
                    index: index as int,
                    flushing,
                },
                Phase::Flushing => PhaseView::Flushing,
                Phase::Stopped => PhaseView::Stopped,
            },
        }
    }
}

impl ConsumerView {
    /// The message at hand is one of those of the response.
    pub open spec fn wf(self) -> bool {
        match self.phase {
            PhaseView::Delivering { partition, messages, index, flushing } => 0 <= index
                < messages.len(),
            _ => true,
        }
    }

    /// `event` can happen now. A response has to hold messages or to be of a partition that is
    /// known.
    pub open spec fn accepts(self, event: Event) -> bool {
        match (self.phase, event) {
            (PhaseView::Polling, Event::Response(response)) => response.messages@.len() > 0
                || self.offsets.contains_key(response.partition),
            (PhaseView::Polling, Event::FetchFailed) => true,
            (PhaseView::Polling, Event::Tick { .. }) => true,
            (PhaseView::Polling, Event::Control(_)) => true,
            (
                PhaseView::Delivering { flushing, .. },
                Event::Deserialized { .. },
            ) => !flushing,
            (PhaseView::Delivering { flushing, .. }, Event::Flushed) => flushing,
            (PhaseView::Flushing, Event::Flushed) => true,
            _ => false,
        }
    }

    /// Goes on with the message at `index`, or asks for the next batch after the last.
    pub open spec fn deliver(
        self,
        partition: usize,
        messages: Seq<Message>,
        index: int,
    ) -> (ConsumerView, Action) {
        if index < messages.len() {
            (
                ConsumerView {
                    phase: PhaseView::Delivering { partition, messages, index, flushing: false },
                    ..self
                },
                Action::Deserialize,
            )
        } else {
            (
                ConsumerView { phase: PhaseView::Polling, ..self },
                Action::Fetch(
                    Fetch { partition, offset: self.offsets[partition], batch_size: BATCH_SIZE },
                ),
            )
        }
    }

    /// The message at hand is done: its offset is remembered.
    pub open spec fn delivered(
        self,
        partition: usize,
        messages: Seq<Message>,
        index: int,
    ) -> (ConsumerView, Action) {
        ConsumerView {
            offsets: self.offsets.insert(partition, messages[index].offset),
            ..self
        }.deliver(partition, messages, index + 1)
    }

    /// The next state, and what is to be done.
    pub open spec fn step(self, event: Event) -> (ConsumerView, Action) {
        match (self.phase, event) {
            (PhaseView::Polling, Event::Response(response)) => self.deliver(
                response.partition,
                response.messages@,
                0,
            ),
            (PhaseView::Polling, Event::Tick { should_flush }) => if should_flush {
                (ConsumerView { phase: PhaseView::Flushing, ..self }, Action::Flush)
            } else {
                (self, Action::Wait)
            },
            (PhaseView::Polling, Event::Control(Some(ControlMessage::Stop { mode }))) => (
                ConsumerView { phase: PhaseView::Stopped, ..self },
                Action::Finish(finish_type(mode)),
            ),
            (
                PhaseView::Delivering { partition, messages, index, .. },
                Event::Deserialized { should_flush },
            ) => if should_flush {
                (
                    ConsumerView {
                        phase: PhaseView::Delivering { partition, messages, index, flushing: true },
                        ..self
                    },
                    Action::Flush,
                )
            } else {
                self.delivered(partition, messages, index)
            },
            (
                PhaseView::Delivering { partition, messages, index, .. },
                Event::Flushed,
            ) => self.delivered(partition, messages, index),
            (PhaseView::Flushing, Event::Flushed) => (
                ConsumerView { phase: PhaseView::Polling, ..self },
                Action::Wait,
            ),
            _ => (self, Action::Wait),
        }
    }

    /// The payload of the message at hand.
    pub open spec fn payload(self) -> Option<Seq<u8>> {
        match self.phase {
            PhaseView::Delivering { messages, index, .. } => Some(messages[index].payload@),
            _ => None,
        }
    }
}

/// How a source that is told to stop in `mode` ends.
pub open spec fn finish_type(mode: StopMode) -> SourceFinishType {
    match mode {
        StopMode::Graceful => SourceFinishType::Graceful,
        StopMode::Immediate => SourceFinishType::Immediate,
    }
}

/// The offsets that the partitions below `partition_count` are read from: all zero.
pub open spec fn first_offsets(partition_count: usize) -> Map<usize, usize> {
    Map::new(|partition: usize| partition < partition_count, |partition: usize| 0usize)
}

/// The first request for each partition below `partition_count`, in their order.
pub open spec fn first_fetches(partition_count: usize) -> Seq<Fetch> {
    Seq::new(
        partition_count as nat,
        |partition: int|
            Fetch { partition: partition as usize, offset: 0, batch_size: BATCH_SIZE },
    )
}

impl Consumer {
    /// A consumer of the partitions below `partition_count`, and the first request for each of
    /// them.
    pub fn start(partition_count: usize) -> (res: (Consumer, Vec<Fetch>))
        ensures
            res.0@.wf(),
            res.0@.phase == PhaseView::Polling,
            res.0@.offsets == first_offsets(partition_count),
            res.1@ == first_fetches(partition_count),
            res.1@.len() == partition_count,
            forall|p: usize|
                p < partition_count ==> #[trigger] res.1@[p as int] == (Fetch {
                    partition: p,
                    offset: 0,
                    batch_size: 1000,
                }),
            forall|p: usize| #[trigger] res.0@.offsets.contains_key(p) <==> p < partition_count,
            forall|p: usize|
                p < partition_count ==> #[trigger] res.0@.offsets[p] == 0,
    {
        let mut offsets: HashMap<usize, usize> = HashMap::new();
        let mut fetches: Vec<Fetch> = Vec::new();
        for partition in 0..partition_count
            invariant
                offsets@ == first_offsets(partition),
                fetches@ == first_fetches(partition),
        {
            offsets.insert(partition, 0);
            fetches.push(Fetch { partition, offset: 0, batch_size: BATCH_SIZE });
            assert(offsets@ =~= first_offsets((partition + 1) as usize));
            assert(fetches@ =~= first_fetches((partition + 1) as usize));
        }
        (Consumer { offsets, phase: Phase::Polling }, fetches)
    }

    /// Whether `event` can happen now.
    pub fn can_accept(&self, event: &Event) -> (res: bool)
        ensures
            res == self@.accepts(*event),
    {
        match (&self.phase, event) {
            (Phase::Polling, Event::Response(response)) => response.messages.len() > 0
                || self.offsets.contains_key(&response.partition),
            (Phase::Polling, Event::FetchFailed) => true,
            (Phase::Polling, Event::Tick { .. }) => true,
            (Phase::Polling, Event::Control(_)) => true,
            (Phase::Delivering { flushing, .. }, Event::Deserialized { .. }) => !*flushing,
            (Phase::Delivering { flushing, .. }, Event::Flushed) => *flushing,
            (Phase::Flushing, Event::Flushed) => true,
            _ => false,
        }
    }

    /// The payload of the message at hand, where there is one.
    pub fn payload(&self) -> (res: Option<&[u8]>)
        requires
            self@.wf(),
        ensures
            res is Some == self@.payload() is Some,
            res matches Some(payload) ==> self@.payload() == Some(payload@),
            match self@.phase {
                PhaseView::Delivering { messages, index, .. } => res matches Some(payload)
                    && payload@ == messages[index].payload@,
                _ => res is None,
            },
    {
        match &self.phase {
            Phase::Delivering { response, index, .. } => Some(
                response.messages[*index].payload.as_slice(),
            ),
            _ => None,
        }
    }

    /// The offset of the last message of `partition` that was handed over, or the one that
    /// reading starts at; `None` where the partition is not known.
    pub fn offset(&self, partition: usize) -> (res: Option<usize>)
        ensures
            res == (if self@.offsets.contains_key(partition) {
                Some(self@.offsets[partition])
            } else {
                None
            }),
    {
        match self.offsets.get(&partition) {
            Some(offset) => Some(*offset),
            None => None,
        }
    }

    /// Goes on with the message at `index`, or asks for the next batch after the last.
    fn deliver(&mut self, response: MessageResponse, index: usize) -> (res: Action)
        requires
            index <= response.messages@.len(),
            index == response.messages@.len() ==> old(self)@.offsets.contains_key(
                response.partition,
            ),
        ensures
            (final(self)@, res) == old(self)@.deliver(
                response.partition,
                response.messages@,
                index as int,
            ),
            final(self)@.wf(),
    {
        if index < response.messages.len() {
            self.phase = Phase::Delivering { response, index, flushing: false };
            Action::Deserialize
        } else {
            let partition = response.partition;
            let offset: usize = *self.offsets.get(&partition).unwrap();
            self.phase = Phase::Polling;
            Action::Fetch(Fetch { partition, offset, batch_size: BATCH_SIZE })
        }
    }

    /// The message at hand is done.
    fn delivered(&mut self, response: MessageResponse, index: usize) -> (res: Action)
        requires
            index < response.messages@.len(),
        ensures
            (final(self)@, res) == old(self)@.delivered(
                response.partition,
                response.messages@,
                index as int,
            ),
            final(self)@.wf(),
    {
        let offset: usize = response.messages[index].offset;
        assert(response.messages@.len() == response.messages.len());
        self.offsets.insert(response.partition, offset);
        self.deliver(response, index + 1)
    }

    /// Takes an event in and says what is to be done next.
    ///
    /// A response is handed over message by message; after the last, the next batch of its
    /// partition is asked for, from the offset of that message on. A failed request is not
    /// repeated.
    pub fn step(&mut self, event: Event) -> (res: Action)
        requires
            old(self)@.wf(),
            old(self)@.accepts(event),
        ensures
            (final(self)@, res) == old(self)@.step(event),
            final(self)@.wf(),
            (old(self)@.phase is Polling && event is Tick) ==> {
                &&& res == (if event->Tick_should_flush {
                    Action::Flush
                } else {
                    Action::Wait
                })
                &&& final(self)@.offsets == old(self)@.offsets
                &&& final(self)@.phase == (if event->Tick_should_flush {
                    PhaseView::Flushing
                } else {
                    PhaseView::Polling
                })
            },
            (old(self)@.phase is Polling && event is FetchFailed) ==> {
                &&& res == Action::Wait
                &&& final(self)@ == old(self)@
            },
            (old(self)@.phase is Polling && event is Control) ==> {
                &&& final(self)@.offsets == old(self)@.offsets
                &&& match event->Control_0 {
                    Some(ControlMessage::Stop { mode: StopMode::Graceful }) => res
                        == Action::Finish(SourceFinishType::Graceful)
                        && final(self)@.phase is Stopped,
                    Some(ControlMessage::Stop { mode: StopMode::Immediate }) => res
                        == Action::Finish(SourceFinishType::Immediate)
                        && final(self)@.phase is Stopped,
                    _ => res == Action::Wait && final(self)@.phase is Polling,
                }
            },
            (old(self)@.phase is Flushing && event is Flushed) ==> {
                &&& res == Action::Wait
                &&& final(self)@.offsets == old(self)@.offsets
                &&& final(self)@.phase is Polling
            },
    {
        let mut phase = Phase::Polling;
        std::mem::swap(&mut self.phase, &mut phase);
        match (phase, event) {
            (Phase::Polling, Event::Response(response)) => self.deliver(response, 0),
            (Phase::Polling, Event::Tick { should_flush }) => {
                if should_flush {
                    self.phase = Phase::Flushing;
                    Action::Flush
                } else {
                    Action::Wait
                }
            },
            (Phase::Polling, Event::Control(Some(ControlMessage::Stop { mode }))) => {
                self.phase = Phase::Stopped;
                match mode {
                    StopMode::Graceful => Action::Finish(SourceFinishType::Graceful),
                    StopMode::Immediate => Action::Finish(SourceFinishType::Immediate),
                }
            },
            (
                Phase::Delivering { response, index, .. },
                Event::Deserialized { should_flush },
            ) => {
                if should_flush {
                    self.phase = Phase::Delivering { response, index, flushing: true };
                    Action::Flush
                } else {
                    self.delivered(response, index)
                }
            },
            (Phase::Delivering { response, index, .. }, Event::Flushed) => self.delivered(
                response,
                index,
            ),
            (Phase::Flushing, Event::Flushed) => Action::Wait,
            _ => Action::Wait,
        }
    }
}

/// The source operator of one topic.
#[derive(Debug)]
pub struct TimberFunc {
    topic: String,
    api_client: ApiClient,
}

impl TimberFunc {
    /// The topic that is read.
    pub closed spec fn spec_topic(&self) -> Seq<char> {
        self.topic@
    }

    /// The client that it is read with.
    pub closed spec fn spec_api_client(&self) -> ApiClient {
        self.api_client
    }

    /// An operator that reads `topic` with `api_client`.
    pub fn new(topic: String, api_client: ApiClient) -> (res: Self)
        ensures
            res.spec_topic() == topic@,
            res.spec_api_client() == api_client,
    {
        Self { topic, api_client }
    }

    /// The name of the operator.
    pub fn name(&self) -> (res: String)
        ensures
            res@ == "timber-"@ + self.spec_topic(),
    {
        let mut name = "timber-".to_owned();
        name.append(self.topic.as_str());
        name
    }

    /// The topic that is read.
    pub fn topic(&self) -> (res: &str)
        ensures
            res@ == self.spec_topic(),
    {
        self.topic.as_str()
    }

    /// The client that it is read with.
    pub fn api_client(&self) -> (res: &ApiClient)
        ensures
            *res == self.spec_api_client(),
    {
        &self.api_client
    }

    /// How payloads are deserialized: each is one string.
    pub fn deserializer_format(&self) -> (res: Format)
        ensures
            res == Format::RawString(RawStringFormat {  }),
    {
        Format::RawString(RawStringFormat {  })
    }

    /// Starts to read every partition of the topic from its first offset.
    pub fn start(&self, topic_info: &TopicInfo) -> (res: (Consumer, Vec<Fetch>))
        ensures
            res.0@.wf(),
            res.0@.phase == PhaseView::Polling,
            res.0@.offsets == first_offsets(topic_info.partition_count),
            res.1@ == first_fetches(topic_info.partition_count),
            res.1@.len() == topic_info.partition_count,
            forall|p: usize|
                p < topic_info.partition_count ==> #[trigger] res.1@[p as int] == (Fetch {
                    partition: p,
                    offset: 0,
                    batch_size: 1000,
                }),
            forall|p: usize| #[trigger] res.0@.offsets.contains_key(p) <==> p < topic_info.partition_count,
            forall|p: usize|
                p < topic_info.partition_count ==> #[trigger] res.0@.offsets[p] == 0,
    {
        Consumer::start(topic_info.partition_count)
    }
}

/// What handing over the messages of a response leads to.
pub struct Handover {
    /// The state at the end.
    pub state: ConsumerView,
    /// The payloads that were handed to the collector, in their order.
    pub payloads: Seq<Seq<u8>>,
    /// What is to be done at the end.
    pub action: Action,
    /// Every event on the way could happen.
    pub accepted: bool,
}

impl ConsumerView {
    /// Hands over one message for each of `flushes`, which says whether the collector wants to
    /// be flushed after it. `action` is what is to be done now.
    pub open spec fn hand_over(self, action: Action, flushes: Seq<bool>) -> Handover
        decreases flushes.len(),
    {
        if flushes.len() == 0 {
            Handover { state: self, payloads: Seq::empty(), action, accepted: true }
        } else {
            let event = Event::Deserialized { should_flush: flushes[0] };
            let after = self.step(event);
            let done = if flushes[0] {
                after.0.step(Event::Flushed)
            } else {
                after
            };
            let rest = done.0.hand_over(done.1, flushes.drop_first());
            Handover {
                payloads: seq![self.payload()->Some_0] + rest.payloads,
                accepted: action == Action::Deserialize && self.accepts(event) && (flushes[0]
                    ==> after.1 == Action::Flush && after.0.accepts(Event::Flushed))
                    && rest.accepted,
                ..rest
            }
        }
    }

    /// Every one of `events` can happen, each after those before it.
    pub open spec fn accepts_all(self, events: Seq<Event>) -> bool
        decreases events.len(),
    {
        events.len() == 0 || {
            &&& self.accepts_all(events.drop_last())
            &&& self.run(events.drop_last()).accepts(events.last())
        }
    }

    /// The state after `events`.
    pub open spec fn run(self, events: Seq<Event>) -> ConsumerView
        decreases events.len(),
    {
        if events.len() == 0 {
            self
        } else {
            self.run(events.drop_last()).step(events.last()).0
        }
    }

    /// How many requests for messages of `partition` are made while `events` happen.
    pub open spec fn requests(self, events: Seq<Event>, partition: usize) -> nat
        decreases events.len(),
    {
        if events.len() == 0 {
            0
        } else {
            self.requests(events.drop_last(), partition) + match self.run(events.drop_last()).step(
                events.last(),
            ).1 {
                Action::Fetch(fetch) => if fetch.partition == partition {
                    1nat
                } else {
                    0nat
                },
                _ => 0nat,
            }
        }
    }

    /// The partition and the offset of the message that `event` is the end of, if it is one: it
    /// was deserialized, and flushed where that was wanted.
    pub open spec fn done_by(self, event: Event) -> Option<(usize, usize)> {
        match (self.phase, event) {
            (
                PhaseView::Delivering { partition, messages, index, .. },
                Event::Deserialized { should_flush: false },
            ) => Some((partition, messages[index].offset)),
            (
                PhaseView::Delivering { partition, messages, index, .. },
                Event::Flushed,
            ) => Some((partition, messages[index].offset)),
            _ => None,
        }
    }

    /// The partitions and offsets of the messages that were handed over while `events` happened,
    /// in their order.
    pub open spec fn handed_over(self, events: Seq<Event>) -> Seq<(usize, usize)>
        decreases events.len(),
    {
        if events.len() == 0 {
            Seq::empty()
        } else {
            let log = self.handed_over(events.drop_last());
            match self.run(events.drop_last()).done_by(events.last()) {
                Some(done) => log.push(done),
                None => log,
            }
        }
    }

    /// One where messages of `partition` are being handed over, and else zero.
    pub open spec fn in_hand(self, partition: usize) -> nat {
        match self.phase {
            PhaseView::Delivering { partition: of, .. } => if of == partition {
                1
            } else {
                0
            },
            _ => 0,
        }
    }
}

/// The offset that comes last in `log` for `partition`.
pub open spec fn last_offset(log: Seq<(usize, usize)>, partition: usize) -> Option<usize>
    decreases log.len(),
{
    if log.len() == 0 {
        None
    } else if log.last().0 == partition {
        Some(log.last().1)
    } else {
        last_offset(log.drop_last(), partition)
    }
}

/// How many of `events` are responses with messages of `partition`.
pub open spec fn responses(events: Seq<Event>, partition: usize) -> nat
    decreases events.len(),
{
    if events.len() == 0 {
        0
    } else {
        responses(events.drop_last(), partition) + match events.last() {
            Event::Response(response) => if response.partition == partition {
                1nat
            } else {
                0nat
            },
            _ => 0nat,
        }
    }
}

proof fn lemma_hand_over(
    state: ConsumerView,
    partition: usize,
    messages: Seq<Message>,
    index: int,
    flushes: Seq<bool>,
)
    requires
        0 <= index < messages.len(),
        state.phase == (PhaseView::Delivering { partition, messages, index, flushing: false }),
        flushes.len() == messages.len() - index,
    ensures
        ({
            let end = state.hand_over(Action::Deserialize, flushes);
            let offset = messages.last().offset;
            &&& end.accepted
            &&& end.payloads == messages.skip(index).map_values(|m: Message| m.payload@)
            &&& end.state == ConsumerView {
                offsets: state.offsets.insert(partition, offset),
                phase: PhaseView::Polling,
            }
            &&& end.action == Action::Fetch(Fetch { partition, offset, batch_size: BATCH_SIZE })
        }),
    decreases flushes.len(),
{
    let payload = |m: Message| m.payload@;
    let done = state.delivered(partition, messages, index);
    let rest = flushes.drop_first();
    assert(messages.skip(index).map_values(payload) =~= seq![messages[index].payload@]
        + messages.skip(index + 1).map_values(payload));
    if index + 1 < messages.len() {
        lemma_hand_over(done.0, partition, messages, index + 1, rest);
        assert(state.offsets.insert(partition, messages[index].offset).insert(
            partition,
            messages.last().offset,
        ) =~= state.offsets.insert(partition, messages.last().offset));
    } else {
        assert(rest.len() == 0);
        assert(messages.skip(index + 1).map_values(payload) =~= Seq::<Seq<u8>>::empty());
    }
}

/// The messages of a response are handed over once each and in their order, whenever the
/// collector wants to be flushed in between. Then the next batch of the same partition is asked
/// for, from the offset of the last message on, or from the offset that was known before where
/// the response is empty.
pub proof fn law_response_is_handed_over(
    state: ConsumerView,
    response: MessageResponse,
    flushes: Seq<bool>,
)
    requires
        state.phase == PhaseView::Polling,
        state.accepts(Event::Response(response)),
        flushes.len() == response.messages@.len(),
    ensures
        ({
            let first = state.step(Event::Response(response));
            let end = first.0.hand_over(first.1, flushes);
            let partition = response.partition;
            let messages = response.messages@;
            let offset = if messages.len() > 0 {
                messages.last().offset
            } else {
                state.offsets[partition]
            };
            &&& end.accepted
            &&& end.payloads == messages.map_values(|m: Message| m.payload@)
            &&& end.state == ConsumerView {
                offsets: state.offsets.insert(partition, offset),
                phase: PhaseView::Polling,
            }
            &&& end.action == Action::Fetch(Fetch { partition, offset, batch_size: BATCH_SIZE })
        }),
{
    let messages = response.messages@;
    let partition = response.partition;
    if messages.len() > 0 {
        let first = state.step(Event::Response(response));
        lemma_hand_over(first.0, partition, messages, 0, flushes);
        assert(messages.skip(0) =~= messages);
    } else {
        assert(messages.map_values(|m: Message| m.payload@) =~= Seq::<Seq<u8>>::empty());
        assert(state.offsets.insert(partition, state.offsets[partition]) =~= state.offsets);
    }
}

/// An event leaves the offset of every partition alone but that of the one whose messages are
/// being handed over, and forgets no partition.
pub proof fn law_step_keeps_offsets(state: ConsumerView, event: Event, partition: usize)
    requires
        state.accepts(event),
    ensures
        state.offsets.contains_key(partition) ==> state.step(event).0.offsets.contains_key(
            partition,
        ),
        state.in_hand(partition) == 0 ==> state.step(event).0.offsets.contains_key(partition)
            == state.offsets.contains_key(partition),
        state.in_hand(partition) == 0 && state.offsets.contains_key(partition) ==> state.step(
            event,
        ).0.offsets[partition] == state.offsets[partition],
{
}

/// A partition that is known stays known, so that a response of it can be taken in whenever the
/// consumer waits for one, also one without messages.
pub proof fn law_known_partition_is_accepted(
    state: ConsumerView,
    events: Seq<Event>,
    response: MessageResponse,
)
    requires
        state.wf(),
        state.offsets.contains_key(response.partition),
        state.accepts_all(events),
    ensures
        state.run(events).wf(),
        state.run(events).offsets.contains_key(response.partition),
        state.run(events).phase == PhaseView::Polling ==> state.run(events).accepts(
            Event::Response(response),
        ),
    decreases events.len(),
{
    if events.len() > 0 {
        law_known_partition_is_accepted(state, events.drop_last(), response);
        law_step_keeps_offsets(
            state.run(events.drop_last()),
            events.last(),
            response.partition,
        );
    }
}

/// A source that was started can take in a response of any of its partitions whenever it waits
/// for one, whatever has happened.
pub proof fn law_started_source_accepts_its_partitions(
    partition_count: usize,
    events: Seq<Event>,
    response: MessageResponse,
)
    requires
        response.partition < partition_count,
        (ConsumerView {
            offsets: first_offsets(partition_count),
            phase: PhaseView::Polling,
        }).accepts_all(events),
    ensures
        ({
            let state = (ConsumerView {
                offsets: first_offsets(partition_count),
                phase: PhaseView::Polling,
            }).run(events);
            state.phase == PhaseView::Polling ==> state.accepts(Event::Response(response))
        }),
{
    law_known_partition_is_accepted(
        ConsumerView { offsets: first_offsets(partition_count), phase: PhaseView::Polling },
        events,
        response,
    );
}

/// Every response leads to one request for the same partition, and nothing else leads to a
/// request: but for the response that is being handed over, there were as many requests as
/// responses.
pub proof fn law_one_request_for_each_response(
    state: ConsumerView,
    events: Seq<Event>,
    partition: usize,
)
    requires
        state.wf(),
        state.accepts_all(events),
    ensures
        state.requests(events, partition) + state.run(events).in_hand(partition) == responses(
            events,
            partition,
        ) + state.in_hand(partition),
        state.run(events).wf(),
    decreases events.len(),
{
    if events.len() > 0 {
        law_one_request_for_each_response(state, events.drop_last(), partition);
    }
}

/// A request asks for a full batch, from the offset that is remembered of its partition on.
pub proof fn law_request_starts_at_the_offset(state: ConsumerView, event: Event)
    requires
        state.accepts(event),
    ensures
        state.step(event).1 matches Action::Fetch(fetch) ==> {
            &&& state.step(event).0.offsets.contains_key(fetch.partition)
            &&& fetch.offset == state.step(event).0.offsets[fetch.partition]
            &&& fetch.batch_size == BATCH_SIZE
        },
{
}

/// The offset of a partition is that of the last of its messages that was handed over, and the
/// one that it had at first where there was none.
pub proof fn law_offset_is_of_the_last_message(
    state: ConsumerView,
    events: Seq<Event>,
    partition: usize,
)
    requires
        state.wf(),
        state.accepts_all(events),
    ensures
        match last_offset(state.handed_over(events), partition) {
            Some(offset) => {
                &&& state.run(events).offsets.contains_key(partition)
                &&& state.run(events).offsets[partition] == offset
            },
            None => {
                &&& state.run(events).offsets.contains_key(partition)
                    == state.offsets.contains_key(partition)
                &&& state.offsets.contains_key(partition) ==> state.run(events).offsets[partition]
                    == state.offsets[partition]
            },
        },
        state.run(events).wf(),
    decreases events.len(),
{
    if events.len() > 0 {
        let before = events.drop_last();
        law_offset_is_of_the_last_message(state, before, partition);
        let log = state.handed_over(before);
        let now = state.run(before).done_by(events.last());
        if now is Some {
            assert(log.push(now->Some_0).drop_last() =~= log);
        }
    }
}

/// Nothing happens to a consumer that was stopped, and it ends as it was told to.
pub proof fn law_stop_is_final(state: ConsumerView, mode: StopMode, event: Event)
    requires
        state.phase == PhaseView::Polling,
    ensures
        ({
            let end = state.step(Event::Control(Some(ControlMessage::Stop { mode })));
            &&& state.accepts(Event::Control(Some(ControlMessage::Stop { mode })))
            &&& end.1 == Action::Finish(finish_type(mode))
            &&& !end.0.accepts(event)
        }),
{
}

/// Every partition is asked for once at first, in their order, from its start and for a full batch:
/// there are as many first requests as partitions, and each is for the offset that is remembered of
/// its partition. No other partition is known.
pub proof fn law_every_partition_is_asked_for_first(partition_count: usize, partition: usize)
    ensures
        first_fetches(partition_count).len() == partition_count,
        first_offsets(partition_count).contains_key(partition) <==> partition < partition_count,
        partition < partition_count ==> {
            let fetch = first_fetches(partition_count)[partition as int];
            &&& fetch.partition == partition
            &&& fetch.offset == 0
            &&& fetch.offset == first_offsets(partition_count)[partition]
            &&& fetch.batch_size == 1000
        },
{
}

/// A topic with more partitions is started as one with fewer, with the requests for the further ones
/// behind those of the first.
pub proof fn law_more_partitions_add_requests(fewer: usize, more: usize)
    requires
        fewer <= more,
    ensures
        first_fetches(more).take(fewer as int) == first_fetches(fewer),
        forall|i: int|
            fewer <= i < more ==> (#[trigger] first_fetches(more)[i]).partition == i
                && !first_offsets(fewer).contains_key(first_fetches(more)[i].partition),
{
    assert(first_fetches(more).take(fewer as int) =~= first_fetches(fewer));
}

/// A tick leads to a flush exactly where the collector wants one, whatever is remembered; it can come
/// whenever the consumer waits. When the flush is done the consumer is where it was, and a tick that
/// leads to none leaves it there.
pub proof fn law_tick_flushes_where_wanted(state: ConsumerView, should_flush: bool)
    requires
        state.phase == PhaseView::Polling,
    ensures
        state.accepts(Event::Tick { should_flush }),
        state.step(Event::Tick { should_flush }).1 == Action::Flush <==> should_flush,
        state.step(Event::Tick { should_flush }).1 == Action::Wait <==> !should_flush,
        state.step(Event::Tick { should_flush }).0.offsets == state.offsets,
        !should_flush ==> state.step(Event::Tick { should_flush }).0 == state,
        should_flush ==> {
            let flushing = state.step(Event::Tick { should_flush }).0;
            &&& flushing.phase == PhaseView::Flushing
            &&& flushing.accepts(Event::Flushed)
            &&& flushing.step(Event::Flushed) == (state, Action::Wait)
        },
        FLUSH_INTERVAL_MILLIS == 50,
{
}

/// A consumer that waits stops where it is told to, in the way it is told, and at no other control
/// message; a failed request and a control message that is not acted on leave it as it is.
pub proof fn law_control_is_obeyed(state: ConsumerView, control: Option<ControlMessage>)
    requires
        state.phase == PhaseView::Polling,
    ensures
        state.accepts(Event::Control(control)),
        state.accepts(Event::FetchFailed),
        state.step(Event::FetchFailed) == (state, Action::Wait),
        state.step(Event::Control(control)).0.offsets == state.offsets,
        control matches Some(ControlMessage::Stop { mode }) ==> {
            &&& state.step(Event::Control(control)).0.phase == PhaseView::Stopped
            &&& mode == StopMode::Graceful ==> state.step(Event::Control(control)).1
                == Action::Finish(SourceFinishType::Graceful)
            &&& mode == StopMode::Immediate ==> state.step(Event::Control(control)).1
                == Action::Finish(SourceFinishType::Immediate)
        },
        !(control matches Some(ControlMessage::Stop { .. })) ==> state.step(Event::Control(control))
            == (state, Action::Wait),
{
}

/// A response with messages is handed over from its first message on. One without leads at once to
/// the next request for its partition, from the offset that is remembered. Neither changes an offset.
pub proof fn law_response_is_taken_up(state: ConsumerView, response: MessageResponse)
    requires
        state.phase == PhaseView::Polling,
    ensures
        state.accepts(Event::Response(response)) <==> response.messages@.len() > 0
            || state.offsets.contains_key(response.partition),
        state.step(Event::Response(response)).0.offsets == state.offsets,
        response.messages@.len() > 0 ==> {
            let next = state.step(Event::Response(response));
            &&& next.1 == Action::Deserialize
            &&& next.0.phase == (PhaseView::Delivering {
                partition: response.partition,
                messages: response.messages@,
                index: 0,
                flushing: false,
            })
            &&& next.0.payload() == Some(response.messages@[0].payload@)
        },
        response.messages@.len() == 0 ==> state.step(Event::Response(response)) == (
            state,
            Action::Fetch(
                Fetch {
                    partition: response.partition,
                    offset: state.offsets[response.partition],
                    batch_size: 1000,
                },
            ),
        ),
{
}

/// A message that was handed over is flushed exactly where the collector wants that, and with or
/// without a flush it ends alike: its offset is remembered for its partition and for no other, and
/// the next message is at hand, or behind the last one the next batch is asked for from that offset.
pub proof fn law_message_is_done_with_or_without_a_flush(
    offsets: Map<usize, usize>,
    partition: usize,
    messages: Seq<Message>,
    index: int,
    other: usize,
)
    requires
        0 <= index < messages.len(),
        other != partition,
    ensures
        ({
            let state = ConsumerView {
                offsets,
                phase: PhaseView::Delivering { partition, messages, index, flushing: false },
            };
            let flushing = state.step(Event::Deserialized { should_flush: true });
            let done = state.step(Event::Deserialized { should_flush: false });
            &&& state.wf()
            &&& state.payload() == Some(messages[index].payload@)
            &&& state.accepts(Event::Deserialized { should_flush: true })
            &&& state.accepts(Event::Deserialized { should_flush: false })
            &&& flushing.1 == Action::Flush
            &&& flushing.0.offsets == offsets
            &&& flushing.0.payload() == state.payload()
            &&& flushing.0.accepts(Event::Flushed)
            &&& flushing.0.step(Event::Flushed) == done
            &&& done.0.offsets.contains_key(partition)
            &&& done.0.offsets[partition] == messages[index].offset
            &&& done.0.offsets.contains_key(other) == offsets.contains_key(other)
            &&& offsets.contains_key(other) ==> done.0.offsets[other] == offsets[other]
            &&& index + 1 < messages.len() ==> {
                &&& done.1 == Action::Deserialize
                &&& done.0.phase == (PhaseView::Delivering {
                    partition,
                    messages,
                    index: index + 1,
                    flushing: false,
                })
                &&& done.0.payload() == Some(messages[index + 1].payload@)
            }
            &&& index + 1 == messages.len() ==> {
                &&& done.1 == Action::Fetch(
                    Fetch { partition, offset: messages[index].offset, batch_size: 1000 },
                )
                &&& done.0.phase == PhaseView::Polling
            }
        }),
{
}

/// Events come in turn: responses, failures, ticks and control messages while the consumer waits, the
/// end of deserializing or of a flush only where that was asked for, and none once it has stopped.
pub proof fn law_events_come_in_turn(state: ConsumerView, event: Event)
    ensures
        state.accepts(event) ==> match event {
            Event::Response(_) => state.phase is Polling,
            Event::FetchFailed => state.phase is Polling,
            Event::Tick { .. } => state.phase is Polling,
            Event::Control(_) => state.phase is Polling,
            Event::Deserialized { .. } => state.phase matches PhaseView::Delivering {
                flushing,
                ..
            } && !flushing,
            Event::Flushed => state.phase is Flushing || (state.phase matches PhaseView::Delivering {
                flushing,
                ..
            } && flushing),
        },
        state.phase is Flushing && event is Flushed ==> state.accepts(event),
        state.phase is Stopped ==> !state.accepts(event),
        state.payload() is Some <==> state.phase is Delivering,
        !(state.phase is Delivering) ==> state.wf(),
        state.phase matches PhaseView::Delivering { messages, index, .. } ==> (state.wf() <==> 0
            <= index < messages.len()),
{
}

} // verus!
