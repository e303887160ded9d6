//! What is called when something happens to an entity.
use vstd::prelude::*;

verus! {

/// Something that can happen to an entity.
#[derive(Debug, Clone, Copy, PartialEq, Eq, Structural)]
pub enum Event {
    DataAvailable,
    SampleLost,
    SampleRejected,
    LivelinessChanged,
    RequestedDeadlineMissed,
    RequestedIncompatibleQos,
    SubscriptionMatched,
    LivelinessLost,
    OfferedDeadlineMissed,
    OfferedIncompatibleQos,
    PublicationMatched,
    InconsistentTopic,
    DataOnReaders,
}

impl Event {
    /// The place of an event in the order in which they are registered.
    pub open spec fn place(self) -> int {
        match self {
            Event::DataAvailable => 0,
            Event::SampleLost => 1,
            Event::SampleRejected => 2,
            Event::LivelinessChanged => 3,
            Event::RequestedDeadlineMissed => 4,
            Event::RequestedIncompatibleQos => 5,
            Event::SubscriptionMatched => 6,
            Event::LivelinessLost => 7,
            Event::OfferedDeadlineMissed => 8,
            Event::OfferedIncompatibleQos => 9,
            Event::PublicationMatched => 10,
            Event::InconsistentTopic => 11,
            Event::DataOnReaders => 12,
        }
    }

    fn all() -> (r: [Event; 13])
        ensures
            r@ == all_events(),
    {
        let events = [
            Event::DataAvailable,
            Event::SampleLost,
            Event::SampleRejected,
            Event::LivelinessChanged,
            Event::RequestedDeadlineMissed,
            Event::RequestedIncompatibleQos,
            Event::SubscriptionMatched,
            Event::LivelinessLost,
            Event::OfferedDeadlineMissed,
            Event::OfferedIncompatibleQos,
            Event::PublicationMatched,
            Event::InconsistentTopic,
            Event::DataOnReaders,
        ];
        assert(events@ =~= all_events());
        events
    }

    fn index(self) -> (r: usize)
        ensures
            r == self.place(),
            r < 13,
    {
        match self {
            Event::DataAvailable => 0,
            Event::SampleLost => 1,
            Event::SampleRejected => 2,
            Event::LivelinessChanged => 3,
            Event::RequestedDeadlineMissed => 4,
            Event::RequestedIncompatibleQos => 5,
            Event::SubscriptionMatched => 6,
            Event::LivelinessLost => 7,
            Event::OfferedDeadlineMissed => 8,
            Event::OfferedIncompatibleQos => 9,
            Event::PublicationMatched => 10,
            Event::InconsistentTopic => 11,
            Event::DataOnReaders => 12,
        }
    }
}

/// All events, in the order in which they are registered.
pub open spec fn all_events() -> Seq<Event> {
    seq![
        Event::DataAvailable,
        Event::SampleLost,
        Event::SampleRejected,
        Event::LivelinessChanged,
        Event::RequestedDeadlineMissed,
        Event::RequestedIncompatibleQos,
        Event::SubscriptionMatched,
        Event::LivelinessLost,
        Event::OfferedDeadlineMissed,
        Event::OfferedIncompatibleQos,
        Event::PublicationMatched,
        Event::InconsistentTopic,
        Event::DataOnReaders,
    ]
}

/// For each event what is called, in its order. Nothing can be added once the
/// listener has been hooked.
#[derive(Debug)]
pub struct DdsListener<C> {
    slots: Vec<Vec<C>>,
    hooked: bool,
}

impl<C> DdsListener<C> {
    pub closed spec fn wf(&self) -> bool {
        self.slots@.len() == 13
    }

    /// What is called for an event.
    pub closed spec fn calls_for(&self, event: Event) -> Seq<C> {
        self.slots@[event.place()]@
    }

    pub closed spec fn is_hooked(&self) -> bool {
        self.hooked
    }

    /// Whether this is `other` with other calls for one event.
    pub open spec fn changed_at(&self, other: Self, event: Event, calls: Seq<C>) -> bool {
        &&& self.wf()
        &&& self.is_hooked() == other.is_hooked()
        &&& forall|e: Event| #[trigger]
            self.calls_for(e) == if e == event {
                calls
            } else {
                other.calls_for(e)
            }
    }

    /// A listener that calls nothing.
    pub fn new() -> (r: Self)
        ensures
            r.wf(),
            !r.is_hooked(),
            forall|e: Event| #[trigger] r.calls_for(e) == Seq::<C>::empty(),
    {
        let mut slots: Vec<Vec<C>> = Vec::new();
        let mut i: usize = 0;
        while i < 13
            invariant
                i <= 13,
                slots@.len() == i,
                forall|j: int| 0 <= j < i ==> (#[trigger] slots@[j])@ == Seq::<C>::empty(),
            decreases 13 - i,
        {
            slots.push(Vec::new());
            i = i + 1;
        }
        DdsListener { slots, hooked: false }
    }

    /// Calls `callback`, and nothing else, when the event happens.
    pub fn on(self, event: Event, callback: C) -> (r: Self)
        requires
            self.wf(),
        ensures
            self.is_hooked() ==> r == self,
            !self.is_hooked() ==> r.changed_at(self, event, seq![callback]),
    {
        let mut listener = self;
        if !listener.hooked {
            let mut calls: Vec<C> = Vec::new();
            calls.push(callback);
            assert(calls@ =~= seq![callback]);
            let i: usize = event.index();
            listener.slots[i] = calls;
            proof {
                assert forall|e: Event| #[trigger]
                    listener.calls_for(e) == if e == event {
                        seq![callback]
                    } else {
                        self.calls_for(e)
                    } by {
                    assert(0 <= e.place() < 13);
                    if e != event {
                        assert(e.place() != event.place());
                    }
                }
            }
        }
        listener
    }

    /// Calls `callback` when the event happens, before what was called so far.
    pub fn chain(self, event: Event, callback: C) -> (r: Self)
        requires
            self.wf(),
        ensures
            self.is_hooked() ==> r == self,
            !self.is_hooked() ==> r.changed_at(
                self,
                event,
                seq![callback] + self.calls_for(event),
            ),
    {
        let mut listener = self;
        if !listener.hooked {
            let i: usize = event.index();
            let mut calls: Vec<C> = Vec::new();
            calls.push(callback);
            let mut previous: Vec<C> = Vec::new();
            std::mem::swap(&mut previous, &mut listener.slots[i]);
            calls.append(&mut previous);
            assert(calls@ =~= seq![callback] + self.calls_for(event));
            listener.slots[i] = calls;
            proof {
                assert forall|e: Event| #[trigger]
                    listener.calls_for(e) == if e == event {
                        seq![callback] + self.calls_for(event)
                    } else {
                        self.calls_for(e)
                    } by {
                    assert(0 <= e.place() < 13);
                    if e != event {
                        assert(e.place() != event.place());
                    }
                }
            }
        }
        listener
    }

    /// Ends the setting up of the listener.
    pub fn hook(self) -> (r: Self)
        requires
            self.wf(),
        ensures
            r.wf(),
            r.is_hooked(),
            forall|e: Event| #[trigger] r.calls_for(e) == self.calls_for(e),
    {
        let mut listener = self;
        listener.hooked = true;
        listener
    }

    /// What is to be called for an event, in this order.
    pub fn calls(&self, event: Event) -> (r: &Vec<C>)
        requires
            self.wf(),
        ensures
            r@ == self.calls_for(event),
    {
        let i: usize = event.index();
        &self.slots[i]
    }

    /// Whether anything is called for an event.
    pub fn has_calls(&self, event: Event) -> (r: bool)
        requires
            self.wf(),
        ensures
            r == (self.calls_for(event).len() > 0),
    {
        self.calls(event).len() > 0
    }

    /// The events for which something is called, in their order: those for
    /// which DDS has to report to the listener.
    pub fn registered_events(&self) -> (r: Vec<Event>)
        requires
            self.wf(),
        ensures
            r@ == registered(*self, 13),
    {
        let mut found: Vec<Event> = Vec::new();
        let events = Event::all();
        let mut i: usize = 0;
        assert(found@ =~= registered(*self, 0));
        while i < 13
            invariant
                self.wf(),
                i <= 13,
                events@ == all_events(),
                found@ == registered(*self, i as nat),
            decreases 13 - i,
        {
            let event = events[i];
            if self.has_calls(event) {
                found.push(event);
            }
            i = i + 1;
        }
        found
    }

    pub fn on_data_available(self, callback: C) -> (r: Self)
        requires
            self.wf(),
        ensures
            self.is_hooked() ==> r == self,
            !self.is_hooked() ==> r.changed_at(self, Event::DataAvailable, seq![callback]),
    {
        self.on(Event::DataAvailable, callback)
    }

    pub fn on_sample_lost(self, callback: C) -> (r: Self)
        requires
            self.wf(),
        ensures
            self.is_hooked() ==> r == self,
            !self.is_hooked() ==> r.changed_at(self, Event::SampleLost, seq![callback]),
    {
        self.on(Event::SampleLost, callback)
    }

    pub fn on_sample_rejected(self, callback: C) -> (r: Self)
        requires
            self.wf(),
        ensures
            self.is_hooked() ==> r == self,
            !self.is_hooked() ==> r.changed_at(self, Event::SampleRejected, seq![callback]),
    {
        self.on(Event::SampleRejected, callback)
    }

    pub fn on_liveliness_changed(self, callback: C) -> (r: Self)
        requires
            self.wf(),
        ensures
            self.is_hooked() ==> r == self,
            !self.is_hooked() ==> r.changed_at(self, Event::LivelinessChanged, seq![callback]),
    {
        self.on(Event::LivelinessChanged, callback)
    }

    pub fn on_requested_deadline_missed(self, callback: C) -> (r: Self)
        requires
            self.wf(),
        ensures
            self.is_hooked() ==> r == self,
            !self.is_hooked() ==> r.changed_at(self, Event::RequestedDeadlineMissed, seq![callback]),
    {
        self.on(Event::RequestedDeadlineMissed, callback)
    }

    pub fn on_requested_incompatible_qos(self, callback: C) -> (r: Self)
        requires
            self.wf(),
        ensures
            self.is_hooked() ==> r == self,
            !self.is_hooked() ==> r.changed_at(self, Event::RequestedIncompatibleQos, seq![callback]),
    {
        self.on(Event::RequestedIncompatibleQos, callback)
    }

    pub fn on_subscription_matched(self, callback: C) -> (r: Self)
        requires
            self.wf(),
        ensures
            self.is_hooked() ==> r == self,
            !self.is_hooked() ==> r.changed_at(self, Event::SubscriptionMatched, seq![callback]),
    {
        self.on(Event::SubscriptionMatched, callback)
    }

    pub fn on_liveliness_lost(self, callback: C) -> (r: Self)
        requires
            self.wf(),
        ensures
            self.is_hooked() ==> r == self,
            !self.is_hooked() ==> r.changed_at(self, Event::LivelinessLost, seq![callback]),
    {
        self.on(Event::LivelinessLost, callback)
    }

    pub fn on_offered_deadline_missed(self, callback: C) -> (r: Self)
        requires
            self.wf(),
        ensures
            self.is_hooked() ==> r == self,
            !self.is_hooked() ==> r.changed_at(self, Event::OfferedDeadlineMissed, seq![callback]),
    {
        self.on(Event::OfferedDeadlineMissed, callback)
    }

    pub fn on_offered_incompatible_qos(self, callback: C) -> (r: Self)
        requires
            self.wf(),
        ensures
            self.is_hooked() ==> r == self,
            !self.is_hooked() ==> r.changed_at(self, Event::OfferedIncompatibleQos, seq![callback]),
    {
        self.on(Event::OfferedIncompatibleQos, callback)
    }

    pub fn on_publication_matched(self, callback: C) -> (r: Self)
        requires
            self.wf(),
        ensures
            self.is_hooked() ==> r == self,
            !self.is_hooked() ==> r.changed_at(self, Event::PublicationMatched, seq![callback]),
    {
        self.on(Event::PublicationMatched, callback)
    }

    pub fn on_inconsistent_topic(self, callback: C) -> (r: Self)
        requires
            self.wf(),
        ensures
            self.is_hooked() ==> r == self,
            !self.is_hooked() ==> r.changed_at(self, Event::InconsistentTopic, seq![callback]),
    {
        self.on(Event::InconsistentTopic, callback)
    }

    pub fn on_data_on_readers(self, callback: C) -> (r: Self)
        requires
            self.wf(),
        ensures
            self.is_hooked() ==> r == self,
            !self.is_hooked() ==> r.changed_at(self, Event::DataOnReaders, seq![callback]),
    {
        self.on(Event::DataOnReaders, callback)
    }
}

/// Those of the first `n` events for which something is called.
pub open spec fn registered<C>(listener: DdsListener<C>, n: nat) -> Seq<Event>
    decreases n,
{
    if n == 0 {
        Seq::empty()
    } else {
        let before = registered(listener, (n - 1) as nat);
        let event = all_events()[n - 1];
        if listener.calls_for(event).len() > 0 {
            before.push(event)
        } else {
            before
        }
    }
}

impl<C> Default for DdsListener<C> {
    fn default() -> (r: Self)
        ensures
            r.wf(),
            !r.is_hooked(),
            forall|e: Event| #[trigger] r.calls_for(e) == Seq::<C>::empty(),
    {
        DdsListener::new()
    }
}

/// A listener that is being set up.
#[derive(Debug)]
pub struct DdsListenerBuilder<C> {
    listener: DdsListener<C>,
}

impl<C> DdsListenerBuilder<C> {
    pub closed spec fn wf(&self) -> bool {
        self.listener.wf() && !self.listener.is_hooked()
    }

    /// What will be called for an event.
    pub closed spec fn calls_for(&self, event: Event) -> Seq<C> {
        self.listener.calls_for(event)
    }

    /// Whether this is `other` with other calls for one event.
    pub open spec fn changed_at(&self, other: Self, event: Event, calls: Seq<C>) -> bool {
        &&& self.wf()
        &&& forall|e: Event| #[trigger]
            self.calls_for(e) == if e == event {
                calls
            } else {
                other.calls_for(e)
            }
    }

    pub fn new() -> (r: Self)
        ensures
            r.wf(),
            forall|e: Event| #[trigger] r.calls_for(e) == Seq::<C>::empty(),
    {
        DdsListenerBuilder { listener: DdsListener::new() }
    }

    /// The listener, set up.
    pub fn build(self) -> (r: DdsListener<C>)
        requires
            self.wf(),
        ensures
            r.wf(),
            r.is_hooked(),
            forall|e: Event| #[trigger] r.calls_for(e) == self.calls_for(e),
    {
        self.listener.hook()
    }

    /// What will be called for an event, in this order.
    pub fn calls(&self, event: Event) -> (r: &Vec<C>)
        requires
            self.wf(),
        ensures
            r@ == self.calls_for(event),
    {
        self.listener.calls(event)
    }

    /// Calls `callback`, and nothing else, when the event happens.
    pub fn on(self, event: Event, callback: C) -> (r: Self)
        requires
            self.wf(),
        ensures
            r.changed_at(self, event, seq![callback]),
    {
        let listener = self.listener.on(event, callback);
        let r = DdsListenerBuilder { listener };
        proof {
            assert forall|e: Event| #[trigger]
                r.calls_for(e) == if e == event {
                    seq![callback]
                } else {
                    self.calls_for(e)
                } by {
                assert(r.calls_for(e) == listener.calls_for(e));
            }
        }
        r
    }

    /// Calls `callback` when the event happens, before what was called so far.
    pub fn chain(self, event: Event, callback: C) -> (r: Self)
        requires
            self.wf(),
        ensures
            r.changed_at(self, event, seq![callback] + self.calls_for(event)),
    {
        let listener = self.listener.chain(event, callback);
        let r = DdsListenerBuilder { listener };
        proof {
            assert forall|e: Event| #[trigger]
                r.calls_for(e) == if e == event {
                    seq![callback] + self.calls_for(event)
                } else {
                    self.calls_for(e)
                } by {
                assert(r.calls_for(e) == listener.calls_for(e));
            }
        }
        r
    }

    pub fn on_data_available(self, callback: C) -> (r: Self)
        requires
            self.wf(),
        ensures
            r.changed_at(self, Event::DataAvailable, seq![callback]),
    {
        self.on(Event::DataAvailable, callback)
    }

    pub fn chain_data_available(self, callback: C) -> (r: Self)
        requires
            self.wf(),
        ensures
            r.changed_at(
                self,
                Event::DataAvailable,
                seq![callback] + self.calls_for(Event::DataAvailable),
            ),
    {
        self.chain(Event::DataAvailable, callback)
    }

    pub fn on_sample_lost(self, callback: C) -> (r: Self)
        requires
            self.wf(),
        ensures
            r.changed_at(self, Event::SampleLost, seq![callback]),
    {
        self.on(Event::SampleLost, callback)
    }

    pub fn chain_sample_lost(self, callback: C) -> (r: Self)
        requires
            self.wf(),
        ensures
            r.changed_at(
                self,
                Event::SampleLost,
                seq![callback] + self.calls_for(Event::SampleLost),
            ),
    {
        self.chain(Event::SampleLost, callback)
    }

    pub fn on_sample_rejected(self, callback: C) -> (r: Self)
        requires
            self.wf(),
        ensures
            r.changed_at(self, Event::SampleRejected, seq![callback]),
    {
        self.on(Event::SampleRejected, callback)
    }

    pub fn chain_sample_rejected(self, callback: C) -> (r: Self)
        requires
            self.wf(),
        ensures
            r.changed_at(
                self,
                Event::SampleRejected,
                seq![callback] + self.calls_for(Event::SampleRejected),
            ),
    {
        self.chain(Event::SampleRejected, callback)
    }

    pub fn on_liveliness_changed(self, callback: C) -> (r: Self)
        requires
            self.wf(),
        ensures
            r.changed_at(self, Event::LivelinessChanged, seq![callback]),
    {
        self.on(Event::LivelinessChanged, callback)
    }

    pub fn chain_liveliness_changed(self, callback: C) -> (r: Self)
        requires
            self.wf(),
        ensures
            r.changed_at(
                self,
                Event::LivelinessChanged,
                seq![callback] + self.calls_for(Event::LivelinessChanged),
            ),
    {
        self.chain(Event::LivelinessChanged, callback)
    }

    pub fn on_requested_deadline_missed(self, callback: C) -> (r: Self)
        requires
            self.wf(),
        ensures
            r.changed_at(self, Event::RequestedDeadlineMissed, seq![callback]),
    {
        self.on(Event::RequestedDeadlineMissed, callback)
    }

    pub fn chain_requested_deadline_missed(self, callback: C) -> (r: Self)
        requires
            self.wf(),
        ensures
            r.changed_at(
                self,
                Event::RequestedDeadlineMissed,
                seq![callback] + self.calls_for(Event::RequestedDeadlineMissed),
            ),
    {
        self.chain(Event::RequestedDeadlineMissed, callback)
    }

    pub fn on_requested_incompatible_qos(self, callback: C) -> (r: Self)
        requires
            self.wf(),
        ensures
            r.changed_at(self, Event::RequestedIncompatibleQos, seq![callback]),
    {
        self.on(Event::RequestedIncompatibleQos, callback)
    }

    pub fn chain_requested_incompatible_qos(self, callback: C) -> (r: Self)
        requires
            self.wf(),
        ensures
            r.changed_at(
                self,
                Event::RequestedIncompatibleQos,
                seq![callback] + self.calls_for(Event::RequestedIncompatibleQos),
            ),
    {
        self.chain(Event::RequestedIncompatibleQos, callback)
    }

    pub fn on_subscription_matched(self, callback: C) -> (r: Self)
        requires
            self.wf(),
        ensures
            r.changed_at(self, Event::SubscriptionMatched, seq![callback]),
    {
        self.on(Event::SubscriptionMatched, callback)
    }

    pub fn chain_subscription_matched(self, callback: C) -> (r: Self)
        requires
            self.wf(),
        ensures
            r.changed_at(
                self,
                Event::SubscriptionMatched,
                seq![callback] + self.calls_for(Event::SubscriptionMatched),
            ),
    {
        self.chain(Event::SubscriptionMatched, callback)
    }

    pub fn on_liveliness_lost(self, callback: C) -> (r: Self)
        requires
            self.wf(),
        ensures
            r.changed_at(self, Event::LivelinessLost, seq![callback]),
    {
        self.on(Event::LivelinessLost, callback)
    }

    pub fn chain_liveliness_lost(self, callback: C) -> (r: Self)
        requires
            self.wf(),
        ensures
            r.changed_at(
                self,
                Event::LivelinessLost,
                seq![callback] + self.calls_for(Event::LivelinessLost),
            ),
    {
        self.chain(Event::LivelinessLost, callback)
    }

    pub fn on_offered_deadline_missed(self, callback: C) -> (r: Self)
        requires
            self.wf(),
        ensures
            r.changed_at(self, Event::OfferedDeadlineMissed, seq![callback]),
    {
        self.on(Event::OfferedDeadlineMissed, callback)
    }

    pub fn chain_offered_deadline_missed(self, callback: C) -> (r: Self)
        requires
            self.wf(),
        ensures
            r.changed_at(
                self,
                Event::OfferedDeadlineMissed,
                seq![callback] + self.calls_for(Event::OfferedDeadlineMissed),
            ),
    {
        self.chain(Event::OfferedDeadlineMissed, callback)
    }

    pub fn on_offered_incompatible_qos(self, callback: C) -> (r: Self)
        requires
            self.wf(),
        ensures
            r.changed_at(self, Event::OfferedIncompatibleQos, seq![callback]),
    {
        self.on(Event::OfferedIncompatibleQos, callback)
    }

    pub fn chain_offered_incompatible_qos(self, callback: C) -> (r: Self)
        requires
            self.wf(),
        ensures
            r.changed_at(
                self,
                Event::OfferedIncompatibleQos,
                seq![callback] + self.calls_for(Event::OfferedIncompatibleQos),
            ),
    {
        self.chain(Event::OfferedIncompatibleQos, callback)
    }

    pub fn on_publication_matched(self, callback: C) -> (r: Self)
        requires
            self.wf(),
        ensures
            r.changed_at(self, Event::PublicationMatched, seq![callback]),
    {
        self.on(Event::PublicationMatched, callback)
    }

    pub fn chain_publication_matched(self, callback: C) -> (r: Self)
        requires
            self.wf(),
        ensures
            r.changed_at(
                self,
                Event::PublicationMatched,
                seq![callback] + self.calls_for(Event::PublicationMatched),
            ),
    {
        self.chain(Event::PublicationMatched, callback)
    }

    pub fn on_inconsistent_topic(self, callback: C) -> (r: Self)
        requires
            self.wf(),
        ensures
            r.changed_at(self, Event::InconsistentTopic, seq![callback]),
    {
        self.on(Event::InconsistentTopic, callback)
    }

    pub fn chain_inconsistent_topic(self, callback: C) -> (r: Self)
        requires
            self.wf(),
        ensures
            r.changed_at(
                self,
                Event::InconsistentTopic,
                seq![callback] + self.calls_for(Event::InconsistentTopic),
            ),
    {
        self.chain(Event::InconsistentTopic, callback)
    }

    pub fn on_data_on_readers(self, callback: C) -> (r: Self)
        requires
            self.wf(),
        ensures
            r.changed_at(self, Event::DataOnReaders, seq![callback]),
    {
        self.on(Event::DataOnReaders, callback)
    }

    pub fn chain_data_on_readers(self, callback: C) -> (r: Self)
        requires
            self.wf(),
        ensures
            r.changed_at(
                self,
                Event::DataOnReaders,
                seq![callback] + self.calls_for(Event::DataOnReaders),
            ),
    {
        self.chain(Event::DataOnReaders, callback)
    }
}

impl<C> Default for DdsListenerBuilder<C> {
    fn default() -> (r: Self)
        ensures
            r.wf(),
            forall|e: Event| #[trigger] r.calls_for(e) == Seq::<C>::empty(),
    {
        DdsListenerBuilder::new()
    }
}

/// A listener for an asynchronous reader: before anything that was set up,
/// `wake` is called when data comes, `missed` when a deadline is missed, and
/// `matched`, where writers are watched, when their number changes.
pub fn data_reader_listener<C>(
    listener_builder: DdsListenerBuilder<C>,
    wake: C,
    missed: C,
    matched: Option<C>,
) -> (r: DdsListener<C>)
    requires
        listener_builder.wf(),
    ensures
        r.wf(),
        r.is_hooked(),
        r.calls_for(Event::DataAvailable) == seq![wake] + listener_builder.calls_for(
            Event::DataAvailable,
        ),
        r.calls_for(Event::RequestedDeadlineMissed) == seq![missed] + listener_builder.calls_for(
            Event::RequestedDeadlineMissed,
        ),
        r.calls_for(Event::SubscriptionMatched) == match matched {
            Some(matched) => seq![matched] + listener_builder.calls_for(
                Event::SubscriptionMatched,
            ),
            None => listener_builder.calls_for(Event::SubscriptionMatched),
        },
        forall|e: Event|
            e !is DataAvailable && e !is RequestedDeadlineMissed && e !is SubscriptionMatched
                ==> #[trigger] r.calls_for(e) == listener_builder.calls_for(e),
{
    let builder = listener_builder.chain_data_available(wake).chain_requested_deadline_missed(
        missed,
    );
    match matched {
        Some(matched) => builder.chain_subscription_matched(matched).build(),
        None => builder.build(),
    }
}

/// A listener that calls `wake` when data comes.
pub fn participant_reader_listener<C>(wake: C) -> (r: DdsListener<C>)
    ensures
        r.wf(),
        r.is_hooked(),
        forall|e: Event| #[trigger]
            r.calls_for(e) == if e is DataAvailable {
                seq![wake]
            } else {
                Seq::empty()
            },
{
    DdsListenerBuilder::new().on_data_available(wake).build()
}

/// Chained calls come in the reverse order of chaining, and before what was
/// there.
pub proof fn law_chained_calls_come_first<C>(
    a: DdsListenerBuilder<C>,
    b: DdsListenerBuilder<C>,
    c: DdsListenerBuilder<C>,
    event: Event,
    first: C,
    second: C,
)
    requires
        b.changed_at(a, event, seq![first] + a.calls_for(event)),
        c.changed_at(b, event, seq![second] + b.calls_for(event)),
    ensures
        c.calls_for(event) == seq![second, first] + a.calls_for(event),
{
    assert(c.calls_for(event) =~= seq![second, first] + a.calls_for(event));
}

/// Every event stands once among all of them, at its own place.
pub proof fn law_every_event_has_its_place(event: Event, other: Event)
    ensures
        0 <= event.place() < all_events().len(),
        all_events().len() == 13,
        all_events()[event.place()] == event,
        event.place() == other.place() ==> event == other,
{
}

/// Registered are the events for which anything is called, in the order of all
/// events.
pub proof fn law_events_with_calls_are_registered<C>(listener: DdsListener<C>, n: nat)
    requires
        n <= 13,
    ensures
        registered(listener, n) == all_events().take(n as int).filter(
            |event: Event| listener.calls_for(event).len() > 0,
        ),
    decreases n,
{
    reveal(Seq::filter);
    let called = |event: Event| listener.calls_for(event).len() > 0;
    let part = all_events().take(n as int);
    if n > 0 {
        law_events_with_calls_are_registered(listener, (n - 1) as nat);
        assert(part.drop_last() =~= all_events().take(n - 1));
        assert(part.last() == all_events()[n - 1]);
    } else {
        assert(part =~= Seq::<Event>::empty());
        assert(part.filter(called) =~= Seq::<Event>::empty());
    }
}

/// A change for one event gives it the calls that were meant, and leaves the calls
/// of every other event and whether the listener has been hooked.
pub proof fn law_change_is_for_one_event<C>(
    before: DdsListener<C>,
    after: DdsListener<C>,
    builder: DdsListenerBuilder<C>,
    built: DdsListenerBuilder<C>,
    event: Event,
    calls: Seq<C>,
    other: Event,
)
    requires
        after.changed_at(before, event, calls),
        built.changed_at(builder, event, calls),
        other != event,
    ensures
        after.calls_for(event) == calls,
        after.calls_for(other) == before.calls_for(other),
        after.is_hooked() == before.is_hooked(),
        built.calls_for(event) == calls,
        built.calls_for(other) == builder.calls_for(other),
{
}

} // verus!
