use cyclonedds_rs::dds_listener::{
    data_reader_listener, participant_reader_listener, DdsListener, DdsListenerBuilder, Event,
};

#[test]
fn chain_callback_orders_internal_before_existing() {
    let record = |with_existing: bool, use_deadline_missed: bool| -> Vec<&'static str> {
        let mut builder = DdsListenerBuilder::new();

        if with_existing {
            builder = if use_deadline_missed {
                builder.on_requested_deadline_missed("existing")
            } else {
                builder.on_data_available("existing")
            };
        }
        builder = if use_deadline_missed {
            builder.chain_requested_deadline_missed("chained")
        } else {
            builder.chain_data_available("chained")
        };

        let event = if use_deadline_missed {
            Event::RequestedDeadlineMissed
        } else {
            Event::DataAvailable
        };
        builder.calls(event).clone()
    };

    let actual_and_expected = [
        (record(true, false), vec!["chained", "existing"]),
        (record(false, false), vec!["chained"]),
        (record(true, true), vec!["chained", "existing"]),
        (record(false, true), vec!["chained"]),
    ];

    for (actual, expected) in actual_and_expected {
        assert_eq!(actual, expected);
    }
}

#[test]
fn every_event_has_calls_of_its_own() {
    let listener = DdsListener::new()
        .on_data_available(0)
        .on_sample_lost(1)
        .on_sample_rejected(2)
        .on_liveliness_changed(3)
        .on_requested_deadline_missed(4)
        .on_requested_incompatible_qos(5)
        .on_subscription_matched(6)
        .on_liveliness_lost(7)
        .on_offered_deadline_missed(8)
        .on_offered_incompatible_qos(9)
        .on_publication_matched(10)
        .on_inconsistent_topic(11)
        .on_data_on_readers(12);
    let events = [
        Event::DataAvailable,
        Event::SampleLost,
        Event::SampleRejected,
        Event::LivelinessChanged,
        Event::RequestedDeadlineMissed,
        Event::RequestedIncompatibleQos,
        Event::SubscriptionMatched,
        Event::LivelinessLost,
        Event::OfferedDeadlineMissed,
        Event::OfferedIncompatibleQos,
        Event::PublicationMatched,
        Event::InconsistentTopic,
        Event::DataOnReaders,
    ];
    for (i, event) in events.iter().enumerate() {
        assert_eq!(listener.calls(*event), &vec![i]);
    }
    assert_eq!(listener.registered_events(), events.to_vec());
}

#[test]
fn setting_a_call_replaces_the_one_before() {
    let listener = DdsListener::new().on_sample_lost("first").on_sample_lost("second");
    assert_eq!(listener.calls(Event::SampleLost), &vec!["second"]);
    assert_eq!(listener.registered_events(), vec![Event::SampleLost]);
}

#[test]
fn hooked_listener_takes_no_more_calls() {
    let listener = DdsListener::new().on_sample_lost("kept").hook().on_sample_lost("late");
    assert_eq!(listener.calls(Event::SampleLost), &vec!["kept"]);
    assert!(!listener.has_calls(Event::DataAvailable));
}

#[test]
fn chained_calls_come_in_reverse_order() {
    let listener = DdsListenerBuilder::new()
        .on_publication_matched(1)
        .chain_publication_matched(2)
        .chain_publication_matched(3)
        .build();
    assert_eq!(listener.calls(Event::PublicationMatched), &vec![3, 2, 1]);
}

#[test]
fn reader_listener_watches_writers_only_where_asked() {
    let watching = data_reader_listener(
        DdsListenerBuilder::new().on_subscription_matched("user"),
        "wake",
        "missed",
        Some("matched"),
    );
    assert_eq!(watching.calls(Event::SubscriptionMatched), &vec!["matched", "user"]);
    assert_eq!(watching.calls(Event::DataAvailable), &vec!["wake"]);
    assert_eq!(watching.calls(Event::RequestedDeadlineMissed), &vec!["missed"]);

    let plain = data_reader_listener(DdsListenerBuilder::default(), "wake", "missed", None);
    assert!(!plain.has_calls(Event::SubscriptionMatched));
    assert!(!plain.has_calls(Event::LivelinessChanged));

    let builtin = participant_reader_listener("wake");
    assert_eq!(builtin.registered_events(), vec![Event::DataAvailable]);
}
