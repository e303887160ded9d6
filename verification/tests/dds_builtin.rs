use std::cell::Cell;

use cyclonedds_rs::dds_builtin::{
    readn_from_entity_now, BuiltinContainer, BuiltinSample, BuiltinSamples, BuiltinTopic,
    EndpointData, ParticipantData, Participants, Property, Publications, Subscriptions, HOST_NAME,
    NETWORK_ADDRESS, PID, PROCESS_NAME,
};
use cyclonedds_rs::dds_qos::{DdsQos, Policy};
use cyclonedds_rs::error::DDSError;

fn property(name: &str, value: &[u8]) -> Property {
    Property {
        name: name.as_bytes().to_vec(),
        value: value.to_vec(),
    }
}

fn participant(properties: Option<Vec<Property>>) -> ParticipantData {
    ParticipantData { key: [1; 16], properties }
}

#[test]
fn participant_says_all_of_itself() {
    let data = participant(Some(vec![
        property(PROCESS_NAME, b"first"),
        property("__Unknown", &[0xff]),
        property(PID, b"42"),
        property(HOST_NAME, "h\u{f6}st".as_bytes()),
        property(NETWORK_ADDRESS, b"udp/127.0.0.1"),
        property(PROCESS_NAME, b"last"),
    ]));
    let sample = BuiltinSample { sample: &data };
    assert!(sample.is_alive());
    assert_eq!(sample.guid().as_bytes(), &[1; 16]);
    let props = sample.props().unwrap();
    assert_eq!(props.len(), 6);
    assert_eq!(props[2].name, PID.as_bytes());
    assert_eq!(props[2].value, b"42");
    let found = sample.property().unwrap().unwrap();
    assert_eq!(found.id, sample.guid());
    assert_eq!(found.process_name, "last");
    assert_eq!(found.pid, 42);
    assert_eq!(found.host_name, "h\u{f6}st");
    assert_eq!(found.network_addresses, "udp/127.0.0.1");
}

#[test]
fn process_number_that_is_none_counts_as_zero() {
    for (value, expected) in [
        ("4294967295", u32::MAX),
        ("4294967296", 0),
        ("+7", 7),
        ("-1", 0),
        ("x", 0),
        ("", 0),
    ] {
        let data = participant(Some(vec![
            property(PROCESS_NAME, b"p"),
            property(PID, value.as_bytes()),
            property(HOST_NAME, b"h"),
            property(NETWORK_ADDRESS, b"n"),
        ]));
        let found = BuiltinSample { sample: &data }.property().unwrap().unwrap();
        assert_eq!(found.pid, expected, "{value}");
    }
}

#[test]
fn participant_that_leaves_something_out_says_nothing() {
    let data = participant(Some(vec![property(PROCESS_NAME, b"p"), property(PID, b"1")]));
    assert!(BuiltinSample { sample: &data }.property().unwrap().is_none());

    let gone = participant(None);
    let sample = BuiltinSample { sample: &gone };
    assert!(!sample.is_alive());
    assert!(sample.props().is_none());
    assert!(sample.property().unwrap().is_none());
}

#[test]
fn first_invalid_value_is_the_error() {
    let data = participant(Some(vec![
        property("__Unknown", &[0xff]),
        property(HOST_NAME, &[b'a', b'b', 0xff]),
        property(PID, &[0xff]),
    ]));
    let error = BuiltinSample { sample: &data }.property().unwrap_err();
    assert_eq!(error.valid_up_to(), 2);
}

#[test]
fn endpoint_is_there_as_long_as_it_has_policies() {
    let policy = Policy::create_transient_local(10, None).unwrap();
    let mut qos = policy.to_qos().unwrap();
    qos.set_userdata(b"role=logger");
    let data = EndpointData {
        key: [2; 16],
        participant_key: [1; 16],
        topic: Some(b"/dds_builtin/tests/TestDiscoveryTopic".to_vec()),
        typename: Some(b"T".to_vec()),
        qos: Some(qos),
    };
    let sample = BuiltinSample { sample: &data };
    assert!(sample.is_alive());
    assert_eq!(sample.guid().as_bytes(), &[2; 16]);
    assert_eq!(sample.participant_guid().as_bytes(), &[1; 16]);
    assert_eq!(sample.policy(), Some(policy));
    assert_eq!(sample.name(), Some(&b"/dds_builtin/tests/TestDiscoveryTopic"[..]));
    assert_eq!(sample.typename(), Some(&b"T"[..]));
    assert_eq!(sample.qos().unwrap().userdata(), Some(b"role=logger".to_vec()));

    let gone = EndpointData {
        key: [2; 16],
        participant_key: [1; 16],
        topic: None,
        typename: None,
        qos: None::<DdsQos>,
    };
    let sample = BuiltinSample { sample: &gone };
    assert!(!sample.is_alive());
    assert_eq!(sample.policy(), None);
    assert_eq!(sample.name(), None);
    assert_eq!(sample.typename(), None);
    assert!(sample.qos().is_none());
}

#[test]
fn reports_come_on_their_topics() {
    assert_eq!(Participants::topic(), BuiltinTopic::Participant);
    assert_eq!(Publications::topic(), BuiltinTopic::Publication);
    assert_eq!(Subscriptions::topic(), BuiltinTopic::Subscription);
}

#[test]
fn what_was_lent_is_given_back_before_the_next_read() {
    let returned: Cell<Option<(u32, u32)>> = Cell::new(None);
    let mut samples: BuiltinSamples<u32> = BuiltinSamples::new(20);
    let first = readn_from_entity_now(
        &mut samples,
        7,
        true,
        |reader, len| returned.set(Some((reader, len))),
        |room, take| {
            assert_eq!((room, take), (20, true));
            3
        },
    );
    assert_eq!(first, Ok(3));
    assert_eq!(returned.get(), None);
    assert_eq!((samples.len, samples.loaned_from), (3, Some(7)));

    let second = readn_from_entity_now(
        &mut samples,
        8,
        false,
        |reader, len| returned.set(Some((reader, len))),
        |_, _| 0,
    );
    assert_eq!(second, Err(DDSError::NoData));
    assert_eq!(returned.get(), Some((7, 3)));
    assert_eq!((samples.len, samples.loaned_from), (0, None));

    let failed = readn_from_entity_now(&mut samples, 8, false, |_, _| (), |_, _| -1);
    assert_eq!(failed, Err(DDSError::DdsFail));
    assert_eq!(samples.clear(), None);
}

#[test]
fn lent_reports_are_given_back_once() {
    let mut samples = BuiltinSamples { len: 2, max: 4, loaned_from: Some("reader") };
    assert_eq!(samples.clear(), Some(("reader", 2)));
    assert_eq!(samples.clear(), None);
    assert_eq!(samples.len, 0);
    let mut none: BuiltinSamples<u32> = BuiltinSamples::new(0);
    assert_eq!(
        readn_from_entity_now(&mut none, 1, true, |_, _| (), |_, _| 1),
        Err(DDSError::BadParameter)
    );
}
