use std::sync::Arc;
use std::time::Duration;

use cyclonedds_rs::common::Keepalive;
use cyclonedds_rs::dds_domain::DdsDomain;
use cyclonedds_rs::dds_listener::{DdsListener, DdsListenerBuilder, Event};
use cyclonedds_rs::dds_participant::{
    domain_id, domain_or_default, parse_guid, DdsParticipant, ParticipantBuilder,
    DDS_DOMAIN_DEFAULT,
};
use cyclonedds_rs::dds_qos::DdsQos;
use cyclonedds_rs::dds_reader::{
    create_async_with_watch, readcdrn_from_entity_now, readn_from_entity_now, status_or_error,
    BufferState, LivelinessChangedStatus, ReaderBuilder, ReaderPlan,
    RequestedDeadlineMissedStatus, SampleStates, SubscriptionMatchedStatus,
};
use cyclonedds_rs::dds_writer::{
    is_reader_absent, loan, return_loan, set_listener, topic_name_for_log, watching_listener,
    write_to_entity, AbsenceChange, AbsenceWatch, LoanAction, Loaned, LoanedInner, PublicationMatchedStatus,
    WriterBuilder, WriterPlan,
};
use cyclonedds_rs::error::{
    check_handle, check_not_negative, check_ok, DDSError, ReaderError,
};
use cyclonedds_rs::futures::{read, ReadPoll, ReaderShared, ReaderType};
use cyclonedds_rs::match_watch::MatchWatch;
use cyclonedds_rs::shared_registry::{Shared, SharedRegistry};
use cyclonedds_rs::untyped::Untyped;

fn ms(millis: u64) -> u128 {
    Duration::from_millis(millis).as_nanos()
}

type Domains = SharedRegistry<DdsDomain<i32>>;

fn get_domain(
    registry: &mut Domains,
    domain: u32,
    config: Option<&str>,
    handle: i32,
) -> Result<usize, DDSError> {
    DdsDomain::get_or_create(registry, domain, config, |_, _| handle, |h| h)
}

#[test]
fn test_create_domain_with_bad_config() {
    let mut registry = Domains::new();
    let result = get_domain(&mut registry, 3, Some("blah"), -3);
    assert!(result.is_err());
}

#[test]
fn dds_domain_test_get_or_create_is_singleton() {
    let mut registry = Domains::new();
    let first = get_domain(&mut registry, 4, None, 11).unwrap();
    let second = get_domain(&mut registry, 4, None, 12).unwrap();
    assert_eq!(first, second);
    assert_eq!(registry.entity(first).entity, 11);
}

const MINIMAL_CONFIG: &str = r###"<?xml version="1.0" encoding="UTF-8" ?>
    <CycloneDDS xmlns="https://cdds.io/config">
        <Domain id="any" />
    </CycloneDDS>"###;

#[test]
fn test_get_or_create_returns_existing_for_same_config() {
    let mut registry = Domains::new();
    let first = get_domain(&mut registry, 5, Some(MINIMAL_CONFIG), 11).unwrap();
    let second = get_domain(&mut registry, 5, Some(MINIMAL_CONFIG), 12).unwrap();
    assert_eq!(first, second);
    assert_eq!(registry.entity(first).config(), Some(MINIMAL_CONFIG));
}

#[test]
fn test_get_or_create_returns_err_for_different_config() {
    let mut registry = Domains::new();
    let _first = get_domain(&mut registry, 6, None, 11).unwrap();
    let result = get_domain(&mut registry, 6, Some(MINIMAL_CONFIG), 12);
    assert_eq!(result.err(), Some(DDSError::PreconditionNotMet));
}

#[test]
fn nothing_is_made_for_a_domain_that_exists() {
    let mut registry = Domains::new();
    let first = get_domain(&mut registry, 7, None, 11).unwrap();
    let second = DdsDomain::get_or_create(
        &mut registry,
        7,
        None,
        |_, _| panic!("made twice"),
        |_| panic!("owned twice"),
    );
    assert_eq!(second, Ok(first));
    let third = registry.get_or_create(7, || panic!("made twice"), |_| panic!("asked twice"));
    assert_eq!(third, Ok(Shared::Existing(first)));
    let zero = DdsDomain::get_or_create(
        &mut registry,
        7,
        Some("a\0b"),
        |_, _| panic!("made twice"),
        |_| panic!("owned twice"),
    );
    assert_eq!(zero, Err(DDSError::PreconditionNotMet));
}

#[test]
fn absence_of_readers_stops_no_write() {
    let mut watch = Some(AbsenceWatch::new(ms(10), ms(0)));
    assert!(is_reader_absent(&mut watch, ms(10)).0);
    assert_eq!(write_to_entity(3, "sample", |writer, _sample| writer), Ok(()));
    assert_eq!(write_to_entity(3, "sample", |_writer, _sample| 0), Ok(()));
    assert_eq!(
        write_to_entity(3, "sample", |_writer, _sample| -10),
        Err(DDSError::Timeout)
    );
}

type Participants = SharedRegistry<DdsParticipant<i32, &'static str>>;

fn get_participant(
    registry: &mut Participants,
    domain: Option<u32>,
    qos: Option<DdsQos>,
    handle: i32,
    actual: u32,
) -> Result<usize, DDSError> {
    DdsParticipant::get_or_create_with(
        registry,
        domain,
        qos,
        None,
        |_, _, _| handle,
        |h| h,
        |_| domain_id(0, actual),
    )
}

#[test]
fn test_create() {
    let mut qos = DdsQos::create().unwrap();
    qos.set_lifespan(Duration::from_nanos(1000).as_nanos());
    let participant: DdsParticipant<i32, &str> = DdsParticipant::create(
        Some(26),
        Some(qos),
        None,
        |domain, qos, listener| {
            assert_eq!(domain, 26);
            assert_eq!(qos.as_ref().unwrap().lifespan(), Some(1000));
            assert!(listener.is_none());
            7
        },
        |handle| handle,
    )
    .expect("failed to create participant");
    assert_eq!(participant.entity, 7);
}

#[test]
fn dds_participant_test_get_or_create_is_singleton() {
    let mut registry = Participants::new();
    let first = get_participant(&mut registry, Some(27), None, 5, 27).unwrap();
    let second = get_participant(&mut registry, Some(27), None, 6, 27).unwrap();
    assert_eq!(first, second);
    assert_eq!(registry.entity(first).entity, registry.entity(second).entity);
}

#[test]
fn test_get_or_create_with_returns_err_for_existing_participant_with_args() {
    let mut registry = Participants::new();
    let _first = get_participant(&mut registry, Some(27), None, 5, 27).unwrap();
    let qos = DdsQos::create().unwrap();
    let result = get_participant(&mut registry, Some(27), Some(qos), 6, 27);
    assert_eq!(result.err(), Some(DDSError::PreconditionNotMet));
}

#[test]
fn default_domain_and_actual_domain_share_a_participant() {
    let mut registry = Participants::new();
    let first = get_participant(&mut registry, None, None, 5, 9).unwrap();
    assert_eq!(get_participant(&mut registry, Some(9), None, 6, 9), Ok(first));
    let other = get_participant(&mut registry, Some(10), None, 7, 10).unwrap();
    assert_ne!(first, other);
    assert_eq!(get_participant(&mut registry, Some(11), None, -1, 11), Err(DDSError::DdsFail));
    let unresolved = DdsParticipant::get_or_create_with(
        &mut registry,
        Some(12),
        None,
        None,
        |_, _, _| 8,
        |h| h,
        |_| domain_id(-3, 0),
    );
    assert_eq!(unresolved, Err(DDSError::BadParameter));
    assert_eq!(domain_or_default(None), DDS_DOMAIN_DEFAULT);
    assert_eq!(domain_or_default(Some(3)), 3);
}

#[test]
fn participant_builder_keeps_what_it_is_given() {
    let builder = ParticipantBuilder::new()
        .with_domain(4)
        .with_qos(DdsQos::create().unwrap())
        .with_listener(DdsListener::new().on_sample_lost("lost").hook());
    assert_eq!(builder.maybe_domain, Some(4));
    assert!(builder.maybe_qos.is_some());
    assert!(builder.maybe_listener.unwrap().has_calls(Event::SampleLost));
    let empty: ParticipantBuilder<&str> = ParticipantBuilder::default();
    assert_eq!(empty.maybe_domain, None);
}

#[test]
fn guid_consists_of_its_bytes() {
    let bytes = [0, 1, 2, 3, 4, 5, 6, 7, 8, 9, 10, 11, 12, 13, 14, 15];
    assert_eq!(
        parse_guid(bytes).to_string(),
        "00010203-0405-0607-0809-0a0b0c0d0e0f"
    );
}

#[test]
fn return_codes_have_names() {
    let names = [
        DDSError::DdsOk,
        DDSError::DdsFail,
        DDSError::Unsupported,
        DDSError::BadParameter,
        DDSError::PreconditionNotMet,
        DDSError::OutOfResources,
        DDSError::NotEnabled,
        DDSError::ImmutablePolicy,
        DDSError::InconsistentPolicy,
        DDSError::AlreadyDeleted,
        DDSError::Timeout,
        DDSError::NoData,
        DDSError::IllegalOperation,
        DDSError::NotAllowedBySecurity,
    ];
    for (i, name) in names.iter().enumerate() {
        assert_eq!(DDSError::from(-(i as i32)), *name);
    }
    assert_eq!(DDSError::from(-99), DDSError::Other(-99));
    assert_eq!(check_ok(0), Ok(()));
    assert_eq!(check_ok(-11), Err(DDSError::NoData));
    assert_eq!(check_not_negative(3), Ok(()));
    assert_eq!(check_not_negative(-10), Err(DDSError::Timeout));
    assert_eq!(check_handle(3), Ok(3));
    assert_eq!(check_handle(0), Err(DDSError::DdsOk));
    assert_eq!(check_handle(-5), Err(DDSError::OutOfResources));
}

#[test]
fn test_builder_option_priority_selects_reader_kind() {
    #[derive(Debug, Clone, Copy, PartialEq)]
    enum ReaderKind {
        Sync,
        Async,
    }

    let cases = vec![
        (false, false, false, false, ReaderKind::Sync),
        (true, false, false, false, ReaderKind::Async),
        (false, true, false, false, ReaderKind::Sync),
        (false, false, true, false, ReaderKind::Sync),
        (false, false, false, true, ReaderKind::Async),
        (true, true, false, false, ReaderKind::Async),
        (false, true, false, true, ReaderKind::Async),
        (false, true, true, false, ReaderKind::Sync),
    ];

    for (i, case) in cases.into_iter().enumerate() {
        let (as_async, with_listener, with_listener_builder, stop_when_no_writer, expected) = case;
        let mut builder: ReaderBuilder<&str> = ReaderBuilder::new();
        if as_async {
            builder = builder.as_async();
        }
        if with_listener {
            builder = builder.with_listener(DdsListenerBuilder::new().build());
        }
        if with_listener_builder {
            builder = builder.with_listener_builder(DdsListenerBuilder::new());
        }
        if stop_when_no_writer {
            builder = builder.stop_when_no_writer(ms(20));
        }
        let actual = match builder.create() {
            ReaderPlan::Async { .. } => ReaderKind::Async,
            ReaderPlan::Sync { .. } => ReaderKind::Sync,
        };
        assert_eq!(actual, expected, "case {i}");
    }
}

#[test]
fn reader_plan_takes_the_listener_before_the_builder() {
    let plan = ReaderBuilder::default()
        .with_qos(DdsQos::create().unwrap())
        .with_listener(DdsListenerBuilder::new().on_sample_lost("listener").build())
        .with_listener_builder(DdsListenerBuilder::new().on_sample_lost("builder"))
        .create();
    match plan {
        ReaderPlan::Sync { qos, listener } => {
            assert!(qos.is_some());
            assert_eq!(listener.unwrap().calls(Event::SampleLost), &vec!["listener"]);
        }
        ReaderPlan::Async { .. } => panic!("asynchronous"),
    }
    let plan = ReaderBuilder::new()
        .with_listener_builder(DdsListenerBuilder::new().on_sample_lost("builder"))
        .stop_when_no_writer(ms(5))
        .create();
    match plan {
        ReaderPlan::Async { listener_builder, absence_timeout, .. } => {
            assert_eq!(absence_timeout, Some(ms(5)));
            assert_eq!(listener_builder.calls(Event::SampleLost), &vec!["builder"]);
        }
        ReaderPlan::Sync { .. } => panic!("synchronous"),
    }
}

#[test]
fn test_stop_when_no_writer() {
    #[derive(Debug, PartialEq)]
    struct Outcome {
        take_result: Result<usize, ReaderError>,
        is_writer_absent: bool,
    }

    let timeout = ms(300);
    let margin = timeout * 3;
    let reader = || {
        let (_, reader_type) = create_async_with_watch(
            DdsListenerBuilder::new(),
            Some(timeout),
            0,
            "wake",
            "missed",
            "matched",
        );
        reader_type
    };
    let no_data = || Err(DDSError::NoData);

    // never a writer
    let mut reader_type = reader();
    assert_eq!(read(&mut reader_type, no_data, || timeout - 1), ReadPoll::Pending);
    let actual = match read(&mut reader_type, no_data, || margin) {
        ReadPoll::Ready(take_result) => Outcome {
            take_result,
            is_writer_absent: reader_type.is_writer_absent(margin),
        },
        ReadPoll::Pending => panic!("pending"),
    };
    assert_eq!(
        actual,
        Outcome {
            take_result: Err(ReaderError::NoMatchedWriter { timeout }),
            is_writer_absent: true,
        }
    );

    // a writer without data
    let mut reader_type = reader();
    match &mut reader_type {
        ReaderType::Async(shared) => shared.note_matched(1, ms(10)),
        ReaderType::Sync => panic!("synchronous"),
    }
    assert_eq!(read(&mut reader_type, no_data, || margin), ReadPoll::Pending);
    assert!(!reader_type.is_writer_absent(margin));

    // data comes before the absence, which comes back after a recovery
    match &mut reader_type {
        ReaderType::Async(shared) => shared.note_matched(0, ms(100)),
        ReaderType::Sync => panic!("synchronous"),
    }
    let gone_at = ms(100) + timeout;
    assert_eq!(read(&mut reader_type, || Ok(1), || gone_at), ReadPoll::Ready(Ok(1)));
    assert_eq!(
        read(&mut reader_type, no_data, || gone_at),
        ReadPoll::Ready(Err(ReaderError::NoMatchedWriter { timeout }))
    );
    match &mut reader_type {
        ReaderType::Async(shared) => {
            shared.notify_absence();
            assert_eq!(shared.absence_deadline(), None);
            shared.note_matched(1, gone_at);
            shared.note_matched(0, gone_at + 1);
            assert_eq!(shared.absence_deadline(), Some(gone_at + 1 + timeout));
        }
        ReaderType::Sync => panic!("synchronous"),
    }
    assert_eq!(read(&mut reader_type, no_data, || gone_at + timeout), ReadPoll::Pending);
    assert_eq!(
        read(&mut reader_type, no_data, || gone_at + 1 + timeout),
        ReadPoll::Ready(Err(ReaderError::NoMatchedWriter { timeout }))
    );
}

#[test]
fn read_reports_each_error_in_its_turn() {
    let mut sync = ReaderType::Sync;
    assert_eq!(
        read(&mut sync, || Ok(1), || 0),
        ReadPoll::Ready(Err(ReaderError::ReaderNotAsync))
    );
    assert!(!sync.is_writer_absent(u128::MAX));

    let mut shared = ReaderShared::new(None);
    shared.note_deadline_missed();
    let mut reader_type = ReaderType::Async(shared);
    assert_eq!(
        read(&mut reader_type, || Ok(1), || 0),
        ReadPoll::Ready(Err(ReaderError::RequestedDeadLineMissed))
    );
    assert_eq!(read(&mut reader_type, || Ok(1), || 0), ReadPoll::Ready(Ok(1)));
    assert_eq!(
        read(&mut reader_type, || Err(DDSError::AlreadyDeleted), || 0),
        ReadPoll::Ready(Err(ReaderError::DdsError(DDSError::AlreadyDeleted)))
    );
    assert_eq!(read(&mut reader_type, || Err(DDSError::NoData), || 0), ReadPoll::Pending);
}

#[test]
fn async_reader_without_timeout_watches_nothing() {
    let (listener, reader_type) =
        create_async_with_watch(DdsListenerBuilder::new(), None, 9, "wake", "missed", "matched");
    assert_eq!(
        listener.registered_events(),
        vec![Event::DataAvailable, Event::RequestedDeadlineMissed]
    );
    assert_eq!(reader_type, ReaderType::Async(ReaderShared::new(None)));
    let (listener, reader_type) =
        create_async_with_watch(DdsListenerBuilder::new(), Some(4), 9, "wake", "missed", "matched");
    assert_eq!(listener.calls(Event::SubscriptionMatched), &vec!["matched"]);
    assert_eq!(
        reader_type,
        ReaderType::Async(ReaderShared::new(Some(MatchWatch::new_at(4, 9))))
    );
}

#[test]
fn values_count_where_the_first_is_valid() {
    let mut buffer = BufferState { capacity: 4, size: 3 };
    let got = readn_from_entity_now(
        &mut buffer,
        true,
        |room, take| {
            assert_eq!((room, take), (4, true));
            2
        },
        || true,
    );
    assert_eq!(got, Ok(2));
    assert_eq!(buffer.size, 2);
    assert_eq!(
        readn_from_entity_now(&mut buffer, false, |_, _| 2, || false),
        Err(DDSError::NoData)
    );
    assert_eq!(buffer.size, 0);
    assert_eq!(
        readn_from_entity_now(&mut buffer, false, |_, _| 0, || true),
        Err(DDSError::NoData)
    );
    assert_eq!(
        readn_from_entity_now(&mut buffer, false, |_, _| -9, || true),
        Err(DDSError::AlreadyDeleted)
    );
    let mut none = BufferState { capacity: 0, size: 0 };
    assert_eq!(
        readn_from_entity_now(&mut none, false, |_, _| 2, || true),
        Err(DDSError::BadParameter)
    );
}

#[test]
fn encodings_are_asked_for_by_their_state() {
    let mut buffer = BufferState { capacity: 3, size: 0 };
    let taken = readcdrn_from_entity_now(&mut buffer, true, |room, take, states| {
        assert_eq!((room, take, states), (3, true, SampleStates::NotRead));
        3
    });
    assert_eq!(taken, Ok(3));
    assert_eq!(buffer, BufferState { capacity: 3, size: 3 });
    let seen = readcdrn_from_entity_now(&mut buffer, false, |_, _, states| {
        assert_eq!(states, SampleStates::Any);
        0
    });
    assert_eq!(seen, Err(DDSError::NoData));
    assert_eq!(buffer.size, 0);
    let mut none = BufferState { capacity: 0, size: 0 };
    assert_eq!(
        readcdrn_from_entity_now(&mut none, false, |_, _, _| 1),
        Err(DDSError::BadParameter)
    );
}

#[test]
fn test_matched_status() {
    #[derive(Debug, PartialEq)]
    struct Outcome {
        publication: PublicationMatchedStatus,
        subscription: SubscriptionMatchedStatus,
    }

    let publication = PublicationMatchedStatus {
        total_count: 1,
        total_count_change: 1,
        current_count: 1,
        current_count_change: 1,
    };
    let subscription = SubscriptionMatchedStatus {
        total_count: 1,
        total_count_change: 1,
        current_count: 1,
        current_count_change: 1,
    };
    let actual = Outcome {
        publication: status_or_error(0, publication).unwrap(),
        subscription: status_or_error(0, subscription).unwrap(),
    };
    assert_eq!(actual, Outcome { publication, subscription });
    let liveliness = LivelinessChangedStatus {
        alive_count: 1,
        not_alive_count: 0,
        alive_count_change: 1,
        not_alive_count_change: 0,
    };
    assert_eq!(status_or_error(-3, liveliness), Err(DDSError::BadParameter));
    let missed = RequestedDeadlineMissedStatus { total_count: 2, total_count_change: 0 };
    assert_eq!(status_or_error(0, missed), Ok(missed));
}

#[test]
fn test_builder_option_priority_enables_absence_watch() {
    let timeout = ms(100);
    let margin = timeout * 3;
    let cases = vec![
        (false, false, false, false),
        (true, false, false, false),
        (false, true, false, false),
        (true, true, false, false),
        (false, false, true, true),
        (true, false, true, true),
        (false, true, true, true),
    ];

    for (i, case) in cases.into_iter().enumerate() {
        let (with_listener, with_listener_builder, watch_reader_absence, expected_absent) = case;
        let mut builder: WriterBuilder<&str> = WriterBuilder::new();
        if with_listener {
            builder = builder.with_listener(DdsListenerBuilder::new().build());
        }
        if with_listener_builder {
            builder = builder.with_listener_builder(DdsListenerBuilder::new());
        }
        if watch_reader_absence {
            builder = builder.watch_reader_absence(timeout);
        }
        let mut watch = match builder.create() {
            WriterPlan::Watching { timeout, .. } => Some(AbsenceWatch::new(timeout, 0)),
            WriterPlan::Plain { .. } => None,
        };
        assert_eq!(is_reader_absent(&mut watch, margin).0, expected_absent, "case {i}");
    }
}

#[test]
fn test_watch_reader_absence() {
    let timeout = ms(300);
    let margin = timeout * 3;

    // never a reader
    let mut watch = Some(AbsenceWatch::new(timeout, 0));
    assert_eq!(is_reader_absent(&mut watch, 0), (false, None));
    assert_eq!(is_reader_absent(&mut watch, margin), (true, Some(AbsenceChange::Gone)));
    assert_eq!(is_reader_absent(&mut watch, margin), (true, None));

    // a reader is there
    let mut watch = AbsenceWatch::new(timeout, 0);
    watch.watch.update_at(1, ms(10));
    let mut watch = Some(watch);
    assert_eq!(is_reader_absent(&mut watch, margin), (false, None));

    // the reader goes, and comes back at once
    let mut watch = AbsenceWatch::new(timeout, 0);
    watch.watch.update_at(1, ms(10));
    watch.watch.update_at(0, ms(100));
    assert_eq!(watch.is_reader_absent(ms(100) + timeout), (true, Some(AbsenceChange::Gone)));
    watch.watch.update_at(1, ms(100) + timeout + 1);
    assert_eq!(
        watch.is_reader_absent(ms(100) + timeout + 1),
        (false, Some(AbsenceChange::Recovered))
    );

    // not watched
    let mut none = None;
    assert_eq!(is_reader_absent(&mut none, margin), (false, None));
}

#[test]
fn watching_writer_is_told_first() {
    let listener = watching_listener(
        DdsListenerBuilder::new().on_publication_matched("user").on_liveliness_lost("lost"),
        "watch",
    );
    assert_eq!(listener.calls(Event::PublicationMatched), &vec!["watch", "user"]);
    assert_eq!(listener.calls(Event::LivelinessLost), &vec!["lost"]);
    let plan = WriterBuilder::default()
        .with_qos(DdsQos::create().unwrap())
        .with_listener_builder(DdsListenerBuilder::new().on_liveliness_lost("built"))
        .create();
    match plan {
        WriterPlan::Plain { qos, listener } => {
            assert!(qos.is_some());
            assert_eq!(listener.unwrap().calls(Event::LivelinessLost), &vec!["built"]);
        }
        WriterPlan::Watching { .. } => panic!("watching"),
    }
}

#[test]
fn lent_memory_is_written_only_where_it_holds_a_sample() {
    let fresh = loan(0, Some(100usize), 7i32).unwrap();
    assert_eq!(fresh.as_mut_ptr(), Some(100));
    assert_eq!(fresh.on_drop(), LoanAction::Return(100, 7));
    assert_eq!(
        return_loan(fresh, |action| {
            assert_eq!(action, LoanAction::Return(100, 7));
            0
        }),
        Ok(())
    );
    let filled = loan(0, Some(100usize), 7i32).unwrap().assume_init();
    assert_eq!(filled.inner, LoanedInner::Initialized(100, 7));
    assert_eq!(
        return_loan(filled, |action| {
            assert_eq!(action, LoanAction::Write(100, 7));
            -5
        }),
        Err(DDSError::OutOfResources)
    );
    let empty: Loaned<usize, i32> = Loaned { inner: LoanedInner::Empty };
    assert_eq!(empty.as_mut_ptr(), None);
    assert_eq!(empty.on_drop(), LoanAction::Nothing);
    assert_eq!(return_loan(empty.assume_init(), |_| -1), Ok(()));
    assert_eq!(loan::<usize, i32>(-2, None, 7).err(), Some(DDSError::Unsupported));
}

#[test]
fn listener_is_replaced_where_dds_takes_it() {
    let mut current = Some(DdsListener::new().on_sample_lost("old"));
    assert_eq!(
        set_listener(&mut current, DdsListener::new().on_sample_lost("new"), -3),
        Err(DDSError::BadParameter)
    );
    assert_eq!(current.as_ref().unwrap().calls(Event::SampleLost), &vec!["old"]);
    assert_eq!(set_listener(&mut current, DdsListener::new().on_sample_lost("new"), 0), Ok(()));
    assert_eq!(current.as_ref().unwrap().calls(Event::SampleLost), &vec!["new"]);
}

#[test]
fn topic_without_a_name_is_logged_without_one() {
    assert_eq!(topic_name_for_log(4, "name".to_string()), "name");
    assert_eq!(topic_name_for_log(-1, "name".to_string()), "");
}

#[test]
fn keepalive_holds_what_it_is_given() {
    let inner = Arc::new(5);
    let keepalive = Keepalive::shared(inner.clone());
    assert!(keepalive.holds());
    assert_eq!(Arc::strong_count(&inner), 2);
    let none: Keepalive<i32> = Keepalive::default();
    assert!(!none.holds());
    assert_eq!(Untyped, Untyped);
}

#[test]
fn nothing_is_read_while_an_error_is_pending() {
    let mut shared = ReaderShared::new(None);
    shared.note_deadline_missed();
    let mut reader_type = ReaderType::Async(shared);
    assert_eq!(
        read(&mut reader_type, || panic!("read"), || panic!("clock")),
        ReadPoll::Ready(Err(ReaderError::RequestedDeadLineMissed))
    );
    let mut sync = ReaderType::Sync;
    assert_eq!(
        read(&mut sync, || panic!("read"), || panic!("clock")),
        ReadPoll::Ready(Err(ReaderError::ReaderNotAsync))
    );
    let mut full = BufferState { capacity: 0, size: 3 };
    assert_eq!(
        readcdrn_from_entity_now(&mut full, true, |_, _, _| panic!("read")),
        Err(DDSError::BadParameter)
    );
}

#[test]
fn what_keeps_alive_can_be_shared() {
    let kept = Arc::new(7);
    let keepalive = Keepalive::shared(kept.clone());
    let other = keepalive.clone();
    drop(keepalive);
    assert!(other.holds());
    assert_eq!(Arc::strong_count(&kept), 2);
    assert_eq!(SubscriptionMatchedStatus::default().current_count, 0);
}

#[test]
fn shared_domain_stays_while_others_are_made() {
    let mut registry = Domains::new();
    let first = get_domain(&mut registry, 1, Some("a"), 11).unwrap();
    get_domain(&mut registry, 2, None, 12).unwrap();
    get_domain(&mut registry, 3, Some("b"), 13).unwrap();
    assert_eq!(get_domain(&mut registry, 1, None, 14), Ok(first));
    assert_eq!(get_domain(&mut registry, 1, Some("a"), 15), Ok(first));
    assert_eq!(
        get_domain(&mut registry, 1, Some("b"), 16),
        Err(DDSError::PreconditionNotMet)
    );
    assert_eq!(registry.entity(first).entity, 11);
    assert_eq!(registry.entity(first).config(), Some("a"));
}
