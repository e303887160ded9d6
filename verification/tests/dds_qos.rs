use std::time::Duration;

use cyclonedds_rs::dds_qos::{
    from_dds_duration, to_dds_duration, DdsQos, DestinationOrderKind, Durability, DurabilityKind,
    DurabilityService, History, HistoryKind, IgnoreLocalKind, LivelinessKind, OwnershipKind,
    Policy, PresentationScope, Reliability, ReliabilityKind, DDS_INFINITY,
};
use cyclonedds_rs::error::DDSError;

fn ns(span: Duration) -> u128 {
    span.as_nanos()
}

#[test]
fn test_to_dds_duration_saturates() {
    assert_eq!(to_dds_duration(ns(Duration::ZERO)), 0);
    assert_eq!(to_dds_duration(ns(Duration::from_millis(100))), 100_000_000);
    assert_eq!(
        to_dds_duration(ns(Duration::from_secs(9_223_372_036))),
        9_223_372_036_000_000_000
    );
    assert_eq!(
        to_dds_duration(ns(Duration::from_secs(9_223_372_037))),
        DDS_INFINITY
    );
    assert_eq!(to_dds_duration(ns(Duration::MAX)), DDS_INFINITY);
}

#[test]
fn test_from_dds_duration_clamps_negative() {
    assert_eq!(from_dds_duration(0), ns(Duration::ZERO));
    assert_eq!(from_dds_duration(100_000_000), ns(Duration::from_millis(100)));
    assert_eq!(from_dds_duration(-1), ns(Duration::ZERO));
    assert_eq!(from_dds_duration(i64::MIN), ns(Duration::ZERO));
}

#[test]
fn test_qget_returns_none_when_policy_unset() {
    let mut qos = DdsQos::create().unwrap();
    let unset = (
        qos.durability(),
        qos.history(),
        qos.reliability(),
        qos.lifespan(),
        qos.deadline(),
        qos.liveliness(),
    );
    assert_eq!(unset, (None, None, None, None, None, None));

    qos.set_durability(DurabilityKind::Volatile)
        .set_history(HistoryKind::KeepLast, 3)
        .expect("KEEP_LAST(3) is valid")
        .set_reliability(ReliabilityKind::Reliable, ns(Duration::from_millis(100)))
        .set_lifespan(ns(Duration::from_millis(200)))
        .set_deadline(ns(Duration::from_millis(300)))
        .set_liveliness(
            LivelinessKind::Automatic,
            to_dds_duration(ns(Duration::from_millis(400))),
        );
    let set = (
        qos.durability(),
        qos.history(),
        qos.reliability(),
        qos.lifespan(),
        qos.deadline(),
        qos.liveliness(),
    );
    assert_eq!(
        set,
        (
            Some(DurabilityKind::Volatile),
            Some((HistoryKind::KeepLast, 3)),
            Some((ReliabilityKind::Reliable, ns(Duration::from_millis(100)))),
            Some(ns(Duration::from_millis(200))),
            Some(ns(Duration::from_millis(300))),
            Some((LivelinessKind::Automatic, ns(Duration::from_millis(400)))),
        )
    );
}

#[test]
fn test_policy_from_unset_qos_falls_back_to_default() {
    let qos = DdsQos::create().unwrap();
    assert_eq!(Policy::from(&qos), Policy::default());
}

#[test]
fn test_set_history_keep_last_rejects_non_positive_depth() {
    let mut qos = DdsQos::create().unwrap();
    for depth in [0, -1] {
        assert_eq!(
            qos.set_history(HistoryKind::KeepLast, depth).err(),
            Some(DDSError::BadParameter),
            "depth={depth}"
        );
    }
}

#[test]
fn test_set_history_keep_all_ignores_depth() {
    let mut qos = DdsQos::create().unwrap();
    qos.set_history(HistoryKind::KeepAll, 0)
        .expect("KEEP_ALL does not look at the depth");
}

#[test]
fn test_to_qos_rejects_invalid_history_without_panic() {
    let policy = Policy {
        history: History::KeepLast(0),
        ..Default::default()
    };
    assert_eq!(policy.to_qos().err(), Some(DDSError::BadParameter));
}

#[test]
fn test_create_transient_local_rejects_out_of_range_history() {
    let cases = [
        (0, Some(DDSError::BadParameter)),
        (-1, Some(DDSError::BadParameter)),
        (1, None),
        (i32::from(u16::MAX), None),
        (i32::from(u16::MAX) + 1, Some(DDSError::BadParameter)),
    ];
    let actual = cases
        .iter()
        .map(|&(history, _)| (history, Policy::create_transient_local(history, None).err()))
        .collect::<Vec<_>>();
    assert_eq!(actual, cases.to_vec());
}

#[test]
fn test_policy_from_qos_clamps_unbounded_durability_service() {
    let transient_local_qos = |kind, depth| {
        let mut qos = DdsQos::create().unwrap();
        qos.set_durability(DurabilityKind::TransientLocal);
        qos.set_durability_service(ns(Duration::ZERO), kind, depth, -1, -1, -1)
            .unwrap();
        qos
    };
    let unvalidated_keep_last_qos = |depth| {
        let mut qos = DdsQos::create().unwrap();
        qos.set_durability(DurabilityKind::TransientLocal);
        qos.durability_service = Some(DurabilityService {
            service_cleanup_delay: 0,
            history_kind: HistoryKind::KeepLast,
            history_depth: depth,
            max_samples: -1,
            max_instances: -1,
            max_samples_per_instance: -1,
        });
        qos
    };
    let actual = [
        transient_local_qos(HistoryKind::KeepLast, 3),
        transient_local_qos(HistoryKind::KeepLast, i32::MAX),
        transient_local_qos(HistoryKind::KeepAll, 0),
        unvalidated_keep_last_qos(0),
        unvalidated_keep_last_qos(-1),
    ]
    .map(|qos| Policy::from(&qos).durability);
    assert_eq!(
        actual,
        [
            Durability::TransientLocal { sync_depth: 3 },
            Durability::TransientLocal { sync_depth: u16::MAX },
            Durability::TransientLocal { sync_depth: u16::MAX },
            Durability::TransientLocal { sync_depth: 1 },
            Durability::TransientLocal { sync_depth: 1 },
        ]
    );
}

#[test]
fn test_policy_from_qos_without_durability_service_syncs_one() {
    let mut qos = DdsQos::create().unwrap();
    qos.set_durability(DurabilityKind::TransientLocal);
    assert_eq!(qos.durability_service(), None);
    assert_eq!(
        Policy::from(&qos).durability,
        Durability::TransientLocal { sync_depth: 1 }
    );
}

#[test]
fn test_create_qos() {
    if let Ok(_qos) = DdsQos::create() {
    } else {
        panic!("DdsQos::create() should succeed");
    }
}

#[test]
fn test_clone_qos() {
    if let Ok(qos) = DdsQos::create() {
        let _c = qos;
    } else {
        panic!("DdsQos::create() should succeed");
    }
}

#[test]
fn test_merge_qos() {
    if let Ok(mut qos) = DdsQos::create() {
        let c = qos.clone();
        qos.merge(&c);
    } else {
        panic!("DdsQos::create() should succeed");
    }
}

#[test]
fn test_set() {
    if let Ok(mut qos) = DdsQos::create() {
        let _qos = qos
            .set_durability(DurabilityKind::Volatile)
            .set_history(HistoryKind::KeepLast, 3)
            .expect("KEEP_LAST(3) is valid")
            .set_resource_limits(10, 1, 10)
            .set_presentation(PresentationScope::Instance, false, false)
            .set_lifespan(ns(Duration::from_nanos(100)))
            .set_deadline(ns(Duration::from_nanos(100)))
            .set_latency_budget(1000)
            .set_ownership(OwnershipKind::Exclusive)
            .set_ownership_strength(1000)
            .set_liveliness(LivelinessKind::Automatic, 10000)
            .set_time_based_filter(1000)
            .set_reliability(ReliabilityKind::Reliable, ns(Duration::from_nanos(100)))
            .set_transport_priority(1000)
            .set_destination_order(DestinationOrderKind::ByReceptionTimestamp)
            .set_writer_data_lifecycle(true)
            .set_reader_data_lifecycle(100, 100)
            .set_durability_service(ns(Duration::ZERO), HistoryKind::KeepLast, 3, 3, 3, 3)
            .expect("KEEP_LAST(3) is valid")
            .set_partition("partition1")
            .set_userdata(b"role=logger");
    } else {
        panic!("DdsQos::create() should succeed");
    }
}

#[test]
fn test_userdata_roundtrip() {
    let mut qos = DdsQos::create().unwrap();
    assert_eq!(qos.userdata(), None);

    qos.set_userdata(b"role=logger");
    assert_eq!(qos.userdata(), Some(b"role=logger".to_vec()));

    qos.set_userdata(b"");
    assert_eq!(qos.userdata(), None);
}

#[test]
fn merge_keeps_what_is_set() {
    let mut qos = DdsQos::create().unwrap();
    qos.set_deadline(5);
    let mut other = DdsQos::create().unwrap();
    other
        .set_deadline(7)
        .set_lifespan(9)
        .set_ignorelocal(IgnoreLocalKind::Process)
        .set_partition("p");
    qos.merge(&other);
    assert_eq!(qos.deadline(), Some(5));
    assert_eq!(qos.lifespan(), Some(9));
    assert_eq!(qos.ignorelocal, Some(IgnoreLocalKind::Process));
    assert_eq!(qos.partition.as_deref(), Some("p"));
}

#[test]
fn policies_compare_by_what_is_set() {
    let mut a = DdsQos::create().unwrap();
    let b = DdsQos::default();
    assert!(a == b);
    a.set_userdata(b"x");
    assert!(a != b);
    assert!(a == a.clone());
}

#[test]
fn policy_comes_back_from_its_qos() {
    let policy = Policy::create_transient_local(10, Some(ns(Duration::from_secs(1)))).unwrap();
    let qos = policy.to_qos().unwrap();
    assert_eq!(Policy::from(&qos), policy);
    assert_eq!(qos.durability(), Some(DurabilityKind::TransientLocal));
    assert_eq!(qos.durability_service(), Some((HistoryKind::KeepLast, 10)));
}

#[test]
fn default_policy_is_volatile() {
    let policy = Policy::default();
    assert_eq!(policy.durability, Durability::Volatile);
    let best_effort = Policy {
        reliability: Reliability::BestEffort,
        ..Policy::default()
    };
    let qos = best_effort.to_qos().unwrap();
    assert_eq!(qos.reliability().map(|found| found.0), Some(ReliabilityKind::BestEffort));
}

#[test]
fn more_than_shared_memory_keeps_is_told() {
    let policy = |depth: i32| Policy::create_transient_local(depth, None).unwrap();
    assert_eq!(policy(16).beyond_shared_memory(), None);
    assert_eq!(policy(17).beyond_shared_memory(), Some(17));
    assert_eq!(Policy::default().beyond_shared_memory(), None);
}
