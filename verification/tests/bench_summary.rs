use cyclonedds_rs::bench::cases::{find_boundary_payload, BoundaryRelation};
use cyclonedds_rs::bench::latency::latency_summary;
use cyclonedds_rs::bench::message::{make_message, serialize_message};

#[test]
fn boundary_cases_choose_aligned_serialized_sizes() {
    let cases = [
        (BoundaryRelation::Below, 65_535, (65_508, 65_532)),
        (BoundaryRelation::Above, 65_535, (65_512, 65_536)),
    ];

    let actual = cases
        .iter()
        .map(|(relation, boundary, _)| {
            let payload = find_boundary_payload(*relation, *boundary).unwrap();
            let serialized = serialize_message(&make_message(0, payload, 0)).unwrap().len();
            (payload, serialized)
        })
        .collect::<Vec<_>>();
    let expected = cases
        .iter()
        .map(|(_, _, expected)| *expected)
        .collect::<Vec<_>>();

    assert_eq!(actual, expected);
}

#[test]
fn latency_summary_handles_empty_and_typical_values() {
    let cases = [
        (Vec::new(), None),
        (vec![10, 20, 30, 40], Some((4, 10, 25, 30, 40, 40, 40))),
    ];

    for (values, expected) in cases {
        let actual = latency_summary(values).map(|summary| {
            (
                summary.count,
                summary.min_ns,
                summary.mean_ns,
                summary.p50_ns,
                summary.p95_ns,
                summary.p99_ns,
                summary.max_ns,
            )
        });
        assert_eq!(actual, expected);
    }
}
