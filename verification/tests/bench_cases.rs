use cyclonedds_rs::bench::arguments::{ChildArguments, RunnerArguments};
use cyclonedds_rs::bench::cases::{
    aligned_boundary_payload, find_boundary_payload, BenchmarkCase, BoundaryRelation, CaseFile,
    CaseKind, PayloadDefinition, QosDefinition, ResolvedCase,
};
use cyclonedds_rs::bench::cdr_run::{run_cdr, CdrRun};
use cyclonedds_rs::bench::clock::timespec_ns;
use cyclonedds_rs::bench::config::{roudi_config, xml_config};
use cyclonedds_rs::bench::host::{
    cargo_package_versions, command_string, command_value, file_hash_value, first_word, is_dirty,
    kib_to_bytes, memory_kib, memory_value, number_value, package_versions, runner, rustc_host,
    rustc_target_value, CommandOutput, Finding, Package,
};
use cyclonedds_rs::bench::latency::{latency_summary, percentile};
use cyclonedds_rs::bench::matching::{
    make_qos, matched_listener, note_matched, wait_for_match, MatchWait,
};
use cyclonedds_rs::bench::message::{
    deserialize_message, make_message, serialize_message, BenchmarkMessage,
};
use cyclonedds_rs::bench::publish::{done_line, period_ns, Pacer, Publication};
use cyclonedds_rs::bench::receive::Reception;
use cyclonedds_rs::bench::record::{failed_record, ResultRecord, Throughput};
use cyclonedds_rs::dds_listener::Event;
use cyclonedds_rs::dds_qos::{DurabilityKind, HistoryKind, ReliabilityKind};

fn case(id: &str, payload: PayloadDefinition) -> BenchmarkCase {
    BenchmarkCase {
        id: id.to_string(),
        kind: CaseKind::Latency,
        transport: "udp".to_string(),
        shm: false,
        payload,
        rate_hz: Some(100),
        burst: 1,
        warmup_messages: 2,
        measured_messages: 3,
        timeout_seconds: 10,
    }
}

fn case_file(schema_version: u32) -> CaseFile {
    CaseFile {
        schema_version,
        domain_id: 1,
        interface: "lo".to_string(),
        qos: QosDefinition {
            reliability: "reliable".to_string(),
            durability: "volatile".to_string(),
            history: "keep_last".to_string(),
            history_depth: 32,
        },
        cases: vec![
            case("a", PayloadDefinition::Fixed { bytes: 4 }),
            case("b", PayloadDefinition::Fixed { bytes: 8 }),
            case("a", PayloadDefinition::Fixed { bytes: 9 }),
        ],
    }
}

fn words(line: &str) -> Vec<String> {
    line.split(' ').filter(|word| !word.is_empty()).map(|word| word.to_string()).collect()
}

#[test]
fn case_is_found_by_its_id() {
    let file = case_file(1);
    assert!(file.check_schema().is_ok());
    let found = file.find("a").unwrap();
    assert!(matches!(found.payload, PayloadDefinition::Fixed { bytes: 4 }));
    assert_eq!(file.find("c").unwrap_err().message(), "unknown case: c");
    assert_eq!(
        case_file(2).check_schema().unwrap_err().message(),
        "unsupported case schema 2"
    );
}

#[test]
fn case_resolves_to_sizes() {
    let resolved = case("a", PayloadDefinition::Fixed { bytes: 4 }).resolve().unwrap();
    assert_eq!(resolved.payload_bytes, 4);
    assert_eq!(resolved.serialized_bytes, 28);
    let boundary = PayloadDefinition::WireBoundary {
        relation: BoundaryRelation::Above,
        wire_bytes: 65_535,
    };
    let resolved = case("b", boundary).resolve().unwrap();
    assert_eq!((resolved.payload_bytes, resolved.serialized_bytes), (65_512, 65_536));
    assert_eq!(resolved.definition.id, "b");
}

#[test]
fn boundary_without_a_payload_below_is_refused() {
    assert_eq!(
        find_boundary_payload(BoundaryRelation::Below, 10).unwrap_err().message(),
        "wire boundary has no below value"
    );
    assert_eq!(find_boundary_payload(BoundaryRelation::Above, 10).unwrap(), 0);
    assert_eq!(find_boundary_payload(BoundaryRelation::Below, 24).unwrap(), 0);
    assert_eq!(
        aligned_boundary_payload(1, 10, false).unwrap_err().message(),
        "aligned wire boundary payload overflow"
    );
}

#[test]
fn history_holds_all_messages() {
    let case_definition = case("a", PayloadDefinition::Fixed { bytes: 1 });
    assert_eq!(case_definition.total_messages(), 5);
    assert_eq!(case_definition.history_depth().unwrap(), 5);
    let deep = BenchmarkCase { measured_messages: 1 << 31, ..case_definition };
    assert_eq!(
        deep.history_depth().unwrap_err().message(),
        "out of range integral type conversion attempted"
    );
}

#[test]
fn runner_arguments_are_read() {
    let parsed = RunnerArguments::parse(&words("--case a --output o --metadata m --run-id r"))
        .unwrap();
    assert_eq!(parsed.case_id, "a");
    assert_eq!(parsed.output.as_deref(), Some("o"));
    assert_eq!(parsed.metadata.as_deref(), Some("m"));
    assert_eq!(parsed.run_id.as_deref(), Some("r"));
    let last = RunnerArguments::parse(&words("--case a --case b")).unwrap();
    assert_eq!(last.case_id, "b");
    assert_eq!(last.output, None);
    assert_eq!(
        RunnerArguments::parse(&words("--output o")).unwrap_err().message(),
        "--case is required"
    );
    assert_eq!(
        RunnerArguments::parse(&words("--case a --case")).unwrap_err().message(),
        "--case is required"
    );
    assert_eq!(
        RunnerArguments::parse(&words("--what")).unwrap_err().message(),
        "unknown argument: --what"
    );
}

#[test]
fn child_arguments_are_read() {
    let parsed = ChildArguments::parse(&words("--topic t --case a --run-id r")).unwrap();
    assert_eq!(
        (parsed.case_id.as_str(), parsed.topic.as_str(), parsed.run_id.as_str()),
        ("a", "t", "r")
    );
    let cases = [
        ("--topic t --run-id r", "--case is required"),
        ("--case a --run-id r", "--topic is required"),
        ("--case a --topic t", "--run-id is required"),
        ("--output o", "unknown argument: --output"),
    ];
    for (line, expected) in cases {
        assert_eq!(ChildArguments::parse(&words(line)).unwrap_err().message(), expected);
    }
}

#[test]
fn payload_follows_index_and_sequence() {
    let message = make_message(250, 3, 9);
    assert_eq!(message.payload, vec![250, 0, 1]);
    assert_eq!((message.sequence, message.sent_monotonic_ns), (250, 9));
    assert!(message == message.clone());
    assert!(message != make_message(251, 3, 9));
}

#[test]
fn message_is_encoded_in_big_endian() {
    let message = make_message(1, 2, 0x0203);
    let bytes = serialize_message(&message).unwrap();
    assert_eq!(
        bytes,
        vec![
            0, 0, 0, 0, 0, 0, 0, 0, 0, 0, 0, 1, 0, 0, 0, 0, 0, 0, 2, 3, 0, 0, 0, 2, 1, 2
        ]
    );
    assert!(deserialize_message(&bytes).unwrap() == message);
    let short = bytes[0..10].to_vec();
    let expected = cdr::deserialize::<(u64, u64, Vec<u8>)>(&short).unwrap_err().to_string();
    assert_eq!(deserialize_message(&short).unwrap_err().message(), expected);
    let mut other = bytes.clone();
    other[1] = 9;
    assert_eq!(
        deserialize_message(&other).unwrap_err().message(),
        "encapsulation is not valid"
    );
}

#[test]
fn summary_takes_values_in_any_order() {
    let summary = latency_summary(vec![40, 10, 30, 20]).unwrap();
    assert_eq!((summary.min_ns, summary.p50_ns, summary.max_ns), (10, 30, 40));
    let hundred: Vec<u64> = (1..=101).collect();
    assert_eq!(percentile(&hundred, 50), 51);
    assert_eq!(percentile(&hundred, 95), 96);
    assert_eq!(percentile(&hundred, 99), 100);
    assert_eq!(percentile(&hundred, 100), 101);
    assert_eq!(percentile(&[5], 99), 5);
    let large = latency_summary(vec![u64::MAX, u64::MAX]).unwrap();
    assert_eq!(large.mean_ns, u64::MAX);
}

#[test]
fn pacer_keeps_the_rate() {
    assert_eq!(period_ns(Some(4)), Some(250_000_000));
    assert_eq!(period_ns(Some(0)), None);
    assert_eq!(period_ns(None), None);
    let mut pacer = Pacer::new(Some(4), 1_000);
    assert_eq!(pacer.pause_ns(1_000), 0);
    pacer.advance();
    assert_eq!(pacer.pause_ns(1_000), 250_000_000);
    assert_eq!(pacer.pause_ns(400_000_000), 0);
    let mut free = Pacer::new(None, 1_000);
    free.advance();
    assert_eq!(free.pause_ns(0), 0);
}

#[test]
fn publication_measures_behind_the_warmup() {
    let mut publication = Publication::new(1, 3, 2);
    let mut clock = 100;
    let mut sequences = Vec::new();
    while publication.wants_more() {
        let message = publication.next_message(clock);
        sequences.push((message.sequence, message.sent_monotonic_ns));
        publication.written(clock + 5);
        clock += 10;
    }
    assert_eq!(sequences, vec![(0, 100), (1, 110), (2, 120)]);
    assert_eq!(publication.bytes_sent, 6);
    assert_eq!(publication.elapsed_ns(999), 15);
    let empty = Publication::new(0, 0, 2);
    assert!(!empty.wants_more());
    assert_eq!(empty.elapsed_ns(999), 999);
    assert_eq!(
        done_line("r", 3, 6, 15),
        "DONE role=publisher run_id=r messages_sent=3 bytes_sent=6 elapsed_ns=15"
    );
}

fn resolved(warmup_messages: u64, measured_messages: u64) -> ResolvedCase {
    let definition = BenchmarkCase {
        warmup_messages,
        measured_messages,
        ..case("c", PayloadDefinition::Fixed { bytes: 2 })
    };
    definition.resolve().unwrap()
}

#[test]
fn complete_reception_is_ok() {
    let resolved_case = resolved(1, 2);
    let mut reception = Reception::new(1, 3, 2);
    for (sequence, at) in [(0, 10), (1, 30), (2, 60)] {
        assert!(reception.wants_more());
        reception.note(true, &make_message(sequence, 2, at - 5), at);
    }
    assert!(!reception.wants_more());
    assert_eq!(reception.missing(), 0);
    assert_eq!(reception.elapsed_ns(), 30);
    let record = reception.finished("r", "c", &resolved_case.definition, &resolved_case);
    assert_eq!(record.status, "ok");
    assert_eq!(record.error, None);
    assert_eq!(record.messages_received, 3);
    assert_eq!(record.bytes_received, 6);
    assert_eq!(record.bytes_sent, 6);
    assert_eq!(record.elapsed_ns, 30);
    assert_eq!(record.latency.as_ref().unwrap().count, 2);
    assert_eq!(record.latency.as_ref().unwrap().mean_ns, 5);
    let throughput = record.throughput_bytes_per_sec.as_ref().unwrap();
    assert_eq!(
        (throughput.measured_messages, throughput.payload_bytes, throughput.elapsed_ns),
        (2, 2, 30)
    );
    assert!(record.verdict().is_ok());
}

#[test]
fn reception_counts_what_goes_wrong() {
    let resolved_case = resolved(0, 4);
    let mut reception = Reception::new(0, 4, 2);
    reception.note(true, &make_message(2, 2, 0), 10);
    reception.note(true, &make_message(0, 2, 0), 20);
    reception.note(true, &make_message(0, 2, 0), 30);
    assert_eq!(reception.missing(), 2);
    let record = reception.finished("r", "c", &resolved_case.definition, &resolved_case);
    assert_eq!((record.missing, record.duplicate, record.out_of_order), (2, 1, 1));
    assert_eq!(record.status, "error");
    assert_eq!(record.error.as_deref(), Some("missing 2 samples"));
    assert_eq!(record.verdict().unwrap_err().message(), "missing 2 samples");
}

#[test]
fn reception_reports_bad_messages() {
    let resolved_case = resolved(0, 1);
    let finish = |reception: Reception| -> Option<String> {
        reception.finished("r", "c", &resolved_case.definition, &resolved_case).error
    };
    let mut invalid = Reception::new(0, 1, 2);
    invalid.note(false, &make_message(0, 2, 0), 10);
    assert_eq!(finish(invalid).as_deref(), Some("received invalid sample"));

    let mut other = Reception::new(0, 1, 2);
    let message = BenchmarkMessage { payload: vec![9, 9], ..make_message(0, 2, 0) };
    other.note(true, &message, 10);
    assert_eq!(finish(other).as_deref(), Some("payload mismatch at sequence 0"));

    let mut early = Reception::new(0, 1, 2);
    early.note(true, &make_message(0, 2, 50), 10);
    assert_eq!(finish(early).as_deref(), Some("negative latency at sequence 0"));
}

#[test]
fn record_of_a_failed_case_holds_the_reason() {
    let resolved_case = resolved(1, 2);
    let record = failed_record("r", &resolved_case.definition, &resolved_case, "why".to_string());
    assert_eq!(record.status, "error");
    assert_eq!(record.case_id, "c");
    assert_eq!(record.messages_sent, 0);
    assert_eq!(record.verdict().unwrap_err().message(), "why");
    let nameless: ResultRecord<Throughput> = ResultRecord { error: None, ..record };
    assert_eq!(nameless.verdict().unwrap_err().message(), "benchmark case failed");
}

#[test]
fn record_is_settled_with_what_was_sent() {
    let resolved_case = resolved(0, 1);
    let make = || -> ResultRecord<Throughput> {
        let mut reception = Reception::new(0, 1, 2);
        reception.note(true, &make_message(0, 2, 0), 10);
        reception.finished("r", "c", &resolved_case.definition, &resolved_case)
    };
    let settled = make().settled(Some(7), Some(14), true, true);
    assert_eq!((settled.messages_sent, settled.bytes_sent), (7, 14));
    assert_eq!(settled.status, "ok");
    let unknown = make().settled(None, None, true, true);
    assert_eq!((unknown.messages_sent, unknown.bytes_sent), (0, 0));
    for (subscriber, publisher) in [(false, true), (true, false)] {
        let failed = make().settled(Some(1), Some(2), subscriber, publisher);
        assert_eq!(failed.status, "error");
        assert_eq!(
            failed.error.as_deref(),
            Some("publisher or subscriber exited unsuccessfully")
        );
    }
}

#[test]
fn cdr_run_encodes_and_decodes_every_message() {
    let resolved_case = resolved(1, 2);
    let record = run_cdr("r", &resolved_case.definition, &resolved_case).unwrap();
    assert_eq!(record.status, "ok");
    assert_eq!(record.interface, "none");
    assert_eq!(record.roundtrip_ok, Some(true));
    assert_eq!(record.serialized_bytes, 26);
    assert_eq!(record.bytes_sent, 52);
    assert_eq!(
        record.elapsed_ns,
        record.serialize_elapsed_ns.unwrap() + record.deserialize_elapsed_ns.unwrap()
    );
}

#[test]
fn cdr_run_counts_behind_the_warmup() {
    let resolved_case = resolved(1, 2);
    let mut run = CdrRun::new(&resolved_case.definition, &resolved_case);
    run.serialized(0, 1000, &vec![0; 7]);
    run.serialized(1, 10, &vec![0; 8]);
    run.deserialized(0, 1000, &make_message(0, 2, 0), &make_message(5, 2, 0));
    run.deserialized(1, 20, &make_message(1, 2, 0), &make_message(1, 2, 0));
    let record = run.finished("r", &resolved_case.definition, &resolved_case);
    assert_eq!(record.serialize_elapsed_ns, Some(10));
    assert_eq!(record.deserialize_elapsed_ns, Some(20));
    assert_eq!(record.status, "ok");
    run.deserialized(2, 20, &make_message(1, 2, 0), &make_message(2, 2, 0));
    let record = run.finished("r", &resolved_case.definition, &resolved_case);
    assert_eq!(record.status, "error");
    assert_eq!(record.error.as_deref(), Some("CDR roundtrip mismatch"));
    assert_eq!(record.roundtrip_ok, Some(false));
}

#[test]
fn configurations_are_written() {
    let with = xml_config(true);
    let without = xml_config(false);
    assert!(with.starts_with("<?xml version=\"1.0\" encoding=\"UTF-8\" ?>\n<CycloneDDS"));
    assert!(with.contains("      <Enable>true</Enable>\n"));
    assert!(without.contains("      <Enable>false</Enable>\n"));
    assert!(with.ends_with("</CycloneDDS>"));
    assert!(with.contains("<MaxMessageSize>14720B</MaxMessageSize>"));
    assert!(with.contains("<FragmentSize>1344B</FragmentSize>"));
    assert!(roudi_config().starts_with("[general]\nversion = 1\n\n[[segment]]\n"));
    assert!(roudi_config().ends_with("size = 4194304\ncount = 10\n"));
}

#[test]
fn reports_of_the_host_are_read() {
    assert_eq!(
        rustc_host("rustc 1.0\nhost: x86_64-unknown-linux-gnu \nrelease: 1.0\n").as_deref(),
        Some("x86_64-unknown-linux-gnu")
    );
    assert_eq!(rustc_host("rustc 1.0\n"), None);
    assert_eq!(memory_kib("MemFree: 1 kB\nMemTotal:       16384 kB\n"), Some(16384));
    assert_eq!(memory_kib("MemTotal: many kB\n"), None);
    assert_eq!(memory_kib("MemFree: 1 kB\n"), None);
    assert_eq!(kib_to_bytes(16384), 16_777_216);
    assert_eq!(first_word("\n  abc  file\n").as_deref(), Some("abc"));
    assert_eq!(first_word(" \n"), None);
}

#[test]
fn clock_saturates() {
    assert_eq!(timespec_ns(3, 4), 3_000_000_004);
    assert_eq!(timespec_ns(u64::MAX, 1), u64::MAX);
}

#[test]
fn both_sides_of_a_run_have_the_same_policies() {
    let qos = make_qos().unwrap();
    assert_eq!(qos.reliability(), Some((ReliabilityKind::Reliable, 1_000_000_000)));
    assert_eq!(qos.durability(), Some(DurabilityKind::Volatile));
    assert_eq!(qos.history(), Some((HistoryKind::KeepLast, 32)));
    assert_eq!(qos.deadline(), None);
    assert_eq!(
        matched_listener("m", true).registered_events(),
        vec![Event::PublicationMatched]
    );
    assert_eq!(
        matched_listener("m", false).registered_events(),
        vec![Event::SubscriptionMatched]
    );
    assert!(note_matched(false, 1));
    assert!(note_matched(true, 0));
    assert!(!note_matched(false, 0));
    assert!(matches!(wait_for_match(true, 9, 5), MatchWait::Matched));
    assert!(matches!(wait_for_match(false, 4, 5), MatchWait::LookAgain));
    match wait_for_match(false, 5, 5) {
        MatchWait::TimedOut(error) => {
            assert_eq!(error.message(), "DDS publication/subscription match timeout")
        }
        _ => panic!("no timeout"),
    }
}

fn known<T>(finding: Finding<T>) -> T {
    match finding {
        Finding::Known(value) => value,
        Finding::Unavailable(reason) => panic!("{reason}"),
    }
}

fn reason<T>(finding: Finding<T>) -> String {
    match finding {
        Finding::Known(_) => panic!("nothing is amiss"),
        Finding::Unavailable(reason) => reason,
    }
}

fn ended(code: Option<i32>, stdout: &'static str, stderr: &'static str) -> CommandOutput<'static> {
    CommandOutput { success: code == Some(0), code, stdout, stderr }
}

#[test]
fn commands_that_fail_say_why() {
    assert_eq!(known(command_value("git", &ended(Some(0), " abc\n", "warned"))), "abc");
    assert_eq!(
        reason(command_value("git", &ended(Some(128), "abc", " no repository\n"))),
        "git exited with Some(128): no repository"
    );
    assert_eq!(
        reason(command_value("git", &ended(Some(-7), "", ""))),
        "git exited with Some(-7): "
    );
    assert_eq!(
        reason(command_value("git", &ended(None, "", "gone"))),
        "git exited with None: gone"
    );
    assert_eq!(command_string(&ended(Some(0), "x\n", "")).as_deref(), Some("x"));
    assert_eq!(command_string(&ended(Some(1), "x\n", "")), None);
    assert_eq!(is_dirty(Some(String::new())), Some(false));
    assert_eq!(is_dirty(Some(" M file".to_string())), Some(true));
    assert_eq!(is_dirty(None), None);
}

#[test]
fn what_the_tools_leave_out_is_named() {
    assert_eq!(known(rustc_target_value(&ended(Some(0), "host: aarch64\n", ""))), "aarch64");
    assert_eq!(
        reason(rustc_target_value(&ended(Some(0), "rustc 1.0\n", ""))),
        "rustc host target is unavailable"
    );
    assert_eq!(reason(rustc_target_value(&ended(Some(1), "host: a\n", "bad \n"))), "bad");
    assert_eq!(known(file_hash_value(&ended(Some(0), "00ff  Cargo.lock\n", ""))), "00ff");
    assert_eq!(
        reason(file_hash_value(&ended(Some(0), " \n", ""))),
        "sha256sum returned no digest"
    );
    assert_eq!(reason(file_hash_value(&ended(Some(1), "00ff", "no file\n"))), "no file");
    assert_eq!(known(memory_value("MemTotal: 2 kB\n")), 2048);
    assert_eq!(reason(memory_value("MemFree: 2 kB\n")), "MemTotal is unavailable");
    assert_eq!(known(runner(Some("a".to_string()), Some("b".to_string()))), "a");
    assert_eq!(known(runner(None, Some("b".to_string()))), "b");
    assert_eq!(reason(runner(None, None)), "RUNNER_NAME and HOSTNAME are unavailable");
}

#[test]
fn packages_without_a_version_are_passed_over() {
    let package = |name: Option<&str>, version: Option<&str>| Package {
        name: name.map(str::to_string),
        version: version.map(str::to_string),
    };
    let listed = vec![
        package(Some("b"), Some("2.0.0")),
        package(Some("c"), None),
        package(None, Some("1.0.0")),
        package(Some("a"), Some("0.1.0")),
    ];
    assert_eq!(
        known(cargo_package_versions(Some(listed))),
        vec![
            ("b".to_string(), "2.0.0".to_string()),
            ("a".to_string(), "0.1.0".to_string()),
        ]
    );
    assert_eq!(reason(cargo_package_versions(None)), "cargo metadata has no packages");

    let report = br#"{"packages": [{"name": "b", "version": "2.0.0"}, {"name": "c"},
        {"name": 1, "version": "1.0.0"}, {"name": "a", "version": "0.1.0"}]}"#;
    assert_eq!(
        known(package_versions(true, report, "")),
        vec![
            ("b".to_string(), "2.0.0".to_string()),
            ("a".to_string(), "0.1.0".to_string()),
        ]
    );
    assert_eq!(
        reason(package_versions(true, b"{\"packages\": 3}", "")),
        "cargo metadata has no packages"
    );
    let expected = serde_json::from_slice::<serde_json::Value>(b"{").unwrap_err().to_string();
    assert_eq!(reason(package_versions(true, b"{", "")), expected);
    assert_eq!(reason(package_versions(false, report, " no manifest\n")), "no manifest");
}

#[test]
fn last_version_of_a_package_counts() {
    let report = br#"{"packages": [{"name": "a", "version": "1.0.0"},
        {"name": "b", "version": "2.0.0"}, {"name": "a", "version": "3.0.0"}]}"#;
    assert_eq!(
        known(package_versions(true, report, "")),
        vec![
            ("a".to_string(), "3.0.0".to_string()),
            ("b".to_string(), "2.0.0".to_string()),
        ]
    );
}

#[test]
fn numbers_fail_for_the_first_fault() {
    assert_eq!(known(number_value(" 65536\n")), 65536);
    assert_eq!(known(number_value("+7")), 7);
    assert_eq!(known(number_value("18446744073709551615")), u64::MAX);
    for text in [
        "",
        " \n",
        "+",
        "-",
        "-1",
        "++1",
        "1 2",
        "12x",
        "x12",
        "18446744073709551616",
        "99999999999999999999999x",
        "1844674407370955161x9999",
    ] {
        let expected = text.trim().parse::<u64>().unwrap_err().to_string();
        assert_eq!(reason(number_value(text)), expected, "{text:?}");
    }
}
