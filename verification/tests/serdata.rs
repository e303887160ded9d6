use std::sync::Arc;

use cyclonedds_rs::serdata::{
    assemble, copy_cdr_data, Fragment, KeyHash, LoanState, LoanedBytes, SampleData,
    SerData, SerdataKind, ToSer,
};
use cyclonedds_rs::sertype::{
    fits_into, free_samples, fresh_count, realloc_samples, sertype_hash, shared_memory_size,
    type_label, FreeAction,
};
use cyclonedds_rs::stats::{
    count_discarded_sample, discarded_samples, DiscardReason, DiscardedSamples,
};
use cyclonedds_rs::util::SGReader;

type TestTypeAlloc = (u32, f32, String);

fn new_sample(a: u32, b: f32, s: String) -> TestTypeAlloc {
    (a, b, s)
}

fn samples(count: usize) -> Vec<TestTypeAlloc> {
    (0..count)
        .map(|i| new_sample(i as u32, i as f32 * 1.1, i.to_string().repeat(i)))
        .collect()
}

fn sized_sample(id: u32, size: usize) -> TestTypeAlloc {
    let step = size / 36;
    let mut s = String::with_capacity(size);
    for i in 0..36u32 {
        s.push_str(
            &(std::char::from_u32(b'0' as u32 + i)
                .unwrap()
                .to_string()
                .repeat(step)),
        );
    }
    new_sample(id, id as f32 * 1.1, s)
}

fn encode(value: &TestTypeAlloc) -> Vec<u8> {
    cdr::serialize::<_, _, cdr::CdrBe>(value, cdr::Infinite).unwrap()
}

fn encode_on_demand(value: &Arc<TestTypeAlloc>) -> Option<Vec<u8>> {
    Some(encode(value))
}

fn size_of(serdata: &SerData<TestTypeAlloc>) -> u32 {
    serdata.get_size(|value: &Arc<TestTypeAlloc>| cdr::calc_serialized_size(value.as_ref()))
}

#[test]
fn test_serdata_ops_iov() {
    let mut discarded = DiscardedSamples::default();
    for expect in samples(3) {
        let mut serdata = SerData::from_sample(SerdataKind::Data, Arc::new(expect.clone()), 1);
        assert!(serdata.cdr.is_none());
        let size = size_of(&serdata) as usize;
        let part = serdata.to_ser_ref(0, size, encode_on_demand).unwrap();
        let mut recv: SerData<TestTypeAlloc> =
            SerData::from_ser_iov(SerdataKind::Data, &vec![part], size, &mut discarded).unwrap();
        assert!(serdata.cdr.is_some());
        assert!(recv.cdr.is_some());
        if !matches!(recv.sample, SampleData::Uninitialized) {
            panic!("Expected Uninitialized sample data");
        }
        assert!(recv.to_sample(|bytes: &Vec<u8>| {
            let decoded: TestTypeAlloc = cdr::deserialize(bytes).unwrap();
            Some(Arc::new(decoded))
        }));
        match &recv.sample {
            SampleData::SdkData(act) => assert_eq!(&expect, act.as_ref()),
            _ => panic!("no value"),
        }
    }
}

#[test]
fn test_discarded_sample_is_counted() {
    let sample = samples(1).into_iter().next().unwrap();
    let mut serdata = SerData::from_sample(SerdataKind::Data, Arc::new(sample), 1);
    let invalid_size = size_of(&serdata) as usize + 1;
    let part = serdata.to_ser_ref(0, invalid_size - 1, encode_on_demand).unwrap();

    let mut counters = DiscardedSamples::default();
    let before = discarded_samples(&counters);
    let res: Option<SerData<TestTypeAlloc>> =
        SerData::from_ser_iov(SerdataKind::Data, &vec![part], invalid_size, &mut counters);
    assert!(res.is_none());
    let after = discarded_samples(&counters);

    let expected = DiscardedSamples { invalid_fragchain: 0, cdr_assembly_failed: 1 };
    let actual = DiscardedSamples {
        invalid_fragchain: after.invalid_fragchain - before.invalid_fragchain,
        cdr_assembly_failed: after.cdr_assembly_failed - before.cdr_assembly_failed,
    };
    assert_eq!(expected, actual);
}

#[test]
fn test_serdata_ops_fragchain() {
    let td = [
        (64, 1, 32),
        (128, 1, 1024),
        (1024, 1, 2048),
        (1344, 1, 21 * 1024),
    ];

    for (frag_size, id, size) in td {
        let mut serdata =
            SerData::from_sample(SerdataKind::Data, Arc::new(sized_sample(id, size)), 0);
        let total = size_of(&serdata);
        let mut offset = 0u32;
        let mut serialized_data = Vec::new();
        while offset < total {
            let chunk_size = std::cmp::min(frag_size, total - offset);
            let part = serdata
                .to_ser_ref(offset as usize, chunk_size as usize, encode_on_demand)
                .unwrap();
            serialized_data.extend_from_slice(part);
            offset += chunk_size;
        }
        assert_eq!(serdata.cdr.as_ref().unwrap().as_slice(), serialized_data.as_slice());
    }
}

#[test]
fn test_sertype_ops_realloc() {
    let sizes = [1usize, 4, 2, 8, 1, 16, 3];

    for i in 1..32 {
        let fresh: Vec<Option<u8>> = vec![None; fresh_count(0, i)];
        let made = realloc_samples(Vec::new(), fresh, i);
        assert_eq!(made.samples.len(), i);
        assert_eq!(free_samples(made.samples.len(), true, false), FreeAction::All);
    }

    let mut old: Vec<Option<u8>> = Vec::new();
    for &size in &sizes {
        let fresh = vec![None; fresh_count(old.len(), size)];
        let lost = old.len().saturating_sub(size);
        let made = realloc_samples(old, fresh, size);
        assert_eq!(made.released.len(), lost);
        old = made.samples;
        assert_eq!(old.len(), size);
        assert!(old.iter().all(|sample| sample.is_none()));
    }
    assert_eq!(free_samples(old.len(), false, true), FreeAction::Contents);
    assert_eq!(free_samples(old.len(), true, false), FreeAction::All);
    assert_eq!(free_samples(0, false, false), FreeAction::Nothing);
}

#[test]
fn reallocation_keeps_samples_at_their_place() {
    let shrunk = realloc_samples(vec![1, 2, 3], Vec::new(), 2);
    assert_eq!(shrunk.samples, vec![1, 2]);
    assert_eq!(shrunk.released, vec![3]);
    let grown = realloc_samples(vec![1, 2], vec![9, 9], 4);
    assert_eq!(grown.samples, vec![1, 2, 9, 9]);
    assert!(grown.released.is_empty());
}

#[test]
fn fragments_with_overlap_give_the_whole() {
    let bytes: Vec<u8> = (0..10).collect();
    let fragments = vec![
        Fragment { min: 0, maxp1: 4, payload: &bytes[0..4] },
        Fragment { min: 2, maxp1: 7, payload: &bytes[2..7] },
        Fragment { min: 1, maxp1: 3, payload: &bytes[1..3] },
        Fragment { min: 7, maxp1: 10, payload: &bytes[7..10] },
    ];
    assert_eq!(assemble(&fragments, 10).unwrap(), bytes);
}

#[test]
fn fragments_are_thrown_away_with_a_reason() {
    let bytes: Vec<u8> = (0..10).collect();
    let gap = vec![
        Fragment { min: 0, maxp1: 4, payload: &bytes[0..4] },
        Fragment { min: 5, maxp1: 10, payload: &bytes[5..10] },
    ];
    assert_eq!(assemble(&gap, 10), Err(DiscardReason::InvalidFragchain));
    let too_long = vec![Fragment { min: 0, maxp1: 10, payload: &bytes[0..10] }];
    assert_eq!(assemble(&too_long, 9), Err(DiscardReason::InvalidFragchain));
    let too_short = vec![Fragment { min: 0, maxp1: 4, payload: &bytes[0..4] }];
    assert_eq!(assemble(&too_short, 10), Err(DiscardReason::CdrAssemblyFailed));

    let mut counters = DiscardedSamples::default();
    let none: Option<SerData<u8>> =
        SerData::from_fragchain(SerdataKind::Data, &gap, 10, &mut counters);
    assert!(none.is_none());
    let whole = vec![Fragment { min: 0, maxp1: 10, payload: &bytes[0..10] }];
    let some: SerData<u8> =
        SerData::from_fragchain(SerdataKind::Data, &whole, 10, &mut counters).unwrap();
    assert_eq!(some.cdr, Some(bytes.clone()));
    assert_eq!(some.forward_get_size(), 10);
    assert_eq!(counters, DiscardedSamples { invalid_fragchain: 1, cdr_assembly_failed: 0 });
}

#[test]
fn key_of_sixteen_bytes_is_given_back() {
    let given: [u8; 16] = [1, 2, 3, 4, 5, 6, 7, 8, 9, 10, 11, 12, 13, 14, 15, 16];
    let serdata: SerData<u8> = SerData::from_keyhash(&given);
    assert_eq!(serdata.kind, SerdataKind::Key);
    assert_eq!(serdata.key_hash.key_length(), 20);
    assert_eq!(serdata.get_size(|_value: &Arc<u8>| 99), 20);
    let mut found = [0u8; 16];
    serdata.get_keyhash(&mut found);
    assert_eq!(found, given);

    let untyped = serdata.to_untyped();
    assert!(!untyped.typed);
    assert!(untyped.eqkey(&serdata));
    let keyless: SerData<u8> = SerData::new(SerdataKind::Data);
    assert!(!untyped.eqkey(&keyless));
    assert_eq!(keyless.key_hash.key_length(), 0);
    let mut kept = [7u8; 16];
    keyless.get_keyhash(&mut kept);
    assert_eq!(kept, [7u8; 16]);
    assert!(KeyHash::default() == KeyHash::NoKey);
}

#[test]
fn key_is_served_whole() {
    let mut serdata: SerData<u8> = SerData::from_keyhash(&[3; 16]);
    let part = serdata.to_ser_ref(5, 2, |_value: &Arc<u8>| None).unwrap();
    assert_eq!(part.len(), 20);
    assert_eq!(&part[0..4], &[0, 0, 0, 0]);
}

#[test]
fn buffer_is_filled_up_with_zeros() {
    assert_eq!(copy_cdr_data(&[1, 2, 3], 2, 0), vec![1, 2]);
    assert_eq!(copy_cdr_data(&[1, 2, 3], 4, 1), vec![2, 3, 0, 0]);
    assert_eq!(copy_cdr_data(&[1, 2, 3], 2, 5), vec![0, 0]);

    let mut serdata = SerData::from_sample(SerdataKind::Data, Arc::new(5u8), 0);
    assert!(matches!(serdata.to_ser(0, 0, |_value: &Arc<u8>| None), ToSer::Nothing));
    assert!(matches!(serdata.to_ser(4, 0, |_value: &Arc<u8>| None), ToSer::Failed));
    assert_eq!(serdata.forward_to_ser(4, 0), None);
    assert_eq!(serdata.get_size(|_value: &Arc<u8>| 17), 17);
    assert_eq!(serdata.forward_get_size(), 0);
    serdata.serialize_sample(|_value: &Arc<u8>| Some(vec![9, 8, 7]));
    assert_eq!(serdata.forward_to_ser(4, 0), Some(vec![9, 8, 7, 0]));
    assert_eq!(serdata.forward_to_ser_ref(1, 9), Some(&[8u8, 7u8][..]));
    assert_eq!(serdata.get_size(|_value: &Arc<u8>| 17), 3);
    match serdata.to_ser(2, 1, |_value: &Arc<u8>| None) {
        ToSer::Bytes(bytes) => assert_eq!(bytes, vec![8, 7]),
        _ => panic!("no bytes"),
    }
}

#[test]
fn buffer_gets_bytes_from_the_offset_on() {
    let encode = |value: &Arc<u8>| Some(vec![0, 0, 0, 0, **value, 7]);
    let mut serdata = SerData::from_sample(SerdataKind::Data, Arc::new(5u8), 0);
    let fresh = serdata.to_ser(2, 4, encode);
    assert!(matches!(&fresh, ToSer::Bytes(bytes) if *bytes == vec![5, 7]));
    assert!(serdata.cdr.is_none());
    serdata.serialize_sample(encode);
    let kept = serdata.to_ser(2, 4, |_value: &Arc<u8>| None);
    assert!(matches!(&kept, ToSer::Bytes(bytes) if *bytes == vec![5, 7]));

    let key: SerData<u8> = SerData::from_keyhash(&[3; 16]);
    let part = key.to_ser(3, 3, |_value: &Arc<u8>| None);
    assert!(matches!(&part, ToSer::Bytes(bytes) if *bytes == vec![0, 3, 3]));
}

#[test]
fn shared_memory_holds_plain_encodings_only() {
    let data = [0u8, 0, 0, 0, 5];
    let loan = LoanedBytes {
        state: LoanState::SerializedData,
        cdr_identifier: 0,
        cdr_options: 0,
        statusinfo: 3,
        timestamp: 44,
        data: &data,
    };
    let serdata: SerData<u8> = SerData::from_psmx(Some(&loan)).unwrap();
    assert_eq!(serdata.cdr, Some(data.to_vec()));
    assert_eq!((serdata.statusinfo, serdata.timestamp), (3, 44));
    assert_eq!(serdata.kind, SerdataKind::Data);

    let key = LoanedBytes { state: LoanState::SerializedKey, ..loan };
    assert_eq!(SerData::<u8>::from_psmx(Some(&key)).unwrap().kind, SerdataKind::Key);
    let raw = LoanedBytes { state: LoanState::Other, ..loan };
    assert!(SerData::<u8>::from_psmx(Some(&raw)).is_none());
    let little = LoanedBytes { cdr_identifier: 1, ..loan };
    assert!(SerData::<u8>::from_psmx(Some(&little)).is_none());
    let padded = LoanedBytes { cdr_options: 2, ..loan };
    assert!(SerData::<u8>::from_psmx(Some(&padded)).is_none());
    assert!(SerData::<u8>::from_psmx(None).is_none());
}

#[test]
fn sample_without_bytes_cannot_be_decoded() {
    let mut serdata: SerData<u8> = SerData::new(SerdataKind::Data);
    assert!(!serdata.to_sample(|_bytes: &Vec<u8>| Some(Arc::new(1))));
    assert!(!serdata.has_value());
    serdata.cdr = Some(vec![0, 0, 0, 0, 1]);
    assert!(!serdata.to_sample(|_bytes: &Vec<u8>| None));
    assert!(!serdata.has_value());
    assert!(serdata.to_sample(|bytes: &Vec<u8>| Some(Arc::new(bytes[4]))));
    assert!(serdata.has_value());
    assert!(serdata.to_sample(|_bytes: &Vec<u8>| None));
    match &serdata.sample {
        SampleData::SdkData(value) => assert_eq!(**value, 1),
        _ => panic!("no value"),
    }
}

#[test]
fn value_is_encoded_once() {
    let mut serdata = SerData::from_sample(SerdataKind::Data, Arc::new(5u8), 0);
    assert_eq!(serdata.to_ser_ref(0, 9, |_value: &Arc<u8>| None), None);
    assert!(serdata.cdr.is_none());
    let first = serdata.to_ser_ref(1, 9, |value: &Arc<u8>| Some(vec![0, **value, 7]));
    assert_eq!(first, Some(&[5u8, 7u8][..]));
    let second = serdata.to_ser_ref(0, 2, |_value: &Arc<u8>| Some(vec![1, 1, 1]));
    assert_eq!(second, Some(&[0u8, 5u8][..]));
}

#[test]
fn parts_are_read_as_one() {
    let parts: Vec<&[u8]> = vec![&[1, 2], &[], &[3, 4, 5]];
    assert_eq!(SGReader::new(&parts).into_vec(4).unwrap(), vec![1, 2, 3, 4]);
    assert!(SGReader::new(&parts).into_vec(6).is_err());
}

#[test]
fn hash_of_a_type_is_that_of_its_name_and_size() {
    let expected = murmur3::murmur3_32(&mut &b"test\x08\x00"[..], 0).unwrap();
    assert_eq!(sertype_hash(b"test", &[8, 0]), expected);
    assert_eq!(sertype_hash(b"", &[]), 0);
    assert_eq!(sertype_hash(b"te", b"st"), 0xba6b_d213);
    assert_ne!(sertype_hash(b"test", &[8, 0]), sertype_hash(b"test", &[9, 0]));
}

#[test]
fn type_names_fall_back() {
    assert_eq!(type_label(Some(b"pkg::Point")), "pkg::Point");
    assert_eq!(type_label(Some(&[0xff, 0x41])), "Untyped");
    assert_eq!(type_label(None), "Untyped");
    assert_eq!(shared_memory_size(true, 12), Some(12));
    assert_eq!(shared_memory_size(false, 12), None);
    assert!(fits_into(4, 4));
    assert!(!fits_into(5, 4));
}

#[test]
fn discarded_samples_are_counted_by_reason() {
    let mut counters = DiscardedSamples::default();
    assert_eq!(counters.total(), 0);
    count_discarded_sample(&mut counters, DiscardReason::InvalidFragchain);
    count_discarded_sample(&mut counters, DiscardReason::InvalidFragchain);
    count_discarded_sample(&mut counters, DiscardReason::CdrAssemblyFailed);
    let seen = discarded_samples(&counters);
    assert_eq!(seen, DiscardedSamples { invalid_fragchain: 2, cdr_assembly_failed: 1 });
    assert_eq!(seen.total(), 3);
}
