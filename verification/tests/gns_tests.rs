use gnunet::codec::decode;
use gnunet::correlator::{ChannelError, Failure};
use gnunet::gns::{
    lookup, lookup_in_master, lookup_payload, master_options, single_record, LocalOptions,
    LookupBatch, LookupError, LookupQuery, LookupResult, GNS, MAX_NAME_LENGTH,
    MESSAGE_TYPE_GNS_LOOKUP, MESSAGE_TYPE_GNS_LOOKUP_RESULT,
};
use gnunet::identity::Ego;
use gnunet::keys::{EcdsaPrivateKey, EcdsaPublicKey, HashCode};
use gnunet::record::Record;

fn query(name: &str) -> LookupQuery {
    LookupQuery {
        name: name.to_string(),
        zone: EcdsaPublicKey { bytes: [7u8; 32] },
        record_type: 1,
        options: LocalOptions::Default,
        shorten: None,
    }
}

fn record(tag: u8) -> Record {
    Record { expiration: 1000 + tag as u64, record_type: 1, flags: 0, data: vec![tag, tag] }
}

fn record_bytes(r: &Record) -> Vec<u8> {
    let mut out = Vec::new();
    out.extend_from_slice(&r.expiration.to_be_bytes());
    out.extend_from_slice(&r.record_type.to_be_bytes());
    out.extend_from_slice(&r.flags.to_be_bytes());
    out.extend_from_slice(&(r.data.len() as u32).to_be_bytes());
    out.extend_from_slice(&r.data);
    out
}

fn result_body(id: u32, records: &[Record]) -> Vec<u8> {
    let mut out = Vec::new();
    out.extend_from_slice(&id.to_be_bytes());
    out.extend_from_slice(&(records.len() as u32).to_be_bytes());
    for r in records {
        out.extend(record_bytes(r));
    }
    out
}

#[test]
fn local_options_codes() {
    assert_eq!(LocalOptions::Default.code(), 0);
    assert_eq!(LocalOptions::NoDHT.code(), 1);
    assert_eq!(LocalOptions::LocalMaster.code(), 2);
}

#[test]
fn message_type_codes() {
    assert_eq!(MESSAGE_TYPE_GNS_LOOKUP, 500);
    assert_eq!(MESSAGE_TYPE_GNS_LOOKUP_RESULT, 501);
    assert_eq!(MAX_NAME_LENGTH, 253);
}

#[test]
fn lookup_payload_layout_without_shorten_key() {
    let q = LookupQuery {
        name: "gnu.org".to_string(),
        zone: EcdsaPublicKey { bytes: [0xab; 32] },
        record_type: 0x0001_0002,
        options: LocalOptions::LocalMaster,
        shorten: None,
    };
    let mut expected = vec![0xab; 32];
    expected.extend_from_slice(&[0, 2]);
    expected.extend_from_slice(&[0, 0]);
    expected.extend_from_slice(&[0, 1, 0, 2]);
    expected.extend_from_slice(&[0u8; 32]);
    expected.extend_from_slice(b"gnu.org");
    expected.push(0);
    assert_eq!(lookup_payload(&q), expected);
}

#[test]
fn lookup_payload_layout_with_shorten_key() {
    let q = LookupQuery {
        name: "x".to_string(),
        zone: EcdsaPublicKey { bytes: [1; 32] },
        record_type: 28,
        options: LocalOptions::NoDHT,
        shorten: Some(EcdsaPrivateKey { bytes: [9; 32] }),
    };
    let mut expected = vec![1u8; 32];
    expected.extend_from_slice(&[0, 1]);
    expected.extend_from_slice(&[0, 1]);
    expected.extend_from_slice(&[0, 0, 0, 28]);
    expected.extend_from_slice(&[9u8; 32]);
    expected.extend_from_slice(b"x");
    expected.push(0);
    assert_eq!(lookup_payload(&q), expected);
}

#[test]
fn lookup_frames_carry_consecutive_ids() {
    let mut gns = GNS::connect();
    assert_eq!(gns.next_lookup_id(), 0);
    let queries = vec![query("a.gnu"), query("b.gnu")];
    let batch = gns.lookup(&queries).unwrap();
    assert_eq!(batch.first_id, 0);
    assert_eq!(batch.frames.len(), 2);
    for (i, frame) in batch.frames.iter().enumerate() {
        let decoded = decode(frame).unwrap();
        assert_eq!(decoded.type_code, 500);
        let mut body = (i as u32).to_be_bytes().to_vec();
        body.extend(lookup_payload(&queries[i]));
        assert_eq!(decoded.body, body);
        assert_eq!(frame.len(), 4 + 4 + 72 + 5 + 1);
    }
    assert_eq!(gns.next_lookup_id(), 2);
    let second = gns.lookup(&vec![query("c.gnu")]).unwrap();
    assert_eq!(second.first_id, 2);
}

#[test]
fn empty_batch_issues_nothing_and_is_complete() {
    let mut gns = GNS::connect();
    let batch = gns.lookup(&vec![]).unwrap();
    assert_eq!(batch, LookupBatch { first_id: 0, frames: vec![] });
    assert_eq!(gns.next_lookup_id(), 0);
    assert!(gns.is_complete(&batch));
    assert_eq!(gns.finish(&batch), Some(vec![]));
}

#[test]
fn batch_results_follow_query_order() {
    let mut gns = GNS::connect();
    let queries = vec![query("a.gnu"), query("b.gnu"), query("c.example")];
    let batch = gns.lookup(&queries).unwrap();
    let for_a = vec![record(1)];
    let for_b = vec![record(2), record(3)];
    let for_c = vec![record(4)];
    assert_eq!(gns.lookup_loop(&batch, 501, &result_body(2, &for_c)), Ok(false));
    assert_eq!(gns.finish(&batch), None);
    assert_eq!(gns.lookup_loop(&batch, 501, &result_body(0, &for_a)), Ok(false));
    assert!(!gns.is_complete(&batch));
    assert_eq!(gns.lookup_loop(&batch, 501, &result_body(1, &for_b)), Ok(true));
    assert!(gns.is_complete(&batch));
    assert_eq!(gns.finish(&batch), Some(vec![for_a, for_b, for_c]));
    assert!(!gns.is_complete(&batch));
    assert_eq!(gns.finish(&batch), None);
}

#[test]
fn first_result_does_not_complete_a_batch() {
    let mut gns = GNS::connect();
    let batch = gns.lookup(&vec![query("a.gnu"), query("b.gnu")]).unwrap();
    assert_eq!(gns.lookup_loop(&batch, 501, &result_body(0, &[record(1)])), Ok(false));
    assert_eq!(gns.lookup_loop(&batch, 501, &result_body(0, &[record(2)])), Ok(false));
    assert_eq!(gns.lookup_loop(&batch, 501, &result_body(1, &[])), Ok(false));
    assert_eq!(gns.lookup_loop(&batch, 501, &result_body(1, &[record(3)])), Ok(true));
    assert_eq!(gns.finish(&batch), Some(vec![vec![record(1), record(2)], vec![record(3)]]));
}

#[test]
fn oversized_name_fails_whole_batch() {
    let mut gns = GNS::connect();
    let long = "a".repeat(254);
    let queries = vec![query("a.gnu"), query(&long), query("b.gnu")];
    assert_eq!(
        gns.lookup(&queries),
        Err(LookupError::NameTooLong { index: 1, name: long.clone() })
    );
    assert_eq!(gns.next_lookup_id(), 0);
    let batch = gns.lookup(&vec![query("a.gnu")]).unwrap();
    assert_eq!(batch.first_id, 0);
}

#[test]
fn first_oversized_name_is_the_one_named() {
    let mut gns = GNS::connect();
    let long_one = "b".repeat(300);
    let long_two = "c".repeat(400);
    let queries = vec![query(&long_one), query(&long_two)];
    assert_eq!(
        gns.lookup(&queries),
        Err(LookupError::NameTooLong { index: 0, name: long_one })
    );
}

#[test]
fn name_of_maximum_length_is_accepted() {
    let mut gns = GNS::connect();
    let name = "a".repeat(253);
    let batch = gns.lookup(&vec![query(&name)]).unwrap();
    assert_eq!(batch.frames[0].len(), 4 + 4 + 72 + 253 + 1);
}

#[test]
fn name_length_counts_bytes() {
    let mut gns = GNS::connect();
    let name = "\u{e9}".repeat(127);
    assert_eq!(name.len(), 254);
    assert!(matches!(
        gns.lookup(&vec![query(&name)]),
        Err(LookupError::NameTooLong { index: 0, .. })
    ));
}

#[test]
fn parse_lookup_result_reads_records() {
    let records = vec![
        Record { expiration: 0x0102030405060708, record_type: 65536, flags: 3, data: vec![] },
        Record { expiration: u64::MAX, record_type: 0xdeadbeef, flags: u32::MAX, data: vec![1, 2, 3] },
    ];
    let body = result_body(0x0a0b0c0d, &records);
    assert_eq!(
        GNS::parse_lookup_result(501, &body),
        Ok(LookupResult { id: 0x0a0b0c0d, records })
    );
}

#[test]
fn record_header_layout() {
    let bytes = [
        0, 0, 0, 0, 0, 0, 0x01, 0x00, // expiration 256
        0, 0, 0, 0x1c, // type 28
        0, 0, 0, 0x02, // flags 2
        0, 0, 0, 0x03, // three data bytes
        0xaa, 0xbb, 0xcc, 0xff,
    ];
    assert_eq!(
        Record::deserialize(&bytes, 0),
        Some((Record { expiration: 256, record_type: 28, flags: 2, data: vec![0xaa, 0xbb, 0xcc] }, 23))
    );
    assert_eq!(Record::deserialize(&bytes[..22], 0), None);
    assert_eq!(Record::deserialize(&bytes[..19], 0), None);
    assert_eq!(Record::deserialize(&bytes, 5), None);
}

#[test]
fn parse_lookup_result_rejects_other_types() {
    assert_eq!(
        GNS::parse_lookup_result(500, &result_body(0, &[])),
        Err(LookupError::InvalidType { tpe: 500 })
    );
    assert_eq!(GNS::parse_lookup_result(17, &[]), Err(LookupError::InvalidType { tpe: 17 }));
}

#[test]
fn parse_lookup_result_truncated() {
    let body = result_body(1, &[record(1), record(2)]);
    for cut in 0..body.len() {
        assert_eq!(GNS::parse_lookup_result(501, &body[..cut]), Err(LookupError::Truncated));
    }
    let mut claims_more = result_body(1, &[record(1)]);
    claims_more[7] = 2;
    assert_eq!(GNS::parse_lookup_result(501, &claims_more), Err(LookupError::Truncated));
}

#[test]
fn parse_lookup_result_ignores_trailing_bytes() {
    let mut body = result_body(4, &[record(1)]);
    body.extend_from_slice(&[1, 2, 3]);
    assert_eq!(
        GNS::parse_lookup_result(501, &body),
        Ok(LookupResult { id: 4, records: vec![record(1)] })
    );
}

#[test]
fn bad_frame_leaves_lookup_state_alone() {
    let mut gns = GNS::connect();
    let batch = gns.lookup(&vec![query("a.gnu")]).unwrap();
    assert_eq!(
        gns.lookup_loop(&batch, 625, &[0, 0, 0, 0]),
        Err(LookupError::InvalidType { tpe: 625 })
    );
    assert_eq!(gns.lookup_loop(&batch, 501, &[0, 0, 0]), Err(LookupError::Truncated));
    assert_eq!(gns.lookup_loop(&batch, 501, &result_body(0, &[record(5)])), Ok(true));
    assert_eq!(gns.finish(&batch), Some(vec![vec![record(5)]]));
}

#[test]
fn results_for_unknown_ids_are_dropped() {
    let mut gns = GNS::connect();
    let batch = gns.lookup(&vec![query("a.gnu")]).unwrap();
    assert_eq!(gns.lookup_loop(&batch, 501, &result_body(9, &[record(1)])), Ok(false));
    assert_eq!(gns.lookup_loop(&batch, 501, &result_body(0, &[record(2)])), Ok(true));
    assert_eq!(gns.finish(&batch), Some(vec![vec![record(2)]]));
}

#[test]
fn cancelled_batch_drops_late_results() {
    let mut gns = GNS::connect();
    let first = gns.lookup(&vec![query("a.gnu")]).unwrap();
    let second = gns.lookup(&vec![query("b.gnu")]).unwrap();
    gns.cancel(&first);
    assert_eq!(gns.lookup_loop(&second, 501, &result_body(0, &[record(1)])), Ok(false));
    assert!(!gns.is_complete(&first));
    assert_eq!(gns.lookup_loop(&second, 501, &result_body(1, &[record(2)])), Ok(true));
    assert_eq!(gns.finish(&second), Some(vec![vec![record(2)]]));
}

#[test]
fn disconnect_fails_every_lookup() {
    let mut gns = GNS::connect();
    let batch = gns.lookup(&vec![query("a.gnu"), query("b.gnu")]).unwrap();
    let mut failed = gns.disconnect();
    failed.sort_by_key(|f| f.id);
    assert_eq!(
        failed,
        vec![
            Failure { id: 0, error: ChannelError::Disconnected },
            Failure { id: 1, error: ChannelError::Disconnected },
        ]
    );
    assert!(!gns.is_complete(&batch));
    assert!(gns.disconnect().is_empty());
}

#[test]
fn master_options_by_name() {
    assert_eq!(master_options("www.gnu"), LocalOptions::NoDHT);
    assert_eq!(master_options(".gnu"), LocalOptions::NoDHT);
    assert_eq!(master_options("gnu"), LocalOptions::LocalMaster);
    assert_eq!(master_options("a.b.gnu"), LocalOptions::LocalMaster);
    assert_eq!(master_options("gnu.org"), LocalOptions::LocalMaster);
    assert_eq!(master_options("www.gnu."), LocalOptions::LocalMaster);
    assert_eq!(master_options("www.gnux"), LocalOptions::LocalMaster);
    assert_eq!(master_options(""), LocalOptions::LocalMaster);
    assert_eq!(master_options("wwwgnu"), LocalOptions::LocalMaster);
}

#[test]
fn single_lookup_is_a_batch_of_one() {
    let mut gns = GNS::connect();
    let zone = EcdsaPublicKey { bytes: [3; 32] };
    let batch =
        lookup(&mut gns, "gnu.org".to_string(), zone, 1, LocalOptions::LocalMaster, None).unwrap();
    let q = LookupQuery {
        name: "gnu.org".to_string(),
        zone,
        record_type: 1,
        options: LocalOptions::LocalMaster,
        shorten: None,
    };
    let mut body = vec![0, 0, 0, 0];
    body.extend(lookup_payload(&q));
    assert_eq!(decode(&batch.frames[0]).unwrap().body, body);
    assert_eq!(batch.frames.len(), 1);
    let long = "z".repeat(254);
    assert_eq!(
        lookup(&mut gns, long.clone(), zone, 1, LocalOptions::Default, None),
        Err(LookupError::NameTooLong { index: 0, name: long })
    );
}

#[test]
fn lookup_in_master_uses_ego_zone_and_name_options() {
    let ego = Ego::new(
        EcdsaPrivateKey { bytes: [1; 32] },
        EcdsaPublicKey { bytes: [2; 32] },
        Some("master".to_string()),
        HashCode { bytes: [3; 64] },
    );
    let mut gns = GNS::connect();
    let batch = lookup_in_master(&mut gns, &ego, "www.gnu".to_string(), 1, None).unwrap();
    let body = decode(&batch.frames[0]).unwrap().body;
    assert_eq!(&body[4..36], &[2u8; 32]);
    assert_eq!(&body[36..38], &[0, 1]);
    let batch = lookup_in_master(&mut gns, &ego, "gnu.org".to_string(), 1, None).unwrap();
    let body = decode(&batch.frames[0]).unwrap().body;
    assert_eq!(&body[..4], &[0, 0, 0, 1]);
    assert_eq!(&body[36..38], &[0, 2]);
}

#[test]
fn single_record_takes_last_of_last() {
    assert_eq!(single_record(vec![]), None);
    assert_eq!(single_record(vec![vec![record(1)], vec![]]), None);
    assert_eq!(single_record(vec![vec![record(1), record(2)]]), Some(record(2)));
    assert_eq!(single_record(vec![vec![record(1)], vec![record(3), record(4)]]), Some(record(4)));
}
