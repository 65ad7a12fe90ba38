use gnunet::codec::decode;
use gnunet::identity::{
    ConnectError, Ego, GetDefaultEgoError, IdentityService, SyncStep,
    MESSAGE_TYPE_IDENTITY_GET_DEFAULT, MESSAGE_TYPE_IDENTITY_RESULT_CODE,
    MESSAGE_TYPE_IDENTITY_SET_DEFAULT, MESSAGE_TYPE_IDENTITY_START, MESSAGE_TYPE_IDENTITY_UPDATE,
};
use gnunet::keys::{EcdsaPrivateKey, EcdsaPublicKey, HashCode};

fn update_body(key: u8, name: &[u8]) -> Vec<u8> {
    let mut body = Vec::new();
    body.extend_from_slice(&((name.len() + 1) as u16).to_be_bytes());
    body.extend_from_slice(&[0, 0]);
    body.extend_from_slice(&[key; 32]);
    body.extend_from_slice(name);
    body.push(0);
    body
}

fn ego(key: u8, name: &str) -> Ego {
    Ego::new(
        EcdsaPrivateKey { bytes: [key; 32] },
        EcdsaPublicKey { bytes: [key.wrapping_add(100); 32] },
        Some(name.to_string()),
        HashCode { bytes: [key.wrapping_add(200); 64] },
    )
}

fn set_default_body(name_len: u16, reserved: u16, key: u8, name: &[u8]) -> Vec<u8> {
    let mut body = Vec::new();
    body.extend_from_slice(&name_len.to_be_bytes());
    body.extend_from_slice(&reserved.to_be_bytes());
    body.extend_from_slice(&[key; 32]);
    body.extend_from_slice(name);
    body
}

#[test]
fn identity_type_codes() {
    assert_eq!(MESSAGE_TYPE_IDENTITY_START, 624);
    assert_eq!(MESSAGE_TYPE_IDENTITY_RESULT_CODE, 625);
    assert_eq!(MESSAGE_TYPE_IDENTITY_UPDATE, 626);
    assert_eq!(MESSAGE_TYPE_IDENTITY_GET_DEFAULT, 627);
    assert_eq!(MESSAGE_TYPE_IDENTITY_SET_DEFAULT, 628);
}

#[test]
fn connect_sends_start_without_body() {
    let (service, frame) = IdentityService::connect();
    assert_eq!(frame, vec![0, 4, 0x02, 0x70]);
    assert_eq!(service.ego_count(), 0);
    assert!(!service.synced());
}

#[test]
fn sync_of_n_updates_mirrors_n_egos() {
    let (mut service, _) = IdentityService::connect();
    let names = ["alice", "bob", "carol", "dave"];
    for (i, name) in names.iter().enumerate() {
        let key = i as u8 + 1;
        let step = service.parse_egos(626, &update_body(key, name.as_bytes())).unwrap();
        assert_eq!(
            step,
            SyncStep::Update {
                private_key: EcdsaPrivateKey { bytes: [key; 32] },
                name: name.to_string()
            }
        );
        assert!(!service.synced());
        service.add_ego(ego(key, name));
    }
    assert_eq!(service.parse_egos(626, &[0, 0, 0, 1]), Ok(SyncStep::Done));
    assert!(service.synced());
    assert_eq!(service.ego_count(), 4);
    for (i, name) in names.iter().enumerate() {
        let key = i as u8 + 1;
        let found = service.get_ego(&HashCode { bytes: [key.wrapping_add(200); 64] }).unwrap();
        assert_eq!(found, ego(key, name));
        assert_eq!(found.get_name(), Some(name.to_string()));
        assert_eq!(found.get_private_key(), EcdsaPrivateKey { bytes: [key; 32] });
    }
    assert_eq!(service.get_ego(&HashCode { bytes: [0; 64] }), None);
}

#[test]
fn terminator_first_gives_empty_mirror() {
    let (mut service, _) = IdentityService::connect();
    assert_eq!(service.parse_egos(626, &[0, 0, 0, 1]), Ok(SyncStep::Done));
    assert!(service.synced());
    assert_eq!(service.ego_count(), 0);
}

#[test]
fn terminator_payload_is_not_parsed() {
    let (mut service, _) = IdentityService::connect();
    let mut body = vec![0, 9, 0xff, 0xff];
    body.extend_from_slice(&[0xff, 0xfe, 0xfd]);
    assert_eq!(service.parse_egos(626, &body), Ok(SyncStep::Done));
}

#[test]
fn same_id_twice_keeps_the_later_ego() {
    let (mut service, _) = IdentityService::connect();
    service.add_ego(ego(1, "old"));
    service.add_ego(ego(2, "other"));
    service.add_ego(ego(1, "new"));
    assert_eq!(service.ego_count(), 2);
    assert_eq!(service.get_ego(&HashCode { bytes: [201; 64] }), Some(ego(1, "new")));
    assert_eq!(service.get_ego(&HashCode { bytes: [202; 64] }), Some(ego(2, "other")));
}

#[test]
fn unexpected_type_during_sync() {
    let (mut service, _) = IdentityService::connect();
    assert_eq!(
        service.parse_egos(625, &update_body(1, b"x")),
        Err(ConnectError::UnexpectedMessageType { ty: 625 })
    );
    assert!(!service.synced());
}

#[test]
fn invalid_utf8_name_during_sync() {
    let (mut service, _) = IdentityService::connect();
    assert_eq!(
        service.parse_egos(626, &update_body(1, &[0x66, 0xff, 0x66])),
        Err(ConnectError::InvalidName)
    );
    assert_eq!(
        service.parse_egos(626, &update_body(1, &[0xc3])),
        Err(ConnectError::InvalidName)
    );
}

#[test]
fn update_name_ends_at_first_nul_or_end() {
    let (mut service, _) = IdentityService::connect();
    let mut body = update_body(5, b"ab");
    body.extend_from_slice(b"junk");
    assert_eq!(
        service.parse_egos(626, &body),
        Ok(SyncStep::Update { private_key: EcdsaPrivateKey { bytes: [5; 32] }, name: "ab".to_string() })
    );
    let mut open_ended = update_body(5, b"caf\xc3\xa9");
    open_ended.pop();
    assert_eq!(
        service.parse_egos(626, &open_ended),
        Ok(SyncStep::Update {
            private_key: EcdsaPrivateKey { bytes: [5; 32] },
            name: "caf\u{e9}".to_string()
        })
    );
}

#[test]
fn truncated_update() {
    let (mut service, _) = IdentityService::connect();
    assert_eq!(service.parse_egos(626, &[]), Err(ConnectError::Truncated));
    assert_eq!(service.parse_egos(626, &[0, 1, 0]), Err(ConnectError::Truncated));
    let body = update_body(1, b"");
    assert_eq!(service.parse_egos(626, &body[..35]), Err(ConnectError::Truncated));
    assert_eq!(
        service.parse_egos(626, &body[..36]),
        Ok(SyncStep::Update { private_key: EcdsaPrivateKey { bytes: [1; 32] }, name: String::new() })
    );
}

#[test]
fn get_default_request_layout() {
    let frame = IdentityService::get_default_request("gns-master").unwrap();
    let mut expected = vec![0, 19, 0x02, 0x73, 0, 11, 0, 0];
    expected.extend_from_slice(b"gns-master");
    expected.push(0);
    assert_eq!(frame, expected);
    let decoded = decode(&frame).unwrap();
    assert_eq!(decoded.type_code, 627);
}

#[test]
fn get_default_request_name_too_long() {
    let longest = "n".repeat(65526);
    let frame = IdentityService::get_default_request(&longest).unwrap();
    assert_eq!(frame.len(), 65535);
    assert_eq!(&frame[4..6], &[0xff, 0xf7]);
    let too_long = "n".repeat(65527);
    assert_eq!(
        IdentityService::get_default_request(&too_long),
        Err(GetDefaultEgoError::NameTooLong { name: too_long.clone() })
    );
}

#[test]
fn result_code_is_service_response() {
    let mut body = vec![0, 0, 0, 1];
    body.extend_from_slice(b"no default ego");
    body.push(0);
    body.extend_from_slice(b"ignored");
    assert_eq!(
        IdentityService::parse_default_reply("gns-master", 625, &body),
        Err(GetDefaultEgoError::ServiceResponse { response: "no default ego".to_string() })
    );
}

#[test]
fn result_code_malformed_messages() {
    assert_eq!(
        IdentityService::parse_default_reply("x", 625, &[0, 0, 0]),
        Err(GetDefaultEgoError::Truncated)
    );
    assert_eq!(
        IdentityService::parse_default_reply("x", 625, &[0, 0, 0, 1, b'a', b'b']),
        Err(GetDefaultEgoError::Disconnected)
    );
    assert_eq!(
        IdentityService::parse_default_reply("x", 625, &[0, 0, 0, 1]),
        Err(GetDefaultEgoError::Disconnected)
    );
    assert_eq!(
        IdentityService::parse_default_reply("x", 625, &[0, 0, 0, 1, 0xff, 0]),
        Err(GetDefaultEgoError::MalformedErrorResponse)
    );
    assert_eq!(
        IdentityService::parse_default_reply("x", 625, &[0, 0, 0, 1, 0]),
        Err(GetDefaultEgoError::ServiceResponse { response: String::new() })
    );
}

#[test]
fn set_default_names_the_key() {
    let body = set_default_body(11, 0, 0x42, b"gns-master\0");
    assert_eq!(
        IdentityService::parse_default_reply("gns-master", 628, &body),
        Ok(EcdsaPrivateKey { bytes: [0x42; 32] })
    );
    let without_nul = set_default_body(11, 0, 0x42, b"gns-master");
    assert_eq!(
        IdentityService::parse_default_reply("gns-master", 628, &without_nul),
        Ok(EcdsaPrivateKey { bytes: [0x42; 32] })
    );
}

#[test]
fn set_default_incoherent_answers() {
    let wrong_name = set_default_body(11, 0, 1, b"gns-mastex\0");
    assert_eq!(
        IdentityService::parse_default_reply("gns-master", 628, &wrong_name),
        Err(GetDefaultEgoError::InvalidResponse)
    );
    let shorter = set_default_body(4, 0, 1, b"gns\0");
    assert_eq!(
        IdentityService::parse_default_reply("gns-master", 628, &shorter),
        Err(GetDefaultEgoError::InvalidResponse)
    );
    let no_len = set_default_body(0, 0, 1, b"gns-master\0");
    assert_eq!(
        IdentityService::parse_default_reply("gns-master", 628, &no_len),
        Err(GetDefaultEgoError::InvalidResponse)
    );
    let reserved = set_default_body(11, 1, 1, b"gns-master\0");
    assert_eq!(
        IdentityService::parse_default_reply("gns-master", 628, &reserved),
        Err(GetDefaultEgoError::InvalidResponse)
    );
    assert_eq!(
        IdentityService::parse_default_reply("gns-master", 626, &set_default_body(11, 0, 1, b"gns-master\0")),
        Err(GetDefaultEgoError::InvalidResponse)
    );
}

#[test]
fn set_default_truncated() {
    let body = set_default_body(11, 0, 1, b"gns-master\0");
    assert_eq!(
        IdentityService::parse_default_reply("gns-master", 628, &body[..1]),
        Err(GetDefaultEgoError::Truncated)
    );
    assert_eq!(
        IdentityService::parse_default_reply("gns-master", 628, &body[..3]),
        Err(GetDefaultEgoError::Truncated)
    );
    assert_eq!(
        IdentityService::parse_default_reply("gns-master", 628, &body[..35]),
        Err(GetDefaultEgoError::Truncated)
    );
    assert_eq!(
        IdentityService::parse_default_reply("gns-master", 628, &body[..45]),
        Err(GetDefaultEgoError::Truncated)
    );
}

#[test]
fn default_ego_comes_from_the_mirror() {
    let (mut service, _) = IdentityService::connect();
    service.add_ego(ego(1, "gns-master"));
    service.add_ego(ego(2, "other"));
    let id = HashCode { bytes: [201; 64] };
    let found = service.get_default_ego(&id).unwrap();
    assert_eq!(found, ego(1, "gns-master"));
    assert_eq!(found.get_id(), &id);
    assert_eq!(found.get_public_key(), EcdsaPublicKey { bytes: [101; 32] });
    assert_eq!(
        service.get_default_ego(&HashCode { bytes: [9; 64] }),
        Err(GetDefaultEgoError::InvalidResponse)
    );
}

#[test]
fn anonymous_ego_has_no_name() {
    let anonymous = Ego::anonymous(
        EcdsaPrivateKey { bytes: [1; 32] },
        EcdsaPublicKey { bytes: [2; 32] },
        HashCode { bytes: [3; 64] },
    );
    assert_eq!(anonymous.get_name(), None);
    assert_eq!(anonymous.get_private_key(), EcdsaPrivateKey { bytes: [1; 32] });
    assert_eq!(anonymous.get_public_key(), EcdsaPublicKey { bytes: [2; 32] });
    assert_eq!(anonymous.get_id(), &HashCode { bytes: [3; 64] });
    assert_eq!(anonymous.duplicate(), anonymous);
}

#[test]
fn keys_from_bytes_and_zeros() {
    let mut src = vec![9u8; 3];
    src.extend(0u8..32);
    src.push(0xff);
    let key = EcdsaPrivateKey::from_bytes(&src, 3);
    let expected: Vec<u8> = (0u8..32).collect();
    assert_eq!(key.bytes.to_vec(), expected);
    assert_eq!(EcdsaPrivateKey::zeros().bytes, [0u8; 32]);
    let a = HashCode { bytes: [1; 64] };
    let mut other = [1u8; 64];
    other[63] = 2;
    assert!(a.same(&HashCode { bytes: [1; 64] }));
    assert!(!a.same(&HashCode { bytes: other }));
}

#[test]
fn ego_as_text() {
    assert_eq!(ego(1, "alice").to_text("ABC123"), "alice (ABC123)");
    let anonymous = Ego::anonymous(
        EcdsaPrivateKey { bytes: [1; 32] },
        EcdsaPublicKey { bytes: [2; 32] },
        HashCode { bytes: [3; 64] },
    );
    assert_eq!(anonymous.to_text("XYZ"), "<anonymous> (XYZ)");
    assert_eq!(anonymous.to_text(""), "<anonymous> ()");
}
