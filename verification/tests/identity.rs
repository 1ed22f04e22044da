//! Which backends share what is known of articles, and where it is kept.
use nntp_proxy::bytes::{push_u16, push_u32, push_u64, u16_of, u32_of, u64_of};
use nntp_proxy::cache::availability_identity::{
    encode_registry, parse_registry, AccountIdentity, AvailabilityIdentity, AvailabilityLayout,
    AvailabilityLayoutError, AvailabilityMask, AvailabilitySlot, RegistryError,
};
use nntp_proxy::config::types::Server;
use nntp_proxy::types::BackendId;

fn server(host: &str, user: Option<&str>) -> Server {
    let builder = Server::builder(host, 119);
    match user {
        Some(user) => builder.username(user).password("secret").build().unwrap(),
        None => builder.build().unwrap(),
    }
}

fn slot(layout: &AvailabilityLayout, backend: usize) -> usize {
    layout.slot_for_backend(BackendId::from_index(backend)).index()
}

#[test]
fn identities_are_hosts_and_accounts() {
    let plain = AvailabilityIdentity::from_server(&server("a.example", None));
    assert_eq!(plain.as_host(), "a.example");
    assert_eq!(plain.account, AccountIdentity::Anonymous);
    let account = AvailabilityIdentity::from_server(&server("a.example", Some("me")));
    assert_eq!(account.account, AccountIdentity::Username("me".to_string()));
    assert!(!plain.same(&account));
    assert!(plain.same(&AvailabilityIdentity::from_persisted_host("a.example".to_string())));

    let named = Server::builder("b.example", 119)
        .availability_namespace("shared")
        .build()
        .unwrap();
    assert_eq!(AvailabilityIdentity::from_server(&named).as_host(), "shared");
}

#[test]
fn backends_of_one_identity_share_a_slot() {
    let servers = vec![
        server("a.example", None),
        server("b.example", None),
        server("a.example", None),
        server("a.example", Some("me")),
    ];
    let layout = AvailabilityLayout::from_servers(&servers).unwrap();
    assert_eq!(layout.identity_count(), 3);
    assert_eq!(slot(&layout, 0), slot(&layout, 2));
    assert_ne!(slot(&layout, 0), slot(&layout, 1));
    assert_ne!(slot(&layout, 0), slot(&layout, 3));
}

#[test]
fn there_is_room_for_so_many_identities() {
    let mut servers = Vec::new();
    for i in 0..BackendId::max_count() + 1 {
        servers.push(server(&format!("host{i}.example"), None));
    }
    let error = AvailabilityLayout::from_servers(&servers).unwrap_err();
    assert!(!error.message().is_empty());
    let _: AvailabilityLayoutError = error;
    servers.pop();
    assert!(AvailabilityLayout::from_servers(&servers).is_ok());
    assert!(matches!(
        AvailabilityLayout::from_registry(&servers, None, 7),
        Ok(_)
    ));
}

#[test]
fn a_registry_is_read_back() {
    let identities = vec![
        AvailabilityIdentity {
            namespace: "a.example".to_string(),
            account: AccountIdentity::Anonymous,
        },
        AvailabilityIdentity {
            namespace: "b".to_string(),
            account: AccountIdentity::Username("me".to_string()),
        },
    ];
    let data = encode_registry(0x0102, &identities).unwrap();
    let expected = [
        b"ANEGREG1".as_slice(),
        &[2, 1, 0, 0, 0, 0, 0, 0],
        &[2, 0, 0, 0, 0, 0, 0, 0],
    ]
    .concat();
    assert_eq!(data[..24], expected);
    let (read, epoch) = parse_registry(&data).unwrap();
    assert_eq!(read, identities);
    assert_eq!(epoch, 0x0102);

    assert!(parse_registry(&data[..data.len() - 1]).is_none());
    assert!(parse_registry(&[data.as_slice(), b"x"].concat()).is_none());
    assert!(parse_registry(b"ANEGREG2").is_none());
}

#[test]
fn texts_that_are_too_long_are_not_stored() {
    let identities = vec![AvailabilityIdentity {
        namespace: "x".repeat(1_048_577),
        account: AccountIdentity::Anonymous,
    }];
    assert!(encode_registry(1, &identities).is_none());
}

#[test]
fn slots_stay_when_servers_change() {
    let first = vec![server("a.example", None), server("b.example", None)];
    let plan = AvailabilityLayout::from_registry(&first, None, 7).unwrap();
    let stored = plan.publish.unwrap();
    assert_eq!(plan.layout.availability_epoch(), 7);
    assert_eq!((slot(&plan.layout, 0), slot(&plan.layout, 1)), (0, 1));

    let again = AvailabilityLayout::from_registry(&first, Some(&stored), 9).unwrap();
    assert!(again.publish.is_none());
    assert_eq!(again.layout.availability_epoch(), 7);

    let second = vec![server("c.example", None), server("b.example", None)];
    let plan = AvailabilityLayout::from_registry(&second, Some(&stored), 9).unwrap();
    assert_eq!((slot(&plan.layout, 0), slot(&plan.layout, 1)), (2, 1));
    assert_eq!(plan.layout.availability_epoch(), 7);
    let (identities, _) = parse_registry(&plan.publish.unwrap()).unwrap();
    let hosts: Vec<&str> = identities.iter().map(|i| i.as_host()).collect();
    assert_eq!(hosts, ["a.example", "b.example", "c.example"]);
}

#[test]
fn a_registry_without_a_free_slot_is_an_error() {
    let mut identities = Vec::new();
    for i in 0..BackendId::max_count() {
        identities.push(AvailabilityIdentity::from_persisted_host(format!("old{i}")));
    }
    let stored = encode_registry(3, &identities).unwrap();
    let servers = vec![server("new.example", None)];
    assert!(matches!(
        AvailabilityLayout::from_registry(&servers, Some(&stored), 1),
        Err(RegistryError::NoFreeSlot)
    ));
}

#[test]
fn a_damaged_registry_starts_anew() {
    let servers = vec![server("a.example", None)];
    let plan = AvailabilityLayout::from_registry(&servers, Some(b"noise"), 0).unwrap();
    assert_eq!(plan.layout.availability_epoch(), 1);
    assert!(plan.publish.is_some());
}

#[test]
fn a_new_registry_has_an_epoch_of_its_own() {
    let servers = vec![server("a.example", None)];
    let one = AvailabilityLayout::from_hybrid_registry(&servers, None).unwrap();
    let two = AvailabilityLayout::from_hybrid_registry(&servers, None).unwrap();
    assert_ne!(one.layout.availability_epoch(), 0);
    assert_ne!(
        one.layout.availability_epoch(),
        two.layout.availability_epoch()
    );
}

#[test]
fn fingerprints_follow_what_is_configured() {
    let a = server("a.example", None);
    let b = server("b.example", None);
    let ab = AvailabilityLayout::from_servers(&vec![server("a.example", None), server("b.example", None)])
        .unwrap();
    let ba = AvailabilityLayout::from_servers(&vec![b, a]).unwrap();
    let only = AvailabilityLayout::from_servers(&vec![server("a.example", None)]).unwrap();
    assert_eq!(ab.fingerprint(), ba.fingerprint());
    assert_ne!(ab.fingerprint(), only.fingerprint());
}

#[test]
fn slots_are_bits() {
    let slot = AvailabilitySlot::new(3).unwrap();
    assert_eq!(slot.bit(), 8);
    assert!(AvailabilitySlot::new(BackendId::max_count()).is_none());
    let mut mask = AvailabilityMask::empty();
    assert_eq!(mask.bits(), 0);
    mask.insert(slot);
    assert_eq!(mask.bits(), 8);
    let layout = AvailabilityLayout::synthetic(3);
    assert_eq!(layout.identity_count(), 3);
    assert_eq!(slot_of(&layout, "missing.example"), None);
}

fn slot_of(layout: &AvailabilityLayout, host: &str) -> Option<usize> {
    layout
        .slot_for_identity(&AvailabilityIdentity::from_persisted_host(host.to_string()))
        .map(|s| s.index())
}

#[test]
fn a_registry_is_read_only_from_its_own_bytes() {
    let identities = vec![
        AvailabilityIdentity::from_persisted_host("a.example".to_string()),
        AvailabilityIdentity {
            namespace: "b.example".to_string(),
            account: AccountIdentity::Username("me".to_string()),
        },
    ];
    let data = encode_registry(0x0102, &identities).unwrap();
    for i in 0..data.len() {
        for flip in [1u8, 0x20] {
            let mut other = data.clone();
            other[i] ^= flip;
            if let Some((ids, epoch)) = parse_registry(&other) {
                assert_ne!(epoch, 0);
                assert_eq!(encode_registry(epoch, &ids).unwrap(), other);
            }
        }
        assert!(parse_registry(&data[..i]).is_none());
    }
    assert!(parse_registry(&encode_registry(0, &identities).unwrap()).is_none());
    let twice = vec![identities[0].clone(), identities[0].clone()];
    assert!(parse_registry(&encode_registry(1, &twice).unwrap()).is_none());
    let empty = vec![AvailabilityIdentity::from_persisted_host(String::new())];
    assert!(parse_registry(&encode_registry(1, &empty).unwrap()).is_none());
}

#[test]
fn numbers_keep_their_bytes() {
    let bytes = [0x01u8, 0x80, 0xff, 0x00, 0x7f, 0x10, 0xfe, 0x09];
    let mut out = Vec::new();
    push_u64(&mut out, u64_of(&bytes));
    push_u32(&mut out, u32_of(&bytes[..4]));
    push_u16(&mut out, u16_of(&bytes[6..]));
    assert_eq!(out[..8], bytes);
    assert_eq!(out[8..12], bytes[..4]);
    assert_eq!(out[12..], bytes[6..]);
    assert_eq!(u32_of(&bytes[..4]), 0x00ff_8001);
}

#[test]
fn a_name_has_the_slot_of_its_first_provider() {
    let servers = vec![
        server("b.example", Some("me")),
        server("a.example", Some("me")),
        server("a.example", None),
        server("b.example", None),
    ];
    let layout = AvailabilityLayout::from_servers(&servers).unwrap();
    assert_eq!(layout.slot_for_host("a.example").map(|s| s.index()), Some(1));
    assert_eq!(layout.slot_for_host("b.example").map(|s| s.index()), Some(0));
    assert_eq!(layout.slot_for_host("c.example").map(|s| s.index()), None);
    assert_eq!(layout.slot_for_host("").map(|s| s.index()), None);
    assert_eq!(slot_of(&layout, "a.example"), Some(2));
}
