//! The availability index: recording, ageing, saving and loading.
use nntp_proxy::cache::availability_identity::{AvailabilityLayout, AvailabilitySlot};
use nntp_proxy::cache::availability_index::{
    AvailabilityIndex, DEFAULT_GENERATIONS, FIXED_CAPACITY_BYTES,
};
use nntp_proxy::cache::availability_snapshot::{
    encode_snapshot, parse_snapshot, SnapshotError,
};
use nntp_proxy::cache::filter::{
    ArticleFingerprint, Block, FilterState, LocalBlockIndex, PersistedEntry, BLOCK_BYTES,
    BLOCK_SLOTS,
};
use nntp_proxy::cache::ttl::{now_millis, CacheTtlMillis};
use nntp_proxy::config::types::Server;
use nntp_proxy::types::{BackendId, Duration, MessageId};
use std::mem::size_of;

fn test_capacity_for(blocks: usize, generations: usize) -> u64 {
    (blocks * generations * BLOCK_BYTES) as u64
}

fn bucket(value: usize) -> LocalBlockIndex {
    LocalBlockIndex { value }
}

#[test]
fn lookup_miss_returns_none() {
    let mut index = AvailabilityIndex::with_test_capacity(test_capacity_for(16, 2));
    let msg_id = MessageId::from_borrowed("<miss@example.com>").unwrap();
    assert!(index.get(&msg_id).is_none());
}

#[test]
fn slot_match_requires_confirmation_tag() {
    let mut block = Block::default();
    block.hashes[0] = 42;
    block.tags[0] = 7;
    block.missing[0] = 0b0000_0001;

    assert_eq!(block.missing_bits(42, 7), 0b0000_0001);
    assert_eq!(block.missing_bits(42, 8), 0);
}

#[test]
fn record_missing_round_trips_as_negative_cached_article() {
    let mut index = AvailabilityIndex::with_test_capacity(test_capacity_for(32, 2));
    let msg_id = MessageId::from_borrowed("<gone@example.com>").unwrap();
    let backend_id = BackendId::from_index(2);

    index.record_backend_missing(&msg_id, backend_id);

    let cached = index.get(&msg_id).expect("negative entry");
    assert!(cached.has_availability_info());
    assert!(!cached.should_try_backend(backend_id));
    assert_eq!(
        cached.availability().missing_bits(),
        backend_id.availability_bit()
    );
}

#[test]
fn request_message_id_lookup_requires_brackets() {
    let mut index = AvailabilityIndex::with_test_capacity(test_capacity_for(8, 2));
    let msg_id = MessageId::from_borrowed("<request@example.com>").unwrap();

    index.record_backend_missing(&msg_id, BackendId::from_index(0));

    assert!(
        index
            .get_request_message_id("request@example.com")
            .is_none()
    );
    assert!(
        index
            .get_request_message_id("<request@example.com>")
            .is_some()
    );
}

#[test]
fn record_missing_supports_backend_eight_bit() {
    let mut index = AvailabilityIndex::with_test_capacity(test_capacity_for(16, 2));
    let msg_id = MessageId::from_borrowed("<highest@example.com>").unwrap();
    let backend_id = BackendId::from_index(8);

    index.record_backend_missing(&msg_id, backend_id);

    let cached = index.get(&msg_id).expect("negative entry");
    assert_eq!(cached.availability().missing_bits(), 0b1_0000_0000);
    assert!(!cached.should_try_backend(backend_id));
}

#[test]
fn record_missing_cannot_receive_out_of_range_backend() {
    assert!(BackendId::try_from_index(usize::BITS as usize).is_none());
}

#[test]
fn zero_capacity_index_never_records_entries() {
    let mut index = AvailabilityIndex::with_test_capacity(0);
    let msg_id = MessageId::from_borrowed("<nocap@example.com>").unwrap();
    index.record_backend_missing(&msg_id, BackendId::from_index(0));
    assert!(index.get(&msg_id).is_none());
}

#[test]
fn bounded_filter_stays_within_capacity() {
    let capacity = test_capacity_for(4, 2);
    let mut index = AvailabilityIndex::with_test_capacity(capacity);

    for idx in 0..128 {
        let msg_id = MessageId::new(format!("<bounded-{idx}@example.com>")).unwrap();
        index.record_backend_missing(&msg_id, BackendId::from_index(idx % BackendId::max_count()));
    }

    assert!(index.used_bytes() <= capacity);
    let slot_bytes = size_of::<u64>() + size_of::<u16>() + size_of::<u8>();
    assert!(index.entry_count() <= (capacity as usize / slot_bytes) as u64);
}

#[test]
fn used_bytes_reports_preallocated_capacity() {
    let capacity = test_capacity_for(4, 2);
    let mut index = AvailabilityIndex::with_test_capacity(capacity);
    let msg_id = MessageId::from_borrowed("<allocated@example.com>").unwrap();

    assert_eq!(index.used_bytes(), capacity);

    index.record_backend_missing(&msg_id, BackendId::from_index(0));

    assert_eq!(index.used_bytes(), capacity);
}

#[test]
fn saturated_block_evicts_old_fingerprints() {
    let capacity = test_capacity_for(1, 1);
    let mut index = AvailabilityIndex::with_generation_count(capacity, 1);

    for idx in 0..(BLOCK_SLOTS + 4) {
        let msg_id = MessageId::new(format!("<evict-{idx}@example.com>")).unwrap();
        index.record_backend_missing(&msg_id, BackendId::from_index(idx % BackendId::max_count()));
    }

    let latest = MessageId::new(format!("<evict-{}@example.com>", BLOCK_SLOTS + 3)).unwrap();
    assert!(
        index.get(&latest).is_some(),
        "latest insert should still be resident"
    );
    assert!(
        index.evictions() >= 1,
        "full blocks should overwrite old fingerprints"
    );
    assert!(index.entry_count() <= BLOCK_SLOTS as u64);
}

#[test]
fn save_and_load_roundtrip_restores_entries() {
    let mut index = AvailabilityIndex::with_test_capacity(test_capacity_for(16, 2));
    let first = MessageId::from_borrowed("<first@example.com>").unwrap();
    let second = MessageId::from_borrowed("<second@example.com>").unwrap();

    index.record_backend_missing(&first, BackendId::from_index(0));
    index.record_backend_missing(&second, BackendId::from_index(2));
    let stored = index.save().unwrap();

    let mut restored = AvailabilityIndex::with_test_capacity(test_capacity_for(16, 2));
    restored.load(&stored).unwrap();

    assert!(
        !restored
            .get(&first)
            .expect("restored first entry")
            .should_try_backend(BackendId::from_index(0))
    );
    assert!(
        !restored
            .get(&second)
            .expect("restored second entry")
            .should_try_backend(BackendId::from_index(2))
    );
}

#[test]
fn save_and_load_roundtrip_restores_multiple_backend_bits() {
    let mut index = AvailabilityIndex::with_test_capacity(test_capacity_for(16, 2));
    let msg_id = MessageId::from_borrowed("<multi@example.com>").unwrap();

    index.record_backend_missing(&msg_id, BackendId::from_index(1));
    index.record_backend_missing(&msg_id, BackendId::from_index(3));
    let stored = index.save().unwrap();

    let mut restored = AvailabilityIndex::with_test_capacity(test_capacity_for(16, 2));
    restored.load(&stored).unwrap();

    let cached = restored.get(&msg_id).expect("restored negative");
    assert!(!cached.should_try_backend(BackendId::from_index(1)));
    assert!(!cached.should_try_backend(BackendId::from_index(3)));
    assert!(cached.should_try_backend(BackendId::from_index(0)));
}

#[test]
fn restoring_an_observation_preserves_its_original_age() {
    let now = now_millis();
    let inserted_at = now - 25;
    let mut filter = FilterState::new(1, 2, 100);
    filter.restore_entry(
        PersistedEntry {
            hash: 42,
            tag: 7,
            missing: 1,
            inserted_at,
        },
        bucket(0),
        now,
        CacheTtlMillis::new(200),
    );
    filter.reanchor_current_generation();
    assert_eq!(
        filter.snapshot_entries(now).entries[0].inserted_at,
        inserted_at
    );
    assert_eq!(
        filter
            .lookup_missing_bits(
                ArticleFingerprint { hash: 42, tag: 7 },
                bucket(0),
                inserted_at + 200
            )
            .missing_bits,
        0
    );
}

#[test]
fn partitions_preserve_bucket_geometry_and_total_capacity() {
    for blocks in 0..35 {
        for requested in [1, 4, 8, 16, 32] {
            let index = AvailabilityIndex::with_geometry(
                test_capacity_for(blocks, 2),
                Duration::max_value(),
                2,
                requested,
            );
            let actual_blocks: usize = index
                .shards
                .iter()
                .map(|shard| shard.filter.blocks_per_generation)
                .sum();
            assert_eq!(actual_blocks, blocks);
            let mut visited = std::collections::HashSet::new();
            for global in 0..blocks {
                let place = index.locate_bucket(global);
                assert!(
                    place.bucket.value < index.shards[place.shard].filter.blocks_per_generation
                );
                assert!(visited.insert((place.shard, place.bucket.value)));
            }
            assert_eq!(visited.len(), blocks);
        }
    }
}

#[test]
fn partition_expiry_does_not_depend_on_other_partition_activity() {
    let fingerprint = ArticleFingerprint { hash: 42, tag: 7 };
    for count in [1, 4, 16] {
        let mut index = AvailabilityIndex::with_geometry(
            FIXED_CAPACITY_BYTES,
            Duration::from_millis(200),
            2,
            count,
        );
        index.note_at(fingerprint, 1, 10_000);
        assert!(index.probe_at(fingerprint, 10_199).is_some());
        assert!(index.probe_at(fingerprint, 10_200).is_none());
        assert!(index.probe_at(fingerprint, 100_000).is_none());
        index.note_at(fingerprint, 2, 100_000);
        assert_eq!(
            index
                .probe_at(fingerprint, 100_000)
                .unwrap()
                .availability()
                .missing_bits(),
            2
        );
        assert_eq!(index.evictions(), 1);
    }
}

#[test]
fn snapshots_restore_across_partition_counts() {
    let ids: Vec<_> = (0..64)
        .map(|i| MessageId::new(format!("<partition-{i}@test>")).unwrap())
        .collect();
    let mut source =
        AvailabilityIndex::with_geometry(FIXED_CAPACITY_BYTES, Duration::max_value(), 2, 1);
    for id in &ids {
        source.record_availability_missing(id, AvailabilitySlot::new(3).unwrap());
    }
    let mut stored = source.save().unwrap();
    for count in [4, 16, 1] {
        let mut restored =
            AvailabilityIndex::with_geometry(FIXED_CAPACITY_BYTES, Duration::max_value(), 2, count);
        restored.load(&stored).unwrap();
        for id in &ids {
            assert!(
                !restored
                    .get(id)
                    .unwrap()
                    .should_try_slot(AvailabilitySlot::new(3).unwrap())
            );
        }
        stored = restored.save().unwrap();
    }
}

#[test]
fn partitioning_preserves_collision_victims_at_equal_capacity() {
    let capacity = test_capacity_for(67, 2);
    let mut single = AvailabilityIndex::with_geometry(capacity, Duration::max_value(), 2, 1);
    let mut partitioned = AvailabilityIndex::with_geometry(capacity, Duration::max_value(), 2, 32);
    let ids: Vec<_> = (0..4096)
        .map(|i| MessageId::new(format!("<collision-{i}@test>")).unwrap())
        .collect();
    for (i, id) in ids.iter().enumerate() {
        let slot = AvailabilitySlot::new(i % 8).unwrap();
        single.record_availability_missing(id, slot);
        partitioned.record_availability_missing(id, slot);
    }
    for id in &ids {
        let bits = |index: &mut AvailabilityIndex| {
            index
                .get(id)
                .map(|article| article.availability().missing_bits())
        };
        assert_eq!(bits(&mut single), bits(&mut partitioned));
    }
    assert_eq!(single.entry_count(), partitioned.entry_count());
    assert_eq!(single.evictions(), partitioned.evictions());
}

fn server(host: &str) -> Server {
    Server::builder(host, 119).build().unwrap()
}

#[test]
fn persisted_missing_bits_follow_identity_when_servers_reorder() {
    let first = vec![server("news-a.example"), server("news-b.example")];
    let reordered = vec![server("news-b.example"), server("news-a.example")];
    let mut original = AvailabilityIndex::with_layout(
        Duration::max_value(),
        AvailabilityLayout::from_servers(&first).unwrap(),
    );
    let b = BackendId::from_index(1);
    let msg_id = MessageId::from_borrowed("<reorder@example.com>").unwrap();
    original.record_availability_missing(
        &msg_id,
        AvailabilityLayout::from_servers(&first)
            .unwrap()
            .slot_for_backend(b),
    );
    let persisted = original.save().unwrap();
    assert!(
        !persisted
            .windows(b"first-secret".len())
            .any(|window| window == b"first-secret")
    );

    let mut restored = AvailabilityIndex::with_layout(
        Duration::max_value(),
        AvailabilityLayout::from_servers(&reordered).unwrap(),
    );
    restored.load(&persisted).unwrap();
    let cached = restored.get(&msg_id).unwrap();
    assert_eq!(cached.availability().missing_bits(), 0b01);
}

#[test]
fn snapshot_restore_discards_removed_providers_and_shares_accounts() {
    let server = |host: &str, username: &str| {
        Server::builder(host, 119)
            .username(username)
            .password("secret")
            .build()
            .unwrap()
    };
    let mut original = AvailabilityIndex::with_layout(
        Duration::max_value(),
        AvailabilityLayout::from_servers(&vec![
            server("removed.example", "first"),
            server("retained.example", "first"),
        ])
        .unwrap(),
    );
    let message = MessageId::from_borrowed("<restore@example.com>").unwrap();
    let removed = original.layout.slot_for_backend(BackendId::from_index(0));
    let retained = original.layout.slot_for_backend(BackendId::from_index(1));
    original.record_availability_missing(&message, removed);
    original.record_availability_missing(&message, retained);
    let stored = original.save().unwrap();
    let mut target = AvailabilityIndex::with_layout(
        Duration::max_value(),
        AvailabilityLayout::from_servers(&vec![
            server("retained.example", "second"),
            server("retained.example", "third"),
            server("new.example", "first"),
        ])
        .unwrap(),
    );
    let snapshot = parse_snapshot(&stored).unwrap().unwrap();
    target.restore_at(snapshot, now_millis());
    assert_eq!(
        target.get(&message).unwrap().availability().missing_bits(),
        1
    );
}

#[test]
fn record_missing_expires_after_configured_ttl() {
    let mut index = AvailabilityIndex::with_capacity_and_generation_count(
        test_capacity_for(8, 2),
        Duration::from_millis(5),
        DEFAULT_GENERATIONS,
    );
    index.record_at(b"expires@example.com", 1, 1_000);
    assert!(index.lookup_at(b"expires@example.com", 1_000).is_some());
    assert!(index.lookup_at(b"expires@example.com", 1_015).is_none());
}

#[test]
fn load_from_path_skips_expired_entries() {
    let mut index = AvailabilityIndex::with_capacity_and_generation_count(
        test_capacity_for(8, 2),
        Duration::from_millis(5),
        DEFAULT_GENERATIONS,
    );
    index.record_at(b"persisted-expired@example.com", 1, 1_000);
    let stored = index.save_at(1_000).unwrap();
    let mut restored = AvailabilityIndex::with_capacity_and_generation_count(
        test_capacity_for(8, 2),
        Duration::from_millis(5),
        DEFAULT_GENERATIONS,
    );
    restored.load_at(&stored, 1_015).unwrap();
    assert!(
        restored
            .lookup_at(b"persisted-expired@example.com", 1_015)
            .is_none()
    );
}

#[test]
fn load_from_path_keeps_older_generation_as_rotation_anchor() {
    let now = 1_000_000;
    let mut index = AvailabilityIndex::with_capacity_and_generation_count(
        test_capacity_for(8, 2),
        Duration::from_millis(200),
        DEFAULT_GENERATIONS,
    );
    index.record_at(b"persisted-older@example.com", 1, now - 120);
    let stored = index.save_at(now - 120).unwrap();
    let mut restored = AvailabilityIndex::with_capacity_and_generation_count(
        test_capacity_for(8, 2),
        Duration::from_millis(200),
        DEFAULT_GENERATIONS,
    );
    restored.load_at(&stored, now).unwrap();
    assert!(
        restored
            .lookup_at(b"persisted-older@example.com", now)
            .is_some(),
        "restored older-generation entry should survive the first lookup"
    );
}

#[test]
fn rotated_generation_starts_when_it_receives_a_new_insert() {
    let mut index = AvailabilityIndex::with_geometry(
        test_capacity_for(8, 2),
        Duration::from_millis(200),
        DEFAULT_GENERATIONS,
        1,
    );
    let first = MessageId::from_borrowed("<before-rotate@example.com>").unwrap();
    let second = MessageId::from_borrowed("<after-rotate@example.com>").unwrap();
    let forced_old_started_at = now_millis().saturating_sub(50);

    index.record_backend_missing(&first, BackendId::from_index(0));
    {
        let state = &mut index.shards[0].filter;
        let current_generation = state.current_generation;
        state.generations[current_generation].started_at = forced_old_started_at;
        state.next_rotation_at = now_millis().saturating_sub(1);
    }
    let before_second_insert = now_millis();
    index.record_backend_missing(&second, BackendId::from_index(1));

    let state = &index.shards[0].filter;
    let current_generation = &state.generations[state.current_generation];
    assert!(
        current_generation.started_at >= before_second_insert,
        "rotated generation should start when the new insert arrives"
    );
    assert!(
        current_generation.started_at > forced_old_started_at,
        "rotated generation should not keep the historical rotation timestamp"
    );
}

#[test]
fn hit_rate_tracks_hits_and_misses() {
    let mut index = AvailabilityIndex::with_test_capacity(test_capacity_for(8, 2));
    let hit = MessageId::from_borrowed("<hit-rate@example.com>").unwrap();
    let miss = MessageId::from_borrowed("<miss-rate@example.com>").unwrap();

    index.record_backend_missing(&hit, BackendId::from_index(0));
    assert!(index.get(&hit).is_some());
    assert!(index.get(&miss).is_none());

    assert_eq!(index.lookup_counts(), (1, 1));
}

#[test]
fn state_uses_expected_geometry() {
    let capacity = test_capacity_for(6, 3);
    let index = AvailabilityIndex::with_generation_count(capacity, 3);
    assert!(
        index
            .shards
            .iter()
            .all(|shard| shard.filter.generation_count() == 3)
    );
    assert_eq!(
        index
            .shards
            .iter()
            .map(|shard| shard.filter.blocks_per_generation())
            .sum::<usize>(),
        6
    );
}

#[test]
fn lookups_before_the_first_fact_are_counted() {
    let mut index = AvailabilityIndex::new();
    let id = MessageId::from_borrowed("<cold-stats@test>").unwrap();
    for _ in 0..8 {
        assert!(index.get(&id).is_none());
    }
    index.record_availability_missing(&id, AvailabilitySlot::new(0).unwrap());
    assert!(index.get(&id).is_some());
    assert_eq!(index.lookup_counts(), (1, 8));
}

#[test]
fn recording_one_article_leaves_another_alone() {
    let mut index = AvailabilityIndex::with_test_capacity(test_capacity_for(64, 2));
    index.record_at(b"a@example", 0b01, 1_000);
    index.record_at(b"b@example", 0b10, 1_001);
    let bits = |index: &mut AvailabilityIndex, key: &[u8]| {
        index
            .lookup_at(key, 1_002)
            .map(|entry| entry.availability().missing_bits())
    };
    assert_eq!(bits(&mut index, b"a@example"), Some(0b01));
    assert_eq!(bits(&mut index, b"b@example"), Some(0b10));
    index.record_at(b"a@example", 0b100, 1_002);
    assert_eq!(bits(&mut index, b"a@example"), Some(0b101));
}

#[test]
fn fingerprints_do_not_change() {
    let fingerprint = ArticleFingerprint::from_key(b"gone@example.com");
    assert_ne!(fingerprint.hash, 0);
    assert_eq!(fingerprint, ArticleFingerprint::from_key(b"gone@example.com"));
    assert_ne!(
        fingerprint.hash,
        ArticleFingerprint::from_key(b"gone@example.org").hash
    );
}

#[test]
fn a_snapshot_reads_back_what_was_written() {
    let layout = AvailabilityLayout::from_servers(&vec![server("a.example"), server("b.example")])
        .unwrap();
    let entries = vec![
        PersistedEntry {
            hash: 1,
            tag: 2,
            missing: 3,
            inserted_at: 4,
        },
        PersistedEntry {
            hash: u64::MAX,
            tag: u16::MAX,
            missing: 1,
            inserted_at: u64::MAX,
        },
    ];
    let data = encode_snapshot(layout.identities(), &entries).unwrap();
    let snapshot = parse_snapshot(&data).unwrap().unwrap();
    assert_eq!(snapshot.entries, entries);
    assert_eq!(snapshot.identities.len(), 2);
    assert_eq!(snapshot.identities[1].as_host(), "b.example");
}

#[test]
fn a_damaged_snapshot_is_refused() {
    let layout = AvailabilityLayout::from_servers(&vec![server("a.example")]).unwrap();
    let data = encode_snapshot(layout.identities(), &vec![]).unwrap();
    let mut index = AvailabilityIndex::new();
    index.record_at(b"kept@example", 1, 1_000);
    for cut in 1..data.len() {
        assert!(index.load_at(&data[..cut], 1_000).is_err(), "cut at {cut}");
    }
    assert!(index.lookup_at(b"kept@example", 1_000).is_some());
}

fn stored(names: &[&[u8]], entries: &[u8], count: u64) -> Vec<u8> {
    let mut data = b"ANEGSIM6".to_vec();
    data.extend_from_slice(&(names.len() as u64).to_le_bytes());
    for name in names {
        data.extend_from_slice(&(name.len() as u32).to_le_bytes());
        data.extend_from_slice(name);
    }
    data.extend_from_slice(&count.to_le_bytes());
    data.extend_from_slice(entries);
    data
}

#[test]
fn every_fault_of_a_snapshot_has_its_error() {
    let error = |data: &[u8]| parse_snapshot(data).map(|_| ()).unwrap_err();
    assert!(parse_snapshot(&stored(&[b"a"], &[], 0)).is_ok());
    assert_eq!(error(b"ANEGSIM6"), SnapshotError::TooShort);
    assert_eq!(error(b"XNEGSIM6\0\0\0\0\0\0\0\0"), SnapshotError::UnknownFormat);
    let mut many = b"ANEGSIM6".to_vec();
    many.extend_from_slice(&1_000u64.to_le_bytes());
    assert_eq!(error(&many), SnapshotError::InvalidIdentityCount);
    let one = stored(&[b"a"], &[], 0);
    assert_eq!(error(&one[..17]), SnapshotError::TruncatedLength);
    assert_eq!(error(&one[..20]), SnapshotError::TruncatedHost);
    let mut long = b"ANEGSIM6".to_vec();
    long.extend_from_slice(&1u64.to_le_bytes());
    long.extend_from_slice(&2_000_000u32.to_le_bytes());
    assert_eq!(error(&long), SnapshotError::HostTooLong);
    assert_eq!(error(&stored(&[b"\xFF"], &[], 0)), SnapshotError::InvalidHost);
    assert_eq!(error(&stored(&[b""], &[], 0)), SnapshotError::EmptyHost);
    assert_eq!(
        error(&stored(&[b"a", b"a"], &[], 0)),
        SnapshotError::DuplicateIdentity
    );
    assert_eq!(error(&one[..24]), SnapshotError::TruncatedCount);
    assert_eq!(
        error(&stored(&[b"a"], &[0; 26], 2)),
        SnapshotError::InvalidEntryCount
    );
    let mut foreign = [0u8; 26];
    foreign[10] = 2;
    assert_eq!(
        error(&stored(&[b"a"], &foreign, 1)),
        SnapshotError::UnknownProvider
    );
    assert_eq!(
        error(&stored(&[b"a"], &[0; 1], 0)),
        SnapshotError::TrailingBytes
    );
    assert_eq!(
        SnapshotError::UnknownProvider.message(),
        "availability bits exceed declared identity table"
    );
}

#[test]
fn a_retired_snapshot_empties_the_index() {
    let mut index = AvailabilityIndex::new();
    index.record_at(b"gone@example", 1, 1_000);
    index
        .load_at(b"ANEGIDX1\0\0\0\0\0\0\0\0", 1_000)
        .unwrap();
    assert!(index.lookup_at(b"gone@example", 1_000).is_none());
}

#[test]
fn a_default_index_has_the_fixed_capacity() {
    let index = AvailabilityIndex::default();
    assert_eq!(index.capacity_bytes(), AvailabilityIndex::fixed_capacity_bytes());
    assert_eq!(AvailabilityIndex::fixed_capacity_bytes(), 5_242_880);
}

#[test]
fn a_new_index_has_seen_nothing() {
    let servers = vec![server("a.example"), server("b.example")];
    let layout = AvailabilityLayout::from_servers(&servers).unwrap();
    let indexes = [
        AvailabilityIndex::default(),
        AvailabilityIndex::new(),
        AvailabilityIndex::with_ttl(Duration::from_millis(500)),
        AvailabilityIndex::with_layout(Duration::max_value(), layout),
        AvailabilityIndex::with_test_capacity(400),
        AvailabilityIndex::with_generation_count(400, 3),
        AvailabilityIndex::with_capacity_and_generation_count(400, Duration::max_value(), 3),
    ];
    for index in &indexes {
        assert_eq!(index.lookup_counts(), (0, 0));
        assert_eq!(index.evictions(), 0);
    }
    for (i, index) in indexes.iter().enumerate() {
        let capacity = if i < 4 { FIXED_CAPACITY_BYTES } else { 400 };
        assert_eq!(index.capacity_bytes(), capacity);
        let names: Vec<&str> = index.layout.identities().iter().map(|id| id.as_host()).collect();
        if i == 3 {
            assert_eq!(names, ["a.example", "b.example"]);
        } else {
            assert_eq!(names.len(), BackendId::max_count());
            assert_eq!((names[0], names[63]), ("backend-0", "backend-63"));
            assert_eq!(index.layout.slot_for_backend(BackendId::from_index(5)).index(), 5);
        }
    }
}

#[test]
fn facts_never_outgrow_the_capacity() {
    for (capacity, shards) in [(400u64, 1), (1000, 4), (39, 2), (4000, 7)] {
        let mut index =
            AvailabilityIndex::with_geometry(capacity, Duration::max_value(), 3, shards);
        let most = 2 * (capacity / BLOCK_BYTES as u64);
        for i in 0..500 {
            let id = MessageId::new(format!("<room-{i}@test>")).unwrap();
            index.record_backend_missing(&id, BackendId::from_index(i % 64));
            index.get(&id);
            assert!(index.entry_count() <= most);
        }
        let stored = index.save().unwrap();
        index.load(&stored).unwrap();
        assert!(index.entry_count() <= most);
        assert_eq!((index.used_bytes(), index.capacity_bytes()), (capacity, capacity));
    }
}

#[test]
fn a_snapshot_is_read_only_from_its_own_bytes() {
    let layout =
        AvailabilityLayout::from_servers(&vec![server("a.example"), server("b.example")]).unwrap();
    let entries = vec![
        PersistedEntry { hash: 7, tag: 2, missing: 3, inserted_at: 5 },
        PersistedEntry { hash: 1 << 60, tag: 0xffff, missing: 2, inserted_at: 9 },
    ];
    let data = encode_snapshot(layout.identities(), &entries).unwrap();
    let read = parse_snapshot(&data).unwrap().unwrap();
    assert_eq!(read.entries, entries);
    assert_eq!(encode_snapshot(&read.identities, &read.entries).unwrap(), data);
    for i in 0..data.len() {
        let mut other = data.clone();
        other[i] ^= 0x40;
        if let Ok(Some(read)) = parse_snapshot(&other) {
            assert_eq!(encode_snapshot(&read.identities, &read.entries).unwrap(), other);
            assert!(read.entries.iter().all(|e| e.missing < 4));
        }
        assert!(parse_snapshot(&data[..i]).is_err());
    }
    let longer = [data.as_slice(), &[0]].concat();
    assert_eq!(parse_snapshot(&longer).map(|_| ()), Err(SnapshotError::TrailingBytes));
}

#[test]
fn a_loaded_index_answers_as_the_saved_one() {
    let capacity = test_capacity_for(13, 2);
    let ids: Vec<_> = (0..200)
        .map(|i| MessageId::new(format!("<answer-{i}@test>")).unwrap())
        .collect();
    for (from, to) in [(1, 8), (5, 2), (3, 3)] {
        let mut saved = AvailabilityIndex::with_geometry(capacity, Duration::max_value(), 2, from);
        for (i, id) in ids.iter().enumerate().take(100) {
            saved.record_backend_missing(id, BackendId::from_index(i % 64));
            saved.record_backend_missing(id, BackendId::from_index(i % 7));
        }
        let stored = saved.save().unwrap();
        let mut other = AvailabilityIndex::with_geometry(capacity, Duration::max_value(), 2, to);
        other.record_backend_missing(&ids[150], BackendId::from_index(1));
        other.load(&stored).unwrap();
        assert_eq!(other.evictions(), 0);
        for id in &ids {
            let here = saved.get(id).map(|e| e.availability().missing_bits());
            let there = other.get(id).map(|e| e.availability().missing_bits());
            assert_eq!(here, there);
        }
    }
}

#[test]
fn a_restored_snapshot_is_all_that_is_known() {
    let table =
        AvailabilityLayout::from_servers(&vec![server("x.example"), server("y.example")]).unwrap();
    let layout = AvailabilityLayout::from_servers(&vec![
        server("a.example"),
        server("b.example"),
        server("y.example"),
    ])
    .unwrap();
    let y = layout.identities().iter().position(|id| id.as_host() == "y.example").unwrap();
    let at = |host: &str| table.identities().iter().position(|id| id.as_host() == host).unwrap();
    let entries = vec![
        PersistedEntry {
            hash: 11,
            tag: 1,
            missing: 1 << at("x.example") | 1 << at("y.example"),
            inserted_at: 5,
        },
        PersistedEntry { hash: 12, tag: 2, missing: 1 << at("x.example"), inserted_at: 0 },
        PersistedEntry { hash: 13, tag: 3, missing: 1 << at("y.example"), inserted_at: 0 },
    ];
    let data = encode_snapshot(table.identities(), &entries).unwrap();
    let mut index = AvailabilityIndex::with_layout(Duration::max_value(), layout);
    let id = MessageId::from_borrowed("<before@test>").unwrap();
    index.record_backend_missing(&id, BackendId::from_index(0));
    index.load_at(&data, 1000).unwrap();
    assert!(index.get(&id).is_none());
    let mut bits = |hash: u64, tag: u16| {
        index
            .probe_at(ArticleFingerprint { hash, tag }, 2000)
            .map(|e| e.availability().missing_bits())
    };
    assert_eq!(bits(11, 1), Some(1 << y));
    assert_eq!(bits(12, 2), None);
    assert_eq!(bits(13, 3), Some(1 << y));
    assert_eq!(bits(11, 2), None);
    assert_eq!(index.entry_count(), 2);
}

#[test]
fn facts_of_accounts_are_saved_and_loaded() {
    let account = |host: &str, user: &str| {
        Server::builder(host, 119).username(user).password("secret").build().unwrap()
    };
    let servers = vec![account("a.example", "me"), account("b.example", "you"), server("c.example")];
    let layout = || AvailabilityLayout::from_servers(&servers).unwrap();
    let mut saved = AvailabilityIndex::with_layout(Duration::max_value(), layout());
    let ids: Vec<_> = (0..30)
        .map(|i| MessageId::new(format!("<account-{i}@test>")).unwrap())
        .collect();
    for (i, id) in ids.iter().enumerate().take(20) {
        saved.record_availability_missing(id, layout().slot_for_backend(BackendId::from_index(i % 3)));
        saved.record_availability_missing(id, layout().slot_for_backend(BackendId::from_index(i % 2)));
    }
    let stored = saved.save().unwrap();
    assert!(!stored.windows(3).any(|w| w == b"you"));
    let mut other = AvailabilityIndex::with_layout(Duration::max_value(), layout());
    other.load(&stored).unwrap();
    for (i, id) in ids.iter().enumerate() {
        let here = saved.get(id).map(|e| e.availability().missing_bits());
        let there = other.get(id).map(|e| e.availability().missing_bits());
        assert_eq!(here, there);
        assert_eq!(here.is_some(), i < 20);
    }
}

#[test]
fn two_accounts_of_one_name_cannot_be_read_back() {
    let account = |user: &str| {
        Server::builder("a.example", 119).username(user).password("secret").build().unwrap()
    };
    let layout = AvailabilityLayout::from_servers(&vec![account("me"), account("you")]).unwrap();
    let mut index = AvailabilityIndex::with_layout(Duration::max_value(), layout);
    let stored = index.save().unwrap();
    assert_eq!(index.load(&stored), Err(SnapshotError::DuplicateIdentity));
}
