use fault_proof::errors::{HintParsingError, PreimageOracleError};
use fault_proof::hex::{hex_decode, hex_encode};
use fault_proof::hint::{str_eq, Hint, HintType};
use fault_proof::host::{FetchStep, OnlineHostBackend, Routed, PREIMAGE_TIMEOUT_MS};
use fault_proof::key::{PreimageKey, PreimageKeyType};
use fault_proof::kv::MemoryKeyValueStore;
use fault_proof::primitives::B256;

fn hint(ty: HintType, data: &[u8]) -> Hint {
    Hint { ty, data: data.to_vec() }
}

#[test]
fn hint_parses_tag_and_hex_payload() {
    assert_eq!(
        Hint::parse("l1-block-header 0a0b"),
        Ok(hint(HintType::L1BlockHeader, &[0x0a, 0x0b]))
    );
    assert_eq!(Hint::parse("l2-code "), Ok(hint(HintType::L2Code, &[])));
}

#[test]
fn hint_payload_may_carry_a_prefix_and_either_case() {
    assert_eq!(
        Hint::parse("l2-state-node 0xDEADbeef"),
        Ok(hint(HintType::L2StateNode, &[0xde, 0xad, 0xbe, 0xef]))
    );
    assert_eq!(
        Hint::parse("l2-state-node 0XdeadBEEF"),
        Ok(hint(HintType::L2StateNode, &[0xde, 0xad, 0xbe, 0xef]))
    );
    assert_eq!(Hint::parse("l2-state-node 0x"), Ok(hint(HintType::L2StateNode, &[])));
    assert_eq!(Hint::parse("l2-state-node 00ff10"), Ok(hint(HintType::L2StateNode, &[0, 255, 16])));
}

#[test]
fn hint_without_exactly_one_space_is_malformed() {
    let malformed =
        ["", "l1-block-header", "l1-block-header  00", "l1-block-header 00 ", "  ", "a b c"];
    for raw in malformed {
        assert_eq!(Hint::parse(raw), Err(HintParsingError::InvalidFormat), "{raw:?}");
    }
    // One space alone splits into an empty tag and an empty payload.
    assert_eq!(Hint::parse(" "), Err(HintParsingError::UnknownHintType));
    assert_eq!(Hint::parse(" 00"), Err(HintParsingError::UnknownHintType));
}

#[test]
fn hint_with_unknown_tag_is_refused() {
    let unknown = [
        "bogus 00",
        "L1-BLOCK-HEADER 00",
        "l1-block-heade 00",
        "l1-block-headerx 00",
        "l1\u{e9} 00",
    ];
    for raw in unknown {
        assert_eq!(Hint::parse(raw), Err(HintParsingError::UnknownHintType), "{raw:?}");
    }
    // The tag is looked at before the payload.
    assert_eq!(Hint::parse("bogus zz"), Err(HintParsingError::UnknownHintType));
}

#[test]
fn hint_with_invalid_hex_is_refused() {
    let invalid = [
        "l1-blob zz",
        "l1-blob 0",
        "l1-blob abc",
        "l1-blob 0x0",
        "l1-blob 0y00",
        "l1-blob 00x0",
        "l1-blob \u{e9}\u{e9}",
        "l1-blob a\u{e9}",
    ];
    for raw in invalid {
        assert_eq!(Hint::parse(raw), Err(HintParsingError::InvalidHex), "{raw:?}");
    }
}

#[test]
fn every_hint_type_has_its_tag() {
    let all = [
        (HintType::L1BlockHeader, "l1-block-header"),
        (HintType::L1Transactions, "l1-transactions"),
        (HintType::L1Receipts, "l1-receipts"),
        (HintType::L1Blob, "l1-blob"),
        (HintType::L1Precompile, "l1-precompile"),
        (HintType::L2BlockHeader, "l2-block-header"),
        (HintType::L2Transactions, "l2-transactions"),
        (HintType::L2Receipts, "l2-receipts"),
        (HintType::L2Code, "l2-code"),
        (HintType::StartingL2Output, "starting-l2-output"),
        (HintType::L2StateNode, "l2-state-node"),
        (HintType::L2AccountProof, "l2-account-proof"),
        (HintType::L2AccountStorageProof, "l2-account-storage-proof"),
        (HintType::L2PayloadWitness, "l2-payload-witness"),
    ];
    for (ty, tag) in all {
        assert_eq!(ty.tag(), tag);
        assert_eq!(HintType::from_tag(tag), Some(ty));
    }
    assert_eq!(HintType::from_tag(""), None);
    assert_eq!(HintType::from_tag("l2"), None);
}

#[test]
fn hint_encodes_in_lower_case_without_prefix() {
    let h = hint(HintType::StartingL2Output, &[0x00, 0xAB, 0xff, 0x10]);
    assert_eq!(h.encode(), "starting-l2-output 00abff10");
    assert_eq!(hint(HintType::L1Blob, &[]).encode(), "l1-blob ");
    assert_eq!(Hint::parse(&h.encode()), Ok(h));
}

#[test]
fn hint_parses_through_from_str() {
    assert_eq!("l2-code 00".parse::<Hint>(), Ok(hint(HintType::L2Code, &[0])));
    assert_eq!("l2-code".parse::<Hint>(), Err(HintParsingError::InvalidFormat));
}

#[test]
fn every_encoded_hint_parses_back() {
    let payloads: [&[u8]; 4] = [&[], &[0], &[0x0f, 0xf0, 0xff], &[0x78, 0x58, 0x20]];
    for payload in payloads {
        let types =
            [HintType::L1BlockHeader, HintType::StartingL2Output, HintType::L2PayloadWitness];
        for ty in types {
            let h = hint(ty, payload);
            assert_eq!(Hint::parse(&h.encode()), Ok(h));
        }
    }
}

#[test]
fn hex_agrees_with_the_reference_codec() {
    let texts = [
        "", "0x", "0X", "00", "0x00", "0X00", "ff", "FF", "fF", "0xdeadBEEF", "0", "0x0", "abc",
        "zz", "0y00", "00x0", "x0", "0x0x", "0x0X00", " 00", "00 ", "0\u{e9}", "\u{e9}\u{e9}", "g0",
        "0g", "a/", "a:", "a@", "aG", "a`", "ag", "0123456789abcdefABCDEF",
    ];
    for text in texts {
        assert_eq!(hex_decode(text), alloy_primitives::hex::decode(text).ok(), "{text:?}");
    }
    let all: Vec<u8> = (0..=255u8).collect();
    for data in [&[][..], &[0][..], &[0x0f, 0xf0][..], &all[..]] {
        assert_eq!(hex_encode(data), alloy_primitives::hex::encode(data));
        assert_eq!(hex_decode(&hex_encode(data)), Some(data.to_vec()));
    }
}

#[test]
fn with_data_joins_the_parts() {
    let h = HintType::L2AccountProof.with_data(&[&[1u8, 2][..], &[][..], &[3u8][..]]);
    assert_eq!(h, hint(HintType::L2AccountProof, &[1, 2, 3]));
    assert_eq!(HintType::L1Blob.with_data(&[]), hint(HintType::L1Blob, &[]));
    assert_eq!(h.duplicate(), h);
}

#[test]
fn strings_compare_by_content() {
    assert!(str_eq("", ""));
    assert!(str_eq("l2-code", "l2-code"));
    assert!(!str_eq("l2-code", "l2-cod"));
    assert!(!str_eq("l2-code", "l2-codf"));
    assert!(str_eq("\u{e9}", "\u{e9}"));
}

#[test]
fn route_hint_stores_the_last_hint() {
    let mut backend = OnlineHostBackend::new();
    assert_eq!(backend.poll(0), FetchStep::AwaitHint);
    assert_eq!(backend.route_hint("l1-block-header 0a"), Ok(Routed::Stored));
    assert_eq!(backend.poll(0), FetchStep::Fetch(hint(HintType::L1BlockHeader, &[0x0a])));
}

#[test]
fn second_hint_overwrites_the_first() {
    let mut backend = OnlineHostBackend::new();
    assert_eq!(backend.route_hint("l1-block-header 0a"), Ok(Routed::Stored));
    assert_eq!(backend.route_hint("l2-code 0b0c"), Ok(Routed::Stored));
    let expected = FetchStep::Fetch(hint(HintType::L2Code, &[0x0b, 0x0c]));
    assert_eq!(backend.poll(0), expected);
    assert_eq!(backend.poll(59_999), expected);

    let mut only_second = OnlineHostBackend::new();
    assert_eq!(only_second.route_hint("l2-code 0b0c"), Ok(Routed::Stored));
    assert_eq!(only_second.poll(0), expected);
}

#[test]
fn malformed_hint_leaves_the_last_hint_alone() {
    let mut backend = OnlineHostBackend::new();
    assert_eq!(
        backend.route_hint("nonsense"),
        Err(PreimageOracleError::HintParseFailed(HintParsingError::InvalidFormat))
    );
    assert_eq!(backend.poll(0), FetchStep::AwaitHint);
    assert_eq!(backend.route_hint("l1-block-header 0a"), Ok(Routed::Stored));
    assert_eq!(
        backend.route_hint("bogus 00"),
        Err(PreimageOracleError::HintParseFailed(HintParsingError::UnknownHintType))
    );
    assert_eq!(
        backend.route_hint("l2-code xyz"),
        Err(PreimageOracleError::HintParseFailed(HintParsingError::InvalidHex))
    );
    assert_eq!(backend.poll(0), FetchStep::Fetch(hint(HintType::L1BlockHeader, &[0x0a])));
}

#[test]
fn proactive_hint_is_handed_back_and_not_stored() {
    let mut backend = OnlineHostBackend::new()
        .with_proactive_hint(HintType::L2PayloadWitness)
        .with_proactive_hint(HintType::L2BlockHeader);
    assert!(backend.is_proactive(HintType::L2PayloadWitness));
    assert!(backend.is_proactive(HintType::L2BlockHeader));
    assert!(!backend.is_proactive(HintType::L1Blob));
    assert_eq!(backend.route_hint("l1-blob 01"), Ok(Routed::Stored));
    assert_eq!(
        backend.route_hint("l2-payload-witness 02"),
        Ok(Routed::FetchNow(hint(HintType::L2PayloadWitness, &[2])))
    );
    assert_eq!(backend.poll(0), FetchStep::Fetch(hint(HintType::L1Blob, &[1])));
}

#[test]
fn proactive_fetch_failure_is_reported_with_details() {
    assert_eq!(OnlineHostBackend::proactive_result(Ok(())), Ok(()));
    assert_eq!(
        OnlineHostBackend::proactive_result(Err("provider down".to_string())),
        Err(PreimageOracleError::Other("provider down".to_string()))
    );
}

#[test]
fn stored_preimage_is_returned_at_once() {
    let key = PreimageKey::new_keccak256([7; 32]);
    let mut store = MemoryKeyValueStore::new();
    assert!(store.set(key, vec![1, 2, 3]));
    assert_eq!(OnlineHostBackend::get_preimage(&store, &key), FetchStep::Found(vec![1, 2, 3]));
    assert_eq!(OnlineHostBackend::get_preimage(&store, &key).into_result(), Ok(vec![1, 2, 3]));
    let other = PreimageKey::new_keccak256([8; 32]);
    assert_eq!(OnlineHostBackend::get_preimage(&store, &other), FetchStep::AwaitHint);
}

#[test]
fn missing_preimage_waits_for_a_hint() {
    let key = PreimageKey::new_keccak256([7; 32]);
    let store = MemoryKeyValueStore::new();
    let mut backend = OnlineHostBackend::new();
    assert_eq!(OnlineHostBackend::get_preimage(&store, &key), FetchStep::AwaitHint);
    assert_eq!(backend.poll(0), FetchStep::AwaitHint);
    backend.route_hint("l1-blob 01").unwrap();
    assert_eq!(OnlineHostBackend::get_preimage(&store, &key), FetchStep::AwaitHint);
    assert_eq!(backend.poll(0), FetchStep::Fetch(hint(HintType::L1Blob, &[1])));
}

#[test]
fn retry_returns_the_bytes_that_a_handler_inserted() {
    let key = PreimageKey::new_keccak256([7; 32]);
    let other = PreimageKey::new_keccak256([8; 32]);
    let mut store = MemoryKeyValueStore::new();
    let mut backend = OnlineHostBackend::new();
    assert_eq!(OnlineHostBackend::get_preimage(&store, &key), FetchStep::AwaitHint);

    // Unrelated hints come and go; one of them is fetched and brings other data.
    backend.route_hint("l1-blob 01").unwrap();
    backend.route_hint("l2-code 02").unwrap();
    assert!(matches!(backend.poll(10), FetchStep::Fetch(_)));
    store.set(other, vec![9]);
    assert_eq!(OnlineHostBackend::fetch_finished(true, &store, &key), FetchStep::AwaitHint);

    // A fetch that fails is retried.
    assert!(matches!(backend.poll(20), FetchStep::Fetch(_)));
    assert_eq!(OnlineHostBackend::fetch_finished(false, &store, &key), FetchStep::AwaitHint);

    // The hint for the key arrives, its fetch fills the store.
    backend.route_hint("l2-state-node 03").unwrap();
    assert_eq!(backend.poll(30), FetchStep::Fetch(hint(HintType::L2StateNode, &[3])));
    store.set(key, vec![0xca, 0xfe]);
    let step = OnlineHostBackend::fetch_finished(true, &store, &key);
    assert_eq!(step, FetchStep::Found(vec![0xca, 0xfe]));
    assert_eq!(step.into_result(), Ok(vec![0xca, 0xfe]));
}

#[test]
fn failed_fetch_does_not_read_the_store() {
    let key = PreimageKey::new_keccak256([7; 32]);
    let mut store = MemoryKeyValueStore::new();
    store.set(key, vec![1]);
    assert_eq!(OnlineHostBackend::fetch_finished(false, &store, &key), FetchStep::AwaitHint);
    assert_eq!(OnlineHostBackend::fetch_finished(true, &store, &key), FetchStep::Found(vec![1]));
}

#[test]
fn request_times_out_at_the_deadline_and_not_before() {
    assert_eq!(PREIMAGE_TIMEOUT_MS, 60_000);
    let mut backend = OnlineHostBackend::new();
    assert_eq!(backend.poll(0), FetchStep::AwaitHint);
    assert_eq!(backend.poll(59_999), FetchStep::AwaitHint);
    assert_eq!(backend.poll(60_000), FetchStep::TimedOut);
    assert_eq!(backend.poll(u64::MAX), FetchStep::TimedOut);
    backend.route_hint("l1-blob 01").unwrap();
    assert!(matches!(backend.poll(59_999), FetchStep::Fetch(_)));
    assert_eq!(backend.poll(60_000), FetchStep::TimedOut);
    assert_eq!(FetchStep::TimedOut.into_result(), Err(PreimageOracleError::Timeout));
}

#[test]
fn request_that_ends_while_waiting_has_not_found_its_key() {
    assert_eq!(FetchStep::AwaitHint.into_result(), Err(PreimageOracleError::KeyNotFound));
    assert_eq!(
        FetchStep::Fetch(hint(HintType::L1Blob, &[1])).into_result(),
        Err(PreimageOracleError::KeyNotFound)
    );
}

#[test]
fn store_entries_are_written_once() {
    let key = PreimageKey::new_local(4);
    let mut store = MemoryKeyValueStore::new();
    assert_eq!(store.len(), 0);
    assert_eq!(store.get(&key), None);
    assert!(store.set(key, vec![1, 2]));
    assert!(!store.set(key, vec![3]));
    assert_eq!(store.get(&key), Some(vec![1, 2]));
    assert!(store.set(PreimageKey::new_local(5), vec![]));
    assert_eq!(store.get(&PreimageKey::new_local(5)), Some(vec![]));
    assert_eq!(store.get(&key), Some(vec![1, 2]));
    assert_eq!(store.len(), 2);
}

#[test]
fn keys_encode_with_their_tag_first() {
    let local = PreimageKey::new_local(0x0102);
    let mut expected = [0u8; 32];
    expected[0] = 1;
    expected[30] = 0x01;
    expected[31] = 0x02;
    assert_eq!(local.encode(), B256::new(expected));

    let mut expected = [0xffu8; 32];
    expected[0] = 1;
    for byte in expected.iter_mut().take(24).skip(1) {
        *byte = 0;
    }
    assert_eq!(PreimageKey::new_local(u64::MAX).encode(), B256::new(expected));

    let digest: [u8; 32] = core::array::from_fn(|i| (i + 100) as u8);
    let key = PreimageKey::new_keccak256(digest);
    let mut expected = digest;
    expected[0] = 2;
    assert_eq!(key.encode(), B256::new(expected));
    assert_eq!(key.key_type, PreimageKeyType::Keccak256);
}

#[test]
fn keys_ignore_the_first_byte_of_their_value() {
    let mut a = [5u8; 32];
    let mut b = [5u8; 32];
    a[0] = 1;
    b[0] = 2;
    assert_eq!(PreimageKey::new_keccak256(a), PreimageKey::new_keccak256(b));
    assert_ne!(
        PreimageKey::new(a, PreimageKeyType::Sha256),
        PreimageKey::new(a, PreimageKeyType::Keccak256)
    );
    b[31] = 6;
    assert_ne!(PreimageKey::new_keccak256(a), PreimageKey::new_keccak256(b));
}

#[test]
fn keys_decode_from_their_encoding() {
    let types = [
        (PreimageKeyType::Local, 1u8),
        (PreimageKeyType::Keccak256, 2),
        (PreimageKeyType::GlobalGeneric, 3),
        (PreimageKeyType::Sha256, 4),
        (PreimageKeyType::Blob, 5),
        (PreimageKeyType::Precompile, 6),
    ];
    for (ty, tag) in types {
        assert_eq!(ty.tag(), tag);
        assert_eq!(PreimageKeyType::from_tag(tag), Some(ty));
        let key = PreimageKey::new([9; 32], ty);
        assert_eq!(PreimageKey::decode(&key.encode()), Some(key));
    }
    assert_eq!(PreimageKeyType::from_tag(0), None);
    assert_eq!(PreimageKeyType::from_tag(7), None);
    assert_eq!(PreimageKey::decode(&B256::new([0; 32])), None);
    assert_eq!(PreimageKey::decode(&B256::new([7; 32])), None);
}
