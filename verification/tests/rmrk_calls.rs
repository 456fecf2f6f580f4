//! NFT registry call family: request building, response mapping and
//! round trips of the composite argument types.

use ext_bridge::rmrk::collection_index_request;
use ext_bridge::rmrk::create_collection_request;
use ext_bridge::rmrk::decode_collection;
use ext_bridge::rmrk::decode_mint;
use ext_bridge::rmrk::mint_ntf_request;
use ext_bridge::rmrk::next_nft_id_request;
use ext_bridge::rmrk::AccountId;
use ext_bridge::rmrk::CollectionDescriptor;
use ext_bridge::rmrk::NftMintRequest;
use ext_bridge::rmrk::Rmrk;
use ext_bridge::rmrk::RmrkError;
use ext_bridge::rmrk::RmrkErrorCode;
use ext_bridge::ProtocolViolation;
use parity_scale_codec::Compact;
use parity_scale_codec::Encode;

#[test]
fn create_collection_works() {
    let rmrk = Rmrk::new();
    let metadata = "ipfs://ipfs/QmTG9ekqrdMh3dsehLYjC19fUSmPR31Ds2h6Jd7LnMZ9c7".to_string();
    let symbol = "ROO".to_string();

    let desc = CollectionDescriptor {
        metadata: metadata.into_bytes(),
        max: None,
        symbol: symbol.clone().into_bytes(),
    };
    let req = create_collection_request(&desc);
    assert_eq!(req.func_id, 3515);

    // a host that answers with 32 bytes of ones is not answering with a
    // well-formed result encoding: the call must abort, not error
    let host_output: Vec<u8> = vec![1; 32];
    let mut rmrk = rmrk;
    let result = rmrk.create_collection(0, &host_output);
    assert_eq!(result, Err(ProtocolViolation::MalformedOutput));
}

#[test]
fn create_collection_request_layout() {
    let metadata: Vec<u8> = vec![0x11; 40];
    let desc = CollectionDescriptor {
        metadata: metadata.clone(),
        max: None,
        symbol: b"ROO".to_vec(),
    };
    let req = create_collection_request(&desc);
    assert_eq!(req.func_id, 3515);

    // symbol length-prefixed, `max` tagged absent
    let mut expected: Vec<u8> = Compact(40u32).encode();
    expected.extend(metadata.clone());
    expected.push(0);
    expected.extend(Compact(3u32).encode());
    expected.extend(b"ROO".to_vec());
    assert_eq!(req.input, expected);
    assert_eq!(req.input, (metadata, None::<u32>, b"ROO".to_vec()).encode());

    // the host accepts: unit success
    let mut rmrk = Rmrk::new();
    let result = rmrk.create_collection(0, &vec![0]);
    assert_eq!(result, Ok(Ok(())));
}

#[test]
fn collection_round_trip() {
    let desc = CollectionDescriptor {
        metadata: vec![1, 2, 3],
        max: Some(77),
        symbol: b"XY".to_vec(),
    };
    let req = create_collection_request(&desc);
    let (decoded, next) = decode_collection(&req.input, 0).expect("decode");
    assert_eq!(decoded, desc);
    assert_eq!(next, req.input.len());
}

#[test]
fn mint_request_matches_reference_encoding() {
    let beneficiary = [7u8; 32];
    let recipient = [9u8; 32];
    let metadata: Vec<u8> = b"meta".to_vec();
    let res_a: Vec<u8> = b"base".to_vec();
    let res_b: Vec<u8> = b"src".to_vec();
    let request = NftMintRequest {
        beneficiary: AccountId::from_bytes(beneficiary.to_vec()),
        collection_id: 12,
        royalty_recipient: Some(AccountId::from_bytes(recipient.to_vec())),
        royalty: Some(5),
        metadata: metadata.clone(),
        transferable: true,
        resources: Some(((res_a.clone(), res_b.clone()), 3)),
    };
    let req = mint_ntf_request(&request);
    assert_eq!(req.func_id, 3513);

    let reference = (
        beneficiary,
        12u32,
        Some(recipient),
        Some(5u8),
        metadata,
        true,
        Some(((res_a, res_b), 3u32)),
    )
        .encode();
    assert_eq!(req.input, reference);
}

#[test]
fn mint_request_round_trip() {
    let request = NftMintRequest {
        beneficiary: AccountId::from_bytes(vec![1; 32]),
        collection_id: 4,
        royalty_recipient: None,
        royalty: None,
        metadata: vec![0xaa; 10],
        transferable: false,
        resources: None,
    };
    let req = mint_ntf_request(&request);
    let (decoded, next) = decode_mint(&req.input, 0).expect("decode");
    assert_eq!(decoded, request);
    assert_eq!(next, req.input.len());

    let with_options = NftMintRequest {
        beneficiary: AccountId::from_bytes(vec![2; 32]),
        collection_id: 9,
        royalty_recipient: Some(AccountId::from_bytes(vec![3; 32])),
        royalty: Some(17),
        metadata: Vec::new(),
        transferable: true,
        resources: Some(((vec![5, 6], Vec::new()), 8)),
    };
    let req = mint_ntf_request(&with_options);
    let (decoded, next) = decode_mint(&req.input, 0).expect("decode");
    assert_eq!(decoded, with_options);
    assert_eq!(next, req.input.len());
}

#[test]
fn mint_success_and_failure_statuses() {
    let mut rmrk = Rmrk::new();
    assert_eq!(rmrk.mint_ntf(0, &vec![0]), Ok(Ok(())));
    assert_eq!(
        rmrk.mint_ntf(0, &vec![1, 0, 0]),
        Ok(Err(RmrkError::ErrorCode(RmrkErrorCode::Failed)))
    );
    assert_eq!(
        rmrk.mint_ntf(1, &Vec::new()),
        Ok(Err(RmrkError::ErrorCode(RmrkErrorCode::Failed)))
    );
}

#[test]
fn next_nft_id_call() {
    let req = next_nft_id_request(12);
    assert_eq!(req.func_id, 3501);
    assert_eq!(req.input, 12u32.encode());

    let rmrk = Rmrk::new();
    let mut host_output: Vec<u8> = vec![0];
    host_output.extend(34u32.encode());
    assert_eq!(rmrk.next_nft_id(0, &host_output), Ok(Ok(34)));
    assert_eq!(
        rmrk.next_nft_id(1, &Vec::new()),
        Ok(Err(RmrkError::ErrorCode(RmrkErrorCode::Failed)))
    );
}

#[test]
fn collection_index_call() {
    let req = collection_index_request();
    assert_eq!(req.func_id, 3502);
    assert!(req.input.is_empty());

    let rmrk = Rmrk::new();
    let mut host_output: Vec<u8> = vec![0];
    host_output.extend(2u32.encode());
    assert_eq!(rmrk.collection_index(0, &host_output), Ok(Ok(2)));
    assert_eq!(
        rmrk.collection_index(0, &vec![0, 1]),
        Err(ProtocolViolation::MalformedOutput)
    );
}

#[test]
fn unknown_status_is_fatal_for_registry_calls() {
    let mut rmrk = Rmrk::new();
    assert_eq!(rmrk.next_nft_id(255, &Vec::new()), Err(ProtocolViolation::UnknownStatus));
    assert_eq!(rmrk.collection_index(7, &Vec::new()), Err(ProtocolViolation::UnknownStatus));
    assert_eq!(rmrk.mint_ntf(255, &vec![0]), Err(ProtocolViolation::UnknownStatus));
    assert_eq!(rmrk.create_collection(2, &vec![0]), Err(ProtocolViolation::UnknownStatus));
}

#[test]
fn registry_status_mapping_is_total_and_distinct_on_known_set() {
    assert_eq!(RmrkErrorCode::from_status_code(0), Ok(()));
    assert_eq!(RmrkErrorCode::from_status_code(1), Err(RmrkErrorCode::Failed));
    assert_ne!(RmrkErrorCode::from_status_code(0), RmrkErrorCode::from_status_code(1));
}
