//! Staking call family: request building, response mapping, caching and
//! notifications.

use ext_bridge::staking::decode_era_info;
use ext_bridge::staking::encode_era_info;
use ext_bridge::staking::encode_era_info_result;
use ext_bridge::staking::read_current_era_request;
use ext_bridge::staking::read_era_info_request;
use ext_bridge::staking::read_current_era_response;
use ext_bridge::staking::read_era_info_response;
use ext_bridge::staking::DSError;
use ext_bridge::staking::DSErrorCode;
use ext_bridge::staking::DappsStakingExtension;
use ext_bridge::staking::EraInfo;
use ext_bridge::staking::RewardInfo;
use ext_bridge::ProtocolViolation;
use parity_scale_codec::Compact;
use parity_scale_codec::Encode;

#[test]
fn default_works() {
    let ds_extension = DappsStakingExtension::default();
    assert_eq!(ds_extension.get_current_era(), 0);
}

#[test]
fn chain_extension_works() {
    // given: a host that answers the era read with status 0 and encoded era 1
    let host_output: Vec<u8> = 1u32.encode();
    let mut ds_extension = DappsStakingExtension::default();
    assert_eq!(ds_extension.get_current_era(), 0);

    // when
    let req = read_current_era_request();
    assert_eq!(req.func_id, 2001);
    ds_extension
        .read_current_era(0, &host_output)
        .expect("no protocol violation")
        .expect("read_current_era must work");

    // then
    assert_eq!(ds_extension.get_current_era(), 1);
}

#[test]
fn era_read_success_updates_cache_and_notifies_once() {
    let host_output: Vec<u8> = 5u32.encode();
    let mut adapter = DappsStakingExtension::new();
    let r = adapter.read_current_era(0, &host_output);
    assert_eq!(r, Ok(Ok(5)));
    assert_eq!(adapter.get_current_era(), 5);
    assert_eq!(adapter.events.len(), 1);
    assert_eq!(adapter.events[0].new, 5);
}

#[test]
fn era_read_failure_leaves_state_untouched() {
    let mut adapter = DappsStakingExtension::new();
    let ok_output: Vec<u8> = 9u32.encode();
    adapter.read_current_era(0, &ok_output).unwrap().unwrap();
    assert_eq!(adapter.get_current_era(), 9);

    let r = adapter.read_current_era(1, &Vec::new());
    assert_eq!(r, Ok(Err(DSError::ErrorCode(DSErrorCode::Failed))));
    assert_eq!(adapter.get_current_era(), 9, "cache untouched on failure");
    assert_eq!(adapter.get_staked(), 0);
    assert_eq!(adapter.events.len(), 1, "no notification on failure");
}

#[test]
fn era_read_unknown_status_is_fatal() {
    let mut adapter = DappsStakingExtension::new();
    let r = adapter.read_current_era(255, &0u32.encode());
    assert_eq!(r, Err(ProtocolViolation::UnknownStatus));
    assert_eq!(adapter.get_current_era(), 0);
    assert_eq!(adapter.events.len(), 0);
}

#[test]
fn era_read_malformed_output_is_fatal() {
    let r = read_current_era_response(0, &vec![1, 2, 3]);
    assert_eq!(r, Err(ProtocolViolation::MalformedOutput));
}

#[test]
fn era_read_tolerates_trailing_bytes() {
    let mut host_output: Vec<u8> = 5u32.encode();
    host_output.push(99);
    let r = read_current_era_response(0, &host_output);
    assert_eq!(r, Ok(Ok(5)));
}

#[test]
fn era_info_request_encodes_era_fixed_width() {
    let req = read_era_info_request(10);
    assert_eq!(req.func_id, 2002);
    assert_eq!(req.input, vec![10, 0, 0, 0]);
    assert_eq!(req.input, 10u32.encode());
}

#[test]
fn era_info_success_decodes_structurally() {
    // host answers with status 0 and the encoded success record
    let mut host_output: Vec<u8> = vec![0];
    host_output.extend(Compact(7u128).encode());
    host_output.extend(Compact(3u128).encode());
    host_output.extend(Compact(100u128).encode());
    host_output.extend(Compact(20u128).encode());

    let mut adapter = DappsStakingExtension::new();
    let r = adapter.read_era_info(0, &host_output);
    let expected = EraInfo {
        rewards: RewardInfo { stakers: 7, dapps: 3 },
        staked: 100,
        locked: 20,
    };
    assert_eq!(r, Ok(Ok(expected)));
    assert_eq!(adapter.get_staked(), 100, "staked amount cached on success");
    assert_eq!(adapter.events.len(), 0, "no notification for era info reads");
}

#[test]
fn era_info_source_unavailable() {
    let mut adapter = DappsStakingExtension::new();
    let r = adapter.read_era_info(1, &Vec::new());
    assert_eq!(r, Ok(Err(DSError::ErrorCode(DSErrorCode::Failed))));
    assert_eq!(adapter.get_staked(), 0);
}

#[test]
fn era_info_error_payload_decodes() {
    // status 0 but the buffer itself carries the encoded failure branch
    let host_output: Vec<u8> = vec![1, 0, 0];
    let r = read_era_info_response(0, &host_output);
    assert_eq!(r, Ok(Err(DSError::ErrorCode(DSErrorCode::Failed))));
}

#[test]
fn era_info_round_trip_with_large_balances() {
    let record = EraInfo {
        rewards: RewardInfo { stakers: u128::MAX, dapps: 0 },
        staked: u64::MAX as u128 + 17,
        locked: 63,
    };
    let mut buf: Vec<u8> = Vec::new();
    encode_era_info(&record, &mut buf);
    let (decoded, next) = decode_era_info(&buf, 0).expect("decode");
    assert_eq!(decoded, record);
    assert_eq!(next, buf.len());
}

#[test]
fn era_info_result_round_trip() {
    for value in [
        Ok(EraInfo { rewards: RewardInfo { stakers: 1, dapps: 2 }, staked: 3, locked: 4 }),
        Err(DSError::ErrorCode(DSErrorCode::Failed)),
    ] {
        let mut buf: Vec<u8> = Vec::new();
        encode_era_info_result(&value, &mut buf);
        let r = read_era_info_response(0, &buf);
        assert_eq!(r, Ok(value));
    }
}

#[test]
fn status_mapping_is_total_and_distinct_on_known_set() {
    assert_eq!(DSErrorCode::from_status_code(0), Ok(()));
    assert_eq!(DSErrorCode::from_status_code(1), Err(DSErrorCode::Failed));
    assert_ne!(DSErrorCode::from_status_code(0), DSErrorCode::from_status_code(1));
}
