//! Staking call family: reading the current era and per-era accounting
//! records from the host's staking ledger.
//!
//! Two host operations belong to this family. Each is made in two verified
//! steps around the boundary crossing: a request builder produces the
//! operation's stable function identity and encoded arguments, and a response
//! handler maps the returned status code and decodes the returned bytes. The
//! `DappsStakingExtension` adapter additionally caches the last successfully
//! decoded values and records one notification per successful era read.

use crate::codec::decode_compact_u128;
use crate::codec::decode_u32;
use crate::codec::encode_compact_u128;
use crate::codec::encode_u32;
use crate::codec::lemma_compact_round_trip;
use crate::codec::lemma_concat_at;
use crate::codec::spec_compact;
use crate::codec::spec_dec_compact;
use crate::codec::spec_dec_u32;
use crate::codec::spec_u32;
use crate::ProtocolViolation;
use crate::Request;
use vstd::prelude::*;

verus! {

/// Unsigned integer of the platform's balance width.
pub type Balance = u128;

/// Stable numeric identity of the "read current era" host operation.
pub const READ_CURRENT_ERA_ID: u32 = 2001;

/// Stable numeric identity of the "read era info" host operation.
pub const READ_ERA_INFO_ID: u32 = 2002;

/// The closed set of known failure reasons for staking calls.
#[derive(Clone, Copy, Debug, PartialEq, Eq, Structural)]
pub enum DSErrorCode {
    /// The staking data source is unavailable for the requested operation.
    Failed,
}

/// Structured, caller-observable error of a staking call.
#[derive(Clone, Copy, Debug, PartialEq, Eq, Structural)]
pub enum DSError {
    /// A known nonzero status code, mapped to its failure reason.
    ErrorCode(DSErrorCode),
}

impl From<DSErrorCode> for DSError {
    fn from(error_code: DSErrorCode) -> (r: Self) {
        DSError::ErrorCode(error_code)
    }
}

impl vstd::std_specs::convert::FromSpecImpl<DSErrorCode> for DSError {
    open spec fn obeys_from_spec() -> bool {
        true
    }

    open spec fn from_spec(v: DSErrorCode) -> DSError {
        DSError::ErrorCode(v)
    }
}

/// A record of rewards allocated for stakers and dapps.
#[derive(Clone, Copy, Debug, PartialEq, Eq, Structural)]
pub struct RewardInfo {
    /// Total amount of rewards for stakers in an era.
    pub stakers: Balance,
    /// Total amount of rewards for dapps in an era.
    pub dapps: Balance,
}

/// A record of total rewards and total amounts staked and locked for an era.
#[derive(Clone, Copy, Debug, PartialEq, Eq, Structural)]
pub struct EraInfo {
    /// Total amount of earned rewards for an era.
    pub rewards: RewardInfo,
    /// Total staked amount in an era.
    pub staked: Balance,
    /// Total locked amount in an era.
    pub locked: Balance,
}

impl Default for RewardInfo {
    fn default() -> (r: Self)
        ensures
            r.stakers == 0 && r.dapps == 0,
    {
        RewardInfo { stakers: 0, dapps: 0 }
    }
}

impl Default for EraInfo {
    fn default() -> (r: Self)
        ensures
            r.rewards.stakers == 0 && r.rewards.dapps == 0 && r.staked == 0 && r.locked == 0,
    {
        EraInfo { rewards: RewardInfo { stakers: 0, dapps: 0 }, staked: 0, locked: 0 }
    }
}

/// Wire encoding of a reward record: both balances are compact-encoded.
pub open spec fn spec_enc_reward_info(r: RewardInfo) -> Seq<u8> {
    spec_compact(r.stakers) + spec_compact(r.dapps)
}

/// Decoding a reward record at offset `i`.
pub open spec fn spec_dec_reward_info(s: Seq<u8>, i: nat) -> Option<(RewardInfo, nat)> {
    match spec_dec_compact(s, i) {
        Some((stakers, j)) => match spec_dec_compact(s, j) {
            Some((dapps, k)) => Some(((RewardInfo { stakers, dapps }), k)),
            None => None,
        },
        None => None,
    }
}

/// Wire encoding of an era record: the reward record followed by the
/// compact-encoded staked and locked balances.
pub open spec fn spec_enc_era_info(e: EraInfo) -> Seq<u8> {
    spec_enc_reward_info(e.rewards) + spec_compact(e.staked) + spec_compact(e.locked)
}

/// Decoding an era record at offset `i`.
pub open spec fn spec_dec_era_info(s: Seq<u8>, i: nat) -> Option<(EraInfo, nat)> {
    match spec_dec_reward_info(s, i) {
        Some((rewards, j)) => match spec_dec_compact(s, j) {
            Some((staked, k)) => match spec_dec_compact(s, k) {
                Some((locked, l)) => Some(((EraInfo { rewards, staked, locked }), l)),
                None => None,
            },
            None => None,
        },
        None => None,
    }
}

/// Round trip for reward records.
pub proof fn lemma_reward_info_round_trip(r: RewardInfo, s: Seq<u8>, i: nat)
    requires
        i + spec_enc_reward_info(r).len() <= s.len(),
        s.subrange(i as int, i as int + spec_enc_reward_info(r).len() as int)
            == spec_enc_reward_info(r),
    ensures
        spec_dec_reward_info(s, i) == Some((r, (i + spec_enc_reward_info(r).len()) as nat)),
{
    let a = spec_compact(r.stakers);
    let b = spec_compact(r.dapps);
    lemma_concat_at(s, i, a, b);
    lemma_compact_round_trip(r.stakers, s, i);
    lemma_compact_round_trip(r.dapps, s, i + a.len());
}

/// Round trip for era records.
pub proof fn lemma_era_info_round_trip(e: EraInfo, s: Seq<u8>, i: nat)
    requires
        i + spec_enc_era_info(e).len() <= s.len(),
        s.subrange(i as int, i as int + spec_enc_era_info(e).len() as int) == spec_enc_era_info(e),
    ensures
        spec_dec_era_info(s, i) == Some((e, (i + spec_enc_era_info(e).len()) as nat)),
{
    let a = spec_enc_reward_info(e.rewards);
    let b = spec_compact(e.staked);
    let c = spec_compact(e.locked);
    assert(spec_enc_era_info(e) =~= a + (b + c));
    lemma_concat_at(s, i, a, b + c);
    lemma_reward_info_round_trip(e.rewards, s, i);
    lemma_concat_at(s, i + a.len(), b, c);
    lemma_compact_round_trip(e.staked, s, i + a.len());
    lemma_compact_round_trip(e.locked, s, i + a.len() + b.len());
}

/// Appends the wire encoding of `r` to `out`.
pub fn encode_reward_info(r: &RewardInfo, out: &mut Vec<u8>)
    ensures
        final(out)@ == old(out)@ + spec_enc_reward_info(*r),
{
    encode_compact_u128(r.stakers, out);
    encode_compact_u128(r.dapps, out);
    assert(out@ =~= old(out)@ + spec_enc_reward_info(*r));
}

/// Decodes a reward record from `bytes` at offset `i`.
pub fn decode_reward_info(bytes: &Vec<u8>, i: usize) -> (r: Option<(RewardInfo, usize)>)
    ensures
        match r {
            Some(p) => spec_dec_reward_info(bytes@, i as nat) == Some((p.0, p.1 as nat)),
            None => spec_dec_reward_info(bytes@, i as nat) is None,
        },
{
    match decode_compact_u128(bytes, i) {
        Some((stakers, j)) => match decode_compact_u128(bytes, j) {
            Some((dapps, k)) => Some((RewardInfo { stakers, dapps }, k)),
            None => None,
        },
        None => None,
    }
}

/// Appends the wire encoding of `e` to `out`.
pub fn encode_era_info(e: &EraInfo, out: &mut Vec<u8>)
    ensures
        final(out)@ == old(out)@ + spec_enc_era_info(*e),
{
    encode_reward_info(&e.rewards, out);
    encode_compact_u128(e.staked, out);
    encode_compact_u128(e.locked, out);
    assert(out@ =~= old(out)@ + spec_enc_era_info(*e));
}

/// Decodes an era record from `bytes` at offset `i`.
pub fn decode_era_info(bytes: &Vec<u8>, i: usize) -> (r: Option<(EraInfo, usize)>)
    ensures
        match r {
            Some(p) => spec_dec_era_info(bytes@, i as nat) == Some((p.0, p.1 as nat)),
            None => spec_dec_era_info(bytes@, i as nat) is None,
        },
{
    match decode_reward_info(bytes, i) {
        Some((rewards, j)) => match decode_compact_u128(bytes, j) {
            Some((staked, k)) => match decode_compact_u128(bytes, k) {
                Some((locked, l)) => Some((EraInfo { rewards, staked, locked }, l)),
                None => None,
            },
            None => None,
        },
        None => None,
    }
}

/// Wire encoding of a staking failure reason: its variant index.
pub open spec fn spec_enc_ds_error_code(c: DSErrorCode) -> Seq<u8> {
    match c {
        DSErrorCode::Failed => seq![0u8],
    }
}

/// Decoding a staking failure reason at offset `i`.
pub open spec fn spec_dec_ds_error_code(s: Seq<u8>, i: nat) -> Option<(DSErrorCode, nat)> {
    if i + 1 <= s.len() {
        if s[i as int] == 0 {
            Some((DSErrorCode::Failed, (i + 1) as nat))
        } else {
            None
        }
    } else {
        None
    }
}

/// Wire encoding of a staking error: its variant index followed by the
/// failure reason.
pub open spec fn spec_enc_ds_error(e: DSError) -> Seq<u8> {
    match e {
        DSError::ErrorCode(c) => seq![0u8] + spec_enc_ds_error_code(c),
    }
}

/// Decoding a staking error at offset `i`.
pub open spec fn spec_dec_ds_error(s: Seq<u8>, i: nat) -> Option<(DSError, nat)> {
    if i + 1 <= s.len() {
        if s[i as int] == 0 {
            match spec_dec_ds_error_code(s, i + 1) {
                Some((c, j)) => Some((DSError::ErrorCode(c), j)),
                None => None,
            }
        } else {
            None
        }
    } else {
        None
    }
}

/// Round trip for staking errors.
pub proof fn lemma_ds_error_round_trip(e: DSError, s: Seq<u8>, i: nat)
    requires
        i + spec_enc_ds_error(e).len() <= s.len(),
        s.subrange(i as int, i as int + spec_enc_ds_error(e).len() as int) == spec_enc_ds_error(e),
    ensures
        spec_dec_ds_error(s, i) == Some((e, (i + spec_enc_ds_error(e).len()) as nat)),
{
    let enc = spec_enc_ds_error(e);
    assert(s[i as int] == s.subrange(i as int, i as int + enc.len() as int)[0]);
    assert(s[i as int + 1] == s.subrange(i as int, i as int + enc.len() as int)[1]);
}

/// Appends the wire encoding of `e` to `out`.
pub fn encode_ds_error(e: &DSError, out: &mut Vec<u8>)
    ensures
        final(out)@ == old(out)@ + spec_enc_ds_error(*e),
{
    match e {
        DSError::ErrorCode(c) => {
            out.push(0);
            match c {
                DSErrorCode::Failed => out.push(0),
            }
        },
    }
    assert(out@ =~= old(out)@ + spec_enc_ds_error(*e));
}

/// Decodes a staking error from `bytes` at offset `i`.
pub fn decode_ds_error(bytes: &Vec<u8>, i: usize) -> (r: Option<(DSError, usize)>)
    ensures
        match r {
            Some(p) => spec_dec_ds_error(bytes@, i as nat) == Some((p.0, p.1 as nat)),
            None => spec_dec_ds_error(bytes@, i as nat) is None,
        },
{
    if i < bytes.len() && bytes[i] == 0 {
        if i + 1 < bytes.len() && bytes[i + 1] == 0 {
            Some((DSError::ErrorCode(DSErrorCode::Failed), i + 2))
        } else {
            None
        }
    } else {
        None
    }
}

/// Wire encoding of the era-record result the host returns: a one-byte
/// discriminator (`0` success, `1` failure) followed by the payload.
pub open spec fn spec_enc_era_info_result(r: Result<EraInfo, DSError>) -> Seq<u8> {
    match r {
        Ok(e) => seq![0u8] + spec_enc_era_info(e),
        Err(e) => seq![1u8] + spec_enc_ds_error(e),
    }
}

/// Decoding the era-record result at offset `i`.
pub open spec fn spec_dec_era_info_result(s: Seq<u8>, i: nat) -> Option<
    (Result<EraInfo, DSError>, nat),
> {
    if i + 1 <= s.len() {
        if s[i as int] == 0 {
            match spec_dec_era_info(s, i + 1) {
                Some((e, j)) => Some((Ok(e), j)),
                None => None,
            }
        } else if s[i as int] == 1 {
            match spec_dec_ds_error(s, i + 1) {
                Some((e, j)) => Some((Err(e), j)),
                None => None,
            }
        } else {
            None
        }
    } else {
        None
    }
}

/// Round trip for the era-record result.
pub proof fn lemma_era_info_result_round_trip(r: Result<EraInfo, DSError>, s: Seq<u8>, i: nat)
    requires
        i + spec_enc_era_info_result(r).len() <= s.len(),
        s.subrange(i as int, i as int + spec_enc_era_info_result(r).len() as int)
            == spec_enc_era_info_result(r),
    ensures
        spec_dec_era_info_result(s, i) == Some(
            (r, (i + spec_enc_era_info_result(r).len()) as nat),
        ),
{
    match r {
        Ok(e) => {
            lemma_concat_at(s, i, seq![0u8], spec_enc_era_info(e));
            assert(s[i as int] == s.subrange(i as int, i as int + 1)[0]);
            lemma_era_info_round_trip(e, s, i + 1);
        },
        Err(e) => {
            lemma_concat_at(s, i, seq![1u8], spec_enc_ds_error(e));
            assert(s[i as int] == s.subrange(i as int, i as int + 1)[0]);
            lemma_ds_error_round_trip(e, s, i + 1);
        },
    }
}

/// Appends the wire encoding of `r` to `out`.
pub fn encode_era_info_result(r: &Result<EraInfo, DSError>, out: &mut Vec<u8>)
    ensures
        final(out)@ == old(out)@ + spec_enc_era_info_result(*r),
{
    match r {
        Ok(e) => {
            out.push(0);
            encode_era_info(e, out);
        },
        Err(e) => {
            out.push(1);
            encode_ds_error(e, out);
        },
    }
    assert(out@ =~= old(out)@ + spec_enc_era_info_result(*r));
}

/// Decodes the era-record result from `bytes` at offset `i`.
pub fn decode_era_info_result(bytes: &Vec<u8>, i: usize) -> (r: Option<
    (Result<EraInfo, DSError>, usize),
>)
    ensures
        match r {
            Some(p) => spec_dec_era_info_result(bytes@, i as nat) == Some((p.0, p.1 as nat)),
            None => spec_dec_era_info_result(bytes@, i as nat) is None,
        },
{
    if i < bytes.len() {
        let tag = bytes[i];
        if tag == 0 {
            match decode_era_info(bytes, i + 1) {
                Some((e, j)) => Some((Ok(e), j)),
                None => None,
            }
        } else if tag == 1 {
            match decode_ds_error(bytes, i + 1) {
                Some((e, j)) => Some((Err(e), j)),
                None => None,
            }
        } else {
            None
        }
    } else {
        None
    }
}

/// The status mapping for the staking call family over its known set:
/// `0` means success and `1` means the data source is unavailable.
pub open spec fn spec_ds_status(status: u32) -> Result<(), DSErrorCode> {
    if status == 0 {
        Ok(())
    } else {
        Err(DSErrorCode::Failed)
    }
}

impl DSErrorCode {
    /// Maps a status code of the known staking set. A status code outside
    /// the known set is a protocol violation, not a mappable outcome; the
    /// response handlers surface it as `ProtocolViolation::UnknownStatus`.
    pub fn from_status_code(status_code: u32) -> (r: Result<(), DSErrorCode>)
        requires
            status_code <= 1,
        ensures
            r == spec_ds_status(status_code),
    {
        match status_code {
            0 => Ok(()),
            _ => Err(DSErrorCode::Failed),
        }
    }
}

/// Status mapping totality and distinctness over the known staking set:
/// `0` maps to success, every other known code maps to exactly one failure
/// reason, and distinct known codes map to distinct outcomes.
pub proof fn lemma_ds_status_mapping(s1: u32, s2: u32)
    requires
        s1 <= 1,
        s2 <= 1,
    ensures
        spec_ds_status(0) == Ok::<(), DSErrorCode>(()),
        s1 != s2 ==> spec_ds_status(s1) != spec_ds_status(s2),
{
}

/// Outcome of a "read current era" call, as a function of the status code
/// and output buffer the host returned. The output holds the era directly.
/// An unknown status code or a malformed buffer is a protocol violation.
pub open spec fn spec_current_era_outcome(status: u32, out: Seq<u8>) -> Result<
    Result<u32, DSError>,
    ProtocolViolation,
> {
    if status == 0 {
        match spec_dec_u32(out, 0) {
            Some((era, j)) => Ok(Ok(era)),
            None => Err(ProtocolViolation::MalformedOutput),
        }
    } else if status == 1 {
        Ok(Err(DSError::ErrorCode(DSErrorCode::Failed)))
    } else {
        Err(ProtocolViolation::UnknownStatus)
    }
}

/// Outcome of a "read era info" call, as a function of the status code and
/// output buffer the host returned. The output holds an encoded result:
/// either an era record or a staking error.
pub open spec fn spec_era_info_outcome(status: u32, out: Seq<u8>) -> Result<
    Result<EraInfo, DSError>,
    ProtocolViolation,
> {
    if status == 0 {
        match spec_dec_era_info_result(out, 0) {
            Some((r, j)) => Ok(r),
            None => Err(ProtocolViolation::MalformedOutput),
        }
    } else if status == 1 {
        Ok(Err(DSError::ErrorCode(DSErrorCode::Failed)))
    } else {
        Err(ProtocolViolation::UnknownStatus)
    }
}

/// Builds the request of the "read current era" operation: function identity
/// and no arguments.
pub fn read_current_era_request() -> (r: Request)
    ensures
        r.func_id == READ_CURRENT_ERA_ID,
        r.input@ == Seq::<u8>::empty(),
{
    Request { func_id: READ_CURRENT_ERA_ID, input: Vec::new() }
}

/// Builds the request of the "read era info" operation: function identity
/// and the fixed-width encoded era.
pub fn read_era_info_request(era: u32) -> (r: Request)
    ensures
        r.func_id == READ_ERA_INFO_ID,
        r.input@ == spec_u32(era),
{
    let mut input: Vec<u8> = Vec::new();
    encode_u32(era, &mut input);
    Request { func_id: READ_ERA_INFO_ID, input }
}

/// Maps the host's response to a "read current era" request into the typed
/// outcome.
pub fn read_current_era_response(status: u32, output: &Vec<u8>) -> (r: Result<
    Result<u32, DSError>,
    ProtocolViolation,
>)
    ensures
        r == spec_current_era_outcome(status, output@),
{
    if status == 0 {
        match decode_u32(output, 0) {
            Some((era, _next)) => Ok(Ok(era)),
            None => Err(ProtocolViolation::MalformedOutput),
        }
    } else if status == 1 {
        Ok(Err(DSError::ErrorCode(DSErrorCode::Failed)))
    } else {
        Err(ProtocolViolation::UnknownStatus)
    }
}

/// Maps the host's response to a "read era info" request into the typed
/// outcome.
pub fn read_era_info_response(status: u32, output: &Vec<u8>) -> (r: Result<
    Result<EraInfo, DSError>,
    ProtocolViolation,
>)
    ensures
        r == spec_era_info_outcome(status, output@),
{
    if status == 0 {
        match decode_era_info_result(output, 0) {
            Some((res, _next)) => Ok(res),
            None => Err(ProtocolViolation::MalformedOutput),
        }
    } else if status == 1 {
        Ok(Err(DSError::ErrorCode(DSErrorCode::Failed)))
    } else {
        Err(ProtocolViolation::UnknownStatus)
    }
}

/// Notification recorded once per successful era read, carrying the new era.
#[derive(Clone, Copy, Debug, PartialEq, Eq, Structural)]
pub struct CurrentEraUpdated {
    /// The era value the read returned.
    pub new: u32,
}

/// Contract adapter of the staking family: caches the last successfully
/// decoded era and staked amount, and records one notification per
/// successful era read. A failing call leaves the cache untouched.
pub struct DappsStakingExtension {
    /// Last successfully read era; zero before any call.
    pub current_era: u32,
    /// Last successfully read staked amount; zero before any call.
    pub staked: Balance,
    /// Notifications recorded so far, oldest first.
    pub events: Vec<CurrentEraUpdated>,
}

impl DappsStakingExtension {
    /// Creates an adapter with all cached fields zero and no notifications.
    pub fn new() -> (r: Self)
        ensures
            r.current_era == 0,
            r.staked == 0,
            r.events@ == Seq::<CurrentEraUpdated>::empty(),
    {
        DappsStakingExtension { current_era: 0, staked: 0, events: Vec::new() }
    }

    /// Last successfully read era.
    pub fn get_current_era(&self) -> (r: u32)
        ensures
            r == self.current_era,
    {
        self.current_era
    }

    /// Last successfully read staked amount.
    pub fn get_staked(&self) -> (r: Balance)
        ensures
            r == self.staked,
    {
        self.staked
    }

    /// Completes a "read current era" call from the host's response. On
    /// success the cached era is replaced and exactly one notification
    /// carrying the new era is recorded; on any failure the cache and the
    /// notifications are left exactly as they were.
    pub fn read_current_era(&mut self, status: u32, output: &Vec<u8>) -> (r: Result<
        Result<u32, DSError>,
        ProtocolViolation,
    >)
        ensures
            r == spec_current_era_outcome(status, output@),
            match r {
                Ok(Ok(era)) => final(self).current_era == era && final(self).staked == old(
                    self,
                ).staked && final(self).events@ == old(self).events@.push(
                    (CurrentEraUpdated { new: era }),
                ),
                _ => final(self).current_era == old(self).current_era && final(self).staked == old(
                    self,
                ).staked && final(self).events@ == old(self).events@,
            },
    {
        let r = read_current_era_response(status, output);
        match r {
            Ok(Ok(era)) => {
                self.current_era = era;
                self.events.push(CurrentEraUpdated { new: era });
            },
            _ => (),
        }
        r
    }

    /// Completes a "read era info" call from the host's response. On success
    /// the cached staked amount is replaced by the record's; on any failure
    /// the cache is left exactly as it was. No notification is recorded.
    pub fn read_era_info(&mut self, status: u32, output: &Vec<u8>) -> (r: Result<
        Result<EraInfo, DSError>,
        ProtocolViolation,
    >)
        ensures
            r == spec_era_info_outcome(status, output@),
            final(self).current_era == old(self).current_era,
            final(self).events@ == old(self).events@,
            match r {
                Ok(Ok(info)) => final(self).staked == info.staked,
                _ => final(self).staked == old(self).staked,
            },
    {
        let r = read_era_info_response(status, output);
        match r {
            Ok(Ok(info)) => {
                self.staked = info.staked;
            },
            _ => (),
        }
        r
    }
}

impl Default for DappsStakingExtension {
    fn default() -> (r: Self)
        ensures
            r.current_era == 0,
            r.staked == 0,
            r.events@ == Seq::<CurrentEraUpdated>::empty(),
    {
        DappsStakingExtension::new()
    }
}

/// Fatal-on-unknown for the staking family: a status code outside the known
/// set yields a protocol violation, never a typed staking error, whatever
/// the output buffer holds.
pub proof fn lemma_staking_unknown_status_fatal(status: u32, out: Seq<u8>)
    requires
        status > 1,
    ensures
        spec_current_era_outcome(status, out) == Err::<Result<u32, DSError>, ProtocolViolation>(
            ProtocolViolation::UnknownStatus,
        ),
        spec_era_info_outcome(status, out) == Err::<Result<EraInfo, DSError>, ProtocolViolation>(
            ProtocolViolation::UnknownStatus,
        ),
{
}

/// Era-record encoding is canonical: distinct records never share an
/// encoding.
pub proof fn lemma_era_info_enc_injective(e1: EraInfo, e2: EraInfo)
    requires
        spec_enc_era_info(e1) == spec_enc_era_info(e2),
    ensures
        e1 == e2,
{
    let s = spec_enc_era_info(e1);
    assert(s.subrange(0, s.len() as int) =~= s);
    lemma_era_info_round_trip(e1, s, 0);
    lemma_era_info_round_trip(e2, s, 0);
}

} // verus!
