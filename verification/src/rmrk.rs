//! NFT registry call family: minting NFTs and managing collections through
//! the host's registry.
//!
//! Four host operations belong to this family. As in the staking family,
//! each is made in two verified steps around the boundary crossing: a
//! request builder produces the operation's stable function identity and
//! encoded arguments, and a response handler maps the returned status code
//! and decodes the returned bytes. The `Rmrk` adapter holds no cached state;
//! it only completes calls.

use crate::codec::decode_u32;
use crate::codec::encode_bool;
use crate::codec::encode_bytes;
use crate::codec::encode_u32;
use crate::codec::decode_bool;
use crate::codec::decode_bytes;
use crate::codec::lemma_bool_round_trip;
use crate::codec::lemma_bytes_round_trip;
use crate::codec::lemma_concat_at;
use crate::codec::lemma_u32_round_trip;
use crate::codec::spec_bool;
use crate::codec::spec_bytes;
use crate::codec::spec_dec_bool;
use crate::codec::spec_dec_bytes;
use crate::codec::spec_dec_u32;
use crate::codec::spec_u32;
use crate::ProtocolViolation;
use crate::Request;
use vstd::prelude::*;

verus! {

/// Stable numeric identity of the "next NFT id" host operation.
pub const NEXT_NFT_ID_ID: u32 = 3501;

/// Stable numeric identity of the "collection index" host operation.
pub const COLLECTION_INDEX_ID: u32 = 3502;

/// Stable numeric identity of the "mint NFT" host operation.
pub const MINT_NFT_ID: u32 = 3513;

/// Stable numeric identity of the "create collection" host operation.
pub const CREATE_COLLECTION_ID: u32 = 3515;

/// The closed set of known failure reasons for registry calls.
#[derive(Clone, Copy, Debug, PartialEq, Eq, Structural)]
pub enum RmrkErrorCode {
    /// The requested registry operation failed.
    Failed,
}

/// Structured, caller-observable error of a registry call.
#[derive(Clone, Copy, Debug, PartialEq, Eq, Structural)]
pub enum RmrkError {
    /// A known nonzero status code, mapped to its failure reason.
    ErrorCode(RmrkErrorCode),
}

impl From<RmrkErrorCode> for RmrkError {
    fn from(error_code: RmrkErrorCode) -> (r: Self) {
        RmrkError::ErrorCode(error_code)
    }
}

impl vstd::std_specs::convert::FromSpecImpl<RmrkErrorCode> for RmrkError {
    open spec fn obeys_from_spec() -> bool {
        true
    }

    open spec fn from_spec(v: RmrkErrorCode) -> RmrkError {
        RmrkError::ErrorCode(v)
    }
}

/// A 32-byte account identifier, encoded on the wire as its raw bytes with
/// no length prefix.
#[derive(Clone, Debug, PartialEq, Eq)]
pub struct AccountId {
    bytes: Vec<u8>,
}

impl View for AccountId {
    type V = Seq<u8>;

    closed spec fn view(&self) -> Seq<u8> {
        self.bytes@
    }
}

impl AccountId {
    /// An account identifier holds exactly 32 bytes.
    pub open spec fn wf(&self) -> bool {
        self@.len() == 32
    }

    /// Wraps 32 bytes as an account identifier.
    pub fn from_bytes(bytes: Vec<u8>) -> (r: AccountId)
        requires
            bytes@.len() == 32,
        ensures
            r@ == bytes@,
            r.wf(),
    {
        AccountId { bytes }
    }

    /// The raw bytes of the identifier.
    pub fn as_bytes(&self) -> (r: &Vec<u8>)
        ensures
            r@ == self@,
    {
        &self.bytes
    }
}

/// The status mapping for the registry call family over its known set:
/// `0` means success and `1` means the operation failed.
pub open spec fn spec_rmrk_status(status: u32) -> Result<(), RmrkErrorCode> {
    if status == 0 {
        Ok(())
    } else {
        Err(RmrkErrorCode::Failed)
    }
}

impl RmrkErrorCode {
    /// Maps a status code of the known registry set. A status code outside
    /// the known set is a protocol violation, not a mappable outcome; the
    /// response handlers surface it as `ProtocolViolation::UnknownStatus`.
    pub fn from_status_code(status_code: u32) -> (r: Result<(), RmrkErrorCode>)
        requires
            status_code <= 1,
        ensures
            r == spec_rmrk_status(status_code),
    {
        match status_code {
            0 => Ok(()),
            _ => Err(RmrkErrorCode::Failed),
        }
    }
}

/// Status mapping totality and distinctness over the known registry set:
/// `0` maps to success, every other known code maps to exactly one failure
/// reason, and distinct known codes map to distinct outcomes.
pub proof fn lemma_rmrk_status_mapping(s1: u32, s2: u32)
    requires
        s1 <= 1,
        s2 <= 1,
    ensures
        spec_rmrk_status(0) == Ok::<(), RmrkErrorCode>(()),
        s1 != s2 ==> spec_rmrk_status(s1) != spec_rmrk_status(s2),
{
}

/// Wire encoding of a registry failure reason: its variant index.
pub open spec fn spec_enc_rmrk_error_code(c: RmrkErrorCode) -> Seq<u8> {
    match c {
        RmrkErrorCode::Failed => seq![0u8],
    }
}

/// Wire encoding of a registry error: its variant index followed by the
/// failure reason.
pub open spec fn spec_enc_rmrk_error(e: RmrkError) -> Seq<u8> {
    match e {
        RmrkError::ErrorCode(c) => seq![0u8] + spec_enc_rmrk_error_code(c),
    }
}

/// Decoding a registry error at offset `i`.
pub open spec fn spec_dec_rmrk_error(s: Seq<u8>, i: nat) -> Option<(RmrkError, nat)> {
    if i + 2 <= s.len() {
        if s[i as int] == 0 && s[i as int + 1] == 0 {
            Some((RmrkError::ErrorCode(RmrkErrorCode::Failed), (i + 2) as nat))
        } else {
            None
        }
    } else {
        None
    }
}

/// Round trip for registry errors.
pub proof fn lemma_rmrk_error_round_trip(e: RmrkError, s: Seq<u8>, i: nat)
    requires
        i + spec_enc_rmrk_error(e).len() <= s.len(),
        s.subrange(i as int, i as int + spec_enc_rmrk_error(e).len() as int)
            == spec_enc_rmrk_error(e),
    ensures
        spec_dec_rmrk_error(s, i) == Some((e, (i + spec_enc_rmrk_error(e).len()) as nat)),
{
    let enc = spec_enc_rmrk_error(e);
    assert(s[i as int] == s.subrange(i as int, i as int + enc.len() as int)[0]);
    assert(s[i as int + 1] == s.subrange(i as int, i as int + enc.len() as int)[1]);
}

/// Appends the wire encoding of `e` to `out`.
pub fn encode_rmrk_error(e: &RmrkError, out: &mut Vec<u8>)
    ensures
        final(out)@ == old(out)@ + spec_enc_rmrk_error(*e),
{
    match e {
        RmrkError::ErrorCode(c) => {
            out.push(0);
            match c {
                RmrkErrorCode::Failed => out.push(0),
            }
        },
    }
    assert(out@ =~= old(out)@ + spec_enc_rmrk_error(*e));
}

/// Decodes a registry error from `bytes` at offset `i`.
pub fn decode_rmrk_error(bytes: &Vec<u8>, i: usize) -> (r: Option<(RmrkError, usize)>)
    ensures
        match r {
            Some(p) => spec_dec_rmrk_error(bytes@, i as nat) == Some((p.0, p.1 as nat)),
            None => spec_dec_rmrk_error(bytes@, i as nat) is None,
        },
{
    let blen = bytes.len();
    if i < blen && blen - i >= 2 && bytes[i] == 0 && bytes[i + 1] == 0 {
        Some((RmrkError::ErrorCode(RmrkErrorCode::Failed), i + 2))
    } else {
        None
    }
}

/// Wire encoding of the id result the host returns for registry queries:
/// a one-byte discriminator (`0` success, `1` failure) followed by the
/// payload.
pub open spec fn spec_enc_id_result(r: Result<u32, RmrkError>) -> Seq<u8> {
    match r {
        Ok(v) => seq![0u8] + spec_u32(v),
        Err(e) => seq![1u8] + spec_enc_rmrk_error(e),
    }
}

/// Decoding the id result at offset `i`.
pub open spec fn spec_dec_id_result(s: Seq<u8>, i: nat) -> Option<(Result<u32, RmrkError>, nat)> {
    if i + 1 <= s.len() {
        if s[i as int] == 0 {
            match spec_dec_u32(s, i + 1) {
                Some((v, j)) => Some((Ok(v), j)),
                None => None,
            }
        } else if s[i as int] == 1 {
            match spec_dec_rmrk_error(s, i + 1) {
                Some((e, j)) => Some((Err(e), j)),
                None => None,
            }
        } else {
            None
        }
    } else {
        None
    }
}

/// Round trip for the id result.
pub proof fn lemma_id_result_round_trip(r: Result<u32, RmrkError>, s: Seq<u8>, i: nat)
    requires
        i + spec_enc_id_result(r).len() <= s.len(),
        s.subrange(i as int, i as int + spec_enc_id_result(r).len() as int)
            == spec_enc_id_result(r),
    ensures
        spec_dec_id_result(s, i) == Some((r, (i + spec_enc_id_result(r).len()) as nat)),
{
    match r {
        Ok(v) => {
            lemma_concat_at(s, i, seq![0u8], spec_u32(v));
            assert(s[i as int] == s.subrange(i as int, i as int + 1)[0]);
            crate::codec::lemma_le_bytes_len(v as nat, 4);
            lemma_u32_round_trip(v, s, i + 1);
        },
        Err(e) => {
            lemma_concat_at(s, i, seq![1u8], spec_enc_rmrk_error(e));
            assert(s[i as int] == s.subrange(i as int, i as int + 1)[0]);
            lemma_rmrk_error_round_trip(e, s, i + 1);
        },
    }
}

/// Appends the wire encoding of `r` to `out`.
pub fn encode_id_result(r: &Result<u32, RmrkError>, out: &mut Vec<u8>)
    ensures
        final(out)@ == old(out)@ + spec_enc_id_result(*r),
{
    match r {
        Ok(v) => {
            out.push(0);
            encode_u32(*v, out);
        },
        Err(e) => {
            out.push(1);
            encode_rmrk_error(e, out);
        },
    }
    assert(out@ =~= old(out)@ + spec_enc_id_result(*r));
}

/// Decodes the id result from `bytes` at offset `i`.
pub fn decode_id_result(bytes: &Vec<u8>, i: usize) -> (r: Option<(Result<u32, RmrkError>, usize)>)
    ensures
        match r {
            Some(p) => spec_dec_id_result(bytes@, i as nat) == Some((p.0, p.1 as nat)),
            None => spec_dec_id_result(bytes@, i as nat) is None,
        },
{
    if i < bytes.len() {
        let tag = bytes[i];
        if tag == 0 {
            match decode_u32(bytes, i + 1) {
                Some((v, j)) => Some((Ok(v), j)),
                None => None,
            }
        } else if tag == 1 {
            match decode_rmrk_error(bytes, i + 1) {
                Some((e, j)) => Some((Err(e), j)),
                None => None,
            }
        } else {
            None
        }
    } else {
        None
    }
}

/// Wire encoding of the unit result the host returns for registry commands.
pub open spec fn spec_enc_unit_result(r: Result<(), RmrkError>) -> Seq<u8> {
    match r {
        Ok(u) => seq![0u8],
        Err(e) => seq![1u8] + spec_enc_rmrk_error(e),
    }
}

/// Decoding the unit result at offset `i`.
pub open spec fn spec_dec_unit_result(s: Seq<u8>, i: nat) -> Option<(Result<(), RmrkError>, nat)> {
    if i + 1 <= s.len() {
        if s[i as int] == 0 {
            Some((Ok(()), (i + 1) as nat))
        } else if s[i as int] == 1 {
            match spec_dec_rmrk_error(s, i + 1) {
                Some((e, j)) => Some((Err(e), j)),
                None => None,
            }
        } else {
            None
        }
    } else {
        None
    }
}

/// Round trip for the unit result.
pub proof fn lemma_unit_result_round_trip(r: Result<(), RmrkError>, s: Seq<u8>, i: nat)
    requires
        i + spec_enc_unit_result(r).len() <= s.len(),
        s.subrange(i as int, i as int + spec_enc_unit_result(r).len() as int)
            == spec_enc_unit_result(r),
    ensures
        spec_dec_unit_result(s, i) == Some((r, (i + spec_enc_unit_result(r).len()) as nat)),
{
    match r {
        Ok(u) => {
            assert(s[i as int] == s.subrange(i as int, i as int + 1)[0]);
        },
        Err(e) => {
            lemma_concat_at(s, i, seq![1u8], spec_enc_rmrk_error(e));
            assert(s[i as int] == s.subrange(i as int, i as int + 1)[0]);
            lemma_rmrk_error_round_trip(e, s, i + 1);
        },
    }
}

/// Appends the wire encoding of `r` to `out`.
pub fn encode_unit_result(r: &Result<(), RmrkError>, out: &mut Vec<u8>)
    ensures
        final(out)@ == old(out)@ + spec_enc_unit_result(*r),
{
    match r {
        Ok(_) => {
            out.push(0);
        },
        Err(e) => {
            out.push(1);
            encode_rmrk_error(e, out);
        },
    }
    assert(out@ =~= old(out)@ + spec_enc_unit_result(*r));
}

/// Decodes the unit result from `bytes` at offset `i`.
pub fn decode_unit_result(bytes: &Vec<u8>, i: usize) -> (r: Option<(Result<(), RmrkError>, usize)>)
    ensures
        match r {
            Some(p) => spec_dec_unit_result(bytes@, i as nat) == Some((p.0, p.1 as nat)),
            None => spec_dec_unit_result(bytes@, i as nat) is None,
        },
{
    if i < bytes.len() {
        let tag = bytes[i];
        if tag == 0 {
            Some((Ok(()), i + 1))
        } else if tag == 1 {
            match decode_rmrk_error(bytes, i + 1) {
                Some((e, j)) => Some((Err(e), j)),
                None => None,
            }
        } else {
            None
        }
    } else {
        None
    }
}

/// Wire encoding of an optional byte: a one-byte presence tag followed by
/// the value when present.
pub open spec fn spec_enc_opt_u8(o: Option<u8>) -> Seq<u8> {
    match o {
        None => seq![0u8],
        Some(v) => seq![1u8, v],
    }
}

/// Decoding an optional byte at offset `i`.
pub open spec fn spec_dec_opt_u8(s: Seq<u8>, i: nat) -> Option<(Option<u8>, nat)> {
    if i + 1 <= s.len() {
        if s[i as int] == 0 {
            Some((None, (i + 1) as nat))
        } else if s[i as int] == 1 {
            if i + 2 <= s.len() {
                Some((Some(s[i as int + 1]), (i + 2) as nat))
            } else {
                None
            }
        } else {
            None
        }
    } else {
        None
    }
}

/// Round trip for optional bytes.
pub proof fn lemma_opt_u8_round_trip(o: Option<u8>, s: Seq<u8>, i: nat)
    requires
        i + spec_enc_opt_u8(o).len() <= s.len(),
        s.subrange(i as int, i as int + spec_enc_opt_u8(o).len() as int) == spec_enc_opt_u8(o),
    ensures
        spec_dec_opt_u8(s, i) == Some((o, (i + spec_enc_opt_u8(o).len()) as nat)),
{
    let enc = spec_enc_opt_u8(o);
    assert(s[i as int] == s.subrange(i as int, i as int + enc.len() as int)[0]);
    if o is Some {
        assert(s[i as int + 1] == s.subrange(i as int, i as int + enc.len() as int)[1]);
    }
}

/// Appends the wire encoding of `o` to `out`.
pub fn encode_opt_u8(o: &Option<u8>, out: &mut Vec<u8>)
    ensures
        final(out)@ == old(out)@ + spec_enc_opt_u8(*o),
{
    match o {
        None => out.push(0),
        Some(v) => {
            out.push(1);
            out.push(*v);
        },
    }
    assert(out@ =~= old(out)@ + spec_enc_opt_u8(*o));
}

/// Decodes an optional byte from `bytes` at offset `i`.
pub fn decode_opt_u8(bytes: &Vec<u8>, i: usize) -> (r: Option<(Option<u8>, usize)>)
    ensures
        match r {
            Some(p) => spec_dec_opt_u8(bytes@, i as nat) == Some((p.0, p.1 as nat)),
            None => spec_dec_opt_u8(bytes@, i as nat) is None,
        },
{
    if i < bytes.len() {
        let tag = bytes[i];
        if tag == 0 {
            Some((None, i + 1))
        } else if tag == 1 {
            if i + 1 < bytes.len() {
                Some((Some(bytes[i + 1]), i + 2))
            } else {
                None
            }
        } else {
            None
        }
    } else {
        None
    }
}

/// Wire encoding of an optional `u32`: a one-byte presence tag followed by
/// the fixed-width value when present.
pub open spec fn spec_enc_opt_u32(o: Option<u32>) -> Seq<u8> {
    match o {
        None => seq![0u8],
        Some(v) => seq![1u8] + spec_u32(v),
    }
}

/// Decoding an optional `u32` at offset `i`.
pub open spec fn spec_dec_opt_u32(s: Seq<u8>, i: nat) -> Option<(Option<u32>, nat)> {
    if i + 1 <= s.len() {
        if s[i as int] == 0 {
            Some((None, (i + 1) as nat))
        } else if s[i as int] == 1 {
            match spec_dec_u32(s, i + 1) {
                Some((v, j)) => Some((Some(v), j)),
                None => None,
            }
        } else {
            None
        }
    } else {
        None
    }
}

/// Round trip for optional `u32` values.
pub proof fn lemma_opt_u32_round_trip(o: Option<u32>, s: Seq<u8>, i: nat)
    requires
        i + spec_enc_opt_u32(o).len() <= s.len(),
        s.subrange(i as int, i as int + spec_enc_opt_u32(o).len() as int) == spec_enc_opt_u32(o),
    ensures
        spec_dec_opt_u32(s, i) == Some((o, (i + spec_enc_opt_u32(o).len()) as nat)),
{
    match o {
        None => {
            assert(s[i as int] == s.subrange(i as int, i as int + 1)[0]);
        },
        Some(v) => {
            crate::codec::lemma_le_bytes_len(v as nat, 4);
            lemma_concat_at(s, i, seq![1u8], spec_u32(v));
            assert(s[i as int] == s.subrange(i as int, i as int + 1)[0]);
            lemma_u32_round_trip(v, s, i + 1);
        },
    }
}

/// Appends the wire encoding of `o` to `out`.
pub fn encode_opt_u32(o: &Option<u32>, out: &mut Vec<u8>)
    ensures
        final(out)@ == old(out)@ + spec_enc_opt_u32(*o),
{
    match o {
        None => out.push(0),
        Some(v) => {
            out.push(1);
            encode_u32(*v, out);
        },
    }
    assert(out@ =~= old(out)@ + spec_enc_opt_u32(*o));
}

/// Decodes an optional `u32` from `bytes` at offset `i`.
pub fn decode_opt_u32(bytes: &Vec<u8>, i: usize) -> (r: Option<(Option<u32>, usize)>)
    ensures
        match r {
            Some(p) => spec_dec_opt_u32(bytes@, i as nat) == Some((p.0, p.1 as nat)),
            None => spec_dec_opt_u32(bytes@, i as nat) is None,
        },
{
    if i < bytes.len() {
        let tag = bytes[i];
        if tag == 0 {
            Some((None, i + 1))
        } else if tag == 1 {
            match decode_u32(bytes, i + 1) {
                Some((v, j)) => Some((Some(v), j)),
                None => None,
            }
        } else {
            None
        }
    } else {
        None
    }
}

/// The byte sequences held by an optional account identifier.
pub open spec fn spec_view_opt_account(o: Option<AccountId>) -> Option<Seq<u8>> {
    match o {
        Some(a) => Some(a@),
        None => None,
    }
}

/// Wire encoding of an optional account identifier: a one-byte presence tag
/// followed by the raw 32 bytes when present.
pub open spec fn spec_enc_opt_account(o: Option<Seq<u8>>) -> Seq<u8> {
    match o {
        None => seq![0u8],
        Some(a) => seq![1u8] + a,
    }
}

/// Decoding an optional account identifier at offset `i`.
pub open spec fn spec_dec_opt_account(s: Seq<u8>, i: nat) -> Option<(Option<Seq<u8>>, nat)> {
    if i + 1 <= s.len() {
        if s[i as int] == 0 {
            Some((None, (i + 1) as nat))
        } else if s[i as int] == 1 {
            if i + 33 <= s.len() {
                Some((Some(s.subrange(i as int + 1, i as int + 33)), (i + 33) as nat))
            } else {
                None
            }
        } else {
            None
        }
    } else {
        None
    }
}

/// Round trip for optional account identifiers.
pub proof fn lemma_opt_account_round_trip(o: Option<Seq<u8>>, s: Seq<u8>, i: nat)
    requires
        (match o {
            Some(a) => a.len() == 32,
            None => true,
        }),
        i + spec_enc_opt_account(o).len() <= s.len(),
        s.subrange(i as int, i as int + spec_enc_opt_account(o).len() as int)
            == spec_enc_opt_account(o),
    ensures
        spec_dec_opt_account(s, i) == Some((o, (i + spec_enc_opt_account(o).len()) as nat)),
{
    match o {
        None => {
            assert(s[i as int] == s.subrange(i as int, i as int + 1)[0]);
        },
        Some(a) => {
            lemma_concat_at(s, i, seq![1u8], a);
            assert(s[i as int] == s.subrange(i as int, i as int + 1)[0]);
        },
    }
}

/// Appends the wire encoding of `o` to `out`.
pub fn encode_opt_account(o: &Option<AccountId>, out: &mut Vec<u8>)
    requires
        (match *o {
            Some(a) => a.wf(),
            None => true,
        }),
    ensures
        final(out)@ == old(out)@ + spec_enc_opt_account(spec_view_opt_account(*o)),
{
    match o {
        None => out.push(0),
        Some(a) => {
            out.push(1);
            crate::codec::encode_raw(&a.bytes, out);
        },
    }
    assert(out@ =~= old(out)@ + spec_enc_opt_account(spec_view_opt_account(*o)));
}

/// Decodes an optional account identifier from `bytes` at offset `i`.
pub fn decode_opt_account(bytes: &Vec<u8>, i: usize) -> (r: Option<(Option<AccountId>, usize)>)
    ensures
        match r {
            Some(p) => spec_dec_opt_account(bytes@, i as nat) == Some(
                (spec_view_opt_account(p.0), p.1 as nat),
            ) && (match p.0 {
                Some(a) => a.wf(),
                None => true,
            }),
            None => spec_dec_opt_account(bytes@, i as nat) is None,
        },
{
    if i < bytes.len() {
        let tag = bytes[i];
        if tag == 0 {
            Some((None, i + 1))
        } else if tag == 1 {
            match crate::codec::decode_raw(bytes, i + 1, 32) {
                Some((data, j)) => {
                    let a = AccountId::from_bytes(data);
                    Some((Some(a), j))
                },
                None => None,
            }
        } else {
            None
        }
    } else {
        None
    }
}

/// The byte sequences held by an optional resource description.
pub open spec fn spec_view_resources(o: Option<((Vec<u8>, Vec<u8>), u32)>) -> Option<
    ((Seq<u8>, Seq<u8>), u32),
> {
    match o {
        Some(r) => Some(((r.0.0@, r.0.1@), r.1)),
        None => None,
    }
}

/// Wire encoding of a resource description: two length-prefixed byte
/// sequences followed by a fixed-width `u32`.
pub open spec fn spec_enc_resources(r: ((Seq<u8>, Seq<u8>), u32)) -> Seq<u8> {
    spec_bytes(r.0.0) + spec_bytes(r.0.1) + spec_u32(r.1)
}

/// Decoding a resource description at offset `i`.
pub open spec fn spec_dec_resources(s: Seq<u8>, i: nat) -> Option<(((Seq<u8>, Seq<u8>), u32), nat)> {
    match spec_dec_bytes(s, i) {
        Some((a, j)) => match spec_dec_bytes(s, j) {
            Some((b, k)) => match spec_dec_u32(s, k) {
                Some((c, l)) => Some((((a, b), c), l)),
                None => None,
            },
            None => None,
        },
        None => None,
    }
}

/// Round trip for resource descriptions.
pub proof fn lemma_resources_round_trip(r: ((Seq<u8>, Seq<u8>), u32), s: Seq<u8>, i: nat)
    requires
        r.0.0.len() <= u32::MAX,
        r.0.1.len() <= u32::MAX,
        i + spec_enc_resources(r).len() <= s.len(),
        s.subrange(i as int, i as int + spec_enc_resources(r).len() as int)
            == spec_enc_resources(r),
    ensures
        spec_dec_resources(s, i) == Some((r, (i + spec_enc_resources(r).len()) as nat)),
{
    let a = spec_bytes(r.0.0);
    let b = spec_bytes(r.0.1);
    let c = spec_u32(r.1);
    crate::codec::lemma_le_bytes_len(r.1 as nat, 4);
    assert(spec_enc_resources(r) =~= a + (b + c));
    lemma_concat_at(s, i, a, b + c);
    lemma_bytes_round_trip(r.0.0, s, i);
    lemma_concat_at(s, i + a.len(), b, c);
    lemma_bytes_round_trip(r.0.1, s, i + a.len());
    lemma_u32_round_trip(r.1, s, i + a.len() + b.len());
}

/// Wire encoding of an optional resource description.
pub open spec fn spec_enc_opt_resources(o: Option<((Seq<u8>, Seq<u8>), u32)>) -> Seq<u8> {
    match o {
        None => seq![0u8],
        Some(r) => seq![1u8] + spec_enc_resources(r),
    }
}

/// Decoding an optional resource description at offset `i`.
pub open spec fn spec_dec_opt_resources(s: Seq<u8>, i: nat) -> Option<
    (Option<((Seq<u8>, Seq<u8>), u32)>, nat),
> {
    if i + 1 <= s.len() {
        if s[i as int] == 0 {
            Some((None, (i + 1) as nat))
        } else if s[i as int] == 1 {
            match spec_dec_resources(s, i + 1) {
                Some((r, j)) => Some((Some(r), j)),
                None => None,
            }
        } else {
            None
        }
    } else {
        None
    }
}

/// Round trip for optional resource descriptions.
pub proof fn lemma_opt_resources_round_trip(o: Option<((Seq<u8>, Seq<u8>), u32)>, s: Seq<u8>, i: nat)
    requires
        (match o {
            Some(r) => r.0.0.len() <= u32::MAX && r.0.1.len() <= u32::MAX,
            None => true,
        }),
        i + spec_enc_opt_resources(o).len() <= s.len(),
        s.subrange(i as int, i as int + spec_enc_opt_resources(o).len() as int)
            == spec_enc_opt_resources(o),
    ensures
        spec_dec_opt_resources(s, i) == Some((o, (i + spec_enc_opt_resources(o).len()) as nat)),
{
    match o {
        None => {
            assert(s[i as int] == s.subrange(i as int, i as int + 1)[0]);
        },
        Some(r) => {
            lemma_concat_at(s, i, seq![1u8], spec_enc_resources(r));
            assert(s[i as int] == s.subrange(i as int, i as int + 1)[0]);
            lemma_resources_round_trip(r, s, i + 1);
        },
    }
}

/// Appends the wire encoding of `o` to `out`.
pub fn encode_opt_resources(o: &Option<((Vec<u8>, Vec<u8>), u32)>, out: &mut Vec<u8>)
    requires
        (match *o {
            Some(r) => r.0.0@.len() <= u32::MAX && r.0.1@.len() <= u32::MAX,
            None => true,
        }),
    ensures
        final(out)@ == old(out)@ + spec_enc_opt_resources(spec_view_resources(*o)),
{
    match o {
        None => out.push(0),
        Some(r) => {
            out.push(1);
            encode_bytes(&r.0.0, out);
            encode_bytes(&r.0.1, out);
            encode_u32(r.1, out);
        },
    }
    assert(out@ =~= old(out)@ + spec_enc_opt_resources(spec_view_resources(*o)));
}

/// Decodes an optional resource description from `bytes` at offset `i`.
pub fn decode_opt_resources(bytes: &Vec<u8>, i: usize) -> (r: Option<
    (Option<((Vec<u8>, Vec<u8>), u32)>, usize),
>)
    ensures
        match r {
            Some(p) => spec_dec_opt_resources(bytes@, i as nat) == Some(
                (spec_view_resources(p.0), p.1 as nat),
            ) && (match p.0 {
                Some(q) => q.0.0@.len() <= u32::MAX && q.0.1@.len() <= u32::MAX,
                None => true,
            }),
            None => spec_dec_opt_resources(bytes@, i as nat) is None,
        },
{
    if i < bytes.len() {
        let tag = bytes[i];
        if tag == 0 {
            Some((None, i + 1))
        } else if tag == 1 {
            match decode_bytes(bytes, i + 1) {
                Some((a, j)) => match decode_bytes(bytes, j) {
                    Some((b, k)) => match decode_u32(bytes, k) {
                        Some((c, l)) => Some((Some(((a, b), c)), l)),
                        None => None,
                    },
                    None => None,
                },
                None => None,
            }
        } else {
            None
        }
    } else {
        None
    }
}

/// Spec-level model of a mint request: byte sequences in place of buffers.
pub ghost struct NftMintModel {
    /// Account that receives the minted NFT.
    pub beneficiary: Seq<u8>,
    /// Collection the NFT is minted into.
    pub collection_id: u32,
    /// Account that receives royalties, if any.
    pub royalty_recipient: Option<Seq<u8>>,
    /// Royalty rate, if any.
    pub royalty: Option<u8>,
    /// Opaque metadata blob.
    pub metadata: Seq<u8>,
    /// Whether the minted NFT may be transferred.
    pub transferable: bool,
    /// Optional resource description: two blobs and a numeric tag.
    pub resources: Option<((Seq<u8>, Seq<u8>), u32)>,
}

/// Arguments of the "mint NFT" host operation. All fields are
/// caller-supplied and validated host-side; this side only guarantees a
/// faithful encode/decode round trip.
#[derive(Clone, Debug, PartialEq, Eq)]
pub struct NftMintRequest {
    /// Account that receives the minted NFT.
    pub beneficiary: AccountId,
    /// Collection the NFT is minted into.
    pub collection_id: u32,
    /// Account that receives royalties, if any.
    pub royalty_recipient: Option<AccountId>,
    /// Royalty rate, if any.
    pub royalty: Option<u8>,
    /// Opaque metadata blob.
    pub metadata: Vec<u8>,
    /// Whether the minted NFT may be transferred.
    pub transferable: bool,
    /// Optional resource description: two blobs and a numeric tag.
    pub resources: Option<((Vec<u8>, Vec<u8>), u32)>,
}

impl View for NftMintRequest {
    type V = NftMintModel;

    open spec fn view(&self) -> NftMintModel {
        NftMintModel {
            beneficiary: self.beneficiary@,
            collection_id: self.collection_id,
            royalty_recipient: spec_view_opt_account(self.royalty_recipient),
            royalty: self.royalty,
            metadata: self.metadata@,
            transferable: self.transferable,
            resources: spec_view_resources(self.resources),
        }
    }
}

/// Well-formedness of a mint request model: the account identifiers hold 32
/// bytes and the blobs fit the 32-bit length class of the wire format.
pub open spec fn mint_model_wf(m: NftMintModel) -> bool {
    &&& m.beneficiary.len() == 32
    &&& (match m.royalty_recipient {
        Some(a) => a.len() == 32,
        None => true,
    })
    &&& m.metadata.len() <= u32::MAX
    &&& (match m.resources {
        Some(r) => r.0.0.len() <= u32::MAX && r.0.1.len() <= u32::MAX,
        None => true,
    })
}

impl NftMintRequest {
    /// Well-formedness: the account identifiers hold 32 bytes and the blobs
    /// fit the 32-bit length class of the wire format.
    pub open spec fn wf(&self) -> bool {
        mint_model_wf(self@)
    }
}

/// Wire encoding of a mint request: each field in declaration order.
pub open spec fn spec_enc_mint(m: NftMintModel) -> Seq<u8> {
    m.beneficiary + spec_u32(m.collection_id) + spec_enc_opt_account(m.royalty_recipient)
        + spec_enc_opt_u8(m.royalty) + spec_bytes(m.metadata) + spec_bool(m.transferable)
        + spec_enc_opt_resources(m.resources)
}

/// Decoding a mint request at offset `i`.
pub open spec fn spec_dec_mint(s: Seq<u8>, i: nat) -> Option<(NftMintModel, nat)> {
    if i + 32 <= s.len() {
        let beneficiary = s.subrange(i as int, i as int + 32);
        match spec_dec_u32(s, i + 32) {
            Some((collection_id, j1)) => match spec_dec_opt_account(s, j1) {
                Some((royalty_recipient, j2)) => match spec_dec_opt_u8(s, j2) {
                    Some((royalty, j3)) => match spec_dec_bytes(s, j3) {
                        Some((metadata, j4)) => match spec_dec_bool(s, j4) {
                            Some((transferable, j5)) => match spec_dec_opt_resources(s, j5) {
                                Some((resources, j6)) => Some(
                                    (
                                        (NftMintModel {
                                            beneficiary,
                                            collection_id,
                                            royalty_recipient,
                                            royalty,
                                            metadata,
                                            transferable,
                                            resources,
                                        }),
                                        j6,
                                    ),
                                ),
                                None => None,
                            },
                            None => None,
                        },
                        None => None,
                    },
                    None => None,
                },
                None => None,
            },
            None => None,
        }
    } else {
        None
    }
}

/// Round trip for mint requests.
pub proof fn lemma_mint_round_trip(m: NftMintModel, s: Seq<u8>, i: nat)
    requires
        mint_model_wf(m),
        i + spec_enc_mint(m).len() <= s.len(),
        s.subrange(i as int, i as int + spec_enc_mint(m).len() as int) == spec_enc_mint(m),
    ensures
        spec_dec_mint(s, i) == Some((m, (i + spec_enc_mint(m).len()) as nat)),
{
    let a = m.beneficiary;
    let b = spec_u32(m.collection_id);
    let c = spec_enc_opt_account(m.royalty_recipient);
    let d = spec_enc_opt_u8(m.royalty);
    let e = spec_bytes(m.metadata);
    let f = spec_bool(m.transferable);
    let g = spec_enc_opt_resources(m.resources);
    crate::codec::lemma_le_bytes_len(m.collection_id as nat, 4);
    assert(spec_enc_mint(m) =~= a + (b + (c + (d + (e + (f + g))))));
    lemma_concat_at(s, i, a, b + (c + (d + (e + (f + g)))));
    lemma_concat_at(s, i + 32, b, c + (d + (e + (f + g))));
    lemma_u32_round_trip(m.collection_id, s, i + 32);
    lemma_concat_at(s, i + 36, c, d + (e + (f + g)));
    lemma_opt_account_round_trip(m.royalty_recipient, s, i + 36);
    let cl = c.len();
    lemma_concat_at(s, i + 36 + cl, d, e + (f + g));
    lemma_opt_u8_round_trip(m.royalty, s, i + 36 + cl);
    let dl = d.len();
    lemma_concat_at(s, i + 36 + cl + dl, e, f + g);
    lemma_bytes_round_trip(m.metadata, s, i + 36 + cl + dl);
    let el = e.len();
    lemma_concat_at(s, i + 36 + cl + dl + el, f, g);
    lemma_bool_round_trip(m.transferable, s, i + 36 + cl + dl + el);
    lemma_opt_resources_round_trip(m.resources, s, i + 36 + cl + dl + el + 1);
}

/// Appends the wire encoding of `req` to `out`.
pub fn encode_mint(req: &NftMintRequest, out: &mut Vec<u8>)
    requires
        req.wf(),
    ensures
        final(out)@ == old(out)@ + spec_enc_mint(req@),
{
    crate::codec::encode_raw(req.beneficiary.as_bytes(), out);
    encode_u32(req.collection_id, out);
    encode_opt_account(&req.royalty_recipient, out);
    encode_opt_u8(&req.royalty, out);
    encode_bytes(&req.metadata, out);
    encode_bool(req.transferable, out);
    encode_opt_resources(&req.resources, out);
    assert(out@ =~= old(out)@ + spec_enc_mint(req@));
}

/// Decodes a mint request from `bytes` at offset `i`.
pub fn decode_mint(bytes: &Vec<u8>, i: usize) -> (r: Option<(NftMintRequest, usize)>)
    ensures
        match r {
            Some(p) => spec_dec_mint(bytes@, i as nat) == Some((p.0@, p.1 as nat)) && p.0.wf(),
            None => spec_dec_mint(bytes@, i as nat) is None,
        },
{
    match crate::codec::decode_raw(bytes, i, 32) {
        Some((ben, j0)) => {
            let beneficiary = AccountId::from_bytes(ben);
            match decode_u32(bytes, j0) {
                Some((collection_id, j1)) => match decode_opt_account(bytes, j1) {
                    Some((royalty_recipient, j2)) => match decode_opt_u8(bytes, j2) {
                        Some((royalty, j3)) => match decode_bytes(bytes, j3) {
                            Some((metadata, j4)) => match decode_bool(bytes, j4) {
                                Some((transferable, j5)) => match decode_opt_resources(bytes, j5) {
                                    Some((resources, j6)) => Some(
                                        (
                                            NftMintRequest {
                                                beneficiary,
                                                collection_id,
                                                royalty_recipient,
                                                royalty,
                                                metadata,
                                                transferable,
                                                resources,
                                            },
                                            j6,
                                        ),
                                    ),
                                    None => None,
                                },
                                None => None,
                            },
                            None => None,
                        },
                        None => None,
                    },
                    None => None,
                },
                None => None,
            }
        },
        None => None,
    }
}

/// Spec-level model of a collection descriptor: byte sequences in place of
/// buffers.
pub ghost struct CollectionModel {
    /// Opaque metadata blob.
    pub metadata: Seq<u8>,
    /// Optional cap on the number of NFTs in the collection.
    pub max: Option<u32>,
    /// Short symbol naming the collection.
    pub symbol: Seq<u8>,
}

/// Arguments of the "create collection" host operation.
#[derive(Clone, Debug, PartialEq, Eq)]
pub struct CollectionDescriptor {
    /// Opaque metadata blob.
    pub metadata: Vec<u8>,
    /// Optional cap on the number of NFTs in the collection.
    pub max: Option<u32>,
    /// Short symbol naming the collection.
    pub symbol: Vec<u8>,
}

impl View for CollectionDescriptor {
    type V = CollectionModel;

    open spec fn view(&self) -> CollectionModel {
        CollectionModel { metadata: self.metadata@, max: self.max, symbol: self.symbol@ }
    }
}

/// Well-formedness of a collection model: the blobs fit the 32-bit length
/// class of the wire format.
pub open spec fn collection_model_wf(m: CollectionModel) -> bool {
    m.metadata.len() <= u32::MAX && m.symbol.len() <= u32::MAX
}

impl CollectionDescriptor {
    /// Well-formedness: the blobs fit the 32-bit length class of the wire
    /// format.
    pub open spec fn wf(&self) -> bool {
        collection_model_wf(self@)
    }
}

/// Wire encoding of a collection descriptor: each field in declaration
/// order.
pub open spec fn spec_enc_collection(m: CollectionModel) -> Seq<u8> {
    spec_bytes(m.metadata) + spec_enc_opt_u32(m.max) + spec_bytes(m.symbol)
}

/// Decoding a collection descriptor at offset `i`.
pub open spec fn spec_dec_collection(s: Seq<u8>, i: nat) -> Option<(CollectionModel, nat)> {
    match spec_dec_bytes(s, i) {
        Some((metadata, j1)) => match spec_dec_opt_u32(s, j1) {
            Some((max, j2)) => match spec_dec_bytes(s, j2) {
                Some((symbol, j3)) => Some(((CollectionModel { metadata, max, symbol }), j3)),
                None => None,
            },
            None => None,
        },
        None => None,
    }
}

/// Round trip for collection descriptors.
pub proof fn lemma_collection_round_trip(m: CollectionModel, s: Seq<u8>, i: nat)
    requires
        collection_model_wf(m),
        i + spec_enc_collection(m).len() <= s.len(),
        s.subrange(i as int, i as int + spec_enc_collection(m).len() as int)
            == spec_enc_collection(m),
    ensures
        spec_dec_collection(s, i) == Some((m, (i + spec_enc_collection(m).len()) as nat)),
{
    let a = spec_bytes(m.metadata);
    let b = spec_enc_opt_u32(m.max);
    let c = spec_bytes(m.symbol);
    assert(spec_enc_collection(m) =~= a + (b + c));
    lemma_concat_at(s, i, a, b + c);
    lemma_bytes_round_trip(m.metadata, s, i);
    lemma_concat_at(s, i + a.len(), b, c);
    lemma_opt_u32_round_trip(m.max, s, i + a.len());
    lemma_bytes_round_trip(m.symbol, s, i + a.len() + b.len());
}

/// Appends the wire encoding of `desc` to `out`.
pub fn encode_collection(desc: &CollectionDescriptor, out: &mut Vec<u8>)
    requires
        desc.wf(),
    ensures
        final(out)@ == old(out)@ + spec_enc_collection(desc@),
{
    encode_bytes(&desc.metadata, out);
    encode_opt_u32(&desc.max, out);
    encode_bytes(&desc.symbol, out);
    assert(out@ =~= old(out)@ + spec_enc_collection(desc@));
}

/// Decodes a collection descriptor from `bytes` at offset `i`.
pub fn decode_collection(bytes: &Vec<u8>, i: usize) -> (r: Option<(CollectionDescriptor, usize)>)
    ensures
        match r {
            Some(p) => spec_dec_collection(bytes@, i as nat) == Some((p.0@, p.1 as nat))
                && p.0.wf(),
            None => spec_dec_collection(bytes@, i as nat) is None,
        },
{
    match decode_bytes(bytes, i) {
        Some((metadata, j1)) => match decode_opt_u32(bytes, j1) {
            Some((max, j2)) => match decode_bytes(bytes, j2) {
                Some((symbol, j3)) => Some((CollectionDescriptor { metadata, max, symbol }, j3)),
                None => None,
            },
            None => None,
        },
        None => None,
    }
}

/// Outcome of a "next NFT id" or "collection index" call, as a function of
/// the status code and output buffer the host returned. The output holds an
/// encoded result: either an id or a registry error. An unknown status code
/// or a malformed buffer is a protocol violation.
pub open spec fn spec_id_outcome(status: u32, out: Seq<u8>) -> Result<
    Result<u32, RmrkError>,
    ProtocolViolation,
> {
    if status == 0 {
        match spec_dec_id_result(out, 0) {
            Some((r, j)) => Ok(r),
            None => Err(ProtocolViolation::MalformedOutput),
        }
    } else if status == 1 {
        Ok(Err(RmrkError::ErrorCode(RmrkErrorCode::Failed)))
    } else {
        Err(ProtocolViolation::UnknownStatus)
    }
}

/// Outcome of a "mint NFT" or "create collection" call, as a function of
/// the status code and output buffer the host returned. The output holds an
/// encoded result: either unit or a registry error.
pub open spec fn spec_unit_outcome(status: u32, out: Seq<u8>) -> Result<
    Result<(), RmrkError>,
    ProtocolViolation,
> {
    if status == 0 {
        match spec_dec_unit_result(out, 0) {
            Some((r, j)) => Ok(r),
            None => Err(ProtocolViolation::MalformedOutput),
        }
    } else if status == 1 {
        Ok(Err(RmrkError::ErrorCode(RmrkErrorCode::Failed)))
    } else {
        Err(ProtocolViolation::UnknownStatus)
    }
}

/// Builds the request of the "next NFT id" operation: function identity and
/// the fixed-width encoded collection id.
pub fn next_nft_id_request(collection_id: u32) -> (r: Request)
    ensures
        r.func_id == NEXT_NFT_ID_ID,
        r.input@ == spec_u32(collection_id),
{
    let mut input: Vec<u8> = Vec::new();
    encode_u32(collection_id, &mut input);
    Request { func_id: NEXT_NFT_ID_ID, input }
}

/// Builds the request of the "collection index" operation: function
/// identity and no arguments.
pub fn collection_index_request() -> (r: Request)
    ensures
        r.func_id == COLLECTION_INDEX_ID,
        r.input@ == Seq::<u8>::empty(),
{
    Request { func_id: COLLECTION_INDEX_ID, input: Vec::new() }
}

/// Builds the request of the "mint NFT" operation: function identity and
/// the encoded mint request.
pub fn mint_ntf_request(req: &NftMintRequest) -> (r: Request)
    requires
        req.wf(),
    ensures
        r.func_id == MINT_NFT_ID,
        r.input@ == spec_enc_mint(req@),
{
    let mut input: Vec<u8> = Vec::new();
    encode_mint(req, &mut input);
    Request { func_id: MINT_NFT_ID, input }
}

/// Builds the request of the "create collection" operation: function
/// identity and the encoded collection descriptor.
pub fn create_collection_request(desc: &CollectionDescriptor) -> (r: Request)
    requires
        desc.wf(),
    ensures
        r.func_id == CREATE_COLLECTION_ID,
        r.input@ == spec_enc_collection(desc@),
{
    let mut input: Vec<u8> = Vec::new();
    encode_collection(desc, &mut input);
    Request { func_id: CREATE_COLLECTION_ID, input }
}

/// Contract adapter of the registry family. It holds no cached state; its
/// methods complete calls by mapping the host's responses into typed
/// outcomes.
pub struct Rmrk {}

impl Rmrk {
    /// Creates the adapter.
    pub fn new() -> Self {
        Rmrk {  }
    }

    /// Completes a "next NFT id" call from the host's response.
    pub fn next_nft_id(&self, status: u32, output: &Vec<u8>) -> (r: Result<
        Result<u32, RmrkError>,
        ProtocolViolation,
    >)
        ensures
            r == spec_id_outcome(status, output@),
    {
        if status == 0 {
            match decode_id_result(output, 0) {
                Some((res, _next)) => Ok(res),
                None => Err(ProtocolViolation::MalformedOutput),
            }
        } else if status == 1 {
            Ok(Err(RmrkError::ErrorCode(RmrkErrorCode::Failed)))
        } else {
            Err(ProtocolViolation::UnknownStatus)
        }
    }

    /// Completes a "collection index" call from the host's response.
    pub fn collection_index(&self, status: u32, output: &Vec<u8>) -> (r: Result<
        Result<u32, RmrkError>,
        ProtocolViolation,
    >)
        ensures
            r == spec_id_outcome(status, output@),
    {
        if status == 0 {
            match decode_id_result(output, 0) {
                Some((res, _next)) => Ok(res),
                None => Err(ProtocolViolation::MalformedOutput),
            }
        } else if status == 1 {
            Ok(Err(RmrkError::ErrorCode(RmrkErrorCode::Failed)))
        } else {
            Err(ProtocolViolation::UnknownStatus)
        }
    }

    /// Completes a "mint NFT" call from the host's response.
    pub fn mint_ntf(&mut self, status: u32, output: &Vec<u8>) -> (r: Result<
        Result<(), RmrkError>,
        ProtocolViolation,
    >)
        ensures
            r == spec_unit_outcome(status, output@),
    {
        if status == 0 {
            match decode_unit_result(output, 0) {
                Some((res, _next)) => Ok(res),
                None => Err(ProtocolViolation::MalformedOutput),
            }
        } else if status == 1 {
            Ok(Err(RmrkError::ErrorCode(RmrkErrorCode::Failed)))
        } else {
            Err(ProtocolViolation::UnknownStatus)
        }
    }

    /// Completes a "create collection" call from the host's response.
    pub fn create_collection(&mut self, status: u32, output: &Vec<u8>) -> (r: Result<
        Result<(), RmrkError>,
        ProtocolViolation,
    >)
        ensures
            r == spec_unit_outcome(status, output@),
    {
        if status == 0 {
            match decode_unit_result(output, 0) {
                Some((res, _next)) => Ok(res),
                None => Err(ProtocolViolation::MalformedOutput),
            }
        } else if status == 1 {
            Ok(Err(RmrkError::ErrorCode(RmrkErrorCode::Failed)))
        } else {
            Err(ProtocolViolation::UnknownStatus)
        }
    }
}

/// Fatal-on-unknown for the registry family: a status code outside the
/// known set yields a protocol violation, never a typed registry error,
/// whatever the output buffer holds.
pub proof fn lemma_rmrk_unknown_status_fatal(status: u32, out: Seq<u8>)
    requires
        status > 1,
    ensures
        spec_id_outcome(status, out) == Err::<Result<u32, RmrkError>, ProtocolViolation>(
            ProtocolViolation::UnknownStatus,
        ),
        spec_unit_outcome(status, out) == Err::<Result<(), RmrkError>, ProtocolViolation>(
            ProtocolViolation::UnknownStatus,
        ),
{
}

} // verus!
