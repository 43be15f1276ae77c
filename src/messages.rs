//! The fixed set of ledger record shapes and their decoders.
//!
//! Each decoder reads the fields of its record (see `records`) and yields the
//! record, or `DecodeError::Malformed` naming the shape that could not be read.
use crate::records::{
    bytes_field, bytes_seqs, get_bytes, get_repeated, get_varint, repeated_field, varint_field,
};
use crate::trusted::{utf8_string, utf8_text};
use crate::wire::{
    fields_view, Field, field_wf, fields_encode, fields_round_trip, fields_spec, parse_fields, u64_bound, FieldV, WireV,
};
use vstd::prelude::*;

verus! {

/// The record shape at which decoding stopped.
#[derive(Clone, Copy, Debug, PartialEq, Eq, Structural)]
pub enum Step {
    Block,
    Envelope,
    Payload,
    ChannelHeader,
    SignatureHeader,
    Identity,
    Timestamp,
    Transaction,
    ActionPayload,
    ProposalPayload,
    ChaincodeInput,
}

#[derive(Clone, Copy, Debug, PartialEq, Eq, Structural)]
pub enum DecodeError {
    Malformed(Step),
}

/// The header type that marks an endorser transaction.
pub const ENDORSER_TRANSACTION: u64 = 3;

/// Slot of the block metadata that holds one validation code per transaction.
pub const TRANSACTIONS_FILTER: usize = 2;

/// The validation code of a valid transaction.
pub const VALID_CODE: u8 = 0;

/// A signed 64-bit integer from the two's complement bits of `v`.
pub open spec fn as_i64(v: u64) -> i64 {
    if v < 0x8000_0000_0000_0000 {
        v as i64
    } else {
        (v - 0x1_0000_0000_0000_0000) as i64
    }
}

fn to_i64(v: u64) -> (r: i64)
    ensures
        r == as_i64(v),
{
    if v < 0x8000_0000_0000_0000 {
        v as i64
    } else {
        let below: u64 = u64::MAX - v;
        -(below as i64) - 1
    }
}

// ---- Envelope ----

pub struct EnvelopeV {
    pub payload: Seq<u8>,
    pub signature: Seq<u8>,
}

pub struct Envelope {
    pub payload: Vec<u8>,
    pub signature: Vec<u8>,
}

impl View for Envelope {
    type V = EnvelopeV;

    open spec fn view(&self) -> EnvelopeV {
        EnvelopeV { payload: self.payload@, signature: self.signature@ }
    }
}

pub open spec fn envelope_spec(s: Seq<u8>) -> Option<EnvelopeV> {
    match fields_spec(s) {
        Some(fs) => match (bytes_field(fs, 1), bytes_field(fs, 2)) {
            (Some(payload), Some(signature)) => Some(EnvelopeV { payload, signature }),
            _ => None,
        },
        None => None,
    }
}

/// Decodes an envelope: field 1 the payload, field 2 the signature.
pub fn decode_envelope(b: &[u8]) -> (r: Result<Envelope, DecodeError>)
    ensures
        match r {
            Ok(e) => envelope_spec(b@) == Some(e@),
            Err(err) => envelope_spec(b@) is None && err == DecodeError::Malformed(Step::Envelope),
        },
{
    let err = DecodeError::Malformed(Step::Envelope);
    let fs = match parse_fields(b) {
        Some(fs) => fs,
        None => return Err(err),
    };
    let payload = match get_bytes(&fs, 1) {
        Some(v) => v,
        None => return Err(err),
    };
    let signature = match get_bytes(&fs, 2) {
        Some(v) => v,
        None => return Err(err),
    };
    Ok(Envelope { payload, signature })
}

// ---- Header and Payload ----

pub struct HeaderV {
    pub channel_header: Seq<u8>,
    pub signature_header: Seq<u8>,
}

pub struct Header {
    pub channel_header: Vec<u8>,
    pub signature_header: Vec<u8>,
}

impl View for Header {
    type V = HeaderV;

    open spec fn view(&self) -> HeaderV {
        HeaderV { channel_header: self.channel_header@, signature_header: self.signature_header@ }
    }
}

pub open spec fn header_spec(s: Seq<u8>) -> Option<HeaderV> {
    match fields_spec(s) {
        Some(fs) => match (bytes_field(fs, 1), bytes_field(fs, 2)) {
            (Some(channel_header), Some(signature_header)) => Some(
                HeaderV { channel_header, signature_header },
            ),
            _ => None,
        },
        None => None,
    }
}

/// Decodes a header: field 1 the channel header, field 2 the signature header,
/// both as bytes.
pub fn decode_header(b: &[u8]) -> (r: Option<Header>)
    ensures
        match r {
            Some(h) => header_spec(b@) == Some(h@),
            None => header_spec(b@) is None,
        },
{
    let fs = parse_fields(b)?;
    let channel_header = get_bytes(&fs, 1)?;
    let signature_header = get_bytes(&fs, 2)?;
    Some(Header { channel_header, signature_header })
}

pub struct PayloadV {
    pub header: HeaderV,
    pub data: Seq<u8>,
}

pub struct Payload {
    pub header: Header,
    pub data: Vec<u8>,
}

impl View for Payload {
    type V = PayloadV;

    open spec fn view(&self) -> PayloadV {
        PayloadV { header: self.header@, data: self.data@ }
    }
}

pub open spec fn payload_spec(s: Seq<u8>) -> Option<PayloadV> {
    match fields_spec(s) {
        Some(fs) => match (bytes_field(fs, 1), bytes_field(fs, 2)) {
            (Some(hb), Some(data)) => match header_spec(hb) {
                Some(header) => Some(PayloadV { header, data }),
                None => None,
            },
            _ => None,
        },
        None => None,
    }
}

/// Decodes a payload: field 1 its header record, field 2 its data.
pub fn decode_payload(b: &[u8]) -> (r: Result<Payload, DecodeError>)
    ensures
        match r {
            Ok(p) => payload_spec(b@) == Some(p@),
            Err(err) => payload_spec(b@) is None && err == DecodeError::Malformed(Step::Payload),
        },
{
    let err = DecodeError::Malformed(Step::Payload);
    let fs = match parse_fields(b) {
        Some(fs) => fs,
        None => return Err(err),
    };
    let hb = match get_bytes(&fs, 1) {
        Some(v) => v,
        None => return Err(err),
    };
    let data = match get_bytes(&fs, 2) {
        Some(v) => v,
        None => return Err(err),
    };
    match decode_header(hb.as_slice()) {
        Some(header) => Ok(Payload { header, data }),
        None => Err(err),
    }
}

// ---- Timestamp and ChannelHeader ----

/// A moment as seconds and nanoseconds after the Unix epoch.
#[derive(Clone, Copy, Debug, PartialEq, Eq, Structural)]
pub struct Timestamp {
    pub seconds: i64,
    pub nanos: u32,
}

pub open spec fn timestamp_spec(s: Seq<u8>) -> Option<Timestamp> {
    match fields_spec(s) {
        Some(fs) => match (varint_field(fs, 1), varint_field(fs, 2)) {
            (Some(sec), Some(ns)) => Some(
                Timestamp { seconds: as_i64(sec), nanos: (ns % 0x1_0000_0000) as u32 },
            ),
            _ => None,
        },
        None => None,
    }
}

/// Decodes a timestamp: field 1 the seconds as a signed 64-bit integer, field 2
/// the nanoseconds, of which the low 32 bits count.
pub fn decode_timestamp(b: &[u8]) -> (r: Option<Timestamp>)
    ensures
        r == timestamp_spec(b@),
{
    let fs = parse_fields(b)?;
    let sec = get_varint(&fs, 1)?;
    let ns = get_varint(&fs, 2)?;
    Some(Timestamp { seconds: to_i64(sec), nanos: (ns % 0x1_0000_0000) as u32 })
}

pub struct ChannelHeaderV {
    pub header_type: u64,
    pub timestamp: Timestamp,
    pub channel_id: Seq<char>,
    pub tx_id: Seq<char>,
}

pub struct ChannelHeader {
    pub header_type: u64,
    pub timestamp: Timestamp,
    pub channel_id: String,
    pub tx_id: String,
}

impl View for ChannelHeader {
    type V = ChannelHeaderV;

    open spec fn view(&self) -> ChannelHeaderV {
        ChannelHeaderV {
            header_type: self.header_type,
            timestamp: self.timestamp,
            channel_id: self.channel_id@,
            tx_id: self.tx_id@,
        }
    }
}

/// The channel header fields that this library does not keep have the kind
/// their schema gives: version (2) and epoch (6) varints, extension (7) and TLS
/// certificate hash (8) byte strings.
pub open spec fn channel_header_rest_ok(fs: Seq<FieldV>) -> bool {
    &&& varint_field(fs, 2) is Some
    &&& varint_field(fs, 6) is Some
    &&& bytes_field(fs, 7) is Some
    &&& bytes_field(fs, 8) is Some
}

pub open spec fn channel_header_spec(s: Seq<u8>) -> Option<ChannelHeaderV> {
    match fields_spec(s) {
        Some(fs) => if !channel_header_rest_ok(fs) {
            None
        } else {
            match (
            varint_field(fs, 1),
            bytes_field(fs, 3),
            bytes_field(fs, 4),
            bytes_field(fs, 5),
        ) {
            (Some(header_type), Some(tb), Some(cb), Some(xb)) => match (
                timestamp_spec(tb),
                utf8_text(cb),
                utf8_text(xb),
            ) {
                (Some(timestamp), Some(channel_id), Some(tx_id)) => Some(
                    ChannelHeaderV { header_type, timestamp, channel_id, tx_id },
                ),
                _ => None,
            },
            _ => None,
        }
        },
        None => None,
    }
}

/// Decodes a channel header: field 1 the header type, field 3 the timestamp
/// record, field 4 the channel id and field 5 the transaction id, both UTF-8.
pub fn decode_channel_header(b: &[u8]) -> (r: Result<ChannelHeader, DecodeError>)
    ensures
        match r {
            Ok(h) => channel_header_spec(b@) == Some(h@),
            Err(err) => channel_header_spec(b@) is None && err == DecodeError::Malformed(
                Step::ChannelHeader,
            ),
        },
{
    match channel_header_parts(b) {
        Some(h) => Ok(h),
        None => Err(DecodeError::Malformed(Step::ChannelHeader)),
    }
}

fn channel_header_parts(b: &[u8]) -> (r: Option<ChannelHeader>)
    ensures
        match r {
            Some(h) => channel_header_spec(b@) == Some(h@),
            None => channel_header_spec(b@) is None,
        },
{
    let fs = parse_fields(b)?;
    if get_varint(&fs, 2).is_none() || get_varint(&fs, 6).is_none() || get_bytes(&fs, 7).is_none()
        || get_bytes(&fs, 8).is_none() {
        return None;
    }
    let header_type = get_varint(&fs, 1)?;
    let tb = get_bytes(&fs, 3)?;
    let cb = get_bytes(&fs, 4)?;
    let xb = get_bytes(&fs, 5)?;
    let timestamp = decode_timestamp(tb.as_slice())?;
    let channel_id = utf8_string(cb)?;
    let tx_id = utf8_string(xb)?;
    Some(ChannelHeader { header_type, timestamp, channel_id, tx_id })
}

// ---- SignatureHeader and SerializedIdentity ----

pub struct SignatureHeaderV {
    pub creator: Seq<u8>,
    pub nonce: Seq<u8>,
}

pub struct SignatureHeader {
    pub creator: Vec<u8>,
    pub nonce: Vec<u8>,
}

impl View for SignatureHeader {
    type V = SignatureHeaderV;

    open spec fn view(&self) -> SignatureHeaderV {
        SignatureHeaderV { creator: self.creator@, nonce: self.nonce@ }
    }
}

pub open spec fn signature_header_spec(s: Seq<u8>) -> Option<SignatureHeaderV> {
    match fields_spec(s) {
        Some(fs) => match (bytes_field(fs, 1), bytes_field(fs, 2)) {
            (Some(creator), Some(nonce)) => Some(SignatureHeaderV { creator, nonce }),
            _ => None,
        },
        None => None,
    }
}

/// Decodes a signature header: field 1 the serialized creator, field 2 the nonce.
pub fn decode_signature_header(b: &[u8]) -> (r: Result<SignatureHeader, DecodeError>)
    ensures
        match r {
            Ok(h) => signature_header_spec(b@) == Some(h@),
            Err(err) => signature_header_spec(b@) is None && err == DecodeError::Malformed(
                Step::SignatureHeader,
            ),
        },
{
    let err = DecodeError::Malformed(Step::SignatureHeader);
    let fs = match parse_fields(b) {
        Some(fs) => fs,
        None => return Err(err),
    };
    let creator = match get_bytes(&fs, 1) {
        Some(v) => v,
        None => return Err(err),
    };
    let nonce = match get_bytes(&fs, 2) {
        Some(v) => v,
        None => return Err(err),
    };
    Ok(SignatureHeader { creator, nonce })
}

pub struct SerializedIdentityV {
    pub msp_id: Seq<char>,
    pub id_bytes: Seq<u8>,
}

pub struct SerializedIdentity {
    pub msp_id: String,
    pub id_bytes: Vec<u8>,
}

impl View for SerializedIdentity {
    type V = SerializedIdentityV;

    open spec fn view(&self) -> SerializedIdentityV {
        SerializedIdentityV { msp_id: self.msp_id@, id_bytes: self.id_bytes@ }
    }
}

pub open spec fn identity_spec(s: Seq<u8>) -> Option<SerializedIdentityV> {
    match fields_spec(s) {
        Some(fs) => match (bytes_field(fs, 1), bytes_field(fs, 2)) {
            (Some(mb), Some(id_bytes)) => match utf8_text(mb) {
                Some(msp_id) => Some(SerializedIdentityV { msp_id, id_bytes }),
                None => None,
            },
            _ => None,
        },
        None => None,
    }
}

/// Decodes a serialized identity: field 1 the membership service provider id
/// (UTF-8), field 2 the identity's own bytes.
pub fn decode_identity(b: &[u8]) -> (r: Result<SerializedIdentity, DecodeError>)
    ensures
        match r {
            Ok(i) => identity_spec(b@) == Some(i@),
            Err(err) => identity_spec(b@) is None && err == DecodeError::Malformed(Step::Identity),
        },
{
    let err = DecodeError::Malformed(Step::Identity);
    let fs = match parse_fields(b) {
        Some(fs) => fs,
        None => return Err(err),
    };
    let mb = match get_bytes(&fs, 1) {
        Some(v) => v,
        None => return Err(err),
    };
    let id_bytes = match get_bytes(&fs, 2) {
        Some(v) => v,
        None => return Err(err),
    };
    match utf8_string(mb) {
        Some(msp_id) => Ok(SerializedIdentity { msp_id, id_bytes }),
        None => Err(err),
    }
}

// ---- Transaction ----

pub struct TransactionActionV {
    pub header: Seq<u8>,
    pub payload: Seq<u8>,
}

pub struct TransactionAction {
    pub header: Vec<u8>,
    pub payload: Vec<u8>,
}

impl View for TransactionAction {
    type V = TransactionActionV;

    open spec fn view(&self) -> TransactionActionV {
        TransactionActionV { header: self.header@, payload: self.payload@ }
    }
}

pub open spec fn action_spec(s: Seq<u8>) -> Option<TransactionActionV> {
    match fields_spec(s) {
        Some(fs) => match (bytes_field(fs, 1), bytes_field(fs, 2)) {
            (Some(header), Some(payload)) => Some(TransactionActionV { header, payload }),
            _ => None,
        },
        None => None,
    }
}

/// Each of `raws` read as a transaction action; `None` if any is malformed.
pub open spec fn actions_spec(raws: Seq<Seq<u8>>) -> Option<Seq<TransactionActionV>>
    decreases raws.len(),
{
    if raws.len() == 0 {
        Some(seq![])
    } else {
        match (actions_spec(raws.drop_last()), action_spec(raws.last())) {
            (Some(prev), Some(a)) => Some(prev.push(a)),
            _ => None,
        }
    }
}

pub struct TransactionV {
    pub actions: Seq<TransactionActionV>,
}

pub struct Transaction {
    pub actions: Vec<TransactionAction>,
}

pub open spec fn actions_view(v: Seq<TransactionAction>) -> Seq<TransactionActionV> {
    v.map_values(|a: TransactionAction| a@)
}

impl View for Transaction {
    type V = TransactionV;

    open spec fn view(&self) -> TransactionV {
        TransactionV { actions: actions_view(self.actions@) }
    }
}

pub open spec fn transaction_spec(s: Seq<u8>) -> Option<TransactionV> {
    match fields_spec(s) {
        Some(fs) => match repeated_field(fs, 1) {
            Some(raws) => match actions_spec(raws) {
                Some(actions) => Some(TransactionV { actions }),
                None => None,
            },
            None => None,
        },
        None => None,
    }
}

fn decode_action(b: &[u8]) -> (r: Option<TransactionAction>)
    ensures
        match r {
            Some(a) => action_spec(b@) == Some(a@),
            None => action_spec(b@) is None,
        },
{
    let fs = parse_fields(b)?;
    let header = get_bytes(&fs, 1)?;
    let payload = get_bytes(&fs, 2)?;
    Some(TransactionAction { header, payload })
}

proof fn lemma_actions_none_stays(raws: Seq<Seq<u8>>, k: nat)
    requires
        k <= raws.len(),
        actions_spec(raws.take(k as int)) is None,
    ensures
        actions_spec(raws) is None,
    decreases raws.len() - k,
{
    if k < raws.len() {
        assert(raws.take(k + 1 as int).drop_last() =~= raws.take(k as int));
        lemma_actions_none_stays(raws, k + 1);
    } else {
        assert(raws.take(k as int) =~= raws);
    }
}

/// Decodes a transaction: field 1, repeated, its actions, each a record of
/// a header (field 1) and a payload (field 2).
pub fn decode_transaction(b: &[u8]) -> (r: Result<Transaction, DecodeError>)
    ensures
        match r {
            Ok(t) => transaction_spec(b@) == Some(t@),
            Err(err) => transaction_spec(b@) is None && err == DecodeError::Malformed(
                Step::Transaction,
            ),
        },
{
    let err = DecodeError::Malformed(Step::Transaction);
    let fs = match parse_fields(b) {
        Some(fs) => fs,
        None => return Err(err),
    };
    let raws = match get_repeated(&fs, 1) {
        Some(v) => v,
        None => return Err(err),
    };
    let ghost rv = bytes_seqs(raws@);
    let mut actions: Vec<TransactionAction> = Vec::new();
    let mut i: usize = 0;
    assert(rv.take(0) =~= Seq::<Seq<u8>>::empty());
    assert(actions_view(actions@) =~= Seq::<TransactionActionV>::empty());
    while i < raws.len()
        invariant
            i <= raws@.len(),
            rv == bytes_seqs(raws@),
            actions_spec(rv.take(i as int)) == Some(actions_view(actions@)),
            transaction_spec(b@) == match actions_spec(rv) {
                Some(actions) => Some(TransactionV { actions }),
                None => None,
            },
        decreases raws@.len() - i,
    {
        assert(rv.take(i + 1).drop_last() =~= rv.take(i as int));
        assert(rv.take(i + 1).last() == raws@[i as int]@);
        match decode_action(raws[i].as_slice()) {
            Some(a) => {
                let ghost before = actions_view(actions@);
                actions.push(a);
                assert(actions_view(actions@) =~= before.push(a@));
            },
            None => {
                proof {
                    assert(actions_spec(rv.take(i + 1)) is None);
                    lemma_actions_none_stays(rv, i as nat + 1);
                }
                return Err(DecodeError::Malformed(Step::Transaction));
            },
        }
        i = i + 1;
    }
    assert(rv.take(raws@.len() as int) =~= rv);
    Ok(Transaction { actions })
}

// ---- Nested records checked for their shape ----

/// A record of two byte strings, fields 1 and 2 (an endorsement).
pub open spec fn pair_record_ok(s: Seq<u8>) -> bool {
    match fields_spec(s) {
        Some(fs) => bytes_field(fs, 1) is Some && bytes_field(fs, 2) is Some,
        None => false,
    }
}

/// A map entry: a UTF-8 key (field 1) and a byte-string value (field 2).
pub open spec fn map_entry_ok(s: Seq<u8>) -> bool {
    match fields_spec(s) {
        Some(fs) => match bytes_field(fs, 1) {
            Some(k) => utf8_text(k) is Some && bytes_field(fs, 2) is Some,
            None => false,
        },
        None => false,
    }
}

pub open spec fn all_pairs_ok(es: Seq<Seq<u8>>) -> bool {
    forall|i: int| 0 <= i < es.len() ==> pair_record_ok(#[trigger] es[i])
}

pub open spec fn all_entries_ok(es: Seq<Seq<u8>>) -> bool {
    forall|i: int| 0 <= i < es.len() ==> map_entry_ok(#[trigger] es[i])
}

/// Field `num` of a record is a map: repeated, each a well-formed entry.
pub open spec fn map_field_ok(fs: Seq<FieldV>, num: u64) -> bool {
    match repeated_field(fs, num) {
        Some(es) => all_entries_ok(es),
        None => false,
    }
}

/// An endorsed action: field 1 the proposal response payload, field 2,
/// repeated, its endorsements.
pub open spec fn endorsed_action_ok(s: Seq<u8>) -> bool {
    match fields_spec(s) {
        Some(fs) => bytes_field(fs, 1) is Some && match repeated_field(fs, 2) {
            Some(es) => all_pairs_ok(es),
            None => false,
        },
        None => false,
    }
}

fn check_pair_record(b: &[u8]) -> (r: bool)
    ensures
        r == pair_record_ok(b@),
{
    match parse_fields(b) {
        Some(fs) => get_bytes(&fs, 1).is_some() && get_bytes(&fs, 2).is_some(),
        None => false,
    }
}

fn check_map_entry(b: &[u8]) -> (r: bool)
    ensures
        r == map_entry_ok(b@),
{
    match parse_fields(b) {
        Some(fs) => match get_bytes(&fs, 1) {
            Some(k) => {
                let key_ok = utf8_string(k).is_some();
                key_ok && get_bytes(&fs, 2).is_some()
            },
            None => false,
        },
        None => false,
    }
}

fn check_pairs(es: &Vec<Vec<u8>>) -> (r: bool)
    ensures
        r == all_pairs_ok(bytes_seqs(es@)),
{
    let mut i: usize = 0;
    while i < es.len()
        invariant
            i <= es@.len(),
            forall|j: int| 0 <= j < i ==> pair_record_ok(#[trigger] bytes_seqs(es@)[j]),
        decreases es@.len() - i,
    {
        if !check_pair_record(es[i].as_slice()) {
            assert(!pair_record_ok(bytes_seqs(es@)[i as int]));
            return false;
        }
        i = i + 1;
    }
    true
}

fn check_entries(es: &Vec<Vec<u8>>) -> (r: bool)
    ensures
        r == all_entries_ok(bytes_seqs(es@)),
{
    let mut i: usize = 0;
    while i < es.len()
        invariant
            i <= es@.len(),
            forall|j: int| 0 <= j < i ==> map_entry_ok(#[trigger] bytes_seqs(es@)[j]),
        decreases es@.len() - i,
    {
        if !check_map_entry(es[i].as_slice()) {
            assert(!map_entry_ok(bytes_seqs(es@)[i as int]));
            return false;
        }
        i = i + 1;
    }
    true
}

fn check_map_field(fs: &Vec<Field>, num: u64) -> (r: bool)
    ensures
        r == map_field_ok(fields_view(fs@), num),
{
    match get_repeated(fs, num) {
        Some(es) => check_entries(&es),
        None => false,
    }
}

/// Whether `b` is a well-formed endorsed action.
pub fn check_endorsed_action(b: &[u8]) -> (r: bool)
    ensures
        r == endorsed_action_ok(b@),
{
    match parse_fields(b) {
        Some(fs) => {
            if get_bytes(&fs, 1).is_none() {
                return false;
            }
            match get_repeated(&fs, 2) {
                Some(es) => check_pairs(&es),
                None => false,
            }
        },
        None => false,
    }
}

// ---- Chaincode records ----

pub struct ActionPayloadV {
    pub chaincode_proposal_payload: Seq<u8>,
    pub action: Seq<u8>,
}

/// A chaincode action payload; the endorsed action is kept as its bytes.
pub struct ChaincodeActionPayload {
    pub chaincode_proposal_payload: Vec<u8>,
    pub action: Vec<u8>,
}

impl View for ChaincodeActionPayload {
    type V = ActionPayloadV;

    open spec fn view(&self) -> ActionPayloadV {
        ActionPayloadV {
            chaincode_proposal_payload: self.chaincode_proposal_payload@,
            action: self.action@,
        }
    }
}

pub open spec fn action_payload_spec(s: Seq<u8>) -> Option<ActionPayloadV> {
    match fields_spec(s) {
        Some(fs) => match (bytes_field(fs, 1), bytes_field(fs, 2)) {
            (Some(chaincode_proposal_payload), Some(action)) => if endorsed_action_ok(action) {
                Some(ActionPayloadV { chaincode_proposal_payload, action })
            } else {
                None
            },
            _ => None,
        },
        None => None,
    }
}

/// Decodes a chaincode action payload: field 1 the proposal payload, field 2
/// the endorsed action, which must itself be a well-formed record.
pub fn decode_action_payload(b: &[u8]) -> (r: Result<ChaincodeActionPayload, DecodeError>)
    ensures
        match r {
            Ok(p) => action_payload_spec(b@) == Some(p@),
            Err(err) => action_payload_spec(b@) is None && err == DecodeError::Malformed(
                Step::ActionPayload,
            ),
        },
{
    let err = DecodeError::Malformed(Step::ActionPayload);
    let fs = match parse_fields(b) {
        Some(fs) => fs,
        None => return Err(err),
    };
    let chaincode_proposal_payload = match get_bytes(&fs, 1) {
        Some(v) => v,
        None => return Err(err),
    };
    let action = match get_bytes(&fs, 2) {
        Some(v) => v,
        None => return Err(err),
    };
    if !check_endorsed_action(action.as_slice()) {
        return Err(err);
    }
    Ok(ChaincodeActionPayload { chaincode_proposal_payload, action })
}

pub open spec fn proposal_payload_spec(s: Seq<u8>) -> Option<Seq<u8>> {
    match fields_spec(s) {
        Some(fs) => if map_field_ok(fs, 2) {
            bytes_field(fs, 1)
        } else {
            None
        },
        None => None,
    }
}

/// Decodes a chaincode proposal payload and gives its input (field 1); its
/// transient map (field 2) must be made of well-formed entries.
pub fn decode_proposal_input(b: &[u8]) -> (r: Result<Vec<u8>, DecodeError>)
    ensures
        match r {
            Ok(input) => proposal_payload_spec(b@) == Some(input@),
            Err(err) => proposal_payload_spec(b@) is None && err == DecodeError::Malformed(
                Step::ProposalPayload,
            ),
        },
{
    let err = DecodeError::Malformed(Step::ProposalPayload);
    let fs = match parse_fields(b) {
        Some(fs) => fs,
        None => return Err(err),
    };
    if !check_map_field(&fs, 2) {
        return Err(err);
    }
    match get_bytes(&fs, 1) {
        Some(v) => Ok(v),
        None => Err(err),
    }
}

pub struct ChaincodeInputV {
    pub args: Seq<Seq<u8>>,
    pub is_init: bool,
}

pub struct ChaincodeInput {
    pub args: Vec<Vec<u8>>,
    pub is_init: bool,
}

impl View for ChaincodeInput {
    type V = ChaincodeInputV;

    open spec fn view(&self) -> ChaincodeInputV {
        ChaincodeInputV { args: bytes_seqs(self.args@), is_init: self.is_init }
    }
}

pub open spec fn chaincode_input_spec(s: Seq<u8>) -> Option<ChaincodeInputV> {
    match fields_spec(s) {
        Some(fs) => match (repeated_field(fs, 1), varint_field(fs, 3)) {
            (Some(args), Some(init)) => if map_field_ok(fs, 2) {
                Some(ChaincodeInputV { args, is_init: init != 0 })
            } else {
                None
            },
            _ => None,
        },
        None => None,
    }
}

/// Decodes a chaincode input: field 1, repeated, its arguments; field 2 its
/// decorations, a map of well-formed entries; field 3 the init flag.
pub fn decode_chaincode_input(b: &[u8]) -> (r: Result<ChaincodeInput, DecodeError>)
    ensures
        match r {
            Ok(c) => chaincode_input_spec(b@) == Some(c@),
            Err(err) => chaincode_input_spec(b@) is None && err == DecodeError::Malformed(
                Step::ChaincodeInput,
            ),
        },
{
    let err = DecodeError::Malformed(Step::ChaincodeInput);
    let fs = match parse_fields(b) {
        Some(fs) => fs,
        None => return Err(err),
    };
    let args = match get_repeated(&fs, 1) {
        Some(v) => v,
        None => return Err(err),
    };
    let init = match get_varint(&fs, 3) {
        Some(v) => v,
        None => return Err(err),
    };
    if !check_map_field(&fs, 2) {
        return Err(err);
    }
    Ok(ChaincodeInput { args, is_init: init != 0 })
}

// ---- Block ----

pub struct BlockV {
    pub number: u64,
    pub previous_hash: Seq<u8>,
    pub data_hash: Seq<u8>,
    pub data: Seq<Seq<u8>>,
    pub metadata: Seq<Seq<u8>>,
}

/// A block with its header fields, its envelopes and its metadata slots.
pub struct Block {
    pub number: u64,
    pub previous_hash: Vec<u8>,
    pub data_hash: Vec<u8>,
    pub data: Vec<Vec<u8>>,
    pub metadata: Vec<Vec<u8>>,
}

impl View for Block {
    type V = BlockV;

    open spec fn view(&self) -> BlockV {
        BlockV {
            number: self.number,
            previous_hash: self.previous_hash@,
            data_hash: self.data_hash@,
            data: bytes_seqs(self.data@),
            metadata: bytes_seqs(self.metadata@),
        }
    }
}

/// The fields of the record in `s` that has one field, numbered `num`,
/// repeated.
pub open spec fn repeated_record_spec(s: Seq<u8>, num: u64) -> Option<Seq<Seq<u8>>> {
    match fields_spec(s) {
        Some(fs) => repeated_field(fs, num),
        None => None,
    }
}

pub open spec fn block_spec(s: Seq<u8>) -> Option<BlockV> {
    match fields_spec(s) {
        Some(fs) => match (bytes_field(fs, 1), bytes_field(fs, 2), bytes_field(fs, 3)) {
            (Some(hb), Some(db), Some(mb)) => match fields_spec(hb) {
                Some(hfs) => match (
                    varint_field(hfs, 1),
                    bytes_field(hfs, 2),
                    bytes_field(hfs, 3),
                    repeated_record_spec(db, 1),
                    repeated_record_spec(mb, 1),
                ) {
                    (
                        Some(number),
                        Some(previous_hash),
                        Some(data_hash),
                        Some(data),
                        Some(metadata),
                    ) => Some(BlockV { number, previous_hash, data_hash, data, metadata }),
                    _ => None,
                },
                None => None,
            },
            _ => None,
        },
        None => None,
    }
}

fn decode_repeated_record(b: &[u8], num: u64) -> (r: Option<Vec<Vec<u8>>>)
    ensures
        match r {
            Some(v) => repeated_record_spec(b@, num) == Some(bytes_seqs(v@)),
            None => repeated_record_spec(b@, num) is None,
        },
{
    let fs = parse_fields(b)?;
    get_repeated(&fs, num)
}

fn block_parts(b: &[u8]) -> (r: Option<Block>)
    ensures
        match r {
            Some(blk) => block_spec(b@) == Some(blk@),
            None => block_spec(b@) is None,
        },
{
    let fs = parse_fields(b)?;
    let hb = get_bytes(&fs, 1)?;
    let db = get_bytes(&fs, 2)?;
    let mb = get_bytes(&fs, 3)?;
    let hfs = parse_fields(hb.as_slice())?;
    let number = get_varint(&hfs, 1)?;
    let previous_hash = get_bytes(&hfs, 2)?;
    let data_hash = get_bytes(&hfs, 3)?;
    let data = decode_repeated_record(db.as_slice(), 1)?;
    let metadata = decode_repeated_record(mb.as_slice(), 1)?;
    Some(Block { number, previous_hash, data_hash, data, metadata })
}

/// Decodes a block: field 1 its header (number, previous hash, data hash),
/// field 2 its data (field 1, repeated: the envelopes), field 3 its metadata
/// (field 1, repeated: one byte string per slot).
pub fn decode_block(b: &[u8]) -> (r: Result<Block, DecodeError>)
    ensures
        match r {
            Ok(blk) => block_spec(b@) == Some(blk@),
            Err(err) => block_spec(b@) is None && err == DecodeError::Malformed(Step::Block),
        },
{
    match block_parts(b) {
        Some(blk) => Ok(blk),
        None => Err(DecodeError::Malformed(Step::Block)),
    }
}

// ---- Writing records back ----

pub open spec fn bytes_fieldv(number: u64, b: Seq<u8>) -> FieldV {
    FieldV { number, value: WireV::Bytes(b) }
}

/// A record of two byte strings, as fields 1 and 2.
pub open spec fn pair_encode(a: Seq<u8>, b: Seq<u8>) -> Seq<u8> {
    fields_encode(seq![bytes_fieldv(1, a), bytes_fieldv(2, b)])
}

proof fn lemma_pair_fields(a: Seq<u8>, b: Seq<u8>)
    requires
        a.len() < u64_bound(),
        b.len() < u64_bound(),
    ensures
        fields_spec(pair_encode(a, b)) matches Some(fs) && bytes_field(fs, 1) == Some(a)
            && bytes_field(fs, 2) == Some(b),
{
    let fs = seq![bytes_fieldv(1, a), bytes_fieldv(2, b)];
    fields_round_trip(fs);
    assert(fs.drop_last() =~= seq![bytes_fieldv(1, a)]);
    assert(fs.drop_last().drop_last() =~= Seq::<FieldV>::empty());
    reveal_with_fuel(bytes_field, 3);
}

pub open spec fn envelope_encode(e: EnvelopeV) -> Seq<u8> {
    pair_encode(e.payload, e.signature)
}

/// An envelope written out and read back is the same envelope.
pub proof fn envelope_round_trip(e: EnvelopeV)
    requires
        e.payload.len() < u64_bound(),
        e.signature.len() < u64_bound(),
    ensures
        envelope_spec(envelope_encode(e)) == Some(e),
{
    lemma_pair_fields(e.payload, e.signature);
}

pub open spec fn header_encode(h: HeaderV) -> Seq<u8> {
    pair_encode(h.channel_header, h.signature_header)
}

/// A header written out and read back is the same header.
pub proof fn header_round_trip(h: HeaderV)
    requires
        h.channel_header.len() < u64_bound(),
        h.signature_header.len() < u64_bound(),
    ensures
        header_spec(header_encode(h)) == Some(h),
{
    lemma_pair_fields(h.channel_header, h.signature_header);
}

pub open spec fn payload_encode(p: PayloadV) -> Seq<u8> {
    pair_encode(header_encode(p.header), p.data)
}

/// A payload written out and read back is the same payload.
pub proof fn payload_round_trip(p: PayloadV)
    requires
        p.header.channel_header.len() < u64_bound(),
        p.header.signature_header.len() < u64_bound(),
        header_encode(p.header).len() < u64_bound(),
        p.data.len() < u64_bound(),
    ensures
        payload_spec(payload_encode(p)) == Some(p),
{
    header_round_trip(p.header);
    lemma_pair_fields(header_encode(p.header), p.data);
}

pub open spec fn signature_header_encode(h: SignatureHeaderV) -> Seq<u8> {
    pair_encode(h.creator, h.nonce)
}

/// A signature header written out and read back is the same signature header.
pub proof fn signature_header_round_trip(h: SignatureHeaderV)
    requires
        h.creator.len() < u64_bound(),
        h.nonce.len() < u64_bound(),
    ensures
        signature_header_spec(signature_header_encode(h)) == Some(h),
{
    lemma_pair_fields(h.creator, h.nonce);
}

pub open spec fn action_encode(a: TransactionActionV) -> Seq<u8> {
    pair_encode(a.header, a.payload)
}

/// A transaction action written out and read back is the same action.
pub proof fn action_round_trip(a: TransactionActionV)
    requires
        a.header.len() < u64_bound(),
        a.payload.len() < u64_bound(),
    ensures
        action_spec(action_encode(a)) == Some(a),
{
    lemma_pair_fields(a.header, a.payload);
}

pub open spec fn action_payload_encode(p: ActionPayloadV) -> Seq<u8> {
    pair_encode(p.chaincode_proposal_payload, p.action)
}

/// A chaincode action payload written out and read back is the same payload.
pub proof fn action_payload_round_trip(p: ActionPayloadV)
    requires
        p.chaincode_proposal_payload.len() < u64_bound(),
        p.action.len() < u64_bound(),
        endorsed_action_ok(p.action),
    ensures
        action_payload_spec(action_payload_encode(p)) == Some(p),
{
    lemma_pair_fields(p.chaincode_proposal_payload, p.action);
}

pub open spec fn proposal_payload_encode(input: Seq<u8>) -> Seq<u8> {
    fields_encode(seq![bytes_fieldv(1, input)])
}

/// A chaincode proposal payload written out and read back has the same input.
pub proof fn proposal_payload_round_trip(input: Seq<u8>)
    requires
        input.len() < u64_bound(),
    ensures
        proposal_payload_spec(proposal_payload_encode(input)) == Some(input),
{
    let fs = seq![bytes_fieldv(1, input)];
    fields_round_trip(fs);
    assert(fs.drop_last() =~= Seq::<FieldV>::empty());
    reveal_with_fuel(bytes_field, 2);
    reveal_with_fuel(repeated_field, 2);
    assert(repeated_field(fs, 2) == Some(Seq::<Seq<u8>>::empty()));
    assert(all_entries_ok(Seq::<Seq<u8>>::empty()));
}

/// The two's complement bits of `s`.
pub open spec fn i64_bits(s: i64) -> u64 {
    if s >= 0 {
        s as u64
    } else {
        (s + 0x1_0000_0000_0000_0000) as u64
    }
}

pub open spec fn timestamp_encode(t: Timestamp) -> Seq<u8> {
    fields_encode(
        seq![
            FieldV { number: 1, value: WireV::Varint(i64_bits(t.seconds)) },
            FieldV { number: 2, value: WireV::Varint(t.nanos as u64) },
        ],
    )
}

/// A timestamp written out and read back is the same timestamp.
pub proof fn timestamp_round_trip(t: Timestamp)
    ensures
        timestamp_spec(timestamp_encode(t)) == Some(t),
{
    let fs = seq![
        FieldV { number: 1, value: WireV::Varint(i64_bits(t.seconds)) },
        FieldV { number: 2, value: WireV::Varint(t.nanos as u64) },
    ];
    fields_round_trip(fs);
    assert(fs.drop_last() =~= seq![fs[0]]);
    assert(fs.drop_last().drop_last() =~= Seq::<FieldV>::empty());
    reveal_with_fuel(varint_field, 3);
    assert(as_i64(i64_bits(t.seconds)) == t.seconds);
    assert(((t.nanos as u64) % 0x1_0000_0000) as u32 == t.nanos);
}

pub open spec fn identity_encode(msp_id_bytes: Seq<u8>, id_bytes: Seq<u8>) -> Seq<u8> {
    pair_encode(msp_id_bytes, id_bytes)
}

/// A serialized identity written out, with a membership service provider id
/// given as UTF-8, reads back as that id's text and the same identity bytes.
pub proof fn identity_round_trip(msp_id_bytes: Seq<u8>, id_bytes: Seq<u8>)
    requires
        msp_id_bytes.len() < u64_bound(),
        id_bytes.len() < u64_bound(),
        utf8_text(msp_id_bytes) is Some,
    ensures
        identity_spec(identity_encode(msp_id_bytes, id_bytes)) == Some(
            SerializedIdentityV { msp_id: utf8_text(msp_id_bytes)->0, id_bytes },
        ),
{
    lemma_pair_fields(msp_id_bytes, id_bytes);
}

pub open spec fn channel_header_fields(
    header_type: u64,
    timestamp: Timestamp,
    channel_id_bytes: Seq<u8>,
    tx_id_bytes: Seq<u8>,
) -> Seq<FieldV> {
    seq![
        FieldV { number: 1, value: WireV::Varint(header_type) },
        bytes_fieldv(3, timestamp_encode(timestamp)),
        bytes_fieldv(4, channel_id_bytes),
        bytes_fieldv(5, tx_id_bytes),
    ]
}

pub open spec fn channel_header_encode(
    header_type: u64,
    timestamp: Timestamp,
    channel_id_bytes: Seq<u8>,
    tx_id_bytes: Seq<u8>,
) -> Seq<u8> {
    fields_encode(channel_header_fields(header_type, timestamp, channel_id_bytes, tx_id_bytes))
}

/// A channel header written out, with its ids given as UTF-8, reads back with
/// the same type and timestamp and those ids' text.
pub proof fn channel_header_round_trip(
    header_type: u64,
    timestamp: Timestamp,
    channel_id_bytes: Seq<u8>,
    tx_id_bytes: Seq<u8>,
)
    requires
        timestamp_encode(timestamp).len() < u64_bound(),
        channel_id_bytes.len() < u64_bound(),
        tx_id_bytes.len() < u64_bound(),
        utf8_text(channel_id_bytes) is Some,
        utf8_text(tx_id_bytes) is Some,
    ensures
        channel_header_spec(
            channel_header_encode(header_type, timestamp, channel_id_bytes, tx_id_bytes),
        ) == Some(
            ChannelHeaderV {
                header_type,
                timestamp,
                channel_id: utf8_text(channel_id_bytes)->0,
                tx_id: utf8_text(tx_id_bytes)->0,
            },
        ),
{
    let fs = channel_header_fields(header_type, timestamp, channel_id_bytes, tx_id_bytes);
    fields_round_trip(fs);
    timestamp_round_trip(timestamp);
    assert(fs.drop_last() =~= seq![fs[0], fs[1], fs[2]]);
    assert(fs.drop_last().drop_last() =~= seq![fs[0], fs[1]]);
    assert(fs.drop_last().drop_last().drop_last() =~= seq![fs[0]]);
    assert(fs.drop_last().drop_last().drop_last().drop_last() =~= Seq::<FieldV>::empty());
    reveal_with_fuel(bytes_field, 5);
    reveal_with_fuel(varint_field, 5);
}

/// Byte-string fields numbered `num`, one for each of `raws`, in order.
pub open spec fn repeated_fields(num: u64, raws: Seq<Seq<u8>>) -> Seq<FieldV> {
    raws.map_values(|b: Seq<u8>| bytes_fieldv(num, b))
}

proof fn lemma_repeated_fields(pre: Seq<FieldV>, num: u64, raws: Seq<Seq<u8>>)
    requires
        repeated_field(pre, num) is Some,
    ensures
        repeated_field(pre + repeated_fields(num, raws), num) == Some(
            repeated_field(pre, num)->0 + raws,
        ),
    decreases raws.len(),
{
    let all = pre + repeated_fields(num, raws);
    if raws.len() == 0 {
        assert(all =~= pre);
        assert(repeated_field(pre, num)->0 + raws =~= repeated_field(pre, num)->0);
    } else {
        lemma_repeated_fields(pre, num, raws.drop_last());
        assert(all.drop_last() =~= pre + repeated_fields(num, raws.drop_last()));
        assert(repeated_field(pre, num)->0 + raws =~= (repeated_field(pre, num)->0
            + raws.drop_last()).push(raws.last()));
    }
}

proof fn lemma_other_fields_keep_varint(pre: Seq<FieldV>, num: u64, other: u64, raws: Seq<Seq<u8>>)
    requires
        num != other,
    ensures
        varint_field(pre + repeated_fields(other, raws), num) == varint_field(pre, num),
    decreases raws.len(),
{
    let all = pre + repeated_fields(other, raws);
    if raws.len() == 0 {
        assert(all =~= pre);
    } else {
        lemma_other_fields_keep_varint(pre, num, other, raws.drop_last());
        assert(all.drop_last() =~= pre + repeated_fields(other, raws.drop_last()));
    }
}

proof fn lemma_repeated_fields_wf(num: u64, raws: Seq<Seq<u8>>)
    requires
        1 <= num < 0x2000_0000,
        forall|i: int| 0 <= i < raws.len() ==> (#[trigger] raws[i]).len() < u64_bound(),
    ensures
        forall|i: int|
            0 <= i < raws.len() ==> field_wf(#[trigger] repeated_fields(num, raws)[i]),
{
}

pub open spec fn chaincode_input_fields(c: ChaincodeInputV) -> Seq<FieldV> {
    seq![FieldV { number: 3, value: WireV::Varint(if c.is_init { 1 } else { 0 }) }]
        + repeated_fields(1, c.args)
}

pub open spec fn chaincode_input_encode(c: ChaincodeInputV) -> Seq<u8> {
    fields_encode(chaincode_input_fields(c))
}

/// A chaincode input written out and read back is the same input.
pub proof fn chaincode_input_round_trip(c: ChaincodeInputV)
    requires
        forall|i: int| 0 <= i < c.args.len() ==> (#[trigger] c.args[i]).len() < u64_bound(),
    ensures
        chaincode_input_spec(chaincode_input_encode(c)) == Some(c),
{
    let pre = seq![FieldV { number: 3, value: WireV::Varint(if c.is_init { 1 } else { 0 }) }];
    let fs = chaincode_input_fields(c);
    lemma_repeated_fields_wf(1, c.args);
    assert forall|i: int| 0 <= i < fs.len() implies field_wf(#[trigger] fs[i]) by {
        if i > 0 {
            assert(fs[i] == repeated_fields(1, c.args)[i - 1]);
        }
    }
    fields_round_trip(fs);
    assert(pre.drop_last() =~= Seq::<FieldV>::empty());
    reveal_with_fuel(repeated_field, 2);
    reveal_with_fuel(varint_field, 2);
    assert(repeated_field(pre, 1) == Some(Seq::<Seq<u8>>::empty()));
    lemma_repeated_fields(pre, 1, c.args);
    assert(Seq::<Seq<u8>>::empty() + c.args =~= c.args);
    lemma_other_fields_keep_varint(pre, 3, 1, c.args);
    lemma_other_fields_keep_repeated(pre, 2, 1, c.args);
    assert(repeated_field(pre, 2) == Some(Seq::<Seq<u8>>::empty()));
    assert(all_entries_ok(Seq::<Seq<u8>>::empty()));
}

proof fn lemma_other_fields_keep_repeated(
    pre: Seq<FieldV>,
    num: u64,
    other: u64,
    raws: Seq<Seq<u8>>,
)
    requires
        num != other,
    ensures
        repeated_field(pre + repeated_fields(other, raws), num) == repeated_field(pre, num),
    decreases raws.len(),
{
    let all = pre + repeated_fields(other, raws);
    if raws.len() == 0 {
        assert(all =~= pre);
    } else {
        lemma_other_fields_keep_repeated(pre, num, other, raws.drop_last());
        assert(all.drop_last() =~= pre + repeated_fields(other, raws.drop_last()));
    }
}

pub open spec fn transaction_encode(t: TransactionV) -> Seq<u8> {
    fields_encode(repeated_fields(1, t.actions.map_values(|a: TransactionActionV| action_encode(a))))
}

proof fn lemma_actions_round_trip(acts: Seq<TransactionActionV>)
    requires
        forall|i: int|
            0 <= i < acts.len() ==> (#[trigger] acts[i]).header.len() < u64_bound()
                && acts[i].payload.len() < u64_bound(),
    ensures
        actions_spec(acts.map_values(|a: TransactionActionV| action_encode(a))) == Some(acts),
    decreases acts.len(),
{
    let raws = acts.map_values(|a: TransactionActionV| action_encode(a));
    if acts.len() > 0 {
        let prev = acts.drop_last();
        assert(raws.drop_last() =~= prev.map_values(|a: TransactionActionV| action_encode(a)));
        assert forall|i: int| 0 <= i < prev.len() implies (#[trigger] prev[i]).header.len()
            < u64_bound() && prev[i].payload.len() < u64_bound() by {
            assert(prev[i] == acts[i]);
        }
        lemma_actions_round_trip(prev);
        action_round_trip(acts.last());
        assert(prev.push(acts.last()) =~= acts);
    }
}

/// A transaction written out and read back is the same transaction.
pub proof fn transaction_round_trip(t: TransactionV)
    requires
        forall|i: int|
            0 <= i < t.actions.len() ==> (#[trigger] t.actions[i]).header.len() < u64_bound()
                && t.actions[i].payload.len() < u64_bound() && action_encode(t.actions[i]).len()
                < u64_bound(),
    ensures
        transaction_spec(transaction_encode(t)) == Some(t),
{
    let raws = t.actions.map_values(|a: TransactionActionV| action_encode(a));
    let fs = repeated_fields(1, raws);
    assert forall|i: int| 0 <= i < raws.len() implies (#[trigger] raws[i]).len() < u64_bound() by {
        assert(raws[i] == action_encode(t.actions[i]));
    }
    lemma_repeated_fields_wf(1, raws);
    fields_round_trip(fs);
    assert(Seq::<FieldV>::empty() + fs =~= fs);
    lemma_repeated_fields(Seq::<FieldV>::empty(), 1, raws);
    assert(Seq::<Seq<u8>>::empty() + raws =~= raws);
    lemma_actions_round_trip(t.actions);
}

pub open spec fn block_header_fields(b: BlockV) -> Seq<FieldV> {
    seq![
        FieldV { number: 1, value: WireV::Varint(b.number) },
        bytes_fieldv(2, b.previous_hash),
        bytes_fieldv(3, b.data_hash),
    ]
}

pub open spec fn block_parts_fields(b: BlockV) -> Seq<FieldV> {
    seq![
        bytes_fieldv(1, fields_encode(block_header_fields(b))),
        bytes_fieldv(2, fields_encode(repeated_fields(1, b.data))),
        bytes_fieldv(3, fields_encode(repeated_fields(1, b.metadata))),
    ]
}

pub open spec fn block_encode(b: BlockV) -> Seq<u8> {
    fields_encode(block_parts_fields(b))
}

proof fn lemma_repeated_record_round_trip(raws: Seq<Seq<u8>>)
    requires
        forall|i: int| 0 <= i < raws.len() ==> (#[trigger] raws[i]).len() < u64_bound(),
    ensures
        repeated_record_spec(fields_encode(repeated_fields(1, raws)), 1) == Some(raws),
{
    let fs = repeated_fields(1, raws);
    lemma_repeated_fields_wf(1, raws);
    fields_round_trip(fs);
    assert(Seq::<FieldV>::empty() + fs =~= fs);
    lemma_repeated_fields(Seq::<FieldV>::empty(), 1, raws);
    assert(Seq::<Seq<u8>>::empty() + raws =~= raws);
}

/// A block written out and read back is the same block.
pub proof fn block_round_trip(b: BlockV)
    requires
        b.previous_hash.len() < u64_bound(),
        b.data_hash.len() < u64_bound(),
        forall|i: int| 0 <= i < b.data.len() ==> (#[trigger] b.data[i]).len() < u64_bound(),
        forall|i: int| 0 <= i < b.metadata.len() ==> (#[trigger] b.metadata[i]).len() < u64_bound(),
        fields_encode(block_header_fields(b)).len() < u64_bound(),
        fields_encode(repeated_fields(1, b.data)).len() < u64_bound(),
        fields_encode(repeated_fields(1, b.metadata)).len() < u64_bound(),
    ensures
        block_spec(block_encode(b)) == Some(b),
{
    lemma_block_header_round_trip(b);
    lemma_block_parts_round_trip(b);
    lemma_repeated_record_round_trip(b.data);
    lemma_repeated_record_round_trip(b.metadata);
}

proof fn lemma_block_header_round_trip(b: BlockV)
    requires
        b.previous_hash.len() < u64_bound(),
        b.data_hash.len() < u64_bound(),
    ensures
        fields_spec(fields_encode(block_header_fields(b))) matches Some(hfs) && varint_field(hfs, 1)
            == Some(b.number) && bytes_field(hfs, 2) == Some(b.previous_hash) && bytes_field(hfs, 3)
            == Some(b.data_hash),
{
    let hfs = block_header_fields(b);
    fields_round_trip(hfs);
    assert(hfs.drop_last() =~= seq![hfs[0], hfs[1]]);
    assert(hfs.drop_last().drop_last() =~= seq![hfs[0]]);
    assert(hfs.drop_last().drop_last().drop_last() =~= Seq::<FieldV>::empty());
    reveal_with_fuel(bytes_field, 4);
    reveal_with_fuel(varint_field, 4);
}

proof fn lemma_block_parts_round_trip(b: BlockV)
    requires
        fields_encode(block_header_fields(b)).len() < u64_bound(),
        fields_encode(repeated_fields(1, b.data)).len() < u64_bound(),
        fields_encode(repeated_fields(1, b.metadata)).len() < u64_bound(),
    ensures
        fields_spec(block_encode(b)) matches Some(fs) && bytes_field(fs, 1) == Some(
            fields_encode(block_header_fields(b)),
        ) && bytes_field(fs, 2) == Some(fields_encode(repeated_fields(1, b.data)))
            && bytes_field(fs, 3) == Some(fields_encode(repeated_fields(1, b.metadata))),
{
    let outer = block_parts_fields(b);
    assert(field_wf(outer[0]) && field_wf(outer[1]) && field_wf(outer[2]));
    fields_round_trip(outer);
    assert(outer.drop_last() =~= seq![outer[0], outer[1]]);
    assert(outer.drop_last().drop_last() =~= seq![outer[0]]);
    assert(outer.drop_last().drop_last().drop_last() =~= Seq::<FieldV>::empty());
    reveal_with_fuel(bytes_field, 4);
}

} // verus!
