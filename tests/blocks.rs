use block_explorer::channel::BlockInfo;
use block_explorer::cmd::{
    decode_block_info, json_start, transaction_validity, BlockError, FetchError, PeerCmd,
    ValidationIndexError,
};
use block_explorer::messages::{
    decode_action_payload, decode_block, decode_chaincode_input, decode_channel_header,
    decode_envelope, decode_identity, decode_payload, decode_proposal_input,
    decode_signature_header, decode_timestamp, decode_transaction, DecodeError, Step, Timestamp,
};
use block_explorer::wire::{parse_fields, read_varint, WireValue};
use std::cell::Cell;

fn varint(mut v: u64) -> Vec<u8> {
    let mut out = Vec::new();
    while v >= 128 {
        out.push((v % 128 + 128) as u8);
        v /= 128;
    }
    out.push(v as u8);
    out
}

fn bytes_field(number: u64, b: &[u8]) -> Vec<u8> {
    let mut out = varint(number * 8 + 2);
    out.extend(varint(b.len() as u64));
    out.extend_from_slice(b);
    out
}

fn varint_field(number: u64, v: u64) -> Vec<u8> {
    let mut out = varint(number * 8);
    out.extend(varint(v));
    out
}

fn timestamp(seconds: i64, nanos: u32) -> Vec<u8> {
    let mut out = varint_field(1, seconds as u64);
    out.extend(varint_field(2, nanos as u64));
    out
}

fn envelope_with(header_type: u64, tx_id: &str, mspid: &str, seconds: i64) -> Vec<u8> {
    envelope_at(header_type, tx_id, mspid, seconds, 500)
}

fn envelope_at(header_type: u64, tx_id: &str, mspid: &str, seconds: i64, nanos: u32) -> Vec<u8> {
    let mut ch = varint_field(1, header_type);
    ch.extend(bytes_field(3, &timestamp(seconds, nanos)));
    ch.extend(bytes_field(4, b"mychannel"));
    ch.extend(bytes_field(5, tx_id.as_bytes()));
    let mut identity = bytes_field(1, mspid.as_bytes());
    identity.extend(bytes_field(2, b""));
    let mut sig = bytes_field(1, &identity);
    sig.extend(bytes_field(2, b""));
    let mut header = bytes_field(1, &ch);
    header.extend(bytes_field(2, &sig));
    let mut payload = bytes_field(1, &header);
    payload.extend(bytes_field(2, b"data"));
    let mut env = bytes_field(1, &payload);
    env.extend(bytes_field(2, b"signature"));
    env
}

fn envelope(tx_id: &str) -> Vec<u8> {
    envelope_with(1, tx_id, "Org1MSP", 1_600_000_000)
}

fn block(number: u64, data_hash: &[u8], envelopes: &[Vec<u8>], filter: Option<&[u8]>) -> Vec<u8> {
    let mut header = varint_field(1, number);
    header.extend(bytes_field(2, b"prev"));
    header.extend(bytes_field(3, data_hash));
    let mut data = Vec::new();
    for e in envelopes {
        data.extend(bytes_field(1, e));
    }
    let mut metadata = Vec::new();
    metadata.extend(bytes_field(1, b""));
    metadata.extend(bytes_field(1, b""));
    if let Some(f) = filter {
        metadata.extend(bytes_field(1, f));
    }
    let mut out = bytes_field(1, &header);
    out.extend(bytes_field(2, &data));
    out.extend(bytes_field(3, &metadata));
    out
}

fn three_tx_block(height: u64) -> Vec<u8> {
    block(
        height,
        &[0xde, 0xad, 0x01],
        &[envelope("tx0"), envelope("tx1"), envelope("tx2")],
        Some(&[0, 1, 0]),
    )
}

#[test]
fn filter_marks_middle_transaction_invalid() {
    let b = decode_block_info(&three_tx_block(7)).ok().unwrap();
    assert_eq!(b.transactions.len(), 3);
    assert!(b.transactions[0].valid);
    assert!(!b.transactions[1].valid);
    assert!(b.transactions[2].valid);
}

#[test]
fn block_fields_are_decoded() {
    let b = decode_block_info(&three_tx_block(7)).ok().unwrap();
    assert_eq!(b.height, 7);
    assert_eq!(b.hash, "dead01");
    assert_eq!(b.transactions[1].tx_id, "tx1");
    assert_eq!(b.transactions[1].mspid, "Org1MSP");
    assert_eq!(b.transactions[1].timestamp, Timestamp { seconds: 1_600_000_000, nanos: 500 });
}

#[test]
fn transactions_match_envelopes_and_codes() {
    let codes: &[u8] = &[0, 0, 11, 0, 2];
    let envs: Vec<Vec<u8>> = (0..4).map(|i| envelope(&format!("t{}", i))).collect();
    let b = decode_block_info(&block(1, b"h", &envs, Some(codes))).ok().unwrap();
    assert_eq!(b.transactions.len(), envs.len());
    for (i, t) in b.transactions.iter().enumerate() {
        assert_eq!(t.valid, codes[i] == 0);
        assert_eq!(t.tx_id, format!("t{}", i));
    }
}

#[test]
fn short_filter_fails_block_and_caches_nothing() {
    let bytes = block(3, b"h", &[envelope("a"), envelope("b")], Some(&[0]));
    let mut cmd = PeerCmd::new("/fabric".to_string(), "mychannel");
    match cmd.load_block(&bytes) {
        Err(e) => assert_eq!(e, BlockError::Validation(ValidationIndexError::OutOfRange)),
        Ok(_) => panic!("decoded a block with a short filter"),
    }
    assert!(cmd.cached_block(3).is_none());
}

#[test]
fn missing_filter_slot_fails_block() {
    let bytes = block(3, b"h", &[envelope("a")], None);
    match decode_block_info(&bytes) {
        Err(e) => assert_eq!(e, BlockError::Validation(ValidationIndexError::OutOfRange)),
        Ok(_) => panic!("decoded a block without a filter"),
    }
}

#[test]
fn empty_block_needs_no_filter() {
    let b = decode_block_info(&block(0, b"", &[], None)).ok().unwrap();
    assert_eq!(b.height, 0);
    assert_eq!(b.hash, "");
    assert!(b.transactions.is_empty());
}

#[test]
fn malformed_envelope_fails_whole_block() {
    let bad = vec![0x0a, 0x05, 0x01];
    let bytes = block(4, b"h", &[envelope("a"), bad, envelope("c")], Some(&[0, 0, 0]));
    let mut cmd = PeerCmd::new("/fabric".to_string(), "mychannel");
    match cmd.load_block(&bytes) {
        Err(e) => assert_eq!(e, BlockError::Decode(DecodeError::Malformed(Step::Envelope))),
        Ok(_) => panic!("decoded a block with a malformed envelope"),
    }
    assert!(cmd.cached_block(4).is_none());
}

#[test]
fn invalid_utf8_tx_id_fails_block() {
    let mut ch = varint_field(1, 1);
    ch.extend(bytes_field(3, &timestamp(5, 0)));
    ch.extend(bytes_field(5, &[0xff, 0xfe]));
    let mut header = bytes_field(1, &ch);
    header.extend(bytes_field(2, b""));
    let payload = bytes_field(1, &header);
    let env = bytes_field(1, &payload);
    match decode_block_info(&block(1, b"h", &[env], Some(&[0]))) {
        Err(e) => assert_eq!(e, BlockError::Decode(DecodeError::Malformed(Step::ChannelHeader))),
        Ok(_) => panic!("accepted a transaction id that is not UTF-8"),
    }
}

#[test]
fn unrepresentable_timestamp_fails_block() {
    let env = envelope_with(1, "t", "Org1MSP", i64::MAX);
    match decode_block_info(&block(1, b"h", &[env], Some(&[0]))) {
        Err(e) => assert_eq!(e, BlockError::Decode(DecodeError::Malformed(Step::Timestamp))),
        Ok(_) => panic!("accepted a timestamp out of range"),
    }
}

#[test]
fn endorser_transaction_with_unreadable_input_fails_block() {
    let env = envelope_with(3, "t", "Org1MSP", 10);
    match decode_block_info(&block(1, b"h", &[env], Some(&[0]))) {
        Err(e) => assert_eq!(e, BlockError::Decode(DecodeError::Malformed(Step::ChaincodeInput))),
        Ok(_) => panic!("accepted an endorser transaction whose input cannot be read"),
    }
}

#[test]
fn cached_block_served_without_fetching_again() {
    let mut cmd = PeerCmd::new("/fabric".to_string(), "mychannel");
    let calls = Cell::new(0u32);
    let fetch = |h: u64| -> Result<Vec<u8>, FetchError> {
        calls.set(calls.get() + 1);
        if calls.get() == 1 {
            Ok(three_tx_block(h))
        } else {
            Err(FetchError::Unavailable)
        }
    };
    let first: BlockInfo = cmd.fetch_and_get_block(5, &fetch).unwrap();
    let second: BlockInfo = cmd.fetch_and_get_block(5, &fetch).unwrap();
    assert_eq!(calls.get(), 1);
    assert_eq!(first.height, 5);
    assert_eq!(second.height, 5);
    assert_eq!(first.hash, second.hash);
    assert_eq!(second.transactions.len(), 3);
    assert_eq!(second.transactions[2].tx_id, "tx2");
}

#[test]
fn undecodable_block_leaves_cache_unchanged() {
    let mut cmd = PeerCmd::new("/fabric".to_string(), "mychannel");
    let garbage = |_h: u64| -> Result<Vec<u8>, FetchError> { Ok(vec![0xff, 0xff, 0xff]) };
    assert!(cmd.fetch_and_get_block(9, garbage).is_none());
    assert!(cmd.cached_block(9).is_none());
    let good = |h: u64| -> Result<Vec<u8>, FetchError> { Ok(three_tx_block(h)) };
    let b = cmd.fetch_and_get_block(9, good).unwrap();
    assert_eq!(b.height, 9);
    assert_eq!(cmd.cached_block(9).unwrap().transactions.len(), 3);
}

#[test]
fn fetch_failure_gives_nothing() {
    let mut cmd = PeerCmd::new("/fabric".to_string(), "mychannel");
    let failing = |_h: u64| -> Result<Vec<u8>, FetchError> { Err(FetchError::Unavailable) };
    assert!(cmd.fetch_and_get_block(2, failing).is_none());
    assert!(cmd.cached_block(2).is_none());
}

#[test]
fn block_kept_under_decoded_height() {
    let mut cmd = PeerCmd::new("/fabric".to_string(), "mychannel");
    let other = |_h: u64| -> Result<Vec<u8>, FetchError> { Ok(three_tx_block(8)) };
    let b = cmd.fetch_and_get_block(6, other).unwrap();
    assert_eq!(b.height, 8);
    assert!(cmd.cached_block(6).is_none());
    assert!(cmd.cached_block(8).is_some());
}

#[test]
fn envelope_round_trip() {
    let mut bytes = bytes_field(1, b"pay");
    bytes.extend(bytes_field(2, b"sig"));
    let e = decode_envelope(&bytes).ok().unwrap();
    assert_eq!(e.payload, b"pay".to_vec());
    assert_eq!(e.signature, b"sig".to_vec());
}

#[test]
fn timestamp_round_trip_negative_seconds() {
    let t = decode_timestamp(&timestamp(-5, 7)).unwrap();
    assert_eq!(t, Timestamp { seconds: -5, nanos: 7 });
}

#[test]
fn last_occurrence_of_field_wins() {
    let mut bytes = bytes_field(1, b"first");
    bytes.extend(bytes_field(1, b"second"));
    let e = decode_envelope(&bytes).ok().unwrap();
    assert_eq!(e.payload, b"second".to_vec());
    assert!(e.signature.is_empty());
}

#[test]
fn wrong_kind_for_known_field_is_malformed() {
    let bytes = varint_field(1, 4);
    match decode_envelope(&bytes) {
        Err(e) => assert_eq!(e, DecodeError::Malformed(Step::Envelope)),
        Ok(_) => panic!("accepted a varint payload"),
    }
}

#[test]
fn truncated_block_is_malformed() {
    let mut bytes = three_tx_block(1);
    bytes.truncate(bytes.len() - 1);
    match decode_block(&bytes) {
        Err(e) => assert_eq!(e, DecodeError::Malformed(Step::Block)),
        Ok(_) => panic!("accepted a truncated block"),
    }
}

#[test]
fn varint_reads_multi_byte_values() {
    assert_eq!(read_varint(&[0xac, 0x02], 0), Some((300, 2)));
    assert_eq!(read_varint(&[0x00, 0x96, 0x01], 1), Some((150, 3)));
    assert_eq!(read_varint(&[0x80], 0), None);
    let max = varint(u64::MAX);
    assert_eq!(read_varint(&max, 0), Some((u64::MAX, 10)));
    assert_eq!(read_varint(&[0xff; 11], 0), None);
}

#[test]
fn fields_of_every_kind_are_read() {
    let mut bytes = varint_field(3, 9);
    bytes.push(1 * 8 + 1);
    bytes.extend([1, 2, 3, 4, 5, 6, 7, 8]);
    bytes.push(2 * 8 + 5);
    bytes.extend([9, 9, 9, 9]);
    bytes.extend(bytes_field(4, b"xy"));
    let fs = parse_fields(&bytes).unwrap();
    assert_eq!(fs.len(), 4);
    assert_eq!(fs[0].number, 3);
    assert!(matches!(fs[0].value, WireValue::Varint(9)));
    assert!(matches!(&fs[1].value, WireValue::Fixed64(v) if v.len() == 8));
    assert!(matches!(&fs[2].value, WireValue::Fixed32(v) if v == &vec![9, 9, 9, 9]));
    assert!(matches!(&fs[3].value, WireValue::Bytes(v) if v == &b"xy".to_vec()));
    assert!(parse_fields(&[0x00, 0x01]).is_none());
    assert!(parse_fields(&[0x0b]).is_none());
}

#[test]
fn validity_reads_one_code() {
    assert_eq!(transaction_validity(&[0, 1], 0), Ok(true));
    assert_eq!(transaction_validity(&[0, 1], 1), Ok(false));
    assert_eq!(transaction_validity(&[0, 1], 2), Err(ValidationIndexError::OutOfRange));
}

#[test]
fn json_start_finds_first_brace() {
    assert_eq!(json_start(b"Blockchain info: {\"height\":3}"), Some(17));
    assert_eq!(json_start(b"no json"), None);
}

#[test]
fn list_blocks_skips_heights_that_fail() {
    let mut cmd = PeerCmd::new("/fabric".to_string(), "mychannel");
    let fetch = |h: u64| -> Result<Vec<u8>, FetchError> {
        if h == 1 {
            Err(FetchError::Unavailable)
        } else if h == 2 {
            Ok(vec![0x07])
        } else {
            Ok(three_tx_block(h))
        }
    };
    let blocks = cmd.list_blocks(4, fetch);
    let heights: Vec<u64> = blocks.iter().map(|b| b.height).collect();
    assert_eq!(heights, vec![0, 3]);
    assert!(cmd.cached_block(1).is_none());
    assert!(cmd.cached_block(2).is_none());
    assert!(cmd.cached_block(3).is_some());
}

#[test]
fn list_blocks_of_cached_heights_fetches_nothing() {
    let mut cmd = PeerCmd::new("/fabric".to_string(), "mychannel");
    cmd.load_block(&three_tx_block(0)).ok().unwrap();
    cmd.load_block(&three_tx_block(1)).ok().unwrap();
    let calls = Cell::new(0u32);
    let fetch = |_h: u64| -> Result<Vec<u8>, FetchError> {
        calls.set(calls.get() + 1);
        Err(FetchError::Unavailable)
    };
    let blocks = cmd.list_blocks(2, fetch);
    assert_eq!(blocks.len(), 2);
    assert_eq!(blocks[1].height, 1);
    assert_eq!(calls.get(), 0);
}

#[test]
fn endorser_transaction_with_readable_input_is_kept() {
    let env = envelope_with(3, "t", "", 10);
    let b = decode_block_info(&block(1, b"h", &[env], Some(&[0]))).ok().unwrap();
    assert_eq!(b.transactions.len(), 1);
    assert_eq!(b.transactions[0].mspid, "");
}

#[test]
fn each_record_reports_its_own_step() {
    let bad = [0x08, 0x01];
    assert_eq!(decode_payload(&bad).err(), Some(DecodeError::Malformed(Step::Payload)));
    assert_eq!(decode_channel_header(&[0x0a, 0x00]).err(), Some(DecodeError::Malformed(Step::ChannelHeader)));
    assert_eq!(decode_signature_header(&bad).err(), Some(DecodeError::Malformed(Step::SignatureHeader)));
    assert_eq!(decode_transaction(&bad).err(), Some(DecodeError::Malformed(Step::Transaction)));
    assert_eq!(decode_action_payload(&bad).err(), Some(DecodeError::Malformed(Step::ActionPayload)));
    assert_eq!(decode_proposal_input(&bad).err(), Some(DecodeError::Malformed(Step::ProposalPayload)));
    assert_eq!(decode_chaincode_input(&[0x0a, 0x05]).err(), Some(DecodeError::Malformed(Step::ChaincodeInput)));
    assert_eq!(decode_identity(&bytes_field(1, &[0xc3])).err(), Some(DecodeError::Malformed(Step::Identity)));
}

#[test]
fn identity_round_trip() {
    let mut bytes = bytes_field(1, "Org2MSP".as_bytes());
    bytes.extend(bytes_field(2, b"pem"));
    let id = decode_identity(&bytes).ok().unwrap();
    assert_eq!(id.msp_id, "Org2MSP");
    assert_eq!(id.id_bytes, b"pem".to_vec());
}

#[test]
fn chaincode_input_round_trip() {
    let mut bytes = varint_field(3, 1);
    bytes.extend(bytes_field(1, b"invoke"));
    bytes.extend(bytes_field(1, b""));
    bytes.extend(bytes_field(1, b"x"));
    let c = decode_chaincode_input(&bytes).ok().unwrap();
    assert_eq!(c.args, vec![b"invoke".to_vec(), vec![], b"x".to_vec()]);
    assert!(c.is_init);
}

#[test]
fn transaction_round_trip() {
    let mut a1 = bytes_field(1, b"h1");
    a1.extend(bytes_field(2, b"p1"));
    let mut a2 = bytes_field(1, b"h2");
    a2.extend(bytes_field(2, b"p2"));
    let mut bytes = bytes_field(1, &a1);
    bytes.extend(bytes_field(1, &a2));
    let t = decode_transaction(&bytes).ok().unwrap();
    assert_eq!(t.actions.len(), 2);
    assert_eq!(t.actions[1].header, b"h2".to_vec());
    assert_eq!(t.actions[1].payload, b"p2".to_vec());
}

#[test]
fn proposal_and_action_payload_round_trip() {
    let mut endorsement = bytes_field(1, b"peer0");
    endorsement.extend(bytes_field(2, b"sig"));
    let mut action = bytes_field(1, b"response");
    action.extend(bytes_field(2, &endorsement));
    let mut bytes = bytes_field(1, b"cpp");
    bytes.extend(bytes_field(2, &action));
    let ap = decode_action_payload(&bytes).ok().unwrap();
    assert_eq!(ap.chaincode_proposal_payload, b"cpp".to_vec());
    assert_eq!(ap.action, action);
    let mut entry = bytes_field(1, b"key");
    entry.extend(bytes_field(2, b"value"));
    let mut proposal = bytes_field(1, b"in");
    proposal.extend(bytes_field(2, &entry));
    assert_eq!(decode_proposal_input(&proposal).ok().unwrap(), b"in".to_vec());
}

#[test]
fn truncated_endorsed_action_is_malformed() {
    assert_eq!(
        decode_action_payload(&[0x12, 0x01, 0xFF]).err(),
        Some(DecodeError::Malformed(Step::ActionPayload))
    );
    let mut action = bytes_field(1, b"response");
    action.extend(varint_field(2, 1));
    assert_eq!(
        decode_action_payload(&bytes_field(2, &action)).err(),
        Some(DecodeError::Malformed(Step::ActionPayload))
    );
}

#[test]
fn channel_header_field_of_wrong_kind_is_malformed() {
    let mut ch = varint_field(1, 1);
    ch.extend(bytes_field(3, &timestamp(5, 0)));
    ch.extend(varint_field(7, 1));
    assert_eq!(decode_channel_header(&ch).err(), Some(DecodeError::Malformed(Step::ChannelHeader)));
    let mut ch = varint_field(1, 1);
    ch.extend(bytes_field(2, b"v"));
    assert_eq!(decode_channel_header(&ch).err(), Some(DecodeError::Malformed(Step::ChannelHeader)));
}

#[test]
fn malformed_map_entries_are_rejected() {
    let mut proposal = bytes_field(1, b"in");
    proposal.extend(bytes_field(2, &[0x0a, 0x01, 0xff]));
    assert_eq!(decode_proposal_input(&proposal).err(), Some(DecodeError::Malformed(Step::ProposalPayload)));
    let mut input = bytes_field(1, b"arg");
    input.extend(bytes_field(2, &[0x0a, 0x05]));
    assert_eq!(decode_chaincode_input(&input).err(), Some(DecodeError::Malformed(Step::ChaincodeInput)));
}

#[test]
fn block_round_trip() {
    let bytes = three_tx_block(42);
    let b = decode_block(&bytes).ok().unwrap();
    assert_eq!(b.number, 42);
    assert_eq!(b.previous_hash, b"prev".to_vec());
    assert_eq!(b.data_hash, vec![0xde, 0xad, 0x01]);
    assert_eq!(b.data.len(), 3);
    assert_eq!(b.data[0], envelope("tx0"));
    assert_eq!(b.metadata, vec![vec![], vec![], vec![0, 1, 0]]);
}

#[test]
fn leap_second_only_at_end_of_minute() {
    let leap = envelope_at(1, "t", "Org1MSP", -1, 1_500_000_000);
    let b = decode_block_info(&block(1, b"h", &[leap], Some(&[0]))).ok().unwrap();
    assert_eq!(b.transactions[0].timestamp, Timestamp { seconds: -1, nanos: 1_500_000_000 });
    let not_leap = envelope_at(1, "t", "Org1MSP", 0, 1_500_000_000);
    match decode_block_info(&block(1, b"h", &[not_leap], Some(&[0]))) {
        Err(e) => assert_eq!(e, BlockError::Decode(DecodeError::Malformed(Step::Timestamp))),
        Ok(_) => panic!("accepted a leap second inside a minute"),
    }
    let too_many = envelope_at(1, "t", "Org1MSP", 59, 2_000_000_000);
    assert!(decode_block_info(&block(1, b"h", &[too_many], Some(&[0]))).is_err());
}
