//! Block assembly: from the bytes of a block to a `BlockInfo`, with a cache of
//! the blocks assembled so far, keyed by height.
use crate::channel::{transactions_view, BlockInfo, BlockInfoV, TransactionInfo, TransactionInfoV};
use crate::messages::{
    action_payload_spec, block_spec, chaincode_input_spec, channel_header_spec, decode_action_payload,
    decode_block, decode_chaincode_input, decode_channel_header, decode_envelope, decode_identity,
    decode_payload, decode_proposal_input, decode_signature_header, decode_transaction,
    envelope_spec, identity_spec, payload_spec, proposal_payload_spec, signature_header_spec,
    transaction_spec, DecodeError, Step, TransactionAction, TransactionActionV,
    ENDORSER_TRANSACTION, TRANSACTIONS_FILTER, VALID_CODE, actions_view,
};
use crate::records::bytes_seqs;
use crate::trusted::{datetime_exists, hex_encode, hex_of, timestamp_representable};
use std::collections::HashMap;
use vstd::prelude::*;

verus! {

broadcast use vstd::std_specs::hash::group_hash_axioms;

/// The validation-code array is shorter than the block's list of envelopes.
#[derive(Clone, Copy, Debug, PartialEq, Eq, Structural)]
pub enum ValidationIndexError {
    OutOfRange,
}

/// The source of a block's bytes could not produce them.
#[derive(Clone, Copy, Debug, PartialEq, Eq, Structural)]
pub enum FetchError {
    Unavailable,
}

/// Why a block could not be assembled.
#[derive(Clone, Copy, Debug, PartialEq, Eq, Structural)]
pub enum BlockError {
    Decode(DecodeError),
    Validation(ValidationIndexError),
}

/// Whether the transaction at `idx` is valid by the validation codes `filter`.
pub open spec fn validity_spec(filter: Seq<u8>, idx: int) -> Result<bool, ValidationIndexError> {
    if 0 <= idx < filter.len() {
        Ok(filter[idx] == VALID_CODE)
    } else {
        Err(ValidationIndexError::OutOfRange)
    }
}

/// Where the deeper records of one transaction action fail to decode, if anywhere.
pub open spec fn action_check(a: TransactionActionV) -> Option<Step> {
    match action_payload_spec(a.payload) {
        None => Some(Step::ActionPayload),
        Some(ap) => match proposal_payload_spec(ap.chaincode_proposal_payload) {
            None => Some(Step::ProposalPayload),
            Some(input) => match chaincode_input_spec(input) {
                None => Some(Step::ChaincodeInput),
                Some(_) => None,
            },
        },
    }
}

/// The first action, in order, whose deeper records fail to decode.
pub open spec fn actions_check(acts: Seq<TransactionActionV>) -> Option<Step>
    decreases acts.len(),
{
    if acts.len() == 0 {
        None
    } else {
        match actions_check(acts.drop_last()) {
            Some(s) => Some(s),
            None => action_check(acts.last()),
        }
    }
}

/// Whether a header type, read as a 32-bit integer, marks an endorser transaction.
pub open spec fn is_endorser(header_type: u64) -> bool {
    header_type % 0x1_0000_0000 == ENDORSER_TRANSACTION
}

/// For an endorser transaction, where its payload read as a transaction, and the
/// records inside its actions, fail to decode; nothing for other transactions.
pub open spec fn endorsement_check(header_type: u64, payload: Seq<u8>) -> Option<Step> {
    if !is_endorser(header_type) {
        None
    } else {
        match transaction_spec(payload) {
            None => Some(Step::Transaction),
            Some(t) => actions_check(t.actions),
        }
    }
}

/// The transaction that the envelope `env` at position `idx` of a block holds,
/// or the first error met on the way.
#[verifier::opaque]
pub open spec fn tx_spec(env: Seq<u8>, filter: Seq<u8>, idx: int) -> Result<
    TransactionInfoV,
    BlockError,
> {
    match envelope_spec(env) {
        None => Err(BlockError::Decode(DecodeError::Malformed(Step::Envelope))),
        Some(e) => match payload_spec(e.payload) {
            None => Err(BlockError::Decode(DecodeError::Malformed(Step::Payload))),
            Some(p) => match channel_header_spec(p.header.channel_header) {
                None => Err(BlockError::Decode(DecodeError::Malformed(Step::ChannelHeader))),
                Some(ch) => match signature_header_spec(p.header.signature_header) {
                    None => Err(BlockError::Decode(DecodeError::Malformed(Step::SignatureHeader))),
                    Some(sh) => match identity_spec(sh.creator) {
                        None => Err(BlockError::Decode(DecodeError::Malformed(Step::Identity))),
                        Some(id) => if !datetime_exists(ch.timestamp.seconds, ch.timestamp.nanos) {
                            Err(BlockError::Decode(DecodeError::Malformed(Step::Timestamp)))
                        } else {
                            match validity_spec(filter, idx) {
                                Err(v) => Err(BlockError::Validation(v)),
                                Ok(valid) => match endorsement_check(ch.header_type, e.payload) {
                                    Some(s) => Err(BlockError::Decode(DecodeError::Malformed(s))),
                                    None => Ok(
                                        TransactionInfoV {
                                            valid,
                                            tx_id: ch.tx_id,
                                            timestamp: ch.timestamp,
                                            mspid: id.msp_id,
                                        },
                                    ),
                                },
                            }
                        },
                    },
                },
            },
        },
    }
}

/// The transactions of the envelopes `envs`, in order, or the first error.
pub open spec fn txs_spec(envs: Seq<Seq<u8>>, filter: Seq<u8>) -> Result<
    Seq<TransactionInfoV>,
    BlockError,
>
    decreases envs.len(),
{
    if envs.len() == 0 {
        Ok(seq![])
    } else {
        match txs_spec(envs.drop_last(), filter) {
            Err(e) => Err(e),
            Ok(prev) => match tx_spec(envs.last(), filter, envs.len() - 1) {
                Ok(t) => Ok(prev.push(t)),
                Err(e) => Err(e),
            },
        }
    }
}

/// The validation codes of a block: its metadata slot for them, or nothing
/// where the block has no such slot.
pub open spec fn filter_of(metadata: Seq<Seq<u8>>) -> Seq<u8> {
    if TRANSACTIONS_FILTER < metadata.len() {
        metadata[TRANSACTIONS_FILTER as int]
    } else {
        seq![]
    }
}

/// The block that the bytes `s` hold, or the first error met in decoding it.
pub open spec fn block_info_spec(s: Seq<u8>) -> Result<BlockInfoV, BlockError> {
    match block_spec(s) {
        None => Err(BlockError::Decode(DecodeError::Malformed(Step::Block))),
        Some(b) => match txs_spec(b.data, filter_of(b.metadata)) {
            Ok(transactions) => Ok(
                BlockInfoV { height: b.number, hash: hex_of(b.data_hash), transactions },
            ),
            Err(e) => Err(e),
        },
    }
}

/// Reads the validation code of the transaction at `idx`.
pub fn transaction_validity(filter: &[u8], idx: usize) -> (r: Result<bool, ValidationIndexError>)
    ensures
        r == validity_spec(filter@, idx as int),
{
    if idx < filter.len() {
        Ok(filter[idx] == VALID_CODE)
    } else {
        Err(ValidationIndexError::OutOfRange)
    }
}

/// Decodes the records inside one transaction action.
pub fn check_action(a: &TransactionAction) -> (r: Result<(), DecodeError>)
    ensures
        match action_check(a@) {
            Some(s) => r == Err::<(), DecodeError>(DecodeError::Malformed(s)),
            None => r is Ok,
        },
{
    let ap = decode_action_payload(a.payload.as_slice())?;
    let input = decode_proposal_input(ap.chaincode_proposal_payload.as_slice())?;
    let _ = decode_chaincode_input(input.as_slice())?;
    Ok(())
}

/// For an endorser transaction, decodes its payload as a transaction and the
/// records inside each of its actions.
pub fn check_endorsement(header_type: u64, payload: &[u8]) -> (r: Result<(), DecodeError>)
    ensures
        match endorsement_check(header_type, payload@) {
            Some(s) => r == Err::<(), DecodeError>(DecodeError::Malformed(s)),
            None => r is Ok,
        },
{
    if header_type % 0x1_0000_0000 != ENDORSER_TRANSACTION {
        return Ok(());
    }
    let tx = decode_transaction(payload)?;
    let ghost acts = actions_view(tx.actions@);
    let mut i: usize = 0;
    assert(acts.take(0) =~= Seq::<TransactionActionV>::empty());
    while i < tx.actions.len()
        invariant
            i <= tx.actions@.len(),
            acts == actions_view(tx.actions@),
            actions_check(acts.take(i as int)) is None,
            endorsement_check(header_type, payload@) == actions_check(acts),
        decreases tx.actions@.len() - i,
    {
        assert(acts.take(i + 1).drop_last() =~= acts.take(i as int));
        assert(acts.take(i + 1).last() == tx.actions@[i as int]@);
        match check_action(&tx.actions[i]) {
            Ok(()) => {},
            Err(e) => {
                proof {
                    lemma_actions_check_stays(acts, i as nat + 1);
                }
                return Err(e);
            },
        }
        i = i + 1;
    }
    assert(acts.take(tx.actions@.len() as int) =~= acts);
    Ok(())
}

proof fn lemma_actions_check_stays(acts: Seq<TransactionActionV>, k: nat)
    requires
        k <= acts.len(),
        actions_check(acts.take(k as int)) is Some,
    ensures
        actions_check(acts) == actions_check(acts.take(k as int)),
    decreases acts.len() - k,
{
    if k < acts.len() {
        assert(acts.take(k + 1 as int).drop_last() =~= acts.take(k as int));
        lemma_actions_check_stays(acts, k + 1);
    } else {
        assert(acts.take(k as int) =~= acts);
    }
}

/// Builds the transaction record of the envelope `env`, the one at position
/// `idx` of its block, whose validation codes are `filter`.
pub fn decode_transaction_info(env: &[u8], filter: &[u8], idx: usize) -> (r: Result<
    TransactionInfo,
    BlockError,
>)
    ensures
        match r {
            Ok(t) => tx_spec(env@, filter@, idx as int) == Ok::<TransactionInfoV, BlockError>(t@),
            Err(e) => tx_spec(env@, filter@, idx as int) == Err::<TransactionInfoV, BlockError>(e),
        },
{
    reveal(tx_spec);
    let envelope = match decode_envelope(env) {
        Ok(e) => e,
        Err(e) => return Err(BlockError::Decode(e)),
    };
    let payload = match decode_payload(envelope.payload.as_slice()) {
        Ok(p) => p,
        Err(e) => return Err(BlockError::Decode(e)),
    };
    let channel_header = match decode_channel_header(payload.header.channel_header.as_slice()) {
        Ok(h) => h,
        Err(e) => return Err(BlockError::Decode(e)),
    };
    let sig = match decode_signature_header(payload.header.signature_header.as_slice()) {
        Ok(s) => s,
        Err(e) => return Err(BlockError::Decode(e)),
    };
    let identity = match decode_identity(sig.creator.as_slice()) {
        Ok(i) => i,
        Err(e) => return Err(BlockError::Decode(e)),
    };
    let ts = channel_header.timestamp;
    if !timestamp_representable(ts.seconds, ts.nanos) {
        return Err(BlockError::Decode(DecodeError::Malformed(Step::Timestamp)));
    }
    let valid = match transaction_validity(filter, idx) {
        Ok(v) => v,
        Err(e) => return Err(BlockError::Validation(e)),
    };
    match check_endorsement(channel_header.header_type, envelope.payload.as_slice()) {
        Ok(()) => {},
        Err(e) => return Err(BlockError::Decode(e)),
    }
    Ok(TransactionInfo { valid, tx_id: channel_header.tx_id, timestamp: ts, mspid: identity.msp_id })
}

/// Decodes a whole block into a `BlockInfo`. Any error in any envelope fails
/// the whole block.
pub fn decode_block_info(bytes: &[u8]) -> (r: Result<BlockInfo, BlockError>)
    ensures
        match r {
            Ok(b) => block_info_spec(bytes@) == Ok::<BlockInfoV, BlockError>(b@),
            Err(e) => block_info_spec(bytes@) == Err::<BlockInfoV, BlockError>(e),
        },
{
    let block = match decode_block(bytes) {
        Ok(b) => b,
        Err(e) => return Err(BlockError::Decode(e)),
    };
    let empty: Vec<u8> = Vec::new();
    let filter: &[u8] = if TRANSACTIONS_FILTER < block.metadata.len() {
        block.metadata[TRANSACTIONS_FILTER].as_slice()
    } else {
        empty.as_slice()
    };
    assert(filter@ == filter_of(block@.metadata));
    let ghost envs = bytes_seqs(block.data@);
    let mut transactions: Vec<TransactionInfo> = Vec::new();
    let mut i: usize = 0;
    assert(envs.take(0) =~= Seq::<Seq<u8>>::empty());
    assert(transactions_view(transactions@) =~= Seq::<TransactionInfoV>::empty());
    while i < block.data.len()
        invariant
            i <= block.data@.len(),
            envs == bytes_seqs(block.data@),
            filter@ == filter_of(block@.metadata),
            block_spec(bytes@) == Some(block@),
            txs_spec(envs.take(i as int), filter@) == Ok::<Seq<TransactionInfoV>, BlockError>(
                transactions_view(transactions@),
            ),
        decreases block.data@.len() - i,
    {
        assert(envs.take(i + 1).drop_last() =~= envs.take(i as int));
        assert(envs.take(i + 1).last() == block.data@[i as int]@);
        match decode_transaction_info(block.data[i].as_slice(), filter, i) {
            Ok(t) => {
                let ghost before = transactions_view(transactions@);
                transactions.push(t);
                assert(transactions_view(transactions@) =~= before.push(t@));
            },
            Err(e) => {
                proof {
                    lemma_txs_err_stays(envs, filter@, i as nat + 1);
                }
                return Err(e);
            },
        }
        i = i + 1;
    }
    assert(envs.take(block.data@.len() as int) =~= envs);
    let hash = hex_encode(block.data_hash.as_slice());
    Ok(BlockInfo { height: block.number, hash, transactions })
}

proof fn lemma_txs_err_stays(envs: Seq<Seq<u8>>, filter: Seq<u8>, k: nat)
    requires
        k <= envs.len(),
        txs_spec(envs.take(k as int), filter) is Err,
    ensures
        txs_spec(envs, filter) == txs_spec(envs.take(k as int), filter),
    decreases envs.len() - k,
{
    if k < envs.len() {
        assert(envs.take(k + 1 as int).drop_last() =~= envs.take(k as int));
        lemma_txs_err_stays(envs, filter, k + 1);
    } else {
        assert(envs.take(k as int) =~= envs);
    }
}

/// Provides a convenient interface to the blocks of one channel of a node:
/// it assembles each block once and keeps it, by height, for later requests.
pub struct PeerCmd {
    /// Root of the node's project, from which the tools are found
    fabric_path: String,
    /// Blocks assembled so far
    loaded_blocks: HashMap<u64, BlockInfo>,
    /// Name of the channel to work with
    channel_name: String,
}

impl PeerCmd {
    /// The blocks assembled so far, by height.
    pub closed spec fn cached(&self) -> Map<u64, BlockInfoV> {
        Map::new(|h: u64| self.loaded_blocks@.contains_key(h), |h: u64| self.loaded_blocks@[h]@)
    }

    pub closed spec fn channel(&self) -> Seq<char> {
        self.channel_name@
    }

    pub closed spec fn project_path(&self) -> Seq<char> {
        self.fabric_path@
    }

    /// Creates a `PeerCmd` for the channel `channel_name` of the project at
    /// `fabric_path`, with no block loaded yet.
    pub fn new(fabric_path: String, channel_name: &str) -> (r: PeerCmd)
        ensures
            r.cached() == Map::<u64, BlockInfoV>::empty(),
            r.channel() == channel_name@,
            r.project_path() == fabric_path@,
    {
        let r = PeerCmd {
            fabric_path,
            loaded_blocks: HashMap::new(),
            channel_name: channel_name.to_owned(),
        };
        assert(r.cached() =~= Map::<u64, BlockInfoV>::empty());
        r
    }

    /// Name of the channel.
    pub fn channel_name(&self) -> (r: &str)
        ensures
            r@ == self.channel(),
    {
        self.channel_name.as_str()
    }

    /// Root of the project.
    pub fn fabric_path(&self) -> (r: &str)
        ensures
            r@ == self.project_path(),
    {
        self.fabric_path.as_str()
    }

    /// The block of height `height`, if it was assembled before.
    pub fn cached_block(&self, height: u64) -> (r: Option<BlockInfo>)
        ensures
            match r {
                Some(b) => self.cached().contains_key(height) && b@ == self.cached()[height],
                None => !self.cached().contains_key(height),
            },
    {
        match self.loaded_blocks.get(&height) {
            Some(b) => Some(b.duplicate()),
            None => None,
        }
    }

    /// Assembles the block that `bytes` hold and keeps it under the height
    /// that it states. On an error nothing is kept.
    pub fn load_block(&mut self, bytes: &[u8]) -> (r: Result<BlockInfo, BlockError>)
        ensures
            final(self).channel() == old(self).channel(),
            final(self).project_path() == old(self).project_path(),
            match r {
                Ok(b) => block_info_spec(bytes@) == Ok::<BlockInfoV, BlockError>(b@)
                    && final(self).cached() == old(self).cached().insert(b.height, b@),
                Err(e) => block_info_spec(bytes@) == Err::<BlockInfoV, BlockError>(e)
                    && final(self).cached() == old(self).cached(),
            },
    {
        let block_info = decode_block_info(bytes)?;
        let kept = block_info.duplicate();
        self.loaded_blocks.insert(block_info.height, kept);
        assert(self.cached() =~= old(self).cached().insert(block_info.height, block_info@));
        Ok(block_info)
    }

    /// Gives the block of height `height`: the one kept from before if there
    /// is one, without calling `fetch`; else it calls `fetch` once for the
    /// block's bytes, assembles the block and keeps it.
    pub fn fetch_and_get_block<F: FnOnce(u64) -> Result<Vec<u8>, FetchError>>(
        &mut self,
        height: u64,
        fetch: F,
    ) -> (r: Option<BlockInfo>)
        requires
            !old(self).cached().contains_key(height) ==> fetch.requires((height,)),
        ensures
            final(self).channel() == old(self).channel(),
            final(self).project_path() == old(self).project_path(),
            cache_step(old(self).cached(), height, opt_view(r), final(self).cached()),
            old(self).cached().contains_key(height) ==> (r matches Some(b) && b@ == old(
                self,
            ).cached()[height] && final(self).cached() == old(self).cached()),
            !old(self).cached().contains_key(height) ==> match r {
                Some(b) => exists|bytes: Vec<u8>|
                    fetch.ensures((height,), Ok::<Vec<u8>, FetchError>(bytes))
                        && block_info_spec(bytes@) == Ok::<BlockInfoV, BlockError>(b@)
                        && final(self).cached() == old(self).cached().insert(b.height, b@),
                None => final(self).cached() == old(self).cached() && exists|
                    res: Result<Vec<u8>, FetchError>,
                |
                    fetch.ensures((height,), res) && match res {
                        Ok(bytes) => block_info_spec(bytes@) is Err,
                        Err(_) => true,
                    },
            },
    {
        if let Some(b) = self.cached_block(height) {
            return Some(b);
        }
        let res = fetch(height);
        match res {
            Ok(bytes) => match self.load_block(bytes.as_slice()) {
                Ok(b) => Some(b),
                Err(_) => None,
            },
            Err(_) => None,
        }
    }

    /// Whether every block kept now was kept under the same height at `before`,
    /// or was assembled from bytes that `fetch` gave and is kept under its own
    /// height; and nothing kept at `before` has gone.
    pub open spec fn kept_from<F: Fn(u64) -> Result<Vec<u8>, FetchError>>(
        &self,
        before: Map<u64, BlockInfoV>,
        fetch: F,
    ) -> bool {
        &&& forall|k: u64|
            #![trigger self.cached().contains_key(k)]
            self.cached().contains_key(k) ==> ((before.contains_key(k) && self.cached()[k]
                == before[k]) || (self.cached()[k].height == k && fetched_any(
                fetch,
                self.cached()[k],
            )))
        &&& forall|k: u64| #[trigger] before.contains_key(k) ==> self.cached().contains_key(k)
    }

    /// The blocks of heights `0` to `max_height - 1`, in order of height, each
    /// as `fetch_and_get_block` gives it; heights whose block cannot be had are
    /// left out.
    pub fn list_blocks<F: Fn(u64) -> Result<Vec<u8>, FetchError>>(
        &mut self,
        max_height: u64,
        fetch: F,
    ) -> (r: Vec<BlockInfo>)
        requires
            forall|h: u64| h < max_height ==> fetch.requires((h,)),
        ensures
            final(self).channel() == old(self).channel(),
            final(self).project_path() == old(self).project_path(),
            exists|hs: Seq<u64>| listed(old(self).cached(), fetch, max_height, hs, blocks_view(r@)),
            (forall|h: u64| h < max_height ==> old(self).cached().contains_key(h)) ==> (r@.len()
                == max_height && final(self).cached() == old(self).cached() && forall|i: int|
                0 <= i < r@.len() ==> #[trigger] r@[i]@ == old(self).cached()[i as u64]),
    {
        let mut r: Vec<BlockInfo> = Vec::new();
        let mut h: u64 = 0;
        let ghost mut hs: Seq<u64> = Seq::empty();
        let ghost all_kept = forall|k: u64| k < max_height ==> old(self).cached().contains_key(k);
        assert(blocks_view(r@) =~= Seq::<BlockInfoV>::empty());
        while h < max_height
            invariant
                h <= max_height,
                forall|k: u64| k < max_height ==> fetch.requires((k,)),
                self.channel() == old(self).channel(),
                self.project_path() == old(self).project_path(),
                self.kept_from(old(self).cached(), fetch),
                hs.len() == r@.len(),
                forall|i: int, j: int| 0 <= i < j < hs.len() ==> hs[i] < hs[j],
                forall|i: int| 0 <= i < hs.len() ==> hs[i] < h,
                forall|i: int|
                    0 <= i < hs.len() ==> answer_for(
                        old(self).cached(),
                        fetch,
                        #[trigger] hs[i],
                        blocks_view(r@)[i],
                    ),
                forall|k: u64|
                    #![trigger failed_height(old(self).cached(), fetch, k)]
                    k < h ==> (exists|i: int| 0 <= i < hs.len() && hs[i] == k) || failed_height(
                        old(self).cached(),
                        fetch,
                        k,
                    ),
                all_kept == forall|k: u64| k < max_height ==> old(self).cached().contains_key(k),
                all_kept ==> (r@.len() == h && self.cached() == old(self).cached() && forall|i: int|
                    0 <= i < r@.len() ==> #[trigger] r@[i]@ == old(self).cached()[i as u64]),
            decreases max_height - h,
        {
            let ghost mid = self.cached();
            let ghost old_hs = hs;
            let ghost old_r = blocks_view(r@);
            let got = self.fetch_and_get_block(h, &fetch);
            proof {
                if got is Some {
                    let b = got->0;
                    if !mid.contains_key(h) {
                        let bytes = choose|bytes: Vec<u8>|
                            fetch.ensures((h,), Ok::<Vec<u8>, FetchError>(bytes))
                                && block_info_spec(bytes@) == Ok::<BlockInfoV, BlockError>(b@);
                        assert(fetched_block(fetch, h, bytes, b@));
                        assert(fetched_at(fetch, h, b@));
                        assert(fetched_any(fetch, b@));
                    }
                }
                assert forall|k: u64| #[trigger] self.cached().contains_key(k) implies ((old(
                    self,
                ).cached().contains_key(k) && self.cached()[k] == old(self).cached()[k]) || (
                self.cached()[k].height == k && fetched_any(fetch, self.cached()[k]))) by {
                    if !(mid.contains_key(k) && self.cached()[k] == mid[k]) {
                        assert(self.cached()[k] == got->0@);
                    }
                }
                assert forall|k: u64| #[trigger] old(self).cached().contains_key(k) implies self.cached().contains_key(k) by {
                    assert(mid.contains_key(k));
                }
            }
            match got {
                Some(b) => {
                    proof {
                        hs = hs.push(h);
                        if mid.contains_key(h) {
                            assert(mid.contains_key(h));
                        }
                        assert(answer_for(old(self).cached(), fetch, h, b@));
                    }
                    r.push(b);
                    proof {
                        assert(blocks_view(r@) =~= old_r.push(b@));
                    }
                },
                None => {
                    proof {
                        assert(!mid.contains_key(h));
                        assert(!old(self).cached().contains_key(h));
                        let res = choose|res: Result<Vec<u8>, FetchError>|
                            fetch.ensures((h,), res) && match res {
                                Ok(bytes) => block_info_spec(bytes@) is Err,
                                Err(_) => true,
                            };
                        assert(fetch_failed(fetch, h, res));
                        assert(failed_height(old(self).cached(), fetch, h));
                    }
                },
            }
            proof {
                assert forall|i: int| 0 <= i < hs.len() implies answer_for(
                    old(self).cached(),
                    fetch,
                    #[trigger] hs[i],
                    blocks_view(r@)[i],
                ) by {
                    if i < old_hs.len() {
                        assert(hs[i] == old_hs[i]);
                        assert(blocks_view(r@)[i] == old_r[i]);
                    }
                }
                assert forall|k: u64| k < h + 1 implies (exists|i: int|
                    0 <= i < hs.len() && hs[i] == k) || #[trigger] failed_height(
                    old(self).cached(),
                    fetch,
                    k,
                ) by {
                    if k < h && !failed_height(old(self).cached(), fetch, k) {
                        let i = choose|i: int| 0 <= i < old_hs.len() && old_hs[i] == k;
                        assert(hs[i] == k);
                    } else if k == h && got is Some {
                        assert(hs[hs.len() - 1] == k);
                    }
                }
            }
            h = h + 1;
        }
        proof {
            assert(listed(old(self).cached(), fetch, max_height, hs, blocks_view(r@)));
        }
        r
    }
}

pub open spec fn opt_view(r: Option<BlockInfo>) -> Option<BlockInfoV> {
    match r {
        Some(b) => Some(b@),
        None => None,
    }
}

/// How a request for `height` moves the kept blocks from `before` to `after`
/// when it answers `r`: a kept block is answered as it is and nothing changes;
/// otherwise a block answered is kept under its own height, and no answer
/// changes nothing.
pub open spec fn cache_step(
    before: Map<u64, BlockInfoV>,
    height: u64,
    r: Option<BlockInfoV>,
    after: Map<u64, BlockInfoV>,
) -> bool {
    if before.contains_key(height) {
        r == Some(before[height]) && after == before
    } else {
        match r {
            Some(b) => after == before.insert(b.height, b),
            None => after == before,
        }
    }
}

/// Asking twice for the same height, where the first answer is a block of
/// that height, gives the same block the second time and leaves the kept
/// blocks as they were, whatever the source of blocks would do then.
pub proof fn repeated_request_is_stable(
    c0: Map<u64, BlockInfoV>,
    c1: Map<u64, BlockInfoV>,
    c2: Map<u64, BlockInfoV>,
    height: u64,
    b: BlockInfoV,
    r2: Option<BlockInfoV>,
)
    requires
        cache_step(c0, height, Some(b), c1),
        b.height == height,
        cache_step(c1, height, r2, c2),
    ensures
        r2 == Some(b),
        c2 == c1,
{
}

/// Whether the bytes `bytes`, which `fetch` may give for height `h`, hold the
/// block `b`.
pub open spec fn fetched_block<F: Fn(u64) -> Result<Vec<u8>, FetchError>>(
    fetch: F,
    h: u64,
    bytes: Vec<u8>,
    b: BlockInfoV,
) -> bool {
    fetch.ensures((h,), Ok::<Vec<u8>, FetchError>(bytes)) && block_info_spec(bytes@) == Ok::<
        BlockInfoV,
        BlockError,
    >(b)
}

pub open spec fn blocks_view(v: Seq<BlockInfo>) -> Seq<BlockInfoV> {
    v.map_values(|b: BlockInfo| b@)
}

/// Whether `fetch` may give, for height `h`, bytes that hold the block `b`.
pub open spec fn fetched_at<F: Fn(u64) -> Result<Vec<u8>, FetchError>>(
    fetch: F,
    h: u64,
    b: BlockInfoV,
) -> bool {
    exists|bytes: Vec<u8>| #[trigger] fetched_block(fetch, h, bytes, b)
}

/// Whether `fetch` may give, for some height, bytes that hold the block `b`.
pub open spec fn fetched_any<F: Fn(u64) -> Result<Vec<u8>, FetchError>>(
    fetch: F,
    b: BlockInfoV,
) -> bool {
    exists|h: u64, bytes: Vec<u8>| #[trigger] fetched_block(fetch, h, bytes, b)
}

/// Whether `res` is an outcome that `fetch` may give for height `h` from which
/// no block can be had: an error, or bytes that do not hold a block.
pub open spec fn fetch_failed<F: Fn(u64) -> Result<Vec<u8>, FetchError>>(
    fetch: F,
    h: u64,
    res: Result<Vec<u8>, FetchError>,
) -> bool {
    fetch.ensures((h,), res) && match res {
        Ok(bytes) => block_info_spec(bytes@) is Err,
        Err(_) => true,
    }
}

/// Whether `b` may answer a request for height `h`: the block kept for `h` at
/// `before`, a block that `fetch` gives for `h`, or a block of height `h` that
/// `fetch` gave for some request and that was kept under its height.
pub open spec fn answer_for<F: Fn(u64) -> Result<Vec<u8>, FetchError>>(
    before: Map<u64, BlockInfoV>,
    fetch: F,
    h: u64,
    b: BlockInfoV,
) -> bool {
    (before.contains_key(h) && before[h] == b) || fetched_at(fetch, h, b) || (b.height == h
        && fetched_any(fetch, b))
}

/// Whether a request for height `h` may give nothing: no block was kept for it
/// at `before`, and `fetch` may give an outcome for it with no block in it.
pub open spec fn failed_height<F: Fn(u64) -> Result<Vec<u8>, FetchError>>(
    before: Map<u64, BlockInfoV>,
    fetch: F,
    h: u64,
) -> bool {
    !before.contains_key(h) && exists|res: Result<Vec<u8>, FetchError>|
        #[trigger] fetch_failed(fetch, h, res)
}

/// Whether `r` lists, for the heights `hs` in increasing order below
/// `max_height`, one answer each, and every other height below `max_height`
/// gave nothing.
pub open spec fn listed<F: Fn(u64) -> Result<Vec<u8>, FetchError>>(
    before: Map<u64, BlockInfoV>,
    fetch: F,
    max_height: u64,
    hs: Seq<u64>,
    r: Seq<BlockInfoV>,
) -> bool {
    &&& hs.len() == r.len()
    &&& forall|i: int, j: int| 0 <= i < j < hs.len() ==> hs[i] < hs[j]
    &&& forall|i: int| 0 <= i < hs.len() ==> hs[i] < max_height
    &&& forall|i: int| 0 <= i < hs.len() ==> answer_for(before, fetch, #[trigger] hs[i], r[i])
    &&& forall|k: u64|
        #![trigger failed_height(before, fetch, k)]
        k < max_height ==> (exists|i: int| 0 <= i < hs.len() && hs[i] == k) || failed_height(
            before,
            fetch,
            k,
        )
}

/// Position of the first `{` in a tool's output, where the JSON text starts.
pub fn json_start(out: &[u8]) -> (r: Option<usize>)
    ensures
        match r {
            Some(i) => i < out@.len() && out@[i as int] == 123u8 && forall|j: int|
                0 <= j < i ==> out@[j] != 123u8,
            None => forall|j: int| 0 <= j < out@.len() ==> out@[j] != 123u8,
        },
{
    let mut i: usize = 0;
    while i < out.len()
        invariant
            i <= out@.len(),
            forall|j: int| 0 <= j < i ==> out@[j] != 123u8,
        decreases out@.len() - i,
    {
        if out[i] == 123u8 {
            return Some(i);
        }
        i = i + 1;
    }
    None
}

proof fn lemma_txs_ok(envs: Seq<Seq<u8>>, filter: Seq<u8>)
    requires
        txs_spec(envs, filter) is Ok,
    ensures
        txs_spec(envs, filter) matches Ok(txs) && txs.len() == envs.len() && forall|k: int|
            0 <= k < envs.len() ==> tx_spec(#[trigger] envs[k], filter, k)
                == Ok::<TransactionInfoV, BlockError>(txs[k]),
    decreases envs.len(),
{
    if envs.len() > 0 {
        let prev = envs.drop_last();
        lemma_txs_ok(prev, filter);
        let ptxs = txs_spec(prev, filter)->Ok_0;
        let t = tx_spec(envs.last(), filter, envs.len() - 1)->Ok_0;
        let txs = txs_spec(envs, filter)->Ok_0;
        assert(txs == ptxs.push(t));
        assert forall|k: int| 0 <= k < envs.len() implies tx_spec(#[trigger] envs[k], filter, k)
            == Ok::<TransactionInfoV, BlockError>(txs[k]) by {
            if k < prev.len() {
                assert(envs[k] == prev[k]);
            }
        }
    }
}

proof fn lemma_tx_ok_in_filter(env: Seq<u8>, filter: Seq<u8>, idx: int)
    requires
        tx_spec(env, filter, idx) is Ok,
    ensures
        0 <= idx < filter.len(),
        tx_spec(env, filter, idx) matches Ok(t) && t.valid == (filter[idx] == VALID_CODE),
        envelope_spec(env) is Some,
{
    reveal(tx_spec);
}

/// Every transaction of an assembled block stands for the envelope at the
/// same position, and is valid exactly when the validation code at that
/// position is the code of a valid transaction.
pub proof fn block_transactions_follow_filter(bytes: Seq<u8>)
    requires
        block_info_spec(bytes) is Ok,
    ensures
        block_spec(bytes) matches Some(b) && block_info_spec(bytes) matches Ok(info)
            && info.transactions.len() == b.data.len() && forall|i: int|
            0 <= i < b.data.len() ==> (#[trigger] info.transactions[i]).valid == (filter_of(
                b.metadata,
            )[i] == VALID_CODE),
{
    let b = block_spec(bytes)->0;
    let filter = filter_of(b.metadata);
    lemma_txs_ok(b.data, filter);
    let txs = txs_spec(b.data, filter)->Ok_0;
    assert forall|i: int| 0 <= i < b.data.len() implies (#[trigger] txs[i]).valid == (
    filter[i] == VALID_CODE) by {
        lemma_tx_ok_in_filter(b.data[i], filter, i);
    }
}

/// A block whose validation codes are fewer than its envelopes cannot be
/// assembled.
pub proof fn short_filter_fails_block(bytes: Seq<u8>)
    requires
        block_spec(bytes) matches Some(b) && filter_of(b.metadata).len() < b.data.len(),
    ensures
        block_info_spec(bytes) is Err,
{
    let b = block_spec(bytes)->0;
    let filter = filter_of(b.metadata);
    if txs_spec(b.data, filter) is Ok {
        lemma_txs_ok(b.data, filter);
        let k = b.data.len() - 1;
        lemma_tx_ok_in_filter(b.data[k], filter, k);
    }
}

/// A block with one envelope that cannot be read, wherever it stands, cannot
/// be assembled.
pub proof fn malformed_envelope_fails_block(bytes: Seq<u8>, k: int)
    requires
        block_spec(bytes) matches Some(b) && 0 <= k < b.data.len() && envelope_spec(
            b.data[k],
        ) is None,
    ensures
        block_info_spec(bytes) is Err,
{
    let b = block_spec(bytes)->0;
    let filter = filter_of(b.metadata);
    if txs_spec(b.data, filter) is Ok {
        lemma_txs_ok(b.data, filter);
        lemma_tx_ok_in_filter(b.data[k], filter, k);
    }
}

} // verus!
