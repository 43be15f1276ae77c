//! What the library hands out: transactions, blocks and channel summaries.
use crate::messages::Timestamp;
use vstd::prelude::*;

verus! {

/// Contains information about a transaction.
#[derive(Clone, Debug)]
pub struct TransactionInfo {
    pub valid: bool,
    pub tx_id: String,
    pub timestamp: Timestamp,
    pub mspid: String,
}

pub struct TransactionInfoV {
    pub valid: bool,
    pub tx_id: Seq<char>,
    pub timestamp: Timestamp,
    pub mspid: Seq<char>,
}

impl View for TransactionInfo {
    type V = TransactionInfoV;

    open spec fn view(&self) -> TransactionInfoV {
        TransactionInfoV {
            valid: self.valid,
            tx_id: self.tx_id@,
            timestamp: self.timestamp,
            mspid: self.mspid@,
        }
    }
}

impl TransactionInfo {
    /// A copy with the same contents.
    pub fn duplicate(&self) -> (r: TransactionInfo)
        ensures
            r@ == self@,
    {
        TransactionInfo {
            valid: self.valid,
            tx_id: self.tx_id.clone(),
            timestamp: self.timestamp,
            mspid: self.mspid.clone(),
        }
    }
}

/// Contains information about a channel.
#[derive(Clone, Debug)]
pub struct ChannelInfo {
    pub height: u64,
    pub current_block_hash: String,
    pub previous_block_hash: String,
}

/// Contains information about a block.
#[derive(Clone, Debug)]
pub struct BlockInfo {
    pub height: u64,
    pub hash: String,
    pub transactions: Vec<TransactionInfo>,
}

pub struct BlockInfoV {
    pub height: u64,
    pub hash: Seq<char>,
    pub transactions: Seq<TransactionInfoV>,
}

pub open spec fn transactions_view(v: Seq<TransactionInfo>) -> Seq<TransactionInfoV> {
    v.map_values(|t: TransactionInfo| t@)
}

impl View for BlockInfo {
    type V = BlockInfoV;

    open spec fn view(&self) -> BlockInfoV {
        BlockInfoV {
            height: self.height,
            hash: self.hash@,
            transactions: transactions_view(self.transactions@),
        }
    }
}

impl BlockInfo {
    /// A copy with the same contents.
    pub fn duplicate(&self) -> (r: BlockInfo)
        ensures
            r@ == self@,
    {
        let mut transactions: Vec<TransactionInfo> = Vec::new();
        let mut i: usize = 0;
        while i < self.transactions.len()
            invariant
                i <= self.transactions@.len(),
                transactions_view(transactions@) =~= transactions_view(
                    self.transactions@.take(i as int),
                ),
            decreases self.transactions@.len() - i,
        {
            let t = self.transactions[i].duplicate();
            let ghost before = transactions_view(transactions@);
            transactions.push(t);
            assert(transactions_view(transactions@) =~= before.push(t@));
            assert(self.transactions@.take(i + 1) =~= self.transactions@.take(i as int).push(
                self.transactions@[i as int],
            ));
            assert(transactions_view(self.transactions@.take(i + 1)) =~= transactions_view(
                self.transactions@.take(i as int),
            ).push(self.transactions@[i as int]@));
            i = i + 1;
        }
        assert(self.transactions@.take(self.transactions@.len() as int) =~= self.transactions@);
        BlockInfo { height: self.height, hash: self.hash.clone(), transactions }
    }
}

} // verus!
