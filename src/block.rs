use vstd::prelude::*;
use vstd::string::StringExecFns;
use crate::digest::{
    append_decimal, append_signed_decimal, decimal_of, hash_data, hex_of, sha256_of_text,
    signed_decimal_of,
};
use crate::transaction::{clone_transactions, TaskStatus, Transaction};

verus! {

/// A link of the chain: its position, when it was made, the settled claims it carries,
/// and the hashes that tie it to its predecessor.
#[derive(Debug)]
pub struct Block {
    pub index: u64,
    pub timestamp: i64,
    pub transactions: Vec<Transaction>,
    pub previous_hash: String,
    pub hash: String,
}

impl Clone for Block {
    fn clone(&self) -> (r: Self)
        ensures
            r.index == self.index,
            r.timestamp == self.timestamp,
            r.transactions@ == self.transactions@,
            r.previous_hash == self.previous_hash,
            r.hash == self.hash,
    {
        Block {
            index: self.index,
            timestamp: self.timestamp,
            transactions: clone_transactions(&self.transactions),
            previous_hash: self.previous_hash.clone(),
            hash: self.hash.clone(),
        }
    }
}

/// A message exchanged between peers.
#[derive(Debug)]
pub enum NetworkMessage {
    Block(Block),
    Transaction(Transaction),
    ValidationResult(String, TaskStatus),
}

pub open spec fn status_name(s: TaskStatus) -> Seq<char> {
    match s {
        TaskStatus::PendingValidation => "PendingValidation"@,
        TaskStatus::Validated => "Validated"@,
        TaskStatus::Rejected => "Rejected"@,
    }
}

/// The text of one transaction inside a block's hashed content.
pub open spec fn transaction_text(t: Transaction) -> Seq<char> {
    "{"@ + t.sender@ + "|"@ + t.receiver@ + "|"@ + decimal_of(t.amount as nat) + "|"@ + t.task@
        + "|"@ + t.proof_metadata@ + "|"@ + status_name(t.status) + "}"@
}

pub open spec fn transactions_text(txs: Seq<Transaction>) -> Seq<char>
    decreases txs.len(),
{
    if txs.len() == 0 {
        Seq::empty()
    } else {
        transactions_text(txs.drop_last()) + transaction_text(txs.last())
    }
}

/// What a block's hash digests: index, timestamp, transactions and previous hash.
pub open spec fn block_content(
    index: u64,
    timestamp: i64,
    txs: Seq<Transaction>,
    previous_hash: Seq<char>,
) -> Seq<char> {
    decimal_of(index as nat) + signed_decimal_of(timestamp as int) + transactions_text(txs)
        + previous_hash
}

/// The hash a block with these contents carries.
pub open spec fn block_hash(
    index: u64,
    timestamp: i64,
    txs: Seq<Transaction>,
    previous_hash: Seq<char>,
) -> Seq<char> {
    hex_of(sha256_of_text(block_content(index, timestamp, txs, previous_hash)))
}

/// Relies on `chrono::Utc::now` and `DateTime::timestamp`: the current time in seconds
/// since the Unix epoch.
#[verifier::external_body]
fn now_timestamp() -> (r: i64) {
    chrono::Utc::now().timestamp()
}

fn status_text(s: TaskStatus) -> (r: &'static str)
    ensures
        r@ == status_name(s),
{
    match s {
        TaskStatus::PendingValidation => {
            proof { reveal_strlit("PendingValidation"); }
            "PendingValidation"
        },
        TaskStatus::Validated => { proof { reveal_strlit("Validated"); } "Validated" },
        TaskStatus::Rejected => { proof { reveal_strlit("Rejected"); } "Rejected" },
    }
}

fn append_transaction(out: &mut String, t: &Transaction)
    ensures
        final(out)@ == old(out)@ + transaction_text(*t),
{
    proof {
        reveal_strlit("{");
        reveal_strlit("|");
        reveal_strlit("}");
    }
    out.append("{");
    out.append(t.sender.as_str());
    out.append("|");
    out.append(t.receiver.as_str());
    out.append("|");
    append_decimal(out, t.amount);
    out.append("|");
    out.append(t.task.as_str());
    out.append("|");
    out.append(t.proof_metadata.as_str());
    out.append("|");
    out.append(status_text(t.status));
    out.append("}");
    assert(final(out)@ =~= old(out)@ + transaction_text(*t));
}

/// The text a block's hash digests.
pub fn content_text(index: u64, timestamp: i64, txs: &Vec<Transaction>, previous_hash: &str) -> (r:
    String)
    ensures
        r@ == block_content(index, timestamp, txs@, previous_hash@),
{
    let mut out = String::new();
    append_decimal(&mut out, index);
    append_signed_decimal(&mut out, timestamp);
    let ghost head = out@;
    let mut i: usize = 0;
    while i < txs.len()
        invariant
            i <= txs.len(),
            out@ == head + transactions_text(txs@.subrange(0, i as int)),
        decreases txs.len() - i,
    {
        append_transaction(&mut out, &txs[i]);
        proof {
            let s = txs@.subrange(0, i as int + 1);
            assert(s.drop_last() =~= txs@.subrange(0, i as int));
        }
        i = i + 1;
    }
    proof {
        assert(txs@.subrange(0, txs@.len() as int) =~= txs@);
    }
    out.append(previous_hash);
    assert(out@ =~= block_content(index, timestamp, txs@, previous_hash@));
    out
}

impl Block {
    /// A block made at a given time, hashed over its contents.
    pub fn new_at(index: u64, timestamp: i64, transactions: Vec<Transaction>, previous_hash: String) -> (r:
        Self)
        ensures
            r.index == index,
            r.timestamp == timestamp,
            r.transactions@ == transactions@,
            r.previous_hash == previous_hash,
            r.hash@ == block_hash(index, timestamp, transactions@, previous_hash@),
    {
        let text = content_text(index, timestamp, &transactions, previous_hash.as_str());
        let hash = hash_data(text.as_str());
        Block { index, timestamp, transactions, previous_hash, hash }
    }

    /// A block made now, hashed over its contents.
    pub fn new(index: u64, transactions: Vec<Transaction>, previous_hash: String) -> (r: Self)
        ensures
            r.index == index,
            r.transactions@ == transactions@,
            r.previous_hash == previous_hash,
            r.hash@ == block_hash(index, r.timestamp, transactions@, previous_hash@),
    {
        let timestamp = now_timestamp();
        Block::new_at(index, timestamp, transactions, previous_hash)
    }
}

} // verus!
