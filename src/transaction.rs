use vstd::prelude::*;

verus! {

/// Where a claim stands in its lifecycle.
#[derive(Debug, Clone, Copy, PartialEq, Eq, Structural)]
pub enum TaskStatus {
    PendingValidation,
    Validated,
    Rejected,
}

/// A claim of work together with the reward it carries.
#[derive(Debug)]
pub struct Transaction {
    pub sender: String,
    pub receiver: String,
    pub amount: u64,
    pub task: String,
    pub proof_metadata: String,
    pub status: TaskStatus,
}

impl Clone for Transaction {
    fn clone(&self) -> (r: Self)
        ensures
            r == *self,
    {
        Transaction {
            sender: self.sender.clone(),
            receiver: self.receiver.clone(),
            amount: self.amount,
            task: self.task.clone(),
            proof_metadata: self.proof_metadata.clone(),
            status: self.status,
        }
    }
}

impl Transaction {
    /// A fresh claim, awaiting validation.
    pub fn new(sender: String, receiver: String, amount: u64, task: String, proof_metadata: String) -> (r: Self)
        ensures
            r.sender == sender,
            r.receiver == receiver,
            r.amount == amount,
            r.task == task,
            r.proof_metadata == proof_metadata,
            r.status == TaskStatus::PendingValidation,
    {
        Transaction { sender, receiver, amount, task, proof_metadata, status: TaskStatus::PendingValidation }
    }
}

/// Copies a sequence of transactions.
pub fn clone_transactions(v: &Vec<Transaction>) -> (r: Vec<Transaction>)
    ensures
        r@ == v@,
{
    let mut r: Vec<Transaction> = Vec::new();
    let mut i: usize = 0;
    while i < v.len()
        invariant
            i <= v.len(),
            r@ == v@.subrange(0, i as int),
        decreases v.len() - i,
    {
        r.push(v[i].clone());
        proof { assert(r@ =~= v@.subrange(0, i as int + 1)); }
        i = i + 1;
    }
    proof { assert(v@.subrange(0, v@.len() as int) =~= v@); }
    r
}

} // verus!
