use vstd::prelude::*;
use crate::block::Block;
use crate::blockchain::{after_block_from_network, after_task_from_network, after_validation, credit_all, credit_one, credited, distinct, known, mine_outcome, settled, owed, pooled, submit_outcome, task_ids, validation_pass, well_formed, LedgerError, LedgerView};
use crate::compliance::{claim_of, device_key, verdict, ClaimKind, ClaimView, Rejection};
use crate::transaction::{TaskStatus, Transaction};
use crate::wallet::{addresses, balance_of, index_of, lemma_index_of, Wallet};

verus! {

/// Changing one wallet's balances keeps every address where it was.
proof fn lemma_update_keeps_index(ws: Seq<Wallet>, i: int, w: Wallet, a: Seq<char>)
    requires
        0 <= i < ws.len(),
        w.address == ws[i].address,
    ensures
        addresses(ws.update(i, w)) == addresses(ws),
        index_of(addresses(ws.update(i, w)), a) == index_of(addresses(ws), a),
{
    assert(addresses(ws.update(i, w)) =~= addresses(ws));
}

/// A successful submission withholds exactly the stake from the submitting wallet.
pub proof fn lemma_submission_withholds_stake(
    v0: LedgerView,
    v1: LedgerView,
    addr: Seq<char>,
    name: String,
    meta: String,
    r: Result<Transaction, LedgerError>,
)
    requires
        submit_outcome(v0, v1, addr, name, meta, r),
        r is Ok,
    ensures
        balance_of(v0.wallets, addr) is Some,
        balance_of(v1.wallets, addr) == Some((balance_of(v0.wallets, addr)->0 - v0.stake) as u64),
{
    let i = index_of(addresses(v0.wallets), addr);
    lemma_index_of(addresses(v0.wallets), addr);
    let w = v0.wallets[i];
    let w2 = Wallet { balance_yuki: (w.balance_yuki - v0.stake) as u64, ..w };
    lemma_update_keeps_index(v0.wallets, i, w2, addr);
}

/// Mining a pool credits a wallet with reward and stake for each of its claims, and
/// with nothing else, so long as the sum fits in a `u64`.
pub proof fn lemma_mining_pays_reward_and_stake(ws: Seq<Wallet>, pool: Seq<Transaction>, addr: Seq<char>, stake: u64)
    requires
        balance_of(ws, addr) is Some,
        balance_of(ws, addr)->0 + owed(pool, addr, stake) <= u64::MAX,
    ensures
        balance_of(credit_all(ws, pool, stake), addr) == Some(
            (balance_of(ws, addr)->0 + owed(pool, addr, stake)) as u64,
        ),
    decreases pool.len(),
{
    if pool.len() > 0 {
        let t = pool.last();
        let ws1 = credit_one(ws, t, stake);
        let i = index_of(addresses(ws), t.sender@);
        let k = index_of(addresses(ws), addr);
        lemma_index_of(addresses(ws), addr);
        lemma_index_of(addresses(ws), t.sender@);
        lemma_owed_nonneg(pool.drop_last(), addr, stake);
        if i >= 0 {
            let w2 = Wallet { balance_yuki: credited(ws[i].balance_yuki, t.amount, stake), ..ws[i] };
            lemma_update_keeps_index(ws, i, w2, addr);
            if t.sender@ == addr {
                assert(i == k);
            } else {
                assert(addresses(ws)[i] == t.sender@);
                assert(addresses(ws)[k] == addr);
                assert(i != k);
            }
        } else {
            if t.sender@ == addr {
                assert(false);
            }
        }
        lemma_mining_pays_reward_and_stake(ws1, pool.drop_last(), addr, stake);
    }
}

proof fn lemma_owed_nonneg(pool: Seq<Transaction>, addr: Seq<char>, stake: u64)
    ensures
        owed(pool, addr, stake) >= 0,
    decreases pool.len(),
{
    if pool.len() > 0 {
        lemma_owed_nonneg(pool.drop_last(), addr, stake);
    }
}

/// Over the whole life of an accepted claim (submission, a validation pass, mining) the
/// submitting wallet ends with exactly the claim's reward more than it started with: the
/// stake leaves at submission and comes back, with the reward, at mining. This holds
/// when that claim is the wallet's only one awaiting mining, the tip can take one more
/// block, and the final balance fits in a `u64`.
pub proof fn lemma_successful_claim_nets_reward(
    v0: LedgerView,
    v1: LedgerView,
    v3: LedgerView,
    addr: Seq<char>,
    name: String,
    meta: String,
    r: Result<Transaction, LedgerError>,
    mined: Option<Block>,
)
    requires
        submit_outcome(v0, v1, addr, name, meta, r),
        r is Ok,
        mine_outcome(after_validation(v1), v3, mined),
        owed(after_validation(v1).mining, addr, v0.stake) == r->Ok_0.amount + v0.stake,
        v1.chain.last().index < u64::MAX,
        balance_of(v0.wallets, addr)->0 + r->Ok_0.amount <= u64::MAX,
    ensures
        balance_of(v0.wallets, addr) is Some,
        balance_of(v3.wallets, addr) == Some((balance_of(v0.wallets, addr)->0 + r->Ok_0.amount) as u64),
{
    lemma_submission_withholds_stake(v0, v1, addr, name, meta, r);
    let v2 = after_validation(v1);
    let b0 = balance_of(v0.wallets, addr)->0;
    assert(balance_of(v2.wallets, addr) == Some((b0 - v0.stake) as u64));
    if v2.mining.len() == 0 {
        assert(owed(v2.mining, addr, v0.stake) == 0);
    } else {
        lemma_mining_pays_reward_and_stake(v2.wallets, v2.mining, addr, v0.stake);
        lemma_settled_keeps_wallets(v2, v3, mined);
    }
}

proof fn lemma_settled_keeps_wallets(v2: LedgerView, v3: LedgerView, mined: Option<Block>)
    requires
        mine_outcome(v2, v3, mined),
        v2.mining.len() > 0,
        v2.chain.last().index < u64::MAX,
    ensures
        v3.wallets == credit_all(v2.wallets, v2.mining, v2.stake),
{
}

/// The task identifiers of accepted claims come from the pool.
proof fn lemma_accepted_from_pool(pool: Seq<Transaction>, auth: Seq<Seq<char>>, consumed: Seq<Seq<char>>)
    ensures
        forall|k: int| 0 <= k < validation_pass(pool, auth, consumed).accepted.len() ==> task_ids(pool).contains(
            #[trigger] task_ids(validation_pass(pool, auth, consumed).accepted)[k],
        ),
        forall|k: int| 0 <= k < validation_pass(pool, auth, consumed).results.len() ==> task_ids(pool).contains(
            (#[trigger] validation_pass(pool, auth, consumed).results[k]).0,
        ),
    decreases pool.len(),
{
    if pool.len() > 0 {
        let t = pool.last();
        let c = claim_of(t.proof_metadata@);
        let ok = verdict(c, auth, consumed) is Ok;
        let consumed1 = if ok { consumed.push(c.evidence->0) } else { consumed };
        let rest = validation_pass(pool.drop_last(), auth, consumed1);
        let o = validation_pass(pool, auth, consumed);
        lemma_accepted_from_pool(pool.drop_last(), auth, consumed1);
        assert(task_ids(pool)[pool.len() - 1] == t.task@);
        assert forall|k: int| 0 <= k < o.accepted.len() implies task_ids(pool).contains(#[trigger] task_ids(o.accepted)[k]) by {
            let j = if ok { k - 1 } else { k };
            if j >= 0 {
                assert(task_ids(o.accepted)[k] == task_ids(rest.accepted)[j]);
                let m = choose|m: int| 0 <= m < task_ids(pool.drop_last()).len() && task_ids(pool.drop_last())[m] == task_ids(rest.accepted)[j];
                assert(task_ids(pool)[m] == task_ids(pool.drop_last())[m]);
            } else {
                assert(task_ids(o.accepted)[k] == t.task@);
            }
        }
        assert forall|k: int| 0 <= k < o.results.len() implies task_ids(pool).contains((#[trigger] o.results[k]).0) by {
            if k > 0 {
                assert(o.results[k] == rest.results[k - 1]);
                let m = choose|m: int| 0 <= m < task_ids(pool.drop_last()).len() && task_ids(pool.drop_last())[m] == rest.results[k - 1].0;
                assert(task_ids(pool)[m] == task_ids(pool.drop_last())[m]);
            }
        }
    }
}

proof fn lemma_distinct_drop_last(pool: Seq<Transaction>)
    requires
        pool.len() > 0,
        distinct(task_ids(pool)),
    ensures
        distinct(task_ids(pool.drop_last())),
        !task_ids(pool.drop_last()).contains(pool.last().task@),
{
    let d = pool.drop_last();
    assert forall|i: int, j: int| 0 <= i < j < task_ids(d).len() implies task_ids(d)[i] != task_ids(d)[j] by {
        assert(task_ids(d)[i] == task_ids(pool)[i]);
        assert(task_ids(d)[j] == task_ids(pool)[j]);
    }
    if task_ids(d).contains(pool.last().task@) {
        let m = choose|m: int| 0 <= m < task_ids(d).len() && task_ids(d)[m] == pool.last().task@;
        assert(task_ids(pool)[m] == task_ids(d)[m]);
        assert(task_ids(pool)[pool.len() - 1] == pool.last().task@);
    }
}

/// A claim that a pass rejects is not among those it accepts, when the pool's task
/// identifiers are distinct.
proof fn lemma_rejected_not_accepted(pool: Seq<Transaction>, auth: Seq<Seq<char>>, consumed: Seq<Seq<char>>, k: int)
    requires
        distinct(task_ids(pool)),
        0 <= k < validation_pass(pool, auth, consumed).results.len(),
        validation_pass(pool, auth, consumed).results[k].1 == TaskStatus::Rejected,
    ensures
        !task_ids(validation_pass(pool, auth, consumed).accepted).contains(
            validation_pass(pool, auth, consumed).results[k].0,
        ),
    decreases pool.len(),
{
    let t = pool.last();
    let c = claim_of(t.proof_metadata@);
    let ok = verdict(c, auth, consumed) is Ok;
    let consumed1 = if ok { consumed.push(c.evidence->0) } else { consumed };
    let rest = validation_pass(pool.drop_last(), auth, consumed1);
    let o = validation_pass(pool, auth, consumed);
    let id = o.results[k].0;
    lemma_distinct_drop_last(pool);
    lemma_accepted_from_pool(pool.drop_last(), auth, consumed1);
    if k == 0 {
        assert(!ok);
        assert(o.accepted == rest.accepted);
        if task_ids(rest.accepted).contains(id) {
            let m = choose|m: int| 0 <= m < task_ids(rest.accepted).len() && task_ids(rest.accepted)[m] == id;
            assert(task_ids(pool.drop_last()).contains(task_ids(rest.accepted)[m]));
        }
    } else {
        assert(o.results[k] == rest.results[k - 1]);
        lemma_rejected_not_accepted(pool.drop_last(), auth, consumed1, k - 1);
        assert(task_ids(pool.drop_last()).contains(rest.results[k - 1].0));
        if task_ids(o.accepted).contains(id) {
            let m = choose|m: int| 0 <= m < task_ids(o.accepted).len() && task_ids(o.accepted)[m] == id;
            if ok {
                if m == 0 {
                    assert(task_ids(o.accepted)[0] == t.task@);
                } else {
                    assert(task_ids(o.accepted)[m] == task_ids(rest.accepted)[m - 1]);
                }
            } else {
                assert(task_ids(o.accepted)[m] == task_ids(rest.accepted)[m]);
            }
        }
    }
}

/// A claim rejected by a validation pass forfeits its stake: the pass changes no
/// wallet, and the claim is left in neither pool, so no later mining can refund it.
pub proof fn lemma_rejected_claim_forfeits_stake(v: LedgerView, k: int)
    requires
        well_formed(v),
        0 <= k < validation_pass(v.validation, v.authorized, v.consumed).results.len(),
        validation_pass(v.validation, v.authorized, v.consumed).results[k].1 == TaskStatus::Rejected,
    ensures
        after_validation(v).wallets == v.wallets,
        !pooled(after_validation(v), validation_pass(v.validation, v.authorized, v.consumed).results[k].0),
{
    let o = validation_pass(v.validation, v.authorized, v.consumed);
    let id = o.results[k].0;
    let after = after_validation(v);
    lemma_rejected_not_accepted(v.validation, v.authorized, v.consumed, k);
    lemma_accepted_from_pool(v.validation, v.authorized, v.consumed);
    assert(task_ids(v.validation).contains(o.results[k].0));
    let j = choose|j: int| 0 <= j < task_ids(v.validation).len() && task_ids(v.validation)[j] == id;
    assert(!task_ids(v.mining).contains(task_ids(v.validation)[j]));
    assert(task_ids(after.mining) =~= task_ids(v.mining) + task_ids(o.accepted));
    if task_ids(after.mining).contains(id) {
        let m = choose|m: int| 0 <= m < task_ids(after.mining).len() && task_ids(after.mining)[m] == id;
        if m < v.mining.len() {
            assert(task_ids(v.mining)[m] == id);
        } else {
            assert(task_ids(o.accepted)[m - v.mining.len()] == id);
        }
    }
}

/// Receiving the same claim from a peer twice leaves the ledger as receiving it once.
pub proof fn lemma_task_message_idempotent(v: LedgerView, tx: Transaction)
    ensures
        after_task_from_network(after_task_from_network(v, tx), tx) == after_task_from_network(v, tx),
{
    let v1 = after_task_from_network(v, tx);
    if !known(v, tx.task@) {
        assert(task_ids(v1.validation)[v.validation.len() as int] == tx.task@);
    }
}

/// Receiving the same block from a peer twice leaves the ledger as receiving it once: once
/// appended, the block is the tip, and its own index is not the one after the tip's.
pub proof fn lemma_block_message_idempotent(v: LedgerView, b: Block)
    ensures
        after_block_from_network(after_block_from_network(v, b), b) == after_block_from_network(v, b),
{
}

/// A claim whose evidence token is already consumed is rejected as a replay, unless an
/// earlier rule (recognition, origin) rejects it first.
pub proof fn lemma_consumed_evidence_is_replay(c: ClaimView, authorized: Seq<Seq<char>>, consumed: Seq<Seq<char>>)
    requires
        c.kind != ClaimKind::Unrecognized,
        device_key(c.kind) is Some ==> c.device_id is Some && authorized.contains(c.device_id->0),
        c.evidence is Some,
        consumed.contains(c.evidence->0),
    ensures
        verdict(c, authorized, consumed) == Err::<(), Rejection>(Rejection::ReplayDetected),
{
}

/// The evidence token of an accepted claim.
pub open spec fn evidence_of(t: Transaction) -> Seq<char> {
    claim_of(t.proof_metadata@).evidence->0
}

/// In a validation pass, every accepted claim has an evidence token that was not
/// consumed before the pass and is consumed after it, and no two accepted claims share
/// one: of two claims with the same token, the one judged later is a replay.
pub proof fn lemma_accepted_evidence_unique(pool: Seq<Transaction>, auth: Seq<Seq<char>>, consumed: Seq<Seq<char>>)
    ensures
        forall|k: int| 0 <= k < validation_pass(pool, auth, consumed).accepted.len() ==> {
            let t = #[trigger] validation_pass(pool, auth, consumed).accepted[k];
            &&& claim_of(t.proof_metadata@).evidence is Some
            &&& !consumed.contains(evidence_of(t))
            &&& validation_pass(pool, auth, consumed).consumed.contains(evidence_of(t))
        },
        forall|i: int, j: int| 0 <= i < j < validation_pass(pool, auth, consumed).accepted.len() ==> evidence_of(
            #[trigger] validation_pass(pool, auth, consumed).accepted[i],
        ) != evidence_of(#[trigger] validation_pass(pool, auth, consumed).accepted[j]),
        forall|s: Seq<char>| consumed.contains(s) ==> validation_pass(pool, auth, consumed).consumed.contains(s),
    decreases pool.len(),
{
    if pool.len() > 0 {
        let t = pool.last();
        let c = claim_of(t.proof_metadata@);
        let ok = verdict(c, auth, consumed) is Ok;
        let consumed1 = if ok { consumed.push(c.evidence->0) } else { consumed };
        let rest = validation_pass(pool.drop_last(), auth, consumed1);
        let o = validation_pass(pool, auth, consumed);
        lemma_accepted_evidence_unique(pool.drop_last(), auth, consumed1);
        assert forall|s: Seq<char>| consumed.contains(s) implies consumed1.contains(s) by {
            if ok {
                let m = choose|m: int| 0 <= m < consumed.len() && consumed[m] == s;
                assert(consumed1[m] == s);
            }
        }
        if ok {
            let t2 = Transaction { status: TaskStatus::Validated, ..t };
            assert(o.accepted[0] == t2);
            assert(evidence_of(t2) == c.evidence->0);
            assert(consumed1[consumed.len() as int] == c.evidence->0);
            assert(consumed1.contains(evidence_of(t2)));
            assert forall|k: int| 0 <= k < o.accepted.len() implies {
                let a = #[trigger] o.accepted[k];
                &&& claim_of(a.proof_metadata@).evidence is Some
                &&& !consumed.contains(evidence_of(a))
                &&& o.consumed.contains(evidence_of(a))
            } by {
                if k > 0 {
                    assert(o.accepted[k] == rest.accepted[k - 1]);
                }
            }
            assert forall|i: int, j: int| 0 <= i < j < o.accepted.len() implies evidence_of(
                #[trigger] o.accepted[i],
            ) != evidence_of(#[trigger] o.accepted[j]) by {
                assert(o.accepted[j] == rest.accepted[j - 1]);
                if i > 0 {
                    assert(o.accepted[i] == rest.accepted[i - 1]);
                }
            }
        } else {
            assert(o.accepted == rest.accepted);
        }
    }
}

/// Mining a non-empty pool, on a tip that can take one more block, makes a block that
/// records every drained claim, and credits each wallet here with reward and stake for
/// each of its claims, so long as the sum fits in a `u64`.
pub proof fn lemma_mining_credits_every_wallet(v0: LedgerView, v1: LedgerView, mined: Option<Block>, addr: Seq<char>)
    requires
        mine_outcome(v0, v1, mined),
        v0.mining.len() > 0,
        v0.chain.last().index < u64::MAX,
        balance_of(v0.wallets, addr) is Some,
        balance_of(v0.wallets, addr)->0 + owed(v0.mining, addr, v0.stake) <= u64::MAX,
    ensures
        mined is Some,
        mined->0.transactions@ == settled(v0.mining),
        balance_of(v1.wallets, addr) == Some(
            (balance_of(v0.wallets, addr)->0 + owed(v0.mining, addr, v0.stake)) as u64,
        ),
{
    lemma_mining_pays_reward_and_stake(v0.wallets, v0.mining, addr, v0.stake);
}

/// A claim as a validation pass accepts it.
pub open spec fn validated(t: Transaction) -> Transaction {
    Transaction { status: TaskStatus::Validated, ..t }
}

/// Each accepted claim is a claim of the pool, marked validated; each claim reported
/// validated is among the accepted ones.
proof fn lemma_pass_accepts_pool_claims(pool: Seq<Transaction>, auth: Seq<Seq<char>>, consumed: Seq<Seq<char>>)
    ensures
        forall|k: int| 0 <= k < validation_pass(pool, auth, consumed).accepted.len() ==> exists|m: int|
            0 <= m < pool.len() && #[trigger] validation_pass(pool, auth, consumed).accepted[k] == validated(
                pool[m],
            ),
        forall|k: int| 0 <= k < validation_pass(pool, auth, consumed).results.len() && (
        #[trigger] validation_pass(pool, auth, consumed).results[k]).1 == TaskStatus::Validated
            ==> task_ids(validation_pass(pool, auth, consumed).accepted).contains(
            validation_pass(pool, auth, consumed).results[k].0,
        ),
    decreases pool.len(),
{
    if pool.len() > 0 {
        let t = pool.last();
        let c = claim_of(t.proof_metadata@);
        let ok = verdict(c, auth, consumed) is Ok;
        let consumed1 = if ok { consumed.push(c.evidence->0) } else { consumed };
        let d = pool.drop_last();
        let rest = validation_pass(d, auth, consumed1);
        let o = validation_pass(pool, auth, consumed);
        lemma_pass_accepts_pool_claims(d, auth, consumed1);
        assert forall|k: int| 0 <= k < o.accepted.len() implies exists|m: int|
            0 <= m < pool.len() && #[trigger] o.accepted[k] == validated(pool[m]) by {
            if ok && k == 0 {
                assert(o.accepted[0] == validated(pool[pool.len() - 1]));
            } else {
                let kk = if ok { k - 1 } else { k };
                assert(o.accepted[k] == rest.accepted[kk]);
                let m = choose|m: int| 0 <= m < d.len() && rest.accepted[kk] == validated(d[m]);
                assert(pool[m] == d[m]);
            }
        }
        assert forall|k: int| 0 <= k < o.results.len() && (#[trigger] o.results[k]).1 == TaskStatus::Validated
            implies task_ids(o.accepted).contains(o.results[k].0) by {
            if k == 0 {
                assert(ok);
                assert(task_ids(o.accepted)[0] == t.task@);
            } else {
                assert(o.results[k] == rest.results[k - 1]);
                let q = choose|q: int| 0 <= q < task_ids(rest.accepted).len() && task_ids(rest.accepted)[q] == rest.results[k - 1].0;
                let qq = if ok { q + 1 } else { q };
                assert(task_ids(o.accepted)[qq] == task_ids(rest.accepted)[q]);
            }
        }
    }
}

/// Of two claims in a pool that carry the same evidence token, a validation pass reports
/// at most one as validated, whatever their order of arrival: the other is judged after
/// the token is consumed.
pub proof fn lemma_shared_evidence_not_both_validated(
    pool: Seq<Transaction>,
    auth: Seq<Seq<char>>,
    consumed: Seq<Seq<char>>,
    i: int,
    j: int,
)
    requires
        distinct(task_ids(pool)),
        0 <= i < pool.len(),
        0 <= j < pool.len(),
        i != j,
        claim_of(pool[i].proof_metadata@).evidence == claim_of(pool[j].proof_metadata@).evidence,
    ensures
        !(validation_pass(pool, auth, consumed).results.contains((pool[i].task@, TaskStatus::Validated))
            && validation_pass(pool, auth, consumed).results.contains((pool[j].task@, TaskStatus::Validated))),
{
    let o = validation_pass(pool, auth, consumed);
    if o.results.contains((pool[i].task@, TaskStatus::Validated)) && o.results.contains(
        (pool[j].task@, TaskStatus::Validated),
    ) {
        lemma_pass_accepts_pool_claims(pool, auth, consumed);
        lemma_accepted_evidence_unique(pool, auth, consumed);
        let ri = choose|r: int| 0 <= r < o.results.len() && o.results[r] == (pool[i].task@, TaskStatus::Validated);
        let rj = choose|r: int| 0 <= r < o.results.len() && o.results[r] == (pool[j].task@, TaskStatus::Validated);
        assert(o.results[ri].1 == TaskStatus::Validated);
        assert(o.results[rj].1 == TaskStatus::Validated);
        let k1 = choose|k: int| 0 <= k < task_ids(o.accepted).len() && task_ids(o.accepted)[k] == pool[i].task@;
        let k2 = choose|k: int| 0 <= k < task_ids(o.accepted).len() && task_ids(o.accepted)[k] == pool[j].task@;
        let m1 = choose|m: int| 0 <= m < pool.len() && o.accepted[k1] == validated(pool[m]);
        let m2 = choose|m: int| 0 <= m < pool.len() && o.accepted[k2] == validated(pool[m]);
        assert(task_ids(pool)[m1] == task_ids(pool)[i]);
        assert(task_ids(pool)[m2] == task_ids(pool)[j]);
        assert(m1 == i);
        assert(m2 == j);
        assert(task_ids(pool)[i] != task_ids(pool)[j]);
        assert(k1 != k2);
        assert(evidence_of(o.accepted[k1]) == evidence_of(o.accepted[k2]));
        if k1 < k2 {
            assert(evidence_of(o.accepted[k1]) != evidence_of(o.accepted[k2]));
        } else {
            assert(evidence_of(o.accepted[k2]) != evidence_of(o.accepted[k1]));
        }
    }
}

} // verus!
