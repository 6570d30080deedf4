use vstd::prelude::*;
use crate::block::{block_hash, Block};
use crate::marketplace::Marketplace;
use crate::compliance::{claim_of, reward_for, reward_for_metadata, texts, verdict, Claim};
use crate::transaction::{TaskStatus, Transaction};
use crate::wallet::{addresses, first_at, index_of, lemma_first_unique, lemma_index_of, wallet_at, Wallet, WalletManager};

verus! {

/// What a fresh ledger withholds from a wallet per submitted claim.
pub const DEFAULT_STAKE: u64 = 500;

/// Why the ledger refused an operation.
#[derive(Debug, Clone, Copy, PartialEq, Eq, Structural)]
pub enum LedgerError {
    /// No wallet has the given address.
    WalletNotFound,
    /// The wallet holds less than the stake.
    InsufficientStake,
    /// A claim with that task identifier is already awaiting validation or mining.
    DuplicateTask,
    /// A received block does not extend the tip.
    ChainContinuityMismatch,
}

/// The state of a ledger, as its operations see it.
pub ghost struct LedgerView {
    pub chain: Seq<Block>,
    pub wallets: Seq<Wallet>,
    pub stake: u64,
    pub validation: Seq<Transaction>,
    pub mining: Seq<Transaction>,
    pub authorized: Seq<Seq<char>>,
    pub consumed: Seq<Seq<char>>,
}

/// The task identifiers of a list of claims, in order.
pub open spec fn task_ids(s: Seq<Transaction>) -> Seq<Seq<char>> {
    s.map_values(|t: Transaction| t.task@)
}

/// No identifier occurs twice.
pub open spec fn distinct(ids: Seq<Seq<char>>) -> bool {
    forall|i: int, j: int| 0 <= i < j < ids.len() ==> ids[i] != ids[j]
}

/// Each block names its predecessor's hash and carries the index after its predecessor's.
pub open spec fn chain_linked(c: Seq<Block>) -> bool {
    forall|i: int|
        0 <= i < c.len() - 1 ==> (#[trigger] c[i + 1]).previous_hash@ == c[i].hash@ && c[i + 1].index
            == c[i].index + 1
}

/// The two pools hold distinct task identifiers, none in both.
pub open spec fn pools_disjoint(validation: Seq<Transaction>, mining: Seq<Transaction>) -> bool {
    &&& distinct(task_ids(validation))
    &&& distinct(task_ids(mining))
    &&& forall|i: int| 0 <= i < validation.len() ==> !task_ids(mining).contains(#[trigger] task_ids(validation)[i])
}

/// A ledger whose chain starts somewhere and is linked, and whose pools are disjoint.
pub open spec fn well_formed(v: LedgerView) -> bool {
    &&& v.chain.len() >= 1
    &&& chain_linked(v.chain)
    &&& pools_disjoint(v.validation, v.mining)
}

/// Whether some block of the chain records a claim with a task identifier.
pub open spec fn in_chain(c: Seq<Block>, id: Seq<char>) -> bool {
    exists|i: int, j: int|
        0 <= i < c.len() && 0 <= j < c[i].transactions@.len() && (#[trigger] c[i].transactions@[j]).task@
            == id
}

/// Whether a task identifier is taken: pooled, or recorded in the chain.
pub open spec fn known(v: LedgerView, id: Seq<char>) -> bool {
    pooled(v, id) || in_chain(v.chain, id)
}

/// Whether a task identifier awaits validation or mining.
pub open spec fn pooled(v: LedgerView, id: Seq<char>) -> bool {
    task_ids(v.validation).contains(id) || task_ids(v.mining).contains(id)
}

/// The claims of `s` whose task identifier is not in `ids`, in order.
pub open spec fn without_ids(s: Seq<Transaction>, ids: Seq<Seq<char>>) -> Seq<Transaction>
    decreases s.len(),
{
    if s.len() == 0 {
        s
    } else {
        let rest = without_ids(s.drop_last(), ids);
        if ids.contains(s.last().task@) {
            rest
        } else {
            rest.push(s.last())
        }
    }
}

/// The ledger after a claim arrives from a peer: pooled for validation unless its task
/// identifier is already pooled or recorded in the chain.
pub open spec fn after_task_from_network(v: LedgerView, tx: Transaction) -> LedgerView {
    if known(v, tx.task@) {
        v
    } else {
        LedgerView { validation: v.validation.push(tx), ..v }
    }
}

/// Whether a block extends the tip: it names the tip's hash and carries the next index.
pub open spec fn extends_tip(v: LedgerView, b: Block) -> bool {
    b.previous_hash@ == v.chain.last().hash@ && b.index == v.chain.last().index + 1
}

/// The ledger after a block arrives from a peer: appended when it extends the tip, with
/// the claims it settles taken out of both pools; otherwise left as it was.
pub open spec fn after_block_from_network(v: LedgerView, b: Block) -> LedgerView {
    if extends_tip(v, b) {
        LedgerView {
            chain: v.chain.push(b),
            validation: without_ids(v.validation, task_ids(b.transactions@)),
            mining: without_ids(v.mining, task_ids(b.transactions@)),
            ..v
        }
    } else {
        v
    }
}

/// The ledger after a peer reports the outcome of validating a task: a validated claim
/// moves from the validation pool to the end of the mining pool, marked validated; a
/// rejected one leaves the validation pool; anything else changes nothing.
pub open spec fn after_status_from_network(v: LedgerView, id: Seq<char>, status: TaskStatus) -> LedgerView {
    let i = index_of(task_ids(v.validation), id);
    if i < 0 {
        v
    } else {
        match status {
            TaskStatus::Validated => LedgerView {
                validation: v.validation.remove(i),
                mining: v.mining.push(Transaction { status: TaskStatus::Validated, ..v.validation[i] }),
                ..v
            },
            TaskStatus::Rejected => LedgerView { validation: v.validation.remove(i), ..v },
            TaskStatus::PendingValidation => v,
        }
    }
}

/// What a submission does: it fails without a wallet at the address, then when the
/// wallet holds less than the stake, then when the task identifier is already pooled or
/// recorded in the chain;
/// otherwise the stake is withheld from the wallet and a claim awaiting validation, with
/// the reward that its payload earns, joins the end of the validation pool.
pub open spec fn submit_outcome(
    v0: LedgerView,
    v1: LedgerView,
    addr: Seq<char>,
    name: String,
    meta: String,
    r: Result<Transaction, LedgerError>,
) -> bool {
    match wallet_at(v0.wallets, addr) {
        None => v1 == v0 && r == Err::<Transaction, LedgerError>(LedgerError::WalletNotFound),
        Some(w) => if w.balance_yuki < v0.stake {
            v1 == v0 && r == Err::<Transaction, LedgerError>(LedgerError::InsufficientStake)
        } else if known(v0, name@) {
            v1 == v0 && r == Err::<Transaction, LedgerError>(LedgerError::DuplicateTask)
        } else {
            &&& r is Ok
            &&& r->Ok_0.sender@ == addr
            &&& r->Ok_0.receiver@ == "Protocol-Mint"@
            &&& r->Ok_0.amount == reward_for(claim_of(meta@))
            &&& r->Ok_0.task == name
            &&& r->Ok_0.proof_metadata == meta
            &&& r->Ok_0.status == TaskStatus::PendingValidation
            &&& v1 == LedgerView {
                wallets: v0.wallets.update(
                    index_of(addresses(v0.wallets), addr),
                    Wallet { balance_yuki: (w.balance_yuki - v0.stake) as u64, ..w },
                ),
                validation: v0.validation.push(r->Ok_0),
                ..v0
            }
        },
    }
}


/// What a validation pass decides: the claims it accepts (marked validated, in the order
/// they are judged), the consumed-evidence registry afterwards, and each claim's outcome.
pub ghost struct PassOutcome {
    pub accepted: Seq<Transaction>,
    pub consumed: Seq<Seq<char>>,
    pub results: Seq<(Seq<char>, TaskStatus)>,
}

/// A validation pass over a pool, judging claims from the last to the first. Each claim
/// meets the rules with the registry as the claims judged before it left it; an accepted
/// claim's evidence token joins the registry at once.
pub open spec fn validation_pass(
    pool: Seq<Transaction>,
    authorized: Seq<Seq<char>>,
    consumed: Seq<Seq<char>>,
) -> PassOutcome
    decreases pool.len(),
{
    if pool.len() == 0 {
        PassOutcome { accepted: Seq::empty(), consumed, results: Seq::empty() }
    } else {
        let t = pool.last();
        let c = claim_of(t.proof_metadata@);
        let ok = verdict(c, authorized, consumed) is Ok;
        let consumed1 = if ok {
            consumed.push(c.evidence->0)
        } else {
            consumed
        };
        let rest = validation_pass(pool.drop_last(), authorized, consumed1);
        PassOutcome {
            accepted: if ok {
                seq![Transaction { status: TaskStatus::Validated, ..t }] + rest.accepted
            } else {
                rest.accepted
            },
            consumed: rest.consumed,
            results: seq![(t.task@, if ok { TaskStatus::Validated } else { TaskStatus::Rejected })]
                + rest.results,
        }
    }
}

/// The texts of a list of reported outcomes.
pub open spec fn outcome_view(r: Seq<(String, TaskStatus)>) -> Seq<(Seq<char>, TaskStatus)> {
    r.map_values(|p: (String, TaskStatus)| (p.0@, p.1))
}

/// The ledger after a validation pass: the validation pool is empty, accepted claims
/// follow the mining pool's claims, and their evidence tokens are consumed.
pub open spec fn after_validation(v: LedgerView) -> LedgerView {
    let o = validation_pass(v.validation, v.authorized, v.consumed);
    LedgerView { validation: Seq::empty(), mining: v.mining + o.accepted, consumed: o.consumed, ..v }
}

/// A balance credited with a reward and a returned stake, held at the largest `u64`.
pub open spec fn credited(balance: u64, amount: u64, stake: u64) -> u64 {
    if balance + amount + stake > u64::MAX {
        u64::MAX
    } else {
        (balance + amount + stake) as u64
    }
}

/// The wallets after one claim is settled: its sender's wallet, if there is one, gets
/// the reward and the stake back.
pub open spec fn credit_one(ws: Seq<Wallet>, t: Transaction, stake: u64) -> Seq<Wallet> {
    let i = index_of(addresses(ws), t.sender@);
    if i >= 0 {
        ws.update(i, Wallet { balance_yuki: credited(ws[i].balance_yuki, t.amount, stake), ..ws[i] })
    } else {
        ws
    }
}

/// The wallets after a pool is settled from its last claim to its first.
pub open spec fn credit_all(ws: Seq<Wallet>, pool: Seq<Transaction>, stake: u64) -> Seq<Wallet>
    decreases pool.len(),
{
    if pool.len() == 0 {
        ws
    } else {
        credit_all(credit_one(ws, pool.last(), stake), pool.drop_last(), stake)
    }
}

/// A claim as a block records it: paid to its sender.
pub open spec fn settle(t: Transaction) -> Transaction {
    Transaction { receiver: t.sender, ..t }
}

/// The claims of a pool as a mined block records them, from the last to the first.
pub open spec fn settled(pool: Seq<Transaction>) -> Seq<Transaction>
    decreases pool.len(),
{
    if pool.len() == 0 {
        Seq::empty()
    } else {
        seq![settle(pool.last())] + settled(pool.drop_last())
    }
}

/// What mining does. With an empty mining pool, or a tip at the largest index, nothing
/// changes and no block comes. Otherwise the pool is drained, each claim's sender that has
/// a wallet here is credited with reward and stake, and a block recording every drained
/// claim is made on top of the tip and appended; a copy of it is returned.
pub open spec fn mine_outcome(v0: LedgerView, v1: LedgerView, r: Option<Block>) -> bool {
    let tip = v0.chain.last();
    if v0.mining.len() == 0 || tip.index == u64::MAX {
        v1 == v0 && r is None
    } else {
        let txs = settled(v0.mining);
        let b = v1.chain.last();
        &&& v1 == LedgerView {
            chain: v0.chain.push(b),
            wallets: credit_all(v0.wallets, v0.mining, v0.stake),
            mining: Seq::empty(),
            ..v0
        }
        &&& b.index == tip.index + 1
        &&& b.previous_hash == tip.hash
        &&& b.transactions@ == txs
        &&& b.hash@ == block_hash(b.index, b.timestamp, txs, tip.hash@)
        &&& r is Some
        &&& r->0.index == b.index
        &&& r->0.timestamp == b.timestamp
        &&& r->0.transactions@ == b.transactions@
        &&& r->0.previous_hash == b.previous_hash
        &&& r->0.hash == b.hash
    }
}

/// What a wallet has coming from a pool when it is mined: reward and stake for each of
/// its claims.
pub open spec fn owed(pool: Seq<Transaction>, addr: Seq<char>, stake: u64) -> int
    decreases pool.len(),
{
    if pool.len() == 0 {
        0
    } else {
        owed(pool.drop_last(), addr, stake) + if pool.last().sender@ == addr {
            pool.last().amount + stake
        } else {
            0
        }
    }
}

/// What a permit to emit a number of tons costs.
pub open spec fn permit_cost(tons: u64) -> int {
    tons * PERMIT_COST_PER_TON
}

/// What one ton of emission costs.
pub const PERMIT_COST_PER_TON: u64 = 100;

/// What an emission permit request does: granted when the wallet exists and holds the
/// cost, which is then burned; refused otherwise, with nothing changed.
pub open spec fn permit_outcome(v0: LedgerView, v1: LedgerView, addr: Seq<char>, tons: u64, r: bool) -> bool {
    match wallet_at(v0.wallets, addr) {
        Some(w) => if w.balance_yuki >= permit_cost(tons) {
            &&& r
            &&& v1 == LedgerView {
                wallets: v0.wallets.update(
                    index_of(addresses(v0.wallets), addr),
                    Wallet { balance_yuki: (w.balance_yuki - permit_cost(tons)) as u64, ..w },
                ),
                ..v0
            }
        } else {
            !r && v1 == v0
        },
        None => !r && v1 == v0,
    }
}

/// The ledger: the chain, the wallets, the two pools and the two registries.
pub struct Blockchain {
    pub chain: Vec<Block>,
    pub wallets: WalletManager,
    pub marketplace: Marketplace,
    pub stake_amount: u64,
    pub tasks_for_validation: Vec<Transaction>,
    pub tasks_for_mining: Vec<Transaction>,
    pub authorized_sentinels: Vec<String>,
    pub used_signatures: Vec<String>,
}

impl View for Blockchain {
    type V = LedgerView;

    open spec fn view(&self) -> LedgerView {
        LedgerView {
            chain: self.chain@,
            wallets: self.wallets@,
            stake: self.stake_amount,
            validation: self.tasks_for_validation@,
            mining: self.tasks_for_mining@,
            authorized: texts(self.authorized_sentinels@),
            consumed: texts(self.used_signatures@),
        }
    }
}

/// The first position of a task identifier in a pool.
pub fn find_task(pool: &Vec<Transaction>, id: &str) -> (r: Option<usize>)
    ensures
        match r {
            Some(i) => i as int == index_of(task_ids(pool@), id@) && i < pool@.len(),
            None => index_of(task_ids(pool@), id@) == -1 && !task_ids(pool@).contains(id@),
        },
{
    let owned = id.to_owned();
    let mut i: usize = 0;
    while i < pool.len()
        invariant
            i <= pool.len(),
            owned@ == id@,
            forall|j: int| 0 <= j < i ==> task_ids(pool@)[j] != id@,
        decreases pool.len() - i,
    {
        if pool[i].task == owned {
            proof {
                assert(first_at(task_ids(pool@), id@, i as int));
                lemma_first_unique(task_ids(pool@), id@, i as int);
            }
            return Some(i);
        }
        i = i + 1;
    }
    proof {
        lemma_index_of(task_ids(pool@), id@);
        if index_of(task_ids(pool@), id@) >= 0 {
            let k = index_of(task_ids(pool@), id@);
            assert(task_ids(pool@)[k] == id@);
        }
    }
    None
}

/// Whether a pool's task identifiers are distinct.
pub fn all_distinct(pool: &Vec<Transaction>) -> (r: bool)
    ensures
        r == distinct(task_ids(pool@)),
{
    let mut i: usize = 0;
    while i < pool.len()
        invariant
            i <= pool.len(),
            forall|a: int, b: int| 0 <= a < b < i ==> task_ids(pool@)[a] != task_ids(pool@)[b],
        decreases pool.len() - i,
    {
        let ghost ids = task_ids(pool@);
        match find_task(pool, pool[i].task.as_str()) {
            Some(k) => {
                proof { lemma_index_of(ids, ids[i as int]); }
                if k != i {
                    proof { assert(ids[k as int] == ids[i as int]); }
                    return false;
                }
            },
            None => {
                proof { assert(ids[i as int] == pool@[i as int].task@); }
                return false;
            },
        }
        i = i + 1;
    }
    true
}

/// The claims of a pool whose task identifier no claim of `settled` has.
pub fn remove_settled(pool: &Vec<Transaction>, settled: &Vec<Transaction>) -> (r: Vec<Transaction>)
    ensures
        r@ == without_ids(pool@, task_ids(settled@)),
{
    let mut r: Vec<Transaction> = Vec::new();
    let mut i: usize = 0;
    while i < pool.len()
        invariant
            i <= pool.len(),
            r@ == without_ids(pool@.subrange(0, i as int), task_ids(settled@)),
        decreases pool.len() - i,
    {
        let ghost s = pool@.subrange(0, i as int + 1);
        proof {
            assert(s.drop_last() =~= pool@.subrange(0, i as int));
        }
        if find_task(settled, pool[i].task.as_str()).is_none() {
            r.push(pool[i].clone());
        }
        i = i + 1;
    }
    proof {
        assert(pool@.subrange(0, pool@.len() as int) =~= pool@);
    }
    r
}

/// What `without_ids` keeps comes from the list, keeps no identifier of `ids`, and keeps
/// identifiers distinct.
pub proof fn lemma_without_ids(s: Seq<Transaction>, ids: Seq<Seq<char>>)
    ensures
        forall|k: int| 0 <= k < without_ids(s, ids).len() ==> task_ids(s).contains(
            #[trigger] task_ids(without_ids(s, ids))[k],
        ),
        forall|k: int| 0 <= k < without_ids(s, ids).len() ==> !ids.contains(
            #[trigger] task_ids(without_ids(s, ids))[k],
        ),
        distinct(task_ids(s)) ==> distinct(task_ids(without_ids(s, ids))),
        without_ids(s, ids).len() <= s.len(),
    decreases s.len(),
{
    if s.len() > 0 {
        let rest = without_ids(s.drop_last(), ids);
        lemma_without_ids(s.drop_last(), ids);
        let w = without_ids(s, ids);
        assert forall|k: int| 0 <= k < w.len() implies task_ids(s).contains(#[trigger] task_ids(w)[k]) by {
            if k < rest.len() {
                assert(task_ids(w)[k] == task_ids(rest)[k]);
                let j = choose|j: int| 0 <= j < s.drop_last().len() && task_ids(s.drop_last())[j] == task_ids(rest)[k];
                assert(task_ids(s)[j] == task_ids(s.drop_last())[j]);
            } else {
                assert(task_ids(s)[s.len() - 1] == task_ids(w)[k]);
            }
        }
        assert forall|k: int| 0 <= k < w.len() implies !ids.contains(#[trigger] task_ids(w)[k]) by {
            if k < rest.len() {
                assert(task_ids(w)[k] == task_ids(rest)[k]);
            }
        }
        if distinct(task_ids(s)) {
            assert(distinct(task_ids(s.drop_last()))) by {
                assert forall|i: int, j: int| 0 <= i < j < task_ids(s.drop_last()).len() implies task_ids(
                    s.drop_last(),
                )[i] != task_ids(s.drop_last())[j] by {
                    assert(task_ids(s.drop_last())[i] == task_ids(s)[i]);
                    assert(task_ids(s.drop_last())[j] == task_ids(s)[j]);
                }
            }
            assert forall|i: int, j: int| 0 <= i < j < task_ids(w).len() implies task_ids(w)[i] != task_ids(w)[j] by {
                if j < rest.len() {
                    assert(task_ids(w)[i] == task_ids(rest)[i]);
                    assert(task_ids(w)[j] == task_ids(rest)[j]);
                } else {
                    assert(task_ids(w)[j] == task_ids(s)[s.len() - 1]);
                    assert(task_ids(w)[i] == task_ids(rest)[i]);
                    let m = choose|m: int| 0 <= m < s.drop_last().len() && task_ids(s.drop_last())[m] == task_ids(rest)[i];
                    assert(task_ids(s)[m] == task_ids(s.drop_last())[m]);
                }
            }
        }
    }
}


/// Removing an entry keeps a pool's identifiers distinct, and keeps them clear of the
/// identifiers that the other pool holds.
proof fn lemma_remove_keeps_disjoint(v: Seq<Transaction>, m: Seq<Transaction>, i: int)
    requires
        pools_disjoint(v, m),
        0 <= i < v.len(),
    ensures
        pools_disjoint(v.remove(i), m),
        pools_disjoint(v.remove(i), m.push(Transaction { status: TaskStatus::Validated, ..v[i] })),
{
    let r = v.remove(i);
    let t = Transaction { status: TaskStatus::Validated, ..v[i] };
    assert forall|k: int| 0 <= k < r.len() implies #[trigger] task_ids(r)[k] == task_ids(v)[if k < i {
        k
    } else {
        k + 1
    }] by {}
    assert forall|a: int, b: int| 0 <= a < b < task_ids(r).len() implies task_ids(r)[a] != task_ids(r)[b] by {
        assert(task_ids(r)[a] == task_ids(v)[if a < i { a } else { a + 1 }]);
        assert(task_ids(r)[b] == task_ids(v)[if b < i { b } else { b + 1 }]);
    }
    let m2 = m.push(t);
    assert(task_ids(m2) =~= task_ids(m).push(v[i].task@));
    assert forall|a: int, b: int| 0 <= a < b < task_ids(m2).len() implies task_ids(m2)[a] != task_ids(m2)[b] by {
        if b == m.len() {
            assert(task_ids(m2)[a] == task_ids(m)[a]);
            assert(!task_ids(m).contains(task_ids(v)[i]));
        }
    }
    assert forall|k: int| 0 <= k < r.len() implies !task_ids(m2).contains(#[trigger] task_ids(r)[k]) by {
        let src = if k < i { k } else { k + 1 };
        assert(task_ids(r)[k] == task_ids(v)[src]);
        assert(!task_ids(m).contains(task_ids(v)[src]));
        assert(task_ids(v)[src] != task_ids(v)[i]);
        if task_ids(m2).contains(task_ids(r)[k]) {
            let j = choose|j: int| 0 <= j < task_ids(m2).len() && task_ids(m2)[j] == task_ids(r)[k];
            if j < m.len() {
                assert(task_ids(m)[j] == task_ids(m2)[j]);
            }
        }
    }
    assert forall|k: int| 0 <= k < r.len() implies !task_ids(m).contains(#[trigger] task_ids(r)[k]) by {
        let src = if k < i { k } else { k + 1 };
        assert(task_ids(r)[k] == task_ids(v)[src]);
    }
}

impl Blockchain {
    /// A ledger holding only the genesis block (previous hash "0", no transactions), no
    /// wallets, the default stake, and the factory sentinel as its one trusted device.
    pub fn new() -> (r: Self)
        ensures
            well_formed(r@),
            r@.chain.len() == 1,
            r@.chain[0].index == 0,
            r@.chain[0].previous_hash@ == "0"@,
            r@.chain[0].transactions@.len() == 0,
            r@.wallets.len() == 0,
            r@.stake == DEFAULT_STAKE,
            r@.validation.len() == 0,
            r@.mining.len() == 0,
            r@.authorized == seq!["yuki-industrial-01"@],
            r@.consumed.len() == 0,
    {
        proof {
            reveal_strlit("0");
            reveal_strlit("yuki-industrial-01");
        }
        let genesis = Block::new(0, Vec::new(), "0".to_owned());
        let mut authorized: Vec<String> = Vec::new();
        authorized.push("yuki-industrial-01".to_owned());
        let r = Blockchain {
            chain: vec![genesis],
            wallets: WalletManager::new(),
            marketplace: Marketplace::new(),
            stake_amount: DEFAULT_STAKE,
            tasks_for_validation: Vec::new(),
            tasks_for_mining: Vec::new(),
            authorized_sentinels: authorized,
            used_signatures: Vec::new(),
        };
        assert(r@.authorized =~= seq!["yuki-industrial-01"@]);
        assert(r@.consumed =~= Seq::<Seq<char>>::empty());
        r
    }

    /// Whether the ledger is well formed: a non-empty linked chain and disjoint pools.
    /// Block hashes are not recomputed: a stored chain is trusted as it stands.
    pub fn check_well_formed(&self) -> (r: bool)
        ensures
            r == well_formed(self@),
    {
        if self.chain.len() == 0 {
            return false;
        }
        let mut i: usize = 0;
        while i + 1 < self.chain.len()
            invariant
                i + 1 <= self.chain.len(),
                forall|k: int|
                    0 <= k < i ==> (#[trigger] self.chain@[k + 1]).previous_hash@ == self.chain@[k].hash@
                        && self.chain@[k + 1].index == self.chain@[k].index + 1,
            decreases self.chain.len() - i,
        {
            if self.chain[i + 1].previous_hash != self.chain[i].hash || self.chain[i].index == u64::MAX
                || self.chain[i + 1].index != self.chain[i].index + 1 {
                return false;
            }
            i = i + 1;
        }
        if !all_distinct(&self.tasks_for_validation) || !all_distinct(&self.tasks_for_mining) {
            return false;
        }
        let mut j: usize = 0;
        while j < self.tasks_for_validation.len()
            invariant
                j <= self.tasks_for_validation.len(),
                chain_linked(self.chain@),
                forall|k: int| 0 <= k < j ==> !task_ids(self.tasks_for_mining@).contains(#[trigger] task_ids(self.tasks_for_validation@)[k]),
            decreases self.tasks_for_validation.len() - j,
        {
            if find_task(&self.tasks_for_mining, self.tasks_for_validation[j].task.as_str()).is_some() {
                proof {
                    let id = task_ids(self.tasks_for_validation@)[j as int];
                    lemma_index_of(task_ids(self.tasks_for_mining@), id);
                }
                return false;
            }
            j = j + 1;
        }
        true
    }

    /// Makes a wallet from fresh random entropy; returns it with its recovery phrase.
    pub fn create_wallet(&mut self) -> (r: (Wallet, String))
        requires
            well_formed(old(self)@),
        ensures
            well_formed(final(self)@),
            final(self)@ == (LedgerView { wallets: final(self)@.wallets, ..old(self)@ }),
            r.0.balance_yuki == crate::wallet::STARTING_BALANCE,
            r.0.balance_yg == 0,
            r.0.balance_yt == 0,
            final(self)@.wallets == crate::wallet::inserted(old(self)@.wallets, r.0),
            wallet_at(final(self)@.wallets, r.0.address@) == Some(r.0),
            forall|a: Seq<char>| a != r.0.address@ ==> wallet_at(final(self)@.wallets, a) == wallet_at(old(self)@.wallets, a),
    {
        self.wallets.create_wallet()
    }

    /// One line per wallet, showing its address and balances.
    pub fn view_wallets(&self) -> (r: Vec<String>)
        ensures
            r@.len() == self@.wallets.len(),
            forall|i: int| 0 <= i < r@.len() ==> (#[trigger] r@[i])@ == crate::wallet::wallet_line(self@.wallets[i]),
    {
        self.wallets.view_wallets()
    }

    /// Whether some block of the chain records a claim with a task identifier.
    pub fn is_mined(&self, id: &str) -> (r: bool)
        ensures
            r == in_chain(self@.chain, id@),
    {
        let mut i: usize = 0;
        while i < self.chain.len()
            invariant
                i <= self.chain.len(),
                forall|k: int, j: int|
                    0 <= k < i && 0 <= j < self.chain@[k].transactions@.len() ==> (#[trigger] self.chain@[k].transactions@[j]).task@
                        != id@,
            decreases self.chain.len() - i,
        {
            if let Some(j) = find_task(&self.chain[i].transactions, id) {
                proof {
                    let ids = task_ids(self.chain@[i as int].transactions@);
                    lemma_index_of(ids, id@);
                    assert(self.chain@[i as int].transactions@[j as int].task@ == ids[j as int]);
                }
                return true;
            }
            proof {
                let txs = self.chain@[i as int].transactions@;
                assert forall|j: int| 0 <= j < txs.len() implies (#[trigger] txs[j]).task@ != id@ by {
                    assert(task_ids(txs)[j] == txs[j].task@);
                }
            }
            i = i + 1;
        }
        false
    }

    /// Whether a task identifier is pooled or recorded in the chain.
    pub fn is_known(&self, id: &str) -> (r: bool)
        ensures
            r == known(self@, id@),
    {
        self.is_pooled(id) || self.is_mined(id)
    }

    /// Whether a task identifier awaits validation or mining.
    pub fn is_pooled(&self, id: &str) -> (r: bool)
        ensures
            r == pooled(self@, id@),
    {
        find_task(&self.tasks_for_validation, id).is_some() || find_task(&self.tasks_for_mining, id).is_some()
    }

    /// Submits a claim from a wallet: withholds the stake and pools the claim, with its
    /// reward, for validation.
    pub fn submit_industrial_task(&mut self, wallet_address: &str, task_name: String, proof_metadata: String) -> (r:
        Result<Transaction, LedgerError>)
        requires
            well_formed(old(self)@),
        ensures
            well_formed(final(self)@),
            submit_outcome(old(self)@, final(self)@, wallet_address@, task_name, proof_metadata, r),
    {
        let i = match self.wallets.find(wallet_address) {
            Some(i) => i,
            None => {
                proof { lemma_index_of(addresses(self.wallets@), wallet_address@); }
                return Err(LedgerError::WalletNotFound);
            },
        };
        proof { lemma_index_of(addresses(self.wallets@), wallet_address@); }
        let balance = self.wallets.wallet(i).balance_yuki;
        if balance < self.stake_amount {
            return Err(LedgerError::InsufficientStake);
        }
        if self.is_known(task_name.as_str()) {
            return Err(LedgerError::DuplicateTask);
        }
        self.wallets.set_balance(i, balance - self.stake_amount);
        let credit = reward_for_metadata(proof_metadata.as_str());
        proof { reveal_strlit("Protocol-Mint"); }
        let tx = Transaction::new(
            wallet_address.to_owned(),
            "Protocol-Mint".to_owned(),
            credit,
            task_name,
            proof_metadata,
        );
        let ghost v = self.tasks_for_validation@;
        let ghost m = self.tasks_for_mining@;
        self.tasks_for_validation.push(tx.clone());
        proof {
            let v2 = v.push(tx);
            assert(task_ids(v2) =~= task_ids(v).push(tx.task@));
            assert forall|a: int, b: int| 0 <= a < b < task_ids(v2).len() implies task_ids(v2)[a] != task_ids(v2)[b] by {
                if b == v.len() {
                    assert(task_ids(v2)[a] == task_ids(v)[a]);
                }
            }
            assert forall|k: int| 0 <= k < v2.len() implies !task_ids(m).contains(#[trigger] task_ids(v2)[k]) by {
                if k < v.len() {
                    assert(task_ids(v2)[k] == task_ids(v)[k]);
                }
            }
        }
        Ok(tx)
    }

    /// Pools a claim received from a peer for validation, unless its task identifier is
    /// already pooled or recorded in the chain. The peer charged the stake already: no wallet changes.
    pub fn add_task_from_network(&mut self, tx: Transaction)
        requires
            well_formed(old(self)@),
        ensures
            well_formed(final(self)@),
            final(self)@ == after_task_from_network(old(self)@, tx),
    {
        if !self.is_known(tx.task.as_str()) {
            let ghost v = self.tasks_for_validation@;
            let ghost m = self.tasks_for_mining@;
            self.tasks_for_validation.push(tx);
            proof {
                let v2 = v.push(tx);
                assert(task_ids(v2) =~= task_ids(v).push(tx.task@));
                assert forall|a: int, b: int| 0 <= a < b < task_ids(v2).len() implies task_ids(v2)[a] != task_ids(v2)[b] by {
                    if b == v.len() {
                        assert(task_ids(v2)[a] == task_ids(v)[a]);
                    }
                }
                assert forall|k: int| 0 <= k < v2.len() implies !task_ids(m).contains(#[trigger] task_ids(v2)[k]) by {
                    if k < v.len() {
                        assert(task_ids(v2)[k] == task_ids(v)[k]);
                    }
                }
            }
        }
    }

    /// Applies a validation outcome reported by a peer, without judging the claim again.
    pub fn update_task_status_from_network(&mut self, task_id: &str, status: TaskStatus)
        requires
            well_formed(old(self)@),
        ensures
            well_formed(final(self)@),
            final(self)@ == after_status_from_network(old(self)@, task_id@, status),
    {
        if let Some(pos) = find_task(&self.tasks_for_validation, task_id) {
            proof { lemma_remove_keeps_disjoint(self.tasks_for_validation@, self.tasks_for_mining@, pos as int); }
            match status {
                TaskStatus::Validated => {
                    let mut t = self.tasks_for_validation.remove(pos);
                    t.status = TaskStatus::Validated;
                    self.tasks_for_mining.push(t);
                },
                TaskStatus::Rejected => {
                    self.tasks_for_validation.remove(pos);
                },
                TaskStatus::PendingValidation => {},
            }
        }
    }


    /// Judges every claim awaiting validation, from the last to the first. Accepted
    /// claims move to the mining pool marked validated and their evidence tokens are
    /// consumed for good; rejected claims are dropped and their stake is not returned.
    /// Returns each claim's outcome in the order judged.
    pub fn run_automated_validation(&mut self) -> (r: Vec<(String, TaskStatus)>)
        requires
            well_formed(old(self)@),
        ensures
            well_formed(final(self)@),
            final(self)@ == after_validation(old(self)@),
            outcome_view(r@) == validation_pass(old(self)@.validation, old(self)@.authorized, old(self)@.consumed).results,
    {
        let mut results: Vec<(String, TaskStatus)> = Vec::new();
        let ghost v0 = self@;
        let ghost o = validation_pass(v0.validation, v0.authorized, v0.consumed);
        let ghost mut acc: Seq<Transaction> = Seq::empty();
        while self.tasks_for_validation.len() > 0
            invariant
                well_formed(self@),
                self@.chain == v0.chain,
                self@.wallets == v0.wallets,
                self@.stake == v0.stake,
                self@.authorized == v0.authorized,
                self@.mining == v0.mining + acc,
                acc + validation_pass(self@.validation, v0.authorized, self@.consumed).accepted == o.accepted,
                outcome_view(results@) + validation_pass(self@.validation, v0.authorized, self@.consumed).results
                    == o.results,
                validation_pass(self@.validation, v0.authorized, self@.consumed).consumed == o.consumed,
            decreases self.tasks_for_validation.len(),
        {
            let ghost pool = self@.validation;
            let ghost consumed = self@.consumed;
            let ghost step = validation_pass(pool, v0.authorized, consumed);
            proof {
                lemma_remove_keeps_disjoint(pool, self@.mining, pool.len() - 1);
                assert(pool.remove(pool.len() - 1) =~= pool.drop_last());
            }
            let mut task = self.tasks_for_validation.pop().unwrap();
            let claim = Claim::parse(task.proof_metadata.as_str());
            let ghost rview = outcome_view(results@);
            match claim.evaluate(&self.authorized_sentinels, &self.used_signatures) {
                Ok(()) => {
                    let evidence = match &claim.evidence {
                        Some(e) => e.clone(),
                        None => String::new(),
                    };
                    let ghost used = self.used_signatures@;
                    self.used_signatures.push(evidence);
                    let id = task.task.clone();
                    task.status = TaskStatus::Validated;
                    let ghost m = self@.mining;
                    self.tasks_for_mining.push(task);
                    results.push((id, TaskStatus::Validated));
                    proof {
                        assert(texts(used.push(evidence)) =~= texts(used).push(evidence@));
                        assert(outcome_view(results@) =~= rview.push((id@, TaskStatus::Validated)));
                        let t2 = Transaction { status: TaskStatus::Validated, ..pool.last() };
                        assert(acc.push(t2) + validation_pass(self@.validation, v0.authorized, self@.consumed).accepted
                            =~= acc + step.accepted);
                        assert(outcome_view(results@) + validation_pass(self@.validation, v0.authorized, self@.consumed).results
                            =~= rview + step.results);
                        assert(self@.mining =~= v0.mining + acc.push(t2));
                        acc = acc.push(t2);
                    }
                },
                Err(_) => {
                    results.push((task.task, TaskStatus::Rejected));
                    proof {
                        assert(outcome_view(results@) =~= rview.push((pool.last().task@, TaskStatus::Rejected)));
                        assert(outcome_view(results@) + validation_pass(self@.validation, v0.authorized, self@.consumed).results
                            =~= rview + step.results);
                    }
                },
            }
        }
        proof {
            assert(self@.validation.len() == 0);
            assert(acc =~= o.accepted);
            assert(outcome_view(results@) =~= o.results);
            assert(self@.validation =~= Seq::<Transaction>::empty());
        }
        results
    }


    /// Drains the mining pool into a new block on top of the tip: each claim's sender is
    /// credited with reward plus stake when it has a wallet here, and the block records
    /// every drained claim, paid to its sender. Returns a copy of the appended block.
    pub fn mine_block(&mut self) -> (r: Option<Block>)
        requires
            well_formed(old(self)@),
        ensures
            well_formed(final(self)@),
            mine_outcome(old(self)@, final(self)@, r),
    {
        if self.tasks_for_mining.len() == 0 {
            return None;
        }
        let last = self.chain.len() - 1;
        let tip_index = self.chain[last].index;
        if tip_index == u64::MAX {
            return None;
        }
        let ghost v0 = self@;
        let ghost addrs = addresses(v0.wallets);
        let mut txs: Vec<Transaction> = Vec::new();
        while self.tasks_for_mining.len() > 0
            invariant
                well_formed(v0),
                self@.chain == v0.chain,
                self@.validation == v0.validation,
                self@.stake == v0.stake,
                self@.authorized == v0.authorized,
                self@.consumed == v0.consumed,
                addresses(self@.wallets) == addrs,
                credit_all(self@.wallets, self@.mining, v0.stake) == credit_all(v0.wallets, v0.mining, v0.stake),
                txs@ + settled(self@.mining) == settled(v0.mining),
            decreases self.tasks_for_mining.len(),
        {
            let ghost ws = self@.wallets;
            let ghost pool = self@.mining;
            let ghost before = txs@;
            let mut task = self.tasks_for_mining.pop().unwrap();
            proof { lemma_index_of(addrs, task.sender@); }
            match self.wallets.find(task.sender.as_str()) {
                Some(i) => {
                    let balance = self.wallets.wallet(i).balance_yuki;
                    let total: u128 = balance as u128 + task.amount as u128 + self.stake_amount as u128;
                    let new_balance: u64 = if total > u64::MAX as u128 {
                        u64::MAX
                    } else {
                        total as u64
                    };
                    self.wallets.set_balance(i, new_balance);
                    proof {
                        assert(self@.wallets == credit_one(ws, pool.last(), v0.stake));
                        assert(addresses(self@.wallets) =~= addresses(ws));
                    }
                },
                None => {
                    proof {
                        assert(self@.wallets == credit_one(ws, pool.last(), v0.stake));
                    }
                },
            }
            task.receiver = task.sender.clone();
            txs.push(task);
            proof {
                assert(txs@ =~= before.push(settle(pool.last())));
                assert(txs@ + settled(self@.mining) =~= before + settled(pool));
            }
        }
        proof {
            assert(self@.mining =~= Seq::<Transaction>::empty());
            assert(txs@ =~= settled(v0.mining));
        }
        let block = Block::new(tip_index + 1, txs, self.chain[last].hash.clone());
        let copy = block.clone();
        let ghost c = self@.chain;
        self.chain.push(block);
        proof {
            let c2 = c.push(block);
            assert forall|i: int| 0 <= i < c2.len() - 1 implies (#[trigger] c2[i + 1]).previous_hash@ == c2[i].hash@
                && c2[i + 1].index == c2[i].index + 1 by {
                if i + 1 < c.len() {
                    assert(c[i + 1] == c2[i + 1]);
                }
            }
        }
        Some(copy)
    }

    /// Burns the cost of an emission permit, a hundred per ton, from a wallet. Granted
    /// only when the wallet exists and holds the whole cost; otherwise nothing changes.
    pub fn request_emission_permit(&mut self, wallet_address: &str, tons_to_emit: u64) -> (r: bool)
        requires
            well_formed(old(self)@),
        ensures
            well_formed(final(self)@),
            permit_outcome(old(self)@, final(self)@, wallet_address@, tons_to_emit, r),
    {
        proof { lemma_index_of(addresses(self.wallets@), wallet_address@); }
        let i = match self.wallets.find(wallet_address) {
            Some(i) => i,
            None => {
                return false;
            },
        };
        let balance = self.wallets.wallet(i).balance_yuki;
        if tons_to_emit > u64::MAX / PERMIT_COST_PER_TON {
            return false;
        }
        let total_cost = tons_to_emit * PERMIT_COST_PER_TON;
        if balance >= total_cost {
            self.wallets.set_balance(i, balance - total_cost);
            true
        } else {
            false
        }
    }

    /// Appends a block received from a peer when it extends the tip (names the tip's hash
    /// and carries the next index), and takes the claims it settles out of both pools. A
    /// block that does not extend the tip is discarded.
    pub fn add_block_from_network(&mut self, block: Block) -> (r: Result<(), LedgerError>)
        requires
            well_formed(old(self)@),
        ensures
            well_formed(final(self)@),
            final(self)@ == after_block_from_network(old(self)@, block),
            r is Ok <==> extends_tip(old(self)@, block),
            r is Err ==> r == Err::<(), LedgerError>(LedgerError::ChainContinuityMismatch),
    {
        let last = self.chain.len() - 1;
        if block.previous_hash != self.chain[last].hash || self.chain[last].index == u64::MAX
            || block.index != self.chain[last].index + 1 {
            return Err(LedgerError::ChainContinuityMismatch);
        }
        let ghost v = self.tasks_for_validation@;
        let ghost m = self.tasks_for_mining@;
        let ghost ids = task_ids(block.transactions@);
        self.tasks_for_mining = remove_settled(&self.tasks_for_mining, &block.transactions);
        self.tasks_for_validation = remove_settled(&self.tasks_for_validation, &block.transactions);
        let ghost c = self.chain@;
        self.chain.push(block);
        proof {
            lemma_without_ids(v, ids);
            lemma_without_ids(m, ids);
            let v2 = without_ids(v, ids);
            let m2 = without_ids(m, ids);
            assert forall|k: int| 0 <= k < v2.len() implies !task_ids(m2).contains(#[trigger] task_ids(v2)[k]) by {
                let x = task_ids(v2)[k];
                let j = choose|j: int| 0 <= j < task_ids(v).len() && task_ids(v)[j] == x;
                assert(!task_ids(m).contains(task_ids(v)[j]));
                if task_ids(m2).contains(x) {
                    let q = choose|q: int| 0 <= q < task_ids(m2).len() && task_ids(m2)[q] == x;
                    assert(task_ids(m).contains(task_ids(m2)[q]));
                }
            }
            let c2 = c.push(block);
            assert forall|i: int| 0 <= i < c2.len() - 1 implies (#[trigger] c2[i + 1]).previous_hash@ == c2[i].hash@
                && c2[i + 1].index == c2[i].index + 1 by {
                if i + 1 < c.len() {
                    assert(c[i + 1] == c2[i + 1]);
                }
            }
        }
        Ok(())
    }
}

} // verus!
