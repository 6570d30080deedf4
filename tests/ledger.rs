use yuki_ledger::block::Block;
use yuki_ledger::blockchain::{Blockchain, LedgerError, DEFAULT_STAKE};
use yuki_ledger::compliance::{plausibility_score, Claim, ClaimKind, Rejection};
use yuki_ledger::transaction::{TaskStatus, Transaction};
use yuki_ledger::wallet::Wallet;

fn ledger_with_wallet(address: &str, stake: u64) -> Blockchain {
    let mut bc = Blockchain::new();
    bc.stake_amount = stake;
    bc.wallets.insert_wallet(Wallet::new(address.to_string()));
    bc
}

fn balance(bc: &Blockchain, address: &str) -> u64 {
    let i = bc.wallets.find(address).expect("wallet present");
    bc.wallets.wallet(i).balance_yuki
}

fn plausible_url(kind: ClaimKind, threshold: u32, tag: &str) -> String {
    for i in 0..10_000 {
        let url = format!("https://evidence.example/{}/{}", tag, i);
        if plausibility_score(&url, kind) as u32 * 100 >= threshold * 255 {
            return url;
        }
    }
    panic!("no plausible url found");
}

fn implausible_url(kind: ClaimKind, threshold: u32, tag: &str) -> String {
    for i in 0..10_000 {
        let url = format!("https://evidence.example/{}/{}", tag, i);
        if (plausibility_score(&url, kind) as u32) * 100 < threshold * 255 {
            return url;
        }
    }
    panic!("no implausible url found");
}

fn tree_claim(url: &str, count: u64) -> String {
    format!(
        "{{\"type\":\"tree_planting\",\"evidence_url\":\"{}\",\"trees_planted\":{}}}",
        url, count
    )
}

#[test]
fn submit_then_mine_tree_planting() {
    let mut bc = ledger_with_wallet("W", 5);
    let url = plausible_url(ClaimKind::TreePlanting, 70, "trees");
    let tx = bc
        .submit_industrial_task("W", "plant-1".to_string(), tree_claim(&url, 3))
        .expect("submission accepted");
    assert_eq!(tx.amount, 3);
    assert_eq!(tx.status, TaskStatus::PendingValidation);
    assert_eq!(tx.receiver, "Protocol-Mint");
    assert_eq!(balance(&bc, "W"), 5);
    let results = bc.run_automated_validation();
    assert_eq!(results, vec![("plant-1".to_string(), TaskStatus::Validated)]);
    assert_eq!(bc.tasks_for_mining.len(), 1);
    assert_eq!(bc.tasks_for_mining[0].status, TaskStatus::Validated);
    let block = bc.mine_block().expect("a block is mined");
    assert_eq!(block.index, 1);
    assert_eq!(block.previous_hash, bc.chain[0].hash);
    assert_eq!(block.transactions.len(), 1);
    assert_eq!(block.transactions[0].receiver, "W");
    assert_eq!(balance(&bc, "W"), 13);
    assert_eq!(bc.chain.len(), 2);
    assert!(bc.tasks_for_mining.is_empty());
    assert!(bc.check_well_formed());
}

#[test]
fn unauthorized_device_is_rejected_without_refund() {
    let mut bc = ledger_with_wallet("W", 5);
    let meta = "{\"type\":\"air_quality\",\"device_id\":\"unknown-007\",\"hardware_signature\":\"sig-aq-1\"}";
    let claim = Claim::parse(meta);
    assert_eq!(
        claim.evaluate(&bc.authorized_sentinels, &bc.used_signatures),
        Err(Rejection::UnauthorizedOrigin)
    );
    bc.submit_industrial_task("W", "aq-1".to_string(), meta.to_string()).unwrap();
    assert_eq!(balance(&bc, "W"), 5);
    let results = bc.run_automated_validation();
    assert_eq!(results, vec![("aq-1".to_string(), TaskStatus::Rejected)]);
    assert!(bc.tasks_for_validation.is_empty());
    assert!(bc.tasks_for_mining.is_empty());
    assert!(bc.mine_block().is_none());
    assert_eq!(balance(&bc, "W"), 5);
}

#[test]
fn anomalous_capture_is_rejected() {
    let bc = Blockchain::new();
    let meta = "{\"type\":\"carbon_capture\",\"sentinel_id\":\"yuki-industrial-01\",\"tons_captured\":75,\"hardware_signature\":\"sig-cc-75\"}";
    let claim = Claim::parse(meta);
    assert_eq!(
        claim.evaluate(&bc.authorized_sentinels, &bc.used_signatures),
        Err(Rejection::AnomalyExceeded)
    );
    let within = "{\"type\":\"carbon_capture\",\"sentinel_id\":\"yuki-industrial-01\",\"tons_captured\":50,\"hardware_signature\":\"sig-cc-50\"}";
    assert_eq!(Claim::parse(within).evaluate(&bc.authorized_sentinels, &bc.used_signatures), Ok(()));
}

#[test]
fn anomalous_capture_is_rejected_by_the_pass() {
    let mut bc = ledger_with_wallet("W", 500);
    bc.wallets.set_balance(0, 1000);
    let meta = "{\"type\":\"carbon_capture\",\"sentinel_id\":\"yuki-industrial-01\",\"tons_captured\":75,\"hardware_signature\":\"sig-cc-75\"}";
    let tx = bc.submit_industrial_task("W", "cc-75".to_string(), meta.to_string()).unwrap();
    assert_eq!(tx.amount, 7500);
    assert_eq!(bc.run_automated_validation(), vec![("cc-75".to_string(), TaskStatus::Rejected)]);
    assert_eq!(balance(&bc, "W"), 500);
    assert!(bc.used_signatures.is_empty());
}

#[test]
fn stale_peer_block_is_discarded() {
    let mut bc = ledger_with_wallet("W", 5);
    let url = plausible_url(ClaimKind::TreePlanting, 70, "stale");
    bc.submit_industrial_task("W", "t1".to_string(), tree_claim(&url, 2)).unwrap();
    bc.run_automated_validation();
    bc.mine_block().unwrap();
    bc.submit_industrial_task("W", "t2".to_string(), tree_claim("https://x.example/a", 1)).unwrap();
    let chain_len = bc.chain.len();
    let tip_hash = bc.chain[chain_len - 1].hash.clone();
    let stale = Block::new_at(2, 7, vec![], bc.chain[0].hash.clone());
    assert_eq!(bc.add_block_from_network(stale), Err(LedgerError::ChainContinuityMismatch));
    assert_eq!(bc.chain.len(), chain_len);
    assert_eq!(bc.chain[chain_len - 1].hash, tip_hash);
    assert_eq!(bc.tasks_for_validation.len(), 1);
    assert_eq!(bc.tasks_for_validation[0].task, "t2");
}

#[test]
fn peer_block_settles_pooled_claims() {
    let mut bc = ledger_with_wallet("W", 5);
    bc.submit_industrial_task("W", "a".to_string(), tree_claim("u1", 1)).unwrap();
    bc.submit_industrial_task("W", "b".to_string(), tree_claim("u2", 1)).unwrap();
    let settled = Transaction::new("W".into(), "W".into(), 1, "a".into(), "{}".into());
    let block = Block::new_at(1, 100, vec![settled], bc.chain[0].hash.clone());
    let hash = block.hash.clone();
    assert_eq!(bc.add_block_from_network(block.clone()), Ok(()));
    assert_eq!(bc.chain.len(), 2);
    assert_eq!(bc.chain[1].hash, hash);
    assert_eq!(bc.tasks_for_validation.len(), 1);
    assert_eq!(bc.tasks_for_validation[0].task, "b");
    // the same block again no longer extends the tip
    assert_eq!(bc.add_block_from_network(block), Err(LedgerError::ChainContinuityMismatch));
    assert_eq!(bc.chain.len(), 2);
    assert!(bc.check_well_formed());
}

#[test]
fn stake_is_withheld_and_returned_with_reward() {
    let mut bc = ledger_with_wallet("W", 4);
    bc.wallets.set_balance(0, 100);
    let url = plausible_url(ClaimKind::TreePlanting, 70, "net");
    let tx = bc.submit_industrial_task("W", "n1".to_string(), tree_claim(&url, 7)).unwrap();
    assert_eq!(balance(&bc, "W"), 96);
    bc.run_automated_validation();
    assert_eq!(balance(&bc, "W"), 96);
    bc.mine_block().unwrap();
    assert_eq!(balance(&bc, "W"), 100 + tx.amount);
    assert_eq!(tx.amount, 7);
}

#[test]
fn rejected_stake_is_forfeited() {
    let mut bc = ledger_with_wallet("W", 5);
    let url = implausible_url(ClaimKind::TreePlanting, 70, "low");
    bc.submit_industrial_task("W", "low-1".to_string(), tree_claim(&url, 3)).unwrap();
    assert_eq!(bc.run_automated_validation(), vec![("low-1".to_string(), TaskStatus::Rejected)]);
    assert!(!bc.is_pooled("low-1"));
    assert!(bc.mine_block().is_none());
    assert_eq!(balance(&bc, "W"), 5);
}

#[test]
fn task_message_applied_twice_equals_once() {
    let mut bc = Blockchain::new();
    let tx = Transaction::new("peer".into(), "Protocol-Mint".into(), 2, "remote-1".into(), "{}".into());
    bc.add_task_from_network(tx.clone());
    assert_eq!(bc.tasks_for_validation.len(), 1);
    bc.add_task_from_network(tx);
    assert_eq!(bc.tasks_for_validation.len(), 1);
    assert_eq!(bc.tasks_for_validation[0].task, "remote-1");
}

#[test]
fn task_message_for_a_mining_claim_is_ignored() {
    let mut bc = Blockchain::new();
    let tx = Transaction::new("peer".into(), "Protocol-Mint".into(), 2, "remote-2".into(), "{}".into());
    bc.add_task_from_network(tx.clone());
    bc.update_task_status_from_network("remote-2", TaskStatus::Validated);
    assert_eq!(bc.tasks_for_mining.len(), 1);
    assert_eq!(bc.tasks_for_mining[0].status, TaskStatus::Validated);
    bc.add_task_from_network(tx);
    assert!(bc.tasks_for_validation.is_empty());
}

#[test]
fn status_messages_move_or_drop_claims() {
    let mut bc = Blockchain::new();
    for id in ["x", "y", "z"] {
        bc.add_task_from_network(Transaction::new("p".into(), "Protocol-Mint".into(), 0, id.into(), "{}".into()));
    }
    bc.update_task_status_from_network("y", TaskStatus::Rejected);
    bc.update_task_status_from_network("z", TaskStatus::PendingValidation);
    bc.update_task_status_from_network("missing", TaskStatus::Validated);
    let ids: Vec<String> = bc.tasks_for_validation.iter().map(|t| t.task.clone()).collect();
    assert_eq!(ids, vec!["x".to_string(), "z".to_string()]);
    assert!(bc.tasks_for_mining.is_empty());
}

#[test]
fn replayed_evidence_is_rejected() {
    let mut bc = ledger_with_wallet("W", 1);
    let meta = "{\"type\":\"wastewater_treatment\",\"sentinel_id\":\"yuki-industrial-01\",\"liters_treated\":5000,\"hardware_signature\":\"sig-ww\"}";
    bc.submit_industrial_task("W", "ww-1".to_string(), meta.to_string()).unwrap();
    bc.submit_industrial_task("W", "ww-2".to_string(), meta.to_string()).unwrap();
    let results = bc.run_automated_validation();
    // judged from the last submitted to the first
    assert_eq!(
        results,
        vec![("ww-2".to_string(), TaskStatus::Validated), ("ww-1".to_string(), TaskStatus::Rejected)]
    );
    assert_eq!(bc.used_signatures, vec!["sig-ww".to_string()]);
    assert_eq!(
        Claim::parse(meta).evaluate(&bc.authorized_sentinels, &bc.used_signatures),
        Err(Rejection::ReplayDetected)
    );
    // a later submission of the same evidence is rejected too
    bc.submit_industrial_task("W", "ww-3".to_string(), meta.to_string()).unwrap();
    assert_eq!(bc.run_automated_validation(), vec![("ww-3".to_string(), TaskStatus::Rejected)]);
}

#[test]
fn submission_errors() {
    let mut bc = ledger_with_wallet("W", 5);
    assert_eq!(
        bc.submit_industrial_task("nobody", "t".to_string(), "{}".to_string()).unwrap_err(),
        LedgerError::WalletNotFound
    );
    bc.submit_industrial_task("W", "t".to_string(), "{}".to_string()).unwrap();
    assert_eq!(
        bc.submit_industrial_task("W", "t".to_string(), "{}".to_string()).unwrap_err(),
        LedgerError::DuplicateTask
    );
    bc.submit_industrial_task("W", "u".to_string(), "{}".to_string()).unwrap();
    assert_eq!(balance(&bc, "W"), 0);
    assert_eq!(
        bc.submit_industrial_task("W", "v".to_string(), "{}".to_string()).unwrap_err(),
        LedgerError::InsufficientStake
    );
    assert_eq!(bc.tasks_for_validation.len(), 2);
}

#[test]
fn fresh_ledger() {
    let bc = Blockchain::new();
    assert_eq!(bc.chain.len(), 1);
    assert_eq!(bc.chain[0].index, 0);
    assert_eq!(bc.chain[0].previous_hash, "0");
    assert!(bc.chain[0].transactions.is_empty());
    assert_eq!(bc.stake_amount, DEFAULT_STAKE);
    assert_eq!(bc.authorized_sentinels, vec!["yuki-industrial-01".to_string()]);
    assert!(bc.check_well_formed());
}

#[test]
fn mining_with_nothing_validated_gives_no_block() {
    let mut bc = Blockchain::new();
    assert!(bc.mine_block().is_none());
    assert_eq!(bc.chain.len(), 1);
}

#[test]
fn mining_records_claims_without_a_local_wallet() {
    let mut bc = ledger_with_wallet("W", 1);
    bc.add_task_from_network(Transaction::new("far".into(), "Protocol-Mint".into(), 3, "f1".into(), "{}".into()));
    bc.update_task_status_from_network("f1", TaskStatus::Validated);
    let block = bc.mine_block().expect("a block is mined");
    assert_eq!(block.index, 1);
    assert_eq!(block.transactions.len(), 1);
    assert_eq!(block.transactions[0].task, "f1");
    assert_eq!(block.transactions[0].receiver, "far");
    assert!(bc.tasks_for_mining.is_empty());
    assert_eq!(bc.chain.len(), 2);
    assert_eq!(balance(&bc, "W"), 10);
    assert!(bc.is_mined("f1"));
}

#[test]
fn peer_block_with_wrong_index_is_discarded() {
    let mut bc = Blockchain::new();
    let tip = bc.chain[0].hash.clone();
    let same_index = Block::new_at(0, 1, vec![], tip.clone());
    assert_eq!(bc.add_block_from_network(same_index), Err(LedgerError::ChainContinuityMismatch));
    let skipping = Block::new_at(2, 1, vec![], tip.clone());
    assert_eq!(bc.add_block_from_network(skipping), Err(LedgerError::ChainContinuityMismatch));
    assert_eq!(bc.chain.len(), 1);
    let next = Block::new_at(1, 1, vec![], tip);
    assert_eq!(bc.add_block_from_network(next), Ok(()));
    assert_eq!(bc.chain.len(), 2);
    assert!(bc.check_well_formed());
}

#[test]
fn mined_task_ids_are_taken() {
    let mut bc = ledger_with_wallet("W", 1);
    bc.add_task_from_network(Transaction::new("W".into(), "Protocol-Mint".into(), 1, "done".into(), "{}".into()));
    bc.update_task_status_from_network("done", TaskStatus::Validated);
    bc.mine_block().unwrap();
    assert!(!bc.is_pooled("done"));
    assert!(bc.is_known("done"));
    assert_eq!(
        bc.submit_industrial_task("W", "done".to_string(), "{}".to_string()).unwrap_err(),
        LedgerError::DuplicateTask
    );
    bc.add_task_from_network(Transaction::new("p".into(), "Protocol-Mint".into(), 1, "done".into(), "{}".into()));
    assert!(bc.tasks_for_validation.is_empty());
    assert!(!bc.is_known("other"));
}

#[test]
fn mined_block_lists_claims_last_first() {
    let mut bc = ledger_with_wallet("W", 1);
    bc.wallets.insert_wallet(Wallet::new("V".to_string()));
    for (id, who) in [("m1", "W"), ("m2", "V")] {
        bc.add_task_from_network(Transaction::new(who.into(), "Protocol-Mint".into(), 2, id.into(), "{}".into()));
        bc.update_task_status_from_network(id, TaskStatus::Validated);
    }
    let block = bc.mine_block().unwrap();
    let ids: Vec<String> = block.transactions.iter().map(|t| t.task.clone()).collect();
    assert_eq!(ids, vec!["m2".to_string(), "m1".to_string()]);
    assert_eq!(balance(&bc, "W"), 13);
    assert_eq!(balance(&bc, "V"), 13);
}

#[test]
fn loaded_ledger_checks() {
    let mut bc = Blockchain::new();
    let t = Transaction::new("p".into(), "Protocol-Mint".into(), 0, "dup".into(), "{}".into());
    bc.tasks_for_validation.push(t.clone());
    assert!(bc.check_well_formed());
    bc.tasks_for_mining.push(t.clone());
    assert!(!bc.check_well_formed());
    bc.tasks_for_mining.clear();
    bc.tasks_for_validation.push(t);
    assert!(!bc.check_well_formed());
    bc.tasks_for_validation.clear();
    bc.chain.push(Block::new_at(1, 0, vec![], "not-the-tip".to_string()));
    assert!(!bc.check_well_formed());
    bc.chain.pop();
    let tip = bc.chain[0].hash.clone();
    bc.chain.push(Block::new_at(5, 0, vec![], tip.clone()));
    assert!(!bc.check_well_formed());
    bc.chain.pop();
    bc.chain.push(Block::new_at(1, 0, vec![], tip));
    assert!(bc.check_well_formed());
    bc.chain.clear();
    assert!(!bc.check_well_formed());
}

#[test]
fn emission_permit_burns_cost() {
    let mut bc = ledger_with_wallet("W", 5);
    bc.wallets.set_balance(0, 250);
    assert!(bc.request_emission_permit("W", 2));
    assert_eq!(balance(&bc, "W"), 50);
    assert!(!bc.request_emission_permit("W", 1));
    assert_eq!(balance(&bc, "W"), 50);
    assert!(!bc.request_emission_permit("nobody", 0));
    assert!(!bc.request_emission_permit("W", u64::MAX));
    assert!(bc.request_emission_permit("W", 0));
    assert_eq!(balance(&bc, "W"), 50);
}

#[test]
fn ledger_wallet_helpers() {
    let mut bc = Blockchain::new();
    bc.wallets.insert_wallet(Wallet::new("old".to_string()));
    bc.wallets.set_balance(0, 77);
    let (w, phrase) = bc.create_wallet();
    assert_eq!(w.balance_yuki, 10);
    assert_eq!(w.address.len(), 64);
    assert_eq!(phrase.split(' ').count(), 24);
    assert_eq!(w.balance_yg, 0);
    assert_eq!(w.balance_yt, 0);
    assert_eq!(balance(&bc, "old"), 77);
    let lines = bc.view_wallets();
    assert_eq!(
        lines,
        vec![
            "Address: old | Yuki: 77 | YG: 0 | YT: 0".to_string(),
            format!("Address: {} | Yuki: 10 | YG: 0 | YT: 0", w.address)
        ]
    );
}
