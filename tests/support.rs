use sha2::Digest;
use yuki_ledger::block::{content_text, Block};
use yuki_ledger::digest::{append_decimal, append_signed_decimal, hash_data, to_hex};
use yuki_ledger::marketplace::{MarketError, Marketplace};
use yuki_ledger::transaction::{clone_transactions, TaskStatus, Transaction};
use yuki_ledger::wallet::{Wallet, WalletManager};

#[test]
fn hash_data_known_digests() {
    assert_eq!(hash_data("abc"), "ba7816bf8f01cfea414140de5dae2223b00361a396177a9cb410ff61f20015ad");
    assert_eq!(hash_data(""), "e3b0c44298fc1c149afbf4c8996fb92427ae41e4649b934ca495991b7852b855");
}

#[test]
fn hex_and_decimal_text() {
    assert_eq!(to_hex(&vec![0x00, 0x0f, 0xa5, 0xff]), "000fa5ff");
    assert_eq!(to_hex(&vec![]), "");
    let mut s = String::from("n=");
    append_decimal(&mut s, 0);
    append_decimal(&mut s, 1907);
    assert_eq!(s, "n=01907");
    let mut s = String::new();
    append_decimal(&mut s, u64::MAX);
    assert_eq!(s, "18446744073709551615");
    let mut s = String::new();
    append_signed_decimal(&mut s, i64::MIN);
    assert_eq!(s, "-9223372036854775808");
    let mut s = String::new();
    append_signed_decimal(&mut s, 42);
    assert_eq!(s, "42");
}

#[test]
fn block_hash_covers_content() {
    let t = Transaction::new("s".into(), "r".into(), 7, "task".into(), "{}".into());
    let text = content_text(3, -5, &vec![t.clone()], "prev");
    assert_eq!(text, "3-5{s|r|7|task|{}|PendingValidation}prev");
    let b = Block::new_at(3, -5, vec![t], "prev".to_string());
    assert_eq!(b.hash, hash_data(&text));
    let expected = format!("{:x}", sha2::Sha256::digest(text.as_bytes()));
    assert_eq!(b.hash, expected);
    let copy = b.clone();
    assert_eq!(copy.hash, b.hash);
    assert_eq!(copy.transactions.len(), 1);
    let now = Block::new(0, vec![], "0".to_string());
    assert_eq!(now.hash, hash_data(&content_text(0, now.timestamp, &vec![], "0")));
}

#[test]
fn transaction_new_and_copy() {
    let t = Transaction::new("a".into(), "b".into(), 1, "t".into(), "m".into());
    assert_eq!(t.status, TaskStatus::PendingValidation);
    let v = clone_transactions(&vec![t.clone(), t]);
    assert_eq!(v.len(), 2);
    assert_eq!(v[1].task, "t");
}

#[test]
fn wallet_from_known_entropy() {
    let mut wm = WalletManager::new();
    let entropy = vec![0u8; 32];
    let (w, phrase) = wm.create_wallet_from_entropy(&entropy);
    let mut words: Vec<&str> = vec!["abandon"; 23];
    words.push("art");
    assert_eq!(phrase, words.join(" "));
    assert_eq!(w.address, hash_data(&format!("{:?}", [0u8; 32])));
    assert_eq!(w.balance_yuki, 10);
    assert_eq!(wm.len(), 1);
    // the same entropy again replaces the wallet rather than adding one
    wm.set_balance(0, 99);
    wm.create_wallet_from_entropy(&entropy);
    assert_eq!(wm.len(), 1);
    assert_eq!(wm.wallet(0).balance_yuki, 10);
    let bytes: Vec<u8> = (0u8..32).collect();
    let (w2, _) = wm.create_wallet_from_entropy(&bytes);
    assert_eq!(w2.address, hash_data(&format!("{:?}", bytes)));
    assert_eq!(wm.len(), 2);
}

#[test]
fn random_wallets_differ() {
    let mut wm = WalletManager::new();
    let (a, pa) = wm.create_wallet();
    let (b, pb) = wm.create_wallet();
    assert_ne!(a.address, b.address);
    assert_ne!(pa, pb);
    assert_eq!(wm.get_all_wallets().len(), 2);
}

#[test]
fn wallet_lookup_and_mutation() {
    let mut wm = WalletManager::new();
    wm.insert_wallet(Wallet::new("A".into()));
    wm.insert_wallet(Wallet::new("B".into()));
    assert_eq!(wm.find("B"), Some(1));
    assert_eq!(wm.find("C"), None);
    if let Some(w) = wm.get_mut_wallet("A") {
        w.balance_yt = 4;
    }
    assert!(wm.get_mut_wallet("C").is_none());
    let all = wm.get_all_wallets();
    assert_eq!(all[0].balance_yt, 4);
    assert_eq!(all[1].address, "B");
    assert_eq!(
        wm.view_wallets(),
        vec!["Address: A | Yuki: 10 | YG: 0 | YT: 4".to_string(), "Address: B | Yuki: 10 | YG: 0 | YT: 0".to_string()]
    );
}

#[test]
fn marketplace_listing() {
    let mut wm = WalletManager::new();
    wm.insert_wallet(Wallet::new("S".into()));
    wm.get_mut_wallet("S").unwrap().balance_yt = 5;
    let mut m = Marketplace::new();
    assert_eq!(m.list_from_wallet(&mut wm, "S", 3, 6), Err(MarketError::InsufficientTokens));
    assert_eq!(m.list_from_wallet(&mut wm, "X", 3, 1), Err(MarketError::WalletNotFound));
    assert!(m.listings.is_empty());
    assert_eq!(m.list_from_wallet(&mut wm, "S", 3, 5), Ok(()));
    assert_eq!(wm.wallet(0).balance_yt, 0);
    m.list_tokens("T".into(), 12, 1);
    assert_eq!(
        m.display_listings(),
        vec![
            "1. Seller: S | Price: 3 Yuki/token | Tokens: 5".to_string(),
            "2. Seller: T | Price: 12 Yuki/token | Tokens: 1".to_string()
        ]
    );
}
