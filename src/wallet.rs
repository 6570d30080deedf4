use vstd::prelude::*;
use vstd::string::StringExecFns;
use crate::digest::{append_decimal, decimal_of, hash_data, hex_of, sha256_of_text};

verus! {

/// What a fresh wallet holds.
pub const STARTING_BALANCE: u64 = 10;

/// An account with its three balances.
#[derive(Debug)]
pub struct Wallet {
    pub address: String,
    pub balance_yuki: u64,
    pub balance_yg: u64,
    pub balance_yt: u64,
}

impl Clone for Wallet {
    fn clone(&self) -> (r: Self)
        ensures
            r == *self,
    {
        Wallet {
            address: self.address.clone(),
            balance_yuki: self.balance_yuki,
            balance_yg: self.balance_yg,
            balance_yt: self.balance_yt,
        }
    }
}

impl Wallet {
    /// A wallet holding the starting balance of the main token and nothing else.
    pub fn new(address: String) -> (r: Self)
        ensures
            r.address == address,
            r.balance_yuki == STARTING_BALANCE,
            r.balance_yg == 0,
            r.balance_yt == 0,
    {
        Wallet { address, balance_yuki: STARTING_BALANCE, balance_yg: 0, balance_yt: 0 }
    }
}

/// The addresses of a list of wallets, in order.
pub open spec fn addresses(ws: Seq<Wallet>) -> Seq<Seq<char>> {
    ws.map_values(|w: Wallet| w.address@)
}

/// Whether `i` is the first position of `a` in `addrs`.
pub open spec fn first_at(addrs: Seq<Seq<char>>, a: Seq<char>, i: int) -> bool {
    &&& 0 <= i < addrs.len()
    &&& addrs[i] == a
    &&& forall|j: int| 0 <= j < i ==> addrs[j] != a
}

/// The first position of `a` in `addrs`, or -1.
pub open spec fn index_of(addrs: Seq<Seq<char>>, a: Seq<char>) -> int {
    if exists|i: int| first_at(addrs, a, i) {
        choose|i: int| first_at(addrs, a, i)
    } else {
        -1
    }
}

/// The wallet with address `a`, if any.
pub open spec fn wallet_at(ws: Seq<Wallet>, a: Seq<char>) -> Option<Wallet> {
    let i = index_of(addresses(ws), a);
    if i >= 0 {
        Some(ws[i])
    } else {
        None
    }
}

/// The main-token balance of the wallet with address `a`, if any.
pub open spec fn balance_of(ws: Seq<Wallet>, a: Seq<char>) -> Option<u64> {
    match wallet_at(ws, a) {
        Some(w) => Some(w.balance_yuki),
        None => None,
    }
}

pub proof fn lemma_index_of(addrs: Seq<Seq<char>>, a: Seq<char>)
    ensures
        -1 <= index_of(addrs, a) < addrs.len(),
        index_of(addrs, a) >= 0 ==> first_at(addrs, a, index_of(addrs, a)),
        index_of(addrs, a) < 0 <==> !addrs.contains(a),
{
    if exists|i: int| first_at(addrs, a, i) {
        let i = choose|i: int| first_at(addrs, a, i);
        assert(addrs[i] == a);
    } else {
        if addrs.contains(a) {
            let k = choose|k: int| 0 <= k < addrs.len() && addrs[k] == a;
            lemma_first_exists(addrs, a, k);
        }
    }
}

proof fn lemma_first_exists(addrs: Seq<Seq<char>>, a: Seq<char>, k: int)
    requires
        0 <= k < addrs.len(),
        addrs[k] == a,
    ensures
        exists|i: int| first_at(addrs, a, i),
    decreases k,
{
    if forall|j: int| 0 <= j < k ==> addrs[j] != a {
        assert(first_at(addrs, a, k));
    } else {
        let j = choose|j: int| 0 <= j < k && addrs[j] == a;
        lemma_first_exists(addrs, a, j);
    }
}

/// A first position is the only first position.
pub proof fn lemma_first_unique(addrs: Seq<Seq<char>>, a: Seq<char>, i: int)
    requires
        first_at(addrs, a, i),
    ensures
        index_of(addrs, a) == i,
{
    let k = choose|k: int| first_at(addrs, a, k);
    assert(first_at(addrs, a, k));
    if k < i {
        assert(addrs[k] == a);
    } else if i < k {
        assert(addrs[i] == a);
    }
}

/// The wallets after storing one: it replaces the wallet with its address, if any, and is
/// added at the end otherwise.
pub open spec fn inserted(ws: Seq<Wallet>, w: Wallet) -> Seq<Wallet> {
    let i = index_of(addresses(ws), w.address@);
    if i >= 0 {
        ws.update(i, w)
    } else {
        ws.push(w)
    }
}

/// After storing a wallet, its address finds it, and every other address finds what it
/// found before.
pub proof fn lemma_inserted_lookup(ws: Seq<Wallet>, w: Wallet)
    ensures
        wallet_at(inserted(ws, w), w.address@) == Some(w),
        forall|a: Seq<char>| a != w.address@ ==> wallet_at(inserted(ws, w), a) == wallet_at(ws, a),
{
    let x = w.address@;
    let ws2 = inserted(ws, w);
    let i = index_of(addresses(ws), x);
    lemma_index_of(addresses(ws), x);
    if i >= 0 {
        assert(addresses(ws2) =~= addresses(ws));
    } else {
        let n = ws.len() as int;
        assert(addresses(ws2) =~= addresses(ws).push(x));
        assert forall|j: int| 0 <= j < n implies addresses(ws2)[j] != x by {
            assert(addresses(ws2)[j] == addresses(ws)[j]);
        };
        assert(first_at(addresses(ws2), x, n));
        lemma_first_unique(addresses(ws2), x, n);
    }
    assert forall|a: Seq<char>| a != x implies wallet_at(ws2, a) == wallet_at(ws, a) by {
        let k = index_of(addresses(ws), a);
        lemma_index_of(addresses(ws), a);
        lemma_index_of(addresses(ws2), a);
        if i >= 0 {
            if k >= 0 {
                assert(addresses(ws)[k] == a);
                assert(addresses(ws)[i] == x);
            }
        } else {
            if k >= 0 {
                assert(first_at(addresses(ws2), a, k)) by {
                    assert forall|j: int| 0 <= j < k implies addresses(ws2)[j] != a by {
                        assert(addresses(ws2)[j] == addresses(ws)[j]);
                    }
                    assert(addresses(ws2)[k] == addresses(ws)[k]);
                }
                lemma_first_unique(addresses(ws2), a, k);
            } else {
                if addresses(ws2).contains(a) {
                    let j = choose|j: int| 0 <= j < addresses(ws2).len() && addresses(ws2)[j] == a;
                    if j < ws.len() {
                        assert(addresses(ws)[j] == a);
                    }
                }
            }
        }
    }
}

/// The debug text of a byte list: `[1, 2, 3]`.
pub open spec fn byte_items(b: Seq<u8>) -> Seq<char>
    decreases b.len(),
{
    if b.len() == 0 {
        Seq::empty()
    } else if b.len() == 1 {
        decimal_of(b[0] as nat)
    } else {
        byte_items(b.drop_last()) + ", "@ + decimal_of(b.last() as nat)
    }
}

pub open spec fn byte_list_text(b: Seq<u8>) -> Seq<char> {
    "["@ + byte_items(b) + "]"@
}

/// The line that shows a wallet.
pub open spec fn wallet_line(w: Wallet) -> Seq<char> {
    "Address: "@ + w.address@ + " | Yuki: "@ + decimal_of(w.balance_yuki as nat) + " | YG: "@
        + decimal_of(w.balance_yg as nat) + " | YT: "@ + decimal_of(w.balance_yt as nat)
}

/// The address of the wallet made from an entropy: the hexadecimal SHA-256 digest of the
/// entropy's byte-list text.
pub open spec fn address_of(entropy: Seq<u8>) -> Seq<char> {
    hex_of(sha256_of_text(byte_list_text(entropy)))
}

/// The recovery phrase that BIP-39 gives an entropy, in English.
pub uninterp spec fn mnemonic_of(entropy: Seq<u8>) -> Seq<char>;

/// Relies on `rand::thread_rng` and `RngCore::fill_bytes`: thirty-two random bytes.
#[verifier::external_body]
fn random_entropy() -> (r: Vec<u8>)
    ensures
        r@.len() == 32,
{
    let mut entropy = [0u8; 32];
    rand::RngCore::fill_bytes(&mut rand::thread_rng(), &mut entropy);
    entropy.to_vec()
}

/// Relies on `bip39::Mnemonic::from_entropy` and its `Display`: the English recovery
/// phrase of an entropy; it succeeds on 256 bits.
#[verifier::external_body]
fn mnemonic_phrase(entropy: &Vec<u8>) -> (r: Option<String>)
    ensures
        entropy@.len() == 32 ==> r is Some,
        match r {
            Some(s) => s@ == mnemonic_of(entropy@),
            None => true,
        },
{
    bip39::Mnemonic::from_entropy(entropy.as_slice()).ok().map(|m| m.to_string())
}

fn byte_list(bytes: &Vec<u8>) -> (r: String)
    ensures
        r@ == byte_list_text(bytes@),
{
    proof {
        reveal_strlit("[");
        reveal_strlit(", ");
        reveal_strlit("]");
    }
    let mut out = String::new();
    out.append("[");
    let mut i: usize = 0;
    while i < bytes.len()
        invariant
            i <= bytes.len(),
            out@ == "["@ + byte_items(bytes@.subrange(0, i as int)),
        decreases bytes.len() - i,
    {
        let ghost before = out@;
        if i > 0 {
            out.append(", ");
        }
        append_decimal(&mut out, bytes[i] as u64);
        proof {
            let s = bytes@.subrange(0, i as int + 1);
            assert(s.drop_last() =~= bytes@.subrange(0, i as int));
            if i == 0 {
                assert(byte_items(s) == decimal_of(bytes@[0] as nat));
                assert(byte_items(bytes@.subrange(0, 0)) =~= Seq::<char>::empty());
            }
            assert(out@ =~= "["@ + byte_items(s));
        }
        i = i + 1;
    }
    out.append("]");
    proof {
        assert(bytes@.subrange(0, bytes@.len() as int) =~= bytes@);
    }
    out
}

/// The wallet store: the wallets in order of creation. Lookups go by address, and the
/// first wallet with an address is the one found.
pub struct WalletManager {
    wallets: Vec<Wallet>,
}

impl View for WalletManager {
    type V = Seq<Wallet>;

    closed spec fn view(&self) -> Seq<Wallet> {
        self.wallets@
    }
}

impl WalletManager {
    /// An empty store.
    pub fn new() -> (r: Self)
        ensures
            r@ == Seq::<Wallet>::empty(),
    {
        WalletManager { wallets: Vec::new() }
    }

    /// The position of the wallet with an address.
    pub fn find(&self, address: &str) -> (r: Option<usize>)
        ensures
            match r {
                Some(i) => i as int == index_of(addresses(self@), address@),
                None => index_of(addresses(self@), address@) == -1,
            },
    {
        let mut i: usize = 0;
        let owned = address.to_owned();
        while i < self.wallets.len()
            invariant
                i <= self.wallets.len(),
                owned@ == address@,
                forall|j: int| 0 <= j < i ==> addresses(self@)[j] != address@,
            decreases self.wallets.len() - i,
        {
            if self.wallets[i].address == owned {
                proof {
                    assert(first_at(addresses(self@), address@, i as int));
                    lemma_first_unique(addresses(self@), address@, i as int);
                }
                return Some(i);
            }
            i = i + 1;
        }
        proof {
            lemma_index_of(addresses(self@), address@);
            if index_of(addresses(self@), address@) >= 0 {
                let k = index_of(addresses(self@), address@);
                assert(addresses(self@)[k] == address@);
            }
        }
        None
    }

    /// The number of wallets.
    pub fn len(&self) -> (r: usize)
        ensures
            r == self@.len(),
    {
        self.wallets.len()
    }

    /// The wallet at a position.
    pub fn wallet(&self, i: usize) -> (r: &Wallet)
        requires
            i < self@.len(),
        ensures
            *r == self@[i as int],
    {
        &self.wallets[i]
    }

    /// Sets the main-token balance of the wallet at a position.
    pub fn set_balance(&mut self, i: usize, balance: u64)
        requires
            i < old(self)@.len(),
        ensures
            final(self)@ == old(self)@.update(
                i as int,
                Wallet { balance_yuki: balance, ..old(self)@[i as int] },
            ),
    {
        self.wallets[i].balance_yuki = balance;
    }

    /// The wallet with an address, to change in place.
    pub fn get_mut_wallet(&mut self, address: &str) -> (r: Option<&mut Wallet>)
        ensures
            match r {
                Some(w) => {
                    let i = index_of(addresses(old(self)@), address@);
                    &&& i >= 0
                    &&& *w == old(self)@[i]
                    &&& final(self)@ == old(self)@.update(i, *final(w))
                },
                None => {
                    &&& index_of(addresses(old(self)@), address@) == -1
                    &&& final(self)@ == old(self)@
                },
            },
    {
        match self.find(address) {
            Some(i) => Some(&mut self.wallets[i]),
            None => None,
        }
    }

    /// Copies of all wallets, in order.
    pub fn get_all_wallets(&self) -> (r: Vec<Wallet>)
        ensures
            r@ == self@,
    {
        let mut r: Vec<Wallet> = Vec::new();
        let mut i: usize = 0;
        while i < self.wallets.len()
            invariant
                i <= self.wallets.len(),
                r@ == self@.subrange(0, i as int),
            decreases self.wallets.len() - i,
        {
            r.push(self.wallets[i].clone());
            proof { assert(r@ =~= self@.subrange(0, i as int + 1)); }
            i = i + 1;
        }
        proof { assert(self@.subrange(0, self@.len() as int) =~= self@); }
        r
    }

    /// Stores a wallet, replacing the one with the same address if there is one.
    pub fn insert_wallet(&mut self, wallet: Wallet)
        ensures
            final(self)@ == inserted(old(self)@, wallet),
            wallet_at(final(self)@, wallet.address@) == Some(wallet),
            forall|a: Seq<char>| a != wallet.address@ ==> wallet_at(final(self)@, a) == wallet_at(old(self)@, a),
    {
        proof { lemma_inserted_lookup(self@, wallet); }
        match self.find(wallet.address.as_str()) {
            Some(i) => {
                self.wallets.set(i, wallet);
            },
            None => {
                self.wallets.push(wallet);
            },
        }
    }

    /// One line per wallet, in order, showing its address and three balances.
    pub fn view_wallets(&self) -> (r: Vec<String>)
        ensures
            r@.len() == self@.len(),
            forall|i: int| 0 <= i < r@.len() ==> (#[trigger] r@[i])@ == wallet_line(self@[i]),
    {
        let mut r: Vec<String> = Vec::new();
        let mut i: usize = 0;
        while i < self.wallets.len()
            invariant
                i <= self@.len(),
                r@.len() == i,
                forall|k: int| 0 <= k < i ==> (#[trigger] r@[k])@ == wallet_line(self@[k]),
            decreases self.wallets.len() - i,
        {
            proof {
                reveal_strlit("Address: ");
                reveal_strlit(" | Yuki: ");
                reveal_strlit(" | YG: ");
                reveal_strlit(" | YT: ");
            }
            let w = &self.wallets[i];
            let mut line = String::new();
            line.append("Address: ");
            line.append(w.address.as_str());
            line.append(" | Yuki: ");
            append_decimal(&mut line, w.balance_yuki);
            line.append(" | YG: ");
            append_decimal(&mut line, w.balance_yg);
            line.append(" | YT: ");
            append_decimal(&mut line, w.balance_yt);
            assert(line@ =~= wallet_line(self@[i as int]));
            r.push(line);
            i = i + 1;
        }
        r
    }

    /// Makes a wallet from 32 bytes of entropy: its address is the digest of the
    /// entropy's byte-list text, and the English recovery phrase comes with it.
    pub fn create_wallet_from_entropy(&mut self, entropy: &Vec<u8>) -> (r: (Wallet, String))
        requires
            entropy@.len() == 32,
        ensures
            r.0.address@ == address_of(entropy@),
            r.0.balance_yuki == STARTING_BALANCE,
            r.0.balance_yg == 0,
            r.0.balance_yt == 0,
            r.1@ == mnemonic_of(entropy@),
            final(self)@ == inserted(old(self)@, r.0),
            wallet_at(final(self)@, r.0.address@) == Some(r.0),
            forall|a: Seq<char>| a != r.0.address@ ==> wallet_at(final(self)@, a) == wallet_at(old(self)@, a),
    {
        let phrase = match mnemonic_phrase(entropy) {
            Some(p) => p,
            None => String::new(),
        };
        let text = byte_list(entropy);
        let address = hash_data(text.as_str());
        let wallet = Wallet::new(address);
        self.insert_wallet(wallet.clone());
        (wallet, phrase)
    }

    /// Makes a wallet from fresh random entropy; returns it with its recovery phrase.
    pub fn create_wallet(&mut self) -> (r: (Wallet, String))
        ensures
            r.0.balance_yuki == STARTING_BALANCE,
            r.0.balance_yg == 0,
            r.0.balance_yt == 0,
            final(self)@ == inserted(old(self)@, r.0),
            wallet_at(final(self)@, r.0.address@) == Some(r.0),
            forall|a: Seq<char>| a != r.0.address@ ==> wallet_at(final(self)@, a) == wallet_at(old(self)@, a),
    {
        let entropy = random_entropy();
        self.create_wallet_from_entropy(&entropy)
    }
}

} // verus!
