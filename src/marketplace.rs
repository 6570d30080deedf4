use vstd::prelude::*;
use vstd::string::StringExecFns;
use crate::digest::{append_decimal, decimal_of};
use crate::wallet::{addresses, index_of, lemma_index_of, wallet_at, Wallet, WalletManager};

verus! {

/// An offer of tokens for sale.
#[derive(Debug)]
pub struct Listing {
    pub seller: String,
    pub price_per_token: u64,
    pub tokens_available: u64,
}

/// Why a listing was refused.
#[derive(Debug, Clone, Copy, PartialEq, Eq, Structural)]
pub enum MarketError {
    /// No wallet has the seller's address.
    WalletNotFound,
    /// The seller holds fewer tokens than offered.
    InsufficientTokens,
}

/// The offers for sale, in the order they were made.
pub struct Marketplace {
    pub listings: Vec<Listing>,
}

/// The line that shows an offer at a position (counted from one).
pub open spec fn listing_line(number: nat, l: Listing) -> Seq<char> {
    decimal_of(number) + ". Seller: "@ + l.seller@ + " | Price: "@ + decimal_of(l.price_per_token as nat)
        + " Yuki/token | Tokens: "@ + decimal_of(l.tokens_available as nat)
}

impl Marketplace {
    /// A marketplace with no offers.
    pub fn new() -> (r: Self)
        ensures
            r.listings@.len() == 0,
    {
        Marketplace { listings: Vec::new() }
    }

    /// Adds an offer at the end.
    pub fn list_tokens(&mut self, seller: String, price: u64, amount: u64)
        ensures
            final(self).listings@ == old(self).listings@.push(
                Listing { seller, price_per_token: price, tokens_available: amount },
            ),
    {
        self.listings.push(Listing { seller, price_per_token: price, tokens_available: amount });
    }

    /// Offers tokens from a wallet: the tokens leave the wallet and an offer is added.
    /// Refused, with nothing changed, without a wallet at the address or when it holds
    /// fewer tokens than offered.
    pub fn list_from_wallet(&mut self, wallets: &mut WalletManager, address: &str, price: u64, amount: u64) -> (r:
        Result<(), MarketError>)
        ensures
            match wallet_at(old(wallets)@, address@) {
                None => r == Err::<(), MarketError>(MarketError::WalletNotFound) && final(wallets)@ == old(wallets)@
                    && final(self).listings@ == old(self).listings@,
                Some(w) => if w.balance_yt < amount {
                    r == Err::<(), MarketError>(MarketError::InsufficientTokens) && final(wallets)@ == old(wallets)@
                        && final(self).listings@ == old(self).listings@
                } else {
                    &&& r is Ok
                    &&& final(wallets)@ == old(wallets)@.update(
                        index_of(addresses(old(wallets)@), address@),
                        Wallet { balance_yt: (w.balance_yt - amount) as u64, ..w },
                    )
                    &&& final(self).listings@.len() == old(self).listings@.len() + 1
                    &&& final(self).listings@.drop_last() == old(self).listings@
                    &&& final(self).listings@.last().seller@ == address@
                    &&& final(self).listings@.last().price_per_token == price
                    &&& final(self).listings@.last().tokens_available == amount
                },
            },
    {
        proof { lemma_index_of(addresses(wallets@), address@); }
        match wallets.get_mut_wallet(address) {
            Some(w) => {
                if w.balance_yt >= amount {
                    w.balance_yt = w.balance_yt - amount;
                    self.list_tokens(address.to_owned(), price, amount);
                    proof {
                        assert(final(self).listings@.drop_last() =~= old(self).listings@);
                    }
                    Ok(())
                } else {
                    Err(MarketError::InsufficientTokens)
                }
            },
            None => Err(MarketError::WalletNotFound),
        }
    }

    /// One line per offer, numbered from one.
    pub fn display_listings(&self) -> (r: Vec<String>)
        requires
            self.listings@.len() < u64::MAX,
        ensures
            r@.len() == self.listings@.len(),
            forall|i: int| 0 <= i < r@.len() ==> (#[trigger] r@[i])@ == listing_line((i + 1) as nat, self.listings@[i]),
    {
        let mut r: Vec<String> = Vec::new();
        let mut i: usize = 0;
        while i < self.listings.len()
            invariant
                i <= self.listings@.len() < u64::MAX,
                r@.len() == i,
                forall|k: int| 0 <= k < i ==> (#[trigger] r@[k])@ == listing_line((k + 1) as nat, self.listings@[k]),
            decreases self.listings.len() - i,
        {
            proof {
                reveal_strlit(". Seller: ");
                reveal_strlit(" | Price: ");
                reveal_strlit(" Yuki/token | Tokens: ");
            }
            let l = &self.listings[i];
            let mut line = String::new();
            append_decimal(&mut line, (i + 1) as u64);
            line.append(". Seller: ");
            line.append(l.seller.as_str());
            line.append(" | Price: ");
            append_decimal(&mut line, l.price_per_token);
            line.append(" Yuki/token | Tokens: ");
            append_decimal(&mut line, l.tokens_available);
            assert(line@ =~= listing_line((i + 1) as nat, self.listings@[i as int]));
            r.push(line);
            i = i + 1;
        }
        r
    }
}

} // verus!
