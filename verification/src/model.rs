//! The value types: a trade intent, its price bound, and a settled pair.

use vstd::prelude::*;

verus! {

/// A non-negative rational bound on an exchange rate: `numerator / denominator`.
///
/// Rates are compared exactly, by cross-multiplication; nothing is rounded.
#[derive(Clone, Copy, Debug, PartialEq, Eq)]
pub struct PriceLimit {
    pub numerator: u64,
    pub denominator: u64,
}

/// The mathematical content of a [`TradeIntent`].
pub struct IntentView {
    pub trader: Seq<char>,
    pub sell_token: Seq<char>,
    pub buy_token: Seq<char>,
    pub sell_amount: u64,
    pub buy_amount: u64,
    pub price_limit: PriceLimit,
    pub expiry: u64,
}

impl IntentView {
    /// Both amounts are positive and the price bound is a rational number.
    pub open spec fn is_valid(self) -> bool {
        &&& self.sell_amount > 0
        &&& self.buy_amount > 0
        &&& self.price_limit.denominator > 0
    }

    /// The intent is dead at `now`: its expiry is at or before that time.
    pub open spec fn is_expired(self, now: u64) -> bool {
        self.expiry <= now
    }

    /// The rate this intent receives, `buy_amount / sell_amount`, is at least
    /// its price bound. This is the reading of the bound for the intent that
    /// starts a pairing.
    pub open spec fn floor_met(self) -> bool {
        self.buy_amount * self.price_limit.denominator >= self.price_limit.numerator
            * self.sell_amount
    }

    /// The inverse of the rate this intent receives, `sell_amount / buy_amount`,
    /// is at most its price bound. This is the reading of the bound for the
    /// intent that answers a pairing.
    pub open spec fn ceiling_met(self) -> bool {
        self.sell_amount * self.price_limit.denominator <= self.price_limit.numerator
            * self.buy_amount
    }
}

/// A trader's wish to give `sell_amount` of `sell_token` for `buy_amount` of
/// `buy_token`, good until `expiry` (seconds since the Unix epoch).
#[derive(Debug, PartialEq, Eq)]
pub struct TradeIntent {
    pub trader: String,
    pub sell_token: String,
    pub buy_token: String,
    pub sell_amount: u64,
    pub buy_amount: u64,
    pub price_limit: PriceLimit,
    pub expiry: u64,
}

impl View for TradeIntent {
    type V = IntentView;

    open spec fn view(&self) -> IntentView {
        IntentView {
            trader: self.trader@,
            sell_token: self.sell_token@,
            buy_token: self.buy_token@,
            sell_amount: self.sell_amount,
            buy_amount: self.buy_amount,
            price_limit: self.price_limit,
            expiry: self.expiry,
        }
    }
}

impl Clone for TradeIntent {
    fn clone(&self) -> (res: Self)
        ensures
            res@ == self@,
    {
        TradeIntent {
            trader: self.trader.clone(),
            sell_token: self.sell_token.clone(),
            buy_token: self.buy_token.clone(),
            sell_amount: self.sell_amount,
            buy_amount: self.buy_amount,
            price_limit: self.price_limit,
            expiry: self.expiry,
        }
    }
}

/// The product of two 64-bit values fits in 128 bits.
proof fn lemma_product_fits(a: u64, b: u64)
    ensures
        a * b <= u128::MAX,
{
    assert(a * b <= 0xffff_ffff_ffff_ffff * 0xffff_ffff_ffff_ffff) by (nonlinear_arith)
        requires
            0 <= a <= 0xffff_ffff_ffff_ffff,
            0 <= b <= 0xffff_ffff_ffff_ffff,
    ;
}

impl TradeIntent {
    /// Whether the intent satisfies the model's invariant.
    pub fn is_valid(&self) -> (res: bool)
        ensures
            res == self@.is_valid(),
    {
        self.sell_amount > 0 && self.buy_amount > 0 && self.price_limit.denominator > 0
    }

    /// Whether the intent is dead at `now`.
    pub fn is_expired(&self, now: u64) -> (res: bool)
        ensures
            res == self@.is_expired(now),
    {
        self.expiry <= now
    }

    /// Whether the received rate reaches the price bound from below.
    pub fn floor_met(&self) -> (res: bool)
        ensures
            res == self@.floor_met(),
    {
        proof {
            lemma_product_fits(self.buy_amount, self.price_limit.denominator);
            lemma_product_fits(self.price_limit.numerator, self.sell_amount);
        }
        (self.buy_amount as u128) * (self.price_limit.denominator as u128) >= (
        self.price_limit.numerator as u128) * (self.sell_amount as u128)
    }

    /// Whether the inverse of the received rate stays within the price bound.
    pub fn ceiling_met(&self) -> (res: bool)
        ensures
            res == self@.ceiling_met(),
    {
        proof {
            lemma_product_fits(self.sell_amount, self.price_limit.denominator);
            lemma_product_fits(self.price_limit.numerator, self.buy_amount);
        }
        (self.sell_amount as u128) * (self.price_limit.denominator as u128) <= (
        self.price_limit.numerator as u128) * (self.buy_amount as u128)
    }
}

/// The mathematical content of a [`MatchedTrade`].
pub struct TradeView {
    pub trader1: Seq<char>,
    pub trader2: Seq<char>,
    pub token1: Seq<char>,
    pub token2: Seq<char>,
    pub amount1: u64,
    pub amount2: u64,
}

/// One settled pair: `trader1` gave `amount1` of `token1` to `trader2` and
/// received `amount2` of `token2` from them.
#[derive(Debug, PartialEq, Eq)]
pub struct MatchedTrade {
    pub trader1: String,
    pub trader2: String,
    pub token1: String,
    pub token2: String,
    pub amount1: u64,
    pub amount2: u64,
}

impl View for MatchedTrade {
    type V = TradeView;

    open spec fn view(&self) -> TradeView {
        TradeView {
            trader1: self.trader1@,
            trader2: self.trader2@,
            token1: self.token1@,
            token2: self.token2@,
            amount1: self.amount1,
            amount2: self.amount2,
        }
    }
}

impl Clone for MatchedTrade {
    fn clone(&self) -> (res: Self)
        ensures
            res@ == self@,
    {
        MatchedTrade {
            trader1: self.trader1.clone(),
            trader2: self.trader2.clone(),
            token1: self.token1.clone(),
            token2: self.token2.clone(),
            amount1: self.amount1,
            amount2: self.amount2,
        }
    }
}

/// A trade intent as it arrives: sealed bytes that only the holder of the
/// private key can open.
#[derive(Debug, PartialEq, Eq)]
pub struct EncryptedTradeIntent {
    pub encrypted_data: Vec<u8>,
}

impl EncryptedTradeIntent {
    /// Whether the envelope is worth opening: any payload that is not empty.
    pub fn is_candidate(&self) -> (res: bool)
        ensures
            res == (self.encrypted_data@.len() > 0),
    {
        self.encrypted_data.len() > 0
    }
}

/// The contents of a list of intents, in order.
pub open spec fn intent_views(v: Seq<TradeIntent>) -> Seq<IntentView> {
    Seq::new(v.len(), |i: int| v[i]@)
}

/// The contents of a list of settled pairs, in order.
pub open spec fn trade_views(v: Seq<MatchedTrade>) -> Seq<TradeView> {
    Seq::new(v.len(), |i: int| v[i]@)
}

/// The contents of a list of names, in order.
pub open spec fn names(v: Seq<String>) -> Seq<Seq<char>> {
    Seq::new(v.len(), |i: int| v[i]@)
}

/// Whether `name` occurs in `list`.
pub fn contains_name(list: &Vec<String>, name: &String) -> (res: bool)
    ensures
        res == names(list@).contains(name@),
{
    let mut i: usize = 0;
    while i < list.len()
        invariant
            i <= list.len(),
            forall|k: int| 0 <= k < i ==> list@[k]@ != name@,
        decreases list.len() - i,
    {
        if list[i] == *name {
            assert(names(list@)[i as int] == name@);
            return true;
        }
        i += 1;
    }
    false
}

} // verus!
