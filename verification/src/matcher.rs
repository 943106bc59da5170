//! The batch coordinator: one order book, one ledger, and the rule for when
//! a batch may run.

use vstd::prelude::*;
use crate::attest::{
    AttestError, AttestationView, SignedAttestation, sign_result, signing_outcome,
};
use crate::book::{BucketView, OrderBook, admissible, admitted, cleaned, stays};
use crate::engine::{batch_outcome, find_matches, lemma_single_fill};
use crate::ledger::{
    Balances, Ledger, batch_fits, lemma_room_persists, room_for_pair, settled_all, settled_pair,
    single_fill,
};
use crate::model::{IntentView, MatchedTrade, TradeIntent, intent_views, names, trade_views};

verus! {

/// A batch may run at `now` if at least `interval` seconds have passed since
/// the batch at `last`. A clock that reads earlier than `last` opens nothing.
pub open spec fn gate_open(last: u64, interval: u64, now: u64) -> bool {
    now >= last && now - last >= interval
}

/// The book after each of `intents` was offered to it at `now`, in order:
/// those that are valid and unexpired are taken, the others dropped.
pub open spec fn ingested(book: Seq<BucketView>, intents: Seq<IntentView>, now: u64) -> Seq<
    BucketView,
>
    decreases intents.len(),
{
    if intents.len() == 0 {
        book
    } else {
        let front = ingested(book, intents.drop_last(), now);
        if admissible(intents.last(), now) {
            admitted(front, intents.last())
        } else {
            front
        }
    }
}

/// Why a batch did not run although its time had come.
#[derive(Clone, Copy, Debug, PartialEq, Eq)]
pub enum BatchError {
    /// A pair was found whose settlement would move a balance that is
    /// already beyond the limit. Nothing was settled.
    BalanceOutOfRange,
}

/// The owner of the order book and the ledger. All changes to either pass
/// through it, one batch at a time.
pub struct TEEOrderMatcher {
    order_book: OrderBook,
    batch_interval: u64,
    last_batch_time: u64,
    new_balance_state: Ledger,
    tee_private_key: Vec<u8>,
    tee_signing_key: Vec<u8>,
}

impl TEEOrderMatcher {
    /// The contents of the order book.
    pub closed spec fn book(&self) -> Seq<BucketView> {
        self.order_book@
    }

    /// The contents of the ledger.
    pub closed spec fn balances(&self) -> Balances {
        self.new_balance_state@
    }

    /// The least number of seconds between two batches.
    pub closed spec fn interval(&self) -> u64 {
        self.batch_interval
    }

    /// The time of the last batch that ran, or of creation.
    pub closed spec fn last_batch(&self) -> u64 {
        self.last_batch_time
    }

    /// The key that opens sealed intents.
    pub closed spec fn private_key(&self) -> Seq<u8> {
        self.tee_private_key@
    }

    /// The key that signs attestations.
    pub closed spec fn signing_key(&self) -> Seq<u8> {
        self.tee_signing_key@
    }

    /// The invariants of book and ledger hold.
    pub closed spec fn wf(&self) -> bool {
        self.order_book.wf() && self.new_balance_state.wf()
    }

    /// Everything but the order book is as in `other`.
    pub open spec fn same_but_book(&self, other: &Self) -> bool {
        &&& self.balances() == other.balances()
        &&& self.interval() == other.interval()
        &&& self.last_batch() == other.last_batch()
        &&& self.private_key() == other.private_key()
        &&& self.signing_key() == other.signing_key()
    }

    /// Everything is as in `other`.
    pub open spec fn same_as(&self, other: &Self) -> bool {
        self.book() == other.book() && self.same_but_book(other)
    }

    /// A matcher with an empty book and an empty ledger, created at `now`.
    /// The first batch can run `batch_interval` seconds later.
    pub fn new(batch_interval: u64, now: u64, tee_private_key: Vec<u8>, tee_signing_key: Vec<u8>) -> (res:
        Self)
        ensures
            res.wf(),
            res.book() == Seq::<BucketView>::empty(),
            res.balances() == Map::<(Seq<char>, Seq<char>), int>::empty(),
            res.interval() == batch_interval,
            res.last_batch() == now,
            res.private_key() == tee_private_key@,
            res.signing_key() == tee_signing_key@,
    {
        TEEOrderMatcher {
            order_book: OrderBook::new(),
            batch_interval,
            last_batch_time: now,
            new_balance_state: Ledger::new(),
            tee_private_key,
            tee_signing_key,
        }
    }

    /// The order book.
    pub fn order_book(&self) -> (res: &OrderBook)
        ensures
            res@ == self.book(),
            self.wf() ==> res.wf(),
    {
        &self.order_book
    }

    /// The ledger.
    pub fn balance_state(&self) -> (res: &Ledger)
        ensures
            res@ == self.balances(),
            self.wf() ==> res.wf(),
    {
        &self.new_balance_state
    }

    /// The least number of seconds between two batches.
    pub fn batch_interval(&self) -> (res: u64)
        ensures
            res == self.interval(),
    {
        self.batch_interval
    }

    /// The time of the last batch that ran, or of creation.
    pub fn last_batch_time(&self) -> (res: u64)
        ensures
            res == self.last_batch(),
    {
        self.last_batch_time
    }

    /// The key that opens sealed intents.
    pub fn tee_private_key(&self) -> (res: &Vec<u8>)
        ensures
            res@ == self.private_key(),
    {
        &self.tee_private_key
    }

    /// The key that signs attestations.
    pub fn tee_signing_key(&self) -> (res: &Vec<u8>)
        ensures
            res@ == self.signing_key(),
    {
        &self.tee_signing_key
    }

    /// Whether a batch may run at `now`.
    pub fn batch_due(&self, now: u64) -> (res: bool)
        ensures
            res == gate_open(self.last_batch(), self.interval(), now),
    {
        now >= self.last_batch_time && now - self.last_batch_time >= self.batch_interval
    }

    /// Offers `intent` to the order book at `now`. An intent that is invalid
    /// or already expired is dropped without a trace.
    pub fn add_trade_intent(&mut self, intent: TradeIntent, now: u64) -> (res: bool)
        requires
            old(self).wf(),
        ensures
            final(self).wf(),
            res == admissible(intent@, now),
            res ==> final(self).book() == admitted(old(self).book(), intent@),
            !res ==> final(self).book() == old(self).book(),
            final(self).same_but_book(old(self)),
    {
        self.order_book.accept(intent, now)
    }

    /// Offers each of `intents` to the order book at `now`, in order.
    pub fn add_trade_intents(&mut self, intents: Vec<TradeIntent>, now: u64)
        requires
            old(self).wf(),
        ensures
            final(self).wf(),
            final(self).book() == ingested(old(self).book(), intent_views(intents@), now),
            final(self).same_but_book(old(self)),
    {
        let ghost offered = intent_views(intents@);
        let mut i: usize = 0;
        assert(offered.take(0) =~= Seq::<IntentView>::empty());
        while i < intents.len()
            invariant
                i <= intents.len(),
                offered == intent_views(intents@),
                self.wf(),
                self.book() == ingested(old(self).book(), offered.take(i as int), now),
                self.same_but_book(old(self)),
            decreases intents.len() - i,
        {
            proof {
                assert(offered.take(i + 1).drop_last() =~= offered.take(i as int));
                assert(offered.take(i + 1).last() == intents@[i as int]@);
            }
            let intent = intents[i].clone();
            self.add_trade_intent(intent, now);
            i += 1;
        }
        assert(offered.take(i as int) =~= offered);
    }

    /// Removes from the order book every intent that has expired at `now` or
    /// whose trader is among `matched_traders`, and every bucket left empty.
    pub fn clean_order_book(&mut self, matched_traders: &Vec<String>, now: u64)
        requires
            old(self).wf(),
        ensures
            final(self).wf(),
            final(self).book() == cleaned(old(self).book(), names(matched_traders@), now),
            forall|k: int, i: int|
                0 <= k < final(self).book().len() && 0 <= i < final(self).book()[k].intents.len()
                    ==> stays(
                    #[trigger] final(self).book()[k].intents[i],
                    names(matched_traders@),
                    now,
                ),
            final(self).same_but_book(old(self)),
    {
        self.order_book.clean(matched_traders, now);
    }

    /// Books `intent` and `counter_intent` in the ledger, each by its own
    /// terms, if the four balances this moves are within the limit. Returns
    /// whether it did.
    pub fn update_balance_state(&mut self, intent: &TradeIntent, counter_intent: &TradeIntent) -> (res:
        bool)
        requires
            old(self).wf(),
        ensures
            final(self).wf(),
            res == room_for_pair(old(self).balances(), intent@, counter_intent@),
            res ==> final(self).balances() == settled_pair(
                old(self).balances(),
                intent@,
                counter_intent@,
            ),
            !res ==> final(self).balances() == old(self).balances(),
            final(self).book() == old(self).book(),
            final(self).interval() == old(self).interval(),
            final(self).last_batch() == old(self).last_batch(),
            final(self).private_key() == old(self).private_key(),
            final(self).signing_key() == old(self).signing_key(),
    {
        if !self.new_balance_state.has_room_for_pair(intent, counter_intent) {
            return false;
        }
        self.new_balance_state.settle_pair(intent, counter_intent);
        true
    }

    /// Replaces the ledger, as an operator does who resets the balances.
    pub fn reset_balance_state(&mut self, ledger: Ledger)
        requires
            old(self).wf(),
            ledger.wf(),
        ensures
            final(self).wf(),
            final(self).balances() == ledger@,
            final(self).book() == old(self).book(),
            final(self).interval() == old(self).interval(),
            final(self).last_batch() == old(self).last_batch(),
            final(self).private_key() == old(self).private_key(),
            final(self).signing_key() == old(self).signing_key(),
    {
        self.new_balance_state = ledger;
    }

    /// Runs a batch at `now` if one is due.
    ///
    /// Before its time a batch finds nothing and changes nothing. When it is
    /// due, the book is scanned as it stands, every pair found is settled in
    /// the ledger in discovery order, the book is cleaned of the settled
    /// traders and of what has expired, and `now` becomes the time of the
    /// last batch. If a pair would move a balance that is already beyond the
    /// limit, the batch is refused as a whole and nothing changes.
    pub fn match_orders(&mut self, now: u64) -> (res: Result<Vec<MatchedTrade>, BatchError>)
        requires
            old(self).wf(),
        ensures
            final(self).wf(),
            final(self).interval() == old(self).interval(),
            final(self).private_key() == old(self).private_key(),
            final(self).signing_key() == old(self).signing_key(),
            !gate_open(old(self).last_batch(), old(self).interval(), now) ==> {
                &&& res is Ok
                &&& res->Ok_0@.len() == 0
                &&& final(self).same_as(old(self))
            },
            gate_open(old(self).last_batch(), old(self).interval(), now) && !batch_fits(
                old(self).balances(),
                batch_outcome(old(self).book(), now).trades,
            ) ==> {
                &&& res == Err::<Vec<MatchedTrade>, BatchError>(BatchError::BalanceOutOfRange)
                &&& final(self).same_as(old(self))
            },
            gate_open(old(self).last_batch(), old(self).interval(), now) && batch_fits(
                old(self).balances(),
                batch_outcome(old(self).book(), now).trades,
            ) ==> {
                &&& res is Ok
                &&& trade_views(res->Ok_0@) == batch_outcome(old(self).book(), now).trades
                &&& final(self).balances() == settled_all(
                    old(self).balances(),
                    batch_outcome(old(self).book(), now).trades,
                )
                &&& final(self).book() == cleaned(
                    old(self).book(),
                    batch_outcome(old(self).book(), now).matched,
                    now,
                )
                &&& final(self).last_batch() == now
            },
    {
        if !self.batch_due(now) {
            return Ok(Vec::new());
        }
        let (trades, matched) = find_matches(&self.order_book, now);
        if !self.new_balance_state.has_room_for_all(&trades) {
            return Err(BatchError::BalanceOutOfRange);
        }
        proof {
            let book = self.book();
            let found = trade_views(trades@);
            assert forall|m: int, n: int| 0 <= m < n < found.len() implies {
                &&& (#[trigger] found[m]).trader1 != (#[trigger] found[n]).trader1
                &&& found[m].trader1 != found[n].trader2
                &&& found[m].trader2 != found[n].trader1
                &&& found[m].trader2 != found[n].trader2
            } by {
                lemma_single_fill(book, now, m, n);
            }
            assert(single_fill(found));
            lemma_room_persists(self.balances(), found);
        }
        self.new_balance_state.settle_all(&trades);
        self.order_book.clean(&matched, now);
        self.last_batch_time = now;
        Ok(trades)
    }

    /// Signs the serialized result `payload`, stamped `timestamp`, with the
    /// matcher's signing key. Neither book nor ledger is touched.
    pub fn attest(&self, payload: Vec<u8>, timestamp: u64) -> (res: Result<
        SignedAttestation,
        AttestError,
    >)
        ensures
            match res {
                Ok(att) => {
                    &&& signing_outcome(self.signing_key(), timestamp, payload@) == Ok::<
                        AttestationView,
                        AttestError,
                    >(att@)
                    &&& att.digest@.len() == 32
                    &&& att.signature@.len() == 64
                    &&& att.recovery_id <= 3
                },
                Err(e) => signing_outcome(self.signing_key(), timestamp, payload@) == Err::<
                    AttestationView,
                    AttestError,
                >(e),
            },
            self.signing_key().len() < 24 || self.signing_key().len() > 32 ==> res == Err::<
                SignedAttestation,
                AttestError,
            >(AttestError::SigningUnavailable),
    {
        sign_result(self.tee_signing_key.as_slice(), payload, timestamp)
    }

    /// Takes in `intents` at `now` and then runs a batch if one is due: the
    /// whole of one request.
    pub fn process_batch(&mut self, intents: Vec<TradeIntent>, now: u64) -> (res: Result<
        Vec<MatchedTrade>,
        BatchError,
    >)
        requires
            old(self).wf(),
        ensures
            final(self).wf(),
            final(self).interval() == old(self).interval(),
            final(self).private_key() == old(self).private_key(),
            final(self).signing_key() == old(self).signing_key(),
            ({
                let book = ingested(old(self).book(), intent_views(intents@), now);
                let due = gate_open(old(self).last_batch(), old(self).interval(), now);
                let found = batch_outcome(book, now);
                if due && batch_fits(old(self).balances(), found.trades) {
                    &&& res is Ok
                    &&& trade_views(res->Ok_0@) == found.trades
                    &&& final(self).balances() == settled_all(old(self).balances(), found.trades)
                    &&& final(self).book() == cleaned(book, found.matched, now)
                    &&& final(self).last_batch() == now
                } else {
                    &&& due ==> res == Err::<Vec<MatchedTrade>, BatchError>(
                        BatchError::BalanceOutOfRange,
                    )
                    &&& !due ==> res is Ok && res->Ok_0@.len() == 0
                    &&& final(self).book() == book
                    &&& final(self).balances() == old(self).balances()
                    &&& final(self).last_batch() == old(self).last_batch()
                }
            }),
    {
        self.add_trade_intents(intents, now);
        self.match_orders(now)
    }
}

} // verus!
