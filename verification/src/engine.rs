//! The batch matching algorithm: an all-or-nothing, first-fit scan of a book.

use vstd::prelude::*;
use crate::book::{BucketView, OrderBook, bucket_index, has_bucket, in_book, offers};
use crate::model::{
    IntentView, MatchedTrade, TradeIntent, TradeView, contains_name, names, trade_views,
};

verus! {

/// Intents `a` and `c` mirror each other: each sells the token the other
/// buys, the amounts agree exactly, and both price bounds are respected, that
/// of `a` as a floor on what it receives and that of `c` as a ceiling on the
/// inverse rate.
pub open spec fn pair_ok(a: IntentView, c: IntentView) -> bool {
    &&& c.buy_token == a.sell_token
    &&& c.sell_token == a.buy_token
    &&& a.sell_amount == c.buy_amount
    &&& a.buy_amount == c.sell_amount
    &&& a.floor_met()
    &&& c.ceiling_met()
}

/// Candidate `c` can settle against `a` in a batch run at `now` in which the
/// traders in `matched` have already settled.
pub open spec fn answers(a: IntentView, c: IntentView, now: u64, matched: Seq<Seq<char>>) -> bool {
    &&& !c.is_expired(now)
    &&& !matched.contains(c.trader)
    &&& c.trader != a.trader
    &&& pair_ok(a, c)
}

/// Position `j` holds the oldest candidate that answers `a`.
pub open spec fn is_first_answer(
    a: IntentView,
    candidates: Seq<IntentView>,
    now: u64,
    matched: Seq<Seq<char>>,
    j: int,
) -> bool {
    &&& 0 <= j < candidates.len()
    &&& answers(a, candidates[j], now, matched)
    &&& forall|i: int| 0 <= i < j ==> !answers(a, #[trigger] candidates[i], now, matched)
}

/// The position of the oldest candidate that answers `a`, if any does.
pub open spec fn first_answer(
    a: IntentView,
    candidates: Seq<IntentView>,
    now: u64,
    matched: Seq<Seq<char>>,
) -> Option<int> {
    if exists|j: int| is_first_answer(a, candidates, now, matched, j) {
        Some(choose|j: int| is_first_answer(a, candidates, now, matched, j))
    } else {
        None
    }
}

/// The record of the pair in which `a` started and `c` answered.
pub open spec fn trade_of(a: IntentView, c: IntentView) -> TradeView {
    TradeView {
        trader1: a.trader,
        trader2: c.trader,
        token1: a.sell_token,
        token2: a.buy_token,
        amount1: a.sell_amount,
        amount2: a.buy_amount,
    }
}

/// What a batch has produced so far: the pairs in discovery order, and the
/// traders that have settled, two per pair.
pub struct BatchView {
    pub trades: Seq<TradeView>,
    pub matched: Seq<Seq<char>>,
}

/// The state of a batch before anything was scanned.
pub open spec fn batch_start() -> BatchView {
    BatchView { trades: Seq::empty(), matched: Seq::empty() }
}

/// The batch after intent `a` had its turn: if it is live and an offer of the
/// token it wants answers it, the oldest such offer is paired with it.
pub open spec fn step(book: Seq<BucketView>, now: u64, st: BatchView, a: IntentView) -> BatchView {
    if a.is_expired(now) || st.matched.contains(a.trader) {
        st
    } else {
        let candidates = offers(book, a.buy_token);
        match first_answer(a, candidates, now, st.matched) {
            Some(j) => BatchView {
                trades: st.trades.push(trade_of(a, candidates[j])),
                matched: st.matched.push(a.trader).push(candidates[j].trader),
            },
            None => st,
        }
    }
}

/// The batch after each of `intents` had its turn, oldest first.
pub open spec fn scan_intents(
    book: Seq<BucketView>,
    now: u64,
    st: BatchView,
    intents: Seq<IntentView>,
) -> BatchView
    decreases intents.len(),
{
    if intents.len() == 0 {
        st
    } else {
        step(book, now, scan_intents(book, now, st, intents.drop_last()), intents.last())
    }
}

/// The batch after each of `buckets` was scanned, in order.
pub open spec fn scan_buckets(
    book: Seq<BucketView>,
    now: u64,
    st: BatchView,
    buckets: Seq<BucketView>,
) -> BatchView
    decreases buckets.len(),
{
    if buckets.len() == 0 {
        st
    } else {
        scan_intents(
            book,
            now,
            scan_buckets(book, now, st, buckets.drop_last()),
            buckets.last().intents,
        )
    }
}

/// The outcome of one batch over the snapshot `book` at time `now`.
pub open spec fn batch_outcome(book: Seq<BucketView>, now: u64) -> BatchView {
    scan_buckets(book, now, batch_start(), book)
}

/// Whether `a` and `c` mirror each other.
pub fn pairs_with(a: &TradeIntent, c: &TradeIntent) -> (res: bool)
    ensures
        res == pair_ok(a@, c@),
{
    c.buy_token == a.sell_token && c.sell_token == a.buy_token && a.sell_amount == c.buy_amount
        && a.buy_amount == c.sell_amount && a.floor_met() && c.ceiling_met()
}

/// Finds the oldest offer in `book` that answers `a`, as the position of its
/// bucket and its position within the bucket.
pub fn find_counter(book: &OrderBook, a: &TradeIntent, now: u64, matched: &Vec<String>) -> (res:
    Option<(usize, usize)>)
    requires
        book.wf(),
    ensures
        match res {
            Some((k, j)) => {
                &&& has_bucket(book@, a@.buy_token)
                &&& k == bucket_index(book@, a@.buy_token)
                &&& first_answer(a@, offers(book@, a@.buy_token), now, names(matched@)) == Some(
                    j as int,
                )
            },
            None => first_answer(a@, offers(book@, a@.buy_token), now, names(matched@)) is None,
        },
{
    match book.find_bucket(&a.buy_token) {
        None => None,
        Some(k) => {
            let ghost candidates = offers(book@, a@.buy_token);
            let n = book.bucket_len(k);
            let mut j: usize = 0;
            while j < n
                invariant
                    j <= n,
                    book.wf(),
                    k < book@.len(),
                    candidates == book@[k as int].intents,
                    n == candidates.len(),
                    forall|i: int|
                        0 <= i < j ==> !answers(a@, #[trigger] candidates[i], now, names(matched@)),
                decreases n - j,
            {
                let c = book.intent(k, j);
                if !c.is_expired(now) && !contains_name(matched, &c.trader) && c.trader != a.trader
                    && pairs_with(a, c) {
                    assert(is_first_answer(a@, candidates, now, names(matched@), j as int));
                    return Some((k, j));
                }
                j += 1;
            }
            None
        },
    }
}

/// Runs one batch over `book` at time `now`. Returns the pairs found, in
/// discovery order, and the traders that settled.
///
/// The result is a function of the snapshot and the time alone.
pub fn find_matches(book: &OrderBook, now: u64) -> (res: (Vec<MatchedTrade>, Vec<String>))
    requires
        book.wf(),
    ensures
        trade_views(res.0@) == batch_outcome(book@, now).trades,
        names(res.1@) == batch_outcome(book@, now).matched,
{
    let mut trades: Vec<MatchedTrade> = Vec::new();
    let mut matched: Vec<String> = Vec::new();
    let ghost bk = book@;
    let buckets = book.bucket_count();
    let mut k: usize = 0;
    assert(trade_views(trades@) =~= batch_start().trades);
    assert(names(matched@) =~= batch_start().matched);
    assert(bk.take(0) =~= Seq::<BucketView>::empty());
    while k < buckets
        invariant
            k <= buckets,
            buckets == bk.len(),
            bk == book@,
            book.wf(),
            trade_views(trades@) == scan_buckets(bk, now, batch_start(), bk.take(k as int)).trades,
            names(matched@) == scan_buckets(bk, now, batch_start(), bk.take(k as int)).matched,
        decreases buckets - k,
    {
        let ghost before = scan_buckets(bk, now, batch_start(), bk.take(k as int));
        let ghost intents = bk[k as int].intents;
        let n = book.bucket_len(k);
        let mut i: usize = 0;
        assert(intents.take(0) =~= Seq::<IntentView>::empty());
        while i < n
            invariant
                i <= n,
                n == intents.len(),
                k < buckets,
                buckets == bk.len(),
                bk == book@,
                intents == bk[k as int].intents,
                book.wf(),
                trade_views(trades@) == scan_intents(bk, now, before, intents.take(i as int)).trades,
                names(matched@) == scan_intents(bk, now, before, intents.take(i as int)).matched,
            decreases n - i,
        {
            let a = book.intent(k, i);
            let ghost st = scan_intents(bk, now, before, intents.take(i as int));
            proof {
                assert(intents.take(i + 1).drop_last() =~= intents.take(i as int));
                assert(intents.take(i + 1).last() == a@);
                assert(scan_intents(bk, now, before, intents.take(i + 1)) == step(bk, now, st, a@));
            }
            if !a.is_expired(now) && !contains_name(&matched, &a.trader) {
                match find_counter(book, a, now, &matched) {
                    Some((kc, j)) => {
                        let c = book.intent(kc, j);
                        let trade = MatchedTrade {
                            trader1: a.trader.clone(),
                            trader2: c.trader.clone(),
                            token1: a.sell_token.clone(),
                            token2: a.buy_token.clone(),
                            amount1: a.sell_amount,
                            amount2: a.buy_amount,
                        };
                        let ghost old_trades = trades@;
                        let ghost old_matched = matched@;
                        trades.push(trade);
                        matched.push(a.trader.clone());
                        matched.push(c.trader.clone());
                        proof {
                            assert(trade_views(trades@) =~= trade_views(old_trades).push(
                                trade_of(a@, c@),
                            ));
                            assert(names(matched@) =~= names(old_matched).push(a@.trader).push(
                                c@.trader,
                            ));
                        }
                    },
                    None => {},
                }
            }
            i += 1;
        }
        proof {
            assert(intents.take(n as int) =~= intents);
            assert(bk.take(k + 1).drop_last() =~= bk.take(k as int));
            assert(bk.take(k + 1).last() == bk[k as int]);
        }
        k += 1;
    }
    proof {
        assert(bk.take(buckets as int) =~= bk);
    }
    (trades, matched)
}

/// The traders of `trades`, two per pair, in order.
pub open spec fn participants(trades: Seq<TradeView>) -> Seq<Seq<char>>
    decreases trades.len(),
{
    if trades.len() == 0 {
        Seq::empty()
    } else {
        participants(trades.drop_last()).push(trades.last().trader1).push(trades.last().trader2)
    }
}

/// Pair `t` records two intents of `book`, both unexpired at `now`, of two
/// different traders, that mirror each other.
pub open spec fn from_live_pair(book: Seq<BucketView>, now: u64, t: TradeView) -> bool {
    exists|a: IntentView, c: IntentView|
        #[trigger] trade_of(a, c) == t && in_book(book, a) && in_book(book, c) && !a.is_expired(
            now,
        ) && !c.is_expired(now) && a.trader != c.trader && pair_ok(a, c)
}

/// What holds of a batch at every point of its scan.
pub open spec fn batch_inv(book: Seq<BucketView>, now: u64, st: BatchView) -> bool {
    &&& st.matched == participants(st.trades)
    &&& st.matched.no_duplicates()
    &&& forall|n: int| 0 <= n < st.trades.len() ==> from_live_pair(book, now, #[trigger] st.trades[n])
}

proof fn lemma_participants_len(trades: Seq<TradeView>)
    ensures
        participants(trades).len() == 2 * trades.len(),
    decreases trades.len(),
{
    if trades.len() > 0 {
        lemma_participants_len(trades.drop_last());
    }
}

proof fn lemma_participants_index(trades: Seq<TradeView>, n: int)
    requires
        0 <= n < trades.len(),
    ensures
        participants(trades).len() == 2 * trades.len(),
        participants(trades)[2 * n] == trades[n].trader1,
        participants(trades)[2 * n + 1] == trades[n].trader2,
    decreases trades.len(),
{
    lemma_participants_len(trades);
    lemma_participants_len(trades.drop_last());
    if n < trades.len() - 1 {
        lemma_participants_index(trades.drop_last(), n);
    }
}

proof fn lemma_step_keeps(book: Seq<BucketView>, now: u64, st: BatchView, a: IntentView)
    requires
        batch_inv(book, now, st),
        in_book(book, a),
    ensures
        batch_inv(book, now, step(book, now, st, a)),
{
    let next = step(book, now, st, a);
    if !(a.is_expired(now) || st.matched.contains(a.trader)) {
        let candidates = offers(book, a.buy_token);
        if let Some(j) = first_answer(a, candidates, now, st.matched) {
            assert(is_first_answer(a, candidates, now, st.matched, j));
            let c = candidates[j];
            let t = trade_of(a, c);
            assert(has_bucket(book, a.buy_token));
            assert(book[bucket_index(book, a.buy_token)].intents[j] == c);
            assert(in_book(book, c));
            assert(next.trades.drop_last() =~= st.trades);
            assert(next.matched == participants(next.trades));
            assert(forall|i: int| 0 <= i < st.matched.len() ==> st.matched[i] != a.trader);
            assert(forall|i: int| 0 <= i < st.matched.len() ==> st.matched[i] != c.trader);
            assert(next.matched.no_duplicates());
            assert(from_live_pair(book, now, t));
            assert forall|n: int| 0 <= n < next.trades.len() implies from_live_pair(
                book,
                now,
                #[trigger] next.trades[n],
            ) by {
                if n < st.trades.len() {
                    assert(next.trades[n] == st.trades[n]);
                }
            }
        }
    }
}

proof fn lemma_scan_intents_keeps(
    book: Seq<BucketView>,
    now: u64,
    st: BatchView,
    intents: Seq<IntentView>,
)
    requires
        batch_inv(book, now, st),
        forall|i: int| 0 <= i < intents.len() ==> in_book(book, #[trigger] intents[i]),
    ensures
        batch_inv(book, now, scan_intents(book, now, st, intents)),
    decreases intents.len(),
{
    if intents.len() > 0 {
        let front = intents.drop_last();
        assert forall|i: int| 0 <= i < front.len() implies in_book(book, #[trigger] front[i]) by {
            assert(front[i] == intents[i]);
        }
        lemma_scan_intents_keeps(book, now, st, front);
        lemma_step_keeps(book, now, scan_intents(book, now, st, front), intents.last());
    }
}

proof fn lemma_scan_buckets_keeps(
    book: Seq<BucketView>,
    now: u64,
    st: BatchView,
    buckets: Seq<BucketView>,
)
    requires
        batch_inv(book, now, st),
        forall|k: int, i: int|
            0 <= k < buckets.len() && 0 <= i < buckets[k].intents.len() ==> in_book(
                book,
                #[trigger] buckets[k].intents[i],
            ),
    ensures
        batch_inv(book, now, scan_buckets(book, now, st, buckets)),
    decreases buckets.len(),
{
    if buckets.len() > 0 {
        let front = buckets.drop_last();
        assert forall|k: int, i: int|
            0 <= k < front.len() && 0 <= i < front[k].intents.len() implies in_book(
            book,
            #[trigger] front[k].intents[i],
        ) by {
            assert(front[k] == buckets[k]);
        }
        lemma_scan_buckets_keeps(book, now, st, front);
        let last = buckets.last().intents;
        assert forall|i: int| 0 <= i < last.len() implies in_book(book, #[trigger] last[i]) by {
            assert(last[i] == buckets[buckets.len() - 1].intents[i]);
        }
        lemma_scan_intents_keeps(book, now, scan_buckets(book, now, st, front), last);
    }
}

/// The invariant of the scan holds of a batch's outcome.
pub proof fn lemma_outcome_inv(book: Seq<BucketView>, now: u64)
    ensures
        batch_inv(book, now, batch_outcome(book, now)),
{
    assert(batch_inv(book, now, batch_start()));
    lemma_scan_buckets_keeps(book, now, batch_start(), book);
}

/// Every pair of a batch records two intents of the book that were both
/// unexpired when the batch ran and that mirror each other: an intent whose
/// expiry is at or before the time of the batch is on neither side of a pair.
pub proof fn lemma_pairs_are_live(book: Seq<BucketView>, now: u64, n: int)
    requires
        0 <= n < batch_outcome(book, now).trades.len(),
    ensures
        from_live_pair(book, now, batch_outcome(book, now).trades[n]),
{
    lemma_outcome_inv(book, now);
}

/// A trader all of whose intents have expired by the time of the batch takes
/// part in no pair of it.
pub proof fn lemma_expired_never_matched(book: Seq<BucketView>, now: u64, trader: Seq<char>)
    requires
        forall|k: int, i: int|
            0 <= k < book.len() && 0 <= i < book[k].intents.len() && (
            #[trigger] book[k].intents[i]).trader == trader ==> book[k].intents[i].is_expired(now),
    ensures
        forall|n: int|
            0 <= n < batch_outcome(book, now).trades.len() ==> {
                &&& (#[trigger] batch_outcome(book, now).trades[n]).trader1 != trader
                &&& batch_outcome(book, now).trades[n].trader2 != trader
            },
{
    lemma_outcome_inv(book, now);
    let trades = batch_outcome(book, now).trades;
    assert forall|n: int| 0 <= n < trades.len() implies {
        &&& (#[trigger] trades[n]).trader1 != trader
        &&& trades[n].trader2 != trader
    } by {
        assert(from_live_pair(book, now, trades[n]));
        let (a, c) = choose|a: IntentView, c: IntentView|
            #[trigger] trade_of(a, c) == trades[n] && in_book(book, a) && in_book(book, c)
                && !a.is_expired(now) && !c.is_expired(now) && a.trader != c.trader && pair_ok(
                a,
                c,
            );
        assert(in_book(book, a));
        assert(in_book(book, c));
    }
}

/// No pair of a batch has the same trader on both sides.
pub proof fn lemma_no_self_trade(book: Seq<BucketView>, now: u64, n: int)
    requires
        0 <= n < batch_outcome(book, now).trades.len(),
    ensures
        batch_outcome(book, now).trades[n].trader1 != batch_outcome(book, now).trades[n].trader2,
{
    lemma_outcome_inv(book, now);
    assert(from_live_pair(book, now, batch_outcome(book, now).trades[n]));
}

/// No trader takes part in two pairs of one batch.
pub proof fn lemma_single_fill(book: Seq<BucketView>, now: u64, m: int, n: int)
    requires
        0 <= m < n < batch_outcome(book, now).trades.len(),
    ensures
        batch_outcome(book, now).trades[m].trader1 != batch_outcome(book, now).trades[n].trader1,
        batch_outcome(book, now).trades[m].trader1 != batch_outcome(book, now).trades[n].trader2,
        batch_outcome(book, now).trades[m].trader2 != batch_outcome(book, now).trades[n].trader1,
        batch_outcome(book, now).trades[m].trader2 != batch_outcome(book, now).trades[n].trader2,
{
    lemma_outcome_inv(book, now);
    let out = batch_outcome(book, now);
    lemma_participants_index(out.trades, m);
    lemma_participants_index(out.trades, n);
    assert(out.matched[2 * m] != out.matched[2 * n]);
    assert(out.matched[2 * m] != out.matched[2 * n + 1]);
    assert(out.matched[2 * m + 1] != out.matched[2 * n]);
    assert(out.matched[2 * m + 1] != out.matched[2 * n + 1]);
}

/// The traders a batch marks as settled are exactly the two sides of its
/// pairs: a trader is marked if and only if it is on one side of a pair.
pub proof fn lemma_matched_are_participants(book: Seq<BucketView>, now: u64, trader: Seq<char>)
    ensures
        batch_outcome(book, now).matched.contains(trader) <==> exists|n: int|
            0 <= n < batch_outcome(book, now).trades.len() && ((
            #[trigger] batch_outcome(book, now).trades[n]).trader1 == trader || batch_outcome(
                book,
                now,
            ).trades[n].trader2 == trader),
{
    lemma_outcome_inv(book, now);
    let out = batch_outcome(book, now);
    lemma_participants_len(out.trades);
    if out.matched.contains(trader) {
        let i = choose|i: int| 0 <= i < out.matched.len() && out.matched[i] == trader;
        let n = i / 2;
        lemma_participants_index(out.trades, n);
        assert(out.trades[n].trader1 == trader || out.trades[n].trader2 == trader);
    }
    if exists|n: int|
        0 <= n < out.trades.len() && ((#[trigger] out.trades[n]).trader1 == trader
            || out.trades[n].trader2 == trader) {
        let n = choose|n: int|
            0 <= n < out.trades.len() && ((#[trigger] out.trades[n]).trader1 == trader
                || out.trades[n].trader2 == trader);
        lemma_participants_index(out.trades, n);
        assert(out.matched[2 * n] == out.trades[n].trader1);
        assert(out.matched[2 * n + 1] == out.trades[n].trader2);
    }
}

/// Matching is a function of the snapshot and the time: two runs over equal
/// snapshots at equal times give the same pairs in the same order.
pub proof fn lemma_matching_deterministic(
    book1: Seq<BucketView>,
    now1: u64,
    book2: Seq<BucketView>,
    now2: u64,
)
    requires
        book1 =~~= book2,
        now1 == now2,
    ensures
        batch_outcome(book1, now1).trades == batch_outcome(book2, now2).trades,
        batch_outcome(book1, now1).matched == batch_outcome(book2, now2).matched,
{
}

} // verus!
