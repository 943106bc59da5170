//! The order book: live intents, grouped by the token they offer.

use vstd::prelude::*;
use crate::model::{IntentView, TradeIntent, contains_name, intent_views, names};

verus! {

/// The mathematical content of one bucket: a token and the intents that
/// offer it, oldest first.
pub struct BucketView {
    pub token: Seq<char>,
    pub intents: Seq<IntentView>,
}

/// The intents that offer one token for sale, in the order they were admitted.
pub struct Bucket {
    token: String,
    intents: Vec<TradeIntent>,
}

impl View for Bucket {
    type V = BucketView;

    closed spec fn view(&self) -> BucketView {
        BucketView { token: self.token@, intents: intent_views(self.intents@) }
    }
}

/// The invariant of a book: no bucket is empty, every intent is valid and
/// sits in the bucket of the token it sells, and no token has two buckets.
pub open spec fn book_wf(book: Seq<BucketView>) -> bool {
    &&& forall|k: int| 0 <= k < book.len() ==> (#[trigger] book[k]).intents.len() > 0
    &&& forall|k: int, i: int|
        0 <= k < book.len() && 0 <= i < book[k].intents.len() ==> {
            &&& (#[trigger] book[k].intents[i]).sell_token == book[k].token
            &&& book[k].intents[i].is_valid()
        }
    &&& forall|k: int, l: int|
        0 <= k < book.len() && 0 <= l < book.len() && k != l ==> (#[trigger] book[k]).token != (
        #[trigger] book[l]).token
}

/// Whether some bucket of `book` is keyed by `token`.
pub open spec fn has_bucket(book: Seq<BucketView>, token: Seq<char>) -> bool {
    exists|k: int| 0 <= k < book.len() && (#[trigger] book[k]).token == token
}

/// The position of the bucket keyed by `token`, where there is one.
pub open spec fn bucket_index(book: Seq<BucketView>, token: Seq<char>) -> int {
    choose|k: int| 0 <= k < book.len() && (#[trigger] book[k]).token == token
}

/// The intents that offer `token`, oldest first; none where it has no bucket.
pub open spec fn offers(book: Seq<BucketView>, token: Seq<char>) -> Seq<IntentView> {
    if has_bucket(book, token) {
        book[bucket_index(book, token)].intents
    } else {
        Seq::empty()
    }
}

/// In a well-formed book the bucket of a token is the only one keyed by it.
pub proof fn lemma_bucket_unique(book: Seq<BucketView>, k: int)
    requires
        book_wf(book),
        0 <= k < book.len(),
    ensures
        has_bucket(book, book[k].token),
        bucket_index(book, book[k].token) == k,
        offers(book, book[k].token) == book[k].intents,
{
    let j = bucket_index(book, book[k].token);
    assert(0 <= j < book.len() && book[j].token == book[k].token);
}

/// Intent `a` stands somewhere in `book`.
pub open spec fn in_book(book: Seq<BucketView>, a: IntentView) -> bool {
    exists|k: int, i: int|
        0 <= k < book.len() && 0 <= i < book[k].intents.len() && #[trigger] book[k].intents[i] == a
}

/// An intent is taken into a book at `now` if it is valid and not yet expired.
pub open spec fn admissible(intent: IntentView, now: u64) -> bool {
    intent.is_valid() && !intent.is_expired(now)
}

/// The book after `intent` joined the end of the bucket of the token it
/// sells; where that token had no bucket, a new one is last in the book.
pub open spec fn admitted(book: Seq<BucketView>, intent: IntentView) -> Seq<BucketView> {
    if has_bucket(book, intent.sell_token) {
        let k = bucket_index(book, intent.sell_token);
        book.update(k, BucketView { token: book[k].token, intents: book[k].intents.push(intent) })
    } else {
        book.push(BucketView { token: intent.sell_token, intents: seq![intent] })
    }
}

/// An intent outlives a cleanup at `now` if it has not expired and its trader
/// is not among `matched`.
pub open spec fn stays(intent: IntentView, matched: Seq<Seq<char>>, now: u64) -> bool {
    !intent.is_expired(now) && !matched.contains(intent.trader)
}

/// The intents of `intents` that outlive a cleanup, in their old order.
pub open spec fn kept(intents: Seq<IntentView>, matched: Seq<Seq<char>>, now: u64) -> Seq<
    IntentView,
> {
    intents.filter(|i: IntentView| stays(i, matched, now))
}

/// Every bucket of `book`, reduced to the intents that outlive a cleanup.
pub open spec fn swept(book: Seq<BucketView>, matched: Seq<Seq<char>>, now: u64) -> Seq<
    BucketView,
> {
    Seq::new(
        book.len(),
        |k: int| BucketView { token: book[k].token, intents: kept(book[k].intents, matched, now) },
    )
}

/// The book after a cleanup: expired intents and intents of matched traders
/// are gone, and so is every bucket that this left empty.
pub open spec fn cleaned(book: Seq<BucketView>, matched: Seq<Seq<char>>, now: u64) -> Seq<
    BucketView,
> {
    swept(book, matched, now).filter(|b: BucketView| b.intents.len() > 0)
}

proof fn lemma_kept_step(intents: Seq<IntentView>, matched: Seq<Seq<char>>, now: u64)
    ensures
        intents.len() == 0 ==> kept(intents, matched, now) == Seq::<IntentView>::empty(),
        intents.len() > 0 ==> kept(intents, matched, now) == if stays(
            intents.last(),
            matched,
            now,
        ) {
            kept(intents.drop_last(), matched, now).push(intents.last())
        } else {
            kept(intents.drop_last(), matched, now)
        },
{
    reveal(Seq::filter);
}

proof fn lemma_cleaned_step(book: Seq<BucketView>, matched: Seq<Seq<char>>, now: u64)
    ensures
        book.len() == 0 ==> cleaned(book, matched, now) == Seq::<BucketView>::empty(),
        book.len() > 0 ==> cleaned(book, matched, now) == if kept(
            book.last().intents,
            matched,
            now,
        ).len() > 0 {
            cleaned(book.drop_last(), matched, now).push(
                BucketView {
                    token: book.last().token,
                    intents: kept(book.last().intents, matched, now),
                },
            )
        } else {
            cleaned(book.drop_last(), matched, now)
        },
{
    reveal(Seq::filter);
    if book.len() > 0 {
        assert(swept(book, matched, now).drop_last() =~= swept(book.drop_last(), matched, now));
    }
}

proof fn lemma_push_contains(s: Seq<IntentView>, last: IntentView, x: IntentView)
    ensures
        s.push(last).contains(x) <==> s.contains(x) || last == x,
{
    let t = s.push(last);
    if t.contains(x) {
        let i = choose|i: int| 0 <= i < t.len() && t[i] == x;
        if i < s.len() {
            assert(s[i] == x);
        }
    }
    if s.contains(x) {
        let i = choose|i: int| 0 <= i < s.len() && s[i] == x;
        assert(t[i] == x);
    }
    if last == x {
        assert(t[s.len() as int] == x);
    }
}

proof fn lemma_kept_contains(
    intents: Seq<IntentView>,
    matched: Seq<Seq<char>>,
    now: u64,
    x: IntentView,
)
    ensures
        kept(intents, matched, now).contains(x) <==> intents.contains(x) && stays(x, matched, now),
    decreases intents.len(),
{
    lemma_kept_step(intents, matched, now);
    if intents.len() > 0 {
        let front = intents.drop_last();
        let last = intents.last();
        lemma_kept_contains(front, matched, now, x);
        assert(intents =~= front.push(last));
        lemma_push_contains(front, last, x);
        lemma_push_contains(kept(front, matched, now), last, x);
    }
}

proof fn lemma_in_book_push(book: Seq<BucketView>, last: BucketView, x: IntentView)
    ensures
        in_book(book.push(last), x) <==> in_book(book, x) || last.intents.contains(x),
{
    let t = book.push(last);
    if in_book(t, x) {
        let (k, i) = choose|k: int, i: int|
            0 <= k < t.len() && 0 <= i < t[k].intents.len() && #[trigger] t[k].intents[i] == x;
        if k < book.len() {
            assert(book[k].intents[i] == x);
        } else {
            assert(last.intents[i] == x);
        }
    }
    if in_book(book, x) {
        let (k, i) = choose|k: int, i: int|
            0 <= k < book.len() && 0 <= i < book[k].intents.len() && #[trigger] book[k].intents[i]
                == x;
        assert(t[k].intents[i] == x);
    }
    if last.intents.contains(x) {
        let i = choose|i: int| 0 <= i < last.intents.len() && last.intents[i] == x;
        assert(t[book.len() as int].intents[i] == x);
    }
}

/// A cleanup keeps exactly the intents that outlive it: an intent stands in
/// the cleaned book if and only if it stood in the book before, has not
/// expired, and belongs to none of the matched traders.
pub proof fn lemma_cleaned_membership(
    book: Seq<BucketView>,
    matched: Seq<Seq<char>>,
    now: u64,
    x: IntentView,
)
    ensures
        in_book(cleaned(book, matched, now), x) <==> in_book(book, x) && stays(x, matched, now),
    decreases book.len(),
{
    lemma_cleaned_step(book, matched, now);
    if book.len() > 0 {
        let front = book.drop_last();
        let last = book.last();
        let rest = BucketView { token: last.token, intents: kept(last.intents, matched, now) };
        lemma_cleaned_membership(front, matched, now, x);
        lemma_kept_contains(last.intents, matched, now, x);
        assert(book =~= front.push(last));
        lemma_in_book_push(front, last, x);
        lemma_in_book_push(cleaned(front, matched, now), rest, x);
        if rest.intents.len() == 0 {
            assert(!rest.intents.contains(x));
        }
    }
}

/// The contents of a list of buckets, in order.
pub closed spec fn bucket_views(v: Seq<Bucket>) -> Seq<BucketView> {
    Seq::new(v.len(), |k: int| v[k]@)
}

/// A mapping from token to the live intents that offer it, kept in the order
/// in which tokens were first offered.
pub struct OrderBook {
    buckets: Vec<Bucket>,
    observed: u64,
}

/// No intent of `book` has expired at time `t`.
pub open spec fn unexpired_at(book: Seq<BucketView>, t: u64) -> bool {
    forall|k: int, i: int|
        0 <= k < book.len() && 0 <= i < book[k].intents.len() ==> !(
        #[trigger] book[k].intents[i]).is_expired(t)
}

impl View for OrderBook {
    type V = Seq<BucketView>;

    closed spec fn view(&self) -> Seq<BucketView> {
        bucket_views(self.buckets@)
    }
}

impl OrderBook {
    /// The time of the last observation: an instant at which every intent
    /// in the book is known not to have expired.
    pub closed spec fn as_of(&self) -> u64 {
        self.observed
    }

    /// The book's invariant holds: its buckets are well formed, and no intent
    /// in it had expired at the time of the last observation.
    pub open spec fn wf(&self) -> bool {
        book_wf(self@) && unexpired_at(self@, self.as_of())
    }

    /// An empty book. It holds no expired intent at any time, so its last
    /// observation is as late as can be.
    pub fn new() -> (res: Self)
        ensures
            res@ == Seq::<BucketView>::empty(),
            res.as_of() == u64::MAX,
            res.wf(),
    {
        let res = OrderBook { buckets: Vec::new(), observed: u64::MAX };
        assert(res@ =~= Seq::<BucketView>::empty());
        res
    }

    /// The time of the last observation.
    pub fn last_observed(&self) -> (res: u64)
        ensures
            res == self.as_of(),
    {
        self.observed
    }

    /// The number of buckets.
    pub fn bucket_count(&self) -> (res: usize)
        ensures
            res == self@.len(),
    {
        self.buckets.len()
    }

    /// The token that keys bucket `k`.
    pub fn bucket_token(&self, k: usize) -> (res: &String)
        requires
            k < self@.len(),
        ensures
            res@ == self@[k as int].token,
    {
        &self.buckets[k].token
    }

    /// The number of intents in bucket `k`.
    pub fn bucket_len(&self, k: usize) -> (res: usize)
        requires
            k < self@.len(),
        ensures
            res == self@[k as int].intents.len(),
    {
        self.buckets[k].intents.len()
    }

    /// The intent at position `i` of bucket `k`.
    pub fn intent(&self, k: usize, i: usize) -> (res: &TradeIntent)
        requires
            k < self@.len(),
            i < self@[k as int].intents.len(),
        ensures
            res@ == self@[k as int].intents[i as int],
    {
        &self.buckets[k].intents[i]
    }

    /// The position of the bucket keyed by `token`.
    pub fn find_bucket(&self, token: &String) -> (res: Option<usize>)
        requires
            self.wf(),
        ensures
            res is Some <==> has_bucket(self@, token@),
            res is Some ==> res->0 == bucket_index(self@, token@),
    {
        let mut k: usize = 0;
        while k < self.buckets.len()
            invariant
                k <= self.buckets.len(),
                self.wf(),
                forall|j: int| 0 <= j < k ==> (#[trigger] self@[j]).token != token@,
            decreases self.buckets.len() - k,
        {
            if self.buckets[k].token == *token {
                proof {
                    assert(self@[k as int].token == token@);
                    lemma_bucket_unique(self@, k as int);
                }
                return Some(k);
            }
            k += 1;
        }
        None
    }

    /// Takes `intent` into the book if it is valid and has not expired at
    /// `now`; drops it otherwise. Returns whether it was taken.
    pub fn accept(&mut self, intent: TradeIntent, now: u64) -> (res: bool)
        requires
            old(self).wf(),
        ensures
            final(self).wf(),
            res == admissible(intent@, now),
            res ==> final(self)@ == admitted(old(self)@, intent@),
            res ==> final(self).as_of() == if now < old(self).as_of() {
                now
            } else {
                old(self).as_of()
            },
            !res ==> final(self)@ == old(self)@ && final(self).as_of() == old(self).as_of(),
    {
        if !intent.is_valid() || intent.is_expired(now) {
            return false;
        }
        if now < self.observed {
            self.observed = now;
        }
        let ghost before = self@;
        let ghost added = intent@;
        assert(unexpired_at(before, self.as_of()));
        match self.find_bucket(&intent.sell_token) {
            Some(k) => {
                let ghost old_buckets = self.buckets@;
                self.buckets[k].intents.push(intent);
                proof {
                    let after = self@;
                    let j = k as int;
                    assert(self.buckets@.len() == old_buckets.len());
                    assert(self.buckets@[j].token == old_buckets[j].token);
                    assert(self.buckets@[j].intents@.len() == old_buckets[j].intents@.len() + 1);
                    assert(forall|l: int|
                        0 <= l < old_buckets.len() && l != j ==> self.buckets@[l]
                            == old_buckets[l]);
                    assert(after[j].intents =~= before[j].intents.push(added));
                    assert(after =~= admitted(before, added));
                    assert forall|j: int, i: int|
                        0 <= j < after.len() && 0 <= i < after[j].intents.len() implies {
                        &&& (#[trigger] after[j].intents[i]).sell_token == after[j].token
                        &&& after[j].intents[i].is_valid()
                        &&& !after[j].intents[i].is_expired(self.as_of())
                    } by {
                        if j == k && i == before[j].intents.len() {
                        } else {
                            assert(after[j].intents[i] == before[j].intents[i]);
                        }
                    }
                    assert forall|j: int, l: int|
                        0 <= j < after.len() && 0 <= l < after.len() && j != l implies (
                    #[trigger] after[j]).token != (#[trigger] after[l]).token by {
                        assert(after[j].token == before[j].token);
                        assert(after[l].token == before[l].token);
                    }
                }
            },
            None => {
                let token = intent.sell_token.clone();
                let mut intents: Vec<TradeIntent> = Vec::new();
                intents.push(intent);
                self.buckets.push(Bucket { token, intents });
                proof {
                    let after = self@;
                    assert(intent_views(intents@) =~= seq![added]);
                    assert(after =~= admitted(before, added));
                    assert forall|j: int, i: int|
                        0 <= j < after.len() && 0 <= i < after[j].intents.len() implies {
                        &&& (#[trigger] after[j].intents[i]).sell_token == after[j].token
                        &&& after[j].intents[i].is_valid()
                        &&& !after[j].intents[i].is_expired(self.as_of())
                    } by {
                        if j < before.len() {
                            assert(after[j].intents[i] == before[j].intents[i]);
                        }
                    }
                    assert forall|j: int, l: int|
                        0 <= j < after.len() && 0 <= l < after.len() && j != l implies (
                    #[trigger] after[j]).token != (#[trigger] after[l]).token by {
                        if j < before.len() {
                            assert(after[j] == before[j]);
                        }
                        if l < before.len() {
                            assert(after[l] == before[l]);
                        }
                    }
                }
            },
        }
        true
    }

    fn sweep_bucket(&self, k: usize, matched: &Vec<String>, now: u64) -> (res: Vec<TradeIntent>)
        requires
            self.wf(),
            k < self@.len(),
        ensures
            intent_views(res@) == kept(self@[k as int].intents, names(matched@), now),
            forall|i: int|
                0 <= i < res@.len() ==> {
                    &&& (#[trigger] intent_views(res@)[i]).sell_token == self@[k as int].token
                    &&& intent_views(res@)[i].is_valid()
                    &&& stays(intent_views(res@)[i], names(matched@), now)
                },
    {
        let ghost source = self@[k as int].intents;
        let ghost gone = names(matched@);
        let mut res: Vec<TradeIntent> = Vec::new();
        let n = self.buckets[k].intents.len();
        let mut i: usize = 0;
        proof {
            assert(source.take(0) =~= Seq::<IntentView>::empty());
            lemma_kept_step(source.take(0), gone, now);
            assert(intent_views(res@) =~= Seq::<IntentView>::empty());
        }
        while i < n
            invariant
                i <= n,
                self.wf(),
                k < self@.len(),
                source == self@[k as int].intents,
                gone == names(matched@),
                n == source.len(),
                n == self.buckets@[k as int].intents@.len(),
                intent_views(res@) == kept(source.take(i as int), gone, now),
                forall|j: int|
                    0 <= j < res@.len() ==> {
                        &&& (#[trigger] intent_views(res@)[j]).sell_token == self@[k as int].token
                        &&& intent_views(res@)[j].is_valid()
                        &&& stays(intent_views(res@)[j], gone, now)
                    },
            decreases n - i,
        {
            let intent = &self.buckets[k].intents[i];
            proof {
                assert(source.take(i + 1).drop_last() =~= source.take(i as int));
                assert(source.take(i + 1).last() == intent@);
                assert(intent@ == self@[k as int].intents[i as int]);
                lemma_kept_step(source.take(i + 1), gone, now);
            }
            if !intent.is_expired(now) && !contains_name(matched, &intent.trader) {
                let ghost before = intent_views(res@);
                let copy = intent.clone();
                res.push(copy);
                proof {
                    assert(intent_views(res@) =~= before.push(intent@));
                    assert forall|j: int| 0 <= j < res@.len() implies {
                        &&& (#[trigger] intent_views(res@)[j]).sell_token == self@[k as int].token
                        &&& intent_views(res@)[j].is_valid()
                        &&& stays(intent_views(res@)[j], gone, now)
                    } by {
                        if j < before.len() {
                            assert(intent_views(res@)[j] == before[j]);
                        }
                    }
                }
            }
            i += 1;
        }
        proof {
            assert(source.take(n as int) =~= source);
        }
        res
    }

    fn sweep(&self, matched: &Vec<String>, now: u64) -> (res: Vec<Bucket>)
        requires
            self.wf(),
        ensures
            bucket_views(res@) == cleaned(self@, names(matched@), now),
            book_wf(bucket_views(res@)),
            forall|k: int, i: int|
                0 <= k < res@.len() && 0 <= i < bucket_views(res@)[k].intents.len() ==> stays(
                    #[trigger] bucket_views(res@)[k].intents[i],
                    names(matched@),
                    now,
                ),
    {
        let ghost book = self@;
        let ghost gone = names(matched@);
        let mut res: Vec<Bucket> = Vec::new();
        let mut k: usize = 0;
        proof {
            assert(book.take(0) =~= Seq::<BucketView>::empty());
            lemma_cleaned_step(book.take(0), gone, now);
            assert(bucket_views(res@) =~= Seq::<BucketView>::empty());
        }
        while k < self.buckets.len()
            invariant
                k <= self.buckets.len(),
                self.wf(),
                book == self@,
                gone == names(matched@),
                bucket_views(res@) == cleaned(book.take(k as int), gone, now),
                book_wf(bucket_views(res@)),
                forall|j: int|
                    0 <= j < res@.len() ==> exists|l: int|
                        0 <= l < k && (#[trigger] bucket_views(res@)[j]).token == book[l].token,
                forall|j: int, i: int|
                    0 <= j < res@.len() && 0 <= i < bucket_views(res@)[j].intents.len() ==> stays(
                        #[trigger] bucket_views(res@)[j].intents[i],
                        gone,
                        now,
                    ),
            decreases self.buckets.len() - k,
        {
            let intents = self.sweep_bucket(k, matched, now);
            proof {
                assert(book.take(k + 1).drop_last() =~= book.take(k as int));
                assert(book.take(k + 1).last() == book[k as int]);
                lemma_cleaned_step(book.take(k + 1), gone, now);
            }
            if intents.len() > 0 {
                let ghost before = bucket_views(res@);
                let bucket = Bucket { token: self.buckets[k].token.clone(), intents };
                let ghost added = bucket@;
                res.push(bucket);
                proof {
                    let after = bucket_views(res@);
                    assert(after =~= before.push(added));
                    assert(added.token == book[k as int].token);
                    assert forall|j: int| 0 <= j < res@.len() implies exists|l: int|
                        0 <= l < k + 1 && (#[trigger] after[j]).token == book[l].token by {
                        if j < before.len() {
                            assert(after[j] == before[j]);
                            let l = choose|l: int| 0 <= l < k && before[j].token == book[l].token;
                            assert(0 <= l < k + 1 && after[j].token == book[l].token);
                        } else {
                            assert(0 <= k < k + 1 && after[j].token == book[k as int].token);
                        }
                    }
                    assert forall|j: int, i: int|
                        0 <= j < after.len() && 0 <= i < after[j].intents.len() implies {
                        &&& (#[trigger] after[j].intents[i]).sell_token == after[j].token
                        &&& after[j].intents[i].is_valid()
                        &&& stays(after[j].intents[i], gone, now)
                    } by {
                        if j < before.len() {
                            assert(after[j] == before[j]);
                            assert(after[j].intents[i] == before[j].intents[i]);
                        }
                    }
                    assert forall|j: int, l: int|
                        0 <= j < after.len() && 0 <= l < after.len() && j != l implies (
                    #[trigger] after[j]).token != (#[trigger] after[l]).token by {
                        if j < before.len() && l < before.len() {
                            assert(after[j] == before[j]);
                            assert(after[l] == before[l]);
                        } else if j < before.len() {
                            assert(after[j] == before[j]);
                            let m = choose|m: int| 0 <= m < k && before[j].token == book[m].token;
                            assert(book[m].token != book[k as int].token);
                        } else {
                            assert(after[l] == before[l]);
                            let m = choose|m: int| 0 <= m < k && before[l].token == book[m].token;
                            assert(book[m].token != book[k as int].token);
                        }
                    }
                    assert forall|j: int| 0 <= j < after.len() implies (#[trigger] after[j]).intents.len()
                        > 0 by {
                        if j < before.len() {
                            assert(after[j] == before[j]);
                        }
                    }
                }
            } else {
                proof {
                    let after = bucket_views(res@);
                    assert forall|j: int| 0 <= j < res@.len() implies exists|l: int|
                        0 <= l < k + 1 && (#[trigger] after[j]).token == book[l].token by {
                        let l = choose|l: int| 0 <= l < k && after[j].token == book[l].token;
                        assert(0 <= l < k + 1 && after[j].token == book[l].token);
                    }
                }
            }
            k += 1;
        }
        proof {
            assert(book.take(k as int) =~= book);
        }
        res
    }

    /// Removes every intent that has expired at `now` or whose trader is
    /// among `matched`, and every bucket that this leaves empty.
    pub fn clean(&mut self, matched: &Vec<String>, now: u64)
        requires
            old(self).wf(),
        ensures
            final(self).wf(),
            final(self)@ == cleaned(old(self)@, names(matched@), now),
            final(self).as_of() == now,
            forall|k: int, i: int|
                0 <= k < final(self)@.len() && 0 <= i < final(self)@[k].intents.len() ==> stays(
                    #[trigger] final(self)@[k].intents[i],
                    names(matched@),
                    now,
                ),
    {
        let buckets = self.sweep(matched, now);
        self.buckets = buckets;
        self.observed = now;
    }
}

} // verus!
