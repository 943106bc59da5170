//! The ledger: net balances per trader and token, as settled pairs move them.

use vstd::prelude::*;
use crate::model::{IntentView, MatchedTrade, TradeIntent, TradeView, trade_views};

verus! {

/// The largest magnitude a balance may have for a settlement to be taken:
/// two to the power 126. From there no settlement can leave the range of a
/// 128-bit balance.
pub const BALANCE_LIMIT: i128 = 85070591730234615865843651857942052864;

/// A trader and a token.
pub type Account = (Seq<char>, Seq<char>);

/// The mathematical content of a ledger: the net balance of every account
/// that was ever moved. An account that is absent has balance zero.
pub type Balances = Map<Account, int>;

/// The balance of `trader` in `token`.
pub open spec fn balance(l: Balances, trader: Seq<char>, token: Seq<char>) -> int {
    if l.contains_key((trader, token)) {
        l[(trader, token)]
    } else {
        0
    }
}

/// The ledger after `delta` was added to the balance of `trader` in `token`.
pub open spec fn credited(l: Balances, trader: Seq<char>, token: Seq<char>, delta: int) -> Balances {
    l.insert((trader, token), balance(l, trader, token) + delta)
}

/// The ledger after one side of a pair was booked: `trader` gave `given` of
/// token `gives` and took `taken` of token `takes`.
pub open spec fn posted(
    l: Balances,
    trader: Seq<char>,
    gives: Seq<char>,
    given: u64,
    takes: Seq<char>,
    taken: u64,
) -> Balances {
    credited(credited(l, trader, gives, -(given as int)), trader, takes, taken as int)
}

/// The ledger after both sides of the recorded pair `t` were booked.
pub open spec fn settled(l: Balances, t: TradeView) -> Balances {
    posted(
        posted(l, t.trader1, t.token1, t.amount1, t.token2, t.amount2),
        t.trader2,
        t.token2,
        t.amount2,
        t.token1,
        t.amount1,
    )
}

/// The ledger after intents `a` and `c` were booked, each by its own terms.
pub open spec fn settled_pair(l: Balances, a: IntentView, c: IntentView) -> Balances {
    posted(
        posted(l, a.trader, a.sell_token, a.sell_amount, a.buy_token, a.buy_amount),
        c.trader,
        c.sell_token,
        c.sell_amount,
        c.buy_token,
        c.buy_amount,
    )
}

/// The ledger after every pair of `trades` was booked, in order.
pub open spec fn settled_all(l: Balances, trades: Seq<TradeView>) -> Balances
    decreases trades.len(),
{
    if trades.len() == 0 {
        l
    } else {
        settled(settled_all(l, trades.drop_last()), trades.last())
    }
}

/// The balance of `trader` in `token` is within the limit.
pub open spec fn has_room(l: Balances, trader: Seq<char>, token: Seq<char>) -> bool {
    -BALANCE_LIMIT <= balance(l, trader, token) <= BALANCE_LIMIT
}

/// The four balances that the recorded pair `t` moves are within the limit.
pub open spec fn room_for(l: Balances, t: TradeView) -> bool {
    &&& has_room(l, t.trader1, t.token1)
    &&& has_room(l, t.trader1, t.token2)
    &&& has_room(l, t.trader2, t.token1)
    &&& has_room(l, t.trader2, t.token2)
}

/// The four balances that booking `a` and `c` moves are within the limit.
pub open spec fn room_for_pair(l: Balances, a: IntentView, c: IntentView) -> bool {
    &&& has_room(l, a.trader, a.sell_token)
    &&& has_room(l, a.trader, a.buy_token)
    &&& has_room(l, c.trader, c.sell_token)
    &&& has_room(l, c.trader, c.buy_token)
}

/// Booking one side of a pair keeps both balances it moves within 128 bits.
pub open spec fn can_post(
    l: Balances,
    trader: Seq<char>,
    gives: Seq<char>,
    given: u64,
    takes: Seq<char>,
    taken: u64,
) -> bool {
    &&& i128::MIN <= balance(l, trader, gives) - given
    &&& balance(credited(l, trader, gives, -(given as int)), trader, takes) + taken <= i128::MAX
}

/// Each pair of `trades` finds room in the ledger that the pairs before it
/// have left.
pub open spec fn room_for_all(l: Balances, trades: Seq<TradeView>) -> bool {
    forall|i: int|
        0 <= i < trades.len() ==> room_for(settled_all(l, trades.take(i)), #[trigger] trades[i])
}

/// No trader is on a side of two pairs of `trades`.
pub open spec fn single_fill(trades: Seq<TradeView>) -> bool {
    forall|m: int, n: int|
        0 <= m < n < trades.len() ==> {
            &&& (#[trigger] trades[m]).trader1 != (#[trigger] trades[n]).trader1
            &&& trades[m].trader1 != trades[n].trader2
            &&& trades[m].trader2 != trades[n].trader1
            &&& trades[m].trader2 != trades[n].trader2
        }
}

/// Every pair of `trades` finds room in `l` as it stands.
pub open spec fn batch_fits(l: Balances, trades: Seq<TradeView>) -> bool {
    forall|i: int| 0 <= i < trades.len() ==> room_for(l, #[trigger] trades[i])
}

/// The mathematical content of a [`BalanceEntry`].
pub struct EntryView {
    pub trader: Seq<char>,
    pub token: Seq<char>,
    pub amount: int,
}

/// One line of a ledger: the net balance of one trader in one token.
#[derive(Debug, PartialEq, Eq)]
pub struct BalanceEntry {
    pub trader: String,
    pub token: String,
    pub amount: i128,
}

impl View for BalanceEntry {
    type V = EntryView;

    open spec fn view(&self) -> EntryView {
        EntryView { trader: self.trader@, token: self.token@, amount: self.amount as int }
    }
}

/// The contents of a list of entries, in order.
pub open spec fn entry_views(v: Seq<BalanceEntry>) -> Seq<EntryView> {
    Seq::new(v.len(), |i: int| v[i]@)
}

/// Entry `i` of `entries` is the line of account `k`.
pub open spec fn holds(entries: Seq<EntryView>, i: int, k: Account) -> bool {
    0 <= i < entries.len() && entries[i].trader == k.0 && entries[i].token == k.1
}

/// No account has two lines.
pub open spec fn keys_distinct(entries: Seq<EntryView>) -> bool {
    forall|i: int, j: int|
        0 <= i < j < entries.len() ==> !(entries[i].trader == entries[j].trader
            && entries[i].token == entries[j].token)
}

/// The balances that a list of lines stands for.
pub open spec fn ledger_map(entries: Seq<EntryView>) -> Balances {
    Map::new(
        |k: Account| exists|i: int| holds(entries, i, k),
        |k: Account| entries[choose|i: int| holds(entries, i, k)].amount,
    )
}

proof fn lemma_lookup(entries: Seq<EntryView>, i: int)
    requires
        keys_distinct(entries),
        0 <= i < entries.len(),
    ensures
        ledger_map(entries).contains_key((entries[i].trader, entries[i].token)),
        ledger_map(entries)[(entries[i].trader, entries[i].token)] == entries[i].amount,
{
    let k = (entries[i].trader, entries[i].token);
    assert(holds(entries, i, k));
    let j = choose|j: int| holds(entries, j, k);
    assert(holds(entries, j, k));
    assert(j == i);
}

proof fn lemma_update(entries: Seq<EntryView>, i: int, amount: int)
    requires
        keys_distinct(entries),
        0 <= i < entries.len(),
    ensures
        keys_distinct(
            entries.update(
                i,
                EntryView { trader: entries[i].trader, token: entries[i].token, amount },
            ),
        ),
        ledger_map(
            entries.update(
                i,
                EntryView { trader: entries[i].trader, token: entries[i].token, amount },
            ),
        ) == ledger_map(entries).insert((entries[i].trader, entries[i].token), amount),
{
    let k0 = (entries[i].trader, entries[i].token);
    let after = entries.update(
        i,
        EntryView { trader: entries[i].trader, token: entries[i].token, amount },
    );
    assert(keys_distinct(after));
    assert forall|k: Account| #[trigger]
        ledger_map(after).contains_key(k) == ledger_map(entries).insert(k0, amount).contains_key(
            k,
        ) by {
        if ledger_map(after).contains_key(k) {
            let j = choose|j: int| holds(after, j, k);
            assert(holds(entries, j, k));
        }
        if ledger_map(entries).contains_key(k) {
            let j = choose|j: int| holds(entries, j, k);
            assert(holds(after, j, k));
        }
        if k == k0 {
            assert(holds(after, i, k));
        }
    }
    assert forall|k: Account| #[trigger] ledger_map(after).contains_key(k) implies ledger_map(
        after,
    )[k] == ledger_map(entries).insert(k0, amount)[k] by {
        let j = choose|j: int| holds(after, j, k);
        assert(holds(after, j, k));
        lemma_lookup(after, j);
        if j != i {
            lemma_lookup(entries, j);
        }
    }
    assert(ledger_map(after) =~= ledger_map(entries).insert(k0, amount));
}

proof fn lemma_push(entries: Seq<EntryView>, e: EntryView)
    requires
        keys_distinct(entries),
        forall|i: int| !holds(entries, i, (e.trader, e.token)),
    ensures
        keys_distinct(entries.push(e)),
        ledger_map(entries.push(e)) == ledger_map(entries).insert((e.trader, e.token), e.amount),
{
    let k0 = (e.trader, e.token);
    let after = entries.push(e);
    assert forall|i: int, j: int| 0 <= i < j < after.len() implies !(after[i].trader
        == after[j].trader && after[i].token == after[j].token) by {
        if j == entries.len() {
            assert(!holds(entries, i, k0));
        }
    }
    assert forall|k: Account| #[trigger]
        ledger_map(after).contains_key(k) == ledger_map(entries).insert(k0, e.amount).contains_key(
            k,
        ) by {
        if ledger_map(after).contains_key(k) {
            let j = choose|j: int| holds(after, j, k);
            if j < entries.len() {
                assert(holds(entries, j, k));
            }
        }
        if ledger_map(entries).contains_key(k) {
            let j = choose|j: int| holds(entries, j, k);
            assert(holds(after, j, k));
        }
        if k == k0 {
            assert(holds(after, entries.len() as int, k));
        }
    }
    assert forall|k: Account| #[trigger] ledger_map(after).contains_key(k) implies ledger_map(
        after,
    )[k] == ledger_map(entries).insert(k0, e.amount)[k] by {
        let j = choose|j: int| holds(after, j, k);
        assert(holds(after, j, k));
        lemma_lookup(after, j);
        if j < entries.len() {
            assert(holds(entries, j, k));
            lemma_lookup(entries, j);
        }
    }
    assert(ledger_map(after) =~= ledger_map(entries).insert(k0, e.amount));
}

/// Net balances per trader and token. Every settlement adds to what is there;
/// nothing is ever taken back.
pub struct Ledger {
    entries: Vec<BalanceEntry>,
}

impl View for Ledger {
    type V = Balances;

    closed spec fn view(&self) -> Balances {
        ledger_map(entry_views(self.entries@))
    }
}

impl Ledger {
    /// The ledger's invariant holds: no account has two lines.
    pub closed spec fn wf(&self) -> bool {
        keys_distinct(entry_views(self.entries@))
    }

    /// A ledger in which nothing was moved.
    pub fn new() -> (res: Self)
        ensures
            res.wf(),
            res@ == Map::<Account, int>::empty(),
    {
        let res = Ledger { entries: Vec::new() };
        assert(res@ =~= Map::<Account, int>::empty());
        res
    }

    /// The ledger that `entries` stand for, if no account has two lines
    /// among them.
    pub fn from_entries(entries: Vec<BalanceEntry>) -> (res: Option<Self>)
        ensures
            res is Some <==> keys_distinct(entry_views(entries@)),
            res is Some ==> res->0.wf() && res->0@ == ledger_map(entry_views(entries@)),
    {
        let ghost lines = entry_views(entries@);
        let mut j: usize = 0;
        while j < entries.len()
            invariant
                j <= entries.len(),
                lines == entry_views(entries@),
                forall|a: int, b: int|
                    0 <= a < b < j ==> !(lines[a].trader == lines[b].trader && lines[a].token
                        == lines[b].token),
            decreases entries.len() - j,
        {
            let mut i: usize = 0;
            while i < j
                invariant
                    i <= j,
                    j < entries.len(),
                    lines == entry_views(entries@),
                    forall|a: int|
                        0 <= a < i ==> !(lines[a].trader == lines[j as int].trader
                            && lines[a].token == lines[j as int].token),
                decreases j - i,
            {
                if entries[i].trader == entries[j].trader && entries[i].token == entries[j].token {
                    assert(lines[i as int].trader == lines[j as int].trader);
                    assert(lines[i as int].token == lines[j as int].token);
                    return None;
                }
                i += 1;
            }
            j += 1;
        }
        Some(Ledger { entries })
    }

    fn find(&self, trader: &String, token: &String) -> (res: Option<usize>)
        ensures
            match res {
                Some(i) => holds(entry_views(self.entries@), i as int, (trader@, token@)),
                None => forall|i: int| !holds(entry_views(self.entries@), i, (trader@, token@)),
            },
    {
        let mut i: usize = 0;
        while i < self.entries.len()
            invariant
                i <= self.entries.len(),
                forall|j: int|
                    0 <= j < i ==> !holds(entry_views(self.entries@), j, (trader@, token@)),
            decreases self.entries.len() - i,
        {
            if self.entries[i].trader == *trader && self.entries[i].token == *token {
                return Some(i);
            }
            i += 1;
        }
        None
    }

    /// The balance of `trader` in `token`; zero where nothing was moved.
    pub fn balance_of(&self, trader: &String, token: &String) -> (res: i128)
        requires
            self.wf(),
        ensures
            res == balance(self@, trader@, token@),
    {
        match self.find(trader, token) {
            Some(i) => {
                proof {
                    lemma_lookup(entry_views(self.entries@), i as int);
                }
                self.entries[i].amount
            },
            None => 0,
        }
    }

    /// Whether the balance of `trader` in `token` is within the limit.
    pub fn has_room(&self, trader: &String, token: &String) -> (res: bool)
        requires
            self.wf(),
        ensures
            res == has_room(self@, trader@, token@),
    {
        let b = self.balance_of(trader, token);
        -BALANCE_LIMIT <= b && b <= BALANCE_LIMIT
    }

    /// Whether the four balances that `trade` moves are within the limit.
    pub fn has_room_for(&self, trade: &MatchedTrade) -> (res: bool)
        requires
            self.wf(),
        ensures
            res == room_for(self@, trade@),
    {
        self.has_room(&trade.trader1, &trade.token1) && self.has_room(
            &trade.trader1,
            &trade.token2,
        ) && self.has_room(&trade.trader2, &trade.token1) && self.has_room(
            &trade.trader2,
            &trade.token2,
        )
    }

    /// Whether every pair of `trades` finds room in the ledger as it stands.
    pub fn has_room_for_all(&self, trades: &Vec<MatchedTrade>) -> (res: bool)
        requires
            self.wf(),
        ensures
            res == batch_fits(self@, trade_views(trades@)),
    {
        let mut i: usize = 0;
        while i < trades.len()
            invariant
                i <= trades.len(),
                self.wf(),
                forall|j: int| 0 <= j < i ==> room_for(self@, #[trigger] trade_views(trades@)[j]),
            decreases trades.len() - i,
        {
            if !self.has_room_for(&trades[i]) {
                assert(!room_for(self@, trade_views(trades@)[i as int]));
                return false;
            }
            i += 1;
        }
        true
    }

    /// Whether the four balances that booking `a` and `c` moves are within
    /// the limit.
    pub fn has_room_for_pair(&self, a: &TradeIntent, c: &TradeIntent) -> (res: bool)
        requires
            self.wf(),
        ensures
            res == room_for_pair(self@, a@, c@),
    {
        self.has_room(&a.trader, &a.sell_token) && self.has_room(&a.trader, &a.buy_token)
            && self.has_room(&c.trader, &c.sell_token) && self.has_room(&c.trader, &c.buy_token)
    }

    fn credit(&mut self, trader: &String, token: &String, delta: i128)
        requires
            old(self).wf(),
            i128::MIN <= balance(old(self)@, trader@, token@) + delta <= i128::MAX,
        ensures
            final(self).wf(),
            final(self)@ == credited(old(self)@, trader@, token@, delta as int),
    {
        let ghost before = entry_views(self.entries@);
        match self.find(trader, token) {
            Some(i) => {
                proof {
                    lemma_lookup(before, i as int);
                }
                let amount = self.entries[i].amount + delta;
                self.entries[i].amount = amount;
                proof {
                    assert(entry_views(self.entries@) =~= before.update(
                        i as int,
                        EntryView {
                            trader: before[i as int].trader,
                            token: before[i as int].token,
                            amount: amount as int,
                        },
                    ));
                    lemma_update(before, i as int, amount as int);
                }
            },
            None => {
                let entry = BalanceEntry {
                    trader: trader.clone(),
                    token: token.clone(),
                    amount: delta,
                };
                self.entries.push(entry);
                proof {
                    assert(!ledger_map(before).contains_key((trader@, token@)));
                    assert(entry_views(self.entries@) =~= before.push(
                        EntryView { trader: trader@, token: token@, amount: delta as int },
                    ));
                    lemma_push(
                        before,
                        EntryView { trader: trader@, token: token@, amount: delta as int },
                    );
                }
            },
        }
    }

    fn post(&mut self, trader: &String, gives: &String, given: u64, takes: &String, taken: u64)
        requires
            old(self).wf(),
            can_post(old(self)@, trader@, gives@, given, takes@, taken),
        ensures
            final(self).wf(),
            final(self)@ == posted(old(self)@, trader@, gives@, given, takes@, taken),
    {
        self.credit(trader, gives, -(given as i128));
        self.credit(trader, takes, taken as i128);
    }

    /// Books both sides of `trade`: the first trader gives `amount1` of
    /// `token1` and takes `amount2` of `token2`, the second the reverse.
    pub fn settle(&mut self, trade: &MatchedTrade)
        requires
            old(self).wf(),
            room_for(old(self)@, trade@),
        ensures
            final(self).wf(),
            final(self)@ == settled(old(self)@, trade@),
    {
        self.post(&trade.trader1, &trade.token1, trade.amount1, &trade.token2, trade.amount2);
        self.post(&trade.trader2, &trade.token2, trade.amount2, &trade.token1, trade.amount1);
    }

    /// Books intent `a` and intent `c`, each by its own terms: its trader
    /// gives the amount it sells and takes the amount it buys.
    pub fn settle_pair(&mut self, a: &TradeIntent, c: &TradeIntent)
        requires
            old(self).wf(),
            room_for_pair(old(self)@, a@, c@),
        ensures
            final(self).wf(),
            final(self)@ == settled_pair(old(self)@, a@, c@),
    {
        self.post(&a.trader, &a.sell_token, a.sell_amount, &a.buy_token, a.buy_amount);
        self.post(&c.trader, &c.sell_token, c.sell_amount, &c.buy_token, c.buy_amount);
    }

    /// Books every pair of `trades`, in order.
    pub fn settle_all(&mut self, trades: &Vec<MatchedTrade>)
        requires
            old(self).wf(),
            room_for_all(old(self)@, trade_views(trades@)),
        ensures
            final(self).wf(),
            final(self)@ == settled_all(old(self)@, trade_views(trades@)),
    {
        let ghost views = trade_views(trades@);
        let mut i: usize = 0;
        assert(views.take(0) =~= Seq::<TradeView>::empty());
        while i < trades.len()
            invariant
                i <= trades.len(),
                views == trade_views(trades@),
                self.wf(),
                room_for_all(old(self)@, views),
                self@ == settled_all(old(self)@, views.take(i as int)),
            decreases trades.len() - i,
        {
            proof {
                assert(views.take(i + 1).drop_last() =~= views.take(i as int));
                assert(views.take(i + 1).last() == views[i as int]);
            }
            self.settle(&trades[i]);
            i += 1;
        }
        assert(views.take(i as int) =~= views);
    }

    /// The lines of the ledger, one per account that was ever moved.
    pub fn snapshot(&self) -> (res: Vec<BalanceEntry>)
        requires
            self.wf(),
        ensures
            keys_distinct(entry_views(res@)),
            ledger_map(entry_views(res@)) == self@,
    {
        let mut res: Vec<BalanceEntry> = Vec::new();
        let mut i: usize = 0;
        while i < self.entries.len()
            invariant
                i <= self.entries.len(),
                entry_views(res@) == entry_views(self.entries@).take(i as int),
            decreases self.entries.len() - i,
        {
            let entry = BalanceEntry {
                trader: self.entries[i].trader.clone(),
                token: self.entries[i].token.clone(),
                amount: self.entries[i].amount,
            };
            let ghost before = entry_views(res@);
            let ghost line = entry@;
            res.push(entry);
            assert(entry_views(res@) =~= before.push(line));
            assert(entry_views(res@) =~= entry_views(self.entries@).take(i + 1));
            i += 1;
        }
        assert(entry_views(self.entries@).take(i as int) =~= entry_views(self.entries@));
        res
    }
}

/// A settlement leaves the balances of every other trader as they were.
pub proof fn lemma_settled_frame(l: Balances, t: TradeView, trader: Seq<char>, token: Seq<char>)
    requires
        trader != t.trader1,
        trader != t.trader2,
    ensures
        balance(settled(l, t), trader, token) == balance(l, trader, token),
{
}

/// A run of settlements leaves the balances of a trader who is on no side of
/// them as they were.
pub proof fn lemma_settled_all_frame(
    l: Balances,
    trades: Seq<TradeView>,
    trader: Seq<char>,
    token: Seq<char>,
)
    requires
        forall|i: int|
            0 <= i < trades.len() ==> (#[trigger] trades[i]).trader1 != trader
                && trades[i].trader2 != trader,
    ensures
        balance(settled_all(l, trades), trader, token) == balance(l, trader, token),
    decreases trades.len(),
{
    if trades.len() > 0 {
        let front = trades.drop_last();
        assert forall|i: int| 0 <= i < front.len() implies (#[trigger] front[i]).trader1 != trader
            && front[i].trader2 != trader by {
            assert(front[i] == trades[i]);
        }
        lemma_settled_all_frame(l, front, trader, token);
        assert(trades.last() == trades[trades.len() - 1]);
        lemma_settled_frame(settled_all(l, front), trades.last(), trader, token);
    }
}

/// Where no trader is on a side of two pairs, room that every pair finds in
/// a ledger is still there when its turn comes.
pub proof fn lemma_room_persists(l: Balances, trades: Seq<TradeView>)
    requires
        single_fill(trades),
        forall|i: int| 0 <= i < trades.len() ==> room_for(l, #[trigger] trades[i]),
    ensures
        room_for_all(l, trades),
{
    assert forall|i: int| 0 <= i < trades.len() implies room_for(
        settled_all(l, trades.take(i)),
        #[trigger] trades[i],
    ) by {
        let front = trades.take(i);
        let t = trades[i];
        assert forall|j: int| 0 <= j < front.len() implies (#[trigger] front[j]).trader1
            != t.trader1 && front[j].trader2 != t.trader1 && front[j].trader1 != t.trader2
            && front[j].trader2 != t.trader2 by {
            assert(front[j] == trades[j]);
        }
        lemma_settled_all_frame(l, front, t.trader1, t.token1);
        lemma_settled_all_frame(l, front, t.trader1, t.token2);
        lemma_settled_all_frame(l, front, t.trader2, t.token1);
        lemma_settled_all_frame(l, front, t.trader2, t.token2);
    }
}

/// Across the two sides of a settled pair the balances in any one token move
/// by amounts that sum to zero: what one trader gives is what the other takes.
pub proof fn lemma_settlement_zero_sum(l: Balances, t: TradeView, token: Seq<char>)
    requires
        t.trader1 != t.trader2,
    ensures
        (balance(settled(l, t), t.trader1, token) - balance(l, t.trader1, token)) + (balance(
            settled(l, t),
            t.trader2,
            token,
        ) - balance(l, t.trader2, token)) == 0,
        t.token1 != t.token2 ==> {
            &&& balance(settled(l, t), t.trader1, t.token1) == balance(l, t.trader1, t.token1)
                - t.amount1
            &&& balance(settled(l, t), t.trader2, t.token1) == balance(l, t.trader2, t.token1)
                + t.amount1
            &&& balance(settled(l, t), t.trader1, t.token2) == balance(l, t.trader1, t.token2)
                + t.amount2
            &&& balance(settled(l, t), t.trader2, t.token2) == balance(l, t.trader2, t.token2)
                - t.amount2
        },
{
}

} // verus!
