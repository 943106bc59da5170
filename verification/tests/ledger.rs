use tee_matcher::ledger::{BalanceEntry, Ledger, BALANCE_LIMIT};
use tee_matcher::model::{MatchedTrade, PriceLimit, TradeIntent};

fn name(s: &str) -> String {
    s.to_string()
}

fn line(trader: &str, token: &str, amount: i128) -> BalanceEntry {
    BalanceEntry { trader: name(trader), token: name(token), amount }
}

fn eth_for_dai() -> MatchedTrade {
    MatchedTrade {
        trader1: name("Alice"),
        trader2: name("Bob"),
        token1: name("ETH"),
        token2: name("DAI"),
        amount1: 1,
        amount2: 2000,
    }
}

fn sorted(mut lines: Vec<BalanceEntry>) -> Vec<(String, String, i128)> {
    let mut out: Vec<(String, String, i128)> =
        lines.drain(..).map(|e| (e.trader, e.token, e.amount)).collect();
    out.sort();
    out
}

#[test]
fn an_untouched_account_has_balance_zero() {
    let ledger = Ledger::new();
    assert_eq!(ledger.balance_of(&name("Alice"), &name("ETH")), 0);
    assert!(ledger.snapshot().is_empty());
}

#[test]
fn a_settlement_moves_four_balances() {
    let mut ledger = Ledger::new();
    ledger.settle(&eth_for_dai());
    assert_eq!(ledger.balance_of(&name("Alice"), &name("ETH")), -1);
    assert_eq!(ledger.balance_of(&name("Alice"), &name("DAI")), 2000);
    assert_eq!(ledger.balance_of(&name("Bob"), &name("DAI")), -2000);
    assert_eq!(ledger.balance_of(&name("Bob"), &name("ETH")), 1);
    assert_eq!(ledger.balance_of(&name("Carol"), &name("ETH")), 0);
    assert_eq!(
        sorted(ledger.snapshot()),
        vec![
            (name("Alice"), name("DAI"), 2000),
            (name("Alice"), name("ETH"), -1),
            (name("Bob"), name("DAI"), -2000),
            (name("Bob"), name("ETH"), 1),
        ]
    );
}

#[test]
fn the_two_sides_of_a_settlement_sum_to_zero() {
    let mut ledger = Ledger::from_entries(vec![
        line("Alice", "ETH", 10),
        line("Bob", "ETH", -3),
        line("Bob", "DAI", 5000),
    ])
    .unwrap();
    let t = eth_for_dai();
    let before: Vec<i128> = vec![
        ledger.balance_of(&t.trader1, &t.token1),
        ledger.balance_of(&t.trader2, &t.token1),
        ledger.balance_of(&t.trader1, &t.token2),
        ledger.balance_of(&t.trader2, &t.token2),
    ];
    ledger.settle(&t);
    let d0 = ledger.balance_of(&t.trader1, &t.token1) - before[0];
    let d1 = ledger.balance_of(&t.trader2, &t.token1) - before[1];
    let d2 = ledger.balance_of(&t.trader1, &t.token2) - before[2];
    let d3 = ledger.balance_of(&t.trader2, &t.token2) - before[3];
    assert_eq!((d0, d1, d2, d3), (-1, 1, 2000, -2000));
    assert_eq!(d0 + d1, 0);
    assert_eq!(d2 + d3, 0);
}

#[test]
fn settlements_add_up_across_batches() {
    let mut ledger = Ledger::new();
    ledger.settle_all(&vec![eth_for_dai(), eth_for_dai(), eth_for_dai()]);
    assert_eq!(ledger.balance_of(&name("Alice"), &name("ETH")), -3);
    assert_eq!(ledger.balance_of(&name("Bob"), &name("DAI")), -6000);
    ledger.settle_all(&Vec::new());
    assert_eq!(ledger.balance_of(&name("Alice"), &name("DAI")), 6000);
}

#[test]
fn a_pair_of_intents_is_booked_by_each_ones_terms() {
    let a = TradeIntent {
        trader: name("Alice"),
        sell_token: name("ETH"),
        buy_token: name("DAI"),
        sell_amount: 2,
        buy_amount: 30,
        price_limit: PriceLimit { numerator: 0, denominator: 1 },
        expiry: 9,
    };
    let c = TradeIntent {
        trader: name("Bob"),
        sell_token: name("DAI"),
        buy_token: name("ETH"),
        sell_amount: 30,
        buy_amount: 2,
        price_limit: PriceLimit { numerator: 0, denominator: 1 },
        expiry: 9,
    };
    let mut ledger = Ledger::new();
    assert!(ledger.has_room_for_pair(&a, &c));
    ledger.settle_pair(&a, &c);
    assert_eq!(
        sorted(ledger.snapshot()),
        vec![
            (name("Alice"), name("DAI"), 30),
            (name("Alice"), name("ETH"), -2),
            (name("Bob"), name("DAI"), -30),
            (name("Bob"), name("ETH"), 2),
        ]
    );
}

#[test]
fn the_largest_amounts_fit() {
    let mut ledger = Ledger::new();
    let t = MatchedTrade {
        trader1: name("Alice"),
        trader2: name("Bob"),
        token1: name("ETH"),
        token2: name("DAI"),
        amount1: u64::MAX,
        amount2: u64::MAX,
    };
    ledger.settle(&t);
    ledger.settle(&t);
    assert_eq!(ledger.balance_of(&name("Alice"), &name("ETH")), -2 * (u64::MAX as i128));
    assert_eq!(ledger.balance_of(&name("Bob"), &name("ETH")), 2 * (u64::MAX as i128));
}

#[test]
fn lines_must_not_repeat_an_account() {
    assert!(Ledger::from_entries(vec![line("Alice", "ETH", 1), line("Alice", "ETH", 2)]).is_none());
    let ledger =
        Ledger::from_entries(vec![line("Alice", "ETH", 1), line("Alice", "DAI", 2)]).unwrap();
    assert_eq!(ledger.balance_of(&name("Alice"), &name("DAI")), 2);
    assert_eq!(ledger.balance_of(&name("Alice"), &name("ETH")), 1);
}

#[test]
fn room_ends_at_the_limit() {
    assert_eq!(BALANCE_LIMIT, 1i128 << 126);
    let ledger = Ledger::from_entries(vec![
        line("Alice", "ETH", BALANCE_LIMIT),
        line("Bob", "ETH", -BALANCE_LIMIT - 1),
        line("Bob", "DAI", -BALANCE_LIMIT),
    ])
    .unwrap();
    assert!(ledger.has_room(&name("Alice"), &name("ETH")));
    assert!(ledger.has_room(&name("Alice"), &name("DAI")));
    assert!(!ledger.has_room(&name("Bob"), &name("ETH")));
    assert!(ledger.has_room(&name("Bob"), &name("DAI")));
    assert!(!ledger.has_room_for(&eth_for_dai()));
    assert!(!ledger.has_room_for_all(&vec![eth_for_dai()]));
    assert!(ledger.has_room_for_all(&Vec::new()));
    let mut ok = Ledger::from_entries(vec![
        line("Alice", "ETH", -BALANCE_LIMIT),
        line("Bob", "DAI", -BALANCE_LIMIT),
    ])
    .unwrap();
    assert!(ok.has_room_for(&eth_for_dai()));
    ok.settle(&eth_for_dai());
    assert_eq!(ok.balance_of(&name("Alice"), &name("ETH")), -BALANCE_LIMIT - 1);
    assert_eq!(ok.balance_of(&name("Bob"), &name("DAI")), -BALANCE_LIMIT - 2000);
    assert!(!ok.has_room_for(&eth_for_dai()));
}
