use tee_matcher::book::OrderBook;
use tee_matcher::model::{contains_name, EncryptedTradeIntent, PriceLimit, TradeIntent};

fn offer(trader: &str, sell: &str, buy: &str, expiry: u64) -> TradeIntent {
    TradeIntent {
        trader: trader.to_string(),
        sell_token: sell.to_string(),
        buy_token: buy.to_string(),
        sell_amount: 10,
        buy_amount: 20,
        price_limit: PriceLimit { numerator: 1, denominator: 1 },
        expiry,
    }
}

fn traders_of(book: &OrderBook, k: usize) -> Vec<String> {
    let mut out = Vec::new();
    for i in 0..book.bucket_len(k) {
        out.push(book.intent(k, i).trader.clone());
    }
    out
}

#[test]
fn a_new_book_is_empty() {
    let book = OrderBook::new();
    assert_eq!(book.bucket_count(), 0);
    assert_eq!(book.find_bucket(&"ETH".to_string()), None);
}

#[test]
fn intents_join_the_bucket_of_the_token_they_sell() {
    let mut book = OrderBook::new();
    assert!(book.accept(offer("Alice", "ETH", "DAI", 50), 10));
    assert!(book.accept(offer("Bob", "DAI", "ETH", 50), 10));
    assert!(book.accept(offer("Carol", "ETH", "BTC", 50), 10));
    assert_eq!(book.bucket_count(), 2);
    assert_eq!(book.bucket_token(0), "ETH");
    assert_eq!(book.bucket_token(1), "DAI");
    assert_eq!(traders_of(&book, 0), vec!["Alice", "Carol"]);
    assert_eq!(traders_of(&book, 1), vec!["Bob"]);
    assert_eq!(book.find_bucket(&"DAI".to_string()), Some(1));
    assert_eq!(book.find_bucket(&"BTC".to_string()), None);
    assert_eq!(*book.intent(0, 1), offer("Carol", "ETH", "BTC", 50));
}

#[test]
fn an_intent_at_or_past_its_expiry_is_dropped() {
    let mut book = OrderBook::new();
    assert!(!book.accept(offer("Alice", "ETH", "DAI", 9), 10));
    assert!(!book.accept(offer("Alice", "ETH", "DAI", 10), 10));
    assert_eq!(book.bucket_count(), 0);
    assert!(book.accept(offer("Alice", "ETH", "DAI", 11), 10));
    assert_eq!(book.bucket_count(), 1);
    assert!(offer("Alice", "ETH", "DAI", 10).is_expired(10));
    assert!(!offer("Alice", "ETH", "DAI", 11).is_expired(10));
}

#[test]
fn a_malformed_intent_is_dropped() {
    let mut book = OrderBook::new();
    let mut no_sale = offer("Alice", "ETH", "DAI", 50);
    no_sale.sell_amount = 0;
    let mut no_buy = offer("Alice", "ETH", "DAI", 50);
    no_buy.buy_amount = 0;
    let mut no_limit = offer("Alice", "ETH", "DAI", 50);
    no_limit.price_limit.denominator = 0;
    assert!(!no_sale.is_valid());
    assert!(!no_buy.is_valid());
    assert!(!no_limit.is_valid());
    assert!(offer("Alice", "ETH", "DAI", 50).is_valid());
    assert!(!book.accept(no_sale, 10));
    assert!(!book.accept(no_buy, 10));
    assert!(!book.accept(no_limit, 10));
    assert_eq!(book.bucket_count(), 0);
}

#[test]
fn cleanup_removes_expired_and_matched_and_empty_buckets() {
    let mut book = OrderBook::new();
    assert!(book.accept(offer("Alice", "ETH", "DAI", 50), 10));
    assert!(book.accept(offer("Bob", "ETH", "DAI", 20), 10));
    assert!(book.accept(offer("Carol", "ETH", "DAI", 50), 10));
    assert!(book.accept(offer("Alice", "DAI", "ETH", 50), 10));
    assert!(book.accept(offer("Dan", "BTC", "ETH", 50), 10));
    assert!(book.accept(offer("Erin", "BTC", "ETH", 21), 10));
    // at 20 Bob's intent is dead, Erin's lives one more second
    book.clean(&vec!["Alice".to_string()], 20);
    assert_eq!(book.bucket_count(), 2);
    assert_eq!(book.bucket_token(0), "ETH");
    assert_eq!(traders_of(&book, 0), vec!["Carol"]);
    assert_eq!(book.bucket_token(1), "BTC");
    assert_eq!(traders_of(&book, 1), vec!["Dan", "Erin"]);
    book.clean(&Vec::new(), 21);
    assert_eq!(traders_of(&book, 1), vec!["Dan"]);
    book.clean(&vec!["Dan".to_string(), "Carol".to_string()], 21);
    assert_eq!(book.bucket_count(), 0);
}

#[test]
fn names_are_found_in_a_list() {
    let list = vec!["Alice".to_string(), "Bob".to_string()];
    assert!(contains_name(&list, &"Bob".to_string()));
    assert!(!contains_name(&list, &"bob".to_string()));
    assert!(!contains_name(&Vec::new(), &"Bob".to_string()));
}

#[test]
fn only_a_non_empty_envelope_is_a_candidate() {
    assert!(!EncryptedTradeIntent { encrypted_data: Vec::new() }.is_candidate());
    assert!(EncryptedTradeIntent { encrypted_data: vec![0] }.is_candidate());
}

#[test]
fn the_last_observation_follows_intake_and_cleanup() {
    let mut book = OrderBook::new();
    assert_eq!(book.last_observed(), u64::MAX);
    assert!(book.accept(offer("Alice", "ETH", "DAI", 50), 10));
    assert_eq!(book.last_observed(), 10);
    assert!(book.accept(offer("Bob", "ETH", "DAI", 50), 5));
    assert_eq!(book.last_observed(), 5);
    assert!(book.accept(offer("Carol", "ETH", "DAI", 50), 20));
    assert_eq!(book.last_observed(), 5);
    assert!(!book.accept(offer("Dan", "ETH", "DAI", 2), 2));
    assert_eq!(book.last_observed(), 5);
    book.clean(&Vec::new(), 30);
    assert_eq!(book.last_observed(), 30);
    assert_eq!(book.bucket_len(0), 3);
}
