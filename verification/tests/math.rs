use mine_with_friends::callbacks::{Callback, CallbackRegistry, PowerPlantEvent};
use mine_with_friends::cfmm_math::{quote_buy, quote_sell};
use mine_with_friends::entity::{EntityID, EntityIDAllocator, ALLOCATOR_START};
use mine_with_friends::numfmt::{parse_hex_u64, to_decimal_string, to_hex_string, HexParseError};
use mine_with_friends::payout::{distribute, mul_div};
use mine_with_friends::strings::sorted_distinct_strings;
use mine_with_friends::token_swap::{TradingPairID, TradingPairIDParseError};
use mine_with_friends::tokens::{TokenBase, TokenPointer};

#[test]
fn sell_quote_values() {
    assert_eq!(quote_sell(100, 100, 10), (9, 10));
}

#[test]
fn buy_quote_values() {
    assert_eq!(quote_buy(100, 100, 10), (10, 12));
}

#[test]
fn quotes_keep_product() {
    let (got, paid) = quote_sell(1000, 5000, 37);
    assert!((1000 + paid) * (5000 - got) >= 1000 * 5000);
    let (got, paid) = quote_buy(1000, 5000, 123);
    assert!(got >= 123);
    assert!((1000 + paid) * (5000 - got) >= 1000 * 5000);
}

#[test]
fn mul_div_exact() {
    assert_eq!(mul_div(3, 10, 4), 7);
    assert_eq!(mul_div(u128::MAX, u128::MAX, u128::MAX), u128::MAX);
    assert_eq!(mul_div(u128::MAX - 1, u128::MAX, u128::MAX), u128::MAX - 1);
    assert_eq!(mul_div(0, 5, 9), 0);
}

#[test]
fn distribution_sums_to_bounty() {
    let r = distribute(&vec![1, 1, 1], 10);
    assert_eq!(r, vec![4, 3, 3]);
    let r = distribute(&vec![5, 0, 15], 100);
    assert_eq!(r, vec![25, 0, 75]);
    let r = distribute(&vec![7, 11, 13], 1000);
    assert_eq!(r.iter().sum::<u64>(), 1000);
}

#[test]
fn number_text() {
    assert_eq!(to_hex_string(255), "ff");
    assert_eq!(to_hex_string(0), "0");
    assert_eq!(to_decimal_string(1234), "1234");
    assert_eq!(parse_hex_u64("FF"), Ok(255));
    assert_eq!(parse_hex_u64("+1f"), Ok(31));
    assert_eq!(parse_hex_u64(""), Err(HexParseError::Empty));
    assert_eq!(parse_hex_u64("g"), Err(HexParseError::InvalidDigit));
    assert_eq!(parse_hex_u64("1ffffffffffffffff"), Err(HexParseError::PosOverflow));
    assert_eq!(parse_hex_u64(&to_hex_string(u64::MAX)), Ok(u64::MAX));
}

#[test]
fn pair_text_roundtrip() {
    let p = TradingPairID {
        asset_a: TokenPointer(EntityID(0xc0de0001)),
        asset_b: TokenPointer(EntityID(42)),
    };
    let s = p.to_pair_string();
    assert_eq!(s, "c0de0001:2a");
    assert_eq!(TradingPairID::try_from_str(&s), Ok(p));
    assert_eq!(
        TradingPairID::try_from_str("1:2:3"),
        Err(TradingPairIDParseError::WrongNumberOfTerms)
    );
    assert!(matches!(
        TradingPairID::try_from_str("1:zz"),
        Err(TradingPairIDParseError::EntityIDParseError(_))
    ));
}

#[test]
fn pair_normalize_is_idempotent() {
    let mut p = TradingPairID {
        asset_a: TokenPointer(EntityID(9)),
        asset_b: TokenPointer(EntityID(3)),
    };
    p.normalize();
    assert_eq!(p.asset_a.inner(), 3);
    assert_eq!(p.asset_b.inner(), 9);
    let q = p;
    p.normalize();
    assert_eq!(p, q);
}

#[test]
fn allocator_counts_up() {
    let mut a = EntityIDAllocator::new();
    let x = a.make();
    let y = a.make();
    assert_eq!(x.0, ALLOCATOR_START + 1);
    assert_eq!(y.0, ALLOCATOR_START + 2);
    assert!(x.is_valid());
}

#[test]
fn token_transfer_and_back() {
    let mut t = TokenBase::with_id(EntityID(1), Some("T".into()));
    let a = EntityID(10);
    let b = EntityID(11);
    t.mint(&a, 100);
    assert!(t.transfer(&a, &b, 30));
    assert_eq!(t.balance_check(&a), 70);
    assert_eq!(t.balance_check(&b), 30);
    assert!(!t.transfer(&a, &b, 71));
    assert_eq!(t.balance_check(&a), 70);
    assert!(t.transfer(&b, &a, 30));
    assert_eq!(t.balance_check(&a), 100);
    assert_eq!(t.balance_check(&b), 0);
    assert_eq!(t.total_coins(), 100);
    assert!(t.transfer(&a, &a, 100));
    assert_eq!(t.balance_check(&a), 100);
}

#[test]
fn callbacks_come_due_in_time_order() {
    let mut r = CallbackRegistry::new();
    r.schedule(Callback::PowerPlantEvent(PowerPlantEvent { time: 30, period: 1 }));
    r.schedule(Callback::PowerPlantEvent(PowerPlantEvent { time: 10, period: 2 }));
    r.schedule(Callback::PowerPlantEvent(PowerPlantEvent { time: 30, period: 3 }));
    r.schedule(Callback::PowerPlantEvent(PowerPlantEvent { time: 50, period: 4 }));
    let due = r.take_due(30);
    let periods: Vec<u64> = due
        .iter()
        .map(|c| match c {
            Callback::PowerPlantEvent(p) => p.period,
            _ => 0,
        })
        .collect();
    assert_eq!(periods, vec![2, 1, 3]);
    assert_eq!(r.callbacks.len(), 1);
    assert_eq!(r.take_due(29).len(), 0);
}

#[test]
fn strings_sorted_distinct() {
    let v = vec!["b".to_string(), "a".to_string(), "b".to_string(), "ab".to_string()];
    assert_eq!(sorted_distinct_strings(&v), vec!["a", "ab", "b"]);
}
