use cw_engine::coin::{Coin, Coins};
use cw_engine::denom::compare_denoms;
use cw_engine::error::{ParseCoinsError, StdError};
use serde::ser::{SerializeSeq, SerializeStruct};

const MOCK_COINS_STR: &[u8] = br#"[{"denom":"uatom","amount":"123"},{"denom":"umars","amount":"456"},{"denom":"uosmo","amount":"789"}]"#;

fn coin(denom: &str, amount: u128) -> Coin {
    Coin { denom: denom.to_string(), amount }
}

fn mock_coins() -> Coins {
    Coins::from_vec_unchecked(vec![coin("uatom", 123), coin("umars", 456), coin("uosmo", 789)])
}

struct CoinJson<'a>(&'a Coin);

impl serde::Serialize for CoinJson<'_> {
    fn serialize<S: serde::Serializer>(&self, serializer: S) -> Result<S::Ok, S::Error> {
        let mut s = serializer.serialize_struct("Coin", 2)?;
        s.serialize_field("denom", &self.0.denom)?;
        s.serialize_field("amount", &self.0.amount.to_string())?;
        s.end()
    }
}

struct CoinsJson(Vec<Coin>);

impl serde::Serialize for CoinsJson {
    fn serialize<S: serde::Serializer>(&self, serializer: S) -> Result<S::Ok, S::Error> {
        let mut seq = serializer.serialize_seq(Some(self.0.len()))?;
        for c in &self.0 {
            seq.serialize_element(&CoinJson(c))?;
        }
        seq.end()
    }
}

fn to_json(coins: &Coins) -> Vec<u8> {
    serde_json::to_vec(&CoinsJson(coins.clone().into_vec())).unwrap()
}

fn from_json(bytes: &[u8]) -> Result<Coins, StdError> {
    let value: serde_json::Value = serde_json::from_slice(bytes).unwrap();
    let mut list = Vec::new();
    for item in value.as_array().unwrap() {
        let denom = item.get("denom").unwrap().as_str().unwrap().to_string();
        let amount = item.get("amount").unwrap().as_str().unwrap().parse::<u128>().unwrap();
        list.push(Coin { denom, amount });
    }
    Coins::try_from(list)
}

#[test]
fn serializing_coins() {
    assert_eq!(to_json(&mock_coins()).as_slice(), MOCK_COINS_STR);
}

#[test]
fn deserializing_coins() {
    // valid string
    assert_eq!(from_json(MOCK_COINS_STR).unwrap(), mock_coins());

    // invalid string: contains zero amount
    let s = br#"[{"denom":"uatom","amount":"0"}]"#;
    assert!(from_json(s).is_err());

    // invalid string: contains duplicate
    let s = br#"[{"denom":"uatom","amount":"123"},{"denom":"uatom","amount":"456"}]"#;
    assert!(from_json(s).is_err());
}

#[test]
fn coins_from_str() {
    // valid string. note: out of order is allowed
    let s = "uosmo:789,uatom:123,umars:456";
    assert_eq!(Coins::from_str(s).unwrap(), mock_coins());

    // invalid string: contains zero amount
    let s = "uatom:0";
    assert!(Coins::from_str(s).is_err());

    // invalid string: contains duplicate
    let s = "uatom:123,uatom:456";
    assert!(Coins::from_str(s).is_err())
}

fn parse_error(s: &str) -> ParseCoinsError {
    match Coins::from_str(s) {
        Err(StdError::ParseCoins(e)) => e,
        other => panic!("unexpected {:?}", other),
    }
}

#[test]
fn from_str_error_kinds() {
    assert_eq!(parse_error("uatom"), ParseCoinsError::MissingColon);
    assert_eq!(parse_error("uatom:12x"), ParseCoinsError::InvalidAmount);
    assert_eq!(parse_error("uatom:"), ParseCoinsError::InvalidAmount);
    assert_eq!(parse_error("uatom:340282366920938463463374607431768211456"), ParseCoinsError::InvalidAmount);
    assert_eq!(parse_error("uatom:0"), ParseCoinsError::ZeroAmount);
    assert_eq!(parse_error("uatom:1,uatom:2"), ParseCoinsError::DuplicateDenom);
    assert_eq!(parse_error(""), ParseCoinsError::MissingColon);
    // the first faulty record decides
    assert_eq!(parse_error("uatom:1,uatom:2,bad"), ParseCoinsError::DuplicateDenom);
    assert_eq!(parse_error("bad,uatom:0"), ParseCoinsError::MissingColon);
}

#[test]
fn from_str_reads_amounts_exactly() {
    let c = Coins::from_str("a:340282366920938463463374607431768211455,b:+7,c:d:5").unwrap_err();
    assert!(matches!(c, StdError::ParseCoins(ParseCoinsError::InvalidAmount)));
    let c = Coins::from_str("a:340282366920938463463374607431768211455,b:+7").unwrap();
    assert_eq!(c.amount_of("a"), u128::MAX);
    assert_eq!(c.amount_of("b"), 7);
    assert_eq!(c.amount_of("c"), 0);
}

#[test]
fn increase_and_decrease_purge_zero() {
    let mut c = Coins::empty();
    assert!(c.is_empty());
    c.increase_amount("uatom", 100).unwrap();
    assert!(c.has("uatom"));
    assert_eq!(c.amount_of("uatom"), 100);
    c.decrease_amount("uatom", 40).unwrap();
    assert_eq!(c.amount_of("uatom"), 60);
    c.decrease_amount("uatom", 60).unwrap();
    assert!(!c.has("uatom"));
    assert_eq!(c.amount_of("uatom"), 0);
    assert!(c.is_empty());
    // increasing by zero stores nothing
    c.increase_amount("umars", 0).unwrap();
    assert!(!c.has("umars"));
    assert!(c.is_empty());
}

#[test]
fn decrease_below_zero_leaves_coins_unchanged() {
    let mut c = mock_coins();
    let before = c.clone();
    match c.decrease_amount("uatom", 124) {
        Err(StdError::Underflow { denom }) => assert_eq!(denom, "uatom"),
        other => panic!("unexpected {:?}", other),
    }
    assert_eq!(c, before);
    match c.decrease_amount("uusd", 1) {
        Err(StdError::DenomNotFound { denom }) => assert_eq!(denom, "uusd"),
        other => panic!("unexpected {:?}", other),
    }
    assert_eq!(c, before);
}

#[test]
fn increase_overflow_leaves_coins_unchanged() {
    let mut c = mock_coins();
    let before = c.clone();
    match c.increase_amount("uatom", u128::MAX) {
        Err(StdError::Overflow { denom }) => assert_eq!(denom, "uatom"),
        other => panic!("unexpected {:?}", other),
    }
    assert_eq!(c, before);
}

#[test]
fn records_stay_ordered() {
    let mut c = Coins::empty();
    c.increase_amount("uosmo", 1).unwrap();
    c.increase_amount("uatom", 2).unwrap();
    c.increase_amount("umars", 3).unwrap();
    c.increase_amount("uatom", 5).unwrap();
    let v = c.into_vec();
    let denoms: Vec<&str> = v.iter().map(|c| c.denom.as_str()).collect();
    assert_eq!(denoms, vec!["uatom", "umars", "uosmo"]);
    assert_eq!(v[0].amount, 7);
}

#[test]
fn try_from_rejects_zero_and_duplicates() {
    assert!(matches!(
        Coins::try_from(vec![coin("a", 1), coin("b", 0)]),
        Err(StdError::ParseCoins(ParseCoinsError::ZeroAmount))
    ));
    assert!(matches!(
        Coins::try_from(vec![coin("a", 1), coin("a", 2)]),
        Err(StdError::ParseCoins(ParseCoinsError::DuplicateDenom))
    ));
    let c = Coins::try_from(vec![coin("b", 2), coin("a", 1)]).unwrap();
    assert_eq!(c.amount_of("a"), 1);
    assert_eq!(c.amount_of("b"), 2);
}

#[test]
fn from_vec_unchecked_keeps_last_record() {
    let c = Coins::from_vec_unchecked(vec![coin("a", 1), coin("a", 5), coin("b", 0)]);
    assert_eq!(c.amount_of("a"), 5);
    assert!(!c.has("b"));
}

#[test]
fn iterators_walk_in_order() {
    let c = mock_coins();
    let mut it = c.iter();
    let first = it.next().unwrap();
    assert_eq!(first.denom, "uatom");
    assert_eq!(*first.amount, 123);
    assert_eq!(it.next().unwrap().denom, "umars");
    assert_eq!(it.next().unwrap().denom, "uosmo");
    assert!(it.next().is_none());
    let mut owned = c.clone().into_iter();
    assert_eq!(owned.next(), Some(coin("uatom", 123)));
    assert_eq!(owned.next(), Some(coin("umars", 456)));
    assert_eq!(owned.next(), Some(coin("uosmo", 789)));
    assert_eq!(owned.next(), None);
    let one = Coins::from_coin(coin("x", 9));
    assert_eq!(one.amount_of("x"), 9);
    assert!(Coins::from_coin(coin("x", 0)).is_empty());
}

#[test]
fn denominations_compare_by_code_point() {
    assert!(compare_denoms("uatom", "umars") < 0);
    assert!(compare_denoms("umars", "uatom") > 0);
    assert_eq!(compare_denoms("uatom", "uatom"), 0);
    assert!(compare_denoms("u", "uatom") < 0);
    assert!(compare_denoms("Z", "a") < 0);
}
