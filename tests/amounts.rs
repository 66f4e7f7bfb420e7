use craft_tree_optimizer::ui::{ParseTargetAmountError, TargetAmount};

fn parsed(s: &str) -> Result<(u64, u64), ParseTargetAmountError> {
    TargetAmount::parse(s).map(|a| (a.numer, a.denom))
}

#[test]
fn parses_whole_numbers() {
    assert_eq!(parsed("50"), Ok((50, 1)));
    assert_eq!(parsed("+7"), Ok((7, 1)));
    assert_eq!(parsed("0"), Ok((0, 1)));
    assert_eq!(parsed("007"), Ok((7, 1)));
}

#[test]
fn parses_decimals_exactly() {
    assert_eq!(parsed("3.0"), Ok((30, 10)));
    assert_eq!(parsed("0.125"), Ok((125, 1000)));
    assert_eq!(parsed(".5"), Ok((5, 10)));
    assert_eq!(parsed("2."), Ok((2, 1)));
    assert_eq!(parsed("-0.0"), Ok((0, 10)));
}

#[test]
fn rejects_malformed_text() {
    for s in ["", "+", "-", ".", "abc", "1.2.3", "1e5", "inf", "NaN", " 1", "1 ", "1,5", "--1"] {
        assert_eq!(parsed(s), Err(ParseTargetAmountError::Parse), "{s:?}");
    }
}

#[test]
fn rejects_negative_values() {
    assert_eq!(parsed("-1"), Err(ParseTargetAmountError::Negative));
    assert_eq!(parsed("-0.001"), Err(ParseTargetAmountError::Negative));
    assert_eq!(parsed("-99999999999999999999999"), Err(ParseTargetAmountError::Negative));
}

#[test]
fn rejects_values_beyond_u64() {
    assert_eq!(parsed("18446744073709551615"), Ok((u64::MAX, 1)));
    assert_eq!(parsed("18446744073709551616"), Err(ParseTargetAmountError::OutOfRange));
    assert_eq!(parsed("0.0000000000000000000001"), Err(ParseTargetAmountError::OutOfRange));
    assert_eq!(parsed("0.0000000000000000001"), Ok((1, 10_000_000_000_000_000_000)));
}

use craft_tree_optimizer::ui::recipe::{ParseProbaError, ParseQuantityError, Probability, Quantity};

#[test]
fn quantity_parse_accepts_one_to_255() {
    assert_eq!(Quantity::parse("1").map(|q| q.get()), Ok(1));
    assert_eq!(Quantity::parse("+42").map(|q| q.get()), Ok(42));
    assert_eq!(Quantity::parse("255").map(|q| q.get()), Ok(255));
    assert_eq!(Quantity::parse("0"), Err(ParseQuantityError::Zero));
    assert_eq!(Quantity::parse("000"), Err(ParseQuantityError::Zero));
    for s in ["", "+", "-1", "256", "1.5", "x", " 3"] {
        assert_eq!(Quantity::parse(s), Err(ParseQuantityError::Parse), "{s:?}");
    }
}

#[test]
fn probability_parse_accepts_percentages() {
    assert_eq!(Probability::parse("50").map(|p| p.percent()), Ok(50));
    assert_eq!(Probability::parse("100").map(|p| p.percent()), Ok(100));
    assert_eq!(Probability::parse("0"), Err(ParseProbaError::Range));
    assert_eq!(Probability::parse("101"), Err(ParseProbaError::Range));
    assert_eq!(Probability::parse("255"), Err(ParseProbaError::Range));
    assert_eq!(Probability::parse("256"), Err(ParseProbaError::Parse));
    assert_eq!(Probability::parse("50%"), Err(ParseProbaError::Parse));
}
