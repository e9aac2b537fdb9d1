use options_math::{OptionContract, OptionKind, OptionsByExpiryDate};

const EXPIRY: i64 = 1_231_430_400;

fn call(strike: i64, bid: i64, ask: i64) -> OptionContract {
    OptionContract::new(EXPIRY, strike, OptionKind::Call, bid, ask)
}

fn put(strike: i64, bid: i64, ask: i64) -> OptionContract {
    OptionContract::new(EXPIRY, strike, OptionKind::Put, bid, ask)
}

fn chain(calls: Vec<OptionContract>, puts: Vec<OptionContract>) -> OptionsByExpiryDate {
    OptionsByExpiryDate { expires_at: EXPIRY, risk_free_rate_ppm: 3_000, calls, puts }
}

/// Marks: calls 1050, 600, 290, 100, 50 and puts 50, 100, 250, 600, 1050.
fn five_strikes() -> OptionsByExpiryDate {
    chain(
        vec![
            call(9_000, 1_040, 1_060),
            call(9_500, 590, 610),
            call(10_000, 280, 300),
            call(10_500, 90, 110),
            call(11_000, 40, 60),
        ],
        vec![
            put(9_000, 40, 60),
            put(9_500, 90, 110),
            put(10_000, 240, 260),
            put(10_500, 590, 610),
            put(11_000, 1_040, 1_060),
        ],
    )
}

#[test]
fn at_the_money_strike_has_the_closest_marks() {
    let atm = five_strikes().at_the_money().unwrap();
    assert_eq!(atm.price, 10_000);
    assert_eq!(atm.call_put_difference(), 40);
    assert_eq!(atm.delta_k, 500);
}

#[test]
fn at_the_money_looks_at_the_size_of_the_difference() {
    let c = chain(
        vec![call(9_000, 500, 500), call(10_000, 100, 100)],
        vec![put(9_000, 490, 490), put(10_000, 105, 105)],
    );
    let atm = c.at_the_money().unwrap();
    assert_eq!(atm.price, 10_000);
    assert_eq!(atm.call_put_difference(), -5);
}

#[test]
fn lowest_price_wins_a_tie_at_the_money() {
    let c = chain(
        vec![call(9_000, 500, 500), call(10_000, 100, 100), call(11_000, 40, 40)],
        vec![put(9_000, 40, 40), put(10_000, 90, 90), put(11_000, 50, 50)],
    );
    assert_eq!(c.at_the_money().unwrap().price, 10_000);
    let mirrored = chain(
        vec![call(11_000, 40, 40), call(10_000, 100, 100)],
        vec![put(11_000, 30, 30), put(10_000, 110, 110)],
    );
    assert_eq!(mirrored.at_the_money().unwrap().price, 10_000);
}

#[test]
fn chain_without_strikes_has_no_at_the_money_strike() {
    assert!(chain(vec![], vec![]).at_the_money().is_none());
    assert!(chain(vec![call(10_000, 1, 2)], vec![put(9_000, 1, 2)]).at_the_money().is_none());
    assert!(chain(vec![call(10_000, 0, 2)], vec![put(10_000, 1, 2)]).at_the_money().is_none());
}

#[test]
fn forward_price_is_zero_without_strikes() {
    assert_eq!(chain(vec![], vec![]).forward_price(0), 0);
    assert_eq!(chain(vec![], vec![]).forward_price(125), 0);
    assert_eq!(chain(vec![call(10_000, 1, 2)], vec![]).forward_price(-9), 0);
}

#[test]
fn forward_price_adds_the_carry_to_the_at_the_money_price() {
    let c = five_strikes();
    assert_eq!(c.forward_price(40), 10_040);
    assert_eq!(c.forward_price(0), 10_000);
    assert_eq!(c.forward_price(-37), 9_963);
}

#[test]
fn forward_price_reaches_the_end_of_the_range() {
    let c = chain(vec![call(i64::MAX - 5, 3, 3)], vec![put(i64::MAX - 5, 3, 3)]);
    assert_eq!(c.forward_price(5), i64::MAX);
    let low = chain(vec![call(i64::MIN + 5, 3, 3)], vec![put(i64::MIN + 5, 3, 3)]);
    assert_eq!(low.forward_price(-5), i64::MIN);
}

#[test]
fn forward_price_ignores_the_quotes_of_other_strikes() {
    let base = five_strikes();
    let mut changed = five_strikes();
    changed.calls[0] = call(9_000, 1_300, 1_500);
    changed.puts[0] = put(9_000, 10, 20);
    changed.calls[4] = call(11_000, 1, 3);
    changed.puts[3] = put(10_500, 700, 900);
    assert_eq!(changed.at_the_money(), base.at_the_money());
    assert_eq!(changed.forward_price(40), base.forward_price(40));
    assert_eq!(changed.forward_price(40), 10_040);
}

#[test]
fn forward_price_follows_a_strike_that_becomes_at_the_money() {
    let mut changed = five_strikes();
    changed.calls[1] = call(9_500, 100, 100);
    changed.puts[1] = put(9_500, 100, 100);
    assert_eq!(changed.at_the_money().unwrap().price, 9_500);
    assert_eq!(changed.forward_price(0), 9_500);
}

#[test]
fn at_the_money_compares_differences_wider_than_a_price() {
    let c = chain(
        vec![call(9_000, i64::MAX, i64::MAX), call(10_000, i64::MIN, i64::MIN)],
        vec![put(9_000, i64::MIN, i64::MIN), put(10_000, i64::MIN + 1, i64::MIN + 3)],
    );
    assert_eq!(c.at_the_money().unwrap().price, 10_000);
}
