use options_math::{OptionContract, OptionKind, OptionsByExpiryDate, WeightedOption};

const EXPIRY: i64 = 1_231_430_400;

fn call(strike: i64, mark: i64) -> OptionContract {
    OptionContract::new(EXPIRY, strike, OptionKind::Call, mark - 10, mark + 10)
}

fn put(strike: i64, mark: i64) -> OptionContract {
    OptionContract::new(EXPIRY, strike, OptionKind::Put, mark - 10, mark + 10)
}

fn leg(option: OptionContract, delta_k: i64) -> WeightedOption {
    WeightedOption { option, delta_k }
}

fn five_strikes() -> OptionsByExpiryDate {
    OptionsByExpiryDate {
        expires_at: EXPIRY,
        risk_free_rate_ppm: 3_000,
        calls: vec![
            call(9_000, 1_050),
            call(9_500, 600),
            call(10_000, 250),
            call(10_500, 100),
            call(11_000, 50),
        ],
        puts: vec![
            put(9_000, 50),
            put(9_500, 100),
            put(10_000, 250),
            put(10_500, 600),
            put(11_000, 1_050),
        ],
    }
}

#[test]
fn strip_around_a_forward_price_on_a_strike() {
    let strip = five_strikes().replication_strip(10_000);
    assert_eq!(strip.k0, 9_500);
    assert_eq!(
        strip.options,
        vec![
            leg(put(9_000, 50), 0),
            leg(call(10_000, 250), 500),
            leg(call(10_500, 100), 500),
            leg(call(11_000, 50), 0),
            leg(call(9_500, 600), 500),
            leg(put(9_500, 100), 500),
        ]
    );
}

#[test]
fn strip_around_a_forward_price_between_strikes() {
    let strip = five_strikes().replication_strip(10_501);
    assert_eq!(strip.k0, 10_500);
    assert_eq!(
        strip.options,
        vec![
            leg(put(10_000, 250), 500),
            leg(put(9_500, 100), 500),
            leg(put(9_000, 50), 0),
            leg(call(11_000, 50), 0),
            leg(call(10_500, 100), 500),
            leg(put(10_500, 600), 500),
        ]
    );
}

#[test]
fn strip_with_no_strike_below_the_forward_price() {
    let strip = five_strikes().replication_strip(9_000);
    assert_eq!(strip.k0, 0);
    assert_eq!(
        strip.options,
        vec![
            leg(call(9_000, 1_050), 0),
            leg(call(9_500, 600), 500),
            leg(call(10_000, 250), 500),
            leg(call(10_500, 100), 500),
            leg(call(11_000, 50), 0),
        ]
    );
    assert_eq!(five_strikes().replication_strip(i64::MIN).k0, 0);
}

#[test]
fn strip_with_every_strike_below_the_forward_price() {
    let strip = five_strikes().replication_strip(20_000);
    assert_eq!(strip.k0, 11_000);
    assert_eq!(
        strip.options,
        vec![
            leg(put(10_500, 600), 500),
            leg(put(10_000, 250), 500),
            leg(put(9_500, 100), 500),
            leg(put(9_000, 50), 0),
            leg(call(11_000, 50), 0),
            leg(put(11_000, 1_050), 0),
        ]
    );
}

#[test]
fn strip_with_one_strike_below_the_forward_price() {
    let strip = five_strikes().replication_strip(9_001);
    assert_eq!(strip.k0, 9_000);
    assert_eq!(strip.options.len(), 6);
    assert_eq!(strip.options[0], leg(call(9_500, 600), 500));
    assert_eq!(strip.options[4], leg(call(9_000, 1_050), 0));
    assert_eq!(strip.options[5], leg(put(9_000, 50), 0));
}

#[test]
fn strip_of_a_chain_without_strikes_is_empty() {
    let empty = OptionsByExpiryDate {
        expires_at: EXPIRY,
        risk_free_rate_ppm: 3_000,
        calls: vec![],
        puts: vec![],
    };
    let strip = empty.replication_strip(0);
    assert_eq!(strip.k0, 0);
    assert!(strip.options.is_empty());
}

#[test]
fn reference_strike_counts_twice() {
    let strip = five_strikes().replication_strip(10_000);
    let at_k0 = strip.options.iter().filter(|l| l.option.strike == strip.k0).count();
    assert_eq!(at_k0, 2);
    let elsewhere = strip.options.iter().filter(|l| l.option.strike != strip.k0).count();
    assert_eq!(elsewhere, 4);
}
