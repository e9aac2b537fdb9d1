use options_math::{
    blend_weights, group_options_by_expiry, Cents, OptionContract, OptionKind,
    OptionsByExpiryDate, Timestamp, MINUTES_PER_30_DAYS, MINUTES_PER_YEAR,
};

const NOW: Timestamp = 1_230_768_000;
const DAY: i64 = 86_400;

fn time_to_expiration(chain: &OptionsByExpiryDate, now: Timestamp) -> f64 {
    chain.minutes_to_expiration(now) as f64 / MINUTES_PER_YEAR as f64
}

fn interest(chain: &OptionsByExpiryDate, now: Timestamp) -> f64 {
    let rate = chain.risk_free_rate_ppm as f64 / 1_000_000.0;
    (rate * time_to_expiration(chain, now)).exp()
}

fn forward_price(chain: &OptionsByExpiryDate, now: Timestamp) -> Cents {
    match chain.at_the_money() {
        Some(atm) => {
            let carry = (interest(chain, now) * atm.call_put_difference() as f64) as Cents;
            chain.forward_price(carry)
        }
        None => chain.forward_price(0),
    }
}

fn variance(chain: &OptionsByExpiryDate, now: Timestamp) -> f64 {
    let t = time_to_expiration(chain, now);
    let risk_free_interest = interest(chain, now);
    let fp = forward_price(chain, now);
    let strip = chain.replication_strip(fp);
    let contributions: f64 = strip
        .options
        .iter()
        .map(|leg| {
            let strike_dollars = leg.option.strike as f64 / 100.0;
            (leg.delta_k as f64 / 100.0) / (strike_dollars * strike_dollars)
                * (leg.option.mark() as f64 / 100.0)
                * risk_free_interest
        })
        .sum();
    let a = if strip.k0 == 0 { 0.0 } else { fp as f64 / strip.k0 as f64 - 1.0 };
    (2.0 * contributions - a * a) / t
}

fn vix(near_term: &OptionsByExpiryDate, next_term: &OptionsByExpiryDate, now: Timestamp) -> f64 {
    let t1 = time_to_expiration(near_term, now);
    let s1_sq = variance(near_term, now);
    let t2 = time_to_expiration(next_term, now);
    let s2_sq = variance(next_term, now);
    let w = blend_weights(near_term, next_term, now);
    ((t1 * s1_sq * w.near as f64 / w.span as f64 + t2 * s2_sq * w.next as f64 / w.span as f64)
        * MINUTES_PER_YEAR as f64
        / MINUTES_PER_30_DAYS as f64)
        .powf(0.5)
        * 100.0
}

/// A chain at strikes 90 to 110 whose put marks mirror its call marks, quoted
/// ten cents either side of the mark.
fn mirrored_chain(expires_at: Timestamp, call_marks: [i64; 5]) -> Vec<OptionContract> {
    let strikes = [9_000, 9_500, 10_000, 10_500, 11_000];
    let mut options = Vec::new();
    for i in 0..5 {
        let call = call_marks[i];
        let put = call_marks[4 - i];
        options.push(OptionContract::new(expires_at, strikes[i], OptionKind::Call, call - 10, call + 10));
        options.push(OptionContract::new(expires_at, strikes[i], OptionKind::Put, put - 10, put + 10));
    }
    options
}

fn two_terms() -> (OptionsByExpiryDate, OptionsByExpiryDate) {
    let near = NOW + 10 * DAY;
    let next = NOW + 40 * DAY;
    let mut options = mirrored_chain(near, [1_050, 600, 250, 100, 50]);
    options.extend(mirrored_chain(next, [1_150, 750, 450, 250, 120]));
    let mut groups = group_options_by_expiry(&options);
    (groups.remove(&near).unwrap(), groups.remove(&next).unwrap())
}

fn close(a: f64, b: f64) -> bool {
    (a - b).abs() <= 1e-9 * b.abs()
}

#[test]
fn mirrored_chain_has_its_forward_price_on_the_middle_strike() {
    let (near, next) = two_terms();
    assert_eq!(near.at_the_money().unwrap().price, 10_000);
    assert_eq!(near.at_the_money().unwrap().call_put_difference(), 0);
    assert_eq!(forward_price(&near, NOW), 10_000);
    assert_eq!(forward_price(&next, NOW), 10_000);
    assert_eq!(near.replication_strip(10_000).k0, 9_500);
}

#[test]
fn variance_of_a_mirrored_liquid_chain_is_not_negative() {
    let (near, next) = two_terms();
    let s1_sq = variance(&near, NOW);
    let s2_sq = variance(&next, NOW);
    assert!(s1_sq.is_finite() && s1_sq >= 0.0);
    assert!(s2_sq.is_finite() && s2_sq >= 0.0);
    assert!(close(s1_sq, 0.3063845269603407));
    assert!(close(s2_sq, 0.13763868742906238));
}

#[test]
fn variance_at_expiration_is_not_finite() {
    let (near, _) = two_terms();
    assert_eq!(near.minutes_to_expiration(near.expires_at), 0);
    assert!(!variance(&near, near.expires_at).is_finite());
}

#[test]
fn index_of_equal_expirations_is_not_finite() {
    let (near, _) = two_terms();
    assert!(blend_weights(&near, &near, NOW).is_degenerate());
    assert!(!vix(&near, &near, NOW).is_finite());
}

#[test]
fn index_of_two_terms_is_a_positive_percentage() {
    let (near, next) = two_terms();
    let index = vix(&near, &next, NOW);
    assert!(index.is_finite());
    assert!(index > 0.0);
    assert!(close(index, 39.54595113975133));
}

#[test]
fn index_is_the_same_on_every_run() {
    let (near, next) = two_terms();
    let first = vix(&near, &next, NOW);
    let (near_again, next_again) = two_terms();
    let second = vix(&near_again, &next_again, NOW);
    assert_eq!(first.to_bits(), second.to_bits());
    assert_eq!(first.to_bits(), vix(&near, &next, NOW).to_bits());
}

#[test]
fn test_vix() {
    let now: Timestamp = 1_230_768_000;
    let records: [(i64, f64, f64, f64, f64, f64); 10] = [
        (9, 90.0, 10.4, 10.6, 0.4, 0.6),
        (9, 95.0, 5.9, 6.1, 0.9, 1.1),
        (9, 100.0, 2.4, 2.6, 2.4, 2.6),
        (9, 105.0, 0.9, 1.1, 5.9, 6.1),
        (9, 110.0, 0.4, 0.6, 10.4, 10.6),
        (37, 90.0, 11.4, 11.6, 1.1, 1.3),
        (37, 95.0, 7.4, 7.6, 2.4, 2.6),
        (37, 100.0, 4.4, 4.6, 4.4, 4.6),
        (37, 105.0, 2.4, 2.6, 7.4, 7.6),
        (37, 110.0, 1.1, 1.3, 11.4, 11.6),
    ];

    let mut options: Vec<OptionContract> = vec![];
    for (days, strike, call_bid, call_ask, put_bid, put_ask) in records {
        let expiration = now + days * DAY + 16 * 3_600;
        options.push(OptionContract::new(
            expiration,
            (strike * 100.0) as Cents,
            OptionKind::Call,
            (call_bid * 100.0) as Cents,
            (call_ask * 100.0) as Cents,
        ));
        options.push(OptionContract::new(
            expiration,
            (strike * 100.0) as Cents,
            OptionKind::Put,
            (put_bid * 100.0) as Cents,
            (put_ask * 100.0) as Cents,
        ));
    }

    let options_by_expiry = group_options_by_expiry(&options[..]);

    let mut options_by_expiry_sorted: Vec<Timestamp> = options_by_expiry.keys().map(|k| *k).collect();
    options_by_expiry_sorted.sort();
    assert_eq!(options_by_expiry_sorted.len(), 2);

    match (
        options_by_expiry_sorted.get(0).and_then(|d| options_by_expiry.get(d)),
        options_by_expiry_sorted.get(1).and_then(|d| options_by_expiry.get(d)),
    ) {
        (Some(near_term), Some(next_term)) => {
            let index = vix(near_term, next_term, now);
            println!("{:?}", index);
            assert!(index.is_finite());
        }
        _ => {}
    }
}
