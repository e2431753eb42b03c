use atomr::money::interop::{parse_decimal, parse_rounding_mode, AmountArg, ArgError};
use atomr::money::{Currency, Decimal, Money, MoneyError, Price, Qty, RoundingMode};

#[test]
fn from_code_known_and_unknown() {
    assert_eq!(Currency::from_code("usd").unwrap(), Currency::usd());
    assert_eq!(Currency::from_code("JPY").unwrap().minor_units(), 0);
    assert_eq!(Currency::from_code("xyz").unwrap().minor_units(), 2);
    assert!(Currency::from_code("US").is_err());
    assert!(Currency::from_code("US1").is_err());
}

#[test]
fn code_round_trips() {
    assert_eq!(Currency::usd().code(), "USD");
    assert_eq!(Currency::from_code("usd").unwrap().code(), "USD");
}

#[test]
fn known_currencies() {
    for (code, c) in [
        ("eur", Currency::eur()),
        ("gbp", Currency::gbp()),
        ("jpy", Currency::jpy()),
        ("chf", Currency::chf()),
    ] {
        assert_eq!(Currency::from_code(code).unwrap(), c);
        assert!(Currency::from_code(code).unwrap().same(&c));
    }
    assert_eq!(
        Currency::from_code("dollar"),
        Err(MoneyError::BadCurrencyCode("dollar".to_string()))
    );
    let rare = Currency::new(*b"XAU", 5);
    assert_eq!(rare.code(), "XAU");
    assert_eq!(rare.minor_units(), 5);
    assert_eq!(Currency::from_code(&rare.code()).unwrap().code(), "XAU");
    assert!(!Currency::usd().same(&Currency::new(*b"USD", 3)));
}

#[test]
fn currency_hash_is_fnv() {
    let mut h: u64 = 1469598103934665603;
    for b in b"USD" {
        h = (h ^ *b as u64).wrapping_mul(1099511628211);
    }
    assert_eq!(Currency::usd().stable_hash(), h);
    assert_ne!(Currency::eur().stable_hash(), h);
}

#[test]
fn from_minor_and_to_minor_round_trip() {
    let m = Money::from_minor(1025, Currency::usd());
    assert_eq!(m.amount(), Decimal::new(1025, 2));
    assert_eq!(m.to_minor(), 1025);
}

#[test]
fn checked_add_same_currency() {
    let a = Money::from_str_amount("10.25", Currency::usd()).unwrap();
    let b = Money::from_str_amount("0.75", Currency::usd()).unwrap();
    assert_eq!(a.checked_add(&b).unwrap().amount(), Decimal::new(1100, 2));
}

#[test]
fn checked_add_currency_mismatch_errors() {
    let a = Money::from_minor(100, Currency::usd());
    let b = Money::from_minor(100, Currency::eur());
    assert!(matches!(a.checked_add(&b), Err(MoneyError::CurrencyMismatch { .. })));
    assert_eq!(
        a.checked_sub(&b),
        Err(MoneyError::CurrencyMismatch { lhs: "USD".to_string(), rhs: "EUR".to_string() })
    );
}

#[test]
fn rounding_modes() {
    let m = Money::from_str_amount("2.345", Currency::usd()).unwrap();
    assert_eq!(m.round(RoundingMode::BankersRounding).amount(), Decimal::new(234, 2));
    assert_eq!(m.round(RoundingMode::HalfUp).amount(), Decimal::new(235, 2));
}

#[test]
fn every_rounding_mode_in_both_directions() {
    let up = Money::from_str_amount("2.355", Currency::usd()).unwrap();
    let down = Money::from_str_amount("-2.355", Currency::usd()).unwrap();
    let cases = [
        (RoundingMode::BankersRounding, 236, -236),
        (RoundingMode::HalfUp, 236, -236),
        (RoundingMode::HalfDown, 235, -235),
        (RoundingMode::Floor, 235, -236),
        (RoundingMode::Ceil, 236, -235),
    ];
    for (mode, plus, minus) in cases {
        assert_eq!(up.round(mode).amount(), Decimal::new(plus, 2), "{mode:?}");
        assert_eq!(down.round(mode).amount(), Decimal::new(minus, 2), "{mode:?}");
    }
}

#[test]
fn price_rounds_to_tick() {
    let p = Price::new(Decimal::new(100123, 3));
    assert_eq!(p.round_to_tick(Decimal::new(5, 2)).value(), Decimal::new(10010, 2));
    assert_eq!(p.round_to_tick(Decimal::new(25, 2)).value(), Decimal::new(10000, 2));
}

#[test]
fn qty_floors_to_lot() {
    let q = Qty::new(Decimal::new(157, 0));
    assert_eq!(q.round_to_lot(Decimal::new(100, 0)).value(), Decimal::new(100, 0));
    assert_eq!(q.round_to_lot(Decimal::new(10, 0)).value(), Decimal::new(150, 0));
}

#[test]
fn a_step_that_is_not_positive_changes_nothing() {
    let p = Price::new(Decimal::new(100123, 3));
    assert_eq!(p.round_to_tick(Decimal::zero()), p);
    assert_eq!(p.round_to_tick(Decimal::new(-5, 2)), p);
    let q = Qty::new(Decimal::new(157, 0));
    assert_eq!(q.round_to_lot(Decimal::zero()), q);
}

#[test]
fn a_step_without_room_is_refused() {
    let largest = Decimal::from_i128_with_scale(79_228_162_514_264_337_593_543_950_335, 0);
    assert_eq!(Price::new(largest).checked_round_to_tick(Decimal::new(1, 1)), None);
    assert_eq!(Qty::new(largest).checked_round_to_lot(Decimal::new(1, 28)), None);
    let p = Price::new(Decimal::new(100123, 3));
    assert_eq!(
        p.checked_round_to_tick(Decimal::new(5, 2)).map(|p| p.value()),
        Some(Decimal::new(10010, 2))
    );
    let q = Qty::new(Decimal::new(-157, 0));
    assert_eq!(
        q.checked_round_to_lot(Decimal::new(10, 0)).map(|q| q.value()),
        Some(Decimal::new(-160, 0))
    );
}

#[test]
fn prices_on_the_grid_stay() {
    for n in [0i64, 1, 7, -3] {
        let p = Price::new(Decimal::new(n * 5, 2));
        assert_eq!(p.round_to_tick(Decimal::new(5, 2)), p);
    }
    let half = Price::new(Decimal::new(75, 3));
    assert_eq!(half.round_to_tick(Decimal::new(5, 2)).value(), Decimal::new(10, 2));
    let other = Price::new(Decimal::new(125, 3));
    assert_eq!(other.round_to_tick(Decimal::new(5, 2)).value(), Decimal::new(10, 2));
}

#[test]
fn whole_lots_do_not_exceed_the_quantity() {
    let q = Qty::new(Decimal::new(1575, 1));
    let r = q.round_to_lot(Decimal::new(5, 0));
    assert_eq!(r.value(), Decimal::new(155, 0));
    assert!(r < q);
}

#[test]
fn money_from_str_and_to_minor() {
    let m = Money::from_str_amount("10.25", Currency::usd()).unwrap();
    assert_eq!(m.to_minor(), 1025);
}

#[test]
fn rounding_mode_parse() {
    assert_eq!(parse_rounding_mode("bankers").unwrap(), RoundingMode::BankersRounding);
    assert_eq!(parse_rounding_mode("half_up").unwrap(), RoundingMode::HalfUp);
    assert!(parse_rounding_mode("nope").is_err());
}

#[test]
fn minor_units_of_amounts_with_fewer_places() {
    let a = Money::from_str_amount("10", Currency::usd()).unwrap();
    assert_eq!(a.to_minor(), 1000);
    let b = Money::from_str_amount("10.5", Currency::usd()).unwrap();
    assert_eq!(b.to_minor(), 1050);
    let c = Money::from_str_amount("10.505", Currency::usd()).unwrap();
    assert_eq!(c.to_minor(), 1050);
    let d = Money::from_str_amount("12.5", Currency::jpy()).unwrap();
    assert_eq!(d.to_minor(), 12);
}

#[test]
fn documented_example() {
    let a = Money::from_str_amount("10.25", Currency::usd()).unwrap();
    let b = Money::from_minor(75, Currency::usd());
    assert_eq!(a.checked_add(&b).unwrap().to_minor(), 1100);
    let notional = Money::from_str_amount("1250000.00", Currency::usd()).unwrap();
    let fee = Money::from_minor(125, Currency::usd());
    let net = notional.checked_sub(&fee).unwrap();
    assert_eq!(net.round(RoundingMode::BankersRounding).to_minor(), 124_999_875);
}

#[test]
fn addition_is_associative() {
    let samples = [-1_000_000_000i128, -75, -1, 0, 1, 33, 999_999_999];
    for a in samples {
        for b in samples {
            for c in samples {
                let (a, b, c) = (
                    Money::from_minor(a, Currency::usd()),
                    Money::from_minor(b, Currency::usd()),
                    Money::from_minor(c, Currency::usd()),
                );
                let left = a.checked_add(&b).unwrap().checked_add(&c).unwrap();
                let right = b.checked_add(&c).unwrap();
                let right = a.checked_add(&right).unwrap();
                assert_eq!(left.amount(), right.amount());
            }
        }
    }
}

#[test]
fn no_penny_drift() {
    let units: Vec<i128> = (0..500).map(|i| (i * 7919 % 2_000_000) - 1_000_000).collect();
    let expected: i128 = units.iter().sum();
    let mut acc = Money::from_minor(0, Currency::usd());
    for u in &units {
        acc = acc.checked_add(&Money::from_minor(*u, Currency::usd())).unwrap();
    }
    assert_eq!(acc.to_minor(), expected);
}

#[test]
fn minor_round_trip() {
    for m in [-1_000_000_000_000i128, -1, 0, 1, 99, 100, 1_000_000_000_000] {
        assert_eq!(Money::from_minor(m, Currency::usd()).to_minor(), m);
    }
}

#[test]
fn scalar_mul_matches_repeated_add() {
    for units in [-1_000_000i128, -3, 0, 17, 1_000_000] {
        for n in [0i64, 1, 7, 49] {
            let m = Money::from_minor(units, Currency::usd());
            let scaled = m.checked_mul_scalar(Decimal::new(n, 0)).unwrap();
            let mut acc = Money::from_minor(0, Currency::usd());
            for _ in 0..n {
                acc = acc.checked_add(&m).unwrap();
            }
            assert_eq!(scaled.amount(), acc.amount());
        }
    }
}

#[test]
fn overflow_is_an_error() {
    let largest = Decimal::from_i128_with_scale(79_228_162_514_264_337_593_543_950_335, 0);
    let m = Money::new(largest, Currency::usd());
    assert_eq!(m.checked_add(&m), Err(MoneyError::Overflow));
    assert_eq!(m.checked_mul_scalar(Decimal::new(2, 0)), Err(MoneyError::Overflow));
    let less = Money::new(
        Decimal::from_i128_with_scale(-79_228_162_514_264_337_593_543_950_335, 0),
        Currency::usd(),
    );
    assert_eq!(less.checked_sub(&m), Err(MoneyError::Overflow));
}

#[test]
fn amounts_are_read_back_as_written() {
    for (m, s, text) in [
        (1025i128, 2u32, "10.25"),
        (-5, 3, "-0.005"),
        (0, 2, "0.00"),
        (7, 0, "7"),
        (79_228_162_514_264_337_593_543_950_335, 28, "7.9228162514264337593543950335"),
        (1, 28, "0.0000000000000000000000000001"),
    ] {
        let d = Decimal::from_i128_with_scale(m, s);
        assert_eq!(d.to_text(), text);
        let back = Decimal::parse(text).unwrap();
        assert_eq!((back.mantissa(), back.scale()), (m, s));
    }
    let m = Money::from_str_amount("10.25", Currency::usd()).unwrap();
    assert_eq!(m.to_text(), "10.25 USD");
    assert_eq!(m.currency(), Currency::usd());
}

#[test]
fn bad_amounts_are_refused() {
    assert!(matches!(
        Money::from_str_amount("ten", Currency::usd()),
        Err(MoneyError::BadAmount(_))
    ));
    assert_eq!(
        Money::from_str_amount("", Currency::usd()),
        Err(MoneyError::BadAmount("Invalid decimal: empty".to_string()))
    );
}

#[test]
fn decimals_compare_as_numbers() {
    assert_eq!(Decimal::new(15, 1), Decimal::new(150, 2));
    assert_ne!(Decimal::new(15, 1), Decimal::new(151, 2));
    assert!(Decimal::new(-15, 1) < Decimal::new(1, 0));
    assert!(Price::new(Decimal::new(2, 0)) > Price::new(Decimal::new(19, 1)));
}

#[test]
fn floats_are_refused_and_strings_are_trimmed() {
    assert!(matches!(parse_decimal(&AmountArg::Float), Err(ArgError::Type(_))));
    assert_eq!(
        parse_decimal(&AmountArg::Text(" 10.25 ".to_string())).unwrap(),
        Decimal::new(1025, 2)
    );
    let int = AmountArg::Object { class: "int".to_string(), text: "42".to_string() };
    assert_eq!(parse_decimal(&int).unwrap(), Decimal::new(42, 0));
    let flag = AmountArg::Object { class: "bool".to_string(), text: "True".to_string() };
    assert_eq!(
        parse_decimal(&flag),
        Err(ArgError::Type(
            "expected a decimal string for a money amount, got `bool`".to_string()
        ))
    );
    assert_eq!(
        parse_decimal(&AmountArg::Text("x".to_string())),
        Err(ArgError::Value(
            "invalid decimal string `x`: Invalid decimal: unknown character".to_string()
        ))
    );
    assert_eq!(
        parse_rounding_mode("nope"),
        Err(ArgError::Value(
            "unknown rounding mode `nope`; expected one of bankers | half_up | half_down | floor | ceil"
                .to_string()
        ))
    );
}

#[test]
fn prices_and_quantities_snap_where_the_quotient_does_not_end() {
    let (ten, three) = (Decimal::new(10, 0), Decimal::new(3, 0));
    assert_eq!(Price::new(ten).checked_round_to_tick(three).unwrap().value(), Decimal::new(9, 0));
    assert_eq!(Qty::new(ten).checked_round_to_lot(three).unwrap().value(), Decimal::new(9, 0));
    let eleven = Decimal::new(11, 0);
    assert_eq!(Price::new(eleven).checked_round_to_tick(three).unwrap().value(), Decimal::new(12, 0));
    assert_eq!(Qty::new(eleven).checked_round_to_lot(three).unwrap().value(), Decimal::new(9, 0));
    let negative = Decimal::new(-10, 0);
    assert_eq!(Qty::new(negative).checked_round_to_lot(three).unwrap().value(), Decimal::new(-12, 0));
}
