use blindfold::decimal::Decimal;
use blindfold::natural::Natural;
use blindfold::risk::{
    concentration, concentration_in_trillionths, score_balances, score_document, score_portfolio,
};
use blindfold::text::decimal_string;
use blindfold::{BlindFoldContract, Json, Member, RiskScore, Tier};

fn portfolio(balances: &[&str]) -> String {
    let holdings: Vec<String> =
        balances.iter().map(|b| format!("{{\"balance\":\"{}\"}}", b)).collect();
    format!("{{\"holdings\":[{}]}}", holdings.join(","))
}

fn rate(balances: &[&str]) -> RiskScore {
    score_portfolio(&portfolio(balances))
}

#[test]
fn test_calculate_risk_score() {
    let contract = BlindFoldContract::new("alice.near".to_string());
    let risk = contract.calculate_risk_score("{}".to_string());
    assert!(risk.score > 0 && risk.score <= 100);
}

#[test]
fn empty_object_is_rated_as_one_holding() {
    let contract = BlindFoldContract::new("alice.near".to_string());
    let risk = contract.calculate_risk_score("{}".to_string());
    assert_eq!(
        risk,
        RiskScore {
            score: 82,
            concentration: 10000,
            concentration_fraction: 0,
            diversification: "High concentration (0 assets)".to_string(),
            recommendation:
                "Urgent: Your portfolio is heavily concentrated. Diversify to reduce risk."
                    .to_string(),
        }
    );
}

#[test]
fn two_equal_holdings_give_index_5000() {
    let contract = BlindFoldContract::new("alice.near".to_string());
    let risk = contract
        .calculate_risk_score("{\"holdings\":[{\"balance\":\"50\"},{\"balance\":\"50\"}]}".to_string());
    assert_eq!(risk.concentration, 5000);
    assert_eq!(risk.score, 82);
    assert_eq!(risk.diversification, "High concentration (2 assets)");
}

#[test]
fn four_equal_holdings_sit_on_the_upper_threshold() {
    let risk = rate(&["25", "25", "25", "25"]);
    assert_eq!(risk.concentration, 2500);
    assert_eq!(risk.score, 82);
    assert_eq!(risk.diversification, "High concentration (4 assets)");
}

#[test]
fn five_equal_holdings_are_moderate() {
    let risk = rate(&["20", "20", "20", "20", "20"]);
    assert_eq!(
        risk,
        RiskScore {
            score: 55,
            concentration: 2000,
            concentration_fraction: 0,
            diversification: "Moderate concentration (5 assets)".to_string(),
            recommendation: "Consider rebalancing top holdings to reduce concentration risk."
                .to_string(),
        }
    );
}

#[test]
fn ten_equal_holdings_are_well_diversified() {
    let risk = rate(&["10", "10", "10", "10", "10", "10", "10", "10", "10", "10"]);
    assert_eq!(
        risk,
        RiskScore {
            score: 30,
            concentration: 1000,
            concentration_fraction: 0,
            diversification: "Well diversified (10 assets)".to_string(),
            recommendation:
                "Your portfolio shows healthy diversification. Maintain current allocation."
                    .to_string(),
        }
    );
}

#[test]
fn lower_threshold_belongs_to_the_moderate_tier() {
    let on_threshold = rate(&["4", "3", "3", "3", "3", "2", "2"]);
    assert_eq!(on_threshold.concentration, 1500);
    assert_eq!(on_threshold.score, 55);
    let below = rate(&["1", "1", "1", "1", "1", "1", "1"]);
    assert_eq!(below.concentration, 1428);
    assert_eq!(below.score, 30);
}

#[test]
fn upper_threshold_is_exact_where_shares_are_not() {
    let risk = rate(&["4", "3", "3", "1", "1"]);
    assert_eq!(risk.concentration, 2500);
    assert_eq!(risk.score, 82);
    let below = rate(&["1", "1", "1", "1", "1", "1"]);
    assert_eq!(below.concentration, 1666);
    assert_eq!(below.score, 55);
}

#[test]
fn index_is_rounded_down() {
    assert_eq!(rate(&["1", "2"]).concentration, 5555);
    assert_eq!(rate(&["1", "1", "1"]).concentration, 3333);
    assert_eq!(rate(&["7"]).concentration, 10000);
    assert_eq!(rate(&["99", "1"]).concentration, 9802);
}

#[test]
fn index_keeps_twelve_decimals() {
    let risk = rate(&["1", "2"]);
    assert_eq!((risk.concentration, risk.concentration_fraction), (5555, 555555555555));
    let risk = rate(&["1", "1", "1"]);
    assert_eq!((risk.concentration, risk.concentration_fraction), (3333, 333333333333));
    let risk = rate(&["1", "1", "1", "1", "1", "1", "1"]);
    assert_eq!((risk.concentration, risk.concentration_fraction), (1428, 571428571428));
    let risk = rate(&["50", "50"]);
    assert_eq!((risk.concentration, risk.concentration_fraction), (5000, 0));
    let risk = rate(&["3", "1"]);
    assert_eq!((risk.concentration, risk.concentration_fraction), (6250, 0));
    let risk = rate(&["1", "1", "1", "1", "1", "1", "1", "1"]);
    assert_eq!((risk.concentration, risk.concentration_fraction), (1250, 0));
    let risk = rate(&["1", "1", "1", "1", "1", "1", "1", "1", "1", "1", "1", "1", "1", "1", "1", "1"]);
    assert_eq!((risk.concentration, risk.concentration_fraction), (625, 0));
    let risk = rate(&["9", "1", "1", "1", "1", "1", "1", "1"]);
    assert_eq!((risk.concentration, risk.concentration_fraction), (3437, 500000000000));
    let balances: Vec<Decimal> =
        ["1", "2"].iter().map(|text| Decimal::parse(text).unwrap()).collect();
    assert_eq!(concentration_in_trillionths(&balances), 5_555_555_555_555_555);
    assert_eq!(concentration_in_trillionths(&Vec::new()), 10_000_000_000_000_000);
}

#[test]
fn index_does_not_depend_on_the_unit() {
    assert_eq!(rate(&["1", "2", "3"]).concentration, rate(&["1000", "2000", "3000"]).concentration);
    assert_eq!(rate(&["1", "2", "3"]).concentration, 3888);
}

#[test]
fn holdings_without_usable_balance_are_left_out() {
    let text = "{\"holdings\":[{\"balance\":\"50\"},{\"balance\":\"abc\"},{\"token\":\"x\"},\
                {\"balance\":50},{\"balance\":\"\"},{\"balance\":\"-5\"},7,{\"balance\":\"50\"}]}";
    let risk = score_portfolio(text);
    assert_eq!(risk.concentration, 5000);
    assert_eq!(risk.diversification, "High concentration (2 assets)");
}

#[test]
fn zero_total_is_rated_as_one_holding() {
    let risk = rate(&["0", "0"]);
    assert_eq!(risk.concentration, 10000);
    assert_eq!(risk.score, 82);
    assert_eq!(risk.diversification, "High concentration (2 assets)");
}

#[test]
fn zero_balances_count_as_assets_but_not_as_shares() {
    let risk = rate(&["0", "10", "10", "10", "10", "10", "10", "10"]);
    assert_eq!(risk.concentration, 1428);
    assert_eq!(risk.diversification, "Well diversified (8 assets)");
}

#[test]
fn unreadable_descriptions_are_rated_as_one_holding() {
    for text in [
        "",
        "not json",
        "{\"holdings\":",
        "[]",
        "null",
        "{\"holdings\":{}}",
        "{\"holdings\":\"50\"}",
        "{\"holdings\":[]}",
        "{\"Holdings\":[{\"balance\":\"1\"},{\"balance\":\"1\"}]}",
    ] {
        let risk = score_portfolio(text);
        assert_eq!(risk.score, 82);
        assert_eq!(risk.concentration, 10000);
        assert_eq!(risk.diversification, "High concentration (0 assets)");
    }
}

#[test]
fn document_is_read_through_the_parser() {
    let text = "{\"holdings\":[{\"balance\":\"1\"},{\"balance\":\"1\"},{\"balance\":\"2\"}]}";
    let risk = score_portfolio(text);
    assert_eq!(risk.concentration, 3750);
    assert_eq!(risk.diversification, "High concentration (3 assets)");
    assert_eq!(score_document(&None).concentration, 10000);
    assert_eq!(score_document(&None).diversification, "High concentration (0 assets)");
}

#[test]
fn members_are_found_among_others_and_at_any_depth_of_the_rest() {
    let text = "{\"owner\":{\"holdings\":[{\"balance\":\"9\"}]},\"as_of\":1700000000,\
                \"holdings\":[{\"token\":\"near\",\"balance\":\"3\",\"tags\":[\"a\",[1.5,null]]},\
                {\"balance\":\"1\",\"locked\":false}],\"zz\":[{\"balance\":\"7\"}]}";
    let risk = score_portfolio(text);
    assert_eq!(risk.concentration, 6250);
    assert_eq!(risk.diversification, "High concentration (2 assets)");
}

#[test]
fn last_of_a_repeated_key_counts() {
    let text = "{\"holdings\":[{\"balance\":\"1\"}],\
                \"holdings\":[{\"balance\":\"1\",\"balance\":\"3\"},{\"balance\":\"1\"}]}";
    let risk = score_portfolio(text);
    assert_eq!(risk.concentration, 6250);
    assert_eq!(risk.diversification, "High concentration (2 assets)");
}

#[test]
fn text_after_the_document_makes_it_unreadable() {
    let text = "{\"holdings\":[{\"balance\":\"1\"},{\"balance\":\"1\"}]} x";
    assert_eq!(score_portfolio(text).diversification, "High concentration (0 assets)");
    let text = "{\"holdings\":[{\"balance\":\"1\"},{\"balance\":\"1\"}]}  \n";
    assert_eq!(score_portfolio(text).diversification, "High concentration (2 assets)");
}

#[test]
fn document_can_be_written_by_hand() {
    let holding = |balance: &str| {
        Json::Object(vec![
            Member { key: "token".to_string(), value: Json::Text("near".to_string()) },
            Member { key: "balance".to_string(), value: Json::Text(balance.to_string()) },
        ])
    };
    let doc = Some(Json::Object(vec![
        Member { key: "owner".to_string(), value: Json::Null },
        Member {
            key: "holdings".to_string(),
            value: Json::List(vec![holding("30"), Json::Number, holding("10"), Json::Bool(true)]),
        },
    ]));
    let risk = score_document(&doc);
    assert_eq!(risk.concentration, 6250);
    assert_eq!(risk.diversification, "High concentration (2 assets)");
}

#[test]
fn json_values_are_taken_apart() {
    let doc = Json::Object(vec![
        Member {
            key: "b".to_string(),
            value: Json::List(vec![Json::Number, Json::Text("x".to_string()), Json::Null]),
        },
        Member { key: "a".to_string(), value: Json::Text("first".to_string()) },
        Member { key: "a".to_string(), value: Json::Text("second".to_string()) },
    ]);
    assert_eq!(doc.get("a"), Some(&Json::Text("first".to_string())));
    assert_eq!(doc.get("missing"), None);
    assert_eq!(doc.get(""), None);
    assert_eq!(doc.as_list(), None);
    assert_eq!(doc.as_text(), None);
    let items = doc.get("b").unwrap().as_list().unwrap();
    assert_eq!(items.len(), 3);
    assert_eq!(items[0], Json::Number);
    assert_eq!(items[1].as_text(), Some(&"x".to_string()));
    assert_eq!(items[1].get("a"), None);
    assert_eq!(items[2].as_list(), None);
    assert_eq!(Json::Bool(true).as_text(), None);
}

#[test]
fn tiers_have_their_scores() {
    assert_eq!(Tier::of_index(0), Tier::Diversified);
    assert_eq!(Tier::of_index(1499), Tier::Diversified);
    assert_eq!(Tier::of_index(1500), Tier::Moderate);
    assert_eq!(Tier::of_index(2499), Tier::Moderate);
    assert_eq!(Tier::of_index(2500), Tier::Concentrated);
    assert_eq!(Tier::of_index(10000), Tier::Concentrated);
    assert_eq!(Tier::Diversified.risk_score(), 30);
    assert_eq!(Tier::Moderate.risk_score(), 55);
    assert_eq!(Tier::Concentrated.risk_score(), 82);
    assert_eq!(Tier::Moderate.name(), "Moderate concentration");
}

#[test]
fn numbers_are_written_in_decimal() {
    assert_eq!(decimal_string(0), "0");
    assert_eq!(decimal_string(7), "7");
    assert_eq!(decimal_string(10), "10");
    assert_eq!(decimal_string(1234567890), "1234567890");
    assert_eq!(decimal_string(u64::MAX), "18446744073709551615");
}

fn amount(text: &str) -> Option<(u64, usize)> {
    let decimal = Decimal::parse(text)?;
    for mantissa in 0..100_000u64 {
        if decimal.mantissa.same_as(&Natural::from_u64(mantissa)) {
            return Some((mantissa, decimal.scale));
        }
    }
    panic!("mantissa of {} is out of the range searched", text);
}

#[test]
fn amounts_are_digits_with_at_most_one_point() {
    assert_eq!(amount("0"), Some((0, 0)));
    assert_eq!(amount("50"), Some((50, 0)));
    assert_eq!(amount("007"), Some((7, 0)));
    assert_eq!(amount("12.5"), Some((125, 1)));
    assert_eq!(amount("12.50"), Some((1250, 2)));
    assert_eq!(amount("0.001"), Some((1, 3)));
    assert_eq!(amount("5."), Some((5, 0)));
    assert_eq!(amount(".5"), Some((5, 1)));
    assert_eq!(amount("0.0"), Some((0, 1)));
    assert_eq!(amount(""), None);
    assert_eq!(amount("."), None);
    assert_eq!(amount("1.2.3"), None);
    assert_eq!(amount("1..2"), None);
    assert_eq!(amount("-5"), None);
    assert_eq!(amount("-0"), None);
    assert_eq!(amount("5 "), None);
    assert_eq!(amount(" 5"), None);
    assert_eq!(amount("1,5"), None);
    assert_eq!(amount("inf"), None);
    assert_eq!(amount("NaN"), None);
    assert_eq!(amount("0x10"), None);
    assert_eq!(amount("٣"), None);
    assert_eq!(amount("１２"), None);
}

#[test]
fn amounts_may_begin_with_a_plus() {
    assert_eq!(amount("+5"), Some((5, 0)));
    assert_eq!(amount("+0.25"), Some((25, 2)));
    assert_eq!(amount("+.5"), Some((5, 1)));
    assert_eq!(amount("+"), None);
    assert_eq!(amount("++5"), None);
    assert_eq!(amount("+-5"), None);
    assert_eq!(amount("5+"), None);
    assert_eq!(amount("+."), None);
}

#[test]
fn amounts_may_end_in_an_exponent() {
    assert_eq!(amount("1e0"), Some((1, 0)));
    assert_eq!(amount("1e3"), Some((1000, 0)));
    assert_eq!(amount("1E3"), Some((1000, 0)));
    assert_eq!(amount("2.5E3"), Some((2500, 0)));
    assert_eq!(amount("2.5e+3"), Some((2500, 0)));
    assert_eq!(amount("2.5e1"), Some((25, 0)));
    assert_eq!(amount("2.50e1"), Some((250, 1)));
    assert_eq!(amount("2.5e0"), Some((25, 1)));
    assert_eq!(amount("2.5e-0"), Some((25, 1)));
    assert_eq!(amount("2.5e-3"), Some((25, 4)));
    assert_eq!(amount("25e-1"), Some((25, 1)));
    assert_eq!(amount("+1.5e+2"), Some((150, 0)));
    assert_eq!(amount("5.e2"), Some((500, 0)));
    assert_eq!(amount(".5e2"), Some((50, 0)));
    assert_eq!(amount("0e9"), Some((0, 0)));
    assert_eq!(amount("1e004"), Some((10000, 0)));
    assert_eq!(amount("1e"), None);
    assert_eq!(amount("1e+"), None);
    assert_eq!(amount("1e-"), None);
    assert_eq!(amount("e5"), None);
    assert_eq!(amount(".e5"), None);
    assert_eq!(amount("1e5e2"), None);
    assert_eq!(amount("1e5.0"), None);
    assert_eq!(amount("1e 5"), None);
    assert_eq!(amount("1e++5"), None);
    assert_eq!(amount("1e5 "), None);
    assert_eq!(amount("1x5"), None);
}

#[test]
fn exponents_are_bounded() {
    let large = Decimal::parse("1e400").unwrap();
    assert_eq!(large.scale, 0);
    assert!(large.mantissa.same_as(&Natural::from_u64(1).times_pow10(400)));
    let small = Decimal::parse("25e-400").unwrap();
    assert_eq!(small.scale, 400);
    assert!(small.mantissa.same_as(&Natural::from_u64(25)));
    let small = Decimal::parse("0.25e-400").unwrap();
    assert_eq!(small.scale, 402);
    assert!(Decimal::parse("1e0000000000000000000000000400").is_some());
    assert!(Decimal::parse("1e401").is_none());
    assert!(Decimal::parse("1e-401").is_none());
    assert!(Decimal::parse("0e401").is_none());
    assert!(Decimal::parse("1e18446744073709551616").is_none());
    assert!(Decimal::parse("1e-99999999999999999999999999999999").is_none());
}

#[test]
fn balances_with_exponents_are_rated() {
    let risk = rate(&["1e0", "1e0"]);
    assert_eq!((risk.concentration, risk.score), (5000, 82));
    assert_eq!(risk.diversification, "High concentration (2 assets)");
    let risk = rate(&["1e0", "1e0", "1e0", "1e0", "1e0", "1e0", "1e0", "1e0"]);
    assert_eq!((risk.concentration, risk.score), (1250, 30));
    assert_eq!(risk.diversification, "Well diversified (8 assets)");
    let risk = rate(&["2.5E3", "+2500", "25e2", "0.25e4"]);
    assert_eq!((risk.concentration, risk.score), (2500, 82));
    let risk = rate(&["3e-3", "0.001"]);
    assert_eq!((risk.concentration, risk.score), (6250, 82));
    let risk = rate(&["1e24", "1000000000000000000000000"]);
    assert_eq!(risk.concentration, 5000);
    let risk = rate(&["1e400", "1e400", "1e400", "1e400", "1e400"]);
    assert_eq!((risk.concentration, risk.score), (2000, 55));
    let risk = rate(&["5e-400", "5e-400", "1e-399", "10e-400", "0.1e-398"]);
    assert_eq!((risk.concentration, risk.concentration_fraction, risk.score), (2187, 500000000000, 55));
    let risk = rate(&["1e400", "1e-400"]);
    assert_eq!((risk.concentration, risk.score), (9999, 82));
    let risk = rate(&["50", "1e401", "50", "1e-401", "-1e0"]);
    assert_eq!(risk.concentration, 5000);
    assert_eq!(risk.diversification, "High concentration (2 assets)");
}

#[test]
fn amounts_of_any_length_are_read() {
    let long = Decimal::parse("18446744073709551616.000000000000000000000001").unwrap();
    assert_eq!(long.scale, 24);
    let two_to_64 = Natural::from_u64(u64::MAX).plus(&Natural::from_u64(1));
    let expected = two_to_64.times_pow10(24).plus(&Natural::from_u64(1));
    assert!(long.mantissa.same_as(&expected));
    assert!(!long.mantissa.same_as(&two_to_64.times_pow10(24)));
}

#[test]
fn decimal_balances_are_rated_exactly() {
    assert_eq!(rate(&["12.5", "12.5"]).concentration, 5000);
    assert_eq!(rate(&["0.5", "0.25", "0.25"]).concentration, 3750);
    assert_eq!(rate(&["1.5", "1", "0.5"]).concentration, 3888);
    assert_eq!(rate(&["0.4", "0.3", ".3", "0.10", "0.1"]).concentration, 2500);
    assert_eq!(rate(&["0.4", "0.3", ".3", "0.10", "0.1"]).score, 82);
    assert_eq!(rate(&["0.4", "0.3", "0.3", "0.1", "0.1000001"]).score, 55);
    assert_eq!(rate(&["2.5", "2.5", "2.5", "2.5"]).concentration, 2500);
    assert_eq!(rate(&["0.000", "0.0"]).concentration, 10000);
    assert_eq!(rate(&["0.000", "0.0"]).diversification, "High concentration (2 assets)");
}

#[test]
fn balances_beyond_machine_words_are_rated_exactly() {
    let yocto = "1000000000000000000000000";
    assert_eq!(rate(&[yocto, yocto]).concentration, 5000);
    let two_to_128 = "340282366920938463463374607431768211456";
    let risk = rate(&[two_to_128, two_to_128, two_to_128, two_to_128]);
    assert_eq!(risk.concentration, 2500);
    assert_eq!(risk.score, 82);
    let a_little_more = "340282366920938463463374607431768211457";
    let risk = rate(&[two_to_128, two_to_128, two_to_128, two_to_128, "1"]);
    assert_eq!(risk.concentration, 2499);
    assert_eq!(risk.score, 55);
    let risk = rate(&[a_little_more, two_to_128, two_to_128, two_to_128]);
    assert_eq!(risk.concentration, 2500);
    assert_eq!(rate(&[yocto, "0.000000000000000000000001"]).concentration, 9999);
    assert_eq!(rate(&[yocto, "0.000000000000000000000001"]).score, 82);
}

#[test]
fn balances_are_rated_without_a_document() {
    let balances: Vec<Decimal> =
        ["3", "1"].iter().map(|text| Decimal::parse(text).unwrap()).collect();
    assert_eq!(concentration(&balances), 6250);
    assert_eq!(score_balances(&balances).diversification, "High concentration (2 assets)");
    assert_eq!(concentration(&Vec::new()), 10000);
    let by_hand = vec![
        Decimal { mantissa: Natural::from_u64(5), scale: 1 },
        Decimal { mantissa: Natural::from_u64(50), scale: 2 },
        Decimal { mantissa: Natural::from_u64(1), scale: 0 },
    ];
    assert_eq!(concentration(&by_hand), 3750);
}

#[test]
fn naturals_add_multiply_and_compare() {
    let a = Natural::from_u64(999_999_999);
    let b = Natural::from_u64(1);
    assert!(a.plus(&b).same_as(&Natural::from_u64(1_000_000_000)));
    assert!(a.times(&a).same_as(&Natural::from_u64(999_999_998_000_000_001)));
    assert!(a.times(&Natural::zero()).is_zero());
    assert!(Natural::zero().times(&a).is_zero());
    assert!(!a.is_zero());
    assert!(Natural::zero().plus(&Natural::zero()).is_zero());
    assert!(b.at_most(&a));
    assert!(!a.at_most(&b));
    assert!(a.at_most(&a));
    assert!(Natural::from_u64(99).at_most(&Natural::from_u64(100)));
    assert!(!Natural::from_u64(100).at_most(&Natural::from_u64(99)));
    assert!(!Natural::from_u64(21).at_most(&Natural::from_u64(12)));
    assert!(Natural::from_u64(12).at_most(&Natural::from_u64(21)));
    assert!(Natural::from_u64(7).times_pow10(3).same_as(&Natural::from_u64(7000)));
    assert!(Natural::from_u64(7).times_pow10(0).same_as(&Natural::from_u64(7)));
    let big = Natural::from_u64(u64::MAX);
    let square = big.times(&big);
    let expected = Natural::from_u64(u64::MAX - 1)
        .times(&Natural::from_u64(u64::MAX))
        .plus(&Natural::from_u64(u64::MAX));
    assert!(square.same_as(&expected));
    assert!(!square.same_as(&expected.plus(&b)));
}

#[test]
fn naturals_are_made_of_decimal_digits() {
    let n = Natural::from_digits(vec![1, 2, 3, 0, 0]).unwrap();
    assert!(n.same_as(&Natural::from_u64(321)));
    assert!(Natural::from_digits(Vec::new()).unwrap().is_zero());
    assert!(Natural::from_digits(vec![0, 0]).unwrap().is_zero());
    assert!(Natural::from_digits(vec![1, 10]).is_none());
    assert!(Natural::from_digits(vec![255]).is_none());
}
