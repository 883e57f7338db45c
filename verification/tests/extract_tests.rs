use sm_api::datetime::UtcDateTime;
use sm_api::error::ExtractError;
use sm_api::extract::{extract, SteamMarketItemPrice};
use sm_api::price::Price;

fn obs(year: i32, month: u8, day: u8, hour: u8, mantissa: u64, scale: usize) -> SteamMarketItemPrice {
    SteamMarketItemPrice {
        date: UtcDateTime { year, month, day, hour },
        price: Price { mantissa, scale },
    }
}

#[test]
fn one_observation_per_tuple_in_order() {
    let page = r#"var line1=[["Jan 5 2021 14: +0",9.99,"10"],["Jan 6 2021 10: +0",12.00,"5"]];"#;
    let h = extract(page).unwrap();
    assert_eq!(h.len(), 2);
    assert_eq!(h[0], obs(2021, 1, 5, 14, 999, 2));
    assert_eq!(h[1], obs(2021, 1, 6, 10, 1200, 2));
}

#[test]
fn end_to_end_two_tuples() {
    let page = r#"["Jan 5 2021 14:",9.99,"10"]["Jan 6 2021 10:",12.00,"5"]"#;
    let h = extract(page).unwrap();
    assert_eq!(h, vec![obs(2021, 1, 5, 14, 999, 2), obs(2021, 1, 6, 10, 1200, 2)]);
    let last = h.last().unwrap();
    let current = last.price.mantissa as f64 / 10f64.powi(last.price.scale as i32);
    assert_eq!(current, 12.00);
    let paid = 10.00f64;
    let profit = current - paid;
    assert_eq!(profit, 2.00);
    assert_eq!(profit / paid * 100.0, 20.0);
}

#[test]
fn zero_tuples_is_empty_history_not_empty_success() {
    let page = "<html><body>no embedded data here</body></html>";
    assert!(matches!(extract(page), Err(ExtractError::EmptyHistory)));
    assert!(matches!(extract(""), Err(ExtractError::EmptyHistory)));
}

#[test]
fn malformed_price_fails_whole_extraction() {
    let page = r#"["Jan 5 2021 14:",9.99,"10"]["Jan 6 2021 10:",12.00.5,"5"]["Jan 7 2021 9:",1.50,"2"]"#;
    match extract(page) {
        Err(ExtractError::BadPrice { raw }) => assert_eq!(raw, "12.00.5"),
        _ => panic!("expected a price parse failure, no partial result"),
    }
}

#[test]
fn malformed_date_fails_whole_extraction() {
    let page = r#"["Jan 5 2021 14:",9.99,"10"]["Abc 6 2021 10:",12.00,"5"]"#;
    match extract(page) {
        Err(ExtractError::BadDate { raw }) => assert_eq!(raw, "Abc 6 2021 10:"),
        _ => panic!("expected a date normalization failure"),
    }
}

#[test]
fn price_is_parsed_exactly() {
    let h = extract(r#"["Jan 5 2021 14:",271.44,"1"]"#).unwrap();
    assert_eq!(h[0].price, Price { mantissa: 27144, scale: 2 });
    let h = extract(r#"["Jan 5 2021 14:",5,"1"]"#).unwrap();
    assert_eq!(h[0].price, Price { mantissa: 5, scale: 0 });
    let h = extract(r#"["Jan 5 2021 14:",0.031,"1"]"#).unwrap();
    assert_eq!(h[0].price, Price { mantissa: 31, scale: 3 });
    let h = extract(r#"["Jan 5 2021 14:",007.5,"1"]"#).unwrap();
    assert_eq!(h[0].price, Price { mantissa: 75, scale: 1 });
}

#[test]
fn price_with_too_many_digits_fails() {
    let page = r#"["Jan 5 2021 14:",99999999999999999999999,"1"]"#;
    match extract(page) {
        Err(ExtractError::BadPrice { raw }) => assert_eq!(raw, "99999999999999999999999"),
        _ => panic!("expected a price parse failure"),
    }
}

#[test]
fn lone_dot_price_fails() {
    let page = r#"["Jan 5 2021 14:",.,"1"]"#;
    assert!(matches!(extract(page), Err(ExtractError::BadPrice { .. })));
}

#[test]
fn incomplete_tuples_do_not_match() {
    assert!(matches!(extract(r#"["Jan 5 2021 14:",9.99]"#), Err(ExtractError::EmptyHistory)));
    assert!(matches!(extract(r#"["Jan 5 2021 14:"]"#), Err(ExtractError::EmptyHistory)));
    assert!(matches!(extract(r#"[9.99,"10"]"#), Err(ExtractError::EmptyHistory)));
}

#[test]
fn surrounding_noise_is_skipped() {
    let page = r#"{"prices":[["Oct 10 2024 1: +0",0.03,"160"]],"ok":true}"#;
    let h = extract(page).unwrap();
    assert_eq!(h, vec![obs(2024, 10, 10, 1, 3, 2)]);
}

#[test]
fn observation_from_date_string() {
    let o = SteamMarketItemPrice::new("Jan 5 2021 14:", Price { mantissa: 999, scale: 2 }).unwrap();
    assert_eq!(o, obs(2021, 1, 5, 14, 999, 2));
    let bad = SteamMarketItemPrice::new("Abc 5 2021 14:", Price { mantissa: 999, scale: 2 });
    assert!(matches!(bad, Err(ExtractError::BadDate { .. })));
}
