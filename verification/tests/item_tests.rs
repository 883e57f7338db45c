use sm_api::datetime::UtcDateTime;
use sm_api::error::ExtractError;
use sm_api::extract::SteamMarketItemPrice;
use sm_api::item::{market_url, SteamMarketItem};
use sm_api::price::Price;

fn obs(year: i32, month: u8, day: u8, hour: u8, mantissa: u64, scale: usize) -> SteamMarketItemPrice {
    SteamMarketItemPrice {
        date: UtcDateTime { year, month, day, hour },
        price: Price { mantissa, scale },
    }
}

#[test]
fn url_interpolates_id_and_verbatim_name() {
    assert_eq!(
        market_url(730, "AK-47 | Redline (Field-Tested)"),
        "https://steamcommunity.com/market/listings/730/AK-47 | Redline (Field-Tested)"
    );
    assert_eq!(market_url(0, "x"), "https://steamcommunity.com/market/listings/0/x");
    assert_eq!(market_url(65535, ""), "https://steamcommunity.com/market/listings/65535/");
}

#[test]
fn item_from_page_source() {
    let page = r#"["Jan 5 2021 14:",9.99,"10"]["Jan 6 2021 10:",12.00,"5"]"#;
    let item = SteamMarketItem::new(730, "Some Skin", page).unwrap();
    assert_eq!(item.game_id, 730);
    assert_eq!(item.name, "Some Skin");
    assert_eq!(item.market_prices, vec![obs(2021, 1, 5, 14, 999, 2), obs(2021, 1, 6, 10, 1200, 2)]);
    assert_eq!(item.get_current_price().unwrap(), Price { mantissa: 1200, scale: 2 });
}

#[test]
fn item_from_empty_page_is_an_error() {
    let r = SteamMarketItem::new(730, "Some Skin", "nothing here");
    assert!(matches!(r, Err(ExtractError::EmptyHistory)));
}

#[test]
fn latest_price_is_last_regardless_of_length() {
    let two = SteamMarketItem {
        game_id: 1,
        name: String::from("a"),
        market_prices: vec![obs(2021, 1, 1, 0, 100, 1), obs(2021, 1, 2, 0, 125, 1)],
    };
    let p = two.get_current_price().unwrap();
    assert_eq!(p, Price { mantissa: 125, scale: 1 });
    assert_eq!(p.mantissa as f64 / 10f64.powi(p.scale as i32), 12.5);

    let four = SteamMarketItem {
        game_id: 1,
        name: String::from("a"),
        market_prices: vec![
            obs(2020, 12, 30, 0, 7, 0),
            obs(2020, 12, 31, 0, 9, 0),
            obs(2021, 1, 1, 0, 100, 1),
            obs(2021, 1, 2, 0, 125, 1),
        ],
    };
    assert_eq!(four.get_current_price().unwrap(), Price { mantissa: 125, scale: 1 });
}

#[test]
fn current_price_of_empty_history_is_an_error() {
    let empty = SteamMarketItem { game_id: 1, name: String::from("a"), market_prices: vec![] };
    assert!(matches!(empty.get_current_price(), Err(ExtractError::EmptyHistory)));
}

#[test]
fn all_prices_renders_timestamps() {
    let page = r#"["Jan 5 2021 14:",9.99,"10"]["Jan 6 2021 10:",12.00,"5"]"#;
    let item = SteamMarketItem::new(730, "Some Skin", page).unwrap();
    let all = item.get_all_prices().unwrap();
    assert_eq!(all.len(), 2);
    assert_eq!(all[0].0, "2021-01-05 14:00:00 UTC");
    assert_eq!(all[0].1, Price { mantissa: 999, scale: 2 });
    assert_eq!(all[1].0, "2021-01-06 10:00:00 UTC");
    assert_eq!(all[1].1, Price { mantissa: 1200, scale: 2 });
}
