use picon::config::{AppDirs, Config, UI};
use picon::stats::{Crypto, GreedFearData};
use picon::tr::tr;
use picon::util::{
    fixed_to_string, format_number_with_commas, pretty_precent, pretty_price, short_time,
    time_from_utc_seconds, timelapse,
};

#[test]
fn pretty_price_examples() {
    assert_eq!(pretty_price(Some(330)), "0.000003");
    assert_eq!(pretty_price(Some(1_502_340_000_000)), "15023");
}

#[test]
fn pretty_price_bands() {
    assert_eq!(pretty_price(Some(5_000)), "0.00005");
    assert_eq!(pretty_price(Some(50_000)), "0.0005");
    assert_eq!(pretty_price(Some(500_000)), "0.005");
    assert_eq!(pretty_price(Some(123_456_789)), "1.23");
    assert_eq!(pretty_price(Some(1_000_000_000_000)), "10000.00");
    assert_eq!(pretty_price(Some(-1_500_000)), "-0.015000");
    assert_eq!(pretty_price(None), "NaN");
}

#[test]
fn fixed_rounds_half_to_even() {
    assert_eq!(fixed_to_string(250_000_000, 0), "2");
    assert_eq!(fixed_to_string(350_000_000, 0), "4");
    assert_eq!(fixed_to_string(-1, 6), "-0.000000");
    assert_eq!(fixed_to_string(i64::MIN, 8), "-92233720368.54775808");
}

#[test]
fn pretty_precent_examples() {
    assert_eq!(pretty_precent(Some(12_345_678_901)), "123%");
    assert_eq!(pretty_precent(Some(-314_159_265)), "-3.14%");
    assert_eq!(pretty_precent(None), "NaN%");
}

#[test]
fn short_time_units() {
    assert_eq!(short_time(30), "30s");
    assert_eq!(short_time(60), "60s");
    assert_eq!(short_time(61), "1m");
    assert_eq!(short_time(3601), "1h");
    assert_eq!(short_time(86401), "1d");
    assert_eq!(short_time(3 * 86400 + 5), "3d");
    assert_eq!(short_time(-7), "-7s");
}

#[test]
fn timelapse_saturates() {
    assert_eq!(timelapse(100, 40), 60);
    assert_eq!(timelapse(40, 100), -60);
    assert_eq!(timelapse(i64::MAX, -1), i64::MAX);
    assert_eq!(timelapse(i64::MIN, 1), i64::MIN);
}

#[test]
fn commas_in_integer_part_only() {
    assert_eq!(format_number_with_commas(""), "");
    assert_eq!(format_number_with_commas("1"), "1");
    assert_eq!(format_number_with_commas("123"), "123");
    assert_eq!(format_number_with_commas("1234"), "1,234");
    assert_eq!(format_number_with_commas("1234567"), "1,234,567");
    assert_eq!(format_number_with_commas("1234567.891"), "1,234,567.891");
    assert_eq!(format_number_with_commas("123456.5"), "123,456.5");
    assert_eq!(format_number_with_commas(".5"), ".5");
}

#[test]
fn utc_minutes() {
    assert_eq!(time_from_utc_seconds(0), "1970-01-01 00:00");
    assert_eq!(time_from_utc_seconds(1_700_000_000), "2023-11-14 22:13");
}

#[test]
fn tr_gives_english_only_when_not_chinese() {
    assert_eq!(tr(true, "排名"), "排名");
    assert_eq!(tr(false, "排名"), "Rank");
    assert_eq!(tr(false, "密码错误"), "Wrong password");
    assert_eq!(tr(false, "unknown"), "unknown");
}

#[test]
fn app_dirs_under_data() {
    let d = AppDirs::new(Some("xyz.heng30.picon"), true).unwrap();
    assert_eq!(d.config_dir, "/data/data/xyz.heng30.picon/config");
    assert_eq!(d.data_dir, "/data/data/xyz.heng30.picon/data");
}

#[test]
fn config_defaults() {
    assert!(UI::default().is_cn);
    let c = Config::default();
    assert!(c.ui.is_cn);
    assert!(c.cache_dir.is_empty());
}

#[test]
fn crypto_items_with_greed_fear() {
    let mut c = Crypto::new();
    c.greed_fear.data = vec![
        GreedFearData { value: "55".to_string(), timestamp: "1".to_string() },
        GreedFearData { value: "40".to_string(), timestamp: "0".to_string() },
    ];
    c.global.total_market_cap_usd = 1_234_567_890;
    c.global.total_24h_volume_usd = 45_000;
    c.global.bitcoin_percentage_of_market_cap = Some(4_912_000_000);
    c.gas_fee.bitcoin = (3, 5, 8);
    c.gas_fee.ethereum = 12_600_000_000;
    let items = c.into_items(false);
    assert_eq!(items.len(), 6);
    assert_eq!(items[0].value, "55/40");
    assert!(items[0].is_up);
    assert_eq!(items[1].value, "1,234,567,890");
    assert_eq!(items[2].value, "45,000");
    assert_eq!(items[3].value, "49.12%");
    assert!(!items[3].is_up);
    assert_eq!(items[4].value, "3/5/8 vSat");
    assert_eq!(items[5].value, "13 GWei");
    assert_eq!(items[1].name, "加密总市值(USD)");
}

#[test]
fn crypto_items_without_greed_fear() {
    let mut c = Crypto::new();
    c.greed_fear.data = vec![GreedFearData { value: "x".to_string(), timestamp: "1".to_string() }];
    let items = c.into_items(true);
    assert_eq!(items.len(), 5);
    assert_eq!(items[0].value, "0");
    assert_eq!(items[3].value, "0/0/0 vSat");
    assert_eq!(items[4].value, "0 GWei");
}

#[test]
fn greed_fear_that_is_not_a_number_is_not_greed() {
    let mut c = Crypto::new();
    c.greed_fear.data = vec![
        GreedFearData { value: "high".to_string(), timestamp: "1".to_string() },
        GreedFearData { value: "+60".to_string(), timestamp: "0".to_string() },
    ];
    let items = c.into_items(true);
    assert!(!items[0].is_up);
    c.greed_fear.data.swap(0, 1);
    assert!(c.into_items(true)[0].is_up);
}

#[test]
fn greed_fear_reading_bounds() {
    let mut c = Crypto::new();
    let reading = |v: &str| GreedFearData { value: v.to_string(), timestamp: "0".to_string() };
    c.greed_fear.data = vec![reading("4294967295"), reading("0")];
    assert!(c.into_items(true)[0].is_up);
    c.greed_fear.data = vec![reading("4294967296"), reading("0")];
    assert!(!c.into_items(true)[0].is_up);
    c.greed_fear.data = vec![reading("+"), reading("0")];
    assert!(!c.into_items(true)[0].is_up);
    c.greed_fear.data = vec![reading("49"), reading("0")];
    assert!(!c.into_items(true)[0].is_up);
    c.greed_fear.data = vec![reading("050"), reading("0")];
    assert!(c.into_items(true)[0].is_up);
}
