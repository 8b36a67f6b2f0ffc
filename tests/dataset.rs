use picon::app::{App, ChannelInnerItem, ChannelItem, CurrentPanel, MsgType};
use picon::latest::{
    init, reversed, sort_by_key, sort_items, update_addition_info, update_marker_symbols, Latest,
    LatestDataItem, LatestDataItemQuote, LatestDataItemQuoteUSD, LatestStatus, Setting, SortKey,
};
use picon::stats::{from_results, Crypto, Market, Stats};

fn item(id: u64, symbol: &str, rank: u32, price: Option<i64>, h24: Option<i64>, d7: Option<i64>) -> LatestDataItem {
    LatestDataItem {
        id,
        symbol: symbol.to_string(),
        rank,
        quote: LatestDataItemQuote {
            usd: LatestDataItemQuoteUSD { price, percent_change_24h: h24, percent_change_7d: d7 },
        },
    }
}

fn simple(rank: u32, symbol: &str) -> LatestDataItem {
    item(rank as u64, symbol, rank, Some(0), Some(0), Some(0))
}

fn symbols(data: &[LatestDataItem]) -> Vec<String> {
    data.iter().map(|v| v.symbol.clone()).collect()
}

fn snapshot(data: Vec<LatestDataItem>, error: Option<&str>) -> Latest {
    let mut l = Latest::new();
    l.status = LatestStatus { timestamp: "2024-01-01T00:00:00Z".to_string(), error_message: error.map(|e| e.to_string()) };
    l.data = data;
    l
}

#[test]
fn marker_then_rank_then_toggle() {
    let mut app = App::new(String::new());
    app.latest.data = vec![simple(2, "ETH"), simple(1, "BTC")];
    update_marker_symbols(&mut app, "ETH");
    sort_by_key(&mut app, SortKey::Marker, false);
    assert_eq!(symbols(&app.latest.data), vec!["ETH", "BTC"]);
    sort_by_key(&mut app, SortKey::Rank, true);
    assert_eq!(symbols(&app.latest.data), vec!["BTC", "ETH"]);
    sort_by_key(&mut app, SortKey::Rank, true);
    assert_eq!(symbols(&app.latest.data), vec!["ETH", "BTC"]);
}

#[test]
fn toggle_twice_restores_order_for_every_key() {
    let keys = [SortKey::Marker, SortKey::Rank, SortKey::Symbol, SortKey::Price, SortKey::H24, SortKey::D7];
    for key in keys {
        let mut app = App::new(String::new());
        app.latest.data = vec![
            item(1, "eth", 2, Some(300), Some(-5), Some(7)),
            item(2, "BTC", 1, Some(9000), Some(3), None),
            item(3, "Ada", 3, None, None, Some(-1)),
        ];
        update_marker_symbols(&mut app, "Ada");
        sort_by_key(&mut app, key, false);
        let first = symbols(&app.latest.data);
        sort_by_key(&mut app, key, true);
        let mut rev = first.clone();
        rev.reverse();
        assert_eq!(symbols(&app.latest.data), rev);
        sort_by_key(&mut app, key, true);
        assert_eq!(symbols(&app.latest.data), first);
        assert_eq!(app.latest_setting.sort_key, key);
    }
}

#[test]
fn marker_sort_is_idempotent() {
    let mut app = App::new(String::new());
    app.latest.data = vec![simple(5, "E"), simple(3, "C"), simple(4, "D"), simple(1, "A"), simple(2, "B")];
    update_marker_symbols(&mut app, "D");
    update_marker_symbols(&mut app, "B");
    sort_by_key(&mut app, SortKey::Marker, false);
    let once = symbols(&app.latest.data);
    assert_eq!(once, vec!["B", "D", "A", "C", "E"]);
    sort_by_key(&mut app, SortKey::Marker, false);
    assert_eq!(symbols(&app.latest.data), once);
}

#[test]
fn symbol_sort_ignores_case_and_is_stable() {
    let setting = Setting::new();
    let data = vec![simple(1, "b"), simple(2, "A"), simple(3, "B"), simple(4, "a")];
    let sorted = sort_items(data, SortKey::Symbol, &setting);
    assert_eq!(symbols(&sorted), vec!["A", "a", "b", "B"]);
}

#[test]
fn figures_that_are_not_numbers_sort_first() {
    let setting = Setting::new();
    let data = vec![
        item(1, "X", 1, Some(5), Some(5), Some(5)),
        item(2, "Y", 2, None, Some(-3), None),
        item(3, "Z", 3, Some(-2), None, Some(1)),
    ];
    let by_price = sort_items(data.clone(), SortKey::Price, &setting);
    assert_eq!(symbols(&by_price), vec!["Y", "Z", "X"]);
    let by_h24 = sort_items(data.clone(), SortKey::H24, &setting);
    assert_eq!(symbols(&by_h24), vec!["Z", "Y", "X"]);
    let by_d7 = sort_items(data, SortKey::D7, &setting);
    assert_eq!(symbols(&by_d7), vec!["Y", "Z", "X"]);
}

#[test]
fn rank_sort_keeps_equal_ranks_in_order() {
    let setting = Setting::new();
    let data = vec![simple(2, "P"), simple(1, "Q"), simple(2, "R"), simple(1, "S")];
    let sorted = sort_items(data, SortKey::Rank, &setting);
    assert_eq!(symbols(&sorted), vec!["Q", "S", "P", "R"]);
}

#[test]
fn reversed_turns_the_list_around() {
    let r = reversed(vec![simple(1, "A"), simple(2, "B"), simple(3, "C")]);
    assert_eq!(symbols(&r), vec!["C", "B", "A"]);
    assert!(reversed(vec![]).is_empty());
}

#[test]
fn sorting_an_empty_list() {
    let mut app = App::new(String::new());
    sort_by_key(&mut app, SortKey::Price, false);
    assert!(app.latest.data.is_empty());
    assert_eq!(app.latest_setting.sort_key, SortKey::Price);
}

#[test]
fn addition_info_counts_non_negative_changes() {
    let mut app = App::new(String::new());
    app.latest.data = vec![
        item(1, "A", 1, Some(1), Some(0), Some(-1)),
        item(2, "B", 2, Some(1), Some(-1), Some(2)),
        item(3, "C", 3, Some(1), None, Some(0)),
        item(4, "D", 4, Some(1), Some(7), None),
    ];
    update_addition_info(&mut app, 1_234_567);
    assert_eq!(app.latest.addition_info.h24_up_count, 2);
    assert_eq!(app.latest.addition_info.d7_up_count, 2);
    assert_eq!(app.latest.addition_info.timestamp, 1_234_567);
}

#[test]
fn error_snapshot_leaves_dataset_unchanged() {
    let mut app = App::new(String::new());
    app.latest.data = vec![simple(1, "BTC"), simple(2, "ETH")];
    assert!(app.request_refresh(CurrentPanel::Latest));
    let snap = snapshot(vec![simple(9, "DOGE")], Some("rate limited"));
    app.update_data(ChannelItem::Item(ChannelInnerItem::Latest(snap)), 1_700_000_000);
    assert_eq!(symbols(&app.latest.data), vec!["BTC", "ETH"]);
    assert_eq!(app.msg_spec.msg, "rate limited");
    assert_eq!(app.msg_spec.timestamp, 1_700_000_000);
    assert_eq!(app.msg_spec.msg_type, MsgType::Warn);
    assert!(!app.is_fetch_in_flight(CurrentPanel::Latest));
}

#[test]
fn empty_snapshot_leaves_dataset_unchanged() {
    let mut app = App::new(String::new());
    app.latest.data = vec![simple(1, "BTC")];
    app.latest.status.timestamp = "before".to_string();
    assert!(app.request_refresh(CurrentPanel::Latest));
    app.update_data(ChannelItem::Item(ChannelInnerItem::Latest(snapshot(vec![], None))), 1_700_000_000);
    assert_eq!(symbols(&app.latest.data), vec!["BTC"]);
    assert_eq!(app.latest.status.timestamp, "before");
    assert_eq!(app.msg_spec.msg, "");
    assert!(!app.is_fetch_in_flight(CurrentPanel::Latest));
}

#[test]
fn good_snapshot_is_adopted_in_active_order() {
    let mut app = App::new(String::new());
    sort_by_key(&mut app, SortKey::Symbol, false);
    let snap = snapshot(
        vec![item(1, "eth", 2, Some(1), Some(1), Some(-1)), item(2, "BTC", 1, Some(1), Some(-1), Some(-1))],
        None,
    );
    app.request_refresh(CurrentPanel::Latest);
    app.update_data(ChannelItem::Item(ChannelInnerItem::Latest(snap)), 1_700_000_000);
    assert_eq!(symbols(&app.latest.data), vec!["BTC", "eth"]);
    assert_eq!(app.latest.status.timestamp, "2024-01-01T00:00:00Z");
    assert_eq!(app.latest.addition_info.h24_up_count, 1);
    assert_eq!(app.latest.addition_info.d7_up_count, 0);
    assert_eq!(app.latest.addition_info.timestamp, 1_700_000_000);
    assert_eq!(app.latest_setting.sort_key, SortKey::Symbol);
}

#[test]
fn second_refresh_while_in_flight_is_dropped() {
    let mut app = App::new(String::new());
    assert!(!app.is_fetch_in_flight(CurrentPanel::Latest));
    assert!(app.request_refresh(CurrentPanel::Latest));
    assert!(!app.request_refresh(CurrentPanel::Latest));
    assert!(app.is_fetch_in_flight(CurrentPanel::Latest));
    app.update_data(ChannelItem::ErrMsg(CurrentPanel::Latest, "timeout".to_string()), 1_700_000_000);
    assert!(!app.is_fetch_in_flight(CurrentPanel::Latest));
    assert_eq!(app.msg_spec.msg, "timeout");
    assert!(app.request_refresh(CurrentPanel::Latest));
}

#[test]
fn refresh_kinds_are_independent() {
    let mut app = App::new(String::new());
    assert!(app.fetch_latest());
    assert!(app.fetch_stats());
    assert!(!app.fetch_stats());
    assert!(!app.request_refresh(CurrentPanel::Trending));
    assert!(!app.request_refresh(CurrentPanel::About));
    app.update_data(ChannelItem::Item(ChannelInnerItem::Stats(Stats::new())), 1_700_000_000);
    assert!(!app.is_fetch_in_flight(CurrentPanel::Stats));
    assert!(app.is_fetch_in_flight(CurrentPanel::Latest));
}

#[test]
fn stats_with_errors_raise_a_notice() {
    let mut app = App::new(String::new());
    app.stats.market = vec![Market { name: "SPX".to_string(), value: Some(1), precent: Some(2) }];
    let st = from_results(Err("down".to_string()), Err("gone".to_string()));
    app.request_refresh(CurrentPanel::Stats);
    app.update_data(ChannelItem::Item(ChannelInnerItem::Stats(st)), 1_700_000_000);
    assert_eq!(app.msg_spec.msg, "fetch market error: down\n\nfetch crypto stats error: gone");
    assert_eq!(app.stats.market.len(), 1);
    assert!(!app.is_fetch_in_flight(CurrentPanel::Stats));
}

#[test]
fn stats_without_errors_replace_the_dataset() {
    let mut app = App::new(String::new());
    let st = from_results(
        Ok(vec![Market { name: "DXY".to_string(), value: Some(10), precent: None }]),
        Ok(Crypto::new()),
    );
    assert!(st.errors.is_empty());
    assert!(st.is_cacheable());
    app.update_data(ChannelItem::Item(ChannelInnerItem::Stats(st)), 1_700_000_000);
    assert_eq!(app.stats.market.len(), 1);
    assert_eq!(app.stats.market[0].name, "DXY");
}

#[test]
fn one_failed_index_fetch_names_it() {
    let st = from_results(Ok(vec![]), Err("bad json".to_string()));
    assert_eq!(st.errors, vec!["fetch crypto stats error: bad json".to_string()]);
    assert_eq!(st.error_text(), "fetch crypto stats error: bad json");
    assert!(!st.is_cacheable());
    assert!(st.crypto.greed_fear.data.is_empty());
    assert_eq!(st.crypto.global.total_market_cap_usd, 0);
    assert_eq!(st.crypto.gas_fee.ethereum, 0);
}

#[test]
fn init_adopts_cache_and_marks_then_orders() {
    let mut app = App::new(String::new());
    let cached = snapshot(vec![simple(1, "BTC"), simple(3, "SOL"), simple(2, "ETH")], None);
    init(&mut app, Some(cached), Some("[\"SOL\",\"SOL\"]"), 42);
    assert_eq!(app.latest.addition_info.timestamp, 42);
    assert_eq!(symbols(&app.latest.data), vec!["SOL", "BTC", "ETH"]);
    assert_eq!(app.latest_setting.sort_key, SortKey::Marker);
    assert!(app.latest_setting.is_marked("SOL"));
    assert_eq!(app.latest_setting.marker_symbols, vec!["SOL".to_string()]);
}

#[test]
fn init_with_unreadable_marks_keeps_none() {
    let mut app = App::new(String::new());
    init(&mut app, None, Some("not json"), 42);
    assert!(app.latest_setting.marker_symbols.is_empty());
    assert_eq!(app.latest_setting.sort_key, SortKey::Marker);
}

#[test]
fn switch_panel_remembers_previous() {
    let mut app = App::new(String::new());
    app.switch_panel(CurrentPanel::About);
    assert_eq!(app.current_panel, CurrentPanel::About);
    assert_eq!(app.prev_panel, CurrentPanel::Latest);
}

#[test]
fn notice_expires_after_five_seconds() {
    let mut app = App::new(String::new());
    app.msg_spec.timestamp = 100;
    assert!(app.is_message_shown(104));
    assert!(!app.is_message_shown(105));
}

#[test]
fn cacheable_only_without_server_error() {
    assert!(snapshot(vec![], None).is_cacheable());
    assert!(!snapshot(vec![], Some("x")).is_cacheable());
}

#[test]
fn long_symbols_are_cut_to_six() {
    assert_eq!(picon::latest::display_symbol("BTC"), "BTC");
    assert_eq!(picon::latest::display_symbol("ABCDEF"), "ABCDEF");
    assert_eq!(picon::latest::display_symbol("ABCDEFGH"), "ABCDEF");
}
