use order_book_api::decimal::Dec;
use order_book_api::fix::market_data;
use order_book_api::fix::market_tick;
use order_book_api::fix::messages::{
    calculate_checksum, format_for_display, heartbeat_message_at, parse_fix_message, FixMessage,
};
use order_book_api::fix::session::{extract_message, FixSession, SessionAction};
use order_book_api::fix::symbol_parser::parse_security_list_response;
use order_book_api::fix::tick_parser;
use order_book_api::fix::ws_bridge::{ticker_topic, SymbolNameMap};
use rust_decimal::Decimal;

fn text(x: Dec) -> String {
    Decimal::from_i128_with_scale(x.mantissa(), x.scale()).to_string()
}

#[test]
fn test_checksum_calculation() {
    let test_msg = "8=FIX.4.4\x019=5\x0135=A\x01";
    let checksum = calculate_checksum(test_msg);
    assert!(checksum as u32 <= 255);
    assert_eq!(checksum, 180);
}

#[test]
fn test_parse_fix_message() {
    let raw = "8=FIX.4.4\x019=100\x0135=A\x0149=SENDER\x0156=TARGET\x0110=123\x01";
    let fields = parse_fix_message(raw);
    assert_eq!(fields.get(&8), Some(&"FIX.4.4".to_string()));
    assert_eq!(fields.get(&35), Some(&"A".to_string()));
    assert_eq!(fields.get(&49), Some(&"SENDER".to_string()));
}

#[test]
fn parse_keeps_the_last_value_of_a_repeated_tag() {
    let fields = parse_fix_message("269=0\x01270=1.5\x01269=1\x01bad\x01=x\x01");
    assert_eq!(fields.get(&269), Some(&"1".to_string()));
    assert_eq!(fields.get(&270), Some(&"1.5".to_string()));
    assert_eq!(fields.len(), 2);
}

#[test]
fn market_data_test_market_tick_calculations() {
    let mut tick = market_data::MarketTick::new("41".to_string());
    tick.bid_price = Some(Dec::new(265050, 2));
    tick.ask_price = Some(Dec::new(265100, 2));
    let mid = tick.mid_price().unwrap();
    assert_eq!(text(mid), "2650.75");
    let spread = tick.spread().unwrap();
    assert_eq!(text(spread), "0.50");
}

#[test]
fn tick_parser_test_market_tick_calculations() {
    let mut tick = market_tick::MarketTick::new("41".to_string());
    tick.bid_price = Some(Dec::new(265050, 2));
    tick.ask_price = Some(Dec::new(265100, 2));
    let mid = tick.mid_price().unwrap();
    assert_eq!(text(mid), "2650.75");
    let spread = tick.spread().unwrap();
    assert_eq!(text(spread), "0.50");
}

const MD_MSG: &str = "8=FIX.4.4\x0135=W\x0155=41\x01268=2\x01269=0\x01270=2650.50\x01271=100\x01269=1\x01270=2651.00\x01271=150\x0110=123\x01";

#[test]
fn market_data_test_parse_market_data() {
    let parser = market_data::MarketDataParser::new();
    if let Some((symbol, entries)) = parser.parse_market_data(MD_MSG) {
        assert_eq!(symbol, "41");
        assert_eq!(entries.len(), 2);
        assert_eq!(entries[0].entry_type, market_data::MDEntryType::Bid);
        assert_eq!(entries[1].entry_type, market_data::MDEntryType::Offer);
    } else {
        panic!("Failed to parse market data");
    }
}

#[test]
fn tick_parser_test_parse_market_data() {
    let parser = tick_parser::MarketDataParser::new();
    if let Some((symbol, entries)) = parser.parse_market_data(MD_MSG) {
        assert_eq!(symbol, "41");
        assert_eq!(entries.len(), 2);
        assert_eq!(entries[0].entry_type, tick_parser::MDEntryType::Bid);
        assert_eq!(entries[1].entry_type, tick_parser::MDEntryType::Offer);
    } else {
        panic!("Failed to parse market data");
    }
}

#[test]
fn market_data_tick_takes_last_bid_and_offer() {
    let parser = market_data::MarketDataParser::new();
    let (symbol, entries) = parser.parse_market_data(MD_MSG).unwrap();
    let tick = parser.build_tick(symbol, entries);
    assert_eq!(tick.symbol_id, "41");
    assert_eq!(text(tick.bid_price.unwrap()), "2650.50");
    assert_eq!(text(tick.ask_price.unwrap()), "2651.00");
    assert_eq!(text(tick.bid_size.unwrap()), "100");
    assert_eq!(text(tick.ask_size.unwrap()), "150");
    assert!(tick.is_complete());
}

#[test]
fn market_data_message_types() {
    assert!(market_data::MarketDataParser::is_market_data_message(MD_MSG));
    assert!(!market_data::MarketDataParser::is_market_data_message("35=0\x01"));
    assert_eq!(market_data::MDEntryType::from_char('2'), Some(market_data::MDEntryType::Trade));
    assert_eq!(market_data::MDEntryType::from_char('9'), None);
}

#[test]
fn heartbeat_message_is_framed_with_length_and_checksum() {
    let m = heartbeat_message_at("S", "T", "QUOTE", "QUOTE", 7, "20240101-00:00:00.000");
    assert_eq!(
        m,
        "8=FIX.4.4\x019=63\x0135=0\x0149=S\x0156=T\x0134=7\x0152=20240101-00:00:00.000\x0150=QUOTE\x0157=QUOTE\x0110=197\x01"
    );
}

#[test]
fn built_message_puts_header_fields_first() {
    let mut msg = FixMessage::new();
    msg.add_field(108, "30");
    msg.add_field(56, "T");
    msg.add_field(49, "S");
    let built = msg.build("A");
    let body = "35=A\x0149=S\x0156=T\x01108=30\x01";
    assert!(built.starts_with(&format!("8=FIX.4.4\x019={}\x01{}", body.len(), body)));
    let head_len = built.len() - 7;
    let checksum = calculate_checksum(&built[..head_len]);
    assert_eq!(&built[head_len..], format!("10={:03}\x01", checksum));
}

#[test]
fn built_message_reads_back_field_by_field() {
    let mut msg = FixMessage::new();
    msg.add_field(108, "30");
    msg.add_field(56, "T");
    msg.add_field(49, "S");
    msg.add_field(108, "45");
    let fields = parse_fix_message(&msg.build("A"));
    assert_eq!(fields.get(&35), Some(&"A".to_string()));
    assert_eq!(fields.get(&49), Some(&"S".to_string()));
    assert_eq!(fields.get(&56), Some(&"T".to_string()));
    assert_eq!(fields.get(&108), Some(&"45".to_string()));
    assert_eq!(fields.get(&8), Some(&"FIX.4.4".to_string()));
    assert_eq!(fields.len(), 7);
}

#[test]
fn display_replaces_separators() {
    assert_eq!(format_for_display("35=0\x0149=S\x01"), "35=0 | 49=S | ");
}

#[test]
fn security_list_lists_symbols() {
    let raw = "35=y\x01320=R1\x01560=0\x01146=2\x0155=1\x011007=EURUSD\x011008=5\x0155=2\x011007=GBPUSD\x011008=5\x01";
    let (req, code, symbols) = parse_security_list_response(raw).unwrap();
    assert_eq!(req, "R1");
    assert_eq!(code, 0);
    assert_eq!(symbols.len(), 2);
    assert_eq!(symbols[0].symbol_id, 1);
    assert_eq!(symbols[0].symbol_name, "EURUSD");
    assert_eq!(symbols[0].symbol_digits, 5);
    assert_eq!(symbols[1].symbol_id, 2);
    assert_eq!(symbols[1].symbol_name, "GBPUSD");
    assert_eq!(symbols[1].symbol_digits, 5);
    assert!(parse_security_list_response("35=y\x01560=0\x01").is_none());
}

#[test]
fn security_list_drops_incomplete_groups() {
    let raw = "35=y\x01320=R1\x01560=0\x0155=1\x011007=EURUSD\x0155=2\x011007=GBPUSD\x011008=3\x01";
    let (_, _, symbols) = parse_security_list_response(raw).unwrap();
    assert_eq!(symbols.len(), 1);
    assert_eq!(symbols[0].symbol_id, 2);
    assert_eq!(symbols[0].symbol_digits, 3);
}

fn session() -> FixSession {
    FixSession::new(
        "demo.sender".to_string(),
        "cServer".to_string(),
        "QUOTE".to_string(),
        "QUOTE".to_string(),
        "user".to_string(),
        "pass".to_string(),
        true,
    )
}

#[test]
fn session_numbers_messages_in_order() {
    let mut s = session();
    assert_eq!(s.msg_seq_num, 1);
    let logon = s.logon_at("20240101-00:00:00.000");
    assert!(logon.contains("\x0135=A\x01"));
    assert!(logon.contains("\x0134=1\x01"));
    assert!(logon.contains("\x01553=user\x01"));
    assert_eq!(s.msg_seq_num, 2);
    let hb = s.heartbeat_at("20240101-00:00:30.000");
    assert!(hb.contains("\x0134=2\x01"));
    assert_eq!(s.msg_seq_num, 3);
}

#[test]
fn session_answers_test_requests_and_reports_heartbeats() {
    let mut s = session();
    match s.handle_message_at("8=FIX.4.4\x0135=0\x0110=000\x01", "t", 0) {
        SessionAction::HeartbeatReceived => {},
        _ => panic!("expected a heartbeat report"),
    }
    assert_eq!(s.msg_seq_num, 1);
    match s.handle_message_at("8=FIX.4.4\x0135=1\x01112=TEST\x0110=000\x01", "t", 0) {
        SessionAction::AnswerTestRequest(m) => assert!(m.contains("\x0135=0\x01")),
        _ => panic!("expected a heartbeat answer"),
    }
    assert_eq!(s.msg_seq_num, 2);
    match s.handle_message_at(MD_MSG, "t", 5) {
        SessionAction::Tick(tick) => {
            assert_eq!(tick.symbol_id, "41");
            assert_eq!(text(tick.ask_price.unwrap()), "2651.00");
        },
        _ => panic!("expected a tick"),
    }
}

#[test]
fn extract_message_cuts_at_the_checksum_field() {
    let mut buffer: Vec<u8> = b"8=FIX.4.4\x0135=0\x0110=123\x018=FIX".to_vec();
    let first = extract_message(&mut buffer).unwrap();
    assert_eq!(first, "8=FIX.4.4\x0135=0\x0110=123\x01");
    assert_eq!(buffer, b"8=FIX".to_vec());
    assert!(extract_message(&mut buffer).is_none());
    assert_eq!(buffer, b"8=FIX".to_vec());
}

#[test]
fn test_symbol_mapping() {
    let names = SymbolNameMap::new();
    assert_eq!(names.get_symbol_name("41"), "XAUUSD");
    assert_eq!(names.get_symbol_name("1"), "EURUSD");
    assert_eq!(names.get_symbol_name("999"), "SYM_999");
}

#[test]
fn symbol_names_fall_back_to_the_id() {
    let mut names = SymbolNameMap::new();
    assert_eq!(names.get_symbol_name("999"), "SYM_999");
    names.add_symbol_mapping("41".to_string(), "XAUUSD".to_string());
    names.update_symbol_mappings(vec![
        ("1".to_string(), "EURUSD".to_string()),
        ("41".to_string(), "GOLD".to_string()),
    ]);
    assert_eq!(names.get_symbol_name("1"), "EURUSD");
    assert_eq!(names.get_symbol_name("41"), "GOLD");
    assert_eq!(ticker_topic("GOLD"), "ticker:GOLD");
}
