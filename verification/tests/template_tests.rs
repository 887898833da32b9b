use wifi_voucher::config::{Config, ServerConfig};
use wifi_voucher::templates::{
    error_response, generate_voucher_card, generate_vouchers_page, render_voucher_cards,
    success_response,
};
use wifi_voucher::text::{replace, str_eq, u64_to_string};
use wifi_voucher::voucher::Voucher;

#[test]
fn test_replace_all_occurrences() {
    assert_eq!(replace("a{{X}}b{{X}}c", "{{X}}", "-"), "a-b-c");
    assert_eq!(replace("nothing here", "{{X}}", "-"), "nothing here");
    assert_eq!(replace("aaa", "aa", "b"), "ba");
    assert_eq!(replace("abc", "", "z"), "abc");
}

#[test]
fn test_str_eq_on_unicode() {
    assert!(str_eq("caf\u{e9}", "caf\u{e9}"));
    assert!(!str_eq("caf\u{e9}", "cafe"));
}

#[test]
fn test_u64_to_string_exact() {
    assert_eq!(u64_to_string(0), "0");
    assert_eq!(u64_to_string(7), "7");
    assert_eq!(u64_to_string(3000), "3000");
    assert_eq!(u64_to_string(18446744073709551615), "18446744073709551615");
}

#[test]
fn test_generate_voucher_card_substitutes() {
    let template = "<img src=\"data:image/png;base64,{{QR_CODE_BASE64}}\"/>{{NETWORK_NAME}} ({{NETWORK_SSID}}): {{VOUCHER_CODE}}";
    let card = generate_voucher_card(template, "QRDATA", "Lobby-WiFi", "Lobby", "VOUCHER001");
    assert_eq!(card, "<img src=\"data:image/png;base64,QRDATA\"/>Lobby (Lobby-WiFi): VOUCHER001");
}

#[test]
fn test_generate_vouchers_page_substitutes_count() {
    let template = "{{VOUCHER_COUNT}} vouchers for {{NETWORK_NAME}}/{{NETWORK_SSID}}:{{VOUCHER_CARDS}}";
    let page = generate_vouchers_page(template, 12, "Lobby", "Lobby-WiFi", "<cards/>");
    assert_eq!(page, "12 vouchers for Lobby/Lobby-WiFi:<cards/>");
}

#[test]
fn test_success_response_fills_message_and_count() {
    let template = "{{TITLE}}|{{MESSAGE_CONTENT}}|{{STATS_SECTION}}|{{PRIMARY_BUTTON}}|{{AUTO_REDIRECT}}";
    let page = success_response(template, "Done", "All good", 3, "<a/>");
    assert!(page.starts_with("Done|All good|"));
    assert!(page.contains(">3</div>"));
    assert!(page.contains("Vouchers Loaded"));
    assert!(page.ends_with("|<a/>|false"));
}

#[test]
fn test_success_response_zero_count_has_no_stats() {
    let template = "{{TITLE}}[{{STATS_SECTION}}]";
    let page = success_response(template, "T", "m", 0, "");
    assert_eq!(page, "T[]");
}

#[test]
fn test_error_response_fills_error_styling() {
    let template = "{{TITLE}}|{{SUBTITLE}}|{{MESSAGE_TITLE}}|{{MESSAGE_CONTENT}}";
    let page = error_response(template, "Failed", "bad input", "");
    assert_eq!(page, "Failed|An error occurred while processing your request|Error!|bad input");
}

#[test]
fn test_render_voucher_cards_joins_with_newlines() {
    let template = "[{{VOUCHER_CODE}}]";
    let vouchers = vec![
        Voucher::new("A-1".to_string()),
        Voucher::new("B-2".to_string()),
        Voucher::new("C-3".to_string()),
    ];
    let cards = render_voucher_cards(template, "q", "s", "n", &vouchers);
    assert_eq!(cards, "[A-1]\n[B-2]\n[C-3]");

    let none: Vec<Voucher> = Vec::new();
    assert_eq!(render_voucher_cards(template, "q", "s", "n", &none), "");
}

#[test]
fn test_database_url() {
    let config = Config {
        templates_dir: "templates".to_string(),
        database_path: "data/app.db".to_string(),
        server: ServerConfig::default(),
    };

    let db_url = config.database_url();
    assert!(db_url.contains("sqlite:"));
    assert!(db_url.contains("data/app.db"));
}

#[test]
fn test_default_server_config() {
    let server = ServerConfig::default();
    assert_eq!(server.default_host, "127.0.0.1");
    assert_eq!(server.default_port, 3000);
}
