use wifi_voucher::voucher::Voucher;
use wifi_voucher::wifi_network::WiFiNetwork;

#[test]
fn test_create_voucher() {
    let voucher = Voucher::new("TEST123".to_string());
    assert_eq!(voucher.code, "TEST123");
    assert!(!voucher.is_used);
    assert!(voucher.used_at.is_none());
    assert!(voucher.network_id.is_none());
}

#[test]
fn test_create_network() {
    let network = WiFiNetwork::new(
        "Test Network".to_string(),
        "TestSSID".to_string(),
        "password123".to_string(),
        Some("Test description".to_string()),
    );

    assert_eq!(network.name, "Test Network");
    assert_eq!(network.ssid, "TestSSID");
    assert_eq!(network.password, "password123");
    assert_eq!(network.description, Some("Test description".to_string()));
    assert!(network.is_active);
    assert!(!network.id.is_empty());
}

#[test]
fn test_fresh_voucher_is_unprinted() {
    let voucher = Voucher::new("PRINTME".to_string());
    assert!(!voucher.is_printed);
    assert!(voucher.printed_at.is_none());
    assert_eq!(voucher.id.len(), 36);
}
