use wifi_voucher::import::{parse_codes, process_csv_data, ImportError};

#[test]
fn test_csv_processing_with_comments() {
    let csv_data = "voucher_code\n# This is a comment\nVOUCHER001\n# Another comment\nVOUCHER002\n\n# Final comment\nVOUCHER003";

    let result = process_csv_data(csv_data);
    assert!(result.is_ok());

    let vouchers = result.unwrap();
    assert_eq!(vouchers.len(), 3);
    assert_eq!(vouchers[0].code, "VOUCHER001");
    assert_eq!(vouchers[1].code, "VOUCHER002");
    assert_eq!(vouchers[2].code, "VOUCHER003");
}

#[test]
fn test_csv_processing_ignores_empty_lines() {
    let csv_data = "VOUCHER001\nVOUCHER002\nVOUCHER003";

    let result = process_csv_data(csv_data);
    assert!(result.is_ok());

    let vouchers = result.unwrap();
    // the first line is treated as a header and skipped
    assert_eq!(vouchers.len(), 2);
    assert_eq!(vouchers[0].code, "VOUCHER002");
    assert_eq!(vouchers[1].code, "VOUCHER003");
}

#[test]
fn test_csv_processing_only_comments() {
    let csv_data = "# Comment 1\n# Comment 2\n# Comment 3";

    let result = process_csv_data(csv_data);
    assert!(result.is_err());
    assert!(result.unwrap_err().message().contains("No valid voucher codes found"));
}

#[test]
fn test_csv_processing_mixed_content() {
    let csv_data = "# WiFi Codes\nvoucher_code\n# Hotel codes\nHOTEL-001\nHOTEL-002\n# Guest codes\nGUEST-001\n# End";

    let result = process_csv_data(csv_data);
    assert!(result.is_ok());

    let vouchers = result.unwrap();
    assert_eq!(vouchers.len(), 4); // voucher_code header is treated as a voucher code
    assert_eq!(vouchers[0].code, "voucher_code");
    assert_eq!(vouchers[1].code, "HOTEL-001");
    assert_eq!(vouchers[2].code, "HOTEL-002");
    assert_eq!(vouchers[3].code, "GUEST-001");
}

#[test]
fn test_parse_drops_header_keeps_rest() {
    let result = parse_codes("code\nVOUCHER001\nVOUCHER002");
    assert!(result.is_ok());
    let codes = result.unwrap();
    assert_eq!(codes, vec!["VOUCHER001".to_string(), "VOUCHER002".to_string()]);
}

#[test]
fn test_parse_only_comments_fails() {
    let result = parse_codes("# only comments\n# more");
    assert!(result.is_err());
    assert_eq!(result.unwrap_err(), ImportError::NoValidCodes);
}

#[test]
fn test_parse_empty_input_fails() {
    assert_eq!(parse_codes("").unwrap_err(), ImportError::NoValidCodes);
    assert_eq!(parse_codes("just-a-header").unwrap_err(), ImportError::NoValidCodes);
}

#[test]
fn test_parse_trims_and_takes_first_field() {
    let result = parse_codes("code,label\n  ABC-1  ,ignored\n\tDEF-2\t\nGHI-3,x,y");
    let codes = result.unwrap();
    assert_eq!(codes, vec!["ABC-1".to_string(), "DEF-2".to_string(), "GHI-3".to_string()]);
}

#[test]
fn test_parse_trailing_newline_ignored() {
    let codes = parse_codes("code\nAAA\nBBB\n").unwrap();
    assert_eq!(codes, vec!["AAA".to_string(), "BBB".to_string()]);
}

#[test]
fn test_parse_comment_after_trim_is_dropped() {
    let result = parse_codes("code\n   # indented comment\nREAL-1");
    let codes = result.unwrap();
    assert_eq!(codes, vec!["REAL-1".to_string()]);
}

#[test]
fn test_process_csv_vouchers_start_fresh() {
    let vouchers = process_csv_data("code\nONE\nTWO").unwrap();
    for v in &vouchers {
        assert!(!v.is_used);
        assert!(v.used_at.is_none());
        assert!(!v.is_printed);
        assert!(v.printed_at.is_none());
        assert!(v.network_id.is_none());
        assert_eq!(v.id.len(), 36);
    }
}

#[test]
fn test_parse_trims_unicode_whitespace() {
    // the trim step accepts the same white-space set as char::is_whitespace
    let codes = parse_codes("code\n\u{00A0}\u{2003}SPACED\u{2028} ").unwrap();
    assert_eq!(codes, vec!["SPACED".to_string()]);
}
