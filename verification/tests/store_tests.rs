use wifi_voucher::import::{assign_network, process_csv_data};
use wifi_voucher::network_store::NetworkStore;
use wifi_voucher::voucher::Voucher;
use wifi_voucher::voucher_store::{StoreError, VoucherStore};
use wifi_voucher::wifi_network::WiFiNetwork;

fn voucher(id: &str, code: &str, network_id: Option<&str>, created_at: i64) -> Voucher {
    Voucher {
        id: id.to_string(),
        code: code.to_string(),
        network_id: network_id.map(|n| n.to_string()),
        created_at,
        is_used: false,
        used_at: None,
        is_printed: false,
        printed_at: None,
    }
}

#[test]
fn test_create_batch_round_trip() {
    let mut store = VoucherStore::new();
    let batch = vec![
        voucher("id-1", "CODE-1", Some("net-1"), 10),
        voucher("id-2", "CODE-2", None, 20),
    ];
    assert!(store.create_vouchers(&batch).is_ok());

    let all = store.get_all_vouchers();
    assert_eq!(all.len(), 2);
    assert_eq!(all[0].code, "CODE-1");
    assert_eq!(all[0].network_id.as_deref(), Some("net-1"));
    assert!(!all[0].is_used);
    assert!(!all[0].is_printed);
    assert_eq!(all[1].code, "CODE-2");
    assert_eq!(all[1].network_id, None);
}

#[test]
fn test_create_batch_duplicate_code_rejected_whole() {
    let mut store = VoucherStore::new();
    assert!(store.create_vouchers(&vec![voucher("id-1", "CODE-1", None, 1)]).is_ok());

    let batch = vec![
        voucher("id-2", "CODE-2", None, 2),
        voucher("id-3", "CODE-1", None, 3),
    ];
    assert_eq!(store.create_vouchers(&batch), Err(StoreError::DuplicateCode));
    // atomic: nothing of the failed batch went in
    assert_eq!(store.get_all_vouchers().len(), 1);
}

#[test]
fn test_create_batch_duplicate_code_within_batch() {
    let mut store = VoucherStore::new();
    let batch = vec![
        voucher("id-1", "SAME", None, 1),
        voucher("id-2", "SAME", None, 2),
    ];
    assert_eq!(store.create_vouchers(&batch), Err(StoreError::DuplicateCode));
    assert_eq!(store.get_all_vouchers().len(), 0);
}

#[test]
fn test_create_batch_duplicate_id_conflict() {
    let mut store = VoucherStore::new();
    assert!(store.create_vouchers(&vec![voucher("id-1", "CODE-1", None, 1)]).is_ok());
    let batch = vec![voucher("id-1", "CODE-2", None, 2)];
    assert_eq!(store.create_vouchers(&batch), Err(StoreError::Conflict));
    assert_eq!(store.get_all_vouchers().len(), 1);
}

#[test]
fn test_list_ordered_by_created_at() {
    let mut store = VoucherStore::new();
    let batch = vec![
        voucher("id-3", "C-3", None, 30),
        voucher("id-1", "C-1", None, 10),
        voucher("id-2", "C-2", None, 20),
    ];
    assert!(store.create_vouchers(&batch).is_ok());
    let all = store.get_all_vouchers();
    assert_eq!(all[0].code, "C-1");
    assert_eq!(all[1].code, "C-2");
    assert_eq!(all[2].code, "C-3");
}

#[test]
fn test_list_equal_times_keep_insertion_order() {
    let mut store = VoucherStore::new();
    let batch = vec![
        voucher("id-1", "FIRST", None, 5),
        voucher("id-2", "SECOND", None, 5),
        voucher("id-3", "THIRD", None, 5),
    ];
    assert!(store.create_vouchers(&batch).is_ok());
    let all = store.get_all_vouchers();
    assert_eq!(all[0].code, "FIRST");
    assert_eq!(all[1].code, "SECOND");
    assert_eq!(all[2].code, "THIRD");
}

#[test]
fn test_mark_used_idempotent() {
    let mut store = VoucherStore::new();
    assert!(store.create_vouchers(&vec![voucher("id-1", "CODE-1", None, 1)]).is_ok());

    assert!(store.mark_voucher_as_used_at("id-1", 99));
    let after_first = store.get_all_vouchers();
    assert!(after_first[0].is_used);
    assert_eq!(after_first[0].used_at, Some(99));

    // second call: returns false, used_at unchanged
    assert!(!store.mark_voucher_as_used_at("id-1", 123));
    let after_second = store.get_all_vouchers();
    assert!(after_second[0].is_used);
    assert_eq!(after_second[0].used_at, Some(99));
}

#[test]
fn test_mark_used_absent_id_returns_false() {
    let mut store = VoucherStore::new();
    assert!(!store.mark_voucher_as_used("missing"));
}

#[test]
fn test_mark_used_then_unused_restores() {
    let mut store = VoucherStore::new();
    assert!(store.create_vouchers(&vec![voucher("id-1", "CODE-1", None, 1)]).is_ok());

    assert!(store.mark_voucher_as_used_at("id-1", 42));
    assert!(store.mark_voucher_as_unused("id-1"));

    let all = store.get_all_vouchers();
    assert!(!all[0].is_used);
    assert_eq!(all[0].used_at, None);
}

#[test]
fn test_mark_unused_reports_presence() {
    let mut store = VoucherStore::new();
    assert!(store.create_vouchers(&vec![voucher("id-1", "CODE-1", None, 1)]).is_ok());
    // unconditional: true even when already unused
    assert!(store.mark_voucher_as_unused("id-1"));
    assert!(!store.mark_voucher_as_unused("missing"));
}

#[test]
fn test_mark_printed_counts_only_flips() {
    let mut store = VoucherStore::new();
    let batch = vec![
        voucher("id-1", "C-1", None, 1),
        voucher("id-2", "C-2", None, 2),
    ];
    assert!(store.create_vouchers(&batch).is_ok());

    let ids = vec!["id-1".to_string(), "id-2".to_string(), "missing".to_string()];
    assert_eq!(store.mark_vouchers_as_printed_at(&ids, 7), 2);
    // a second pass flips nothing
    assert_eq!(store.mark_vouchers_as_printed_at(&ids, 8), 0);

    let all = store.get_all_vouchers();
    assert!(all[0].is_printed);
    assert_eq!(all[0].printed_at, Some(7));
    assert!(all[1].is_printed);
    assert_eq!(all[1].printed_at, Some(7));
}

#[test]
fn test_unprinted_listing_respects_limit() {
    let mut store = VoucherStore::new();
    let batch = vec![
        voucher("id-1", "C-1", Some("net"), 1),
        voucher("id-2", "C-2", Some("net"), 2),
        voucher("id-3", "C-3", Some("net"), 3),
        voucher("id-4", "C-4", Some("other"), 4),
    ];
    assert!(store.create_vouchers(&batch).is_ok());
    assert_eq!(store.mark_vouchers_as_printed_at(&vec!["id-1".to_string()], 5), 1);

    let unprinted = store.get_unprinted_vouchers_for_network("net", None);
    assert_eq!(unprinted.len(), 2);
    assert_eq!(unprinted[0].code, "C-2");
    assert_eq!(unprinted[1].code, "C-3");

    let capped = store.get_unprinted_vouchers_for_network("net", Some(1));
    assert_eq!(capped.len(), 1);
    assert_eq!(capped[0].code, "C-2");
}

#[test]
fn test_take_print_batch_marks_exactly_taken() {
    let mut store = VoucherStore::new();
    let batch = vec![
        voucher("id-1", "C-1", Some("net"), 1),
        voucher("id-2", "C-2", Some("net"), 2),
        voucher("id-3", "C-3", Some("net"), 3),
    ];
    assert!(store.create_vouchers(&batch).is_ok());

    let taken = store.take_print_batch("net", 2);
    assert_eq!(taken.len(), 2);
    assert_eq!(taken[0].code, "C-1");
    assert_eq!(taken[1].code, "C-2");
    // the handed-out rows show their pre-marking state
    assert!(!taken[0].is_printed);

    let counts = store.get_voucher_counts("net");
    assert_eq!(counts.printed, 2);
    assert_eq!(counts.unprinted, 1);
}

#[test]
fn test_counts_for_network() {
    let mut store = VoucherStore::new();
    let batch = vec![
        voucher("id-1", "C-1", Some("net"), 1),
        voucher("id-2", "C-2", Some("net"), 2),
        voucher("id-3", "C-3", Some("other"), 3),
    ];
    assert!(store.create_vouchers(&batch).is_ok());
    assert!(store.mark_voucher_as_used_at("id-1", 9));

    let c = store.get_voucher_counts("net");
    assert_eq!(c.total, 2);
    assert_eq!(c.used, 1);
    assert_eq!(c.unused, 1);
    assert_eq!(c.printed, 0);
    assert_eq!(c.unprinted, 2);
    assert_eq!(c.used + c.unused, c.total);
    assert_eq!(c.printed + c.unprinted, c.total);
}

#[test]
fn test_network_create_get_list() {
    let mut nets = NetworkStore::new();
    let lobby = WiFiNetwork::new(
        "Lobby".to_string(),
        "Lobby-WiFi".to_string(),
        "guest1234".to_string(),
        None,
    );
    let lobby_id = lobby.id.clone();
    assert!(nets.create_network(&lobby).is_ok());

    // the same identifier again is a conflict
    assert_eq!(nets.create_network(&lobby), Err(StoreError::Conflict));

    let got = nets.get_network(&lobby_id).unwrap();
    assert_eq!(got.name, "Lobby");
    assert_eq!(got.ssid, "Lobby-WiFi");
    assert_eq!(got.password, "guest1234");
    assert!(got.is_active);

    assert!(nets.get_network("missing").is_none());
    assert_eq!(nets.get_all_networks().len(), 1);
}

#[test]
fn test_delete_network_cascades() {
    let mut nets = NetworkStore::new();
    let mut store = VoucherStore::new();
    let batch = vec![
        voucher("id-1", "C-1", Some("net-a"), 1),
        voucher("id-2", "C-2", Some("net-b"), 2),
        voucher("id-3", "C-3", None, 3),
        voucher("id-4", "C-4", Some("net-a"), 4),
    ];
    assert!(store.create_vouchers(&batch).is_ok());
    let net_a = WiFiNetwork {
        id: "net-a".to_string(),
        name: "A".to_string(),
        ssid: "A-WiFi".to_string(),
        password: "pw".to_string(),
        description: None,
        created_at: 1,
        is_active: true,
    };
    assert!(nets.create_network(&net_a).is_ok());

    assert!(nets.delete_network(&mut store, "net-a"));

    // every voucher of net-a is gone, and no others
    let all = store.get_all_vouchers();
    assert_eq!(all.len(), 2);
    assert_eq!(all[0].code, "C-2");
    assert_eq!(all[1].code, "C-3");
    assert!(nets.get_network("net-a").is_none());

    // deleting again reports nothing removed and touches neither store
    assert!(!nets.delete_network(&mut store, "net-a"));
    assert_eq!(store.get_all_vouchers().len(), 2);
}

#[test]
fn test_delete_unknown_network_leaves_orphans() {
    // vouchers may reference a network that does not exist; deleting that
    // id removes no profile and must not sweep those rows
    let mut nets = NetworkStore::new();
    let mut store = VoucherStore::new();
    let batch = vec![
        voucher("id-1", "C-1", Some("ghost-net"), 1),
        voucher("id-2", "C-2", None, 2),
    ];
    assert!(store.create_vouchers(&batch).is_ok());

    assert!(!nets.delete_network(&mut store, "ghost-net"));

    let all = store.get_all_vouchers();
    assert_eq!(all.len(), 2);
    assert_eq!(all[0].code, "C-1");
    assert_eq!(all[0].network_id.as_deref(), Some("ghost-net"));
}

#[test]
fn test_import_against_network_counts() {
    // create a network profile, import a batch of three codes against it,
    // and read the aggregate counters back
    let mut nets = NetworkStore::new();
    let mut store = VoucherStore::new();
    let lobby = WiFiNetwork::new(
        "Lobby".to_string(),
        "Lobby-WiFi".to_string(),
        "guest1234".to_string(),
        None,
    );
    let lobby_id = lobby.id.clone();
    assert!(nets.create_network(&lobby).is_ok());

    let mut vouchers = process_csv_data("code\nAAA-1\nAAA-2\nAAA-3").unwrap();
    assign_network(&mut vouchers, &lobby_id);
    assert!(store.create_vouchers(&vouchers).is_ok());

    let c = store.get_voucher_counts(&lobby_id);
    assert_eq!(c.total, 3);
    assert_eq!(c.used, 0);
    assert_eq!(c.unused, 3);
    assert_eq!(c.printed, 0);
    assert_eq!(c.unprinted, 3);
}
