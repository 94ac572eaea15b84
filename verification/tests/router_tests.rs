use sharding::memory_manager::MemoryManager;
use sharding::message::Message;
use sharding::router::Router;
use sharding::rows::RowData;
use sharding::shard::Shard;
use sharding::tables_id_info::TablesIdInfo;

fn table_ids(table: &str, max_id: i64) -> TablesIdInfo {
    let mut t = TablesIdInfo::new();
    t.insert(table.to_string(), max_id);
    t
}

fn two_shard_router() -> Router {
    let mut router = Router::new("127.0.0.1", "5434");
    router.save_shard_client("5433".to_string());
    router.save_shard_client("5435".to_string());
    assert!(router.handle_response(Message::new_agreed(6000, table_ids("test_table", 5)), "5433"));
    assert!(router.handle_response(Message::new_agreed(7000, table_ids("test_table", 3)), "5435"));
    router
}

fn id_row(id: i64) -> RowData {
    RowData { columns: vec!["id".to_string()], values: vec![id.to_string()] }
}

#[test]
fn test_targeted_select_rewrites_id() {
    let router = two_shard_router();
    let (targets, update, query) = router.get_data_needed_from(
        "SELECT * FROM test_table WHERE id = 7;",
    );
    assert_eq!(targets, vec!["5435".to_string()]);
    assert_eq!(update, false);
    assert_eq!(query, "SELECT * FROM test_table WHERE id = 2;");
}

#[test]
fn test_targeted_select_first_shard_keeps_id() {
    let router = two_shard_router();
    let (targets, update, query) = router.get_data_needed_from(
        "SELECT * FROM test_table WHERE id = 4;",
    );
    assert_eq!(targets, vec!["5433".to_string()]);
    assert_eq!(update, false);
    assert_eq!(query, "SELECT * FROM test_table WHERE id = 4;");
}

#[test]
fn test_targeted_id_beyond_all_shards_fans_out() {
    let router = two_shard_router();
    let (targets, update, query) = router.get_data_needed_from(
        "DELETE FROM test_table WHERE id = 9;",
    );
    assert_eq!(targets, vec!["5433".to_string(), "5435".to_string()]);
    assert_eq!(update, true);
    assert_eq!(query, "DELETE FROM test_table WHERE id = 9;");
}

#[test]
fn test_insert_goes_to_freest_shard() {
    let router = two_shard_router();
    let (targets, update, query) = router.get_data_needed_from(
        "INSERT INTO test_table VALUES (1);",
    );
    assert_eq!(targets, vec!["5435".to_string()]);
    assert_eq!(update, true);
    assert_eq!(query, "INSERT INTO test_table VALUES (1);");
}

#[test]
fn test_create_table_fans_out() {
    let router = two_shard_router();
    let (targets, update, query) = router.get_data_needed_from(
        "CREATE TABLE test_table (id INT PRIMARY KEY);",
    );
    assert_eq!(targets, vec!["5433".to_string(), "5435".to_string()]);
    assert_eq!(update, true);
    assert_eq!(query, "CREATE TABLE test_table (id INT PRIMARY KEY);");
}

#[test]
fn test_delete_modulo_fans_out() {
    let router = two_shard_router();
    let (targets, update, _query) = router.get_data_needed_from(
        "DELETE FROM test_table WHERE id % 2 = 0;",
    );
    assert_eq!(targets, vec!["5433".to_string(), "5435".to_string()]);
    assert_eq!(update, true);
}

#[test]
fn test_plain_select_fans_out_without_update() {
    let router = two_shard_router();
    let (targets, update, _query) = router.get_data_needed_from("SELECT id FROM test_table;");
    assert_eq!(targets, vec!["5433".to_string(), "5435".to_string()]);
    assert_eq!(update, false);
}

#[test]
fn test_routing_is_deterministic() {
    let a = two_shard_router();
    let b = two_shard_router();
    let q = "SELECT * FROM test_table WHERE id = 7;";
    assert_eq!(a.get_data_needed_from(q), b.get_data_needed_from(q));
    assert_eq!(a.get_data_needed_from(q), a.get_data_needed_from(q));
}

#[test]
fn test_cross_shard_select_merges_with_offsets() {
    let router = two_shard_router();
    let responses = vec![
        ("5433".to_string(), vec![id_row(1), id_row(2), id_row(3), id_row(4), id_row(5)]),
        ("5435".to_string(), vec![id_row(1), id_row(2), id_row(3)]),
    ];
    let merged = router.merge_responses(responses, "SELECT id FROM test_table;");
    let expected = "id | \u{0}1 | \u{0}2 | \u{0}3 | \u{0}4 | \u{0}5 | \u{0}6 | \u{0}7 | \u{0}8 | \u{0}";
    assert_eq!(merged, expected);
}

#[test]
fn test_merged_row_count_matches_sources() {
    let router = two_shard_router();
    let responses = vec![
        ("5433".to_string(), vec![id_row(1), id_row(2)]),
        ("5435".to_string(), vec![id_row(1)]),
    ];
    let merged = router.merge_responses(responses, "SELECT id FROM test_table;");
    let nuls = merged.chars().filter(|c| *c == '\u{0}').count();
    assert_eq!(nuls, 1 + 3);
}

#[test]
fn test_non_select_concatenates_rows() {
    let router = two_shard_router();
    let merged = router.merge_responses(Vec::new(), "DELETE FROM test_table WHERE id % 2 = 0;");
    assert_eq!(merged, "");
}

#[test]
fn test_memory_update_rekeys_shard() {
    let mut router = two_shard_router();
    assert!(router.handle_response(
        Message::new_memory_update(100, table_ids("test_table", 5)),
        "5435"
    ));
    // 5435 dropped to 1%, so 5433 (60%) now takes inserts.
    let (targets, _, _) = router.get_data_needed_from("INSERT INTO test_table VALUES (2);");
    assert_eq!(targets, vec!["5433".to_string()]);
}

#[test]
fn test_denied_reply_changes_nothing() {
    let mut router = Router::new("127.0.0.1", "5434");
    assert!(!router.handle_response(Message::new_denied(), "5433"));
    let (targets, _, _) = router.get_data_needed_from("INSERT INTO test_table VALUES (1);");
    assert!(targets.is_empty());
}

#[test]
fn test_parse_client_request() {
    assert_eq!(
        Router::parse_client_request("QUERY None None 1:2 SELECT * FROM test_table;\n"),
        Some("SELECT * FROM test_table;".to_string())
    );
    assert_eq!(Router::parse_client_request("GET_ROUTER None None None None\n"), None);
    assert_eq!(Router::parse_client_request("garbage"), None);
    // A query that names no sender is dropped.
    assert_eq!(Router::parse_client_request("QUERY None None None SELECT 1;\n"), None);
}

#[test]
fn test_agreed_without_mapping_registers_empty_snapshot() {
    // A shard with no tables yet replies AGREED with a blank mapping
    // field, which reads back as absent; the router must still
    // register it, or an empty cluster could never take an INSERT.
    let mut router = Router::new("127.0.0.1", "5434");
    router.save_shard_client("5433".to_string());
    let reply = Message::from_string("AGREED 44.44  None None\n").unwrap();
    assert!(router.handle_response(reply, "5433"));
    let (targets, update, _query) = router.get_data_needed_from("INSERT INTO test_table VALUES (0);");
    assert_eq!(targets, vec!["5433".to_string()]);
    assert!(update);
    assert_eq!(router.shard_manager.get_max_ids_for_shard_table("5433", "test_table"), None);
}

#[test]
fn test_empty_shard_handshake_end_to_end() {
    let mut shard = Shard::new("127.0.0.1", "5433", MemoryManager::new(1000, 1000, 500));
    let agreed = shard.get_response_message("INIT_CONNECTION None None 127.0.0.1:5434 None\n").unwrap();
    let mut router = Router::new("127.0.0.1", "5434");
    router.save_shard_client("5433".to_string());
    assert!(router.handle_response(Message::from_string(&agreed).unwrap(), "5433"));
    let (targets, _, _) = router.get_data_needed_from("INSERT INTO test_table VALUES (0);");
    assert_eq!(targets, vec!["5433".to_string()]);
}
