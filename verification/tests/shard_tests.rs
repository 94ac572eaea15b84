use sharding::memory_manager::MemoryManager;
use sharding::shard::Shard;

fn test_shard() -> Shard {
    let memory_manager = MemoryManager::new(1000, 1000, 500);
    let mut shard = Shard::new("127.0.0.1", "5433", memory_manager);
    shard.set_max_ids(vec![("test_table".to_string(), 5)]);
    shard
}

#[test]
fn test_init_connection_answered_agreed() {
    let mut shard = test_shard();
    let reply = shard.get_response_message("INIT_CONNECTION None None 127.0.0.1:5434 None\n");
    assert_eq!(reply, Some("AGREED 44.44 test_table:5 None None\n".to_string()));
    let router = shard.router_info.clone().unwrap();
    assert_eq!(router.ip, "127.0.0.1");
    assert_eq!(router.port, "5434");
}

#[test]
fn test_last_init_connection_wins() {
    let mut shard = test_shard();
    shard.get_response_message("INIT_CONNECTION None None 10.0.0.1:5434 None\n").unwrap();
    shard.get_response_message("INIT_CONNECTION None None 10.0.0.2:6434 None\n").unwrap();
    let router = shard.router_info.clone().unwrap();
    assert_eq!(router.ip, "10.0.0.2");
    assert_eq!(router.port, "6434");
}

#[test]
fn test_ask_memory_update_answered_with_state() {
    let mut shard = test_shard();
    let reply = shard.get_response_message("ASK_MEMORY_UPDATE None None None None\n");
    assert_eq!(reply, Some("MEMORY_UPDATE 44.44 test_table:5 None None\n".to_string()));
}

#[test]
fn test_get_router_before_and_after_init() {
    let mut shard = test_shard();
    let reply = shard.get_response_message("GET_ROUTER None None None None\n");
    assert_eq!(reply, Some("NO_ROUTER_DATA None None None None\n".to_string()));
    shard.get_response_message("INIT_CONNECTION None None 127.0.0.1:5434 None\n").unwrap();
    let reply = shard.get_response_message("GET_ROUTER None None None None\n");
    assert_eq!(reply, Some("ROUTER_ID None None 127.0.0.1:5434 None\n".to_string()));
}

#[test]
fn test_unhandled_messages_are_dropped() {
    let mut shard = test_shard();
    assert_eq!(shard.get_response_message("QUERY None None 1:2 SELECT 1;\n"), None);
    assert_eq!(shard.get_response_message("AGREED 0.5 t:1 None None\n"), None);
    assert_eq!(shard.get_response_message("not a message"), None);
    assert_eq!(shard.get_response_message(""), None);
}

#[test]
fn test_update_with_refreshes_both() {
    let mut shard = test_shard();
    shard.update_with(1000, 900, vec![("test_table".to_string(), 9), ("other".to_string(), 2)]);
    let reply = shard.get_response_message("ASK_MEMORY_UPDATE None None None None\n");
    assert_eq!(reply, Some("MEMORY_UPDATE 88.88 test_table:9,other:2 None None\n".to_string()));
}

#[test]
fn test_init_connection_without_sender_is_dropped() {
    let mut shard = test_shard();
    assert_eq!(shard.get_response_message("INIT_CONNECTION None None None None\n"), None);
    assert!(shard.router_info.is_none());
}

#[test]
fn test_set_max_ids_rebuilds_snapshot() {
    let mut shard = test_shard();
    shard.set_max_ids(vec![("other".to_string(), 2)]);
    // The earlier test_table entry is gone: the snapshot's keys are
    // exactly the scanned tables.
    let reply = shard.get_response_message("ASK_MEMORY_UPDATE None None None None\n");
    assert_eq!(reply, Some("MEMORY_UPDATE 44.44 other:2 None None\n".to_string()));
}
