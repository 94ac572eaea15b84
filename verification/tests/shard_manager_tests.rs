use sharding::shard_manager::ShardManager;
use sharding::tables_id_info::TablesIdInfo;

#[test]
fn test_shard_manager_init_empty() {
    let shard_manager = ShardManager::new();
    assert_eq!(shard_manager.peek(), None);
}

#[test]
fn test_shard_manager_add_shard() {
    let mut shard_manager = ShardManager::new();
    shard_manager.add_shard(100, "shard1".to_string());
    assert_eq!(shard_manager.peek(), Some("shard1".to_string()));
}

#[test]
fn test_shard_manager_add_multiple_shards_returns_max_shard() {
    let mut shard_manager = ShardManager::new();
    shard_manager.add_shard(100, "shard1".to_string());
    shard_manager.add_shard(200, "shard2".to_string());
    shard_manager.add_shard(300, "shard3".to_string());
    shard_manager.add_shard(400, "shard4".to_string());
    shard_manager.add_shard(500, "shard5".to_string());

    assert_eq!(shard_manager.peek(), Some("shard5".to_string()));
}

#[test]
fn test_shard_manager_update_shard_memory_new_top() {
    let mut shard_manager = ShardManager::new();
    shard_manager.add_shard(100, "shard1".to_string());
    shard_manager.add_shard(200, "shard2".to_string());
    shard_manager.add_shard(300, "shard3".to_string());
    shard_manager.add_shard(400, "shard4".to_string());
    shard_manager.add_shard(500, "shard5".to_string());

    shard_manager.update_shard_memory(1000, "shard3".to_string());

    assert_eq!(shard_manager.peek(), Some("shard3".to_string()));
}

#[test]
fn test_shard_manager_update_shard_memory_from_top() {
    let mut shard_manager = ShardManager::new();
    shard_manager.add_shard(100, "shard1".to_string());
    shard_manager.add_shard(200, "shard2".to_string());
    shard_manager.add_shard(300, "shard3".to_string());
    shard_manager.add_shard(400, "shard4".to_string());
    shard_manager.add_shard(500, "shard5".to_string());

    shard_manager.update_shard_memory(0, "shard5".to_string());

    assert_eq!(shard_manager.peek(), Some("shard4".to_string()));
}

#[test]
fn test_shard_manager_update_shard_memory_from_top_and_pop() {
    let mut shard_manager = ShardManager::new();
    shard_manager.add_shard(100, "shard1".to_string());
    shard_manager.add_shard(200, "shard2".to_string());
    shard_manager.add_shard(300, "shard3".to_string());
    shard_manager.add_shard(400, "shard4".to_string());
    shard_manager.add_shard(500, "shard5".to_string());

    shard_manager.update_shard_memory(0, "shard5".to_string());
    shard_manager.pop();

    assert_eq!(shard_manager.peek(), Some("shard3".to_string()));
}

#[test]
fn test_shard_manager_pop() {
    let mut shard_manager = ShardManager::new();
    shard_manager.add_shard(100, "shard1".to_string());
    shard_manager.add_shard(200, "shard2".to_string());
    shard_manager.add_shard(300, "shard3".to_string());
    shard_manager.add_shard(400, "shard4".to_string());
    shard_manager.add_shard(500, "shard5".to_string());

    shard_manager.pop();
    assert_eq!(shard_manager.peek(), Some("shard4".to_string()));
}

#[test]
fn test_shard_manager_peek_tie_goes_to_first_inserted() {
    let mut shard_manager = ShardManager::new();
    shard_manager.add_shard(300, "a".to_string());
    shard_manager.add_shard(300, "b".to_string());
    assert_eq!(shard_manager.peek(), Some("a".to_string()));
}

#[test]
fn test_shard_manager_update_without_prior_entry_adds() {
    let mut shard_manager = ShardManager::new();
    shard_manager.update_shard_memory(700, "fresh".to_string());
    assert_eq!(shard_manager.peek(), Some("fresh".to_string()));
}

#[test]
fn test_shard_manager_max_ids_lookup() {
    let mut shard_manager = ShardManager::new();
    let mut t = TablesIdInfo::new();
    t.insert("test_table".to_string(), 5);
    shard_manager.save_max_ids_for_shard("5433".to_string(), t);
    assert_eq!(shard_manager.get_max_ids_for_shard_table("5433", "test_table"), Some(5));
    assert_eq!(shard_manager.get_max_ids_for_shard_table("5433", "other"), None);
    assert_eq!(shard_manager.get_max_ids_for_shard_table("5434", "test_table"), None);

    let mut t2 = TablesIdInfo::new();
    t2.insert("test_table".to_string(), 9);
    shard_manager.save_max_ids_for_shard("5433".to_string(), t2);
    assert_eq!(shard_manager.get_max_ids_for_shard_table("5433", "test_table"), Some(9));
}
