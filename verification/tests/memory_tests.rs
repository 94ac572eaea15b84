use sharding::memory_manager::{MemoryManager, compute_available_pct};

#[test]
fn test_get_available_memory_percentage() {
    let unavailable_memory_perc = 0;
    let available_memory_perc = MemoryManager::get_available_memory_percentage(
        unavailable_memory_perc,
    );
    assert_eq!(available_memory_perc.is_some(), true);
}

#[test]
fn test_get_available_memory_percentage_threashold_is_total() {
    let unavailable_memory_perc = 10000;
    let available_memory_perc = MemoryManager::get_available_memory_percentage(
        unavailable_memory_perc,
    )
        .unwrap();
    assert_eq!(available_memory_perc, 0);
}

#[test]
fn test_compute_available_pct_exact() {
    // 10% reserved of 1000 bytes leaves 900; 400 of 500 free bytes
    // usable: 44.44%.
    assert_eq!(compute_available_pct(1000, 1000, 500), 4444);
    // No reservation, half free: 50%.
    assert_eq!(compute_available_pct(0, 1000, 500), 5000);
    // Full reservation always advertises zero.
    assert_eq!(compute_available_pct(10000, 1000, 1000), 0);
    // A reservation exceeding the free space advertises zero.
    assert_eq!(compute_available_pct(9000, 100, 5), 0);
    // The result clamps at a full hundred percent.
    assert_eq!(compute_available_pct(0, 100, 200), 10000);
    // An empty disk advertises zero.
    assert_eq!(compute_available_pct(500, 0, 0), 0);
}

#[test]
fn test_memory_manager_update_with() {
    let mut m = MemoryManager::new(1000, 1000, 500);
    assert_eq!(m.available_memory_perc, 4444);
    m.update_with(1000, 900);
    assert_eq!(m.available_memory_perc, 8888);
    assert_eq!(m.unavailable_memory_perc, 1000);
}
