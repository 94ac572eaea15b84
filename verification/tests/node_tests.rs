use sharding::control_port;
use sharding::node::{NodeInstance, NodeType};
use sharding::rows::{RowData, get_column_names, rows_convert_to_string, format_rows_with_offset};

#[test]
fn test_node_instance_new_and_change_role() {
    let mut node = NodeInstance::new(NodeType::Shard, "127.0.0.1".to_string(), "5433".to_string());
    assert_eq!(node.node_type, NodeType::Shard);
    node.change_role(NodeType::Router);
    assert_eq!(node.node_type, NodeType::Router);
    assert_eq!(node.ip, "127.0.0.1");
    assert_eq!(node.port, "5433");
}

#[test]
fn test_control_port_offset() {
    assert_eq!(control_port(5433), Some(6433));
    assert_eq!(control_port(u64::MAX), None);
}

#[test]
fn test_get_column_names() {
    let cols = vec!["id".to_string(), "name".to_string()];
    assert_eq!(get_column_names(&cols), "id | name | ");
}

#[test]
fn test_row_text() {
    let row = RowData {
        columns: vec!["id".to_string(), "name".to_string()],
        values: vec!["1".to_string(), "Alice".to_string()],
    };
    assert_eq!(row.convert_to_string(), "1 | Alice | ");
    assert_eq!(row.convert_to_string_with_offset(5), "6 | Alice | ");
}

#[test]
fn test_rows_text_with_header() {
    let rows = vec![
        RowData { columns: vec!["id".to_string()], values: vec!["1".to_string()] },
        RowData { columns: vec!["id".to_string()], values: vec!["2".to_string()] },
    ];
    assert_eq!(rows_convert_to_string(&rows), "id | \n1 | \n2 | \n");
    assert_eq!(rows_convert_to_string(&Vec::new()), "");
}

#[test]
fn test_format_rows_with_offset_rewrites_ids() {
    let group_a = vec![
        RowData { columns: vec!["id".to_string()], values: vec!["1".to_string()] },
        RowData { columns: vec!["id".to_string()], values: vec!["2".to_string()] },
    ];
    let group_b = vec![RowData { columns: vec!["id".to_string()], values: vec!["1".to_string()] }];
    let merged = format_rows_with_offset(vec![(group_a, 0), (group_b, 2)]);
    assert_eq!(merged, "id | \u{0}1 | \u{0}2 | \u{0}3 | \u{0}");
}
