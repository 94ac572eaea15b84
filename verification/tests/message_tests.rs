use sharding::common::FromString;
use sharding::message::{Message, MessageData, MessageType};
use sharding::node_info::NodeInfo;
use sharding::tables_id_info::TablesIdInfo;

#[test]
fn test_new_init_connection() {
    let node_info = NodeInfo { ip: "1".to_string(), port: "2".to_string() };
    let message = Message::new_init_connection(node_info.clone());
    assert_eq!(
        message,
        Message {
            message_type: MessageType::InitConnection,
            payload: None,
            max_ids: None,
            node_info: Some(node_info),
            query_data: None,
        }
    );
}

#[test]
fn test_new_ask_memory_update() {
    let message = Message::new_ask_memory_update();
    assert_eq!(
        message,
        Message {
            message_type: MessageType::AskMemoryUpdate,
            payload: None,
            max_ids: None,
            node_info: None,
            query_data: None,
        }
    );
}

#[test]
fn test_new_memory_update() {
    let max_ids = TablesIdInfo::from_string("employees:3,departments:5");
    let message = Message::new_memory_update(50, max_ids.clone());
    assert_eq!(
        message,
        Message {
            message_type: MessageType::MemoryUpdate,
            payload: Some(50),
            max_ids: Some(max_ids),
            node_info: None,
            query_data: None,
        }
    );
}

#[test]
fn test_new_agreed() {
    let max_ids = TablesIdInfo::from_string("employees:3,departments:5");
    let message = Message::new_agreed(50, max_ids.clone());
    assert_eq!(
        message,
        Message {
            message_type: MessageType::Agreed,
            payload: Some(50),
            max_ids: Some(max_ids),
            node_info: None,
            query_data: None,
        }
    );
}

#[test]
fn test_new_denied() {
    let message = Message::new_denied();
    assert_eq!(
        message,
        Message {
            message_type: MessageType::Denied,
            payload: None,
            max_ids: None,
            node_info: None,
            query_data: None,
        }
    );
}

#[test]
fn test_new_get_router() {
    let message = Message::new_get_router();
    assert_eq!(
        message,
        Message {
            message_type: MessageType::GetRouter,
            payload: None,
            max_ids: None,
            node_info: None,
            query_data: None,
        }
    );
}

#[test]
fn test_new_router_id() {
    let node_info = NodeInfo { ip: "1".to_string(), port: "2".to_string() };
    let message = Message::new_router_id(node_info.clone());
    assert_eq!(
        message,
        Message {
            message_type: MessageType::RouterId,
            payload: None,
            max_ids: None,
            node_info: Some(node_info),
            query_data: None,
        }
    );
}

#[test]
fn test_new_no_router_data() {
    let message = Message::new_no_router_data();
    assert_eq!(
        message,
        Message {
            message_type: MessageType::NoRouterData,
            payload: None,
            max_ids: None,
            node_info: None,
            query_data: None,
        }
    );
}

#[test]
fn test_new_query() {
    let message = Message::new_query(
        Some(NodeInfo { ip: "1".to_string(), port: "2".to_string() }),
        "SELECT * FROM table".to_string(),
    );
    assert_eq!(
        message,
        Message {
            message_type: MessageType::Query,
            payload: None,
            max_ids: None,
            node_info: None,
            query_data: Some("SELECT * FROM table".to_string()),
        }
    );
}

#[test]
fn test_get_data_payload() {
    let max_ids = TablesIdInfo::from_string("employees:3,departments:5");
    let message = Message {
        message_type: MessageType::MemoryUpdate,
        payload: Some(50),
        max_ids: Some(max_ids.clone()),
        node_info: None,
        query_data: None,
    };
    assert_eq!(message.get_data(), MessageData::new_payload(50, max_ids));
}

#[test]
fn test_get_data_node_info() {
    let node_info = NodeInfo { ip: "1".to_string(), port: "2".to_string() };
    let message = Message {
        message_type: MessageType::InitConnection,
        payload: None,
        max_ids: None,
        node_info: Some(node_info.clone()),
        query_data: None,
    };
    assert_eq!(message.get_data(), MessageData::new_node_info(node_info));
}

#[test]
fn test_get_data_query() {
    let message = Message {
        message_type: MessageType::Query,
        payload: None,
        max_ids: None,
        node_info: Some(NodeInfo { ip: "1".to_string(), port: "2".to_string() }),
        query_data: Some("SELECT * FROM table".to_string()),
    };
    assert_eq!(
        message.get_data(),
        MessageData::new_query(
            "SELECT * FROM table".to_string(),
            Some(NodeInfo { ip: "1".to_string(), port: "2".to_string() })
        )
    );
}

#[test]
fn test_get_data_none() {
    let message = Message {
        message_type: MessageType::InitConnection,
        payload: None,
        max_ids: None,
        node_info: None,
        query_data: None,
    };
    assert_eq!(message.get_data(), MessageData::new_none());
}

#[test]
fn message_test_message_to_string() {
    let max_ids = TablesIdInfo::from_string("employees:3,departments:5");
    let message = Message {
        message_type: MessageType::InitConnection,
        payload: Some(50),
        max_ids: Some(max_ids.clone()),
        node_info: None,
        query_data: None,
    };
    println!("-{}-", message.to_string());
    let options = [
        "INIT_CONNECTION 0.5 employees:3,departments:5 None None\n",
        "INIT_CONNECTION 0.5 departments:5,employees:3 None None\n",
    ];
    assert!(options.contains(&&message.to_string().as_str()));
}

#[test]
fn message_test_message_from_string() {
    let max_ids = TablesIdInfo::from_string("employees:3,departments:5");
    let message = Message {
        message_type: MessageType::InitConnection,
        payload: Some(50),
        max_ids: Some(max_ids.clone()),
        node_info: None,
        query_data: None,
    };
    let message_string = message.to_string();
    assert_eq!(Message::from_string(&message_string).unwrap(), message);
}

#[test]
fn test_message_from_string_with_node_info() {
    let node_info = NodeInfo { ip: "1".to_string(), port: "2".to_string() };
    let max_ids = TablesIdInfo::from_string("employees:3,departments:5");
    let message = Message {
        message_type: MessageType::InitConnection,
        payload: Some(50),
        max_ids: Some(max_ids.clone()),
        node_info: Some(node_info.clone()),
        query_data: None,
    };
    let message_string = message.to_string();
    assert_eq!(Message::from_string(&message_string).unwrap(), message);
}

#[test]
fn test_message_from_string_with_query() {
    let max_ids = TablesIdInfo::from_string("employees:3,departments:5");
    let message = Message {
        message_type: MessageType::Query,
        payload: Some(50),
        max_ids: Some(max_ids.clone()),
        node_info: Some(NodeInfo { ip: "1".to_string(), port: "2".to_string() }),
        query_data: Some("SELECT * FROM table".to_string()),
    };
    let message_string = message.to_string();
    assert_eq!(Message::from_string(&message_string).unwrap(), message);
}

#[test]
fn test_message_round_trip_all_fields() {
    let max_ids = TablesIdInfo::from_string("employees:3,departments:5");
    let message = Message::new_agreed(6250, max_ids.clone());
    let line = message.to_string();
    assert_eq!(line, "AGREED 62.5 employees:3,departments:5 None None\n");
    let decoded = Message::from_string(&line).unwrap();
    assert_eq!(decoded.message_type, MessageType::Agreed);
    assert_eq!(decoded.payload, Some(6250));
    assert_eq!(decoded.max_ids, Some(max_ids));
    assert!(decoded.node_info.is_none());
    assert!(decoded.query_data.is_none());
}

#[test]
fn test_message_round_trip_query() {
    let sender = NodeInfo { ip: "10.0.0.1".to_string(), port: "5433".to_string() };
    let message = Message::new_query(Some(sender), "SELECT * FROM test_table WHERE id = 7;".to_string());
    let line = message.to_string();
    assert_eq!(line, "QUERY None None 10.0.0.1:5433 SELECT * FROM test_table WHERE id = 7;\n");
    let decoded = Message::from_string(&line).unwrap();
    assert_eq!(decoded.message_type, MessageType::Query);
    assert_eq!(decoded.query_data, Some("SELECT * FROM test_table WHERE id = 7;".to_string()));
    let n = decoded.node_info.unwrap();
    assert_eq!(n.ip, "10.0.0.1");
    assert_eq!(n.port, "5433");
}

#[test]
fn test_message_from_string_unknown_type() {
    assert!(Message::from_string("HELLO None None None None\n").is_err());
}

#[test]
fn test_message_from_string_bad_payload() {
    assert!(Message::from_string("AGREED abc employees:3 None None\n").is_err());
    assert!(Message::from_string("AGREED 1e3 employees:3 None None\n").is_err());
}

#[test]
fn test_message_from_string_bad_max_ids() {
    assert!(Message::from_string("AGREED 0.5 employees None None\n").is_err());
    assert!(Message::from_string("AGREED 0.5 employees:abc None None\n").is_err());
}

#[test]
fn test_message_from_string_short_line() {
    let decoded = Message::from_string("DENIED\n").unwrap();
    assert_eq!(decoded.message_type, MessageType::Denied);
    assert!(decoded.payload.is_none());
    assert!(decoded.max_ids.is_none());
    assert!(decoded.node_info.is_none());
    assert!(decoded.query_data.is_none());
}

#[test]
fn test_message_data_payload() {
    let mut max_ids = TablesIdInfo::new();
    max_ids.insert("employees".to_string(), 3);
    max_ids.insert("departments".to_string(), 5);
    let message_data = MessageData::new_payload(100, max_ids);
    assert_eq!(message_data.to_string(), "1 employees:3,departments:5");
}

#[test]
fn test_message_data_node_info() {
    let node_info = NodeInfo { ip: "1".to_string(), port: "2".to_string() };
    let message_data = MessageData::new_node_info(node_info.clone());
    assert_eq!(message_data.to_string(), node_info.to_string());
}

#[test]
fn test_message_data_query() {
    let message_data = MessageData::new_query(
        "SELECT * FROM table;".to_string(),
        Some(NodeInfo { ip: "1".to_string(), port: "2".to_string() }),
    );
    assert_eq!(
        message_data.node_info,
        Some(NodeInfo { ip: "1".to_string(), port: "2".to_string() })
    );
    assert_eq!(message_data.query, Some("SELECT * FROM table;".to_string()));
}

#[test]
fn test_message_data_none() {
    let message_data = MessageData::new_none();
    assert_eq!(message_data.to_string(), "");
}

#[test]
fn test_message_from_string_enforces_size_limit() {
    let mut long_query = String::from("SELECT * FROM test_table WHERE name = '");
    long_query.push_str(&"x".repeat(1080));
    long_query.push('\'');
    let line = format!("QUERY None None 1:2 {}\n", long_query);
    assert!(line.len() > 1024);
    assert!(Message::from_string(&line).is_err());
    // The same shape within the limit decodes.
    let short = "QUERY None None 1:2 SELECT * FROM test_table;\n";
    assert!(Message::from_string(short).is_ok());
}
