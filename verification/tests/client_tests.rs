use sharding::client::{Client, evaluate_router_probe, extract_query_response};

#[test]
fn test_build_get_router_message() {
    assert_eq!(Client::build_get_router_message(), "GET_ROUTER None None None None\n");
}

#[test]
fn test_build_query_message_names_sender() {
    let client = Client::new("10.0.0.9", "9000");
    assert_eq!(
        client.build_query_message("SELECT * FROM test_table;"),
        "QUERY None None 10.0.0.9:9000 SELECT * FROM test_table;\n"
    );
}

#[test]
fn test_probe_reply_with_router() {
    let found = evaluate_router_probe("ROUTER_ID None None 127.0.0.1:5434 None\n").unwrap();
    assert_eq!(found.ip, "127.0.0.1");
    assert_eq!(found.port, "5434");
}

#[test]
fn test_probe_reply_without_router() {
    assert!(evaluate_router_probe("NO_ROUTER_DATA None None None None\n").is_none());
    assert!(evaluate_router_probe("DENIED None None None None\n").is_none());
    assert!(evaluate_router_probe("nonsense").is_none());
}

#[test]
fn test_extract_query_response() {
    assert_eq!(
        extract_query_response("QUERY_RESPONSE None None None it worked\n"),
        Some("it worked".to_string())
    );
    assert!(extract_query_response("AGREED 0.5 t:1 None None\n").is_none());
    assert!(extract_query_response("").is_none());
}
