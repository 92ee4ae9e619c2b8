use ever_subscription::config::NodeConfig;
use ever_subscription::config::NodeConfigError;
use ever_subscription::config::SocketAddrParts;
use ever_subscription::config::parse_socket_addr_v4;

fn object(fields: Vec<(&str, serde_json::Value)>) -> serde_json::Value {
    let mut map = serde_json::Map::new();
    for (k, v) in fields {
        map.insert(k.to_string(), v);
    }
    serde_json::Value::Object(map)
}

#[test]
fn parse_socket_addr_accepts_well_formed_addresses() {
    assert_eq!(
        parse_socket_addr_v4(b"1.2.3.4:80"),
        Some(SocketAddrParts { a: 1, b: 2, c: 3, d: 4, port: 80 })
    );
    assert_eq!(
        parse_socket_addr_v4(b"255.255.255.255:65535"),
        Some(SocketAddrParts { a: 255, b: 255, c: 255, d: 255, port: 65535 })
    );
    assert_eq!(
        parse_socket_addr_v4(b"0.0.0.0:0"),
        Some(SocketAddrParts { a: 0, b: 0, c: 0, d: 0, port: 0 })
    );
    // Ports may carry leading zeros; octets may not.
    assert_eq!(
        parse_socket_addr_v4(b"10.0.0.1:0080"),
        Some(SocketAddrParts { a: 10, b: 0, c: 0, d: 1, port: 80 })
    );
}

#[test]
fn parse_socket_addr_rejects_malformed_addresses() {
    assert_eq!(parse_socket_addr_v4(b""), None);
    assert_eq!(parse_socket_addr_v4(b"1.2.3.4"), None);
    assert_eq!(parse_socket_addr_v4(b"1.2.3:80"), None);
    assert_eq!(parse_socket_addr_v4(b"1.2.3.4.5:80"), None);
    assert_eq!(parse_socket_addr_v4(b"256.1.1.1:80"), None);
    assert_eq!(parse_socket_addr_v4(b"01.2.3.4:80"), None);
    assert_eq!(parse_socket_addr_v4(b"1.2.3.4:65536"), None);
    assert_eq!(parse_socket_addr_v4(b"1.2.3.4:"), None);
    assert_eq!(parse_socket_addr_v4(b"a.2.3.4:80"), None);
    assert_eq!(parse_socket_addr_v4(b"1.2.3.4:8x"), None);
    assert_eq!(parse_socket_addr_v4(b" 1.2.3.4:80"), None);
}

#[test]
fn suggested_adnl_port_comes_from_ip_address() {
    let config = NodeConfig::from_value(object(vec![(
        "ip_address",
        serde_json::Value::String("10.1.2.3:30303".to_string()),
    )]));
    assert_eq!(config.get_suggested_adnl_port(), Some(30303));

    let missing = NodeConfig::from_value(object(vec![]));
    assert_eq!(missing.get_suggested_adnl_port(), None);

    let not_a_string = NodeConfig::from_value(object(vec![(
        "ip_address",
        serde_json::Value::from(42u64),
    )]));
    assert_eq!(not_a_string.get_suggested_adnl_port(), None);

    let malformed = NodeConfig::from_value(object(vec![(
        "ip_address",
        serde_json::Value::String("not an address".to_string()),
    )]));
    assert_eq!(malformed.get_suggested_adnl_port(), None);
}

#[test]
fn suggested_control_port_comes_from_number() {
    let config = NodeConfig::from_value(object(vec![(
        "control_server_port",
        serde_json::Value::from(4925u64),
    )]));
    assert_eq!(config.get_suggested_control_port(), Some(4925));

    let too_big = NodeConfig::from_value(object(vec![(
        "control_server_port",
        serde_json::Value::from(70000u64),
    )]));
    assert_eq!(too_big.get_suggested_control_port(), None);

    let not_a_number = NodeConfig::from_value(object(vec![(
        "control_server_port",
        serde_json::Value::String("4925".to_string()),
    )]));
    assert_eq!(not_a_number.get_suggested_control_port(), None);
}

#[test]
fn set_field_preserves_unknown_fields() {
    let mut config = NodeConfig::from_value(object(vec![
        ("ip_address", serde_json::Value::String("1.2.3.4:1:".to_string())),
        ("someone_elses_setting", serde_json::Value::from(7u64)),
    ]));
    let replacement = object(vec![("address", serde_json::Value::String("0.0.0.0:1".to_string()))]);
    assert!(config.set_field("control_server", replacement.clone()).is_ok());
    let doc = config.as_value();
    assert_eq!(doc.get("control_server"), Some(&replacement));
    assert_eq!(doc.get("someone_elses_setting"), Some(&serde_json::Value::from(7u64)));
    assert_eq!(
        doc.get("ip_address"),
        Some(&serde_json::Value::String("1.2.3.4:1:".to_string()))
    );
}

#[test]
fn set_field_rejects_non_objects() {
    let mut config = NodeConfig::from_value(serde_json::Value::Null);
    assert_eq!(
        config.set_field("adnl_node", serde_json::Value::Null),
        Err(NodeConfigError::InvalidConfig)
    );
    assert_eq!(*config.as_value(), serde_json::Value::Null);
}

#[test]
fn node_config_load_store_load_round_trip() {
    // A document with recognized and unknown fields alike: reading it,
    // rendering it, and reading it again yields the same values, and
    // the unknown fields survive an edit untouched.
    let text = "{\"ip_address\":\"10.1.2.3:30303\",\"unknown_section\":{\"nested\":[1,2,3]},\"control_server_port\":4925}";
    let loaded: serde_json::Value = serde_json::from_str(text).unwrap();
    let stored = serde_json::to_string_pretty(&loaded).unwrap();
    let reloaded: serde_json::Value = serde_json::from_str(&stored).unwrap();
    assert_eq!(loaded, reloaded);

    let mut config = NodeConfig::from_value(reloaded);
    assert_eq!(config.get_suggested_adnl_port(), Some(30303));
    assert_eq!(config.get_suggested_control_port(), Some(4925));
    assert!(config.set_field("control_server_port", serde_json::Value::from(1u64)).is_ok());
    let stored_again = serde_json::to_string(config.as_value()).unwrap();
    let reread: serde_json::Value = serde_json::from_str(&stored_again).unwrap();
    assert_eq!(reread.get("unknown_section"), loaded.get("unknown_section"));
    assert_eq!(reread.get("ip_address"), loaded.get("ip_address"));
    assert_eq!(reread.get("control_server_port"), Some(&serde_json::Value::from(1u64)));
}

#[test]
fn adnl_and_control_sections_round_trip() {
    let mut config = NodeConfig::from_value(object(vec![(
        "keep_me",
        serde_json::Value::Bool(true),
    )]));
    assert_eq!(config.get_adnl_node(), None);
    let adnl = object(vec![("ip_address", serde_json::Value::String("1.2.3.4:30303".to_string()))]);
    assert!(config.set_adnl_node(adnl.clone()).is_ok());
    assert_eq!(config.get_adnl_node(), Some(adnl));

    assert_eq!(config.get_control_server(), None);
    let control = object(vec![("address", serde_json::Value::String("127.0.0.1:4925".to_string()))]);
    assert!(config.set_control_server(control.clone()).is_ok());
    assert_eq!(config.get_control_server(), Some(control));

    // The unrelated field survived both edits.
    assert_eq!(config.as_value().get("keep_me"), Some(&serde_json::Value::Bool(true)));
}
