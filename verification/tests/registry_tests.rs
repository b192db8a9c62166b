use livets_core::{ConnectionManager, LiveTSError};

#[test]
fn test_connection_lifecycle() {
    let mut mgr = ConnectionManager::new();
    mgr.add_connection("conn-1".to_string()).unwrap();
    assert_eq!(mgr.connection_count(), 1);

    mgr.register_component("comp-a".to_string(), "conn-1".to_string()).unwrap();
    assert_eq!(mgr.component_count(), 1);
    assert_eq!(mgr.get_component_connections("comp-a"), vec!["conn-1".to_string()]);

    mgr.remove_connection("conn-1").unwrap();
    assert_eq!(mgr.connection_count(), 0);
    // The reverse index entry is pruned with its last connection.
    assert_eq!(mgr.component_count(), 0);
    assert_eq!(mgr.get_component_connections("comp-a").len(), 0);
}

#[test]
fn test_register_unknown_connection_fails() {
    let mut mgr = ConnectionManager::new();
    let r = mgr.register_component("comp-a".to_string(), "ghost".to_string());
    match r {
        Err(LiveTSError::ConnectionNotFound(id)) => assert_eq!(id, "ghost"),
        other => panic!("expected ConnectionNotFound, got {:?}", other),
    }
}

#[test]
fn test_unregister_prunes_empty_entries() {
    let mut mgr = ConnectionManager::new();
    mgr.add_connection("c1".to_string()).unwrap();
    mgr.add_connection("c2".to_string()).unwrap();
    mgr.register_component("shared".to_string(), "c1".to_string()).unwrap();
    mgr.register_component("shared".to_string(), "c2".to_string()).unwrap();

    mgr.unregister_component("shared", "c1").unwrap();
    assert_eq!(mgr.get_component_connections("shared"), vec!["c2".to_string()]);

    mgr.unregister_component("shared", "c2").unwrap();
    assert_eq!(mgr.component_count(), 0);
}

#[test]
fn test_send_requires_attached_sender() {
    let mut mgr = ConnectionManager::new();
    mgr.add_connection("c1".to_string()).unwrap();

    // Before the handshake completes there is no sink.
    match mgr.send_to_connection("c1", "hello") {
        Err(LiveTSError::WebSocketError(_)) => {}
        other => panic!("expected WebSocketError, got {:?}", other),
    }
    match mgr.send_to_connection("missing", "hello") {
        Err(LiveTSError::ConnectionNotFound(_)) => {}
        other => panic!("expected ConnectionNotFound, got {:?}", other),
    }

    let (tx, mut rx) = tokio::sync::mpsc::unbounded_channel::<String>();
    mgr.attach_sender("c1", tx).unwrap();
    mgr.send_to_connection("c1", "hello").unwrap();
    assert_eq!(rx.try_recv().unwrap(), "hello".to_string());
}

#[test]
fn test_broadcast_to_component_delivers_to_all() {
    let mut mgr = ConnectionManager::new();
    mgr.add_connection("c1".to_string()).unwrap();
    mgr.add_connection("c2".to_string()).unwrap();
    let (tx1, mut rx1) = tokio::sync::mpsc::unbounded_channel::<String>();
    let (tx2, mut rx2) = tokio::sync::mpsc::unbounded_channel::<String>();
    mgr.attach_sender("c1", tx1).unwrap();
    mgr.attach_sender("c2", tx2).unwrap();
    mgr.register_component("comp".to_string(), "c1".to_string()).unwrap();
    mgr.register_component("comp".to_string(), "c2".to_string()).unwrap();

    mgr.broadcast_to_component("comp", "patch!").unwrap();
    assert_eq!(rx1.try_recv().unwrap(), "patch!".to_string());
    assert_eq!(rx2.try_recv().unwrap(), "patch!".to_string());
}

#[test]
fn test_broadcast_survives_dead_connection() {
    let mut mgr = ConnectionManager::new();
    mgr.add_connection("dead".to_string()).unwrap();
    mgr.add_connection("live".to_string()).unwrap();
    let (tx_dead, rx_dead) = tokio::sync::mpsc::unbounded_channel::<String>();
    let (tx_live, mut rx_live) = tokio::sync::mpsc::unbounded_channel::<String>();
    mgr.attach_sender("dead", tx_dead).unwrap();
    mgr.attach_sender("live", tx_live).unwrap();
    mgr.register_component("comp".to_string(), "dead".to_string()).unwrap();
    mgr.register_component("comp".to_string(), "live".to_string()).unwrap();
    drop(rx_dead);

    // One dead recipient must not block delivery to the rest.
    mgr.broadcast_to_component("comp", "still works").unwrap();
    assert_eq!(rx_live.try_recv().unwrap(), "still works".to_string());
}

#[test]
fn test_update_ping_unknown_connection() {
    let mut mgr = ConnectionManager::new();
    assert!(mgr.update_ping("nobody").is_err());
    mgr.add_connection("c1".to_string()).unwrap();
    assert!(mgr.update_ping("c1").is_ok());
}
