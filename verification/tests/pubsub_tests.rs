use livets_core::PubSubSystem;

#[test]
fn test_subscribe_and_broadcast() {
    let mut pubsub = PubSubSystem::new();
    let channel = "test-channel".to_string();
    let component = "test-component".to_string();

    // Subscribe
    pubsub.subscribe(&channel, &component).unwrap();
    assert!(pubsub.is_subscribed(&channel, &component));

    // Broadcast
    pubsub.broadcast(&channel, "test message".to_string()).unwrap();

    // Check stats
    let stats = pubsub.get_stats();
    assert_eq!(stats.total_channels, 1);
    assert_eq!(stats.total_subscriptions, 1);
    assert_eq!(stats.active_components, 1);
}

#[test]
fn test_unsubscribe() {
    let mut pubsub = PubSubSystem::new();
    let channel = "test-channel".to_string();
    let component = "test-component".to_string();

    // Subscribe then unsubscribe
    pubsub.subscribe(&channel, &component).unwrap();
    pubsub.unsubscribe(&channel, &component).unwrap();

    assert!(!pubsub.is_subscribed(&channel, &component));
    assert!(!pubsub.channel_exists(&channel));
}

#[test]
fn test_unsubscribe_all() {
    let mut pubsub = PubSubSystem::new();
    let component = "test-component".to_string();

    // Subscribe to multiple channels
    pubsub.subscribe(&"channel1".to_string(), &component).unwrap();
    pubsub.subscribe(&"channel2".to_string(), &component).unwrap();

    // Unsubscribe from all
    pubsub.unsubscribe_all(&component).unwrap();

    assert_eq!(pubsub.get_component_channels(&component).len(), 0);
    assert_eq!(pubsub.get_stats().active_components, 0);
}

#[test]
fn test_fanout_and_teardown() {
    let mut pubsub = PubSubSystem::new();

    pubsub.subscribe("ch1", "c1").unwrap();
    pubsub.subscribe("ch1", "c2").unwrap();

    let mut subscribers = pubsub.get_subscribers("ch1");
    subscribers.sort();
    assert_eq!(subscribers, vec!["c1".to_string(), "c2".to_string()]);

    // Broadcasting reaches every live receiver of the channel's topic.
    let mut rx1 = pubsub.create_receiver("ch1").expect("channel must exist");
    let mut rx2 = pubsub.create_receiver("ch1").expect("channel must exist");
    pubsub.broadcast("ch1", "hello".to_string()).unwrap();
    assert_eq!(rx1.try_recv().unwrap(), "hello".to_string());
    assert_eq!(rx2.try_recv().unwrap(), "hello".to_string());

    // Dropping one subscriber keeps the channel alive.
    pubsub.unsubscribe("ch1", "c1").unwrap();
    assert!(pubsub.channel_exists("ch1"));
    assert_eq!(pubsub.get_subscribers("ch1"), vec!["c2".to_string()]);

    // Dropping the last subscriber tears the channel down.
    pubsub.unsubscribe("ch1", "c2").unwrap();
    assert!(!pubsub.channel_exists("ch1"));
    assert!(pubsub.create_receiver("ch1").is_none());
}

#[test]
fn test_broadcast_to_missing_channel_is_ok() {
    let pubsub = PubSubSystem::new();
    assert!(pubsub.broadcast("nowhere", "msg".to_string()).is_ok());
}

#[test]
fn test_subscribe_is_idempotent_per_pair() {
    let mut pubsub = PubSubSystem::new();
    pubsub.subscribe("ch1", "c1").unwrap();
    pubsub.subscribe("ch1", "c1").unwrap();
    assert_eq!(pubsub.get_subscribers("ch1"), vec!["c1".to_string()]);
    assert_eq!(pubsub.get_stats().total_subscriptions, 1);
}

#[test]
fn test_unsubscribe_all_spares_other_components() {
    let mut pubsub = PubSubSystem::new();
    pubsub.subscribe("ch1", "c1").unwrap();
    pubsub.subscribe("ch1", "c2").unwrap();
    pubsub.subscribe("ch2", "c1").unwrap();

    pubsub.unsubscribe_all("c1").unwrap();

    assert!(pubsub.channel_exists("ch1"));
    assert_eq!(pubsub.get_subscribers("ch1"), vec!["c2".to_string()]);
    assert!(!pubsub.channel_exists("ch2"));
    assert!(!pubsub.is_subscribed("ch1", "c1"));
}
