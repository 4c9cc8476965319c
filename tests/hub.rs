use face_catalog::hub::{notify_error, notify_face_deleted, WsManager, WsMessage, CHANNEL_CAPACITY};

fn deleted(m: Option<WsMessage>) -> Option<String> {
    match m {
        Some(WsMessage::FaceDeleted(id)) => Some(id),
        _ => None,
    }
}

#[test]
fn two_connections_receive_in_call_order() {
    let mut hub = WsManager::new();
    let a = hub.create_connection().unwrap();
    let b = hub.create_connection().unwrap();
    assert_ne!(a, b);
    notify_face_deleted(&mut hub, "one".to_string());
    notify_face_deleted(&mut hub, "two".to_string());
    assert_eq!(deleted(hub.receive(a)).as_deref(), Some("one"));
    assert_eq!(deleted(hub.receive(a)).as_deref(), Some("two"));
    assert_eq!(deleted(hub.receive(b)).as_deref(), Some("one"));
    assert_eq!(deleted(hub.receive(b)).as_deref(), Some("two"));
    hub.remove_connection(a);
    notify_face_deleted(&mut hub, "three".to_string());
    assert!(hub.receive(a).is_none());
    assert_eq!(deleted(hub.receive(b)).as_deref(), Some("three"));
    assert!(hub.receive(b).is_none());
}

#[test]
fn remove_connection_is_idempotent() {
    let mut hub = WsManager::new();
    let a = hub.create_connection().unwrap();
    hub.remove_connection(a);
    hub.remove_connection(a);
    hub.remove_connection(12345);
    let b = hub.create_connection().unwrap();
    assert_ne!(a, b);
    assert_eq!((a, b), (0, 1));
}

#[test]
fn full_queue_misses_events() {
    let mut hub = WsManager::new();
    let a = hub.create_connection().unwrap();
    for i in 0..CHANNEL_CAPACITY + 5 {
        notify_error(&mut hub, format!("e{}", i));
    }
    let mut n = 0;
    while let Some(m) = hub.receive(a) {
        if let WsMessage::Error(text) = m {
            assert_eq!(text, format!("e{}", n));
        }
        n += 1;
    }
    assert_eq!(n, CHANNEL_CAPACITY);
    notify_error(&mut hub, "late".to_string());
    assert!(matches!(hub.receive(a), Some(WsMessage::Error(t)) if t == "late"));
}
