use mcp_gateway::numfmt::u128_to_hex32;
use mcp_gateway::rbac::Identity;
use mcp_gateway::session::endpoint_data;
use mcp_gateway::session::post_status;
use mcp_gateway::session::PostEventQuery;
use mcp_gateway::session::PostOutcome;
use mcp_gateway::session::SessionTable;
use mcp_gateway::session::QUEUE_CAPACITY;

fn anonymous() -> Identity {
    Identity::new(None, None)
}

#[test]
fn open_session_yields_a_32_hex_id() {
    let mut table = SessionTable::new();
    let id = table.open_session(anonymous()).expect("fresh table cannot collide");
    assert_eq!(id.len(), 32);
    assert!(id.chars().all(|c| c.is_ascii_hexdigit() && !c.is_ascii_uppercase()));
    let entry = table.get(&id).expect("registered");
    assert!(entry.live);
    assert_eq!(entry.inbound_len, 0);
}

#[test]
fn two_sessions_get_distinct_ids() {
    let mut table = SessionTable::new();
    let a = table.open_session(anonymous()).unwrap();
    let b = table.open_session(anonymous()).unwrap();
    assert_ne!(a, b);
    assert!(table.get(&a).is_some());
    assert!(table.get(&b).is_some());
}

#[test]
fn a_duplicate_id_is_rejected_as_a_collision() {
    let mut table = SessionTable::new();
    let id = u128_to_hex32(0xabcdef);
    assert!(table.register(id.clone(), anonymous()));
    assert!(!table.register(id.clone(), anonymous()));
    assert!(table.get(&id).is_some());
}

#[test]
fn post_to_an_unknown_session_is_404() {
    let mut table = SessionTable::new();
    let query = PostEventQuery { session_id: "ZZZ".to_string() };
    let outcome = table.post_event(&query.session_id);
    assert_eq!(outcome, PostOutcome::NotFound);
    assert_eq!(post_status(outcome), Some(404));
}

#[test]
fn post_after_disconnect_is_410() {
    let mut table = SessionTable::new();
    let id = table.open_session(anonymous()).unwrap();
    assert_eq!(table.post_event(&id), PostOutcome::Accepted);
    assert_eq!(post_status(PostOutcome::Accepted), Some(202));
    table.close(&id);
    let outcome = table.post_event(&id);
    assert_eq!(outcome, PostOutcome::Gone);
    assert_eq!(post_status(outcome), Some(410));
}

#[test]
fn post_after_removal_is_404() {
    let mut table = SessionTable::new();
    let id = table.open_session(anonymous()).unwrap();
    table.remove(&id);
    assert_eq!(table.post_event(&id), PostOutcome::NotFound);
    assert!(table.get(&id).is_none());
}

#[test]
fn a_full_queue_makes_the_post_wait_and_drops_nothing() {
    let mut table = SessionTable::new();
    let id = table.open_session(anonymous()).unwrap();
    for _ in 0..QUEUE_CAPACITY {
        assert_eq!(table.post_event(&id), PostOutcome::Accepted);
    }
    assert_eq!(table.post_event(&id), PostOutcome::Full);
    assert_eq!(post_status(PostOutcome::Full), None);
    assert_eq!(table.get(&id).unwrap().inbound_len, QUEUE_CAPACITY);
    assert!(table.consume_inbound(&id));
    assert_eq!(table.post_event(&id), PostOutcome::Accepted);
}

#[test]
fn the_worker_consumes_queued_frames_in_count() {
    let mut table = SessionTable::new();
    let id = table.open_session(anonymous()).unwrap();
    assert!(!table.consume_inbound(&id));
    assert_eq!(table.post_event(&id), PostOutcome::Accepted);
    assert_eq!(table.post_event(&id), PostOutcome::Accepted);
    assert_eq!(table.get(&id).unwrap().inbound_len, 2);
    assert!(table.consume_inbound(&id));
    assert!(table.consume_inbound(&id));
    assert!(!table.consume_inbound(&id));
}

#[test]
fn sessions_keep_their_identity() {
    let mut table = SessionTable::new();
    let who = Identity::new(
        Some(vec![("sub".to_string(), "alice".to_string())]),
        Some("10.0.0.9".to_string()),
    );
    let id = table.open_session(who).unwrap();
    let entry = table.get(&id).unwrap();
    assert_eq!(entry.who.peer.as_deref(), Some("10.0.0.9"));
    let claims = entry.who.claims.as_ref().unwrap();
    assert_eq!(claims[0].0, "sub");
    assert_eq!(claims[0].1, "alice");
}

#[test]
fn endpoint_event_carries_the_session_id() {
    assert_eq!(endpoint_data("0f0f"), "?sessionId=0f0f");
    let mut table = SessionTable::new();
    let id = table.open_session(anonymous()).unwrap();
    let data = endpoint_data(&id);
    assert_eq!(data, format!("?sessionId={id}"));
}
