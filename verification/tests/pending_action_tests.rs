use http_management::http::{HttpMethod, Permission};
use http_management::pending_actions::{
    is_confirmed, queued_message, CancelOutcome, PendingAction, PendingActionRequest, PendingActionResponse,
    PendingActions, PendingRoute, QueueOutcome,
};
use std::time::Instant;

fn request(action_type: &str, target: &str, countdown: Option<u64>, confirmation: Option<&str>) -> PendingActionRequest {
    PendingActionRequest {
        action_type: action_type.into(),
        target: target.into(),
        description: None,
        countdown_secs: countdown,
        confirmation_name: confirmation.map(|s| s.into()),
    }
}

fn path(parts: &[&str]) -> Vec<String> {
    parts.iter().map(|s| s.to_string()).collect()
}

#[test]
fn routes_pending_action_requests() {
    assert!(matches!(PendingRoute::route(&path(&["actions", "pending"]), HttpMethod::Get), PendingRoute::List));
    assert!(matches!(PendingRoute::route(&path(&["actions"]), HttpMethod::Post), PendingRoute::Queue));
    match PendingRoute::route(&path(&["actions", "pending", "a%62c"]), HttpMethod::Delete) {
        PendingRoute::Cancel(id) => assert_eq!(id, "abc"),
        _ => panic!("expected a cancellation"),
    }
    assert!(matches!(PendingRoute::route(&path(&["actions", "other"]), HttpMethod::Get), PendingRoute::NotFound));
    assert!(matches!(PendingRoute::route(&path(&["actions", "", "x"]), HttpMethod::Delete), PendingRoute::NotFound));
    assert_eq!(PendingRoute::List.permission(), Some(Permission::LogsView));
    assert_eq!(PendingRoute::Queue.permission(), Some(Permission::Restart));
    assert_eq!(PendingRoute::NotFound.permission(), None);
}

#[test]
fn deleting_a_service_needs_its_name() {
    assert!(is_confirmed(&request("restart_container", "web", None, None)));
    assert!(!is_confirmed(&request("delete_service", "web", None, None)));
    assert!(!is_confirmed(&request("delete_service", "web", None, Some("Web"))));
    assert!(is_confirmed(&request("delete_service", "web", None, Some("web"))));
    assert!(is_confirmed(&request("delete_service", "", None, None)));
    let mut store = PendingActions::new();
    match store.queue(&request("delete_service", "web", None, Some("db"))) {
        QueueOutcome::ConfirmationRequired { expected } => assert_eq!(expected, "web"),
        _ => panic!("expected a refusal"),
    }
    assert!(store.list().is_empty());
}

#[test]
fn queued_action_is_listed_and_can_be_cancelled() {
    let mut store = PendingActions::new();
    let id = match store.queue(&request("restore", "backup-1", Some(60), None)) {
        QueueOutcome::Queued { id, action_type, target, countdown_secs } => {
            assert_eq!(action_type, "restore");
            assert_eq!(target, "backup-1");
            assert_eq!(countdown_secs, 60);
            id
        },
        _ => panic!("expected the action to be queued"),
    };
    let listed = store.list();
    assert_eq!(listed.len(), 1);
    assert_eq!(listed[0].id, id);
    assert_eq!(listed[0].status, "pending");
    assert!(listed[0].remaining_secs <= 60 && listed[0].remaining_secs >= 59);
    assert!(store.should_execute(&id));
    match store.cancel(&id) {
        CancelOutcome::Cancelled { action_type, target } => {
            assert_eq!(action_type, "restore");
            assert_eq!(target, "backup-1");
        },
        _ => panic!("expected a cancellation"),
    }
    assert!(!store.should_execute(&id));
    assert!(store.list().is_empty());
    assert!(matches!(store.cancel(&id), CancelOutcome::AlreadyCancelled));
    store.remove(&id);
    assert!(matches!(store.cancel(&id), CancelOutcome::NotFound));
}

#[test]
fn expired_action_cannot_be_cancelled() {
    let mut store = PendingActions::new();
    let id = match store.queue(&request("restart_container", "web", Some(0), None)) {
        QueueOutcome::Queued { id, .. } => id,
        _ => panic!("expected the action to be queued"),
    };
    assert_eq!(store.list()[0].status, "executing");
    assert!(matches!(store.cancel(&id), CancelOutcome::Expired));
    assert!(store.should_execute(&id));
}

#[test]
fn default_countdown_and_description() {
    let a = PendingAction::from_request("id1".into(), &request("remove_port", "8080", None, None), Instant::now());
    assert_eq!(a.countdown_secs, 5);
    assert_eq!(a.description, "remove_port on 8080");
    assert!(!a.cancelled);
    let mut described = request("remove_port", "8080", None, None);
    described.description = Some("drop it".into());
    let a = PendingAction::from_request("id1".into(), &described, Instant::now());
    assert_eq!(a.description, "drop it");
}

#[test]
fn cancelling_by_elapsed_time() {
    let mut a = PendingAction::from_request("id".into(), &request("restore", "t", Some(10), None), Instant::now());
    assert!(matches!(a.cancel_after(10), CancelOutcome::Expired));
    assert!(!a.cancelled);
    assert!(matches!(a.cancel_after(9), CancelOutcome::Cancelled { .. }));
    assert!(a.cancelled);
    assert!(matches!(a.cancel_after(0), CancelOutcome::AlreadyCancelled));
}

#[test]
fn listing_counts_down() {
    let a = PendingAction::from_request("id".into(), &request("restore", "t", Some(10), None), Instant::now());
    let r = PendingActionResponse::for_action(&a, 3);
    assert_eq!(r.remaining_secs, 7);
    assert_eq!(r.status, "pending");
    let r = PendingActionResponse::for_action(&a, 30);
    assert_eq!(r.remaining_secs, 0);
    assert_eq!(r.status, "executing");
}

#[test]
fn replaces_an_action_with_the_same_id() {
    let mut store = PendingActions::new();
    let now = Instant::now();
    store.insert(PendingAction::from_request("same".into(), &request("restore", "a", Some(100), None), now));
    store.insert(PendingAction::from_request("same".into(), &request("restore", "b", Some(100), None), now));
    let listed = store.list();
    assert_eq!(listed.len(), 1);
    assert_eq!(listed[0].target, "b");
}

#[test]
fn cancel_message() {
    assert_eq!(
        queued_message(5, "ab12"),
        "Action will execute in 5 seconds. DELETE /api/actions/pending/ab12 to cancel."
    );
}
