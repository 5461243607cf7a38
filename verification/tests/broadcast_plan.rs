use hunt_core::broadcast::BroadcastDelivery;
use hunt_core::model::{CoreError, User};
use hunt_core::store::Store;

fn user(id: i64, team: &str) -> User {
    User {
        id,
        team: team.to_string(),
        username: None,
        first_name: format!("user{}", id),
        last_name: None,
    }
}

#[test]
fn empty_broadcast_is_rejected() {
    let s = Store::new();
    let r = s.plan_broadcast(1, &vec![1], &"".to_string());
    assert_eq!(r, Err(CoreError::EmptyInput));
}

#[test]
fn broadcast_skips_the_sender_and_flags_other_maintainers() {
    let mut s = Store::new();
    s.users.push(user(1, "Falcons")); // the sending maintainer
    s.users.push(user(2, "Falcons")); // another maintainer
    s.users.push(user(3, "Eagles")); // a participant
    let plan = s
        .plan_broadcast(1, &vec![1, 2], &"meet at noon".to_string())
        .unwrap();
    assert_eq!(
        plan,
        vec![
            BroadcastDelivery {
                recipient: 2,
                with_header: true
            },
            BroadcastDelivery {
                recipient: 3,
                with_header: false
            },
        ]
    );
}
