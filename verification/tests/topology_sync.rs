use hunt_core::model::{Forum, User};
use hunt_core::store::Store;

fn user(id: i64, team: &str) -> User {
    User {
        id,
        team: team.to_string(),
        username: None,
        first_name: format!("user{}", id),
        last_name: None,
    }
}

#[test]
fn plan_creates_missing_and_closes_stale_channels() {
    let mut s = Store::new();
    s.users.push(user(1, "Falcons"));
    s.users.push(user(2, "Falcons"));
    s.users.push(user(3, "Eagles"));
    s.forums.push(Forum {
        id: 10,
        name: "Eagles".to_string(),
        open: true,
    });
    s.forums.push(Forum {
        id: 11,
        name: "Owls".to_string(),
        open: true,
    });
    s.forums.push(Forum {
        id: 12,
        name: "Ravens".to_string(),
        open: false,
    });
    let plan = s.reconcile_plan();
    assert_eq!(plan.to_create, vec!["Falcons".to_string()]);
    assert_eq!(plan.to_close, vec![11]);
}

#[test]
fn recording_outcomes_settles_the_topology() {
    let mut s = Store::new();
    s.users.push(user(1, "Falcons"));
    s.forums.push(Forum {
        id: 11,
        name: "Owls".to_string(),
        open: true,
    });
    let plan = s.reconcile_plan();
    assert_eq!(plan.to_create, vec!["Falcons".to_string()]);
    assert_eq!(plan.to_close, vec![11]);

    // the caller allocates a channel and closes the stale one, then records both
    s.record_forum_created(31, "Falcons".to_string());
    s.record_forum_closed(11);

    assert_eq!(s.lookup_channel(&"Falcons".to_string()), Some(31));
    assert_eq!(s.lookup_channel(&"Owls".to_string()), None);
    // entries are never deleted: the stale one is only flagged closed
    assert_eq!(s.forums.len(), 2);
    assert!(!s.forums[0].open);

    // a second pass finds nothing to do
    let plan = s.reconcile_plan();
    assert_eq!(plan.to_create.len(), 0);
    assert_eq!(plan.to_close.len(), 0);
}

#[test]
fn closing_is_idempotent() {
    let mut s = Store::new();
    s.forums.push(Forum {
        id: 11,
        name: "Owls".to_string(),
        open: true,
    });
    s.record_forum_closed(11);
    s.record_forum_closed(11);
    s.record_forum_closed(999);
    assert_eq!(s.forums.len(), 1);
    assert!(!s.forums[0].open);
    assert_eq!(s.forums[0].name, "Owls");
}

#[test]
fn at_most_one_open_entry_per_team() {
    let mut s = Store::new();
    s.users.push(user(1, "Falcons"));
    // an old, closed entry for the same name does not block a new channel
    s.forums.push(Forum {
        id: 11,
        name: "Falcons".to_string(),
        open: false,
    });
    let plan = s.reconcile_plan();
    assert_eq!(plan.to_create, vec!["Falcons".to_string()]);
    s.record_forum_created(31, "Falcons".to_string());
    let open: Vec<&Forum> = s
        .forums
        .iter()
        .filter(|f| f.open && f.name == "Falcons")
        .collect();
    assert_eq!(open.len(), 1);
    assert_eq!(open[0].id, 31);
    // and now the plan asks for nothing more
    assert_eq!(s.reconcile_plan().to_create.len(), 0);
}
