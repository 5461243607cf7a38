use hunt_core::model::{Challenge, CoreError, User};
use hunt_core::store::Store;
use hunt_core::submission::MediaKind;

fn seeded_store() -> Store {
    let mut s = Store::new();
    s.challenges.push(Challenge {
        name: "photo_safety".to_string(),
        short_name: "Safety".to_string(),
    });
    s.challenges.push(Challenge {
        name: "group_jump".to_string(),
        short_name: "Jump".to_string(),
    });
    s
}

#[test]
fn join_team_rejects_blank_names() {
    let mut s = Store::new();
    assert_eq!(
        s.join_team(7, "".to_string(), None, "Pia".to_string(), None),
        Err(CoreError::EmptyInput)
    );
    assert_eq!(
        s.join_team(7, "  \t ".to_string(), None, "Pia".to_string(), None),
        Err(CoreError::EmptyInput)
    );
    assert_eq!(s.users.len(), 0);
}

#[test]
fn join_team_rebinds_only_the_team() {
    let mut s = Store::new();
    s.join_team(
        7,
        "Falcons".to_string(),
        Some("pia".to_string()),
        "Pia".to_string(),
        None,
    )
    .unwrap();
    // a later join from the same participant, now under another display name,
    // moves the binding but keeps the display fields as first recorded
    s.join_team(7, "Eagles".to_string(), None, "P.".to_string(), None)
        .unwrap();
    assert_eq!(s.users.len(), 1);
    assert_eq!(s.users[0].team, "Eagles");
    assert_eq!(s.users[0].username, Some("pia".to_string()));
    assert_eq!(s.users[0].first_name, "Pia");
}

#[test]
fn team_overview_lists_the_members() {
    let mut s = Store::new();
    s.join_team(1, "Falcons".to_string(), None, "A".to_string(), None)
        .unwrap();
    s.join_team(2, "Eagles".to_string(), None, "B".to_string(), None)
        .unwrap();
    s.join_team(3, "Falcons".to_string(), None, "C".to_string(), None)
        .unwrap();
    let (team, members) = s.team_overview(1).unwrap();
    assert_eq!(team.team, "Falcons");
    assert_eq!(team.count, 2);
    let ids: Vec<i64> = members.iter().map(|u| u.id).collect();
    assert_eq!(ids, vec![1, 3]);
    assert!(matches!(s.team_overview(99), Err(CoreError::NotRegistered)));
}

#[test]
fn list_teams_counts_members() {
    let mut s = Store::new();
    s.join_team(1, "Falcons".to_string(), None, "A".to_string(), None)
        .unwrap();
    s.join_team(2, "Eagles".to_string(), None, "B".to_string(), None)
        .unwrap();
    s.join_team(3, "Falcons".to_string(), None, "C".to_string(), None)
        .unwrap();
    let teams = s.list_teams();
    let rows: Vec<(String, i64)> = teams.iter().map(|t| (t.to_string(), t.count)).collect();
    assert_eq!(
        rows,
        vec![("Falcons".to_string(), 2), ("Eagles".to_string(), 1)]
    );
}

/// The full story: a participant joins, submits, the submission is judged
/// valid, then overwritten as invalid, and the leaderboard follows.
#[test]
fn scenario_submit_judge_rejudge() {
    let mut s = seeded_store();
    s.join_team(
        7,
        "Falcons".to_string(),
        Some("pia".to_string()),
        "Pia".to_string(),
        None,
    )
    .unwrap();

    let out = s
        .submit(
            7,
            100,
            MediaKind::Photo,
            "sunset".to_string(),
            "2024-11-20T10:00:00".to_string(),
        )
        .unwrap();
    assert_eq!(s.submissions.len(), 1);
    assert_eq!(s.submissions[0].team, "Falcons");
    // every challenge is still open to the team
    assert_eq!(out.remaining.len(), 2);

    let judged = s.judge(100, "photo_safety".to_string()).unwrap();
    assert_eq!(judged.points, 1);
    assert!(judged.valid);
    let board = s.leaderboard();
    assert_eq!(board.len(), 1);
    assert_eq!(board[0].team, "Falcons");
    assert_eq!(board[0].score, 1);

    // the maintainer overwrites the decision: last write wins
    let rejudged = s.judge(100, "___invalid".to_string()).unwrap();
    assert_eq!(rejudged.points, 0);
    assert!(!rejudged.valid);
    assert_eq!(s.judgements.len(), 1);
    let board = s.leaderboard();
    assert_eq!(board.len(), 1);
    assert_eq!(board[0].team, "Falcons");
    assert_eq!(board[0].score, 0);
}

/// Changing teams never rewrites a stored submission, but it does move the
/// participant's points to the new team on the next rollup.
#[test]
fn frozen_team_name_and_live_attribution() {
    let mut s = seeded_store();
    s.join_team(7, "Falcons".to_string(), None, "Pia".to_string(), None)
        .unwrap();
    s.submit(
        7,
        100,
        MediaKind::Photo,
        "sunset".to_string(),
        "2024-11-20T10:00:00".to_string(),
    )
    .unwrap();
    s.judge(100, "photo_safety".to_string()).unwrap();

    s.join_team(7, "Eagles".to_string(), None, "Pia".to_string(), None)
        .unwrap();
    // the stored row keeps the team name it was submitted under
    assert_eq!(s.submissions[0].team, "Falcons");
    // but the live rollups follow the new binding
    let board = s.leaderboard();
    assert_eq!(board.len(), 1);
    assert_eq!(board[0].team, "Eagles");
    assert_eq!(board[0].score, 1);
    let ps = s.participant_score(7).unwrap();
    assert_eq!(ps.total, 1);
    assert_eq!(ps.submission_count, 1);
    assert_eq!(ps.entries.len(), 1);
    assert_eq!(ps.entries[0].challenge_name, "photo_safety");
}

#[test]
fn leaderboard_orders_by_descending_score() {
    let mut s = seeded_store();
    s.join_team(1, "Falcons".to_string(), None, "A".to_string(), None)
        .unwrap();
    s.join_team(2, "Eagles".to_string(), None, "B".to_string(), None)
        .unwrap();
    s.join_team(3, "Owls".to_string(), None, "C".to_string(), None)
        .unwrap();
    s.submit(2, 200, MediaKind::Photo, "a".to_string(), "t".to_string())
        .unwrap();
    s.submit(2, 201, MediaKind::Photo, "b".to_string(), "t".to_string())
        .unwrap();
    s.submit(3, 300, MediaKind::Photo, "c".to_string(), "t".to_string())
        .unwrap();
    s.judge(200, "photo_safety".to_string()).unwrap();
    s.judge(201, "group_jump".to_string()).unwrap();
    s.judge(300, "photo_safety".to_string()).unwrap();
    let board = s.leaderboard();
    let rows: Vec<(String, i64)> = board.iter().map(|t| (t.team.clone(), t.score)).collect();
    assert_eq!(rows[0], ("Eagles".to_string(), 2));
    assert_eq!(rows[1], ("Owls".to_string(), 1));
    assert_eq!(rows[2], ("Falcons".to_string(), 0));
}

#[test]
fn participant_score_is_rejected_without_binding() {
    let s = Store::new();
    assert!(matches!(
        s.participant_score(7),
        Err(CoreError::NotRegistered)
    ));
}

#[test]
fn user_display_forms() {
    let full = User {
        id: 1,
        team: "Falcons".to_string(),
        username: Some("pia".to_string()),
        first_name: "Pia".to_string(),
        last_name: Some("Lund".to_string()),
    };
    assert_eq!(full.to_string(), "Pia Lund @pia");
    let bare = User {
        id: 2,
        team: "Falcons".to_string(),
        username: None,
        first_name: "Pia".to_string(),
        last_name: None,
    };
    assert_eq!(bare.to_string(), "Pia");
}
