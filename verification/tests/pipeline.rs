use hunt_core::model::{Challenge, CoreError, Forum, Judgement, Submission, User};
use hunt_core::store::Store;
use hunt_core::submission::MediaKind;

fn seeded_store() -> Store {
    let mut s = Store::new();
    s.users.push(User {
        id: 7,
        team: "Falcons".to_string(),
        username: Some("pia".to_string()),
        first_name: "Pia".to_string(),
        last_name: Some("Lund".to_string()),
    });
    s.challenges.push(Challenge {
        name: "photo_safety".to_string(),
        short_name: "Safety".to_string(),
    });
    s.challenges.push(Challenge {
        name: "group_jump".to_string(),
        short_name: "Jump".to_string(),
    });
    s
}

#[test]
fn submit_with_flag_off_is_rejected_and_stores_nothing() {
    let mut s = seeded_store();
    s.set_submissions_enabled(false);
    let r = s.submit(
        7,
        100,
        MediaKind::Photo,
        "sunset".to_string(),
        "2024-11-20T10:00:00".to_string(),
    );
    assert!(matches!(r, Err(CoreError::SubmissionsDisabled)));
    assert_eq!(s.submissions.len(), 0);
}

#[test]
fn submit_without_team_binding_is_rejected() {
    let mut s = seeded_store();
    let r = s.submit(
        99,
        100,
        MediaKind::Photo,
        "sunset".to_string(),
        "2024-11-20T10:00:00".to_string(),
    );
    assert!(matches!(r, Err(CoreError::NotRegistered)));
    assert_eq!(s.submissions.len(), 0);
}

#[test]
fn submit_freezes_team_and_joins_the_record() {
    let mut s = seeded_store();
    s.forums.push(Forum {
        id: 31,
        name: "Falcons".to_string(),
        open: true,
    });
    let out = s
        .submit(
            7,
            100,
            MediaKind::Video,
            "sunset".to_string(),
            "2024-11-20T10:00:00".to_string(),
        )
        .unwrap();
    assert_eq!(s.submissions.len(), 1);
    let row = &s.submissions[0];
    assert_eq!(row.message_id, 100);
    assert_eq!(row.team, "Falcons");
    assert_eq!(row.user, 7);
    assert_eq!(row.caption, "sunset");
    assert_eq!(row.media_kind, 1);

    assert_eq!(out.record.message_id, 100);
    assert_eq!(out.record.team, "Falcons");
    assert_eq!(out.record.username, Some("pia".to_string()));
    assert_eq!(out.record.first_name, "Pia");
    assert_eq!(out.record.last_name, Some("Lund".to_string()));
    assert_eq!(out.record.forum_id, Some(31));
    // no judgement yet: every catalog challenge is still open to the team
    let names: Vec<&str> = out.remaining.iter().map(|c| c.name.as_str()).collect();
    assert_eq!(names, vec!["photo_safety", "group_jump"]);
}

#[test]
fn submit_routes_unthreaded_without_open_channel() {
    let mut s = seeded_store();
    s.forums.push(Forum {
        id: 31,
        name: "Falcons".to_string(),
        open: false,
    });
    let out = s
        .submit(
            7,
            100,
            MediaKind::Photo,
            "".to_string(),
            "2024-11-20T10:00:00".to_string(),
        )
        .unwrap();
    assert_eq!(out.record.forum_id, None);
}

#[test]
fn remaining_excludes_valid_but_keeps_invalid_attempts() {
    let mut s = seeded_store();
    s.submissions.push(Submission {
        message_id: 100,
        team: "Falcons".to_string(),
        user: 7,
        date: "2024-11-20T10:00:00".to_string(),
        caption: "one".to_string(),
        media_kind: 0,
    });
    s.submissions.push(Submission {
        message_id: 101,
        team: "Falcons".to_string(),
        user: 7,
        date: "2024-11-20T10:05:00".to_string(),
        caption: "two".to_string(),
        media_kind: 0,
    });
    // a valid judgement for photo_safety, an invalid one for group_jump
    s.judgements.push(Judgement {
        submission_id: 100,
        challenge_name: "photo_safety".to_string(),
        points: 1,
        valid: true,
    });
    s.judgements.push(Judgement {
        submission_id: 101,
        challenge_name: "group_jump".to_string(),
        points: 0,
        valid: false,
    });
    let remaining = s.remaining_challenges(&"Falcons".to_string());
    let names: Vec<&str> = remaining.iter().map(|c| c.name.as_str()).collect();
    assert_eq!(names, vec!["group_jump"]);

    // another team is unaffected by Falcons' judgements
    let remaining = s.remaining_challenges(&"Eagles".to_string());
    assert_eq!(remaining.len(), 2);
}

#[test]
fn submission_message_renders_the_report_line() {
    let mut s = seeded_store();
    let out = s
        .submit(
            7,
            100,
            MediaKind::Photo,
            "sunset".to_string(),
            "2024-11-20T10:00:00".to_string(),
        )
        .unwrap();
    let text = hunt_core::submission::submission_message(&out.record);
    assert_eq!(
        text,
        "Submission from @pia (Pia Lund)\nTeam: Falcons\nTime: 2024-11-20T10:00:00\nCaption: sunset\nID: 100"
    );
}

#[test]
fn submission_message_marks_missing_fields() {
    let record = hunt_core::model::SubmissionExtended {
        message_id: -3,
        team: "Falcons".to_string(),
        username: None,
        first_name: "Pia".to_string(),
        last_name: None,
        date: "2024-11-20T10:00:00".to_string(),
        caption: "".to_string(),
        media_kind: 0,
        forum_id: None,
    };
    let text = hunt_core::submission::submission_message(&record);
    assert_eq!(
        text,
        "Submission from @- (Pia NO-LASTNAME)\nTeam: Falcons\nTime: 2024-11-20T10:00:00\nCaption: N/P\nID: -3"
    );
}

#[test]
fn per_team_listings_follow_the_frozen_team_name() {
    let mut s = seeded_store();
    s.users.push(User {
        id: 8,
        team: "Eagles".to_string(),
        username: None,
        first_name: "Bo".to_string(),
        last_name: None,
    });
    s.submissions.push(Submission {
        message_id: 100,
        team: "Falcons".to_string(),
        user: 7,
        date: "t1".to_string(),
        caption: "one".to_string(),
        media_kind: 0,
    });
    s.submissions.push(Submission {
        message_id: 200,
        team: "Eagles".to_string(),
        user: 8,
        date: "t2".to_string(),
        caption: "two".to_string(),
        media_kind: 1,
    });
    s.judgements.push(Judgement {
        submission_id: 200,
        challenge_name: "photo_safety".to_string(),
        points: 1,
        valid: true,
    });
    let falcons = s.submissions_for_team(&"Falcons".to_string());
    assert_eq!(falcons.len(), 1);
    assert_eq!(falcons[0].message_id, 100);
    let eagle_judgements = s.judgements_for_team(&"Eagles".to_string());
    assert_eq!(eagle_judgements.len(), 1);
    assert_eq!(eagle_judgements[0].submission_id, 200);
    assert_eq!(s.judgements_for_team(&"Falcons".to_string()).len(), 0);
}
