use hunt_core::ledger::Feedback;
use hunt_core::model::{Challenge, CoreError, Submission, User};
use hunt_core::store::Store;

fn store_with_one_submission() -> Store {
    let mut s = Store::new();
    s.users.push(User {
        id: 7,
        team: "Falcons".to_string(),
        username: Some("pia".to_string()),
        first_name: "Pia".to_string(),
        last_name: None,
    });
    s.submissions.push(Submission {
        message_id: 100,
        team: "Falcons".to_string(),
        user: 7,
        date: "2024-11-20T10:00:00".to_string(),
        caption: "sunset".to_string(),
        media_kind: 0,
    });
    s.challenges.push(Challenge {
        name: "photo_safety".to_string(),
        short_name: "Safety".to_string(),
    });
    s.challenges.push(Challenge {
        name: "group_jump".to_string(),
        short_name: "Jump".to_string(),
    });
    s
}

#[test]
fn judge_awards_one_point_for_catalog_challenge() {
    let mut s = store_with_one_submission();
    let out = s.judge(100, "photo_safety".to_string()).unwrap();
    assert_eq!(out.associate, 7);
    assert_eq!(out.submission_id, 100);
    assert_eq!(out.points, 1);
    assert!(out.valid);
    assert_eq!(out.feedback, Feedback::PositiveReaction);
    assert_eq!(s.judgements.len(), 1);
    assert_eq!(s.judgements[0].submission_id, 100);
    assert_eq!(s.judgements[0].challenge_name, "photo_safety");
    assert_eq!(s.judgements[0].points, 1);
    assert!(s.judgements[0].valid);
}

#[test]
fn judge_sentinels_yield_zero_points_and_directives() {
    let mut s = store_with_one_submission();
    let out = s.judge(100, "___unclear".to_string()).unwrap();
    assert_eq!(out.points, 0);
    assert!(!out.valid);
    assert_eq!(out.feedback, Feedback::AskForClearResend);

    let out = s.judge(100, "___invalid".to_string()).unwrap();
    assert_eq!(out.points, 0);
    assert!(!out.valid);
    assert_eq!(out.feedback, Feedback::RejectAsInvalid);
    assert_eq!(s.judgements.len(), 1);
}

#[test]
fn judge_repeated_calls_keep_one_row_with_last_fields() {
    let mut s = store_with_one_submission();
    s.judge(100, "photo_safety".to_string()).unwrap();
    s.judge(100, "group_jump".to_string()).unwrap();
    s.judge(100, "___invalid".to_string()).unwrap();
    assert_eq!(s.judgements.len(), 1);
    assert_eq!(s.judgements[0].submission_id, 100);
    assert_eq!(s.judgements[0].challenge_name, "___invalid");
    assert_eq!(s.judgements[0].points, 0);
    assert!(!s.judgements[0].valid);
}

#[test]
fn judge_unknown_submission_is_reported_first() {
    let mut s = store_with_one_submission();
    // both the submission and the challenge are unknown: the submission wins
    assert_eq!(
        s.judge(999, "no_such_challenge".to_string()),
        Err(CoreError::SubmissionNotFound)
    );
    assert_eq!(
        s.judge(999, "photo_safety".to_string()),
        Err(CoreError::SubmissionNotFound)
    );
    assert_eq!(s.judgements.len(), 0);
}

#[test]
fn judge_unknown_challenge_is_rejected() {
    let mut s = store_with_one_submission();
    assert_eq!(
        s.judge(100, "no_such_challenge".to_string()),
        Err(CoreError::ChallengeNotFound)
    );
    assert_eq!(s.judgements.len(), 0);
}
