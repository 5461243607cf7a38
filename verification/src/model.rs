//! The data model of the orchestration core: participants, teams, channel
//! topology entries, submissions, challenges, judgements and scores, together
//! with the error taxonomy shared by every component.

use vstd::prelude::*;

verus! {

/// An immutable record of one media proof, keyed by the originating message
/// identifier. The `team` field is frozen at creation time: a later roster
/// change never rewrites it.
#[derive(Debug, Clone)]
pub struct Submission {
    pub message_id: i64,
    pub team: String,
    pub user: i64,
    pub date: String,
    pub caption: String,
    pub media_kind: i32,
}

/// A submission joined with its submitter and the open channel of its frozen
/// team, as handed to the judging surface.
#[derive(Debug, Clone)]
pub struct SubmissionExtended {
    pub message_id: i64,
    pub team: String,
    pub username: Option<String>,
    pub first_name: String,
    pub last_name: Option<String>,
    pub date: String,
    pub caption: String,
    pub media_kind: i32,
    pub forum_id: Option<i32>,
}

/// A team is a derived entity: a distinct team name held by at least one
/// participant, together with how many participants hold it.
#[derive(Debug)]
pub struct Team {
    pub team: String,
    pub count: i64,
}

/// A channel topology entry: the binding between a team name and an
/// externally allocated channel handle. Entries are never deleted; a stale
/// one is flagged closed.
#[derive(Debug, Clone, Eq, PartialEq, Hash)]
pub struct Forum {
    pub id: i32,
    pub name: String,
    pub open: bool,
}

/// A catalog entry, defined out of band and immutable from the core's view.
#[derive(Debug, Clone)]
pub struct Challenge {
    pub name: String,
    pub short_name: String,
}

/// A participant: platform identity, display fields and the current team
/// binding. One active team per participant; rejoining rebinds it.
#[derive(Debug)]
pub struct User {
    pub id: i64,
    pub team: String,
    pub username: Option<String>,
    pub first_name: String,
    pub last_name: Option<String>,
}

/// A free-form configuration row.
#[derive(Debug)]
pub struct Config {
    pub name: String,
    pub value: String,
}

/// At most one judgement exists per submission; re-judging overwrites it.
#[derive(Debug)]
pub struct Judgement {
    pub submission_id: i64,
    pub challenge_name: String,
    pub points: i32,
    pub valid: bool,
}

/// One leaderboard line: a team name with its summed valid points.
#[derive(Debug, Clone)]
pub struct TeamScore {
    pub team: String,
    pub score: i64,
}

/// The expected outcomes of the core's operations, reported to the invoking
/// user as plain text rather than logged as system faults.
#[derive(Debug, PartialEq, Eq, Structural, Clone, Copy)]
pub enum CoreError {
    /// The caller holds no team binding.
    NotRegistered,
    /// The global submissions-enabled flag is off.
    SubmissionsDisabled,
    /// A judgement call named a submission id with no stored submission.
    SubmissionNotFound,
    /// A judgement call named a challenge outside the catalog and neither
    /// sentinel outcome.
    ChallengeNotFound,
    /// A blank team name or a blank broadcast text.
    EmptyInput,
}

impl Team {
    /// The display form of a team is its bare name.
    pub fn to_string(&self) -> (r: String)
        ensures
            r@ == self.team@,
    {
        self.team.clone()
    }
}

impl User {
    /// The display form of a participant: the first name, the last name when
    /// one is known, and the handle when one is known.
    pub fn to_string(&self) -> (r: String)
        ensures
            r@ == user_display(self.first_name@, self.last_name, self.username),
    {
        let name = if let Some(last_name) = &self.last_name {
            let mut n = self.first_name.clone();
            n.append(" ");
            n.append(last_name.as_str());
            n
        } else {
            self.first_name.clone()
        };

        if let Some(username) = &self.username {
            let mut n = name;
            n.append(" @");
            n.append(username.as_str());
            n
        } else {
            name
        }
    }
}

/// The display form a participant renders to: first name, then the last name
/// separated by a space when present, then the handle prefixed by " @" when
/// present.
pub open spec fn user_display(
    first_name: Seq<char>,
    last_name: Option<String>,
    username: Option<String>,
) -> Seq<char> {
    let name = match last_name {
        Some(l) => first_name + " "@ + l@,
        None => first_name,
    };
    match username {
        Some(u) => name + " @"@ + u@,
        None => name,
    }
}

} // verus!
