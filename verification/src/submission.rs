//! The submission pipeline: gate an incoming media proof behind the
//! submissions-enabled flag and the caller's team binding, persist it with
//! the team name frozen at this instant, and hand the caller everything the
//! judging surface needs: the joined record, the channel to thread it into,
//! and the challenge-selection prompt content. The prompt lists every catalog
//! challenge the team does not yet hold a *valid* judgement for; attempts
//! judged invalid or unclear stay listed, so the team can retry.

use vstd::prelude::*;
use vstd::string::StringExecFns;

use crate::model::{Challenge, CoreError, Submission, SubmissionExtended};
use crate::store::{
    has_open_forum, has_submission, has_user, submission_index, user_index, Store,
};
use crate::text::int_rep;

verus! {

/// The media tag a submission stores: the kind of proof that came in.
#[derive(Debug, Clone, Copy, PartialEq, Eq, Structural)]
pub enum MediaKind {
    Photo,
    Video,
}

impl MediaKind {
    /// The stored tag: photos are zero, videos one.
    pub open spec fn code_spec(self) -> int {
        match self {
            MediaKind::Photo => 0,
            MediaKind::Video => 1,
        }
    }

    /// The stored tag: photos are zero, videos one.
    pub fn code(&self) -> (r: i32)
        ensures
            r == self.code_spec(),
    {
        match self {
            MediaKind::Photo => 0,
            MediaKind::Video => 1,
        }
    }
}

/// What a successful submission hands back: the joined record for the
/// judging surface and the challenge-selection prompt content.
#[derive(Debug)]
pub struct SubmitOutcome {
    /// The stored submission joined with its submitter and the open channel
    /// of its frozen team, if one exists.
    pub record: SubmissionExtended,
    /// Every catalog challenge the team does not yet hold a valid judgement
    /// for, in catalog order.
    pub remaining: Vec<Challenge>,
}

/// The team name a submission was stored under, where one is stored.
pub open spec fn frozen_team_of(subs: Seq<Submission>, sid: int) -> Option<Seq<char>> {
    if has_submission(subs, sid) {
        Some(subs[submission_index(subs, sid)].team@)
    } else {
        None
    }
}

/// The team already holds a valid judgement for this challenge, joined
/// through the judged submission's frozen team name.
pub open spec fn team_has_valid(s: Store, team: Seq<char>, challenge: Seq<char>) -> bool {
    exists|j: int|
        0 <= j < s.judgements@.len() && (#[trigger] s.judgements@[j]).valid
            && s.judgements@[j].challenge_name@ == challenge && frozen_team_of(
            s.submissions@,
            s.judgements@[j].submission_id as int,
        ) == Some(team)
}

/// The catalog challenges a team may still attempt, in catalog order: every
/// entry the team holds no valid judgement for.
pub open spec fn remaining_of(s: Store, team: Seq<char>) -> Seq<Challenge>
    decreases s.challenges@.len(),
{
    remaining_of_prefix(s, team, s.challenges@.len() as int)
}

/// The remaining challenges among the first `n` catalog entries.
pub open spec fn remaining_of_prefix(s: Store, team: Seq<char>, n: int) -> Seq<Challenge>
    decreases n,
{
    if n <= 0 {
        Seq::empty()
    } else {
        let rest = remaining_of_prefix(s, team, n - 1);
        if !team_has_valid(s, team, s.challenges@[n - 1].name@) {
            rest.push(s.challenges@[n - 1])
        } else {
            rest
        }
    }
}

/// Some listed catalog entry carries this challenge name.
pub open spec fn challenge_listed(cs: Seq<Challenge>, name: Seq<char>) -> bool {
    exists|k: int| 0 <= k < cs.len() && (#[trigger] cs[k]).name@ == name
}

/// Appending to a challenge list adds exactly the appended name.
proof fn lemma_challenge_listed_push(cs: Seq<Challenge>, x: Challenge, name: Seq<char>)
    ensures
        challenge_listed(cs.push(x), name) == (challenge_listed(cs, name) || x.name@ == name),
{
    if challenge_listed(cs, name) {
        let k = choose|k: int| 0 <= k < cs.len() && (cs[k]).name@ == name;
        assert((cs.push(x)[k]).name@ == name);
    }
    if x.name@ == name {
        assert((cs.push(x)[cs.len() as int]).name@ == name);
    }
    if challenge_listed(cs.push(x), name) && x.name@ != name {
        let k = choose|k: int| 0 <= k < cs.push(x).len() && (cs.push(x)[k]).name@ == name;
        assert(k < cs.len());
        assert((cs[k]).name@ == name);
    }
}

/// What the first `n` catalog entries contribute to the prompt: a name is
/// listed exactly where some early catalog entry carries it and the team
/// holds no valid judgement for it.
proof fn lemma_remaining_prefix_listed(s: Store, team: Seq<char>, n: int, name: Seq<char>)
    requires
        0 <= n <= s.challenges@.len(),
    ensures
        challenge_listed(remaining_of_prefix(s, team, n), name) <==> (!team_has_valid(
            s,
            team,
            name,
        ) && exists|k: int| 0 <= k < n && (#[trigger] s.challenges@[k]).name@ == name),
    decreases n,
{
    if n > 0 {
        lemma_remaining_prefix_listed(s, team, n - 1, name);
        let rest = remaining_of_prefix(s, team, n - 1);
        let entry = s.challenges@[n - 1];
        if !team_has_valid(s, team, entry.name@) {
            lemma_challenge_listed_push(rest, entry, name);
        }
        if !team_has_valid(s, team, name) && (exists|k: int|
            0 <= k < n && (#[trigger] s.challenges@[k]).name@ == name) {
            let k = choose|k: int| 0 <= k < n && (s.challenges@[k]).name@ == name;
            if k == n - 1 {
                assert(!team_has_valid(s, team, entry.name@));
            }
        }
        if challenge_listed(remaining_of_prefix(s, team, n), name) {
            if team_has_valid(s, team, entry.name@) {
                assert(remaining_of_prefix(s, team, n) == rest);
            }
        }
    }
}

/// Remaining-challenges exclusion: the prompt lists a challenge exactly
/// where the catalog holds it and the team holds no *valid* judgement for it
/// — so a challenge judged valid for the team is withheld, while one
/// attempted but judged invalid or unclear is still listed.
pub proof fn lemma_remaining_exclusion(s: Store, team: Seq<char>, name: Seq<char>)
    ensures
        challenge_listed(remaining_of(s, team), name) <==> (!team_has_valid(s, team, name)
            && challenge_listed(s.challenges@, name)),
{
    lemma_remaining_prefix_listed(s, team, s.challenges@.len() as int, name);
}

impl Store {
    /// Does this team already hold a valid judgement for the named challenge?
    pub fn team_holds_valid(&self, team: &String, challenge_name: &String) -> (r: bool)
        requires
            self.wf(),
        ensures
            r == team_has_valid(*self, team@, challenge_name@),
    {
        let n = self.judgements.len();
        for j in 0..n
            invariant
                n == self.judgements@.len(),
                self.wf(),
                forall|k: int|
                    0 <= k < j ==> !((#[trigger] self.judgements@[k]).valid
                        && self.judgements@[k].challenge_name@ == challenge_name@
                        && frozen_team_of(
                        self.submissions@,
                        self.judgements@[k].submission_id as int,
                    ) == Some(team@)),
        {
            if self.judgements[j].valid && self.judgements[j].challenge_name == *challenge_name {
                match self.find_submission(self.judgements[j].submission_id) {
                    Some(sub) => {
                        proof {
                            let k = submission_index(
                                self.submissions@,
                                self.judgements@[j as int].submission_id as int,
                            );
                            let w = choose|w: int|
                                0 <= w < self.submissions@.len() && self.submissions@[w] == *sub;
                            assert(self.submissions@[w].message_id == sub.message_id);
                            assert(self.submissions@[k].message_id == sub.message_id);
                            assert(w == k);
                        }
                        if sub.team == *team {
                            return true;
                        }
                    },
                    None => {
                        proof {
                            assert(has_submission(
                                self.submissions@,
                                self.judgements@[j as int].submission_id as int,
                            ));
                        }
                    },
                }
            }
        }
        false
    }

    /// The catalog challenges this team may still attempt, in catalog order:
    /// a challenge judged valid for the team is withheld, one attempted but
    /// judged invalid or unclear is still listed, letting the team retry.
    pub fn remaining_challenges(&self, team: &String) -> (r: Vec<Challenge>)
        requires
            self.wf(),
        ensures
            r@ == remaining_of(*self, team@),
    {
        let n = self.challenges.len();
        let mut r: Vec<Challenge> = Vec::new();
        for c in 0..n
            invariant
                n == self.challenges@.len(),
                self.wf(),
                r@ == remaining_of_prefix(*self, team@, c as int),
        {
            if !self.team_holds_valid(team, &self.challenges[c].name) {
                let row = Challenge {
                    name: self.challenges[c].name.clone(),
                    short_name: self.challenges[c].short_name.clone(),
                };
                assert(row == self.challenges@[c as int]);
                r.push(row);
            }
        }
        r
    }

    /// The submissions this team has filed, by the team name frozen on each
    /// row: the listing a maintainer reads per team.
    pub fn submissions_for_team(&self, team: &String) -> (r: Vec<Submission>)
        ensures
            r@ == team_submissions(self.submissions@, team@),
    {
        let n = self.submissions.len();
        let mut r: Vec<Submission> = Vec::new();
        for i in 0..n
            invariant
                n == self.submissions@.len(),
                r@ == team_submissions_prefix(self.submissions@, team@, i as int),
        {
            if self.submissions[i].team == *team {
                let sub = &self.submissions[i];
                let row = Submission {
                    message_id: sub.message_id,
                    team: sub.team.clone(),
                    user: sub.user,
                    date: sub.date.clone(),
                    caption: sub.caption.clone(),
                    media_kind: sub.media_kind,
                };
                assert(row == self.submissions@[i as int]);
                r.push(row);
            }
        }
        r
    }

    /// Take one media proof in. Guards, checked in order: the global
    /// submissions-enabled flag must be on, else `SubmissionsDisabled`; the
    /// caller must hold a team binding, else `NotRegistered`. On success the
    /// submission is stored with the caller's team name frozen at this
    /// instant, and the outcome carries the joined record (submitter display
    /// fields and the open channel of the frozen team, where one exists)
    /// plus the challenge-selection prompt content. On failure nothing is
    /// stored.
    pub fn submit(
        &mut self,
        user_id: i64,
        message_id: i64,
        kind: MediaKind,
        caption: String,
        date: String,
    ) -> (r: Result<SubmitOutcome, CoreError>)
        requires
            old(self).wf(),
            !has_submission(old(self).submissions@, message_id as int),
        ensures
            final(self).wf(),
            final(self).users == old(self).users,
            final(self).judgements == old(self).judgements,
            final(self).forums == old(self).forums,
            final(self).challenges == old(self).challenges,
            final(self).config == old(self).config,
            final(self).submissions_enabled == old(self).submissions_enabled,
            !old(self).submissions_enabled ==> r == Err::<SubmitOutcome, CoreError>(
                CoreError::SubmissionsDisabled,
            ) && final(self).submissions == old(self).submissions,
            old(self).submissions_enabled && !has_user(old(self).users@, user_id as int) ==> r
                == Err::<SubmitOutcome, CoreError>(CoreError::NotRegistered)
                && final(self).submissions == old(self).submissions,
            old(self).submissions_enabled && has_user(old(self).users@, user_id as int) ==> (
            r matches Ok(out) && {
                let u = old(self).users@[user_index(old(self).users@, user_id as int)];
                &&& final(self).submissions@.len() == old(self).submissions@.len() + 1
                &&& forall|i: int|
                    0 <= i < old(self).submissions@.len() ==> final(self).submissions@[i] == old(
                        self,
                    ).submissions@[i]
                &&& {
                    let sub = final(self).submissions@.last();
                    sub.message_id == message_id && sub.team == u.team && sub.user == user_id
                        && sub.date == date && sub.caption == caption && sub.media_kind
                        == kind.code_spec()
                }
                &&& out.record.message_id == message_id
                &&& out.record.team == u.team
                &&& out.record.username == u.username
                &&& out.record.first_name == u.first_name
                &&& out.record.last_name == u.last_name
                &&& out.record.date == date
                &&& out.record.caption == caption
                &&& out.record.media_kind == kind.code_spec()
                &&& match out.record.forum_id {
                    Some(fid) => exists|i: int|
                        0 <= i < old(self).forums@.len() && (#[trigger] old(self).forums@[i]).open
                            && old(self).forums@[i].name@ == u.team@ && old(self).forums@[i].id
                            == fid,
                    None => !has_open_forum(old(self).forums@, u.team@),
                }
                &&& out.remaining@ == remaining_of(*old(self), u.team@)
            }),
    {
        if !self.submissions_enabled {
            return Err(CoreError::SubmissionsDisabled);
        }
        let slot = match self.find_user(user_id) {
            None => {
                return Err(CoreError::NotRegistered);
            },
            Some(u) => {
                proof {
                    let k = user_index(self.users@, user_id as int);
                    let w = choose|w: int| 0 <= w < self.users@.len() && self.users@[w] == *u;
                    assert(self.users@[w].id == user_id && self.users@[k].id == user_id);
                    assert(w == k);
                }
                u
            },
        };
        let team = slot.team.clone();
        let username = match &slot.username {
            Some(x) => Some(x.clone()),
            None => None,
        };
        let first_name = slot.first_name.clone();
        let last_name = match &slot.last_name {
            Some(x) => Some(x.clone()),
            None => None,
        };
        let forum_id = self.lookup_channel(&team);
        let remaining = self.remaining_challenges(&team);
        let record = SubmissionExtended {
            message_id,
            team: team.clone(),
            username,
            first_name,
            last_name,
            date: date.clone(),
            caption: caption.clone(),
            media_kind: kind.code(),
            forum_id,
        };
        let row = Submission {
            message_id,
            team,
            user: user_id,
            date,
            caption,
            media_kind: kind.code(),
        };
        self.submissions.push(row);
        proof {
            assert forall|a: int, b: int|
                0 <= a < b < self.submissions@.len() implies self.submissions@[a].message_id
                != self.submissions@[b].message_id by {
                if b == self.submissions@.len() - 1 {
                    assert(self.submissions@[a] == old(self).submissions@[a]);
                    assert(!has_submission(old(self).submissions@, message_id as int));
                } else {
                    assert(self.submissions@[a] == old(self).submissions@[a]);
                    assert(self.submissions@[b] == old(self).submissions@[b]);
                }
            }
            assert forall|s: int|
                0 <= s < self.submissions@.len() implies has_user(
                self.users@,
                (#[trigger] self.submissions@[s]).user as int,
            ) by {
                if s < self.submissions@.len() - 1 {
                    assert(self.submissions@[s] == old(self).submissions@[s]);
                }
            }
            assert forall|j: int|
                0 <= j < self.judgements@.len() implies has_submission(
                self.submissions@,
                (#[trigger] self.judgements@[j]).submission_id as int,
            ) by {
                let w = choose|w: int|
                    0 <= w < old(self).submissions@.len() && old(self).submissions@[w].message_id
                        == old(self).judgements@[j].submission_id;
                assert(self.submissions@[w] == old(self).submissions@[w]);
            }
        }
        Ok(SubmitOutcome { record, remaining })
    }
}

/// The submissions stored under this frozen team name, among the first `n`,
/// in storage order.
pub open spec fn team_submissions_prefix(subs: Seq<Submission>, team: Seq<char>, n: int) -> Seq<
    Submission,
>
    decreases n,
{
    if n <= 0 {
        Seq::empty()
    } else {
        let rest = team_submissions_prefix(subs, team, n - 1);
        if subs[n - 1].team@ == team {
            rest.push(subs[n - 1])
        } else {
            rest
        }
    }
}

/// The submissions stored under this frozen team name, in storage order.
pub open spec fn team_submissions(subs: Seq<Submission>, team: Seq<char>) -> Seq<Submission> {
    team_submissions_prefix(subs, team, subs.len() as int)
}

/// The report line the judging channel shows for one submission: the
/// submitter's handle (or a dash), the display name (a fixed marker standing
/// in for a missing last name), the frozen team, the stored time, the caption
/// (a fixed marker where it is empty) and the submission's id.
pub open spec fn submission_message_text(sub: SubmissionExtended) -> Seq<char> {
    "Submission from @"@ + (match sub.username {
        Some(u) => u@,
        None => "-"@,
    }) + " ("@ + sub.first_name@ + " "@ + (match sub.last_name {
        Some(l) => l@,
        None => "NO-LASTNAME"@,
    }) + ")\nTeam: "@ + sub.team@ + "\nTime: "@ + sub.date@ + "\nCaption: "@ + (
    if sub.caption@.len() == 0 {
        "N/P"@
    } else {
        sub.caption@
    }) + "\nID: "@ + int_rep(sub.message_id as int)
}

/// Render the report line the judging channel shows for one submission.
pub fn submission_message(sub: &SubmissionExtended) -> (r: String)
    ensures
        r@ == submission_message_text(*sub),
{
    let mut s = String::from_str("Submission from @");
    match &sub.username {
        Some(u) => s.append(u.as_str()),
        None => s.append("-"),
    }
    s.append(" (");
    s.append(sub.first_name.as_str());
    s.append(" ");
    match &sub.last_name {
        Some(l) => s.append(l.as_str()),
        None => s.append("NO-LASTNAME"),
    }
    s.append(")\nTeam: ");
    s.append(sub.team.as_str());
    s.append("\nTime: ");
    s.append(sub.date.as_str());
    s.append("\nCaption: ");
    if sub.caption.as_str().is_empty() {
        s.append("N/P");
    } else {
        s.append(sub.caption.as_str());
    }
    s.append("\nID: ");
    let id_text = crate::text::i64_to_string(sub.message_id);
    s.append(id_text.as_str());
    proof {
        assert(s@ =~= submission_message_text(*sub));
    }
    s
}

} // verus!
