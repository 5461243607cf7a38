//! The scoring aggregator: read-only rollups over the judgement ledger.
//! Points are attributed to the submitter's *live* team binding — a
//! participant who changes teams takes their valid points along — even
//! though each stored submission keeps its frozen team name.

use vstd::prelude::*;
use vstd::string::StringExecFns;

use crate::model::{CoreError, Judgement, TeamScore};
use crate::store::{
    has_submission, has_user, live_team, submission_index, user_index, Store,
};
use crate::submission::frozen_team_of;

verus! {

/// The team a judgement's points count for: the *current* team of the
/// participant who submitted the judged proof, or nothing where the
/// submission or its submitter is unknown.
pub open spec fn live_attr(s: Store, sid: int) -> Option<Seq<char>> {
    if has_submission(s.submissions@, sid) {
        let sub = s.submissions@[submission_index(s.submissions@, sid)];
        if has_user(s.users@, sub.user as int) {
            Some(s.users@[user_index(s.users@, sub.user as int)].team@)
        } else {
            None
        }
    } else {
        None
    }
}

/// The summed points of the valid judgements among the first `n` ledger rows
/// that are attributed to this team.
pub open spec fn team_points_prefix(s: Store, team: Seq<char>, n: int) -> int
    decreases n,
{
    if n <= 0 {
        0
    } else {
        team_points_prefix(s, team, n - 1) + (if s.judgements@[n - 1].valid && live_attr(
            s,
            s.judgements@[n - 1].submission_id as int,
        ) == Some(team) {
            s.judgements@[n - 1].points as int
        } else {
            0
        })
    }
}

/// A team's score: the summed points of its attributed valid judgements.
pub open spec fn team_points(s: Store, team: Seq<char>) -> int {
    team_points_prefix(s, team, s.judgements@.len() as int)
}

/// The valid judgements among the first `n` ledger rows attributed to this
/// team, in ledger order: the per-challenge breakdown a participant sees.
pub open spec fn breakdown_prefix(s: Store, team: Seq<char>, n: int) -> Seq<Judgement>
    decreases n,
{
    if n <= 0 {
        Seq::empty()
    } else {
        let rest = breakdown_prefix(s, team, n - 1);
        if s.judgements@[n - 1].valid && live_attr(s, s.judgements@[n - 1].submission_id as int)
            == Some(team) {
            rest.push(s.judgements@[n - 1])
        } else {
            rest
        }
    }
}

/// The valid judgements attributed to this team, in ledger order.
pub open spec fn breakdown(s: Store, team: Seq<char>) -> Seq<Judgement> {
    breakdown_prefix(s, team, s.judgements@.len() as int)
}

/// How many of the first `n` stored submissions are attributed to this team
/// through their submitter's live binding.
pub open spec fn submission_count_prefix(s: Store, team: Seq<char>, n: int) -> int
    decreases n,
{
    if n <= 0 {
        0
    } else {
        submission_count_prefix(s, team, n - 1) + (if live_attr(
            s,
            s.submissions@[n - 1].message_id as int,
        ) == Some(team) {
            1int
        } else {
            0
        })
    }
}

/// How many stored submissions are attributed to this team.
pub open spec fn submission_count(s: Store, team: Seq<char>) -> int {
    submission_count_prefix(s, team, s.submissions@.len() as int)
}

/// Some leaderboard line carries this team name.
pub open spec fn team_scored(rs: Seq<TeamScore>, name: Seq<char>) -> bool {
    exists|k: int| 0 <= k < rs.len() && (#[trigger] rs[k]).team@ == name
}

/// The per-participant rollup: the team's valid per-challenge entries, their
/// sum, and how many submissions the team has made.
#[derive(Debug)]
pub struct ParticipantScore {
    pub entries: Vec<Judgement>,
    pub total: i64,
    pub submission_count: i64,
}

/// Rebinding one participant's team moves exactly that participant's live
/// attribution and touches nothing stored: every submission keeps its frozen
/// team name, and a judgement on a submission by the rebound participant now
/// counts for the new team, while every other judgement counts as before.
pub proof fn lemma_rebind_shifts_attribution(s0: Store, s1: Store, id: int, team: Seq<char>, sid: int)
    requires
        s0.wf(),
        s1.submissions == s0.submissions,
        s1.users@.len() == s0.users@.len(),
        has_user(s0.users@, id),
        forall|i: int|
            0 <= i < s0.users@.len() && i != user_index(s0.users@, id) ==> s1.users@[i]
                == s0.users@[i],
        s1.users@[user_index(s0.users@, id)].id == s0.users@[user_index(s0.users@, id)].id,
        s1.users@[user_index(s0.users@, id)].team@ == team,
    ensures
        frozen_team_of(s1.submissions@, sid) == frozen_team_of(s0.submissions@, sid),
        has_submission(s0.submissions@, sid) ==> live_attr(s1, sid) == (if s0.submissions@[submission_index(s0.submissions@, sid)].user == id {
            Some(team)
        } else {
            live_attr(s0, sid)
        }),
{
    let k = user_index(s0.users@, id);
    assert(0 <= k < s0.users@.len() && s0.users@[k].id == id);
    assert forall|i: int| 0 <= i < s1.users@.len() implies (#[trigger] s1.users@[i]).id
        == s0.users@[i].id by {
        if i != k {
            assert(s1.users@[i] == s0.users@[i]);
        }
    }
    if has_submission(s0.submissions@, sid) {
        let sub = s0.submissions@[submission_index(s0.submissions@, sid)];
        let u = sub.user as int;
        assert(has_user(s0.users@, u));
        let w0 = user_index(s0.users@, u);
        assert(0 <= w0 < s0.users@.len() && s0.users@[w0].id == u);
        assert(s1.users@[w0].id == u);
        assert(has_user(s1.users@, u));
        let w1 = user_index(s1.users@, u);
        assert(0 <= w1 < s1.users@.len() && s1.users@[w1].id == u);
        assert(s0.users@[w1].id == u);
        assert(w0 == w1);
        if u == id {
            assert(w0 == k);
        } else {
            assert(w0 != k);
            assert(s1.users@[w0] == s0.users@[w0]);
        }
    }
}

impl Store {
    /// The team this submission's points count for today: the submitter's
    /// current binding.
    fn attributed_team(&self, sid: i64) -> (r: Option<String>)
        requires
            self.wf(),
        ensures
            match r {
                Some(t) => live_attr(*self, sid as int) == Some(t@),
                None => live_attr(*self, sid as int) is None,
            },
    {
        let sub = match self.find_submission(sid) {
            None => {
                return None;
            },
            Some(sub) => {
                proof {
                    let k = submission_index(self.submissions@, sid as int);
                    let w = choose|w: int|
                        0 <= w < self.submissions@.len() && self.submissions@[w] == *sub;
                    assert(self.submissions@[w].message_id == sid);
                    assert(self.submissions@[k].message_id == sid);
                    assert(w == k);
                }
                sub
            },
        };
        match self.find_user(sub.user) {
            None => None,
            Some(u) => {
                proof {
                    let k = user_index(self.users@, sub.user as int);
                    let w = choose|w: int| 0 <= w < self.users@.len() && self.users@[w] == *u;
                    assert(self.users@[w].id == sub.user);
                    assert(self.users@[k].id == sub.user);
                    assert(w == k);
                }
                Some(u.team.clone())
            },
        }
    }

    /// A team's score: the summed points of the valid judgements attributed
    /// to it through each submitter's live binding.
    pub fn team_score(&self, team: &String) -> (r: i64)
        requires
            self.wf(),
            self.judgements@.len() <= i64::MAX,
        ensures
            r == team_points(*self, team@),
    {
        let n = self.judgements.len();
        let mut total: i64 = 0;
        for j in 0..n
            invariant
                n == self.judgements@.len(),
                n <= i64::MAX,
                self.wf(),
                total == team_points_prefix(*self, team@, j as int),
                0 <= total <= j,
        {
            if self.judgements[j].valid {
                match self.attributed_team(self.judgements[j].submission_id) {
                    Some(t) => {
                        if t == *team {
                            total = total + self.judgements[j].points as i64;
                        }
                    },
                    None => {},
                }
            }
        }
        total
    }

    /// The live leaderboard: every live team exactly once with its score,
    /// ordered by descending score.
    pub fn leaderboard(&self) -> (r: Vec<TeamScore>)
        requires
            self.wf(),
            self.judgements@.len() <= i64::MAX,
        ensures
            forall|k: int|
                0 <= k < r@.len() ==> live_team(self.users@, (#[trigger] r@[k]).team@) && r@[k].score
                    == team_points(*self, r@[k].team@),
            forall|u: int|
                0 <= u < self.users@.len() ==> team_scored(r@, (#[trigger] self.users@[u]).team@),
            forall|k1: int, k2: int| 0 <= k1 < k2 < r@.len() ==> r@[k1].team@ != r@[k2].team@,
            forall|k1: int, k2: int| 0 <= k1 < k2 < r@.len() ==> r@[k1].score >= r@[k2].score,
    {
        let names = self.live_team_names();
        let mut rest: Vec<TeamScore> = Vec::new();
        let n = names.len();
        for i in 0..n
            invariant
                n == names@.len(),
                self.wf(),
                self.judgements@.len() <= i64::MAX,
                forall|k: int| 0 <= k < names@.len() ==> live_team(self.users@, (#[trigger] names@[k])@),
                forall|u: int|
                    0 <= u < self.users@.len() ==> crate::topology::name_listed(
                        names@,
                        (#[trigger] self.users@[u]).team@,
                    ),
                forall|k1: int, k2: int| 0 <= k1 < k2 < names@.len() ==> names@[k1]@ != names@[k2]@,
                rest@.len() == i,
                forall|k: int| 0 <= k < rest@.len() ==> (#[trigger] rest@[k]).team@ == names@[k]@
                    && rest@[k].score == team_points(*self, rest@[k].team@),
        {
            let score = self.team_score(&names[i]);
            let row = TeamScore { team: names[i].clone(), score };
            rest.push(row);
        }
        proof {
            assert forall|u: int|
                0 <= u < self.users@.len() implies team_scored(
                rest@,
                (#[trigger] self.users@[u]).team@,
            ) by {
                let k = choose|k: int|
                    0 <= k < names@.len() && (names@[k])@ == self.users@[u].team@;
                assert((rest@[k]).team@ == self.users@[u].team@);
            }
        }
        let mut out: Vec<TeamScore> = Vec::new();
        loop
            invariant
                self.wf(),
                forall|k: int|
                    0 <= k < out@.len() ==> live_team(self.users@, (#[trigger] out@[k]).team@)
                        && out@[k].score == team_points(*self, out@[k].team@),
                forall|k: int|
                    0 <= k < rest@.len() ==> live_team(self.users@, (#[trigger] rest@[k]).team@)
                        && rest@[k].score == team_points(*self, rest@[k].team@),
                forall|u: int|
                    0 <= u < self.users@.len() ==> team_scored(
                        out@,
                        (#[trigger] self.users@[u]).team@,
                    ) || team_scored(rest@, self.users@[u].team@),
                forall|k1: int, k2: int| 0 <= k1 < k2 < out@.len() ==> out@[k1].team@ != out@[k2].team@,
                forall|k1: int, k2: int|
                    0 <= k1 < k2 < rest@.len() ==> rest@[k1].team@ != rest@[k2].team@,
                forall|k1: int, k2: int|
                    0 <= k1 < out@.len() && 0 <= k2 < rest@.len() ==> out@[k1].team@
                        != rest@[k2].team@,
                forall|k1: int, k2: int| 0 <= k1 < k2 < out@.len() ==> out@[k1].score >= out@[k2].score,
                forall|k1: int, k2: int|
                    0 <= k1 < out@.len() && 0 <= k2 < rest@.len() ==> out@[k1].score
                        >= rest@[k2].score,
            ensures
                rest@.len() == 0,
            decreases rest@.len(),
        {
            let m = rest.len();
            if m == 0 {
                break ;
            }
            let mut best: usize = 0;
            for j in 1..m
                invariant
                    m == rest@.len(),
                    best < m,
                    forall|k: int| 0 <= k < j ==> rest@[best as int].score >= (#[trigger] rest@[k]).score,
            {
                if rest[j].score > rest[best].score {
                    best = j;
                }
            }
            let ghost rest0 = rest@;
            let row = rest.remove(best);
            let ghost out0 = out@;
            out.push(row);
            proof {
                assert(rest@ =~= rest0.remove(best as int));
                assert(out@ =~= out0.push(row));
                assert(row == rest0[best as int]);
                assert forall|k: int| 0 <= k < rest@.len() implies live_team(
                    self.users@,
                    (#[trigger] rest@[k]).team@,
                ) && rest@[k].score == team_points(*self, rest@[k].team@) by {
                    if k < best as int {
                        assert(rest@[k] == rest0[k]);
                    } else {
                        assert(rest@[k] == rest0[k + 1]);
                    }
                }
                assert forall|u: int|
                    0 <= u < self.users@.len() implies team_scored(
                    out@,
                    (#[trigger] self.users@[u]).team@,
                ) || team_scored(rest@, self.users@[u].team@) by {
                    if team_scored(out0, self.users@[u].team@) {
                        let k = choose|k: int|
                            0 <= k < out0.len() && (out0[k]).team@ == self.users@[u].team@;
                        assert((out@[k]).team@ == self.users@[u].team@);
                    } else if team_scored(rest0, self.users@[u].team@) {
                        let k = choose|k: int|
                            0 <= k < rest0.len() && (rest0[k]).team@ == self.users@[u].team@;
                        if k == best as int {
                            assert((out@[out0.len() as int]).team@ == self.users@[u].team@);
                        } else if k < best as int {
                            assert((rest@[k]).team@ == self.users@[u].team@);
                        } else {
                            assert((rest@[k - 1]).team@ == self.users@[u].team@);
                        }
                    }
                }
                assert forall|k1: int, k2: int|
                    0 <= k1 < k2 < rest@.len() implies rest@[k1].team@ != rest@[k2].team@ by {
                    let a: int = if k1 < best as int {
                        k1
                    } else {
                        k1 + 1
                    };
                    let b: int = if k2 < best as int {
                        k2
                    } else {
                        k2 + 1
                    };
                    assert(rest@[k1] == rest0[a] && rest@[k2] == rest0[b]);
                }
                assert forall|k1: int, k2: int|
                    0 <= k1 < out@.len() && 0 <= k2 < rest@.len() implies out@[k1].team@
                    != rest@[k2].team@ by {
                    let b: int = if k2 < best as int {
                        k2
                    } else {
                        k2 + 1
                    };
                    assert(rest@[k2] == rest0[b]);
                    if k1 < out0.len() {
                        assert(out@[k1] == out0[k1]);
                    } else {
                        assert(out@[k1] == rest0[best as int]);
                    }
                }
                assert forall|k1: int, k2: int|
                    0 <= k1 < out@.len() && 0 <= k2 < rest@.len() implies out@[k1].score
                    >= rest@[k2].score by {
                    let b: int = if k2 < best as int {
                        k2
                    } else {
                        k2 + 1
                    };
                    assert(rest@[k2] == rest0[b]);
                    if k1 < out0.len() {
                        assert(out@[k1] == out0[k1]);
                    } else {
                        assert(out@[k1] == rest0[best as int]);
                    }
                }
            }
        }
        out
    }

    /// The per-participant rollup: the caller's team's valid per-challenge
    /// entries in ledger order, their sum, and the team's submission count.
    /// All three follow the caller's *live* team binding.
    pub fn participant_score(&self, id: i64) -> (r: Result<ParticipantScore, CoreError>)
        requires
            self.wf(),
            self.judgements@.len() <= i64::MAX,
            self.submissions@.len() <= i64::MAX,
        ensures
            !has_user(self.users@, id as int) ==> r == Err::<ParticipantScore, CoreError>(
                CoreError::NotRegistered,
            ),
            has_user(self.users@, id as int) ==> (r matches Ok(ps) && {
                let team = self.users@[user_index(self.users@, id as int)].team@;
                &&& ps.entries@ == breakdown(*self, team)
                &&& ps.total == team_points(*self, team)
                &&& ps.submission_count == submission_count(*self, team)
            }),
    {
        let me = match self.find_user(id) {
            None => {
                return Err(CoreError::NotRegistered);
            },
            Some(u) => {
                proof {
                    let k = user_index(self.users@, id as int);
                    let w = choose|w: int| 0 <= w < self.users@.len() && self.users@[w] == *u;
                    assert(self.users@[w].id == id && self.users@[k].id == id);
                    assert(w == k);
                }
                u
            },
        };
        let team = me.team.clone();
        let n = self.judgements.len();
        let mut entries: Vec<Judgement> = Vec::new();
        for j in 0..n
            invariant
                n == self.judgements@.len(),
                self.wf(),
                entries@ == breakdown_prefix(*self, team@, j as int),
        {
            let mut keep = false;
            if self.judgements[j].valid {
                match self.attributed_team(self.judgements[j].submission_id) {
                    Some(t) => {
                        if t == *&team {
                            keep = true;
                        }
                    },
                    None => {},
                }
            }
            if keep {
                let row = Judgement {
                    submission_id: self.judgements[j].submission_id,
                    challenge_name: self.judgements[j].challenge_name.clone(),
                    points: self.judgements[j].points,
                    valid: self.judgements[j].valid,
                };
                assert(row == self.judgements@[j as int]);
                entries.push(row);
            }
        }
        let total = self.team_score(&team);
        let m = self.submissions.len();
        let mut count: i64 = 0;
        for i in 0..m
            invariant
                m == self.submissions@.len(),
                m <= i64::MAX,
                self.wf(),
                count == submission_count_prefix(*self, team@, i as int),
                0 <= count <= i,
        {
            match self.attributed_team(self.submissions[i].message_id) {
                Some(t) => {
                    if t == *&team {
                        count = count + 1;
                    }
                },
                None => {},
            }
        }
        Ok(ParticipantScore { entries, total, submission_count: count })
    }
}

} // verus!
