//! The judgement ledger: an idempotent, last-write-wins upsert of one
//! judgement per submission, the fixed points mapping for the two sentinel
//! outcomes and for catalog challenges, and the best-effort feedback signal
//! owed to the submitter after each write.

use vstd::prelude::*;
use vstd::pervasive::VecAdditionalExecFns;
use vstd::string::StringExecFns;

use crate::model::{CoreError, Judgement};
use crate::store::{
    has_challenge, has_judgement, has_submission, is_sentinel, judgement_ids_distinct,
    judgement_index, submission_index, Store,
};

verus! {

/// The feedback owed to the submitter after a judgement is recorded. The
/// caller attempts it best-effort: a transport failure is swallowed, never
/// surfaced as a pipeline failure.
#[derive(Debug, Clone, Copy, PartialEq, Eq, Structural)]
pub enum Feedback {
    /// The proof was unclear: send the resend directive threaded to the
    /// original submission and clear any existing reaction.
    AskForClearResend,
    /// The proof is invalid: send the rejection text threaded to the
    /// original submission and clear any existing reaction.
    RejectAsInvalid,
    /// A catalog challenge was awarded: attach the positive reaction and
    /// send no text.
    PositiveReaction,
}

/// What a successful judgement call hands back: whom to notify, where to
/// thread the feedback, and the recorded outcome.
#[derive(Debug, Clone, Copy, PartialEq, Eq, Structural)]
pub struct JudgeOutcome {
    /// The submitter who owns the judged submission.
    pub associate: i64,
    /// The judged submission's message id, the thread target for feedback.
    pub submission_id: i64,
    pub points: i32,
    pub valid: bool,
    pub feedback: Feedback,
}

/// The given judgement fields, as one predicate.
pub open spec fn judgement_fields(
    j: Judgement,
    sid: int,
    name: Seq<char>,
    points: int,
    valid: bool,
) -> bool {
    j.submission_id == sid && j.challenge_name@ == name && j.points == points && j.valid == valid
}

/// The ledger after an upsert keyed by `sid`: the row for `sid` carries the
/// given fields, every other row is untouched, and a row was appended only
/// where none carried `sid` before.
pub open spec fn judgement_recorded(
    old_js: Seq<Judgement>,
    new_js: Seq<Judgement>,
    sid: int,
    name: Seq<char>,
    points: int,
    valid: bool,
) -> bool {
    if has_judgement(old_js, sid) {
        let k = judgement_index(old_js, sid);
        &&& new_js.len() == old_js.len()
        &&& forall|i: int| 0 <= i < old_js.len() && i != k ==> new_js[i] == old_js[i]
        &&& judgement_fields(new_js[k], sid, name, points, valid)
    } else {
        &&& new_js.len() == old_js.len() + 1
        &&& forall|i: int| 0 <= i < old_js.len() ==> new_js[i] == old_js[i]
        &&& judgement_fields(new_js[old_js.len() as int], sid, name, points, valid)
    }
}

/// An upsert into a uniquely keyed ledger keeps the keys unique, leaves the
/// ledger holding the key, gives every row keyed by `sid` the written
/// fields, and adds no row beyond the written one.
pub proof fn lemma_recorded_unique(
    old_js: Seq<Judgement>,
    new_js: Seq<Judgement>,
    sid: int,
    name: Seq<char>,
    points: int,
    valid: bool,
)
    requires
        judgement_ids_distinct(old_js),
        judgement_recorded(old_js, new_js, sid, name, points, valid),
    ensures
        judgement_ids_distinct(new_js),
        has_judgement(new_js, sid),
        forall|k: int|
            0 <= k < new_js.len() && new_js[k].submission_id == sid ==> judgement_fields(
                new_js[k],
                sid,
                name,
                points,
                valid,
            ),
{
    if has_judgement(old_js, sid) {
        let k = judgement_index(old_js, sid);
        assert(0 <= k < old_js.len() && old_js[k].submission_id == sid);
        assert(new_js[k].submission_id == sid);
        assert forall|i: int|
            0 <= i < new_js.len() && new_js[i].submission_id == sid implies i == k by {
            if i != k {
                assert(new_js[i] == old_js[i]);
            }
        }
        assert forall|i: int, j: int|
            0 <= i < j < new_js.len() implies new_js[i].submission_id
            != new_js[j].submission_id by {
            if i != k && j != k {
                assert(new_js[i] == old_js[i] && new_js[j] == old_js[j]);
            }
        }
    } else {
        let n = old_js.len() as int;
        assert(new_js[n].submission_id == sid);
        assert forall|i: int, j: int|
            0 <= i < j < new_js.len() implies new_js[i].submission_id
            != new_js[j].submission_id by {
            if j < n {
                assert(new_js[i] == old_js[i] && new_js[j] == old_js[j]);
            } else {
                assert(new_js[i] == old_js[i]);
                assert(!(exists|m: int|
                    0 <= m < old_js.len() && old_js[m].submission_id == sid));
            }
        }
    }
}

/// Last write wins: however often one submission is judged, the ledger keeps
/// exactly one row keyed by its id, carrying the latest call's fields, and
/// the repeat call grows the ledger by nothing. A judging call that fails to
/// resolve records nothing at all — `judge` ensures the ledger is untouched
/// on either error — so any sequence of calls reduces to the recording ones.
pub proof fn lemma_judge_last_write_wins(
    js0: Seq<Judgement>,
    js1: Seq<Judgement>,
    js2: Seq<Judgement>,
    sid: int,
    name1: Seq<char>,
    points1: int,
    valid1: bool,
    name2: Seq<char>,
    points2: int,
    valid2: bool,
)
    requires
        judgement_ids_distinct(js0),
        judgement_recorded(js0, js1, sid, name1, points1, valid1),
        judgement_recorded(js1, js2, sid, name2, points2, valid2),
    ensures
        judgement_ids_distinct(js2),
        has_judgement(js2, sid),
        forall|k: int|
            0 <= k < js2.len() && js2[k].submission_id == sid ==> judgement_fields(
                js2[k],
                sid,
                name2,
                points2,
                valid2,
            ),
        js2.len() == js1.len(),
{
    lemma_recorded_unique(js0, js1, sid, name1, points1, valid1);
    lemma_recorded_unique(js1, js2, sid, name2, points2, valid2);
}

/// The judgements whose submission was filed under this frozen team name,
/// among the first `n` ledger rows, in ledger order.
pub open spec fn team_judgements_prefix(s: Store, team: Seq<char>, n: int) -> Seq<Judgement>
    decreases n,
{
    if n <= 0 {
        Seq::empty()
    } else {
        let rest = team_judgements_prefix(s, team, n - 1);
        if crate::submission::frozen_team_of(
            s.submissions@,
            s.judgements@[n - 1].submission_id as int,
        ) == Some(team) {
            rest.push(s.judgements@[n - 1])
        } else {
            rest
        }
    }
}

/// The judgements whose submission was filed under this frozen team name.
pub open spec fn team_judgements(s: Store, team: Seq<char>) -> Seq<Judgement> {
    team_judgements_prefix(s, team, s.judgements@.len() as int)
}

impl Store {
    /// Is this name one of the two terminal sentinel outcomes?
    pub fn name_is_sentinel(name: &String) -> (r: bool)
        ensures
            r == is_sentinel(name@),
    {
        let unclear = String::from_str("___unclear");
        let invalid = String::from_str("___invalid");
        *name == unclear || *name == invalid
    }

    /// The judgements passed on this team's submissions, by the team name
    /// frozen on each submission: the listing a maintainer reads per team.
    pub fn judgements_for_team(&self, team: &String) -> (r: Vec<Judgement>)
        requires
            self.wf(),
        ensures
            r@ == team_judgements(*self, team@),
    {
        let n = self.judgements.len();
        let mut r: Vec<Judgement> = Vec::new();
        for i in 0..n
            invariant
                n == self.judgements@.len(),
                self.wf(),
                r@ == team_judgements_prefix(*self, team@, i as int),
        {
            let mut keep = false;
            match self.find_submission(self.judgements[i].submission_id) {
                Some(sub) => {
                    proof {
                        let k = submission_index(
                            self.submissions@,
                            self.judgements@[i as int].submission_id as int,
                        );
                        let w = choose|w: int|
                            0 <= w < self.submissions@.len() && self.submissions@[w] == *sub;
                        assert(self.submissions@[w].message_id == sub.message_id);
                        assert(self.submissions@[k].message_id == sub.message_id);
                        assert(w == k);
                    }
                    if sub.team == *team {
                        keep = true;
                    }
                },
                None => {
                    proof {
                        assert(has_submission(
                            self.submissions@,
                            self.judgements@[i as int].submission_id as int,
                        ));
                    }
                },
            }
            if keep {
                let j = &self.judgements[i];
                let row = Judgement {
                    submission_id: j.submission_id,
                    challenge_name: j.challenge_name.clone(),
                    points: j.points,
                    valid: j.valid,
                };
                assert(row == self.judgements@[i as int]);
                r.push(row);
            }
        }
        r
    }

    /// Judge one submission: resolve it and the named challenge, record the
    /// outcome by upsert, and say what feedback the submitter is owed.
    ///
    /// Resolution is checked in a fixed order: a missing submission is
    /// reported before a missing challenge. The two sentinel names are
    /// accepted without a catalog lookup and yield zero points, not valid;
    /// any catalog challenge yields one point, valid. Re-judging the same
    /// submission overwrites the earlier row rather than appending.
    pub fn judge(&mut self, submission_id: i64, challenge: String) -> (r: Result<
        JudgeOutcome,
        CoreError,
    >)
        requires
            old(self).wf(),
        ensures
            final(self).wf(),
            final(self).users == old(self).users,
            final(self).submissions == old(self).submissions,
            final(self).forums == old(self).forums,
            final(self).challenges == old(self).challenges,
            final(self).config == old(self).config,
            final(self).submissions_enabled == old(self).submissions_enabled,
            !has_submission(old(self).submissions@, submission_id as int) ==> r == Err::<JudgeOutcome, CoreError>(
                CoreError::SubmissionNotFound,
            ) && final(self).judgements == old(self).judgements,
            has_submission(old(self).submissions@, submission_id as int) && !is_sentinel(
                challenge@,
            ) && !has_challenge(old(self).challenges@, challenge@) ==> r == Err::<JudgeOutcome, CoreError>(
                CoreError::ChallengeNotFound,
            ) && final(self).judgements == old(self).judgements,
            has_submission(old(self).submissions@, submission_id as int) && (is_sentinel(
                challenge@,
            ) || has_challenge(old(self).challenges@, challenge@)) ==> (r matches Ok(out) && {
                let valid = !is_sentinel(challenge@);
                let points: int = if valid {
                    1
                } else {
                    0
                };
                &&& judgement_recorded(
                    old(self).judgements@,
                    final(self).judgements@,
                    submission_id as int,
                    challenge@,
                    points,
                    valid,
                )
                &&& out.associate == old(self).submissions@[submission_index(
                    old(self).submissions@,
                    submission_id as int,
                )].user
                &&& out.submission_id == submission_id
                &&& out.points == points
                &&& out.valid == valid
                &&& out.feedback == (if valid {
                    Feedback::PositiveReaction
                } else if challenge@ == "___unclear"@ {
                    Feedback::AskForClearResend
                } else {
                    Feedback::RejectAsInvalid
                })
            }),
    {
        let associate: i64;
        match self.find_submission(submission_id) {
            None => {
                return Err(CoreError::SubmissionNotFound);
            },
            Some(sub) => {
                proof {
                    let k = submission_index(self.submissions@, submission_id as int);
                    let w = choose|i: int|
                        0 <= i < self.submissions@.len() && self.submissions@[i] == *sub;
                    assert(self.submissions@[w].message_id == submission_id);
                    assert(self.submissions@[k].message_id == submission_id);
                    assert(w == k);
                }
                associate = sub.user;
            },
        }
        let sentinel = Self::name_is_sentinel(&challenge);
        if !sentinel {
            if self.find_challenge(&challenge).is_none() {
                return Err(CoreError::ChallengeNotFound);
            }
        }
        let points: i32 = if sentinel {
            0
        } else {
            1
        };
        let valid = !sentinel;
        let feedback = if valid {
            Feedback::PositiveReaction
        } else {
            let unclear = String::from_str("___unclear");
            if challenge == unclear {
                Feedback::AskForClearResend
            } else {
                Feedback::RejectAsInvalid
            }
        };

        let ghost old_js = self.judgements@;
        let n = self.judgements.len();
        let mut slot: Option<usize> = None;
        for i in 0..n
            invariant
                n == self.judgements@.len(),
                match slot {
                    Some(s) => s < n && self.judgements@[s as int].submission_id == submission_id,
                    None => forall|k: int|
                        0 <= k < i ==> self.judgements@[k].submission_id != submission_id,
                },
        {
            if slot.is_none() && self.judgements[i].submission_id == submission_id {
                slot = Some(i);
            }
        }
        let row = Judgement { submission_id, challenge_name: challenge, points, valid };
        match slot {
            Some(i) => {
                proof {
                    let k = judgement_index(old_js, submission_id as int);
                    assert(old_js[i as int].submission_id == submission_id);
                    assert(old_js[k].submission_id == submission_id);
                    assert(k == i as int);
                }
                self.judgements.set(i, row);
            },
            None => {
                assert(!has_judgement(old_js, submission_id as int));
                self.judgements.push(row);
            },
        }
        proof {
            lemma_recorded_unique(
                old_js,
                self.judgements@,
                submission_id as int,
                challenge@,
                if valid {
                    1int
                } else {
                    0int
                },
                valid,
            );
            assert forall|i: int|
                0 <= i < self.judgements@.len() implies has_submission(
                self.submissions@,
                self.judgements@[i].submission_id as int,
            ) by {
                if has_judgement(old_js, submission_id as int) {
                    let k = judgement_index(old_js, submission_id as int);
                    if i != k {
                        assert(self.judgements@[i] == old_js[i]);
                    }
                } else {
                    if i < old_js.len() {
                        assert(self.judgements@[i] == old_js[i]);
                    }
                }
            }
        }
        Ok(JudgeOutcome { associate, submission_id, points, valid, feedback })
    }
}

} // verus!
