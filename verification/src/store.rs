//! The orchestration core's state: the durable rows the components own, plus
//! the submissions-enabled flag. The surrounding program loads this state
//! from its durable store and writes each change back; the core's operations
//! are functions over this value.

use vstd::prelude::*;

use crate::model::{Challenge, Config, Forum, Judgement, Submission, User};

verus! {

/// The whole ledger: participants, submissions, judgements, channel topology
/// entries, the challenge catalog, configuration rows and the coarse
/// kill-switch for submissions.
pub struct Store {
    pub users: Vec<User>,
    pub submissions: Vec<Submission>,
    pub judgements: Vec<Judgement>,
    pub forums: Vec<Forum>,
    pub challenges: Vec<Challenge>,
    pub config: Vec<Config>,
    pub submissions_enabled: bool,
}

/// No two participants share an id.
pub open spec fn user_ids_distinct(users: Seq<User>) -> bool {
    forall|i: int, j: int| 0 <= i < j < users.len() ==> users[i].id != users[j].id
}

/// No two submissions share a message id.
pub open spec fn submission_ids_distinct(subs: Seq<Submission>) -> bool {
    forall|i: int, j: int| 0 <= i < j < subs.len() ==> subs[i].message_id != subs[j].message_id
}

/// No two judgements share a submission id: the ledger holds at most one
/// judgement per submission.
pub open spec fn judgement_ids_distinct(js: Seq<Judgement>) -> bool {
    forall|i: int, j: int| 0 <= i < j < js.len() ==> js[i].submission_id != js[j].submission_id
}

/// No two topology entries share a channel handle.
pub open spec fn forum_ids_distinct(fs: Seq<Forum>) -> bool {
    forall|i: int, j: int| 0 <= i < j < fs.len() ==> fs[i].id != fs[j].id
}

/// At most one *open* topology entry exists per team name; closed entries
/// may pile up as teams come and go.
pub open spec fn open_forums_unique(fs: Seq<Forum>) -> bool {
    forall|i: int, j: int|
        0 <= i < j < fs.len() && fs[i].open && fs[j].open ==> fs[i].name@ != fs[j].name@
}

/// No two catalog entries share a challenge name.
pub open spec fn challenge_names_distinct(cs: Seq<Challenge>) -> bool {
    forall|i: int, j: int| 0 <= i < j < cs.len() ==> cs[i].name@ != cs[j].name@
}

/// The two terminal sentinel outcomes a judgement may record in place of a
/// catalog challenge.
pub open spec fn is_sentinel(name: Seq<char>) -> bool {
    name == "___unclear"@ || name == "___invalid"@
}

/// Some participant holds this id.
pub open spec fn has_user(users: Seq<User>, id: int) -> bool {
    exists|i: int| 0 <= i < users.len() && users[i].id == id
}

/// The index of the participant with this id (meaningful when `has_user`).
pub open spec fn user_index(users: Seq<User>, id: int) -> int {
    choose|i: int| 0 <= i < users.len() && users[i].id == id
}

/// Some submission is keyed by this message id.
pub open spec fn has_submission(subs: Seq<Submission>, message_id: int) -> bool {
    exists|i: int| 0 <= i < subs.len() && subs[i].message_id == message_id
}

/// The index of the submission with this message id (meaningful when
/// `has_submission`).
pub open spec fn submission_index(subs: Seq<Submission>, message_id: int) -> int {
    choose|i: int| 0 <= i < subs.len() && subs[i].message_id == message_id
}

/// Some judgement is keyed by this submission id.
pub open spec fn has_judgement(js: Seq<Judgement>, submission_id: int) -> bool {
    exists|i: int| 0 <= i < js.len() && js[i].submission_id == submission_id
}

/// The index of the judgement for this submission id (meaningful when
/// `has_judgement`).
pub open spec fn judgement_index(js: Seq<Judgement>, submission_id: int) -> int {
    choose|i: int| 0 <= i < js.len() && js[i].submission_id == submission_id
}

/// Some catalog entry carries this challenge name.
pub open spec fn has_challenge(cs: Seq<Challenge>, name: Seq<char>) -> bool {
    exists|i: int| 0 <= i < cs.len() && cs[i].name@ == name
}

/// Some open topology entry carries this team name.
pub open spec fn has_open_forum(fs: Seq<Forum>, name: Seq<char>) -> bool {
    exists|i: int| 0 <= i < fs.len() && fs[i].open && fs[i].name@ == name
}


/// At least one participant currently holds this team name: teams are a
/// computed projection of the roster, never rows of their own.
pub open spec fn live_team(users: Seq<User>, name: Seq<char>) -> bool {
    exists|i: int| 0 <= i < users.len() && users[i].team@ == name
}

impl Store {
    /// Well-formedness of the whole state: every keyed collection is keyed
    /// uniquely, at most one open topology entry exists per team name, every
    /// submission names a registered submitter, every judgement names a
    /// stored submission, points follow the fixed outcome mapping, and no
    /// catalog entry is named like a sentinel outcome.
    pub open spec fn wf(self) -> bool {
        &&& user_ids_distinct(self.users@)
        &&& submission_ids_distinct(self.submissions@)
        &&& judgement_ids_distinct(self.judgements@)
        &&& forum_ids_distinct(self.forums@)
        &&& open_forums_unique(self.forums@)
        &&& challenge_names_distinct(self.challenges@)
        &&& forall|i: int|
            0 <= i < self.submissions@.len() ==> has_user(
                self.users@,
                self.submissions@[i].user as int,
            )
        &&& forall|i: int|
            0 <= i < self.judgements@.len() ==> has_submission(
                self.submissions@,
                self.judgements@[i].submission_id as int,
            )
        &&& forall|i: int|
            0 <= i < self.judgements@.len() ==> self.judgements@[i].points == (
            if self.judgements@[i].valid {
                1int
            } else {
                0int
            })
        &&& forall|i: int| 0 <= i < self.challenges@.len() ==> !is_sentinel(self.challenges@[i].name@)
    }

    /// An empty ledger with submissions enabled, as the process starts before
    /// any durable rows are loaded.
    pub fn new() -> (s: Store)
        ensures
            s.wf(),
            s.users@.len() == 0,
            s.submissions@.len() == 0,
            s.judgements@.len() == 0,
            s.forums@.len() == 0,
            s.challenges@.len() == 0,
            s.config@.len() == 0,
            s.submissions_enabled,
    {
        Store {
            users: Vec::new(),
            submissions: Vec::new(),
            judgements: Vec::new(),
            forums: Vec::new(),
            challenges: Vec::new(),
            config: Vec::new(),
            submissions_enabled: true,
        }
    }

    /// Flip the coarse kill-switch for submissions; nothing else moves.
    pub fn set_submissions_enabled(&mut self, status: bool)
        ensures
            final(self).submissions_enabled == status,
            final(self).users == old(self).users,
            final(self).submissions == old(self).submissions,
            final(self).judgements == old(self).judgements,
            final(self).forums == old(self).forums,
            final(self).challenges == old(self).challenges,
            final(self).config == old(self).config,
            old(self).wf() ==> final(self).wf(),
    {
        self.submissions_enabled = status;
    }

    /// Look a participant up by id; the roster is keyed uniquely, so the
    /// returned row is the one binding for that participant.
    pub fn find_user(&self, id: i64) -> (r: Option<&User>)
        ensures
            match r {
                Some(u) => has_user(self.users@, id as int) && u.id == id && exists|i: int|
                    0 <= i < self.users@.len() && self.users@[i] == *u,
                None => !has_user(self.users@, id as int),
            },
    {
        let n = self.users.len();
        for i in 0..n
            invariant
                n == self.users@.len(),
                forall|k: int| 0 <= k < i ==> self.users@[k].id != id,
        {
            if self.users[i].id == id {
                return Some(&self.users[i]);
            }
        }
        None
    }

    /// Look a submission up by its message id.
    pub fn find_submission(&self, message_id: i64) -> (r: Option<&Submission>)
        ensures
            match r {
                Some(s) => has_submission(self.submissions@, message_id as int) && s.message_id
                    == message_id && exists|i: int|
                    0 <= i < self.submissions@.len() && self.submissions@[i] == *s,
                None => !has_submission(self.submissions@, message_id as int),
            },
    {
        let n = self.submissions.len();
        for i in 0..n
            invariant
                n == self.submissions@.len(),
                forall|k: int| 0 <= k < i ==> self.submissions@[k].message_id != message_id,
        {
            if self.submissions[i].message_id == message_id {
                return Some(&self.submissions[i]);
            }
        }
        None
    }

    /// Look a catalog entry up by challenge name.
    pub fn find_challenge(&self, name: &String) -> (r: Option<&Challenge>)
        ensures
            match r {
                Some(c) => has_challenge(self.challenges@, name@) && c.name@ == name@ && exists|
                    i: int,
                |
                    0 <= i < self.challenges@.len() && self.challenges@[i] == *c,
                None => !has_challenge(self.challenges@, name@),
            },
    {
        let n = self.challenges.len();
        for i in 0..n
            invariant
                n == self.challenges@.len(),
                forall|k: int| 0 <= k < i ==> self.challenges@[k].name@ != name@,
        {
            if self.challenges[i].name == *name {
                return Some(&self.challenges[i]);
            }
        }
        None
    }

    /// A configuration value by name, or the given fallback where no row
    /// carries that name.
    pub fn config_value(&self, name: &String, fallback: String) -> (r: String)
        ensures
            match config_lookup(self.config@, name@) {
                Some(v) => r@ == v,
                None => r@ == fallback@,
            },
    {
        let n = self.config.len();
        for i in 0..n
            invariant
                n == self.config@.len(),
                forall|k: int| 0 <= k < i ==> self.config@[k].name@ != name@,
        {
            if self.config[i].name == *name {
                proof {
                    lemma_config_lookup_at(self.config@, name@, i as int);
                }
                return self.config[i].value.clone();
            }
        }
        proof {
            lemma_config_lookup_none(self.config@, name@);
        }
        fallback
    }
}

/// The value of the first configuration row carrying this name, if any.
pub open spec fn config_lookup(rows: Seq<Config>, name: Seq<char>) -> Option<Seq<char>>
    decreases rows.len(),
{
    if rows.len() == 0 {
        None
    } else if rows[0].name@ == name {
        Some(rows[0].value@)
    } else {
        config_lookup(rows.drop_first(), name)
    }
}

/// A scan that found its first matching row at index `i` pins the lookup.
proof fn lemma_config_lookup_at(rows: Seq<Config>, name: Seq<char>, i: int)
    requires
        0 <= i < rows.len(),
        rows[i].name@ == name,
        forall|k: int| 0 <= k < i ==> rows[k].name@ != name,
    ensures
        config_lookup(rows, name) == Some(rows[i].value@),
    decreases i,
{
    if i > 0 {
        assert forall|k: int| 0 <= k < i - 1 implies rows.drop_first()[k].name@ != name by {
            assert(rows.drop_first()[k] == rows[k + 1]);
        }
        lemma_config_lookup_at(rows.drop_first(), name, i - 1);
    }
}

/// A scan that found no row with the name proves the lookup empty.
proof fn lemma_config_lookup_none(rows: Seq<Config>, name: Seq<char>)
    requires
        forall|k: int| 0 <= k < rows.len() ==> rows[k].name@ != name,
    ensures
        config_lookup(rows, name) is None,
    decreases rows.len(),
{
    if rows.len() > 0 {
        assert forall|k: int| 0 <= k < rows.drop_first().len() implies rows.drop_first()[k].name@
            != name by {
            assert(rows.drop_first()[k] == rows[k + 1]);
        }
        lemma_config_lookup_none(rows.drop_first(), name);
    }
}

} // verus!
