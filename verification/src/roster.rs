//! The roster store: the durable mapping of participant to team. Joining a
//! team is a destructive rebind of the one binding a participant holds;
//! submissions made earlier keep the team name they were submitted under.

use vstd::prelude::*;
use vstd::pervasive::VecAdditionalExecFns;
use vstd::string::StringExecFns;

use crate::model::{CoreError, Team, User};
use crate::store::{has_user, user_index, Store};

verus! {

/// The characters the blank check strips: ASCII whitespace.
pub open spec fn is_space(c: char) -> bool {
    c == ' ' || c == '\t' || c == '\n' || c == '\r' || c == '\u{0b}' || c == '\u{c}'
}

/// A name nobody can join: empty, or whitespace throughout.
pub open spec fn blank(s: Seq<char>) -> bool {
    forall|i: int| 0 <= i < s.len() ==> is_space(#[trigger] s[i])
}

/// Is this name blank (empty or whitespace throughout)?
pub fn name_is_blank(s: &String) -> (r: bool)
    ensures
        r == blank(s@),
{
    let n = s.as_str().unicode_len();
    for i in 0..n
        invariant
            n == s@.len(),
            forall|k: int| 0 <= k < i ==> is_space(#[trigger] s@[k]),
    {
        let c = s.as_str().get_char(i);
        let space = c == ' ' || c == '\t' || c == '\n' || c == '\r' || c == '\u{0b}' || c
            == '\u{c}';
        if !space {
            return false;
        }
    }
    true
}

/// Some listed team row carries this name.
pub open spec fn team_listed(rs: Seq<Team>, name: Seq<char>) -> bool {
    exists|k: int| 0 <= k < rs.len() && (#[trigger] rs[k]).team@ == name
}

/// A roster row carrying the new team binding and otherwise the fields of the
/// old row: what a rebind leaves in place.
pub open spec fn rebound_user(older: User, newer: User, team: Seq<char>) -> bool {
    newer.id == older.id && newer.team@ == team && newer.username == older.username
        && newer.first_name == older.first_name && newer.last_name == older.last_name
}

impl Store {
    /// Bind a participant to a team. A blank name is rejected. A participant
    /// already on the roster is rebound: only the team changes, the display
    /// fields stay as first recorded. A new participant is appended whole.
    ///
    /// Nothing else moves: in particular every stored submission keeps the
    /// team name it was submitted under.
    pub fn join_team(
        &mut self,
        id: i64,
        team: String,
        username: Option<String>,
        first_name: String,
        last_name: Option<String>,
    ) -> (r: Result<(), CoreError>)
        requires
            old(self).wf(),
        ensures
            final(self).wf(),
            final(self).submissions == old(self).submissions,
            final(self).judgements == old(self).judgements,
            final(self).forums == old(self).forums,
            final(self).challenges == old(self).challenges,
            final(self).config == old(self).config,
            final(self).submissions_enabled == old(self).submissions_enabled,
            blank(team@) ==> r == Err::<(), CoreError>(CoreError::EmptyInput) && final(self).users
                == old(self).users,
            !blank(team@) ==> r == Ok::<(), CoreError>(()) && (if has_user(
                old(self).users@,
                id as int,
            ) {
                let k = user_index(old(self).users@, id as int);
                &&& final(self).users@.len() == old(self).users@.len()
                &&& forall|i: int|
                    0 <= i < old(self).users@.len() && i != k ==> final(self).users@[i] == old(
                        self,
                    ).users@[i]
                &&& rebound_user(old(self).users@[k], final(self).users@[k], team@)
            } else {
                &&& final(self).users@.len() == old(self).users@.len() + 1
                &&& forall|i: int|
                    0 <= i < old(self).users@.len() ==> final(self).users@[i] == old(
                        self,
                    ).users@[i]
                &&& final(self).users@.last() == (User { id, team, username, first_name, last_name })
            }),
    {
        if name_is_blank(&team) {
            return Err(CoreError::EmptyInput);
        }
        let n = self.users.len();
        let mut slot: Option<usize> = None;
        for i in 0..n
            invariant
                n == self.users@.len(),
                match slot {
                    Some(s) => s < n && self.users@[s as int].id == id,
                    None => forall|k: int| 0 <= k < i ==> self.users@[k].id != id,
                },
        {
            if slot.is_none() && self.users[i].id == id {
                slot = Some(i);
            }
        }
        match slot {
            Some(i) => {
                proof {
                    let k = user_index(self.users@, id as int);
                    assert(self.users@[i as int].id == id);
                    assert(self.users@[k].id == id);
                    assert(k == i as int);
                }
                let older = &self.users[i];
                let row = User {
                    id: older.id,
                    team,
                    username: clone_opt_string(&older.username),
                    first_name: older.first_name.clone(),
                    last_name: clone_opt_string(&older.last_name),
                };
                self.users.set(i, row);
                proof {
                    assert forall|a: int, b: int|
                        0 <= a < b < self.users@.len() implies self.users@[a].id
                        != self.users@[b].id by {
                        if a != i as int && b != i as int {
                            assert(self.users@[a] == old(self).users@[a]);
                            assert(self.users@[b] == old(self).users@[b]);
                        } else {
                            assert(self.users@[i as int].id == old(self).users@[i as int].id);
                        }
                    }
                    assert forall|s: int|
                        0 <= s < self.submissions@.len() implies has_user(
                        self.users@,
                        (#[trigger] self.submissions@[s]).user as int,
                    ) by {
                        let w = choose|w: int|
                            0 <= w < old(self).users@.len() && old(self).users@[w].id == old(
                                self,
                            ).submissions@[s].user;
                        assert(self.users@[w].id == old(self).users@[w].id);
                    }
                }
                Ok(())
            },
            None => {
                self.users.push(User { id, team, username, first_name, last_name });
                proof {
                    assert forall|a: int, b: int|
                        0 <= a < b < self.users@.len() implies self.users@[a].id
                        != self.users@[b].id by {
                        if b == self.users@.len() - 1 {
                            assert(self.users@[a] == old(self).users@[a]);
                            assert(!has_user(old(self).users@, id as int));
                        } else {
                            assert(self.users@[a] == old(self).users@[a]);
                            assert(self.users@[b] == old(self).users@[b]);
                        }
                    }
                    assert forall|s: int|
                        0 <= s < self.submissions@.len() implies has_user(
                        self.users@,
                        (#[trigger] self.submissions@[s]).user as int,
                    ) by {
                        let w = choose|w: int|
                            0 <= w < old(self).users@.len() && old(self).users@[w].id == old(
                                self,
                            ).submissions@[s].user;
                        assert(self.users@[w].id == old(self).users@[w].id);
                    }
                }
                Ok(())
            },
        }
    }

    /// The caller's team, shown whole: the team row (name and member count)
    /// and every member, in roster order. A caller with no binding is turned
    /// away.
    pub fn team_overview(&self, id: i64) -> (r: Result<(Team, Vec<User>), CoreError>)
        requires
            self.wf(),
            self.users@.len() <= i64::MAX,
        ensures
            !has_user(self.users@, id as int) ==> r == Err::<(Team, Vec<User>), CoreError>(
                CoreError::NotRegistered,
            ),
            has_user(self.users@, id as int) ==> (r matches Ok((team, members)) && {
                let mine = self.users@[user_index(self.users@, id as int)].team@;
                &&& team.team@ == mine
                &&& team.count == members_of(self.users@, mine).len()
                &&& members@ == members_of(self.users@, mine)
            }),
    {
        let me = match self.find_user(id) {
            None => {
                return Err(CoreError::NotRegistered);
            },
            Some(u) => u,
        };
        proof {
            let k = user_index(self.users@, id as int);
            let w = choose|w: int| 0 <= w < self.users@.len() && self.users@[w] == *me;
            assert(self.users@[w].id == id && self.users@[k].id == id);
            assert(w == k);
        }
        let mine = me.team.clone();
        let n = self.users.len();
        let mut members: Vec<User> = Vec::new();
        for i in 0..n
            invariant
                n == self.users@.len(),
                members@ == members_of(self.users@.take(i as int), mine@),
        {
            proof {
                assert(self.users@.take(i + 1).drop_last() =~= self.users@.take(i as int));
                assert(self.users@.take(i + 1).last() == self.users@[i as int]);
            }
            if self.users[i].team == mine {
                let row = copy_user(&self.users[i]);
                members.push(row);
            }
        }
        proof {
            assert(self.users@.take(n as int) =~= self.users@);
            lemma_members_of_len(self.users@, mine@);
        }
        let count = members.len() as i64;
        Ok((Team { team: mine, count }, members))
    }
}

/// The members of a team, in roster order.
pub open spec fn members_of(users: Seq<User>, team: Seq<char>) -> Seq<User>
    decreases users.len(),
{
    if users.len() == 0 {
        Seq::empty()
    } else {
        let rest = members_of(users.drop_last(), team);
        if users.last().team@ == team {
            rest.push(users.last())
        } else {
            rest
        }
    }
}

impl Store {
    /// Every live team with its member count, in order of first appearance.
    pub fn list_teams(&self) -> (r: Vec<Team>)
        requires
            self.wf(),
            self.users@.len() <= i64::MAX,
        ensures
            forall|k: int|
                0 <= k < r@.len() ==> crate::store::live_team(
                    self.users@,
                    (#[trigger] r@[k]).team@,
                ) && r@[k].count == members_of(self.users@, r@[k].team@).len(),
            forall|u: int|
                0 <= u < self.users@.len() ==> team_listed(r@, (#[trigger] self.users@[u]).team@),
            forall|k1: int, k2: int| 0 <= k1 < k2 < r@.len() ==> r@[k1].team@ != r@[k2].team@,
    {
        let names = self.live_team_names();
        let n = names.len();
        let mut r: Vec<Team> = Vec::new();
        for i in 0..n
            invariant
                n == names@.len(),
                self.wf(),
                self.users@.len() <= i64::MAX,
                forall|u: int|
                    0 <= u < self.users@.len() ==> crate::topology::name_listed(
                        names@,
                        (#[trigger] self.users@[u]).team@,
                    ),
                forall|k1: int, k2: int| 0 <= k1 < k2 < names@.len() ==> names@[k1]@ != names@[k2]@,
                forall|k: int|
                    0 <= k < names@.len() ==> crate::store::live_team(
                        self.users@,
                        (#[trigger] names@[k])@,
                    ),
                r@.len() == i,
                forall|k: int|
                    0 <= k < r@.len() ==> (#[trigger] r@[k]).team@ == names@[k]@ && r@[k].count
                        == members_of(self.users@, r@[k].team@).len(),
        {
            let name = names[i].clone();
            let count = self.count_members(&name);
            r.push(Team { team: name, count });
        }
        proof {
            assert forall|u: int| 0 <= u < self.users@.len() implies team_listed(
                r@,
                (#[trigger] self.users@[u]).team@,
            ) by {
                let k = choose|k: int|
                    0 <= k < names@.len() && (names@[k])@ == self.users@[u].team@;
                assert((r@[k]).team@ == self.users@[u].team@);
            }
        }
        r
    }

    /// How many participants hold this team name.
    pub fn count_members(&self, team: &String) -> (r: i64)
        requires
            self.wf(),
            self.users@.len() <= i64::MAX,
        ensures
            r == members_of(self.users@, team@).len(),
    {
        let n = self.users.len();
        let mut count: i64 = 0;
        for i in 0..n
            invariant
                n == self.users@.len(),
                n <= i64::MAX,
                count == members_of(self.users@.take(i as int), team@).len(),
                0 <= count <= i,
        {
            proof {
                assert(self.users@.take(i + 1).drop_last() =~= self.users@.take(i as int));
                assert(self.users@.take(i + 1).last() == self.users@[i as int]);
            }
            if self.users[i].team == *team {
                count = count + 1;
            }
        }
        proof {
            assert(self.users@.take(n as int) =~= self.users@);
        }
        count
    }
}

/// A team has no more members than the roster has rows.
pub proof fn lemma_members_of_len(users: Seq<User>, team: Seq<char>)
    ensures
        members_of(users, team).len() <= users.len(),
    decreases users.len(),
{
    if users.len() > 0 {
        lemma_members_of_len(users.drop_last(), team);
    }
}

/// A fresh Option<String> reading as the given one.
fn clone_opt_string(o: &Option<String>) -> (r: Option<String>)
    ensures
        r == *o,
{
    match o {
        Some(x) => Some(x.clone()),
        None => None,
    }
}

/// A fresh roster row equal to the given one.
fn copy_user(u: &User) -> (r: User)
    ensures
        r == *u,
{
    User {
        id: u.id,
        team: u.team.clone(),
        username: clone_opt_string(&u.username),
        first_name: u.first_name.clone(),
        last_name: clone_opt_string(&u.last_name),
    }
}

} // verus!
