//! The channel topology synchronizer: it keeps the set of externally visible
//! team channels in step with the live team set. Reconciliation is a diff:
//! teams with no open entry get a channel allocated, open entries whose team
//! is gone are closed. The caller serializes reconciliations under one
//! process-wide lock and performs the external allocation and close calls;
//! this module computes the diff and records each outcome, and keeps the
//! uniqueness invariant: at most one open entry per team name.

use vstd::prelude::*;
use vstd::pervasive::VecAdditionalExecFns;

use crate::model::{Forum, User};
use crate::store::{has_open_forum, live_team, open_forums_unique, Store};

verus! {

/// The diff a reconciliation pass must act on: team names that need a channel
/// allocated, and handles of open entries whose team has disappeared.
#[derive(Debug)]
pub struct ReconcilePlan {
    pub to_create: Vec<String>,
    pub to_close: Vec<i32>,
}

/// Some listed name reads as the given one.
pub open spec fn name_listed(v: Seq<String>, name: Seq<char>) -> bool {
    exists|k: int| 0 <= k < v.len() && v[k]@ == name
}

/// Some listed handle equals the given one.
pub open spec fn id_listed(v: Seq<i32>, id: int) -> bool {
    exists|k: int| 0 <= k < v.len() && v[k] == id
}

/// Some open topology entry holds this handle while its team name is no
/// longer live: the entry a reconciliation pass must close.
pub open spec fn stale_open_forum(fs: Seq<Forum>, us: Seq<User>, id: int) -> bool {
    exists|f: int|
        0 <= f < fs.len() && (#[trigger] fs[f]).id == id && fs[f].open && !live_team(
            us,
            fs[f].name@,
        )
}

/// As `stale_open_forum`, among the first `bound` entries only.
pub open spec fn stale_open_forum_before(fs: Seq<Forum>, us: Seq<User>, id: int, bound: int) -> bool {
    exists|f: int|
        0 <= f < bound <= fs.len() && (#[trigger] fs[f]).id == id && fs[f].open && !live_team(
            us,
            fs[f].name@,
        )
}

/// The name stands in the list before the given bound.
pub open spec fn listed_before(v: Seq<String>, bound: int, name: Seq<char>) -> bool {
    exists|i: int| 0 <= i < bound && (#[trigger] v[i])@ == name
}

/// Appending to a name list adds exactly the appended name.
pub proof fn lemma_name_listed_push(v: Seq<String>, x: String, name: Seq<char>)
    ensures
        name_listed(v.push(x), name) == (name_listed(v, name) || x@ == name),
{
    if name_listed(v, name) {
        let k = choose|k: int| 0 <= k < v.len() && v[k]@ == name;
        assert(v.push(x)[k]@ == name);
    }
    if x@ == name {
        assert(v.push(x)[v.len() as int]@ == name);
    }
    if name_listed(v.push(x), name) && x@ != name {
        let k = choose|k: int| 0 <= k < v.push(x).len() && v.push(x)[k]@ == name;
        assert(k < v.len());
        assert(v[k]@ == name);
    }
}

/// Appending to a handle list adds exactly the appended handle.
pub proof fn lemma_id_listed_push(v: Seq<i32>, x: i32, id: int)
    ensures
        id_listed(v.push(x), id) == (id_listed(v, id) || x == id),
{
    if id_listed(v, id) {
        let k = choose|k: int| 0 <= k < v.len() && v[k] == id;
        assert(v.push(x)[k] == id);
    }
    if x == id {
        assert(v.push(x)[v.len() as int] == id);
    }
    if id_listed(v.push(x), id) && x != id {
        let k = choose|k: int| 0 <= k < v.push(x).len() && v.push(x)[k] == id;
        assert(k < v.len());
        assert(v[k] == id);
    }
}

/// Recording a creation only where no open entry carries the name keeps at
/// most one open entry per team name.
pub proof fn lemma_create_preserves_open_uniqueness(fs: Seq<Forum>, f: Forum)
    requires
        open_forums_unique(fs),
        !has_open_forum(fs, f.name@),
    ensures
        open_forums_unique(fs.push(f)),
{
    let gs = fs.push(f);
    assert forall|i: int, j: int|
        0 <= i < j < gs.len() && gs[i].open && gs[j].open implies gs[i].name@ != gs[j].name@ by {
        if j == fs.len() {
            assert(gs[i] == fs[i]);
            if fs[i].open && fs[i].name@ == f.name@ {
                assert(has_open_forum(fs, f.name@));
            }
        } else {
            assert(gs[i] == fs[i] && gs[j] == fs[j]);
        }
    }
}

/// Closing entries never makes two open entries share a name: flipping any
/// set of entries to closed keeps at most one open entry per team name.
pub proof fn lemma_close_preserves_open_uniqueness(fs: Seq<Forum>, gs: Seq<Forum>)
    requires
        open_forums_unique(fs),
        gs.len() == fs.len(),
        forall|k: int|
            0 <= k < fs.len() ==> (#[trigger] gs[k]).name@ == fs[k].name@ && (gs[k].open
                ==> fs[k].open),
    ensures
        open_forums_unique(gs),
{
}

/// Does this list of names hold one with the given view?
fn contains_name(v: &Vec<String>, name: &String) -> (r: bool)
    ensures
        r == name_listed(v@, name@),
{
    let n = v.len();
    for i in 0..n
        invariant
            n == v@.len(),
            forall|k: int| 0 <= k < i ==> v@[k]@ != name@,
    {
        if v[i] == *name {
            assert(v@[i as int]@ == name@);
            return true;
        }
    }
    false
}

impl Store {
    /// The live team set: each distinct team name currently held by at least
    /// one participant, in order of first appearance in the roster. Teams are
    /// a computed projection of the roster, never rows of their own.
    pub fn live_team_names(&self) -> (r: Vec<String>)
        ensures
            forall|k: int| 0 <= k < r@.len() ==> live_team(self.users@, (#[trigger] r@[k])@),
            forall|u: int|
                0 <= u < self.users@.len() ==> name_listed(r@, (#[trigger] self.users@[u]).team@),
            forall|k1: int, k2: int| 0 <= k1 < k2 < r@.len() ==> r@[k1]@ != r@[k2]@,
    {
        let mut r: Vec<String> = Vec::new();
        let n = self.users.len();
        for u in 0..n
            invariant
                n == self.users@.len(),
                forall|k: int| 0 <= k < r@.len() ==> live_team(self.users@, (#[trigger] r@[k])@),
                forall|i: int|
                    0 <= i < u ==> name_listed(r@, (#[trigger] self.users@[i]).team@),
                forall|k1: int, k2: int| 0 <= k1 < k2 < r@.len() ==> r@[k1]@ != r@[k2]@,
        {
            if !contains_name(&r, &self.users[u].team) {
                let ghost r0 = r@;
                let name = self.users[u].team.clone();
                r.push(name);
                proof {
                    assert(r@ == r0.push(r@[r0.len() as int]));
                    assert(r@[r0.len() as int]@ == self.users@[u as int].team@);
                    assert forall|k: int| 0 <= k < r@.len() implies live_team(
                        self.users@,
                        (#[trigger] r@[k])@,
                    ) by {
                        if k < r0.len() {
                            assert(r@[k] == r0[k]);
                        } else {
                            assert(self.users@[u as int].team@ == r@[k]@);
                        }
                    }
                    assert forall|i: int| 0 <= i < u + 1 implies name_listed(
                        r@,
                        (#[trigger] self.users@[i]).team@,
                    ) by {
                        lemma_name_listed_push(r0, r@[r0.len() as int], self.users@[i].team@);
                    }
                    assert forall|k1: int, k2: int|
                        0 <= k1 < k2 < r@.len() implies r@[k1]@ != r@[k2]@ by {
                        if k2 == r0.len() {
                            assert(r@[k1] == r0[k1]);
                            if r@[k1]@ == r@[k2]@ {
                                assert(name_listed(r0, self.users@[u as int].team@));
                            }
                        } else {
                            assert(r@[k1] == r0[k1] && r@[k2] == r0[k2]);
                        }
                    }
                }
            } else {
                assert(name_listed(r@, self.users@[u as int].team@));
            }
        }
        r
    }

    /// The diff between the live team set and the topology: every live team
    /// with no open entry is listed for creation, exactly once; every open
    /// entry whose team name is no longer live is listed for closing, exactly
    /// once.
    pub fn reconcile_plan(&self) -> (p: ReconcilePlan)
        requires
            self.wf(),
        ensures
            forall|k: int|
                0 <= k < p.to_create@.len() ==> live_team(self.users@, (#[trigger] p.to_create@[k])@)
                    && !has_open_forum(self.forums@, p.to_create@[k]@),
            forall|u: int|
                0 <= u < self.users@.len() && !has_open_forum(
                    self.forums@,
                    (#[trigger] self.users@[u]).team@,
                ) ==> name_listed(p.to_create@, self.users@[u].team@),
            forall|k1: int, k2: int|
                0 <= k1 < k2 < p.to_create@.len() ==> p.to_create@[k1]@ != p.to_create@[k2]@,
            forall|k: int|
                #![trigger p.to_close@[k]]
                0 <= k < p.to_close@.len() ==> stale_open_forum(
                    self.forums@,
                    self.users@,
                    p.to_close@[k] as int,
                ),
            forall|f: int|
                0 <= f < self.forums@.len() && (#[trigger] self.forums@[f]).open && !live_team(
                    self.users@,
                    self.forums@[f].name@,
                ) ==> id_listed(p.to_close@, self.forums@[f].id as int),
            forall|k1: int, k2: int| 0 <= k1 < k2 < p.to_close@.len() ==> p.to_close@[k1] != p.to_close@[k2],
    {
        let teams = self.live_team_names();
        let mut to_create: Vec<String> = Vec::new();
        let tn = teams.len();
        for t in 0..tn
            invariant
                tn == teams@.len(),
                forall|k: int|
                    0 <= k < teams@.len() ==> live_team(self.users@, (#[trigger] teams@[k])@),
                forall|u: int|
                    0 <= u < self.users@.len() ==> name_listed(
                        teams@,
                        (#[trigger] self.users@[u]).team@,
                    ),
                forall|k1: int, k2: int| 0 <= k1 < k2 < teams@.len() ==> teams@[k1]@ != teams@[k2]@,
                forall|k: int|
                    0 <= k < to_create@.len() ==> live_team(
                        self.users@,
                        (#[trigger] to_create@[k])@,
                    ) && !has_open_forum(self.forums@, to_create@[k]@),
                forall|i: int|
                    0 <= i < t && !has_open_forum(self.forums@, (#[trigger] teams@[i])@)
                        ==> name_listed(to_create@, teams@[i]@),
                forall|k: int|
                    #![trigger to_create@[k]]
                    0 <= k < to_create@.len() ==> listed_before(teams@, t as int, to_create@[k]@),
                forall|k1: int, k2: int|
                    0 <= k1 < k2 < to_create@.len() ==> to_create@[k1]@ != to_create@[k2]@,
        {
            if self.lookup_channel(&teams[t]).is_none() {
                let ghost c0 = to_create@;
                let name = teams[t].clone();
                to_create.push(name);
                proof {
                    assert(to_create@ == c0.push(to_create@[c0.len() as int]));
                    assert(to_create@[c0.len() as int]@ == teams@[t as int]@);
                    assert forall|k: int| 0 <= k < to_create@.len() implies live_team(
                        self.users@,
                        (#[trigger] to_create@[k])@,
                    ) && !has_open_forum(self.forums@, to_create@[k]@) by {
                        if k < c0.len() {
                            assert(to_create@[k] == c0[k]);
                        }
                    }
                    assert forall|i: int|
                        0 <= i < t + 1 && !has_open_forum(
                            self.forums@,
                            (#[trigger] teams@[i])@,
                        ) implies name_listed(to_create@, teams@[i]@) by {
                        lemma_name_listed_push(c0, to_create@[c0.len() as int], teams@[i]@);
                    }
                    assert forall|k: int| #![trigger to_create@[k]]
                        0 <= k < to_create@.len() implies listed_before(
                        teams@,
                        t + 1,
                        to_create@[k]@,
                    ) by {
                        if k < c0.len() {
                            assert(to_create@[k] == c0[k]);
                            let i = choose|i: int| 0 <= i < t && (teams@[i])@ == c0[k]@;
                            assert(0 <= i < t + 1 && (teams@[i])@ == to_create@[k]@);
                        } else {
                            assert((teams@[t as int])@ == to_create@[k]@);
                        }
                    }
                    assert forall|k1: int, k2: int|
                        0 <= k1 < k2 < to_create@.len() implies to_create@[k1]@
                        != to_create@[k2]@ by {
                        if k2 == c0.len() {
                            assert(to_create@[k1] == c0[k1]);
                            assert(listed_before(teams@, t as int, c0[k1]@));
                            let i = choose|i: int| 0 <= i < t && (teams@[i])@ == c0[k1]@;
                            assert(teams@[i]@ != teams@[t as int]@);
                        } else {
                            assert(to_create@[k1] == c0[k1] && to_create@[k2] == c0[k2]);
                        }
                    }
                }
            }
        }
        let mut to_close: Vec<i32> = Vec::new();
        let m = self.forums.len();
        for f in 0..m
            invariant
                m == self.forums@.len(),
                tn == teams@.len(),
                forall|u: int|
                    0 <= u < self.users@.len() ==> name_listed(
                        teams@,
                        (#[trigger] self.users@[u]).team@,
                    ),
                forall|k: int|
                    0 <= k < teams@.len() ==> live_team(self.users@, (#[trigger] teams@[k])@),
                self.wf(),
                forall|k: int|
                    #![trigger to_close@[k]]
                    0 <= k < to_close@.len() ==> stale_open_forum_before(
                        self.forums@,
                        self.users@,
                        to_close@[k] as int,
                        f as int,
                    ),
                forall|k1: int, k2: int|
                    0 <= k1 < k2 < to_close@.len() ==> to_close@[k1] != to_close@[k2],
                forall|i: int|
                    0 <= i < f && (#[trigger] self.forums@[i]).open && !live_team(
                        self.users@,
                        self.forums@[i].name@,
                    ) ==> id_listed(to_close@, self.forums@[i].id as int),
        {
            if self.forums[f].open && !contains_name(&teams, &self.forums[f].name) {
                proof {
                    assert forall|u: int|
                        0 <= u < self.users@.len() implies (#[trigger] self.users@[u]).team@
                        != self.forums@[f as int].name@ by {
                        if self.users@[u].team@ == self.forums@[f as int].name@ {
                            assert(name_listed(teams@, self.forums@[f as int].name@));
                        }
                    }
                    assert(!live_team(self.users@, self.forums@[f as int].name@));
                }
                let ghost z0 = to_close@;
                to_close.push(self.forums[f].id);
                proof {
                    assert(to_close@ == z0.push(self.forums@[f as int].id));
                    assert forall|k: int| #![trigger to_close@[k]]
                        0 <= k < to_close@.len() implies stale_open_forum_before(
                        self.forums@,
                        self.users@,
                        to_close@[k] as int,
                        f + 1,
                    ) by {
                        if k < z0.len() {
                            assert(to_close@[k] == z0[k]);
                            let w = choose|w: int|
                                0 <= w < f <= self.forums@.len() && (self.forums@[w]).id == z0[k]
                                    && self.forums@[w].open && !live_team(
                                    self.users@,
                                    self.forums@[w].name@,
                                );
                            assert(0 <= w < f + 1 && (self.forums@[w]).id == to_close@[k]);
                        } else {
                            assert(to_close@[k] == self.forums@[f as int].id);
                            assert(0 <= f < f + 1 <= self.forums@.len()
                                && (self.forums@[f as int]).id == to_close@[k]
                                && self.forums@[f as int].open && !live_team(
                                self.users@,
                                self.forums@[f as int].name@,
                            ));
                        }
                    }
                    assert forall|k1: int, k2: int|
                        0 <= k1 < k2 < to_close@.len() implies to_close@[k1] != to_close@[k2] by {
                        if k2 == z0.len() {
                            assert(to_close@[k1] == z0[k1]);
                            let w = choose|w: int|
                                0 <= w < f <= self.forums@.len() && (self.forums@[w]).id == z0[k1]
                                    && self.forums@[w].open && !live_team(
                                    self.users@,
                                    self.forums@[w].name@,
                                );
                            assert(self.forums@[w].id != self.forums@[f as int].id);
                        } else {
                            assert(to_close@[k1] == z0[k1] && to_close@[k2] == z0[k2]);
                        }
                    }
                    assert forall|i: int|
                        0 <= i < f + 1 && (#[trigger] self.forums@[i]).open && !live_team(
                            self.users@,
                            self.forums@[i].name@,
                        ) implies id_listed(to_close@, self.forums@[i].id as int) by {
                        lemma_id_listed_push(
                            z0,
                            self.forums@[f as int].id,
                            self.forums@[i].id as int,
                        );
                    }
                }
            } else {
                proof {
                    if self.forums@[f as int].open {
                        assert(name_listed(teams@, self.forums@[f as int].name@));
                        let k = choose|k: int|
                            0 <= k < teams@.len() && teams@[k]@ == self.forums@[f as int].name@;
                        assert(live_team(self.users@, (#[trigger] teams@[k])@));
                    }
                }
            }
        }
        proof {
            assert forall|k: int| #![trigger to_close@[k]]
                0 <= k < to_close@.len() implies stale_open_forum(
                self.forums@,
                self.users@,
                to_close@[k] as int,
            ) by {
                let w = choose|w: int|
                    0 <= w < m <= self.forums@.len() && (self.forums@[w]).id == to_close@[k]
                        && self.forums@[w].open && !live_team(self.users@, self.forums@[w].name@);
                assert(0 <= w < self.forums@.len() && (self.forums@[w]).id == to_close@[k]);
            }
        }
        ReconcilePlan { to_create, to_close }
    }

    /// The open channel handle for a team, where the topology holds one.
    pub fn lookup_channel(&self, team: &String) -> (r: Option<i32>)
        ensures
            match r {
                Some(id) => exists|i: int|
                    0 <= i < self.forums@.len() && (#[trigger] self.forums@[i]).open
                        && self.forums@[i].name@ == team@ && self.forums@[i].id == id,
                None => !has_open_forum(self.forums@, team@),
            },
    {
        let n = self.forums.len();
        for i in 0..n
            invariant
                n == self.forums@.len(),
                forall|k: int|
                    0 <= k < i ==> !((#[trigger] self.forums@[k]).open && self.forums@[k].name@
                        == team@),
        {
            if self.forums[i].open && self.forums[i].name == *team {
                return Some(self.forums[i].id);
            }
        }
        None
    }

    /// Does any topology entry, open or closed, already hold this handle?
    pub fn forum_id_taken(&self, id: i32) -> (r: bool)
        ensures
            r == exists|i: int|
                0 <= i < self.forums@.len() && (#[trigger] self.forums@[i]).id == id,
    {
        let n = self.forums.len();
        for i in 0..n
            invariant
                n == self.forums@.len(),
                forall|k: int| 0 <= k < i ==> (#[trigger] self.forums@[k]).id != id,
        {
            if self.forums[i].id == id {
                return true;
            }
        }
        false
    }

    /// Record that a channel was allocated for a team: insert the open entry
    /// binding the externally allocated handle to the team name. The caller
    /// must have seen no open entry for the name, so the uniqueness invariant
    /// is kept.
    pub fn record_forum_created(&mut self, id: i32, name: String)
        requires
            old(self).wf(),
            !has_open_forum(old(self).forums@, name@),
            !(exists|i: int|
                0 <= i < old(self).forums@.len() && (#[trigger] old(self).forums@[i]).id == id),
        ensures
            final(self).wf(),
            final(self).forums@ == old(self).forums@.push(Forum { id, name, open: true }),
            final(self).users == old(self).users,
            final(self).submissions == old(self).submissions,
            final(self).judgements == old(self).judgements,
            final(self).challenges == old(self).challenges,
            final(self).config == old(self).config,
            final(self).submissions_enabled == old(self).submissions_enabled,
    {
        proof {
            lemma_create_preserves_open_uniqueness(self.forums@, Forum { id, name, open: true });
        }
        self.forums.push(Forum { id, name, open: true });
        proof {
            assert forall|i: int, j: int|
                0 <= i < j < self.forums@.len() implies self.forums@[i].id != self.forums@[j].id by {
                if j == self.forums@.len() - 1 {
                    assert(self.forums@[i] == old(self).forums@[i]);
                } else {
                    assert(self.forums@[i] == old(self).forums@[i] && self.forums@[j] == old(
                        self,
                    ).forums@[j]);
                }
            }
        }
    }

    /// Record that a channel was closed: flip the entry holding the handle to
    /// closed. Closing is idempotent — an entry already closed, or a handle
    /// the topology never held, leaves every entry as it was.
    pub fn record_forum_closed(&mut self, id: i32)
        requires
            old(self).wf(),
        ensures
            final(self).wf(),
            final(self).forums@.len() == old(self).forums@.len(),
            forall|k: int|
                0 <= k < old(self).forums@.len() ==> (#[trigger] final(self).forums@[k]).id == old(
                    self,
                ).forums@[k].id && final(self).forums@[k].name@ == old(self).forums@[k].name@ && (
                final(self).forums@[k].open == (old(self).forums@[k].open && old(
                    self,
                ).forums@[k].id != id)),
            final(self).users == old(self).users,
            final(self).submissions == old(self).submissions,
            final(self).judgements == old(self).judgements,
            final(self).challenges == old(self).challenges,
            final(self).config == old(self).config,
            final(self).submissions_enabled == old(self).submissions_enabled,
    {
        let n = self.forums.len();
        for i in 0..n
            invariant
                n == self.forums@.len(),
                old(self).wf(),
                self.users == old(self).users,
                self.submissions == old(self).submissions,
                self.judgements == old(self).judgements,
                self.challenges == old(self).challenges,
                self.config == old(self).config,
                self.submissions_enabled == old(self).submissions_enabled,
                self.forums@.len() == old(self).forums@.len(),
                forall|k: int|
                    0 <= k < i ==> (#[trigger] self.forums@[k]).id == old(self).forums@[k].id
                        && self.forums@[k].name@ == old(self).forums@[k].name@ && (
                    self.forums@[k].open == (old(self).forums@[k].open && old(self).forums@[k].id
                        != id)),
                forall|k: int|
                    i <= k < self.forums@.len() ==> (#[trigger] self.forums@[k]) == old(
                        self,
                    ).forums@[k],
        {
            if self.forums[i].id == id && self.forums[i].open {
                let name = self.forums[i].name.clone();
                let entry = Forum { id, name, open: false };
                self.forums.set(i, entry);
            }
        }
        proof {
            lemma_close_preserves_open_uniqueness(old(self).forums@, self.forums@);
        }
    }
}

} // verus!
