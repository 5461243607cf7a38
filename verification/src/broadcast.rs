//! Broadcasts from a maintainer to every participant. The core decides who
//! receives what: every roster row gets the text, a maintainer other than
//! the sender gets a header naming the sender first, and the sender gets
//! nothing. An empty text is rejected before anything is sent.

use vstd::prelude::*;

use crate::model::{CoreError, User};
use crate::store::Store;

verus! {

/// One delivery of a broadcast: the recipient, and whether the header naming
/// the sender goes out first.
#[derive(Debug, Clone, Copy, PartialEq, Eq, Structural)]
pub struct BroadcastDelivery {
    pub recipient: i64,
    pub with_header: bool,
}

/// The id stands in the list.
pub open spec fn id_among(ids: Seq<i64>, id: int) -> bool {
    exists|k: int| 0 <= k < ids.len() && ids[k] == id
}

/// The deliveries a broadcast makes over the first `n` roster rows, in
/// roster order: nothing to the sender where the sender is a maintainer,
/// a header plus the text to every other maintainer, the bare text to
/// everyone else.
pub open spec fn deliveries_prefix(
    users: Seq<User>,
    maintainers: Seq<i64>,
    sender: int,
    n: int,
) -> Seq<BroadcastDelivery>
    decreases n,
{
    if n <= 0 {
        Seq::empty()
    } else {
        let rest = deliveries_prefix(users, maintainers, sender, n - 1);
        let u = users[n - 1];
        if id_among(maintainers, u.id as int) {
            if u.id == sender {
                rest
            } else {
                rest.push(BroadcastDelivery { recipient: u.id, with_header: true })
            }
        } else {
            rest.push(BroadcastDelivery { recipient: u.id, with_header: false })
        }
    }
}

/// The deliveries a broadcast makes, in roster order.
pub open spec fn deliveries(users: Seq<User>, maintainers: Seq<i64>, sender: int) -> Seq<
    BroadcastDelivery,
> {
    deliveries_prefix(users, maintainers, sender, users.len() as int)
}

/// Is this id one of the listed maintainers?
fn among(ids: &Vec<i64>, id: i64) -> (r: bool)
    ensures
        r == id_among(ids@, id as int),
{
    let n = ids.len();
    for k in 0..n
        invariant
            n == ids@.len(),
            forall|i: int| 0 <= i < k ==> ids@[i] != id,
    {
        if ids[k] == id {
            return true;
        }
    }
    false
}

impl Store {
    /// Plan a broadcast from a maintainer: an empty text is rejected with
    /// `EmptyInput` and nothing is delivered; otherwise one delivery per
    /// roster row in roster order, skipping the sender, with the header
    /// flagged for every other maintainer.
    pub fn plan_broadcast(&self, sender: i64, maintainers: &Vec<i64>, text: &String) -> (r: Result<
        Vec<BroadcastDelivery>,
        CoreError,
    >)
        ensures
            text@.len() == 0 ==> r == Err::<Vec<BroadcastDelivery>, CoreError>(
                CoreError::EmptyInput,
            ),
            text@.len() > 0 ==> (r matches Ok(plan) && plan@ == deliveries(
                self.users@,
                maintainers@,
                sender as int,
            )),
    {
        if text.as_str().is_empty() {
            return Err(CoreError::EmptyInput);
        }
        let n = self.users.len();
        let mut plan: Vec<BroadcastDelivery> = Vec::new();
        for i in 0..n
            invariant
                n == self.users@.len(),
                plan@ == deliveries_prefix(self.users@, maintainers@, sender as int, i as int),
        {
            let uid = self.users[i].id;
            if among(maintainers, uid) {
                if uid != sender {
                    plan.push(BroadcastDelivery { recipient: uid, with_header: true });
                }
            } else {
                plan.push(BroadcastDelivery { recipient: uid, with_header: false });
            }
        }
        Ok(plan)
    }
}

} // verus!
