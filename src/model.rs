use std::collections::HashMap;
use vstd::prelude::*;

verus! {

broadcast use vstd::std_specs::hash::group_hash_axioms;

/// A simulated user. Its identity is `id` alone; `tweet_count` is the number
/// of events drawn for it when the population was generated.
#[derive(Debug, Clone, Copy)]
pub struct User {
    pub id: usize,
    pub tweet_count: usize,
}

impl PartialEq for User {
    fn eq(&self, other: &User) -> (r: bool) {
        self.id == other.id
    }
}

impl vstd::std_specs::cmp::PartialEqSpecImpl for User {
    open spec fn obeys_eq_spec() -> bool {
        true
    }

    open spec fn eq_spec(&self, other: &User) -> bool {
        self.id == other.id
    }
}

impl Eq for User {
}

/// One event of a user, at a time given in whole seconds since the epoch.
#[derive(Debug, Clone, Copy, PartialEq, Eq, Structural)]
pub struct Tweet {
    pub user_id: usize,
    pub timestamp: i64,
}

/// No two users of the sequence share an id.
pub open spec fn distinct_ids(users: Seq<User>) -> bool {
    forall|i: int, j: int| 0 <= i < j < users.len() ==> users[i].id != users[j].id
}

/// The events of each user that has any, keyed by user id. A user without
/// events has no entry.
pub struct EventLog {
    by_user: HashMap<usize, Vec<Tweet>>,
}

impl View for EventLog {
    type V = Map<usize, Seq<Tweet>>;

    closed spec fn view(&self) -> Map<usize, Seq<Tweet>> {
        self.by_user@.map_values(|v: Vec<Tweet>| v@)
    }
}

/// Every entry holds at least one event, and only events of its own user.
pub open spec fn log_wf(log: Map<usize, Seq<Tweet>>) -> bool {
    forall|id: usize|
        #[trigger] log.contains_key(id) ==> log[id].len() > 0 && (forall|k: int|
            0 <= k < log[id].len() ==> (#[trigger] log[id][k]).user_id == id)
}

impl EventLog {
    pub open spec fn wf(&self) -> bool {
        log_wf(self@)
    }

    pub fn new() -> (r: Self)
        ensures
            r@ == Map::<usize, Seq<Tweet>>::empty(),
            r.wf(),
    {
        let r = EventLog { by_user: HashMap::new() };
        assert(r@ =~= Map::<usize, Seq<Tweet>>::empty());
        r
    }

    /// Records the events of one user. Refused (and nothing changes) when the
    /// user already has an entry, when `tweets` is empty, or when one of them
    /// belongs to another user.
    pub fn insert(&mut self, user_id: usize, tweets: Vec<Tweet>) -> (r: bool)
        requires
            old(self).wf(),
        ensures
            final(self).wf(),
            r == (!old(self)@.contains_key(user_id) && tweets@.len() > 0 && (forall|k: int|
                0 <= k < tweets@.len() ==> (#[trigger] tweets@[k]).user_id == user_id)),
            r ==> final(self)@ == old(self)@.insert(user_id, tweets@),
            !r ==> final(self)@ == old(self)@,
    {
        if self.by_user.contains_key(&user_id) || tweets.len() == 0 {
            return false;
        }
        let mut k: usize = 0;
        while k < tweets.len()
            invariant
                k <= tweets@.len(),
                self@ == old(self)@,
                self.wf(),
                forall|m: int| 0 <= m < k ==> (#[trigger] tweets@[m]).user_id == user_id,
            decreases tweets@.len() - k,
        {
            if tweets[k].user_id != user_id {
                return false;
            }
            k = k + 1;
        }
        let ghost before = self@;
        let ghost added = tweets@;
        self.by_user.insert(user_id, tweets);
        assert(self@ =~= before.insert(user_id, added));
        true
    }

    /// The events recorded for `user_id`, if it has any.
    pub fn get(&self, user_id: usize) -> (r: Option<&Vec<Tweet>>)
        ensures
            match r {
                Some(v) => self@.contains_key(user_id) && v@ == self@[user_id],
                None => !self@.contains_key(user_id),
            },
    {
        self.by_user.get(&user_id)
    }

    /// Number of users with an entry.
    pub fn len(&self) -> (r: usize)
        ensures
            r == self@.dom().len(),
    {
        assert(self@.dom() =~= self.by_user@.dom());
        self.by_user.len()
    }
}

} // verus!
