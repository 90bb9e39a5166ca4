use vstd::prelude::*;

verus! {

/// Integer division that reports zero for an empty denominator.
pub open spec fn div0(a: int, b: int) -> int {
    if b == 0 {
        0
    } else {
        a / b
    }
}

pub open spec fn seq_total(s: Seq<usize>) -> int
    decreases s.len(),
{
    if s.len() == 0 {
        0
    } else {
        seq_total(s.drop_last()) + s.last() as int
    }
}

fn quotient(a: usize, b: usize) -> (r: usize)
    ensures
        r as int == div0(a as int, b as int),
{
    if b == 0 {
        0
    } else {
        a / b
    }
}

/// Running totals of one scenario: requests issued, users seen and events
/// served, with averages derived from those totals.
#[derive(Debug, Clone, Copy, PartialEq, Eq, Structural)]
pub struct ScenarioStats {
    pub num_requests: usize,
    pub num_users: usize,
    pub num_tweets: usize,
    pub avg_tweets_per_user: usize,
    pub avg_tweets_per_req: usize,
}

impl ScenarioStats {
    /// The averages are exactly the truncated quotients of the totals
    /// (zero where the denominator is zero).
    pub open spec fn wf(&self) -> bool {
        &&& self.avg_tweets_per_user as int == div0(self.num_tweets as int, self.num_users as int)
        &&& self.avg_tweets_per_req as int == div0(
            self.num_tweets as int,
            self.num_requests as int,
        )
    }

    pub open spec fn fits(&self, reqs: usize, served: Seq<usize>) -> bool {
        &&& self.num_requests + reqs <= usize::MAX
        &&& self.num_users + served.len() <= usize::MAX
        &&& self.num_tweets + seq_total(served) <= usize::MAX
    }

    pub fn new() -> (r: Self)
        ensures
            r.wf(),
            r.num_requests == 0,
            r.num_users == 0,
            r.num_tweets == 0,
    {
        ScenarioStats {
            num_requests: 0,
            num_users: 0,
            num_tweets: 0,
            avg_tweets_per_user: 0,
            avg_tweets_per_req: 0,
        }
    }

    /// Folds one batch in: its request count and the served count of each of
    /// its users.
    pub fn update(&mut self, reqs: usize, served: &Vec<usize>)
        requires
            old(self).fits(reqs, served@),
        ensures
            final(self).wf(),
            final(self).num_requests == old(self).num_requests + reqs,
            final(self).num_users == old(self).num_users + served@.len(),
            final(self).num_tweets == old(self).num_tweets + seq_total(served@),
    {
        let total = sum_of(served);
        self.num_requests = self.num_requests + reqs;
        self.num_users = self.num_users + served.len();
        self.num_tweets = self.num_tweets + total;
        self.avg_tweets_per_user = quotient(self.num_tweets, self.num_users);
        self.avg_tweets_per_req = quotient(self.num_tweets, self.num_requests);
    }
}

proof fn lemma_seq_total_prefix(s: Seq<usize>, k: int)
    requires
        0 <= k < s.len(),
    ensures
        seq_total(s.take(k + 1)) == seq_total(s.take(k)) + s[k] as int,
        0 <= seq_total(s.take(k)),
{
    assert(s.take(k + 1).drop_last() =~= s.take(k));
    lemma_seq_total_nonneg(s.take(k));
}

pub proof fn lemma_seq_total_nonneg(s: Seq<usize>)
    ensures
        seq_total(s) >= 0,
    decreases s.len(),
{
    if s.len() > 0 {
        lemma_seq_total_nonneg(s.drop_last());
    }
}

/// Sum of the values of `v`.
pub fn sum_of(v: &Vec<usize>) -> (r: usize)
    requires
        seq_total(v@) <= usize::MAX,
    ensures
        r as int == seq_total(v@),
{
    let mut acc: usize = 0;
    let mut i: usize = 0;
    while i < v.len()
        invariant
            i <= v@.len(),
            acc as int == seq_total(v@.take(i as int)),
            seq_total(v@) <= usize::MAX,
        decreases v@.len() - i,
    {
        proof {
            lemma_seq_total_prefix(v@, i as int);
            lemma_seq_total_bounded_by_prefix(v@, i as int + 1);
        }
        acc = acc + v[i];
        i = i + 1;
    }
    assert(v@.take(i as int) =~= v@);
    acc
}

proof fn lemma_seq_total_bounded_by_prefix(s: Seq<usize>, k: int)
    requires
        0 <= k <= s.len(),
    ensures
        seq_total(s.take(k)) <= seq_total(s),
    decreases s.len() - k,
{
    if k < s.len() {
        lemma_seq_total_bounded_by_prefix(s, k + 1);
        lemma_seq_total_prefix(s, k);
        assert(s.take(k + 1) =~= s.take(k).push(s[k]));
    } else {
        assert(s.take(k) =~= s);
    }
}

/// Aggregate over many scenarios: how many were folded in, the summed totals,
/// and averages derived from those totals.
#[derive(Debug, Clone, Copy, PartialEq, Eq, Structural)]
pub struct SimulationStats {
    pub n: usize,
    pub total_tweets: usize,
    pub total_users: usize,
    pub avg_tweets: usize,
    pub total_requests: usize,
    pub avg_requests: usize,
    pub avg_tweets_per_user: usize,
    pub avg_tweets_per_req: usize,
}

/// The aggregate whose totals are the given ones, with its averages derived.
pub open spec fn from_totals(n: int, tweets: int, users: int, requests: int) -> SimulationStats {
    SimulationStats {
        n: n as usize,
        total_tweets: tweets as usize,
        total_users: users as usize,
        avg_tweets: div0(tweets, n) as usize,
        total_requests: requests as usize,
        avg_requests: div0(requests, n) as usize,
        avg_tweets_per_user: div0(tweets, users) as usize,
        avg_tweets_per_req: div0(tweets, requests) as usize,
    }
}

/// Totals of `a` and `b` summed, averages derived from the sums.
pub open spec fn merged(a: SimulationStats, b: SimulationStats) -> SimulationStats {
    from_totals(
        a.n + b.n,
        a.total_tweets + b.total_tweets,
        a.total_users + b.total_users,
        a.total_requests + b.total_requests,
    )
}

/// `acc` with one more scenario folded in.
pub open spec fn folded(acc: SimulationStats, s: ScenarioStats) -> SimulationStats {
    from_totals(
        acc.n + 1,
        acc.total_tweets + s.num_tweets,
        acc.total_users + s.num_users,
        acc.total_requests + s.num_requests,
    )
}

impl SimulationStats {
    pub open spec fn wf(&self) -> bool {
        *self == from_totals(
            self.n as int,
            self.total_tweets as int,
            self.total_users as int,
            self.total_requests as int,
        )
    }

    pub open spec fn can_merge(&self, o: SimulationStats) -> bool {
        &&& self.n + o.n <= usize::MAX
        &&& self.total_tweets + o.total_tweets <= usize::MAX
        &&& self.total_users + o.total_users <= usize::MAX
        &&& self.total_requests + o.total_requests <= usize::MAX
    }

    pub open spec fn can_fold(&self, s: ScenarioStats) -> bool {
        &&& self.n + 1 <= usize::MAX
        &&& self.total_tweets + s.num_tweets <= usize::MAX
        &&& self.total_users + s.num_users <= usize::MAX
        &&& self.total_requests + s.num_requests <= usize::MAX
    }

    pub fn new() -> (r: Self)
        ensures
            r.wf(),
            r == from_totals(0, 0, 0, 0),
    {
        SimulationStats {
            n: 0,
            total_tweets: 0,
            total_users: 0,
            avg_tweets: 0,
            total_requests: 0,
            avg_requests: 0,
            avg_tweets_per_user: 0,
            avg_tweets_per_req: 0,
        }
    }

    fn build(n: usize, tweets: usize, users: usize, requests: usize) -> (r: Self)
        ensures
            r == from_totals(n as int, tweets as int, users as int, requests as int),
    {
        SimulationStats {
            n,
            total_tweets: tweets,
            total_users: users,
            avg_tweets: quotient(tweets, n),
            total_requests: requests,
            avg_requests: quotient(requests, n),
            avg_tweets_per_user: quotient(tweets, users),
            avg_tweets_per_req: quotient(tweets, requests),
        }
    }

    /// Sequential fold: one more scenario counted, its totals added.
    pub fn add_scenario(&self, scenario: ScenarioStats) -> (r: Self)
        requires
            self.can_fold(scenario),
        ensures
            r == folded(*self, scenario),
            r.wf(),
    {
        Self::build(
            self.n + 1,
            self.total_tweets + scenario.num_tweets,
            self.total_users + scenario.num_users,
            self.total_requests + scenario.num_requests,
        )
    }

    /// Pairwise merge of two partial aggregates.
    pub fn merge(&self, other: &Self) -> (r: Self)
        requires
            self.can_merge(*other),
        ensures
            r == merged(*self, *other),
            r.wf(),
    {
        Self::build(
            self.n + other.n,
            self.total_tweets + other.total_tweets,
            self.total_users + other.total_users,
            self.total_requests + other.total_requests,
        )
    }
}

/// Merging is commutative, and associative whenever the sums fit: any
/// grouping or order of merging the same aggregates gives the same result.
pub proof fn lemma_merge_assoc_comm(a: SimulationStats, b: SimulationStats, c: SimulationStats)
    requires
        a.can_merge(b),
        merged(a, b).can_merge(c),
    ensures
        merged(a, b) == merged(b, a),
        b.can_merge(c),
        a.can_merge(merged(b, c)),
        merged(merged(a, b), c) == merged(a, merged(b, c)),
{
}

/// Folding a scenario in gives the same aggregate as merging with the
/// aggregate of that scenario alone.
pub proof fn lemma_fold_is_merge(acc: SimulationStats, s: ScenarioStats)
    requires
        acc.can_fold(s),
    ensures
        folded(acc, s) == merged(acc, folded(from_totals(0, 0, 0, 0), s)),
{
}

} // verus!
