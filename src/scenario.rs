use crate::batch::{
    batch_events, batch_outcome, counts, simulate_request, total, FetchMode,
};
use crate::model::{EventLog, Tweet, User};
use crate::stats::{seq_total, ScenarioStats};
use vstd::prelude::*;

verus! {

/// Default number of users per batch.
pub const DEFAULT_CHUNK: usize = 100;

/// Running totals of a sweep.
pub struct Sweep {
    pub requests: int,
    pub users: int,
    pub tweets: int,
}

/// Events the log holds for the given users.
pub open spec fn event_total(users: Seq<User>, log: Map<usize, Seq<Tweet>>) -> int
    decreases users.len(),
{
    if users.len() == 0 {
        0
    } else {
        event_total(users.drop_last(), log) + if log.contains_key(users.last().id) {
            log[users.last().id].len() as int
        } else {
            0
        }
    }
}

pub open spec fn chunk_end(len: int, start: int, chunk: int) -> int {
    if start + chunk < len {
        start + chunk
    } else {
        len
    }
}

/// The sweep from `start` on, with totals `acc` so far: each chunk of
/// `chunk` users is simulated as one batch and folded in, and the sweep ends
/// after the chunk that brings the request total to `max_requests` or more.
pub open spec fn sweep_from(
    users: Seq<User>,
    log: Map<usize, Seq<Tweet>>,
    page: int,
    max_requests: int,
    target: int,
    mode: FetchMode,
    chunk: int,
    start: int,
    acc: Sweep,
) -> Sweep
    decreases users.len() - start,
{
    if start >= users.len() || chunk <= 0 || start < 0 {
        acc
    } else {
        let end = chunk_end(users.len() as int, start, chunk);
        let o = batch_outcome(users.subrange(start, end), log, page, target, mode);
        let next = Sweep {
            requests: acc.requests + o.requests,
            users: acc.users + (end - start),
            tweets: acc.tweets + total(o.served),
        };
        if next.requests >= max_requests {
            next
        } else {
            sweep_from(users, log, page, max_requests, target, mode, chunk, end, next)
        }
    }
}

/// The whole scenario, from empty totals.
pub open spec fn scenario(
    users: Seq<User>,
    log: Map<usize, Seq<Tweet>>,
    page: int,
    max_requests: int,
    target: int,
    mode: FetchMode,
    chunk: int,
) -> Sweep {
    sweep_from(
        users,
        log,
        page,
        max_requests,
        target,
        mode,
        chunk,
        0,
        Sweep { requests: 0, users: 0, tweets: 0 },
    )
}

proof fn lemma_seq_total_counts(v: Seq<usize>)
    ensures
        seq_total(v) == total(counts(v)),
    decreases v.len(),
{
    if v.len() > 0 {
        assert(counts(v).drop_last() =~= counts(v.drop_last()));
        lemma_seq_total_counts(v.drop_last());
    }
}

proof fn lemma_event_total_split(users: Seq<User>, log: Map<usize, Seq<Tweet>>, s: int, e: int)
    requires
        0 <= s <= e <= users.len(),
    ensures
        event_total(users.subrange(0, e), log) == event_total(users.subrange(0, s), log)
            + event_total(users.subrange(s, e), log),
        event_total(users.subrange(s, e), log) >= 0,
    decreases e - s,
{
    if e > s {
        lemma_event_total_split(users, log, s, e - 1);
        assert(users.subrange(0, e).drop_last() =~= users.subrange(0, e - 1));
        assert(users.subrange(s, e).drop_last() =~= users.subrange(s, e - 1));
    } else {
        assert(users.subrange(s, e) =~= Seq::<User>::empty());
    }
}

proof fn lemma_batch_events_len(users: Seq<User>, log: Map<usize, Seq<Tweet>>)
    ensures
        batch_events(users, log).len() == event_total(users, log),
    decreases users.len(),
{
    if users.len() > 0 {
        lemma_batch_events_len(users.drop_last(), log);
    }
}

/// Runs the batches of a scenario: `users` is cut, in the given order, into
/// consecutive chunks of `chunk` users (the last one possibly shorter); each
/// chunk is simulated as one batch and folded into the statistics, and no
/// chunk is started once the request total has reached `max_requests`.
pub fn simulate_scenario(
    users: &Vec<User>,
    log: &EventLog,
    page: usize,
    max_requests: usize,
    target: usize,
    mode: FetchMode,
    chunk: usize,
) -> (r: ScenarioStats)
    requires
        page >= 1,
        chunk >= 1,
        users@.len() + event_total(users@, log@) < usize::MAX,
    ensures
        r.wf(),
        r.num_requests as int == scenario(
            users@,
            log@,
            page as int,
            max_requests as int,
            target as int,
            mode,
            chunk as int,
        ).requests,
        r.num_users as int == scenario(
            users@,
            log@,
            page as int,
            max_requests as int,
            target as int,
            mode,
            chunk as int,
        ).users,
        r.num_tweets as int == scenario(
            users@,
            log@,
            page as int,
            max_requests as int,
            target as int,
            mode,
            chunk as int,
        ).tweets,
{
    let ghost u = users@;
    let ghost l = log@;
    let ghost goal = scenario(u, l, page as int, max_requests as int, target as int, mode, chunk as int);
    let mut stats = ScenarioStats::new();
    let mut start: usize = 0;
    proof {
        lemma_event_total_split(u, l, 0, u.len() as int);
        assert(u.subrange(0, u.len() as int) =~= u);
        assert(u.subrange(0, 0) =~= Seq::<User>::empty());
    }
    while start < users.len()
        invariant
            u == users@,
            l == log@,
            page >= 1,
            chunk >= 1,
            start <= u.len(),
            u.len() + event_total(u, l) < usize::MAX,
            stats.wf(),
            goal == scenario(u, l, page as int, max_requests as int, target as int, mode, chunk as int),
            stats.num_requests < max_requests || start == 0,
            stats.num_users == start,
            stats.num_tweets <= event_total(u.subrange(0, start as int), l),
            stats.num_requests <= start + event_total(u.subrange(0, start as int), l),
            goal == sweep_from(
                u,
                l,
                page as int,
                max_requests as int,
                target as int,
                mode,
                chunk as int,
                start as int,
                Sweep {
                    requests: stats.num_requests as int,
                    users: stats.num_users as int,
                    tweets: stats.num_tweets as int,
                },
            ),
        decreases u.len() - start,
    {
        let end: usize = if chunk < users.len() - start {
            start + chunk
        } else {
            users.len()
        };
        let mut batch: Vec<User> = Vec::new();
        let mut i: usize = start;
        while i < end
            invariant
                start <= i <= end <= u.len(),
                u == users@,
                batch@ == u.subrange(start as int, i as int),
            decreases end - i,
        {
            batch.push(users[i]);
            assert(batch@ =~= u.subrange(start as int, i as int + 1));
            i = i + 1;
        }
        proof {
            lemma_event_total_split(u, l, start as int, end as int);
            lemma_event_total_split(u, l, end as int, u.len() as int);
            assert(u.subrange(0, u.len() as int) =~= u);
            lemma_event_total_split(u, l, 0, end as int);
            lemma_batch_events_len(batch@, l);
            crate::batch::lemma_served_shape(batch@, l, page as int, target as int, mode);
        }
        let ghost acc = Sweep {
            requests: stats.num_requests as int,
            users: stats.num_users as int,
            tweets: stats.num_tweets as int,
        };
        let (reqs, served) = simulate_request(&batch, log, page, target, mode);
        proof {
            lemma_seq_total_counts(served@);
        }
        stats.update(reqs, &served);
        proof {
            let o = batch_outcome(u.subrange(start as int, end as int), l, page as int, target as int, mode);
            assert(end as int == chunk_end(u.len() as int, start as int, chunk as int));
            let next = Sweep {
                requests: stats.num_requests as int,
                users: stats.num_users as int,
                tweets: stats.num_tweets as int,
            };
            assert(next == Sweep {
                requests: acc.requests + o.requests,
                users: acc.users + (end - start),
                tweets: acc.tweets + total(o.served),
            });
            assert(goal == (if next.requests >= max_requests {
                next
            } else {
                sweep_from(u, l, page as int, max_requests as int, target as int, mode, chunk as int, end as int, next)
            }));
        }
        start = end;
        if stats.num_requests >= max_requests {
            assert(goal == Sweep {
                requests: stats.num_requests as int,
                users: stats.num_users as int,
                tweets: stats.num_tweets as int,
            });
            return stats;
        }
    }
    stats
}

/// A sweep ends before every user was simulated only when the request
/// total reached the ceiling; it never simulates more users than remain.
pub proof fn lemma_stops_only_at_ceiling(
    users: Seq<User>,
    log: Map<usize, Seq<Tweet>>,
    page: int,
    max_requests: int,
    target: int,
    mode: FetchMode,
    chunk: int,
    start: int,
    acc: Sweep,
)
    requires
        chunk >= 1,
        0 <= start <= users.len(),
    ensures
        sweep_from(users, log, page, max_requests, target, mode, chunk, start, acc).users <= acc.users
            + users.len() - start,
        sweep_from(users, log, page, max_requests, target, mode, chunk, start, acc).users < acc.users
            + users.len() - start ==> sweep_from(
            users,
            log,
            page,
            max_requests,
            target,
            mode,
            chunk,
            start,
            acc,
        ).requests >= max_requests,
    decreases users.len() - start,
{
    if start < users.len() {
        let end = chunk_end(users.len() as int, start, chunk);
        let o = batch_outcome(users.subrange(start, end), log, page, target, mode);
        let next = Sweep {
            requests: acc.requests + o.requests,
            users: acc.users + (end - start),
            tweets: acc.tweets + total(o.served),
        };
        if next.requests < max_requests {
            lemma_stops_only_at_ceiling(users, log, page, max_requests, target, mode, chunk, end, next);
        }
    }
}

/// Once the chunk starting at `start` brings the request total to the
/// ceiling, the sweep ends with that chunk: no later chunk is simulated.
pub proof fn lemma_no_chunk_after_ceiling(
    users: Seq<User>,
    log: Map<usize, Seq<Tweet>>,
    page: int,
    max_requests: int,
    target: int,
    mode: FetchMode,
    chunk: int,
    start: int,
    acc: Sweep,
)
    requires
        chunk >= 1,
        0 <= start < users.len(),
        acc.requests + batch_outcome(
            users.subrange(start, chunk_end(users.len() as int, start, chunk)),
            log,
            page,
            target,
            mode,
        ).requests >= max_requests,
    ensures
        sweep_from(users, log, page, max_requests, target, mode, chunk, start, acc).users == acc.users
            + chunk_end(users.len() as int, start, chunk) - start,
        sweep_from(users, log, page, max_requests, target, mode, chunk, start, acc).requests
            == acc.requests + batch_outcome(
            users.subrange(start, chunk_end(users.len() as int, start, chunk)),
            log,
            page,
            target,
            mode,
        ).requests,
{
}

} // verus!
