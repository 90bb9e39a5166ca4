use crate::model::{EventLog, Tweet, User};
use vstd::prelude::*;
use vstd::relations::{sorted_by, total_ordering};

verus! {

/// When a fetch session over a batch may stop.
#[derive(Debug, Clone, Copy, PartialEq, Eq, Structural)]
pub enum FetchMode {
    /// As soon as some user of the batch has the target number of events.
    First,
    /// Only once every user of the batch has the target number of events.
    All,
}

/// State of a fetch session after some of the time-ordered events.
pub struct Fetch {
    pub requests: int,
    pub served: Seq<int>,
    pub consumed: int,
    pub stopped: bool,
}

pub open spec fn satisfied(served: Seq<int>, target: int, mode: FetchMode) -> bool {
    match mode {
        FetchMode::First => exists|i: int| 0 <= i < served.len() && #[trigger] served[i] >= target,
        FetchMode::All => forall|i: int| 0 <= i < served.len() ==> #[trigger] served[i] >= target,
    }
}

/// Delivers one event of the user at batch position `who`; at each full
/// page the stop criterion is checked.
pub open spec fn step(st: Fetch, who: int, page: int, target: int, mode: FetchMode) -> Fetch {
    if st.stopped {
        st
    } else {
        let served = st.served.update(who, st.served[who] + 1);
        let consumed = st.consumed + 1;
        if consumed % page == 0 && satisfied(served, target, mode) {
            Fetch { requests: st.requests, served, consumed, stopped: true }
        } else if consumed % page == 0 {
            Fetch { requests: st.requests + 1, served, consumed, stopped: false }
        } else {
            Fetch { requests: st.requests, served, consumed, stopped: false }
        }
    }
}

/// The session over `events` (timestamp, batch position) in the given order,
/// for a batch of `n` users.
pub open spec fn run(
    events: Seq<(i64, usize)>,
    n: int,
    page: int,
    target: int,
    mode: FetchMode,
) -> Fetch
    decreases events.len(),
{
    if events.len() == 0 {
        Fetch { requests: 1, served: Seq::new(n as nat, |i: int| 0int), consumed: 0, stopped: false }
    } else {
        step(run(events.drop_last(), n, page, target, mode), events.last().1 as int, page, target, mode)
    }
}

/// Every event belongs to one of the `n` users of the batch.
pub open spec fn positions_below(events: Seq<(i64, usize)>, n: int) -> bool {
    forall|k: int| 0 <= k < events.len() ==> (#[trigger] events[k]).1 < n
}

pub open spec fn total(s: Seq<int>) -> int
    decreases s.len(),
{
    if s.len() == 0 {
        0
    } else {
        total(s.drop_last()) + s.last()
    }
}

proof fn lemma_total_update(s: Seq<int>, i: int, x: int)
    requires
        0 <= i < s.len(),
    ensures
        total(s.update(i, x)) == total(s) - s[i] + x,
    decreases s.len(),
{
    let t = s.update(i, x);
    if i < s.len() - 1 {
        assert(t.drop_last() =~= s.drop_last().update(i, x));
        lemma_total_update(s.drop_last(), i, x);
    } else {
        assert(t.drop_last() =~= s.drop_last());
    }
}

proof fn lemma_total_zeros(n: nat)
    ensures
        total(Seq::new(n, |i: int| 0int)) == 0,
    decreases n,
{
    if n > 0 {
        assert(Seq::new(n, |i: int| 0int).drop_last() =~= Seq::new((n - 1) as nat, |i: int| 0int));
        lemma_total_zeros((n - 1) as nat);
    }
}

/// Shape facts of a session: `n` served counts, each between zero and the
/// number of delivered events, which sum to that number; at least one request;
/// and while it runs, every event has been delivered.
pub proof fn lemma_run_shape(events: Seq<(i64, usize)>, n: int, page: int, target: int, mode: FetchMode)
    requires
        n >= 0,
        page >= 1,
        positions_below(events, n),
    ensures
        run(events, n, page, target, mode).served.len() == n,
        run(events, n, page, target, mode).requests >= 1,
        run(events, n, page, target, mode).requests <= run(events, n, page, target, mode).consumed + 1,
        0 <= run(events, n, page, target, mode).consumed <= events.len(),
        total(run(events, n, page, target, mode).served) == run(events, n, page, target, mode).consumed,
        !run(events, n, page, target, mode).stopped ==> run(events, n, page, target, mode).consumed
            == events.len(),
        forall|i: int|
            0 <= i < n ==> 0 <= #[trigger] run(events, n, page, target, mode).served[i]
                <= run(events, n, page, target, mode).consumed,
    decreases events.len(),
{
    if events.len() == 0 {
        lemma_total_zeros(n as nat);
    } else {
        let prev = events.drop_last();
        assert(positions_below(prev, n)) by {
            assert forall|k: int| 0 <= k < prev.len() implies (#[trigger] prev[k]).1 < n by {
                assert(prev[k] == events[k]);
            }
        }
        lemma_run_shape(prev, n, page, target, mode);
        let st = run(prev, n, page, target, mode);
        assert(events.last() == events[events.len() - 1]);
        if !st.stopped {
            lemma_total_update(st.served, events.last().1 as int, st.served[events.last().1 as int] + 1);
        }
    }
}

/// The served counts of a vector, as integers.
pub open spec fn counts(v: Seq<usize>) -> Seq<int> {
    Seq::new(v.len(), |i: int| v[i] as int)
}

/// Once a session has stopped, later events change nothing.
proof fn lemma_stopped_stays(events: Seq<(i64, usize)>, k: int, n: int, page: int, target: int, mode: FetchMode)
    requires
        0 <= k <= events.len(),
        run(events.take(k), n, page, target, mode).stopped,
    ensures
        run(events, n, page, target, mode) == run(events.take(k), n, page, target, mode),
    decreases events.len(),
{
    if events.len() == k {
        assert(events.take(k) =~= events);
    } else {
        assert(events.drop_last().take(k) =~= events.take(k));
        lemma_stopped_stays(events.drop_last(), k, n, page, target, mode);
    }
}

/// Whether the stop criterion of `mode` holds of the served counts.
fn reached(served: &Vec<usize>, target: usize, mode: FetchMode) -> (r: bool)
    ensures
        r == satisfied(counts(served@), target as int, mode),
{
    let mut any = false;
    let mut every = true;
    let mut i: usize = 0;
    while i < served.len()
        invariant
            i <= served@.len(),
            any == (exists|j: int| 0 <= j < i && #[trigger] served@[j] >= target),
            every == (forall|j: int| 0 <= j < i ==> #[trigger] served@[j] >= target),
        decreases served@.len() - i,
    {
        if served[i] >= target {
            any = true;
        } else {
            every = false;
        }
        i = i + 1;
    }
    let ghost c = counts(served@);
    assert forall|j: int| 0 <= j < served@.len() implies c[j] == served@[j] as int by {}
    match mode {
        FetchMode::First => {
            if any {
                let ghost j = choose|j: int| 0 <= j < i && #[trigger] served@[j] >= target;
                assert(c[j] >= target);
            }
            any
        },
        FetchMode::All => {
            if !every {
                let ghost j = choose|j: int| 0 <= j < i && !(#[trigger] served@[j] >= target);
                assert(!(c[j] >= target));
            }
            every
        },
    }
}

/// Walks the events of a batch of `n` users in the given order, a page of
/// `page` events at a time, and returns the number of requests needed and
/// the number of events delivered to each user of the batch.
pub fn count_requests(
    events: &Vec<(i64, usize)>,
    n: usize,
    page: usize,
    target: usize,
    mode: FetchMode,
) -> (r: (usize, Vec<usize>))
    requires
        page >= 1,
        positions_below(events@, n as int),
        events@.len() < usize::MAX,
    ensures
        r.0 as int == run(events@, n as int, page as int, target as int, mode).requests,
        counts(r.1@) == run(events@, n as int, page as int, target as int, mode).served,
{
    let ghost nn = n as int;
    let ghost pg = page as int;
    let ghost tg = target as int;
    let mut served: Vec<usize> = Vec::new();
    let mut i: usize = 0;
    while i < n
        invariant
            i <= n,
            served@.len() == i,
            forall|j: int| 0 <= j < i ==> #[trigger] served@[j] == 0,
        decreases n - i,
    {
        served.push(0);
        i = i + 1;
    }
    assert(events@.take(0) =~= Seq::<(i64, usize)>::empty());
    assert(counts(served@) =~= run(events@.take(0), nn, pg, tg, mode).served);
    let mut requests: usize = 1;
    let mut stopped = false;
    let mut k: usize = 0;
    while k < events.len() && !stopped
        invariant
            page >= 1,
            nn == n as int,
            pg == page as int,
            tg == target as int,
            events@.len() < usize::MAX,
            positions_below(events@, nn),
            k <= events@.len(),
            served@.len() == n,
            requests as int == run(events@.take(k as int), nn, pg, tg, mode).requests,
            counts(served@) == run(events@.take(k as int), nn, pg, tg, mode).served,
            stopped == run(events@.take(k as int), nn, pg, tg, mode).stopped,
            !stopped ==> run(events@.take(k as int), nn, pg, tg, mode).consumed == k,
            requests <= k + 1,
        decreases events@.len() - k,
    {
        let ghost pre = events@.take(k as int);
        proof {
            assert(positions_below(pre, nn));
            lemma_run_shape(pre, nn, pg, tg, mode);
            assert(events@.take(k as int + 1).drop_last() =~= pre);
            assert(events@.take(k as int + 1).last() == events@[k as int]);
        }
        let who = events[k].1;
        assert(counts(served@)[who as int] == served@[who as int] as int);
        let ghost before = served@;
        served.set(who, served[who] + 1);
        assert(counts(served@) =~= counts(before).update(who as int, counts(before)[who as int] + 1));
        if (k + 1) % page == 0 {
            if reached(&served, target, mode) {
                stopped = true;
            } else {
                requests = requests + 1;
            }
        }
        k = k + 1;
    }
    proof {
        if stopped {
            lemma_stopped_stays(events@, k as int, nn, pg, tg, mode);
        } else {
            assert(events@.take(k as int) =~= events@);
        }
    }
    (requests, served)
}

/// Order of the working list: by timestamp, ties by batch position.
pub open spec fn pair_le(a: (i64, usize), b: (i64, usize)) -> bool {
    a.0 < b.0 || (a.0 == b.0 && a.1 <= b.1)
}

pub open spec fn in_time_order(s: Seq<(i64, usize)>) -> bool {
    forall|i: int, j: int| 0 <= i < j < s.len() ==> pair_le(#[trigger] s[i], #[trigger] s[j])
}

/// The events of user `id`, tagged with its batch position `pos`.
pub open spec fn user_events(log: Map<usize, Seq<Tweet>>, id: usize, pos: int) -> Seq<(i64, usize)> {
    if log.contains_key(id) {
        log[id].map_values(|t: Tweet| (t.timestamp, pos as usize))
    } else {
        Seq::empty()
    }
}

/// The merged working list of a batch: the events of each of its users, in
/// batch order, before sorting.
pub open spec fn batch_events(users: Seq<User>, log: Map<usize, Seq<Tweet>>) -> Seq<(i64, usize)>
    decreases users.len(),
{
    if users.len() == 0 {
        Seq::empty()
    } else {
        batch_events(users.drop_last(), log) + user_events(
            log,
            users.last().id,
            users.len() - 1,
        )
    }
}

/// The working list sorted by time.
pub open spec fn time_order(w: Seq<(i64, usize)>) -> Seq<(i64, usize)> {
    w.sort_by(time_le())
}

pub open spec fn time_le() -> spec_fn((i64, usize), (i64, usize)) -> bool {
    |a: (i64, usize), b: (i64, usize)| pair_le(a, b)
}

/// The session of a batch: its working list replayed in time order.
pub open spec fn batch_outcome(
    users: Seq<User>,
    log: Map<usize, Seq<Tweet>>,
    page: int,
    target: int,
    mode: FetchMode,
) -> Fetch {
    run(time_order(batch_events(users, log)), users.len() as int, page, target, mode)
}

proof fn lemma_pair_le_total()
    ensures
        total_ordering(time_le()),
{
}

/// Two time-ordered lists with the same elements are the same list.
proof fn lemma_time_order_unique(s1: Seq<(i64, usize)>, s2: Seq<(i64, usize)>)
    requires
        in_time_order(s1),
        in_time_order(s2),
        s1.to_multiset() == s2.to_multiset(),
    ensures
        s1 == s2,
    decreases s1.len(),
{
    broadcast use vstd::seq_lib::group_to_multiset_ensures;

    assert(s1.len() == s1.to_multiset().len());
    assert(s2.len() == s2.to_multiset().len());
    if s1.len() == 0 {
        assert(s1 =~= s2);
    } else {
        let a = s1[0];
        let b = s2[0];
        assert(s2.to_multiset().count(a) > 0);
        assert(s2.contains(a));
        let j = choose|j: int| 0 <= j < s2.len() && s2[j] == a;
        if j > 0 {
            assert(pair_le(s2[0], s2[j]));
        }
        assert(s1.to_multiset().count(b) > 0);
        assert(s1.contains(b));
        let i = choose|i: int| 0 <= i < s1.len() && s1[i] == b;
        if i > 0 {
            assert(pair_le(s1[0], s1[i]));
        }
        assert(a == b);
        let r1 = s1.remove(0);
        let r2 = s2.remove(0);
        assert(r1.to_multiset() == s1.to_multiset().remove(a));
        assert(r2.to_multiset() == s2.to_multiset().remove(b));
        assert(in_time_order(r1)) by {
            assert forall|x: int, y: int| 0 <= x < y < r1.len() implies pair_le(#[trigger] r1[x], #[trigger] r1[y]) by {
                assert(r1[x] == s1[x + 1] && r1[y] == s1[y + 1]);
            }
        }
        assert(in_time_order(r2)) by {
            assert forall|x: int, y: int| 0 <= x < y < r2.len() implies pair_le(#[trigger] r2[x], #[trigger] r2[y]) by {
                assert(r2[x] == s2[x + 1] && r2[y] == s2[y + 1]);
            }
        }
        lemma_time_order_unique(r1, r2);
        assert forall|x: int| 0 <= x < s1.len() implies s1[x] == s2[x] by {
            if x > 0 {
                assert(s1[x] == r1[x - 1] && s2[x] == r2[x - 1]);
            }
        }
        assert(s1 =~= s2);
    }
}

/// Relies on `slice::sort_unstable`: it reorders the elements (a permutation)
/// into ascending order of the tuples, compared by timestamp and then by
/// position.
#[verifier::external_body]
fn sort_in_time_order(v: &mut Vec<(i64, usize)>)
    ensures
        final(v)@.to_multiset() == old(v)@.to_multiset(),
        in_time_order(final(v)@),
{
    v.sort_unstable();
}

/// Simulates the fetch session of one batch: all events of its users merged
/// and sorted by time, then fetched a page at a time until the stop criterion
/// of `mode` holds at a page boundary or the events run out. Returns the
/// number of requests and, for each user of the batch in batch order, the
/// number of its events delivered.
pub fn simulate_request(
    users: &Vec<User>,
    log: &EventLog,
    page: usize,
    target: usize,
    mode: FetchMode,
) -> (r: (usize, Vec<usize>))
    requires
        page >= 1,
        batch_events(users@, log@).len() < usize::MAX,
    ensures
        r.0 as int == batch_outcome(users@, log@, page as int, target as int, mode).requests,
        counts(r.1@) == batch_outcome(users@, log@, page as int, target as int, mode).served,
        r.1@.len() == users@.len(),
        r.0 >= 1,
{
    let ghost logv = log@;
    let mut work: Vec<(i64, usize)> = Vec::new();
    let mut i: usize = 0;
    while i < users.len()
        invariant
            i <= users@.len(),
            logv == log@,
            work@ == batch_events(users@.take(i as int), logv),
            positions_below(work@, i as int),
        decreases users@.len() - i,
    {
        let id = users[i].id;
        let ghost base = work@;
        assert(users@.take(i as int + 1).drop_last() =~= users@.take(i as int));
        assert(users@.take(i as int + 1).last() == users@[i as int]);
        match log.get(id) {
            Some(v) => {
                let mut j: usize = 0;
                while j < v.len()
                    invariant
                        j <= v@.len(),
                        logv.contains_key(id),
                        v@ == logv[id],
                        work@ == base + user_events(logv, id, i as int).take(j as int),
                        positions_below(base, i as int),
                        positions_below(work@, i as int + 1),
                    decreases v@.len() - j,
                {
                    let t = v[j];
                    work.push((t.timestamp, i));
                    assert(user_events(logv, id, i as int).take(j as int + 1) =~= user_events(
                        logv,
                        id,
                        i as int,
                    ).take(j as int).push((t.timestamp, i)));
                    j = j + 1;
                }
                assert(user_events(logv, id, i as int).take(j as int) =~= user_events(
                    logv,
                    id,
                    i as int,
                ));
            },
            None => {
                assert(work@ =~= base + user_events(logv, id, i as int));
            },
        }
        i = i + 1;
    }
    assert(users@.take(i as int) =~= users@);
    let ghost unsorted = work@;
    sort_in_time_order(&mut work);
    proof {
        broadcast use vstd::seq_lib::group_to_multiset_ensures;

        let leq = time_le();
        lemma_pair_le_total();
        unsorted.lemma_sort_by_ensures(leq);
        let sorted = unsorted.sort_by(leq);
        assert forall|x: int, y: int| 0 <= x < y < sorted.len() implies pair_le(#[trigger] sorted[x], #[trigger] sorted[y]) by {
            assert(leq(sorted[x], sorted[y]));
        }
        lemma_time_order_unique(work@, unsorted.sort_by(leq));
        assert(work@.len() == work@.to_multiset().len());
        assert(unsorted.len() == unsorted.to_multiset().len());
        assert forall|k: int| 0 <= k < work@.len() implies (#[trigger] work@[k]).1 < users@.len() by {
            assert(work@.to_multiset().count(work@[k]) > 0);
            assert(unsorted.contains(work@[k]));
        }
        lemma_run_shape(work@, users@.len() as int, page as int, target as int, mode);
    }
    count_requests(&work, users.len(), page, target, mode)
}

proof fn lemma_modes_compare(events: Seq<(i64, usize)>, n: int, page: int, target: int)
    requires
        n >= 0,
        page >= 1,
        positions_below(events, n),
    ensures
        run(events, n, page, target, FetchMode::All).requests >= run(
            events,
            n,
            page,
            target,
            FetchMode::First,
        ).requests,
        !run(events, n, page, target, FetchMode::First).stopped ==> (!run(
            events,
            n,
            page,
            target,
            FetchMode::All,
        ).stopped && run(events, n, page, target, FetchMode::All) == run(
            events,
            n,
            page,
            target,
            FetchMode::First,
        )),
    decreases events.len(),
{
    if events.len() > 0 {
        let prev = events.drop_last();
        assert(positions_below(prev, n)) by {
            assert forall|k: int| 0 <= k < prev.len() implies (#[trigger] prev[k]).1 < n by {
                assert(prev[k] == events[k]);
            }
        }
        lemma_modes_compare(prev, n, page, target);
        lemma_run_shape(prev, n, page, target, FetchMode::First);
        let f = run(prev, n, page, target, FetchMode::First);
        let who = events.last().1 as int;
        assert(events.last() == events[events.len() - 1]);
        if !f.stopped {
            let served = f.served.update(who, f.served[who] + 1);
            if satisfied(served, target, FetchMode::All) {
                assert(served[who] >= target);
                assert(satisfied(served, target, FetchMode::First));
            }
        }
    }
}

/// For the same batch, events and target, stopping only once every user is
/// satisfied never takes fewer requests than stopping once one user is.
pub proof fn lemma_all_needs_at_least_first(
    users: Seq<User>,
    log: Map<usize, Seq<Tweet>>,
    page: int,
    target: int,
)
    requires
        page >= 1,
    ensures
        batch_outcome(users, log, page, target, FetchMode::All).requests >= batch_outcome(
            users,
            log,
            page,
            target,
            FetchMode::First,
        ).requests,
{
    lemma_time_order_positions(users, log);
    lemma_modes_compare(time_order(batch_events(users, log)), users.len() as int, page, target);
}

proof fn lemma_batch_events_positions(users: Seq<User>, log: Map<usize, Seq<Tweet>>)
    ensures
        positions_below(batch_events(users, log), users.len() as int),
    decreases users.len(),
{
    if users.len() > 0 {
        lemma_batch_events_positions(users.drop_last(), log);
    }
}

proof fn lemma_time_order_positions(users: Seq<User>, log: Map<usize, Seq<Tweet>>)
    ensures
        positions_below(time_order(batch_events(users, log)), users.len() as int),
        time_order(batch_events(users, log)).len() == batch_events(users, log).len(),
{
    broadcast use vstd::seq_lib::group_to_multiset_ensures;

    let w = batch_events(users, log);
    let sorted = time_order(w);
    lemma_batch_events_positions(users, log);
    lemma_pair_le_total();
    w.lemma_sort_by_ensures(time_le());
    assert(w.len() == w.to_multiset().len());
    assert(sorted.len() == sorted.to_multiset().len());
    assert forall|k: int| 0 <= k < sorted.len() implies (#[trigger] sorted[k]).1 < users.len() by {
        assert(sorted.to_multiset().count(sorted[k]) > 0);
        assert(w.contains(sorted[k]));
    }
}

/// Events of the batch's users that the log holds, counting each user's
/// `tweet_count` where it has an entry.
pub open spec fn logged_count(users: Seq<User>, log: Map<usize, Seq<Tweet>>) -> int
    decreases users.len(),
{
    if users.len() == 0 {
        0
    } else {
        logged_count(users.drop_last(), log) + if log.contains_key(users.last().id) {
            users.last().tweet_count as int
        } else {
            0
        }
    }
}

/// The log holds `tweet_count` events for each user of the batch it has an
/// entry for.
pub open spec fn log_agrees(users: Seq<User>, log: Map<usize, Seq<Tweet>>) -> bool {
    forall|i: int|
        0 <= i < users.len() && log.contains_key(#[trigger] users[i].id) ==> log[users[i].id].len()
            == users[i].tweet_count
}

/// The served counts of a batch sum to the number of events delivered; when
/// no stop happened that is every event of the working list, which is the sum
/// of `tweet_count` over the batch's users that have a log entry.
pub proof fn lemma_served_sum(
    users: Seq<User>,
    log: Map<usize, Seq<Tweet>>,
    page: int,
    target: int,
    mode: FetchMode,
)
    requires
        page >= 1,
        log_agrees(users, log),
    ensures
        total(batch_outcome(users, log, page, target, mode).served) == batch_outcome(
            users,
            log,
            page,
            target,
            mode,
        ).consumed,
        batch_events(users, log).len() == logged_count(users, log),
        !batch_outcome(users, log, page, target, mode).stopped ==> batch_outcome(
            users,
            log,
            page,
            target,
            mode,
        ).consumed == batch_events(users, log).len(),
{
    lemma_time_order_positions(users, log);
    lemma_run_shape(time_order(batch_events(users, log)), users.len() as int, page, target, mode);
    lemma_batch_events_len(users, log);
}

proof fn lemma_batch_events_len(users: Seq<User>, log: Map<usize, Seq<Tweet>>)
    requires
        log_agrees(users, log),
    ensures
        batch_events(users, log).len() == logged_count(users, log),
    decreases users.len(),
{
    if users.len() > 0 {
        let prev = users.drop_last();
        assert(log_agrees(prev, log)) by {
            assert forall|i: int| 0 <= i < prev.len() && log.contains_key(#[trigger] prev[i].id) implies log[prev[i].id].len() == prev[i].tweet_count by {
                assert(prev[i] == users[i]);
            }
        }
        lemma_batch_events_len(prev, log);
        assert(users.last() == users[users.len() - 1]);
    }
}

/// Bounds of a batch's session in terms of its working list.
pub proof fn lemma_served_shape(
    users: Seq<User>,
    log: Map<usize, Seq<Tweet>>,
    page: int,
    target: int,
    mode: FetchMode,
)
    requires
        page >= 1,
    ensures
        1 <= batch_outcome(users, log, page, target, mode).requests <= batch_events(users, log).len() + 1,
        0 <= total(batch_outcome(users, log, page, target, mode).served) <= batch_events(users, log).len(),
{
    lemma_time_order_positions(users, log);
    lemma_run_shape(time_order(batch_events(users, log)), users.len() as int, page, target, mode);
}

} // verus!
